//! The built-in provider: which desktop files are applications of this desktop,
//! and the inventory that they make.

use crate::config::{MAX_INVENTORY_APPS, MAX_INVENTORY_APP_TEXT_BYTES, MAX_INVENTORY_EXEC_BYTES};
use crate::json::{encoded, json_of_text, Document, Json};
use crate::text::{
    chars_of, contains_text, decimal, find_char, holds_char, is_before, join, join_path, len_bytes,
    same_text, split, text_between, to_lowercase, trim,
};
use vstd::prelude::*;
use vstd::string::*;

verus! {

pub const MAX_DESKTOP_FILE_BYTES: u64 = 1048576;

pub const MAX_DESKTOP_WALK_ENTRIES: usize = 50000;

/// What the frame of an inventory is counted with, in bytes.
pub const INVENTORY_FRAME_BYTES: usize = 1024;

/// What the frame of an entry is counted with, in bytes.
pub const ENTRY_FRAME_BYTES: usize = 128;

/// An application that was found.
#[derive(Debug, PartialEq, Eq)]
pub struct Entry {
    pub id: String,
    pub name: String,
    pub icon: String,
    /// The command line that starts the application.
    pub command: String,
    pub terminal: bool,
    pub desktop_file: String,
}

/// What an entry holds: id, name, icon, command, terminal flag, desktop file.
pub open spec fn entry_value(e: Entry) -> (
    Seq<char>,
    Seq<char>,
    Seq<char>,
    Seq<char>,
    bool,
    Seq<char>,
) {
    (e.id@, e.name@, e.icon@, e.command@, e.terminal, e.desktop_file@)
}

/// What a list of entries holds.
pub open spec fn entry_values(entries: Seq<Entry>) -> Seq<
    (Seq<char>, Seq<char>, Seq<char>, Seq<char>, bool, Seq<char>),
> {
    Seq::new(entries.len(), |i: int| entry_value(entries[i]))
}

/// The keys of a desktop entry that matter.
#[derive(Debug)]
pub struct Fields {
    pub kind: Option<String>,
    pub name: Option<String>,
    /// The name for the locale, and the one for its language.
    pub exact_name: Option<String>,
    pub language_name: Option<String>,
    pub icon: String,
    pub command: Option<String>,
    pub try_exec: Option<String>,
    pub terminal: bool,
    pub hidden: bool,
    pub no_display: bool,
    pub only_show_in: Option<Vec<String>>,
    pub not_show_in: Option<Vec<String>>,
}

/// What the keys hold, and whether the lines so far end inside the section
/// `[Desktop Entry]`.
#[verifier::ext_equal]
pub struct FieldsView {
    pub inside: bool,
    pub kind: Option<Seq<char>>,
    pub name: Option<Seq<char>>,
    pub exact_name: Option<Seq<char>>,
    pub language_name: Option<Seq<char>>,
    pub icon: Seq<char>,
    pub command: Option<Seq<char>>,
    pub try_exec: Option<Seq<char>>,
    pub terminal: bool,
    pub hidden: bool,
    pub no_display: bool,
    pub only_show_in: Option<Seq<Seq<char>>>,
    pub not_show_in: Option<Seq<Seq<char>>>,
}

/// The texts of an optional list.
pub open spec fn opt_texts(list: Option<Vec<String>>) -> Option<Seq<Seq<char>>> {
    match list {
        Some(v) => Some(crate::text::texts(v@)),
        None => None,
    }
}

impl Fields {
    /// What the keys hold.
    pub open spec fn seen(self, inside: bool) -> FieldsView {
        FieldsView {
            inside,
            kind: crate::text::opt_text(self.kind),
            name: crate::text::opt_text(self.name),
            exact_name: crate::text::opt_text(self.exact_name),
            language_name: crate::text::opt_text(self.language_name),
            icon: self.icon@,
            command: crate::text::opt_text(self.command),
            try_exec: crate::text::opt_text(self.try_exec),
            terminal: self.terminal,
            hidden: self.hidden,
            no_display: self.no_display,
            only_show_in: opt_texts(self.only_show_in),
            not_show_in: opt_texts(self.not_show_in),
        }
    }
}

/// The keys before the first line.
pub open spec fn no_fields() -> FieldsView {
    FieldsView {
        inside: false,
        kind: None,
        name: None,
        exact_name: None,
        language_name: None,
        icon: Seq::empty(),
        command: None,
        try_exec: None,
        terminal: false,
        hidden: false,
        no_display: false,
        only_show_in: None,
        not_show_in: None,
    }
}

/// Whether a value is `true`, whatever the case.
pub open spec fn says_true(value: Seq<char>) -> bool {
    &&& value.len() == 4
    &&& value[0] == 't' || value[0] == 'T'
    &&& value[1] == 'r' || value[1] == 'R'
    &&& value[2] == 'u' || value[2] == 'U'
    &&& value[3] == 'e' || value[3] == 'E'
}

/// The parts between separators without white space around them; empty ones do
/// not count.
pub open spec fn listed(parts: Seq<Seq<char>>) -> Seq<Seq<char>>
    decreases parts.len(),
{
    if parts.len() == 0 {
        Seq::empty()
    } else {
        let before = listed(parts.drop_last());
        let part = crate::text::trimmed(parts.last());
        if part.len() == 0 {
            before
        } else {
            before.push(part)
        }
    }
}

/// The names in a list.
pub open spec fn name_list(value: Seq<char>, separator: char) -> Seq<Seq<char>> {
    listed(crate::text::split_text(value, separator))
}

/// The keys of the localised names.
pub open spec fn name_key(locale: Seq<char>) -> Seq<char> {
    "Name["@ + locale + "]"@
}

/// The keys after one more assignment. Of several assignments the last one
/// holds.
pub open spec fn assigned(
    f: FieldsView,
    key: Seq<char>,
    value: Seq<char>,
    locale: Seq<char>,
    language: Seq<char>,
) -> FieldsView {
    if key == "Type"@ {
        FieldsView { kind: Some(value), ..f }
    } else if key == "Name"@ {
        FieldsView { name: Some(value), ..f }
    } else if key == name_key(locale) {
        FieldsView { exact_name: Some(value), ..f }
    } else if key == name_key(language) {
        FieldsView { language_name: Some(value), ..f }
    } else if key == "Icon"@ {
        FieldsView { icon: value, ..f }
    } else if key == "Exec"@ {
        FieldsView { command: Some(value), ..f }
    } else if key == "TryExec"@ {
        FieldsView { try_exec: Some(crate::text::trimmed(value)), ..f }
    } else if key == "Terminal"@ {
        FieldsView { terminal: says_true(value), ..f }
    } else if key == "Hidden"@ {
        FieldsView { hidden: says_true(value), ..f }
    } else if key == "NoDisplay"@ {
        FieldsView { no_display: says_true(value), ..f }
    } else if key == "OnlyShowIn"@ {
        FieldsView { only_show_in: Some(name_list(value, ';')), ..f }
    } else if key == "NotShowIn"@ {
        FieldsView { not_show_in: Some(name_list(value, ';')), ..f }
    } else {
        f
    }
}

/// The keys after one more line, which has no white space around it: a section
/// header, a comment, an assignment, or nothing.
pub open spec fn after_line(
    f: FieldsView,
    line: Seq<char>,
    locale: Seq<char>,
    language: Seq<char>,
) -> FieldsView {
    if line.len() > 0 && line[0] == '[' && line.last() == ']' {
        FieldsView { inside: line == "[Desktop Entry]"@, ..f }
    } else if !f.inside || (line.len() > 0 && line[0] == '#') {
        f
    } else {
        match crate::text::first_at(line, '=') {
            None => f,
            Some(at) => assigned(f, line.take(at), line.skip(at + 1), locale, language),
        }
    }
}

/// The keys after the lines.
pub open spec fn after_lines(
    lines: Seq<Seq<char>>,
    locale: Seq<char>,
    language: Seq<char>,
) -> FieldsView
    decreases lines.len(),
{
    if lines.len() == 0 {
        no_fields()
    } else {
        after_line(
            after_lines(lines.drop_last(), locale, language),
            crate::text::trimmed(lines.last()),
            locale,
            language,
        )
    }
}

/// The keys of a desktop file.
pub open spec fn fields_of(text: Seq<char>, locale: Seq<char>) -> FieldsView {
    after_lines(crate::text::split_text(text, '\n'), locale, language_of(locale))
}

/// The part of a text before a character, or all of it.
pub open spec fn up_to(s: Seq<char>, c: char) -> Seq<char> {
    crate::text::split_text(s, c)[0]
}

/// The language of a locale.
pub open spec fn language_of(locale: Seq<char>) -> Seq<char> {
    up_to(locale, '_')
}

fn before_char(s: &str, c: char) -> (r: String)
    ensures
        r@ == up_to(s@, c),
{
    let mut parts = split(s, c);
    let first = parts.remove(0);
    first
}

/// The locale for names: that of messages, else the general one, without its
/// encoding.
pub fn name_locale(lc_messages: Option<String>, lang: Option<String>) -> (r: String)
    ensures
        r@ == up_to(
            match lc_messages {
                Some(text) => text@,
                None => crate::text::text_or_empty(lang),
            },
            '.',
        ),
{
    let whole = match lc_messages {
        Some(text) => text,
        None => crate::text::text_or_empty_of(lang),
    };
    before_char(whole.as_str(), '.')
}

fn is_true(value: &str) -> (r: bool)
    ensures
        r == says_true(value@),
{
    let v = chars_of(value);
    v.len() == 4 && (v[0] == 't' || v[0] == 'T') && (v[1] == 'r' || v[1] == 'R') && (v[2] == 'u'
        || v[2] == 'U') && (v[3] == 'e' || v[3] == 'E')
}

fn list_names(value: &str, separator: char) -> (r: Vec<String>)
    ensures
        crate::text::texts(r@) == name_list(value@, separator),
{
    let parts = split(value, separator);
    let ghost views = crate::text::texts(parts@);
    let mut out: Vec<String> = Vec::new();
    let mut i: usize = 0;
    assert(crate::text::texts(out@) =~= listed(views.take(0)));
    while i < parts.len()
        invariant
            i <= parts.len(),
            views == crate::text::texts(parts@),
            crate::text::texts(out@) == listed(views.take(i as int)),
        decreases parts.len() - i,
    {
        proof {
            assert(views.take(i + 1).drop_last() =~= views.take(i as int));
            assert(views.take(i + 1).last() == parts@[i as int]@);
        }
        let name = trim(parts[i].as_str());
        if !name.as_str().is_empty() {
            let ghost before = crate::text::texts(out@);
            out.push(name);
            assert(crate::text::texts(out@) =~= before.push(name@));
        }
        i = i + 1;
    }
    assert(views.take(i as int) =~= views);
    out
}

/// The desktops in a list such as `OnlyShowIn`.
pub fn desktop_set(value: &str) -> (r: Vec<String>)
    ensures
        crate::text::texts(r@) == name_list(value@, ';'),
{
    list_names(value, ';')
}

/// The names of the running desktop.
pub fn current_desktops(value: Option<String>) -> (r: Vec<String>)
    ensures
        crate::text::texts(r@) == name_list(crate::text::text_or_empty(value), ':'),
{
    let whole = crate::text::text_or_empty_of(value);
    list_names(whole.as_str(), ':')
}

/// The key `Name[...]` of a locale.
fn localised_key(locale: &str) -> (r: String)
    ensures
        r@ == name_key(locale@),
{
    let mut key = "Name[".to_owned();
    key.append(locale);
    key.append("]");
    key
}

fn assign(
    f: &mut Fields,
    key: &str,
    value: String,
    exact_key: &str,
    language_key: &str,
    Ghost(locale): Ghost<Seq<char>>,
    Ghost(language): Ghost<Seq<char>>,
)
    requires
        exact_key@ == name_key(locale),
        language_key@ == name_key(language),
    ensures
        final(f).seen(true) == assigned(old(f).seen(true), key@, value@, locale, language),
{
    if same_text(key, "Type") {
        f.kind = Some(value);
    } else if same_text(key, "Name") {
        f.name = Some(value);
    } else if same_text(key, exact_key) {
        f.exact_name = Some(value);
    } else if same_text(key, language_key) {
        f.language_name = Some(value);
    } else if same_text(key, "Icon") {
        f.icon = value;
    } else if same_text(key, "Exec") {
        f.command = Some(value);
    } else if same_text(key, "TryExec") {
        f.try_exec = Some(trim(value.as_str()));
    } else if same_text(key, "Terminal") {
        f.terminal = is_true(value.as_str());
    } else if same_text(key, "Hidden") {
        f.hidden = is_true(value.as_str());
    } else if same_text(key, "NoDisplay") {
        f.no_display = is_true(value.as_str());
    } else if same_text(key, "OnlyShowIn") {
        f.only_show_in = Some(desktop_set(value.as_str()));
    } else if same_text(key, "NotShowIn") {
        f.not_show_in = Some(desktop_set(value.as_str()));
    }
}

/// The keys of a desktop file, with the names for a locale.
pub fn parse_fields(text: &str, locale: &str) -> (r: Fields)
    ensures
        exists|inside: bool| #[trigger] r.seen(inside) == fields_of(text@, locale@),
        r.terminal == fields_of(text@, locale@).terminal,
        r.hidden == fields_of(text@, locale@).hidden,
        r.no_display == fields_of(text@, locale@).no_display,
        r.icon@ == fields_of(text@, locale@).icon,
{
    let language = before_char(locale, '_');
    let exact_key = localised_key(locale);
    let language_key = localised_key(language.as_str());
    let ghost loc = locale@;
    let ghost lan = language@;
    let lines = split(text, '\n');
    let ghost views = crate::text::texts(lines@);
    let mut f = Fields {
        kind: None,
        name: None,
        exact_name: None,
        language_name: None,
        icon: String::new(),
        command: None,
        try_exec: None,
        terminal: false,
        hidden: false,
        no_display: false,
        only_show_in: None,
        not_show_in: None,
    };
    let mut inside = false;
    let mut i: usize = 0;
    assert(f.seen(inside) =~= after_lines(views.take(0), loc, lan));
    while i < lines.len()
        invariant
            i <= lines.len(),
            views == crate::text::texts(lines@),
            loc == locale@,
            lan == language@,
            exact_key@ == name_key(loc),
            language_key@ == name_key(lan),
            f.seen(inside) == after_lines(views.take(i as int), loc, lan),
        decreases lines.len() - i,
    {
        proof {
            assert(views.take(i + 1).drop_last() =~= views.take(i as int));
            assert(views.take(i + 1).last() == lines@[i as int]@);
        }
        let line = trim(lines[i].as_str());
        let v = chars_of(line.as_str());
        let n: usize = v.len();
        assert(v@.subrange(0, n as int) =~= v@);
        if n > 0 && v[0] == '[' && v[n - 1] == ']' {
            inside = same_text(line.as_str(), "[Desktop Entry]");
        } else if inside && !(n > 0 && v[0] == '#') {
            if let Some(at) = find_char(&v, 0, n, '=') {
                proof {
                    assert(v@.subrange(0, at as int) =~= v@.take(at as int));
                    assert(v@.subrange(at + 1, n as int) =~= v@.skip(at + 1));
                }
                let key = text_between(&v, 0, at);
                let value = text_between(&v, at + 1, n);
                assign(
                    &mut f,
                    key.as_str(),
                    value,
                    exact_key.as_str(),
                    language_key.as_str(),
                    Ghost(loc),
                    Ghost(lan),
                );
            }
        }
        i = i + 1;
    }
    assert(views.take(i as int) =~= views);
    assert(f.seen(inside) == fields_of(text@, locale@));
    f
}

/// Whether two lists have no text in common.
pub open spec fn disjoint(a: Seq<Seq<char>>, b: Seq<Seq<char>>) -> bool {
    forall|i: int| 0 <= i < a.len() ==> !b.contains(#[trigger] a[i])
}

fn are_disjoint(a: &Vec<String>, b: &Vec<String>) -> (r: bool)
    ensures
        r == disjoint(crate::text::texts(a@), crate::text::texts(b@)),
{
    let ghost views = crate::text::texts(a@);
    let mut i: usize = 0;
    while i < a.len()
        invariant
            i <= a.len(),
            views == crate::text::texts(a@),
            forall|k: int| 0 <= k < i ==> !crate::text::texts(b@).contains(#[trigger] views[k]),
        decreases a.len() - i,
    {
        assert(views[i as int] == a@[i as int]@);
        if contains_text(b, a[i].as_str()) {
            return false;
        }
        i = i + 1;
    }
    true
}

/// Whether an entry is an application that this desktop shows: not hidden, of
/// the right type, for one of its desktops and against none, and its program is
/// there.
pub open spec fn shown_here(
    f: FieldsView,
    desktops: Seq<Seq<char>>,
    try_exec_found: bool,
) -> bool {
    &&& !f.hidden
    &&& !f.no_display
    &&& f.kind == Some("Application"@)
    &&& f.only_show_in is Some ==> !disjoint(f.only_show_in->0, desktops)
    &&& f.not_show_in is Some ==> disjoint(f.not_show_in->0, desktops)
    &&& f.try_exec is Some ==> try_exec_found
}

/// The name to show: for the locale, else for its language, else the plain one.
pub open spec fn shown_name(f: FieldsView) -> Option<Seq<char>> {
    if f.exact_name is Some {
        f.exact_name
    } else if f.language_name is Some {
        f.language_name
    } else {
        f.name
    }
}

/// The entry that a desktop file makes, if any.
pub open spec fn entry_of(
    id: Seq<char>,
    path: Seq<char>,
    path_bytes: int,
    f: FieldsView,
    desktops: Seq<Seq<char>>,
    try_exec_found: bool,
) -> Option<(Seq<char>, Seq<char>, Seq<char>, Seq<char>, bool, Seq<char>)> {
    if !shown_here(f, desktops, try_exec_found) || shown_name(f) is None || f.command is None {
        None
    } else {
        let name = crate::text::trimmed(shown_name(f)->0);
        let command = crate::text::trimmed(f.command->0);
        let limit = MAX_INVENTORY_APP_TEXT_BYTES;
        if name.len() == 0 || command.len() == 0 || crate::text::byte_len(id) > limit
            || crate::text::byte_len(name) > limit || crate::text::byte_len(f.icon) > limit
            || crate::text::byte_len(command) > MAX_INVENTORY_EXEC_BYTES || path_bytes > limit {
            None
        } else {
            Some((id, name, f.icon, command, f.terminal, path))
        }
    }
}

fn desktops_allow(fields: &Fields, desktops: &Vec<String>) -> (r: bool)
    ensures
        r == ({
            let f = fields.seen(false);
            &&& f.only_show_in is Some ==> !disjoint(
                f.only_show_in->0,
                crate::text::texts(desktops@),
            )
            &&& f.not_show_in is Some ==> disjoint(
                f.not_show_in->0,
                crate::text::texts(desktops@),
            )
        }),
{
    if let Some(allowed) = &fields.only_show_in {
        if are_disjoint(allowed, desktops) {
            return false;
        }
    }
    if let Some(blocked) = &fields.not_show_in {
        if !are_disjoint(blocked, desktops) {
            return false;
        }
    }
    true
}

/// The entry that a desktop file makes, if any. `path_bytes` is the length of
/// its path; `try_exec_found` says whether the program of its `TryExec` key, if
/// it has one, is there.
pub fn parse_entry(
    id: &str,
    path: &str,
    path_bytes: usize,
    fields: Fields,
    current_desktops: &Vec<String>,
    try_exec_found: bool,
) -> (r: Option<Entry>)
    ensures
        match r {
            Some(entry) => entry_of(
                id@,
                path@,
                path_bytes as int,
                fields.seen(false),
                crate::text::texts(current_desktops@),
                try_exec_found,
            ) == Some(entry_value(entry)),
            None => entry_of(
                id@,
                path@,
                path_bytes as int,
                fields.seen(false),
                crate::text::texts(current_desktops@),
                try_exec_found,
            ) is None,
        },
        r is Some ==> {
            &&& r->0.id@ == id@
            &&& r->0.icon@ == fields.icon@
            &&& r->0.terminal == fields.terminal
            &&& r->0.desktop_file@ == path@
            &&& !fields.hidden
            &&& !fields.no_display
            &&& fields.kind is Some && fields.kind->0@ == "Application"@
            &&& fields.command is Some && r->0.command@ == crate::text::trimmed(
                fields.command->0@,
            )
            &&& fields.exact_name is Some ==> r->0.name@ == crate::text::trimmed(
                fields.exact_name->0@,
            )
            &&& fields.exact_name is None && fields.language_name is Some ==> r->0.name@
                == crate::text::trimmed(fields.language_name->0@)
            &&& fields.exact_name is None && fields.language_name is None ==> fields.name is Some
                && r->0.name@ == crate::text::trimmed(fields.name->0@)
        },
{
    if fields.hidden || fields.no_display {
        return None;
    }
    match &fields.kind {
        Some(kind) => if !same_text(kind.as_str(), "Application") {
            return None;
        },
        None => {
            return None;
        },
    }
    if !desktops_allow(&fields, current_desktops) {
        return None;
    }
    if fields.try_exec.is_some() && !try_exec_found {
        return None;
    }
    let name = match (&fields.exact_name, &fields.language_name, &fields.name) {
        (Some(name), _, _) => trim(name.as_str()),
        (None, Some(name), _) => trim(name.as_str()),
        (None, None, Some(name)) => trim(name.as_str()),
        (None, None, None) => {
            return None;
        },
    };
    let command = match &fields.command {
        Some(command) => trim(command.as_str()),
        None => {
            return None;
        },
    };
    if name.as_str().is_empty() || command.as_str().is_empty() || len_bytes(id)
        > MAX_INVENTORY_APP_TEXT_BYTES || len_bytes(name.as_str()) > MAX_INVENTORY_APP_TEXT_BYTES
        || len_bytes(fields.icon.as_str()) > MAX_INVENTORY_APP_TEXT_BYTES || len_bytes(
        command.as_str(),
    ) > MAX_INVENTORY_EXEC_BYTES || path_bytes > MAX_INVENTORY_APP_TEXT_BYTES {
        return None;
    }
    Some(
        Entry {
            id: id.to_owned(),
            name,
            icon: fields.icon,
            command,
            terminal: fields.terminal,
            desktop_file: path.to_owned(),
        },
    )
}

/// Whether a file may be read as a desktop file.
pub fn desktop_file_allowed(is_file: bool, length: u64) -> (r: bool)
    ensures
        r == (is_file && length <= MAX_DESKTOP_FILE_BYTES),
        r <==> is_file && length <= 1048576,
{
    is_file && length <= MAX_DESKTOP_FILE_BYTES
}

/// The places where a program may be: the path itself, or its name in each
/// directory of the search path.
pub open spec fn program_places(name: Seq<char>, search_path: Option<Seq<char>>) -> Seq<Seq<char>> {
    if name.contains('/') {
        seq![name]
    } else {
        match search_path {
            Some(directories) => below_each(crate::text::split_text(directories, ':'), name),
            None => Seq::empty(),
        }
    }
}

/// A name below each directory.
pub open spec fn below_each(directories: Seq<Seq<char>>, name: Seq<char>) -> Seq<Seq<char>> {
    Seq::new(directories.len(), |i: int| crate::text::path_joined(directories[i], name))
}

fn join_each(directories: &Vec<String>, name: &str) -> (r: Vec<String>)
    ensures
        crate::text::texts(r@) == below_each(crate::text::texts(directories@), name@),
{
    let mut out: Vec<String> = Vec::new();
    let mut i: usize = 0;
    while i < directories.len()
        invariant
            i <= directories.len(),
            out@.len() == i,
            forall|k: int|
                0 <= k < i ==> (#[trigger] out@[k])@ == crate::text::path_joined(
                    directories@[k]@,
                    name@,
                ),
        decreases directories.len() - i,
    {
        out.push(join_path(directories[i].as_str(), name));
        i = i + 1;
    }
    assert(crate::text::texts(out@) =~= below_each(crate::text::texts(directories@), name@));
    out
}

/// The places where a program may be. It exists if one of them is an executable
/// file.
pub fn executable_places(name: &str, search_path: Option<String>) -> (r: Vec<String>)
    ensures
        crate::text::texts(r@) == program_places(name@, crate::text::opt_text(search_path)),
{
    if holds_char(name, '/') {
        let mut out: Vec<String> = Vec::new();
        out.push(name.to_owned());
        assert(crate::text::texts(out@) =~= seq![name@]);
        return out;
    }
    match search_path {
        Some(directories) => {
            let list = split(directories.as_str(), ':');
            join_each(&list, name)
        },
        None => {
            let out: Vec<String> = Vec::new();
            assert(crate::text::texts(out@) =~= Seq::<Seq<char>>::empty());
            out
        },
    }
}

/// The texts that are not empty.
pub open spec fn non_empty(list: Seq<Seq<char>>) -> Seq<Seq<char>>
    decreases list.len(),
{
    if list.len() == 0 {
        Seq::empty()
    } else if list.last().len() == 0 {
        non_empty(list.drop_last())
    } else {
        non_empty(list.drop_last()).push(list.last())
    }
}

fn keep_non_empty(list: &Vec<String>) -> (r: Vec<String>)
    ensures
        crate::text::texts(r@) == non_empty(crate::text::texts(list@)),
{
    let ghost views = crate::text::texts(list@);
    let mut out: Vec<String> = Vec::new();
    let mut i: usize = 0;
    assert(crate::text::texts(out@) =~= non_empty(views.take(0)));
    while i < list.len()
        invariant
            i <= list.len(),
            views == crate::text::texts(list@),
            crate::text::texts(out@) == non_empty(views.take(i as int)),
        decreases list.len() - i,
    {
        proof {
            assert(views.take(i + 1).drop_last() =~= views.take(i as int));
            assert(views.take(i + 1).last() == list@[i as int]@);
        }
        if !list[i].as_str().is_empty() {
            let ghost before = crate::text::texts(out@);
            out.push(list[i].clone());
            assert(crate::text::texts(out@) =~= before.push(list@[i as int]@));
        }
        i = i + 1;
    }
    assert(views.take(i as int) =~= views);
    out
}

/// The directories of data that come with the system.
pub open spec fn system_roots(data_dirs: Option<Seq<char>>) -> Seq<Seq<char>> {
    let listed = match data_dirs {
        Some(value) => non_empty(crate::text::split_text(value, ':')),
        None => Seq::empty(),
    };
    if listed.len() == 0 {
        seq!["/usr/local/share"@, "/usr/share"@]
    } else {
        listed
    }
}

/// The directory of the user's own data.
pub open spec fn user_roots(data_home: Option<Seq<char>>, local_dir: Option<Seq<char>>) -> Seq<
    Seq<char>,
> {
    match data_home {
        Some(home) if home.len() > 0 => seq![home],
        _ => match local_dir {
            Some(home) => seq![home],
            None => Seq::empty(),
        },
    }
}

/// The directories that may hold desktop files, the user's own first. Those that
/// exist are scanned.
pub fn application_dirs(
    data_home: Option<String>,
    local_dir: Option<String>,
    data_dirs: Option<String>,
) -> (r: Vec<String>)
    ensures
        crate::text::texts(r@) == below_each(
            user_roots(crate::text::opt_text(data_home), crate::text::opt_text(local_dir))
                + system_roots(crate::text::opt_text(data_dirs)),
            "applications"@,
        ),
{
    let mut roots: Vec<String> = Vec::new();
    let own = match data_home {
        Some(home) if !home.as_str().is_empty() => Some(home),
        _ => local_dir,
    };
    if let Some(home) = own {
        roots.push(home);
    }
    let ghost user = user_roots(crate::text::opt_text(data_home), crate::text::opt_text(local_dir));
    assert(crate::text::texts(roots@) =~= user);
    let mut system = match data_dirs {
        Some(value) => {
            let parts = split(value.as_str(), ':');
            keep_non_empty(&parts)
        },
        None => Vec::new(),
    };
    if system.len() == 0 {
        system.push("/usr/local/share".to_owned());
        system.push("/usr/share".to_owned());
    }
    assert(crate::text::texts(system@) =~= system_roots(crate::text::opt_text(data_dirs)));
    roots.append(&mut system);
    assert(crate::text::texts(roots@) =~= user + system_roots(crate::text::opt_text(data_dirs)));
    join_each(&roots, "applications")
}

/// The id of a desktop file: its path below the applications directory, with
/// dashes for the slashes.
pub fn desktop_id(components: &Vec<String>) -> (r: Option<String>)
    ensures
        match r {
            Some(id) => id@ == crate::text::joined(crate::text::texts(components@), "-"@)
                && id@.len() > 0,
            None => crate::text::joined(crate::text::texts(components@), "-"@).len() == 0,
        },
{
    let id = join(components, "-");
    if id.as_str().is_empty() {
        None
    } else {
        Some(id)
    }
}

/// The bytes that an entry is counted with: each of its texts as JSON, and a
/// frame.
pub open spec fn counted_bytes(e: Entry) -> nat {
    let texts = seq![e.id@, e.name@, e.icon@, e.command@, e.desktop_file@];
    ENTRY_FRAME_BYTES as nat + crate::text::byte_len(crate::json::json_text(texts[0]))
        + crate::text::byte_len(crate::json::json_text(texts[1])) + crate::text::byte_len(
        crate::json::json_text(texts[2]),
    ) + crate::text::byte_len(crate::json::json_text(texts[3])) + crate::text::byte_len(
        crate::json::json_text(texts[4]),
    )
}

/// Two sizes together, or the largest machine number.
fn plus(a: usize, b: usize) -> (r: usize)
    ensures
        r == crate::materialize::saturated((a + b) as nat),
{
    if b > usize::MAX - a {
        usize::MAX
    } else {
        a + b
    }
}

fn measured(total: usize, field: &str) -> (r: Result<usize, String>)
    ensures
        r is Ok,
        r->Ok_0 == crate::materialize::saturated(
            total as nat + crate::text::byte_len(crate::json::json_text(field@)),
        ),
{
    match json_of_text(field) {
        Ok(encoded) => Ok(plus(total, len_bytes(encoded.as_str()))),
        Err(error) => {
            let mut message = "unable to measure desktop inventory field: ".to_owned();
            message.append(error.as_str());
            Err(message)
        },
    }
}

/// The bytes that an entry is counted with.
pub fn encoded_entry_bytes(entry: &Entry) -> (r: Result<usize, String>)
    ensures
        r is Ok,
        r->Ok_0 == crate::materialize::saturated(counted_bytes(*entry)),
{
    let mut total: usize = ENTRY_FRAME_BYTES;
    match measured(total, entry.id.as_str()) {
        Ok(sum) => {
            total = sum;
        },
        Err(e) => {
            return Err(e);
        },
    }
    match measured(total, entry.name.as_str()) {
        Ok(sum) => {
            total = sum;
        },
        Err(e) => {
            return Err(e);
        },
    }
    match measured(total, entry.icon.as_str()) {
        Ok(sum) => {
            total = sum;
        },
        Err(e) => {
            return Err(e);
        },
    }
    match measured(total, entry.command.as_str()) {
        Ok(sum) => {
            total = sum;
        },
        Err(e) => {
            return Err(e);
        },
    }
    measured(total, entry.desktop_file.as_str())
}

/// The complaint about an inventory beyond its provider's share.
pub open spec fn share_text(max_bytes: usize) -> Seq<char> {
    "desktop inventory exceeded this provider's fair-share limit of "@
        + crate::text::decimal_text(max_bytes as nat) + " bytes"@
}

fn share_message(max_bytes: usize) -> (r: String)
    ensures
        r@ == share_text(max_bytes),
{
    let mut message =
        "desktop inventory exceeded this provider's fair-share limit of ".to_owned();
    message.append(decimal(max_bytes as u128).as_str());
    message.append(" bytes");
    message
}

/// A scan of desktop files.
#[derive(Debug)]
pub struct Scan {
    /// The ids that were met, shown or not: the first directory that has an id
    /// decides about it.
    pub seen: Vec<String>,
    pub entries: Vec<Entry>,
    pub encoded_bytes: usize,
}

/// Whether the file name of a path has the extension of desktop files.
pub open spec fn is_desktop_file(components: Seq<Seq<char>>) -> bool {
    components.len() > 0 && components.last().len() > 8 && ".desktop"@.is_suffix_of(
        components.last(),
    )
}

fn names_desktop_file(components: &Vec<String>) -> (r: bool)
    ensures
        r == is_desktop_file(crate::text::texts(components@)),
{
    if components.len() == 0 {
        return false;
    }
    let name = chars_of(components[components.len() - 1].as_str());
    let n: usize = name.len();
    if n <= 8 {
        return false;
    }
    proof {
        reveal_strlit(".desktop");
        assert(name@.subrange(n - 8, n as int) =~= name@.skip(n - 8));
    }
    let end = text_between(&name, n - 8, n);
    let ghost last = name@;
    proof {
        if ".desktop"@.is_suffix_of(last) {
            assert(last.subrange(n - 8, n as int) =~= ".desktop"@);
        }
        if end@ == ".desktop"@ {
            assert(".desktop"@ =~= last.subrange(n - 8, n as int));
        }
    }
    same_text(end.as_str(), ".desktop")
}

/// What a directory walk came upon.
#[derive(Debug)]
pub enum Met {
    Unreadable,
    /// Something with its path below the applications directory.
    Item { file_or_link: bool, components: Vec<String> },
}

/// What a scan does about it.
#[derive(Debug)]
pub enum ScanStep {
    Skip,
    /// The directory is finished with: no more applications are accepted.
    Stop,
    Cancelled(String),
    /// The file has to be read, under this id.
    Read(String),
}

/// The most applications that a scan accepts.
pub open spec fn app_room(max_apps: usize) -> usize {
    if max_apps < MAX_INVENTORY_APPS {
        max_apps
    } else {
        MAX_INVENTORY_APPS
    }
}

/// The ids of entries.
pub open spec fn entry_ids(entries: Seq<Entry>) -> Seq<Seq<char>> {
    Seq::new(entries.len(), |i: int| entries[i].id@)
}

impl Scan {
    /// No id is met twice, and no id is listed twice or without having been
    /// met.
    pub open spec fn wf(self) -> bool {
        &&& crate::text::texts(self.seen@).no_duplicates()
        &&& entry_ids(self.entries@).no_duplicates()
        &&& forall|i: int|
            0 <= i < self.entries@.len() ==> crate::text::texts(self.seen@).contains(
                #[trigger] entry_ids(self.entries@)[i],
            )
    }

    /// A scan that has met nothing, unless it is already cancelled.
    pub fn begin(cancelled: bool) -> (r: Result<Self, String>)
        ensures
            match r {
                Ok(scan) => {
                    &&& !cancelled
                    &&& scan.wf()
                    &&& scan.seen@.len() == 0
                    &&& scan.entries@.len() == 0
                    &&& scan.encoded_bytes == INVENTORY_FRAME_BYTES
                },
                Err(message) => cancelled && message@ == "desktop inventory cancelled"@,
            },
    {
        if cancelled {
            return Err("desktop inventory cancelled".to_owned());
        }
        Ok(Scan { seen: Vec::new(), entries: Vec::new(), encoded_bytes: INVENTORY_FRAME_BYTES })
    }

    /// What to do about something that the walk came upon.
    pub fn visit(&mut self, met: &Met, cancelled: bool, max_apps: usize) -> (r: ScanStep)
        ensures
            old(self).wf() ==> final(self).wf(),
            old(self).wf() && r is Read ==> !entry_ids(final(self).entries@).contains(r->Read_0@),
            final(self).entries@ == old(self).entries@,
            final(self).encoded_bytes == old(self).encoded_bytes,
            if cancelled {
                &&& r is Cancelled
                &&& r->Cancelled_0@ == "desktop inventory cancelled"@
                &&& final(self).seen@ == old(self).seen@
            } else {
                match *met {
                    Met::Unreadable => r is Skip && final(self).seen@ == old(self).seen@,
                    Met::Item { file_or_link, components } => {
                        let id = crate::text::joined(crate::text::texts(components@), "-"@);
                        if old(self).entries@.len() >= app_room(max_apps) {
                            r is Stop && final(self).seen@ == old(self).seen@
                        } else if !file_or_link || !is_desktop_file(
                            crate::text::texts(components@),
                        ) || id.len() == 0 || crate::text::texts(old(self).seen@).contains(id) {
                            r is Skip && final(self).seen@ == old(self).seen@
                        } else {
                            &&& r is Read
                            &&& r->Read_0@ == id
                            &&& crate::text::texts(final(self).seen@) == crate::text::texts(
                                old(self).seen@,
                            ).push(id)
                        }
                    },
                }
            },
    {
        if cancelled {
            return ScanStep::Cancelled("desktop inventory cancelled".to_owned());
        }
        match met {
            Met::Unreadable => ScanStep::Skip,
            Met::Item { file_or_link, components } => {
                let room: usize = if max_apps < MAX_INVENTORY_APPS {
                    max_apps
                } else {
                    MAX_INVENTORY_APPS
                };
                if self.entries.len() >= room {
                    return ScanStep::Stop;
                }
                if !*file_or_link || !names_desktop_file(components) {
                    return ScanStep::Skip;
                }
                match desktop_id(components) {
                    None => ScanStep::Skip,
                    Some(id) => {
                        if contains_text(&self.seen, id.as_str()) {
                            return ScanStep::Skip;
                        }
                        let ghost before = crate::text::texts(self.seen@);
                        self.seen.push(id.clone());
                        assert(crate::text::texts(self.seen@) =~= before.push(id@));
                        proof {
                            if old(self).wf() {
                                let ids = entry_ids(self.entries@);
                                assert forall|i: int| 0 <= i < ids.len() implies before.push(
                                    id@,
                                ).contains(#[trigger] ids[i]) by {
                                    let at = choose|at: int|
                                        0 <= at < before.len() && before[at] == ids[i];
                                    assert(before.push(id@)[at] == ids[i]);
                                }
                            }
                        }
                        ScanStep::Read(id)
                    },
                }
            },
        }
    }

    /// Takes an entry, unless the inventory would exceed its provider's share.
    pub fn accept(&mut self, entry: Entry, max_bytes: usize) -> (r: Result<(), String>)
        ensures
            old(self).wf() && crate::text::texts(old(self).seen@).contains(entry.id@)
                && !entry_ids(old(self).entries@).contains(entry.id@) ==> final(self).wf(),
            final(self).seen@ == old(self).seen@,
            final(self).encoded_bytes == crate::materialize::saturated(
                old(self).encoded_bytes as nat + crate::materialize::saturated(
                    counted_bytes(entry),
                ) as nat,
            ),
            if final(self).encoded_bytes > max_bytes {
                r is Err && r->Err_0@ == share_text(max_bytes) && final(self).entries@ == old(
                    self,
                ).entries@
            } else {
                r == Ok::<(), String>(()) && final(self).entries@ == old(self).entries@.push(entry)
            },
    {
        let own: usize = match encoded_entry_bytes(&entry) {
            Ok(own) => own,
            Err(e) => {
                return Err(e);
            },
        };
        self.encoded_bytes = plus(self.encoded_bytes, own);
        if self.encoded_bytes > max_bytes {
            return Err(share_message(max_bytes));
        }
        let ghost before = entry_ids(self.entries@);
        self.entries.push(entry);
        assert(entry_ids(self.entries@) =~= before.push(entry.id@));
        Ok(())
    }
}

/// Whether an entry stands before another: by name, whatever the case, then by
/// id.
pub open spec fn entry_before(a: Entry, b: Entry) -> bool {
    let x = crate::text::lowercase(a.name@);
    let y = crate::text::lowercase(b.name@);
    crate::text::text_before(x, y) || (x == y && crate::text::text_before(a.id@, b.id@))
}

/// Whether no entry stands behind one that it belongs before.
pub open spec fn entries_in_order(entries: Seq<Entry>) -> bool {
    forall|i: int, j: int|
        0 <= i < j < entries.len() ==> !entry_before(#[trigger] entries[j], #[trigger] entries[i])
}

proof fn entry_order(a: Entry, b: Entry, c: Entry)
    requires
        !entry_before(b, a),
        !entry_before(c, b),
    ensures
        !entry_before(c, a),
{
    let x = crate::text::lowercase(a.name@);
    let y = crate::text::lowercase(b.name@);
    let z = crate::text::lowercase(c.name@);
    crate::text::text_order_is_total(x, y);
    crate::text::text_order_is_total(y, z);
    crate::text::text_order_is_total(x, z);
    crate::text::text_order_is_total(a.id@, b.id@);
    crate::text::text_order_is_total(b.id@, c.id@);
    crate::text::text_order_is_total(a.id@, c.id@);
    if crate::text::text_before(x, y) && crate::text::text_before(y, z) {
        crate::text::text_order_is_transitive(x, y, z);
    }
    if crate::text::text_before(a.id@, b.id@) && crate::text::text_before(b.id@, c.id@) {
        crate::text::text_order_is_transitive(a.id@, b.id@, c.id@);
    }
}

fn stands_before(a: &Entry, b: &Entry) -> (r: bool)
    ensures
        r == entry_before(*a, *b),
{
    let x = to_lowercase(a.name.as_str());
    let y = to_lowercase(b.name.as_str());
    is_before(x.as_str(), y.as_str()) || (same_text(x.as_str(), y.as_str()) && is_before(
        a.id.as_str(),
        b.id.as_str(),
    ))
}

/// Whether neither of two entries stands before the other: their names are the
/// same, whatever the case, and so are their ids.
pub open spec fn stand_alike(a: Entry, b: Entry) -> bool {
    crate::text::lowercase(a.name@) == crate::text::lowercase(b.name@) && a.id@ == b.id@
}

/// The entries that stand alike with `e`, in their order.
pub open spec fn alike(entries: Seq<Entry>, e: Entry) -> Seq<Entry>
    decreases entries.len(),
{
    if entries.len() == 0 {
        Seq::empty()
    } else {
        let before = alike(entries.drop_last(), e);
        if stand_alike(entries.last(), e) {
            before.push(entries.last())
        } else {
            before
        }
    }
}

/// Whether these are the given entries, sorted: each of them in its place, and
/// those that stand alike in the order that they came in.
pub open spec fn sorted_from(sorted: Seq<Entry>, entries: Seq<Entry>) -> bool {
    &&& entries_in_order(sorted)
    &&& sorted.to_multiset() == entries.to_multiset()
    &&& forall|e: Entry| #[trigger] alike(sorted, e) == alike(entries, e)
}

proof fn alike_in_parts(a: Seq<Entry>, b: Seq<Entry>, e: Entry)
    ensures
        alike(a + b, e) == alike(a, e) + alike(b, e),
    decreases b.len(),
{
    if b.len() == 0 {
        assert(a + b =~= a);
        assert(alike(a, e) + alike(b, e) =~= alike(a, e));
    } else {
        assert((a + b).drop_last() =~= a + b.drop_last());
        alike_in_parts(a, b.drop_last(), e);
        assert(alike(a + b, e) =~= alike(a, e) + alike(b, e));
    }
}

proof fn none_alike(entries: Seq<Entry>, e: Entry)
    requires
        forall|k: int| 0 <= k < entries.len() ==> !stand_alike(#[trigger] entries[k], e),
    ensures
        alike(entries, e) == Seq::<Entry>::empty(),
    decreases entries.len(),
{
    if entries.len() > 0 {
        assert(!stand_alike(entries[entries.len() - 1], e));
        assert forall|k: int| 0 <= k < entries.drop_last().len() implies !stand_alike(
            #[trigger] entries.drop_last()[k],
            e,
        ) by {
            assert(entries[k] == entries.drop_last()[k]);
        }
        none_alike(entries.drop_last(), e);
    }
}

proof fn inserted_behind_its_like(before: Seq<Entry>, at: int, entry: Entry, e: Entry)
    requires
        0 <= at <= before.len(),
        forall|k: int| at <= k < before.len() ==> entry_before(entry, #[trigger] before[k]),
    ensures
        alike(before.insert(at, entry), e) == alike(before.push(entry), e),
{
    let front = before.take(at);
    let back = before.skip(at);
    let one = seq![entry];
    assert(before.insert(at, entry) =~= (front + one) + back);
    assert(before =~= front + back);
    assert(before.push(entry).drop_last() =~= before);
    alike_in_parts(front + one, back, e);
    alike_in_parts(front, one, e);
    alike_in_parts(front, back, e);
    assert(one.drop_last() =~= Seq::<Entry>::empty());
    reveal_with_fuel(alike, 2);
    if stand_alike(entry, e) {
        assert forall|k: int| 0 <= k < back.len() implies !stand_alike(#[trigger] back[k], e) by {
            assert(entry_before(entry, before[at + k]));
            crate::text::text_order_is_total(
                crate::text::lowercase(entry.name@),
                crate::text::lowercase(back[k].name@),
            );
            crate::text::text_order_is_total(entry.id@, back[k].id@);
        }
        none_alike(back, e);
        assert(alike(before.insert(at, entry), e) =~= alike(before, e).push(entry));
    } else {
        assert(alike(one, e) =~= Seq::<Entry>::empty());
        assert(alike(before.insert(at, entry), e) =~= alike(before, e));
    }
}

/// The entries by name, whatever the case, then by id. Entries that stand alike
/// keep their order.
pub fn sort_entries(entries: Vec<Entry>) -> (r: Vec<Entry>)
    ensures
        sorted_from(r@, entries@),
{
    let ghost all = entries@;
    let mut left = entries;
    let mut out: Vec<Entry> = Vec::new();
    proof {
        assert(all.skip(0) =~= all);
        assert(out@ =~= all.take(0));
    }
    let count: usize = left.len();
    let mut done: usize = 0;
    while done < count
        invariant
            done <= count,
            count == all.len(),
            left@ == all.skip(done as int),
            entries_in_order(out@),
            out@.to_multiset() == all.take(done as int).to_multiset(),
            forall|e: Entry| #[trigger] alike(out@, e) == alike(all.take(done as int), e),
        decreases count - done,
    {
        let entry = left.remove(0);
        proof {
            assert(left@ =~= all.skip(done + 1));
            assert(entry == all[done as int]);
        }
        let mut at: usize = out.len();
        while at > 0 && stands_before(&entry, &out[at - 1])
            invariant
                0 <= at <= out.len(),
                forall|k: int| at <= k < out@.len() ==> entry_before(entry, #[trigger] out@[k]),
            decreases at,
        {
            at = at - 1;
        }
        let ghost before = out@;
        proof {
            vstd::seq_lib::to_multiset_insert(before, at as int, entry);
            vstd::seq_lib::to_multiset_build(all.take(done as int), entry);
            assert(all.take(done + 1) =~= all.take(done as int).push(entry));
        }
        out.insert(at, entry);
        proof {
            let after = out@;
            assert(after =~= before.insert(at as int, entry));
            assert forall|e: Entry| #[trigger] alike(after, e) == alike(
                all.take(done + 1),
                e,
            ) by {
                inserted_behind_its_like(before, at as int, entry, e);
                assert(before.push(entry).drop_last() =~= before);
                assert(all.take(done + 1).drop_last() =~= all.take(done as int));
                assert(alike(before, e) == alike(all.take(done as int), e));
            }
            assert forall|i: int, j: int| 0 <= i < j < after.len() implies !entry_before(
                #[trigger] after[j],
                #[trigger] after[i],
            ) by {
                if j < at {
                    assert(!entry_before(before[j], before[i]));
                } else if j == at {
                    assert(!entry_before(entry, before[at - 1]));
                    if i < at - 1 {
                        assert(!entry_before(before[at - 1], before[i]));
                        entry_order(before[i], before[at - 1], entry);
                    }
                } else if i == at {
                    assert(entry_before(entry, before[j - 1]));
                    entry_asymmetric(entry, before[j - 1]);
                } else if i < at {
                    assert(!entry_before(before[j - 1], before[i]));
                } else {
                    assert(!entry_before(before[j - 1], before[i - 1]));
                }
            }
        }
        done = done + 1;
    }
    assert(all.take(count as int) =~= all);
    out
}

proof fn entry_asymmetric(a: Entry, b: Entry)
    requires
        entry_before(a, b),
    ensures
        !entry_before(b, a),
{
    crate::text::text_order_is_total(
        crate::text::lowercase(a.name@),
        crate::text::lowercase(b.name@),
    );
    crate::text::text_order_is_total(a.id@, b.id@);
}

/// The document of an application.
pub open spec fn app_json(e: Entry) -> Json {
    Json::Object(
        map![
            "id"@ => Json::Text(e.id@),
            "name"@ => Json::Text(e.name@),
            "icon"@ => Json::Text(e.icon@),
            "exec"@ => Json::Text(e.command@),
            "terminal"@ => Json::Flag(e.terminal),
            "desktop_file"@ => Json::Text(e.desktop_file@),
        ],
    )
}

/// The document of a folder.
pub open spec fn folder_json(label: Seq<char>, apps: Seq<Entry>) -> Json {
    Json::Object(
        map![
            "label"@ => Json::Text(label),
            "apps"@ => Json::List(Seq::new(apps.len(), |i: int| app_json(apps[i]))),
        ],
    )
}

/// The document of an inventory without an error and with one folder.
pub open spec fn inventory_json(host: Seq<char>, label: Seq<char>, apps: Seq<Entry>) -> Json {
    Json::Object(
        map![
            "host"@ => Json::Text(host),
            "error"@ => Json::Null,
            "folders"@ => Json::List(seq![folder_json(label, apps)]),
        ],
    )
}

fn text_of(s: &str) -> (r: Document)
    ensures
        r.wf(),
        r.json() == Json::Text(s@),
{
    Document::Text(s.to_owned())
}

proof fn inventory_keys()
    ensures
        "id"@.len() == 2,
        "name"@.len() == 4 && "name"@[0] == 'n',
        "icon"@.len() == 4 && "icon"@[0] == 'i',
        "exec"@.len() == 4 && "exec"@[0] == 'e',
        "terminal"@.len() == 8,
        "desktop_file"@.len() == 12,
        "label"@.len() == 5,
        "apps"@.len() == 4,
        "host"@.len() == 4,
        "error"@.len() == 5,
        "folders"@.len() == 7,
{
    reveal_strlit("id");
    reveal_strlit("name");
    reveal_strlit("icon");
    reveal_strlit("exec");
    reveal_strlit("terminal");
    reveal_strlit("desktop_file");
    reveal_strlit("label");
    reveal_strlit("apps");
    reveal_strlit("host");
    reveal_strlit("error");
    reveal_strlit("folders");
}

/// The document of an application.
pub fn app_document(e: &Entry) -> (r: Document)
    ensures
        r.wf(),
        r.json() == app_json(*e),
{
    let mut fields: Vec<(String, Document)> = Vec::new();
    fields.push(("id".to_owned(), text_of(e.id.as_str())));
    fields.push(("name".to_owned(), text_of(e.name.as_str())));
    fields.push(("icon".to_owned(), text_of(e.icon.as_str())));
    fields.push(("exec".to_owned(), text_of(e.command.as_str())));
    fields.push(("terminal".to_owned(), Document::Flag(e.terminal)));
    fields.push(("desktop_file".to_owned(), text_of(e.desktop_file.as_str())));
    proof {
        inventory_keys();
        reveal_with_fuel(crate::json::members_of, 7);
        assert(crate::json::members_of(fields@) =~= app_json(*e)->Object_0);
        assert(crate::json::distinct_keys(fields@));
        assert forall|i: int| 0 <= i < fields@.len() implies (#[trigger] fields@[i]).1.wf() by {
            assert(Document::Flag(e.terminal).wf());
        }
    }
    Document::Object(fields)
}

/// The document of an inventory: its host, no error, and one folder with these
/// applications in order.
pub fn inventory_document(host: &str, label: &str, apps: &Vec<Entry>) -> (r: Document)
    ensures
        r.wf(),
        r.json() == inventory_json(host@, label@, apps@),
{
    let mut documents: Vec<Document> = Vec::new();
    let mut i: usize = 0;
    assert(crate::json::list_of(documents@) =~= Seq::new(0, |k: int| app_json(apps@[k])));
    while i < apps.len()
        invariant
            i <= apps.len(),
            forall|k: int| 0 <= k < documents@.len() ==> (#[trigger] documents@[k]).wf(),
            crate::json::list_of(documents@) == Seq::new(i as nat, |k: int| app_json(apps@[k])),
        decreases apps.len() - i,
    {
        let ghost before = documents@;
        documents.push(app_document(&apps[i]));
        proof {
            assert(documents@.drop_last() =~= before);
            assert(crate::json::list_of(documents@) =~= Seq::new(
                (i + 1) as nat,
                |k: int| app_json(apps@[k]),
            ));
        }
        i = i + 1;
    }
    let mut folder: Vec<(String, Document)> = Vec::new();
    folder.push(("label".to_owned(), text_of(label)));
    folder.push(("apps".to_owned(), Document::List(documents)));
    proof {
        inventory_keys();
        reveal_with_fuel(crate::json::members_of, 4);
        assert(crate::json::members_of(folder@) =~= folder_json(label@, apps@)->Object_0);
        assert(crate::json::distinct_keys(folder@));
        assert forall|k: int| 0 <= k < folder@.len() implies (#[trigger] folder@[k]).1.wf() by {
            assert(Document::List(documents).wf());
        }
        assert(Document::Object(folder).wf());
    }
    let mut folders: Vec<Document> = Vec::new();
    folders.push(Document::Object(folder));
    proof {
        reveal_with_fuel(crate::json::list_of, 2);
        assert(crate::json::list_of(folders@) =~= seq![folder_json(label@, apps@)]);
    }
    let mut fields: Vec<(String, Document)> = Vec::new();
    fields.push(("host".to_owned(), text_of(host)));
    fields.push(("error".to_owned(), Document::Null));
    fields.push(("folders".to_owned(), Document::List(folders)));
    proof {
        assert(crate::json::members_of(fields@) =~= inventory_json(host@, label@, apps@)->Object_0);
        assert(crate::json::distinct_keys(fields@));
        assert(folders@[0].wf());
        assert forall|i: int| 0 <= i < fields@.len() implies (#[trigger] fields@[i]).1.wf() by {
            assert(Document::Null.wf());
            assert(Document::List(folders).wf());
        }
    }
    Document::Object(fields)
}

/// A member of an object.
pub open spec fn member(document: Json, key: Seq<char>) -> Json {
    document->Object_0[key]
}

/// The document of an inventory holds it: the host, no error, and one folder
/// with its label and each application in its place, every field of it under its
/// own key.
pub proof fn inventory_document_holds_its_entries(
    host: Seq<char>,
    label: Seq<char>,
    apps: Seq<Entry>,
    i: int,
)
    requires
        0 <= i < apps.len(),
    ensures
        ({
            let document = inventory_json(host, label, apps);
            let folders = member(document, "folders"@);
            let listed = member(folders->List_0[0], "apps"@);
            let app = listed->List_0[i];
            &&& member(document, "host"@) == Json::Text(host)
            &&& member(document, "error"@) == Json::Null
            &&& folders is List && folders->List_0.len() == 1
            &&& member(folders->List_0[0], "label"@) == Json::Text(label)
            &&& listed is List && listed->List_0.len() == apps.len()
            &&& member(app, "id"@) == Json::Text(apps[i].id@)
            &&& member(app, "name"@) == Json::Text(apps[i].name@)
            &&& member(app, "icon"@) == Json::Text(apps[i].icon@)
            &&& member(app, "exec"@) == Json::Text(apps[i].command@)
            &&& member(app, "terminal"@) == Json::Flag(apps[i].terminal)
            &&& member(app, "desktop_file"@) == Json::Text(apps[i].desktop_file@)
        }),
{
    inventory_keys();
}

/// Two inventories with the same document have the same host, the same label and
/// the same applications in the same order.
pub proof fn inventory_document_is_unique(
    host: Seq<char>,
    label: Seq<char>,
    apps: Seq<Entry>,
    other_host: Seq<char>,
    other_label: Seq<char>,
    others: Seq<Entry>,
)
    requires
        inventory_json(host, label, apps) == inventory_json(other_host, other_label, others),
    ensures
        host == other_host,
        label == other_label,
        entry_values(apps) == entry_values(others),
{
    inventory_keys();
    let document = inventory_json(host, label, apps);
    assert(member(document, "host"@) == Json::Text(host));
    assert(member(document, "host"@) == Json::Text(other_host));
    let folder = member(document, "folders"@)->List_0[0];
    assert(folder == folder_json(label, apps));
    assert(folder == folder_json(other_label, others));
    assert(member(folder, "label"@) == Json::Text(label));
    assert(member(folder, "label"@) == Json::Text(other_label));
    let listed = member(folder, "apps"@)->List_0;
    assert(listed == Seq::new(apps.len(), |i: int| app_json(apps[i])));
    assert(listed == Seq::new(others.len(), |i: int| app_json(others[i])));
    assert(apps.len() == others.len());
    assert forall|i: int| 0 <= i < apps.len() implies #[trigger] entry_values(apps)[i]
        == entry_values(others)[i] by {
        inventory_document_holds_its_entries(host, label, apps, i);
        inventory_document_holds_its_entries(other_host, other_label, others, i);
    }
    assert(entry_values(apps) =~= entry_values(others));
}

/// The inventory of the entries that a scan found, as JSON within the
/// provider's share: one folder `Other`, sorted.
pub fn inventory_of(machine: &str, entries: Vec<Entry>, max_bytes: usize) -> (r: Result<
    Vec<u8>,
    String,
>)
    ensures
        exists|sorted: Seq<Entry>|
            {
                let bytes = crate::json::json_bytes(
                    #[trigger] inventory_json(machine@, "Other"@, sorted),
                );
                &&& sorted_from(sorted, entries@)
                &&& if bytes.len() > max_bytes {
                    r is Err && r->Err_0@ == share_text(max_bytes)
                } else {
                    r is Ok && r->Ok_0@ == bytes
                }
            },
{
    let sorted = sort_entries(entries);
    let document = inventory_document(machine, "Other", &sorted);
    match encoded(&document) {
        Ok(bytes) => check_share(bytes, max_bytes),
        Err(error) => {
            let mut message = "unable to encode desktop inventory: ".to_owned();
            message.append(error.as_str());
            Err(message)
        },
    }
}

/// An encoded inventory, if it is within the provider's share.
pub fn check_share(bytes: Vec<u8>, max_bytes: usize) -> (r: Result<Vec<u8>, String>)
    ensures
        if bytes@.len() > max_bytes {
            r is Err && r->Err_0@ == share_text(max_bytes)
        } else {
            r == Ok::<Vec<u8>, String>(bytes)
        },
{
    if bytes.len() > max_bytes {
        Err(share_message(max_bytes))
    } else {
        Ok(bytes)
    }
}

/// A line in square brackets, which begins a group.
pub open spec fn is_heading(line: Seq<char>) -> bool {
    line.len() > 0 && line[0] == '[' && line.last() == ']'
}

/// Whether a line stands in the group of a heading: no other heading is between.
pub open spec fn under_heading(lines: Seq<Seq<char>>, heading: Seq<char>, i: int) -> bool {
    exists|h: int|
        0 <= h < i && #[trigger] crate::text::trimmed(lines[h]) == heading && forall|k: int|
            h < k < i ==> !is_heading(#[trigger] crate::text::trimmed(lines[k]))
}

/// Whether a line of the group of an application gives a value to a key.
pub open spec fn gives_value(lines: Seq<Seq<char>>, i: int, key: Seq<char>) -> bool {
    &&& under_heading(lines, "[Desktop Entry]"@, i)
    &&& (key + seq!['=']).is_prefix_of(crate::text::trimmed(lines[i]))
}

spec fn known_key(key: Seq<char>, locale: Seq<char>, language: Seq<char>) -> bool {
    ||| key == "Type"@
    ||| key == "Name"@
    ||| key == name_key(locale)
    ||| key == name_key(language)
    ||| key == "Icon"@
    ||| key == "Exec"@
    ||| key == "TryExec"@
    ||| key == "Terminal"@
    ||| key == "Hidden"@
    ||| key == "NoDisplay"@
    ||| key == "OnlyShowIn"@
    ||| key == "NotShowIn"@
}

spec fn alike_for(
    key: Seq<char>,
    a: FieldsView,
    b: FieldsView,
    locale: Seq<char>,
    language: Seq<char>,
) -> bool {
    &&& key == "Type"@ ==> a.kind == b.kind
    &&& key == "Name"@ ==> a.name == b.name
    &&& key == name_key(locale) ==> a.exact_name == b.exact_name
    &&& key == name_key(language) && key != name_key(locale) ==> a.language_name == b.language_name
    &&& key == "Icon"@ ==> a.icon == b.icon
    &&& key == "Exec"@ ==> a.command == b.command
    &&& key == "TryExec"@ ==> a.try_exec == b.try_exec
    &&& key == "Terminal"@ ==> a.terminal == b.terminal
    &&& key == "Hidden"@ ==> a.hidden == b.hidden
    &&& key == "NoDisplay"@ ==> a.no_display == b.no_display
    &&& key == "OnlyShowIn"@ ==> a.only_show_in == b.only_show_in
    &&& key == "NotShowIn"@ ==> a.not_show_in == b.not_show_in
}

proof fn keys_differ(locale: Seq<char>)
    ensures
        "Type"@.len() == 4 && "Type"@[0] == 'T',
        "Name"@.len() == 4 && "Name"@[0] == 'N',
        "Icon"@.len() == 4 && "Icon"@[0] == 'I',
        "Exec"@.len() == 4 && "Exec"@[0] == 'E',
        "TryExec"@.len() == 7 && "TryExec"@[0] == 'T',
        "Terminal"@.len() == 8 && "Terminal"@[0] == 'T',
        "Hidden"@.len() == 6 && "Hidden"@[0] == 'H',
        "NoDisplay"@.len() == 9 && "NoDisplay"@[0] == 'N' && "NoDisplay"@[1] == 'o'
            && "NoDisplay"@[2] == 'D',
        "OnlyShowIn"@.len() == 10 && "OnlyShowIn"@[0] == 'O',
        "NotShowIn"@.len() == 9 && "NotShowIn"@[0] == 'N' && "NotShowIn"@[1] == 'o'
            && "NotShowIn"@[2] == 't',
        name_key(locale).len() == 6 + locale.len(),
        name_key(locale)[0] == 'N' && name_key(locale)[1] == 'a',
        "[Desktop Entry]"@.len() == 15 && is_heading("[Desktop Entry]"@),
{
    reveal_strlit("Type");
    reveal_strlit("Name");
    reveal_strlit("Icon");
    reveal_strlit("Exec");
    reveal_strlit("TryExec");
    reveal_strlit("Terminal");
    reveal_strlit("Hidden");
    reveal_strlit("NoDisplay");
    reveal_strlit("OnlyShowIn");
    reveal_strlit("NotShowIn");
    reveal_strlit("Name[");
    reveal_strlit("]");
    reveal_strlit("[Desktop Entry]");
}

proof fn inside_means_under_the_heading(
    lines: Seq<Seq<char>>,
    locale: Seq<char>,
    language: Seq<char>,
)
    ensures
        after_lines(lines, locale, language).inside == under_heading(
            lines,
            "[Desktop Entry]"@,
            lines.len() as int,
        ),
    decreases lines.len(),
{
    keys_differ(locale);
    let heading = "[Desktop Entry]"@;
    let n = lines.len() as int;
    if n > 0 {
        let before = lines.drop_last();
        inside_means_under_the_heading(before, locale, language);
        let last = crate::text::trimmed(lines[n - 1]);
        assert(lines.last() == lines[n - 1]);
        assert forall|k: int| 0 <= k < n - 1 implies lines[k] == before[k] by {}
        if is_heading(last) {
            if last == heading {
                assert(under_heading(lines, heading, n));
            } else if under_heading(lines, heading, n) {
                let h = choose|h: int|
                    0 <= h < n && #[trigger] crate::text::trimmed(lines[h]) == heading && forall|
                        k: int,
                    |
                        h < k < n ==> !is_heading(#[trigger] crate::text::trimmed(lines[k]));
                assert(h == n - 1);
            }
        } else {
            if under_heading(lines, heading, n) {
                let h = choose|h: int|
                    0 <= h < n && #[trigger] crate::text::trimmed(lines[h]) == heading && forall|
                        k: int,
                    |
                        h < k < n ==> !is_heading(#[trigger] crate::text::trimmed(lines[k]));
                assert(h < n - 1);
                assert(crate::text::trimmed(before[h]) == heading);
                assert forall|k: int| h < k < n - 1 implies !is_heading(
                    #[trigger] crate::text::trimmed(before[k]),
                ) by {
                    assert(!is_heading(crate::text::trimmed(lines[k])));
                }
                assert(under_heading(before, heading, n - 1));
            }
            if under_heading(before, heading, n - 1) {
                let h = choose|h: int|
                    0 <= h < n - 1 && #[trigger] crate::text::trimmed(before[h]) == heading
                        && forall|k: int|
                        h < k < n - 1 ==> !is_heading(#[trigger] crate::text::trimmed(before[k]));
                assert(crate::text::trimmed(lines[h]) == heading);
                assert forall|k: int| h < k < n implies !is_heading(
                    #[trigger] crate::text::trimmed(lines[k]),
                ) by {
                    if k < n - 1 {
                        assert(!is_heading(crate::text::trimmed(before[k])));
                    }
                }
                assert(under_heading(lines, heading, n));
            }
        }
    }
}

proof fn other_line_keeps(
    f: FieldsView,
    line: Seq<char>,
    key: Seq<char>,
    locale: Seq<char>,
    language: Seq<char>,
)
    requires
        known_key(key, locale, language),
        !(f.inside && (key + seq!['=']).is_prefix_of(line)),
    ensures
        alike_for(key, after_line(f, line, locale, language), f, locale, language),
{
    keys_differ(locale);
    keys_differ(language);
    crate::text::first_at_is_first(line, '=');
    if let Some(at) = crate::text::first_at(line, '=') {
        if f.inside && line.take(at) == key {
            assert(line.take(at + 1) =~= key + seq!['=']);
            assert((key + seq!['=']) =~= line.subrange(0, (key + seq!['=']).len() as int));
            assert(false);
        }
    }
}

proof fn later_lines_keep(
    lines: Seq<Seq<char>>,
    n: int,
    key: Seq<char>,
    locale: Seq<char>,
    language: Seq<char>,
)
    requires
        0 <= n <= lines.len(),
        known_key(key, locale, language),
        forall|j: int| n <= j < lines.len() ==> !#[trigger] gives_value(lines, j, key),
    ensures
        alike_for(
            key,
            after_lines(lines, locale, language),
            after_lines(lines.take(n), locale, language),
            locale,
            language,
        ),
    decreases lines.len(),
{
    if n == lines.len() {
        assert(lines.take(n) =~= lines);
    } else {
        let before = lines.drop_last();
        let last = lines.len() - 1;
        assert(before.take(n) =~= lines.take(n));
        assert forall|j: int| n <= j < before.len() implies !#[trigger] gives_value(
            before,
            j,
            key,
        ) by {
            assert(!gives_value(lines, j, key));
            group_of_a_prefix(lines, last, j);
            assert(before =~= lines.take(last));
        }
        later_lines_keep(before, n, key, locale, language);
        inside_means_under_the_heading(before, locale, language);
        assert(!gives_value(lines, last, key));
        group_of_a_prefix(lines, last, last);
        assert(before =~= lines.take(last));
        other_line_keeps(
            after_lines(before, locale, language),
            crate::text::trimmed(lines.last()),
            key,
            locale,
            language,
        );
    }
}

proof fn group_of_a_prefix(lines: Seq<Seq<char>>, n: int, i: int)
    requires
        0 <= i <= n <= lines.len(),
    ensures
        under_heading(lines.take(n), "[Desktop Entry]"@, i) == under_heading(
            lines,
            "[Desktop Entry]"@,
            i,
        ),
{
    let heading = "[Desktop Entry]"@;
    let part = lines.take(n);
    assert forall|k: int| 0 <= k < n implies part[k] == lines[k] by {}
    if under_heading(part, heading, i) {
        let h = choose|h: int|
            0 <= h < i && #[trigger] crate::text::trimmed(part[h]) == heading && forall|k: int|
                h < k < i ==> !is_heading(#[trigger] crate::text::trimmed(part[k]));
        assert(crate::text::trimmed(lines[h]) == heading);
        assert forall|k: int| h < k < i implies !is_heading(
            #[trigger] crate::text::trimmed(lines[k]),
        ) by {
            assert(!is_heading(crate::text::trimmed(part[k])));
        }
    }
    if under_heading(lines, heading, i) {
        let h = choose|h: int|
            0 <= h < i && #[trigger] crate::text::trimmed(lines[h]) == heading && forall|k: int|
                h < k < i ==> !is_heading(#[trigger] crate::text::trimmed(lines[k]));
        assert(crate::text::trimmed(part[h]) == heading);
        assert forall|k: int| h < k < i implies !is_heading(
            #[trigger] crate::text::trimmed(part[k]),
        ) by {
            assert(!is_heading(crate::text::trimmed(lines[k])));
        }
    }
}

/// The last value that a key gets in the group `[Desktop Entry]` is the one that
/// counts. A flag is set exactly if that value is `true`, whatever the case.
pub proof fn last_value_counts(
    text: Seq<char>,
    locale: Seq<char>,
    i: int,
    key: Seq<char>,
    value: Seq<char>,
)
    requires
        ({
            let lines = crate::text::split_text(text, '\n');
            &&& 0 <= i < lines.len()
            &&& under_heading(lines, "[Desktop Entry]"@, i)
            &&& crate::text::trimmed(lines[i]) == key + seq!['='] + value
            &&& !key.contains('=')
            &&& forall|j: int| i < j < lines.len() ==> !#[trigger] gives_value(lines, j, key)
        }),
    ensures
        ({
            let f = fields_of(text, locale);
            let language = crate::text::split_text(locale, '_')[0];
            let yes = value.len() == 4 && (value[0] == 't' || value[0] == 'T') && (value[1] == 'r'
                || value[1] == 'R') && (value[2] == 'u' || value[2] == 'U') && (value[3] == 'e'
                || value[3] == 'E');
            &&& key == "Type"@ ==> f.kind == Some(value)
            &&& key == "Name"@ ==> f.name == Some(value)
            &&& key == "Name["@ + locale + "]"@ ==> f.exact_name == Some(value)
            &&& key == "Name["@ + language + "]"@ && language != locale ==> f.language_name == Some(
                value,
            )
            &&& key == "Icon"@ ==> f.icon == value
            &&& key == "Exec"@ ==> f.command == Some(value)
            &&& key == "TryExec"@ ==> f.try_exec == Some(crate::text::trimmed(value))
            &&& key == "Terminal"@ ==> f.terminal == yes
            &&& key == "Hidden"@ ==> f.hidden == yes
            &&& key == "NoDisplay"@ ==> f.no_display == yes
            &&& key == "OnlyShowIn"@ ==> f.only_show_in == Some(name_list(value, ';'))
            &&& key == "NotShowIn"@ ==> f.not_show_in == Some(name_list(value, ';'))
        }),
{
    let lines = crate::text::split_text(text, '\n');
    let language = language_of(locale);
    keys_differ(locale);
    keys_differ(language);
    if known_key(key, locale, language) {
        later_lines_keep(lines, i + 1, key, locale, language);
        let before = lines.take(i);
        let f = after_lines(before, locale, language);
        assert(lines.take(i + 1).drop_last() =~= before);
        assert(lines.take(i + 1).last() == lines[i]);
        inside_means_under_the_heading(before, locale, language);
        group_of_a_prefix(lines, i, i);
        assert(f.inside);
        let line = crate::text::trimmed(lines[i]);
        crate::text::first_at_is_first(line, '=');
        assert(line[key.len() as int] == '=');
        assert forall|k: int| 0 <= k < key.len() implies line[k] != '=' by {
            assert(line[k] == key[k]);
            assert(key.contains(key[k]));
        }
        assert(crate::text::first_at(line, '=') == Some(key.len() as int));
        assert(line.take(key.len() as int) =~= key);
        assert(line.skip(key.len() as int + 1) =~= value);
        assert(line[0] == key[0]);
        if name_key(language) == name_key(locale) {
            let a = name_key(language);
            let b = name_key(locale);
            reveal_strlit("Name[");
            reveal_strlit("]");
            assert(a.subrange(5, a.len() - 1) =~= language);
            assert(b.subrange(5, b.len() - 1) =~= locale);
        }
    }
}

/// A key that gets no value in the group `[Desktop Entry]` is unset, whatever
/// other groups say.
pub proof fn missing_keys_are_unset(text: Seq<char>, locale: Seq<char>, key: Seq<char>)
    requires
        ({
            let lines = crate::text::split_text(text, '\n');
            forall|j: int| 0 <= j < lines.len() ==> !#[trigger] gives_value(lines, j, key)
        }),
    ensures
        ({
            let f = fields_of(text, locale);
            let language = crate::text::split_text(locale, '_')[0];
            &&& key == "Type"@ ==> f.kind is None
            &&& key == "Name"@ ==> f.name is None
            &&& key == "Name["@ + locale + "]"@ ==> f.exact_name is None
            &&& key == "Name["@ + language + "]"@ && key != "Name["@ + locale + "]"@
                ==> f.language_name is None
            &&& key == "Icon"@ ==> f.icon.len() == 0
            &&& key == "Exec"@ ==> f.command is None
            &&& key == "TryExec"@ ==> f.try_exec is None
            &&& key == "Terminal"@ ==> !f.terminal
            &&& key == "Hidden"@ ==> !f.hidden
            &&& key == "NoDisplay"@ ==> !f.no_display
            &&& key == "OnlyShowIn"@ ==> f.only_show_in is None
            &&& key == "NotShowIn"@ ==> f.not_show_in is None
        }),
{
    let lines = crate::text::split_text(text, '\n');
    let language = language_of(locale);
    keys_differ(locale);
    keys_differ(language);
    if known_key(key, locale, language) {
        later_lines_keep(lines, 0, key, locale, language);
        assert(lines.take(0) =~= Seq::empty());
    }
}

/// A list of names holds each part between the separators, without the white
/// space round it, unless nothing is left of it; and it holds nothing else.
pub proof fn listed_names_are_the_parts(value: Seq<char>, separator: char, name: Seq<char>)
    ensures
        name_list(value, separator).contains(name) <==> name.len() > 0 && exists|i: int|
            0 <= i < crate::text::split_text(value, separator).len() && #[trigger]
                crate::text::trimmed(crate::text::split_text(value, separator)[i]) == name,
{
    listed_parts(crate::text::split_text(value, separator), name);
}

proof fn listed_parts(parts: Seq<Seq<char>>, name: Seq<char>)
    ensures
        listed(parts).contains(name) <==> name.len() > 0 && exists|i: int|
            0 <= i < parts.len() && #[trigger] crate::text::trimmed(parts[i]) == name,
    decreases parts.len(),
{
    if parts.len() > 0 {
        let fewer = parts.drop_last();
        let last = crate::text::trimmed(parts.last());
        listed_parts(fewer, name);
        let before = listed(fewer);
        let n = fewer.len() as int;
        assert(crate::text::trimmed(parts[n]) == last);
        assert forall|i: int| 0 <= i < n implies #[trigger] fewer[i] == parts[i] by {}
        if listed(parts).contains(name) {
            if before.contains(name) {
                let i = choose|i: int|
                    0 <= i < fewer.len() && #[trigger] crate::text::trimmed(fewer[i]) == name;
                assert(crate::text::trimmed(parts[i]) == name);
            } else {
                let at = choose|at: int|
                    0 <= at < listed(parts).len() && listed(parts)[at] == name;
                if at < before.len() {
                    assert(before[at] == name);
                }
                assert(last == name);
            }
        }
        if name.len() > 0 && exists|i: int|
            0 <= i < parts.len() && #[trigger] crate::text::trimmed(parts[i]) == name {
            let i = choose|i: int|
                0 <= i < parts.len() && #[trigger] crate::text::trimmed(parts[i]) == name;
            if i < n {
                assert(crate::text::trimmed(fewer[i]) == name);
                let at = choose|at: int| 0 <= at < before.len() && before[at] == name;
                assert(listed(parts)[at] == name);
            } else {
                assert(listed(parts)[before.len() as int] == name);
            }
        }
    }
}

/// A desktop file makes an entry exactly if it is an application that is neither
/// hidden nor without display, this desktop is among those that it is for and not
/// among those that it is not for, its program is there, and its id, name, icon,
/// command and path are neither missing nor too long. The entry has its name in
/// the locale, or else in the language, or else the plain one.
pub proof fn entries_are_made_of_their_keys(
    id: Seq<char>,
    path: Seq<char>,
    path_bytes: int,
    f: FieldsView,
    desktops: Seq<Seq<char>>,
    try_exec_found: bool,
    name: Seq<char>,
    command: Seq<char>,
)
    requires
        f.exact_name is Some ==> name == crate::text::trimmed(f.exact_name->0),
        f.exact_name is None && f.language_name is Some ==> name == crate::text::trimmed(
            f.language_name->0,
        ),
        f.exact_name is None && f.language_name is None && f.name is Some ==> name
            == crate::text::trimmed(f.name->0),
        f.command is Some ==> command == crate::text::trimmed(f.command->0),
    ensures
        ({
            let entry = entry_of(id, path, path_bytes, f, desktops, try_exec_found);
            let named = f.exact_name is Some || f.language_name is Some || f.name is Some;
            &&& entry is Some <==> !f.hidden && !f.no_display && f.kind == Some("Application"@)
                && (f.only_show_in is Some ==> exists|d: Seq<char>|
                f.only_show_in->0.contains(d) && #[trigger] desktops.contains(d)) && (
            f.not_show_in is Some ==> forall|d: Seq<char>|
                f.not_show_in->0.contains(d) ==> !#[trigger] desktops.contains(d)) && (
            f.try_exec is None || try_exec_found) && named && f.command is Some && name.len() > 0
                && command.len() > 0 && crate::text::byte_len(id) <= 4096 && crate::text::byte_len(
                name,
            ) <= 4096 && crate::text::byte_len(f.icon) <= 4096 && crate::text::byte_len(command)
                <= 65536 && path_bytes <= 4096
            &&& entry is Some ==> entry == Some((id, name, f.icon, command, f.terminal, path))
        }),
{
    if f.only_show_in is Some {
        let list = f.only_show_in->0;
        if !disjoint(list, desktops) {
            let i = choose|i: int| 0 <= i < list.len() && desktops.contains(#[trigger] list[i]);
            assert(list.contains(list[i]) && desktops.contains(list[i]));
        } else {
            assert forall|d: Seq<char>| list.contains(d) implies !#[trigger] desktops.contains(
                d,
            ) by {
                let i = choose|i: int| 0 <= i < list.len() && list[i] == d;
                assert(!desktops.contains(list[i]));
            }
        }
    }
    if f.not_show_in is Some {
        let list = f.not_show_in->0;
        if disjoint(list, desktops) {
            assert forall|d: Seq<char>| list.contains(d) implies !#[trigger] desktops.contains(
                d,
            ) by {
                let i = choose|i: int| 0 <= i < list.len() && list[i] == d;
                assert(!desktops.contains(list[i]));
            }
        } else {
            let i = choose|i: int| 0 <= i < list.len() && desktops.contains(#[trigger] list[i]);
            assert(list.contains(list[i]) && desktops.contains(list[i]));
        }
    }
}

/// A program with a slash in its name is looked for at that place only; another
/// one in every directory of the search path, in order.
pub proof fn places_of_a_program(name: Seq<char>, search_path: Option<Seq<char>>, i: int)
    ensures
        ({
            let places = program_places(name, search_path);
            let directories = crate::text::split_text(search_path->0, ':');
            &&& name.contains('/') ==> places == seq![name]
            &&& !name.contains('/') && search_path is None ==> places.len() == 0
            &&& !name.contains('/') && search_path is Some ==> places.len() == directories.len()
            &&& !name.contains('/') && search_path is Some && 0 <= i < directories.len()
                ==> places[i] == crate::text::path_joined(directories[i], name)
        }),
{
}

/// The system's applications are in every directory that the list names, in
/// order; where it names none, in the two usual ones.
pub proof fn roots_of_the_system(list: Seq<char>, part: Seq<char>)
    ensures
        system_roots(None) == seq!["/usr/local/share"@, "/usr/share"@],
        (forall|i: int|
            0 <= i < crate::text::split_text(list, ':').len() ==> (
            #[trigger] crate::text::split_text(list, ':')[i]).len() == 0) ==> system_roots(
            Some(list),
        ) == system_roots(None),
        part.len() > 0 && crate::text::split_text(list, ':').contains(part) ==> system_roots(
            Some(list),
        ).contains(part),
        part.len() > 0 && !crate::text::split_text(list, ':').contains(part) && (exists|i: int|
            0 <= i < crate::text::split_text(list, ':').len() && (
            #[trigger] crate::text::split_text(list, ':')[i]).len() > 0) ==> !system_roots(
            Some(list),
        ).contains(part),
{
    let pieces = crate::text::split_text(list, ':');
    non_empty_holds(pieces, part);
    if forall|i: int| 0 <= i < pieces.len() ==> (#[trigger] pieces[i]).len() == 0 {
        if non_empty(pieces).len() > 0 {
            let first = non_empty(pieces)[0];
            assert(non_empty(pieces).contains(first));
            non_empty_holds(pieces, first);
            let i = choose|i: int| 0 <= i < pieces.len() && pieces[i] == first;
            assert(pieces[i].len() == 0);
        }
    }
    if exists|i: int| 0 <= i < pieces.len() && (#[trigger] pieces[i]).len() > 0 {
        let i = choose|i: int| 0 <= i < pieces.len() && (#[trigger] pieces[i]).len() > 0;
        non_empty_holds(pieces, pieces[i]);
        assert(pieces.contains(pieces[i]));
    }
}

proof fn non_empty_holds(list: Seq<Seq<char>>, part: Seq<char>)
    ensures
        non_empty(list).contains(part) <==> part.len() > 0 && list.contains(part),
    decreases list.len(),
{
    if list.len() > 0 {
        let fewer = list.drop_last();
        non_empty_holds(fewer, part);
        let before = non_empty(fewer);
        let all = non_empty(list);
        if fewer.contains(part) {
            let k = choose|k: int| 0 <= k < fewer.len() && fewer[k] == part;
            assert(list[k] == part);
        }
        if list.contains(part) && !fewer.contains(part) {
            let k = choose|k: int| 0 <= k < list.len() && list[k] == part;
            if k < fewer.len() {
                assert(fewer[k] == part);
            }
            if part.len() > 0 {
                assert(all[before.len() as int] == part);
            }
        }
        if before.contains(part) {
            let k = choose|k: int| 0 <= k < before.len() && before[k] == part;
            assert(all[k] == part);
        }
        if all.contains(part) && !before.contains(part) {
            let k = choose|k: int| 0 <= k < all.len() && all[k] == part;
            if k < before.len() {
                assert(before[k] == part);
            }
            assert(list[list.len() - 1] == part);
        }
    }
}

/// The user's applications are in the directory that is set for them, or else in
/// the usual one of the user, and come before those of the system.
pub proof fn roots_of_the_user(home: Seq<char>, local: Seq<char>)
    ensures
        home.len() > 0 ==> user_roots(Some(home), Some(local)) == seq![home] && user_roots(
            Some(home),
            None,
        ) == seq![home],
        home.len() == 0 ==> user_roots(Some(home), Some(local)) == seq![local],
        user_roots(None, Some(local)) == seq![local],
        user_roots(None, None).len() == 0,
{
}

/// Each directory is joined with the name, in order.
pub proof fn names_below_each_directory(directories: Seq<Seq<char>>, name: Seq<char>, i: int)
    requires
        0 <= i < directories.len(),
    ensures
        below_each(directories, name).len() == directories.len(),
        below_each(directories, name)[i] == crate::text::path_joined(directories[i], name),
{
}

/// A desktop file is one whose name ends in the suffix and has something before
/// it, whatever directories it is in.
pub proof fn desktop_files_by_their_name(
    directories: Seq<Seq<char>>,
    stem: Seq<char>,
    other: Seq<char>,
)
    ensures
        stem.len() > 0 ==> is_desktop_file(directories.push(stem + ".desktop"@)),
        !is_desktop_file(directories.push(".desktop"@)),
        is_desktop_file(directories.push(other)) ==> exists|s: Seq<char>|
            s.len() > 0 && other == #[trigger] (s + ".desktop"@),
{
    reveal_strlit(".desktop");
    let suffix = ".desktop"@;
    let name = stem + suffix;
    assert(directories.push(name).last() == name);
    assert(name.subrange(name.len() - suffix.len(), name.len() as int) =~= suffix);
    assert(directories.push(suffix).last() == suffix);
    assert(directories.push(other).last() == other);
    if is_desktop_file(directories.push(other)) {
        let s = other.take(other.len() - suffix.len());
        assert(other =~= s + suffix);
    }
}

/// No more applications are read than the share allows, and never more than the
/// limit.
pub proof fn room_for_applications(max_apps: usize)
    ensures
        app_room(max_apps) <= max_apps,
        app_room(max_apps) <= 4096,
        app_room(max_apps) == max_apps || app_room(max_apps) == 4096,
{
}

/// Entries stand by their names, whatever the case, and those of one name by their
/// ids.
pub proof fn entries_stand_by_name_then_id(a: Entry, b: Entry)
    ensures
        crate::text::text_before(crate::text::lowercase(a.name@), crate::text::lowercase(b.name@))
            ==> entry_before(a, b),
        crate::text::lowercase(a.name@) == crate::text::lowercase(b.name@) ==> entry_before(a, b)
            == crate::text::text_before(a.id@, b.id@),
        crate::text::text_before(crate::text::lowercase(b.name@), crate::text::lowercase(a.name@))
            ==> !entry_before(a, b),
        entry_before(a, b) ==> !entry_before(b, a),
{
    crate::text::text_order_is_total(
        crate::text::lowercase(a.name@),
        crate::text::lowercase(b.name@),
    );
    if entry_before(a, b) {
        entry_asymmetric(a, b);
    }
}

/// An entry counts with the bytes of all its texts as JSON writes them.
pub proof fn every_text_of_an_entry_counts(e: Entry)
    ensures
        counted_bytes(e) >= crate::text::byte_len(crate::json::json_text(e.id@))
            + crate::text::byte_len(crate::json::json_text(e.name@)) + crate::text::byte_len(
            crate::json::json_text(e.icon@),
        ) + crate::text::byte_len(crate::json::json_text(e.command@)) + crate::text::byte_len(
            crate::json::json_text(e.desktop_file@),
        ),
{
}

/// What contracts say of the keys of a file is said of their fields.
pub proof fn fields_are_shown(f: Fields, inside: bool, i: int)
    ensures
        f.seen(inside).terminal == f.terminal && f.seen(inside).hidden == f.hidden,
        f.seen(inside).no_display == f.no_display && f.seen(inside).icon == f.icon@,
        f.seen(inside).kind == crate::text::opt_text(f.kind),
        f.seen(inside).name == crate::text::opt_text(f.name),
        f.seen(inside).exact_name == crate::text::opt_text(f.exact_name),
        f.seen(inside).language_name == crate::text::opt_text(f.language_name),
        f.seen(inside).command == crate::text::opt_text(f.command),
        f.seen(inside).try_exec == crate::text::opt_text(f.try_exec),
        f.only_show_in is Some <==> f.seen(inside).only_show_in is Some,
        f.only_show_in is Some && 0 <= i < f.only_show_in->0@.len() ==> f.seen(
            inside,
        ).only_show_in->0[i] == f.only_show_in->0@[i]@,
        f.not_show_in is Some <==> f.seen(inside).not_show_in is Some,
        f.not_show_in is Some && 0 <= i < f.not_show_in->0@.len() ==> f.seen(
            inside,
        ).not_show_in->0[i] == f.not_show_in->0@[i]@,
{
}

/// Sorting loses and adds nothing, puts no entry behind one that it stands before,
/// and leaves those that stand alike in their order.
pub proof fn sorted_entries(sorted: Seq<Entry>, entries: Seq<Entry>, i: int, j: int)
    requires
        sorted_from(sorted, entries),
        0 <= i < j < sorted.len(),
    ensures
        sorted.to_multiset() == entries.to_multiset(),
        sorted.len() == entries.len(),
        entries.contains(sorted[i]),
        crate::text::lowercase(sorted[i].name@) == crate::text::lowercase(sorted[j].name@)
            || crate::text::text_before(
            crate::text::lowercase(sorted[i].name@),
            crate::text::lowercase(sorted[j].name@),
        ),
        crate::text::lowercase(sorted[i].name@) == crate::text::lowercase(sorted[j].name@)
            ==> !crate::text::text_before(sorted[j].id@, sorted[i].id@),
{
    broadcast use vstd::seq_lib::group_to_multiset_ensures;

    assert(!entry_before(sorted[j], sorted[i]));
    crate::text::text_order_is_total(
        crate::text::lowercase(sorted[i].name@),
        crate::text::lowercase(sorted[j].name@),
    );
    assert(sorted.to_multiset().len() == sorted.len());
    assert(entries.to_multiset().len() == entries.len());
    assert(sorted.contains(sorted[i]));
    assert(sorted.to_multiset().count(sorted[i]) > 0);
    assert(entries.to_multiset().count(sorted[i]) > 0);
}

/// Entries that stand alike are those of one name, whatever the case, and one id;
/// of a list they come in their order.
pub proof fn entries_that_stand_alike(entries: Seq<Entry>, e: Entry, like: Entry)
    ensures
        stand_alike(e, like) <==> crate::text::lowercase(e.name@) == crate::text::lowercase(
            like.name@,
        ) && e.id@ == like.id@,
        stand_alike(e, like) ==> alike(entries.push(e), like) == alike(entries, like).push(e),
        !stand_alike(e, like) ==> alike(entries.push(e), like) == alike(entries, like),
        alike(Seq::empty(), like).len() == 0,
{
    assert(entries.push(e).drop_last() =~= entries);
}

/// A locale counts without its encoding, and a language without its country: what
/// stands before the first such sign.
pub proof fn what_stands_before_the_first_sign(front: Seq<char>, sign: char, behind: Seq<char>)
    requires
        !front.contains(sign),
    ensures
        up_to(front, sign) == front,
        up_to(front + seq![sign] + behind, sign) == front,
{
    let s = front + seq![sign] + behind;
    let n = front.len() as int;
    assert forall|k: int| 0 <= k < n implies front[k] != sign by {
        assert(front.contains(front[k]));
    }
    crate::text::first_at_is_first(front, sign);
    crate::text::first_at_is_first(s, sign);
    assert(s[n] == sign);
    assert(forall|k: int| 0 <= k < n ==> s[k] == front[k]);
    assert(crate::text::first_at(s, sign) == Some(n));
    assert(s.take(n) =~= front);
}

/// What is said of an inventory that is too long names the limit.
pub proof fn long_inventories_are_refused_by_number(max_bytes: usize, e: Entry)
    ensures
        share_text(max_bytes)
            == "desktop inventory exceeded this provider's fair-share limit of "@
            + crate::text::decimal_text(max_bytes as nat) + " bytes"@,
        entry_value(e) == (e.id@, e.name@, e.icon@, e.command@, e.terminal, e.desktop_file@),
{
}

/// A scan has no id twice, neither among those that it met nor among its entries,
/// and it met the id of every entry.
pub proof fn scanned_ids_are_distinct(scan: Scan, i: int, j: int)
    requires
        scan.wf(),
    ensures
        0 <= i < j < scan.seen@.len() ==> scan.seen@[i]@ != scan.seen@[j]@,
        0 <= i < j < scan.entries@.len() ==> scan.entries@[i].id@ != scan.entries@[j].id@,
        0 <= i < scan.entries@.len() ==> exists|k: int|
            0 <= k < scan.seen@.len() && (#[trigger] scan.seen@[k])@ == scan.entries@[i].id@,
{
    let seen = crate::text::texts(scan.seen@);
    let ids = entry_ids(scan.entries@);
    if 0 <= i < j < scan.seen@.len() {
        assert(seen[i] != seen[j]);
    }
    if 0 <= i < j < scan.entries@.len() {
        assert(ids[i] != ids[j]);
    }
    if 0 <= i < scan.entries@.len() {
        assert(seen.contains(ids[i]));
        let k = choose|k: int| 0 <= k < seen.len() && seen[k] == ids[i];
        assert(scan.seen@[k]@ == scan.entries@[i].id@);
    }
}

/// Directories keep their order.
pub proof fn directories_keep_their_order(list: Seq<Seq<char>>, part: Seq<char>)
    ensures
        non_empty(Seq::empty()).len() == 0,
        part.len() > 0 ==> non_empty(list.push(part)) == non_empty(list).push(part),
        part.len() == 0 ==> non_empty(list.push(part)) == non_empty(list),
{
    assert(list.push(part).drop_last() =~= list);
}

} // verus!
