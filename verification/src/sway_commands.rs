//! Commands for Sway and i3: arguments are quoted so that the compositor's own
//! parser gives them back unchanged.

use crate::compositor::WorkspaceTarget;
use crate::sway;
use crate::text::{chars_of, decimal, push_char};
use vstd::prelude::*;
use vstd::string::*;

verus! {

/// Whose quoting rules hold.
#[derive(Debug, Clone, Copy, PartialEq, Eq, Structural)]
pub enum CommandDialect {
    Sway,
    I3,
}

/// Why there is no command.
#[derive(Debug, Clone, Copy, PartialEq, Eq, Structural)]
pub enum CommandError {
    SwayLineBreak,
    SwayTrailingBackslash,
    SwayQuotes,
    I3LineBreak,
    UnknownWorkspace(i64),
}

impl CommandError {
    /// The error in words.
    pub fn message(self) -> (r: String)
        ensures
            r@ == (match self {
                CommandError::SwayLineBreak =>
                    "Sway command arguments cannot contain NUL or line breaks"@,
                CommandError::SwayTrailingBackslash =>
                    "Sway command arguments ending in an odd number of backslashes cannot be represented exactly"@,
                CommandError::SwayQuotes =>
                    "Sway command argument quotes cannot be represented exactly by the runtime parser"@,
                CommandError::I3LineBreak =>
                    "i3 command arguments cannot contain NUL or line breaks"@,
                CommandError::UnknownWorkspace(id) => "couldn't find workspace with id "@
                    + crate::text::signed_text(id as int),
            }),
    {
        match self {
            CommandError::SwayLineBreak =>
                "Sway command arguments cannot contain NUL or line breaks".to_owned(),
            CommandError::SwayTrailingBackslash =>
                "Sway command arguments ending in an odd number of backslashes cannot be represented exactly".to_owned(),
            CommandError::SwayQuotes =>
                "Sway command argument quotes cannot be represented exactly by the runtime parser".to_owned(),
            CommandError::I3LineBreak =>
                "i3 command arguments cannot contain NUL or line breaks".to_owned(),
            CommandError::UnknownWorkspace(id) => {
                let mut text = "couldn't find workspace with id ".to_owned();
                text.append(crate::text::signed(id).as_str());
                text
            },
        }
    }
}

fn is_there(value: &Option<String>) -> (r: bool)
    ensures
        r == crate::compositor::is_set(*value),
{
    match value {
        Some(text) => !text.as_str().is_empty(),
        None => false,
    }
}

/// The dialect that the sockets in the environment ask for. Without any socket
/// it is Sway's.
pub fn command_dialect_from_values(
    scrollsock: Option<String>,
    swaysock: Option<String>,
    i3sock: Option<String>,
) -> (r: CommandDialect)
    ensures
        r == (if !crate::compositor::is_set(scrollsock) && !crate::compositor::is_set(swaysock) && crate::compositor::is_set(i3sock) {
            CommandDialect::I3
        } else {
            CommandDialect::Sway
        }),
{
    if is_there(&scrollsock) || is_there(&swaysock) {
        CommandDialect::Sway
    } else if is_there(&i3sock) {
        CommandDialect::I3
    } else {
        CommandDialect::Sway
    }
}

/// Whether a text holds a character that ends a command.
pub open spec fn breaks_command(value: Seq<char>) -> bool {
    exists|i: int| 0 <= i < value.len() && ends_command(#[trigger] value[i])
}

/// NUL, line feed or carriage return.
pub open spec fn ends_command(c: char) -> bool {
    c == '\0' || c == '\n' || c == '\r'
}

/// The number of backslashes directly before position `i`.
pub open spec fn backslashes_before(value: Seq<char>, i: int) -> nat
    decreases i,
{
    if 0 < i <= value.len() && value[i - 1] == '\\' {
        1 + backslashes_before(value, i - 1)
    } else {
        0
    }
}

/// Whether every occurrence of the quote is escaped by the value itself.
pub open spec fn quotes_safe(value: Seq<char>, quote: char) -> bool {
    forall|i: int| 0 <= i < value.len() ==> !#[trigger] bare_quote(value, quote, i)
}

/// Whether the quote stands at `i` and no backslash escapes it.
pub open spec fn bare_quote(value: Seq<char>, quote: char, i: int) -> bool {
    value[i] == quote && backslashes_before(value, i) % 2 == 0
}

/// One character inside the quotes: a dollar sign is doubled, unless exactly
/// one backslash stands before it, which already makes it literal.
pub open spec fn sway_piece(value: Seq<char>, i: int) -> Seq<char> {
    if value[i] == '$' && backslashes_before(value, i) != 1 {
        seq!['$', '$']
    } else {
        seq![value[i]]
    }
}

/// The first `n` characters inside the quotes.
pub open spec fn sway_body(value: Seq<char>, n: nat) -> Seq<char>
    decreases n,
{
    if n == 0 {
        Seq::empty()
    } else {
        sway_body(value, (n - 1) as nat) + sway_piece(value, n - 1)
    }
}

/// The quote that a value can stand in: the double one where it can.
pub open spec fn sway_quote(value: Seq<char>) -> Option<char> {
    if quotes_safe(value, '"') {
        Some('"')
    } else if quotes_safe(value, '\'') {
        Some('\'')
    } else {
        None
    }
}

/// A text between two quotes.
pub open spec fn enclosed(quote: char, body: Seq<char>) -> Seq<char> {
    seq![quote] + body + seq![quote]
}

/// The quoted argument, or why there is none.
pub open spec fn sway_quoted(value: Seq<char>) -> Result<Seq<char>, CommandError> {
    if breaks_command(value) {
        Err(CommandError::SwayLineBreak)
    } else if backslashes_before(value, value.len() as int) % 2 != 0 {
        Err(CommandError::SwayTrailingBackslash)
    } else {
        match sway_quote(value) {
            Some(quote) => Ok(enclosed(quote, sway_body(value, value.len()))),
            None => Err(CommandError::SwayQuotes),
        }
    }
}

fn has_break(v: &Vec<char>) -> (r: bool)
    ensures
        r == breaks_command(v@),
{
    let mut i: usize = 0;
    while i < v.len()
        invariant
            i <= v.len(),
            forall|k: int| 0 <= k < i ==> !ends_command(#[trigger] v@[k]),
        decreases v.len() - i,
    {
        let c = v[i];
        if c == '\0' || c == '\n' || c == '\r' {
            assert(ends_command(v@[i as int]));
            return true;
        }
        i = i + 1;
    }
    false
}

fn quotes_are_parser_safe(v: &Vec<char>, quote: char) -> (r: bool)
    ensures
        r == quotes_safe(v@, quote),
{
    let mut run: usize = 0;
    let mut i: usize = 0;
    while i < v.len()
        invariant
            i <= v.len(),
            run <= i,
            run == backslashes_before(v@, i as int),
            forall|k: int| 0 <= k < i ==> !#[trigger] bare_quote(v@, quote, k),
        decreases v.len() - i,
    {
        let c = v[i];
        if c == quote && run % 2 == 0 {
            assert(bare_quote(v@, quote, i as int));
            return false;
        }
        assert(!bare_quote(v@, quote, i as int));
        if c == '\\' {
            run = run + 1;
        } else {
            run = 0;
        }
        i = i + 1;
    }
    true
}

fn trailing_backslashes(v: &Vec<char>) -> (r: usize)
    ensures
        r == backslashes_before(v@, v@.len() as int),
{
    let mut run: usize = 0;
    let mut i: usize = 0;
    while i < v.len()
        invariant
            i <= v.len(),
            run <= i,
            run == backslashes_before(v@, i as int),
        decreases v.len() - i,
    {
        if v[i] == '\\' {
            run = run + 1;
        } else {
            run = 0;
        }
        i = i + 1;
    }
    run
}

/// The argument in quotes that Sway's runtime parser takes off again. What that
/// parser cannot give back unchanged is refused.
pub fn quote_sway_argument(value: &str) -> (r: Result<String, CommandError>)
    ensures
        match r {
            Ok(quoted) => sway_quoted(value@) == Ok::<Seq<char>, CommandError>(quoted@),
            Err(e) => sway_quoted(value@) == Err::<Seq<char>, CommandError>(e),
        },
{
    let v = chars_of(value);
    if has_break(&v) {
        return Err(CommandError::SwayLineBreak);
    }
    if trailing_backslashes(&v) % 2 != 0 {
        return Err(CommandError::SwayTrailingBackslash);
    }
    let quote: char = if quotes_are_parser_safe(&v, '"') {
        '"'
    } else if quotes_are_parser_safe(&v, '\'') {
        '\''
    } else {
        return Err(CommandError::SwayQuotes);
    };
    let mut quoted = String::new();
    push_char(&mut quoted, quote);
    let mut run: usize = 0;
    let mut i: usize = 0;
    assert(quoted@ =~= seq![quote] + sway_body(v@, 0));
    while i < v.len()
        invariant
            i <= v.len(),
            run <= i,
            run == backslashes_before(v@, i as int),
            quoted@ == seq![quote] + sway_body(v@, i as nat),
        decreases v.len() - i,
    {
        let c = v[i];
        let ghost before = quoted@;
        if c == '$' && run != 1 {
            push_char(&mut quoted, '$');
        }
        push_char(&mut quoted, c);
        assert(quoted@ =~= before + sway_piece(v@, i as int));
        assert(quoted@ =~= seq![quote] + sway_body(v@, (i + 1) as nat));
        if c == '\\' {
            run = run + 1;
        } else {
            run = 0;
        }
        i = i + 1;
    }
    push_char(&mut quoted, quote);
    assert(quoted@ =~= enclosed(quote, sway_body(v@, v@.len())));
    Ok(quoted)
}

/// The first `n` characters with a backslash before each double quote and each
/// backslash.
pub open spec fn i3_body(value: Seq<char>, n: nat) -> Seq<char>
    decreases n,
{
    if n == 0 {
        Seq::empty()
    } else {
        i3_body(value, (n - 1) as nat) + i3_piece(value[n - 1])
    }
}

/// One character inside the quotes.
pub open spec fn i3_piece(c: char) -> Seq<char> {
    if c == '"' || c == '\\' {
        seq!['\\', c]
    } else {
        seq![c]
    }
}

/// The quoted argument, or why there is none.
pub open spec fn i3_quoted(value: Seq<char>) -> Result<Seq<char>, CommandError> {
    if breaks_command(value) {
        Err(CommandError::I3LineBreak)
    } else {
        Ok(enclosed('"', i3_body(value, value.len())))
    }
}

/// The argument in quotes that i3's parser takes off again.
pub fn quote_i3_argument(value: &str) -> (r: Result<String, CommandError>)
    ensures
        match r {
            Ok(quoted) => i3_quoted(value@) == Ok::<Seq<char>, CommandError>(quoted@),
            Err(e) => i3_quoted(value@) == Err::<Seq<char>, CommandError>(e),
        },
{
    let v = chars_of(value);
    if has_break(&v) {
        return Err(CommandError::I3LineBreak);
    }
    let mut quoted = String::new();
    push_char(&mut quoted, '"');
    let mut i: usize = 0;
    assert(quoted@ =~= seq!['"'] + i3_body(v@, 0));
    while i < v.len()
        invariant
            i <= v.len(),
            quoted@ == seq!['"'] + i3_body(v@, i as nat),
        decreases v.len() - i,
    {
        let c = v[i];
        let ghost before = quoted@;
        if c == '"' || c == '\\' {
            push_char(&mut quoted, '\\');
        }
        push_char(&mut quoted, c);
        assert(quoted@ =~= before + i3_piece(c));
        assert(quoted@ =~= seq!['"'] + i3_body(v@, (i + 1) as nat));
        i = i + 1;
    }
    push_char(&mut quoted, '"');
    assert(quoted@ =~= enclosed('"', i3_body(v@, v@.len())));
    Ok(quoted)
}

/// The quoted argument of a dialect, or why there is none.
pub open spec fn quoted_in(value: Seq<char>, dialect: CommandDialect) -> Result<
    Seq<char>,
    CommandError,
> {
    match dialect {
        CommandDialect::Sway => sway_quoted(value),
        CommandDialect::I3 => i3_quoted(value),
    }
}

/// The argument in quotes of the dialect.
pub fn quote_command_argument(value: &str, dialect: CommandDialect) -> (r: Result<
    String,
    CommandError,
>)
    ensures
        match r {
            Ok(quoted) => quoted_in(value@, dialect) == Ok::<Seq<char>, CommandError>(quoted@),
            Err(e) => quoted_in(value@, dialect) == Err::<Seq<char>, CommandError>(e),
        },
{
    match dialect {
        CommandDialect::Sway => quote_sway_argument(value),
        CommandDialect::I3 => quote_i3_argument(value),
    }
}

/// The command that switches a keyboard to its next layout.
pub fn next_keyboard_layout_command(identifier: &str, dialect: CommandDialect) -> (r: Result<
    String,
    CommandError,
>)
    ensures
        match r {
            Ok(command) => match quoted_in(identifier@, dialect) {
                Ok(quoted) => command@ == "input "@ + quoted + " xkb_switch_layout next"@,
                Err(_) => false,
            },
            Err(e) => quoted_in(identifier@, dialect) == Err::<Seq<char>, CommandError>(e),
        },
{
    match quote_command_argument(identifier, dialect) {
        Err(e) => Err(e),
        Ok(quoted) => {
            let mut command = "input ".to_owned();
            command.append(quoted.as_str());
            command.append(" xkb_switch_layout next");
            Ok(command)
        },
    }
}

/// The command that focuses a target, or why there is none. A workspace that is
/// there is focused by its number, which a rename does not change; one without
/// a number (it is negative then) and a named one by name.
pub open spec fn focus_text(
    target: WorkspaceTarget,
    workspace: Option<sway::Workspace>,
    dialect: CommandDialect,
) -> Result<Seq<char>, CommandError> {
    match target {
        WorkspaceTarget::Id(id) => match workspace {
            None => Err(CommandError::UnknownWorkspace(id)),
            Some(w) => if w.num >= 0 {
                Ok("workspace number "@ + crate::text::decimal_text(w.num as nat))
            } else {
                named_focus(w.name@, dialect)
            },
        },
        WorkspaceTarget::Name(name) => named_focus(name@, dialect),
        WorkspaceTarget::Persistent { name, .. } => named_focus(name@, dialect),
    }
}

/// The command that focuses a workspace by name.
pub open spec fn named_focus(name: Seq<char>, dialect: CommandDialect) -> Result<
    Seq<char>,
    CommandError,
> {
    match quoted_in(name, dialect) {
        Ok(quoted) => Ok("workspace "@ + quoted),
        Err(e) => Err(e),
    }
}

fn focus_by_name(name: &str, dialect: CommandDialect) -> (r: Result<String, CommandError>)
    ensures
        match r {
            Ok(command) => named_focus(name@, dialect) == Ok::<Seq<char>, CommandError>(command@),
            Err(e) => named_focus(name@, dialect) == Err::<Seq<char>, CommandError>(e),
        },
{
    match quote_command_argument(name, dialect) {
        Err(e) => Err(e),
        Ok(quoted) => {
            let mut command = "workspace ".to_owned();
            command.append(quoted.as_str());
            Ok(command)
        },
    }
}

/// The command that focuses a target; `workspace` is the one with the target's
/// id, where there is such a workspace.
pub fn focus_command_for_target(
    target: &WorkspaceTarget,
    workspace: Option<&sway::Workspace>,
    dialect: CommandDialect,
) -> (r: Result<String, CommandError>)
    ensures
        ({
            let expected = focus_text(
                *target,
                match workspace {
                    Some(w) => Some(*w),
                    None => None,
                },
                dialect,
            );
            match r {
                Ok(command) => expected == Ok::<Seq<char>, CommandError>(command@),
                Err(e) => expected == Err::<Seq<char>, CommandError>(e),
            }
        }),
{
    match target.persistent_by_name() {
        WorkspaceTarget::Id(id) => match workspace {
            None => Err(CommandError::UnknownWorkspace(id)),
            Some(w) => if w.num >= 0 {
                let mut command = "workspace number ".to_owned();
                command.append(decimal(w.num as u128).as_str());
                Ok(command)
            } else {
                focus_by_name(w.name.as_str(), dialect)
            },
        },
        WorkspaceTarget::Name(name) => focus_by_name(name.as_str(), dialect),
        WorkspaceTarget::Persistent { name, .. } => focus_by_name(name.as_str(), dialect),
    }
}

/// The workspace with an id in the compositor's list: the first one.
pub fn find_workspace(workspaces: &Vec<sway::Workspace>, id: i64) -> (r: Option<usize>)
    ensures
        match r {
            Some(i) => i < workspaces@.len() && workspaces@[i as int].id == id && forall|k: int|
                0 <= k < i ==> (#[trigger] workspaces@[k]).id != id,
            None => forall|k: int|
                0 <= k < workspaces@.len() ==> (#[trigger] workspaces@[k]).id != id,
        },
{
    let mut i: usize = 0;
    while i < workspaces.len()
        invariant
            i <= workspaces.len(),
            forall|k: int| 0 <= k < i ==> (#[trigger] workspaces@[k]).id != id,
        decreases workspaces.len() - i,
    {
        if workspaces[i].id == id {
            return Some(i);
        }
        i = i + 1;
    }
    None
}

/// A text is refused as an argument if it holds a character that ends a command,
/// in either dialect; for i3 that is the only reason.
pub proof fn line_breaks_are_refused(value: Seq<char>)
    ensures
        breaks_command(value) <==> value.contains('\0') || value.contains('\n') || value.contains(
            '\r',
        ),
        breaks_command(value) ==> sway_quoted(value) == Err::<Seq<char>, CommandError>(
            CommandError::SwayLineBreak,
        ),
        breaks_command(value) ==> i3_quoted(value) == Err::<Seq<char>, CommandError>(
            CommandError::I3LineBreak,
        ),
        !breaks_command(value) ==> i3_quoted(value) is Ok,
{
    if breaks_command(value) {
        let i = choose|i: int| 0 <= i < value.len() && ends_command(#[trigger] value[i]);
        assert(value.contains(value[i]));
    }
    if value.contains('\0') {
        let i = choose|i: int| 0 <= i < value.len() && value[i] == '\0';
        assert(ends_command(value[i]));
    }
    if value.contains('\n') {
        let i = choose|i: int| 0 <= i < value.len() && value[i] == '\n';
        assert(ends_command(value[i]));
    }
    if value.contains('\r') {
        let i = choose|i: int| 0 <= i < value.len() && value[i] == '\r';
        assert(ends_command(value[i]));
    }
}

/// A text without a backslash is accepted for Sway unless it holds both kinds of
/// quotes; it stands in double quotes unless it holds one.
pub proof fn plain_arguments_are_accepted(value: Seq<char>)
    requires
        !breaks_command(value),
        !value.contains('\\'),
    ensures
        !value.contains('"') ==> sway_quoted(value) is Ok && sway_quoted(value)->Ok_0[0] == '"',
        value.contains('"') && !value.contains('\'') ==> sway_quoted(value) is Ok && sway_quoted(
            value,
        )->Ok_0[0] == '\'',
        value.contains('"') && value.contains('\'') ==> sway_quoted(value) == Err::<
            Seq<char>,
            CommandError,
        >(CommandError::SwayQuotes),
{
    assert forall|i: int| 0 <= i <= value.len() implies #[trigger] backslashes_before(value, i)
        == 0 by {
        if i > 0 {
            assert(value.contains(value[i - 1]));
        }
    }
    assert forall|q: char| #[trigger] quotes_safe(value, q) == !value.contains(q) by {
        if value.contains(q) {
            let i = choose|i: int| 0 <= i < value.len() && value[i] == q;
            assert(bare_quote(value, q, i));
        } else {
            assert forall|i: int| 0 <= i < value.len() implies !#[trigger] bare_quote(
                value,
                q,
                i,
            ) by {
                assert(value.contains(value[i]));
            }
        }
    }
    assert(quotes_safe(value, '"') == !value.contains('"'));
    assert(quotes_safe(value, '\'') == !value.contains('\''));
}

/// An odd number of backslashes at the end is refused for Sway.
pub proof fn trailing_backslashes_are_refused(value: Seq<char>)
    requires
        !breaks_command(value),
        value.len() > 0,
        value.last() == '\\',
        value.len() == 1 || value[value.len() - 2] != '\\',
    ensures
        sway_quoted(value) == Err::<Seq<char>, CommandError>(CommandError::SwayTrailingBackslash),
{
    reveal_with_fuel(backslashes_before, 3);
}

/// A workspace that has a number is focused by it, another one by its name; an id
/// that no workspace has is refused.
pub proof fn workspaces_are_focused_by_number_or_name(
    id: i64,
    name: String,
    index: Option<i64>,
    w: sway::Workspace,
    dialect: CommandDialect,
)
    ensures
        focus_text(WorkspaceTarget::Id(id), None, dialect) == Err::<Seq<char>, CommandError>(
            CommandError::UnknownWorkspace(id),
        ),
        w.num >= 0 ==> focus_text(WorkspaceTarget::Id(id), Some(w), dialect) == Ok::<
            Seq<char>,
            CommandError,
        >("workspace number "@ + crate::text::decimal_text(w.num as nat)),
        w.num < 0 ==> focus_text(WorkspaceTarget::Id(id), Some(w), dialect) == named_focus(
            w.name@,
            dialect,
        ),
        focus_text(WorkspaceTarget::Name(name), Some(w), dialect) == named_focus(name@, dialect),
        focus_text(WorkspaceTarget::Name(name), None, dialect) == named_focus(name@, dialect),
        focus_text(WorkspaceTarget::Persistent { name, index }, Some(w), dialect) == named_focus(
            name@,
            dialect,
        ),
        named_focus(name@, CommandDialect::Sway) is Ok <==> sway_quoted(name@) is Ok,
        named_focus(name@, CommandDialect::I3) is Ok <==> i3_quoted(name@) is Ok,
        sway_quoted(name@) is Ok ==> named_focus(name@, CommandDialect::Sway)->Ok_0
            == "workspace "@ + sway_quoted(name@)->Ok_0,
        i3_quoted(name@) is Ok ==> named_focus(name@, CommandDialect::I3)->Ok_0 == "workspace "@
            + i3_quoted(name@)->Ok_0,
{
}

/// Inside quotes every character stands for itself; for i3 a quote and a backslash
/// behind a backslash, for Sway a dollar sign doubled, unless exactly one
/// backslash is before it.
pub proof fn characters_inside_quotes(value: Seq<char>, n: nat)
    requires
        n < value.len(),
    ensures
        i3_body(value, 0).len() == 0 && sway_body(value, 0).len() == 0,
        value[n as int] == '"' || value[n as int] == '\\' ==> i3_body(value, n + 1) == i3_body(
            value,
            n,
        ) + seq!['\\', value[n as int]],
        value[n as int] != '"' && value[n as int] != '\\' ==> i3_body(value, n + 1) == i3_body(
            value,
            n,
        ) + seq![value[n as int]],
        value[n as int] != '$' ==> sway_body(value, n + 1) == sway_body(value, n)
            + seq![value[n as int]],
        value[n as int] == '$' && (n == 0 || value[n - 1] != '\\') ==> sway_body(value, n + 1)
            == sway_body(value, n) + seq!['$', '$'],
        value[n as int] == '$' && n > 0 && value[n - 1] == '\\' && (n == 1 || value[n - 2]
            != '\\') ==> sway_body(value, n + 1) == sway_body(value, n) + seq!['$'],
{
    reveal_with_fuel(backslashes_before, 3);
}

} // verus!
