//! The launcher's stylesheet and the texts that it shows.

use crate::config::{Config, MachineConfig, Theme};
use crate::digest::hex_digit;
use crate::stream::Focus;
use crate::text::{chars_of, decimal, push_char, same_text, split};
use vstd::prelude::*;
use vstd::string::*;

verus! {

/// What undoes the display-wide rules of a bar's stylesheet inside the launcher.
pub const EMBEDDED_STYLE_RESET: &'static str = "
window.cbar-launcher {
    font-family: initial;
    font-size: initial;
    background-image: initial;
    border: initial;
    border-radius: initial;
    box-shadow: initial;
    padding: 0;
    margin: 0;
}
.cbar-launcher .root,
.cbar-launcher .search,
.cbar-launcher .colhead,
.cbar-launcher .rowhead,
.cbar-launcher .subrow,
.cbar-launcher .cell,
.cbar-launcher .line,
.cbar-launcher .app,
.cbar-launcher .appname,
.cbar-launcher .hide-action,
.cbar-launcher .dim,
.cbar-launcher .hint,
.cbar-launcher .vector-rail {
    font-family: inherit;
    font-size: inherit;
    background-image: initial;
    border: initial;
    border-radius: initial;
    box-shadow: initial;
    padding: 0;
    margin: 0;
}
.cbar-launcher box,
.cbar-launcher label,
.cbar-launcher image,
.cbar-launcher grid,
.cbar-launcher overlay {
    color: inherit;
    background-color: transparent;
}
";

/// The launcher's stylesheet, with the name of a colour between tildes where the
/// colour goes.
pub const GOLDEN_STYLE: &'static str = "
window { background-color: ~ground~; color: ~fg~; }
.root { padding: 18px; }
.search { font-size: 15px; padding: 8px 12px; margin-bottom: 14px;
          border: 1px solid #262626; border-radius: 6px; background-color: ~surface~; }
.search.empty { color: ~dim~; }
.colhead { font-weight: bold; font-size: 13px; padding: 4px 8px; margin-bottom: 6px;
           border-bottom: 2px solid #262626; }
.rowhead { font-size: 13px; color: ~muted~; padding-right: 12px; }
.rowhead.active { color: ~fg~; font-weight: bold; }
.cell { border: 1px solid ~border~; border-radius: 6px; padding: 5px; margin: 3px;
        background-color: ~surface~; }
.cell.cursor { border-color: ~accent~; }
.cell.inside { border-width: 2px; padding: 4px; }
.cell.empty { border-style: dashed; }
.line { border-radius: 4px; padding: 2px; }
.line.sel { background-color: alpha(~accent~, 0.10); }
.app { padding: 3px 6px; border-radius: 4px; }
.app.sel { background-color: alpha(~accent~, 0.20); }
.app.arming { background-color: alpha(~error~, 0.22); box-shadow: inset 0 0 0 1px ~error~; }
/* HOVER IS NOT SELECTION. Weaker than .sel and a different weight, so the thing the keyboard is
   on and the thing the pointer is over can never be mistaken for each other. */
.app:hover { background-color: alpha(~fg~, 0.10); }
.line:hover { background-color: alpha(~fg~, 0.04); }
.cell:hover { border-color: alpha(~accent~, 0.45); }
.colhead:hover, .rowhead:hover, .subrow:hover { color: ~fg~; }
.hide-action { padding: 0; margin: 0; background-color: alpha(~ground~, 0.90); }
.appname { font-size: 12px; }
.subrow { font-size: 10px; color: ~muted~; padding-right: 6px; }
.dim { color: ~dim~; font-size: 12px; font-style: italic; }
.hint { color: #666666; font-size: 11px; margin-top: 12px; }
.hint b { color: ~accent~; }
";

/// The colour of a theme that goes by a name.
pub open spec fn colour(t: Theme, name: Seq<char>) -> Seq<char> {
    if name == "ground"@ {
        t.ground@
    } else if name == "surface"@ {
        t.surface@
    } else if name == "fg"@ {
        t.fg@
    } else if name == "muted"@ {
        t.muted@
    } else if name == "dim"@ {
        t.dim@
    } else if name == "accent"@ {
        t.accent@
    } else if name == "border"@ {
        t.border@
    } else if name == "error"@ {
        t.error@
    } else {
        name
    }
}

fn colour_of(t: &Theme, name: &str) -> (r: String)
    ensures
        r@ == colour(*t, name@),
{
    if same_text(name, "ground") {
        t.ground.clone()
    } else if same_text(name, "surface") {
        t.surface.clone()
    } else if same_text(name, "fg") {
        t.fg.clone()
    } else if same_text(name, "muted") {
        t.muted.clone()
    } else if same_text(name, "dim") {
        t.dim.clone()
    } else if same_text(name, "accent") {
        t.accent.clone()
    } else if same_text(name, "border") {
        t.border.clone()
    } else if same_text(name, "error") {
        t.error.clone()
    } else {
        name.to_owned()
    }
}

/// A sheet that is cut at its tildes: every second piece is the name of a colour.
pub open spec fn coloured(pieces: Seq<Seq<char>>, t: Theme) -> Seq<char>
    decreases pieces.len(),
{
    if pieces.len() == 0 {
        Seq::empty()
    } else {
        coloured(pieces.drop_last(), t) + (if pieces.len() % 2 == 1 {
            pieces.last()
        } else {
            colour(t, pieces.last())
        })
    }
}

/// The stylesheet of a theme.
pub open spec fn golden_text(t: Theme) -> Seq<char> {
    coloured(crate::text::split_text(GOLDEN_STYLE@, '~'), t)
}

/// The stylesheet of a theme.
pub fn golden_css(t: &Theme) -> (r: String)
    ensures
        r@ == golden_text(*t),
{
    let pieces = split(GOLDEN_STYLE, '~');
    let ghost views = crate::text::texts(pieces@);
    let mut out = String::new();
    let mut name = false;
    let mut i: usize = 0;
    assert(out@ =~= coloured(views.take(0), *t));
    while i < pieces.len()
        invariant
            i <= pieces.len(),
            views == crate::text::texts(pieces@),
            name == (i % 2 == 1),
            out@ == coloured(views.take(i as int), *t),
        decreases pieces.len() - i,
    {
        proof {
            assert(views.take(i + 1).drop_last() =~= views.take(i as int));
            assert(views.take(i + 1).last() == pieces@[i as int]@);
        }
        if name {
            out.append(colour_of(t, pieces[i].as_str()).as_str());
        } else {
            out.append(pieces[i].as_str());
        }
        name = !name;
        i = i + 1;
    }
    assert(views.take(i as int) =~= views);
    out
}

/// A text with every occurrence of another one replaced, from the left and
/// without overlap.
pub open spec fn text_replaced(s: Seq<char>, from: Seq<char>, to: Seq<char>) -> Seq<char>
    decreases s.len(),
{
    if s.len() == 0 || from.len() == 0 {
        s
    } else if from.is_prefix_of(s) {
        to + text_replaced(s.skip(from.len() as int), from, to)
    } else {
        seq![s[0]] + text_replaced(s.skip(1), from, to)
    }
}

/// A text with every occurrence of another one, which is not empty, replaced.
pub fn replace_text(s: &str, from: &str, to: &str) -> (r: String)
    requires
        from@.len() > 0,
    ensures
        r@ == text_replaced(s@, from@, to@),
{
    let v = chars_of(s);
    let f = chars_of(from);
    let n: usize = f.len();
    let mut out = String::new();
    let mut i: usize = 0;
    assert(v@.skip(0) =~= v@);
    assert(out@ + text_replaced(v@, from@, to@) =~= text_replaced(v@, from@, to@));
    while i < v.len()
        invariant
            i <= v.len(),
            f@ == from@,
            n == f.len(),
            n > 0,
            out@ + text_replaced(v@.skip(i as int), from@, to@) == text_replaced(
                v@,
                from@,
                to@,
            ),
        decreases v.len() - i,
    {
        let ghost rest = v@.skip(i as int);
        let mut k: usize = 0;
        while k < n && k < v.len() - i && v[i + k] == f[k]
            invariant
                k <= n,
                i + k <= v.len(),
                i < v.len(),
                n == f.len(),
                forall|j: int| 0 <= j < k ==> v@[i + j] == f@[j],
            decreases n - k,
        {
            k = k + 1;
        }
        if k == n {
            proof {
                assert(from@ =~= rest.subrange(0, n as int));
                assert(from@.is_prefix_of(rest));
                assert(rest.skip(n as int) =~= v@.skip(i + n));
                assert(out@ + (to@ + text_replaced(rest.skip(n as int), from@, to@)) =~= (out@
                    + to@) + text_replaced(v@.skip(i + n), from@, to@));
            }
            out.append(to);
            i = i + n;
        } else {
            proof {
                assert(!from@.is_prefix_of(rest)) by {
                    if from@.is_prefix_of(rest) {
                        assert(rest.subrange(0, n as int)[k as int] == from@[k as int]);
                        assert(rest[k as int] == v@[i + k]);
                    }
                }
                assert(rest[0] == v@[i as int]);
                assert(rest.skip(1) =~= v@.skip(i + 1));
                assert(out@ + (seq![rest[0]] + text_replaced(rest.skip(1), from@, to@)) =~= out@.push(
                    v@[i as int],
                ) + text_replaced(v@.skip(i + 1), from@, to@));
            }
            push_char(&mut out, v[i]);
            i = i + 1;
        }
    }
    assert(v@.skip(i as int) =~= Seq::<char>::empty());
    assert(out@ + Seq::<char>::empty() =~= out@);
    out
}

/// The stylesheet with every rule bound to the launcher's window.
pub open spec fn scoped_text(t: Theme) -> Seq<char> {
    text_replaced(
        text_replaced(
            text_replaced(golden_text(t), "window {"@, "window.cbar-launcher {"@),
            "\n."@,
            "\n.cbar-launcher ."@,
        ),
        ", ."@,
        ", .cbar-launcher ."@,
    )
}

/// The stylesheet with every rule bound to the launcher's window, so that it
/// leaves other windows alone.
pub fn scoped_golden_css(t: &Theme) -> (r: String)
    ensures
        r@ == scoped_text(*t),
{
    proof {
        reveal_strlit("window {");
        reveal_strlit("\n.");
        reveal_strlit(", .");
    }
    let sheet = golden_css(t);
    let window = replace_text(sheet.as_str(), "window {", "window.cbar-launcher {");
    let lines = replace_text(window.as_str(), "\n.", "\n.cbar-launcher .");
    replace_text(lines.as_str(), ", .", ", .cbar-launcher .")
}

/// The sheet that is loaded for the launcher.
pub fn css(t: &Theme) -> (r: String)
    ensures
        r@ == EMBEDDED_STYLE_RESET@ + "\n"@ + scoped_text(*t),
{
    let mut sheet = EMBEDDED_STYLE_RESET.to_owned();
    sheet.append("\n");
    sheet.append(scoped_golden_css(t).as_str());
    sheet
}

/// A character as markup.
pub open spec fn markup_char(c: char) -> Seq<char> {
    if c == '&' {
        "&amp;"@
    } else if c == '<' {
        "&lt;"@
    } else if c == '>' {
        "&gt;"@
    } else {
        seq![c]
    }
}

/// A text as markup that shows it.
pub open spec fn markup_of(s: Seq<char>) -> Seq<char>
    decreases s.len(),
{
    if s.len() == 0 {
        Seq::empty()
    } else {
        markup_of(s.drop_last()) + markup_char(s.last())
    }
}

/// A text as markup that shows it.
pub fn escape(s: &str) -> (r: String)
    ensures
        r@ == markup_of(s@),
{
    let v = chars_of(s);
    let mut out = String::new();
    let mut i: usize = 0;
    assert(out@ =~= markup_of(v@.take(0)));
    while i < v.len()
        invariant
            i <= v.len(),
            out@ == markup_of(v@.take(i as int)),
        decreases v.len() - i,
    {
        let c = v[i];
        proof {
            assert(v@.take(i + 1).drop_last() =~= v@.take(i as int));
            assert(v@.take(i + 1).last() == c);
        }
        let ghost before = out@;
        if c == '&' {
            out.append("&amp;");
        } else if c == '<' {
            out.append("&lt;");
        } else if c == '>' {
            out.append("&gt;");
        } else {
            push_char(&mut out, c);
            assert(out@ =~= before + seq![c]);
        }
        i = i + 1;
    }
    assert(v@.take(i as int) =~= v@);
    out
}

/// Markup never opens a tag or ends one: it holds no angle bracket.
pub proof fn markup_has_no_tags(s: Seq<char>)
    ensures
        !markup_of(s).contains('<'),
        !markup_of(s).contains('>'),
    decreases s.len(),
{
    reveal_strlit("&amp;");
    reveal_strlit("&lt;");
    reveal_strlit("&gt;");
    if s.len() > 0 {
        markup_has_no_tags(s.drop_last());
        let before = markup_of(s.drop_last());
        let last = markup_char(s.last());
        assert forall|i: int| 0 <= i < (before + last).len() implies (before + last)[i] != '<' && (
        before + last)[i] != '>' by {
            if i < before.len() {
                assert(before.contains(before[i]));
            } else {
                assert((before + last)[i] == last[i - before.len()]);
            }
        }
    }
}

/// The first line of a complaint.
pub open spec fn first_line(s: Seq<char>) -> Seq<char> {
    if s.len() == 0 {
        "unreachable"@
    } else {
        match crate::text::first_at(s, '\n') {
            None => s,
            Some(at) => if at > 0 && s[at - 1] == '\r' {
                s.take(at - 1)
            } else {
                s.take(at)
            },
        }
    }
}

fn line_before_break(s: &str) -> (r: String)
    ensures
        r@ == first_line(s@),
{
    let v = chars_of(s);
    let n: usize = v.len();
    if n == 0 {
        return "unreachable".to_owned();
    }
    assert(v@.subrange(0, n as int) =~= v@);
    proof {
        crate::text::first_at_is_first(v@, '\n');
    }
    match crate::text::find_char(&v, 0, n, '\n') {
        None => s.to_owned(),
        Some(at) => {
            if at > 0 && v[at - 1] == '\r' {
                assert(v@.subrange(0, at - 1) =~= v@.take(at - 1));
                crate::text::text_between(&v, 0, at - 1)
            } else {
                assert(v@.subrange(0, at as int) =~= v@.take(at as int));
                crate::text::text_between(&v, 0, at)
            }
        },
    }
}

/// The heading of a machine's column: its name in its colour, and the first line
/// of what is wrong with it.
pub open spec fn heading(
    name: Seq<char>,
    accent: Seq<char>,
    error: Option<Seq<char>>,
    error_colour: Seq<char>,
) -> Seq<char> {
    let plain = "<span foreground=\""@ + accent + "\">"@ + markup_of(name) + "</span>"@;
    match error {
        None => plain,
        Some(e) => plain + "  <span foreground=\""@ + error_colour + "\" size=\"small\">"@
            + markup_of(first_line(e)) + "</span>"@,
    }
}

/// The heading of a machine's column.
pub fn heading_markup(
    name: &str,
    accent: &str,
    error: &Option<String>,
    error_colour: &str,
) -> (r: String)
    ensures
        r@ == heading(name@, accent@, crate::text::opt_text(*error), error_colour@),
{
    let mut out = "<span foreground=\"".to_owned();
    out.append(accent);
    out.append("\">");
    out.append(escape(name).as_str());
    out.append("</span>");
    if let Some(e) = error {
        out.append("  <span foreground=\"");
        out.append(error_colour);
        out.append("\" size=\"small\">");
        let line = line_before_break(e.as_str());
        out.append(escape(line.as_str()).as_str());
        out.append("</span>");
    }
    out
}

/// What stands in the search field.
#[derive(Debug, PartialEq, Eq)]
pub enum SearchLabel {
    /// Markup about what went wrong at the start.
    Problem(String),
    /// The prompt, shown dimmed.
    Prompt(String),
    Query(String),
}

/// What stands in the search field: a problem before anything else, else the
/// query, else the prompt.
pub fn search_label(problem: &Option<String>, query: &str, error_colour: &str) -> (r: SearchLabel)
    ensures
        match *problem {
            Some(e) => r is Problem && r->Problem_0@ == "<span foreground=\""@ + error_colour@
                + "\">startup problem:</span> "@ + markup_of(e@),
            None => if query@.len() == 0 {
                r is Prompt && r->Prompt_0@ == "type to search\u{2026}"@
            } else {
                r is Query && r->Query_0@ == query@
            },
        },
{
    match problem {
        Some(e) => {
            let mut out = "<span foreground=\"".to_owned();
            out.append(error_colour);
            out.append("\">startup problem:</span> ");
            out.append(escape(e.as_str()).as_str());
            SearchLabel::Problem(out)
        },
        None => if query.is_empty() {
            SearchLabel::Prompt("type to search\u{2026}".to_owned())
        } else {
            SearchLabel::Query(query.to_owned())
        },
    }
}

/// The page that is shown, counted from one, and how many there are.
pub fn page_hint(page: usize, pages: usize) -> (r: String)
    ensures
        r@ == "page "@ + crate::text::decimal_text((page + 1) as nat) + "/"@
            + crate::text::decimal_text(pages as nat),
{
    let mut out = "page ".to_owned();
    out.append(decimal(page as u128 + 1).as_str());
    out.append("/");
    out.append(decimal(pages as u128).as_str());
    out
}

/// What the keys do where the user is.
pub open spec fn key_hint(focus: Focus, rail: bool) -> Seq<char> {
    match (focus, rail) {
        (Focus::Outside, false) => OUTSIDE_HINT@,
        (Focus::Inside, false) => INSIDE_HINT@,
        (Focus::Outside, true) => OUTSIDE_RAIL_HINT@,
        (Focus::Inside, true) => INSIDE_RAIL_HINT@,
    }
}

pub const OUTSIDE_HINT: &'static str = "<b>\u{2190}\u{2192}</b> machine   <b>\u{2191}\u{2193}</b> folder   <b>Tab</b>/<b>Enter</b> inside   <b>Shift+Enter</b> launch cell   <b>drag</b> file/reorder   <b>Esc</b> close";

pub const INSIDE_HINT: &'static str = "<b>\u{2190}\u{2192}</b> app   <b>\u{2191}\u{2193}</b> line   <b>Enter</b> launch   <b>Shift+Enter</b> launch line   <b>Tab</b>/<b>Esc</b> out";

pub const OUTSIDE_RAIL_HINT: &'static str = "<b>\u{2190}\u{2192}</b> machine   <b>\u{2191}\u{2193}</b> rail   <b>Tab</b>/<b>Enter</b> browse   <b>drag</b> file/reorder   <b>Esc</b> close";

pub const INSIDE_RAIL_HINT: &'static str = "<b>\u{2190}\u{2192}</b> title   <b>Enter</b> launch   <b>Tab</b>/<b>Esc</b> out";

/// The line below the grid: what the keys do, how to hide, how many are hidden
/// and how to show them, and the page.
pub fn hint_markup(focus: Focus, rail: bool, hidden: usize, page: &Option<String>) -> (r: String)
    ensures
        r@ == key_hint(focus, rail) + "   <b>right-click</b> then click to hide"@ + (if hidden
            == 0 {
            Seq::empty()
        } else {
            "   <b>Ctrl+Shift+H</b> show all ("@ + crate::text::decimal_text(hidden as nat) + ")"@
        }) + (match *page {
            Some(page) => "   <b>"@ + page@ + "</b>"@,
            None => Seq::empty(),
        }),
{
    let mut out = match (focus, rail) {
        (Focus::Outside, false) => OUTSIDE_HINT.to_owned(),
        (Focus::Inside, false) => INSIDE_HINT.to_owned(),
        (Focus::Outside, true) => OUTSIDE_RAIL_HINT.to_owned(),
        (Focus::Inside, true) => INSIDE_RAIL_HINT.to_owned(),
    };
    out.append("   <b>right-click</b> then click to hide");
    let ghost start = out@;
    if hidden != 0 {
        out.append("   <b>Ctrl+Shift+H</b> show all (");
        out.append(decimal(hidden as u128).as_str());
        out.append(")");
        assert(out@ =~= start + ("   <b>Ctrl+Shift+H</b> show all ("@ + crate::text::decimal_text(
            hidden as nat,
        ) + ")"@));
    } else {
        assert(out@ =~= start + Seq::<char>::empty());
    }
    let ghost middle = out@;
    if let Some(page) = page {
        out.append("   <b>");
        out.append(page.as_str());
        out.append("</b>");
        assert(out@ =~= middle + ("   <b>"@ + page@ + "</b>"@));
    } else {
        assert(out@ =~= middle + Seq::<char>::empty());
    }
    out
}

/// The labels before a row: the folder, and the rung in it.
#[derive(Debug, PartialEq, Eq)]
pub struct RowLabels {
    pub folder: Option<String>,
    pub rung: Option<String>,
}

/// The folder that a row belongs to.
pub open spec fn row_folder(row: Seq<char>) -> Seq<char> {
    match crate::text::first_at(row, '/') {
        Some(at) => row.take(at),
        None => row,
    }
}

/// The rung that a row is.
pub open spec fn row_rung(row: Seq<char>) -> Option<Seq<char>> {
    match crate::text::first_at(row, '/') {
        Some(at) => Some(row.skip(at + 1)),
        None => None,
    }
}

/// What labels hold.
pub open spec fn labels_view(labels: Seq<RowLabels>) -> Seq<(Option<Seq<char>>, Option<Seq<char>>)> {
    Seq::new(
        labels.len(),
        |i: int|
            (crate::text::opt_text(labels[i].folder), crate::text::opt_text(labels[i].rung)),
    )
}

/// The labels of rows that are shown below each other: the folder is named only
/// where it is not the one of the row above.
pub open spec fn row_labels_of(rows: Seq<Seq<char>>) -> Seq<(Option<Seq<char>>, Option<Seq<char>>)> {
    Seq::new(
        rows.len(),
        |i: int|
            (
                if i > 0 && row_folder(rows[i - 1]) == row_folder(rows[i]) {
                    None
                } else {
                    Some(row_folder(rows[i]))
                },
                row_rung(rows[i]),
            ),
    )
}

fn split_row(row: &str) -> (r: (String, Option<String>))
    ensures
        r.0@ == row_folder(row@),
        crate::text::opt_text(r.1) == row_rung(row@),
{
    let v = chars_of(row);
    let n: usize = v.len();
    assert(v@.subrange(0, n as int) =~= v@);
    proof {
        crate::text::first_at_is_first(v@, '/');
    }
    match crate::text::find_char(&v, 0, n, '/') {
        None => (row.to_owned(), None),
        Some(at) => {
            assert(v@.subrange(0, at as int) =~= v@.take(at as int));
            assert(v@.subrange(at + 1, n as int) =~= v@.skip(at + 1));
            (
                crate::text::text_between(&v, 0, at),
                Some(crate::text::text_between(&v, at + 1, n)),
            )
        },
    }
}

/// The labels of rows that are shown below each other.
pub fn row_labels(rows: &Vec<String>) -> (r: Vec<RowLabels>)
    ensures
        labels_view(r@) == row_labels_of(crate::text::texts(rows@)),
{
    let ghost views = crate::text::texts(rows@);
    let mut out: Vec<RowLabels> = Vec::new();
    let mut above: Option<String> = None;
    let mut i: usize = 0;
    while i < rows.len()
        invariant
            i <= rows.len(),
            views == crate::text::texts(rows@),
            out@.len() == i,
            i == 0 ==> above is None,
            i > 0 ==> above is Some && above->0@ == row_folder(views[i - 1]),
            forall|k: int|
                0 <= k < i ==> labels_view(out@)[k] == #[trigger] row_labels_of(views)[k],
        decreases rows.len() - i,
    {
        let ghost before = out@;
        assert(views[i as int] == rows@[i as int]@);
        let (folder, rung) = split_row(rows[i].as_str());
        let first = match &above {
            Some(last) => !same_text(last.as_str(), folder.as_str()),
            None => true,
        };
        let shown = if first {
            Some(folder.clone())
        } else {
            None
        };
        out.push(RowLabels { folder: shown, rung });
        proof {
            assert forall|k: int| 0 <= k < i + 1 implies labels_view(out@)[k]
                == #[trigger] row_labels_of(views)[k] by {
                if k < i {
                    assert(out@[k] == before[k]);
                    assert(labels_view(before)[k] == row_labels_of(views)[k]);
                }
            }
        }
        above = Some(folder);
        i = i + 1;
    }
    assert(labels_view(out@) =~= row_labels_of(views));
    out
}

/// A channel of a colour.
pub open spec fn hex_byte(b: u8) -> Seq<char> {
    seq![crate::digest::hex_char(b as int / 16), crate::digest::hex_char(b as int % 16)]
}

fn push_hex(s: &mut String, b: u8)
    ensures
        final(s)@ == old(s)@ + hex_byte(b),
{
    let ghost before = s@;
    push_char(s, hex_digit(b / 16));
    push_char(s, hex_digit(b % 16));
    assert(s@ =~= before + hex_byte(b));
}

/// A colour with its channels as bytes, the last one its opacity.
#[derive(Debug, Clone, Copy, PartialEq, Eq, Structural)]
pub struct Rgba {
    pub red: u8,
    pub green: u8,
    pub blue: u8,
    pub alpha: u8,
}

/// A colour as text; its opacity is left out where it is full.
pub open spec fn colour_text(c: Rgba) -> Seq<char> {
    let solid = "#"@ + hex_byte(c.red) + hex_byte(c.green) + hex_byte(c.blue);
    if c.alpha == 255 {
        solid
    } else {
        solid + hex_byte(c.alpha)
    }
}

/// A colour as text.
pub fn canonical_colour(c: Rgba) -> (r: String)
    ensures
        r@ == colour_text(c),
{
    let mut out = "#".to_owned();
    push_hex(&mut out, c.red);
    push_hex(&mut out, c.green);
    push_hex(&mut out, c.blue);
    if c.alpha != 255 {
        push_hex(&mut out, c.alpha);
    }
    out
}

/// A colour as text is a hash sign and six or eight lower-case hexadecimal
/// digits: it holds nothing that a style sheet or markup takes for its own.
pub proof fn colour_text_is_plain(c: Rgba)
    ensures
        colour_text(c).len() == (if c.alpha == 255 {
            7int
        } else {
            9
        }),
        colour_text(c)[0] == '#',
        forall|i: int|
            1 <= i < colour_text(c).len() ==> {
                let d = #[trigger] colour_text(c)[i];
                '0' <= d <= '9' || 'a' <= d <= 'f'
            },
{
    reveal_strlit("#");
    assert forall|b: u8, k: int| 0 <= k < 2 implies {
        let d = #[trigger] hex_byte(b)[k];
        '0' <= d <= '9' || 'a' <= d <= 'f'
    } by {
    }
}

/// Two colours with the same text are the same colour.
pub proof fn colour_text_is_unique(a: Rgba, b: Rgba)
    requires
        colour_text(a) == colour_text(b),
    ensures
        a == b,
{
    reveal_strlit("#");
    colour_text_is_plain(a);
    colour_text_is_plain(b);
    let s = colour_text(a);
    hex_byte_reads_back(a.red, b.red, s, 1);
    hex_byte_reads_back(a.green, b.green, s, 3);
    hex_byte_reads_back(a.blue, b.blue, s, 5);
    if a.alpha != 255 {
        hex_byte_reads_back(a.alpha, b.alpha, s, 7);
    }
}

proof fn hex_byte_reads_back(a: u8, b: u8, s: Seq<char>, at: int)
    requires
        s[at] == hex_byte(a)[0],
        s[at + 1] == hex_byte(a)[1],
        s[at] == hex_byte(b)[0],
        s[at + 1] == hex_byte(b)[1],
    ensures
        a == b,
{
}

/// The colours of a configuration, as they were understood.
#[derive(Debug)]
pub struct ParsedColours {
    pub ground: Option<Rgba>,
    pub surface: Option<Rgba>,
    pub fg: Option<Rgba>,
    pub muted: Option<Rgba>,
    pub dim: Option<Rgba>,
    pub accent: Option<Rgba>,
    pub error: Option<Rgba>,
    pub border: Option<Rgba>,
    /// One for each machine.
    pub machines: Vec<Option<Rgba>>,
}

impl ParsedColours {
    /// The colours with the names that they have in complaints, in the order in
    /// which they are looked at.
    pub open spec fn named(self) -> Seq<(Seq<char>, Option<Rgba>)> {
        seq![
            ("theme.ground"@, self.ground),
            ("theme.surface"@, self.surface),
            ("theme.fg"@, self.fg),
            ("theme.muted"@, self.muted),
            ("theme.dim"@, self.dim),
            ("theme.accent"@, self.accent),
            ("theme.error"@, self.error),
            ("theme.border"@, self.border),
        ] + Seq::new(self.machines@.len(), |i: int| ("machine accent"@, self.machines@[i]))
    }
}

/// The name of the first colour that was not understood.
pub open spec fn first_unknown(colours: Seq<(Seq<char>, Option<Rgba>)>) -> Option<Seq<char>>
    decreases colours.len(),
{
    if colours.len() == 0 {
        None
    } else if first_unknown(colours.drop_last()) is Some {
        first_unknown(colours.drop_last())
    } else if colours.last().1 is None {
        Some(colours.last().0)
    } else {
        None
    }
}

proof fn first_unknown_takes(colours: Seq<(Seq<char>, Option<Rgba>)>, n: int)
    requires
        0 <= n <= colours.len(),
        first_unknown(colours.take(n)) is Some,
    ensures
        first_unknown(colours) == first_unknown(colours.take(n)),
    decreases colours.len() - n,
{
    if n < colours.len() {
        assert(colours.take(n + 1).drop_last() =~= colours.take(n));
        first_unknown_takes(colours, n + 1);
    } else {
        assert(colours.take(n) =~= colours);
    }
}

/// The machines with their colours as text.
pub open spec fn recoloured(
    before: Seq<MachineConfig>,
    after: Seq<MachineConfig>,
    colours: Seq<Option<Rgba>>,
) -> bool {
    &&& after.len() == before.len()
    &&& forall|i: int|
        0 <= i < after.len() ==> machine_recoloured(before[i], #[trigger] after[i], colours[i])
}

/// A machine with its colour as text.
pub open spec fn machine_recoloured(
    before: MachineConfig,
    after: MachineConfig,
    colour: Option<Rgba>,
) -> bool {
    &&& colour is Some
    &&& after.accent@ == colour_text(colour->0)
    &&& after.name == before.name
    &&& after.aliases == before.aliases
    &&& after.inventory == before.inventory
    &&& after.inventory_timeout_ms == before.inventory_timeout_ms
    &&& after.launch == before.launch
}

/// The theme with its colours as text.
pub open spec fn theme_recoloured(before: Theme, after: Theme, colours: ParsedColours) -> bool {
    &&& colours.ground is Some && after.ground@ == colour_text(colours.ground->0)
    &&& colours.surface is Some && after.surface@ == colour_text(colours.surface->0)
    &&& colours.fg is Some && after.fg@ == colour_text(colours.fg->0)
    &&& colours.muted is Some && after.muted@ == colour_text(colours.muted->0)
    &&& colours.dim is Some && after.dim@ == colour_text(colours.dim->0)
    &&& colours.accent is Some && after.accent@ == colour_text(colours.accent->0)
    &&& colours.error is Some && after.error@ == colour_text(colours.error->0)
    &&& colours.border is Some && after.border@ == colour_text(colours.border->0)
    &&& after.icon_size == before.icon_size
    &&& after.logo == before.logo
    &&& after.logo_size == before.logo_size
    &&& after.max_height_fraction_bits == before.max_height_fraction_bits
    &&& after.max_width_fraction_bits == before.max_width_fraction_bits
    &&& after.width == before.width
}

/// A configuration with all its colours as text.
pub open spec fn config_recoloured(before: Config, after: Config, colours: ParsedColours) -> bool {
    &&& recoloured(before.machines@, after.machines@, colours.machines@)
    &&& theme_recoloured(before.theme, after.theme, colours)
    &&& after.surface == before.surface
    &&& after.exit_on_focus_loss == before.exit_on_focus_loss
    &&& after.keyboard == before.keyboard
    &&& after.outputs == before.outputs
    &&& after.terminal == before.terminal
    &&& after.layout == before.layout
    &&& after.folders == before.folders
    &&& after.subrows == before.subrows
    &&& after.keys == before.keys
}

fn colour_or_complaint(name: &str, colour: Option<Rgba>) -> (r: Result<String, String>)
    ensures
        match r {
            Ok(text) => colour is Some && text@ == colour_text(colour->0),
            Err(message) => colour is None && message@ == name@ + " is not a valid GTK color"@,
        },
{
    match colour {
        Some(c) => Ok(canonical_colour(c)),
        None => {
            let mut message = name.to_owned();
            message.append(" is not a valid GTK color");
            Err(message)
        },
    }
}

/// The configuration with its colours in one notation, whatever they were
/// written in; it is refused where a colour was not understood.
#[verifier::rlimit(40)]
pub fn canonicalize_config_colors(config: Config, colours: &ParsedColours) -> (r: Result<
    Config,
    String,
>)
    requires
        colours.machines@.len() == config.machines@.len(),
    ensures
        match r {
            Ok(after) => first_unknown(colours.named()) is None && config_recoloured(
                config,
                after,
                *colours,
            ),
            Err(message) => {
                &&& first_unknown(colours.named()) is Some
                &&& message@ == first_unknown(colours.named())->0 + " is not a valid GTK color"@
            },
        },
{
    let ghost named = colours.named();
    let ghost before = config;
    proof {
        reveal_with_fuel(first_unknown, 9);
        assert(named.take(8).len() == 8);
        assert(named.take(8).drop_last() =~= named.take(7));
        assert(named.take(7).drop_last() =~= named.take(6));
        assert(named.take(6).drop_last() =~= named.take(5));
        assert(named.take(5).drop_last() =~= named.take(4));
        assert(named.take(4).drop_last() =~= named.take(3));
        assert(named.take(3).drop_last() =~= named.take(2));
        assert(named.take(2).drop_last() =~= named.take(1));
        assert(named.take(1).drop_last() =~= named.take(0));
        if first_unknown(named.take(8)) is Some {
            first_unknown_takes(named, 8);
        }
    }
    let mut config = config;
    match colour_or_complaint("theme.ground", colours.ground) {
        Ok(text) => config.theme.ground = text,
        Err(message) => {
            return Err(message);
        },
    }
    match colour_or_complaint("theme.surface", colours.surface) {
        Ok(text) => config.theme.surface = text,
        Err(message) => {
            return Err(message);
        },
    }
    match colour_or_complaint("theme.fg", colours.fg) {
        Ok(text) => config.theme.fg = text,
        Err(message) => {
            return Err(message);
        },
    }
    match colour_or_complaint("theme.muted", colours.muted) {
        Ok(text) => config.theme.muted = text,
        Err(message) => {
            return Err(message);
        },
    }
    match colour_or_complaint("theme.dim", colours.dim) {
        Ok(text) => config.theme.dim = text,
        Err(message) => {
            return Err(message);
        },
    }
    match colour_or_complaint("theme.accent", colours.accent) {
        Ok(text) => config.theme.accent = text,
        Err(message) => {
            return Err(message);
        },
    }
    match colour_or_complaint("theme.error", colours.error) {
        Ok(text) => config.theme.error = text,
        Err(message) => {
            return Err(message);
        },
    }
    match colour_or_complaint("theme.border", colours.border) {
        Ok(text) => config.theme.border = text,
        Err(message) => {
            return Err(message);
        },
    }
    assert(theme_recoloured(before.theme, config.theme, *colours));
    let machines = recolour_machines(&mut config.machines, &colours.machines, Ghost(named));
    match machines {
        Ok(()) => {},
        Err(message) => {
            return Err(message);
        },
    }
    Ok(config)
}

fn recolour_machines(
    machines: &mut Vec<MachineConfig>,
    colours: &Vec<Option<Rgba>>,
    Ghost(named): Ghost<Seq<(Seq<char>, Option<Rgba>)>>,
) -> (r: Result<(), String>)
    requires
        colours@.len() == old(machines)@.len(),
        named.len() == 8 + colours@.len(),
        first_unknown(named.take(8)) is None,
        forall|i: int|
            0 <= i < colours@.len() ==> #[trigger] named[8 + i] == (
                "machine accent"@,
                colours@[i],
            ),
    ensures
        match r {
            Ok(()) => first_unknown(named) is None && recoloured(
                old(machines)@,
                final(machines)@,
                colours@,
            ),
            Err(message) => {
                &&& first_unknown(named) is Some
                &&& message@ == first_unknown(named)->0 + " is not a valid GTK color"@
            },
        },
{
    let ghost before = machines@;
    let count: usize = machines.len();
    let mut i: usize = 0;
    while i < count
        invariant
            i <= count,
            count == before.len(),
            machines@.len() == count,
            colours@.len() == count,
            named.len() == 8 + count,
            first_unknown(named.take(8 + i)) is None,
            forall|k: int|
                0 <= k < colours@.len() ==> #[trigger] named[8 + k] == (
                    "machine accent"@,
                    colours@[k],
                ),
            recoloured(before.take(i as int), machines@.take(i as int), colours@),
            forall|k: int| i <= k < count ==> machines@[k] == before[k],
        decreases count - i,
    {
        let ghost then = machines@;
        proof {
            assert(named.take(9 + i).drop_last() =~= named.take(8 + i));
            assert(named.take(9 + i).last() == named[8 + i as int]);
        }
        match colour_or_complaint("machine accent", colours[i]) {
            Ok(text) => {
                let mut machine = machines.remove(i);
                machine.accent = text;
                machines.insert(i, machine);
                proof {
                    assert(machines@ =~= then.update(i as int, machine));
                    let a = machines@.take(i + 1);
                    assert forall|k: int| 0 <= k < i + 1 implies machine_recoloured(
                        before.take(i + 1)[k],
                        #[trigger] a[k],
                        colours@[k],
                    ) by {
                        if k < i {
                            assert(then.take(i as int)[k] == a[k]);
                            assert(before.take(i as int)[k] == before.take(i + 1)[k]);
                        }
                    }
                    assert(recoloured(before.take(i + 1), a, colours@));
                }
            },
            Err(message) => {
                proof {
                    first_unknown_takes(named, 9 + i);
                }
                return Err(message);
            },
        }
        i = i + 1;
    }
    proof {
        assert(named.take(8 + i) =~= named);
        assert(before.take(i as int) =~= before);
        assert(machines@.take(i as int) =~= machines@);
    }
    Ok(())
}

/// Each character is written in markup on its own: the three that markup takes
/// for its own by their names, every other as it is.
pub proof fn markup_is_by_character(a: Seq<char>, b: Seq<char>, c: char)
    ensures
        markup_of(a + b) == markup_of(a) + markup_of(b),
        markup_of(seq!['&']) == "&amp;"@,
        markup_of(seq!['<']) == "&lt;"@,
        markup_of(seq!['>']) == "&gt;"@,
        c != '&' && c != '<' && c != '>' ==> markup_of(seq![c]) == seq![c],
        markup_of(Seq::empty()) == Seq::<char>::empty(),
    decreases b.len(),
{
    reveal_with_fuel(markup_of, 2);
    assert(seq!['&'].drop_last() =~= Seq::empty());
    assert(seq!['<'].drop_last() =~= Seq::empty());
    assert(seq!['>'].drop_last() =~= Seq::empty());
    assert(seq![c].drop_last() =~= Seq::empty());
    assert(markup_of(seq!['&']) =~= "&amp;"@);
    assert(markup_of(seq!['<']) =~= "&lt;"@);
    assert(markup_of(seq!['>']) =~= "&gt;"@);
    if b.len() == 0 {
        assert(a + b =~= a);
        assert(markup_of(a) + markup_of(b) =~= markup_of(a));
    } else {
        markup_is_by_character(a, b.drop_last(), c);
        assert((a + b).drop_last() =~= a + b.drop_last());
        assert(markup_of(a + b) =~= markup_of(a) + markup_of(b));
    }
}

/// A complaint is shown up to its first line break, of either kind; an empty one
/// says that the machine is unreachable.
pub proof fn only_the_first_line_is_shown(line: Seq<char>, rest: Seq<char>)
    requires
        !line.contains('\n'),
        line.len() > 0,
    ensures
        line.last() != '\r' ==> first_line(line + seq!['\n'] + rest) == line,
        first_line(line + seq!['\r', '\n'] + rest) == line,
        first_line(line) == line,
        first_line(Seq::empty()) == "unreachable"@,
{
    let n = line.len() as int;
    assert forall|k: int| 0 <= k < n implies line[k] != '\n' by {
        assert(line.contains(line[k]));
    }
    let a = line + seq!['\n'] + rest;
    crate::text::first_at_is_first(a, '\n');
    assert(a[n] == '\n');
    assert(forall|k: int| 0 <= k < n ==> a[k] == line[k]);
    assert(crate::text::first_at(a, '\n') == Some(n));
    assert(a.take(n) =~= line);
    let b = line + seq!['\r', '\n'] + rest;
    crate::text::first_at_is_first(b, '\n');
    assert(b[n] == '\r' && b[n + 1] == '\n');
    assert(forall|k: int| 0 <= k < n ==> b[k] == line[k]);
    assert(crate::text::first_at(b, '\n') == Some(n + 1));
    assert(b.take(n) =~= line);
    crate::text::first_at_is_first(line, '\n');
}

/// A heading shows the name in the machine's colour, and the first line of an
/// error in the colour for errors.
pub proof fn headings_show_name_and_error(
    name: Seq<char>,
    accent: Seq<char>,
    error: Seq<char>,
    error_colour: Seq<char>,
)
    ensures
        heading(name, accent, None, error_colour) == "<span foreground=\""@ + accent + "\">"@
            + markup_of(name) + "</span>"@,
        heading(name, accent, Some(error), error_colour) == heading(
            name,
            accent,
            None,
            error_colour,
        ) + "  <span foreground=\""@ + error_colour + "\" size=\"small\">"@ + markup_of(
            first_line(error),
        ) + "</span>"@,
{
}

/// Where a text does not stand, nothing is replaced; where it first stands, it is,
/// and the replacing goes on behind it.
pub proof fn replacing_goes_from_the_front(
    front: Seq<char>,
    from: Seq<char>,
    to: Seq<char>,
    rest: Seq<char>,
)
    requires
        from.len() > 0,
        forall|i: int|
            0 <= i < front.len() ==> !from.is_prefix_of((front + from + rest).skip(i)),
    ensures
        text_replaced(front + from + rest, from, to) == front + to + text_replaced(rest, from, to),
    decreases front.len(),
{
    let s = front + from + rest;
    if front.len() == 0 {
        assert(s =~= from + rest);
        assert(from.is_prefix_of(s)) by {
            assert(from =~= s.subrange(0, from.len() as int));
        }
        assert(s.skip(from.len() as int) =~= rest);
        assert(front + to + text_replaced(rest, from, to) =~= to + text_replaced(rest, from, to));
    } else {
        let shorter = front.skip(1);
        assert(s.skip(0) =~= s);
        assert(!from.is_prefix_of(s.skip(0)));
        assert(s.skip(1) =~= shorter + from + rest);
        assert forall|i: int| 0 <= i < shorter.len() implies !from.is_prefix_of(
            (shorter + from + rest).skip(i),
        ) by {
            assert((shorter + from + rest).skip(i) =~= s.skip(i + 1));
            assert(!from.is_prefix_of((front + from + rest).skip(i + 1)));
        }
        replacing_goes_from_the_front(shorter, from, to, rest);
        assert(text_replaced(s, from, to) =~= front + to + text_replaced(rest, from, to));
    }
}

/// A text that another does not hold is replaced nowhere in it.
pub proof fn nothing_to_replace(s: Seq<char>, from: Seq<char>, to: Seq<char>)
    requires
        from.len() > 0,
        forall|i: int| 0 <= i < s.len() ==> !from.is_prefix_of(s.skip(i)),
    ensures
        text_replaced(s, from, to) == s,
    decreases s.len(),
{
    if s.len() > 0 {
        assert(s.skip(0) =~= s);
        assert(!from.is_prefix_of(s.skip(0)));
        let rest = s.skip(1);
        assert forall|i: int| 0 <= i < rest.len() implies !from.is_prefix_of(rest.skip(i)) by {
            assert(rest.skip(i) =~= s.skip(i + 1));
            assert(!from.is_prefix_of(s.skip(i + 1)));
        }
        nothing_to_replace(rest, from, to);
        assert(text_replaced(s, from, to) =~= s);
    }
}

/// In the style sheet every second piece is the name of a colour, and becomes that
/// colour of the theme; the others stay as they are.
pub proof fn every_second_piece_is_a_colour(pieces: Seq<Seq<char>>, piece: Seq<char>, t: Theme)
    ensures
        coloured(Seq::empty(), t) == Seq::<char>::empty(),
        pieces.len() % 2 == 0 ==> coloured(pieces.push(piece), t) == coloured(pieces, t) + piece,
        pieces.len() % 2 == 1 ==> coloured(pieces.push(piece), t) == coloured(pieces, t) + colour(
            t,
            piece,
        ),
{
    assert(pieces.push(piece).drop_last() =~= pieces);
}

/// Each colour of a theme goes by its name.
pub proof fn colours_go_by_name(t: Theme)
    ensures
        colour(t, "ground"@) == t.ground@,
        colour(t, "surface"@) == t.surface@,
        colour(t, "fg"@) == t.fg@,
        colour(t, "muted"@) == t.muted@,
        colour(t, "dim"@) == t.dim@,
        colour(t, "accent"@) == t.accent@,
        colour(t, "border"@) == t.border@,
        colour(t, "error"@) == t.error@,
{
    reveal_strlit("ground");
    reveal_strlit("surface");
    reveal_strlit("fg");
    reveal_strlit("muted");
    reveal_strlit("dim");
    reveal_strlit("accent");
    reveal_strlit("border");
    reveal_strlit("error");
    assert("ground"@[0] == 'g' && "surface"@[0] == 's' && "fg"@[0] == 'f' && "muted"@[0] == 'm');
    assert("dim"@[0] == 'd' && "accent"@[0] == 'a' && "border"@[0] == 'b' && "error"@[0] == 'e');
}

/// A row is named by its folder up to the first slash, and by its rung behind it.
pub proof fn rows_are_named_by_folder_and_rung(folder: Seq<char>, rung: Seq<char>)
    requires
        !folder.contains('/'),
    ensures
        row_folder(folder + seq!['/'] + rung) == folder,
        row_rung(folder + seq!['/'] + rung) == Some(rung),
        row_folder(folder) == folder,
        row_rung(folder) is None,
{
    let row = folder + seq!['/'] + rung;
    let n = folder.len() as int;
    assert forall|k: int| 0 <= k < n implies folder[k] != '/' by {
        assert(folder.contains(folder[k]));
    }
    crate::text::first_at_is_first(row, '/');
    crate::text::first_at_is_first(folder, '/');
    assert(row[n] == '/');
    assert(forall|k: int| 0 <= k < n ==> row[k] == folder[k]);
    assert(crate::text::first_at(row, '/') == Some(n));
    assert(row.take(n) =~= folder);
    assert(row.skip(n + 1) =~= rung);
}

/// A folder is labelled on the first of its rows, and not again on those that
/// follow it; a rung is labelled on its own row.
pub proof fn folders_are_labelled_once(rows: Seq<Seq<char>>, i: int)
    requires
        0 <= i < rows.len(),
    ensures
        row_labels_of(rows).len() == rows.len(),
        row_labels_of(rows)[i].1 == row_rung(rows[i]),
        i == 0 ==> row_labels_of(rows)[i].0 == Some(row_folder(rows[i])),
        i > 0 && row_folder(rows[i - 1]) != row_folder(rows[i]) ==> row_labels_of(rows)[i].0
            == Some(row_folder(rows[i])),
        i > 0 && row_folder(rows[i - 1]) == row_folder(rows[i]) ==> row_labels_of(rows)[i].0
            is None,
{
}

/// A colour is written as the hexadecimal digits of its red, its green and its
/// blue, in that order, and of its alpha where it is not opaque.
pub proof fn colours_are_written_in_order(c: Rgba)
    ensures
        ({
            let s = colour_text(c);
            &&& s[0] == '#'
            &&& s[1] == crate::digest::hex_char(c.red as int / 16)
            &&& s[2] == crate::digest::hex_char(c.red as int % 16)
            &&& s[3] == crate::digest::hex_char(c.green as int / 16)
            &&& s[4] == crate::digest::hex_char(c.green as int % 16)
            &&& s[5] == crate::digest::hex_char(c.blue as int / 16)
            &&& s[6] == crate::digest::hex_char(c.blue as int % 16)
            &&& c.alpha != 255 ==> s[7] == crate::digest::hex_char(c.alpha as int / 16) && s[8]
                == crate::digest::hex_char(c.alpha as int % 16)
            &&& s.len() == (if c.alpha == 255 {
                7int
            } else {
                9
            })
        }),
{
    reveal_strlit("#");
}

/// The colour that is complained about is the first that is not known; there is
/// none exactly if every colour is known.
pub proof fn first_unknown_colour(colours: Seq<(Seq<char>, Option<Rgba>)>, i: int)
    ensures
        first_unknown(colours) is None <==> forall|k: int|
            0 <= k < colours.len() ==> (#[trigger] colours[k]).1 is Some,
        0 <= i < colours.len() && colours[i].1 is None && (forall|k: int|
            0 <= k < i ==> (#[trigger] colours[k]).1 is Some) ==> first_unknown(colours) == Some(
            colours[i].0,
        ),
    decreases colours.len(),
{
    if colours.len() > 0 {
        let fewer = colours.drop_last();
        first_unknown_colour(fewer, i);
        assert(colours[colours.len() - 1] == colours.last());
        assert forall|k: int| 0 <= k < fewer.len() implies #[trigger] colours[k] == fewer[k] by {}
        if first_unknown(colours) is None {
            assert forall|k: int| 0 <= k < colours.len() implies (#[trigger] colours[k]).1
                is Some by {
                if k < fewer.len() {
                    assert(fewer[k].1 is Some);
                }
            }
        }
        if forall|k: int| 0 <= k < colours.len() ==> (#[trigger] colours[k]).1 is Some {
            assert forall|k: int| 0 <= k < fewer.len() implies (#[trigger] fewer[k]).1 is Some by {
                assert(colours[k].1 is Some);
            }
        }
    }
}

/// Colours are looked at in this order: those of the theme, then the accent of
/// each machine.
pub proof fn colours_in_order(p: ParsedColours, i: int)
    ensures
        p.named().len() == 8 + p.machines@.len(),
        p.named()[0] == ("theme.ground"@, p.ground),
        p.named()[1] == ("theme.surface"@, p.surface),
        p.named()[2] == ("theme.fg"@, p.fg),
        p.named()[3] == ("theme.muted"@, p.muted),
        p.named()[4] == ("theme.dim"@, p.dim),
        p.named()[5] == ("theme.accent"@, p.accent),
        p.named()[6] == ("theme.error"@, p.error),
        p.named()[7] == ("theme.border"@, p.border),
        0 <= i < p.machines@.len() ==> p.named()[8 + i] == ("machine accent"@, p.machines@[i]),
{
}

/// Colours become their written form, each its own, and nothing else of a
/// configuration changes.
pub proof fn only_colours_change(before: Config, after: Config, p: ParsedColours, i: int)
    requires
        config_recoloured(before, after, p),
    ensures
        p.ground is Some && after.theme.ground@ == colour_text(p.ground->0),
        p.surface is Some && after.theme.surface@ == colour_text(p.surface->0),
        p.fg is Some && after.theme.fg@ == colour_text(p.fg->0),
        p.muted is Some && after.theme.muted@ == colour_text(p.muted->0),
        p.dim is Some && after.theme.dim@ == colour_text(p.dim->0),
        p.accent is Some && after.theme.accent@ == colour_text(p.accent->0),
        p.error is Some && after.theme.error@ == colour_text(p.error->0),
        p.border is Some && after.theme.border@ == colour_text(p.border->0),
        after.theme.icon_size == before.theme.icon_size && after.theme.width == before.theme.width,
        after.theme.logo == before.theme.logo && after.theme.logo_size == before.theme.logo_size,
        after.theme.max_height_fraction_bits == before.theme.max_height_fraction_bits,
        after.theme.max_width_fraction_bits == before.theme.max_width_fraction_bits,
        after.machines@.len() == before.machines@.len(),
        0 <= i < after.machines@.len() ==> {
            &&& p.machines@[i] is Some
            &&& after.machines@[i].accent@ == colour_text(p.machines@[i]->0)
            &&& after.machines@[i].name == before.machines@[i].name
            &&& after.machines@[i].aliases == before.machines@[i].aliases
            &&& after.machines@[i].inventory == before.machines@[i].inventory
            &&& after.machines@[i].inventory_timeout_ms == before.machines@[i].inventory_timeout_ms
            &&& after.machines@[i].launch == before.machines@[i].launch
        },
        after.surface == before.surface && after.keyboard == before.keyboard,
        after.exit_on_focus_loss == before.exit_on_focus_loss && after.outputs == before.outputs,
        after.terminal == before.terminal && after.layout == before.layout,
        after.folders == before.folders && after.subrows == before.subrows && after.keys
            == before.keys,
{
    if 0 <= i < after.machines@.len() {
        assert(machine_recoloured(before.machines@[i], after.machines@[i], p.machines@[i]));
    }
}

/// The hint follows the focus and whether a rail is selected.
pub proof fn hints_follow_the_focus()
    ensures
        key_hint(Focus::Outside, false) == OUTSIDE_HINT@,
        key_hint(Focus::Inside, false) == INSIDE_HINT@,
        key_hint(Focus::Outside, true) == OUTSIDE_RAIL_HINT@,
        key_hint(Focus::Inside, true) == INSIDE_RAIL_HINT@,
{
}

/// What contracts say of the labels of rows is said of their fields.
pub proof fn labels_show_their_fields(labels: Seq<RowLabels>, i: int)
    requires
        0 <= i < labels.len(),
    ensures
        labels_view(labels).len() == labels.len(),
        labels_view(labels)[i].0 == crate::text::opt_text(labels[i].folder),
        labels_view(labels)[i].1 == crate::text::opt_text(labels[i].rung),
{
}

/// The style sheet is the fixed one with the colours of the theme, every rule of
/// it below the launcher's own class.
pub proof fn style_sheet_of_a_theme(t: Theme)
    ensures
        golden_text(t) == coloured(crate::text::split_text(GOLDEN_STYLE@, '~'), t),
        scoped_text(t) == text_replaced(
            text_replaced(
                text_replaced(golden_text(t), "window {"@, "window.cbar-launcher {"@),
                "\n."@,
                "\n.cbar-launcher ."@,
            ),
            ", ."@,
            ", .cbar-launcher ."@,
        ),
{
}

} // verus!
