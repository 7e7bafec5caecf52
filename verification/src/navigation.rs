//! What the keys, the pointer and dragging do in the launcher.

use crate::column::{copy_app, App, Line, Machine};
use crate::config::Layout;
use crate::materialize::Cursor;
use crate::stream::{Focus, Selection};
use crate::text::{
    chars_of, decimal, find_char, parse_number, push_char, same_text, text_between,
};
use vstd::prelude::*;
use vstd::string::*;

verus! {

/// What a key asks for.
#[derive(Debug, Clone, Copy, PartialEq, Eq, Structural)]
pub enum Action {
    Cancel,
    GoOutside,
    ToggleInside,
    MoveLeft,
    MoveRight,
    MoveUp,
    MoveDown,
    Enter,
    LaunchLine,
    LaunchCell,
    LaunchSelection,
    Backspace,
    ResetVisibility,
}

/// A key that was pressed.
#[derive(Debug, Clone, Copy, PartialEq, Eq, Structural)]
pub struct KeyPress {
    /// What the key is bound to.
    pub action: Option<Action>,
    /// The character of the key.
    pub typed: Option<char>,
    /// Whether a modifier makes it a command and not text.
    pub chord: bool,
}

/// What follows from a key.
#[derive(Debug)]
pub enum Effect {
    /// The selection or the query may have changed.
    Refresh,
    /// Nothing is hidden by the next click any more.
    Disarm,
    Dismiss,
    /// Only the highlight has moved.
    Paint,
    Nothing,
    Launch(Vec<App>),
    /// What was hidden is shown again.
    ResetVisibility,
}

/// What an effect says.
pub enum EffectView {
    Refresh,
    Disarm,
    Dismiss,
    Paint,
    Nothing,
    Launch(Seq<crate::column::AppView>),
    ResetVisibility,
}

impl View for Effect {
    type V = EffectView;

    open spec fn view(&self) -> EffectView {
        match *self {
            Effect::Refresh => EffectView::Refresh,
            Effect::Disarm => EffectView::Disarm,
            Effect::Dismiss => EffectView::Dismiss,
            Effect::Paint => EffectView::Paint,
            Effect::Nothing => EffectView::Nothing,
            Effect::Launch(apps) => EffectView::Launch(crate::column::app_views(apps@)),
            Effect::ResetVisibility => EffectView::ResetVisibility,
        }
    }
}

/// The lines of the cell that is selected.
pub open spec fn cell_lines(view: Seq<Machine>, s: Selection) -> Seq<Line> {
    if s.col < view.len() && s.row < view[s.col as int].cells@.len() {
        view[s.col as int].cells@[s.row as int]@
    } else {
        Seq::empty()
    }
}

/// The applications of the line that is selected.
pub open spec fn line_apps(view: Seq<Machine>, s: Selection) -> Seq<App> {
    let lines = cell_lines(view, s);
    if s.line < lines.len() {
        lines[s.line as int].apps@
    } else {
        Seq::empty()
    }
}

/// The applications of lines, one after another.
pub open spec fn all_apps(lines: Seq<Line>) -> Seq<App>
    decreases lines.len(),
{
    if lines.len() == 0 {
        Seq::empty()
    } else {
        all_apps(lines.drop_last()) + lines.last().apps@
    }
}

/// The application that is selected, by itself.
pub open spec fn selected_app(view: Seq<Machine>, s: Selection) -> Seq<App> {
    let apps = line_apps(view, s);
    if s.item < apps.len() {
        seq![apps[s.item as int]]
    } else {
        Seq::empty()
    }
}

/// The selection at the beginning of its cell.
pub open spec fn at_start(s: Selection, focus: Focus) -> Selection {
    Selection { line: 0, item: 0, item_goal: 0, focus, ..s }
}

/// One further, but not beyond the last of so many.
pub open spec fn forward(at: int, count: int) -> int {
    if count == 0 {
        0
    } else if at + 1 < count {
        at + 1
    } else {
        count - 1
    }
}

/// One back, but not before the first.
pub open spec fn backward(at: usize) -> usize {
    if at == 0 {
        0
    } else {
        (at - 1) as usize
    }
}

/// Whether a character is a control character and not text.
pub open spec fn control(c: char) -> bool {
    c <= '\u{1f}' || '\u{7f}' <= c <= '\u{9f}'
}

/// The applications that a launch key starts: inside a cell the selected one, its
/// line or the whole cell, on a rail always the selected one; outside the line or
/// the whole cell.
pub open spec fn launch_set(view: Seq<Machine>, rail: bool, s: Selection, action: Action) -> Seq<
    App,
> {
    match s.focus {
        Focus::Inside => if rail || action == Action::Enter {
            selected_app(view, s)
        } else if action == Action::LaunchCell {
            all_apps(cell_lines(view, s))
        } else {
            line_apps(view, s)
        },
        Focus::Outside => if action == Action::LaunchLine {
            line_apps(view, s)
        } else {
            all_apps(cell_lines(view, s))
        },
    }
}

/// What a launch key does.
pub open spec fn launch_effect(view: Seq<Machine>, rail: bool, s: Selection, action: Action) ->
    EffectView {
    if s.col < view.len() {
        EffectView::Launch(crate::column::app_views(launch_set(view, rail, s, action)))
    } else {
        EffectView::Nothing
    }
}

/// The selection, the query and what follows, after a key. `above` and `below`
/// are the rows that moving up and down leads to; `armed` says whether the next
/// click hides an application.
pub open spec fn pressed(
    view: Seq<Machine>,
    rail: bool,
    armed: bool,
    above: usize,
    below: usize,
    s: Selection,
    query: Seq<char>,
    key: KeyPress,
) -> (Selection, Seq<char>, EffectView) {
    let refresh = EffectView::Refresh;
    let empty = cell_lines(view, s).len() == 0;
    match key.action {
        None => if !key.chord && key.typed is Some && !control(key.typed->0) {
            (s, query.push(key.typed->0), refresh)
        } else {
            (s, query, refresh)
        },
        Some(Action::Cancel) => if armed {
            (s, query, EffectView::Disarm)
        } else if query.len() > 0 {
            (s, Seq::empty(), refresh)
        } else if s.focus == Focus::Inside {
            (Selection { focus: Focus::Outside, ..s }, query, refresh)
        } else {
            (s, query, EffectView::Dismiss)
        },
        Some(Action::GoOutside) => (Selection { focus: Focus::Outside, ..s }, query, refresh),
        Some(Action::ToggleInside) => (
            at_start(
                s,
                if s.focus == Focus::Outside && !empty {
                    Focus::Inside
                } else {
                    Focus::Outside
                },
            ),
            query,
            refresh,
        ),
        Some(Action::Backspace) => (
            s,
            if query.len() > 0 {
                query.drop_last()
            } else {
                query
            },
            refresh,
        ),
        Some(Action::ResetVisibility) => (s, query, EffectView::ResetVisibility),
        Some(action) => match s.focus {
            Focus::Outside => match action {
                Action::MoveLeft => (Selection { col: backward(s.col), ..s }, query, refresh),
                Action::MoveRight => (
                    Selection { col: forward(s.col as int, view.len() as int) as usize, ..s },
                    query,
                    refresh,
                ),
                Action::MoveUp => (Selection { row: above, ..s }, query, refresh),
                Action::MoveDown => (Selection { row: below, ..s }, query, refresh),
                Action::Enter => (
                    if empty {
                        s
                    } else {
                        at_start(s, Focus::Inside)
                    },
                    query,
                    refresh,
                ),
                _ => if rail {
                    (
                        if empty {
                            s
                        } else {
                            at_start(s, Focus::Inside)
                        },
                        query,
                        EffectView::Paint,
                    )
                } else {
                    (s, query, launch_effect(view, rail, s, action))
                },
            },
            Focus::Inside => match action {
                Action::MoveLeft => (
                    Selection { item: backward(s.item), item_goal: backward(s.item), ..s },
                    query,
                    refresh,
                ),
                Action::MoveRight => {
                    let item = forward(s.item as int, line_apps(view, s).len() as int) as usize;
                    (Selection { item, item_goal: item, ..s }, query, refresh)
                },
                Action::MoveUp => (Selection { line: backward(s.line), ..s }, query, refresh),
                Action::MoveDown => (
                    Selection {
                        line: forward(s.line as int, cell_lines(view, s).len() as int) as usize,
                        ..s
                    },
                    query,
                    refresh,
                ),
                _ => (s, query, launch_effect(view, rail, s, action)),
            },
        },
    }
}

fn step_forward(at: usize, count: usize) -> (r: usize)
    ensures
        r == forward(at as int, count as int),
{
    if count == 0 {
        0
    } else if at < count - 1 {
        at + 1
    } else {
        count - 1
    }
}

fn step_back(at: usize) -> (r: usize)
    ensures
        r == backward(at),
{
    if at == 0 {
        0
    } else {
        at - 1
    }
}

fn cell_len(view: &Vec<Machine>, s: Selection) -> (r: usize)
    ensures
        r == cell_lines(view@, s).len(),
{
    if s.col < view.len() && s.row < view[s.col].cells.len() {
        view[s.col].cells[s.row].len()
    } else {
        0
    }
}

fn line_len(view: &Vec<Machine>, s: Selection) -> (r: usize)
    ensures
        r == line_apps(view@, s).len(),
{
    if s.line < cell_len(view, s) {
        view[s.col].cells[s.row][s.line].apps.len()
    } else {
        0
    }
}

fn copy_apps(apps: &Vec<App>) -> (r: Vec<App>)
    ensures
        crate::column::app_views(r@) == crate::column::app_views(apps@),
{
    let mut out: Vec<App> = Vec::new();
    let mut i: usize = 0;
    while i < apps.len()
        invariant
            i <= apps.len(),
            out@.len() == i,
            forall|k: int| 0 <= k < i ==> (#[trigger] out@[k])@ == apps@[k]@,
        decreases apps.len() - i,
    {
        out.push(copy_app(&apps[i]));
        i = i + 1;
    }
    assert(crate::column::app_views(out@) =~= crate::column::app_views(apps@));
    out
}

fn copy_line_apps(view: &Vec<Machine>, s: Selection) -> (r: Vec<App>)
    ensures
        crate::column::app_views(r@) == crate::column::app_views(line_apps(view@, s)),
{
    if s.line < cell_len(view, s) {
        copy_apps(&view[s.col].cells[s.row][s.line].apps)
    } else {
        let out: Vec<App> = Vec::new();
        assert(crate::column::app_views(out@) =~= crate::column::app_views(line_apps(view@, s)));
        out
    }
}

fn copy_selected_app(view: &Vec<Machine>, s: Selection) -> (r: Vec<App>)
    ensures
        crate::column::app_views(r@) == crate::column::app_views(selected_app(view@, s)),
{
    let mut out: Vec<App> = Vec::new();
    if s.item < line_len(view, s) {
        out.push(copy_app(&view[s.col].cells[s.row][s.line].apps[s.item]));
    }
    assert(crate::column::app_views(out@) =~= crate::column::app_views(selected_app(view@, s)));
    out
}

fn copy_cell_apps(view: &Vec<Machine>, s: Selection) -> (r: Vec<App>)
    ensures
        crate::column::app_views(r@) == crate::column::app_views(all_apps(cell_lines(view@, s))),
{
    let count: usize = cell_len(view, s);
    let ghost lines = cell_lines(view@, s);
    let mut out: Vec<App> = Vec::new();
    let mut i: usize = 0;
    assert(crate::column::app_views(out@) =~= crate::column::app_views(all_apps(lines.take(0))));
    while i < count
        invariant
            i <= count,
            count == lines.len(),
            lines == cell_lines(view@, s),
            crate::column::app_views(out@) == crate::column::app_views(
                all_apps(lines.take(i as int)),
            ),
        decreases count - i,
    {
        proof {
            assert(lines.take(i + 1).drop_last() =~= lines.take(i as int));
            assert(lines.take(i + 1).last() == lines[i as int]);
        }
        let ghost before = crate::column::app_views(out@);
        let mut more = copy_apps(&view[s.col].cells[s.row][i].apps);
        let ghost added = crate::column::app_views(more@);
        out.append(&mut more);
        proof {
            assert(crate::column::app_views(out@) =~= before + added);
            assert(crate::column::app_views(all_apps(lines.take(i + 1))) =~= crate::column::app_views(
                all_apps(lines.take(i as int)),
            ) + crate::column::app_views(lines[i as int].apps@));
        }
        i = i + 1;
    }
    assert(lines.take(i as int) =~= lines);
    out
}

fn launch_key(view: &Vec<Machine>, rail: bool, s: Selection, action: Action) -> (r: Effect)
    ensures
        r@ == launch_effect(view@, rail, s, action),
{
    if s.col >= view.len() {
        return Effect::Nothing;
    }
    let apps = match s.focus {
        Focus::Inside => if rail || action == Action::Enter {
            copy_selected_app(view, s)
        } else if action == Action::LaunchCell {
            copy_cell_apps(view, s)
        } else {
            copy_line_apps(view, s)
        },
        Focus::Outside => if action == Action::LaunchLine {
            copy_line_apps(view, s)
        } else {
            copy_cell_apps(view, s)
        },
    };
    Effect::Launch(apps)
}

fn enter_cell(view: &Vec<Machine>, s: &mut Selection)
    ensures
        *final(s) == (if cell_lines(view@, *old(s)).len() == 0 {
            *old(s)
        } else {
            at_start(*old(s), Focus::Inside)
        }),
{
    if cell_len(view, *s) > 0 {
        s.focus = Focus::Inside;
        s.line = 0;
        s.item = 0;
        s.item_goal = 0;
    }
}

fn is_control_char(c: char) -> (r: bool)
    ensures
        r == control(c),
{
    c <= '\u{1f}' || (c >= '\u{7f}' && c <= '\u{9f}')
}

fn move_outside(
    view: &Vec<Machine>,
    rail: bool,
    above: usize,
    below: usize,
    s: &mut Selection,
    action: Action,
) -> (r: Effect)
    requires
        old(s).focus == Focus::Outside,
        !(action is Cancel || action is GoOutside || action is ToggleInside || action is Backspace
            || action is ResetVisibility),
    ensures
        forall|query: Seq<char>, key: KeyPress, armed: bool|
            key.action == Some(action) ==> (*final(s), query, r@) == #[trigger] pressed(
                view@,
                rail,
                armed,
                above,
                below,
                *old(s),
                query,
                key,
            ),
{
    match action {
        Action::MoveLeft => {
            s.col = step_back(s.col);
            Effect::Refresh
        },
        Action::MoveRight => {
            s.col = step_forward(s.col, view.len());
            Effect::Refresh
        },
        Action::MoveUp => {
            s.row = above;
            Effect::Refresh
        },
        Action::MoveDown => {
            s.row = below;
            Effect::Refresh
        },
        Action::Enter => {
            enter_cell(view, s);
            Effect::Refresh
        },
        _ => if rail {
            enter_cell(view, s);
            Effect::Paint
        } else {
            launch_key(view, rail, *s, action)
        },
    }
}

fn move_inside(view: &Vec<Machine>, rail: bool, s: &mut Selection, action: Action) -> (r: Effect)
    requires
        old(s).focus == Focus::Inside,
        !(action is Cancel || action is GoOutside || action is ToggleInside || action is Backspace
            || action is ResetVisibility),
    ensures
        forall|query: Seq<char>, key: KeyPress, armed: bool, above: usize, below: usize|
            key.action == Some(action) ==> (*final(s), query, r@) == #[trigger] pressed(
                view@,
                rail,
                armed,
                above,
                below,
                *old(s),
                query,
                key,
            ),
{
    match action {
        Action::MoveLeft => {
            s.item = step_back(s.item);
            s.item_goal = s.item;
            Effect::Refresh
        },
        Action::MoveRight => {
            s.item = step_forward(s.item, line_len(view, *s));
            s.item_goal = s.item;
            Effect::Refresh
        },
        Action::MoveUp => {
            s.line = step_back(s.line);
            Effect::Refresh
        },
        Action::MoveDown => {
            s.line = step_forward(s.line, cell_len(view, *s));
            Effect::Refresh
        },
        _ => launch_key(view, rail, *s, action),
    }
}

fn without_last(query: &str) -> (r: String)
    ensures
        r@ == (if query@.len() > 0 {
            query@.drop_last()
        } else {
            query@
        }),
{
    let v = chars_of(query);
    if v.len() == 0 {
        return query.to_owned();
    }
    assert(v@.subrange(0, v@.len() - 1) =~= v@.drop_last());
    text_between(&v, 0, v.len() - 1)
}

/// Takes a key. The selection may have to be brought back into the grid after
/// it.
pub fn press(
    view: &Vec<Machine>,
    rail: bool,
    armed: bool,
    above: usize,
    below: usize,
    s: &mut Selection,
    query: &mut String,
    key: KeyPress,
) -> (r: Effect)
    ensures
        (*final(s), final(query)@, r@) == pressed(
            view@,
            rail,
            armed,
            above,
            below,
            *old(s),
            old(query)@,
            key,
        ),
{
    match key.action {
        None => {
            if let Some(c) = key.typed {
                if !key.chord && !is_control_char(c) {
                    push_char(query, c);
                }
            }
            Effect::Refresh
        },
        Some(Action::Cancel) => {
            if armed {
                return Effect::Disarm;
            }
            if !query.as_str().is_empty() {
                *query = String::new();
                assert(query@ =~= Seq::<char>::empty());
                Effect::Refresh
            } else if s.focus == Focus::Inside {
                s.focus = Focus::Outside;
                Effect::Refresh
            } else {
                Effect::Dismiss
            }
        },
        Some(Action::GoOutside) => {
            s.focus = Focus::Outside;
            Effect::Refresh
        },
        Some(Action::ToggleInside) => {
            let inside = s.focus == Focus::Outside && cell_len(view, *s) > 0;
            s.focus = if inside {
                Focus::Inside
            } else {
                Focus::Outside
            };
            s.line = 0;
            s.item = 0;
            s.item_goal = 0;
            Effect::Refresh
        },
        Some(Action::Backspace) => {
            let shorter = without_last(query.as_str());
            *query = shorter;
            Effect::Refresh
        },
        Some(Action::ResetVisibility) => Effect::ResetVisibility,
        Some(action) => match s.focus {
            Focus::Outside => move_outside(view, rail, above, below, s, action),
            Focus::Inside => move_inside(view, rail, s, action),
        },
    }
}

/// Cancelling always leads out: whatever the state, so many times in a row end in
/// the launcher's dismissal.
pub proof fn cancel_leads_out(
    view: Seq<Machine>,
    rail: bool,
    above: usize,
    below: usize,
    s: Selection,
    query: Seq<char>,
    key: KeyPress,
)
    requires
        key.action == Some(Action::Cancel),
    ensures
        ({
            let (s1, q1, e1) = pressed(view, rail, false, above, below, s, query, key);
            let (s2, q2, e2) = pressed(view, rail, false, above, below, s1, q1, key);
            let (s3, q3, e3) = pressed(view, rail, false, above, below, s2, q2, key);
            e1 is Dismiss || e2 is Dismiss || e3 is Dismiss
        }),
{
}

/// On a rail no key launches more than one application.
pub proof fn rails_launch_one(
    view: Seq<Machine>,
    armed: bool,
    above: usize,
    below: usize,
    s: Selection,
    query: Seq<char>,
    key: KeyPress,
)
    ensures
        pressed(view, true, armed, above, below, s, query, key).2 matches EffectView::Launch(apps)
            ==> apps.len() <= 1,
{
}

/// Whether the grid has to be built again, and not only the highlight moved.
pub fn needs_render(rebuilt: bool, before: &str, after: &str, shown: bool) -> (r: bool)
    ensures
        r == (rebuilt || before@ != after@ || !shown),
{
    rebuilt || !same_text(before, after) || !shown
}

/// Where the highlight of a selection is.
pub fn cursor_of(s: Selection) -> (r: Cursor)
    ensures
        r == (Cursor {
            col: s.col,
            row: s.row,
            line: s.line,
            item: s.item,
            inside: s.focus == Focus::Inside,
        }),
{
    Cursor { col: s.col, row: s.row, line: s.line, item: s.item, inside: s.focus == Focus::Inside }
}

/// The number of applications in the selected cell.
pub open spec fn cell_count(view: Seq<Machine>, s: Selection) -> nat {
    crate::materialize::line_app_count(cell_lines(view, s))
}

/// Whether the selected cell is a rail.
pub fn at_rail(layout: &Layout, folders: &Vec<String>, view: &Vec<Machine>, s: Selection) -> (r:
    bool)
    requires
        s.row < folders@.len() ==> cell_count(view@, s) == 0 || layout.has_shape(
            folders@[s.row as int]@,
        ) || layout.max_items_per_line > 0,
        cell_count(view@, s) <= usize::MAX,
    ensures
        r == (s.row < folders@.len() && layout.lines_of(
            folders@[s.row as int]@,
            cell_count(view@, s) as int,
        ) is None),
{
    if s.row >= folders.len() {
        return false;
    }
    let count: usize = cell_len(view, s);
    let ghost lines = cell_lines(view@, s);
    let mut items: usize = 0;
    let mut i: usize = 0;
    while i < count
        invariant
            i <= count,
            count == lines.len(),
            lines == cell_lines(view@, s),
            crate::materialize::line_app_count(lines) <= usize::MAX,
            items == crate::materialize::line_app_count(lines.take(i as int)),
        decreases count - i,
    {
        proof {
            assert(lines.take(i + 1).drop_last() =~= lines.take(i as int));
            assert(lines.take(i + 1).last() == lines[i as int]);
            fewer_lines_fewer_apps(lines, i + 1);
        }
        items = items + view[s.col].cells[s.row][i].apps.len();
        i = i + 1;
    }
    assert(lines.take(i as int) =~= lines);
    layout.is_rail(folders[s.row].as_str(), items)
}

proof fn fewer_lines_fewer_apps(lines: Seq<Line>, n: int)
    requires
        0 <= n <= lines.len(),
    ensures
        crate::materialize::line_app_count(lines.take(n)) <= crate::materialize::line_app_count(
            lines,
        ),
    decreases lines.len(),
{
    if n == lines.len() {
        assert(lines.take(n) =~= lines);
    } else {
        fewer_lines_fewer_apps(lines.drop_last(), n);
        assert(lines.take(n) =~= lines.drop_last().take(n));
    }
}

/// The selection after a click on a cell: in the cell, and inside it unless it is
/// empty.
pub fn click_cell(view: &Vec<Machine>, col: usize, row: usize) -> (r: Selection)
    ensures
        r.col == col,
        r.row == row,
        r.line == 0,
        r.item == 0,
        r.item_goal == 0,
        r.focus == (if cell_lines(view@, r).len() == 0 {
            Focus::Outside
        } else {
            Focus::Inside
        }),
{
    let mut s = Selection { col, row, line: 0, item: 0, item_goal: 0, focus: Focus::Outside };
    if cell_len(view, s) > 0 {
        s.focus = Focus::Inside;
    }
    s
}

/// The selection when the launcher is shown again: in the same cell, at its
/// beginning.
pub fn reopen(s: &mut Selection, query: &mut String)
    ensures
        *final(s) == at_start(*old(s), old(s).focus),
        final(query)@.len() == 0,
{
    *query = String::new();
    s.line = 0;
    s.item = 0;
    s.item_goal = 0;
}

/// What a dragged application carries: the column that it comes from and its id.
pub open spec fn payload_of(col: nat, id: Seq<char>) -> Seq<char> {
    crate::text::decimal_text(col) + "\u{1}"@ + id
}

/// What a dragged application carries.
pub fn drag_payload(col: usize, id: &str) -> (r: String)
    ensures
        r@ == payload_of(col as nat, id@),
{
    let mut payload = decimal(col as u128);
    payload.append("\u{1}");
    payload.append(id);
    payload
}

/// The application that is dropped on a column, if it comes from that column.
pub open spec fn dropped(payload: Seq<char>, col: usize) -> Option<Seq<char>> {
    match crate::text::first_at(payload, '\u{1}') {
        None => None,
        Some(at) => if crate::text::number_value(payload.take(at)) == Some(col as nat) {
            Some(payload.skip(at + 1))
        } else {
            None
        },
    }
}

/// The application that is dropped on a column, if it comes from that column.
/// What is filed is filed for each machine by itself.
pub fn dropped_app(payload: &str, col: usize) -> (r: Option<String>)
    ensures
        crate::text::opt_text(r) == dropped(payload@, col),
{
    let v = chars_of(payload);
    let n: usize = v.len();
    assert(v@.subrange(0, n as int) =~= v@);
    proof {
        crate::text::first_at_is_first(v@, '\u{1}');
    }
    match find_char(&v, 0, n, '\u{1}') {
        None => None,
        Some(at) => {
            assert(v@.subrange(0, at as int) =~= v@.take(at as int));
            assert(v@.subrange(at + 1, n as int) =~= v@.skip(at + 1));
            match parse_number(&v, 0, at) {
                Some(from) => if from == col {
                    Some(text_between(&v, at + 1, n))
                } else {
                    None
                },
                None => None,
            }
        },
    }
}

/// A dragged application arrives in the column that it comes from, and in no
/// other.
pub proof fn drops_stay_in_their_column(from: usize, id: Seq<char>, to: usize)
    ensures
        dropped(payload_of(from as nat, id), to) == (if from == to {
            Some(id)
        } else {
            None::<Seq<char>>
        }),
{
    reveal_strlit("\u{1}");
    let digits = crate::text::decimal_text(from as nat);
    let payload = payload_of(from as nat, id);
    crate::text::decimal_text_reads_back(from as nat);
    crate::text::first_at_is_first(payload, '\u{1}');
    assert(payload[digits.len() as int] == '\u{1}');
    let at = crate::text::first_at(payload, '\u{1}')->0;
    if at < digits.len() {
        assert(payload[at] == digits[at]);
    }
    assert(at == digits.len());
    assert(payload.take(at) =~= digits);
    assert(payload.skip(at + 1) =~= id);
}

/// The application that a dropped one goes before: the one at the gap where it is
/// dropped, else the one behind the last that is shown.
pub open spec fn before_of(visible: Seq<usize>, names: Seq<Seq<char>>, at: int) -> Option<
    Seq<char>,
> {
    if at < visible.len() && visible[at] < names.len() {
        Some(names[visible[at] as int])
    } else if visible.len() > 0 && visible.last() + 1 < names.len() {
        Some(names[visible.last() + 1])
    } else {
        None
    }
}

/// The application that a dropped one goes before, or none for the end of the
/// line. `visible` are the places in the line that are shown, `names` the ids of
/// all its applications, and `at` the gap, counted in what is shown.
pub fn drop_before(visible: &Vec<usize>, names: &Vec<String>, at: usize) -> (r: Option<String>)
    ensures
        crate::text::opt_text(r) == before_of(visible@, crate::text::texts(names@), at as int),
{
    if at < visible.len() && visible[at] < names.len() {
        return Some(names[visible[at]].clone());
    }
    if visible.len() > 0 {
        let last: usize = visible[visible.len() - 1];
        if last < names.len() && last < names.len() - 1 {
            return Some(names[last + 1].clone());
        }
    }
    None
}

/// What a click on an application asks for.
#[derive(Debug, Clone, Copy, PartialEq, Eq, Structural)]
pub enum Click {
    /// The next click on it hides it.
    Arm,
    Hide,
    /// Launch it; `disarmed` says that another one was armed before.
    Launch { disarmed: bool },
    Nothing,
}

/// Whether an application is the one that the next click hides.
pub open spec fn is_armed(armed: Option<(String, String)>, machine: Seq<char>, id: Seq<char>) -> bool {
    match armed {
        Some(key) => key.0@ == machine && key.1@ == id,
        None => false,
    }
}

/// Takes a click on an application: the third button arms hiding it, the first
/// hides it where it is armed, and else the first and the second launch it.
pub fn click_app(
    button: u32,
    machine: &str,
    id: &str,
    armed: &mut Option<(String, String)>,
) -> (r: Click)
    ensures
        if button == 3 {
            r == Click::Arm && is_armed(*final(armed), machine@, id@)
        } else if button != 1 && button != 2 {
            r == Click::Nothing && *final(armed) == *old(armed)
        } else {
            &&& *final(armed) is None
            &&& r == (if button == 1 && is_armed(*old(armed), machine@, id@) {
                Click::Hide
            } else {
                Click::Launch { disarmed: *old(armed) is Some }
            })
        },
{
    if button == 3 {
        *armed = Some((machine.to_owned(), id.to_owned()));
        return Click::Arm;
    }
    if button != 1 && button != 2 {
        return Click::Nothing;
    }
    let here = match armed {
        Some(key) => same_text(key.0.as_str(), machine) && same_text(key.1.as_str(), id),
        None => false,
    };
    let any = armed.is_some();
    *armed = None;
    if here && button == 1 {
        Click::Hide
    } else {
        Click::Launch { disarmed: any }
    }
}

/// What follows once applications have started.
#[derive(Debug, Clone, Copy, PartialEq, Eq, Structural)]
pub enum Afterwards {
    Nothing,
    /// Stay, and show what the launch changed.
    Render,
    Dismiss,
}

/// What follows once applications have started: the launcher is dismissed, or
/// stays where it was asked to; neither where it is no longer the same showing.
pub fn after_launch(launched: usize, stay: bool, current: bool, visible: bool) -> (r: Afterwards)
    ensures
        r == (if launched == 0 || !current || !visible {
            Afterwards::Nothing
        } else if stay {
            Afterwards::Render
        } else {
            Afterwards::Dismiss
        }),
{
    if launched == 0 || !current || !visible {
        Afterwards::Nothing
    } else if stay {
        Afterwards::Render
    } else {
        Afterwards::Dismiss
    }
}

/// A line that is drawn: its place in the cell, and the places of its
/// applications that are drawn.
#[derive(Debug)]
pub struct PaintedLine {
    pub model_line: usize,
    pub items: Vec<usize>,
}

/// What is drawn: rows and columns of the grid, and the lines of each cell.
#[derive(Debug)]
pub struct Painted {
    pub rowheads: usize,
    pub rows: Vec<usize>,
    pub columns: Vec<usize>,
    pub cells: Vec<Vec<Vec<PaintedLine>>>,
}

/// What is highlighted for a cursor, in places of what is drawn.
#[derive(Debug, Clone, Copy, PartialEq, Eq)]
pub struct Marks {
    pub rowhead: Option<usize>,
    pub cell: Option<(usize, usize)>,
    pub inside: bool,
    pub line: Option<usize>,
    pub app: Option<usize>,
}

/// The first place of a number in a list.
pub open spec fn place_in(list: Seq<usize>, wanted: usize) -> Option<int>
    decreases list.len(),
{
    if list.len() == 0 {
        None
    } else {
        match place_in(list.drop_last(), wanted) {
            Some(i) => Some(i),
            None => if list.last() == wanted {
                Some(list.len() - 1)
            } else {
                None
            },
        }
    }
}

/// The numbers of the lines that are drawn.
pub open spec fn line_numbers(lines: Seq<PaintedLine>) -> Seq<usize> {
    Seq::new(lines.len(), |i: int| lines[i].model_line)
}

fn find_place(list: &Vec<usize>, wanted: usize) -> (r: Option<usize>)
    ensures
        match r {
            Some(i) => i < list@.len() && place_in(list@, wanted) == Some(i as int),
            None => place_in(list@, wanted) is None,
        },
{
    let mut found: Option<usize> = None;
    let mut i: usize = 0;
    while i < list.len()
        invariant
            i <= list.len(),
            match found {
                Some(at) => at < i && place_in(list@.take(i as int), wanted) == Some(at as int),
                None => place_in(list@.take(i as int), wanted) is None,
            },
        decreases list.len() - i,
    {
        assert(list@.take(i + 1).drop_last() =~= list@.take(i as int));
        if found.is_none() && list[i] == wanted {
            found = Some(i);
        }
        i = i + 1;
    }
    assert(list@.take(i as int) =~= list@);
    found
}

fn find_line(lines: &Vec<PaintedLine>, wanted: usize) -> (r: Option<usize>)
    ensures
        match r {
            Some(i) => i < lines@.len() && place_in(line_numbers(lines@), wanted) == Some(
                i as int,
            ),
            None => place_in(line_numbers(lines@), wanted) is None,
        },
{
    let mut numbers: Vec<usize> = Vec::new();
    let mut i: usize = 0;
    while i < lines.len()
        invariant
            i <= lines.len(),
            numbers@.len() == i,
            forall|k: int| 0 <= k < i ==> #[trigger] numbers@[k] == lines@[k].model_line,
        decreases lines.len() - i,
    {
        numbers.push(lines[i].model_line);
        i = i + 1;
    }
    assert(numbers@ =~= line_numbers(lines@));
    find_place(&numbers, wanted)
}

/// A place as a machine number.
pub open spec fn as_place(at: Option<int>) -> Option<usize> {
    match at {
        Some(i) => Some(i as usize),
        None => None,
    }
}

/// What is highlighted inside a cell.
pub open spec fn marks_inside(lines: Seq<PaintedLine>, c: Cursor) -> (Option<usize>, Option<usize>) {
    match place_in(line_numbers(lines), c.line) {
        None => (None, None),
        Some(l) => (Some(l as usize), as_place(place_in(lines[l].items@, c.item))),
    }
}

impl Painted {
    /// What is highlighted for a cursor: the head of its row, its cell, and inside
    /// it the line and the application, as far as they are drawn.
    pub open spec fn marks_of(self, c: Cursor) -> Marks {
        let nothing = Marks { rowhead: None, cell: None, inside: false, line: None, app: None };
        match place_in(self.rows@, c.row) {
            None => nothing,
            Some(row) => {
                let rowhead = if row < self.rowheads {
                    Some(row as usize)
                } else {
                    None
                };
                match place_in(self.columns@, c.col) {
                    None => Marks { rowhead, ..nothing },
                    Some(column) => if row < self.cells@.len() && column
                        < self.cells@[row]@.len() {
                        let (line, app) = if c.inside {
                            marks_inside(self.cells@[row]@[column]@, c)
                        } else {
                            (None, None)
                        };
                        Marks {
                            rowhead,
                            cell: Some((row as usize, column as usize)),
                            inside: c.inside,
                            line,
                            app,
                        }
                    } else {
                        Marks { rowhead, ..nothing }
                    },
                }
            },
        }
    }

    /// What is highlighted for a cursor.
    pub fn mark(&self, c: Cursor) -> (r: Marks)
        ensures
            r == self.marks_of(c),
    {
        let mut marks = Marks { rowhead: None, cell: None, inside: false, line: None, app: None };
        let row: usize = match find_place(&self.rows, c.row) {
            None => {
                return marks;
            },
            Some(row) => row,
        };
        if row < self.rowheads {
            marks.rowhead = Some(row);
        }
        let column: usize = match find_place(&self.columns, c.col) {
            None => {
                return marks;
            },
            Some(column) => column,
        };
        if row >= self.cells.len() || column >= self.cells[row].len() {
            return marks;
        }
        marks.cell = Some((row, column));
        if !c.inside {
            return marks;
        }
        marks.inside = true;
        let lines = &self.cells[row][column];
        if let Some(l) = find_line(lines, c.line) {
            marks.line = Some(l);
            marks.app = find_place(&lines[l].items, c.item);
        }
        marks
    }

    /// Whether a cursor can be highlighted as it is.
    pub fn contains(&self, c: Cursor) -> (r: bool)
        ensures
            r == (self.marks_of(c).cell is Some && (!c.inside || self.marks_of(c).app is Some)),
    {
        let marks = self.mark(c);
        marks.cell.is_some() && (!c.inside || marks.app.is_some())
    }
}

/// The application of a machine that goes by an id: the first one.
pub fn app_by_id(machine: &Machine, id: &str) -> (r: Option<App>)
    ensures
        match crate::stream::column_place(machine.cells@, id@) {
            None => r is None,
            Some((row, line, item)) => r is Some && r->0@
                == machine.cells@[row]@[line].apps@[item]@,
        },
{
    match crate::stream::find_in_column(&machine.cells, id) {
        None => None,
        Some((row, line, item)) => {
            proof {
                crate::stream::column_place_holds(machine.cells@, id@);
            }
            Some(copy_app(&machine.cells[row][line].apps[item]))
        },
    }
}

/// A character is typed at the end of the query, and taken back by the next
/// backspace; neither moves the selection. Control characters and keys with a
/// modifier type nothing.
pub proof fn typing_and_taking_back(
    view: Seq<Machine>,
    rail: bool,
    armed: bool,
    above: usize,
    below: usize,
    s: Selection,
    query: Seq<char>,
    key: KeyPress,
    back: KeyPress,
)
    requires
        key.action is None,
        back.action == Some(Action::Backspace),
    ensures
        ({
            let (s1, typed, effect) = pressed(view, rail, armed, above, below, s, query, key);
            let (s2, after, again) = pressed(view, rail, armed, above, below, s1, typed, back);
            let text = !key.chord && key.typed is Some && key.typed->0 > '\u{1f}' && !('\u{7f}'
                <= key.typed->0 && key.typed->0 <= '\u{9f}');
            &&& s1 == s && s2 == s
            &&& effect is Refresh && again is Refresh
            &&& text ==> typed.len() == query.len() + 1 && typed.last() == key.typed->0
                && typed.drop_last() == query && after == query
            &&& !text ==> typed == query
        }),
        pressed(view, rail, armed, above, below, s, query, back).1.len() == (if query.len() == 0 {
            0
        } else {
            query.len() - 1
        }),
        pressed(view, rail, armed, above, below, s, query, back).1.is_prefix_of(query),
{
    let typed = pressed(view, rail, armed, above, below, s, query, key).1;
    if typed != query {
        assert(typed.drop_last() =~= query);
    }
}

/// Cancelling undoes one thing at a time: what is armed, then the query, then
/// being inside a cell; and then it dismisses. Nothing else is lost by it.
pub proof fn cancelling_undoes_one_thing(
    view: Seq<Machine>,
    rail: bool,
    armed: bool,
    above: usize,
    below: usize,
    s: Selection,
    query: Seq<char>,
    key: KeyPress,
)
    requires
        key.action == Some(Action::Cancel),
    ensures
        ({
            let (after, left, effect) = pressed(view, rail, armed, above, below, s, query, key);
            &&& effect is Disarm <==> armed
            &&& effect is Dismiss <==> !armed && query.len() == 0 && s.focus == Focus::Outside
            &&& armed ==> after == s && left == query
            &&& !armed ==> left.len() == 0
            &&& !armed && query.len() > 0 ==> after == s
            &&& !armed && query.len() == 0 ==> after.focus == Focus::Outside
            &&& after.col == s.col && after.row == s.row && after.line == s.line && after.item
                == s.item && after.item_goal == s.item_goal
        }),
{
}

/// Outside a cell the keys move between cells: left and right by one column,
/// within the columns, up and down to the row above and the one below. The query
/// and the place inside the cell stay.
pub proof fn moving_between_cells(
    view: Seq<Machine>,
    rail: bool,
    armed: bool,
    above: usize,
    below: usize,
    s: Selection,
    query: Seq<char>,
    key: KeyPress,
)
    requires
        s.focus == Focus::Outside,
        key.action == Some(Action::MoveLeft) || key.action == Some(Action::MoveRight) || key.action
            == Some(Action::MoveUp) || key.action == Some(Action::MoveDown),
        view.len() <= usize::MAX,
    ensures
        ({
            let (after, left, effect) = pressed(view, rail, armed, above, below, s, query, key);
            &&& left == query && effect is Refresh
            &&& after.focus == s.focus && after.line == s.line && after.item == s.item
            &&& after.item_goal == s.item_goal
            &&& key.action == Some(Action::MoveLeft) ==> after.row == s.row && (if s.col > 0 {
                after.col == s.col - 1
            } else {
                after.col == 0
            })
            &&& key.action == Some(Action::MoveRight) ==> after.row == s.row
            &&& key.action == Some(Action::MoveRight) && s.col + 1 < view.len() ==> after.col
                == s.col + 1
            &&& key.action == Some(Action::MoveRight) && s.col + 1 >= view.len() && view.len() > 0
                ==> after.col == view.len() - 1
            &&& key.action == Some(Action::MoveUp) ==> after.col == s.col && after.row == above
            &&& key.action == Some(Action::MoveDown) ==> after.col == s.col && after.row == below
        }),
{
}

/// Inside a cell the keys move between its applications: left and right by one
/// item of the line, up and down by one line. The cell stays.
pub proof fn moving_inside_a_cell(
    view: Seq<Machine>,
    rail: bool,
    armed: bool,
    above: usize,
    below: usize,
    s: Selection,
    query: Seq<char>,
    key: KeyPress,
)
    requires
        s.focus == Focus::Inside,
        s.col < view.len(),
        s.row < view[s.col as int].cells@.len(),
        s.line < view[s.col as int].cells@[s.row as int]@.len(),
        s.item < view[s.col as int].cells@[s.row as int]@[s.line as int].apps@.len(),
        key.action == Some(Action::MoveLeft) || key.action == Some(Action::MoveRight) || key.action
            == Some(Action::MoveUp) || key.action == Some(Action::MoveDown),
    ensures
        ({
            let (after, left, effect) = pressed(view, rail, armed, above, below, s, query, key);
            let lines = view[s.col as int].cells@[s.row as int]@;
            let apps = lines[s.line as int].apps@;
            let sideways = key.action == Some(Action::MoveLeft) || key.action == Some(
                Action::MoveRight,
            );
            &&& left == query && effect is Refresh
            &&& after.focus == s.focus && after.col == s.col && after.row == s.row
            &&& sideways ==> after.line == s.line && after.item_goal == after.item
            &&& !sideways ==> after.item == s.item && after.item_goal == s.item_goal
            &&& key.action == Some(Action::MoveLeft) ==> (s.item > 0 ==> after.item == s.item - 1)
                && (s.item == 0 ==> after.item == 0)
            &&& key.action == Some(Action::MoveRight) ==> (s.item + 1 < apps.len() ==> after.item
                == s.item + 1) && (s.item + 1 == apps.len() ==> after.item == s.item)
            &&& key.action == Some(Action::MoveUp) ==> (s.line > 0 ==> after.line == s.line - 1)
                && (s.line == 0 ==> after.line == 0)
            &&& key.action == Some(Action::MoveDown) ==> (s.line + 1 < lines.len() ==> after.line
                == s.line + 1) && (s.line + 1 == lines.len() ==> after.line == s.line)
        }),
{
    assert(view[s.col as int].cells@[s.row as int]@[s.line as int].apps.len() <= usize::MAX);
    assert(view[s.col as int].cells@[s.row as int].len() <= usize::MAX);
}

/// A cell with something in it is entered at its first application; an empty one
/// is not entered.
pub proof fn entering_a_cell(
    view: Seq<Machine>,
    rail: bool,
    armed: bool,
    above: usize,
    below: usize,
    s: Selection,
    query: Seq<char>,
    key: KeyPress,
)
    requires
        s.focus == Focus::Outside,
        s.col < view.len(),
        s.row < view[s.col as int].cells@.len(),
        key.action == Some(Action::Enter) || key.action == Some(Action::ToggleInside),
    ensures
        ({
            let (after, left, effect) = pressed(view, rail, armed, above, below, s, query, key);
            let full = view[s.col as int].cells@[s.row as int]@.len() > 0;
            &&& left == query && effect is Refresh
            &&& after.col == s.col && after.row == s.row
            &&& after.focus == Focus::Inside <==> full
            &&& full ==> after.line == 0 && after.item == 0 && after.item_goal == 0
        }),
{
}

/// Inside a cell, toggling and going outside lead out of it, and change neither
/// the cell nor the query.
pub proof fn leaving_a_cell(
    view: Seq<Machine>,
    rail: bool,
    armed: bool,
    above: usize,
    below: usize,
    s: Selection,
    query: Seq<char>,
    key: KeyPress,
)
    requires
        s.focus == Focus::Inside,
        key.action == Some(Action::GoOutside) || key.action == Some(Action::ToggleInside),
    ensures
        ({
            let (after, left, effect) = pressed(view, rail, armed, above, below, s, query, key);
            &&& left == query && effect is Refresh
            &&& after.focus == Focus::Outside && after.col == s.col && after.row == s.row
            &&& key.action == Some(Action::GoOutside) ==> after.line == s.line && after.item
                == s.item
            &&& key.action == Some(Action::ToggleInside) ==> after.line == 0 && after.item == 0
        }),
{
}

/// The applications of several lines are those of each line, in order.
pub proof fn applications_of_lines_in_order(a: Seq<Line>, b: Seq<Line>, line: Line)
    ensures
        all_apps(Seq::empty()) == Seq::<App>::empty(),
        all_apps(seq![line]) == line.apps@,
        all_apps(a + b) == all_apps(a) + all_apps(b),
    decreases b.len(),
{
    reveal_with_fuel(all_apps, 2);
    assert(seq![line].drop_last() =~= Seq::empty());
    assert(all_apps(seq![line]) =~= line.apps@);
    if b.len() == 0 {
        assert(a + b =~= a);
        assert(all_apps(a) + all_apps(b) =~= all_apps(a));
    } else {
        applications_of_lines_in_order(a, b.drop_last(), line);
        assert((a + b).drop_last() =~= a + b.drop_last());
        assert(all_apps(a + b) =~= all_apps(a) + all_apps(b));
    }
}

/// Inside a cell, entering launches the selected application alone, and nothing
/// moves.
pub proof fn entering_launches_the_selected(
    view: Seq<Machine>,
    rail: bool,
    armed: bool,
    above: usize,
    below: usize,
    s: Selection,
    query: Seq<char>,
    key: KeyPress,
)
    requires
        s.focus == Focus::Inside,
        s.col < view.len(),
        s.row < view[s.col as int].cells@.len(),
        s.line < view[s.col as int].cells@[s.row as int]@.len(),
        s.item < view[s.col as int].cells@[s.row as int]@[s.line as int].apps@.len(),
        key.action == Some(Action::Enter) || (rail && (key.action == Some(Action::LaunchLine)
            || key.action == Some(Action::LaunchCell) || key.action == Some(
            Action::LaunchSelection,
        ))),
    ensures
        ({
            let (after, left, effect) = pressed(view, rail, armed, above, below, s, query, key);
            let app = view[s.col as int].cells@[s.row as int]@[s.line as int].apps@[s.item as int];
            &&& after == s && left == query
            &&& effect is Launch && effect->Launch_0.len() == 1
            &&& effect->Launch_0[0].id == app.id@
            &&& effect->Launch_0[0].name == app.name@
            &&& effect->Launch_0[0].command == app.command@
            &&& effect->Launch_0[0].terminal == app.terminal
        }),
{
}

/// Where no rail is, the keys that launch several take the applications of the
/// line or of the whole cell, all of them and in order. Outside a cell the
/// selection is the cell; inside it is the line.
pub proof fn launching_several(
    view: Seq<Machine>,
    armed: bool,
    above: usize,
    below: usize,
    s: Selection,
    query: Seq<char>,
    key: KeyPress,
    i: int,
)
    requires
        s.col < view.len(),
        s.row < view[s.col as int].cells@.len(),
        s.line < view[s.col as int].cells@[s.row as int]@.len(),
        key.action == Some(Action::LaunchLine) || key.action == Some(Action::LaunchCell)
            || key.action == Some(Action::LaunchSelection),
    ensures
        ({
            let (after, left, effect) = pressed(view, false, armed, above, below, s, query, key);
            let lines = view[s.col as int].cells@[s.row as int]@;
            let whole = key.action == Some(Action::LaunchCell) || (key.action == Some(
                Action::LaunchSelection,
            ) && s.focus == Focus::Outside);
            let apps = if whole {
                all_apps(lines)
            } else {
                lines[s.line as int].apps@
            };
            &&& after == s && left == query
            &&& effect is Launch && effect->Launch_0.len() == apps.len()
            &&& 0 <= i < apps.len() ==> effect->Launch_0[i] == apps[i]@
        }),
{
}

/// A rail is entered before anything of it is launched.
pub proof fn rails_are_entered_first(
    view: Seq<Machine>,
    armed: bool,
    above: usize,
    below: usize,
    s: Selection,
    query: Seq<char>,
    key: KeyPress,
)
    requires
        s.focus == Focus::Outside,
        s.col < view.len(),
        s.row < view[s.col as int].cells@.len(),
        view[s.col as int].cells@[s.row as int]@.len() > 0,
        key.action == Some(Action::LaunchLine) || key.action == Some(Action::LaunchCell)
            || key.action == Some(Action::LaunchSelection),
    ensures
        ({
            let (after, left, effect) = pressed(view, true, armed, above, below, s, query, key);
            &&& effect is Paint && left == query
            &&& after.focus == Focus::Inside && after.col == s.col && after.row == s.row
            &&& after.line == 0 && after.item == 0
        }),
{
}

/// A number is found at its first place in a list, if it is there.
pub proof fn first_place(list: Seq<usize>, wanted: usize)
    ensures
        match place_in(list, wanted) {
            Some(i) => 0 <= i < list.len() && list[i] == wanted && forall|k: int|
                0 <= k < i ==> #[trigger] list[k] != wanted,
            None => !list.contains(wanted),
        },
    decreases list.len(),
{
    if list.len() > 0 {
        first_place(list.drop_last(), wanted);
        assert forall|k: int| 0 <= k < list.len() - 1 implies #[trigger] list[k]
            == list.drop_last()[k] by {}
        if place_in(list.drop_last(), wanted) is None {
            assert forall|k: int| 0 <= k < list.len() - 1 implies #[trigger] list[k] != wanted by {
                assert(list.drop_last().contains(list.drop_last()[k]));
            }
        }
    }
}

/// The highlight is on the painted row and column of the cursor, where both are
/// painted; on the painted line and application only inside a cell.
pub proof fn highlight_is_where_the_cursor_is(p: Painted, c: Cursor)
    ensures
        ({
            let m = p.marks_of(c);
            &&& m.rowhead is Some ==> m.rowhead->0 < p.rowheads && m.rowhead->0 < p.rows@.len()
                && p.rows@[m.rowhead->0 as int] == c.row
            &&& m.cell is Some ==> ({
                let (row, column) = m.cell->0;
                &&& row < p.rows@.len() && p.rows@[row as int] == c.row
                &&& column < p.columns@.len() && p.columns@[column as int] == c.col
                &&& m.inside == c.inside
                &&& row < p.cells@.len() && column < p.cells@[row as int]@.len()
                &&& m.line is Some ==> ({
                    let lines = p.cells@[row as int]@[column as int]@;
                    &&& c.inside
                    &&& m.line->0 < lines.len() && lines[m.line->0 as int].model_line == c.line
                    &&& m.app is Some ==> m.app->0 < lines[m.line->0 as int].items@.len()
                        && lines[m.line->0 as int].items@[m.app->0 as int] == c.item
                })
                &&& c.inside ==> ({
                    let lines = p.cells@[row as int]@[column as int]@;
                    &&& m.line is None ==> forall|l: int|
                        0 <= l < lines.len() ==> (#[trigger] lines[l]).model_line != c.line
                    &&& m.line is Some && m.app is None ==> !lines[m.line->0 as int].items@.contains(
                        c.item,
                    )
                })
            })
            &&& m.cell is None ==> !m.inside && m.line is None && m.app is None
            &&& !p.rows@.contains(c.row) || !p.columns@.contains(c.col) ==> m.cell is None
        }),
{
    first_place(p.rows@, c.row);
    first_place(p.columns@, c.col);
    assert(p.rows.len() <= usize::MAX && p.columns.len() <= usize::MAX);
    let m = p.marks_of(c);
    if m.cell is Some {
        let row = place_in(p.rows@, c.row)->0;
        let column = place_in(p.columns@, c.col)->0;
        let lines = p.cells@[row]@[column]@;
        assert(p.cells@[row]@[column].len() <= usize::MAX);
        first_place(line_numbers(lines), c.line);
        assert forall|l: int| 0 <= l < lines.len() implies #[trigger] lines[l].model_line
            == line_numbers(lines)[l] by {}
        if place_in(line_numbers(lines), c.line) is Some {
            let l = place_in(line_numbers(lines), c.line)->0;
            assert(lines[l].items.len() <= usize::MAX);
            first_place(lines[l].items@, c.item);
        } else {
            assert forall|l: int| 0 <= l < lines.len() implies (#[trigger] lines[l]).model_line
                != c.line by {
                assert(line_numbers(lines).contains(line_numbers(lines)[l]));
            }
        }
    }
}

/// A dropped application goes before the one at the gap; behind the last one
/// shown, before the next that is not shown; else to the end.
pub proof fn drops_go_before_the_gap(visible: Seq<usize>, names: Seq<Seq<char>>, at: int)
    requires
        0 <= at,
    ensures
        at < visible.len() && visible[at] < names.len() ==> before_of(visible, names, at) == Some(
            names[visible[at] as int],
        ),
        at >= visible.len() > 0 && visible.last() + 1 < names.len() ==> before_of(
            visible,
            names,
            at,
        ) == Some(names[visible.last() + 1]),
        at >= visible.len() > 0 && visible.last() + 1 >= names.len() ==> before_of(
            visible,
            names,
            at,
        ) is None,
        visible.len() == 0 ==> before_of(visible, names, at) is None,
{
}

/// Only the application that was armed is armed: another id, or the same id of
/// another machine, is not.
pub proof fn one_application_is_armed(
    armed: Option<(String, String)>,
    machine: Seq<char>,
    id: Seq<char>,
    other_machine: Seq<char>,
    other_id: Seq<char>,
)
    ensures
        armed is None ==> !is_armed(armed, machine, id),
        armed is Some ==> ({
            let key = armed->0;
            is_armed(armed, key.0@, key.1@)
        }),
        is_armed(armed, machine, id) && is_armed(armed, other_machine, other_id) ==> machine
            == other_machine && id == other_id,
{
}

/// A cell counts the applications of all its lines.
pub proof fn applications_of_a_cell_are_counted(view: Seq<Machine>, s: Selection)
    ensures
        s.col < view.len() && s.row < view[s.col as int].cells@.len() ==> cell_count(view, s)
            == crate::materialize::line_app_count(view[s.col as int].cells@[s.row as int]@),
        s.col >= view.len() ==> cell_count(view, s) == 0,
{
}

/// What contracts say of an effect is said of its applications, all of them and in
/// order; no two effects are alike.
pub proof fn effects_show_their_applications(effect: Effect, i: int)
    ensures
        effect is Launch <==> effect@ is Launch,
        effect is Launch ==> effect@->Launch_0.len() == effect->Launch_0@.len(),
        effect is Launch && 0 <= i < effect->Launch_0@.len() ==> {
            let shown = effect@->Launch_0[i];
            let app = effect->Launch_0@[i];
            &&& shown.id == app.id@ && shown.name == app.name@ && shown.icon == app.icon@
            &&& shown.command == app.command@ && shown.terminal == app.terminal
            &&& shown.desktop_file == app.desktop_file@
        },
        effect is Refresh <==> effect@ is Refresh,
        effect is Disarm <==> effect@ is Disarm,
        effect is Dismiss <==> effect@ is Dismiss,
        effect is Paint <==> effect@ is Paint,
        effect is Nothing <==> effect@ is Nothing,
        effect is ResetVisibility <==> effect@ is ResetVisibility,
{
}

} // verus!
