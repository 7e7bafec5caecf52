//! Which columns, rows, lines and applications of the launcher get widgets: a
//! page around the cursor, bounded in every direction.

use crate::column::{Line, Machine};
use vstd::prelude::*;

verus! {

pub const MAX_MATERIALIZED_APP_WIDGETS: usize = 512;

pub const MAX_MATERIALIZED_ROWS: usize = 64;

pub const MAX_MATERIALIZED_COLUMNS: usize = 8;

pub const MAX_MATERIALIZED_ICON_BYTES: usize = 134217728;

/// The selection.
#[derive(Debug, Clone, Copy, PartialEq, Eq, Structural)]
pub struct Cursor {
    pub col: usize,
    pub row: usize,
    pub line: usize,
    pub item: usize,
    /// Whether a single application is selected, not the whole cell.
    pub inside: bool,
}

/// The place of an application.
#[derive(Debug, Clone, Copy, PartialEq, Eq, Structural)]
pub struct AppPosition {
    pub col: usize,
    pub row: usize,
    pub line: usize,
    pub item: usize,
}

/// The place of a line.
#[derive(Debug, Clone, Copy, PartialEq, Eq, Structural)]
pub struct LinePosition {
    pub col: usize,
    pub row: usize,
    pub line: usize,
}

/// What gets widgets.
#[derive(Debug)]
pub struct Materialization {
    pub columns: Vec<usize>,
    pub rows: Vec<usize>,
    pub apps: Vec<AppPosition>,
    pub lines: Vec<LinePosition>,
    pub page: usize,
    pub pages: usize,
}

impl Materialization {
    pub fn app_visible(&self, col: usize, row: usize, line: usize, item: usize) -> (r: bool)
        ensures
            r == self.apps@.contains(AppPosition { col, row, line, item }),
    {
        let wanted = AppPosition { col, row, line, item };
        let mut i: usize = 0;
        while i < self.apps.len()
            invariant
                i <= self.apps.len(),
                wanted == (AppPosition { col, row, line, item }),
                forall|k: int| 0 <= k < i ==> self.apps@[k] != wanted,
            decreases self.apps.len() - i,
        {
            if self.apps[i] == wanted {
                return true;
            }
            i = i + 1;
        }
        false
    }

    pub fn line_visible(&self, col: usize, row: usize, line: usize) -> (r: bool)
        ensures
            r == self.lines@.contains(LinePosition { col, row, line }),
    {
        has_line(&self.lines, LinePosition { col, row, line })
    }

    /// Whether the cursor can be drawn without building other widgets.
    pub fn contains(&self, c: Cursor) -> (r: bool)
        ensures
            r == (self.rows@.contains(c.row) && self.columns@.contains(c.col) && (!c.inside
                || self.apps@.contains(
                AppPosition { col: c.col, row: c.row, line: c.line, item: c.item },
            ))),
    {
        has_row(&self.rows, c.row) && has_row(&self.columns, c.col) && (!c.inside
            || self.app_visible(c.col, c.row, c.line, c.item))
    }

    pub fn is_paged(&self) -> (r: bool)
        ensures
            r == (self.pages > 1),
    {
        self.pages > 1
    }
}

fn has_line(lines: &Vec<LinePosition>, wanted: LinePosition) -> (r: bool)
    ensures
        r == lines@.contains(wanted),
{
    let mut i: usize = 0;
    while i < lines.len()
        invariant
            i <= lines.len(),
            forall|k: int| 0 <= k < i ==> lines@[k] != wanted,
        decreases lines.len() - i,
    {
        if lines[i] == wanted {
            return true;
        }
        i = i + 1;
    }
    false
}

/// The number of applications in the lines.
pub open spec fn line_app_count(lines: Seq<Line>) -> nat
    decreases lines.len(),
{
    if lines.len() == 0 {
        0
    } else {
        line_app_count(lines.drop_last()) + lines.last().apps@.len()
    }
}

/// The number of applications in the cells.
pub open spec fn cell_app_count(cells: Seq<Vec<Line>>) -> nat
    decreases cells.len(),
{
    if cells.len() == 0 {
        0
    } else {
        cell_app_count(cells.drop_last()) + line_app_count(cells.last()@)
    }
}

/// `n`, or the largest machine number if it is larger.
pub open spec fn saturated(n: nat) -> usize {
    if n <= usize::MAX {
        n as usize
    } else {
        usize::MAX
    }
}

/// How many applications a machine has.
pub fn machine_app_count(machine: &Machine) -> (r: usize)
    ensures
        r == saturated(cell_app_count(machine.cells@)),
{
    let mut total: usize = 0;
    let mut c: usize = 0;
    while c < machine.cells.len()
        invariant
            c <= machine.cells.len(),
            total == saturated(cell_app_count(machine.cells@.take(c as int))),
        decreases machine.cells.len() - c,
    {
        let cell = &machine.cells[c];
        let ghost before = cell_app_count(machine.cells@.take(c as int));
        assert(machine.cells@.take(c + 1).drop_last() =~= machine.cells@.take(c as int));
        let mut l: usize = 0;
        while l < cell.len()
            invariant
                l <= cell.len(),
                total == saturated(before + line_app_count(cell@.take(l as int))),
            decreases cell.len() - l,
        {
            assert(cell@.take(l + 1).drop_last() =~= cell@.take(l as int));
            let n: usize = cell[l].apps.len();
            total = if n > usize::MAX - total {
                usize::MAX
            } else {
                total + n
            };
            l = l + 1;
        }
        assert(cell@.take(l as int) =~= cell@);
        c = c + 1;
    }
    assert(machine.cells@.take(c as int) =~= machine.cells@);
    total
}

/// The most icons of this size that fit the memory budget twice: as pixels and
/// as textures.
pub open spec fn icon_limit(icon_size: i32) -> int {
    let bytes = 8 * icon_size * icon_size;
    if icon_size < 0 || bytes > usize::MAX {
        0
    } else if bytes == 0 {
        MAX_MATERIALIZED_ICON_BYTES as int
    } else {
        MAX_MATERIALIZED_ICON_BYTES as int / bytes
    }
}

/// The most icons of this size that fit the memory budget.
pub fn max_materialized_icons(icon_size: i32) -> (r: usize)
    ensures
        r == icon_limit(icon_size),
{
    if icon_size < 0 {
        return 0;
    }
    let size: u128 = icon_size as u128;
    assert(0 <= size * size <= 0x7fff_ffff * 0x7fff_ffff) by (nonlinear_arith)
        requires
            0 <= size <= 0x7fff_ffff,
    ;
    let bytes: u128 = 8 * (size * size);
    assert(bytes == 8 * icon_size * icon_size) by (nonlinear_arith)
        requires
            bytes == 8 * (size * size),
            size == icon_size,
    ;
    if bytes > usize::MAX as u128 {
        return 0;
    }
    if bytes == 0 {
        MAX_MATERIALIZED_ICON_BYTES
    } else {
        let limit: u128 = MAX_MATERIALIZED_ICON_BYTES as u128 / bytes;
        assert(limit <= MAX_MATERIALIZED_ICON_BYTES) by (nonlinear_arith)
            requires
                limit == MAX_MATERIALIZED_ICON_BYTES as u128 / bytes,
                bytes >= 1,
        ;
        limit as usize
    }
}

/// The most applications on one page.
pub open spec fn budget_of(icon_size: i32) -> int {
    let limit = icon_limit(icon_size);
    if limit < 1 {
        1
    } else if limit < MAX_MATERIALIZED_APP_WIDGETS {
        limit
    } else {
        MAX_MATERIALIZED_APP_WIDGETS as int
    }
}

/// What a machine counts against the budget of a page of columns.
pub open spec fn column_cost(machine: Machine, budget: int) -> int {
    let count = saturated(cell_app_count(machine.cells@)) as int;
    if count < 1 {
        1
    } else if count > budget {
        budget
    } else {
        count
    }
}

/// What the machines from `s` up to `i` count together.
pub open spec fn columns_cost(machines: Seq<Machine>, s: int, i: int, budget: int) -> int
    decreases i - s,
{
    if i <= s {
        0
    } else {
        columns_cost(machines, s, i - 1, budget) + column_cost(machines[i - 1], budget)
    }
}

/// The first column of the page that column `i` is on: pages are filled from
/// the left, up to the number of columns and up to the budget. The largest
/// budget there is counts as none.
pub open spec fn column_page_start(machines: Seq<Machine>, budget: int, i: int) -> int
    decreases i,
{
    if i <= 0 {
        0
    } else {
        let s = column_page_start(machines, budget, i - 1);
        if i - s >= MAX_MATERIALIZED_COLUMNS || (budget < usize::MAX && columns_cost(
            machines,
            s,
            i,
            budget,
        ) + column_cost(machines[i], budget) > budget) {
            i
        } else {
            s
        }
    }
}

/// The columns that share a page with column `selected`.
pub open spec fn is_column_page(
    machines: Seq<Machine>,
    selected: int,
    budget: int,
    columns: Seq<usize>,
) -> bool {
    if machines.len() == 0 {
        columns.len() == 0
    } else {
        let chosen = if selected < machines.len() {
            selected
        } else {
            machines.len() - 1
        };
        let s = column_page_start(machines, budget, chosen);
        &&& 0 <= s <= chosen < s + columns.len() <= machines.len()
        &&& forall|k: int| 0 <= k < columns.len() ==> #[trigger] columns[k] == s + k
        &&& forall|c: int|
            s <= c < s + columns.len() ==> #[trigger] column_page_start(machines, budget, c) == s
        &&& s + columns.len() < machines.len() ==> column_page_start(
            machines,
            budget,
            s + columns.len(),
        ) == s + columns.len()
    }
}

proof fn column_page_start_bounds(machines: Seq<Machine>, budget: int, i: int)
    requires
        i >= 0,
    ensures
        0 <= column_page_start(machines, budget, i) <= i,
        i - column_page_start(machines, budget, i) < MAX_MATERIALIZED_COLUMNS,
    decreases i,
{
    if i > 0 {
        column_page_start_bounds(machines, budget, i - 1);
    }
}

/// The columns that share a page with the selected one. A selection past the
/// end counts as the last column.
pub fn materialized_columns(machines: &Vec<Machine>, selected: usize, app_budget: usize) -> (r: Vec<
    usize,
>)
    ensures
        is_column_page(
            machines@,
            selected as int,
            if app_budget < 1 {
                1
            } else {
                app_budget as int
            },
            r@,
        ),
        r@.len() <= MAX_MATERIALIZED_COLUMNS,
{
    let app_budget: usize = if app_budget < 1 {
        1
    } else {
        app_budget
    };
    let mut columns: Vec<usize> = Vec::new();
    if machines.len() == 0 {
        return columns;
    }
    let chosen: usize = if selected < machines.len() {
        selected
    } else {
        machines.len() - 1
    };
    let ghost budget = app_budget as int;
    let mut start: usize = 0;
    let mut cost: usize = 0;
    let mut i: usize = 0;
    let mut end: usize = machines.len();
    while i < machines.len()
        invariant_except_break
            i <= machines.len(),
            end == machines.len(),
            budget == app_budget,
            1 <= app_budget,
            chosen < machines.len(),
            start <= i,
            i > 0 ==> start < i,
            i > 0 ==> start == column_page_start(machines@, budget, i - 1),
            i == 0 ==> start == 0,
            columns_cost(machines@, start as int, i as int, budget) >= 0,
            cost == saturated(columns_cost(machines@, start as int, i as int, budget) as nat),
            cost <= app_budget,
            i > chosen ==> start <= chosen,
            i - start <= MAX_MATERIALIZED_COLUMNS,
            forall|k: int|
                start <= k < i ==> #[trigger] column_page_start(machines@, budget, k) == start,
        ensures
            start <= chosen < end <= machines.len(),
            end - start <= MAX_MATERIALIZED_COLUMNS,
            forall|k: int|
                start <= k < end ==> #[trigger] column_page_start(machines@, budget, k) == start,
            end < machines.len() ==> column_page_start(machines@, budget, end as int) == end,
        decreases machines.len() - i,
    {
        let count: usize = machine_app_count(&machines[i]);
        let own: usize = if count < 1 {
            1
        } else if count > app_budget {
            app_budget
        } else {
            count
        };
        assert(own == column_cost(machines@[i as int], budget));
        if i > start && (i - start >= MAX_MATERIALIZED_COLUMNS || (app_budget < usize::MAX && cost
            > app_budget - own)) {
            assert(column_page_start(machines@, budget, i as int) == i);
            if i > chosen {
                end = i;
                break;
            }
            start = i;
            cost = 0;
        }
        assert(column_page_start(machines@, budget, i as int) == start);
        assert(columns_cost(machines@, start as int, i + 1, budget) == columns_cost(
            machines@,
            start as int,
            i as int,
            budget,
        ) + own);
        cost = match cost.checked_add(own) {
            Some(sum) => sum,
            None => usize::MAX,
        };
        i = i + 1;
    }
    let mut k: usize = start;
    while k < end
        invariant
            start <= k <= end,
            columns@.len() == k - start,
            forall|j: int| 0 <= j < columns@.len() ==> columns@[j] == start + j,
        decreases end - k,
    {
        columns.push(k);
        k = k + 1;
    }
    assert(column_page_start(machines@, budget, chosen as int) == start);
    columns
}

/// The number of rows of the longest machine.
pub open spec fn row_count(machines: Seq<Machine>) -> nat
    decreases machines.len(),
{
    if machines.len() == 0 {
        0
    } else {
        let before = row_count(machines.drop_last());
        if machines.last().cells@.len() > before {
            machines.last().cells@.len()
        } else {
            before
        }
    }
}

fn count_rows(machines: &Vec<Machine>) -> (r: usize)
    ensures
        r == row_count(machines@),
{
    let mut rows: usize = 0;
    let mut i: usize = 0;
    while i < machines.len()
        invariant
            i <= machines.len(),
            rows == row_count(machines@.take(i as int)),
        decreases machines.len() - i,
    {
        assert(machines@.take(i + 1).drop_last() =~= machines@.take(i as int));
        if machines[i].cells.len() > rows {
            rows = machines[i].cells.len();
        }
        i = i + 1;
    }
    assert(machines@.take(i as int) =~= machines@);
    rows
}

/// The applications of one cell, in order.
pub open spec fn cell_positions(col: usize, row: int, lines: Seq<Line>) -> Seq<AppPosition>
    decreases lines.len(),
{
    if lines.len() == 0 {
        Seq::empty()
    } else {
        cell_positions(col, row, lines.drop_last()) + Seq::new(
            lines.last().apps@.len(),
            |item: int|
                AppPosition {
                    col,
                    row: row as usize,
                    line: (lines.len() - 1) as usize,
                    item: item as usize,
                },
        )
    }
}

/// The cell of a machine, if it is there.
pub open spec fn cell_of(machines: Seq<Machine>, col: int, row: int) -> Option<Seq<Line>> {
    if 0 <= col < machines.len() && 0 <= row < machines[col].cells@.len() {
        Some(machines[col].cells@[row]@)
    } else {
        None
    }
}

/// The applications of one row in the given columns.
pub open spec fn row_positions(machines: Seq<Machine>, columns: Seq<usize>, row: int) -> Seq<
    AppPosition,
>
    decreases columns.len(),
{
    if columns.len() == 0 {
        Seq::empty()
    } else {
        let before = row_positions(machines, columns.drop_last(), row);
        match cell_of(machines, columns.last() as int, row) {
            Some(lines) => before + cell_positions(columns.last(), row, lines),
            None => before,
        }
    }
}

/// The applications of the first `rows` rows in the given columns, row by row.
pub open spec fn grid_positions(machines: Seq<Machine>, columns: Seq<usize>, rows: nat) -> Seq<
    AppPosition,
>
    decreases rows,
{
    if rows == 0 {
        Seq::empty()
    } else {
        grid_positions(machines, columns, (rows - 1) as nat) + row_positions(
            machines,
            columns,
            rows - 1,
        )
    }
}

proof fn cell_positions_distinct(col: usize, row: int, lines: Seq<Line>)
    requires
        lines.len() <= usize::MAX,
        0 <= row <= usize::MAX,
    ensures
        cell_positions(col, row, lines).no_duplicates(),
        forall|k: int|
            0 <= k < cell_positions(col, row, lines).len() ==> {
                let p = #[trigger] cell_positions(col, row, lines)[k];
                p.col == col && p.row == row && p.line < lines.len()
            },
    decreases lines.len(),
{
    if lines.len() > 0 {
        let before = cell_positions(col, row, lines.drop_last());
        let all = cell_positions(col, row, lines);
        cell_positions_distinct(col, row, lines.drop_last());
        let count = lines.last().apps.len();
        assert(count == lines.last().apps@.len());
        assert forall|k: int| 0 <= k < all.len() implies {
            let p = #[trigger] all[k];
            p.col == col && p.row == row && p.line < lines.len()
        } by {
            if k < before.len() {
                assert(all[k] == before[k]);
            }
        }
        assert forall|i: int, j: int|
            0 <= i < all.len() && 0 <= j < all.len() && i != j implies all[i] != all[j] by {
            if i < before.len() {
                assert(all[i] == before[i]);
                assert(before[i].line < lines.len() - 1);
            }
            if j < before.len() {
                assert(all[j] == before[j]);
                assert(before[j].line < lines.len() - 1);
            }
        }
    }
}

proof fn row_positions_distinct(machines: Seq<Machine>, columns: Seq<usize>, row: int)
    requires
        columns.no_duplicates(),
        0 <= row <= usize::MAX,
    ensures
        row_positions(machines, columns, row).no_duplicates(),
        forall|k: int|
            0 <= k < row_positions(machines, columns, row).len() ==> {
                let p = #[trigger] row_positions(machines, columns, row)[k];
                columns.contains(p.col) && p.row == row
            },
    decreases columns.len(),
{
    if columns.len() > 0 {
        let fewer = columns.drop_last();
        let last = columns.last();
        let before = row_positions(machines, fewer, row);
        let all = row_positions(machines, columns, row);
        assert(fewer.no_duplicates()) by {
            assert forall|i: int, j: int|
                0 <= i < fewer.len() && 0 <= j < fewer.len() && i != j implies fewer[i]
                != fewer[j] by {
                assert(columns[i] != columns[j]);
            }
        }
        row_positions_distinct(machines, fewer, row);
        assert(columns[columns.len() - 1] == last);
        if fewer.contains(last) {
            let i = choose|i: int| 0 <= i < fewer.len() && fewer[i] == last;
            assert(columns[i] == columns[columns.len() - 1]);
        }
        assert forall|c: usize| fewer.contains(c) implies columns.contains(c) by {
            let i = choose|i: int| 0 <= i < fewer.len() && fewer[i] == c;
            assert(columns[i] == c);
        }
        if cell_of(machines, last as int, row) is Some {
            let lines = cell_of(machines, last as int, row)->0;
            assert(machines[last as int].cells@[row].len() == lines.len());
            cell_positions_distinct(last, row, lines);
            let own = cell_positions(last, row, lines);
            assert forall|k: int| 0 <= k < all.len() implies {
                let p = #[trigger] all[k];
                columns.contains(p.col) && p.row == row
            } by {
                if k < before.len() {
                    assert(all[k] == before[k]);
                } else {
                    assert(all[k] == own[k - before.len()]);
                }
            }
            assert forall|i: int, j: int|
                0 <= i < all.len() && 0 <= j < all.len() && i != j implies all[i] != all[j] by {
                if i < before.len() {
                    assert(all[i] == before[i]);
                } else {
                    assert(all[i] == own[i - before.len()]);
                }
                if j < before.len() {
                    assert(all[j] == before[j]);
                } else {
                    assert(all[j] == own[j - before.len()]);
                }
            }
        }
    }
}

proof fn grid_positions_distinct(machines: Seq<Machine>, columns: Seq<usize>, rows: nat)
    requires
        columns.no_duplicates(),
        rows <= usize::MAX,
    ensures
        grid_positions(machines, columns, rows).no_duplicates(),
        forall|k: int|
            0 <= k < grid_positions(machines, columns, rows).len() ==> {
                let p = #[trigger] grid_positions(machines, columns, rows)[k];
                columns.contains(p.col) && p.row < rows
            },
    decreases rows,
{
    if rows > 0 {
        let before = grid_positions(machines, columns, (rows - 1) as nat);
        let own = row_positions(machines, columns, rows - 1);
        let all = grid_positions(machines, columns, rows);
        grid_positions_distinct(machines, columns, (rows - 1) as nat);
        row_positions_distinct(machines, columns, rows - 1);
        assert forall|k: int| 0 <= k < all.len() implies {
            let p = #[trigger] all[k];
            columns.contains(p.col) && p.row < rows
        } by {
            if k < before.len() {
                assert(all[k] == before[k]);
            } else {
                assert(all[k] == own[k - before.len()]);
            }
        }
        assert forall|i: int, j: int|
            0 <= i < all.len() && 0 <= j < all.len() && i != j implies all[i] != all[j] by {
            if i < before.len() {
                assert(all[i] == before[i]);
            } else {
                assert(all[i] == own[i - before.len()]);
            }
            if j < before.len() {
                assert(all[j] == before[j]);
            } else {
                assert(all[j] == own[j - before.len()]);
            }
        }
    }
}

proof fn column_page_is_distinct(
    machines: Seq<Machine>,
    selected: int,
    budget: int,
    columns: Seq<usize>,
)
    requires
        is_column_page(machines, selected, budget, columns),
    ensures
        columns.no_duplicates(),
{
    assert forall|i: int, j: int|
        0 <= i < columns.len() && 0 <= j < columns.len() && i != j implies columns[i]
        != columns[j] by {
        let s = column_page_start(
            machines,
            budget,
            if selected < machines.len() {
                selected
            } else {
                machines.len() - 1
            },
        );
        assert(columns[i] == s + i);
        assert(columns[j] == s + j);
    }
}

fn list_cell(out: &mut Vec<AppPosition>, col: usize, row: usize, lines: &Vec<Line>)
    ensures
        final(out)@ == old(out)@ + cell_positions(col, row as int, lines@),
{
    let mut l: usize = 0;
    assert(out@ =~= old(out)@ + cell_positions(col, row as int, lines@.take(0)));
    while l < lines.len()
        invariant
            l <= lines.len(),
            out@ == old(out)@ + cell_positions(col, row as int, lines@.take(l as int)),
        decreases lines.len() - l,
    {
        let apps: usize = lines[l].apps.len();
        let ghost before = out@;
        let ghost next = lines@.take(l + 1);
        let ghost own = Seq::new(
            apps as nat,
            |item: int| AppPosition { col, row, line: l, item: item as usize },
        );
        let mut item: usize = 0;
        while item < apps
            invariant
                item <= apps,
                own == Seq::new(
                    apps as nat,
                    |k: int| AppPosition { col, row, line: l, item: k as usize },
                ),
                out@ == before + own.take(item as int),
            decreases apps - item,
        {
            out.push(AppPosition { col, row, line: l, item });
            assert(own[item as int] == (AppPosition { col, row, line: l, item }));
            assert(own.take(item + 1) =~= own.take(item as int).push(own[item as int]));
            assert(out@ =~= before + own.take(item + 1));
            item = item + 1;
        }
        proof {
            assert(own.take(item as int) =~= own);
            assert(next.drop_last() =~= lines@.take(l as int));
            assert(next.last().apps@.len() == apps);
            assert(cell_positions(col, row as int, next) =~= cell_positions(
                col,
                row as int,
                lines@.take(l as int),
            ) + own);
            assert(out@ =~= old(out)@ + cell_positions(col, row as int, next));
        }
        l = l + 1;
    }
    assert(lines@.take(l as int) =~= lines@);
}

fn list_positions(machines: &Vec<Machine>, columns: &Vec<usize>, rows: usize) -> (r: Vec<
    AppPosition,
>)
    ensures
        r@ == grid_positions(machines@, columns@, rows as nat),
{
    let mut out: Vec<AppPosition> = Vec::new();
    let mut row: usize = 0;
    while row < rows
        invariant
            row <= rows,
            out@ == grid_positions(machines@, columns@, row as nat),
        decreases rows - row,
    {
        let ghost before = out@;
        let mut c: usize = 0;
        assert(out@ =~= before + row_positions(machines@, columns@.take(0), row as int));
        while c < columns.len()
            invariant
                c <= columns.len(),
                out@ == before + row_positions(machines@, columns@.take(c as int), row as int),
            decreases columns.len() - c,
        {
            let col: usize = columns[c];
            let ghost prefix = out@;
            proof {
                assert(columns@.take(c + 1).drop_last() =~= columns@.take(c as int));
                assert(columns@.take(c + 1).last() == col);
            }
            if col < machines.len() && row < machines[col].cells.len() {
                list_cell(&mut out, col, row, &machines[col].cells[row]);
                assert(out@ =~= before + row_positions(
                    machines@,
                    columns@.take(c + 1),
                    row as int,
                ));
            }
            c = c + 1;
        }
        assert(columns@.take(c as int) =~= columns@);
        row = row + 1;
    }
    out
}

/// Whether one of the positions from `s` up to `i` is in the row.
pub open spec fn row_seen(positions: Seq<AppPosition>, s: int, i: int, row: usize) -> bool {
    exists|k: int| s <= k < i && (#[trigger] positions[k]).row == row
}

/// How many different rows the positions from `s` up to `i` are in.
pub open spec fn rows_spanned(positions: Seq<AppPosition>, s: int, i: int) -> nat
    decreases i - s,
{
    if i <= s {
        0
    } else {
        rows_spanned(positions, s, i - 1) + (if row_seen(positions, s, i - 1, positions[i - 1].row) {
            0nat
        } else {
            1nat
        })
    }
}

/// Whether a page that started at `s` is full before position `i`.
pub open spec fn page_full(positions: Seq<AppPosition>, budget: int, s: int, i: int) -> bool {
    i - s >= budget || (!row_seen(positions, s, i, positions[i].row) && rows_spanned(
        positions,
        s,
        i,
    ) >= MAX_MATERIALIZED_ROWS)
}

/// The first position of the page that position `i` is on: pages are filled in
/// order, up to the budget and up to the number of rows.
pub open spec fn page_start(positions: Seq<AppPosition>, budget: int, i: int) -> int
    decreases i,
{
    if i <= 0 {
        0
    } else {
        let s = page_start(positions, budget, i - 1);
        if page_full(positions, budget, s, i) {
            i
        } else {
            s
        }
    }
}

/// The number of the page that position `i` is on.
pub open spec fn page_number(positions: Seq<AppPosition>, budget: int, i: int) -> int
    decreases i,
{
    if i <= 0 {
        0
    } else {
        page_number(positions, budget, i - 1) + (if page_start(positions, budget, i) == i {
            1int
        } else {
            0int
        })
    }
}

/// The number of pages; a launcher without applications has one.
pub open spec fn page_count(positions: Seq<AppPosition>, budget: int) -> int {
    if positions.len() == 0 {
        1
    } else {
        page_number(positions, budget, positions.len() - 1) + 1
    }
}

proof fn page_start_bounds(positions: Seq<AppPosition>, budget: int, i: int)
    requires
        i >= 0,
        budget >= 1,
    ensures
        0 <= page_start(positions, budget, i) <= i,
        i - page_start(positions, budget, i) < budget,
        0 <= page_number(positions, budget, i) <= i,
    decreases i,
{
    if i > 0 {
        page_start_bounds(positions, budget, i - 1);
    }
}

/// The page that position `anchor` is on: its bounds, its number, and the
/// number of pages.
fn page_around(positions: &Vec<AppPosition>, anchor: usize, budget: usize) -> (r: (
    usize,
    usize,
    usize,
    usize,
))
    requires
        budget >= 1,
        anchor < positions@.len() || (anchor == 0 && positions@.len() == 0),
    ensures
        r.0 <= r.1 <= positions@.len(),
        r.1 - r.0 <= budget,
        positions@.len() == 0 ==> r.0 == 0 && r.1 == 0 && r.2 == 0,
        positions@.len() > 0 ==> r.0 <= anchor < r.1,
        positions@.len() > 0 ==> forall|k: int|
            0 <= k < positions@.len() ==> (r.0 <= k < r.1 <==> #[trigger] page_start(
                positions@,
                budget as int,
                k,
            ) == page_start(positions@, budget as int, anchor as int)),
        positions@.len() > 0 ==> r.2 == page_number(positions@, budget as int, anchor as int),
        r.3 == page_count(positions@, budget as int),
{
    if positions.len() == 0 {
        return (0, 0, 0, 1);
    }
    let ghost ps = positions@;
    let ghost b = budget as int;
    let mut start: usize = 0;
    let mut rows: Vec<usize> = Vec::new();
    let mut number: usize = 0;
    let mut found: (usize, usize, usize) = (0, 0, 0);
    let mut i: usize = 0;
    while i < positions.len()
        invariant
            i <= positions.len(),
            ps == positions@,
            b == budget,
            budget >= 1,
            anchor < positions@.len(),
            start <= i,
            i > 0 ==> start < i,
            i == 0 ==> start == 0 && number == 0,
            i > 0 ==> start == page_start(ps, b, i - 1) && number == page_number(ps, b, i - 1),
            number <= i,
            i > 0 ==> number < i,
            i - start <= budget,
            rows@.len() == rows_spanned(ps, start as int, i as int),
            forall|row: usize|
                rows@.contains(row) <==> row_seen(ps, start as int, i as int, row),
            forall|k: int| start <= k < i ==> #[trigger] page_start(ps, b, k) == start,
            forall|k: int| 0 <= k < start ==> #[trigger] page_start(ps, b, k) < start,
            i > anchor && start > anchor ==> {
                &&& found.0 <= anchor < found.1 <= start
                &&& found.1 - found.0 <= budget
                &&& found.2 == page_number(ps, b, anchor as int)
                &&& forall|k: int|
                    0 <= k < i ==> (found.0 <= k < found.1 <==> #[trigger] page_start(ps, b, k)
                        == page_start(ps, b, anchor as int))
            },
            i > anchor && start <= anchor ==> number == page_number(ps, b, anchor as int),
        decreases positions.len() - i,
    {
        let row: usize = positions[i].row;
        let known = has_row(&rows, row);
        proof {
            page_start_bounds(ps, b, i as int);
        }
        if i > start && (i - start >= budget || (!known && rows.len() >= MAX_MATERIALIZED_ROWS)) {
            assert(page_full(ps, b, start as int, i as int));
            assert(page_start(ps, b, i as int) == i);
            if start <= anchor && anchor < i {
                found = (start, i, number);
            }
            start = i;
            number = number + 1;
            rows = Vec::new();
            rows.push(row);
            proof {
                assert forall|w: usize|
                    rows@.contains(w) <==> row_seen(ps, i as int, i + 1, w) by {
                    if rows@.contains(w) {
                        assert(ps[i as int].row == w);
                    }
                    if row_seen(ps, i as int, i + 1, w) {
                        assert(rows@[0] == w);
                    }
                }
                assert(rows_spanned(ps, i as int, i as int) == 0);
                assert(!row_seen(ps, i as int, i as int, row));
                assert(rows_spanned(ps, i as int, i + 1) == 1);
            }
        } else {
            proof {
                assert(i == 0 || !page_full(ps, b, start as int, i as int));
                assert(page_start(ps, b, i as int) == start);
                assert(i == 0 || page_start(ps, b, i as int) != i);
            }
            let ghost before = rows@;
            if !known {
                rows.push(row);
            }
            proof {
                assert forall|w: usize|
                    rows@.contains(w) <==> row_seen(ps, start as int, i + 1, w) by {
                    if rows@.contains(w) {
                        let at = choose|at: int| 0 <= at < rows@.len() && rows@[at] == w;
                        if at < before.len() {
                            assert(before[at] == w);
                            assert(before.contains(w));
                            let k = choose|k: int|
                                start <= k < i && (#[trigger] ps[k]).row == w;
                            assert(ps[k].row == w);
                        } else {
                            assert(ps[i as int].row == w);
                        }
                    }
                    if row_seen(ps, start as int, i + 1, w) {
                        let k = choose|k: int| start <= k < i + 1 && (#[trigger] ps[k]).row == w;
                        if k < i {
                            assert(row_seen(ps, start as int, i as int, w));
                            assert(before.contains(w));
                            let at = choose|at: int| 0 <= at < before.len() && before[at] == w;
                            assert(rows@[at] == w);
                        } else {
                            assert(w == row);
                            if known {
                                assert(before.contains(w));
                            } else {
                                assert(rows@[before.len() as int] == w);
                            }
                        }
                    }
                }
                assert(rows_spanned(ps, start as int, i + 1) == rows_spanned(
                    ps,
                    start as int,
                    i as int,
                ) + (if row_seen(ps, start as int, i as int, row) {
                    0nat
                } else {
                    1nat
                }));
            }
        }
        i = i + 1;
    }
    if start <= anchor {
        (start, positions.len(), number, number + 1)
    } else {
        (found.0, found.1, found.2, number + 1)
    }
}

fn has_row(rows: &Vec<usize>, row: usize) -> (r: bool)
    ensures
        r == rows@.contains(row),
{
    let mut i: usize = 0;
    while i < rows.len()
        invariant
            i <= rows.len(),
            forall|k: int| 0 <= k < i ==> rows@[k] != row,
        decreases rows.len() - i,
    {
        if rows[i] == row {
            return true;
        }
        i = i + 1;
    }
    false
}

/// Whether a position is an anchor for the cursor: the selected application (or
/// any in the selected cell) first, else any in the selected cell, else any in
/// the selected column.
pub open spec fn anchors(position: AppPosition, cursor: Cursor, level: int) -> bool {
    if level == 0 {
        position.col == cursor.col && position.row == cursor.row && (!cursor.inside || (
        position.line == cursor.line && position.item == cursor.item))
    } else if level == 1 {
        position.col == cursor.col && position.row == cursor.row
    } else {
        position.col == cursor.col
    }
}

/// The first anchor of a level.
pub open spec fn first_anchor(positions: Seq<AppPosition>, cursor: Cursor, level: int) -> Option<
    int,
>
    decreases positions.len(),
{
    if positions.len() == 0 {
        None
    } else {
        match first_anchor(positions.drop_last(), cursor, level) {
            Some(i) => Some(i),
            None => if anchors(positions.last(), cursor, level) {
                Some(positions.len() - 1)
            } else {
                None
            },
        }
    }
}

/// The position that the page is built around.
pub open spec fn anchor_of(positions: Seq<AppPosition>, cursor: Cursor) -> int {
    match first_anchor(positions, cursor, 0) {
        Some(i) => i,
        None => match first_anchor(positions, cursor, 1) {
            Some(i) => i,
            None => match first_anchor(positions, cursor, 2) {
                Some(i) => i,
                None => 0,
            },
        },
    }
}

proof fn first_anchor_is_first(positions: Seq<AppPosition>, cursor: Cursor, level: int)
    ensures
        match first_anchor(positions, cursor, level) {
            Some(i) => 0 <= i < positions.len() && anchors(positions[i], cursor, level) && forall|
                k: int,
            |
                0 <= k < i ==> !anchors(#[trigger] positions[k], cursor, level),
            None => forall|k: int|
                0 <= k < positions.len() ==> !anchors(#[trigger] positions[k], cursor, level),
        },
    decreases positions.len(),
{
    if positions.len() > 0 {
        first_anchor_is_first(positions.drop_last(), cursor, level);
        assert forall|k: int| 0 <= k < positions.len() - 1 implies positions.drop_last()[k]
            == #[trigger] positions[k] by {}
    }
}

fn find_anchor(positions: &Vec<AppPosition>, cursor: Cursor, level: u8) -> (r: Option<usize>)
    ensures
        match r {
            Some(i) => i < positions@.len() && first_anchor(positions@, cursor, level as int)
                == Some(i as int),
            None => first_anchor(positions@, cursor, level as int) is None,
        },
{
    proof {
        first_anchor_is_first(positions@, cursor, level as int);
    }
    let mut i: usize = 0;
    while i < positions.len()
        invariant
            i <= positions.len(),
            forall|k: int|
                0 <= k < i ==> !anchors(#[trigger] positions@[k], cursor, level as int),
            match first_anchor(positions@, cursor, level as int) {
                Some(f) => 0 <= f < positions@.len() && anchors(
                    positions@[f],
                    cursor,
                    level as int,
                ) && forall|k: int|
                    0 <= k < f ==> !anchors(#[trigger] positions@[k], cursor, level as int),
                None => forall|k: int|
                    0 <= k < positions@.len() ==> !anchors(
                        #[trigger] positions@[k],
                        cursor,
                        level as int,
                    ),
            },
        decreases positions.len() - i,
    {
        let p = positions[i];
        let same_column = p.col == cursor.col;
        let same_cell = same_column && p.row == cursor.row;
        let hit = if level == 0 {
            same_cell && (!cursor.inside || (p.line == cursor.line && p.item == cursor.item))
        } else if level == 1 {
            same_cell
        } else {
            same_column
        };
        assert(hit == anchors(positions@[i as int], cursor, level as int));
        if hit {
            return Some(i);
        }
        i = i + 1;
    }
    None
}

fn choose_anchor(positions: &Vec<AppPosition>, cursor: Cursor) -> (r: usize)
    ensures
        r == anchor_of(positions@, cursor),
        r < positions@.len() || (r == 0 && positions@.len() == 0),
{
    if let Some(i) = find_anchor(positions, cursor, 0) {
        return i;
    }
    if let Some(i) = find_anchor(positions, cursor, 1) {
        return i;
    }
    if let Some(i) = find_anchor(positions, cursor, 2) {
        return i;
    }
    0
}

/// Whether the numbers grow from each to the next.
pub open spec fn increasing(rows: Seq<usize>) -> bool {
    forall|i: int, j: int| 0 <= i < j < rows.len() ==> #[trigger] rows[i] < #[trigger] rows[j]
}

/// A row in its place, unless it is there already.
fn insert_row(rows: &mut Vec<usize>, row: usize)
    requires
        increasing(old(rows)@),
    ensures
        increasing(final(rows)@),
        forall|w: usize|
            #[trigger] final(rows)@.contains(w) <==> old(rows)@.contains(w) || w == row,
{
    let ghost before = rows@;
    let mut i: usize = 0;
    while i < rows.len() && rows[i] < row
        invariant
            i <= rows.len(),
            rows@ == before,
            increasing(before),
            forall|k: int| 0 <= k < i ==> before[k] < row,
        decreases rows.len() - i,
    {
        i = i + 1;
    }
    if i < rows.len() && rows[i] == row {
        assert(before[i as int] == row);
        return;
    }
    rows.insert(i, row);
    proof {
        let after = rows@;
        assert(after =~= before.insert(i as int, row));
        assert forall|a: int, b: int| 0 <= a < b < after.len() implies #[trigger] after[a]
            < #[trigger] after[b] by {
            if b < i {
                assert(before[a] < before[b]);
            } else if b == i {
                assert(before[a] < row);
            } else if a == i {
                assert(before[b - 1] > row) by {
                    if i < b - 1 {
                        assert(before[i as int] < before[b - 1]);
                    }
                }
            } else if a < i {
                assert(before[a] < before[b - 1]);
            } else {
                assert(before[a - 1] < before[b - 1]);
            }
        }
        assert forall|w: usize| #[trigger] after.contains(w) <==> before.contains(w) || w
            == row by {
            if before.contains(w) {
                let k = choose|k: int| 0 <= k < before.len() && before[k] == w;
                if k < i {
                    assert(after[k] == w);
                } else {
                    assert(after[k + 1] == w);
                }
            }
            if w == row {
                assert(after[i as int] == w);
            }
            if after.contains(w) {
                let k = choose|k: int| 0 <= k < after.len() && after[k] == w;
                if k < i {
                    assert(before[k] == w);
                } else if k > i {
                    assert(before[k - 1] == w);
                }
            }
        }
    }
}

/// Whether some machine has a line in the row.
pub open spec fn row_has_content(machines: Seq<Machine>, row: int) -> bool {
    exists|m: int|
        0 <= m < machines.len() && 0 <= row < (#[trigger] machines[m]).cells@.len()
            && machines[m].cells@[row]@.len() > 0
}

/// The rows in which some machine has a line.
pub open spec fn content_rows(machines: Seq<Machine>, rows: nat) -> Seq<usize>
    decreases rows,
{
    if rows == 0 {
        Seq::empty()
    } else {
        let before = content_rows(machines, (rows - 1) as nat);
        if row_has_content(machines, rows - 1) {
            before.push((rows - 1) as usize)
        } else {
            before
        }
    }
}

fn list_content_rows(machines: &Vec<Machine>, rows: usize) -> (r: Vec<usize>)
    ensures
        r@ == content_rows(machines@, rows as nat),
{
    let mut out: Vec<usize> = Vec::new();
    let mut row: usize = 0;
    while row < rows
        invariant
            row <= rows,
            out@ == content_rows(machines@, row as nat),
        decreases rows - row,
    {
        let mut any = false;
        let mut m: usize = 0;
        while m < machines.len()
            invariant
                m <= machines.len(),
                any == (exists|k: int|
                    0 <= k < m && 0 <= row < (#[trigger] machines@[k]).cells@.len()
                        && machines@[k].cells@[row as int]@.len() > 0),
            decreases machines.len() - m,
        {
            if row < machines[m].cells.len() && machines[m].cells[row].len() > 0 {
                assert(machines@[m as int].cells@[row as int]@.len() > 0);
                any = true;
            }
            m = m + 1;
        }
        assert(any == row_has_content(machines@, row as int));
        if any {
            out.push(row);
        }
        row = row + 1;
    }
    out
}

/// Where a row stands among the rows; zero where it does not.
pub open spec fn row_at(rows: Seq<usize>, row: usize) -> int
    decreases rows.len(),
{
    if rows.len() == 0 {
        0
    } else if rows.last() == row {
        rows.len() - 1
    } else {
        row_at(rows.drop_last(), row)
    }
}

proof fn row_at_finds(rows: Seq<usize>, row: usize, i: int)
    requires
        increasing(rows),
        0 <= i < rows.len(),
        rows[i] == row,
    ensures
        row_at(rows, row) == i,
    decreases rows.len(),
{
    if i < rows.len() - 1 {
        assert(rows[i] < rows[rows.len() - 1]);
        assert(increasing(rows.drop_last()));
        row_at_finds(rows.drop_last(), row, i);
    }
}

proof fn row_at_misses(rows: Seq<usize>, row: usize)
    requires
        !rows.contains(row),
    ensures
        row_at(rows, row) == 0,
    decreases rows.len(),
{
    if rows.len() > 0 {
        assert(rows[rows.len() - 1] == rows.last());
        assert forall|k: int| 0 <= k < rows.drop_last().len() implies rows.drop_last()[k]
            != row by {
            assert(rows[k] == rows.drop_last()[k]);
        }
        row_at_misses(rows.drop_last(), row);
    }
}

fn find_row(rows: &Vec<usize>, row: usize) -> (r: Option<usize>)
    requires
        increasing(rows@),
    ensures
        match r {
            Some(i) => i < rows@.len() && rows@[i as int] == row && row_at(rows@, row) == i,
            None => !rows@.contains(row) && row_at(rows@, row) == 0,
        },
{
    let mut i: usize = 0;
    while i < rows.len()
        invariant
            i <= rows.len(),
            increasing(rows@),
            forall|k: int| 0 <= k < i ==> rows@[k] != row,
        decreases rows.len() - i,
    {
        if rows[i] == row {
            proof {
                row_at_finds(rows@, row, i as int);
            }
            return Some(i);
        }
        i = i + 1;
    }
    proof {
        row_at_misses(rows@, row);
    }
    None
}

/// The rows that stay: all of them, or else the block of the largest allowed
/// size that the selected row is in.
pub open spec fn kept_rows(rows: Seq<usize>, selected: usize) -> Seq<usize> {
    if rows.len() <= MAX_MATERIALIZED_ROWS {
        rows
    } else {
        let start = (row_at(rows, selected) / MAX_MATERIALIZED_ROWS as int)
            * MAX_MATERIALIZED_ROWS;
        let end = if start + MAX_MATERIALIZED_ROWS < rows.len() {
            start + MAX_MATERIALIZED_ROWS
        } else {
            rows.len() as int
        };
        rows.subrange(start, end)
    }
}

fn keep_rows(rows: &Vec<usize>, selected: usize) -> (r: Vec<usize>)
    requires
        increasing(rows@),
    ensures
        r@ == kept_rows(rows@, selected),
        increasing(r@),
        r@.len() <= MAX_MATERIALIZED_ROWS,
{
    let mut start: usize = 0;
    let mut end: usize = rows.len();
    if rows.len() > MAX_MATERIALIZED_ROWS {
        let at: usize = match find_row(rows, selected) {
            Some(i) => i,
            None => 0,
        };
        start = (at / MAX_MATERIALIZED_ROWS) * MAX_MATERIALIZED_ROWS;
        if rows.len() - start > MAX_MATERIALIZED_ROWS {
            end = start + MAX_MATERIALIZED_ROWS;
        }
    }
    let mut out: Vec<usize> = Vec::new();
    let mut i: usize = start;
    while i < end
        invariant
            start <= i <= end <= rows.len(),
            out@ == rows@.subrange(start as int, i as int),
        decreases end - i,
    {
        out.push(rows[i]);
        i = i + 1;
    }
    proof {
        assert(rows@.subrange(0, rows@.len() as int) =~= rows@);
        assert(increasing(out@)) by {
            assert forall|a: int, b: int| 0 <= a < b < out@.len() implies #[trigger] out@[a]
                < #[trigger] out@[b] by {
                assert(rows@[start + a] < rows@[start + b]);
            }
        }
    }
    out
}

/// The page around the cursor, in terms of which the result is stated.
pub open spec fn on_page(positions: Seq<AppPosition>, cursor: Cursor, budget: int, k: int) -> bool {
    0 <= k < positions.len() && page_start(positions, budget, k) == page_start(
        positions,
        budget,
        anchor_of(positions, cursor),
    )
}

/// Whether the cursor's column is shown and has the cursor's cell.
pub open spec fn cursor_cell_shown(machines: Seq<Machine>, columns: Seq<usize>, cursor: Cursor) -> bool {
    columns.contains(cursor.col) && cell_of(
        machines,
        cursor.col as int,
        cursor.row as int,
    ) is Some
}

/// Whether the cursor's line is there too.
pub open spec fn cursor_line_shown(machines: Seq<Machine>, columns: Seq<usize>, cursor: Cursor) -> bool {
    &&& cursor_cell_shown(machines, columns, cursor)
    &&& cursor.line < cell_of(machines, cursor.col as int, cursor.row as int)->0.len()
}

/// Whether a row is wanted: a position on the page is in it, or the cursor is.
pub open spec fn row_wanted(
    machines: Seq<Machine>,
    columns: Seq<usize>,
    cursor: Cursor,
    budget: int,
    row: usize,
) -> bool {
    let ps = grid_positions(machines, columns, row_count(machines));
    ||| exists|k: int| #[trigger] on_page(ps, cursor, budget, k) && ps[k].row == row
    ||| cursor_cell_shown(machines, columns, cursor) && row == cursor.row
}

/// Whether a position is shown: it is on the page and its row is kept.
pub open spec fn app_shown(
    machines: Seq<Machine>,
    columns: Seq<usize>,
    cursor: Cursor,
    budget: int,
    kept: Seq<usize>,
    p: AppPosition,
) -> bool {
    let ps = grid_positions(machines, columns, row_count(machines));
    kept.contains(p.row) && exists|k: int| #[trigger] on_page(ps, cursor, budget, k) && ps[k] == p
}

/// Whether a line is shown because of the page or the cursor.
pub open spec fn line_shown(
    machines: Seq<Machine>,
    columns: Seq<usize>,
    cursor: Cursor,
    budget: int,
    kept: Seq<usize>,
    l: LinePosition,
) -> bool {
    let ps = grid_positions(machines, columns, row_count(machines));
    kept.contains(l.row) && ((exists|k: int| #[trigger]
        on_page(ps, cursor, budget, k) && line_of(ps[k]) == l) || (cursor_line_shown(
        machines,
        columns,
        cursor,
    ) && l == (LinePosition { col: cursor.col, row: cursor.row, line: cursor.line })))
}

/// The line that a position is in.
pub open spec fn line_of(p: AppPosition) -> LinePosition {
    LinePosition { col: p.col, row: p.row, line: p.line }
}

/// Whether a line is one of the grid of the given columns and rows.
pub open spec fn line_in_grid(
    machines: Seq<Machine>,
    columns: Seq<usize>,
    rows: Seq<usize>,
    l: LinePosition,
) -> bool {
    columns.contains(l.col) && rows.contains(l.row) && match cell_of(
        machines,
        l.col as int,
        l.row as int,
    ) {
        Some(cell) => l.line < cell.len(),
        None => false,
    }
}

/// Whether everything fits on one page.
pub open spec fn fits_one_page(machines: Seq<Machine>, columns: Seq<usize>, budget: int) -> bool {
    let ps = grid_positions(machines, columns, row_count(machines));
    &&& page_count(ps, budget) == 1
    &&& columns.len() == machines.len()
    &&& content_rows(machines, row_count(machines)).len() <= MAX_MATERIALIZED_ROWS
}

/// What is shown for a cursor, given the rows that the page asks for.
pub open spec fn shows(
    machines: Seq<Machine>,
    cursor: Cursor,
    budget: int,
    wanted: Seq<usize>,
    m: Materialization,
) -> bool {
    let columns = m.columns@;
    let ps = grid_positions(machines, columns, row_count(machines));
    let content = content_rows(machines, row_count(machines));
    let kept = kept_rows(wanted, cursor.row);
    let one = fits_one_page(machines, columns, budget);
    &&& increasing(wanted)
    &&& forall|row: usize| #[trigger]
        wanted.contains(row) <==> row_wanted(machines, columns, cursor, budget, row)
    &&& m.rows@ == (if one {
        content
    } else {
        kept
    })
    &&& forall|p: AppPosition| #[trigger]
        m.apps@.contains(p) <==> app_shown(machines, columns, cursor, budget, kept, p)
    &&& forall|l: LinePosition| #[trigger]
        m.lines@.contains(l) <==> line_shown(machines, columns, cursor, budget, kept, l) || (one
            && line_in_grid(machines, columns, content, l))
    &&& m.page == (if m.apps@.len() == 0 && content.contains(cursor.row) {
        row_at(content, cursor.row) / MAX_MATERIALIZED_ROWS as int
    } else if ps.len() == 0 {
        0
    } else {
        page_number(ps, budget, anchor_of(ps, cursor))
    })
    &&& m.pages == (if page_count(ps, budget) > (content.len() + MAX_MATERIALIZED_ROWS - 1)
        / MAX_MATERIALIZED_ROWS as int {
        page_count(ps, budget)
    } else {
        (content.len() + MAX_MATERIALIZED_ROWS - 1) / MAX_MATERIALIZED_ROWS as int
    })
}

/// The rows of the positions from `start` up to `end`.
fn page_rows(positions: &Vec<AppPosition>, start: usize, end: usize) -> (r: Vec<usize>)
    requires
        start <= end <= positions@.len(),
    ensures
        increasing(r@),
        forall|row: usize| #[trigger]
            r@.contains(row) <==> row_seen(positions@, start as int, end as int, row),
{
    let mut rows: Vec<usize> = Vec::new();
    let mut k: usize = start;
    while k < end
        invariant
            start <= k <= end <= positions@.len(),
            increasing(rows@),
            forall|row: usize| #[trigger]
                rows@.contains(row) <==> row_seen(positions@, start as int, k as int, row),
        decreases end - k,
    {
        let ghost before = rows@;
        insert_row(&mut rows, positions[k].row);
        proof {
            assert forall|row: usize| #[trigger]
                rows@.contains(row) <==> row_seen(positions@, start as int, k + 1, row) by {
                if rows@.contains(row) {
                    if before.contains(row) {
                        assert(row_seen(positions@, start as int, k as int, row));
                        let j = choose|j: int|
                            start <= j < k && (#[trigger] positions@[j]).row == row;
                        assert(positions@[j].row == row);
                    } else {
                        assert(positions@[k as int].row == row);
                    }
                }
                if row_seen(positions@, start as int, k + 1, row) {
                    let j = choose|j: int|
                        start <= j < k + 1 && (#[trigger] positions@[j]).row == row;
                    if j < k {
                        assert(row_seen(positions@, start as int, k as int, row));
                        assert(before.contains(row));
                    }
                }
            }
        }
        k = k + 1;
    }
    rows
}

/// The positions from `start` up to `end` whose rows are kept.
fn page_apps(positions: &Vec<AppPosition>, start: usize, end: usize, kept: &Vec<usize>) -> (r: Vec<
    AppPosition,
>)
    requires
        start <= end <= positions@.len(),
        positions@.no_duplicates(),
    ensures
        r@.len() <= end - start,
        r@.no_duplicates(),
        forall|p: AppPosition| #[trigger]
            r@.contains(p) <==> kept@.contains(p.row) && exists|k: int|
                start <= k < end && #[trigger] positions@[k] == p,
{
    let mut apps: Vec<AppPosition> = Vec::new();
    let mut k: usize = start;
    while k < end
        invariant
            start <= k <= end <= positions@.len(),
            apps@.len() <= k - start,
            positions@.no_duplicates(),
            apps@.no_duplicates(),
            forall|p: AppPosition| #[trigger]
                apps@.contains(p) <==> kept@.contains(p.row) && exists|j: int|
                    start <= j < k && #[trigger] positions@[j] == p,
        decreases end - k,
    {
        let ghost before = apps@;
        let position = positions[k];
        let keep = has_row(kept, position.row);
        if keep {
            apps.push(position);
        }
        proof {
            if before.contains(position) {
                let j = choose|j: int| start <= j < k && #[trigger] positions@[j] == position;
                assert(positions@[j] == positions@[k as int]);
            }
            if keep {
                pushed_stays_distinct(before, position);
            }
            assert forall|p: AppPosition| #[trigger]
                apps@.contains(p) <==> kept@.contains(p.row) && exists|j: int|
                    start <= j < k + 1 && #[trigger] positions@[j] == p by {
                if apps@.contains(p) {
                    let at = choose|at: int| 0 <= at < apps@.len() && apps@[at] == p;
                    if at < before.len() {
                        assert(before[at] == p);
                        assert(before.contains(p));
                    } else {
                        assert(positions@[k as int] == p);
                    }
                }
                if kept@.contains(p.row) && exists|j: int|
                    start <= j < k + 1 && #[trigger] positions@[j] == p {
                    let j = choose|j: int| start <= j < k + 1 && #[trigger] positions@[j] == p;
                    if j < k {
                        assert(before.contains(p));
                        let at = choose|at: int| 0 <= at < before.len() && before[at] == p;
                        assert(apps@[at] == p);
                    } else {
                        assert(apps@[before.len() as int] == p);
                    }
                }
            }
        }
        k = k + 1;
    }
    apps
}

proof fn pushed_stays_distinct<T>(list: Seq<T>, item: T)
    requires
        list.no_duplicates(),
        !list.contains(item),
    ensures
        list.push(item).no_duplicates(),
{
    let more = list.push(item);
    assert forall|i: int, j: int|
        0 <= i < more.len() && 0 <= j < more.len() && i != j implies more[i] != more[j] by {
        if i == list.len() {
            assert(list[j] != item);
        } else if j == list.len() {
            assert(list[i] != item);
        }
    }
}

/// A line at the end, unless it is there already.
fn add_line(lines: &mut Vec<LinePosition>, line: LinePosition)
    ensures
        old(lines)@.no_duplicates() ==> final(lines)@.no_duplicates(),
        forall|l: LinePosition| #[trigger]
            final(lines)@.contains(l) <==> old(lines)@.contains(l) || l == line,
{
    let ghost before = lines@;
    if !has_line(lines, line) {
        lines.push(line);
        proof {
            if before.no_duplicates() {
                pushed_stays_distinct(before, line);
            }
            assert forall|l: LinePosition| #[trigger]
                lines@.contains(l) <==> before.contains(l) || l == line by {
                if before.contains(l) {
                    let at = choose|at: int| 0 <= at < before.len() && before[at] == l;
                    assert(lines@[at] == l);
                }
                if l == line {
                    assert(lines@[before.len() as int] == l);
                }
                if lines@.contains(l) {
                    let at = choose|at: int| 0 <= at < lines@.len() && lines@[at] == l;
                    if at < before.len() {
                        assert(before[at] == l);
                    }
                }
            }
        }
    }
}

/// The lines of the positions from `start` up to `end` whose rows are kept.
fn page_lines(positions: &Vec<AppPosition>, start: usize, end: usize, kept: &Vec<usize>) -> (r: Vec<
    LinePosition,
>)
    requires
        start <= end <= positions@.len(),
    ensures
        r@.no_duplicates(),
        forall|l: LinePosition| #[trigger]
            r@.contains(l) <==> kept@.contains(l.row) && exists|k: int|
                start <= k < end && line_of(#[trigger] positions@[k]) == l,
{
    let mut lines: Vec<LinePosition> = Vec::new();
    let mut k: usize = start;
    while k < end
        invariant
            start <= k <= end <= positions@.len(),
            lines@.no_duplicates(),
            forall|l: LinePosition| #[trigger]
                lines@.contains(l) <==> kept@.contains(l.row) && exists|j: int|
                    start <= j < k && line_of(#[trigger] positions@[j]) == l,
        decreases end - k,
    {
        let ghost before = lines@;
        let p = positions[k];
        if has_row(kept, p.row) {
            add_line(&mut lines, LinePosition { col: p.col, row: p.row, line: p.line });
        }
        proof {
            assert forall|l: LinePosition| #[trigger]
                lines@.contains(l) <==> kept@.contains(l.row) && exists|j: int|
                    start <= j < k + 1 && line_of(#[trigger] positions@[j]) == l by {
                if lines@.contains(l) && !before.contains(l) {
                    assert(line_of(positions@[k as int]) == l);
                }
                if kept@.contains(l.row) && exists|j: int|
                    start <= j < k + 1 && line_of(#[trigger] positions@[j]) == l {
                    let j = choose|j: int|
                        start <= j < k + 1 && line_of(#[trigger] positions@[j]) == l;
                    if j < k {
                        assert(before.contains(l));
                    }
                }
            }
        }
        k = k + 1;
    }
    lines
}

/// Adds the lines of one cell.
fn add_cell_lines(lines: &mut Vec<LinePosition>, col: usize, row: usize, count: usize)
    ensures
        old(lines)@.no_duplicates() ==> final(lines)@.no_duplicates(),
        forall|l: LinePosition| #[trigger]
            final(lines)@.contains(l) <==> old(lines)@.contains(l) || (l.col == col && l.row == row
                && l.line < count),
{
    let mut line: usize = 0;
    while line < count
        invariant
            line <= count,
            old(lines)@.no_duplicates() ==> lines@.no_duplicates(),
            forall|l: LinePosition| #[trigger]
                lines@.contains(l) <==> old(lines)@.contains(l) || (l.col == col && l.row == row
                    && l.line < line),
        decreases count - line,
    {
        add_line(lines, LinePosition { col, row, line });
        line = line + 1;
    }
}

/// Adds every line of the grid of the given columns and rows.
fn add_grid_lines(
    lines: &mut Vec<LinePosition>,
    machines: &Vec<Machine>,
    columns: &Vec<usize>,
    rows: &Vec<usize>,
)
    ensures
        old(lines)@.no_duplicates() ==> final(lines)@.no_duplicates(),
        forall|l: LinePosition| #[trigger]
            final(lines)@.contains(l) <==> old(lines)@.contains(l) || line_in_grid(
                machines@,
                columns@,
                rows@,
                l,
            ),
{
    let ghost first = lines@;
    let mut c: usize = 0;
    while c < columns.len()
        invariant
            c <= columns.len(),
            first.no_duplicates() ==> lines@.no_duplicates(),
            forall|l: LinePosition| #[trigger]
                lines@.contains(l) <==> first.contains(l) || line_in_grid(
                    machines@,
                    columns@.take(c as int),
                    rows@,
                    l,
                ),
        decreases columns.len() - c,
    {
        let col: usize = columns[c];
        let ghost before = lines@;
        let mut i: usize = 0;
        while i < rows.len()
            invariant
                i <= rows.len(),
                first.no_duplicates() ==> lines@.no_duplicates(),
                forall|l: LinePosition| #[trigger]
                    lines@.contains(l) <==> before.contains(l) || (l.col == col && line_in_grid(
                        machines@,
                        seq![col],
                        rows@.take(i as int),
                        l,
                    )),
            decreases rows.len() - i,
        {
            let row: usize = rows[i];
            let ghost earlier = lines@;
            if col < machines.len() && row < machines[col].cells.len() {
                add_cell_lines(lines, col, row, machines[col].cells[row].len());
            }
            proof {
                let less = rows@.take(i as int);
                let more = rows@.take(i + 1);
                assert forall|w: usize| #[trigger] more.contains(w) <==> less.contains(w) || w
                    == row by {
                    if less.contains(w) {
                        let at = choose|at: int| 0 <= at < less.len() && less[at] == w;
                        assert(more[at] == w);
                    }
                    if w == row {
                        assert(more[i as int] == w);
                    }
                    if more.contains(w) {
                        let at = choose|at: int| 0 <= at < more.len() && more[at] == w;
                        if at < i {
                            assert(less[at] == w);
                        }
                    }
                }
                assert(seq![col].contains(col)) by {
                    assert(seq![col][0] == col);
                }
                assert forall|l: LinePosition| #[trigger]
                    lines@.contains(l) <==> before.contains(l) || (l.col == col && line_in_grid(
                        machines@,
                        seq![col],
                        more,
                        l,
                    )) by {
                    assert(earlier.contains(l) <==> before.contains(l) || (l.col == col
                        && line_in_grid(machines@, seq![col], less, l)));
                    assert(more.contains(l.row) <==> less.contains(l.row) || l.row == row);
                }
            }
            i = i + 1;
        }
        proof {
            assert(rows@.take(i as int) =~= rows@);
            let less = columns@.take(c as int);
            let more = columns@.take(c + 1);
            assert forall|w: usize| #[trigger] more.contains(w) <==> less.contains(w) || w
                == col by {
                if less.contains(w) {
                    let at = choose|at: int| 0 <= at < less.len() && less[at] == w;
                    assert(more[at] == w);
                }
                if w == col {
                    assert(more[c as int] == w);
                }
                if more.contains(w) {
                    let at = choose|at: int| 0 <= at < more.len() && more[at] == w;
                    if at < c {
                        assert(less[at] == w);
                    }
                }
            }
            assert(seq![col].contains(col)) by {
                assert(seq![col][0] == col);
            }
            assert forall|l: LinePosition| #[trigger]
                lines@.contains(l) <==> first.contains(l) || line_in_grid(
                    machines@,
                    more,
                    rows@,
                    l,
                ) by {
                assert(before.contains(l) <==> first.contains(l) || line_in_grid(
                    machines@,
                    less,
                    rows@,
                    l,
                ));
                assert(more.contains(l.col) <==> less.contains(l.col) || l.col == col);
            }
        }
        c = c + 1;
    }
    assert(columns@.take(c as int) =~= columns@);
}

proof fn content_rows_increase(machines: Seq<Machine>, rows: nat)
    requires
        rows <= usize::MAX + 1,
    ensures
        increasing(content_rows(machines, rows)),
        forall|i: int|
            0 <= i < content_rows(machines, rows).len() ==> (#[trigger] content_rows(
                machines,
                rows,
            )[i]) < rows,
    decreases rows,
{
    if rows > 0 {
        content_rows_increase(machines, (rows - 1) as nat);
        let before = content_rows(machines, (rows - 1) as nat);
        let after = content_rows(machines, rows);
        assert forall|i: int, j: int| 0 <= i < j < after.len() implies #[trigger] after[i]
            < #[trigger] after[j] by {
            if j < before.len() {
                assert(before[i] < before[j]);
            } else {
                assert(after[i] == before[i]);
            }
        }
        assert forall|i: int| 0 <= i < after.len() implies (#[trigger] after[i]) < rows by {
            if i < before.len() {
                assert(after[i] == before[i]);
            }
        }
    }
}

/// What gets widgets around the cursor. The page is built around the selected
/// application: whole columns within the budget, then as many applications as
/// the icon size allows. Where everything fits on one page, every row and line
/// with content is shown.
#[verifier::rlimit(60)]
pub fn materialization(machines: &Vec<Machine>, cursor: Cursor, icon_size: i32) -> (r:
    Materialization)
    ensures
        is_column_page(machines@, cursor.col as int, budget_of(icon_size), r.columns@),
        exists|wanted: Seq<usize>|
            #[trigger] shows(machines@, cursor, budget_of(icon_size), wanted, r),
        r.columns@.len() <= MAX_MATERIALIZED_COLUMNS,
        r.rows@.len() <= MAX_MATERIALIZED_ROWS,
        r.apps@.len() <= budget_of(icon_size),
        increasing(r.rows@),
        r.apps@.no_duplicates(),
        r.lines@.no_duplicates(),
{
    let limit: usize = max_materialized_icons(icon_size);
    let budget: usize = if limit < 1 {
        1
    } else if limit < MAX_MATERIALIZED_APP_WIDGETS {
        limit
    } else {
        MAX_MATERIALIZED_APP_WIDGETS
    };
    let ghost b = budget_of(icon_size);
    let columns = materialized_columns(machines, cursor.col, budget);
    let row_total: usize = count_rows(machines);
    let positions = list_positions(machines, &columns, row_total);
    proof {
        column_page_is_distinct(machines@, cursor.col as int, b, columns@);
        grid_positions_distinct(machines@, columns@, row_total as nat);
    }
    let anchor: usize = choose_anchor(&positions, cursor);
    let (start, end, number, ranges) = page_around(&positions, anchor, budget);
    let ghost ps = positions@;
    assert forall|k: int| 0 <= k < ps.len() implies (start <= k < end <==> #[trigger] on_page(
        ps,
        cursor,
        b,
        k,
    )) by {
        assert(start <= k < end <==> page_start(ps, b, k) == page_start(ps, b, anchor as int));
    }
    let mut rows = page_rows(&positions, start, end);
    let column_shown = has_row(&columns, cursor.col);
    let cell_there = column_shown && cursor.col < machines.len() && cursor.row
        < machines[cursor.col].cells.len();
    assert(cell_there == cursor_cell_shown(machines@, columns@, cursor));
    if cell_there {
        insert_row(&mut rows, cursor.row);
    }
    let ghost wanted = rows@;
    proof {
        assert forall|row: usize| #[trigger]
            wanted.contains(row) <==> row_wanted(machines@, columns@, cursor, b, row) by {
            if row_seen(ps, start as int, end as int, row) {
                let k = choose|k: int| start <= k < end && (#[trigger] ps[k]).row == row;
                assert(on_page(ps, cursor, b, k));
            }
            if exists|k: int| #[trigger] on_page(ps, cursor, b, k) && ps[k].row == row {
                let k = choose|k: int| #[trigger] on_page(ps, cursor, b, k) && ps[k].row == row;
                assert(start <= k < end);
                assert(row_seen(ps, start as int, end as int, row));
            }
        }
    }
    let kept = keep_rows(&rows, cursor.row);
    let apps = page_apps(&positions, start, end, &kept);
    let mut lines = page_lines(&positions, start, end, &kept);
    proof {
        assert forall|p: AppPosition| #[trigger]
            apps@.contains(p) <==> app_shown(machines@, columns@, cursor, b, kept@, p) by {
            if apps@.contains(p) {
                let k = choose|k: int| start <= k < end && #[trigger] ps[k] == p;
                assert(on_page(ps, cursor, b, k));
            }
            if app_shown(machines@, columns@, cursor, b, kept@, p) {
                let k = choose|k: int| #[trigger] on_page(ps, cursor, b, k) && ps[k] == p;
                assert(start <= k < end && ps[k] == p);
            }
        }
    }
    let ghost paged = lines@;
    let line_there = cell_there && cursor.line < machines[cursor.col].cells[cursor.row].len();
    if line_there && has_row(&kept, cursor.row) {
        add_line(
            &mut lines,
            LinePosition { col: cursor.col, row: cursor.row, line: cursor.line },
        );
    }
    proof {
        assert forall|l: LinePosition| #[trigger]
            lines@.contains(l) <==> line_shown(machines@, columns@, cursor, b, kept@, l) by {
            if paged.contains(l) {
                let k = choose|k: int| start <= k < end && line_of(#[trigger] ps[k]) == l;
                assert(on_page(ps, cursor, b, k));
            }
            if kept@.contains(l.row) && exists|k: int| #[trigger]
                on_page(ps, cursor, b, k) && line_of(ps[k]) == l {
                let k = choose|k: int| #[trigger] on_page(ps, cursor, b, k) && line_of(ps[k]) == l;
                assert(start <= k < end && line_of(ps[k]) == l);
                assert(paged.contains(l));
            }
        }
    }
    let ghost shown = lines@;
    let content = list_content_rows(machines, row_total);
    proof {
        content_rows_increase(machines@, row_total as nat);
    }
    let mut page: usize = number;
    if apps.len() == 0 {
        if let Some(at) = find_row(&content, cursor.row) {
            assert(content@.contains(cursor.row)) by {
                assert(content@[at as int] == cursor.row);
            }
            page = at / MAX_MATERIALIZED_ROWS;
        }
    }
    let one = ranges == 1 && columns.len() == machines.len() && content.len()
        <= MAX_MATERIALIZED_ROWS;
    assert(one == fits_one_page(machines@, columns@, b));
    if one {
        add_grid_lines(&mut lines, machines, &columns, &content);
    }
    let whole: usize = content.len() / MAX_MATERIALIZED_ROWS;
    let content_pages: usize = if content.len() % MAX_MATERIALIZED_ROWS == 0 {
        whole
    } else {
        whole + 1
    };
    let pages: usize = if ranges > content_pages {
        ranges
    } else {
        content_pages
    };
    let shown_rows = if one {
        content
    } else {
        kept
    };
    let m = Materialization { columns, rows: shown_rows, apps, lines, page, pages };
    assert(shows(machines@, cursor, b, wanted, m));
    m
}

proof fn cell_positions_hold(col: usize, row: int, lines: Seq<Line>, line: int, item: int)
    requires
        0 <= line < lines.len(),
        0 <= item < lines[line].apps@.len(),
    ensures
        cell_positions(col, row, lines).contains(
            AppPosition { col, row: row as usize, line: line as usize, item: item as usize },
        ),
    decreases lines.len(),
{
    let wanted = AppPosition { col, row: row as usize, line: line as usize, item: item as usize };
    let before = cell_positions(col, row, lines.drop_last());
    let all = cell_positions(col, row, lines);
    if line == lines.len() - 1 {
        assert(all[before.len() + item] == wanted);
    } else {
        cell_positions_hold(col, row, lines.drop_last(), line, item);
        let at = choose|at: int| 0 <= at < before.len() && before[at] == wanted;
        assert(all[at] == wanted);
    }
}

proof fn row_positions_hold(
    machines: Seq<Machine>,
    columns: Seq<usize>,
    row: int,
    c: int,
    p: AppPosition,
)
    requires
        0 <= c < columns.len(),
        cell_of(machines, columns[c] as int, row) is Some,
        cell_positions(
            columns[c],
            row,
            cell_of(machines, columns[c] as int, row)->0,
        ).contains(p),
    ensures
        row_positions(machines, columns, row).contains(p),
    decreases columns.len(),
{
    let before = row_positions(machines, columns.drop_last(), row);
    let all = row_positions(machines, columns, row);
    if c == columns.len() - 1 {
        let own = cell_positions(columns[c], row, cell_of(machines, columns[c] as int, row)->0);
        let at = choose|at: int| 0 <= at < own.len() && own[at] == p;
        assert(all[before.len() + at] == p);
    } else {
        row_positions_hold(machines, columns.drop_last(), row, c, p);
        let at = choose|at: int| 0 <= at < before.len() && before[at] == p;
        assert(all[at] == p);
    }
}

proof fn grid_positions_hold(
    machines: Seq<Machine>,
    columns: Seq<usize>,
    rows: nat,
    row: int,
    p: AppPosition,
)
    requires
        0 <= row < rows,
        row_positions(machines, columns, row).contains(p),
    ensures
        grid_positions(machines, columns, rows).contains(p),
    decreases rows,
{
    let before = grid_positions(machines, columns, (rows - 1) as nat);
    let all = grid_positions(machines, columns, rows);
    if row == rows - 1 {
        let own = row_positions(machines, columns, row);
        let at = choose|at: int| 0 <= at < own.len() && own[at] == p;
        assert(all[before.len() + at] == p);
    } else {
        grid_positions_hold(machines, columns, (rows - 1) as nat, row, p);
        let at = choose|at: int| 0 <= at < before.len() && before[at] == p;
        assert(all[at] == p);
    }
}

proof fn row_count_bounds(machines: Seq<Machine>, m: int)
    requires
        0 <= m < machines.len(),
    ensures
        machines[m].cells@.len() <= row_count(machines),
    decreases machines.len(),
{
    if m < machines.len() - 1 {
        row_count_bounds(machines.drop_last(), m);
    }
}

proof fn kept_rows_hold_selected(rows: Seq<usize>, selected: usize)
    requires
        increasing(rows),
        rows.contains(selected),
    ensures
        kept_rows(rows, selected).contains(selected),
{
    if rows.len() > MAX_MATERIALIZED_ROWS {
        let i = choose|i: int| 0 <= i < rows.len() && rows[i] == selected;
        row_at_finds(rows, selected, i);
        let start = (i / MAX_MATERIALIZED_ROWS as int) * MAX_MATERIALIZED_ROWS;
        assert(start <= i < start + MAX_MATERIALIZED_ROWS);
        assert(kept_rows(rows, selected)[i - start] == selected);
    }
}

proof fn content_rows_hold(machines: Seq<Machine>, rows: nat, row: usize)
    requires
        row < rows,
        row_has_content(machines, row as int),
    ensures
        content_rows(machines, rows).contains(row),
    decreases rows,
{
    let before = content_rows(machines, (rows - 1) as nat);
    let all = content_rows(machines, rows);
    if row == rows - 1 {
        assert(all[before.len() as int] == row);
    } else {
        content_rows_hold(machines, (rows - 1) as nat, row);
        let i = choose|i: int| 0 <= i < before.len() && before[i] == row;
        assert(all[i] == row);
    }
}

/// The selected application always has a widget: wherever the cursor is put
/// inside a cell, the page is built so that it shows that application, its row
/// and its column.
pub proof fn selected_app_is_shown(
    machines: Seq<Machine>,
    cursor: Cursor,
    icon_size: i32,
    wanted: Seq<usize>,
    m: Materialization,
)
    requires
        is_column_page(machines, cursor.col as int, budget_of(icon_size), m.columns@),
        shows(machines, cursor, budget_of(icon_size), wanted, m),
        selects_app(machines, cursor),
    ensures
        m.apps@.contains(
            AppPosition { col: cursor.col, row: cursor.row, line: cursor.line, item: cursor.item },
        ),
        m.rows@.contains(cursor.row),
        m.columns@.contains(cursor.col),
{
    let b = budget_of(icon_size);
    let p = AppPosition {
        col: cursor.col,
        row: cursor.row,
        line: cursor.line,
        item: cursor.item,
    };
    let columns = m.columns@;
    let rows = row_count(machines);
    let ps = grid_positions(machines, columns, rows);
    selected_app_is_the_anchor(machines, cursor, b, columns);
    row_count_bounds(machines, cursor.col as int);
    let i = anchor_of(ps, cursor);
    assert(ps[i] == p);
    assert(on_page(ps, cursor, b, i));
    assert(row_wanted(machines, columns, cursor, b, cursor.row));
    assert(wanted.contains(cursor.row));
    kept_rows_hold_selected(wanted, cursor.row);
    assert(machines[cursor.col as int].cells@[cursor.row as int]@.len() > 0);
    assert(row_has_content(machines, cursor.row as int));
    content_rows_hold(machines, rows, cursor.row);
    assert(app_shown(machines, columns, cursor, b, kept_rows(wanted, cursor.row), p));
}

/// Two pages of columns are the same page, or have no column in common: moving
/// the selection turns pages and never slides them.
pub proof fn column_pages_are_equal_or_disjoint(
    machines: Seq<Machine>,
    budget: int,
    selected: int,
    other: int,
    columns: Seq<usize>,
    others: Seq<usize>,
)
    requires
        0 <= selected < machines.len(),
        0 <= other < machines.len(),
        is_column_page(machines, selected, budget, columns),
        is_column_page(machines, other, budget, others),
    ensures
        columns == others || forall|c: usize| !(columns.contains(c) && others.contains(c)),
{
    let s = column_page_start(machines, budget, selected);
    let t = column_page_start(machines, budget, other);
    if exists|c: usize| columns.contains(c) && others.contains(c) {
        let c = choose|c: usize| columns.contains(c) && others.contains(c);
        let i = choose|i: int| 0 <= i < columns.len() && columns[i] == c;
        let j = choose|j: int| 0 <= j < others.len() && others[j] == c;
        assert(column_page_start(machines, budget, s + i) == s);
        assert(column_page_start(machines, budget, t + j) == t);
        assert(s == t);
        if columns.len() < others.len() {
            assert(column_page_start(machines, budget, t + columns.len() as int) == t);
        }
        if others.len() < columns.len() {
            assert(column_page_start(machines, budget, s + others.len() as int) == s);
        }
        assert(columns =~= others);
    }
}

/// The applications of the machines from `s` up to `i`, a machine without any
/// counting as one.
pub open spec fn apps_between(machines: Seq<Machine>, s: int, i: int) -> int
    decreases i - s,
{
    if i <= s {
        0
    } else {
        let own = saturated(cell_app_count(machines[i - 1].cells@)) as int;
        apps_between(machines, s, i - 1) + (if own < 1 {
            1
        } else {
            own
        })
    }
}

proof fn columns_cost_bounds(machines: Seq<Machine>, s: int, i: int, budget: int, k: int)
    requires
        s <= k < i,
        budget >= 1,
    ensures
        columns_cost(machines, s, i, budget) >= column_cost(machines[k], budget) + (i - s - 1),
    decreases i - s,
{
    if k == i - 1 {
        if s < i - 1 {
            columns_cost_bounds(machines, s, i - 1, budget, s);
            assert(column_cost(machines[s], budget) >= 1);
        } else {
            assert(columns_cost(machines, s, s, budget) == 0);
        }
    } else {
        columns_cost_bounds(machines, s, i - 1, budget, k);
        assert(column_cost(machines[i - 1], budget) >= 1);
    }
}

proof fn columns_cost_is_exact(machines: Seq<Machine>, s: int, i: int, budget: int)
    requires
        s <= i,
        budget >= 1,
        forall|k: int| s <= k < i ==> #[trigger] column_cost(machines[k], budget) < budget,
    ensures
        columns_cost(machines, s, i, budget) == apps_between(machines, s, i),
    decreases i - s,
{
    if s < i {
        columns_cost_is_exact(machines, s, i - 1, budget);
        assert(column_cost(machines[i - 1], budget) < budget);
    }
}

/// A page of several columns keeps the budget, a machine without applications
/// counting as one. A single column may be larger. The largest budget there is
/// counts as none: it is kept wherever so many applications can be counted.
pub proof fn column_page_keeps_the_budget(
    machines: Seq<Machine>,
    budget: int,
    selected: int,
    columns: Seq<usize>,
)
    requires
        0 <= selected < machines.len(),
        1 <= budget <= usize::MAX,
        is_column_page(machines, selected, budget, columns),
        columns.len() > 1,
        budget < usize::MAX || apps_between(
            machines,
            columns[0] as int,
            columns[0] + columns.len(),
        ) <= usize::MAX,
    ensures
        apps_between(machines, columns[0] as int, columns[0] + columns.len()) <= budget,
{
    let s = column_page_start(machines, budget, selected);
    let e = s + columns.len();
    assert(columns[0] == s + 0);
    let last = columns.len() - 1;
    assert(column_page_start(machines, budget, s + last) == s);
    assert(e - 1 == s + last);
    if budget < usize::MAX {
        assert(columns_cost(machines, s, e, budget) <= budget);
        assert forall|k: int| s <= k < e implies #[trigger] column_cost(machines[k], budget)
            < budget by {
            columns_cost_bounds(machines, s, e, budget, k);
        }
        columns_cost_is_exact(machines, s, e, budget);
    }
}

/// Whether the cursor is put inside a cell, on an application that is there.
pub open spec fn selects_app(machines: Seq<Machine>, cursor: Cursor) -> bool {
    let cell = cell_of(machines, cursor.col as int, cursor.row as int);
    &&& cursor.inside
    &&& cell is Some
    &&& cursor.line < cell->0.len()
    &&& cursor.item < cell->0[cursor.line as int].apps@.len()
}

proof fn page_start_increases(positions: Seq<AppPosition>, budget: int, i: int, j: int)
    requires
        0 <= i <= j,
        budget >= 1,
    ensures
        page_start(positions, budget, i) <= page_start(positions, budget, j),
    decreases j,
{
    if i < j {
        page_start_increases(positions, budget, i, j - 1);
        page_start_bounds(positions, budget, j - 1);
    }
}

/// The end of the page that position `i` is on.
proof fn page_end(positions: Seq<AppPosition>, budget: int, i: int) -> (e: int)
    requires
        0 <= i < positions.len(),
        budget >= 1,
    ensures
        i < e <= positions.len(),
        page_start(positions, budget, e - 1) == page_start(positions, budget, i),
        forall|k: int|
            e <= k < positions.len() ==> #[trigger] page_start(positions, budget, k) != page_start(
                positions,
                budget,
                i,
            ),
    decreases positions.len() - i,
{
    let s = page_start(positions, budget, i);
    if i + 1 == positions.len() {
        i + 1
    } else if page_start(positions, budget, i + 1) == s {
        page_end(positions, budget, i + 1)
    } else {
        page_start_bounds(positions, budget, i);
        assert(page_start(positions, budget, i + 1) == i + 1);
        assert forall|k: int| i + 1 <= k < positions.len() implies #[trigger] page_start(
            positions,
            budget,
            k,
        ) != s by {
            page_start_increases(positions, budget, i + 1, k);
        }
        i + 1
    }
}

proof fn page_spans_few_rows(positions: Seq<AppPosition>, budget: int, i: int)
    requires
        0 <= i < positions.len(),
        budget >= 1,
    ensures
        rows_spanned(positions, page_start(positions, budget, i), i + 1) <= MAX_MATERIALIZED_ROWS,
    decreases i,
{
    page_start_bounds(positions, budget, i);
    let s = page_start(positions, budget, i);
    if s == i {
        assert(rows_spanned(positions, s, s) == 0);
        assert(rows_spanned(positions, s, s + 1) <= 1);
    } else {
        assert(page_start(positions, budget, i - 1) == s);
        page_spans_few_rows(positions, budget, i - 1);
    }
}

proof fn distinct_rows_are_spanned(positions: Seq<AppPosition>, s: int, e: int, rows: Seq<usize>)
    requires
        rows.no_duplicates(),
        forall|i: int| 0 <= i < rows.len() ==> row_seen(positions, s, e, #[trigger] rows[i]),
    ensures
        rows.len() <= rows_spanned(positions, s, e),
    decreases e - s,
{
    if e <= s {
        if rows.len() > 0 {
            assert(row_seen(positions, s, e, rows[0]));
        }
    } else {
        let last = positions[e - 1].row;
        if row_seen(positions, s, e - 1, last) {
            assert forall|i: int| 0 <= i < rows.len() implies row_seen(
                positions,
                s,
                e - 1,
                #[trigger] rows[i],
            ) by {
                let k = choose|k: int| s <= k < e && (#[trigger] positions[k]).row == rows[i];
                if k < e - 1 {
                    assert(positions[k].row == rows[i]);
                }
            }
            distinct_rows_are_spanned(positions, s, e - 1, rows);
        } else if rows.contains(last) {
            let at = choose|at: int| 0 <= at < rows.len() && rows[at] == last;
            let fewer = rows.remove(at);
            assert forall|i: int, j: int|
                0 <= i < fewer.len() && 0 <= j < fewer.len() && i != j implies fewer[i]
                != fewer[j] by {
                let x = if i < at {
                    i
                } else {
                    i + 1
                };
                let y = if j < at {
                    j
                } else {
                    j + 1
                };
                assert(rows[x] != rows[y]);
            }
            assert forall|i: int| 0 <= i < fewer.len() implies row_seen(
                positions,
                s,
                e - 1,
                #[trigger] fewer[i],
            ) by {
                let x = if i < at {
                    i
                } else {
                    i + 1
                };
                assert(rows[x] != rows[at]);
                assert(row_seen(positions, s, e, rows[x]));
                let k = choose|k: int| s <= k < e && (#[trigger] positions[k]).row == rows[x];
                assert(positions[k].row == fewer[i]);
            }
            distinct_rows_are_spanned(positions, s, e - 1, fewer);
        } else {
            assert forall|i: int| 0 <= i < rows.len() implies row_seen(
                positions,
                s,
                e - 1,
                #[trigger] rows[i],
            ) by {
                let k = choose|k: int| s <= k < e && (#[trigger] positions[k]).row == rows[i];
                assert(rows.contains(rows[i]));
                assert(positions[k].row == rows[i]);
            }
            distinct_rows_are_spanned(positions, s, e - 1, rows);
        }
    }
}

proof fn row_count_fits(machines: Seq<Machine>)
    ensures
        row_count(machines) <= usize::MAX,
    decreases machines.len(),
{
    if machines.len() > 0 {
        row_count_fits(machines.drop_last());
        assert(machines.last().cells.len() == machines.last().cells@.len());
    }
}

proof fn selected_app_is_the_anchor(
    machines: Seq<Machine>,
    cursor: Cursor,
    budget: int,
    columns: Seq<usize>,
)
    requires
        is_column_page(machines, cursor.col as int, budget, columns),
        selects_app(machines, cursor),
    ensures
        ({
            let ps = grid_positions(machines, columns, row_count(machines));
            let i = anchor_of(ps, cursor);
            &&& 0 <= i < ps.len()
            &&& ps[i] == (AppPosition {
                col: cursor.col,
                row: cursor.row,
                line: cursor.line,
                item: cursor.item,
            })
            &&& columns.contains(cursor.col)
        }),
{
    let p = AppPosition {
        col: cursor.col,
        row: cursor.row,
        line: cursor.line,
        item: cursor.item,
    };
    let rows = row_count(machines);
    let ps = grid_positions(machines, columns, rows);
    let c = cursor.col - column_page_start(machines, budget, cursor.col as int);
    assert(columns[c] == cursor.col);
    let lines = cell_of(machines, cursor.col as int, cursor.row as int)->0;
    cell_positions_hold(
        cursor.col,
        cursor.row as int,
        lines,
        cursor.line as int,
        cursor.item as int,
    );
    row_positions_hold(machines, columns, cursor.row as int, c, p);
    row_count_bounds(machines, cursor.col as int);
    grid_positions_hold(machines, columns, rows, cursor.row as int, p);
    let at = choose|at: int| 0 <= at < ps.len() && ps[at] == p;
    first_anchor_is_first(ps, cursor, 0);
    assert(anchors(ps[at], cursor, 0));
}

proof fn page_of_selected_app_is_whole(
    machines: Seq<Machine>,
    cursor: Cursor,
    budget: int,
    wanted: Seq<usize>,
    m: Materialization,
)
    requires
        budget >= 1,
        is_column_page(machines, cursor.col as int, budget, m.columns@),
        shows(machines, cursor, budget, wanted, m),
        selects_app(machines, cursor),
    ensures
        ({
            let ps = grid_positions(machines, m.columns@, row_count(machines));
            forall|p: AppPosition| #[trigger]
                m.apps@.contains(p) <==> exists|k: int| #[trigger]
                    on_page(ps, cursor, budget, k) && ps[k] == p
        }),
{
    let columns = m.columns@;
    let ps = grid_positions(machines, columns, row_count(machines));
    let kept = kept_rows(wanted, cursor.row);
    selected_app_is_the_anchor(machines, cursor, budget, columns);
    let i = anchor_of(ps, cursor);
    let s = page_start(ps, budget, i);
    let e = page_end(ps, budget, i);
    page_spans_few_rows(ps, budget, e - 1);
    assert(wanted.no_duplicates()) by {
        assert forall|a: int, b: int|
            0 <= a < wanted.len() && 0 <= b < wanted.len() && a != b implies wanted[a]
            != wanted[b] by {
            if a < b {
                assert(wanted[a] < wanted[b]);
            } else {
                assert(wanted[b] < wanted[a]);
            }
        }
    }
    assert(on_page(ps, cursor, budget, i));
    assert forall|a: int| 0 <= a < wanted.len() implies row_seen(
        ps,
        s,
        e,
        #[trigger] wanted[a],
    ) by {
        let row = wanted[a];
        assert(wanted.contains(row));
        assert(row_wanted(machines, columns, cursor, budget, row));
        if exists|k: int| #[trigger] on_page(ps, cursor, budget, k) && ps[k].row == row {
            let k = choose|k: int| #[trigger] on_page(ps, cursor, budget, k) && ps[k].row == row;
            page_start_bounds(ps, budget, k);
            assert(k < e);
            assert(ps[k].row == row);
        } else {
            page_start_bounds(ps, budget, i);
            assert(ps[i].row == row);
        }
    }
    distinct_rows_are_spanned(ps, s, e, wanted);
    assert(kept == wanted);
    assert forall|p: AppPosition| #[trigger]
        m.apps@.contains(p) <==> exists|k: int| #[trigger]
            on_page(ps, cursor, budget, k) && ps[k] == p by {
        if exists|k: int| #[trigger] on_page(ps, cursor, budget, k) && ps[k] == p {
            let k = choose|k: int| #[trigger] on_page(ps, cursor, budget, k) && ps[k] == p;
            assert(row_wanted(machines, columns, cursor, budget, p.row));
            assert(wanted.contains(p.row));
            assert(app_shown(machines, columns, cursor, budget, kept, p));
        }
    }
}

/// The pages are fixed: what is shown for two selected applications is the same
/// page, or two pages without an application in common.
pub proof fn pages_are_equal_or_disjoint(
    machines: Seq<Machine>,
    icon_size: i32,
    cursor: Cursor,
    wanted: Seq<usize>,
    m: Materialization,
    other_cursor: Cursor,
    other_wanted: Seq<usize>,
    other: Materialization,
)
    requires
        selects_app(machines, cursor),
        is_column_page(machines, cursor.col as int, budget_of(icon_size), m.columns@),
        shows(machines, cursor, budget_of(icon_size), wanted, m),
        selects_app(machines, other_cursor),
        is_column_page(machines, other_cursor.col as int, budget_of(icon_size), other.columns@),
        shows(machines, other_cursor, budget_of(icon_size), other_wanted, other),
    ensures
        m.apps@.to_set() == other.apps@.to_set() || forall|p: AppPosition|
            !(m.apps@.contains(p) && other.apps@.contains(p)),
{
    let b = budget_of(icon_size);
    let rows = row_count(machines);
    let ps = grid_positions(machines, m.columns@, rows);
    let qs = grid_positions(machines, other.columns@, rows);
    page_of_selected_app_is_whole(machines, cursor, b, wanted, m);
    page_of_selected_app_is_whole(machines, other_cursor, b, other_wanted, other);
    row_count_fits(machines);
    column_page_is_distinct(machines, cursor.col as int, b, m.columns@);
    column_page_is_distinct(machines, other_cursor.col as int, b, other.columns@);
    grid_positions_distinct(machines, m.columns@, rows);
    grid_positions_distinct(machines, other.columns@, rows);
    column_pages_are_equal_or_disjoint(
        machines,
        b,
        cursor.col as int,
        other_cursor.col as int,
        m.columns@,
        other.columns@,
    );
    if exists|p: AppPosition| m.apps@.contains(p) && other.apps@.contains(p) {
        let p = choose|p: AppPosition| m.apps@.contains(p) && other.apps@.contains(p);
        let i = choose|i: int| #[trigger] on_page(ps, cursor, b, i) && ps[i] == p;
        let j = choose|j: int| #[trigger] on_page(qs, other_cursor, b, j) && qs[j] == p;
        assert(m.columns@.contains(ps[i].col));
        assert(other.columns@.contains(qs[j].col));
        assert(m.columns@ == other.columns@);
        assert(i == j);
        assert forall|k: int| on_page(ps, cursor, b, k) == on_page(qs, other_cursor, b, k) by {
        }
        assert forall|q: AppPosition| m.apps@.contains(q) == other.apps@.contains(q) by {
            if m.apps@.contains(q) {
                let k = choose|k: int| #[trigger] on_page(ps, cursor, b, k) && ps[k] == q;
                assert(on_page(qs, other_cursor, b, k) && qs[k] == q);
            }
            if other.apps@.contains(q) {
                let k = choose|k: int| #[trigger] on_page(qs, other_cursor, b, k) && qs[k] == q;
                assert(on_page(ps, cursor, b, k) && ps[k] == q);
            }
        }
        assert(m.apps@.to_set() =~= other.apps@.to_set());
    }
}

/// The order in which applications are shown: by row, in a row by column, in a
/// cell by line, in a line by place.
pub open spec fn shown_before(a: AppPosition, b: AppPosition) -> bool {
    a.row < b.row || (a.row == b.row && (a.col < b.col || (a.col == b.col && (a.line < b.line || (
    a.line == b.line && a.item < b.item)))))
}

proof fn cell_positions_in_order(col: usize, row: usize, lines: Seq<Line>)
    requires
        lines.len() <= usize::MAX,
    ensures
        ({
            let ps = cell_positions(col, row as int, lines);
            &&& forall|k: int|
                0 <= k < ps.len() ==> {
                    let p = #[trigger] ps[k];
                    p.col == col && p.row == row && p.line < lines.len() && p.item
                        < lines[p.line as int].apps@.len()
                }
            &&& forall|i: int, j: int|
                0 <= i < j < ps.len() ==> shown_before(#[trigger] ps[i], #[trigger] ps[j])
        }),
    decreases lines.len(),
{
    if lines.len() > 0 {
        let fewer = lines.drop_last();
        cell_positions_in_order(col, row, fewer);
        let before = cell_positions(col, row as int, fewer);
        let all = cell_positions(col, row as int, lines);
        assert(lines.last().apps.len() <= usize::MAX);
        assert forall|k: int| 0 <= k < all.len() implies {
            let p = #[trigger] all[k];
            p.col == col && p.row == row && p.line < lines.len() && p.item
                < lines[p.line as int].apps@.len()
        } by {
            if k < before.len() {
                assert(all[k] == before[k]);
                assert(fewer[before[k].line as int] == lines[before[k].line as int]);
            }
        }
        assert forall|i: int, j: int| 0 <= i < j < all.len() implies shown_before(
            #[trigger] all[i],
            #[trigger] all[j],
        ) by {
            if j < before.len() {
                assert(all[i] == before[i] && all[j] == before[j]);
            } else if i < before.len() {
                assert(all[i] == before[i]);
                assert(before[i].line < fewer.len());
            }
        }
    }
}

spec fn column_holds(machines: Seq<Machine>, p: AppPosition) -> bool {
    let cell = cell_of(machines, p.col as int, p.row as int);
    cell is Some && p.line < cell->0.len() && p.item < cell->0[p.line as int].apps@.len()
}

proof fn row_positions_in_order(machines: Seq<Machine>, columns: Seq<usize>, row: usize)
    requires
        increasing(columns),
    ensures
        ({
            let ps = row_positions(machines, columns, row as int);
            &&& forall|k: int|
                0 <= k < ps.len() ==> {
                    let p = #[trigger] ps[k];
                    p.row == row && columns.contains(p.col) && column_holds(machines, p)
                }
            &&& forall|i: int, j: int|
                0 <= i < j < ps.len() ==> shown_before(#[trigger] ps[i], #[trigger] ps[j])
        }),
    decreases columns.len(),
{
    if columns.len() > 0 {
        let fewer = columns.drop_last();
        let last = columns.last();
        assert(increasing(fewer)) by {
            assert forall|i: int, j: int| 0 <= i < j < fewer.len() implies #[trigger] fewer[i]
                < #[trigger] fewer[j] by {
                assert(columns[i] < columns[j]);
            }
        }
        row_positions_in_order(machines, fewer, row);
        let before = row_positions(machines, fewer, row as int);
        let all = row_positions(machines, columns, row as int);
        assert(columns[columns.len() - 1] == last);
        assert forall|c: usize| fewer.contains(c) implies columns.contains(c) && c < last by {
            let i = choose|i: int| 0 <= i < fewer.len() && fewer[i] == c;
            assert(columns[i] == c);
            assert(columns[i] < columns[columns.len() - 1]);
        }
        let own = if cell_of(machines, last as int, row as int) is Some {
            let lines = cell_of(machines, last as int, row as int)->0;
            assert(machines[last as int].cells@[row as int].len() == lines.len());
            cell_positions_in_order(last, row, lines);
            cell_positions(last, row as int, lines)
        } else {
            Seq::empty()
        };
        assert(all =~= before + own);
        assert forall|k: int| 0 <= k < all.len() implies {
            let p = #[trigger] all[k];
            p.row == row && columns.contains(p.col) && column_holds(machines, p)
        } by {
            if k < before.len() {
                assert(all[k] == before[k]);
            } else {
                assert(all[k] == own[k - before.len()]);
            }
        }
        assert forall|i: int, j: int| 0 <= i < j < all.len() implies shown_before(
            #[trigger] all[i],
            #[trigger] all[j],
        ) by {
            if j < before.len() {
                assert(all[i] == before[i] && all[j] == before[j]);
            } else if i < before.len() {
                assert(all[i] == before[i] && all[j] == own[j - before.len()]);
                assert(fewer.contains(before[i].col));
            } else {
                assert(all[i] == own[i - before.len()] && all[j] == own[j - before.len()]);
            }
        }
    }
}

proof fn grid_positions_in_order(machines: Seq<Machine>, columns: Seq<usize>, rows: nat)
    requires
        increasing(columns),
        rows <= usize::MAX,
    ensures
        ({
            let ps = grid_positions(machines, columns, rows);
            &&& forall|k: int|
                0 <= k < ps.len() ==> {
                    let p = #[trigger] ps[k];
                    p.row < rows && columns.contains(p.col) && column_holds(machines, p)
                }
            &&& forall|i: int, j: int|
                0 <= i < j < ps.len() ==> shown_before(#[trigger] ps[i], #[trigger] ps[j])
        }),
    decreases rows,
{
    if rows > 0 {
        let row = (rows - 1) as usize;
        grid_positions_in_order(machines, columns, (rows - 1) as nat);
        row_positions_in_order(machines, columns, row);
        let before = grid_positions(machines, columns, (rows - 1) as nat);
        let own = row_positions(machines, columns, row as int);
        let all = grid_positions(machines, columns, rows);
        assert(all =~= before + own);
        assert forall|k: int| 0 <= k < all.len() implies {
            let p = #[trigger] all[k];
            p.row < rows && columns.contains(p.col) && column_holds(machines, p)
        } by {
            if k < before.len() {
                assert(all[k] == before[k]);
            } else {
                assert(all[k] == own[k - before.len()]);
            }
        }
        assert forall|i: int, j: int| 0 <= i < j < all.len() implies shown_before(
            #[trigger] all[i],
            #[trigger] all[j],
        ) by {
            if j < before.len() {
                assert(all[i] == before[i] && all[j] == before[j]);
            } else if i < before.len() {
                assert(all[i] == before[i] && all[j] == own[j - before.len()]);
            } else {
                assert(all[i] == own[i - before.len()] && all[j] == own[j - before.len()]);
            }
        }
    }
}

/// The applications that are shown on pages are those of the columns, every one
/// once, by row, then column, then line, then place.
pub proof fn pages_go_through_the_applications(
    machines: Seq<Machine>,
    columns: Seq<usize>,
    p: AppPosition,
)
    requires
        increasing(columns),
        row_count(machines) <= usize::MAX,
    ensures
        ({
            let ps = grid_positions(machines, columns, row_count(machines));
            &&& ps.contains(p) <==> columns.contains(p.col) && p.col < machines.len() && p.row
                < machines[p.col as int].cells@.len() && p.line
                < machines[p.col as int].cells@[p.row as int]@.len() && p.item
                < machines[p.col as int].cells@[p.row as int]@[p.line as int].apps@.len()
            &&& forall|i: int, j: int|
                0 <= i < j < ps.len() ==> shown_before(#[trigger] ps[i], #[trigger] ps[j])
        }),
{
    let rows = row_count(machines);
    let ps = grid_positions(machines, columns, rows);
    grid_positions_in_order(machines, columns, rows);
    if ps.contains(p) {
        let k = choose|k: int| 0 <= k < ps.len() && ps[k] == p;
        assert(column_holds(machines, ps[k]));
    }
    if columns.contains(p.col) && column_holds(machines, p) {
        row_count_bounds(machines, p.col as int);
        let c = choose|c: int| 0 <= c < columns.len() && columns[c] == p.col;
        let lines = cell_of(machines, p.col as int, p.row as int)->0;
        cell_positions_hold(p.col, p.row as int, lines, p.line as int, p.item as int);
        row_positions_hold(machines, columns, p.row as int, c, p);
        grid_positions_hold(machines, columns, rows, p.row as int, p);
    }
}

/// There are as many rows as the machine with the most has.
pub proof fn rows_of_the_tallest(machines: Seq<Machine>, m: int)
    ensures
        0 <= m < machines.len() ==> machines[m].cells@.len() <= row_count(machines),
        row_count(machines) > 0 ==> exists|k: int|
            0 <= k < machines.len() && (#[trigger] machines[k]).cells@.len() == row_count(machines),
    decreases machines.len(),
{
    if 0 <= m < machines.len() {
        row_count_bounds(machines, m);
    }
    if machines.len() > 0 {
        let fewer = machines.drop_last();
        rows_of_the_tallest(fewer, -1);
        let n = fewer.len() as int;
        if machines[n].cells@.len() > row_count(fewer) {
            assert(machines[n].cells@.len() == row_count(machines));
        } else if row_count(machines) > 0 {
            let k = choose|k: int|
                0 <= k < fewer.len() && (#[trigger] fewer[k]).cells@.len() == row_count(fewer);
            assert(machines[k] == fewer[k]);
        }
    }
}

/// A row has content exactly if some machine has a line in it, and these rows
/// come in order.
pub proof fn rows_with_content(machines: Seq<Machine>, rows: nat, row: usize)
    requires
        rows <= usize::MAX,
    ensures
        content_rows(machines, rows).contains(row) <==> row < rows && exists|m: int|
            0 <= m < machines.len() && row < (#[trigger] machines[m]).cells@.len()
                && machines[m].cells@[row as int]@.len() > 0,
        forall|i: int, j: int|
            0 <= i < j < content_rows(machines, rows).len() ==> #[trigger] content_rows(
                machines,
                rows,
            )[i] < #[trigger] content_rows(machines, rows)[j],
{
    content_rows_increase(machines, rows);
    if row < rows && row_has_content(machines, row as int) {
        content_rows_hold(machines, rows, row);
    }
    if content_rows(machines, rows).contains(row) {
        content_rows_come(machines, rows, row);
    }
}

proof fn content_rows_come(machines: Seq<Machine>, rows: nat, row: usize)
    requires
        content_rows(machines, rows).contains(row),
        rows <= usize::MAX,
    ensures
        row < rows,
        row_has_content(machines, row as int),
    decreases rows,
{
    let before = content_rows(machines, (rows - 1) as nat);
    let all = content_rows(machines, rows);
    if before.contains(row) {
        content_rows_come(machines, (rows - 1) as nat, row);
    } else {
        let k = choose|k: int| 0 <= k < all.len() && all[k] == row;
        if k < before.len() {
            assert(before[k] == row);
        }
    }
}

/// At most sixty-four rows are kept: all of them where there are no more, else the
/// block of sixty-four in which the selected row is.
pub proof fn kept_rows_are_the_selected_block(rows: Seq<usize>, selected: usize, i: int, j: int)
    requires
        increasing(rows),
        0 <= i < rows.len(),
        rows[i] == selected,
        0 <= j < rows.len(),
    ensures
        kept_rows(rows, selected).contains(rows[j]) <==> rows.len() <= 64 || j / 64 == i / 64,
        kept_rows(rows, selected).len() <= 64,
{
    row_at_finds(rows, selected, i);
    let kept = kept_rows(rows, selected);
    if rows.len() > 64 {
        let start = (i / 64) * 64;
        assert(start <= i < start + 64);
        let end = if start + 64 < rows.len() {
            start + 64
        } else {
            rows.len() as int
        };
        assert(kept == rows.subrange(start, end));
        if j / 64 == i / 64 {
            assert(start <= j < end);
            assert(kept[j - start] == rows[j]);
        } else {
            if kept.contains(rows[j]) {
                let k = choose|k: int| 0 <= k < kept.len() && kept[k] == rows[j];
                assert(rows[start + k] == rows[j]);
                if start + k < j {
                    assert(rows[start + k] < rows[j]);
                } else if j < start + k {
                    assert(rows[j] < rows[start + k]);
                }
                assert(j == start + k);
            }
        }
    } else {
        assert(kept[j] == rows[j]);
    }
}

/// A page of applications ends only where it is full: it has as many as the
/// budget allows, or the next one is in a row that would be one too many.
pub proof fn pages_are_filled(positions: Seq<AppPosition>, budget: int, i: int)
    requires
        budget >= 1,
        0 < i < positions.len(),
    ensures
        ({
            let s = page_start(positions, budget, i - 1);
            let new_row = forall|k: int|
                s <= k < i ==> (#[trigger] positions[k]).row != positions[i].row;
            &&& page_start(positions, budget, i) == i <==> i - s == budget || (new_row
                && rows_spanned(positions, s, i) >= 64)
            &&& page_start(positions, budget, i) == i || page_start(positions, budget, i) == s
            &&& page_number(positions, budget, i) == page_number(positions, budget, i - 1) + (
            if page_start(positions, budget, i) == i {
                1int
            } else {
                0int
            })
        }),
        page_start(positions, budget, 0) == 0,
        page_number(positions, budget, 0) == 0,
        page_count(positions, budget) == page_number(positions, budget, positions.len() - 1) + 1,
{
    page_start_bounds(positions, budget, i - 1);
    let s = page_start(positions, budget, i - 1);
    if row_seen(positions, s, i, positions[i].row) {
        let k = choose|k: int| s <= k < i && (#[trigger] positions[k]).row == positions[i].row;
        assert(positions[k].row == positions[i].row);
    }
}

/// Rows are counted once each.
pub proof fn rows_are_counted_once(positions: Seq<AppPosition>, s: int, i: int)
    requires
        0 <= s < i < positions.len(),
    ensures
        rows_spanned(positions, s, s) == 0,
        (exists|k: int| s <= k < i && (#[trigger] positions[k]).row == positions[i].row)
            ==> rows_spanned(positions, s, i + 1) == rows_spanned(positions, s, i),
        (forall|k: int| s <= k < i ==> (#[trigger] positions[k]).row != positions[i].row)
            ==> rows_spanned(positions, s, i + 1) == rows_spanned(positions, s, i) + 1,
{
    if row_seen(positions, s, i, positions[i].row) {
        let k = choose|k: int| s <= k < i && (#[trigger] positions[k]).row == positions[i].row;
        assert(positions[k].row == positions[i].row);
    }
}

/// The page is chosen by the selected application where there is one; else by the
/// first of its cell, else by the first of its column, else it is the first page.
pub proof fn pages_follow_the_cursor(positions: Seq<AppPosition>, cursor: Cursor, i: int)
    requires
        0 <= i < positions.len(),
    ensures
        ({
            let at = anchor_of(positions, cursor);
            let p = positions[at];
            &&& 0 <= at < positions.len()
            &&& positions[i].col == cursor.col ==> p.col == cursor.col
            &&& positions[i].col == cursor.col && positions[i].row == cursor.row ==> p.row
                == cursor.row
            &&& cursor.inside && positions[i].col == cursor.col && positions[i].row == cursor.row
                && positions[i].line == cursor.line && positions[i].item == cursor.item ==> p.line
                == cursor.line && p.item == cursor.item
            &&& !cursor.inside && positions[i].col == cursor.col && positions[i].row == cursor.row
                ==> at <= i
            &&& (forall|k: int|
                0 <= k < positions.len() ==> (#[trigger] positions[k]).col != cursor.col) ==> at
                == 0
        }),
{
    first_anchor_is_first(positions, cursor, 0);
    first_anchor_is_first(positions, cursor, 1);
    first_anchor_is_first(positions, cursor, 2);
}

/// A page of columns ends only where it is full: it has eight columns, or the next
/// one would exceed the budget.
pub proof fn column_pages_are_filled(machines: Seq<Machine>, budget: int, i: int)
    requires
        0 < i < machines.len(),
        1 <= budget < usize::MAX,
    ensures
        ({
            let s = column_page_start(machines, budget, i - 1);
            &&& 0 <= s < i
            &&& column_page_start(machines, budget, i) == i <==> i - s >= 8 || columns_cost(
                machines,
                s,
                i,
                budget,
            ) + column_cost(machines[i], budget) > budget
            &&& column_page_start(machines, budget, i) == i || column_page_start(
                machines,
                budget,
                i,
            ) == s
        }),
        column_page_start(machines, budget, 0) == 0,
{
    column_page_start_bounds(machines, budget, i - 1);
}

/// A column costs as many applications as it has, but at least one and no more
/// than the budget; several columns cost what each of them costs.
pub proof fn cost_of_columns(machines: Seq<Machine>, s: int, i: int, budget: int)
    requires
        0 <= s <= i < machines.len(),
        1 <= budget,
        cell_app_count(machines[i].cells@) <= usize::MAX,
    ensures
        columns_cost(machines, s, s, budget) == 0,
        columns_cost(machines, s, i + 1, budget) == columns_cost(machines, s, i, budget)
            + column_cost(machines[i], budget),
        1 <= column_cost(machines[i], budget) <= budget,
        1 <= cell_app_count(machines[i].cells@) <= budget ==> column_cost(machines[i], budget)
            == cell_app_count(machines[i].cells@),
        cell_app_count(machines[i].cells@) > budget ==> column_cost(machines[i], budget) == budget,
{
}

/// The applications of lines and cells are counted all together.
pub proof fn counts_add_up(lines: Seq<Line>, line: Line, cells: Seq<Vec<Line>>, cell: Vec<Line>)
    ensures
        line_app_count(Seq::empty()) == 0,
        line_app_count(lines.push(line)) == line_app_count(lines) + line.apps@.len(),
        cell_app_count(Seq::empty()) == 0,
        cell_app_count(cells.push(cell)) == cell_app_count(cells) + line_app_count(cell@),
{
    assert(lines.push(line).drop_last() =~= lines);
    assert(cells.push(cell).drop_last() =~= cells);
}

/// As many applications get widgets as icons of that size, twice over, fit in the
/// bytes for them: at least one, and at most five hundred and twelve.
pub proof fn budget_keeps_the_icon_bytes(icon_size: i32)
    requires
        icon_size > 0,
    ensures
        1 <= budget_of(icon_size) <= 512,
        budget_of(icon_size) > 1 ==> budget_of(icon_size) * (8 * icon_size * icon_size)
            <= 134217728,
        1 <= budget_of(icon_size) < 512 && 8 * icon_size * icon_size <= usize::MAX ==> (budget_of(
            icon_size,
        ) + 1) * (8 * icon_size * icon_size) > 134217728,
{
    let bytes = 8 * icon_size * icon_size;
    assert(bytes > 0) by (nonlinear_arith)
        requires
            icon_size > 0,
            bytes == 8 * icon_size * icon_size,
    ;
    let limit = 134217728int / bytes;
    assert(limit * bytes <= 134217728 < (limit + 1) * bytes) by (nonlinear_arith)
        requires
            bytes > 0,
            limit == 134217728int / bytes,
    ;
    let b = budget_of(icon_size);
    if b > 1 {
        assert(b <= limit);
        assert(b * bytes <= limit * bytes) by (nonlinear_arith)
            requires
                b <= limit,
                bytes > 0,
        ;
    }
    if b < 512 && bytes <= usize::MAX {
        assert(limit <= b);
        assert((limit + 1) * bytes <= (b + 1) * bytes) by (nonlinear_arith)
            requires
                limit <= b,
                bytes > 0,
        ;
    }
}

/// Where everything fits on one page, every line with an application is shown, of
/// every machine.
pub proof fn small_grids_are_shown_whole(
    machines: Seq<Machine>,
    cursor: Cursor,
    icon_size: i32,
    wanted: Seq<usize>,
    m: Materialization,
    p: AppPosition,
)
    requires
        machines.len() <= usize::MAX,
        row_count(machines) <= usize::MAX,
        is_column_page(machines, cursor.col as int, budget_of(icon_size), m.columns@),
        shows(machines, cursor, budget_of(icon_size), wanted, m),
        fits_one_page(machines, m.columns@, budget_of(icon_size)),
        p.col < machines.len(),
        p.row < machines[p.col as int].cells@.len(),
        p.line < machines[p.col as int].cells@[p.row as int]@.len(),
        p.item < machines[p.col as int].cells@[p.row as int]@[p.line as int].apps@.len(),
    ensures
        m.rows@.contains(p.row),
        m.columns@.contains(p.col),
        m.lines@.contains(LinePosition { col: p.col, row: p.row, line: p.line }),
        m.pages == 1,
{
    let rows = row_count(machines);
    let content = content_rows(machines, rows);
    row_count_bounds(machines, p.col as int);
    assert(row_has_content(machines, p.row as int));
    content_rows_hold(machines, rows, p.row);
    let columns = m.columns@;
    let chosen = if cursor.col < machines.len() {
        cursor.col as int
    } else {
        machines.len() - 1
    };
    let s = column_page_start(machines, budget_of(icon_size), chosen);
    assert(s == 0);
    assert(columns[p.col as int] == p.col);
    let l = LinePosition { col: p.col, row: p.row, line: p.line };
    assert(line_in_grid(machines, columns, content, l));
    assert(m.lines@.contains(l));
    assert(content.len() >= 1);
}

/// A count that no machine word holds is the largest that one does.
pub proof fn counts_are_saturated(n: nat)
    ensures
        n <= usize::MAX ==> saturated(n) == n,
        n > usize::MAX ==> saturated(n) == usize::MAX,
{
}

/// Where the cursor is not on an application, its cell and its line still have
/// their place: the row is wanted, and the line is shown if its row is kept.
pub proof fn cursor_keeps_its_row_and_line(
    machines: Seq<Machine>,
    columns: Seq<usize>,
    cursor: Cursor,
    budget: int,
    kept: Seq<usize>,
)
    requires
        columns.contains(cursor.col),
        cursor.col < machines.len(),
        cursor.row < machines[cursor.col as int].cells@.len(),
    ensures
        row_wanted(machines, columns, cursor, budget, cursor.row),
        cursor.line < machines[cursor.col as int].cells@[cursor.row as int]@.len() && kept.contains(
            cursor.row,
        ) ==> line_shown(
            machines,
            columns,
            cursor,
            budget,
            kept,
            LinePosition { col: cursor.col, row: cursor.row, line: cursor.line },
        ),
{
}

/// An application that is shown has its line shown, and is of the page and of a
/// kept row.
pub proof fn shown_applications_have_their_line(
    machines: Seq<Machine>,
    columns: Seq<usize>,
    cursor: Cursor,
    budget: int,
    kept: Seq<usize>,
    p: AppPosition,
)
    requires
        app_shown(machines, columns, cursor, budget, kept, p),
    ensures
        kept.contains(p.row),
        line_shown(
            machines,
            columns,
            cursor,
            budget,
            kept,
            LinePosition { col: p.col, row: p.row, line: p.line },
        ),
        row_wanted(machines, columns, cursor, budget, p.row),
        grid_positions(machines, columns, row_count(machines)).contains(p),
{
    let ps = grid_positions(machines, columns, row_count(machines));
    let k = choose|k: int| #[trigger] on_page(ps, cursor, budget, k) && ps[k] == p;
    assert(ps[k] == p);
    assert(line_of(ps[k]) == LinePosition { col: p.col, row: p.row, line: p.line });
}

} // verus!
