//! The launcher's configuration and the inventories that machines report.

use crate::text::{
    chars_of, contains_text, debug_form, decimal, find_char, join_path, parse_number,
    same_text, to_lowercase, trim, TextMap,
};
use vstd::prelude::*;
use vstd::string::*;

verus! {

pub const MAX_CONFIG_BYTES: u64 = 4194304;

pub const MAX_ICON_SIZE: i32 = 256;

pub const MAX_LOGO_SIZE: i32 = 1024;

pub const MAX_WINDOW_WIDTH: i32 = 16384;

pub const MAX_MACHINES: usize = 256;

pub const MAX_ROWS: usize = 1024;

pub const MAX_INVENTORY_FOLDERS: usize = 1024;

pub const MAX_INVENTORY_APPS: usize = 4096;

pub const MAX_INVENTORY_HOST_BYTES: usize = 1024;

pub const MAX_INVENTORY_ERROR_BYTES: usize = 65536;

pub const MAX_INVENTORY_FOLDER_BYTES: usize = 1024;

pub const MAX_INVENTORY_APP_TEXT_BYTES: usize = 4096;

pub const MAX_INVENTORY_EXEC_BYTES: usize = 65536;

/// The bits of the IEEE 754 double 1.0. The bits of a double that is greater
/// than zero and at most one lie between one and this.
pub const ONE_BITS: u64 = 0x3FF0_0000_0000_0000;

/// A named rung of a folder, and the applications that go there.
#[derive(Debug, Clone, PartialEq, Eq)]
pub struct SubRow {
    pub name: String,
    pub apps: Vec<String>,
}

/// What a machine offers.
#[derive(Debug, Clone)]
pub struct Inventory {
    pub host: String,
    pub error: Option<String>,
    pub folders: Vec<InventoryFolder>,
}

#[derive(Debug, Clone)]
pub struct InventoryFolder {
    pub label: String,
    pub apps: Vec<InventoryApp>,
}

#[derive(Debug, Clone)]
pub struct InventoryApp {
    pub name: String,
    pub id: Option<String>,
    pub icon: String,
    /// The command line that starts the application.
    pub command: String,
    pub terminal: bool,
    pub desktop_file: String,
}

/// One machine of the fleet.
#[derive(Debug, Clone, PartialEq, Eq)]
pub struct MachineConfig {
    pub name: String,
    pub aliases: Vec<String>,
    pub accent: String,
    pub inventory: Vec<String>,
    pub inventory_timeout_ms: u64,
    pub launch: Vec<String>,
}

/// How a row arranges its items.
#[derive(Debug, Clone, PartialEq, Eq)]
pub struct Layout {
    pub equal_columns: bool,
    pub max_items_per_line: usize,
    pub max_inline_items: usize,
    pub max_label_chars: i32,
    /// The shape of single rows: `rail`, or lines and width such as `1x6`.
    pub rows: TextMap<String>,
}

/// The arrangement where none is configured.
pub open spec fn is_default_layout(l: Layout) -> bool {
    &&& l.equal_columns
    &&& l.max_items_per_line == 5
    &&& l.max_inline_items == 12
    &&& l.max_label_chars == 16
    &&& l.rows.entries@.len() == 0
}

impl Default for Layout {
    fn default() -> (r: Self)
        ensures
            is_default_layout(r),
    {
        Layout {
            equal_columns: true,
            max_items_per_line: 5,
            max_inline_items: 12,
            max_label_chars: 16,
            rows: TextMap::new(),
        }
    }
}

/// What a shape text stands for.
pub enum Shape {
    Rail,
    Lines { lines: nat, per_line: nat },
    /// No `x` separates two numbers.
    NoSeparator,
    /// The numbers are not one to three lines of a positive width.
    BadNumbers,
}

/// The meaning of a shape text.
pub open spec fn shape_of(value: Seq<char>) -> Shape {
    if value == "rail"@ {
        Shape::Rail
    } else {
        match crate::text::first_at(value, 'x') {
            None => Shape::NoSeparator,
            Some(at) => match (
                crate::text::number_value(value.take(at)),
                crate::text::number_value(value.skip(at + 1)),
            ) {
                (Some(lines), Some(per_line)) if 1 <= lines <= 3 && 1 <= per_line <= usize::MAX =>
                    Shape::Lines { lines, per_line },
                _ => Shape::BadNumbers,
            },
        }
    }
}

/// The complaint about a shape text, where it is not understood.
pub open spec fn shape_complaint(row: Seq<char>, value: Seq<char>) -> Option<Seq<char>> {
    match shape_of(value) {
        Shape::NoSeparator => Some(
            "layout.rows."@ + row + " must be `rail` or a shape such as `1x6`, got "@
                + crate::text::debug_text(value),
        ),
        Shape::BadNumbers => Some(
            "layout.rows."@ + row + " must use one to three positive-width lines, got "@
                + crate::text::debug_text(value),
        ),
        _ => None,
    }
}

/// `items` spread over `lines` lines, longer lines first.
pub open spec fn balanced(items: int, lines: int) -> Seq<usize> {
    Seq::new(
        lines as nat,
        |i: int|
            (items / lines + (if i < items % lines {
                1int
            } else {
                0int
            })) as usize,
    )
}

/// The smallest number of lines of `per_line` items that hold `items` items.
pub open spec fn lines_needed(items: int, per_line: int) -> int {
    (items + per_line - 1) / per_line
}

impl Layout {
    /// The lines that a row with `items` items gets; none means that the row is
    /// a rail.
    pub open spec fn lines_of(self, row: Seq<char>, items: int) -> Option<Seq<usize>> {
        let shape = match self.rows.value(row) {
            Some(value) => shape_of(value@),
            None => Shape::NoSeparator,
        };
        if items == 0 {
            Some(Seq::empty())
        } else {
            match shape {
                Shape::Rail => None,
                Shape::Lines { lines, per_line } => if items > lines * per_line {
                    None
                } else {
                    Some(balanced(items, lines_needed(items, per_line as int)))
                },
                _ => if items > self.max_inline_items {
                    None
                } else {
                    Some(balanced(items, lines_needed(items, self.max_items_per_line as int)))
                },
            }
        }
    }

    /// The most items that a line of a row holds: as its own shape says, or else
    /// the default.
    pub open spec fn width_of(self, row: Seq<char>) -> int {
        match self.rows.value(row) {
            Some(value) => match shape_of(value@) {
                Shape::Lines { lines, per_line } => per_line as int,
                _ => self.max_items_per_line as int,
            },
            None => self.max_items_per_line as int,
        }
    }

    /// Whether the row has a shape of its own that is understood.
    pub open spec fn has_shape(self, row: Seq<char>) -> bool {
        match self.rows.value(row) {
            Some(value) => shape_of(value@) is Rail || shape_of(value@) is Lines,
            None => false,
        }
    }

    /// The shape that the configuration gives a row: lines and width, zeros for
    /// a rail.
    pub fn override_shape(&self, row: &str) -> (r: Result<Option<(usize, usize)>, String>)
        ensures
            match self.rows.value(row@) {
                None => r == Ok::<Option<(usize, usize)>, String>(None),
                Some(value) => match shape_of(value@) {
                    Shape::Rail => r == Ok::<Option<(usize, usize)>, String>(Some((0, 0))),
                    Shape::Lines { lines, per_line } => r == Ok::<
                        Option<(usize, usize)>,
                        String,
                    >(Some((lines as usize, per_line as usize))) && 1 <= lines <= 3 && 1 <= per_line
                        <= usize::MAX,
                    _ => r is Err && Some(r->Err_0@) == shape_complaint(row@, value@),
                },
            },
    {
        let value = match self.rows.get(row) {
            None => {
                return Ok(None);
            },
            Some(value) => value,
        };
        if same_text(value.as_str(), "rail") {
            return Ok(Some((0, 0)));
        }
        let v = chars_of(value.as_str());
        proof {
            assert(v@.subrange(0, v@.len() as int) =~= v@);
            crate::text::first_at_is_first(v@, 'x');
        }
        let at: usize = match find_char(&v, 0, v.len(), 'x') {
            None => {
                let mut message = "layout.rows.".to_owned();
                message.append(row);
                message.append(" must be `rail` or a shape such as `1x6`, got ");
                message.append(debug_form(value.as_str()).as_str());
                return Err(message);
            },
            Some(at) => at,
        };
        proof {
            assert(v@.subrange(0, at as int) =~= v@.take(at as int));
            assert(v@.subrange(at + 1, v@.len() as int) =~= v@.skip(at + 1));
        }
        let lines = parse_number(&v, 0, at);
        let per_line = parse_number(&v, at + 1, v.len());
        if let (Some(lines), Some(per_line)) = (lines, per_line) {
            if 1 <= lines && lines <= 3 && 1 <= per_line {
                return Ok(Some((lines, per_line)));
            }
        }
        let mut message = "layout.rows.".to_owned();
        message.append(row);
        message.append(" must use one to three positive-width lines, got ");
        message.append(debug_form(value.as_str()).as_str());
        Err(message)
    }

    /// How many items each line of a row holds, or none where the row becomes a
    /// rail. A row without a usable shape of its own needs a positive default
    /// width.
    pub fn line_lengths(&self, row: &str, items: usize) -> (r: Option<Vec<usize>>)
        requires
            items == 0 || self.has_shape(row@) || self.max_items_per_line > 0,
        ensures
            match r {
                Some(lengths) => self.lines_of(row@, items as int) == Some(lengths@),
                None => self.lines_of(row@, items as int) is None,
            },
    {
        if items == 0 {
            let none: Vec<usize> = Vec::new();
            assert(none@ =~= Seq::<usize>::empty());
            return Some(none);
        }
        let mut per_line: usize = self.max_items_per_line;
        if let Ok(Some((lines, width))) = self.override_shape(row) {
            if lines == 0 {
                return None;
            }
            per_line = width;
            proof {
                lines_cover(items as int, lines as int, width as int);
            }
            let needed: usize = (items - 1) / width + 1;
            if needed > lines {
                return None;
            }
        } else if items > self.max_inline_items {
            return None;
        }
        proof {
            lines_cover(items as int, 1, per_line as int);
        }
        let lines: usize = (items - 1) / per_line + 1;
        let short: usize = items / lines;
        let longer: usize = items % lines;
        let mut lengths: Vec<usize> = Vec::new();
        let mut line: usize = 0;
        proof {
            assert(items / lines + 1 <= items + 1) by (nonlinear_arith)
                requires
                    lines >= 1,
                    items >= 1,
            ;
            assert(lines >= 2 ==> items / lines < items) by (nonlinear_arith)
                requires
                    lines >= 1,
                    items >= 1,
            ;
            assert(lines == 1 ==> items % lines == 0) by (nonlinear_arith)
                requires
                    lines >= 1,
            ;
        }
        while line < lines
            invariant
                line <= lines,
                lines >= 1,
                items >= 1,
                short == items / lines,
                longer == items % lines,
                lines >= 2 ==> short < items,
                lines == 1 ==> longer == 0,
                lengths@.len() == line,
                forall|k: int|
                    0 <= k < line ==> lengths@[k] == balanced(items as int, lines as int)[k],
            decreases lines - line,
        {
            if line < longer {
                lengths.push(short + 1);
            } else {
                lengths.push(short);
            }
            line = line + 1;
        }
        assert(lengths@ =~= balanced(items as int, lines as int));
        Some(lengths)
    }

    /// Whether a row with this many items is a rail.
    pub fn is_rail(&self, row: &str, items: usize) -> (r: bool)
        requires
            items == 0 || self.has_shape(row@) || self.max_items_per_line > 0,
        ensures
            r == self.lines_of(row@, items as int) is None,
    {
        self.line_lengths(row, items).is_none()
    }
}

/// How the executable line count relates to the capacity of `lines` lines.
proof fn lines_cover(items: int, lines: int, per_line: int)
    requires
        items >= 1,
        per_line >= 1,
        lines >= 1,
    ensures
        (items - 1) / per_line + 1 == lines_needed(items, per_line),
        lines_needed(items, per_line) >= 1,
        lines_needed(items, per_line) <= items,
        lines_needed(items, per_line) > lines <==> items > lines * per_line,
{
    let n = lines_needed(items, per_line);
    assert(items + per_line - 1 == (items - 1) + per_line);
    vstd::arithmetic::div_mod::lemma_div_plus_one(items - 1, per_line);
    vstd::arithmetic::div_mod::lemma_fundamental_div_mod(items - 1, per_line);
    let q = (items - 1) / per_line;
    let m = (items - 1) % per_line;
    assert(n == q + 1);
    assert(0 <= q <= items - 1) by (nonlinear_arith)
        requires
            items - 1 == per_line * q + m,
            0 <= m < per_line,
            items >= 1,
            per_line >= 1,
    ;
    assert(q + 1 > lines <==> items > lines * per_line) by (nonlinear_arith)
        requires
            items - 1 == per_line * q + m,
            0 <= m < per_line,
            per_line >= 1,
    ;
}

/// The sum of the lengths.
pub open spec fn total(lengths: Seq<usize>) -> int
    decreases lengths.len(),
{
    if lengths.len() == 0 {
        0
    } else {
        total(lengths.drop_last()) + lengths.last()
    }
}

proof fn balanced_prefix_total(items: int, lines: int, n: int)
    requires
        0 <= n <= lines,
        lines >= 1,
        0 <= items <= usize::MAX,
        lines == 1 || items / lines + 1 <= items || items == 0,
    ensures
        total(balanced(items, lines).take(n)) == n * (items / lines) + (if n < items % lines {
            n
        } else {
            items % lines
        }),
    decreases n,
{
    let whole = balanced(items, lines);
    assert(0 <= items % lines < lines) by (nonlinear_arith)
        requires
            lines >= 1,
    ;
    assert(0 <= items / lines <= items) by (nonlinear_arith)
        requires
            lines >= 1,
            items >= 0,
    ;
    assert(lines == 1 ==> items % lines == 0) by (nonlinear_arith)
        requires
            lines >= 1,
    ;
    assert(items == 0 ==> items % lines == 0 && items / lines == 0) by (nonlinear_arith)
        requires
            lines >= 1,
    ;
    if n == 0 {
        assert(whole.take(0) =~= Seq::empty());
        assert(0 * (items / lines) == 0) by (nonlinear_arith);
    } else {
        balanced_prefix_total(items, lines, n - 1);
        assert(whole.take(n).drop_last() =~= whole.take(n - 1));
        assert(n * (items / lines) == (n - 1) * (items / lines) + items / lines)
            by (nonlinear_arith);
    }
}

/// Every item has its place: the lines of a row that is not a rail hold all of
/// its items together.
pub proof fn lines_hold_every_item(layout: Layout, row: Seq<char>, items: usize)
    requires
        items == 0 || layout.has_shape(row) || layout.max_items_per_line > 0,
    ensures
        match layout.lines_of(row, items as int) {
            Some(lengths) => total(lengths) == items,
            None => true,
        },
{
    if items > 0 {
        match layout.lines_of(row, items as int) {
            Some(lengths) => {
                let per_line = layout.width_of(row);
                lines_cover(items as int, 1, per_line);
                let n = lines_needed(items as int, per_line);
                assert(lengths == balanced(items as int, n));
                assert(n == 1 || items as int / n + 1 <= items) by (nonlinear_arith)
                    requires
                        n >= 1,
                        items >= 1,
                        n <= items,
                ;
                balanced_prefix_total(items as int, n, n);
                assert(lengths.take(n) =~= lengths);
                vstd::arithmetic::div_mod::lemma_fundamental_div_mod(items as int, n);
                assert(n * (items as int / n) + items as int % n == items);
            },
            None => {},
        }
    }
}

/// The lines of a row are as short as its width asks and balanced: no line is
/// longer than the width or empty, two lines differ by at most one item, a longer
/// line stands before a shorter one, and a row with a shape of its own has no
/// more lines than the shape says.
pub proof fn lines_are_balanced(layout: Layout, row: Seq<char>, items: usize, i: int)
    requires
        items > 0,
        layout.has_shape(row) || layout.max_items_per_line > 0,
        layout.lines_of(row, items as int) is Some,
        0 <= i < layout.lines_of(row, items as int)->0.len(),
    ensures
        ({
            let lengths = layout.lines_of(row, items as int)->0;
            &&& 1 <= lengths[i] <= layout.width_of(row)
            &&& forall|j: int|
                i < j < lengths.len() ==> #[trigger] lengths[j] <= lengths[i] <= lengths[j] + 1
            &&& match layout.rows.value(row) {
                Some(value) => match shape_of(value@) {
                    Shape::Lines { lines, per_line } => lengths.len() <= lines,
                    _ => true,
                },
                None => true,
            }
        }),
{
    let per_line = layout.width_of(row);
    let it = items as int;
    lines_cover(it, 1, per_line);
    let n = lines_needed(it, per_line);
    let lengths = layout.lines_of(row, it)->0;
    assert(lengths == balanced(it, n));
    assert(1 <= it / n <= it) by (nonlinear_arith)
        requires
            n >= 1,
            it >= 1,
            n <= it,
    ;
    assert(n >= 2 ==> it / n + 1 <= it) by (nonlinear_arith)
        requires
            n >= 1,
            it >= 1,
            n <= it,
    ;
    vstd::arithmetic::div_mod::lemma_fundamental_div_mod(it, n);
    vstd::arithmetic::div_mod::lemma_fundamental_div_mod(it - 1, per_line);
    let q = it / n;
    let m = it % n;
    let q1 = (it - 1) / per_line;
    assert(q <= per_line && (m > 0 ==> q + 1 <= per_line)) by (nonlinear_arith)
        requires
            it == n * q + m,
            0 <= m < n,
            it - 1 == per_line * q1 + (it - 1) % per_line,
            0 <= (it - 1) % per_line < per_line,
            n == q1 + 1,
            per_line >= 1,
            it >= 1,
    ;
    if let Some(value) = layout.rows.value(row) {
        if let Shape::Lines { lines, per_line: width } = shape_of(value@) {
            lines_cover(it, lines as int, width as int);
        }
    }
}

/// The colours and sizes of the launcher. The two fractions are the bits of
/// IEEE 754 doubles.
#[derive(Debug, Clone, PartialEq, Eq)]
pub struct Theme {
    pub ground: String,
    pub surface: String,
    pub fg: String,
    pub muted: String,
    pub dim: String,
    pub accent: String,
    pub error: String,
    pub border: String,
    pub icon_size: i32,
    pub logo: String,
    pub logo_size: i32,
    pub max_height_fraction_bits: u64,
    pub max_width_fraction_bits: u64,
    pub width: i32,
}

/// The looks where none are configured.
pub open spec fn is_default_theme(t: Theme) -> bool {
    &&& t.ground@ == "#0A0A0A"@
    &&& t.surface@ == "#0E0E0E"@
    &&& t.fg@ == "#F0F0F0"@
    &&& t.muted@ == "#999999"@
    &&& t.dim@ == "#444444"@
    &&& t.accent@ == "#22C55E"@
    &&& t.error@ == "#B91322"@
    &&& t.border@ == "#1C1C1C"@
    &&& t.icon_size == 20
    &&& t.logo@ == Seq::<char>::empty()
    &&& t.logo_size == 28
    &&& t.max_height_fraction_bits == 0x3FEC_CCCC_CCCC_CCCDu64
    &&& t.max_width_fraction_bits == 0x3FEC_CCCC_CCCC_CCCDu64
    &&& t.width == 560
}

impl Default for Theme {
    fn default() -> (r: Self)
        ensures
            is_default_theme(r),
    {
        Theme {
            ground: "#0A0A0A".to_owned(),
            surface: "#0E0E0E".to_owned(),
            fg: "#F0F0F0".to_owned(),
            muted: "#999999".to_owned(),
            dim: "#444444".to_owned(),
            accent: "#22C55E".to_owned(),
            error: "#B91322".to_owned(),
            border: "#1C1C1C".to_owned(),
            icon_size: 20,
            logo: String::new(),
            logo_size: 28,
            max_height_fraction_bits: 0x3FEC_CCCC_CCCC_CCCD,
            max_width_fraction_bits: 0x3FEC_CCCC_CCCC_CCCD,
            width: 560,
        }
    }
}

/// The launcher's configuration.
#[derive(Debug, Clone, PartialEq, Eq)]
pub struct Config {
    pub machines: Vec<MachineConfig>,
    pub surface: String,
    pub exit_on_focus_loss: bool,
    pub keyboard: String,
    pub outputs: Vec<String>,
    pub terminal: Vec<String>,
    pub theme: Theme,
    pub layout: Layout,
    pub folders: Vec<String>,
    pub subrows: TextMap<Vec<SubRow>>,
    /// Key bindings by key name; none switches a key off.
    pub keys: TextMap<Option<String>>,
}

/// The rows that a folder asks for: one for each of its named rungs, then its
/// own.
pub open spec fn rows_asked(folder: Seq<char>, subrows: Option<Vec<SubRow>>) -> Seq<Seq<char>> {
    match subrows {
        Some(list) => Seq::new(list@.len(), |i: int| folder + "/"@ + list@[i].name@).push(folder),
        None => seq![folder],
    }
}

/// `label` at the end, unless it is there already.
pub open spec fn with_row(rows: Seq<Seq<char>>, label: Seq<char>) -> Seq<Seq<char>> {
    if rows.contains(label) {
        rows
    } else {
        rows.push(label)
    }
}

/// Each label in turn at the end, unless it is there already.
pub open spec fn with_rows(rows: Seq<Seq<char>>, labels: Seq<Seq<char>>) -> Seq<Seq<char>>
    decreases labels.len(),
{
    if labels.len() == 0 {
        rows
    } else {
        with_row(with_rows(rows, labels.drop_last()), labels.last())
    }
}

/// The rows of the folders in order, without the folder `Other`.
pub open spec fn named_rows(folders: Seq<String>, subrows: TextMap<Vec<SubRow>>) -> Seq<
    Seq<char>,
>
    decreases folders.len(),
{
    if folders.len() == 0 {
        Seq::empty()
    } else {
        let before = named_rows(folders.drop_last(), subrows);
        let folder = folders.last()@;
        if folder == "Other"@ {
            before
        } else {
            with_rows(before, rows_asked(folder, subrows.value(folder)))
        }
    }
}

/// A name and the machine that it belongs to.
pub open spec fn machine_tokens(machine: MachineConfig, index: int) -> Seq<(Seq<char>, int)> {
    Seq::new(
        machine.aliases@.len() + 1,
        |i: int|
            (
                if i == 0 {
                    machine.name@
                } else {
                    machine.aliases@[i - 1]@
                },
                index,
            ),
    )
}

/// The names and aliases of all machines, in order.
pub open spec fn all_tokens(machines: Seq<MachineConfig>) -> Seq<(Seq<char>, int)>
    decreases machines.len(),
{
    if machines.len() == 0 {
        Seq::empty()
    } else {
        all_tokens(machines.drop_last()) + machine_tokens(machines.last(), machines.len() - 1)
    }
}

/// Whether two tokens are the same but for their case.
pub open spec fn tokens_collide(tokens: Seq<(Seq<char>, int)>, j: int, i: int) -> bool {
    0 <= j < i < tokens.len() && crate::text::lowercase(tokens[j].0) == crate::text::lowercase(
        tokens[i].0,
    )
}

/// Whether `i` is the first token that collides with one before it, which is
/// `j`.
pub open spec fn first_collision(tokens: Seq<(Seq<char>, int)>, j: int, i: int) -> bool {
    &&& tokens_collide(tokens, j, i)
    &&& forall|b: int, a: int| a < i ==> !#[trigger] tokens_collide(tokens, b, a)
}

/// The configuration rules, in the order in which they are checked: what breaks
/// rule `k`.
pub open spec fn breaks_rule(c: Config, k: int) -> bool {
    if k == 0 {
        c.machines@.len() > MAX_MACHINES
    } else if k == 1 {
        c.rows().len() > MAX_ROWS
    } else if k == 2 {
        c.surface@ != "layer"@ && c.surface@ != "window"@
    } else if k == 3 {
        c.keyboard@ != "exclusive"@ && c.keyboard@ != "ondemand"@ && c.keyboard@ != "none"@
    } else if k == 4 {
        c.theme.icon_size <= 0 || c.theme.logo_size <= 0 || c.theme.width <= 0
    } else if k == 5 {
        c.theme.icon_size > MAX_ICON_SIZE || c.theme.logo_size > MAX_LOGO_SIZE || c.theme.width
            > MAX_WINDOW_WIDTH
    } else if k == 6 {
        c.layout.max_items_per_line == 0 || c.layout.max_inline_items == 0
            || c.layout.max_label_chars <= 0
    } else if k == 7 {
        c.layout.max_inline_items > 3 * c.layout.max_items_per_line
    } else if k == 8 {
        !(1 <= c.theme.max_height_fraction_bits <= ONE_BITS)
    } else if k == 9 {
        !(1 <= c.theme.max_width_fraction_bits <= ONE_BITS)
    } else if k == 10 {
        exists|i: int|
            0 <= i < c.outputs@.len() && crate::text::trimmed((#[trigger] c.outputs@[i])@).len()
                == 0
    } else if k == 11 {
        exists|i: int|
            0 <= i < c.machines@.len() && crate::text::trimmed(
                (#[trigger] c.machines@[i]).name@,
            ).len() == 0
    } else if k == 12 {
        exists|i: int|
            0 <= i < c.machines@.len() && (#[trigger] c.machines@[i]).inventory@.len() == 0
    } else if k == 13 {
        exists|i: int|
            0 <= i < c.machines@.len() && (#[trigger] c.machines@[i]).inventory_timeout_ms == 0
    } else if k == 14 {
        exists|j: int, i: int| #[trigger] tokens_collide(all_tokens(c.machines@), j, i)
    } else if k == 15 {
        exists|i: int|
            0 <= i < c.subrows.entries@.len() && undeclared_subrows(
                c,
                (#[trigger] c.subrows.entries@[i]).0@,
            )
    } else if k == 16 {
        exists|i: int|
            0 <= i < c.layout.rows.entries@.len() && row_complaint(
                c,
                (#[trigger] c.layout.rows.entries@[i]).0@,
            ) is Some
    } else {
        false
    }
}

/// The number of rules.
pub open spec fn rule_count() -> int {
    17
}

/// Whether named rungs hang below a folder that is not configured.
pub open spec fn undeclared_subrows(c: Config, folder: Seq<char>) -> bool {
    folder == "Other"@ || !crate::text::texts(c.folders@).contains(folder)
}

/// The complaint about the shape of a row.
pub open spec fn row_complaint(c: Config, row: Seq<char>) -> Option<Seq<char>> {
    if !c.rows().contains(row) {
        Some(
            "layout.rows."@ + row
                + " has no configured row; use Folder/subrow for named rungs"@,
        )
    } else {
        match c.layout.rows.value(row) {
            Some(value) => shape_complaint(row, value@),
            None => None,
        }
    }
}

/// The complaint about two tokens that collide.
pub open spec fn collision_text(machines: Seq<MachineConfig>, j: int, i: int) -> Seq<char> {
    let tokens = all_tokens(machines);
    "machine names and aliases must be unique case-insensitively; "@ + crate::text::debug_text(
        tokens[i].0,
    ) + " collides between "@ + crate::text::debug_text(machines[tokens[j].1].name@) + " and "@
        + crate::text::debug_text(machines[tokens[i].1].name@)
}

/// Whether a message is the one for the broken rule `k`.
pub open spec fn complains(c: Config, k: int, message: Seq<char>) -> bool {
    if k == 0 {
        message == "at most "@ + crate::text::decimal_text(MAX_MACHINES as nat)
            + " machines may be configured"@
    } else if k == 1 {
        message == "at most "@ + crate::text::decimal_text(MAX_ROWS as nat)
            + " launcher rows may be configured"@
    } else if k == 2 {
        message == "surface must be `layer` or `window`, got "@ + crate::text::debug_text(c.surface@)
    } else if k == 3 {
        message == "keyboard must be `exclusive`, `ondemand`, or `none`, got "@
            + crate::text::debug_text(c.keyboard@)
    } else if k == 4 {
        message == "theme icon_size, logo_size, and width must be positive"@
    } else if k == 5 {
        message == "theme icon_size, logo_size, and width must be at most 256, 1024, and 16384"@
    } else if k == 6 {
        message
            == "layout max_items_per_line, max_inline_items, and max_label_chars must be positive"@
    } else if k == 7 {
        message == "layout.max_inline_items must fit within three lines at max_items_per_line"@
    } else if k == 8 {
        message == "theme.max_height_fraction must be greater than 0 and at most 1"@
    } else if k == 9 {
        message == "theme.max_width_fraction must be greater than 0 and at most 1"@
    } else if k == 10 {
        message == "outputs must not contain empty names"@
    } else if k == 11 {
        message == "machine names must not be empty"@
    } else if k == 12 {
        message == "every machine needs an inventory command"@
    } else if k == 13 {
        message == "machine inventory_timeout_ms must be positive"@
    } else if k == 14 {
        exists|j: int, i: int|
            {
                &&& #[trigger] first_collision(all_tokens(c.machines@), j, i)
                &&& message == collision_text(c.machines@, j, i)
            }
    } else if k == 15 {
        exists|i: int|
            {
                &&& 0 <= i < c.subrows.entries@.len()
                &&& undeclared_subrows(c, (#[trigger] c.subrows.entries@[i]).0@)
                &&& message == "subrows."@ + c.subrows.entries@[i].0@
                    + " has no declared folder; subrows must belong to a configured folder other than Other"@
            }
    } else {
        exists|i: int|
            {
                &&& 0 <= i < c.layout.rows.entries@.len()
                &&& row_complaint(c, (#[trigger] c.layout.rows.entries@[i]).0@) == Some(message)
            }
    }
}

/// Whether a message names the first rule that the configuration breaks.
pub open spec fn first_complaint(c: Config, message: Seq<char>) -> bool {
    exists|k: int|
        {
            &&& 0 <= k < rule_count()
            &&& #[trigger] breaks_rule(c, k)
            &&& forall|j: int| 0 <= j < k ==> !#[trigger] breaks_rule(c, j)
            &&& complains(c, k, message)
        }
}

impl Config {
    /// The rows of the launcher.
    pub open spec fn rows(self) -> Seq<Seq<char>> {
        named_rows(self.folders@, self.subrows).push("Other"@)
    }

    /// Whether no rule is broken.
    pub open spec fn valid(self) -> bool {
        forall|k: int| 0 <= k < rule_count() ==> !#[trigger] breaks_rule(self, k)
    }

    /// The rows of the launcher: for each folder its named rungs and then the
    /// folder itself, each label once, and the catch-all row `Other` last.
    pub fn folder_rows(&self) -> (r: Vec<String>)
        ensures
            crate::text::texts(r@) == self.rows(),
    {
        let mut rows: Vec<String> = Vec::new();
        let mut i: usize = 0;
        assert(crate::text::texts(rows@) =~= Seq::empty());
        while i < self.folders.len()
            invariant
                i <= self.folders.len(),
                crate::text::texts(rows@) == named_rows(
                    self.folders@.take(i as int),
                    self.subrows,
                ),
            decreases self.folders.len() - i,
        {
            let folder = &self.folders[i];
            assert(self.folders@.take(i + 1).drop_last() =~= self.folders@.take(i as int));
            if !same_text(folder.as_str(), "Other") {
                let ghost before = crate::text::texts(rows@);
                let ghost asked = rows_asked(folder@, self.subrows.value(folder@));
                if let Some(list) = self.subrows.get(folder.as_str()) {
                    let mut n: usize = 0;
                    assert(asked.take(0) =~= Seq::empty());
                    while n < list.len()
                        invariant
                            n <= list.len(),
                            asked == rows_asked(folder@, Some(*list)),
                            crate::text::texts(rows@) == with_rows(before, asked.take(n as int)),
                        decreases list.len() - n,
                    {
                        let mut label = folder.clone();
                        label.append("/");
                        label.append(list[n].name.as_str());
                        proof {
                            assert(asked.take(n + 1).drop_last() =~= asked.take(n as int));
                            assert(asked.take(n + 1).last() == label@);
                        }
                        push_row(&mut rows, label);
                        n = n + 1;
                    }
                    assert(asked.drop_last() =~= asked.take(n as int));
                } else {
                    assert(asked.drop_last() =~= Seq::empty());
                }
                proof {
                    assert(asked.last() == folder@);
                    assert(crate::text::texts(rows@) == with_rows(before, asked.drop_last()));
                    assert(self.folders@.take(i + 1).last() == *folder);
                }
                push_row(&mut rows, folder.clone());
                assert(crate::text::texts(rows@) == with_rows(before, asked));
            }
            i = i + 1;
        }
        assert(self.folders@.take(i as int) =~= self.folders@);
        let ghost before = crate::text::texts(rows@);
        rows.push("Other".to_owned());
        assert(crate::text::texts(rows@) =~= before.push("Other"@));
        rows
    }

    /// The configuration itself, if it keeps every rule; else the complaint
    /// about the first rule that it breaks.
    #[verifier::rlimit(40)]
    pub fn validate(self) -> (r: Result<Self, String>)
        ensures
            match r {
                Ok(config) => self.valid() && config == self,
                Err(message) => first_complaint(self, message@),
            },
    {
        if self.machines.len() > MAX_MACHINES {
            let mut message = "at most ".to_owned();
            message.append(decimal(MAX_MACHINES as u128).as_str());
            message.append(" machines may be configured");
            assert(breaks_rule(self, 0));
            return Err(message);
        }
        let rows = self.folder_rows();
        assert(crate::text::texts(rows@).len() == rows@.len());
        if rows.len() > MAX_ROWS {
            let mut message = "at most ".to_owned();
            message.append(decimal(MAX_ROWS as u128).as_str());
            message.append(" launcher rows may be configured");
            assert(breaks_rule(self, 1));
            return Err(message);
        }
        if !same_text(self.surface.as_str(), "layer") && !same_text(
            self.surface.as_str(),
            "window",
        ) {
            let mut message = "surface must be `layer` or `window`, got ".to_owned();
            message.append(debug_form(self.surface.as_str()).as_str());
            assert(breaks_rule(self, 2));
            return Err(message);
        }
        if !same_text(self.keyboard.as_str(), "exclusive") && !same_text(
            self.keyboard.as_str(),
            "ondemand",
        ) && !same_text(self.keyboard.as_str(), "none") {
            let mut message =
                "keyboard must be `exclusive`, `ondemand`, or `none`, got ".to_owned();
            message.append(debug_form(self.keyboard.as_str()).as_str());
            assert(breaks_rule(self, 3));
            return Err(message);
        }
        if let Some(message) = self.size_complaint() {
            return Err(message);
        }
        if let Some(message) = self.machine_complaint() {
            return Err(message);
        }
        if let Some(message) = self.row_name_complaint(&rows) {
            return Err(message);
        }
        assert(self.valid()) by {
            assert forall|k: int| 0 <= k < rule_count() implies !#[trigger] breaks_rule(
                self,
                k,
            ) by {
                if k < 4 {
                } else if k < 10 {
                } else if k < 15 {
                } else {
                }
            }
        }
        Ok(self)
    }

    /// The complaint about sizes and fractions: rules four to nine.
    fn size_complaint(&self) -> (r: Option<String>)
        requires
            forall|j: int| 0 <= j < 4 ==> !#[trigger] breaks_rule(*self, j),
        ensures
            match r {
                Some(message) => first_complaint(*self, message@),
                None => forall|j: int| 0 <= j < 10 ==> !#[trigger] breaks_rule(*self, j),
            },
    {
        if self.theme.icon_size <= 0 || self.theme.logo_size <= 0 || self.theme.width <= 0 {
            assert(breaks_rule(*self, 4));
            return Some("theme icon_size, logo_size, and width must be positive".to_owned());
        }
        if self.theme.icon_size > MAX_ICON_SIZE || self.theme.logo_size > MAX_LOGO_SIZE
            || self.theme.width > MAX_WINDOW_WIDTH {
            assert(breaks_rule(*self, 5));
            return Some(
                "theme icon_size, logo_size, and width must be at most 256, 1024, and 16384".to_owned(),
            );
        }
        if self.layout.max_items_per_line == 0 || self.layout.max_inline_items == 0
            || self.layout.max_label_chars <= 0 {
            assert(breaks_rule(*self, 6));
            return Some(
                "layout max_items_per_line, max_inline_items, and max_label_chars must be positive".to_owned(),
            );
        }
        if self.layout.max_items_per_line <= usize::MAX / 3 && self.layout.max_inline_items
            > self.layout.max_items_per_line * 3 {
            assert(breaks_rule(*self, 7));
            return Some(
                "layout.max_inline_items must fit within three lines at max_items_per_line".to_owned(),
            );
        }
        assert(!breaks_rule(*self, 7));
        if self.theme.max_height_fraction_bits < 1 || self.theme.max_height_fraction_bits
            > ONE_BITS {
            assert(breaks_rule(*self, 8));
            return Some(
                "theme.max_height_fraction must be greater than 0 and at most 1".to_owned(),
            );
        }
        if self.theme.max_width_fraction_bits < 1 || self.theme.max_width_fraction_bits > ONE_BITS {
            assert(breaks_rule(*self, 9));
            return Some("theme.max_width_fraction must be greater than 0 and at most 1".to_owned());
        }
        None
    }

    /// The complaint about outputs and machines: rules ten to fourteen.
    fn machine_complaint(&self) -> (r: Option<String>)
        requires
            forall|j: int| 0 <= j < 10 ==> !#[trigger] breaks_rule(*self, j),
        ensures
            match r {
                Some(message) => first_complaint(*self, message@),
                None => forall|j: int| 0 <= j < 15 ==> !#[trigger] breaks_rule(*self, j),
            },
    {
        let mut i: usize = 0;
        while i < self.outputs.len()
            invariant
                i <= self.outputs.len(),
                forall|j: int| 0 <= j < 10 ==> !#[trigger] breaks_rule(*self, j),
                forall|k: int|
                    0 <= k < i ==> crate::text::trimmed((#[trigger] self.outputs@[k])@).len() > 0,
            decreases self.outputs.len() - i,
        {
            let name = trim(self.outputs[i].as_str());
            if name.as_str().is_empty() {
                assert(crate::text::trimmed(self.outputs@[i as int]@).len() == 0);
                assert(breaks_rule(*self, 10));
                return Some("outputs must not contain empty names".to_owned());
            }
            i = i + 1;
        }
        assert(!breaks_rule(*self, 10));
        i = 0;
        while i < self.machines.len()
            invariant
                i <= self.machines.len(),
                forall|j: int| 0 <= j < 11 ==> !#[trigger] breaks_rule(*self, j),
                forall|k: int|
                    0 <= k < i ==> crate::text::trimmed(
                        (#[trigger] self.machines@[k]).name@,
                    ).len() > 0,
            decreases self.machines.len() - i,
        {
            let name = trim(self.machines[i].name.as_str());
            if name.as_str().is_empty() {
                assert(crate::text::trimmed(self.machines@[i as int].name@).len() == 0);
                assert(breaks_rule(*self, 11));
                return Some("machine names must not be empty".to_owned());
            }
            i = i + 1;
        }
        assert(!breaks_rule(*self, 11));
        i = 0;
        while i < self.machines.len()
            invariant
                i <= self.machines.len(),
                forall|j: int| 0 <= j < 12 ==> !#[trigger] breaks_rule(*self, j),
                forall|k: int| 0 <= k < i ==> (#[trigger] self.machines@[k]).inventory@.len() > 0,
            decreases self.machines.len() - i,
        {
            if self.machines[i].inventory.len() == 0 {
                assert(self.machines@[i as int].inventory@.len() == 0);
                assert(breaks_rule(*self, 12));
                return Some("every machine needs an inventory command".to_owned());
            }
            i = i + 1;
        }
        assert(!breaks_rule(*self, 12));
        i = 0;
        while i < self.machines.len()
            invariant
                i <= self.machines.len(),
                forall|j: int| 0 <= j < 13 ==> !#[trigger] breaks_rule(*self, j),
                forall|k: int|
                    0 <= k < i ==> (#[trigger] self.machines@[k]).inventory_timeout_ms != 0,
            decreases self.machines.len() - i,
        {
            if self.machines[i].inventory_timeout_ms == 0 {
                assert(self.machines@[i as int].inventory_timeout_ms == 0);
                assert(breaks_rule(*self, 13));
                return Some("machine inventory_timeout_ms must be positive".to_owned());
            }
            i = i + 1;
        }
        assert(!breaks_rule(*self, 13));
        let tokens = machine_token_list(&self.machines);
        match find_collision(&tokens) {
            Some((j, i)) => {
                proof {
                    let spec_tokens = all_tokens(self.machines@);
                    assert(token_views(tokens@) == spec_tokens);
                    tokens_name_machines(self.machines@, j as int);
                    tokens_name_machines(self.machines@, i as int);
                    assert(token_views(tokens@)[j as int] == (tokens@[j as int].0@, tokens@[j as int].1 as int));
                    assert(token_views(tokens@)[i as int] == (tokens@[i as int].0@, tokens@[i as int].1 as int));
                    assert(tokens_collide(spec_tokens, j as int, i as int));
                    assert(breaks_rule(*self, 14));
                }
                let mut message =
                    "machine names and aliases must be unique case-insensitively; ".to_owned();
                message.append(debug_form(tokens[i].0.as_str()).as_str());
                message.append(" collides between ");
                message.append(debug_form(self.machines[tokens[j].1].name.as_str()).as_str());
                message.append(" and ");
                message.append(debug_form(self.machines[tokens[i].1].name.as_str()).as_str());
                assert(first_collision(all_tokens(self.machines@), j as int, i as int));
                assert(complains(*self, 14, message@));
                return Some(message);
            },
            None => {},
        }
        assert(!breaks_rule(*self, 14));
        None
    }

    /// The complaint about names of rows: rules fifteen and sixteen.
    fn row_name_complaint(&self, rows: &Vec<String>) -> (r: Option<String>)
        requires
            crate::text::texts(rows@) == self.rows(),
            forall|j: int| 0 <= j < 15 ==> !#[trigger] breaks_rule(*self, j),
        ensures
            match r {
                Some(message) => first_complaint(*self, message@),
                None => forall|j: int| 0 <= j < 17 ==> !#[trigger] breaks_rule(*self, j),
            },
    {
        let mut i: usize = 0;
        while i < self.subrows.entries.len()
            invariant
                i <= self.subrows.entries.len(),
                forall|j: int| 0 <= j < 15 ==> !#[trigger] breaks_rule(*self, j),
                forall|k: int|
                    0 <= k < i ==> !undeclared_subrows(
                        *self,
                        (#[trigger] self.subrows.entries@[k]).0@,
                    ),
            decreases self.subrows.entries.len() - i,
        {
            let folder = &self.subrows.entries[i].0;
            if same_text(folder.as_str(), "Other") || !contains_text(
                &self.folders,
                folder.as_str(),
            ) {
                let mut message = "subrows.".to_owned();
                message.append(folder.as_str());
                message.append(
                    " has no declared folder; subrows must belong to a configured folder other than Other",
                );
                proof {
                    assert(undeclared_subrows(*self, self.subrows.entries@[i as int].0@));
                    assert(breaks_rule(*self, 15));
                    assert(complains(*self, 15, message@));
                }
                return Some(message);
            }
            i = i + 1;
        }
        assert(!breaks_rule(*self, 15));
        i = 0;
        while i < self.layout.rows.entries.len()
            invariant
                i <= self.layout.rows.entries.len(),
                crate::text::texts(rows@) == self.rows(),
                forall|j: int| 0 <= j < 16 ==> !#[trigger] breaks_rule(*self, j),
                forall|k: int|
                    0 <= k < i ==> row_complaint(
                        *self,
                        (#[trigger] self.layout.rows.entries@[k]).0@,
                    ) is None,
            decreases self.layout.rows.entries.len() - i,
        {
            let row = &self.layout.rows.entries[i].0;
            if !contains_text(rows, row.as_str()) {
                let mut message = "layout.rows.".to_owned();
                message.append(row.as_str());
                message.append(" has no configured row; use Folder/subrow for named rungs");
                proof {
                    assert(row_complaint(*self, self.layout.rows.entries@[i as int].0@) == Some(
                        message@,
                    ));
                    assert(breaks_rule(*self, 16));
                    assert(complains(*self, 16, message@));
                }
                return Some(message);
            }
            if let Err(message) = self.layout.override_shape(row.as_str()) {
                proof {
                    assert(row_complaint(*self, self.layout.rows.entries@[i as int].0@) == Some(
                        message@,
                    ));
                    assert(breaks_rule(*self, 16));
                    assert(complains(*self, 16, message@));
                }
                return Some(message);
            }
            i = i + 1;
        }
        assert(!breaks_rule(*self, 16));
        None
    }
}

/// A row at the end of the list, unless its label is there already.
fn push_row(rows: &mut Vec<String>, label: String)
    ensures
        crate::text::texts(final(rows)@) == with_row(crate::text::texts(old(rows)@), label@),
{
    let ghost before = rows@;
    if !contains_text(rows, label.as_str()) {
        rows.push(label);
        assert(crate::text::texts(rows@) =~= crate::text::texts(before).push(label@));
    }
}

/// The views of a token list.
spec fn token_views(tokens: Seq<(String, usize)>) -> Seq<(Seq<char>, int)> {
    Seq::new(tokens.len(), |i: int| (tokens[i].0@, tokens[i].1 as int))
}

/// The names and aliases of all machines, each with its machine's index.
fn machine_token_list(machines: &Vec<MachineConfig>) -> (r: Vec<(String, usize)>)
    ensures
        token_views(r@) == all_tokens(machines@),
        forall|i: int| 0 <= i < r@.len() ==> (#[trigger] r@[i]).1 < machines@.len(),
{
    let mut tokens: Vec<(String, usize)> = Vec::new();
    let mut m: usize = 0;
    assert(token_views(tokens@) =~= Seq::empty());
    while m < machines.len()
        invariant
            m <= machines.len(),
            token_views(tokens@) == all_tokens(machines@.take(m as int)),
            forall|i: int| 0 <= i < tokens@.len() ==> (#[trigger] tokens@[i]).1 < machines@.len(),
        decreases machines.len() - m,
    {
        let machine = &machines[m];
        let ghost before = token_views(tokens@);
        let ghost own = machine_tokens(*machine, m as int);
        assert(machines@.take(m + 1).drop_last() =~= machines@.take(m as int));
        tokens.push((machine.name.clone(), m));
        assert(token_views(tokens@) =~= before + own.take(1));
        let mut a: usize = 0;
        while a < machine.aliases.len()
            invariant
                a <= machine.aliases.len(),
                m < machines.len(),
                own == machine_tokens(*machine, m as int),
                token_views(tokens@) == before + own.take(a + 1),
                forall|i: int|
                    0 <= i < tokens@.len() ==> (#[trigger] tokens@[i]).1 < machines@.len(),
            decreases machine.aliases.len() - a,
        {
            let ghost shorter = tokens@;
            tokens.push((machine.aliases[a].clone(), m));
            proof {
                assert(own[a + 1] == (machine.aliases@[a as int]@, m as int));
                assert(token_views(tokens@) =~= token_views(shorter).push(own[a + 1]));
                assert(own.take(a + 2) =~= own.take(a + 1).push(own[a + 1]));
                assert(before + own.take(a + 2) =~= (before + own.take(a + 1)).push(own[a + 1]));
            }
            a = a + 1;
        }
        assert(own.take(a + 1) =~= own);
        m = m + 1;
    }
    assert(machines@.take(m as int) =~= machines@);
    tokens
}

/// The first token that is the same as one before it but for its case.
fn find_collision(tokens: &Vec<(String, usize)>) -> (r: Option<(usize, usize)>)
    ensures
        match r {
            Some((j, i)) => j < i < tokens@.len() && first_collision(
                token_views(tokens@),
                j as int,
                i as int,
            ),
            None => forall|j: int, i: int| !#[trigger] tokens_collide(token_views(tokens@), j, i),
        },
{
    let mut lower: Vec<String> = Vec::new();
    let ghost views = token_views(tokens@);
    let mut i: usize = 0;
    while i < tokens.len()
        invariant
            i <= tokens.len(),
            views == token_views(tokens@),
            lower@.len() == i,
            forall|k: int| 0 <= k < i ==> (#[trigger] lower@[k])@ == crate::text::lowercase(
                views[k].0,
            ),
            forall|b: int, a: int| a < i ==> !#[trigger] tokens_collide(views, b, a),
        decreases tokens.len() - i,
    {
        let folded = to_lowercase(tokens[i].0.as_str());
        let mut j: usize = 0;
        while j < i
            invariant
                j <= i < tokens.len(),
                views == token_views(tokens@),
                lower@.len() == i,
                folded@ == crate::text::lowercase(views[i as int].0),
                forall|k: int| 0 <= k < i ==> (#[trigger] lower@[k])@ == crate::text::lowercase(
                    views[k].0,
                ),
                forall|b: int, a: int| a < i ==> !#[trigger] tokens_collide(views, b, a),
                forall|b: int| b < j ==> !#[trigger] tokens_collide(views, b, i as int),
            decreases i - j,
        {
            if same_text(lower[j].as_str(), folded.as_str()) {
                return Some((j, i));
            }
            j = j + 1;
        }
        lower.push(folded);
        i = i + 1;
    }
    None
}

/// Every token belongs to a machine of the list.
proof fn tokens_name_machines(machines: Seq<MachineConfig>, i: int)
    requires
        0 <= i < all_tokens(machines).len(),
    ensures
        0 <= all_tokens(machines)[i].1 < machines.len(),
    decreases machines.len(),
{
    if machines.len() > 0 {
        let before = all_tokens(machines.drop_last());
        if i < before.len() {
            tokens_name_machines(machines.drop_last(), i);
        }
    }
}

proof fn with_rows_distinct(rows: Seq<Seq<char>>, labels: Seq<Seq<char>>)
    requires
        rows.no_duplicates(),
        !rows.contains("Other"@),
        !labels.contains("Other"@),
    ensures
        with_rows(rows, labels).no_duplicates(),
        !with_rows(rows, labels).contains("Other"@),
    decreases labels.len(),
{
    if labels.len() > 0 {
        assert(labels[labels.len() - 1] == labels.last());
        assert(!labels.drop_last().contains("Other"@)) by {
            if labels.drop_last().contains("Other"@) {
                let w = choose|w: int|
                    0 <= w < labels.drop_last().len() && labels.drop_last()[w] == "Other"@;
                assert(labels[w] == "Other"@);
            }
        }
        with_rows_distinct(rows, labels.drop_last());
        let before = with_rows(rows, labels.drop_last());
        let after = with_row(before, labels.last());
        if !before.contains(labels.last()) {
            assert(after == before.push(labels.last()));
            assert forall|w: int| 0 <= w < after.len() implies after[w] != "Other"@ by {
                if w < before.len() {
                    assert(before[w] == after[w]);
                    assert(before.contains(before[w]));
                }
            }
            assert forall|a: int, b: int|
                0 <= a < after.len() && 0 <= b < after.len() && a != b implies after[a]
                != after[b] by {
                if a < before.len() {
                    assert(before.contains(before[a]));
                }
                if b < before.len() {
                    assert(before.contains(before[b]));
                }
            }
        }
    }
}

proof fn asked_rows_are_not_other(folder: Seq<char>, subrows: Option<Vec<SubRow>>)
    requires
        folder != "Other"@,
    ensures
        !rows_asked(folder, subrows).contains("Other"@),
{
    let asked = rows_asked(folder, subrows);
    reveal_strlit("Other");
    reveal_strlit("/");
    assert forall|w: int| 0 <= w < asked.len() implies asked[w] != "Other"@ by {
        if w < asked.len() - 1 {
            let label = asked[w];
            assert(label == folder + "/"@ + subrows->0@[w].name@);
            assert(label[folder.len() as int] == '/');
            if label == "Other"@ {
                assert(label.len() >= folder.len() + 1);
                assert("Other"@.len() == 5);
                assert("Other"@[0] == 'O' && "Other"@[1] == 't' && "Other"@[2] == 'h'
                    && "Other"@[3] == 'e' && "Other"@[4] == 'r');
            }
        }
    }
}

proof fn named_rows_distinct(folders: Seq<String>, subrows: TextMap<Vec<SubRow>>)
    ensures
        named_rows(folders, subrows).no_duplicates(),
        !named_rows(folders, subrows).contains("Other"@),
    decreases folders.len(),
{
    if folders.len() > 0 {
        named_rows_distinct(folders.drop_last(), subrows);
        let folder = folders.last()@;
        if folder != "Other"@ {
            asked_rows_are_not_other(folder, subrows.value(folder));
            with_rows_distinct(
                named_rows(folders.drop_last(), subrows),
                rows_asked(folder, subrows.value(folder)),
            );
        }
    }
}

/// No row occurs twice, and the catch-all row `Other` is there exactly once, at
/// the end.
pub proof fn rows_are_distinct(config: Config)
    ensures
        config.rows().no_duplicates(),
        config.rows().last() == "Other"@,
        forall|i: int|
            0 <= i < config.rows().len() - 1 ==> #[trigger] config.rows()[i] != "Other"@,
{
    named_rows_distinct(config.folders@, config.subrows);
    let before = named_rows(config.folders@, config.subrows);
    let rows = config.rows();
    assert forall|i: int| 0 <= i < rows.len() - 1 implies #[trigger] rows[i] != "Other"@ by {
        assert(rows[i] == before[i]);
        assert(before.contains(before[i]));
    }
    assert forall|a: int, b: int|
        0 <= a < rows.len() && 0 <= b < rows.len() && a != b implies rows[a] != rows[b] by {
        if a < before.len() {
            assert(before.contains(before[a]));
        }
        if b < before.len() {
            assert(before.contains(before[b]));
        }
    }
}

/// A valid configuration gives every row a line width to fall back on.
pub proof fn valid_config_has_line_width(config: Config)
    requires
        config.valid(),
    ensures
        config.layout.max_items_per_line > 0,
        config.layout.max_inline_items <= 3 * config.layout.max_items_per_line,
{
    assert(!breaks_rule(config, 6));
    assert(!breaks_rule(config, 7));
}

/// Where the configuration file is: the explicit path, else below the
/// configuration directory, else below the home directory. Empty values count
/// as missing.
pub fn config_path(
    explicit: Option<String>,
    config_home: Option<String>,
    home: Option<String>,
) -> (r: Option<String>)
    ensures
        crate::text::opt_text(r) == (if set_text(explicit) is Some {
            set_text(explicit)
        } else if set_text(config_home) is Some {
            Some(
                crate::text::path_joined(
                    crate::text::path_joined(set_text(config_home)->0, "cbar"@),
                    "launcher.json"@,
                ),
            )
        } else if set_text(home) is Some {
            Some(
                crate::text::path_joined(
                    crate::text::path_joined(
                        crate::text::path_joined(set_text(home)->0, ".config"@),
                        "cbar"@,
                    ),
                    "launcher.json"@,
                ),
            )
        } else {
            None
        }),
{
    if let Some(path) = explicit {
        if !path.as_str().is_empty() {
            return Some(path);
        }
    }
    let mut base: Option<String> = None;
    if let Some(path) = config_home {
        if !path.as_str().is_empty() {
            base = Some(path);
        }
    }
    if base.is_none() {
        if let Some(path) = home {
            if !path.as_str().is_empty() {
                base = Some(join_path(path.as_str(), ".config"));
            }
        }
    }
    match base {
        Some(directory) => Some(
            join_path(join_path(directory.as_str(), "cbar").as_str(), "launcher.json"),
        ),
        None => None,
    }
}

/// The text of an environment value that is there and not empty.
pub open spec fn set_text(value: Option<String>) -> Option<Seq<char>> {
    match value {
        Some(text) if text@.len() > 0 => Some(text@),
        _ => None,
    }
}

/// Whether a file may be read as a configuration.
pub fn config_file_allowed(is_file: bool, length: u64) -> (r: bool)
    ensures
        r == (is_file && length <= MAX_CONFIG_BYTES),
        r <==> is_file && length <= 4194304,
{
    is_file && length <= MAX_CONFIG_BYTES
}

/// Counts one more configured machine, and complains where it is one too many.
pub fn count_machine(machines: &mut usize) -> (r: Option<String>)
    requires
        *old(machines) <= MAX_MACHINES,
    ensures
        *final(machines) == *old(machines) + 1,
        crate::text::opt_text(r) == (if *old(machines) + 1 > MAX_MACHINES {
            Some(
                "at most "@ + crate::text::decimal_text(MAX_MACHINES as nat)
                    + " machines may be configured"@,
            )
        } else {
            None
        }),
{
    *machines = *machines + 1;
    if *machines > MAX_MACHINES {
        let mut message = "at most ".to_owned();
        message.append(decimal(MAX_MACHINES as u128).as_str());
        message.append(" machines may be configured");
        Some(message)
    } else {
        None
    }
}

impl MachineConfig {
    /// A machine of which only the name and the inventory command are given.
    pub fn new(name: String, inventory: Vec<String>) -> (r: Self)
        ensures
            r.name == name,
            r.inventory == inventory,
            r.aliases@.len() == 0,
            r.accent@ == "#22C55E"@,
            r.inventory_timeout_ms == 5000,
            r.launch@.len() == 0,
    {
        MachineConfig {
            name,
            aliases: Vec::new(),
            accent: "#22C55E".to_owned(),
            inventory,
            inventory_timeout_ms: 5000,
            launch: Vec::new(),
        }
    }
}

impl Config {
    /// A configuration of which only the machines are given.
    pub fn new(machines: Vec<MachineConfig>) -> (r: Self)
        ensures
            r.machines == machines,
            r.surface@ == "layer"@,
            r.exit_on_focus_loss,
            r.keyboard@ == "exclusive"@,
            r.outputs@.len() == 0,
            r.terminal@.len() == 0,
            is_default_theme(r.theme),
            is_default_layout(r.layout),
            r.folders@.len() == 0,
            r.subrows.entries@.len() == 0,
            r.keys.entries@.len() == 0,
    {
        Config {
            machines,
            surface: "layer".to_owned(),
            exit_on_focus_loss: true,
            keyboard: "exclusive".to_owned(),
            outputs: Vec::new(),
            terminal: Vec::new(),
            theme: Theme::default(),
            layout: Layout::default(),
            folders: Vec::new(),
            subrows: TextMap::new(),
            keys: TextMap::new(),
        }
    }
}

/// A complaint about a file.
pub open spec fn about_file(path: Seq<char>, complaint: Seq<char>) -> Seq<char> {
    path + ": "@ + complaint
}

fn complain_about(path: &str, complaint: &str) -> (r: String)
    ensures
        r@ == about_file(path@, complaint@),
{
    let mut message = path.to_owned();
    message.append(": ");
    message.append(complaint);
    message
}

/// What looking for the configuration file found.
#[derive(Debug)]
pub enum ConfigSource {
    /// There is no place to look for one.
    Nowhere,
    /// There is no such file.
    Missing,
    /// The file could not be opened or read.
    Failed { path: String, error: String },
    /// The file may not be read as a configuration.
    Refused { path: String },
    /// The file was read: so many bytes. `shape` is what a first look at them
    /// found wrong, `decoded` what the JSON reader made of them.
    Text { path: String, bytes: u64, shape: Result<(), String>, decoded: Result<Config, String> },
}

/// The complaint about a file that may not be read.
pub open spec fn refused_file(path: Seq<char>) -> Seq<char> {
    path + " is not a regular launcher config at most "@ + crate::text::decimal_text(
        MAX_CONFIG_BYTES as nat,
    ) + " bytes"@
}

/// The complaint about a file that has grown too long.
pub open spec fn long_file(path: Seq<char>) -> Seq<char> {
    path + " exceeds the "@ + crate::text::decimal_text(MAX_CONFIG_BYTES as nat)
        + "-byte launcher config limit"@
}

/// What is wrong with a file that was read, before the whole of it is decoded.
pub open spec fn text_fault(path: Seq<char>, bytes: u64, shape: Result<(), String>) -> Option<
    Seq<char>,
> {
    if bytes > MAX_CONFIG_BYTES {
        Some(long_file(path))
    } else {
        match shape {
            Err(complaint) => Some(about_file(path, complaint@)),
            Ok(()) => None,
        }
    }
}

/// Judges the length of a file that was read and a first look at it, before the
/// whole of it is decoded.
pub fn check_text(path: &str, bytes: u64, shape: &Result<(), String>) -> (r: Result<(), String>)
    ensures
        match text_fault(path@, bytes, *shape) {
            Some(fault) => r is Err && r->Err_0@ == fault,
            None => r is Ok,
        },
{
    if bytes > MAX_CONFIG_BYTES {
        let mut message = path.to_owned();
        message.append(" exceeds the ");
        message.append(decimal(MAX_CONFIG_BYTES as u128).as_str());
        message.append("-byte launcher config limit");
        return Err(message);
    }
    match shape {
        Err(complaint) => Err(complain_about(path, complaint.as_str())),
        Ok(()) => Ok(()),
    }
}

/// The configuration, or none where no file is there. Every complaint names the
/// file.
pub fn load(source: ConfigSource) -> (r: Result<Option<Config>, String>)
    ensures
        match source {
            ConfigSource::Nowhere | ConfigSource::Missing => r == Ok::<Option<Config>, String>(
                None,
            ),
            ConfigSource::Failed { path, error } => r is Err && r->Err_0@ == about_file(
                path@,
                error@,
            ),
            ConfigSource::Refused { path } => r is Err && r->Err_0@ == refused_file(path@),
            ConfigSource::Text { path, bytes, shape, decoded } => match text_fault(
                path@,
                bytes,
                shape,
            ) {
                Some(fault) => r is Err && r->Err_0@ == fault,
                None => match decoded {
                    Err(complaint) => r is Err && r->Err_0@ == about_file(path@, complaint@),
                    Ok(config) => match r {
                        Ok(loaded) => config.valid() && loaded == Some(config),
                        Err(message) => exists|complaint: Seq<char>| #[trigger]
                            first_complaint(config, complaint) && message@ == about_file(
                                path@,
                                complaint,
                            ),
                    },
                },
            },
        },
{
    match source {
        ConfigSource::Nowhere => Ok(None),
        ConfigSource::Missing => Ok(None),
        ConfigSource::Failed { path, error } => Err(complain_about(path.as_str(), error.as_str())),
        ConfigSource::Refused { path } => {
            let mut message = path;
            message.append(" is not a regular launcher config at most ");
            message.append(decimal(MAX_CONFIG_BYTES as u128).as_str());
            message.append(" bytes");
            Err(message)
        },
        ConfigSource::Text { path, bytes, shape, decoded } => {
            if let Err(fault) = check_text(path.as_str(), bytes, &shape) {
                return Err(fault);
            }
            match decoded {
                Err(complaint) => Err(complain_about(path.as_str(), complaint.as_str())),
                Ok(config) => match config.validate() {
                    Ok(config) => Ok(Some(config)),
                    Err(complaint) => Err(complain_about(path.as_str(), complaint.as_str())),
                },
            }
        },
    }
}

/// A configuration is valid exactly if it keeps these rules: not too many
/// machines and rows; a known surface and keyboard mode; sizes above zero and
/// within their limits; a layout whose lines hold what it puts inline; fractions
/// above zero and at most one; outputs and machines with names, machines with an
/// inventory command and a time for it, and names and aliases of their own; rungs
/// of declared folders only; and shapes of existing rows only.
pub proof fn rules_of_a_valid_configuration(c: Config)
    ensures
        c.valid() <==> {
            &&& c.machines@.len() <= 256
            &&& c.rows().len() <= 1024
            &&& c.surface@ == "layer"@ || c.surface@ == "window"@
            &&& c.keyboard@ == "exclusive"@ || c.keyboard@ == "ondemand"@ || c.keyboard@ == "none"@
            &&& 0 < c.theme.icon_size <= 256
            &&& 0 < c.theme.logo_size <= 1024
            &&& 0 < c.theme.width <= 16384
            &&& 0 < c.layout.max_items_per_line
            &&& 0 < c.layout.max_inline_items <= 3 * c.layout.max_items_per_line
            &&& 0 < c.layout.max_label_chars
            &&& 0 < c.theme.max_height_fraction_bits <= 0x3FF0_0000_0000_0000
            &&& 0 < c.theme.max_width_fraction_bits <= 0x3FF0_0000_0000_0000
            &&& forall|i: int|
                0 <= i < c.outputs@.len() ==> crate::text::trimmed(
                    (#[trigger] c.outputs@[i])@,
                ).len() > 0
            &&& forall|i: int|
                0 <= i < c.machines@.len() ==> crate::text::trimmed(
                    (#[trigger] c.machines@[i]).name@,
                ).len() > 0 && c.machines@[i].inventory@.len() > 0
                    && c.machines@[i].inventory_timeout_ms > 0
            &&& forall|j: int, i: int|
                0 <= j < i < all_tokens(c.machines@).len() ==> crate::text::lowercase(
                    (#[trigger] all_tokens(c.machines@)[j]).0,
                ) != crate::text::lowercase((#[trigger] all_tokens(c.machines@)[i]).0)
            &&& forall|i: int|
                0 <= i < c.subrows.entries@.len() ==> ({
                    let folder = (#[trigger] c.subrows.entries@[i]).0@;
                    folder != "Other"@ && crate::text::texts(c.folders@).contains(folder)
                })
            &&& forall|i: int|
                0 <= i < c.layout.rows.entries@.len() ==> ({
                    let row = (#[trigger] c.layout.rows.entries@[i]).0@;
                    let value = c.layout.rows.value(row);
                    c.rows().contains(row) && (value is Some ==> shape_of(value->0@) is Rail
                        || shape_of(value->0@) is Lines)
                })
        },
{
    let tokens = all_tokens(c.machines@);
    if c.valid() {
        assert(!breaks_rule(c, 0) && !breaks_rule(c, 1) && !breaks_rule(c, 2) && !breaks_rule(c, 3));
        assert(!breaks_rule(c, 4) && !breaks_rule(c, 5) && !breaks_rule(c, 6) && !breaks_rule(c, 7));
        assert(!breaks_rule(c, 8) && !breaks_rule(c, 9) && !breaks_rule(c, 10));
        assert(!breaks_rule(c, 11) && !breaks_rule(c, 12) && !breaks_rule(c, 13));
        assert(!breaks_rule(c, 14) && !breaks_rule(c, 15) && !breaks_rule(c, 16));
        assert forall|j: int, i: int| 0 <= j < i < tokens.len() implies crate::text::lowercase(
            (#[trigger] tokens[j]).0,
        ) != crate::text::lowercase((#[trigger] tokens[i]).0) by {
            assert(!tokens_collide(tokens, j, i));
        }
        assert forall|i: int| 0 <= i < c.subrows.entries@.len() implies ({
            let folder = (#[trigger] c.subrows.entries@[i]).0@;
            folder != "Other"@ && crate::text::texts(c.folders@).contains(folder)
        }) by {
            assert(!undeclared_subrows(c, c.subrows.entries@[i].0@));
        }
        assert forall|i: int| 0 <= i < c.layout.rows.entries@.len() implies ({
            let row = (#[trigger] c.layout.rows.entries@[i]).0@;
            let value = c.layout.rows.value(row);
            c.rows().contains(row) && (value is Some ==> shape_of(value->0@) is Rail || shape_of(
                value->0@,
            ) is Lines)
        }) by {
            assert(row_complaint(c, c.layout.rows.entries@[i].0@) is None);
        }
    } else {
        let k = choose|k: int| 0 <= k < rule_count() && #[trigger] breaks_rule(c, k);
        if k == 14 {
            let (j, i) = choose|j: int, i: int| #[trigger] tokens_collide(tokens, j, i);
            assert(crate::text::lowercase(tokens[j].0) == crate::text::lowercase(tokens[i].0));
        }
    }
}

proof fn token_of(machines: Seq<MachineConfig>, m: int, t: int) -> (k: int)
    requires
        0 <= m < machines.len(),
        0 <= t <= machines[m].aliases@.len(),
    ensures
        0 <= k < all_tokens(machines).len(),
        all_tokens(machines)[k].1 == m,
        all_tokens(machines)[k].0 == (if t == 0 {
            machines[m].name@
        } else {
            machines[m].aliases@[t - 1]@
        }),
    decreases machines.len(),
{
    let before = all_tokens(machines.drop_last());
    if m == machines.len() - 1 {
        let k = before.len() + t;
        assert(all_tokens(machines)[k] == machine_tokens(machines.last(), m)[t]);
        k
    } else {
        assert(machines.drop_last()[m] == machines[m]);
        token_of(machines.drop_last(), m, t)
    }
}

/// In a valid configuration no name or alias of a machine is that of another
/// machine, whatever the case.
pub proof fn machines_have_names_of_their_own(c: Config, a: int, s: int, b: int, t: int)
    requires
        c.valid(),
        0 <= a < b < c.machines@.len(),
        0 <= s <= c.machines@[a].aliases@.len(),
        0 <= t <= c.machines@[b].aliases@.len(),
    ensures
        crate::text::lowercase(
            if s == 0 {
                c.machines@[a].name@
            } else {
                c.machines@[a].aliases@[s - 1]@
            },
        ) != crate::text::lowercase(
            if t == 0 {
                c.machines@[b].name@
            } else {
                c.machines@[b].aliases@[t - 1]@
            },
        ),
{
    rules_of_a_valid_configuration(c);
    let x = token_of(c.machines@, a, s);
    let y = token_of(c.machines@, b, t);
    let tokens = all_tokens(c.machines@);
    if x < y {
        assert(crate::text::lowercase(tokens[x].0) != crate::text::lowercase(tokens[y].0));
    } else {
        assert(crate::text::lowercase(tokens[y].0) != crate::text::lowercase(tokens[x].0));
    }
}

/// A shape of one to three lines and a width above zero is read as what it says.
pub proof fn shapes_are_read_as_written(lines: nat, per_line: nat, value: Seq<char>)
    requires
        1 <= lines <= 3,
        1 <= per_line <= usize::MAX,
        value == crate::text::decimal_text(lines) + seq!['x'] + crate::text::decimal_text(per_line),
    ensures
        shape_of("rail"@) is Rail,
        shape_of(value) == (Shape::Lines { lines, per_line }),
{
    let l = crate::text::decimal_text(lines);
    let w = crate::text::decimal_text(per_line);
    crate::text::decimal_text_reads_back(lines);
    crate::text::decimal_text_reads_back(per_line);
    reveal_strlit("rail");
    crate::text::decimal_text_appends_a_digit(0, lines);
    let at = l.len() as int;
    assert(l.len() == 1);
    assert(value[0] == l[0]);
    assert(value[at] == 'x');
    assert(value != "rail"@) by {
        assert("rail"@[0] == 'r');
    }
    crate::text::first_at_is_first(value, 'x');
    assert(crate::text::first_at(value, 'x') == Some(at));
    assert(value.take(at) =~= l);
    assert(value.skip(at + 1) =~= w);
}

/// Whatever is read as a shape of lines has one to three of them and a width
/// above zero; a row without a shape, or with a wrong one, is not a shape.
pub proof fn shapes_keep_their_bounds(value: Seq<char>)
    ensures
        shape_of(value) is Lines ==> 1 <= shape_of(value)->lines <= 3 && 1 <= shape_of(
            value,
        )->per_line,
        shape_of(value) is Rail <==> value == "rail"@,
        !value.contains('x') && value != "rail"@ ==> shape_of(value) is NoSeparator,
        value.contains('x') && value != "rail"@ ==> shape_of(value) is Lines || shape_of(
            value,
        ) is BadNumbers,
{
    crate::text::first_at_is_first(value, 'x');
}

/// A row is put inline exactly if its items fit into its lines, and it takes no
/// more lines than it needs: without the last one there would be too little room.
pub proof fn inline_rows_fit(layout: Layout, row: Seq<char>, items: usize)
    requires
        layout.max_items_per_line > 0,
    ensures
        items == 0 ==> layout.lines_of(row, items as int) == Some(Seq::<usize>::empty()),
        items > 0 && layout.rows.value(row) is Some && shape_of(layout.rows.value(row)->0@) is Rail
            ==> layout.lines_of(row, items as int) is None,
        items > 0 && layout.rows.value(row) is Some && shape_of(layout.rows.value(row)->0@) is Lines
            ==> (layout.lines_of(row, items as int) is Some <==> items <= shape_of(
            layout.rows.value(row)->0@,
        )->lines * shape_of(layout.rows.value(row)->0@)->per_line),
        items > 0 && layout.rows.value(row) is None ==> (layout.lines_of(row, items as int) is Some
            <==> items <= layout.max_inline_items),
        items > 0 && layout.lines_of(row, items as int) is Some ==> {
            let n = layout.lines_of(row, items as int)->0.len();
            &&& n >= 1
            &&& (n - 1) * layout.width_of(row) < items <= n * layout.width_of(row)
        },
        layout.rows.value(row) is None ==> layout.width_of(row) == layout.max_items_per_line,
        layout.rows.value(row) is Some && shape_of(layout.rows.value(row)->0@) is Lines
            ==> layout.width_of(row) == shape_of(layout.rows.value(row)->0@)->per_line,
{
    if items > 0 && layout.lines_of(row, items as int) is Some {
        let w = layout.width_of(row);
        let it = items as int;
        let n = lines_needed(it, w);
        assert(w >= 1);
        assert(n >= 1 && (n - 1) * w < it <= n * w) by (nonlinear_arith)
            requires
                w >= 1,
                it >= 1,
                n == (it + w - 1) / w,
        ;
        assert(layout.lines_of(row, it)->0 == balanced(it, n));
    }
}

proof fn with_rows_hold(rows: Seq<Seq<char>>, labels: Seq<Seq<char>>, label: Seq<char>)
    ensures
        with_rows(rows, labels).contains(label) <==> rows.contains(label) || labels.contains(label),
    decreases labels.len(),
{
    if labels.len() > 0 {
        let fewer = labels.drop_last();
        let before = with_rows(rows, fewer);
        let all = with_rows(rows, labels);
        with_rows_hold(rows, fewer, label);
        if before.contains(label) {
            let k = choose|k: int| 0 <= k < before.len() && before[k] == label;
            assert(all[k] == label);
        }
        if labels.contains(label) {
            let k = choose|k: int| 0 <= k < labels.len() && labels[k] == label;
            if k < fewer.len() {
                assert(fewer[k] == label);
            } else {
                if !before.contains(label) {
                    assert(all[before.len() as int] == label);
                }
            }
        }
        if fewer.contains(label) {
            let k = choose|k: int| 0 <= k < fewer.len() && fewer[k] == label;
            assert(labels[k] == label);
        }
        if all.contains(label) && !before.contains(label) {
            let k = choose|k: int| 0 <= k < all.len() && all[k] == label;
            if k < before.len() {
                assert(before[k] == label);
            }
            assert(labels[labels.len() - 1] == label);
        }
    } else {
        assert(!labels.contains(label));
    }
}

proof fn named_rows_hold(
    folders: Seq<String>,
    subrows: TextMap<Vec<SubRow>>,
    f: int,
    label: Seq<char>,
)
    requires
        0 <= f < folders.len(),
        folders[f]@ != "Other"@,
        rows_asked(folders[f]@, subrows.value(folders[f]@)).contains(label),
    ensures
        named_rows(folders, subrows).contains(label),
    decreases folders.len(),
{
    let before = named_rows(folders.drop_last(), subrows);
    let folder = folders.last()@;
    with_rows_hold(before, rows_asked(folder, subrows.value(folder)), label);
    if f < folders.len() - 1 {
        named_rows_hold(folders.drop_last(), subrows, f, label);
    }
}

proof fn named_rows_come(
    folders: Seq<String>,
    subrows: TextMap<Vec<SubRow>>,
    label: Seq<char>,
) -> (f: int)
    requires
        named_rows(folders, subrows).contains(label),
    ensures
        0 <= f < folders.len(),
        folders[f]@ != "Other"@,
        rows_asked(folders[f]@, subrows.value(folders[f]@)).contains(label),
    decreases folders.len(),
{
    let before = named_rows(folders.drop_last(), subrows);
    let folder = folders.last()@;
    with_rows_hold(before, rows_asked(folder, subrows.value(folder)), label);
    if before.contains(label) {
        named_rows_come(folders.drop_last(), subrows, label)
    } else {
        folders.len() - 1
    }
}

/// There is a row for every folder but `Other` and one for each of its rungs,
/// labelled with the folder and the rung.
pub proof fn folders_and_rungs_have_rows(c: Config, f: int, i: int)
    requires
        0 <= f < c.folders@.len(),
        c.folders@[f]@ != "Other"@,
    ensures
        c.rows().contains(c.folders@[f]@),
        c.subrows.value(c.folders@[f]@) is Some && 0 <= i < c.subrows.value(
            c.folders@[f]@,
        )->0@.len() ==> c.rows().contains(
            c.folders@[f]@ + "/"@ + c.subrows.value(c.folders@[f]@)->0@[i].name@,
        ),
{
    let folder = c.folders@[f]@;
    let asked = rows_asked(folder, c.subrows.value(folder));
    let named = named_rows(c.folders@, c.subrows);
    assert(asked[asked.len() - 1] == folder);
    named_rows_hold(c.folders@, c.subrows, f, folder);
    let k = choose|k: int| 0 <= k < named.len() && named[k] == folder;
    assert(c.rows()[k] == folder);
    if c.subrows.value(folder) is Some && 0 <= i < c.subrows.value(folder)->0@.len() {
        let label = folder + "/"@ + c.subrows.value(folder)->0@[i].name@;
        assert(asked[i] == label);
        named_rows_hold(c.folders@, c.subrows, f, label);
        let k = choose|k: int| 0 <= k < named.len() && named[k] == label;
        assert(c.rows()[k] == label);
    }
}

/// There are no other rows but the last, `Other`.
pub proof fn rows_come_from_folders(c: Config, row: int) -> (f: int)
    requires
        0 <= row < c.rows().len() - 1,
    ensures
        0 <= f < c.folders@.len(),
        c.folders@[f]@ != "Other"@,
        c.rows()[row] == c.folders@[f]@ || (c.subrows.value(c.folders@[f]@) is Some && exists|
            i: int,
        |
            0 <= i < c.subrows.value(c.folders@[f]@)->0@.len() && c.rows()[row] == c.folders@[f]@
                + "/"@ + (#[trigger] c.subrows.value(c.folders@[f]@)->0@[i]).name@),
{
    let named = named_rows(c.folders@, c.subrows);
    assert(named.contains(named[row]));
    let f = named_rows_come(c.folders@, c.subrows, named[row]);
    let folder = c.folders@[f]@;
    let asked = rows_asked(folder, c.subrows.value(folder));
    let k = choose|k: int| 0 <= k < asked.len() && asked[k] == named[row];
    if k < asked.len() - 1 {
        let list = c.subrows.value(folder)->0@;
        assert(asked[k] == folder + "/"@ + list[k].name@);
    }
    f
}

/// Of a folder, the rows of the rungs come in their order, and before the row of
/// the folder itself.
pub proof fn rungs_come_before_their_folder(folder: Seq<char>, rungs: Vec<SubRow>, i: int)
    requires
        0 <= i < rungs@.len(),
    ensures
        rows_asked(folder, Some(rungs)).len() == rungs@.len() + 1,
        rows_asked(folder, Some(rungs))[i] == folder + "/"@ + rungs@[i].name@,
        rows_asked(folder, Some(rungs)).last() == folder,
        rows_asked(folder, None) == seq![folder],
{
}

/// A value that is not set, or empty, counts as missing.
pub proof fn empty_values_count_as_missing(value: Option<String>)
    ensures
        set_text(value) is Some <==> value is Some && value->0@.len() > 0,
        set_text(value) is Some ==> set_text(value)->0 == value->0@,
{
}

/// A file is read as a configuration only if it is short enough and its first
/// look found nothing wrong.
pub proof fn faults_of_a_file(path: Seq<char>, bytes: u64, shape: Result<(), String>)
    ensures
        text_fault(path, bytes, shape) is None <==> bytes <= 4194304 && shape is Ok,
        bytes <= 4194304 && shape is Err ==> text_fault(path, bytes, shape) == Some(
            path + ": "@ + shape->Err_0@,
        ),
{
}

/// The usual looks and layout.
pub proof fn usual_looks_and_layout(t: Theme, l: Layout)
    requires
        is_default_theme(t),
        is_default_layout(l),
    ensures
        t.ground@ == "#0A0A0A"@ && t.surface@ == "#0E0E0E"@ && t.fg@ == "#F0F0F0"@,
        t.muted@ == "#999999"@ && t.dim@ == "#444444"@ && t.accent@ == "#22C55E"@,
        t.error@ == "#B91322"@ && t.border@ == "#1C1C1C"@ && t.logo@.len() == 0,
        t.icon_size == 20 && t.logo_size == 28 && t.width == 560,
        t.max_height_fraction_bits == t.max_width_fraction_bits,
        0 < t.max_height_fraction_bits < ONE_BITS,
        l.equal_columns && l.max_items_per_line == 5 && l.max_inline_items == 12,
        l.max_label_chars == 16 && l.rows.entries@.len() == 0,
{
}

/// Of several broken rules the first is complained of: the numbers of machines
/// and rows, the surface, the keyboard, the sizes, the layout, the fractions, and
/// then names, commands and times.
pub proof fn first_broken_rule_is_told(c: Config, message: Seq<char>)
    requires
        first_complaint(c, message),
    ensures
        !c.valid(),
        ({
            let counts = c.machines@.len() <= 256 && c.rows().len() <= 1024;
            let surface = c.surface@ == "layer"@ || c.surface@ == "window"@;
            let keyboard = c.keyboard@ == "exclusive"@ || c.keyboard@ == "ondemand"@ || c.keyboard@
                == "none"@;
            let positive = c.theme.icon_size > 0 && c.theme.logo_size > 0 && c.theme.width > 0;
            let small = c.theme.icon_size <= 256 && c.theme.logo_size <= 1024 && c.theme.width
                <= 16384;
            let layout = c.layout.max_items_per_line > 0 && c.layout.max_inline_items > 0
                && c.layout.max_label_chars > 0;
            &&& c.machines@.len() > 256 ==> message == "at most "@ + crate::text::decimal_text(256)
                + " machines may be configured"@
            &&& c.machines@.len() <= 256 && c.rows().len() > 1024 ==> message == "at most "@
                + crate::text::decimal_text(1024) + " launcher rows may be configured"@
            &&& counts && !surface ==> message == "surface must be `layer` or `window`, got "@
                + crate::text::debug_text(c.surface@)
            &&& counts && surface && !keyboard ==> message
                == "keyboard must be `exclusive`, `ondemand`, or `none`, got "@
                + crate::text::debug_text(c.keyboard@)
            &&& counts && surface && keyboard && !positive ==> message
                == "theme icon_size, logo_size, and width must be positive"@
            &&& counts && surface && keyboard && positive && !small ==> message
                == "theme icon_size, logo_size, and width must be at most 256, 1024, and 16384"@
            &&& counts && surface && keyboard && positive && small && !layout ==> message
                == "layout max_items_per_line, max_inline_items, and max_label_chars must be positive"@
            &&& counts && surface && keyboard && positive && small && layout
                && c.layout.max_inline_items > 3 * c.layout.max_items_per_line ==> message
                == "layout.max_inline_items must fit within three lines at max_items_per_line"@
        }),
{
    let k = choose|k: int|
        {
            &&& 0 <= k < rule_count()
            &&& #[trigger] breaks_rule(c, k)
            &&& forall|j: int| 0 <= j < k ==> !#[trigger] breaks_rule(c, j)
            &&& complains(c, k, message)
        };
    assert(breaks_rule(c, k));
    if k > 0 {
        assert(!breaks_rule(c, 0));
    }
    if k > 1 {
        assert(!breaks_rule(c, 1));
    }
    if k > 2 {
        assert(!breaks_rule(c, 2));
    }
    if k > 3 {
        assert(!breaks_rule(c, 3));
    }
    if k > 4 {
        assert(!breaks_rule(c, 4));
    }
    if k > 5 {
        assert(!breaks_rule(c, 5));
    }
    if k > 6 {
        assert(!breaks_rule(c, 6));
    }
    if k > 7 {
        assert(!breaks_rule(c, 7));
    }
}

/// What is said of a machine: that a name is blank, a command is missing, or there
/// is no time for it, in this order, where nothing before is wrong.
pub proof fn machines_are_complained_of(c: Config, message: Seq<char>)
    requires
        first_complaint(c, message),
        forall|j: int| 0 <= j < 8 ==> !#[trigger] breaks_rule(c, j),
        1 <= c.theme.max_height_fraction_bits <= ONE_BITS,
        1 <= c.theme.max_width_fraction_bits <= ONE_BITS,
    ensures
        ({
            let outputs = forall|i: int|
                0 <= i < c.outputs@.len() ==> crate::text::trimmed(
                    (#[trigger] c.outputs@[i])@,
                ).len() > 0;
            let names = forall|i: int|
                0 <= i < c.machines@.len() ==> crate::text::trimmed(
                    (#[trigger] c.machines@[i]).name@,
                ).len() > 0;
            let commands = forall|i: int|
                0 <= i < c.machines@.len() ==> (#[trigger] c.machines@[i]).inventory@.len() > 0;
            let times = forall|i: int|
                0 <= i < c.machines@.len() ==> (#[trigger] c.machines@[i]).inventory_timeout_ms > 0;
            &&& !outputs ==> message == "outputs must not contain empty names"@
            &&& outputs && !names ==> message == "machine names must not be empty"@
            &&& outputs && names && !commands ==> message
                == "every machine needs an inventory command"@
            &&& outputs && names && commands && !times ==> message
                == "machine inventory_timeout_ms must be positive"@
        }),
{
    let k = choose|k: int|
        {
            &&& 0 <= k < rule_count()
            &&& #[trigger] breaks_rule(c, k)
            &&& forall|j: int| 0 <= j < k ==> !#[trigger] breaks_rule(c, j)
            &&& complains(c, k, message)
        };
    assert(breaks_rule(c, k));
    assert(k >= 8);
    assert(!breaks_rule(c, 8) && !breaks_rule(c, 9));
    if k > 10 {
        assert(!breaks_rule(c, 10));
    }
    if k > 11 {
        assert(!breaks_rule(c, 11));
    }
    if k > 12 {
        assert(!breaks_rule(c, 12));
    }
    if k > 13 {
        assert(!breaks_rule(c, 13));
    }
}

/// What is said of files names them.
pub proof fn files_are_named(path: Seq<char>, complaint: Seq<char>, row: Seq<char>, value: Seq<char>)
    ensures
        about_file(path, complaint) == path + ": "@ + complaint,
        refused_file(path) == path + " is not a regular launcher config at most "@
            + crate::text::decimal_text(4194304) + " bytes"@,
        long_file(path) == path + " exceeds the "@ + crate::text::decimal_text(4194304)
            + "-byte launcher config limit"@,
        shape_of(value) is NoSeparator ==> shape_complaint(row, value) == Some(
            "layout.rows."@ + row + " must be `rail` or a shape such as `1x6`, got "@
                + crate::text::debug_text(value),
        ),
        shape_of(value) is BadNumbers ==> shape_complaint(row, value) == Some(
            "layout.rows."@ + row + " must use one to three positive-width lines, got "@
                + crate::text::debug_text(value),
        ),
        shape_of(value) is Rail || shape_of(value) is Lines ==> shape_complaint(row, value) is None,
{
}

/// Where everything before is in order, a name or alias that occurs twice is
/// complained of, with the machines that it is of; then rungs without their
/// folder; then shapes of rows.
pub proof fn names_and_rows_are_complained_of(c: Config, message: Seq<char>)
    requires
        first_complaint(c, message),
        forall|j: int| 0 <= j < 14 ==> !#[trigger] breaks_rule(c, j),
    ensures
        ({
            let tokens = all_tokens(c.machines@);
            let collide = exists|j: int, i: int|
                0 <= j < i < tokens.len() && crate::text::lowercase((#[trigger] tokens[j]).0)
                    == crate::text::lowercase((#[trigger] tokens[i]).0);
            let undeclared = exists|i: int|
                0 <= i < c.subrows.entries@.len() && ((#[trigger] c.subrows.entries@[i]).0@
                    == "Other"@ || !crate::text::texts(c.folders@).contains(
                    c.subrows.entries@[i].0@,
                ));
            &&& collide ==> exists|j: int, i: int|
                {
                    &&& 0 <= j < i < tokens.len()
                    &&& crate::text::lowercase((#[trigger] tokens[j]).0) == crate::text::lowercase(
                        (#[trigger] tokens[i]).0,
                    )
                    &&& message == "machine names and aliases must be unique case-insensitively; "@
                        + crate::text::debug_text(tokens[i].0) + " collides between "@
                        + crate::text::debug_text(c.machines@[tokens[j].1].name@) + " and "@
                        + crate::text::debug_text(c.machines@[tokens[i].1].name@)
                }
            &&& !collide && undeclared ==> exists|i: int|
                {
                    &&& 0 <= i < c.subrows.entries@.len()
                    &&& (#[trigger] c.subrows.entries@[i]).0@ == "Other"@
                        || !crate::text::texts(c.folders@).contains(c.subrows.entries@[i].0@)
                    &&& message == "subrows."@ + c.subrows.entries@[i].0@
                        + " has no declared folder; subrows must belong to a configured folder other than Other"@
                }
            &&& !collide && !undeclared ==> exists|i: int|
                {
                    &&& 0 <= i < c.layout.rows.entries@.len()
                    &&& row_complaint(c, (#[trigger] c.layout.rows.entries@[i]).0@) == Some(message)
                }
        }),
{
    let tokens = all_tokens(c.machines@);
    let k = choose|k: int|
        {
            &&& 0 <= k < rule_count()
            &&& #[trigger] breaks_rule(c, k)
            &&& forall|j: int| 0 <= j < k ==> !#[trigger] breaks_rule(c, j)
            &&& complains(c, k, message)
        };
    assert(breaks_rule(c, k));
    assert(k >= 14);
    if exists|j: int, i: int|
        0 <= j < i < tokens.len() && crate::text::lowercase((#[trigger] tokens[j]).0)
            == crate::text::lowercase((#[trigger] tokens[i]).0) {
        let (j, i) = choose|j: int, i: int|
            0 <= j < i < tokens.len() && crate::text::lowercase((#[trigger] tokens[j]).0)
                == crate::text::lowercase((#[trigger] tokens[i]).0);
        assert(tokens_collide(tokens, j, i));
        assert(breaks_rule(c, 14));
        assert(k == 14);
    }
    if k == 14 {
        let (j, i) = choose|j: int, i: int|
            #[trigger] first_collision(tokens, j, i) && message == collision_text(
                c.machines@,
                j,
                i,
            );
        assert(tokens_collide(tokens, j, i));
        assert(crate::text::lowercase(tokens[j].0) == crate::text::lowercase(tokens[i].0));
    } else if exists|i: int|
        0 <= i < c.subrows.entries@.len() && ((#[trigger] c.subrows.entries@[i]).0@ == "Other"@
            || !crate::text::texts(c.folders@).contains(c.subrows.entries@[i].0@)) {
        let i = choose|i: int|
            0 <= i < c.subrows.entries@.len() && ((#[trigger] c.subrows.entries@[i]).0@
                == "Other"@ || !crate::text::texts(c.folders@).contains(
                c.subrows.entries@[i].0@,
            ));
        assert(undeclared_subrows(c, c.subrows.entries@[i].0@));
        assert(breaks_rule(c, 15));
        assert(k == 15);
    } else if k == 15 {
        let i = choose|i: int|
            {
                &&& 0 <= i < c.subrows.entries@.len()
                &&& undeclared_subrows(c, (#[trigger] c.subrows.entries@[i]).0@)
            };
        assert(undeclared_subrows(c, c.subrows.entries@[i].0@));
    }
}

/// A row that does not exist can have no shape, and a wrong shape of an existing
/// one is explained.
pub proof fn shapes_of_rows_are_complained_of(c: Config, row: Seq<char>)
    ensures
        !c.rows().contains(row) ==> row_complaint(c, row) == Some(
            "layout.rows."@ + row + " has no configured row; use Folder/subrow for named rungs"@,
        ),
        c.rows().contains(row) && c.layout.rows.value(row) is Some ==> row_complaint(c, row)
            == shape_complaint(row, c.layout.rows.value(row)->0@),
{
}

proof fn with_rows_begin(rows: Seq<Seq<char>>, labels: Seq<Seq<char>>)
    ensures
        rows.is_prefix_of(with_rows(rows, labels)),
    decreases labels.len(),
{
    if labels.len() > 0 {
        with_rows_begin(rows, labels.drop_last());
        let before = with_rows(rows, labels.drop_last());
        let all = with_rows(rows, labels);
        assert(before.is_prefix_of(all)) by {
            assert(before =~= all.subrange(0, before.len() as int));
        }
        assert(rows =~= all.subrange(0, rows.len() as int)) by {
            assert(rows =~= before.subrange(0, rows.len() as int));
            assert(before =~= all.subrange(0, before.len() as int));
            assert forall|i: int| 0 <= i < rows.len() implies rows[i] == all[i] by {
                assert(rows[i] == before.subrange(0, rows.len() as int)[i]);
                assert(before[i] == all.subrange(0, before.len() as int)[i]);
            }
        }
    } else {
        assert(rows =~= rows.subrange(0, rows.len() as int));
    }
}

/// The rows of a folder come behind those of the folders before it; a label that
/// has a row already gets no other, and a new one comes last.
pub proof fn rows_come_in_the_order_of_folders(
    folders: Seq<String>,
    folder: String,
    subrows: TextMap<Vec<SubRow>>,
    rows: Seq<Seq<char>>,
    label: Seq<char>,
)
    ensures
        named_rows(folders, subrows).is_prefix_of(named_rows(folders.push(folder), subrows)),
        folder@ == "Other"@ ==> named_rows(folders.push(folder), subrows) == named_rows(
            folders,
            subrows,
        ),
        rows.contains(label) ==> with_row(rows, label) == rows,
        !rows.contains(label) ==> with_row(rows, label) == rows.push(label),
{
    assert(folders.push(folder).drop_last() =~= folders);
    let before = named_rows(folders, subrows);
    if folder@ == "Other"@ {
        assert(before =~= before.subrange(0, before.len() as int));
    } else {
        with_rows_begin(before, rows_asked(folder@, subrows.value(folder@)));
    }
}

} // verus!
