//! Whether two configurations say the same.

use crate::column::{same_opt_text, same_texts};
use crate::config::{Config, Layout, MachineConfig, SubRow, Theme};
use crate::text::{same_text, TextMap};
use vstd::prelude::*;
use vstd::string::*;

verus! {

/// Whether two machines are configured alike.
pub open spec fn machine_same(a: MachineConfig, b: MachineConfig) -> bool {
    &&& a.name@ == b.name@
    &&& crate::text::texts(a.aliases@) == crate::text::texts(b.aliases@)
    &&& a.accent@ == b.accent@
    &&& crate::text::texts(a.inventory@) == crate::text::texts(b.inventory@)
    &&& a.inventory_timeout_ms == b.inventory_timeout_ms
    &&& crate::text::texts(a.launch@) == crate::text::texts(b.launch@)
}

/// Whether two lists of machines are configured alike.
pub open spec fn machines_same(a: Seq<MachineConfig>, b: Seq<MachineConfig>) -> bool {
    a.len() == b.len() && forall|i: int|
        0 <= i < a.len() ==> machine_same(#[trigger] a[i], b[i])
}

/// Whether two themes look alike.
pub open spec fn theme_same(a: Theme, b: Theme) -> bool {
    &&& a.ground@ == b.ground@
    &&& a.surface@ == b.surface@
    &&& a.fg@ == b.fg@
    &&& a.muted@ == b.muted@
    &&& a.dim@ == b.dim@
    &&& a.accent@ == b.accent@
    &&& a.error@ == b.error@
    &&& a.border@ == b.border@
    &&& a.icon_size == b.icon_size
    &&& a.logo@ == b.logo@
    &&& a.logo_size == b.logo_size
    &&& a.max_height_fraction_bits == b.max_height_fraction_bits
    &&& a.max_width_fraction_bits == b.max_width_fraction_bits
    &&& a.width == b.width
}

/// Whether two maps file the same texts.
pub open spec fn text_maps_same(a: TextMap<String>, b: TextMap<String>) -> bool {
    forall|key: Seq<char>|
        crate::text::opt_text(#[trigger] a.value(key)) == crate::text::opt_text(b.value(key))
}

/// Whether two layouts arrange alike.
pub open spec fn layout_same(a: Layout, b: Layout) -> bool {
    &&& a.equal_columns == b.equal_columns
    &&& a.max_items_per_line == b.max_items_per_line
    &&& a.max_inline_items == b.max_inline_items
    &&& a.max_label_chars == b.max_label_chars
    &&& text_maps_same(a.rows, b.rows)
}

/// What a list of rungs holds.
pub open spec fn rungs_view(list: Seq<SubRow>) -> Seq<(Seq<char>, Seq<Seq<char>>)> {
    Seq::new(list.len(), |i: int| (list[i].name@, crate::text::texts(list[i].apps@)))
}

/// What a filed list of rungs holds.
pub open spec fn filed_rungs(list: Option<Vec<SubRow>>) -> Option<
    Seq<(Seq<char>, Seq<Seq<char>>)>,
> {
    match list {
        Some(list) => Some(rungs_view(list@)),
        None => None,
    }
}

/// Whether two maps file the same rungs.
pub open spec fn rung_maps_same(a: TextMap<Vec<SubRow>>, b: TextMap<Vec<SubRow>>) -> bool {
    forall|key: Seq<char>| filed_rungs(#[trigger] a.value(key)) == filed_rungs(b.value(key))
}

/// What a filed key binding holds.
pub open spec fn filed_binding(binding: Option<Option<String>>) -> Option<Option<Seq<char>>> {
    match binding {
        Some(action) => Some(crate::text::opt_text(action)),
        None => None,
    }
}

/// Whether two maps file the same key bindings.
pub open spec fn key_maps_same(a: TextMap<Option<String>>, b: TextMap<Option<String>>) -> bool {
    forall|key: Seq<char>| filed_binding(#[trigger] a.value(key)) == filed_binding(b.value(key))
}

/// Whether two configurations say the same.
pub open spec fn config_same(a: Config, b: Config) -> bool {
    &&& machines_same(a.machines@, b.machines@)
    &&& a.surface@ == b.surface@
    &&& a.exit_on_focus_loss == b.exit_on_focus_loss
    &&& a.keyboard@ == b.keyboard@
    &&& crate::text::texts(a.outputs@) == crate::text::texts(b.outputs@)
    &&& crate::text::texts(a.terminal@) == crate::text::texts(b.terminal@)
    &&& theme_same(a.theme, b.theme)
    &&& layout_same(a.layout, b.layout)
    &&& crate::text::texts(a.folders@) == crate::text::texts(b.folders@)
    &&& rung_maps_same(a.subrows, b.subrows)
    &&& key_maps_same(a.keys, b.keys)
}

fn same_machines(a: &Vec<MachineConfig>, b: &Vec<MachineConfig>) -> (r: bool)
    ensures
        r == machines_same(a@, b@),
{
    if a.len() != b.len() {
        return false;
    }
    let mut i: usize = 0;
    while i < a.len()
        invariant
            i <= a.len(),
            a.len() == b.len(),
            forall|k: int| 0 <= k < i ==> machine_same(#[trigger] a@[k], b@[k]),
        decreases a.len() - i,
    {
        let x = &a[i];
        let y = &b[i];
        if !(same_text(x.name.as_str(), y.name.as_str()) && same_texts(&x.aliases, &y.aliases)
            && same_text(x.accent.as_str(), y.accent.as_str()) && same_texts(
            &x.inventory,
            &y.inventory,
        ) && x.inventory_timeout_ms == y.inventory_timeout_ms && same_texts(
            &x.launch,
            &y.launch,
        )) {
            assert(!machine_same(a@[i as int], b@[i as int]));
            return false;
        }
        i = i + 1;
    }
    true
}

fn same_theme(a: &Theme, b: &Theme) -> (r: bool)
    ensures
        r == theme_same(*a, *b),
{
    same_text(a.ground.as_str(), b.ground.as_str()) && same_text(
        a.surface.as_str(),
        b.surface.as_str(),
    ) && same_text(a.fg.as_str(), b.fg.as_str()) && same_text(a.muted.as_str(), b.muted.as_str())
        && same_text(a.dim.as_str(), b.dim.as_str()) && same_text(
        a.accent.as_str(),
        b.accent.as_str(),
    ) && same_text(a.error.as_str(), b.error.as_str()) && same_text(
        a.border.as_str(),
        b.border.as_str(),
    ) && a.icon_size == b.icon_size && same_text(a.logo.as_str(), b.logo.as_str()) && a.logo_size
        == b.logo_size && a.max_height_fraction_bits == b.max_height_fraction_bits
        && a.max_width_fraction_bits == b.max_width_fraction_bits && a.width == b.width
}

proof fn filed_none<V>(entries: Seq<(String, V)>, key: Seq<char>)
    requires
        forall|i: int| 0 <= i < entries.len() ==> (#[trigger] entries[i]).0@ != key,
    ensures
        crate::text::filed(entries, key) is None,
    decreases entries.len(),
{
    if entries.len() > 0 {
        let rest = entries.drop_first();
        assert(entries[0].0@ != key);
        assert forall|i: int| 0 <= i < rest.len() implies (#[trigger] rest[i]).0@ != key by {
            assert(rest[i] == entries[i + 1]);
        }
        filed_none(rest, key);
    }
}

fn texts_agree(a: &TextMap<String>, b: &TextMap<String>) -> (r: bool)
    ensures
        r == forall|i: int|
            0 <= i < a.entries@.len() ==> crate::text::opt_text(
                a.value((#[trigger] a.entries@[i]).0@),
            ) == crate::text::opt_text(b.value(a.entries@[i].0@)),
{
    let mut i: usize = 0;
    while i < a.entries.len()
        invariant
            i <= a.entries.len(),
            forall|k: int|
                0 <= k < i ==> crate::text::opt_text(a.value((#[trigger] a.entries@[k]).0@))
                    == crate::text::opt_text(b.value(a.entries@[k].0@)),
        decreases a.entries.len() - i,
    {
        let key = a.entries[i].0.as_str();
        let same = match (a.get(key), b.get(key)) {
            (Some(x), Some(y)) => same_text(x.as_str(), y.as_str()),
            (None, None) => true,
            _ => false,
        };
        if !same {
            assert(a.entries@[i as int].0@ == key@);
            return false;
        }
        i = i + 1;
    }
    true
}

fn same_text_maps(a: &TextMap<String>, b: &TextMap<String>) -> (r: bool)
    ensures
        r == text_maps_same(*a, *b),
{
    let r = texts_agree(a, b) && texts_agree(b, a);
    proof {
        if r {
            assert forall|key: Seq<char>| crate::text::opt_text(#[trigger] a.value(key))
                == crate::text::opt_text(b.value(key)) by {
                if exists|i: int| 0 <= i < a.entries@.len() && (#[trigger] a.entries@[i]).0@ == key {
                } else if exists|i: int|
                    0 <= i < b.entries@.len() && (#[trigger] b.entries@[i]).0@ == key {
                } else {
                    filed_none(a.entries@, key);
                    filed_none(b.entries@, key);
                }
            }
        }
    }
    r
}

fn same_rungs(a: &Vec<SubRow>, b: &Vec<SubRow>) -> (r: bool)
    ensures
        r == (rungs_view(a@) == rungs_view(b@)),
{
    if a.len() != b.len() {
        assert(rungs_view(a@).len() != rungs_view(b@).len());
        return false;
    }
    let mut i: usize = 0;
    while i < a.len()
        invariant
            i <= a.len(),
            a.len() == b.len(),
            forall|k: int| 0 <= k < i ==> #[trigger] rungs_view(a@)[k] == rungs_view(b@)[k],
        decreases a.len() - i,
    {
        if !(same_text(a[i].name.as_str(), b[i].name.as_str()) && same_texts(
            &a[i].apps,
            &b[i].apps,
        )) {
            assert(rungs_view(a@)[i as int] != rungs_view(b@)[i as int]);
            return false;
        }
        i = i + 1;
    }
    assert(rungs_view(a@) =~= rungs_view(b@));
    true
}

fn rungs_agree(a: &TextMap<Vec<SubRow>>, b: &TextMap<Vec<SubRow>>) -> (r: bool)
    ensures
        r == forall|i: int|
            0 <= i < a.entries@.len() ==> filed_rungs(a.value((#[trigger] a.entries@[i]).0@))
                == filed_rungs(b.value(a.entries@[i].0@)),
{
    let mut i: usize = 0;
    while i < a.entries.len()
        invariant
            i <= a.entries.len(),
            forall|k: int|
                0 <= k < i ==> filed_rungs(a.value((#[trigger] a.entries@[k]).0@)) == filed_rungs(
                    b.value(a.entries@[k].0@),
                ),
        decreases a.entries.len() - i,
    {
        let key = a.entries[i].0.as_str();
        let same = match (a.get(key), b.get(key)) {
            (Some(x), Some(y)) => same_rungs(x, y),
            (None, None) => true,
            _ => false,
        };
        if !same {
            assert(a.entries@[i as int].0@ == key@);
            return false;
        }
        i = i + 1;
    }
    true
}

fn same_rung_maps(a: &TextMap<Vec<SubRow>>, b: &TextMap<Vec<SubRow>>) -> (r: bool)
    ensures
        r == rung_maps_same(*a, *b),
{
    let r = rungs_agree(a, b) && rungs_agree(b, a);
    proof {
        if r {
            assert forall|key: Seq<char>| filed_rungs(#[trigger] a.value(key)) == filed_rungs(
                b.value(key),
            ) by {
                if exists|i: int| 0 <= i < a.entries@.len() && (#[trigger] a.entries@[i]).0@ == key {
                } else if exists|i: int|
                    0 <= i < b.entries@.len() && (#[trigger] b.entries@[i]).0@ == key {
                } else {
                    filed_none(a.entries@, key);
                    filed_none(b.entries@, key);
                }
            }
        }
    }
    r
}

fn keys_agree(a: &TextMap<Option<String>>, b: &TextMap<Option<String>>) -> (r: bool)
    ensures
        r == forall|i: int|
            0 <= i < a.entries@.len() ==> filed_binding(a.value((#[trigger] a.entries@[i]).0@))
                == filed_binding(b.value(a.entries@[i].0@)),
{
    let mut i: usize = 0;
    while i < a.entries.len()
        invariant
            i <= a.entries.len(),
            forall|k: int|
                0 <= k < i ==> filed_binding(a.value((#[trigger] a.entries@[k]).0@))
                    == filed_binding(b.value(a.entries@[k].0@)),
        decreases a.entries.len() - i,
    {
        let key = a.entries[i].0.as_str();
        let same = match (a.get(key), b.get(key)) {
            (Some(x), Some(y)) => same_opt_text(x, y),
            (None, None) => true,
            _ => false,
        };
        if !same {
            assert(a.entries@[i as int].0@ == key@);
            return false;
        }
        i = i + 1;
    }
    true
}

fn same_key_maps(a: &TextMap<Option<String>>, b: &TextMap<Option<String>>) -> (r: bool)
    ensures
        r == key_maps_same(*a, *b),
{
    let r = keys_agree(a, b) && keys_agree(b, a);
    proof {
        if r {
            assert forall|key: Seq<char>| filed_binding(#[trigger] a.value(key)) == filed_binding(
                b.value(key),
            ) by {
                if exists|i: int| 0 <= i < a.entries@.len() && (#[trigger] a.entries@[i]).0@ == key {
                } else if exists|i: int|
                    0 <= i < b.entries@.len() && (#[trigger] b.entries@[i]).0@ == key {
                } else {
                    filed_none(a.entries@, key);
                    filed_none(b.entries@, key);
                }
            }
        }
    }
    r
}

/// Whether two configurations say the same.
pub fn same_config(a: &Config, b: &Config) -> (r: bool)
    ensures
        r == config_same(*a, *b),
{
    same_machines(&a.machines, &b.machines) && same_text(a.surface.as_str(), b.surface.as_str())
        && a.exit_on_focus_loss == b.exit_on_focus_loss && same_text(
        a.keyboard.as_str(),
        b.keyboard.as_str(),
    ) && same_texts(&a.outputs, &b.outputs) && same_texts(&a.terminal, &b.terminal) && same_theme(
        &a.theme,
        &b.theme,
    ) && a.layout.equal_columns == b.layout.equal_columns && a.layout.max_items_per_line
        == b.layout.max_items_per_line && a.layout.max_inline_items == b.layout.max_inline_items
        && a.layout.max_label_chars == b.layout.max_label_chars && same_text_maps(
        &a.layout.rows,
        &b.layout.rows,
    ) && same_texts(&a.folders, &b.folders) && same_rung_maps(&a.subrows, &b.subrows)
        && same_key_maps(&a.keys, &b.keys)
}

/// Two machines are the same exactly if they agree in every setting; a machine
/// with another launch command, for instance, is another one.
pub proof fn same_machines_agree(a: MachineConfig, b: MachineConfig)
    ensures
        machine_same(a, a),
        machine_same(a, b) ==> {
            &&& a.name@ == b.name@ && a.accent@ == b.accent@
            &&& a.inventory_timeout_ms == b.inventory_timeout_ms
            &&& a.aliases@.len() == b.aliases@.len()
            &&& forall|i: int|
                0 <= i < a.aliases@.len() ==> (#[trigger] a.aliases@[i])@ == b.aliases@[i]@
            &&& a.inventory@.len() == b.inventory@.len()
            &&& forall|i: int|
                0 <= i < a.inventory@.len() ==> (#[trigger] a.inventory@[i])@ == b.inventory@[i]@
            &&& a.launch@.len() == b.launch@.len()
            &&& forall|i: int|
                0 <= i < a.launch@.len() ==> (#[trigger] a.launch@[i])@ == b.launch@[i]@
        },
{
    crate::text::equal_texts_agree(a.aliases@, b.aliases@);
    crate::text::equal_texts_agree(a.inventory@, b.inventory@);
    crate::text::equal_texts_agree(a.launch@, b.launch@);
}

/// Two configurations are the same only if they agree in every setting: a change
/// of any of them is noticed. A configuration is the same as itself.
pub proof fn same_configurations_agree(a: Config, b: Config, i: int, key: Seq<char>)
    ensures
        config_same(a, a),
        config_same(a, b) ==> {
            &&& a.machines@.len() == b.machines@.len()
            &&& 0 <= i < a.machines@.len() ==> machine_same(a.machines@[i], b.machines@[i])
            &&& a.surface@ == b.surface@ && a.keyboard@ == b.keyboard@
            &&& a.exit_on_focus_loss == b.exit_on_focus_loss
            &&& a.outputs@.len() == b.outputs@.len()
            &&& 0 <= i < a.outputs@.len() ==> a.outputs@[i]@ == b.outputs@[i]@
            &&& a.terminal@.len() == b.terminal@.len()
            &&& 0 <= i < a.terminal@.len() ==> a.terminal@[i]@ == b.terminal@[i]@
            &&& a.folders@.len() == b.folders@.len()
            &&& 0 <= i < a.folders@.len() ==> a.folders@[i]@ == b.folders@[i]@
            &&& a.theme.ground@ == b.theme.ground@ && a.theme.surface@ == b.theme.surface@
            &&& a.theme.fg@ == b.theme.fg@ && a.theme.muted@ == b.theme.muted@
            &&& a.theme.dim@ == b.theme.dim@ && a.theme.accent@ == b.theme.accent@
            &&& a.theme.error@ == b.theme.error@ && a.theme.border@ == b.theme.border@
            &&& a.theme.logo@ == b.theme.logo@ && a.theme.logo_size == b.theme.logo_size
            &&& a.theme.icon_size == b.theme.icon_size && a.theme.width == b.theme.width
            &&& a.theme.max_height_fraction_bits == b.theme.max_height_fraction_bits
            &&& a.theme.max_width_fraction_bits == b.theme.max_width_fraction_bits
            &&& a.layout.equal_columns == b.layout.equal_columns
            &&& a.layout.max_items_per_line == b.layout.max_items_per_line
            &&& a.layout.max_inline_items == b.layout.max_inline_items
            &&& a.layout.max_label_chars == b.layout.max_label_chars
            &&& a.layout.rows.value(key) is Some <==> b.layout.rows.value(key) is Some
            &&& a.layout.rows.value(key) is Some ==> a.layout.rows.value(key)->0@
                == b.layout.rows.value(key)->0@
            &&& a.subrows.value(key) is Some <==> b.subrows.value(key) is Some
            &&& a.subrows.value(key) is Some ==> a.subrows.value(key)->0@.len()
                == b.subrows.value(key)->0@.len()
            &&& a.subrows.value(key) is Some && 0 <= i < a.subrows.value(key)->0@.len()
                ==> a.subrows.value(key)->0@[i].name@ == b.subrows.value(key)->0@[i].name@
                && crate::text::texts(a.subrows.value(key)->0@[i].apps@) == crate::text::texts(
                b.subrows.value(key)->0@[i].apps@,
            )
            &&& a.keys.value(key) is Some <==> b.keys.value(key) is Some
            &&& a.keys.value(key) is Some ==> crate::text::opt_text(a.keys.value(key)->0)
                == crate::text::opt_text(b.keys.value(key)->0)
        },
{
    assert forall|k: int| 0 <= k < a.machines@.len() implies machine_same(
        #[trigger] a.machines@[k],
        a.machines@[k],
    ) by {}
    if config_same(a, b) {
        let x = crate::text::texts(a.outputs@);
        let y = crate::text::texts(b.outputs@);
        assert(x.len() == y.len() && (0 <= i < x.len() ==> x[i] == y[i]));
        let x = crate::text::texts(a.terminal@);
        let y = crate::text::texts(b.terminal@);
        assert(x.len() == y.len() && (0 <= i < x.len() ==> x[i] == y[i]));
        let x = crate::text::texts(a.folders@);
        let y = crate::text::texts(b.folders@);
        assert(x.len() == y.len() && (0 <= i < x.len() ==> x[i] == y[i]));
        assert(crate::text::opt_text(a.layout.rows.value(key)) == crate::text::opt_text(
            b.layout.rows.value(key),
        ));
        assert(filed_rungs(a.subrows.value(key)) == filed_rungs(b.subrows.value(key)));
        if a.subrows.value(key) is Some {
            let x = rungs_view(a.subrows.value(key)->0@);
            let y = rungs_view(b.subrows.value(key)->0@);
            assert(x == y);
            assert(x.len() == y.len() && (0 <= i < x.len() ==> x[i] == y[i]));
        }
        assert(filed_binding(a.keys.value(key)) == filed_binding(b.keys.value(key)));
    }
}

} // verus!
