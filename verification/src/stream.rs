//! How columns that arrive one by one merge into the launcher, and how the
//! selection survives that.

use crate::column::{copy_machine, empty_machine, same_machine, App, Line, Machine};
use crate::config::{Config, MachineConfig};
use crate::provider::{ProviderStatus, ProviderUpdate};
use crate::text::{same_text, TextMap};
use vstd::prelude::*;
use vstd::string::*;

verus! {

/// The first machine of that name.
pub open spec fn machine_place(machines: Seq<MachineConfig>, name: Seq<char>) -> Option<int>
    decreases machines.len(),
{
    if machines.len() == 0 {
        None
    } else {
        match machine_place(machines.drop_last(), name) {
            Some(i) => Some(i),
            None => if machines.last().name@ == name {
                Some(machines.len() - 1)
            } else {
                None
            },
        }
    }
}

fn find_machine(machines: &Vec<MachineConfig>, name: &str) -> (r: Option<usize>)
    ensures
        match r {
            Some(i) => i < machines@.len() && machine_place(machines@, name@) == Some(i as int),
            None => machine_place(machines@, name@) is None,
        },
{
    let mut found: Option<usize> = None;
    let mut i: usize = 0;
    while i < machines.len()
        invariant
            i <= machines.len(),
            match found {
                Some(at) => at < i && machine_place(machines@.take(i as int), name@) == Some(
                    at as int,
                ),
                None => machine_place(machines@.take(i as int), name@) is None,
            },
        decreases machines.len() - i,
    {
        assert(machines@.take(i + 1).drop_last() =~= machines@.take(i as int));
        if found.is_none() && same_text(machines[i].name.as_str(), name) {
            found = Some(i);
        }
        i = i + 1;
    }
    assert(machines@.take(i as int) =~= machines@);
    found
}

/// The column that an update stands for: its own, or an empty one with its
/// error.
pub open spec fn updated_column(config: MachineConfig, rows: nat, update: ProviderUpdate) ->
    crate::column::MachineView {
    match update.column {
        Some(column) => column@,
        None => crate::column::empty_view(config, rows, crate::text::opt_text(update.error)),
    }
}

/// The columns that updates replace, by place. An update for a machine that is
/// not configured, or with the column that is already there, replaces nothing; of
/// several replacements of a column the last one holds.
pub open spec fn replaced(
    machines: Seq<MachineConfig>,
    base: Seq<Machine>,
    rows: nat,
    updates: Seq<ProviderUpdate>,
) -> Map<int, crate::column::MachineView>
    decreases updates.len(),
{
    if updates.len() == 0 {
        Map::empty()
    } else {
        let before = replaced(machines, base, rows, updates.drop_last());
        let update = updates.last();
        match machine_place(machines, update.machine@) {
            None => before,
            Some(i) => {
                let column = updated_column(machines[i], rows, update);
                if i < base.len() && base[i]@ == column {
                    before
                } else {
                    before.insert(i, column)
                }
            },
        }
    }
}

/// What the columns hold.
pub open spec fn machine_views(machines: Seq<Machine>) -> Seq<crate::column::MachineView> {
    Seq::new(machines.len(), |i: int| machines[i]@)
}

/// The columns with the replacements in place.
pub open spec fn with_replaced(
    base: Seq<Machine>,
    replacements: Map<int, crate::column::MachineView>,
) -> Seq<crate::column::MachineView> {
    Seq::new(
        base.len(),
        |i: int|
            if replacements.contains_key(i) {
                replacements[i]
            } else {
                base[i]@
            },
    )
}

/// What the places in a list of replacements hold.
pub open spec fn slots_hold(
    slots: Seq<Option<Machine>>,
    replacements: Map<int, crate::column::MachineView>,
) -> bool {
    &&& forall|i: int|
        replacements.contains_key(i) <==> 0 <= i < slots.len() && (#[trigger] slots[i]) is Some
    &&& forall|i: int|
        0 <= i < slots.len() && (#[trigger] slots[i]) is Some ==> slots[i]->0@ == replacements[i]
}

/// The columns after the updates, or nothing where no update changes one.
/// `rows` is the number of rows of the launcher.
pub fn merged_columns(
    config: &Config,
    base: &Vec<Machine>,
    rows: usize,
    updates: &Vec<ProviderUpdate>,
) -> (r: Option<Vec<Machine>>)
    ensures
        ({
            let replacements = replaced(config.machines@, base@, rows as nat, updates@);
            match r {
                None => replacements =~= Map::empty(),
                Some(columns) => {
                    &&& !(replacements =~= Map::empty())
                    &&& machine_views(columns@) == with_replaced(base@, replacements)
                },
            }
        }),
{
    let mut slots: Vec<Option<Machine>> = Vec::new();
    let mut k: usize = 0;
    while k < config.machines.len()
        invariant
            k <= config.machines.len(),
            slots@.len() == k,
            forall|i: int| 0 <= i < k ==> (#[trigger] slots@[i]) is None,
        decreases config.machines.len() - k,
    {
        slots.push(None);
        k = k + 1;
    }
    let mut any = false;
    let mut u: usize = 0;
    let ghost machines = config.machines@;
    assert(slots_hold(slots@, replaced(machines, base@, rows as nat, updates@.take(0))));
    while u < updates.len()
        invariant
            u <= updates.len(),
            machines == config.machines@,
            slots@.len() == machines.len(),
            slots_hold(slots@, replaced(machines, base@, rows as nat, updates@.take(u as int))),
            any == !(replaced(machines, base@, rows as nat, updates@.take(u as int))
                =~= Map::empty()),
        decreases updates.len() - u,
    {
        let ghost before = replaced(machines, base@, rows as nat, updates@.take(u as int));
        proof {
            assert(updates@.take(u + 1).drop_last() =~= updates@.take(u as int));
            assert(updates@.take(u + 1).last() == updates@[u as int]);
        }
        let update = &updates[u];
        if let Some(i) = find_machine(&config.machines, update.machine.as_str()) {
            let column = match &update.column {
                Some(column) => copy_machine(column),
                None => {
                    let mut machine = empty_machine(&config.machines[i], rows);
                    machine.error = update.error.clone();
                    machine
                },
            };
            assert(column@ =~= updated_column(machines[i as int], rows as nat, *update));
            if !(i < base.len() && same_machine(&base[i], &column)) {
                let ghost view = column@;
                let ghost old_slots = slots@;
                slots.set(i, Some(column));
                any = true;
                proof {
                    let after = before.insert(i as int, view);
                    assert(after.contains_key(i as int));
                    assert(after == replaced(
                        machines,
                        base@,
                        rows as nat,
                        updates@.take(u + 1),
                    ));
                    assert forall|j: int|
                        after.contains_key(j) <==> 0 <= j < slots@.len() && (
                        #[trigger] slots@[j]) is Some by {
                        if j != i {
                            assert(before.contains_key(j) <==> 0 <= j < old_slots.len()
                                && old_slots[j] is Some);
                            assert(0 <= j < slots@.len() ==> slots@[j] == old_slots[j]);
                        }
                    }
                    assert forall|j: int|
                        0 <= j < slots@.len() && (#[trigger] slots@[j]) is Some implies
                        slots@[j]->0@ == after[j] by {
                        if j != i {
                            assert(slots@[j] == old_slots[j]);
                        }
                    }
                    assert(!(after =~= Map::empty()));
                }
            }
        }
        u = u + 1;
    }
    assert(updates@.take(u as int) =~= updates@);
    if !any {
        return None;
    }
    let ghost replacements = replaced(machines, base@, rows as nat, updates@);
    let mut out: Vec<Machine> = Vec::new();
    let mut i: usize = 0;
    while i < base.len()
        invariant
            i <= base.len(),
            slots_hold(slots@, replacements),
            out@.len() == i,
            forall|j: int|
                0 <= j < i ==> (#[trigger] out@[j])@ == with_replaced(base@, replacements)[j],
        decreases base.len() - i,
    {
        let ghost spot = i as int;
        assert(replacements.contains_key(spot) <==> 0 <= spot < slots@.len() && slots@[spot] is Some);
        if i < slots.len() {
            match &slots[i] {
                Some(column) => out.push(copy_machine(column)),
                None => out.push(copy_machine(&base[i])),
            }
        } else {
            out.push(copy_machine(&base[i]));
        }
        i = i + 1;
    }
    assert(machine_views(out@) =~= with_replaced(base@, replacements));
    Some(out)
}

fn column_of_update(config: &MachineConfig, rows: usize, update: ProviderUpdate) -> (r: Machine)
    ensures
        r@ == updated_column(*config, rows as nat, update),
{
    match update.column {
        Some(column) => column,
        None => {
            let mut machine = empty_machine(config, rows);
            machine.error = update.error;
            assert(machine@ =~= updated_column(*config, rows as nat, update));
            machine
        },
    }
}

/// The columns of a configuration as they stand, and how each provider is doing.
pub struct LauncherModel {
    pub config: Config,
    pub folders: Vec<String>,
    /// One column for each configured machine, in the configured order.
    pub base: Vec<Machine>,
    pub statuses: TextMap<ProviderStatus>,
}

impl LauncherModel {
    /// The columns before any provider has answered.
    pub fn new(config: Config) -> (r: Self)
        ensures
            r.config == config,
            crate::text::texts(r.folders@) == config.rows(),
            machine_views(r.base@) == Seq::new(
                config.machines@.len(),
                |i: int|
                    crate::column::empty_view(config.machines@[i], config.rows().len(), None),
            ),
            r.statuses.entries@.len() == 0,
    {
        let folders = config.folder_rows();
        let ghost rows = config.rows();
        assert(folders@.len() == crate::text::texts(folders@).len());
        let mut base: Vec<Machine> = Vec::new();
        let mut i: usize = 0;
        while i < config.machines.len()
            invariant
                i <= config.machines.len(),
                base@.len() == i,
                folders@.len() == rows.len(),
                forall|k: int|
                    0 <= k < i ==> (#[trigger] base@[k])@ == crate::column::empty_view(
                        config.machines@[k],
                        rows.len(),
                        None,
                    ),
            decreases config.machines.len() - i,
        {
            base.push(empty_machine(&config.machines[i], folders.len()));
            i = i + 1;
        }
        assert(machine_views(base@) =~= Seq::new(
            config.machines@.len(),
            |i: int| crate::column::empty_view(config.machines@[i], rows.len(), None),
        ));
        LauncherModel { config, folders, base, statuses: TextMap::new() }
    }

    /// Puts an update into the column of its machine and says whether that
    /// changed the column or the status of the provider.
    pub fn apply(&mut self, update: ProviderUpdate) -> (r: bool)
        ensures
            final(self).config == old(self).config,
            final(self).folders@ == old(self).folders@,
            match machine_place(old(self).config.machines@, update.machine@) {
                None => !r && *final(self) == *old(self),
                Some(i) => {
                    let column = updated_column(
                        old(self).config.machines@[i],
                        old(self).folders@.len(),
                        update,
                    );
                    &&& r == !(i < old(self).base@.len() && old(self).base@[i]@ == column && old(
                        self,
                    ).statuses.value(update.machine@) == Some(update.status))
                    &&& !r ==> *final(self) == *old(self)
                    &&& r ==> {
                        &&& machine_views(final(self).base@) == (if i < old(self).base@.len() {
                            machine_views(old(self).base@).update(i, column)
                        } else {
                            machine_views(old(self).base@)
                        })
                        &&& final(self).statuses.value(update.machine@) == Some(update.status)
                        &&& forall|k: Seq<char>|
                            k != update.machine@ ==> #[trigger] final(self).statuses.value(k)
                                == old(self).statuses.value(k)
                    }
                },
            },
    {
        let i: usize = match find_machine(&self.config.machines, update.machine.as_str()) {
            None => {
                return false;
            },
            Some(i) => i,
        };
        let name = update.machine.clone();
        let status = update.status;
        let same_status = match self.statuses.get(name.as_str()) {
            Some(known) => *known == status,
            None => false,
        };
        let column = column_of_update(&self.config.machines[i], self.folders.len(), update);
        if i < self.base.len() && same_machine(&self.base[i], &column) && same_status {
            return false;
        }
        let ghost before = machine_views(self.base@);
        let ghost view = column@;
        if i < self.base.len() {
            self.base.set(i, column);
            assert(machine_views(self.base@) =~= before.update(i as int, view));
        }
        self.statuses.insert(name, status);
        true
    }
}

/// Which part of the launcher the keys act on: cells, or the applications inside
/// one.
#[derive(Debug, Clone, Copy, PartialEq, Eq, Structural)]
pub enum Focus {
    Outside,
    Inside,
}

/// Where the user is.
#[derive(Debug, Clone, Copy, PartialEq, Eq, Structural)]
pub struct Selection {
    pub col: usize,
    pub row: usize,
    pub line: usize,
    pub item: usize,
    /// The place in a line that moving up and down aims for.
    pub item_goal: usize,
    pub focus: Focus,
}

/// The first application of a line with that id.
pub open spec fn item_place(apps: Seq<App>, id: Seq<char>) -> Option<int>
    decreases apps.len(),
{
    if apps.len() == 0 {
        None
    } else {
        match item_place(apps.drop_last(), id) {
            Some(i) => Some(i),
            None => if apps.last().id@ == id {
                Some(apps.len() - 1)
            } else {
                None
            },
        }
    }
}

/// The first place in a cell of an application with that id.
pub open spec fn cell_place(lines: Seq<Line>, id: Seq<char>) -> Option<(int, int)>
    decreases lines.len(),
{
    if lines.len() == 0 {
        None
    } else {
        match cell_place(lines.drop_last(), id) {
            Some(p) => Some(p),
            None => match item_place(lines.last().apps@, id) {
                Some(item) => Some((lines.len() - 1, item)),
                None => None,
            },
        }
    }
}

/// The first place in a column of an application with that id.
pub open spec fn column_place(cells: Seq<Vec<Line>>, id: Seq<char>) -> Option<(int, int, int)>
    decreases cells.len(),
{
    if cells.len() == 0 {
        None
    } else {
        match column_place(cells.drop_last(), id) {
            Some(p) => Some(p),
            None => match cell_place(cells.last()@, id) {
                Some((line, item)) => Some((cells.len() - 1, line, item)),
                None => None,
            },
        }
    }
}

fn find_item(apps: &Vec<App>, id: &str) -> (r: Option<usize>)
    ensures
        match r {
            Some(i) => item_place(apps@, id@) == Some(i as int),
            None => item_place(apps@, id@) is None,
        },
{
    let mut found: Option<usize> = None;
    let mut i: usize = 0;
    while i < apps.len()
        invariant
            i <= apps.len(),
            match found {
                Some(at) => item_place(apps@.take(i as int), id@) == Some(at as int),
                None => item_place(apps@.take(i as int), id@) is None,
            },
        decreases apps.len() - i,
    {
        assert(apps@.take(i + 1).drop_last() =~= apps@.take(i as int));
        if found.is_none() && same_text(apps[i].id.as_str(), id) {
            found = Some(i);
        }
        i = i + 1;
    }
    assert(apps@.take(i as int) =~= apps@);
    found
}

fn find_in_cell(lines: &Vec<Line>, id: &str) -> (r: Option<(usize, usize)>)
    ensures
        match r {
            Some((line, item)) => cell_place(lines@, id@) == Some((line as int, item as int)),
            None => cell_place(lines@, id@) is None,
        },
{
    let mut found: Option<(usize, usize)> = None;
    let mut i: usize = 0;
    while i < lines.len()
        invariant
            i <= lines.len(),
            match found {
                Some((line, item)) => cell_place(lines@.take(i as int), id@) == Some(
                    (line as int, item as int),
                ),
                None => cell_place(lines@.take(i as int), id@) is None,
            },
        decreases lines.len() - i,
    {
        assert(lines@.take(i + 1).drop_last() =~= lines@.take(i as int));
        if found.is_none() {
            if let Some(item) = find_item(&lines[i].apps, id) {
                found = Some((i, item));
            }
        }
        i = i + 1;
    }
    assert(lines@.take(i as int) =~= lines@);
    found
}

pub(crate) fn find_in_column(cells: &Vec<Vec<Line>>, id: &str) -> (r: Option<(usize, usize, usize)>)
    ensures
        match r {
            Some((row, line, item)) => column_place(cells@, id@) == Some(
                (row as int, line as int, item as int),
            ),
            None => column_place(cells@, id@) is None,
        },
{
    let mut found: Option<(usize, usize, usize)> = None;
    let mut i: usize = 0;
    while i < cells.len()
        invariant
            i <= cells.len(),
            match found {
                Some((row, line, item)) => column_place(cells@.take(i as int), id@) == Some(
                    (row as int, line as int, item as int),
                ),
                None => column_place(cells@.take(i as int), id@) is None,
            },
        decreases cells.len() - i,
    {
        assert(cells@.take(i + 1).drop_last() =~= cells@.take(i as int));
        if found.is_none() {
            if let Some((line, item)) = find_in_cell(&cells[i], id) {
                found = Some((i, line, item));
            }
        }
        i = i + 1;
    }
    assert(cells@.take(i as int) =~= cells@);
    found
}

/// The first text in a list that is the wanted one.
pub open spec fn text_place(list: Seq<Seq<char>>, wanted: Seq<char>) -> Option<int>
    decreases list.len(),
{
    if list.len() == 0 {
        None
    } else {
        match text_place(list.drop_last(), wanted) {
            Some(i) => Some(i),
            None => if list.last() == wanted {
                Some(list.len() - 1)
            } else {
                None
            },
        }
    }
}

fn find_text(list: &Vec<String>, wanted: &str) -> (r: Option<usize>)
    ensures
        match r {
            Some(i) => text_place(crate::text::texts(list@), wanted@) == Some(i as int),
            None => text_place(crate::text::texts(list@), wanted@) is None,
        },
{
    let ghost views = crate::text::texts(list@);
    let mut found: Option<usize> = None;
    let mut i: usize = 0;
    while i < list.len()
        invariant
            i <= list.len(),
            views == crate::text::texts(list@),
            match found {
                Some(at) => text_place(views.take(i as int), wanted@) == Some(at as int),
                None => text_place(views.take(i as int), wanted@) is None,
            },
        decreases list.len() - i,
    {
        proof {
            assert(views.take(i + 1).drop_last() =~= views.take(i as int));
            assert(views.take(i + 1).last() == list@[i as int]@);
        }
        if found.is_none() && same_text(list[i].as_str(), wanted) {
            found = Some(i);
        }
        i = i + 1;
    }
    assert(views.take(i as int) =~= views);
    found
}

/// The names of the columns.
pub open spec fn column_names(view: Seq<Machine>) -> Seq<Seq<char>> {
    Seq::new(view.len(), |i: int| view[i].name@)
}

fn find_column(view: &Vec<Machine>, name: &str) -> (r: Option<usize>)
    ensures
        match r {
            Some(i) => text_place(column_names(view@), name@) == Some(i as int),
            None => text_place(column_names(view@), name@) is None,
        },
{
    let ghost views = column_names(view@);
    let mut found: Option<usize> = None;
    let mut i: usize = 0;
    while i < view.len()
        invariant
            i <= view.len(),
            views == column_names(view@),
            match found {
                Some(at) => text_place(views.take(i as int), name@) == Some(at as int),
                None => text_place(views.take(i as int), name@) is None,
            },
        decreases view.len() - i,
    {
        proof {
            assert(views.take(i + 1).drop_last() =~= views.take(i as int));
            assert(views.take(i + 1).last() == view@[i as int].name@);
        }
        if found.is_none() && same_text(view[i].name.as_str(), name) {
            found = Some(i);
        }
        i = i + 1;
    }
    assert(views.take(i as int) =~= views);
    found
}

/// What the user is on, in terms that survive a change of the columns: the
/// machine and the folder by name, the application by id.
#[derive(Debug, Clone)]
pub struct SelectionAnchor {
    pub machine: Option<String>,
    pub folder: Option<String>,
    pub app: Option<String>,
    pub focus: Focus,
}

/// The application at a place, if there is one.
pub open spec fn app_at(view: Seq<Machine>, s: Selection) -> Option<App> {
    if s.col < view.len() && s.row < view[s.col as int].cells@.len() && s.line
        < view[s.col as int].cells@[s.row as int]@.len() && s.item
        < view[s.col as int].cells@[s.row as int]@[s.line as int].apps@.len() {
        Some(view[s.col as int].cells@[s.row as int]@[s.line as int].apps@[s.item as int])
    } else {
        None
    }
}

/// Where an anchor leads in the columns, and whether the place it leads to may
/// lie outside of them.
pub open spec fn restored(
    anchor: SelectionAnchor,
    view: Seq<Machine>,
    folders: Seq<Seq<char>>,
    s: Selection,
) -> (Selection, bool) {
    let column = match anchor.machine {
        Some(name) => text_place(column_names(view), name@),
        None => None,
    };
    let col = match column {
        Some(c) => c as usize,
        None => s.col,
    };
    let place = match anchor.app {
        Some(id) => if col < view.len() {
            column_place(view[col as int].cells@, id@)
        } else {
            None
        },
        None => None,
    };
    match place {
        Some((row, line, item)) => (
            Selection {
                col,
                row: row as usize,
                line: line as usize,
                item: item as usize,
                item_goal: item as usize,
                focus: anchor.focus,
            },
            false,
        ),
        None => {
            let folder_row = match anchor.folder {
                Some(folder) => text_place(folders, folder@),
                None => None,
            };
            let row = match folder_row {
                Some(r) => r as usize,
                None => s.row,
            };
            (Selection { col, row, focus: anchor.focus, ..s }, true)
        },
    }
}

impl SelectionAnchor {
    /// The anchor of a selection.
    pub fn capture(view: &Vec<Machine>, folders: &Vec<String>, s: Selection) -> (r: Self)
        ensures
            crate::text::opt_text(r.machine) == (if s.col < view@.len() {
                Some(view@[s.col as int].name@)
            } else {
                None::<Seq<char>>
            }),
            crate::text::opt_text(r.folder) == (if s.row < folders@.len() {
                Some(folders@[s.row as int]@)
            } else {
                None::<Seq<char>>
            }),
            crate::text::opt_text(r.app) == (match app_at(view@, s) {
                Some(app) => Some(app.id@),
                None => None::<Seq<char>>,
            }),
            r.focus == s.focus,
    {
        let folder = if s.row < folders.len() {
            Some(folders[s.row].clone())
        } else {
            None
        };
        if s.col >= view.len() {
            return SelectionAnchor { machine: None, folder, app: None, focus: s.focus };
        }
        let machine = &view[s.col];
        let app = if s.row < machine.cells.len() && s.line < machine.cells[s.row].len() && s.item
            < machine.cells[s.row][s.line].apps.len() {
            Some(machine.cells[s.row][s.line].apps[s.item].id.clone())
        } else {
            None
        };
        SelectionAnchor { machine: Some(machine.name.clone()), folder, app, focus: s.focus }
    }

    /// Leads the selection back to what the anchor stands for. Where its
    /// application is gone, the result says that the selection may lie outside of
    /// the columns.
    pub fn restore(self, view: &Vec<Machine>, folders: &Vec<String>, s: &mut Selection) -> (r: bool)
        ensures
            (*final(s), r) == restored(self, view@, crate::text::texts(folders@), *old(s)),
    {
        if let Some(name) = &self.machine {
            if let Some(column) = find_column(view, name.as_str()) {
                s.col = column;
            }
        }
        if let Some(id) = &self.app {
            if s.col < view.len() {
                if let Some((row, line, item)) = find_in_column(&view[s.col].cells, id.as_str()) {
                    s.row = row;
                    s.line = line;
                    s.item = item;
                    s.item_goal = item;
                    s.focus = self.focus;
                    return false;
                }
            }
        }
        if let Some(folder) = &self.folder {
            if let Some(row) = find_text(folders, folder.as_str()) {
                s.row = row;
            }
        }
        s.focus = self.focus;
        true
    }
}

proof fn item_place_holds(apps: Seq<App>, id: Seq<char>)
    ensures
        match item_place(apps, id) {
            Some(i) => 0 <= i < apps.len() && apps[i].id@ == id,
            None => forall|i: int| 0 <= i < apps.len() ==> (#[trigger] apps[i]).id@ != id,
        },
    decreases apps.len(),
{
    if apps.len() > 0 {
        item_place_holds(apps.drop_last(), id);
        assert forall|i: int|
            item_place(apps, id) is None && 0 <= i < apps.len() implies (#[trigger] apps[i]).id@
            != id by {
            if i < apps.len() - 1 {
                assert(apps.drop_last()[i] == apps[i]);
            }
        }
    }
}

proof fn cell_place_holds(lines: Seq<Line>, id: Seq<char>)
    ensures
        match cell_place(lines, id) {
            Some((line, item)) => 0 <= line < lines.len() && 0 <= item < lines[line].apps@.len()
                && lines[line].apps@[item].id@ == id,
            None => forall|l: int, i: int|
                0 <= l < lines.len() && 0 <= i < lines[l].apps@.len() ==> (
                #[trigger] lines[l].apps@[i]).id@ != id,
        },
    decreases lines.len(),
{
    if lines.len() > 0 {
        cell_place_holds(lines.drop_last(), id);
        item_place_holds(lines.last().apps@, id);
        assert forall|l: int, i: int|
            cell_place(lines, id) is None && 0 <= l < lines.len() && 0 <= i
                < lines[l].apps@.len() implies (#[trigger] lines[l].apps@[i]).id@ != id by {
            if l < lines.len() - 1 {
                assert(lines.drop_last()[l].apps@[i] == lines[l].apps@[i]);
            }
        }
    }
}

pub proof fn column_place_holds(cells: Seq<Vec<Line>>, id: Seq<char>)
    ensures
        match column_place(cells, id) {
            Some((row, line, item)) => 0 <= row < cells.len() && 0 <= line < cells[row]@.len() && 0
                <= item < cells[row]@[line].apps@.len() && cells[row]@[line].apps@[item].id@ == id,
            None => forall|r: int, l: int, i: int|
                0 <= r < cells.len() && 0 <= l < cells[r]@.len() && 0 <= i
                    < cells[r]@[l].apps@.len() ==> (#[trigger] cells[r]@[l].apps@[i]).id@ != id,
        },
    decreases cells.len(),
{
    if cells.len() > 0 {
        column_place_holds(cells.drop_last(), id);
        cell_place_holds(cells.last()@, id);
        assert forall|r: int, l: int, i: int|
            column_place(cells, id) is None && 0 <= r < cells.len() && 0 <= l < cells[r]@.len()
                && 0 <= i < cells[r]@[l].apps@.len() implies (
        #[trigger] cells[r]@[l].apps@[i]).id@ != id by {
            if r < cells.len() - 1 {
                assert(cells.drop_last()[r]@[l].apps@[i] == cells[r]@[l].apps@[i]);
            }
        }
    }
}

proof fn text_place_holds(list: Seq<Seq<char>>, wanted: Seq<char>)
    ensures
        match text_place(list, wanted) {
            Some(i) => 0 <= i < list.len() && list[i] == wanted,
            None => !list.contains(wanted),
        },
    decreases list.len(),
{
    if list.len() > 0 {
        text_place_holds(list.drop_last(), wanted);
        if text_place(list, wanted) is None {
            assert forall|i: int| 0 <= i < list.len() implies list[i] != wanted by {
                if i < list.len() - 1 {
                    assert(list.drop_last()[i] == list[i]);
                    assert(list.drop_last().contains(list[i]));
                }
            }
        }
    }
}

/// The selection stays on its application: whatever became of the columns, as
/// long as some column of the machine's name is left and the first such column
/// still has an application with the id, the restored selection is on an
/// application with that id, in a column of that name, with the focus where it
/// was.
pub proof fn selection_follows_its_app(
    before: Seq<Machine>,
    s: Selection,
    anchor: SelectionAnchor,
    after: Seq<Machine>,
    folders: Seq<Seq<char>>,
    now: Selection,
    col: int,
    row: int,
    line: int,
    item: int,
)
    requires
        app_at(before, s) is Some,
        crate::text::opt_text(anchor.machine) == Some(before[s.col as int].name@),
        crate::text::opt_text(anchor.app) == Some(app_at(before, s)->0.id@),
        anchor.focus == s.focus,
        after.len() <= usize::MAX,
        text_place(column_names(after), before[s.col as int].name@) == Some(col),
        0 <= row < after[col].cells@.len(),
        0 <= line < after[col].cells@[row]@.len(),
        0 <= item < after[col].cells@[row]@[line].apps@.len(),
        after[col].cells@[row]@[line].apps@[item].id@ == app_at(before, s)->0.id@,
    ensures
        ({
            let (moved, outside) = restored(anchor, after, folders, now);
            &&& !outside
            &&& app_at(after, moved) is Some
            &&& app_at(after, moved)->0.id@ == app_at(before, s)->0.id@
            &&& after[moved.col as int].name@ == before[s.col as int].name@
            &&& moved.focus == s.focus
        }),
{
    let name = before[s.col as int].name@;
    let id = app_at(before, s)->0.id@;
    text_place_holds(column_names(after), name);
    column_place_holds(after[col].cells@, id);
    assert(after[col].cells@[row]@[line].apps@[item].id@ == id);
    let (r, l, i) = column_place(after[col].cells@, id)->0;
    assert(after[col].cells.len() == after[col].cells@.len());
    assert(after[col].cells@[r].len() == after[col].cells@[r]@.len());
    assert(after[col].cells@[r]@[l].apps.len() == after[col].cells@[r]@[l].apps@.len());
}

proof fn machine_place_holds(machines: Seq<MachineConfig>, name: Seq<char>)
    ensures
        match machine_place(machines, name) {
            Some(i) => 0 <= i < machines.len() && machines[i].name@ == name,
            None => forall|i: int| 0 <= i < machines.len() ==> (#[trigger] machines[i]).name@ != name,
        },
    decreases machines.len(),
{
    if machines.len() > 0 {
        machine_place_holds(machines.drop_last(), name);
        assert forall|i: int|
            machine_place(machines, name) is None && 0 <= i < machines.len() implies (
        #[trigger] machines[i]).name@ != name by {
            if i < machines.len() - 1 {
                assert(machines.drop_last()[i] == machines[i]);
            }
        }
    }
}

/// Columns arrive independently: an update touches no column but the one of its
/// own machine.
pub proof fn other_columns_stay(
    machines: Seq<MachineConfig>,
    base: Seq<Machine>,
    rows: nat,
    updates: Seq<ProviderUpdate>,
    i: int,
)
    requires
        0 <= i < base.len(),
        forall|u: int|
            0 <= u < updates.len() ==> (i >= machines.len() || (#[trigger] updates[u]).machine@
                != machines[i].name@),
    ensures
        with_replaced(base, replaced(machines, base, rows, updates))[i] == base[i]@,
    decreases updates.len(),
{
    if updates.len() > 0 {
        let fewer = updates.drop_last();
        assert forall|u: int| 0 <= u < fewer.len() implies (i >= machines.len() || (
        #[trigger] fewer[u]).machine@ != machines[i].name@) by {
            assert(fewer[u] == updates[u]);
        }
        other_columns_stay(machines, base, rows, fewer, i);
        let last = updates[updates.len() - 1];
        machine_place_holds(machines, last.machine@);
        not_replaced(machines, base, rows, fewer, i);
        not_replaced(machines, base, rows, updates, i);
    }
}

proof fn not_replaced(
    machines: Seq<MachineConfig>,
    base: Seq<Machine>,
    rows: nat,
    updates: Seq<ProviderUpdate>,
    i: int,
)
    requires
        forall|u: int|
            0 <= u < updates.len() ==> (i >= machines.len() || (#[trigger] updates[u]).machine@
                != machines[i].name@),
    ensures
        !replaced(machines, base, rows, updates).contains_key(i),
    decreases updates.len(),
{
    if updates.len() > 0 {
        let fewer = updates.drop_last();
        assert forall|u: int| 0 <= u < fewer.len() implies (i >= machines.len() || (
        #[trigger] fewer[u]).machine@ != machines[i].name@) by {
            assert(fewer[u] == updates[u]);
        }
        not_replaced(machines, base, rows, fewer, i);
        let last = updates[updates.len() - 1];
        assert(last == updates.last());
        machine_place_holds(machines, last.machine@);
    }
}

/// An update is for the first machine of its name.
pub proof fn first_machine_of_the_name(machines: Seq<MachineConfig>, name: Seq<char>)
    ensures
        match machine_place(machines, name) {
            Some(i) => 0 <= i < machines.len() && machines[i].name@ == name && forall|k: int|
                0 <= k < i ==> (#[trigger] machines[k]).name@ != name,
            None => forall|k: int|
                0 <= k < machines.len() ==> (#[trigger] machines[k]).name@ != name,
        },
    decreases machines.len(),
{
    if machines.len() > 0 {
        first_machine_of_the_name(machines.drop_last(), name);
        assert forall|k: int| 0 <= k < machines.len() - 1 implies #[trigger] machines[k]
            == machines.drop_last()[k] by {}
    }
}

/// A text is found at its first place in a list.
pub proof fn first_place_of_a_text(list: Seq<Seq<char>>, wanted: Seq<char>)
    ensures
        match text_place(list, wanted) {
            Some(i) => 0 <= i < list.len() && list[i] == wanted && forall|k: int|
                0 <= k < i ==> #[trigger] list[k] != wanted,
            None => forall|k: int| 0 <= k < list.len() ==> #[trigger] list[k] != wanted,
        },
    decreases list.len(),
{
    if list.len() > 0 {
        first_place_of_a_text(list.drop_last(), wanted);
        assert forall|k: int| 0 <= k < list.len() - 1 implies #[trigger] list[k]
            == list.drop_last()[k] by {}
    }
}

proof fn item_place_is_first(apps: Seq<App>, id: Seq<char>, i: int)
    requires
        0 <= i < apps.len(),
        apps[i].id@ == id,
    ensures
        item_place(apps, id) is Some,
        0 <= item_place(apps, id)->0 <= i,
    decreases apps.len(),
{
    if i < apps.len() - 1 {
        item_place_is_first(apps.drop_last(), id, i);
    } else if item_place(apps.drop_last(), id) is Some {
        item_place_holds(apps.drop_last(), id);
    }
}

proof fn cell_place_is_first(lines: Seq<Line>, id: Seq<char>, l: int, i: int)
    requires
        0 <= l < lines.len(),
        0 <= i < lines[l].apps@.len(),
        lines[l].apps@[i].id@ == id,
    ensures
        cell_place(lines, id) is Some,
        ({
            let (line, item) = cell_place(lines, id)->0;
            line < l || (line == l && item <= i)
        }),
    decreases lines.len(),
{
    let fewer = lines.drop_last();
    if l < fewer.len() {
        assert(fewer[l] == lines[l]);
        cell_place_is_first(fewer, id, l, i);
    } else {
        item_place_is_first(lines.last().apps@, id, i);
        cell_place_holds(fewer, id);
    }
}

/// Of several applications with an id, the first counts: that of the first row
/// that has one, there of the first line, and there the first item.
pub proof fn first_place_in_a_column(
    cells: Seq<Vec<Line>>,
    id: Seq<char>,
    r: int,
    l: int,
    i: int,
)
    requires
        0 <= r < cells.len(),
        0 <= l < cells[r]@.len(),
        0 <= i < cells[r]@[l].apps@.len(),
        cells[r]@[l].apps@[i].id@ == id,
    ensures
        column_place(cells, id) is Some,
        ({
            let (row, line, item) = column_place(cells, id)->0;
            row < r || (row == r && (line < l || (line == l && item <= i)))
        }),
    decreases cells.len(),
{
    let fewer = cells.drop_last();
    if r < fewer.len() {
        assert(fewer[r] == cells[r]);
        first_place_in_a_column(fewer, id, r, l, i);
    } else {
        cell_place_is_first(cells.last()@, id, l, i);
        column_place_holds(fewer, id);
    }
}

/// An update brings its column; one without a column brings an empty one with its
/// error, for the machine that it is for.
pub proof fn updates_bring_their_column(config: MachineConfig, rows: nat, update: ProviderUpdate)
    ensures
        ({
            let column = updated_column(config, rows, update);
            &&& update.column is Some ==> column == update.column->0@
            &&& update.column is None ==> column.name == config.name@ && column.cells.len() == rows
            &&& update.column is None && update.error is Some ==> column.error == Some(
                update.error->0@,
            )
            &&& update.column is None && update.error is None ==> column.error is None
            &&& update.column is None ==> forall|r: int|
                0 <= r < rows ==> (#[trigger] column.cells[r]).len() == 0
        }),
{
}

/// The last update for a machine decides on its column, where that differs from
/// what is shown.
pub proof fn last_update_decides(
    machines: Seq<MachineConfig>,
    base: Seq<Machine>,
    rows: nat,
    updates: Seq<ProviderUpdate>,
    u: int,
    i: int,
)
    requires
        0 <= u < updates.len(),
        0 <= i < machines.len(),
        0 <= i < base.len(),
        machines[i].name@ == updates[u].machine@,
        forall|k: int| 0 <= k < i ==> (#[trigger] machines[k]).name@ != updates[u].machine@,
        forall|v: int|
            u < v < updates.len() ==> (#[trigger] updates[v]).machine@ != updates[u].machine@,
        updates[u].column is Some,
        updates[u].column->0@ != base[i]@,
    ensures
        with_replaced(base, replaced(machines, base, rows, updates))[i] == updates[u].column->0@,
    decreases updates.len(),
{
    let fewer = updates.drop_last();
    first_machine_of_the_name(machines, updates[u].machine@);
    if u < fewer.len() {
        assert(fewer[u] == updates[u]);
        assert forall|v: int| u < v < fewer.len() implies (#[trigger] fewer[v]).machine@
            != fewer[u].machine@ by {
            assert(fewer[v] == updates[v]);
        }
        last_update_decides(machines, base, rows, fewer, u, i);
        first_machine_of_the_name(machines, updates.last().machine@);
        assert(updates[updates.len() - 1].machine@ != updates[u].machine@);
        let before = replaced(machines, base, rows, fewer);
        let after = replaced(machines, base, rows, updates);
        assert(after.contains_key(i) == before.contains_key(i));
        assert(after.contains_key(i) ==> after[i] == before[i]);
    }
}

/// A selection whose application is gone stays in the column of its machine, goes
/// to the row of its folder where that is left, and is told to be outside.
pub proof fn selection_falls_back_to_its_folder(
    anchor: SelectionAnchor,
    view: Seq<Machine>,
    folders: Seq<Seq<char>>,
    s: Selection,
    col: int,
    row: int,
)
    requires
        view.len() <= usize::MAX,
        folders.len() <= usize::MAX,
        anchor.machine is Some,
        0 <= col < view.len(),
        view[col].name@ == anchor.machine->0@,
        forall|k: int| 0 <= k < col ==> (#[trigger] view[k]).name@ != anchor.machine->0@,
        anchor.app is Some ==> forall|r: int, l: int, i: int|
            0 <= r < view[col].cells@.len() && 0 <= l < view[col].cells@[r]@.len() && 0 <= i
                < view[col].cells@[r]@[l].apps@.len() ==> (
            #[trigger] view[col].cells@[r]@[l].apps@[i]).id@ != anchor.app->0@,
        anchor.folder is Some,
        0 <= row < folders.len(),
        folders[row] == anchor.folder->0@,
        forall|k: int| 0 <= k < row ==> #[trigger] folders[k] != anchor.folder->0@,
    ensures
        ({
            let (moved, outside) = restored(anchor, view, folders, s);
            &&& outside
            &&& moved.col == col
            &&& moved.row == row
            &&& moved.line == s.line && moved.item == s.item && moved.item_goal == s.item_goal
            &&& moved.focus == anchor.focus
        }),
{
    let names = column_names(view);
    first_place_of_a_text(names, anchor.machine->0@);
    let at = text_place(names, anchor.machine->0@);
    assert(names[col] == anchor.machine->0@);
    assert(at is Some);
    if at->0 < col {
        assert(names[at->0] == view[at->0].name@);
    }
    assert(at->0 == col);
    first_place_of_a_text(folders, anchor.folder->0@);
    assert(text_place(folders, anchor.folder->0@) == Some(row));
    if anchor.app is Some {
        column_place_holds(view[col].cells@, anchor.app->0@);
        if column_place(view[col].cells@, anchor.app->0@) is Some {
            let (r, l, i) = column_place(view[col].cells@, anchor.app->0@)->0;
            assert(view[col].cells@[r]@[l].apps@[i].id@ == anchor.app->0@);
        }
    }
}

/// Columns are shown in their order: each as it is, unless it was replaced.
pub proof fn columns_are_shown_in_order(
    machines: Seq<Machine>,
    replacements: Map<int, crate::column::MachineView>,
    i: int,
)
    requires
        0 <= i < machines.len(),
    ensures
        machine_views(machines).len() == machines.len(),
        machine_views(machines)[i] == machines[i]@,
        with_replaced(machines, replacements).len() == machines.len(),
        replacements.contains_key(i) ==> with_replaced(machines, replacements)[i]
            == replacements[i],
        !replacements.contains_key(i) ==> with_replaced(machines, replacements)[i] == machines[i]@,
        column_names(machines).len() == machines.len(),
        column_names(machines)[i] == machines[i].name@,
{
}

/// The application of a selection is the one at its place, if there is one.
pub proof fn selection_is_on_its_application(view: Seq<Machine>, s: Selection)
    ensures
        app_at(view, s) is Some <==> s.col < view.len() && s.row < view[s.col as int].cells@.len()
            && s.line < view[s.col as int].cells@[s.row as int]@.len() && s.item
            < view[s.col as int].cells@[s.row as int]@[s.line as int].apps@.len(),
        app_at(view, s) is Some ==> app_at(view, s)->0
            == view[s.col as int].cells@[s.row as int]@[s.line as int].apps@[s.item as int],
{
}

} // verus!
