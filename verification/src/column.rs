//! A machine's column in the launcher: its rows, lines and applications, how an
//! inventory fills them, and how the selection survives a change.

use crate::config::{Inventory, InventoryApp, InventoryFolder, MachineConfig, SubRow};
use crate::text::{contains_part, same_text, to_lowercase, TextMap};
use vstd::prelude::*;
use vstd::string::*;

verus! {

/// An application that can be launched.
#[derive(Debug, Clone, PartialEq, Eq)]
pub struct App {
    pub id: String,
    pub name: String,
    pub icon: String,
    /// The command line that starts the application.
    pub command: String,
    pub terminal: bool,
    pub desktop_file: String,
}

/// A group of applications inside a cell.
#[derive(Debug, Clone, PartialEq, Eq)]
pub struct Line {
    pub name: Option<String>,
    pub apps: Vec<App>,
}

/// A machine with one cell for each row of the launcher.
#[derive(Debug, Clone, PartialEq, Eq)]
pub struct Machine {
    pub name: String,
    pub aliases: Vec<String>,
    pub accent: String,
    pub launch: Vec<String>,
    pub error: Option<String>,
    pub cells: Vec<Vec<Line>>,
}

/// What an application holds.
#[verifier::ext_equal]
pub struct AppView {
    pub id: Seq<char>,
    pub name: Seq<char>,
    pub icon: Seq<char>,
    pub command: Seq<char>,
    pub terminal: bool,
    pub desktop_file: Seq<char>,
}

/// What a line holds.
#[verifier::ext_equal]
pub struct LineView {
    pub name: Option<Seq<char>>,
    pub apps: Seq<AppView>,
}

/// What a machine holds.
#[verifier::ext_equal]
pub struct MachineView {
    pub name: Seq<char>,
    pub aliases: Seq<Seq<char>>,
    pub accent: Seq<char>,
    pub launch: Seq<Seq<char>>,
    pub error: Option<Seq<char>>,
    pub cells: Seq<Seq<LineView>>,
}

impl View for App {
    type V = AppView;

    open spec fn view(&self) -> AppView {
        AppView {
            id: self.id@,
            name: self.name@,
            icon: self.icon@,
            command: self.command@,
            terminal: self.terminal,
            desktop_file: self.desktop_file@,
        }
    }
}

/// What a list of applications holds.
pub open spec fn app_views(apps: Seq<App>) -> Seq<AppView> {
    Seq::new(apps.len(), |i: int| apps[i]@)
}

impl View for Line {
    type V = LineView;

    open spec fn view(&self) -> LineView {
        LineView { name: crate::text::opt_text(self.name), apps: app_views(self.apps@) }
    }
}

/// What a cell holds.
pub open spec fn line_views(lines: Seq<Line>) -> Seq<LineView> {
    Seq::new(lines.len(), |i: int| lines[i]@)
}

/// What a column of cells holds.
pub open spec fn cell_views(cells: Seq<Vec<Line>>) -> Seq<Seq<LineView>> {
    Seq::new(cells.len(), |i: int| line_views(cells[i]@))
}

impl View for Machine {
    type V = MachineView;

    open spec fn view(&self) -> MachineView {
        MachineView {
            name: self.name@,
            aliases: crate::text::texts(self.aliases@),
            accent: self.accent@,
            launch: crate::text::texts(self.launch@),
            error: crate::text::opt_text(self.error),
            cells: cell_views(self.cells@),
        }
    }
}

pub(crate) fn copy_texts(list: &Vec<String>) -> (r: Vec<String>)
    ensures
        crate::text::texts(r@) == crate::text::texts(list@),
        r@.len() == list@.len(),
{
    let mut out: Vec<String> = Vec::new();
    let mut i: usize = 0;
    while i < list.len()
        invariant
            i <= list.len(),
            out@.len() == i,
            forall|k: int| 0 <= k < i ==> out@[k]@ == list@[k]@,
        decreases list.len() - i,
    {
        out.push(list[i].clone());
        i = i + 1;
    }
    assert(crate::text::texts(out@) =~= crate::text::texts(list@));
    out
}

fn copy_opt_text(value: &Option<String>) -> (r: Option<String>)
    ensures
        r == *value,
{
    match value {
        Some(text) => Some(text.clone()),
        None => None,
    }
}

/// A copy of an application.
pub fn copy_app(app: &App) -> (r: App)
    ensures
        r@ == app@,
{
    App {
        id: app.id.clone(),
        name: app.name.clone(),
        icon: app.icon.clone(),
        command: app.command.clone(),
        terminal: app.terminal,
        desktop_file: app.desktop_file.clone(),
    }
}

fn copy_line(line: &Line) -> (r: Line)
    ensures
        r@ == line@,
{
    let mut apps: Vec<App> = Vec::new();
    let mut i: usize = 0;
    while i < line.apps.len()
        invariant
            i <= line.apps.len(),
            apps@.len() == i,
            forall|k: int| 0 <= k < i ==> (#[trigger] apps@[k])@ == line.apps@[k]@,
        decreases line.apps.len() - i,
    {
        apps.push(copy_app(&line.apps[i]));
        i = i + 1;
    }
    assert(app_views(apps@) =~= app_views(line.apps@));
    Line { name: copy_opt_text(&line.name), apps }
}

fn copy_lines(lines: &Vec<Line>) -> (r: Vec<Line>)
    ensures
        line_views(r@) == line_views(lines@),
{
    let mut out: Vec<Line> = Vec::new();
    let mut i: usize = 0;
    while i < lines.len()
        invariant
            i <= lines.len(),
            out@.len() == i,
            forall|k: int| 0 <= k < i ==> (#[trigger] out@[k])@ == lines@[k]@,
        decreases lines.len() - i,
    {
        out.push(copy_line(&lines[i]));
        i = i + 1;
    }
    assert(line_views(out@) =~= line_views(lines@));
    out
}

/// A copy of a machine.
pub fn copy_machine(machine: &Machine) -> (r: Machine)
    ensures
        r@ == machine@,
{
    let mut cells: Vec<Vec<Line>> = Vec::new();
    let mut i: usize = 0;
    while i < machine.cells.len()
        invariant
            i <= machine.cells.len(),
            cells@.len() == i,
            forall|k: int|
                0 <= k < i ==> line_views((#[trigger] cells@[k])@) == line_views(
                    machine.cells@[k]@,
                ),
        decreases machine.cells.len() - i,
    {
        cells.push(copy_lines(&machine.cells[i]));
        i = i + 1;
    }
    assert(cell_views(cells@) =~= cell_views(machine.cells@));
    Machine {
        name: machine.name.clone(),
        aliases: copy_texts(&machine.aliases),
        accent: machine.accent.clone(),
        launch: copy_texts(&machine.launch),
        error: copy_opt_text(&machine.error),
        cells,
    }
}

pub(crate) fn same_texts(a: &Vec<String>, b: &Vec<String>) -> (r: bool)
    ensures
        r == (crate::text::texts(a@) == crate::text::texts(b@)),
{
    if a.len() != b.len() {
        assert(crate::text::texts(a@).len() != crate::text::texts(b@).len());
        return false;
    }
    let mut i: usize = 0;
    while i < a.len()
        invariant
            i <= a.len(),
            a.len() == b.len(),
            forall|k: int| 0 <= k < i ==> a@[k]@ == b@[k]@,
        decreases a.len() - i,
    {
        if !same_text(a[i].as_str(), b[i].as_str()) {
            assert(crate::text::texts(a@)[i as int] != crate::text::texts(b@)[i as int]);
            return false;
        }
        i = i + 1;
    }
    assert(crate::text::texts(a@) =~= crate::text::texts(b@));
    true
}

pub(crate) fn same_opt_text(a: &Option<String>, b: &Option<String>) -> (r: bool)
    ensures
        r == (crate::text::opt_text(*a) == crate::text::opt_text(*b)),
{
    match (a, b) {
        (Some(x), Some(y)) => same_text(x.as_str(), y.as_str()),
        (None, None) => true,
        _ => false,
    }
}

fn same_app(a: &App, b: &App) -> (r: bool)
    ensures
        r == (a@ == b@),
{
    same_text(a.id.as_str(), b.id.as_str()) && same_text(a.name.as_str(), b.name.as_str())
        && same_text(a.icon.as_str(), b.icon.as_str()) && same_text(
        a.command.as_str(),
        b.command.as_str(),
    ) && a.terminal == b.terminal && same_text(a.desktop_file.as_str(), b.desktop_file.as_str())
}

fn same_line(a: &Line, b: &Line) -> (r: bool)
    ensures
        r == (a@ == b@),
{
    if !same_opt_text(&a.name, &b.name) {
        return false;
    }
    if a.apps.len() != b.apps.len() {
        assert(a@.apps.len() != b@.apps.len());
        return false;
    }
    let mut i: usize = 0;
    while i < a.apps.len()
        invariant
            i <= a.apps.len(),
            a.apps.len() == b.apps.len(),
            forall|k: int| 0 <= k < i ==> (#[trigger] a.apps@[k])@ == b.apps@[k]@,
        decreases a.apps.len() - i,
    {
        if !same_app(&a.apps[i], &b.apps[i]) {
            assert(a@.apps[i as int] != b@.apps[i as int]);
            return false;
        }
        i = i + 1;
    }
    assert(app_views(a.apps@) =~= app_views(b.apps@));
    true
}

fn same_lines(a: &Vec<Line>, b: &Vec<Line>) -> (r: bool)
    ensures
        r == (line_views(a@) == line_views(b@)),
{
    if a.len() != b.len() {
        assert(line_views(a@).len() != line_views(b@).len());
        return false;
    }
    let mut i: usize = 0;
    while i < a.len()
        invariant
            i <= a.len(),
            a.len() == b.len(),
            forall|k: int| 0 <= k < i ==> (#[trigger] a@[k])@ == b@[k]@,
        decreases a.len() - i,
    {
        if !same_line(&a[i], &b[i]) {
            assert(line_views(a@)[i as int] != line_views(b@)[i as int]);
            return false;
        }
        i = i + 1;
    }
    assert(line_views(a@) =~= line_views(b@));
    true
}

/// Whether two machines hold the same.
pub fn same_machine(a: &Machine, b: &Machine) -> (r: bool)
    ensures
        r == (a@ == b@),
{
    if !same_text(a.name.as_str(), b.name.as_str()) || !same_text(
        a.accent.as_str(),
        b.accent.as_str(),
    ) || !same_texts(&a.aliases, &b.aliases) || !same_texts(&a.launch, &b.launch) || !same_opt_text(
        &a.error,
        &b.error,
    ) {
        return false;
    }
    if a.cells.len() != b.cells.len() {
        assert(a@.cells.len() != b@.cells.len());
        return false;
    }
    let mut i: usize = 0;
    while i < a.cells.len()
        invariant
            i <= a.cells.len(),
            a.cells.len() == b.cells.len(),
            forall|k: int|
                0 <= k < i ==> line_views((#[trigger] a.cells@[k])@) == line_views(b.cells@[k]@),
        decreases a.cells.len() - i,
    {
        if !same_lines(&a.cells[i], &b.cells[i]) {
            assert(a@.cells[i as int] != b@.cells[i as int]);
            return false;
        }
        i = i + 1;
    }
    assert(cell_views(a.cells@) =~= cell_views(b.cells@));
    true
}

/// A machine without applications.
pub open spec fn empty_view(config: MachineConfig, rows: nat, error: Option<Seq<char>>) -> MachineView {
    MachineView {
        name: config.name@,
        aliases: crate::text::texts(config.aliases@),
        accent: config.accent@,
        launch: crate::text::texts(config.launch@),
        error,
        cells: Seq::new(rows, |i: int| Seq::empty()),
    }
}

/// A machine without applications, with one empty cell for each row.
pub fn empty_machine(config: &MachineConfig, rows: usize) -> (r: Machine)
    ensures
        r@ == empty_view(*config, rows as nat, None),
        r.cells@.len() == rows,
{
    let mut cells: Vec<Vec<Line>> = Vec::new();
    let mut i: usize = 0;
    while i < rows
        invariant
            i <= rows,
            cells@.len() == i,
            forall|k: int| 0 <= k < i ==> (#[trigger] cells@[k])@.len() == 0,
        decreases rows - i,
    {
        cells.push(Vec::new());
        i = i + 1;
    }
    proof {
        assert forall|k: int| 0 <= k < rows implies #[trigger] cell_views(cells@)[k]
            =~= Seq::<LineView>::empty() by {}
        assert(cell_views(cells@) =~= Seq::new(rows as nat, |k: int| Seq::<LineView>::empty()));
    }
    Machine {
        name: config.name.clone(),
        aliases: copy_texts(&config.aliases),
        accent: config.accent.clone(),
        launch: copy_texts(&config.launch),
        error: None,
        cells,
    }
}

/// Whether a named rung takes an application: one of its words, when it is not
/// empty, is part of the application's id or name, whatever the case.
pub open spec fn rung_takes(rung: SubRow, app: InventoryApp) -> bool {
    exists|i: int|
        0 <= i < rung.apps@.len() && word_matches((#[trigger] rung.apps@[i])@, app)
}

/// Whether a word is part of an application's id or name, whatever the case.
pub open spec fn word_matches(word: Seq<char>, app: InventoryApp) -> bool {
    let wanted = crate::text::lowercase(word);
    wanted.len() > 0 && (crate::text::has_part(
        crate::text::lowercase(crate::text::text_or_empty(app.id)),
        wanted,
    ) || crate::text::has_part(crate::text::lowercase(app.name@), wanted))
}

/// The first rung that takes an application.
pub open spec fn taking_rung(rungs: Seq<SubRow>, app: InventoryApp) -> Option<int>
    decreases rungs.len(),
{
    if rungs.len() == 0 {
        None
    } else {
        match taking_rung(rungs.drop_last(), app) {
            Some(i) => Some(i),
            None => if rung_takes(rungs.last(), app) {
                Some(rungs.len() - 1)
            } else {
                None
            },
        }
    }
}

/// The label of the row that an application of a folder belongs to.
pub open spec fn row_label(folder: Seq<char>, rungs: Option<Vec<SubRow>>, app: InventoryApp) -> Seq<
    char,
> {
    match rungs {
        None => folder,
        Some(list) => match taking_rung(list@, app) {
            Some(i) => folder + "/"@ + list@[i].name@,
            None => folder,
        },
    }
}

/// The first place of a label among the rows; without one, the last row.
pub open spec fn row_place(rows: Seq<Seq<char>>, label: Seq<char>) -> int
    decreases rows.len(),
{
    if rows.len() == 0 {
        0
    } else if rows[0] == label {
        0
    } else if rows.len() == 1 {
        0
    } else {
        1 + row_place(rows.drop_first(), label)
    }
}

/// The row of an application.
pub open spec fn app_row(
    folder: Seq<char>,
    app: InventoryApp,
    rows: Seq<Seq<char>>,
    subrows: TextMap<Vec<SubRow>>,
) -> int {
    row_place(rows, row_label(folder, subrows.value(folder), app))
}

/// An application of an inventory as the launcher shows it.
pub open spec fn shown_app(app: InventoryApp) -> AppView {
    AppView {
        id: crate::inventory::app_key(app),
        name: app.name@,
        icon: app.icon@,
        command: app.command@,
        terminal: app.terminal,
        desktop_file: app.desktop_file@,
    }
}

/// A folder's applications that go to one row, in order.
pub open spec fn row_apps(
    folder: Seq<char>,
    apps: Seq<InventoryApp>,
    rows: Seq<Seq<char>>,
    subrows: TextMap<Vec<SubRow>>,
    row: int,
) -> Seq<AppView>
    decreases apps.len(),
{
    if apps.len() == 0 {
        Seq::empty()
    } else {
        let before = row_apps(folder, apps.drop_last(), rows, subrows, row);
        if app_row(folder, apps.last(), rows, subrows) == row {
            before.push(shown_app(apps.last()))
        } else {
            before
        }
    }
}

/// The lines of one row: one for each folder that has applications there.
pub open spec fn row_lines(
    folders: Seq<InventoryFolder>,
    rows: Seq<Seq<char>>,
    subrows: TextMap<Vec<SubRow>>,
    row: int,
) -> Seq<LineView>
    decreases folders.len(),
{
    if folders.len() == 0 {
        Seq::empty()
    } else {
        let before = row_lines(folders.drop_last(), rows, subrows, row);
        let apps = row_apps(folders.last().label@, folders.last().apps@, rows, subrows, row);
        if apps.len() == 0 {
            before
        } else {
            before.push(LineView { name: None, apps })
        }
    }
}

/// The column of a machine with this inventory. The provider's error comes
/// before the inventory's own.
pub open spec fn column_view(
    config: MachineConfig,
    inventory: Option<Inventory>,
    provider_error: Option<Seq<char>>,
    rows: Seq<Seq<char>>,
    subrows: TextMap<Vec<SubRow>>,
) -> MachineView {
    match inventory {
        None => empty_view(config, rows.len(), provider_error),
        Some(inv) => MachineView {
            cells: Seq::new(rows.len(), |row: int| row_lines(inv.folders@, rows, subrows, row)),
            ..empty_view(
                config,
                rows.len(),
                match provider_error {
                    Some(error) => Some(error),
                    None => crate::text::opt_text(inv.error),
                },
            )
        },
    }
}

fn takes(rung: &SubRow, app: &InventoryApp, id: &String, name: &String) -> (r: bool)
    requires
        id@ == crate::text::lowercase(crate::text::text_or_empty(app.id)),
        name@ == crate::text::lowercase(app.name@),
    ensures
        r == rung_takes(*rung, *app),
{
    let mut i: usize = 0;
    while i < rung.apps.len()
        invariant
            i <= rung.apps.len(),
            id@ == crate::text::lowercase(crate::text::text_or_empty(app.id)),
            name@ == crate::text::lowercase(app.name@),
            forall|k: int| 0 <= k < i ==> !word_matches((#[trigger] rung.apps@[k])@, *app),
        decreases rung.apps.len() - i,
    {
        let wanted = to_lowercase(rung.apps[i].as_str());
        if !wanted.as_str().is_empty() && (contains_part(id.as_str(), wanted.as_str())
            || contains_part(name.as_str(), wanted.as_str())) {
            assert(word_matches(rung.apps@[i as int]@, *app));
            return true;
        }
        i = i + 1;
    }
    false
}

fn find_rung(rungs: &Vec<SubRow>, app: &InventoryApp) -> (r: Option<usize>)
    ensures
        match r {
            Some(i) => i < rungs@.len() && taking_rung(rungs@, *app) == Some(i as int),
            None => taking_rung(rungs@, *app) is None,
        },
{
    let id = match &app.id {
        Some(id) => to_lowercase(id.as_str()),
        None => {
            let none = String::new();
            to_lowercase(none.as_str())
        },
    };
    let name = to_lowercase(app.name.as_str());
    let mut found: Option<usize> = None;
    let mut i: usize = 0;
    while i < rungs.len()
        invariant
            i <= rungs.len(),
            id@ == crate::text::lowercase(crate::text::text_or_empty(app.id)),
            name@ == crate::text::lowercase(app.name@),
            taking_rung(rungs@.take(i as int), *app) == (match found {
                Some(f) => Some(f as int),
                None => None,
            }),
            found is Some ==> found->0 < i,
        decreases rungs.len() - i,
    {
        assert(rungs@.take(i + 1).drop_last() =~= rungs@.take(i as int));
        if found.is_none() && takes(&rungs[i], app, &id, &name) {
            found = Some(i);
        }
        i = i + 1;
    }
    assert(rungs@.take(i as int) =~= rungs@);
    found
}

proof fn row_place_found(rows: Seq<Seq<char>>, label: Seq<char>, i: int)
    requires
        0 <= i < rows.len(),
        rows[i] == label || i == rows.len() - 1,
        forall|k: int| 0 <= k < i ==> rows[k] != label,
    ensures
        row_place(rows, label) == i,
    decreases rows.len(),
{
    if i > 0 {
        row_place_found(rows.drop_first(), label, i - 1);
    }
}

/// The row of an application: where its label stands first, or the last row.
pub fn place_app(
    folder: &str,
    app: &InventoryApp,
    rows: &Vec<String>,
    subrows: &TextMap<Vec<SubRow>>,
) -> (r: usize)
    ensures
        r == app_row(folder@, *app, crate::text::texts(rows@), *subrows),
        rows@.len() > 0 ==> r < rows@.len(),
{
    let mut label = folder.to_owned();
    if let Some(list) = subrows.get(folder) {
        if let Some(i) = find_rung(list, app) {
            label.append("/");
            label.append(list[i].name.as_str());
        }
    }
    let ghost views = crate::text::texts(rows@);
    if rows.len() == 0 {
        return 0;
    }
    let mut i: usize = 0;
    while i < rows.len() - 1
        invariant
            0 < rows.len(),
            i < rows.len(),
            views == crate::text::texts(rows@),
            label@ == row_label(folder@, subrows.value(folder@), *app),
            forall|k: int| 0 <= k < i ==> views[k] != label@,
        decreases rows.len() - i,
    {
        if same_text(rows[i].as_str(), label.as_str()) {
            proof {
                row_place_found(views, label@, i as int);
            }
            return i;
        }
        i = i + 1;
    }
    proof {
        row_place_found(views, label@, i as int);
    }
    i
}

fn show_app(app: &InventoryApp) -> (r: App)
    ensures
        r@ == shown_app(*app),
        r.id@ == (match app.id {
            Some(id) => id@,
            None => app.name@,
        }),
        r.name@ == app.name@,
        r.icon@ == app.icon@,
        r.command@ == app.command@,
        r.terminal == app.terminal,
        r.desktop_file@ == app.desktop_file@,
{
    App {
        id: match &app.id {
            Some(id) => id.clone(),
            None => app.name.clone(),
        },
        name: app.name.clone(),
        icon: app.icon.clone(),
        command: app.command.clone(),
        terminal: app.terminal,
        desktop_file: app.desktop_file.clone(),
    }
}

/// The rows of a folder's applications, in order.
fn place_folder(
    folder: &InventoryFolder,
    rows: &Vec<String>,
    subrows: &TextMap<Vec<SubRow>>,
) -> (r: Vec<usize>)
    ensures
        r@.len() == folder.apps@.len(),
        forall|i: int|
            0 <= i < r@.len() ==> #[trigger] r@[i] == app_row(
                folder.label@,
                folder.apps@[i],
                crate::text::texts(rows@),
                *subrows,
            ),
{
    let mut places: Vec<usize> = Vec::new();
    let mut i: usize = 0;
    while i < folder.apps.len()
        invariant
            i <= folder.apps.len(),
            places@.len() == i,
            forall|k: int|
                0 <= k < i ==> #[trigger] places@[k] == app_row(
                    folder.label@,
                    folder.apps@[k],
                    crate::text::texts(rows@),
                    *subrows,
                ),
        decreases folder.apps.len() - i,
    {
        places.push(place_app(folder.label.as_str(), &folder.apps[i], rows, subrows));
        i = i + 1;
    }
    places
}

/// A folder's applications that were placed in one row.
fn pick_row(
    folder: &InventoryFolder,
    places: &Vec<usize>,
    row: usize,
    Ghost(rows): Ghost<Seq<Seq<char>>>,
    subrows: &TextMap<Vec<SubRow>>,
) -> (r: Vec<App>)
    requires
        places@.len() == folder.apps@.len(),
        forall|i: int|
            0 <= i < places@.len() ==> #[trigger] places@[i] == app_row(
                folder.label@,
                folder.apps@[i],
                rows,
                *subrows,
            ),
    ensures
        app_views(r@) == row_apps(folder.label@, folder.apps@, rows, *subrows, row as int),
{
    let mut apps: Vec<App> = Vec::new();
    let mut i: usize = 0;
    assert(app_views(apps@) =~= Seq::empty());
    while i < folder.apps.len()
        invariant
            i <= folder.apps.len(),
            places@.len() == folder.apps@.len(),
            forall|k: int|
                0 <= k < places@.len() ==> #[trigger] places@[k] == app_row(
                    folder.label@,
                    folder.apps@[k],
                    rows,
                    *subrows,
                ),
            app_views(apps@) == row_apps(
                folder.label@,
                folder.apps@.take(i as int),
                rows,
                *subrows,
                row as int,
            ),
        decreases folder.apps.len() - i,
    {
        assert(folder.apps@.take(i + 1).drop_last() =~= folder.apps@.take(i as int));
        assert(folder.apps@.take(i + 1).last() == folder.apps@[i as int]);
        assert(places@[i as int] == app_row(folder.label@, folder.apps@[i as int], rows, *subrows));
        if places[i] == row {
            let ghost before = apps@;
            apps.push(show_app(&folder.apps[i]));
            assert(app_views(apps@) =~= app_views(before).push(shown_app(folder.apps@[i as int])));
        }
        i = i + 1;
    }
    assert(folder.apps@.take(i as int) =~= folder.apps@);
    apps
}

/// The column of a machine: its applications sorted into the rows of the
/// launcher, each folder's share of a row as one line.
pub fn machine_from(
    machine: &MachineConfig,
    inventory: Option<&Inventory>,
    provider_error: Option<&str>,
    rows: &Vec<String>,
    subrows: &TextMap<Vec<SubRow>>,
) -> (r: Machine)
    ensures
        r@ == column_view(
            *machine,
            match inventory {
                Some(inv) => Some(*inv),
                None => None,
            },
            match provider_error {
                Some(error) => Some(error@),
                None => None,
            },
            crate::text::texts(rows@),
            *subrows,
        ),
{
    let ghost views = crate::text::texts(rows@);
    let mut result = empty_machine(machine, rows.len());
    let shown_error = match provider_error {
        Some(error) => Some(error.to_owned()),
        None => None,
    };
    let inv = match inventory {
        None => {
            result.error = shown_error;
            assert(result@ =~= empty_view(*machine, views.len(), crate::text::opt_text(shown_error)));
            return result;
        },
        Some(inv) => inv,
    };
    let mut places: Vec<Vec<usize>> = Vec::new();
    let mut f: usize = 0;
    while f < inv.folders.len()
        invariant
            f <= inv.folders.len(),
            views == crate::text::texts(rows@),
            places@.len() == f,
            forall|k: int, i: int|
                0 <= k < f && 0 <= i < inv.folders@[k].apps@.len()
                    ==> (#[trigger] places@[k]@[i]) == app_row(
                    inv.folders@[k].label@,
                    inv.folders@[k].apps@[i],
                    views,
                    *subrows,
                ),
            forall|k: int|
                0 <= k < f ==> (#[trigger] places@[k])@.len() == inv.folders@[k].apps@.len(),
        decreases inv.folders.len() - f,
    {
        places.push(place_folder(&inv.folders[f], rows, subrows));
        f = f + 1;
    }
    let mut cells: Vec<Vec<Line>> = Vec::new();
    let mut row: usize = 0;
    while row < rows.len()
        invariant
            row <= rows.len(),
            views == crate::text::texts(rows@),
            places@.len() == inv.folders@.len(),
            forall|k: int, i: int|
                0 <= k < inv.folders@.len() && 0 <= i < inv.folders@[k].apps@.len()
                    ==> (#[trigger] places@[k]@[i]) == app_row(
                    inv.folders@[k].label@,
                    inv.folders@[k].apps@[i],
                    views,
                    *subrows,
                ),
            forall|k: int|
                0 <= k < inv.folders@.len() ==> (#[trigger] places@[k])@.len()
                    == inv.folders@[k].apps@.len(),
            cells@.len() == row,
            forall|k: int|
                0 <= k < row ==> line_views((#[trigger] cells@[k])@) == row_lines(
                    inv.folders@,
                    views,
                    *subrows,
                    k,
                ),
        decreases rows.len() - row,
    {
        let mut lines: Vec<Line> = Vec::new();
        f = 0;
        assert(line_views(lines@) =~= Seq::empty());
        while f < inv.folders.len()
            invariant
                f <= inv.folders.len(),
                places@.len() == inv.folders@.len(),
                forall|k: int, i: int|
                    0 <= k < inv.folders@.len() && 0 <= i < inv.folders@[k].apps@.len()
                        ==> (#[trigger] places@[k]@[i]) == app_row(
                        inv.folders@[k].label@,
                        inv.folders@[k].apps@[i],
                        views,
                        *subrows,
                    ),
                forall|k: int|
                    0 <= k < inv.folders@.len() ==> (#[trigger] places@[k])@.len()
                        == inv.folders@[k].apps@.len(),
                line_views(lines@) == row_lines(
                    inv.folders@.take(f as int),
                    views,
                    *subrows,
                    row as int,
                ),
            decreases inv.folders.len() - f,
        {
            assert(inv.folders@.take(f + 1).drop_last() =~= inv.folders@.take(f as int));
            let apps = pick_row(&inv.folders[f], &places[f], row, Ghost(views), subrows);
            assert(app_views(apps@).len() == apps@.len());
            if apps.len() > 0 {
                let ghost before = lines@;
                lines.push(Line { name: None, apps });
                assert(line_views(lines@) =~= line_views(before).push(
                    (LineView {
                        name: None,
                        apps: row_apps(
                            inv.folders@[f as int].label@,
                            inv.folders@[f as int].apps@,
                            views,
                            *subrows,
                            row as int,
                        ),
                    }),
                ));
            }
            f = f + 1;
        }
        assert(inv.folders@.take(f as int) =~= inv.folders@);
        cells.push(lines);
        row = row + 1;
    }
    assert(cell_views(cells@) =~= Seq::new(
        views.len(),
        |k: int| row_lines(inv.folders@, views, *subrows, k),
    ));
    let error = match shown_error {
        Some(error) => Some(error),
        None => copy_opt_text(&inv.error),
    };
    Machine {
        name: result.name,
        aliases: result.aliases,
        accent: result.accent,
        launch: result.launch,
        error,
        cells,
    }
}

/// The number of applications in the first `n` rows of a folder's placement.
pub open spec fn placed_in_rows(
    folder: Seq<char>,
    apps: Seq<InventoryApp>,
    rows: Seq<Seq<char>>,
    subrows: TextMap<Vec<SubRow>>,
    n: nat,
) -> nat
    decreases n,
{
    if n == 0 {
        0
    } else {
        placed_in_rows(folder, apps, rows, subrows, (n - 1) as nat) + row_apps(
            folder,
            apps,
            rows,
            subrows,
            n - 1,
        ).len()
    }
}

proof fn row_place_in_range(rows: Seq<Seq<char>>, label: Seq<char>)
    requires
        rows.len() > 0,
    ensures
        0 <= row_place(rows, label) < rows.len(),
    decreases rows.len(),
{
    if rows.len() > 1 {
        row_place_in_range(rows.drop_first(), label);
    }
}

proof fn placed_step(
    folder: Seq<char>,
    apps: Seq<InventoryApp>,
    rows: Seq<Seq<char>>,
    subrows: TextMap<Vec<SubRow>>,
    n: nat,
)
    requires
        apps.len() > 0,
    ensures
        placed_in_rows(folder, apps, rows, subrows, n) == placed_in_rows(
            folder,
            apps.drop_last(),
            rows,
            subrows,
            n,
        ) + (if 0 <= app_row(folder, apps.last(), rows, subrows) < n {
            1nat
        } else {
            0nat
        }),
    decreases n,
{
    if n > 0 {
        placed_step(folder, apps, rows, subrows, (n - 1) as nat);
    }
}

/// No application of a folder is lost or shown twice: its placements over all
/// rows are as many as its applications.
pub proof fn every_app_is_placed_once(
    folder: Seq<char>,
    apps: Seq<InventoryApp>,
    rows: Seq<Seq<char>>,
    subrows: TextMap<Vec<SubRow>>,
)
    requires
        rows.len() > 0,
    ensures
        placed_in_rows(folder, apps, rows, subrows, rows.len()) == apps.len(),
    decreases apps.len(),
{
    if apps.len() == 0 {
        nothing_placed(folder, apps, rows, subrows, rows.len());
    } else {
        every_app_is_placed_once(folder, apps.drop_last(), rows, subrows);
        placed_step(folder, apps, rows, subrows, rows.len());
        row_place_in_range(rows, row_label(folder, subrows.value(folder), apps.last()));
    }
}

proof fn nothing_placed(
    folder: Seq<char>,
    apps: Seq<InventoryApp>,
    rows: Seq<Seq<char>>,
    subrows: TextMap<Vec<SubRow>>,
    n: nat,
)
    requires
        apps.len() == 0,
    ensures
        placed_in_rows(folder, apps, rows, subrows, n) == 0,
    decreases n,
{
    if n > 0 {
        nothing_placed(folder, apps, rows, subrows, (n - 1) as nat);
    }
}

/// A row with the wanted label is taken where there is one, and the first of
/// them; else the last row.
pub proof fn first_row_with_the_label(rows: Seq<Seq<char>>, label: Seq<char>)
    requires
        rows.len() > 0,
    ensures
        0 <= row_place(rows, label) < rows.len(),
        rows.contains(label) ==> rows[row_place(rows, label)] == label && forall|k: int|
            0 <= k < row_place(rows, label) ==> #[trigger] rows[k] != label,
        !rows.contains(label) ==> row_place(rows, label) == rows.len() - 1,
{
    if rows.contains(label) {
        let at = choose|at: int| 0 <= at < rows.len() && rows[at] == label;
        let i = first_of(rows, label, at);
        row_place_found(rows, label, i);
    } else {
        assert forall|k: int| 0 <= k < rows.len() - 1 implies rows[k] != label by {
            assert(rows.contains(rows[k]));
        }
        row_place_found(rows, label, rows.len() - 1);
    }
}

proof fn first_of(rows: Seq<Seq<char>>, label: Seq<char>, at: int) -> (i: int)
    requires
        0 <= at < rows.len(),
        rows[at] == label,
    ensures
        0 <= i <= at,
        rows[i] == label,
        forall|k: int| 0 <= k < i ==> rows[k] != label,
    decreases at,
{
    if exists|k: int| 0 <= k < at && rows[k] == label {
        let k = choose|k: int| 0 <= k < at && rows[k] == label;
        first_of(rows, label, k)
    } else {
        at
    }
}

/// An application goes to the first rung of its folder that has a word of its id
/// or its name, whatever the case. An empty word takes nothing.
pub proof fn first_rung_with_a_word(
    folder: Seq<char>,
    rungs: Vec<SubRow>,
    app: InventoryApp,
    i: int,
    w: int,
)
    requires
        0 <= i < rungs@.len(),
        0 <= w < rungs@[i].apps@.len(),
        crate::text::lowercase(rungs@[i].apps@[w]@).len() > 0,
        crate::text::has_part(
            crate::text::lowercase(app.name@),
            crate::text::lowercase(rungs@[i].apps@[w]@),
        ) || (app.id is Some && crate::text::has_part(
            crate::text::lowercase(app.id->0@),
            crate::text::lowercase(rungs@[i].apps@[w]@),
        )),
        forall|k: int, v: int|
            0 <= k < i && 0 <= v < rungs@[k].apps@.len() ==> ({
                let word = crate::text::lowercase((#[trigger] rungs@[k].apps@[v])@);
                word.len() == 0 || (!crate::text::has_part(crate::text::lowercase(app.name@), word)
                    && !crate::text::has_part(
                    crate::text::lowercase(crate::text::text_or_empty(app.id)),
                    word,
                ))
            }),
    ensures
        row_label(folder, Some(rungs), app) == folder + "/"@ + rungs@[i].name@,
{
    let list = rungs@;
    assert(word_matches(list[i].apps@[w]@, app));
    assert(rung_takes(list[i], app));
    assert forall|k: int| 0 <= k < i implies !rung_takes(#[trigger] list[k], app) by {
        if rung_takes(list[k], app) {
            let v = choose|v: int|
                0 <= v < list[k].apps@.len() && word_matches((#[trigger] list[k].apps@[v])@, app);
            assert(rungs@[k].apps@[v] == list[k].apps@[v]);
        }
    }
    taking_rung_is_first(list, app, i);
}

proof fn taking_rung_is_first(rungs: Seq<SubRow>, app: InventoryApp, i: int)
    requires
        0 <= i < rungs.len(),
        rung_takes(rungs[i], app),
        forall|k: int| 0 <= k < i ==> !rung_takes(#[trigger] rungs[k], app),
    ensures
        taking_rung(rungs, app) == Some(i),
    decreases rungs.len(),
{
    let fewer = rungs.drop_last();
    if i < fewer.len() {
        taking_rung_is_first(fewer, app, i);
    } else {
        no_rung_takes(fewer, app);
    }
}

proof fn no_rung_takes(rungs: Seq<SubRow>, app: InventoryApp)
    requires
        forall|k: int| 0 <= k < rungs.len() ==> !rung_takes(#[trigger] rungs[k], app),
    ensures
        taking_rung(rungs, app) is None,
    decreases rungs.len(),
{
    if rungs.len() > 0 {
        assert(!rung_takes(rungs[rungs.len() - 1], app));
        assert forall|k: int| 0 <= k < rungs.drop_last().len() implies !rung_takes(
            #[trigger] rungs.drop_last()[k],
            app,
        ) by {
            assert(rungs[k] == rungs.drop_last()[k]);
        }
        no_rung_takes(rungs.drop_last(), app);
    }
}

/// An application that no rung has a word of stays in the row of its folder, and
/// so does one of a folder without rungs.
pub proof fn other_applications_stay_in_the_folder(
    folder: Seq<char>,
    rungs: Vec<SubRow>,
    app: InventoryApp,
)
    ensures
        row_label(folder, None, app) == folder,
        (forall|k: int, v: int|
            0 <= k < rungs@.len() && 0 <= v < rungs@[k].apps@.len() ==> ({
                let word = crate::text::lowercase((#[trigger] rungs@[k].apps@[v])@);
                word.len() == 0 || (!crate::text::has_part(crate::text::lowercase(app.name@), word)
                    && !crate::text::has_part(
                    crate::text::lowercase(crate::text::text_or_empty(app.id)),
                    word,
                ))
            })) ==> row_label(folder, Some(rungs), app) == folder,
{
    if forall|k: int, v: int|
        0 <= k < rungs@.len() && 0 <= v < rungs@[k].apps@.len() ==> ({
            let word = crate::text::lowercase((#[trigger] rungs@[k].apps@[v])@);
            word.len() == 0 || (!crate::text::has_part(crate::text::lowercase(app.name@), word)
                && !crate::text::has_part(
                crate::text::lowercase(crate::text::text_or_empty(app.id)),
                word,
            ))
        }) {
        let list = rungs@;
        assert forall|k: int| 0 <= k < list.len() implies !rung_takes(#[trigger] list[k], app) by {
            if rung_takes(list[k], app) {
                let v = choose|v: int|
                    0 <= v < list[k].apps@.len() && word_matches(
                        (#[trigger] list[k].apps@[v])@,
                        app,
                    );
                assert(rungs@[k].apps@[v] == list[k].apps@[v]);
            }
        }
        no_rung_takes(list, app);
    }
}

proof fn row_apps_hold(
    folder: Seq<char>,
    apps: Seq<InventoryApp>,
    rows: Seq<Seq<char>>,
    subrows: TextMap<Vec<SubRow>>,
    row: int,
    a: int,
) -> (k: int)
    requires
        0 <= a < apps.len(),
        app_row(folder, apps[a], rows, subrows) == row,
    ensures
        0 <= k < row_apps(folder, apps, rows, subrows, row).len(),
        ({
            let shown = row_apps(folder, apps, rows, subrows, row)[k];
            &&& shown.id == (match apps[a].id {
                Some(id) => id@,
                None => apps[a].name@,
            })
            &&& shown.name == apps[a].name@
            &&& shown.icon == apps[a].icon@
            &&& shown.command == apps[a].command@
            &&& shown.terminal == apps[a].terminal
            &&& shown.desktop_file == apps[a].desktop_file@
        }),
    decreases apps.len(),
{
    if a == apps.len() - 1 {
        row_apps(folder, apps.drop_last(), rows, subrows, row).len() as int
    } else {
        row_apps_hold(folder, apps.drop_last(), rows, subrows, row, a)
    }
}

proof fn row_apps_come(
    folder: Seq<char>,
    apps: Seq<InventoryApp>,
    rows: Seq<Seq<char>>,
    subrows: TextMap<Vec<SubRow>>,
    row: int,
    k: int,
) -> (a: int)
    requires
        0 <= k < row_apps(folder, apps, rows, subrows, row).len(),
    ensures
        0 <= a < apps.len(),
        app_row(folder, apps[a], rows, subrows) == row,
        ({
            let shown = row_apps(folder, apps, rows, subrows, row)[k];
            &&& shown.id == (match apps[a].id {
                Some(id) => id@,
                None => apps[a].name@,
            })
            &&& shown.name == apps[a].name@
            &&& shown.icon == apps[a].icon@
            &&& shown.command == apps[a].command@
            &&& shown.terminal == apps[a].terminal
            &&& shown.desktop_file == apps[a].desktop_file@
        }),
    decreases apps.len(),
{
    let before = row_apps(folder, apps.drop_last(), rows, subrows, row);
    if k < before.len() {
        row_apps_come(folder, apps.drop_last(), rows, subrows, row, k)
    } else {
        apps.len() - 1
    }
}

proof fn row_lines_hold(
    folders: Seq<InventoryFolder>,
    rows: Seq<Seq<char>>,
    subrows: TextMap<Vec<SubRow>>,
    row: int,
    f: int,
) -> (line: int)
    requires
        0 <= f < folders.len(),
        row_apps(folders[f].label@, folders[f].apps@, rows, subrows, row).len() > 0,
    ensures
        0 <= line < row_lines(folders, rows, subrows, row).len(),
        row_lines(folders, rows, subrows, row)[line].apps == row_apps(
            folders[f].label@,
            folders[f].apps@,
            rows,
            subrows,
            row,
        ),
    decreases folders.len(),
{
    if f == folders.len() - 1 {
        row_lines(folders.drop_last(), rows, subrows, row).len() as int
    } else {
        row_lines_hold(folders.drop_last(), rows, subrows, row, f)
    }
}

proof fn row_lines_come(
    folders: Seq<InventoryFolder>,
    rows: Seq<Seq<char>>,
    subrows: TextMap<Vec<SubRow>>,
    row: int,
    line: int,
) -> (f: int)
    requires
        0 <= line < row_lines(folders, rows, subrows, row).len(),
    ensures
        0 <= f < folders.len(),
        row_lines(folders, rows, subrows, row)[line].name is None,
        row_lines(folders, rows, subrows, row)[line].apps == row_apps(
            folders[f].label@,
            folders[f].apps@,
            rows,
            subrows,
            row,
        ),
    decreases folders.len(),
{
    let before = row_lines(folders.drop_last(), rows, subrows, row);
    if line < before.len() {
        row_lines_come(folders.drop_last(), rows, subrows, row, line)
    } else {
        folders.len() - 1
    }
}

/// Every application of an inventory is in the column, in the row of its label,
/// with everything that shows and starts it: its id (or else its name), name,
/// icon, command line, terminal flag and desktop file.
pub proof fn applications_are_shown_as_reported(
    config: MachineConfig,
    inventory: Inventory,
    provider_error: Option<Seq<char>>,
    rows: Seq<Seq<char>>,
    subrows: TextMap<Vec<SubRow>>,
    f: int,
    a: int,
) -> (at: (int, int))
    requires
        rows.len() > 0,
        0 <= f < inventory.folders@.len(),
        0 <= a < inventory.folders@[f].apps@.len(),
    ensures
        ({
            let column = column_view(config, Some(inventory), provider_error, rows, subrows);
            let folder = inventory.folders@[f];
            let app = folder.apps@[a];
            let row = row_place(rows, row_label(folder.label@, subrows.value(folder.label@), app));
            let shown = column.cells[row][at.0].apps[at.1];
            &&& 0 <= row < column.cells.len()
            &&& 0 <= at.0 < column.cells[row].len()
            &&& 0 <= at.1 < column.cells[row][at.0].apps.len()
            &&& shown.id == (match app.id {
                Some(id) => id@,
                None => app.name@,
            })
            &&& shown.name == app.name@
            &&& shown.icon == app.icon@
            &&& shown.command == app.command@
            &&& shown.terminal == app.terminal
            &&& shown.desktop_file == app.desktop_file@
        }),
{
    let folder = inventory.folders@[f];
    let app = folder.apps@[a];
    let row = app_row(folder.label@, app, rows, subrows);
    row_place_in_range(rows, row_label(folder.label@, subrows.value(folder.label@), app));
    let k = row_apps_hold(folder.label@, folder.apps@, rows, subrows, row, a);
    let line = row_lines_hold(inventory.folders@, rows, subrows, row, f);
    (line, k)
}

/// Nothing else is in the column: every item comes from an application of the
/// inventory whose label leads to that row, and holds what was reported of it.
pub proof fn shown_applications_were_reported(
    config: MachineConfig,
    inventory: Inventory,
    provider_error: Option<Seq<char>>,
    rows: Seq<Seq<char>>,
    subrows: TextMap<Vec<SubRow>>,
    row: int,
    line: int,
    item: int,
) -> (from: (int, int))
    requires
        ({
            let column = column_view(config, Some(inventory), provider_error, rows, subrows);
            &&& 0 <= row < column.cells.len()
            &&& 0 <= line < column.cells[row].len()
            &&& 0 <= item < column.cells[row][line].apps.len()
        }),
    ensures
        ({
            let column = column_view(config, Some(inventory), provider_error, rows, subrows);
            let folder = inventory.folders@[from.0];
            let app = folder.apps@[from.1];
            let shown = column.cells[row][line].apps[item];
            &&& 0 <= from.0 < inventory.folders@.len()
            &&& 0 <= from.1 < folder.apps@.len()
            &&& row == row_place(
                rows,
                row_label(folder.label@, subrows.value(folder.label@), app),
            )
            &&& shown.id == (match app.id {
                Some(id) => id@,
                None => app.name@,
            })
            &&& shown.name == app.name@
            &&& shown.icon == app.icon@
            &&& shown.command == app.command@
            &&& shown.terminal == app.terminal
            &&& shown.desktop_file == app.desktop_file@
            &&& column.cells[row][line].name is None
        }),
{
    let column = column_view(config, Some(inventory), provider_error, rows, subrows);
    assert(column.cells[row] == row_lines(inventory.folders@, rows, subrows, row));
    let f = row_lines_come(inventory.folders@, rows, subrows, row, line);
    let folder = inventory.folders@[f];
    let a = row_apps_come(folder.label@, folder.apps@, rows, subrows, row, item);
    (f, a)
}

/// A column bears its machine's name, aliases, colour and launch command, has a
/// cell for each row, and shows what went wrong: in asking the machine, or else
/// on the machine.
pub proof fn columns_bear_their_machine(
    config: MachineConfig,
    inventory: Option<Inventory>,
    provider_error: Option<Seq<char>>,
    rows: Seq<Seq<char>>,
    subrows: TextMap<Vec<SubRow>>,
)
    ensures
        ({
            let column = column_view(config, inventory, provider_error, rows, subrows);
            &&& column.name == config.name@
            &&& column.aliases.len() == config.aliases@.len()
            &&& forall|i: int|
                0 <= i < column.aliases.len() ==> #[trigger] column.aliases[i]
                    == config.aliases@[i]@
            &&& column.accent == config.accent@
            &&& column.launch.len() == config.launch@.len()
            &&& forall|i: int|
                0 <= i < column.launch.len() ==> #[trigger] column.launch[i] == config.launch@[i]@
            &&& column.cells.len() == rows.len()
            &&& provider_error is Some ==> column.error == provider_error
            &&& provider_error is None && inventory is Some && inventory->0.error is Some
                ==> column.error == Some(inventory->0.error->0@)
            &&& provider_error is None && (inventory is None || inventory->0.error is None)
                ==> column.error is None
            &&& inventory is None ==> forall|row: int|
                0 <= row < rows.len() ==> (#[trigger] column.cells[row]).len() == 0
        }),
{
}

/// What contracts say of an application, a line or a column is said of its fields.
pub proof fn views_show_the_fields(app: App, line: Line, machine: Machine, row: int, i: int)
    ensures
        app@.id == app.id@ && app@.name == app.name@ && app@.icon == app.icon@,
        app@.command == app.command@ && app@.terminal == app.terminal,
        app@.desktop_file == app.desktop_file@,
        line@.apps.len() == line.apps@.len(),
        0 <= i < line.apps@.len() ==> line@.apps[i] == line.apps@[i]@,
        line@.name is Some <==> line.name is Some,
        line.name is Some ==> line@.name->0 == line.name->0@,
        machine@.name == machine.name@ && machine@.accent == machine.accent@,
        machine@.error is Some <==> machine.error is Some,
        machine.error is Some ==> machine@.error->0 == machine.error->0@,
        machine@.aliases.len() == machine.aliases@.len(),
        0 <= i < machine.aliases@.len() ==> machine@.aliases[i] == machine.aliases@[i]@,
        machine@.launch.len() == machine.launch@.len(),
        0 <= i < machine.launch@.len() ==> machine@.launch[i] == machine.launch@[i]@,
        machine@.cells.len() == machine.cells@.len(),
        0 <= row < machine.cells@.len() ==> machine@.cells[row].len() == machine.cells@[row]@.len(),
        0 <= row < machine.cells@.len() && 0 <= i < machine.cells@[row]@.len()
            ==> machine@.cells[row][i] == machine.cells@[row]@[i]@,
{
}

/// A column without applications still bears its machine, and the error.
pub proof fn empty_columns_bear_their_machine(
    config: MachineConfig,
    rows: nat,
    error: Option<Seq<char>>,
    i: int,
)
    ensures
        ({
            let column = empty_view(config, rows, error);
            &&& column.name == config.name@
            &&& column.accent == config.accent@
            &&& column.aliases.len() == config.aliases@.len()
            &&& 0 <= i < config.aliases@.len() ==> column.aliases[i] == config.aliases@[i]@
            &&& column.launch.len() == config.launch@.len()
            &&& 0 <= i < config.launch@.len() ==> column.launch[i] == config.launch@[i]@
            &&& column.error == error
            &&& column.cells.len() == rows
            &&& 0 <= i < rows ==> column.cells[i].len() == 0
        }),
{
}

/// In a row, the applications of a folder come in their order and so do the lines
/// of the folders, one for each folder that has an application there.
pub proof fn rows_keep_the_order(
    folder: Seq<char>,
    apps: Seq<InventoryApp>,
    app: InventoryApp,
    folders: Seq<InventoryFolder>,
    next: InventoryFolder,
    rows: Seq<Seq<char>>,
    subrows: TextMap<Vec<SubRow>>,
    row: int,
)
    ensures
        ({
            let before = row_apps(folder, apps, rows, subrows, row);
            let after = row_apps(folder, apps.push(app), rows, subrows, row);
            let here = row_place(rows, row_label(folder, subrows.value(folder), app)) == row;
            &&& here ==> after.len() == before.len() + 1 && after.drop_last() == before
                && after.last().name == app.name@ && after.last().command == app.command@
            &&& !here ==> after == before
        }),
        ({
            let before = row_lines(folders, rows, subrows, row);
            let after = row_lines(folders.push(next), rows, subrows, row);
            let own = row_apps(next.label@, next.apps@, rows, subrows, row);
            &&& own.len() == 0 ==> after == before
            &&& own.len() > 0 ==> after.len() == before.len() + 1 && after.drop_last() == before
                && after.last().apps == own
        }),
        row_apps(folder, Seq::empty(), rows, subrows, row).len() == 0,
        row_lines(Seq::empty(), rows, subrows, row).len() == 0,
{
    assert(apps.push(app).drop_last() =~= apps);
    assert(folders.push(next).drop_last() =~= folders);
    let a = row_apps(folder, apps.push(app), rows, subrows, row);
    let b = row_apps(folder, apps, rows, subrows, row);
    if a.len() > b.len() {
        assert(a.drop_last() =~= b);
    }
    let c = row_lines(folders.push(next), rows, subrows, row);
    let d = row_lines(folders, rows, subrows, row);
    if c.len() > d.len() {
        assert(c.drop_last() =~= d);
    }
}

} // verus!
