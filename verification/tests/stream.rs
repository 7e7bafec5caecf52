use cbar::column::{machine_from, App, Machine};
use cbar::config::{Config, Inventory, InventoryApp, InventoryFolder, MachineConfig, SubRow};
use cbar::inventory::inventory_shape;
use cbar::provider::{normalized_column, ProviderStatus, ProviderUpdate};
use cbar::stream::{merged_columns, Focus, LauncherModel, Selection, SelectionAnchor};
use cbar::text::TextMap;

fn machine(name: &str) -> MachineConfig {
    MachineConfig::new(name.to_string(), vec!["provider".to_string()])
}

fn config() -> Config {
    Config::new(vec![machine("local"), machine("remote")])
}

fn inventory(host: &str, apps: &[(&str, &str)]) -> Inventory {
    Inventory {
        host: host.to_string(),
        error: None,
        folders: vec![InventoryFolder {
            label: "Other".to_string(),
            apps: apps
                .iter()
                .map(|(id, name)| InventoryApp {
                    id: Some(id.to_string()),
                    name: name.to_string(),
                    icon: String::new(),
                    command: "true".to_string(),
                    terminal: false,
                    desktop_file: String::new(),
                })
                .collect(),
        }],
    }
}

fn column(name: &str, inventory: Inventory) -> Machine {
    normalized_column(
        &machine(name),
        1024,
        inventory_shape(&inventory),
        Ok(inventory),
        &config().folder_rows(),
        &TextMap::new(),
        1 << 20,
        8192,
    )
    .expect("a valid inventory")
}

fn update(name: &str, inventory: Inventory) -> ProviderUpdate {
    ProviderUpdate {
        machine: name.to_string(),
        column: Some(column(name, inventory)),
        status: ProviderStatus::Online,
        error: None,
    }
}

fn names(machines: &[Machine]) -> Vec<&str> {
    machines.iter().map(|machine| machine.name.as_str()).collect()
}

fn ids(apps: &[App]) -> Vec<&str> {
    apps.iter().map(|app| app.id.as_str()).collect()
}

#[test]
fn independently_arriving_columns_keep_configured_order() {
    let mut model = LauncherModel::new(config());
    assert!(model.apply(update("remote", inventory("remote", &[("zed", "Zed")]))));
    assert_eq!(names(&model.base), ["local", "remote"]);
    assert!(model.base[0].cells.iter().all(Vec::is_empty));
    assert!(!model.base[1].cells[0].is_empty());
    assert_eq!(model.statuses.get("remote"), Some(&ProviderStatus::Online));
    assert!(!model.apply(update("unknown", inventory("unknown", &[]))));
}

#[test]
fn streaming_refresh_preserves_query_focus_and_selected_identity() {
    let mut model = LauncherModel::new(config());
    model.apply(update(
        "local",
        inventory("local", &[("code", "Code"), ("helix", "Helix")]),
    ));
    // What the query `hel` leaves of the columns.
    let found = |base: &Vec<Machine>| {
        let mut view = base.clone();
        for line in view.iter_mut().flat_map(|machine| &mut machine.cells).flatten() {
            line.apps.retain(|app| app.name.starts_with("Hel"));
        }
        view
    };
    let view = found(&model.base);
    let mut selection = Selection {
        col: 0,
        row: 0,
        line: 0,
        item: 0,
        item_goal: 0,
        focus: Focus::Inside,
    };
    let anchor = SelectionAnchor::capture(&view, &model.folders, selection);

    model.apply(update(
        "remote",
        inventory("remote", &[("helix-remote", "Helix")]),
    ));
    let view = found(&model.base);
    anchor.restore(&view, &model.folders, &mut selection);
    assert_eq!(selection.focus, Focus::Inside);
    let selected = &view[selection.col].cells[selection.row][selection.line].apps[selection.item];
    assert_eq!(selected.id, "helix");
    assert_eq!(view[selection.col].name, "local");
}

#[test]
fn offline_update_keeps_last_known_apps_and_marks_only_that_column() {
    let mut model = LauncherModel::new(config());
    let answer = inventory("remote", &[("zed", "Zed")]);
    model.apply(update("remote", answer.clone()));
    let mut column = column("remote", answer);
    column.error = Some("network unreachable".into());
    model.apply(ProviderUpdate {
        machine: "remote".into(),
        column: Some(column),
        status: ProviderStatus::Offline,
        error: Some("network unreachable".into()),
    });
    assert_eq!(
        model.base[1].error.as_deref(),
        Some("network unreachable")
    );
    assert_eq!(model.base[1].cells[0][0].apps[0].id, "zed");
    assert!(model.base[0].error.is_none());
}

#[test]
fn large_valid_columns_remain_independent_in_any_arrival_order() {
    fn large(host: &str, prefix: &str, count: usize) -> Inventory {
        let apps = (0..count)
            .map(|index| (format!("{prefix}-{index}"), format!("{prefix} {index}")))
            .collect::<Vec<_>>();
        let pairs = apps
            .iter()
            .map(|(id, name)| (id.as_str(), name.as_str()))
            .collect::<Vec<_>>();
        inventory(host, &pairs)
    }
    let count_apps = |machine: &Machine| {
        machine
            .cells
            .iter()
            .flatten()
            .map(|line| line.apps.len())
            .sum::<usize>()
    };

    for order in [["remote", "local"], ["local", "remote"]] {
        let mut model = LauncherModel::new(config());
        for machine in order {
            model.apply(update(machine, large(machine, machine, 3_000)));
        }
        assert_eq!(count_apps(&model.base[0]), 3_000);
        assert_eq!(count_apps(&model.base[1]), 3_000);
        assert!(model.base.iter().all(|machine| machine.error.is_none()));
    }
}

#[test]
fn only_columns_that_changed_are_merged() {
    let model = LauncherModel::new(config());
    let news = vec![update("local", inventory("local", &[("a", "A"), ("b", "B")]))];
    let merged = merged_columns(&model.config, &model.base, 1, &news).expect("a column changed");
    assert_eq!(names(&merged), ["local", "remote"]);
    assert_eq!(ids(&merged[0].cells[0][0].apps), ["a", "b"]);
    let stranger = vec![update("unknown", inventory("unknown", &[]))];
    assert!(merged_columns(&model.config, &model.base, 1, &stranger).is_none());
}

#[test]
fn applications_go_to_their_rung_their_folder_or_the_last_row() {
    let app = |id: Option<&str>, name: &str| InventoryApp {
        id: id.map(ToString::to_string),
        name: name.to_string(),
        icon: String::new(),
        command: "true".to_string(),
        terminal: false,
        desktop_file: String::new(),
    };
    let folder = |label: &str, apps| InventoryFolder { label: label.to_string(), apps };
    let mut subrows = TextMap::new();
    let chat = SubRow {
        name: "chat".to_string(),
        apps: vec![String::new(), "SIGNAL".to_string()],
    };
    subrows.insert("Work".to_string(), vec![chat]);
    let inventory = Inventory {
        host: "local".to_string(),
        error: None,
        folders: vec![
            folder(
                "Work",
                vec![
                    app(Some("org.signal.Signal"), "Messenger"),
                    app(None, "Editor"),
                    app(Some("x"), "Signalling"),
                ],
            ),
            folder("Unknown", vec![app(Some("y"), "Why")]),
        ],
    };
    let rows: Vec<String> =
        ["Work/chat", "Work", "Other"].iter().map(|row| row.to_string()).collect();
    let column = machine_from(&machine("local"), Some(&inventory), None, &rows, &subrows);
    assert_eq!(ids(&column.cells[0][0].apps), ["org.signal.Signal", "x"]);
    assert_eq!(ids(&column.cells[1][0].apps), ["Editor"]);
    assert_eq!(ids(&column.cells[2][0].apps), ["y"]);
    assert!(column.cells.iter().flatten().all(|line| line.name.is_none()));
    let failed = machine_from(&machine("local"), None, Some("down"), &rows, &subrows);
    assert_eq!(failed.error.as_deref(), Some("down"));
    assert_eq!(failed.cells, vec![Vec::new(); 3]);
}
