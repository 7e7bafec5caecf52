use cbar::config::{
    check_text, config_file_allowed, config_path, count_machine, load, Config, ConfigSource, Inventory, InventoryApp,
    InventoryFolder, Layout, MachineConfig, SubRow, Theme, MAX_CONFIG_BYTES, MAX_INVENTORY_APPS,
    MAX_INVENTORY_APP_TEXT_BYTES, MAX_INVENTORY_ERROR_BYTES, MAX_INVENTORY_FOLDERS,
    MAX_INVENTORY_FOLDER_BYTES, MAX_INVENTORY_HOST_BYTES, MAX_MACHINES,
};
use cbar::config_change::same_config;
use cbar::inventory::{
    check_first_look, check_inventory, count_app, inventory_shape, parse_inventory,
    parse_inventory_bounded, FolderCount,
};
use serde_json::Value;

fn text(value: &Value, key: &str) -> String {
    value
        .get(key)
        .and_then(Value::as_str)
        .unwrap_or_default()
        .to_string()
}

fn list(value: &Value, key: &str) -> Vec<Value> {
    value
        .get(key)
        .and_then(Value::as_array)
        .cloned()
        .unwrap_or_default()
}

fn texts(value: &Value, key: &str) -> Vec<String> {
    list(value, key)
        .iter()
        .map(|entry| entry.as_str().unwrap_or_default().to_string())
        .collect()
}

/// A configuration as its JSON says, with the defaults for what it leaves out.
fn config(json: &str) -> Config {
    let value: Value = serde_json::from_str(json).unwrap();
    let machines = list(&value, "machines")
        .iter()
        .map(|machine| {
            let mut made = MachineConfig::new(text(machine, "name"), texts(machine, "inventory"));
            made.aliases = texts(machine, "aliases");
            made.launch = texts(machine, "launch");
            if let Some(accent) = machine.get("accent").and_then(Value::as_str) {
                made.accent = accent.to_string();
            }
            made
        })
        .collect();
    let mut config = Config::new(machines);
    config.folders = texts(&value, "folders");
    config.outputs = texts(&value, "outputs");
    if let Some(subrows) = value.get("subrows").and_then(Value::as_object) {
        for (folder, rungs) in subrows {
            let rungs = rungs
                .as_array()
                .unwrap()
                .iter()
                .map(|rung| SubRow { name: text(rung, "name"), apps: texts(rung, "apps") })
                .collect();
            config.subrows.insert(folder.clone(), rungs);
        }
    }
    if let Some(layout) = value.get("layout") {
        if let Some(width) = layout.get("max_items_per_line").and_then(Value::as_u64) {
            config.layout.max_items_per_line = width as usize;
        }
        if let Some(rows) = layout.get("rows").and_then(Value::as_object) {
            for (row, shape) in rows {
                config
                    .layout
                    .rows
                    .insert(row.clone(), shape.as_str().unwrap().to_string());
            }
        }
    }
    if let Some(theme) = value.get("theme") {
        if let Some(fraction) = theme.get("max_height_fraction").and_then(Value::as_f64) {
            config.theme.max_height_fraction_bits = fraction.to_bits();
        }
    }
    config
}

/// An inventory as its JSON says.
fn inventory(json: &str) -> Inventory {
    let value: Value = serde_json::from_str(json).unwrap();
    Inventory {
        host: text(&value, "host"),
        error: value
            .get("error")
            .and_then(Value::as_str)
            .map(ToString::to_string),
        folders: list(&value, "folders")
            .iter()
            .map(|folder| InventoryFolder {
                label: text(folder, "label"),
                apps: list(folder, "apps")
                    .iter()
                    .map(|app| InventoryApp {
                        name: text(app, "name"),
                        id: app.get("id").and_then(Value::as_str).map(ToString::to_string),
                        icon: text(app, "icon"),
                        command: text(app, "exec"),
                        terminal: app.get("terminal").and_then(Value::as_bool).unwrap_or(false),
                        desktop_file: text(app, "desktop_file"),
                    })
                    .collect(),
            })
            .collect(),
    }
}

fn parse(json: &str) -> Result<Inventory, String> {
    let decoded = inventory(json);
    parse_inventory(inventory_shape(&decoded), Ok(decoded))
}

#[test]
fn other_is_appended_when_absent() {
    let c = config(r#"{"machines":[],"folders":["Terminals","Editors"]}"#);
    assert_eq!(c.folder_rows(), vec!["Terminals", "Editors", "Other"]);
}

#[test]
fn duplicate_folders_are_deduped() {
    let c = config(r#"{"machines":[],"folders":["Chat","Editors","Chat"]}"#);
    assert_eq!(c.folder_rows(), vec!["Chat", "Editors", "Other"]);
}

#[test]
fn each_category_expands_to_one_contiguous_block() {
    let c = config(
        r#"{
            "machines": [],
            "folders": ["AI", "Code"],
            "subrows": {
                "AI": [{"name":"us"},{"name":"alt"}],
                "Code": [{"name":"term"},{"name":"graph"},{"name":"build"},{"name":"insp"}]
            }
        }"#,
    );
    assert_eq!(
        c.folder_rows(),
        [
            "AI/us",
            "AI/alt",
            "AI",
            "Code/term",
            "Code/graph",
            "Code/build",
            "Code/insp",
            "Code",
            "Other",
        ]
    );
}

#[test]
fn other_is_forced_last_when_present() {
    let c = config(r#"{"machines":[],"folders":["Other","Terminals"]}"#);
    assert_eq!(c.folder_rows(), vec!["Terminals", "Other"]);
}

#[test]
fn a_machine_needs_only_a_name_and_an_inventory_command() {
    let c = config(r#"{"machines":[{"name":"box","inventory":["echo","{}"]}]}"#);
    assert_eq!(c.machines[0].name, "box");
    assert_eq!(c.machines[0].accent, "#22C55E", "accent defaulted");
    assert_eq!(
        c.machines[0].inventory_timeout_ms, 5_000,
        "timeout defaulted"
    );
    assert!(
        c.machines[0].launch.is_empty(),
        "a read-only column is legitimate"
    );
    assert_eq!(c.surface, "layer");
    assert_eq!(c.keyboard, "exclusive");
    assert!(c.exit_on_focus_loss);
}

#[test]
fn inventory_parses_the_provider_shape() {
    let inv = parse(
        r#"{"host":"console","error":null,"folders":[
             {"label":"Terminals","apps":[
               {"name":"Foot","icon":"foot","exec":"foot","terminal":false}]}]}"#,
    )
    .unwrap();
    assert_eq!(inv.host, "console");
    assert!(inv.error.is_none());
    assert_eq!(inv.folders[0].apps[0].name, "Foot");
}

#[test]
fn an_unreachable_machine_carries_its_reason() {
    let inv = parse(r#"{"host":"faraway","error":"ssh: timed out","folders":[]}"#).unwrap();
    assert_eq!(inv.error.as_deref(), Some("ssh: timed out"));
    assert!(inv.folders.is_empty());
}

#[test]
fn machine_names_and_aliases_cannot_collide_by_case() {
    let config = config(
        r#"{"machines":[
            {"name":"Server","inventory":["true"]},
            {"name":"laptop","aliases":["server"],"inventory":["true"]}
        ]}"#,
    );
    let error = config.validate().unwrap_err();
    assert!(error.contains("unique case-insensitively"), "{error}");
}

#[test]
fn inventory_structure_is_bounded_before_it_reaches_gtk() {
    let apps = (0..=MAX_INVENTORY_APPS)
        .map(|index| format!(r#"{{"name":"{index}"}}"#))
        .collect::<Vec<_>>()
        .join(",");
    let json = format!(r#"{{"host":"large","folders":[{{"label":"Other","apps":[{apps}]}}]}}"#);
    assert!(parse(&json).unwrap_err().contains("applications"));
}

#[test]
fn inventory_fields_and_stable_ids_are_bounded_before_gtk() {
    let huge_name = "x".repeat(MAX_INVENTORY_APP_TEXT_BYTES + 1);
    let json = format!(
        r#"{{"host":"large","folders":[{{"label":"Other","apps":[{{"id":"large","name":"{huge_name}"}}]}}]}}"#
    );
    let error = parse(&json).unwrap_err();
    assert!(error.contains("application name"), "{error}");

    let error = parse(
        r#"{"host":"duplicate","folders":[{"label":"Other","apps":[{"id":"same","name":"First"},{"id":"same","name":"Second"}]}]}"#,
    )
    .unwrap_err();
    assert!(error.contains("duplicate application id"), "{error}");
}

#[test]
fn caller_fair_share_is_checked_before_typed_inventory_build() {
    let decoded = inventory(
        r#"{"host":"fair","folders":[{"label":"Other","apps":[{"name":"one"},{"name":"two"}]}]}"#,
    );
    let error = parse_inventory_bounded(
        inventory_shape(&decoded),
        Err("never looked at".to_string()),
        1,
    )
    .unwrap_err();
    assert!(error.contains("fair-share limit of 1"), "{error}");
}

#[test]
fn no_configured_outputs_means_the_compositor_decides() {
    let config = config(r#"{"machines":[]}"#);
    assert!(config.outputs.is_empty());
    assert!(config.validate().is_ok());
}

#[test]
fn an_output_preference_keeps_the_order_it_was_written_in() {
    let config = config(r#"{"machines":[],"outputs":["DELL U4323QE","eDP-1"]}"#);
    let config = config.validate().unwrap();
    assert_eq!(config.outputs, vec!["DELL U4323QE", "eDP-1"]);
}

#[test]
fn a_blank_output_name_is_rejected_rather_than_matching_everything() {
    let config = config(r#"{"machines":[],"outputs":["DP-1","  "]}"#);
    let error = config.validate().unwrap_err();
    assert!(error.contains("outputs"), "{error}");
}

#[test]
fn invalid_dimensions_are_rejected_before_the_ui_uses_them() {
    let config = config(
        r#"{"machines":[],"layout":{"max_items_per_line":0},"theme":{"max_height_fraction":1.5}}"#,
    );
    let error = config.validate().unwrap_err();
    assert!(error.contains("max_items_per_line"), "{error}");
}

#[test]
fn fractions_lie_above_zero_and_at_most_at_one() {
    for (fraction, good) in [
        (0.0, false),
        (-0.5, false),
        (1.0, true),
        (0.9, true),
        (1.5, false),
        (f64::NAN, false),
    ] {
        let mut c = config(r#"{"machines":[]}"#);
        c.theme.max_width_fraction_bits = f64::to_bits(fraction);
        let checked = c.validate();
        assert_eq!(checked.is_ok(), good, "{fraction}");
        if let Err(error) = checked {
            assert_eq!(
                error,
                "theme.max_width_fraction must be greater than 0 and at most 1"
            );
        }
    }
    assert_eq!(
        f64::from_bits(Theme::default().max_height_fraction_bits),
        0.9
    );
}

#[test]
fn adaptive_vectors_balance_then_become_a_rail() {
    let layout = Layout::default();
    assert_eq!(layout.line_lengths("Games/rpg", 5), Some(vec![5]));
    assert_eq!(layout.line_lengths("Games/rpg", 6), Some(vec![3, 3]));
    assert_eq!(layout.line_lengths("Games/rpg", 9), Some(vec![5, 4]));
    assert_eq!(layout.line_lengths("Games/rpg", 11), Some(vec![4, 4, 3]));
    assert_eq!(layout.line_lengths("Games/rpg", 12), Some(vec![4, 4, 4]));
    assert_eq!(layout.line_lengths("Games/rpg", 13), None);
    assert!(layout.is_rail("Games/rpg", 13));
}

#[test]
fn a_row_shape_can_keep_six_short_items_on_one_line() {
    let mut layout = Layout::default();
    layout.rows.insert("Code/term".into(), "1x6".into());
    assert_eq!(layout.line_lengths("Code/term", 6), Some(vec![6]));
    assert_eq!(layout.line_lengths("Code/term", 7), None);
    layout.rows.insert("Games/rpg".into(), "rail".into());
    assert_eq!(layout.line_lengths("Games/rpg", 1), None);
}

#[test]
fn layout_overrides_name_real_rows_and_valid_shapes() {
    let valid = config(
        r#"{"machines":[],"folders":["Code"],"subrows":{"Code":[{"name":"term"}]},"layout":{"rows":{"Code/term":"1x6"}}}"#,
    );
    assert!(valid.validate().is_ok());

    let invalid = config(
        r#"{"machines":[],"folders":["Code"],"layout":{"rows":{"Code/term":"4x0"}}}"#,
    );
    assert!(invalid.validate().is_err());
}

#[test]
fn shapes_are_complained_about_in_words() {
    let mut layout = Layout::default();
    layout.rows.insert("Code".into(), "wide".into());
    assert_eq!(
        layout.override_shape("Code"),
        Err("layout.rows.Code must be `rail` or a shape such as `1x6`, got \"wide\"".to_string())
    );
    layout.rows.insert("Code".into(), "4x6".into());
    assert_eq!(
        layout.override_shape("Code"),
        Err("layout.rows.Code must use one to three positive-width lines, got \"4x6\"".to_string())
    );
    layout.rows.insert("Code".into(), "2x5".into());
    assert_eq!(layout.override_shape("Code"), Ok(Some((2, 5))));
    layout.rows.insert("Code".into(), "rail".into());
    assert_eq!(layout.override_shape("Code"), Ok(Some((0, 0))));
    assert_eq!(layout.override_shape("Other"), Ok(None));
}

#[test]
fn every_rule_of_a_configuration_has_its_complaint() {
    let complaint = |change: fn(&mut Config)| {
        let mut c = config(
            r#"{"machines":[{"name":"box","inventory":["true"]}],"folders":["Code"]}"#,
        );
        change(&mut c);
        c.validate().unwrap_err()
    };
    assert_eq!(
        complaint(|c| c.surface = "tab".into()),
        "surface must be `layer` or `window`, got \"tab\""
    );
    assert_eq!(
        complaint(|c| c.keyboard = "all".into()),
        "keyboard must be `exclusive`, `ondemand`, or `none`, got \"all\""
    );
    assert_eq!(
        complaint(|c| c.theme.icon_size = 0),
        "theme icon_size, logo_size, and width must be positive"
    );
    assert_eq!(
        complaint(|c| c.theme.icon_size = 257),
        "theme icon_size, logo_size, and width must be at most 256, 1024, and 16384"
    );
    assert_eq!(
        complaint(|c| c.layout.max_inline_items = 16),
        "layout.max_inline_items must fit within three lines at max_items_per_line"
    );
    assert_eq!(
        complaint(|c| c.machines[0].name = " ".into()),
        "machine names must not be empty"
    );
    assert_eq!(
        complaint(|c| c.machines[0].inventory = Vec::new()),
        "every machine needs an inventory command"
    );
    assert_eq!(
        complaint(|c| c.machines[0].inventory_timeout_ms = 0),
        "machine inventory_timeout_ms must be positive"
    );
    assert_eq!(
        complaint(|c| c.subrows.insert("Other".into(), Vec::new())),
        "subrows.Other has no declared folder; subrows must belong to a configured folder other than Other"
    );
    assert_eq!(
        complaint(|c| c.layout.rows.insert("Chat".into(), "rail".into())),
        "layout.rows.Chat has no configured row; use Folder/subrow for named rungs"
    );
    assert_eq!(
        complaint(|c| {
            c.machines = (0..=MAX_MACHINES)
                .map(|index| MachineConfig::new(format!("m{index}"), vec!["true".into()]))
                .collect()
        }),
        "at most 256 machines may be configured"
    );
    assert_eq!(
        complaint(|c| c.folders = (0..1_024).map(|index| format!("f{index}")).collect()),
        "at most 1024 launcher rows may be configured"
    );
}

#[test]
fn inventories_are_refused_in_the_order_of_their_bounds() {
    let fault = |inventory: Inventory| {
        parse_inventory(inventory_shape(&inventory), Ok(inventory)).unwrap_err()
    };
    let empty = || Inventory { host: String::new(), error: None, folders: Vec::new() };
    assert_eq!(
        parse_inventory(Err("broken".into()), Ok(empty())).unwrap_err(),
        "unreadable inventory: broken"
    );
    assert_eq!(
        parse_inventory(inventory_shape(&empty()), Err("broken".into())).unwrap_err(),
        "unreadable inventory: broken"
    );
    let mut long = empty();
    long.host = "h".repeat(MAX_INVENTORY_HOST_BYTES + 1);
    assert_eq!(fault(long), "inventory host exceeds 1024 bytes");
    let mut long = empty();
    long.error = Some("e".repeat(MAX_INVENTORY_ERROR_BYTES + 1));
    assert_eq!(fault(long), "inventory error exceeds 65536 bytes");
    let mut long = empty();
    long.folders.push(InventoryFolder {
        label: "l".repeat(MAX_INVENTORY_FOLDER_BYTES + 1),
        apps: Vec::new(),
    });
    assert_eq!(
        fault(long),
        "unreadable inventory: inventory folder label exceeds 1024 bytes"
    );
    let mut many = empty();
    many.folders = (0..=MAX_INVENTORY_FOLDERS)
        .map(|index| InventoryFolder { label: format!("{index}"), apps: Vec::new() })
        .collect();
    assert_eq!(
        fault(many),
        "unreadable inventory: inventory has more than 1024 folders"
    );
}

#[test]
fn counting_stops_at_the_limits() {
    let app = InventoryApp {
        name: "a".into(),
        id: None,
        icon: String::new(),
        command: String::new(),
        terminal: false,
        desktop_file: String::new(),
    };
    let mut apps = MAX_INVENTORY_APPS - 1;
    assert!(count_app(&mut apps, &app).is_none());
    assert_eq!(
        count_app(&mut apps, &app).as_deref(),
        Some("inventory has more than 4096 applications")
    );
    let mut count = FolderCount::new();
    assert!(count.count_folder("one", 4_096).is_none());
    assert_eq!(
        count.count_folder("two", 1).as_deref(),
        Some("inventory has more than 4096 applications")
    );
    let mut machines = MAX_MACHINES - 1;
    assert!(count_machine(&mut machines).is_none());
    assert_eq!(
        count_machine(&mut machines).as_deref(),
        Some("at most 256 machines may be configured")
    );
}

fn read(path: &str, shape: Result<(), String>, decoded: Result<Config, String>) -> ConfigSource {
    ConfigSource::Text { path: path.to_string(), bytes: 20, shape, decoded }
}

#[test]
fn read_only_declarative_config_symlinks_are_supported() {
    assert!(config_file_allowed(true, 15));
    let decoded = config(r#"{"machines":[]}"#);
    assert!(load(read("launcher.json", Ok(()), Ok(decoded))).unwrap().is_some());
}

#[test]
fn config_fifo_is_rejected_without_blocking() {
    assert!(!config_file_allowed(false, 0));
    let error = load(ConfigSource::Refused { path: "/run/fifo".to_string() }).unwrap_err();
    assert!(error.contains("not a regular launcher config"), "{error}");
}

#[test]
fn a_configuration_file_is_named_in_its_complaint() {
    let blank = config(r#"{"machines":[],"outputs":[" "]}"#);
    assert_eq!(
        load(read("/etc/launcher.json", Ok(()), Ok(blank))).unwrap_err(),
        "/etc/launcher.json: outputs must not contain empty names"
    );
    assert_eq!(
        load(read("/x", Err("first look".into()), Err("later".into()))).unwrap_err(),
        "/x: first look"
    );
    assert_eq!(load(read("/x", Ok(()), Err("later".into()))).unwrap_err(), "/x: later");
    let path = || "/x".to_string();
    assert_eq!(
        load(ConfigSource::Failed { path: path(), error: "denied".into() }).unwrap_err(),
        "/x: denied"
    );
    assert_eq!(
        load(ConfigSource::Refused { path: path() }).unwrap_err(),
        "/x is not a regular launcher config at most 4194304 bytes"
    );
    let long = ConfigSource::Text {
        path: path(),
        bytes: MAX_CONFIG_BYTES + 1,
        shape: Ok(()),
        decoded: Err("later".into()),
    };
    assert_eq!(load(long).unwrap_err(), "/x exceeds the 4194304-byte launcher config limit");
    assert!(load(ConfigSource::Missing).unwrap().is_none());
    assert!(load(ConfigSource::Nowhere).unwrap().is_none());
    assert!(config_file_allowed(true, MAX_CONFIG_BYTES));
    assert!(!config_file_allowed(true, MAX_CONFIG_BYTES + 1));
}

#[test]
fn the_configuration_path_prefers_what_is_set() {
    let some = |path: &str| Some(path.to_string());
    assert_eq!(
        config_path(some("/tmp/one.json"), some("/xdg"), some("/home/u")).as_deref(),
        Some("/tmp/one.json")
    );
    assert_eq!(
        config_path(some(""), some("/xdg"), some("/home/u")).as_deref(),
        Some("/xdg/cbar/launcher.json")
    );
    assert_eq!(
        config_path(None, some(""), some("/home/u")).as_deref(),
        Some("/home/u/.config/cbar/launcher.json")
    );
    assert_eq!(config_path(None, None, some("")), None);
}

#[test]
fn configurations_differ_in_any_field() {
    let one = config(r#"{"machines":[],"folders":["Code"],"subrows":{"Code":[{"name":"term"}]}}"#);
    assert!(same_config(&one, &one.clone()));
    let mut other = one.clone();
    other.subrows.insert("Code".into(), Vec::new());
    assert!(!same_config(&one, &other));
    let mut keys = one.clone();
    keys.keys.insert("ctrl+k".into(), None);
    assert!(!same_config(&one, &keys));
    assert!(!same_config(&keys, &one));
}

#[test]
fn an_inventory_is_judged_by_itself_too() {
    let mut long = Inventory { host: "h".into(), error: None, folders: Vec::new() };
    let shape = inventory_shape(&long);
    assert!(check_first_look(&shape, 4).is_ok());
    long.host = "h".repeat(MAX_INVENTORY_HOST_BYTES + 1);
    assert_eq!(
        check_inventory(Ok(long), 4).unwrap_err(),
        "inventory host exceeds 1024 bytes"
    );
    let labelled = Inventory {
        host: String::new(),
        error: None,
        folders: vec![InventoryFolder {
            label: "l".repeat(MAX_INVENTORY_FOLDER_BYTES + 1),
            apps: Vec::new(),
        }],
    };
    let complaint = parse_inventory(shape, Ok(labelled)).unwrap_err();
    assert!(complaint.starts_with("unreadable inventory: inventory folder label exceeds"));
    assert_eq!(
        check_first_look(&Err("broken".into()), 4).unwrap_err(),
        "unreadable inventory: broken"
    );
    assert_eq!(
        check_inventory(Err("broken".into()), 4).unwrap_err(),
        "unreadable inventory: broken"
    );
}

#[test]
fn a_file_is_judged_before_it_is_decoded() {
    assert_eq!(check_text("/x", 20, &Ok(())), Ok(()));
    assert_eq!(check_text("/x", 20, &Err("odd".into())), Err("/x: odd".to_string()));
    assert_eq!(
        check_text("/x", MAX_CONFIG_BYTES + 1, &Err("odd".into())),
        Err("/x exceeds the 4194304-byte launcher config limit".to_string())
    );
}
