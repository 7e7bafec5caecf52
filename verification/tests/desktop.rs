use cbar::config::MAX_INVENTORY_APPS;
use cbar::desktop::{
    application_dirs, check_share, current_desktops, desktop_file_allowed, desktop_id, desktop_set,
    encoded_entry_bytes, executable_places, inventory_document, inventory_of, name_locale, parse_entry, parse_fields,
    sort_entries, Entry, Met, Scan, ScanStep, MAX_DESKTOP_FILE_BYTES,
};
use cbar::json::{encoded, Document};

fn parse_for_test(id: &str, text: &str, desktops: &[&str], try_exec_found: bool) -> Option<Entry> {
    let path = format!("/data/applications/{id}");
    let desktops = desktops.iter().map(|name| name.to_string()).collect();
    parse_entry(
        id,
        &path,
        path.len(),
        parse_fields(text, "en_GB"),
        &desktops,
        try_exec_found,
    )
}

fn entry(id: &str, name: &str) -> Entry {
    Entry {
        id: id.to_string(),
        name: name.to_string(),
        icon: String::new(),
        command: "true".to_string(),
        terminal: false,
        desktop_file: String::new(),
    }
}

fn file(name: &str) -> Met {
    Met::Item { file_or_link: true, components: vec![name.to_string()] }
}

#[test]
fn desktop_entry_contract_preserves_argv_source_and_terminal_flag() {
    let entry = parse_for_test(
        "org.example.Editor.desktop",
        "[Desktop Entry]\nType=Application\nName=Editor\nIcon=editor\nExec=editor --new %U\nTerminal=true\n",
        &[],
        true,
    )
    .expect("visible application");
    assert_eq!(entry.name, "Editor");
    assert_eq!(entry.command, "editor --new %U");
    assert!(entry.terminal);
    assert_eq!(entry.icon, "editor");
    assert_eq!(entry.desktop_file, "/data/applications/org.example.Editor.desktop");
}

#[test]
fn nested_desktop_ids_use_the_freedesktop_relative_path() {
    assert_eq!(
        desktop_id(&vec!["vendor".to_string(), "tool.desktop".to_string()]),
        Some("vendor-tool.desktop".into())
    );
    assert_eq!(desktop_id(&Vec::new()), None);
}

#[test]
fn hidden_and_non_application_entries_do_not_leak_into_inventory() {
    assert!(parse_for_test(
        "hidden.desktop",
        "[Desktop Entry]\nType=Application\nName=Hidden\nExec=hidden\nNoDisplay=true\n",
        &[],
        true
    )
    .is_none());
    assert!(parse_for_test(
        "link.desktop",
        "[Desktop Entry]\nType=Link\nName=Link\nExec=link\n",
        &[],
        true
    )
    .is_none());
    assert!(parse_for_test(
        "nameless.desktop",
        "[Desktop Entry]\nType=Application\nExec=nameless\n",
        &[],
        true
    )
    .is_none());
}

#[test]
fn packaged_desktop_entry_symlinks_are_supported() {
    let mut scan = Scan::begin(false).expect("not cancelled");
    let step = scan.visit(&file("org.example.Linked.desktop"), false, MAX_INVENTORY_APPS);
    assert!(matches!(step, ScanStep::Read(id) if id == "org.example.Linked.desktop"));
    assert!(parse_for_test(
        "org.example.Linked.desktop",
        "[Desktop Entry]\nType=Application\nName=Linked\nExec=linked\n",
        &[],
        true
    )
    .is_some());
}

#[test]
fn desktop_entry_fifo_cannot_pin_the_provider_worker() {
    assert!(!desktop_file_allowed(false, 0));
    assert!(desktop_file_allowed(true, MAX_DESKTOP_FILE_BYTES));
    assert!(!desktop_file_allowed(true, MAX_DESKTOP_FILE_BYTES + 1));
}

#[test]
fn desktop_visibility_and_try_exec_are_honoured() {
    let text = "[Desktop Entry]\nType=Application\nName=Visible\nExec=visible\nTryExec=/tmp/available\nOnlyShowIn=GNOME;KDE;\nNotShowIn=XFCE;\n";
    assert!(parse_for_test("visible.desktop", text, &["GNOME"], true).is_some());
    assert!(parse_for_test("visible.desktop", text, &["XFCE"], true).is_none());
    assert!(parse_for_test("visible.desktop", text, &[], true).is_none());
    assert!(parse_for_test("visible.desktop", text, &["GNOME"], false).is_none());
}

#[test]
fn blocking_desktop_scan_observes_cancellation() {
    assert_eq!(
        Scan::begin(true).unwrap_err(),
        "desktop inventory cancelled"
    );
}

#[test]
fn desktop_scan_cancels_mid_walk_before_filtering_non_desktop_entries() {
    let mut scan = Scan::begin(false).expect("not cancelled");
    let root = Met::Item { file_or_link: false, components: Vec::new() };
    assert!(matches!(scan.visit(&root, false, MAX_INVENTORY_APPS), ScanStep::Skip));
    let step = scan.visit(&file("not-an-application.txt"), true, MAX_INVENTORY_APPS);
    assert!(matches!(step, ScanStep::Cancelled(error) if error == "desktop inventory cancelled"));
}

#[test]
fn many_individually_valid_desktop_entries_obey_cumulative_budget() {
    let payload = "x".repeat(256);
    let mut scan = Scan::begin(false).expect("not cancelled");
    let mut refused = None;
    for index in 0..20 {
        let name = format!("app-{index}.desktop");
        let ScanStep::Read(id) = scan.visit(&file(&name), false, MAX_INVENTORY_APPS) else {
            panic!("a desktop file is read");
        };
        let text = format!(
            "[Desktop Entry]\nType=Application\nName={payload}{index}\nExec=program {payload}\n"
        );
        let entry = parse_for_test(&id, &text, &[], true).expect("visible application");
        if let Err(error) = scan.accept(entry, 2_000) {
            refused = Some(error);
            break;
        }
    }
    let error = refused.expect("the budget ends");
    assert!(error.contains("fair-share limit"), "{error}");
    assert!(scan.entries.len() < 20, "the intermediate tree stayed bounded");
}

#[test]
fn the_first_file_with_an_id_wins() {
    let mut scan = Scan::begin(false).expect("not cancelled");
    assert!(matches!(scan.visit(&file("a.desktop"), false, 9), ScanStep::Read(_)));
    assert!(matches!(scan.visit(&file("a.desktop"), false, 9), ScanStep::Skip));
    assert!(matches!(scan.visit(&Met::Unreadable, false, 9), ScanStep::Skip));
    scan.accept(entry("a.desktop", "A"), 1 << 20).expect("within the share");
    assert!(matches!(scan.visit(&file("b.desktop"), false, 1), ScanStep::Stop));
}

#[test]
fn names_follow_the_locale() {
    let text = "[Desktop Entry]\nType=Application\nName=Files\nName[de]=Dateien\nName[de_AT]=Ordner\nExec=files\n";
    let name = |locale: &str| {
        parse_entry("f", "/f", 2, parse_fields(text, locale), &Vec::new(), true)
            .expect("visible application")
            .name
    };
    assert_eq!(name("en_GB"), "Files");
    assert_eq!(name("de_DE"), "Dateien");
    assert_eq!(name("de_AT"), "Ordner");
    assert_eq!(
        name_locale(Some("de_AT.UTF-8@euro".to_string()), Some("en_GB".to_string())),
        "de_AT"
    );
    assert_eq!(name_locale(None, Some("en_GB.UTF-8".to_string())), "en_GB");
}

#[test]
fn lists_are_split_and_keys_are_read_in_their_section_only() {
    assert_eq!(desktop_set("GNOME;KDE;"), ["GNOME", "KDE"]);
    let fields = parse_fields(
        "Name=Outside\n[Desktop Entry]\n# Name=Comment\nName=Inside\n[Desktop Action x]\nName=Other\n",
        "en",
    );
    assert_eq!(fields.name.as_deref(), Some("Inside"));
    assert_eq!(current_desktops(None), Vec::<String>::new());
    assert_eq!(current_desktops(Some("sway:wlroots".to_string())), ["sway", "wlroots"]);
}

#[test]
fn programs_and_directories_are_looked_up_in_order() {
    assert_eq!(executable_places("/bin/sh", Some("/a:/b".to_string())), ["/bin/sh"]);
    assert_eq!(executable_places("sh", Some("/a:/b".to_string())), ["/a/sh", "/b/sh"]);
    assert_eq!(executable_places("sh", None), Vec::<String>::new());
    assert_eq!(
        application_dirs(Some("/home/u/share".to_string()), None, Some("/x:/y".to_string())),
        ["/home/u/share/applications", "/x/applications", "/y/applications"]
    );
    assert_eq!(
        application_dirs(None, Some("/local".to_string()), None),
        ["/local/applications", "/usr/local/share/applications", "/usr/share/applications"]
    );
}

#[test]
fn entries_are_counted_with_their_json_escapes() {
    // Two quotes for each of five fields, the texts, and the escaped quote.
    let counted = encoded_entry_bytes(&entry("a\"", "b")).expect("strings are written");
    assert_eq!(counted, 128 + 10 + 3 + 1 + 4);
}

#[test]
fn the_inventory_is_one_sorted_folder() {
    let sorted = sort_entries(vec![entry("2", "beta"), entry("3", "Alpha"), entry("1", "Beta")]);
    let ids: Vec<&str> = sorted.iter().map(|entry| entry.id.as_str()).collect();
    assert_eq!(ids, ["3", "1", "2"]);

    let bytes = inventory_of("host", vec![entry("1", "One \"1\"")], 4096).expect("within the share");
    let value: serde_json::Value = serde_json::from_slice(&bytes).expect("JSON");
    assert_eq!(value["host"], "host");
    assert!(value["error"].is_null());
    assert_eq!(value["folders"][0]["label"], "Other");
    let app = &value["folders"][0]["apps"][0];
    assert_eq!(app["id"], "1");
    assert_eq!(app["name"], "One \"1\"");
    assert_eq!(app["exec"], "true");
    assert_eq!(app["terminal"], false);
    let refused = inventory_of("host", vec![entry("1", "One")], 10).unwrap_err();
    assert_eq!(
        refused,
        "desktop inventory exceeded this provider's fair-share limit of 10 bytes"
    );
    assert_eq!(check_share(vec![1, 2], 2), Ok(vec![1, 2]));
}

#[test]
fn every_kind_of_escape_is_counted() {
    let bytes = |name: &str| {
        encoded_entry_bytes(&entry("", name)).expect("strings are written")
            - encoded_entry_bytes(&entry("", "")).expect("strings are written")
    };
    assert_eq!(bytes("plain"), 5);
    assert_eq!(bytes("\u{8}\t\n\u{c}\r\"\\"), 14);
    assert_eq!(bytes("\u{1}\u{1f}"), 12);
    assert_eq!(bytes("\u{7f}/\u{e9}"), 4);
}

#[test]
fn each_field_of_an_application_has_its_own_key() {
    let text = |text: &str| Document::Text(text.to_string());
    let member = |key: &str, value: Document| (key.to_string(), value);
    let app = Entry {
        id: "i".into(),
        name: "n".into(),
        icon: "p".into(),
        command: "c".into(),
        terminal: true,
        desktop_file: "d".into(),
    };
    let expected = Document::Object(vec![
        member("host", text("h")),
        member("error", Document::Null),
        member(
            "folders",
            Document::List(vec![Document::Object(vec![
                member("label", text("l")),
                member(
                    "apps",
                    Document::List(vec![Document::Object(vec![
                        member("id", text("i")),
                        member("name", text("n")),
                        member("icon", text("p")),
                        member("exec", text("c")),
                        member("terminal", Document::Flag(true)),
                        member("desktop_file", text("d")),
                    ])]),
                ),
            ])]),
        ),
    ]);
    let document = inventory_document("h", "l", &vec![app]);
    assert_eq!(document, expected);
    let bytes = encoded(&document).expect("a document is written");
    assert_eq!(
        String::from_utf8(bytes).expect("text"),
        [
            r#"{"error":null,"folders":[{"apps":[{"desktop_file":"d","exec":"c","#,
            r#""icon":"p","id":"i","name":"n","terminal":true}],"label":"l"}],"host":"h"}"#,
        ]
        .concat()
    );
}

#[test]
fn entries_that_stand_alike_keep_their_order() {
    let named = |name: &str, icon: &str| Entry { icon: icon.into(), ..entry("1", name) };
    let sorted = sort_entries(vec![
        named("Beta", "a"),
        named("alpha", "b"),
        named("BETA", "c"),
        named("beta", "d"),
    ]);
    let icons: Vec<&str> = sorted.iter().map(|entry| entry.icon.as_str()).collect();
    assert_eq!(icons, ["b", "a", "c", "d"]);
}
