use cbar::column::{App, Line, Machine};
use cbar::config::Layout;
use cbar::materialize::Cursor;
use cbar::navigation::{
    after_launch, app_by_id, at_rail, click_app, click_cell, cursor_of, drag_payload, drop_before,
    dropped_app, needs_render, press, reopen, Action, Afterwards, Click, Effect, KeyPress, Marks,
    Painted, PaintedLine,
};
use cbar::screen::{
    blur_dismisses, focus_deadline, is_layer, keyboard_mode, monitor_matches, preferred_monitor,
    search_width, smallest, KeyboardMode, Monitor,
};
use cbar::stream::{Focus, Selection};
use cbar::text::{
    chars_of, contains_part, decimal, insert_text, is_before, is_white_space, join_path, len_bytes,
    parse_number, signed, split, trim,
};

fn line(ids: &[&str]) -> Line {
    let app = |id: &&str| App {
        id: id.to_string(),
        name: id.to_uppercase(),
        icon: String::new(),
        command: "true".to_string(),
        terminal: false,
        desktop_file: String::new(),
    };
    Line { name: None, apps: ids.iter().map(app).collect() }
}

fn machine(cells: Vec<Vec<Line>>) -> Machine {
    Machine {
        name: "host".to_string(),
        aliases: Vec::new(),
        accent: "#fff".to_string(),
        launch: vec!["{}".to_string()],
        error: None,
        cells,
    }
}

fn view() -> Vec<Machine> {
    vec![
        machine(vec![vec![line(&["a", "b"]), line(&["c"])], vec![]]),
        machine(vec![vec![], vec![line(&["d"])]]),
    ]
}

fn at(col: usize, row: usize, line: usize, item: usize, focus: Focus) -> Selection {
    Selection { col, row, line, item, item_goal: item, focus }
}

fn key(action: Action) -> KeyPress {
    KeyPress { action: Some(action), typed: None, chord: false }
}

fn launched(effect: Effect) -> Vec<String> {
    match effect {
        Effect::Launch(apps) => apps.into_iter().map(|app| app.id).collect(),
        _ => panic!("nothing is launched"),
    }
}

#[test]
fn launch_keys_start_an_app_a_line_or_a_cell() {
    let view = view();
    let mut query = String::new();
    let mut run = |focus, rail, action| {
        let mut s = at(0, 0, 0, 1, focus);
        press(&view, rail, false, 0, 0, &mut s, &mut query, key(action))
    };
    assert_eq!(launched(run(Focus::Inside, false, Action::Enter)), ["b"]);
    assert_eq!(launched(run(Focus::Inside, false, Action::LaunchLine)), ["a", "b"]);
    assert_eq!(launched(run(Focus::Inside, false, Action::LaunchCell)), ["a", "b", "c"]);
    assert_eq!(launched(run(Focus::Inside, true, Action::LaunchCell)), ["b"]);
    assert_eq!(launched(run(Focus::Outside, false, Action::LaunchSelection)), ["a", "b", "c"]);
    assert!(matches!(run(Focus::Outside, true, Action::LaunchCell), Effect::Paint));
    assert!(matches!(run(Focus::Outside, false, Action::Enter), Effect::Refresh));
}

#[test]
fn moving_stays_in_the_grid() {
    let view = view();
    let mut query = String::new();
    let mut s = at(0, 0, 0, 0, Focus::Inside);
    for (action, expected) in [
        (Action::MoveRight, (0, 0, 0, 1)),
        (Action::MoveRight, (0, 0, 0, 1)),
        (Action::MoveDown, (0, 0, 1, 1)),
        (Action::MoveDown, (0, 0, 1, 1)),
        (Action::MoveUp, (0, 0, 0, 1)),
        (Action::MoveLeft, (0, 0, 0, 0)),
        (Action::MoveLeft, (0, 0, 0, 0)),
    ] {
        press(&view, false, false, 0, 1, &mut s, &mut query, key(action));
        assert_eq!((s.col, s.row, s.line, s.item), expected);
    }
    press(&view, false, false, 0, 1, &mut s, &mut query, key(Action::GoOutside));
    assert_eq!(s.focus, Focus::Outside);
    press(&view, false, false, 0, 1, &mut s, &mut query, key(Action::MoveDown));
    press(&view, false, false, 0, 1, &mut s, &mut query, key(Action::MoveRight));
    press(&view, false, false, 0, 1, &mut s, &mut query, key(Action::MoveRight));
    assert_eq!((s.col, s.row), (1, 1));
    press(&view, false, false, 0, 1, &mut s, &mut query, key(Action::ToggleInside));
    assert_eq!(s.focus, Focus::Inside);
}

#[test]
fn cancelling_leads_out_step_by_step() {
    let view = view();
    let mut query = "ab".to_string();
    let mut s = at(0, 0, 0, 0, Focus::Inside);
    let cancel = key(Action::Cancel);
    let armed = press(&view, false, true, 0, 0, &mut s, &mut query, cancel);
    assert!(matches!(armed, Effect::Disarm));
    let mut step = || {
        let effect = press(&view, false, false, 0, 0, &mut s, &mut query, cancel);
        (effect, query.clone(), s.focus)
    };
    assert!(matches!(step(), (Effect::Refresh, query, Focus::Inside) if query.is_empty()));
    assert!(matches!(step(), (Effect::Refresh, _, Focus::Outside)));
    assert!(matches!(step(), (Effect::Dismiss, _, Focus::Outside)));
}

#[test]
fn typing_fills_the_query() {
    let view = view();
    let mut query = String::new();
    let mut s = at(0, 0, 0, 0, Focus::Outside);
    let mut type_key = |typed, chord| {
        let key = KeyPress { action: None, typed: Some(typed), chord };
        press(&view, false, false, 0, 0, &mut s, &mut query, key);
        query.clone()
    };
    assert_eq!(type_key('h', false), "h");
    assert_eq!(type_key('\u{e9}', false), "h\u{e9}");
    assert_eq!(type_key('x', true), "h\u{e9}");
    assert_eq!(type_key('\u{7}', false), "h\u{e9}");
    press(&view, false, false, 0, 0, &mut s, &mut query, key(Action::Backspace));
    assert_eq!(query, "h");
    let reset = press(&view, false, false, 0, 0, &mut s, &mut query, key(Action::ResetVisibility));
    assert!(matches!(reset, Effect::ResetVisibility));
    reopen(&mut s, &mut query);
    assert_eq!(query, "");
}

#[test]
fn dropped_apps_stay_in_their_column() {
    let payload = drag_payload(12, "org.example");
    assert_eq!(payload, "12\u{1}org.example");
    assert_eq!(dropped_app(&payload, 12).as_deref(), Some("org.example"));
    assert_eq!(dropped_app(&payload, 1), None);
    assert_eq!(dropped_app("x\u{1}y", 0), None);
    assert_eq!(dropped_app("12", 12), None);
    let names: Vec<String> = ["a", "b", "c"].iter().map(|id| id.to_string()).collect();
    assert_eq!(drop_before(&vec![0, 1], &names, 1).as_deref(), Some("b"));
    assert_eq!(drop_before(&vec![0, 1], &names, 2).as_deref(), Some("c"));
    assert_eq!(drop_before(&vec![1, 2], &names, 2), None);
}

#[test]
fn two_clicks_hide_an_app_and_one_launches_it() {
    let mut armed = None;
    assert_eq!(click_app(1, "host", "a", &mut armed), Click::Launch { disarmed: false });
    assert_eq!(click_app(3, "host", "a", &mut armed), Click::Arm);
    assert_eq!(click_app(8, "host", "a", &mut armed), Click::Nothing);
    assert_eq!(click_app(1, "host", "a", &mut armed), Click::Hide);
    assert_eq!(armed, None);
    click_app(3, "host", "a", &mut armed);
    assert_eq!(click_app(1, "host", "b", &mut armed), Click::Launch { disarmed: true });
    assert_eq!(after_launch(0, false, true, true), Afterwards::Nothing);
    assert_eq!(after_launch(1, false, true, true), Afterwards::Dismiss);
    assert_eq!(after_launch(1, true, true, true), Afterwards::Render);
}

#[test]
fn highlights_follow_what_is_drawn() {
    let cell = |items: Vec<usize>| vec![PaintedLine { model_line: 3, items }];
    let painted = Painted {
        rowheads: 2,
        rows: vec![4, 5],
        columns: vec![7],
        cells: vec![vec![cell(vec![0, 1])], vec![cell(vec![8, 9])]],
    };
    let cursor = Cursor { col: 7, row: 5, line: 3, item: 9, inside: true };
    assert_eq!(
        painted.mark(cursor),
        Marks { rowhead: Some(1), cell: Some((1, 0)), inside: true, line: Some(0), app: Some(1) }
    );
    assert!(painted.contains(cursor));
    assert!(!painted.contains(Cursor { item: 1, ..cursor }));
    assert!(!painted.contains(Cursor { row: 6, ..cursor }));
    let s = at(1, 2, 3, 4, Focus::Inside);
    assert_eq!(cursor_of(s), Cursor { col: 1, row: 2, line: 3, item: 4, inside: true });
    assert!(needs_render(false, "a", "b", true));
    assert!(!needs_render(false, "a", "a", true));
}

#[test]
fn cells_and_apps_are_found() {
    let view = view();
    assert_eq!(click_cell(&view, 0, 0).focus, Focus::Inside);
    assert_eq!(click_cell(&view, 0, 1).focus, Focus::Outside);
    assert_eq!(app_by_id(&view[0], "c").map(|app| app.name).as_deref(), Some("C"));
    assert!(app_by_id(&view[0], "d").is_none());
    let mut layout = Layout::default();
    layout.rows.insert("Other".to_string(), "rail".to_string());
    let folders = vec!["Other".to_string(), "Games".to_string()];
    assert!(at_rail(&layout, &folders, &view, at(0, 0, 0, 0, Focus::Outside)));
    assert!(!at_rail(&layout, &folders, &view, at(1, 1, 0, 0, Focus::Outside)));
}

fn monitor(connector: &str, manufacturer: &str, model: &str) -> Monitor {
    let some = |text: &str| if text.is_empty() { None } else { Some(text.to_string()) };
    Monitor {
        connector: some(connector),
        manufacturer: some(manufacturer),
        model: some(model),
        description: None,
    }
}

#[test]
fn outputs_are_found_by_connector_or_name() {
    let attached = vec![
        monitor("eDP-1", "Unknown", "Panel"),
        monitor("DP-3", "DELL", "U2720Q"),
    ];
    let wanted = |names: &[&str]| {
        let names = names.iter().map(|name| name.to_string()).collect();
        preferred_monitor(&names, &attached)
    };
    assert_eq!(wanted(&[" dp-3 "]), Some(1));
    assert_eq!(wanted(&["dell u27"]), Some(1));
    assert_eq!(wanted(&["", "none", "EDP-1"]), Some(0));
    assert_eq!(wanted(&["unknown"]), None);
    assert_eq!(wanted(&[]), None);
    assert!(monitor_matches(&attached[1], "u2720q"));
    assert!(!monitor_matches(&attached[0], "dp-3"));
}

#[test]
fn the_window_fits_the_smallest_screen() {
    assert_eq!(smallest(&vec![1080, 720, 900], 500), 720);
    assert_eq!(smallest(&Vec::new(), 500), 500);
    assert_eq!(search_width(560, 400, 400), 560);
    assert_eq!(search_width(560, 700, 400), 260);
    assert_eq!(search_width(300, 700, 400), 200);
    assert_eq!(keyboard_mode("exclusive"), KeyboardMode::Exclusive);
    assert_eq!(keyboard_mode("ondemand"), KeyboardMode::OnDemand);
    assert_eq!(keyboard_mode("none"), KeyboardMode::Nothing);
    assert!(!is_layer("window", false));
    assert!(is_layer("layer", false));
    assert!(!is_layer("layer", true));
    assert_eq!(focus_deadline(100), Some(500));
    assert!(!blur_dismisses(false, 499, Some(500)));
    assert!(blur_dismisses(false, 500, Some(500)));
    assert!(!blur_dismisses(true, 900, Some(500)));
}

#[test]
fn numbers_and_paths_are_written_as_text() {
    assert_eq!(decimal(0), "0");
    assert_eq!(decimal(1_024), "1024");
    assert_eq!(signed(-42), "-42");
    assert_eq!(signed(i64::MIN), "-9223372036854775808");
    assert_eq!(split("a::b", ':'), ["a", "", "b"]);
    assert_eq!(trim(" \t\u{2003}x \n"), "x");
    assert_eq!(join_path("/a", "b"), "/a/b");
    assert_eq!(join_path("/a/", "b"), "/a/b");
}

#[test]
fn texts_are_read_character_by_character() {
    let number = |text: &str| {
        let chars = chars_of(text);
        parse_number(&chars, 0, chars.len())
    };
    assert_eq!(number("42"), Some(42));
    assert_eq!(number("+42"), Some(42));
    assert_eq!(number("4x"), None);
    assert_eq!(number(""), None);
    assert_eq!(number("18446744073709551616"), None);
    assert_eq!(len_bytes("a\u{e9}\u{20ac}\u{1f600}"), 10);
    assert!(contains_part("workspace", "space"));
    assert!(!contains_part("space", "workspace"));
    assert!(contains_part("", ""));
    assert!(is_before("a", "b") && !is_before("b", "a") && is_before("a", "aa"));
    for c in (0..0x3100).filter_map(char::from_u32) {
        assert_eq!(is_white_space(c), c.is_whitespace(), "{c:?}");
    }
    let mut list = vec!["a".to_string()];
    insert_text(&mut list, "b".to_string());
    insert_text(&mut list, "a".to_string());
    assert_eq!(list, ["a", "b"]);
}
