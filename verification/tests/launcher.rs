use cbar::appset::{
    finish_launch, queue_launch, validate_launch_batch_len, Inflight, LaunchRequest,
    MAX_APPSET_LAUNCH,
};
use cbar::capture::{
    drain_capture, next_read, Drain, Look, ReadOutcome, Running, Seen, Verdict, MAX_CAPTURE_BYTES,
};
use cbar::column::{App, Line, Machine};
use cbar::config::{Config, MachineConfig, Theme, MAX_INVENTORY_APPS};
use cbar::config_change::same_config;
use cbar::materialize::{
    machine_app_count, materialization, materialized_columns, max_materialized_icons, AppPosition,
    Cursor, MAX_MATERIALIZED_APP_WIDGETS, MAX_MATERIALIZED_COLUMNS, MAX_MATERIALIZED_ROWS,
};
use cbar::prepared::{
    advance_generation, generation_is_current, prepare_replacement,
    prepared_config_requires_rebuild, replacement_decision, startup_error, world_from_loaded,
    MutableStateSnapshot, PreparedLauncher, ReplacementDecision,
};
use cbar::provider::inventory_outcome;
use cbar::stream::Focus;
use cbar::style::{
    canonical_colour, canonicalize_config_colors, css, escape, golden_css, heading_markup,
    hint_markup, page_hint, replace_text, row_labels, scoped_golden_css, search_label,
    ParsedColours, Rgba, SearchLabel,
};

fn app(id: String, name: String) -> App {
    App {
        id,
        name,
        icon: String::new(),
        command: "true".into(),
        terminal: false,
        desktop_file: String::new(),
    }
}

fn machine_with_apps(name: &str, count: usize) -> Machine {
    let apps = (0..count)
        .map(|index| app(format!("{name}-{index}"), format!("{name} {index}")))
        .collect();
    Machine {
        name: name.into(),
        aliases: Vec::new(),
        accent: "#fff".into(),
        launch: vec!["{}".into()],
        error: None,
        cells: vec![vec![Line { name: None, apps }]],
    }
}

#[test]
fn large_machine_columns_page_without_deleting_model_data() {
    let machines = vec![
        machine_with_apps("first", 3_000),
        machine_with_apps("second", 3_000),
    ];
    assert_eq!(materialized_columns(&machines, 0, 512), [0]);
    assert_eq!(materialized_columns(&machines, 1, 512), [1]);
    assert_eq!(machines[0].cells[0][0].apps.len(), 3_000);
    assert_eq!(machines[1].cells[0][0].apps.len(), 3_000);

    let ordinary = vec![
        machine_with_apps("first", 191),
        machine_with_apps("second", 191),
    ];
    assert_eq!(materialized_columns(&ordinary, 0, 512), [0, 1]);
    assert_eq!(materialized_columns(&ordinary, 1, 512), [0, 1]);
    assert_eq!(machine_app_count(&ordinary[0]), 191);
    assert!(max_materialized_icons(20) > 4_096);
    assert_eq!(max_materialized_icons(256), 256);
}

#[test]
fn one_maximum_inventory_materializes_a_bounded_cursor_page() {
    let machines = vec![machine_with_apps("maximum", MAX_INVENTORY_APPS)];
    let cursor = Cursor {
        col: 0,
        row: 0,
        line: 0,
        item: MAX_INVENTORY_APPS - 1,
        inside: true,
    };
    let page = materialization(&machines, cursor, 256);
    assert!(page.is_paged());
    assert_eq!(page.apps.len(), max_materialized_icons(256));
    assert!(page.apps.contains(&AppPosition {
        col: cursor.col,
        row: cursor.row,
        line: cursor.line,
        item: cursor.item,
    }));
    assert!(page.app_visible(0, 0, 0, cursor.item));
    assert!(page.contains(cursor));
    assert!(page.rows.len() <= MAX_MATERIALIZED_ROWS);
    assert!(page.columns.len() <= MAX_MATERIALIZED_COLUMNS);
    assert_eq!(
        machines[0].cells[0][0].apps.len(),
        MAX_INVENTORY_APPS,
        "the complete model is retained"
    );
}

#[test]
fn pages_are_turned_and_never_slid() {
    let machines = vec![machine_with_apps("a", 300), machine_with_apps("b", 900)];
    let pages: Vec<Vec<AppPosition>> = [(0, 0), (0, 299), (1, 0), (1, 511), (1, 512), (1, 899)]
        .iter()
        .map(|&(col, item)| {
            let cursor = Cursor { col, row: 0, line: 0, item, inside: true };
            let page = materialization(&machines, cursor, 20);
            let mut apps = page.apps;
            let listed = apps.len();
            apps.sort_by_key(|p| (p.col, p.row, p.line, p.item));
            apps.dedup();
            assert_eq!(apps.len(), listed);
            assert!(page.lines.iter().all(|l| page.lines.iter().filter(|m| *m == l).count() == 1));
            apps
        })
        .collect();
    for one in &pages {
        for other in &pages {
            assert!(one == other || one.iter().all(|p| !other.contains(p)));
        }
    }
    assert_eq!(pages[0], pages[1]);
    assert_eq!(pages[2], pages[3]);
    assert_ne!(pages[3], pages[4]);

    let mixed: Vec<Machine> = [3, 0, 4, 2, 9]
        .iter()
        .map(|&count| machine_with_apps("m", count))
        .collect();
    assert_eq!(materialized_columns(&mixed, 0, 8), [0, 1, 2]);
    assert_eq!(materialized_columns(&mixed, 2, 8), [0, 1, 2]);
    assert_eq!(materialized_columns(&mixed, 3, 8), [3]);
    assert_eq!(materialized_columns(&mixed, 4, 8), [4]);
}

#[test]
fn sparse_rows_and_many_machines_are_bounded_independently() {
    let mut sparse = machine_with_apps("sparse", 0);
    sparse.cells = (0..256)
        .map(|row| {
            vec![Line {
                name: None,
                apps: vec![app(format!("sparse-{row}"), format!("Sparse {row}"))],
            }]
        })
        .collect();
    let page = materialization(
        &vec![sparse],
        Cursor {
            col: 0,
            row: 255,
            line: 0,
            item: 0,
            inside: true,
        },
        32,
    );
    assert!(page.rows.len() <= MAX_MATERIALIZED_ROWS);
    assert!(page.apps.len() <= MAX_MATERIALIZED_APP_WIDGETS);
    assert!(page.apps.contains(&AppPosition {
        col: 0,
        row: 255,
        line: 0,
        item: 0,
    }));

    let machines = (0..32)
        .map(|index| machine_with_apps(&format!("machine-{index}"), 0))
        .collect::<Vec<_>>();
    let columns = materialized_columns(&machines, 31, 512);
    assert!(columns.len() <= MAX_MATERIALIZED_COLUMNS);
    assert!(columns.contains(&31));
}

#[test]
fn thousands_of_empty_named_rows_materialize_only_one_bounded_page() {
    let mut machine = machine_with_apps("empty-rows", 0);
    machine.cells = (0..1_024)
        .map(|row| {
            vec![Line {
                name: Some(format!("named-{row}")),
                apps: Vec::new(),
            }]
        })
        .collect();
    let cursor = Cursor {
        col: 0,
        row: 1_023,
        line: 0,
        item: 0,
        inside: false,
    };
    let page = materialization(&vec![machine], cursor, 20);
    assert!(page.is_paged());
    assert!(page.rows.len() <= MAX_MATERIALIZED_ROWS);
    assert!(page.rows.contains(&cursor.row));
    assert!(page.lines.len() <= MAX_MATERIALIZED_ROWS);
    assert!(page.line_visible(0, 1_023, 0));
}

#[test]
fn stale_launch_completion_is_not_current_after_reveal_or_hide() {
    let mut generation = 0;
    let launch = generation;
    assert!(generation_is_current(generation, launch));
    advance_generation(&mut generation);
    assert!(!generation_is_current(generation, launch));
}

#[test]
fn oversized_appset_is_rejected_before_any_partial_launch() {
    assert!(validate_launch_batch_len(MAX_APPSET_LAUNCH).is_ok());
    let error = validate_launch_batch_len(MAX_APPSET_LAUNCH + 1).unwrap_err();
    assert!(error.contains("refusing to launch"));

    let machine = machine_with_apps("host", MAX_APPSET_LAUNCH + 1);
    let apps = machine.cells[0][0].apps.clone();
    let argvs = vec![Some(vec!["true".to_string()]); apps.len()];
    let mut inflight = Inflight::new();
    let plan = queue_launch(&machine, &apps, &argvs, &Vec::new(), &mut inflight);
    assert!(plan.requests.is_empty());
    assert_eq!(plan.complaints, [error]);
    assert!(inflight.is_empty());
}

#[test]
fn an_app_under_way_is_not_launched_again_until_it_has_finished() {
    let machine = machine_with_apps("host", 2);
    let apps = machine.cells[0][0].apps.clone();
    let argvs = vec![Some(vec!["true".to_string()]), None];
    let mut inflight = Inflight::new();
    let plan = queue_launch(&machine, &apps, &argvs, &Vec::new(), &mut inflight);
    assert_eq!(plan.requests.len(), 1);
    assert_eq!(plan.requests[0].app_id, "host-0");
    assert_eq!(plan.requests[0].machine_name, "host");
    assert_eq!(plan.complaints.len(), 1);
    let again = queue_launch(&machine, &apps, &argvs, &Vec::new(), &mut inflight);
    assert!(again.requests.is_empty());
    assert_eq!(finish_launch(&plan.requests, &vec![true], &mut inflight), ["host-0"]);
    assert!(inflight.is_empty());
}

#[test]
fn a_terminal_app_needs_a_terminal() {
    let machine = machine_with_apps("host", 1);
    let mut top = machine.cells[0][0].apps[0].clone();
    top.terminal = true;
    let argv = Some(vec!["top".to_string()]);
    let refused = LaunchRequest::new(&machine, &top, &Vec::new(), &argv).unwrap_err();
    assert_eq!(
        refused,
        "host 0 needs a terminal and none is configured (set `terminal` in config)"
    );
    let foot = vec!["foot".to_string()];
    let request = LaunchRequest::new(&machine, &top, &foot, &argv).expect("a terminal is set");
    assert_eq!(request.argv, ["top"]);
}

fn prepared_with_config(config: Config) -> PreparedLauncher {
    PreparedLauncher {
        config: Ok(Some(config)),
        placement: ("{}".to_string(), None),
        visibility: ("{}".to_string(), None),
        usage: ("{}".to_string(), None),
        icons: None,
    }
}

fn no_machines() -> Config {
    Config::new(Vec::new())
}

#[test]
fn every_whole_ui_config_policy_change_requires_reconstruction() {
    let current = Some(no_machines());
    let mut keys = no_machines();
    keys.keys.insert("ctrl+k".to_string(), Some("cancel".to_string()));
    let mut theme = no_machines();
    theme.theme.ground = "#101010".to_string();
    theme.theme.icon_size = 48;
    let mut terminal = no_machines();
    terminal.terminal = vec!["foot".to_string(), "-e".to_string()];
    let mut focus = no_machines();
    focus.exit_on_focus_loss = false;
    focus.keyboard = "none".to_string();
    for changed in [keys, theme, terminal, focus] {
        assert!(prepared_config_requires_rebuild(
            &current,
            &prepared_with_config(changed)
        ));
    }
    assert!(!prepared_config_requires_rebuild(
        &current,
        &prepared_with_config(no_machines())
    ));
    let mut invalid = prepared_with_config(no_machines());
    invalid.config = Err("half-written declarative config".into());
    assert!(
        !prepared_config_requires_rebuild(&current, &invalid),
        "a transient invalid reload retains last-known-good UI"
    );
    let mut deleted = prepared_with_config(no_machines());
    deleted.config = Ok(None);
    assert!(
        prepared_config_requires_rebuild(&current, &deleted),
        "deleting config replaces the resident launcher with an honest empty state"
    );
    assert!(same_config(&no_machines(), &no_machines()));
}

fn mutable_snapshot(writable: bool) -> MutableStateSnapshot {
    MutableStateSnapshot {
        placement: "{}".to_string(),
        placement_writable: writable,
        visibility: "{}".to_string(),
        visibility_writable: writable,
        usage: "{}".to_string(),
        usage_writable: writable,
    }
}

#[test]
fn replacement_recovers_repaired_or_external_state_without_rolling_back_live_edits() {
    let unreadable = mutable_snapshot(false);
    let repaired = mutable_snapshot(true);
    assert_eq!(
        replacement_decision(false, false, &unreadable, &unreadable, &repaired),
        ReplacementDecision {
            rebuild: true,
            transfer_current: false,
            advance_baseline: false,
        },
        "repairing a state file must recover writability without restarting cbar"
    );

    let baseline = mutable_snapshot(true);
    let mut external = baseline.clone();
    external.visibility = r#"{"arbitrary":["external-app"]}"#.to_string();
    assert!(replacement_decision(false, false, &baseline, &baseline, &external).rebuild);

    let mut live = baseline.clone();
    live.visibility = r#"{"arbitrary":["just-hidden"]}"#.to_string();
    let pending = replacement_decision(true, false, &baseline, &live, &baseline);
    assert!(pending.rebuild);
    assert!(
        pending.transfer_current,
        "a pending async save must be transferred into a config rebuild"
    );
    assert!(
        !replacement_decision(false, false, &baseline, &live, &baseline).rebuild,
        "an unchanged config must retain unsaved live state rather than reload stale disk"
    );

    let caught_up = replacement_decision(false, false, &baseline, &live, &live);
    assert!(!caught_up.rebuild);
    assert!(caught_up.advance_baseline);
}

#[test]
fn inflight_launch_defers_replacement_then_clean_refresh_adopts_saved_usage() {
    let baseline = mutable_snapshot(true);
    let prepared_before_receipt = baseline.clone();
    let deferred = replacement_decision(true, true, &baseline, &baseline, &prepared_before_receipt);
    assert_eq!(
        deferred,
        ReplacementDecision {
            rebuild: false,
            transfer_current: false,
            advance_baseline: false,
        },
        "a replacement must not split ownership of a pending launch receipt"
    );

    let mut completed = baseline.clone();
    completed.usage = r#"{"machine/completed-app":{"score":1.0,"last":1}}"#.to_string();
    let refreshed = replacement_decision(true, false, &baseline, &completed, &completed);
    assert!(refreshed.rebuild);
    assert!(!refreshed.transfer_current);
    assert!(refreshed.advance_baseline);
}

#[test]
fn failed_state_reload_retains_live_values_and_becomes_read_only() {
    let mut current = mutable_snapshot(true);
    current.placement = r#"{"machine":{"Other":[["app"]]}}"#.to_string();
    current.visibility = r#"{"machine":["hidden"]}"#.to_string();
    current.usage = r#"{"machine/app":{"score":2.0,"last":1}}"#.to_string();
    let mut prepared = prepared_with_config(no_machines());
    prepared.placement.1 = Some("temporary placement error".into());
    prepared.visibility.1 = Some("temporary visibility error".into());
    prepared.usage.1 = Some("temporary usage error".into());
    prepared.retain_failed_state_from(&current);
    let retained = prepared.state_snapshot();
    assert_eq!(retained.placement, current.placement);
    assert_eq!(retained.visibility, current.visibility);
    assert_eq!(retained.usage, current.usage);
    assert!(!retained.placement_writable);
    assert!(!retained.visibility_writable);
    assert!(!retained.usage_writable);
}

#[test]
fn live_edits_go_into_a_rebuilt_launcher() {
    let mut prepared = prepared_with_config(no_machines());
    let mut live = mutable_snapshot(true);
    live.usage = "live".to_string();
    live.placement_writable = false;
    let mut baseline = mutable_snapshot(true);
    let mut other = no_machines();
    other.surface = "window".to_string();
    let rebuild =
        prepare_replacement(&mut prepared, true, &Some(other), None, false, &mut baseline, &live);
    assert!(rebuild);
    assert_eq!(prepared.usage, ("live".to_string(), None));
    assert_eq!(
        prepared.placement.1.as_deref(),
        Some("retained placement state after an earlier read failure")
    );
}

fn colours(known: Option<Rgba>, machines: usize) -> ParsedColours {
    let some = Some(Rgba { red: 1, green: 2, blue: 3, alpha: 255 });
    ParsedColours {
        ground: some,
        surface: some,
        fg: some,
        muted: some,
        dim: some,
        accent: known,
        error: some,
        border: some,
        machines: vec![some; machines],
    }
}

#[test]
fn gtk_invalid_color_reload_is_not_a_coherent_replacement() {
    let mut config = no_machines();
    config.theme.accent = "#fff; } window { color: red".into();
    let mut prepared = prepared_with_config(config);
    let live = mutable_snapshot(true);
    let mut baseline = mutable_snapshot(true);
    assert!(!prepare_replacement(
        &mut prepared,
        false,
        &Some(no_machines()),
        None,
        false,
        &mut baseline,
        &live
    ));
}

#[test]
fn cbar_scoping_preserves_the_exact_golden_stylesheet() {
    let theme = Theme::default();
    let unscoped = scoped_golden_css(&theme)
        .replace("window.cbar-launcher", "window")
        .replace(".cbar-launcher ", "");
    assert_eq!(unscoped, golden_css(&theme));
}

#[test]
fn scoped_launcher_sheet_wins_adversarial_display_global_bar_css_only_in_launcher() {
    let adversarial_bar_css = "* { color: red; padding: 20px; margin: 10px; } window { background: magenta; } label, button { padding: 99px; }";
    assert!(adversarial_bar_css.contains("window"));
    assert!(adversarial_bar_css.contains("label"));

    let embedded = css(&Theme::default());
    assert!(!embedded.contains(".cbar-launcher *"));
    assert!(embedded.contains("font-family: inherit"));
    assert!(embedded.contains("padding: 0"));
    assert!(embedded.contains("margin: 0"));
    assert!(embedded.contains("window.cbar-launcher"));
    assert!(embedded.contains(".cbar-launcher .app"));
    assert!(!embedded.contains("\nwindow {"));
    assert!(!embedded.contains("\n.app {"));
}

#[test]
fn missing_or_invalid_config_never_invents_runtime_data() {
    let missing = world_from_loaded(Ok(None), None);
    assert!(missing.machines.is_empty());
    assert_eq!(missing.folders, ["Other"]);
    assert!(missing.error.is_none());

    let invalid = world_from_loaded(Err("invalid config".to_string()), None);
    assert!(invalid.machines.is_empty());
    assert_eq!(invalid.folders, ["Other"]);
    assert_eq!(invalid.error.as_deref(), Some("invalid config"));
}

#[test]
fn colors_use_gdks_parser_and_are_canonical_before_css_or_markup() {
    let host = MachineConfig::new("host".to_string(), vec!["true".to_string()]);
    let mut config = Config::new(vec![host]);
    config.machines[0].accent = "rgba(1, 2, 3, 0.5)".to_string();
    config.theme.accent = "rgb(4, 5, 6)".to_string();
    let mut parsed = colours(Some(Rgba { red: 4, green: 5, blue: 6, alpha: 255 }), 1);
    parsed.machines[0] = Some(Rgba { red: 1, green: 2, blue: 3, alpha: 128 });
    let config = canonicalize_config_colors(config, &parsed).expect("valid GTK CSS colors");
    assert_eq!(config.theme.accent, "#040506");
    assert_eq!(config.machines[0].accent, "#01020380");

    let mut config = config;
    config.theme.accent = "#fff; } window { color: red".into();
    assert_eq!(
        canonicalize_config_colors(config, &colours(None, 1)).unwrap_err(),
        "theme.accent is not a valid GTK color"
    );
    assert_eq!(canonical_colour(Rgba { red: 255, green: 0, blue: 16, alpha: 255 }), "#ff0010");
}

#[test]
fn canonical_colours_are_plain_and_told_apart() {
    let solid = Rgba { red: 171, green: 205, blue: 239, alpha: 255 };
    let clear = Rgba { alpha: 9, ..solid };
    assert_eq!(canonical_colour(solid), "#abcdef");
    assert_eq!(canonical_colour(clear), "#abcdef09");
    assert!(canonical_colour(clear)[1..].chars().all(|c| c.is_ascii_hexdigit()));
}

#[test]
fn inventory_output_larger_than_a_pipe_is_drained_while_running() {
    let mut running = Running::start(5_000);
    let mut output = Vec::new();
    while output.len() < 131_072 {
        assert!(matches!(running.look("sh", Seen::StillRuns, 1), Look::Read));
        let take = next_read(output.len(), "output").expect("under the limit");
        output.extend(vec![0u8; take]);
        assert!(matches!(
            drain_capture(ReadOutcome::Bytes(take), output.len(), "output"),
            Drain::ReadOn
        ));
        assert!(matches!(running.judge("sh", Ok(false), 1), Verdict::Wait));
    }
    assert!(matches!(running.look("sh", Seen::Exited, 2), Look::Read));
    assert!(matches!(drain_capture(ReadOutcome::Bytes(0), output.len(), "output"), Drain::Ended));
    assert!(matches!(running.judge("sh", Ok(true), 2), Verdict::Done));
    let captured = inventory_outcome(true, "exit status: 0", output, &Vec::new());
    assert_eq!(captured.expect("the command succeeded").len(), 131_072);
}

#[test]
fn inventory_timeout_is_a_wall_clock_bound() {
    let mut running = Running::start(50);
    assert!(matches!(running.look("sh", Seen::StillRuns, 49), Look::Read));
    assert!(matches!(running.judge("sh", Ok(false), 49), Verdict::Wait));
    let Verdict::StopAndFail(error) = running.judge("sh", Ok(false), 50) else {
        panic!("the time is over");
    };
    assert!(error.contains("timed out after 50 ms"), "{error}");
}

#[test]
fn reading_ends_in_words_where_it_fails() {
    assert!(next_read(MAX_CAPTURE_BYTES + 1, "output").is_err());
    assert_eq!(next_read(MAX_CAPTURE_BYTES, "output"), Ok(1));
    assert!(matches!(
        drain_capture(ReadOutcome::Bytes(1), MAX_CAPTURE_BYTES + 1, "output"),
        Drain::Fail(_)
    ));
    assert!(matches!(drain_capture(ReadOutcome::WouldBlock, 1, "output"), Drain::Pause));
    assert!(matches!(drain_capture(ReadOutcome::Interrupted, 1, "output"), Drain::ReadOn));
    assert!(matches!(
        drain_capture(ReadOutcome::Failed("gone".to_string()), 1, "output"),
        Drain::Fail(error) if error == "could not read inventory output: gone"
    ));
    let mut running = Running::start(50);
    assert!(matches!(
        running.look("sh", Seen::Failed("no child".to_string()), 1),
        Look::StopAndFail(error) if error == "sh: no child"
    ));
    let mut running = Running::start(50);
    running.look("sh", Seen::Exited, 10);
    assert!(matches!(running.judge("sh", Ok(false), 109), Verdict::Wait));
    assert!(matches!(
        running.judge("sh", Ok(false), 110),
        Verdict::Fail(error) if error == "sh: inventory output remained open after the command exited"
    ));
    assert!(matches!(
        running.judge("sh", Err("gone".to_string()), 60),
        Verdict::Fail(error) if error == "sh: gone"
    ));
}

#[test]
fn markup_holds_no_tags_of_its_texts() {
    assert_eq!(escape("<b>&'\""), "&lt;b&gt;&amp;'\"");
    assert_eq!(
        heading_markup("a<b", "#fff", &Some("down & out\nmore".to_string()), "#f00"),
        "<span foreground=\"#fff\">a&lt;b</span>  <span foreground=\"#f00\" size=\"small\">down &amp; out</span>"
    );
    assert_eq!(
        search_label(&None, "", "#f00"),
        SearchLabel::Prompt("type to search\u{2026}".to_string())
    );
    assert_eq!(search_label(&None, "x", "#f00"), SearchLabel::Query("x".to_string()));
    assert_eq!(
        search_label(&Some("a<b".to_string()), "x", "#f00"),
        SearchLabel::Problem(
            "<span foreground=\"#f00\">startup problem:</span> a&lt;b".to_string()
        )
    );
    assert!(hint_markup(Focus::Outside, false, 0, &None).contains("<b>Esc</b> close"));
    assert!(hint_markup(Focus::Inside, true, 2, &Some(page_hint(0, 3))).contains("1"));
    assert_eq!(replace_text("a-b-a", "a", "cc"), "cc-b-cc");
    let labels = row_labels(&vec!["Work/Mail".to_string(), "Work".to_string()]);
    assert_eq!(labels[0].rung.as_deref(), Some("Mail"));
}

#[test]
fn the_first_problem_of_the_start_is_told() {
    let some = |text: &str| Some(text.to_string());
    assert_eq!(startup_error(some("c"), some("p"), None, some("u")).as_deref(), Some("c"));
    assert_eq!(startup_error(None, some("p"), some("v"), None).as_deref(), Some("p"));
    assert_eq!(startup_error(None, None, None, some("u")).as_deref(), Some("u"));
    assert_eq!(startup_error(None, None, None, None), None);
}
