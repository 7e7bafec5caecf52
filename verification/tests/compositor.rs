use cbar::compositor::{
    keyboard_index, keyboard_layout_from_inputs, sway_ipc_compositor_from_values,
    workspace_snapshot_update, Backend, BindModeUpdate, ClientKind, Compositor, Error,
    KeyboardLayoutUpdate, SwayIpcCompositor, Visibility, WorkspaceTarget, WorkspaceUpdate,
};
use cbar::sway::{
    Input, InputChange, InputEvent, ModeEvent, Node, Workspace, WorkspaceChange, WorkspaceEvent,
};
use cbar::sway_commands::{
    command_dialect_from_values, find_workspace, focus_command_for_target,
    next_keyboard_layout_command, quote_i3_argument, quote_sway_argument, CommandDialect,
    CommandError,
};

fn parse_i3_workspace_command(command: &str) -> Option<String> {
    let value = command.strip_prefix("workspace ")?;
    let bytes = value.as_bytes();
    if bytes.first() != Some(&b'"') {
        return None;
    }

    let mut parsed = Vec::with_capacity(value.len());
    let mut index = 1;
    let mut closed = false;
    while index < bytes.len() {
        match bytes[index] {
            b'"' => {
                index += 1;
                closed = true;
                break;
            }
            b'\\' if index + 1 < bytes.len() => {
                let next = bytes[index + 1];
                if matches!(next, b'"' | b'\\') {
                    parsed.push(next);
                } else {
                    parsed.extend_from_slice(&[b'\\', next]);
                }
                index += 2;
            }
            byte => {
                parsed.push(byte);
                index += 1;
            }
        }
    }

    if !closed || !value[index..].trim().is_empty() {
        return None;
    }
    String::from_utf8(parsed).ok()
}
fn parse_sway_runtime_command(command: &str) -> Vec<Vec<String>> {
    split_sway(command, |character| matches!(character, ';' | ','), false)
        .into_iter()
        .filter(|command| !command.trim().is_empty())
        .map(|command| {
            let mut arguments = split_sway(&command, char::is_whitespace, true);
            for argument in arguments.iter_mut().skip(1) {
                if matches!(argument.chars().next(), Some('"' | '\'')) {
                    *argument = strip_sway_quotes(argument);
                }
                *argument = replace_sway_variables(argument);
            }
            arguments
        })
        .collect()
}

fn split_sway(
    input: &str,
    delimiter: impl Fn(char) -> bool,
    brackets_group: bool,
) -> Vec<String> {
    let mut tokens = Vec::new();
    let mut token = String::new();
    let mut in_string = false;
    let mut in_char = false;
    let mut in_brackets = false;
    let mut escaped = false;

    for character in input.chars() {
        let is_delimiter = delimiter(character);
        if character == '"' && !in_char && !escaped {
            in_string = !in_string;
        } else if character == '\'' && !in_string && !escaped {
            in_char = !in_char;
        } else if brackets_group
            && character == '['
            && !in_string
            && !in_char
            && !in_brackets
            && !escaped
        {
            in_brackets = true;
        } else if brackets_group
            && character == ']'
            && !in_string
            && !in_char
            && in_brackets
            && !escaped
        {
            in_brackets = false;
        } else if is_delimiter && !in_string && !in_char && !in_brackets && !escaped {
            if !token.is_empty() {
                tokens.push(std::mem::take(&mut token));
            }
            escaped = false;
            continue;
        }

        token.push(character);
        if character == '\\' {
            escaped = !escaped;
        } else {
            escaped = false;
        }
    }
    if !token.is_empty() {
        tokens.push(token);
    }
    tokens
}

fn strip_sway_quotes(value: &str) -> String {
    let mut stripped = String::with_capacity(value.len());
    let mut in_string = false;
    let mut in_char = false;
    let mut escaped = false;
    for character in value.chars() {
        if character == '\'' && !in_string && !escaped {
            in_char = !in_char;
            continue;
        }
        if character == '"' && !in_char && !escaped {
            in_string = !in_string;
            continue;
        }
        stripped.push(character);
        if character == '\\' {
            escaped = !escaped;
        } else {
            escaped = false;
        }
    }
    stripped
}

fn replace_sway_variables(value: &str) -> String {
    let mut value = value.to_string();
    let mut search_from = 0;
    while let Some(relative) = value[search_from..].find('$') {
        let dollar = search_from + relative;
        let bytes = value.as_bytes();
        let escaped = dollar > 0
            && bytes[dollar - 1] == b'\\'
            && (dollar == 1 || bytes[dollar - 2] != b'\\');
        if escaped {
            search_from = dollar + 1;
        } else if bytes.get(dollar + 1) == Some(&b'$') {
            value.remove(dollar);
            search_from = dollar + 1;
        } else if value[dollar..].starts_with("$danger") {
            value.replace_range(dollar..dollar + "$danger".len(), "exec danger");
            search_from = dollar + "exec danger".len();
        } else {
            search_from = dollar + 1;
        }
    }
    value
}


fn listed(id: i64, num: i64, name: &str, shown: bool) -> Workspace {
    Workspace {
        id,
        num,
        name: name.to_string(),
        output: "DP-1".to_string(),
        visible: shown,
        focused: shown,
    }
}

fn node(id: i64, name: &str) -> Node {
    Node {
        id,
        num: Some(4),
        name: Some(name.to_string()),
        output: Some("DP-1".to_string()),
        visible: Some(false),
        focused: false,
        urgent: false,
    }
}

#[test]
fn sway_socket_wins_and_i3_socket_remains_a_distinct_runtime() {
    assert_eq!(
        sway_ipc_compositor_from_values(
            Some("/run/sway.sock".to_string()),
            Some("/run/i3.sock".to_string()),
        ),
        Some(SwayIpcCompositor::Sway)
    );
    assert_eq!(
        sway_ipc_compositor_from_values(None, Some("/run/i3.sock".to_string())),
        Some(SwayIpcCompositor::I3)
    );
    assert_eq!(
        sway_ipc_compositor_from_values(Some(String::new()), Some(String::new())),
        None
    );
}

#[test]
fn i3_does_not_advertise_sway_keyboard_layout_extensions() {
    assert!(!Compositor::I3.supports_keyboard_layout_client());
    assert!(Compositor::Sway.supports_keyboard_layout_client());
}

#[test]
fn i3_retains_the_shared_workspace_and_bindmode_clients() {
    assert!(Compositor::I3.supports_workspace_client());
    assert!(Compositor::I3.supports_bindmode_client());
}

#[test]
fn the_environment_names_the_compositor() {
    let some = |text: &str| Some(text.to_string());
    assert_eq!(Compositor::current(None, some("/s"), some("/i"), true, true), Compositor::Sway);
    assert_eq!(Compositor::current(None, None, some("/i"), true, true), Compositor::I3);
    assert_eq!(Compositor::current(None, None, None, true, true), Compositor::Hyprland);
    assert_eq!(Compositor::current(None, None, None, false, true), Compositor::Niri);
    assert_eq!(Compositor::current(None, some(""), None, false, false), Compositor::Unsupported);
    assert_eq!(
        Compositor::current(some("/run/scroll.sock"), None, None, false, false),
        Compositor::Sway
    );
    assert_eq!(Compositor::current(some("/c"), None, some("/i"), true, true), Compositor::Sway);
    assert_eq!(Compositor::current(some(""), None, some("/i"), true, true), Compositor::I3);
    assert_eq!(Compositor::Sway.name(), "Sway");
    assert_eq!(
        Compositor::I3.client_backend(ClientKind::Workspaces),
        Ok(Backend::Sway)
    );
    let refused = Compositor::I3.client_backend(ClientKind::KeyboardLayout).unwrap_err();
    assert!(matches!(refused, Error::Unsupported("keyboard", _)));
    let message = refused.message();
    assert!(
        message.starts_with("keyboard is unsupported by compositor. The following are supported: [\""),
        "{message}"
    );
    assert_eq!(Error::Other("socket gone".to_string()).message(), "socket gone");
}

#[test]
fn closed_numbered_favourite_focuses_by_name() {
    let target = WorkspaceTarget::Persistent {
        name: "2".to_string(),
        index: Some(2),
    };

    assert_eq!(
        focus_command_for_target(&target, None, CommandDialect::Sway)
            .expect("named target to produce a command"),
        "workspace \"2\""
    );
}

#[test]
fn open_numbered_workspace_keeps_stable_number_command() {
    let target = WorkspaceTarget::Id(91);
    let workspace = listed(91, 8, "renamed meanwhile", false);
    assert_eq!(
        focus_command_for_target(&target, Some(&workspace), CommandDialect::Sway)
            .expect("numbered workspace to produce a command"),
        "workspace number 8"
    );
}

#[test]
fn first_workspace_snapshot_initializes_and_later_snapshot_resyncs() {
    let mut initialized = false;
    let initial = vec![listed(1, 1, "old", true)];
    assert!(matches!(
        workspace_snapshot_update(&mut initialized, &initial),
        WorkspaceUpdate::Init(workspaces)
            if workspaces.len() == 1 && workspaces[0].name == "old"
    ));

    let resnapshot = vec![listed(1, 1, "renamed", true)];
    assert!(matches!(
        workspace_snapshot_update(&mut initialized, &resnapshot),
        WorkspaceUpdate::Resync(workspaces)
            if workspaces.len() == 1 && workspaces[0].name == "renamed"
    ));
}

#[test]
fn sway_runtime_parser_round_trips_every_supported_argument() {
    for value in [
        "",
        "plain",
        "spaces and\ttabs",
        "x; exec danger",
        "comma, exec danger",
        "single'quote",
        "double\"quote",
        "escaped\\\"double'quote",
        "middle\\backslash",
        "even-trailing\\\\",
        "$danger",
        "$$danger",
        "escaped\\$danger",
        "double-slash\\\\$danger",
    ] {
        let command = focus_command_for_target(
            &WorkspaceTarget::Name(value.to_string()),
            None,
            CommandDialect::Sway,
        )
        .expect("supported value should produce a command");
        let commands = parse_sway_runtime_command(&command);
        assert_eq!(
            commands,
            vec![vec!["workspace".to_string(), value.to_string()]]
        );
    }

    for value in [
        "bad\nexec danger",
        "bad\rtail",
        "bad\0tail",
        "odd-trailing\\",
        "both\"quote'kinds",
    ] {
        assert!(
            quote_sway_argument(value).is_err(),
            "unrepresentable value {value:?} should be rejected"
        );
    }

    let value = "kbd; exec danger";
    let command = next_keyboard_layout_command(value, CommandDialect::Sway)
        .expect("injection-shaped identifier should remain one argument");
    assert_eq!(
        parse_sway_runtime_command(&command),
        vec![vec![
            "input".to_string(),
            value.to_string(),
            "xkb_switch_layout".to_string(),
            "next".to_string(),
        ]]
    );
}

#[test]
fn every_accepted_short_argument_round_trips_through_sway_runtime_parser() {
    let alphabet = ['a', '"', '\'', '\\', '$', ';', ',', ' ', '\t', '[', ']'];
    for length in 0_usize..=4 {
        for mut encoded_value in 0..alphabet.len().pow(length as u32) {
            let mut value = String::with_capacity(length);
            for _ in 0..length {
                value.push(alphabet[encoded_value % alphabet.len()]);
                encoded_value /= alphabet.len();
            }

            let target = WorkspaceTarget::Name(value.clone());
            let Ok(command) = focus_command_for_target(&target, None, CommandDialect::Sway)
            else {
                continue;
            };
            assert_eq!(
                parse_sway_runtime_command(&command),
                vec![vec!["workspace".to_string(), value.clone()]],
                "accepted value {value:?} must remain one exact argument"
            );
        }
    }
}

#[test]
fn i3_socket_selects_i3_parser_and_round_trips_its_escape_rules() {
    assert_eq!(
        command_dialect_from_values(None, None, Some("/run/i3.sock".to_string())),
        CommandDialect::I3
    );
    assert_eq!(
        command_dialect_from_values(
            Some("/run/scroll.sock".to_string()),
            Some("/run/sway.sock".to_string()),
            Some("/run/i3.sock".to_string()),
        ),
        CommandDialect::Sway
    );

    for value in [
        "",
        "plain",
        "spaces and\ttabs",
        "x; exec danger",
        "comma, exec danger",
        "single'quote",
        "double\"quote",
        "middle\\backslash",
        "trailing\\",
        "$danger",
        "[brackets]",
    ] {
        let command = focus_command_for_target(
            &WorkspaceTarget::Name(value.to_string()),
            None,
            CommandDialect::I3,
        )
        .expect("i3 value should produce a command");
        assert_eq!(
            parse_i3_workspace_command(&command).as_deref(),
            Some(value),
            "i3 runtime parser must recover {value:?} exactly"
        );
    }

    assert!(quote_i3_argument("bad\nexec danger").is_err());
    assert!(quote_i3_argument("bad\0tail").is_err());
}

#[test]
fn every_short_i3_argument_round_trips_through_i3_runtime_parser() {
    let alphabet = ['a', '"', '\'', '\\', '$', ';', ',', ' ', '\t', '[', ']'];
    for length in 0_usize..=4 {
        for mut encoded_value in 0..alphabet.len().pow(length as u32) {
            let mut value = String::with_capacity(length);
            for _ in 0..length {
                value.push(alphabet[encoded_value % alphabet.len()]);
                encoded_value /= alphabet.len();
            }
            let command = focus_command_for_target(
                &WorkspaceTarget::Name(value.clone()),
                None,
                CommandDialect::I3,
            )
            .expect("short i3 value should be representable");
            assert_eq!(
                parse_i3_workspace_command(&command),
                Some(value.clone()),
                "i3 accepted value {value:?} must remain one exact argument"
            );
        }
    }
}

#[test]
fn incomplete_workspace_events_degrade_without_panicking() {
    let missing = WorkspaceUpdate::from(WorkspaceEvent {
        change: WorkspaceChange::Focus,
        current: None,
        old: None,
    });
    assert!(matches!(missing, WorkspaceUpdate::Unknown));

    let removed = WorkspaceUpdate::from(WorkspaceEvent {
        change: WorkspaceChange::Empty,
        current: None,
        old: Some(Node {
            id: 44,
            num: Some(4),
            name: Some("4".to_string()),
            output: Some("DP-1".to_string()),
            visible: Some(false),
            focused: false,
            urgent: false,
        }),
    });
    assert!(matches!(removed, WorkspaceUpdate::Remove(44)), "{removed:?}");
}

#[test]
fn workspace_events_become_updates() {
    let event = |change| {
        WorkspaceUpdate::from(WorkspaceEvent {
            change,
            current: Some(node(7, "seven")),
            old: Some(node(3, "three")),
        })
    };
    assert!(matches!(event(WorkspaceChange::Init), WorkspaceUpdate::Add(w) if w.id == 7));
    assert!(matches!(event(WorkspaceChange::Move), WorkspaceUpdate::Move(w) if w.id == 7));
    assert!(matches!(
        event(WorkspaceChange::Rename),
        WorkspaceUpdate::Rename { id: 7, name } if name == "seven"
    ));
    assert!(matches!(
        event(WorkspaceChange::Urgent),
        WorkspaceUpdate::Urgent { id: 7, urgent: false }
    ));
    assert!(matches!(
        event(WorkspaceChange::Focus),
        WorkspaceUpdate::Focus { old: Some(old), new } if old.id == 3 && new.id == 7
    ));
    assert!(matches!(event(WorkspaceChange::Unknown), WorkspaceUpdate::Unknown));
}

#[test]
fn empty_input_snapshot_does_not_fabricate_an_empty_layout() {
    assert!(keyboard_layout_from_inputs(&Vec::new()).is_none());
    assert!(keyboard_layout_from_inputs(&vec![Input {
        identifier: "pointer".to_string(),
        xkb_active_layout_name: None,
    }])
    .is_none());
    assert_eq!(
        keyboard_layout_from_inputs(&vec![Input {
            identifier: "keyboard".to_string(),
            xkb_active_layout_name: Some("English (US)".to_string()),
        }])
        .expect("keyboard layout should be selected")
        .0,
        "English (US)"
    );
}

#[test]
fn layouts_and_modes_come_from_their_events() {
    let keyboard = Input {
        identifier: "keyboard".to_string(),
        xkb_active_layout_name: Some("German".to_string()),
    };
    assert_eq!(keyboard_index(&vec![keyboard.clone()]), Some(0));
    let update = KeyboardLayoutUpdate::try_from(InputEvent {
        change: InputChange::XkbLayout,
        input: keyboard.clone(),
    });
    assert_eq!(update.map(|layout| layout.0).as_deref(), Some("German"));
    assert!(KeyboardLayoutUpdate::try_from(InputEvent {
        change: InputChange::Unknown,
        input: keyboard,
    })
    .is_none());
    let mode = BindModeUpdate::of_mode(&ModeEvent {
        change: "resize".to_string(),
        pango_markup: true,
    });
    assert_eq!(mode.name, "resize");
    assert!(mode.pango_markup);
    let normal = BindModeUpdate::of_mode(&ModeEvent {
        change: "default".to_string(),
        pango_markup: false,
    });
    assert_eq!(normal.name, "");
}

#[test]
fn visibility_tells_shown_from_focused() {
    assert!(Visibility::visible().is_visible());
    assert!(!Visibility::visible().is_focused());
    assert!(Visibility::focused().is_visible());
    assert!(Visibility::focused().is_focused());
    assert!(!Visibility::Hidden.is_visible());
}

#[test]
fn unknown_workspaces_and_arguments_are_refused_in_words() {
    let workspaces = vec![listed(1, 1, "one", true), listed(2, 2, "two", false)];
    assert_eq!(find_workspace(&workspaces, 2), Some(1));
    assert_eq!(find_workspace(&workspaces, 9), None);
    assert_eq!(
        focus_command_for_target(&WorkspaceTarget::Id(9), None, CommandDialect::Sway),
        Err(CommandError::UnknownWorkspace(9))
    );
    assert!(!CommandError::UnknownWorkspace(9).message().is_empty());
    assert_eq!(quote_sway_argument("a\nb"), Err(CommandError::SwayLineBreak));
    assert_eq!(quote_sway_argument("a\\"), Err(CommandError::SwayTrailingBackslash));
    assert_eq!(quote_sway_argument("\"'"), Err(CommandError::SwayQuotes));
    assert_eq!(quote_i3_argument("a\nb"), Err(CommandError::I3LineBreak));
}

#[test]
fn persistent_targets_are_named_or_numbered() {
    let target = |index| WorkspaceTarget::Persistent { name: "web".to_string(), index };
    let name = WorkspaceTarget::Name("web".to_string());
    assert_eq!(target(Some(3)).persistent_by_name(), name);
    assert_eq!(target(Some(3)).persistent_by_index(9), WorkspaceTarget::Id(3));
    assert_eq!(target(Some(3)).persistent_by_index(2), name);
    assert_eq!(target(Some(0)).persistent_by_index(9), name);
    assert_eq!(target(None).persistent_by_index(9), name);
    assert_eq!(WorkspaceTarget::Id(7).persistent_by_index(2), WorkspaceTarget::Id(7));
}
