use cbar::launch::{
    argv_cost, executable_file, finish_direct, finish_user_service_handoff,
    launch_queue_capacity, launch_worker_count, manager_program_candidates, reserve_counter,
    resolve_manager_program_from, service_environment_names_from, service_possible,
    spawn_detached_argv, user_service_command, validate_argv, validate_batch, wait_handoff,
    warm_launch_service, warm_user_service_capability, ArgvCost, CapabilityAnswer,
    CapabilityState, ChildPoll, DirectOutcome, Handoff, HandoffStep, HelperPoll, LaunchError,
    LaunchJob, LaunchQueue, LaunchReceipt, LaunchRoute, LaunchService, LaunchTicket, Popped,
    Reaper, ReaperWait, UserServiceCapability, Variable, Workers, MAX_ARGV_BYTES,
    MAX_ARGV_ENTRIES, MAX_BATCH_ARGV_BYTES, MAX_BATCH_ARGV_ENTRIES, MAX_BATCH_REQUESTS,
    MAX_LAUNCH_WORKERS, MAX_QUEUED_ARGV_BYTES, MIN_LAUNCH_WORKERS,
};

fn texts(list: &[&str]) -> Vec<String> {
    list.iter().map(|text| text.to_string()).collect()
}

fn variable(name: &str, value: &str) -> Variable {
    Variable { name: Some(name.to_string()), value: Some(value.to_string()) }
}

/// Waits as a launch does: ask, and where the answer is to wait, let the time pass.
fn wait_for_capability(capability: &mut UserServiceCapability, now: u64, timeout: u64) -> bool {
    match capability.poll_capability(now, now + timeout) {
        CapabilityAnswer::Available => true,
        CapabilityAnswer::Unavailable => false,
        CapabilityAnswer::Wait { millis } => {
            let later = now + millis;
            if capability.wait_timed_out(later) {
                return false;
            }
            matches!(
                capability.poll_capability(later + 1, now + timeout),
                CapabilityAnswer::Available
            )
        }
    }
}

#[test]
fn manager_service_is_exact_argv_without_shell_or_expansion() {
    let arguments = texts(&[
        "argument with spaces",
        "$HOME",
        "%n",
        "%i",
        "%%",
        "semi;colon",
    ]);
    let environment = texts(&["PATH", "WAYLAND_DISPLAY"]);
    let command = user_service_command("/usr/bin/example", &arguments, &environment);
    assert_eq!(
        command,
        [
            "systemd-run",
            "--user",
            "--collect",
            "--quiet",
            "--service-type=exec",
            "--expand-environment=no",
            "--same-dir",
            "--setenv=PATH",
            "--setenv=WAYLAND_DISPLAY",
            "--",
            "/usr/bin/example",
            "argument with spaces",
            "$HOME",
            "%n",
            "%i",
            "%%",
            "semi;colon",
        ]
    );
    assert!(!command.iter().any(|argument| argument == "--scope"));

    let probe = user_service_command("/nix/store/example/bin/true", &Vec::new(), &environment);
    assert_eq!(
        probe,
        [
            "systemd-run",
            "--user",
            "--collect",
            "--quiet",
            "--service-type=exec",
            "--expand-environment=no",
            "--same-dir",
            "--setenv=PATH",
            "--setenv=WAYLAND_DISPLAY",
            "--",
            "/nix/store/example/bin/true",
        ]
    );
}

#[test]
fn nix_profile_program_is_resolved_absolutely_in_caller_path_order() {
    let preferred = "/home/user/.nix-profile/bin/media-ui";
    let candidates = manager_program_candidates(
        "media-ui",
        Some("/home/user/.nix-profile/bin:/usr/bin"),
        "/work",
    );
    assert_eq!(candidates[0], preferred);
    let resolved: Vec<Option<String>> = candidates
        .iter()
        .map(|candidate| {
            if candidate == preferred {
                Some(candidate.clone())
            } else {
                None
            }
        })
        .collect();
    assert_eq!(
        resolve_manager_program_from(&resolved).as_deref(),
        Some("/home/user/.nix-profile/bin/media-ui")
    );
}

#[test]
fn slash_relative_program_remains_valid_for_same_dir_service() {
    let candidates = manager_program_candidates("./bin/media-ui", None, "/work");
    let resolved: Vec<Option<String>> = candidates.into_iter().map(Some).collect();
    let resolved = resolve_manager_program_from(&resolved)
        .expect("relative executable should resolve against the caller cwd");
    let resolved = std::path::Path::new(&resolved);
    assert!(resolved.is_absolute());
    assert!(resolved.ends_with("bin/media-ui"));
}

#[test]
fn an_empty_search_entry_is_the_working_directory() {
    assert_eq!(
        manager_program_candidates("tool", Some(":rel:/abs"), "/work"),
        ["/work/tool", "/work/rel/tool", "/abs/tool"]
    );
    assert_eq!(
        resolve_manager_program_from(&vec![None, Some("relative".to_string()), None]),
        None
    );
}

#[test]
fn direct_command_preserves_exact_arguments() {
    let argv = texts(&["/usr/bin/example", "a b", "$HOME", "%n", "semi;colon"]);
    match spawn_detached_argv(&argv, None, None, false) {
        Ok(LaunchRoute::Direct { command }) => {
            assert_eq!(command[0], "/usr/bin/example");
            assert_eq!(command[1..], ["a b", "$HOME", "%n", "semi;colon"]);
        }
        other => panic!("a direct launch was expected, got {other:?}"),
    }
}

#[test]
fn an_available_manager_takes_the_launch_and_keeps_the_direct_way_open() {
    let argv = texts(&["example", "one"]);
    let names = texts(&["PATH"]);
    let program = "/usr/bin/example".to_string();
    match spawn_detached_argv(&argv, Some(&names), Some(&program), true) {
        Ok(LaunchRoute::UserService { command, direct }) => {
            assert_eq!(command.last().map(String::as_str), Some("one"));
            assert!(command.contains(&program));
            assert_eq!(direct, argv);
        }
        other => panic!("a launch by the manager was expected, got {other:?}"),
    }
    assert!(service_possible(Some(&names), Some(&program)));
    assert!(!service_possible(None, Some(&program)));
    assert!(matches!(
        spawn_detached_argv(&Vec::new(), None, None, false),
        Err(LaunchError::EmptyArgv)
    ));
}

#[test]
fn environment_name_contract_is_sorted_bounded_and_lossless() {
    let names = service_environment_names_from(&vec![
        variable("WAYLAND_DISPLAY", "wayland-1"),
        variable("PATH", "/bin"),
        variable("PATH", "/bin"),
    ])
    .expect("ordinary environment names should be representable");
    assert_eq!(names, ["PATH", "WAYLAND_DISPLAY"]);
    assert!(service_environment_names_from(&vec![variable("9INVALID", "x")]).is_none());
    assert!(service_environment_names_from(&vec![variable("HAS-DASH", "x")]).is_none());
    assert!(service_environment_names_from(
        &(0..=4_096)
            .map(|index| variable(&format!("NAME_{index}"), "x"))
            .collect::<Vec<_>>()
    )
    .is_none());
}

#[test]
fn non_utf8_environment_value_selects_exact_direct_inheritance() {
    // A value that is not UTF-8 has no text.
    assert!(service_environment_names_from(&vec![Variable {
        name: Some("VALID_NAME".to_string()),
        value: None,
    }])
    .is_none());
}

#[test]
fn argv_admission_bounds_aggregate_queue_memory() {
    let boundary = vec!["x".repeat(MAX_ARGV_BYTES)];
    validate_argv(&boundary).expect("byte boundary should be accepted");
    assert!(matches!(
        validate_argv(&vec!["x".repeat(MAX_ARGV_BYTES + 1)]),
        Err(LaunchError::ArgvTooLarge { .. })
    ));

    let mut too_many = (0..=MAX_ARGV_ENTRIES)
        .map(|_| String::new())
        .collect::<Vec<_>>();
    too_many[0] = "program".to_string();
    assert!(matches!(
        validate_argv(&too_many),
        Err(LaunchError::ArgvTooLarge { .. })
    ));

    let ordinary_appset = (0..MAX_BATCH_REQUESTS)
        .map(|index| vec![format!("program-{index}")])
        .collect::<Vec<_>>();
    assert_eq!(
        validate_batch(&ordinary_appset)
            .expect("a 64-app launcher set should fit")
            .requests,
        MAX_BATCH_REQUESTS
    );
    let too_many_apps = (0..=MAX_BATCH_REQUESTS)
        .map(|index| vec![format!("program-{index}")])
        .collect::<Vec<_>>();
    assert!(matches!(
        validate_batch(&too_many_apps),
        Err(LaunchError::BatchTooLarge { .. })
    ));

    let bytes_per_app = MAX_BATCH_ARGV_BYTES / MAX_BATCH_REQUESTS;
    let byte_boundary = (0..MAX_BATCH_REQUESTS)
        .map(|_| vec!["x".repeat(bytes_per_app)])
        .collect::<Vec<_>>();
    assert_eq!(
        validate_batch(&byte_boundary)
            .expect("64 launcher-limit argv should fit exactly")
            .bytes,
        MAX_BATCH_ARGV_BYTES
    );
    let mut too_many_batch_bytes = byte_boundary;
    too_many_batch_bytes[0].push("x".to_string());
    assert!(matches!(
        validate_batch(&too_many_batch_bytes),
        Err(LaunchError::BatchTooLarge { .. })
    ));

    let entries_per_app = MAX_BATCH_ARGV_ENTRIES / MAX_BATCH_REQUESTS;
    let entry_boundary = (0..MAX_BATCH_REQUESTS)
        .map(|index| {
            let mut argv = vec![format!("program-{index}")];
            argv.resize(entries_per_app, String::new());
            argv
        })
        .collect::<Vec<_>>();
    assert_eq!(
        validate_batch(&entry_boundary)
            .expect("aggregate entry boundary should fit exactly")
            .entries,
        MAX_BATCH_ARGV_ENTRIES
    );
    let mut too_many_batch_entries = entry_boundary;
    too_many_batch_entries[0].push(String::new());
    assert!(matches!(
        validate_batch(&too_many_batch_entries),
        Err(LaunchError::BatchTooLarge { .. })
    ));
}

fn job(program: &str, id: u64) -> LaunchJob {
    let argv = vec![program.to_string()];
    let cost = argv_cost(&argv).expect("fixture argv should be valid");
    LaunchJob { argv, cost, ticket: LaunchTicket { id } }
}

#[test]
fn batch_reservation_is_atomic_and_tickets_preserve_input_order() {
    let mut queue = LaunchQueue::new(2);
    let first = job("first", 0);
    let second = job("second", 1);
    let cost = first
        .cost
        .checked_add(second.cost)
        .expect("fixture cost should fit");
    queue
        .enqueue_batch(vec![first, second], cost)
        .expect("whole first batch should be reserved");

    let rejected = job("rejected", 2);
    assert!(matches!(
        queue.enqueue_batch(
            vec![rejected],
            ArgvCost {
                requests: 1,
                entries: 1,
                bytes: "rejected".len(),
            }
        ),
        Err(LaunchError::QueueFull { .. })
    ));
    assert_eq!(queue.jobs.len(), 2, "rejected batch must enqueue nothing");
    assert_eq!(queue.cost, cost);

    let (first, second) = match (queue.pop(), queue.pop()) {
        (Popped::Job(first), Popped::Job(second)) => (first, second),
        _ => panic!("both jobs should remain queued"),
    };
    assert_eq!(first.argv[0], "first");
    assert_eq!(second.argv[0], "second");
    assert_eq!(first.ticket.id, 0);
    assert_eq!(second.ticket.id, 1);
    assert!(matches!(queue.pop(), Popped::Wait));
    queue.stop();
    assert!(matches!(queue.pop(), Popped::Stopped));
}

#[test]
fn queue_accounting_rejects_aggregate_bytes_without_partial_admission() {
    fn oversized_cost_job() -> LaunchJob {
        LaunchJob {
            argv: vec!["program".to_string()],
            cost: ArgvCost {
                requests: 1,
                entries: 1,
                bytes: MAX_QUEUED_ARGV_BYTES,
            },
            ticket: LaunchTicket { id: 0 },
        }
    }

    let mut queue = LaunchQueue::new(MAX_BATCH_REQUESTS);
    queue
        .enqueue_batch(
            vec![oversized_cost_job()],
            ArgvCost {
                requests: 1,
                entries: 1,
                bytes: MAX_QUEUED_ARGV_BYTES,
            },
        )
        .expect("queue byte boundary should fit");
    assert!(matches!(
        queue.enqueue_batch(
            vec![oversized_cost_job()],
            ArgvCost {
                requests: 1,
                entries: 1,
                bytes: MAX_QUEUED_ARGV_BYTES,
            }
        ),
        Err(LaunchError::QueueFull { .. })
    ));
    assert_eq!(queue.jobs.len(), 1);
    assert_eq!(queue.cost.bytes, MAX_QUEUED_ARGV_BYTES);
}

#[test]
fn launch_pool_is_adaptive_and_safely_capped() {
    assert_eq!(launch_worker_count(None), MIN_LAUNCH_WORKERS);
    assert_eq!(launch_worker_count(Some(1)), MIN_LAUNCH_WORKERS);
    assert_eq!(launch_worker_count(Some(3)), 6);
    assert_eq!(launch_worker_count(Some(8)), 16);
    assert_eq!(launch_worker_count(Some(16)), MAX_LAUNCH_WORKERS);
    assert_eq!(launch_worker_count(Some(usize::MAX)), MAX_LAUNCH_WORKERS);
    assert_eq!(launch_queue_capacity(MIN_LAUNCH_WORKERS), 64);
    assert_eq!(launch_queue_capacity(16), 64);
    assert_eq!(launch_queue_capacity(17), 68);
    assert_eq!(launch_queue_capacity(MAX_LAUNCH_WORKERS), 128);
    assert_eq!(launch_queue_capacity(usize::MAX), 128);
}

#[test]
fn direct_capacity_is_rejected_before_spawn() {
    let mut counter = 0;
    for _ in 0..3 {
        reserve_counter(&mut counter, 3).expect("capacity should remain");
    }
    assert!(matches!(
        reserve_counter(&mut counter, 3),
        Err(LaunchError::DirectCapacity { limit: 3 })
    ));
}

#[test]
fn probing_launches_wait_for_one_shared_result_instead_of_falling_back() {
    let mut capability = UserServiceCapability::new(CapabilityState::Probing);
    assert_eq!(
        capability.poll_capability(0, 1_000),
        CapabilityAnswer::Wait { millis: 1_000 }
    );
    capability.set_unavailable(20);
    assert_eq!(
        capability.poll_capability(20, 1_000),
        CapabilityAnswer::Unavailable
    );
    assert!(matches!(
        capability.state,
        CapabilityState::Unavailable { retry_at } if retry_at > 20
    ));
}

#[test]
fn unavailable_capability_retries_only_after_its_ttl() {
    let now = 10_000;
    let mut capability = UserServiceCapability::new(CapabilityState::Unavailable {
        retry_at: now + 1_000,
    });
    assert!(capability.begin_probe(now).is_none());

    capability.state = CapabilityState::Unavailable { retry_at: now - 1 };
    let generation = capability
        .begin_probe(now)
        .expect("expired failure should permit one retry");
    assert!(matches!(capability.state, CapabilityState::Probing));
    capability.finish_probe(generation, false, now);
    assert!(matches!(
        capability.state,
        CapabilityState::Unavailable { retry_at } if retry_at > now
    ));
}

#[test]
fn rejected_payload_reprobes_without_forcing_next_app_direct() {
    let mut capability = UserServiceCapability::new(CapabilityState::Available);
    assert!(matches!(
        finish_user_service_handoff(
            &mut capability,
            Handoff::Exited {
                success: false,
                status: "exit status: 1".to_string(),
            }
        ),
        Err(LaunchError::HandoffRejected { .. })
    ));
    assert_eq!(capability.state, CapabilityState::Unknown);

    let generation = capability
        .begin_probe(0)
        .expect("the next app should reprobe manager capability");
    capability.finish_probe(generation, true, 0);
    assert!(wait_for_capability(&mut capability, 0, 20));
}

#[test]
fn stalled_probe_becomes_direct_without_leaking_more_probe_threads() {
    let now = 10_000;
    let mut capability = UserServiceCapability::new(CapabilityState::Unknown);
    let generation = capability
        .begin_probe(now)
        .expect("unknown state should start a probe");
    capability.mark_probe_stalled(generation, now);
    assert!(matches!(
        capability.state,
        CapabilityState::Unavailable { .. }
    ));
    capability.state = CapabilityState::Unavailable { retry_at: now - 1 };
    assert!(
        capability.begin_probe(now).is_none(),
        "a still-running probe must bound thread growth"
    );
    capability.finish_probe(generation, false, now);
    assert!(!capability.probe_running);
}

#[test]
fn probe_resolution_timeout_selects_duplicate_safe_direct_backend() {
    let now = 10_000;
    let mut capability = UserServiceCapability::new(CapabilityState::Probing);
    assert!(!wait_for_capability(&mut capability, now, 0));
    assert!(matches!(
        capability.state,
        CapabilityState::Unavailable { retry_at } if retry_at > now
    ));
}

#[test]
fn empty_submission_is_rejected_without_starting_worker_work() {
    let mut service = LaunchService::new();
    assert!(matches!(
        service.submit_detached_argv(None, Vec::new()),
        (None, Err(LaunchError::EmptyArgv))
    ));
    assert!(matches!(
        service.submit_detached_argv(None, vec![String::new()]),
        (None, Err(LaunchError::EmptyArgv))
    ));
    assert!(matches!(service.workers, Workers::NotStarted));
}

#[test]
fn bounded_handoff_timeout_reaps_its_helper_group() {
    assert!(matches!(
        wait_handoff(HelperPoll::Running, 49, 50),
        HandoffStep::Sleep { .. }
    ));
    assert!(matches!(
        wait_handoff(HelperPoll::Running, 50, 50),
        HandoffStep::Terminate(LaunchError::HandoffTimeout { millis: 50 })
    ));
    assert!(matches!(
        wait_handoff(HelperPoll::Failed("gone".to_string()), 0, 50),
        HandoffStep::Terminate(LaunchError::HandoffWait { .. })
    ));
    assert!(matches!(
        wait_handoff(
            HelperPoll::Exited {
                success: true,
                status: String::new(),
            },
            60,
            50
        ),
        HandoffStep::Finished(Handoff::Exited { success: true, .. })
    ));
}

#[test]
fn submitted_direct_child_reports_success_and_is_reaped_internally() {
    let mut places = 0;
    reserve_counter(&mut places, 512).expect("a place is free");
    assert_eq!(
        finish_direct(DirectOutcome::Launched, "sh", String::new(), &mut places)
            .expect("direct fixture should hand off"),
        LaunchReceipt::Direct
    );
    let mut reaper = Reaper::new();
    reaper.adopt(7);
    assert_eq!(places, 1);
    assert!(matches!(reaper.next_wait(), ReaperWait::ForEvent));
    reaper.reap_children(&vec![ChildPoll::Running], &mut places);
    assert_eq!(places, 1);
    reaper.reap_children(&vec![ChildPoll::Exited { success: true }], &mut places);
    assert_eq!(places, 0);
    assert!(reaper.children.is_empty());
    reaper.disconnect();
    assert!(matches!(reaper.next_wait(), ReaperWait::Stop));
}

#[test]
fn a_launch_that_does_not_start_gives_its_place_back() {
    let mut places = 3;
    assert!(matches!(
        finish_direct(
            DirectOutcome::NotStarted,
            "tool",
            "no such file".to_string(),
            &mut places
        ),
        Err(LaunchError::Spawn { .. })
    ));
    assert_eq!(places, 2);
}

#[test]
fn a_started_service_hands_out_tickets_in_order() {
    let mut service = LaunchService::new();
    assert_eq!(service.start_workers(Some(4)), Some(8));
    assert_eq!(service.start_workers(Some(4)), None);
    let tickets = service
        .submit_detached_batch(None, vec![texts(&["one"]), texts(&["two"])])
        .1
        .expect("an ordinary batch fits");
    assert_eq!(tickets.len(), 2);
    assert!(tickets[0].id != tickets[1].id);
    match &service.workers {
        Workers::Running(queue) => {
            assert_eq!(queue.jobs[0].argv, ["one"]);
            assert_eq!(queue.jobs[1].ticket, tickets[1]);
        }
        _ => panic!("the workers run"),
    }
    service.workers_failed();
    assert!(matches!(
        service.submit_detached_argv(None, texts(&["three"])),
        (None, Err(LaunchError::WorkerUnavailable))
    ));
}

#[test]
fn warming_starts_the_workers_and_one_probe() {
    let mut service = LaunchService::new();
    let mut capability = UserServiceCapability::new(CapabilityState::Unknown);
    let names = texts(&["PATH"]);
    let tool = "/usr/bin/true".to_string();
    let (workers, probe) =
        warm_launch_service(&mut service, Some(1), &mut capability, Some(&names), Some(&tool), 0);
    assert_eq!(workers, Some(MIN_LAUNCH_WORKERS));
    let probe = probe.expect("nothing is known yet");
    assert_eq!(probe.command.last(), Some(&tool));
    assert!(
        warm_user_service_capability(&mut capability, Some(&names), Some(&tool), 0).is_none()
    );
}

#[test]
fn launch_errors_say_what_is_wrong() {
    assert_eq!(
        LaunchError::EmptyArgv.message(),
        "launch argument vector is empty or has an empty program"
    );
    let full = LaunchError::ArgvTooLarge {
        max_entries: MAX_ARGV_ENTRIES,
        max_bytes: MAX_ARGV_BYTES,
    };
    assert_eq!(
        full.message(),
        "launch argument vector exceeds the limit of 4096 entries or 262144 bytes"
    );
}

#[test]
fn only_files_with_an_execute_bit_are_programs() {
    assert!(executable_file(true, 0o100755));
    assert!(executable_file(true, 0o100001));
    assert!(!executable_file(true, 0o100644));
    assert!(!executable_file(false, 0o40755));
}

#[test]
fn single_launches_follow_each_other_in_an_open_queue() {
    let mut service = LaunchService::new();
    let mut capability = UserServiceCapability::new(CapabilityState::Unknown);
    warm_launch_service(&mut service, Some(4), &mut capability, None, None, 0);
    let first = service.submit_detached_argv(None, texts(&["one"])).1.expect("it fits");
    let second = service.submit_detached_argv(None, texts(&["two", "2"])).1.expect("it fits");
    assert_eq!((first.id, second.id, service.next_ticket), (0, 1, 2));
    match &mut service.workers {
        Workers::Running(queue) => {
            assert_eq!(queue.cost.requests, 2);
            assert_eq!(queue.cost.entries, 3);
            assert_eq!(queue.max_requests, launch_queue_capacity(8));
            assert_eq!(queue.max_bytes, MAX_QUEUED_ARGV_BYTES);
            queue.stop();
        }
        _ => panic!("the workers run"),
    }
    assert!(matches!(
        service.submit_detached_argv(None, texts(&["three"])),
        (None, Err(LaunchError::WorkerStopped))
    ));
    assert_eq!(service.next_ticket, 2);
}

#[test]
fn the_first_acceptable_launch_starts_the_workers() {
    let mut service = LaunchService::new();
    let (threads, queued) =
        service.submit_detached_batch(Some(4), vec![texts(&["one"]), texts(&["two"])]);
    assert_eq!(threads, Some(8));
    let ids: Vec<u64> = queued.expect("it fits").iter().map(|ticket| ticket.id).collect();
    assert_eq!(ids, [0, 1]);
    let (threads, queued) = service.submit_detached_argv(Some(4), texts(&["three"]));
    assert_eq!(threads, None);
    assert_eq!(queued.expect("it fits").id, 2);
    match &service.workers {
        Workers::Running(queue) => {
            assert_eq!(queue.jobs.len(), 3);
            assert_eq!(queue.max_requests, launch_queue_capacity(8));
        }
        _ => panic!("the workers run"),
    }
}

#[test]
fn the_last_child_takes_the_place_of_one_that_left() {
    let mut reaper = Reaper::new();
    for child in 1..=5 {
        reaper.adopt(child);
    }
    let mut places = 7;
    let polls = vec![
        ChildPoll::Exited { success: true },
        ChildPoll::Running,
        ChildPoll::Lost,
        ChildPoll::Running,
        ChildPoll::Running,
    ];
    assert_eq!(reaper.reap_children(&polls, &mut places), 2);
    assert_eq!(reaper.children, [4, 2, 5]);
    assert_eq!(places, 5);
}
