use cbar::column::Machine;
use cbar::config::{Inventory, InventoryApp, InventoryFolder, MachineConfig, MAX_INVENTORY_APPS};
use cbar::digest::{fnv1a, inventory_digest, same_digest, sha256_hex};
use cbar::inventory::inventory_shape;
use cbar::provider::{
    cache_concurrency_for, cache_file_name, cache_file_safe, cache_root, cache_root_safe,
    capture_limited, failed_outcome, fair_provider_limits, inventory_outcome, is_desktop_scan,
    normalized_column, provider_concurrency_for, provider_specs, retry_delay, runner_deadline,
    timeout_message, CacheGates, CacheGeneration, CacheWriteReservation, Intake, PathFacts,
    ProviderSpec, ProviderState, ProviderStatus, ProviderUpdate, ProviderUpdates, RetryPolicy,
    Step, Wait, MAX_CONCURRENT_CACHE_READS, MAX_CONCURRENT_PROVIDER_COMMANDS,
    MAX_INVENTORY_BYTES, MAX_TOTAL_INVENTORY_APPS, MAX_TOTAL_INVENTORY_BYTES,
};
use cbar::text::TextMap;

fn valid(host: &str) -> Vec<u8> {
    format!(r#"{{"host":"{host}","folders":[]}}"#).into_bytes()
}

fn machine(name: &str, timeout_ms: u64) -> MachineConfig {
    MachineConfig {
        name: name.into(),
        aliases: Vec::new(),
        accent: "#22C55E".into(),
        inventory: vec!["provider".into(), name.into()],
        inventory_timeout_ms: timeout_ms,
        launch: vec!["{}".into()],
    }
}

fn spec(name: &str, timeout_ms: u64) -> ProviderSpec {
    provider_specs(&vec![machine(name, timeout_ms)]).remove(0)
}

fn decoded(host: &str) -> Inventory {
    Inventory { host: host.into(), error: None, folders: Vec::new() }
}

fn column(spec: &ProviderSpec, inventory: Inventory, bytes: usize) -> Result<Machine, String> {
    normalized_column(
        &spec.machine,
        bytes,
        inventory_shape(&inventory),
        Ok(inventory),
        &vec!["Other".to_string()],
        &TextMap::new(),
        spec.max_bytes,
        spec.max_apps,
    )
}

/// What a provider's loop does with an answer.
fn answer(
    state: &mut ProviderState,
    spec: &ProviderSpec,
    policy: &RetryPolicy,
    host: &str,
) -> Step {
    let bytes = valid(host);
    match state.receive(spec, policy, &bytes) {
        Intake::Done(step) => step,
        Intake::Decode(digest) => {
            let column = column(spec, decoded(host), bytes.len());
            state.take_column(spec, policy, digest, column, 1)
        }
    }
}

#[test]
fn zero_providers_is_a_valid_quiet_configuration() {
    assert!(provider_specs(&Vec::new()).is_empty());
    let mut updates = ProviderUpdates::new(0);
    updates.collect_changed(Vec::new());
    assert_eq!(updates.pop(), None);
}

#[test]
fn provider_updates_keep_only_the_newest_state_per_machine() {
    let mut updates = ProviderUpdates::new(1);
    let mut newest = ProviderUpdate {
        machine: "arbitrary-host".into(),
        column: None,
        status: ProviderStatus::Online,
        error: None,
    };
    for attempt in 0..10_000u64 {
        newest.error = Some(attempt.to_string());
    }
    updates.collect_changed(vec![Some(9_999)]);
    assert_eq!(updates.pop(), Some((0, 9_999)));
    assert_eq!(newest.error.as_deref(), Some("9999"));
    updates.collect_changed(vec![Some(9_999)]);
    assert_eq!(updates.pop(), None, "intermediate states were discarded");
}

#[test]
fn provider_errors_are_truncated_but_inventory_stdout_is_rejected() {
    let source = vec![b'x'; 129];
    let stderr =
        capture_limited(source.clone(), "stderr", 128, true).expect("bounded diagnostic");
    assert_eq!(&stderr[..128], &source[..128]);
    assert!(stderr.ends_with(b"\n[truncated]"));

    let stdout = capture_limited(source, "stdout", 128, false).unwrap_err();
    assert_eq!(stdout, "inventory stdout exceeded 128 bytes");
}

#[test]
fn one_timeout_never_delays_local_or_another_host_and_recovers() {
    let policy = RetryPolicy {
        initial_millis: 10,
        maximum_millis: 20,
        runner_cleanup_grace_millis: 0,
    };
    let specs: Vec<ProviderSpec> =
        ["remote-a", "local", "remote-b"].iter().map(|name| spec(name, 100)).collect();
    let mut states: Vec<ProviderState> =
        specs.iter().map(|spec| ProviderState::start(&spec.name, None).0).collect();
    for slot in [1, 2] {
        let step = answer(&mut states[slot], &specs[slot], &policy, &specs[slot].name);
        let update = step.publish.expect("an answer is published");
        assert_eq!(update.machine, specs[slot].name);
        assert_eq!(update.status, ProviderStatus::Online);
    }
    assert_eq!(runner_deadline(&specs[0], &policy), 100);
    let failed = states[0].time_out(&specs[0], &policy);
    let update = failed.publish.expect("a failure is published");
    assert_eq!(update.machine, "remote-a");
    assert_eq!(update.status, ProviderStatus::Offline);
    match failed.wait {
        Wait::Retry(millis) => assert_eq!(millis, retry_delay(&policy, "remote-a", 1)),
        Wait::Refresh => panic!("a failed provider is tried again"),
    }
    let recovered = answer(&mut states[0], &specs[0], &policy, "remote-a");
    let update = recovered.publish.expect("a recovery is published");
    assert_eq!(update.machine, "remote-a");
    assert_eq!(update.status, ProviderStatus::Online);
    assert!(update.error.is_none());
}

#[test]
fn cached_inventory_remains_usable_and_is_marked_offline() {
    let policy = RetryPolicy { runner_cleanup_grace_millis: 0, ..RetryPolicy::default() };
    let spec = spec("remote", 25);
    let bytes = valid("remote");
    let cached_column = column(&spec, decoded("remote"), bytes.len()).expect("a valid cache");
    let (mut state, cached) =
        ProviderState::start("remote", Some((inventory_digest(&bytes), cached_column)));
    let cached = cached.expect("the cache is published");
    assert_eq!(cached.status, ProviderStatus::Cached);
    assert!(cached.column.is_some());

    let offline = state.time_out(&spec, &policy).publish.expect("a failure is published");
    assert_eq!(offline.status, ProviderStatus::Offline);
    assert_eq!(
        offline.column.as_ref().map(|column| &column.cells),
        cached.column.as_ref().map(|column| &column.cells)
    );
    assert_eq!(
        offline
            .column
            .as_ref()
            .and_then(|column| column.error.as_ref()),
        offline.error.as_ref()
    );
    assert!(offline.error.is_some());
}

#[test]
fn one_provider_with_an_arbitrary_name_is_not_special_cased() {
    let name = "studio / north ☃";
    let spec = spec(name, 100);
    let (mut state, _) = ProviderState::start(name, None);
    let update = answer(&mut state, &spec, &RetryPolicy::default(), name)
        .publish
        .expect("an answer is published");
    assert_eq!(update.machine, name);
    assert_eq!(update.status, ProviderStatus::Online);
}

#[test]
fn backoff_is_bounded_deterministic_and_machine_jittered() {
    let policy = RetryPolicy::default();
    assert_eq!(retry_delay(&policy, "a", 4), retry_delay(&policy, "a", 4));
    assert_ne!(retry_delay(&policy, "a", 4), retry_delay(&policy, "b", 4));
    assert!(retry_delay(&policy, "a", 100) <= policy.maximum_millis);
    assert_ne!(
        retry_delay(&policy, "a", 100),
        retry_delay(&policy, "b", 100),
        "jitter remains effective at the maximum backoff"
    );
}

#[test]
fn fleet_limits_are_fair_and_process_wide_bounded() {
    for machines in [0usize, 1, 8, 32, 256] {
        let effective = machines.max(1);
        let (bytes, apps) = fair_provider_limits(machines);
        assert!(bytes <= MAX_INVENTORY_BYTES);
        assert!(apps <= MAX_INVENTORY_APPS);
        assert!(bytes.saturating_mul(effective) <= MAX_TOTAL_INVENTORY_BYTES);
        assert!(apps.saturating_mul(effective) <= MAX_TOTAL_INVENTORY_APPS);
    }
    let (_, one_apps) = fair_provider_limits(1);
    let (_, many_apps) = fair_provider_limits(256);
    assert_eq!(one_apps, MAX_INVENTORY_APPS);
    assert!(
        many_apps > 0,
        "every configured machine retains a fair slot"
    );
}

#[test]
fn provider_concurrency_tracks_hardware_and_machine_count() {
    assert_eq!(provider_concurrency_for(0, 1), 1);
    assert_eq!(provider_concurrency_for(1, 1), 1);
    assert_eq!(provider_concurrency_for(100, 1), 2);
    assert_eq!(provider_concurrency_for(100, 8), 16);
    assert_eq!(
        provider_concurrency_for(100, usize::MAX),
        MAX_CONCURRENT_PROVIDER_COMMANDS
    );
    assert_eq!(provider_concurrency_for(3, 8), 3);
    assert_eq!(cache_concurrency_for(1), 1);
    assert_eq!(cache_concurrency_for(8), MAX_CONCURRENT_CACHE_READS);
    assert_eq!(
        cache_concurrency_for(usize::MAX),
        MAX_CONCURRENT_CACHE_READS
    );
}

#[test]
fn byte_identical_online_refresh_is_not_reparsed_or_republished() {
    let policy = RetryPolicy::default();
    let spec = spec("stable", 500);
    let (mut state, _) = ProviderState::start("stable", None);
    let first = answer(&mut state, &spec, &policy, "stable");
    assert_eq!(
        first.publish.expect("an answer is published").status,
        ProviderStatus::Online
    );
    assert!(first.store.is_some());
    match state.receive(&spec, &policy, &valid("stable")) {
        Intake::Done(step) => {
            assert!(step.publish.is_none(), "unchanged state stays quiet");
            assert!(matches!(step.wait, Wait::Refresh));
        }
        Intake::Decode(_) => panic!("the same bytes are not decoded again"),
    }
}

#[test]
fn cache_names_do_not_expose_or_traverse_machine_names() {
    let name = cache_file_name("../../remote host");
    assert!(!name.contains('/'));
    assert!(!name.contains("remote") && !name.contains(".."));
    assert_ne!(
        cache_file_name("crafted-a"),
        cache_file_name("crafted-b"),
        "full SHA-256 cache keys do not cross-load independently named providers"
    );
}

fn facts(is_dir: bool, mode: u32) -> PathFacts {
    PathFacts { is_symlink: false, is_dir, is_file: !is_dir, uid: 1000, mode, length: 10 }
}

#[test]
fn symlinked_cache_root_is_rejected_without_writing_its_target() {
    let mut root = facts(true, 0o700);
    root.is_symlink = true;
    root.is_dir = false;
    assert!(!cache_root_safe(root, 1000));
}

#[test]
fn cache_requires_private_roots_and_files() {
    assert!(!cache_root_safe(facts(true, 0o755), 1000));
    assert!(cache_root_safe(facts(true, 0o700), 1000));
    assert!(!cache_root_safe(facts(true, 0o700), 1001));
    assert!(!cache_file_safe(facts(false, 0o644), 1000, MAX_INVENTORY_BYTES));
    assert!(cache_file_safe(facts(false, 0o600), 1000, MAX_INVENTORY_BYTES));
    assert!(!cache_file_safe(facts(false, 0o600), 1000, 9));
}

/// Writes under a reservation, if it may be written, and gives it back.
fn write(
    gates: &mut CacheGates,
    reservation: CacheWriteReservation,
    current_epoch: u64,
    value: u32,
    writes: &mut Vec<u32>,
) {
    if gates.write_allowed(&reservation, current_epoch) {
        writes.push(value);
    }
    gates.release(reservation);
}

#[test]
fn older_provider_generation_cannot_overwrite_a_newer_cache() {
    let mut gates = CacheGates::new();
    let mut writes = Vec::new();
    let newer = gates.reserve_cache_generation("/cache", CacheGeneration::new(2, 1));
    let older = gates.reserve_cache_generation("/cache", CacheGeneration::new(1, 1));
    write(&mut gates, newer, 2, 2, &mut writes);
    write(&mut gates, older, 2, 1, &mut writes);
    assert_eq!(
        writes,
        [2],
        "a retired manager's delayed writer must not replace a newer generation"
    );
}

#[test]
fn retired_generation_is_rejected_after_newer_gate_was_evicted() {
    let mut gates = CacheGates::new();
    let mut writes = Vec::new();
    let newer = gates.reserve_cache_generation("/cache", CacheGeneration::new(2, 1));
    write(&mut gates, newer, 2, 2, &mut writes);
    assert!(gates.gates.iter().all(|gate| gate.path != "/cache"));
    let older = gates.reserve_cache_generation("/cache", CacheGeneration::new(1, 1));
    write(&mut gates, older, 2, 1, &mut writes);
    assert_eq!(writes, [2]);
}

#[test]
fn same_manager_older_refresh_cannot_overwrite_newer_after_it_finishes() {
    let mut gates = CacheGates::new();
    let mut writes = Vec::new();
    // The older reservation, still pending, pins the path while the newer write
    // runs and retires first.
    let older = gates.reserve_cache_generation("/cache", CacheGeneration::new(7, 1));
    let newer = gates.reserve_cache_generation("/cache", CacheGeneration::new(7, 2));
    write(&mut gates, newer, 7, 2, &mut writes);
    write(&mut gates, older, 7, 1, &mut writes);

    assert_eq!(writes, [2]);
    assert!(gates.gates.iter().all(|gate| gate.path != "/cache"));
}

#[test]
fn retired_cache_paths_do_not_accumulate_generation_gates() {
    let mut gates = CacheGates::new();
    for index in 0..4_096 {
        let path = format!("/cache-churn/{index}");
        let reservation = gates.reserve_cache_generation(&path, CacheGeneration::new(1, 1));
        assert!(gates.write_allowed(&reservation, 1));
        gates.release(reservation);
    }
    assert!(
        gates
            .gates
            .iter()
            .all(|gate| !gate.path.starts_with("/cache-churn")),
        "dead path gates must be evicted across arbitrary config churn"
    );
}

#[test]
fn digests_are_the_published_ones() {
    assert_eq!(
        sha256_hex(b"abc"),
        "ba7816bf8f01cfea414140de5dae2223b00361a396177a9cb410ff61f20015ad"
    );
    assert_eq!(fnv1a(b""), 0xcbf29ce484222325);
    assert_eq!(fnv1a(b"a"), 0xaf63dc4c8601ec8c);
    assert!(same_digest(&inventory_digest(b"x"), &inventory_digest(b"x")));
    assert!(!same_digest(&inventory_digest(b"x"), &inventory_digest(b"y")));
}

#[test]
fn a_failed_command_is_explained_by_what_it_printed() {
    assert_eq!(
        inventory_outcome(true, "exit status: 0", b"{}".to_vec(), &Vec::new()),
        Ok(b"{}".to_vec())
    );
    assert_eq!(
        inventory_outcome(false, "exit status: 1", Vec::new(), &b"  no route \n".to_vec()),
        Err("no route".to_string())
    );
    assert_eq!(
        inventory_outcome(false, "exit status: 1", Vec::new(), &vec![0xff]),
        Err("\u{fffd}".to_string())
    );
    assert_eq!(
        failed_outcome(" ", "exit status: 3"),
        Err("inventory exited with exit status: 3".to_string())
    );
    assert_eq!(timeout_message(25), "inventory timed out after 25 ms");
    assert!(is_desktop_scan(&vec!["cbar:desktop-files".to_string()]));
    assert!(!is_desktop_scan(&vec!["cbar:desktop-files".to_string(), "x".to_string()]));
}

#[test]
fn an_inventory_beyond_its_share_is_no_column() {
    let mut spec = spec("remote", 100);
    spec.max_bytes = 10;
    assert_eq!(
        column(&spec, decoded("remote"), 11).unwrap_err(),
        "inventory exceeded this provider's fair-share limit of 10 bytes (11 bytes)"
    );
    let mut failing = decoded("remote");
    failing.error = Some("no agent".into());
    assert_eq!(column(&spec, failing, 1).unwrap_err(), "no agent");
    let mut listed = decoded("remote");
    listed.folders.push(InventoryFolder {
        label: "Unlisted".into(),
        apps: vec![InventoryApp {
            name: "Foot".into(),
            id: None,
            icon: String::new(),
            command: "foot".into(),
            terminal: false,
            desktop_file: String::new(),
        }],
    });
    let made = column(&spec, listed, 1).expect("a column");
    assert_eq!(made.cells[0][0].apps[0].id, "Foot");
}

#[test]
fn the_cache_root_prefers_what_is_set() {
    let some = |path: &str| Some(path.to_string());
    assert_eq!(
        cache_root(some("/explicit"), some("/xdg"), some("/home/u")).as_deref(),
        Some("/explicit")
    );
    assert_ne!(
        cache_root(None, some("/xdg"), some("/home/u")),
        cache_root(None, None, some("/home/u"))
    );
    assert_eq!(cache_root(None, None, None), None);
}
