use cbar::watch::{normalize_path, Event, EventKind, WatchRegistry};

/// Subscribes to a file, and gives the directory that has to be watched for it.
fn add_subscriber(registry: &mut WatchRegistry, path: &str, sender: u64) -> Option<String> {
    let file = normalize_path(path, None).expect("an absolute path");
    let watch = registry.to_watch(&file).expect("the file has a directory");
    registry.subscribe(file, sender).expect("the file has a directory");
    watch
}

fn event(kind: EventKind, paths: &[&str]) -> Event {
    Event {
        need_rescan: false,
        kind,
        paths: paths.iter().map(|path| path.to_string()).collect(),
    }
}

fn data_change(path: &str) -> Event {
    event(EventKind::ModifyData, &[path])
}

fn senders(registry: &WatchRegistry, path: &str) -> Vec<u64> {
    registry
        .subscribers
        .iter()
        .filter(|file| file.path == path)
        .flat_map(|file| file.senders.clone())
        .collect()
}

#[test]
fn routes_multiple_files_to_all_matching_subscribers() {
    let first_path = "/watch-tests/config/style.css";
    let second_path = "/watch-tests/config/graph.lua";
    let mut registry = WatchRegistry::new();
    add_subscriber(&mut registry, first_path, 1);
    add_subscriber(&mut registry, first_path, 2);
    add_subscriber(&mut registry, second_path, 3);

    assert_eq!(registry.dispatch(&data_change(first_path), None), [first_path]);
    assert_eq!(senders(&registry, first_path), [1, 2]);
    assert_eq!(registry.dispatch(&data_change(second_path), None), [second_path]);
    assert_eq!(senders(&registry, second_path), [3]);
}

#[test]
fn deduplicates_parent_directory_watches() {
    let directory = "/watch-tests/config";
    let mut registry = WatchRegistry::new();
    let mut watched = Vec::new();
    watched.extend(add_subscriber(&mut registry, "/watch-tests/config/style.css", 1));
    watched.extend(add_subscriber(&mut registry, "/watch-tests/config/graph.lua", 2));
    watched.extend(add_subscriber(&mut registry, "/watch-tests/config/style.css", 3));

    assert_eq!(watched, [directory]);
    assert_eq!(registry.directories.len(), 1);
}

#[test]
fn ignores_unrelated_and_access_events() {
    let path = "/watch-tests/config/style.css";
    let mut registry = WatchRegistry::new();
    add_subscriber(&mut registry, path, 1);

    let other = data_change("/watch-tests/config/other.css");
    assert!(registry.dispatch(&other, None).is_empty());
    assert!(registry.dispatch(&event(EventKind::Access, &[path]), None).is_empty());
}

#[test]
fn prunes_closed_subscribers_and_unwatches_unused_directories() {
    let directory = "/watch-tests/config";
    let first_path = "/watch-tests/config/style.css";
    let second_path = "/watch-tests/config/graph.lua";
    let mut registry = WatchRegistry::new();
    add_subscriber(&mut registry, first_path, 1);
    add_subscriber(&mut registry, second_path, 2);

    assert!(registry.prune_closed(&vec![1]).is_empty());
    assert!(senders(&registry, first_path).is_empty());
    assert!(registry.subscribers.iter().all(|file| file.path != first_path));
    assert_eq!(registry.dispatch(&data_change(second_path), None), [second_path]);

    assert_eq!(registry.prune_closed(&vec![2]), [directory]);
    assert!(registry.subscribers.is_empty());
}

#[test]
fn matches_atomic_replace_rename_target() {
    let target = "/watch-tests/config/style.css";
    let temporary = "/watch-tests/config/.style.css.tmp";
    let mut registry = WatchRegistry::new();
    add_subscriber(&mut registry, target, 1);
    let rename = event(EventKind::RenameBoth, &[temporary, target]);

    assert_eq!(registry.dispatch(&rename, None), [target]);
}

#[test]
fn ignores_rename_away_and_remove_until_a_replacement_arrives() {
    let target = "/watch-tests/config/style.css";
    let mut registry = WatchRegistry::new();
    add_subscriber(&mut registry, target, 1);

    assert!(registry.dispatch(&event(EventKind::RenameFrom, &[target]), None).is_empty());
    assert!(registry.dispatch(&event(EventKind::Remove, &[target]), None).is_empty());
    assert_eq!(registry.dispatch(&event(EventKind::Create, &[target]), None), [target]);
}

#[test]
fn an_event_names_a_file_once_however_often_it_lists_it() {
    let path = "/watch-tests/config/style.css";
    let mut registry = WatchRegistry::new();
    add_subscriber(&mut registry, path, 1);

    let twice = event(EventKind::ModifyData, &[path, path]);
    assert_eq!(registry.dispatch(&twice, None), [path]);
}

#[test]
fn a_rescan_reaches_every_file_below_a_directory_it_names() {
    let path = "/watch-tests/config/style.css";
    let mut registry = WatchRegistry::new();
    add_subscriber(&mut registry, path, 1);
    let lost = Event { need_rescan: true, kind: EventKind::Other, paths: Vec::new() };
    assert_eq!(registry.dispatch(&lost, None), [path]);
}

#[test]
fn relative_paths_are_taken_from_the_working_directory() {
    let file = normalize_path("config/style.css", Some("/home/u".to_string())).expect("a path");
    assert_eq!(file.path, "/home/u/config/style.css");
    assert_eq!(file.directory.as_deref(), Some("/home/u/config"));
    assert!(normalize_path("style.css", None).is_none());
}

#[test]
fn a_path_without_a_directory_is_refused() {
    let root = normalize_path("/", None).expect("an absolute path");
    let mut registry = WatchRegistry::new();
    assert!(registry.to_watch(&root).is_err());
    assert!(registry.subscribe(root, 1).is_err());
    assert!(registry.subscribers.is_empty());
}

#[test]
fn directories_stay_watched_as_long_as_a_file_in_them_is_waited_for() {
    let mut registry = WatchRegistry::new();
    assert_eq!(add_subscriber(&mut registry, "/a/x", 1).as_deref(), Some("/a"));
    assert_eq!(add_subscriber(&mut registry, "/a/y", 2), None);
    assert_eq!(add_subscriber(&mut registry, "/z", 3).as_deref(), Some("/"));
    let filed: Vec<(&str, &str)> = registry
        .subscribers
        .iter()
        .map(|file| (file.path.as_str(), file.directory.as_str()))
        .collect();
    assert_eq!(filed, [("/a/x", "/a"), ("/a/y", "/a"), ("/z", "/")]);

    assert_eq!(registry.prune_closed(&vec![1, 3]), ["/"]);
    assert_eq!(registry.directories, [("/a".to_string(), 1)]);
    assert_eq!(registry.retain("/a/y", &vec![2]).as_deref(), Some("/a"));
    assert!(registry.directories.is_empty());
}
