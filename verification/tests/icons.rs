use cbar::icons::{
    bytes_per_icon, cache_key, cache_path, icon_cache_readable, icon_cache_writable,
    icon_source_allowed, is_icon_path, rgba_square, serialize_cache, theme_directory_allowed,
    theme_roots_allowed, IconEntry, IconSource, IconWrite, Icons, PendingWrites, Picture,
    MAX_ICON_CACHE_BYTES, MAX_ICON_CACHE_ENTRIES, MAX_ICON_SOURCE_BYTES,
    MAX_ICON_THEME_DIRECTORIES, MAX_ICON_THEME_ROOTS,
};
use cbar::provider::PathFacts;

fn blank(px: i32, stamp: u64) -> Icons {
    let mut icons = Icons::empty(Some("icons.bin".to_string()), px, stamp);
    icons.dirty = true;
    icons
}

fn insert(icons: &mut Icons, name: &str, pixels: Vec<u8>) {
    icons.pixels.push(IconEntry { name: name.to_string(), pixels });
}

/// The file that saving writes.
fn written(icons: &mut Icons) -> Vec<u8> {
    let write = icons.save().expect("a dirty cache is written");
    serialize_cache(&write).expect("a small cache fits")
}

fn load(px: i32, stamp: u64, file: &Vec<u8>) -> Icons {
    Icons::load_from("icons.bin".to_string(), px, stamp, Some(file))
}

fn private(is_dir: bool, length: u64) -> PathFacts {
    PathFacts {
        is_symlink: false,
        is_dir,
        is_file: !is_dir,
        uid: 1000,
        mode: if is_dir { 0o700 } else { 0o600 },
        length,
    }
}

#[test]
fn a_theme_icon_is_keyed_by_its_name_alone() {
    assert_eq!(cache_key("firefox", None), "firefox");
    assert!(!is_icon_path("firefox"));
    assert_eq!(cache_key("icons/thing.png", None), "icons/thing.png");
    assert!(!is_icon_path("icons/thing.png"));
}

#[test]
fn a_rewritten_icon_file_gets_a_new_key() {
    let name = "/tmp/art.png";
    assert!(is_icon_path(name));
    let first = cache_key(name, Some(1));
    assert_ne!(first, name, "an absolute path must carry its own stamp");
    assert_ne!(
        cache_key(name, Some(60_000_000_001)),
        first,
        "a file rewritten behind an unchanged path must miss the cache"
    );
}

#[test]
fn an_absolute_path_that_is_not_there_keeps_its_bare_name() {
    let missing = "/nonexistent/cbar-launcher-test/icon.png";
    assert_eq!(cache_key(missing, None), missing);
}

#[test]
fn a_foreign_file_is_ignored() {
    let file = b"not a cbar launcher cache at all".to_vec();
    assert!(
        load(20, 1, &file).pixels.is_empty(),
        "garbage must not become icons"
    );
}

#[test]
fn a_stale_stamp_discards_everything() {
    let px = 4;
    let mut w = blank(px, 12345);
    insert(&mut w, "thing", vec![7u8; (px * px * 4) as usize]);
    let file = written(&mut w);

    assert!(
        load(px, 999, &file).pixels.is_empty(),
        "a different stamp reads as empty"
    );
    assert_eq!(
        load(px, 12345, &file).pixels.len(),
        1,
        "the matching stamp still reads"
    );
}

#[test]
fn a_written_cache_reads_back_identical() {
    let px = 4;
    let data: Vec<u8> = (0..(px * px * 4)).map(|i| (i % 251) as u8).collect();
    let mut w = blank(px, 77);
    insert(&mut w, "round.trip", data.clone());
    let file = written(&mut w);
    let read = load(px, 77, &file);
    assert_eq!(read.pixels.len(), 1);
    assert_eq!(read.pixels[0].name, "round.trip");
    assert_eq!(read.pixels[0].pixels, data);
    assert_eq!(read.identity(), (4, 77));
}

#[test]
fn a_clean_cache_is_not_rewritten() {
    let mut w = blank(4, 5);
    insert(&mut w, "x", vec![0u8; 64]);
    let file = written(&mut w);
    assert!(!file.is_empty());
    let mut read_back = load(4, 5, &file);
    assert!(read_back.save().is_none(), "a clean cache wrote nothing");
    assert!(w.save().is_none(), "saving leaves the cache clean");
}

#[test]
fn cache_reads_are_bounded_and_do_not_follow_symlinks() {
    let root = private(true, 0);
    let mut link = private(false, 10);
    link.is_symlink = true;
    link.is_file = false;
    assert!(!icon_cache_readable(root, link, 1000));
    let huge = private(false, MAX_ICON_CACHE_BYTES as u64 + 1);
    assert!(!icon_cache_readable(root, huge, 1000));
    assert!(icon_cache_readable(root, private(false, 10), 1000));
}

#[test]
fn cache_load_requires_private_roots_and_files() {
    let root = private(true, 0);
    let mut open = private(false, 10);
    open.mode = 0o644;
    assert!(!icon_cache_readable(root, open, 1000));
    let mut shared = root;
    shared.mode = 0o755;
    assert!(!icon_cache_readable(shared, private(false, 10), 1000));
    assert!(!icon_cache_readable(root, private(false, 10), 1001));
}

#[test]
fn cache_entry_count_is_rejected_before_hostile_allocation() {
    let count = MAX_ICON_CACHE_ENTRIES + 1;
    let mut good = blank(1, 7);
    insert(&mut good, "", vec![0; 4]);
    let mut encoded = written(&mut good);
    // The header is the magic, the stamp and the number of entries.
    encoded.truncate(14);
    encoded.extend_from_slice(&(count as u32).to_le_bytes());
    encoded.resize(encoded.len() + count * 6, 0);
    assert!(load(1, 7, &encoded).pixels.is_empty());
}

#[test]
fn absolute_icon_sources_are_regular_bounded_and_not_symlinked() {
    assert!(icon_source_allowed(true, 42));
    assert!(!icon_source_allowed(false, 42));
    assert!(icon_source_allowed(true, MAX_ICON_SOURCE_BYTES));
    assert!(!icon_source_allowed(true, MAX_ICON_SOURCE_BYTES + 1));
}

#[test]
fn cache_save_refuses_a_symlinked_root() {
    let mut link = private(true, 0);
    link.is_symlink = true;
    link.is_dir = false;
    assert!(!icon_cache_writable(link, 1000));
    assert!(icon_cache_writable(private(true, 0), 1000));
}

#[test]
fn cache_load_refuses_a_symlinked_root() {
    let mut link = private(true, 0);
    link.is_symlink = true;
    link.is_dir = false;
    assert!(!icon_cache_readable(link, private(false, 10), 1000));
}

#[test]
fn async_cache_writer_serializes_and_coalesces_to_newest_snapshot() {
    fn snapshot(stamp: u64) -> IconWrite {
        IconWrite {
            stamp,
            bytes_per_icon: 4,
            pixels: vec![IconEntry {
                name: format!("icon-{stamp}"),
                pixels: vec![stamp as u8; 4],
            }],
        }
    }

    let mut pending = PendingWrites::new();
    let mut seen = Vec::new();
    // The first write starts a worker, which holds it while others arrive.
    assert!(pending.enqueue("icons.bin", snapshot(1)));
    let first = pending.next("icons.bin").expect("the first write");
    seen.push(first.stamp);
    assert!(!pending.enqueue("icons.bin", snapshot(2)));
    assert!(!pending.enqueue("icons.bin", snapshot(3)));
    while let Some(write) = pending.next("icons.bin") {
        seen.push(write.stamp);
    }
    assert_eq!(seen, [1, 3]);
    assert!(pending.enqueue("icons.bin", snapshot(4)));
    pending.abandon("icons.bin");
    assert!(pending.enqueue("icons.bin", snapshot(5)));
}

#[test]
fn an_icon_comes_from_memory_before_it_is_decoded() {
    let mut icons = blank(2, 1);
    assert_eq!(icons.texture("", ""), IconSource::Nothing);
    assert_eq!(icons.texture("app", "app"), IconSource::Decode);
    assert!(icons.remember("app", Some(vec![1; 16])));
    assert_eq!(icons.texture("app", "app"), IconSource::Texture);
    assert!(icons.within_resident_budget(1, 1));
    assert_eq!(bytes_per_icon(2), Some(16));
    assert_eq!(bytes_per_icon(-1), None);
}

#[test]
fn a_picture_is_centred_in_a_square() {
    let picture = Picture {
        width: 1,
        height: 1,
        stride: 3,
        channels: 3,
        bytes: vec![10, 20, 30],
    };
    let square = rgba_square(&picture, 3).expect("a small picture");
    let mut expected = vec![0; 36];
    expected[16..20].copy_from_slice(&[10, 20, 30, 255]);
    assert_eq!(square, expected);
    let short = Picture {
        width: 2,
        height: 1,
        stride: 8,
        channels: 4,
        bytes: vec![0; 7],
    };
    assert_eq!(rgba_square(&short, 4), None);
}

#[test]
fn theme_trees_and_paths_are_bounded() {
    assert!(theme_roots_allowed(MAX_ICON_THEME_ROOTS));
    assert!(!theme_roots_allowed(MAX_ICON_THEME_ROOTS + 1));
    assert!(theme_directory_allowed(MAX_ICON_THEME_DIRECTORIES - 1));
    assert!(!theme_directory_allowed(MAX_ICON_THEME_DIRECTORIES));
    let path = cache_path(20, Some("/cache".to_string()), None).expect("a cache directory");
    assert!(path.starts_with("/cache/"), "{path}");
    assert_ne!(Some(path), cache_path(32, Some("/cache".to_string()), None));
    assert_eq!(cache_path(20, None, None), None);
}

#[test]
fn names_in_the_cache_file_are_valid_text() {
    let mut icons = blank(1, 7);
    insert(&mut icons, "caf\u{e9}", vec![1, 2, 3, 4]);
    let mut file = written(&mut icons);
    let loaded = load(1, 7, &file);
    assert_eq!(loaded.pixels.len(), 1);
    assert_eq!(loaded.pixels[0].name, "caf\u{e9}");
    assert_eq!(loaded.pixels[0].pixels, [1, 2, 3, 4]);
    let last_of_name = file.len() - 5;
    file[last_of_name] = 0xff;
    assert!(load(1, 7, &file).pixels.is_empty());
}
