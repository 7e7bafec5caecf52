//! The icon cache: its file format, its budgets, and the pixels it holds.

use crate::bytes::{push_le, read_le};
use crate::provider::{cache_root_safe, PathFacts};
use crate::text::{chars_of, decimal, join_path, len_bytes, push_char, same_text, utf8_text};
use vstd::prelude::*;
use vstd::string::*;

verus! {

pub const MAX_ICON_CACHE_BYTES: usize = 67108864;

pub const MAX_RESIDENT_ICON_BYTES: usize = 134217728;

pub const MAX_ICON_CACHE_ENTRIES: usize = 32768;

pub const MAX_ICON_SOURCE_BYTES: u64 = 16777216;

pub const MAX_ICON_THEME_ROOTS: usize = 256;

pub const MAX_ICON_THEME_DIRECTORIES: usize = 4096;

/// The bytes of magic, stamp and entry count.
pub const CACHE_HEADER_BYTES: usize = 18;

/// The finished pixels of an icon.
#[derive(Debug)]
pub struct IconEntry {
    pub name: String,
    pub pixels: Vec<u8>,
}

/// What an entry holds.
#[verifier::ext_equal]
pub struct IconView {
    pub name: Seq<char>,
    pub pixels: Seq<u8>,
}

impl View for IconEntry {
    type V = IconView;

    open spec fn view(&self) -> IconView {
        IconView { name: self.name@, pixels: self.pixels@ }
    }
}

/// What a list of entries holds.
pub open spec fn icon_views(entries: Seq<IconEntry>) -> Seq<IconView> {
    Seq::new(entries.len(), |i: int| entries[i]@)
}

/// Whether no name occurs twice.
pub open spec fn names_distinct(entries: Seq<IconView>) -> bool {
    forall|i: int, j: int|
        0 <= i < j < entries.len() ==> (#[trigger] entries[i]).name != (#[trigger] entries[j]).name
}

/// The bytes `CBLI04` that start a cache file.
pub open spec fn cache_magic() -> Seq<u8> {
    seq![67u8, 66u8, 76u8, 73u8, 48u8, 52u8]
}

/// The bytes of an entry: the length of its name, its name, its pixels.
pub open spec fn entry_bytes(entry: IconView) -> Seq<u8> {
    let name = vstd::utf8::encode_utf8(entry.name);
    crate::bytes::le_bytes(name.len(), 2) + name + entry.pixels
}

/// The bytes of the entries, in order.
pub open spec fn entries_bytes(entries: Seq<IconView>) -> Seq<u8>
    decreases entries.len(),
{
    if entries.len() == 0 {
        Seq::empty()
    } else {
        entry_bytes(entries[0]) + entries_bytes(entries.drop_first())
    }
}

/// The bytes of a cache file.
pub open spec fn cache_bytes(stamp: u64, entries: Seq<IconView>) -> Seq<u8> {
    cache_magic() + crate::bytes::le_bytes(stamp as nat, 8) + crate::bytes::le_bytes(entries.len(), 4) + entries_bytes(entries)
}

/// The bytes of one icon of this size; none where they cannot be counted.
pub open spec fn icon_bytes(px: i32) -> Option<int> {
    let bytes = 4 * px * px;
    if px < 0 || bytes > usize::MAX {
        None
    } else {
        Some(bytes)
    }
}

/// The first `count` entries of `b`, each with `size` pixel bytes; none where
/// they do not fit or a name is no text.
pub open spec fn read_entries(b: Seq<u8>, count: nat, size: int) -> Option<Seq<IconView>>
    decreases count,
{
    if count == 0 {
        Some(Seq::empty())
    } else if b.len() < 2 {
        None
    } else {
        let n = crate::bytes::le_value(b.take(2)) as int;
        if b.len() < 2 + n + size || !vstd::utf8::valid_utf8(b.subrange(2, 2 + n)) {
            None
        } else {
            let entry = IconView {
                name: vstd::utf8::decode_utf8(b.subrange(2, 2 + n)),
                pixels: b.subrange(2 + n, 2 + n + size),
            };
            match read_entries(b.skip(2 + n + size), (count - 1) as nat, size) {
                Some(rest) => Some(seq![entry] + rest),
                None => None,
            }
        }
    }
}

/// The most entries that a file may announce: within the fixed limit, the
/// memory budget, and what its length can hold.
pub open spec fn entry_limit(file_bytes: int, size: int) -> int {
    let resident = MAX_RESIDENT_ICON_BYTES as int / (if size < 256 {
        256
    } else {
        size
    });
    let divisor = if size + 2 <= usize::MAX {
        size + 2
    } else {
        usize::MAX as int
    };
    let possible = (file_bytes - CACHE_HEADER_BYTES) / divisor;
    let least = if resident < possible {
        resident
    } else {
        possible
    };
    if least < MAX_ICON_CACHE_ENTRIES {
        least
    } else {
        MAX_ICON_CACHE_ENTRIES as int
    }
}

/// The entries of a cache file for this icon size and theme stamp. A file of
/// another kind, of another stamp, or with anything wrong in it holds none.
pub open spec fn cached_icons(b: Seq<u8>, px: i32, stamp: u64) -> Seq<IconView> {
    if b.len() < CACHE_HEADER_BYTES || b.len() > MAX_ICON_CACHE_BYTES || b.take(6) != cache_magic()
        || crate::bytes::le_value(b.subrange(6, 14)) != stamp || icon_bytes(px) is None {
        Seq::empty()
    } else {
        let count = crate::bytes::le_value(b.subrange(14, 18));
        let size = icon_bytes(px)->0;
        if count > entry_limit(b.len() as int, size) {
            Seq::empty()
        } else {
            match read_entries(b.skip(18), count, size) {
                Some(entries) if names_distinct(entries) => entries,
                _ => Seq::empty(),
            }
        }
    }
}

/// The bytes of one icon.
pub fn bytes_per_icon(px: i32) -> (r: Option<usize>)
    ensures
        match r {
            Some(n) => icon_bytes(px) == Some(n as int),
            None => icon_bytes(px) is None,
        },
{
    if px < 0 {
        return None;
    }
    let size: u128 = px as u128;
    assert(0 <= size * size <= 0x7fff_ffff * 0x7fff_ffff) by (nonlinear_arith)
        requires
            0 <= size <= 0x7fff_ffff,
    ;
    let bytes: u128 = 4 * (size * size);
    assert(bytes == 4 * px * px) by (nonlinear_arith)
        requires
            bytes == 4 * (size * size),
            size == px,
    ;
    if bytes > usize::MAX as u128 {
        None
    } else {
        Some(bytes as usize)
    }
}

fn part(bytes: &Vec<u8>, from: usize, to: usize) -> (r: Vec<u8>)
    requires
        from <= to <= bytes@.len(),
    ensures
        r@ == bytes@.subrange(from as int, to as int),
{
    let mut out: Vec<u8> = Vec::new();
    let mut i: usize = from;
    while i < to
        invariant
            from <= i <= to <= bytes@.len(),
            out@ == bytes@.subrange(from as int, i as int),
        decreases to - i,
    {
        out.push(bytes[i]);
        i = i + 1;
    }
    out
}

fn has_icon(entries: &Vec<IconEntry>, name: &str) -> (r: Option<usize>)
    ensures
        match r {
            Some(i) => i < entries@.len() && entries@[i as int]@.name == name@ && forall|k: int|
                0 <= k < i ==> (#[trigger] entries@[k])@.name != name@,
            None => forall|k: int|
                0 <= k < entries@.len() ==> (#[trigger] entries@[k])@.name != name@,
        },
{
    let mut i: usize = 0;
    while i < entries.len()
        invariant
            i <= entries.len(),
            forall|k: int| 0 <= k < i ==> (#[trigger] entries@[k])@.name != name@,
        decreases entries.len() - i,
    {
        if same_text(entries[i].name.as_str(), name) {
            return Some(i);
        }
        i = i + 1;
    }
    None
}

/// The entries at `at`, or none where they are broken or a name repeats.
fn parse_entries(bytes: &Vec<u8>, at: usize, count: usize, size: usize) -> (r: Option<
    Vec<IconEntry>,
>)
    requires
        at <= bytes@.len() <= MAX_ICON_CACHE_BYTES,
    ensures
        match r {
            Some(entries) => {
                &&& read_entries(bytes@.skip(at as int), count as nat, size as int) == Some(
                    icon_views(entries@),
                )
                &&& names_distinct(icon_views(entries@))
            },
            None => match read_entries(bytes@.skip(at as int), count as nat, size as int) {
                Some(entries) => !names_distinct(entries),
                None => true,
            },
        },
{
    let ghost start = bytes@.skip(at as int);
    let ghost wanted = read_entries(start, count as nat, size as int);
    let mut entries: Vec<IconEntry> = Vec::new();
    let mut pos: usize = at;
    let mut left: usize = count;
    proof {
        assert(icon_views(entries@) =~= Seq::empty());
        if wanted is Some {
            assert(icon_views(entries@) + wanted->0 =~= wanted->0);
        }
    }
    while left > 0
        invariant
            pos <= bytes@.len() <= MAX_ICON_CACHE_BYTES,
            left <= count,
            names_distinct(icon_views(entries@)),
            wanted == read_entries(bytes@.skip(at as int), count as nat, size as int),
            match read_entries(bytes@.skip(pos as int), left as nat, size as int) {
                Some(rest) => wanted == Some(icon_views(entries@) + rest),
                None => wanted is None,
            },
        decreases left,
    {
        let ghost b = bytes@.skip(pos as int);
        if bytes.len() - pos < 2 {
            return None;
        }
        assert(b.take(2) =~= bytes@.subrange(pos as int, pos + 2));
        proof {
            crate::bytes::common_ranges();
        }
        let n: usize = read_le(bytes, pos, 2) as usize;
        if bytes.len() - pos - 2 < n || bytes.len() - pos - 2 - n < size {
            return None;
        }
        let ghost raw = b.subrange(2, 2 + n);
        let name_bytes = part(bytes, pos + 2, pos + 2 + n);
        assert(name_bytes@ =~= raw);
        let name = match utf8_text(name_bytes) {
            None => {
                return None;
            },
            Some(name) => name,
        };
        proof {
            vstd::utf8::encode_utf8_valid_utf8(name@);
            vstd::utf8::encode_utf8_decode_utf8(name@);
        }
        let pixels = part(bytes, pos + 2 + n, pos + 2 + n + size);
        let ghost entry = IconView {
            name: vstd::utf8::decode_utf8(raw),
            pixels: b.subrange(2 + n, 2 + n + size),
        };
        assert(pixels@ =~= entry.pixels);
        let ghost rest = read_entries(b.skip(2 + n + size), (left - 1) as nat, size as int);
        assert(b.skip(2 + n + size) =~= bytes@.skip(pos + 2 + n + size));
        let ghost before = icon_views(entries@);
        proof {
            if rest is Some {
                assert(before + (seq![entry] + rest->0) =~= before.push(entry) + rest->0);
            }
        }
        if let Some(i) = has_icon(&entries, name.as_str()) {
            proof {
                if wanted is Some {
                    let all = wanted->0;
                    assert(all == before + (seq![entry] + rest->0));
                    assert(all[i as int] == before[i as int]);
                    assert(all[before.len() as int] == entry);
                    assert(all[i as int].name == all[before.len() as int].name);
                }
            }
            return None;
        }
        entries.push(IconEntry { name, pixels });
        proof {
            assert(icon_views(entries@) =~= before.push(entry));
            assert forall|i: int, j: int| 0 <= i < j < entries@.len() implies (
            #[trigger] icon_views(entries@)[i]).name != (#[trigger] icon_views(
                entries@,
            )[j]).name by {
                if j < before.len() {
                    assert(before[i].name != before[j].name);
                } else {
                    assert(entries@[i]@.name != name@);
                }
            }
        }
        pos = pos + 2 + n + size;
        left = left - 1;
    }
    proof {
        assert(icon_views(entries@) + Seq::<IconView>::empty() =~= icon_views(entries@));
    }
    Some(entries)
}

fn is_magic(bytes: &Vec<u8>) -> (r: bool)
    requires
        bytes@.len() >= 6,
    ensures
        r == (bytes@.take(6) == cache_magic()),
{
    let r = bytes[0] == 67 && bytes[1] == 66 && bytes[2] == 76 && bytes[3] == 73 && bytes[4] == 48
        && bytes[5] == 52;
    proof {
        let t = bytes@.take(6);
        let m = cache_magic();
        if r {
            assert(t =~= m);
        } else {
            assert(t[0] != m[0] || t[1] != m[1] || t[2] != m[2] || t[3] != m[3] || t[4] != m[4]
                || t[5] != m[5]);
        }
    }
    r
}

/// The entries of a cache file for this icon size and theme stamp.
pub fn load_icons(bytes: &Vec<u8>, px: i32, stamp: u64) -> (r: Vec<IconEntry>)
    ensures
        icon_views(r@) == cached_icons(bytes@, px, stamp),
{
    let none: Vec<IconEntry> = Vec::new();
    assert(icon_views(none@) =~= Seq::empty());
    if bytes.len() < CACHE_HEADER_BYTES || bytes.len() > MAX_ICON_CACHE_BYTES {
        return none;
    }
    if !is_magic(bytes) || read_le(bytes, 6, 8) != stamp {
        return none;
    }
    proof {
        crate::bytes::common_ranges();
    }
    let count: u64 = read_le(bytes, 14, 4);
    let size: usize = match bytes_per_icon(px) {
        None => {
            return none;
        },
        Some(size) => size,
    };
    let resident: usize = MAX_RESIDENT_ICON_BYTES / (if size < 256 {
        256
    } else {
        size
    });
    let divisor: usize = if size > usize::MAX - 2 {
        usize::MAX
    } else {
        size + 2
    };
    let possible: usize = (bytes.len() - CACHE_HEADER_BYTES) / divisor;
    let least: usize = if resident < possible {
        resident
    } else {
        possible
    };
    let limit: usize = if least < MAX_ICON_CACHE_ENTRIES {
        least
    } else {
        MAX_ICON_CACHE_ENTRIES
    };
    assert(limit == entry_limit(bytes@.len() as int, size as int));
    if count > limit as u64 {
        return none;
    }
    match parse_entries(bytes, CACHE_HEADER_BYTES, count as usize, size) {
        Some(entries) => entries,
        None => none,
    }
}

/// A snapshot of the cache that is to be written.
#[derive(Debug)]
pub struct IconWrite {
    pub stamp: u64,
    pub bytes_per_icon: usize,
    pub pixels: Vec<IconEntry>,
}

/// The length of a cache file with these entries, each counted with `size`
/// pixel bytes.
pub open spec fn cache_length(entries: Seq<IconView>, size: int) -> int
    decreases entries.len(),
{
    if entries.len() == 0 {
        CACHE_HEADER_BYTES as int
    } else {
        cache_length(entries.drop_last(), size) + 2 + crate::text::byte_len(entries.last().name)
            + size
    }
}

/// Whether every entry has a name that fits its length field and exactly `size`
/// pixel bytes.
pub open spec fn entries_fit(entries: Seq<IconView>, size: int) -> bool {
    forall|i: int|
        0 <= i < entries.len() ==> crate::text::byte_len((#[trigger] entries[i]).name) <= 0xffff
            && entries[i].pixels.len() == size
}

proof fn cache_length_grows(entries: Seq<IconView>, size: int, n: int)
    requires
        0 <= n <= entries.len(),
        size >= 0,
    ensures
        cache_length(entries.take(n), size) <= cache_length(entries, size),
        cache_length(entries, size) >= CACHE_HEADER_BYTES + 2 * entries.len(),
    decreases entries.len(),
{
    if n == entries.len() {
        assert(entries.take(n) =~= entries);
        if n > 0 {
            cache_length_grows(entries.drop_last(), size, n - 1);
        }
    } else {
        cache_length_grows(entries.drop_last(), size, n);
        assert(entries.drop_last().take(n) =~= entries.take(n));
    }
}

proof fn entries_bytes_push(entries: Seq<IconView>, entry: IconView)
    ensures
        entries_bytes(entries.push(entry)) == entries_bytes(entries) + entry_bytes(entry),
    decreases entries.len(),
{
    let pushed = entries.push(entry);
    if entries.len() == 0 {
        assert(pushed.drop_first() =~= entries);
        assert(pushed[0] == entry);
        assert(entries_bytes(entries) =~= Seq::<u8>::empty());
        assert(entries_bytes(pushed) == entry_bytes(entry) + entries_bytes(entries));
        assert(entries_bytes(pushed) =~= entry_bytes(entry));
        assert(entries_bytes(entries) + entry_bytes(entry) =~= entry_bytes(entry));
    } else {
        entries_bytes_push(entries.drop_first(), entry);
        assert(pushed.drop_first() =~= entries.drop_first().push(entry));
        assert(entries_bytes(pushed) =~= entries_bytes(entries) + entry_bytes(entry));
    }
}

/// The bytes of a cache file; none where it would be longer than what is ever
/// read back.
pub fn serialize_cache(write: &IconWrite) -> (r: Option<Vec<u8>>)
    requires
        entries_fit(icon_views(write.pixels@), write.bytes_per_icon as int),
    ensures
        match r {
            Some(bytes) => cache_length(icon_views(write.pixels@), write.bytes_per_icon as int)
                <= MAX_ICON_CACHE_BYTES && bytes@ == cache_bytes(
                write.stamp,
                icon_views(write.pixels@),
            ),
            None => cache_length(icon_views(write.pixels@), write.bytes_per_icon as int)
                > MAX_ICON_CACHE_BYTES,
        },
{
    let ghost views = icon_views(write.pixels@);
    let ghost size = write.bytes_per_icon as int;
    let mut total: usize = CACHE_HEADER_BYTES;
    let mut i: usize = 0;
    assert(views.take(0) =~= Seq::empty());
    while i < write.pixels.len()
        invariant
            i <= write.pixels.len(),
            views == icon_views(write.pixels@),
            size == write.bytes_per_icon,
            entries_fit(views, size),
            total == cache_length(views.take(i as int), size),
            total <= MAX_ICON_CACHE_BYTES,
        decreases write.pixels.len() - i,
    {
        let name: usize = len_bytes(write.pixels[i].name.as_str());
        proof {
            assert(views.take(i + 1).drop_last() =~= views.take(i as int));
            assert(views[i as int].name == write.pixels@[i as int].name@);
            cache_length_grows(views, size, i + 1);
        }
        if write.bytes_per_icon > MAX_ICON_CACHE_BYTES {
            return None;
        }
        total = total + 2 + name + write.bytes_per_icon;
        if total > MAX_ICON_CACHE_BYTES {
            return None;
        }
        i = i + 1;
    }
    proof {
        assert(views.take(i as int) =~= views);
        cache_length_grows(views, size, 0);
        crate::bytes::common_ranges();
    }
    let mut out: Vec<u8> = Vec::new();
    out.push(67);
    out.push(66);
    out.push(76);
    out.push(73);
    out.push(48);
    out.push(52);
    assert(out@ =~= cache_magic());
    push_le(&mut out, write.stamp, 8);
    push_le(&mut out, write.pixels.len() as u64, 4);
    let ghost head = out@;
    i = 0;
    assert(head + entries_bytes(views.take(0)) =~= head);
    while i < write.pixels.len()
        invariant
            i <= write.pixels.len(),
            views == icon_views(write.pixels@),
            out@ == head + entries_bytes(views.take(i as int)),
        decreases write.pixels.len() - i,
    {
        let entry = &write.pixels[i];
        let ghost before = out@;
        push_le(&mut out, entry.name.as_str().as_bytes().len() as u64, 2);
        push_all(&mut out, entry.name.as_str().as_bytes());
        push_all(&mut out, entry.pixels.as_slice());
        proof {
            assert(views.take(i + 1) =~= views.take(i as int).push(views[i as int]));
            entries_bytes_push(views.take(i as int), views[i as int]);
            assert(out@ =~= before + entry_bytes(views[i as int]));
            assert(out@ =~= head + entries_bytes(views.take(i + 1)));
        }
        i = i + 1;
    }
    assert(views.take(i as int) =~= views);
    assert(out@ =~= cache_bytes(write.stamp, views));
    Some(out)
}

fn push_all(out: &mut Vec<u8>, bytes: &[u8])
    ensures
        final(out)@ == old(out)@ + bytes@,
{
    let mut i: usize = 0;
    assert(out@ =~= old(out)@ + bytes@.take(0));
    while i < bytes.len()
        invariant
            i <= bytes.len(),
            out@ == old(out)@ + bytes@.take(i as int),
        decreases bytes.len() - i,
    {
        out.push(bytes[i]);
        assert(bytes@.take(i + 1) =~= bytes@.take(i as int).push(bytes@[i as int]));
        i = i + 1;
    }
    assert(bytes@.take(i as int) =~= bytes@);
}

proof fn entries_read_back(entries: Seq<IconView>, size: int, tail: Seq<u8>)
    requires
        size >= 0,
        entries_fit(entries, size),
    ensures
        read_entries(entries_bytes(entries) + tail, entries.len(), size) == Some(entries),
    decreases entries.len(),
{
    if entries.len() == 0 {
        assert(read_entries(entries_bytes(entries) + tail, 0, size) == Some(
            Seq::<IconView>::empty(),
        ));
        assert(entries =~= Seq::empty());
    } else {
        let first = entries[0];
        let rest = entries.drop_first();
        assert(entries_fit(rest, size)) by {
            assert forall|i: int| 0 <= i < rest.len() implies crate::text::byte_len(
                (#[trigger] rest[i]).name,
            ) <= 0xffff && rest[i].pixels.len() == size by {
                assert(rest[i] == entries[i + 1]);
            }
        }
        entries_read_back(rest, size, tail);
        let name = vstd::utf8::encode_utf8(first.name);
        let n = name.len() as int;
        let b = entries_bytes(entries) + tail;
        crate::bytes::common_ranges();
        crate::bytes::le_round_trips(name.len(), 2);
        vstd::utf8::encode_utf8_valid_utf8(first.name);
        vstd::utf8::encode_utf8_decode_utf8(first.name);
        assert(b =~= crate::bytes::le_bytes(name.len(), 2) + name + first.pixels + (entries_bytes(rest) + tail));
        assert(b.take(2) =~= crate::bytes::le_bytes(name.len(), 2));
        assert(b.subrange(2, 2 + n) =~= name);
        assert(b.subrange(2 + n, 2 + n + size) =~= first.pixels);
        assert(b.skip(2 + n + size) =~= entries_bytes(rest) + tail);
        assert(seq![first] + rest =~= entries);
    }
}

proof fn entries_bytes_length(entries: Seq<IconView>, size: int)
    requires
        size >= 0,
        entries_fit(entries, size),
    ensures
        entries_bytes(entries).len() + CACHE_HEADER_BYTES == cache_length(entries, size),
        entries_bytes(entries).len() >= entries.len() * (size + 2),
    decreases entries.len(),
{
    if entries.len() > 0 {
        let before = entries.drop_last();
        let last = entries.last();
        assert(entries_fit(before, size)) by {
            assert forall|i: int| 0 <= i < before.len() implies crate::text::byte_len(
                (#[trigger] before[i]).name,
            ) <= 0xffff && before[i].pixels.len() == size by {
                assert(before[i] == entries[i]);
            }
        }
        entries_bytes_length(before, size);
        entries_bytes_push(before, last);
        assert(before.push(last) =~= entries);
        assert(last == entries[entries.len() - 1]);
        crate::bytes::common_ranges();
        crate::bytes::le_round_trips(vstd::utf8::encode_utf8(last.name).len(), 2);
        assert(entries.len() * (size + 2) == before.len() * (size + 2) + (size + 2))
            by (nonlinear_arith)
            requires
                entries.len() == before.len() + 1,
        ;
    }
}

/// What was written comes back: a cache file read with the same icon size and
/// stamp holds exactly the entries that went into it, as long as their number
/// is within the budgets for reading.
pub proof fn written_cache_reads_back(stamp: u64, px: i32, entries: Seq<IconView>)
    requires
        icon_bytes(px) is Some,
        entries_fit(entries, icon_bytes(px)->0),
        names_distinct(entries),
        cache_length(entries, icon_bytes(px)->0) <= MAX_ICON_CACHE_BYTES,
        entries.len() <= MAX_ICON_CACHE_ENTRIES,
        entries.len() <= MAX_RESIDENT_ICON_BYTES as int / (if icon_bytes(px)->0 < 256 {
            256
        } else {
            icon_bytes(px)->0
        }),
    ensures
        cached_icons(cache_bytes(stamp, entries), px, stamp) == entries,
{
    let size = icon_bytes(px)->0;
    let b = cache_bytes(stamp, entries);
    assert(size >= 0) by (nonlinear_arith)
        requires
            size == 4 * px * px,
            px >= 0,
    ;
    crate::bytes::common_ranges();
    crate::bytes::le_round_trips(stamp as nat, 8);
    crate::bytes::le_round_trips(entries.len(), 4);
    entries_bytes_length(entries, size);
    entries_read_back(entries, size, Seq::empty());
    assert(entries_bytes(entries) + Seq::<u8>::empty() =~= entries_bytes(entries));
    assert(b.take(6) =~= cache_magic());
    assert(b.subrange(6, 14) =~= crate::bytes::le_bytes(stamp as nat, 8));
    assert(b.subrange(14, 18) =~= crate::bytes::le_bytes(entries.len(), 4));
    assert(b.skip(18) =~= entries_bytes(entries));
    let body = b.len() - CACHE_HEADER_BYTES;
    let n = entries.len() as int;
    if size + 2 <= usize::MAX {
        assert(body / (size + 2) >= n) by (nonlinear_arith)
            requires
                body >= n * (size + 2),
                size + 2 > 0,
        ;
    } else if n > 0 {
        assert(n * (size + 2) >= size + 2) by (nonlinear_arith)
            requires
                n >= 1,
                size + 2 > 0,
        ;
    } else {
        assert(body / usize::MAX as int >= 0) by (nonlinear_arith)
            requires
                body >= 0,
                usize::MAX > 0,
        ;
    }
}

/// A file with another stamp holds nothing: the stamp is the whole validity
/// test.
pub proof fn stale_stamp_discards_everything(b: Seq<u8>, px: i32, written: u64, stamp: u64)
    requires
        b.len() >= CACHE_HEADER_BYTES,
        crate::bytes::le_value(b.subrange(6, 14)) == written,
        written != stamp,
    ensures
        cached_icons(b, px, stamp).len() == 0,
{
}

/// The icons of one size and theme that are in memory.
#[derive(Debug)]
pub struct Icons {
    pub px: i32,
    pub stamp: u64,
    /// Where the cache file is, if there is a place for it.
    pub path: Option<String>,
    pub pixels: Vec<IconEntry>,
    /// The keys for which a texture, or its absence, is remembered.
    pub textures: Vec<String>,
    /// Whether something was decoded that the file does not have.
    pub dirty: bool,
}

/// Where an icon comes from.
#[derive(Debug, Clone, Copy, PartialEq, Eq, Structural)]
pub enum IconSource {
    /// There is no icon for an empty name.
    Nothing,
    /// A texture was made before.
    Texture,
    /// The pixels at this index are there.
    Pixels(usize),
    /// It has to be decoded.
    Decode,
}

/// Whether so many entries of this icon size fit the memory budget. Even an
/// entry without pixels is charged.
pub open spec fn resident_fits(px: i32, entries: int) -> bool {
    &&& icon_bytes(px) is Some
    &&& entries * (if icon_bytes(px)->0 < 256 {
        256
    } else {
        icon_bytes(px)->0
    }) <= MAX_RESIDENT_ICON_BYTES
}

impl Icons {
    /// The names of the pixels are distinct.
    pub open spec fn wf(self) -> bool {
        names_distinct(icon_views(self.pixels@))
    }

    /// An empty cache.
    pub fn empty(path: Option<String>, px: i32, stamp: u64) -> (r: Self)
        ensures
            r.wf(),
            r.path == path,
            r.px == px,
            r.stamp == stamp,
            r.pixels@.len() == 0,
            r.textures@.len() == 0,
            !r.dirty,
    {
        Icons { px, stamp, path, pixels: Vec::new(), textures: Vec::new(), dirty: false }
    }

    /// The cache of a file that was read; none where there was nothing that may
    /// be read.
    pub fn load_from(path: String, px: i32, stamp: u64, file: Option<&Vec<u8>>) -> (r: Self)
        ensures
            r.wf(),
            r.path == Some(path),
            r.px == px,
            r.stamp == stamp,
            r.textures@.len() == 0,
            !r.dirty,
            icon_views(r.pixels@) == (match file {
                Some(bytes) => cached_icons(bytes@, px, stamp),
                None => Seq::empty(),
            }),
    {
        let pixels = match file {
            Some(bytes) => load_icons(bytes, px, stamp),
            None => Vec::new(),
        };
        assert(file is None ==> icon_views(pixels@) =~= Seq::empty());
        Icons { px, stamp, path: Some(path), pixels, textures: Vec::new(), dirty: false }
    }

    /// What tells two caches apart: the icon size and the theme stamp.
    pub fn identity(&self) -> (r: (i32, u64))
        ensures
            r == (self.px, self.stamp),
    {
        (self.px, self.stamp)
    }

    /// Where the icon with this name and key comes from.
    pub fn texture(&self, name: &str, key: &str) -> (r: IconSource)
        ensures
            if name@.len() == 0 {
                r is Nothing
            } else if crate::text::texts(self.textures@).contains(key@) {
                r is Texture
            } else if exists|i: int|
                0 <= i < self.pixels@.len() && (#[trigger] self.pixels@[i])@.name == key@ {
                r is Pixels && r->Pixels_0 < self.pixels@.len()
                    && self.pixels@[r->Pixels_0 as int]@.name == key@
            } else {
                r is Decode
            },
    {
        if name.is_empty() {
            return IconSource::Nothing;
        }
        if crate::text::contains_text(&self.textures, key) {
            return IconSource::Texture;
        }
        match has_icon(&self.pixels, key) {
            Some(i) => IconSource::Pixels(i),
            None => IconSource::Decode,
        }
    }

    /// Whether more pixels and textures fit the memory budget.
    pub fn within_resident_budget(&self, add_pixels: usize, add_textures: usize) -> (r: bool)
        ensures
            r == resident_fits(
                self.px,
                self.pixels@.len() + add_pixels + self.textures@.len() + add_textures,
            ),
    {
        let size: u128 = match bytes_per_icon(self.px) {
            None => {
                return false;
            },
            Some(size) => if size < 256 {
                256
            } else {
                size as u128
            },
        };
        let entries: u128 = self.pixels.len() as u128 + add_pixels as u128
            + self.textures.len() as u128 + add_textures as u128;
        assert(entries > MAX_RESIDENT_ICON_BYTES ==> entries * size > MAX_RESIDENT_ICON_BYTES)
            by (nonlinear_arith)
            requires
                size >= 256,
        ;
        if entries > MAX_RESIDENT_ICON_BYTES as u128 {
            return false;
        }
        assert(entries * size <= 0x7fff_ffff * 0xffff_ffff_ffff_ffff) by (nonlinear_arith)
            requires
                0 <= entries <= 0x7fff_ffff,
                0 <= size <= 0xffff_ffff_ffff_ffff,
        ;
        entries * size <= MAX_RESIDENT_ICON_BYTES as u128
    }

    /// Remembers what was made for a key that had no texture: the texture, and
    /// the pixels where they were decoded just now. Nothing is remembered
    /// beyond the memory budget.
    pub fn remember(&mut self, key: &str, new_pixels: Option<Vec<u8>>) -> (r: bool)
        requires
            old(self).wf(),
            new_pixels is Some ==> forall|i: int|
                0 <= i < old(self).pixels@.len() ==> (#[trigger] old(self).pixels@[i])@.name
                    != key@,
        ensures
            final(self).wf(),
            final(self).px == old(self).px,
            final(self).stamp == old(self).stamp,
            final(self).path == old(self).path,
            r == resident_fits(
                old(self).px,
                old(self).pixels@.len() + (if new_pixels is Some {
                    1int
                } else {
                    0
                }) + old(self).textures@.len() + 1,
            ),
            !r ==> *final(self) == *old(self),
            r ==> {
                &&& crate::text::texts(final(self).textures@) == crate::text::texts(
                    old(self).textures@,
                ).push(key@)
                &&& match new_pixels {
                    Some(raw) => icon_views(final(self).pixels@) == icon_views(
                        old(self).pixels@,
                    ).push(IconView { name: key@, pixels: raw@ }) && final(self).dirty,
                    None => final(self).pixels@ == old(self).pixels@ && final(self).dirty == old(
                        self,
                    ).dirty,
                }
            },
    {
        let added: usize = if new_pixels.is_some() {
            1
        } else {
            0
        };
        if !self.within_resident_budget(added, 1) {
            return false;
        }
        let ghost before = icon_views(self.pixels@);
        let ghost keys = crate::text::texts(self.textures@);
        if let Some(raw) = new_pixels {
            let ghost entry = IconView { name: key@, pixels: raw@ };
            self.pixels.push(IconEntry { name: key.to_owned(), pixels: raw });
            self.dirty = true;
            proof {
                let after = icon_views(self.pixels@);
                assert(after =~= before.push(entry));
                assert forall|i: int, j: int| 0 <= i < j < after.len() implies (
                #[trigger] after[i]).name != (#[trigger] after[j]).name by {
                    if j < before.len() {
                        assert(before[i].name != before[j].name);
                    } else {
                        assert(old(self).pixels@[i]@.name != key@);
                    }
                }
            }
        }
        self.textures.push(key.to_owned());
        assert(crate::text::texts(self.textures@) =~= keys.push(key@));
        true
    }

    /// The snapshot that has to be written, if something new was decoded and
    /// there is a place for it. Entries that the format cannot hold are left
    /// out. The cache is clean afterwards.
    pub fn save(&mut self) -> (r: Option<IconWrite>)
        ensures
            final(self).px == old(self).px,
            final(self).stamp == old(self).stamp,
            final(self).path == old(self).path,
            final(self).pixels == old(self).pixels,
            final(self).textures == old(self).textures,
            match r {
                Some(write) => {
                    &&& old(self).dirty && old(self).path is Some && icon_bytes(old(self).px)
                        is Some
                    &&& !final(self).dirty
                    &&& write.stamp == old(self).stamp
                    &&& write.bytes_per_icon == icon_bytes(old(self).px)->0
                    &&& icon_views(write.pixels@) == usable(
                        icon_views(old(self).pixels@),
                        icon_bytes(old(self).px)->0,
                    )
                    &&& entries_fit(icon_views(write.pixels@), write.bytes_per_icon as int)
                },
                None => {
                    &&& !old(self).dirty || old(self).path is None || icon_bytes(old(self).px)
                        is None
                    &&& final(self).dirty == old(self).dirty
                },
            },
    {
        if !self.dirty || self.path.is_none() {
            return None;
        }
        let size: usize = match bytes_per_icon(self.px) {
            None => {
                return None;
            },
            Some(size) => size,
        };
        let mut pixels: Vec<IconEntry> = Vec::new();
        let ghost views = icon_views(self.pixels@);
        let mut i: usize = 0;
        assert(icon_views(pixels@) =~= Seq::empty());
        while i < self.pixels.len()
            invariant
                i <= self.pixels.len(),
                *self == *old(self),
                views == icon_views(self.pixels@),
                icon_views(pixels@) == usable(views.take(i as int), size as int),
                entries_fit(icon_views(pixels@), size as int),
            decreases self.pixels.len() - i,
        {
            let entry = &self.pixels[i];
            assert(views.take(i + 1).drop_last() =~= views.take(i as int));
            if entry.pixels.len() == size && len_bytes(entry.name.as_str()) <= 0xffff {
                let ghost before = icon_views(pixels@);
                let copy = part(&entry.pixels, 0, entry.pixels.len());
                assert(copy@ =~= entry.pixels@);
                pixels.push(IconEntry { name: entry.name.clone(), pixels: copy });
                proof {
                    let after = icon_views(pixels@);
                    assert(after =~= before.push(views[i as int]));
                    assert forall|k: int| 0 <= k < after.len() implies crate::text::byte_len(
                        (#[trigger] after[k]).name,
                    ) <= 0xffff && after[k].pixels.len() == size by {
                        if k < before.len() {
                            assert(after[k] == before[k]);
                        }
                    }
                }
            }
            i = i + 1;
        }
        assert(views.take(i as int) =~= views);
        self.dirty = false;
        Some(IconWrite { stamp: self.stamp, bytes_per_icon: size, pixels })
    }
}

/// The entries that the file format can hold.
pub open spec fn usable(entries: Seq<IconView>, size: int) -> Seq<IconView>
    decreases entries.len(),
{
    if entries.len() == 0 {
        Seq::empty()
    } else {
        let before = usable(entries.drop_last(), size);
        if entries.last().pixels.len() == size && crate::text::byte_len(entries.last().name)
            <= 0xffff {
            before.push(entries.last())
        } else {
            before
        }
    }
}

/// The key of an icon: its name, and for an absolute path also the time (in
/// nanoseconds) at which the file last changed, if that is known. The two are
/// parted by a control character, which no name holds.
pub open spec fn key_of(name: Seq<char>, modified_nanos: Option<u128>) -> Seq<char> {
    match modified_nanos {
        Some(nanos) if name.len() > 0 && name[0] == '/' => name.push('\u{1}')
            + crate::text::decimal_text(nanos as nat),
        _ => name,
    }
}

/// Whether an icon name is the path of a file.
pub fn is_icon_path(name: &str) -> (r: bool)
    ensures
        r == (name@.len() > 0 && name@[0] == '/'),
{
    let chars = chars_of(name);
    chars.len() > 0 && chars[0] == '/'
}

/// The key of an icon. The time is that of a file that may be opened.
pub fn cache_key(name: &str, modified_nanos: Option<u128>) -> (r: String)
    ensures
        r@ == key_of(name@, modified_nanos),
{
    let mut key = name.to_owned();
    if let Some(nanos) = modified_nanos {
        if is_icon_path(name) {
            push_char(&mut key, '\u{1}');
            key.append(decimal(nanos).as_str());
        }
    }
    key
}

/// A rewritten file misses the cache: two times of change give two keys for the
/// same path.
pub proof fn rewritten_file_gets_a_new_key(name: Seq<char>, first: u128, second: u128)
    requires
        name.len() > 0,
        name[0] == '/',
        first != second,
    ensures
        key_of(name, Some(first)) != key_of(name, Some(second)),
        key_of(name, Some(first)) != name,
{
    let a = key_of(name, Some(first));
    let b = key_of(name, Some(second));
    let n = name.len() as int;
    if a == b {
        assert(a.skip(n + 1) =~= crate::text::decimal_text(first as nat));
        assert(b.skip(n + 1) =~= crate::text::decimal_text(second as nat));
        crate::text::decimal_text_injective(first as nat, second as nat);
    }
    assert(a.len() > name.len());
}

/// Whether a file may be read as an icon.
pub fn icon_source_allowed(is_file: bool, length: u64) -> (r: bool)
    ensures
        r == (is_file && length <= MAX_ICON_SOURCE_BYTES),
        r <==> is_file && length <= 16777216,
{
    is_file && length <= MAX_ICON_SOURCE_BYTES
}

/// Whether a theme with so many search directories is remembered at all.
pub fn theme_roots_allowed(roots: usize) -> (r: bool)
    ensures
        r == (roots <= MAX_ICON_THEME_ROOTS),
        r <==> roots <= 256,
{
    roots <= MAX_ICON_THEME_ROOTS
}

/// Whether one more theme directory may be looked at. A theme tree beyond the
/// limit gets no stamp at all: a partial one could trust stale pixels.
pub fn theme_directory_allowed(visited: usize) -> (r: bool)
    ensures
        r == (visited < MAX_ICON_THEME_DIRECTORIES),
        r <==> visited < 4096,
{
    visited < MAX_ICON_THEME_DIRECTORIES
}

/// Whether a cache file may be read: a private file of the user, within the
/// limit, in a private directory of the user.
pub fn icon_cache_readable(root: PathFacts, file: PathFacts, euid: u32) -> (r: bool)
    ensures
        r == (!root.is_symlink && root.is_dir && root.uid == euid && root.mode & 0o077u32 == 0
            && file.is_file && file.uid == euid && file.mode & 0o077u32 == 0 && file.length
            <= MAX_ICON_CACHE_BYTES),
        r ==> file.length <= 67108864 && file.is_file && root.is_dir && !root.is_symlink,
{
    cache_root_safe(root, euid) && file.is_file && file.uid == euid && file.mode & 0o077u32 == 0
        && file.length <= MAX_ICON_CACHE_BYTES as u64
}

/// Whether a cache file may be written into a directory: a real directory of
/// the user. Its mode is set right before the write.
pub fn icon_cache_writable(root: PathFacts, euid: u32) -> (r: bool)
    ensures
        r == (!root.is_symlink && root.is_dir && root.uid == euid),
{
    !root.is_symlink && root.is_dir && root.uid == euid
}

/// The name of the cache file for an icon size.
pub open spec fn cache_file_text(px: i32) -> Seq<char> {
    "icons-"@ + crate::text::signed_text(px as int) + ".bin"@
}

/// Where the cache file for an icon size is: below the cache directory, else
/// below the home directory. Empty values count as missing.
pub fn cache_path(px: i32, cache_home: Option<String>, home: Option<String>) -> (r: Option<String>)
    ensures
        crate::text::opt_text(r) == (match (if crate::config::set_text(cache_home) is Some {
            crate::config::set_text(cache_home)
        } else {
            match crate::config::set_text(home) {
                Some(dir) => Some(crate::text::path_joined(dir, ".cache"@)),
                None => None,
            }
        }) {
            Some(base) => Some(
                crate::text::path_joined(
                    crate::text::path_joined(
                        crate::text::path_joined(base, "cbar"@),
                        "launcher"@,
                    ),
                    cache_file_text(px),
                ),
            ),
            None => None,
        }),
{
    let mut base: Option<String> = None;
    if let Some(path) = cache_home {
        if !path.as_str().is_empty() {
            base = Some(path);
        }
    }
    if base.is_none() {
        if let Some(path) = home {
            if !path.as_str().is_empty() {
                base = Some(join_path(path.as_str(), ".cache"));
            }
        }
    }
    match base {
        None => None,
        Some(directory) => {
            let mut name = "icons-".to_owned();
            name.append(crate::text::signed(px as i64).as_str());
            name.append(".bin");
            let parent = join_path(join_path(directory.as_str(), "cbar").as_str(), "launcher");
            Some(join_path(parent.as_str(), name.as_str()))
        },
    }
}

/// Writes that wait: for each path whose worker is active, the newest snapshot
/// that it has not taken yet.
#[derive(Debug)]
pub struct PendingWrites<W> {
    pub active: Vec<(String, Option<W>)>,
}

/// What an active path holds.
pub open spec fn waiting<W>(active: Seq<(String, Option<W>)>, path: Seq<char>) -> Option<
    Option<W>,
> {
    crate::text::filed(active, path)
}

impl<W> PendingWrites<W> {
    /// Every path occurs once.
    pub open spec fn wf(self) -> bool {
        crate::text::keys_of(self.active@).no_duplicates()
    }

    /// Whether a worker is active for the path, and what waits for it.
    pub open spec fn at(self, path: Seq<char>) -> Option<Option<W>> {
        waiting(self.active@, path)
    }

    pub fn new() -> (r: Self)
        ensures
            r.wf(),
            r.active@.len() == 0,
    {
        PendingWrites { active: Vec::new() }
    }

    fn find(&self, path: &str) -> (r: Option<usize>)
        ensures
            match r {
                Some(i) => i < self.active@.len() && self.active@[i as int].0@ == path@
                    && self.at(path@) == Some(self.active@[i as int].1) && forall|k: int|
                    0 <= k < i ==> (#[trigger] self.active@[k]).0@ != path@,
                None => self.at(path@) is None && forall|k: int|
                    0 <= k < self.active@.len() ==> (#[trigger] self.active@[k]).0@ != path@,
            },
    {
        let mut i: usize = 0;
        assert(self.active@.skip(0) =~= self.active@);
        while i < self.active.len()
            invariant
                i <= self.active.len(),
                crate::text::filed(self.active@, path@) == crate::text::filed(
                    self.active@.skip(i as int),
                    path@,
                ),
                forall|k: int| 0 <= k < i ==> (#[trigger] self.active@[k]).0@ != path@,
            decreases self.active.len() - i,
        {
            assert(self.active@.skip(i as int)[0] == self.active@[i as int]);
            assert(self.active@.skip(i as int).drop_first() =~= self.active@.skip(i + 1));
            if same_text(self.active[i].0.as_str(), path) {
                return Some(i);
            }
            i = i + 1;
        }
        None
    }

    /// Leaves a snapshot for the path's worker, in place of one that still
    /// waits. The result says whether a worker has to be started.
    pub fn enqueue(&mut self, path: &str, write: W) -> (r: bool)
        requires
            old(self).wf(),
        ensures
            final(self).wf(),
            r == old(self).at(path@) is None,
            final(self).at(path@) == Some(Some(write)),
            forall|other: Seq<char>|
                other != path@ ==> #[trigger] final(self).at(other) == old(self).at(other),
    {
        let ghost before = self.active@;
        match self.find(path) {
            Some(i) => {
                let key = path.to_owned();
                proof {
                    crate::text::filed_after_update(before, i as int, key, Some(write));
                }
                self.active.set(i, (key, Some(write)));
                assert(crate::text::keys_of(self.active@) =~= crate::text::keys_of(before));
                false
            },
            None => {
                let key = path.to_owned();
                proof {
                    crate::text::filed_after_push(before, key, Some(write));
                    keys_distinct_after_push(before, (key, Some(write)));
                }
                self.active.push((key, Some(write)));
                true
            },
        }
    }

    /// The next snapshot for the path's worker. Without one the worker is done,
    /// and the path is no longer active.
    pub fn next(&mut self, path: &str) -> (r: Option<W>)
        requires
            old(self).wf(),
        ensures
            final(self).wf(),
            r == (match old(self).at(path@) {
                Some(Some(write)) => Some(write),
                _ => None,
            }),
            final(self).at(path@) == (match old(self).at(path@) {
                Some(Some(_)) => Some(None::<W>),
                _ => None,
            }),
            forall|other: Seq<char>|
                other != path@ ==> #[trigger] final(self).at(other) == old(self).at(other),
    {
        let ghost before = self.active@;
        match self.find(path) {
            Some(i) => {
                let (key, write) = self.active.remove(i);
                proof {
                    filed_after_remove(before, i as int);
                    keys_distinct_after_remove(before, i as int);
                }
                if write.is_some() {
                    let ghost shorter = self.active@;
                    proof {
                        crate::text::filed_after_push(shorter, key, None::<W>);
                        keys_distinct_after_push(shorter, (key, None::<W>));
                    }
                    self.active.push((key, None));
                    assert forall|other: Seq<char>|
                        other != path@ implies #[trigger] crate::text::filed(self.active@, other)
                        == crate::text::filed(before, other) by {
                        assert(crate::text::filed(shorter, other) == crate::text::filed(
                            before,
                            other,
                        ));
                    }
                }
                write
            },
            None => None,
        }
    }

    /// Forgets a path whose worker could not be started.
    pub fn abandon(&mut self, path: &str)
        requires
            old(self).wf(),
        ensures
            final(self).wf(),
            final(self).at(path@) is None,
            forall|other: Seq<char>|
                other != path@ ==> #[trigger] final(self).at(other) == old(self).at(other),
    {
        let ghost before = self.active@;
        if let Some(i) = self.find(path) {
            proof {
                filed_after_remove(before, i as int);
                keys_distinct_after_remove(before, i as int);
            }
            self.active.remove(i);
        }
    }
}

proof fn keys_distinct_after_push<V>(entries: Seq<(String, V)>, entry: (String, V))
    requires
        crate::text::keys_of(entries).no_duplicates(),
        forall|k: int| 0 <= k < entries.len() ==> (#[trigger] entries[k]).0@ != entry.0@,
    ensures
        crate::text::keys_of(entries.push(entry)).no_duplicates(),
{
    let keys = crate::text::keys_of(entries);
    let after = crate::text::keys_of(entries.push(entry));
    assert forall|i: int, j: int|
        0 <= i < after.len() && 0 <= j < after.len() && i != j implies after[i] != after[j] by {
        if i < entries.len() {
            assert(after[i] == keys[i]);
            assert(entries[i].0@ != entry.0@);
        }
        if j < entries.len() {
            assert(after[j] == keys[j]);
            assert(entries[j].0@ != entry.0@);
        }
    }
}

proof fn keys_distinct_after_remove<V>(entries: Seq<(String, V)>, at: int)
    requires
        crate::text::keys_of(entries).no_duplicates(),
        0 <= at < entries.len(),
    ensures
        crate::text::keys_of(entries.remove(at)).no_duplicates(),
        forall|k: int|
            0 <= k < entries.len() - 1 ==> (#[trigger] entries.remove(at)[k]).0@ != entries[at].0@,
{
    let keys = crate::text::keys_of(entries);
    let removed = entries.remove(at);
    let after = crate::text::keys_of(removed);
    assert forall|k: int| 0 <= k < after.len() implies #[trigger] after[k] == keys[(if k < at {
        k
    } else {
        k + 1
    })] by {}
    assert forall|k: int| 0 <= k < removed.len() implies (#[trigger] removed[k]).0@
        != entries[at].0@ by {
        assert(after[k] == removed[k].0@);
        assert(keys[at] == entries[at].0@);
    }
}

proof fn filed_missing<V>(entries: Seq<(String, V)>, key: Seq<char>)
    requires
        forall|k: int| 0 <= k < entries.len() ==> (#[trigger] entries[k]).0@ != key,
    ensures
        crate::text::filed(entries, key) is None,
    decreases entries.len(),
{
    if entries.len() > 0 {
        filed_missing(entries.drop_first(), key);
    }
}

proof fn filed_after_remove<V>(entries: Seq<(String, V)>, at: int)
    requires
        crate::text::keys_of(entries).no_duplicates(),
        0 <= at < entries.len(),
    ensures
        crate::text::filed(entries.remove(at), entries[at].0@) is None,
        forall|other: Seq<char>|
            other != entries[at].0@ ==> #[trigger] crate::text::filed(entries.remove(at), other)
                == crate::text::filed(entries, other),
    decreases entries.len(),
{
    let removed = entries.remove(at);
    let key = entries[at].0@;
    keys_distinct_after_remove(entries, at);
    filed_missing(removed, key);
    if at == 0 {
        assert(removed =~= entries.drop_first());
    } else {
        let keys = crate::text::keys_of(entries);
        assert(crate::text::keys_of(entries.drop_first()).no_duplicates()) by {
            let fewer = crate::text::keys_of(entries.drop_first());
            assert forall|i: int, j: int|
                0 <= i < fewer.len() && 0 <= j < fewer.len() && i != j implies fewer[i]
                != fewer[j] by {
                assert(keys[i + 1] != keys[j + 1]);
            }
        }
        filed_after_remove(entries.drop_first(), at - 1);
        assert(removed.drop_first() =~= entries.drop_first().remove(at - 1));
        assert forall|other: Seq<char>| other != key implies #[trigger] crate::text::filed(
            removed,
            other,
        ) == crate::text::filed(entries, other) by {
            assert(crate::text::filed(entries.drop_first().remove(at - 1), other)
                == crate::text::filed(entries.drop_first(), other));
        }
    }
}

/// A picture that was decoded: its size in pixels, the bytes from one row to
/// the next, the bytes of one pixel, and the bytes themselves.
#[derive(Debug)]
pub struct Picture {
    pub width: i32,
    pub height: i32,
    pub stride: u32,
    pub channels: u32,
    pub bytes: Vec<u8>,
}

/// Whether a picture can become a square of `px` pixels: it fits, it has three
/// or four channels, and its last pixel is there.
pub open spec fn picture_fits(p: Picture, px: i32) -> bool {
    &&& 0 < p.width <= px
    &&& 0 < p.height <= px
    &&& p.channels == 3 || p.channels == 4
    &&& (p.height - 1) * p.stride + (p.width - 1) * p.channels + p.channels <= p.bytes@.len()
}

/// One byte of the square: the picture in the middle, nothing around it, and a
/// full alpha channel where the picture has none.
pub open spec fn square_byte(p: Picture, px: i32, i: int) -> u8 {
    let x = (i / 4) % (px as int) - (px - p.width) / 2;
    let y = (i / 4) / (px as int) - (px - p.height) / 2;
    let c = i % 4;
    if 0 <= x < p.width && 0 <= y < p.height {
        if c == 3 && p.channels == 3 {
            255
        } else {
            p.bytes@[y * p.stride + x * p.channels + c]
        }
    } else {
        0
    }
}

/// The picture as a square of `px` by `px` RGBA pixels, centred.
pub fn rgba_square(p: &Picture, px: i32) -> (r: Option<Vec<u8>>)
    requires
        4 * px * px <= i32::MAX,
    ensures
        match r {
            Some(out) => picture_fits(*p, px) && out@ == Seq::new(
                (4 * px * px) as nat,
                |i: int| square_byte(*p, px, i),
            ),
            None => !picture_fits(*p, px),
        },
        r is Some <==> 0 < p.width <= px && 0 < p.height <= px && (p.channels == 3 || p.channels
            == 4) && (p.height - 1) * p.stride + p.width * p.channels <= p.bytes@.len(),
        r is Some ==> r->0@.len() == 4 * px * px,
{
    assert((p.width - 1) * p.channels + p.channels == p.width * p.channels) by (nonlinear_arith);
    if p.width <= 0 || p.height <= 0 || p.width > px || p.height > px {
        return None;
    }
    if p.channels != 3 && p.channels != 4 {
        return None;
    }
    let w: u64 = p.width as u64;
    let h: u64 = p.height as u64;
    let stride: u64 = p.stride as u64;
    let chans: u64 = p.channels as u64;
    assert(0 <= (h - 1) * stride <= 0x7fff_ffff * 0xffff_ffff) by (nonlinear_arith)
        requires
            1 <= h <= 0x7fff_ffff,
            0 <= stride <= 0xffff_ffff,
    ;
    assert(0 <= (w - 1) * chans <= 0x7fff_ffff * 4) by (nonlinear_arith)
        requires
            1 <= w <= 0x7fff_ffff,
            0 <= chans <= 4,
    ;
    let needed: u64 = (h - 1) * stride + (w - 1) * chans + chans;
    if needed > p.bytes.len() as u64 {
        return None;
    }
    let size: u64 = px as u64;
    let ox: u64 = (size - w) / 2;
    let oy: u64 = (size - h) / 2;
    assert(size * size == px * px && size * size <= 0x7fff_ffff) by (nonlinear_arith)
        requires
            size == px,
            4 * px * px <= 0x7fff_ffff,
            px > 0,
    ;
    let count: u64 = size * size;
    let mut out: Vec<u8> = Vec::new();
    let mut k: u64 = 0;
    while k < count
        invariant
            k <= count,
            count == size * size,
            count <= 0x7fff_ffff,
            size == px,
            picture_fits(*p, px),
            w == p.width,
            h == p.height,
            stride == p.stride,
            chans == p.channels,
            ox == (px - p.width) / 2,
            oy == (px - p.height) / 2,
            needed == (h - 1) * stride + (w - 1) * chans + chans,
            needed <= p.bytes.len(),
            out@.len() == 4 * k,
            forall|i: int| 0 <= i < out@.len() ==> #[trigger] out@[i] == square_byte(*p, px, i),
        decreases count - k,
    {
        let col: u64 = k % size;
        let row: u64 = k / size;
        let ghost before = out@;
        if ox <= col && col < ox + w && oy <= row && row < oy + h {
            let x: u64 = col - ox;
            let y: u64 = row - oy;
            assert(0 <= y * stride <= (h - 1) * stride && 0 <= x * chans <= (w - 1) * chans)
                by (nonlinear_arith)
                requires
                    0 <= y <= h - 1,
                    0 <= x <= w - 1,
                    0 <= stride,
                    0 <= chans,
            ;
            let s: usize = (y * stride + x * chans) as usize;
            out.push(p.bytes[s]);
            out.push(p.bytes[s + 1]);
            out.push(p.bytes[s + 2]);
            if chans == 4 {
                out.push(p.bytes[s + 3]);
            } else {
                out.push(255);
            }
        } else {
            out.push(0);
            out.push(0);
            out.push(0);
            out.push(0);
        }
        proof {
            assert forall|i: int| 0 <= i < out@.len() implies #[trigger] out@[i] == square_byte(
                *p,
                px,
                i,
            ) by {
                if i < before.len() {
                    assert(out@[i] == before[i]);
                } else {
                    assert(i / 4 == k);
                }
            }
        }
        k = k + 1;
    }
    assert(4 * (px * px) == 4 * px * px) by (nonlinear_arith);
    assert(out@ =~= Seq::new((4 * px * px) as nat, |i: int| square_byte(*p, px, i)));
    Some(out)
}

proof fn place_in_square(px: int, column: int, row: int, c: int)
    requires
        0 <= column < px,
        0 <= row < px,
        0 <= c < 4,
    ensures
        ({
            let i = (row * px + column) * 4 + c;
            &&& 0 <= i < 4 * px * px
            &&& i % 4 == c
            &&& (i / 4) % px == column
            &&& (i / 4) / px == row
        }),
{
    let k = row * px + column;
    let i = k * 4 + c;
    assert(0 <= k < px * px) by (nonlinear_arith)
        requires
            0 <= column < px,
            0 <= row < px,
            k == row * px + column,
    ;
    assert(4 * px * px == 4 * (px * px)) by (nonlinear_arith);
    assert(i / 4 == k && i % 4 == c);
    assert(k % px == column && k / px == row) by {
        vstd::arithmetic::div_mod::lemma_fundamental_div_mod_converse(k, px, row, column);
    }
}

/// The picture stands upright in the middle of the square: the pixel in column
/// `x` of its row `y` is as far from its top and its left in the square, moved by
/// half of what is free. A picture without transparency is opaque.
pub proof fn square_holds_the_picture(p: Picture, px: i32, x: int, y: int, c: int)
    requires
        0 <= x < p.width <= px,
        0 <= y < p.height <= px,
        0 <= c < 4,
    ensures
        ({
            let i = ((y + (px - p.height) / 2) * px + x + (px - p.width) / 2) * 4 + c;
            &&& 0 <= i < 4 * px * px
            &&& square_byte(p, px, i) == if c == 3 && p.channels == 3 {
                255u8
            } else {
                p.bytes@[y * p.stride + x * p.channels + c]
            }
        }),
{
    let row = y + (px - p.height) / 2;
    let column = x + (px - p.width) / 2;
    place_in_square(px as int, column, row, c);
    assert(row * px + column == row * px + x + (px - p.width) / 2);
}

/// Beside the picture the square is transparent: every byte outside its rows and
/// columns is zero.
pub proof fn square_is_clear_round_the_picture(p: Picture, px: i32, column: int, row: int, c: int)
    requires
        0 <= column < px,
        0 <= row < px,
        0 <= c < 4,
        column < (px - p.width) / 2 || column >= (px - p.width) / 2 + p.width || row < (px
            - p.height) / 2 || row >= (px - p.height) / 2 + p.height,
    ensures
        square_byte(p, px, (row * px + column) * 4 + c) == 0,
{
    place_in_square(px as int, column, row, c);
}

/// A cache begins with `CBLI04`, then the stamp of the theme in eight bytes and
/// the number of icons in four.
pub proof fn cache_layout(stamp: u64, entries: Seq<IconView>)
    requires
        entries.len() < 0x1_0000_0000,
    ensures
        ({
            let b = cache_bytes(stamp, entries);
            &&& b[0] == 'C' as u32 && b[1] == 'B' as u32 && b[2] == 'L' as u32 && b[3]
                == 'I' as u32 && b[4] == '0' as u32 && b[5] == '4' as u32
            &&& b.len() >= 18
            &&& crate::bytes::le_value(b.subrange(6, 14)) == stamp
            &&& crate::bytes::le_value(b.subrange(14, 18)) == entries.len()
            &&& b.skip(18) == entries_bytes(entries)
        }),
{
    crate::bytes::common_ranges();
    crate::bytes::le_round_trips(stamp as nat, 8);
    crate::bytes::le_round_trips(entries.len(), 4);
    let b = cache_bytes(stamp, entries);
    assert(b.subrange(6, 14) =~= crate::bytes::le_bytes(stamp as nat, 8));
    assert(b.subrange(14, 18) =~= crate::bytes::le_bytes(entries.len(), 4));
    assert(b.skip(18) =~= entries_bytes(entries));
}

/// Each icon is written with the length of its name in two bytes, its name and its
/// pixels, one behind the other.
pub proof fn icons_are_written_in_order(entries: Seq<IconView>, entry: IconView)
    requires
        vstd::utf8::encode_utf8(entry.name).len() < 0x1_0000,
    ensures
        ({
            let name = vstd::utf8::encode_utf8(entry.name);
            let b = entry_bytes(entry);
            &&& b.len() == 2 + name.len() + entry.pixels.len()
            &&& crate::bytes::le_value(b.take(2)) == name.len()
            &&& b.subrange(2, 2 + name.len() as int) == name
            &&& b.skip(2 + name.len() as int) == entry.pixels
            &&& entries_bytes(entries.push(entry)) == entries_bytes(entries) + b
        }),
        entries_bytes(Seq::empty()).len() == 0,
{
    let name = vstd::utf8::encode_utf8(entry.name);
    let b = entry_bytes(entry);
    crate::bytes::common_ranges();
    crate::bytes::le_round_trips(name.len(), 2);
    assert(b.take(2) =~= crate::bytes::le_bytes(name.len(), 2));
    assert(b.subrange(2, 2 + name.len() as int) =~= name);
    assert(b.skip(2 + name.len() as int) =~= entry.pixels);
    entries_bytes_push(entries, entry);
}

/// An icon has four bytes for each pixel of its square.
pub proof fn bytes_of_an_icon(px: i32)
    ensures
        px < 0 ==> icon_bytes(px) is None,
        px >= 0 && 4 * px * px <= usize::MAX ==> icon_bytes(px) == Some(4 * px * px),
        px >= 0 && 4 * px * px > usize::MAX ==> icon_bytes(px) is None,
{
}

/// The icons that are saved are those of the right size whose name is not too
/// long, all of them and in order.
pub proof fn which_icons_are_saved(entries: Seq<IconView>, entry: IconView, size: int)
    ensures
        usable(Seq::empty(), size).len() == 0,
        entry.pixels.len() == size && crate::text::byte_len(entry.name) <= 65535 ==> usable(
            entries.push(entry),
            size,
        ) == usable(entries, size).push(entry),
        entry.pixels.len() != size || crate::text::byte_len(entry.name) > 65535 ==> usable(
            entries.push(entry),
            size,
        ) == usable(entries, size),
{
    assert(entries.push(entry).drop_last() =~= entries);
}

/// The length of a cache is that of its head and its icons.
pub proof fn lengths_of_a_cache(entries: Seq<IconView>, entry: IconView, size: int)
    ensures
        cache_length(Seq::empty(), size) == 18,
        cache_length(entries.push(entry), size) == cache_length(entries, size) + 2
            + crate::text::byte_len(entry.name) + size,
{
    assert(entries.push(entry).drop_last() =~= entries);
}

/// An icon of the theme is kept under its name, and so is a file whose time is not
/// known; another file under its path and the time of its last change.
pub proof fn keys_of_icons(name: Seq<char>, nanos: u128)
    ensures
        key_of(name, None) == name,
        name.len() == 0 || name[0] != '/' ==> key_of(name, Some(nanos)) == name,
        name.len() > 0 && name[0] == '/' ==> key_of(name, Some(nanos)) == name + seq!['\u{1}']
            + crate::text::decimal_text(nanos as nat),
{
    assert(name.push('\u{1}') =~= name + seq!['\u{1}']);
}

/// Icons of each size have a file of their own.
pub proof fn each_size_has_its_file(px: i32)
    ensures
        px >= 0 ==> cache_file_text(px) == "icons-"@ + crate::text::decimal_text(px as nat)
            + ".bin"@,
{
    if px >= 0 {
        crate::text::signs_are_written(px as nat);
    }
}

/// Icons are kept in memory as long as all of them, counted with at least two
/// hundred and fifty-six bytes each, fit in the bytes for them.
pub proof fn icons_fit_in_memory(px: i32, entries: int)
    requires
        entries >= 0,
        0 <= px,
        4 * px * px <= usize::MAX,
    ensures
        4 * px * px >= 256 ==> resident_fits(px, entries) == (entries * (4 * px * px)
            <= MAX_RESIDENT_ICON_BYTES),
        4 * px * px < 256 ==> resident_fits(px, entries) == (entries * 256
            <= MAX_RESIDENT_ICON_BYTES),
{
}

/// A cache with too many icons for its length, or for the memory, is not read.
pub proof fn crowded_caches_are_not_read(b: Seq<u8>, px: i32, stamp: u64)
    requires
        18 <= b.len(),
        0 <= px,
        4 * px * px + 2 <= usize::MAX,
        cached_icons(b, px, stamp).len() > 0,
    ensures
        ({
            let count = crate::bytes::le_value(b.subrange(14, 18));
            &&& b.len() <= MAX_ICON_CACHE_BYTES
            &&& crate::bytes::le_value(b.subrange(6, 14)) == stamp
            &&& count * (4 * px * px + 2) <= b.len() - 18
            &&& count <= MAX_ICON_CACHE_ENTRIES
            &&& count * (4 * px * px) <= MAX_RESIDENT_ICON_BYTES
        }),
{
    let count = crate::bytes::le_value(b.subrange(14, 18)) as int;
    let size = 4 * px * px;
    assert(size >= 0) by (nonlinear_arith)
        requires
            px >= 0,
            size == 4 * px * px,
    ;
    let room = (b.len() - 18) / (size + 2);
    assert(count <= room);
    assert(count * (size + 2) <= b.len() - 18) by (nonlinear_arith)
        requires
            count <= (b.len() - 18) / (size + 2),
            size >= 0,
            b.len() >= 18,
            count >= 0,
    ;
    let unit = if size < 256 {
        256int
    } else {
        size
    };
    let most = MAX_RESIDENT_ICON_BYTES as int;
    assert(count <= most / unit);
    assert(count * size <= most) by (nonlinear_arith)
        requires
            count <= most / unit,
            unit >= size,
            unit > 0,
            most >= 0,
            count >= 0,
            size >= 0,
    ;
}

/// What contracts say of icons is said of their fields.
pub proof fn icons_show_their_fields(entries: Seq<IconEntry>, i: int)
    requires
        0 <= i < entries.len(),
    ensures
        icon_views(entries).len() == entries.len(),
        icon_views(entries)[i].name == entries[i].name@,
        icon_views(entries)[i].pixels == entries[i].pixels@,
{
}

} // verus!
