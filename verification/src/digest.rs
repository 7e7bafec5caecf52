//! The calls into `sha2`, and digests as text.

use crate::text::push_char;
use sha2::Digest;
use vstd::prelude::*;

verus! {

/// The SHA-256 digest of some bytes.
pub uninterp spec fn sha256(bytes: Seq<u8>) -> Seq<u8>;

/// `Sha256::digest`: the 32 bytes are a function of the input alone.
#[verifier::external_body]
fn sha256_of(bytes: &[u8]) -> (r: [u8; 32])
    ensures
        r@ == sha256(bytes@),
{
    sha2::Sha256::digest(bytes).into()
}

/// The digest that tells two inventories apart.
pub fn inventory_digest(bytes: &[u8]) -> (r: [u8; 32])
    ensures
        r@ == sha256(bytes@),
{
    sha256_of(bytes)
}

/// Whether two digests are the same.
pub fn same_digest(a: &[u8; 32], b: &[u8; 32]) -> (r: bool)
    ensures
        r == (a@ == b@),
{
    let mut i: usize = 0;
    while i < 32
        invariant
            i <= 32,
            forall|k: int| 0 <= k < i ==> a@[k] == b@[k],
        decreases 32 - i,
    {
        if a[i] != b[i] {
            return false;
        }
        i = i + 1;
    }
    assert(a@ =~= b@);
    true
}

/// The character of one hexadecimal digit.
pub open spec fn hex_char(d: int) -> char {
    if d < 10 {
        crate::text::digit_char(d)
    } else if d == 10 {
        'a'
    } else if d == 11 {
        'b'
    } else if d == 12 {
        'c'
    } else if d == 13 {
        'd'
    } else if d == 14 {
        'e'
    } else {
        'f'
    }
}

/// The bytes in hexadecimal notation, two digits each.
pub open spec fn hex_text(bytes: Seq<u8>) -> Seq<char>
    decreases bytes.len(),
{
    if bytes.len() == 0 {
        Seq::empty()
    } else {
        hex_text(bytes.drop_last()).push(hex_char(bytes.last() as int / 16)).push(
            hex_char(bytes.last() as int % 16),
        )
    }
}

pub(crate) fn hex_digit(d: u8) -> (c: char)
    requires
        d < 16,
    ensures
        c == hex_char(d as int),
{
    match d {
        0 => '0',
        1 => '1',
        2 => '2',
        3 => '3',
        4 => '4',
        5 => '5',
        6 => '6',
        7 => '7',
        8 => '8',
        9 => '9',
        10 => 'a',
        11 => 'b',
        12 => 'c',
        13 => 'd',
        14 => 'e',
        _ => 'f',
    }
}

/// The digest of some bytes in hexadecimal notation.
pub fn sha256_hex(bytes: &[u8]) -> (r: String)
    ensures
        r@ == hex_text(sha256(bytes@)),
{
    let digest = sha256_of(bytes);
    let mut out = String::new();
    let mut i: usize = 0;
    assert(digest@.take(0) =~= Seq::empty());
    while i < 32
        invariant
            i <= 32,
            out@ == hex_text(digest@.take(i as int)),
        decreases 32 - i,
    {
        assert(digest@.take(i + 1).drop_last() =~= digest@.take(i as int));
        push_char(&mut out, hex_digit(digest[i] / 16));
        push_char(&mut out, hex_digit(digest[i] % 16));
        i = i + 1;
    }
    assert(digest@.take(32) =~= digest@);
    out
}

/// One step of the FNV-1a hash.
pub open spec fn fnv_step(hash: u64, byte: u8) -> u64 {
    (((hash ^ (byte as u64)) * 0x100_0000_01b3) % 0x1_0000_0000_0000_0000) as u64
}

/// The 64-bit FNV-1a hash of some bytes.
pub open spec fn fnv1a_hash(bytes: Seq<u8>) -> u64
    decreases bytes.len(),
{
    if bytes.len() == 0 {
        0xcbf2_9ce4_8422_2325
    } else {
        fnv_step(fnv1a_hash(bytes.drop_last()), bytes.last())
    }
}

/// The 64-bit FNV-1a hash of some bytes.
pub fn fnv1a(bytes: &[u8]) -> (r: u64)
    ensures
        r == fnv1a_hash(bytes@),
{
    let mut hash: u64 = 0xcbf2_9ce4_8422_2325;
    let mut i: usize = 0;
    assert(bytes@.take(0) =~= Seq::empty());
    while i < bytes.len()
        invariant
            i <= bytes.len(),
            hash == fnv1a_hash(bytes@.take(i as int)),
        decreases bytes.len() - i,
    {
        assert(bytes@.take(i + 1).drop_last() =~= bytes@.take(i as int));
        let mixed: u64 = hash ^ (bytes[i] as u64);
        let product: u128 = (mixed as u128) * 0x100_0000_01b3u128;
        hash = (product % 0x1_0000_0000_0000_0000u128) as u64;
        i = i + 1;
    }
    assert(bytes@.take(i as int) =~= bytes@);
    hash
}

/// A hexadecimal digit is its number counted from `0`, or from `a` above nine.
pub proof fn hexadecimal_digits(d: int)
    requires
        0 <= d < 16,
    ensures
        d < 10 ==> hex_char(d) as int == '0' as int + d,
        d >= 10 ==> hex_char(d) as int == 'a' as int + d - 10,
{
}

/// Bytes are written as two digits each, the higher one first, in order.
pub proof fn two_digits_for_each_byte(bytes: Seq<u8>, i: int)
    ensures
        hex_text(bytes).len() == 2 * bytes.len(),
        0 <= i < bytes.len() ==> hex_text(bytes)[2 * i] == hex_char(bytes[i] as int / 16)
            && hex_text(bytes)[2 * i + 1] == hex_char(bytes[i] as int % 16),
    decreases bytes.len(),
{
    if bytes.len() > 0 {
        let fewer = bytes.drop_last();
        two_digits_for_each_byte(fewer, i);
        let before = hex_text(fewer);
        let all = hex_text(bytes);
        assert(forall|k: int| 0 <= k < before.len() ==> all[k] == before[k]);
        if 0 <= i < fewer.len() {
            assert(fewer[i] == bytes[i]);
        }
    }
}

/// The hash of a text with one byte more is that of the text, mixed with the byte
/// and multiplied, as far as it fits in eight bytes.
pub proof fn hash_goes_on_byte_by_byte(bytes: Seq<u8>, byte: u8)
    ensures
        fnv1a_hash(Seq::empty()) == 0xcbf2_9ce4_8422_2325,
        fnv1a_hash(bytes.push(byte)) as int == ((fnv1a_hash(bytes) ^ (byte as u64)) as int
            * 0x100_0000_01b3) % 0x1_0000_0000_0000_0000,
{
    assert(bytes.push(byte).drop_last() =~= bytes);
}

} // verus!
