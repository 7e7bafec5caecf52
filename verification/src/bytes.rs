//! Little-endian numbers in byte strings.

use vstd::prelude::*;

verus! {

/// The `n` little-endian bytes of a number.
pub open spec fn le_bytes(x: nat, n: nat) -> Seq<u8>
    decreases n,
{
    if n == 0 {
        Seq::empty()
    } else {
        seq![(x % 256) as u8] + le_bytes(x / 256, (n - 1) as nat)
    }
}

/// The number with these little-endian bytes.
pub open spec fn le_value(b: Seq<u8>) -> nat
    decreases b.len(),
{
    if b.len() == 0 {
        0
    } else {
        b[0] as nat + 256 * le_value(b.drop_first())
    }
}

/// 256 to the power of `n`.
pub open spec fn byte_range(n: nat) -> nat
    decreases n,
{
    if n == 0 {
        1
    } else {
        256 * byte_range((n - 1) as nat)
    }
}

/// A number that fits its bytes reads back as itself.
pub proof fn le_round_trips(x: nat, n: nat)
    requires
        x < byte_range(n),
    ensures
        le_bytes(x, n).len() == n,
        le_value(le_bytes(x, n)) == x,
    decreases n,
{
    if n > 0 {
        le_round_trips(x / 256, (n - 1) as nat);
        assert(le_bytes(x, n).drop_first() =~= le_bytes(x / 256, (n - 1) as nat));
    }
}

/// The ranges of two, four and eight bytes.
pub proof fn common_ranges()
    ensures
        byte_range(2) == 0x1_0000,
        byte_range(4) == 0x1_0000_0000,
        byte_range(8) == 0x1_0000_0000_0000_0000,
{
    reveal_with_fuel(byte_range, 9);
}

/// Appends the `n` little-endian bytes of a number.
pub fn push_le(out: &mut Vec<u8>, x: u64, n: usize)
    ensures
        final(out)@ == old(out)@ + le_bytes(x as nat, n as nat),
{
    let mut rest: u64 = x;
    let mut i: usize = 0;
    assert(old(out)@ + le_bytes(x as nat, n as nat) =~= out@ + le_bytes(rest as nat, n as nat));
    while i < n
        invariant
            i <= n,
            old(out)@ + le_bytes(x as nat, n as nat) == out@ + le_bytes(
                rest as nat,
                (n - i) as nat,
            ),
        decreases n - i,
    {
        let ghost before = out@;
        let ghost r = rest as nat;
        out.push((rest % 256) as u8);
        rest = rest / 256;
        i = i + 1;
        assert(before + le_bytes(r, (n - i + 1) as nat) =~= out@ + le_bytes(
            rest as nat,
            (n - i) as nat,
        ));
    }
    assert(out@ + le_bytes(rest as nat, 0) =~= out@);
}

proof fn le_value_bound(b: Seq<u8>)
    ensures
        le_value(b) < byte_range(b.len()),
    decreases b.len(),
{
    if b.len() > 0 {
        le_value_bound(b.drop_first());
    }
}

/// The number with the `n` little-endian bytes at `at`.
pub fn read_le(bytes: &Vec<u8>, at: usize, n: usize) -> (r: u64)
    requires
        n <= 8,
        at + n <= bytes@.len(),
    ensures
        r == le_value(bytes@.subrange(at as int, at + n)),
        r < byte_range(n as nat),
{
    let mut value: u64 = 0;
    let mut i: usize = n;
    let ghost whole = bytes@.subrange(at as int, at + n);
    proof {
        common_ranges();
        assert(bytes@.subrange(at + n, at + n) =~= Seq::empty());
    }
    while i > 0
        invariant
            0 <= i <= n <= 8,
            at + n <= bytes.len(),
            value == le_value(bytes@.subrange(at + i, at + n)),
            byte_range(8) == 0x1_0000_0000_0000_0000,
        decreases i,
    {
        i = i - 1;
        let ghost part = bytes@.subrange(at + i, at + n);
        proof {
            assert(part.drop_first() =~= bytes@.subrange(at + i + 1, at + n));
            le_value_bound(part);
            byte_range_grows(part.len(), 8);
        }
        value = bytes[at + i] as u64 + 256 * value;
    }
    proof {
        le_value_bound(whole);
    }
    value
}

proof fn byte_range_grows(a: nat, b: nat)
    requires
        a <= b,
    ensures
        1 <= byte_range(a) <= byte_range(b),
    decreases b,
{
    if a < b {
        byte_range_grows(a, (b - 1) as nat);
    } else if a > 0 {
        byte_range_grows((a - 1) as nat, (a - 1) as nat);
    }
}

/// The lowest byte of a number comes first.
pub proof fn low_byte_first(x: nat, n: nat, rest: Seq<u8>, b: u8)
    ensures
        n > 0 ==> le_bytes(x, n).len() > 0 && le_bytes(x, n)[0] == x % 256,
        le_value(seq![b] + rest) == b + 256 * le_value(rest),
        le_value(seq![b]) == b,
{
    reveal_with_fuel(le_value, 3);
    assert((seq![b] + rest).drop_first() =~= rest);
    assert(seq![b].drop_first() =~= Seq::empty());
}

/// The four bytes of a number, from the lowest to the highest.
pub proof fn four_bytes(x: nat, b: Seq<u8>)
    requires
        b.len() == 4,
    ensures
        le_bytes(x, 4) == seq![
            (x % 256) as u8,
            (x / 0x100 % 256) as u8,
            (x / 0x1_0000 % 256) as u8,
            (x / 0x100_0000 % 256) as u8,
        ],
        le_value(b) == b[0] + 0x100 * b[1] + 0x1_0000 * b[2] + 0x100_0000 * b[3],
{
    reveal_with_fuel(le_bytes, 5);
    reveal_with_fuel(le_value, 5);
    assert(x / 256 / 256 == x / 0x1_0000);
    assert(x / 256 / 256 / 256 == x / 0x100_0000);
    assert(le_bytes(x, 4) =~= seq![
        (x % 256) as u8,
        (x / 0x100 % 256) as u8,
        (x / 0x1_0000 % 256) as u8,
        (x / 0x100_0000 % 256) as u8,
    ]);
    assert(b.drop_first()[0] == b[1]);
    assert(b.drop_first().drop_first()[0] == b[2]);
    assert(b.drop_first().drop_first().drop_first()[0] == b[3]);
}

} // verus!
