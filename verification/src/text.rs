//! Text helpers shared by the other modules: views of string lists, decimal
//! numbers, joining, and the few `std` string operations that need a contract.

use vstd::prelude::*;
use vstd::string::*;

verus! {

/// The number of UTF-8 bytes of a text.
pub open spec fn byte_len(s: Seq<char>) -> nat {
    vstd::utf8::encode_utf8(s).len()
}

/// The texts of a list of strings.
pub open spec fn texts(v: Seq<String>) -> Seq<Seq<char>> {
    Seq::new(v.len(), |i: int| v[i]@)
}

/// The text of an optional string.
pub open spec fn opt_text(s: Option<String>) -> Option<Seq<char>> {
    match s {
        Some(t) => Some(t@),
        None => None,
    }
}

/// The text of an optional string, with the empty text in place of none.
pub open spec fn text_or_empty(s: Option<String>) -> Seq<char> {
    match s {
        Some(t) => t@,
        None => Seq::empty(),
    }
}

/// The parts in order, with `sep` between each two neighbours.
pub open spec fn joined(parts: Seq<Seq<char>>, sep: Seq<char>) -> Seq<char>
    decreases parts.len(),
{
    if parts.len() == 0 {
        Seq::empty()
    } else if parts.len() == 1 {
        parts[0]
    } else {
        joined(parts.drop_last(), sep) + sep + parts.last()
    }
}

/// The character of one decimal digit.
pub open spec fn digit_char(d: int) -> char {
    if d == 0 {
        '0'
    } else if d == 1 {
        '1'
    } else if d == 2 {
        '2'
    } else if d == 3 {
        '3'
    } else if d == 4 {
        '4'
    } else if d == 5 {
        '5'
    } else if d == 6 {
        '6'
    } else if d == 7 {
        '7'
    } else if d == 8 {
        '8'
    } else {
        '9'
    }
}

/// A number in decimal notation, without leading zeros.
pub open spec fn decimal_text(n: nat) -> Seq<char>
    decreases n,
{
    if n < 10 {
        seq![digit_char(n as int)]
    } else {
        decimal_text(n / 10).push(digit_char((n % 10) as int))
    }
}

/// `==` of `str`: two string slices are equal when they hold the same characters.
#[verifier::external_body]
pub(crate) fn same_text(a: &str, b: &str) -> (r: bool)
    ensures
        r == (a@ == b@),
{
    a == b
}

/// `String::push`: appends one character at the end.
#[verifier::external_body]
pub(crate) fn push_char(s: &mut String, c: char)
    ensures
        final(s)@ == old(s)@.push(c),
{
    s.push(c)
}

/// `String::from_utf8`: the text with exactly these bytes, if they are valid UTF-8.
#[verifier::external_body]
pub(crate) fn utf8_text(bytes: Vec<u8>) -> (r: Option<String>)
    ensures
        match r {
            Some(s) => vstd::utf8::encode_utf8(s@) == bytes@,
            None => !vstd::utf8::valid_utf8(bytes@),
        },
{
    String::from_utf8(bytes).ok()
}

/// The length of a text in UTF-8 bytes.
pub fn len_bytes(s: &str) -> (n: usize)
    ensures
        n == byte_len(s@),
{
    s.as_bytes().len()
}

/// The characters of a text.
pub fn chars_of(s: &str) -> (r: Vec<char>)
    ensures
        r@ == s@,
{
    let mut out: Vec<char> = Vec::new();
    let mut rest = s.chars();
    loop
        invariant
            vstd::std_specs::iter::IteratorSpec::obeys_prophetic_iter_laws(&rest),
            out@ + vstd::std_specs::iter::IteratorSpec::remaining(&rest) == s@,
        ensures
            out@ == s@,
        decreases s@.len() - out@.len(),
    {
        let next = rest.next();
        match next {
            Some(c) => {
                out.push(c);
            },
            None => {
                break;
            },
        }
    }
    out
}

/// The characters from `from` up to `to` as a string.
pub fn text_between(v: &Vec<char>, from: usize, to: usize) -> (r: String)
    requires
        from <= to <= v.len(),
    ensures
        r@ == v@.subrange(from as int, to as int),
{
    let mut out = String::new();
    let mut i: usize = from;
    while i < to
        invariant
            from <= i <= to <= v.len(),
            out@ == v@.subrange(from as int, i as int),
        decreases to - i,
    {
        push_char(&mut out, v[i]);
        i = i + 1;
    }
    out
}

/// Whether a text holds the character.
pub fn holds_char(s: &str, wanted: char) -> (r: bool)
    ensures
        r == s@.contains(wanted),
{
    let v = chars_of(s);
    let mut i: usize = 0;
    while i < v.len()
        invariant
            i <= v.len(),
            v@ == s@,
            forall|k: int| 0 <= k < i ==> v@[k] != wanted,
        decreases v.len() - i,
    {
        if v[i] == wanted {
            assert(s@[i as int] == wanted);
            return true;
        }
        i = i + 1;
    }
    false
}

/// The string, or an empty one in place of none.
pub fn text_or_empty_of(s: Option<String>) -> (r: String)
    ensures
        r@ == text_or_empty(s),
{
    match s {
        Some(t) => t,
        None => String::new(),
    }
}

fn digit(d: u128) -> (c: char)
    requires
        d < 10,
    ensures
        c == digit_char(d as int),
{
    if d == 0 {
        '0'
    } else if d == 1 {
        '1'
    } else if d == 2 {
        '2'
    } else if d == 3 {
        '3'
    } else if d == 4 {
        '4'
    } else if d == 5 {
        '5'
    } else if d == 6 {
        '6'
    } else if d == 7 {
        '7'
    } else if d == 8 {
        '8'
    } else {
        '9'
    }
}

/// A number in decimal notation.
pub fn decimal(n: u128) -> (r: String)
    ensures
        r@ == decimal_text(n as nat),
    decreases n,
{
    if n < 10 {
        let mut s = String::new();
        push_char(&mut s, digit(n));
        assert(s@ =~= seq![digit_char(n as int)]);
        s
    } else {
        let mut s = decimal(n / 10);
        push_char(&mut s, digit(n % 10));
        s
    }
}

/// A number in decimal notation, with a minus sign where it is negative.
pub open spec fn signed_text(n: int) -> Seq<char> {
    if n < 0 {
        "-"@ + decimal_text((-n) as nat)
    } else {
        decimal_text(n as nat)
    }
}

/// A number in decimal notation, with a minus sign where it is negative.
pub fn signed(n: i64) -> (r: String)
    ensures
        r@ == signed_text(n as int),
{
    if n < 0 {
        let mut text = "-".to_owned();
        let positive: u128 = (-(n as i128)) as u128;
        text.append(decimal(positive).as_str());
        text
    } else {
        decimal(n as u128)
    }
}

/// Two numbers with the same decimal notation are the same.
pub proof fn decimal_text_injective(a: nat, b: nat)
    requires
        decimal_text(a) == decimal_text(b),
    ensures
        a == b,
    decreases a,
{
    let x = decimal_text(a);
    let y = decimal_text(b);
    decimal_text_shape(a);
    decimal_text_shape(b);
    assert(x.last() == y.last());
    if a >= 10 && b >= 10 {
        assert(x.drop_last() =~= decimal_text(a / 10));
        assert(y.drop_last() =~= decimal_text(b / 10));
        decimal_text_injective(a / 10, b / 10);
    }
}

proof fn decimal_text_shape(n: nat)
    ensures
        decimal_text(n).len() >= 1,
        n >= 10 <==> decimal_text(n).len() >= 2,
        decimal_text(n).last() == digit_char((n % 10) as int),
    decreases n,
{
    if n >= 10 {
        decimal_text_shape(n / 10);
    }
}

/// The strings in order, with `sep` between each two neighbours.
pub fn join(parts: &Vec<String>, sep: &str) -> (r: String)
    ensures
        r@ == joined(texts(parts@), sep@),
{
    let mut out = String::new();
    let mut i: usize = 0;
    while i < parts.len()
        invariant
            i <= parts.len(),
            out@ == joined(texts(parts@).take(i as int), sep@),
        decreases parts.len() - i,
    {
        proof {
            let next = texts(parts@).take(i + 1);
            assert(next.drop_last() =~= texts(parts@).take(i as int));
            assert(next.last() == parts@[i as int]@);
        }
        if i > 0 {
            out.append(sep);
        }
        out.append(parts[i].as_str());
        i = i + 1;
    }
    assert(texts(parts@).take(i as int) =~= texts(parts@));
    out
}

/// Whether some string of the list has exactly this text.
pub fn contains_text(list: &Vec<String>, wanted: &str) -> (r: bool)
    ensures
        r == texts(list@).contains(wanted@),
{
    let mut i: usize = 0;
    while i < list.len()
        invariant
            i <= list.len(),
            forall|k: int| 0 <= k < i ==> texts(list@)[k] != wanted@,
        decreases list.len() - i,
    {
        if same_text(list[i].as_str(), wanted) {
            assert(texts(list@)[i as int] == wanted@);
            return true;
        }
        i = i + 1;
    }
    false
}

/// Whether the character has the Unicode property White_Space.
pub open spec fn white_space(c: char) -> bool {
    ||| '\u{9}' <= c <= '\u{d}'
    ||| c == ' '
    ||| c == '\u{85}'
    ||| c == '\u{a0}'
    ||| c == '\u{1680}'
    ||| '\u{2000}' <= c <= '\u{200a}'
    ||| c == '\u{2028}'
    ||| c == '\u{2029}'
    ||| c == '\u{202f}'
    ||| c == '\u{205f}'
    ||| c == '\u{3000}'
}

/// Whether the character has the Unicode property White_Space.
pub fn is_white_space(c: char) -> (r: bool)
    ensures
        r == white_space(c),
{
    (c >= '\u{9}' && c <= '\u{d}') || c == ' ' || c == '\u{85}' || c == '\u{a0}' || c == '\u{1680}'
        || (c >= '\u{2000}' && c <= '\u{200a}') || c == '\u{2028}' || c == '\u{2029}' || c
        == '\u{202f}' || c == '\u{205f}' || c == '\u{3000}'
}

/// The lower-case form of a text, as `str::to_lowercase` gives it.
pub uninterp spec fn lowercase(s: Seq<char>) -> Seq<char>;

/// `str::to_lowercase`: a function of the text alone.
#[verifier::external_body]
pub(crate) fn to_lowercase(s: &str) -> (r: String)
    ensures
        r@ == lowercase(s@),
{
    s.to_lowercase()
}

/// A text in quotes with escapes, as the `Debug` form of `str` writes it.
pub uninterp spec fn debug_text(s: Seq<char>) -> Seq<char>;

/// `format!` with the `Debug` form of a string: a function of the text alone.
#[verifier::external_body]
pub(crate) fn debug_form(s: &str) -> (r: String)
    ensures
        r@ == debug_text(s@),
{
    format!("{s:?}")
}

/// The number of leading white-space characters.
pub open spec fn leading_space(s: Seq<char>) -> nat
    decreases s.len(),
{
    if s.len() > 0 && white_space(s[0]) {
        1 + leading_space(s.drop_first())
    } else {
        0
    }
}

/// The number of trailing white-space characters.
pub open spec fn trailing_space(s: Seq<char>) -> nat
    decreases s.len(),
{
    if s.len() > 0 && white_space(s.last()) {
        1 + trailing_space(s.drop_last())
    } else {
        0
    }
}

/// A text without its leading and trailing white space.
pub open spec fn trimmed(s: Seq<char>) -> Seq<char> {
    let rest = s.skip(leading_space(s) as int);
    rest.take(rest.len() - trailing_space(rest))
}

proof fn space_counts_fit(s: Seq<char>)
    ensures
        leading_space(s) <= s.len(),
        trailing_space(s) <= s.len(),
    decreases s.len(),
{
    if s.len() > 0 {
        space_counts_fit(s.drop_first());
        space_counts_fit(s.drop_last());
    }
}

/// The characters between `from` and `to` without leading and trailing white
/// space, as the bounds of what remains.
pub fn trim_bounds(v: &Vec<char>, from: usize, to: usize) -> (r: (usize, usize))
    requires
        from <= to <= v.len(),
    ensures
        from <= r.0 <= r.1 <= to,
        v@.subrange(r.0 as int, r.1 as int) == trimmed(v@.subrange(from as int, to as int)),
{
    let ghost s = v@.subrange(from as int, to as int);
    proof {
        space_counts_fit(s);
    }
    let mut a: usize = from;
    assert(s.skip(0) =~= s);
    while a < to && is_white_space(v[a])
        invariant
            from <= a <= to <= v.len(),
            s == v@.subrange(from as int, to as int),
            leading_space(s) == (a - from) + leading_space(s.skip(a - from)),
        decreases to - a,
    {
        assert(s.skip(a - from)[0] == v@[a as int]);
        assert(s.skip(a - from).drop_first() =~= s.skip(a + 1 - from));
        a = a + 1;
    }
    proof {
        if a < to {
            assert(s.skip(a - from)[0] == v@[a as int]);
        }
        assert(leading_space(s) == a - from);
    }
    let ghost rest = s.skip(a - from);
    proof {
        space_counts_fit(rest);
        assert(rest =~= v@.subrange(a as int, to as int));
        assert(rest.take(rest.len() as int) =~= rest);
    }
    let mut b: usize = to;
    while b > a && is_white_space(v[b - 1])
        invariant
            from <= a <= b <= to <= v.len(),
            rest == v@.subrange(a as int, to as int),
            trailing_space(rest) == (to - b) + trailing_space(rest.take(b - a)),
        decreases b - a,
    {
        assert(rest.take(b - a).last() == v@[b - 1]);
        assert(rest.take(b - a).drop_last() =~= rest.take(b - 1 - a));
        b = b - 1;
    }
    proof {
        if b > a {
            assert(rest.take(b - a).last() == v@[b - 1]);
        }
        assert(trailing_space(rest) == to - b);
        assert(v@.subrange(a as int, b as int) =~= rest.take(b - a));
    }
    (a, b)
}

/// A text without its leading and trailing white space.
pub fn trim(s: &str) -> (r: String)
    ensures
        r@ == trimmed(s@),
{
    let v = chars_of(s);
    let b = trim_bounds(&v, 0, v.len());
    assert(v@.subrange(0, v@.len() as int) =~= v@);
    text_between(&v, b.0, b.1)
}

/// Where the character occurs first.
pub open spec fn first_at(s: Seq<char>, c: char) -> Option<int>
    decreases s.len(),
{
    if s.len() == 0 {
        None
    } else {
        match first_at(s.drop_last(), c) {
            Some(i) => Some(i),
            None => if s.last() == c {
                Some(s.len() - 1)
            } else {
                None
            },
        }
    }
}

/// What `first_at` finds: the character stands there and nowhere before.
pub proof fn first_at_is_first(s: Seq<char>, c: char)
    ensures
        match first_at(s, c) {
            Some(i) => 0 <= i < s.len() && s[i] == c && forall|k: int| 0 <= k < i ==> s[k] != c,
            None => forall|k: int| 0 <= k < s.len() ==> s[k] != c,
        },
    decreases s.len(),
{
    if s.len() > 0 {
        first_at_is_first(s.drop_last(), c);
        assert forall|k: int| 0 <= k < s.len() - 1 implies s[k] == s.drop_last()[k] by {}
    }
}

/// Where the character occurs first between `from` and `to`.
pub fn find_char(v: &Vec<char>, from: usize, to: usize, c: char) -> (r: Option<usize>)
    requires
        from <= to <= v.len(),
    ensures
        match r {
            Some(i) => from <= i < to && first_at(v@.subrange(from as int, to as int), c) == Some(
                i - from,
            ),
            None => first_at(v@.subrange(from as int, to as int), c) is None,
        },
{
    let ghost s = v@.subrange(from as int, to as int);
    proof {
        first_at_is_first(s, c);
    }
    let mut i: usize = from;
    while i < to
        invariant
            from <= i <= to <= v.len(),
            s == v@.subrange(from as int, to as int),
            forall|k: int| 0 <= k < i - from ==> s[k] != c,
            match first_at(s, c) {
                Some(f) => 0 <= f < s.len() && s[f] == c && forall|k: int|
                    0 <= k < f ==> s[k] != c,
                None => forall|k: int| 0 <= k < s.len() ==> s[k] != c,
            },
        decreases to - i,
    {
        if v[i] == c {
            assert(s[i - from] == c);
            return Some(i);
        }
        i = i + 1;
    }
    None
}

/// Whether `wanted` stands somewhere in `s`, uninterrupted.
pub open spec fn has_part(s: Seq<char>, wanted: Seq<char>) -> bool {
    exists|i: int|
        0 <= i <= s.len() - wanted.len() && #[trigger] s.subrange(i, i + wanted.len()) == wanted
}

/// Whether `wanted` stands somewhere in `s`, uninterrupted.
pub fn contains_part(s: &str, wanted: &str) -> (r: bool)
    ensures
        r == has_part(s@, wanted@),
{
    let a = chars_of(s);
    let b = chars_of(wanted);
    if b.len() > a.len() {
        return false;
    }
    let mut i: usize = 0;
    while i <= a.len() - b.len()
        invariant
            b.len() <= a.len(),
            i <= a.len() - b.len() + 1,
            a@ == s@,
            b@ == wanted@,
            forall|k: int|
                0 <= k < i ==> #[trigger] s@.subrange(k, k + wanted@.len()) != wanted@,
        decreases a.len() - b.len() + 1 - i,
    {
        let mut j: usize = 0;
        let ghost part = s@.subrange(i as int, i + wanted@.len());
        while j < b.len() && a[i + j] == b[j]
            invariant
                i + b.len() <= a.len(),
                j <= b.len(),
                a@ == s@,
                b@ == wanted@,
                part == s@.subrange(i as int, i + wanted@.len()),
                forall|k: int| 0 <= k < j ==> part[k] == wanted@[k],
            decreases b.len() - j,
        {
            assert(part[j as int] == a@[i + j]);
            j = j + 1;
        }
        if j == b.len() {
            assert(part =~= wanted@);
            return true;
        }
        assert(part[j as int] == a@[i + j]);
        assert(part[j as int] != wanted@[j as int]);
        i = i + 1;
    }
    false
}

/// The value of one decimal digit.
pub open spec fn digit_value(c: char) -> Option<nat> {
    if '0' <= c <= '9' {
        Some((c as int - '0' as int) as nat)
    } else {
        None
    }
}

/// The number that a run of decimal digits stands for; none where another
/// character is among them.
pub open spec fn digits_value(s: Seq<char>) -> Option<nat>
    decreases s.len(),
{
    if s.len() == 0 {
        Some(0)
    } else {
        match (digits_value(s.drop_last()), digit_value(s.last())) {
            (Some(n), Some(d)) => Some(10 * n + d),
            _ => None,
        }
    }
}

/// The number that a text stands for: decimal digits, at least one, after an
/// optional plus sign.
pub open spec fn number_value(s: Seq<char>) -> Option<nat> {
    let digits = if s.len() > 0 && s[0] == '+' {
        s.drop_first()
    } else {
        s
    };
    if digits.len() == 0 {
        None
    } else {
        digits_value(digits)
    }
}

proof fn digits_value_grows(s: Seq<char>, n: int)
    requires
        0 <= n <= s.len(),
        digits_value(s) is Some,
    ensures
        digits_value(s.take(n)) is Some,
        digits_value(s.take(n))->0 <= digits_value(s)->0,
    decreases s.len(),
{
    if n == s.len() {
        assert(s.take(n) =~= s);
    } else {
        digits_value_grows(s.drop_last(), n);
        assert(s.take(n) =~= s.drop_last().take(n));
    }
}

/// A number in decimal notation stands for that number, and consists of digits.
pub proof fn decimal_text_reads_back(n: nat)
    ensures
        number_value(decimal_text(n)) == Some(n),
        forall|i: int|
            0 <= i < decimal_text(n).len() ==> '0' <= #[trigger] decimal_text(n)[i] <= '9',
    decreases n,
{
    digits_read_back(n);
    assert('0' <= decimal_text(n)[0] <= '9');
}

proof fn digits_read_back(n: nat)
    ensures
        digits_value(decimal_text(n)) == Some(n),
        decimal_text(n).len() > 0,
        forall|i: int|
            0 <= i < decimal_text(n).len() ==> '0' <= #[trigger] decimal_text(n)[i] <= '9',
    decreases n,
{
    let s = decimal_text(n);
    let last = digit_char((n % 10) as int);
    assert(digit_value(last) == Some((n % 10) as nat));
    if n < 10 {
        assert(s.drop_last() =~= Seq::<char>::empty());
        assert(digits_value(s.drop_last()) == Some(0nat));
    } else {
        digits_read_back(n / 10);
        assert(s.drop_last() =~= decimal_text(n / 10));
        assert forall|i: int| 0 <= i < s.len() implies '0' <= #[trigger] s[i] <= '9' by {
            if i < s.len() - 1 {
                assert(s[i] == decimal_text(n / 10)[i]);
            }
        }
    }
}

/// The number that the characters between `from` and `to` stand for, if it
/// fits.
pub fn parse_number(v: &Vec<char>, from: usize, to: usize) -> (r: Option<usize>)
    requires
        from <= to <= v.len(),
    ensures
        r == (match number_value(v@.subrange(from as int, to as int)) {
            Some(n) if n <= usize::MAX => Some(n as usize),
            _ => None,
        }),
{
    let ghost s = v@.subrange(from as int, to as int);
    let start: usize = if from < to && v[from] == '+' {
        from + 1
    } else {
        from
    };
    let ghost digits = v@.subrange(start as int, to as int);
    proof {
        if start > from {
            assert(s[0] == '+');
            assert(digits =~= s.drop_first());
        } else {
            assert(digits =~= s);
            if s.len() > 0 {
                assert(s[0] == v@[from as int]);
            }
        }
    }
    if start == to {
        return None;
    }
    let mut n: usize = 0;
    let mut i: usize = start;
    while i < to
        invariant
            start <= i <= to <= v.len(),
            digits == v@.subrange(start as int, to as int),
            digits.len() > 0,
            number_value(v@.subrange(from as int, to as int)) == digits_value(digits),
            digits_value(digits.take(i - start)) == Some(n as nat),
        decreases to - i,
    {
        let c = v[i];
        proof {
            let next = digits.take(i + 1 - start);
            assert(next.drop_last() =~= digits.take(i - start));
            assert(next.last() == c);
            if digits_value(digits) is Some {
                digits_value_grows(digits, i + 1 - start);
            }
        }
        if c < '0' || c > '9' {
            return None;
        }
        let d: usize = (c as u32 - '0' as u32) as usize;
        if n > (usize::MAX - d) / 10 {
            return None;
        }
        n = 10 * n + d;
        i = i + 1;
    }
    assert(digits.take(to - start) =~= digits);
    Some(n)
}

/// A path below a directory: separated by one slash, unless the directory
/// already ends in one or is empty.
pub open spec fn path_joined(directory: Seq<char>, name: Seq<char>) -> Seq<char> {
    if directory.len() == 0 || directory.last() == '/' {
        directory + name
    } else {
        directory + "/"@ + name
    }
}

/// A path below a directory.
pub fn join_path(directory: &str, name: &str) -> (r: String)
    ensures
        r@ == path_joined(directory@, name@),
{
    let chars = chars_of(directory);
    let mut path = directory.to_owned();
    if chars.len() > 0 && chars[chars.len() - 1] != '/' {
        path.append("/");
    }
    path.append(name);
    path
}

/// Values filed under texts, in the order of their first insertion.
#[derive(Debug, Clone, PartialEq, Eq)]
pub struct TextMap<V> {
    pub entries: Vec<(String, V)>,
}

/// The value that a list of entries files under a key: the first one.
pub open spec fn filed<V>(entries: Seq<(String, V)>, key: Seq<char>) -> Option<V>
    decreases entries.len(),
{
    if entries.len() == 0 {
        None
    } else if entries[0].0@ == key {
        Some(entries[0].1)
    } else {
        filed(entries.drop_first(), key)
    }
}

/// The keys of a list of entries.
pub open spec fn keys_of<V>(entries: Seq<(String, V)>) -> Seq<Seq<char>> {
    Seq::new(entries.len(), |i: int| entries[i].0@)
}

impl<V> TextMap<V> {
    /// The value filed under a key.
    pub open spec fn value(self, key: Seq<char>) -> Option<V> {
        filed(self.entries@, key)
    }

    pub open spec fn keys(self) -> Seq<Seq<char>> {
        keys_of(self.entries@)
    }

    pub fn new() -> (r: Self)
        ensures
            r.entries@.len() == 0,
    {
        TextMap { entries: Vec::new() }
    }

    pub fn len(&self) -> (r: usize)
        ensures
            r == self.entries@.len(),
    {
        self.entries.len()
    }

    /// The value filed under a key.
    pub fn get(&self, key: &str) -> (r: Option<&V>)
        ensures
            match r {
                Some(v) => self.value(key@) == Some(*v),
                None => self.value(key@) is None,
            },
    {
        let mut i: usize = 0;
        assert(self.entries@.skip(0) =~= self.entries@);
        while i < self.entries.len()
            invariant
                i <= self.entries.len(),
                filed(self.entries@, key@) == filed(self.entries@.skip(i as int), key@),
            decreases self.entries.len() - i,
        {
            assert(self.entries@.skip(i as int)[0] == self.entries@[i as int]);
            assert(self.entries@.skip(i as int).drop_first() =~= self.entries@.skip(i + 1));
            if same_text(self.entries[i].0.as_str(), key) {
                return Some(&self.entries[i].1);
            }
            i = i + 1;
        }
        None
    }

    /// Files a value under a key, in place of the one filed there before.
    pub fn insert(&mut self, key: String, value: V)
        ensures
            final(self).value(key@) == Some(value),
            forall|k: Seq<char>|
                k != key@ ==> #[trigger] final(self).value(k) == old(self).value(k),
            final(self).keys() == (if old(self).keys().contains(key@) {
                old(self).keys()
            } else {
                old(self).keys().push(key@)
            }),
    {
        let ghost before = self.entries@;
        let mut i: usize = 0;
        while i < self.entries.len()
            invariant
                i <= self.entries.len(),
                before == old(self).entries@,
                self.entries@ == before,
                forall|k: int| 0 <= k < i ==> before[k].0@ != key@,
            decreases self.entries.len() - i,
        {
            if same_text(self.entries[i].0.as_str(), key.as_str()) {
                proof {
                    assert(keys_of(before)[i as int] == key@);
                    filed_after_update(before, i as int, key, value);
                }
                self.entries.set(i, (key, value));
                assert(keys_of(self.entries@) =~= keys_of(before));
                return;
            }
            i = i + 1;
        }
        proof {
            filed_after_push(before, key, value);
            assert(!keys_of(before).contains(key@)) by {
                if keys_of(before).contains(key@) {
                    let w = choose|w: int| 0 <= w < before.len() && keys_of(before)[w] == key@;
                    assert(before[w].0@ == key@);
                }
            }
        }
        self.entries.push((key, value));
        assert(keys_of(self.entries@) =~= keys_of(before).push(key@));
    }
}

pub proof fn filed_after_update<V>(entries: Seq<(String, V)>, at: int, key: String, value: V)
    requires
        0 <= at < entries.len(),
        entries[at].0@ == key@,
        forall|k: int| 0 <= k < at ==> entries[k].0@ != key@,
    ensures
        filed(entries.update(at, (key, value)), key@) == Some(value),
        forall|k: Seq<char>|
            k != key@ ==> #[trigger] filed(entries.update(at, (key, value)), k) == filed(entries, k),
    decreases entries.len(),
{
    let updated = entries.update(at, (key, value));
    if at == 0 {
        assert(updated.drop_first() =~= entries.drop_first());
    } else {
        filed_after_update(entries.drop_first(), at - 1, key, value);
        assert(updated.drop_first() =~= entries.drop_first().update(at - 1, (key, value)));
        assert forall|k: Seq<char>| k != key@ implies #[trigger] filed(updated, k) == filed(
            entries,
            k,
        ) by {
            assert(filed(entries.drop_first().update(at - 1, (key, value)), k) == filed(
                entries.drop_first(),
                k,
            ));
        }
    }
}

pub proof fn filed_after_push<V>(entries: Seq<(String, V)>, key: String, value: V)
    requires
        forall|k: int| 0 <= k < entries.len() ==> entries[k].0@ != key@,
    ensures
        filed(entries.push((key, value)), key@) == Some(value),
        forall|k: Seq<char>|
            k != key@ ==> #[trigger] filed(entries.push((key, value)), k) == filed(entries, k),
    decreases entries.len(),
{
    let pushed = entries.push((key, value));
    if entries.len() == 0 {
        assert(pushed[0].0@ == key@);
        assert forall|k: Seq<char>| k != key@ implies #[trigger] filed(pushed, k) == filed(
            entries,
            k,
        ) by {
            assert(filed(pushed.drop_first(), k) is None);
        }
    } else {
        filed_after_push(entries.drop_first(), key, value);
        assert(pushed.drop_first() =~= entries.drop_first().push((key, value)));
        assert forall|k: Seq<char>| k != key@ implies #[trigger] filed(pushed, k) == filed(
            entries,
            k,
        ) by {
            assert(filed(entries.drop_first().push((key, value)), k) == filed(
                entries.drop_first(),
                k,
            ));
        }
    }
}

/// The parts of a text between the occurrences of a character; there is always
/// at least one.
pub open spec fn split_text(s: Seq<char>, c: char) -> Seq<Seq<char>>
    decreases s.len(),
{
    match first_at(s, c) {
        None => seq![s],
        Some(i) => if 0 <= i < s.len() {
            seq![s.take(i)] + split_text(s.skip(i + 1), c)
        } else {
            seq![s]
        },
    }
}

/// The parts of a text between the occurrences of a character.
pub fn split(s: &str, c: char) -> (r: Vec<String>)
    ensures
        texts(r@) == split_text(s@, c),
        r@.len() >= 1,
{
    let v = chars_of(s);
    let mut out: Vec<String> = Vec::new();
    let mut from: usize = 0;
    assert(v@.skip(0) =~= v@);
    assert(texts(out@) + split_text(v@, c) =~= split_text(v@, c));
    loop
        invariant
            from <= v.len(),
            v@ == s@,
            texts(out@) + split_text(v@.skip(from as int), c) == split_text(s@, c),
        decreases v.len() - from,
    {
        let ghost rest = v@.skip(from as int);
        let ghost before = texts(out@);
        assert(v@.subrange(from as int, v@.len() as int) =~= rest);
        match find_char(&v, from, v.len(), c) {
            None => {
                out.push(text_between(&v, from, v.len()));
                assert(texts(out@) =~= before.push(rest));
                assert(before.push(rest) =~= before + seq![rest]);
                return out;
            },
            Some(i) => {
                let ghost part = rest.take(i - from);
                proof {
                    first_at_is_first(rest, c);
                    assert(v@.subrange(from as int, i as int) =~= part);
                    assert(rest.skip(i - from + 1) =~= v@.skip(i + 1));
                }
                out.push(text_between(&v, from, i));
                assert(texts(out@) =~= before.push(part));
                assert(before.push(part) + split_text(v@.skip(i + 1), c) =~= before + (seq![part]
                    + split_text(v@.skip(i + 1), c)));
                from = i + 1;
            },
        }
    }
}

/// Whether a text comes before another, character by character.
pub open spec fn text_before(a: Seq<char>, b: Seq<char>) -> bool
    decreases a.len(),
{
    if b.len() == 0 {
        false
    } else if a.len() == 0 {
        true
    } else if a[0] == b[0] {
        text_before(a.drop_first(), b.drop_first())
    } else {
        a[0] < b[0]
    }
}

/// Of two different texts exactly one comes before the other.
pub proof fn text_order_is_total(a: Seq<char>, b: Seq<char>)
    ensures
        a == b || text_before(a, b) || text_before(b, a),
        !(text_before(a, b) && text_before(b, a)),
        a == b ==> !text_before(a, b),
    decreases a.len(),
{
    if a.len() > 0 && b.len() > 0 {
        text_order_is_total(a.drop_first(), b.drop_first());
        if a[0] == b[0] && a.drop_first() == b.drop_first() {
            assert(a =~= seq![a[0]] + a.drop_first());
            assert(b =~= seq![b[0]] + b.drop_first());
        }
    } else if a.len() == 0 && b.len() == 0 {
        assert(a =~= b);
    }
}

/// A text that comes before a second, which comes before a third, comes before
/// the third.
pub proof fn text_order_is_transitive(a: Seq<char>, b: Seq<char>, c: Seq<char>)
    requires
        text_before(a, b),
        text_before(b, c),
    ensures
        text_before(a, c),
    decreases a.len(),
{
    if a.len() > 0 && a[0] == b[0] && b[0] == c[0] {
        text_order_is_transitive(a.drop_first(), b.drop_first(), c.drop_first());
    }
}

/// Whether a text comes before another, character by character.
pub fn is_before(a: &str, b: &str) -> (r: bool)
    ensures
        r == text_before(a@, b@),
{
    let x = chars_of(a);
    let y = chars_of(b);
    let mut i: usize = 0;
    assert(x@.skip(0) =~= x@);
    assert(y@.skip(0) =~= y@);
    while i < x.len() && i < y.len()
        invariant
            i <= x.len(),
            i <= y.len(),
            x@ == a@,
            y@ == b@,
            text_before(a@, b@) == text_before(x@.skip(i as int), y@.skip(i as int)),
        decreases x.len() - i,
    {
        assert(x@.skip(i as int)[0] == x@[i as int]);
        assert(y@.skip(i as int)[0] == y@[i as int]);
        assert(x@.skip(i as int).drop_first() =~= x@.skip(i + 1));
        assert(y@.skip(i as int).drop_first() =~= y@.skip(i + 1));
        if x[i] != y[i] {
            return x[i] < y[i];
        }
        i = i + 1;
    }
    i < y.len()
}

/// Whether each text comes before every later one.
pub open spec fn texts_increase(v: Seq<Seq<char>>) -> bool {
    forall|i: int, j: int| 0 <= i < j < v.len() ==> text_before(#[trigger] v[i], #[trigger] v[j])
}

/// A text in its place among others, unless it is there already.
pub fn insert_text(list: &mut Vec<String>, text: String)
    requires
        texts_increase(texts(old(list)@)),
    ensures
        texts_increase(texts(final(list)@)),
        forall|t: Seq<char>| #[trigger]
            texts(final(list)@).contains(t) <==> texts(old(list)@).contains(t) || t == text@,
{
    let ghost before = texts(list@);
    let mut i: usize = 0;
    while i < list.len() && is_before(list[i].as_str(), text.as_str())
        invariant
            i <= list.len(),
            texts(list@) == before,
            forall|k: int| 0 <= k < i ==> text_before(#[trigger] before[k], text@),
        decreases list.len() - i,
    {
        assert(before[i as int] == list@[i as int]@);
        i = i + 1;
    }
    if i < list.len() && same_text(list[i].as_str(), text.as_str()) {
        assert(before[i as int] == text@);
        return;
    }
    let ghost added = text@;
    list.insert(i, text);
    proof {
        let after = texts(list@);
        assert(after =~= before.insert(i as int, added));
        if i < before.len() {
            text_order_is_total(before[i as int], added);
        }
        assert forall|a: int, b: int| 0 <= a < b < after.len() implies text_before(
            #[trigger] after[a],
            #[trigger] after[b],
        ) by {
            if b < i {
                assert(text_before(before[a], before[b]));
            } else if b == i {
                assert(text_before(before[a], added));
            } else if a == i {
                if i < b - 1 {
                    assert(text_before(before[i as int], before[b - 1]));
                    text_order_is_transitive(added, before[i as int], before[b - 1]);
                }
            } else if a < i {
                assert(text_before(before[a], before[b - 1]));
            } else {
                assert(text_before(before[a - 1], before[b - 1]));
            }
        }
        assert forall|t: Seq<char>| #[trigger] after.contains(t) <==> before.contains(t) || t
            == added by {
            if before.contains(t) {
                let k = choose|k: int| 0 <= k < before.len() && before[k] == t;
                if k < i {
                    assert(after[k] == t);
                } else {
                    assert(after[k + 1] == t);
                }
            }
            if t == added {
                assert(after[i as int] == t);
            }
            if after.contains(t) {
                let k = choose|k: int| 0 <= k < after.len() && after[k] == t;
                if k < i {
                    assert(before[k] == t);
                } else if k > i {
                    assert(before[k - 1] == t);
                }
            }
        }
    }
}

/// Trimming takes white space from both ends and nothing else: a text is what
/// was taken in front, what is left, and what was taken behind. What is left
/// begins and ends with a character that is no white space, or is empty.
pub proof fn trimming_takes_only_the_ends(s: Seq<char>)
    ensures
        exists|from: int, to: int|
            #![trigger s.subrange(from, to)]
            {
                &&& 0 <= from <= to <= s.len()
                &&& trimmed(s) == s.subrange(from, to)
                &&& forall|i: int| 0 <= i < from || to <= i < s.len() ==> white_space(#[trigger] s[i])
                &&& from < to ==> !white_space(s[from]) && !white_space(s[to - 1])
            },
        trimmed(s).len() == 0 <==> forall|i: int| 0 <= i < s.len() ==> white_space(#[trigger] s[i]),
{
    leading_space_is_white(s);
    let from = leading_space(s) as int;
    let rest = s.skip(from);
    trailing_space_is_white(rest);
    let to = s.len() - trailing_space(rest);
    assert(trimmed(s) =~= s.subrange(from, to));
    assert forall|i: int| 0 <= i < from || to <= i < s.len() implies white_space(#[trigger] s[i]) by {
        if i >= to {
            assert(rest[i - from] == s[i]);
        }
    }
    if from < to {
        assert(rest[0] == s[from]);
        assert(rest[rest.len() - trailing_space(rest) - 1] == s[to - 1]);
    }
}

proof fn leading_space_is_white(s: Seq<char>)
    ensures
        leading_space(s) <= s.len(),
        forall|i: int| 0 <= i < leading_space(s) ==> white_space(#[trigger] s[i]),
        leading_space(s) < s.len() ==> !white_space(s[leading_space(s) as int]),
    decreases s.len(),
{
    if s.len() > 0 && white_space(s[0]) {
        let rest = s.drop_first();
        leading_space_is_white(rest);
        assert forall|i: int| 0 <= i < leading_space(s) implies white_space(#[trigger] s[i]) by {
            if i > 0 {
                assert(rest[i - 1] == s[i]);
            }
        }
    }
}

proof fn trailing_space_is_white(s: Seq<char>)
    ensures
        trailing_space(s) <= s.len(),
        forall|i: int| s.len() - trailing_space(s) <= i < s.len() ==> white_space(#[trigger] s[i]),
        trailing_space(s) < s.len() ==> !white_space(s[s.len() - trailing_space(s) - 1]),
    decreases s.len(),
{
    if s.len() > 0 && white_space(s.last()) {
        let rest = s.drop_last();
        trailing_space_is_white(rest);
        assert forall|i: int| s.len() - trailing_space(s) <= i < s.len() implies white_space(
            #[trigger] s[i],
        ) by {
            if i < s.len() - 1 {
                assert(rest[i] == s[i]);
            }
        }
    }
}

/// Of the ASCII characters the space, and those from tab to carriage return, are
/// white space; no letter, digit or sign is.
pub proof fn ascii_white_space(c: char)
    requires
        c <= '\u{7f}',
    ensures
        white_space(c) <==> c == ' ' || '\t' <= c <= '\r',
{
}

/// Texts are in order as in a dictionary: the first character in which they
/// differ decides, and a text comes before its own continuations.
pub proof fn text_order_is_that_of_a_dictionary(a: Seq<char>, b: Seq<char>)
    ensures
        text_before(a, b) <==> exists|n: int|
            {
                &&& 0 <= n <= a.len() && n < b.len()
                &&& #[trigger] a.take(n) == b.take(n)
                &&& n == a.len() || a[n] < b[n]
            },
    decreases a.len(),
{
    if text_before(a, b) {
        if a.len() == 0 {
            assert(a.take(0) =~= b.take(0));
        } else if a[0] == b[0] {
            let (x, y) = (a.drop_first(), b.drop_first());
            text_order_is_that_of_a_dictionary(x, y);
            let n = choose|n: int|
                {
                    &&& 0 <= n <= x.len() && n < y.len()
                    &&& #[trigger] x.take(n) == y.take(n)
                    &&& n == x.len() || x[n] < y[n]
                };
            assert(a.take(n + 1) =~= seq![a[0]] + x.take(n));
            assert(b.take(n + 1) =~= seq![b[0]] + y.take(n));
        } else {
            assert(a.take(0) =~= b.take(0));
        }
    }
    if exists|n: int|
        {
            &&& 0 <= n <= a.len() && n < b.len()
            &&& #[trigger] a.take(n) == b.take(n)
            &&& n == a.len() || a[n] < b[n]
        } {
        let n = choose|n: int|
            {
                &&& 0 <= n <= a.len() && n < b.len()
                &&& #[trigger] a.take(n) == b.take(n)
                &&& n == a.len() || a[n] < b[n]
            };
        if a.len() > 0 && n > 0 {
            assert(a[0] == a.take(n)[0]);
            assert(b[0] == b.take(n)[0]);
            let (x, y) = (a.drop_first(), b.drop_first());
            assert(x.take(n - 1) =~= a.take(n).drop_first());
            assert(y.take(n - 1) =~= b.take(n).drop_first());
            text_order_is_that_of_a_dictionary(x, y);
            assert(text_before(x, y));
        }
    }
}

/// A number is written with its digits in order, the last one for the units.
pub proof fn decimal_text_appends_a_digit(n: nat, digit: nat)
    requires
        digit < 10,
    ensures
        decimal_text(digit) == seq![('0' as int + digit) as char],
        n > 0 ==> decimal_text(10 * n + digit) == decimal_text(n) + seq![('0' as int + digit) as char],
{
    assert(digit_char(digit as int) as int == '0' as int + digit);
    if n > 0 {
        let m = 10 * n + digit;
        assert(m / 10 == n && m % 10 == digit);
        assert(decimal_text(m) =~= decimal_text(n) + seq![('0' as int + digit) as char]);
    }
}

/// A joined path is the directory and the name, with one slash between them
/// where the directory does not end in one.
pub proof fn joined_path_has_both_parts(directory: Seq<char>, name: Seq<char>)
    ensures
        ({
            let path = path_joined(directory, name);
            let slash = directory.len() > 0 && directory.last() != '/';
            &&& path.len() == directory.len() + name.len() + (if slash {
                1int
            } else {
                0
            })
            &&& path.take(directory.len() as int) == directory
            &&& path.skip(path.len() - name.len()) == name
            &&& slash ==> path[directory.len() as int] == '/'
        }),
{
    reveal_strlit("/");
    let path = path_joined(directory, name);
    assert(path.take(directory.len() as int) =~= directory);
    assert(path.skip(path.len() - name.len()) =~= name);
}

/// Splitting a text at a character and joining the parts with it gives the text
/// back, and no part holds the character.
pub proof fn split_parts_join_again(s: Seq<char>, c: char)
    ensures
        joined(split_text(s, c), seq![c]) == s,
        forall|k: int| 0 <= k < split_text(s, c).len() ==> !(#[trigger] split_text(s, c)[k]).contains(c),
        split_text(s, c).len() >= 1,
    decreases s.len(),
{
    first_at_is_first(s, c);
    let parts = split_text(s, c);
    match first_at(s, c) {
        None => {},
        Some(i) => {
            let rest = split_text(s.skip(i + 1), c);
            split_parts_join_again(s.skip(i + 1), c);
            joined_from_the_front(s.take(i), rest, seq![c]);
            assert(s =~= s.take(i) + seq![c] + s.skip(i + 1));
            assert forall|k: int| 0 <= k < parts.len() implies !(#[trigger] parts[k]).contains(c) by {
                if k == 0 {
                    if parts[0].contains(c) {
                        let j = choose|j: int| 0 <= j < i && s.take(i)[j] == c;
                        assert(s[j] == c);
                    }
                } else {
                    assert(parts[k] == rest[k - 1]);
                }
            }
        },
    }
}

proof fn joined_from_the_front(first: Seq<char>, rest: Seq<Seq<char>>, sep: Seq<char>)
    requires
        rest.len() >= 1,
    ensures
        joined(seq![first] + rest, sep) == first + sep + joined(rest, sep),
    decreases rest.len(),
{
    let all = seq![first] + rest;
    if rest.len() == 1 {
        assert(all.drop_last() =~= seq![first]);
        assert(joined(all.drop_last(), sep) == first);
    } else {
        assert(all.drop_last() =~= seq![first] + rest.drop_last());
        joined_from_the_front(first, rest.drop_last(), sep);
        assert(joined(all, sep) =~= first + sep + joined(rest, sep));
    }
}

/// Looking up a key finds the first entry with that key.
pub proof fn first_entry_is_found<V>(entries: Seq<(String, V)>, key: Seq<char>)
    ensures
        match filed(entries, key) {
            Some(value) => exists|i: int|
                {
                    &&& 0 <= i < entries.len()
                    &&& (#[trigger] entries[i]).0@ == key && entries[i].1 == value
                    &&& forall|k: int| 0 <= k < i ==> (#[trigger] entries[k]).0@ != key
                },
            None => forall|i: int| 0 <= i < entries.len() ==> (#[trigger] entries[i]).0@ != key,
        },
    decreases entries.len(),
{
    if entries.len() > 0 && entries[0].0@ != key {
        let rest = entries.drop_first();
        first_entry_is_found(rest, key);
        match filed(entries, key) {
            Some(value) => {
                let i = choose|i: int|
                    {
                        &&& 0 <= i < rest.len()
                        &&& (#[trigger] rest[i]).0@ == key && rest[i].1 == value
                        &&& forall|k: int| 0 <= k < i ==> (#[trigger] rest[k]).0@ != key
                    };
                assert(entries[i + 1] == rest[i]);
                assert forall|k: int| 0 <= k < i + 1 implies (#[trigger] entries[k]).0@ != key by {
                    if k > 0 {
                        assert(rest[k - 1] == entries[k]);
                    }
                }
            },
            None => {
                assert forall|i: int| 0 <= i < entries.len() implies (
                #[trigger] entries[i]).0@ != key by {
                    if i > 0 {
                        assert(rest[i - 1] == entries[i]);
                    }
                }
            },
        }
    }
}

/// A text has a part wherever it stands in it: in front, behind or between; and a
/// part that it has stands somewhere in it.
pub proof fn parts_stand_anywhere(front: Seq<char>, part: Seq<char>, behind: Seq<char>, s: Seq<char>)
    ensures
        has_part(front + part + behind, part),
        has_part(s, part) ==> exists|a: Seq<char>, b: Seq<char>| s == #[trigger] ((a + part) + b),
{
    let whole = front + part + behind;
    let at = front.len() as int;
    assert(whole.subrange(at, at + part.len()) =~= part);
    if has_part(s, part) {
        let i = choose|i: int|
            0 <= i <= s.len() - part.len() && #[trigger] s.subrange(i, i + part.len()) == part;
        let a = s.take(i);
        let b = s.skip(i + part.len());
        assert(s =~= (a + part) + b);
    }
}

/// The texts of two lists are equal exactly if the lists are equally long and
/// agree at every place.
pub proof fn equal_texts_agree(a: Seq<String>, b: Seq<String>)
    ensures
        texts(a) == texts(b) <==> a.len() == b.len() && forall|i: int|
            0 <= i < a.len() ==> (#[trigger] a[i])@ == b[i]@,
{
    if texts(a) == texts(b) {
        assert(texts(a).len() == texts(b).len());
        assert forall|i: int| 0 <= i < a.len() implies (#[trigger] a[i])@ == b[i]@ by {
            assert(texts(a)[i] == texts(b)[i]);
        }
    }
    if a.len() == b.len() && forall|i: int| 0 <= i < a.len() ==> (#[trigger] a[i])@ == b[i]@ {
        assert(texts(a) =~= texts(b));
    }
}

/// A missing text is told apart from an empty one, and counts as empty where a
/// text is needed.
pub proof fn missing_texts(s: String)
    ensures
        opt_text(None) is None,
        opt_text(Some(s)) == Some(s@),
        text_or_empty(None).len() == 0,
        text_or_empty(Some(s)) == s@,
{
}

/// A number below zero is written with a minus sign.
pub proof fn signs_are_written(n: nat)
    ensures
        signed_text(n as int) == decimal_text(n),
        n > 0 ==> signed_text(-(n as int)) == seq!['-'] + decimal_text(n),
{
    reveal_strlit("-");
    if n > 0 {
        assert(signed_text(-(n as int)) =~= seq!['-'] + decimal_text(n));
    }
}

/// Digits are read from the left, each counting ten times what follows; one
/// leading plus sign counts for nothing, and whatever else is no number.
pub proof fn digits_are_read_from_the_left(s: Seq<char>, c: char)
    ensures
        number_value(Seq::empty()) is None,
        number_value(seq!['+']) is None,
        '0' <= c && c <= '9' ==> number_value(seq![c]) == Some((c as int - '0' as int) as nat),
        digits_value(s) is Some && '0' <= c && c <= '9' ==> digits_value(s.push(c)) == Some(
            (10 * digits_value(s)->0 + (c as int - '0' as int)) as nat,
        ),
        !('0' <= c && c <= '9') ==> digits_value(s.push(c)) is None,
        digits_value(s) is None ==> digits_value(s.push(c)) is None,
        s.len() > 0 && s[0] != '+' ==> number_value(s) == digits_value(s) && number_value(
            seq!['+'] + s,
        ) == digits_value(s),
{
    reveal_with_fuel(digits_value, 2);
    assert(s.push(c).drop_last() =~= s);
    assert(seq![c].drop_last() =~= Seq::empty());
    assert(seq!['+'].drop_first() =~= Seq::empty());
    assert((seq!['+'] + s).drop_first() =~= s);
}

/// Texts that increase stand in the order of texts, so that none occurs twice.
pub proof fn increasing_texts(v: Seq<Seq<char>>, i: int, j: int)
    requires
        texts_increase(v),
        0 <= i < j < v.len(),
    ensures
        text_before(v[i], v[j]),
        v[i] != v[j],
{
    assert(text_before(v[i], v[j]));
    text_order_is_total(v[i], v[j]);
}

/// Joined texts follow each other with the separator between them.
pub proof fn joined_texts_follow_each_other(
    parts: Seq<Seq<char>>,
    part: Seq<char>,
    sep: Seq<char>,
)
    ensures
        joined(Seq::empty(), sep).len() == 0,
        joined(seq![part], sep) == part,
        parts.len() > 0 ==> joined(parts.push(part), sep) == joined(parts, sep) + sep + part,
{
    reveal_with_fuel(joined, 2);
    assert(parts.push(part).drop_last() =~= parts);
    assert(joined(seq![part], sep) =~= part);
}

} // verus!
