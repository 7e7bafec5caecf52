//! How Sway and i3 read a command at run time, and that quoted arguments come
//! through unchanged.

use crate::sway_commands::{CommandDialect, CommandError};
use vstd::prelude::*;

verus! {

/// Sway's tokenizer while it reads.
#[verifier::ext_equal]
pub struct Splitter {
    pub tokens: Seq<Seq<char>>,
    pub token: Seq<char>,
    pub in_string: bool,
    pub in_char: bool,
    pub in_brackets: bool,
    pub escaped: bool,
}

/// Which tokenizer: the one that parts commands, or the one that parts the
/// arguments of a command.
pub enum Level {
    Commands,
    Arguments,
}

/// White space of the C locale.
pub open spec fn blank(c: char) -> bool {
    c == ' ' || c == '\t' || c == '\n' || c == '\r' || c == '\u{b}' || c == '\u{c}'
}

/// Whether a character separates tokens.
pub open spec fn separates(level: Level, c: char) -> bool {
    match level {
        Level::Commands => c == ';' || c == ',',
        Level::Arguments => blank(c),
    }
}

/// A character joins the token.
pub open spec fn keep(s: Splitter, c: char) -> Splitter {
    Splitter {
        token: s.token.push(c),
        escaped: if c == '\\' {
            !s.escaped
        } else {
            false
        },
        ..s
    }
}

/// The tokenizer after one more character.
pub open spec fn split_step(level: Level, s: Splitter, c: char) -> Splitter {
    if c == '"' && !s.in_char && !s.escaped {
        keep(Splitter { in_string: !s.in_string, ..s }, c)
    } else if c == '\'' && !s.in_string && !s.escaped {
        keep(Splitter { in_char: !s.in_char, ..s }, c)
    } else if level is Arguments && c == '[' && !s.in_string && !s.in_char && !s.in_brackets
        && !s.escaped {
        keep(Splitter { in_brackets: true, ..s }, c)
    } else if level is Arguments && c == ']' && !s.in_string && !s.in_char && s.in_brackets
        && !s.escaped {
        keep(Splitter { in_brackets: false, ..s }, c)
    } else if separates(level, c) && !s.in_string && !s.in_char && !s.in_brackets && !s.escaped {
        Splitter {
            tokens: if s.token.len() == 0 {
                s.tokens
            } else {
                s.tokens.push(s.token)
            },
            token: Seq::empty(),
            escaped: false,
            ..s
        }
    } else {
        keep(s, c)
    }
}

/// The tokenizer after a text.
pub open spec fn split_run(level: Level, s: Splitter, input: Seq<char>) -> Splitter
    decreases input.len(),
{
    if input.len() == 0 {
        s
    } else {
        split_step(level, split_run(level, s, input.drop_last()), input.last())
    }
}

/// The tokenizer before it reads.
pub open spec fn fresh() -> Splitter {
    Splitter {
        tokens: Seq::empty(),
        token: Seq::empty(),
        in_string: false,
        in_char: false,
        in_brackets: false,
        escaped: false,
    }
}

/// The tokens of a text.
pub open spec fn split(level: Level, input: Seq<char>) -> Seq<Seq<char>> {
    let s = split_run(level, fresh(), input);
    if s.token.len() == 0 {
        s.tokens
    } else {
        s.tokens.push(s.token)
    }
}

/// Sway's quote removal while it reads.
pub struct Stripper {
    pub out: Seq<char>,
    pub in_string: bool,
    pub in_char: bool,
    pub escaped: bool,
}

/// Quote removal after one more character.
pub open spec fn strip_step(s: Stripper, c: char) -> Stripper {
    if c == '\'' && !s.in_string && !s.escaped {
        Stripper { in_char: !s.in_char, ..s }
    } else if c == '"' && !s.in_char && !s.escaped {
        Stripper { in_string: !s.in_string, ..s }
    } else {
        Stripper {
            out: s.out.push(c),
            escaped: if c == '\\' {
                !s.escaped
            } else {
                false
            },
            ..s
        }
    }
}

/// Quote removal after a text.
pub open spec fn strip_run(s: Stripper, input: Seq<char>) -> Stripper
    decreases input.len(),
{
    if input.len() == 0 {
        s
    } else {
        strip_step(strip_run(s, input.drop_last()), input.last())
    }
}

/// A text without its quotes.
pub open spec fn stripped(input: Seq<char>) -> Seq<char> {
    strip_run(
        Stripper { out: Seq::empty(), in_string: false, in_char: false, escaped: false },
        input,
    ).out
}

/// Whether exactly one backslash ends the text.
pub open spec fn ends_in_one_backslash(out: Seq<char>) -> bool {
    &&& out.len() > 0
    &&& out.last() == '\\'
    &&& out.len() == 1 || out[out.len() - 2] != '\\'
}

/// Sway's variable replacement: what was read already, and the rest. A dollar
/// sign behind one backslash stays; a doubled one becomes one; any other may
/// start a variable, whose length and value `lookup` gives.
pub open spec fn expanded(
    out: Seq<char>,
    rest: Seq<char>,
    lookup: spec_fn(Seq<char>) -> Option<(int, Seq<char>)>,
) -> Seq<char>
    decreases rest.len(),
{
    if rest.len() == 0 {
        out
    } else if rest[0] != '$' || ends_in_one_backslash(out) {
        expanded(out.push(rest[0]), rest.drop_first(), lookup)
    } else if rest.len() > 1 && rest[1] == '$' {
        expanded(out.push('$'), rest.skip(2), lookup)
    } else {
        match lookup(rest) {
            Some((length, value)) => if 1 <= length <= rest.len() {
                expanded(out + value, rest.skip(length), lookup)
            } else {
                expanded(out.push('$'), rest.drop_first(), lookup)
            },
            None => expanded(out.push('$'), rest.drop_first(), lookup),
        }
    }
}

/// An argument as the command gets it.
pub open spec fn read_argument(
    raw: Seq<char>,
    lookup: spec_fn(Seq<char>) -> Option<(int, Seq<char>)>,
) -> Seq<char> {
    let bare = if raw.len() > 0 && (raw[0] == '"' || raw[0] == '\'') {
        stripped(raw)
    } else {
        raw
    };
    expanded(Seq::empty(), bare, lookup)
}

/// One command: its name as it stands, then its arguments.
pub open spec fn read_command(
    command: Seq<char>,
    lookup: spec_fn(Seq<char>) -> Option<(int, Seq<char>)>,
) -> Seq<Seq<char>> {
    let raw = split(Level::Arguments, command);
    Seq::new(
        raw.len(),
        |i: int|
            if i == 0 {
                raw[0]
            } else {
                read_argument(raw[i], lookup)
            },
    )
}

proof fn split_run_concat(level: Level, s: Splitter, a: Seq<char>, b: Seq<char>)
    ensures
        split_run(level, s, a + b) == split_run(level, split_run(level, s, a), b),
    decreases b.len(),
{
    if b.len() == 0 {
        assert(a + b =~= a);
    } else {
        split_run_concat(level, s, a, b.drop_last());
        assert((a + b).drop_last() =~= a + b.drop_last());
    }
}

proof fn strip_run_concat(s: Stripper, a: Seq<char>, b: Seq<char>)
    ensures
        strip_run(s, a + b) == strip_run(strip_run(s, a), b),
    decreases b.len(),
{
    if b.len() == 0 {
        assert(a + b =~= a);
    } else {
        strip_run_concat(s, a, b.drop_last());
        assert((a + b).drop_last() =~= a + b.drop_last());
    }
}

/// Whether a character means nothing to the tokenizers.
pub open spec fn plain(level: Level, c: char) -> bool {
    c != '"' && c != '\'' && c != '\\' && c != '[' && c != ']' && !separates(level, c)
}

proof fn split_run_plain(level: Level, s: Splitter, word: Seq<char>)
    requires
        !s.escaped,
        forall|i: int| 0 <= i < word.len() ==> plain(level, #[trigger] word[i]),
    ensures
        split_run(level, s, word) == (Splitter { token: s.token + word, ..s }),
    decreases word.len(),
{
    if word.len() == 0 {
        assert(s.token + word =~= s.token);
    } else {
        let before = word.drop_last();
        assert forall|i: int| 0 <= i < before.len() implies plain(level, #[trigger] before[i]) by {
            assert(before[i] == word[i]);
        }
        split_run_plain(level, s, before);
        assert(plain(level, word[word.len() - 1]));
        assert((s.token + before).push(word.last()) =~= s.token + word);
    }
}

/// Inside its quotes a value changes nothing but the token: no quote closes
/// early, and nothing separates.
proof fn split_run_body(level: Level, s: Splitter, value: Seq<char>, quote: char, n: nat)
    requires
        quote == '"' || quote == '\'',
        crate::sway_commands::quotes_safe(value, quote),
        n <= value.len(),
        !s.escaped,
        s.in_string == (quote == '"'),
        s.in_char == (quote == '\''),
    ensures
        split_run(level, s, crate::sway_commands::sway_body(value, n)) == (Splitter {
            token: s.token + crate::sway_commands::sway_body(value, n),
            escaped: crate::sway_commands::backslashes_before(value, n as int) % 2 == 1,
            ..s
        }),
    decreases n,
{
    if n == 0 {
        assert(s.token + crate::sway_commands::sway_body(value, 0) =~= s.token);
    } else {
        let i = n - 1;
        split_run_body(level, s, value, quote, i as nat);
        let body = crate::sway_commands::sway_body(value, i as nat);
        let piece = crate::sway_commands::sway_piece(value, i);
        split_run_concat(level, s, body, piece);
        let mid = split_run(level, s, body);
        assert(!crate::sway_commands::bare_quote(value, quote, i));
        if piece.len() == 2 {
            assert(piece.drop_last() =~= seq!['$']);
            assert(piece.drop_last().drop_last() =~= Seq::empty());
            assert(split_run(level, mid, piece.drop_last().drop_last()) == mid);
            assert(split_run(level, mid, seq!['$']) == keep(mid, '$'));
            assert(split_run(level, mid, piece) == keep(keep(mid, '$'), '$'));
            assert(mid.token.push('$').push('$') =~= s.token + crate::sway_commands::sway_body(value, n));
        } else {
            assert(piece.drop_last() =~= Seq::empty());
            assert(split_run(level, mid, piece.drop_last()) == mid);
            assert(split_run(level, mid, piece) == keep(mid, value[i]));
            assert(mid.token.push(value[i]) =~= s.token + crate::sway_commands::sway_body(value, n));
        }
    }
}

/// A quoted value is read as part of one token.
proof fn split_run_quoted(level: Level, s: Splitter, value: Seq<char>, quote: char)
    requires
        quote == '"' || quote == '\'',
        crate::sway_commands::quotes_safe(value, quote),
        crate::sway_commands::backslashes_before(value, value.len() as int) % 2 == 0,
        !s.escaped,
        !s.in_string,
        !s.in_char,
    ensures
        split_run(level, s, crate::sway_commands::enclosed(quote, crate::sway_commands::sway_body(value, value.len()))) == (Splitter {
            token: s.token + crate::sway_commands::enclosed(quote, crate::sway_commands::sway_body(value, value.len())),
            ..s
        }),
{
    let body = crate::sway_commands::sway_body(value, value.len());
    let open = seq![quote];
    let opened = split_run(level, s, open);
    assert(open.drop_last() =~= Seq::empty());
    assert(split_run(level, s, open.drop_last()) == s);
    split_run_concat(level, s, open, body);
    split_run_concat(level, s, open + body, open);
    split_run_body(level, opened, value, quote, value.len());
    let inner = split_run(level, opened, body);
    assert(split_run(level, inner, open.drop_last()) == inner);
    assert(split_run(level, inner, open) == split_step(level, inner, quote));
    assert(s.token.push(quote) + body =~= s.token + (open + body));
    assert((s.token + (open + body)).push(quote) =~= s.token + crate::sway_commands::enclosed(quote, body));
    assert(!inner.escaped);
    assert(crate::sway_commands::enclosed(quote, body) == open + body + open);
}

proof fn strip_run_body(s: Stripper, value: Seq<char>, quote: char, n: nat)
    requires
        quote == '"' || quote == '\'',
        crate::sway_commands::quotes_safe(value, quote),
        n <= value.len(),
        !s.escaped,
        s.in_string == (quote == '"'),
        s.in_char == (quote == '\''),
    ensures
        strip_run(s, crate::sway_commands::sway_body(value, n)) == (Stripper {
            out: s.out + crate::sway_commands::sway_body(value, n),
            escaped: crate::sway_commands::backslashes_before(value, n as int) % 2 == 1,
            ..s
        }),
    decreases n,
{
    if n == 0 {
        assert(s.out + crate::sway_commands::sway_body(value, 0) =~= s.out);
    } else {
        let i = n - 1;
        strip_run_body(s, value, quote, i as nat);
        let body = crate::sway_commands::sway_body(value, i as nat);
        let piece = crate::sway_commands::sway_piece(value, i);
        strip_run_concat(s, body, piece);
        let mid = strip_run(s, body);
        assert(!crate::sway_commands::bare_quote(value, quote, i));
        if piece.len() == 2 {
            assert(piece.drop_last() =~= seq!['$']);
            assert(piece.drop_last().drop_last() =~= Seq::empty());
            assert(strip_run(mid, piece.drop_last().drop_last()) == mid);
            assert(strip_run(mid, seq!['$']) == strip_step(mid, '$'));
            assert(strip_run(mid, piece) == strip_step(strip_step(mid, '$'), '$'));
            assert(mid.out.push('$').push('$') =~= s.out + crate::sway_commands::sway_body(value, n));
        } else {
            assert(piece.drop_last() =~= Seq::empty());
            assert(strip_run(mid, piece.drop_last()) == mid);
            assert(strip_run(mid, piece) == strip_step(mid, value[i]));
            assert(mid.out.push(value[i]) =~= s.out + crate::sway_commands::sway_body(value, n));
        }
    }
}

/// Quote removal takes off exactly the quotes that were put on.
proof fn stripped_quoted(value: Seq<char>, quote: char)
    requires
        quote == '"' || quote == '\'',
        crate::sway_commands::quotes_safe(value, quote),
        crate::sway_commands::backslashes_before(value, value.len() as int) % 2 == 0,
    ensures
        stripped(crate::sway_commands::enclosed(quote, crate::sway_commands::sway_body(value, value.len()))) == crate::sway_commands::sway_body(value, value.len()),
{
    let s = Stripper { out: Seq::empty(), in_string: false, in_char: false, escaped: false };
    let body = crate::sway_commands::sway_body(value, value.len());
    let open = seq![quote];
    let opened = strip_run(s, open);
    assert(open.drop_last() =~= Seq::empty());
    assert(strip_run(s, open.drop_last()) == s);
    strip_run_concat(s, open, body);
    strip_run_concat(s, open + body, open);
    strip_run_body(opened, value, quote, value.len());
    let inner = strip_run(opened, body);
    assert(strip_run(inner, open.drop_last()) == inner);
    assert(strip_run(inner, open) == strip_step(inner, quote));
    assert(Seq::<char>::empty() + body =~= body);
    assert(crate::sway_commands::enclosed(quote, body) == open + body + open);
}

/// The characters inside the quotes from position `i` on.
spec fn body_from(value: Seq<char>, i: int) -> Seq<char>
    decreases value.len() - i,
{
    if 0 <= i < value.len() {
        crate::sway_commands::sway_piece(value, i) + body_from(value, i + 1)
    } else {
        Seq::empty()
    }
}

proof fn body_splits(value: Seq<char>, n: nat)
    requires
        n <= value.len(),
    ensures
        crate::sway_commands::sway_body(value, n) + body_from(value, n as int) == body_from(value, 0),
    decreases n,
{
    if n == 0 {
        assert(crate::sway_commands::sway_body(value, 0) + body_from(value, 0) =~= body_from(value, 0));
    } else {
        body_splits(value, (n - 1) as nat);
        assert(crate::sway_commands::sway_body(value, n) + body_from(value, n as int) =~= crate::sway_commands::sway_body(
            value,
            (n - 1) as nat,
        ) + body_from(value, n - 1));
    }
}

proof fn one_backslash_before(value: Seq<char>, i: int)
    requires
        0 <= i <= value.len(),
    ensures
        ends_in_one_backslash(value.take(i)) == (crate::sway_commands::backslashes_before(value, i) == 1),
{
    let out = value.take(i);
    reveal_with_fuel(crate::sway_commands::backslashes_before, 3);
    if i > 0 {
        assert(out.last() == value[i - 1]);
        if i > 1 {
            assert(out[out.len() - 2] == value[i - 2]);
        }
    }
}

/// Variable replacement gives the value back, whatever variables there are.
proof fn expanded_body(
    value: Seq<char>,
    i: int,
    lookup: spec_fn(Seq<char>) -> Option<(int, Seq<char>)>,
)
    requires
        0 <= i <= value.len(),
    ensures
        expanded(value.take(i), body_from(value, i), lookup) == value,
    decreases value.len() - i,
{
    if i == value.len() {
        assert(value.take(i) =~= value);
    } else {
        expanded_body(value, i + 1, lookup);
        one_backslash_before(value, i);
        let rest = body_from(value, i);
        let piece = crate::sway_commands::sway_piece(value, i);
        assert(value.take(i).push(value[i]) =~= value.take(i + 1));
        assert(rest[0] == value[i]);
        if piece.len() == 2 {
            assert(rest[1] == '$');
            assert(rest.skip(2) =~= body_from(value, i + 1));
        } else {
            assert(rest.drop_first() =~= body_from(value, i + 1));
        }
    }
}

proof fn expanded_plain(
    out: Seq<char>,
    rest: Seq<char>,
    lookup: spec_fn(Seq<char>) -> Option<(int, Seq<char>)>,
)
    requires
        forall|i: int| 0 <= i < rest.len() ==> #[trigger] rest[i] != '$',
    ensures
        expanded(out, rest, lookup) == out + rest,
    decreases rest.len(),
{
    if rest.len() == 0 {
        assert(out + rest =~= out);
    } else {
        assert(rest[0] != '$');
        assert forall|i: int| 0 <= i < rest.drop_first().len() implies #[trigger] rest.drop_first()[i]
            != '$' by {
            assert(rest[i + 1] != '$');
        }
        expanded_plain(out.push(rest[0]), rest.drop_first(), lookup);
        assert(out.push(rest[0]) + rest.drop_first() =~= out + rest);
    }
}

/// A quoted value is read as one argument that is the value itself.
proof fn quoted_reads_back(
    value: Seq<char>,
    quote: char,
    lookup: spec_fn(Seq<char>) -> Option<(int, Seq<char>)>,
)
    requires
        quote == '"' || quote == '\'',
        crate::sway_commands::quotes_safe(value, quote),
        crate::sway_commands::backslashes_before(value, value.len() as int) % 2 == 0,
    ensures
        read_argument(crate::sway_commands::enclosed(quote, crate::sway_commands::sway_body(value, value.len())), lookup) == value,
{
    let raw = crate::sway_commands::enclosed(quote, crate::sway_commands::sway_body(value, value.len()));
    assert(raw[0] == quote);
    stripped_quoted(value, quote);
    body_splits(value, value.len());
    expanded_body(value, 0, lookup);
    assert(body_from(value, value.len() as int) =~= Seq::empty());
    assert(crate::sway_commands::sway_body(value, value.len()) + Seq::<char>::empty() =~= crate::sway_commands::sway_body(value, value.len()));
    assert(value.take(0) =~= Seq::empty());
}

/// Every accepted workspace name stays one exact argument: Sway reads the focus
/// command as a single command with the name as its only argument, whatever
/// variables are defined.
pub proof fn focus_command_round_trips(
    value: Seq<char>,
    command: Seq<char>,
    lookup: spec_fn(Seq<char>) -> Option<(int, Seq<char>)>,
)
    requires
        crate::sway_commands::named_focus(value, CommandDialect::Sway) == Ok::<
            Seq<char>,
            CommandError,
        >(command),
    ensures
        split(Level::Commands, command) == seq![command],
        read_command(command, lookup) == seq!["workspace"@, value],
{
    let quote = crate::sway_commands::sway_quote(value)->0;
    let raw = crate::sway_commands::enclosed(quote, crate::sway_commands::sway_body(value, value.len()));
    reveal_strlit("workspace ");
    reveal_strlit("workspace");
    let word = "workspace"@;
    let space = seq![' '];
    assert("workspace "@ =~= word + space);
    assert(command == "workspace "@ + raw);
    assert forall|i: int| 0 <= i < word.len() implies plain(Level::Commands, #[trigger] word[i])
        && plain(Level::Arguments, word[i]) by {}
    assert(space.drop_last() =~= Seq::empty());
    // One command.
    let s1 = split_run(Level::Commands, fresh(), word);
    split_run_plain(Level::Commands, fresh(), word);
    split_run_concat(Level::Commands, fresh(), word, space);
    assert(split_run(Level::Commands, s1, space.drop_last()) == s1);
    let s2 = split_run(Level::Commands, fresh(), "workspace "@);
    split_run_concat(Level::Commands, fresh(), "workspace "@, raw);
    split_run_quoted(Level::Commands, s2, value, quote);
    assert(Seq::<char>::empty() + word =~= word);
    assert(word.push(' ') =~= "workspace "@);
    assert(s2.token =~= "workspace "@);
    assert(Seq::<Seq<char>>::empty().push(command) =~= seq![command]);
    // Its arguments.
    let t1 = split_run(Level::Arguments, fresh(), word);
    split_run_plain(Level::Arguments, fresh(), word);
    split_run_concat(Level::Arguments, fresh(), word, space);
    assert(split_run(Level::Arguments, t1, space.drop_last()) == t1);
    let t2 = split_run(Level::Arguments, fresh(), "workspace "@);
    split_run_concat(Level::Arguments, fresh(), "workspace "@, raw);
    split_run_quoted(Level::Arguments, t2, value, quote);
    assert(t2.tokens =~= seq![word]);
    assert(Seq::<char>::empty() + raw =~= raw);
    let parts = split(Level::Arguments, command);
    assert(parts =~= seq![word, raw]);
    quoted_reads_back(value, quote, lookup);
    assert(read_command(command, lookup) =~= seq!["workspace"@, value]);
}

/// Every accepted keyboard identifier stays one exact argument of the command
/// that switches the layout.
pub proof fn keyboard_command_round_trips(
    value: Seq<char>,
    quoted: Seq<char>,
    lookup: spec_fn(Seq<char>) -> Option<(int, Seq<char>)>,
)
    requires
        crate::sway_commands::sway_quoted(value) == Ok::<Seq<char>, CommandError>(quoted),
    ensures
        ({
            let command = "input "@ + quoted + " xkb_switch_layout next"@;
            &&& split(Level::Commands, command) == seq![command]
            &&& read_command(command, lookup) == seq![
                "input"@,
                value,
                "xkb_switch_layout"@,
                "next"@,
            ]
        }),
{
    let quote = crate::sway_commands::sway_quote(value)->0;
    let raw = crate::sway_commands::enclosed(quote, crate::sway_commands::sway_body(value, value.len()));
    let command = "input "@ + quoted + " xkb_switch_layout next"@;
    reveal_strlit("input ");
    reveal_strlit("input");
    reveal_strlit(" xkb_switch_layout next");
    reveal_strlit("xkb_switch_layout");
    reveal_strlit("next");
    let word = "input"@;
    let second = "xkb_switch_layout"@;
    let third = "next"@;
    let space = seq![' '];
    let tail = " xkb_switch_layout next"@;
    assert("input "@ =~= word + space);
    assert(tail =~= space + second + space + third);
    assert forall|i: int| 0 <= i < word.len() implies plain(Level::Commands, #[trigger] word[i])
        && plain(Level::Arguments, word[i]) by {}
    assert forall|i: int| 0 <= i < second.len() implies plain(Level::Arguments, #[trigger] second[i]) by {}
    assert forall|i: int| 0 <= i < third.len() implies plain(Level::Arguments, #[trigger] third[i]) by {}
    assert forall|i: int| 0 <= i < tail.len() implies plain(Level::Commands, #[trigger] tail[i]) by {}
    assert("input "@.len() == 6);
    assert forall|i: int| 0 <= i < "input "@.len() implies plain(
        Level::Commands,
        #[trigger] "input "@[i],
    ) by {}
    assert(space.drop_last() =~= Seq::empty());
    // One command.
    split_run_plain(Level::Commands, fresh(), "input "@);
    let s2 = split_run(Level::Commands, fresh(), "input "@);
    split_run_concat(Level::Commands, fresh(), "input "@, raw);
    split_run_quoted(Level::Commands, s2, value, quote);
    let s3 = split_run(Level::Commands, fresh(), "input "@ + raw);
    split_run_concat(Level::Commands, fresh(), "input "@ + raw, tail);
    split_run_plain(Level::Commands, s3, tail);
    assert(Seq::<char>::empty() + "input "@ + raw + tail =~= command);
    assert(Seq::<Seq<char>>::empty().push(command) =~= seq![command]);
    // Its arguments.
    let a = Level::Arguments;
    let t1 = split_run(a, fresh(), word);
    split_run_plain(a, fresh(), word);
    split_run_concat(a, fresh(), word, space);
    assert(split_run(a, t1, space.drop_last()) == t1);
    let t2 = split_run(a, fresh(), "input "@);
    assert(Seq::<char>::empty() + word =~= word);
    assert(t2.tokens =~= seq![word]);
    split_run_concat(a, fresh(), "input "@, raw);
    split_run_quoted(a, t2, value, quote);
    let t3 = split_run(a, fresh(), "input "@ + raw);
    assert(Seq::<char>::empty() + raw =~= raw);
    assert(t3.token =~= raw);
    split_run_concat(a, fresh(), "input "@ + raw, tail);
    split_run_concat(a, t3, space + second + space, third);
    split_run_concat(a, t3, space + second, space);
    split_run_concat(a, t3, space, second);
    let t4 = split_run(a, t3, space);
    assert(split_run(a, t3, space.drop_last()) == t3);
    assert(t4.tokens =~= seq![word, raw]);
    split_run_plain(a, t4, second);
    let t5 = split_run(a, t4, second);
    assert(Seq::<char>::empty() + second =~= second);
    assert(split_run(a, t5, space.drop_last()) == t5);
    let t6 = split_run(a, t5, space);
    assert(t6.tokens =~= seq![word, raw, second]);
    split_run_plain(a, t6, third);
    assert(Seq::<char>::empty() + third =~= third);
    let parts = split(a, command);
    assert(parts =~= seq![word, raw, second, third]);
    quoted_reads_back(value, quote, lookup);
    expanded_plain(Seq::empty(), second, lookup);
    expanded_plain(Seq::empty(), third, lookup);
    assert(read_command(command, lookup) =~= seq!["input"@, value, second, third]);
}

/// i3's string parser behind the opening quote: the text up to the closing
/// quote, with escaped quotes and backslashes taken literally, and what follows
/// the closing quote. None where no quote closes.
pub open spec fn i3_string(out: Seq<char>, rest: Seq<char>) -> Option<(Seq<char>, Seq<char>)>
    decreases rest.len(),
{
    if rest.len() == 0 {
        None
    } else if rest[0] == '"' {
        Some((out, rest.drop_first()))
    } else if rest[0] == '\\' && rest.len() > 1 {
        if rest[1] == '"' || rest[1] == '\\' {
            i3_string(out.push(rest[1]), rest.skip(2))
        } else {
            i3_string(out.push('\\').push(rest[1]), rest.skip(2))
        }
    } else {
        i3_string(out.push(rest[0]), rest.drop_first())
    }
}

spec fn i3_from(value: Seq<char>, i: int) -> Seq<char>
    decreases value.len() - i,
{
    if 0 <= i < value.len() {
        crate::sway_commands::i3_piece(value[i]) + i3_from(value, i + 1)
    } else {
        Seq::empty()
    }
}

proof fn i3_splits(value: Seq<char>, n: nat)
    requires
        n <= value.len(),
    ensures
        crate::sway_commands::i3_body(value, n) + i3_from(value, n as int) == i3_from(value, 0),
    decreases n,
{
    if n == 0 {
        assert(crate::sway_commands::i3_body(value, 0) + i3_from(value, 0) =~= i3_from(value, 0));
    } else {
        i3_splits(value, (n - 1) as nat);
        assert(crate::sway_commands::i3_body(value, n) + i3_from(value, n as int) =~= crate::sway_commands::i3_body(value, (n - 1) as nat)
            + i3_from(value, n - 1));
    }
}

proof fn i3_string_reads(value: Seq<char>, i: int)
    requires
        0 <= i <= value.len(),
    ensures
        i3_string(value.take(i), i3_from(value, i) + seq!['"']) == Some(
            (value, Seq::<char>::empty()),
        ),
    decreases value.len() - i,
{
    let rest = i3_from(value, i) + seq!['"'];
    if i == value.len() {
        assert(value.take(i) =~= value);
        assert(rest =~= seq!['"']);
        assert(rest.drop_first() =~= Seq::empty());
    } else {
        i3_string_reads(value, i + 1);
        let c = value[i];
        let next = i3_from(value, i + 1) + seq!['"'];
        assert(value.take(i).push(c) =~= value.take(i + 1));
        assert(rest =~= crate::sway_commands::i3_piece(c) + next);
        if c == '"' || c == '\\' {
            assert(rest[0] == '\\' && rest[1] == c);
            assert(rest.skip(2) =~= next);
        } else {
            assert(rest[0] == c);
            assert(rest.drop_first() =~= next);
        }
    }
}

/// Every accepted argument comes through i3's parser unchanged, and nothing
/// follows its closing quote.
pub proof fn i3_argument_round_trips(value: Seq<char>, quoted: Seq<char>)
    requires
        crate::sway_commands::i3_quoted(value) == Ok::<Seq<char>, CommandError>(quoted),
    ensures
        quoted.len() > 0,
        quoted[0] == '"',
        i3_string(Seq::empty(), quoted.drop_first()) == Some((value, Seq::<char>::empty())),
{
    i3_splits(value, value.len());
    i3_string_reads(value, 0);
    assert(value.take(0) =~= Seq::empty());
    assert(i3_from(value, value.len() as int) =~= Seq::empty());
    assert(crate::sway_commands::i3_body(value, value.len()) + Seq::<char>::empty() =~= crate::sway_commands::i3_body(value, value.len()));
    assert(quoted.drop_first() =~= crate::sway_commands::i3_body(value, value.len()) + seq!['"']);
}

} // verus!
