//! JSON string literals in their canonical form.
//!
//! A string is written between double quotes. The quote and the backslash
//! are written behind a backslash; the control characters below U+0020 are
//! written as `\b`, `\f`, `\n`, `\r`, `\t` where JSON has such a short form
//! and as `\u00` with two lower-case hex digits otherwise; every other
//! character is written as itself. The reader accepts that form and no
//! other spelling of the same string.

use vstd::prelude::*;
use crate::text::{stands_at, lemma_stands_split, lemma_stands_join};

verus! {

/// The lower-case hex digit for `d`, which is below sixteen.
pub open spec fn hex_char(d: nat) -> char {
    if d == 0 {
        '0'
    } else if d == 1 {
        '1'
    } else if d == 2 {
        '2'
    } else if d == 3 {
        '3'
    } else if d == 4 {
        '4'
    } else if d == 5 {
        '5'
    } else if d == 6 {
        '6'
    } else if d == 7 {
        '7'
    } else if d == 8 {
        '8'
    } else if d == 9 {
        '9'
    } else if d == 10 {
        'a'
    } else if d == 11 {
        'b'
    } else if d == 12 {
        'c'
    } else if d == 13 {
        'd'
    } else if d == 14 {
        'e'
    } else {
        'f'
    }
}

/// How one character is written inside a string literal.
pub open spec fn escape_of(c: char) -> Seq<char> {
    if c == '"' {
        seq!['\\', '"']
    } else if c == '\\' {
        seq!['\\', '\\']
    } else if c == '\u{8}' {
        seq!['\\', 'b']
    } else if c == '\u{c}' {
        seq!['\\', 'f']
    } else if c == '\n' {
        seq!['\\', 'n']
    } else if c == '\r' {
        seq!['\\', 'r']
    } else if c == '\t' {
        seq!['\\', 't']
    } else if (c as u32) < 0x20 {
        seq!['\\', 'u', '0', '0', hex_char((c as u32 / 16) as nat), hex_char((c as u32 % 16) as nat)]
    } else {
        seq![c]
    }
}

/// The characters of `s`, each written as inside a string literal.
pub open spec fn escaped(s: Seq<char>) -> Seq<char>
    decreases s.len(),
{
    if s.len() == 0 {
        Seq::empty()
    } else {
        escape_of(s[0]) + escaped(s.drop_first())
    }
}

/// The string literal for `s`.
pub open spec fn json_string(s: Seq<char>) -> Seq<char> {
    seq!['"'] + escaped(s) + seq!['"']
}

/// Escaping goes character by character, also from the end.
pub proof fn lemma_escaped_push(s: Seq<char>, c: char)
    ensures
        escaped(s.push(c)) == escaped(s) + escape_of(c),
    decreases s.len(),
{
    if s.len() == 0 {
        assert(s.push(c).drop_first() =~= Seq::<char>::empty());
        assert(escaped(Seq::<char>::empty()) =~= Seq::<char>::empty());
        assert(escaped(s.push(c)) =~= escaped(s) + escape_of(c));
    } else {
        lemma_escaped_push(s.drop_first(), c);
        assert(s.push(c).drop_first() =~= s.drop_first().push(c));
        assert(escaped(s.push(c)) =~= escaped(s) + escape_of(c));
    }
}

/// Where the rest of a string literal stands, either the closing quote
/// stands first, and the string has ended, or the next character of the
/// string stands there in its written form, which never opens with a quote.
proof fn lemma_literal_head(input: Seq<char>, i: int, e: int, rest: Seq<char>)
    requires
        stands_at(input, i, e, escaped(rest) + seq!['"']),
    ensures
        rest.len() == 0 ==> e == i + 1 && input[i] == '"',
        rest.len() > 0 ==> {
            &&& stands_at(input, i, i + escape_of(rest[0]).len(), escape_of(rest[0]))
            &&& stands_at(
                input,
                i + escape_of(rest[0]).len(),
                e,
                escaped(rest.drop_first()) + seq!['"'],
            )
            &&& input[i] == escape_of(rest[0])[0]
            &&& input[i] != '"'
        },
{
    if rest.len() == 0 {
        assert(escaped(rest) + seq!['"'] =~= seq!['"']);
        assert(input.subrange(i, e)[0] == input[i]);
    } else {
        let head = escape_of(rest[0]);
        let tail = escaped(rest.drop_first()) + seq!['"'];
        assert(escaped(rest) + seq!['"'] =~= head + tail);
        lemma_stands_split(input, i, e, head, tail);
        assert(input.subrange(i, i + head.len())[0] == input[i]);
    }
}

/// Appends `c` as written inside a string literal.
fn push_escaped(out: &mut Vec<char>, c: char)
    ensures
        final(out)@ == old(out)@ + escape_of(c),
{
    if c == '"' {
        out.push('\\');
        out.push('"');
    } else if c == '\\' {
        out.push('\\');
        out.push('\\');
    } else if c == '\u{8}' {
        out.push('\\');
        out.push('b');
    } else if c == '\u{c}' {
        out.push('\\');
        out.push('f');
    } else if c == '\n' {
        out.push('\\');
        out.push('n');
    } else if c == '\r' {
        out.push('\\');
        out.push('r');
    } else if c == '\t' {
        out.push('\\');
        out.push('t');
    } else if (c as u32) < 0x20 {
        out.push('\\');
        out.push('u');
        out.push('0');
        out.push('0');
        out.push(hex_of(c as u32 / 16));
        out.push(hex_of(c as u32 % 16));
    } else {
        out.push(c);
    }
    assert(out@ =~= old(out)@ + escape_of(c));
}

/// The lower-case hex digit of `d`.
fn hex_of(d: u32) -> (r: char)
    requires
        d < 16,
    ensures
        r == hex_char(d as nat),
{
    if d == 0 {
        '0'
    } else if d == 1 {
        '1'
    } else if d == 2 {
        '2'
    } else if d == 3 {
        '3'
    } else if d == 4 {
        '4'
    } else if d == 5 {
        '5'
    } else if d == 6 {
        '6'
    } else if d == 7 {
        '7'
    } else if d == 8 {
        '8'
    } else if d == 9 {
        '9'
    } else if d == 10 {
        'a'
    } else if d == 11 {
        'b'
    } else if d == 12 {
        'c'
    } else if d == 13 {
        'd'
    } else if d == 14 {
        'e'
    } else {
        'f'
    }
}

/// The number of a lower-case hex digit, if `c` is one.
fn hex_number(c: char) -> (r: Option<u32>)
    ensures
        match r {
            Some(d) => d < 16 && c == hex_char(d as nat),
            None => forall|d: nat| c != hex_char(d),
        },
{
    if '0' <= c && c <= '9' {
        Some(c as u32 - '0' as u32)
    } else if 'a' <= c && c <= 'f' {
        Some(c as u32 - 'a' as u32 + 10)
    } else {
        None
    }
}

/// Appends the string literal for `s`.
pub fn push_json_string(out: &mut Vec<char>, s: &str)
    ensures
        final(out)@ == old(out)@ + json_string(s@),
{
    let ghost start = out@;
    out.push('"');
    for c in it: s.chars()
        invariant
            it.seq() == s@,
            out@ == start + seq!['"'] + escaped(it.seq().take(it.index() as int)),
    {
        proof {
            lemma_escaped_push(it.seq().take(it.index() as int), c);
            assert(it.seq().take(it.index() + 1) =~= it.seq().take(it.index() as int).push(c));
        }
        push_escaped(out, c);
    }
    assert(s@.take(s@.len() as int) =~= s@);
    out.push('"');
    assert(out@ =~= start + json_string(s@));
}

/// The written form of the character `d` stands at `i`.
pub open spec fn written_at(input: Seq<char>, i: int, d: char) -> bool {
    stands_at(input, i, i + escape_of(d).len(), escape_of(d))
}

/// Whatever string literal stands at `pos`, the reader has taken the
/// characters `out` from it and the rest of the literal stands at `i`.
pub open spec fn literal_open(input: Seq<char>, pos: int, i: int, out: Seq<char>) -> bool {
    forall|t: Seq<char>, e: int| #[trigger]
        stands_at(input, pos, e, json_string(t)) ==> out.is_prefix_of(t) && stands_at(
            input,
            i,
            e,
            escaped(t.skip(out.len() as int)) + seq!['"'],
        )
}

/// The characters of a written form that stands at `i`, one by one.
proof fn lemma_written(input: Seq<char>, i: int, d: char)
    requires
        written_at(input, i, d),
    ensures
        i + escape_of(d).len() <= input.len(),
        input[i] == escape_of(d)[0],
        escape_of(d).len() >= 2 ==> input[i + 1] == escape_of(d)[1],
        escape_of(d).len() == 6 ==> {
            &&& input[i + 2] == escape_of(d)[2]
            &&& input[i + 3] == escape_of(d)[3]
            &&& input[i + 4] == escape_of(d)[4]
            &&& input[i + 5] == escape_of(d)[5]
        },
{
    let w = escape_of(d);
    let part = input.subrange(i, i + w.len());
    assert(part[0] == input[i]);
    if w.len() >= 2 {
        assert(part[1] == input[i + 1]);
    }
    if w.len() == 6 {
        assert(part[2] == input[i + 2]);
        assert(part[3] == input[i + 3]);
        assert(part[4] == input[i + 4]);
        assert(part[5] == input[i + 5]);
    }
}

/// A literal that stands at `pos` opens with a quote, and its rest stands
/// behind it.
proof fn lemma_literal_start(input: Seq<char>, pos: int)
    ensures
        (pos >= input.len() || input[pos] != '"') ==> forall|t: Seq<char>, e: int|
            !stands_at(input, pos, e, json_string(t)),
        literal_open(input, pos, pos + 1, Seq::empty()),
{
    assert forall|t: Seq<char>, e: int| #[trigger]
        stands_at(input, pos, e, json_string(t)) implies pos < input.len() && input[pos] == '"'
        && stands_at(input, pos + 1, e, escaped(t.skip(0)) + seq!['"']) by {
        assert(json_string(t) =~= seq!['"'] + (escaped(t) + seq!['"']));
        lemma_stands_split(input, pos, e, seq!['"'], escaped(t) + seq!['"']);
        assert(input.subrange(pos, pos + 1)[0] == input[pos]);
        assert(t.skip(0) =~= t);
    }
}

/// Once the written form of `c`, and of no other character, stands at `i`,
/// the reader may take `c` and go on behind it.
proof fn lemma_literal_step(input: Seq<char>, pos: int, i: int, out: Seq<char>, c: char)
    requires
        literal_open(input, pos, i, out),
        written_at(input, i, c),
        forall|d: char| written_at(input, i, d) ==> d == c,
    ensures
        literal_open(input, pos, i + escape_of(c).len(), out.push(c)),
{
    lemma_written(input, i, c);
    assert forall|t: Seq<char>, e: int| #[trigger]
        stands_at(input, pos, e, json_string(t)) implies out.push(c).is_prefix_of(t) && stands_at(
        input,
        i + escape_of(c).len(),
        e,
        escaped(t.skip(out.push(c).len() as int)) + seq!['"'],
    ) by {
        let rest = t.skip(out.len() as int);
        lemma_literal_head(input, i, e, rest);
        assert(rest.len() > 0);
        assert(written_at(input, i, rest[0]));
        assert(rest[0] == t[out.len() as int]);
        assert(rest.drop_first() =~= t.skip(out.len() as int + 1));
        assert(out.push(c) =~= t.subrange(0, out.len() as int + 1));
    }
}

/// At a quote the literal ends: it is the literal of the characters taken.
proof fn lemma_literal_end(input: Seq<char>, pos: int, i: int, out: Seq<char>)
    requires
        literal_open(input, pos, i, out),
        0 <= i < input.len(),
        input[i] == '"',
    ensures
        forall|t: Seq<char>, e: int| #[trigger]
            stands_at(input, pos, e, json_string(t)) ==> t == out && e == i + 1,
{
    assert forall|t: Seq<char>, e: int| #[trigger]
        stands_at(input, pos, e, json_string(t)) implies t == out && e == i + 1 by {
        let rest = t.skip(out.len() as int);
        lemma_literal_head(input, i, e, rest);
        assert(t =~= out);
    }
}

/// Where neither a quote nor the written form of any character stands, no
/// literal stands at `pos`.
proof fn lemma_literal_stuck(input: Seq<char>, pos: int, i: int, out: Seq<char>)
    requires
        literal_open(input, pos, i, out),
        0 <= i,
        i >= input.len() || input[i] != '"',
        forall|d: char| !written_at(input, i, d),
    ensures
        forall|t: Seq<char>, e: int| !stands_at(input, pos, e, json_string(t)),
{
    assert forall|t: Seq<char>, e: int| !stands_at(input, pos, e, json_string(t)) by {
        if stands_at(input, pos, e, json_string(t)) {
            let rest = t.skip(out.len() as int);
            lemma_literal_head(input, i, e, rest);
            if rest.len() > 0 {
                assert(written_at(input, i, rest[0]));
            }
        }
    }
}

/// Different numbers below sixteen have different hex digits.
proof fn lemma_hex_chars_differ(a: nat, b: nat)
    requires
        a < 16,
        b < 16,
        hex_char(a) == hex_char(b),
    ensures
        a == b,
{
}

/// The control character with the number `v`.
fn control_char(v: u32) -> (r: char)
    requires
        v < 0x20,
    ensures
        r as u32 == v,
{
    v as u8 as char
}

/// Reads the string literal that stands at `pos`, and gives the string and
/// the position after the closing quote. Only the canonical form is read: a
/// bare control character, an escape that the writer would not produce and
/// a literal without its closing quote are refused.
pub fn parse_json_string(input: &Vec<char>, pos: usize) -> (r: Option<(String, usize)>)
    ensures
        r matches Some((s, end)) ==> stands_at(input@, pos as int, end as int, json_string(s@)),
        forall|t: Seq<char>, e: int| #[trigger]
            stands_at(input@, pos as int, e, json_string(t)) ==> (r matches Some((s, end)) && s@
                == t && end == e),
{
    let ghost text = input@;
    proof {
        lemma_literal_start(text, pos as int);
    }
    if pos >= input.len() || input[pos] != '"' {
        return None;
    }
    let mut out = String::new();
    let mut i: usize = pos + 1;
    proof {
        assert(text.subrange(pos + 1, i as int) =~= escaped(out@));
    }
    while i < input.len()
        invariant
            text == input@,
            pos < i <= input.len(),
            text[pos as int] == '"',
            stands_at(text, pos + 1, i as int, escaped(out@)),
            literal_open(text, pos as int, i as int, out@),
        decreases input.len() - i,
    {
        let c = input[i];
        if c == '"' {
            proof {
                lemma_literal_end(text, pos as int, i as int, out@);
                assert(text.subrange(pos as int, pos + 1) =~= seq!['"']);
                assert(text.subrange(i as int, i + 1) =~= seq!['"']);
                lemma_stands_join(text, pos as int, pos + 1, i as int, seq!['"'], escaped(out@));
                lemma_stands_join(
                    text,
                    pos as int,
                    i as int,
                    i + 1,
                    seq!['"'] + escaped(out@),
                    seq!['"'],
                );
            }
            return Some((out, i + 1));
        }
        let taken: char;
        let width: usize;
        if c == '\\' {
            if i + 1 >= input.len() {
                proof {
                    assert forall|d: char| !written_at(text, i as int, d) by {
                        if written_at(text, i as int, d) {
                            lemma_written(text, i as int, d);
                        }
                    }
                    lemma_literal_stuck(text, pos as int, i as int, out@);
                }
                return None;
            }
            let e = input[i + 1];
            if e == 'u' {
                if input.len() - i <= 5 || input[i + 2] != '0' || input[i + 3] != '0' {
                    proof {
                        assert forall|d: char| !written_at(text, i as int, d) by {
                            if written_at(text, i as int, d) {
                                lemma_written(text, i as int, d);
                            }
                        }
                        lemma_literal_stuck(text, pos as int, i as int, out@);
                    }
                    return None;
                }
                let high = hex_number(input[i + 4]);
                let low = hex_number(input[i + 5]);
                let v: u32 = match (high, low) {
                    (Some(a), Some(b)) => a * 16 + b,
                    _ => 0x20,
                };
                proof {
                    assert forall|d: char| written_at(text, i as int, d) implies d as u32 == v
                        && v < 0x20 && v != 8 && v != 9 && v != 10 && v != 12 && v != 13 by {
                        lemma_written(text, i as int, d);
                        let hi = (d as u32 / 16) as nat;
                        let lo = (d as u32 % 16) as nat;
                        assert(text[i + 4] == hex_char(hi));
                        assert(text[i + 5] == hex_char(lo));
                        assert(high is Some && low is Some);
                        lemma_hex_chars_differ(high.unwrap() as nat, hi);
                        lemma_hex_chars_differ(low.unwrap() as nat, lo);
                        assert(d as u32 == v);
                        assert(escape_of(d).len() == 6);
                        assert(d != '\u{8}' && d != '\t' && d != '\n' && d != '\u{c}' && d != '\r');
                        assert('\u{8}' as u32 == 8 && '\t' as u32 == 9 && '\n' as u32 == 10
                            && '\u{c}' as u32 == 12 && '\r' as u32 == 13);
                        vstd::utf8::char_u32_cast(d, v);
                    }
                }
                if v >= 0x20 || v == 8 || v == 9 || v == 10 || v == 12 || v == 13 {
                    proof {
                        lemma_literal_stuck(text, pos as int, i as int, out@);
                    }
                    return None;
                }
                taken = control_char(v);
                width = 6;
                proof {
                    assert forall|d: char| written_at(text, i as int, d) implies d == taken by {
                        vstd::utf8::char_u32_cast(d, v);
                        vstd::utf8::char_u32_cast(taken, v);
                    }
                }
            } else {
                if e == '"' {
                    taken = '"';
                } else if e == '\\' {
                    taken = '\\';
                } else if e == 'b' {
                    taken = '\u{8}';
                } else if e == 'f' {
                    taken = '\u{c}';
                } else if e == 'n' {
                    taken = '\n';
                } else if e == 'r' {
                    taken = '\r';
                } else if e == 't' {
                    taken = '\t';
                } else {
                    proof {
                        assert forall|d: char| !written_at(text, i as int, d) by {
                            if written_at(text, i as int, d) {
                                lemma_written(text, i as int, d);
                            }
                        }
                        lemma_literal_stuck(text, pos as int, i as int, out@);
                    }
                    return None;
                }
                width = 2;
                proof {
                    assert forall|d: char| written_at(text, i as int, d) implies d == taken by {
                        lemma_written(text, i as int, d);
                    }
                }
            }
        } else if (c as u32) < 0x20 {
            proof {
                assert forall|d: char| !written_at(text, i as int, d) by {
                    if written_at(text, i as int, d) {
                        lemma_written(text, i as int, d);
                    }
                }
                lemma_literal_stuck(text, pos as int, i as int, out@);
            }
            return None;
        } else {
            taken = c;
            width = 1;
            proof {
                assert forall|d: char| written_at(text, i as int, d) implies d == taken by {
                    lemma_written(text, i as int, d);
                }
            }
        }
        proof {
            assert(width == escape_of(taken).len());
            assert(text.subrange(i as int, i + width) =~= escape_of(taken));
            lemma_literal_step(text, pos as int, i as int, out@, taken);
            lemma_escaped_push(out@, taken);
            lemma_stands_join(
                text,
                pos + 1,
                i as int,
                i + width,
                escaped(out@),
                escape_of(taken),
            );
        }
        out.push(taken);
        i = i + width;
    }
    proof {
        assert forall|d: char| !written_at(text, i as int, d) by {
            if written_at(text, i as int, d) {
                lemma_written(text, i as int, d);
            }
        }
        lemma_literal_stuck(text, pos as int, i as int, out@);
    }
    None
}

} // verus!
