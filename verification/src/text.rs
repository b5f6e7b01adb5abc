//! Strings as character lists, and decimal numbers.

use vstd::prelude::*;

verus! {

/// The characters of `s`, in order.
pub fn chars_of(s: &str) -> (r: Vec<char>)
    ensures
        r@ == s@,
{
    let mut out: Vec<char> = Vec::new();
    for c in it: s.chars()
        invariant
            it.seq() == s@,
            out@ == it.seq().take(it.index() as int),
    {
        assert(it.seq().take(it.index() + 1) =~= it.seq().take(it.index() as int).push(c));
        out.push(c);
    }
    assert(s@.take(s@.len() as int) =~= s@);
    out
}

/// The string made of the characters of `v`.
pub fn string_of(v: &Vec<char>) -> (r: String)
    ensures
        r@ == v@,
{
    let mut out = String::new();
    let mut i: usize = 0;
    while i < v.len()
        invariant
            i <= v.len(),
            out@ == v@.take(i as int),
        decreases v.len() - i,
    {
        out.push(v[i]);
        assert(v@.take(i + 1) =~= v@.take(i as int).push(v@[i as int]));
        i = i + 1;
    }
    assert(v@.take(i as int) =~= v@);
    out
}

/// `text` stands in `input` from position `pos` up to position `end`.
pub open spec fn stands_at(input: Seq<char>, pos: int, end: int, text: Seq<char>) -> bool {
    0 <= pos <= end <= input.len() && input.subrange(pos, end) == text
}

/// A text that stands in `input` splits where its first part ends.
pub proof fn lemma_stands_split(input: Seq<char>, pos: int, end: int, x: Seq<char>, y: Seq<char>)
    requires
        stands_at(input, pos, end, x + y),
    ensures
        stands_at(input, pos, pos + x.len(), x),
        stands_at(input, pos + x.len(), end, y),
{
    let whole = input.subrange(pos, end);
    assert(whole.len() == x.len() + y.len());
    assert(input.subrange(pos, pos + x.len()) =~= whole.subrange(0, x.len() as int));
    assert(whole.subrange(0, x.len() as int) =~= x);
    assert(input.subrange(pos + x.len(), end) =~= whole.subrange(x.len() as int, whole.len() as int));
    assert(whole.subrange(x.len() as int, whole.len() as int) =~= y);
}

/// A text fills `input` exactly when it is `input`.
pub proof fn lemma_stands_whole(input: Seq<char>, text: Seq<char>)
    ensures
        stands_at(input, 0, input.len() as int, text) <==> input == text,
{
    assert(input.subrange(0, input.len() as int) =~= input);
}

/// Appending two texts one after the other appends their concatenation.
pub proof fn lemma_concat_assoc(a: Seq<char>, b: Seq<char>, c: Seq<char>)
    ensures
        (a + b) + c == a + (b + c),
{
    assert((a + b) + c =~= a + (b + c));
}

/// Two texts that stand one after the other stand there as one.
pub proof fn lemma_stands_join(
    input: Seq<char>,
    pos: int,
    mid: int,
    end: int,
    x: Seq<char>,
    y: Seq<char>,
)
    requires
        stands_at(input, pos, mid, x),
        stands_at(input, mid, end, y),
    ensures
        stands_at(input, pos, end, x + y),
{
    assert(input.subrange(pos, end) =~= input.subrange(pos, mid) + input.subrange(mid, end));
}

/// Reads the fixed text `lit` at `pos`, and gives the position after it.
pub fn expect(input: &Vec<char>, pos: usize, lit: &str) -> (r: Option<usize>)
    ensures
        match r {
            Some(end) => end == pos + lit@.len() && stands_at(input@, pos as int, end as int, lit@),
            None => forall|e: int| !stands_at(input@, pos as int, e, lit@),
        },
{
    let want = chars_of(lit);
    if pos > input.len() || want.len() > input.len() - pos {
        return None;
    }
    let mut k: usize = 0;
    while k < want.len()
        invariant
            k <= want.len(),
            want@ == lit@,
            pos + want.len() <= input.len(),
            forall|j: int| 0 <= j < k ==> input@[pos + j] == want@[j],
        decreases want.len() - k,
    {
        if input[pos + k] != want[k] {
            assert forall|e: int| !stands_at(input@, pos as int, e, lit@) by {
                if stands_at(input@, pos as int, e, lit@) {
                    assert(input@.subrange(pos as int, e)[k as int] == want@[k as int]);
                }
            }
            return None;
        }
        k = k + 1;
    }
    assert(input@.subrange(pos as int, pos + want.len()) =~= lit@);
    Some(pos + want.len())
}

/// Appends the characters of `lit`.
pub fn push_text(out: &mut Vec<char>, lit: &str)
    ensures
        final(out)@ == old(out)@ + lit@,
{
    let ghost start = out@;
    for c in it: lit.chars()
        invariant
            it.seq() == lit@,
            out@ == start + it.seq().take(it.index() as int),
    {
        assert(it.seq().take(it.index() + 1) =~= it.seq().take(it.index() as int).push(c));
        out.push(c);
    }
    assert(lit@.take(lit@.len() as int) =~= lit@);
}

/// `c` is one of the ten decimal digits.
pub open spec fn is_digit(c: char) -> bool {
    '0' <= c <= '9'
}

/// The number that a decimal digit stands for.
pub open spec fn digit_value(c: char) -> nat {
    (c as u32 - '0' as u32) as nat
}

/// The decimal digit for `d`, which is below ten.
pub open spec fn digit_char(d: nat) -> char {
    if d == 0 {
        '0'
    } else if d == 1 {
        '1'
    } else if d == 2 {
        '2'
    } else if d == 3 {
        '3'
    } else if d == 4 {
        '4'
    } else if d == 5 {
        '5'
    } else if d == 6 {
        '6'
    } else if d == 7 {
        '7'
    } else if d == 8 {
        '8'
    } else {
        '9'
    }
}

/// `n` in decimal, without sign or leading zeros.
pub open spec fn decimal(n: nat) -> Seq<char>
    decreases n,
{
    if n < 10 {
        seq![digit_char(n)]
    } else {
        decimal(n / 10).push(digit_char(n % 10))
    }
}

/// The number that a run of decimal digits stands for.
pub open spec fn digits_value(s: Seq<char>) -> nat
    decreases s.len(),
{
    if s.len() == 0 {
        0
    } else {
        digits_value(s.drop_last()) * 10 + digit_value(s.last())
    }
}

/// Every character of `s` is a decimal digit.
pub open spec fn all_digits(s: Seq<char>) -> bool {
    forall|k: int| 0 <= k < s.len() ==> is_digit(#[trigger] s[k])
}

/// A decimal numeral is a non-empty run of digits that opens with zero only
/// when it is the one digit zero, and it stands for its number.
pub proof fn lemma_decimal(n: nat)
    ensures
        decimal(n).len() >= 1,
        all_digits(decimal(n)),
        decimal(n)[0] == '0' ==> n == 0 && decimal(n).len() == 1,
        digits_value(decimal(n)) == n,
    decreases n,
{
    assert(digits_value(Seq::<char>::empty()) == 0);
    if n < 10 {
        assert(decimal(n).drop_last() =~= Seq::<char>::empty());
    } else {
        lemma_decimal(n / 10);
        assert(decimal(n).drop_last() =~= decimal(n / 10));
    }
}

/// A run of digits without a leading zero is the decimal numeral of the
/// number it stands for.
pub proof fn lemma_digits_are_decimal(s: Seq<char>)
    requires
        s.len() >= 1,
        all_digits(s),
        s[0] == '0' ==> s.len() == 1,
    ensures
        decimal(digits_value(s)) == s,
        s[0] != '0' ==> digits_value(s) >= 1,
    decreases s.len(),
{
    let d = digit_value(s.last());
    assert(is_digit(s.last()));
    assert(digits_value(Seq::<char>::empty()) == 0);
    if s.len() == 1 {
        assert(s.drop_last() =~= Seq::<char>::empty());
        assert(digits_value(s) == d);
        assert(decimal(d) =~= s);
    } else {
        let front = s.drop_last();
        assert(front[0] == s[0]);
        assert forall|k: int| 0 <= k < front.len() implies is_digit(#[trigger] front[k]) by {
            assert(front[k] == s[k]);
        }
        lemma_digits_are_decimal(front);
        let v = digits_value(front);
        assert(digits_value(s) == v * 10 + d);
        assert((v * 10 + d) / 10 == v && (v * 10 + d) % 10 == d) by (nonlinear_arith)
            requires
                0 <= d < 10,
                v >= 1,
        ;
        assert(decimal(digits_value(s)) =~= s);
    }
}

/// The number of a run of digits is at least that of each run that opens it.
pub proof fn lemma_digits_value_grows(s: Seq<char>, k: int)
    requires
        0 <= k <= s.len(),
    ensures
        digits_value(s.take(k)) <= digits_value(s),
    decreases s.len(),
{
    if k == s.len() {
        assert(s.take(k) =~= s);
    } else {
        assert(s.drop_last().take(k) =~= s.take(k));
        lemma_digits_value_grows(s.drop_last(), k);
    }
}

/// `text` stands at `pos` and no digit follows it.
pub open spec fn number_at(input: Seq<char>, pos: int, end: int, text: Seq<char>) -> bool {
    stands_at(input, pos, end, text) && (end < input.len() ==> !is_digit(input[end]))
}

/// A numeral that stands where digits run from `pos` up to `i` covers that
/// run; it ends with the run where the run cannot go on.
proof fn lemma_numeral_covers_run(input: Seq<char>, pos: int, i: int, m: nat, e: int)
    requires
        0 <= pos <= i <= input.len(),
        all_digits(input.subrange(pos, i)),
        number_at(input, pos, e, decimal(m)),
    ensures
        e >= i,
        e > pos,
        (i < input.len() ==> !is_digit(input[i])) ==> e == i,
{
    lemma_decimal(m);
    if e < i {
        assert(input.subrange(pos, i)[e - pos] == input[e]);
    }
    if i < e {
        assert(input.subrange(pos, e)[i - pos] == input[i]);
        assert(is_digit(decimal(m)[i - pos]));
    }
}

/// Whether `c` is a decimal digit.
pub fn is_digit_char(c: char) -> (r: bool)
    ensures
        r == is_digit(c),
{
    '0' <= c && c <= '9'
}

/// The number of the decimal digit `c`.
fn digit_number(c: char) -> (r: u64)
    requires
        is_digit(c),
    ensures
        r == digit_value(c),
        r < 10,
{
    (c as u32 - '0' as u32) as u64
}

/// The decimal digit of `d`.
fn digit_of(d: u128) -> (r: char)
    requires
        d < 10,
    ensures
        r == digit_char(d as nat),
{
    if d == 0 {
        '0'
    } else if d == 1 {
        '1'
    } else if d == 2 {
        '2'
    } else if d == 3 {
        '3'
    } else if d == 4 {
        '4'
    } else if d == 5 {
        '5'
    } else if d == 6 {
        '6'
    } else if d == 7 {
        '7'
    } else if d == 8 {
        '8'
    } else {
        '9'
    }
}

/// Appends `n` in decimal.
pub fn push_decimal(out: &mut Vec<char>, n: u128)
    ensures
        final(out)@ == old(out)@ + decimal(n as nat),
    decreases n,
{
    if n >= 10 {
        push_decimal(out, n / 10);
    }
    out.push(digit_of(n % 10));
    assert(out@ =~= old(out)@ + decimal(n as nat));
}

/// Reads at `pos` the decimal numeral of a number up to `max`, taking every
/// digit that stands there. A numeral with a leading zero, one above `max`,
/// or no digit at all is refused.
pub fn parse_decimal(input: &Vec<char>, pos: usize, max: u64) -> (r: Option<(u64, usize)>)
    ensures
        r matches Some((n, end)) ==> n <= max && number_at(
            input@,
            pos as int,
            end as int,
            decimal(n as nat),
        ),
        forall|m: nat, e: int|
            m <= max && #[trigger] number_at(input@, pos as int, e, decimal(m)) ==> r == Some(
                (m as u64, e as usize),
            ),
{
    if pos >= input.len() || !is_digit_char(input[pos]) {
        assert forall|m: nat, e: int|
            m <= max && #[trigger] number_at(input@, pos as int, e, decimal(m)) implies false by {
            lemma_decimal(m);
            assert(input@.subrange(pos as int, e)[0] == input@[pos as int]);
        }
        return None;
    }
    let mut acc: u64 = digit_number(input[pos]);
    let mut i: usize = pos + 1;
    let ghost text = input@;
    proof {
        assert(text.subrange(pos as int, i as int) =~= seq![text[pos as int]]);
        assert(seq![text[pos as int]].drop_last() =~= Seq::<char>::empty());
        assert(digits_value(Seq::<char>::empty()) == 0);
    }
    if input[pos] == '0' && i < input.len() && is_digit_char(input[i]) {
        assert forall|m: nat, e: int|
            m <= max && #[trigger] number_at(text, pos as int, e, decimal(m)) implies false by {
            lemma_decimal(m);
            assert(text.subrange(pos as int, i + 1) =~= seq![text[pos as int], text[i as int]]);
            lemma_numeral_covers_run(text, pos as int, i + 1, m, e);
            assert(text.subrange(pos as int, e)[0] == text[pos as int]);
        }
        return None;
    }
    if acc > max {
        assert forall|m: nat, e: int|
            m <= max && #[trigger] number_at(text, pos as int, e, decimal(m)) implies false by {
            lemma_decimal(m);
            lemma_numeral_covers_run(text, pos as int, i as int, m, e);
            lemma_digits_value_grows(decimal(m), 1);
            assert(decimal(m).take(1) =~= text.subrange(pos as int, i as int));
        }
        return None;
    }
    while i < input.len() && is_digit_char(input[i])
        invariant
            text == input@,
            pos < i <= input.len(),
            all_digits(text.subrange(pos as int, i as int)),
            acc == digits_value(text.subrange(pos as int, i as int)),
            acc <= max,
            text[pos as int] == '0' ==> i == pos + 1 && (i < input.len() ==> !is_digit(
                text[i as int],
            )),
        decreases input.len() - i,
    {
        let d = digit_number(input[i]);
        let ghost longer = text.subrange(pos as int, i + 1);
        proof {
            assert(longer.drop_last() =~= text.subrange(pos as int, i as int));
            assert(longer.last() == text[i as int]);
            assert forall|k: int| 0 <= k < longer.len() implies is_digit(#[trigger] longer[k]) by {
                if k < longer.len() - 1 {
                    assert(longer[k] == text.subrange(pos as int, i as int)[k]);
                }
            }
        }
        if acc > max / 10 || d > max - acc * 10 {
            assert forall|m: nat, e: int|
                m <= max && #[trigger] number_at(text, pos as int, e, decimal(m)) implies false by {
                lemma_decimal(m);
                lemma_numeral_covers_run(text, pos as int, i + 1, m, e);
                lemma_digits_value_grows(decimal(m), i + 1 - pos);
                assert(decimal(m).take(i + 1 - pos) =~= longer);
            }
            return None;
        }
        acc = acc * 10 + d;
        i = i + 1;
    }
    proof {
        let run = text.subrange(pos as int, i as int);
        assert(run[0] == text[pos as int]);
        lemma_digits_are_decimal(run);
        assert forall|m: nat, e: int|
            m <= max && #[trigger] number_at(text, pos as int, e, decimal(m)) implies Some(
            (acc, i),
        ) == Some((m as u64, e as usize)) by {
            lemma_decimal(m);
            lemma_numeral_covers_run(text, pos as int, i as int, m, e);
        }
    }
    Some((acc, i))
}

/// `i` in decimal, with a minus sign before a negative number.
pub open spec fn integer_text(i: int) -> Seq<char> {
    if i < 0 {
        seq!['-'] + decimal((-i) as nat)
    } else {
        decimal(i as nat)
    }
}

/// Appends `i` in decimal.
pub fn push_integer(out: &mut Vec<char>, i: i64)
    ensures
        final(out)@ == old(out)@ + integer_text(i as int),
{
    if i < 0 {
        out.push('-');
        let magnitude: u128 = (-(i + 1)) as u128 + 1;
        push_decimal(out, magnitude);
        assert(out@ =~= old(out)@ + integer_text(i as int));
    } else {
        push_decimal(out, i as u128);
    }
}

/// Reads at `pos` the decimal numeral of a 64-bit signed number, taking
/// every digit that stands there. A leading zero, a minus sign before zero
/// and a number out of range are refused.
pub fn parse_integer(input: &Vec<char>, pos: usize) -> (r: Option<(i64, usize)>)
    ensures
        r matches Some((v, end)) ==> number_at(
            input@,
            pos as int,
            end as int,
            integer_text(v as int),
        ),
        forall|w: i64, e: int| #[trigger]
            number_at(input@, pos as int, e, integer_text(w as int)) ==> r == Some(
                (w, e as usize),
            ),
{
    let ghost text = input@;
    if pos < input.len() && input[pos] == '-' {
        let r = parse_decimal(input, pos + 1, 0x8000_0000_0000_0000);
        proof {
            assert forall|w: i64, e: int| #[trigger]
                number_at(text, pos as int, e, integer_text(w as int)) implies w < 0 && number_at(
                text,
                pos + 1,
                e,
                decimal((-w) as nat),
            ) by {
                if w >= 0 {
                    lemma_decimal(w as nat);
                    assert(text.subrange(pos as int, e)[0] == text[pos as int]);
                } else {
                    lemma_stands_split(text, pos as int, e, seq!['-'], decimal((-w) as nat));
                }
            }
        }
        match r {
            Some((n, end)) => {
                if n == 0 {
                    return None;
                }
                let v: i64 = if n == 0x8000_0000_0000_0000 {
                    i64::MIN
                } else {
                    -(n as i64)
                };
                proof {
                    assert(text.subrange(pos as int, pos + 1) =~= seq!['-']);
                    lemma_stands_join(
                        text,
                        pos as int,
                        pos + 1,
                        end as int,
                        seq!['-'],
                        decimal(n as nat),
                    );
                }
                Some((v, end))
            },
            None => None,
        }
    } else {
        let r = parse_decimal(input, pos, 0x7fff_ffff_ffff_ffff);
        proof {
            assert forall|w: i64, e: int| #[trigger]
                number_at(text, pos as int, e, integer_text(w as int)) implies w >= 0 by {
                if w < 0 {
                    lemma_stands_split(text, pos as int, e, seq!['-'], decimal((-w) as nat));
                    assert(text.subrange(pos as int, pos + 1)[0] == text[pos as int]);
                }
            }
        }
        match r {
            Some((n, end)) => Some((n as i64, end)),
            None => None,
        }
    }
}

} // verus!
