//! The envelope as text.
//!
//! An envelope is one JSON object with the members `fmt`, `v`, `salt`,
//! `nonce` and `ciphertext`, in this order. It is written without white
//! space. It is read with any white space that JSON allows between its
//! tokens, before the first and behind the last; in every other respect the
//! reader accepts the written form and nothing else.

use vstd::prelude::*;
use crate::json::{json_string, parse_json_string, push_json_string};
use crate::models::{ExportFile, ExportFileView};
use crate::text::{
    chars_of, decimal, expect, is_digit, lemma_concat_assoc, lemma_decimal, lemma_stands_split,
    lemma_stands_whole, number_at, parse_decimal, push_decimal, push_text, stands_at, string_of,
};

verus! {

/// The white space of JSON: space, tab, line feed, carriage return.
pub open spec fn is_space(c: char) -> bool {
    c == ' ' || c == '\t' || c == '\n' || c == '\r'
}

/// From `pos` up to `p` there is nothing but white space.
pub open spec fn gap(input: Seq<char>, pos: int, p: int) -> bool {
    0 <= pos <= p <= input.len() && forall|k: int| pos <= k < p ==> is_space(#[trigger] input[k])
}

/// The tokens from the `k`-th on stand in `input` from `pos` to its end, in
/// order, with white space before each and behind the last, and nothing
/// else.
pub open spec fn spells(input: Seq<char>, pos: int, tokens: Seq<Seq<char>>, k: int) -> bool
    decreases tokens.len() - k,
{
    if k < 0 || k >= tokens.len() {
        gap(input, pos, input.len() as int)
    } else {
        exists|p: int|
            #[trigger] gap(input, pos, p) && stands_at(input, p, p + tokens[k].len(), tokens[k])
                && spells(input, p + tokens[k].len(), tokens, k + 1)
    }
}

/// The `k`-th token of an envelope.
pub open spec fn envelope_token(e: ExportFileView, k: int) -> Seq<char> {
    if k == 0 {
        "{"@
    } else if k == 1 {
        "\"fmt\""@
    } else if k == 2 {
        ":"@
    } else if k == 3 {
        json_string(e.fmt)
    } else if k == 4 {
        ","@
    } else if k == 5 {
        "\"v\""@
    } else if k == 6 {
        ":"@
    } else if k == 7 {
        decimal(e.v as nat)
    } else if k == 8 {
        ","@
    } else if k == 9 {
        "\"salt\""@
    } else if k == 10 {
        ":"@
    } else if k == 11 {
        json_string(e.salt)
    } else if k == 12 {
        ","@
    } else if k == 13 {
        "\"nonce\""@
    } else if k == 14 {
        ":"@
    } else if k == 15 {
        json_string(e.nonce)
    } else if k == 16 {
        ","@
    } else if k == 17 {
        "\"ciphertext\""@
    } else if k == 18 {
        ":"@
    } else if k == 19 {
        json_string(e.ciphertext)
    } else {
        "}"@
    }
}

/// The tokens of an envelope: braces, member names, colons, commas and
/// values.
pub open spec fn envelope_tokens(e: ExportFileView) -> Seq<Seq<char>> {
    Seq::new(21, |k: int| envelope_token(e, k))
}

/// `text` spells the envelope `e`: it holds the tokens of `e`, with white
/// space between them at most.
pub open spec fn envelope_spelled(text: Seq<char>, e: ExportFileView) -> bool {
    spells(text, 0, envelope_tokens(e), 0)
}

/// The text of an envelope as it is written: its tokens without white
/// space.
pub open spec fn envelope_text(e: ExportFileView) -> Seq<char> {
    "{"@
        + "\"fmt\""@
        + ":"@
        + json_string(e.fmt)
        + ","@
        + "\"v\""@
        + ":"@
        + decimal(e.v as nat)
        + ","@
        + "\"salt\""@
        + ":"@
        + json_string(e.salt)
        + ","@
        + "\"nonce\""@
        + ":"@
        + json_string(e.nonce)
        + ","@
        + "\"ciphertext\""@
        + ":"@
        + json_string(e.ciphertext)
        + "}"@
}

/// No token is empty or opens with white space, and only the version opens
/// with a digit.
proof fn lemma_token_opens(e: ExportFileView, k: int)
    requires
        0 <= k < 21,
    ensures
        envelope_token(e, k).len() > 0,
        !is_space(envelope_token(e, k)[0]),
        k != 7 ==> !is_digit(envelope_token(e, k)[0]),
        envelope_tokens(e)[k] == envelope_token(e, k),
        envelope_tokens(e).len() == 21,
{
    reveal_strlit("\"ciphertext\"");
    reveal_strlit("\"fmt\"");
    reveal_strlit("\"nonce\"");
    reveal_strlit("\"salt\"");
    reveal_strlit("\"v\"");
    reveal_strlit(",");
    reveal_strlit(":");
    reveal_strlit("{");
    reveal_strlit("}");
    lemma_decimal(e.v as nat);
    assert(json_string(e.fmt)[0] == '"');
    assert(json_string(e.salt)[0] == '"');
    assert(json_string(e.nonce)[0] == '"');
    assert(json_string(e.ciphertext)[0] == '"');
}

/// Where tokens are spelled from `pos` on and `p` is the first place behind
/// `pos` without white space, the next token stands at `p` and the others
/// are spelled behind it.
proof fn lemma_spell_head(input: Seq<char>, pos: int, p: int, tokens: Seq<Seq<char>>, k: int)
    requires
        spells(input, pos, tokens, k),
        0 <= k < tokens.len(),
        tokens[k].len() > 0,
        !is_space(tokens[k][0]),
        gap(input, pos, p),
        p < input.len() ==> !is_space(input[p]),
    ensures
        stands_at(input, p, p + tokens[k].len(), tokens[k]),
        spells(input, p + tokens[k].len(), tokens, k + 1),
{
    let c = choose|c: int|
        #[trigger] gap(input, pos, c) && stands_at(input, c, c + tokens[k].len(), tokens[k])
            && spells(input, c + tokens[k].len(), tokens, k + 1);
    assert(input.subrange(c, c + tokens[k].len())[0] == input[c]);
    if c < p {
        assert(is_space(input[c]));
    }
    if p < c {
        assert(is_space(input[p]));
    }
}

/// Where tokens are spelled from `pos` on and the next of them opens with
/// no digit, no digit stands at `pos`.
proof fn lemma_spell_no_digit(input: Seq<char>, pos: int, tokens: Seq<Seq<char>>, k: int)
    requires
        spells(input, pos, tokens, k),
        0 <= k < tokens.len(),
        tokens[k].len() > 0,
        !is_digit(tokens[k][0]),
    ensures
        pos < input.len(),
        !is_digit(input[pos]),
{
    let c = choose|c: int|
        #[trigger] gap(input, pos, c) && stands_at(input, c, c + tokens[k].len(), tokens[k])
            && spells(input, c + tokens[k].len(), tokens, k + 1);
    assert(input.subrange(c, c + tokens[k].len())[0] == input[c]);
    if pos < c {
        assert(is_space(input[pos]));
    }
}

/// A token behind white space, with the other tokens spelled behind it,
/// makes a spelling.
proof fn lemma_spell_build(input: Seq<char>, pos: int, p: int, tokens: Seq<Seq<char>>, k: int)
    requires
        0 <= k < tokens.len(),
        gap(input, pos, p),
        stands_at(input, p, p + tokens[k].len(), tokens[k]),
        spells(input, p + tokens[k].len(), tokens, k + 1),
    ensures
        spells(input, pos, tokens, k),
{
}

/// Each token of `e` stands in `input` at its place, one behind the other,
/// from the first character to the last.
pub open spec fn envelope_stands(input: Seq<char>, e: ExportFileView) -> bool {
    let a1: int = 0 + envelope_token(e, 0).len() as int;
    let a2: int = a1 + envelope_token(e, 1).len() as int;
    let a3: int = a2 + envelope_token(e, 2).len() as int;
    let a4: int = a3 + envelope_token(e, 3).len() as int;
    let a5: int = a4 + envelope_token(e, 4).len() as int;
    let a6: int = a5 + envelope_token(e, 5).len() as int;
    let a7: int = a6 + envelope_token(e, 6).len() as int;
    let a8: int = a7 + envelope_token(e, 7).len() as int;
    let a9: int = a8 + envelope_token(e, 8).len() as int;
    let a10: int = a9 + envelope_token(e, 9).len() as int;
    let a11: int = a10 + envelope_token(e, 10).len() as int;
    let a12: int = a11 + envelope_token(e, 11).len() as int;
    let a13: int = a12 + envelope_token(e, 12).len() as int;
    let a14: int = a13 + envelope_token(e, 13).len() as int;
    let a15: int = a14 + envelope_token(e, 14).len() as int;
    let a16: int = a15 + envelope_token(e, 15).len() as int;
    let a17: int = a16 + envelope_token(e, 16).len() as int;
    let a18: int = a17 + envelope_token(e, 17).len() as int;
    let a19: int = a18 + envelope_token(e, 18).len() as int;
    let a20: int = a19 + envelope_token(e, 19).len() as int;
    let a21: int = a20 + envelope_token(e, 20).len() as int;
    &&& stands_at(input, 0, a1, envelope_token(e, 0))
    &&& stands_at(input, a1, a2, envelope_token(e, 1))
    &&& stands_at(input, a2, a3, envelope_token(e, 2))
    &&& stands_at(input, a3, a4, envelope_token(e, 3))
    &&& stands_at(input, a4, a5, envelope_token(e, 4))
    &&& stands_at(input, a5, a6, envelope_token(e, 5))
    &&& stands_at(input, a6, a7, envelope_token(e, 6))
    &&& stands_at(input, a7, a8, envelope_token(e, 7))
    &&& stands_at(input, a8, a9, envelope_token(e, 8))
    &&& stands_at(input, a9, a10, envelope_token(e, 9))
    &&& stands_at(input, a10, a11, envelope_token(e, 10))
    &&& stands_at(input, a11, a12, envelope_token(e, 11))
    &&& stands_at(input, a12, a13, envelope_token(e, 12))
    &&& stands_at(input, a13, a14, envelope_token(e, 13))
    &&& stands_at(input, a14, a15, envelope_token(e, 14))
    &&& stands_at(input, a15, a16, envelope_token(e, 15))
    &&& stands_at(input, a16, a17, envelope_token(e, 16))
    &&& stands_at(input, a17, a18, envelope_token(e, 17))
    &&& stands_at(input, a18, a19, envelope_token(e, 18))
    &&& stands_at(input, a19, a20, envelope_token(e, 19))
    &&& stands_at(input, a20, a21, envelope_token(e, 20))
    &&& a21 == input.len()
}

/// The written text of `e` holds the tokens of `e` at their places.
proof fn lemma_envelope_parts(input: Seq<char>, e: ExportFileView)
    requires
        input == envelope_text(e),
    ensures
        envelope_stands(input, e),
{
    let end = input.len() as int;
    let t1 = "{"@;
    let t2 = t1 + "\"fmt\""@;
    let t3 = t2 + ":"@;
    let t4 = t3 + json_string(e.fmt);
    let t5 = t4 + ","@;
    let t6 = t5 + "\"v\""@;
    let t7 = t6 + ":"@;
    let t8 = t7 + decimal(e.v as nat);
    let t9 = t8 + ","@;
    let t10 = t9 + "\"salt\""@;
    let t11 = t10 + ":"@;
    let t12 = t11 + json_string(e.salt);
    let t13 = t12 + ","@;
    let t14 = t13 + "\"nonce\""@;
    let t15 = t14 + ":"@;
    let t16 = t15 + json_string(e.nonce);
    let t17 = t16 + ","@;
    let t18 = t17 + "\"ciphertext\""@;
    let t19 = t18 + ":"@;
    let t20 = t19 + json_string(e.ciphertext);
    lemma_stands_whole(input, envelope_text(e));
    lemma_stands_split(input, 0, end, t20, "}"@);
    lemma_stands_split(input, 0, t20.len() as int, t19, json_string(e.ciphertext));
    lemma_stands_split(input, 0, t19.len() as int, t18, ":"@);
    lemma_stands_split(input, 0, t18.len() as int, t17, "\"ciphertext\""@);
    lemma_stands_split(input, 0, t17.len() as int, t16, ","@);
    lemma_stands_split(input, 0, t16.len() as int, t15, json_string(e.nonce));
    lemma_stands_split(input, 0, t15.len() as int, t14, ":"@);
    lemma_stands_split(input, 0, t14.len() as int, t13, "\"nonce\""@);
    lemma_stands_split(input, 0, t13.len() as int, t12, ","@);
    lemma_stands_split(input, 0, t12.len() as int, t11, json_string(e.salt));
    lemma_stands_split(input, 0, t11.len() as int, t10, ":"@);
    lemma_stands_split(input, 0, t10.len() as int, t9, "\"salt\""@);
    lemma_stands_split(input, 0, t9.len() as int, t8, ","@);
    lemma_stands_split(input, 0, t8.len() as int, t7, decimal(e.v as nat));
    lemma_stands_split(input, 0, t7.len() as int, t6, ":"@);
    lemma_stands_split(input, 0, t6.len() as int, t5, "\"v\""@);
    lemma_stands_split(input, 0, t5.len() as int, t4, ","@);
    lemma_stands_split(input, 0, t4.len() as int, t3, json_string(e.fmt));
    lemma_stands_split(input, 0, t3.len() as int, t2, ":"@);
    lemma_stands_split(input, 0, t2.len() as int, t1, "\"fmt\""@);
}

/// The written text of an envelope spells that envelope.
pub proof fn lemma_written_is_spelled(e: ExportFileView)
    ensures
        envelope_spelled(envelope_text(e), e),
{
    let input = envelope_text(e);
    let tokens = envelope_tokens(e);
    lemma_envelope_parts(input, e);
    let a1: int = 0 + envelope_token(e, 0).len() as int;
    let a2: int = a1 + envelope_token(e, 1).len() as int;
    let a3: int = a2 + envelope_token(e, 2).len() as int;
    let a4: int = a3 + envelope_token(e, 3).len() as int;
    let a5: int = a4 + envelope_token(e, 4).len() as int;
    let a6: int = a5 + envelope_token(e, 5).len() as int;
    let a7: int = a6 + envelope_token(e, 6).len() as int;
    let a8: int = a7 + envelope_token(e, 7).len() as int;
    let a9: int = a8 + envelope_token(e, 8).len() as int;
    let a10: int = a9 + envelope_token(e, 9).len() as int;
    let a11: int = a10 + envelope_token(e, 10).len() as int;
    let a12: int = a11 + envelope_token(e, 11).len() as int;
    let a13: int = a12 + envelope_token(e, 12).len() as int;
    let a14: int = a13 + envelope_token(e, 13).len() as int;
    let a15: int = a14 + envelope_token(e, 14).len() as int;
    let a16: int = a15 + envelope_token(e, 15).len() as int;
    let a17: int = a16 + envelope_token(e, 16).len() as int;
    let a18: int = a17 + envelope_token(e, 17).len() as int;
    let a19: int = a18 + envelope_token(e, 18).len() as int;
    let a20: int = a19 + envelope_token(e, 19).len() as int;
    let a21: int = a20 + envelope_token(e, 20).len() as int;
    assert(spells(input, a21, tokens, 21));
    lemma_spell_build(input, a20, a20, tokens, 20);
    lemma_spell_build(input, a19, a19, tokens, 19);
    lemma_spell_build(input, a18, a18, tokens, 18);
    lemma_spell_build(input, a17, a17, tokens, 17);
    lemma_spell_build(input, a16, a16, tokens, 16);
    lemma_spell_build(input, a15, a15, tokens, 15);
    lemma_spell_build(input, a14, a14, tokens, 14);
    lemma_spell_build(input, a13, a13, tokens, 13);
    lemma_spell_build(input, a12, a12, tokens, 12);
    lemma_spell_build(input, a11, a11, tokens, 11);
    lemma_spell_build(input, a10, a10, tokens, 10);
    lemma_spell_build(input, a9, a9, tokens, 9);
    lemma_spell_build(input, a8, a8, tokens, 8);
    lemma_spell_build(input, a7, a7, tokens, 7);
    lemma_spell_build(input, a6, a6, tokens, 6);
    lemma_spell_build(input, a5, a5, tokens, 5);
    lemma_spell_build(input, a4, a4, tokens, 4);
    lemma_spell_build(input, a3, a3, tokens, 3);
    lemma_spell_build(input, a2, a2, tokens, 2);
    lemma_spell_build(input, a1, a1, tokens, 1);
    lemma_spell_build(input, 0, 0, tokens, 0);
}

/// Writes an envelope down.
pub fn render_envelope(e: &ExportFile) -> (r: String)
    ensures
        r@ == envelope_text(e@),
{
    let mut out: Vec<char> = Vec::new();
    let ghost start = out@;
    push_text(&mut out, "{");
    let ghost t1 = "{"@;
    push_text(&mut out, "\"fmt\"");
    let ghost t2 = t1 + "\"fmt\""@;
    proof {
        lemma_concat_assoc(start, t1, "\"fmt\""@);
    }
    push_text(&mut out, ":");
    let ghost t3 = t2 + ":"@;
    proof {
        lemma_concat_assoc(start, t2, ":"@);
    }
    push_json_string(&mut out, e.fmt.as_str());
    let ghost t4 = t3 + json_string(e@.fmt);
    proof {
        lemma_concat_assoc(start, t3, json_string(e@.fmt));
    }
    push_text(&mut out, ",");
    let ghost t5 = t4 + ","@;
    proof {
        lemma_concat_assoc(start, t4, ","@);
    }
    push_text(&mut out, "\"v\"");
    let ghost t6 = t5 + "\"v\""@;
    proof {
        lemma_concat_assoc(start, t5, "\"v\""@);
    }
    push_text(&mut out, ":");
    let ghost t7 = t6 + ":"@;
    proof {
        lemma_concat_assoc(start, t6, ":"@);
    }
    push_decimal(&mut out, e.v as u128);
    let ghost t8 = t7 + decimal(e@.v as nat);
    proof {
        lemma_concat_assoc(start, t7, decimal(e@.v as nat));
    }
    push_text(&mut out, ",");
    let ghost t9 = t8 + ","@;
    proof {
        lemma_concat_assoc(start, t8, ","@);
    }
    push_text(&mut out, "\"salt\"");
    let ghost t10 = t9 + "\"salt\""@;
    proof {
        lemma_concat_assoc(start, t9, "\"salt\""@);
    }
    push_text(&mut out, ":");
    let ghost t11 = t10 + ":"@;
    proof {
        lemma_concat_assoc(start, t10, ":"@);
    }
    push_json_string(&mut out, e.salt.as_str());
    let ghost t12 = t11 + json_string(e@.salt);
    proof {
        lemma_concat_assoc(start, t11, json_string(e@.salt));
    }
    push_text(&mut out, ",");
    let ghost t13 = t12 + ","@;
    proof {
        lemma_concat_assoc(start, t12, ","@);
    }
    push_text(&mut out, "\"nonce\"");
    let ghost t14 = t13 + "\"nonce\""@;
    proof {
        lemma_concat_assoc(start, t13, "\"nonce\""@);
    }
    push_text(&mut out, ":");
    let ghost t15 = t14 + ":"@;
    proof {
        lemma_concat_assoc(start, t14, ":"@);
    }
    push_json_string(&mut out, e.nonce.as_str());
    let ghost t16 = t15 + json_string(e@.nonce);
    proof {
        lemma_concat_assoc(start, t15, json_string(e@.nonce));
    }
    push_text(&mut out, ",");
    let ghost t17 = t16 + ","@;
    proof {
        lemma_concat_assoc(start, t16, ","@);
    }
    push_text(&mut out, "\"ciphertext\"");
    let ghost t18 = t17 + "\"ciphertext\""@;
    proof {
        lemma_concat_assoc(start, t17, "\"ciphertext\""@);
    }
    push_text(&mut out, ":");
    let ghost t19 = t18 + ":"@;
    proof {
        lemma_concat_assoc(start, t18, ":"@);
    }
    push_json_string(&mut out, e.ciphertext.as_str());
    let ghost t20 = t19 + json_string(e@.ciphertext);
    proof {
        lemma_concat_assoc(start, t19, json_string(e@.ciphertext));
    }
    push_text(&mut out, "}");
    let ghost t21 = t20 + "}"@;
    proof {
        lemma_concat_assoc(start, t20, "}"@);
    }
    assert(out@ =~= t21);
    string_of(&out)
}

/// The first place at or behind `pos` where no white space stands.
fn skip_spaces(input: &Vec<char>, pos: usize) -> (p: usize)
    requires
        pos <= input.len(),
    ensures
        gap(input@, pos as int, p as int),
        p < input.len() ==> !is_space(input@[p as int]),
{
    let mut p: usize = pos;
    while p < input.len() && (input[p] == ' ' || input[p] == '\t' || input[p] == '\n' || input[p]
        == '\r')
        invariant
            gap(input@, pos as int, p as int),
        decreases input.len() - p,
    {
        p = p + 1;
    }
    p
}

/// Reads the opening brace and the member `fmt`, with the white space before each token.
fn read_fmt(input: &Vec<char>, q0: usize) -> (r: Option<(String, usize)>)
    requires
        q0 <= input.len(),
    ensures
        forall|w: ExportFileView| #[trigger]
            spells(input@, q0 as int, envelope_tokens(w), 0) ==> (r matches Some((x, end))
                && x@ == w.fmt && spells(input@, end as int, envelope_tokens(w), 4)),
        r matches Some((x, end)) ==> end <= input.len() && forall|e: ExportFileView| #[trigger]
            spells(input@, end as int, envelope_tokens(e), 4) && e.fmt == x@ ==> spells(
                input@,
                q0 as int,
                envelope_tokens(e),
                0,
            ),
{
    let ghost s = input@;
    let p1 = skip_spaces(input, q0);
    proof {
        assert forall|w: ExportFileView| #[trigger]
            spells(s, q0 as int, envelope_tokens(w), 0) implies stands_at(
            s,
            p1 as int,
            p1 + envelope_token(w, 0).len(),
            envelope_token(w, 0),
        ) && spells(s, p1 + envelope_token(w, 0).len(), envelope_tokens(w), 1)
        by {
            lemma_token_opens(w, 0);
            lemma_spell_head(s, q0 as int, p1 as int, envelope_tokens(w), 0);
        }
    }
    let q1 = expect(input, p1, "{")?;
    let p2 = skip_spaces(input, q1);
    proof {
        assert forall|w: ExportFileView| #[trigger]
            spells(s, q0 as int, envelope_tokens(w), 0) implies stands_at(
            s,
            p2 as int,
            p2 + envelope_token(w, 1).len(),
            envelope_token(w, 1),
        ) && spells(s, p2 + envelope_token(w, 1).len(), envelope_tokens(w), 2)
        by {
            lemma_token_opens(w, 1);
            lemma_spell_head(s, q1 as int, p2 as int, envelope_tokens(w), 1);
        }
    }
    let q2 = expect(input, p2, "\"fmt\"")?;
    let p3 = skip_spaces(input, q2);
    proof {
        assert forall|w: ExportFileView| #[trigger]
            spells(s, q0 as int, envelope_tokens(w), 0) implies stands_at(
            s,
            p3 as int,
            p3 + envelope_token(w, 2).len(),
            envelope_token(w, 2),
        ) && spells(s, p3 + envelope_token(w, 2).len(), envelope_tokens(w), 3)
        by {
            lemma_token_opens(w, 2);
            lemma_spell_head(s, q2 as int, p3 as int, envelope_tokens(w), 2);
        }
    }
    let q3 = expect(input, p3, ":")?;
    let p4 = skip_spaces(input, q3);
    proof {
        assert forall|w: ExportFileView| #[trigger]
            spells(s, q0 as int, envelope_tokens(w), 0) implies stands_at(
            s,
            p4 as int,
            p4 + envelope_token(w, 3).len(),
            envelope_token(w, 3),
        ) && spells(s, p4 + envelope_token(w, 3).len(), envelope_tokens(w), 4)
        by {
            lemma_token_opens(w, 3);
            lemma_spell_head(s, q3 as int, p4 as int, envelope_tokens(w), 3);
        }
    }
    let (x, q4) = parse_json_string(input, p4)?;
    proof {
        assert forall|e: ExportFileView| #[trigger]
            spells(s, q4 as int, envelope_tokens(e), 4) && e.fmt == x@ implies spells(
            s,
            q0 as int,
            envelope_tokens(e),
            0,
        ) by {
            lemma_token_opens(e, 3);
            lemma_spell_build(s, q3 as int, p4 as int, envelope_tokens(e), 3);
            lemma_token_opens(e, 2);
            lemma_spell_build(s, q2 as int, p3 as int, envelope_tokens(e), 2);
            lemma_token_opens(e, 1);
            lemma_spell_build(s, q1 as int, p2 as int, envelope_tokens(e), 1);
            lemma_token_opens(e, 0);
            lemma_spell_build(s, q0 as int, p1 as int, envelope_tokens(e), 0);
        }
    }
    Some((x, q4))
}

/// Reads the member `v`, with the white space before each token.
fn read_v(input: &Vec<char>, q4: usize) -> (r: Option<(u8, usize)>)
    requires
        q4 <= input.len(),
    ensures
        forall|w: ExportFileView| #[trigger]
            spells(input@, q4 as int, envelope_tokens(w), 4) ==> (r matches Some((x, end))
                && x == w.v && spells(input@, end as int, envelope_tokens(w), 8)),
        r matches Some((x, end)) ==> end <= input.len() && forall|e: ExportFileView| #[trigger]
            spells(input@, end as int, envelope_tokens(e), 8) && e.v == x ==> spells(
                input@,
                q4 as int,
                envelope_tokens(e),
                4,
            ),
{
    let ghost s = input@;
    let p5 = skip_spaces(input, q4);
    proof {
        assert forall|w: ExportFileView| #[trigger]
            spells(s, q4 as int, envelope_tokens(w), 4) implies stands_at(
            s,
            p5 as int,
            p5 + envelope_token(w, 4).len(),
            envelope_token(w, 4),
        ) && spells(s, p5 + envelope_token(w, 4).len(), envelope_tokens(w), 5)
        by {
            lemma_token_opens(w, 4);
            lemma_spell_head(s, q4 as int, p5 as int, envelope_tokens(w), 4);
        }
    }
    let q5 = expect(input, p5, ",")?;
    let p6 = skip_spaces(input, q5);
    proof {
        assert forall|w: ExportFileView| #[trigger]
            spells(s, q4 as int, envelope_tokens(w), 4) implies stands_at(
            s,
            p6 as int,
            p6 + envelope_token(w, 5).len(),
            envelope_token(w, 5),
        ) && spells(s, p6 + envelope_token(w, 5).len(), envelope_tokens(w), 6)
        by {
            lemma_token_opens(w, 5);
            lemma_spell_head(s, q5 as int, p6 as int, envelope_tokens(w), 5);
        }
    }
    let q6 = expect(input, p6, "\"v\"")?;
    let p7 = skip_spaces(input, q6);
    proof {
        assert forall|w: ExportFileView| #[trigger]
            spells(s, q4 as int, envelope_tokens(w), 4) implies stands_at(
            s,
            p7 as int,
            p7 + envelope_token(w, 6).len(),
            envelope_token(w, 6),
        ) && spells(s, p7 + envelope_token(w, 6).len(), envelope_tokens(w), 7)
        by {
            lemma_token_opens(w, 6);
            lemma_spell_head(s, q6 as int, p7 as int, envelope_tokens(w), 6);
        }
    }
    let q7 = expect(input, p7, ":")?;
    let p8 = skip_spaces(input, q7);
    proof {
        assert forall|w: ExportFileView| #[trigger]
            spells(s, q4 as int, envelope_tokens(w), 4) implies stands_at(
            s,
            p8 as int,
            p8 + envelope_token(w, 7).len(),
            envelope_token(w, 7),
        ) && spells(s, p8 + envelope_token(w, 7).len(), envelope_tokens(w), 8)
            && number_at(s, p8 as int, p8 + envelope_token(w, 7).len(), envelope_token(w, 7))
        by {
            lemma_token_opens(w, 7);
            lemma_spell_head(s, q7 as int, p8 as int, envelope_tokens(w), 7);
            lemma_token_opens(w, 8);
            lemma_spell_no_digit(s, p8 + envelope_token(w, 7).len(), envelope_tokens(w), 8);
        }
    }
    let (n, q8) = parse_decimal(input, p8, 255)?;
    let x: u8 = n as u8;
    proof {
        assert forall|e: ExportFileView| #[trigger]
            spells(s, q8 as int, envelope_tokens(e), 8) && e.v == x implies spells(
            s,
            q4 as int,
            envelope_tokens(e),
            4,
        ) by {
            lemma_token_opens(e, 7);
            lemma_spell_build(s, q7 as int, p8 as int, envelope_tokens(e), 7);
            lemma_token_opens(e, 6);
            lemma_spell_build(s, q6 as int, p7 as int, envelope_tokens(e), 6);
            lemma_token_opens(e, 5);
            lemma_spell_build(s, q5 as int, p6 as int, envelope_tokens(e), 5);
            lemma_token_opens(e, 4);
            lemma_spell_build(s, q4 as int, p5 as int, envelope_tokens(e), 4);
        }
    }
    Some((x, q8))
}

/// Reads the member `salt`, with the white space before each token.
fn read_salt(input: &Vec<char>, q8: usize) -> (r: Option<(String, usize)>)
    requires
        q8 <= input.len(),
    ensures
        forall|w: ExportFileView| #[trigger]
            spells(input@, q8 as int, envelope_tokens(w), 8) ==> (r matches Some((x, end))
                && x@ == w.salt && spells(input@, end as int, envelope_tokens(w), 12)),
        r matches Some((x, end)) ==> end <= input.len() && forall|e: ExportFileView| #[trigger]
            spells(input@, end as int, envelope_tokens(e), 12) && e.salt == x@ ==> spells(
                input@,
                q8 as int,
                envelope_tokens(e),
                8,
            ),
{
    let ghost s = input@;
    let p9 = skip_spaces(input, q8);
    proof {
        assert forall|w: ExportFileView| #[trigger]
            spells(s, q8 as int, envelope_tokens(w), 8) implies stands_at(
            s,
            p9 as int,
            p9 + envelope_token(w, 8).len(),
            envelope_token(w, 8),
        ) && spells(s, p9 + envelope_token(w, 8).len(), envelope_tokens(w), 9)
        by {
            lemma_token_opens(w, 8);
            lemma_spell_head(s, q8 as int, p9 as int, envelope_tokens(w), 8);
        }
    }
    let q9 = expect(input, p9, ",")?;
    let p10 = skip_spaces(input, q9);
    proof {
        assert forall|w: ExportFileView| #[trigger]
            spells(s, q8 as int, envelope_tokens(w), 8) implies stands_at(
            s,
            p10 as int,
            p10 + envelope_token(w, 9).len(),
            envelope_token(w, 9),
        ) && spells(s, p10 + envelope_token(w, 9).len(), envelope_tokens(w), 10)
        by {
            lemma_token_opens(w, 9);
            lemma_spell_head(s, q9 as int, p10 as int, envelope_tokens(w), 9);
        }
    }
    let q10 = expect(input, p10, "\"salt\"")?;
    let p11 = skip_spaces(input, q10);
    proof {
        assert forall|w: ExportFileView| #[trigger]
            spells(s, q8 as int, envelope_tokens(w), 8) implies stands_at(
            s,
            p11 as int,
            p11 + envelope_token(w, 10).len(),
            envelope_token(w, 10),
        ) && spells(s, p11 + envelope_token(w, 10).len(), envelope_tokens(w), 11)
        by {
            lemma_token_opens(w, 10);
            lemma_spell_head(s, q10 as int, p11 as int, envelope_tokens(w), 10);
        }
    }
    let q11 = expect(input, p11, ":")?;
    let p12 = skip_spaces(input, q11);
    proof {
        assert forall|w: ExportFileView| #[trigger]
            spells(s, q8 as int, envelope_tokens(w), 8) implies stands_at(
            s,
            p12 as int,
            p12 + envelope_token(w, 11).len(),
            envelope_token(w, 11),
        ) && spells(s, p12 + envelope_token(w, 11).len(), envelope_tokens(w), 12)
        by {
            lemma_token_opens(w, 11);
            lemma_spell_head(s, q11 as int, p12 as int, envelope_tokens(w), 11);
        }
    }
    let (x, q12) = parse_json_string(input, p12)?;
    proof {
        assert forall|e: ExportFileView| #[trigger]
            spells(s, q12 as int, envelope_tokens(e), 12) && e.salt == x@ implies spells(
            s,
            q8 as int,
            envelope_tokens(e),
            8,
        ) by {
            lemma_token_opens(e, 11);
            lemma_spell_build(s, q11 as int, p12 as int, envelope_tokens(e), 11);
            lemma_token_opens(e, 10);
            lemma_spell_build(s, q10 as int, p11 as int, envelope_tokens(e), 10);
            lemma_token_opens(e, 9);
            lemma_spell_build(s, q9 as int, p10 as int, envelope_tokens(e), 9);
            lemma_token_opens(e, 8);
            lemma_spell_build(s, q8 as int, p9 as int, envelope_tokens(e), 8);
        }
    }
    Some((x, q12))
}

/// Reads the member `nonce`, with the white space before each token.
fn read_nonce(input: &Vec<char>, q12: usize) -> (r: Option<(String, usize)>)
    requires
        q12 <= input.len(),
    ensures
        forall|w: ExportFileView| #[trigger]
            spells(input@, q12 as int, envelope_tokens(w), 12) ==> (r matches Some((x, end))
                && x@ == w.nonce && spells(input@, end as int, envelope_tokens(w), 16)),
        r matches Some((x, end)) ==> end <= input.len() && forall|e: ExportFileView| #[trigger]
            spells(input@, end as int, envelope_tokens(e), 16) && e.nonce == x@ ==> spells(
                input@,
                q12 as int,
                envelope_tokens(e),
                12,
            ),
{
    let ghost s = input@;
    let p13 = skip_spaces(input, q12);
    proof {
        assert forall|w: ExportFileView| #[trigger]
            spells(s, q12 as int, envelope_tokens(w), 12) implies stands_at(
            s,
            p13 as int,
            p13 + envelope_token(w, 12).len(),
            envelope_token(w, 12),
        ) && spells(s, p13 + envelope_token(w, 12).len(), envelope_tokens(w), 13)
        by {
            lemma_token_opens(w, 12);
            lemma_spell_head(s, q12 as int, p13 as int, envelope_tokens(w), 12);
        }
    }
    let q13 = expect(input, p13, ",")?;
    let p14 = skip_spaces(input, q13);
    proof {
        assert forall|w: ExportFileView| #[trigger]
            spells(s, q12 as int, envelope_tokens(w), 12) implies stands_at(
            s,
            p14 as int,
            p14 + envelope_token(w, 13).len(),
            envelope_token(w, 13),
        ) && spells(s, p14 + envelope_token(w, 13).len(), envelope_tokens(w), 14)
        by {
            lemma_token_opens(w, 13);
            lemma_spell_head(s, q13 as int, p14 as int, envelope_tokens(w), 13);
        }
    }
    let q14 = expect(input, p14, "\"nonce\"")?;
    let p15 = skip_spaces(input, q14);
    proof {
        assert forall|w: ExportFileView| #[trigger]
            spells(s, q12 as int, envelope_tokens(w), 12) implies stands_at(
            s,
            p15 as int,
            p15 + envelope_token(w, 14).len(),
            envelope_token(w, 14),
        ) && spells(s, p15 + envelope_token(w, 14).len(), envelope_tokens(w), 15)
        by {
            lemma_token_opens(w, 14);
            lemma_spell_head(s, q14 as int, p15 as int, envelope_tokens(w), 14);
        }
    }
    let q15 = expect(input, p15, ":")?;
    let p16 = skip_spaces(input, q15);
    proof {
        assert forall|w: ExportFileView| #[trigger]
            spells(s, q12 as int, envelope_tokens(w), 12) implies stands_at(
            s,
            p16 as int,
            p16 + envelope_token(w, 15).len(),
            envelope_token(w, 15),
        ) && spells(s, p16 + envelope_token(w, 15).len(), envelope_tokens(w), 16)
        by {
            lemma_token_opens(w, 15);
            lemma_spell_head(s, q15 as int, p16 as int, envelope_tokens(w), 15);
        }
    }
    let (x, q16) = parse_json_string(input, p16)?;
    proof {
        assert forall|e: ExportFileView| #[trigger]
            spells(s, q16 as int, envelope_tokens(e), 16) && e.nonce == x@ implies spells(
            s,
            q12 as int,
            envelope_tokens(e),
            12,
        ) by {
            lemma_token_opens(e, 15);
            lemma_spell_build(s, q15 as int, p16 as int, envelope_tokens(e), 15);
            lemma_token_opens(e, 14);
            lemma_spell_build(s, q14 as int, p15 as int, envelope_tokens(e), 14);
            lemma_token_opens(e, 13);
            lemma_spell_build(s, q13 as int, p14 as int, envelope_tokens(e), 13);
            lemma_token_opens(e, 12);
            lemma_spell_build(s, q12 as int, p13 as int, envelope_tokens(e), 12);
        }
    }
    Some((x, q16))
}

/// Reads the member `ciphertext`, with the white space before each token.
fn read_ciphertext(input: &Vec<char>, q16: usize) -> (r: Option<(String, usize)>)
    requires
        q16 <= input.len(),
    ensures
        forall|w: ExportFileView| #[trigger]
            spells(input@, q16 as int, envelope_tokens(w), 16) ==> (r matches Some((x, end))
                && x@ == w.ciphertext && spells(input@, end as int, envelope_tokens(w), 20)),
        r matches Some((x, end)) ==> end <= input.len() && forall|e: ExportFileView| #[trigger]
            spells(input@, end as int, envelope_tokens(e), 20) && e.ciphertext == x@ ==> spells(
                input@,
                q16 as int,
                envelope_tokens(e),
                16,
            ),
{
    let ghost s = input@;
    let p17 = skip_spaces(input, q16);
    proof {
        assert forall|w: ExportFileView| #[trigger]
            spells(s, q16 as int, envelope_tokens(w), 16) implies stands_at(
            s,
            p17 as int,
            p17 + envelope_token(w, 16).len(),
            envelope_token(w, 16),
        ) && spells(s, p17 + envelope_token(w, 16).len(), envelope_tokens(w), 17)
        by {
            lemma_token_opens(w, 16);
            lemma_spell_head(s, q16 as int, p17 as int, envelope_tokens(w), 16);
        }
    }
    let q17 = expect(input, p17, ",")?;
    let p18 = skip_spaces(input, q17);
    proof {
        assert forall|w: ExportFileView| #[trigger]
            spells(s, q16 as int, envelope_tokens(w), 16) implies stands_at(
            s,
            p18 as int,
            p18 + envelope_token(w, 17).len(),
            envelope_token(w, 17),
        ) && spells(s, p18 + envelope_token(w, 17).len(), envelope_tokens(w), 18)
        by {
            lemma_token_opens(w, 17);
            lemma_spell_head(s, q17 as int, p18 as int, envelope_tokens(w), 17);
        }
    }
    let q18 = expect(input, p18, "\"ciphertext\"")?;
    let p19 = skip_spaces(input, q18);
    proof {
        assert forall|w: ExportFileView| #[trigger]
            spells(s, q16 as int, envelope_tokens(w), 16) implies stands_at(
            s,
            p19 as int,
            p19 + envelope_token(w, 18).len(),
            envelope_token(w, 18),
        ) && spells(s, p19 + envelope_token(w, 18).len(), envelope_tokens(w), 19)
        by {
            lemma_token_opens(w, 18);
            lemma_spell_head(s, q18 as int, p19 as int, envelope_tokens(w), 18);
        }
    }
    let q19 = expect(input, p19, ":")?;
    let p20 = skip_spaces(input, q19);
    proof {
        assert forall|w: ExportFileView| #[trigger]
            spells(s, q16 as int, envelope_tokens(w), 16) implies stands_at(
            s,
            p20 as int,
            p20 + envelope_token(w, 19).len(),
            envelope_token(w, 19),
        ) && spells(s, p20 + envelope_token(w, 19).len(), envelope_tokens(w), 20)
        by {
            lemma_token_opens(w, 19);
            lemma_spell_head(s, q19 as int, p20 as int, envelope_tokens(w), 19);
        }
    }
    let (x, q20) = parse_json_string(input, p20)?;
    proof {
        assert forall|e: ExportFileView| #[trigger]
            spells(s, q20 as int, envelope_tokens(e), 20) && e.ciphertext == x@ implies spells(
            s,
            q16 as int,
            envelope_tokens(e),
            16,
        ) by {
            lemma_token_opens(e, 19);
            lemma_spell_build(s, q19 as int, p20 as int, envelope_tokens(e), 19);
            lemma_token_opens(e, 18);
            lemma_spell_build(s, q18 as int, p19 as int, envelope_tokens(e), 18);
            lemma_token_opens(e, 17);
            lemma_spell_build(s, q17 as int, p18 as int, envelope_tokens(e), 17);
            lemma_token_opens(e, 16);
            lemma_spell_build(s, q16 as int, p17 as int, envelope_tokens(e), 16);
        }
    }
    Some((x, q20))
}

/// Reads the closing brace, with the white space before and behind it, up
/// to the end of the text.
fn read_close(input: &Vec<char>, q20: usize) -> (r: Option<usize>)
    requires
        q20 <= input.len(),
    ensures
        forall|w: ExportFileView| #[trigger]
            spells(input@, q20 as int, envelope_tokens(w), 20) ==> r is Some,
        r is Some ==> forall|e: ExportFileView| #[trigger]
            spells(input@, q20 as int, envelope_tokens(e), 20),
{
    let ghost s = input@;
    let p21 = skip_spaces(input, q20);
    proof {
        assert forall|w: ExportFileView| #[trigger]
            spells(s, q20 as int, envelope_tokens(w), 20) implies stands_at(
            s,
            p21 as int,
            p21 + envelope_token(w, 20).len(),
            envelope_token(w, 20),
        ) && spells(s, p21 + envelope_token(w, 20).len(), envelope_tokens(w), 21) by {
            lemma_token_opens(w, 20);
            lemma_spell_head(s, q20 as int, p21 as int, envelope_tokens(w), 20);
        }
    }
    let q21 = expect(input, p21, "}")?;
    let end = skip_spaces(input, q21);
    proof {
        assert forall|w: ExportFileView| #[trigger]
            spells(s, q20 as int, envelope_tokens(w), 20) implies end == input.len() by {
            if end < input.len() {
                assert(is_space(s[end as int]));
            }
        }
    }
    if end != input.len() {
        return None;
    }
    proof {
        assert forall|e: ExportFileView| #[trigger]
            spells(s, q20 as int, envelope_tokens(e), 20) by {
            lemma_token_opens(e, 20);
            assert(spells(s, q21 as int, envelope_tokens(e), 21));
            lemma_spell_build(s, q20 as int, p21 as int, envelope_tokens(e), 20);
        }
    }
    Some(end)
}

/// Reads an envelope. A text is read as the envelope `w` exactly when it
/// spells `w`: the members in their order, each string in its written form,
/// the version without leading zeros, and white space between the tokens
/// at most.
pub fn parse_envelope(text: &str) -> (r: Option<ExportFile>)
    ensures
        r matches Some(e) ==> envelope_spelled(text@, e@),
        forall|w: ExportFileView| #[trigger]
            envelope_spelled(text@, w) ==> (r matches Some(e) && e@ == w),
{
    let input = chars_of(text);
    let ghost s = input@;
    let (fmt, q4) = read_fmt(&input, 0)?;
    let (v, q8) = read_v(&input, q4)?;
    let (salt, q12) = read_salt(&input, q8)?;
    let (nonce, q16) = read_nonce(&input, q12)?;
    let (ciphertext, q20) = read_ciphertext(&input, q16)?;
    let _ = read_close(&input, q20)?;
    let e = ExportFile { fmt, v, salt, nonce, ciphertext };
    proof {
        let tokens = envelope_tokens(e@);
        assert(spells(s, q20 as int, tokens, 20));
        assert(spells(s, q16 as int, tokens, 16));
        assert(spells(s, q12 as int, tokens, 12));
        assert(spells(s, q8 as int, tokens, 8));
        assert(spells(s, q4 as int, tokens, 4));
        assert(spells(s, 0, tokens, 0));
    }
    Some(e)
}

} // verus!
