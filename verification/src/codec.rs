//! The vault as text.
//!
//! A vault is written as one JSON object, without white space, its members
//! in a fixed order; groups and hosts are written the same way inside it.
//! The readers accept that form and nothing else, so that a text is read as
//! a vault exactly when it is the text of that vault.

use vstd::prelude::*;
use crate::json::{json_string, parse_json_string, push_json_string};
use crate::models::{
    id_kind_of, Group, GroupView, Host, HostView, IdKind, IdKindView, IdTag, Vault, VaultView, views,
};
use crate::text::{
    chars_of, decimal, expect, integer_text, lemma_concat_assoc, lemma_stands_join,
    lemma_stands_split, lemma_stands_whole, number_at, parse_decimal, parse_integer, push_decimal,
    push_integer, push_text, stands_at, string_of,
};

verus! {

/// What stands behind the opening bracket of a list: the items that are
/// left, a comma before each but the first of the list, and the closing
/// bracket.
pub open spec fn items_text(parts: Seq<Seq<char>>, first: bool) -> Seq<char>
    decreases parts.len(),
{
    if parts.len() == 0 {
        seq![']']
    } else if first {
        parts[0] + items_text(parts.drop_first(), false)
    } else {
        seq![','] + parts[0] + items_text(parts.drop_first(), false)
    }
}

/// A list with the given items, closing bracket not yet written.
pub open spec fn opened_text(parts: Seq<Seq<char>>) -> Seq<char>
    decreases parts.len(),
{
    if parts.len() == 0 {
        seq!['[']
    } else if parts.len() == 1 {
        seq!['['] + parts[0]
    } else {
        opened_text(parts.drop_last()) + seq![','] + parts.last()
    }
}

/// The list of the given items: in brackets, with commas between them.
pub open spec fn list_text(parts: Seq<Seq<char>>) -> Seq<char> {
    opened_text(parts) + seq![']']
}

/// A list that holds `done` goes on with the items `rest` and the closing
/// bracket.
pub proof fn lemma_list_goes_on(done: Seq<Seq<char>>, rest: Seq<Seq<char>>)
    ensures
        opened_text(done) + items_text(rest, done.len() == 0) == list_text(done + rest),
    decreases rest.len(),
{
    if rest.len() == 0 {
        assert(done + rest =~= done);
    } else {
        let next = done.push(rest[0]);
        assert(next.drop_last() =~= done);
        assert(opened_text(next) =~= if done.len() == 0 {
            seq!['['] + rest[0]
        } else {
            opened_text(done) + seq![','] + rest[0]
        });
        lemma_list_goes_on(next, rest.drop_first());
        assert(next + rest.drop_first() =~= done + rest);
        assert(opened_text(done) + items_text(rest, done.len() == 0) =~= opened_text(next)
            + items_text(rest.drop_first(), false));
    }
}

/// Where the rest of a list stands, either the closing bracket stands
/// first, and the list has ended, or the next item stands there, behind a
/// comma unless it is the first.
proof fn lemma_items_head(input: Seq<char>, i: int, e: int, parts: Seq<Seq<char>>, first: bool)
    requires
        stands_at(input, i, e, items_text(parts, first)),
    ensures
        parts.len() == 0 ==> e == i + 1 && input[i] == ']',
        parts.len() > 0 ==> {
            let j = if first {
                i
            } else {
                i + 1
            };
            &&& !first ==> input[i] == ','
            &&& stands_at(input, j, j + parts[0].len(), parts[0])
            &&& stands_at(input, j + parts[0].len(), e, items_text(parts.drop_first(), false))
        },
{
    if parts.len() == 0 {
        assert(items_text(parts, first) =~= seq![']']);
        assert(input.subrange(i, e)[0] == input[i]);
    } else if first {
        lemma_stands_split(input, i, e, parts[0], items_text(parts.drop_first(), false));
    } else {
        let tail = items_text(parts.drop_first(), false);
        assert(items_text(parts, first) =~= seq![','] + (parts[0] + tail));
        lemma_stands_split(input, i, e, seq![','], parts[0] + tail);
        lemma_stands_split(input, i + 1, e, parts[0], tail);
        assert(input.subrange(i, i + 1)[0] == input[i]);
    }
}

/// A kind of value with a canonical text, a writer and a reader for it.
pub(crate) trait Record: View + Sized {
    /// The canonical text of a value.
    spec fn text(v: Self::V) -> Seq<char>;

    /// No text is empty, and none opens with a closing bracket or a comma.
    proof fn lemma_text_opens(v: Self::V)
        ensures
            Self::text(v).len() > 0,
            Self::text(v)[0] != ']',
            Self::text(v)[0] != ',',
    ;

    /// Appends the text of the value.
    fn write(&self, out: &mut Vec<char>)
        ensures
            final(out)@ == old(out)@ + Self::text(self@),
    ;

    /// Reads at `pos` the one value whose text stands there.
    fn read(input: &Vec<char>, pos: usize) -> (r: Option<(Self, usize)>)
        ensures
            r matches Some((x, end)) ==> stands_at(
                input@,
                pos as int,
                end as int,
                Self::text(x@),
            ),
            forall|w: Self::V, e: int| #[trigger]
                stands_at(input@, pos as int, e, Self::text(w)) ==> (r matches Some((x, end))
                    && x@ == w && end == e),
    ;
}

/// The texts of the items of a list.
pub(crate) open spec fn part_texts<T: Record>(vs: Seq<T::V>) -> Seq<Seq<char>> {
    Seq::new(vs.len(), |i: int| T::text(vs[i]))
}

/// What stands at `i` once `k` items of the list `w` are read.
proof fn lemma_list_step<T: Record>(input: Seq<char>, i: int, e: int, w: Seq<T::V>, k: int)
    requires
        0 <= k <= w.len(),
        stands_at(input, i, e, items_text(part_texts::<T>(w.skip(k)), k == 0)),
    ensures
        k == w.len() ==> e == i + 1 && input[i] == ']',
        k < w.len() ==> {
            let j = if k == 0 {
                i
            } else {
                i + 1
            };
            &&& i < input.len()
            &&& input[i] != ']'
            &&& k > 0 ==> input[i] == ','
            &&& stands_at(input, j, j + T::text(w[k]).len(), T::text(w[k]))
            &&& stands_at(
                input,
                j + T::text(w[k]).len(),
                e,
                items_text(part_texts::<T>(w.skip(k + 1)), false),
            )
        },
{
    let parts = part_texts::<T>(w.skip(k));
    lemma_items_head(input, i, e, parts, k == 0);
    if k < w.len() {
        T::lemma_text_opens(w[k]);
        assert(parts[0] == T::text(w[k]));
        assert(parts.drop_first() =~= part_texts::<T>(w.skip(k + 1)));
        assert(input.subrange(i, i + parts[0].len())[0] == input[i]);
    }
}

/// Appends the list of the given items.
pub(crate) fn write_list<T: Record>(out: &mut Vec<char>, items: &Vec<T>)
    ensures
        final(out)@ == old(out)@ + list_text(part_texts::<T>(views(items@))),
{
    let ghost start = out@;
    let ghost all = part_texts::<T>(views(items@));
    out.push('[');
    let mut k: usize = 0;
    while k < items.len()
        invariant
            k <= items.len(),
            all == part_texts::<T>(views(items@)),
            out@ == start + opened_text(all.take(k as int)),
        decreases items.len() - k,
    {
        if k > 0 {
            out.push(',');
        }
        items[k].write(out);
        proof {
            let now = all.take(k + 1);
            assert(now.drop_last() =~= all.take(k as int));
            assert(now.last() == T::text(items@[k as int]@));
            assert(out@ =~= start + opened_text(now));
        }
        k = k + 1;
    }
    out.push(']');
    assert(all.take(k as int) =~= all);
    assert(out@ =~= start + list_text(all));
}

/// Reads at `pos` the one list whose text stands there.
pub(crate) fn read_list<T: Record>(input: &Vec<char>, pos: usize) -> (r: Option<(Vec<T>, usize)>)
    ensures
        r matches Some((v, end)) ==> stands_at(
            input@,
            pos as int,
            end as int,
            list_text(part_texts::<T>(views(v@))),
        ),
        forall|w: Seq<T::V>, e: int| #[trigger]
            stands_at(input@, pos as int, e, list_text(part_texts::<T>(w))) ==> (r matches Some(
                (v, end),
            ) && views(v@) == w && end == e),
{
    let ghost text = input@;
    proof {
        assert forall|w: Seq<T::V>, e: int| #[trigger]
            stands_at(text, pos as int, e, list_text(part_texts::<T>(w))) implies pos < text.len()
            && text[pos as int] == '[' && stands_at(
            text,
            pos + 1,
            e,
            items_text(part_texts::<T>(w.skip(0)), true),
        ) by {
            let parts = part_texts::<T>(w);
            lemma_list_goes_on(Seq::empty(), parts);
            assert(Seq::<Seq<char>>::empty() + parts =~= parts);
            lemma_stands_split(text, pos as int, e, seq!['['], items_text(parts, true));
            assert(text.subrange(pos as int, pos + 1)[0] == text[pos as int]);
            assert(w.skip(0) =~= w);
        }
    }
    if pos >= input.len() || input[pos] != '[' {
        return None;
    }
    let mut out: Vec<T> = Vec::new();
    let mut i: usize = pos + 1;
    proof {
        assert(text.subrange(pos as int, pos + 1) =~= seq!['[']);
        assert(part_texts::<T>(views(out@)) =~= Seq::<Seq<char>>::empty());
    }
    while i < input.len()
        invariant
            text == input@,
            pos < i <= input.len(),
            stands_at(text, pos as int, i as int, opened_text(part_texts::<T>(views(out@)))),
            forall|w: Seq<T::V>, e: int| #[trigger]
                stands_at(text, pos as int, e, list_text(part_texts::<T>(w))) ==> out@.len()
                    <= w.len() && views(out@) == w.take(out@.len() as int) && stands_at(
                    text,
                    i as int,
                    e,
                    items_text(part_texts::<T>(w.skip(out@.len() as int)), out@.len() == 0),
                ),
        decreases input.len() - i,
    {
        let ghost k = out@.len() as int;
        let ghost done = part_texts::<T>(views(out@));
        proof {
            assert forall|w: Seq<T::V>, e: int| #[trigger]
                stands_at(text, pos as int, e, list_text(part_texts::<T>(w))) implies (k == w.len()
                ==> e == i + 1 && text[i as int] == ']') && (k < w.len() ==> {
                let j = if k == 0 {
                    i as int
                } else {
                    i + 1
                };
                &&& text[i as int] != ']'
                &&& k > 0 ==> text[i as int] == ','
                &&& stands_at(text, j, j + T::text(w[k]).len(), T::text(w[k]))
                &&& stands_at(
                    text,
                    j + T::text(w[k]).len(),
                    e,
                    items_text(part_texts::<T>(w.skip(k + 1)), false),
                )
            }) by {
                lemma_list_step::<T>(text, i as int, e, w, k);
            }
        }
        if input[i] == ']' {
            proof {
                assert(text.subrange(i as int, i + 1) =~= seq![']']);
                lemma_stands_join(text, pos as int, i as int, i + 1, opened_text(done), seq![']']);
                assert forall|w: Seq<T::V>, e: int| #[trigger]
                    stands_at(text, pos as int, e, list_text(part_texts::<T>(w))) implies views(
                    out@,
                ) == w && e == i + 1 by {
                    assert(w.take(k) =~= w);
                }
            }
            return Some((out, i + 1));
        }
        let j: usize = if out.len() == 0 {
            i
        } else {
            if input[i] != ',' {
                return None;
            }
            i + 1
        };
        match T::read(input, j) {
            None => {
                return None;
            },
            Some((x, end)) => {
                proof {
                    T::lemma_text_opens(x@);
                    let now = part_texts::<T>(views(out@.push(x)));
                    assert(now.drop_last() =~= done);
                    assert(now.last() == T::text(x@));
                    if k > 0 {
                        assert(text.subrange(i as int, i + 1) =~= seq![',']);
                        lemma_stands_join(
                            text,
                            pos as int,
                            i as int,
                            i + 1,
                            opened_text(done),
                            seq![','],
                        );
                        lemma_stands_join(
                            text,
                            pos as int,
                            j as int,
                            end as int,
                            opened_text(done) + seq![','],
                            T::text(x@),
                        );
                    } else {
                        lemma_stands_join(
                            text,
                            pos as int,
                            j as int,
                            end as int,
                            opened_text(done),
                            T::text(x@),
                        );
                    }
                    assert forall|w: Seq<T::V>, e: int| #[trigger]
                        stands_at(text, pos as int, e, list_text(part_texts::<T>(w))) implies k + 1
                        <= w.len() && views(out@.push(x)) == w.take(k + 1) && stands_at(
                        text,
                        end as int,
                        e,
                        items_text(part_texts::<T>(w.skip(k + 1)), false),
                    ) by {
                        assert(views(out@.push(x)) =~= w.take(k).push(w[k]));
                        assert(w.take(k).push(w[k]) =~= w.take(k + 1));
                    }
                }
                out.push(x);
                i = end;
            },
        }
    }
    proof {
        assert forall|w: Seq<T::V>, e: int| #[trigger]
            stands_at(text, pos as int, e, list_text(part_texts::<T>(w))) implies false by {
            lemma_list_step::<T>(text, i as int, e, w, out@.len() as int);
        }
    }
    None
}

impl Record for String {
    open spec fn text(v: Seq<char>) -> Seq<char> {
        json_string(v)
    }

    proof fn lemma_text_opens(v: Seq<char>) {
        assert(json_string(v)[0] == '"');
    }

    fn write(&self, out: &mut Vec<char>) {
        push_json_string(out, self.as_str());
    }

    fn read(input: &Vec<char>, pos: usize) -> (r: Option<(Self, usize)>) {
        parse_json_string(input, pos)
    }
}

/// The string literals of a list of strings.
pub open spec fn string_texts(t: Seq<Seq<char>>) -> Seq<Seq<char>> {
    Seq::new(t.len(), |i: int| json_string(t[i]))
}

/// Appends a list of strings.
pub fn write_strings(out: &mut Vec<char>, items: &Vec<String>)
    ensures
        final(out)@ == old(out)@ + list_text(string_texts(views(items@))),
{
    assert(part_texts::<String>(views(items@)) =~= string_texts(views(items@)));
    write_list::<String>(out, items);
}

/// Reads at `pos` the one list of strings whose text stands there.
pub fn read_strings(input: &Vec<char>, pos: usize) -> (r: Option<(Vec<String>, usize)>)
    ensures
        r matches Some((v, end)) ==> stands_at(
            input@,
            pos as int,
            end as int,
            list_text(string_texts(views(v@))),
        ),
        forall|w: Seq<Seq<char>>, e: int| #[trigger]
            stands_at(input@, pos as int, e, list_text(string_texts(w))) ==> (r matches Some(
                (v, end),
            ) && views(v@) == w && end == e),
{
    proof {
        assert forall|w: Seq<Seq<char>>| #[trigger] part_texts::<String>(w) == string_texts(w) by {
            assert(part_texts::<String>(w) =~= string_texts(w));
        }
    }
    let r = read_list::<String>(input, pos);
    proof {
        assert forall|w: Seq<Seq<char>>, e: int| #[trigger]
            stands_at(input@, pos as int, e, list_text(string_texts(w))) implies (r matches Some(
            (v, end),
        ) && views(v@) == w && end == e) by {
            assert(stands_at(input@, pos as int, e, list_text(part_texts::<String>(w))));
        }
    }
    r
}

/// The text of a string that may be absent: its literal, or `null`.
pub open spec fn optional_text(o: Option<Seq<char>>) -> Seq<char> {
    match o {
        Some(s) => json_string(s),
        None => "null"@,
    }
}

/// Appends a string that may be absent.
pub fn write_optional(out: &mut Vec<char>, o: &Option<String>)
    ensures
        final(out)@ == old(out)@ + optional_text(crate::models::opt_text(*o)),
{
    match o {
        Some(s) => push_json_string(out, s.as_str()),
        None => push_text(out, "null"),
    }
}

/// Reads at `pos` a string literal or `null`.
pub fn read_optional(input: &Vec<char>, pos: usize) -> (r: Option<(Option<String>, usize)>)
    ensures
        r matches Some((o, end)) ==> stands_at(
            input@,
            pos as int,
            end as int,
            optional_text(crate::models::opt_text(o)),
        ),
        forall|w: Option<Seq<char>>, e: int| #[trigger]
            stands_at(input@, pos as int, e, optional_text(w)) ==> (r matches Some((o, end))
                && crate::models::opt_text(o) == w && end == e),
{
    let ghost text = input@;
    proof {
        reveal_strlit("null");
        assert forall|w: Option<Seq<char>>, e: int| #[trigger]
            stands_at(text, pos as int, e, optional_text(w)) implies pos < text.len() && (
        w is None ==> text[pos as int] == 'n') && (w is Some ==> text[pos as int] == '"') by {
            reveal_strlit("null");
            match w {
                Some(s) => {
                    assert(json_string(s)[0] == '"');
                },
                None => {
                    assert("null"@[0] == 'n');
                },
            }
            assert(optional_text(w).len() >= 1);
            assert(text.subrange(pos as int, e)[0] == text[pos as int]);
        }
    }
    if pos < input.len() && input[pos] == 'n' {
        match expect(input, pos, "null") {
            Some(end) => Some((None, end)),
            None => None,
        }
    } else {
        match parse_json_string(input, pos) {
            Some((s, end)) => Some((Some(s), end)),
            None => None,
        }
    }
}

/// The text of the two members that say how a host authenticates: the
/// kind, and the key's path, which is `null` for the agent.
pub open spec fn auth_text(a: IdKindView) -> Seq<char> {
    match a {
        IdKindView::Agent => "\"Agent\",\"key_path\":null"@,
        IdKindView::KeyPath(p) => "\"KeyPath\",\"key_path\":"@ + json_string(p),
    }
}

/// The text of a kind alone.
pub open spec fn tag_text(tag: IdTag) -> Seq<char> {
    match tag {
        IdTag::Agent => "\"Agent\""@,
        IdTag::KeyPath => "\"KeyPath\""@,
    }
}

/// The two members are the kind and the path of which the value is made:
/// what is written for a value is the kind, the member name and the path
/// that [`id_kind_of`] puts together to that value, and no contradicting
/// pair has a text.
pub proof fn lemma_auth_text_parts(tag: IdTag, key_path: Option<Seq<char>>, a: IdKindView)
    requires
        id_kind_of(tag, key_path) == Some(a),
    ensures
        auth_text(a) == tag_text(tag) + ",\"key_path\":"@ + optional_text(key_path),
{
    reveal_strlit("\"Agent\",\"key_path\":null");
    reveal_strlit("\"KeyPath\",\"key_path\":");
    reveal_strlit("\"Agent\"");
    reveal_strlit("\"KeyPath\"");
    reveal_strlit(",\"key_path\":");
    reveal_strlit("null");
    match a {
        IdKindView::Agent => {
            assert(auth_text(a) =~= tag_text(tag) + ",\"key_path\":"@ + optional_text(key_path));
        },
        IdKindView::KeyPath(p) => {
            assert("\"KeyPath\",\"key_path\":"@ =~= "\"KeyPath\""@ + ",\"key_path\":"@);
            assert(auth_text(a) =~= tag_text(tag) + ",\"key_path\":"@ + optional_text(key_path));
        },
    }
}

/// Appends the kind of authentication and the key's path.
pub fn write_auth(out: &mut Vec<char>, a: &IdKind)
    ensures
        final(out)@ == old(out)@ + auth_text(a@),
{
    match a {
        IdKind::Agent => push_text(out, "\"Agent\",\"key_path\":null"),
        IdKind::KeyPath(p) => {
            push_text(out, "\"KeyPath\",\"key_path\":");
            push_json_string(out, p.as_str());
            assert(out@ =~= old(out)@ + auth_text(a@));
        },
    }
}

/// Reads at `pos` the kind of authentication and the key's path. A path
/// beside the agent, and a key without a path, are refused.
pub fn read_auth(input: &Vec<char>, pos: usize) -> (r: Option<(IdKind, usize)>)
    ensures
        r matches Some((a, end)) ==> stands_at(input@, pos as int, end as int, auth_text(a@)),
        forall|w: IdKindView, e: int| #[trigger]
            stands_at(input@, pos as int, e, auth_text(w)) ==> (r matches Some((a, end)) && a@
                == w && end == e),
{
    let ghost text = input@;
    let ghost agent = "\"Agent\",\"key_path\":null"@;
    let ghost key = "\"KeyPath\",\"key_path\":"@;
    proof {
        reveal_strlit("\"Agent\",\"key_path\":null");
        reveal_strlit("\"KeyPath\",\"key_path\":");
        assert forall|w: IdKindView, e: int| #[trigger]
            stands_at(text, pos as int, e, auth_text(w)) implies pos + 1 < text.len() && match w {
            IdKindView::Agent => text[pos + 1] == 'A',
            IdKindView::KeyPath(p) => text[pos + 1] == 'K' && stands_at(
                text,
                pos as int,
                pos + key.len(),
                key,
            ) && stands_at(text, pos + key.len(), e, json_string(p)),
        } by {
            reveal_strlit("\"Agent\",\"key_path\":null");
            reveal_strlit("\"KeyPath\",\"key_path\":");
            match w {
                IdKindView::Agent => {
                    assert(agent[1] == 'A');
                },
                IdKindView::KeyPath(p) => {
                    assert(key[1] == 'K');
                    assert((key + json_string(p))[1] == 'K');
                    lemma_stands_split(text, pos as int, e, key, json_string(p));
                },
            }
            assert(auth_text(w).len() >= 2);
            assert(text.subrange(pos as int, e)[1] == text[pos + 1]);
        }
    }
    match expect(input, pos, "\"Agent\",\"key_path\":null") {
        Some(end) => {
            proof {
                assert(text.subrange(pos as int, end as int)[1] == text[pos + 1]);
            }
            Some((IdKind::Agent, end))
        },
        None => {
            let mid = expect(input, pos, "\"KeyPath\",\"key_path\":")?;
            proof {
                assert(text.subrange(pos as int, mid as int)[1] == text[pos + 1]);
            }
            let (p, end) = parse_json_string(input, mid)?;
            proof {
                lemma_stands_join(text, pos as int, mid as int, end as int, key, json_string(p@));
            }
            Some((IdKind::KeyPath(p), end))
        },
    }
}

/// The text of a group.
pub open spec fn group_text(g: GroupView) -> Seq<char> {
    "{\"name\":"@ + json_string(g.name) + ",\"created_at\":"@ + integer_text(g.created_at as int)
        + "}"@
}

/// Each part of the group `g` stands in `input` at its place, from `pos`
/// up to `e`.
pub open spec fn group_stands(input: Seq<char>, pos: int, e: int, g: GroupView) -> bool {
    let a1 = pos + "{\"name\":"@.len();
    let a2 = a1 + json_string(g.name).len();
    let a3 = a2 + ",\"created_at\":"@.len();
    let a4 = a3 + integer_text(g.created_at as int).len();
    &&& stands_at(input, pos, a1, "{\"name\":"@)
    &&& stands_at(input, a1, a2, json_string(g.name))
    &&& stands_at(input, a2, a3, ",\"created_at\":"@)
    &&& number_at(input, a3, a4, integer_text(g.created_at as int))
    &&& stands_at(input, a4, e, "}"@)
    &&& e == a4 + "}"@.len()
    &&& input[pos] == '{'
}

/// Where the text of `g` stands, its parts stand at their places.
proof fn lemma_group_parts(input: Seq<char>, pos: int, e: int, g: GroupView)
    requires
        stands_at(input, pos, e, group_text(g)),
    ensures
        group_stands(input, pos, e, g),
{
    let t1 = "{\"name\":"@;
    let t2 = t1 + json_string(g.name);
    let t3 = t2 + ",\"created_at\":"@;
    let t4 = t3 + integer_text(g.created_at as int);
    lemma_stands_split(input, pos, e, t4, "}"@);
    lemma_stands_split(input, pos, pos + t4.len(), t3, integer_text(g.created_at as int));
    lemma_stands_split(input, pos, pos + t3.len(), t2, ",\"created_at\":"@);
    lemma_stands_split(input, pos, pos + t2.len(), t1, json_string(g.name));
    reveal_strlit("}");
    reveal_strlit("{\"name\":");
    assert(input.subrange(pos + t4.len(), e)[0] == input[pos + t4.len()]);
    assert(input.subrange(pos, pos + t1.len())[0] == input[pos]);
}

impl Record for Group {
    open spec fn text(v: GroupView) -> Seq<char> {
        group_text(v)
    }

    proof fn lemma_text_opens(v: GroupView) {
        reveal_strlit("{\"name\":");
        assert(group_text(v)[0] == '{');
    }

    fn write(&self, out: &mut Vec<char>) {
        push_text(out, "{\"name\":");
        push_json_string(out, self.name.as_str());
        push_text(out, ",\"created_at\":");
        push_integer(out, self.created_at);
        push_text(out, "}");
        assert(out@ =~= old(out)@ + group_text(self@));
    }

    fn read(input: &Vec<char>, pos: usize) -> (r: Option<(Self, usize)>) {
        let ghost text = input@;
        proof {
            assert forall|w: GroupView, e: int| #[trigger]
                stands_at(text, pos as int, e, group_text(w)) implies group_stands(
                text,
                pos as int,
                e,
                w,
            ) by {
                lemma_group_parts(text, pos as int, e, w);
            }
        }
        let p1 = expect(input, pos, "{\"name\":")?;
        let (name, p2) = parse_json_string(input, p1)?;
        let p3 = expect(input, p2, ",\"created_at\":")?;
        let (created_at, p4) = parse_integer(input, p3)?;
        let p5 = expect(input, p4, "}")?;
        let g = Group { name, created_at };
        proof {
            let t1 = "{\"name\":"@;
            let t2 = t1 + json_string(g@.name);
            let t3 = t2 + ",\"created_at\":"@;
            let t4 = t3 + integer_text(g@.created_at as int);
            lemma_stands_join(text, pos as int, p1 as int, p2 as int, t1, json_string(g@.name));
            lemma_stands_join(text, pos as int, p2 as int, p3 as int, t2, ",\"created_at\":"@);
            lemma_stands_join(
                text,
                pos as int,
                p3 as int,
                p4 as int,
                t3,
                integer_text(g@.created_at as int),
            );
            lemma_stands_join(text, pos as int, p4 as int, p5 as int, t4, "}"@);
        }
        Some((g, p5))
    }
}

/// The text of a host.
pub open spec fn host_text(w: HostView) -> Seq<char> {
    "{\"id\":"@
        + json_string(w.id)
        + ",\"name\":"@
        + json_string(w.name)
        + ",\"hostname\":"@
        + json_string(w.hostname)
        + ",\"port\":"@
        + decimal(w.port as nat)
        + ",\"username\":"@
        + optional_text(w.username)
        + ",\"auth\":"@
        + auth_text(w.auth)
        + ",\"group\":"@
        + optional_text(w.group)
        + ",\"tags\":"@
        + list_text(string_texts(w.tags))
        + ",\"notes\":"@
        + optional_text(w.notes)
        + ",\"created_at\":"@
        + integer_text(w.created_at as int)
        + ",\"updated_at\":"@
        + integer_text(w.updated_at as int)
        + "}"@
}

/// Each part of a host `w` stands in `input` at its place, from `pos` up to
/// `e`.
pub open spec fn host_stands(input: Seq<char>, pos: int, e: int, w: HostView) -> bool {
    let a1 = pos + "{\"id\":"@.len();
    let a2 = a1 + json_string(w.id).len();
    let a3 = a2 + ",\"name\":"@.len();
    let a4 = a3 + json_string(w.name).len();
    let a5 = a4 + ",\"hostname\":"@.len();
    let a6 = a5 + json_string(w.hostname).len();
    let a7 = a6 + ",\"port\":"@.len();
    let a8 = a7 + decimal(w.port as nat).len();
    let a9 = a8 + ",\"username\":"@.len();
    let a10 = a9 + optional_text(w.username).len();
    let a11 = a10 + ",\"auth\":"@.len();
    let a12 = a11 + auth_text(w.auth).len();
    let a13 = a12 + ",\"group\":"@.len();
    let a14 = a13 + optional_text(w.group).len();
    let a15 = a14 + ",\"tags\":"@.len();
    let a16 = a15 + list_text(string_texts(w.tags)).len();
    let a17 = a16 + ",\"notes\":"@.len();
    let a18 = a17 + optional_text(w.notes).len();
    let a19 = a18 + ",\"created_at\":"@.len();
    let a20 = a19 + integer_text(w.created_at as int).len();
    let a21 = a20 + ",\"updated_at\":"@.len();
    let a22 = a21 + integer_text(w.updated_at as int).len();
    &&& stands_at(input, pos, a1, "{\"id\":"@)
    &&& stands_at(input, a1, a2, json_string(w.id))
    &&& stands_at(input, a2, a3, ",\"name\":"@)
    &&& stands_at(input, a3, a4, json_string(w.name))
    &&& stands_at(input, a4, a5, ",\"hostname\":"@)
    &&& stands_at(input, a5, a6, json_string(w.hostname))
    &&& stands_at(input, a6, a7, ",\"port\":"@)
    &&& number_at(input, a7, a8, decimal(w.port as nat))
    &&& stands_at(input, a8, a9, ",\"username\":"@)
    &&& stands_at(input, a9, a10, optional_text(w.username))
    &&& stands_at(input, a10, a11, ",\"auth\":"@)
    &&& stands_at(input, a11, a12, auth_text(w.auth))
    &&& stands_at(input, a12, a13, ",\"group\":"@)
    &&& stands_at(input, a13, a14, optional_text(w.group))
    &&& stands_at(input, a14, a15, ",\"tags\":"@)
    &&& stands_at(input, a15, a16, list_text(string_texts(w.tags)))
    &&& stands_at(input, a16, a17, ",\"notes\":"@)
    &&& stands_at(input, a17, a18, optional_text(w.notes))
    &&& stands_at(input, a18, a19, ",\"created_at\":"@)
    &&& number_at(input, a19, a20, integer_text(w.created_at as int))
    &&& stands_at(input, a20, a21, ",\"updated_at\":"@)
    &&& number_at(input, a21, a22, integer_text(w.updated_at as int))
    &&& stands_at(input, a22, e, "}"@)
    &&& e == a22 + "}"@.len()
    &&& input[pos] == '{'
}

/// Where the text of `w` stands, its parts stand at their places.
proof fn lemma_host_parts(input: Seq<char>, pos: int, e: int, w: HostView)
    requires
        stands_at(input, pos, e, host_text(w)),
    ensures
        host_stands(input, pos, e, w),
{
    let t1 = "{\"id\":"@;
    let t2 = t1 + json_string(w.id);
    let t3 = t2 + ",\"name\":"@;
    let t4 = t3 + json_string(w.name);
    let t5 = t4 + ",\"hostname\":"@;
    let t6 = t5 + json_string(w.hostname);
    let t7 = t6 + ",\"port\":"@;
    let t8 = t7 + decimal(w.port as nat);
    let t9 = t8 + ",\"username\":"@;
    let t10 = t9 + optional_text(w.username);
    let t11 = t10 + ",\"auth\":"@;
    let t12 = t11 + auth_text(w.auth);
    let t13 = t12 + ",\"group\":"@;
    let t14 = t13 + optional_text(w.group);
    let t15 = t14 + ",\"tags\":"@;
    let t16 = t15 + list_text(string_texts(w.tags));
    let t17 = t16 + ",\"notes\":"@;
    let t18 = t17 + optional_text(w.notes);
    let t19 = t18 + ",\"created_at\":"@;
    let t20 = t19 + integer_text(w.created_at as int);
    let t21 = t20 + ",\"updated_at\":"@;
    let t22 = t21 + integer_text(w.updated_at as int);
    lemma_stands_split(input, pos, e, t22, "}"@);
    lemma_stands_split(input, pos, pos + t22.len(), t21, integer_text(w.updated_at as int));
    lemma_stands_split(input, pos, pos + t21.len(), t20, ",\"updated_at\":"@);
    lemma_stands_split(input, pos, pos + t20.len(), t19, integer_text(w.created_at as int));
    lemma_stands_split(input, pos, pos + t19.len(), t18, ",\"created_at\":"@);
    lemma_stands_split(input, pos, pos + t18.len(), t17, optional_text(w.notes));
    lemma_stands_split(input, pos, pos + t17.len(), t16, ",\"notes\":"@);
    lemma_stands_split(input, pos, pos + t16.len(), t15, list_text(string_texts(w.tags)));
    lemma_stands_split(input, pos, pos + t15.len(), t14, ",\"tags\":"@);
    lemma_stands_split(input, pos, pos + t14.len(), t13, optional_text(w.group));
    lemma_stands_split(input, pos, pos + t13.len(), t12, ",\"group\":"@);
    lemma_stands_split(input, pos, pos + t12.len(), t11, auth_text(w.auth));
    lemma_stands_split(input, pos, pos + t11.len(), t10, ",\"auth\":"@);
    lemma_stands_split(input, pos, pos + t10.len(), t9, optional_text(w.username));
    lemma_stands_split(input, pos, pos + t9.len(), t8, ",\"username\":"@);
    lemma_stands_split(input, pos, pos + t8.len(), t7, decimal(w.port as nat));
    lemma_stands_split(input, pos, pos + t7.len(), t6, ",\"port\":"@);
    lemma_stands_split(input, pos, pos + t6.len(), t5, json_string(w.hostname));
    lemma_stands_split(input, pos, pos + t5.len(), t4, ",\"hostname\":"@);
    lemma_stands_split(input, pos, pos + t4.len(), t3, json_string(w.name));
    lemma_stands_split(input, pos, pos + t3.len(), t2, ",\"name\":"@);
    lemma_stands_split(input, pos, pos + t2.len(), t1, json_string(w.id));
    reveal_strlit(",\"username\":");
    assert(input.subrange(pos + t8.len(), pos + t9.len())[0] == input[pos + t8.len()]);
    reveal_strlit(",\"updated_at\":");
    assert(input.subrange(pos + t20.len(), pos + t21.len())[0] == input[pos + t20.len()]);
    reveal_strlit("}");
    assert(input.subrange(pos + t22.len(), e)[0] == input[pos + t22.len()]);
    reveal_strlit("{\"id\":");
    assert(input.subrange(pos, pos + t1.len())[0] == input[pos]);
}

impl Record for Host {
    open spec fn text(v: HostView) -> Seq<char> {
        host_text(v)
    }

    proof fn lemma_text_opens(v: HostView) {
        reveal_strlit("{\"id\":");
        assert(host_text(v)[0] == '{');
    }

    fn write(&self, out: &mut Vec<char>) {
        let ghost start = out@;
        push_text(out, "{\"id\":");
        let ghost t1 = "{\"id\":"@;
        push_json_string(out, self.id.as_str());
        let ghost t2 = t1 + json_string(self@.id);
        proof {
            lemma_concat_assoc(start, t1, json_string(self@.id));
        }
        push_text(out, ",\"name\":");
        let ghost t3 = t2 + ",\"name\":"@;
        proof {
            lemma_concat_assoc(start, t2, ",\"name\":"@);
        }
        push_json_string(out, self.name.as_str());
        let ghost t4 = t3 + json_string(self@.name);
        proof {
            lemma_concat_assoc(start, t3, json_string(self@.name));
        }
        push_text(out, ",\"hostname\":");
        let ghost t5 = t4 + ",\"hostname\":"@;
        proof {
            lemma_concat_assoc(start, t4, ",\"hostname\":"@);
        }
        push_json_string(out, self.hostname.as_str());
        let ghost t6 = t5 + json_string(self@.hostname);
        proof {
            lemma_concat_assoc(start, t5, json_string(self@.hostname));
        }
        push_text(out, ",\"port\":");
        let ghost t7 = t6 + ",\"port\":"@;
        proof {
            lemma_concat_assoc(start, t6, ",\"port\":"@);
        }
        push_decimal(out, self.port as u128);
        let ghost t8 = t7 + decimal(self@.port as nat);
        proof {
            lemma_concat_assoc(start, t7, decimal(self@.port as nat));
        }
        push_text(out, ",\"username\":");
        let ghost t9 = t8 + ",\"username\":"@;
        proof {
            lemma_concat_assoc(start, t8, ",\"username\":"@);
        }
        write_optional(out, &self.username);
        let ghost t10 = t9 + optional_text(self@.username);
        proof {
            lemma_concat_assoc(start, t9, optional_text(self@.username));
        }
        push_text(out, ",\"auth\":");
        let ghost t11 = t10 + ",\"auth\":"@;
        proof {
            lemma_concat_assoc(start, t10, ",\"auth\":"@);
        }
        write_auth(out, &self.auth);
        let ghost t12 = t11 + auth_text(self@.auth);
        proof {
            lemma_concat_assoc(start, t11, auth_text(self@.auth));
        }
        push_text(out, ",\"group\":");
        let ghost t13 = t12 + ",\"group\":"@;
        proof {
            lemma_concat_assoc(start, t12, ",\"group\":"@);
        }
        write_optional(out, &self.group);
        let ghost t14 = t13 + optional_text(self@.group);
        proof {
            lemma_concat_assoc(start, t13, optional_text(self@.group));
        }
        push_text(out, ",\"tags\":");
        let ghost t15 = t14 + ",\"tags\":"@;
        proof {
            lemma_concat_assoc(start, t14, ",\"tags\":"@);
        }
        write_strings(out, &self.tags);
        let ghost t16 = t15 + list_text(string_texts(self@.tags));
        proof {
            lemma_concat_assoc(start, t15, list_text(string_texts(self@.tags)));
        }
        push_text(out, ",\"notes\":");
        let ghost t17 = t16 + ",\"notes\":"@;
        proof {
            lemma_concat_assoc(start, t16, ",\"notes\":"@);
        }
        write_optional(out, &self.notes);
        let ghost t18 = t17 + optional_text(self@.notes);
        proof {
            lemma_concat_assoc(start, t17, optional_text(self@.notes));
        }
        push_text(out, ",\"created_at\":");
        let ghost t19 = t18 + ",\"created_at\":"@;
        proof {
            lemma_concat_assoc(start, t18, ",\"created_at\":"@);
        }
        push_integer(out, self.created_at);
        let ghost t20 = t19 + integer_text(self@.created_at as int);
        proof {
            lemma_concat_assoc(start, t19, integer_text(self@.created_at as int));
        }
        push_text(out, ",\"updated_at\":");
        let ghost t21 = t20 + ",\"updated_at\":"@;
        proof {
            lemma_concat_assoc(start, t20, ",\"updated_at\":"@);
        }
        push_integer(out, self.updated_at);
        let ghost t22 = t21 + integer_text(self@.updated_at as int);
        proof {
            lemma_concat_assoc(start, t21, integer_text(self@.updated_at as int));
        }
        push_text(out, "}");
        let ghost t23 = t22 + "}"@;
        proof {
            lemma_concat_assoc(start, t22, "}"@);
        }
    }

    fn read(input: &Vec<char>, pos: usize) -> (r: Option<(Self, usize)>) {
        let ghost text = input@;
        proof {
            assert forall|w: HostView, e: int| #[trigger]
                stands_at(text, pos as int, e, host_text(w)) implies host_stands(
                text,
                pos as int,
                e,
                w,
            ) by {
                lemma_host_parts(text, pos as int, e, w);
            }
        }
        let p1 = expect(input, pos, "{\"id\":")?;
        let (id, p2) = parse_json_string(input, p1)?;
        let p3 = expect(input, p2, ",\"name\":")?;
        let (name, p4) = parse_json_string(input, p3)?;
        let p5 = expect(input, p4, ",\"hostname\":")?;
        let (hostname, p6) = parse_json_string(input, p5)?;
        let p7 = expect(input, p6, ",\"port\":")?;
        let (port, p8) = parse_decimal(input, p7, 65535)?;
        let p9 = expect(input, p8, ",\"username\":")?;
        let (username, p10) = read_optional(input, p9)?;
        let p11 = expect(input, p10, ",\"auth\":")?;
        let (auth, p12) = read_auth(input, p11)?;
        let p13 = expect(input, p12, ",\"group\":")?;
        let (group, p14) = read_optional(input, p13)?;
        let p15 = expect(input, p14, ",\"tags\":")?;
        let (tags, p16) = read_strings(input, p15)?;
        let p17 = expect(input, p16, ",\"notes\":")?;
        let (notes, p18) = read_optional(input, p17)?;
        let p19 = expect(input, p18, ",\"created_at\":")?;
        let (created_at, p20) = parse_integer(input, p19)?;
        let p21 = expect(input, p20, ",\"updated_at\":")?;
        let (updated_at, p22) = parse_integer(input, p21)?;
        let p23 = expect(input, p22, "}")?;
        let h = Host {
            id,
            name,
            hostname,
            port: port as u16,
            username,
            auth,
            group,
            tags,
            notes,
            created_at,
            updated_at,
        };
        proof {
            let t1 = "{\"id\":"@;
            let t2 = t1 + json_string(h@.id);
            let t3 = t2 + ",\"name\":"@;
            let t4 = t3 + json_string(h@.name);
            let t5 = t4 + ",\"hostname\":"@;
            let t6 = t5 + json_string(h@.hostname);
            let t7 = t6 + ",\"port\":"@;
            let t8 = t7 + decimal(h@.port as nat);
            let t9 = t8 + ",\"username\":"@;
            let t10 = t9 + optional_text(h@.username);
            let t11 = t10 + ",\"auth\":"@;
            let t12 = t11 + auth_text(h@.auth);
            let t13 = t12 + ",\"group\":"@;
            let t14 = t13 + optional_text(h@.group);
            let t15 = t14 + ",\"tags\":"@;
            let t16 = t15 + list_text(string_texts(h@.tags));
            let t17 = t16 + ",\"notes\":"@;
            let t18 = t17 + optional_text(h@.notes);
            let t19 = t18 + ",\"created_at\":"@;
            let t20 = t19 + integer_text(h@.created_at as int);
            let t21 = t20 + ",\"updated_at\":"@;
            let t22 = t21 + integer_text(h@.updated_at as int);
            lemma_stands_join(text, pos as int, p1 as int, p2 as int, t1, json_string(h@.id));
            lemma_stands_join(text, pos as int, p2 as int, p3 as int, t2, ",\"name\":"@);
            lemma_stands_join(text, pos as int, p3 as int, p4 as int, t3, json_string(h@.name));
            lemma_stands_join(text, pos as int, p4 as int, p5 as int, t4, ",\"hostname\":"@);
            lemma_stands_join(text, pos as int, p5 as int, p6 as int, t5, json_string(h@.hostname));
            lemma_stands_join(text, pos as int, p6 as int, p7 as int, t6, ",\"port\":"@);
            lemma_stands_join(text, pos as int, p7 as int, p8 as int, t7, decimal(h@.port as nat));
            lemma_stands_join(text, pos as int, p8 as int, p9 as int, t8, ",\"username\":"@);
            lemma_stands_join(text, pos as int, p9 as int, p10 as int, t9, optional_text(h@.username));
            lemma_stands_join(text, pos as int, p10 as int, p11 as int, t10, ",\"auth\":"@);
            lemma_stands_join(text, pos as int, p11 as int, p12 as int, t11, auth_text(h@.auth));
            lemma_stands_join(text, pos as int, p12 as int, p13 as int, t12, ",\"group\":"@);
            lemma_stands_join(text, pos as int, p13 as int, p14 as int, t13, optional_text(h@.group));
            lemma_stands_join(text, pos as int, p14 as int, p15 as int, t14, ",\"tags\":"@);
            lemma_stands_join(text, pos as int, p15 as int, p16 as int, t15, list_text(string_texts(h@.tags)));
            lemma_stands_join(text, pos as int, p16 as int, p17 as int, t16, ",\"notes\":"@);
            lemma_stands_join(text, pos as int, p17 as int, p18 as int, t17, optional_text(h@.notes));
            lemma_stands_join(text, pos as int, p18 as int, p19 as int, t18, ",\"created_at\":"@);
            lemma_stands_join(text, pos as int, p19 as int, p20 as int, t19, integer_text(h@.created_at as int));
            lemma_stands_join(text, pos as int, p20 as int, p21 as int, t20, ",\"updated_at\":"@);
            lemma_stands_join(text, pos as int, p21 as int, p22 as int, t21, integer_text(h@.updated_at as int));
            lemma_stands_join(text, pos as int, p22 as int, p23 as int, t22, "}"@);
        }
        Some((h, p23))
    }
}

/// The texts of a list of groups.
pub open spec fn group_texts(t: Seq<GroupView>) -> Seq<Seq<char>> {
    Seq::new(t.len(), |i: int| group_text(t[i]))
}

/// Appends a list of groups.
pub fn write_groups(out: &mut Vec<char>, items: &Vec<Group>)
    ensures
        final(out)@ == old(out)@ + list_text(group_texts(views(items@))),
{
    assert(part_texts::<Group>(views(items@)) =~= group_texts(views(items@)));
    write_list::<Group>(out, items);
}

/// Reads at `pos` the one list of groups whose text stands there.
pub fn read_groups(input: &Vec<char>, pos: usize) -> (r: Option<(Vec<Group>, usize)>)
    ensures
        r matches Some((v, end)) ==> stands_at(
            input@,
            pos as int,
            end as int,
            list_text(group_texts(views(v@))),
        ),
        forall|w: Seq<GroupView>, e: int| #[trigger]
            stands_at(input@, pos as int, e, list_text(group_texts(w))) ==> (r matches Some(
                (v, end),
            ) && views(v@) == w && end == e),
{
    proof {
        assert forall|w: Seq<GroupView>| #[trigger] part_texts::<Group>(w) == group_texts(w) by {
            assert(part_texts::<Group>(w) =~= group_texts(w));
        }
    }
    let r = read_list::<Group>(input, pos);
    proof {
        assert forall|w: Seq<GroupView>, e: int| #[trigger]
            stands_at(input@, pos as int, e, list_text(group_texts(w))) implies (r matches Some(
            (v, end),
        ) && views(v@) == w && end == e) by {
            assert(stands_at(input@, pos as int, e, list_text(part_texts::<Group>(w))));
        }
    }
    r
}

/// The texts of a list of hosts.
pub open spec fn host_texts(t: Seq<HostView>) -> Seq<Seq<char>> {
    Seq::new(t.len(), |i: int| host_text(t[i]))
}

/// Appends a list of hosts.
pub fn write_hosts(out: &mut Vec<char>, items: &Vec<Host>)
    ensures
        final(out)@ == old(out)@ + list_text(host_texts(views(items@))),
{
    assert(part_texts::<Host>(views(items@)) =~= host_texts(views(items@)));
    write_list::<Host>(out, items);
}

/// Reads at `pos` the one list of hosts whose text stands there.
pub fn read_hosts(input: &Vec<char>, pos: usize) -> (r: Option<(Vec<Host>, usize)>)
    ensures
        r matches Some((v, end)) ==> stands_at(
            input@,
            pos as int,
            end as int,
            list_text(host_texts(views(v@))),
        ),
        forall|w: Seq<HostView>, e: int| #[trigger]
            stands_at(input@, pos as int, e, list_text(host_texts(w))) ==> (r matches Some(
                (v, end),
            ) && views(v@) == w && end == e),
{
    proof {
        assert forall|w: Seq<HostView>| #[trigger] part_texts::<Host>(w) == host_texts(w) by {
            assert(part_texts::<Host>(w) =~= host_texts(w));
        }
    }
    let r = read_list::<Host>(input, pos);
    proof {
        assert forall|w: Seq<HostView>, e: int| #[trigger]
            stands_at(input@, pos as int, e, list_text(host_texts(w))) implies (r matches Some(
            (v, end),
        ) && views(v@) == w && end == e) by {
            assert(stands_at(input@, pos as int, e, list_text(part_texts::<Host>(w))));
        }
    }
    r
}

/// The text of a vault.
pub open spec fn vault_text(w: VaultView) -> Seq<char> {
    "{\"version\":"@
        + decimal(w.version as nat)
        + ",\"groups\":"@
        + list_text(group_texts(w.groups))
        + ",\"hosts\":"@
        + list_text(host_texts(w.hosts))
        + "}"@
}

/// Each part of a vault `w` stands in `input` at its place, from `pos` up to
/// `e`.
pub open spec fn vault_stands(input: Seq<char>, pos: int, e: int, w: VaultView) -> bool {
    let a1 = pos + "{\"version\":"@.len();
    let a2 = a1 + decimal(w.version as nat).len();
    let a3 = a2 + ",\"groups\":"@.len();
    let a4 = a3 + list_text(group_texts(w.groups)).len();
    let a5 = a4 + ",\"hosts\":"@.len();
    let a6 = a5 + list_text(host_texts(w.hosts)).len();
    &&& stands_at(input, pos, a1, "{\"version\":"@)
    &&& number_at(input, a1, a2, decimal(w.version as nat))
    &&& stands_at(input, a2, a3, ",\"groups\":"@)
    &&& stands_at(input, a3, a4, list_text(group_texts(w.groups)))
    &&& stands_at(input, a4, a5, ",\"hosts\":"@)
    &&& stands_at(input, a5, a6, list_text(host_texts(w.hosts)))
    &&& stands_at(input, a6, e, "}"@)
    &&& e == a6 + "}"@.len()
    &&& input[pos] == '{'
}

/// Where the text of `w` stands, its parts stand at their places.
proof fn lemma_vault_parts(input: Seq<char>, pos: int, e: int, w: VaultView)
    requires
        stands_at(input, pos, e, vault_text(w)),
    ensures
        vault_stands(input, pos, e, w),
{
    let t1 = "{\"version\":"@;
    let t2 = t1 + decimal(w.version as nat);
    let t3 = t2 + ",\"groups\":"@;
    let t4 = t3 + list_text(group_texts(w.groups));
    let t5 = t4 + ",\"hosts\":"@;
    let t6 = t5 + list_text(host_texts(w.hosts));
    lemma_stands_split(input, pos, e, t6, "}"@);
    lemma_stands_split(input, pos, pos + t6.len(), t5, list_text(host_texts(w.hosts)));
    lemma_stands_split(input, pos, pos + t5.len(), t4, ",\"hosts\":"@);
    lemma_stands_split(input, pos, pos + t4.len(), t3, list_text(group_texts(w.groups)));
    lemma_stands_split(input, pos, pos + t3.len(), t2, ",\"groups\":"@);
    lemma_stands_split(input, pos, pos + t2.len(), t1, decimal(w.version as nat));
    reveal_strlit(",\"groups\":");
    assert(input.subrange(pos + t2.len(), pos + t3.len())[0] == input[pos + t2.len()]);
    reveal_strlit("{\"version\":");
    assert(input.subrange(pos, pos + t1.len())[0] == input[pos]);
}

impl Record for Vault {
    open spec fn text(v: VaultView) -> Seq<char> {
        vault_text(v)
    }

    proof fn lemma_text_opens(v: VaultView) {
        reveal_strlit("{\"version\":");
        assert(vault_text(v)[0] == '{');
    }

    fn write(&self, out: &mut Vec<char>) {
        let ghost start = out@;
        push_text(out, "{\"version\":");
        let ghost t1 = "{\"version\":"@;
        push_decimal(out, self.version as u128);
        let ghost t2 = t1 + decimal(self@.version as nat);
        proof {
            lemma_concat_assoc(start, t1, decimal(self@.version as nat));
        }
        push_text(out, ",\"groups\":");
        let ghost t3 = t2 + ",\"groups\":"@;
        proof {
            lemma_concat_assoc(start, t2, ",\"groups\":"@);
        }
        write_groups(out, &self.groups);
        let ghost t4 = t3 + list_text(group_texts(self@.groups));
        proof {
            lemma_concat_assoc(start, t3, list_text(group_texts(self@.groups)));
        }
        push_text(out, ",\"hosts\":");
        let ghost t5 = t4 + ",\"hosts\":"@;
        proof {
            lemma_concat_assoc(start, t4, ",\"hosts\":"@);
        }
        write_hosts(out, &self.hosts);
        let ghost t6 = t5 + list_text(host_texts(self@.hosts));
        proof {
            lemma_concat_assoc(start, t5, list_text(host_texts(self@.hosts)));
        }
        push_text(out, "}");
        let ghost t7 = t6 + "}"@;
        proof {
            lemma_concat_assoc(start, t6, "}"@);
        }
    }

    fn read(input: &Vec<char>, pos: usize) -> (r: Option<(Self, usize)>) {
        let ghost text = input@;
        proof {
            assert forall|w: VaultView, e: int| #[trigger]
                stands_at(text, pos as int, e, vault_text(w)) implies vault_stands(
                text,
                pos as int,
                e,
                w,
            ) by {
                lemma_vault_parts(text, pos as int, e, w);
            }
        }
        let p1 = expect(input, pos, "{\"version\":")?;
        let (version, p2) = parse_decimal(input, p1, 255)?;
        let p3 = expect(input, p2, ",\"groups\":")?;
        let (groups, p4) = read_groups(input, p3)?;
        let p5 = expect(input, p4, ",\"hosts\":")?;
        let (hosts, p6) = read_hosts(input, p5)?;
        let p7 = expect(input, p6, "}")?;
        let v = Vault { version: version as u8, groups, hosts };
        proof {
            let t1 = "{\"version\":"@;
            let t2 = t1 + decimal(v@.version as nat);
            let t3 = t2 + ",\"groups\":"@;
            let t4 = t3 + list_text(group_texts(v@.groups));
            let t5 = t4 + ",\"hosts\":"@;
            let t6 = t5 + list_text(host_texts(v@.hosts));
            lemma_stands_join(text, pos as int, p1 as int, p2 as int, t1, decimal(v@.version as nat));
            lemma_stands_join(text, pos as int, p2 as int, p3 as int, t2, ",\"groups\":"@);
            lemma_stands_join(text, pos as int, p3 as int, p4 as int, t3, list_text(group_texts(v@.groups)));
            lemma_stands_join(text, pos as int, p4 as int, p5 as int, t4, ",\"hosts\":"@);
            lemma_stands_join(text, pos as int, p5 as int, p6 as int, t5, list_text(host_texts(v@.hosts)));
            lemma_stands_join(text, pos as int, p6 as int, p7 as int, t6, "}"@);
        }
        Some((v, p7))
    }
}


/// Writes a vault down.
pub fn serialize_vault(vault: &Vault) -> (r: String)
    ensures
        r@ == vault_text(vault@),
{
    let mut out: Vec<char> = Vec::new();
    vault.write(&mut out);
    assert(out@ =~= vault_text(vault@));
    string_of(&out)
}

/// Reads a vault. The text must be the canonical text of a vault from its
/// first to its last character: a text is read as the vault `w` exactly when
/// it is the text of `w`.
pub fn parse_vault(text: &str) -> (r: Option<Vault>)
    ensures
        r matches Some(v) ==> text@ == vault_text(v@),
        forall|w: VaultView| text@ == #[trigger] vault_text(w) ==> (r matches Some(v) && v@ == w),
{
    let input = chars_of(text);
    let ghost whole = input@;
    let r = Vault::read(&input, 0);
    proof {
        assert forall|w: VaultView| whole == #[trigger] vault_text(w) implies stands_at(
            whole,
            0,
            whole.len() as int,
            <Vault as Record>::text(w),
        ) by {
            lemma_stands_whole(whole, vault_text(w));
        }
    }
    match r {
        Some((v, end)) => {
            if end == input.len() {
                proof {
                    lemma_stands_whole(whole, vault_text(v@));
                }
                Some(v)
            } else {
                None
            }
        },
        None => None,
    }
}

} // verus!
