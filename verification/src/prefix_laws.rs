//! What holds of rewriting type expressions, for every namespace.

use vstd::prelude::*;
use crate::text::{
    in_class, is_ident_char, is_whitespace, lemma_run_end_bounds, lemma_run_end_is,
    lemma_run_start_bounds, lemma_trim_len, run_end, run_start, strip_commas, trim, CharClass,
};
use crate::type_expr::{
    closer, closes_at, depth_after, entries, entry, fragments, group, ident_len, is_intrinsic,
    is_open_bracket, lemma_entry_consumes, lemma_matching_close_inside, matching_close,
    next_entry, prefixed, qualify,
};

verus! {

/// `id` is an identifier: one or more identifier characters, and no white
/// space at either end.
pub open spec fn is_identifier(id: Seq<char>) -> bool {
    &&& id.len() > 0
    &&& forall|i: int| 0 <= i < id.len() ==> is_ident_char(#[trigger] id[i])
    &&& !is_whitespace(id[0])
    &&& !is_whitespace(id.last())
}

/// Text without white space at either end is its own trimmed form.
pub proof fn lemma_trim_is(s: Seq<char>)
    requires
        s.len() > 0,
        !is_whitespace(s[0]),
        !is_whitespace(s.last()),
    ensures
        trim(s) == s,
{
    assert(run_start(s, CharClass::Space, s.len() as int) == s.len());
    assert(s.take(s.len() as int) =~= s);
    assert(run_end(s, CharClass::Space, 0) == 0);
    assert(s.subrange(0, s.len() as int) =~= s);
}

/// An identifier that stands alone is rewritten to its qualified form.
pub proof fn lemma_identifier_is_qualified(ns: Seq<char>, id: Seq<char>)
    requires
        is_identifier(id),
    ensures
        prefixed(ns, id) == Some(qualify(ns, id)),
{
    lemma_trim_is(id);
    assert forall|k: int| 0 <= k < id.len() implies in_class(CharClass::Ident, #[trigger] id[k]) by {
        assert(is_ident_char(id[k]));
    }
    lemma_run_end_is(id, CharClass::Ident, 0, id.len() as int);
    assert(ident_len(id) == id.len());
    assert(is_ident_char(id[0]));
    assert(!is_open_bracket(id[0]));
    assert(id.take(id.len() as int) =~= id);
    assert(id.skip(id.len() as int) =~= Seq::<char>::empty());
    assert(entry(ns, id) == Some((qualify(ns, id), Seq::<char>::empty())));
    assert(fragments(ns, Seq::<char>::empty()) == Some(Seq::<char>::empty()));
    assert(qualify(ns, id) + Seq::<char>::empty() =~= qualify(ns, id));
}

/// The names that TypeScript itself defines are identifiers.
pub proof fn lemma_intrinsic_is_identifier(id: Seq<char>)
    requires
        is_intrinsic(id),
    ensures
        is_identifier(id),
{
    reveal_strlit("string");
    reveal_strlit("number");
    reveal_strlit("boolean");
    reveal_strlit("any");
    reveal_strlit("void");
    reveal_strlit("never");
    reveal_strlit("unknown");
    reveal_strlit("null");
    reveal_strlit("Array");
}

/// A name that TypeScript itself defines is left as it is, whatever the
/// namespace.
pub proof fn lemma_intrinsic_unchanged(ns: Seq<char>, id: Seq<char>)
    requires
        is_intrinsic(id),
    ensures
        prefixed(ns, id) == Some(id),
{
    lemma_intrinsic_is_identifier(id);
    lemma_identifier_is_qualified(ns, id);
}

/// Any other identifier is put into the namespace.
pub proof fn lemma_identifier_prefixed(ns: Seq<char>, id: Seq<char>)
    requires
        is_identifier(id),
        !is_intrinsic(id),
    ensures
        prefixed(ns, id) == Some(ns + seq!['.'] + id),
{
    lemma_identifier_is_qualified(ns, id);
}

/// The characters a well-formed type expression is made of.
pub open spec fn in_alphabet(c: char) -> bool {
    is_ident_char(c) || is_whitespace(c) || c == ',' || c == '[' || c == ']' || c == '<' || c
        == '>'
}

pub open spec fn all_in_alphabet(s: Seq<char>) -> bool {
    forall|i: int| 0 <= i < s.len() ==> in_alphabet(#[trigger] s[i])
}

/// Trimming takes white space from both ends, and nothing else.
pub proof fn lemma_trim_parts(s: Seq<char>) -> (r: (int, int))
    ensures
        0 <= r.0 <= r.1 <= s.len(),
        trim(s) == s.subrange(r.0, r.1),
        forall|i: int| 0 <= i < r.0 ==> is_whitespace(#[trigger] s[i]),
        forall|i: int| r.1 <= i < s.len() ==> is_whitespace(#[trigger] s[i]),
{
    let end = run_start(s, CharClass::Space, s.len() as int);
    lemma_run_start_bounds(s, CharClass::Space, s.len() as int);
    let head = s.take(end);
    let start = run_end(head, CharClass::Space, 0);
    lemma_run_end_bounds(head, CharClass::Space, 0);
    assert forall|i: int| 0 <= i < start implies is_whitespace(#[trigger] s[i]) by {
        assert(in_class(CharClass::Space, head[i]));
    }
    assert forall|i: int| end <= i < s.len() implies is_whitespace(#[trigger] s[i]) by {
        assert(in_class(CharClass::Space, s[i]));
    }
    (start, end)
}

/// What an entry takes from the trimmed text is made of the alphabet, and
/// what follows it is the end of the trimmed text.
proof fn lemma_entry_alphabet(ns: Seq<char>, s: Seq<char>)
    ensures
        entry(ns, s) matches Some((text, rest)) ==> {
            let t = trim(s);
            &&& rest.len() <= t.len()
            &&& rest == t.skip(t.len() - rest.len())
            &&& forall|i: int| 0 <= i < t.len() - rest.len() ==> in_alphabet(#[trigger] t[i])
        },
    decreases s.len(), 2int,
{
    let t = trim(s);
    lemma_trim_len(s);
    lemma_run_end_bounds(t, CharClass::Ident, 0);
    let n = ident_len(t);
    if t.len() > 0 && is_open_bracket(t[0]) {
        lemma_group_alphabet(ns, t);
    } else if n > 0 {
        let tail = t.skip(n);
        assert forall|i: int| 0 <= i < n implies in_alphabet(#[trigger] t[i]) by {
            assert(in_class(CharClass::Ident, t[i]));
        }
        if tail.len() > 0 && tail[0] == '<' {
            lemma_group_alphabet(ns, tail);
            if group(ns, tail) is Some {
                let rest = group(ns, tail).unwrap().1;
                let k = tail.len() - rest.len();
                assert(tail.skip(k) =~= t.skip(n + k));
                assert forall|i: int| 0 <= i < t.len() - rest.len() implies in_alphabet(
                    #[trigger] t[i],
                ) by {
                    if i >= n {
                        assert(t[i] == tail[i - n]);
                    }
                }
            }
        }
    }
}

proof fn lemma_group_alphabet(ns: Seq<char>, t: Seq<char>)
    ensures
        group(ns, t) matches Some((text, rest)) ==> {
            &&& rest.len() <= t.len()
            &&& rest == t.skip(t.len() - rest.len())
            &&& forall|i: int| 0 <= i < t.len() - rest.len() ==> in_alphabet(#[trigger] t[i])
        },
    decreases t.len(), 1int,
{
    if t.len() > 0 && is_open_bracket(t[0]) {
        lemma_matching_close_inside(t);
        let open = t[0];
        let close = closer(open);
        match matching_close(t, open, close) {
            Some(end) => {
                let body = t.subrange(1, end);
                lemma_entries_alphabet(ns, body);
                if entries(ns, body) is Some {
                    assert(closes_at(t, open, close, end));
                    assert(depth_after(t, open, close, end - 1) != 0);
                    assert(t[end] == open || t[end] == close);
                    assert forall|i: int| 0 <= i < end + 1 implies in_alphabet(#[trigger] t[i]) by {
                        if 1 <= i < end {
                            assert(t[i] == body[i - 1]);
                        }
                    }
                }
            },
            None => {},
        }
    }
}

proof fn lemma_entries_alphabet(ns: Seq<char>, s: Seq<char>)
    ensures
        entries(ns, s) is Some ==> all_in_alphabet(s),
    decreases s.len(), 3int,
{
    if s.len() > 0 && entries(ns, s) is Some {
        lemma_entry_alphabet(ns, s);
        let rest = entry(ns, s).unwrap().1;
        let next = next_entry(rest);
        if next.len() > 0 {
            lemma_entries_alphabet(ns, next);
        }
        lemma_rest_alphabet(s, rest, next);
    }
}

/// Where what an entry of `s` takes is made of the alphabet, and so is what
/// comes after the commas and white space that follow it, all of `s` is.
proof fn lemma_rest_alphabet(s: Seq<char>, rest: Seq<char>, next: Seq<char>)
    requires
        rest.len() <= trim(s).len(),
        rest == trim(s).skip(trim(s).len() - rest.len()),
        forall|i: int| 0 <= i < trim(s).len() - rest.len() ==> in_alphabet(#[trigger] trim(s)[i]),
        next == next_entry(rest),
        all_in_alphabet(next),
    ensures
        all_in_alphabet(s),
{
    let t = trim(s);
    let (a, e) = lemma_trim_parts(s);
    let k = t.len() - rest.len();
    let c = run_end(rest, CharClass::Comma, 0);
    lemma_run_end_bounds(rest, CharClass::Comma, 0);
    let stripped = strip_commas(rest);
    let (a2, e2) = lemma_trim_parts(stripped);
    assert forall|i: int| 0 <= i < s.len() implies in_alphabet(#[trigger] s[i]) by {
        if i < a || i >= e {
        } else if i < a + k {
            assert(s[i] == t[i - a]);
        } else {
            let j = i - a - k;
            assert(s[i] == t[i - a]);
            assert(t[i - a] == rest[j]);
            if j < c {
                assert(in_class(CharClass::Comma, rest[j]));
            } else {
                let m = j - c;
                assert(rest[j] == stripped[m]);
                if a2 <= m < e2 {
                    assert(stripped[m] == next[m - a2]);
                }
            }
        }
    }
}

/// A well-formed type expression is made of identifier characters, white
/// space, commas and the four brackets.
pub proof fn lemma_well_formed_alphabet(ns: Seq<char>, s: Seq<char>)
    ensures
        prefixed(ns, s) is Some ==> all_in_alphabet(s),
    decreases s.len(),
{
    if s.len() > 0 && fragments(ns, s) is Some {
        lemma_entry_alphabet(ns, s);
        lemma_entry_consumes(ns, s);
        let rest = entry(ns, s).unwrap().1;
        lemma_well_formed_alphabet(ns, rest);
        let t = trim(s);
        let (a, e) = lemma_trim_parts(s);
        let k = t.len() - rest.len();
        assert forall|i: int| 0 <= i < s.len() implies in_alphabet(#[trigger] s[i]) by {
            if i < a || i >= e {
            } else if i < a + k {
                assert(s[i] == t[i - a]);
            } else {
                assert(s[i] == t[i - a]);
                assert(t[i - a] == rest[i - a - k]);
            }
        }
    }
}

/// Rewriting is not idempotent: where it has put an identifier into a
/// namespace, its result holds a `.` and is no type expression, so that it
/// cannot be rewritten again, into whatever namespace.
pub proof fn lemma_prefixing_twice_fails(ns: Seq<char>, id: Seq<char>, again: Seq<char>)
    requires
        is_identifier(id),
        !is_intrinsic(id),
    ensures
        prefixed(ns, id) == Some(ns + seq!['.'] + id),
        prefixed(again, ns + seq!['.'] + id) is None,
{
    lemma_identifier_prefixed(ns, id);
    let once = ns + seq!['.'] + id;
    lemma_well_formed_alphabet(again, once);
    assert(once[ns.len() as int] == '.');
    assert(!in_alphabet('.'));
}

/// No text with a `.` in it is a type expression.
pub proof fn lemma_dot_is_malformed(ns: Seq<char>, s: Seq<char>)
    requires
        s.contains('.'),
    ensures
        prefixed(ns, s) is None,
{
    lemma_well_formed_alphabet(ns, s);
    let i = choose|i: int| 0 <= i < s.len() && s[i] == '.';
    assert(!in_alphabet(s[i]));
}

} // verus!
