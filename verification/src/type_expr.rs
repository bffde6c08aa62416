//! Type expressions and their rewriting into an endpoint's namespace.
//!
//! A type expression is text in a small grammar: an identifier, an identifier
//! followed by a list of arguments in `<` `>`, or a list in `[` `]`, nested to
//! any depth. Rewriting puts `namespace.` before every identifier that is not
//! built into TypeScript and separates the entries of a list by `", "`.

use vstd::prelude::*;
use crate::text::{
    from_chars, lemma_run_end_bounds, lemma_strip_commas_len, lemma_trim_len, push_chars, run_end,
    scan_run, strip_commas, strip_commas_chars, to_chars, trim, trim_chars, CharClass,
};
use crate::error::{ExportError, Failure};
use vstd::slice::slice_subrange;

verus! {

/// What a character adds to the nesting depth of the pair `open`, `close`.
pub open spec fn step(c: char, open: char, close: char) -> int {
    if c == open {
        1
    } else if c == close {
        -1
    } else {
        0
    }
}

/// The nesting depth of the pair `open`, `close` after the characters of `s`
/// up to and with the one at `i`.
pub open spec fn depth_after(s: Seq<char>, open: char, close: char, i: int) -> int
    decreases i + 1,
{
    if i < 0 {
        0
    } else {
        depth_after(s, open, close, i - 1) + step(s[i], open, close)
    }
}

/// `i` is the first index of `s` after which the depth is zero.
pub open spec fn closes_at(s: Seq<char>, open: char, close: char, i: int) -> bool {
    &&& 0 <= i < s.len()
    &&& depth_after(s, open, close, i) == 0
    &&& forall|j: int| 0 <= j < i ==> #[trigger] depth_after(s, open, close, j) != 0
}

/// The first index of `s` after which the depth is zero, if there is one. For
/// an `s` that starts with `open` this is the index of the matching `close`.
pub open spec fn matching_close(s: Seq<char>, open: char, close: char) -> Option<int> {
    if exists|i: int| closes_at(s, open, close, i) {
        Some(choose|i: int| closes_at(s, open, close, i))
    } else {
        None
    }
}

/// The bracket that closes the first one stands behind it.
pub proof fn lemma_matching_close_inside(t: Seq<char>)
    requires
        t.len() > 0,
        is_open_bracket(t[0]),
    ensures
        matching_close(t, t[0], closer(t[0])) matches Some(end) ==> 0 < end < t.len(),
{
    assert(depth_after(t, t[0], closer(t[0]), 0) == 1) by {
        assert(depth_after(t, t[0], closer(t[0]), -1) == 0);
    }
}

/// The identifiers that TypeScript itself defines. They are never qualified.
pub open spec fn is_intrinsic(id: Seq<char>) -> bool {
    ||| id == "string"@
    ||| id == "number"@
    ||| id == "boolean"@
    ||| id == "any"@
    ||| id == "void"@
    ||| id == "never"@
    ||| id == "unknown"@
    ||| id == "null"@
    ||| id == "Array"@
}

/// An identifier as it stands in namespace `ns`.
pub open spec fn qualify(ns: Seq<char>, id: Seq<char>) -> Seq<char> {
    if is_intrinsic(id) {
        id
    } else {
        ns + seq!['.'] + id
    }
}

pub open spec fn is_open_bracket(c: char) -> bool {
    c == '[' || c == '<'
}

/// The bracket that closes `open`.
pub open spec fn closer(open: char) -> char {
    if open == '[' {
        ']'
    } else {
        '>'
    }
}

/// The length of the identifier at the start of `s`.
pub open spec fn ident_len(s: Seq<char>) -> int {
    run_end(s, CharClass::Ident, 0)
}

/// What follows an entry inside a list, up to the next entry.
pub open spec fn next_entry(rest: Seq<char>) -> Seq<char> {
    trim(strip_commas(rest))
}

/// The entry at the start of `s`: its rewritten text and what follows it in
/// `s`. White space around `s` is dropped first. `None` where no entry stands
/// there: a bracket without its partner, or no identifier.
pub open spec fn entry(ns: Seq<char>, s: Seq<char>) -> Option<(Seq<char>, Seq<char>)>
    decreases s.len(), 2int,
{
    let t = trim(s);
    let n = ident_len(t);
    if t.len() > 0 && is_open_bracket(t[0]) {
        proof {
            lemma_trim_len(s);
        }
        group(ns, t)
    } else if n > 0 {
        let head = qualify(ns, t.take(n));
        let tail = t.skip(n);
        if tail.len() > 0 && tail[0] == '<' {
            proof {
                lemma_trim_len(s);
                lemma_run_end_bounds(t, CharClass::Ident, 0);
            }
            match group(ns, tail) {
                Some((args, rest)) => Some((head + args, rest)),
                None => None,
            }
        } else {
            Some((head, tail))
        }
    } else {
        None
    }
}

/// The bracketed list at the start of `t`, which starts with `[` or `<`: the
/// brackets around its rewritten entries, and what follows the closing
/// bracket.
pub open spec fn group(ns: Seq<char>, t: Seq<char>) -> Option<(Seq<char>, Seq<char>)>
    decreases t.len(), 1int,
{
    if t.len() > 0 && is_open_bracket(t[0]) {
        match matching_close(t, t[0], closer(t[0])) {
            Some(end) => {
                proof {
                    lemma_matching_close_inside(t);
                }
                match entries(ns, t.subrange(1, end)) {
                    Some(body) => Some((seq![t[0]] + body + seq![closer(t[0])], t.skip(end + 1))),
                    None => None,
                }
            },
            None => None,
        }
    } else {
        None
    }
}

/// An entry is at least one character long.
pub proof fn lemma_entry_consumes(ns: Seq<char>, s: Seq<char>)
    ensures
        entry(ns, s) matches Some((text, rest)) ==> rest.len() < s.len(),
{
    let t = trim(s);
    lemma_trim_len(s);
    lemma_run_end_bounds(t, CharClass::Ident, 0);
    if t.len() > 0 && is_open_bracket(t[0]) {
        lemma_matching_close_inside(t);
    } else if ident_len(t) > 0 {
        let tail = t.skip(ident_len(t));
        if tail.len() > 0 && tail[0] == '<' {
            lemma_matching_close_inside(tail);
        }
    }
}

/// The entries of a list, rewritten and joined by `", "`. Commas and white
/// space between two entries are dropped, and so are those after the last.
///
/// The lengths are compared for the sake of termination only: what follows
/// an entry is always the shorter (`lemma_next_entry_shorter`).
pub open spec fn entries(ns: Seq<char>, s: Seq<char>) -> Option<Seq<char>>
    decreases s.len(), 3int,
{
    if s.len() == 0 {
        Some(Seq::empty())
    } else {
        match entry(ns, s) {
            Some((first, rest)) => {
                let next = next_entry(rest);
                if next.len() == 0 {
                    Some(first)
                } else if next.len() < s.len() {
                    match entries(ns, next) {
                        Some(others) => Some(first + seq![',', ' '] + others),
                        None => None,
                    }
                } else {
                    None
                }
            },
            None => None,
        }
    }
}

/// What follows an entry in a list, up to the next entry, is shorter than
/// the list.
pub proof fn lemma_next_entry_shorter(ns: Seq<char>, s: Seq<char>)
    ensures
        entry(ns, s) matches Some((text, rest)) ==> next_entry(rest).len() < s.len(),
{
    lemma_entry_consumes(ns, s);
    if entry(ns, s) is Some {
        let rest = entry(ns, s).unwrap().1;
        lemma_strip_commas_len(rest);
        lemma_trim_len(strip_commas(rest));
    }
}

/// The entries that make up the whole of `s`, rewritten and put one after the
/// other.
pub open spec fn fragments(ns: Seq<char>, s: Seq<char>) -> Option<Seq<char>>
    decreases s.len(),
{
    if s.len() == 0 {
        Some(Seq::empty())
    } else {
        match entry(ns, s) {
            Some((first, rest)) => {
                proof {
                    lemma_entry_consumes(ns, s);
                }
                match fragments(ns, rest) {
                    Some(others) => Some(first + others),
                    None => None,
                }
            },
            None => None,
        }
    }
}

/// `s` rewritten into namespace `ns`, or `None` where `s` is malformed.
pub open spec fn prefixed(ns: Seq<char>, s: Seq<char>) -> Option<Seq<char>> {
    fragments(ns, s)
}

/// `s` is a well-formed type expression. The namespace plays no part in this
/// (`lemma_namespace_irrelevant`).
pub open spec fn type_expression(s: Seq<char>) -> bool {
    fragments(Seq::empty(), s) is Some
}

/// Only one index can be the first after which the depth is zero.
pub proof fn lemma_matching_close_is(s: Seq<char>, open: char, close: char, i: int)
    requires
        closes_at(s, open, close, i),
    ensures
        matching_close(s, open, close) == Some(i),
{
    let k = choose|k: int| closes_at(s, open, close, k);
    assert(closes_at(s, open, close, k));
    if k < i {
        assert(depth_after(s, open, close, k) != 0);
    }
    if i < k {
        assert(depth_after(s, open, close, i) != 0);
    }
}

/// The index of the bracket that closes the one `s` starts with: the first
/// index after which as many `close` as `open` have been read. `None` where the
/// count never comes back to zero.
pub fn find_matching_delimiter(s: &[char], open: char, close: char) -> (r: Option<usize>)
    ensures
        match r {
            Some(i) => matching_close(s@, open, close) == Some(i as int),
            None => matching_close(s@, open, close) is None,
        },
{
    let mut depth: i128 = 0;
    let mut i: usize = 0;
    while i < s.len()
        invariant
            i <= s.len(),
            depth == depth_after(s@, open, close, i - 1),
            -i <= depth <= i,
            forall|j: int| 0 <= j < i ==> #[trigger] depth_after(s@, open, close, j) != 0,
        decreases s.len() - i,
    {
        if s[i] == open {
            depth += 1;
        } else if s[i] == close {
            depth -= 1;
        }
        if depth == 0 {
            proof {
                lemma_matching_close_is(s@, open, close, i as int);
            }
            return Some(i);
        }
        i += 1;
    }
    None
}

/// Whether `s` is the text of the string `lit`.
fn same_text(s: &[char], lit: &str) -> (r: bool)
    ensures
        r == (s@ == lit@),
{
    let mut i: usize = 0;
    for c in it: lit.chars()
        invariant
            it.seq() == lit@,
            i == it.index(),
            i <= s.len(),
            s@.take(i as int) == lit@.take(i as int),
    {
        if i >= s.len() || s[i] != c {
            return false;
        }
        i += 1;
    }
    proof {
        assert(lit@.take(i as int) =~= lit@);
        if i == s.len() {
            assert(s@.take(i as int) =~= s@);
        }
    }
    i == s.len()
}

/// Whether the identifier `id` is one that TypeScript itself defines.
fn is_intrinsic_chars(id: &[char]) -> (r: bool)
    ensures
        r == is_intrinsic(id@),
{
    same_text(id, "string") || same_text(id, "number") || same_text(id, "boolean") || same_text(
        id,
        "any",
    ) || same_text(id, "void") || same_text(id, "never") || same_text(id, "unknown") || same_text(
        id,
        "null",
    ) || same_text(id, "Array")
}

/// Whether `t` is one of the identifiers that TypeScript itself defines.
pub fn is_ts_intrinstic_type(t: &str) -> (r: bool)
    ensures
        r == is_intrinsic(t@),
{
    let chars = to_chars(t);
    is_intrinsic_chars(chars.as_slice())
}

/// Rewrites the entry at the start of `s` onto the end of `out` and returns
/// what follows it in `s`.
fn rewrite_entry<'a>(ns: &[char], s: &'a [char], out: &mut Vec<char>) -> (r: Option<&'a [char]>)
    ensures
        match entry(ns@, s@) {
            Some((text, rest)) => r matches Some(x) && x@ == rest && final(out)@ == old(out)@
                + text && rest.len() < s@.len(),
            None => r is None,
        },
    decreases s@.len(), 2int,
{
    let t = trim_chars(s);
    proof {
        lemma_trim_len(s@);
    }
    if t.len() > 0 && (t[0] == '[' || t[0] == '<') {
        return rewrite_group(ns, t, out);
    }
    let n = scan_run(t, CharClass::Ident, 0);
    if n == 0 {
        return None;
    }
    let id = slice_subrange(t, 0, n);
    let tail = slice_subrange(t, n, t.len());
    if !is_intrinsic_chars(id) {
        push_chars(out, ns);
        out.push('.');
    }
    push_chars(out, id);
    if tail.len() > 0 && tail[0] == '<' {
        return rewrite_group(ns, tail, out);
    }
    Some(tail)
}

/// Rewrites the bracketed list at the start of `t` onto the end of `out` and
/// returns what follows its closing bracket.
fn rewrite_group<'a>(ns: &[char], t: &'a [char], out: &mut Vec<char>) -> (r: Option<&'a [char]>)
    requires
        t@.len() > 0,
        is_open_bracket(t@[0]),
    ensures
        match group(ns@, t@) {
            Some((text, rest)) => r matches Some(x) && x@ == rest && final(out)@ == old(out)@
                + text && rest.len() < t@.len(),
            None => r is None,
        },
    decreases t@.len(), 1int,
{
    let open = t[0];
    let close = if open == '[' {
        ']'
    } else {
        '>'
    };
    match find_matching_delimiter(t, open, close) {
        None => None,
        Some(end) => {
            proof {
                lemma_matching_close_inside(t@);
            }
            out.push(open);
            let body = slice_subrange(t, 1, end);
            if !rewrite_entries(ns, body, out) {
                return None;
            }
            out.push(close);
            Some(slice_subrange(t, end + 1, t.len()))
        },
    }
}

/// Rewrites the entries of a list onto the end of `out`, joined by `", "`.
fn rewrite_entries(ns: &[char], s: &[char], out: &mut Vec<char>) -> (ok: bool)
    ensures
        match entries(ns@, s@) {
            Some(text) => ok && final(out)@ == old(out)@ + text,
            None => !ok,
        },
    decreases s@.len(), 3int,
{
    let ghost start = out@;
    let ghost mut done: Seq<char> = Seq::empty();
    let mut cur = s;
    let mut first = true;
    while cur.len() > 0
        invariant
            cur@.len() <= s@.len(),
            out@ == start + done,
            first ==> cur@ == s@ && done.len() == 0,
            !first && cur@.len() == 0 ==> entries(ns@, s@) == Some(done),
            !first && cur@.len() > 0 ==> entries(ns@, s@) == (match entries(ns@, cur@) {
                Some(others) => Some(done + seq![',', ' '] + others),
                None => None,
            }),
        decreases cur@.len(),
    {
        if !first {
            out.push(',');
            out.push(' ');
        }
        let ghost before = out@;
        match rewrite_entry(ns, cur, out) {
            None => {
                return false;
            },
            Some(rest) => {
                proof {
                    lemma_strip_commas_len(rest@);
                    lemma_trim_len(strip_commas(rest@));
                    let text = entry(ns@, cur@).unwrap().0;
                    if first {
                        done = text;
                    } else {
                        done = done + seq![',', ' '] + text;
                    }
                }
                cur = trim_chars(strip_commas_chars(rest));
                first = false;
            },
        }
    }
    true
}

/// Rewrites the entries that make up `s` onto the end of `out`.
fn rewrite_fragments(ns: &[char], s: &[char], out: &mut Vec<char>) -> (ok: bool)
    ensures
        match fragments(ns@, s@) {
            Some(text) => ok && final(out)@ == old(out)@ + text,
            None => !ok,
        },
{
    let ghost start = out@;
    let ghost mut done: Seq<char> = Seq::empty();
    let mut cur = s;
    while cur.len() > 0
        invariant
            out@ == start + done,
            fragments(ns@, s@) == (match fragments(ns@, cur@) {
                Some(others) => Some(done + others),
                None => None,
            }),
        decreases cur@.len(),
    {
        match rewrite_entry(ns, cur, out) {
            None => {
                return false;
            },
            Some(rest) => {
                proof {
                    done = done + entry(ns@, cur@).unwrap().0;
                }
                cur = rest;
            },
        }
    }
    true
}

/// Whether an entry stands at the start of `s`, and what follows it, do not
/// depend on the namespace.
pub proof fn lemma_entry_namespace(ns1: Seq<char>, ns2: Seq<char>, s: Seq<char>)
    ensures
        entry(ns1, s) is Some <==> entry(ns2, s) is Some,
        entry(ns1, s) is Some ==> entry(ns1, s).unwrap().1 == entry(ns2, s).unwrap().1,
    decreases s.len(), 2int,
{
    let t = trim(s);
    lemma_trim_len(s);
    lemma_run_end_bounds(t, CharClass::Ident, 0);
    if t.len() > 0 && is_open_bracket(t[0]) {
        lemma_group_namespace(ns1, ns2, t);
    } else if ident_len(t) > 0 {
        let tail = t.skip(ident_len(t));
        if tail.len() > 0 && tail[0] == '<' {
            lemma_group_namespace(ns1, ns2, tail);
        }
    }
}

proof fn lemma_group_namespace(ns1: Seq<char>, ns2: Seq<char>, t: Seq<char>)
    ensures
        group(ns1, t) is Some <==> group(ns2, t) is Some,
        group(ns1, t) is Some ==> group(ns1, t).unwrap().1 == group(ns2, t).unwrap().1,
    decreases t.len(), 1int,
{
    if t.len() > 0 && is_open_bracket(t[0]) {
        lemma_matching_close_inside(t);
        match matching_close(t, t[0], closer(t[0])) {
            Some(end) => {
                lemma_entries_namespace(ns1, ns2, t.subrange(1, end));
            },
            None => {},
        }
    }
}

proof fn lemma_entries_namespace(ns1: Seq<char>, ns2: Seq<char>, s: Seq<char>)
    ensures
        entries(ns1, s) is Some <==> entries(ns2, s) is Some,
    decreases s.len(), 3int,
{
    if s.len() > 0 {
        lemma_entry_namespace(ns1, ns2, s);
        if entry(ns1, s) is Some {
            let next = next_entry(entry(ns1, s).unwrap().1);
            if 0 < next.len() < s.len() {
                lemma_entries_namespace(ns1, ns2, next);
            }
        }
    }
}

/// Whether `s` is well formed does not depend on the namespace.
pub proof fn lemma_namespace_irrelevant(ns1: Seq<char>, ns2: Seq<char>, s: Seq<char>)
    ensures
        prefixed(ns1, s) is Some <==> prefixed(ns2, s) is Some,
    decreases s.len(),
{
    if s.len() > 0 {
        lemma_entry_namespace(ns1, ns2, s);
        lemma_entry_consumes(ns1, s);
        if entry(ns1, s) is Some {
            lemma_namespace_irrelevant(ns1, ns2, entry(ns1, s).unwrap().1);
        }
    }
}

/// Whether `t` is a well-formed type expression.
pub fn is_type_expression(t: &str) -> (r: bool)
    ensures
        r == type_expression(t@),
{
    let chars = to_chars(t);
    let ns: Vec<char> = Vec::new();
    let mut scratch: Vec<char> = Vec::new();
    rewrite_fragments(ns.as_slice(), chars.as_slice(), &mut scratch)
}

/// Rewrites the type expression `t` so that every identifier that TypeScript
/// does not itself define is qualified by `prefix`.
pub fn prefix_type(prefix: &str, t: &str) -> (r: String)
    requires
        type_expression(t@),
    ensures
        prefixed(prefix@, t@) == Some(r@),
{
    let ns = to_chars(prefix);
    let chars = to_chars(t);
    let mut out: Vec<char> = Vec::new();
    proof {
        lemma_namespace_irrelevant(Seq::empty(), prefix@, t@);
    }
    let ok = rewrite_fragments(ns.as_slice(), chars.as_slice(), &mut out);
    from_chars(out.as_slice())
}

/// `prefix_type` for any text: a malformed `t` is refused.
pub fn try_prefix_type(prefix: &str, t: &str) -> (r: Result<String, ExportError>)
    ensures
        match r {
            Ok(text) => prefixed(prefix@, t@) == Some(text@),
            Err(e) => prefixed(prefix@, t@) is None && e@ == Failure::MalformedTypeExpression(
                t@,
            ),
        },
{
    if is_type_expression(t) {
        Ok(prefix_type(prefix, t))
    } else {
        proof {
            lemma_namespace_irrelevant(Seq::empty(), prefix@, t@);
        }
        Err(ExportError::MalformedTypeExpression(t.to_owned()))
    }
}

} // verus!
