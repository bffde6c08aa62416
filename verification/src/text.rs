//! Characters and character sequences: the classes the type-expression
//! grammar is built on, and the conversions between strings and `char` slices.

use vstd::prelude::*;
use vstd::string::StringExecFns;

verus! {

/// Whether a character beyond ASCII is alphabetic or numeric in Unicode.
pub uninterp spec fn alphanumeric_beyond_ascii(c: char) -> bool;

/// Whether a character beyond ASCII is white space in Unicode.
pub uninterp spec fn whitespace_beyond_ascii(c: char) -> bool;

pub open spec fn is_ascii_char(c: char) -> bool {
    (c as u32) < 128
}

/// Letters and digits. Within ASCII these are `a-z`, `A-Z` and `0-9`.
pub open spec fn is_alphanumeric(c: char) -> bool {
    if is_ascii_char(c) {
        ('a' <= c && c <= 'z') || ('A' <= c && c <= 'Z') || ('0' <= c && c <= '9')
    } else {
        alphanumeric_beyond_ascii(c)
    }
}

/// White space. Within ASCII these are the space and U+0009 to U+000D.
pub open spec fn is_whitespace(c: char) -> bool {
    if is_ascii_char(c) {
        c == ' ' || ('\t' <= c && c <= '\r')
    } else {
        whitespace_beyond_ascii(c)
    }
}

/// The characters an identifier is made of.
pub open spec fn is_ident_char(c: char) -> bool {
    is_alphanumeric(c) || c == '_'
}

/// The three runs of characters the scanner skips or collects.
pub enum CharClass {
    Space,
    Ident,
    Comma,
}

pub open spec fn in_class(class: CharClass, c: char) -> bool {
    match class {
        CharClass::Space => is_whitespace(c),
        CharClass::Ident => is_ident_char(c),
        CharClass::Comma => c == ',',
    }
}

/// The end of the run of `class` characters that starts at `i`: the first
/// index from `i` on whose character is outside the class, or the length.
pub open spec fn run_end(s: Seq<char>, class: CharClass, i: int) -> int
    decreases s.len() - i,
{
    if 0 <= i < s.len() && in_class(class, s[i]) {
        run_end(s, class, i + 1)
    } else {
        i
    }
}

/// The start of the run of `class` characters that ends before `j`.
pub open spec fn run_start(s: Seq<char>, class: CharClass, j: int) -> int
    decreases j,
{
    if 0 < j <= s.len() && in_class(class, s[j - 1]) {
        run_start(s, class, j - 1)
    } else {
        j
    }
}

/// `s` without its leading and trailing white space.
pub open spec fn trim(s: Seq<char>) -> Seq<char> {
    let end = run_start(s, CharClass::Space, s.len() as int);
    let start = run_end(s.take(end), CharClass::Space, 0);
    s.subrange(start, end)
}

/// `s` without its leading commas.
pub open spec fn strip_commas(s: Seq<char>) -> Seq<char> {
    s.skip(run_end(s, CharClass::Comma, 0))
}

pub proof fn lemma_run_end_bounds(s: Seq<char>, class: CharClass, i: int)
    requires
        0 <= i <= s.len(),
    ensures
        i <= run_end(s, class, i) <= s.len(),
        forall|k: int| i <= k < run_end(s, class, i) ==> in_class(class, #[trigger] s[k]),
        run_end(s, class, i) < s.len() ==> !in_class(class, s[run_end(s, class, i)]),
    decreases s.len() - i,
{
    if i < s.len() && in_class(class, s[i]) {
        lemma_run_end_bounds(s, class, i + 1);
    }
}

pub proof fn lemma_run_start_bounds(s: Seq<char>, class: CharClass, j: int)
    requires
        0 <= j <= s.len(),
    ensures
        0 <= run_start(s, class, j) <= j,
        forall|k: int| run_start(s, class, j) <= k < j ==> in_class(class, #[trigger] s[k]),
        run_start(s, class, j) > 0 ==> !in_class(class, s[run_start(s, class, j) - 1]),
    decreases j,
{
    if 0 < j && in_class(class, s[j - 1]) {
        lemma_run_start_bounds(s, class, j - 1);
    }
}

/// A run is found by what bounds it: every character before `n` is in the
/// class, and the one at `n`, if there is one, is not.
pub proof fn lemma_run_end_is(s: Seq<char>, class: CharClass, i: int, n: int)
    requires
        0 <= i <= n <= s.len(),
        forall|k: int| i <= k < n ==> in_class(class, #[trigger] s[k]),
        n < s.len() ==> !in_class(class, s[n]),
    ensures
        run_end(s, class, i) == n,
    decreases n - i,
{
    if i < n {
        lemma_run_end_is(s, class, i + 1, n);
    }
}

/// Trimming only takes characters away.
pub proof fn lemma_trim_len(s: Seq<char>)
    ensures
        trim(s).len() <= s.len(),
{
    let end = run_start(s, CharClass::Space, s.len() as int);
    lemma_run_start_bounds(s, CharClass::Space, s.len() as int);
    lemma_run_end_bounds(s.take(end), CharClass::Space, 0);
}

/// Stripping commas only takes characters away.
pub proof fn lemma_strip_commas_len(s: Seq<char>)
    ensures
        strip_commas(s).len() <= s.len(),
{
    lemma_run_end_bounds(s, CharClass::Comma, 0);
}

/// `char::is_alphanumeric`: on ASCII it holds of the letters and digits;
/// beyond ASCII it is what Unicode says, named `alphanumeric_beyond_ascii`.
#[verifier::external_body]
fn char_is_alphanumeric(c: char) -> (r: bool)
    ensures
        r == (if is_ascii_char(c) {
            ('a' <= c && c <= 'z') || ('A' <= c && c <= 'Z') || ('0' <= c && c <= '9')
        } else {
            alphanumeric_beyond_ascii(c)
        }),
{
    c.is_alphanumeric()
}

/// `char::is_whitespace`: on ASCII it holds of the space and of U+0009 to
/// U+000D; beyond ASCII it is what Unicode says, named
/// `whitespace_beyond_ascii`.
#[verifier::external_body]
fn char_is_whitespace(c: char) -> (r: bool)
    ensures
        r == (if is_ascii_char(c) {
            c == ' ' || ('\t' <= c && c <= '\r')
        } else {
            whitespace_beyond_ascii(c)
        }),
{
    c.is_whitespace()
}

/// `String::push`: appends one character.
#[verifier::external_body]
fn string_push(s: &mut String, c: char)
    ensures
        final(s)@ == old(s)@.push(c),
{
    s.push(c)
}

pub(crate) fn is_in_class(class: &CharClass, c: char) -> (r: bool)
    ensures
        r == in_class(*class, c),
{
    match class {
        CharClass::Space => char_is_whitespace(c),
        CharClass::Ident => c == '_' || char_is_alphanumeric(c),
        CharClass::Comma => c == ',',
    }
}

/// Whether two strings hold the same text.
pub(crate) fn same_str(a: &str, b: &str) -> (r: bool)
    ensures
        r == (a@ == b@),
{
    let x = a.to_owned();
    let y = b.to_owned();
    x == y
}

/// The characters of `s`, in order.
pub(crate) fn to_chars(s: &str) -> (v: Vec<char>)
    ensures
        v@ == s@,
{
    let mut v: Vec<char> = Vec::new();
    for c in it: s.chars()
        invariant
            it.seq() == s@,
            v@ == it.seq().take(it.index() as int),
    {
        v.push(c);
    }
    v
}

/// The string made of the characters of `v`, in order.
pub(crate) fn from_chars(v: &[char]) -> (s: String)
    ensures
        s@ == v@,
{
    let mut s = String::new();
    let mut i: usize = 0;
    while i < v.len()
        invariant
            i <= v.len(),
            s@ == v@.take(i as int),
        decreases v.len() - i,
    {
        string_push(&mut s, v[i]);
        i += 1;
    }
    s
}

/// Appends the characters of `s` to `out`.
pub(crate) fn push_chars(out: &mut Vec<char>, s: &[char])
    ensures
        final(out)@ == old(out)@ + s@,
{
    let mut i: usize = 0;
    while i < s.len()
        invariant
            i <= s.len(),
            out@ == old(out)@ + s@.take(i as int),
        decreases s.len() - i,
    {
        out.push(s[i]);
        i += 1;
    }
}

/// The end of the run of `class` characters of `s` that starts at `from`.
pub(crate) fn scan_run(s: &[char], class: CharClass, from: usize) -> (end: usize)
    requires
        from <= s.len(),
    ensures
        end == run_end(s@, class, from as int),
        from <= end <= s.len(),
{
    let mut i: usize = from;
    while i < s.len() && is_in_class(&class, s[i])
        invariant
            from <= i <= s.len(),
            run_end(s@, class, from as int) == run_end(s@, class, i as int),
        decreases s.len() - i,
    {
        i += 1;
    }
    i
}

/// The start of the run of `class` characters of `s` that ends before `to`.
pub(crate) fn scan_run_back(s: &[char], class: CharClass, to: usize) -> (start: usize)
    requires
        to <= s.len(),
    ensures
        start == run_start(s@, class, to as int),
        start <= to,
{
    let mut j: usize = to;
    while j > 0 && is_in_class(&class, s[j - 1])
        invariant
            j <= to <= s.len(),
            run_start(s@, class, to as int) == run_start(s@, class, j as int),
        decreases j,
    {
        j -= 1;
    }
    j
}

/// `s` without its leading and trailing white space.
pub(crate) fn trim_chars<'a>(s: &'a [char]) -> (t: &'a [char])
    ensures
        t@ == trim(s@),
{
    let end = scan_run_back(s, CharClass::Space, s.len());
    let head = vstd::slice::slice_subrange(s, 0, end);
    let start = scan_run(head, CharClass::Space, 0);
    vstd::slice::slice_subrange(head, start, end)
}

/// `s` without its leading commas.
pub(crate) fn strip_commas_chars<'a>(s: &'a [char]) -> (t: &'a [char])
    ensures
        t@ == strip_commas(s@),
{
    let start = scan_run(s, CharClass::Comma, 0);
    vstd::slice::slice_subrange(s, start, s.len())
}

/// The texts of a sequence of strings.
pub open spec fn texts(names: Seq<String>) -> Seq<Seq<char>> {
    names.map_values(|name: String| name@)
}

/// The items one after the other, with `separator` between each two.
pub open spec fn join(items: Seq<Seq<char>>, separator: Seq<char>) -> Seq<char>
    decreases items.len(),
{
    if items.len() == 0 {
        Seq::empty()
    } else if items.len() == 1 {
        items[0]
    } else {
        join(items.drop_last(), separator) + separator + items.last()
    }
}

/// Appends the items to `out`, with `separator` between each two.
pub(crate) fn append_joined(out: &mut String, items: &Vec<String>, separator: &str)
    ensures
        final(out)@ == old(out)@ + join(texts(items@), separator@),
{
    let ghost start = out@;
    let ghost all = texts(items@);
    let mut i: usize = 0;
    proof {
        assert(all.take(0) =~= Seq::empty());
        assert(start + join(all.take(0), separator@) =~= start);
    }
    while i < items.len()
        invariant
            i <= items.len(),
            all == texts(items@),
            out@ == start + join(all.take(i as int), separator@),
        decreases items.len() - i,
    {
        proof {
            assert(all.take(i + 1).drop_last() =~= all.take(i as int));
            assert(all.take(i + 1).last() == items[i as int]@);
            assert(all.take(i + 1)[0] == all[0]);
        }
        if i > 0 {
            out.append(separator);
        }
        out.append(items[i].as_str());
        proof {
            if i == 0 {
                assert(all.take(0).len() == 0);
                assert(start + Seq::<char>::empty() + items[0]@ =~= start + items[0]@);
            } else {
                assert(start + join(all.take(i as int), separator@) + separator@ + items[i as int]@
                    =~= start + (join(all.take(i as int), separator@) + separator@
                    + items[i as int]@));
            }
        }
        i += 1;
    }
    proof {
        assert(all.take(i as int) =~= all);
    }
}

} // verus!
