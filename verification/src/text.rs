//! Character-level text utilities shared by the parsers.
//!
//! Text is modelled as `Seq<char>`; executable code works on `Vec<char>`.

use vstd::prelude::*;

verus! {

/// `String::push`: the character is appended to the text, which is
/// otherwise as it was.
pub assume_specification[ String::push ](s: &mut String, ch: char)
    ensures
        final(s)@ == old(s)@.push(ch),
;

/// The characters of `s`, in order.
pub(crate) fn chars_of(s: &str) -> (v: Vec<char>)
    ensures
        v@ == s@,
{
    let mut v: Vec<char> = Vec::new();
    for c in it: s.chars()
        invariant
            v@ == it.seq().take(it.index() as int),
            it.seq() == s@,
    {
        v.push(c);
    }
    v
}

/// The string made of the characters `v[lo..hi]`.
pub(crate) fn string_of_range(v: &Vec<char>, lo: usize, hi: usize) -> (s: String)
    requires
        lo <= hi <= v.len(),
    ensures
        s@ == v@.subrange(lo as int, hi as int),
{
    let mut s = String::new();
    let mut i: usize = lo;
    while i < hi
        invariant
            lo <= i <= hi <= v.len(),
            s@ == v@.subrange(lo as int, i as int),
        decreases hi - i,
    {
        s.push(v[i]);
        i += 1;
    }
    s
}

/// The string made of the characters `v`.
pub(crate) fn string_of(v: &Vec<char>) -> (s: String)
    ensures
        s@ == v@,
{
    let s = string_of_range(v, 0, v.len());
    assert(v@.subrange(0, v.len() as int) == v@);
    s
}

/// A copy of `v[lo..hi]`.
pub(crate) fn copy_range(v: &Vec<char>, lo: usize, hi: usize) -> (r: Vec<char>)
    requires
        lo <= hi <= v.len(),
    ensures
        r@ == v@.subrange(lo as int, hi as int),
{
    let mut r: Vec<char> = Vec::new();
    let mut i: usize = lo;
    while i < hi
        invariant
            lo <= i <= hi <= v.len(),
            r@ == v@.subrange(lo as int, i as int),
        decreases hi - i,
    {
        r.push(v[i]);
        i += 1;
    }
    r
}

/// Appends the characters `v[lo..hi]` to `out`.
pub(crate) fn append_range(out: &mut Vec<char>, v: &Vec<char>, lo: usize, hi: usize)
    requires
        lo <= hi <= v.len(),
    ensures
        final(out)@ == old(out)@ + v@.subrange(lo as int, hi as int),
{
    let mut i: usize = lo;
    while i < hi
        invariant
            lo <= i <= hi <= v.len(),
            out@ == old(out)@ + v@.subrange(lo as int, i as int),
        decreases hi - i,
    {
        out.push(v[i]);
        i += 1;
    }
}

/// The smallest index in `[lo, hi)` at which `pred` holds, or `hi` when there is none.
pub open spec fn first_such(lo: int, hi: int, pred: spec_fn(int) -> bool) -> int
    decreases hi - lo,
{
    if lo >= hi {
        hi
    } else if pred(lo) {
        lo
    } else {
        first_such(lo + 1, hi, pred)
    }
}

/// What `first_such` gives lies in the range, satisfies `pred` unless it is
/// the end of the range, and nothing before it does.
pub(crate) proof fn lemma_first_such(lo: int, hi: int, pred: spec_fn(int) -> bool)
    requires
        lo <= hi,
    ensures
        lo <= first_such(lo, hi, pred) <= hi,
        first_such(lo, hi, pred) < hi ==> pred(first_such(lo, hi, pred)),
        forall|i: int| lo <= i < first_such(lo, hi, pred) ==> !#[trigger] pred(i),
    decreases hi - lo,
{
    if lo < hi && !pred(lo) {
        lemma_first_such(lo + 1, hi, pred);
    }
}

/// An index with nothing before it that satisfies `pred`, and which
/// satisfies it unless it is the end of the range, is what `first_such` gives.
pub(crate) proof fn lemma_first_such_is(lo: int, hi: int, pred: spec_fn(int) -> bool, r: int)
    requires
        lo <= r <= hi,
        forall|i: int| lo <= i < r ==> !#[trigger] pred(i),
        r < hi ==> pred(r),
    ensures
        first_such(lo, hi, pred) == r,
    decreases hi - lo,
{
    if lo < r {
        lemma_first_such_is(lo + 1, hi, pred, r);
    }
}

/// White space, as Unicode defines it.
pub open spec fn is_space(c: char) -> bool {
    ('\u{9}' <= c <= '\u{D}') || c == ' ' || c == '\u{85}' || c == '\u{A0}' || c == '\u{1680}' || (
    '\u{2000}' <= c <= '\u{200A}') || c == '\u{2028}' || c == '\u{2029}' || c == '\u{202F}' || c
        == '\u{205F}' || c == '\u{3000}'
}

/// Whether `c` is white space.
pub(crate) fn char_is_space(c: char) -> (r: bool)
    ensures
        r == is_space(c),
{
    ('\u{9}' <= c && c <= '\u{D}') || c == ' ' || c == '\u{85}' || c == '\u{A0}' || c == '\u{1680}'
        || ('\u{2000}' <= c && c <= '\u{200A}') || c == '\u{2028}' || c == '\u{2029}' || c
        == '\u{202F}' || c == '\u{205F}' || c == '\u{3000}'
}

/// The first index at or after `i` that holds no white space, or the length of `t`.
pub open spec fn skip_spaces(t: Seq<char>, i: int) -> int {
    first_such(i, t.len() as int, |k: int| !is_space(t[k]))
}

/// The first index at or after `i` that holds white space, or the length of `t`.
pub open spec fn skip_word(t: Seq<char>, i: int) -> int {
    first_such(i, t.len() as int, |k: int| is_space(t[k]))
}

/// The first index at or after `i` that holds `c`, or the length of `t`.
pub open spec fn find_char(t: Seq<char>, i: int, c: char) -> int
    decreases t.len() - i,
{
    if i >= t.len() {
        t.len() as int
    } else if t[i] == c {
        i
    } else {
        find_char(t, i + 1, c)
    }
}

/// Whether `lit` stands in `t` at index `i`.
pub open spec fn has_at(t: Seq<char>, i: int, lit: Seq<char>) -> bool {
    0 <= i && i + lit.len() <= t.len() && t.subrange(i, i + lit.len()) == lit
}

/// Between `i` and `skip_spaces(t, i)` stands white space only, and none at the latter.
pub(crate) proof fn lemma_skip_spaces(t: Seq<char>, i: int)
    requires
        0 <= i <= t.len(),
    ensures
        i <= skip_spaces(t, i) <= t.len(),
        skip_spaces(t, i) < t.len() ==> !is_space(t[skip_spaces(t, i)]),
        forall|j: int| i <= j < skip_spaces(t, i) ==> is_space(#[trigger] t[j]),
{
    let pred = |k: int| !is_space(t[k]);
    lemma_first_such(i, t.len() as int, pred);
    assert forall|j: int| i <= j < skip_spaces(t, i) implies is_space(#[trigger] t[j]) by {
        assert(!pred(j));
    }
}

/// The end of a run of white space from `i` is `skip_spaces(t, i)`.
pub(crate) proof fn lemma_skip_spaces_is(t: Seq<char>, i: int, r: int)
    requires
        0 <= i <= r <= t.len(),
        forall|j: int| i <= j < r ==> is_space(#[trigger] t[j]),
        r < t.len() ==> !is_space(t[r]),
    ensures
        skip_spaces(t, i) == r,
{
    lemma_first_such_is(i, t.len() as int, |k: int| !is_space(t[k]), r);
}

/// Between `i` and `skip_word(t, i)` stands no white space, and some at the latter.
pub(crate) proof fn lemma_skip_word(t: Seq<char>, i: int)
    requires
        0 <= i <= t.len(),
    ensures
        i <= skip_word(t, i) <= t.len(),
        skip_word(t, i) < t.len() ==> is_space(t[skip_word(t, i)]),
        forall|j: int| i <= j < skip_word(t, i) ==> !is_space(#[trigger] t[j]),
{
    let pred = |k: int| is_space(t[k]);
    lemma_first_such(i, t.len() as int, pred);
    assert forall|j: int| i <= j < skip_word(t, i) implies !is_space(#[trigger] t[j]) by {
        assert(!pred(j));
    }
}

/// The end of a run without white space from `i` is `skip_word(t, i)`.
pub(crate) proof fn lemma_skip_word_is(t: Seq<char>, i: int, r: int)
    requires
        0 <= i <= r <= t.len(),
        forall|j: int| i <= j < r ==> !is_space(#[trigger] t[j]),
        r < t.len() ==> is_space(t[r]),
    ensures
        skip_word(t, i) == r,
{
    lemma_first_such_is(i, t.len() as int, |k: int| is_space(t[k]), r);
}

/// Between `i` and `find_char(t, i, c)` no `c` stands, and one at the latter.
pub(crate) proof fn lemma_find_char(t: Seq<char>, i: int, c: char)
    requires
        0 <= i <= t.len(),
    ensures
        i <= find_char(t, i, c) <= t.len(),
        find_char(t, i, c) < t.len() ==> t[find_char(t, i, c)] == c,
        forall|j: int| i <= j < find_char(t, i, c) ==> #[trigger] t[j] != c,
    decreases t.len() - i,
{
    if i < t.len() && t[i] != c {
        lemma_find_char(t, i + 1, c);
    }
}

/// The first index from `i` that holds `c` is `find_char(t, i, c)`.
pub(crate) proof fn lemma_find_char_is(t: Seq<char>, i: int, c: char, r: int)
    requires
        0 <= i <= r <= t.len(),
        forall|j: int| i <= j < r ==> #[trigger] t[j] != c,
        r < t.len() ==> t[r] == c,
    ensures
        find_char(t, i, c) == r,
    decreases t.len() - i,
{
    if i < r {
        lemma_find_char_is(t, i + 1, c, r);
    }
}

/// The first index at or after `i` that holds no white space.
pub(crate) fn skip_spaces_from(t: &Vec<char>, i: usize) -> (r: usize)
    requires
        i <= t.len(),
    ensures
        r == skip_spaces(t@, i as int),
        i <= r <= t.len(),
{
    let mut k: usize = i;
    while k < t.len() && char_is_space(t[k])
        invariant
            i <= k <= t.len(),
            forall|j: int| i <= j < k ==> is_space(t@[j]),
        decreases t.len() - k,
    {
        k += 1;
    }
    proof {
        lemma_skip_spaces_is(t@, i as int, k as int);
    }
    k
}

/// The first index at or after `i` that holds white space.
pub(crate) fn skip_word_from(t: &Vec<char>, i: usize) -> (r: usize)
    requires
        i <= t.len(),
    ensures
        r == skip_word(t@, i as int),
        i <= r <= t.len(),
{
    let mut k: usize = i;
    while k < t.len() && !char_is_space(t[k])
        invariant
            i <= k <= t.len(),
            forall|j: int| i <= j < k ==> !is_space(t@[j]),
        decreases t.len() - k,
    {
        k += 1;
    }
    proof {
        lemma_skip_word_is(t@, i as int, k as int);
    }
    k
}

/// The first index at or after `i` that holds `c`.
pub(crate) fn find_char_from(t: &Vec<char>, i: usize, c: char) -> (r: usize)
    requires
        i <= t.len(),
    ensures
        r == find_char(t@, i as int, c),
        i <= r <= t.len(),
{
    let mut k: usize = i;
    while k < t.len() && t[k] != c
        invariant
            i <= k <= t.len(),
            forall|j: int| i <= j < k ==> t@[j] != c,
        decreases t.len() - k,
    {
        k += 1;
    }
    proof {
        lemma_find_char_is(t@, i as int, c, k as int);
    }
    k
}

/// Whether `lit` stands in `t` at index `i`.
pub(crate) fn has_literal_at(t: &Vec<char>, i: usize, lit: &Vec<char>) -> (r: bool)
    requires
        i <= t.len(),
    ensures
        r == has_at(t@, i as int, lit@),
{
    if lit.len() > t.len() - i {
        return false;
    }
    let mut k: usize = 0;
    while k < lit.len()
        invariant
            k <= lit.len(),
            i + lit.len() <= t.len(),
            forall|j: int| 0 <= j < k ==> t@[i + j] == lit@[j],
        decreases lit.len() - k,
    {
        if t[i + k] != lit[k] {
            proof {
                let sub = t@.subrange(i as int, i + lit.len());
                assert(sub[k as int] == t@[i + k]);
            }
            return false;
        }
        k += 1;
    }
    assert(t@.subrange(i as int, i + lit.len()) =~= lit@);
    true
}

/// Whether two texts hold the same characters.
pub(crate) fn same_text(a: &Vec<char>, b: &Vec<char>) -> (r: bool)
    ensures
        r == (a@ == b@),
{
    if a.len() != b.len() {
        return false;
    }
    let r = has_literal_at(a, 0, b);
    assert(a@.subrange(0, a.len() as int) == a@);
    r
}

/// `s` without the white space at its start.
pub open spec fn trim_start(s: Seq<char>) -> Seq<char> {
    s.subrange(skip_spaces(s, 0), s.len() as int)
}

/// The length of `s` without the white space at its end.
pub open spec fn trimmed_len(s: Seq<char>) -> int
    decreases s.len(),
{
    if s.len() > 0 && is_space(s.last()) {
        trimmed_len(s.drop_last())
    } else {
        s.len() as int
    }
}

/// `s` without the white space at its end.
pub open spec fn trim_end(s: Seq<char>) -> Seq<char> {
    s.subrange(0, trimmed_len(s))
}

/// `s` without the white space at both ends.
pub open spec fn trim(s: Seq<char>) -> Seq<char> {
    trim_end(trim_start(s))
}

/// `trimmed_len(s)` is where the white space at the end of `s` starts.
pub(crate) proof fn lemma_trimmed_len(s: Seq<char>)
    ensures
        0 <= trimmed_len(s) <= s.len(),
        trimmed_len(s) > 0 ==> !is_space(s[trimmed_len(s) - 1]),
        forall|i: int| trimmed_len(s) <= i < s.len() ==> is_space(s[i]),
    decreases s.len(),
{
    if s.len() > 0 && is_space(s.last()) {
        let d = s.drop_last();
        lemma_trimmed_len(d);
        assert forall|i: int| trimmed_len(s) <= i < s.len() implies is_space(s[i]) by {
            if i < d.len() {
                assert(d[i] == s[i]);
            }
        }
    }
}

/// An index that a character other than white space precedes and only
/// white space follows is `trimmed_len(s)`.
pub(crate) proof fn lemma_trimmed_len_is(s: Seq<char>, n: int)
    requires
        0 <= n <= s.len(),
        n > 0 ==> !is_space(s[n - 1]),
        forall|i: int| n <= i < s.len() ==> is_space(s[i]),
    ensures
        trimmed_len(s) == n,
    decreases s.len(),
{
    if s.len() > 0 && is_space(s.last()) {
        let d = s.drop_last();
        assert forall|i: int| n <= i < d.len() implies is_space(d[i]) by {
            assert(d[i] == s[i]);
        }
        if n > 0 {
            assert(d[n - 1] == s[n - 1]);
        }
        lemma_trimmed_len_is(d, n);
    }
}

/// The bounds of `t[lo..hi]` without the white space at both ends.
pub(crate) fn trim_bounds(t: &Vec<char>, lo: usize, hi: usize) -> (r: (usize, usize))
    requires
        lo <= hi <= t.len(),
    ensures
        lo <= r.0 <= r.1 <= hi,
        t@.subrange(r.0 as int, r.1 as int) == trim(t@.subrange(lo as int, hi as int)),
{
    let ghost s = t@.subrange(lo as int, hi as int);
    let mut a: usize = lo;
    while a < hi && char_is_space(t[a])
        invariant
            lo <= a <= hi <= t.len(),
            forall|j: int| lo <= j < a ==> is_space(t@[j]),
        decreases hi - a,
    {
        a += 1;
    }
    proof {
        assert forall|j: int| 0 <= j < a - lo implies is_space(#[trigger] s[j]) by {
            assert(s[j] == t@[lo + j]);
        }
        if a < hi {
            assert(s[a - lo] == t@[a as int]);
        }
        lemma_skip_spaces_is(s, 0, a - lo);
    }
    let ghost s1 = trim_start(s);
    assert(s1 == t@.subrange(a as int, hi as int));
    let mut b: usize = hi;
    while b > a && char_is_space(t[b - 1])
        invariant
            a <= b <= hi <= t.len(),
            forall|j: int| b <= j < hi ==> is_space(t@[j]),
        decreases b - a,
    {
        b -= 1;
    }
    proof {
        assert forall|i: int| b - a <= i < s1.len() implies is_space(s1[i]) by {
            assert(s1[i] == t@[a + i]);
        }
        if b > a {
            assert(s1[b - a - 1] == t@[b - 1]);
        }
        lemma_trimmed_len_is(s1, b - a);
        assert(s1.subrange(0, b - a) == t@.subrange(a as int, b as int));
    }
    (a, b)
}

/// `t` without the white space at both ends.
pub(crate) fn trimmed(t: &Vec<char>) -> (r: Vec<char>)
    ensures
        r@ == trim(t@),
{
    let (a, b) = trim_bounds(t, 0, t.len());
    assert(t@.subrange(0, t.len() as int) == t@);
    copy_range(t, a, b)
}

/// The pieces of `t` between the occurrences of `sep`.
pub open spec fn split_on(t: Seq<char>, sep: char) -> Seq<Seq<char>>
    decreases t.len(),
{
    let e = find_char(t, 0, sep);
    if 0 <= e < t.len() {
        seq![t.subrange(0, e)] + split_on(t.subrange(e + 1, t.len() as int), sep)
    } else {
        seq![t]
    }
}

/// The lines of `t`: the pieces between its line feeds.
pub open spec fn split_lines(t: Seq<char>) -> Seq<Seq<char>> {
    split_on(t, '\n')
}

/// The texts that the vectors of `v` hold.
pub open spec fn text_views(v: Seq<Vec<char>>) -> Seq<Seq<char>> {
    Seq::new(v.len(), |i: int| v[i]@)
}

/// The pieces of `t` between the occurrences of `sep`, each as a text of its own.
pub(crate) fn split_text(t: &Vec<char>, sep: char) -> (r: Vec<Vec<char>>)
    ensures
        text_views(r@) == split_on(t@, sep),
{
    let mut r: Vec<Vec<char>> = Vec::new();
    let mut pos: usize = 0;
    let mut done = false;
    assert(t@.subrange(0, t.len() as int) == t@);
    assert(text_views(r@) =~= Seq::<Seq<char>>::empty());
    while !done
        invariant
            pos <= t.len(),
            !done ==> split_on(t@, sep) == text_views(r@) + split_on(
                t@.subrange(pos as int, t.len() as int),
                sep,
            ),
            done ==> split_on(t@, sep) == text_views(r@),
        decreases t.len() - pos + (if done { 0int } else { 1int }),
    {
        let e = find_char_from(t, pos, sep);
        let ghost rest = t@.subrange(pos as int, t.len() as int);
        let ghost before = text_views(r@);
        proof {
            lemma_find_char(t@, pos as int, sep);
            assert forall|j: int| 0 <= j < e - pos implies #[trigger] rest[j] != sep by {
                assert(rest[j] == t@[pos + j]);
            }
            if e < t.len() {
                assert(rest[e - pos] == t@[e as int]);
            }
            lemma_find_char_is(rest, 0, sep, e - pos);
        }
        let line = copy_range(t, pos, e);
        r.push(line);
        proof {
            assert(line@ == rest.subrange(0, e - pos));
            assert(text_views(r@) =~= before.push(line@));
            assert(before.push(line@) == before + seq![line@]);
        }
        if e < t.len() {
            proof {
                assert(rest.subrange(e - pos + 1, rest.len() as int) == t@.subrange(
                    e + 1,
                    t.len() as int,
                ));
            }
            pos = e + 1;
        } else {
            proof {
                assert(rest.subrange(0, e - pos) == rest);
            }
            done = true;
        }
    }
    r
}

/// The lines of `t`, each as a text of its own.
pub(crate) fn lines_of(t: &Vec<char>) -> (r: Vec<Vec<char>>)
    ensures
        text_views(r@) == split_lines(t@),
{
    split_text(t, '\n')
}

/// `a` comes before `b` in the order of texts, with index `k` as witness:
/// the two agree before `k`, and there `a` ends or holds the smaller character.
pub open spec fn lex_less_at(a: Seq<char>, b: Seq<char>, k: int) -> bool {
    &&& 0 <= k <= a.len()
    &&& k < b.len()
    &&& forall|j: int| 0 <= j < k ==> a[j] == b[j]
    &&& (k < a.len() ==> a[k] < b[k])
}

/// `a` comes before `b` in the order of texts: character by character, a
/// proper prefix before the longer text.
pub open spec fn lex_less(a: Seq<char>, b: Seq<char>) -> bool {
    exists|k: int| lex_less_at(a, b, k)
}

/// No text comes before itself.
pub proof fn lemma_lex_irreflexive(a: Seq<char>)
    ensures
        !lex_less(a, a),
{
}

/// What comes before a text comes before all that the text comes before.
pub proof fn lemma_lex_transitive(a: Seq<char>, b: Seq<char>, c: Seq<char>)
    requires
        lex_less(a, b),
        lex_less(b, c),
    ensures
        lex_less(a, c),
{
    let k1 = choose|k: int| lex_less_at(a, b, k);
    let k2 = choose|k: int| lex_less_at(b, c, k);
    let k = if k1 <= k2 {
        k1
    } else {
        k2
    };
    assert(lex_less_at(a, c, k));
}

/// Two different texts that agree before `k` are ordered one way or the other.
proof fn lemma_lex_total_from(a: Seq<char>, b: Seq<char>, k: int)
    requires
        0 <= k <= a.len(),
        k <= b.len(),
        forall|j: int| 0 <= j < k ==> a[j] == b[j],
        a != b,
    ensures
        lex_less(a, b) || lex_less(b, a),
    decreases a.len() - k,
{
    if k == a.len() {
        if k == b.len() {
            assert(a =~= b);
        } else {
            assert(lex_less_at(a, b, k));
        }
    } else if k == b.len() {
        assert(lex_less_at(b, a, k));
    } else if a[k] != b[k] {
        if a[k] < b[k] {
            assert(lex_less_at(a, b, k));
        } else {
            assert(lex_less_at(b, a, k));
        }
    } else {
        lemma_lex_total_from(a, b, k + 1);
    }
}

/// Of two different texts one comes before the other.
pub proof fn lemma_lex_total(a: Seq<char>, b: Seq<char>)
    requires
        a != b,
    ensures
        lex_less(a, b) || lex_less(b, a),
{
    lemma_lex_total_from(a, b, 0);
}

/// Whether `a` comes before `b` in the order of texts.
pub(crate) fn text_less(a: &Vec<char>, b: &Vec<char>) -> (r: bool)
    ensures
        r == lex_less(a@, b@),
{
    let mut k: usize = 0;
    while k < a.len() && k < b.len() && a[k] == b[k]
        invariant
            k <= a.len(),
            k <= b.len(),
            forall|j: int| 0 <= j < k ==> a@[j] == b@[j],
        decreases a.len() - k,
    {
        k += 1;
    }
    let r = if k == b.len() {
        false
    } else if k == a.len() {
        true
    } else {
        a[k] < b[k]
    };
    proof {
        if r {
            assert(lex_less_at(a@, b@, k as int));
        } else {
            if lex_less(a@, b@) {
                let w = choose|w: int| lex_less_at(a@, b@, w);
                if w < k {
                    assert(a@[w] == b@[w]);
                } else if w > k {
                    assert(a@[k as int] == b@[k as int]);
                }
            }
        }
    }
    r
}

/// A copy of the strings of `v`.
pub(crate) fn clone_strings(v: &Vec<String>) -> (r: Vec<String>)
    ensures
        r.deep_view() == v.deep_view(),
{
    let mut r: Vec<String> = Vec::new();
    let mut i: usize = 0;
    while i < v.len()
        invariant
            i <= v.len(),
            r.len() == i,
            forall|j: int| 0 <= j < i ==> r@[j]@ == v@[j]@,
        decreases v.len() - i,
    {
        r.push(v[i].clone());
        i += 1;
    }
    assert(r.deep_view() =~= v.deep_view());
    r
}

/// Whether `needle` stands somewhere in `hay`.
pub open spec fn has_within(hay: Seq<char>, needle: Seq<char>) -> bool {
    exists|i: int| has_at(hay, i, needle)
}

/// Whether `needle` stands somewhere in `hay`.
pub(crate) fn text_contains(hay: &Vec<char>, needle: &Vec<char>) -> (r: bool)
    ensures
        r == has_within(hay@, needle@),
{
    let mut i: usize = 0;
    while i < hay.len()
        invariant
            i <= hay.len(),
            forall|j: int| 0 <= j < i ==> !has_at(hay@, j, needle@),
        decreases hay.len() - i,
    {
        if has_literal_at(hay, i, needle) {
            return true;
        }
        i += 1;
    }
    has_literal_at(hay, i, needle)
}

/// Whether `line` holds nothing but white space.
pub open spec fn is_blank(line: Seq<char>) -> bool {
    skip_spaces(line, 0) >= line.len()
}

/// The number of lines among `lines` that are not blank.
pub open spec fn nonblank_count(lines: Seq<Seq<char>>) -> nat
    decreases lines.len(),
{
    if lines.len() == 0 {
        0
    } else {
        nonblank_count(lines.drop_last()) + if is_blank(lines.last()) {
            0nat
        } else {
            1nat
        }
    }
}

/// The number of lines of `t` that are not blank.
pub(crate) fn count_nonblank_lines(t: &Vec<char>) -> (r: usize)
    ensures
        r == nonblank_count(split_lines(t@)),
{
    let lines = lines_of(t);
    let ghost all = text_views(lines@);
    let mut n: usize = 0;
    let mut i: usize = 0;
    assert(all.take(0) =~= Seq::<Seq<char>>::empty());
    while i < lines.len()
        invariant
            i <= lines.len(),
            all == text_views(lines@),
            n <= i,
            n == nonblank_count(all.take(i as int)),
        decreases lines.len() - i,
    {
        proof {
            assert(all.take(i + 1).drop_last() =~= all.take(i as int));
            assert(all.take(i + 1).last() == lines@[i as int]@);
        }
        if skip_spaces_from(&lines[i], 0) < lines[i].len() {
            n += 1;
        }
        i += 1;
    }
    assert(all.take(lines.len() as int) =~= all);
    n
}

/// A copy of an optional string.
pub(crate) fn clone_optional(o: &Option<String>) -> (r: Option<String>)
    ensures
        r.deep_view() == o.deep_view(),
{
    match o {
        Some(s) => Some(s.clone()),
        None => None,
    }
}

/// A copy of pairs of strings.
pub(crate) fn clone_pairs(v: &Vec<(String, String)>) -> (r: Vec<(String, String)>)
    ensures
        r.deep_view() == v.deep_view(),
{
    let mut r: Vec<(String, String)> = Vec::new();
    let mut i: usize = 0;
    while i < v.len()
        invariant
            i <= v.len(),
            r.len() == i,
            forall|j: int| 0 <= j < i ==> r@[j].0@ == v@[j].0@ && r@[j].1@ == v@[j].1@,
        decreases v.len() - i,
    {
        r.push((v[i].0.clone(), v[i].1.clone()));
        i += 1;
    }
    assert(r.deep_view() =~= v.deep_view());
    r
}

/// Whether two strings hold the same text.
pub(crate) fn str_equal(a: &str, b: &str) -> (r: bool)
    ensures
        r == (a@ == b@),
{
    let x = chars_of(a);
    let y = chars_of(b);
    same_text(&x, &y)
}

/// Whether `list` holds the text `x`.
pub(crate) fn contains_text(list: &Vec<Vec<char>>, x: &Vec<char>) -> (r: bool)
    ensures
        r == text_views(list@).contains(x@),
{
    let ghost texts = text_views(list@);
    let mut i: usize = 0;
    while i < list.len()
        invariant
            i <= list.len(),
            texts == text_views(list@),
            forall|j: int| 0 <= j < i ==> texts[j] != x@,
        decreases list.len() - i,
    {
        if same_text(&list[i], x) {
            assert(texts[i as int] == x@);
            return true;
        }
        i += 1;
    }
    false
}

/// The strings of the texts of `v`, in order.
pub(crate) fn strings_of(v: &Vec<Vec<char>>) -> (r: Vec<String>)
    ensures
        r.deep_view() == text_views(v@),
{
    let mut r: Vec<String> = Vec::new();
    let mut i: usize = 0;
    while i < v.len()
        invariant
            i <= v.len(),
            r.len() == i,
            forall|j: int| 0 <= j < i ==> r@[j]@ == v@[j]@,
        decreases v.len() - i,
    {
        r.push(string_of(&v[i]));
        i += 1;
    }
    assert(r.deep_view() =~= text_views(v@));
    r
}

/// The texts of the strings of `v`, in order.
pub(crate) fn texts_of(v: &Vec<String>) -> (r: Vec<Vec<char>>)
    ensures
        text_views(r@) == v.deep_view(),
{
    let mut r: Vec<Vec<char>> = Vec::new();
    let mut i: usize = 0;
    while i < v.len()
        invariant
            i <= v.len(),
            r.len() == i,
            forall|j: int| 0 <= j < i ==> r@[j]@ == v@[j]@,
        decreases v.len() - i,
    {
        r.push(chars_of(v[i].as_str()));
        i += 1;
    }
    assert(text_views(r@) =~= v.deep_view());
    r
}

} // verus!
