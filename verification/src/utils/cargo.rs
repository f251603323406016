//! Which declared dependencies the source code refers to.
//!
//! The analysis reads the text of the source files and takes four forms
//! as a reference to a package: a `use` item, an `extern crate` item, an
//! `extern crate` item under `#[macro_use]`, and any identifier that `::`
//! or `!` follows. It is a heuristic: what it reports is potentially
//! unused, never safe to remove without a look.

use crate::model::manifest::DependencySpec;
use crate::text::{
    chars_of, contains_text, copy_range, first_such, has_at, has_literal_at, is_space,
    lemma_first_such_is, skip_spaces, skip_spaces_from, strings_of, text_views, texts_of,
};
use vstd::prelude::*;

verus! {

/// Finds the packages that source files refer to.
pub struct DependencyUsageAnalyzer {
    sources: Vec<String>,
}

/// The forms that count as a reference to a package.
#[derive(Debug, Clone, Copy, PartialEq, Eq, Structural)]
pub enum Reference {
    /// `use name::` or `use name;` at the start of a line.
    Use,
    /// `extern crate name` at the start of a line.
    ExternCrate,
    /// `#[macro_use] extern crate name`.
    MacroUse,
    /// `name::` or `name!`.
    Path,
}

/// A letter of the ASCII alphabet or an underscore.
pub open spec fn is_ident_start(c: char) -> bool {
    ('a' <= c <= 'z') || ('A' <= c <= 'Z') || c == '_'
}

/// A character of an identifier: a letter, an underscore or a digit.
pub open spec fn is_ident_char(c: char) -> bool {
    is_ident_start(c) || ('0' <= c <= '9')
}

/// The first index at or after `i` that holds no character of an identifier.
pub open spec fn ident_end(t: Seq<char>, i: int) -> int {
    first_such(i, t.len() as int, |k: int| !is_ident_char(t[k]))
}

/// The identifier that starts at `a`, as far as it goes.
pub open spec fn ident_at(t: Seq<char>, a: int) -> Option<(int, int)> {
    if 0 <= a < t.len() && is_ident_start(t[a]) {
        Some((a, ident_end(t, a)))
    } else {
        None
    }
}

/// The index after the white space that starts at `j`; there is some.
pub open spec fn after_spaces(t: Seq<char>, j: int) -> Option<int> {
    if 0 <= j < t.len() && is_space(t[j]) {
        Some(skip_spaces(t, j))
    } else {
        None
    }
}

/// Whether a line starts at `s`.
pub open spec fn at_line_start(t: Seq<char>, s: int) -> bool {
    s == 0 || t[s - 1] == '\n'
}

/// Whether only digits stand between `s` and the start of the word that holds it.
pub open spec fn after_digits_only(t: Seq<char>, s: int) -> bool
    decreases s,
{
    s <= 0 || !is_ident_char(t[s - 1]) || ('0' <= t[s - 1] <= '9' && after_digits_only(t, s - 1))
}

/// Whether `::` stands at `b`.
pub open spec fn path_follows(t: Seq<char>, b: int) -> bool {
    0 <= b && b + 1 < t.len() && t[b] == ':' && t[b + 1] == ':'
}

/// The name in `extern crate name`, where that starts at `s`.
pub open spec fn extern_crate_from(t: Seq<char>, s: int) -> Option<(int, int)> {
    if has_at(t, s, "extern"@) {
        match after_spaces(t, s + "extern"@.len()) {
            Some(c) => if has_at(t, c, "crate"@) {
                match after_spaces(t, c + "crate"@.len()) {
                    Some(a) => ident_at(t, a),
                    None => None,
                }
            } else {
                None
            },
            None => None,
        }
    } else {
        None
    }
}

/// The bounds of the name that the form `form` refers to, where that form
/// starts at `s`.
pub open spec fn reference_span(t: Seq<char>, s: int, form: Reference) -> Option<(int, int)> {
    match form {
        Reference::Use => if at_line_start(t, s) && has_at(t, s, "use"@) {
            match after_spaces(t, s + "use"@.len()) {
                Some(a) => match ident_at(t, a) {
                    Some(name) => if path_follows(t, name.1) || (name.1 < t.len() && t[name.1]
                        == ';') {
                        Some(name)
                    } else {
                        None
                    },
                    None => None,
                },
                None => None,
            }
        } else {
            None
        },
        Reference::ExternCrate => if at_line_start(t, s) {
            extern_crate_from(t, s)
        } else {
            None
        },
        Reference::MacroUse => if has_at(t, s, "#[macro_use]"@) {
            extern_crate_from(t, skip_spaces(t, s + "#[macro_use]"@.len()))
        } else {
            None
        },
        Reference::Path => match ident_at(t, s) {
            Some(name) => if after_digits_only(t, s) && (path_follows(t, name.1) || (name.1
                < t.len() && t[name.1] == '!')) {
                Some(name)
            } else {
                None
            },
            None => None,
        },
    }
}

/// `s` with a hyphen for each underscore.
pub open spec fn with_hyphens(s: Seq<char>) -> Seq<char> {
    Seq::new(s.len(), |i: int| if s[i] == '_' {
        '-'
    } else {
        s[i]
    })
}

/// `s` with an underscore for each hyphen.
pub open spec fn with_underscores(s: Seq<char>) -> Seq<char> {
    Seq::new(s.len(), |i: int| if s[i] == '-' {
        '_'
    } else {
        s[i]
    })
}

/// Whether the form `form` at index `s` of `t` makes `name` a package
/// referred to: it names it, in this spelling or with hyphens for
/// underscores.
pub open spec fn refers_at(t: Seq<char>, s: int, form: Reference, name: Seq<char>) -> bool {
    match reference_span(t, s, form) {
        Some(span) => name == t.subrange(span.0, span.1) || name == with_hyphens(
            t.subrange(span.0, span.1),
        ),
        None => false,
    }
}

/// Whether `t` refers to `name` at an index below `bound`.
pub open spec fn refers_before(t: Seq<char>, bound: int, name: Seq<char>) -> bool {
    exists|s: int, form: Reference| 0 <= s < bound && #[trigger] refers_at(t, s, form, name)
}

/// Whether `t` refers to `name`.
pub open spec fn refers_to(t: Seq<char>, name: Seq<char>) -> bool {
    refers_before(t, t.len() as int, name)
}

/// Whether one of the first `count` of `sources` refers to `name`.
pub open spec fn sources_refer(sources: Seq<Seq<char>>, count: int, name: Seq<char>) -> bool {
    exists|i: int| 0 <= i < count && refers_to(#[trigger] sources[i], name)
}

/// A name of the standard library, which no manifest declares.
pub open spec fn is_builtin(name: Seq<char>) -> bool {
    name == "std"@ || name == "core"@ || name == "alloc"@ || name == "proc_macro"@ || name
        == "test"@
}

/// Whether `name` is in use: a name of the standard library, or referred
/// to by one of `sources`.
pub open spec fn is_referenced(sources: Seq<Seq<char>>, name: Seq<char>) -> bool {
    is_builtin(name) || sources_refer(sources, sources.len() as int, name)
}

/// Whether `used` holds `name` in one of its spellings: as it is, with
/// underscores for hyphens, or with hyphens for underscores.
pub open spec fn is_used(used: Seq<Seq<char>>, name: Seq<char>) -> bool {
    holds(used, name) || holds(used, with_underscores(name)) || holds(used, with_hyphens(name))
}

/// Those of `declared` that `used` does not hold, in order.
pub open spec fn unused_of(declared: Seq<Seq<char>>, used: Seq<Seq<char>>) -> Seq<Seq<char>>
    decreases declared.len(),
{
    if declared.len() == 0 {
        Seq::empty()
    } else {
        let rest = unused_of(declared.drop_last(), used);
        if is_used(used, declared.last()) {
            rest
        } else {
            rest.push(declared.last())
        }
    }
}

/// Whether `sources` refer to the package `name` in one of its spellings:
/// as it is, with underscores for hyphens, or with hyphens for underscores.
pub open spec fn is_in_use(sources: Seq<Seq<char>>, name: Seq<char>) -> bool {
    is_referenced(sources, name) || is_referenced(sources, with_underscores(name))
        || is_referenced(sources, with_hyphens(name))
}

/// Those of `declared` that `sources` do not refer to, in order.
pub open spec fn unreferenced(declared: Seq<Seq<char>>, sources: Seq<Seq<char>>) -> Seq<Seq<char>>
    decreases declared.len(),
{
    if declared.len() == 0 {
        Seq::empty()
    } else {
        let rest = unreferenced(declared.drop_last(), sources);
        if is_in_use(sources, declared.last()) {
            rest
        } else {
            rest.push(declared.last())
        }
    }
}

/// With the names in use at hand, the unused dependencies are those that
/// the sources do not refer to.
pub proof fn lemma_unused_by_list(
    declared: Seq<Seq<char>>,
    used: Seq<Seq<char>>,
    sources: Seq<Seq<char>>,
)
    requires
        forall|n: Seq<char>| #[trigger] holds(used, n) <==> is_referenced(sources, n),
    ensures
        unused_of(declared, used) == unreferenced(declared, sources),
    decreases declared.len(),
{
    if declared.len() > 0 {
        lemma_unused_by_list(declared.drop_last(), used, sources);
        let name = declared.last();
        assert(holds(used, name) <==> is_referenced(sources, name));
        assert(holds(used, with_underscores(name)) <==> is_referenced(
            sources,
            with_underscores(name),
        ));
        assert(holds(used, with_hyphens(name)) <==> is_referenced(sources, with_hyphens(name)));
    }
}

/// The names that `declared` declares, in order.
pub open spec fn declared_names(declared: Seq<(String, DependencySpec)>) -> Seq<Seq<char>> {
    Seq::new(declared.len(), |i: int| declared[i].0@)
}

/// Whether `names` holds the text `n`.
pub open spec fn holds(names: Seq<Seq<char>>, n: Seq<char>) -> bool {
    names.contains(n)
}

/// Whether no text occurs twice in `names`.
pub open spec fn no_repeats(names: Seq<Seq<char>>) -> bool {
    forall|i: int, j: int| 0 <= i < j < names.len() ==> names[i] != names[j]
}

/// Whether `c` can start an identifier.
fn char_is_ident_start(c: char) -> (r: bool)
    ensures
        r == is_ident_start(c),
{
    ('a' <= c && c <= 'z') || ('A' <= c && c <= 'Z') || c == '_'
}

/// Whether `c` can stand in an identifier.
fn char_is_ident(c: char) -> (r: bool)
    ensures
        r == is_ident_char(c),
{
    char_is_ident_start(c) || ('0' <= c && c <= '9')
}

/// The bounds of the identifier that starts at `a`.
fn ident_span(t: &Vec<char>, a: usize) -> (r: Option<(usize, usize)>)
    requires
        a <= t.len(),
    ensures
        match r {
            Some(n) => ident_at(t@, a as int) == Some((n.0 as int, n.1 as int)) && n.0 == a
                && a < n.1 <= t.len(),
            None => ident_at(t@, a as int) is None,
        },
{
    if a < t.len() && char_is_ident_start(t[a]) {
        let mut b: usize = a + 1;
        while b < t.len() && char_is_ident(t[b])
            invariant
                a < b <= t.len(),
                is_ident_start(t@[a as int]),
                forall|j: int| a <= j < b ==> is_ident_char(t@[j]),
            decreases t.len() - b,
        {
            b += 1;
        }
        proof {
            let pred = |k: int| !is_ident_char(t@[k]);
            assert forall|j: int| a <= j < b implies !#[trigger] pred(j) by {}
            lemma_first_such_is(a as int, t.len() as int, pred, b as int);
        }
        Some((a, b))
    } else {
        None
    }
}

/// The end of the white space that starts at `j`, if some stands there.
fn spaces_end(t: &Vec<char>, j: usize) -> (r: Option<usize>)
    requires
        j <= t.len(),
    ensures
        match r {
            Some(a) => after_spaces(t@, j as int) == Some(a as int) && j < a <= t.len(),
            None => after_spaces(t@, j as int) is None,
        },
{
    if j < t.len() && crate::text::char_is_space(t[j]) {
        let a = skip_spaces_from(t, j);
        proof {
            crate::text::lemma_skip_spaces(t@, j as int);
        }
        Some(a)
    } else {
        None
    }
}

/// Whether `::` stands at `b`.
fn path_follows_at(t: &Vec<char>, b: usize) -> (r: bool)
    requires
        b <= t.len(),
    ensures
        r == path_follows(t@, b as int),
{
    b < t.len() && t.len() - b > 1 && t[b] == ':' && t[b + 1] == ':'
}

/// The words of the forms, as texts.
struct Keywords {
    word_use: Vec<char>,
    word_extern: Vec<char>,
    word_crate: Vec<char>,
    attribute: Vec<char>,
}

impl Keywords {
    spec fn well_formed(&self) -> bool {
        &&& self.word_use@ == "use"@
        &&& self.word_extern@ == "extern"@
        &&& self.word_crate@ == "crate"@
        &&& self.attribute@ == "#[macro_use]"@
    }

    fn new() -> (r: Self)
        ensures
            r.well_formed(),
    {
        Keywords {
            word_use: chars_of("use"),
            word_extern: chars_of("extern"),
            word_crate: chars_of("crate"),
            attribute: chars_of("#[macro_use]"),
        }
    }
}

/// The bounds of the name in `extern crate name`, where that starts at `s`.
fn extern_crate_span(t: &Vec<char>, s: usize, words: &Keywords) -> (r: Option<(usize, usize)>)
    requires
        s <= t.len(),
        words.well_formed(),
    ensures
        match r {
            Some(n) => extern_crate_from(t@, s as int) == Some((n.0 as int, n.1 as int)) && n.0
                < n.1 <= t.len(),
            None => extern_crate_from(t@, s as int) is None,
        },
{
    if has_literal_at(t, s, &words.word_extern) {
        match spaces_end(t, s + words.word_extern.len()) {
            Some(c) => {
                if has_literal_at(t, c, &words.word_crate) {
                    match spaces_end(t, c + words.word_crate.len()) {
                        Some(a) => ident_span(t, a),
                        None => None,
                    }
                } else {
                    None
                }
            },
            None => None,
        }
    } else {
        None
    }
}

/// The bounds of the name that the form `form` refers to at `s`, given
/// whether only digits stand before `s` in its word.
fn reference_at(
    t: &Vec<char>,
    s: usize,
    form: Reference,
    digits_before: bool,
    words: &Keywords,
) -> (r: Option<(usize, usize)>)
    requires
        s < t.len(),
        digits_before == after_digits_only(t@, s as int),
        words.well_formed(),
    ensures
        match r {
            Some(n) => reference_span(t@, s as int, form) == Some((n.0 as int, n.1 as int))
                && n.0 < n.1 <= t.len(),
            None => reference_span(t@, s as int, form) is None,
        },
{
    let line_start = s == 0 || t[s - 1] == '\n';
    match form {
        Reference::Use => {
            if line_start && has_literal_at(t, s, &words.word_use) {
                match spaces_end(t, s + words.word_use.len()) {
                    Some(a) => match ident_span(t, a) {
                        Some(name) => {
                            if path_follows_at(t, name.1) || (name.1 < t.len() && t[name.1]
                                == ';') {
                                Some(name)
                            } else {
                                None
                            }
                        },
                        None => None,
                    },
                    None => None,
                }
            } else {
                None
            }
        },
        Reference::ExternCrate => {
            if line_start {
                extern_crate_span(t, s, words)
            } else {
                None
            }
        },
        Reference::MacroUse => {
            if has_literal_at(t, s, &words.attribute) {
                let e = skip_spaces_from(t, s + words.attribute.len());
                extern_crate_span(t, e, words)
            } else {
                None
            }
        },
        Reference::Path => match ident_span(t, s) {
            Some(name) => {
                if digits_before && (path_follows_at(t, name.1) || (name.1 < t.len() && t[name.1]
                    == '!')) {
                    Some(name)
                } else {
                    None
                }
            },
            None => None,
        },
    }
}

/// Puts `name` among `names`, unless it is there.
fn insert_name(names: &mut Vec<Vec<char>>, name: Vec<char>)
    requires
        no_repeats(text_views(old(names)@)),
    ensures
        no_repeats(text_views(final(names)@)),
        forall|n: Seq<char>|
            #[trigger] holds(text_views(final(names)@), n) <==> holds(text_views(old(names)@), n)
                || n == name@,
{
    let ghost before = text_views(names@);
    if !contains_text(names, &name) {
        names.push(name);
        proof {
            let after = text_views(names@);
            assert(after =~= before.push(name@));
            assert forall|n: Seq<char>| #[trigger]
                holds(after, n) <==> holds(before, n) || n == name@ by {
                if before.contains(n) {
                    let i = choose|i: int| 0 <= i < before.len() && before[i] == n;
                    assert(after[i] == n);
                }
                if n == name@ {
                    assert(after[before.len() as int] == n);
                }
            }
        }
    }
}

/// `name` with a hyphen for each underscore.
fn hyphenated(name: &Vec<char>) -> (r: Vec<char>)
    ensures
        r@ == with_hyphens(name@),
{
    let mut r: Vec<char> = Vec::new();
    let mut i: usize = 0;
    while i < name.len()
        invariant
            i <= name.len(),
            r@ == with_hyphens(name@).take(i as int),
        decreases name.len() - i,
    {
        let c = if name[i] == '_' {
            '-'
        } else {
            name[i]
        };
        r.push(c);
        assert(r@ =~= with_hyphens(name@).take(i + 1));
        i += 1;
    }
    assert(with_hyphens(name@).take(name.len() as int) =~= with_hyphens(name@));
    r
}

/// `name` with an underscore for each hyphen.
fn underscored(name: &Vec<char>) -> (r: Vec<char>)
    ensures
        r@ == with_underscores(name@),
{
    let mut r: Vec<char> = Vec::new();
    let mut i: usize = 0;
    while i < name.len()
        invariant
            i <= name.len(),
            r@ == with_underscores(name@).take(i as int),
        decreases name.len() - i,
    {
        let c = if name[i] == '-' {
            '_'
        } else {
            name[i]
        };
        r.push(c);
        assert(r@ =~= with_underscores(name@).take(i + 1));
        i += 1;
    }
    assert(with_underscores(name@).take(name.len() as int) =~= with_underscores(name@));
    r
}

/// Notes the name that the form `form` refers to at `s`, if it does, in
/// both spellings.
fn note_reference(
    used: &mut Vec<Vec<char>>,
    t: &Vec<char>,
    s: usize,
    form: Reference,
    digits_before: bool,
    words: &Keywords,
)
    requires
        s < t.len(),
        digits_before == after_digits_only(t@, s as int),
        words.well_formed(),
        no_repeats(text_views(old(used)@)),
    ensures
        no_repeats(text_views(final(used)@)),
        forall|n: Seq<char>|
            #[trigger] holds(text_views(final(used)@), n) <==> holds(text_views(old(used)@), n)
                || refers_at(t@, s as int, form, n),
{
    match reference_at(t, s, form, digits_before, words) {
        Some(span) => {
            let name = copy_range(t, span.0, span.1);
            let other = hyphenated(&name);
            insert_name(used, name);
            insert_name(used, other);
        },
        None => {},
    }
}

/// Notes every name that `t` refers to.
fn scan_text(used: &mut Vec<Vec<char>>, t: &Vec<char>, words: &Keywords)
    requires
        words.well_formed(),
        no_repeats(text_views(old(used)@)),
    ensures
        no_repeats(text_views(final(used)@)),
        forall|n: Seq<char>|
            #[trigger] holds(text_views(final(used)@), n) <==> holds(text_views(old(used)@), n)
                || refers_to(t@, n),
{
    let ghost before = text_views(used@);
    let mut s: usize = 0;
    let mut digits_before = true;
    while s < t.len()
        invariant
            s <= t.len(),
            digits_before == after_digits_only(t@, s as int),
            words.well_formed(),
            no_repeats(text_views(used@)),
            forall|n: Seq<char>|
                #[trigger] holds(text_views(used@), n) <==> holds(before, n) || refers_before(
                    t@,
                    s as int,
                    n,
                ),
        decreases t.len() - s,
    {
        let ghost u0 = text_views(used@);
        note_reference(used, t, s, Reference::Use, digits_before, words);
        let ghost u1 = text_views(used@);
        note_reference(used, t, s, Reference::ExternCrate, digits_before, words);
        let ghost u2 = text_views(used@);
        note_reference(used, t, s, Reference::MacroUse, digits_before, words);
        let ghost u3 = text_views(used@);
        note_reference(used, t, s, Reference::Path, digits_before, words);
        proof {
            let now = text_views(used@);
            assert forall|n: Seq<char>| #[trigger]
                holds(now, n) <==> holds(before, n) || refers_before(t@, s + 1, n) by {
                let here = refers_at(t@, s as int, Reference::Use, n) || refers_at(
                    t@,
                    s as int,
                    Reference::ExternCrate,
                    n,
                ) || refers_at(t@, s as int, Reference::MacroUse, n) || refers_at(
                    t@,
                    s as int,
                    Reference::Path,
                    n,
                );
                assert(holds(u0, n) <==> holds(before, n) || refers_before(t@, s as int, n));
                assert(holds(u1, n) <==> holds(u0, n) || refers_at(
                    t@,
                    s as int,
                    Reference::Use,
                    n,
                ));
                assert(holds(u2, n) <==> holds(u1, n) || refers_at(
                    t@,
                    s as int,
                    Reference::ExternCrate,
                    n,
                ));
                assert(holds(u3, n) <==> holds(u2, n) || refers_at(
                    t@,
                    s as int,
                    Reference::MacroUse,
                    n,
                ));
                assert(holds(now, n) <==> holds(u3, n) || refers_at(
                    t@,
                    s as int,
                    Reference::Path,
                    n,
                ));
                if refers_before(t@, s as int, n) {
                    let (w, form) = choose|w: int, form: Reference|
                        0 <= w < s && #[trigger] refers_at(t@, w, form, n);
                    assert(0 <= w < s + 1 && refers_at(t@, w, form, n));
                }
                if here {
                    assert(refers_before(t@, s + 1, n));
                }
                if refers_before(t@, s + 1, n) {
                    let (w, form) = choose|w: int, form: Reference|
                        0 <= w < s + 1 && #[trigger] refers_at(t@, w, form, n);
                    if w < s {
                        assert(refers_before(t@, s as int, n));
                    } else {
                        match form {
                            Reference::Use => {},
                            Reference::ExternCrate => {},
                            Reference::MacroUse => {},
                            Reference::Path => {},
                        }
                        assert(here);
                    }
                }
            }
        }
        let c = t[s];
        digits_before = !char_is_ident(c) || ('0' <= c && c <= '9' && digits_before);
        s += 1;
    }
}

/// The directories, below that of the manifest, in which the source files
/// are looked for.
pub fn source_roots() -> (r: Vec<String>)
    ensures
        r.deep_view() == seq!["src"@, "tests"@, "examples"@],
{
    let mut r: Vec<String> = Vec::new();
    r.push("src".to_string());
    r.push("tests".to_string());
    r.push("examples".to_string());
    assert(r.deep_view() =~= seq!["src"@, "tests"@, "examples"@]);
    r
}

/// Whether a file of this name holds source code: the name ends in `.rs`
/// and has something before that.
pub fn is_rust_source(file_name: &str) -> (r: bool)
    ensures
        r == (file_name@.len() > 3 && has_at(file_name@, file_name@.len() - 3, ".rs"@)),
{
    let name = chars_of(file_name);
    let ending = chars_of(".rs");
    proof {
        reveal_strlit(".rs");
    }
    if name.len() > 3 {
        has_literal_at(&name, name.len() - 3, &ending)
    } else {
        false
    }
}

impl DependencyUsageAnalyzer {
    /// The texts of the source files.
    pub closed spec fn sources(&self) -> Seq<Seq<char>> {
        self.sources.deep_view()
    }

    /// An analyzer of the source files with the contents `sources`.
    pub fn new(sources: Vec<String>) -> (r: Self)
        ensures
            r.sources() == sources.deep_view(),
    {
        DependencyUsageAnalyzer { sources }
    }

    /// The names in use: those of the standard library and those that the
    /// source files refer to, each once.
    pub fn find_used_dependencies(&self) -> (r: Vec<String>)
        ensures
            no_repeats(r.deep_view()),
            forall|n: Seq<char>| #[trigger]
                holds(r.deep_view(), n) <==> is_referenced(self.sources(), n),
    {
        let ghost sources = self.sources();
        let words = Keywords::new();
        let mut used: Vec<Vec<char>> = Vec::new();
        let ghost n0 = text_views(used@);
        assert(n0 =~= Seq::<Seq<char>>::empty());
        insert_name(&mut used, chars_of("std"));
        let ghost n1 = text_views(used@);
        insert_name(&mut used, chars_of("core"));
        let ghost n2 = text_views(used@);
        insert_name(&mut used, chars_of("alloc"));
        let ghost n3 = text_views(used@);
        insert_name(&mut used, chars_of("proc_macro"));
        let ghost n4 = text_views(used@);
        insert_name(&mut used, chars_of("test"));
        proof {
            let now = text_views(used@);
            assert forall|n: Seq<char>| #[trigger]
                holds(now, n) <==> is_builtin(n) || sources_refer(sources, 0, n) by {
                assert(!holds(n0, n));
                assert(holds(n1, n) <==> holds(n0, n) || n == "std"@);
                assert(holds(n2, n) <==> holds(n1, n) || n == "core"@);
                assert(holds(n3, n) <==> holds(n2, n) || n == "alloc"@);
                assert(holds(n4, n) <==> holds(n3, n) || n == "proc_macro"@);
                assert(holds(now, n) <==> holds(n4, n) || n == "test"@);
            }
        }
        let mut i: usize = 0;
        while i < self.sources.len()
            invariant
                i <= self.sources.len(),
                sources == self.sources.deep_view(),
                words.well_formed(),
                no_repeats(text_views(used@)),
                forall|n: Seq<char>|
                    #[trigger] holds(text_views(used@), n) <==> is_builtin(n) || sources_refer(
                        sources,
                        i as int,
                        n,
                    ),
            decreases self.sources.len() - i,
        {
            let ghost at_start = text_views(used@);
            let text = chars_of(self.sources[i].as_str());
            scan_text(&mut used, &text, &words);
            proof {
                let now = text_views(used@);
                assert(text@ == sources[i as int]);
                assert forall|n: Seq<char>| #[trigger]
                    holds(now, n) <==> is_builtin(n) || sources_refer(sources, i + 1, n) by {
                    assert(holds(at_start, n) <==> is_builtin(n) || sources_refer(
                        sources,
                        i as int,
                        n,
                    ));
                    assert(holds(now, n) <==> holds(at_start, n) || refers_to(text@, n));
                    if sources_refer(sources, i as int, n) {
                        let w = choose|w: int| 0 <= w < i && refers_to(#[trigger] sources[w], n);
                        assert(0 <= w < i + 1 && refers_to(sources[w], n));
                    }
                    if sources_refer(sources, i + 1, n) {
                        let w = choose|w: int|
                            0 <= w < i + 1 && refers_to(#[trigger] sources[w], n);
                        if w < i {
                            assert(sources_refer(sources, i as int, n));
                        }
                    }
                    if refers_to(text@, n) {
                        assert(refers_to(sources[i as int], n));
                    }
                }
            }
            i += 1;
        }
        strings_of(&used)
    }

    /// The declared dependencies that nothing refers to, in the order of
    /// their declaration: those whose name is not in use as it is, nor with
    /// underscores for hyphens, nor with hyphens for underscores.
    pub fn find_unused_dependencies(&self, declared_deps: &Vec<(String, DependencySpec)>) -> (r:
        Vec<String>)
        ensures
            r.deep_view() == unreferenced(declared_names(declared_deps@), self.sources()),
    {
        let used = self.find_used_dependencies();
        proof {
            lemma_unused_by_list(
                declared_names(declared_deps@),
                used.deep_view(),
                self.sources(),
            );
        }
        unused_among(declared_deps, &used)
    }
}

/// Those of `declared_deps` whose name `used` does not hold in any of its
/// spellings, in order.
pub fn unused_among(declared_deps: &Vec<(String, DependencySpec)>, used: &Vec<String>) -> (r: Vec<
    String,
>)
    ensures
        r.deep_view() == unused_of(declared_names(declared_deps@), used.deep_view()),
{
    let ghost names = declared_names(declared_deps@);
    let in_use = texts_of(used);
    let mut unused: Vec<String> = Vec::new();
    let mut i: usize = 0;
    assert(names.take(0) =~= Seq::<Seq<char>>::empty());
    assert(unused.deep_view() =~= Seq::<Seq<char>>::empty());
    while i < declared_deps.len()
        invariant
            i <= declared_deps.len(),
            names == declared_names(declared_deps@),
            text_views(in_use@) == used.deep_view(),
            unused.deep_view() == unused_of(names.take(i as int), used.deep_view()),
        decreases declared_deps.len() - i,
    {
        let ghost before = unused.deep_view();
        proof {
            assert(names.take(i + 1).drop_last() =~= names.take(i as int));
            assert(names.take(i + 1).last() == declared_deps@[i as int].0@);
        }
        let name = chars_of(declared_deps[i].0.as_str());
        let found = contains_text(&in_use, &name) || contains_text(&in_use, &underscored(&name))
            || contains_text(&in_use, &hyphenated(&name));
        if !found {
            unused.push(declared_deps[i].0.clone());
            assert(unused.deep_view() =~= before.push(declared_deps@[i as int].0@));
        }
        i += 1;
    }
    assert(names.take(declared_deps.len() as int) =~= names);
    unused
}

} // verus!
