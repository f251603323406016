//! Rewriting the version of a declared dependency in the text of the
//! manifest, and taking a declaration out of it.
//!
//! For an update a declaration is looked for in two forms, line by line:
//! first `name = { ..., version = "...", ... }`, a table with the key
//! `version` among its keys, then `name = "..."`. For a removal a
//! declaration is the name and `=`, whatever the value. White space may
//! stand wherever the forms show a blank, and before the name. Only the
//! first declaration of a name is found: a name declared twice is not
//! supported. The text is not read by sections: a key of that name is a
//! declaration in whichever section it stands.

use crate::model::dependency::Dependency;
use crate::model::manifest::Manifest;
use crate::text::{
    append_range, char_is_space, chars_of, find_char, find_char_from, has_at, has_literal_at,
    is_space, lemma_find_char, lemma_find_char_is, lemma_skip_spaces, lemma_skip_spaces_is,
    skip_spaces, skip_spaces_from, string_of,
};
use vstd::prelude::*;
use vstd::string::StringExecFns;

verus! {

/// Holds the text of a manifest while dependencies are rewritten in it.
pub struct DependencyUpdater {
    manifest: Manifest,
    original_content: String,
}

/// Why an edit did not take place.
#[derive(Debug, Clone)]
pub enum UpdateError {
    /// The manifest declares no dependency of this name in a form that is looked for.
    DependencyNotFound(String),
}

/// The two forms in which a dependency is declared.
#[derive(Debug, Clone, Copy, PartialEq, Eq, Structural)]
pub enum DeclarationForm {
    /// `name = { ..., version = "...", ... }`: a table that holds the key `version`.
    Detailed,
    /// `name = "..."`.
    Simple,
}

/// Where a character of a value stands.
#[derive(Debug, Clone, Copy, PartialEq, Eq, Structural)]
pub enum Within {
    /// Outside every string.
    Plain,
    /// In a string between double quotes.
    Basic,
    /// In a string between double quotes, after a backslash.
    Escape,
    /// In a string between single quotes.
    Literal,
}

/// How far a save has come.
#[derive(Debug, Clone, Copy, PartialEq, Eq, Structural)]
pub enum SaveState {
    /// Nothing was done yet.
    NotStarted,
    /// The backup holds the manifest as it was.
    BackedUp,
    /// The manifest holds the new text.
    Saved,
    /// A step failed; nothing more is done.
    Failed,
}

/// A step of a save, for the caller to carry out.
#[derive(Debug, Clone, PartialEq, Eq)]
pub enum SaveAction {
    /// Copy the file at `from` to `to`, over what may be there.
    Backup { from: String, to: String },
    /// Write `content` to the file at `path`.
    Write { path: String, content: String },
}

/// The files that a save touches, by path, each with its content.
pub type FileStore = Map<Seq<char>, Seq<char>>;

/// Where a declaration stands: the start of the name, and the bounds of
/// the version between its quotes.
pub struct Declaration {
    pub name_start: int,
    pub value_start: int,
    pub value_end: int,
}

/// Whether nothing but white space stands before index `i` on its line.
pub open spec fn indent_only(t: Seq<char>, i: int) -> bool
    decreases i,
{
    if i <= 0 {
        true
    } else {
        t[i - 1] == '\n' || (is_space(t[i - 1]) && indent_only(t, i - 1))
    }
}

/// The bounds of the text between the quote at `k` and the next quote, where
/// both quotes stand and the text between them is not empty.
pub open spec fn quoted_value(t: Seq<char>, k: int) -> Option<(int, int)> {
    if 0 <= k < t.len() && t[k] == '"' {
        let q = find_char(t, k + 1, '"');
        if k + 1 < q < t.len() {
            Some((k + 1, q))
        } else {
            None
        }
    } else {
        None
    }
}

/// The version of the simple form, which follows the name that ends at `i`:
/// `=` and a quoted text.
pub open spec fn simple_value(t: Seq<char>, i: int) -> Option<(int, int)> {
    let j = skip_spaces(t, i);
    if j < t.len() && t[j] == '=' {
        quoted_value(t, skip_spaces(t, j + 1))
    } else {
        None
    }
}

/// The key that holds the version in a table.
pub open spec fn version_key() -> Seq<char> {
    "version"@
}

/// Where the character after `c` stands, when `c` stands in `mode`.
pub open spec fn step_mode(mode: Within, c: char) -> Within {
    match mode {
        Within::Plain => if c == '"' {
            Within::Basic
        } else if c == '\'' {
            Within::Literal
        } else {
            Within::Plain
        },
        Within::Basic => if c == '"' {
            Within::Plain
        } else if c == '\\' {
            Within::Escape
        } else {
            Within::Basic
        },
        Within::Escape => Within::Basic,
        Within::Literal => if c == '\'' {
            Within::Plain
        } else {
            Within::Literal
        },
    }
}

/// Whether `c`, standing in `mode`, opens a table or an array.
pub open spec fn opens(mode: Within, c: char) -> bool {
    mode == Within::Plain && (c == '{' || c == '[')
}

/// Whether `c`, standing in `mode`, closes a table or an array.
pub open spec fn closes(mode: Within, c: char) -> bool {
    mode == Within::Plain && (c == '}' || c == ']')
}

/// The number of tables and arrays that are open after `c`, when `depth`
/// of them are open before it.
pub open spec fn depth_after(depth: nat, mode: Within, c: char) -> nat {
    if opens(mode, c) {
        depth + 1
    } else if closes(mode, c) && depth > 0 {
        (depth - 1) as nat
    } else {
        depth
    }
}

/// Whether a key of the table may start after `c`: after white space
/// where one might start at `c`, and after a comma of the table itself.
pub open spec fn key_after(depth: nat, at_key: bool, mode: Within, c: char) -> bool {
    mode == Within::Plain && ((at_key && is_space(c)) || (c == ',' && depth == 0))
}

/// The version that the entry at `p` holds, where the entry is the key
/// `version`, `=` and a quoted text.
pub open spec fn version_entry(t: Seq<char>, p: int) -> Option<(int, int)> {
    if has_at(t, p, version_key()) {
        let m = skip_spaces(t, p + version_key().len());
        if m < t.len() && t[m] == '=' {
            quoted_value(t, skip_spaces(t, m + 1))
        } else {
            None
        }
    } else {
        None
    }
}

/// The version of the first entry with the key `version` in the table
/// that is read from `p` on. The key stands at the start of the table or
/// after a comma of the table, not within a string, an array or a table
/// inside it. `depth` tells how many arrays and tables inside are open at
/// `p`, `at_key` whether a key may start there, `mode` where `p` stands.
pub open spec fn table_version(t: Seq<char>, p: int, depth: nat, at_key: bool, mode: Within)
    -> Option<(int, int)>
    decreases t.len() - p,
{
    if p < 0 || p >= t.len() {
        None
    } else if mode == Within::Plain && depth == 0 && at_key && version_entry(t, p) is Some {
        version_entry(t, p)
    } else if closes(mode, t[p]) && depth == 0 {
        None
    } else {
        table_version(
            t,
            p + 1,
            depth_after(depth, mode, t[p]),
            key_after(depth, at_key, mode, t[p]),
            step_mode(mode, t[p]),
        )
    }
}

/// The version of the detailed form, which follows the name that ends at
/// `i`: `=`, `{`, and in that table the key `version`, `=` and a quoted
/// text, whatever keys stand before and after.
pub open spec fn detailed_value(t: Seq<char>, i: int) -> Option<(int, int)> {
    let j = skip_spaces(t, i);
    if j < t.len() && t[j] == '=' {
        let k = skip_spaces(t, j + 1);
        if k < t.len() && t[k] == '{' {
            table_version(t, k + 1, 0, true, Within::Plain)
        } else {
            None
        }
    } else {
        None
    }
}

/// The version that the declaration of `name` at index `i` holds, where
/// one stands there in the form `form`: the name first on its line, then
/// what the form asks for.
pub open spec fn declared_at(t: Seq<char>, name: Seq<char>, form: DeclarationForm, i: int)
    -> Option<(int, int)> {
    if indent_only(t, i) && has_at(t, i, name) {
        match form {
            DeclarationForm::Detailed => detailed_value(t, i + name.len()),
            DeclarationForm::Simple => simple_value(t, i + name.len()),
        }
    } else {
        None
    }
}

/// The first declaration of `name` in the form `form` at or after index `from`.
pub open spec fn first_declaration(
    t: Seq<char>,
    name: Seq<char>,
    form: DeclarationForm,
    from: int,
) -> Option<Declaration>
    decreases t.len() - from,
{
    if from >= t.len() {
        None
    } else {
        match declared_at(t, name, form, from) {
            Some(v) => Some(Declaration { name_start: from, value_start: v.0, value_end: v.1 }),
            None => first_declaration(t, name, form, from + 1),
        }
    }
}

/// The declaration of `name`: the first in the detailed form or, where
/// there is none, the first in the simple form.
pub open spec fn find_declaration(t: Seq<char>, name: Seq<char>) -> Option<Declaration> {
    match first_declaration(t, name, DeclarationForm::Detailed, 0) {
        Some(d) => Some(d),
        None => first_declaration(t, name, DeclarationForm::Simple, 0),
    }
}

/// `t` with `new_version` in place of the version that `name` is declared
/// with; nothing else differs. `None` where `name` is not declared.
pub open spec fn with_version(t: Seq<char>, name: Seq<char>, new_version: Seq<char>) -> Option<
    Seq<char>,
> {
    match find_declaration(t, name) {
        Some(d) => Some(
            t.subrange(0, d.value_start) + new_version + t.subrange(d.value_end, t.len() as int),
        ),
        None => None,
    }
}

/// The start of the line that holds index `i`.
pub open spec fn line_start(t: Seq<char>, i: int) -> int
    decreases i,
{
    if i <= 0 {
        0
    } else if t[i - 1] == '\n' {
        i
    } else {
        line_start(t, i - 1)
    }
}

/// The end of the line that holds index `i`, past its line feed if it has one.
pub open spec fn line_end(t: Seq<char>, i: int) -> int {
    let e = find_char(t, i, '\n');
    if e < t.len() {
        e + 1
    } else {
        t.len() as int
    }
}

/// The index of the `=` of the assignment to `name` that starts at `i`:
/// the name first on its line, then `=`.
pub open spec fn assignment_at(t: Seq<char>, name: Seq<char>, i: int) -> Option<int> {
    if indent_only(t, i) && has_at(t, i, name) {
        let j = skip_spaces(t, i + name.len());
        if j < t.len() && t[j] == '=' {
            Some(j)
        } else {
            None
        }
    } else {
        None
    }
}

/// The first assignment to `name` at or after index `from`: the start of
/// the name and the index of the `=`.
pub open spec fn first_assignment(t: Seq<char>, name: Seq<char>, from: int) -> Option<(int, int)>
    decreases t.len() - from,
{
    if from >= t.len() {
        None
    } else {
        match assignment_at(t, name, from) {
            Some(j) => Some((from, j)),
            None => first_assignment(t, name, from + 1),
        }
    }
}

/// Whether a value that starts with `c` has an end of its own: a string,
/// a table or an array.
pub open spec fn is_opener(c: char) -> bool {
    c == '"' || c == '\'' || c == '{' || c == '['
}

/// The index at which the value read from `p` on is closed: where no table
/// or array is open any more and no string.
pub open spec fn value_close(t: Seq<char>, p: int, depth: nat, mode: Within) -> Option<int>
    decreases t.len() - p,
{
    if p < 0 || p >= t.len() {
        None
    } else if depth_after(depth, mode, t[p]) == 0 && step_mode(mode, t[p]) == Within::Plain {
        Some(p)
    } else {
        value_close(t, p + 1, depth_after(depth, mode, t[p]), step_mode(mode, t[p]))
    }
}

/// The index at which the declaration with its `=` at `j` ends: where
/// its string, table or array is closed; where the value is of another
/// kind or is not closed, where the value starts.
pub open spec fn declaration_end(t: Seq<char>, j: int) -> int {
    let v = skip_spaces(t, j + 1);
    if v < t.len() {
        if is_opener(t[v]) {
            match value_close(t, v, 0, Within::Plain) {
                Some(q) => q,
                None => v,
            }
        } else {
            v
        }
    } else {
        j
    }
}

/// `t` without the lines of the declaration of `name`: from the start of
/// the line of the name to the end of the line on which the declaration
/// ends. `None` where `name` is not declared.
pub open spec fn without_declaration(t: Seq<char>, name: Seq<char>) -> Option<Seq<char>> {
    match first_assignment(t, name, 0) {
        Some(a) => Some(
            t.subrange(0, line_start(t, a.0)) + t.subrange(
                line_end(t, declaration_end(t, a.1)),
                t.len() as int,
            ),
        ),
        None => None,
    }
}

/// The path of the backup of the file at `path`.
pub open spec fn backup_path_of(path: Seq<char>) -> Seq<char> {
    path + ".backup"@
}

/// The message that tells that `name` was not found.
pub open spec fn not_found_message(name: Seq<char>) -> Seq<char> {
    "Could not find dependency "@ + name + " in Cargo.toml"@
}

/// What a declaration found holds: positions within the text, in order.
pub open spec fn declaration_in(t: Seq<char>, d: Declaration) -> bool {
    0 <= d.name_start <= d.value_start < d.value_end < t.len()
}

/// The bounds of the quoted text that starts at `k`.
fn quoted_value_at(t: &Vec<char>, k: usize) -> (r: Option<(usize, usize)>)
    requires
        k <= t.len(),
    ensures
        match r {
            Some(v) => quoted_value(t@, k as int) == Some((v.0 as int, v.1 as int)) && k < v.0
                < v.1 < t.len(),
            None => quoted_value(t@, k as int) is None,
        },
{
    if k < t.len() && t[k] == '"' {
        let q = find_char_from(t, k + 1, '"');
        if k + 1 < q && q < t.len() {
            Some((k + 1, q))
        } else {
            None
        }
    } else {
        None
    }
}

/// The version of the simple form after the name that ends at `i`.
fn simple_value_at(t: &Vec<char>, i: usize) -> (r: Option<(usize, usize)>)
    requires
        i <= t.len(),
    ensures
        match r {
            Some(v) => simple_value(t@, i as int) == Some((v.0 as int, v.1 as int)) && i < v.0
                < v.1 < t.len(),
            None => simple_value(t@, i as int) is None,
        },
{
    let j = skip_spaces_from(t, i);
    if j < t.len() && t[j] == '=' {
        let k = skip_spaces_from(t, j + 1);
        quoted_value_at(t, k)
    } else {
        None
    }
}

/// Where the character after `c` stands.
fn next_mode(mode: Within, c: char) -> (r: Within)
    ensures
        r == step_mode(mode, c),
{
    match mode {
        Within::Plain => if c == '"' {
            Within::Basic
        } else if c == '\'' {
            Within::Literal
        } else {
            Within::Plain
        },
        Within::Basic => if c == '"' {
            Within::Plain
        } else if c == '\\' {
            Within::Escape
        } else {
            Within::Basic
        },
        Within::Escape => Within::Basic,
        Within::Literal => if c == '\'' {
            Within::Plain
        } else {
            Within::Literal
        },
    }
}

/// The version that the entry at `p` holds, if it has the key `version`.
fn version_entry_at(t: &Vec<char>, p: usize, key: &Vec<char>) -> (r: Option<(usize, usize)>)
    requires
        p <= t.len(),
        key@ == version_key(),
    ensures
        match r {
            Some(v) => version_entry(t@, p as int) == Some((v.0 as int, v.1 as int)) && p < v.0
                < v.1 < t.len(),
            None => version_entry(t@, p as int) is None,
        },
{
    if has_literal_at(t, p, key) {
        let m = skip_spaces_from(t, p + key.len());
        if m < t.len() && t[m] == '=' {
            let n = skip_spaces_from(t, m + 1);
            return quoted_value_at(t, n);
        }
    }
    None
}

/// The version of the first entry with the key `version` in the table
/// whose content starts at `start`.
fn table_version_at(t: &Vec<char>, start: usize) -> (r: Option<(usize, usize)>)
    requires
        start <= t.len(),
    ensures
        match r {
            Some(v) => table_version(t@, start as int, 0, true, Within::Plain) == Some(
                (v.0 as int, v.1 as int),
            ) && start < v.0 < v.1 < t.len(),
            None => table_version(t@, start as int, 0, true, Within::Plain) is None,
        },
{
    let key = chars_of("version");
    let mut p: usize = start;
    let mut depth: usize = 0;
    let mut at_key = true;
    let mut mode = Within::Plain;
    while p < t.len()
        invariant
            start <= p <= t.len(),
            depth <= p - start,
            key@ == version_key(),
            table_version(t@, start as int, 0, true, Within::Plain) == table_version(
                t@,
                p as int,
                depth as nat,
                at_key,
                mode,
            ),
        decreases t.len() - p,
    {
        let c = t[p];
        let plain = mode == Within::Plain;
        if plain && depth == 0 && at_key {
            match version_entry_at(t, p, &key) {
                Some(v) => {
                    return Some(v);
                },
                None => {},
            }
        }
        at_key = plain && ((at_key && char_is_space(c)) || (c == ',' && depth == 0));
        if plain && (c == '}' || c == ']') {
            if depth == 0 {
                return None;
            }
            depth -= 1;
        } else if plain && (c == '{' || c == '[') {
            depth += 1;
        }
        mode = next_mode(mode, c);
        p += 1;
    }
    None
}

/// The version of the detailed form after the name that ends at `i`.
fn detailed_value_at(t: &Vec<char>, i: usize) -> (r: Option<(usize, usize)>)
    requires
        i <= t.len(),
    ensures
        match r {
            Some(v) => detailed_value(t@, i as int) == Some((v.0 as int, v.1 as int)) && i < v.0
                < v.1 < t.len(),
            None => detailed_value(t@, i as int) is None,
        },
{
    let j = skip_spaces_from(t, i);
    if j < t.len() && t[j] == '=' {
        let k = skip_spaces_from(t, j + 1);
        if k < t.len() && t[k] == '{' {
            return table_version_at(t, k + 1);
        }
    }
    None
}

/// The first assignment to `name`: the start of the name and the index of the `=`.
fn find_assignment(t: &Vec<char>, name: &Vec<char>) -> (r: Option<(usize, usize)>)
    ensures
        match r {
            Some(a) => first_assignment(t@, name@, 0) == Some((a.0 as int, a.1 as int)) && a.0
                <= a.1 < t.len(),
            None => first_assignment(t@, name@, 0) is None,
        },
{
    let mut i: usize = 0;
    let mut indent = true;
    while i < t.len()
        invariant
            i <= t.len(),
            indent == indent_only(t@, i as int),
            first_assignment(t@, name@, 0) == first_assignment(t@, name@, i as int),
        decreases t.len() - i,
    {
        if indent && has_literal_at(t, i, name) {
            let j = skip_spaces_from(t, i + name.len());
            if j < t.len() && t[j] == '=' {
                return Some((i, j));
            }
        }
        indent = t[i] == '\n' || (indent && char_is_space(t[i]));
        i += 1;
    }
    None
}

/// The index at which the value that starts at `v` is closed.
fn value_close_at(t: &Vec<char>, v: usize) -> (r: Option<usize>)
    requires
        v <= t.len(),
    ensures
        match r {
            Some(q) => value_close(t@, v as int, 0, Within::Plain) == Some(q as int) && v <= q
                < t.len(),
            None => value_close(t@, v as int, 0, Within::Plain) is None,
        },
{
    let mut p: usize = v;
    let mut depth: usize = 0;
    let mut mode = Within::Plain;
    while p < t.len()
        invariant
            v <= p <= t.len(),
            depth <= p - v,
            value_close(t@, v as int, 0, Within::Plain) == value_close(
                t@,
                p as int,
                depth as nat,
                mode,
            ),
        decreases t.len() - p,
    {
        let c = t[p];
        let plain = mode == Within::Plain;
        if plain && (c == '}' || c == ']') {
            if depth > 0 {
                depth -= 1;
            }
        } else if plain && (c == '{' || c == '[') {
            depth += 1;
        }
        mode = next_mode(mode, c);
        if depth == 0 && mode == Within::Plain {
            return Some(p);
        }
        p += 1;
    }
    None
}

/// The index at which the declaration with its `=` at `j` ends.
fn declaration_end_of(t: &Vec<char>, j: usize) -> (r: usize)
    requires
        j < t.len(),
    ensures
        r == declaration_end(t@, j as int),
        j <= r < t.len(),
{
    let v = skip_spaces_from(t, j + 1);
    if v < t.len() {
        let c = t[v];
        if c == '"' || c == '\'' || c == '{' || c == '[' {
            match value_close_at(t, v) {
                Some(q) => q,
                None => v,
            }
        } else {
            v
        }
    } else {
        j
    }
}

/// The first declaration of `name` in the form `form`: the start of the
/// name and the bounds of the version.
fn find_form(t: &Vec<char>, name: &Vec<char>, form: DeclarationForm) -> (r: Option<
    (usize, usize, usize),
>)
    ensures
        match r {
            Some(d) => first_declaration(t@, name@, form, 0) == Some(
                Declaration {
                    name_start: d.0 as int,
                    value_start: d.1 as int,
                    value_end: d.2 as int,
                },
            ) && d.0 <= d.1 < d.2 < t.len(),
            None => first_declaration(t@, name@, form, 0) is None,
        },
{
    let mut i: usize = 0;
    let mut indent = true;
    while i < t.len()
        invariant
            i <= t.len(),
            indent == indent_only(t@, i as int),
            first_declaration(t@, name@, form, 0) == first_declaration(t@, name@, form, i as int),
        decreases t.len() - i,
    {
        if indent && has_literal_at(t, i, name) {
            let found = match form {
                DeclarationForm::Detailed => detailed_value_at(t, i + name.len()),
                DeclarationForm::Simple => simple_value_at(t, i + name.len()),
            };
            match found {
                Some(v) => {
                    return Some((i, v.0, v.1));
                },
                None => {},
            }
        }
        indent = t[i] == '\n' || (indent && char_is_space(t[i]));
        i += 1;
    }
    None
}

/// The declaration of `name`, in whichever form it is found first.
fn find_declared(t: &Vec<char>, name: &Vec<char>) -> (r: Option<(usize, usize, usize)>)
    ensures
        match r {
            Some(d) => find_declaration(t@, name@) == Some(
                Declaration {
                    name_start: d.0 as int,
                    value_start: d.1 as int,
                    value_end: d.2 as int,
                },
            ) && d.0 <= d.1 < d.2 < t.len(),
            None => find_declaration(t@, name@) is None,
        },
{
    match find_form(t, name, DeclarationForm::Detailed) {
        Some(d) => Some(d),
        None => find_form(t, name, DeclarationForm::Simple),
    }
}

/// The start of the line that holds index `i`.
fn line_start_of(t: &Vec<char>, i: usize) -> (r: usize)
    requires
        i <= t.len(),
    ensures
        r == line_start(t@, i as int),
        r <= i,
{
    let mut k: usize = i;
    while k > 0 && t[k - 1] != '\n'
        invariant
            k <= i <= t.len(),
            line_start(t@, i as int) == line_start(t@, k as int),
        decreases k,
    {
        k -= 1;
    }
    k
}

/// The end of the line that holds index `i`, past its line feed.
fn line_end_of(t: &Vec<char>, i: usize) -> (r: usize)
    requires
        i <= t.len(),
    ensures
        r == line_end(t@, i as int),
        i <= r <= t.len(),
{
    let e = find_char_from(t, i, '\n');
    if e < t.len() {
        e + 1
    } else {
        t.len()
    }
}

impl UpdateError {
    /// The error as a sentence.
    pub fn message(&self) -> (r: String)
        ensures
            match self {
                UpdateError::DependencyNotFound(name) => r@ == not_found_message(name@),
            },
    {
        match self {
            UpdateError::DependencyNotFound(name) => {
                let mut m = "Could not find dependency ".to_string();
                m.append(name.as_str());
                m.append(" in Cargo.toml");
                m
            },
        }
    }
}

impl DependencyUpdater {
    /// The text that the updater holds.
    pub closed spec fn content(&self) -> Seq<char> {
        self.original_content@
    }

    /// The path of the manifest that the text belongs to.
    pub closed spec fn path(&self) -> Seq<char> {
        self.manifest.path@
    }

    /// An updater for `manifest`, whose file holds `original_content`.
    pub fn new(manifest: Manifest, original_content: String) -> (r: Self)
        ensures
            r.content() == original_content@,
            r.path() == manifest.path@,
    {
        DependencyUpdater { manifest, original_content }
    }

    /// Puts `new_version` in place of the version that `dep` is declared
    /// with. Only the text between the quotes changes. Where the manifest
    /// does not declare `dep`, the text stays as it is and the error says so.
    pub fn update_dependency(&mut self, dep: &Dependency, new_version: &str) -> (r: Result<
        (),
        UpdateError,
    >)
        ensures
            final(self).path() == old(self).path(),
            match with_version(old(self).content(), dep.name@, new_version@) {
                Some(text) => r is Ok && final(self).content() == text,
                None => final(self).content() == old(self).content() && (r matches Err(
                    UpdateError::DependencyNotFound(name),
                ) && name@ == dep.name@),
            },
    {
        let text = chars_of(self.original_content.as_str());
        let name = chars_of(dep.name.as_str());
        match find_declared(&text, &name) {
            Some(d) => {
                let version = chars_of(new_version);
                let mut out: Vec<char> = Vec::new();
                append_range(&mut out, &text, 0, d.1);
                append_range(&mut out, &version, 0, version.len());
                append_range(&mut out, &text, d.2, text.len());
                proof {
                    assert(version@.subrange(0, version.len() as int) == version@);
                    assert(out@ == text@.subrange(0, d.1 as int) + version@ + text@.subrange(
                        d.2 as int,
                        text.len() as int,
                    ));
                }
                self.original_content = string_of(&out);
                Ok(())
            },
            None => Err(UpdateError::DependencyNotFound(dep.name.clone())),
        }
    }

    /// Takes the declaration of `name` out of the text, whatever value it
    /// declares, with the whole of the lines it stands on. Every other line
    /// stays as it is. Where the manifest does not declare `name`, the text
    /// stays as it is and the error says so.
    pub fn remove_dependency(&mut self, name: &str) -> (r: Result<(), UpdateError>)
        ensures
            final(self).path() == old(self).path(),
            match without_declaration(old(self).content(), name@) {
                Some(text) => r is Ok && final(self).content() == text,
                None => final(self).content() == old(self).content() && (r matches Err(
                    UpdateError::DependencyNotFound(n),
                ) && n@ == name@),
            },
    {
        let text = chars_of(self.original_content.as_str());
        let name_chars = chars_of(name);
        match find_assignment(&text, &name_chars) {
            Some(a) => {
                let from = line_start_of(&text, a.0);
                let end = declaration_end_of(&text, a.1);
                let to = line_end_of(&text, end);
                let mut out: Vec<char> = Vec::new();
                append_range(&mut out, &text, 0, from);
                append_range(&mut out, &text, to, text.len());
                proof {
                    assert(out@ == text@.subrange(0, from as int) + text@.subrange(
                        to as int,
                        text.len() as int,
                    ));
                }
                self.original_content = string_of(&out);
                Ok(())
            },
            None => Err(UpdateError::DependencyNotFound(name.to_string())),
        }
    }

    /// The text as it stands, with the edits made so far.
    pub fn get_content(&self) -> (r: &str)
        ensures
            r@ == self.content(),
    {
        self.original_content.as_str()
    }

    /// The path of the manifest.
    pub fn manifest_path(&self) -> (r: &str)
        ensures
            r@ == self.path(),
    {
        self.manifest.path.as_str()
    }

    /// The path at which the manifest is backed up before it is rewritten.
    pub fn backup_path(&self) -> (r: String)
        ensures
            r@ == backup_path_of(self.path()),
    {
        let mut p = self.manifest.path.clone();
        p.append(".backup");
        p
    }

    /// The step that is due in `state`: first the backup of the manifest,
    /// then, once the backup was made, the write of the new text; none
    /// when the save is over.
    pub fn next_save_action(&self, state: SaveState) -> (r: Option<SaveAction>)
        ensures
            match state {
                SaveState::NotStarted => r matches Some(SaveAction::Backup { from, to }) && from@
                    == self.path() && to@ == backup_path_of(self.path()),
                SaveState::BackedUp => r matches Some(SaveAction::Write { path, content })
                    && path@ == self.path() && content@ == self.content(),
                SaveState::Saved => r is None,
                SaveState::Failed => r is None,
            },
    {
        match state {
            SaveState::NotStarted => Some(
                SaveAction::Backup { from: self.manifest.path.clone(), to: self.backup_path() },
            ),
            SaveState::BackedUp => Some(
                SaveAction::Write {
                    path: self.manifest.path.clone(),
                    content: self.original_content.clone(),
                },
            ),
            SaveState::Saved => None,
            SaveState::Failed => None,
        }
    }
}

/// The state that follows `state` when its step has succeeded or failed. A
/// failed backup ends the save before anything is written.
pub fn after_save_action(state: SaveState, succeeded: bool) -> (r: SaveState)
    ensures
        r == save_state_after(state, succeeded),
{
    match state {
        SaveState::NotStarted => if succeeded {
            SaveState::BackedUp
        } else {
            SaveState::Failed
        },
        SaveState::BackedUp => if succeeded {
            SaveState::Saved
        } else {
            SaveState::Failed
        },
        SaveState::Saved => SaveState::Saved,
        SaveState::Failed => SaveState::Failed,
    }
}

/// The state that follows `state` when its step has succeeded or failed.
pub open spec fn save_state_after(state: SaveState, succeeded: bool) -> SaveState {
    match state {
        SaveState::NotStarted => if succeeded {
            SaveState::BackedUp
        } else {
            SaveState::Failed
        },
        SaveState::BackedUp => if succeeded {
            SaveState::Saved
        } else {
            SaveState::Failed
        },
        SaveState::Saved => SaveState::Saved,
        SaveState::Failed => SaveState::Failed,
    }
}

/// The files after the manifest at `path` was copied to its backup.
pub open spec fn store_after_backup(store: FileStore, path: Seq<char>) -> FileStore {
    store.insert(backup_path_of(path), store[path])
}

/// The files after `content` was written to the manifest at `path`.
pub open spec fn store_after_write(store: FileStore, path: Seq<char>, content: Seq<char>)
    -> FileStore {
    store.insert(path, content)
}

/// The files after a save in which both steps succeeded.
pub open spec fn store_after_save(store: FileStore, path: Seq<char>, content: Seq<char>)
    -> FileStore {
    store_after_write(store_after_backup(store, path), path, content)
}

/// After a save the backup holds what the manifest held before, whether or
/// not there was a backup already, the manifest holds the new text, and no
/// other file has changed.
pub proof fn lemma_save_keeps_backup(store: FileStore, path: Seq<char>, content: Seq<char>)
    requires
        store.contains_key(path),
    ensures
        store_after_save(store, path, content)[backup_path_of(path)] == store[path],
        store_after_save(store, path, content)[path] == content,
        forall|other: Seq<char>|
            other != path && other != backup_path_of(path) ==> store_after_save(
                store,
                path,
                content,
            ).contains_key(other) == store.contains_key(other) && store_after_save(
                store,
                path,
                content,
            )[other] == store[other],
{
    reveal_strlit(".backup");
    assert(backup_path_of(path).len() == path.len() + 7);
}

/// The manifest is written only after its backup was made: the state in
/// which the write is due is reached by a backup that succeeded, and by
/// nothing else.
pub proof fn lemma_write_follows_backup(state: SaveState, succeeded: bool)
    ensures
        save_state_after(state, succeeded) == SaveState::BackedUp <==> state
            == SaveState::NotStarted && succeeded,
        state == SaveState::Failed ==> save_state_after(state, succeeded) == SaveState::Failed,
{
}

/// An update changes the text between the quotes of the declaration and
/// nothing else: what stands before and after it stays, character by character.
pub proof fn lemma_update_keeps_rest(t: Seq<char>, name: Seq<char>, new_version: Seq<char>)
    requires
        find_declaration(t, name) is Some,
    ensures
        ({
            let d = find_declaration(t, name).unwrap();
            let u = with_version(t, name, new_version).unwrap();
            &&& declaration_in(t, d)
            &&& t[d.value_start - 1] == '"'
            &&& t[d.value_end] == '"'
            &&& u.len() == t.len() - (d.value_end - d.value_start) + new_version.len()
            &&& u.subrange(0, d.value_start) == t.subrange(0, d.value_start)
            &&& u.subrange(d.value_start, d.value_start + new_version.len()) == new_version
            &&& u.subrange(d.value_start + new_version.len(), u.len() as int) == t.subrange(
                d.value_end,
                t.len() as int,
            )
        }),
{
    let d = find_declaration(t, name).unwrap();
    if first_declaration(t, name, DeclarationForm::Detailed, 0) is Some {
        lemma_first_declaration(t, name, DeclarationForm::Detailed, 0);
    } else {
        lemma_first_declaration(t, name, DeclarationForm::Simple, 0);
    }
    let u = with_version(t, name, new_version).unwrap();
    assert(u.subrange(0, d.value_start) =~= t.subrange(0, d.value_start));
    assert(u.subrange(d.value_start, d.value_start + new_version.len()) =~= new_version);
    assert(u.subrange(d.value_start + new_version.len(), u.len() as int) =~= t.subrange(
        d.value_end,
        t.len() as int,
    ));
}

/// After an update the declaration stands where it stood, in the form it
/// had, and holds the new version. The new version must have a character
/// and no quote, as every version has.
pub proof fn lemma_update_sets_version(
    t: Seq<char>,
    name: Seq<char>,
    form: DeclarationForm,
    i: int,
    new_version: Seq<char>,
)
    requires
        0 <= i <= t.len(),
        declared_at(t, name, form, i) is Some,
        new_version.len() > 0,
        forall|k: int| 0 <= k < new_version.len() ==> new_version[k] != '"',
    ensures
        ({
            let v = declared_at(t, name, form, i).unwrap();
            let u = t.subrange(0, v.0) + new_version + t.subrange(v.1, t.len() as int);
            declared_at(u, name, form, i) == Some((v.0, v.0 + new_version.len()))
        }),
{
    let v = declared_at(t, name, form, i).unwrap();
    let n = v.0;
    lemma_declared_at(t, name, form, i);
    let u = t.subrange(0, n) + new_version + t.subrange(v.1, t.len() as int);
    assert forall|k: int| 0 <= k < n implies u[k] == t[k] by {}
    assert forall|k: int| n <= k < n + new_version.len() implies u[k] != '"' by {
        assert(u[k] == new_version[k - n]);
    }
    assert(u[n + new_version.len()] == t[v.1]);
    lemma_indent_local(t, u, i, n);
    let a = i + name.len();
    assert(has_at(t, i, name));
    let j = skip_spaces(t, a);
    lemma_skip_spaces(t, a);
    let k = skip_spaces(t, j + 1);
    match form {
        DeclarationForm::Simple => {
            assert(simple_value(t, a) == Some(v));
            assert(j < t.len() && t[j] == '=');
            lemma_skip_spaces(t, j + 1);
            assert(quoted_value(t, k) == Some(v));
            assert(n == k + 1);
            assert(u.subrange(i, a) =~= t.subrange(i, a));
            lemma_skip_local(t, u, a, n);
            lemma_skip_local(t, u, j + 1, n);
            lemma_find_char_is(u, k + 1, '"', n + new_version.len());
        },
        DeclarationForm::Detailed => {
            assert(detailed_value(t, a) == Some(v));
            assert(j < t.len() && t[j] == '=');
            lemma_skip_spaces(t, j + 1);
            assert(k < t.len() && t[k] == '{');
            lemma_table_version(t, k + 1, 0, true, Within::Plain);
            assert(u.subrange(i, a) =~= t.subrange(i, a));
            lemma_skip_local(t, u, a, n);
            lemma_skip_local(t, u, j + 1, n);
            let w = new_version.len() as int;
            lemma_table_local(t, u, k + 1, 0, true, Within::Plain, n, v.1, w);
        },
    }
}

/// The version entry at `p`, which stands before the version whose text
/// was replaced, reads in the new text as it read in the old, with the new
/// bounds where it holds that version.
proof fn lemma_entry_local(t: Seq<char>, u: Seq<char>, p: int, n: int, e: int, w: int)
    requires
        0 <= p,
        p + version_key().len() + 2 <= n,
        0 < n < e < t.len(),
        w > 0,
        n + w < u.len(),
        t[n - 1] == '"',
        t[e] == '"',
        forall|k: int| n <= k < e ==> #[trigger] t[k] != '"',
        forall|k: int| 0 <= k < n ==> u[k] == t[k],
        forall|k: int| n <= k < n + w ==> #[trigger] u[k] != '"',
        u[n + w] == '"',
    ensures
        version_entry(t, p) == Some((n, e)) ==> version_entry(u, p) == Some((n, n + w)),
        version_entry(t, p) is None ==> version_entry(u, p) is None,
{
    let key = version_key();
    let a = p + key.len();
    assert(u.subrange(p, a) =~= t.subrange(p, a));
    if has_at(t, p, key) {
        let m = skip_spaces(t, a);
        lemma_skip_spaces(t, a);
        assert(m <= n - 1) by {
            if m > n - 1 {
                assert(is_space(t[n - 1]));
            }
        }
        lemma_skip_local(t, u, a, n);
        if t[m] == '=' {
            let q = skip_spaces(t, m + 1);
            lemma_skip_spaces(t, m + 1);
            assert(q <= n - 1) by {
                if q > n - 1 {
                    assert(is_space(t[n - 1]));
                }
            }
            lemma_skip_local(t, u, m + 1, n);
            if t[q] == '"' {
                if q == n - 1 {
                    lemma_find_char_is(t, n, '"', e);
                    lemma_find_char_is(u, n, '"', n + w);
                } else {
                    let c = find_char(t, q + 1, '"');
                    lemma_find_char(t, q + 1, '"');
                    assert(c <= n - 1) by {
                        if c > n - 1 {
                            assert(t[n - 1] != '"');
                        }
                    }
                    assert forall|k: int| q + 1 <= k < c implies #[trigger] u[k] != '"' by {
                        assert(t[k] != '"');
                    }
                    lemma_find_char_is(u, q + 1, '"', c);
                }
            }
        }
    }
}

/// A table whose version was replaced holds the new version where it
/// held the old.
proof fn lemma_table_local(
    t: Seq<char>,
    u: Seq<char>,
    p: int,
    depth: nat,
    at_key: bool,
    mode: Within,
    n: int,
    e: int,
    w: int,
)
    requires
        0 <= p,
        table_version(t, p, depth, at_key, mode) == Some((n, e)),
        0 < n < e < t.len(),
        w > 0,
        n + w < u.len(),
        t[n - 1] == '"',
        t[e] == '"',
        forall|k: int| n <= k < e ==> #[trigger] t[k] != '"',
        forall|k: int| 0 <= k < n ==> u[k] == t[k],
        forall|k: int| n <= k < n + w ==> #[trigger] u[k] != '"',
        u[n + w] == '"',
    ensures
        table_version(u, p, depth, at_key, mode) == Some((n, n + w)),
    decreases t.len() - p,
{
    lemma_table_version(t, p, depth, at_key, mode);
    assert(u[p] == t[p]);
    lemma_entry_local(t, u, p, n, e, w);
    if mode == Within::Plain && depth == 0 && at_key && version_entry(t, p) is Some {
    } else {
        lemma_table_local(
            t,
            u,
            p + 1,
            depth_after(depth, mode, t[p]),
            key_after(depth, at_key, mode, t[p]),
            step_mode(mode, t[p]),
            n,
            e,
            w,
        );
    }
}

/// Texts that agree before `n` have the same indentation before any index up to `n`.
proof fn lemma_indent_local(t: Seq<char>, u: Seq<char>, i: int, n: int)
    requires
        0 <= i <= n <= t.len(),
        n <= u.len(),
        forall|k: int| 0 <= k < n ==> u[k] == t[k],
    ensures
        indent_only(u, i) == indent_only(t, i),
    decreases i,
{
    if i > 0 {
        lemma_indent_local(t, u, i - 1, n);
    }
}

/// In texts that agree before `n`, white space that ends before `n` in
/// the one ends at the same index in the other.
proof fn lemma_skip_local(t: Seq<char>, u: Seq<char>, a: int, n: int)
    requires
        0 <= a <= t.len(),
        0 <= n <= t.len(),
        n <= u.len(),
        skip_spaces(t, a) < n,
        forall|k: int| 0 <= k < n ==> u[k] == t[k],
    ensures
        skip_spaces(u, a) == skip_spaces(t, a),
{
    lemma_skip_spaces(t, a);
    let r = skip_spaces(t, a);
    assert forall|k: int| a <= k < r implies is_space(#[trigger] u[k]) by {
        assert(is_space(t[k]));
    }
    lemma_skip_spaces_is(u, a, r);
}

/// Putting in the version that is declared already leaves the text as it is.
pub proof fn lemma_update_same_version(t: Seq<char>, name: Seq<char>)
    requires
        find_declaration(t, name) is Some,
    ensures
        ({
            let d = find_declaration(t, name).unwrap();
            with_version(t, name, t.subrange(d.value_start, d.value_end)) == Some(t)
        }),
{
    let d = find_declaration(t, name).unwrap();
    lemma_update_keeps_rest(t, name, t.subrange(d.value_start, d.value_end));
    let u = with_version(t, name, t.subrange(d.value_start, d.value_end)).unwrap();
    assert(u =~= t);
}

/// A removal takes out whole lines, those of the declaration among them,
/// and keeps what stands before and after them.
pub proof fn lemma_removal_whole_lines(t: Seq<char>, name: Seq<char>)
    requires
        first_assignment(t, name, 0) is Some,
    ensures
        ({
            let a = first_assignment(t, name, 0).unwrap();
            let end = declaration_end(t, a.1);
            let from = line_start(t, a.0);
            let to = line_end(t, end);
            let u = without_declaration(t, name).unwrap();
            &&& 0 <= from <= a.0 <= a.1 <= end < to <= t.len()
            &&& (from == 0 || t[from - 1] == '\n')
            &&& (to == t.len() || t[to - 1] == '\n')
            &&& u.len() == t.len() - (to - from)
            &&& u.subrange(0, from) == t.subrange(0, from)
            &&& u.subrange(from, u.len() as int) == t.subrange(to, t.len() as int)
        }),
{
    let a = first_assignment(t, name, 0).unwrap();
    lemma_first_assignment(t, name, 0);
    lemma_declaration_end(t, a.1);
    let end = declaration_end(t, a.1);
    lemma_line_start(t, a.0);
    lemma_find_char(t, end, '\n');
    let from = line_start(t, a.0);
    let to = line_end(t, end);
    let u = without_declaration(t, name).unwrap();
    assert(u.subrange(0, from) =~= t.subrange(0, from));
    assert(u.subrange(from, u.len() as int) =~= t.subrange(to, t.len() as int));
}

/// An assignment that is found lies within the text, the `=` after the name.
proof fn lemma_first_assignment(t: Seq<char>, name: Seq<char>, from: int)
    requires
        0 <= from,
    ensures
        first_assignment(t, name, from) matches Some(a) ==> from <= a.0 <= a.1 < t.len()
            && t[a.1] == '=',
    decreases t.len() - from,
{
    if from < t.len() {
        if has_at(t, from, name) {
            lemma_skip_spaces(t, from + name.len());
        }
        if assignment_at(t, name, from) is None {
            lemma_first_assignment(t, name, from + 1);
        }
    }
}

/// A value is closed at or after the index from which it is read.
proof fn lemma_value_close(t: Seq<char>, p: int, depth: nat, mode: Within)
    requires
        0 <= p,
    ensures
        value_close(t, p, depth, mode) matches Some(q) ==> p <= q < t.len(),
    decreases t.len() - p,
{
    if p < t.len() {
        lemma_value_close(t, p + 1, depth_after(depth, mode, t[p]), step_mode(mode, t[p]));
    }
}

/// A declaration ends within the text, at or after its `=`.
proof fn lemma_declaration_end(t: Seq<char>, j: int)
    requires
        0 <= j < t.len(),
    ensures
        j <= declaration_end(t, j) < t.len(),
{
    lemma_skip_spaces(t, j + 1);
    lemma_value_close(t, skip_spaces(t, j + 1), 0, Within::Plain);
}

/// A version entry that is read stands after its key and `=`, between two
/// quotes, and holds no quote.
proof fn lemma_version_entry(t: Seq<char>, p: int)
    ensures
        version_entry(t, p) matches Some(v) ==> 0 <= p && p + version_key().len() + 2 <= v.0
            < v.1 < t.len() && t[v.0 - 1] == '"' && t[v.1] == '"' && forall|k: int|
            v.0 <= k < v.1 ==> #[trigger] t[k] != '"',
{
    if has_at(t, p, version_key()) {
        let a = p + version_key().len();
        let m = skip_spaces(t, a);
        lemma_skip_spaces(t, a);
        if m < t.len() {
            let q = skip_spaces(t, m + 1);
            lemma_skip_spaces(t, m + 1);
            lemma_quoted_value(t, q);
        }
    }
}

/// The version that a table holds stands after the index from which the
/// table is read, between two quotes, and holds no quote.
proof fn lemma_table_version(t: Seq<char>, p: int, depth: nat, at_key: bool, mode: Within)
    requires
        0 <= p,
    ensures
        table_version(t, p, depth, at_key, mode) matches Some(v) ==> p + version_key().len() + 2
            <= v.0 < v.1 < t.len() && t[v.0 - 1] == '"' && t[v.1] == '"' && forall|k: int|
            v.0 <= k < v.1 ==> #[trigger] t[k] != '"',
    decreases t.len() - p,
{
    if p < t.len() {
        lemma_version_entry(t, p);
        lemma_table_version(
            t,
            p + 1,
            depth_after(depth, mode, t[p]),
            key_after(depth, at_key, mode, t[p]),
            step_mode(mode, t[p]),
        );
    }
}

/// A line starts at the start of the text or after a line feed.
proof fn lemma_line_start(t: Seq<char>, i: int)
    requires
        0 <= i <= t.len(),
    ensures
        0 <= line_start(t, i) <= i,
        line_start(t, i) == 0 || t[line_start(t, i) - 1] == '\n',
    decreases i,
{
    if i > 0 && t[i - 1] != '\n' {
        lemma_line_start(t, i - 1);
    }
}

/// A version that is declared stands between two quotes, after the name.
proof fn lemma_declared_at(t: Seq<char>, name: Seq<char>, form: DeclarationForm, i: int)
    requires
        0 <= i <= t.len(),
    ensures
        declared_at(t, name, form, i) matches Some(v) ==> i <= v.0 - 1 && v.0 < v.1 < t.len()
            && t[v.0 - 1] == '"' && t[v.1] == '"' && forall|k: int|
            v.0 <= k < v.1 ==> #[trigger] t[k] != '"',
{
    if has_at(t, i, name) {
        let a = i + name.len();
        let j = skip_spaces(t, a);
        lemma_skip_spaces(t, a);
        if j < t.len() {
            let k = skip_spaces(t, j + 1);
            lemma_skip_spaces(t, j + 1);
            lemma_quoted_value(t, k);
            if k < t.len() {
                lemma_table_version(t, k + 1, 0, true, Within::Plain);
            }
        }
    }
}

/// A declaration that is found lies within the text, its version between two quotes.
proof fn lemma_first_declaration(t: Seq<char>, name: Seq<char>, form: DeclarationForm, from: int)
    requires
        0 <= from,
    ensures
        first_declaration(t, name, form, from) matches Some(d) ==> from <= d.name_start
            && declaration_in(t, d) && t[d.value_start - 1] == '"' && t[d.value_end] == '"',
    decreases t.len() - from,
{
    if from < t.len() {
        lemma_declared_at(t, name, form, from);
        if declared_at(t, name, form, from) is None {
            lemma_first_declaration(t, name, form, from + 1);
        }
    }
}

/// A quoted value lies between two quotes and holds none.
proof fn lemma_quoted_value(t: Seq<char>, k: int)
    ensures
        quoted_value(t, k) matches Some(v) ==> k < v.0 < v.1 < t.len() && t[v.1] == '"' && t[v.0
            - 1] == '"' && forall|j: int| v.0 <= j < v.1 ==> #[trigger] t[j] != '"',
{
    if 0 <= k < t.len() {
        lemma_find_char(t, k + 1, '"');
    }
}

} // verus!
