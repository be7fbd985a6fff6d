use std::cmp::Ordering;
use vstd::prelude::*;

use crate::error::{unexpected, unexpected_message, Error};
use crate::json::{obj_find, obj_find_from, JsonValue};
use crate::text::{
    chars_eq, contains_char, str_eq, concat_chars, replace_char, replace_chars, string_of, find_char, first_index_of, lemma_first_index_of, lemma_utf8_len_bounds, char_utf8_width,
    lemma_utf8_len_split, slice_chars, chars_of, ends_with, first_is, last_is, starts_with2, lemma_next_index_from, next_index_from, seq_ends_with, seq_starts_with,
    starts_with, utf8_len, utf8_len_of,
};

verus! {

/// The `imports` field of `package.json`.
pub struct ImportsField;

/// The `exports` field of `package.json`.
pub struct ExportsField;

/// Which of the two fields is being mapped.
#[derive(Clone, Copy, PartialEq, Eq, Structural)]
pub enum FieldKind {
    Exports,
    Imports,
}

/// `Err(m)` of a library result holds the message `m`.
pub open spec fn result_matches<T>(r: Result<T, Error>, s: Result<(), Seq<char>>) -> bool {
    match (r, s) {
        (Ok(_), Ok(_)) => true,
        (Err(e), Err(m)) => unexpected_message(e) == Some(m),
        _ => false,
    }
}

// ---------------------------------------------------------------- targets

/// For each index of `path`, the next index at or after it that holds `target`.
pub fn get_next_list(path: &[char], target: char) -> (r: Vec<Option<usize>>)
    ensures
        r@.len() == path@.len(),
        forall|i: int|
            0 <= i < path@.len() ==> match (#[trigger] r@[i], next_index_from(path@, target, i)) {
                (Some(a), Some(b)) => a == b,
                (None, None) => true,
                _ => false,
            },
{
    let len = path.len();
    let mut last_index: Option<usize> = None;
    let mut index_list: Vec<Option<usize>> = Vec::new();
    let mut k: usize = 0;
    while k < len
        invariant
            k <= len == path@.len(),
            index_list@.len() == k,
        decreases len - k,
    {
        index_list.push(None);
        k = k + 1;
    }
    let mut i = len;
    while i > 0
        invariant
            i <= len == path@.len(),
            index_list@.len() == len,
            match last_index {
                Some(a) => next_index_from(path@, target, i as int) == Some(a as int),
                None => next_index_from(path@, target, i as int) is None,
            },
            forall|j: int|
                i <= j < len ==> match (#[trigger] index_list@[j], next_index_from(path@, target, j)) {
                    (Some(a), Some(b)) => a == b,
                    (None, None) => true,
                    _ => false,
                },
        decreases i,
    {
        i = i - 1;
        if path[i] == target {
            last_index = Some(i);
        }
        index_list.set(i, last_index);
    }
    index_list
}

/// How many directories `check_target` has entered after the segments from `last` on.
pub open spec fn check_walk(s: Seq<char>, last: int, cd: int) -> bool
    decreases s.len() - last,
{
    if last < 0 || last >= s.len() {
        true
    } else {
        match next_index_from(s, '/', last) {
            None => true,
            Some(j) => {
                let cd2 = if s[last] == '.' && last + 1 < s.len() && s[last + 1] == '.' {
                    cd - 1
                } else if s[last] == '.' {
                    cd
                } else {
                    cd + 1
                };
                if cd2 < 0 {
                    false
                } else if j < last || j >= s.len() {
                    true
                } else {
                    check_walk(s, j + 1, cd2)
                }
            },
        }
    }
}

pub open spec fn msg_out_of_scope(path: Seq<char>) -> Seq<char> {
    "Trying to access out of package scope. Requesting "@ + path
}

/// `check_target`: `Err` when a `..` segment leaves the package.
pub open spec fn spec_check_target(s: Seq<char>) -> Result<(), Seq<char>> {
    if check_walk(s, 0, 0) {
        Ok(())
    } else {
        Err(msg_out_of_scope(s))
    }
}

/// Checks that a mapped target stays inside its package (`Field::check_target`).
pub fn check_target(relative_path: &str) -> (r: Result<(), String>)
    ensures
        match (r, spec_check_target(relative_path@)) {
            (Ok(_), Ok(_)) => true,
            (Err(m), Err(sm)) => m@ == sm,
            _ => false,
        },
{
    let chars = chars_of(relative_path);
    let slash_index_list = get_next_list(&chars, '/');
    let mut last_non_slash_index: usize = 0;
    let mut cd: i128 = 0;
    while last_non_slash_index < slash_index_list.len()
        invariant
            slash_index_list@.len() == chars@.len(),
            chars@ == relative_path@,
            forall|i: int|
                0 <= i < chars@.len() ==> match (#[trigger] slash_index_list@[i], next_index_from(chars@, '/', i)) {
                    (Some(a), Some(b)) => a == b,
                    (None, None) => true,
                    _ => false,
                },
            0 <= cd <= last_non_slash_index,
            check_walk(chars@, 0, 0) == check_walk(chars@, last_non_slash_index as int, cd as int),
        ensures
            check_walk(chars@, 0, 0),
        decreases chars@.len() - last_non_slash_index,
    {
        let slash_index = match slash_index_list[last_non_slash_index] {
            Some(j) => j,
            None => break,
        };
        proof {
            lemma_next_index_from(chars@, '/', last_non_slash_index as int);
        }
        if chars[last_non_slash_index] == '.' && chars[last_non_slash_index + 1] == '.' {
            cd = cd - 1;
            if cd < 0 {
                let mut m = String::from_str("Trying to access out of package scope. Requesting ");
                m.append(relative_path);
                return Err(m);
            }
        } else if chars[last_non_slash_index] == '.' {
        } else {
            cd = cd + 1;
        }
        last_non_slash_index = slash_index + 1;
    }
    Ok(())
}

// ---------------------------------------------------------------- requests and targets

pub open spec fn msg_export_request(request: Seq<char>) -> Seq<char> {
    "Request should be relative path and start with '.', but got "@ + request
}

pub open spec fn msg_export_target(exp: Seq<char>) -> Seq<char> {
    "Export should be relative path and start with \"./\", but got "@ + exp
}

pub open spec fn msg_folder(exp: Seq<char>) -> Seq<char> {
    "Expected "@ + exp + " is folder mapping"@
}

pub open spec fn msg_file(exp: Seq<char>) -> Seq<char> {
    "Expected "@ + exp + " is file mapping"@
}

pub open spec fn msg_import_request_hash(request: Seq<char>) -> Seq<char> {
    "Request should start with #, but got "@ + request
}

pub open spec fn msg_import_request_short() -> Seq<char> {
    "Request should have at least 2 characters"@
}

pub open spec fn msg_import_hash_slash(key: Seq<char>) -> Seq<char> {
    "Import field key should not start with #/, but got "@ + key
}

pub open spec fn msg_import_request_folder() -> Seq<char> {
    "Only requesting file allowed"@
}

/// `assert_request` of the two fields.
pub open spec fn spec_assert_request(kind: FieldKind, r: Seq<char>) -> Result<(), Seq<char>> {
    match kind {
        FieldKind::Exports => {
            if !seq_starts_with(r, seq!['.']) {
                Err(msg_export_request(r))
            } else if r.len() == 1 {
                Ok(())
            } else if !seq_starts_with(r, seq!['.', '/']) {
                Err(msg_export_request(r))
            } else {
                Ok(())
            }
        },
        FieldKind::Imports => {
            if !seq_starts_with(r, seq!['#']) {
                Err(msg_import_request_hash(r))
            } else if r.len() == 1 {
                Err(msg_import_request_short())
            } else if seq_starts_with(r, seq!['#', '/']) {
                Err(msg_import_hash_slash(r))
            } else if seq_ends_with(r, seq!['/']) {
                Err(msg_import_request_folder())
            } else {
                Ok(())
            }
        },
    }
}

/// `assert_target` of the two fields.
pub open spec fn spec_assert_target(kind: FieldKind, exp: Seq<char>, expect_folder: bool) -> Result<
    (),
    Seq<char>,
> {
    if kind == FieldKind::Exports && (utf8_len(exp) < 2 || seq_starts_with(exp, seq!['/']) || (
    seq_starts_with(exp, seq!['.']) && !seq_starts_with(exp, seq!['.', '/']))) {
        Err(msg_export_target(exp))
    } else if seq_ends_with(exp, seq!['/']) != expect_folder {
        if expect_folder {
            Err(msg_folder(exp))
        } else {
            Err(msg_file(exp))
        }
    } else {
        Ok(())
    }
}

fn folder_error(exp: &str, expect_folder: bool) -> (e: Error)
    ensures
        unexpected_message(e) == Some(
            if expect_folder {
                msg_folder(exp@)
            } else {
                msg_file(exp@)
            },
        ),
{
    let mut m = String::from_str("Expected ");
    m.append(exp);
    if expect_folder {
        m.append(" is folder mapping");
    } else {
        m.append(" is file mapping");
    }
    Error::UnexpectedValue(m)
}

pub fn assert_request(kind: FieldKind, request: &str) -> (r: Result<String, Error>)
    ensures
        result_matches(r, spec_assert_request(kind, request@)),
        r matches Ok(s) ==> s@ == request@,
{
    let c = chars_of(request);
    match kind {
        FieldKind::Exports => {
            if !first_is(&c, '.') {
                Err(unexpected("Request should be relative path and start with '.', but got ", request))
            } else if c.len() == 1 {
                Ok(request.to_owned())
            } else if !starts_with2(&c, '.', '/') {
                Err(unexpected("Request should be relative path and start with '.', but got ", request))
            } else {
                Ok(request.to_owned())
            }
        },
        FieldKind::Imports => {
            if !first_is(&c, '#') {
                Err(unexpected("Request should start with #, but got ", request))
            } else if c.len() == 1 {
                Err(Error::UnexpectedValue(String::from_str("Request should have at least 2 characters")))
            } else if starts_with2(&c, '#', '/') {
                Err(unexpected("Import field key should not start with #/, but got ", request))
            } else if last_is(&c, '/') {
                Err(Error::UnexpectedValue(String::from_str("Only requesting file allowed")))
            } else {
                Ok(request.to_owned())
            }
        },
    }
}

pub fn assert_target(kind: FieldKind, exp: &str, expect_folder: bool) -> (r: Result<(), Error>)
    ensures
        result_matches(r, spec_assert_target(kind, exp@, expect_folder)),
{
    let c = chars_of(exp);
    if kind == FieldKind::Exports {
        let bytes = utf8_len_of(&c);
        if bytes < 2 || first_is(&c, '/') || (first_is(&c, '.') && !starts_with2(&c, '.', '/')) {
            return Err(
                unexpected("Export should be relative path and start with \"./\", but got ", exp),
            );
        }
    }
    if last_is(&c, '/') != expect_folder {
        Err(folder_error(exp, expect_folder))
    } else {
        Ok(())
    }
}


// ---------------------------------------------------------------- best match among keys

/// Bytes of a key up to and including its first `*`, or all of it.
pub open spec fn base_len(a: Seq<char>) -> nat {
    match first_index_of(a, '*') {
        Some(i) => utf8_len(a.subrange(0, i)) + 1,
        None => utf8_len(a),
    }
}

/// `pattern_key_compare`: `Greater` when `b` is the more specific key.
pub open spec fn key_order(a: Seq<char>, b: Seq<char>) -> Ordering {
    if base_len(a) > base_len(b) {
        Ordering::Less
    } else if base_len(b) > base_len(a) || first_index_of(a, '*') is None {
        Ordering::Greater
    } else if first_index_of(b, '*') is None || utf8_len(a) > utf8_len(b) {
        Ordering::Less
    } else if utf8_len(b) > utf8_len(a) {
        Ordering::Greater
    } else {
        Ordering::Equal
    }
}

fn base_len_of(a: &[char]) -> (r: u128)
    ensures
        r == base_len(a@),
{
    proof {
        lemma_first_index_of(a@, '*');
    }
    match find_char(a, '*') {
        Some(i) => {
            let prefix = slice_chars(a, 0, i);
            let n = utf8_len_of(&prefix);
            proof {
                lemma_utf8_len_bounds(prefix@);
            }
            n + 1
        },
        None => utf8_len_of(a),
    }
}

/// Orders two keys of an `exports`/`imports` object by how specific they are.
pub fn pattern_key_compare(a: &[char], b: &[char]) -> (r: Ordering)
    ensures
        r == key_order(a@, b@),
{
    let a_pattern_index = find_char(a, '*');
    let b_pattern_index = find_char(b, '*');
    let base_len_a = base_len_of(a);
    let base_len_b = base_len_of(b);
    let len_a = utf8_len_of(a);
    let len_b = utf8_len_of(b);
    if base_len_a > base_len_b {
        Ordering::Less
    } else if base_len_b > base_len_a || a_pattern_index.is_none() {
        Ordering::Greater
    } else if b_pattern_index.is_none() || len_a > len_b {
        Ordering::Less
    } else if len_b > len_a {
        Ordering::Greater
    } else {
        Ordering::Equal
    }
}

/// `key` is more specific than `best`.
pub open spec fn more_specific(best: Seq<char>, key: Seq<char>) -> bool {
    key_order(best, key) == Ordering::Greater
}

fn key_is_better(best: &[char], key: &[char]) -> (r: bool)
    ensures
        r == more_specific(best@, key@),
{
    match pattern_key_compare(best, key) {
        Ordering::Greater => true,
        _ => false,
    }
}

/// The remaining request when `key` covers `request`, ignoring other keys.
pub open spec fn candidate(key: Seq<char>, request: Seq<char>) -> Option<Seq<char>> {
    match first_index_of(key, '*') {
        Some(pi) => {
            let sliced = key.subrange(0, pi);
            let trailer = key.subrange(pi + 1, key.len() as int);
            if seq_starts_with(request, sliced) && utf8_len(request) >= utf8_len(key)
                && seq_ends_with(request, trailer) && !trailer.contains('*') {
                Some(request.subrange(pi, request.len() - trailer.len()))
            } else {
                None
            }
        },
        None => {
            if seq_ends_with(key, seq!['/']) && seq_starts_with(request, key) {
                Some(request.subrange(key.len() as int, request.len() as int))
            } else {
                None
            }
        },
    }
}

proof fn lemma_pattern_bounds(key: Seq<char>, request: Seq<char>, pi: int)
    requires
        0 <= pi < key.len(),
        key[pi] == '*',
        seq_starts_with(request, key.subrange(0, pi)),
        seq_ends_with(request, key.subrange(pi + 1, key.len() as int)),
        utf8_len(request) >= utf8_len(key),
    ensures
        pi <= request.len() - (key.len() - pi - 1),
{
    let sliced = key.subrange(0, pi);
    let trailer = key.subrange(pi + 1, key.len() as int);
    let t = trailer.len() as int;
    let r = request.len() as int;
    lemma_utf8_len_split(key, pi);
    lemma_utf8_len_split(key.subrange(pi, key.len() as int), 1);
    assert(key.subrange(pi, key.len() as int).subrange(0, 1) =~= seq!['*']);
    assert(key.subrange(pi, key.len() as int).subrange(1, key.len() - pi) =~= trailer);
    assert(utf8_len(seq!['*']) == 1) by {
        assert(seq!['*'].drop_last() =~= Seq::<char>::empty());
        assert(seq!['*'].last() == '*');
        assert(('*' as u32) == 42);
        assert(char_utf8_width('*') == 1);
        assert(utf8_len(Seq::<char>::empty()) == 0);
    }
    if r - t < pi {
        lemma_utf8_len_split(request, pi);
        let tail = request.subrange(pi, r);
        let k = t - (r - pi);
        assert(tail =~= trailer.subrange(k, t)) by {
            assert forall|j: int| 0 <= j < tail.len() implies tail[j] == trailer.subrange(k, t)[j] by {
                assert(request.subrange(r - t, r)[pi + j - (r - t)] == request[pi + j]);
            }
        }
        lemma_utf8_len_split(trailer, k);
        assert(request.subrange(0, pi) =~= sliced);
    }
}

fn key_candidate(key: &[char], request: &[char]) -> (r: Option<Vec<char>>)
    ensures
        match (r, candidate(key@, request@)) {
            (Some(a), Some(b)) => a@ == b,
            (None, None) => true,
            _ => false,
        },
{
    proof {
        lemma_first_index_of(key@, '*');
    }
    match find_char(key, '*') {
        Some(pattern_index) => {
            let klen = key.len();
            assert(pattern_index < klen);
            let sliced = slice_chars(key, 0, pattern_index);
            if starts_with(request, &sliced) {
                let pattern_trailer = slice_chars(key, pattern_index + 1, key.len());
                if utf8_len_of(request) >= utf8_len_of(key) && ends_with(request, &pattern_trailer)
                    && !contains_char(&pattern_trailer, '*') {
                    proof {
                        lemma_pattern_bounds(key@, request@, pattern_index as int);
                    }
                    return Some(
                        slice_chars(request, pattern_index, request.len() - pattern_trailer.len()),
                    );
                }
            }
            None
        },
        None => {
            if last_is(key, '/') && starts_with(request, key) {
                Some(slice_chars(request, key.len(), request.len()))
            } else {
                None
            }
        },
    }
}

/// The most specific key among the first `n` members that covers `request`:
/// its text, its index and the remaining request.
pub open spec fn best_after(entries: Seq<(String, JsonValue)>, request: Seq<char>, n: int) -> (
    Seq<char>,
    int,
    Option<Seq<char>>,
)
    decreases n,
{
    if n <= 0 || n > entries.len() {
        (Seq::empty(), -1, None)
    } else {
        let (bk, bi, bs) = best_after(entries, request, n - 1);
        let key = entries[n - 1].0@;
        match candidate(key, request) {
            Some(sub) => if more_specific(bk, key) {
                (key, n - 1, Some(sub))
            } else {
                (bk, bi, bs)
            },
            None => (bk, bi, bs),
        }
    }
}

proof fn lemma_best_after(entries: Seq<(String, JsonValue)>, request: Seq<char>, n: int)
    requires
        0 <= n <= entries.len(),
    ensures
        best_after(entries, request, n).2 is Some ==> 0 <= best_after(entries, request, n).1 < n
            && best_after(entries, request, n).0 == entries[best_after(entries, request, n).1].0@,
    decreases n,
{
    if n > 0 {
        lemma_best_after(entries, request, n - 1);
    }
}

/// `find_normalized_match_in_object`: the mapping value for `request`, the
/// remaining request, whether the key is a folder mapping and whether it is a pattern.
pub open spec fn spec_find_normalized(entries: Seq<(String, JsonValue)>, request: Seq<char>) -> Option<
    (JsonValue, Seq<char>, bool, bool),
> {
    if !request.contains('*') && !seq_ends_with(request, seq!['/']) && obj_find(
        entries,
        request,
    ) is Some {
        Some((entries[obj_find(entries, request)->0].1, Seq::empty(), false, false))
    } else {
        let (bk, bi, bs) = best_after(entries, request, entries.len() as int);
        match bs {
            Some(sub) => Some(
                (entries[bi].1, sub, seq_ends_with(bk, seq!['/']), bk.contains('*')),
            ),
            None => None,
        }
    }
}

/// The view of a match found in an object.
pub open spec fn match_view(r: Option<(&JsonValue, Vec<char>, bool, bool)>) -> Option<
    (JsonValue, Seq<char>, bool, bool),
> {
    match r {
        Some((v, s, a, b)) => Some((*v, s@, a, b)),
        None => None,
    }
}

fn obj_index_chars(entries: &Vec<(String, JsonValue)>, key: &[char]) -> (r: Option<usize>)
    ensures
        r matches Some(k) ==> obj_find(entries@, key@) == Some(k as int) && k < entries@.len(),
        r is None ==> obj_find(entries@, key@) is None,
{
    let mut i: usize = 0;
    while i < entries.len()
        invariant
            i <= entries@.len(),
            obj_find(entries@, key@) == obj_find_from(entries@, key@, i as int),
        decreases entries@.len() - i,
    {
        let k = chars_of(entries[i].0.as_str());
        if chars_eq(&k, key) {
            return Some(i);
        }
        i = i + 1;
    }
    None
}

pub fn find_normalized_match_in_object<'a>(
    field: &'a Vec<(String, JsonValue)>,
    request: &[char],
) -> (r: Option<(&'a JsonValue, Vec<char>, bool, bool)>)
    requires
        request@.len() > 0,
    ensures
        match_view(r) == spec_find_normalized(field@, request@),
{
    if !contains_char(request, '*') && !last_is(request, '/') {
        if let Some(k) = obj_index_chars(field, request) {
            return Some((&field[k].1, Vec::new(), false, false));
        }
    }
    let mut best_match: Vec<char> = Vec::new();
    let mut best_index: usize = 0;
    let mut best_match_subpath: Option<Vec<char>> = None;
    let ghost start: (Seq<char>, int, Option<Seq<char>>) = (Seq::empty(), -1, None);
    let mut i: usize = 0;
    while i < field.len()
        invariant
            i <= field@.len(),
            ({
                let (bk, bi, bs) = best_after(field@, request@, i as int);
                &&& bk == best_match@
                &&& match (best_match_subpath, bs) {
                    (Some(a), Some(b)) => a@ == b && bi == best_index && best_index < i,
                    (None, None) => true,
                    _ => false,
                }
            }),
        decreases field@.len() - i,
    {
        let key = chars_of(field[i].0.as_str());
        match key_candidate(&key, request) {
            Some(sub) => {
                if key_is_better(&best_match, &key) {
                    best_match = key;
                    best_index = i;
                    best_match_subpath = Some(sub);
                }
            },
            None => {},
        }
        i = i + 1;
    }
    match best_match_subpath {
        Some(subpath) => {
            let is_subpath_mapping = last_is(&best_match, '/');
            let is_pattern = contains_char(&best_match, '*');
            Some((&field[best_index].1, subpath, is_subpath_mapping, is_pattern))
        },
        None => None,
    }
}


// ---------------------------------------------------------------- conditions

/// The outcome of looking up conditions in a conditional mapping.
pub enum CondOutcome {
    Failed(Seq<char>),
    Found(JsonValue),
    Missing,
}

pub open spec fn msg_default_not_last() -> Seq<char> {
    "Default condition should be last one"@
}

/// The condition names as a sequence of texts.
pub open spec fn names_view(names: Seq<String>) -> Seq<Seq<char>> {
    names.map_values(|s: String| s@)
}

/// `conditional_mapping` from member `i` on: the first member, in order, whose key
/// is `default` (when last) or one of `names`; an object found there is searched in
/// turn, and the search goes on after it when nothing matches inside.
pub open spec fn spec_conditional(
    entries: Seq<(String, JsonValue)>,
    i: int,
    names: Seq<Seq<char>>,
) -> CondOutcome
    decreases entries, entries.len() - i,
{
    if i < 0 || i >= entries.len() {
        CondOutcome::Missing
    } else {
        let key = entries[i].0@;
        let value = entries[i].1;
        if key == "default"@ && i != entries.len() - 1 {
            CondOutcome::Failed(msg_default_not_last())
        } else if key == "default"@ || names.contains(key) {
            match value {
                JsonValue::Object(inner) => {
                    proof {
                        vstd::std_specs::vec::axiom_vec_decreases_to_view(inner);
                        assert(decreases_to!(entries => inner@));
                    }
                    match spec_conditional(inner@, 0, names) {
                        CondOutcome::Missing => spec_conditional(entries, i + 1, names),
                        r => r,
                    }
                },
                _ => CondOutcome::Found(value),
            }
        } else {
            spec_conditional(entries, i + 1, names)
        }
    }
}

pub proof fn lemma_found_is_inside(entries: Seq<(String, JsonValue)>, i: int, names: Seq<Seq<char>>)
    ensures
        spec_conditional(entries, i, names) matches CondOutcome::Found(v) ==> decreases_to!(
            entries => v),
    decreases entries, entries.len() - i,
{
    if 0 <= i < entries.len() {
        let key = entries[i].0@;
        let value = entries[i].1;
        if key == "default"@ && i != entries.len() - 1 {
        } else if key == "default"@ || names.contains(key) {
            match value {
                JsonValue::Object(inner) => {
                    vstd::std_specs::vec::axiom_vec_decreases_to_view(inner);
                    assert(decreases_to!(entries => inner@));
                    lemma_found_is_inside(inner@, 0, names);
                    lemma_found_is_inside(entries, i + 1, names);
                },
                _ => {
                    assert(decreases_to!(entries => entries[i].1));
                },
            }
        } else {
            lemma_found_is_inside(entries, i + 1, names);
        }
    }
}

fn names_contain(names: &Vec<String>, key: &str) -> (r: bool)
    ensures
        r == names_view(names@).contains(key@),
{
    let mut i: usize = 0;
    while i < names.len()
        invariant
            i <= names@.len(),
            forall|j: int| 0 <= j < i ==> names@[j]@ != key@,
        decreases names@.len() - i,
    {
        if str_eq(names[i].as_str(), key) {
            assert(names_view(names@)[i as int] == key@);
            return true;
        }
        i = i + 1;
    }
    proof {
        if names_view(names@).contains(key@) {
            let j = choose|j: int| 0 <= j < names_view(names@).len() && names_view(names@)[j] == key@;
            assert(names@[j]@ == key@);
        }
    }
    false
}

/// Picks the value of the first matching condition (`conditional_mapping`).
pub fn conditional_mapping<'a>(map: &'a Vec<(String, JsonValue)>, condition_names: &Vec<String>) -> (r:
    Result<Option<&'a JsonValue>, Error>)
    ensures
        match (r, spec_conditional(map@, 0, names_view(condition_names@))) {
            (Err(e), CondOutcome::Failed(m)) => unexpected_message(e) == Some(m),
            (Ok(Some(v)), CondOutcome::Found(sv)) => *v == sv,
            (Ok(None), CondOutcome::Missing) => true,
            _ => false,
        },
    decreases map,
{
    let ghost nv = names_view(condition_names@);
    let mut i: usize = 0;
    while i < map.len()
        invariant
            i <= map@.len(),
            nv == names_view(condition_names@),
            spec_conditional(map@, 0, nv) == spec_conditional(map@, i as int, nv),
        decreases map@.len() - i,
    {
        let key = map[i].0.as_str();
        let value = &map[i].1;
        let is_default = str_eq(key, "default");
        if is_default && i != map.len() - 1 {
            return Err(Error::UnexpectedValue(String::from_str("Default condition should be last one")));
        }
        if is_default || names_contain(condition_names, key) {
            match value {
                JsonValue::Object(inner) => {
                    proof {
                        vstd::std_specs::vec::axiom_vec_decreases_to_view(*inner);
                        vstd::std_specs::vec::axiom_vec_index_decreases(*map, i as int);
                        assert(decreases_to!(*map => map@[i as int]));
                        assert(decreases_to!(*map => *inner));
                    }
                    match conditional_mapping(inner, condition_names) {
                        Err(e) => {
                            return Err(e);
                        },
                        Ok(Some(v)) => {
                            return Ok(Some(v));
                        },
                        Ok(None) => {},
                    }
                },
                _ => {
                    return Ok(Some(value));
                },
            }
        }
        i = i + 1;
    }
    Ok(None)
}


// ---------------------------------------------------------------- mapping

/// `target_mapping`: the target that a matched key maps the request to.
pub open spec fn spec_target_mapping(
    kind: FieldKind,
    remaining: Seq<char>,
    is_pattern: bool,
    is_subpath_mapping: bool,
    target: Seq<char>,
) -> Result<Seq<char>, Seq<char>> {
    if remaining.len() == 0 {
        match spec_assert_target(kind, target, false) {
            Err(e) => Err(e),
            Ok(_) => Ok(target),
        }
    } else if is_subpath_mapping {
        match spec_assert_target(kind, target, true) {
            Err(e) => Err(e),
            Ok(_) => Ok(target + remaining),
        }
    } else {
        match spec_assert_target(kind, target, false) {
            Err(e) => Err(e),
            Ok(_) => if is_pattern {
                Ok(replace_char(target, '*', remaining))
            } else {
                Ok(target)
            },
        }
    }
}

pub fn target_mapping(
    kind: FieldKind,
    remaining_request: &[char],
    is_pattern: bool,
    is_subpath_mapping: bool,
    target: &str,
) -> (r: Result<String, Error>)
    ensures
        match (r, spec_target_mapping(kind, remaining_request@, is_pattern, is_subpath_mapping, target@)) {
            (Ok(a), Ok(b)) => a@ == b,
            (Err(e), Err(m)) => unexpected_message(e) == Some(m),
            _ => false,
        },
{
    if remaining_request.len() == 0 {
        match assert_target(kind, target, false) {
            Err(e) => {
                return Err(e);
            },
            Ok(_) => {},
        }
        return Ok(target.to_owned());
    } else if is_subpath_mapping {
        match assert_target(kind, target, true) {
            Err(e) => {
                return Err(e);
            },
            Ok(_) => {},
        }
        let t = chars_of(target);
        return Ok(string_of(&concat_chars(&t, remaining_request)));
    }
    match assert_target(kind, target, false) {
        Err(e) => {
            return Err(e);
        },
        Ok(_) => {},
    }
    if is_pattern {
        let t = chars_of(target);
        Ok(string_of(&replace_chars(&t, '*', remaining_request)))
    } else {
        Ok(target.to_owned())
    }
}

/// The targets a mapping value yields (`Field::mapping`): a string is one target,
/// an array gives the targets of its items in order (items that fail give none),
/// an object goes through its conditions, and anything else gives no target.
pub open spec fn spec_mapping(
    kind: FieldKind,
    remaining: Seq<char>,
    is_pattern: bool,
    is_subpath_mapping: bool,
    m: JsonValue,
    names: Seq<Seq<char>>,
) -> Result<Seq<Seq<char>>, Seq<char>>
    decreases m, 0nat,
{
    match m {
        JsonValue::String(t) => match spec_target_mapping(
            kind,
            remaining,
            is_pattern,
            is_subpath_mapping,
            t@,
        ) {
            Ok(x) => Ok(seq![x]),
            Err(e) => Err(e),
        },
        JsonValue::Array(items) => {
            proof {
                vstd::std_specs::vec::axiom_vec_decreases_to_view(items);
            }
            Ok(
                spec_mapping_items(
                    kind,
                    remaining,
                    is_pattern,
                    is_subpath_mapping,
                    items@,
                    items@.len() as int,
                    names,
                ),
            )
        },
        JsonValue::Object(o) => {
            proof {
                vstd::std_specs::vec::axiom_vec_decreases_to_view(o);
                lemma_found_is_inside(o@, 0, names);
            }
            match spec_conditional(o@, 0, names) {
                CondOutcome::Failed(e) => Err(e),
                CondOutcome::Found(v) => spec_mapping(
                    kind,
                    remaining,
                    is_pattern,
                    is_subpath_mapping,
                    v,
                    names,
                ),
                CondOutcome::Missing => Ok(Seq::empty()),
            }
        },
        _ => Ok(Seq::empty()),
    }
}

/// The targets of the first `n` items of an array, failures left out.
pub open spec fn spec_mapping_items(
    kind: FieldKind,
    remaining: Seq<char>,
    is_pattern: bool,
    is_subpath_mapping: bool,
    items: Seq<JsonValue>,
    n: int,
    names: Seq<Seq<char>>,
) -> Seq<Seq<char>>
    decreases items, n,
{
    if n <= 0 || n > items.len() {
        Seq::empty()
    } else {
        spec_mapping_items(kind, remaining, is_pattern, is_subpath_mapping, items, n - 1, names)
            + match spec_mapping(
            kind,
            remaining,
            is_pattern,
            is_subpath_mapping,
            items[n - 1],
            names,
        ) {
            Ok(v) => v,
            Err(_) => Seq::empty(),
        }
    }
}

/// The texts of a list of strings.
pub open spec fn strings_view(v: Seq<String>) -> Seq<Seq<char>> {
    v.map_values(|s: String| s@)
}

pub fn mapping(
    kind: FieldKind,
    remaining_request: &[char],
    is_pattern: bool,
    is_subpath_mapping: bool,
    mapping_value: &JsonValue,
    condition_names: &Vec<String>,
) -> (r: Result<Vec<String>, Error>)
    ensures
        match (r, spec_mapping(kind, remaining_request@, is_pattern, is_subpath_mapping, *mapping_value, names_view(condition_names@))) {
            (Ok(a), Ok(b)) => strings_view(a@) == b,
            (Err(e), Err(m)) => unexpected_message(e) == Some(m),
            _ => false,
        },
    decreases mapping_value,
{
    let ghost nv = names_view(condition_names@);
    match mapping_value {
        JsonValue::String(target) => {
            match target_mapping(kind, remaining_request, is_pattern, is_subpath_mapping, target.as_str()) {
                Ok(t) => {
                    let mut v: Vec<String> = Vec::new();
                    v.push(t);
                    assert(strings_view(v@) =~= seq![v@[0]@]);
                    Ok(v)
                },
                Err(e) => Err(e),
            }
        },
        JsonValue::Array(items) => {
            let mut out: Vec<String> = Vec::new();
            let mut i: usize = 0;
            while i < items.len()
                invariant
                    i <= items@.len(),
                    nv == names_view(condition_names@),
                    *mapping_value == JsonValue::Array(*items),
                    strings_view(out@) == spec_mapping_items(
                        kind,
                        remaining_request@,
                        is_pattern,
                        is_subpath_mapping,
                        items@,
                        i as int,
                        nv,
                    ),
                decreases items@.len() - i,
            {
                proof {
                    vstd::std_specs::vec::axiom_vec_index_decreases(*items, i as int);
                    assert(decreases_to!(*mapping_value => (*mapping_value)->Array_0));
                }
                match mapping(kind, remaining_request, is_pattern, is_subpath_mapping, &items[i], condition_names) {
                    Ok(list) => {
                        let ghost before = out@;
                        let mut list = list;
                        let ghost lv = list@;
                        out.append(&mut list);
                        assert(strings_view(out@) =~= strings_view(before) + strings_view(lv));
                    },
                    Err(_) => {},
                }
                i = i + 1;
            }
            Ok(out)
        },
        JsonValue::Object(map) => {
            proof {
                vstd::std_specs::vec::axiom_vec_decreases_to_view(*map);
                lemma_found_is_inside(map@, 0, nv);
            }
            match conditional_mapping(map, condition_names) {
                Err(e) => Err(e),
                Ok(Some(v)) => {
                    proof {
                        assert(decreases_to!(*mapping_value => (*mapping_value)->Object_0));
                    }
                    mapping(kind, remaining_request, is_pattern, is_subpath_mapping, v, condition_names)
                },
                Ok(None) => Ok(Vec::new()),
            }
        },
        _ => Ok(Vec::new()),
    }
}


// ---------------------------------------------------------------- finding the key

pub open spec fn msg_export_key_dot_slash(key: Seq<char>) -> Seq<char> {
    "Export field key should be relative path and start with \"./\", but got "@ + key
}

pub open spec fn msg_export_key_dot(key: Seq<char>) -> Seq<char> {
    "Export field key should be relative path and start with \".\", but got "@ + key
}

pub open spec fn msg_imports_key_hash(key: Seq<char>) -> Seq<char> {
    "Imports field key should start with #, but got "@ + key
}

pub open spec fn msg_imports_key_short(key: Seq<char>) -> Seq<char> {
    "Imports field key should have at least 2 characters, but got "@ + key
}

/// A match: the mapping value, the remaining request, folder mapping, pattern.
pub type MatchView = (JsonValue, Seq<char>, bool, bool);

/// The first key from member `j` on that starts with `.` or `/`.
pub open spec fn first_rooted_key(entries: Seq<(String, JsonValue)>, j: int) -> Option<Seq<char>>
    decreases entries.len() - j,
{
    if j < 0 || j >= entries.len() {
        None
    } else if seq_starts_with(entries[j].0@, seq!['.']) || seq_starts_with(entries[j].0@, seq!['/']) {
        Some(entries[j].0@)
    } else {
        first_rooted_key(entries, j + 1)
    }
}

/// The check of the keys of an `exports` object from member `i` on: `Some` when it
/// decides the outcome, `None` when every key passes.
pub open spec fn exports_key_scan(
    whole: JsonValue,
    entries: Seq<(String, JsonValue)>,
    request: Seq<char>,
    i: int,
) -> Option<Result<Option<MatchView>, Seq<char>>>
    decreases entries.len() - i,
{
    if i < 0 || i >= entries.len() {
        None
    } else {
        let key = entries[i].0@;
        if !seq_starts_with(key, seq!['.']) {
            if i == 0 {
                match first_rooted_key(entries, 0) {
                    Some(k) => Some(Err(msg_export_key_dot_slash(k))),
                    None => if request != seq!['.'] {
                        Some(Ok(None))
                    } else {
                        Some(Ok(Some((whole, seq!['.'], false, false))))
                    },
                }
            } else {
                Some(Err(msg_export_key_dot(key)))
            }
        } else if key.len() == 1 {
            exports_key_scan(whole, entries, request, i + 1)
        } else if key[1] != '/' {
            Some(Err(msg_export_key_dot_slash(key)))
        } else {
            exports_key_scan(whole, entries, request, i + 1)
        }
    }
}

/// The first `imports` key from member `i` on that is not a valid key, with its message.
pub open spec fn imports_key_scan(entries: Seq<(String, JsonValue)>, i: int) -> Option<Seq<char>>
    decreases entries.len() - i,
{
    if i < 0 || i >= entries.len() {
        None
    } else {
        let key = entries[i].0@;
        if !seq_starts_with(key, seq!['#']) {
            Some(msg_imports_key_hash(key))
        } else if key.len() == 1 {
            Some(msg_imports_key_short(key))
        } else if seq_starts_with(key, seq!['#', '/']) {
            Some(msg_import_hash_slash(key))
        } else {
            imports_key_scan(entries, i + 1)
        }
    }
}

/// `find_match` of the two fields.
pub open spec fn spec_find_match(kind: FieldKind, v: JsonValue, request: Seq<char>) -> Result<
    Option<MatchView>,
    Seq<char>,
> {
    match kind {
        FieldKind::Exports => match v {
            JsonValue::Object(map) => match exports_key_scan(v, map@, request, 0) {
                Some(r) => r,
                None => Ok(spec_find_normalized(map@, request)),
            },
            JsonValue::Array(_) | JsonValue::String(_) => if request != seq!['.'] {
                Ok(None)
            } else {
                Ok(Some((v, seq!['.'], false, false)))
            },
            _ => Ok(None),
        },
        FieldKind::Imports => match v {
            JsonValue::Object(map) => match imports_key_scan(map@, 0) {
                Some(m) => Err(m),
                None => Ok(spec_find_normalized(map@, request)),
            },
            _ => Ok(None),
        },
    }
}

/// The view of the result of `find_match`.
pub open spec fn find_view(r: Result<Option<(&JsonValue, Vec<char>, bool, bool)>, Error>) -> Result<
    Option<MatchView>,
    Option<Seq<char>>,
> {
    match r {
        Ok(m) => Ok(match_view(m)),
        Err(e) => Err(unexpected_message(e)),
    }
}

pub open spec fn lift_err<T>(r: Result<T, Seq<char>>) -> Result<T, Option<Seq<char>>> {
    match r {
        Ok(v) => Ok(v),
        Err(m) => Err(Some(m)),
    }
}

fn is_dot(request: &[char]) -> (r: bool)
    ensures
        r == (request@ == seq!['.']),
{
    let r = request.len() == 1 && request[0] == '.';
    proof {
        if r {
            assert(request@ =~= seq!['.']);
        }
    }
    r
}

fn exports_find_match<'a>(json_value: &'a JsonValue, request: &[char]) -> (r: Result<
    Option<(&'a JsonValue, Vec<char>, bool, bool)>,
    Error,
>)
    requires
        request@.len() > 0,
    ensures
        find_view(r) == lift_err(spec_find_match(FieldKind::Exports, *json_value, request@)),
{
    match json_value {
        JsonValue::Object(map) => {
            let mut i: usize = 0;
            while i < map.len()
                invariant
                    i <= map@.len(),
                    *json_value == JsonValue::Object(*map),
                    exports_key_scan(*json_value, map@, request@, 0) == exports_key_scan(
                        *json_value,
                        map@,
                        request@,
                        i as int,
                    ),
                decreases map@.len() - i,
            {
                let key = chars_of(map[i].0.as_str());
                if !first_is(&key, '.') {
                    if i == 0 {
                        let mut j: usize = 0;
                        while j < map.len()
                            invariant
                                j <= map@.len(),
                                i == 0,
                                map@.len() > 0,
                                *json_value == JsonValue::Object(*map),
                                !seq_starts_with(map@[0].0@, seq!['.']),
                                exports_key_scan(*json_value, map@, request@, 0) == exports_key_scan(
                                    *json_value,
                                    map@,
                                    request@,
                                    i as int,
                                ),
                                first_rooted_key(map@, 0) == first_rooted_key(map@, j as int),
                            decreases map@.len() - j,
                        {
                            let key2 = chars_of(map[j].0.as_str());
                            if first_is(&key2, '.') || first_is(&key2, '/') {
                                return Err(
                                    unexpected(
                                        "Export field key should be relative path and start with \"./\", but got ",
                                        map[j].0.as_str(),
                                    ),
                                );
                            }
                            j = j + 1;
                        }
                        if !is_dot(request) {
                            return Ok(None);
                        } else {
                            let dot: Vec<char> = vec!['.'];
                            assert(dot@ =~= seq!['.']);
                            return Ok(Some((json_value, dot, false, false)));
                        }
                    } else {
                        return Err(
                            unexpected(
                                "Export field key should be relative path and start with \".\", but got ",
                                map[i].0.as_str(),
                            ),
                        );
                    }
                } else if key.len() == 1 {
                } else if key[1] != '/' {
                    return Err(
                        unexpected(
                            "Export field key should be relative path and start with \"./\", but got ",
                            map[i].0.as_str(),
                        ),
                    );
                }
                i = i + 1;
            }
            Ok(find_normalized_match_in_object(map, request))
        },
        JsonValue::Array(_) | JsonValue::String(_) => {
            if !is_dot(request) {
                Ok(None)
            } else {
                let dot: Vec<char> = vec!['.'];
                assert(dot@ =~= seq!['.']);
                Ok(Some((json_value, dot, false, false)))
            }
        },
        _ => Ok(None),
    }
}

fn imports_find_match<'a>(json_value: &'a JsonValue, request: &[char]) -> (r: Result<
    Option<(&'a JsonValue, Vec<char>, bool, bool)>,
    Error,
>)
    requires
        request@.len() > 0,
    ensures
        find_view(r) == lift_err(spec_find_match(FieldKind::Imports, *json_value, request@)),
{
    let field = match json_value {
        JsonValue::Object(field) => field,
        _ => {
            return Ok(None);
        },
    };
    let mut i: usize = 0;
    while i < field.len()
        invariant
            i <= field@.len(),
            *json_value == JsonValue::Object(*field),
            imports_key_scan(field@, 0) == imports_key_scan(field@, i as int),
        decreases field@.len() - i,
    {
        let key = chars_of(field[i].0.as_str());
        if !first_is(&key, '#') {
            return Err(unexpected("Imports field key should start with #, but got ", field[i].0.as_str()));
        } else if key.len() == 1 {
            return Err(
                unexpected(
                    "Imports field key should have at least 2 characters, but got ",
                    field[i].0.as_str(),
                ),
            );
        } else if starts_with2(&key, '#', '/') {
            return Err(
                unexpected("Import field key should not start with #/, but got ", field[i].0.as_str()),
            );
        }
        i = i + 1;
    }
    Ok(find_normalized_match_in_object(field, request))
}

/// Finds the key of a field that covers `request` (`Field::find_match`).
pub fn find_match<'a>(kind: FieldKind, json_value: &'a JsonValue, request: &[char]) -> (r: Result<
    Option<(&'a JsonValue, Vec<char>, bool, bool)>,
    Error,
>)
    requires
        request@.len() > 0,
    ensures
        find_view(r) == lift_err(spec_find_match(kind, *json_value, request@)),
{
    match kind {
        FieldKind::Exports => exports_find_match(json_value, request),
        FieldKind::Imports => imports_find_match(json_value, request),
    }
}

// ---------------------------------------------------------------- the whole field

/// `field_process`: the targets a field maps a request to.
pub open spec fn spec_field_process(
    kind: FieldKind,
    root: JsonValue,
    target: Seq<char>,
    names: Seq<Seq<char>>,
) -> Result<Seq<Seq<char>>, Seq<char>> {
    match spec_assert_request(kind, target) {
        Err(e) => Err(e),
        Ok(_) => match spec_find_match(kind, root, target) {
            Err(e) => Err(e),
            Ok(None) => Ok(Seq::empty()),
            Ok(Some((m, remaining, is_subpath_mapping, is_pattern))) => spec_mapping(
                kind,
                remaining,
                is_pattern,
                is_subpath_mapping,
                m,
                names,
            ),
        },
    }
}

/// The view of a list of targets or an error message.
pub open spec fn targets_view(r: Result<Vec<String>, Error>) -> Result<Seq<Seq<char>>, Option<Seq<char>>> {
    match r {
        Ok(v) => Ok(strings_view(v@)),
        Err(e) => Err(unexpected_message(e)),
    }
}

pub fn field_process(kind: FieldKind, root: &JsonValue, target: &str, condition_names: &Vec<String>) -> (r:
    Result<Vec<String>, Error>)
    ensures
        targets_view(r) == lift_err(spec_field_process(kind, *root, target@, names_view(condition_names@))),
{
    let request = match assert_request(kind, target) {
        Ok(r) => r,
        Err(e) => {
            return Err(e);
        },
    };
    let request = chars_of(request.as_str());
    assert(request@ == target@);
    proof {
        if kind == FieldKind::Exports {
            assert(request@.len() > 0);
        } else {
            assert(request@.len() > 0);
        }
    }
    let found = find_match(kind, root, &request);
    assert(find_view(found) == lift_err(spec_find_match(kind, *root, target@)));
    match found {
        Err(e) => Err(e),
        Ok(None) => {
            let v: Vec<String> = Vec::new();
            assert(strings_view(v@) =~= Seq::<Seq<char>>::empty());
            Ok(v)
        },
        Ok(Some((m, remaining_request, is_subpath_mapping, is_pattern))) => mapping(
            kind,
            &remaining_request,
            is_pattern,
            is_subpath_mapping,
            m,
            condition_names,
        ),
    }
}

impl ExportsField {
    /// The targets the `exports` field `root` maps `target` to.
    pub fn field_process(root: &JsonValue, target: &str, condition_names: &Vec<String>) -> (r: Result<
        Vec<String>,
        Error,
    >)
        ensures
            targets_view(r) == lift_err(
                spec_field_process(FieldKind::Exports, *root, target@, names_view(condition_names@)),
            ),
    {
        field_process(FieldKind::Exports, root, target, condition_names)
    }

    /// Checks that a mapped target does not leave the package.
    pub fn check_target(relative_path: &str) -> (r: Result<(), String>)
        ensures
            match (r, spec_check_target(relative_path@)) {
                (Ok(_), Ok(_)) => true,
                (Err(m), Err(sm)) => m@ == sm,
                _ => false,
            },
    {
        check_target(relative_path)
    }
}

impl ImportsField {
    /// The targets the `imports` field `root` maps `target` to.
    pub fn field_process(root: &JsonValue, target: &str, condition_names: &Vec<String>) -> (r: Result<
        Vec<String>,
        Error,
    >)
        ensures
            targets_view(r) == lift_err(
                spec_field_process(FieldKind::Imports, *root, target@, names_view(condition_names@)),
            ),
    {
        field_process(FieldKind::Imports, root, target, condition_names)
    }

    /// Checks that a mapped target does not leave the package.
    pub fn check_target(relative_path: &str) -> (r: Result<(), String>)
        ensures
            match (r, spec_check_target(relative_path@)) {
                (Ok(_), Ok(_)) => true,
                (Err(m), Err(sm)) => m@ == sm,
                _ => false,
            },
    {
        check_target(relative_path)
    }
}

} // verus!
