use vstd::prelude::*;

use crate::text::{chars_of, first_is, lemma_next_index_from, next_index_from, seq_starts_with, slice_chars, string_of};

verus! {

/// The index of the slash that ends the module name of `[module-name]/[path]`:
/// the first slash, or the second one for a scoped name `@scope/name`.
pub open spec fn spec_split_slash(t: Seq<char>) -> Option<int> {
    match next_index_from(t, '/', 0) {
        Some(a) => if seq_starts_with(t, seq!['@']) {
            next_index_from(t, '/', a + 1)
        } else {
            Some(a)
        },
        None => None,
    }
}

/// The module name of a request target.
pub open spec fn spec_module_name(t: Seq<char>) -> Seq<char> {
    match spec_split_slash(t) {
        Some(i) => t.subrange(0, i),
        None => t,
    }
}

/// The path after the module name of a request target, from its slash on.
pub open spec fn spec_path_from_request(t: Seq<char>) -> Option<Seq<char>> {
    match spec_split_slash(t) {
        Some(i) => Some(t.subrange(i, t.len() as int)),
        None => None,
    }
}

pub proof fn lemma_split_slash(t: Seq<char>)
    ensures
        spec_split_slash(t) matches Some(i) ==> 0 <= i < t.len() && t[i] == '/',
{
    lemma_next_index_from(t, '/', 0);
    if let Some(a) = next_index_from(t, '/', 0) {
        lemma_next_index_from(t, '/', a + 1);
    }
}

fn next_slash(t: &[char], from: usize) -> (r: Option<usize>)
    ensures
        match (r, next_index_from(t@, '/', from as int)) {
            (Some(a), Some(b)) => a == b,
            (None, None) => true,
            _ => false,
        },
{
    let mut i = from;
    proof {
        lemma_next_index_from(t@, '/', from as int);
    }
    while i < t.len()
        invariant
            from <= i,
            next_index_from(t@, '/', from as int) == next_index_from(t@, '/', i as int),
        decreases t@.len() - i,
    {
        if t[i] == '/' {
            return Some(i);
        }
        i = i + 1;
    }
    None
}

fn split_slash_chars(t: &[char]) -> (r: Option<usize>)
    ensures
        match (r, spec_split_slash(t@)) {
            (Some(a), Some(b)) => a == b && b < t@.len(),
            (None, None) => true,
            _ => false,
        },
{
    proof {
        lemma_split_slash(t@);
    }
    let has_namespace_scope = first_is(t, '@');
    let n = t.len();
    match next_slash(t, 0) {
        Some(a) => {
            proof {
                lemma_next_index_from(t@, '/', 0);
            }
            assert(a < n);
            if has_namespace_scope {
                next_slash(t, a + 1)
            } else {
                Some(a)
            }
        },
        None => None,
    }
}

/// Splits `[module-name]/[path]`: the index of the slash after the module name.
pub fn split_slash_from_request(target: &str) -> (r: Option<usize>)
    ensures
        match (r, spec_split_slash(target@)) {
            (Some(a), Some(b)) => a == b,
            (None, None) => true,
            _ => false,
        },
{
    let t = chars_of(target);
    split_slash_chars(&t)
}

/// The module name of a request target.
pub fn get_module_name_from_request(target: &str) -> (r: String)
    ensures
        r@ == spec_module_name(target@),
{
    let t = chars_of(target);
    match split_slash_chars(&t) {
        Some(i) => string_of(&slice_chars(&t, 0, i)),
        None => target.to_owned(),
    }
}

/// The path after the module name of a request target.
pub fn get_path_from_request(target: &str) -> (r: Option<String>)
    ensures
        match (r, spec_path_from_request(target@)) {
            (Some(a), Some(b)) => a@ == b,
            (None, None) => true,
            _ => false,
        },
{
    let t = chars_of(target);
    match split_slash_chars(&t) {
        Some(i) => Some(string_of(&slice_chars(&t, i, t.len()))),
        None => None,
    }
}

/// A module request is its name followed by its path.
pub proof fn law_module_name_then_path(t: Seq<char>)
    ensures
        match spec_path_from_request(t) {
            Some(p) => spec_module_name(t) + p == t && p.len() > 0 && p[0] == '/',
            None => spec_module_name(t) == t,
        },
{
    lemma_split_slash(t);
    if let Some(i) = spec_split_slash(t) {
        assert(t.subrange(0, i) + t.subrange(i, t.len() as int) =~= t);
    }
}

} // verus!
