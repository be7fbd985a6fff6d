use vstd::prelude::*;

use crate::path::{is_absolute, join_path, lemma_join_absolute, spec_join};
use crate::text::{
    chars_eq, chars_of, ends_with, find_char, first_index_of, lemma_first_index_of, seq_ends_with,
    seq_starts_with, slice_chars, starts_with, string_of, utf8_len, utf8_len_of,
};

verus! {

/// The `baseUrl` and `paths` of a tsconfig.
#[derive(Debug)]
pub struct TsConfigInfo {
    pub paths: Option<Vec<(String, Vec<String>)>>,
    pub base_url: Option<String>,
}

/// One entry of `paths`: a pattern and the absolute paths it maps to.
#[derive(Debug, PartialEq)]
pub struct MappingEntry {
    pub pattern: String,
    /// Each path may hold `*`, which stands for what the pattern's `*` matched.
    pub paths: Vec<String>,
}

/// What the `*` of `pattern` matches in `search`: the part between the text
/// before the star and the text after it. A search shorter (in bytes) than the
/// pattern, or a pattern without a star, matches nothing; the pattern `*`
/// matches the whole search.
pub open spec fn spec_match_star(pattern: Seq<char>, search: Seq<char>) -> Option<Seq<char>> {
    if utf8_len(search) < utf8_len(pattern) {
        None
    } else if pattern == seq!['*'] {
        Some(search)
    } else {
        match first_index_of(pattern, '*') {
            None => None,
            Some(star) => {
                let before = pattern.subrange(0, star);
                let after = pattern.subrange(star + 1, pattern.len() as int);
                if seq_starts_with(search, before) && seq_ends_with(search, after) && before.len()
                    + after.len() <= search.len() {
                    Some(search.subrange(before.len() as int, search.len() - after.len()))
                } else {
                    None
                }
            },
        }
    }
}

/// Matches `search` against a pattern with one `*`.
pub fn match_star(pattern: &str, search: &str) -> (r: Option<String>)
    ensures
        match (r, spec_match_star(pattern@, search@)) {
            (Some(a), Some(b)) => a@ == b,
            (None, None) => true,
            _ => false,
        },
{
    let p = chars_of(pattern);
    let s = chars_of(search);
    if utf8_len_of(&s) < utf8_len_of(&p) {
        return None;
    }
    let star: Vec<char> = vec!['*'];
    assert(star@ =~= seq!['*']);
    if chars_eq(&p, &star) {
        return Some(search.to_owned());
    }
    proof {
        lemma_first_index_of(p@, '*');
    }
    let star_index = match find_char(&p, '*') {
        Some(i) => i,
        None => {
            return None;
        },
    };
    let n = p.len();
    assert(star_index < n);
    let before = slice_chars(&p, 0, star_index);
    let after = slice_chars(&p, star_index + 1, n);
    if starts_with(&s, &before) && ends_with(&s, &after) && before.len() <= s.len() && after.len() <= s.len()
        - before.len() {
        Some(string_of(&slice_chars(&s, before.len(), s.len() - after.len())))
    } else {
        None
    }
}

/// A star match puts the search text back together: the text before the star,
/// the match, and the text after it.
pub proof fn law_match_star_rebuilds(pattern: Seq<char>, search: Seq<char>)
    requires
        spec_match_star(pattern, search) is Some,
        pattern != seq!['*'],
    ensures
        ({
            let star = first_index_of(pattern, '*')->Some_0;
            pattern.subrange(0, star) + spec_match_star(pattern, search)->Some_0 + pattern.subrange(
                star + 1,
                pattern.len() as int,
            ) == search
        }),
{
    let star = first_index_of(pattern, '*')->Some_0;
    let before = pattern.subrange(0, star);
    let after = pattern.subrange(star + 1, pattern.len() as int);
    let m = search.subrange(before.len() as int, search.len() - after.len());
    assert(before + m + after =~= search);
}

/// Each path joined onto the base URL, in order.
pub open spec fn joined_onto(base: Seq<char>, paths: Seq<String>, joined: Seq<String>) -> bool {
    &&& joined.len() == paths.len()
    &&& forall|j: int| 0 <= j < paths.len() ==> #[trigger] joined[j]@ == spec_join(base, paths[j]@)
}

/// The mapping entries of `paths`, in order: the same patterns, each path joined
/// onto the base URL.
pub open spec fn mapping_entries_of(base: Seq<char>, paths: Seq<(String, Vec<String>)>, r: Seq<MappingEntry>) -> bool {
    &&& r.len() == paths.len()
    &&& forall|i: int|
        0 <= i < paths.len() ==> (#[trigger] r[i]).pattern@ == paths[i].0@ && joined_onto(
            base,
            paths[i].1@,
            r[i].paths@,
        )
}

fn joined_paths(absolute_base_url: &str, paths: &Vec<String>) -> (r: Vec<String>)
    ensures
        joined_onto(absolute_base_url@, paths@, r@),
{
    let mut r: Vec<String> = Vec::new();
    let mut i: usize = 0;
    while i < paths.len()
        invariant
            i <= paths@.len(),
            r@.len() == i,
            forall|j: int| 0 <= j < i ==> #[trigger] r@[j]@ == spec_join(absolute_base_url@, paths@[j]@),
        decreases paths@.len() - i,
    {
        r.push(join_path(absolute_base_url, paths[i].as_str()));
        i = i + 1;
    }
    r
}

/// The entries of `paths`, in order, each path joined onto the base URL.
pub fn get_absolute_mapping_entries(absolute_base_url: &str, paths: &Vec<(String, Vec<String>)>) -> (r: Vec<
    MappingEntry,
>)
    ensures
        mapping_entries_of(absolute_base_url@, paths@, r@),
{
    let mut r: Vec<MappingEntry> = Vec::new();
    let mut i: usize = 0;
    while i < paths.len()
        invariant
            i <= paths@.len(),
            r@.len() == i,
            forall|k: int|
                0 <= k < i ==> (#[trigger] r@[k]).pattern@ == paths@[k].0@ && joined_onto(
                    absolute_base_url@,
                    paths@[k].1@,
                    r@[k].paths@,
                ),
        decreases paths@.len() - i,
    {
        let entry = MappingEntry {
            pattern: paths[i].0.clone(),
            paths: joined_paths(absolute_base_url, &paths[i].1),
        };
        r.push(entry);
        i = i + 1;
    }
    r
}

/// The mapping entries of optional `paths`: none without them.
pub fn create_match_list(absolute_base_url: &str, paths: &Option<Vec<(String, Vec<String>)>>) -> (r: Vec<
    MappingEntry,
>)
    ensures
        match paths {
            Some(p) => mapping_entries_of(absolute_base_url@, p@, r@),
            None => r@.len() == 0,
        },
{
    match paths {
        Some(p) => get_absolute_mapping_entries(absolute_base_url, p),
        None => Vec::new(),
    }
}

} // verus!
