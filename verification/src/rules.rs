use vstd::prelude::*;

use crate::info::{spec_resolved_path, Info};
use crate::parse::{opt_text, spec_from_request, Request, RequestView};
use crate::path::{absolutize, absolutized, is_absolute, join_path, lemma_join_absolute, spec_join};
use crate::text::{chars_eq, chars_of, concat_chars, ends_with, seq_ends_with, seq_starts_with, slice_chars, starts_with, string_of};

verus! {

/// The key an alias matches `target` with, if it matches: a key ending in `$`
/// matches only the target equal to the key without its `$`; another key matches
/// a target that starts with it, followed by nothing or by `/`.
pub open spec fn spec_alias_match(from: Seq<char>, target: Seq<char>) -> Option<Seq<char>> {
    if seq_ends_with(from, seq!['$']) {
        let key = from.subrange(0, from.len() - 1);
        if target == key {
            Some(key)
        } else {
            None
        }
    } else if seq_starts_with(target, from) && (target.len() == from.len() || target[from.len() as int]
        == '/') {
        Some(from)
    } else {
        None
    }
}

/// An alias key not ending in `$` matches the target equal to it and every
/// target below it (the key, `/`, and anything), with the whole key.
pub proof fn law_alias_key_matches_below(from: Seq<char>, rest: Seq<char>)
    requires
        !seq_ends_with(from, seq!['$']),
    ensures
        spec_alias_match(from, from) == Some(from),
        spec_alias_match(from, from + seq!['/'] + rest) == Some(from),
{
    assert(from.subrange(0, from.len() as int) =~= from);
    let t = from + seq!['/'] + rest;
    assert(t.subrange(0, from.len() as int) =~= from);
    assert(t[from.len() as int] == '/');
}

/// An alias key not ending in `$` does not match a target that only starts with
/// it inside a longer name (`foo` does not match `foobar`).
pub proof fn law_alias_key_not_inside_name(from: Seq<char>, c: char, rest: Seq<char>)
    requires
        !seq_ends_with(from, seq!['$']),
        c != '/',
    ensures
        spec_alias_match(from, from + seq![c] + rest) is None,
{
    let t = from + seq![c] + rest;
    assert(t[from.len() as int] == c);
}

/// An alias key ending in `$` matches exactly the target equal to the key
/// without its `$`.
pub proof fn law_alias_exact_key(key: Seq<char>, target: Seq<char>)
    ensures
        spec_alias_match(key.push('$'), target) is Some <==> target == key,
        target == key ==> spec_alias_match(key.push('$'), target) == Some(key),
{
    let from = key.push('$');
    assert(from.subrange(from.len() - 1, from.len() as int) =~= seq!['$']);
    assert(from.subrange(0, from.len() - 1) =~= key);
}

/// Whether an alias key matches a target, and with which part of the key.
pub fn alias_match(from: &str, target: &str) -> (r: Option<String>)
    ensures
        match (r, spec_alias_match(from@, target@)) {
            (Some(a), Some(b)) => a@ == b,
            (None, None) => true,
            _ => false,
        },
{
    let f = chars_of(from);
    let t = chars_of(target);
    let dollar: Vec<char> = vec!['$'];
    assert(dollar@ =~= seq!['$']);
    if ends_with(&f, &dollar) {
        let key = slice_chars(&f, 0, f.len() - 1);
        if chars_eq(&t, &key) {
            Some(string_of(&key))
        } else {
            None
        }
    } else if starts_with(&t, &f) && (t.len() == f.len() || t[f.len()] == '/') {
        Some(from.to_owned())
    } else {
        None
    }
}

/// A query or fragment text, `None` when empty.
pub open spec fn non_empty(s: Seq<char>) -> Option<Seq<char>> {
    if s.len() == 0 {
        None
    } else {
        Some(s)
    }
}

/// The request an alias turns `old` into: the key at the start of the target
/// replaced by `to`, parsed again, keeping the old query and fragment where the new
/// text has none.
pub open spec fn spec_alias_request(old: RequestView, key: Seq<char>, to: Seq<char>) -> RequestView {
    let fresh = spec_from_request(to + old.target.subrange(key.len() as int, old.target.len() as int));
    RequestView {
        query: if opt_text(fresh.query).len() == 0 {
            non_empty(opt_text(old.query))
        } else {
            fresh.query
        },
        fragment: if opt_text(fresh.fragment).len() == 0 {
            non_empty(opt_text(old.fragment))
        } else {
            fresh.fragment
        },
        ..fresh
    }
}

/// The request an alias turns `old` into (`key` starts its target).
pub fn alias_request(old: &Request, key: &str, to: &str) -> (r: Request)
    requires
        seq_starts_with(old@.target, key@),
    ensures
        r@ == spec_alias_request(old@, key@, to@),
{
    let t = chars_of(old.target());
    let k = chars_of(key);
    let rest = slice_chars(&t, k.len(), t.len());
    let target = concat_chars(&chars_of(to), &rest);
    let text = string_of(&target);
    let request = Request::from_request(text.as_str());
    let no_query = request.query().is_empty();
    let no_fragment = request.fragment().is_empty();
    let request = if no_query {
        request.with_query(old.query())
    } else {
        request
    };
    if no_fragment {
        request.with_fragment(old.fragment())
    } else {
        request
    }
}

/// The target a main field points at, `None` when it points at its own directory.
pub open spec fn spec_main_field_target(field: Seq<char>) -> Option<Seq<char>> {
    if field == seq!['.'] || field == seq!['.', '/'] {
        None
    } else if seq_starts_with(field, seq!['.', '/']) {
        Some(field)
    } else {
        Some(seq!['.', '/'] + field)
    }
}

/// A main field points at its own directory exactly when it is `.` or `./`;
/// otherwise at a target starting with `./` that ends with the field.
pub proof fn law_main_field_target_is_relative(field: Seq<char>)
    ensures
        spec_main_field_target(field) is None <==> (field == seq!['.'] || field == seq!['.', '/']),
        spec_main_field_target(field) matches Some(t) ==> seq_starts_with(t, seq!['.', '/']) && seq_ends_with(t, field),
{
    if let Some(t) = spec_main_field_target(field) {
        if seq_starts_with(field, seq!['.', '/']) {
            assert(t.subrange(0, 0) =~= Seq::<char>::empty());
            assert(t.subrange(t.len() - field.len(), t.len() as int) =~= field);
        } else {
            assert(t.subrange(0, 2) =~= seq!['.', '/']);
            assert(t.subrange(t.len() - field.len(), t.len() as int) =~= field);
        }
    }
}

/// The target a main field points at.
pub fn main_field_target(field: &str) -> (r: Option<String>)
    ensures
        match (r, spec_main_field_target(field@)) {
            (Some(a), Some(b)) => a@ == b,
            (None, None) => true,
            _ => false,
        },
{
    let f = chars_of(field);
    let dot: Vec<char> = vec!['.'];
    let dot_slash: Vec<char> = vec!['.', '/'];
    assert(dot@ =~= seq!['.']);
    assert(dot_slash@ =~= seq!['.', '/']);
    if chars_eq(&f, &dot) || chars_eq(&f, &dot_slash) {
        None
    } else if starts_with(&f, &dot_slash) {
        Some(field.to_owned())
    } else {
        Some(string_of(&concat_chars(&dot_slash, &f)))
    }
}

/// `target` with its extension `ext` replaced by `alias`.
pub open spec fn spec_replace_extension(target: Seq<char>, ext: Seq<char>, alias: Seq<char>) -> Seq<char> {
    target.subrange(0, target.len() - ext.len()) + alias
}

/// Replacing an extension keeps everything before it and ends with the new
/// extension; replacing it by itself gives the target back.
pub proof fn law_replace_extension(target: Seq<char>, ext: Seq<char>, alias: Seq<char>)
    requires
        seq_ends_with(target, ext),
    ensures
        seq_ends_with(spec_replace_extension(target, ext, alias), alias),
        spec_replace_extension(target, ext, alias).len() == target.len() - ext.len() + alias.len(),
        spec_replace_extension(target, ext, alias).subrange(0, target.len() - ext.len()) == target.subrange(
            0,
            target.len() - ext.len(),
        ),
        spec_replace_extension(target, ext, ext) == target,
{
    let r = spec_replace_extension(target, ext, alias);
    assert(r.subrange(r.len() - alias.len(), r.len() as int) =~= alias);
    assert(r.subrange(0, target.len() - ext.len()) =~= target.subrange(0, target.len() - ext.len()));
    assert(spec_replace_extension(target, ext, ext) =~= target);
}

pub fn replace_extension(target: &str, ext: &str, alias: &str) -> (r: String)
    requires
        seq_ends_with(target@, ext@),
    ensures
        r@ == spec_replace_extension(target@, ext@, alias@),
{
    let t = chars_of(target);
    let e = chars_of(ext);
    let head = slice_chars(&t, 0, t.len() - e.len());
    string_of(&concat_chars(&head, &chars_of(alias)))
}

/// The subpath an `exports` lookup asks for, with the query and fragment of the
/// request put back: `.` becomes `./` when something follows it.
pub open spec fn spec_exports_remaining(normalized: Seq<char>, query: Seq<char>, fragment: Seq<char>) -> Seq<
    char,
> {
    if query.len() > 0 || fragment.len() > 0 {
        (if normalized == seq!['.'] {
            seq!['.', '/']
        } else {
            normalized
        }) + query + fragment
    } else {
        normalized
    }
}

pub fn exports_remaining_target(normalized: &str, query: &str, fragment: &str) -> (r: String)
    ensures
        r@ == spec_exports_remaining(normalized@, query@, fragment@),
{
    if query.is_empty() && fragment.is_empty() {
        return normalized.to_owned();
    }
    let n = chars_of(normalized);
    let dot: Vec<char> = vec!['.'];
    assert(dot@ =~= seq!['.']);
    let head: Vec<char> = if chars_eq(&n, &dot) {
        let v: Vec<char> = vec!['.', '/'];
        assert(v@ =~= seq!['.', '/']);
        v
    } else {
        n
    };
    let with_query = concat_chars(&head, &chars_of(query));
    string_of(&concat_chars(&with_query, &chars_of(fragment)))
}

/// The browser field key names the request itself: the request is a module whose
/// target equals the key.
pub fn request_target_is_module_and_equal_alias_key(alias_key: &String, info: &Info) -> (r: bool)
    ensures
        r == (info@.request.target == alias_key@),
{
    crate::text::str_eq(info.request().target(), alias_key.as_str())
}

/// The browser field key, as a path, names the path the request points at, as it
/// is or with one of the extensions.
pub open spec fn spec_alias_path_hit(alias_path: Seq<char>, request_path: Seq<char>, extensions: Seq<
    Seq<char>,
>) -> bool {
    let a = absolutized(alias_path);
    let p = absolutized(request_path);
    a == p || exists|i: int| 0 <= i < extensions.len() && a == p + extensions[i]
}

/// A browser field key names the request's path when, as an absolute path, it
/// is that path followed by any one of the extensions, at whatever place in the
/// list.
pub proof fn law_browser_key_with_any_extension(
    alias_path: Seq<char>,
    request_path: Seq<char>,
    extensions: Seq<Seq<char>>,
    i: int,
)
    requires
        0 <= i < extensions.len(),
        absolutized(alias_path) == absolutized(request_path) + extensions[i],
    ensures
        spec_alias_path_hit(alias_path, request_path, extensions),
{
}

/// A browser field key names the request's path when both are the same
/// absolute path, whatever the extensions.
pub proof fn law_browser_key_same_path(alias_path: Seq<char>, request_path: Seq<char>, extensions: Seq<Seq<char>>)
    requires
        absolutized(alias_path) == absolutized(request_path),
    ensures
        spec_alias_path_hit(alias_path, request_path, extensions),
{
}

/// A browser field key names the request's path only as that path itself or
/// with one of the extensions.
pub proof fn law_browser_key_only_path_or_extension(
    alias_path: Seq<char>,
    request_path: Seq<char>,
    extensions: Seq<Seq<char>>,
)
    requires
        spec_alias_path_hit(alias_path, request_path, extensions),
    ensures
        absolutized(alias_path) == absolutized(request_path) || exists|i: int|
            0 <= i < extensions.len() && absolutized(alias_path) == absolutized(request_path) + #[trigger] extensions[i],
{
}

/// Whether a browser field key, as a path, names the path the request points at.
pub fn request_path_is_equal_alias_key_path(alias_path: &str, info: &Info, extensions: &Vec<String>) -> (r:
    bool)
    requires
        is_absolute(alias_path@),
        is_absolute(info@.path),
    ensures
        r == spec_alias_path_hit(alias_path@, spec_resolved_path(info@), crate::options::texts(extensions@)),
{
    let alias = chars_of(absolutize(alias_path).as_str());
    let resolved = info.to_resolved_path();
    let request = chars_of(absolutize(resolved.as_str()).as_str());
    if chars_eq(&alias, &request) {
        return true;
    }
    let mut i: usize = 0;
    while i < extensions.len()
        invariant
            i <= extensions@.len(),
            alias@ == absolutized(alias_path@),
            request@ == absolutized(spec_resolved_path(info@)),
            forall|j: int| 0 <= j < i ==> alias@ != request@ + #[trigger] crate::options::texts(extensions@)[j],
        decreases extensions@.len() - i,
    {
        let with_ext = concat_chars(&request, &chars_of(extensions[i].as_str()));
        if chars_eq(&alias, &with_ext) {
            assert(crate::options::texts(extensions@)[i as int] == extensions@[i as int]@);
            return true;
        }
        assert(crate::options::texts(extensions@)[i as int] == extensions@[i as int]@);
        i = i + 1;
    }
    false
}

/// `base` with `names` joined back onto it, the last name first: the path that a
/// path under a link stands for under the link's real path.
pub open spec fn spec_reattach(base: Seq<char>, names: Seq<Seq<char>>) -> Seq<char>
    decreases names.len(),
{
    if names.len() == 0 {
        base
    } else {
        spec_reattach(spec_join(base, names.last()), names.drop_last())
    }
}

/// Joins `names` back onto `base`, the last name first.
pub fn reattach(base: &str, names: &Vec<String>) -> (r: String)
    ensures
        r@ == spec_reattach(base@, crate::options::texts(names@)),
        is_absolute(base@) ==> is_absolute(r@),
{
    let ghost all = crate::options::texts(names@);
    let mut p = base.to_owned();
    let mut k = names.len();
    assert(all.subrange(0, k as int) =~= all);
    while k > 0
        invariant
            k <= names@.len(),
            all == crate::options::texts(names@),
            spec_reattach(base@, all) == spec_reattach(p@, all.subrange(0, k as int)),
            is_absolute(base@) ==> is_absolute(p@),
        decreases k,
    {
        let ghost sub = all.subrange(0, k as int);
        assert(sub.drop_last() =~= all.subrange(0, k - 1));
        assert(sub.last() == names@[k - 1]@);
        proof {
            if is_absolute(p@) {
                lemma_join_absolute(p@, names@[k - 1]@);
            }
        }
        p = join_path(p.as_str(), names[k - 1].as_str());
        k = k - 1;
    }
    p
}

} // verus!
