use path_absolutize::Absolutize;
use vstd::prelude::*;

use crate::text::{chars_of, concat_chars, ends_with, first_is, last_is, seq_ends_with, slice_chars, string_of};

verus! {

/// An absolute (Unix) path.
pub open spec fn is_absolute(p: Seq<char>) -> bool {
    p.len() > 0 && p[0] == '/'
}

/// The components a path keeps after `seg`, given those `kept` before it: an
/// empty or `.` segment adds none, `..` drops the last one (when there is one),
/// and any other segment is added.
pub open spec fn after_segment(kept: Seq<Seq<char>>, seg: Seq<char>) -> Seq<Seq<char>> {
    if seg.len() == 0 || seg == seq!['.'] {
        kept
    } else if seg == seq!['.', '.'] {
        if kept.len() > 0 {
            kept.drop_last()
        } else {
            kept
        }
    } else {
        kept.push(seg)
    }
}

/// The components a path keeps once its `.` and `..` segments are resolved
/// lexically against an empty directory (the root of an absolute path not
/// counted).
pub open spec fn kept_components(p: Seq<char>) -> Seq<Seq<char>>
    decreases p.len(),
{
    if p.len() == 0 {
        Seq::empty()
    } else {
        proof {
            lemma_last_slash(p);
        }
        match last_slash(p) {
            Some(i) => after_segment(kept_components(p.subrange(0, i)), p.subrange(i + 1, p.len() as int)),
            None => after_segment(Seq::empty(), p),
        }
    }
}

/// Components put back together, one `/` between each two.
pub open spec fn joined_components(c: Seq<Seq<char>>) -> Seq<char>
    decreases c.len(),
{
    if c.len() == 0 {
        Seq::empty()
    } else if c.len() == 1 {
        c[0]
    } else {
        joined_components(c.drop_last()) + seq!['/'] + c.last()
    }
}

/// A path that `path_absolutize` normalizes against an empty working directory
/// without running out of components: an absolute path, the empty path, or a
/// relative one that keeps a component once its `.` and `..` segments are
/// resolved (`../x` gives `x`; `.` and `a/..` have nothing left).
pub open spec fn normalizable(p: Seq<char>) -> bool {
    is_absolute(p) || p.len() == 0 || kept_components(p).len() > 0
}

/// What `path_absolutize`'s `absolutize_from` with an empty working directory gives
/// for a path: the empty path stays empty; otherwise the components it keeps once
/// `.` and `..` are resolved lexically, one `/` between each two, after the root
/// for an absolute path.
#[verifier::opaque]
pub open spec fn absolutized(path: Seq<char>) -> Seq<char> {
    if path.len() == 0 {
        path
    } else if is_absolute(path) {
        seq!['/'] + joined_components(kept_components(path))
    } else {
        joined_components(kept_components(path))
    }
}

/// Calls `Path::absolutize_from(Path::new(""))` of `path_absolutize`. The contract
/// claims the result [`absolutized`] states: on Unix the crate keeps a stack of
/// the path's components (the root first for an absolute path, which `..` never
/// removes), drops one for each `..` and joins them with `/`. The call is left out
/// on the paths for which that stack would end empty, where it panics.
#[verifier::external_body]
pub(crate) fn absolutize(path: &str) -> (r: String)
    requires
        normalizable(path@),
    ensures
        r@ == absolutized(path@),
        is_absolute(path@) ==> is_absolute(r@),
{
    let normalized = std::path::Path::new(path).absolutize_from(std::path::Path::new("")).unwrap();
    normalized.to_string_lossy().into_owned()
}

/// `path` normalized, with its trailing slash kept.
pub open spec fn spec_normalized(path: Seq<char>) -> Seq<char> {
    if seq_ends_with(path, seq!['/']) {
        absolutized(path) + seq!['/']
    } else {
        absolutized(path)
    }
}

/// A path whose `.` and `..` segments are resolved.
#[derive(Debug)]
pub struct NormalizedPath(String);

impl View for NormalizedPath {
    type V = Seq<char>;

    closed spec fn view(&self) -> Seq<char> {
        self.0@
    }
}

impl NormalizedPath {
    pub fn new(path: &str) -> (r: Self)
        requires
            normalizable(path@),
        ensures
            r@ == spec_normalized(path@),
            is_absolute(path@) ==> is_absolute(r@),
    {
        let normalized = absolutize(path);
        let c = chars_of(path);
        if last_is(&c, '/') {
            let mut s = normalized;
            s.append("/");
            proof {
                reveal_strlit("/");
            }
            NormalizedPath(s)
        } else {
            NormalizedPath(normalized)
        }
    }

    /// The path as text.
    pub fn as_str(&self) -> (r: &str)
        ensures
            r@ == self@,
    {
        self.0.as_str()
    }

    pub fn duplicate(&self) -> (r: Self)
        ensures
            r@ == self@,
    {
        NormalizedPath(self.0.clone())
    }
}

/// `Path::join` on Unix: an absolute `rel` replaces `base`; otherwise a separator
/// is put between them unless `base` is empty or already ends with one.
pub open spec fn spec_join(base: Seq<char>, rel: Seq<char>) -> Seq<char> {
    if is_absolute(rel) {
        rel
    } else if base.len() == 0 || seq_ends_with(base, seq!['/']) {
        base + rel
    } else {
        base + seq!['/'] + rel
    }
}

pub proof fn lemma_join_absolute(base: Seq<char>, rel: Seq<char>)
    requires
        is_absolute(base),
    ensures
        is_absolute(spec_join(base, rel)),
{
}

/// Joins a relative path onto a base path.
pub fn join_path(base: &str, rel: &str) -> (r: String)
    ensures
        r@ == spec_join(base@, rel@),
{
    let b = chars_of(base);
    let r = chars_of(rel);
    proof {
        if r@.len() > 0 {
            assert(r@.subrange(0, 1)[0] == r@[0]);
            if r@[0] == '/' {
                assert(r@.subrange(0, 1) =~= seq!['/']);
            }
        }
    }
    if first_is(&r, '/') {
        return rel.to_owned();
    }
    if b.len() == 0 || last_is(&b, '/') {
        string_of(&concat_chars(&b, &r))
    } else {
        let mut with_sep = b;
        with_sep.push('/');
        string_of(&concat_chars(&with_sep, &r))
    }
}

/// The index of the last `/` in `p`.
pub open spec fn last_slash(p: Seq<char>) -> Option<int>
    decreases p.len(),
{
    if p.len() == 0 {
        None
    } else if p.last() == '/' {
        Some(p.len() - 1)
    } else {
        last_slash(p.drop_last())
    }
}

pub proof fn lemma_last_slash(p: Seq<char>)
    ensures
        last_slash(p) matches Some(i) ==> 0 <= i < p.len() && p[i] == '/' && forall|j: int|
            i < j < p.len() ==> p[j] != '/',
        last_slash(p) is None ==> forall|j: int| 0 <= j < p.len() ==> p[j] != '/',
    decreases p.len(),
{
    if p.len() > 0 {
        lemma_last_slash(p.drop_last());
        assert forall|j: int| 0 <= j < p.len() - 1 implies p.drop_last()[j] == p[j] by {}
    }
}

/// `p` without the slashes it ends with.
pub open spec fn trim_end_slashes(p: Seq<char>) -> Seq<char>
    decreases p.len(),
{
    if p.len() > 0 && p.last() == '/' {
        trim_end_slashes(p.drop_last())
    } else {
        p
    }
}

/// The parent directory of a path without `.` or `..` segments (`Path::parent`):
/// `None` for the root and for the empty path.
pub open spec fn spec_parent(p: Seq<char>) -> Option<Seq<char>> {
    let q = trim_end_slashes(p);
    if q.len() == 0 {
        None
    } else {
        match last_slash(q) {
            None => Some(Seq::empty()),
            Some(i) => {
                let head = trim_end_slashes(q.subrange(0, i));
                if head.len() == 0 {
                    Some(seq!['/'])
                } else {
                    Some(head)
                }
            },
        }
    }
}

/// The ancestor of `p` that is `n` levels up (`p` itself for `n == 0`).
pub open spec fn nth_parent(p: Seq<char>, n: nat) -> Option<Seq<char>>
    decreases n,
{
    if n == 0 {
        Some(p)
    } else {
        match nth_parent(p, (n - 1) as nat) {
            Some(q) => spec_parent(q),
            None => None,
        }
    }
}

fn trim_end(p: &[char]) -> (r: usize)
    ensures
        r <= p@.len(),
        trim_end_slashes(p@) == p@.subrange(0, r as int),
{
    let mut n = p.len();
    assert(p@.subrange(0, n as int) =~= p@);
    while n > 0 && p[n - 1] == '/'
        invariant
            n <= p@.len(),
            trim_end_slashes(p@) == trim_end_slashes(p@.subrange(0, n as int)),
        decreases n,
    {
        assert(p@.subrange(0, n as int).drop_last() =~= p@.subrange(0, n - 1));
        n = n - 1;
    }
    proof {
        r_trim_done(p@, n as int);
    }
    n
}

proof fn r_trim_done(p: Seq<char>, n: int)
    requires
        0 <= n <= p.len(),
        n == 0 || p[n - 1] != '/',
    ensures
        trim_end_slashes(p.subrange(0, n)) == p.subrange(0, n),
{
}

proof fn lemma_trim_prefix(p: Seq<char>)
    ensures
        trim_end_slashes(p).len() <= p.len(),
        trim_end_slashes(p) == p.subrange(0, trim_end_slashes(p).len() as int),
        trim_end_slashes(p).len() == 0 || trim_end_slashes(p).last() != '/',
    decreases p.len(),
{
    if p.len() > 0 && p.last() == '/' {
        lemma_trim_prefix(p.drop_last());
        let t = trim_end_slashes(p.drop_last());
        assert(p.drop_last().subrange(0, t.len() as int) =~= p.subrange(0, t.len() as int));
    } else {
        assert(p.subrange(0, p.len() as int) =~= p);
    }
}

/// The parent of a path is shorter than the path, and the parent of an absolute
/// path is absolute.
pub proof fn lemma_parent(p: Seq<char>)
    ensures
        spec_parent(p) matches Some(q) ==> q.len() < p.len() && (is_absolute(p) ==> is_absolute(q)),
{
    let q = trim_end_slashes(p);
    lemma_trim_prefix(p);
    if q.len() > 0 {
        lemma_last_slash(q);
        assert(q[0] == p[0]);
        if last_slash(q) is None {
            assert(q[0] != '/');
        }
        if let Some(i) = last_slash(q) {
            let h = q.subrange(0, i);
            lemma_trim_prefix(h);
            let head = trim_end_slashes(h);
            if head.len() == 0 {
                assert(q.last() != '/');
                assert(i < q.len() - 1);
            } else {
                assert(head[0] == h[0]);
                assert(h[0] == q[0]);
                assert(q[0] == p[0]);
            }
        }
    }
}

/// The parent directory of a path.
pub fn parent_path(p: &str) -> (r: Option<String>)
    ensures
        match (r, spec_parent(p@)) {
            (Some(a), Some(b)) => a@ == b,
            (None, None) => true,
            _ => false,
        },
{
    let c = chars_of(p);
    let n = trim_end(&c);
    let q = slice_chars(&c, 0, n);
    if q.len() == 0 {
        return None;
    }
    let mut i = q.len();
    proof {
        lemma_last_slash(q@);
        assert(q@.subrange(0, i as int) =~= q@);
    }
    while i > 0 && q[i - 1] != '/'
        invariant
            i <= q@.len(),
            last_slash(q@) == last_slash(q@.subrange(0, i as int)),
        decreases i,
    {
        assert(q@.subrange(0, i as int).drop_last() =~= q@.subrange(0, i - 1));
        i = i - 1;
    }
    if i == 0 {
        assert(last_slash(q@.subrange(0, 0)) is None);
        return Some(String::new());
    }
    assert(q@.subrange(0, i as int).last() == '/');
    assert(last_slash(q@) == Some(i - 1));
    let head_all = slice_chars(&q, 0, i - 1);
    let m = trim_end(&head_all);
    if m == 0 {
        let root: Vec<char> = vec!['/'];
        assert(root@ =~= seq!['/']);
        Some(string_of(&root))
    } else {
        Some(string_of(&slice_chars(&head_all, 0, m)))
    }
}


/// The last component of a path without `.` or `..` segments (`Path::file_name`):
/// `None` for the root and for the empty path.
pub open spec fn spec_file_name(p: Seq<char>) -> Option<Seq<char>> {
    let q = trim_end_slashes(p);
    if q.len() == 0 {
        None
    } else {
        match last_slash(q) {
            None => Some(q),
            Some(i) => Some(q.subrange(i + 1, q.len() as int)),
        }
    }
}

/// The last component of a path.
pub fn file_name(p: &str) -> (r: Option<String>)
    ensures
        match (r, spec_file_name(p@)) {
            (Some(a), Some(b)) => a@ == b,
            (None, None) => true,
            _ => false,
        },
{
    let c = chars_of(p);
    let n = trim_end(&c);
    let q = slice_chars(&c, 0, n);
    if q.len() == 0 {
        return None;
    }
    let mut i = q.len();
    proof {
        assert(q@.subrange(0, i as int) =~= q@);
    }
    while i > 0 && q[i - 1] != '/'
        invariant
            i <= q@.len(),
            last_slash(q@) == last_slash(q@.subrange(0, i as int)),
        decreases i,
    {
        assert(q@.subrange(0, i as int).drop_last() =~= q@.subrange(0, i - 1));
        i = i - 1;
    }
    if i == 0 {
        assert(last_slash(q@.subrange(0, 0)) is None);
        return Some(string_of(&q));
    }
    assert(q@.subrange(0, i as int).last() == '/');
    assert(last_slash(q@) == Some(i - 1));
    Some(string_of(&slice_chars(&q, i, q.len())))
}

/// The path ends with the components of `name` (`Path::ends_with` for a name
/// made of plain components).
pub open spec fn ends_with_component(p: Seq<char>, name: Seq<char>) -> bool {
    let q = trim_end_slashes(p);
    seq_ends_with(q, name) && (q.len() == name.len() || q[q.len() - name.len() - 1] == '/')
}

/// Whether the path ends with the components of `name`.
pub fn path_ends_with(p: &str, name: &str) -> (r: bool)
    ensures
        r == ends_with_component(p@, name@),
{
    let c = chars_of(p);
    let n = trim_end(&c);
    let q = slice_chars(&c, 0, n);
    let nm = chars_of(name);
    if !ends_with(&q, &nm) {
        return false;
    }
    q.len() == nm.len() || q[q.len() - nm.len() - 1] == '/'
}

/// The path with the slashes it ends with taken off, the root staying `/`: what
/// rebuilding a normalized path from its components gives.
pub open spec fn spec_rebuilt(p: Seq<char>) -> Seq<char> {
    if trim_end_slashes(p).len() == 0 && p.len() > 0 {
        seq!['/']
    } else {
        trim_end_slashes(p)
    }
}

/// Rebuilds a path from its components.
pub fn rebuild_path(p: &str) -> (r: String)
    ensures
        r@ == spec_rebuilt(p@),
        is_absolute(p@) ==> is_absolute(r@),
{
    let c = chars_of(p);
    let n = trim_end(&c);
    proof {
        lemma_trim_prefix(p@);
    }
    if n == 0 && c.len() > 0 {
        let root: Vec<char> = vec!['/'];
        assert(root@ =~= seq!['/']);
        return string_of(&root);
    }
    string_of(&slice_chars(&c, 0, n))
}

/// Whether a path is absolute.
pub fn is_absolute_path(p: &str) -> (r: bool)
    ensures
        r == is_absolute(p@),
{
    let c = chars_of(p);
    c.len() > 0 && c[0] == '/'
}

} // verus!
