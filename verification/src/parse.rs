use vstd::prelude::*;

use crate::kind::{get_target_kind, spec_target_kind, PathKind};
use crate::text::{chars_of, seq_ends_with, slice_chars, string_of};

verus! {

/// A request split into its target, query (`?...`) and fragment (`#...`).
#[derive(Debug)]
pub struct Request {
    target: String,
    query: Option<String>,
    fragment: Option<String>,
    kind: PathKind,
    is_directory: bool,
}

/// The mathematical model of a [`Request`].
pub struct RequestView {
    pub target: Seq<char>,
    pub query: Option<Seq<char>>,
    pub fragment: Option<Seq<char>>,
    pub kind: PathKind,
    pub is_directory: bool,
}

impl View for Request {
    type V = RequestView;

    closed spec fn view(&self) -> RequestView {
        RequestView {
            target: self.target@,
            query: match self.query {
                Some(q) => Some(q@),
                None => None,
            },
            fragment: match self.fragment {
                Some(f) => Some(f@),
                None => None,
            },
            kind: self.kind,
            is_directory: self.is_directory,
        }
    }
}

/// The query of a request, empty when there is none.
pub open spec fn opt_text(o: Option<Seq<char>>) -> Seq<char> {
    match o {
        Some(s) => s,
        None => Seq::empty(),
    }
}

/// The request `target` with the given query and fragment.
pub open spec fn request_of(
    target: Seq<char>,
    query: Option<Seq<char>>,
    fragment: Option<Seq<char>>,
) -> RequestView {
    RequestView {
        target,
        query,
        fragment,
        kind: spec_target_kind(target),
        is_directory: seq_ends_with(target, seq!['/']),
    }
}

/// The scanning state of `parse_identifier`.
#[derive(PartialEq, Eq, Structural)]
pub enum ParseStats {
    Request,
    Query,
    Fragment,
    Start,
}

/// State, last query start and fragment start after scanning the first `n` characters.
pub open spec fn scan(s: Seq<char>, n: nat) -> (ParseStats, Option<int>, Option<int>)
    decreases n,
{
    if n == 0 || n > s.len() {
        (ParseStats::Start, None, None)
    } else {
        let (st, q, f) = scan(s, (n - 1) as nat);
        let i = n - 1;
        let c = s[i];
        if c == '#' {
            match st {
                ParseStats::Request | ParseStats::Query => (ParseStats::Fragment, q, Some(i)),
                ParseStats::Start => (ParseStats::Request, q, f),
                ParseStats::Fragment => (st, q, f),
            }
        } else if c == '?' {
            match st {
                ParseStats::Fragment => (st, q, f),
                _ => (ParseStats::Query, Some(i), f),
            }
        } else {
            match st {
                ParseStats::Start => (ParseStats::Request, q, f),
                _ => (st, q, f),
            }
        }
    }
}

proof fn lemma_scan(s: Seq<char>, n: nat)
    requires
        n <= s.len(),
    ensures
        ({
            let (st, q, f) = scan(s, n);
            &&& (f is Some <==> st == ParseStats::Fragment)
            &&& q matches Some(qi) ==> 0 <= qi < n && s[qi] == '?'
            &&& f matches Some(fi) ==> 0 <= fi < n && s[fi] == '#'
            &&& (q is Some && f is Some) ==> q->0 < f->0
        }),
    decreases n,
{
    if n > 0 {
        lemma_scan(s, (n - 1) as nat);
    }
}

/// Target, query and fragment of an identifier (`Request::parse_identifier`).
pub open spec fn spec_parse_identifier(s: Seq<char>) -> (
    Seq<char>,
    Option<Seq<char>>,
    Option<Seq<char>>,
) {
    let (_, q, f) = scan(s, s.len());
    match (q, f) {
        (None, None) => (s, None, None),
        (None, Some(j)) => (s.subrange(0, j), None, Some(s.subrange(j, s.len() as int))),
        (Some(i), None) => (s.subrange(0, i), Some(s.subrange(i, s.len() as int)), None),
        (Some(i), Some(j)) => (
            s.subrange(0, i),
            Some(s.subrange(i, j)),
            Some(s.subrange(j, s.len() as int)),
        ),
    }
}

/// The request parsed from `s` (`Request::from_request`).
pub open spec fn spec_from_request(s: Seq<char>) -> RequestView {
    let (t, q, f) = spec_parse_identifier(s);
    request_of(t, q, f)
}

fn opt_string(o: Option<Vec<char>>) -> (r: Option<String>)
    ensures
        match (o, r) {
            (Some(a), Some(b)) => a@ == b@,
            (None, None) => true,
            _ => false,
        },
{
    match o {
        Some(v) => Some(string_of(&v)),
        None => None,
    }
}

fn clone_opt(o: &Option<String>) -> (r: Option<String>)
    ensures
        r == *o,
{
    match o {
        Some(s) => Some(s.clone()),
        None => None,
    }
}

/// Whether a target asks for a directory.
pub fn is_target_directory(target: &[char]) -> (r: bool)
    ensures
        r == seq_ends_with(target@, seq!['/']),
{
    let r = target.len() > 0 && target[target.len() - 1] == '/';
    proof {
        if target@.len() > 0 {
            let sub = target@.subrange(target@.len() - 1, target@.len() as int);
            assert(sub[0] == target@[target@.len() - 1]);
            if r {
                assert(sub =~= seq!['/']);
            }
        }
    }
    r
}

/// Splits `ident` into target, query and fragment (`Request::parse_identifier`).
pub fn parse_identifier(ident: &[char]) -> (r: (Vec<char>, Option<Vec<char>>, Option<Vec<char>>))
    ensures
        ({
            let (t, q, f) = spec_parse_identifier(ident@);
            &&& r.0@ == t
            &&& match (r.1, q) {
                (Some(a), Some(b)) => a@ == b,
                (None, None) => true,
                _ => false,
            }
            &&& match (r.2, f) {
                (Some(a), Some(b)) => a@ == b,
                (None, None) => true,
                _ => false,
            }
        }),
{
    let mut query: Option<usize> = None;
    let mut fragment: Option<usize> = None;
    let mut stats = ParseStats::Start;
    let mut index: usize = 0;
    while index < ident.len()
        invariant
            index <= ident@.len(),
            scan(ident@, index as nat) == (stats, match query {
                Some(i) => Some(i as int),
                None => None,
            }, match fragment {
                Some(i) => Some(i as int),
                None => None,
            }),
        decreases ident@.len() - index,
    {
        let c = ident[index];
        if c == '#' {
            match stats {
                ParseStats::Request | ParseStats::Query => {
                    stats = ParseStats::Fragment;
                    fragment = Some(index);
                },
                ParseStats::Start => {
                    stats = ParseStats::Request;
                },
                ParseStats::Fragment => {},
            }
        } else if c == '?' {
            match stats {
                ParseStats::Request | ParseStats::Query | ParseStats::Start => {
                    stats = ParseStats::Query;
                    query = Some(index);
                },
                ParseStats::Fragment => {},
            }
        } else {
            match stats {
                ParseStats::Start => {
                    stats = ParseStats::Request;
                },
                _ => {},
            }
        }
        index = index + 1;
    }
    proof {
        lemma_scan(ident@, ident@.len());
    }
    let n = ident.len();
    match (query, fragment) {
        (None, None) => (slice_chars(ident, 0, n), None, None),
        (None, Some(j)) => (slice_chars(ident, 0, j), None, Some(slice_chars(ident, j, n))),
        (Some(i), None) => (slice_chars(ident, 0, i), Some(slice_chars(ident, i, n)), None),
        (Some(i), Some(j)) => (
            slice_chars(ident, 0, i),
            Some(slice_chars(ident, i, j)),
            Some(slice_chars(ident, j, n)),
        ),
    }
}

/// Parsing a request loses nothing: its target, query and fragment written one
/// after the other give back the string that was parsed; the query starts with
/// `?` and the fragment with `#` whenever they are present.
pub proof fn law_request_parts_concatenate(s: Seq<char>)
    ensures
        ({
            let r = spec_from_request(s);
            &&& r.target + opt_text(r.query) + opt_text(r.fragment) == s
            &&& r.query matches Some(q) ==> q.len() > 0 && q[0] == '?'
            &&& r.fragment matches Some(f) ==> f.len() > 0 && f[0] == '#'
        }),
{
    lemma_scan(s, s.len());
    let (_, q, f) = scan(s, s.len());
    match (q, f) {
        (None, None) => {
            assert(s + Seq::<char>::empty() + Seq::<char>::empty() =~= s);
        },
        (None, Some(j)) => {
            assert(s.subrange(0, j) + Seq::<char>::empty() + s.subrange(j, s.len() as int) =~= s);
        },
        (Some(i), None) => {
            assert(s.subrange(0, i) + s.subrange(i, s.len() as int) + Seq::<char>::empty() =~= s);
        },
        (Some(i), Some(j)) => {
            assert(s.subrange(0, i) + s.subrange(i, j) + s.subrange(j, s.len() as int) =~= s);
        },
    }
}

impl Request {
    /// The empty relative request (`Request::default`).
    pub fn new_default() -> (r: Self)
        ensures
            r@ == request_of(Seq::empty(), None, None),
    {
        Request {
            target: String::new(),
            query: None,
            fragment: None,
            kind: PathKind::Relative,
            is_directory: false,
        }
    }

    /// Parses a request string.
    pub fn from_request(request: &str) -> (r: Self)
        ensures
            r@ == spec_from_request(request@),
    {
        let chars = chars_of(request);
        let (target, query, fragment) = parse_identifier(&chars);
        let is_directory = is_target_directory(&target);
        let kind = get_target_kind(&target);
        Request {
            target: string_of(&target),
            query: opt_string(query),
            fragment: opt_string(fragment),
            kind,
            is_directory,
        }
    }

    pub fn target(&self) -> (r: &str)
        ensures
            r@ == self@.target,
    {
        self.target.as_str()
    }

    pub fn query(&self) -> (r: &str)
        ensures
            r@ == opt_text(self@.query),
    {
        match &self.query {
            Some(q) => q.as_str(),
            None => {
                proof {
                    reveal_strlit("");
                }
                ""
            },
        }
    }

    pub fn fragment(&self) -> (r: &str)
        ensures
            r@ == opt_text(self@.fragment),
    {
        match &self.fragment {
            Some(f) => f.as_str(),
            None => {
                proof {
                    reveal_strlit("");
                }
                ""
            },
        }
    }

    pub fn kind(&self) -> (r: PathKind)
        ensures
            r == self@.kind,
    {
        self.kind
    }

    pub fn is_directory(&self) -> (r: bool)
        ensures
            r == self@.is_directory,
    {
        self.is_directory
    }

    /// The same request with another target.
    pub fn with_target(self, target: &str) -> (r: Self)
        ensures
            r@ == request_of(target@, self@.query, self@.fragment),
    {
        let chars = chars_of(target);
        let is_directory = is_target_directory(&chars);
        let kind = get_target_kind(&chars);
        Request { kind, target: string_of(&chars), is_directory, ..self }
    }

    /// The same request with another query; `""` removes it.
    pub fn with_query(self, query: &str) -> (r: Self)
        ensures
            r@ == (RequestView { query: if query@.len() == 0 { None } else { Some(query@) }, ..self@ }),
    {
        let q = if query.is_empty() { None } else { Some(query.to_owned()) };
        Request { query: q, ..self }
    }

    /// The same request with another fragment; `""` removes it.
    pub fn with_fragment(self, fragment: &str) -> (r: Self)
        ensures
            r@ == (RequestView { fragment: if fragment@.len() == 0 { None } else { Some(fragment@) }, ..self@ }),
    {
        let f = if fragment.is_empty() { None } else { Some(fragment.to_owned()) };
        Request { fragment: f, ..self }
    }

    /// A copy of this request.
    pub fn duplicate(&self) -> (r: Self)
        ensures
            r@ == self@,
    {
        Request {
            target: self.target.clone(),
            query: clone_opt(&self.query),
            fragment: clone_opt(&self.fragment),
            kind: self.kind,
            is_directory: self.is_directory,
        }
    }

    /// The request written back as one string: target, query, fragment.
    pub fn display(&self) -> (r: String)
        ensures
            r@ == self@.target + opt_text(self@.query) + opt_text(self@.fragment),
    {
        let mut s = self.target.clone();
        s.append(self.query());
        s.append(self.fragment());
        s
    }
}

} // verus!
