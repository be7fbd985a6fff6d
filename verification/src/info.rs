use vstd::prelude::*;

use crate::parse::{Request, RequestView};
use crate::path::{is_absolute, join_path, lemma_join_absolute, normalizable, spec_join, spec_normalized, NormalizedPath};
use crate::text::str_eq;

verus! {

/// A directory together with the request to resolve in it.
#[derive(Debug)]
pub struct Info {
    path: NormalizedPath,
    request: Request,
}

/// The model of an [`Info`].
pub struct InfoView {
    pub path: Seq<char>,
    pub request: RequestView,
}

impl View for Info {
    type V = InfoView;

    closed spec fn view(&self) -> InfoView {
        InfoView { path: self.path@, request: self.request@ }
    }
}

/// The path an info points at: its directory joined with its target.
pub open spec fn spec_resolved_path(v: InfoView) -> Seq<char> {
    if v.request.target.len() == 0 || v.request.target == seq!['.'] {
        v.path
    } else {
        spec_normalized(spec_join(v.path, v.request.target))
    }
}

impl Info {
    pub fn new(path: &str, request: Request) -> (r: Self)
        requires
            normalizable(path@),
        ensures
            r@ == (InfoView { path: spec_normalized(path@), request: request@ }),
            is_absolute(path@) ==> is_absolute(r@.path),
    {
        Info { path: NormalizedPath::new(path), request }
    }

    /// An info for a directory with the empty request (`Info::from`).
    pub fn from_path(path: NormalizedPath) -> (r: Self)
        ensures
            r@ == (InfoView { path: path@, request: crate::parse::request_of(Seq::empty(), None, None) }),
    {
        Info { path, request: Request::new_default() }
    }

    pub fn with_path(self, path: &str) -> (r: Self)
        requires
            normalizable(path@),
        ensures
            r@ == (InfoView { path: spec_normalized(path@), request: self@.request }),
            is_absolute(path@) ==> is_absolute(r@.path),
    {
        Info { path: NormalizedPath::new(path), ..self }
    }

    pub fn with_request(self, request: Request) -> (r: Self)
        ensures
            r@ == (InfoView { path: self@.path, request: request@ }),
    {
        Info { request, ..self }
    }

    pub fn with_target(self, target: &str) -> (r: Self)
        ensures
            r@ == (InfoView {
                path: self@.path,
                request: crate::parse::request_of(target@, self@.request.query, self@.request.fragment),
            }),
    {
        let request = self.request.with_target(target);
        Info { request, path: self.path }
    }

    pub fn normalized_path(&self) -> (r: &NormalizedPath)
        ensures
            r@ == self@.path,
    {
        &self.path
    }

    pub fn request(&self) -> (r: &Request)
        ensures
            r@ == self@.request,
    {
        &self.request
    }

    pub fn duplicate(&self) -> (r: Self)
        ensures
            r@ == self@,
    {
        Info { path: self.path.duplicate(), request: self.request.duplicate() }
    }

    /// The directory joined with the target, normalized.
    pub fn to_resolved_path(&self) -> (r: String)
        requires
            is_absolute(self@.path),
        ensures
            r@ == spec_resolved_path(self@),
            is_absolute(r@),
    {
        let target = self.request.target();
        proof {
            reveal_strlit(".");
            assert("."@ =~= seq!['.']);
        }
        if target.is_empty() || str_eq(target, ".") {
            proof {
                reveal_strlit(".");
            }
            return self.path.as_str().to_owned();
        }
        proof {
            reveal_strlit(".");
        }
        let joined = join_path(self.path.as_str(), target);
        proof {
            lemma_join_absolute(self@.path, target@);
        }
        let p = NormalizedPath::new(joined.as_str());
        p.as_str().to_owned()
    }
}

} // verus!
