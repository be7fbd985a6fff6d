use vstd::prelude::*;

use crate::description::DescriptionData;
use crate::error::Error;
use crate::info::Info;
use crate::parse::opt_text;
use crate::path::is_absolute;
use crate::resolver::{FileSystem, Resolver};
use crate::rules::non_empty;

verus! {

/// A resolved file: its path, the query and fragment of the request, and the
/// description file that governs it.
#[derive(Debug)]
pub struct Resource {
    pub path: String,
    pub query: Option<String>,
    pub fragment: Option<String>,
    pub description: Option<DescriptionData>,
}

/// The text of an optional string, empty when there is none.
pub open spec fn text_of(o: Option<String>) -> Seq<char> {
    match o {
        Some(s) => s@,
        None => Seq::empty(),
    }
}

/// The model of an optional string.
pub open spec fn opt_view(o: Option<String>) -> Option<Seq<char>> {
    match o {
        Some(s) => Some(s@),
        None => None,
    }
}

fn non_empty_string(s: &str) -> (r: Option<String>)
    ensures
        opt_view(r) == non_empty(s@),
{
    if s.is_empty() {
        None
    } else {
        Some(s.to_owned())
    }
}

impl Resource {
    /// The resource an info resolved to, with the description file of its path.
    pub fn new<F: FileSystem>(info: Info, resolver: &Resolver<F>) -> (r: Result<Self, Error>)
        requires
            is_absolute(info@.path),
        ensures
            r matches Err(e) ==> e is UnexpectedJson,
            r matches Ok(res) ==> {
                &&& res.path@ == info@.path
                &&& opt_view(res.query) == non_empty(opt_text(info@.request.query))
                &&& opt_view(res.fragment) == non_empty(opt_text(info@.request.fragment))
                &&& res.description matches Some(d) ==> is_absolute(d.dir()@)
            },
    {
        let path = info.normalized_path().as_str().to_owned();
        let query = non_empty_string(info.request().query());
        let fragment = non_empty_string(info.request().fragment());
        let description = match resolver.pkg_info(path.as_str()) {
            Ok(description) => description,
            Err(e) => {
                return Err(e);
            },
        };
        Ok(Resource { path, query, fragment, description })
    }

    /// The path followed by the query and the fragment.
    pub fn join(&self) -> (r: String)
        ensures
            r@ == self.path@ + text_of(self.query) + text_of(self.fragment),
    {
        let mut buf = self.path.clone();
        match &self.query {
            Some(query) => buf.append(query.as_str()),
            None => {},
        }
        match &self.fragment {
            Some(fragment) => buf.append(fragment.as_str()),
            None => {},
        }
        buf
    }
}

} // verus!
