use vstd::prelude::*;

verus! {

/// The errors of the resolver.
#[derive(Debug)]
pub enum Error {
    Io(std::io::Error),
    UnexpectedJson((String, String)),
    UnexpectedValue(String),
    ResolveFailedTag,
    Overflow,
    CantFindTsConfig(String),
}

/// The message of an `UnexpectedValue` error, if it is one.
pub open spec fn unexpected_message(e: Error) -> Option<Seq<char>> {
    match e {
        Error::UnexpectedValue(m) => Some(m@),
        _ => None,
    }
}

/// An `UnexpectedValue` error made of a fixed text followed by `detail`.
pub fn unexpected(text: &str, detail: &str) -> (e: Error)
    ensures
        unexpected_message(e) == Some(text@ + detail@),
{
    let mut m = String::from_str(text);
    m.append(detail);
    Error::UnexpectedValue(m)
}

/// `a` followed by `b`.
pub fn cat(a: &str, b: &str) -> (r: String)
    ensures
        r@ == a@ + b@,
{
    let mut s = String::from_str(a);
    s.append(b);
    s
}

impl From<std::io::Error> for Error {
    /// An I/O error of the resolver.
    fn from(value: std::io::Error) -> (r: Self) {
        Error::Io(value)
    }
}

impl vstd::std_specs::convert::FromSpecImpl<std::io::Error> for Error {
    open spec fn obeys_from_spec() -> bool {
        true
    }

    open spec fn from_spec(v: std::io::Error) -> Error {
        Error::Io(v)
    }
}

} // verus!
