//! The cross-origin headers that every server response carries.
use vstd::prelude::*;

verus! {

/// Permissive cross-origin policy: any origin, methods GET, POST and
/// OPTIONS, any request header, credentials allowed.
pub struct CORS;

pub open spec fn cors_headers() -> Seq<(Seq<char>, Seq<char>)> {
    seq![
        ("Access-Control-Allow-Origin"@, "*"@),
        ("Access-Control-Allow-Methods"@, "GET, POST, OPTIONS"@),
        ("Access-Control-Allow-Headers"@, "*"@),
        ("Access-Control-Allow-Credentials"@, "true"@),
    ]
}

impl CORS {
    /// The headers, as (name, value) pairs, in the order they are set.
    pub fn headers(&self) -> (r: Vec<(String, String)>)
        ensures
            r@.len() == cors_headers().len(),
            forall|i: int|
                0 <= i < r@.len() ==> (#[trigger] r@[i]).0@ == cors_headers()[i].0 && r@[i].1@
                    == cors_headers()[i].1,
    {
        let mut r: Vec<(String, String)> = Vec::new();
        r.push(("Access-Control-Allow-Origin".to_owned(), "*".to_owned()));
        r.push(("Access-Control-Allow-Methods".to_owned(), "GET, POST, OPTIONS".to_owned()));
        r.push(("Access-Control-Allow-Headers".to_owned(), "*".to_owned()));
        r.push(("Access-Control-Allow-Credentials".to_owned(), "true".to_owned()));
        r
    }
}

} // verus!
