//! The HTTP method and content type of a route, and the paths that name
//! them in generated code.
use vstd::prelude::*;

verus! {

/// An HTTP method.
#[derive(Debug, Clone, Copy, PartialEq, Eq)]
pub enum Method {
    Get,
    Put,
    Post,
    Delete,
    Options,
    Head,
    Trace,
    Connect,
    Patch,
}

/// The path that names `m` in generated code.
pub open spec fn method_path(m: Method) -> Seq<char> {
    match m {
        Method::Connect => "::rocket::http::Method::Connect"@,
        Method::Delete => "::rocket::http::Method::Delete"@,
        Method::Get => "::rocket::http::Method::Get"@,
        Method::Head => "::rocket::http::Method::Head"@,
        Method::Options => "::rocket::http::Method::Options"@,
        Method::Patch => "::rocket::http::Method::Patch"@,
        Method::Post => "::rocket::http::Method::Post"@,
        Method::Put => "::rocket::http::Method::Put"@,
        Method::Trace => "::rocket::http::Method::Trace"@,
    }
}

/// A method as it is written into generated code.
pub struct MethodWrapper(pub Method);

impl MethodWrapper {
    /// The path that names the method in generated code.
    pub fn path(&self) -> (r: &'static str)
        ensures
            r@ == method_path(self.0),
    {
        match self.0 {
            Method::Connect => "::rocket::http::Method::Connect",
            Method::Delete => "::rocket::http::Method::Delete",
            Method::Get => "::rocket::http::Method::Get",
            Method::Head => "::rocket::http::Method::Head",
            Method::Options => "::rocket::http::Method::Options",
            Method::Patch => "::rocket::http::Method::Patch",
            Method::Post => "::rocket::http::Method::Post",
            Method::Put => "::rocket::http::Method::Put",
            Method::Trace => "::rocket::http::Method::Trace",
        }
    }
}

/// A media type `top/sub`, as a route's `format` names it.
#[derive(Debug, PartialEq, Eq)]
pub struct ContentType {
    pub ttype: String,
    pub subtype: String,
}

/// A content type as it is written into generated code.
pub struct ContentTypeWrapper(pub ContentType);

} // verus!
