//! Paths and bodies of the administrative HTTP interface.

use vstd::prelude::*;
use vstd::string::StringExecFns;

verus! {

/// A response body: a status code and its data.
pub struct Response {
    pub code: u64,
    pub data: String,
}

/// The body of a failed request.
pub fn error_response() -> (r: String)
    ensures
        r@ == Seq::<char>::empty(),
{
    String::new()
}

/// `path` under the first API version.
pub fn v1_path(path: &str) -> (r: String)
    ensures
        r@ == "/v1"@ + path@,
{
    let mut s = String::from_str("/v1");
    s.append(path);
    s
}

pub fn path_list(path: &str) -> (r: String)
    ensures
        r@ == path@ + "/list"@,
{
    let mut s = String::from_str(path);
    s.append("/list");
    s
}

pub fn path_create(path: &str) -> (r: String)
    ensures
        r@ == path@ + "/create"@,
{
    let mut s = String::from_str(path);
    s.append("/create");
    s
}

pub fn path_update(path: &str) -> (r: String)
    ensures
        r@ == path@ + "/update"@,
{
    let mut s = String::from_str(path);
    s.append("/update");
    s
}

pub fn path_delete(path: &str) -> (r: String)
    ensures
        r@ == path@ + "/delete"@,
{
    let mut s = String::from_str(path);
    s.append("/delete");
    s
}

/// The port that the gRPC server listens on.
pub struct GrpcServer {
    pub port: usize,
}

impl GrpcServer {
    pub fn new(port: usize) -> (r: Self)
        ensures
            r.port == port,
    {
        GrpcServer { port }
    }
}

} // verus!
