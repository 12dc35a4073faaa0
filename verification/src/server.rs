//! Where the API server listens.
use vstd::prelude::*;
use crate::text::{push_str, string_from_chars};

verus! {

broadcast use vstd::string::group_string_axioms;

/// The host the server binds to: the `BIND_ADDRESS` setting, else `127.0.0.1`; always port 3000.
pub open spec fn listen_address(setting: Option<Seq<char>>) -> Seq<char> {
    let host = match setting {
        Some(h) => h,
        None => "127.0.0.1"@,
    };
    host + ":3000"@
}

/// The `host:port` text the server binds to, from the text of the `BIND_ADDRESS` setting.
pub fn server_address(bind_address: Option<&str>) -> (a: String)
    ensures
        a@ == listen_address(crate::modrinth::opt_str(bind_address)),
{
    let mut v: Vec<char> = Vec::new();
    match bind_address {
        Some(h) => push_str(&mut v, h),
        None => push_str(&mut v, "127.0.0.1"),
    }
    push_str(&mut v, ":3000");
    string_from_chars(v.as_slice())
}

/// Whether the server is to try TLS: only where both the certificate and the key path are set.
pub fn wants_tls(cert_path: &Option<String>, key_path: &Option<String>) -> (b: bool)
    ensures
        b == (cert_path is Some && key_path is Some),
{
    cert_path.is_some() && key_path.is_some()
}

} // verus!
