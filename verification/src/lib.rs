use vstd::prelude::*;

pub mod text;
pub mod parse;
pub mod records;
pub mod exclude;
pub mod walk;
pub mod batch;
pub mod stats;
pub mod confirm;
pub mod args;

use crate::text::{append_bytes, ascii_bytes, push_lit};

verus! {

/// Run configuration: credentials, include/exclude roots and the batch size.
/// Paths and credential strings are held as raw bytes, exactly as they are
/// written to the transfer executable's list files and argument vector.
pub struct Config {
    pub username: Vec<u8>,
    pub password: Vec<u8>,
    pub encryption_key: Vec<u8>,
    pub device_name: Vec<u8>,
    pub notify_email: Vec<u8>,
    pub includes: Vec<Vec<u8>>,
    pub excludes: Vec<Vec<u8>>,
    pub batch_size: usize,
}

/// The batch size used for uploads when the configuration does not give one.
pub fn default_batch_size() -> (n: usize)
    ensures
        n == 1000,
{
    1000
}

/// Joins an error context message to an underlying error text, as
/// `<msg>: <err>`.
pub fn context(msg: &Vec<u8>, err: &Vec<u8>) -> (r: Vec<u8>)
    ensures
        r@ == msg@ + ascii_bytes(": "@) + err@,
{
    proof {
        reveal_strlit(": ");
    }
    let mut r: Vec<u8> = Vec::new();
    append_bytes(&mut r, msg);
    push_lit(&mut r, ": ");
    append_bytes(&mut r, err);
    r
}

} // verus!
