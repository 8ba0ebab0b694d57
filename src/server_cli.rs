//! Checks on the server's command-line arguments.
use vstd::prelude::*;
use crate::client_cli::{out_of_range_message, out_of_range_text, invalid_port_message, invalid_port_text};
use crate::text::{chars_of, parse_unsigned, unsigned_text};

verus! {

/// The TCP port the server listens on unless told otherwise.
pub const DEFAULT_SERVER_PORT: u16 = 8888;

/// The lowest TCP port the server accepts.
pub const TCP_PORT_MIN: u16 = 1024;

/// The highest TCP port the server accepts.
pub const TCP_PORT_MAX: u16 = 49151;

/// Checks the server's `--port` argument: a number from 1024 to 49151.
pub fn port_in_range(s: &str) -> (r: Result<u16, String>)
    ensures
        r is Ok <==> (unsigned_text(s@) matches Some(v) && TCP_PORT_MIN <= v <= TCP_PORT_MAX),
        r matches Ok(p) ==> unsigned_text(s@) == Some(p as int),
        r matches Err(m) ==> m@ == (if unsigned_text(s@) matches Some(v) && v <= usize::MAX {
            out_of_range_text(s@, TCP_PORT_MIN as nat, TCP_PORT_MAX as nat)
        } else {
            invalid_port_text(s@)
        }),
{
    let v = chars_of(s);
    match parse_unsigned(&v, usize::MAX as u64) {
        None => Err(invalid_port_message(s)),
        Some(p) => {
            if TCP_PORT_MIN as u64 <= p && p <= TCP_PORT_MAX as u64 {
                Ok(p as u16)
            } else {
                Err(out_of_range_message(s, TCP_PORT_MIN, TCP_PORT_MAX))
            }
        },
    }
}

} // verus!
