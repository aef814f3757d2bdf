//! The demo upstream server's argument rules and its `/api/slow` wait.

use vstd::prelude::*;

use vstd::string::*;

use crate::addr::{parse_port, parse_u16, trim, trim_str};

verus! {

/// Longest wait of `/api/slow`, in ms.
pub const MAX_SLOW_MS: u64 = 120_000;

/// Wait of `/api/slow` when no `ms` is given, in ms.
pub const DEFAULT_SLOW_MS: u64 = 1000;

/// The wait `/api/slow?ms=…` performs: the given value (default 1000) capped at
/// `MAX_SLOW_MS`.
pub fn slow_wait_ms(ms: Option<u64>) -> (w: u64)
    ensures
        w == match ms {
            Some(v) => if v > MAX_SLOW_MS {
                MAX_SLOW_MS
            } else {
                v
            },
            None => DEFAULT_SLOW_MS,
        },
{
    let v = match ms {
        Some(v) => v,
        None => DEFAULT_SLOW_MS,
    };
    if v > MAX_SLOW_MS {
        MAX_SLOW_MS
    } else {
        v
    }
}

/// Reads `<PORT> <APP_NAME>` (the arguments after the program name): exactly two, a
/// non-zero decimal port and a name that is not blank; the name is trimmed. `None`
/// means the usage text should be shown.
pub fn parse_demo_args(args: &Vec<String>) -> (res: Option<(u16, String)>)
    ensures
        match res {
            Some((port, name)) => args@.len() == 2 && parse_u16(args@[0]@) == Some(port) && port
                != 0 && name@ == trim(args@[1]@) && name@.len() > 0,
            None => !(args@.len() == 2 && parse_u16(args@[0]@) is Some && parse_u16(args@[0]@)->0
                != 0 && trim(args@[1]@).len() > 0),
        },
{
    if args.len() != 2 {
        return None;
    }
    let port = match parse_port(args[0].as_str()) {
        Some(p) => p,
        None => return None,
    };
    let name = trim_str(args[1].as_str());
    if port == 0 || name.as_str().unicode_len() == 0 {
        return None;
    }
    Some((port, name))
}

} // verus!
