//! Lines of the agent's log file: a timestamp and the message.
use vstd::prelude::*;

use crate::text::{dec, dec_u64, push_all, push_str, string_of};

verus! {

/// The timestamp prefix: `[seconds since the epoch]`, or `[?]` when the
/// clock is before the epoch.
pub open spec fn stamp(secs: Option<u64>) -> Seq<char> {
    match secs {
        Some(s) => "["@ + dec(s as nat) + "]"@,
        None => "[?]"@,
    }
}

/// The timestamp prefix (see [`stamp`]).
pub fn timestamp(secs: Option<u64>) -> (r: String)
    ensures
        r@ == stamp(secs),
{
    match secs {
        Some(s) => {
            let mut v: Vec<char> = Vec::new();
            push_str(&mut v, "[");
            let d = dec_u64(s);
            push_all(&mut v, d.as_slice());
            push_str(&mut v, "]");
            string_of(v.as_slice())
        },
        None => "[?]".to_owned(),
    }
}

/// A log line: timestamp, a space, the message.
pub fn log(secs: Option<u64>, msg: &str) -> (r: String)
    ensures
        r@ == stamp(secs) + " "@ + msg@,
{
    let t = timestamp(secs);
    let mut v: Vec<char> = Vec::new();
    push_str(&mut v, t.as_str());
    push_str(&mut v, " ");
    push_str(&mut v, msg);
    string_of(v.as_slice())
}

} // verus!
