//! Relative timestamps for history rows.
//!
//! History entries carry their insertion time as Unix seconds; list rows
//! show how long ago that was, in the coarsest sensible unit.

use vstd::prelude::*;

use vstd::string::StringExecFns;

use crate::decimal::spec_decimal;

verus! {

/// Relies on `std::time::SystemTime::now`: the current time, reduced to
/// whole seconds since the Unix epoch (zero for a clock set before it).
/// Nothing can be promised of the clock's value.
#[verifier::external_body]
pub(crate) fn now_unix_seconds() -> u64 {
    std::time::SystemTime::now().duration_since(std::time::UNIX_EPOCH).map(
        |d| d.as_secs(),
    ).unwrap_or(0)
}

/// How an age of `diff` seconds is worded: under half a minute "Just now",
/// then whole minutes, hours and days, with a singular form exactly for one
/// unit.
pub open spec fn spec_age(diff: u64) -> Seq<char> {
    if diff < 30 {
        "Just now"@
    } else if diff < 3600 {
        let m = diff / 60;
        spec_decimal(m as nat) + (if m == 1 {
            " minute ago"@
        } else {
            " minutes ago"@
        })
    } else if diff < 86400 {
        let hs = diff / 3600;
        spec_decimal(hs as nat) + (if hs == 1 {
            " hour ago"@
        } else {
            " hours ago"@
        })
    } else {
        let d = diff / 86400;
        spec_decimal(d as nat) + (if d == 1 {
            " day ago"@
        } else {
            " days ago"@
        })
    }
}

/// Word an age of `diff` seconds.
pub fn format_age(diff: u64) -> (s: String)
    ensures
        s@ == spec_age(diff),
{
    if diff < 30 {
        let mut s = String::new();
        s.append("Just now");
        s
    } else if diff < 3600 {
        let minutes = diff / 60;
        let mut s = crate::decimal::u64_to_string(minutes);
        if minutes == 1 {
            s.append(" minute ago");
        } else {
            s.append(" minutes ago");
        }
        s
    } else if diff < 86400 {
        let hours = diff / 3600;
        let mut s = crate::decimal::u64_to_string(hours);
        if hours == 1 {
            s.append(" hour ago");
        } else {
            s.append(" hours ago");
        }
        s
    } else {
        let days = diff / 86400;
        let mut s = crate::decimal::u64_to_string(days);
        if days == 1 {
            s.append(" day ago");
        } else {
            s.append(" days ago");
        }
        s
    }
}

/// Word how long ago `timestamp` was, against the clock now.  The result
/// depends on the clock; the wording itself is what `format_age` pins down.
pub fn format_timestamp(timestamp: u64) -> String {
    let now = now_unix_seconds();
    let diff = if now >= timestamp {
        now - timestamp
    } else {
        0
    };
    format_age(diff)
}

} // verus!
