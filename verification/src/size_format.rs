//! Human-readable rendering of byte counts.
//!
//! A count is repeatedly divided by 1024 while it is at least 1024 (at most
//! four times), the matching unit among B, KB, MB, GB and TB is chosen, and
//! the scaled value is printed with exactly two decimal digits, rounded to
//! the nearest hundredth with halves rounding up.

use crate::text::spec_decimal;
use crate::text::spec_two_digits;
use crate::text::u64_to_decimal;
use crate::text::u64_to_two_digits;
use vstd::prelude::*;
use vstd::string::StringExecFns;

verus! {

pub const KIB: u64 = 1024;

pub const MIB: u64 = 1048576;

pub const GIB: u64 = 1073741824;

pub const TIB: u64 = 1099511627776;

/// The unit suffix a byte count is displayed with.
pub open spec fn spec_size_unit(bytes: nat) -> Seq<char> {
    if bytes < KIB {
        "B"@
    } else if bytes < MIB {
        "KB"@
    } else if bytes < GIB {
        "MB"@
    } else if bytes < TIB {
        "GB"@
    } else {
        "TB"@
    }
}

/// The byte count scaled down by the unit's power of 1024, in hundredths,
/// rounded to the nearest hundredth with halves rounding up.
pub open spec fn spec_size_hundredths(bytes: nat) -> nat {
    if bytes < KIB {
        (bytes * 200 + 1) / 2
    } else if bytes < MIB {
        (bytes * 200 + 1024) / 2048
    } else if bytes < GIB {
        (bytes * 200 + 1048576) / 2097152
    } else if bytes < TIB {
        (bytes * 200 + 1073741824) / 2147483648
    } else {
        (bytes * 200 + 1099511627776) / 2199023255552
    }
}

/// The display string for a byte count: the scaled value with two decimal
/// digits, a space, and the unit.
pub open spec fn spec_size_display(bytes: nat) -> Seq<char> {
    let h = spec_size_hundredths(bytes);
    spec_decimal(h / 100) + seq!['.'] + spec_two_digits(h % 100) + seq![' '] + spec_size_unit(
        bytes,
    )
}

/// Renders a byte count as a human-readable size with two decimal digits
/// and a unit among B, KB, MB, GB and TB.
pub fn bytes_to_best_size(bytes: u64) -> (r: String)
    ensures
        r@ == spec_size_display(bytes as nat),
{
    let wide: u128 = bytes as u128 * 200;
    let hundredths_wide: u128 = if bytes < KIB {
        (wide + 1) / 2
    } else if bytes < MIB {
        (wide + 1024) / 2048
    } else if bytes < GIB {
        (wide + 1048576) / 2097152
    } else if bytes < TIB {
        (wide + 1073741824) / 2147483648
    } else {
        (wide + 1099511627776) / 2199023255552
    };
    let unit: &'static str = if bytes < KIB {
        "B"
    } else if bytes < MIB {
        "KB"
    } else if bytes < GIB {
        "MB"
    } else if bytes < TIB {
        "GB"
    } else {
        "TB"
    };
    proof {
        assert(hundredths_wide == spec_size_hundredths(bytes as nat));
        assert(hundredths_wide <= u64::MAX);
    }
    let hundredths: u64 = hundredths_wide as u64;
    let mut s = u64_to_decimal(hundredths / 100);
    s.append(".");
    s.append(u64_to_two_digits(hundredths % 100).as_str());
    s.append(" ");
    s.append(unit);
    proof {
        reveal_strlit(".");
        reveal_strlit(" ");
        assert(s@ =~= spec_size_display(bytes as nat));
    }
    s
}

} // verus!
