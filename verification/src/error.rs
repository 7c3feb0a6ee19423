//! Errors of building a pool.

use vstd::prelude::*;

use crate::text::{
    decimal, decimal_text, law_decimal_reads_back, law_decimal_tells_numbers_apart,
};

verus! {

/// The largest number of slots that a pool can have: indices are 32 bits wide,
/// and slot zero is reserved for the end of the free list.
pub const MAX_SLOTS: usize = 0xFFFF_FFFE;

/// Errors from building a pool.
#[derive(Debug, Clone, PartialEq, Eq, Structural)]
pub enum SlabPoolError {
    /// The capacity must be at least one.
    ZeroCapacity,
    /// The capacity exceeds the slots that can be addressed.
    CapacityOverflow(usize),
}

impl SlabPoolError {
    /// Says in words what is wrong.
    pub fn message(&self) -> (text: String)
        ensures
            text@ == match self {
                SlabPoolError::ZeroCapacity => "capacity must be >= 1, got 0"@,
                SlabPoolError::CapacityOverflow(capacity) => "capacity "@ + decimal(
                    *capacity as nat,
                ) + " exceeds the maximum addressable slot count of "@ + decimal(MAX_SLOTS as nat),
            },
    {
        match self {
            SlabPoolError::ZeroCapacity => "capacity must be >= 1, got 0".to_owned(),
            SlabPoolError::CapacityOverflow(capacity) => {
                let mut text: String = "capacity ".to_owned();
                text.append(decimal_text(*capacity).as_str());
                text.append(" exceeds the maximum addressable slot count of ");
                text.append(decimal_text(MAX_SLOTS).as_str());
                text
            },
        }
    }
}

/// The message of an error tells which error it is, and with which number.
pub proof fn law_messages_tell_errors_apart(
    one: &SlabPoolError,
    other: &SlabPoolError,
    text: String,
    other_text: String,
)
    requires
        call_ensures(SlabPoolError::message, (one,), text),
        call_ensures(SlabPoolError::message, (other,), other_text),
        text@ == other_text@,
    ensures
        *one == *other,
{
    let back = " exceeds the maximum addressable slot count of "@ + decimal(MAX_SLOTS as nat);
    reveal_strlit("capacity must be >= 1, got 0");
    reveal_strlit("capacity ");
    if let SlabPoolError::CapacityOverflow(a) = *one {
        law_decimal_reads_back(a as nat);
        assert(text@ =~= "capacity "@ + decimal(a as nat) + back);
        assert(text@[9] == decimal(a as nat)[0]);
    }
    if let SlabPoolError::CapacityOverflow(b) = *other {
        law_decimal_reads_back(b as nat);
        assert(other_text@ =~= "capacity "@ + decimal(b as nat) + back);
        assert(other_text@[9] == decimal(b as nat)[0]);
    }
    if *one is CapacityOverflow && *other is CapacityOverflow {
        law_decimal_tells_numbers_apart(
            one->CapacityOverflow_0 as nat,
            other->CapacityOverflow_0 as nat,
            "capacity "@,
            back,
        );
    }
}

} // verus!
