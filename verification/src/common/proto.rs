//! Transport protocol numbers, as Linux gives them.

use vstd::prelude::*;

verus! {

pub const IPPROTO_TCP: u16 = 6;

pub const IPPROTO_UDP: u16 = 17;

} // verus!
