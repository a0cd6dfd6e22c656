//! Address family numbers, as Linux gives them.

use vstd::prelude::*;

verus! {

pub const AF_UNIX: u16 = 1;

pub const AF_INET: u16 = 2;

pub const AF_INET6: u16 = 10;

pub const AF_NETLINK: u16 = 16;

} // verus!
