//! User control event ids.

use vstd::prelude::*;

verus! {

pub const STREAM_BEGIN: u16 = 0;
pub const STREAM_EOF: u16 = 1;
pub const STREAM_DRY: u16 = 2;
pub const SET_BUFFER_LENGTH: u16 = 3;
pub const STREAM_IS_RECORDED: u16 = 4;
pub const PING_REQUEST: u16 = 6;
pub const PING_RESPONSE: u16 = 7;

// FMS 3.5
pub const STREAM_BUFFER_EMPTY: u16 = 31;
pub const STREAM_BUFFER_READY: u16 = 32;

} // verus!
