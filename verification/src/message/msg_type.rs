//! Message type ids.

use vstd::prelude::*;

verus! {

pub const SET_CHUNK_SIZE: u8 = 0x01;
pub const ABORT: u8 = 0x02;
pub const ACK: u8 = 0x03;
pub const USER_CONTROL: u8 = 0x04;
pub const WINDOW_ACK_SIZE: u8 = 0x05;
pub const SET_PEER_BANDWIDTH: u8 = 0x06;

pub const AUDIO: u8 = 0x08;
pub const VIDEO: u8 = 0x09;

pub const DATA_AMF3: u8 = 0x0F;
pub const SHARED_OBJECT_AMF3: u8 = 0x10;
pub const COMMAND_AMF3: u8 = 0x11;
pub const DATA_AMF0: u8 = 0x12;
pub const SHARED_OBJECT_AMF0: u8 = 0x13;
pub const COMMAND_AMF0: u8 = 0x14;

pub const AGGREGATE: u8 = 0x16;

pub const SILENT_RECONNECT: u8 = 0x20;

} // verus!
