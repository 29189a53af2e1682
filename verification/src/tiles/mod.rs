//! The tiles: each turns what it read (a file of the kernel, a D-Bus reply,
//! the clock) into the block it shows.
use vstd::prelude::*;

pub mod battery;
pub mod hostname;
pub mod iwd;
pub mod load;
pub mod memory;
pub mod time;

use crate::text::ParseIntError;

verus! {

broadcast use vstd::string::group_string_axioms;

/// Why a tile could not make its block.
#[derive(Clone, Copy, Debug, PartialEq, Eq, Structural)]
pub enum TileError {
    /// A line or a field that the tile reads is not there.
    InvalidData,
    /// A number that the tile reads is not one.
    ParseInt(ParseIntError),
    /// The bytes that the tile read are not UTF-8.
    Utf8,
    /// No wireless device has the configured interface name.
    InterfaceNotFound,
    /// The network that the device is connected to has no name.
    NetworkNameMissing,
}

impl TileError {
    /// The message that explains the error.
    pub open spec fn message_text(self) -> Seq<char> {
        match self {
            TileError::InvalidData => "invalid data"@,
            TileError::ParseInt(e) => e.message_text(),
            TileError::Utf8 => "invalid utf-8 sequence"@,
            TileError::InterfaceNotFound => "Couldn't find interface"@,
            TileError::NetworkNameMissing => "Unable to get network name"@,
        }
    }

    /// The message that explains the error.
    pub fn message(&self) -> (m: String)
        ensures
            m@ == self.message_text(),
    {
        match self {
            TileError::InvalidData => "invalid data".to_string(),
            TileError::ParseInt(e) => e.message(),
            TileError::Utf8 => "invalid utf-8 sequence".to_string(),
            TileError::InterfaceNotFound => "Couldn't find interface".to_string(),
            TileError::NetworkNameMissing => "Unable to get network name".to_string(),
        }
    }
}

} // verus!
