//! Packets of the sensor's microcontroller.
use vstd::prelude::*;

verus! {

/// Microcontroller commands that the library recognises by name.
#[derive(Debug, Clone, Copy, PartialEq, Eq)]
pub enum Command {
    DownloadConfig,
}

impl Command {
    pub open spec fn code(self) -> u8 {
        match self {
            Command::DownloadConfig => 0x90,
        }
    }

    pub fn as_u8(self) -> (code: u8)
        ensures
            code == self.code(),
    {
        match self {
            Command::DownloadConfig => 0x90,
        }
    }
}

/// A packet: the command it answers, its payload, and the trailing byte.
#[derive(Debug, Clone, PartialEq, Eq)]
pub struct McuPacket {
    pub command: u8,
    pub payload: Vec<u8>,
    pub trailer: Option<u8>,
}

impl McuPacket {
    pub fn is_command(&self, command: Command) -> (same: bool)
        ensures
            same == (self.command == command.code()),
    {
        self.command == command.as_u8()
    }
}

} // verus!
