//! The rules of a periodic command runner: how an interval is read from text,
//! how each refresh of the screen is laid out, and how long to rest between
//! two runs. Running the command and writing to the terminal are left to the
//! caller.

pub mod digits;
pub mod interval;
pub mod report;
pub mod system;
pub mod text;
