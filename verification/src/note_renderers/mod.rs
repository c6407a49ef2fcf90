//! What a tuner shows of a detected note. Writing to the terminal is the
//! caller's; the lines to write are made here.
pub mod cmd_line;
pub mod simple_command_line;
