//! The boot screen: the logo banner and the boot log lines.
use crate::log::LogType;
use crate::vga_buffer::{spec_clear, spec_write_str, Screen, Writer};
use vstd::prelude::*;

verus! {

/// The logo shown on the boot screen.
pub const ASCII_LOGO: &'static str = " _____ _____ _____ _____ _____ __          _____ _____ \n|     |  _  | __  |     |   __|  |        |     |   __|\n| | | |     |    -|   --|   __|  |__      |  |  |__   |\n|_|_|_|__|__|__|__|_____|_____|_____|_____|_____|_____|\n                                    |_____|            \n";

pub const VERSION_LINE: &'static str = "Version 0.1.0 - alpha\n\n";

pub const AUTHOR_LINE: &'static str = "Developed by @sa4dus\n\n";

/// The screen after the boot banner is shown on `m`.
pub open spec fn spec_show(m: Screen) -> Screen {
    let m1 = spec_write_str(spec_clear(m), "\n");
    let m2 = spec_write_str(m1, ASCII_LOGO);
    let m3 = spec_write_str(m2, "\n");
    let m4 = spec_write_str(m3, VERSION_LINE);
    let m5 = spec_write_str(m4, AUTHOR_LINE);
    spec_write_str(m5, "\n")
}

/// The screen after a log line of kind `status` with `message` is written.
pub open spec fn spec_log(m: Screen, status: LogType, message: &str) -> Screen {
    let m1 = spec_write_str(m, "[");
    let m2 = spec_write_str(m1, status.spec_header());
    let m3 = spec_write_str(m2, "] ");
    let m4 = spec_write_str(m3, message);
    spec_write_str(m4, "\n")
}

pub struct BootScreen;

impl BootScreen {
    /// Clears the console and shows the logo, the version and the author.
    pub fn show(writer: &mut Writer)
        requires
            old(writer).wf(),
        ensures
            final(writer).wf(),
            final(writer)@ == spec_show(old(writer)@),
    {
        writer.clear_screen();
        writer.write_string("\n");
        writer.write_string(ASCII_LOGO);
        writer.write_string("\n");
        writer.write_string(VERSION_LINE);
        writer.write_string(AUTHOR_LINE);
        writer.write_string("\n");
    }

    /// Writes `[mark] message` on a line of its own, the mark telling the
    /// kind of message.
    pub fn log(writer: &mut Writer, status: LogType, message: &str)
        requires
            old(writer).wf(),
        ensures
            final(writer).wf(),
            final(writer)@ == spec_log(old(writer)@, status, message),
    {
        writer.write_string("[");
        writer.write_string(status.header());
        writer.write_string("] ");
        writer.write_string(message);
        writer.write_string("\n");
    }
}

} // verus!
