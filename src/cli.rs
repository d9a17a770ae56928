//! The command shell: a line editor over decoded keys that echoes to the
//! console and runs a command when a line is submitted.
use crate::vga_buffer::{
    printable, shown_bytes, spec_clear, spec_move_back, spec_write_byte, spec_write_bytes,
    spec_write_str, Screen, Writer,
};
use vstd::prelude::*;
use vstd::utf8::{encode_scalar, encode_utf8};

verus! {

/// The prompt shown before each line.
pub const PROMPT: &'static str = "> ";

pub const HELP_TEXT: &'static str = "Available commands:\n  help     - Show this help menu\n  hello    - Print 'Hello, World!'\n  clear    - Clear the screen\n  shutdown - Power off the system\n";

pub const HELLO_TEXT: &'static str = "Hello, World!\n";

pub const SHUTDOWN_TEXT: &'static str = "Shutting down...\n";

pub const UNKNOWN_TEXT: &'static str = "Unknown command. Type 'help' for a list of commands.\n";

/// A key as the keyboard decoder reports it.
#[derive(Clone, Copy, PartialEq, Eq, Debug)]
pub enum KeyInput {
    /// A key that stands for a character.
    Unicode(char),
    /// A key with no character, such as a modifier or a function key.
    Raw,
}

/// A submitted line, by what it asks for.
#[derive(Clone, Copy, PartialEq, Eq, Structural, Debug)]
pub enum Command {
    Help,
    Hello,
    Clear,
    Shutdown,
    Empty,
    Unknown,
}

/// The characters that `char::is_whitespace` accepts: those with the
/// Unicode White_Space property.
pub open spec fn is_white_space(c: char) -> bool {
    let v = c as u32;
    (9 <= v <= 13) || v == 0x20 || v == 0x85 || v == 0xa0 || v == 0x1680 || (0x2000 <= v <= 0x200a)
        || v == 0x2028 || v == 0x2029 || v == 0x202f || v == 0x205f || v == 0x3000
}

pub fn white_space(c: char) -> (r: bool)
    ensures
        r == is_white_space(c),
{
    let v = c as u32;
    (9 <= v && v <= 13) || v == 0x20 || v == 0x85 || v == 0xa0 || v == 0x1680 || (0x2000 <= v && v
        <= 0x200a) || v == 0x2028 || v == 0x2029 || v == 0x202f || v == 0x205f || v == 0x3000
}

pub open spec fn trim_start(s: Seq<char>) -> Seq<char>
    decreases s.len(),
{
    if s.len() > 0 && is_white_space(s[0]) {
        trim_start(s.drop_first())
    } else {
        s
    }
}

pub open spec fn trim_end(s: Seq<char>) -> Seq<char>
    decreases s.len(),
{
    if s.len() > 0 && is_white_space(s.last()) {
        trim_end(s.drop_last())
    } else {
        s
    }
}

/// `s` without leading and trailing white space.
pub open spec fn trim(s: Seq<char>) -> Seq<char> {
    trim_end(trim_start(s))
}

/// The command that a trimmed line names.
pub open spec fn command_of(t: Seq<char>) -> Command {
    if t == seq!['h', 'e', 'l', 'p'] {
        Command::Help
    } else if t == seq!['h', 'e', 'l', 'l', 'o'] {
        Command::Hello
    } else if t == seq!['c', 'l', 'e', 'a', 'r'] {
        Command::Clear
    } else if t == seq!['s', 'h', 'u', 't', 'd', 'o', 'w', 'n'] {
        Command::Shutdown
    } else if t.len() == 0 {
        Command::Empty
    } else {
        Command::Unknown
    }
}

/// What the console shows after running `cmd` on `m`.
pub open spec fn spec_run(m: Screen, cmd: Command) -> Screen {
    match cmd {
        Command::Help => spec_write_str(m, HELP_TEXT),
        Command::Hello => spec_write_str(m, HELLO_TEXT),
        Command::Clear => spec_clear(m),
        Command::Shutdown => spec_write_str(m, SHUTDOWN_TEXT),
        Command::Empty => m,
        Command::Unknown => spec_write_str(m, UNKNOWN_TEXT),
    }
}

/// The bytes shown when `c` is echoed: its UTF-8 encoding, each byte as
/// `printable` gives it.
pub open spec fn echo_bytes(c: char) -> Seq<u8> {
    shown_bytes(encode_utf8(seq![c]))
}

/// `s[lo..hi]` equals `w`.
fn range_equals(s: &Vec<char>, lo: usize, hi: usize, w: &Vec<char>) -> (r: bool)
    requires
        lo <= hi <= s@.len(),
    ensures
        r == (s@.subrange(lo as int, hi as int) == w@),
{
    if hi - lo != w.len() {
        return false;
    }
    let mut i: usize = 0;
    while i < w.len()
        invariant
            lo <= hi <= s@.len(),
            hi - lo == w@.len(),
            i <= w@.len(),
            forall|j: int| 0 <= j < i ==> s@[lo + j] == w@[j],
        decreases w@.len() - i,
    {
        if s[lo + i] != w[i] {
            assert(s@.subrange(lo as int, hi as int)[i as int] != w@[i as int]);
            return false;
        }
        i = i + 1;
    }
    assert(s@.subrange(lo as int, hi as int) =~= w@);
    true
}

/// The command named by a line, after white space at both ends is removed.
pub fn parse_chars(buffer: &Vec<char>) -> (r: Command)
    ensures
        r == command_of(trim(buffer@)),
{
    let s = buffer;
    let n = s.len();
    let mut lo: usize = 0;
    assert(s@.subrange(0, n as int) =~= s@);
    while lo < n && white_space(s[lo])
        invariant
            n == s@.len(),
            lo <= n,
            trim_start(s@) == trim_start(s@.subrange(lo as int, n as int)),
        decreases n - lo,
    {
        assert(s@.subrange(lo as int, n as int).drop_first() =~= s@.subrange(lo as int + 1, n as int));
        lo = lo + 1;
    }
    let mut hi: usize = n;
    while hi > lo && white_space(s[hi - 1])
        invariant
            n == s@.len(),
            lo <= hi <= n,
            trim(s@) == trim_end(s@.subrange(lo as int, hi as int)),
        decreases hi - lo,
    {
        assert(s@.subrange(lo as int, hi as int).drop_last() =~= s@.subrange(lo as int, hi as int - 1));
        hi = hi - 1;
    }
    let t = Ghost(s@.subrange(lo as int, hi as int));
    assert(trim(s@) == t@);
    if range_equals(s, lo, hi, &vec!['h', 'e', 'l', 'p']) {
        Command::Help
    } else if range_equals(s, lo, hi, &vec!['h', 'e', 'l', 'l', 'o']) {
        Command::Hello
    } else if range_equals(s, lo, hi, &vec!['c', 'l', 'e', 'a', 'r']) {
        Command::Clear
    } else if range_equals(s, lo, hi, &vec!['s', 'h', 'u', 't', 'd', 'o', 'w', 'n']) {
        Command::Shutdown
    } else if hi == lo {
        Command::Empty
    } else {
        Command::Unknown
    }
}

/// The command named by `buffer`, after white space at both ends is removed.
pub fn parse(buffer: &str) -> (r: Command)
    ensures
        r == command_of(trim(buffer@)),
{
    let n = buffer.unicode_len();
    let mut chars: Vec<char> = Vec::new();
    let mut i: usize = 0;
    while i < n
        invariant
            n == buffer@.len(),
            i <= n,
            chars@ == buffer@.subrange(0, i as int),
        decreases n - i,
    {
        chars.push(buffer.get_char(i));
        i = i + 1;
        assert(chars@ =~= buffer@.subrange(0, i as int));
    }
    assert(chars@ =~= buffer@);
    parse_chars(&chars)
}

proof fn lemma_high_bytes(x: u8)
    by (bit_vector)
    ensures
        (0x80u8 | x) >= 0x80u8,
        (0xC0u8 | x) >= 0x80u8,
        (0xE0u8 | x) >= 0x80u8,
        (0xF0u8 | x) >= 0x80u8,
{
}

proof fn lemma_low_byte(v: u32)
    by (bit_vector)
    requires
        v <= 0x7f,
    ensures
        (v & 0x7f) == v,
{
}

/// Writes the echo of `c` to the console.
fn echo(writer: &mut Writer, c: char)
    requires
        old(writer).wf(),
    ensures
        final(writer).wf(),
        final(writer)@ == spec_write_bytes(old(writer)@, echo_bytes(c)),
{
    let v = c as u32;
    let ghost enc = encode_utf8(seq![c]);
    proof {
        reveal_with_fuel(encode_utf8, 2);
        assert(seq![c].drop_first() =~= Seq::<char>::empty());
        assert(enc =~= encode_scalar(v));
        vstd::utf8::char_is_scalar(c);
    }
    if v < 0x80 {
        let b = v as u8;
        let shown = if (0x20 <= b && b <= 0x7e) || b == 0x0a {
            b
        } else {
            0xfe
        };
        proof {
            lemma_low_byte(v);
            assert(echo_bytes(c) =~= seq![shown]);
            reveal_with_fuel(spec_write_bytes, 2);
            assert(seq![shown].drop_first() =~= Seq::<u8>::empty());
        }
        writer.write_byte(shown);
    } else {
        let n: usize = if v < 0x800 {
            2
        } else if v < 0x10000 {
            3
        } else {
            4
        };
        proof {
            assert(encode_scalar(v).len() == n);
            assert forall|j: int| 0 <= j < n implies #[trigger] encode_scalar(v)[j] >= 0x80 by {
                lemma_high_bytes((v & 0x3F) as u8);
                lemma_high_bytes(((v >> 6) & 0x3F) as u8);
                lemma_high_bytes(((v >> 12) & 0x3F) as u8);
                lemma_high_bytes(((v >> 6) & 0x1F) as u8);
                lemma_high_bytes(((v >> 12) & 0x0F) as u8);
                lemma_high_bytes(((v >> 18) & 0x7) as u8);
            }
            assert(echo_bytes(c) =~= Seq::new(n as nat, |j: int| 0xfeu8));
        }
        let mut i: usize = 0;
        while i < n
            invariant
                writer.wf(),
                i <= n,
                spec_write_bytes(writer@, Seq::new((n - i) as nat, |j: int| 0xfeu8)) == spec_write_bytes(
                    old(writer)@,
                    echo_bytes(c),
                ),
            decreases n - i,
        {
            proof {
                assert(Seq::new((n - i) as nat, |j: int| 0xfeu8).drop_first() =~= Seq::new(
                    (n - i - 1) as nat,
                    |j: int| 0xfeu8,
                ));
            }
            writer.write_byte(0xfe);
            i = i + 1;
        }
        proof {
            assert(Seq::new((n - i) as nat, |j: int| 0xfeu8) =~= Seq::<u8>::empty());
        }
    }
}

/// Runs `cmd`: prints its answer, or clears the console.
pub fn run_command(cmd: Command, writer: &mut Writer)
    requires
        old(writer).wf(),
    ensures
        final(writer).wf(),
        final(writer)@ == spec_run(old(writer)@, cmd),
{
    match cmd {
        Command::Help => writer.write_string(HELP_TEXT),
        Command::Hello => writer.write_string(HELLO_TEXT),
        Command::Clear => writer.clear_screen(),
        Command::Shutdown => writer.write_string(SHUTDOWN_TEXT),
        Command::Empty => {},
        Command::Unknown => writer.write_string(UNKNOWN_TEXT),
    }
}

/// The line being typed.
pub struct Shell {
    buffer: Vec<char>,
}

impl Shell {
    /// The characters typed since the last submitted line.
    pub closed spec fn line(&self) -> Seq<char> {
        self.buffer@
    }

    /// A shell with an empty line.
    pub fn new() -> (r: Shell)
        ensures
            r.line() == Seq::<char>::empty(),
    {
        Shell { buffer: Vec::new() }
    }

    /// Shows the prompt.
    pub fn prompt(writer: &mut Writer)
        requires
            old(writer).wf(),
        ensures
            final(writer).wf(),
            final(writer)@ == spec_write_str(old(writer)@, PROMPT),
    {
        writer.write_string(PROMPT);
    }

    /// Handles one key. Enter echoes a newline, runs the command that the
    /// trimmed line names, empties the line and shows the prompt again; it
    /// answers with that command. Backspace or delete takes the last
    /// character off a non-empty line and blanks it on the console. Any other
    /// character is added to the line and echoed. Keys without a character
    /// are ignored.
    pub fn handle_key(&mut self, key: KeyInput, writer: &mut Writer) -> (r: Option<Command>)
        requires
            old(writer).wf(),
        ensures
            final(writer).wf(),
            match key {
                KeyInput::Unicode(c) => if c == '\n' {
                    let cmd = command_of(trim(old(self).line()));
                    &&& r == Some(cmd)
                    &&& final(self).line() == Seq::<char>::empty()
                    &&& final(writer)@ == spec_write_str(
                        spec_run(spec_write_byte(old(writer)@, 0x0a), cmd),
                        PROMPT,
                    )
                } else if c == '\x08' || c == '\x7f' {
                    &&& r.is_none()
                    &&& if old(self).line().len() > 0 {
                        &&& final(self).line() == old(self).line().drop_last()
                        &&& final(writer)@ == spec_move_back(
                            spec_write_byte(spec_move_back(old(writer)@), 0x20),
                        )
                    } else {
                        &&& final(self).line() == old(self).line()
                        &&& final(writer)@ == old(writer)@
                    }
                } else {
                    &&& r.is_none()
                    &&& final(self).line() == old(self).line().push(c)
                    &&& final(writer)@ == spec_write_bytes(old(writer)@, echo_bytes(c))
                },
                KeyInput::Raw => {
                    &&& r.is_none()
                    &&& final(self).line() == old(self).line()
                    &&& final(writer)@ == old(writer)@
                },
            },
    {
        match key {
            KeyInput::Unicode(c) => {
                if c == '\n' {
                    writer.write_byte(0x0a);
                    let cmd = parse_chars(&self.buffer);
                    self.buffer.clear();
                    run_command(cmd, writer);
                    writer.write_string(PROMPT);
                    Some(cmd)
                } else if c == '\x08' || c == '\x7f' {
                    if self.buffer.len() > 0 {
                        self.buffer.pop();
                        writer.move_cursor_back();
                        writer.write_byte(0x20);
                        writer.move_cursor_back();
                    }
                    None
                } else {
                    self.buffer.push(c);
                    echo(writer, c);
                    None
                }
            },
            KeyInput::Raw => None,
        }
    }
}

} // verus!
