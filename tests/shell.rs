use marcel_os::allocator::fixed_size_block::FixedSizeBlockAllocator;
use marcel_os::allocator::{Layout, HEAP_SIZE, HEAP_START};
use marcel_os::boot_splash::BootScreen;
use marcel_os::cli::{parse, Command, KeyInput, Shell};
use marcel_os::log::LogType;
use marcel_os::memory::{heap_mappings, BootInfoFrameAllocator, MemoryRegion, MemoryRegionType};
use marcel_os::vga_buffer::{Color, ColorCode, Writer, BUFFER_HEIGHT, BUFFER_WIDTH};

fn writer() -> Writer {
    Writer::new(ColorCode::new(Color::White, Color::Black))
}

fn row(w: &Writer, r: usize) -> String {
    let bytes: Vec<u8> = (0..BUFFER_WIDTH).map(|c| w.cell(r, c).ascii_character).collect();
    String::from_utf8_lossy(&bytes).trim_end().to_string()
}

fn type_keys(shell: &mut Shell, w: &mut Writer, keys: &str) -> Vec<Command> {
    let mut commands = Vec::new();
    for c in keys.chars() {
        if let Some(cmd) = shell.handle_key(KeyInput::Unicode(c), w) {
            commands.push(cmd);
        }
    }
    commands
}

#[test]
fn parse_matches_trimmed_commands() {
    assert_eq!(parse("help"), Command::Help);
    assert_eq!(parse("  hello \t"), Command::Hello);
    assert_eq!(parse("clear"), Command::Clear);
    assert_eq!(parse("shutdown\n"), Command::Shutdown);
    assert_eq!(parse(""), Command::Empty);
    assert_eq!(parse("   "), Command::Empty);
    assert_eq!(parse("foo"), Command::Unknown);
    assert_eq!(parse("hel lo"), Command::Unknown);
    assert_eq!(parse("HELLO"), Command::Unknown);
    assert_eq!(parse("\u{3000}help\u{a0}"), Command::Help);
}

#[test]
fn boot_screen_then_prompt() {
    let mut w = writer();
    w.write_string("left over");
    BootScreen::show(&mut w);
    assert_eq!(row(&w, 0), "");
    assert_eq!(row(&w, 1), " _____ _____ _____ _____ _____ __          _____ _____");
    assert_eq!(row(&w, 7), "Version 0.1.0 - alpha");
    assert_eq!(row(&w, 9), "Developed by @sa4dus");
    Shell::prompt(&mut w);
    let (r, c) = w.cursor_position();
    assert_eq!(c, 2);
    assert_eq!(row(&w, r), ">");
    assert_eq!(w.cell(r, 0).ascii_character, b'>');
    assert_eq!(w.cell(r, 1).ascii_character, b' ');
}

#[test]
fn boot_log_line() {
    let mut w = writer();
    BootScreen::log(&mut w, LogType::Success, "Heap initialized");
    BootScreen::log(&mut w, LogType::Warning, "careful");
    assert_eq!(row(&w, 0), "[+] Heap initialized");
    assert_eq!(row(&w, 1), "[!] careful");
    assert_eq!(w.cursor_position(), (2, 0));
    assert_eq!(LogType::Info.header(), "*");
    assert_eq!(LogType::Failed.header(), "x");
}

#[test]
fn hello_command() {
    let mut w = writer();
    let mut shell = Shell::new();
    Shell::prompt(&mut w);
    let cmds = type_keys(&mut shell, &mut w, "hello\n");
    assert_eq!(cmds, vec![Command::Hello]);
    assert_eq!(row(&w, 0), "> hello");
    assert_eq!(row(&w, 1), "Hello, World!");
    assert_eq!(row(&w, 2), ">");
    assert_eq!(w.cursor_position(), (2, 2));
}

#[test]
fn backspace_editing() {
    let mut w = writer();
    let mut shell = Shell::new();
    Shell::prompt(&mut w);
    let cmds = type_keys(&mut shell, &mut w, "hex\x08llo\n");
    assert_eq!(cmds, vec![Command::Hello]);
    assert_eq!(row(&w, 0), "> hello");
    assert_eq!(row(&w, 1), "Hello, World!");
}

#[test]
fn delete_on_empty_line_does_nothing() {
    let mut w = writer();
    let mut shell = Shell::new();
    Shell::prompt(&mut w);
    assert_eq!(shell.handle_key(KeyInput::Unicode('\x7f'), &mut w), None);
    assert_eq!(w.cursor_position(), (0, 2));
    assert_eq!(shell.handle_key(KeyInput::Raw, &mut w), None);
    assert_eq!(w.cursor_position(), (0, 2));
}

#[test]
fn unknown_command() {
    let mut w = writer();
    let mut shell = Shell::new();
    Shell::prompt(&mut w);
    let cmds = type_keys(&mut shell, &mut w, "foo\n");
    assert_eq!(cmds, vec![Command::Unknown]);
    assert_eq!(row(&w, 1), "Unknown command. Type 'help' for a list of commands.");
    assert_eq!(row(&w, 2), ">");
}

#[test]
fn empty_line_prints_nothing() {
    let mut w = writer();
    let mut shell = Shell::new();
    Shell::prompt(&mut w);
    let cmds = type_keys(&mut shell, &mut w, "  \n");
    assert_eq!(cmds, vec![Command::Empty]);
    assert_eq!(row(&w, 1), ">");
}

#[test]
fn help_command() {
    let mut w = writer();
    let mut shell = Shell::new();
    Shell::prompt(&mut w);
    type_keys(&mut shell, &mut w, "help\n");
    assert_eq!(row(&w, 1), "Available commands:");
    assert_eq!(row(&w, 2), "  help     - Show this help menu");
    assert_eq!(row(&w, 3), "  hello    - Print 'Hello, World!'");
    assert_eq!(row(&w, 4), "  clear    - Clear the screen");
    assert_eq!(row(&w, 5), "  shutdown - Power off the system");
    assert_eq!(row(&w, 6), ">");
}

#[test]
fn clear_command() {
    let mut w = writer();
    let mut shell = Shell::new();
    Shell::prompt(&mut w);
    type_keys(&mut shell, &mut w, "hello\n");
    let cmds = type_keys(&mut shell, &mut w, "clear\n");
    assert_eq!(cmds, vec![Command::Clear]);
    assert_eq!(row(&w, 0), ">");
    assert_eq!(w.cursor_position(), (0, 2));
    for r in 1..BUFFER_HEIGHT {
        assert_eq!(row(&w, r), "");
    }
}

#[test]
fn shutdown_command() {
    let mut w = writer();
    let mut shell = Shell::new();
    Shell::prompt(&mut w);
    let cmds = type_keys(&mut shell, &mut w, "shutdown\n");
    assert_eq!(cmds, vec![Command::Shutdown]);
    assert_eq!(row(&w, 1), "Shutting down...");
}

#[test]
fn non_ascii_echo_fills_each_byte() {
    let mut w = writer();
    let mut shell = Shell::new();
    assert_eq!(shell.handle_key(KeyInput::Unicode('\u{e9}'), &mut w), None);
    assert_eq!(w.cursor_position(), (0, 2));
    assert_eq!(w.cell(0, 0).ascii_character, 0xfe);
    assert_eq!(w.cell(0, 1).ascii_character, 0xfe);
    shell.handle_key(KeyInput::Unicode('\u{1F600}'), &mut w);
    assert_eq!(w.cursor_position(), (0, 6));
    shell.handle_key(KeyInput::Unicode('\t'), &mut w);
    assert_eq!(w.cell(0, 6).ascii_character, 0xfe);
    let cmds = type_keys(&mut shell, &mut w, "\n");
    assert_eq!(cmds, vec![Command::Unknown]);
}

#[test]
fn boot_to_prompt() {
    let map = vec![
        MemoryRegion { start: 0, end: 0x100000, region_type: MemoryRegionType::Reserved },
        MemoryRegion { start: 0x100000, end: 0x200000, region_type: MemoryRegionType::Usable },
    ];
    let mut frames = BootInfoFrameAllocator::init(map);
    let mappings = heap_mappings(&mut frames).unwrap();
    assert_eq!(mappings.len() as u64 * 4096, HEAP_SIZE);
    let mut heap = FixedSizeBlockAllocator::new();
    heap.init(HEAP_START as usize, HEAP_SIZE as usize);
    assert_eq!(heap.allocate(Layout::from_size_align(64, 8).unwrap()), HEAP_START as usize);

    let mut w = writer();
    BootScreen::log(&mut w, LogType::Info, "Initializing boot sequence");
    BootScreen::show(&mut w);
    Shell::prompt(&mut w);
    assert_eq!(row(&w, 0), "");
    assert_eq!(row(&w, 2), "|     |  _  | __  |     |   __|  |        |     |   __|");
    assert_eq!(w.cursor_position(), (12, 2));
    assert_eq!(row(&w, 12), ">");
}
