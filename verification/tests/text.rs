use dingooemu::cpu::Registers;
use dingooemu::error::SimulatorError;
use dingooemu::memory::Memory;
use dingooemu::printf::{apply_integer_precision, format_guest_printf, guest_printf_arg};
use dingooemu::paths::{
    join_path, normalize_guest_search_pattern, plan_file_search, resolve_host_file_path,
    safe_relative_path, save_file_path, wildcard_matches,
};
use dingooemu::search::{select_entries, HostEntry};
use dingooemu::text::{
    encode_utf16, read_guest_c_string, read_guest_w_string, read_guest_w_string_words,
};

fn format(format: &str, arguments: &[u32]) -> String {
    let mut registers = Registers::new(0);
    let mut memory = Memory::new();
    memory.load_data(0x100, b"guest text\0").unwrap();
    registers.write(29, 0x1000);
    for (index, &argument) in arguments.iter().enumerate() {
        match index {
            0 => registers.write(6, argument),
            1 => registers.write(7, argument),
            _ => memory.write_u32(0x1008 + 4 * index as u32, argument).unwrap(),
        }
    }
    format_guest_printf(&registers, &memory, format).unwrap()
}

#[test]
fn conversions_follow_their_flags() {
    assert_eq!(format("%d|%i", &[5, (-5i32) as u32]), "5|-5");
    assert_eq!(format("%+d|% d", &[5, 5]), "+5| 5");
    assert_eq!(format("%d", &[i32::MIN as u32]), "-2147483648");
    assert_eq!(format("%u", &[u32::MAX]), "4294967295");
    assert_eq!(format("%o|%#o|%#o", &[8, 8, 0]), "10|010|0");
    assert_eq!(format("%x|%X|%#x|%#X", &[0xab, 0xab, 0xab, 0xab]), "ab|AB|0xab|0XAB");
    assert_eq!(format("%p", &[0]), "0x0");
    assert_eq!(format("%c%c", &[0x41, 0x142]), "AB");
    assert_eq!(format("%s|%.5s", &[0x100, 0x100]), "guest text|guest");
    assert_eq!(format("100%%", &[]), "100%");
    assert_eq!(format("%q", &[1]), "%q");
    assert_eq!(format("end %-0", &[]), "end %");
}

#[test]
fn fields_are_padded_to_their_width() {
    assert_eq!(format("%5d|%-5d|%05d", &[42, 42, 42]), "   42|42   |00042");
    assert_eq!(format("%05d|%5.3d", &[(-42i32) as u32, 7]), "-0042|  007");
    assert_eq!(format("%#06x", &[0xab]), "0x00ab");
    assert_eq!(format("%.0d|%.0d", &[0, 1]), "|1");
    assert_eq!(format("%12s|", &[0x100]), "  guest text|");
    assert_eq!(format("%012s|", &[0x100]), "00guest text|");
    assert_eq!(format("%99999999999999999999999999d", &[7]), "7");
    assert_eq!(apply_integer_precision("7".to_string(), Some(3), false), "007");
}

#[test]
fn text_without_directives_is_copied() {
    assert_eq!(format("plain text, no directive", &[]), "plain text, no directive");
}

#[test]
fn arguments_behind_the_stack_fail() {
    let mut registers = Registers::new(0);
    registers.write(29, 0x4000_0000);
    let memory = Memory::new();
    assert_eq!(
        guest_printf_arg(&registers, &memory, 2),
        Err(SimulatorError::UnmappedAddress { address: 0x4000_0010 })
    );
    assert_eq!(
        format_guest_printf(&registers, &memory, "%d%d%d"),
        Err(SimulatorError::UnmappedAddress { address: 0x4000_0010 })
    );
}

#[test]
fn guest_strings_are_decoded_with_replacements() {
    let mut memory = Memory::new();
    memory.load_data(0x100, &[b'a', 0xff, b'b', 0]).unwrap();
    assert_eq!(read_guest_c_string(&memory, 0x100), "a\u{fffd}b");
    memory.load_data(0x200, "mod\u{e9}le\0".as_bytes()).unwrap();
    assert_eq!(read_guest_c_string(&memory, 0x200), "mod\u{e9}le");

    let words = encode_utf16("x\u{1f3ae}");
    assert_eq!(words, vec![0x78, 0xd83c, 0xdfae]);
    for (index, word) in words.iter().enumerate() {
        memory.write_u16(0x300 + 2 * index as u32, *word).unwrap();
    }
    assert_eq!(read_guest_w_string(&memory, 0x300), "x\u{1f3ae}");
    memory.write_u16(0x304, 0x79).unwrap();
    memory.write_u16(0x306, 0).unwrap();
    assert_eq!(read_guest_w_string(&memory, 0x300), "x\u{fffd}y");
    assert_eq!(read_guest_w_string_words(&memory, 0x300), vec![0x78, 0xd83c, 0x79]);
}

#[test]
fn long_guest_strings_are_cut() {
    let mut memory = Memory::new();
    memory.memset(0x1000, b'a', 5_000);
    assert_eq!(read_guest_c_string(&memory, 0x1000).len(), 1_024);
    assert_eq!(read_guest_w_string_words(&memory, 0x1000).len(), 1_024);
}

#[test]
fn wildcards_match_without_regard_to_case() {
    assert!(wildcard_matches("*", ""));
    assert!(wildcard_matches("*.*", "no extension"));
    assert!(wildcard_matches("*.XM", "song.xm"));
    assert!(wildcard_matches("a?c*e", "abcdde"));
    assert!(wildcard_matches("*a*b", "xaxxab"));
    assert!(!wildcard_matches("a?c", "ac"));
    assert!(!wildcard_matches("*.xm", "song.xm.bak"));
    assert!(!wildcard_matches("", "x"));
}

#[test]
fn search_patterns_stay_below_the_application() {
    assert_eq!(
        normalize_guest_search_pattern("A:\\music\\*.xm"),
        Some("music/*.xm".to_string())
    );
    assert_eq!(normalize_guest_search_pattern("//x"), Some("x".to_string()));
    assert_eq!(normalize_guest_search_pattern("music/../../x"), None);
    let plan = plan_file_search("music/sub/").unwrap();
    assert_eq!((plan.directory.as_str(), plan.file_pattern.as_str()), ("music/sub", "*"));
    let plan = plan_file_search("*.mod").unwrap();
    assert_eq!((plan.directory.as_str(), plan.file_pattern.as_str()), ("", "*.mod"));
}

#[test]
fn entries_come_in_the_order_of_their_names() {
    let entry = |name: &str, is_file: bool| HostEntry {
        name: name.to_string(),
        is_directory: !is_file,
        is_file,
    };
    let entries = vec![
        entry("b.mod", true),
        entry("A.mod", true),
        entry("a.mod", true),
        entry("dir", false),
        entry("c.txt", true),
    ];
    assert_eq!(select_entries(&entries, "*.mod", 0), vec!["A.mod", "a.mod", "b.mod"]);
    assert_eq!(select_entries(&entries, "*", 0x10), vec!["dir"]);
}

#[test]
fn saved_files_stay_in_their_directory() {
    assert_eq!(save_file_path("save/profile.dat"), Some("save/profile.dat".to_string()));
    assert_eq!(save_file_path("./a//b"), Some("a/b".to_string()));
    assert_eq!(save_file_path("A:\\x"), Some("A/x".to_string()));
    assert_eq!(save_file_path("x/A:"), None);
    assert_eq!(save_file_path("a:b"), None);
    assert_eq!(save_file_path("../x"), None);
    assert_eq!(save_file_path("a\0b"), None);
    assert_eq!(save_file_path("./"), None);
    for name in ["save/profile.dat", "A:\\x", "./a//b"] {
        assert!(safe_relative_path(&save_file_path(name).unwrap()));
    }
    assert!(!safe_relative_path(""));
    assert!(!safe_relative_path("/a"));
    assert!(!safe_relative_path("a/../b"));
    assert!(safe_relative_path("./a"));
    assert!(safe_relative_path("a..b"));
}

#[test]
fn host_paths_lie_beside_the_application() {
    assert_eq!(resolve_host_file_path("Game.app", "data.bin"), "data.bin");
    assert_eq!(resolve_host_file_path("/g/Game.app", "/abs.bin"), "/abs.bin");
    assert_eq!(resolve_host_file_path("C:\\g\\Game.app", "a\\b"), "C:/g/a/b");
    assert_eq!(join_path("", "a"), "a");
    assert_eq!(join_path("/", "a"), "/a");
    assert_eq!(join_path("/s", "a"), "/s/a");
}
