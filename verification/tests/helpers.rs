use frnsc_triage::error::TriageError;
use frnsc_triage::helpers::buffer_to_retrieval_pointers;
use frnsc_triage::helpers::contains_env_var;
use frnsc_triage::helpers::encode_pcwstr;
use frnsc_triage::helpers::file_device_path;
use frnsc_triage::helpers::file_size_from_parts;
use frnsc_triage::helpers::get_drive_and_disk;
use frnsc_triage::helpers::is_program_data_env;
use frnsc_triage::helpers::is_system_drive_env;
use frnsc_triage::helpers::is_system_root_env;
use frnsc_triage::helpers::is_user_home_env;
use frnsc_triage::helpers::parse_retrieval_pointers;
use frnsc_triage::helpers::read_le_i64;
use frnsc_triage::helpers::read_le_u32;
use frnsc_triage::helpers::replace_envvars;
use frnsc_triage::helpers::replace_home_vars;
use frnsc_triage::helpers::to_pcwstr;
use frnsc_triage::helpers::Buffer;
use frnsc_triage::helpers::PointerExtent;
use frnsc_triage::helpers::RetrievalPointersBuffer;
use frnsc_triage::text::chars_of;
use frnsc_triage::text::find;
use frnsc_triage::text::join;
use frnsc_triage::text::replace_all;
use frnsc_triage::text::split;
use frnsc_triage::text::string_of;

fn wide(txt: &str) -> Vec<u16> {
    let mut val = txt.encode_utf16().collect::<Vec<u16>>();
    val.push(0);
    val
}

#[test]
fn a_wide_string_is_utf16_and_a_closing_zero() {
    assert_eq!(to_pcwstr(""), vec![0]);
    assert_eq!(to_pcwstr("C:\\"), vec![0x43, 0x3A, 0x5C, 0]);
    assert_eq!(to_pcwstr("\u{1F600}"), vec![0xD83D, 0xDE00, 0]);
    assert_eq!(to_pcwstr("\u{FFFF}\u{10000}\u{10FFFF}"), vec![0xFFFF, 0xD800, 0xDC00, 0xDBFF, 0xDFFF, 0]);
    for txt in ["\\\\.\\C:", "C:\\Users\\Jos\u{e9}\\NTUSER.DAT", "\u{65e5}\u{672c}\u{8a9e}", "a\u{1F4BE}b\u{10437}"] {
        assert_eq!(to_pcwstr(txt), wide(txt));
    }
}

#[test]
fn encoding_replaces_what_the_buffer_held() {
    let mut buffer: Vec<u16> = vec![7; 1024];
    encode_pcwstr("\\\\.\\D:", &mut buffer);
    assert_eq!(buffer, wide("\\\\.\\D:"));
    encode_pcwstr("", &mut buffer);
    assert_eq!(buffer, vec![0]);
}

#[test]
fn a_variable_is_replaced_by_its_value() {
    let r = |t: &str| replace_envvars(t, r"C:\", r"C:\Windows", r"C:\ProgramData");
    assert_eq!(r(r"%SYSTEMDRIVE%\$MFT"), r"C:\$MFT");
    assert_eq!(r(r"%SYSTEMROOT%\System32\config\SAM"), r"C:\Windows\System32\config\SAM");
    assert_eq!(r(r"%PROGRAMDATA%\Microsoft\x"), r"C:\ProgramData\Microsoft\x");
    assert_eq!(r(r"%SystemRoot%\Tasks\**"), r"C:\Windows\Tasks\**");
    assert_eq!(r(r"%systemdrive%\a"), r"C:\a");
    assert_eq!(r(r"%SYSTEMDRIVE%\"), r"C:\");
}

#[test]
fn a_backslash_at_the_end_of_a_value_is_not_doubled() {
    assert_eq!(replace_envvars(r"%SYSTEMROOT%\x", "", r"D:\Win\", ""), r"D:\Win\x");
    assert_eq!(replace_envvars(r"%SYSTEMROOT%\x", "", r"D:\Win", ""), r"D:\Win\x");
    assert_eq!(replace_envvars(r"%PROGRAMDATA%\x", "", "", ""), r"\x");
}

#[test]
fn other_texts_come_back_unchanged() {
    let r = |t: &str| replace_envvars(t, r"C:\", r"C:\Windows", r"C:\ProgramData");
    assert_eq!(r(r"C:\Windows\x"), r"C:\Windows\x");
    assert_eq!(r(r"%USERHOME%\NTUser.DAT"), r"%USERHOME%\NTUser.DAT");
    assert_eq!(r(r"%UNKNOWN%\x"), r"%UNKNOWN%\x");
    assert_eq!(r(r"%SYSTEMROOT%"), r"%SYSTEMROOT%");
    assert_eq!(r(r"%\x"), r"%\x");
    assert_eq!(r(r"XSYSTEMROOT%\x"), r"XSYSTEMROOT%\x");
    assert_eq!(r(""), "");
    // only the variable at the start counts, and only up to the first `%\`
    assert_eq!(r(r"%SYSTEMROOT%\a%\b"), r"C:\Windows\a%\b");
    assert_eq!(r(r"%SYSTEM%ROOT%\a"), r"%SYSTEM%ROOT%\a");
}

#[test]
fn every_home_gives_one_path() {
    let homes = vec![r"C:\Users\ana".to_string(), r"D:\Homes\bo\".to_string()];
    assert_eq!(
        replace_home_vars(r"%USERHOME%\NTUser.DAT", &homes),
        vec![r"C:\Users\ana\NTUser.DAT".to_string(), r"D:\Homes\bo\NTUser.DAT".to_string()]
    );
    assert_eq!(replace_home_vars(r"%USERHOME%", &homes), Vec::<String>::new());
    assert_eq!(replace_home_vars(r"C:\x", &homes), Vec::<String>::new());
    assert_eq!(replace_home_vars(r"%USERHOME%\x", &Vec::new()), Vec::<String>::new());
}

fn by_upper_case(txt: &str, word: &str) -> bool {
    if txt.len() != word.len() {
        return false;
    }
    txt.to_uppercase() == word
}

#[test]
fn names_are_told_apart_without_regard_to_case() {
    assert!(is_system_drive_env("SYSTEMDRIVE"));
    assert!(is_system_drive_env("SystemDrive"));
    assert!(is_system_drive_env("systemdrive"));
    assert!(!is_system_drive_env("SYSTEMDRIVES"));
    assert!(!is_system_drive_env("SYSTEMROOT"));
    assert!(!is_system_drive_env(""));
    assert!(is_system_root_env("systemROOT"));
    assert!(!is_system_root_env("SYSTEMDRIVE"));
    assert!(is_program_data_env("ProgramData"));
    assert!(!is_program_data_env("ProgramDat"));
    let samples = [
        "SYSTEMDRIVE", "systemdrive", "SyStEmDrIvE", "SYSTEMROOT", "systemroot", "PROGRAMDATA",
        "programdata", "\u{17f}ystemdrive", "sy\u{fb06}emdrive", "SY\u{fb06}EMDRIVE",
        "system\u{131}drive", "systemdr\u{131}ve", "SYSTEMDRIV\u{c9}", "sy\u{fb06}emroot",
        "programdat\u{e4}", "SYSTEM DRIVE", "SYSTEMDRIV", "", "S", "\u{df}YSTEMDRIVE",
        "\u{212a}ystemdrive", "prog\u{1e9e}amdata",
    ];
    for s in samples {
        assert_eq!(is_system_drive_env(s), by_upper_case(s, "SYSTEMDRIVE"), "{:?}", s);
        assert_eq!(is_system_root_env(s), by_upper_case(s, "SYSTEMROOT"), "{:?}", s);
        assert_eq!(is_program_data_env(s), by_upper_case(s, "PROGRAMDATA"), "{:?}", s);
    }
}

#[test]
fn templates_are_told_by_their_start() {
    assert!(contains_env_var("%SYSTEMROOT%\\x"));
    assert!(contains_env_var("%"));
    assert!(!contains_env_var("C:\\%x%"));
    assert!(!contains_env_var(""));
    assert!(is_user_home_env("%USERHOME%\\NTUser.DAT"));
    assert!(is_user_home_env("%USERHOME%"));
    assert!(!is_user_home_env("%userhome%\\x"));
    assert!(!is_user_home_env("%USERHOME"));
    assert!(!is_user_home_env("x%USERHOME%"));
}

#[test]
fn a_path_names_its_drive() {
    assert_eq!(
        get_drive_and_disk(r"C:\Windows\System32\drivers\etc\hosts"),
        Ok((r"\\.\C:".to_string(), r"C:\".to_string()))
    );
    assert_eq!(get_drive_and_disk("d:"), Ok((r"\\.\d:".to_string(), r"d:\".to_string())));
    assert_eq!(get_drive_and_disk(r"C:\$MFT"), Ok((r"\\.\C:".to_string(), r"C:\".to_string())));
}

#[test]
fn a_path_without_a_drive_is_a_bad_path() {
    for p in ["", "C", r"\\server\share", r"Windows\x", ":C", "::", r"CD:\x", "\u{e9}:\\x", r"\C:"] {
        assert_eq!(get_drive_and_disk(p), Err(TriageError::BadPath), "{:?}", p);
    }
}

#[test]
fn a_file_is_opened_under_its_device_name() {
    assert_eq!(file_device_path(r"C:\$MFT"), "\\\\.\\C:\\$MFT\0");
    assert_eq!(file_device_path(""), "\\\\.\\\0");
}

#[test]
fn the_size_of_a_file_comes_in_two_halves() {
    assert_eq!(file_size_from_parts(0, 0), 0);
    assert_eq!(file_size_from_parts(0, 4_194_304), 4_194_304);
    assert_eq!(file_size_from_parts(1, 0), 1 << 32);
    assert_eq!(file_size_from_parts(3, 7), (3u64 << 32) | 7);
    assert_eq!(file_size_from_parts(u32::MAX, u32::MAX), u64::MAX);
}

fn record(count: u32, starting_vcn: i64, extents: &[(i64, i64)]) -> Vec<u8> {
    let mut v = Vec::new();
    v.extend_from_slice(&count.to_le_bytes());
    v.extend_from_slice(&[0xCC; 4]);
    v.extend_from_slice(&starting_vcn.to_le_bytes());
    for (next_vcn, lcn) in extents {
        v.extend_from_slice(&next_vcn.to_le_bytes());
        v.extend_from_slice(&lcn.to_le_bytes());
    }
    v
}

#[test]
fn little_endian_numbers_are_read() {
    let bytes = [0x78, 0x56, 0x34, 0x12, 0xff, 0xff, 0xff, 0xff, 0xff, 0xff, 0xff, 0x7f, 0, 0, 0, 0, 0, 0, 0, 0x80];
    assert_eq!(read_le_u32(&bytes, 0), 0x1234_5678);
    assert_eq!(read_le_u32(&bytes, 4), u32::MAX);
    assert_eq!(read_le_i64(&bytes, 4), i64::MAX);
    assert_eq!(read_le_i64(&bytes, 12), i64::MIN);
    assert_eq!(read_le_i64(&(-1i64).to_le_bytes(), 0), -1);
    assert_eq!(read_le_i64(&(-4_294_967_297i64).to_le_bytes(), 0), -4_294_967_297);
    assert_eq!(read_le_i64(&0x0102_0304_0506_0708i64.to_le_bytes(), 0), 0x0102_0304_0506_0708);
}

#[test]
fn a_record_is_decoded() {
    let bytes = record(3, 0, &[(16, 786_432), (20, -1), (1 << 40, (1 << 33) + 5)]);
    let p = buffer_to_retrieval_pointers(&bytes);
    assert_eq!(p.extent_count, 3);
    assert_eq!(p.starting_vcn, 0);
    assert_eq!(
        p.extents,
        vec![
            PointerExtent { next_vcn: 16, lcn: 786_432 },
            PointerExtent { next_vcn: 20, lcn: -1 },
            PointerExtent { next_vcn: 1 << 40, lcn: (1 << 33) + 5 },
        ]
    );
}

#[test]
fn a_record_in_a_larger_buffer_is_decoded() {
    let mut bytes = record(1, 7, &[(9, 3)]);
    bytes.resize(32_000, 0xEE);
    let p = buffer_to_retrieval_pointers(&bytes);
    assert_eq!((p.extent_count, p.starting_vcn), (1, 7));
    assert_eq!(p.extents, vec![PointerExtent { next_vcn: 9, lcn: 3 }]);
    let q = parse_retrieval_pointers(&bytes).unwrap();
    assert_eq!(q.extents, p.extents);
}

#[test]
fn a_record_that_is_cut_short_is_not_decoded() {
    let full = record(2, 0, &[(4, 10), (9, 30)]);
    assert!(parse_retrieval_pointers(&full).is_some());
    assert!(parse_retrieval_pointers(&full[0..47]).is_none());
    assert!(parse_retrieval_pointers(&full[0..16]).is_none());
    assert!(parse_retrieval_pointers(&full[0..15]).is_none());
    assert!(parse_retrieval_pointers(&[]).is_none());
    let empty = record(0, 0, &[]);
    let p = parse_retrieval_pointers(&empty).unwrap();
    assert_eq!(p.extent_count, 0);
    assert!(p.extents.is_empty());
    let claims_many = record(u32::MAX, 0, &[(4, 10)]);
    assert!(parse_retrieval_pointers(&claims_many).is_none());
}

#[test]
fn a_buffer_is_made_of_zeros() {
    let mut b = Buffer::new();
    assert_eq!(b.u8().len(), 1024);
    assert_eq!(b.u16().len(), 1024);
    assert!(b.u8().iter().all(|x| *x == 0));
    assert!(b.u16().iter().all(|x| *x == 0));
    let mut c = Buffer::with_capacity(32_000);
    assert_eq!(c.u8_vec().len(), 32_000);
    assert_eq!(c.u16_vec().len(), 32_000);
    let mut d = Buffer::with_capacity(0);
    assert!(d.u8().is_empty());
}

#[test]
fn a_buffer_is_shortened_and_restored() {
    let mut b = Buffer::with_capacity(8);
    b.u8()[3] = 9;
    b.u8()[6] = 60;
    b.u16()[7] = 500;
    b.set_len(4);
    assert_eq!(b.u8().to_vec(), vec![0, 0, 0, 9]);
    assert_eq!(b.u16().len(), 4);
    b.reset();
    assert_eq!(b.u8().to_vec(), vec![0, 0, 0, 9, 0, 0, 60, 0]);
    assert_eq!(b.u16().to_vec(), vec![0, 0, 0, 0, 0, 0, 0, 500]);
    b.set_len(100);
    assert_eq!(b.u8().len(), 8);
    b.push(1);
    assert_eq!(b.u8().len(), 9);
    assert_eq!(b.u8()[8], 1);
    assert_eq!(b.u16().len(), 8);
    b.reset();
    assert_eq!(b.u8().to_vec(), vec![0, 0, 0, 9, 0, 0, 60, 0]);
    let v = b.u16_vec();
    encode_pcwstr("ab", v);
    assert_eq!(b.u16().to_vec(), vec![0x61, 0x62, 0]);
}

#[test]
fn what_a_buffer_held_comes_back_when_it_is_restored() {
    let mut b = Buffer::with_capacity(6);
    for (i, x) in b.u8().iter_mut().enumerate() {
        *x = 10 + i as u8;
    }
    for (i, x) in b.u16().iter_mut().enumerate() {
        *x = 1000 + i as u16;
    }
    b.set_len(0);
    assert!(b.u8().is_empty());
    assert!(b.u16().is_empty());
    b.set_len(4);
    assert_eq!(b.u8().to_vec(), vec![10, 11, 12, 13]);
    assert_eq!(b.u16().to_vec(), vec![1000, 1001, 1002, 1003]);
    b.set_len(2);
    b.u8()[1] = 99;
    b.reset();
    assert_eq!(b.u8().to_vec(), vec![10, 99, 12, 13, 14, 15]);
    assert_eq!(b.u16().to_vec(), vec![1000, 1001, 1002, 1003, 1004, 1005]);
}

#[test]
fn a_pushed_byte_takes_the_place_of_a_hidden_one() {
    let mut b = Buffer::with_capacity(4);
    b.u8().copy_from_slice(&[1, 2, 3, 4]);
    b.set_len(2);
    b.push(9);
    assert_eq!(b.u8().to_vec(), vec![1, 2, 9]);
    b.reset();
    assert_eq!(b.u8().to_vec(), vec![1, 2, 9, 4]);
    assert_eq!(b.u16().to_vec(), vec![0u16; 4]);
}

#[test]
fn a_buffer_that_was_emptied_by_its_caller_is_filled_with_zeros() {
    let mut b = Buffer::with_capacity(4);
    b.u8().copy_from_slice(&[1, 2, 3, 4]);
    b.u8_vec().clear();
    b.u8_vec().push(7);
    b.reset();
    assert_eq!(b.u8().to_vec(), vec![7, 0, 0, 0]);
}

#[test]
fn texts_are_cut_and_joined() {
    let s = chars_of(r"C:\Windows\\x\");
    let parts = split(&s, '\\');
    let got: Vec<String> = parts.iter().map(|p| string_of(p)).collect();
    assert_eq!(got, vec!["C:", "Windows", "", "x", ""]);
    assert_eq!(string_of(&join(&parts, 0, parts.len(), '\\')), r"C:\Windows\\x\");
    assert_eq!(string_of(&join(&parts, 1, 2, '\\')), "Windows");
    assert_eq!(string_of(&join(&parts, 2, 2, '\\')), "");
    assert_eq!(split(&chars_of(""), '\\').len(), 1);
    assert_eq!(chars_of("a\u{e9}\u{1F600}"), vec!['a', '\u{e9}', '\u{1F600}']);
}

#[test]
fn occurrences_are_replaced_from_the_left() {
    let r = |s: &str, from: &str, to: &str| {
        string_of(&replace_all(&chars_of(s), &chars_of(from), &chars_of(to)))
    };
    for (s, from, to) in [
        ("aaa", "aa", "b"),
        ("C:\\Windows\\x:\\y", ":\\", "\\"),
        ("....", "..", "."),
        ("abc", "x", "y"),
        ("", "x", "y"),
        ("abcabc", "abc", ""),
        ("a.b*c", "*", ".*"),
    ] {
        assert_eq!(r(s, from, to), s.replace(from, to), "{:?} {:?} {:?}", s, from, to);
    }
    assert_eq!(r("abc", "", "x"), "abc");
    assert_eq!(find(&chars_of("ab%\\cd%\\"), &chars_of("%\\")), Some(2));
    assert_eq!(find(&chars_of("abc"), &chars_of("%\\")), None);
    assert_eq!(find(&chars_of("abc"), &chars_of("")), Some(0));
    assert_eq!(find(&chars_of("a"), &chars_of("ab")), None);
}

#[test]
fn a_record_can_be_cloned() {
    let p = RetrievalPointersBuffer {
        extent_count: 2,
        starting_vcn: 0,
        extents: vec![PointerExtent { next_vcn: 4, lcn: 10 }, PointerExtent { next_vcn: 6, lcn: 2 }],
    };
    let q = p.clone();
    assert_eq!(q.extent_count, 2);
    assert_eq!(q.starting_vcn, 0);
    assert_eq!(q.extents, p.extents);
}
