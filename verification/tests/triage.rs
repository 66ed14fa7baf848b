use frnsc_triage::artifacts::get_default_collection_paths;
use frnsc_triage::artifacts::USN_JRNL_MAX_PATH;
use frnsc_triage::artifacts::USN_JRNL_PATH;
use frnsc_triage::helpers::PointerExtent;
use frnsc_triage::helpers::RetrievalPointersBuffer;
use frnsc_triage::pattern::first_reach;
use frnsc_triage::pattern::next_reach;
use frnsc_triage::pattern::replace_pattern;
use frnsc_triage::pattern::EntryKind;
use frnsc_triage::pattern::PathPattern;
use frnsc_triage::pattern::PathPatternIterator;
use frnsc_triage::raw_file::RawFile;
use frnsc_triage::triage::archive_path;
use frnsc_triage::triage::parent_folder;
use frnsc_triage::triage::path_event;
use frnsc_triage::triage::CollectionParameters;
use frnsc_triage::triage::TriageCollector;
use frnsc_triage::triage::WorkerAction;
use frnsc_triage::triage::WorkerEvent;
use frnsc_triage::triage::WorkerState;

/// A directory tree kept in memory: every directory with its entries.
struct Tree {
    dirs: Vec<(String, Vec<(String, EntryKind)>)>,
}

impl Tree {
    fn list(&self, dir: &str) -> Vec<(String, EntryKind)> {
        for (d, entries) in &self.dirs {
            if d == dir {
                return entries.clone();
            }
        }
        Vec::new()
    }

    fn reversed(&self) -> Tree {
        let mut dirs = self.dirs.clone();
        for (_, entries) in dirs.iter_mut() {
            entries.reverse();
        }
        Tree { dirs }
    }

    /// Walks a pattern over the tree as a caller with a file system does.
    fn expand(&self, template: &str) -> Vec<String> {
        let mut pattern = PathPattern::new(template.to_string());
        let mut found = Vec::new();
        let mut listed = Vec::new();
        loop {
            while let Some(path) = pattern.next_path() {
                found.push(path);
            }
            match pattern.next_directory() {
                None => break,
                Some(dir) => {
                    assert!(!listed.contains(&dir), "{} is listed twice", dir);
                    for (name, kind) in self.list(&dir) {
                        pattern.offer(&name, kind);
                    }
                    listed.push(dir);
                }
            }
        }
        found
    }
}

fn file(name: &str) -> (String, EntryKind) {
    (name.to_string(), EntryKind::File)
}

fn dir(name: &str) -> (String, EntryKind) {
    (name.to_string(), EntryKind::Directory)
}

fn windows_tree() -> Tree {
    Tree {
        dirs: vec![
            (
                r"C:\Windows".to_string(),
                vec![
                    file("notepad.exe"),
                    file("win.ini"),
                    dir("System32"),
                    dir("Tasks"),
                    ("link".to_string(), EntryKind::Other),
                    file("regedit.exe"),
                ],
            ),
            (
                r"C:\Windows\System32".to_string(),
                vec![file("cmd.exe"), dir("drivers"), file("kernel32.dll"), dir("exe")],
            ),
            (r"C:\Windows\System32\drivers".to_string(), vec![dir("etc"), file("ntfs.sys")]),
            (
                r"C:\Windows\System32\drivers\etc".to_string(),
                vec![file("hosts"), file("setup.exe")],
            ),
            (r"C:\Windows\System32\exe".to_string(), vec![file("readme.txt")]),
            (r"C:\Windows\Tasks".to_string(), vec![file("SA.DAT"), dir("sub")]),
            (r"C:\Windows\Tasks\sub".to_string(), vec![file("job.job")]),
        ],
    }
}

fn sorted(mut v: Vec<String>) -> Vec<String> {
    v.sort();
    v
}

#[test]
fn pattern_should_print_all() {
    let tree = windows_tree();
    let all_tasks = tree.expand(r"C:\Windows\Tasks\**");
    for element in &all_tasks {
        println!("{}", element);
    }
    assert_eq!(
        sorted(all_tasks),
        vec![r"C:\Windows\Tasks\SA.DAT".to_string(), r"C:\Windows\Tasks\sub\job.job".to_string()]
    );

    let programs = tree.expand(r"C:\Windows\**\*.exe");
    for element in &programs {
        println!("{}", element);
    }
    assert_eq!(
        sorted(programs),
        vec![
            r"C:\Windows\System32\cmd.exe".to_string(),
            r"C:\Windows\System32\drivers\etc\setup.exe".to_string(),
            r"C:\Windows\notepad.exe".to_string(),
            r"C:\Windows\regedit.exe".to_string(),
        ]
    );

    let everything = tree.expand(r"C:\Windows\**");
    for element in &everything {
        println!("{}", element);
    }
    assert_eq!(everything.len(), 11);
}

#[test]
fn every_program_lies_below_the_base_and_ends_in_exe() {
    let found = windows_tree().expand(r"C:\Windows\**\*.exe");
    assert_eq!(found.len(), 4);
    for path in found {
        assert!(path.ends_with(".exe"), "{}", path);
        assert!(path.starts_with(r"C:\Windows\"), "{}", path);
    }
}

#[test]
fn the_order_of_the_entries_does_not_change_what_is_found() {
    let tree = windows_tree();
    for template in [
        r"C:\Windows\**\*.exe",
        r"C:\Windows\**",
        r"C:\Windows\*\*.exe",
        r"C:\Windows\**\etc\*",
        r"C:\Windows\**\**\*.job",
        r"C:\Windows\*",
    ] {
        assert_eq!(
            sorted(tree.expand(template)),
            sorted(tree.reversed().expand(template)),
            "{}",
            template
        );
        assert_eq!(tree.expand(template), tree.expand(template), "{}", template);
    }
}

#[test]
fn a_template_without_a_wildcard_stands_for_itself() {
    let tree = Tree { dirs: Vec::new() };
    assert_eq!(tree.expand(r"C:\$MFT"), vec![r"C:\$MFT".to_string()]);
    assert_eq!(
        tree.expand(r"C:\Windows\System32\config\SAM"),
        vec![r"C:\Windows\System32\config\SAM".to_string()]
    );
    let mut pattern = PathPattern::new(r"C:\no\such\file".to_string());
    assert_eq!(pattern.next_directory(), None);
    assert_eq!(pattern.next_path(), Some(r"C:\no\such\file".to_string()));
    assert_eq!(pattern.next_path(), None);
}

#[test]
fn a_star_stands_for_one_segment() {
    let tree = windows_tree();
    assert_eq!(
        sorted(tree.expand(r"C:\Windows\*")),
        vec![
            r"C:\Windows\notepad.exe".to_string(),
            r"C:\Windows\regedit.exe".to_string(),
            r"C:\Windows\win.ini".to_string(),
        ]
    );
    assert_eq!(
        sorted(tree.expand(r"C:\Windows\*\*.exe")),
        vec![r"C:\Windows\System32\cmd.exe".to_string()]
    );
    assert_eq!(
        sorted(tree.expand(r"C:\Windows\*\drivers\*\host*")),
        vec![r"C:\Windows\System32\drivers\etc\hosts".to_string()]
    );
    assert_eq!(tree.expand(r"C:\Windows\n*.ex"), Vec::<String>::new());
    assert_eq!(tree.expand(r"C:\Windows\*.exe\*"), Vec::<String>::new());
}

#[test]
fn two_stars_stand_for_any_number_of_segments() {
    let tree = windows_tree();
    assert_eq!(
        sorted(tree.expand(r"C:\Windows\**\etc\*")),
        vec![
            r"C:\Windows\System32\drivers\etc\hosts".to_string(),
            r"C:\Windows\System32\drivers\etc\setup.exe".to_string(),
        ]
    );
    assert_eq!(
        sorted(tree.expand(r"C:\Windows\System32\**\hosts")),
        vec![r"C:\Windows\System32\drivers\etc\hosts".to_string()]
    );
    // none included
    assert_eq!(
        sorted(tree.expand(r"C:\Windows\Tasks\**\SA.DAT")),
        vec![r"C:\Windows\Tasks\SA.DAT".to_string()]
    );
    // a file is found once, however many ways the pattern matches it
    assert_eq!(
        sorted(tree.expand(r"C:\Windows\Tasks\**\*\**")),
        vec![r"C:\Windows\Tasks\SA.DAT".to_string(), r"C:\Windows\Tasks\sub\job.job".to_string()]
    );
    assert_eq!(
        sorted(tree.expand(r"C:\Windows\Tasks\**\**")),
        vec![r"C:\Windows\Tasks\SA.DAT".to_string(), r"C:\Windows\Tasks\sub\job.job".to_string()]
    );
}

#[test]
fn a_directory_that_cannot_hold_a_match_is_not_listed() {
    let mut pattern = PathPattern::new(r"C:\Windows\*.exe".to_string());
    assert_eq!(pattern.next_path(), None);
    assert_eq!(pattern.next_directory(), Some(r"C:\Windows".to_string()));
    pattern.offer("System32", EntryKind::Directory);
    pattern.offer("notepad.exe", EntryKind::File);
    pattern.offer("exe.exe", EntryKind::Directory);
    pattern.offer("", EntryKind::File);
    pattern.offer("other.exe", EntryKind::Other);
    assert_eq!(pattern.next_path(), Some(r"C:\Windows\notepad.exe".to_string()));
    assert_eq!(pattern.next_path(), None);
    assert_eq!(pattern.next_directory(), None);
    // nothing is being listed any more
    pattern.offer("late.exe", EntryKind::File);
    assert_eq!(pattern.next_path(), None);
}

#[test]
fn entries_offered_before_a_directory_is_named_are_passed_over() {
    let mut pattern = PathPattern::new(r"C:\x\*".to_string());
    pattern.offer("a", EntryKind::File);
    assert_eq!(pattern.next_path(), None);
    assert_eq!(pattern.next_directory(), Some(r"C:\x".to_string()));
    pattern.offer("a", EntryKind::File);
    pattern.offer("b", EntryKind::File);
    assert_eq!(pattern.next_path(), Some(r"C:\x\a".to_string()));
    assert_eq!(pattern.next_path(), Some(r"C:\x\b".to_string()));
}

#[test]
fn a_pattern_below_a_given_base() {
    let mut pattern = PathPattern::with_base(r"D:\data".to_string(), r"**\*.log".to_string());
    assert_eq!(pattern.next_directory(), Some(r"D:\data".to_string()));
    pattern.offer("a.log", EntryKind::File);
    pattern.offer("deep", EntryKind::Directory);
    assert_eq!(pattern.next_path(), Some(r"D:\data\a.log".to_string()));
    assert_eq!(pattern.next_directory(), Some(r"D:\data\deep".to_string()));
    pattern.offer("b.log", EntryKind::File);
    pattern.offer("b.txt", EntryKind::File);
    assert_eq!(pattern.next_path(), Some(r"D:\data\deep\b.log".to_string()));
    assert_eq!(pattern.next_path(), None);
    assert_eq!(pattern.next_directory(), None);
    let mut plain = PathPattern::with_base(r"D:\data".to_string(), String::new());
    assert_eq!(plain.next_path(), Some(r"D:\data".to_string()));
    assert_eq!(plain.next_directory(), None);
}

#[test]
fn a_segment_is_read_as_a_regular_expression() {
    assert_eq!(replace_pattern("*.exe"), r"^.*\.exe$");
    assert_eq!(replace_pattern("**"), "^.*$");
    assert_eq!(replace_pattern("hosts"), "^hosts$");
    assert_eq!(replace_pattern("$I*"), "^$I.*$");
    assert_eq!(replace_pattern("a.b.c"), r"^a\.b\.c$");
    assert_eq!(replace_pattern("***"), "^.*.*$");
    assert_eq!(replace_pattern("*.*"), r"^.*\..*$");
    assert_eq!(replace_pattern(""), "^$");
    for p in ["*.exe", "**", "a.b*c", "$I*", "****", "*.*.*", ".", "x"] {
        assert_eq!(
            replace_pattern(p),
            format!("^{}$", p.replace(".", "\\.").replace("*", ".*").replace(".*.*", ".*"))
        );
    }
}

#[test]
fn what_the_regex_crate_does_not_match_is_not_found() {
    let tree = Tree {
        dirs: vec![(
            r"C:\$Recycle.Bin".to_string(),
            vec![file("$I0A1B2C.txt"), file("(x"), file("a+b"), file("aab"), file("name.TXT")],
        )],
    };
    // `$` ends the text for the regex crate
    assert_eq!(tree.expand(r"C:\$Recycle.Bin\$I*"), Vec::<String>::new());
    // no regular expression: nothing matches
    assert_eq!(tree.expand(r"C:\$Recycle.Bin\(*"), Vec::<String>::new());
    // `+` repeats for the regex crate
    assert_eq!(tree.expand(r"C:\$Recycle.Bin\a+b*"), vec![r"C:\$Recycle.Bin\aab".to_string()]);
    // letters keep their case
    assert_eq!(tree.expand(r"C:\$Recycle.Bin\*.txt"), vec![r"C:\$Recycle.Bin\$I0A1B2C.txt".to_string()]);
}

#[test]
fn the_reach_follows_the_pattern() {
    // the pattern `**`, `x`, `**`
    let stars = vec![true, false, true];
    let start = first_reach(&stars);
    assert_eq!(start, vec![true, true, false, false]);
    let after_miss = next_reach(&stars, &start, &vec![false, false, false]);
    assert_eq!(after_miss, vec![false, true, false, false]);
    let after_hit = next_reach(&stars, &after_miss, &vec![false, true, false]);
    assert_eq!(after_hit, vec![false, true, true, true]);
    let after_more = next_reach(&stars, &after_hit, &vec![false, false, false]);
    assert_eq!(after_more, vec![false, true, false, true]);
    assert_eq!(first_reach(&Vec::new()), vec![true]);
    assert_eq!(next_reach(&Vec::new(), &vec![true], &Vec::new()), vec![false]);
    assert_eq!(first_reach(&vec![false, true]), vec![true, false, false]);
}

#[test]
fn a_file_is_named_in_the_archive_without_the_colon() {
    assert_eq!(archive_path(r"C:\Windows\x"), r"C\Windows\x");
    assert_eq!(archive_path(r"C:\$Extend\$UsnJrnl:$J"), r"C\$Extend\$UsnJrnl:$J");
    assert_eq!(archive_path(r"C:\"), r"C\");
    assert_eq!(archive_path(r"relative\x"), r"relative\x");
    assert_eq!(archive_path(""), "");
}

#[test]
fn a_file_lies_in_its_parent() {
    assert_eq!(parent_folder(r"C:\Windows\System32\x"), Some(r"C:\Windows\System32".to_string()));
    assert_eq!(parent_folder(r"C:\x"), Some(r"C:\".to_string()));
    assert_eq!(parent_folder(r"C:\"), None);
    assert_eq!(parent_folder("x"), None);
    assert_eq!(parent_folder(""), None);
    assert_eq!(parent_folder(r"dir\x"), Some("dir".to_string()));
    assert_eq!(parent_folder(r"\x"), Some(r"\".to_string()));
    assert_eq!(parent_folder(r"\"), None);
    assert_eq!(
        parent_folder(r"C:\Windows").map(|p| archive_path(&p)),
        Some(r"C\".to_string())
    );
}

#[test]
fn the_default_collection() {
    let params = CollectionParameters::default();
    assert!(!params.all_disks_mft);
    assert!(!params.usn_jrnl);
    assert!(!params.all_usn_jrnl);
    assert_eq!(params.out_file, "./frnsc-triage.zip");
    assert_eq!(params.threads, 4);
    assert_eq!(params.buffer_size, 1_000_000);
    assert_eq!(params.paths, get_default_collection_paths());
    let paths = get_default_collection_paths();
    assert_eq!(paths.len(), 42);
    assert_eq!(paths[0], r"%SYSTEMDRIVE%\$LogFile");
    assert_eq!(paths[1], r"%SYSTEMDRIVE%\$MFT");
    assert_eq!(paths[8], r"%SYSTEMROOT%\System32\drivers\etc\hosts");
    assert_eq!(paths[26], r"%SYSTEMDRIVE%\$Recycle.Bin\**\$I*");
    assert_eq!(paths[41], r"%USERHOME%\AppData\Local\Microsoft\Edge\User Data\Default\History\**");
    assert_eq!(USN_JRNL_PATH, r"%SYSTEMDRIVE%\$Extend\$UsnJrnl:$J");
    assert_eq!(USN_JRNL_MAX_PATH, r"%SYSTEMDRIVE%\$Extend\$UsnJrnl:$MAX");
    let collector = TriageCollector::new(params);
    assert_eq!(collector.parameters().threads, 4);
}

fn collector(usn: bool, all_mft: bool, all_usn: bool, paths: &[&str]) -> TriageCollector {
    TriageCollector::new(CollectionParameters {
        all_disks_mft: all_mft,
        usn_jrnl: usn,
        all_usn_jrnl: all_usn,
        paths: paths.iter().map(|p| p.to_string()).collect(),
        out_file: "out.zip".to_string(),
        threads: 2,
        buffer_size: 8192,
    })
}

fn strings(v: &[&str]) -> Vec<String> {
    v.iter().map(|s| s.to_string()).collect()
}

#[test]
fn the_catalog_is_resolved() {
    let c = collector(
        false,
        false,
        false,
        &[
            r"%SYSTEMDRIVE%\$MFT",
            r"%SYSTEMROOT%\Tasks\**",
            r"%PROGRAMDATA%\Microsoft\x",
            r"%USERHOME%\NTUser.DAT",
            r"D:\plain\path",
            r"%OTHER%\x",
        ],
    );
    let homes = strings(&[r"C:\Users\ana", r"%SystemDrive%\Users\bo"]);
    let drives = strings(&[r"C:\", r"D:\"]);
    assert_eq!(
        c.prepare_paths_to_collect(
            r"C:\Windows",
            r"C:\",
            r"%SystemDrive%\ProgramData",
            &homes,
            &drives
        ),
        strings(&[
            r"C:\$MFT",
            r"C:\Windows\Tasks\**",
            r"C:\ProgramData\Microsoft\x",
            r"C:\Users\ana\NTUser.DAT",
            r"C:\Users\bo\NTUser.DAT",
            r"D:\plain\path",
            r"%OTHER%\x",
        ])
    );
}

#[test]
fn journals_and_other_drives_come_first() {
    let homes = Vec::new();
    let drives = strings(&[r"A:\", r"C:\", r"D:\"]);
    let go = |c: &TriageCollector| {
        c.prepare_paths_to_collect(r"C:\Windows", r"C:\", r"C:\ProgramData", &homes, &drives)
    };
    assert_eq!(
        go(&collector(true, false, false, &[r"x"])),
        strings(&[r"C:\$Extend\$UsnJrnl:$J", r"C:\$Extend\$UsnJrnl:$MAX", "x"])
    );
    assert_eq!(
        go(&collector(false, true, false, &[])),
        strings(&[r"A:\$MFT", r"D:\$MFT"])
    );
    assert_eq!(
        go(&collector(false, false, true, &[])),
        strings(&[
            r"A:\$Extend\$UsnJrnl:$J",
            r"A:\$Extend\$UsnJrnl:$MAX",
            r"C:\$Extend\$UsnJrnl:$J",
            r"C:\$Extend\$UsnJrnl:$MAX",
            r"D:\$Extend\$UsnJrnl:$J",
            r"D:\$Extend\$UsnJrnl:$MAX",
        ])
    );
    assert_eq!(
        go(&collector(true, true, true, &[r"%USERHOME%\x"])),
        strings(&[
            r"C:\$Extend\$UsnJrnl:$J",
            r"C:\$Extend\$UsnJrnl:$MAX",
            r"A:\$MFT",
            r"D:\$MFT",
            r"A:\$Extend\$UsnJrnl:$J",
            r"A:\$Extend\$UsnJrnl:$MAX",
            r"D:\$Extend\$UsnJrnl:$J",
            r"D:\$Extend\$UsnJrnl:$MAX",
        ])
    );
    assert_eq!(go(&collector(false, false, false, &[])), Vec::<String>::new());
}

#[test]
fn a_worker_reads_a_small_file_before_it_takes_the_archive() {
    let c = collector(false, false, false, &[]);
    let (s, a) = c.worker_step(WorkerState::Idle, path_event(Some(r"C:\small")));
    assert_eq!((s, a), (WorkerState::Opening, WorkerAction::Open));
    let (s, a) = c.worker_step(s, WorkerEvent::Opened(8191));
    assert_eq!((s, a), (WorkerState::SmallReading { file_size: 8191 }, WorkerAction::Read));
    let (s, a) = c.worker_step(s, WorkerEvent::Read(8191));
    assert_eq!(
        (s, a),
        (WorkerState::Starting { pending: Some(8191), last: true }, WorkerAction::StartEntry)
    );
    let (s, a) = c.worker_step(s, WorkerEvent::Started);
    assert_eq!((s, a), (WorkerState::Writing { last: true }, WorkerAction::Write(8191)));
    let (s, a) = c.worker_step(s, WorkerEvent::Written);
    assert_eq!((s, a), (WorkerState::Idle, WorkerAction::NextPath));
    let (s, a) = c.worker_step(s, path_event(None));
    assert_eq!((s, a), (WorkerState::Done, WorkerAction::Stop));
    assert_eq!(c.worker_step(s, WorkerEvent::Opened(1)), (WorkerState::Done, WorkerAction::Stop));
}

#[test]
fn a_worker_streams_a_large_file_while_it_holds_the_archive() {
    let c = collector(false, false, false, &[]);
    let (s, a) = c.worker_step(WorkerState::Opening, WorkerEvent::Opened(8192));
    assert_eq!(
        (s, a),
        (WorkerState::Starting { pending: None, last: false }, WorkerAction::StartEntry)
    );
    let (s, a) = c.worker_step(s, WorkerEvent::Started);
    assert_eq!((s, a), (WorkerState::Streaming, WorkerAction::Read));
    let (s, a) = c.worker_step(s, WorkerEvent::Read(8192));
    assert_eq!((s, a), (WorkerState::Writing { last: false }, WorkerAction::Write(8192)));
    let (s, a) = c.worker_step(s, WorkerEvent::Written);
    assert_eq!((s, a), (WorkerState::Streaming, WorkerAction::Read));
    let (s, a) = c.worker_step(s, WorkerEvent::Read(0));
    assert_eq!((s, a), (WorkerState::Idle, WorkerAction::NextPath));
}

#[test]
fn a_worker_keeps_a_small_file_that_lies_in_several_extents() {
    let c = collector(false, false, false, &[]);
    let (s, a) = c.worker_step(WorkerState::Opening, WorkerEvent::Opened(8191));
    assert_eq!((s, a), (WorkerState::SmallReading { file_size: 8191 }, WorkerAction::Read));
    let (s, a) = c.worker_step(s, WorkerEvent::Read(4096));
    assert_eq!(
        (s, a),
        (WorkerState::Starting { pending: Some(4096), last: false }, WorkerAction::StartEntry)
    );
    let (s, a) = c.worker_step(s, WorkerEvent::Started);
    assert_eq!((s, a), (WorkerState::Writing { last: false }, WorkerAction::Write(4096)));
    let (s, a) = c.worker_step(s, WorkerEvent::Written);
    assert_eq!((s, a), (WorkerState::Streaming, WorkerAction::Read));
    let (s, a) = c.worker_step(s, WorkerEvent::Read(4095));
    assert_eq!((s, a), (WorkerState::Writing { last: false }, WorkerAction::Write(4095)));
    let (s, a) = c.worker_step(s, WorkerEvent::Written);
    assert_eq!((s, a), (WorkerState::Streaming, WorkerAction::Read));
    let (s, a) = c.worker_step(s, WorkerEvent::Read(0));
    assert_eq!((s, a), (WorkerState::Idle, WorkerAction::NextPath));
}

#[test]
fn a_worker_makes_an_entry_for_a_small_file_of_which_nothing_is_read() {
    let c = collector(false, false, false, &[]);
    let (s, a) = c.worker_step(WorkerState::SmallReading { file_size: 10 }, WorkerEvent::Read(0));
    assert_eq!(
        (s, a),
        (WorkerState::Starting { pending: Some(0), last: true }, WorkerAction::StartEntry)
    );
    let (s, a) = c.worker_step(s, WorkerEvent::Started);
    assert_eq!((s, a), (WorkerState::Writing { last: true }, WorkerAction::Write(0)));
    assert_eq!(
        c.worker_step(s, WorkerEvent::Written),
        (WorkerState::Idle, WorkerAction::NextPath)
    );
}

#[test]
fn a_small_file_in_two_extents_is_archived_in_full() {
    // a file of 6000 bytes in two clusters that lie apart on the volume
    let cluster = 4096usize;
    let content: Vec<u8> = (0..6000u32).map(|i| (i % 251) as u8).collect();
    let extents = vec![PointerExtent { next_vcn: 1, lcn: 9 }, PointerExtent { next_vcn: 2, lcn: 3 }];
    let mut volume = vec![0xEEu8; 12 * cluster];
    volume[9 * cluster..10 * cluster].copy_from_slice(&content[0..cluster]);
    volume[3 * cluster..3 * cluster + 6000 - cluster].copy_from_slice(&content[cluster..]);
    let pointers = RetrievalPointersBuffer { extent_count: 2, starting_vcn: 0, extents };
    let mut file = RawFile::open(8, 512, 6000, pointers).unwrap();

    let c = collector(false, false, false, &[]);
    let mut buffer = vec![0u8; c.parameters().buffer_size];
    let mut entry: Option<Vec<u8>> = None;
    let mut state = WorkerState::Opening;
    let mut event = WorkerEvent::Opened(6000);
    let mut reads = 0;
    loop {
        let (next, action) = c.worker_step(state, event);
        state = next;
        event = match action {
            WorkerAction::Read => {
                reads += 1;
                match file.next_read(buffer.len()).unwrap() {
                    None => WorkerEvent::Read(0),
                    Some(d) => {
                        let from = d.offset as usize;
                        let len = d.length as usize;
                        buffer[0..len].copy_from_slice(&volume[from..from + len]);
                        WorkerEvent::Read(file.finish_read(buffer.len(), d.length))
                    }
                }
            }
            WorkerAction::StartEntry => {
                entry = Some(Vec::new());
                WorkerEvent::Started
            }
            WorkerAction::Write(n) => {
                entry.as_mut().unwrap().extend_from_slice(&buffer[0..n]);
                WorkerEvent::Written
            }
            WorkerAction::NextPath => break,
            WorkerAction::Open | WorkerAction::Stop => panic!("out of turn"),
        };
    }
    assert_eq!(reads, 3);
    assert_eq!(entry, Some(content));
}

#[test]
fn a_worker_gives_a_file_up_and_goes_on() {
    let c = collector(false, false, false, &[]);
    let next = (WorkerState::Idle, WorkerAction::NextPath);
    assert_eq!(c.worker_step(WorkerState::Idle, path_event(Some(r"C:\Windows\**\*.exe"))), next);
    assert_eq!(path_event(Some(r"C:\a*")), WorkerEvent::Path { is_pattern: true });
    assert_eq!(path_event(Some(r"C:\a")), WorkerEvent::Path { is_pattern: false });
    assert_eq!(path_event(None), WorkerEvent::NoPath);
    assert_eq!(c.worker_step(WorkerState::Opening, WorkerEvent::Failed), next);
    assert_eq!(c.worker_step(WorkerState::SmallReading { file_size: 10 }, WorkerEvent::Failed), next);
    assert_eq!(
        c.worker_step(WorkerState::Starting { pending: None, last: false }, WorkerEvent::Failed),
        next
    );
    assert_eq!(
        c.worker_step(WorkerState::Starting { pending: Some(9), last: false }, WorkerEvent::Failed),
        next
    );
    assert_eq!(c.worker_step(WorkerState::Streaming, WorkerEvent::Failed), next);
    assert_eq!(c.worker_step(WorkerState::Writing { last: false }, WorkerEvent::Failed), next);
    assert_eq!(c.worker_step(WorkerState::Idle, WorkerEvent::Written), next);
    assert_eq!(c.worker_step(WorkerState::Streaming, WorkerEvent::Started), next);
}

/// One file of the host of `test_collector`.
struct HostFile {
    path: &'static str,
    content: Vec<u8>,
    opens: bool,
}

#[test]
fn test_collector() {
    let collector = TriageCollector::new(CollectionParameters {
        all_disks_mft: false,
        usn_jrnl: false,
        all_usn_jrnl: false,
        paths: get_default_collection_paths(),
        out_file: "triage-test.zip".to_string(),
        threads: 4,
        buffer_size: 1_000_000,
    });
    let homes = vec![r"C:\Users\ana".to_string()];
    let queue = collector.prepare_paths_to_collect(
        r"C:\Windows",
        r"C:\",
        r"C:\ProgramData",
        &homes,
        &vec![r"C:\".to_string()],
    );
    assert_eq!(queue.len(), 42);
    assert!(queue.contains(&r"C:\$MFT".to_string()));
    assert!(queue.contains(&r"C:\Users\ana\NTUser.DAT".to_string()));
    assert!(queue.iter().all(|p| !p.starts_with('%')));

    let host = vec![
        HostFile { path: r"C:\$MFT", content: vec![7u8; 2_500_000], opens: true },
        HostFile { path: r"C:\Windows\System32\config\SAM", content: vec![1u8; 65_536], opens: true },
        HostFile { path: r"C:\Windows\System32\drivers\etc\hosts", content: b"127.0.0.1 localhost".to_vec(), opens: true },
        HostFile { path: r"C:\Users\ana\NTUser.DAT", content: vec![3u8; 10], opens: false },
    ];

    // one worker, run by hand: the archive is a list of entries
    let mut queue = queue;
    let mut archive: Vec<(String, Option<String>, Vec<u8>)> = Vec::new();
    let mut state = WorkerState::Idle;
    let mut action = WorkerAction::NextPath;
    let mut path = String::new();
    let mut offset = 0usize;
    let mut buffered = 0usize;
    let buffer_size = collector.parameters().buffer_size;
    let mut steps = 0;
    loop {
        steps += 1;
        assert!(steps < 10_000);
        let event = match action {
            WorkerAction::Stop => break,
            WorkerAction::NextPath => {
                let next = queue.pop();
                if let Some(p) = &next {
                    path = p.clone();
                    offset = 0;
                }
                path_event(next.as_deref())
            }
            WorkerAction::Open => match host.iter().find(|f| f.path == path && f.opens) {
                Some(f) => WorkerEvent::Opened(f.content.len() as u64),
                None => WorkerEvent::Failed,
            },
            WorkerAction::Read => {
                let f = host.iter().find(|f| f.path == path).unwrap();
                let n = (f.content.len() - offset).min(buffer_size / 4096 * 4096);
                buffered = offset;
                offset += n;
                WorkerEvent::Read(n)
            }
            WorkerAction::StartEntry => {
                archive.push((
                    archive_path(&path),
                    parent_folder(&path).map(|p| archive_path(&p)),
                    Vec::new(),
                ));
                WorkerEvent::Started
            }
            WorkerAction::Write(n) => {
                let f = host.iter().find(|f| f.path == path).unwrap();
                let entry = archive.last_mut().unwrap();
                entry.2.extend_from_slice(&f.content[buffered..buffered + n]);
                WorkerEvent::Written
            }
        };
        let next = collector.worker_step(state, event);
        state = next.0;
        action = next.1;
    }
    assert_eq!(state, WorkerState::Done);
    assert!(queue.is_empty());
    let names: Vec<&str> = archive.iter().map(|e| e.0.as_str()).collect();
    assert_eq!(
        names,
        vec![r"C\Windows\System32\config\SAM", r"C\Windows\System32\drivers\etc\hosts", r"C\$MFT"]
    );
    assert_eq!(archive[0].1, Some(r"C\Windows\System32\config".to_string()));
    assert_eq!(archive[2].1, Some(r"C\".to_string()));
    assert_eq!(archive[0].2, vec![1u8; 65_536]);
    assert_eq!(archive[1].2, b"127.0.0.1 localhost".to_vec());
    assert_eq!(archive[2].2.len(), 2_500_000);
    assert!(archive[2].2.iter().all(|b| *b == 7));
}
