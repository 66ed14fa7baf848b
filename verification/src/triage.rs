//! The triage orchestrator: which paths to collect, and what a worker does
//! with each of them.

use vstd::prelude::*;
pub use crate::pattern::replace_pattern;
pub use crate::pattern::PathPattern;
pub use crate::pattern::PathPatternIterator;
use crate::artifacts::default_collection_paths;
use crate::artifacts::get_default_collection_paths;
use crate::artifacts::USN_JRNL_MAX_PATH;
use crate::artifacts::USN_JRNL_PATH;
use crate::helpers::after_variable;
use crate::helpers::contains_env_var;
use crate::helpers::envvars_replaced;
use crate::helpers::is_user_home_env;
use crate::helpers::join_with_separator;
use crate::helpers::replace_envvars;
use crate::helpers::replace_home_vars;
use crate::helpers::variable_end;
use crate::helpers::with_separator;
use crate::text::append;
use crate::text::chars_of;
use crate::text::has_char;
use crate::text::matches_at;
use crate::text::replace_all;
use crate::text::replaced;
use crate::text::string_of;
use crate::text::texts;

verus! {

/// What a collection is asked to do.
#[derive(Clone, Debug)]
pub struct CollectionParameters {
    /// Collects the MFT from all disks
    pub all_disks_mft: bool,
    /// Collects the USN journal from the system drive
    pub usn_jrnl: bool,
    /// Collects the USN journal for all the drives
    pub all_usn_jrnl: bool,
    /// The templates of the artifacts to collect
    pub paths: Vec<String>,
    /// The archive to write
    pub out_file: String,
    /// The number of workers
    pub threads: usize,
    /// The size in bytes of the buffer of each worker
    pub buffer_size: usize,
}

impl Default for CollectionParameters {
    /// The default collection: the default catalog, no journal and no other
    /// disk, written to `./frnsc-triage.zip` by 4 workers with buffers of
    /// 1,000,000 bytes.
    fn default() -> (r: Self)
        ensures
            !r.all_disks_mft,
            !r.usn_jrnl,
            !r.all_usn_jrnl,
            texts(r.paths@) == default_collection_paths(),
            r.out_file@ == "./frnsc-triage.zip"@,
            r.threads == 4,
            r.buffer_size == 1_000_000,
    {
        CollectionParameters {
            all_disks_mft: false,
            usn_jrnl: false,
            all_usn_jrnl: false,
            paths: get_default_collection_paths(),
            out_file: "./frnsc-triage.zip".to_string(),
            threads: 4,
            buffer_size: 1_000_000,
        }
    }
}

/// The value of `PROGRAMDATA`, with a variable at its start replaced.
pub open spec fn resolved_program_data(
    program_data: Seq<char>,
    sys_drive: Seq<char>,
    sys_root: Seq<char>,
) -> Seq<char> {
    envvars_replaced(program_data, sys_drive, sys_root, Seq::empty())
}

/// A home directory, with a variable at its start replaced.
pub open spec fn resolved_home(
    home: Seq<char>,
    sys_drive: Seq<char>,
    sys_root: Seq<char>,
    prog_data: Seq<char>,
) -> Seq<char> {
    if home.len() > 0 && home[0] == '%' {
        envvars_replaced(home, sys_drive, sys_root, prog_data)
    } else {
        home
    }
}

/// The home directories, each with a variable at its start replaced.
pub open spec fn resolved_homes(
    homes: Seq<Seq<char>>,
    sys_drive: Seq<char>,
    sys_root: Seq<char>,
    prog_data: Seq<char>,
) -> Seq<Seq<char>> {
    Seq::new(homes.len(), |i: int| resolved_home(homes[i], sys_drive, sys_root, prog_data))
}

/// The two paths of the change journal of the system drive.
pub open spec fn system_usn_paths(
    sys_drive: Seq<char>,
    sys_root: Seq<char>,
    prog_data: Seq<char>,
) -> Seq<Seq<char>> {
    seq![
        envvars_replaced(USN_JRNL_PATH@, sys_drive, sys_root, prog_data),
        envvars_replaced(USN_JRNL_MAX_PATH@, sys_drive, sys_root, prog_data),
    ]
}

/// The `$MFT` of every mounted drive but the system drive, whose own is in
/// the catalog.
pub open spec fn mft_paths(devices: Seq<Seq<char>>, sys_drive: Seq<char>) -> Seq<Seq<char>>
    decreases devices.len(),
{
    if devices.len() == 0 {
        Seq::empty()
    } else if devices.last() == sys_drive {
        mft_paths(devices.drop_last(), sys_drive)
    } else {
        mft_paths(devices.drop_last(), sys_drive).push(devices.last() + "$MFT"@)
    }
}

/// The two paths of the change journal of every mounted drive; without the
/// system drive where `system_done` says that its journal is collected
/// already.
pub open spec fn usn_paths(devices: Seq<Seq<char>>, sys_drive: Seq<char>, system_done: bool) -> Seq<
    Seq<char>,
>
    decreases devices.len(),
{
    if devices.len() == 0 {
        Seq::empty()
    } else if devices.last() == sys_drive && system_done {
        usn_paths(devices.drop_last(), sys_drive, system_done)
    } else {
        usn_paths(devices.drop_last(), sys_drive, system_done).push(
            with_separator(devices.last(), r"$Extend\$UsnJrnl:$J"@),
        ).push(with_separator(devices.last(), r"$Extend\$UsnJrnl:$MAX"@))
    }
}

/// The paths of a `%USERHOME%` template: one for each home directory.
pub open spec fn home_paths(template: Seq<char>, homes: Seq<Seq<char>>) -> Seq<Seq<char>> {
    if variable_end(template) < 0 {
        Seq::empty()
    } else {
        Seq::new(homes.len(), |i: int| with_separator(homes[i], after_variable(template)))
    }
}

/// The paths that one template of the catalog stands for.
pub open spec fn template_paths(
    template: Seq<char>,
    homes: Seq<Seq<char>>,
    sys_drive: Seq<char>,
    sys_root: Seq<char>,
    prog_data: Seq<char>,
) -> Seq<Seq<char>> {
    if "%USERHOME%"@.is_prefix_of(template) {
        home_paths(template, homes)
    } else if template.len() > 0 && template[0] == '%' {
        seq![envvars_replaced(template, sys_drive, sys_root, prog_data)]
    } else {
        seq![template]
    }
}

/// The paths that the templates of a catalog stand for, in order.
pub open spec fn catalog_paths(
    templates: Seq<Seq<char>>,
    homes: Seq<Seq<char>>,
    sys_drive: Seq<char>,
    sys_root: Seq<char>,
    prog_data: Seq<char>,
) -> Seq<Seq<char>>
    decreases templates.len(),
{
    if templates.len() == 0 {
        Seq::empty()
    } else {
        catalog_paths(templates.drop_last(), homes, sys_drive, sys_root, prog_data)
            + template_paths(templates.last(), homes, sys_drive, sys_root, prog_data)
    }
}

/// The list of paths of a collection: the journal of the system drive where
/// asked for, the `$MFT` and the journals of the other drives where asked
/// for, then the paths of the catalog.
pub open spec fn paths_to_collect(
    params: CollectionParameters,
    sys_root: Seq<char>,
    sys_drive: Seq<char>,
    program_data: Seq<char>,
    users_homes: Seq<Seq<char>>,
    mounted_devices: Seq<Seq<char>>,
) -> Seq<Seq<char>> {
    let prog_data = resolved_program_data(program_data, sys_drive, sys_root);
    let homes = resolved_homes(users_homes, sys_drive, sys_root, prog_data);
    (if params.usn_jrnl {
        system_usn_paths(sys_drive, sys_root, prog_data)
    } else {
        Seq::empty()
    }) + (if params.all_disks_mft {
        mft_paths(mounted_devices, sys_drive)
    } else {
        Seq::empty()
    }) + (if params.all_usn_jrnl {
        usn_paths(mounted_devices, sys_drive, params.usn_jrnl)
    } else {
        Seq::empty()
    }) + catalog_paths(texts(params.paths@), homes, sys_drive, sys_root, prog_data)
}

/// Tests whether two texts are the same.
fn same_text(a: &str, b: &str) -> (r: bool)
    ensures
        r == (a@ == b@),
{
    let x: Vec<char> = chars_of(a);
    let y: Vec<char> = chars_of(b);
    if x.len() != y.len() {
        return false;
    }
    let r: bool = matches_at(x.as_slice(), y.as_slice(), 0);
    assert(x@.subrange(0, x@.len() as int) =~= x@);
    r
}

/// The two texts, one after the other.
fn concat(a: &str, b: &str) -> (r: String)
    ensures
        r@ == a@ + b@,
{
    let mut out: Vec<char> = chars_of(a);
    let tail: Vec<char> = chars_of(b);
    append(&mut out, tail.as_slice());
    string_of(out.as_slice())
}

/// Moves the strings of `part` to the end of `out`.
fn extend(out: &mut Vec<String>, part: Vec<String>)
    ensures
        texts(final(out)@) == texts(old(out)@) + texts(part@),
{
    let mut i: usize = 0;
    while i < part.len()
        invariant
            i <= part@.len(),
            texts(out@) == texts(old(out)@) + texts(part@.take(i as int)),
        decreases part@.len() - i,
    {
        let ghost before = out@;
        let item: String = part[i].clone();
        out.push(item);
        assert(texts(part@.take(i + 1)) =~= texts(part@.take(i as int)).push(item@));
        assert(texts(out@) =~= texts(before).push(item@));
        i += 1;
    }
    assert(part@.take(part@.len() as int) =~= part@);
}

/// Resolves the variable at the start of each home directory.
fn resolve_homes(users_homes: &Vec<String>, sys_drive: &str, sys_root: &str, prog_data: &str) -> (r:
    Vec<String>)
    ensures
        texts(r@) == resolved_homes(texts(users_homes@), sys_drive@, sys_root@, prog_data@),
{
    let mut vc: Vec<String> = Vec::new();
    let mut i: usize = 0;
    while i < users_homes.len()
        invariant
            i <= users_homes@.len(),
            vc@.len() == i,
            forall|j: int|
                0 <= j < i ==> (#[trigger] vc@[j])@ == resolved_home(
                    users_homes@[j]@,
                    sys_drive@,
                    sys_root@,
                    prog_data@,
                ),
        decreases users_homes@.len() - i,
    {
        let v: &String = &users_homes[i];
        if contains_env_var(v.as_str()) {
            vc.push(replace_envvars(v.as_str(), sys_drive, sys_root, prog_data));
        } else {
            vc.push(v.clone());
        }
        i += 1;
    }
    assert(texts(vc@) =~= resolved_homes(texts(users_homes@), sys_drive@, sys_root@, prog_data@));
    vc
}

/// The `$MFT` of every drive but the system drive.
fn collect_mft_paths(devices: &Vec<String>, sys_drive: &str) -> (r: Vec<String>)
    ensures
        texts(r@) == mft_paths(texts(devices@), sys_drive@),
{
    let mut out: Vec<String> = Vec::new();
    let mut i: usize = 0;
    assert(texts(devices@).take(0) =~= Seq::<Seq<char>>::empty());
    while i < devices.len()
        invariant
            i <= devices@.len(),
            texts(out@) == mft_paths(texts(devices@).take(i as int), sys_drive@),
        decreases devices@.len() - i,
    {
        let ghost done = texts(devices@).take(i as int);
        let ghost more = texts(devices@).take(i + 1);
        assert(more.drop_last() =~= done);
        assert(more.last() == devices@[i as int]@);
        if !same_text(devices[i].as_str(), sys_drive) {
            let ghost before = texts(out@);
            out.push(concat(devices[i].as_str(), "$MFT"));
            assert(texts(out@) =~= before.push(devices@[i as int]@ + "$MFT"@));
        }
        i += 1;
    }
    assert(texts(devices@).take(devices@.len() as int) =~= texts(devices@));
    out
}

/// `base` followed by `rest`, with one backslash between them.
fn join_path(base: &str, rest: &str) -> (r: String)
    ensures
        r@ == with_separator(base@, rest@),
{
    let b: Vec<char> = chars_of(base);
    let t: Vec<char> = chars_of(rest);
    let out: Vec<char> = join_with_separator(b.as_slice(), t.as_slice());
    string_of(out.as_slice())
}

/// The two paths of the change journal of every drive.
fn collect_usn_paths(devices: &Vec<String>, sys_drive: &str, system_done: bool) -> (r: Vec<String>)
    ensures
        texts(r@) == usn_paths(texts(devices@), sys_drive@, system_done),
{
    let mut out: Vec<String> = Vec::new();
    let mut i: usize = 0;
    assert(texts(devices@).take(0) =~= Seq::<Seq<char>>::empty());
    while i < devices.len()
        invariant
            i <= devices@.len(),
            texts(out@) == usn_paths(texts(devices@).take(i as int), sys_drive@, system_done),
        decreases devices@.len() - i,
    {
        let ghost done = texts(devices@).take(i as int);
        let ghost more = texts(devices@).take(i + 1);
        assert(more.drop_last() =~= done);
        assert(more.last() == devices@[i as int]@);
        if !(same_text(devices[i].as_str(), sys_drive) && system_done) {
            let ghost before = texts(out@);
            out.push(join_path(devices[i].as_str(), r"$Extend\$UsnJrnl:$J"));
            out.push(join_path(devices[i].as_str(), r"$Extend\$UsnJrnl:$MAX"));
            assert(texts(out@) =~= before.push(
                with_separator(devices@[i as int]@, r"$Extend\$UsnJrnl:$J"@),
            ).push(with_separator(devices@[i as int]@, r"$Extend\$UsnJrnl:$MAX"@)));
        }
        i += 1;
    }
    assert(texts(devices@).take(devices@.len() as int) =~= texts(devices@));
    out
}

/// The paths that one template of the catalog stands for.
fn expand_template(
    template: &String,
    homes: &Vec<String>,
    sys_drive: &str,
    sys_root: &str,
    prog_data: &str,
) -> (r: Vec<String>)
    ensures
        texts(r@) == template_paths(template@, texts(homes@), sys_drive@, sys_root@, prog_data@),
{
    if is_user_home_env(template.as_str()) {
        let out: Vec<String> = replace_home_vars(template.as_str(), homes);
        assert(texts(out@) =~= home_paths(template@, texts(homes@)));
        out
    } else if contains_env_var(template.as_str()) {
        let mut out: Vec<String> = Vec::new();
        out.push(replace_envvars(template.as_str(), sys_drive, sys_root, prog_data));
        assert(texts(out@) =~= seq![
            envvars_replaced(template@, sys_drive@, sys_root@, prog_data@),
        ]);
        out
    } else {
        let mut out: Vec<String> = Vec::new();
        out.push(template.clone());
        assert(texts(out@) =~= seq![template@]);
        out
    }
}

/// The name of a file inside the archive: its path with every `:\` turned
/// into `\`, so that `C:\Windows\x` becomes `C\Windows\x`.
pub open spec fn archive_name(path: Seq<char>) -> Seq<char> {
    replaced(path, seq![':', '\\'], seq!['\\'])
}

/// The place of the last backslash of a path, or -1.
pub open spec fn last_backslash(path: Seq<char>) -> int
    decreases path.len(),
{
    if path.len() == 0 {
        -1
    } else if path.last() == '\\' {
        path.len() - 1
    } else {
        last_backslash(path.drop_last())
    }
}

/// The directory that holds a path: what stands before its last backslash.
/// Where that is a root (nothing, or a drive and its colon) the backslash
/// belongs to it. A text without a backslash has no parent, nor has a root.
pub open spec fn parent_of(path: Seq<char>) -> Option<Seq<char>> {
    let i = last_backslash(path);
    if i < 0 {
        None
    } else if i == 0 || path[i - 1] == ':' {
        if i == path.len() - 1 {
            None
        } else {
            Some(path.take(i + 1))
        }
    } else {
        Some(path.take(i))
    }
}

/// Gives the name of a file inside the archive.
pub fn archive_path(path: &str) -> (r: String)
    ensures
        r@ == archive_name(path@),
{
    let chars: Vec<char> = chars_of(path);
    let mut from: Vec<char> = Vec::new();
    from.push(':');
    from.push('\\');
    let mut to: Vec<char> = Vec::new();
    to.push('\\');
    assert(from@ =~= seq![':', '\\']);
    assert(to@ =~= seq!['\\']);
    let out: Vec<char> = replace_all(chars.as_slice(), from.as_slice(), to.as_slice());
    string_of(out.as_slice())
}

/// Gives the directory that holds a path.
pub fn parent_folder(path: &str) -> (r: Option<String>)
    ensures
        r is Some <==> parent_of(path@) is Some,
        r matches Some(p) ==> p@ == parent_of(path@)->Some_0,
{
    let chars: Vec<char> = chars_of(path);
    let mut n: usize = chars.len();
    assert(chars@.take(n as int) =~= chars@);
    while n > 0 && chars[n - 1] != '\\'
        invariant
            n <= chars@.len(),
            last_backslash(chars@) == last_backslash(chars@.take(n as int)),
        decreases n,
    {
        assert(chars@.take(n as int).drop_last() =~= chars@.take(n - 1));
        n -= 1;
    }
    if n == 0 {
        assert(chars@.take(0).len() == 0);
        return None;
    }
    let i: usize = n - 1;
    assert(chars@.take(n as int).last() == '\\');
    let keep: usize = if i == 0 || chars[i - 1] == ':' {
        if i == chars.len() - 1 {
            return None;
        }
        i + 1
    } else {
        i
    };
    let mut out: Vec<char> = Vec::new();
    let mut k: usize = 0;
    while k < keep
        invariant
            k <= keep <= chars@.len(),
            out@ == chars@.take(k as int),
        decreases keep - k,
    {
        out.push(chars[k]);
        assert(out@ =~= chars@.take(k + 1));
        k += 1;
    }
    Some(string_of(out.as_slice()))
}

/// What a worker is doing between two events.
#[derive(Clone, Copy, Debug, PartialEq, Eq, Structural)]
pub enum WorkerState {
    /// Between two files: the next path has been asked for.
    Idle,
    /// The raw reader is being opened on a path.
    Opening,
    /// A file smaller than the buffer is being read, before the archive is
    /// taken.
    SmallReading { file_size: u64 },
    /// The archive is taken and the entry of the file is being started;
    /// `pending` is the number of bytes that wait in the buffer, and `last`
    /// says that no byte of the file follows them.
    Starting { pending: Option<usize>, last: bool },
    /// The next chunk of a file is being read while the archive is held.
    Streaming,
    /// A chunk is being written; `last` says that none follows.
    Writing { last: bool },
    /// The queue was empty: the worker has stopped.
    Done,
}

/// What happened to a worker.
#[derive(Clone, Copy, Debug, PartialEq, Eq, Structural)]
pub enum WorkerEvent {
    /// The queue is empty.
    NoPath,
    /// A path was taken from the queue; `is_pattern` says that it holds a
    /// wildcard.
    Path { is_pattern: bool },
    /// The raw reader was opened on a file of the given size.
    Opened(u64),
    /// A read put the given number of bytes into the buffer.
    Read(usize),
    /// The entry of the file was started in the archive.
    Started,
    /// The chunk was written to the archive.
    Written,
    /// The step that was asked for failed.
    Failed,
}

/// What a worker has to do next.
#[derive(Clone, Copy, Debug, PartialEq, Eq, Structural)]
pub enum WorkerAction {
    /// Release the archive if it is held, and take the next path.
    NextPath,
    /// Open the raw reader on the path.
    Open,
    /// Read the next chunk of the file into the buffer.
    Read,
    /// Take the archive, add the directory of the file and start its entry.
    StartEntry,
    /// Write the given number of bytes of the buffer to the entry.
    Write(usize),
    /// Stop.
    Stop,
}

/// Whether a worker in this state holds the archive.
pub open spec fn holds_archive(state: WorkerState) -> bool {
    state is Starting || state is Streaming || state is Writing
}

/// The state that follows an event, and what the worker does next.
///
/// A path with a wildcard is passed over. A file smaller than the buffer is
/// read once before the archive is taken. Where that read brought the whole
/// file, or nothing, what it brought is written and the file is done; where
/// it brought a part, as it does of a file in several extents, the part is
/// written and the rest is streamed. A larger file is streamed chunk by
/// chunk while the archive is held, until a read returns 0. A failure, or an
/// event out of turn, gives the file up: the worker goes on with the next
/// path.
pub open spec fn worker_next(buffer_size: usize, state: WorkerState, event: WorkerEvent) -> (
    WorkerState,
    WorkerAction,
) {
    match (state, event) {
        (WorkerState::Done, _) => (WorkerState::Done, WorkerAction::Stop),
        (WorkerState::Idle, WorkerEvent::NoPath) => (WorkerState::Done, WorkerAction::Stop),
        (WorkerState::Idle, WorkerEvent::Path { is_pattern }) => if is_pattern {
            (WorkerState::Idle, WorkerAction::NextPath)
        } else {
            (WorkerState::Opening, WorkerAction::Open)
        },
        (WorkerState::Opening, WorkerEvent::Opened(size)) => if size < buffer_size {
            (WorkerState::SmallReading { file_size: size }, WorkerAction::Read)
        } else {
            (WorkerState::Starting { pending: None, last: false }, WorkerAction::StartEntry)
        },
        (WorkerState::SmallReading { file_size }, WorkerEvent::Read(n)) => (
            WorkerState::Starting { pending: Some(n), last: n == file_size || n == 0 },
            WorkerAction::StartEntry,
        ),
        (WorkerState::Starting { pending: Some(n), last }, WorkerEvent::Started) => (
            WorkerState::Writing { last },
            WorkerAction::Write(n),
        ),
        (WorkerState::Starting { pending: None, .. }, WorkerEvent::Started) => (
            WorkerState::Streaming,
            WorkerAction::Read,
        ),
        (WorkerState::Streaming, WorkerEvent::Read(n)) => if n == 0 {
            (WorkerState::Idle, WorkerAction::NextPath)
        } else {
            (WorkerState::Writing { last: false }, WorkerAction::Write(n))
        },
        (WorkerState::Writing { last }, WorkerEvent::Written) => if last {
            (WorkerState::Idle, WorkerAction::NextPath)
        } else {
            (WorkerState::Streaming, WorkerAction::Read)
        },
        _ => (WorkerState::Idle, WorkerAction::NextPath),
    }
}

/// No chunk is dropped. Whatever a read brings of a file smaller than the
/// buffer, the archive is taken and those bytes are written; where they are
/// a part of the file, the worker reads on. Of a file that is streamed every
/// chunk that is not empty is written, and the worker reads on after it.
pub proof fn lemma_no_chunk_is_dropped(buffer_size: usize, file_size: u64, n: usize)
    ensures
        ({
            let read = worker_next(
                buffer_size,
                WorkerState::SmallReading { file_size },
                WorkerEvent::Read(n),
            );
            let started = worker_next(buffer_size, read.0, WorkerEvent::Started);
            let written = worker_next(buffer_size, started.0, WorkerEvent::Written);
            &&& read.1 == WorkerAction::StartEntry
            &&& started.1 == WorkerAction::Write(n)
            &&& written.1 == if n == file_size || n == 0 {
                WorkerAction::NextPath
            } else {
                WorkerAction::Read
            }
        }),
        ({
            let read = worker_next(buffer_size, WorkerState::Streaming, WorkerEvent::Read(n));
            let written = worker_next(buffer_size, read.0, WorkerEvent::Written);
            n > 0 ==> read.1 == WorkerAction::Write(n) && written == (
                WorkerState::Streaming,
                WorkerAction::Read,
            )
        }),
{
}

/// The event that taking a path from the queue makes.
pub fn path_event(path: Option<&str>) -> (r: WorkerEvent)
    ensures
        r == match path {
            None => WorkerEvent::NoPath,
            Some(p) => (WorkerEvent::Path { is_pattern: p@.contains('*') }),
        },
{
    match path {
        None => WorkerEvent::NoPath,
        Some(p) => {
            let chars: Vec<char> = chars_of(p);
            WorkerEvent::Path { is_pattern: has_char(chars.as_slice(), '*') }
        },
    }
}

/// The collector of one triage.
pub struct TriageCollector {
    params: CollectionParameters,
}

impl TriageCollector {
    /// What the collector was asked to do.
    pub closed spec fn params(&self) -> CollectionParameters {
        self.params
    }

    /// A collector for the given parameters.
    pub fn new(params: CollectionParameters) -> (r: Self)
        ensures
            r.params() == params,
    {
        Self { params }
    }

    /// The parameters of the collection.
    pub fn parameters(&self) -> (r: &CollectionParameters)
        ensures
            *r == self.params(),
    {
        &self.params
    }

    /// Takes a worker from one event to the next: gives the state that
    /// follows and what the worker has to do.
    pub fn worker_step(&self, state: WorkerState, event: WorkerEvent) -> (r: (
        WorkerState,
        WorkerAction,
    ))
        ensures
            r == worker_next(self.params().buffer_size, state, event),
            r.1 is NextPath || r.1 is Stop || r.1 is Open ==> !holds_archive(r.0),
            r.1 is Write ==> holds_archive(r.0),
    {
        match (state, event) {
            (WorkerState::Done, _) => (WorkerState::Done, WorkerAction::Stop),
            (WorkerState::Idle, WorkerEvent::NoPath) => (WorkerState::Done, WorkerAction::Stop),
            (WorkerState::Idle, WorkerEvent::Path { is_pattern }) => {
                if is_pattern {
                    (WorkerState::Idle, WorkerAction::NextPath)
                } else {
                    (WorkerState::Opening, WorkerAction::Open)
                }
            },
            (WorkerState::Opening, WorkerEvent::Opened(size)) => {
                if size < self.params.buffer_size as u64 {
                    (WorkerState::SmallReading { file_size: size }, WorkerAction::Read)
                } else {
                    (WorkerState::Starting { pending: None, last: false }, WorkerAction::StartEntry)
                }
            },
            (WorkerState::SmallReading { file_size }, WorkerEvent::Read(n)) => {
                let last: bool = n as u64 == file_size || n == 0;
                (WorkerState::Starting { pending: Some(n), last }, WorkerAction::StartEntry)
            },
            (WorkerState::Starting { pending: Some(n), last }, WorkerEvent::Started) => (
                WorkerState::Writing { last },
                WorkerAction::Write(n),
            ),
            (WorkerState::Starting { pending: None, .. }, WorkerEvent::Started) => (
                WorkerState::Streaming,
                WorkerAction::Read,
            ),
            (WorkerState::Streaming, WorkerEvent::Read(n)) => {
                if n == 0 {
                    (WorkerState::Idle, WorkerAction::NextPath)
                } else {
                    (WorkerState::Writing { last: false }, WorkerAction::Write(n))
                }
            },
            (WorkerState::Writing { last }, WorkerEvent::Written) => {
                if last {
                    (WorkerState::Idle, WorkerAction::NextPath)
                } else {
                    (WorkerState::Streaming, WorkerAction::Read)
                }
            },
            _ => (WorkerState::Idle, WorkerAction::NextPath),
        }
    }

    /// Builds the list of paths to collect from what the host reported: the
    /// system root, the system drive, the value of `PROGRAMDATA`, the home
    /// directories of the users and the mounted drives.
    pub fn prepare_paths_to_collect(
        &self,
        sys_root: &str,
        sys_drive: &str,
        program_data: &str,
        users_homes: &Vec<String>,
        mounted_devices: &Vec<String>,
    ) -> (r: Vec<String>)
        ensures
            texts(r@) == paths_to_collect(
                self.params(),
                sys_root@,
                sys_drive@,
                program_data@,
                texts(users_homes@),
                texts(mounted_devices@),
            ),
    {
        let mut to_ret: Vec<String> = Vec::new();
        let prog_data: String = replace_envvars(program_data, sys_drive, sys_root, "");
        proof {
            reveal_strlit("");
            assert(""@ =~= Seq::<char>::empty());
        }
        let homes: Vec<String> = resolve_homes(users_homes, sys_drive, sys_root, prog_data.as_str());
        if self.params.usn_jrnl {
            to_ret.push(replace_envvars(USN_JRNL_PATH, sys_drive, sys_root, prog_data.as_str()));
            to_ret.push(
                replace_envvars(USN_JRNL_MAX_PATH, sys_drive, sys_root, prog_data.as_str()),
            );
            assert(texts(to_ret@) =~= system_usn_paths(sys_drive@, sys_root@, prog_data@));
        } else {
            assert(texts(to_ret@) =~= Seq::<Seq<char>>::empty());
        }
        let ghost first = texts(to_ret@);
        if self.params.all_disks_mft {
            extend(&mut to_ret, collect_mft_paths(mounted_devices, sys_drive));
        } else {
            assert(texts(to_ret@) =~= first + Seq::<Seq<char>>::empty());
        }
        let ghost second = texts(to_ret@);
        if self.params.all_usn_jrnl {
            extend(
                &mut to_ret,
                collect_usn_paths(mounted_devices, sys_drive, self.params.usn_jrnl),
            );
        } else {
            assert(texts(to_ret@) =~= second + Seq::<Seq<char>>::empty());
        }
        let ghost third = texts(to_ret@);
        let ghost templates = texts(self.params.paths@);
        let mut i: usize = 0;
        assert(templates.take(0) =~= Seq::<Seq<char>>::empty());
        assert(texts(to_ret@) =~= third + Seq::<Seq<char>>::empty());
        while i < self.params.paths.len()
            invariant
                i <= self.params.paths@.len(),
                templates == texts(self.params.paths@),
                texts(to_ret@) == third + catalog_paths(
                    templates.take(i as int),
                    texts(homes@),
                    sys_drive@,
                    sys_root@,
                    prog_data@,
                ),
            decreases self.params.paths@.len() - i,
        {
            let ghost done = templates.take(i as int);
            let ghost more = templates.take(i + 1);
            assert(more.drop_last() =~= done);
            assert(more.last() == self.params.paths@[i as int]@);
            let part: Vec<String> = expand_template(
                &self.params.paths[i],
                &homes,
                sys_drive,
                sys_root,
                prog_data.as_str(),
            );
            let ghost before = catalog_paths(
                done,
                texts(homes@),
                sys_drive@,
                sys_root@,
                prog_data@,
            );
            extend(&mut to_ret, part);
            assert(texts(to_ret@) =~= third + (before + texts(part@)));
            i += 1;
        }
        assert(templates.take(templates.len() as int) =~= templates);
        to_ret
    }
}

} // verus!
