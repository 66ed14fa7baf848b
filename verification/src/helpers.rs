//! Retrieval-pointer records, little-endian decoding and scratch buffers.

use vstd::prelude::*;
use crate::error::TriageError;
use crate::text::append;
use crate::text::chars_of;
use crate::text::eq_ignoring_ascii_case;
use crate::text::find;
use crate::text::has_prefix;
use crate::text::index_of;
use crate::text::same_ignoring_ascii_case;
use crate::text::string_of;
use crate::text::tail_from;

verus! {

/// One run of clusters of a file: `next_vcn` is the first virtual cluster
/// after the run, `lcn` the cluster of the volume at which the run starts.
#[derive(Debug, Clone, Copy, PartialEq, Eq, Structural)]
pub struct PointerExtent {
    pub next_vcn: i64,
    pub lcn: i64,
}

/// The answer of the volume to a retrieval-pointers query.
#[derive(Debug, Clone)]
pub struct RetrievalPointersBuffer {
    pub extent_count: u32,
    pub starting_vcn: i64,
    pub extents: Vec<PointerExtent>,
}

/// The unsigned 32-bit number whose little-endian bytes start at `at`.
pub open spec fn le_u32_at(s: Seq<u8>, at: int) -> int {
    s[at] as int + (s[at + 1] as int) * 0x100 + (s[at + 2] as int) * 0x1_0000 + (s[at + 3] as int)
        * 0x100_0000
}

/// The unsigned 64-bit number whose little-endian bytes start at `at`.
pub open spec fn le_u64_at(s: Seq<u8>, at: int) -> int {
    le_u32_at(s, at) + le_u32_at(s, at + 4) * 0x1_0000_0000
}

/// The two's-complement 64-bit number whose little-endian bytes start at `at`.
pub open spec fn le_i64_at(s: Seq<u8>, at: int) -> int {
    let v = le_u64_at(s, at);
    if v >= 0x8000_0000_0000_0000 {
        v - 0x1_0000_0000_0000_0000
    } else {
        v
    }
}

/// The number of extents that a retrieval-pointers record announces.
pub open spec fn record_extent_count(s: Seq<u8>) -> int {
    le_u32_at(s, 0)
}

/// The number of bytes that a record with `count` extents occupies.
pub open spec fn record_len(count: int) -> int {
    16 + 16 * count
}

/// Extent `i` of a retrieval-pointers record.
pub open spec fn record_extent(s: Seq<u8>, i: int) -> PointerExtent {
    PointerExtent {
        next_vcn: le_i64_at(s, 16 + 16 * i) as i64,
        lcn: le_i64_at(s, 24 + 16 * i) as i64,
    }
}

/// Whether `r` is what the record in `s` says: the count, four bytes of
/// padding, the starting cluster, then one pair of numbers for each extent.
pub open spec fn is_record_of(r: RetrievalPointersBuffer, s: Seq<u8>) -> bool {
    &&& r.extent_count == record_extent_count(s)
    &&& r.starting_vcn == le_i64_at(s, 8)
    &&& r.extents@ == Seq::new(record_extent_count(s) as nat, |i: int| record_extent(s, i))
}

/// Reads an unsigned little-endian 32-bit number at `at`.
pub fn read_le_u32(vc: &[u8], at: usize) -> (r: u32)
    requires
        at + 4 <= vc@.len(),
    ensures
        r == le_u32_at(vc@, at as int),
{
    let b0: u32 = vc[at] as u32;
    let b1: u32 = vc[at + 1] as u32;
    let b2: u32 = vc[at + 2] as u32;
    let b3: u32 = vc[at + 3] as u32;
    b0 + b1 * 0x100 + b2 * 0x1_0000 + b3 * 0x100_0000
}

/// Reads a signed little-endian 64-bit number at `at`.
pub fn read_le_i64(vc: &[u8], at: usize) -> (r: i64)
    requires
        at + 8 <= vc@.len(),
    ensures
        r == le_i64_at(vc@, at as int),
{
    let len: usize = vc.len();
    let low: u64 = read_le_u32(vc, at) as u64;
    let high: u64 = read_le_u32(vc, at + 4) as u64;
    if high >= 0x8000_0000 {
        let above: u64 = (high - 0x8000_0000) * 0x1_0000_0000 + low;
        (above as i64) + i64::MIN
    } else {
        (high * 0x1_0000_0000 + low) as i64
    }
}

/// Decodes a retrieval-pointers record that is present in full.
pub fn buffer_to_retrieval_pointers(vc: &[u8]) -> (r: RetrievalPointersBuffer)
    requires
        vc@.len() >= 16,
        vc@.len() >= record_len(record_extent_count(vc@)),
    ensures
        is_record_of(r, vc@),
{
    let extent_count: u32 = read_le_u32(vc, 0);
    let starting_vcn: i64 = read_le_i64(vc, 8);
    let mut extents: Vec<PointerExtent> = Vec::new();
    let mut offset: usize = 16;
    let mut done: u32 = 0;
    let len: usize = vc.len();
    while done < extent_count
        invariant
            done <= extent_count,
            len == vc@.len(),
            extent_count == record_extent_count(vc@),
            vc@.len() >= record_len(extent_count as int),
            offset == 16 + 16 * done,
            extents@ == Seq::new(done as nat, |i: int| record_extent(vc@, i)),
        decreases extent_count - done,
    {
        let next_vcn: i64 = read_le_i64(vc, offset);
        let lcn: i64 = read_le_i64(vc, offset + 8);
        extents.push(PointerExtent { next_vcn, lcn });
        offset += 16;
        done += 1;
    }
    RetrievalPointersBuffer { extent_count, starting_vcn, extents }
}

/// Decodes a retrieval-pointers record, or reports that the bytes end before
/// the record does.
pub fn parse_retrieval_pointers(vc: &[u8]) -> (r: Option<RetrievalPointersBuffer>)
    ensures
        r is Some <==> vc@.len() >= 16 && vc@.len() >= record_len(record_extent_count(vc@)),
        r matches Some(p) ==> is_record_of(p, vc@),
{
    if vc.len() < 16 {
        return None;
    }
    let extent_count: u32 = read_le_u32(vc, 0);
    if (vc.len() - 16) / 16 < extent_count as usize {
        return None;
    }
    Some(buffer_to_retrieval_pointers(vc))
}

/// The UTF-16 code units of one character.
pub open spec fn utf16_of_char(c: char) -> Seq<u16> {
    let n = c as u32;
    if n < 0x1_0000 {
        seq![n as u16]
    } else {
        seq![(0xD800 + (n - 0x1_0000) / 0x400) as u16, (0xDC00 + (n - 0x1_0000) % 0x400) as u16]
    }
}

/// The UTF-16 code units of a text.
pub open spec fn utf16_of(s: Seq<char>) -> Seq<u16>
    decreases s.len(),
{
    if s.len() == 0 {
        Seq::empty()
    } else {
        utf16_of(s.drop_last()) + utf16_of_char(s.last())
    }
}

/// `base` followed by `rest`, with exactly one backslash between them where
/// `base` does not already end in one.
pub open spec fn with_separator(base: Seq<char>, rest: Seq<char>) -> Seq<char> {
    if base.len() > 0 && base.last() == '\\' {
        base + rest
    } else {
        base.push('\\') + rest
    }
}

/// The place of the `%\` that ends the variable of a template, or -1.
pub open spec fn variable_end(txt: Seq<char>) -> int {
    index_of(txt, seq!['%', '\\'])
}

/// Whether a template begins with a variable: a `%`, a name, and `%\`.
pub open spec fn has_variable(txt: Seq<char>) -> bool {
    variable_end(txt) >= 1 && txt[0] == '%'
}

/// The name of the variable that a template begins with.
pub open spec fn variable_name(txt: Seq<char>) -> Seq<char> {
    txt.subrange(1, variable_end(txt))
}

/// What follows the variable and its backslash in a template.
pub open spec fn after_variable(txt: Seq<char>) -> Seq<char> {
    txt.skip(variable_end(txt) + 2)
}

/// A template with its leading `%SYSTEMDRIVE%\`, `%SYSTEMROOT%\` or
/// `%PROGRAMDATA%\` replaced by the value given for it; any other text
/// unchanged. The name is taken without regard to the case of its letters.
pub open spec fn envvars_replaced(
    txt: Seq<char>,
    system_drive: Seq<char>,
    system_root: Seq<char>,
    prog_data: Seq<char>,
) -> Seq<char> {
    if !has_variable(txt) {
        txt
    } else if same_ignoring_ascii_case(variable_name(txt), "SYSTEMDRIVE"@) {
        with_separator(system_drive, after_variable(txt))
    } else if same_ignoring_ascii_case(variable_name(txt), "SYSTEMROOT"@) {
        with_separator(system_root, after_variable(txt))
    } else if same_ignoring_ascii_case(variable_name(txt), "PROGRAMDATA"@) {
        with_separator(prog_data, after_variable(txt))
    } else {
        txt
    }
}

/// The characters `%\`.
fn variable_mark() -> (r: Vec<char>)
    ensures
        r@ == seq!['%', '\\'],
{
    let mut v: Vec<char> = Vec::new();
    v.push('%');
    v.push('\\');
    assert(v@ =~= seq!['%', '\\']);
    v
}

/// Encodes a text as UTF-16 code units.
fn push_utf16(out: &mut Vec<u16>, txt: &str)
    ensures
        final(out)@ == old(out)@ + utf16_of(txt@),
{
    let chars: Vec<char> = chars_of(txt);
    let mut i: usize = 0;
    while i < chars.len()
        invariant
            i <= chars@.len(),
            out@ == old(out)@ + utf16_of(chars@.take(i as int)),
        decreases chars@.len() - i,
    {
        let c: char = chars[i];
        let n: u32 = c as u32;
        proof {
            assert(chars@.take(i + 1).drop_last() =~= chars@.take(i as int));
            assert(chars@.take(i + 1).last() == c);
        }
        if n < 0x1_0000 {
            out.push(n as u16);
        } else {
            let high: u32 = 0xD800 + (n - 0x1_0000) / 0x400;
            let low: u32 = 0xDC00 + (n - 0x1_0000) % 0x400;
            out.push(high as u16);
            out.push(low as u16);
        }
        assert(out@ =~= old(out)@ + utf16_of(chars@.take(i + 1)));
        i += 1;
    }
    assert(chars@.take(chars@.len() as int) =~= chars@);
}

/// The text as a wide string: its UTF-16 code units and a closing 0.
pub fn to_pcwstr(txt: &str) -> (r: Vec<u16>)
    ensures
        r@ == utf16_of(txt@).push(0),
{
    let mut val: Vec<u16> = Vec::new();
    push_utf16(&mut val, txt);
    val.push(0);
    val
}

/// Writes the text as a wide string into `buffer`, in place of what it held.
pub fn encode_pcwstr(txt: &str, buffer: &mut Vec<u16>)
    ensures
        final(buffer)@ == utf16_of(txt@).push(0),
{
    buffer.clear();
    push_utf16(buffer, txt);
    buffer.push(0);
}

/// Joins `base` and `rest` with one backslash between them: none is added
/// where `base` ends in one already.
pub fn join_with_separator(base: &[char], rest: &[char]) -> (r: Vec<char>)
    ensures
        r@ == with_separator(base@, rest@),
{
    let mut out: Vec<char> = Vec::new();
    append(&mut out, base);
    if base.len() == 0 || base[base.len() - 1] != '\\' {
        out.push('\\');
    }
    append(&mut out, rest);
    assert(out@ =~= with_separator(base@, rest@));
    out
}

/// Replaces the variable that a template begins with by its value.
///
/// A template that begins with `%`, a name and `%\` has that much replaced
/// by the value of `SYSTEMDRIVE`, `SYSTEMROOT` or `PROGRAMDATA` where the name
/// is one of these, whatever the case of its letters; a backslash at the end
/// of the value is not doubled. Any other text comes back unchanged.
pub fn replace_envvars(txt: &str, system_drive: &str, system_root: &str, prog_data: &str) -> (r:
    String)
    ensures
        r@ == envvars_replaced(txt@, system_drive@, system_root@, prog_data@),
{
    let chars: Vec<char> = chars_of(txt);
    let mark: Vec<char> = variable_mark();
    let pos: usize = match find(chars.as_slice(), mark.as_slice()) {
        Some(pos) => pos,
        None => {
            return string_of(chars.as_slice());
        },
    };
    if pos < 1 || chars[0] != '%' {
        return string_of(chars.as_slice());
    }
    let mut variable: Vec<char> = Vec::new();
    let mut i: usize = 1;
    while i < pos
        invariant
            1 <= i <= pos < chars@.len(),
            variable@ == chars@.subrange(1, i as int),
        decreases pos - i,
    {
        variable.push(chars[i]);
        i += 1;
    }
    let len: usize = chars.len();
    assert(pos + 2 <= len);
    let rest: Vec<char> = tail_from(chars.as_slice(), pos + 2);
    let value: Vec<char> = if is_system_drive_env(string_of(variable.as_slice()).as_str()) {
        chars_of(system_drive)
    } else if is_system_root_env(string_of(variable.as_slice()).as_str()) {
        chars_of(system_root)
    } else if is_program_data_env(string_of(variable.as_slice()).as_str()) {
        chars_of(prog_data)
    } else {
        return string_of(chars.as_slice());
    };
    let out: Vec<char> = join_with_separator(value.as_slice(), rest.as_slice());
    string_of(out.as_slice())
}

/// Puts each home directory in place of the variable that a template begins
/// with: one path for each home, in the order of `homes`. A template without
/// `%\` gives no path.
pub fn replace_home_vars(txt: &str, homes: &Vec<String>) -> (r: Vec<String>)
    ensures
        variable_end(txt@) < 0 ==> r@.len() == 0,
        variable_end(txt@) >= 0 ==> r@.len() == homes@.len() && forall|i: int|
            0 <= i < homes@.len() ==> (#[trigger] r@[i])@ == with_separator(
                homes@[i]@,
                after_variable(txt@),
            ),
{
    let chars: Vec<char> = chars_of(txt);
    let mark: Vec<char> = variable_mark();
    let mut to_ret: Vec<String> = Vec::new();
    let pos: usize = match find(chars.as_slice(), mark.as_slice()) {
        Some(pos) => pos,
        None => {
            return to_ret;
        },
    };
    let len: usize = chars.len();
    assert(pos + 2 <= len);
    let rest: Vec<char> = tail_from(chars.as_slice(), pos + 2);
    let mut i: usize = 0;
    while i < homes.len()
        invariant
            i <= homes@.len(),
            to_ret@.len() == i,
            rest@ == after_variable(txt@),
            forall|j: int|
                0 <= j < i ==> (#[trigger] to_ret@[j])@ == with_separator(homes@[j]@, rest@),
        decreases homes@.len() - i,
    {
        let home: Vec<char> = chars_of(homes[i].as_str());
        let out: Vec<char> = join_with_separator(home.as_slice(), rest.as_slice());
        to_ret.push(string_of(out.as_slice()));
        i += 1;
    }
    to_ret
}

/// Tests whether a template begins with `%`.
pub fn contains_env_var(txt: &str) -> (r: bool)
    ensures
        r == (txt@.len() > 0 && txt@[0] == '%'),
{
    let chars: Vec<char> = chars_of(txt);
    chars.len() > 0 && chars[0] == '%'
}

/// Tests whether a name is `SYSTEMDRIVE`, whatever the case of its letters.
pub fn is_system_drive_env(txt: &str) -> (r: bool)
    ensures
        r == same_ignoring_ascii_case(txt@, "SYSTEMDRIVE"@),
{
    let chars: Vec<char> = chars_of(txt);
    let word: Vec<char> = chars_of("SYSTEMDRIVE");
    eq_ignoring_ascii_case(chars.as_slice(), word.as_slice())
}

/// Tests whether a name is `SYSTEMROOT`, whatever the case of its letters.
pub fn is_system_root_env(txt: &str) -> (r: bool)
    ensures
        r == same_ignoring_ascii_case(txt@, "SYSTEMROOT"@),
{
    let chars: Vec<char> = chars_of(txt);
    let word: Vec<char> = chars_of("SYSTEMROOT");
    eq_ignoring_ascii_case(chars.as_slice(), word.as_slice())
}

/// Tests whether a name is `PROGRAMDATA`, whatever the case of its letters.
pub fn is_program_data_env(txt: &str) -> (r: bool)
    ensures
        r == same_ignoring_ascii_case(txt@, "PROGRAMDATA"@),
{
    let chars: Vec<char> = chars_of(txt);
    let word: Vec<char> = chars_of("PROGRAMDATA");
    eq_ignoring_ascii_case(chars.as_slice(), word.as_slice())
}

/// Tests whether a template begins with `%USERHOME%`.
pub fn is_user_home_env(txt: &str) -> (r: bool)
    ensures
        r == "%USERHOME%"@.is_prefix_of(txt@),
{
    let chars: Vec<char> = chars_of(txt);
    let word: Vec<char> = chars_of("%USERHOME%");
    has_prefix(chars.as_slice(), word.as_slice())
}

/// Whether a path names its drive: one single-byte character that is not a
/// colon, then a colon.
pub open spec fn has_drive(pth: Seq<char>) -> bool {
    pth.len() >= 2 && pth[1] == ':' && pth[0] != ':' && (pth[0] as u32) < 0x80
}

/// The path of the volume device of a drive letter: `\\.\`, the letter and a
/// colon.
pub open spec fn volume_device(letter: char) -> Seq<char> {
    seq!['\\', '\\', '.', '\\', letter, ':']
}

/// The root directory of a drive letter: the letter, a colon and a backslash.
pub open spec fn drive_root(letter: char) -> Seq<char> {
    seq![letter, ':', '\\']
}

/// Gives the path of the volume device and the root directory of the drive
/// that a path names, or `BadPath` where the path does not begin with a drive
/// letter and a colon.
pub fn get_drive_and_disk(pth: &str) -> (r: Result<(String, String), TriageError>)
    ensures
        r is Ok <==> has_drive(pth@),
        r is Err ==> r == Err::<(String, String), TriageError>(TriageError::BadPath),
        r matches Ok(pair) ==> pair.0@ == volume_device(pth@[0]) && pair.1@ == drive_root(pth@[0]),
{
    let chars: Vec<char> = chars_of(pth);
    if chars.len() < 2 || chars[1] != ':' || chars[0] == ':' || (chars[0] as u32) >= 0x80 {
        return Err(TriageError::BadPath);
    }
    let letter: char = chars[0];
    let mut device: Vec<char> = Vec::new();
    device.push('\\');
    device.push('\\');
    device.push('.');
    device.push('\\');
    device.push(letter);
    device.push(':');
    let mut root: Vec<char> = Vec::new();
    root.push(letter);
    root.push(':');
    root.push('\\');
    assert(device@ =~= volume_device(letter));
    assert(root@ =~= drive_root(letter));
    Ok((string_of(device.as_slice()), string_of(root.as_slice())))
}

/// The name under which a file is opened for its attributes: `\\.\`, the
/// path, and a closing NUL character.
pub fn file_device_path(pth: &str) -> (r: String)
    ensures
        r@ == seq!['\\', '\\', '.', '\\'] + pth@ + seq!['\0'],
{
    let chars: Vec<char> = chars_of(pth);
    let mut out: Vec<char> = Vec::new();
    out.push('\\');
    out.push('\\');
    out.push('.');
    out.push('\\');
    append(&mut out, chars.as_slice());
    out.push('\0');
    assert(out@ =~= seq!['\\', '\\', '.', '\\'] + pth@ + seq!['\0']);
    string_of(out.as_slice())
}

/// The size of a file from the two halves in which the volume reports it.
pub fn file_size_from_parts(high: u32, low: u32) -> (r: u64)
    ensures
        r == high * 0x1_0000_0000 + low,
{
    (high as u64) * 0x1_0000_0000 + (low as u64)
}

/// Two scratch buffers, one of bytes and one of 16-bit units, that are made
/// once and used again for every call that wants a buffer of the caller.
///
/// Each buffer shows a window on what it holds. Shortening it hides the end
/// of the content and restoring it brings that end back: only the length
/// changes.
pub struct Buffer {
    u8: Vec<u8>,
    u16: Vec<u16>,
    size: usize,
    hidden_u8: Vec<u8>,
    hidden_u16: Vec<u16>,
}

/// `len` zeros.
pub open spec fn zeros<T>(len: int, zero: T) -> Seq<T> {
    Seq::new(len as nat, |i: int| zero)
}

/// `s` brought to length `len`: cut where it is longer, filled with `zero`
/// where it is shorter.
pub open spec fn resized<T>(s: Seq<T>, len: int, zero: T) -> Seq<T> {
    Seq::new(
        len as nat,
        |i: int|
            if i < s.len() {
                s[i]
            } else {
                zero
            },
    )
}

/// What `s` holds from place `len` on: nothing where it is shorter.
pub open spec fn beyond<T>(s: Seq<T>, len: int) -> Seq<T> {
    if 0 <= len <= s.len() {
        s.skip(len)
    } else {
        Seq::empty()
    }
}

/// `s` from its last item to its first.
pub open spec fn backwards<T>(s: Seq<T>) -> Seq<T>
    decreases s.len(),
{
    if s.len() == 0 {
        Seq::empty()
    } else {
        seq![s.last()] + backwards(s.drop_last())
    }
}

/// Moves the window of a buffer of bytes to length `len`. What is cut off
/// the end goes to `hidden`, in front of what that holds; what is added to
/// the end comes from the front of `hidden`, and is zero where `hidden` has
/// no more.
fn window_bytes(v: &mut Vec<u8>, hidden: &mut Vec<u8>, len: usize)
    ensures
        final(v)@ == resized(old(v)@ + backwards(old(hidden)@), len as int, 0u8),
        backwards(final(hidden)@) == beyond(old(v)@ + backwards(old(hidden)@), len as int),
{
    let ghost held = v@ + backwards(hidden@);
    while v.len() > len
        invariant
            v@ + backwards(hidden@) == held,
        decreases v@.len(),
    {
        let ghost shown = v@;
        let ghost rest = hidden@;
        let last: u8 = v[v.len() - 1];
        v.pop();
        hidden.push(last);
        proof {
            assert(hidden@.drop_last() =~= rest);
            assert(v@ + backwards(hidden@) =~= shown + backwards(rest));
        }
    }
    while v.len() < len
        invariant
            v@.len() <= len,
            v@.len() <= held.len() ==> v@ + backwards(hidden@) == held,
            v@.len() > held.len() ==> hidden@.len() == 0,
            v@ == resized(held, v@.len() as int, 0u8),
        decreases len - v@.len(),
    {
        let ghost shown = v@;
        let ghost rest = hidden@;
        match hidden.pop() {
            Some(b) => {
                v.push(b);
                proof {
                    assert(rest.drop_last() =~= hidden@);
                    assert(v@ + backwards(hidden@) =~= shown + backwards(rest));
                    assert(held[shown.len() as int] == b);
                }
            },
            None => {
                v.push(0u8);
                proof {
                    if shown.len() <= held.len() {
                        assert(shown =~= held);
                    }
                }
            },
        }
        assert(v@ =~= resized(held, v@.len() as int, 0u8));
    }
    proof {
        assert(v@ =~= resized(held, len as int, 0u8));
        if v@.len() <= held.len() {
            assert(backwards(hidden@) =~= held.skip(len as int));
        }
    }
}

/// Moves the window of a buffer of 16-bit units to length `len`, as
/// `window_bytes` does for bytes.
fn window_units(v: &mut Vec<u16>, hidden: &mut Vec<u16>, len: usize)
    ensures
        final(v)@ == resized(old(v)@ + backwards(old(hidden)@), len as int, 0u16),
        backwards(final(hidden)@) == beyond(old(v)@ + backwards(old(hidden)@), len as int),
{
    let ghost held = v@ + backwards(hidden@);
    while v.len() > len
        invariant
            v@ + backwards(hidden@) == held,
        decreases v@.len(),
    {
        let ghost shown = v@;
        let ghost rest = hidden@;
        let last: u16 = v[v.len() - 1];
        v.pop();
        hidden.push(last);
        proof {
            assert(hidden@.drop_last() =~= rest);
            assert(v@ + backwards(hidden@) =~= shown + backwards(rest));
        }
    }
    while v.len() < len
        invariant
            v@.len() <= len,
            v@.len() <= held.len() ==> v@ + backwards(hidden@) == held,
            v@.len() > held.len() ==> hidden@.len() == 0,
            v@ == resized(held, v@.len() as int, 0u16),
        decreases len - v@.len(),
    {
        let ghost shown = v@;
        let ghost rest = hidden@;
        match hidden.pop() {
            Some(b) => {
                v.push(b);
                proof {
                    assert(rest.drop_last() =~= hidden@);
                    assert(v@ + backwards(hidden@) =~= shown + backwards(rest));
                    assert(held[shown.len() as int] == b);
                }
            },
            None => {
                v.push(0u16);
                proof {
                    if shown.len() <= held.len() {
                        assert(shown =~= held);
                    }
                }
            },
        }
        assert(v@ =~= resized(held, v@.len() as int, 0u16));
    }
    proof {
        assert(v@ =~= resized(held, len as int, 0u16));
        if v@.len() <= held.len() {
            assert(backwards(hidden@) =~= held.skip(len as int));
        }
    }
}

impl Buffer {
    /// The bytes that the buffer shows.
    pub closed spec fn bytes(&self) -> Seq<u8> {
        self.u8@
    }

    /// The 16-bit units that the buffer shows.
    pub closed spec fn units(&self) -> Seq<u16> {
        self.u16@
    }

    /// The bytes that the buffer holds behind those it shows.
    pub closed spec fn hidden_bytes(&self) -> Seq<u8> {
        backwards(self.hidden_u8@)
    }

    /// The 16-bit units that the buffer holds behind those it shows.
    pub closed spec fn hidden_units(&self) -> Seq<u16> {
        backwards(self.hidden_u16@)
    }

    /// The length that both buffers were made with.
    pub closed spec fn full_len(&self) -> int {
        self.size as int
    }

    /// The length that `set_len` gives the buffers when asked for `length`:
    /// never more than they were made with.
    pub open spec fn window(&self, length: int) -> int {
        if length <= self.full_len() {
            length
        } else {
            self.full_len()
        }
    }

    /// Whether `next` is this buffer with its windows moved to length `len`:
    /// it holds what this one holds, shows the first `len` of that, filled
    /// with zeros where so much was never held, and hides the rest.
    pub open spec fn windowed(&self, len: int, next: Buffer) -> bool {
        &&& next.full_len() == self.full_len()
        &&& next.bytes() == resized(self.bytes() + self.hidden_bytes(), len, 0u8)
        &&& next.hidden_bytes() == beyond(self.bytes() + self.hidden_bytes(), len)
        &&& next.units() == resized(self.units() + self.hidden_units(), len, 0u16)
        &&& next.hidden_units() == beyond(self.units() + self.hidden_units(), len)
    }

    /// A buffer of 1024 bytes and 1024 units, all zero.
    pub fn new() -> (r: Self)
        ensures
            r.bytes() == zeros(1024, 0u8),
            r.units() == zeros(1024, 0u16),
            r.hidden_bytes().len() == 0,
            r.hidden_units().len() == 0,
            r.full_len() == 1024,
    {
        Buffer::with_capacity(1024)
    }

    /// A buffer of `size` bytes and `size` units, all zero.
    pub fn with_capacity(size: usize) -> (r: Self)
        ensures
            r.bytes() == zeros(size as int, 0u8),
            r.units() == zeros(size as int, 0u16),
            r.hidden_bytes().len() == 0,
            r.hidden_units().len() == 0,
            r.full_len() == size,
    {
        let mut u8: Vec<u8> = Vec::new();
        let mut u16: Vec<u16> = Vec::new();
        let mut hidden_u8: Vec<u8> = Vec::new();
        let mut hidden_u16: Vec<u16> = Vec::new();
        window_bytes(&mut u8, &mut hidden_u8, size);
        window_units(&mut u16, &mut hidden_u16, size);
        assert(u8@ =~= zeros(size as int, 0u8));
        assert(u16@ =~= zeros(size as int, 0u16));
        Buffer { u8, u16, size, hidden_u8, hidden_u16 }
    }

    /// Appends one byte to the bytes that the buffer shows. It takes the
    /// place of the first hidden byte, if there is one.
    pub fn push(&mut self, v: u8)
        ensures
            final(self).bytes() == old(self).bytes().push(v),
            final(self).hidden_bytes() == beyond(old(self).hidden_bytes(), 1),
            final(self).units() == old(self).units(),
            final(self).hidden_units() == old(self).hidden_units(),
            final(self).full_len() == old(self).full_len(),
    {
        let ghost rest = self.hidden_u8@;
        self.u8.push(v);
        self.hidden_u8.pop();
        proof {
            if rest.len() > 0 {
                assert(self.hidden_u8@ =~= rest.drop_last());
                assert(backwards(rest).skip(1) =~= backwards(rest.drop_last()));
            }
        }
    }

    /// The bytes, to read and to overwrite.
    pub fn u8(&mut self) -> (r: &mut [u8])
        ensures
            r@ == old(self).bytes(),
            final(self).bytes() == final(r)@,
            final(self).hidden_bytes() == old(self).hidden_bytes(),
            final(self).units() == old(self).units(),
            final(self).hidden_units() == old(self).hidden_units(),
            final(self).full_len() == old(self).full_len(),
    {
        self.u8.as_mut_slice()
    }

    /// The 16-bit units, to read and to overwrite.
    pub fn u16(&mut self) -> (r: &mut [u16])
        ensures
            r@ == old(self).units(),
            final(self).units() == final(r)@,
            final(self).hidden_units() == old(self).hidden_units(),
            final(self).bytes() == old(self).bytes(),
            final(self).hidden_bytes() == old(self).hidden_bytes(),
            final(self).full_len() == old(self).full_len(),
    {
        self.u16.as_mut_slice()
    }

    /// The vector of 16-bit units. What the caller takes out of it is gone;
    /// what is hidden stays.
    pub fn u16_vec(&mut self) -> (r: &mut Vec<u16>)
        ensures
            r@ == old(self).units(),
            final(self).units() == final(r)@,
            final(self).hidden_units() == old(self).hidden_units(),
            final(self).bytes() == old(self).bytes(),
            final(self).hidden_bytes() == old(self).hidden_bytes(),
            final(self).full_len() == old(self).full_len(),
    {
        &mut self.u16
    }

    /// The vector of bytes. What the caller takes out of it is gone; what is
    /// hidden stays.
    pub fn u8_vec(&mut self) -> (r: &mut Vec<u8>)
        ensures
            r@ == old(self).bytes(),
            final(self).bytes() == final(r)@,
            final(self).hidden_bytes() == old(self).hidden_bytes(),
            final(self).units() == old(self).units(),
            final(self).hidden_units() == old(self).hidden_units(),
            final(self).full_len() == old(self).full_len(),
    {
        &mut self.u8
    }

    /// Restores both buffers to the length they were made with: what was
    /// hidden is shown again, as it was.
    pub fn reset(&mut self)
        ensures
            old(self).windowed(old(self).full_len(), *final(self)),
    {
        window_bytes(&mut self.u8, &mut self.hidden_u8, self.size);
        window_units(&mut self.u16, &mut self.hidden_u16, self.size);
    }

    /// Shortens both buffers to `length`, or to the length they were made
    /// with if that is less. What they showed beyond that length is hidden,
    /// not lost.
    pub fn set_len(&mut self, length: usize)
        ensures
            old(self).windowed(old(self).window(length as int), *final(self)),
    {
        let len: usize = if length <= self.size {
            length
        } else {
            self.size
        };
        window_bytes(&mut self.u8, &mut self.hidden_u8, len);
        window_units(&mut self.u16, &mut self.hidden_u16, len);
    }
}

/// Shortening and restoring changes the length only. A buffer that shows at
/// least as much as it was made with, shortened and then restored, shows its
/// first bytes and units as they were: all of them where it was at its full
/// length.
pub proof fn lemma_reset_restores(before: Buffer, cut: Buffer, after: Buffer, length: int)
    requires
        0 <= length,
        before.bytes().len() >= before.full_len(),
        before.units().len() >= before.full_len(),
        before.windowed(before.window(length), cut),
        cut.windowed(cut.full_len(), after),
    ensures
        after.bytes() == before.bytes().take(before.full_len()),
        after.units() == before.units().take(before.full_len()),
        before.bytes().len() == before.full_len() ==> after.bytes() == before.bytes(),
        before.units().len() == before.full_len() ==> after.units() == before.units(),
{
    let len = before.window(length);
    let size = before.full_len();
    let held8 = before.bytes() + before.hidden_bytes();
    let held16 = before.units() + before.hidden_units();
    assert(cut.bytes() + cut.hidden_bytes() =~= held8);
    assert(cut.units() + cut.hidden_units() =~= held16);
    assert(after.bytes() =~= before.bytes().take(size));
    assert(after.units() =~= before.units().take(size));
    if before.bytes().len() == size {
        assert(before.bytes().take(size) =~= before.bytes());
    }
    if before.units().len() == size {
        assert(before.units().take(size) =~= before.units());
    }
}

} // verus!
