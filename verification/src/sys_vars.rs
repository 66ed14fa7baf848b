//! The system variables of a host: the values that stand for
//! `%SYSTEMDRIVE%`, `%SYSTEMROOT%`, `%PROGRAMDATA%` and `%USERHOME%`.
//!
//! The registry and the file system are read by the caller. Each function
//! here takes what was read, or `None` where the read failed, and gives the
//! value to use.

use vstd::prelude::*;
use crate::helpers::join_with_separator;
use crate::helpers::utf16_of;
use crate::helpers::utf16_of_char;
use crate::helpers::with_separator;
use crate::text::chars_of;
use crate::text::string_of;

verus! {

/// The upper-case form of a text, as the standard library gives it.
pub uninterp spec fn uppercase_of(s: Seq<char>) -> Seq<char>;

/// The text that a sequence of UTF-16 code units decodes to. A unit outside
/// the surrogate range is a character by itself; a high surrogate and the
/// low surrogate that follows it are one character together; any other
/// surrogate is no valid UTF-16 and gives the replacement character.
pub open spec fn utf16_decoded(units: Seq<u16>) -> Seq<char>
    decreases units.len(),
{
    if units.len() == 0 {
        Seq::empty()
    } else if units[0] < 0xD800 || units[0] >= 0xE000 {
        seq![(units[0] as u32) as char] + utf16_decoded(units.skip(1))
    } else if units[0] < 0xDC00 && units.len() >= 2 && 0xDC00 <= units[1] < 0xE000 {
        seq![
            ((0x1_0000 + (units[0] - 0xD800) * 0x400 + (units[1] - 0xDC00)) as u32) as char,
        ] + utf16_decoded(units.skip(2))
    } else {
        seq!['\u{FFFD}'] + utf16_decoded(units.skip(1))
    }
}

/// `str::to_uppercase` of the standard library. The result is a function of
/// the text alone, and is named `uppercase_of`.
pub assume_specification[ str::to_uppercase ](s: &str) -> (r: String)
    ensures
        r@ == uppercase_of(s@),
;

/// `String::from_utf16_lossy` of the standard library: decodes the code
/// units, with the replacement character in place of every surrogate that
/// has no partner.
pub assume_specification[ String::from_utf16_lossy ](v: &[u16]) -> (r: String)
    ensures
        r@ == utf16_decoded(v@),
;

/// The system drive: the boot directory that the registry gave, in upper
/// case; `C:\` where it gave none.
pub fn system_drive(boot_dir: Option<String>) -> (r: String)
    ensures
        r@ == match boot_dir {
            Some(v) => uppercase_of(v@),
            None => r"C:\"@,
        },
{
    match boot_dir {
        Some(v) => v.as_str().to_uppercase(),
        None => r"C:\".to_string(),
    }
}

/// The system root: the value that the registry gave; `C:\Windows` where it
/// gave none.
pub fn system_root(value: Option<String>) -> (r: String)
    ensures
        r@ == match value {
            Some(v) => v@,
            None => r"C:\Windows"@,
        },
{
    match value {
        Some(v) => v,
        None => r"C:\Windows".to_string(),
    }
}

/// The program data directory: the value that the registry gave;
/// `C:\ProgramData` where it gave none.
pub fn program_data(value: Option<String>) -> (r: String)
    ensures
        r@ == match value {
            Some(v) => v@,
            None => r"C:\ProgramData"@,
        },
{
    match value {
        Some(v) => v,
        None => r"C:\ProgramData".to_string(),
    }
}

/// The home directories that the registry gave: the profile path of every
/// profile, in order, or nothing where the path of one profile could not be
/// read.
pub fn list_users_homes_from_reg(profiles: &Vec<Option<String>>) -> (r: Option<Vec<String>>)
    ensures
        r is Some <==> forall|i: int| 0 <= i < profiles@.len() ==> (#[trigger] profiles@[i]) is Some,
        r matches Some(homes) ==> homes@.len() == profiles@.len() && forall|i: int|
            0 <= i < profiles@.len() ==> (#[trigger] homes@[i])@ == profiles@[i]->Some_0@,
{
    let mut returned: Vec<String> = Vec::new();
    let mut i: usize = 0;
    while i < profiles.len()
        invariant
            i <= profiles@.len(),
            returned@.len() == i,
            forall|j: int| 0 <= j < i ==> (#[trigger] profiles@[j]) is Some,
            forall|j: int| 0 <= j < i ==> (#[trigger] returned@[j])@ == profiles@[j]->Some_0@,
        decreases profiles@.len() - i,
    {
        match &profiles[i] {
            Some(path) => {
                returned.push(path.clone());
            },
            None => {
                return None;
            },
        }
        i += 1;
    }
    Some(returned)
}

/// The home directory of a user whose directory below `Users` has the given
/// name.
pub open spec fn users_home(sys_drive: Seq<char>, name: Seq<char>) -> Seq<char> {
    with_separator(with_separator(sys_drive, "Users"@), name)
}

/// The home directories of the users: those that the registry gave, or,
/// where it gave none, one below `Users` on the system drive for each name
/// in `user_dirs`.
pub fn list_users_homes(
    from_registry: Option<Vec<String>>,
    sys_drive: &str,
    user_dirs: &Vec<String>,
) -> (r: Vec<String>)
    ensures
        from_registry matches Some(homes) ==> r == homes,
        from_registry is None ==> r@.len() == user_dirs@.len() && forall|i: int|
            0 <= i < user_dirs@.len() ==> (#[trigger] r@[i])@ == users_home(
                sys_drive@,
                user_dirs@[i]@,
            ),
{
    match from_registry {
        Some(homes) => homes,
        None => {
            let drive: Vec<char> = chars_of(sys_drive);
            let users: Vec<char> = chars_of("Users");
            let base: Vec<char> = join_with_separator(drive.as_slice(), users.as_slice());
            let mut returned: Vec<String> = Vec::new();
            let mut i: usize = 0;
            while i < user_dirs.len()
                invariant
                    i <= user_dirs@.len(),
                    returned@.len() == i,
                    base@ == with_separator(sys_drive@, "Users"@),
                    forall|j: int|
                        0 <= j < i ==> (#[trigger] returned@[j])@ == users_home(
                            sys_drive@,
                            user_dirs@[j]@,
                        ),
                decreases user_dirs@.len() - i,
            {
                let name: Vec<char> = chars_of(user_dirs[i].as_str());
                let home: Vec<char> = join_with_separator(base.as_slice(), name.as_slice());
                returned.push(string_of(home.as_slice()));
                i += 1;
            }
            returned
        },
    }
}

/// The code units since the last 0 of `s`.
pub open spec fn open_run(s: Seq<u16>) -> Seq<u16>
    decreases s.len(),
{
    if s.len() == 0 || s.last() == 0 {
        Seq::empty()
    } else {
        open_run(s.drop_last()).push(s.last())
    }
}

/// The runs of code units other than 0 that a 0 ends in `s`, in order.
pub open spec fn closed_runs(s: Seq<u16>) -> Seq<Seq<u16>>
    decreases s.len(),
{
    if s.len() == 0 {
        Seq::empty()
    } else if s.last() == 0 && open_run(s.drop_last()).len() > 0 {
        closed_runs(s.drop_last()).push(open_run(s.drop_last()))
    } else {
        closed_runs(s.drop_last())
    }
}

/// The runs of code units other than 0 in `s`, in order.
pub open spec fn runs(s: Seq<u16>) -> Seq<Seq<u16>> {
    if open_run(s).len() > 0 {
        closed_runs(s).push(open_run(s))
    } else {
        closed_runs(s)
    }
}

/// The part of the buffer that the system filled: its first `readed` code
/// units, or all of it where it holds fewer.
pub open spec fn filled(buffer: Seq<u16>, readed: u32) -> Seq<u16> {
    if readed <= buffer.len() {
        buffer.take(readed as int)
    } else {
        buffer
    }
}

/// The mounted drives, from the buffer that the system filled with their
/// names: each name is a run of code units that a 0 follows, as in
/// `A:\`, 0, `C:\`, 0, 0.
pub fn mounted_devices(buffer: &[u16], readed: u32) -> (r: Vec<String>)
    ensures
        r@.len() == runs(filled(buffer@, readed)).len(),
        forall|i: int|
            0 <= i < r@.len() ==> (#[trigger] r@[i])@ == utf16_decoded(
                runs(filled(buffer@, readed))[i],
            ),
{
    let end: usize = if (readed as usize) <= buffer.len() {
        readed as usize
    } else {
        buffer.len()
    };
    let ghost used = filled(buffer@, readed);
    assert(used =~= buffer@.take(end as int));
    let mut to_ret: Vec<String> = Vec::new();
    let mut cur: Vec<u16> = Vec::new();
    let mut i: usize = 0;
    while i < end
        invariant
            i <= end <= buffer@.len(),
            used == buffer@.take(end as int),
            cur@ == open_run(used.take(i as int)),
            to_ret@.len() == closed_runs(used.take(i as int)).len(),
            forall|j: int|
                0 <= j < to_ret@.len() ==> (#[trigger] to_ret@[j])@ == utf16_decoded(
                    closed_runs(used.take(i as int))[j],
                ),
        decreases end - i,
    {
        let unit: u16 = buffer[i];
        proof {
            assert(used.take(i + 1).drop_last() =~= used.take(i as int));
            assert(used.take(i + 1).last() == unit);
        }
        if unit == 0 {
            if cur.len() > 0 {
                to_ret.push(String::from_utf16_lossy(cur.as_slice()));
            }
            cur = Vec::new();
        } else {
            cur.push(unit);
        }
        i += 1;
    }
    assert(used.take(end as int) =~= used);
    if cur.len() > 0 {
        to_ret.push(String::from_utf16_lossy(cur.as_slice()));
    }
    to_ret
}

/// The code units of one character decode to that character, whatever
/// follows them.
pub proof fn lemma_decode_one(c: char, rest: Seq<u16>)
    ensures
        utf16_decoded(utf16_of_char(c) + rest) == seq![c] + utf16_decoded(rest),
{
    let n = c as u32;
    let units = utf16_of_char(c) + rest;
    if n < 0x1_0000 {
        assert(units[0] == n as u16);
        assert(units.skip(1) =~= rest);
        assert((units[0] as u32) as char == c);
    } else {
        let q = (n - 0x1_0000) as int / 0x400;
        let r = (n - 0x1_0000) as int % 0x400;
        assert(0 <= q < 0x400 && 0 <= r < 0x400 && n - 0x1_0000 == q * 0x400 + r);
        assert(units[0] == (0xD800 + q) as u16);
        assert(units[1] == (0xDC00 + r) as u16);
        assert(units.skip(2) =~= rest);
        assert(((0x1_0000 + (units[0] - 0xD800) * 0x400 + (units[1] - 0xDC00)) as u32) as char
            == c);
    }
}

/// The UTF-16 code units of a text decode to that text, whatever follows
/// them.
pub proof fn lemma_decode_text(txt: Seq<char>, rest: Seq<u16>)
    ensures
        utf16_decoded(utf16_of(txt) + rest) == txt + utf16_decoded(rest),
    decreases txt.len(),
{
    if txt.len() == 0 {
        assert(utf16_of(txt) + rest =~= rest);
        assert(txt + utf16_decoded(rest) =~= utf16_decoded(rest));
    } else {
        let front = txt.drop_last();
        let more = utf16_of_char(txt.last()) + rest;
        assert(utf16_of(txt) + rest =~= utf16_of(front) + more);
        lemma_decode_text(front, more);
        lemma_decode_one(txt.last(), rest);
        assert(front + (seq![txt.last()] + utf16_decoded(rest)) =~= txt + utf16_decoded(rest));
    }
}

/// Decoding undoes encoding: the UTF-16 code units of a text decode to that
/// text.
pub proof fn lemma_decoding_undoes_encoding(txt: Seq<char>)
    ensures
        utf16_decoded(utf16_of(txt)) == txt,
{
    lemma_decode_text(txt, Seq::empty());
    assert(utf16_of(txt) + Seq::<u16>::empty() =~= utf16_of(txt));
    assert(txt + utf16_decoded(Seq::<u16>::empty()) =~= txt);
}

} // verus!
