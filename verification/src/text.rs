//! Character sequences: the operations on paths and templates.

use vstd::prelude::*;

verus! {

/// `String::push` of the standard library: the character is appended.
pub assume_specification[ String::push ](s: &mut String, ch: char)
    ensures
        final(s)@ == old(s)@.push(ch),
;

/// The characters of a string.
pub fn chars_of(s: &str) -> (r: Vec<char>)
    ensures
        r@ == s@,
{
    let mut v: Vec<char> = Vec::new();
    for c in it: s.chars()
        invariant
            v@ == it.seq().take(it.index()),
    {
        v.push(c);
    }
    v
}

/// The string made of the given characters.
pub fn string_of(v: &[char]) -> (r: String)
    ensures
        r@ == v@,
{
    let mut s: String = String::new();
    let mut i: usize = 0;
    while i < v.len()
        invariant
            i <= v@.len(),
            s@ == v@.take(i as int),
        decreases v@.len() - i,
    {
        s.push(v[i]);
        i += 1;
    }
    s
}

/// The views of a list of character vectors.
pub open spec fn views(v: Seq<Vec<char>>) -> Seq<Seq<char>> {
    v.map_values(|x: Vec<char>| x@)
}

/// The views of a list of strings.
pub open spec fn texts(v: Seq<String>) -> Seq<Seq<char>> {
    v.map_values(|x: String| x@)
}

/// Whether `p` stands in `s` at place `i`.
pub open spec fn occurs_at(s: Seq<char>, p: Seq<char>, i: int) -> bool {
    0 <= i && i + p.len() <= s.len() && s.subrange(i, i + p.len()) == p
}

/// The first place at or after `from` at which `p` stands in `s`, or -1.
pub open spec fn index_from(s: Seq<char>, p: Seq<char>, from: int) -> int
    decreases s.len() - from + 1,
{
    if from < 0 || from + p.len() > s.len() {
        -1
    } else if occurs_at(s, p, from) {
        from
    } else {
        index_from(s, p, from + 1)
    }
}

/// The first place at which `p` stands in `s`, or -1.
pub open spec fn index_of(s: Seq<char>, p: Seq<char>) -> int {
    index_from(s, p, 0)
}

/// `index_from` gives the first occurrence: `p` stands there and at no
/// earlier place from `from` on; where it gives -1, `p` stands nowhere from
/// `from` on.
pub proof fn lemma_index_from(s: Seq<char>, p: Seq<char>, from: int)
    requires
        0 <= from,
    ensures
        index_from(s, p, from) == -1 || (from <= index_from(s, p, from) && occurs_at(
            s,
            p,
            index_from(s, p, from),
        )),
        forall|j: int|
            from <= j && (j < index_from(s, p, from) || index_from(s, p, from) == -1)
                ==> !#[trigger] occurs_at(s, p, j),
    decreases s.len() - from + 1,
{
    if from + p.len() <= s.len() && !occurs_at(s, p, from) {
        lemma_index_from(s, p, from + 1);
    }
}

/// `s` with every occurrence of `from` replaced by `to`, taken from left to
/// right without overlap. An empty `from` replaces nothing.
pub open spec fn replaced(s: Seq<char>, from: Seq<char>, to: Seq<char>) -> Seq<char>
    decreases s.len(),
{
    if from.len() == 0 || s.len() == 0 {
        s
    } else if occurs_at(s, from, 0) {
        to + replaced(s.skip(from.len() as int), from, to)
    } else {
        seq![s[0]] + replaced(s.skip(1), from, to)
    }
}

/// The parts joined with `sep` between them.
pub open spec fn joined(parts: Seq<Seq<char>>, sep: char) -> Seq<char>
    decreases parts.len(),
{
    if parts.len() == 0 {
        Seq::empty()
    } else if parts.len() == 1 {
        parts[0]
    } else {
        joined(parts.drop_last(), sep).push(sep) + parts.last()
    }
}

/// The pieces of `s` between the occurrences of `sep`: one more than there
/// are occurrences.
pub open spec fn pieces(s: Seq<char>, sep: char) -> Seq<Seq<char>>
    decreases s.len(),
{
    if s.len() == 0 {
        seq![Seq::empty()]
    } else if s.last() == sep {
        pieces(s.drop_last(), sep).push(Seq::empty())
    } else {
        pieces(s.drop_last(), sep).drop_last().push(pieces(s.drop_last(), sep).last().push(s.last()))
    }
}

/// Whether `parts` are the pieces of `s` between the occurrences of `sep`:
/// no piece holds `sep`, and joined with `sep` they give `s` back.
pub open spec fn is_split_of(parts: Seq<Seq<char>>, s: Seq<char>, sep: char) -> bool {
    &&& parts.len() >= 1
    &&& joined(parts, sep) == s
    &&& forall|i: int| 0 <= i < parts.len() ==> !(#[trigger] parts[i]).contains(sep)
}

/// The upper-case form of an ASCII letter; any other character unchanged.
pub open spec fn ascii_upper(c: char) -> char {
    if 'a' <= c && c <= 'z' {
        ((c as u8) - 32) as char
    } else {
        c
    }
}

/// Whether `s` is `word` up to the case of ASCII letters.
pub open spec fn same_ignoring_ascii_case(s: Seq<char>, word: Seq<char>) -> bool {
    s.len() == word.len() && forall|i: int|
        0 <= i < s.len() ==> ascii_upper(#[trigger] s[i]) == ascii_upper(word[i])
}

/// Tests whether `p` stands in `s` at place `i`.
pub fn matches_at(s: &[char], p: &[char], i: usize) -> (r: bool)
    ensures
        r == occurs_at(s@, p@, i as int),
{
    if i > s.len() || p.len() > s.len() - i {
        return false;
    }
    let mut k: usize = 0;
    let n: usize = s.len();
    while k < p.len()
        invariant
            k <= p@.len(),
            n == s@.len(),
            i + p@.len() <= s@.len(),
            forall|j: int| 0 <= j < k ==> s@[i + j] == p@[j],
        decreases p@.len() - k,
    {
        if s[i + k] != p[k] {
            assert(s@.subrange(i as int, i + p@.len())[k as int] == s@[i + k]);
            return false;
        }
        k += 1;
    }
    assert(s@.subrange(i as int, i + p@.len()) =~= p@);
    true
}

/// Tests whether `s` begins with `p`.
pub fn has_prefix(s: &[char], p: &[char]) -> (r: bool)
    ensures
        r == occurs_at(s@, p@, 0),
        r == p@.is_prefix_of(s@),
{
    matches_at(s, p, 0)
}

/// Tests whether `c` is one of the characters of `s`.
pub fn has_char(s: &[char], c: char) -> (r: bool)
    ensures
        r == s@.contains(c),
{
    let mut i: usize = 0;
    while i < s.len()
        invariant
            i <= s@.len(),
            forall|j: int| 0 <= j < i ==> s@[j] != c,
        decreases s@.len() - i,
    {
        if s[i] == c {
            return true;
        }
        i += 1;
    }
    false
}

/// Finds the first place at which `p` stands in `s`.
pub fn find(s: &[char], p: &[char]) -> (r: Option<usize>)
    ensures
        match r {
            Some(i) => i == index_of(s@, p@) && occurs_at(s@, p@, i as int) && forall|j: int|
                0 <= j < i ==> !#[trigger] occurs_at(s@, p@, j),
            None => index_of(s@, p@) == -1 && forall|j: int| !#[trigger] occurs_at(s@, p@, j),
        },
{
    proof {
        lemma_index_from(s@, p@, 0);
    }
    if p.len() > s.len() {
        return None;
    }
    let last: usize = s.len() - p.len();
    let mut i: usize = 0;
    loop
        invariant
            i <= last,
            last == s@.len() - p@.len(),
            index_from(s@, p@, i as int) == index_of(s@, p@),
        decreases last - i,
    {
        proof {
            lemma_index_from(s@, p@, 0);
        }
        if matches_at(s, p, i) {
            return Some(i);
        }
        if i == last {
            assert(index_from(s@, p@, i + 1) == -1);
            return None;
        }
        i += 1;
    }
}

/// Appends the characters of `part` to `out`.
pub fn append(out: &mut Vec<char>, part: &[char])
    ensures
        final(out)@ == old(out)@ + part@,
{
    let mut i: usize = 0;
    while i < part.len()
        invariant
            i <= part@.len(),
            out@ == old(out)@ + part@.take(i as int),
        decreases part@.len() - i,
    {
        out.push(part[i]);
        i += 1;
    }
    assert(part@.take(part@.len() as int) =~= part@);
}

/// The characters of `s` from place `from` on.
pub fn tail_from(s: &[char], from: usize) -> (r: Vec<char>)
    requires
        from <= s@.len(),
    ensures
        r@ == s@.skip(from as int),
{
    let mut out: Vec<char> = Vec::new();
    let mut i: usize = from;
    while i < s.len()
        invariant
            from <= i <= s@.len(),
            out@ == s@.subrange(from as int, i as int),
        decreases s@.len() - i,
    {
        out.push(s[i]);
        i += 1;
    }
    out
}

/// Replaces every occurrence of `from` in `s` by `to`, from left to right
/// without overlap.
pub fn replace_all(s: &[char], from: &[char], to: &[char]) -> (r: Vec<char>)
    ensures
        r@ == replaced(s@, from@, to@),
{
    let mut out: Vec<char> = Vec::new();
    if from.len() == 0 {
        append(&mut out, s);
        return out;
    }
    let mut i: usize = 0;
    assert(s@.skip(0) =~= s@);
    while i < s.len()
        invariant
            i <= s@.len(),
            from@.len() > 0,
            out@ + replaced(s@.skip(i as int), from@, to@) == replaced(s@, from@, to@),
        decreases s@.len() - i,
    {
        let ghost rest = s@.skip(i as int);
        if matches_at(s, from, i) {
            proof {
                assert(rest.subrange(0, from@.len() as int) =~= s@.subrange(
                    i as int,
                    i + from@.len(),
                ));
                assert(rest.skip(from@.len() as int) =~= s@.skip(i + from@.len()));
                assert((out@ + to@) + replaced(s@.skip(i + from@.len()), from@, to@) =~= out@ + (
                to@ + replaced(s@.skip(i + from@.len()), from@, to@)));
            }
            append(&mut out, to);
            i += from.len();
        } else {
            proof {
                if i + from@.len() <= s@.len() {
                    assert(rest.subrange(0, from@.len() as int) =~= s@.subrange(
                        i as int,
                        i + from@.len(),
                    ));
                }
                assert(rest.skip(1) =~= s@.skip(i + 1));
                assert(out@.push(s@[i as int]) + replaced(s@.skip(i + 1), from@, to@) =~= out@ + (
                seq![rest[0]] + replaced(s@.skip(i + 1), from@, to@)));
            }
            out.push(s[i]);
            i += 1;
        }
    }
    out
}

/// Cuts `s` into the pieces between the occurrences of `sep`.
pub fn split(s: &[char], sep: char) -> (r: Vec<Vec<char>>)
    ensures
        views(r@) == pieces(s@, sep),
        is_split_of(views(r@), s@, sep),
{
    let mut parts: Vec<Vec<char>> = Vec::new();
    let mut cur: Vec<char> = Vec::new();
    let mut i: usize = 0;
    assert(views(parts@).push(cur@) =~= seq![cur@]);
    while i < s.len()
        invariant
            i <= s@.len(),
            views(parts@).push(cur@) == pieces(s@.take(i as int), sep),
            joined(views(parts@).push(cur@), sep) == s@.take(i as int),
            !cur@.contains(sep),
            forall|j: int| 0 <= j < parts@.len() ==> !(#[trigger] views(parts@)[j]).contains(sep),
        decreases s@.len() - i,
    {
        let c: char = s[i];
        let ghost before = views(parts@).push(cur@);
        assert(before.drop_last() =~= views(parts@));
        assert(s@.take(i + 1) =~= s@.take(i as int).push(c));
        assert(s@.take(i + 1).drop_last() =~= s@.take(i as int));
        if c == sep {
            parts.push(cur);
            cur = Vec::new();
            proof {
                assert(views(parts@) =~= before);
                let after = views(parts@).push(cur@);
                assert(after.drop_last() =~= before);
                assert(after =~= pieces(s@.take(i + 1), sep));
                assert(joined(after, sep) =~= joined(before, sep).push(sep));
            }
        } else {
            let ghost old_cur = cur@;
            cur.push(c);
            proof {
                let after = views(parts@).push(cur@);
                assert(after.drop_last() =~= views(parts@));
                assert(after =~= pieces(s@.take(i + 1), sep));
                if parts@.len() == 0 {
                    assert(joined(after, sep) =~= joined(before, sep).push(c));
                } else {
                    assert(joined(after, sep) =~= joined(views(parts@), sep).push(sep) + old_cur.push(
                        c,
                    ));
                    assert(joined(before, sep) =~= joined(views(parts@), sep).push(sep) + old_cur);
                    assert(joined(after, sep) =~= joined(before, sep).push(c));
                }
                assert forall|k: int| 0 <= k < cur@.len() implies cur@[k] != sep by {
                    if k < old_cur.len() {
                        assert(old_cur[k] == cur@[k]);
                    }
                }
            }
        }
        i += 1;
    }
    let ghost before = views(parts@).push(cur@);
    parts.push(cur);
    proof {
        assert(views(parts@) =~= before);
        assert(s@.take(s@.len() as int) =~= s@);
    }
    parts
}

/// Joins the parts from `from` up to `to` with `sep` between them.
pub fn join(parts: &Vec<Vec<char>>, from: usize, to: usize, sep: char) -> (r: Vec<char>)
    requires
        from <= to <= parts@.len(),
    ensures
        r@ == joined(views(parts@).subrange(from as int, to as int), sep),
{
    let mut out: Vec<char> = Vec::new();
    let mut i: usize = from;
    while i < to
        invariant
            from <= i <= to <= parts@.len(),
            out@ == joined(views(parts@).subrange(from as int, i as int), sep),
        decreases to - i,
    {
        let ghost done = views(parts@).subrange(from as int, i as int);
        let ghost more = views(parts@).subrange(from as int, i + 1);
        proof {
            assert(more.drop_last() =~= done);
            assert(more.last() == parts@[i as int]@);
        }
        if i > from {
            out.push(sep);
        }
        append(&mut out, parts[i].as_slice());
        proof {
            if i == from {
                assert(out@ =~= more[0]);
            }
        }
        i += 1;
    }
    out
}

/// The upper-case form of an ASCII letter; any other character unchanged.
pub fn to_ascii_upper(c: char) -> (r: char)
    ensures
        r == ascii_upper(c),
{
    if 'a' <= c && c <= 'z' {
        ((c as u8) - 32) as char
    } else {
        c
    }
}

/// Tests whether `s` is `word` up to the case of ASCII letters.
pub fn eq_ignoring_ascii_case(s: &[char], word: &[char]) -> (r: bool)
    ensures
        r == same_ignoring_ascii_case(s@, word@),
{
    if s.len() != word.len() {
        return false;
    }
    let mut i: usize = 0;
    while i < s.len()
        invariant
            i <= s@.len(),
            s@.len() == word@.len(),
            forall|j: int| 0 <= j < i ==> ascii_upper(#[trigger] s@[j]) == ascii_upper(word@[j]),
        decreases s@.len() - i,
    {
        if to_ascii_upper(s[i]) != to_ascii_upper(word[i]) {
            return false;
        }
        i += 1;
    }
    true
}

} // verus!
