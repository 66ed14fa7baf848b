//! Path patterns: templates with `*` and `**`, and the walk that expands
//! them.
//!
//! A template is cut at its backslashes. The segments before the first one
//! that holds a `*` are the base; the rest is the pattern. A segment `**`
//! stands for any number of segments, none included; in any other segment a
//! `*` stands for any characters of one name. The walk performs no input or
//! output: it names the directory to list next, is offered the entries of
//! that directory one by one, and hands out the paths of the files that the
//! pattern matches.

use vstd::prelude::*;
use vstd::multiset::Multiset;
use crate::text::append;
use crate::text::chars_of;
use crate::text::has_char;
use crate::text::join;
use crate::text::joined;
use crate::text::pieces;
use crate::text::replace_all;
use crate::text::replaced;
use crate::text::split;
use crate::text::string_of;
use crate::text::texts;
use crate::text::views;

verus! {

/// Whether the regular expression `pattern` has a match in `haystack`, as
/// the `regex` crate finds it: `None` where `pattern` is no regular
/// expression that the crate accepts.
pub uninterp spec fn regex_search(pattern: Seq<char>, haystack: Seq<char>) -> Option<bool>;

/// `Regex::new` and `Regex::is_match` of the `regex` crate: compiles
/// `pattern` and searches `haystack` for a match. The result is a function of
/// the two texts alone, and is named `regex_search`; nothing more is claimed
/// of it.
#[verifier::external_body]
fn regex_is_match(pattern: &str, haystack: &str) -> (r: Option<bool>)
    ensures
        r == regex_search(pattern@, haystack@),
{
    match regex::Regex::new(pattern) {
        Ok(re) => Some(re.is_match(haystack)),
        Err(_) => None,
    }
}

/// The regular expression of a pattern segment: between `^` and `$`, the
/// segment with every `.` made literal and every `*` turned into `.*`, runs
/// of which count once.
pub open spec fn pattern_regex(ptrn: Seq<char>) -> Seq<char> {
    seq!['^'] + replaced(
        replaced(replaced(ptrn, seq!['.'], seq!['\\', '.']), seq!['*'], seq!['.', '*']),
        seq!['.', '*', '.', '*'],
        seq!['.', '*'],
    ) + seq!['$']
}

/// The segment that stands for any number of segments.
pub open spec fn recursive_wildcard() -> Seq<char> {
    seq!['*', '*']
}

/// Whether a pattern segment that is not `**` matches a name: the regular
/// expression of the segment has a match in the name.
pub open spec fn segment_matches(segment: Seq<char>, name: Seq<char>) -> bool {
    regex_search(pattern_regex(segment), name) == Some(true)
}

/// Whether a pattern matches a path, both given by their segments.
///
/// The empty pattern matches the empty path only. A pattern that ends in
/// `**` matches what the pattern without it matches, and every path that it
/// matches with the last segment left out. Any other pattern matches a path
/// whose last segment matches the last segment of the pattern and whose
/// earlier segments match the earlier ones.
pub open spec fn glob_matches(pattern: Seq<Seq<char>>, segments: Seq<Seq<char>>) -> bool
    decreases pattern.len() + segments.len(),
{
    if pattern.len() == 0 {
        segments.len() == 0
    } else if pattern.last() == recursive_wildcard() {
        glob_matches(pattern.drop_last(), segments) || (segments.len() > 0 && glob_matches(
            pattern,
            segments.drop_last(),
        ))
    } else {
        segments.len() > 0 && segment_matches(pattern.last(), segments.last()) && glob_matches(
            pattern.drop_last(),
            segments.drop_last(),
        )
    }
}

/// Whether `reach` says, for every length `k`, whether the first `k`
/// segments of the pattern match the path.
pub open spec fn is_reach_of(reach: Seq<bool>, pattern: Seq<Seq<char>>, segments: Seq<Seq<char>>) -> bool {
    &&& reach.len() == pattern.len() + 1
    &&& forall|k: int|
        0 <= k <= pattern.len() ==> #[trigger] reach[k] == glob_matches(pattern.take(k), segments)
}

/// Whether `stars` says of every segment of the pattern whether it is `**`.
pub open spec fn is_stars_of(stars: Seq<bool>, pattern: Seq<Seq<char>>) -> bool {
    &&& stars.len() == pattern.len()
    &&& forall|k: int|
        0 <= k < pattern.len() ==> #[trigger] stars[k] == (pattern[k] == recursive_wildcard())
}

/// Entry `k` of the reach of the empty path: only a run of `**` matches it.
pub open spec fn first_reach_at(stars: Seq<bool>, k: int) -> bool
    decreases k,
{
    if k <= 0 {
        true
    } else {
        stars[k - 1] && first_reach_at(stars, k - 1)
    }
}

/// Entry `k` of the reach of a path with one more segment, from the reach of
/// the path and from `hits`, which says of each segment of the pattern
/// whether it matches the new segment.
pub open spec fn next_reach_at(stars: Seq<bool>, reach: Seq<bool>, hits: Seq<bool>, k: int) -> bool
    decreases k,
{
    if k <= 0 {
        false
    } else if stars[k - 1] {
        next_reach_at(stars, reach, hits, k - 1) || reach[k]
    } else {
        hits[k - 1] && reach[k - 1]
    }
}

/// Gives the regular expression of a pattern segment.
pub fn replace_pattern(ptrn: &str) -> (r: String)
    ensures
        r@ == pattern_regex(ptrn@),
{
    let chars: Vec<char> = chars_of(ptrn);
    let mut dot: Vec<char> = Vec::new();
    dot.push('.');
    let mut literal_dot: Vec<char> = Vec::new();
    literal_dot.push('\\');
    literal_dot.push('.');
    let mut star: Vec<char> = Vec::new();
    star.push('*');
    let mut any: Vec<char> = Vec::new();
    any.push('.');
    any.push('*');
    let mut any_twice: Vec<char> = Vec::new();
    any_twice.push('.');
    any_twice.push('*');
    any_twice.push('.');
    any_twice.push('*');
    assert(dot@ =~= seq!['.']);
    assert(literal_dot@ =~= seq!['\\', '.']);
    assert(star@ =~= seq!['*']);
    assert(any@ =~= seq!['.', '*']);
    assert(any_twice@ =~= seq!['.', '*', '.', '*']);
    let first: Vec<char> = replace_all(chars.as_slice(), dot.as_slice(), literal_dot.as_slice());
    let second: Vec<char> = replace_all(first.as_slice(), star.as_slice(), any.as_slice());
    let third: Vec<char> = replace_all(second.as_slice(), any_twice.as_slice(), any.as_slice());
    let mut out: Vec<char> = Vec::new();
    out.push('^');
    append(&mut out, third.as_slice());
    out.push('$');
    assert(out@ =~= seq!['^'] + third@ + seq!['$']);
    string_of(out.as_slice())
}

/// The reach of the empty path.
pub fn first_reach(stars: &Vec<bool>) -> (r: Vec<bool>)
    ensures
        r@.len() == stars@.len() + 1,
        forall|k: int| 0 <= k <= stars@.len() ==> #[trigger] r@[k] == first_reach_at(stars@, k),
{
    let mut out: Vec<bool> = Vec::new();
    out.push(true);
    let mut k: usize = 0;
    while k < stars.len()
        invariant
            k <= stars@.len(),
            out@.len() == k + 1,
            forall|j: int| 0 <= j <= k ==> #[trigger] out@[j] == first_reach_at(stars@, j),
        decreases stars@.len() - k,
    {
        let before: bool = out[k];
        out.push(stars[k] && before);
        k += 1;
    }
    out
}

/// The reach of a path with one more segment.
pub fn next_reach(stars: &Vec<bool>, reach: &Vec<bool>, hits: &Vec<bool>) -> (r: Vec<bool>)
    requires
        reach@.len() == stars@.len() + 1,
        hits@.len() == stars@.len(),
    ensures
        r@.len() == stars@.len() + 1,
        forall|k: int|
            0 <= k <= stars@.len() ==> #[trigger] r@[k] == next_reach_at(stars@, reach@, hits@, k),
{
    let mut out: Vec<bool> = Vec::new();
    out.push(false);
    let mut k: usize = 0;
    while k < stars.len()
        invariant
            k <= stars@.len(),
            reach@.len() == stars@.len() + 1,
            hits@.len() == stars@.len(),
            out@.len() == k + 1,
            forall|j: int|
                0 <= j <= k ==> #[trigger] out@[j] == next_reach_at(stars@, reach@, hits@, j),
        decreases stars@.len() - k,
    {
        let before: bool = out[k];
        let value: bool = if stars[k] {
            before || reach[k + 1]
        } else {
            hits[k] && reach[k]
        };
        out.push(value);
        k += 1;
    }
    out
}

/// The reach of the empty path is what `first_reach_at` computes.
pub proof fn lemma_first_reach(stars: Seq<bool>, pattern: Seq<Seq<char>>, k: int)
    requires
        is_stars_of(stars, pattern),
        0 <= k <= pattern.len(),
    ensures
        first_reach_at(stars, k) == glob_matches(pattern.take(k), Seq::empty()),
    decreases k,
{
    if k > 0 {
        lemma_first_reach(stars, pattern, k - 1);
        assert(pattern.take(k).drop_last() =~= pattern.take(k - 1));
        assert(pattern.take(k).last() == pattern[k - 1]);
    }
}

/// The reach of a longer path is what `next_reach_at` computes, where the
/// hits are right for every segment that is not `**` and is reached.
pub proof fn lemma_next_reach(
    stars: Seq<bool>,
    pattern: Seq<Seq<char>>,
    reach: Seq<bool>,
    hits: Seq<bool>,
    segments: Seq<Seq<char>>,
    name: Seq<char>,
    k: int,
)
    requires
        is_stars_of(stars, pattern),
        is_reach_of(reach, pattern, segments),
        hits.len() == pattern.len(),
        forall|j: int|
            0 <= j < pattern.len() && !stars[j] && reach[j] ==> #[trigger] hits[j]
                == segment_matches(pattern[j], name),
        0 <= k <= pattern.len(),
    ensures
        next_reach_at(stars, reach, hits, k) == glob_matches(pattern.take(k), segments.push(name)),
    decreases k,
{
    let longer = segments.push(name);
    assert(longer.drop_last() =~= segments);
    assert(longer.last() == name);
    if k > 0 {
        lemma_next_reach(stars, pattern, reach, hits, segments, name, k - 1);
        assert(pattern.take(k).drop_last() =~= pattern.take(k - 1));
        assert(pattern.take(k).last() == pattern[k - 1]);
        assert(reach[k] == glob_matches(pattern.take(k), segments));
        assert(reach[k - 1] == glob_matches(pattern.take(k - 1), segments));
    }
}

/// What an entry of a directory is.
#[derive(Clone, Copy, Debug, PartialEq, Eq, Structural)]
pub enum EntryKind {
    /// A file.
    File,
    /// A directory.
    Directory,
    /// Anything else.
    Other,
}

/// A place below the base of a pattern: its path, and the segments that
/// lead to it from the base.
pub struct Place {
    pub dir: Seq<char>,
    pub rel: Seq<Seq<char>>,
}

/// How far the expansion of a pattern has come.
pub struct Expansion {
    /// The path before the first wildcard.
    pub base: Seq<char>,
    /// The segments of the pattern, from the first wildcard on.
    pub tail: Seq<Seq<char>>,
    /// The files found and not handed out yet, oldest first.
    pub found: Seq<Place>,
    /// The directories that are still to be listed, the next one last.
    pub waiting: Seq<Place>,
    /// The directory whose entries are being offered.
    pub current: Option<Place>,
}

/// The path of the place that `rel` leads to from `base`.
pub open spec fn place_path(base: Seq<char>, rel: Seq<Seq<char>>) -> Seq<char>
    decreases rel.len(),
{
    if rel.len() == 0 {
        base
    } else {
        place_path(base, rel.drop_last()).push('\\') + rel.last()
    }
}

/// Whether a path below a directory at `rel` can still match: a shorter
/// pattern matches `rel`, or the pattern ends in `**` and matches `rel`.
pub open spec fn can_go_on(tail: Seq<Seq<char>>, rel: Seq<Seq<char>>) -> bool {
    ||| exists|k: int| 0 <= k < tail.len() && #[trigger] glob_matches(tail.take(k), rel)
    ||| (tail.len() > 0 && tail.last() == recursive_wildcard() && glob_matches(tail, rel))
}

/// The number of segments before the first one that holds a `*`.
pub open spec fn first_wild(segs: Seq<Seq<char>>) -> int
    decreases segs.len(),
{
    if segs.len() == 0 || segs[0].contains('*') {
        0
    } else {
        1 + first_wild(segs.skip(1))
    }
}

/// The expansion of a pattern before anything was listed. A pattern without
/// segments stands for the base itself, which is found at once; for any
/// other pattern the base waits to be listed.
pub open spec fn start_of(base: Seq<char>, tail: Seq<Seq<char>>) -> Expansion {
    let root = Place { dir: base, rel: Seq::empty() };
    Expansion {
        base,
        tail,
        found: if tail.len() == 0 {
            seq![root]
        } else {
            Seq::empty()
        },
        waiting: if tail.len() == 0 {
            Seq::empty()
        } else {
            seq![root]
        },
        current: None,
    }
}

/// The expansion of a template before anything was listed: the template is
/// cut at its backslashes, the segments before the first wildcard are the
/// base and the others the pattern.
pub open spec fn start_of_template(template: Seq<char>) -> Expansion {
    let segs = pieces(template, '\\');
    let pos = first_wild(segs);
    start_of(joined(segs.take(pos), '\\'), segs.skip(pos))
}

/// The expansion after an entry of the current directory was offered. A file
/// is found where the pattern matches its path; a directory waits to be
/// listed where a path below it can still match; an entry without a name, or
/// of another kind, changes nothing, nor does any entry while no directory
/// is being listed.
pub open spec fn offered(v: Expansion, name: Seq<char>, kind: EntryKind) -> Expansion {
    match v.current {
        None => v,
        Some(cur) => {
            let here = Place { dir: cur.dir.push('\\') + name, rel: cur.rel.push(name) };
            if name.len() == 0 {
                v
            } else if kind == EntryKind::File && glob_matches(v.tail, here.rel) {
                Expansion { found: v.found.push(here), ..v }
            } else if kind == EntryKind::Directory && can_go_on(v.tail, here.rel) {
                Expansion { waiting: v.waiting.push(here), ..v }
            } else {
                v
            }
        },
    }
}

/// Whether every place of an expansion lies where its segments lead from the
/// base, and the pattern matches every file that was found.
pub open spec fn sound(v: Expansion) -> bool {
    &&& forall|i: int|
        0 <= i < v.found.len() ==> (#[trigger] v.found[i]).dir == place_path(
            v.base,
            v.found[i].rel,
        ) && glob_matches(v.tail, v.found[i].rel)
    &&& forall|i: int|
        0 <= i < v.waiting.len() ==> (#[trigger] v.waiting[i]).dir == place_path(
            v.base,
            v.waiting[i].rel,
        )
    &&& v.current matches Some(cur) ==> cur.dir == place_path(v.base, cur.rel)
}

/// A directory that waits to be listed.
struct Frame {
    dir: String,
    reach: Vec<bool>,
    rel: Ghost<Seq<Seq<char>>>,
}

/// A file that was found.
struct Found {
    path: String,
    rel: Ghost<Seq<Seq<char>>>,
}

impl Frame {
    spec fn place(self) -> Place {
        Place { dir: self.dir@, rel: self.rel@ }
    }

    spec fn ok(self, base: Seq<char>, tail: Seq<Seq<char>>) -> bool {
        self.dir@ == place_path(base, self.rel@) && is_reach_of(self.reach@, tail, self.rel@)
    }
}

impl Found {
    spec fn place(self) -> Place {
        Place { dir: self.path@, rel: self.rel@ }
    }
}

/// The walk that expands one pattern.
pub struct PathPattern {
    base: String,
    pattern: Vec<String>,
    stars: Vec<bool>,
    ready: Vec<Found>,
    pending: Vec<Frame>,
    current: Option<Frame>,
}

/// Something that hands out the paths of an expansion one by one.
pub trait PathPatternIterator {
    /// The paths that wait to be handed out, oldest first.
    spec fn ready_paths(&self) -> Seq<Seq<char>>;

    /// Hands out the oldest path that was found, if there is one.
    fn next_path(&mut self) -> (r: Option<String>)
        ensures
            match r {
                Some(p) => old(self).ready_paths().len() > 0 && p@ == old(self).ready_paths()[0]
                    && final(self).ready_paths() == old(self).ready_paths().skip(1),
                None => old(self).ready_paths().len() == 0
                    && final(self).ready_paths() == old(self).ready_paths(),
            },
    ;
}

/// Tests whether a segment is `**`.
fn is_recursive(segment: &str) -> (r: bool)
    ensures
        r == (segment@ == recursive_wildcard()),
{
    let chars: Vec<char> = chars_of(segment);
    let r: bool = chars.len() == 2 && chars[0] == '*' && chars[1] == '*';
    if r {
        assert(chars@ =~= recursive_wildcard());
    }
    r
}

impl PathPattern {
    #[verifier::type_invariant]
    spec fn inv(self) -> bool {
        &&& is_stars_of(self.stars@, texts(self.pattern@))
        &&& forall|i: int|
            0 <= i < self.ready@.len() ==> (#[trigger] self.ready@[i]).path@ == place_path(
                self.base@,
                self.ready@[i].rel@,
            ) && glob_matches(texts(self.pattern@), self.ready@[i].rel@)
        &&& forall|i: int|
            0 <= i < self.pending@.len() ==> (#[trigger] self.pending@[i]).ok(
                self.base@,
                texts(self.pattern@),
            )
        &&& self.current matches Some(cur) ==> cur.ok(self.base@, texts(self.pattern@))
    }

    /// How far the expansion has come.
    pub closed spec fn view(&self) -> Expansion {
        Expansion {
            base: self.base@,
            tail: texts(self.pattern@),
            found: Seq::new(self.ready@.len(), |i: int| self.ready@[i].place()),
            waiting: Seq::new(self.pending@.len(), |i: int| self.pending@[i].place()),
            current: match self.current {
                Some(cur) => Some(cur.place()),
                None => None,
            },
        }
    }

    /// Starts the walk of a pattern below a base.
    fn from_parts(base: String, pattern: Vec<String>) -> (r: Self)
        ensures
            r@ == start_of(base@, texts(pattern@)),
            sound(r@),
    {
        let mut stars: Vec<bool> = Vec::new();
        let mut i: usize = 0;
        while i < pattern.len()
            invariant
                i <= pattern@.len(),
                stars@.len() == i,
                forall|k: int|
                    0 <= k < i ==> #[trigger] stars@[k] == (texts(pattern@)[k]
                        == recursive_wildcard()),
            decreases pattern@.len() - i,
        {
            stars.push(is_recursive(pattern[i].as_str()));
            i += 1;
        }
        let mut ready: Vec<Found> = Vec::new();
        let mut pending: Vec<Frame> = Vec::new();
        let ghost tail = texts(pattern@);
        if pattern.len() == 0 {
            ready.push(Found { path: base.clone(), rel: Ghost(Seq::empty()) });
        } else {
            let reach: Vec<bool> = first_reach(&stars);
            proof {
                assert forall|k: int| 0 <= k <= tail.len() implies #[trigger] reach@[k]
                    == glob_matches(tail.take(k), Seq::empty()) by {
                    lemma_first_reach(stars@, tail, k);
                }
            }
            pending.push(Frame { dir: base.clone(), reach, rel: Ghost(Seq::empty()) });
        }
        let r = PathPattern { base, pattern, stars, ready, pending, current: None };
        proof {
            assert(r@.found =~= start_of(base@, tail).found);
            assert(r@.waiting =~= start_of(base@, tail).waiting);
        }
        r
    }

    /// Starts the walk of a pattern below a base path. The pattern is cut at
    /// its backslashes; an empty pattern stands for the base itself.
    pub fn with_base(base_path: String, pattern: String) -> (r: Self)
        ensures
            r@ == start_of(
                base_path@,
                if pattern@.len() == 0 {
                    Seq::empty()
                } else {
                    pieces(pattern@, '\\')
                },
            ),
            sound(r@),
    {
        let chars: Vec<char> = chars_of(pattern.as_str());
        let mut tail: Vec<String> = Vec::new();
        if chars.len() > 0 {
            let parts: Vec<Vec<char>> = split(chars.as_slice(), '\\');
            let mut i: usize = 0;
            while i < parts.len()
                invariant
                    i <= parts@.len(),
                    texts(tail@) == views(parts@).take(i as int),
                decreases parts@.len() - i,
            {
                let ghost before = texts(tail@);
                let piece: String = string_of(parts[i].as_slice());
                tail.push(piece);
                assert(texts(tail@) =~= before.push(piece@));
                assert(views(parts@).take(i + 1) =~= views(parts@).take(i as int).push(
                    parts@[i as int]@,
                ));
                i += 1;
            }
            assert(views(parts@).take(parts@.len() as int) =~= views(parts@));
        } else {
            assert(texts(tail@) =~= Seq::<Seq<char>>::empty());
        }
        PathPattern::from_parts(base_path, tail)
    }

    /// Starts the walk of a template: its segments before the first wildcard
    /// are the base, the others the pattern. A template without a wildcard
    /// stands for itself, whether or not such a file exists.
    pub fn new(pattern: String) -> (r: Self)
        ensures
            r@ == start_of_template(pattern@),
            sound(r@),
    {
        let chars: Vec<char> = chars_of(pattern.as_str());
        let parts: Vec<Vec<char>> = split(chars.as_slice(), '\\');
        let ghost segs = views(parts@);
        let mut pos: usize = 0;
        assert(segs.skip(0) =~= segs);
        while pos < parts.len() && !has_char(parts[pos].as_slice(), '*')
            invariant
                pos <= parts@.len(),
                segs == views(parts@),
                first_wild(segs) == pos + first_wild(segs.skip(pos as int)),
            decreases parts@.len() - pos,
        {
            assert(segs.skip(pos as int)[0] == segs[pos as int]);
            assert(segs.skip(pos as int).skip(1) =~= segs.skip(pos + 1));
            pos += 1;
        }
        proof {
            if pos < parts@.len() {
                assert(segs.skip(pos as int)[0] == segs[pos as int]);
            }
        }
        let base: Vec<char> = join(&parts, 0, pos, '\\');
        assert(segs.subrange(0, pos as int) =~= segs.take(pos as int));
        let mut tail: Vec<String> = Vec::new();
        let mut i: usize = pos;
        while i < parts.len()
            invariant
                pos <= i <= parts@.len(),
                segs == views(parts@),
                texts(tail@) == segs.subrange(pos as int, i as int),
            decreases parts@.len() - i,
        {
            let ghost before = texts(tail@);
            let piece: String = string_of(parts[i].as_slice());
            tail.push(piece);
            assert(texts(tail@) =~= before.push(piece@));
            assert(segs.subrange(pos as int, i + 1) =~= segs.subrange(pos as int, i as int).push(
                parts@[i as int]@,
            ));
            i += 1;
        }
        assert(segs.subrange(pos as int, segs.len() as int) =~= segs.skip(pos as int));
        PathPattern::from_parts(string_of(base.as_slice()), tail)
    }
}

impl PathPattern {
    /// Says of each segment of the pattern whether it takes the walk on over
    /// `name`: the segment is reached, is not `**`, and matches the name.
    fn segment_hits(&self, reach: &Vec<bool>, name: &str) -> (r: Vec<bool>)
        requires
            reach@.len() == self.pattern@.len() + 1,
        ensures
            r@.len() == self.pattern@.len(),
            forall|j: int|
                0 <= j < self.pattern@.len() ==> #[trigger] r@[j] == (reach@[j] && !self.stars@[j]
                    && segment_matches(texts(self.pattern@)[j], name@)),
    {
        proof {
            use_type_invariant(self);
        }
        let mut hits: Vec<bool> = Vec::new();
        let mut j: usize = 0;
        while j < self.pattern.len()
            invariant
                j <= self.pattern@.len(),
                reach@.len() == self.pattern@.len() + 1,
                self.stars@.len() == self.pattern@.len(),
                hits@.len() == j,
                forall|i: int|
                    0 <= i < j ==> #[trigger] hits@[i] == (reach@[i] && !self.stars@[i]
                        && segment_matches(texts(self.pattern@)[i], name@)),
            decreases self.pattern@.len() - j,
        {
            let hit: bool = if reach[j] && !self.stars[j] {
                let regex: String = replace_pattern(self.pattern[j].as_str());
                match regex_is_match(regex.as_str(), name) {
                    Some(found) => found,
                    None => false,
                }
            } else {
                false
            };
            hits.push(hit);
            j += 1;
        }
        hits
    }

    /// Tests whether a path below a directory with this reach can still match.
    fn goes_on(&self, reach: &Vec<bool>, rel: Ghost<Seq<Seq<char>>>) -> (r: bool)
        requires
            is_reach_of(reach@, texts(self.pattern@), rel@),
        ensures
            r == can_go_on(texts(self.pattern@), rel@),
    {
        proof {
            use_type_invariant(self);
        }
        let ghost tail = texts(self.pattern@);
        let n: usize = self.pattern.len();
        let mut k: usize = 0;
        while k < n
            invariant
                k <= n,
                n == tail.len(),
                tail == texts(self.pattern@),
                is_reach_of(reach@, tail, rel@),
                forall|i: int| 0 <= i < k ==> !#[trigger] glob_matches(tail.take(i), rel@),
            decreases n - k,
        {
            if reach[k] {
                assert(reach@[k as int] == glob_matches(tail.take(k as int), rel@));
                return true;
            }
            assert(reach@[k as int] == glob_matches(tail.take(k as int), rel@));
            k += 1;
        }
        if n > 0 && self.stars[n - 1] && reach[n] {
            assert(tail.take(n as int) =~= tail);
            assert(reach@[n as int] == glob_matches(tail.take(n as int), rel@));
            return true;
        }
        proof {
            assert(tail.take(n as int) =~= tail);
            assert(reach@[n as int] == glob_matches(tail.take(n as int), rel@));
        }
        false
    }

    /// Names the directory to list next, and makes it the one whose entries
    /// are offered. With no directory left, none is current any more.
    pub fn next_directory(&mut self) -> (r: Option<String>)
        ensures
            sound(final(self)@),
            final(self)@.base == old(self)@.base,
            final(self)@.tail == old(self)@.tail,
            final(self)@.found == old(self)@.found,
            match r {
                Some(dir) => old(self)@.waiting.len() > 0 && dir@ == old(self)@.waiting.last().dir
                    && final(self)@.waiting == old(self)@.waiting.drop_last()
                    && final(self)@.current == Some(old(self)@.waiting.last()),
                None => old(self)@.waiting.len() == 0
                    && final(self)@.waiting == old(self)@.waiting
                    && final(self)@.current.is_none(),
            },
    {
        proof {
            use_type_invariant(&*self);
        }
        let ghost before = self@;
        let mut pending: Vec<Frame> = Vec::new();
        std::mem::swap(&mut pending, &mut self.pending);
        let popped: Option<Frame> = pending.pop();
        self.pending = pending;
        match popped {
            Some(frame) => {
                let dir: String = frame.dir.clone();
                self.current = Some(frame);
                proof {
                    assert(self@.found =~= before.found);
                    assert(self@.waiting =~= before.waiting.drop_last());
                    use_type_invariant(&*self);
                }
                Some(dir)
            },
            None => {
                self.current = None;
                proof {
                    assert(self@.found =~= before.found);
                    assert(self@.waiting =~= before.waiting);
                    use_type_invariant(&*self);
                }
                None
            },
        }
    }

    /// Offers one entry of the directory that is being listed.
    pub fn offer(&mut self, name: &str, kind: EntryKind)
        ensures
            final(self)@ == offered(old(self)@, name@, kind),
            sound(final(self)@),
    {
        proof {
            use_type_invariant(&*self);
        }
        let ghost before = self@;
        let name_chars: Vec<char> = chars_of(name);
        if name_chars.len() == 0 || kind == EntryKind::Other || self.current.is_none() {
            proof {
                assert(self@ == offered(before, name@, kind));
            }
            return ;
        }
        let ghost tail = texts(self.pattern@);
        let (path, reach, rel) = match &self.current {
            Some(cur) => {
                let hits: Vec<bool> = self.segment_hits(&cur.reach, name);
                let reach: Vec<bool> = next_reach(&self.stars, &cur.reach, &hits);
                let ghost rel = cur.rel@.push(name@);
                proof {
                    assert forall|k: int| 0 <= k <= tail.len() implies #[trigger] reach@[k]
                        == glob_matches(tail.take(k), rel) by {
                        lemma_next_reach(self.stars@, tail, cur.reach@, hits@, cur.rel@, name@, k);
                    }
                    assert(rel.drop_last() =~= cur.rel@);
                }
                let mut path: Vec<char> = chars_of(cur.dir.as_str());
                path.push('\\');
                append(&mut path, name_chars.as_slice());
                (string_of(path.as_slice()), reach, Ghost(rel))
            },
            None => {
                return ;
            },
        };
        let n: usize = self.pattern.len();
        proof {
            assert(tail.take(n as int) =~= tail);
            assert(reach@[n as int] == glob_matches(tail.take(n as int), rel@));
        }
        if kind == EntryKind::File {
            if reach[n] {
                let mut ready: Vec<Found> = Vec::new();
                std::mem::swap(&mut ready, &mut self.ready);
                ready.push(Found { path, rel });
                self.ready = ready;
                proof {
                    assert(self@.found =~= offered(before, name@, kind).found);
                    assert(self@.waiting =~= before.waiting);
                }
            } else {
                proof {
                    assert(self@.found =~= before.found);
                    assert(self@.waiting =~= before.waiting);
                }
            }
        } else {
            if self.goes_on(&reach, rel) {
                let mut pending: Vec<Frame> = Vec::new();
                std::mem::swap(&mut pending, &mut self.pending);
                pending.push(Frame { dir: path, reach, rel });
                self.pending = pending;
                proof {
                    assert(self@.waiting =~= offered(before, name@, kind).waiting);
                    assert(self@.found =~= before.found);
                }
            } else {
                proof {
                    assert(self@.found =~= before.found);
                    assert(self@.waiting =~= before.waiting);
                }
            }
        }
        proof {
            use_type_invariant(&*self);
        }
    }
}

impl PathPatternIterator for PathPattern {
    closed spec fn ready_paths(&self) -> Seq<Seq<char>> {
        Seq::new(self.ready@.len(), |i: int| self.ready@[i].path@)
    }

    fn next_path(&mut self) -> (r: Option<String>)
        ensures
            sound(final(self)@),
            final(self)@.base == old(self)@.base,
            final(self)@.tail == old(self)@.tail,
            final(self)@.waiting == old(self)@.waiting,
            final(self)@.current == old(self)@.current,
            r is Some ==> r->Some_0@ == old(self)@.found[0].dir
                && final(self)@.found == old(self)@.found.skip(1),
            r is None ==> final(self)@.found == old(self)@.found,
    {
        proof {
            use_type_invariant(&*self);
        }
        let ghost view_before = self@;
        if self.ready.len() == 0 {
            return None;
        }
        let ghost before = self.ready_paths();
        let mut ready: Vec<Found> = Vec::new();
        std::mem::swap(&mut ready, &mut self.ready);
        let found: Found = ready.remove(0);
        self.ready = ready;
        proof {
            assert(self.ready_paths() =~= before.skip(1));
            assert(self@.found =~= view_before.found.skip(1));
            assert(self@.waiting =~= view_before.waiting);
            use_type_invariant(&*self);
        }
        Some(found.path)
    }
}

/// The paths that wait to be handed out are those of the files that were
/// found.
pub proof fn lemma_ready_paths(p: PathPattern)
    ensures
        p.ready_paths().len() == p@.found.len(),
        forall|i: int| 0 <= i < p@.found.len() ==> #[trigger] p.ready_paths()[i] == p@.found[i].dir,
{
}

/// The order in which the entries of a directory come does not change what
/// is found: two entries offered in either order leave the same files found
/// and the same directories waiting, up to their order.
pub proof fn lemma_offer_order(
    v: Expansion,
    name_a: Seq<char>,
    kind_a: EntryKind,
    name_b: Seq<char>,
    kind_b: EntryKind,
)
    ensures
        offered(offered(v, name_a, kind_a), name_b, kind_b).found.to_multiset() =~= offered(
            offered(v, name_b, kind_b),
            name_a,
            kind_a,
        ).found.to_multiset(),
        offered(offered(v, name_a, kind_a), name_b, kind_b).waiting.to_multiset() =~= offered(
            offered(v, name_b, kind_b),
            name_a,
            kind_a,
        ).waiting.to_multiset(),
        offered(offered(v, name_a, kind_a), name_b, kind_b).current == v.current,
{
    broadcast use vstd::seq_lib::group_to_multiset_ensures;

}

/// Every file that is found lies below the base: its path is the base where
/// no segment leads to it, and else begins with the base and a backslash.
pub proof fn lemma_found_below_base(base: Seq<char>, rel: Seq<Seq<char>>)
    ensures
        rel.len() == 0 ==> place_path(base, rel) == base,
        rel.len() > 0 ==> base.push('\\').is_prefix_of(place_path(base, rel)),
    decreases rel.len(),
{
    if rel.len() > 0 {
        lemma_found_below_base(base, rel.drop_last());
        let shorter = place_path(base, rel.drop_last());
        let longer = place_path(base, rel);
        assert(longer == shorter.push('\\') + rel.last());
        if rel.len() == 1 {
            assert(longer.subrange(0, base.push('\\').len() as int) =~= base.push('\\'));
        } else {
            assert(longer.subrange(0, base.push('\\').len() as int) =~= shorter.subrange(
                0,
                base.push('\\').len() as int,
            ));
        }
    }
}

/// One entry of a directory: its name and what it is.
pub struct Entry {
    pub name: Seq<char>,
    pub kind: EntryKind,
}

/// The expansion after the entries of the current directory were offered,
/// one after the other.
pub open spec fn offered_all(v: Expansion, entries: Seq<Entry>) -> Expansion
    decreases entries.len(),
{
    if entries.len() == 0 {
        v
    } else {
        offered(offered_all(v, entries.drop_last()), entries.last().name, entries.last().kind)
    }
}

/// Whether `p` is the place of an entry of the current directory.
pub open spec fn lies_in_current(v: Expansion, p: Place) -> bool {
    match v.current {
        None => false,
        Some(cur) => p.rel.len() > 0 && p.rel.last().len() > 0 && p.rel == cur.rel.push(
            p.rel.last(),
        ) && p.dir == cur.dir.push('\\') + p.rel.last(),
    }
}

/// How often the entries of the current directory make `p` a file that is
/// found: as often as they hold a file of its name, where the pattern
/// matches its path.
pub open spec fn times_found(v: Expansion, entries: Multiset<Entry>, p: Place) -> nat {
    if lies_in_current(v, p) && glob_matches(v.tail, p.rel) {
        entries.count(Entry { name: p.rel.last(), kind: EntryKind::File })
    } else {
        0
    }
}

/// How often the entries of the current directory make `p` a directory that
/// waits to be listed: as often as they hold a directory of its name, where
/// a path below it can still match.
pub open spec fn times_waiting(v: Expansion, entries: Multiset<Entry>, p: Place) -> nat {
    if lies_in_current(v, p) && can_go_on(v.tail, p.rel) {
        entries.count(Entry { name: p.rel.last(), kind: EntryKind::Directory })
    } else {
        0
    }
}

/// What the listing of a directory adds does not depend on the order of its
/// entries. After all entries were offered, a place is found, or waits, as
/// often as before and as often again as the entries make it so: a number
/// that is the same for every order in which the entries come.
pub proof fn lemma_listing_counts(v: Expansion, entries: Seq<Entry>, p: Place)
    ensures
        offered_all(v, entries).base == v.base,
        offered_all(v, entries).tail == v.tail,
        offered_all(v, entries).current == v.current,
        offered_all(v, entries).found.to_multiset().count(p) == v.found.to_multiset().count(p)
            + times_found(v, entries.to_multiset(), p),
        offered_all(v, entries).waiting.to_multiset().count(p) == v.waiting.to_multiset().count(p)
            + times_waiting(v, entries.to_multiset(), p),
    decreases entries.len(),
{
    broadcast use vstd::seq_lib::group_to_multiset_ensures;

    if entries.len() == 0 {
        assert(entries.to_multiset().count(Entry { name: p.rel.last(), kind: EntryKind::File })
            == 0);
        assert(entries.to_multiset().count(
            Entry { name: p.rel.last(), kind: EntryKind::Directory },
        ) == 0);
    } else {
        let shorter = entries.drop_last();
        let e = entries.last();
        let before = offered_all(v, shorter);
        lemma_listing_counts(v, shorter, p);
        assert(entries =~= shorter.push(e));
        assert(entries.to_multiset() =~= shorter.to_multiset().insert(e));
        match v.current {
            None => {},
            Some(cur) => {
                let here = Place { dir: cur.dir.push('\\') + e.name, rel: cur.rel.push(e.name) };
                assert(here.rel.last() == e.name);
                if here == p {
                    assert(p.rel.last() == e.name);
                }
                if lies_in_current(v, p) && p.rel.last() == e.name {
                    assert(here.rel =~= p.rel);
                    assert(here.dir =~= p.dir);
                }
            },
        }
    }
}

/// The order in which the entries of a directory come does not change what
/// is found. Two listings of the current directory that hold the same
/// entries, in whatever order, leave the same files found and the same
/// directories waiting, up to their order.
pub proof fn lemma_listing_order(v: Expansion, a: Seq<Entry>, b: Seq<Entry>)
    requires
        a.to_multiset() == b.to_multiset(),
    ensures
        offered_all(v, a).found.to_multiset() == offered_all(v, b).found.to_multiset(),
        offered_all(v, a).waiting.to_multiset() == offered_all(v, b).waiting.to_multiset(),
        offered_all(v, a).current == offered_all(v, b).current,
        offered_all(v, a).tail == offered_all(v, b).tail,
        offered_all(v, a).base == offered_all(v, b).base,
{
    let x = offered_all(v, a);
    let y = offered_all(v, b);
    assert forall|p: Place|
        x.found.to_multiset().count(p) == y.found.to_multiset().count(p)
            && x.waiting.to_multiset().count(p) == y.waiting.to_multiset().count(p) by {
        lemma_listing_counts(v, a, p);
        lemma_listing_counts(v, b, p);
    }
    assert(x.found.to_multiset() =~= y.found.to_multiset());
    assert(x.waiting.to_multiset() =~= y.waiting.to_multiset());
    lemma_listing_counts(v, a, arbitrary());
    lemma_listing_counts(v, b, arbitrary());
}

} // verus!
