//! Finding the mathematics in a document.
//!
//! A region of inline mathematics is written `\(` body `\)`, a region of
//! display mathematics `\[` body `\]`. A body is not empty and ends at the
//! first closing marker behind its first character; an inline body holds no
//! line feed. The document is read once from left to right, and the regions
//! do not overlap: the search for the next one goes on behind the last.

use crate::text::chars_of;
use vstd::prelude::*;
use vstd::string::*;

verus! {

/// The two ways mathematics is set: within a line, or as a block of its own.
#[derive(Clone, Copy, Debug, PartialEq, Eq, Structural)]
pub enum SegmentKind {
    Inline,
    Display,
}

/// A region of mathematics in a document: the characters from `start` up to
/// `end`, both markers included. The body lies two characters inside on
/// either side.
#[derive(Clone, Copy, Debug, PartialEq, Eq, Structural)]
pub struct MathSegment {
    pub kind: SegmentKind,
    pub start: usize,
    pub end: usize,
}

/// A region as contracts speak of it, with mathematical integers.
pub struct Span {
    pub kind: SegmentKind,
    pub start: int,
    pub end: int,
}

impl View for MathSegment {
    type V = Span;

    open spec fn view(&self) -> Span {
        Span { kind: self.kind, start: self.start as int, end: self.end as int }
    }
}

/// The second character of the marker that opens a region of `kind`.
pub open spec fn opener(kind: SegmentKind) -> char {
    match kind {
        SegmentKind::Inline => '(',
        SegmentKind::Display => '[',
    }
}

/// The second character of the marker that closes a region of `kind`.
pub open spec fn closer(kind: SegmentKind) -> char {
    match kind {
        SegmentKind::Inline => ')',
        SegmentKind::Display => ']',
    }
}

/// The opening marker of `kind` stands at `p`.
pub open spec fn opens_at(s: Seq<char>, kind: SegmentKind, p: int) -> bool {
    0 <= p && p + 1 < s.len() && s[p] == '\\' && s[p + 1] == opener(kind)
}

/// The closing marker of `kind` stands at `c`.
pub open spec fn closes_at(s: Seq<char>, kind: SegmentKind, c: int) -> bool {
    0 <= c && c + 1 < s.len() && s[c] == '\\' && s[c + 1] == closer(kind)
}

/// A body of `kind` may hold `c`: any character in display mathematics, any
/// but the line feed in inline mathematics.
pub open spec fn admits(kind: SegmentKind, c: char) -> bool {
    kind == SegmentKind::Display || c != '\n'
}

/// A region of `kind` spans `start..end`: it opens at `start`, its body has
/// at least one character, the closing marker that ends at `end` is the first
/// one behind the body's first character, and the body holds only characters
/// that the kind admits.
pub open spec fn segment_at(s: Seq<char>, kind: SegmentKind, start: int, end: int) -> bool {
    &&& opens_at(s, kind, start)
    &&& start + 3 <= end - 2
    &&& closes_at(s, kind, end - 2)
    &&& forall|c: int| start + 3 <= c < end - 2 ==> !closes_at(s, kind, c)
    &&& forall|i: int| start + 2 <= i < end - 2 ==> admits(kind, #[trigger] s[i])
}

/// The first closing marker of `kind` at or behind `c` that only admitted
/// characters lie in front of, if there is one.
pub open spec fn close_from(s: Seq<char>, kind: SegmentKind, c: int) -> Option<int>
    decreases s.len() - c,
{
    if c < 0 || c + 1 >= s.len() {
        None
    } else if closes_at(s, kind, c) {
        Some(c)
    } else if !admits(kind, s[c]) {
        None
    } else {
        close_from(s, kind, c + 1)
    }
}

/// The end of the region of `kind` that starts at `p`, if one does.
pub open spec fn match_at(s: Seq<char>, kind: SegmentKind, p: int) -> Option<int> {
    if opens_at(s, kind, p) && p + 2 < s.len() && admits(kind, s[p + 2]) {
        match close_from(s, kind, p + 3) {
            Some(c) => Some(c + 2),
            None => None,
        }
    } else {
        None
    }
}

/// The region that starts at `p`, if one does. Inline mathematics is tried
/// first.
pub open spec fn segment_starting(s: Seq<char>, p: int) -> Option<Span> {
    match match_at(s, SegmentKind::Inline, p) {
        Some(end) => Some(Span { kind: SegmentKind::Inline, start: p, end }),
        None => match match_at(s, SegmentKind::Display, p) {
            Some(end) => Some(Span { kind: SegmentKind::Display, start: p, end }),
            None => None,
        },
    }
}

/// The first region that starts at or behind `from`, if there is one.
pub open spec fn first_segment(s: Seq<char>, from: int) -> Option<Span>
    decreases s.len() - from,
{
    if from < 0 || from >= s.len() {
        None
    } else {
        match segment_starting(s, from) {
            Some(seg) => Some(seg),
            None => first_segment(s, from + 1),
        }
    }
}

/// The regions found from `from` on, each sought behind the one before it.
/// A region that is found ends behind `from` and within the document, as
/// `lemma_first_segment` shows; the comparison is there for the recursion to
/// be seen to end.
pub open spec fn segments_from(s: Seq<char>, from: int) -> Seq<Span>
    decreases s.len() - from,
{
    match first_segment(s, from) {
        Some(seg) => if from < seg.end <= s.len() {
            seq![seg] + segments_from(s, seg.end)
        } else {
            Seq::empty()
        },
        None => Seq::empty(),
    }
}

/// The regions of mathematics in `s`, in the order in which they stand.
pub open spec fn segments(s: Seq<char>) -> Seq<Span> {
    segments_from(s, 0)
}

/// The body of `seg` in `s`: what stands between its two markers.
pub open spec fn body_of(s: Seq<char>, seg: Span) -> Seq<char> {
    s.subrange(seg.start + 2, seg.end - 2)
}

/// What `close_from` finds is the first closing marker from `c` on, and all
/// in front of it is admitted; where it finds nothing, no closing marker can
/// end a body that starts at or before `c`.
pub proof fn lemma_close_from(s: Seq<char>, kind: SegmentKind, c: int)
    requires
        0 <= c,
    ensures
        match close_from(s, kind, c) {
            Some(e) => {
                &&& c <= e
                &&& closes_at(s, kind, e)
                &&& forall|k: int| c <= k < e ==> !closes_at(s, kind, k)
                &&& forall|k: int| c <= k < e ==> admits(kind, #[trigger] s[k])
            },
            None => forall|e: int|
                c <= e && #[trigger] closes_at(s, kind, e) ==> exists|k: int|
                    c <= k < e && (closes_at(s, kind, k) || !admits(kind, #[trigger] s[k])),
        },
    decreases s.len() - c,
{
    if c + 1 >= s.len() {
    } else if closes_at(s, kind, c) {
    } else if !admits(kind, s[c]) {
        assert forall|e: int| c <= e && #[trigger] closes_at(s, kind, e) implies exists|k: int|
            c <= k < e && (closes_at(s, kind, k) || !admits(kind, #[trigger] s[k])) by {
            assert(c < e);
            assert(!admits(kind, s[c]));
        }
    } else {
        lemma_close_from(s, kind, c + 1);
        match close_from(s, kind, c + 1) {
            Some(e) => {},
            None => {
                assert forall|e: int| c <= e && #[trigger] closes_at(s, kind, e) implies exists|
                    k: int,
                | c <= k < e && (closes_at(s, kind, k) || !admits(kind, #[trigger] s[k])) by {
                    assert(c + 1 <= e);
                    let k = choose|k: int|
                        c + 1 <= k < e && (closes_at(s, kind, k) || !admits(kind, #[trigger] s[k]));
                    assert(c <= k < e);
                }
            },
        }
    }
}

/// `match_at` finds exactly the regions that `segment_at` describes.
pub proof fn lemma_match_at(s: Seq<char>, kind: SegmentKind, p: int, end: int)
    ensures
        match_at(s, kind, p) == Some(end) <==> segment_at(s, kind, p, end),
{
    if opens_at(s, kind, p) && p + 2 < s.len() {
        lemma_close_from(s, kind, p + 3);
        if segment_at(s, kind, p, end) {
            assert(admits(kind, s[p + 2]));
            match close_from(s, kind, p + 3) {
                Some(c) => {
                    if c < end - 2 {
                        assert(!closes_at(s, kind, c));
                    }
                    if c > end - 2 {
                        assert(!closes_at(s, kind, end - 2));
                    }
                },
                None => {
                    assert(closes_at(s, kind, end - 2));
                    let k = choose|k: int|
                        p + 3 <= k < end - 2 && (closes_at(s, kind, k) || !admits(
                            kind,
                            #[trigger] s[k],
                        ));
                    assert(false);
                },
            }
        }
        if match_at(s, kind, p) == Some(end) {
            assert(segment_at(s, kind, p, end));
        }
    }
}

/// The region that `first_segment` finds starts at or behind `from`, is one
/// that `segment_at` describes, lies within the document, and no region
/// starts between `from` and it. Where it finds none, none starts from `from`
/// on.
pub proof fn lemma_first_segment(s: Seq<char>, from: int)
    requires
        0 <= from,
    ensures
        match first_segment(s, from) {
            Some(seg) => {
                &&& from <= seg.start < seg.end <= s.len()
                &&& segment_at(s, seg.kind, seg.start, seg.end)
                &&& forall|p: int| from <= p < seg.start ==> segment_starting(s, p).is_none()
            },
            None => forall|p: int| from <= p ==> segment_starting(s, p).is_none(),
        },
    decreases s.len() - from,
{
    if from >= s.len() {
    } else {
        match segment_starting(s, from) {
            Some(seg) => {
                lemma_match_at(s, seg.kind, from, seg.end);
            },
            None => {
                lemma_first_segment(s, from + 1);
            },
        }
    }
}

/// Where the search for region `i` of a scan from `from` starts: at `from`
/// for the first region, behind the region before it for the others. For `i`
/// the number of regions, where the search that finds no more starts.
pub open spec fn search_start(segs: Seq<Span>, from: int, i: int) -> int {
    if i <= 0 {
        from
    } else {
        segs[i - 1].end
    }
}

/// What a scan from `from` finds: regions that `segment_at` describes, one
/// behind the other within the document, with no start of a region left out
/// between them or behind the last.
pub open spec fn scanned(s: Seq<char>, from: int, segs: Seq<Span>) -> bool {
    &&& forall|i: int|
        0 <= i < segs.len() ==> {
            &&& search_start(segs, from, i) <= (#[trigger] segs[i]).start
            &&& segs[i].start + 5 <= segs[i].end <= s.len()
            &&& segment_at(s, segs[i].kind, segs[i].start, segs[i].end)
        }
    &&& forall|i: int, p: int|
        0 <= i < segs.len() && search_start(segs, from, i) <= p < (#[trigger] segs[i]).start
            ==> (#[trigger] segment_starting(s, p)).is_none()
    &&& forall|p: int|
        search_start(segs, from, segs.len() as int) <= p ==> (#[trigger] segment_starting(
            s,
            p,
        )).is_none()
}

/// The regions that `segments_from` lists are those of a scan from `from`.
pub proof fn lemma_segments_from(s: Seq<char>, from: int)
    requires
        0 <= from,
    ensures
        scanned(s, from, segments_from(s, from)),
    decreases s.len() - from,
{
    let segs = segments_from(s, from);
    lemma_first_segment(s, from);
    match first_segment(s, from) {
        Some(seg) => {
            let rest = segments_from(s, seg.end);
            lemma_segments_from(s, seg.end);
            assert(segs == seq![seg] + rest);
            assert forall|i: int| 0 <= i < segs.len() implies {
                &&& search_start(segs, from, i) <= (#[trigger] segs[i]).start
                &&& segs[i].start + 5 <= segs[i].end <= s.len()
                &&& segment_at(s, segs[i].kind, segs[i].start, segs[i].end)
            } by {
                if i > 0 {
                    assert(segs[i] == rest[i - 1]);
                    assert(search_start(segs, from, i) == search_start(rest, seg.end, i - 1));
                }
            }
            assert forall|i: int, p: int|
                0 <= i < segs.len() && search_start(segs, from, i) <= p < (#[trigger] segs[i]).start
                implies (#[trigger] segment_starting(s, p)).is_none() by {
                if i > 0 {
                    assert(segs[i] == rest[i - 1]);
                    assert(search_start(segs, from, i) == search_start(rest, seg.end, i - 1));
                }
            }
            assert forall|p: int| search_start(segs, from, segs.len() as int) <= p implies (
            #[trigger] segment_starting(s, p)).is_none() by {
                assert(search_start(segs, from, segs.len() as int) == search_start(
                    rest,
                    seg.end,
                    rest.len() as int,
                ));
            }
        },
        None => {},
    }
}

/// The regions of a document are those of a scan from its start.
pub proof fn lemma_segments(s: Seq<char>)
    ensures
        scanned(s, 0, segments(s)),
{
    lemma_segments_from(s, 0);
}

/// The closing marker of `kind` stands at `c`.
fn is_close(chars: &Vec<char>, kind: SegmentKind, c: usize) -> (b: bool)
    ensures
        b == closes_at(chars@, kind, c as int),
{
    let n: usize = chars.len();
    if c >= n || n - c < 2 {
        return false;
    }
    let second: char = match kind {
        SegmentKind::Inline => ')',
        SegmentKind::Display => ']',
    };
    chars[c] == '\\' && chars[c + 1] == second
}

/// The opening marker of `kind` stands at `p`.
fn is_open(chars: &Vec<char>, kind: SegmentKind, p: usize) -> (b: bool)
    ensures
        b == opens_at(chars@, kind, p as int),
{
    let n: usize = chars.len();
    if p >= n || n - p < 2 {
        return false;
    }
    let second: char = match kind {
        SegmentKind::Inline => '(',
        SegmentKind::Display => '[',
    };
    chars[p] == '\\' && chars[p + 1] == second
}

/// A body of `kind` may hold `c`.
fn is_admitted(kind: SegmentKind, c: char) -> (b: bool)
    ensures
        b == admits(kind, c),
{
    match kind {
        SegmentKind::Inline => c != '\n',
        SegmentKind::Display => true,
    }
}

/// The end of the region of `kind` that starts at `p`, if one does.
fn find_match(chars: &Vec<char>, kind: SegmentKind, p: usize) -> (r: Option<usize>)
    ensures
        match r {
            Some(end) => match_at(chars@, kind, p as int) == Some(end as int),
            None => match_at(chars@, kind, p as int).is_none(),
        },
{
    let n: usize = chars.len();
    if !is_open(chars, kind, p) || n - p < 3 || !is_admitted(kind, chars[p + 2]) {
        return None;
    }
    let mut c: usize = p + 3;
    while c < n && n - c >= 2
        invariant
            n == chars@.len(),
            p + 3 <= c <= n,
            opens_at(chars@, kind, p as int),
            admits(kind, chars@[p + 2]),
            close_from(chars@, kind, c as int) == close_from(chars@, kind, p + 3),
        decreases n - c,
    {
        if is_close(chars, kind, c) {
            return Some(c + 2);
        }
        if !is_admitted(kind, chars[c]) {
            return None;
        }
        c += 1;
    }
    None
}

/// The first region of mathematics that starts at or behind `from`.
pub fn next_segment(chars: &Vec<char>, from: usize) -> (r: Option<MathSegment>)
    ensures
        match r {
            Some(seg) => first_segment(chars@, from as int) == Some(seg@),
            None => first_segment(chars@, from as int).is_none(),
        },
{
    let n: usize = chars.len();
    let mut p: usize = from;
    while p < n
        invariant
            n == chars@.len(),
            from <= p,
            first_segment(chars@, p as int) == first_segment(chars@, from as int),
        decreases n - p,
    {
        match find_match(chars, SegmentKind::Inline, p) {
            Some(end) => {
                return Some(MathSegment { kind: SegmentKind::Inline, start: p, end });
            },
            None => {},
        }
        match find_match(chars, SegmentKind::Display, p) {
            Some(end) => {
                return Some(MathSegment { kind: SegmentKind::Display, start: p, end });
            },
            None => {},
        }
        p += 1;
    }
    None
}

/// The views of the regions in `v`.
pub open spec fn spans(v: Seq<MathSegment>) -> Seq<Span> {
    v.map_values(|seg: MathSegment| seg@)
}

/// The regions of mathematics among `chars`, in the order in which they
/// stand.
pub fn scan_chars(chars: &Vec<char>) -> (found: Vec<MathSegment>)
    ensures
        spans(found@) == segments(chars@),
        scanned(chars@, 0, spans(found@)),
{
    let mut found: Vec<MathSegment> = Vec::new();
    let mut from: usize = 0;
    loop
        invariant
            from <= chars@.len(),
            segments(chars@) == spans(found@) + segments_from(chars@, from as int),
        decreases chars@.len() - from,
    {
        proof {
            lemma_first_segment(chars@, from as int);
        }
        match next_segment(chars, from) {
            Some(seg) => {
                proof {
                    let before = spans(found@);
                    let after = spans(found@.push(seg));
                    assert(after == before + seq![seg@]);
                    assert(before + (seq![seg@] + segments_from(chars@, seg.end as int)) == after
                        + segments_from(chars@, seg.end as int));
                }
                found.push(seg);
                from = seg.end;
            },
            None => {
                proof {
                    assert(spans(found@) + Seq::<Span>::empty() == spans(found@));
                    lemma_segments(chars@);
                }
                return found;
            },
        }
    }
}

/// The body of the region `seg` of `text`: what stands between its two
/// markers.
pub fn body<'a>(text: &'a str, seg: &MathSegment) -> (r: &'a str)
    requires
        seg@.start + 4 <= seg@.end <= text@.len(),
    ensures
        r@ == body_of(text@, seg@),
{
    text.substring_char(seg.start + 2, seg.end - 2)
}

/// The regions of mathematics in `text`, in the order in which they stand.
/// Positions count characters.
pub fn scan(text: &str) -> (found: Vec<MathSegment>)
    ensures
        spans(found@) == segments(text@),
        scanned(text@, 0, spans(found@)),
{
    let chars = chars_of(text);
    scan_chars(&chars)
}

} // verus!
