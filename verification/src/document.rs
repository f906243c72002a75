//! Putting a document together again: the text outside the mathematics as it
//! stood, and each region of mathematics replaced by its conversion between
//! dollar signs.

use crate::scanner::{
    lemma_segments, search_start, segments, spans, MathSegment, SegmentKind, Span,
};
use vstd::prelude::*;
use vstd::string::*;

verus! {

/// A converted formula between the dollar signs of its kind: on the line for
/// inline mathematics, on a line of its own for display mathematics.
pub open spec fn wrapped(kind: SegmentKind, converted: Seq<char>) -> Seq<char> {
    match kind {
        SegmentKind::Inline => seq!['$'] + converted + seq!['$'],
        SegmentKind::Display => seq!['$', '\n'] + converted + seq!['\n', '$'],
    }
}

/// Where the text in front of region `i` starts: at the end of the region
/// before it, or at the start of the document. For `i` the number of regions,
/// where the text behind the last region starts.
pub open spec fn gap_start(segs: Seq<Span>, i: int) -> int {
    search_start(segs, 0, i)
}

/// The regions stand in `s` one behind the other, each with room for its two
/// markers.
pub open spec fn in_order(s: Seq<char>, segs: Seq<Span>) -> bool {
    forall|i: int|
        0 <= i < segs.len() ==> gap_start(segs, i) <= (#[trigger] segs[i]).start && segs[i].start
            + 4 <= segs[i].end <= s.len()
}

/// The regions of a document stand in it one behind the other.
pub proof fn lemma_segments_in_order(s: Seq<char>)
    ensures
        in_order(s, segments(s)),
{
    lemma_segments(s);
}

/// The output as far as the replacement of region `n - 1`: for each of the
/// first `n` regions the text in front of it, untouched, and then its wrapped
/// conversion.
pub open spec fn assembled_prefix(
    s: Seq<char>,
    segs: Seq<Span>,
    outs: Seq<Seq<char>>,
    n: nat,
) -> Seq<char>
    decreases n,
{
    if n == 0 {
        Seq::empty()
    } else {
        let i = n - 1;
        assembled_prefix(s, segs, outs, i as nat) + s.subrange(gap_start(segs, i), segs[i].start)
            + wrapped(segs[i].kind, outs[i])
    }
}

/// The whole output: every region replaced by its wrapped conversion, and
/// the text in front of, between and behind the regions untouched.
pub open spec fn assembled(s: Seq<char>, segs: Seq<Span>, outs: Seq<Seq<char>>) -> Seq<char> {
    assembled_prefix(s, segs, outs, segs.len()) + s.subrange(
        gap_start(segs, segs.len() as int),
        s.len() as int,
    )
}

/// The texts in `v`, as contracts speak of them.
pub open spec fn texts(v: Seq<String>) -> Seq<Seq<char>> {
    v.map_values(|t: String| t@)
}

/// Appends to `out` the converted formula between the dollar signs of its
/// kind.
pub fn push_wrapped(out: &mut String, kind: SegmentKind, converted: &str)
    ensures
        final(out)@ == old(out)@ + wrapped(kind, converted@),
{
    proof {
        reveal_strlit("$");
        reveal_strlit("$\n");
        reveal_strlit("\n$");
    }
    let ghost before = out@;
    match kind {
        SegmentKind::Inline => {
            out.append("$");
            out.append(converted);
            out.append("$");
            assert("$"@ == seq!['$']);
            assert(out@ == before + (seq!['$'] + converted@ + seq!['$']));
        },
        SegmentKind::Display => {
            out.append("$\n");
            out.append(converted);
            out.append("\n$");
            assert("$\n"@ == seq!['$', '\n']);
            assert("\n$"@ == seq!['\n', '$']);
            assert(out@ == before + (seq!['$', '\n'] + converted@ + seq!['\n', '$']));
        },
    }
}

/// Puts the document together: `text` with each region of `segments`
/// replaced by the conversion that stands at its place in `converted`.
pub fn assemble(text: &str, segments: &Vec<MathSegment>, converted: &Vec<String>) -> (out: String)
    requires
        in_order(text@, spans(segments@)),
        converted@.len() == segments@.len(),
    ensures
        out@ == assembled(text@, spans(segments@), texts(converted@)),
{
    let ghost s = text@;
    let ghost segs = spans(segments@);
    let ghost outs = texts(converted@);
    let total: usize = text.unicode_len();
    let mut out = String::new();
    let mut last: usize = 0;
    let mut i: usize = 0;
    while i < segments.len()
        invariant
            s == text@,
            segs == spans(segments@),
            outs == texts(converted@),
            in_order(s, segs),
            converted@.len() == segments@.len(),
            total == s.len(),
            i <= segments@.len(),
            last == gap_start(segs, i as int),
            last <= total,
            out@ == assembled_prefix(s, segs, outs, i as nat),
        decreases segments@.len() - i,
    {
        let seg = segments[i];
        assert(segs[i as int] == seg@);
        assert(outs[i as int] == converted@[i as int]@);
        out.append(text.substring_char(last, seg.start));
        push_wrapped(&mut out, seg.kind, converted[i].as_str());
        last = seg.end;
        i += 1;
    }
    out.append(text.substring_char(last, total));
    out
}

} // verus!
