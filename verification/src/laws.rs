//! What holds of every document and every set of macros.

use crate::document::{assembled, assembled_prefix, gap_start, wrapped};
use crate::pipeline::{math_outcome, Stage};
use crate::scanner::{
    admits, body_of, closer, closes_at, first_segment, lemma_first_segment, lemma_match_at,
    lemma_segments, match_at, opener, opens_at, scanned, search_start, segment_at,
    segment_starting, segments, segments_from, SegmentKind, Span,
};
use crate::text::trimmed;
use crate::worker::{conversions, document_outcome, formula, lemma_conversions_stop};
use tex2typst_rs::command_registry::CustomMacro;
use vstd::prelude::*;

verus! {

/// A region that `segment_at` describes is the one that the scanner finds at
/// its start.
pub proof fn lemma_segment_found(s: Seq<char>, kind: SegmentKind, start: int, end: int)
    requires
        segment_at(s, kind, start, end),
    ensures
        segment_starting(s, start) == Some(Span { kind, start, end }),
{
    lemma_match_at(s, kind, start, end);
    if kind == SegmentKind::Display {
        assert(match_at(s, SegmentKind::Inline, start).is_none());
    }
}

/// What a scan finds behind its first region is what a scan from the end of
/// that region finds.
proof fn lemma_scanned_rest(s: Seq<char>, from: int, segs: Seq<Span>)
    requires
        scanned(s, from, segs),
        segs.len() > 0,
    ensures
        scanned(s, segs[0].end, segs.skip(1)),
{
    let head = segs[0];
    let rest = segs.skip(1);
    assert forall|i: int| 0 <= i < rest.len() implies {
        &&& search_start(rest, head.end, i) <= (#[trigger] rest[i]).start
        &&& rest[i].start + 5 <= rest[i].end <= s.len()
        &&& segment_at(s, rest[i].kind, rest[i].start, rest[i].end)
    } by {
        assert(rest[i] == segs[i + 1]);
        assert(search_start(rest, head.end, i) == search_start(segs, from, i + 1));
    }
    assert forall|i: int, p: int|
        0 <= i < rest.len() && search_start(rest, head.end, i) <= p < (#[trigger] rest[i]).start
        implies (#[trigger] segment_starting(s, p)).is_none() by {
        assert(rest[i] == segs[i + 1]);
        assert(search_start(rest, head.end, i) == search_start(segs, from, i + 1));
    }
    assert forall|p: int| search_start(rest, head.end, rest.len() as int) <= p implies (
    #[trigger] segment_starting(s, p)).is_none() by {
        assert(search_start(rest, head.end, rest.len() as int) == search_start(
            segs,
            from,
            segs.len() as int,
        ));
    }
}

/// The first region of a scan from `from` is the first region that starts at
/// or behind `from`; a scan that finds nothing tells that there is none.
proof fn lemma_scanned_first(s: Seq<char>, from: int, segs: Seq<Span>)
    requires
        0 <= from,
        scanned(s, from, segs),
    ensures
        first_segment(s, from) == if segs.len() > 0 {
            Some(segs[0])
        } else {
            None
        },
{
    lemma_first_segment(s, from);
    let found = first_segment(s, from);
    if found.is_some() {
        let seg = found.unwrap();
        lemma_segment_found(s, seg.kind, seg.start, seg.end);
    }
    if segs.len() == 0 {
        assert(search_start(segs, from, segs.len() as int) == from);
    } else {
        let head = segs[0];
        assert(search_start(segs, from, 0) == from);
        lemma_segment_found(s, head.kind, head.start, head.end);
        if found.is_some() {
            let seg = found.unwrap();
            if seg.start < head.start {
                assert(segment_starting(s, seg.start).is_none());
            }
            if head.start < seg.start {
                assert(segment_starting(s, head.start).is_none());
            }
        } else {
            assert(segment_starting(s, head.start).is_none());
        }
    }
}

/// The scan is determined by what it finds: regions that `segment_at`
/// describes, standing one behind the other from `from` on, with no start of
/// a region between them or behind the last, are the regions that
/// `segments_from` lists.
pub proof fn lemma_scanned_unique(s: Seq<char>, from: int, segs: Seq<Span>)
    requires
        0 <= from,
        scanned(s, from, segs),
    ensures
        segs == segments_from(s, from),
    decreases segs.len(),
{
    lemma_scanned_first(s, from, segs);
    if segs.len() > 0 {
        let head = segs[0];
        let rest = segs.skip(1);
        assert(from <= head.start < head.end <= s.len()) by {
            assert(search_start(segs, from, 0) == from);
        }
        lemma_scanned_rest(s, from, segs);
        lemma_scanned_unique(s, head.end, rest);
        assert(segs == seq![head] + rest);
    }
}

/// The regions of a document are told by what `scanned` says of them, and by
/// nothing else.
pub proof fn law_scan(s: Seq<char>, segs: Seq<Span>)
    ensures
        segs == segments(s) <==> scanned(s, 0, segs),
{
    lemma_segments(s);
    if scanned(s, 0, segs) {
        lemma_scanned_unique(s, 0, segs);
    }
}

/// Identity: a document in which no region of mathematics stands is
/// converted to itself, whatever the macros are.
pub proof fn law_identity(macros: Seq<CustomMacro>, s: Seq<char>)
    requires
        forall|kind: SegmentKind, start: int, end: int| !segment_at(s, kind, start, end),
    ensures
        document_outcome(macros, s) == Some(Stage::<Seq<char>>::Ok(s)),
{
    lemma_first_segment(s, 0);
    assert(first_segment(s, 0).is_none());
    assert(segments(s) == Seq::<Span>::empty());
    assert(assembled(s, segments(s), Seq::<Seq<char>>::empty()) == s);
}

/// Passthrough of what is not closed: where no opening marker has the closing
/// marker of its kind behind it, with room for a body between the two, the
/// document is converted to itself.
pub proof fn law_unmatched_passthrough(macros: Seq<CustomMacro>, s: Seq<char>)
    requires
        forall|kind: SegmentKind, p: int, c: int|
            opens_at(s, kind, p) && closes_at(s, kind, c) ==> c < p + 3,
    ensures
        document_outcome(macros, s) == Some(Stage::<Seq<char>>::Ok(s)),
{
    assert forall|kind: SegmentKind, start: int, end: int| !segment_at(s, kind, start, end) by {
        if segment_at(s, kind, start, end) {
            assert(opens_at(s, kind, start) && closes_at(s, kind, end - 2));
        }
    }
    law_identity(macros, s);
}

/// Isolation of a region: in a document with one region of mathematics, the
/// text in front of the region and the text behind it stand in the output as
/// they were, and between them stands the wrapped conversion of the region's
/// formula. Where that conversion fails, its message is the outcome.
pub proof fn law_single_segment(macros: Seq<CustomMacro>, s: Seq<char>, seg: Span)
    requires
        segments(s) == seq![seg],
    ensures
        document_outcome(macros, s) == match math_outcome(macros, formula(s, seg)) {
            Some(Ok(converted)) => Some(
                Stage::<Seq<char>>::Ok(
                    s.subrange(0, seg.start) + wrapped(seg.kind, converted) + s.subrange(
                        seg.end,
                        s.len() as int,
                    ),
                ),
            ),
            Some(Err(message)) => Some(Stage::<Seq<char>>::Err(message)),
            None => None,
        },
{
    let segs = segments(s);
    assert(conversions(macros, s, segs, 0) == Some(
        Stage::<Seq<Seq<char>>>::Ok(Seq::<Seq<char>>::empty()),
    ));
    match math_outcome(macros, formula(s, seg)) {
        Some(Ok(converted)) => {
            let outs = Seq::<Seq<char>>::empty().push(converted);
            assert(conversions(macros, s, segs, 1) == Some(Stage::<Seq<Seq<char>>>::Ok(outs)));
            assert(assembled_prefix(s, segs, outs, 0) == Seq::<char>::empty());
            assert(assembled_prefix(s, segs, outs, 1) == s.subrange(0, seg.start) + wrapped(
                seg.kind,
                converted,
            ));
        },
        _ => {},
    }
}

/// No marker starts in `t`: it holds no backslash.
pub open spec fn unmarked(t: Seq<char>) -> bool {
    forall|i: int| 0 <= i < t.len() ==> #[trigger] t[i] != '\\'
}

/// The body `body` between the two markers of `kind`.
pub open spec fn marked(kind: SegmentKind, body: Seq<char>) -> Seq<char> {
    seq!['\\', opener(kind)] + body + seq!['\\', closer(kind)]
}

/// The region that a body of `kind` behind the text `before` spans.
pub open spec fn region(before: Seq<char>, kind: SegmentKind, body: Seq<char>) -> Span {
    Span { kind, start: before.len() as int, end: before.len() as int + body.len() + 4 }
}

/// A well-formed region: a body that is not empty, holds no backslash and,
/// in inline mathematics, no line feed, between the markers of its kind and
/// within text that holds no backslash, is the one region of the document.
pub proof fn law_well_formed(
    before: Seq<char>,
    kind: SegmentKind,
    body: Seq<char>,
    behind: Seq<char>,
)
    requires
        unmarked(before),
        unmarked(body),
        unmarked(behind),
        body.len() > 0,
        forall|i: int| 0 <= i < body.len() ==> admits(kind, #[trigger] body[i]),
    ensures
        segments(before + marked(kind, body) + behind) == seq![region(before, kind, body)],
        body_of(before + marked(kind, body) + behind, region(before, kind, body)) == body,
{
    let s = before + marked(kind, body) + behind;
    let span = region(before, kind, body);
    let start = span.start;
    let end = span.end;
    assert(s.len() == before.len() + body.len() + 4 + behind.len());
    assert forall|i: int| 0 <= i < start implies s[i] == before[i] by {}
    assert(s[start] == '\\');
    assert(s[start + 1] == opener(kind));
    assert forall|i: int| start + 2 <= i < end - 2 implies s[i] == body[i - start - 2] by {}
    assert(s[end - 2] == '\\');
    assert(s[end - 1] == closer(kind));
    assert forall|i: int| end <= i < s.len() implies s[i] == behind[i - end] by {}
    assert(segment_at(s, kind, start, end)) by {
        assert forall|i: int| start + 2 <= i < end - 2 implies admits(kind, #[trigger] s[i]) by {
            assert(s[i] == body[i - start - 2]);
        }
        assert forall|c: int| start + 3 <= c < end - 2 implies !closes_at(s, kind, c) by {
            assert(s[c] == body[c - start - 2]);
        }
    }
    assert forall|p: int| (0 <= p < start || end <= p) implies (#[trigger] segment_starting(
        s,
        p,
    )).is_none() by {
        if 0 <= p < start {
            assert(s[p] == before[p]);
        } else if p < s.len() {
            assert(s[p] == behind[p - end]);
        }
        assert(!opens_at(s, SegmentKind::Inline, p));
        assert(!opens_at(s, SegmentKind::Display, p));
    }
    let segs = seq![span];
    assert(scanned(s, 0, segs)) by {
        assert(search_start(segs, 0, 0) == 0);
        assert(search_start(segs, 0, 1) == end);
    }
    law_scan(s, segs);
    assert(body_of(s, span) == body);
}

/// Isolation of a well-formed inline region: the document `before`, `\(`,
/// `body`, `\)`, `behind` is converted to `before`, a dollar sign, the
/// conversion of the trimmed body, a dollar sign, `behind`; where that
/// conversion fails, to its message.
pub proof fn law_isolation(
    macros: Seq<CustomMacro>,
    before: Seq<char>,
    body: Seq<char>,
    behind: Seq<char>,
)
    requires
        unmarked(before),
        unmarked(body),
        unmarked(behind),
        body.len() > 0,
        forall|i: int| 0 <= i < body.len() ==> #[trigger] body[i] != '\n',
    ensures
        document_outcome(macros, before + marked(SegmentKind::Inline, body) + behind)
            == match math_outcome(macros, trimmed(body)) {
            Some(Ok(converted)) => Some(
                Stage::<Seq<char>>::Ok(before + seq!['$'] + converted + seq!['$'] + behind),
            ),
            Some(Err(message)) => Some(Stage::<Seq<char>>::Err(message)),
            None => None,
        },
{
    let kind = SegmentKind::Inline;
    let s = before + marked(kind, body) + behind;
    let span = region(before, kind, body);
    law_well_formed(before, kind, body, behind);
    law_single_segment(macros, s, span);
    assert(s.subrange(0, span.start) == before);
    assert(s.subrange(span.end, s.len() as int) == behind);
    match math_outcome(macros, trimmed(body)) {
        Some(Ok(converted)) => {
            assert(before + wrapped(kind, converted) + behind == before + seq!['$'] + converted
                + seq!['$'] + behind);
        },
        _ => {},
    }
}

/// Wrapping of a well-formed display region: the document `before`, `\[`,
/// `body`, `\]`, `behind` is converted to `before`, a dollar sign and a line
/// feed, the conversion of the trimmed body, a line feed and a dollar sign,
/// `behind`; where that conversion fails, to its message.
pub proof fn law_display_wrapping(
    macros: Seq<CustomMacro>,
    before: Seq<char>,
    body: Seq<char>,
    behind: Seq<char>,
)
    requires
        unmarked(before),
        unmarked(body),
        unmarked(behind),
        body.len() > 0,
    ensures
        document_outcome(macros, before + marked(SegmentKind::Display, body) + behind)
            == match math_outcome(macros, trimmed(body)) {
            Some(Ok(converted)) => Some(
                Stage::<Seq<char>>::Ok(
                    before + seq!['$', '\n'] + converted + seq!['\n', '$'] + behind,
                ),
            ),
            Some(Err(message)) => Some(Stage::<Seq<char>>::Err(message)),
            None => None,
        },
{
    let kind = SegmentKind::Display;
    let s = before + marked(kind, body) + behind;
    let span = region(before, kind, body);
    law_well_formed(before, kind, body, behind);
    law_single_segment(macros, s, span);
    assert(s.subrange(0, span.start) == before);
    assert(s.subrange(span.end, s.len() as int) == behind);
    match math_outcome(macros, trimmed(body)) {
        Some(Ok(converted)) => {
            assert(before + wrapped(kind, converted) + behind == before + seq!['$', '\n']
                + converted + seq!['\n', '$'] + behind);
        },
        _ => {},
    }
}

/// Isolation of an inline region: its conversion stands between two dollar
/// signs, on the line.
pub proof fn law_inline_segment(
    macros: Seq<CustomMacro>,
    s: Seq<char>,
    seg: Span,
    converted: Seq<char>,
)
    requires
        segments(s) == seq![seg],
        seg.kind == SegmentKind::Inline,
        math_outcome(macros, formula(s, seg)) == Some(Stage::<Seq<char>>::Ok(converted)),
    ensures
        document_outcome(macros, s) == Some(
            Stage::<Seq<char>>::Ok(
                s.subrange(0, seg.start) + seq!['$'] + converted + seq!['$'] + s.subrange(
                    seg.end,
                    s.len() as int,
                ),
            ),
        ),
{
    law_single_segment(macros, s, seg);
    assert(s.subrange(0, seg.start) + wrapped(seg.kind, converted) == s.subrange(0, seg.start)
        + seq!['$'] + converted + seq!['$']);
}

/// Wrapping of a display region: its conversion stands on a line of its own,
/// with a dollar sign on the line before it and one on the line behind it.
pub proof fn law_display_segment(
    macros: Seq<CustomMacro>,
    s: Seq<char>,
    seg: Span,
    converted: Seq<char>,
)
    requires
        segments(s) == seq![seg],
        seg.kind == SegmentKind::Display,
        math_outcome(macros, formula(s, seg)) == Some(Stage::<Seq<char>>::Ok(converted)),
    ensures
        document_outcome(macros, s) == Some(
            Stage::<Seq<char>>::Ok(
                s.subrange(0, seg.start) + seq!['$', '\n'] + converted + seq!['\n', '$']
                    + s.subrange(seg.end, s.len() as int),
            ),
        ),
{
    law_single_segment(macros, s, seg);
    assert(s.subrange(0, seg.start) + wrapped(seg.kind, converted) == s.subrange(0, seg.start)
        + seq!['$', '\n'] + converted + seq!['\n', '$']);
}

/// The conversion of the formula of region `j`, where it succeeds.
pub open spec fn conversion(macros: Seq<CustomMacro>, s: Seq<char>, segs: Seq<Span>, j: int) -> Seq<
    char,
> {
    match math_outcome(macros, formula(s, segs[j])) {
        Some(Ok(converted)) => converted,
        _ => Seq::empty(),
    }
}

/// The conversion of each region succeeds.
pub open spec fn succeeds(macros: Seq<CustomMacro>, s: Seq<char>, segs: Seq<Span>, j: int) -> bool {
    math_outcome(macros, formula(s, segs[j])) matches Some(Ok(_))
}

/// Where the first `n` regions convert, their conversions are what
/// `conversions` lists.
pub proof fn lemma_conversions_succeed(
    macros: Seq<CustomMacro>,
    s: Seq<char>,
    segs: Seq<Span>,
    n: nat,
)
    requires
        n <= segs.len(),
        forall|j: int| 0 <= j < n ==> succeeds(macros, s, segs, j),
    ensures
        conversions(macros, s, segs, n) == Some(
            Stage::<Seq<Seq<char>>>::Ok(
                Seq::new(n, |j: int| conversion(macros, s, segs, j)),
            ),
        ),
    decreases n,
{
    if n > 0 {
        lemma_conversions_succeed(macros, s, segs, (n - 1) as nat);
        assert(succeeds(macros, s, segs, n - 1));
        assert(Seq::new((n - 1) as nat, |j: int| conversion(macros, s, segs, j)).push(
            conversion(macros, s, segs, n - 1),
        ) == Seq::new(n, |j: int| conversion(macros, s, segs, j)));
    } else {
        assert(Seq::new(0, |j: int| conversion(macros, s, segs, j)) == Seq::<Seq<char>>::empty());
    }
}

/// Success: where the formula of every region converts, the outcome is the
/// document put together from these conversions.
pub proof fn law_success(macros: Seq<CustomMacro>, s: Seq<char>)
    requires
        forall|j: int| 0 <= j < segments(s).len() ==> succeeds(macros, s, segments(s), j),
    ensures
        document_outcome(macros, s) == Some(
            Stage::<Seq<char>>::Ok(
                assembled(
                    s,
                    segments(s),
                    Seq::new(segments(s).len(), |j: int| conversion(macros, s, segments(s), j)),
                ),
            ),
        ),
{
    lemma_conversions_succeed(macros, s, segments(s), segments(s).len());
}

/// Failing fast: where the formula of a region fails and those of all
/// regions in front of it convert, the outcome is that region's message and
/// nothing else, whatever stands behind it.
pub proof fn law_fail_fast(macros: Seq<CustomMacro>, s: Seq<char>, i: int, message: Seq<char>)
    requires
        0 <= i < segments(s).len(),
        forall|j: int| 0 <= j < i ==> succeeds(macros, s, segments(s), j),
        math_outcome(macros, formula(s, segments(s)[i])) == Some(
            Stage::<Seq<char>>::Err(message),
        ),
    ensures
        document_outcome(macros, s) == Some(Stage::<Seq<char>>::Err(message)),
{
    let segs = segments(s);
    lemma_conversions_succeed(macros, s, segs, i as nat);
    assert(conversions(macros, s, segs, (i + 1) as nat) == Some(
        Stage::<Seq<Seq<char>>>::Err(message),
    ));
    lemma_conversions_stop(macros, s, segs, (i + 1) as nat, segs.len());
}

/// A failure has a first region that it comes from: the outcome is a message
/// only where the formula of some region fails with it and those of all
/// regions in front of that one convert.
pub proof fn law_failure_source(macros: Seq<CustomMacro>, s: Seq<char>, message: Seq<char>)
    requires
        document_outcome(macros, s) == Some(Stage::<Seq<char>>::Err(message)),
    ensures
        exists|i: int|
            {
                &&& 0 <= i < segments(s).len()
                &&& #[trigger] math_outcome(macros, formula(s, segments(s)[i])) == Some(
                    Stage::<Seq<char>>::Err(message),
                )
                &&& forall|j: int| 0 <= j < i ==> succeeds(macros, s, segments(s), j)
            },
{
    lemma_failure_source(macros, s, segments(s), segments(s).len(), message);
}

/// The first region whose formula fails, among the first `n`.
proof fn lemma_failure_source(
    macros: Seq<CustomMacro>,
    s: Seq<char>,
    segs: Seq<Span>,
    n: nat,
    message: Seq<char>,
)
    requires
        n <= segs.len(),
        conversions(macros, s, segs, n) == Some(Stage::<Seq<Seq<char>>>::Err(message)),
    ensures
        exists|i: int|
            {
                &&& 0 <= i < n
                &&& #[trigger] math_outcome(macros, formula(s, segs[i])) == Some(
                    Stage::<Seq<char>>::Err(message),
                )
                &&& forall|j: int| 0 <= j < i ==> succeeds(macros, s, segs, j)
            },
    decreases n,
{
    if n > 0 {
        match conversions(macros, s, segs, (n - 1) as nat) {
            Some(Ok(outs)) => {
                lemma_all_succeed(macros, s, segs, (n - 1) as nat);
                assert(math_outcome(macros, formula(s, segs[n - 1])) == Some(
                    Stage::<Seq<char>>::Err(message),
                ));
            },
            _ => {
                lemma_failure_source(macros, s, segs, (n - 1) as nat, message);
            },
        }
    }
}

/// Where `conversions` lists the conversions of the first `n` regions, each
/// of them succeeded.
proof fn lemma_all_succeed(macros: Seq<CustomMacro>, s: Seq<char>, segs: Seq<Span>, n: nat)
    requires
        n <= segs.len(),
        conversions(macros, s, segs, n) matches Some(Ok(_)),
    ensures
        forall|j: int| 0 <= j < n ==> succeeds(macros, s, segs, j),
    decreases n,
{
    if n > 0 {
        lemma_all_succeed(macros, s, segs, (n - 1) as nat);
    }
}

/// What is put together for the first `k` regions stands at the start of
/// what is put together for more of them.
pub proof fn lemma_prefix_extends(
    s: Seq<char>,
    segs: Seq<Span>,
    outs: Seq<Seq<char>>,
    k: nat,
    n: nat,
)
    requires
        k <= n,
    ensures
        exists|rest: Seq<char>|
            assembled_prefix(s, segs, outs, n) == assembled_prefix(s, segs, outs, k) + rest,
    decreases n,
{
    if k == n {
        assert(assembled_prefix(s, segs, outs, n) == assembled_prefix(s, segs, outs, k)
            + Seq::<char>::empty());
    } else {
        lemma_prefix_extends(s, segs, outs, k, (n - 1) as nat);
        let rest = choose|rest: Seq<char>|
            assembled_prefix(s, segs, outs, (n - 1) as nat) == assembled_prefix(s, segs, outs, k)
                + rest;
        let i = n - 1;
        let more = rest + s.subrange(gap_start(segs, i), segs[i].start) + wrapped(
            segs[i].kind,
            outs[i],
        );
        assert(assembled_prefix(s, segs, outs, n) == assembled_prefix(s, segs, outs, k) + more);
    }
}

/// `middle` with `before` in front of it and `behind` behind it.
pub open spec fn surrounded(before: Seq<char>, middle: Seq<char>, behind: Seq<char>) -> Seq<
    char,
> {
    before + middle + behind
}

/// Order: of two regions that follow one another, the replacements stand in
/// the output in the same order, and between them the text that stood
/// between the regions, unchanged.
pub proof fn law_order(s: Seq<char>, segs: Seq<Span>, outs: Seq<Seq<char>>, i: int)
    requires
        0 <= i,
        i + 1 < segs.len(),
    ensures
        exists|before: Seq<char>, behind: Seq<char>|
            assembled(s, segs, outs) == #[trigger] surrounded(
                before,
                wrapped(segs[i].kind, outs[i]) + s.subrange(segs[i].end, segs[i + 1].start)
                    + wrapped(segs[i + 1].kind, outs[i + 1]),
                behind,
            ),
{
    let n = segs.len();
    let k = (i + 2) as nat;
    lemma_prefix_extends(s, segs, outs, k, n);
    let rest = choose|rest: Seq<char>|
        assembled_prefix(s, segs, outs, n) == assembled_prefix(s, segs, outs, k) + rest;
    let before = assembled_prefix(s, segs, outs, i as nat) + s.subrange(
        gap_start(segs, i),
        segs[i].start,
    );
    let behind = rest + s.subrange(gap_start(segs, n as int), s.len() as int);
    let middle = wrapped(segs[i].kind, outs[i]) + s.subrange(segs[i].end, segs[i + 1].start)
        + wrapped(segs[i + 1].kind, outs[i + 1]);
    assert(assembled_prefix(s, segs, outs, (i + 1) as nat) == before + wrapped(
        segs[i].kind,
        outs[i],
    ));
    assert(assembled_prefix(s, segs, outs, (i + 2) as nat) == before + middle);
    assert(assembled(s, segs, outs) == surrounded(before, middle, behind));
}

/// Order, for a document with two regions whose formulas both convert: the
/// output is the text in front of the first, the first replacement, the text
/// between the two, the second replacement, and the text behind the second.
pub proof fn law_two_segments(
    macros: Seq<CustomMacro>,
    s: Seq<char>,
    first: Span,
    second: Span,
    one: Seq<char>,
    two: Seq<char>,
)
    requires
        segments(s) == seq![first, second],
        math_outcome(macros, formula(s, first)) == Some(Stage::<Seq<char>>::Ok(one)),
        math_outcome(macros, formula(s, second)) == Some(Stage::<Seq<char>>::Ok(two)),
    ensures
        document_outcome(macros, s) == Some(
            Stage::<Seq<char>>::Ok(
                s.subrange(0, first.start) + wrapped(first.kind, one) + s.subrange(
                    first.end,
                    second.start,
                ) + wrapped(second.kind, two) + s.subrange(second.end, s.len() as int),
            ),
        ),
{
    let segs = segments(s);
    assert(succeeds(macros, s, segs, 0));
    assert(succeeds(macros, s, segs, 1));
    law_success(macros, s);
    let outs = Seq::new(segs.len(), |j: int| conversion(macros, s, segs, j));
    assert(outs[0] == one);
    assert(outs[1] == two);
    assert(assembled_prefix(s, segs, outs, 0) == Seq::<char>::empty());
    assert(assembled_prefix(s, segs, outs, 1) == s.subrange(0, first.start) + wrapped(
        first.kind,
        one,
    ));
    assert(assembled_prefix(s, segs, outs, 2) == s.subrange(0, first.start) + wrapped(
        first.kind,
        one,
    ) + s.subrange(first.end, second.start) + wrapped(second.kind, two));
}

} // verus!
