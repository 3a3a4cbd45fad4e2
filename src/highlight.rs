use vstd::prelude::*;

verus! {

/// How a piece of a sample is printed.
#[derive(Clone, Copy, Debug, PartialEq, Eq, Structural)]
pub enum Style {
    /// Outside every match.
    Plain,
    /// Inside a match or a capture group.
    Emphasis,
    /// The whole of a sample that the pattern did not match.
    Alert,
}

/// The bytes `start..end` of a sample, printed in one style.
#[derive(Clone, Copy, Debug, PartialEq, Eq, Structural)]
pub struct Segment {
    pub start: usize,
    pub end: usize,
    pub style: Style,
}

/// How one sample is printed: its pieces in order, and whether the whole is
/// put between double quotes.
pub struct RenderedSample {
    pub quoted: bool,
    pub segments: Vec<Segment>,
}

/// Every range lies inside a text of `len` bytes and does not run backwards.
pub open spec fn ranges_within(ranges: Seq<(usize, usize)>, len: int) -> bool {
    forall|k: int| 0 <= k < ranges.len() ==> #[trigger] ranges[k].0 <= ranges[k].1 <= len
}

/// The segments cover `0..len` exactly once, left to right, none of them empty.
pub open spec fn tiles(segs: Seq<Segment>, len: int) -> bool {
    &&& (segs.len() == 0 <==> len == 0)
    &&& segs.len() > 0 ==> segs[0].start == 0 && segs.last().end == len
    &&& forall|i: int| 0 <= i < segs.len() ==> segs[i].start < segs[i].end
    &&& forall|i: int| 0 <= i < segs.len() - 1 ==> segs[i].end == segs[i + 1].start
}

/// Byte `p` is emphasized when some range holds it and no range before that
/// one already reached past it: a range is printed from where the previous
/// ones stopped, so nothing is printed twice. Where the ranges come ordered by
/// their start this is just "some range holds `p`".
pub open spec fn emphasized_at(ranges: Seq<(usize, usize)>, p: int) -> bool {
    exists|k: int|
        #![trigger ranges[k]]
        0 <= k < ranges.len() && ranges[k].0 <= p < ranges[k].1 && forall|j: int|
            0 <= j < k ==> ranges[j].1 <= p
}

/// Every byte of every segment has the style that `emphasized_at` gives it.
pub open spec fn styled_by(segs: Seq<Segment>, ranges: Seq<(usize, usize)>) -> bool {
    forall|i: int, p: int|
        0 <= i < segs.len() && segs[i].start <= p < segs[i].end ==> (segs[i].style
            == if emphasized_at(ranges, p) {
            Style::Emphasis
        } else {
            Style::Plain
        })
}

/// Splits a text of `len` bytes into plain and emphasized segments, walking the
/// match ranges in the order given. Zero-length ranges and ranges nested in an
/// earlier one add nothing.
pub fn highlight_segments(len: usize, ranges: &Vec<(usize, usize)>) -> (segs: Vec<Segment>)
    requires
        ranges_within(ranges@, len as int),
    ensures
        tiles(segs@, len as int),
        styled_by(segs@, ranges@),
{
    let mut segs: Vec<Segment> = Vec::new();
    let mut cursor: usize = 0;
    let mut k: usize = 0;
    while k < ranges.len()
        invariant
            ranges_within(ranges@, len as int),
            k <= ranges@.len(),
            cursor <= len,
            forall|j: int| 0 <= j < k ==> ranges@[j].1 <= cursor,
            tiles(segs@, cursor as int),
            styled_by(segs@, ranges@),
        decreases ranges@.len() - k,
    {
        let (s, e) = ranges[k];
        if e > cursor {
            let from = if s > cursor {
                s
            } else {
                cursor
            };
            if from > cursor {
                let gap = Segment { start: cursor, end: from, style: Style::Plain };
                assert forall|p: int| cursor <= p < from implies !emphasized_at(ranges@, p) by {
                    if emphasized_at(ranges@, p) {
                        let w = choose|w: int|
                            0 <= w < ranges@.len() && #[trigger] ranges@[w].0 <= p < ranges@[w].1
                                && forall|j: int| 0 <= j < w ==> ranges@[j].1 <= p;
                        if w < k {
                            assert(ranges@[w].1 <= cursor);
                        } else if w > k {
                            assert(ranges@[k as int].1 <= p);
                        }
                    }
                }
                let ghost before = segs@;
                segs.push(gap);
                assert(segs@ == before.push(gap));
                assert(tiles(segs@, from as int));
            }
            if from < e {
                let hit = Segment { start: from, end: e, style: Style::Emphasis };
                assert forall|p: int| from <= p < e implies emphasized_at(ranges@, p) by {
                    assert(ranges@[k as int].0 <= p < ranges@[k as int].1);
                }
                let ghost before = segs@;
                segs.push(hit);
                assert(segs@ == before.push(hit));
                assert(tiles(segs@, e as int));
            }
            cursor = e;
        }
        k = k + 1;
    }
    if cursor < len {
        let tail = Segment { start: cursor, end: len, style: Style::Plain };
        assert forall|p: int| cursor <= p < len implies !emphasized_at(ranges@, p) by {
            if emphasized_at(ranges@, p) {
                let w = choose|w: int|
                    0 <= w < ranges@.len() && #[trigger] ranges@[w].0 <= p < ranges@[w].1
                        && forall|j: int| 0 <= j < w ==> ranges@[j].1 <= p;
                assert(ranges@[w].1 <= cursor);
            }
        }
        let ghost before = segs@;
        segs.push(tail);
        assert(segs@ == before.push(tail));
    }
    segs
}

} // verus!
