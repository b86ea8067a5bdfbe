use vstd::prelude::*;

verus! {

/// A horizontal run of opaque pixels of one row, from `start` to `end`
/// inclusive.
#[derive(Debug, Clone, Copy, PartialEq, Eq, Structural)]
pub struct Span {
    pub start: i32,
    pub end: i32,
}

/// A rectangle of opaque pixels: columns `x1` to `x2` and rows `y1` to `y2`,
/// all inclusive.
#[derive(Debug, Clone, Copy, PartialEq, Eq, Structural)]
pub struct AlphaRect {
    pub x1: i32,
    pub y1: i32,
    pub x2: i32,
    pub y2: i32,
}

/// Whether the pixel at `x`, `y` of RGBA data with rows `bytes_per_row` bytes
/// apart is opaque enough to belong to the shape: its alpha is above 128.
pub open spec fn opaque_at(data: Seq<u8>, bytes_per_row: int, x: int, y: int) -> bool {
    data[y * bytes_per_row + x * 4 + 3] > 128
}

/// `s` is a maximal run of `true` in `row`.
pub open spec fn is_maximal_run(row: Seq<bool>, s: Span) -> bool {
    &&& 0 <= s.start <= s.end < row.len()
    &&& forall|x: int| s.start <= x <= s.end ==> #[trigger] row[x]
    &&& (s.start == 0 || !row[s.start - 1])
    &&& (s.end == row.len() - 1 || !row[s.end + 1])
}

/// `spans` are the maximal runs of `true` in `row`, from left to right.
pub open spec fn are_runs_of(row: Seq<bool>, spans: Seq<Span>) -> bool {
    &&& forall|i: int| 0 <= i < spans.len() ==> is_maximal_run(row, #[trigger] spans[i])
    &&& forall|i: int, j: int| 0 <= i < j < spans.len() ==> (#[trigger] spans[i]).end < (#[trigger] spans[j]).start
    &&& forall|x: int| 0 <= x < row.len() && #[trigger] row[x] ==> exists|i: int|
        0 <= i < spans.len() && (#[trigger] spans[i]).start <= x <= spans[i].end
}

/// The maximal runs of `true` in a row, from left to right.
pub fn runs(row: &Vec<bool>) -> (spans: Vec<Span>)
    requires
        row@.len() <= i32::MAX,
    ensures
        are_runs_of(row@, spans@),
{
    let n = row.len();
    let mut spans: Vec<Span> = Vec::new();
    let mut start: i32 = -1;
    let mut end: i32 = -1;
    let mut x: usize = 0;
    while x < n
        invariant
            n == row@.len(),
            n <= i32::MAX,
            x <= n,
            forall|i: int| 0 <= i < spans@.len() ==> is_maximal_run(row@, #[trigger] spans@[i]),
            forall|i: int, j: int|
                0 <= i < j < spans@.len() ==> (#[trigger] spans@[i]).end < (#[trigger] spans@[j]).start,
            start == -1 ==> end == -1 && (x == 0 || !row@[x - 1]) && forall|i: int|
                0 <= i < spans@.len() ==> (#[trigger] spans@[i]).end < x,
            start != -1 ==> {
                &&& 0 <= start <= end
                &&& end == x - 1
                &&& (start == 0 || !row@[start - 1])
                &&& forall|k: int| start <= k <= end ==> #[trigger] row@[k]
                &&& forall|i: int| 0 <= i < spans@.len() ==> (#[trigger] spans@[i]).end + 1 < start
            },
            forall|k: int|
                0 <= k < x && #[trigger] row@[k] && (start == -1 || k < start) ==> exists|i: int|
                    0 <= i < spans@.len() && (#[trigger] spans@[i]).start <= k <= spans@[i].end,
        decreases n - x,
    {
        if row[x] {
            if start == -1 {
                start = x as i32;
            }
            end = x as i32;
        } else if start != -1 {
            let ghost before = spans@;
            spans.push(Span { start, end });
            proof {
                assert(is_maximal_run(row@, Span { start, end }));
                assert forall|k: int|
                    0 <= k < x + 1 && #[trigger] row@[k] implies exists|i: int|
                    0 <= i < spans@.len() && (#[trigger] spans@[i]).start <= k <= spans@[i].end by {
                    if k >= start {
                        assert(spans@[spans@.len() - 1].start <= k <= spans@[spans@.len() - 1].end);
                    } else {
                        let i = choose|i: int| 0 <= i < before.len() && (#[trigger] before[i]).start <= k <= before[i].end;
                        assert(spans@[i] == before[i]);
                    }
                }
            }
            start = -1;
            end = -1;
        }
        x = x + 1;
    }
    if start != -1 {
        let ghost before = spans@;
        spans.push(Span { start, end });
        proof {
            assert(is_maximal_run(row@, Span { start, end }));
            assert forall|k: int| 0 <= k < n && #[trigger] row@[k] implies exists|i: int|
                0 <= i < spans@.len() && (#[trigger] spans@[i]).start <= k <= spans@[i].end by {
                if k >= start {
                    assert(spans@[spans@.len() - 1].start <= k <= spans@[spans@.len() - 1].end);
                } else {
                    let i = choose|i: int| 0 <= i < before.len() && (#[trigger] before[i]).start <= k <= before[i].end;
                    assert(spans@[i] == before[i]);
                }
            }
        }
    }
    spans
}

/// Which pixels of row `y` are opaque.
pub fn opaque_row(data: &[u8], width: i32, bytes_per_row: i32, y: i32) -> (row: Vec<bool>)
    requires
        0 <= y,
        0 <= width,
        width > 0 ==> y * bytes_per_row + width * 4 <= data@.len(),
        width > 0 ==> 0 <= y * bytes_per_row,
        width > 0 ==> y * bytes_per_row + (width - 1) * 4 + 3 <= i32::MAX,
    ensures
        row@.len() == width,
        forall|x: int| 0 <= x < width ==> row@[x] == opaque_at(data@, bytes_per_row as int, x, y as int),
{
    let mut row: Vec<bool> = Vec::new();
    let mut x: i32 = 0;
    while x < width
        invariant
            0 <= x <= width,
            width > 0 ==> y * bytes_per_row + width * 4 <= data@.len(),
            width > 0 ==> 0 <= y * bytes_per_row,
            width > 0 ==> y * bytes_per_row + (width - 1) * 4 + 3 <= i32::MAX,
            row@.len() == x,
            forall|k: int| 0 <= k < x ==> row@[k] == opaque_at(data@, bytes_per_row as int, k, y as int),
        decreases width - x,
    {
        proof {
            assert(y * bytes_per_row + x * 4 + 3 <= y * bytes_per_row + (width - 1) * 4 + 3);
        }
        let index = (y * bytes_per_row + x * 4 + 3) as usize;
        row.push(data[index] > 128);
        x = x + 1;
    }
    row
}

/// The opaque spans of row `y`, from left to right.
pub fn spans_for_line(data: &[u8], width: i32, bytes_per_row: i32, y: i32) -> (spans: Vec<Span>)
    requires
        0 <= y,
        0 <= width,
        width > 0 ==> y * bytes_per_row + width * 4 <= data@.len(),
        width > 0 ==> 0 <= y * bytes_per_row,
        width > 0 ==> y * bytes_per_row + (width - 1) * 4 + 3 <= i32::MAX,
    ensures
        are_runs_of(Seq::new(width as nat, |x: int| opaque_at(data@, bytes_per_row as int, x, y as int)), spans@),
{
    let row = opaque_row(data, width, bytes_per_row, y);
    let spans = runs(&row);
    proof {
        assert(row@ =~= Seq::new(width as nat, |x: int| opaque_at(data@, bytes_per_row as int, x, y as int)));
    }
    spans
}

/// Which pixels of row `y` are opaque.
pub open spec fn row_of(data: Seq<u8>, width: int, bytes_per_row: int, y: int) -> Seq<bool> {
    Seq::new(width as nat, |x: int| opaque_at(data, bytes_per_row, x, y))
}

/// Each row of `r` holds one maximal run of opaque pixels, from `x1` to `x2`.
pub open spec fn rect_is_stack(data: Seq<u8>, width: int, bytes_per_row: int, r: AlphaRect) -> bool {
    &&& 0 <= r.y1 <= r.y2
    &&& forall|yy: int|
        r.y1 <= yy <= r.y2 ==> is_maximal_run(
            #[trigger] row_of(data, width, bytes_per_row, yy),
            Span { start: r.x1, end: r.x2 },
        )
}

/// Rect `r` holds the run `s` of row `y`.
pub open spec fn holds_run(r: AlphaRect, s: Span, y: int) -> bool {
    r.x1 == s.start && r.x2 == s.end && r.y1 <= y <= r.y2
}

/// Some rect of `rects` holds the run `s` of row `y`.
pub open spec fn run_covered(rects: Seq<AlphaRect>, s: Span, y: int) -> bool {
    exists|i: int| 0 <= i < rects.len() && #[trigger] holds_run(rects[i], s, y)
}

/// Every maximal run of opaque pixels of the rows before `rows` is held by a
/// rect.
pub open spec fn runs_covered(
    data: Seq<u8>,
    width: int,
    bytes_per_row: int,
    rows: int,
    rects: Seq<AlphaRect>,
) -> bool {
    forall|y: int, s: Span|
        0 <= y < rows && #[trigger] is_maximal_run(row_of(data, width, bytes_per_row, y), s)
            ==> run_covered(rects, s, y)
}

/// Every rect of `a` is also in `b`.
pub open spec fn rects_in(a: Seq<AlphaRect>, b: Seq<AlphaRect>) -> bool {
    forall|i: int| 0 <= i < a.len() ==> b.contains(#[trigger] a[i])
}

/// What `a` covers, `b` covers, when every rect of `a` is in `b`.
proof fn lemma_cover_subset(data: Seq<u8>, width: int, bytes_per_row: int, rows: int, a: Seq<AlphaRect>, b: Seq<AlphaRect>)
    requires
        rects_in(a, b),
        runs_covered(data, width, bytes_per_row, rows, a),
    ensures
        runs_covered(data, width, bytes_per_row, rows, b),
{
    assert forall|y: int, s: Span|
        0 <= y < rows && #[trigger] is_maximal_run(row_of(data, width, bytes_per_row, y), s)
        implies run_covered(b, s, y) by {
        let i = choose|i: int| 0 <= i < a.len() && #[trigger] holds_run(a[i], s, y);
        assert(b.contains(a[i]));
        let j = choose|j: int| 0 <= j < b.len() && b[j] == a[i];
        assert(holds_run(b[j], s, y));
    }
}

/// Growing rects downwards keeps what they cover.
proof fn lemma_cover_grow(data: Seq<u8>, width: int, bytes_per_row: int, rows: int, a: Seq<AlphaRect>, b: Seq<AlphaRect>)
    requires
        a.len() == b.len(),
        forall|i: int| 0 <= i < a.len() ==> (#[trigger] b[i]).x1 == a[i].x1 && b[i].x2 == a[i].x2
            && b[i].y1 == a[i].y1 && b[i].y2 >= a[i].y2,
        runs_covered(data, width, bytes_per_row, rows, a),
    ensures
        runs_covered(data, width, bytes_per_row, rows, b),
{
    assert forall|y: int, s: Span|
        0 <= y < rows && #[trigger] is_maximal_run(row_of(data, width, bytes_per_row, y), s)
        implies run_covered(b, s, y) by {
        let i = choose|i: int| 0 <= i < a.len() && #[trigger] holds_run(a[i], s, y);
        assert(holds_run(b[i], s, y));
    }
}

/// Two maximal runs that share a pixel are the same run.
pub proof fn lemma_runs_overlap(row: Seq<bool>, a: Span, b: Span, x: int)
    requires
        is_maximal_run(row, a),
        is_maximal_run(row, b),
        a.start <= x <= a.end,
        b.start <= x <= b.end,
    ensures
        a == b,
{
    if a.start < b.start {
        assert(row[b.start - 1]);
    }
    if b.start < a.start {
        assert(row[a.start - 1]);
    }
    if a.end < b.end {
        assert(row[a.end + 1]);
    }
    if b.end < a.end {
        assert(row[b.end + 1]);
    }
}

/// The runs of a row are all its maximal runs.
proof fn lemma_runs_complete(row: Seq<bool>, spans: Seq<Span>, s: Span)
    requires
        are_runs_of(row, spans),
        is_maximal_run(row, s),
    ensures
        spans.contains(s),
{
    assert(row[s.start as int]);
    let i = choose|i: int| 0 <= i < spans.len() && (#[trigger] spans[i]).start <= s.start <= spans[i].end;
    lemma_runs_overlap(row, spans[i], s, s.start as int);
}

/// `a` starts above `b`, or on the same row and to its left.
pub open spec fn top_before(a: AlphaRect, b: AlphaRect) -> bool {
    a.y1 < b.y1 || (a.y1 == b.y1 && a.x1 < b.x1)
}

/// The order of the rects that `rects_for_alpha` gives: by bottom row, then
/// by top row, then from left to right.
pub open spec fn rect_before(a: AlphaRect, b: AlphaRect) -> bool {
    a.y2 < b.y2 || (a.y2 == b.y2 && top_before(a, b))
}

/// Row `y` of the `height` rows has `s` as a maximal run of opaque pixels.
pub open spec fn has_run(data: Seq<u8>, width: int, bytes_per_row: int, height: int, y: int, s: Span) -> bool {
    0 <= y < height && is_maximal_run(row_of(data, width, bytes_per_row, y), s)
}

/// The stack `r` cannot grow upwards or downwards: the rows just above and just
/// below it do not have its run.
pub open spec fn vertically_maximal(data: Seq<u8>, width: int, bytes_per_row: int, height: int, r: AlphaRect) -> bool {
    &&& !has_run(data, width, bytes_per_row, height, r.y1 - 1, span_of(r))
    &&& !has_run(data, width, bytes_per_row, height, r.y2 + 1, span_of(r))
}

/// Pixel `x`, `y` lies in `r`.
pub open spec fn in_rect(r: AlphaRect, x: int, y: int) -> bool {
    r.x1 <= x <= r.x2 && r.y1 <= y <= r.y2
}

/// The run of the top row of `r`.
pub open spec fn span_of(r: AlphaRect) -> Span {
    Span { start: r.x1, end: r.x2 }
}

/// No two rects of `rects` have the same run.
pub open spec fn distinct_spans(rects: Seq<AlphaRect>) -> bool {
    forall|i: int, j: int| 0 <= i < j < rects.len() ==> span_of(#[trigger] rects[i]) != span_of(#[trigger] rects[j])
}

/// Extends to row `y` the active rects (which end at row `y - 1`) whose run
/// continues in row `y`; gives the runs of row `y` that continue none, from
/// left to right.
fn extend_active(
    data: &[u8],
    width: i32,
    bytes_per_row: i32,
    y: i32,
    spans: &Vec<Span>,
    active: &mut Vec<AlphaRect>,
) -> (fresh: Vec<Span>)
    requires
        0 <= y,
        are_runs_of(row_of(data@, width as int, bytes_per_row as int, y as int), spans@),
        forall|i: int| 0 <= i < old(active)@.len() ==> rect_is_stack(data@, width as int, bytes_per_row as int, #[trigger] old(active)@[i])
            && old(active)@[i].y2 == y - 1,
        distinct_spans(old(active)@),
    ensures
        final(active)@.len() == old(active)@.len(),
        forall|i: int| 0 <= i < final(active)@.len() ==> (#[trigger] final(active)@[i]).x1 == old(active)@[i].x1
            && final(active)@[i].x2 == old(active)@[i].x2 && final(active)@[i].y1 == old(active)@[i].y1
            && (final(active)@[i].y2 == y - 1 || final(active)@[i].y2 == y)
            && rect_is_stack(data@, width as int, bytes_per_row as int, final(active)@[i]),
        forall|i: int| 0 <= i < final(active)@.len() ==> ((#[trigger] final(active)@[i]).y2 == y
            <==> is_maximal_run(row_of(data@, width as int, bytes_per_row as int, y as int), span_of(old(active)@[i]))),
        forall|j: int| 0 <= j < fresh@.len() ==> is_maximal_run(row_of(data@, width as int, bytes_per_row as int, y as int), #[trigger] fresh@[j]),
        forall|j: int| 0 <= j < spans@.len() ==> fresh@.contains(#[trigger] spans@[j])
            || run_covered(final(active)@, spans@[j], y as int),
        forall|j: int, i: int| 0 <= j < fresh@.len() && 0 <= i < old(active)@.len() ==> span_of(#[trigger] old(active)@[i]) != #[trigger] fresh@[j],
        forall|a: int, b: int| 0 <= a < b < fresh@.len() ==> (#[trigger] fresh@[a]).end < (#[trigger] fresh@[b]).start,
{
    let ghost row = row_of(data@, width as int, bytes_per_row as int, y as int);
    let ghost start = active@;
    let mut fresh: Vec<Span> = Vec::new();
    let mut k: usize = 0;
    while k < spans.len()
        invariant
            k <= spans@.len(),
            0 <= y,
            row == row_of(data@, width as int, bytes_per_row as int, y as int),
            are_runs_of(row, spans@),
            active@.len() == start.len(),
            distinct_spans(start),
            forall|i: int| 0 <= i < start.len() ==> rect_is_stack(data@, width as int, bytes_per_row as int, #[trigger] start[i])
                && start[i].y2 == y - 1,
            forall|i: int| 0 <= i < active@.len() ==> (#[trigger] active@[i]).x1 == start[i].x1
                && active@[i].x2 == start[i].x2 && active@[i].y1 == start[i].y1
                && (active@[i].y2 == y - 1 || active@[i].y2 == y)
                && rect_is_stack(data@, width as int, bytes_per_row as int, active@[i]),
            forall|j: int| 0 <= j < fresh@.len() ==> is_maximal_run(row, #[trigger] fresh@[j]),
            forall|j: int| 0 <= j < k ==> fresh@.contains(#[trigger] spans@[j])
                || run_covered(active@, spans@[j], y as int),
            forall|i: int, j: int| 0 <= i < start.len() && 0 <= j < k && #[trigger] spans@[j] == span_of(#[trigger] start[i]) ==> active@[i].y2 == y,
            forall|j: int, i: int| 0 <= j < fresh@.len() && 0 <= i < start.len() ==> span_of(#[trigger] start[i]) != #[trigger] fresh@[j],
            forall|m: int, j: int| 0 <= m < fresh@.len() && k <= j < spans@.len() ==> (#[trigger] fresh@[m]).end < (#[trigger] spans@[j]).start,
            forall|a: int, b: int| 0 <= a < b < fresh@.len() ==> (#[trigger] fresh@[a]).end < (#[trigger] fresh@[b]).start,
        decreases spans@.len() - k,
    {
        let span = spans[k];
        assert(is_maximal_run(row, spans@[k as int]));
        let mut matched = false;
        let mut a: usize = 0;
        while a < active.len()
            invariant
                a <= active@.len(),
                k < spans@.len(),
                span == spans@[k as int],
                0 <= y,
                is_maximal_run(row, span),
                row == row_of(data@, width as int, bytes_per_row as int, y as int),
                active@.len() == start.len(),
                distinct_spans(start),
                forall|i: int| 0 <= i < start.len() ==> rect_is_stack(data@, width as int, bytes_per_row as int, #[trigger] start[i])
                    && start[i].y2 == y - 1,
                forall|i: int| 0 <= i < active@.len() ==> (#[trigger] active@[i]).x1 == start[i].x1
                    && active@[i].x2 == start[i].x2 && active@[i].y1 == start[i].y1
                    && (active@[i].y2 == y - 1 || active@[i].y2 == y)
                    && rect_is_stack(data@, width as int, bytes_per_row as int, active@[i]),
                forall|j: int| 0 <= j < k ==> fresh@.contains(#[trigger] spans@[j])
                    || run_covered(active@, spans@[j], y as int),
                matched ==> run_covered(active@, span, y as int),
                forall|i: int, j: int| 0 <= i < start.len() && 0 <= j < k && #[trigger] spans@[j] == span_of(#[trigger] start[i]) ==> active@[i].y2 == y,
                forall|i: int| 0 <= i < a && span_of(#[trigger] start[i]) == span ==> active@[i].y2 == y,
                !matched ==> forall|i: int| 0 <= i < a ==> span_of(#[trigger] start[i]) != span,
                matched ==> exists|i: int| 0 <= i < a && span_of(#[trigger] start[i]) == span,
            decreases active@.len() - a,
        {
            if !matched && active[a].x1 == span.start && active[a].x2 == span.end {
                let r = active[a];
                let ghost before = active@;
                active.set(a, AlphaRect { x1: r.x1, y1: r.y1, x2: r.x2, y2: y });
                proof {
                    assert(rect_is_stack(data@, width as int, bytes_per_row as int, active@[a as int])) by {
                        assert forall|yy: int| r.y1 <= yy <= y implies is_maximal_run(
                            #[trigger] row_of(data@, width as int, bytes_per_row as int, yy),
                            Span { start: r.x1, end: r.x2 },
                        ) by {
                            if yy == y {
                                assert(Span { start: r.x1, end: r.x2 } == span);
                            } else {
                                assert(r.y1 <= yy <= r.y2);
                            }
                        }
                    }
                    assert forall|j: int| 0 <= j < k implies fresh@.contains(#[trigger] spans@[j])
                        || run_covered(active@, spans@[j], y as int) by {
                        if run_covered(before, spans@[j], y as int) {
                            let i = choose|i: int| 0 <= i < before.len() && #[trigger] holds_run(before[i], spans@[j], y as int);
                            assert(holds_run(active@[i], spans@[j], y as int));
                        }
                    }
                    assert(holds_run(active@[a as int], span, y as int));
                    assert(span_of(start[a as int]) == span);
                }
                matched = true;
            } else {
                proof {
                    if matched && span_of(start[a as int]) == span {
                        let i = choose|i: int| 0 <= i < a && span_of(#[trigger] start[i]) == span;
                        assert(span_of(start[i]) == span_of(start[a as int]));
                    }
                }
            }
            a = a + 1;
        }
        let ghost fresh_before = fresh@;
        if !matched {
            fresh.push(span);
        }
        proof {
            assert forall|j: int| 0 <= j < k + 1 implies fresh@.contains(#[trigger] spans@[j])
                || run_covered(active@, spans@[j], y as int) by {
                if j < k && fresh_before.contains(spans@[j]) {
                    let m = choose|m: int| 0 <= m < fresh_before.len() && fresh_before[m] == spans@[j];
                    assert(fresh@[m] == spans@[j]);
                } else if j == k && !matched {
                    assert(fresh@[fresh@.len() - 1] == spans@[j]);
                }
            }
            assert forall|m: int, j: int| 0 <= m < fresh@.len() && k + 1 <= j < spans@.len() implies (#[trigger] fresh@[m]).end < (#[trigger] spans@[j]).start by {
                if m < fresh_before.len() {
                    assert(fresh@[m] == fresh_before[m]);
                } else {
                    assert(fresh@[m] == spans@[k as int]);
                }
            }
            assert forall|x: int, b: int| 0 <= x < b < fresh@.len() implies (#[trigger] fresh@[x]).end < (#[trigger] fresh@[b]).start by {
                if b < fresh_before.len() {
                    assert(fresh@[x] == fresh_before[x]);
                    assert(fresh@[b] == fresh_before[b]);
                } else {
                    assert(fresh@[x] == fresh_before[x]);
                    assert(fresh@[b] == spans@[k as int]);
                }
            }
            assert forall|j: int, i: int| 0 <= j < fresh@.len() && 0 <= i < start.len() implies span_of(#[trigger] start[i]) != #[trigger] fresh@[j] by {
                if j < fresh_before.len() {
                    assert(fresh@[j] == fresh_before[j]);
                }
            }
            assert forall|i: int, j: int| 0 <= i < start.len() && 0 <= j < k + 1 && #[trigger] spans@[j] == span_of(#[trigger] start[i]) implies active@[i].y2 == y by {
            }
        }
        k = k + 1;
    }
    proof {
        assert forall|i: int| 0 <= i < active@.len() implies ((#[trigger] active@[i]).y2 == y
            <==> is_maximal_run(row, span_of(start[i]))) by {
            if active@[i].y2 == y {
                assert(rect_is_stack(data@, width as int, bytes_per_row as int, active@[i]));
                assert(active@[i].y1 <= y <= active@[i].y2);
                assert(Span { start: active@[i].x1, end: active@[i].x2 } == span_of(start[i]));
            }
            if is_maximal_run(row, span_of(start[i])) {
                lemma_runs_complete(row, spans@, span_of(start[i]));
                let j = choose|j: int| 0 <= j < spans@.len() && spans@[j] == span_of(start[i]);
                assert(spans@[j] == span_of(start[i]));
            }
        }
    }
    fresh
}

/// Moves the active rects that did not reach row `y` to `res`; gives the ones
/// that did. Both keep the order that the rects had in `active`.
fn retire(active: Vec<AlphaRect>, res: &mut Vec<AlphaRect>, y: i32) -> (kept: Vec<AlphaRect>)
    ensures
        rects_in(old(res)@ + active@, final(res)@ + kept@),
        final(res)@.len() >= old(res)@.len(),
        forall|i: int| 0 <= i < old(res)@.len() ==> #[trigger] final(res)@[i] == old(res)@[i],
        forall|i: int| old(res)@.len() <= i < final(res)@.len() ==> active@.contains(#[trigger] final(res)@[i]) && final(res)@[i].y2 != y,
        forall|i: int| 0 <= i < kept@.len() ==> active@.contains(#[trigger] kept@[i]) && kept@[i].y2 == y,
        forall|i: int| 0 <= i < active@.len() && (#[trigger] active@[i]).y2 == y ==> kept@.contains(active@[i]),
        (forall|a: int, b: int| 0 <= a < b < active@.len() ==> top_before(#[trigger] active@[a], #[trigger] active@[b])) ==> {
            &&& forall|i: int, j: int| 0 <= i < j < kept@.len() ==> top_before(#[trigger] kept@[i], #[trigger] kept@[j])
            &&& forall|i: int, j: int| old(res)@.len() <= i < j < final(res)@.len() ==> top_before(#[trigger] final(res)@[i], #[trigger] final(res)@[j])
        },
{
    let ghost res0 = res@;
    let ghost sorted = forall|a: int, b: int| 0 <= a < b < active@.len() ==> top_before(#[trigger] active@[a], #[trigger] active@[b]);
    let ghost mut last_r: int = 0;
    let ghost mut last_k: int = 0;
    let mut kept: Vec<AlphaRect> = Vec::new();
    let mut a: usize = 0;
    while a < active.len()
        invariant
            a <= active@.len(),
            sorted == forall|a: int, b: int| 0 <= a < b < active@.len() ==> top_before(#[trigger] active@[a], #[trigger] active@[b]),
            res@.len() >= res0.len(),
            forall|i: int| 0 <= i < res0.len() ==> res@[i] == res0[i],
            forall|i: int| res0.len() <= i < res@.len() ==> active@.take(a as int).contains(#[trigger] res@[i]) && res@[i].y2 != y,
            forall|i: int| 0 <= i < kept@.len() ==> active@.take(a as int).contains(#[trigger] kept@[i]) && kept@[i].y2 == y,
            forall|i: int| 0 <= i < a ==> (res@.contains(#[trigger] active@[i]) && active@[i].y2 != y)
                || (kept@.contains(active@[i]) && active@[i].y2 == y),
            res@.len() > res0.len() ==> 0 <= last_r < a && res@.last() == active@[last_r],
            kept@.len() > 0 ==> 0 <= last_k < a && kept@.last() == active@[last_k],
            sorted ==> forall|i: int, j: int| 0 <= i < j < kept@.len() ==> top_before(#[trigger] kept@[i], #[trigger] kept@[j]),
            sorted ==> forall|i: int, j: int| res0.len() <= i < j < res@.len() ==> top_before(#[trigger] res@[i], #[trigger] res@[j]),
        decreases active@.len() - a,
    {
        let r = active[a];
        let ghost res_before = res@;
        let ghost kept_before = kept@;
        if r.y2 != y {
            proof {
                if sorted && res_before.len() > res0.len() {
                    assert(top_before(active@[last_r], active@[a as int]));
                    assert forall|i: int| res0.len() <= i < res_before.len() implies top_before(#[trigger] res_before[i], r) by {
                        if i < res_before.len() - 1 {
                            assert(top_before(res_before[i], res_before[res_before.len() - 1]));
                        }
                    }
                }
                last_r = a as int;
            }
            res.push(r);
        } else {
            proof {
                if sorted && kept_before.len() > 0 {
                    assert(top_before(active@[last_k], active@[a as int]));
                    assert forall|i: int| 0 <= i < kept_before.len() implies top_before(#[trigger] kept_before[i], r) by {
                        if i < kept_before.len() - 1 {
                            assert(top_before(kept_before[i], kept_before[kept_before.len() - 1]));
                        }
                    }
                }
                last_k = a as int;
            }
            kept.push(r);
        }
        proof {
            assert(active@.take(a + 1) == active@.take(a as int).push(r));
            assert forall|i: int| res0.len() <= i < res@.len() implies active@.take(a + 1).contains(#[trigger] res@[i]) && res@[i].y2 != y by {
                if i < res_before.len() {
                    assert(res@[i] == res_before[i]);
                    let m = choose|m: int| 0 <= m < active@.take(a as int).len() && active@.take(a as int)[m] == res@[i];
                    assert(active@.take(a + 1)[m] == res@[i]);
                } else {
                    assert(active@.take(a + 1)[a as int] == res@[i]);
                }
            }
            assert forall|i: int| 0 <= i < kept@.len() implies active@.take(a + 1).contains(#[trigger] kept@[i]) && kept@[i].y2 == y by {
                if i < kept_before.len() {
                    assert(kept@[i] == kept_before[i]);
                    let m = choose|m: int| 0 <= m < active@.take(a as int).len() && active@.take(a as int)[m] == kept@[i];
                    assert(active@.take(a + 1)[m] == kept@[i]);
                } else {
                    assert(active@.take(a + 1)[a as int] == kept@[i]);
                }
            }
            assert forall|i: int| 0 <= i < a + 1 implies (res@.contains(#[trigger] active@[i]) && active@[i].y2 != y)
                || (kept@.contains(active@[i]) && active@[i].y2 == y) by {
                if i < a {
                    if res_before.contains(active@[i]) && active@[i].y2 != y {
                        let m = choose|m: int| 0 <= m < res_before.len() && res_before[m] == active@[i];
                        assert(res@[m] == active@[i]);
                    } else {
                        let m = choose|m: int| 0 <= m < kept_before.len() && kept_before[m] == active@[i];
                        assert(kept@[m] == active@[i]);
                    }
                } else if r.y2 != y {
                    assert(res@[res@.len() - 1] == active@[i]);
                } else {
                    assert(kept@[kept@.len() - 1] == active@[i]);
                }
            }
            if sorted {
                assert forall|i: int, j: int| 0 <= i < j < kept@.len() implies top_before(#[trigger] kept@[i], #[trigger] kept@[j]) by {
                    if j < kept_before.len() {
                        assert(kept@[i] == kept_before[i] && kept@[j] == kept_before[j]);
                    } else {
                        assert(kept@[i] == kept_before[i]);
                    }
                }
                assert forall|i: int, j: int| res0.len() <= i < j < res@.len() implies top_before(#[trigger] res@[i], #[trigger] res@[j]) by {
                    if j < res_before.len() {
                        assert(res@[i] == res_before[i] && res@[j] == res_before[j]);
                    } else {
                        assert(res@[i] == res_before[i]);
                    }
                }
            }
        }
        a = a + 1;
    }
    proof {
        assert(active@.take(active@.len() as int) == active@);
        let all = res@ + kept@;
        assert forall|i: int| 0 <= i < (res0 + active@).len() implies all.contains(#[trigger] (res0 + active@)[i]) by {
            if i < res0.len() {
                assert(all[i] == res0[i]);
            } else {
                let r = active@[i - res0.len()];
                assert((res0 + active@)[i] == r);
                if res@.contains(r) {
                    let m = choose|m: int| 0 <= m < res@.len() && res@[m] == r;
                    assert(all[m] == r);
                } else {
                    let m = choose|m: int| 0 <= m < kept@.len() && kept@[m] == r;
                    assert(all[res@.len() + m] == r);
                }
            }
        }
        assert forall|i: int| 0 <= i < active@.len() && (#[trigger] active@[i]).y2 == y implies kept@.contains(active@[i]) by {
            if res@.contains(active@[i]) {
                let m = choose|m: int| 0 <= m < res@.len() && res@[m] == active@[i];
                if m >= res0.len() {
                    assert(res@[m].y2 != y);
                }
            }
        }
    }
    kept
}

/// Active rects that end on the same row, cannot grow upwards and are
/// ordered by their top left corner have different runs.
proof fn lemma_active_distinct(data: Seq<u8>, width: int, bytes_per_row: int, height: int, y: int, active: Seq<AlphaRect>)
    requires
        0 <= y <= height,
        forall|i: int| 0 <= i < active.len() ==> rect_is_stack(data, width, bytes_per_row, #[trigger] active[i])
            && active[i].y2 == y - 1 && !has_run(data, width, bytes_per_row, height, active[i].y1 - 1, span_of(active[i])),
        forall|a: int, b: int| 0 <= a < b < active.len() ==> top_before(#[trigger] active[a], #[trigger] active[b]),
    ensures
        distinct_spans(active),
{
    assert forall|i: int, j: int| 0 <= i < j < active.len() implies span_of(#[trigger] active[i]) != span_of(#[trigger] active[j]) by {
        if span_of(active[i]) == span_of(active[j]) {
            assert(top_before(active[i], active[j]));
            let yy = active[j].y1 - 1;
            assert(rect_is_stack(data, width, bytes_per_row, active[i]));
            assert(rect_is_stack(data, width, bytes_per_row, active[j]));
            assert(active[i].y1 <= yy <= active[i].y2);
            assert(is_maximal_run(row_of(data, width, bytes_per_row, yy), Span { start: active[i].x1, end: active[i].x2 }));
            assert(has_run(data, width, bytes_per_row, height, yy, span_of(active[j])));
        }
    }
}

/// The rects that `rects_for_alpha` gives do not overlap: no pixel lies in two
/// of them.
pub proof fn lemma_rects_disjoint(data: Seq<u8>, width: int, bytes_per_row: int, height: int, rects: Seq<AlphaRect>)
    requires
        forall|i: int| 0 <= i < rects.len() ==> rect_is_stack(data, width, bytes_per_row, #[trigger] rects[i])
            && rects[i].y2 < height && vertically_maximal(data, width, bytes_per_row, height, rects[i]),
        forall|i: int, j: int| 0 <= i < j < rects.len() ==> rect_before(#[trigger] rects[i], #[trigger] rects[j]),
    ensures
        forall|i: int, j: int, x: int, yy: int|
            0 <= i < j < rects.len() ==> !(#[trigger] in_rect(rects[i], x, yy) && #[trigger] in_rect(rects[j], x, yy)),
{
    assert forall|i: int, j: int, x: int, yy: int|
        0 <= i < j < rects.len() implies !(#[trigger] in_rect(rects[i], x, yy) && #[trigger] in_rect(rects[j], x, yy)) by {
        if in_rect(rects[i], x, yy) && in_rect(rects[j], x, yy) {
            let a = rects[i];
            let b = rects[j];
            assert(rect_before(a, b));
            assert(rect_is_stack(data, width, bytes_per_row, a));
            assert(rect_is_stack(data, width, bytes_per_row, b));
            assert(vertically_maximal(data, width, bytes_per_row, height, a));
            assert(vertically_maximal(data, width, bytes_per_row, height, b));
            let row = row_of(data, width, bytes_per_row, yy);
            assert(is_maximal_run(row, Span { start: a.x1, end: a.x2 }));
            assert(is_maximal_run(row, Span { start: b.x1, end: b.x2 }));
            lemma_runs_overlap(row, span_of(a), span_of(b), x);
            if a.y1 < b.y1 {
                let r = b.y1 - 1;
                assert(is_maximal_run(row_of(data, width, bytes_per_row, r), Span { start: a.x1, end: a.x2 }));
                assert(has_run(data, width, bytes_per_row, height, r, span_of(b)));
            }
            if b.y1 < a.y1 {
                let r = a.y1 - 1;
                assert(is_maximal_run(row_of(data, width, bytes_per_row, r), Span { start: b.x1, end: b.x2 }));
                assert(has_run(data, width, bytes_per_row, height, r, span_of(a)));
            }
            if a.y2 < b.y2 {
                let r = a.y2 + 1;
                assert(is_maximal_run(row_of(data, width, bytes_per_row, r), Span { start: b.x1, end: b.x2 }));
                assert(has_run(data, width, bytes_per_row, height, r, span_of(a)));
            }
            if b.y2 < a.y2 {
                let r = b.y2 + 1;
                assert(is_maximal_run(row_of(data, width, bytes_per_row, r), Span { start: a.x1, end: a.x2 }));
                assert(has_run(data, width, bytes_per_row, height, r, span_of(b)));
            }
        }
    }
}

/// The rectangles that make up the opaque part of a `width` by `height` image:
/// each is a stack of rows that have the same maximal run of opaque pixels and
/// cannot grow up or down; every run of every row lies in one of them; no two
/// overlap; and they come ordered by bottom row, then top row, then from left
/// to right, which fixes the list.
pub fn rects_for_alpha(data: &[u8], width: i32, height: i32, bytes_per_row: i32) -> (rects: Vec<AlphaRect>)
    requires
        0 <= width,
        0 <= height,
        0 <= bytes_per_row,
        width > 0 && height > 0 ==> (height - 1) * bytes_per_row + width * 4 <= data@.len(),
        width > 0 && height > 0 ==> (height - 1) * bytes_per_row + (width - 1) * 4 + 3 <= i32::MAX,
    ensures
        forall|i: int|
            0 <= i < rects@.len() ==> rect_is_stack(data@, width as int, bytes_per_row as int, #[trigger] rects@[i])
                && rects@[i].y2 < height
                && vertically_maximal(data@, width as int, bytes_per_row as int, height as int, rects@[i]),
        runs_covered(data@, width as int, bytes_per_row as int, height as int, rects@),
        forall|i: int, j: int| 0 <= i < j < rects@.len() ==> rect_before(#[trigger] rects@[i], #[trigger] rects@[j]),
        forall|i: int, j: int, x: int, yy: int|
            0 <= i < j < rects@.len() ==> !(#[trigger] in_rect(rects@[i], x, yy) && #[trigger] in_rect(rects@[j], x, yy)),
{
    let ghost w = width as int;
    let ghost bpr = bytes_per_row as int;
    let ghost h = height as int;
    let mut res: Vec<AlphaRect> = Vec::new();
    let mut active: Vec<AlphaRect> = Vec::new();
    let mut y: i32 = 0;
    while y < height
        invariant
            0 <= y <= height,
            0 <= width,
            0 <= bytes_per_row,
            w == width,
            bpr == bytes_per_row,
            h == height,
            width > 0 && height > 0 ==> (height - 1) * bytes_per_row + width * 4 <= data@.len(),
            width > 0 && height > 0 ==> (height - 1) * bytes_per_row + (width - 1) * 4 + 3 <= i32::MAX,
            forall|i: int| 0 <= i < res@.len() ==> rect_is_stack(data@, w, bpr, #[trigger] res@[i]) && res@[i].y2 + 1 < y
                && vertically_maximal(data@, w, bpr, h, res@[i]),
            forall|i: int| 0 <= i < active@.len() ==> rect_is_stack(data@, w, bpr, #[trigger] active@[i]) && active@[i].y2 == y - 1
                && !has_run(data@, w, bpr, h, active@[i].y1 - 1, span_of(active@[i])),
            forall|i: int, j: int| 0 <= i < j < res@.len() ==> rect_before(#[trigger] res@[i], #[trigger] res@[j]),
            forall|i: int, j: int| 0 <= i < j < active@.len() ==> top_before(#[trigger] active@[i], #[trigger] active@[j]),
            runs_covered(data@, w, bpr, y as int, res@ + active@),
        decreases height - y,
    {
        proof {
            assert(y * bytes_per_row <= (height - 1) * bytes_per_row) by (nonlinear_arith)
                requires y < height, 0 <= bytes_per_row;
            assert(0 <= y * bytes_per_row) by (nonlinear_arith)
                requires 0 <= y, 0 <= bytes_per_row;
        }
        let spans = spans_for_line(data, width, bytes_per_row, y);
        let ghost row = row_of(data@, w, bpr, y as int);
        assert(Seq::new(width as nat, |x: int| opaque_at(data@, bytes_per_row as int, x, y as int)) == row);
        let ghost res0 = res@;
        let ghost active0 = active@;
        proof {
            lemma_active_distinct(data@, w, bpr, h, y as int, active0);
        }
        let fresh = extend_active(data, width, bytes_per_row, y, &spans, &mut active);
        proof {
            lemma_cover_grow(data@, w, bpr, y as int, res0 + active0, res@ + active@);
        }
        let ghost active1 = active@;
        proof {
            assert forall|i: int, j: int| 0 <= i < j < active1.len() implies top_before(#[trigger] active1[i], #[trigger] active1[j]) by {
                assert(top_before(active0[i], active0[j]));
            }
        }
        let mut kept = retire(active, &mut res, y);
        proof {
            lemma_cover_subset(data@, w, bpr, y as int, res0 + active1, res@ + kept@);
        }
        let ghost kept0 = kept@;
        let ghost res1 = res@;
        let mut j: usize = 0;
        while j < fresh.len()
            invariant
                j <= fresh@.len(),
                0 <= y,
                forall|i: int| 0 <= i < fresh@.len() ==> is_maximal_run(row_of(data@, w, bpr, y as int), #[trigger] fresh@[i]),
                kept@.len() == kept0.len() + j,
                forall|i: int| 0 <= i < kept0.len() ==> kept@[i] == kept0[i],
                forall|i: int| 0 <= i < j ==> #[trigger] kept@[kept0.len() + i] == (AlphaRect {
                    x1: fresh@[i].start,
                    y1: y,
                    x2: fresh@[i].end,
                    y2: y,
                }),
            decreases fresh@.len() - j,
        {
            kept.push(AlphaRect { x1: fresh[j].start, y1: y, x2: fresh[j].end, y2: y });
            j = j + 1;
        }
        proof {
            // Where a rect of `kept0` or of the new part of `res` comes from.
            assert forall|i: int| 0 <= i < kept0.len() implies #[trigger] kept0[i].y1 <= y - 1
                && !has_run(data@, w, bpr, h, kept0[i].y1 - 1, span_of(kept0[i])) by {
                let m = choose|m: int| 0 <= m < active1.len() && active1[m] == kept0[i];
                assert(active1[m].y1 == active0[m].y1);
                assert(rect_is_stack(data@, w, bpr, active0[m]));
            }
            // The rects of `res` end before row `y`, those of `kept` at row `y`.
            assert forall|i: int| 0 <= i < res@.len() implies rect_is_stack(data@, w, bpr, #[trigger] res@[i]) && res@[i].y2 + 1 < y + 1
                && vertically_maximal(data@, w, bpr, h, res@[i]) by {
                if i >= res0.len() {
                    let m = choose|m: int| 0 <= m < active1.len() && active1[m] == res@[i];
                    assert(active1[m].y2 == y - 1);
                    assert(!is_maximal_run(row_of(data@, w, bpr, y as int), span_of(active0[m])));
                    assert(span_of(active0[m]) == span_of(res@[i]));
                    assert(active1[m].y1 == active0[m].y1);
                } else {
                    assert(res@[i] == res0[i]);
                }
            }
            assert forall|i: int, k: int| 0 <= i < k < res@.len() implies rect_before(#[trigger] res@[i], #[trigger] res@[k]) by {
                if k < res0.len() {
                    assert(res@[i] == res0[i] && res@[k] == res0[k]);
                } else if i < res0.len() {
                    assert(res@[i] == res0[i]);
                    let m = choose|m: int| 0 <= m < active1.len() && active1[m] == res@[k];
                } else {
                    let m = choose|m: int| 0 <= m < active1.len() && active1[m] == res@[k];
                    let n = choose|n: int| 0 <= n < active1.len() && active1[n] == res@[i];
                    assert(top_before(res@[i], res@[k]));
                }
            }
            assert forall|i: int| 0 <= i < kept@.len() implies rect_is_stack(data@, w, bpr, #[trigger] kept@[i]) && kept@[i].y2 == y
                && !has_run(data@, w, bpr, h, kept@[i].y1 - 1, span_of(kept@[i])) by {
                if i < kept0.len() {
                    assert(kept@[i] == kept0[i]);
                    let m = choose|m: int| 0 <= m < active1.len() && active1[m] == kept0[i];
                } else {
                    let f = fresh@[i - kept0.len()];
                    assert(kept@[kept0.len() + (i - kept0.len())] == kept@[i]);
                    assert(is_maximal_run(row_of(data@, w, bpr, y as int), f));
                    assert forall|yy: int| kept@[i].y1 <= yy <= kept@[i].y2 implies is_maximal_run(
                        #[trigger] row_of(data@, w, bpr, yy),
                        Span { start: kept@[i].x1, end: kept@[i].x2 },
                    ) by {
                        assert(yy == y);
                        assert(Span { start: kept@[i].x1, end: kept@[i].x2 } == f);
                    }
                    // Nothing ended on the row above with this run, or it would have grown.
                    assert(span_of(kept@[i]) == f);
                    if has_run(data@, w, bpr, h, y - 1, f) {
                        assert(is_maximal_run(row_of(data@, w, bpr, y - 1), f));
                        assert(run_covered(res0 + active0, f, y - 1));
                        let t = choose|t: int| 0 <= t < (res0 + active0).len() && #[trigger] holds_run((res0 + active0)[t], f, y - 1);
                        if t < res0.len() {
                            assert((res0 + active0)[t] == res0[t]);
                        } else {
                            assert((res0 + active0)[t] == active0[t - res0.len()]);
                            assert(span_of(active0[t - res0.len()]) == f);
                            assert(span_of(active0[t - res0.len()]) != fresh@[i - kept0.len()]);
                        }
                    }
                }
            }
            assert forall|i: int, k: int| 0 <= i < k < kept@.len() implies top_before(#[trigger] kept@[i], #[trigger] kept@[k]) by {
                if k < kept0.len() {
                    assert(kept@[i] == kept0[i] && kept@[k] == kept0[k]);
                } else if i < kept0.len() {
                    assert(kept@[i] == kept0[i]);
                    assert(kept@[kept0.len() + (k - kept0.len())] == kept@[k]);
                } else {
                    assert(kept@[kept0.len() + (k - kept0.len())] == kept@[k]);
                    assert(kept@[kept0.len() + (i - kept0.len())] == kept@[i]);
                    assert(fresh@[i - kept0.len()].end < fresh@[k - kept0.len()].start);
                    assert(is_maximal_run(row_of(data@, w, bpr, y as int), fresh@[i - kept0.len()]));
                }
            }
            // Rows before `y` stay covered.
            let grown = res@ + kept@;
            assert(rects_in(res@ + kept0, grown)) by {
                assert forall|i: int| 0 <= i < (res@ + kept0).len() implies grown.contains(#[trigger] (res@ + kept0)[i]) by {
                    if i < res@.len() {
                        assert(grown[i] == (res@ + kept0)[i]);
                    } else {
                        assert(grown[i] == kept@[i - res@.len()]);
                        assert(kept@[i - res@.len()] == kept0[i - res@.len()]);
                    }
                }
            }
            lemma_cover_subset(data@, w, bpr, y as int, res@ + kept0, grown);
            // Row `y` is covered too.
            assert forall|yy: int, sp: Span|
                0 <= yy < y + 1 && #[trigger] is_maximal_run(row_of(data@, w, bpr, yy), sp)
                implies run_covered(grown, sp, yy) by {
                if yy == y {
                    lemma_runs_complete(row, spans@, sp);
                    let k = choose|k: int| 0 <= k < spans@.len() && spans@[k] == sp;
                    if fresh@.contains(spans@[k]) {
                        let m = choose|m: int| 0 <= m < fresh@.len() && fresh@[m] == sp;
                        assert(kept@[kept0.len() + m] == (AlphaRect { x1: fresh@[m].start, y1: y, x2: fresh@[m].end, y2: y }));
                        assert(holds_run(grown[res@.len() + kept0.len() + m], sp, yy));
                    } else {
                        assert(run_covered(active1, sp, y as int));
                        let i = choose|i: int| 0 <= i < active1.len() && #[trigger] holds_run(active1[i], sp, y as int);
                        assert(active1[i].y2 == y);
                        assert(kept0.contains(active1[i]));
                        let m = choose|m: int| 0 <= m < kept0.len() && kept0[m] == active1[i];
                        assert(kept@[m] == active1[i]);
                        assert(holds_run(grown[res@.len() + m], sp, yy));
                    }
                }
            }
        }
        active = kept;
        y = y + 1;
    }
    let ghost res_final = res@;
    let mut all = res;
    let mut a: usize = 0;
    while a < active.len()
        invariant
            a <= active@.len(),
            all@ == res_final + active@.take(a as int),
        decreases active@.len() - a,
    {
        all.push(active[a]);
        proof {
            assert(active@.take(a + 1) == active@.take(a as int).push(active@[a as int]));
        }
        a = a + 1;
    }
    proof {
        assert(active@.take(active@.len() as int) == active@);
        assert(all@ == res_final + active@);
        assert forall|i: int| 0 <= i < all@.len() implies rect_is_stack(data@, w, bpr, #[trigger] all@[i]) && all@[i].y2 < height
            && vertically_maximal(data@, w, bpr, h, all@[i]) by {
            if i >= res_final.len() {
                assert(all@[i] == active@[i - res_final.len()]);
            } else {
                assert(all@[i] == res_final[i]);
            }
        }
        assert forall|i: int, j: int| 0 <= i < j < all@.len() implies rect_before(#[trigger] all@[i], #[trigger] all@[j]) by {
            if j < res_final.len() {
                assert(all@[i] == res_final[i] && all@[j] == res_final[j]);
            } else if i < res_final.len() {
                assert(all@[i] == res_final[i] && all@[j] == active@[j - res_final.len()]);
            } else {
                assert(all@[i] == active@[i - res_final.len()] && all@[j] == active@[j - res_final.len()]);
            }
        }
        lemma_rects_disjoint(data@, w, bpr, h, all@);
    }
    all
}

} // verus!
