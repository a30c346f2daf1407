//! Plot definitions and the shaping of time series. Values are held by the bits
//! of their IEEE 754 binary64 form and compared by them.

use vstd::prelude::*;
use vstd::slice::slice_subrange;
use crate::{text, time, value};

verus! {

/// A named plot: one or more series drawn together on the same axes.
pub struct PlotDef {
    pub name: String,
    pub series: Vec<SeriesDef>,
    /// Whether mark lines/labels are drawn on this plot.
    pub show_marks: bool,
}

/// One series: values of `field` from messages matching `sysid:compid` (any
/// side that is `None` matches anything) and `msg_type`, plotted against
/// time.
pub struct SeriesDef {
    pub sysid: Option<u8>,
    pub compid: Option<u8>,
    pub msg_type: String,
    pub field: String,
    /// Optional user-chosen legend name; falls back to a `type.field` label
    /// when unset.
    pub name: Option<String>,
    /// Optional measurement unit (e.g. "m/s"). Series sharing a unit share a
    /// single Y axis; different units get their own axis (matplotlib twinx
    /// style).
    pub unit: Option<String>,
}

/// What a plot holds.
#[verifier::ext_equal]
pub struct PlotView {
    pub name: Seq<char>,
    pub series: Seq<SeriesView>,
    pub show_marks: bool,
}

/// What a series holds.
#[verifier::ext_equal]
pub struct SeriesView {
    pub sysid: Option<u8>,
    pub compid: Option<u8>,
    pub msg_type: Seq<char>,
    pub field: Seq<char>,
    pub name: Option<Seq<char>>,
    pub unit: Option<Seq<char>>,
}

impl View for SeriesDef {
    type V = SeriesView;

    open spec fn view(&self) -> SeriesView {
        SeriesView {
            sysid: self.sysid,
            compid: self.compid,
            msg_type: self.msg_type@,
            field: self.field@,
            name: value::text_of(self.name),
            unit: value::text_of(self.unit),
        }
    }
}

/// What the series of a list hold.
pub open spec fn series_views(series: Seq<SeriesDef>) -> Seq<SeriesView> {
    series.map_values(|s: SeriesDef| s@)
}

impl View for PlotDef {
    type V = PlotView;

    open spec fn view(&self) -> PlotView {
        PlotView {
            name: self.name@,
            series: series_views(self.series@),
            show_marks: self.show_marks,
        }
    }
}

/// What the plots of a list hold.
pub open spec fn plot_views(plots: Seq<PlotDef>) -> Seq<PlotView> {
    plots.map_values(|p: PlotDef| p@)
}

/// A plot that was saved without the flag shows its marks.
pub fn default_true() -> (r: bool)
    ensures
        r,
{
    true
}

/// Whether two optional strings are equal.
fn same_text(a: &Option<String>, b: &Option<String>) -> (r: bool)
    ensures
        r == (value::text_of(*a) == value::text_of(*b)),
{
    match (a, b) {
        (Some(x), Some(y)) => text::same_str(x.as_str(), y.as_str()),
        (None, None) => true,
        _ => false,
    }
}

/// A copy of an optional string.
pub fn copied_text(a: &Option<String>) -> (r: Option<String>)
    ensures
        value::text_of(r) == value::text_of(*a),
{
    match a {
        Some(x) => Some(x.clone()),
        None => None,
    }
}

impl SeriesDef {
    /// A copy of the series.
    pub fn copied(&self) -> (r: SeriesDef)
        ensures
            r@ == self@,
    {
        SeriesDef {
            sysid: self.sysid,
            compid: self.compid,
            msg_type: self.msg_type.clone(),
            field: self.field.clone(),
            name: copied_text(&self.name),
            unit: copied_text(&self.unit),
        }
    }

    /// Whether two series are the same.
    pub fn same(&self, other: &SeriesDef) -> (r: bool)
        ensures
            r == (self@ == other@),
    {
        self.sysid == other.sysid && self.compid == other.compid && text::same_str(
            self.msg_type.as_str(),
            other.msg_type.as_str(),
        ) && text::same_str(self.field.as_str(), other.field.as_str()) && same_text(
            &self.name,
            &other.name,
        ) && same_text(&self.unit, &other.unit)
    }
}

/// A copy of a list of series.
pub fn copied_series(series: &[SeriesDef]) -> (r: Vec<SeriesDef>)
    ensures
        series_views(r@) == series_views(series@),
{
    let mut r: Vec<SeriesDef> = Vec::new();
    let ghost all = series_views(series@);
    let mut i: usize = 0;
    while i < series.len()
        invariant
            i <= series.len(),
            all == series_views(series@),
            series_views(r@) =~= all.take(i as int),
        decreases series.len() - i,
    {
        let s = series[i].copied();
        let ghost before = r@;
        r.push(s);
        i += 1;
        assert(series_views(r@) =~= series_views(before).push(s@));
        assert(all.take(i as int) =~= all.take(i - 1).push(all[i - 1]));
    }
    assert(all.take(i as int) =~= all);
    r
}

/// Whether two lists of series are the same.
fn same_series(a: &[SeriesDef], b: &[SeriesDef]) -> (r: bool)
    ensures
        r == (series_views(a@) == series_views(b@)),
{
    if a.len() != b.len() {
        assert(series_views(a@).len() != series_views(b@).len());
        return false;
    }
    let mut i: usize = 0;
    while i < a.len()
        invariant
            i <= a.len(),
            a@.len() == b@.len(),
            forall|k: int| 0 <= k < i ==> (#[trigger] a@[k])@ == b@[k]@,
        decreases a.len() - i,
    {
        if !a[i].same(&b[i]) {
            assert(series_views(a@)[i as int] != series_views(b@)[i as int]);
            return false;
        }
        i += 1;
    }
    assert(series_views(a@) =~= series_views(b@));
    true
}

impl PlotDef {
    /// A copy of the plot.
    pub fn copied(&self) -> (r: PlotDef)
        ensures
            r@ == self@,
    {
        PlotDef {
            name: self.name.clone(),
            series: copied_series(&self.series),
            show_marks: self.show_marks,
        }
    }

    /// Whether two plots are the same.
    pub fn same(&self, other: &PlotDef) -> (r: bool)
        ensures
            r == (self@ == other@),
    {
        text::same_str(self.name.as_str(), other.name.as_str()) && same_series(
            &self.series,
            &other.series,
        ) && self.show_marks == other.show_marks
    }
}

/// A copy of a list of plots.
pub fn copied_plots(plots: &[PlotDef]) -> (r: Vec<PlotDef>)
    ensures
        plot_views(r@) == plot_views(plots@),
{
    let mut r: Vec<PlotDef> = Vec::new();
    let ghost all = plot_views(plots@);
    let mut i: usize = 0;
    while i < plots.len()
        invariant
            i <= plots.len(),
            all == plot_views(plots@),
            plot_views(r@) =~= all.take(i as int),
        decreases plots.len() - i,
    {
        let p = plots[i].copied();
        let ghost before = r@;
        r.push(p);
        i += 1;
        assert(plot_views(r@) =~= plot_views(before).push(p@));
        assert(all.take(i as int) =~= all.take(i - 1).push(all[i - 1]));
    }
    assert(all.take(i as int) =~= all);
    r
}

/// Whether two lists of plots are the same.
pub fn same_plots(a: &[PlotDef], b: &[PlotDef]) -> (r: bool)
    ensures
        r == (plot_views(a@) == plot_views(b@)),
{
    if a.len() != b.len() {
        assert(plot_views(a@).len() != plot_views(b@).len());
        return false;
    }
    let mut i: usize = 0;
    while i < a.len()
        invariant
            i <= a.len(),
            a@.len() == b@.len(),
            forall|k: int| 0 <= k < i ==> (#[trigger] a@[k])@ == b@[k]@,
        decreases a.len() - i,
    {
        if !a[i].same(&b[i]) {
            assert(plot_views(a@)[i as int] != plot_views(b@)[i as int]);
            return false;
        }
        i += 1;
    }
    assert(plot_views(a@) =~= plot_views(b@));
    true
}

/// Above this many extracted points, a series is min/max-bucket decimated so
/// plotting stays responsive.
pub const DECIMATE_ABOVE: usize = 200_000;

/// The bits of positive infinity.
pub const INFINITY: u64 = 0x7FF0_0000_0000_0000;

/// The bits of negative infinity.
pub const NEG_INFINITY: u64 = 0xFFF0_0000_0000_0000;

/// The bits of the magnitude of a binary64 value.
pub open spec fn magnitude(bits: u64) -> int {
    if bits < 0x8000_0000_0000_0000 {
        bits as int
    } else {
        bits - 0x8000_0000_0000_0000
    }
}

/// Whether the bits are those of a number, infinities included.
pub open spec fn is_number(bits: u64) -> bool {
    magnitude(bits) <= INFINITY
}

/// Whether the bits are those of a finite number.
pub open spec fn is_finite(bits: u64) -> bool {
    magnitude(bits) < INFINITY
}

/// An integer that orders numbers as their values do: magnitudes grow with
/// their bits, and both zeros are zero.
pub open spec fn rank(bits: u64) -> int {
    if bits < 0x8000_0000_0000_0000 {
        magnitude(bits)
    } else {
        -magnitude(bits)
    }
}

/// Whether the first value is a smaller number than the second.
pub open spec fn less(a: u64, b: u64) -> bool {
    is_number(a) && is_number(b) && rank(a) < rank(b)
}

/// One extracted point: a time and the bits of a value.
#[derive(Clone, Copy, Debug, PartialEq, Eq, Structural)]
pub struct Point {
    pub timestamp_us: u64,
    pub value: u64,
}

/// Whether a point stands left of another or on the same place, the times taken
/// as binary64 numbers.
pub open spec fn not_right_of(a: Point, b: Point) -> bool {
    time::double_of(a.timestamp_us as nat) <= time::double_of(b.timestamp_us as nat)
}

/// The first point with the smallest value.
pub open spec fn lowest(points: Seq<Point>) -> Point
    decreases points.len(),
{
    if points.len() <= 1 {
        points[0]
    } else if less(points.last().value, lowest(points.drop_last()).value) {
        points.last()
    } else {
        lowest(points.drop_last())
    }
}

/// The first point with the greatest value.
pub open spec fn highest(points: Seq<Point>) -> Point
    decreases points.len(),
{
    if points.len() <= 1 {
        points[0]
    } else if less(highest(points.drop_last()).value, points.last().value) {
        points.last()
    } else {
        highest(points.drop_last())
    }
}

/// What is kept of a bucket: its lowest and its highest point, ordered by time.
pub open spec fn extremes(bucket: Seq<Point>) -> Seq<Point> {
    let lo = lowest(bucket);
    let hi = highest(bucket);
    if not_right_of(lo, hi) {
        seq![lo, hi]
    } else {
        seq![hi, lo]
    }
}

/// What is kept of the buckets of `size` points from `from` on.
pub open spec fn kept(points: Seq<Point>, from: int, size: int) -> Seq<Point>
    decreases points.len() - from,
{
    if size <= 0 || from >= points.len() {
        seq![]
    } else {
        let end = if from + size <= points.len() {
            from + size
        } else {
            points.len() as int
        };
        extremes(points.subrange(from, end)) + kept(points, end, size)
    }
}

/// The number of points in a bucket, for a series that is decimated.
pub open spec fn bucket_size(len: int) -> int {
    (len + 99_999) / 100_000
}

/// A series after decimation.
pub open spec fn decimated(points: Seq<Point>) -> Seq<Point> {
    if points.len() <= DECIMATE_ABOVE {
        points
    } else {
        kept(points, 0, bucket_size(points.len() as int))
    }
}

/// Whether the bits are those of a number.
fn number(bits: u64) -> (r: bool)
    ensures
        r == is_number(bits),
{
    if bits < 0x8000_0000_0000_0000 {
        bits <= INFINITY
    } else {
        bits - 0x8000_0000_0000_0000 <= INFINITY
    }
}

/// Whether the bits are those of a finite number.
pub fn finite(bits: u64) -> (r: bool)
    ensures
        r == is_finite(bits),
{
    if bits < 0x8000_0000_0000_0000 {
        bits < INFINITY
    } else {
        bits - 0x8000_0000_0000_0000 < INFINITY
    }
}

/// Whether the first value is a smaller number than the second.
pub fn smaller(a: u64, b: u64) -> (r: bool)
    ensures
        r == less(a, b),
{
    let sign: u64 = 0x8000_0000_0000_0000;
    if !number(a) || !number(b) {
        return false;
    }
    if a < sign {
        b < sign && a < b
    } else if b < sign {
        // Zeros of either sign are equal.
        a != sign || b != 0
    } else {
        a > b
    }
}

/// What is kept of a bucket.
fn bucket_extremes(bucket: &[Point]) -> (r: (Point, Point))
    requires
        bucket@.len() > 0,
    ensures
        seq![r.0, r.1] == extremes(bucket@),
{
    let mut lo: Point = bucket[0];
    let mut hi: Point = bucket[0];
    let mut i: usize = 1;
    assert(bucket@.take(1)[0] == bucket@[0]);
    while i < bucket.len()
        invariant
            1 <= i <= bucket.len(),
            lo == lowest(bucket@.take(i as int)),
            hi == highest(bucket@.take(i as int)),
        decreases bucket.len() - i,
    {
        let p = bucket[i];
        if smaller(p.value, lo.value) {
            lo = p;
        }
        if smaller(hi.value, p.value) {
            hi = p;
        }
        i += 1;
        assert(bucket@.take(i as int).drop_last() =~= bucket@.take(i - 1));
        assert(bucket@.take(i as int).last() == p);
    }
    assert(bucket@.take(i as int) =~= bucket@);
    if time::to_double(lo.timestamp_us) <= time::to_double(hi.timestamp_us) {
        (lo, hi)
    } else {
        (hi, lo)
    }
}

/// Reduce `points` to at most `DECIMATE_ABOVE` points by splitting into
/// equal-size buckets and keeping each bucket's min and max (by value),
/// preserving spikes that plain downsampling would smooth away.
pub fn decimate(points: Vec<Point>) -> (r: Vec<Point>)
    ensures
        r@ == decimated(points@),
{
    if points.len() <= DECIMATE_ABOVE {
        return points;
    }
    let size: usize = points.len() / 100_000 + if points.len() % 100_000 == 0 {
        0
    } else {
        1
    };
    let mut out: Vec<Point> = Vec::new();
    let mut from: usize = 0;
    assert(out@ + kept(points@, 0, size as int) =~= kept(points@, 0, size as int));
    while from < points.len()
        invariant
            from <= points.len(),
            size > 0,
            out@ + kept(points@, from as int, size as int) == kept(points@, 0, size as int),
        decreases points.len() - from,
    {
        let end: usize = if points.len() - from >= size {
            from + size
        } else {
            points.len()
        };
        let ghost before = out@;
        let pair = bucket_extremes(slice_subrange(&points, from, end));
        out.push(pair.0);
        out.push(pair.1);
        proof {
            assert(out@ =~= before + seq![pair.0, pair.1]);
            assert(out@ + kept(points@, end as int, size as int) =~= before + kept(
                points@,
                from as int,
                size as int,
            ));
        }
        from = end;
    }
    assert(out@ + kept(points@, from as int, size as int) =~= out@);
    out
}

/// The lowest and highest points of a bucket belong to it, and no value of the
/// bucket lies outside them.
proof fn lemma_bucket(bucket: Seq<Point>)
    requires
        bucket.len() > 0,
    ensures
        bucket.contains(lowest(bucket)),
        bucket.contains(highest(bucket)),
        forall|i: int|
            0 <= i < bucket.len() && is_number(bucket[0].value) ==> !less(
                (#[trigger] bucket[i]).value,
                lowest(bucket).value,
            ) && !less(highest(bucket).value, bucket[i].value),
        is_number(bucket[0].value) ==> is_number(lowest(bucket).value) && is_number(
            highest(bucket).value,
        ),
    decreases bucket.len(),
{
    if bucket.len() > 1 {
        let front = bucket.drop_last();
        lemma_bucket(front);
        let a = choose|a: int| 0 <= a < front.len() && front[a] == lowest(front);
        let b = choose|b: int| 0 <= b < front.len() && front[b] == highest(front);
        assert(bucket[a] == front[a] && bucket[b] == front[b]);
        assert(bucket[bucket.len() - 1] == bucket.last());
        assert(front[0] == bucket[0]);
        assert forall|i: int| 0 <= i < bucket.len() && is_number(bucket[0].value) implies !less(
            (#[trigger] bucket[i]).value,
            lowest(bucket).value,
        ) && !less(highest(bucket).value, bucket[i].value) by {
            if i < front.len() {
                assert(front[i] == bucket[i]);
            }
        }
    } else {
        assert(bucket[0] == lowest(bucket));
    }
}

/// Whether some point is not below the given value.
#[verifier::opaque]
pub open spec fn reaches_up(points: Seq<Point>, v: u64) -> bool {
    exists|k: int| 0 <= k < points.len() && !less((#[trigger] points[k]).value, v)
}

/// Whether some point is not above the given value.
#[verifier::opaque]
pub open spec fn reaches_down(points: Seq<Point>, v: u64) -> bool {
    exists|k: int| 0 <= k < points.len() && !less(v, (#[trigger] points[k]).value)
}

/// What reaches a value still does with more points on either side.
proof fn lemma_reaches(a: Seq<Point>, b: Seq<Point>, v: u64)
    ensures
        reaches_up(a, v) || reaches_up(b, v) ==> reaches_up(a + b, v),
        reaches_down(a, v) || reaches_down(b, v) ==> reaches_down(a + b, v),
{
    reveal(reaches_up);
    reveal(reaches_down);
    let all = a + b;
    if reaches_up(a, v) {
        let k = choose|k: int| 0 <= k < a.len() && !less((#[trigger] a[k]).value, v);
        assert(all[k] == a[k]);
    }
    if reaches_up(b, v) {
        let k = choose|k: int| 0 <= k < b.len() && !less((#[trigger] b[k]).value, v);
        assert(all[k + a.len()] == b[k]);
    }
    if reaches_down(a, v) {
        let k = choose|k: int| 0 <= k < a.len() && !less(v, (#[trigger] a[k]).value);
        assert(all[k] == a[k]);
    }
    if reaches_down(b, v) {
        let k = choose|k: int| 0 <= k < b.len() && !less(v, (#[trigger] b[k]).value);
        assert(all[k + a.len()] == b[k]);
    }
}

/// What is kept of a bucket belongs to it and reaches every value in it.
proof fn lemma_extremes(bucket: Seq<Point>)
    requires
        bucket.len() > 0,
        is_number(bucket[0].value),
    ensures
        extremes(bucket).len() == 2,
        forall|k: int| 0 <= k < 2 ==> bucket.contains(#[trigger] extremes(bucket)[k]),
        forall|i: int|
            0 <= i < bucket.len() ==> reaches_up(extremes(bucket), (#[trigger] bucket[i]).value)
                && reaches_down(extremes(bucket), bucket[i].value),
{
    lemma_bucket(bucket);
    let pair = extremes(bucket);
    let lo = lowest(bucket);
    let hi = highest(bucket);
    reveal(reaches_up);
    reveal(reaches_down);
    assert forall|i: int| 0 <= i < bucket.len() implies reaches_up(
        pair,
        (#[trigger] bucket[i]).value,
    ) && reaches_down(pair, bucket[i].value) by {
        if not_right_of(lo, hi) {
            assert(!less(pair[1].value, bucket[i].value));
            assert(!less(bucket[i].value, pair[0].value));
        } else {
            assert(!less(pair[0].value, bucket[i].value));
            assert(!less(bucket[i].value, pair[1].value));
        }
    }
}

/// The length of what is kept, where it comes from, and that it reaches every
/// value.
proof fn lemma_kept(points: Seq<Point>, from: int, size: int)
    requires
        0 <= from <= points.len(),
        size > 0,
        forall|i: int| 0 <= i < points.len() ==> is_number((#[trigger] points[i]).value),
    ensures
        kept(points, from, size).len() * size <= 2 * (points.len() - from + size - 1),
        kept(points, from, size).len() % 2 == 0,
        forall|k: int|
            0 <= k < kept(points, from, size).len() ==> points.contains(
                #[trigger] kept(points, from, size)[k],
            ),
        forall|i: int|
            from <= i < points.len() ==> reaches_up(
                kept(points, from, size),
                (#[trigger] points[i]).value,
            ) && reaches_down(kept(points, from, size), points[i].value),
    decreases points.len() - from,
{
    let all = kept(points, from, size);
    if from < points.len() {
        let end = if from + size <= points.len() {
            from + size
        } else {
            points.len() as int
        };
        let bucket = points.subrange(from, end);
        let pair = extremes(bucket);
        let rest = kept(points, end, size);
        lemma_kept(points, end, size);
        assert(bucket[0] == points[from]);
        lemma_extremes(bucket);
        assert(all =~= pair + rest);
        assert(all.len() * size <= 2 * (points.len() - from + size - 1)) by {
            assert(all.len() * size == rest.len() * size + 2 * size) by (nonlinear_arith)
                requires
                    all.len() == rest.len() + 2,
            ;
            if from + size > points.len() {
                assert(rest.len() == 0);
                assert(rest.len() * size == 0) by (nonlinear_arith)
                    requires
                        rest.len() == 0,
                ;
            }
        }
        assert forall|k: int| 0 <= k < all.len() implies points.contains(#[trigger] all[k]) by {
            if k >= 2 {
                assert(all[k] == rest[k - 2]);
            } else {
                assert(bucket.contains(pair[k]));
                let j = choose|j: int| 0 <= j < bucket.len() && bucket[j] == pair[k];
                assert(points[from + j] == all[k]);
            }
        }
        assert forall|i: int| from <= i < points.len() implies reaches_up(
            all,
            (#[trigger] points[i]).value,
        ) && reaches_down(all, points[i].value) by {
            lemma_reaches(pair, rest, points[i].value);
            if i < end {
                assert(bucket[i - from] == points[i]);
            }
        }
    }
}

/// Whether no point stands right of one behind it.
pub open spec fn in_time_order(points: Seq<Point>) -> bool {
    forall|i: int, j: int|
        0 <= i < j < points.len() ==> not_right_of(#[trigger] points[i], #[trigger] points[j])
}

/// What is kept of points in the order of time comes in the order of time, and
/// none of it stands left of where it was taken from.
proof fn lemma_kept_in_order(points: Seq<Point>, from: int, size: int)
    requires
        0 <= from <= points.len(),
        size > 0,
        in_time_order(points),
    ensures
        from < points.len() ==> kept(points, from, size).len() > 0,
        in_time_order(kept(points, from, size)),
        forall|i: int, k: int|
            0 <= i < from && 0 <= k < kept(points, from, size).len() ==> not_right_of(
                #[trigger] points[i],
                #[trigger] kept(points, from, size)[k],
            ),
    decreases points.len() - from,
{
    let all = kept(points, from, size);
    if from < points.len() {
        let end = if from + size <= points.len() {
            from + size
        } else {
            points.len() as int
        };
        let bucket = points.subrange(from, end);
        let pair = extremes(bucket);
        let rest = kept(points, end, size);
        lemma_kept_in_order(points, end, size);
        lemma_bucket(bucket);
        assert(all =~= pair + rest);
        let a = choose|a: int| 0 <= a < bucket.len() && bucket[a] == lowest(bucket);
        let b = choose|b: int| 0 <= b < bucket.len() && bucket[b] == highest(bucket);
        let (x, y) = if not_right_of(lowest(bucket), highest(bucket)) {
            (from + a, from + b)
        } else {
            (from + b, from + a)
        };
        assert(points[x] == all[0] && points[y] == all[1]);
        assert forall|i: int, k: int| 0 <= i < from && 0 <= k < all.len() implies not_right_of(
            #[trigger] points[i],
            #[trigger] all[k],
        ) by {
            if k == 0 {
                assert(not_right_of(points[i], points[x]));
            } else if k == 1 {
                assert(not_right_of(points[i], points[y]));
            } else {
                assert(all[k] == rest[k - 2]);
                assert(not_right_of(points[i], rest[k - 2]));
            }
        }
        assert forall|i: int, j: int| 0 <= i < j < all.len() implies not_right_of(
            #[trigger] all[i],
            #[trigger] all[j],
        ) by {
            if i >= 2 {
                assert(all[i] == rest[i - 2] && all[j] == rest[j - 2]);
                assert(not_right_of(rest[i - 2], rest[j - 2]));
            } else if j >= 2 {
                assert(all[j] == rest[j - 2]);
                assert(not_right_of(points[x], rest[j - 2]));
                assert(not_right_of(points[y], rest[j - 2]));
            }
        }
    }
}

/// Decimation leaves points of a series that has any, and keeps them in the
/// order of time.
pub proof fn law_decimation_keeps_order(points: Seq<Point>)
    requires
        in_time_order(points),
    ensures
        points.len() > 0 ==> decimated(points).len() > 0,
        in_time_order(decimated(points)),
{
    if points.len() > DECIMATE_ABOVE {
        lemma_kept_in_order(points, 0, bucket_size(points.len() as int));
    }
}

/// Decimation keeps at most `DECIMATE_ABOVE` points, all of them points of the
/// series, at least one where there is one, and no value of the series lies
/// above or below everything kept.
pub proof fn law_decimation_keeps_extremes(points: Seq<Point>)
    requires
        forall|i: int| 0 <= i < points.len() ==> is_number((#[trigger] points[i]).value),
    ensures
        decimated(points).len() <= DECIMATE_ABOVE,
        points.len() > 0 ==> decimated(points).len() > 0,
        forall|k: int|
            0 <= k < decimated(points).len() ==> points.contains(#[trigger] decimated(points)[k]),
        forall|i: int|
            0 <= i < points.len() ==> reaches_up(decimated(points), (#[trigger] points[i]).value)
                && reaches_down(decimated(points), points[i].value),
{
    if points.len() > DECIMATE_ABOVE {
        let n = points.len() as int;
        let size = bucket_size(n);
        lemma_kept(points, 0, size);
        let m = decimated(points).len() as int;
        assert(reaches_up(decimated(points), points[0].value));
        assert(m > 0) by {
            reveal(reaches_up);
        }
        assert(n <= 100_000 * size);
        assert(m < 200_002) by (nonlinear_arith)
            requires
                m * size <= 2 * (n + size - 1),
                n <= 100_000 * size,
                size > 0,
        ;
    } else {
        assert forall|i: int| 0 <= i < points.len() implies reaches_up(
            points,
            (#[trigger] points[i]).value,
        ) && reaches_down(points, points[i].value) by {
            reveal(reaches_up);
            reveal(reaches_down);
            assert(!less(points[i].value, points[i].value));
        }
        assert forall|k: int| 0 <= k < points.len() implies points.contains(
            #[trigger] decimated(points)[k],
        ) by {
            assert(points[k] == decimated(points)[k]);
        }
    }
}

/// A series' extracted points plus its value range, computed once at extraction
/// time so that axes can be grouped by unit without rescanning. The range is
/// from `INFINITY` to `NEG_INFINITY` for an empty series (no finite range).
pub struct SeriesData {
    pub points: Vec<Point>,
    pub y_min: u64,
    pub y_max: u64,
}

/// What extracted data hold.
#[verifier::ext_equal]
pub struct DataView {
    pub points: Seq<Point>,
    pub y_min: u64,
    pub y_max: u64,
}

impl View for SeriesData {
    type V = DataView;

    open spec fn view(&self) -> DataView {
        DataView { points: self.points@, y_min: self.y_min, y_max: self.y_max }
    }
}

/// The points of the samples that have a value.
pub open spec fn with_values(samples: Seq<(u64, Option<u64>)>) -> Seq<Point>
    decreases samples.len(),
{
    if samples.len() == 0 {
        seq![]
    } else {
        match samples.last().1 {
            Some(value) => with_values(samples.drop_last()).push(
                Point { timestamp_us: samples.last().0, value },
            ),
            None => with_values(samples.drop_last()),
        }
    }
}

/// The smaller of two values, the first unless the second is smaller.
pub open spec fn min_of(a: u64, b: u64) -> u64 {
    if less(b, a) {
        b
    } else {
        a
    }
}

/// The greater of two values, the first unless the second is greater.
pub open spec fn max_of(a: u64, b: u64) -> u64 {
    if less(a, b) {
        b
    } else {
        a
    }
}

/// The smallest finite value, or `INFINITY`.
pub open spec fn low_of(points: Seq<Point>) -> u64
    decreases points.len(),
{
    if points.len() == 0 {
        INFINITY
    } else if is_finite(points.last().value) {
        min_of(low_of(points.drop_last()), points.last().value)
    } else {
        low_of(points.drop_last())
    }
}

/// The greatest finite value, or `NEG_INFINITY`.
pub open spec fn high_of(points: Seq<Point>) -> u64
    decreases points.len(),
{
    if points.len() == 0 {
        NEG_INFINITY
    } else if is_finite(points.last().value) {
        max_of(high_of(points.drop_last()), points.last().value)
    } else {
        high_of(points.drop_last())
    }
}

/// What is plotted for the samples of a series.
pub open spec fn data_of(samples: Seq<(u64, Option<u64>)>) -> DataView {
    let points = decimated(with_values(samples));
    DataView { points, y_min: low_of(points), y_max: high_of(points) }
}

/// The data plotted for a series: the samples that have a value, decimated, and
/// their range.
pub fn series_data(samples: &[(u64, Option<u64>)]) -> (r: SeriesData)
    ensures
        r@ == data_of(samples@),
{
    let mut points: Vec<Point> = Vec::new();
    let mut i: usize = 0;
    assert(samples@.take(0) =~= seq![]);
    while i < samples.len()
        invariant
            i <= samples.len(),
            points@ == with_values(samples@.take(i as int)),
        decreases samples.len() - i,
    {
        let s = samples[i];
        if let Some(value) = s.1 {
            points.push(Point { timestamp_us: s.0, value });
        }
        i += 1;
        assert(samples@.take(i as int).drop_last() =~= samples@.take(i - 1));
        assert(samples@.take(i as int).last() == s);
    }
    assert(samples@.take(i as int) =~= samples@);
    let points = decimate(points);
    let mut y_min: u64 = INFINITY;
    let mut y_max: u64 = NEG_INFINITY;
    let mut j: usize = 0;
    assert(points@.take(0) =~= seq![]);
    while j < points.len()
        invariant
            j <= points.len(),
            y_min == low_of(points@.take(j as int)),
            y_max == high_of(points@.take(j as int)),
        decreases points.len() - j,
    {
        let p = points[j];
        if finite(p.value) {
            if smaller(p.value, y_min) {
                y_min = p.value;
            }
            if smaller(y_max, p.value) {
                y_max = p.value;
            }
        }
        j += 1;
        assert(points@.take(j as int).drop_last() =~= points@.take(j - 1));
        assert(points@.take(j as int).last() == p);
    }
    assert(points@.take(j as int) =~= points@);
    SeriesData { points, y_min, y_max }
}

/// The value range of a group and that of the primary group onto which it is
/// drawn.
#[derive(Clone, Copy, Debug)]
pub struct AxisMap {
    pub primary: (u64, u64),
    pub own: (u64, u64),
}

/// One Y axis shared by every series carrying the same `unit`. Non-primary
/// groups are drawn rescaled into the primary group's coordinate space, so a
/// single plot transform can host several units at once. `map` tells the two
/// ranges; without it the group is drawn as it is, like the primary (first)
/// group always is.
pub struct AxisGroup {
    pub unit: Option<String>,
    /// Indices into the plot's series, in first-appearance order.
    pub series: Vec<usize>,
    pub map: Option<AxisMap>,
}

/// What an axis group holds.
#[verifier::ext_equal]
pub struct GroupView {
    pub unit: Option<Seq<char>>,
    pub series: Seq<usize>,
    pub map: Option<AxisMap>,
}

impl View for AxisGroup {
    type V = GroupView;

    open spec fn view(&self) -> GroupView {
        GroupView { unit: value::text_of(self.unit), series: self.series@, map: self.map }
    }
}

/// What the axis groups of a list hold.
pub open spec fn group_views(groups: Seq<AxisGroup>) -> Seq<GroupView> {
    groups.map_values(|g: AxisGroup| g@)
}

/// What the data of a list hold.
pub open spec fn data_views(data: Seq<SeriesData>) -> Seq<DataView> {
    data.map_values(|d: SeriesData| d@)
}

/// A unit without the whitespace around it; a blank one is none.
pub open spec fn unit_key(unit: Option<Seq<char>>) -> Option<Seq<char>> {
    match unit {
        Some(u) => if text::trim(u).len() > 0 {
            Some(text::trim(u))
        } else {
            None
        },
        None => None,
    }
}

/// Position of the first group with the given unit, or the number of groups.
pub open spec fn group_index(groups: Seq<GroupView>, unit: Option<Seq<char>>) -> int
    decreases groups.len(),
{
    if groups.len() == 0 || groups[0].unit == unit {
        0
    } else {
        1 + group_index(groups.drop_first(), unit)
    }
}

/// The groups with one more series: in the group of its unit, or in a new one.
pub open spec fn grouped(groups: Seq<GroupView>, unit: Option<Seq<char>>, i: usize) -> Seq<
    GroupView,
> {
    let g = group_index(groups, unit);
    if 0 <= g < groups.len() {
        groups.update(g, GroupView { series: groups[g].series.push(i), ..groups[g] })
    } else {
        groups.push(GroupView { unit, series: seq![i], map: None })
    }
}

/// The first `n` series grouped by unit, in the order in which the units
/// appear.
pub open spec fn units_grouped(series: Seq<SeriesView>, n: int) -> Seq<GroupView>
    decreases n,
{
    if n <= 0 {
        seq![]
    } else {
        grouped(units_grouped(series, n - 1), unit_key(series[n - 1].unit), (n - 1) as usize)
    }
}

/// The combined finite range of some series, from `INFINITY` to `NEG_INFINITY`
/// when none has one.
pub open spec fn range_over(data: Seq<DataView>, members: Seq<usize>) -> (u64, u64)
    decreases members.len(),
{
    if members.len() == 0 {
        (INFINITY, NEG_INFINITY)
    } else {
        let (lo, hi) = range_over(data, members.drop_last());
        let d = data[members.last() as int];
        if is_finite(d.y_min) {
            (min_of(lo, d.y_min), max_of(hi, d.y_max))
        } else {
            (lo, hi)
        }
    }
}

/// Combined finite value range over a set of series, or `None` when none of
/// them have finite data.
pub open spec fn finite_range(data: Seq<DataView>, members: Seq<usize>) -> Option<(u64, u64)> {
    let (lo, hi) = range_over(data, members);
    if rank(lo) <= rank(hi) {
        Some((lo, hi))
    } else {
        None
    }
}

/// The groups with the ranges to draw them by.
pub open spec fn mapped(groups: Seq<GroupView>, data: Seq<DataView>) -> Seq<GroupView> {
    if groups.len() == 0 {
        groups
    } else {
        match finite_range(data, groups[0].series) {
            None => groups,
            Some(primary) => Seq::new(
                groups.len(),
                |i: int|
                    if i == 0 {
                        groups[i]
                    } else {
                        GroupView {
                            map: Some(
                                AxisMap {
                                    primary,
                                    own: match finite_range(data, groups[i].series) {
                                        Some(own) => own,
                                        None => (0, 0),
                                    },
                                },
                            ),
                            ..groups[i]
                        }
                    },
            ),
        }
    }
}

/// The axis groups of a plot.
pub open spec fn axes(series: Seq<SeriesView>, data: Seq<DataView>) -> Seq<GroupView> {
    mapped(units_grouped(series, series.len() as int), data)
}

/// Position of the first group with the given unit, or the number of groups.
fn find_group(groups: &[AxisGroup], unit: &Option<String>) -> (n: usize)
    ensures
        n == group_index(group_views(groups@), value::text_of(*unit)),
        n <= groups@.len(),
{
    let ghost all = group_views(groups@);
    let mut i: usize = 0;
    assert(all.skip(0) =~= all);
    while i < groups.len()
        invariant
            i <= groups.len(),
            all == group_views(groups@),
            group_index(all, value::text_of(*unit)) == i + group_index(
                all.skip(i as int),
                value::text_of(*unit),
            ),
        decreases groups.len() - i,
    {
        assert(all.skip(i as int)[0] == groups@[i as int]@);
        if same_text(&groups[i].unit, unit) {
            return i;
        }
        assert(all.skip(i as int).drop_first() =~= all.skip(i + 1));
        i += 1;
    }
    i
}

/// A unit without the whitespace around it; a blank one is none.
fn trimmed_unit(unit: &Option<String>) -> (r: Option<String>)
    ensures
        value::text_of(r) == unit_key(value::text_of(*unit)),
{
    match unit {
        Some(u) => {
            let chars = text::chars_of(u.as_str());
            let t = text::trimmed(&chars);
            if t.len() > 0 {
                Some(text::string_of(t))
            } else {
                None
            }
        },
        None => None,
    }
}

/// Combined finite value range over a set of series.
fn group_range(data: &[SeriesData], members: &[usize]) -> (r: Option<(u64, u64)>)
    requires
        forall|i: int| 0 <= i < members@.len() ==> (#[trigger] members@[i]) < data@.len(),
    ensures
        r == finite_range(data_views(data@), members@),
{
    let mut lo: u64 = INFINITY;
    let mut hi: u64 = NEG_INFINITY;
    let mut i: usize = 0;
    assert(members@.take(0) =~= seq![]);
    while i < members.len()
        invariant
            i <= members.len(),
            forall|k: int| 0 <= k < members@.len() ==> (#[trigger] members@[k]) < data@.len(),
            (lo, hi) == range_over(data_views(data@), members@.take(i as int)),
            is_number(lo) && is_number(hi),
        decreases members.len() - i,
    {
        let d = &data[members[i]];
        assert(data_views(data@)[members@[i as int] as int] == d@);
        if finite(d.y_min) {
            if smaller(d.y_min, lo) {
                lo = d.y_min;
            }
            if smaller(hi, d.y_max) {
                hi = d.y_max;
            }
        }
        i += 1;
        assert(members@.take(i as int).drop_last() =~= members@.take(i - 1));
        assert(members@.take(i as int).last() == members@[i - 1]);
    }
    assert(members@.take(i as int) =~= members@);
    if smaller(hi, lo) {
        None
    } else {
        Some((lo, hi))
    }
}

/// Whether there are data for the series that the axes depend on: those on the
/// primary axis, and all of them where the primary axis has a range.
pub open spec fn suffices(series: Seq<SeriesView>, data: Seq<DataView>) -> bool {
    let groups = units_grouped(series, series.len() as int);
    groups.len() > 0 ==> {
        &&& forall|k: int|
            0 <= k < groups[0].series.len() ==> (#[trigger] groups[0].series[k]) < data.len()
        &&& finite_range(data, groups[0].series) is Some ==> series.len() <= data.len()
    }
}

/// Group series by measurement unit into shared Y axes. The first unit to
/// appear is the primary axis; every other unit's group carries its own value
/// range and the primary group's, onto which it is drawn. A blank/absent unit
/// is treated as "no unit" (`None`) and grouped together. When the primary
/// group has no finite data, every group is drawn as it is.
pub fn axis_groups(series: &[SeriesDef], data: &[SeriesData]) -> (r: Vec<AxisGroup>)
    requires
        series@.len() <= data@.len() || suffices(series_views(series@), data_views(data@)),
    ensures
        group_views(r@) == axes(series_views(series@), data_views(data@)),
{
    let ghost all = series_views(series@);
    let mut groups: Vec<AxisGroup> = Vec::new();
    let mut i: usize = 0;
    assert(group_views(groups@) =~= seq![]);
    while i < series.len()
        invariant
            i <= series.len(),
            all == series_views(series@),
            group_views(groups@) == units_grouped(all, i as int),
            forall|g: int, k: int|
                0 <= g < groups@.len() && 0 <= k < groups@[g].series@.len() ==> (
                #[trigger] groups@[g].series@[k]) < i,
            forall|g: int| 0 <= g < groups@.len() ==> (#[trigger] groups@[g]).map is None,
        decreases series.len() - i,
    {
        let unit = trimmed_unit(&series[i].unit);
        assert(all[i as int] == series@[i as int]@);
        let g = find_group(&groups, &unit);
        let ghost before = groups@;
        if g < groups.len() {
            let old = &groups[g];
            let mut members: Vec<usize> = Vec::new();
            members.extend_from_slice(&old.series);
            assert(members@ =~= old.series@);
            members.push(i);
            let next = AxisGroup { unit: copied_text(&old.unit), series: members, map: None };
            groups.set(g, next);
            assert(group_views(groups@) =~= group_views(before).update(g as int, next@));
        } else {
            let mut members: Vec<usize> = Vec::new();
            members.push(i);
            let next = AxisGroup { unit, series: members, map: None };
            assert(next.series@ =~= seq![i]);
            groups.push(next);
            assert(group_views(groups@) =~= group_views(before).push(next@));
        }
        i += 1;
        assert forall|x: int, k: int|
            0 <= x < groups@.len() && 0 <= k < groups@[x].series@.len() implies (
        #[trigger] groups@[x].series@[k]) < i by {
            if x < before.len() && x != g {
                assert(groups@[x] == before[x]);
                assert(before[x].series@[k] < i - 1);
            } else if x < before.len() && k < before[x].series@.len() {
                assert(before[x].series@[k] < i - 1);
            }
        }
    }
    if groups.len() == 0 {
        assert(group_views(groups@) =~= seq![]);
        return groups;
    }
    let ghost done = groups@;
    assert(group_views(done)[0] == done[0]@);
    let primary = match group_range(data, &groups[0].series) {
        Some(p) => p,
        None => {
            // No finite data at all: leave every group as it is.
            return groups;
        },
    };
    let ghost want = mapped(group_views(done), data_views(data@));
    let mut j: usize = 1;
    while j < groups.len()
        invariant
            1 <= j <= groups.len(),
            groups@.len() == done.len(),
            want == mapped(group_views(done), data_views(data@)),
            finite_range(data_views(data@), group_views(done)[0].series) == Some(primary),
            series@.len() <= data@.len(),
            forall|g: int| j <= g < done.len() ==> groups@[g] == done[g],
            forall|g: int| 0 <= g < j ==> (#[trigger] groups@[g])@ == want[g],
            forall|g: int, k: int|
                0 <= g < done.len() && 0 <= k < done[g].series@.len() ==> (
                #[trigger] done[g].series@[k]) < data@.len(),
        decreases groups.len() - j,
    {
        let old = &groups[j];
        assert(group_views(done)[j as int] == old@);
        assert forall|k: int| 0 <= k < old.series@.len() implies (#[trigger] old.series@[k])
            < data@.len() by {
            assert(done[j as int].series@[k] < data@.len());
        }
        let own = match group_range(data, &old.series) {
            Some(o) => o,
            None => (0, 0),
        };
        let mut members: Vec<usize> = Vec::new();
        members.extend_from_slice(&old.series);
        assert(members@ =~= old.series@);
        let next = AxisGroup {
            unit: copied_text(&old.unit),
            series: members,
            map: Some(AxisMap { primary, own }),
        };
        let ghost before = groups@;
        assert(next@ == want[j as int]);
        groups.set(j, next);
        j += 1;
        assert forall|g: int| 0 <= g < j implies (#[trigger] groups@[g])@ == want[g] by {
            if g < j - 1 {
                assert(groups@[g] == before[g]);
            }
        }
    }
    assert(group_views(groups@) =~= want);
    groups
}

/// Whether groups hold the first `n` series by unit: one group for each unit,
/// every member carries the unit of its group, every series is a member, and
/// members come in order.
pub open spec fn is_grouping(groups: Seq<GroupView>, series: Seq<SeriesView>, n: int) -> bool {
    &&& forall|g: int, h: int|
        0 <= g < h < groups.len() ==> (#[trigger] groups[g]).unit != (#[trigger] groups[h]).unit
    &&& forall|g: int, k: int|
        0 <= g < groups.len() && 0 <= k < groups[g].series.len() ==> {
            &&& (#[trigger] groups[g].series[k]) < n
            &&& unit_key(series[groups[g].series[k] as int].unit) == groups[g].unit
        }
    &&& forall|g: int, k: int, l: int|
        0 <= g < groups.len() && 0 <= k < l < groups[g].series.len() ==> (
        #[trigger] groups[g].series[k]) < (#[trigger] groups[g].series[l])
    &&& forall|i: usize| i < n ==> #[trigger] has_group(groups, i)
}

/// Whether series `i` is in group `g`.
pub open spec fn is_member(groups: Seq<GroupView>, g: int, i: usize) -> bool {
    0 <= g < groups.len() && groups[g].series.contains(i)
}

/// Whether series `i` is in some group.
pub open spec fn has_group(groups: Seq<GroupView>, i: usize) -> bool {
    exists|g: int| #[trigger] is_member(groups, g, i)
}

/// The first group with a unit has that unit.
proof fn lemma_group_index(groups: Seq<GroupView>, unit: Option<Seq<char>>)
    ensures
        0 <= group_index(groups, unit) <= groups.len(),
        group_index(groups, unit) < groups.len() ==> groups[group_index(groups, unit)].unit == unit,
        group_index(groups, unit) == groups.len() ==> forall|g: int|
            0 <= g < groups.len() ==> (#[trigger] groups[g]).unit != unit,
    decreases groups.len(),
{
    if groups.len() > 0 && groups[0].unit != unit {
        let rest = groups.drop_first();
        lemma_group_index(rest, unit);
        if group_index(groups, unit) == groups.len() {
            assert forall|g: int| 0 <= g < groups.len() implies (#[trigger] groups[g]).unit
                != unit by {
                if g > 0 {
                    assert(groups[g] == rest[g - 1]);
                }
            }
        }
    }
}

/// Series are grouped by unit.
pub proof fn law_groups_by_unit(series: Seq<SeriesView>, n: int)
    requires
        0 <= n <= series.len() <= usize::MAX,
    ensures
        is_grouping(units_grouped(series, n), series, n),
    decreases n,
{
    if n > 0 {
        law_groups_by_unit(series, n - 1);
        let old = units_grouped(series, n - 1);
        let new = units_grouped(series, n);
        let i = (n - 1) as usize;
        let unit = unit_key(series[n - 1].unit);
        let g = group_index(old, unit);
        lemma_group_index(old, unit);
        if g < old.len() {
            let members = old[g].series;
            assert(new[g].series == members.push(i));
            assert forall|a: int, k: int, l: int|
                0 <= a < new.len() && 0 <= k < l < new[a].series.len() implies (
            #[trigger] new[a].series[k]) < (#[trigger] new[a].series[l]) by {
                if a != g {
                    assert(new[a] == old[a]);
                    assert(old[a].series[k] < old[a].series[l]);
                } else if l < members.len() {
                    assert(old[g].series[k] < old[g].series[l]);
                } else {
                    assert(old[g].series[k] < n - 1);
                }
            }
            assert forall|a: int, k: int|
                0 <= a < new.len() && 0 <= k < new[a].series.len() implies {
                &&& (#[trigger] new[a].series[k]) < n
                &&& unit_key(series[new[a].series[k] as int].unit) == new[a].unit
            } by {
                if a != g {
                    assert(new[a] == old[a]);
                    assert(old[a].series[k] < n - 1);
                } else if k < members.len() {
                    assert(old[g].series[k] < n - 1);
                }
            }
            assert forall|x: usize| x < n implies #[trigger] has_group(new, x) by {
                assert(x < n - 1 ==> has_group(old, x));
                if x == i {
                    assert(new[g].series[members.len() as int] == i);
                    assert(is_member(new, g, x));
                } else {
                    let a = choose|a: int| #[trigger] is_member(old, a, x);
                    let k = choose|k: int| 0 <= k < old[a].series.len() && old[a].series[k] == x;
                    assert(new[a].series[k] == x);
                    assert(is_member(new, a, x));
                }
            }
        } else {
            assert(new =~= old.push(GroupView { unit, series: seq![i], map: None }));
            assert forall|a: int, k: int, l: int|
                0 <= a < new.len() && 0 <= k < l < new[a].series.len() implies (
            #[trigger] new[a].series[k]) < (#[trigger] new[a].series[l]) by {
                assert(new[a] == old[a]);
                assert(old[a].series[k] < old[a].series[l]);
            }
            assert forall|a: int, k: int|
                0 <= a < new.len() && 0 <= k < new[a].series.len() implies {
                &&& (#[trigger] new[a].series[k]) < n
                &&& unit_key(series[new[a].series[k] as int].unit) == new[a].unit
            } by {
                if a < old.len() {
                    assert(new[a] == old[a]);
                    assert(old[a].series[k] < n - 1);
                }
            }
            assert forall|x: usize| x < n implies #[trigger] has_group(new, x) by {
                assert(x < n - 1 ==> has_group(old, x));
                if x == i {
                    assert(new[old.len() as int].series[0] == i);
                    assert(is_member(new, old.len() as int, x));
                } else {
                    let a = choose|a: int| #[trigger] is_member(old, a, x);
                    assert(new[a] == old[a]);
                    assert(is_member(new, a, x));
                }
            }
        }
    }
}

/// The primary group is drawn as it is.
pub proof fn law_primary_axis_is_unmapped(series: Seq<SeriesView>, data: Seq<DataView>)
    requires
        0 < series.len() <= usize::MAX,
    ensures
        axes(series, data).len() > 0,
        axes(series, data)[0].map is None,
        axes(series, data)[0].unit == unit_key(series[0].unit),
{
    lemma_first_group(series, series.len() as int);
}

/// The first group stays the first.
proof fn lemma_first_group(series: Seq<SeriesView>, n: int)
    requires
        0 < n <= series.len(),
    ensures
        units_grouped(series, n).len() > 0,
        units_grouped(series, n)[0].map is None,
        units_grouped(series, n)[0].unit == unit_key(series[0].unit),
    decreases n,
{
    if n > 1 {
        lemma_first_group(series, n - 1);
    } else {
        assert(units_grouped(series, 0) =~= seq![]);
    }
}

/// How values compare, by their bits: without the sign bit the greater bits are the
/// greater number, with it the smaller one, a number with the sign bit is below one
/// without it unless both are zero, and bits above those of an infinity are no number.
pub proof fn law_number_order(a: u64, b: u64)
    ensures
        a <= 0x7FF0_0000_0000_0000 && b <= 0x7FF0_0000_0000_0000 ==> (less(a, b) <==> a < b),
        0x8000_0000_0000_0000 <= a <= 0xFFF0_0000_0000_0000 && 0x8000_0000_0000_0000 <= b
            <= 0xFFF0_0000_0000_0000 ==> (less(a, b) <==> a > b),
        0x8000_0000_0000_0000 <= a <= 0xFFF0_0000_0000_0000 && b <= 0x7FF0_0000_0000_0000 ==> (
        less(a, b) <==> !(a == 0x8000_0000_0000_0000 && b == 0)) && !less(b, a),
        0x7FF0_0000_0000_0000 < a < 0x8000_0000_0000_0000 || a > 0xFFF0_0000_0000_0000 ==> !less(
            a,
            b,
        ) && !less(b, a),
        is_number(a) <==> a <= 0x7FF0_0000_0000_0000 || 0x8000_0000_0000_0000 <= a
            <= 0xFFF0_0000_0000_0000,
        is_finite(a) <==> a < 0x7FF0_0000_0000_0000 || 0x8000_0000_0000_0000 <= a
            < 0xFFF0_0000_0000_0000,
{
}

/// Whether the point at `a` is the first of the lowest from `from` up to `end`.
pub open spec fn is_first_lowest(points: Seq<Point>, from: int, end: int, a: int) -> bool {
    &&& from <= a < end
    &&& forall|i: int| from <= i < end ==> !less((#[trigger] points[i]).value, points[a].value)
    &&& forall|i: int| from <= i < a ==> less(points[a].value, (#[trigger] points[i]).value)
}

/// Whether the point at `b` is the first of the highest from `from` up to `end`.
pub open spec fn is_first_highest(points: Seq<Point>, from: int, end: int, b: int) -> bool {
    &&& from <= b < end
    &&& forall|i: int| from <= i < end ==> !less(points[b].value, (#[trigger] points[i]).value)
    &&& forall|i: int| from <= i < b ==> less((#[trigger] points[i]).value, points[b].value)
}

/// The first of the lowest and the first of the highest points of a bucket.
proof fn lemma_first_extremes(bucket: Seq<Point>, a: int, b: int)
    requires
        bucket.len() > 0,
        forall|i: int| 0 <= i < bucket.len() ==> is_number((#[trigger] bucket[i]).value),
    ensures
        is_first_lowest(bucket, 0, bucket.len() as int, a) ==> lowest(bucket) == bucket[a],
        is_first_highest(bucket, 0, bucket.len() as int, b) ==> highest(bucket) == bucket[b],
    decreases bucket.len(),
{
    if bucket.len() > 1 {
        let front = bucket.drop_last();
        let n = front.len() as int;
        assert forall|i: int| 0 <= i < n implies #[trigger] front[i] == bucket[i] by {}
        assert forall|i: int| 0 <= i < n implies is_number((#[trigger] front[i]).value) by {
            assert(is_number(bucket[i].value));
        }
        lemma_first_extremes(front, a, b);
        lemma_bucket(front);
        let lo = choose|i: int| 0 <= i < front.len() && front[i] == lowest(front);
        let hi = choose|i: int| 0 <= i < front.len() && front[i] == highest(front);
        assert(bucket[lo] == front[lo] && bucket[hi] == front[hi]);
        assert(bucket[n] == bucket.last());
        if is_first_lowest(bucket, 0, bucket.len() as int, a) {
            if a < n {
                assert forall|i: int| 0 <= i < n implies !less(
                    (#[trigger] front[i]).value,
                    front[a].value,
                ) by {
                    assert(!less(bucket[i].value, bucket[a].value));
                }
                assert forall|i: int| 0 <= i < a implies less(
                    front[a].value,
                    (#[trigger] front[i]).value,
                ) by {
                    assert(less(bucket[a].value, bucket[i].value));
                }
                assert(is_first_lowest(front, 0, n, a));
            }
        }
        if is_first_highest(bucket, 0, bucket.len() as int, b) {
            if b < n {
                assert forall|i: int| 0 <= i < n implies !less(
                    front[b].value,
                    (#[trigger] front[i]).value,
                ) by {
                    assert(!less(bucket[b].value, bucket[i].value));
                }
                assert forall|i: int| 0 <= i < b implies less(
                    (#[trigger] front[i]).value,
                    front[b].value,
                ) by {
                    assert(less(bucket[i].value, bucket[b].value));
                }
                assert(is_first_highest(front, 0, n, b));
            }
        }
    }
}

/// Where the extremes of the run `k` places behind `from` stand among the kept points.
proof fn lemma_kept_run(points: Seq<Point>, from: int, size: int, k: int)
    requires
        0 <= from,
        size > 0,
        0 <= k,
        from + k * size < points.len(),
    ensures
        ({
            let start = from + k * size;
            let end = if start + size <= points.len() {
                start + size
            } else {
                points.len() as int
            };
            let all = kept(points, from, size);
            let pair = extremes(points.subrange(start, end));
            &&& 2 * k + 1 < all.len()
            &&& all[2 * k] == pair[0]
            &&& all[2 * k + 1] == pair[1]
            &&& end == points.len() ==> all.len() == 2 * k + 2
        }),
    decreases k,
{
    let start = from + k * size;
    assert(k * size >= 0) by (nonlinear_arith)
        requires
            k >= 0,
            size > 0,
    ;
    let all = kept(points, from, size);
    if k == 0 {
        assert(start == from) by (nonlinear_arith)
            requires
                start == from + k * size,
                k == 0,
        ;
        let end = if from + size <= points.len() {
            from + size
        } else {
            points.len() as int
        };
        let rest = kept(points, end, size);
        assert(all == extremes(points.subrange(from, end)) + rest);
        if end == points.len() {
            assert(rest.len() == 0);
        }
    } else {
        assert(k * size == (k - 1) * size + size) by (nonlinear_arith);
        assert((k - 1) * size >= 0) by (nonlinear_arith)
            requires
                k >= 1,
                size > 0,
        ;
        lemma_kept_run(points, from + size, size, k - 1);
        let rest = kept(points, from + size, size);
        assert(all == extremes(points.subrange(from, from + size)) + rest);
        assert(all[2 * k] == rest[2 * (k - 1)]);
        assert(all[2 * k + 1] == rest[2 * (k - 1) + 1]);
    }
}

/// A series of at most 200,000 points is kept as it is. A longer one is divided into
/// runs of equal length, the least with which there are at most 100,000 of them; two
/// points are kept of each run: the first of its lowest and the first of its highest,
/// ordered by time.
pub proof fn law_decimation_by_runs(points: Seq<Point>, k: int, a: int, b: int)
    ensures
        points.len() <= 200_000 ==> decimated(points) == points,
        points.len() > 200_000 ==> {
            let n = points.len() as int;
            let size = (n + 99_999) / 100_000;
            let start = k * size;
            let end = if start + size <= n {
                start + size
            } else {
                n
            };
            let all = decimated(points);
            (forall|i: int| 0 <= i < n ==> is_number((#[trigger] points[i]).value)) && 0 <= k
                && start < n && is_first_lowest(points, start, end, a) && is_first_highest(
                points,
                start,
                end,
                b,
            ) ==> {
                let lo = points[a];
                let hi = points[b];
                &&& 2 * k + 1 < all.len()
                &&& end == n ==> all.len() == 2 * k + 2
                &&& time::double_of(lo.timestamp_us as nat) <= time::double_of(
                    hi.timestamp_us as nat,
                ) ==> all[2 * k] == lo && all[2 * k + 1] == hi
                &&& time::double_of(lo.timestamp_us as nat) > time::double_of(
                    hi.timestamp_us as nat,
                ) ==> all[2 * k] == hi && all[2 * k + 1] == lo
            }
        },
{
    if points.len() > 200_000 {
        let n = points.len() as int;
        let size = (n + 99_999) / 100_000;
        let start = k * size;
        let end = if start + size <= n {
            start + size
        } else {
            n
        };
        if (forall|i: int| 0 <= i < n ==> is_number((#[trigger] points[i]).value)) && 0 <= k
            && start < n && is_first_lowest(points, start, end, a) && is_first_highest(
            points,
            start,
            end,
            b,
        ) {
            assert(start >= 0) by (nonlinear_arith)
                requires
                    start == k * size,
                    k >= 0,
                    size > 0,
            ;
            lemma_kept_run(points, 0, size, k);
            let run = points.subrange(start, end);
            assert forall|i: int| 0 <= i < run.len() implies #[trigger] run[i] == points[start
                + i] by {}
            assert forall|i: int| 0 <= i < run.len() implies is_number(
                (#[trigger] run[i]).value,
            ) by {
                assert(is_number(points[start + i].value));
            }
            let (x, y) = (a - start, b - start);
            assert(run[x] == points[a] && run[y] == points[b]);
            assert forall|i: int| 0 <= i < run.len() implies !less(
                (#[trigger] run[i]).value,
                run[x].value,
            ) by {
                assert(!less(points[start + i].value, points[a].value));
            }
            assert forall|i: int| 0 <= i < x implies less(
                run[x].value,
                (#[trigger] run[i]).value,
            ) by {
                assert(less(points[a].value, points[start + i].value));
            }
            assert forall|i: int| 0 <= i < run.len() implies !less(
                run[y].value,
                (#[trigger] run[i]).value,
            ) by {
                assert(!less(points[b].value, points[start + i].value));
            }
            assert forall|i: int| 0 <= i < y implies less(
                (#[trigger] run[i]).value,
                run[y].value,
            ) by {
                assert(less(points[start + i].value, points[b].value));
            }
            lemma_first_extremes(run, x, y);
        }
    }
}

/// A sample with a value is a point with its time and its value, behind those before
/// it; one without a value is none.
pub proof fn law_samples_become_points(
    samples: Seq<(u64, Option<u64>)>,
    timestamp_us: u64,
    value: u64,
)
    ensures
        with_values(seq![]) == Seq::<Point>::empty(),
        with_values(samples.push((timestamp_us, Some(value)))) == with_values(samples).push(
            Point { timestamp_us, value },
        ),
        with_values(samples.push((timestamp_us, None))) == with_values(samples),
{
    assert(samples.push((timestamp_us, Some(value))).drop_last() =~= samples);
    assert(samples.push((timestamp_us, None)).drop_last() =~= samples);
}

/// The range of points: the least and the greatest finite value among them, or from
/// infinity to its negative where none is finite.
pub proof fn law_range(points: Seq<Point>)
    ensures
        forall|i: int|
            0 <= i < points.len() && is_finite((#[trigger] points[i]).value) ==> !less(
                points[i].value,
                low_of(points),
            ) && !less(high_of(points), points[i].value) && is_finite(low_of(points)) && is_finite(
                high_of(points),
            ),
        is_finite(low_of(points)) ==> exists|i: int|
            0 <= i < points.len() && (#[trigger] points[i]).value == low_of(points),
        is_finite(high_of(points)) ==> exists|i: int|
            0 <= i < points.len() && (#[trigger] points[i]).value == high_of(points),
        !is_finite(low_of(points)) ==> low_of(points) == 0x7FF0_0000_0000_0000,
        !is_finite(high_of(points)) ==> high_of(points) == 0xFFF0_0000_0000_0000,
    decreases points.len(),
{
    if points.len() > 0 {
        let front = points.drop_last();
        let n = front.len() as int;
        law_range(front);
        assert(points[n] == points.last());
        assert forall|i: int|
            0 <= i < points.len() && is_finite((#[trigger] points[i]).value) implies !less(
            points[i].value,
            low_of(points),
        ) && !less(high_of(points), points[i].value) && is_finite(low_of(points)) && is_finite(
            high_of(points),
        ) by {
            if i < n {
                assert(front[i] == points[i]);
            }
        }
        if is_finite(low_of(front)) {
            let i = choose|i: int|
                0 <= i < front.len() && (#[trigger] front[i]).value == low_of(front);
            assert(points[i].value == low_of(front));
        }
        if is_finite(high_of(front)) {
            let i = choose|i: int|
                0 <= i < front.len() && (#[trigger] front[i]).value == high_of(front);
            assert(points[i].value == high_of(front));
        }
    }
}

/// What is plotted of samples: the points of those with a value, decimated, with the
/// range of the points that are plotted.
pub proof fn law_data_of(samples: Seq<(u64, Option<u64>)>)
    ensures
        data_of(samples).points == decimated(with_values(samples)),
        data_of(samples).y_min == low_of(decimated(with_values(samples))),
        data_of(samples).y_max == high_of(decimated(with_values(samples))),
{
}

/// The range of a group of series: from the least of their minima to the greatest of
/// their maxima, over those that have a finite minimum; none where none has.
pub proof fn law_group_range(data: Seq<DataView>, members: Seq<usize>)
    requires
        forall|i: int|
            0 <= i < members.len() ==> {
                let d = data[(#[trigger] members[i]) as int];
                is_finite(d.y_min) ==> is_finite(d.y_max) && !less(d.y_max, d.y_min)
            },
    ensures
        (forall|i: int|
            0 <= i < members.len() ==> !is_finite(data[(#[trigger] members[i]) as int].y_min))
            ==> finite_range(data, members) is None,
        forall|i: int|
            0 <= i < members.len() && is_finite(data[(#[trigger] members[i]) as int].y_min) ==> (
            finite_range(data, members) matches Some(r) && !less(
                data[members[i] as int].y_min,
                r.0,
            ) && !less(r.1, data[members[i] as int].y_max)),
        finite_range(data, members) matches Some(r) ==> {
            &&& exists|i: int|
                0 <= i < members.len() && is_finite(data[(#[trigger] members[i]) as int].y_min)
                    && data[members[i] as int].y_min == r.0
            &&& exists|i: int|
                0 <= i < members.len() && is_finite(data[(#[trigger] members[i]) as int].y_min)
                    && data[members[i] as int].y_max == r.1
        },
    decreases members.len(),
{
    lemma_range_over(data, members);
}

/// What the combined range of some series is.
proof fn lemma_range_over(data: Seq<DataView>, members: Seq<usize>)
    requires
        forall|i: int|
            0 <= i < members.len() ==> {
                let d = data[(#[trigger] members[i]) as int];
                is_finite(d.y_min) ==> is_finite(d.y_max) && !less(d.y_max, d.y_min)
            },
    ensures
        ({
            let (lo, hi) = range_over(data, members);
            let some = exists|i: int|
                0 <= i < members.len() && is_finite(data[(#[trigger] members[i]) as int].y_min);
            &&& !some ==> lo == INFINITY && hi == NEG_INFINITY
            &&& some ==> is_finite(lo) && is_finite(hi) && !less(hi, lo)
            &&& forall|i: int|
                0 <= i < members.len() && is_finite(data[(#[trigger] members[i]) as int].y_min)
                    ==> !less(data[members[i] as int].y_min, lo) && !less(
                    hi,
                    data[members[i] as int].y_max,
                )
            &&& some ==> exists|i: int|
                0 <= i < members.len() && is_finite(data[(#[trigger] members[i]) as int].y_min)
                    && data[members[i] as int].y_min == lo
            &&& some ==> exists|i: int|
                0 <= i < members.len() && is_finite(data[(#[trigger] members[i]) as int].y_min)
                    && data[members[i] as int].y_max == hi
        }),
    decreases members.len(),
{
    if members.len() > 0 {
        let front = members.drop_last();
        let n = front.len() as int;
        assert forall|i: int| 0 <= i < front.len() implies ({
            let d = data[(#[trigger] front[i]) as int];
            is_finite(d.y_min) ==> is_finite(d.y_max) && !less(d.y_max, d.y_min)
        }) by {
            assert(front[i] == members[i]);
        }
        lemma_range_over(data, front);
        assert(members[n] == members.last());
        let (lo, hi) = range_over(data, front);
        let some = exists|i: int|
            0 <= i < front.len() && is_finite(data[(#[trigger] front[i]) as int].y_min);
        assert forall|i: int|
            0 <= i < members.len() && is_finite(
                data[(#[trigger] members[i]) as int].y_min,
            ) implies !less(data[members[i] as int].y_min, range_over(data, members).0) && !less(
            range_over(data, members).1,
            data[members[i] as int].y_max,
        ) by {
            if i < n {
                assert(front[i] == members[i]);
            }
        }
        if some {
            let i = choose|i: int|
                0 <= i < front.len() && is_finite(data[(#[trigger] front[i]) as int].y_min)
                    && data[front[i] as int].y_min == lo;
            let j = choose|i: int|
                0 <= i < front.len() && is_finite(data[(#[trigger] front[i]) as int].y_min)
                    && data[front[i] as int].y_max == hi;
            assert(members[i] == front[i] && members[j] == front[j]);
        }
        if exists|i: int|
            0 <= i < members.len() && is_finite(data[(#[trigger] members[i]) as int].y_min) {
            let i = choose|i: int|
                0 <= i < members.len() && is_finite(data[(#[trigger] members[i]) as int].y_min);
            if i < n {
                assert(front[i] == members[i]);
            }
        }
    }
}

/// The first group of a plot is drawn as it is, and so is every group where the first
/// has no range. Else every other group is drawn from its own range, from 0 to 0
/// where it has none, onto that of the first.
pub proof fn law_other_axes_are_mapped(series: Seq<SeriesView>, data: Seq<DataView>, i: int)
    requires
        0 <= i < units_grouped(series, series.len() as int).len(),
    ensures
        ({
            let groups = units_grouped(series, series.len() as int);
            let r = axes(series, data);
            let primary = finite_range(data, groups[0].series);
            let own = finite_range(data, groups[i].series);
            &&& r.len() == groups.len()
            &&& r[i].unit == groups[i].unit && r[i].series == groups[i].series
            &&& i == 0 || primary is None ==> r[i].map == groups[i].map
            &&& i > 0 && primary is Some ==> (r[i].map matches Some(m) && {
                &&& m.primary == primary->Some_0
                &&& own matches Some(o) ==> m.own == o
                &&& own is None ==> m.own == (0u64, 0u64)
            })
        }),
{
}

/// Units are compared without the whitespace around them, and a blank one is none.
pub proof fn law_unit_key(front: Seq<char>, unit: Seq<char>, back: Seq<char>)
    requires
        forall|k: int| 0 <= k < front.len() ==> text::is_white(#[trigger] front[k]),
        forall|k: int| 0 <= k < back.len() ==> text::is_white(#[trigger] back[k]),
        unit.len() > 0 ==> !text::is_white(unit[0]) && !text::is_white(unit.last()),
    ensures
        unit_key(None) is None,
        unit.len() > 0 ==> unit_key(Some(front + unit + back)) == Some(unit),
        unit.len() == 0 ==> unit_key(Some(front + unit + back)) is None,
{
    text::law_trim(front, unit, back);
}

} // verus!
