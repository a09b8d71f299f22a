//! The hit-count histogram: a flat array of 64-bit counters whose first two
//! slots hold the width and the height of the pixel grid, followed by the
//! counters in row-major order.

use vstd::prelude::*;

verus! {

/// A pixel of the grid, by column and row.
#[derive(Clone, Copy, Debug, PartialEq, Eq, Structural)]
pub struct Pixel {
    pub column: u64,
    pub row: u64,
}

/// A pixel that the frame of a histogram does not hold.
#[derive(Clone, Copy, Debug, PartialEq, Eq, Structural)]
pub struct OutOfFrame {
    pub column: u64,
    pub row: u64,
}

/// Two histograms that cannot be combined: the frame of the one that was
/// to be added differs from the frame of the one that accumulates.
#[derive(Clone, Copy, Debug, PartialEq, Eq, Structural)]
pub struct FrameMismatch {
    pub width: u64,
    pub height: u64,
    pub other_width: u64,
    pub other_height: u64,
}

/// A flat sequence is a histogram when its first two slots declare
/// dimensions that account for every remaining slot.
pub open spec fn is_histogram(s: Seq<u64>) -> bool {
    s.len() >= 2 && s.len() == s[0] * s[1] + 2
}

/// The histogram of the given dimensions in which nothing was counted yet.
pub open spec fn blank(width: u64, height: u64) -> Seq<u64> {
    Seq::new(
        (width * height + 2) as nat,
        |i: int|
            if i == 0 {
                width
            } else if i == 1 {
                height
            } else {
                0u64
            },
    )
}

/// Position of the counter of pixel (`column`, `row`) in a histogram that is
/// `width` pixels wide.
pub open spec fn flat_index(column: int, row: int, width: int) -> int {
    2 + column + row * width
}

/// A pixel lies in the frame of `s` when its column is below the declared
/// width and its row below the declared height.
pub open spec fn in_frame(s: Seq<u64>, column: u64, row: u64) -> bool {
    column < s[0] && row < s[1]
}

/// Addition that stops at the largest counter value.
pub open spec fn saturating_sum(a: u64, b: u64) -> u64 {
    if a + b > u64::MAX {
        u64::MAX
    } else {
        (a + b) as u64
    }
}

/// `s` after one more hit on pixel (`column`, `row`).
pub open spec fn hit(s: Seq<u64>, column: u64, row: u64) -> Seq<u64> {
    let at = flat_index(column as int, row as int, s[0] as int);
    s.update(at, saturating_sum(s[at], 1))
}

/// Every pixel of `pixels` lies in the frame of `s`.
pub open spec fn all_in_frame(s: Seq<u64>, pixels: Seq<Pixel>) -> bool {
    forall|k: int| 0 <= k < pixels.len() ==> in_frame(s, (#[trigger] pixels[k]).column, pixels[k].row)
}

/// `s` after one hit on each pixel of `pixels`, in their order.
pub open spec fn hit_all(s: Seq<u64>, pixels: Seq<Pixel>) -> Seq<u64>
    decreases pixels.len(),
{
    if pixels.len() == 0 {
        s
    } else {
        hit(hit_all(s, pixels.drop_last()), pixels.last().column, pixels.last().row)
    }
}

/// Every pixel of every trace of `traces` lies in the frame of `s`.
pub open spec fn all_traces_in_frame(s: Seq<u64>, traces: Seq<Seq<Pixel>>) -> bool {
    forall|i: int| 0 <= i < traces.len() ==> all_in_frame(s, #[trigger] traces[i])
}

/// `s` after the traces of `traces` were written back, one after the
/// other.
pub open spec fn flushed(s: Seq<u64>, traces: Seq<Seq<Pixel>>) -> Seq<u64>
    decreases traces.len(),
{
    if traces.len() == 0 {
        s
    } else {
        hit_all(flushed(s, traces.drop_last()), traces.last())
    }
}

/// The pixels of all traces of `traces`, one trace after the other.
pub open spec fn joined(traces: Seq<Seq<Pixel>>) -> Seq<Pixel>
    decreases traces.len(),
{
    if traces.len() == 0 {
        Seq::empty()
    } else {
        joined(traces.drop_last()) + traces.last()
    }
}

/// The traces that a buffer holds.
pub open spec fn traces_of(buffer: Seq<Vec<Pixel>>) -> Seq<Seq<Pixel>> {
    Seq::new(buffer.len(), |i: int| buffer[i]@)
}

/// Two histograms declare the same width and the same height.
pub open spec fn same_frame(a: Seq<u64>, b: Seq<u64>) -> bool {
    a[0] == b[0] && a[1] == b[1]
}

/// The slot-wise combination of two histograms of one frame: the header of
/// `a`, and every counter the saturating sum of the two counters.
pub open spec fn merged(a: Seq<u64>, b: Seq<u64>) -> Seq<u64> {
    Seq::new(
        a.len(),
        |i: int|
            if i < 2 {
                a[i]
            } else {
                saturating_sum(a[i], b[i])
            },
    )
}

/// How many counters the combination of `a` and `b` stops at the largest
/// counter value because their sum is more.
pub open spec fn capped(a: Seq<u64>, b: Seq<u64>) -> nat
    decreases a.len(),
{
    if a.len() <= 2 {
        0
    } else {
        let rest = capped(a.drop_last(), b);
        if a.last() + b[a.len() - 1] > u64::MAX {
            rest + 1
        } else {
            rest
        }
    }
}

/// The sum of all counters of a histogram; the two header slots do not
/// count.
pub open spec fn total(s: Seq<u64>) -> nat
    decreases s.len(),
{
    if s.len() <= 2 {
        0
    } else {
        total(s.drop_last()) + s.last() as nat
    }
}

/// How many pixels of `pixels` have their counter at slot `at` of a
/// histogram that is `width` pixels wide.
pub open spec fn hits_at(pixels: Seq<Pixel>, width: u64, at: int) -> nat
    decreases pixels.len(),
{
    if pixels.len() == 0 {
        0
    } else {
        let rest = hits_at(pixels.drop_last(), width, at);
        if flat_index(pixels.last().column as int, pixels.last().row as int, width as int) == at {
            rest + 1
        } else {
            rest
        }
    }
}

/// Every counter has room for the hits that `pixels` bring it: none would
/// pass the largest counter value.
pub open spec fn has_room(s: Seq<u64>, pixels: Seq<Pixel>) -> bool {
    forall|at: int| 2 <= at < s.len() ==> s[at] + #[trigger] hits_at(pixels, s[0], at) <= u64::MAX
}

/// A counter that was raised by `n` hits, one at a time.
pub open spec fn raised(count: u64, n: nat) -> u64 {
    if count + n > u64::MAX {
        u64::MAX
    } else {
        (count + n) as u64
    }
}

/// A histogram: its slots, header first.
pub struct Histogram {
    slots: Vec<u64>,
}

impl View for Histogram {
    type V = Seq<u64>;

    closed spec fn view(&self) -> Seq<u64> {
        self.slots@
    }
}

impl Histogram {
    /// What every histogram that this library hands out satisfies: the
    /// declared dimensions account for the slots.
    pub open spec fn wf(&self) -> bool {
        is_histogram(self@)
    }

    /// A histogram of `width` by `height` pixels with every counter at zero,
    /// unless its slots are more than the machine can address.
    pub fn new(width: u64, height: u64) -> (r: Option<Histogram>)
        ensures
            r is Some <==> width * height + 2 <= usize::MAX,
            r matches Some(h) ==> h@ == blank(width, height) && h.wf(),
    {
        let pixels = match width.checked_mul(height) {
            Some(p) => p,
            None => {
                return None;
            },
        };
        let total = match pixels.checked_add(2) {
            Some(t) => t,
            None => {
                return None;
            },
        };
        if total > usize::MAX as u64 {
            return None;
        }
        let n: usize = total as usize;
        let mut slots: Vec<u64> = Vec::new();
        slots.push(width);
        slots.push(height);
        let mut i: usize = 2;
        while i < n
            invariant
                2 <= i <= n,
                n == width * height + 2,
                slots@.len() == i,
                slots@ == blank(width, height).take(i as int),
            decreases n - i,
        {
            slots.push(0);
            i += 1;
        }
        assert(slots@ == blank(width, height));
        Some(Histogram { slots })
    }

    /// The histogram that a flat array of slots holds, where its first two
    /// slots account for its length.
    pub fn from_slots(slots: Vec<u64>) -> (r: Option<Histogram>)
        ensures
            r is Some <==> is_histogram(slots@),
            r matches Some(h) ==> h@ == slots@ && h.wf(),
    {
        let n = slots.len();
        if n < 2 {
            return None;
        }
        let pixels = match slots[0].checked_mul(slots[1]) {
            Some(p) => p,
            None => {
                return None;
            },
        };
        let total = match pixels.checked_add(2) {
            Some(t) => t,
            None => {
                return None;
            },
        };
        if total != n as u64 {
            return None;
        }
        Some(Histogram { slots })
    }

    /// The slots, header first.
    pub fn as_slots(&self) -> (r: &Vec<u64>)
        ensures
            r@ == self@,
    {
        &self.slots
    }

    /// Gives up the histogram for its slots.
    pub fn into_slots(self) -> (r: Vec<u64>)
        ensures
            r@ == self@,
    {
        self.slots
    }

    /// The declared width, in pixels.
    pub fn width(&self) -> (w: u64)
        requires
            self.wf(),
        ensures
            w == self@[0],
    {
        self.slots[0]
    }

    /// The declared height, in pixels.
    pub fn height(&self) -> (h: u64)
        requires
            self.wf(),
        ensures
            h == self@[1],
    {
        self.slots[1]
    }

    /// Where the counter of a pixel of the frame stands among the slots.
    fn slot_of(&self, column: u64, row: u64) -> (at: usize)
        requires
            self.wf(),
            in_frame(self@, column, row),
        ensures
            at == flat_index(column as int, row as int, self@[0] as int),
            2 <= at < self@.len(),
    {
        let width = self.slots[0];
        proof {
            lemma_flat_index_in_bounds(self.slots@, column, row);
            assert(0 <= row * width) by (nonlinear_arith)
                requires
                    row >= 0,
                    width >= 0,
            ;
            assert(2 + column + row * width < self.slots.len());
        }
        (2 + column + row * width) as usize
    }

    /// The hits counted on pixel (`column`, `row`), if the frame holds it.
    pub fn count(&self, column: u64, row: u64) -> (r: Option<u64>)
        requires
            self.wf(),
        ensures
            r == if in_frame(self@, column, row) {
                Some(self@[flat_index(column as int, row as int, self@[0] as int)])
            } else {
                None
            },
    {
        if column >= self.slots[0] || row >= self.slots[1] {
            return None;
        }
        let at = self.slot_of(column, row);
        Some(self.slots[at])
    }

    /// Counts one more hit on pixel (`column`, `row`). The counter stays at
    /// its largest value once it got there. A pixel outside the frame is
    /// reported and leaves the histogram as it was.
    pub fn record(&mut self, column: u64, row: u64) -> (r: Result<(), OutOfFrame>)
        requires
            old(self).wf(),
        ensures
            final(self).wf(),
            in_frame(old(self)@, column, row) ==> r is Ok && final(self)@ == hit(
                old(self)@,
                column,
                row,
            ),
            !in_frame(old(self)@, column, row) ==> r == Err::<(), OutOfFrame>(
                OutOfFrame { column, row },
            ) && final(self)@ == old(self)@,
    {
        if column >= self.slots[0] || row >= self.slots[1] {
            return Err(OutOfFrame { column, row });
        }
        let at = self.slot_of(column, row);
        let seen = self.slots[at];
        let counted = if seen == u64::MAX {
            u64::MAX
        } else {
            seen + 1
        };
        self.slots.set(at, counted);
        Ok(())
    }

    /// Counts one hit for every pixel of a trace. Where a pixel of the trace
    /// lies outside the frame, the first such pixel is reported and nothing is
    /// counted.
    pub fn write_back(&mut self, trace: &Vec<Pixel>) -> (r: Result<(), OutOfFrame>)
        requires
            old(self).wf(),
        ensures
            final(self).wf(),
            all_in_frame(old(self)@, trace@) ==> r is Ok && final(self)@ == hit_all(
                old(self)@,
                trace@,
            ),
            !all_in_frame(old(self)@, trace@) ==> final(self)@ == old(self)@ && exists|k: int|
                0 <= k < trace@.len() && all_in_frame(old(self)@, trace@.take(k)) && !in_frame(
                    old(self)@,
                    (#[trigger] trace@[k]).column,
                    trace@[k].row,
                ) && r == Err::<(), OutOfFrame>(
                    OutOfFrame { column: trace@[k].column, row: trace@[k].row },
                ),
    {
        let width = self.slots[0];
        let height = self.slots[1];
        let n = trace.len();
        let mut k: usize = 0;
        while k < n
            invariant
                k <= n,
                n == trace@.len(),
                self@ == old(self)@,
                is_histogram(self@),
                width == self@[0],
                height == self@[1],
                all_in_frame(self@, trace@.take(k as int)),
            decreases n - k,
        {
            let p = trace[k];
            if p.column >= width || p.row >= height {
                return Err(OutOfFrame { column: p.column, row: p.row });
            }
            assert forall|j: int| 0 <= j < k + 1 implies in_frame(
                self@,
                (#[trigger] trace@.take(k + 1)[j]).column,
                trace@.take(k + 1)[j].row,
            ) by {
                if j < k {
                    assert(trace@.take(k + 1)[j] == trace@.take(k as int)[j]);
                }
            }
            k += 1;
        }
        assert(trace@.take(n as int) == trace@);
        let mut i: usize = 0;
        while i < n
            invariant
                i <= n,
                n == trace@.len(),
                is_histogram(old(self)@),
                all_in_frame(old(self)@, trace@),
                self@ == hit_all(old(self)@, trace@.take(i as int)),
            decreases n - i,
        {
            let p = trace[i];
            proof {
                let front = trace@.take(i as int);
                assert forall|j: int| 0 <= j < front.len() implies in_frame(
                    old(self)@,
                    (#[trigger] front[j]).column,
                    front[j].row,
                ) by {
                    assert(front[j] == trace@[j]);
                }
                lemma_hit_all_keeps_frame(old(self)@, front);
                assert(in_frame(old(self)@, trace@[i as int].column, trace@[i as int].row));
                assert(trace@.take(i + 1).drop_last() == front);
                assert(trace@.take(i + 1).last() == p);
            }
            let at = self.slot_of(p.column, p.row);
            let seen = self.slots[at];
            let counted = if seen == u64::MAX {
                u64::MAX
            } else {
                seen + 1
            };
            self.slots.set(at, counted);
            i += 1;
        }
        assert(trace@.take(n as int) == trace@);
        proof {
            lemma_hit_all_keeps_frame(old(self)@, trace@);
        }
        Ok(())
    }

    /// Whether every pixel of a trace lies in the frame.
    fn holds(&self, trace: &Vec<Pixel>) -> (r: bool)
        requires
            self.wf(),
        ensures
            r == all_in_frame(self@, trace@),
    {
        let width = self.slots[0];
        let height = self.slots[1];
        let n = trace.len();
        let mut k: usize = 0;
        while k < n
            invariant
                k <= n,
                n == trace@.len(),
                width == self@[0],
                height == self@[1],
                forall|j: int|
                    0 <= j < k ==> in_frame(self@, (#[trigger] trace@[j]).column, trace@[j].row),
            decreases n - k,
        {
            if trace[k].column >= width || trace[k].row >= height {
                return false;
            }
            k += 1;
        }
        true
    }

    /// Writes a buffer of traces back, one trace after the other. Where a
    /// pixel of any of them lies outside the frame, nothing is counted at
    /// all, and the first such pixel of the first such trace is reported.
    pub fn flush(&mut self, buffer: &Vec<Vec<Pixel>>) -> (r: Result<(), OutOfFrame>)
        requires
            old(self).wf(),
        ensures
            final(self).wf(),
            all_traces_in_frame(old(self)@, traces_of(buffer@)) ==> r is Ok && final(self)@
                == flushed(old(self)@, traces_of(buffer@)),
            !all_traces_in_frame(old(self)@, traces_of(buffer@)) ==> final(self)@ == old(self)@
                && exists|i: int, k: int|
                0 <= i < buffer@.len() && 0 <= k < buffer@[i]@.len() && all_traces_in_frame(
                    old(self)@,
                    traces_of(buffer@).take(i),
                ) && all_in_frame(old(self)@, buffer@[i]@.take(k)) && !in_frame(
                    old(self)@,
                    (#[trigger] buffer@[i]@[k]).column,
                    buffer@[i]@[k].row,
                ) && r == Err::<(), OutOfFrame>(
                    OutOfFrame { column: buffer@[i]@[k].column, row: buffer@[i]@[k].row },
                ),
    {
        let ghost traces = traces_of(buffer@);
        let n = buffer.len();
        let mut i: usize = 0;
        while i < n
            invariant
                i <= n,
                n == buffer@.len(),
                traces == traces_of(buffer@),
                self@ == old(self)@,
                is_histogram(self@),
                all_traces_in_frame(self@, traces.take(i as int)),
            decreases n - i,
        {
            if !self.holds(&buffer[i]) {
                // nothing was counted yet, so the trace itself says which pixel it is
                let r = self.write_back(&buffer[i]);
                assert(traces[i as int] == buffer@[i as int]@);
                return r;
            }
            assert forall|j: int| 0 <= j < i + 1 implies all_in_frame(
                self@,
                #[trigger] traces.take(i + 1)[j],
            ) by {
                if j < i {
                    assert(traces.take(i + 1)[j] == traces.take(i as int)[j]);
                }
            }
            i += 1;
        }
        assert(traces.take(n as int) == traces);
        let mut i: usize = 0;
        while i < n
            invariant
                i <= n,
                n == buffer@.len(),
                traces == traces_of(buffer@),
                is_histogram(old(self)@),
                all_traces_in_frame(old(self)@, traces),
                is_histogram(self@),
                same_frame(self@, old(self)@),
                self@ == flushed(old(self)@, traces.take(i as int)),
            decreases n - i,
        {
            proof {
                assert(all_in_frame(old(self)@, traces[i as int]));
                assert(traces.take(i + 1).drop_last() == traces.take(i as int));
                assert(traces.take(i + 1).last() == buffer@[i as int]@);
                lemma_hit_all_keeps_frame(self@, buffer@[i as int]@);
            }
            let r = self.write_back(&buffer[i]);
            i += 1;
        }
        assert(traces.take(n as int) == traces);
        Ok(())
    }

    /// Adds the counters of `other` to the counters of this histogram, each
    /// sum stopping at the largest counter value, and says how many sums
    /// were stopped there. A histogram of another frame is refused and
    /// nothing is added.
    pub fn combine(&mut self, other: &Histogram) -> (r: Result<usize, FrameMismatch>)
        requires
            old(self).wf(),
            other.wf(),
        ensures
            final(self).wf(),
            same_frame(old(self)@, other@) ==> r == Ok::<usize, FrameMismatch>(
                capped(old(self)@, other@) as usize,
            ) && final(self)@ == merged(old(self)@, other@),
            !same_frame(old(self)@, other@) ==> final(self)@ == old(self)@ && r == Err::<
                usize,
                FrameMismatch,
            >(
                FrameMismatch {
                    width: old(self)@[0],
                    height: old(self)@[1],
                    other_width: other@[0],
                    other_height: other@[1],
                },
            ),
    {
        if self.slots[0] != other.slots[0] || self.slots[1] != other.slots[1] {
            return Err(
                FrameMismatch {
                    width: self.slots[0],
                    height: self.slots[1],
                    other_width: other.slots[0],
                    other_height: other.slots[1],
                },
            );
        }
        let n = self.slots.len();
        let mut stopped: usize = 0;
        let mut i: usize = 2;
        while i < n
            invariant
                2 <= i <= n,
                n == old(self)@.len(),
                n == other@.len(),
                self@.len() == n,
                stopped <= i - 2,
                stopped == capped(old(self)@.take(i as int), other@),
                forall|j: int| 0 <= j < i ==> self@[j] == merged(old(self)@, other@)[j],
                forall|j: int| i <= j < n ==> self@[j] == old(self)@[j],
            decreases n - i,
        {
            proof {
                let a = old(self)@.take(i + 1);
                assert(a.drop_last() == old(self)@.take(i as int));
            }
            match self.slots[i].checked_add(other.slots[i]) {
                Some(sum) => {
                    self.slots.set(i, sum);
                },
                None => {
                    self.slots.set(i, u64::MAX);
                    stopped += 1;
                },
            }
            i += 1;
        }
        assert(self@ == merged(old(self)@, other@));
        assert(old(self)@.take(n as int) == old(self)@);
        Ok(stopped)
    }
}

/// The counter of every pixel of the frame has a slot of its own behind the
/// two header slots.
pub proof fn lemma_flat_index_in_bounds(s: Seq<u64>, column: u64, row: u64)
    requires
        is_histogram(s),
        in_frame(s, column, row),
    ensures
        2 <= flat_index(column as int, row as int, s[0] as int) < s.len(),
{
    let w = s[0] as int;
    let h = s[1] as int;
    assert(row * w <= (h - 1) * w) by (nonlinear_arith)
        requires
            0 <= row <= h - 1,
            0 <= w,
    ;
    assert((h - 1) * w == h * w - w) by (nonlinear_arith);
    assert(w * h == h * w) by (nonlinear_arith);
    assert(0 <= row * w) by (nonlinear_arith)
        requires
            0 <= row,
            0 <= w,
    ;
}

/// The first pixel of the frame has the first slot behind the header, and
/// the last pixel of the frame has the last slot.
pub proof fn lemma_corner_slots(s: Seq<u64>)
    requires
        is_histogram(s),
        s[0] > 0,
        s[1] > 0,
    ensures
        flat_index(0, 0, s[0] as int) == 2,
        flat_index(s[0] - 1, s[1] - 1, s[0] as int) == s.len() - 1,
{
    let w = s[0] as int;
    let h = s[1] as int;
    assert((h - 1) * w == w * h - w) by (nonlinear_arith);
    assert(0 * w == 0) by (nonlinear_arith);
}

/// Two different pixels of the frame never share a counter.
pub proof fn lemma_flat_index_injective(width: int, c1: int, r1: int, c2: int, r2: int)
    requires
        0 <= c1 < width,
        0 <= c2 < width,
        0 <= r1,
        0 <= r2,
        flat_index(c1, r1, width) == flat_index(c2, r2, width),
    ensures
        c1 == c2,
        r1 == r2,
{
    if r1 < r2 {
        assert(r2 * width >= (r1 + 1) * width) by (nonlinear_arith)
            requires
                r1 + 1 <= r2,
                0 < width,
        ;
        assert((r1 + 1) * width == r1 * width + width) by (nonlinear_arith);
    } else if r2 < r1 {
        assert(r1 * width >= (r2 + 1) * width) by (nonlinear_arith)
            requires
                r2 + 1 <= r1,
                0 < width,
        ;
        assert((r2 + 1) * width == r2 * width + width) by (nonlinear_arith);
    }
}

/// Every slot behind the header is the counter of exactly one pixel of the
/// frame: the mapping from pixels to slots leaves no slot out.
pub proof fn lemma_flat_index_onto(s: Seq<u64>, at: int) -> (p: Pixel)
    requires
        is_histogram(s),
        2 <= at < s.len(),
    ensures
        in_frame(s, p.column, p.row),
        flat_index(p.column as int, p.row as int, s[0] as int) == at,
{
    let w = s[0] as int;
    let h = s[1] as int;
    assert(w > 0) by (nonlinear_arith)
        requires
            w * h > 0,
            w >= 0,
            h >= 0,
    ;
    let off = at - 2;
    let row = off / w;
    let column = off % w;
    vstd::arithmetic::div_mod::lemma_fundamental_div_mod(off, w);
    vstd::arithmetic::div_mod::lemma_mod_bound(off, w);
    vstd::arithmetic::div_mod::lemma_div_pos_is_pos(off, w);
    assert(w * row == row * w) by (nonlinear_arith);
    if row >= h {
        assert(row * w >= h * w) by (nonlinear_arith)
            requires
                row >= h,
                w > 0,
        ;
        assert(h * w == w * h) by (nonlinear_arith);
    }
    Pixel { column: column as u64, row: row as u64 }
}

/// Where a trace lies in the frame, so does the trace without its last
/// pixel, and so does that pixel.
pub proof fn lemma_front_in_frame(s: Seq<u64>, pixels: Seq<Pixel>)
    requires
        all_in_frame(s, pixels),
        pixels.len() > 0,
    ensures
        all_in_frame(s, pixels.drop_last()),
        in_frame(s, pixels.last().column, pixels.last().row),
{
    let front = pixels.drop_last();
    assert forall|k: int| 0 <= k < front.len() implies in_frame(
        s,
        (#[trigger] front[k]).column,
        front[k].row,
    ) by {
        assert(front[k] == pixels[k]);
    }
    assert(pixels.last() == pixels[pixels.len() - 1]);
}

/// A hit changes neither the header nor the number of slots.
pub proof fn lemma_hit_keeps_frame(s: Seq<u64>, column: u64, row: u64)
    requires
        is_histogram(s),
        in_frame(s, column, row),
    ensures
        is_histogram(hit(s, column, row)),
        same_frame(hit(s, column, row), s),
        hit(s, column, row).len() == s.len(),
{
    lemma_flat_index_in_bounds(s, column, row);
}

/// Hits on pixels of the frame change neither the header nor the number of
/// slots.
pub proof fn lemma_hit_all_keeps_frame(s: Seq<u64>, pixels: Seq<Pixel>)
    requires
        is_histogram(s),
        all_in_frame(s, pixels),
    ensures
        is_histogram(hit_all(s, pixels)),
        same_frame(hit_all(s, pixels), s),
        hit_all(s, pixels).len() == s.len(),
    decreases pixels.len(),
{
    if pixels.len() > 0 {
        let front = pixels.drop_last();
        lemma_front_in_frame(s, pixels);
        lemma_hit_all_keeps_frame(s, front);
        let p = pixels.last();
        lemma_hit_keeps_frame(hit_all(s, front), p.column, p.row);
    }
}

/// After the hits of a trace, every counter stands at what it was plus the
/// number of pixels of the trace that it belongs to, or at the largest
/// counter value where that is more: no hit is lost and none counts twice.
pub proof fn lemma_hit_all_counts(s: Seq<u64>, pixels: Seq<Pixel>)
    requires
        is_histogram(s),
        all_in_frame(s, pixels),
    ensures
        hit_all(s, pixels).len() == s.len(),
        hit_all(s, pixels)[0] == s[0],
        hit_all(s, pixels)[1] == s[1],
        forall|at: int|
            2 <= at < s.len() ==> #[trigger] hit_all(s, pixels)[at] == raised(
                s[at],
                hits_at(pixels, s[0], at),
            ),
    decreases pixels.len(),
{
    lemma_hit_all_keeps_frame(s, pixels);
    if pixels.len() > 0 {
        let front = pixels.drop_last();
        lemma_front_in_frame(s, pixels);
        lemma_hit_all_counts(s, front);
        lemma_hit_all_keeps_frame(s, front);
        let p = pixels.last();
        let mid = hit_all(s, front);
        lemma_flat_index_in_bounds(mid, p.column, p.row);
        assert forall|at: int| 2 <= at < s.len() implies #[trigger] hit_all(s, pixels)[at]
            == raised(s[at], hits_at(pixels, s[0], at)) by {
            assert(mid[at] == raised(s[at], hits_at(front, s[0], at)));
        }
    }
}

/// Two traces may be written back in either order: the histogram comes out
/// the same.
pub proof fn lemma_write_back_order(s: Seq<u64>, first: Seq<Pixel>, second: Seq<Pixel>)
    requires
        is_histogram(s),
        all_in_frame(s, first),
        all_in_frame(s, second),
    ensures
        hit_all(hit_all(s, first), second) == hit_all(hit_all(s, second), first),
{
    lemma_hit_all_counts(s, first);
    lemma_hit_all_counts(s, second);
    lemma_hit_all_keeps_frame(s, first);
    lemma_hit_all_keeps_frame(s, second);
    let a = hit_all(s, first);
    let b = hit_all(s, second);
    assert(all_in_frame(a, second));
    assert(all_in_frame(b, first));
    lemma_hit_all_counts(a, second);
    lemma_hit_all_counts(b, first);
    assert(hit_all(a, second) =~= hit_all(b, first));
}

/// Writing back one trace after another comes to the same as writing back
/// the two as one.
pub proof fn lemma_write_back_concat(s: Seq<u64>, first: Seq<Pixel>, second: Seq<Pixel>)
    ensures
        hit_all(s, first + second) == hit_all(hit_all(s, first), second),
    decreases second.len(),
{
    if second.len() == 0 {
        assert(first + second == first);
    } else {
        assert((first + second).drop_last() == first + second.drop_last());
        assert((first + second).last() == second.last());
        lemma_write_back_concat(s, first, second.drop_last());
    }
}

/// The pixels of a trace that belong to the counter of a pixel of the frame
/// are the occurrences of that pixel in the trace.
proof fn lemma_hits_at_is_count(s: Seq<u64>, pixels: Seq<Pixel>, p: Pixel)
    requires
        is_histogram(s),
        all_in_frame(s, pixels),
        in_frame(s, p.column, p.row),
    ensures
        hits_at(pixels, s[0], flat_index(p.column as int, p.row as int, s[0] as int))
            == pixels.to_multiset().count(p),
    decreases pixels.len(),
{
    if pixels.len() == 0 {
        assert(pixels.to_multiset().count(p) == 0) by {
            broadcast use vstd::seq_lib::group_to_multiset_ensures;

            assert(!pixels.contains(p));
        }
    } else {
        let front = pixels.drop_last();
        let q = pixels.last();
        lemma_front_in_frame(s, pixels);
        lemma_hits_at_is_count(s, front, p);
        assert(pixels == front.push(q));
        vstd::seq_lib::to_multiset_build(front, q);
        if flat_index(q.column as int, q.row as int, s[0] as int) == flat_index(
            p.column as int,
            p.row as int,
            s[0] as int,
        ) {
            lemma_flat_index_injective(
                s[0] as int,
                q.column as int,
                q.row as int,
                p.column as int,
                p.row as int,
            );
            assert(q == p);
        }
    }
}

/// What a histogram holds after any number of traces were written back
/// depends on which pixels were hit how often, and on nothing else: not on
/// the order of the hits, nor on how they were shared out among traces.
pub proof fn lemma_write_back_any_order(s: Seq<u64>, one: Seq<Pixel>, other: Seq<Pixel>)
    requires
        is_histogram(s),
        all_in_frame(s, one),
        one.to_multiset() == other.to_multiset(),
    ensures
        all_in_frame(s, other),
        hit_all(s, one) == hit_all(s, other),
{
    assert forall|k: int| 0 <= k < other.len() implies in_frame(
        s,
        (#[trigger] other[k]).column,
        other[k].row,
    ) by {
        broadcast use vstd::seq_lib::group_to_multiset_ensures;

        assert(other.contains(other[k]));
        assert(one.to_multiset().count(other[k]) > 0);
        assert(one.contains(other[k]));
        let j = choose|j: int| 0 <= j < one.len() && one[j] == other[k];
        assert(in_frame(s, one[j].column, one[j].row));
    }
    lemma_hit_all_counts(s, one);
    lemma_hit_all_counts(s, other);
    assert forall|at: int| 2 <= at < s.len() implies hit_all(s, one)[at] == hit_all(s, other)[at] by {
        let p = lemma_flat_index_onto(s, at);
        lemma_hits_at_is_count(s, one, p);
        lemma_hits_at_is_count(s, other, p);
    }
    assert(hit_all(s, one) =~= hit_all(s, other));
}

/// Writing traces back one after the other comes to the same as writing
/// all their pixels back as one trace.
pub proof fn lemma_flushed_is_hit_all(s: Seq<u64>, traces: Seq<Seq<Pixel>>)
    ensures
        flushed(s, traces) == hit_all(s, joined(traces)),
    decreases traces.len(),
{
    if traces.len() > 0 {
        lemma_flushed_is_hit_all(s, traces.drop_last());
        lemma_write_back_concat(s, joined(traces.drop_last()), traces.last());
    }
}

/// The pixels of traces of the frame are pixels of the frame.
pub proof fn lemma_joined_in_frame(s: Seq<u64>, traces: Seq<Seq<Pixel>>)
    requires
        all_traces_in_frame(s, traces),
    ensures
        all_in_frame(s, joined(traces)),
    decreases traces.len(),
{
    if traces.len() > 0 {
        let front = traces.drop_last();
        assert forall|i: int| 0 <= i < front.len() implies all_in_frame(s, #[trigger] front[i]) by {
            assert(front[i] == traces[i]);
        }
        lemma_joined_in_frame(s, front);
        assert(all_in_frame(s, traces[traces.len() - 1]));
    }
}

/// However the work is shared out, the histogram comes out the same: two
/// runs of flushes that hit the same pixels equally often, in whatever
/// traces and in whatever order, leave the same histogram.
pub proof fn lemma_flush_any_order(s: Seq<u64>, one: Seq<Seq<Pixel>>, other: Seq<Seq<Pixel>>)
    requires
        is_histogram(s),
        all_traces_in_frame(s, one),
        joined(one).to_multiset() == joined(other).to_multiset(),
    ensures
        flushed(s, one) == flushed(s, other),
{
    lemma_joined_in_frame(s, one);
    lemma_flushed_is_hit_all(s, one);
    lemma_flushed_is_hit_all(s, other);
    lemma_write_back_any_order(s, joined(one), joined(other));
}

/// Replacing one counter changes the total by the difference of the two
/// values.
proof fn lemma_total_update(s: Seq<u64>, at: int, v: u64)
    requires
        2 <= at < s.len(),
    ensures
        total(s.update(at, v)) == total(s) - s[at] + v,
    decreases s.len(),
{
    let t = s.update(at, v);
    if at == s.len() - 1 {
        assert(t.drop_last() == s.drop_last());
    } else {
        assert(t.drop_last() == s.drop_last().update(at, v));
        lemma_total_update(s.drop_last(), at, v);
    }
}

/// One hit raises the total by one, unless the counter it falls on already
/// stands at the largest counter value.
pub proof fn lemma_hit_total(s: Seq<u64>, column: u64, row: u64)
    requires
        is_histogram(s),
        in_frame(s, column, row),
    ensures
        total(hit(s, column, row)) == total(s) + if s[flat_index(
            column as int,
            row as int,
            s[0] as int,
        )] == u64::MAX {
            0int
        } else {
            1int
        },
{
    lemma_flat_index_in_bounds(s, column, row);
    let at = flat_index(column as int, row as int, s[0] as int);
    lemma_total_update(s, at, saturating_sum(s[at], 1));
}

/// Writing a trace back never lowers the total and raises it by at most the
/// length of the trace; where every counter has room for its hits, it
/// raises it by exactly that length.
pub proof fn lemma_write_back_total(s: Seq<u64>, pixels: Seq<Pixel>)
    requires
        is_histogram(s),
        all_in_frame(s, pixels),
    ensures
        total(s) <= total(hit_all(s, pixels)) <= total(s) + pixels.len(),
        has_room(s, pixels) ==> total(hit_all(s, pixels)) == total(s) + pixels.len(),
    decreases pixels.len(),
{
    if pixels.len() > 0 {
        let front = pixels.drop_last();
        lemma_front_in_frame(s, pixels);
        lemma_write_back_total(s, front);
        lemma_hit_all_keeps_frame(s, front);
        lemma_hit_all_counts(s, front);
        let p = pixels.last();
        let mid = hit_all(s, front);
        lemma_hit_total(mid, p.column, p.row);
        lemma_flat_index_in_bounds(mid, p.column, p.row);
        if has_room(s, pixels) {
            assert forall|at: int| 2 <= at < s.len() implies s[at] + #[trigger] hits_at(
                front,
                s[0],
                at,
            ) <= u64::MAX by {
                assert(s[at] + hits_at(pixels, s[0], at) <= u64::MAX);
            }
            let at = flat_index(p.column as int, p.row as int, s[0] as int);
            assert(s[at] + hits_at(pixels, s[0], at) <= u64::MAX);
            assert(mid[at] == raised(s[at], hits_at(front, s[0], at)));
        }
    }
}

/// Flushing a buffer of traces raises the total by exactly the number of
/// pixels in the buffer, where every counter has room for its hits: what
/// was drawn is counted, once.
pub proof fn lemma_flush_total(s: Seq<u64>, traces: Seq<Seq<Pixel>>)
    requires
        is_histogram(s),
        all_traces_in_frame(s, traces),
        has_room(s, joined(traces)),
    ensures
        total(flushed(s, traces)) == total(s) + joined(traces).len(),
{
    lemma_joined_in_frame(s, traces);
    lemma_flushed_is_hit_all(s, traces);
    lemma_write_back_total(s, joined(traces));
}

/// Combining keeps the frame.
pub proof fn lemma_merged_is_histogram(a: Seq<u64>, b: Seq<u64>)
    requires
        is_histogram(a),
        is_histogram(b),
        same_frame(a, b),
    ensures
        is_histogram(merged(a, b)),
        same_frame(merged(a, b), a),
        merged(a, b).len() == a.len(),
{
}

/// Combining two histograms of one frame gives the same histogram in either
/// order.
pub proof fn lemma_merged_commutative(a: Seq<u64>, b: Seq<u64>)
    requires
        is_histogram(a),
        is_histogram(b),
        same_frame(a, b),
    ensures
        merged(a, b) == merged(b, a),
{
    assert(merged(a, b) =~= merged(b, a));
}

/// Combining three histograms of one frame gives the same histogram however
/// they are grouped.
pub proof fn lemma_merged_associative(a: Seq<u64>, b: Seq<u64>, c: Seq<u64>)
    requires
        is_histogram(a),
        is_histogram(b),
        is_histogram(c),
        same_frame(a, b),
        same_frame(b, c),
    ensures
        merged(merged(a, b), c) == merged(a, merged(b, c)),
{
    assert(merged(merged(a, b), c) =~= merged(a, merged(b, c)));
}

/// Combining never lowers a slot, and leaves the header alone.
pub proof fn lemma_merged_never_decreases(a: Seq<u64>, b: Seq<u64>)
    requires
        is_histogram(a),
        is_histogram(b),
        same_frame(a, b),
    ensures
        merged(a, b).len() == a.len(),
        forall|i: int| 0 <= i < a.len() ==> #[trigger] merged(a, b)[i] >= a[i],
        forall|i: int| 2 <= i < a.len() ==> #[trigger] merged(a, b)[i] >= b[i],
        merged(a, b)[0] == a[0],
        merged(a, b)[1] == a[1],
{
}

} // verus!
