use vstd::prelude::*;

use crate::escape::LaneCounter;
use crate::{ITER_LIMIT, NUM_LANES};

verus! {

/// The smallest multiple of `NUM_LANES` that is at least `width`.
pub open spec fn spec_padded_width(width: nat) -> nat {
    if width % (NUM_LANES as nat) == 0 {
        width
    } else {
        width + (NUM_LANES as nat - width % (NUM_LANES as nat)) as nat
    }
}

/// Rounds a pixel width up to a whole number of lane groups.
pub fn padded_width(width: usize) -> (r: usize)
    requires
        width + NUM_LANES <= usize::MAX,
    ensures
        r == spec_padded_width(width as nat),
        r % NUM_LANES == 0,
        width <= r < width + NUM_LANES,
{
    let rem = width % NUM_LANES;
    if rem == 0 {
        width
    } else {
        width + (NUM_LANES - rem)
    }
}

/// A row-major buffer of per-pixel iteration counts.
///
/// Rows are `stride` entries long: the logical `width` rounded up to a whole
/// number of lane groups. Only the first `width` entries of a row are pixels
/// on display; the rest are padding, evaluated like any other entry.
pub struct Raster {
    buffer: Vec<u32>,
    width: usize,
    height: usize,
    stride: usize,
}

impl Raster {
    pub closed spec fn counts_view(&self) -> Seq<u32> {
        self.buffer@
    }

    pub closed spec fn width_view(&self) -> nat {
        self.width as nat
    }

    pub closed spec fn height_view(&self) -> nat {
        self.height as nat
    }

    pub closed spec fn stride_view(&self) -> nat {
        self.stride as nat
    }

    /// Number of lane groups in the buffer.
    pub open spec fn groups_view(&self) -> nat {
        self.counts_view().len() / (NUM_LANES as nat)
    }

    pub closed spec fn wf(&self) -> bool {
        &&& self.stride == spec_padded_width(self.width as nat)
        &&& self.buffer@.len() == self.stride * self.height
        &&& forall|i: int| 0 <= i < self.buffer@.len() ==> #[trigger] self.buffer@[i] <= ITER_LIMIT
    }

    /// A raster of `width` by `height` pixels, every count zero.
    pub fn new(width: usize, height: usize) -> (r: Raster)
        requires
            width + NUM_LANES <= usize::MAX,
            spec_padded_width(width as nat) * height <= usize::MAX,
        ensures
            r.wf(),
            r.width_view() == width,
            r.height_view() == height,
            r.stride_view() == spec_padded_width(width as nat),
            r.counts_view() == Seq::new(spec_padded_width(width as nat) * (height as nat), |i: int| 0u32),
    {
        let stride = padded_width(width);
        let buffer: Vec<u32> = vec![0u32; stride * height];
        let r = Raster { buffer, width, height, stride };
        assert(r.buffer@ =~= Seq::new(spec_padded_width(width as nat) * (height as nat), |i: int| 0u32));
        r
    }

    /// Gives the raster new dimensions. Counts that stay within the new length
    /// are kept, new entries are zero; the next evaluation overwrites them all.
    pub fn resize(&mut self, width: usize, height: usize)
        requires
            old(self).wf(),
            width + NUM_LANES <= usize::MAX,
            spec_padded_width(width as nat) * height <= usize::MAX,
        ensures
            final(self).wf(),
            final(self).width_view() == width,
            final(self).height_view() == height,
            final(self).stride_view() == spec_padded_width(width as nat),
            final(self).counts_view().len() == spec_padded_width(width as nat) * height,
            forall|i: int| 0 <= i < final(self).counts_view().len() ==> #[trigger] final(self).counts_view()[i]
                == if i < old(self).counts_view().len() { old(self).counts_view()[i] } else { 0u32 },
            width == old(self).width_view() && height == old(self).height_view() ==> final(self).counts_view()
                == old(self).counts_view(),
    {
        let stride = padded_width(width);
        let len = stride * height;
        let ghost before = self.buffer@;
        self.buffer.resize(len, 0u32);
        assert forall|i: int| 0 <= i < self.buffer@.len() implies #[trigger] self.buffer@[i]
            == if i < before.len() { before[i] } else { 0u32 } by {
            if len <= before.len() {
                assert(self.buffer@[i] == before[i]);
            } else if i < before.len() {
                assert(self.buffer@.subrange(0, before.len() as int)[i] == before[i]);
            }
        }
        if width == self.width && height == self.height {
            assert(self.buffer@ =~= before);
        }
        self.width = width;
        self.height = height;
        self.stride = stride;
    }

    /// Logical width in pixels.
    pub fn width(&self) -> (r: usize)
        ensures
            r == self.width_view(),
    {
        self.width
    }

    /// Height in pixels.
    pub fn height(&self) -> (r: usize)
        ensures
            r == self.height_view(),
    {
        self.height
    }

    /// Length of a row of the buffer.
    pub fn stride(&self) -> (r: usize)
        ensures
            r == self.stride_view(),
    {
        self.stride
    }

    /// The whole buffer, row by row.
    pub fn counts(&self) -> (r: &Vec<u32>)
        ensures
            r@ == self.counts_view(),
    {
        &self.buffer
    }

    /// Every count held by a raster lies between zero and the ceiling.
    pub proof fn lemma_counts_in_range(&self)
        requires
            self.wf(),
        ensures
            forall|i: int| 0 <= i < self.counts_view().len() ==> #[trigger] self.counts_view()[i] <= ITER_LIMIT,
    {
    }

    /// Number of lane groups in the buffer.
    pub fn group_count(&self) -> (r: usize)
        requires
            self.wf(),
        ensures
            r == self.groups_view(),
    {
        self.buffer.len() / NUM_LANES
    }

    /// Pixel coordinates `(x, y)` of the first entry of lane group `n`. A group
    /// never straddles two rows, since a row is a whole number of groups.
    pub fn group_origin(&self, n: usize) -> (r: (usize, usize))
        requires
            self.wf(),
            n < self.groups_view(),
        ensures
            r.0 == (n * NUM_LANES) % (self.stride_view() as int),
            r.1 == (n * NUM_LANES) / (self.stride_view() as int),
            r.0 + NUM_LANES <= self.stride_view(),
            r.1 < self.height_view(),
            r.1 * self.stride_view() + r.0 == n * NUM_LANES,
    {
        let len = self.buffer.len();
        proof {
            lemma_group_in_buffer(n as int, len as int);
        }
        let first = n * NUM_LANES;
        let x = first % self.stride;
        let y = first / self.stride;
        proof {
            let s = self.stride as int;
            let f = first as int;
            let h = self.height as int;
            assert(s % (NUM_LANES as int) == 0);
            assert(f == (f / s) * s + f % s) by (nonlinear_arith)
                requires s > 0;
            assert(f + NUM_LANES <= s * h) by (nonlinear_arith)
                requires f == n * NUM_LANES, n < (s * h) / (NUM_LANES as int), s * h >= 0;
            lemma_group_fits_row(f, s);
            assert(f / s < h) by (nonlinear_arith)
                requires f < s * h, s > 0, f >= 0;
        }
        (x, y)
    }

    /// Writes the counts of a finished lane counter into lane group `n`.
    pub fn store_group(&mut self, n: usize, counter: &LaneCounter)
        requires
            old(self).wf(),
            n < old(self).groups_view(),
            counter.wf(),
            counter.limit_view() <= ITER_LIMIT,
        ensures
            final(self).wf(),
            final(self).width_view() == old(self).width_view(),
            final(self).height_view() == old(self).height_view(),
            final(self).stride_view() == old(self).stride_view(),
            final(self).counts_view().len() == old(self).counts_view().len(),
            forall|i: int| 0 <= i < NUM_LANES ==>
                #[trigger] final(self).counts_view()[n * NUM_LANES + i] == counter.counts_view()[i],
            forall|i: int| 0 <= i < old(self).counts_view().len() && !(n * NUM_LANES <= i < n * NUM_LANES + NUM_LANES)
                ==> #[trigger] final(self).counts_view()[i] == old(self).counts_view()[i],
    {
        let counts = counter.counts();
        let len = self.buffer.len();
        proof {
            lemma_group_in_buffer(n as int, len as int);
        }
        let base = n * NUM_LANES;
        let mut j: usize = 0;
        while j < NUM_LANES
            invariant
                old(self).wf(),
                counter.wf(),
                counter.limit_view() <= ITER_LIMIT,
                counts@ == counter.counts_view(),
                counts@.len() == NUM_LANES,
                n < old(self).groups_view(),
                base == n * NUM_LANES,
                base + NUM_LANES <= old(self).counts_view().len(),
                0 <= j <= NUM_LANES,
                self.width == old(self).width,
                self.height == old(self).height,
                self.stride == old(self).stride,
                self.buffer@.len() == old(self).buffer@.len(),
                forall|i: int| 0 <= i < self.buffer@.len() ==> #[trigger] self.buffer@[i] <= ITER_LIMIT,
                forall|i: int| 0 <= i < j ==> #[trigger] self.buffer@[base + i] == counts@[i],
                forall|i: int| 0 <= i < self.buffer@.len() && !(base <= i < base + j)
                    ==> #[trigger] self.buffer@[i] == old(self).buffer@[i],
            decreases NUM_LANES - j,
        {
            proof {
                counter.lemma_counts_bounded(j as int);
            }
            self.buffer.set(base + j, counts[j]);
            j += 1;
        }
    }

    /// Writes the counts of `counters[n]` into lane group `n`, for every group:
    /// each group's pixels come from its own counter and from no other.
    pub fn store_groups(&mut self, counters: &Vec<LaneCounter>)
        requires
            old(self).wf(),
            counters@.len() == old(self).groups_view(),
            forall|n: int| 0 <= n < counters@.len() ==> (#[trigger] counters@[n]).wf(),
            forall|n: int| 0 <= n < counters@.len() ==> (#[trigger] counters@[n]).limit_view() <= ITER_LIMIT,
        ensures
            final(self).wf(),
            final(self).width_view() == old(self).width_view(),
            final(self).height_view() == old(self).height_view(),
            final(self).stride_view() == old(self).stride_view(),
            final(self).counts_view().len() == old(self).counts_view().len(),
            forall|n: int, i: int| 0 <= n < counters@.len() && 0 <= i < NUM_LANES ==>
                #[trigger] final(self).counts_view()[n * NUM_LANES + i] == (#[trigger] counters@[n]).counts_view()[i],
    {
        let groups = self.group_count();
        let mut n: usize = 0;
        while n < groups
            invariant
                self.wf(),
                groups == counters@.len(),
                groups == self.groups_view(),
                0 <= n <= groups,
                self.width == old(self).width,
                self.height == old(self).height,
                self.stride == old(self).stride,
                self.buffer@.len() == old(self).buffer@.len(),
                forall|m: int| 0 <= m < counters@.len() ==> (#[trigger] counters@[m]).wf(),
                forall|m: int| 0 <= m < counters@.len() ==> (#[trigger] counters@[m]).limit_view() <= ITER_LIMIT,
                forall|m: int, i: int| 0 <= m < n && 0 <= i < NUM_LANES ==>
                    #[trigger] self.buffer@[m * NUM_LANES + i] == (#[trigger] counters@[m]).counts_view()[i],
            decreases groups - n,
        {
            let ghost prev = self.buffer@;
            self.store_group(n, &counters[n]);
            assert forall|m: int, i: int| 0 <= m < n + 1 && 0 <= i < NUM_LANES implies
                #[trigger] self.buffer@[m * NUM_LANES + i] == (#[trigger] counters@[m]).counts_view()[i] by {
                if m < n {
                    lemma_group_in_buffer(m, prev.len() as int);
                    assert(m * NUM_LANES + i < n * NUM_LANES) by (nonlinear_arith)
                        requires m < n, 0 <= i < 8;
                    assert(prev[m * NUM_LANES + i] == counters@[m].counts_view()[i]);
                }
            }
            n += 1;
        }
    }

    /// The count of the pixel at column `x` of row `y`.
    pub fn count_at(&self, x: usize, y: usize) -> (r: u32)
        requires
            self.wf(),
            x < self.width_view(),
            y < self.height_view(),
        ensures
            r == self.counts_view()[y * self.stride_view() + x],
            r <= ITER_LIMIT,
    {
        let len = self.buffer.len();
        proof {
            let s = self.stride as int;
            assert(y * s + x < len) by (nonlinear_arith)
                requires x < s, y < self.height as int, s >= 0, y >= 0, len == s * self.height;
        }
        self.buffer[y * self.stride + x]
    }

    /// Maps every count of the buffer through `palette`, which holds one entry
    /// for each count from zero to the ceiling.
    pub fn colorize(&self, palette: &Vec<u32>) -> (r: Vec<u32>)
        requires
            self.wf(),
            palette@.len() == ITER_LIMIT + 1,
        ensures
            r@.len() == self.counts_view().len(),
            forall|i: int| 0 <= i < r@.len() ==> #[trigger] r@[i] == palette@[self.counts_view()[i] as int],
    {
        let mut out: Vec<u32> = Vec::with_capacity(self.buffer.len());
        let mut i: usize = 0;
        while i < self.buffer.len()
            invariant
                self.wf(),
                palette@.len() == ITER_LIMIT + 1,
                0 <= i <= self.buffer@.len(),
                out@.len() == i,
                forall|k: int| 0 <= k < i ==> #[trigger] out@[k] == palette@[self.buffer@[k] as int],
            decreases self.buffer@.len() - i,
        {
            let t = self.buffer[i];
            out.push(palette[t as usize]);
            i += 1;
        }
        out
    }
}

proof fn lemma_group_in_buffer(n: int, len: int)
    requires
        0 <= n < len / (NUM_LANES as int),
        len >= 0,
    ensures
        n * NUM_LANES + NUM_LANES <= len,
{
    assert(n * NUM_LANES + NUM_LANES <= len) by (nonlinear_arith)
        requires 0 <= n < len / 8, len >= 0;
}

proof fn lemma_group_fits_row(f: int, s: int)
    requires
        s > 0,
        s % (NUM_LANES as int) == 0,
        f >= 0,
        f % (NUM_LANES as int) == 0,
    ensures
        f % s + NUM_LANES <= s,
{
    let k = NUM_LANES as int;
    let a = s / k;
    assert(s == a * k);
    let b = f / k;
    assert(f == b * k);
    assert((b * k) % (a * k) == (b % a) * k) by (nonlinear_arith)
        requires a > 0, k > 0, b >= 0;
    assert((b % a) * k + k <= a * k) by (nonlinear_arith)
        requires a > 0, k > 0, b >= 0, 0 <= b % a < a;
}

} // verus!
