use vstd::prelude::*;

use std::collections::VecDeque;

use crate::bitmap::with_row;

verus! {

/// The rows `0, 1, ..., height - 1` in order.
pub open spec fn all_rows(height: nat) -> Seq<u32> {
    Seq::new(height, |i: int| i as u32)
}

/// The grid `bytes`, `width` pixels wide, after the rows in `order` were
/// written one after another, row `y` receiving `rows(y)`.
pub open spec fn painted(
    bytes: Seq<u8>,
    width: nat,
    order: Seq<u32>,
    rows: spec_fn(nat) -> Seq<u8>,
) -> Seq<u8>
    decreases order.len(),
{
    if order.len() == 0 {
        bytes
    } else {
        let y = order.last() as nat;
        with_row(painted(bytes, width, order.drop_last(), rows), width, y, rows(y))
    }
}

/// Byte `i` of a grid `width` pixels wide lies in row `i / (4 * width)`, at
/// offset `i % (4 * width)` within it.
proof fn lemma_row_of_byte(width: nat, i: int, y: nat)
    requires
        width > 0,
        i >= 0,
    ensures
        (y * width * 4 <= i < y * width * 4 + width * 4) <==> i / (width * 4) as int == y,
        i / (width * 4) as int == y ==> i - y * width * 4 == i % (width * 4) as int,
        i / (width * 4) as int >= 0,
{
    let d = (width * 4) as int;
    vstd::arithmetic::div_mod::lemma_fundamental_div_mod(i, d);
    vstd::arithmetic::div_mod::lemma_div_pos_is_pos(i, d);
    let q = i / d;
    let m = i % d;
    assert(0 <= m < d);
    assert(y * width * 4 == y * d) by (nonlinear_arith)
        requires
            d == width * 4,
    ;
    assert((y * d <= i < y * d + d) <==> q == y) by (nonlinear_arith)
        requires
            i == d * q + m,
            0 <= m < d,
            d > 0,
            q >= 0,
    ;
    assert(q == y ==> i - y * d == m) by (nonlinear_arith)
        requires
            i == d * q + m,
    ;
}

/// What each byte holds after rows were written: the bytes of a row that
/// was written come from `rows`, every other byte is as before.
proof fn lemma_painted_bytes(
    bytes: Seq<u8>,
    width: nat,
    height: nat,
    order: Seq<u32>,
    rows: spec_fn(nat) -> Seq<u8>,
)
    requires
        width > 0,
        height <= u32::MAX,
        bytes.len() == width * height * 4,
        forall|k: int| 0 <= k < order.len() ==> order[k] < height,
        forall|y: nat| y < height ==> (#[trigger] rows(y)).len() == width * 4,
    ensures
        painted(bytes, width, order, rows).len() == bytes.len(),
        forall|i: int|
            0 <= i < bytes.len() ==> #[trigger] painted(bytes, width, order, rows)[i] == (if order.contains(
                (i / (width * 4) as int) as u32,
            ) {
                rows((i / (width * 4) as int) as nat)[i % (width * 4) as int]
            } else {
                bytes[i]
            }),
    decreases order.len(),
{
    if order.len() > 0 {
        let prev = order.drop_last();
        let y = order.last() as nat;
        lemma_painted_bytes(bytes, width, height, prev, rows);
        let before = painted(bytes, width, prev, rows);
        assert forall|i: int| 0 <= i < bytes.len() implies #[trigger] painted(
            bytes,
            width,
            order,
            rows,
        )[i] == (if order.contains((i / (width * 4) as int) as u32) {
            rows((i / (width * 4) as int) as nat)[i % (width * 4) as int]
        } else {
            bytes[i]
        }) by {
            lemma_row_of_byte(width, i, y);
            let r = i / (width * 4) as int;
            assert(r * (width * 4) as int <= i) by {
                vstd::arithmetic::div_mod::lemma_fundamental_div_mod(i, (width * 4) as int);
            }
            assert(r < height) by (nonlinear_arith)
                requires
                    r * (width * 4) as int <= i,
                    i < width * height * 4,
                    width > 0,
            ;
            assert(order.contains(r as u32) == (prev.contains(r as u32) || r as u32 == order.last()))
                by {
                if prev.contains(r as u32) {
                    let k = choose|k: int| 0 <= k < prev.len() && prev[k] == r as u32;
                    assert(order[k] == r as u32);
                }
                if order.contains(r as u32) {
                    let k = choose|k: int| 0 <= k < order.len() && order[k] == r as u32;
                    if k < order.len() - 1 {
                        assert(prev[k] == r as u32);
                    }
                }
                if r as u32 == order.last() {
                    assert(order[order.len() - 1] == r as u32);
                }
            }
            assert((r as u32 == order.last()) == (r == y));
        }
    }
}

/// Rows committed to the framebuffer in any order give the image that
/// committing them top to bottom gives, as long as every row of the image is
/// among them: a render spread over any number of workers matches a render
/// by one.
pub proof fn lemma_row_order_irrelevant(
    bytes: Seq<u8>,
    width: nat,
    height: nat,
    order: Seq<u32>,
    rows: spec_fn(nat) -> Seq<u8>,
)
    requires
        height <= u32::MAX,
        bytes.len() == width * height * 4,
        forall|k: int| 0 <= k < order.len() ==> order[k] < height,
        forall|y: u32| y < height ==> order.contains(y),
        forall|y: nat| y < height ==> (#[trigger] rows(y)).len() == width * 4,
    ensures
        painted(bytes, width, order, rows) == painted(bytes, width, all_rows(height), rows),
{
    if width == 0 {
        lemma_painted_len(bytes, width, order, rows);
        lemma_painted_len(bytes, width, all_rows(height), rows);
        assert(painted(bytes, width, order, rows) =~= painted(bytes, width, all_rows(height), rows));
    } else {
        let all = all_rows(height);
        lemma_painted_bytes(bytes, width, height, order, rows);
        lemma_painted_bytes(bytes, width, height, all, rows);
        assert forall|i: int| 0 <= i < bytes.len() implies painted(bytes, width, order, rows)[i]
            == painted(bytes, width, all, rows)[i] by {
            let r = i / (width * 4) as int;
            vstd::arithmetic::div_mod::lemma_fundamental_div_mod(i, (width * 4) as int);
            vstd::arithmetic::div_mod::lemma_div_pos_is_pos(i, (width * 4) as int);
            assert(r < height) by (nonlinear_arith)
                requires
                    r * (width * 4) as int <= i,
                    i < width * height * 4,
                    width > 0,
            ;
            assert(order.contains(r as u32));
            assert(all[r] == r as u32);
            assert(all.contains(r as u32));
        }
        assert(painted(bytes, width, order, rows) =~= painted(bytes, width, all, rows));
    }
}

/// However rows are committed, each row of the image ends up either as it
/// was or holding exactly the colors of the one pass that rendered it; it is
/// never a mixture. A pass that was cancelled commits nothing, so its row
/// keeps its initial bytes.
pub proof fn lemma_rows_never_mixed(
    bytes: Seq<u8>,
    width: nat,
    height: nat,
    order: Seq<u32>,
    rows: spec_fn(nat) -> Seq<u8>,
    y: nat,
)
    requires
        height <= u32::MAX,
        bytes.len() == width * height * 4,
        forall|k: int| 0 <= k < order.len() ==> order[k] < height,
        forall|y: nat| y < height ==> (#[trigger] rows(y)).len() == width * 4,
        y < height,
    ensures
        ({
            let start = (y * width * 4) as int;
            let row = painted(bytes, width, order, rows).subrange(start, start + width * 4);
            &&& order.contains(y as u32) ==> row == rows(y)
            &&& !order.contains(y as u32) ==> row == bytes.subrange(start, start + width * 4)
        }),
{
    let start = (y * width * 4) as int;
    let d = (width * 4) as int;
    lemma_painted_len(bytes, width, order, rows);
    assert(start + d <= bytes.len()) by (nonlinear_arith)
        requires
            start == y * width * 4,
            d == width * 4,
            y < height,
            bytes.len() == width * height * 4,
    ;
    assert(start >= 0) by (nonlinear_arith)
        requires
            start == y * width * 4,
    ;
    if width > 0 {
        lemma_painted_bytes(bytes, width, height, order, rows);
        let p = painted(bytes, width, order, rows);
        assert forall|c: int| 0 <= c < d implies (order.contains(y as u32) ==> #[trigger] p[start + c]
            == rows(y)[c]) && (!order.contains(y as u32) ==> p[start + c] == bytes[start + c]) by {
            lemma_row_of_byte(width, start + c, y);
        }
        assert(rows(y).len() == d);
        if order.contains(y as u32) {
            assert forall|c: int| 0 <= c < d implies #[trigger] p.subrange(start, start + d)[c] == rows(y)[c] by {
                assert(p[start + c] == rows(y)[c]);
            }
            assert(p.subrange(start, start + d) =~= rows(y));
        } else {
            assert forall|c: int| 0 <= c < d implies #[trigger] p.subrange(start, start + d)[c] == bytes.subrange(
                start,
                start + d,
            )[c] by {
                assert(p[start + c] == bytes[start + c]);
            }
            assert(p.subrange(start, start + d) =~= bytes.subrange(start, start + d));
        }
    } else {
        let p = painted(bytes, width, order, rows);
        assert(p.subrange(start, start + d) =~= rows(y));
        assert(p.subrange(start, start + d) =~= bytes.subrange(start, start + d));
    }
}

proof fn lemma_painted_len(bytes: Seq<u8>, width: nat, order: Seq<u32>, rows: spec_fn(nat) -> Seq<u8>)
    ensures
        painted(bytes, width, order, rows).len() == bytes.len(),
    decreases order.len(),
{
    if order.len() > 0 {
        lemma_painted_len(bytes, width, order.drop_last(), rows);
    }
}

/// The shared work queue of scanlines. Rows leave it from the front, one
/// at a time; the queue remembers, as ghost state, every row it handed out.
pub struct ScanlineQueue {
    rows: VecDeque<u32>,
    height: u32,
    issued: Ghost<Seq<u32>>,
}

impl ScanlineQueue {
    /// Rows handed out so far, in the order they left the queue.
    pub closed spec fn issued(&self) -> Seq<u32> {
        self.issued@
    }

    /// Rows still waiting, front first.
    pub closed spec fn pending(&self) -> Seq<u32> {
        self.rows@
    }

    pub closed spec fn spec_height(&self) -> u32 {
        self.height
    }

    /// Rows handed out, followed by rows waiting, are every row of the image
    /// once each, in order.
    pub closed spec fn wf(&self) -> bool {
        self.issued@ + self.rows@ == all_rows(self.height as nat)
    }

    /// A queue that holds every row of an image of `height` rows.
    pub fn new(height: u32) -> (r: ScanlineQueue)
        ensures
            r.wf(),
            r.spec_height() == height,
            r.issued() == Seq::<u32>::empty(),
            r.pending() == all_rows(height as nat),
    {
        let mut rows: VecDeque<u32> = VecDeque::new();
        let mut y: u32 = 0;
        while y < height
            invariant
                y <= height,
                rows@ == all_rows(y as nat),
            decreases height - y,
        {
            rows.push_back(y);
            y = y + 1;
            assert(rows@ =~= all_rows(y as nat));
        }
        assert(rows@ =~= all_rows(height as nat));
        let r = ScanlineQueue { rows, height, issued: Ghost(Seq::empty()) };
        assert(r.issued@ + r.rows@ =~= all_rows(height as nat));
        r
    }

    /// Number of rows in the image the queue was made for.
    #[verifier::when_used_as_spec(spec_height)]
    pub fn height(&self) -> (r: u32)
        ensures
            r == self.spec_height(),
    {
        self.height
    }

    /// Takes the next row, or `None` once every row has been handed out.
    pub fn pop_front(&mut self) -> (r: Option<u32>)
        requires
            old(self).wf(),
        ensures
            final(self).wf(),
            final(self).spec_height() == old(self).spec_height(),
            match r {
                Some(y) => {
                    &&& old(self).pending().len() > 0
                    &&& y == old(self).pending()[0]
                    &&& final(self).pending() == old(self).pending().drop_first()
                    &&& final(self).issued() == old(self).issued().push(y)
                },
                None => {
                    &&& old(self).pending().len() == 0
                    &&& final(self).pending() == old(self).pending()
                    &&& final(self).issued() == old(self).issued()
                },
            },
    {
        let r = self.rows.pop_front();
        match r {
            Some(y) => {
                proof {
                    self.issued@ = self.issued@.push(y);
                    assert(self.issued@ + self.rows@ =~= old(self).issued@ + old(self).rows@);
                }
            },
            None => {},
        }
        r
    }

    /// Whether every row has been handed out.
    pub fn is_empty(&self) -> (r: bool)
        ensures
            r == (self.pending().len() == 0),
    {
        self.rows.len() == 0
    }

    /// Number of rows still waiting.
    pub fn len(&self) -> (r: usize)
        ensures
            r == self.pending().len(),
    {
        self.rows.len()
    }
}

/// A queue hands out each row of the image at most once and never a row
/// outside the image; once it is empty, it has handed out every row exactly
/// once.
pub proof fn lemma_each_row_issued_once(q: &ScanlineQueue)
    requires
        q.wf(),
    ensures
        forall|i: int, j: int|
            0 <= i < j < q.issued().len() ==> q.issued()[i] != q.issued()[j],
        forall|i: int| 0 <= i < q.issued().len() ==> q.issued()[i] < q.spec_height(),
        q.pending().len() == 0 ==> q.issued().len() == q.spec_height(),
        q.pending().len() == 0 ==> forall|y: u32| y < q.spec_height() ==> q.issued().contains(y),
{
    let s = q.issued();
    let all = all_rows(q.spec_height() as nat);
    assert(s + q.pending() == all);
    assert forall|i: int| 0 <= i < s.len() implies s[i] == i as u32 && i < q.spec_height() by {
        assert((s + q.pending())[i] == s[i]);
    }
    if q.pending().len() == 0 {
        assert forall|y: u32| y < q.spec_height() implies s.contains(y) by {
            assert((s + q.pending())[y as int] == s[y as int]);
            assert(s[y as int] == y);
        }
    }
}

/// What a worker does next on the row it holds.
#[derive(PartialEq, Eq, Structural, Debug, Clone, Copy)]
pub enum JobStep {
    /// Shade the pixel in this column and hand its color to the job.
    Shade(u32),
    /// Every pixel of the row is shaded: publish the row.
    Complete,
    /// The render was cancelled: drop the row and stop working.
    Abandon,
}

/// One worker's pass over one scanline. The row's colors are collected here
/// and reach the framebuffer together once the row is complete, so a row of
/// the image is either untouched or written whole by one pass.
pub struct ScanlineJob {
    row: u32,
    width: u32,
    pixels: Vec<u8>,
    abandoned: bool,
}

impl ScanlineJob {
    pub closed spec fn spec_row(&self) -> u32 {
        self.row
    }

    pub closed spec fn spec_width(&self) -> u32 {
        self.width
    }

    /// RGBA bytes of the pixels shaded so far, leftmost first.
    pub closed spec fn colors(&self) -> Seq<u8> {
        self.pixels@
    }

    /// Whether the job saw a cancellation.
    pub closed spec fn is_abandoned(&self) -> bool {
        self.abandoned
    }

    /// Number of pixels shaded so far.
    pub open spec fn shaded(&self) -> nat {
        self.colors().len() / 4
    }

    /// Shading work left on the row; every shaded pixel lowers it.
    pub open spec fn remaining(&self) -> nat {
        if self.is_abandoned() {
            0
        } else {
            (self.spec_width() - self.shaded()) as nat
        }
    }

    /// Four bytes per shaded pixel, never more pixels than the row has.
    pub closed spec fn wf(&self) -> bool {
        &&& self.pixels@.len() % 4 == 0
        &&& self.pixels@.len() <= self.width as nat * 4
    }

    /// Whether every pixel of the row is shaded.
    pub open spec fn is_complete(&self) -> bool {
        self.colors().len() == self.spec_width() as nat * 4
    }

    /// A job on row `row` of an image `width` pixels wide, nothing shaded yet.
    pub fn new(row: u32, width: u32) -> (r: ScanlineJob)
        ensures
            r.wf(),
            r.spec_row() == row,
            r.spec_width() == width,
            r.colors() == Seq::<u8>::empty(),
            !r.is_abandoned(),
    {
        ScanlineJob { row, width, pixels: Vec::new(), abandoned: false }
    }

    /// The row this job renders.
    #[verifier::when_used_as_spec(spec_row)]
    pub fn row(&self) -> (r: u32)
        ensures
            r == self.spec_row(),
    {
        self.row
    }

    /// Width of the row in pixels.
    #[verifier::when_used_as_spec(spec_width)]
    pub fn width(&self) -> (r: u32)
        ensures
            r == self.spec_width(),
    {
        self.width
    }

    /// The RGBA bytes collected so far.
    pub fn pixels(&self) -> (r: &Vec<u8>)
        ensures
            r@ == self.colors(),
    {
        &self.pixels
    }

    /// Decides the next step, given whether cancellation has been requested.
    /// The flag is looked at before every pixel; once seen, the job stays
    /// abandoned and never asks for another pixel.
    pub fn next(&mut self, cancelled: bool) -> (r: JobStep)
        requires
            old(self).wf(),
        ensures
            final(self).wf(),
            final(self).spec_row() == old(self).spec_row(),
            final(self).spec_width() == old(self).spec_width(),
            final(self).colors() == old(self).colors(),
            final(self).is_abandoned() == (old(self).is_abandoned() || cancelled),
            r == (if old(self).is_abandoned() || cancelled {
                JobStep::Abandon
            } else if old(self).shaded() < old(self).spec_width() {
                JobStep::Shade(old(self).shaded() as u32)
            } else {
                JobStep::Complete
            }),
            r == JobStep::Complete <==> !final(self).is_abandoned() && old(self).is_complete(),
    {
        if self.abandoned || cancelled {
            self.abandoned = true;
            JobStep::Abandon
        } else {
            let done: usize = self.pixels.len() / 4;
            if done < self.width as usize {
                JobStep::Shade(done as u32)
            } else {
                JobStep::Complete
            }
        }
    }

    /// Records the color of the next pixel of the row, fully opaque.
    pub fn push_color(&mut self, r: u8, g: u8, b: u8)
        requires
            old(self).wf(),
            !old(self).is_abandoned(),
            old(self).shaded() < old(self).spec_width(),
        ensures
            final(self).wf(),
            final(self).spec_row() == old(self).spec_row(),
            final(self).spec_width() == old(self).spec_width(),
            !final(self).is_abandoned(),
            final(self).colors() == old(self).colors() + seq![r, g, b, 255u8],
            final(self).shaded() == old(self).shaded() + 1,
            final(self).remaining() < old(self).remaining(),
    {
        self.pixels.push(r);
        self.pixels.push(g);
        self.pixels.push(b);
        self.pixels.push(255u8);
        assert(self.pixels@ =~= old(self).pixels@ + seq![r, g, b, 255u8]);
    }
}

/// Relies on `num_cpus::get`: the number of logical CPUs this process may
/// use, which its documentation promises is at least one.
#[verifier::external_body]
fn available_cpus() -> (r: usize)
    ensures
        r >= 1,
{
    num_cpus::get()
}

/// Size of the worker pool for a machine with `cpus` logical CPUs: one CPU
/// is left to the thread that shows progress, and there is always at least
/// one worker.
pub fn workers_for(cpus: usize) -> (r: usize)
    ensures
        r == (if cpus > 1 {
            cpus - 1
        } else {
            1
        }),
        r >= 1,
{
    if cpus > 1 {
        cpus - 1
    } else {
        1
    }
}

/// Size of the worker pool on this machine.
pub fn worker_count() -> (r: usize)
    ensures
        r >= 1,
{
    workers_for(available_cpus())
}

} // verus!
