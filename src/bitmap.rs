use vstd::prelude::*;

verus! {

/// Byte index of channel `c` of pixel `(x, y)` in a row-major RGBA grid of
/// the given width.
pub open spec fn byte_index(width: nat, x: nat, y: nat, c: nat) -> nat {
    (y * width + x) * 4 + c
}

/// `bytes` with pixel `(x, y)` set to the opaque color `(r, g, b)`.
pub open spec fn with_pixel(bytes: Seq<u8>, width: nat, x: nat, y: nat, r: u8, g: u8, b: u8) -> Seq<u8> {
    let i = byte_index(width, x, y, 0) as int;
    bytes.update(i, r).update(i + 1, g).update(i + 2, b).update(i + 3, 255u8)
}

/// `bytes` with the first and third channel of every pixel exchanged.
pub open spec fn red_blue_swapped(bytes: Seq<u8>) -> Seq<u8> {
    Seq::new(
        bytes.len(),
        |i: int|
            if i % 4 == 0 && i + 2 < bytes.len() {
                bytes[i + 2]
            } else if i % 4 == 2 {
                bytes[i - 2]
            } else {
                bytes[i]
            },
    )
}

/// `bytes` with row `y` replaced by `row`, a grid of the given width.
pub open spec fn with_row(bytes: Seq<u8>, width: nat, y: nat, row: Seq<u8>) -> Seq<u8> {
    let start = y * width * 4;
    Seq::new(
        bytes.len(),
        |i: int|
            if start <= i < start + width * 4 {
                row[i - start]
            } else {
                bytes[i]
            },
    )
}

proof fn lemma_pixel_in_grid(width: nat, height: nat, x: nat, y: nat)
    requires
        x < width,
        y < height,
    ensures
        byte_index(width, x, y, 0) + 4 <= width * height * 4,
        byte_index(width, x, y, 0) == y * (width * 4) + x * 4,
        width * 4 <= width * height * 4,
{
    assert(width * 4 <= width * height * 4) by (nonlinear_arith)
        requires
            y < height,
    ;
    assert((y * width + x) * 4 + 4 <= width * height * 4) by (nonlinear_arith)
        requires
            x < width,
            y < height,
    ;
    assert((y * width + x) * 4 == y * (width * 4) + x * 4) by (nonlinear_arith);
}

proof fn lemma_row_in_grid(width: nat, height: nat, y: nat)
    requires
        y < height,
    ensures
        y * width * 4 + width * 4 <= width * height * 4,
        y * width * 4 == y * (width * 4),
{
    assert(y * width * 4 + width * 4 <= width * height * 4) by (nonlinear_arith)
        requires
            y < height,
    ;
    assert(y * width * 4 == y * (width * 4)) by (nonlinear_arith);
}

/// A row-major RGBA byte grid, origin at the top-left corner.
pub struct Bitmap {
    width: u32,
    height: u32,
    data: Vec<u8>,
}

impl Bitmap {
    pub closed spec fn spec_width(&self) -> u32 {
        self.width
    }

    pub closed spec fn spec_height(&self) -> u32 {
        self.height
    }

    /// Width in pixels.
    #[verifier::when_used_as_spec(spec_width)]
    pub fn width(&self) -> (r: u32)
        ensures
            r == self.spec_width(),
    {
        self.width
    }

    /// Height in pixels.
    #[verifier::when_used_as_spec(spec_height)]
    pub fn height(&self) -> (r: u32)
        ensures
            r == self.spec_height(),
    {
        self.height
    }

    /// The bytes of the grid.
    pub closed spec fn bytes(&self) -> Seq<u8> {
        self.data@
    }

    /// The grid holds exactly four bytes per pixel, and every byte offset
    /// fits in a `u32`.
    pub closed spec fn wf(&self) -> bool {
        &&& self.data@.len() == self.width() as nat * self.height() as nat * 4
        &&& self.width() as nat * self.height() as nat * 4 <= u32::MAX
    }

    /// What the layout invariant tells a caller.
    pub proof fn lemma_layout(&self)
        requires
            self.wf(),
        ensures
            self.bytes().len() == self.width() as nat * self.height() as nat * 4,
            self.width() as nat * self.height() as nat * 4 <= u32::MAX,
    {
    }

    /// A grid of `width` by `height` pixels, every byte zero.
    pub fn new(width: u32, height: u32) -> (r: Bitmap)
        requires
            width as nat * height as nat * 4 <= u32::MAX,
        ensures
            r.wf(),
            r.bytes().len() == width as nat * height as nat * 4,
            r.width() == width,
            r.height() == height,
            forall|i: int| 0 <= i < r.bytes().len() ==> r.bytes()[i] == 0u8,
    {
        proof {
            vstd::arithmetic::mul::lemma_mul_is_associative(width as int, height as int, 4);
        }
        let n: u32 = width * height * 4;
        Bitmap { width, height, data: vec![0u8; n as usize] }
    }

    /// The bytes of the grid, four per pixel, row after row.
    pub fn get_pixels(&self) -> (r: &Vec<u8>)
        ensures
            r@ == self.bytes(),
    {
        &self.data
    }

    /// Sets pixel `(x, y)` to the opaque color `(r, g, b)`.
    pub fn set_pixel(&mut self, x: u32, y: u32, r: u8, g: u8, b: u8)
        requires
            old(self).wf(),
            x < old(self).width(),
            y < old(self).height(),
        ensures
            final(self).wf(),
            final(self).width() == old(self).width(),
            final(self).height() == old(self).height(),
            final(self).bytes() == with_pixel(
                old(self).bytes(),
                old(self).width() as nat,
                x as nat,
                y as nat,
                r,
                g,
                b,
            ),
    {
        proof {
            lemma_pixel_in_grid(self.width as nat, self.height as nat, x as nat, y as nat);
        }
        let offset: usize = (y * (self.width * 4) + (x * 4)) as usize;
        self.data.set(offset, r);
        self.data.set(offset + 1, g);
        self.data.set(offset + 2, b);
        self.data.set(offset + 3, 255u8);
    }

    /// Exchanges the red and blue channel of every pixel.
    pub fn swap_red_and_blue(&mut self)
        requires
            old(self).wf(),
        ensures
            final(self).wf(),
            final(self).width() == old(self).width(),
            final(self).height() == old(self).height(),
            final(self).bytes() == red_blue_swapped(old(self).bytes()),
    {
        let n: usize = self.data.len();
        let mut i: usize = 0;
        while i < n
            invariant
                self.width == old(self).width,
                self.height == old(self).height,
                self.data@.len() == n,
                n == old(self).data@.len(),
                n % 4 == 0,
                i % 4 == 0,
                i <= n,
                forall|j: int| 0 <= j < i ==> #[trigger] self.data@[j] == red_blue_swapped(old(self).data@)[j],
                forall|j: int| i <= j < n ==> #[trigger] self.data@[j] == old(self).data@[j],
            decreases n - i,
        {
            let red: u8 = self.data[i];
            let blue: u8 = self.data[i + 2];
            self.data.set(i, blue);
            self.data.set(i + 2, red);
            i = i + 4;
        }
        assert(self.data@ =~= red_blue_swapped(old(self).data@));
    }

    /// Replaces row `y` with `row`, which holds four bytes for each pixel of it.
    pub fn set_scanline(&mut self, y: u32, row: &Vec<u8>)
        requires
            old(self).wf(),
            y < old(self).height(),
            row@.len() == old(self).width() as nat * 4,
        ensures
            final(self).wf(),
            final(self).width() == old(self).width(),
            final(self).height() == old(self).height(),
            final(self).bytes() == with_row(old(self).bytes(), old(self).width() as nat, y as nat, row@),
    {
        proof {
            lemma_row_in_grid(self.width as nat, self.height as nat, y as nat);
        }
        let len: usize = (self.width * 4) as usize;
        let start: usize = (y * (self.width * 4)) as usize;
        let mut k: usize = 0;
        while k < len
            invariant
                self.width == old(self).width,
                self.height == old(self).height,
                self.data@.len() == old(self).data@.len(),
                len == self.width * 4,
                row@.len() == len,
                start == y * self.width * 4,
                start + len <= self.data@.len(),
                self.data@.len() <= u32::MAX,
                k <= len,
                forall|j: int| 0 <= j < start ==> #[trigger] self.data@[j] == old(self).data@[j],
                forall|j: int| start + k <= j < self.data@.len() ==> #[trigger] self.data@[j] == old(self).data@[j],
                forall|j: int| start <= j < start + k ==> #[trigger] self.data@[j] == row@[j - start],
            decreases len - k,
        {
            self.data.set(start + k, row[k]);
            k = k + 1;
        }
        assert(self.data@ =~= with_row(old(self).data@, self.width as nat, y as nat, row@));
    }

    /// Sets every pixel to the color `(r, g, b, a)`.
    pub fn fill(&mut self, r: u8, g: u8, b: u8, a: u8)
        requires
            old(self).wf(),
        ensures
            final(self).wf(),
            final(self).width() == old(self).width(),
            final(self).height() == old(self).height(),
            final(self).bytes().len() == old(self).bytes().len(),
            forall|i: int|
                0 <= i < final(self).bytes().len() ==> #[trigger] final(self).bytes()[i] == (
                if i % 4 == 0 {
                    r
                } else if i % 4 == 1 {
                    g
                } else if i % 4 == 2 {
                    b
                } else {
                    a
                }),
    {
        let n: usize = self.data.len();
        let mut i: usize = 0;
        while i < n
            invariant
                self.width == old(self).width,
                self.height == old(self).height,
                self.data@.len() == n,
                n == old(self).data@.len(),
                n % 4 == 0,
                i % 4 == 0,
                i <= n,
                forall|j: int|
                    0 <= j < i ==> #[trigger] self.data@[j] == (if j % 4 == 0 {
                        r
                    } else if j % 4 == 1 {
                        g
                    } else if j % 4 == 2 {
                        b
                    } else {
                        a
                    }),
            decreases n - i,
        {
            self.data.set(i, r);
            self.data.set(i + 1, g);
            self.data.set(i + 2, b);
            self.data.set(i + 3, a);
            i = i + 4;
        }
    }
}

} // verus!
