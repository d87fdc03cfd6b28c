use vstd::prelude::*;

use crate::bitmap::Bitmap;

verus! {

/// ASCII decimal digits of `n`, most significant first, without leading zeros.
pub open spec fn decimal(n: nat) -> Seq<u8>
    decreases n,
{
    if n < 10 {
        seq![(48 + n) as u8]
    } else {
        decimal(n / 10) + seq![(48 + n % 10) as u8]
    }
}

/// `v` in decimal, right-aligned with spaces in a field of three characters.
pub open spec fn padded3(v: u8) -> Seq<u8> {
    if v < 10 {
        seq![32u8, 32u8] + decimal(v as nat)
    } else if v < 100 {
        seq![32u8] + decimal(v as nat)
    } else {
        decimal(v as nat)
    }
}

/// The plain-text PPM header: magic number, size, and the largest channel value.
pub open spec fn ppm_header(width: nat, height: nat) -> Seq<u8> {
    seq![80u8, 51u8, 10u8] + decimal(width) + seq![32u8] + decimal(height) + seq![10u8] + seq![
        50u8,
        53u8,
        53u8,
        10u8,
    ]
}

/// One line of the PPM body: three channel values separated by spaces.
pub open spec fn ppm_line(a: u8, b: u8, c: u8) -> Seq<u8> {
    padded3(a) + seq![32u8] + padded3(b) + seq![32u8] + padded3(c) + seq![10u8]
}

/// The PPM lines of the first `n` pixels of an RGBA grid; with `bgr` the
/// first and third channel are written in exchanged order.
pub open spec fn ppm_lines(bytes: Seq<u8>, n: nat, bgr: bool) -> Seq<u8>
    decreases n,
{
    if n == 0 {
        seq![]
    } else {
        let i = (n - 1) * 4;
        let line = if bgr {
            ppm_line(bytes[i + 2], bytes[i + 1], bytes[i])
        } else {
            ppm_line(bytes[i], bytes[i + 1], bytes[i + 2])
        };
        ppm_lines(bytes, (n - 1) as nat, bgr) + line
    }
}

/// The whole plain-text PPM file of a grid, one line per pixel, alpha left out.
pub open spec fn ppm_file(width: nat, height: nat, bytes: Seq<u8>, bgr: bool) -> Seq<u8> {
    ppm_header(width, height) + ppm_lines(bytes, bytes.len() / 4, bgr)
}

/// Appends the decimal digits of `n`.
fn push_decimal(out: &mut Vec<u8>, n: u32)
    ensures
        final(out)@ == old(out)@ + decimal(n as nat),
    decreases n,
{
    if n >= 10 {
        push_decimal(out, n / 10);
    }
    out.push((48 + n % 10) as u8);
    proof {
        if n >= 10 {
            assert(final(out)@ =~= old(out)@ + decimal(n as nat));
        } else {
            assert(final(out)@ =~= old(out)@ + decimal(n as nat));
        }
    }
}

/// Appends `v` right-aligned in three characters.
fn push_padded3(out: &mut Vec<u8>, v: u8)
    ensures
        final(out)@ == old(out)@ + padded3(v),
{
    if v < 10 {
        out.push(32u8);
        out.push(32u8);
    } else if v < 100 {
        out.push(32u8);
    }
    push_decimal(out, v as u32);
    assert(final(out)@ =~= old(out)@ + padded3(v));
}

fn push_line(out: &mut Vec<u8>, a: u8, b: u8, c: u8)
    ensures
        final(out)@ == old(out)@ + ppm_line(a, b, c),
{
    push_padded3(out, a);
    out.push(32u8);
    push_padded3(out, b);
    out.push(32u8);
    push_padded3(out, c);
    out.push(10u8);
    assert(final(out)@ =~= old(out)@ + ppm_line(a, b, c));
}

fn encode_ppm(image: &Bitmap, bgr: bool) -> (r: Vec<u8>)
    requires
        image.wf(),
    ensures
        r@ == ppm_file(image.width() as nat, image.height() as nat, image.bytes(), bgr),
{
    proof {
        image.lemma_layout();
    }
    let bytes = image.get_pixels();
    let mut out: Vec<u8> = Vec::new();
    out.push(80u8);
    out.push(51u8);
    out.push(10u8);
    push_decimal(&mut out, image.width());
    out.push(32u8);
    push_decimal(&mut out, image.height());
    out.push(10u8);
    out.push(50u8);
    out.push(53u8);
    out.push(53u8);
    out.push(10u8);
    assert(out@ =~= ppm_header(image.width() as nat, image.height() as nat));
    let n: usize = bytes.len() / 4;
    let mut p: usize = 0;
    while p < n
        invariant
            bytes@ == image.bytes(),
            n == bytes@.len() / 4,
            bytes@.len() % 4 == 0,
            bytes@.len() <= u32::MAX,
            p <= n,
            out@ == ppm_header(image.width() as nat, image.height() as nat) + ppm_lines(
                bytes@,
                p as nat,
                bgr,
            ),
        decreases n - p,
    {
        assert(p * 4 + 4 <= bytes@.len());
        let i: usize = p * 4;
        let ghost before = out@;
        if bgr {
            push_line(&mut out, bytes[i + 2], bytes[i + 1], bytes[i]);
        } else {
            push_line(&mut out, bytes[i], bytes[i + 1], bytes[i + 2]);
        }
        p = p + 1;
        assert(out@ =~= ppm_header(image.width() as nat, image.height() as nat) + ppm_lines(
            bytes@,
            p as nat,
            bgr,
        ));
    }
    out
}

impl Bitmap {
    /// The grid as a plain-text PPM file, channels in red, green, blue order.
    pub fn ppm_bytes(&self) -> (r: Vec<u8>)
        requires
            self.wf(),
        ensures
            r@ == ppm_file(self.width() as nat, self.height() as nat, self.bytes(), false),
    {
        encode_ppm(self, false)
    }

    /// The grid as a plain-text PPM file, with the first and third channel of
    /// each pixel exchanged.
    pub fn ppm_bytes_bgr(&self) -> (r: Vec<u8>)
        requires
            self.wf(),
        ensures
            r@ == ppm_file(self.width() as nat, self.height() as nat, self.bytes(), true),
    {
        encode_ppm(self, true)
    }
}

} // verus!
