//! Decoded pictures on their way to a thumbnail or to the screen.

use crate::exif_orientation::{upright, ExifOrientation};
use crate::frame::Frame;
use vstd::prelude::*;

verus! {

/// A decoded picture, with the knowledge whether its decoder has already
/// set it upright.
pub enum DecodedImage {
    /// The decoder has applied the orientation.
    WithTransformations(Frame),
    /// The orientation is still to be applied.
    WithoutTransformations(Frame),
}

impl DecodedImage {
    /// The picture, whichever way it was decoded.
    pub open spec fn frame(&self) -> Frame {
        match *self {
            DecodedImage::WithTransformations(f) => f,
            DecodedImage::WithoutTransformations(f) => f,
        }
    }

    /// The upright picture: the orientation is applied unless the decoder
    /// has done so.
    pub fn oriented(self, orientation: ExifOrientation) -> (r: Frame)
        requires
            self.frame().wf(),
        ensures
            r.wf(),
            r@ == match self {
                DecodedImage::WithTransformations(f) => f@,
                DecodedImage::WithoutTransformations(f) => upright(orientation, f@),
            },
    {
        match self {
            DecodedImage::WithTransformations(image) => image,
            DecodedImage::WithoutTransformations(image) => orientation.apply(image),
        }
    }

    /// The same kind of decoded picture over the picture that `f` makes of
    /// this one.
    pub fn map<F: FnOnce(Frame) -> Frame>(self, f: F) -> (r: DecodedImage)
        requires
            f.requires((self.frame(),)),
        ensures
            f.ensures((self.frame(),), r.frame()),
            r is WithTransformations <==> self is WithTransformations,
    {
        match self {
            DecodedImage::WithTransformations(i) => DecodedImage::WithTransformations(f(i)),
            DecodedImage::WithoutTransformations(i) => DecodedImage::WithoutTransformations(f(i)),
        }
    }
}

/// The first `line_len` bytes of each of the first `rows` rows of `data`,
/// where the rows start `stride` bytes apart.
pub open spec fn packed_rows(data: Seq<u8>, stride: int, line_len: int, rows: int) -> Seq<u8>
    decreases rows,
{
    if rows <= 0 {
        Seq::empty()
    } else {
        packed_rows(data, stride, line_len, rows - 1) + data.subrange(
            (rows - 1) * stride,
            (rows - 1) * stride + line_len,
        )
    }
}

/// The number of rows that `len` bytes hold at `stride` bytes a row, the
/// last of which may be short.
pub open spec fn row_count(len: int, stride: int) -> int {
    if stride > 0 {
        (len + stride - 1) / stride
    } else {
        0
    }
}

/// Copies the pixels of a decoded plane into a buffer without padding.
///
/// The plane holds `width` pixels of three bytes in each row, and its rows
/// start `stride` bytes apart. A stride below the length of a row is
/// refused; with a stride of exactly that length the data is copied as it
/// is; otherwise the padding at the end of each row is left out.
pub fn allocate_rgb_buffer(width: u32, stride: usize, data: &[u8]) -> (r: Option<Vec<u8>>)
    requires
        width * 3 <= u32::MAX,
        stride > width * 3 ==> (data@.len() as int) % (stride as int) == 0 || (data@.len() as int)
            % (stride as int) >= width * 3,
    ensures
        match r {
            None => stride < width * 3,
            Some(buf) => stride >= width * 3 && if stride == width * 3 {
                buf@ == data@
            } else {
                buf@ == packed_rows(
                    data@,
                    stride as int,
                    width * 3,
                    row_count(data@.len() as int, stride as int),
                )
            },
        },
{
    let line_len = (width * 3) as usize;
    if stride < line_len {
        None
    } else if stride == line_len {
        Some(vstd::slice::slice_to_vec(data))
    } else {
        let mut buf: Vec<u8> = Vec::new();
        let n = data.len();
        let rows: usize = if n == 0 {
            0
        } else {
            (n - 1) / stride + 1
        };
        proof {
            lemma_rows(n as int, stride as int);
        }
        let mut row: usize = 0;
        while row < rows
            invariant
                0 <= line_len < stride,
                n == data@.len(),
                row <= rows,
                rows == row_count(n as int, stride as int),
                n > 0 ==> rows == (n - 1) / (stride as int) + 1,
                n == 0 ==> rows == 0,
                n as int % stride as int == 0 || n as int % stride as int >= line_len,
                buf@ == packed_rows(data@, stride as int, line_len as int, row as int),
            decreases rows - row,
        {
            proof {
                assert(row * stride <= n - 1) by (nonlinear_arith)
                    requires
                        row <= (n - 1) / (stride as int),
                        stride > 0,
                        n > 0,
                ;
                lemma_row_fits(n as int, stride as int, line_len as int, row as int);
            }
            let start = row * stride;
            let mut k: usize = 0;
            let ghost before = buf@;
            while k < line_len
                invariant
                    k <= line_len,
                    start + line_len <= n,
                    n == data@.len(),
                    buf@ == before + data@.subrange(start as int, start + k),
                decreases line_len - k,
            {
                buf.push(data[start + k]);
                assert(data@.subrange(start as int, start + k + 1) =~= data@.subrange(
                    start as int,
                    start + k,
                ).push(data@[start + k]));
                k += 1;
            }
            row += 1;
        }
        Some(buf)
    }
}

proof fn lemma_rows(n: int, stride: int)
    requires
        0 <= n,
        0 < stride,
    ensures
        n == 0 ==> row_count(n, stride) == 0,
        n > 0 ==> row_count(n, stride) == (n - 1) / stride + 1,
{
    if n > 0 {
        assert((n + stride - 1) / stride == (n - 1) / stride + 1) by {
            vstd::arithmetic::div_mod::lemma_div_plus_one(n - 1, stride);
        }
    } else {
        assert((stride - 1) / stride == 0) by {
            vstd::arithmetic::div_mod::lemma_basic_div(stride - 1, stride);
        }
    }
}

proof fn lemma_row_fits(n: int, stride: int, line_len: int, row: int)
    requires
        0 <= line_len < stride,
        0 <= row,
        row * stride < n,
        n % stride == 0 || n % stride >= line_len,
    ensures
        row * stride + line_len <= n,
{
    let q = n / stride;
    let r = n % stride;
    assert(n == stride * q + r) by {
        vstd::arithmetic::div_mod::lemma_fundamental_div_mod(n, stride);
    }
    assert(row <= q) by (nonlinear_arith)
        requires
            row * stride < n,
            n == stride * q + r,
            0 <= r < stride,
            stride > 0,
    ;
    if row < q {
        assert(row * stride + stride <= stride * q) by (nonlinear_arith)
            requires
                row < q,
                stride > 0,
        ;
    } else {
        assert(row * stride == stride * q) by (nonlinear_arith)
            requires
                row == q,
        ;
    }
}

} // verus!
