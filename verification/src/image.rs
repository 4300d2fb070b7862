//! Rank-3 byte tensors and image layout conversions.

use vstd::prelude::*;

verus! {

/// Error returned when a pixel buffer does not match the shape it is
/// claimed to have.
#[derive(Clone, Copy, Debug, PartialEq, Eq, Structural)]
pub enum ImageError {
    /// The product of the dimensions differs from the buffer length.
    SizeMismatch,
}

/// Position of element `(i, j, k)` in the row-major flattening of a
/// rank-3 tensor whose last two dimensions have extents `e1` and `e2`.
pub open spec fn linear3(i: int, j: int, k: int, e1: int, e2: int) -> int {
    (i * e1 + j) * e2 + k
}

/// A rank-3 tensor of bytes in row-major order.
///
/// An image in channel-height-width (CHW) order is a `Tensor` whose
/// dimensions are `[channels, height, width]`; in height-width-channel
/// (HWC) order they are `[height, width, channels]`.
pub struct Tensor {
    d0: usize,
    d1: usize,
    d2: usize,
    data: Vec<u8>,
}

impl Tensor {
    /// Extent of the first dimension.
    pub closed spec fn dim0(&self) -> int {
        self.d0 as int
    }

    /// Extent of the second dimension.
    pub closed spec fn dim1(&self) -> int {
        self.d1 as int
    }

    /// Extent of the third dimension.
    pub closed spec fn dim2(&self) -> int {
        self.d2 as int
    }

    /// The flat row-major element buffer.
    pub closed spec fn flat(&self) -> Seq<u8> {
        self.data@
    }

    /// The buffer holds exactly one byte per element of the shape.
    pub open spec fn wf(&self) -> bool {
        self.dim0() * self.dim1() * self.dim2() == self.flat().len()
    }

    /// Element at position `(i, j, k)`.
    pub open spec fn at(&self, i: int, j: int, k: int) -> u8 {
        self.flat()[linear3(i, j, k, self.dim1(), self.dim2())]
    }

    /// Builds a tensor of shape `[d0, d1, d2]` over `data`, which must hold
    /// exactly `d0 * d1 * d2` bytes.
    pub fn new(d0: usize, d1: usize, d2: usize, data: Vec<u8>) -> (r: Result<Tensor, ImageError>)
        ensures
            r is Ok <==> d0 * d1 * d2 == data@.len(),
            r matches Ok(t) ==> {
                &&& t.wf()
                &&& t.dim0() == d0
                &&& t.dim1() == d1
                &&& t.dim2() == d2
                &&& t.flat() == data@
            },
            r matches Err(e) ==> e == ImageError::SizeMismatch,
    {
        let n = data.len();
        if d0 == 0 || d1 == 0 || d2 == 0 {
            proof {
                assert(d0 * d1 * d2 == 0) by (nonlinear_arith)
                    requires d0 == 0 || d1 == 0 || d2 == 0;
            }
            if n == 0 {
                return Ok(Tensor { d0, d1, d2, data });
            }
            return Err(ImageError::SizeMismatch);
        }
        if let Some(p01) = d0.checked_mul(d1) {
            if let Some(p) = p01.checked_mul(d2) {
                if p == n {
                    return Ok(Tensor { d0, d1, d2, data });
                }
            }
        }
        proof {
            assert(d0 * d1 * d2 >= d0 * d1) by (nonlinear_arith)
                requires d0 >= 1 && d1 >= 1 && d2 >= 1;
        }
        Err(ImageError::SizeMismatch)
    }

    /// The shape as `(dim0, dim1, dim2)`.
    pub fn size(&self) -> (r: (usize, usize, usize))
        ensures
            r.0 == self.dim0(),
            r.1 == self.dim1(),
            r.2 == self.dim2(),
    {
        (self.d0, self.d1, self.d2)
    }

    /// Element at position `(i, j, k)`.
    pub fn get(&self, i: usize, j: usize, k: usize) -> (r: u8)
        requires
            self.wf(),
            i < self.dim0(),
            j < self.dim1(),
            k < self.dim2(),
        ensures
            r == self.at(i as int, j as int, k as int),
    {
        // Binding the length records that the buffer fits in a usize, which
        // bounds the index arithmetic below.
        let _n = self.data.len();
        proof {
            lemma_linear3_bound(i as int, j as int, k as int, self.dim0(), self.dim1(), self.dim2());
        }
        self.data[(i * self.d1 + j) * self.d2 + k]
    }

    /// Gives up the tensor and hands back its flat row-major buffer.
    pub fn into_data(self) -> (r: Vec<u8>)
        ensures
            r@ == self.flat(),
    {
        self.data
    }
}

/// For indices within the shape `[d0, d1, d2]`, the row-major position is
/// within the flat buffer, and it grows with each index.
proof fn lemma_linear3_bound(i: int, j: int, k: int, d0: int, d1: int, d2: int)
    by (nonlinear_arith)
    requires
        0 <= i < d0,
        0 <= j < d1,
        0 <= k < d2,
    ensures
        0 <= i * d1 + j < d0 * d1,
        i * d1 + j <= linear3(i, j, k, d1, d2),
        0 <= linear3(i, j, k, d1, d2) < d0 * d1 * d2,
{
}

/// Row-major positions respect the lexicographic order of the indices.
proof fn lemma_linear3_lex_lt(
    a0: int, a1: int, a2: int,
    b0: int, b1: int, b2: int,
    e1: int, e2: int,
)
    by (nonlinear_arith)
    requires
        0 <= a0,
        0 <= a1 < e1,
        0 <= a2 < e2,
        0 <= b1,
        0 <= b2,
        a0 < b0 || (a0 == b0 && a1 < b1) || (a0 == b0 && a1 == b1 && a2 < b2),
    ensures
        linear3(a0, a1, a2, e1, e2) < linear3(b0, b1, b2, e1, e2),
{
}

/// Reorders a height-width-channel image into channel-height-width order.
///
/// Element `(y, x, c)` of the input becomes element `(c, y, x)` of the
/// result: this is the axis permutation `[2, 0, 1]`.
#[verifier::loop_isolation(false)]
pub fn hwc_to_chw(t: &Tensor) -> (r: Tensor)
    requires
        t.wf(),
    ensures
        r.wf(),
        r.dim0() == t.dim2(),
        r.dim1() == t.dim0(),
        r.dim2() == t.dim1(),
        forall|i: int, j: int, k: int|
            0 <= i < t.dim0() && 0 <= j < t.dim1() && 0 <= k < t.dim2()
                ==> r.at(k, i, j) == t.at(i, j, k),
{
    let d0 = t.d0;
    let d1 = t.d1;
    let d2 = t.d2;
    // Binding the length records that the buffer fits in a usize, which
    // bounds the index arithmetic below.
    let _n = t.data.len();
    let mut out: Vec<u8> = Vec::new();
    let mut c: usize = 0;
    while c < d2
        invariant
            c <= d2,
            out@.len() == (c * d0) * d1,
            forall|ci: int, ii: int, ji: int|
                0 <= ci < c && 0 <= ii < d0 && 0 <= ji < d1
                    ==> out@[linear3(ci, ii, ji, d0 as int, d1 as int)] == t.at(ii, ji, ci),
        decreases d2 - c,
    {
        let mut i: usize = 0;
        while i < d0
            invariant
                i <= d0,
                out@.len() == (c * d0 + i) * d1,
                forall|ci: int, ii: int, ji: int|
                    0 <= ci < c && 0 <= ii < d0 && 0 <= ji < d1
                        ==> out@[linear3(ci, ii, ji, d0 as int, d1 as int)] == t.at(ii, ji, ci),
                forall|ii: int, ji: int|
                    0 <= ii < i && 0 <= ji < d1
                        ==> out@[linear3(c as int, ii, ji, d0 as int, d1 as int)]
                            == t.at(ii, ji, c as int),
            decreases d0 - i,
        {
            let mut j: usize = 0;
            while j < d1
                invariant
                    j <= d1,
                    out@.len() == (c * d0 + i) * d1 + j,
                    forall|ci: int, ii: int, ji: int|
                        0 <= ci < c && 0 <= ii < d0 && 0 <= ji < d1
                            ==> out@[linear3(ci, ii, ji, d0 as int, d1 as int)] == t.at(ii, ji, ci),
                    forall|ii: int, ji: int|
                        0 <= ii < i && 0 <= ji < d1
                            ==> out@[linear3(c as int, ii, ji, d0 as int, d1 as int)]
                                == t.at(ii, ji, c as int),
                    forall|ji: int|
                        0 <= ji < j
                            ==> out@[linear3(c as int, i as int, ji, d0 as int, d1 as int)]
                                == t.at(i as int, ji, c as int),
                decreases d1 - j,
            {
                proof {
                    lemma_linear3_bound(i as int, j as int, c as int, d0 as int, d1 as int, d2 as int);
                }
                let idx = (i * d1 + j) * d2 + c;
                out.push(t.data[idx]);
                proof {
                    assert forall|ci: int, ii: int, ji: int|
                        0 <= ci < c && 0 <= ii < d0 && 0 <= ji < d1 implies
                        out@[linear3(ci, ii, ji, d0 as int, d1 as int)] == t.at(ii, ji, ci) by {
                        lemma_linear3_lex_lt(
                            ci, ii, ji,
                            c as int, i as int, j as int,
                            d0 as int, d1 as int,
                        );
                    }
                    assert forall|ii: int, ji: int|
                        0 <= ii < i && 0 <= ji < d1 implies
                        out@[linear3(c as int, ii, ji, d0 as int, d1 as int)]
                            == t.at(ii, ji, c as int) by {
                        lemma_linear3_lex_lt(
                            c as int, ii, ji,
                            c as int, i as int, j as int,
                            d0 as int, d1 as int,
                        );
                    }
                    assert forall|ji: int|
                        0 <= ji < j + 1 implies
                        out@[linear3(c as int, i as int, ji, d0 as int, d1 as int)]
                            == t.at(i as int, ji, c as int) by {
                        if ji < j {
                            lemma_linear3_lex_lt(
                                c as int, i as int, ji,
                                c as int, i as int, j as int,
                                d0 as int, d1 as int,
                            );
                        }
                    }
                }
                j += 1;
            }
            proof {
                assert((c * d0 + i) * d1 + d1 == (c * d0 + (i + 1)) * d1) by (nonlinear_arith);
            }
            i += 1;
        }
        proof {
            assert((c * d0 + d0) * d1 == ((c + 1) * d0) * d1) by (nonlinear_arith);
        }
        c += 1;
    }
    Tensor { d0: d2, d1: d0, d2: d1, data: out }
}

/// Reorders a channel-height-width image into height-width-channel order.
///
/// Element `(c, y, x)` of the input becomes element `(y, x, c)` of the
/// result: this is the axis permutation `[1, 2, 0]`, the inverse of
/// [`hwc_to_chw`].
#[verifier::loop_isolation(false)]
pub fn chw_to_hwc(t: &Tensor) -> (r: Tensor)
    requires
        t.wf(),
    ensures
        r.wf(),
        r.dim0() == t.dim1(),
        r.dim1() == t.dim2(),
        r.dim2() == t.dim0(),
        forall|i: int, j: int, k: int|
            0 <= i < t.dim0() && 0 <= j < t.dim1() && 0 <= k < t.dim2()
                ==> r.at(j, k, i) == t.at(i, j, k),
{
    let d0 = t.d0;
    let d1 = t.d1;
    let d2 = t.d2;
    // Binding the length records that the buffer fits in a usize, which
    // bounds the index arithmetic below.
    let _n = t.data.len();
    let mut out: Vec<u8> = Vec::new();
    let mut j: usize = 0;
    while j < d1
        invariant
            j <= d1,
            out@.len() == (j * d2) * d0,
            forall|jj: int, kk: int, ii: int|
                0 <= jj < j && 0 <= kk < d2 && 0 <= ii < d0
                    ==> out@[linear3(jj, kk, ii, d2 as int, d0 as int)] == t.at(ii, jj, kk),
        decreases d1 - j,
    {
        let mut k: usize = 0;
        while k < d2
            invariant
                k <= d2,
                out@.len() == (j * d2 + k) * d0,
                forall|jj: int, kk: int, ii: int|
                    0 <= jj < j && 0 <= kk < d2 && 0 <= ii < d0
                        ==> out@[linear3(jj, kk, ii, d2 as int, d0 as int)] == t.at(ii, jj, kk),
                forall|kk: int, ii: int|
                    0 <= kk < k && 0 <= ii < d0
                        ==> out@[linear3(j as int, kk, ii, d2 as int, d0 as int)]
                            == t.at(ii, j as int, kk),
            decreases d2 - k,
        {
            let mut i: usize = 0;
            while i < d0
                invariant
                    i <= d0,
                    out@.len() == (j * d2 + k) * d0 + i,
                    forall|jj: int, kk: int, ii: int|
                        0 <= jj < j && 0 <= kk < d2 && 0 <= ii < d0
                            ==> out@[linear3(jj, kk, ii, d2 as int, d0 as int)] == t.at(ii, jj, kk),
                    forall|kk: int, ii: int|
                        0 <= kk < k && 0 <= ii < d0
                            ==> out@[linear3(j as int, kk, ii, d2 as int, d0 as int)]
                                == t.at(ii, j as int, kk),
                    forall|ii: int|
                        0 <= ii < i
                            ==> out@[linear3(j as int, k as int, ii, d2 as int, d0 as int)]
                                == t.at(ii, j as int, k as int),
                decreases d0 - i,
            {
                proof {
                    lemma_linear3_bound(i as int, j as int, k as int, d0 as int, d1 as int, d2 as int);
                }
                let idx = (i * d1 + j) * d2 + k;
                out.push(t.data[idx]);
                proof {
                    assert forall|jj: int, kk: int, ii: int|
                        0 <= jj < j && 0 <= kk < d2 && 0 <= ii < d0 implies
                        out@[linear3(jj, kk, ii, d2 as int, d0 as int)] == t.at(ii, jj, kk) by {
                        lemma_linear3_lex_lt(
                            jj, kk, ii,
                            j as int, k as int, i as int,
                            d2 as int, d0 as int,
                        );
                    }
                    assert forall|kk: int, ii: int|
                        0 <= kk < k && 0 <= ii < d0 implies
                        out@[linear3(j as int, kk, ii, d2 as int, d0 as int)]
                            == t.at(ii, j as int, kk) by {
                        lemma_linear3_lex_lt(
                            j as int, kk, ii,
                            j as int, k as int, i as int,
                            d2 as int, d0 as int,
                        );
                    }
                    assert forall|ii: int|
                        0 <= ii < i + 1 implies
                        out@[linear3(j as int, k as int, ii, d2 as int, d0 as int)]
                            == t.at(ii, j as int, k as int) by {
                        if ii < i {
                            lemma_linear3_lex_lt(
                                j as int, k as int, ii,
                                j as int, k as int, i as int,
                                d2 as int, d0 as int,
                            );
                        }
                    }
                }
                i += 1;
            }
            proof {
                assert((j * d2 + k) * d0 + d0 == (j * d2 + (k + 1)) * d0) by (nonlinear_arith);
            }
            k += 1;
        }
        proof {
            assert((j * d2 + d2) * d0 == ((j + 1) * d2) * d0) by (nonlinear_arith);
        }
        j += 1;
    }
    Tensor { d0: d1, d1: d2, d2: d0, data: out }
}

/// Builds the channel-height-width tensor of a decoded image.
///
/// `data` is the decoder's height-width-channel pixel buffer; it must hold
/// exactly `height * width * channels` bytes, else the call fails with
/// `SizeMismatch`. On success the result has shape
/// `[channels, height, width]` and its element `(c, y, x)` is byte
/// `(y * width + x) * channels + c` of `data`.
pub fn load(height: usize, width: usize, channels: usize, data: Vec<u8>) -> (r: Result<
    Tensor,
    ImageError,
>)
    ensures
        r is Ok <==> height * width * channels == data@.len(),
        r matches Ok(t) ==> {
            &&& t.wf()
            &&& t.dim0() == channels
            &&& t.dim1() == height
            &&& t.dim2() == width
            &&& forall|y: int, x: int, c: int|
                0 <= y < height && 0 <= x < width && 0 <= c < channels
                    ==> t.at(c, y, x) == data@[linear3(y, x, c, width as int, channels as int)]
        },
        r matches Err(e) ==> e == ImageError::SizeMismatch,
{
    match Tensor::new(height, width, channels, data) {
        Ok(hwc) => Ok(hwc_to_chw(&hwc)),
        Err(e) => Err(e),
    }
}

/// Flattens a channel-height-width image into the height-width-channel
/// buffer that the native image encoder expects.
///
/// Byte `(y * width + x) * channels + c` of the result is element
/// `(c, y, x)` of `t`.
pub fn save(t: &Tensor) -> (r: Vec<u8>)
    requires
        t.wf(),
    ensures
        r@.len() == t.flat().len(),
        forall|c: int, y: int, x: int|
            0 <= c < t.dim0() && 0 <= y < t.dim1() && 0 <= x < t.dim2()
                ==> r@[linear3(y, x, c, t.dim2(), t.dim0())] == t.at(c, y, x),
{
    proof {
        assert(t.dim1() * t.dim2() * t.dim0() == t.dim0() * t.dim1() * t.dim2())
            by (nonlinear_arith);
    }
    chw_to_hwc(t).into_data()
}

/// Completes an image resize.
///
/// The native resizer takes the height-width-channel buffer of `t` (see
/// [`save`]) and hands back the resized height-width-channel buffer
/// `resized` of shape `[out_h, out_w, channels]`; this function folds that
/// buffer back into a channel-height-width tensor. The call fails with
/// `SizeMismatch` when `resized` does not hold exactly
/// `out_h * out_w * channels` bytes, where `channels` is the channel count
/// of `t`.
pub fn resize(t: &Tensor, out_w: usize, out_h: usize, resized: Vec<u8>) -> (r: Result<
    Tensor,
    ImageError,
>)
    requires
        t.wf(),
    ensures
        r is Ok <==> out_h * out_w * t.dim0() == resized@.len(),
        r matches Ok(u) ==> {
            &&& u.wf()
            &&& u.dim0() == t.dim0()
            &&& u.dim1() == out_h
            &&& u.dim2() == out_w
            &&& forall|y: int, x: int, c: int|
                0 <= y < out_h && 0 <= x < out_w && 0 <= c < t.dim0()
                    ==> u.at(c, y, x) == resized@[linear3(y, x, c, out_w as int, t.dim0())]
        },
        r matches Err(e) ==> e == ImageError::SizeMismatch,
{
    load(out_h, out_w, t.d0, resized)
}

/// Converting a height-width-channel image to channel-height-width order
/// and back leaves the shape and every element in place.
///
/// `u` relates to `t` as the result of [`hwc_to_chw`] relates to its
/// argument, and `v` relates to `u` as the result of [`chw_to_hwc`]
/// relates to its argument; then `v` has the shape of `t` and the same
/// element at every position of that shape.
pub proof fn lemma_hwc_chw_roundtrip(t: Tensor, u: Tensor, v: Tensor)
    requires
        u.dim0() == t.dim2(),
        u.dim1() == t.dim0(),
        u.dim2() == t.dim1(),
        forall|i: int, j: int, k: int|
            0 <= i < t.dim0() && 0 <= j < t.dim1() && 0 <= k < t.dim2()
                ==> u.at(k, i, j) == t.at(i, j, k),
        v.dim0() == u.dim1(),
        v.dim1() == u.dim2(),
        v.dim2() == u.dim0(),
        forall|i: int, j: int, k: int|
            0 <= i < u.dim0() && 0 <= j < u.dim1() && 0 <= k < u.dim2()
                ==> v.at(j, k, i) == u.at(i, j, k),
    ensures
        v.dim0() == t.dim0(),
        v.dim1() == t.dim1(),
        v.dim2() == t.dim2(),
        forall|i: int, j: int, k: int|
            0 <= i < t.dim0() && 0 <= j < t.dim1() && 0 <= k < t.dim2()
                ==> v.at(i, j, k) == t.at(i, j, k),
{
    assert forall|i: int, j: int, k: int|
        0 <= i < t.dim0() && 0 <= j < t.dim1() && 0 <= k < t.dim2() implies
        v.at(i, j, k) == t.at(i, j, k) by {
        assert(u.at(k, i, j) == t.at(i, j, k));
        assert(v.at(i, j, k) == u.at(k, i, j));
    }
}

/// Converting a channel-height-width image to height-width-channel order
/// and back leaves the shape and every element in place.
///
/// `u` relates to `t` as the result of [`chw_to_hwc`] relates to its
/// argument, and `v` relates to `u` as the result of [`hwc_to_chw`]
/// relates to its argument; then `v` has the shape of `t` and the same
/// element at every position of that shape.
pub proof fn lemma_chw_hwc_roundtrip(t: Tensor, u: Tensor, v: Tensor)
    requires
        u.dim0() == t.dim1(),
        u.dim1() == t.dim2(),
        u.dim2() == t.dim0(),
        forall|i: int, j: int, k: int|
            0 <= i < t.dim0() && 0 <= j < t.dim1() && 0 <= k < t.dim2()
                ==> u.at(j, k, i) == t.at(i, j, k),
        v.dim0() == u.dim2(),
        v.dim1() == u.dim0(),
        v.dim2() == u.dim1(),
        forall|i: int, j: int, k: int|
            0 <= i < u.dim0() && 0 <= j < u.dim1() && 0 <= k < u.dim2()
                ==> v.at(k, i, j) == u.at(i, j, k),
    ensures
        v.dim0() == t.dim0(),
        v.dim1() == t.dim1(),
        v.dim2() == t.dim2(),
        forall|i: int, j: int, k: int|
            0 <= i < t.dim0() && 0 <= j < t.dim1() && 0 <= k < t.dim2()
                ==> v.at(i, j, k) == t.at(i, j, k),
{
    assert forall|i: int, j: int, k: int|
        0 <= i < t.dim0() && 0 <= j < t.dim1() && 0 <= k < t.dim2() implies
        v.at(i, j, k) == t.at(i, j, k) by {
        assert(u.at(j, k, i) == t.at(i, j, k));
        assert(v.at(i, j, k) == u.at(j, k, i));
    }
}

} // verus!
