//! The copy step from a decoding engine's pictures into a [`Frame`], and the
//! decisions of the decoding cycle around it.
//!
//! The engine itself lives outside the library: the caller submits payloads to
//! it, reports the engine's status here, and hands over each picture that the
//! engine releases.

use vstd::prelude::*;

use vstd::arithmetic::div_mod::{
    lemma_div_pos_is_pos, lemma_fundamental_div_mod, lemma_mod_pos_bound, lemma_multiply_divide_lt,
};

use crate::{chroma_len, luma_len, Error, Frame};

verus! {

/// The status code with which the engine reports a successful submission.
pub const CODEC_OK: u32 = 0;

/// The sample layout of a picture released by the engine.
#[derive(Debug, Clone, Copy, PartialEq, Eq, Structural)]
pub enum PixelFormat {
    /// Planar 4:2:0: full-size luma, two chroma planes halved in both axes.
    I420,
    /// Any other layout, by the engine's own tag.
    Other(u32),
}

/// One sample plane of an engine picture: rows start `stride` bytes apart, and
/// each row may carry padding after its samples.
#[derive(Debug, Clone, Copy)]
pub struct Plane<'a> {
    pub data: &'a [u8],
    pub stride: usize,
}

/// A picture as the engine releases it.
#[derive(Debug, Clone, Copy)]
pub struct DecodedImage<'a> {
    pub format: PixelFormat,
    pub width: u32,
    pub height: u32,
    pub y: Plane<'a>,
    pub u: Plane<'a>,
    pub v: Plane<'a>,
}

/// The plane holds `rows` rows of `cols` samples at its stride, and its rows
/// are at least `cols` bytes apart.
pub open spec fn plane_covers(p: Plane, cols: int, rows: int) -> bool {
    &&& cols <= p.stride
    &&& rows == 0 || (rows - 1) * p.stride + cols <= p.data@.len()
}

/// The samples of row `r` of a plane, without the row's padding.
pub open spec fn source_row(p: Plane, cols: int, r: int) -> Seq<u8> {
    p.data@.subrange(r * p.stride, r * p.stride + cols)
}

/// Row `r` of a packed plane whose rows are `cols` samples long.
pub open spec fn packed_row(s: Seq<u8>, cols: int, r: int) -> Seq<u8> {
    s.subrange(r * cols, r * cols + cols)
}

/// `s` is the packed copy of the first `rows` rows of `p`, `cols` samples each.
pub open spec fn packs(s: Seq<u8>, p: Plane, cols: int, rows: int) -> bool {
    &&& s.len() == cols * rows
    &&& forall|r: int| 0 <= r < rows ==> #[trigger] packed_row(s, cols, r) == source_row(p, cols, r)
}

/// Every plane of the picture holds the rows that the picture's size calls for.
pub open spec fn image_wf(img: DecodedImage) -> bool {
    &&& plane_covers(img.y, img.width as int, img.height as int)
    &&& plane_covers(img.u, img.width as int / 2, img.height as int / 2)
    &&& plane_covers(img.v, img.width as int / 2, img.height as int / 2)
}

/// The frame holds, packed, exactly the samples of the picture.
pub open spec fn frame_holds(f: Frame, img: DecodedImage) -> bool {
    let w = img.width as int;
    let h = img.height as int;
    &&& image_wf(img)
    &&& f.spec_width() == img.width
    &&& f.spec_height() == img.height
    &&& packs(f.y(), img.y, w, h)
    &&& packs(f.u(), img.u, w / 2, h / 2)
    &&& packs(f.v(), img.v, w / 2, h / 2)
}

proof fn lemma_rows_ordered(a: int, b: int, cols: int)
    requires
        0 <= a < b,
        0 <= cols,
    ensures
        0 <= a * cols,
        a * cols + cols <= b * cols,
{
    assert(0 <= a * cols) by (nonlinear_arith)
        requires
            0 <= a,
            0 <= cols,
    ;
    assert(a * cols + cols <= b * cols) by (nonlinear_arith)
        requires
            a < b,
            0 <= cols,
    ;
}

/// Sample `(x, y)` of a packed plane is sample `(x, y)` of the source plane
/// it was copied from.
pub proof fn lemma_packed_sample(s: Seq<u8>, p: Plane, cols: int, rows: int, x: int, y: int)
    requires
        packs(s, p, cols, rows),
        plane_covers(p, cols, rows),
        0 <= x < cols,
        0 <= y < rows,
    ensures
        s[y * cols + x] == p.data@[y * p.stride + x],
{
    assert(0 <= y * cols && y * cols + cols <= cols * rows) by (nonlinear_arith)
        requires
            0 <= y < rows,
            0 <= cols,
    ;
    assert(0 <= y * p.stride && y * p.stride + cols <= (rows - 1) * p.stride + cols)
        by (nonlinear_arith)
        requires
            0 <= y < rows,
            0 <= p.stride,
    ;
    assert(packed_row(s, cols, y)[x] == source_row(p, cols, y)[x]);
}

/// Reading a frame back after a copy gives the picture's samples, up to the
/// last luma sample `(W-1, H-1)` and the last chroma sample `(W/2-1, H/2-1)`.
pub proof fn lemma_copy_read_back(f: Frame, img: DecodedImage, x: int, y: int, cx: int, cy: int)
    requires
        frame_holds(f, img),
        0 <= x < img.width,
        0 <= y < img.height,
        0 <= cx < img.width / 2,
        0 <= cy < img.height / 2,
    ensures
        f.y()[y * f.spec_width() + x] == img.y.data@[y * img.y.stride + x],
        f.u()[cy * (f.spec_width() / 2) + cx] == img.u.data@[cy * img.u.stride + cx],
        f.v()[cy * (f.spec_width() / 2) + cx] == img.v.data@[cy * img.v.stride + cx],
{
    let w = img.width as int;
    let h = img.height as int;
    lemma_packed_sample(f.y(), img.y, w, h, x, y);
    lemma_packed_sample(f.u(), img.u, w / 2, h / 2, cx, cy);
    lemma_packed_sample(f.v(), img.v, w / 2, h / 2, cx, cy);
}

/// Two packed copies of the same rows are equal, whatever they held before.
pub proof fn lemma_packs_unique(s: Seq<u8>, t: Seq<u8>, p: Plane, cols: int, rows: int)
    requires
        packs(s, p, cols, rows),
        packs(t, p, cols, rows),
        plane_covers(p, cols, rows),
        0 <= cols,
        0 <= rows,
    ensures
        s == t,
{
    assert forall|i: int| 0 <= i < s.len() implies s[i] == t[i] by {
        let y = i / cols;
        let x = i % cols;
        assert(cols > 0) by (nonlinear_arith)
            requires
                0 <= i < cols * rows,
                0 <= rows,
        ;
        lemma_fundamental_div_mod(i, cols);
        lemma_mod_pos_bound(i, cols);
        lemma_div_pos_is_pos(i, cols);
        lemma_multiply_divide_lt(i, cols, rows);
        assert(i == y * cols + x) by (nonlinear_arith)
            requires
                i == cols * y + x,
        ;
        lemma_packed_sample(s, p, cols, rows, x, y);
        lemma_packed_sample(t, p, cols, rows, x, y);
    }
    assert(s =~= t);
}

/// A copy overwrites the whole frame: what a frame holds after a copy depends on
/// the picture alone, never on what the frame held before.
pub proof fn lemma_copy_overwrites(f: Frame, g: Frame, img: DecodedImage)
    requires
        frame_holds(f, img),
        frame_holds(g, img),
    ensures
        f.y() == g.y(),
        f.u() == g.u(),
        f.v() == g.v(),
{
    let w = img.width as int;
    let h = img.height as int;
    lemma_packs_unique(f.y(), g.y(), img.y, w, h);
    lemma_packs_unique(f.u(), g.u(), img.u, w / 2, h / 2);
    lemma_packs_unique(f.v(), g.v(), img.v, w / 2, h / 2);
}

/// Copies `n` bytes of `src` from `from` into `dst` at `at`, leaving every other
/// byte of `dst` as it was.
fn copy_run(dst: &mut Vec<u8>, at: usize, src: &[u8], from: usize, n: usize)
    requires
        at + n <= old(dst)@.len(),
        from + n <= src@.len(),
    ensures
        final(dst)@.len() == old(dst)@.len(),
        final(dst)@.subrange(at as int, at + n) == src@.subrange(from as int, from + n),
        forall|i: int|
            0 <= i < old(dst)@.len() && !(at <= i < at + n) ==> final(dst)@[i] == old(dst)@[i],
{
    let len = dst.len();
    let src_len = src.len();
    let mut k: usize = 0;
    while k < n
        invariant
            k <= n,
            len == dst@.len(),
            src_len == src@.len(),
            at + n <= old(dst)@.len(),
            from + n <= src@.len(),
            dst@.len() == old(dst)@.len(),
            dst@.subrange(at as int, at + k) == src@.subrange(from as int, from + k),
            forall|i: int|
                0 <= i < old(dst)@.len() && !(at <= i < at + k) ==> dst@[i] == old(dst)@[i],
        decreases n - k,
    {
        let b = src[from + k];
        let ghost before = dst@;
        dst[at + k] = b;
        proof {
            assert(dst@.subrange(at as int, at + k + 1) =~= src@.subrange(
                from as int,
                from + k + 1,
            )) by {
                assert forall|j: int| 0 <= j < k implies #[trigger] dst@[at + j] == src@[from + j] by {
                    assert(before.subrange(at as int, at + k)[j] == src@.subrange(
                        from as int,
                        from + k,
                    )[j]);
                }
            }
        }
        k = k + 1;
    }
}

/// Packs the first `rows` rows of `p`, `cols` samples each, into `dst`.
fn copy_plane(dst: &mut Vec<u8>, p: &Plane, cols: usize, rows: usize)
    requires
        old(dst)@.len() == cols * rows,
        plane_covers(*p, cols as int, rows as int),
    ensures
        packs(final(dst)@, *p, cols as int, rows as int),
{
    let len = dst.len();
    let src_len = p.data.len();
    let mut r: usize = 0;
    while r < rows
        invariant
            r <= rows,
            len == dst@.len(),
            src_len == p.data@.len(),
            dst@.len() == cols * rows,
            plane_covers(*p, cols as int, rows as int),
            forall|q: int| 0 <= q < r ==> #[trigger] packed_row(dst@, cols as int, q) == source_row(*p, cols as int, q),
        decreases rows - r,
    {
        proof {
            assert(r * cols + cols <= cols * rows) by (nonlinear_arith)
                requires
                    r < rows,
            ;
            assert(r * p.stride + cols <= (rows - 1) * p.stride + cols) by (nonlinear_arith)
                requires
                    r <= rows - 1,
                    0 <= p.stride,
            ;
            assert(0 <= r * p.stride) by (nonlinear_arith)
                requires
                    0 <= r,
                    0 <= p.stride,
            ;
        }
        let at: usize = r * cols;
        let from: usize = r * p.stride;
        let ghost before = dst@;
        copy_run(dst, at, p.data, from, cols);
        proof {
            assert forall|q: int| 0 <= q < r + 1 implies #[trigger] packed_row(dst@, cols as int, q)
                == source_row(*p, cols as int, q) by {
                if q < r {
                    lemma_rows_ordered(q, r as int, cols as int);
                    assert(packed_row(dst@, cols as int, q) =~= packed_row(before, cols as int, q));
                }
            }
        }
        r = r + 1;
    }
}

/// Copies a picture released by the engine into `frame`.
///
/// The picture must be planar 4:2:0 and exactly as large as the frame; else
/// the frame is left as it was. The planes of a picture of another format are
/// never read. Each row is copied without the padding that
/// the engine's stride leaves after it.
pub fn copy_image(img: &DecodedImage, frame: &mut Frame) -> (r: Result<(), Error>)
    requires
        old(frame).wf(),
        img.format == PixelFormat::I420 ==> image_wf(*img),
    ensures
        img.format != PixelFormat::I420 ==> r == Err::<(), Error>(Error::UnsupportedPixelFormat),
        img.format == PixelFormat::I420 && (img.width != old(frame).spec_width()
            || img.height != old(frame).spec_height()) ==> r == Err::<(), Error>(
            Error::DimensionMismatch,
        ),
        r is Err ==> *final(frame) == *old(frame),
        r is Ok <==> (img.format == PixelFormat::I420 && img.width == old(frame).spec_width()
            && img.height == old(frame).spec_height()),
        r is Ok ==> frame_holds(*final(frame), *img),
        final(frame).wf(),
{
    if img.format != PixelFormat::I420 {
        return Err(Error::UnsupportedPixelFormat);
    }
    if frame.width != img.width || frame.height != img.height {
        return Err(Error::DimensionMismatch);
    }
    let w = frame.width as usize;
    let h = frame.height as usize;
    proof {
        assert(w * h == luma_len(frame.width, frame.height));
        assert((w / 2) * (h / 2) == chroma_len(frame.width, frame.height));
    }
    copy_plane(&mut frame.y_plane, &img.y, w, h);
    copy_plane(&mut frame.u_plane, &img.u, w / 2, h / 2);
    copy_plane(&mut frame.v_plane, &img.v, w / 2, h / 2);
    Ok(())
}

/// The decisions of one decoding cycle: submit a payload to the engine, then
/// drain the pictures it releases into a frame, one per call.
///
/// The caller drives the engine: it reports the status of each submission to
/// [`Vp9Decoder::decode`], asks the engine for a picture only while
/// [`Vp9Decoder::wants_image`] holds, and hands what the engine released to
/// [`Vp9Decoder::next_frame`].
pub struct Vp9Decoder {
    draining: bool,
}

impl Vp9Decoder {
    /// Pictures of the last accepted payload may still be waiting in the engine.
    pub closed spec fn spec_draining(&self) -> bool {
        self.draining
    }

    pub fn new() -> (r: Vp9Decoder)
        ensures
            !r.spec_draining(),
    {
        Vp9Decoder { draining: false }
    }

    /// Records the engine's status for a submitted payload. A failed submission
    /// ends the cycle: no picture is drained until the next payload is accepted.
    pub fn decode(&mut self, status: u32) -> (r: Result<(), Error>)
        ensures
            status == CODEC_OK ==> r == Ok::<(), Error>(()) && final(self).spec_draining(),
            status != CODEC_OK ==> r == Err::<(), Error>(Error::DecodeFailed(status))
                && !final(self).spec_draining(),
    {
        if status != CODEC_OK {
            self.draining = false;
            Err(Error::DecodeFailed(status))
        } else {
            self.draining = true;
            Ok(())
        }
    }

    /// Whether the caller should ask the engine for its next picture.
    pub fn wants_image(&self) -> (r: bool)
        ensures
            r == self.spec_draining(),
    {
        self.draining
    }

    /// Takes the engine's next picture, or `None` once it has released all of
    /// them, and copies it into `frame`. Returns whether a picture was copied.
    pub fn next_frame(&mut self, img: Option<&DecodedImage>, frame: &mut Frame) -> (r: Result<
        bool,
        Error,
    >)
        requires
            old(frame).wf(),
            img matches Some(i) ==> (i.format == PixelFormat::I420 ==> image_wf(*i)),
        ensures
            final(frame).wf(),
            !old(self).spec_draining() ==> r == Ok::<bool, Error>(false)
                && *final(frame) == *old(frame) && !final(self).spec_draining(),
            old(self).spec_draining() && img is None ==> r == Ok::<bool, Error>(false)
                && *final(frame) == *old(frame) && !final(self).spec_draining(),
            old(self).spec_draining() && img is Some ==> final(self).spec_draining(),
            img matches Some(i) ==> (old(self).spec_draining() ==> {
                &&& i.format != PixelFormat::I420 ==> r == Err::<bool, Error>(
                    Error::UnsupportedPixelFormat,
                )
                &&& i.format == PixelFormat::I420 && (i.width != old(frame).spec_width()
                    || i.height != old(frame).spec_height()) ==> r == Err::<bool, Error>(
                    Error::DimensionMismatch,
                )
                &&& r is Err ==> *final(frame) == *old(frame)
                &&& r is Ok <==> (i.format == PixelFormat::I420 && i.width == old(
                    frame,
                ).spec_width() && i.height == old(frame).spec_height())
                &&& r is Ok ==> r == Ok::<bool, Error>(true) && frame_holds(*final(frame), *i)
            }),
    {
        if !self.draining {
            return Ok(false);
        }
        match img {
            None => {
                self.draining = false;
                Ok(false)
            },
            Some(i) => match copy_image(i, frame) {
                Ok(()) => Ok(true),
                Err(e) => Err(e),
            },
        }
    }
}

} // verus!
