//! Buffers for decoded YUV 4:2:0 pictures, the copy step that fills them from
//! a decoding engine's output, and a demultiplexer for IVF streams.

use vstd::prelude::*;

mod decoder;
pub mod ivf;

pub use decoder::{copy_image, DecodedImage, Plane, PixelFormat, Vp9Decoder, CODEC_OK};

verus! {

/// An error reported by the decoding side of the library.
#[derive(Debug, Clone, Copy, PartialEq, Eq, Structural)]
pub enum Error {
    /// The engine refused a compressed payload; the engine's own code is kept.
    DecodeFailed(u32),
    /// The engine produced a picture that is not planar 4:2:0.
    UnsupportedPixelFormat,
    /// The engine produced a picture whose size differs from the target frame's.
    DimensionMismatch,
}

impl Error {
    /// The engine's error code behind the error, where there is one.
    pub fn code(&self) -> (r: Option<u32>)
        ensures
            r == (match *self {
                Error::DecodeFailed(c) => Some(c),
                _ => None,
            }),
    {
        match *self {
            Error::DecodeFailed(c) => Some(c),
            _ => None,
        }
    }
}

/// Number of samples in a luma plane of the given size.
pub open spec fn luma_len(width: u32, height: u32) -> int {
    width as int * height as int
}

/// Number of samples in each chroma plane of a picture of the given size.
pub open spec fn chroma_len(width: u32, height: u32) -> int {
    (width as int / 2) * (height as int / 2)
}

/// A frame of YUV 4:2:0 pixel data, packed row by row without padding.
///
/// Its size is fixed when it is made; it can be refilled many times to save on
/// allocations.
#[derive(Debug)]
pub struct Frame {
    width: u32,
    height: u32,
    y_plane: Vec<u8>,
    u_plane: Vec<u8>,
    v_plane: Vec<u8>,
}

impl Frame {
    pub closed spec fn spec_width(&self) -> u32 {
        self.width
    }

    pub closed spec fn spec_height(&self) -> u32 {
        self.height
    }

    /// The luma samples, row after row.
    pub closed spec fn y(&self) -> Seq<u8> {
        self.y_plane@
    }

    /// The blue-difference chroma samples, row after row.
    pub closed spec fn u(&self) -> Seq<u8> {
        self.u_plane@
    }

    /// The red-difference chroma samples, row after row.
    pub closed spec fn v(&self) -> Seq<u8> {
        self.v_plane@
    }

    /// Every plane holds exactly the samples that the frame's size calls for.
    pub open spec fn wf(&self) -> bool {
        &&& self.y().len() == luma_len(self.spec_width(), self.spec_height())
        &&& self.u().len() == chroma_len(self.spec_width(), self.spec_height())
        &&& self.v().len() == chroma_len(self.spec_width(), self.spec_height())
    }

    /// A black-level (all zero) frame of the given even size.
    pub fn new(width: u32, height: u32) -> (r: Frame)
        requires
            width % 2 == 0,
            height % 2 == 0,
            width as int * height as int <= usize::MAX,
        ensures
            r.wf(),
            r.spec_width() == width,
            r.spec_height() == height,
            r.y() == Seq::new(luma_len(width, height) as nat, |i: int| 0u8),
            r.u() == Seq::new(chroma_len(width, height) as nat, |i: int| 0u8),
            r.v() == Seq::new(chroma_len(width, height) as nat, |i: int| 0u8),
    {
        let full_size: usize = width as usize * height as usize;
        proof {
            assert((width as int / 2) * (height as int / 2) <= width as int * height as int)
                by (nonlinear_arith);
        }
        let half_size: usize = (width / 2) as usize * (height / 2) as usize;
        let r = Frame {
            width,
            height,
            y_plane: vec![0u8; full_size],
            u_plane: vec![0u8; half_size],
            v_plane: vec![0u8; half_size],
        };
        proof {
            assert(r.y() =~= Seq::new(luma_len(width, height) as nat, |i: int| 0u8));
            assert(r.u() =~= Seq::new(chroma_len(width, height) as nat, |i: int| 0u8));
            assert(r.v() =~= Seq::new(chroma_len(width, height) as nat, |i: int| 0u8));
        }
        r
    }

    pub fn width(&self) -> (r: u32)
        ensures
            r == self.spec_width(),
    {
        self.width
    }

    pub fn height(&self) -> (r: u32)
        ensures
            r == self.spec_height(),
    {
        self.height
    }

    pub fn y_plane(&self) -> (r: &[u8])
        ensures
            r@ == self.y(),
    {
        self.y_plane.as_slice()
    }

    pub fn u_plane(&self) -> (r: &[u8])
        ensures
            r@ == self.u(),
    {
        self.u_plane.as_slice()
    }

    pub fn v_plane(&self) -> (r: &[u8])
        ensures
            r@ == self.v(),
    {
        self.v_plane.as_slice()
    }

    /// The luma sample in column `x` of row `y`.
    pub fn get_y(&self, x: u32, y: u32) -> (r: u8)
        requires
            self.wf(),
            x < self.spec_width(),
            y < self.spec_height(),
        ensures
            r == self.y()[y as int * self.spec_width() as int + x as int],
    {
        proof {
            lemma_cell_in_plane(x as int, y as int, self.width as int, self.height as int);
        }
        let n = self.y_plane.len();
        self.y_plane[y as usize * self.width as usize + x as usize]
    }

    /// The two chroma samples in column `x` of row `y` of the chroma planes.
    pub fn get_uv(&self, x: u32, y: u32) -> (r: (u8, u8))
        requires
            self.wf(),
            x < self.spec_width() / 2,
            y < self.spec_height() / 2,
        ensures
            r.0 == self.u()[y as int * (self.spec_width() / 2) as int + x as int],
            r.1 == self.v()[y as int * (self.spec_width() / 2) as int + x as int],
    {
        let cw = self.width / 2;
        proof {
            lemma_cell_in_plane(x as int, y as int, cw as int, (self.height / 2) as int);
        }
        let n = self.u_plane.len();
        let i = y as usize * cw as usize + x as usize;
        (self.u_plane[i], self.v_plane[i])
    }

    pub fn uv_width(&self) -> (r: u32)
        ensures
            r == self.spec_width() / 2,
    {
        self.width / 2
    }

    pub fn uv_height(&self) -> (r: u32)
        ensures
            r == self.spec_height() / 2,
    {
        self.height / 2
    }
}

/// A cell of a `cols` by `rows` grid lies inside its row-major layout.
pub proof fn lemma_cell_in_plane(x: int, y: int, cols: int, rows: int)
    requires
        0 <= x < cols,
        0 <= y < rows,
    ensures
        0 <= y * cols + x < cols * rows,
{
    assert(y * cols + x < cols * rows) by (nonlinear_arith)
        requires
            0 <= x < cols,
            0 <= y < rows,
    ;
    assert(0 <= y * cols) by (nonlinear_arith)
        requires
            0 <= y,
            0 <= cols,
    ;
}

} // verus!
