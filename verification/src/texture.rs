//! Image textures: a grid of colour samples, addressed by column and row.

use vstd::prelude::*;

verus! {

/// A decoded picture: `height` rows of `width` samples, each sample three
/// bytes, red, green and blue. The buffer holds exactly the samples, and
/// there is at least one.
pub struct ImageTexture {
    data: Vec<u8>,
    width: u32,
    height: u32,
}

/// The buffer of `len` bytes holds exactly `width` by `height` samples of
/// three bytes, and at least one sample.
pub open spec fn fits(len: nat, width: u32, height: u32) -> bool {
    width > 0 && height > 0 && len == 3 * width * height
}

impl ImageTexture {
    #[verifier::type_invariant]
    closed spec fn consistent(self) -> bool {
        fits(self.data@.len(), self.width, self.height)
    }

    /// The bytes of the picture.
    pub closed spec fn bytes(self) -> Seq<u8> {
        self.data@
    }

    /// The number of samples in a row.
    pub closed spec fn columns(self) -> u32 {
        self.width
    }

    /// The number of rows.
    pub closed spec fn rows(self) -> u32 {
        self.height
    }

    /// The picture's invariant: the buffer holds exactly the samples.
    pub open spec fn wf(self) -> bool {
        fits(self.bytes().len(), self.columns(), self.rows())
    }

    /// The place in the buffer of the sample in column `i` of row `j`, where a
    /// column or row beyond the last counts as the last.
    pub open spec fn offset(self, i: u32, j: u32) -> int {
        let column = if i < self.columns() { i } else { (self.columns() - 1) as u32 };
        let row = if j < self.rows() { j } else { (self.rows() - 1) as u32 };
        3 * (column + self.columns() * row)
    }

    /// A picture from its decoded bytes, if they are as many as `width` and
    /// `height` say.
    pub fn new(data: Vec<u8>, width: u32, height: u32) -> (texture: Option<ImageTexture>)
        ensures
            texture is Some <==> fits(data@.len(), width, height),
            texture matches Some(t) ==> t.bytes() == data@ && t.columns() == width && t.rows()
                == height && t.wf(),
    {
        if width == 0 || height == 0 {
            return None;
        }
        assert(0 <= width * height <= 0xFFFF_FFFF * 0xFFFF_FFFF) by (nonlinear_arith)
            requires
                0 <= width <= 0xFFFF_FFFF,
                0 <= height <= 0xFFFF_FFFF,
        ;
        let samples: u64 = width as u64 * height as u64;
        let len: u64 = data.len() as u64;
        assert(3 * width * height == 3 * (width * height)) by (nonlinear_arith);
        if len % 3 != 0 || len / 3 != samples {
            return None;
        }
        Some(ImageTexture { data, width, height })
    }

    pub fn width(&self) -> (w: u32)
        ensures
            w == self.columns(),
            self.wf(),
    {
        proof {
            use_type_invariant(self);
        }
        self.width
    }

    pub fn height(&self) -> (h: u32)
        ensures
            h == self.rows(),
            self.wf(),
    {
        proof {
            use_type_invariant(self);
        }
        self.height
    }

    /// The sample in column `i` of row `j` as red, green and blue. A column
    /// or row beyond the last is taken for the last, so that every lookup
    /// falls inside the picture.
    pub fn texel(&self, i: u32, j: u32) -> (rgb: (u8, u8, u8))
        ensures
            self.wf(),
            0 <= self.offset(i, j) <= self.bytes().len() - 3,
            rgb.0 == self.bytes()[self.offset(i, j)],
            rgb.1 == self.bytes()[self.offset(i, j) + 1],
            rgb.2 == self.bytes()[self.offset(i, j) + 2],
    {
        proof {
            use_type_invariant(self);
        }
        let column: u32 = if i < self.width { i } else { self.width - 1 };
        let row: u32 = if j < self.height { j } else { self.height - 1 };
        let len = self.data.len();
        assert(3 * (column + self.width * row) + 3 <= 3 * self.width * self.height)
            by (nonlinear_arith)
            requires
                column < self.width,
                row < self.height,
        ;
        assert(0 <= self.width * row) by (nonlinear_arith);
        let at: usize = 3 * (column as usize + self.width as usize * row as usize);
        (self.data[at], self.data[at + 1], self.data[at + 2])
    }
}

} // verus!
