use vstd::prelude::*;

verus! {

/// An image held as rows of RGB byte triples, `nx` texels wide and `ny`
/// high, row `j` starting at byte `3 * nx * j`.
#[derive(Clone, Debug)]
pub struct ImageTexture {
    pub nx: usize,
    pub ny: usize,
    pub data: Vec<u8>,
}

/// Byte offset of texel `(i, j)`.
pub open spec fn texel_offset(nx: int, i: int, j: int) -> int {
    3 * i + 3 * nx * j
}

impl ImageTexture {
    /// At least one texel, and exactly three bytes for each.
    pub open spec fn wf(&self) -> bool {
        &&& self.nx > 0
        &&& self.ny > 0
        &&& self.data@.len() == 3 * self.nx * self.ny
    }

    /// An image from its size and its bytes; none where the bytes do not
    /// hold exactly `nx * ny` triples or the image is empty.
    pub fn from_rgb(nx: usize, ny: usize, data: Vec<u8>) -> (r: Option<ImageTexture>)
        ensures
            r.is_some() <==> (nx > 0 && ny > 0 && data@.len() == 3 * nx * ny),
            r.is_some() ==> r.unwrap().wf() && r.unwrap().nx == nx && r.unwrap().ny == ny
                && r.unwrap().data@ == data@,
    {
        let len = data.len();
        if nx == 0 || ny == 0 {
            return None;
        }
        let row = match nx.checked_mul(3) {
            Some(row) => row,
            None => {
                proof {
                    assert(3 * nx * ny >= 3 * nx) by (nonlinear_arith)
                        requires
                            ny >= 1,
                    ;
                }
                return None;
            },
        };
        let total = match row.checked_mul(ny) {
            Some(total) => total,
            None => {
                assert(3 * nx * ny == row * ny) by (nonlinear_arith)
                    requires
                        row == 3 * nx,
                ;
                return None;
            },
        };
        assert(3 * nx * ny == row * ny) by (nonlinear_arith)
            requires
                row == 3 * nx,
        ;
        if len != total {
            return None;
        }
        Some(ImageTexture { nx, ny, data })
    }

    /// The bytes of texel `(i, j)`, each coordinate first clamped to the
    /// last column or row.
    pub fn texel(&self, i: usize, j: usize) -> (r: (u8, u8, u8))
        requires
            self.wf(),
        ensures
            ({
                let ci = if i < self.nx { i as int } else { self.nx - 1 };
                let cj = if j < self.ny { j as int } else { self.ny - 1 };
                let k = texel_offset(self.nx as int, ci, cj);
                r == (self.data@[k], self.data@[k + 1], self.data@[k + 2])
            }),
    {
        let ci = if i < self.nx { i } else { self.nx - 1 };
        let cj = if j < self.ny { j } else { self.ny - 1 };
        let nx = self.nx;
        let ny = self.ny;
        let len = self.data.len();
        assert(3 * ci + 3 * nx * cj + 2 < 3 * nx * ny) by (nonlinear_arith)
            requires
                ci < nx,
                cj < ny,
        ;
        assert(3 * nx * cj <= 3 * nx * ny) by (nonlinear_arith)
            requires
                cj < ny,
        ;
        assert(3 * nx * cj == 3 * (nx * cj)) by (nonlinear_arith);
        let k = 3 * ci + 3 * (nx * cj);
        (self.data[k], self.data[k + 1], self.data[k + 2])
    }
}

} // verus!
