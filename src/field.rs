//! The output field: a toroidal boolean grid, and its random initialisation.
//!
//! A random draw is a value in `[0, 1)` handed over as its IEEE-754
//! single-precision bit pattern. For non-negative values the order of the
//! bit patterns, read as unsigned integers, is the order of the values, so the
//! library compares draws without any floating-point arithmetic.
use vstd::prelude::*;

verus! {

/// The bit pattern of the single-precision value `0.5`.
pub const HALF_BITS: u32 = 0x3f00_0000;

/// The bit pattern of the single-precision value `1.0`; every draw lies below it.
pub const ONE_BITS: u32 = 0x3f80_0000;

/// The bit pattern of single-precision positive infinity. Patterns above it
/// are NaNs or negative values.
pub const INFINITY_BITS: u32 = 0x7f80_0000;

/// A `width` by `height` grid of cells, row-major (`index = x + y * width`).
pub struct Field {
    pub width: usize,
    pub height: usize,
    pub data: Vec<bool>,
}

impl Field {
    /// The grid holds exactly `width * height` cells.
    pub open spec fn wf(&self) -> bool {
        self.data@.len() == self.width * self.height
    }

    /// Inverts one cell and leaves the others and the dimensions alone.
    pub fn flip(&mut self, cell: usize)
        requires
            old(self).wf(),
            cell < old(self).data@.len(),
        ensures
            final(self).wf(),
            final(self).width == old(self).width,
            final(self).height == old(self).height,
            final(self).data@ == old(self).data@.update(cell as int, !old(self).data@[cell as int]),
    {
        let v = self.data[cell];
        self.data.set(cell, !v);
    }
}

/// A fresh field whose `i`-th cell is set exactly when the `i`-th draw is
/// greater than one half.
pub fn generate_base_field(result_width: usize, result_height: usize, draws: &Vec<u32>) -> (r:
    Field)
    requires
        draws@.len() == result_width * result_height,
    ensures
        r.wf(),
        r.width == result_width,
        r.height == result_height,
        forall|i: int| 0 <= i < r.data@.len() ==> #[trigger] r.data@[i] == (draws@[i] > HALF_BITS),
{
    let mut data: Vec<bool> = Vec::new();
    let mut i: usize = 0;
    while i < draws.len()
        invariant
            i <= draws@.len(),
            data@.len() == i,
            forall|k: int| 0 <= k < i ==> #[trigger] data@[k] == (draws@[k] > HALF_BITS),
        decreases draws@.len() - i,
    {
        data.push(draws[i] > HALF_BITS);
        i = i + 1;
    }
    Field { width: result_width, height: result_height, data }
}

} // verus!
