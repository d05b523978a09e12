use vstd::prelude::*;

verus! {

/// A dense two-dimensional grid of packed pixels, stored as an
/// `ndarray::Array2` in standard (row-major) order. Every grid is built by
/// `grid_new` and only mutated element by element, so it stays in standard
/// order for its whole life.
#[verifier::external_body]
pub struct PixelGrid {
    inner: ndarray::Array2<u32>,
}

/// The pixel values a grid holds, flattened row by row.
pub uninterp spec fn grid_pixels(g: PixelGrid) -> Seq<u32>;

/// The shape a grid was made with: rows, then columns.
pub uninterp spec fn grid_dim(g: PixelGrid) -> (nat, nat);

/// Whether the grid's backing store is contiguous and in standard (row-major)
/// order, so that it can be viewed as one flat slice.
pub uninterp spec fn grid_standard(g: PixelGrid) -> bool;

/// Relies on ndarray::Array::from_elem: builds a rows x columns array in
/// standard (row-major) order with every element equal to `color`. Its shape
/// check panics when the product of the non-zero axis lengths overflows
/// `isize`, so each axis is bounded on its own as well as the product.
#[verifier::external_body]
pub(crate) fn grid_new(rows: usize, cols: usize, color: u32) -> (g: PixelGrid)
    requires
        rows <= isize::MAX,
        cols <= isize::MAX,
        rows * cols <= isize::MAX,
    ensures
        grid_dim(g) == (rows as nat, cols as nat),
        grid_pixels(g) == Seq::new((rows * cols) as nat, |i: int| color),
        grid_standard(g),
{
    PixelGrid { inner: ndarray::Array::from_elem((rows, cols), color) }
}

/// Relies on ndarray's `IndexMut` for `(usize, usize)`: writes the element at
/// the given row and column, which in a standard-order array is the flat
/// element `row * columns + col`. The index is in bounds by the `requires`,
/// so the call cannot panic; writing one element leaves the shape, the
/// strides and so the layout as they were.
#[verifier::external_body]
pub(crate) fn grid_set(g: &mut PixelGrid, row: usize, col: usize, color: u32)
    requires
        (row as nat) < grid_dim(*old(g)).0,
        (col as nat) < grid_dim(*old(g)).1,
        grid_pixels(*old(g)).len() == grid_dim(*old(g)).0 * grid_dim(*old(g)).1,
    ensures
        grid_dim(*final(g)) == grid_dim(*old(g)),
        grid_pixels(*final(g)) == grid_pixels(*old(g)).update(
            row * grid_dim(*old(g)).1 + col,
            color,
        ),
        grid_standard(*final(g)) == grid_standard(*old(g)),
{
    g.inner[(row, col)] = color;
}

/// Relies on ndarray's `as_slice`: `Some` exactly when the array is
/// contiguous and in standard order, and then the slice holds the elements in
/// the array's logical (row-major) order.
#[verifier::external_body]
pub(crate) fn grid_flat(g: &PixelGrid) -> (r: Option<Vec<u32>>)
    ensures
        r matches Some(v) ==> v@ == grid_pixels(*g),
        grid_standard(*g) ==> r is Some,
{
    match g.inner.as_slice() {
        Some(s) => Some(s.to_vec()),
        None => None,
    }
}

} // verus!
