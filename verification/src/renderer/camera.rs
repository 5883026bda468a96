//! The pixel layout of a rendered image.
use vstd::prelude::*;
use vstd::arithmetic::div_mod::lemma_fundamental_div_mod_converse;
use vstd::arithmetic::mul::lemma_mul_inequality;

verus! {

/// The pixel `(row, column)` that stands at position `i` of a rendered image
/// of the given size: row-major, the top row (the highest row index) first,
/// columns left to right.
pub open spec fn pixel_at(width: u32, height: u32, i: int) -> (u32, u32) {
    ((height - 1 - i / (width as int)) as u32, (i % (width as int)) as u32)
}

/// The position within a rendered image of the given width at which the
/// pixel `(row, column)` stands.
pub open spec fn index_of(width: u32, height: u32, row: u32, col: u32) -> int {
    (height - 1 - row) * width + col
}

/// The pixels of a `width` x `height` image in the order in which a render
/// produces their colours: row-major, top to bottom.
pub fn pixel_order(width: u32, height: u32) -> (order: Vec<(u32, u32)>)
    requires
        width * height <= usize::MAX,
    ensures
        order.len() == width * height,
        forall|i: int| 0 <= i < order.len() ==> #[trigger] order[i] == pixel_at(width, height, i),
{
    let mut order: Vec<(u32, u32)> = Vec::new();
    let mut row: u32 = height;
    while row > 0
        invariant
            row <= height,
            width * height <= usize::MAX,
            order.len() == (height - row) * width,
            forall|i: int| 0 <= i < order.len() ==> #[trigger] order[i] == pixel_at(width, height, i),
        decreases row,
    {
        row = row - 1;
        let ghost done: int = height - row - 1;
        let mut col: u32 = 0;
        while col < width
            invariant
                row < height,
                done == height - row - 1,
                col <= width,
                width * height <= usize::MAX,
                order.len() == done * width + col,
                forall|i: int| 0 <= i < order.len() ==> #[trigger] order[i] == pixel_at(width, height, i),
            decreases width - col,
        {
            proof {
                lemma_mul_inequality(done + 1, height as int, width as int);
                let k: int = done * width + col;
                lemma_fundamental_div_mod_converse(k, width as int, done, col as int);
            }
            order.push((row, col));
            col = col + 1;
        }
        assert(done * width + width == (done + 1) * width) by (nonlinear_arith);
    }
    assert(height * width == width * height) by (nonlinear_arith);
    order
}

/// Every pixel of a `width` x `height` image stands in the render order,
/// at exactly one position.
pub proof fn lemma_pixel_order_covers_each_pixel_once(width: u32, height: u32, row: u32, col: u32)
    requires
        row < height,
        col < width,
    ensures
        0 <= index_of(width, height, row, col) < width * height,
        pixel_at(width, height, index_of(width, height, row, col)) == (row, col),
        forall|i: int|
            0 <= i < width * height && #[trigger] pixel_at(width, height, i) == (row, col)
                ==> i == index_of(width, height, row, col),
{
    let q: int = height - 1 - row;
    let k: int = index_of(width, height, row, col);
    lemma_fundamental_div_mod_converse(k, width as int, q, col as int);
    lemma_mul_inequality(q + 1, height as int, width as int);
    assert((q + 1) * width == q * width + width) by (nonlinear_arith);
    assert forall|i: int|
        0 <= i < width * height && #[trigger] pixel_at(width, height, i) == (row, col)
            implies i == k by {
        let qi = i / (width as int);
        let ri = i % (width as int);
        vstd::arithmetic::div_mod::lemma_fundamental_div_mod(i, width as int);
        vstd::arithmetic::div_mod::lemma_div_pos_is_pos(i, width as int);
        assert(i == qi * width + ri) by (nonlinear_arith)
            requires
                i == width * qi + ri,
        ;
        assert(qi < height) by {
            if qi >= height {
                lemma_mul_inequality(height as int, qi, width as int);
                assert(height * width == width * height) by (nonlinear_arith);
            }
        }
        assert(qi == q);
        assert(ri == col);
    }
}

} // verus!
