//! Filling the grid from a picture: every pixel that is not fully
//! transparent becomes a particle of dirt in the pixel's colour.

use vstd::prelude::*;
use crate::sandbox::{Particle, ParticleTypes, Sandbox};

verus! {

/// Bytes per pixel: red, green, blue, alpha.
pub const BYTES_PER_PIXEL: usize = 4;

/// The place of pixel `(x, y)` in a picture `width` pixels wide, rows first.
pub open spec fn spec_to_index(x: int, y: int, width: int) -> int {
    y * width + x
}

/// The particle a pixel turns into, given where the pixel's bytes start.
pub open spec fn pixel_particle(data: Seq<u8>, start: int) -> Particle {
    Particle {
        kind: ParticleTypes::Dirt,
        color: (data[start], data[start + 1], data[start + 2], data[start + 3]),
    }
}

/// Whether the picture paints cell `(i, j)`: the cell lies under the
/// picture, whose top row is the grid's row `height - 1`, and the pixel over
/// it is not fully transparent.
pub open spec fn paints(data: Seq<u8>, width: int, height: int, i: int, j: int) -> bool {
    &&& 0 <= i < width
    &&& 0 <= j < height
    &&& data[spec_to_index(i, height - 1 - j, width) * 4 + 3] != 0
}

/// What drawing a picture leaves behind: every cell of the grid that the
/// picture paints holds the pixel's particle, and every other cell is as
/// before.
pub open spec fn drawn(
    before: &Sandbox,
    after: &Sandbox,
    data: Seq<u8>,
    width: int,
    height: int,
) -> bool {
    &&& after.spec_width() == before.spec_width()
    &&& after.spec_height() == before.spec_height()
    &&& forall|i: int, j: int|
        after.at(i, j) == if before.contains(i, j) && paints(data, width, height, i, j) {
            Some(pixel_particle(data, spec_to_index(i, height - 1 - j, width) * 4))
        } else {
            before.at(i, j)
        }
}

/// Pixels of one picture have places of their own within its data.
proof fn lemma_pixel_place(x: int, y: int, width: int, height: int)
    requires
        0 <= x < width,
        0 <= y < height,
    ensures
        0 <= spec_to_index(x, y, width) < width * height,
        0 <= y * width,
        spec_to_index(x, y, width) * 4 + 3 < width * height * 4,
{
    assert(0 <= y * width && y * width + x < width * height) by (nonlinear_arith)
        requires
            0 <= x < width,
            0 <= y < height,
    ;
}

/// The place of pixel `(x, y)` in a picture `width` pixels wide.
pub fn to_index(x: usize, y: usize, width: usize) -> (index: usize)
    requires
        y * width + x <= usize::MAX,
    ensures
        index == spec_to_index(x as int, y as int, width as int),
{
    assert(y * width >= 0) by (nonlinear_arith)
        requires
            y >= 0,
            width >= 0,
    ;
    y * width + x
}

/// Draws a picture of `width` by `height` pixels into the grid. Nothing is
/// drawn, and `false` returned, if `data` holds fewer than four bytes per
/// pixel. Pixels that fall outside the grid are left out.
pub fn draw_level(sandbox: &mut Sandbox, width: usize, height: usize, data: &Vec<u8>) -> (done:
    bool)
    requires
        old(sandbox).wf(),
    ensures
        final(sandbox).wf(),
        done == (width * height * 4 <= data@.len()),
        done ==> drawn(old(sandbox), final(sandbox), data@, width as int, height as int),
        !done ==> *final(sandbox) == *old(sandbox),
{
    let length: usize = data.len();
    assert(width * height * 4 >= width * height >= 0) by (nonlinear_arith)
        requires
            width >= 0,
            height >= 0,
    ;
    let pixels: usize = match width.checked_mul(height) {
        Some(p) => p,
        None => {
            return false;
        },
    };
    let bytes: usize = match pixels.checked_mul(BYTES_PER_PIXEL) {
        Some(b) => b,
        None => {
            return false;
        },
    };
    if length < bytes {
        return false;
    }
    proof {
        sandbox.lemma_sides();
    }
    let mut x: usize = 0;
    while x < width
        invariant
            x <= width,
            width * height * 4 <= data@.len() <= usize::MAX,
            old(sandbox).spec_width() <= 0x4_0000,
            old(sandbox).spec_height() <= 0x4_0000,
            sandbox.wf(),
            sandbox.spec_width() == old(sandbox).spec_width(),
            sandbox.spec_height() == old(sandbox).spec_height(),
            forall|i: int, j: int|
                sandbox.at(i, j) == if old(sandbox).contains(i, j) && i < x && paints(
                    data@,
                    width as int,
                    height as int,
                    i,
                    j,
                ) {
                    Some(pixel_particle(data@, spec_to_index(i, height - 1 - j, width as int) * 4))
                } else {
                    old(sandbox).at(i, j)
                },
        decreases width - x,
    {
        let mut y: usize = 0;
        while y < height
            invariant
                x < width,
                y <= height,
                width * height * 4 <= data@.len() <= usize::MAX,
                old(sandbox).spec_width() <= 0x4_0000,
                old(sandbox).spec_height() <= 0x4_0000,
                sandbox.wf(),
                sandbox.spec_width() == old(sandbox).spec_width(),
                sandbox.spec_height() == old(sandbox).spec_height(),
                forall|i: int, j: int|
                    sandbox.at(i, j) == if old(sandbox).contains(i, j) && (i < x || (i == x
                        && height - 1 - j < y)) && paints(data@, width as int, height as int, i, j) {
                        Some(
                            pixel_particle(data@, spec_to_index(i, height - 1 - j, width as int) * 4),
                        )
                    } else {
                        old(sandbox).at(i, j)
                    },
            decreases height - y,
        {
            proof {
                lemma_pixel_place(x as int, y as int, width as int, height as int);
            }
            let index: usize = to_index(x, y, width) * BYTES_PER_PIXEL;
            let alpha: u8 = data[index + 3];
            if alpha != 0 {
                let particle = Particle {
                    kind: ParticleTypes::Dirt,
                    color: (data[index], data[index + 1], data[index + 2], alpha),
                };
                let row: usize = height - 1 - y;
                if x <= 0x4_0000 && row <= 0x4_0000 {
                    sandbox.checked_set(x as i64, row as i64, Some(particle));
                }
            }
            y += 1;
        }
        x += 1;
    }
    true
}

} // verus!
