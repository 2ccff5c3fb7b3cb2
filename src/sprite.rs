use vstd::prelude::*;
use crate::compositor::{is_frame, rect_frame};
use crate::entity::{Drawable, Updatable};

verus! {

/// `v` held inside the range of `i32`.
pub open spec fn saturate(v: int) -> i32 {
    if v < i32::MIN {
        i32::MIN
    } else if v > i32::MAX {
        i32::MAX
    } else {
        v as i32
    }
}

/// A rectangle of one color that the directional magnitudes move.
#[derive(Debug, Clone, Copy, PartialEq, Eq)]
pub struct TestSprite {
    pub x: i32,
    pub y: i32,
    pub width: usize,
    pub height: usize,
    pub color: [u8; 4],
}

impl TestSprite {
    /// A sprite with corner `(x, y)`, the given size, and `color` (RGBA).
    /// A degenerate rectangle is not an entity: both sides must be positive.
    pub fn new(x: i32, y: i32, width: usize, height: usize, color: [u8; 4]) -> (r: Self)
        requires
            width > 0,
            height > 0,
        ensures
            r == (TestSprite { x, y, width, height, color }),
    {
        TestSprite { x, y, width, height, color }
    }
}

/// `v - minus + plus`, held inside the range of `i32`.
fn shift(v: i32, minus: usize, plus: usize) -> (r: i32)
    ensures
        r == saturate(v - minus + plus),
{
    let t: i128 = v as i128 - minus as i128 + plus as i128;
    if t < i32::MIN as i128 {
        i32::MIN
    } else if t > i32::MAX as i128 {
        i32::MAX
    } else {
        t as i32
    }
}

impl Updatable for TestSprite {
    /// Left and up move the corner towards the origin, right and down away
    /// from it.
    open spec fn updated(&self, inputs: [usize; 4]) -> TestSprite {
        TestSprite {
            x: saturate(self.x - inputs[0] + inputs[2]),
            y: saturate(self.y - inputs[1] + inputs[3]),
            ..*self
        }
    }

    open spec fn rendered(&self, buffer: Seq<u8>, dimensions: (usize, usize)) -> Seq<u8> {
        rect_frame(buffer, dimensions, self.x as int, self.y as int, self.width as int, self.height as int, self.color@)
    }

    fn update(&mut self, inputs: [usize; 4]) {
        self.x = shift(self.x, inputs[0], inputs[2]);
        self.y = shift(self.y, inputs[1], inputs[3]);
    }

    fn render(&self, buffer: &mut Vec<u8>, dimensions: (usize, usize)) {
        self.draw_rect(buffer, dimensions, self.x, self.y, self.width, self.height, self.color);
    }
}

impl Drawable for TestSprite {

}

} // verus!
