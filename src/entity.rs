use vstd::prelude::*;
use crate::compositor::{circle_frame, is_frame, rect_frame, DrawError};

verus! {

/// A simulation object that the engine moves each tick and then draws.
pub trait Updatable: Sized {
    /// The object after `update` with the given directional magnitudes.
    spec fn updated(&self, inputs: [usize; 4]) -> Self;

    /// The buffer after `render` draws the object over `buffer`.
    spec fn rendered(&self, buffer: Seq<u8>, dimensions: (usize, usize)) -> Seq<u8>;

    /// Moves the object by the magnitudes left, up, right, down.
    fn update(&mut self, inputs: [usize; 4])
        ensures
            *final(self) == old(self).updated(inputs),
    ;

    /// Draws the object over `buffer`, a frame of `dimensions` pixels.
    fn render(&self, buffer: &mut Vec<u8>, dimensions: (usize, usize))
        requires
            is_frame(old(buffer)@, dimensions),
        ensures
            final(buffer)@ == self.rendered(old(buffer)@, dimensions),
            is_frame(final(buffer)@, dimensions),
    ;
}

/// The drawing primitives, offered to every entity.
pub trait Drawable {
    /// Blends a rectangle over `buffer`; see `compositor::draw_rect`.
    fn draw_rect(
        &self,
        buffer: &mut Vec<u8>,
        dimensions: (usize, usize),
        x: i32,
        y: i32,
        width: usize,
        height: usize,
        color: [u8; 4],
    )
        requires
            is_frame(old(buffer)@, dimensions),
        ensures
            final(buffer)@ == rect_frame(old(buffer)@, dimensions, x as int, y as int, width as int, height as int, color@),
    {
        crate::compositor::draw_rect(buffer, dimensions, x, y, width, height, color)
    }

    /// Fills a white circle over `buffer`; see `compositor::draw_circle`.
    fn draw_circle(&self, buffer: &mut Vec<u8>, dimensions: (usize, usize), x: i32, y: i32, radius: i32) -> (r:
        Result<(), DrawError>)
        requires
            is_frame(old(buffer)@, dimensions),
        ensures
            radius <= 0 ==> r == Err::<(), DrawError>(DrawError::NonPositiveRadius) && final(buffer)@ == old(buffer)@,
            radius > 0 ==> r is Ok && final(buffer)@ == circle_frame(old(buffer)@, dimensions, x as int, y as int, radius as int),
    {
        crate::compositor::draw_circle(buffer, dimensions, x, y, radius)
    }
}

} // verus!
