//! The output image: a row-major grid of colors, filled in parallel.

use vstd::prelude::*;

use crate::color::Color;

verus! {

/// A grid of pixels stored contiguously, read left to right, row by row,
/// top row first.
pub struct Image {
    pub width: usize,
    pub height: usize,
    pub pixels: Vec<Color>,
}

/// The pixel store matches the stated dimensions.
pub open spec fn image_wf(im: Image) -> bool {
    im.pixels@.len() == im.width * im.height
}

/// Relies on rayon's parallel mutable iterator over a slice: every slot
/// receives the closure's result for its own index, each computed in
/// parallel; the closure's postcondition holds of what it returned.
#[verifier::external_body]
fn par_fill<F: Fn(usize) -> Color + Sync + Send>(pixels: &mut Vec<Color>, f: &F)
    requires
        forall|i: usize| i < old(pixels)@.len() ==> f.requires((i,)),
    ensures
        final(pixels)@.len() == old(pixels)@.len(),
        forall|i: int|
            0 <= i < final(pixels)@.len() ==> f.ensures(
                ((i as usize),),
                #[trigger] final(pixels)@[i],
            ),
{
    rayon::iter::ParallelIterator::for_each(
        rayon::iter::IndexedParallelIterator::enumerate(
            rayon::iter::IntoParallelRefMutIterator::par_iter_mut(pixels),
        ),
        |(i, p): (usize, &mut Color)| *p = f(i),
    );
}

impl Image {
    /// Builds an image of the given dimensions with every pixel set to
    /// the default color.
    pub fn new(width: usize, height: usize, default: Color) -> (im: Image)
        requires
            width <= 0xffff,
            height <= 0xffff,
        ensures
            im.width == width,
            im.height == height,
            image_wf(im),
            forall|i: int| 0 <= i < im.pixels@.len() ==> im.pixels@[i] == default,
    {
        proof {
            assert(width * height < 0x1_0000_0000) by (nonlinear_arith)
                requires
                    width <= 0xffff,
                    height <= 0xffff,
            ;
        }
        let total = width * height;
        let mut pixels: Vec<Color> = Vec::new();
        let mut k: usize = 0;
        while k < total
            invariant
                k <= total,
                pixels@.len() == k,
                forall|i: int| 0 <= i < k ==> pixels@[i] == default,
            decreases total - k,
        {
            pixels.push(default);
            k = k + 1;
        }
        Image { width, height, pixels }
    }

    pub fn height(&self) -> (h: usize)
        ensures
            h == self.height,
    {
        self.height
    }

    pub fn width(&self) -> (w: usize)
        ensures
            w == self.width,
    {
        self.width
    }

    /// The pixel store, in raster order: left to right, top row first.
    pub fn pixels(&self) -> (p: &Vec<Color>)
        ensures
            p == &self.pixels,
    {
        &self.pixels
    }

    /// Reads one pixel from the store, in raster order.
    pub fn pixel(&self, idx: usize) -> (c: Color)
        requires
            idx < self.pixels@.len(),
        ensures
            c == self.pixels@[idx as int],
    {
        self.pixels[idx]
    }

    /// Fills every pixel with the closure's result for its index, in
    /// parallel across the available workers.
    pub fn apply_parallel<F: Fn(usize) -> Color + Sync + Send>(&mut self, f: &F)
        requires
            forall|i: usize| i < old(self).pixels@.len() ==> f.requires((i,)),
        ensures
            final(self).width == old(self).width,
            final(self).height == old(self).height,
            final(self).pixels@.len() == old(self).pixels@.len(),
            forall|i: int|
                0 <= i < final(self).pixels@.len() ==> f.ensures(
                    ((i as usize),),
                    #[trigger] final(self).pixels@[i],
                ),
    {
        par_fill(&mut self.pixels, f);
    }
}

} // verus!
