//! What one job computes: the fit of an image and the image in the colours
//! of the fit.

use vstd::prelude::*;
use crate::metric::Sample;
use crate::lloyd::seeds_wf;
use crate::seeding::spread;
use crate::model::{FitError, Model};
use crate::cli::{copy_pixels, DecodedImage};
use crate::render::{gen_palette, palette_too_large, render, Palette};

verus! {

/// The result of a job: the model that was fitted to the image, and the
/// image in the colours of the model.
#[derive(Debug)]
pub struct Quantized {
    pub model: Model,
    /// The pixels in row-major order.
    pub pixels: Vec<Sample>,
    pub width: u32,
    pub height: u32,
    /// The picture of the palette, where the job asks for one.
    pub palette: Option<Palette>,
}

impl Quantized {
    /// The image has the size of `image` and every pixel has the colour of
    /// the centre that the model gives it.  The picture of the palette is
    /// there where `image` asks for one, unless it would be too large.
    pub open spec fn renders(&self, image: &DecodedImage) -> bool {
        &&& self.model@.wf()
        &&& match self.palette {
            Some(p) => image.config.palette && p.shows(self.model.centroids@),
            None => !image.config.palette || palette_too_large(
                self.model.centroids.len() as int,
            ),
        }
        &&& self.width == image.width
        &&& self.height == image.height
        &&& self.pixels.len() == image.pixels.len()
        &&& self.model.mapping.len() == image.pixels.len()
        &&& forall|i: int|
            0 <= i < self.pixels.len() ==> {
                let label = self.model.mapping@[i] as int;
                self.model.centroids@[label].rounds_into(#[trigger] self.pixels@[i])
            }
    }
}

impl DecodedImage {
    fn rendered(&self, model: Model) -> (q: Quantized)
        requires
            model@.wf(),
            model.mapping.len() == self.pixels.len(),
        ensures
            q.model == model,
            q.renders(self),
    {
        let pixels = render(&model);
        let palette = if self.config.palette {
            gen_palette(&model.centroids)
        } else {
            None
        };
        Quantized { model, pixels, width: self.width, height: self.height, palette }
    }

    /// Runs the job: fits a model with the job's settings to the pixels and
    /// renders the image in the colours of the model.  The job fails where
    /// the fit is refused.
    pub fn quantize(&self) -> (r: Result<Quantized, FitError>)
        ensures
            match r {
                Ok(q) => {
                    &&& self.config.spec_trainer().refusal(self.pixels.len() as int) is None
                    &&& exists|seeds: Seq<usize>|
                        {
                            &&& seeds_wf(seeds, self.config.colors as int, self.pixels.len() as int)
                            &&& spread(self.config.metric, self.pixels@, seeds)
                            &&& q.model@ == #[trigger] self.config.spec_trainer().fitted(
                                self.pixels@,
                                seeds,
                            )
                        }
                    &&& q.renders(self)
                },
                Err(e) => self.config.spec_trainer().refusal(self.pixels.len() as int) == Some(e),
            },
    {
        let trainer = self.config.trainer();
        match trainer.fit(copy_pixels(&self.pixels)) {
            Err(e) => Err(e),
            Ok(model) => Ok(self.rendered(model)),
        }
    }

    /// Runs the job from given seeds.  The same seeds give the same result.
    pub fn quantize_with_seeds(&self, seeds: &Vec<usize>) -> (r: Result<Quantized, FitError>)
        ensures
            match r {
                Ok(q) => {
                    &&& self.config.spec_trainer().refusal(self.pixels.len() as int) is None
                    &&& seeds_wf(seeds@, self.config.colors as int, self.pixels.len() as int)
                    &&& q.model@ == self.config.spec_trainer().fitted(self.pixels@, seeds@)
                    &&& q.renders(self)
                },
                Err(e) => if self.config.spec_trainer().refusal(self.pixels.len() as int) is None {
                    e == FitError::InvalidSeeds && !seeds_wf(
                        seeds@,
                        self.config.colors as int,
                        self.pixels.len() as int,
                    )
                } else {
                    self.config.spec_trainer().refusal(self.pixels.len() as int) == Some(e)
                },
            },
    {
        let trainer = self.config.trainer();
        match trainer.fit_with_seeds(&self.pixels, seeds) {
            Err(e) => Err(e),
            Ok(model) => Ok(self.rendered(model)),
        }
    }
}

} // verus!
