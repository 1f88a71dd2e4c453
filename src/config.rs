//! The integer part of a render configuration and its validation.

use crate::palette::ColorScale;
use vstd::prelude::*;

verus! {

/// Raster size, iteration cap and color scale of one render.
#[derive(Clone, Copy, Debug, PartialEq, Eq, Structural)]
pub struct RenderConfig {
    pub width: u32,
    pub height: u32,
    pub max_iter: u32,
    pub scale: ColorScale,
}

/// Why a configuration was refused.
#[derive(Clone, Copy, Debug, PartialEq, Eq, Structural)]
pub enum ConfigError {
    ZeroWidth,
    ZeroHeight,
    ZeroMaxIter,
    /// The raster's byte buffer (four bytes per cell) would not fit in memory
    /// addressable by `usize`.
    RasterTooLarge,
}

/// Number of cells of a `width` by `height` raster.
pub open spec fn cell_count(width: nat, height: nat) -> nat {
    width * height
}

proof fn lemma_cells_fit_u64(width: u32, height: u32)
    ensures
        (width as nat) * (height as nat) <= u64::MAX,
{
    assert((width as nat) * (height as nat) <= 0xffff_ffffu64 * 0xffff_ffffu64) by (nonlinear_arith)
        requires
            width <= 0xffff_ffffu32,
            height <= 0xffff_ffffu32,
    ;
}

impl RenderConfig {
    /// Positive sizes and cap, and a byte buffer that `usize` can index.
    pub open spec fn wf(&self) -> bool {
        &&& self.width > 0
        &&& self.height > 0
        &&& self.max_iter > 0
        &&& 4 * cell_count(self.width as nat, self.height as nat) <= usize::MAX
    }

    /// Checks the invariant: the first failing condition, in the order
    /// width, height, iteration cap, buffer size, is reported.
    pub fn new(width: u32, height: u32, max_iter: u32, scale: ColorScale) -> (r: Result<
        RenderConfig,
        ConfigError,
    >)
        ensures
            width == 0 ==> r == Err::<RenderConfig, ConfigError>(ConfigError::ZeroWidth),
            width > 0 && height == 0 ==> r == Err::<RenderConfig, ConfigError>(
                ConfigError::ZeroHeight,
            ),
            width > 0 && height > 0 && max_iter == 0 ==> r == Err::<RenderConfig, ConfigError>(
                ConfigError::ZeroMaxIter,
            ),
            width > 0 && height > 0 && max_iter > 0 && 4 * cell_count(width as nat, height as nat)
                > usize::MAX ==> r == Err::<RenderConfig, ConfigError>(
                ConfigError::RasterTooLarge,
            ),
            r is Ok <==> (RenderConfig { width, height, max_iter, scale }).wf(),
            r matches Ok(c) ==> c == (RenderConfig { width, height, max_iter, scale }),
    {
        if width == 0 {
            return Err(ConfigError::ZeroWidth);
        }
        if height == 0 {
            return Err(ConfigError::ZeroHeight);
        }
        if max_iter == 0 {
            return Err(ConfigError::ZeroMaxIter);
        }
        proof {
            lemma_cells_fit_u64(width, height);
        }
        let cells: u64 = (width as u64) * (height as u64);
        if cells > (usize::MAX / 4) as u64 {
            return Err(ConfigError::RasterTooLarge);
        }
        Ok(RenderConfig { width, height, max_iter, scale })
    }

    /// Number of cells of the raster.
    pub fn cells(&self) -> (r: usize)
        requires
            self.wf(),
        ensures
            r as nat == cell_count(self.width as nat, self.height as nat),
    {
        proof {
            lemma_cells_fit_u64(self.width, self.height);
        }
        (self.width as u64 * self.height as u64) as usize
    }
}

} // verus!
