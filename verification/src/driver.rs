use vstd::prelude::*;

use crate::color::LEDColor;
use crate::encoder::{encoded_buffer, set_dma_buffer_with_index, BITS_PER_LED};
use vstd::arithmetic::div_mod::lemma_mod_bound;

verus! {

/// The state of the scrolling animation: a fixed palette of colors, the
/// duty-cycle buffer that is re-encoded each frame and handed to the
/// timer/DMA peripheral, the length of the trailing reset period, and the
/// rotation offset of the frame being shown.
pub struct AnimationDriver {
    pub led_array: Vec<LEDColor>,
    pub dma_buffer: Vec<u16>,
    pub reset_periods: usize,
    pub offset: usize,
}

impl AnimationDriver {
    /// Well-formedness: the buffer has exactly one slot per protocol bit
    /// plus the reset period, the reset period is all zero, and the offset
    /// is already reduced modulo the palette length.
    pub open spec fn wf(self) -> bool {
        &&& self.dma_buffer@.len() == BITS_PER_LED * self.led_array@.len() + self.reset_periods
        &&& forall|j: int|
            BITS_PER_LED * self.led_array@.len() <= j < self.dma_buffer@.len()
                ==> self.dma_buffer@[j] == 0u16
        &&& if self.led_array@.len() == 0 {
            self.offset == 0
        } else {
            self.offset < self.led_array@.len()
        }
    }

    /// Allocates the driver for a palette: the buffer starts all zero, one
    /// slot per protocol bit plus `reset_periods` reset slots, and the
    /// animation starts unrotated.
    pub fn new(led_array: Vec<LEDColor>, reset_periods: usize) -> (d: Self)
        requires
            BITS_PER_LED * led_array@.len() + reset_periods <= usize::MAX,
        ensures
            d.wf(),
            d.led_array@ == led_array@,
            d.reset_periods == reset_periods,
            d.offset == 0,
            d.dma_buffer@ == Seq::new(
                (BITS_PER_LED * led_array@.len() + reset_periods) as nat,
                |j: int| 0u16,
            ),
    {
        let n = led_array.len();
        let total = BITS_PER_LED * n + reset_periods;
        let mut dma_buffer: Vec<u16> = Vec::new();
        while dma_buffer.len() < total
            invariant
                dma_buffer@.len() <= total,
                forall|j: int| 0 <= j < dma_buffer@.len() ==> dma_buffer@[j] == 0u16,
            decreases total - dma_buffer@.len(),
        {
            dma_buffer.push(0);
        }
        proof {
            assert(dma_buffer@ =~= Seq::new(
                (BITS_PER_LED * led_array@.len() + reset_periods) as nat,
                |j: int| 0u16,
            ));
        }
        AnimationDriver { led_array, dma_buffer, reset_periods, offset: 0 }
    }

    /// Re-encodes the whole frame for the current rotation offset: after the
    /// call the buffer is exactly the encoding of the palette rotated left
    /// by the offset, followed by the all-zero reset period.
    pub fn encode_frame(&mut self)
        requires
            old(self).wf(),
        ensures
            final(self).wf(),
            final(self).led_array@ == old(self).led_array@,
            final(self).reset_periods == old(self).reset_periods,
            final(self).offset == old(self).offset,
            final(self).dma_buffer@ == encoded_buffer(
                old(self).led_array@,
                old(self).offset as int,
                old(self).reset_periods as nat,
            ),
    {
        let offset = self.offset;
        set_dma_buffer_with_index(&mut self.dma_buffer, &self.led_array, offset);
        proof {
            assert(self.dma_buffer@ =~= encoded_buffer(
                self.led_array@,
                offset as int,
                self.reset_periods as nat,
            ));
        }
    }

    /// Advances the rotation offset by one step for the next frame, wrapping
    /// modulo the palette length; the palette and the buffer are untouched.
    pub fn advance(&mut self)
        requires
            old(self).wf(),
        ensures
            final(self).wf(),
            final(self).led_array@ == old(self).led_array@,
            final(self).reset_periods == old(self).reset_periods,
            final(self).dma_buffer@ == old(self).dma_buffer@,
            final(self).offset == if old(self).led_array@.len() == 0 {
                0int
            } else {
                (old(self).offset + 1) % (old(self).led_array@.len() as int)
            },
    {
        let n = self.led_array.len();
        if n > 0 {
            self.offset = (self.offset + 1) % n;
            proof {
                lemma_mod_bound(old(self).offset + 1, n as int);
            }
        }
    }
}

} // verus!
