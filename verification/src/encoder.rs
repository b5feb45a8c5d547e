use vstd::prelude::*;

use crate::color::LEDColor;
use vstd::arithmetic::div_mod::{
    lemma_add_mod_noop_right, lemma_fundamental_div_mod_converse, lemma_mod_bound,
    lemma_small_mod,
};

verus! {

/// PWM compare value that spans the whole bit window: the counter period.
/// At an 800 kHz carrier one period is the protocol's 1.25 us bit window.
pub const MAX_TICK: u16 = 50;

/// Duty tick for a 0 bit: a short high pulse, about 0.32 of the bit window.
pub const LOW_VAL: u16 = 12;

/// Duty tick for a 1 bit: a long high pulse, about 0.64 of the bit window.
pub const HIGH_VAL: u16 = 24;

/// Buffer slots taken by one LED: 8 bits for each of the green, red and blue
/// channels, then 8 padding slots held at the 0-bit duty.
pub const BITS_PER_LED: usize = 32;

/// Whether bit `b` (0 = least significant) of channel value `v` is 1.
pub open spec fn bit_is_set(v: u8, b: u8) -> bool {
    (v >> b) & 1 == 1
}

/// Duty tick for slot `i` of a channel's 8-slot region, MSB first: slot `i`
/// carries bit `7 - i` of the channel value.
pub open spec fn bit_tick(v: u8, i: int) -> u16 {
    if bit_is_set(v, (7 - i) as u8) {
        HIGH_VAL
    } else {
        LOW_VAL
    }
}

/// The 32 duty ticks of one LED: channels in wire order green, red, blue,
/// then the padding channel, a constant zero byte.
pub open spec fn led_ticks(c: LEDColor) -> Seq<u16> {
    Seq::new(BITS_PER_LED as nat, |q: int|
        if q < 8 {
            bit_tick(c.g, q)
        } else if q < 16 {
            bit_tick(c.r, q - 8)
        } else if q < 24 {
            bit_tick(c.b, q - 16)
        } else {
            bit_tick(0, q - 24)
        })
}

/// The frame region of the buffer for a sequence rotated left by `start`:
/// the LED shown at position `p` is the one at source index
/// `(p + start) % leds.len()`.
pub open spec fn frame_ticks(leds: Seq<LEDColor>, start: int) -> Seq<u16> {
    Seq::new((BITS_PER_LED * leds.len()) as nat, |j: int|
        led_ticks(leds[(j / (BITS_PER_LED as int) + start) % (leds.len() as int)])[
            j % (BITS_PER_LED as int)])
}

/// A whole encoded buffer: the frame region followed by `reset_len` zero
/// slots, the low period that latches the strip.
pub open spec fn encoded_buffer(leds: Seq<LEDColor>, start: int, reset_len: nat) -> Seq<u16> {
    frame_ticks(leds, start) + Seq::new(reset_len, |j: int| 0u16)
}

/// Writes one channel value as 8 duty ticks at `buffer[start..start + 8]`,
/// most significant bit first: slot `i` becomes `HIGH_VAL` exactly when bit
/// `7 - i` of `color` is 1, and `LOW_VAL` otherwise.
pub fn set_byte(color: u8, buffer: &mut Vec<u16>, start: usize)
    requires
        start + 8 <= old(buffer)@.len(),
    ensures
        final(buffer)@.len() == old(buffer)@.len(),
        forall|i: int| 0 <= i < 8 ==> final(buffer)@[start + i] == bit_tick(color, i),
        forall|j: int|
            0 <= j < old(buffer)@.len() && !(start <= j < start + 8) ==> final(buffer)@[j]
                == old(buffer)@[j],
{
    let buffer_len = buffer.len();
    for i in 0..8usize
        invariant
            start + 8 <= buffer_len <= usize::MAX,
            buffer_len == buffer@.len(),
            buffer@.len() == old(buffer)@.len(),
            forall|k: int| 0 <= k < i ==> buffer@[start + k] == bit_tick(color, k),
            forall|j: int|
                0 <= j < buffer@.len() && !(start <= j < start + 8) ==> buffer@[j]
                    == old(buffer)@[j],
    {
        let shift: u8 = (7 - i) as u8;
        let tick: u16 = if (color & (1u8 << shift)) > 0 {
            HIGH_VAL
        } else {
            LOW_VAL
        };
        proof {
            assert((color & (1u8 << shift)) > 0 <==> (color >> shift) & 1 == 1) by (bit_vector);
        }
        buffer[start + i] = tick;
    }
}

/// Slot `BITS_PER_LED * p + q` of a rotated frame belongs to LED position
/// `p` and shows the color at source index `(p + start) % leds.len()`.
pub proof fn lemma_frame_ticks_index(leds: Seq<LEDColor>, start: int, p: int, q: int)
    requires
        0 <= start,
        0 <= p < leds.len(),
        0 <= q < BITS_PER_LED,
    ensures
        frame_ticks(leds, start)[BITS_PER_LED * p + q] == led_ticks(
            leds[(p + start) % (leds.len() as int)],
        )[q],
{
    let j = BITS_PER_LED * p + q;
    assert(j < BITS_PER_LED * leds.len()) by {
        assert(BITS_PER_LED * p + q < BITS_PER_LED * (p + 1) <= BITS_PER_LED * leds.len());
    }
    lemma_fundamental_div_mod_converse(j, BITS_PER_LED as int, p, q);
}

/// Rotation equivalence: the frame encoded with rotation offset `k`, read
/// at LED position `p` (slot `q` of its 32-slot region), equals the
/// unrotated frame read at source position `(p + k) % leds.len()`.
pub proof fn lemma_rotation_equivalence(leds: Seq<LEDColor>, k: int, p: int, q: int)
    requires
        0 <= k,
        0 <= p < leds.len(),
        0 <= q < BITS_PER_LED,
    ensures
        frame_ticks(leds, k)[BITS_PER_LED * p + q] == frame_ticks(leds, 0)[BITS_PER_LED * ((p + k)
            % (leds.len() as int)) + q],
{
    let n = leds.len() as int;
    let m = (p + k) % n;
    lemma_mod_bound(p + k, n);
    lemma_frame_ticks_index(leds, k, p, q);
    lemma_frame_ticks_index(leds, 0, m, q);
    lemma_small_mod(m as nat, n as nat);
}

/// Idempotence: encoding the same sequence, rotation offset and reset
/// length a second time yields a byte-identical buffer.
pub proof fn lemma_encode_idempotent(
    leds: Seq<LEDColor>,
    start: int,
    reset_len: nat,
    b1: Seq<u16>,
    b2: Seq<u16>,
)
    requires
        b1 == encoded_buffer(leds, start, reset_len),
        b2 == encoded_buffer(leds, start, reset_len),
    ensures
        b1 == b2,
{
}

/// Reset region invariant: every slot past the frame region of an encoded
/// buffer is zero, whatever the sequence holds.
pub proof fn lemma_reset_region_zero(leds: Seq<LEDColor>, start: int, reset_len: nat, j: int)
    requires
        BITS_PER_LED * leds.len() <= j < encoded_buffer(leds, start, reset_len).len(),
    ensures
        encoded_buffer(leds, start, reset_len)[j] == 0u16,
{
}

/// Buffer length invariant: an encoded buffer always holds exactly
/// `BITS_PER_LED` slots per LED plus the reset period.
pub proof fn lemma_buffer_length(leds: Seq<LEDColor>, start: int, reset_len: nat)
    ensures
        encoded_buffer(leds, start, reset_len).len() == BITS_PER_LED * leds.len() + reset_len,
{
}

/// Fills the frame region of `dma_buffer` from `led_array` rotated left by
/// `start`: output position `p` shows the color at source index
/// `(p + start) % led_array.len()`. The tail past the frame region — the
/// reset period — is never touched.
pub fn set_dma_buffer_with_index(dma_buffer: &mut Vec<u16>, led_array: &Vec<LEDColor>, start: usize)
    requires
        BITS_PER_LED * led_array@.len() <= old(dma_buffer)@.len(),
    ensures
        final(dma_buffer)@.len() == old(dma_buffer)@.len(),
        forall|j: int|
            0 <= j < BITS_PER_LED * led_array@.len() ==> final(dma_buffer)@[j] == frame_ticks(
                led_array@,
                start as int,
            )[j],
        forall|j: int|
            BITS_PER_LED * led_array@.len() <= j < old(dma_buffer)@.len() ==> final(dma_buffer)@[j]
                == old(dma_buffer)@[j],
{
    let n = led_array.len();
    if n == 0 {
        return ;
    }
    let buffer_len = dma_buffer.len();
    let start_reduced = start % n;
    proof {
        lemma_mod_bound(start as int, n as int);
    }
    for p in 0..n
        invariant
            n == led_array@.len(),
            0 < n,
            BITS_PER_LED * n <= buffer_len <= usize::MAX,
            buffer_len == dma_buffer@.len(),
            dma_buffer@.len() == old(dma_buffer)@.len(),
            start_reduced == start as int % (n as int),
            start_reduced < n,
            forall|j: int|
                0 <= j < BITS_PER_LED * p ==> dma_buffer@[j] == frame_ticks(
                    led_array@,
                    start as int,
                )[j],
            forall|j: int|
                BITS_PER_LED * n <= j < dma_buffer@.len() ==> dma_buffer@[j] == old(
                    dma_buffer,
                )@[j],
    {
        let src = if start_reduced + p < n {
            start_reduced + p
        } else {
            start_reduced + p - n
        };
        proof {
            assert(BITS_PER_LED * p + BITS_PER_LED <= BITS_PER_LED * n);
            assert(src == (p + start_reduced) % (n as int)) by {
                lemma_mod_bound(p + start_reduced, n as int);
                if start_reduced + p < n {
                    lemma_small_mod((start_reduced + p) as nat, n as nat);
                } else {
                    lemma_fundamental_div_mod_converse(
                        p + start_reduced,
                        n as int,
                        1,
                        p + start_reduced - n,
                    );
                }
            }
            assert(src == (p + start) % (n as int)) by {
                lemma_add_mod_noop_right(p as int, start as int, n as int);
            }
        }
        let led = led_array[src];
        let base = BITS_PER_LED * p;
        set_byte(led.g, dma_buffer, base);
        set_byte(led.r, dma_buffer, base + 8);
        set_byte(led.b, dma_buffer, base + 16);
        set_byte(0, dma_buffer, base + 24);
        proof {
            assert forall|j: int| 0 <= j < BITS_PER_LED * (p + 1) implies dma_buffer@[j]
                == frame_ticks(led_array@, start as int)[j] by {
                if BITS_PER_LED * p <= j {
                    let q = j - BITS_PER_LED * p;
                    lemma_frame_ticks_index(led_array@, start as int, p as int, q);
                    assert(dma_buffer@[j] == led_ticks(led_array@[src as int])[q]);
                }
            }
        }
    }
}

/// Fills the frame region of `dma_buffer` from `led_array` in order: output
/// position `p` shows the color at index `p`. The reset-period tail is never
/// touched.
pub fn set_dma_buffer(dma_buffer: &mut Vec<u16>, led_array: &Vec<LEDColor>)
    requires
        BITS_PER_LED * led_array@.len() <= old(dma_buffer)@.len(),
    ensures
        final(dma_buffer)@.len() == old(dma_buffer)@.len(),
        forall|j: int|
            0 <= j < BITS_PER_LED * led_array@.len() ==> final(dma_buffer)@[j] == frame_ticks(
                led_array@,
                0,
            )[j],
        forall|j: int|
            BITS_PER_LED * led_array@.len() <= j < old(dma_buffer)@.len() ==> final(dma_buffer)@[j]
                == old(dma_buffer)@[j],
{
    set_dma_buffer_with_index(dma_buffer, led_array, 0);
}

} // verus!
