use ws2812_driver::color::LEDColor;
use ws2812_driver::driver::AnimationDriver;
use ws2812_driver::encoder::set_dma_buffer;

#[test]
fn buffer_length_is_thirty_two_per_led_plus_reset() {
    for &n in &[0usize, 1, 2, 5, 58] {
        for &reset in &[40usize, 55, 64] {
            let leds = vec![LEDColor::new(9, 8, 7); n];
            let driver = AnimationDriver::new(leds, reset);
            assert_eq!(driver.dma_buffer.len(), 32 * n + reset);
        }
    }
}

#[test]
fn new_driver_starts_all_zero_and_unrotated() {
    let leds = vec![LEDColor::new(255, 255, 255), LEDColor::new(1, 2, 3)];
    let driver = AnimationDriver::new(leds, 64);
    assert_eq!(driver.offset, 0);
    assert_eq!(driver.dma_buffer, vec![0u16; 2 * 32 + 64]);
}

#[test]
fn reset_region_stays_zero_after_encode() {
    let leds = vec![LEDColor::new(255, 255, 255); 3];
    let mut driver = AnimationDriver::new(leds, 64);
    driver.encode_frame();
    assert_eq!(&driver.dma_buffer[3 * 32..], vec![0u16; 64].as_slice());
}

#[test]
fn advance_wraps_modulo_the_palette_length() {
    let leds = vec![LEDColor::new(1, 1, 1), LEDColor::new(2, 2, 2)];
    let mut driver = AnimationDriver::new(leds, 40);
    driver.advance();
    assert_eq!(driver.offset, 1);
    driver.advance();
    assert_eq!(driver.offset, 0);
    driver.advance();
    assert_eq!(driver.offset, 1);
}

#[test]
fn advance_on_an_empty_palette_stays_at_zero() {
    let mut driver = AnimationDriver::new(Vec::new(), 64);
    assert_eq!(driver.dma_buffer.len(), 64);
    driver.encode_frame();
    assert_eq!(driver.dma_buffer, vec![0u16; 64]);
    driver.advance();
    assert_eq!(driver.offset, 0);
}

#[test]
fn two_led_chase_rotates_by_one_each_frame() {
    let red = LEDColor::new(255, 0, 0);
    let blue = LEDColor::new(0, 0, 255);

    let mut driver = AnimationDriver::new(vec![red, blue], 64);
    driver.encode_frame();

    // Offset 0 shows [Red, Blue] as-is.
    let mut plain = vec![0u16; 2 * 32];
    set_dma_buffer(&mut plain, &vec![red, blue]);
    assert_eq!(&driver.dma_buffer[..64], plain.as_slice());

    // One step later the same buffer shows [Blue, Red].
    driver.advance();
    assert_eq!(driver.offset, 1);
    driver.encode_frame();
    let mut swapped = vec![0u16; 2 * 32];
    set_dma_buffer(&mut swapped, &vec![blue, red]);
    assert_eq!(&driver.dma_buffer[..64], swapped.as_slice());
}

#[test]
fn encode_frame_is_idempotent_for_a_fixed_offset() {
    let leds = vec![LEDColor::new(255, 20, 0), LEDColor::new(0, 255, 255)];
    let mut driver = AnimationDriver::new(leds, 55);
    driver.encode_frame();
    let first = driver.dma_buffer.clone();
    driver.encode_frame();
    assert_eq!(driver.dma_buffer, first);
}
