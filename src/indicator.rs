use vstd::prelude::*;

use crate::events::Event;

verus! {

/// The bit of the indicator mask that stands for `gpio`, if any.
pub open spec fn mask_bit(gpio: i32) -> Option<u8> {
    match gpio {
        5 => Some(0u8),
        6 => Some(1u8),
        7 => Some(2u8),
        8 => Some(3u8),
        9 => Some(4u8),
        10 => Some(5u8),
        20 => Some(6u8),
        21 => Some(7u8),
        _ => None,
    }
}

/// The mask with only the bit of `gpio` set; empty for a pin with no bit.
pub open spec fn mask_of(gpio: i32) -> u8 {
    match mask_bit(gpio) {
        Some(b) => 1u8 << b,
        None => 0u8,
    }
}

/// The indicator mask with only the bit of `gpio` set; a pin with no bit
/// gives the empty mask, which leaves any mask it is applied to unchanged.
pub fn gpio_to_bit_mask(gpio: i32) -> (r: u8)
    ensures
        r == mask_of(gpio),
{
    let bit: Option<u8> = match gpio {
        5 => Some(0u8),
        6 => Some(1u8),
        7 => Some(2u8),
        8 => Some(3u8),
        9 => Some(4u8),
        10 => Some(5u8),
        20 => Some(6u8),
        21 => Some(7u8),
        _ => None,
    };
    match bit {
        Some(b) => 1u8 << b,
        None => 0u8,
    }
}

/// The indicator mask after `event`: a switch turned on sets its pin's bit,
/// one turned off clears it, and button events leave the mask as it was.
pub fn apply_event(bits: u8, event: Event) -> (r: u8)
    ensures
        r == match event {
            Event::On(g) => bits | mask_of(g),
            Event::Off(g) => bits & !mask_of(g),
            _ => bits,
        },
{
    match event {
        Event::On(g) => bits | gpio_to_bit_mask(g),
        Event::Off(g) => bits & !gpio_to_bit_mask(g),
        _ => bits,
    }
}

} // verus!
