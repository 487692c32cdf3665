use esp_inputs::bus;
use esp_inputs::{apply_event, gpio_to_bit_mask, Event, InputManager, Level};

use Level::{High, Low};

fn pass(m: &mut InputManager, samples: Vec<Level>) -> (Vec<Event>, Vec<i32>) {
    let mut rearm = Vec::new();
    let events = m.events(&samples, &mut rearm);
    (events, rearm)
}

#[test]
fn scenario_steady_high_fires_once() {
    let mut m = InputManager::new();
    let n = m.new_switch(5, Low, true).unwrap();
    assert!(m.notify(&n));
    let mut all = Vec::new();
    for (i, s) in [High, High, High, High, High].iter().enumerate() {
        let (events, rearm) = pass(&mut m, vec![*s]);
        if i == 0 {
            assert_eq!(rearm, vec![5]);
        } else {
            assert!(rearm.is_empty());
        }
        if i < 4 {
            assert!(events.is_empty());
        }
        all.extend(events);
    }
    assert_eq!(all, vec![Event::On(5)]);
}

#[test]
fn scenario_bouncing_never_fires() {
    let mut m = InputManager::new();
    let n = m.new_switch(5, Low, true).unwrap();
    let mut all = Vec::new();
    for s in [High, Low, High, Low, High] {
        m.notify(&n);
        let (events, _) = pass(&mut m, vec![s]);
        all.extend(events);
    }
    assert!(all.is_empty());
}

#[test]
fn scenario_two_pins_in_one_pass() {
    let mut m = InputManager::new();
    let n5 = m.new_switch(5, Low, true).unwrap();
    let n6 = m.new_switch(6, Low, true).unwrap();
    assert!(m.notify(&n5));
    assert!(m.notify(&n6));
    let (events, rearm) = pass(&mut m, vec![High, High]);
    assert_eq!(rearm, vec![5, 6]);
    assert!(events.is_empty());
    for _ in 0..3 {
        let (events, _) = pass(&mut m, vec![High, High]);
        assert!(events.is_empty());
    }
    let (events, _) = pass(&mut m, vec![High, High]);
    assert_eq!(events, vec![Event::On(5), Event::On(6)]);
}

#[test]
fn unknown_pin_is_skipped() {
    let mut m = InputManager::new();
    let n = m.new_button(8, Low, true).unwrap();
    let mut other = InputManager::new();
    let stray = other.new_switch(30, Low, true).unwrap();
    assert!(m.notify(&stray));
    assert!(m.notify(&n));
    let (events, rearm) = pass(&mut m, vec![High]);
    assert_eq!(rearm, vec![8]);
    assert!(events.is_empty());
}

#[test]
fn input_without_interrupts_never_fires() {
    let mut m = InputManager::new();
    assert!(m.new_switch(5, Low, false).is_none());
    for _ in 0..6 {
        let (events, rearm) = pass(&mut m, vec![High]);
        assert!(events.is_empty());
        assert!(rearm.is_empty());
    }
}

#[test]
fn reregistration_replaces_input() {
    let mut m = InputManager::new();
    m.new_switch(5, Low, true).unwrap();
    let n = m.new_button(5, Low, true).unwrap();
    m.notify(&n);
    let mut all = Vec::new();
    for _ in 0..5 {
        // one registered input, so one sample per pass
        let (events, _) = pass(&mut m, vec![High]);
        all.extend(events);
    }
    assert_eq!(all, vec![Event::Pressed(5)]);
}

#[test]
fn overflow_drops_newest_notifications() {
    let mut m = InputManager::new();
    let mut notifiers = Vec::new();
    for pin in 0..10 {
        notifiers.push(m.new_switch(pin, Low, true).unwrap());
    }
    for n in &notifiers {
        m.notify(n);
    }
    let (_, rearm) = pass(&mut m, vec![Low; 10]);
    assert_eq!(rearm, (0..8).collect::<Vec<i32>>());
}

#[test]
fn eval_wraps_events_for_the_loop() {
    let mut m = InputManager::new();
    let n = m.new_button(6, High, true).unwrap();
    m.notify(&n);
    let mut all = Vec::new();
    for _ in 0..5 {
        let mut rearm = Vec::new();
        all.extend(m.eval(&vec![Low], &mut rearm));
    }
    assert_eq!(all, vec![bus::Event::Input(Event::Released(6))]);
    assert_eq!(bus::Event::from(Event::On(2)), bus::Event::Input(Event::On(2)));
}

#[test]
fn bit_masks() {
    assert_eq!(gpio_to_bit_mask(5), 1);
    assert_eq!(gpio_to_bit_mask(6), 2);
    assert_eq!(gpio_to_bit_mask(10), 32);
    assert_eq!(gpio_to_bit_mask(20), 64);
    assert_eq!(gpio_to_bit_mask(21), 128);
    assert_eq!(gpio_to_bit_mask(11), 0);
    assert_eq!(gpio_to_bit_mask(-1), 0);
}

#[test]
fn mask_follows_switch_events() {
    let mut bits: u8 = 0;
    bits = apply_event(bits, Event::On(5));
    bits = apply_event(bits, Event::On(21));
    assert_eq!(bits, 0b1000_0001);
    bits = apply_event(bits, Event::Off(5));
    assert_eq!(bits, 0b1000_0000);
    bits = apply_event(bits, Event::Pressed(6));
    bits = apply_event(bits, Event::On(99));
    assert_eq!(bits, 0b1000_0000);
}
