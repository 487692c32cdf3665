use esp_inputs::{Event, Input, InputEvent, InputMode, Level, SAMPLES};

fn armed(pin: i32, mode: InputMode, level: Level) -> Input {
    let handler = esp_inputs::InterruptHandler::new();
    let (input, _notifier) = Input::new(pin, mode, level).with_interrupts(&handler);
    input
}

#[test]
fn new_input_is_at_rest() {
    let mut input = Input::new(3, InputMode::Switch, Level::High);
    assert_eq!(input.state, Level::High);
    assert_eq!(input.pin, 3);
    assert!(!input.dirty);
    assert_eq!(input.tick(Level::Low), None);
    assert_eq!(input.state, Level::High);
}

#[test]
fn full_run_fires_on_last_sample_only() {
    let mut input = armed(5, InputMode::Switch, Level::Low);
    assert!(input.handle_interrupt());
    for _ in 0..SAMPLES - 1 {
        assert_eq!(input.tick(Level::High), None);
        assert!(input.dirty);
    }
    assert_eq!(input.tick(Level::High), Some(Event::On(5)));
    assert!(!input.dirty);
    assert_eq!(input.state, Level::High);
}

#[test]
fn steady_samples_do_not_fire_again() {
    let mut input = armed(5, InputMode::Switch, Level::Low);
    input.handle_interrupt();
    let mut events = Vec::new();
    for _ in 0..12 {
        input.handle_interrupt();
        if let Some(e) = input.tick(Level::High) {
            events.push(e);
        }
    }
    assert_eq!(events, vec![Event::On(5)]);
}

#[test]
fn samples_at_confirmed_level_resolve_silently() {
    let mut input = armed(7, InputMode::Button, Level::Low);
    input.handle_interrupt();
    assert_eq!(input.tick(Level::Low), None);
    assert!(!input.dirty);
    assert_eq!(input.state, Level::Low);
}

#[test]
fn noise_never_fires() {
    let mut input = armed(5, InputMode::Switch, Level::Low);
    let pattern = [Level::High, Level::High, Level::High, Level::High, Level::Low];
    for round in 0..40 {
        input.handle_interrupt();
        assert_eq!(input.tick(pattern[round % pattern.len()]), None);
    }
    assert_eq!(input.state, Level::Low);
}

#[test]
fn noise_then_run_fires_once_at_run_end() {
    let mut input = armed(5, InputMode::Switch, Level::Low);
    let samples = [
        Level::High, Level::Low, Level::High, Level::High, Level::High, Level::High, Level::High,
    ];
    let mut fired = Vec::new();
    for (i, s) in samples.iter().enumerate() {
        input.handle_interrupt();
        if let Some(e) = input.tick(*s) {
            fired.push((i, e));
        }
    }
    assert_eq!(fired, vec![(6, Event::On(5))]);
}

#[test]
fn switch_classification() {
    let mut input = armed(9, InputMode::Switch, Level::High);
    input.handle_interrupt();
    let mut last = None;
    for _ in 0..SAMPLES {
        last = input.tick(Level::Low);
    }
    assert_eq!(last, Some(Event::Off(9)));
    input.handle_interrupt();
    for _ in 0..SAMPLES {
        last = input.tick(Level::High);
    }
    assert_eq!(last, Some(Event::On(9)));
}

#[test]
fn button_classification() {
    let mut input = armed(9, InputMode::Button, Level::High);
    input.handle_interrupt();
    let mut last = None;
    for _ in 0..SAMPLES {
        last = input.tick(Level::Low);
    }
    assert_eq!(last, Some(Event::Released(9)));
    assert_eq!(input.input_event(), Event::Released(9));
    input.handle_interrupt();
    for _ in 0..SAMPLES {
        last = input.tick(Level::High);
    }
    assert_eq!(last, Some(Event::Pressed(9)));
    assert_eq!(input.input_event().kind(), InputEvent::Pressed);
}

#[test]
fn notification_without_interrupts_is_ignored() {
    let mut input = Input::new(4, InputMode::Switch, Level::Low);
    assert!(!input.handle_interrupt());
    assert!(!input.dirty);
    for _ in 0..SAMPLES {
        assert_eq!(input.tick(Level::High), None);
    }
    assert_eq!(input.state, Level::Low);
}

#[test]
fn event_parts() {
    let e = Event::tagged(21, InputEvent::Off);
    assert_eq!(e, Event::Off(21));
    assert_eq!(e.pin(), 21);
    assert_eq!(e.kind(), InputEvent::Off);
    assert_eq!(Event::Pressed(3).pin(), 3);
}
