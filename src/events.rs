use vstd::prelude::*;

verus! {

/// What an input reports, without the pin it came from.
#[derive(Debug, Clone, Copy, PartialEq, Eq, Structural)]
pub enum InputEvent {
    On,
    Off,
    Pressed,
    Released,
}

/// An input event tagged with the pin that produced it.
#[derive(Debug, Clone, Copy, PartialEq, Eq, Structural)]
pub enum Event {
    On(i32),
    Off(i32),
    Pressed(i32),
    Released(i32),
}

/// The event of kind `kind` for pin `pin`.
pub open spec fn tag(pin: i32, kind: InputEvent) -> Event {
    match kind {
        InputEvent::On => Event::On(pin),
        InputEvent::Off => Event::Off(pin),
        InputEvent::Pressed => Event::Pressed(pin),
        InputEvent::Released => Event::Released(pin),
    }
}

impl Event {
    pub open spec fn spec_pin(self) -> i32 {
        match self {
            Event::On(p) => p,
            Event::Off(p) => p,
            Event::Pressed(p) => p,
            Event::Released(p) => p,
        }
    }

    pub open spec fn spec_kind(self) -> InputEvent {
        match self {
            Event::On(_) => InputEvent::On,
            Event::Off(_) => InputEvent::Off,
            Event::Pressed(_) => InputEvent::Pressed,
            Event::Released(_) => InputEvent::Released,
        }
    }

    /// Builds the event of kind `kind` for pin `pin`.
    pub fn tagged(pin: i32, kind: InputEvent) -> (r: Event)
        ensures
            r == tag(pin, kind),
            r.spec_pin() == pin,
            r.spec_kind() == kind,
    {
        match kind {
            InputEvent::On => Event::On(pin),
            InputEvent::Off => Event::Off(pin),
            InputEvent::Pressed => Event::Pressed(pin),
            InputEvent::Released => Event::Released(pin),
        }
    }

    /// The pin that produced this event.
    pub fn pin(&self) -> (r: i32)
        ensures
            r == self.spec_pin(),
    {
        match *self {
            Event::On(p) => p,
            Event::Off(p) => p,
            Event::Pressed(p) => p,
            Event::Released(p) => p,
        }
    }

    /// The kind of this event, without its pin.
    pub fn kind(&self) -> (r: InputEvent)
        ensures
            r == self.spec_kind(),
            tag(self.spec_pin(), r) == *self,
    {
        match *self {
            Event::On(_) => InputEvent::On,
            Event::Off(_) => InputEvent::Off,
            Event::Pressed(_) => InputEvent::Pressed,
            Event::Released(_) => InputEvent::Released,
        }
    }
}

} // verus!
