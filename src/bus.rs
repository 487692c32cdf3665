use vstd::prelude::*;

verus! {

/// What the application's event loop carries: a display frame request or a
/// debounced input event.
#[derive(Debug, Clone, Copy, PartialEq, Eq, Structural)]
pub enum Event {
    DisplayFrame,
    Input(crate::events::Event),
}

impl From<crate::events::Event> for Event {
    fn from(event: crate::events::Event) -> (r: Event) {
        Event::Input(event)
    }
}

impl vstd::std_specs::convert::FromSpecImpl<crate::events::Event> for Event {
    open spec fn obeys_from_spec() -> bool {
        true
    }

    open spec fn from_spec(event: crate::events::Event) -> Event {
        Event::Input(event)
    }
}

} // verus!
