//! Debounced digital inputs: per-pin debounce state machines, a bounded
//! queue that carries edge notifications to the poll context, and a manager
//! that drains that queue and advances every input once per pass.

pub mod bus;
pub mod debounce;
pub mod events;
pub mod indicator;
pub mod inputs;
pub mod irq;

pub use debounce::{InputMode, Level, SAMPLES};
pub use events::{Event, InputEvent};
pub use indicator::{apply_event, gpio_to_bit_mask};

pub use inputs::{Input, InputManager};
pub use irq::{InterruptHandler, Notifier, IRQ_CAPACITY};
