use vstd::prelude::*;

use crate::debounce::{
    classify, high_count, lemma_settled_level, InputMode, InputState, Level, SAMPLES,
};
use crate::bus;
use crate::events::{tag, Event, InputEvent};
use crate::irq::{enqueued, InterruptHandler, Notifier, IRQ_CAPACITY};

verus! {

/// One debounced input line.
#[derive(Debug, Clone, Copy)]
pub struct Input {
    /// The confirmed level.
    pub state: Level,
    pub pin: i32,
    /// An edge was notified and has not been resolved yet.
    pub dirty: bool,
    has_interrupts: bool,
    mode: InputMode,
    window: [bool; SAMPLES],
    /// Ring position of the oldest sample, where the next one is written.
    head: usize,
}

impl View for Input {
    type V = InputState;

    closed spec fn view(&self) -> InputState {
        InputState {
            pin: self.pin,
            mode: self.mode,
            confirmed: self.state,
            dirty: self.dirty,
            interrupts: self.has_interrupts,
            window: Seq::new(SAMPLES as nat, |i: int| self.window[(self.head + i) % (SAMPLES as int)]),
        }
    }
}

impl Input {
    pub closed spec fn wf(&self) -> bool {
        &&& self.head < SAMPLES
        &&& self@.wf()
    }

    /// A new input on `pin`, seeded with the level read from the line; it
    /// produces no event on creation.
    pub fn new(pin: i32, mode: InputMode, level: Level) -> (r: Input)
        ensures
            r.wf(),
            r@ == InputState::fresh(pin, mode, level, false),
    {
        let bit = match level {
            Level::High => true,
            Level::Low => false,
        };
        let r = Input {
            state: level,
            pin,
            dirty: false,
            has_interrupts: false,
            mode,
            window: [bit; SAMPLES],
            head: 0,
        };
        assert(r@.window =~= InputState::fresh(pin, mode, level, false).window);
        proof {
            lemma_settled_level(r@.window, level);
        }
        r
    }

    /// Enables edge notifications for this input and hands back the notifier
    /// that the notification context uses to signal its edges.
    pub fn with_interrupts(self, handler: &InterruptHandler) -> (r: (Input, Notifier))
        requires
            self.wf(),
        ensures
            r.0.wf(),
            r.0@ == (InputState { interrupts: true, ..self@ }),
            r.1.pin() == self@.pin,
    {
        let mut input = self;
        input.has_interrupts = true;
        let notifier = handler.register(input.pin);
        assert(input@.window =~= self@.window);
        (input, notifier)
    }

    /// Applies one edge notification. Returns whether the line's edge
    /// interrupt must be re-armed; an input without notifications enabled
    /// is left unchanged.
    pub fn handle_interrupt(&mut self) -> (rearm: bool)
        requires
            old(self).wf(),
        ensures
            final(self).wf(),
            final(self)@ == old(self)@.notified(),
            rearm == old(self)@.interrupts,
    {
        if !self.has_interrupts {
            return false;
        }
        let ghost w = self@.window;
        self.dirty = true;
        assert(self@.window =~= w);
        true
    }

    /// The classified event for the confirmed level.
    pub fn input_event(&self) -> (r: Event)
        ensures
            r == tag(self@.pin, classify(self@.mode, self@.confirmed)),
    {
        let kind = match self.mode {
            InputMode::Switch => match self.state {
                Level::High => InputEvent::On,
                Level::Low => InputEvent::Off,
            },
            InputMode::Button => match self.state {
                Level::High => InputEvent::Pressed,
                Level::Low => InputEvent::Released,
            },
        };
        Event::tagged(self.pin, kind)
    }

    /// Counts the High samples of the window.
    fn count_high(&self) -> (n: usize)
        requires
            self.wf(),
        ensures
            n == high_count(self@.window),
    {
        let ghost w = self@.window;
        let mut n: usize = 0;
        let mut i: usize = 0;
        while i < SAMPLES
            invariant
                self.wf(),
                w == self@.window,
                i <= SAMPLES,
                n <= i,
                n == high_count(w.take(i as int)),
            decreases SAMPLES - i,
        {
            let pos = (self.head + i) % SAMPLES;
            assert(w.take(i + 1).drop_last() =~= w.take(i as int));
            if self.window[pos] {
                n = n + 1;
            }
            i = i + 1;
        }
        assert(w.take(SAMPLES as int) =~= w);
        n
    }

    /// Advances the debounce state by one poll tick that read `sample`.
    ///
    /// While an edge is pending, the sample displaces the oldest one in the
    /// window; once the window is unanimous the edge is resolved, and an event
    /// comes exactly when the settled level differs from the confirmed one.
    pub fn tick(&mut self, sample: Level) -> (r: Option<Event>)
        requires
            old(self).wf(),
        ensures
            final(self).wf(),
            final(self)@ == old(self)@.ticked(sample),
            r == old(self)@.tick_event(sample),
    {
        if !self.dirty {
            return None;
        }
        let bit = match sample {
            Level::High => true,
            Level::Low => false,
        };
        let ghost pushed = old(self)@.pushed(sample);
        let h = self.head;
        self.window[h] = bit;
        self.head = if h + 1 == SAMPLES {
            0
        } else {
            h + 1
        };
        assert(self@.window =~= pushed) by {
            assert forall|i: int| 0 <= i < SAMPLES implies #[trigger] self@.window[i] == pushed[i] by {
                if i + 1 < SAMPLES {
                    assert((self.head + i) % (SAMPLES as int) == (h + 1 + i) % (SAMPLES as int));
                    assert((h + 1 + i) % (SAMPLES as int) != h);
                }
            }
        }
        let count = self.count_high();
        if count == 0 || count == SAMPLES {
            let level = if count == SAMPLES {
                Level::High
            } else {
                Level::Low
            };
            self.dirty = false;
            proof {
                lemma_settled_level(pushed, level);
            }
            if level != self.state {
                self.state = level;
                Some(self.input_event())
            } else {
                None
            }
        } else {
            None
        }
    }
}

/// No two entries of `reg` share a pin.
pub open spec fn unique_pins(reg: Seq<InputState>) -> bool {
    forall|i: int, j: int|
        0 <= i < reg.len() && 0 <= j < reg.len() && i != j ==> #[trigger] reg[i].pin != #[trigger] reg[j].pin
}

/// Some entry of `reg` is on `pin`.
pub open spec fn has_pin(reg: Seq<InputState>, pin: i32) -> bool {
    exists|i: int| 0 <= i < reg.len() && #[trigger] reg[i].pin == pin
}

/// The registry after registering `s`: it replaces the entry on the same
/// pin in place, or is appended when there is none.
pub open spec fn registered(reg: Seq<InputState>, s: InputState) -> Seq<InputState> {
    if has_pin(reg, s.pin) {
        reg.update(choose|i: int| 0 <= i < reg.len() && #[trigger] reg[i].pin == s.pin, s)
    } else {
        reg.push(s)
    }
}

/// The registry after one notification for `pin`; a pin with no entry
/// changes nothing.
pub open spec fn notify_pin(reg: Seq<InputState>, pin: i32) -> Seq<InputState> {
    reg.map_values(|s: InputState| if s.pin == pin { s.notified() } else { s })
}

/// The registry after the notifications for `pins`, in order.
pub open spec fn notify_all(reg: Seq<InputState>, pins: Seq<i32>) -> Seq<InputState>
    decreases pins.len(),
{
    if pins.len() == 0 {
        reg
    } else {
        notify_pin(notify_all(reg, pins.drop_last()), pins.last())
    }
}

/// The entry of `reg` on `pin` has edge notifications enabled.
pub open spec fn armed(reg: Seq<InputState>, pin: i32) -> bool {
    exists|i: int| 0 <= i < reg.len() && #[trigger] reg[i].pin == pin && reg[i].interrupts
}

/// The entries of `pins` whose input has edge notifications enabled, in
/// order: the lines whose edge interrupt is re-armed.
pub open spec fn armed_hits(reg: Seq<InputState>, pins: Seq<i32>) -> Seq<i32>
    decreases pins.len(),
{
    if pins.len() == 0 {
        Seq::empty()
    } else if armed(reg, pins.last()) {
        armed_hits(reg, pins.drop_last()).push(pins.last())
    } else {
        armed_hits(reg, pins.drop_last())
    }
}

/// The registry after one tick of every entry, entry `i` reading `samples[i]`.
pub open spec fn tick_all(reg: Seq<InputState>, samples: Seq<Level>) -> Seq<InputState> {
    Seq::new(reg.len(), |i: int| reg[i].ticked(samples[i]))
}

/// The events of one tick of the first `n` entries, in registry order.
pub open spec fn pass_events(reg: Seq<InputState>, samples: Seq<Level>, n: int) -> Seq<Event>
    decreases n,
{
    if n <= 0 {
        Seq::empty()
    } else {
        match reg[n - 1].tick_event(samples[n - 1]) {
            Some(e) => pass_events(reg, samples, n - 1).push(e),
            None => pass_events(reg, samples, n - 1),
        }
    }
}

/// Notifications change no entry's pin, mode or notification setting, and
/// add or remove no entry.
pub proof fn lemma_notify_all_frame(reg: Seq<InputState>, pins: Seq<i32>)
    ensures
        notify_all(reg, pins).len() == reg.len(),
        forall|j: int|
            0 <= j < reg.len() ==> (#[trigger] notify_all(reg, pins)[j]).pin == reg[j].pin
                && notify_all(reg, pins)[j].mode == reg[j].mode
                && notify_all(reg, pins)[j].interrupts == reg[j].interrupts,
    decreases pins.len(),
{
    if pins.len() > 0 {
        lemma_notify_all_frame(reg, pins.drop_last());
    }
}

/// The debounced inputs, keyed by pin, and the consumer side of the queue
/// that carries their edge notifications.
pub struct InputManager {
    inputs: Vec<Input>,
    irq_handler: InterruptHandler,
}

impl InputManager {
    /// The registered inputs, in registration order.
    pub closed spec fn registry(&self) -> Seq<InputState> {
        self.inputs@.map_values(|i: Input| i@)
    }

    /// The pins whose edge notifications wait in the queue, oldest first.
    pub closed spec fn pending(&self) -> Seq<i32> {
        self.irq_handler.pending()
    }

    pub closed spec fn wf(&self) -> bool {
        &&& forall|i: int| 0 <= i < self.inputs.len() ==> #[trigger] self.inputs@[i].wf()
        &&& unique_pins(self.registry())
        &&& self.irq_handler.wf()
    }

    pub fn new() -> (r: InputManager)
        ensures
            r.wf(),
            r.registry() == Seq::<InputState>::empty(),
            r.pending() == Seq::<i32>::empty(),
    {
        let r = InputManager { inputs: Vec::new(), irq_handler: InterruptHandler::new() };
        assert(r.registry() =~= Seq::<InputState>::empty());
        r
    }

    /// The index of the input on `pin`, if one is registered.
    fn find(&self, pin: i32) -> (r: Option<usize>)
        requires
            self.wf(),
        ensures
            match r {
                Some(i) => i < self.registry().len() && self.registry()[i as int].pin == pin,
                None => !has_pin(self.registry(), pin),
            },
    {
        let mut i: usize = 0;
        while i < self.inputs.len()
            invariant
                i <= self.inputs.len(),
                forall|j: int| 0 <= j < i ==> #[trigger] self.registry()[j].pin != pin,
            decreases self.inputs.len() - i,
        {
            if self.inputs[i].pin == pin {
                return Some(i);
            }
            i = i + 1;
        }
        None
    }

    /// Registers an input on `pin`, seeded with `level`, replacing any input
    /// already registered on that pin. With `with_interrupts`, edge
    /// notifications are enabled and the notifier for the pin comes back.
    fn register_input(&mut self, pin: i32, mode: InputMode, level: Level, with_interrupts: bool) -> (r:
        Option<Notifier>)
        requires
            old(self).wf(),
        ensures
            final(self).wf(),
            final(self).registry() == registered(
                old(self).registry(),
                InputState::fresh(pin, mode, level, with_interrupts),
            ),
            final(self).pending() == old(self).pending(),
            r.is_some() == with_interrupts,
            r matches Some(n) ==> n.pin() == pin,
    {
        let ghost reg = self.registry();
        let ghost fresh = InputState::fresh(pin, mode, level, with_interrupts);
        let mut input = Input::new(pin, mode, level);
        let mut notifier: Option<Notifier> = None;
        if with_interrupts {
            let (armed_input, n) = input.with_interrupts(&self.irq_handler);
            input = armed_input;
            notifier = Some(n);
        }
        match self.find(pin) {
            Some(i) => {
                self.inputs.set(i, input);
                proof {
                    let c = choose|k: int| 0 <= k < reg.len() && #[trigger] reg[k].pin == pin;
                    assert(c == i as int);
                    assert(self.registry() =~= reg.update(i as int, fresh));
                }
            },
            None => {
                self.inputs.push(input);
                assert(self.registry() =~= reg.push(fresh));
            },
        }
        notifier
    }

    /// Registers a switch on `pin`; see `register_input`.
    pub fn new_switch(&mut self, pin: i32, level: Level, with_interrupts: bool) -> (r: Option<Notifier>)
        requires
            old(self).wf(),
        ensures
            final(self).wf(),
            final(self).registry() == registered(
                old(self).registry(),
                InputState::fresh(pin, InputMode::Switch, level, with_interrupts),
            ),
            final(self).pending() == old(self).pending(),
            r.is_some() == with_interrupts,
            r matches Some(n) ==> n.pin() == pin,
    {
        self.register_input(pin, InputMode::Switch, level, with_interrupts)
    }

    /// Registers a button on `pin`; see `register_input`.
    pub fn new_button(&mut self, pin: i32, level: Level, with_interrupts: bool) -> (r: Option<Notifier>)
        requires
            old(self).wf(),
        ensures
            final(self).wf(),
            final(self).registry() == registered(
                old(self).registry(),
                InputState::fresh(pin, InputMode::Button, level, with_interrupts),
            ),
            final(self).pending() == old(self).pending(),
            r.is_some() == with_interrupts,
            r matches Some(n) ==> n.pin() == pin,
    {
        self.register_input(pin, InputMode::Button, level, with_interrupts)
    }

    /// Signals an edge on the notifier's pin without blocking; `false` when
    /// the queue was full and the notification was dropped.
    pub fn notify(&mut self, notifier: &Notifier) -> (r: bool)
        requires
            old(self).wf(),
        ensures
            final(self).wf(),
            final(self).registry() == old(self).registry(),
            final(self).pending() == enqueued(old(self).pending(), notifier.pin()),
            r == (old(self).pending().len() < IRQ_CAPACITY),
    {
        notifier.notify(&mut self.irq_handler)
    }

    /// Drains the notification queue completely, applying each notification
    /// to the input on its pin; a pin with no input is skipped. The pins
    /// whose edge interrupt must be re-armed are appended to `rearm`.
    fn drain_interrupts(&mut self, rearm: &mut Vec<i32>)
        requires
            old(self).wf(),
        ensures
            final(self).wf(),
            final(self).pending() == Seq::<i32>::empty(),
            final(self).registry() == notify_all(old(self).registry(), old(self).pending()),
            final(rearm)@ == old(rearm)@ + armed_hits(old(self).registry(), old(self).pending()),
    {
        let ghost q0 = self.pending();
        let ghost reg0 = self.registry();
        let ghost rearm0 = rearm@;
        let ghost mut k: int = 0;
        assert(q0.take(0) =~= Seq::<i32>::empty());
        assert(rearm0 + Seq::<i32>::empty() =~= rearm0);
        loop
            invariant
                self.wf(),
                0 <= k <= q0.len(),
                self.pending() == q0.skip(k),
                self.registry() == notify_all(reg0, q0.take(k)),
                self.registry().len() == reg0.len(),
                forall|j: int|
                    0 <= j < reg0.len() ==> #[trigger] self.registry()[j].pin == reg0[j].pin
                        && self.registry()[j].interrupts == reg0[j].interrupts,
                unique_pins(reg0),
                rearm@ == rearm0 + armed_hits(reg0, q0.take(k)),
            ensures
                self.wf(),
                self.pending() == Seq::<i32>::empty(),
                self.registry() == notify_all(reg0, q0),
                rearm@ == rearm0 + armed_hits(reg0, q0),
            decreases self.pending().len(),
        {
            match self.irq_handler.dequeue() {
                None => {
                    assert(q0.take(k) =~= q0);
                    break ;
                },
                Some(p) => {
                    let ghost prev = self.registry();
                    let ghost hits = armed_hits(reg0, q0.take(k));
                    assert(q0.take(k + 1).drop_last() =~= q0.take(k));
                    assert(q0.skip(k).drop_first() =~= q0.skip(k + 1));
                    assert(q0.take(k + 1).last() == p);
                    proof {
                        k = k + 1;
                    }
                    match self.find(p) {
                        Some(i) => {
                            let mut input = self.inputs[i];
                            let re = input.handle_interrupt();
                            self.inputs.set(i, input);
                            assert(self.registry() =~= notify_pin(prev, p));
                            if re {
                                rearm.push(p);
                                assert(armed(reg0, p));
                                assert(rearm@ =~= rearm0 + hits.push(p));
                            } else {
                                assert forall|j: int|
                                    0 <= j < reg0.len() && #[trigger] reg0[j].pin == p implies !reg0[j].interrupts by {
                                    if j != i as int {
                                        assert(reg0[i as int].pin != reg0[j].pin);
                                    }
                                }
                                assert(!armed(reg0, p));
                            }
                        },
                        None => {
                            assert(self.registry() =~= notify_pin(prev, p));
                            assert forall|j: int| 0 <= j < reg0.len() implies #[trigger] reg0[j].pin != p by {
                                assert(prev[j].pin != p);
                            }
                            assert(!armed(reg0, p));
                        },
                    }
                },
            }
        }
    }

    /// Advances every input by one tick, input `i` reading `samples[i]`, and
    /// collects the events produced, in registry order.
    fn tick_inputs(&mut self, samples: &Vec<Level>) -> (r: Vec<Event>)
        requires
            old(self).wf(),
            samples@.len() == old(self).registry().len(),
        ensures
            final(self).wf(),
            final(self).pending() == old(self).pending(),
            final(self).registry() == tick_all(old(self).registry(), samples@),
            r@ == pass_events(old(self).registry(), samples@, old(self).registry().len() as int),
    {
        let ghost reg0 = self.registry();
        let mut out: Vec<Event> = Vec::new();
        let mut i: usize = 0;
        while i < self.inputs.len()
            invariant
                self.wf(),
                samples@.len() == reg0.len(),
                self.inputs.len() == reg0.len(),
                self.pending() == old(self).pending(),
                i <= reg0.len(),
                forall|j: int| 0 <= j < i ==> #[trigger] self.registry()[j] == reg0[j].ticked(samples@[j]),
                forall|j: int| i <= j < reg0.len() ==> #[trigger] self.registry()[j] == reg0[j],
                out@ == pass_events(reg0, samples@, i as int),
            decreases reg0.len() - i,
        {
            let ghost prev = self.registry();
            let ghost prev_inputs = self.inputs@;
            let mut input = self.inputs[i];
            assert(input == prev_inputs[i as int]);
            assert(prev[i as int] == reg0[i as int]);
            let sample = samples[i];
            let e = input.tick(sample);
            self.inputs.set(i, input);
            assert(self.inputs@ == prev_inputs.update(i as int, input));
            assert(self.registry() =~= prev.update(i as int, reg0[i as int].ticked(samples@[i as int])));
            assert forall|j: int| 0 <= j < self.inputs.len() implies #[trigger] self.inputs@[j].wf() by {
                if j != i as int {
                    assert(self.inputs@[j] == prev_inputs[j]);
                }
            }
            assert forall|a: int, b: int|
                0 <= a < prev.len() && 0 <= b < prev.len() && a != b implies #[trigger] self.registry()[a].pin
                != #[trigger] self.registry()[b].pin by {
                assert(self.registry()[a].pin == prev[a].pin);
                assert(self.registry()[b].pin == prev[b].pin);
            }
            match e {
                Some(ev) => {
                    out.push(ev);
                },
                None => {},
            }
            i = i + 1;
        }
        assert(self.registry() =~= tick_all(reg0, samples@));
        out
    }

    /// One evaluation pass: applies every queued edge notification, then
    /// advances every input by one tick, input `i` reading `samples[i]`, and
    /// returns the events produced, in registry order. The pins whose edge
    /// interrupt must be re-armed are appended to `rearm`.
    pub fn events(&mut self, samples: &Vec<Level>, rearm: &mut Vec<i32>) -> (r: Vec<Event>)
        requires
            old(self).wf(),
            samples@.len() == old(self).registry().len(),
        ensures
            final(self).wf(),
            final(self).pending() == Seq::<i32>::empty(),
            final(self).registry() == tick_all(
                notify_all(old(self).registry(), old(self).pending()),
                samples@,
            ),
            r@ == pass_events(
                notify_all(old(self).registry(), old(self).pending()),
                samples@,
                old(self).registry().len() as int,
            ),
            final(rearm)@ == old(rearm)@ + armed_hits(old(self).registry(), old(self).pending()),
    {
        proof {
            lemma_notify_all_frame(self.registry(), self.pending());
        }
        self.drain_interrupts(rearm);
        self.tick_inputs(samples)
    }

    /// The evaluation pass of `events`, with each event wrapped for the
    /// application's event loop.
    pub fn eval(&mut self, samples: &Vec<Level>, rearm: &mut Vec<i32>) -> (r: Vec<bus::Event>)
        requires
            old(self).wf(),
            samples@.len() == old(self).registry().len(),
        ensures
            final(self).wf(),
            final(self).pending() == Seq::<i32>::empty(),
            final(self).registry() == tick_all(
                notify_all(old(self).registry(), old(self).pending()),
                samples@,
            ),
            r@ == pass_events(
                notify_all(old(self).registry(), old(self).pending()),
                samples@,
                old(self).registry().len() as int,
            ).map_values(|e: Event| bus::Event::Input(e)),
            final(rearm)@ == old(rearm)@ + armed_hits(old(self).registry(), old(self).pending()),
    {
        let evs = self.events(samples, rearm);
        let mut out: Vec<bus::Event> = Vec::new();
        let mut i: usize = 0;
        while i < evs.len()
            invariant
                i <= evs.len(),
                out@ == evs@.take(i as int).map_values(|e: Event| bus::Event::Input(e)),
            decreases evs.len() - i,
        {
            out.push(bus::Event::from(evs[i]));
            assert(evs@.take(i + 1).drop_last() =~= evs@.take(i as int));
            i = i + 1;
            assert(out@ =~= evs@.take(i as int).map_values(|e: Event| bus::Event::Input(e)));
        }
        assert(evs@.take(evs.len() as int) =~= evs@);
        out
    }
}

} // verus!
