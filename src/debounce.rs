use vstd::prelude::*;

use crate::events::{tag, Event, InputEvent};

verus! {

/// Number of raw samples in the debounce window.
pub const SAMPLES: usize = 5;

/// A binary input level.
#[derive(Debug, Clone, Copy, PartialEq, Eq, Structural)]
pub enum Level {
    Low,
    High,
}

/// How the transitions of an input are named.
#[derive(Debug, Clone, Copy, PartialEq, Eq, Structural)]
pub enum InputMode {
    Switch,
    Button,
}

pub open spec fn is_high(level: Level) -> bool {
    level == Level::High
}

/// The event kind that an input of mode `mode` reports on settling at `level`.
pub open spec fn classify(mode: InputMode, level: Level) -> InputEvent {
    match mode {
        InputMode::Switch => match level {
            Level::High => InputEvent::On,
            Level::Low => InputEvent::Off,
        },
        InputMode::Button => match level {
            Level::High => InputEvent::Pressed,
            Level::Low => InputEvent::Released,
        },
    }
}

/// How many samples of `w` read High.
pub open spec fn high_count(w: Seq<bool>) -> nat
    decreases w.len(),
{
    if w.len() == 0 {
        0
    } else {
        high_count(w.drop_last()) + if w.last() {
            1nat
        } else {
            0nat
        }
    }
}

/// The level a unanimous window has settled at, or `None` while it is mixed.
pub open spec fn settled_level(w: Seq<bool>) -> Option<Level> {
    if high_count(w) == w.len() {
        Some(Level::High)
    } else if high_count(w) == 0 {
        Some(Level::Low)
    } else {
        None
    }
}

/// The window of `SAMPLES` samples, all at `level`.
pub open spec fn steady_window(level: Level) -> Seq<bool> {
    Seq::new(SAMPLES as nat, |i: int| is_high(level))
}

/// The abstract state of one debounced input.
pub struct InputState {
    pub pin: i32,
    pub mode: InputMode,
    /// The last level the window settled at.
    pub confirmed: Level,
    /// An edge was notified and has not been resolved yet.
    pub dirty: bool,
    /// Edge notifications were enabled for this input.
    pub interrupts: bool,
    /// The most recent raw samples, oldest first.
    pub window: Seq<bool>,
}

impl InputState {
    /// The window has its fixed size, and an input with no pending edge sits
    /// on a window unanimous at its confirmed level.
    pub open spec fn wf(self) -> bool {
        &&& self.window.len() == SAMPLES
        &&& !self.dirty ==> settled_level(self.window) == Some(self.confirmed)
    }

    /// The state of a freshly registered input, seeded with `level`.
    pub open spec fn fresh(pin: i32, mode: InputMode, level: Level, interrupts: bool) -> InputState {
        InputState {
            pin,
            mode,
            confirmed: level,
            dirty: false,
            interrupts,
            window: steady_window(level),
        }
    }

    /// The state after an edge notification: marked pending when notifications
    /// were enabled, unchanged otherwise.
    pub open spec fn notified(self) -> InputState {
        if self.interrupts {
            InputState { dirty: true, ..self }
        } else {
            self
        }
    }

    /// The window after `sample` displaces its oldest entry.
    pub open spec fn pushed(self, sample: Level) -> Seq<bool> {
        self.window.drop_first().push(is_high(sample))
    }

    /// The state after one poll tick that read `sample`.
    pub open spec fn ticked(self, sample: Level) -> InputState {
        if !self.dirty {
            self
        } else {
            match settled_level(self.pushed(sample)) {
                Some(level) => InputState {
                    confirmed: level,
                    dirty: false,
                    window: self.pushed(sample),
                    ..self
                },
                None => InputState { window: self.pushed(sample), ..self },
            }
        }
    }

    /// The event that one poll tick reading `sample` produces.
    pub open spec fn tick_event(self, sample: Level) -> Option<Event> {
        if !self.dirty {
            None
        } else {
            match settled_level(self.pushed(sample)) {
                Some(level) => if level != self.confirmed {
                    Some(tag(self.pin, classify(self.mode, level)))
                } else {
                    None
                },
                None => None,
            }
        }
    }
}

/// The count of High samples is at most the length, is zero exactly when no
/// sample is High, and is the length exactly when every sample is High.
pub proof fn lemma_high_count(w: Seq<bool>)
    ensures
        high_count(w) <= w.len(),
        high_count(w) == 0 <==> forall|i: int| 0 <= i < w.len() ==> !w[i],
        high_count(w) == w.len() <==> forall|i: int| 0 <= i < w.len() ==> w[i],
    decreases w.len(),
{
    if w.len() > 0 {
        let p = w.drop_last();
        lemma_high_count(p);
        assert forall|i: int| 0 <= i < p.len() implies p[i] == w[i] by {}
        if high_count(w) == 0 {
            assert forall|i: int| 0 <= i < w.len() implies !w[i] by {
                if i < p.len() {
                    assert(p[i] == w[i]);
                }
            }
        }
        if high_count(w) == w.len() {
            assert forall|i: int| 0 <= i < w.len() implies w[i] by {
                if i < p.len() {
                    assert(p[i] == w[i]);
                }
            }
        }
        if forall|i: int| 0 <= i < w.len() ==> !w[i] {
            assert(forall|i: int| 0 <= i < p.len() ==> !p[i]);
        }
        if forall|i: int| 0 <= i < w.len() ==> w[i] {
            assert(forall|i: int| 0 <= i < p.len() ==> p[i]);
        }
    }
}

/// A window of positive length settles at `level` exactly when every sample
/// reads `level`.
pub proof fn lemma_settled_level(w: Seq<bool>, level: Level)
    requires
        w.len() > 0,
    ensures
        settled_level(w) == Some(level) <==> forall|i: int| 0 <= i < w.len() ==> w[i] == is_high(level),
{
    lemma_high_count(w);
    if forall|i: int| 0 <= i < w.len() ==> w[i] == is_high(level) {
        assert(w[0] == is_high(level));
    }
    if settled_level(w) == Some(level) && level == Level::Low {
        assert(high_count(w) != w.len());
    }
}

/// The state after `samples` are read on successive poll ticks, each tick
/// preceded by an edge notification.
pub open spec fn feed(s: InputState, samples: Seq<Level>) -> InputState
    decreases samples.len(),
{
    if samples.len() == 0 {
        s
    } else {
        feed(s, samples.drop_last()).notified().ticked(samples.last())
    }
}

/// What each of the ticks of `feed(s, samples)` produced, in order.
pub open spec fn feed_events(s: InputState, samples: Seq<Level>) -> Seq<Option<Event>>
    decreases samples.len(),
{
    if samples.len() == 0 {
        Seq::empty()
    } else {
        feed_events(s, samples.drop_last()).push(
            feed(s, samples.drop_last()).notified().tick_event(samples.last()),
        )
    }
}

/// `samples` holds `SAMPLES` consecutive equal entries somewhere.
pub open spec fn has_run(samples: Seq<Level>) -> bool {
    exists|i: int| #[trigger] run_at(samples, i)
}

/// The `SAMPLES` entries of `samples` from index `i` on are all equal.
pub open spec fn run_at(samples: Seq<Level>, i: int) -> bool {
    &&& 0 <= i
    &&& i + SAMPLES <= samples.len()
    &&& forall|j: int| i <= j < i + SAMPLES ==> #[trigger] samples[j] == samples[i]
}

/// `k` copies of `level`.
pub open spec fn repeated(level: Level, k: nat) -> Seq<Level> {
    Seq::new(k, |i: int| level)
}

/// The window after `k` samples at `to` followed a window steady at `from`.
pub open spec fn partly_moved(from: Level, to: Level, k: int) -> Seq<bool> {
    Seq::new(SAMPLES as nat, |i: int| if i < SAMPLES - k { is_high(from) } else { is_high(to) })
}

/// The window after the samples `xs` followed a window steady at `from`.
pub open spec fn history(from: Level, xs: Seq<Level>) -> Seq<bool> {
    Seq::new(
        SAMPLES as nat,
        |i: int| if xs.len() + i < SAMPLES { is_high(from) } else { is_high(xs[xs.len() + i - SAMPLES]) },
    )
}

proof fn lemma_feed_frame(s: InputState, samples: Seq<Level>)
    ensures
        feed_events(s, samples).len() == samples.len(),
        feed(s, samples).pin == s.pin,
        feed(s, samples).mode == s.mode,
        feed(s, samples).interrupts == s.interrupts,
        !s.interrupts && !s.dirty ==> feed(s, samples) == s,
        !s.interrupts && !s.dirty ==> forall|i: int|
            0 <= i < samples.len() ==> #[trigger] feed_events(s, samples)[i] == None::<Event>,
    decreases samples.len(),
{
    if samples.len() > 0 {
        lemma_feed_frame(s, samples.drop_last());
    }
}

/// A window that mixes both levels has not settled.
proof fn lemma_mixed_unsettled(w: Seq<bool>, i: int, j: int)
    requires
        0 <= i < w.len(),
        0 <= j < w.len(),
        w[i] != w[j],
    ensures
        settled_level(w) == None::<Level>,
{
    lemma_settled_level(w, Level::High);
    lemma_settled_level(w, Level::Low);
}

proof fn lemma_run_prefix(s: InputState, v: Level, k: nat)
    requires
        s.wf(),
        !s.dirty,
        s.interrupts,
        v != s.confirmed,
        k <= SAMPLES,
    ensures
        feed(s, repeated(v, k)).window == partly_moved(s.confirmed, v, k as int),
        feed(s, repeated(v, k)).pin == s.pin,
        feed(s, repeated(v, k)).mode == s.mode,
        feed(s, repeated(v, k)).interrupts,
        k < SAMPLES ==> feed(s, repeated(v, k)).confirmed == s.confirmed,
        k == SAMPLES ==> feed(s, repeated(v, k)).confirmed == v,
        feed_events(s, repeated(v, k)).len() == k,
        forall|i: int|
            0 <= i < k ==> #[trigger] feed_events(s, repeated(v, k))[i] == if i == SAMPLES - 1 {
                Some(tag(s.pin, classify(s.mode, v)))
            } else {
                None
            },
    decreases k,
{
    let c = s.confirmed;
    if k == 0 {
        lemma_settled_level(s.window, c);
        assert(s.window =~= partly_moved(c, v, 0));
        assert(repeated(v, 0) =~= Seq::<Level>::empty());
    } else {
        let prev = repeated(v, (k - 1) as nat);
        assert(repeated(v, k).drop_last() =~= prev);
        lemma_run_prefix(s, v, (k - 1) as nat);
        let t = feed(s, prev).notified();
        let w = t.pushed(v);
        assert(w =~= partly_moved(c, v, k as int));
        if k < SAMPLES {
            lemma_mixed_unsettled(w, 0, SAMPLES - 1);
        } else {
            lemma_settled_level(w, v);
        }
        let evs = feed_events(s, repeated(v, k));
        assert forall|i: int| 0 <= i < k implies #[trigger] evs[i] == if i == SAMPLES - 1 {
            Some(tag(s.pin, classify(s.mode, v)))
        } else {
            None
        } by {
            if i < k - 1 {
                assert(evs[i] == feed_events(s, prev)[i]);
            }
        }
    }
}

/// A run of exactly `SAMPLES` samples at a level other than the confirmed
/// one, read while its edge is pending, produces one event: on the tick
/// that completes the run, and on no tick before it.
pub proof fn lemma_full_run_fires_once(s: InputState, v: Level)
    requires
        s.wf(),
        !s.dirty,
        s.interrupts,
        v != s.confirmed,
    ensures
        feed_events(s, repeated(v, SAMPLES as nat)).len() == SAMPLES,
        forall|i: int|
            0 <= i < SAMPLES - 1 ==> #[trigger] feed_events(s, repeated(v, SAMPLES as nat))[i]
                == None::<Event>,
        feed_events(s, repeated(v, SAMPLES as nat))[SAMPLES - 1] == Some(
            tag(s.pin, classify(s.mode, v)),
        ),
        feed(s, repeated(v, SAMPLES as nat)).confirmed == v,
{
    lemma_run_prefix(s, v, SAMPLES as nat);
}

/// Idempotence: once an input rests on a window unanimous at its confirmed
/// level, further samples at that level never produce an event, and it
/// keeps resting there.
pub proof fn lemma_steady_samples_are_silent(s: InputState, samples: Seq<Level>)
    requires
        s.wf(),
        settled_level(s.window) == Some(s.confirmed),
        forall|i: int| 0 <= i < samples.len() ==> #[trigger] samples[i] == s.confirmed,
    ensures
        feed(s, samples).confirmed == s.confirmed,
        feed(s, samples).window == s.window,
        feed_events(s, samples).len() == samples.len(),
        forall|i: int|
            0 <= i < samples.len() ==> #[trigger] feed_events(s, samples)[i] == None::<Event>,
    decreases samples.len(),
{
    lemma_settled_level(s.window, s.confirmed);
    if samples.len() > 0 {
        let prev = samples.drop_last();
        lemma_steady_samples_are_silent(s, prev);
        let t = feed(s, prev).notified();
        assert(t.pushed(samples.last()) =~= s.window);
        let evs = feed_events(s, samples);
        assert forall|i: int| 0 <= i < samples.len() implies #[trigger] evs[i] == None::<Event> by {
            if i < samples.len() - 1 {
                assert(evs[i] == feed_events(s, prev)[i]);
            }
        }
    }
}

proof fn lemma_noise_prefix(s: InputState, samples: Seq<Level>)
    requires
        s.wf(),
        !s.dirty,
        s.interrupts,
        !has_run(samples),
    ensures
        feed(s, samples).confirmed == s.confirmed,
        feed(s, samples).window == history(s.confirmed, samples),
        feed(s, samples).interrupts,
        feed_events(s, samples).len() == samples.len(),
        forall|i: int|
            0 <= i < samples.len() ==> #[trigger] feed_events(s, samples)[i] == None::<Event>,
    decreases samples.len(),
{
    let c = s.confirmed;
    let n = samples.len() as int;
    if n == 0 {
        lemma_settled_level(s.window, c);
        assert(s.window =~= history(c, samples));
    } else {
        let prev = samples.drop_last();
        if has_run(prev) {
            let i = choose|i: int| #[trigger] run_at(prev, i);
            assert forall|j: int| i <= j < i + SAMPLES implies #[trigger] samples[j] == samples[i] by {
                assert(prev[j] == prev[i]);
            }
            assert(run_at(samples, i));
            assert(false);
        }
        lemma_noise_prefix(s, prev);
        let t = feed(s, prev).notified();
        let w = t.pushed(samples.last());
        assert(w =~= history(c, samples));
        match settled_level(w) {
            Some(l) => {
                if l != c {
                    lemma_settled_level(w, l);
                    if n < SAMPLES {
                        assert(w[0] == is_high(c));
                    } else {
                        let i = n - SAMPLES;
                        assert forall|j: int| i <= j < i + SAMPLES implies #[trigger] samples[j] == samples[i] by {
                            assert(w[j - i] == is_high(samples[j]));
                            assert(w[0] == is_high(samples[i]));
                        }
                        assert(run_at(samples, i));
                    }
                }
            },
            None => {},
        }
        let evs = feed_events(s, samples);
        assert forall|i: int| 0 <= i < n implies #[trigger] evs[i] == None::<Event> by {
            if i < n - 1 {
                assert(evs[i] == feed_events(s, prev)[i]);
            }
        }
    }
}

/// Noise resistance: an input at rest that reads a sequence of any length
/// with no `SAMPLES` consecutive equal samples never produces an event,
/// however often its edge is notified, and keeps its confirmed level.
pub proof fn lemma_noise_never_fires(s: InputState, samples: Seq<Level>)
    requires
        s.wf(),
        !s.dirty,
        !has_run(samples),
    ensures
        feed(s, samples).confirmed == s.confirmed,
        feed_events(s, samples).len() == samples.len(),
        forall|i: int|
            0 <= i < samples.len() ==> #[trigger] feed_events(s, samples)[i] == None::<Event>,
{
    lemma_feed_frame(s, samples);
    if s.interrupts {
        lemma_noise_prefix(s, samples);
    }
}

/// Classification: a tick produces an event exactly when it moves the
/// confirmed level, High to Low or Low to High; a switch reports these as
/// Off and On, a button as Released and Pressed.
pub proof fn lemma_classification(s: InputState, sample: Level)
    ensures
        s.tick_event(sample) == None::<Event> ==> s.ticked(sample).confirmed == s.confirmed,
        s.tick_event(sample) != None::<Event> ==> s.ticked(sample).confirmed != s.confirmed,
        s.confirmed == Level::High && s.ticked(sample).confirmed == Level::Low ==> s.tick_event(sample)
            == Some(
            tag(
                s.pin,
                match s.mode {
                    InputMode::Switch => InputEvent::Off,
                    InputMode::Button => InputEvent::Released,
                },
            ),
        ),
        s.confirmed == Level::Low && s.ticked(sample).confirmed == Level::High ==> s.tick_event(sample)
            == Some(
            tag(
                s.pin,
                match s.mode {
                    InputMode::Switch => InputEvent::On,
                    InputMode::Button => InputEvent::Pressed,
                },
            ),
        ),
{
}

} // verus!
