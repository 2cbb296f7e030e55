//! LED and button abstractions, and the debouncer of the touch button.
use vstd::prelude::*;
use crate::firmware::state_machine::Event;

verus! {

/// An LED the firmware can switch.
pub trait Led {
    /// The LED is lit.
    spec fn lit(&self) -> bool;

    /// Switch the LED on.
    fn on(&mut self)
        ensures
            final(self).lit(),
    ;

    /// Switch the LED off.
    fn off(&mut self)
        ensures
            !final(self).lit(),
    ;
}

/// A push button the firmware can sample.
pub trait Button {
    /// The raw, undebounced level: `true` while pressed.
    fn is_pressed_raw(&self) -> bool;
}

/// Consecutive identical samples needed to accept a new level.
pub const DEBOUNCE_STABLE_SAMPLES: u8 = 5;

/// A debouncer: the accepted (stable) level, the level it is watching
/// (candidate) and how many consecutive samples showed it.
#[derive(Debug, Clone, Copy, PartialEq, Eq, Structural)]
pub struct Debouncer {
    stable: bool,
    candidate: bool,
    count: u8,
}

impl View for Debouncer {
    type V = (bool, bool, u8);

    closed spec fn view(&self) -> (bool, bool, u8) {
        (self.stable, self.candidate, self.count)
    }
}

/// The debouncer's state after one sample, and what the sample reports:
/// the new stable level when it changes.
pub open spec fn spec_sample(s: (bool, bool, u8), level: bool) -> ((bool, bool, u8), Option<bool>) {
    let (stable, candidate, count) = s;
    if level == stable {
        ((stable, stable, 0u8), None)
    } else if level == candidate {
        let c = if count == 255 { 255u8 } else { (count + 1) as u8 };
        if c >= DEBOUNCE_STABLE_SAMPLES {
            ((candidate, candidate, 0u8), Some(candidate))
        } else {
            ((stable, candidate, c), None)
        }
    } else {
        ((stable, level, 1u8), None)
    }
}

impl Debouncer {
    /// A debouncer whose stable level is `initial`.
    pub fn new(initial: bool) -> (r: Self)
        ensures
            r@ == (initial, initial, 0u8),
    {
        Debouncer { stable: initial, candidate: initial, count: 0 }
    }

    /// Feed one raw sample. Returns the new stable level when the sample
    /// completes a run of [`DEBOUNCE_STABLE_SAMPLES`] identical samples
    /// that differ from the stable level.
    pub fn sample(&mut self, level: bool) -> (r: Option<bool>)
        ensures
            (final(self)@, r) == spec_sample(old(self)@, level),
    {
        if level == self.stable {
            self.candidate = self.stable;
            self.count = 0;
            return None;
        }
        if level == self.candidate {
            self.count = self.count.saturating_add(1);
            if self.count >= DEBOUNCE_STABLE_SAMPLES {
                self.stable = self.candidate;
                self.count = 0;
                return Some(self.stable);
            }
            None
        } else {
            self.candidate = level;
            self.count = 1;
            None
        }
    }

    /// The accepted level.
    pub fn stable(&self) -> (r: bool)
        ensures
            r == self@.0,
    {
        self.stable
    }
}

/// The debouncer's counter stays below the threshold between samples.
pub proof fn lemma_count_below_threshold(s: (bool, bool, u8), level: bool)
    requires
        s.2 < DEBOUNCE_STABLE_SAMPLES,
    ensures
        spec_sample(s, level).0.2 < DEBOUNCE_STABLE_SAMPLES,
{
}

/// The stable level changes only to the sampled level, and only when the
/// sample completes a run of identical samples of that level, which the
/// counter shows was already [`DEBOUNCE_STABLE_SAMPLES`] minus one long.
pub proof fn lemma_change_needs_full_run(s: (bool, bool, u8), level: bool)
    requires
        s.2 < DEBOUNCE_STABLE_SAMPLES,
    ensures
        spec_sample(s, level).0.0 != s.0 ==> (level != s.0 && level == s.1 && s.2 == DEBOUNCE_STABLE_SAMPLES - 1
            && spec_sample(s, level).1 == Some(level)),
        spec_sample(s, level).1 is Some <==> spec_sample(s, level).0.0 != s.0,
{
}

/// The debouncer's state after `n` samples, all of level `level`.
pub open spec fn spec_sample_n(s: (bool, bool, u8), level: bool, n: nat) -> (bool, bool, u8)
    decreases n,
{
    if n == 0 {
        s
    } else {
        spec_sample_n(spec_sample(s, level).0, level, (n - 1) as nat)
    }
}

/// [`DEBOUNCE_STABLE_SAMPLES`] identical samples make their level the
/// stable one, whatever state the debouncer was in between samples.
pub proof fn lemma_full_run_settles(s: (bool, bool, u8), level: bool)
    requires
        s.2 < DEBOUNCE_STABLE_SAMPLES,
    ensures
        spec_sample_n(s, level, DEBOUNCE_STABLE_SAMPLES as nat).0 == level,
{
    reveal_with_fuel(spec_sample_n, 6);
}

/// From rest (no run under way), fewer than [`DEBOUNCE_STABLE_SAMPLES`]
/// identical samples leave the stable level as it was.
pub proof fn lemma_short_run_keeps(s: (bool, bool, u8), level: bool, n: nat)
    requires
        s.2 == 0,
        n < DEBOUNCE_STABLE_SAMPLES,
    ensures
        spec_sample_n(s, level, n).0 == s.0,
{
    reveal_with_fuel(spec_sample_n, 5);
}

/// The debouncer's state after the samples `h`, fed in order from `s`.
pub open spec fn spec_sample_all(s: (bool, bool, u8), h: Seq<bool>) -> (bool, bool, u8)
    decreases h.len(),
{
    if h.len() == 0 {
        s
    } else {
        spec_sample(spec_sample_all(s, h.drop_last()), h.last()).0
    }
}

/// How many of the last samples of `h`, in a row, are `v`.
pub open spec fn spec_trailing_run(h: Seq<bool>, v: bool) -> nat
    decreases h.len(),
{
    if h.len() == 0 {
        0
    } else if h.last() == v {
        spec_trailing_run(h.drop_last(), v) + 1
    } else {
        0
    }
}

/// A debouncer made with stable level `x` and fed the samples `h` counts
/// the samples in a row that differ from its stable level, is below the
/// threshold, and watches the other level while it counts.
pub proof fn lemma_sample_all_invariant(x: bool, h: Seq<bool>)
    ensures
        spec_sample_all((x, x, 0u8), h).2 == spec_trailing_run(h, !spec_sample_all((x, x, 0u8), h).0),
        spec_sample_all((x, x, 0u8), h).2 < DEBOUNCE_STABLE_SAMPLES,
        spec_sample_all((x, x, 0u8), h).2 > 0 ==> spec_sample_all((x, x, 0u8), h).1 == !spec_sample_all((x, x, 0u8), h).0,
    decreases h.len(),
{
    if h.len() > 0 {
        lemma_sample_all_invariant(x, h.drop_last());
    }
}

/// For a debouncer made with stable level `x` and fed the samples `h`,
/// whose stable level is now `s`: the next sample `level` reports a change
/// exactly when it is `!s` and the [`DEBOUNCE_STABLE_SAMPLES`]th sample in
/// a row equal to `!s` (counted since the last sample equal to `s`, or
/// since the start); the change reported is to `!s` and the stable level
/// becomes `!s`; otherwise nothing is reported and the stable level stays
/// `s`.
pub proof fn lemma_change_after_full_run(x: bool, h: Seq<bool>, level: bool)
    ensures
        ({
            let st = spec_sample_all((x, x, 0u8), h);
            let s = st.0;
            let (next, out) = spec_sample(st, level);
            &&& (out == Some(!s)) <==> (level == !s && spec_trailing_run(h.push(level), !s) == DEBOUNCE_STABLE_SAMPLES)
            &&& out is Some ==> out == Some(!s) && next.0 == !s
            &&& out is None ==> next.0 == s
        }),
{
    lemma_sample_all_invariant(x, h);
    let hp = h.push(level);
    assert(hp.drop_last() =~= h);
    assert(hp.last() == level);
}

/// Sample the button once; a debounced press becomes the touch event.
pub fn sample_once<B: Button>(button: &B, debouncer: &mut Debouncer) -> (r: Option<Event>)
    ensures
        exists|level: bool| {
            &&& #[trigger] spec_sample(old(debouncer)@, level).0 == final(debouncer)@
            &&& r == (if spec_sample(old(debouncer)@, level).1 == Some(true) { Some(Event::TouchPressed) } else { None::<Event> })
        },
{
    let pressed = button.is_pressed_raw();
    let res = debouncer.sample(pressed);
    proof {
        assert(spec_sample(old(debouncer)@, pressed).0 == debouncer@);
    }
    match res {
        Some(true) => Some(Event::TouchPressed),
        _ => None,
    }
}

} // verus!
