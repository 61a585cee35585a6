//! Digital-line capability interface of the bus engine.
//!
//! The two-wire bus engine drives a clock line and a data line. Everything it
//! does to the outside world goes through the [`BusPins`] trait: driving a
//! line high or low, releasing the data line to its input direction, sampling
//! the data line, and holding still for one inter-edge delay. A pin
//! implementation is modelled by two sequences: the history of everything
//! driven so far (`line_log`) and the levels the peripheral will present at
//! the sampling points still to come (`feed`).
//!
//! [`SimPins`] is the simulated implementation: it records the history in a
//! vector and answers samples from a scripted response list, so the engine and
//! everything above it runs with no hardware dependency.

use vstd::prelude::*;

verus! {

/// One observable action on the two bus lines.
#[derive(Clone, Copy, Debug, PartialEq, Eq, Structural)]
pub enum LineEvent {
    /// The clock line was driven to this level.
    Scl(bool),
    /// The data line was driven to this level.
    Sda(bool),
    /// The data line was released to its input direction.
    Release,
    /// The data line was sampled and showed this level.
    Sample(bool),
    /// One inter-edge delay elapsed.
    Wait,
}

/// Two independently controllable digital lines, as the bus engine sees them.
///
/// `line_log` abstracts the full history of actions; `feed` abstracts the
/// levels that the next samples of the data line will observe, in order.
/// Every method appends exactly one event to the history, and only
/// [`BusPins::sample_sda`] consumes from the feed.
pub trait BusPins: Sized {
    /// History of every action taken on the lines so far.
    spec fn line_log(&self) -> Seq<LineEvent>;

    /// Levels that the coming samples of the data line will observe.
    spec fn feed(&self) -> Seq<bool>;

    /// Drive the clock line high or low.
    fn set_scl(&mut self, high: bool)
        ensures
            final(self).line_log() == old(self).line_log().push(LineEvent::Scl(high)),
            final(self).feed() == old(self).feed(),
    ;

    /// Drive the data line high or low, reconfiguring it to output if needed.
    fn set_sda(&mut self, high: bool)
        ensures
            final(self).line_log() == old(self).line_log().push(LineEvent::Sda(high)),
            final(self).feed() == old(self).feed(),
    ;

    /// Release the data line: reconfigure it to its input direction so the
    /// peripheral can drive it.
    fn release_sda(&mut self)
        ensures
            final(self).line_log() == old(self).line_log().push(LineEvent::Release),
            final(self).feed() == old(self).feed(),
    ;

    /// Sample the level of the data line.
    fn sample_sda(&mut self) -> (high: bool)
        requires
            old(self).feed().len() > 0,
        ensures
            high == old(self).feed()[0],
            final(self).line_log() == old(self).line_log().push(LineEvent::Sample(high)),
            final(self).feed() == old(self).feed().drop_first(),
    ;

    /// Hold both lines for one inter-edge delay.
    fn wait(&mut self)
        ensures
            final(self).line_log() == old(self).line_log().push(LineEvent::Wait),
            final(self).feed() == old(self).feed(),
    ;

    /// How many samples the peripheral is still set to answer.
    fn feed_len(&self) -> (count: usize)
        ensures
            count == self.feed().len(),
    ;
}

/// Simulated pin pair: records the action history and answers samples from a
/// scripted list of levels.
pub struct SimPins {
    events: Vec<LineEvent>,
    responses: Vec<bool>,
    consumed: usize,
}

impl SimPins {
    /// Build a simulated pin pair whose coming samples will observe the given
    /// levels, in order.
    pub fn new(responses: Vec<bool>) -> (pins: SimPins)
        ensures
            pins.line_log() == Seq::<LineEvent>::empty(),
            pins.feed() == responses@,
    {
        SimPins { events: Vec::new(), responses, consumed: 0 }
    }

    /// The recorded action history, for inspection after a run.
    pub fn recorded(&self) -> (events: &Vec<LineEvent>)
        ensures
            events@ == self.line_log(),
    {
        &self.events
    }

}

impl BusPins for SimPins {
    closed spec fn line_log(&self) -> Seq<LineEvent> {
        self.events@
    }

    closed spec fn feed(&self) -> Seq<bool> {
        if self.consumed <= self.responses@.len() {
            self.responses@.skip(self.consumed as int)
        } else {
            Seq::empty()
        }
    }

    fn set_scl(&mut self, high: bool) {
        self.events.push(LineEvent::Scl(high));
    }

    fn set_sda(&mut self, high: bool) {
        self.events.push(LineEvent::Sda(high));
    }

    fn release_sda(&mut self) {
        self.events.push(LineEvent::Release);
    }

    fn sample_sda(&mut self) -> (high: bool) {
        let n: usize = self.responses.len();
        proof {
            assert(old(self).consumed <= old(self).responses@.len());
            assert(old(self).feed().len() == old(self).responses@.len() - old(self).consumed);
            assert(old(self).consumed < n);
        }
        let high = self.responses[self.consumed];
        self.consumed = self.consumed + 1;
        self.events.push(LineEvent::Sample(high));
        proof {
            assert(self.feed() =~= old(self).feed().drop_first());
        }
        high
    }

    fn wait(&mut self) {
        self.events.push(LineEvent::Wait);
    }

    fn feed_len(&self) -> (count: usize) {
        if self.consumed <= self.responses.len() {
            self.responses.len() - self.consumed
        } else {
            0
        }
    }
}

} // verus!
