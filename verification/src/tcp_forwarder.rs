//! The TCP side of the forwarder: the steps of the pump that carries the
//! bytes of one direction of a connection.

use vstd::prelude::*;
use vstd::slice::slice_subrange;
use crate::config::{TcpRule, TcpRuleView};

verus! {

/// What a pump meets: the end of a read or of a write.
#[derive(Debug, Clone, Copy, PartialEq, Eq, Structural)]
pub enum PumpEvent {
    /// A read filled the first bytes of the buffer, as many as given; none
    /// means that the peer has closed its side.
    Read(usize),
    /// A read failed.
    ReadFailed,
    /// The bytes handed out for writing were all written.
    Written,
    /// A write failed.
    WriteFailed,
}

/// What a pump does next.
#[derive(Debug)]
pub enum PumpAction<'a> {
    /// Write these bytes, all of them, to the other side.
    Write(&'a [u8]),
    /// Read again.
    Read,
    /// End the pump, and with it the connection pair.
    Stop,
}

/// Mathematical value of a [`PumpAction`].
pub enum PumpPlan {
    Write(Seq<u8>),
    Read,
    Stop,
}

impl<'a> View for PumpAction<'a> {
    type V = PumpPlan;

    open spec fn view(&self) -> PumpPlan {
        match *self {
            PumpAction::Write(bytes) => PumpPlan::Write(bytes@),
            PumpAction::Read => PumpPlan::Read,
            PumpAction::Stop => PumpPlan::Stop,
        }
    }
}

/// What a pump does on an event, its buffer holding `buffer`: what was
/// read is written, unchanged; after a write comes the next read; the end
/// of the stream and every failure end the pump.
pub open spec fn pump_plan(buffer: Seq<u8>, event: PumpEvent) -> PumpPlan {
    match event {
        PumpEvent::Read(n) => if n == 0 {
            PumpPlan::Stop
        } else {
            PumpPlan::Write(buffer.take(n as int))
        },
        PumpEvent::ReadFailed => PumpPlan::Stop,
        PumpEvent::Written => PumpPlan::Read,
        PumpEvent::WriteFailed => PumpPlan::Stop,
    }
}

/// One step of a pump: takes what the pump met and says what it does next.
/// A read cannot have filled more than the buffer holds.
pub fn pump_step<'a>(buffer: &'a [u8], event: PumpEvent) -> (action: PumpAction<'a>)
    requires
        event matches PumpEvent::Read(n) ==> n <= buffer@.len(),
    ensures
        action@ == pump_plan(buffer@, event),
{
    match event {
        PumpEvent::Read(n) => {
            if n == 0 {
                PumpAction::Stop
            } else {
                let bytes = slice_subrange(buffer, 0, n);
                PumpAction::Write(bytes)
            }
        },
        PumpEvent::ReadFailed => PumpAction::Stop,
        PumpEvent::Written => PumpAction::Read,
        PumpEvent::WriteFailed => PumpAction::Stop,
    }
}

/// One accepted client connection together with the connection to the
/// target that was opened for it. The pair is open until either of its two
/// pumps ends; from then on it is closed for both directions.
#[derive(Debug)]
pub struct TcpConnectionPair {
    open: bool,
}

/// What a pump of a pair does on an event: what any pump does while the
/// pair is open, and nothing but stop once it is closed.
pub open spec fn pair_plan(open: bool, buffer: Seq<u8>, event: PumpEvent) -> PumpPlan {
    if open {
        pump_plan(buffer, event)
    } else {
        PumpPlan::Stop
    }
}

/// Whether a pair is open after a pump's step: it was open, and the pump
/// was not told to stop.
pub open spec fn pair_open_after(open: bool, buffer: Seq<u8>, event: PumpEvent) -> bool {
    open && !(pair_plan(open, buffer, event) is Stop)
}

impl TcpConnectionPair {
    /// Whether the pair is open.
    pub closed spec fn spec_is_open(&self) -> bool {
        self.open
    }

    /// A pair that was just connected: open.
    pub fn new() -> (pair: Self)
        ensures
            pair.is_open(),
    {
        TcpConnectionPair { open: true }
    }

    /// Whether the pair is open.
    #[verifier::when_used_as_spec(spec_is_open)]
    pub fn is_open(&self) -> (open: bool)
        ensures
            open == self.spec_is_open(),
    {
        self.open
    }

    /// One step of either pump of the pair: takes what the pump met and
    /// says what it does next. The pump that is told to stop closes the
    /// pair, and with it the other direction.
    pub fn step<'a>(&mut self, buffer: &'a [u8], event: PumpEvent) -> (action: PumpAction<'a>)
        requires
            event matches PumpEvent::Read(n) ==> n <= buffer@.len(),
        ensures
            action@ == pair_plan(old(self).is_open(), buffer@, event),
            final(self).is_open() == pair_open_after(old(self).is_open(), buffer@, event),
    {
        if !self.open {
            return PumpAction::Stop;
        }
        let action = pump_step(buffer, event);
        match action {
            PumpAction::Stop => {
                self.open = false;
            },
            _ => {},
        }
        action
    }
}

/// Whichever pump of an open pair meets the end of its stream or a
/// failure, the pair is closed by that step; a closed pair stays closed,
/// and stops whichever pump steps next: no direction goes on after the
/// other has ended.
pub proof fn lemma_pair_closes_both_directions(
    buffer: Seq<u8>,
    ending: PumpEvent,
    later_buffer: Seq<u8>,
    later: PumpEvent,
)
    requires
        ending == PumpEvent::Read(0) || ending == PumpEvent::ReadFailed || ending
            == PumpEvent::WriteFailed,
    ensures
        pair_plan(true, buffer, ending) == PumpPlan::Stop,
        !pair_open_after(true, buffer, ending),
        pair_plan(pair_open_after(true, buffer, ending), later_buffer, later) == PumpPlan::Stop,
        !pair_open_after(false, later_buffer, later),
{
}

/// An open pair stays open over every read that brings bytes and every
/// write that succeeds.
pub proof fn lemma_pair_stays_open_while_bytes_flow(buffer: Seq<u8>, n: usize)
    requires
        n > 0,
    ensures
        pair_open_after(true, buffer, PumpEvent::Read(n)),
        pair_plan(true, buffer, PumpEvent::Read(n)) == PumpPlan::Write(buffer.take(n as int)),
        pair_open_after(true, buffer, PumpEvent::Written),
        pair_plan(true, buffer, PumpEvent::Written) == PumpPlan::Read,
{
}

/// One thing that a pump met, with what its buffer held then.
pub struct PumpMoment {
    pub buffer: Seq<u8>,
    pub event: PumpEvent,
}

/// The bytes that a pump hands out for writing while it meets `moments`
/// in turn, up to the moment that ends it.
pub open spec fn forwarded(moments: Seq<PumpMoment>) -> Seq<u8>
    decreases moments.len(),
{
    if moments.len() == 0 {
        Seq::empty()
    } else {
        match pump_plan(moments[0].buffer, moments[0].event) {
            PumpPlan::Write(bytes) => bytes + forwarded(moments.skip(1)),
            PumpPlan::Read => forwarded(moments.skip(1)),
            PumpPlan::Stop => Seq::empty(),
        }
    }
}

/// The moments of a pump whose reads bring `chunks` one after the other,
/// whose writes all succeed, and whose last read finds the stream closed.
pub open spec fn moments_of(chunks: Seq<Seq<u8>>) -> Seq<PumpMoment>
    decreases chunks.len(),
{
    if chunks.len() == 0 {
        seq![PumpMoment { buffer: Seq::empty(), event: PumpEvent::Read(0) }]
    } else {
        seq![
            PumpMoment { buffer: chunks[0], event: PumpEvent::Read(chunks[0].len() as usize) },
            PumpMoment { buffer: chunks[0], event: PumpEvent::Written },
        ] + moments_of(chunks.skip(1))
    }
}

/// The bytes of `chunks`, one chunk after the other.
pub open spec fn stream_of(chunks: Seq<Seq<u8>>) -> Seq<u8>
    decreases chunks.len(),
{
    if chunks.len() == 0 {
        Seq::empty()
    } else {
        chunks[0] + stream_of(chunks.skip(1))
    }
}

/// A pump hands on the stream that it reads: the same bytes in the same
/// order, whatever the chunks in which the reads bring them, and nothing
/// for a stream that is closed at once.
pub proof fn lemma_pump_forwards_the_stream(chunks: Seq<Seq<u8>>)
    requires
        forall|i: int| 0 <= i < chunks.len() ==> 0 < (#[trigger] chunks[i]).len() <= usize::MAX,
    ensures
        forwarded(moments_of(chunks)) == stream_of(chunks),
    decreases chunks.len(),
{
    if chunks.len() > 0 {
        let rest = chunks.skip(1);
        lemma_pump_forwards_the_stream(rest);
        let moments = moments_of(chunks);
        assert(moments.skip(1).skip(1) =~= moments_of(rest));
        assert(forwarded(moments.skip(1)) == forwarded(moments_of(rest)));
    }
}

/// Mathematical value of a [`TcpForwarder`].
pub struct TcpForwarderView {
    pub rule: TcpRuleView,
    pub buffer_size: usize,
}

/// The forwarder of one TCP rule.
#[derive(Debug, Clone)]
pub struct TcpForwarder {
    rule: TcpRule,
    buffer_size: usize,
}

impl View for TcpForwarder {
    type V = TcpForwarderView;

    closed spec fn view(&self) -> TcpForwarderView {
        TcpForwarderView { rule: self.rule@, buffer_size: self.buffer_size }
    }
}

impl TcpForwarder {
    /// The forwarder of `rule`, whose pumps read into buffers of
    /// `buffer_size` bytes.
    pub fn new(rule: TcpRule, buffer_size: usize) -> (forwarder: Self)
        ensures
            forwarder@ == (TcpForwarderView { rule: rule@, buffer_size }),
    {
        TcpForwarder { rule, buffer_size }
    }

    /// The rule that is forwarded.
    pub fn rule(&self) -> (rule: &TcpRule)
        ensures
            rule@ == self@.rule,
    {
        &self.rule
    }

    /// The size of a pump's buffer, in bytes.
    pub fn buffer_size(&self) -> (size: usize)
        ensures
            size == self@.buffer_size,
    {
        self.buffer_size
    }
}

} // verus!
