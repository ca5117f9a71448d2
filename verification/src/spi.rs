//! The peripheral handle: configuration state machine, fault detector and
//! blocking transfer engine.

use crate::divisor::clock_divisor;
use crate::divisor::divisor_sel;
use crate::regs::Cr1;
use crate::regs::Cr2;
use crate::regs::FrameSize;
use crate::regs::SpiRegs;
use crate::regs::Status;
use core::marker::PhantomData;
use vstd::prelude::*;

verus! {

/// Clock polarity: level of the bus clock while idle.
#[derive(Clone, Copy, Debug, PartialEq, Eq, Structural)]
pub enum Polarity {
    IdleLow,
    IdleHigh,
}

/// Clock phase: which clock transition captures data.
#[derive(Clone, Copy, Debug, PartialEq, Eq, Structural)]
pub enum Phase {
    CaptureOnFirstTransition,
    CaptureOnSecondTransition,
}

/// One of the four standard clock conventions.
#[derive(Clone, Copy, Debug, PartialEq, Eq, Structural)]
pub struct Mode {
    pub polarity: Polarity,
    pub phase: Phase,
}

/// Typestate tag for 8-bit transfers.
pub struct EightBit;

/// Typestate tag for 16-bit transfers.
pub struct SixteenBit;

/// Faults surfaced to the caller of a transfer operation.
#[derive(Clone, Copy, Debug, PartialEq, Eq, Structural)]
pub enum Error {
    /// A received element arrived before the previous one was drained.
    Overrun,
    /// The hardware detected a role or chip-select inconsistency.
    ModeFault,
    /// A frame checksum mismatch was reported.
    Crc,
    /// Reception never caught up with transmission during the final drain.
    IncompleteTransfer,
}

/// Outcome of one status poll: ready to proceed, retry later, or abort.
#[derive(Clone, Copy, Debug, PartialEq, Eq, Structural)]
pub enum Poll {
    Ready,
    WouldBlock,
    Fault(Error),
}

/// The handle owning one register interface and the three bound lines.
pub struct Spi<SCKPIN, MISOPIN, MOSIPIN, WIDTH> {
    pub regs: SpiRegs,
    pub pins: (SCKPIN, MISOPIN, MOSIPIN),
    pub width: PhantomData<WIDTH>,
}

/// Clock-line bindings compatible with the register interface `SPI`.
pub trait SckPin<SPI> {}

/// Data-in-line bindings compatible with the register interface `SPI`.
pub trait MisoPin<SPI> {}

/// Data-out-line bindings compatible with the register interface `SPI`.
pub trait MosiPin<SPI> {}

/// Free transmit-FIFO slots estimated from the fill level: an empty FIFO
/// has four element slots, a quarter-full one three, a half-full one two,
/// and a full (or fuller) one none.
pub open spec fn capacity_of(ftlvl: u8) -> u8 {
    if ftlvl == 0 {
        4
    } else if ftlvl == 1 {
        3
    } else if ftlvl == 2 {
        2
    } else {
        0
    }
}

/// The fault detector's verdict on one status snapshot, given the readiness
/// bit of the direction being polled: a fault always aborts, otherwise the
/// poll either succeeds or asks the caller to retry.
pub open spec fn classify(s: Status, ready: bool) -> Poll {
    if s.ovr {
        Poll::Fault(Error::Overrun)
    } else if s.modf {
        Poll::Fault(Error::ModeFault)
    } else if ready {
        Poll::Ready
    } else {
        Poll::WouldBlock
    }
}

/// Send readiness: transmit buffer empty and the shift register idle.
pub open spec fn classify_send(s: Status) -> Poll {
    classify(s, s.txe && !s.bsy)
}

/// Receive readiness: an element waits in the receive buffer.
pub open spec fn classify_read(s: Status) -> Poll {
    classify(s, s.rxne)
}

/// A status on which no polling loop keeps waiting: it reports a fault or
/// full readiness, and the transmit FIFO accepts at least one element.
/// The transfer operations require the resting status to settle, since
/// their polling loops are verified to terminate; a peripheral that reports
/// "retry" forever would stall a real transfer just as it would stall them.
pub open spec fn settles(s: Status) -> bool {
    (s.ovr || s.modf || (s.txe && !s.bsy && s.rxne)) && capacity_of(s.ftlvl) > 0
}

/// Full readiness with no fault in one snapshot.
pub open spec fn all_ready(s: Status) -> bool {
    &&& !s.ovr
    &&& !s.modf
    &&& s.rxne
    &&& s.txe
    &&& !s.bsy
    &&& s.ftlvl == 0
}

/// Every status the peripheral will ever report is ready and fault-free.
pub open spec fn ready_stream(r: SpiRegs) -> bool {
    &&& all_ready(r.resting)
    &&& forall|i: int| 0 <= i < r.status@.len() ==> all_ready(#[trigger] r.status@[i])
}

/// One status read leaves a ready stream ready, and its verdict is `Ready`.
proof fn lemma_step_ready(a: SpiRegs, b: SpiRegs)
    requires
        a.stepped(b),
        ready_stream(a),
    ensures
        ready_stream(b),
        all_ready(a.peek()),
{
    if a.status@.len() > 0 {
        assert forall|i: int| 0 <= i < b.status@.len() implies all_ready(#[trigger] b.status@[i]) by {
            assert(b.status@[i] == a.status@[i + 1]);
        }
    }
}

/// The 8-bit elements of a transfer as data-register words.
pub open spec fn widen8(words: Seq<u8>) -> Seq<u16> {
    words.map_values(|b: u8| b as u16)
}

/// The receive stream a full-duplex 8-bit transfer drains: what already
/// waits in the receive queue, followed under loopback wiring by the data
/// being sent.
pub open spec fn rx_stream8(r: SpiRegs, sent: Seq<u8>) -> Seq<u16> {
    r.rx@ + if r.loopback {
        widen8(sent)
    } else {
        Seq::<u16>::empty()
    }
}

/// The receive stream a full-duplex 16-bit transfer drains.
pub open spec fn rx_stream16(r: SpiRegs, sent: Seq<u16>) -> Seq<u16> {
    r.rx@ + if r.loopback {
        sent
    } else {
        Seq::<u16>::empty()
    }
}

/// Element `i` of the receive stream as an 8-bit data-register read; a
/// stream read past its end observes an empty (zero) byte.
pub open spec fn rx_byte(stream: Seq<u16>, i: int) -> u8 {
    if 0 <= i < stream.len() {
        (stream[i] % 256) as u8
    } else {
        0
    }
}

/// Element `i` of the receive stream as a 16-bit data-register read.
pub open spec fn rx_word(stream: Seq<u16>, i: int) -> u16 {
    if 0 <= i < stream.len() {
        stream[i]
    } else {
        0
    }
}

/// The status a blocking send-readiness poll settles on: the first
/// scripted snapshot whose verdict is not a retry, or the resting status
/// once every scripted one asks for a retry.
pub open spec fn first_decisive_send_in(script: Seq<Status>, resting: Status) -> Status
    decreases script.len(),
{
    if script.len() == 0 {
        resting
    } else if classify_send(script[0]) != Poll::WouldBlock {
        script[0]
    } else {
        first_decisive_send_in(script.skip(1), resting)
    }
}

/// Law: under direct loopback wiring with an initially empty receive
/// queue, the receive stream echoes the transmitted bytes exactly, so a
/// successful full-duplex transfer leaves its buffer unchanged.
pub proof fn lemma_loopback_echo(regs: SpiRegs, words: Seq<u8>)
    requires
        regs.loopback,
        regs.rx@.len() == 0,
    ensures
        forall|i: int| 0 <= i < words.len() ==> rx_byte(rx_stream8(regs, words), i) == words[i],
{
    let stream = rx_stream8(regs, words);
    assert forall|i: int| 0 <= i < words.len() implies rx_byte(stream, i) == words[i] by {
        assert(stream[i] == widen8(words)[i]);
        assert(widen8(words)[i] == words[i] as u16);
    }
}

/// Law: the 16-bit counterpart of the loopback echo — with direct loopback
/// wiring and an initially empty receive queue the receive stream is the
/// transmitted data itself.
pub proof fn lemma_loopback_echo16(regs: SpiRegs, words: Seq<u16>)
    requires
        regs.loopback,
        regs.rx@.len() == 0,
    ensures
        forall|i: int| 0 <= i < words.len() ==> rx_word(rx_stream16(regs, words), i) == words[i],
{
    let stream = rx_stream16(regs, words);
    assert forall|i: int| 0 <= i < words.len() implies rx_word(stream, i) == words[i] by {
        assert(stream[i] == words[i]);
    }
}

/// The fault detector, shared by the send- and receive-readiness checks:
/// classifies one status snapshot given the readiness bit consulted.
pub fn classify_status(s: Status, ready: bool) -> (r: Poll)
    ensures
        r == classify(s, ready),
{
    if s.ovr {
        Poll::Fault(Error::Overrun)
    } else if s.modf {
        Poll::Fault(Error::ModeFault)
    } else if ready {
        Poll::Ready
    } else {
        Poll::WouldBlock
    }
}

/// One status read preserves the bookkeeping a transfer carries: the poll
/// history only grows, recorded faults abort at once so earlier entries are
/// fault-free, the script only shrinks, and a ready stream stays ready.
proof fn lemma_step_keeps(pre: SpiRegs, a: SpiRegs, b: SpiRegs)
    requires
        a.stepped(b),
        pre.polled@.is_prefix_of(a.polled@),
        forall|i: int|
            pre.polled@.len() <= i < a.polled@.len() ==> !(#[trigger] a.polled@[i]).ovr
                && !a.polled@[i].modf,
        a.status@.len() <= pre.status@.len(),
        ready_stream(pre) ==> ready_stream(a),
    ensures
        pre.polled@.is_prefix_of(b.polled@),
        b.status@.len() <= pre.status@.len(),
        ready_stream(pre) ==> ready_stream(b) && all_ready(a.peek()),
        b.polled@.len() > pre.polled@.len(),
        b.polled@.last() == a.peek(),
        forall|i: int|
            pre.polled@.len() <= i < b.polled@.len() - 1 ==> !(#[trigger] b.polled@[i]).ovr
                && !b.polled@[i].modf,
        !a.peek().ovr && !a.peek().modf ==> forall|i: int|
            pre.polled@.len() <= i < b.polled@.len() ==> !(#[trigger] b.polled@[i]).ovr
                && !b.polled@[i].modf,
{
    assert(b.polled@ == a.polled@.push(a.peek()));
    assert(b.polled@.subrange(0, pre.polled@.len() as int) =~= a.polled@.subrange(
        0,
        pre.polled@.len() as int,
    ));
    if ready_stream(pre) {
        lemma_step_ready(a, b);
    }
}

/// Poll and register bookkeeping shared by every transfer loop: the control
/// registers and wiring are untouched, the poll history grows over `pre`'s
/// with fault-free entries (a recorded fault aborts at once), the status
/// script only shrinks, and a ready stream stays ready.
spec fn poll_weak_inv(pre: SpiRegs, cur: SpiRegs) -> bool {
    &&& cur.cr1 == pre.cr1
    &&& cur.cr2 == pre.cr2
    &&& cur.resting == pre.resting
    &&& cur.loopback == pre.loopback
    &&& pre.polled@.is_prefix_of(cur.polled@)
    &&& (ready_stream(pre) ==> ready_stream(cur))
    &&& cur.status@.len() <= pre.status@.len()
}

spec fn poll_inv(pre: SpiRegs, cur: SpiRegs) -> bool {
    &&& poll_weak_inv(pre, cur)
    &&& (forall|i: int|
        pre.polled@.len() <= i < cur.polled@.len() ==> !(#[trigger] cur.polled@[i]).ovr
            && !cur.polled@[i].modf)
}

/// As [`lemma_step_keeps`], without tracking fault-free poll history; the
/// send-only engines need this, since their final status check by design
/// ignores a fault.
proof fn lemma_step_weak(pre: SpiRegs, a: SpiRegs, b: SpiRegs)
    requires
        a.stepped(b),
        poll_weak_inv(pre, a),
    ensures
        poll_weak_inv(pre, b),
        ready_stream(pre) ==> all_ready(a.peek()),
        b.polled@.len() > pre.polled@.len(),
        b.polled@.len() == a.polled@.len() + 1,
        b.polled@.last() == a.peek(),
        forall|i: int| 0 <= i < a.polled@.len() ==> b.polled@[i] == a.polled@[i],
{
    assert(b.polled@ == a.polled@.push(a.peek()));
    assert(b.polled@.subrange(0, pre.polled@.len() as int) =~= a.polled@.subrange(
        0,
        pre.polled@.len() as int,
    ));
    if ready_stream(pre) {
        lemma_step_ready(a, b);
    }
}

/// Queue position a full-duplex engine has reached: how many elements of
/// the receive stream its reads have consumed so far.
spec fn taken(pre: SpiRegs, rp: int, avail: int) -> int {
    if rp <= avail {
        rp
    } else {
        avail
    }
}

/// Loop bookkeeping of the 8-bit full-duplex engine: `pre` is the register
/// state when the engine started, `words0` the original buffer, `rp` and
/// `wp` the receive and transmit cursors.
spec fn duplex8_inv(
    pre: SpiRegs,
    cur: SpiRegs,
    words0: Seq<u8>,
    words: Seq<u8>,
    rp: int,
    wp: int,
) -> bool {
    let n = words0.len() as int;
    let stream = rx_stream8(pre, words0);
    let avail: int = pre.rx@.len() as int + (if pre.loopback {
        wp
    } else {
        0
    });
    &&& 0 <= rp <= wp <= n
    &&& words.len() == n
    &&& poll_inv(pre, cur)
    &&& cur.tx@ == pre.tx@ + widen8(words0.take(wp))
    &&& cur.rx@ == stream.subrange(taken(pre, rp, avail), avail)
    &&& (forall|i: int| rp <= i < n ==> words[i] == words0[i])
    &&& (forall|i: int| 0 <= i < rp ==> words[i] == rx_byte(stream, i))
}

/// Loop bookkeeping of the 16-bit full-duplex engine.
spec fn duplex16_inv(
    pre: SpiRegs,
    cur: SpiRegs,
    words0: Seq<u16>,
    words: Seq<u16>,
    rp: int,
    wp: int,
) -> bool {
    let n = words0.len() as int;
    let stream = rx_stream16(pre, words0);
    let avail: int = pre.rx@.len() as int + (if pre.loopback {
        wp
    } else {
        0
    });
    &&& 0 <= rp <= wp <= n
    &&& words.len() == n
    &&& poll_inv(pre, cur)
    &&& cur.tx@ == pre.tx@ + words0.take(wp)
    &&& cur.rx@ == stream.subrange(taken(pre, rp, avail), avail)
    &&& (forall|i: int| rp <= i < n ==> words[i] == words0[i])
    &&& (forall|i: int| 0 <= i < rp ==> words[i] == rx_word(stream, i))
}

/// First control register contents for the controller role: clocking from
/// `mode`, controller flag set, software slave management with the internal
/// select forced high, most-significant bit first, two-line unidirectional
/// wiring, unit left disabled.
pub open spec fn controller_cr1(mode: Mode, br: u8) -> Cr1 {
    Cr1 {
        cpha: mode.phase == Phase::CaptureOnSecondTransition,
        cpol: mode.polarity == Polarity::IdleHigh,
        mstr: true,
        br,
        lsbfirst: false,
        ssm: true,
        ssi: true,
        rxonly: false,
        bidimode: false,
        bidioe: false,
        spe: false,
    }
}

/// First control register contents for the peripheral (slave) role: the
/// clock is externally supplied, so no divisor is programmed, the role flag
/// is cleared and the hardware chip-select is authoritative.
pub open spec fn peripheral_cr1(mode: Mode) -> Cr1 {
    Cr1 {
        cpha: mode.phase == Phase::CaptureOnSecondTransition,
        cpol: mode.polarity == Polarity::IdleHigh,
        mstr: false,
        br: 0,
        lsbfirst: false,
        ssm: false,
        ssi: false,
        rxonly: false,
        bidimode: false,
        bidioe: false,
        spe: false,
    }
}

/// Second control register contents for 8-bit transfers: threshold at one
/// frame, 8-bit data size, select output disabled.
pub open spec fn width8_cr2() -> Cr2 {
    Cr2 { frxth: true, ds: FrameSize::Eight, ssoe: false }
}

/// Second control register contents for 16-bit transfers.
pub open spec fn width16_cr2() -> Cr2 {
    Cr2 { frxth: false, ds: FrameSize::Sixteen, ssoe: false }
}

impl<SCKPIN, MISOPIN, MOSIPIN, WIDTH> Spi<SCKPIN, MISOPIN, MOSIPIN, WIDTH> {
    /// Programs the control register for the controller role and the
    /// requested bit rate; the unit is left disabled.
    pub fn spi_init(self, mode: Mode, f_in: u32, f_req: u32) -> (r: Self)
        requires
            1 <= f_req <= f_in,
        ensures
            r.regs.cr1 == controller_cr1(mode, divisor_sel(f_in as int / f_req as int)),
            r.regs.cr2 == self.regs.cr2,
            r.regs.status@ == self.regs.status@,
            r.regs.resting == self.regs.resting,
            r.regs.rx@ == self.regs.rx@,
            r.regs.tx@ == self.regs.tx@,
            r.regs.loopback == self.regs.loopback,
            r.regs.polled@ == self.regs.polled@,
            r.pins == self.pins,
    {
        let mut s = self;
        // make sure the unit is disabled before configuring it
        s.regs.cr1.spe = false;
        let br = clock_divisor(f_in, f_req);
        s.regs.cr1 = Cr1 {
            cpha: matches!(mode.phase, Phase::CaptureOnSecondTransition),
            cpol: matches!(mode.polarity, Polarity::IdleHigh),
            mstr: true,
            br,
            lsbfirst: false,
            ssm: true,
            ssi: true,
            rxonly: false,
            bidimode: false,
            bidioe: false,
            spe: false,
        };
        s
    }

    /// Programs the control register for the peripheral (slave) role; the
    /// unit is left disabled.
    pub fn spi_init_slave(self, mode: Mode) -> (r: Self)
        ensures
            r.regs.cr1 == peripheral_cr1(mode),
            r.regs.cr2 == self.regs.cr2,
            r.regs.status@ == self.regs.status@,
            r.regs.resting == self.regs.resting,
            r.regs.rx@ == self.regs.rx@,
            r.regs.tx@ == self.regs.tx@,
            r.regs.loopback == self.regs.loopback,
            r.regs.polled@ == self.regs.polled@,
            r.pins == self.pins,
    {
        let mut s = self;
        // make sure the unit is disabled before configuring it
        s.regs.cr1.spe = false;
        s.regs.cr1 = Cr1 {
            cpha: matches!(mode.phase, Phase::CaptureOnSecondTransition),
            cpol: matches!(mode.polarity, Polarity::IdleHigh),
            mstr: false,
            br: 0,
            lsbfirst: false,
            ssm: false,
            ssi: false,
            rxonly: false,
            bidimode: false,
            bidioe: false,
            spe: false,
        };
        s
    }

    /// Sets the enable bit; every other field is untouched.
    pub fn enable(self) -> (r: Spi<SCKPIN, MISOPIN, MOSIPIN, WIDTH>)
        ensures
            r.regs.cr1 == (Cr1 { spe: true, ..self.regs.cr1 }),
            r.regs.cr2 == self.regs.cr2,
            r.regs.status@ == self.regs.status@,
            r.regs.resting == self.regs.resting,
            r.regs.rx@ == self.regs.rx@,
            r.regs.tx@ == self.regs.tx@,
            r.regs.loopback == self.regs.loopback,
            r.regs.polled@ == self.regs.polled@,
            r.pins == self.pins,
    {
        let mut s = self;
        s.regs.cr1.spe = true;
        s
    }

    /// Selects 8-bit frames: one ready signal per frame and the select
    /// output disabled. The enable bit is preserved.
    pub fn into_8bit_width(self) -> (r: Spi<SCKPIN, MISOPIN, MOSIPIN, EightBit>)
        ensures
            r.regs.cr2 == width8_cr2(),
            r.regs.cr1 == self.regs.cr1,
            r.regs.status@ == self.regs.status@,
            r.regs.resting == self.regs.resting,
            r.regs.rx@ == self.regs.rx@,
            r.regs.tx@ == self.regs.tx@,
            r.regs.loopback == self.regs.loopback,
            r.regs.polled@ == self.regs.polled@,
            r.pins == self.pins,
    {
        let mut s = self;
        s.regs.cr2 = Cr2 { frxth: true, ds: FrameSize::Eight, ssoe: false };
        Spi { regs: s.regs, pins: s.pins, width: PhantomData }
    }

    /// Selects 16-bit frames: one ready signal per frame and the select
    /// output disabled. The enable bit is preserved.
    pub fn into_16bit_width(self) -> (r: Spi<SCKPIN, MISOPIN, MOSIPIN, SixteenBit>)
        ensures
            r.regs.cr2 == width16_cr2(),
            r.regs.cr1 == self.regs.cr1,
            r.regs.status@ == self.regs.status@,
            r.regs.resting == self.regs.resting,
            r.regs.rx@ == self.regs.rx@,
            r.regs.tx@ == self.regs.tx@,
            r.regs.loopback == self.regs.loopback,
            r.regs.polled@ == self.regs.polled@,
            r.pins == self.pins,
    {
        let mut s = self;
        s.regs.cr2 = Cr2 { frxth: false, ds: FrameSize::Sixteen, ssoe: false };
        Spi { regs: s.regs, pins: s.pins, width: PhantomData }
    }

    /// Forces the line drivers into send-only half-duplex mode: single-line
    /// bidirectional wiring with the output driver enabled.
    pub fn set_send_only(&mut self)
        ensures
            final(self).regs.cr1 == (Cr1 { bidimode: true, bidioe: true, ..old(self).regs.cr1 }),
            final(self).regs.cr2 == old(self).regs.cr2,
            final(self).regs.status@ == old(self).regs.status@,
            final(self).regs.resting == old(self).regs.resting,
            final(self).regs.rx@ == old(self).regs.rx@,
            final(self).regs.tx@ == old(self).regs.tx@,
            final(self).regs.loopback == old(self).regs.loopback,
            final(self).regs.polled@ == old(self).regs.polled@,
            final(self).pins == old(self).pins,
    {
        self.regs.cr1.bidimode = true;
        self.regs.cr1.bidioe = true;
    }

    /// Forces the line drivers into two-line full-duplex mode.
    pub fn set_bidi(&mut self)
        ensures
            final(self).regs.cr1 == (Cr1 { bidimode: false, bidioe: false, ..old(self).regs.cr1 }),
            final(self).regs.cr2 == old(self).regs.cr2,
            final(self).regs.status@ == old(self).regs.status@,
            final(self).regs.resting == old(self).regs.resting,
            final(self).regs.rx@ == old(self).regs.rx@,
            final(self).regs.tx@ == old(self).regs.tx@,
            final(self).regs.loopback == old(self).regs.loopback,
            final(self).regs.polled@ == old(self).regs.polled@,
            final(self).pins == old(self).pins,
    {
        self.regs.cr1.bidimode = false;
        self.regs.cr1.bidioe = false;
    }

    /// Polls the status register for send readiness through the fault
    /// detector.
    pub fn check_send(&mut self) -> (r: Poll)
        ensures
            r == classify_send(old(self).regs.peek()),
            old(self).regs.stepped(final(self).regs),
            final(self).pins == old(self).pins,
    {
        let s = self.regs.read_status();
        let ready = s.txe && !s.bsy;
        classify_status(s, ready)
    }

    /// Polls the status register for receive readiness through the fault
    /// detector.
    pub fn check_read(&mut self) -> (r: Poll)
        ensures
            r == classify_read(old(self).regs.peek()),
            old(self).regs.stepped(final(self).regs),
            final(self).pins == old(self).pins,
    {
        let s = self.regs.read_status();
        let ready = s.rxne;
        classify_status(s, ready)
    }

    /// Estimates the free transmit-FIFO capacity from the fill level; this
    /// poll consults no fault bits.
    pub fn send_buffer_size(&mut self) -> (r: u8)
        ensures
            r == capacity_of(old(self).regs.peek().ftlvl),
            old(self).regs.stepped(final(self).regs),
            final(self).pins == old(self).pins,
    {
        let s = self.regs.read_status();
        if s.ftlvl == 0 {
            // FIFO empty
            4
        } else if s.ftlvl == 1 {
            // FIFO 1/4 full
            3
        } else if s.ftlvl == 2 {
            // FIFO 1/2 full
            2
        } else {
            // FIFO full
            0
        }
    }

    /// Whether the resting status settles, so that the polling loops of the
    /// transfer operations are guaranteed to stop waiting on it.
    pub fn resting_settles(&self) -> (b: bool)
        ensures
            b == settles(self.regs.resting),
    {
        let s = self.regs.resting;
        (s.ovr || s.modf || (s.txe && !s.bsy && s.rxne)) && s.ftlvl <= 2
    }

    /// Writes one byte to the data register.
    fn send_u8(&mut self, byte: u8)
        ensures
            final(self).regs.cr1 == old(self).regs.cr1,
            final(self).regs.cr2 == old(self).regs.cr2,
            final(self).regs.status@ == old(self).regs.status@,
            final(self).regs.resting == old(self).regs.resting,
            final(self).regs.loopback == old(self).regs.loopback,
            final(self).regs.polled@ == old(self).regs.polled@,
            final(self).regs.tx@ == old(self).regs.tx@.push(byte as u16),
            final(self).regs.rx@ == if old(self).regs.loopback {
                old(self).regs.rx@.push(byte as u16)
            } else {
                old(self).regs.rx@
            },
            final(self).pins == old(self).pins,
    {
        self.regs.write_dr(byte as u16);
    }

    /// Reads one byte from the data register.
    fn read_u8(&mut self) -> (v: u8)
        ensures
            final(self).regs.cr1 == old(self).regs.cr1,
            final(self).regs.cr2 == old(self).regs.cr2,
            final(self).regs.status@ == old(self).regs.status@,
            final(self).regs.resting == old(self).regs.resting,
            final(self).regs.loopback == old(self).regs.loopback,
            final(self).regs.polled@ == old(self).regs.polled@,
            final(self).regs.tx@ == old(self).regs.tx@,
            old(self).regs.rx@.len() > 0 ==> v == (old(self).regs.rx@[0] % 256) as u8 && final(
                self).regs.rx@ == old(self).regs.rx@.skip(1),
            old(self).regs.rx@.len() == 0 ==> v == 0 && final(self).regs.rx@ == old(self).regs.rx@,
            final(self).pins == old(self).pins,
    {
        let w = self.regs.read_dr();
        (w % 256) as u8
    }

    /// Writes one halfword to the data register.
    fn send_u16(&mut self, word: u16)
        ensures
            final(self).regs.cr1 == old(self).regs.cr1,
            final(self).regs.cr2 == old(self).regs.cr2,
            final(self).regs.status@ == old(self).regs.status@,
            final(self).regs.resting == old(self).regs.resting,
            final(self).regs.loopback == old(self).regs.loopback,
            final(self).regs.polled@ == old(self).regs.polled@,
            final(self).regs.tx@ == old(self).regs.tx@.push(word),
            final(self).regs.rx@ == if old(self).regs.loopback {
                old(self).regs.rx@.push(word)
            } else {
                old(self).regs.rx@
            },
            final(self).pins == old(self).pins,
    {
        self.regs.write_dr(word);
    }

    /// Reads one halfword from the data register.
    fn read_u16(&mut self) -> (v: u16)
        ensures
            final(self).regs.cr1 == old(self).regs.cr1,
            final(self).regs.cr2 == old(self).regs.cr2,
            final(self).regs.status@ == old(self).regs.status@,
            final(self).regs.resting == old(self).regs.resting,
            final(self).regs.loopback == old(self).regs.loopback,
            final(self).regs.polled@ == old(self).regs.polled@,
            final(self).regs.tx@ == old(self).regs.tx@,
            old(self).regs.rx@.len() > 0 ==> v == old(self).regs.rx@[0] && final(self).regs.rx@
                == old(self).regs.rx@.skip(1),
            old(self).regs.rx@.len() == 0 ==> v == 0 && final(self).regs.rx@ == old(self).regs.rx@,
            final(self).pins == old(self).pins,
    {
        self.regs.read_dr()
    }

    /// Reprograms the peripheral across an external reset pulse, preserving
    /// both control registers; the enable bit is left as it was.
    pub fn reset(&mut self)
        ensures
            final(self).regs.cr1 == old(self).regs.cr1,
            final(self).regs.cr2 == old(self).regs.cr2,
            final(self).regs.status@ == old(self).regs.status@,
            final(self).regs.resting == old(self).regs.resting,
            final(self).regs.rx@ == old(self).regs.rx@,
            final(self).regs.tx@ == old(self).regs.tx@,
            final(self).regs.loopback == old(self).regs.loopback,
            final(self).regs.polled@ == old(self).regs.polled@,
            final(self).pins == old(self).pins,
    {
        let cr1 = self.regs.cr1;
        let cr2 = self.regs.cr2;
        self.regs.reset_pulse();
        self.regs.cr2 = cr2;
        self.regs.cr1 = cr1;
    }

    /// Returns the register interface and the line bindings to the caller;
    /// the peripheral stays in its last programmed state.
    pub fn release(self) -> (r: (SpiRegs, (SCKPIN, MISOPIN, MOSIPIN)))
        ensures
            r.0 == self.regs,
            r.1 == self.pins,
    {
        (self.regs, self.pins)
    }
}

impl<SCKPIN, MISOPIN, MOSIPIN> Spi<SCKPIN, MISOPIN, MOSIPIN, EightBit> {
    /// Configures a controller-role handle: pulses the external reset line
    /// so the unit starts disabled, programs clocking, role and the
    /// divisor for the requested bit rate, selects 8-bit frames, and
    /// enables the unit. The line bindings must be declared compatible
    /// with the register interface.
    pub fn controller(
        regs: SpiRegs,
        pins: (SCKPIN, MISOPIN, MOSIPIN),
        mode: Mode,
        f_in: u32,
        f_req: u32,
    ) -> (r: Self) where
        SCKPIN: SckPin<SpiRegs>,
        MISOPIN: MisoPin<SpiRegs>,
        MOSIPIN: MosiPin<SpiRegs>,

        requires
            1 <= f_req <= f_in,
        ensures
            r.regs.cr1 == (Cr1 {
                spe: true,
                ..controller_cr1(mode, divisor_sel(f_in as int / f_req as int))
            }),
            r.regs.cr2 == width8_cr2(),
            r.regs.status@ == regs.status@,
            r.regs.resting == regs.resting,
            r.regs.rx@ == regs.rx@,
            r.regs.tx@ == regs.tx@,
            r.regs.loopback == regs.loopback,
            r.regs.polled@ == regs.polled@,
            r.pins == pins,
    {
        let mut m = regs;
        // enable the clock gate and pulse the reset line: the unit is now
        // guaranteed disabled and at its reset contents
        m.reset_pulse();
        Spi { regs: m, pins, width: PhantomData::<EightBit> }.spi_init(
            mode,
            f_in,
            f_req,
        ).into_8bit_width().enable()
    }

    /// Configures a peripheral-role (slave) handle: pulses the external
    /// reset line, programs clocking with the role flag cleared — the
    /// clock and chip-select are externally supplied, so no divisor is
    /// programmed — selects 8-bit frames, and enables the unit.
    pub fn peripheral(regs: SpiRegs, pins: (SCKPIN, MISOPIN, MOSIPIN), mode: Mode) -> (r:
        Self) where
        SCKPIN: SckPin<SpiRegs>,
        MISOPIN: MisoPin<SpiRegs>,
        MOSIPIN: MosiPin<SpiRegs>,

        ensures
            r.regs.cr1 == (Cr1 { spe: true, ..peripheral_cr1(mode) }),
            r.regs.cr2 == width8_cr2(),
            r.regs.status@ == regs.status@,
            r.regs.resting == regs.resting,
            r.regs.rx@ == regs.rx@,
            r.regs.tx@ == regs.tx@,
            r.regs.loopback == regs.loopback,
            r.regs.polled@ == regs.polled@,
            r.pins == pins,
    {
        let mut m = regs;
        // enable the clock gate and pulse the reset line: the unit is now
        // guaranteed disabled and at its reset contents
        m.reset_pulse();
        Spi { regs: m, pins, width: PhantomData::<EightBit> }.spi_init_slave(mode).into_8bit_width().enable()
    }

    /// Full-duplex 8-bit transfer: transmits every element of `words` in
    /// order while replacing each with the element received in its place.
    ///
    /// The hardware FIFO is shallower than a typical transfer, so two
    /// independent cursors interleave sending and receiving: a fill phase
    /// transmits while the unit accepts elements, a drain phase stores
    /// arrivals that the transmit cursor has already covered. Once all
    /// elements are sent, a final drain polls for the stragglers; a poll
    /// that is not ready during this drain fails the transfer as
    /// incomplete. A last status read then rejects the whole transaction if
    /// an overrun was recorded.
    #[verifier::loop_isolation(false)]
    #[verifier::rlimit(100)]
    pub fn transfer(&mut self, words: &mut Vec<u8>) -> (r: Result<(), Error>)
        requires
            settles(old(self).regs.resting),
        ensures
            final(words)@.len() == old(words)@.len(),
            final(self).pins == old(self).pins,
            final(self).regs.cr1 == (Cr1 { bidimode: false, bidioe: false, ..old(self).regs.cr1 }),
            final(self).regs.cr2 == old(self).regs.cr2,
            final(self).regs.resting == old(self).regs.resting,
            final(self).regs.loopback == old(self).regs.loopback,
            final(self).regs.status@.len() <= old(self).regs.status@.len(),
            old(self).regs.polled@.is_prefix_of(final(self).regs.polled@),
            old(self).regs.polled@.len() < final(self).regs.polled@.len(),
            // polls before the deciding one never report a fault
            forall|i: int|
                old(self).regs.polled@.len() <= i < final(self).regs.polled@.len() - 1 ==> !(
                #[trigger] final(self).regs.polled@[i]).ovr && !final(self).regs.polled@[i].modf,
            // an overrun at any consulted poll fails the whole transfer
            (exists|i: int|
                old(self).regs.polled@.len() <= i < final(self).regs.polled@.len() && (#[trigger]
                final(self).regs.polled@[i]).ovr) ==> r == Err::<(), Error>(Error::Overrun),
            r == Err::<(), Error>(Error::Overrun) <==> final(self).regs.polled@.last().ovr,
            r == Err::<(), Error>(Error::ModeFault) ==> final(self).regs.polled@.last().modf,
            r == Err::<(), Error>(Error::IncompleteTransfer) ==> classify_read(
                final(self).regs.polled@.last(),
            ) == Poll::WouldBlock,
            r matches Err(e) ==> e == Error::Overrun || e == Error::ModeFault || e
                == Error::IncompleteTransfer,
            // on success the whole input went out, in order, and each
            // element was replaced by its receive-stream counterpart
            r is Ok ==> final(self).regs.tx@ == old(self).regs.tx@ + widen8(old(words)@),
            r is Ok ==> forall|i: int|
                0 <= i < old(words)@.len() ==> final(words)@[i] == rx_byte(
                    rx_stream8(old(self).regs, old(words)@),
                    i,
                ),
            // a directly looped-back bus echoes the input unchanged
            r is Ok && old(self).regs.loopback && old(self).regs.rx@.len() == 0 ==> final(
                words)@ == old(words)@,
            // even on a fault, what was transmitted is a prefix of the input
            exists|k: int|
                0 <= k <= old(words)@.len() && final(self).regs.tx@ == old(self).regs.tx@ + widen8(
                    #[trigger] old(words)@.take(k),
                ),
            // an always-ready, fault-free peripheral guarantees success
            ready_stream(old(self).regs) ==> r is Ok,
    {
        // full duplex uses the two-line unidirectional wiring
        self.set_bidi();
        let ghost pre = self.regs;
        let ghost words0 = words@;
        let n = words.len();
        let mut read_pos: usize = 0;
        let mut write_pos: usize = 0;

        proof {
            assert(ready_stream(old(self).regs) == ready_stream(pre));
            assert(rx_stream8(old(self).regs, words0) == rx_stream8(pre, words0));
            assert(widen8(words0.take(0)) =~= Seq::<u16>::empty());
            assert(pre.tx@ + widen8(words0.take(0)) =~= pre.tx@);
            let stream = rx_stream8(pre, words0);
            let avail: int = pre.rx@.len() as int;
            assert(stream.subrange(0, avail) =~= pre.rx@);
        }

        while write_pos < n
            invariant
                duplex8_inv(pre, self.regs, words0, words@, read_pos as int, write_pos as int),
                self.pins == old(self).pins,
                n == words0.len(),
            decreases self.regs.status@.len(), n - write_pos,
        {
            let ghost len0 = self.regs.status@.len();
            let mut send_blocked = false;
            // fill the transmit FIFO while it accepts elements
            while !send_blocked && write_pos < n
                invariant
                    duplex8_inv(pre, self.regs, words0, words@, read_pos as int, write_pos as int),
                    self.pins == old(self).pins,
                    write_pos <= n,
                    self.regs.status@.len() <= len0,
                    send_blocked ==> self.regs.status@.len() < len0,
                decreases self.regs.status@.len(), n - write_pos,
            {
                let ghost before = self.regs;
                match self.check_send() {
                    Poll::Ready => {
                        proof {
                            lemma_step_keeps(pre, before, self.regs);
                        }
                        let b = words[write_pos];
                        self.send_u8(b);
                        write_pos += 1;
                        proof {
                            let k = write_pos as int - 1;
                            let stream = rx_stream8(pre, words0);
                            assert(b == words0[k]);
                            assert(widen8(words0.take(k + 1)) =~= widen8(words0.take(k)).push(
                                words0[k] as u16,
                            ));
                            assert(self.regs.tx@ =~= pre.tx@ + widen8(words0.take(k + 1)));
                            if pre.loopback {
                                let avail: int = pre.rx@.len() as int + k;
                                assert(stream[avail] == widen8(words0)[k]);
                                assert(stream.subrange(read_pos as int, avail + 1)
                                    =~= stream.subrange(read_pos as int, avail).push(
                                    stream[avail],
                                ));
                            }
                        }
                    },
                    Poll::WouldBlock => {
                        proof {
                            lemma_step_keeps(pre, before, self.regs);
                            if before.status@.len() == 0 {
                                assert(before.peek() == pre.resting);
                                assert(false);
                            }
                        }
                        send_blocked = true;
                    },
                    Poll::Fault(e) => {
                        proof {
                            lemma_step_keeps(pre, before, self.regs);
                            if ready_stream(pre) {
                                assert(all_ready(before.peek()));
                                assert(false);
                            }
                            assert(self.regs.tx@ == old(self).regs.tx@ + widen8(
                                old(words)@.take(write_pos as int),
                            ));
                            if e != Error::Overrun {
                                assert(!before.peek().ovr);
                                assert forall|i: int|
                                    old(self).regs.polled@.len() <= i
                                        < self.regs.polled@.len() implies !(#[trigger]
                                self.regs.polled@[i]).ovr by {}
                            }
                        }
                        return Err(e);
                    },
                }
            }
            let ghost len1 = self.regs.status@.len();
            let mut read_idle = false;
            // store what has arrived for positions already transmitted
            while !read_idle && read_pos < write_pos
                invariant
                    duplex8_inv(pre, self.regs, words0, words@, read_pos as int, write_pos as int),
                    self.pins == old(self).pins,
                    self.regs.status@.len() <= len1,
                decreases self.regs.status@.len(), write_pos - read_pos,
            {
                let ghost before = self.regs;
                match self.check_read() {
                    Poll::Ready => {
                        proof {
                            lemma_step_keeps(pre, before, self.regs);
                        }
                        let v = self.read_u8();
                        words[read_pos] = v;
                        read_pos += 1;
                        proof {
                            let m = read_pos as int - 1;
                            let stream = rx_stream8(pre, words0);
                            let avail: int = pre.rx@.len() as int + (if pre.loopback {
                                write_pos as int
                            } else {
                                0
                            });
                            if pre.loopback {
                                assert(m < avail);
                            }
                            if m < avail {
                                assert(stream.subrange(m, avail)[0] == stream[m]);
                                assert(stream.subrange(m, avail).skip(1) =~= stream.subrange(
                                    m + 1,
                                    avail,
                                ));
                                assert(v == rx_byte(stream, m));
                            } else {
                                assert(stream =~= pre.rx@);
                                assert(stream.subrange(avail, avail).len() == 0);
                                assert(v == 0);
                                assert(rx_byte(stream, m) == 0);
                            }
                        }
                    },
                    Poll::WouldBlock => {
                        proof {
                            lemma_step_keeps(pre, before, self.regs);
                        }
                        read_idle = true;
                    },
                    Poll::Fault(e) => {
                        proof {
                            lemma_step_keeps(pre, before, self.regs);
                            if ready_stream(pre) {
                                assert(all_ready(before.peek()));
                                assert(false);
                            }
                            assert(self.regs.tx@ == old(self).regs.tx@ + widen8(
                                old(words)@.take(write_pos as int),
                            ));
                            if e != Error::Overrun {
                                assert(!before.peek().ovr);
                                assert forall|i: int|
                                    old(self).regs.polled@.len() <= i
                                        < self.regs.polled@.len() implies !(#[trigger]
                                self.regs.polled@[i]).ovr by {}
                            }
                        }
                        return Err(e);
                    },
                }
            }
        }

        // all elements are out; drain what reception still owes us
        while read_pos < n
            invariant
                duplex8_inv(pre, self.regs, words0, words@, read_pos as int, write_pos as int),
                self.pins == old(self).pins,
                n == words0.len(),
                write_pos == n,
            decreases self.regs.status@.len(), n - read_pos,
        {
            let ghost before = self.regs;
            match self.check_read() {
                Poll::Ready => {
                    proof {
                        lemma_step_keeps(pre, before, self.regs);
                    }
                    let v = self.read_u8();
                    words[read_pos] = v;
                    read_pos += 1;
                    proof {
                        let m = read_pos as int - 1;
                        let stream = rx_stream8(pre, words0);
                        let avail: int = pre.rx@.len() as int + (if pre.loopback {
                            write_pos as int
                        } else {
                            0
                        });
                        if pre.loopback {
                            assert(m < avail);
                        }
                        if m < avail {
                            assert(stream.subrange(m, avail)[0] == stream[m]);
                            assert(stream.subrange(m, avail).skip(1) =~= stream.subrange(
                                m + 1,
                                avail,
                            ));
                            assert(v == rx_byte(stream, m));
                        } else {
                            assert(stream =~= pre.rx@);
                            assert(stream.subrange(avail, avail).len() == 0);
                            assert(v == 0);
                            assert(rx_byte(stream, m) == 0);
                        }
                    }
                },
                Poll::WouldBlock => {
                    // reception never caught up: a bus-timing anomaly
                    proof {
                        lemma_step_keeps(pre, before, self.regs);
                        if ready_stream(pre) {
                            assert(all_ready(before.peek()));
                            assert(false);
                        }
                        if before.status@.len() == 0 {
                            assert(before.peek() == pre.resting);
                            assert(false);
                        }
                        assert(self.regs.tx@ == old(self).regs.tx@ + widen8(
                            old(words)@.take(write_pos as int),
                        ));
                        assert(!before.peek().ovr);
                        assert forall|i: int|
                            old(self).regs.polled@.len() <= i
                                < self.regs.polled@.len() implies !(#[trigger]
                        self.regs.polled@[i]).ovr by {}
                    }
                    return Err(Error::IncompleteTransfer);
                },
                Poll::Fault(e) => {
                    proof {
                        lemma_step_keeps(pre, before, self.regs);
                        if ready_stream(pre) {
                            assert(all_ready(before.peek()));
                            assert(false);
                        }
                        assert(self.regs.tx@ == old(self).regs.tx@ + widen8(
                            old(words)@.take(write_pos as int),
                        ));
                        if e != Error::Overrun {
                            assert(!before.peek().ovr);
                            assert forall|i: int|
                                old(self).regs.polled@.len() <= i
                                    < self.regs.polled@.len() implies !(#[trigger]
                            self.regs.polled@[i]).ovr by {}
                        }
                    }
                    return Err(e);
                },
            }
        }

        // the transfer is complete; an overrun recorded meanwhile still
        // invalidates the whole transaction
        let ghost before = self.regs;
        let s = self.regs.read_status();
        proof {
            lemma_step_keeps(pre, before, self.regs);
            assert(self.regs.tx@ == old(self).regs.tx@ + widen8(old(words)@.take(n as int)));
            assert(old(words)@.take(n as int) =~= old(words)@);
            if ready_stream(pre) {
                assert(all_ready(before.peek()));
            }
            if !s.ovr {
                assert forall|i: int|
                    old(self).regs.polled@.len() <= i < self.regs.polled@.len() implies !(#[trigger]
                self.regs.polled@[i]).ovr by {}
            }
        }
        if s.ovr {
            Err(Error::Overrun)
        } else {
            proof {
                if pre.loopback && pre.rx@.len() == 0 {
                    lemma_loopback_echo(pre, words0);
                    assert(words@ =~= words0);
                }
            }
            Ok(())
        }
    }

    /// Send-only 8-bit transfer: forces the line drivers to send-only, so
    /// the unused receive direction is not monitored, then transmits every
    /// element in order. An initial readiness block propagates a pending
    /// fault before anything is sent; afterwards the engine only consults
    /// the FIFO fill level, spending its running estimate of free slots
    /// between polls. One final readiness check lets the last element clear
    /// the shift register; its outcome is deliberately ignored.
    #[verifier::loop_isolation(false)]
    #[verifier::rlimit(100)]
    pub fn write(&mut self, words: &Vec<u8>) -> (r: Result<(), Error>)
        requires
            settles(old(self).regs.resting),
        ensures
            final(self).pins == old(self).pins,
            final(self).regs.cr1 == (Cr1 { bidimode: true, bidioe: true, ..old(self).regs.cr1 }),
            final(self).regs.cr2 == old(self).regs.cr2,
            final(self).regs.resting == old(self).regs.resting,
            final(self).regs.loopback == old(self).regs.loopback,
            final(self).regs.status@.len() <= old(self).regs.status@.len(),
            old(self).regs.polled@.is_prefix_of(final(self).regs.polled@),
            old(self).regs.polled@.len() < final(self).regs.polled@.len(),
            // on success every element went out, in order
            r is Ok ==> final(self).regs.tx@ == old(self).regs.tx@ + widen8(words@),
            r is Ok ==> final(self).regs.rx@ == old(self).regs.rx@ + (if old(
                self).regs.loopback {
                widen8(words@)
            } else {
                Seq::<u16>::empty()
            }),
            // a fault can only come from the initial readiness block, with
            // nothing transmitted and only retries polled before it
            r matches Err(e) ==> (e == Error::Overrun || e == Error::ModeFault) && final(
                self).regs.tx@ == old(self).regs.tx@ && final(self).regs.rx@ == old(self).regs.rx@
                && classify_send(final(self).regs.polled@.last()) == Poll::Fault(e) && (forall|
                i: int,
            |
                old(self).regs.polled@.len() <= i < final(self).regs.polled@.len() - 1
                    ==> classify_send(#[trigger] final(self).regs.polled@[i]) == Poll::WouldBlock),
            // an empty transfer polls only for the initial readiness block
            words@.len() == 0 ==> (forall|i: int|
                old(self).regs.polled@.len() <= i < final(self).regs.polled@.len() - 1
                    ==> classify_send(#[trigger] final(self).regs.polled@[i]) == Poll::WouldBlock)
                && (r is Ok <==> classify_send(final(self).regs.polled@.last()) == Poll::Ready),
            // the outcome is decided entirely by the initial readiness
            // block: no later poll can fail a send-only 8-bit transfer
            r is Ok <==> classify_send(
                first_decisive_send_in(old(self).regs.status@, old(self).regs.resting),
            ) == Poll::Ready,
            // an always-ready, fault-free peripheral guarantees success
            ready_stream(old(self).regs) ==> r is Ok,
    {
        // we only send, so the receive direction need not be monitored
        self.set_send_only();
        let ghost pre = self.regs;
        let n = words.len();
        let mut bufcap: u8 = 0;

        proof {
            assert(ready_stream(old(self).regs) == ready_stream(pre));
        }

        // make sure we do not continue under an error condition
        let mut started = false;
        while !started
            invariant
                poll_weak_inv(pre, self.regs),
                self.regs.tx@ == pre.tx@,
                self.regs.rx@ == pre.rx@,
                self.pins == old(self).pins,
                !started ==> forall|i: int|
                    pre.polled@.len() <= i < self.regs.polled@.len() ==> classify_send(
                        #[trigger] self.regs.polled@[i],
                    ) == Poll::WouldBlock,
                started ==> self.regs.polled@.len() > pre.polled@.len() && classify_send(
                    self.regs.polled@.last(),
                ) == Poll::Ready && (forall|i: int|
                    pre.polled@.len() <= i < self.regs.polled@.len() - 1 ==> classify_send(
                        #[trigger] self.regs.polled@[i],
                    ) == Poll::WouldBlock),
                !started ==> first_decisive_send_in(self.regs.status@, pre.resting)
                    == first_decisive_send_in(pre.status@, pre.resting),
                started ==> classify_send(first_decisive_send_in(pre.status@, pre.resting))
                    == Poll::Ready,
            decreases (if started { 0int } else { 1int }), self.regs.status@.len(),
        {
            let ghost before = self.regs;
            match self.check_send() {
                Poll::Ready => {
                    proof {
                        lemma_step_weak(pre, before, self.regs);
                        assert(first_decisive_send_in(before.status@, pre.resting)
                            == before.peek());
                    }
                    started = true;
                },
                Poll::WouldBlock => {
                    proof {
                        lemma_step_weak(pre, before, self.regs);
                        if before.status@.len() == 0 {
                            assert(before.peek() == pre.resting);
                            assert(false);
                        }
                        assert(first_decisive_send_in(before.status@, pre.resting)
                            == first_decisive_send_in(before.status@.skip(1), pre.resting));
                    }
                },
                Poll::Fault(e) => {
                    proof {
                        lemma_step_weak(pre, before, self.regs);
                        if ready_stream(pre) {
                            assert(all_ready(before.peek()));
                            assert(false);
                        }
                        assert(first_decisive_send_in(before.status@, pre.resting)
                            == before.peek());
                        assert(classify_send(
                            first_decisive_send_in(old(self).regs.status@, old(self).regs.resting),
                        ) != Poll::Ready);
                    }
                    return Err(e);
                },
            }
        }
        proof {
            assert(classify_send(
                first_decisive_send_in(old(self).regs.status@, old(self).regs.resting),
            ) == Poll::Ready);
        }

        if n > 0 {
            let mut i: usize = 0;
            while i < n
                invariant
                    poll_weak_inv(pre, self.regs),
                    i <= n,
                    n == words@.len(),
                    self.regs.tx@ == pre.tx@ + widen8(words@.take(i as int)),
                    self.regs.rx@ == pre.rx@ + (if pre.loopback {
                        widen8(words@.take(i as int))
                    } else {
                        Seq::<u16>::empty()
                    }),
                    self.regs.polled@.len() > pre.polled@.len(),
                    self.pins == old(self).pins,
                decreases n - i,
            {
                // wait for free FIFO slots once the running estimate is spent
                while bufcap == 0
                    invariant
                        poll_weak_inv(pre, self.regs),
                        self.regs.tx@ == pre.tx@ + widen8(words@.take(i as int)),
                        self.regs.rx@ == pre.rx@ + (if pre.loopback {
                            widen8(words@.take(i as int))
                        } else {
                            Seq::<u16>::empty()
                        }),
                        self.regs.polled@.len() > pre.polled@.len(),
                        self.pins == old(self).pins,
                    decreases (if bufcap > 0 { 0int } else { 1int }), self.regs.status@.len(),
                {
                    let ghost before = self.regs;
                    bufcap = self.send_buffer_size();
                    proof {
                        lemma_step_weak(pre, before, self.regs);
                        if bufcap == 0 && before.status@.len() == 0 {
                            assert(before.peek() == pre.resting);
                            assert(false);
                        }
                    }
                }
                let b = words[i];
                self.send_u8(b);
                bufcap = bufcap - 1;
                i += 1;
                proof {
                    let k = i as int - 1;
                    assert(widen8(words@.take(k + 1)) =~= widen8(words@.take(k)).push(
                        words@[k] as u16,
                    ));
                    assert(self.regs.tx@ =~= pre.tx@ + widen8(words@.take(k + 1)));
                    if pre.loopback {
                        assert(self.regs.rx@ =~= pre.rx@ + widen8(words@.take(k + 1)));
                    }
                }
            }

            // one last check so the final element clears the shift
            // register; a transient fault here is deliberately ignored
            let mut done = false;
            while !done
                invariant
                    poll_weak_inv(pre, self.regs),
                    n == words@.len(),
                    self.regs.tx@ == pre.tx@ + widen8(words@.take(n as int)),
                    self.regs.rx@ == pre.rx@ + (if pre.loopback {
                        widen8(words@.take(n as int))
                    } else {
                        Seq::<u16>::empty()
                    }),
                    self.regs.polled@.len() > pre.polled@.len(),
                    self.pins == old(self).pins,
                decreases (if done { 0int } else { 1int }), self.regs.status@.len(),
            {
                let ghost before = self.regs;
                match self.check_send() {
                    Poll::Ready => {
                        proof {
                            lemma_step_weak(pre, before, self.regs);
                        }
                        done = true;
                    },
                    Poll::WouldBlock => {
                        proof {
                            lemma_step_weak(pre, before, self.regs);
                            if before.status@.len() == 0 {
                                assert(before.peek() == pre.resting);
                                assert(false);
                            }
                        }
                    },
                    Poll::Fault(_fault) => {
                        proof {
                            lemma_step_weak(pre, before, self.regs);
                        }
                        done = true;
                    },
                }
            }
        }
        proof {
            assert(words@.take(n as int) =~= words@);
            if n == 0 {
                // nothing was sent, and an empty log extension changes nothing
                assert(widen8(words@) =~= Seq::<u16>::empty());
                assert(self.regs.tx@ =~= pre.tx@ + widen8(words@));
                assert(self.regs.rx@ =~= pre.rx@ + (if pre.loopback {
                    widen8(words@)
                } else {
                    Seq::<u16>::empty()
                }));
            }
        }
        Ok(())
    }
}

impl<SCKPIN, MISOPIN, MOSIPIN> Spi<SCKPIN, MISOPIN, MOSIPIN, SixteenBit> {
    /// Full-duplex 16-bit transfer: element by element, block until the
    /// unit accepts a word, transmit it, block until a word arrives, store
    /// it in place. The 16-bit path needs no dual-cursor interleaving and,
    /// unlike the 8-bit path, has no bounded drain phase: it blocks
    /// unconditionally, so it never reports an incomplete transfer.
    #[verifier::loop_isolation(false)]
    #[verifier::rlimit(100)]
    pub fn transfer(&mut self, words: &mut Vec<u16>) -> (r: Result<(), Error>)
        requires
            settles(old(self).regs.resting),
        ensures
            final(words)@.len() == old(words)@.len(),
            final(self).pins == old(self).pins,
            final(self).regs.cr1 == (Cr1 { bidimode: false, bidioe: false, ..old(self).regs.cr1 }),
            final(self).regs.cr2 == old(self).regs.cr2,
            final(self).regs.resting == old(self).regs.resting,
            final(self).regs.loopback == old(self).regs.loopback,
            final(self).regs.status@.len() <= old(self).regs.status@.len(),
            old(self).regs.polled@.is_prefix_of(final(self).regs.polled@),
            // polls before the deciding one never report a fault
            forall|i: int|
                old(self).regs.polled@.len() <= i < final(self).regs.polled@.len() - 1 ==> !(
                #[trigger] final(self).regs.polled@[i]).ovr && !final(self).regs.polled@[i].modf,
            // an overrun at any consulted poll fails the whole transfer
            (exists|i: int|
                old(self).regs.polled@.len() <= i < final(self).regs.polled@.len() && (#[trigger]
                final(self).regs.polled@[i]).ovr) ==> r == Err::<(), Error>(Error::Overrun),
            r == Err::<(), Error>(Error::Overrun) <==> final(self).regs.polled@.len() > old(
                self).regs.polled@.len() && final(self).regs.polled@.last().ovr,
            r == Err::<(), Error>(Error::ModeFault) ==> final(self).regs.polled@.last().modf,
            r matches Err(e) ==> e == Error::Overrun || e == Error::ModeFault,
            // on success the whole input went out, in order, and each
            // element was replaced by its receive-stream counterpart
            r is Ok ==> final(self).regs.tx@ == old(self).regs.tx@ + old(words)@,
            r is Ok ==> forall|i: int|
                0 <= i < old(words)@.len() ==> final(words)@[i] == rx_word(
                    rx_stream16(old(self).regs, old(words)@),
                    i,
                ),
            // a directly looped-back bus echoes the input unchanged
            r is Ok && old(self).regs.loopback && old(self).regs.rx@.len() == 0 ==> final(
                words)@ == old(words)@,
            // even on a fault, what was transmitted is a prefix of the input
            exists|k: int|
                0 <= k <= old(words)@.len() && final(self).regs.tx@ == old(self).regs.tx@ + (
                #[trigger] old(words)@.take(k)),
            // an always-ready, fault-free peripheral guarantees success
            ready_stream(old(self).regs) ==> r is Ok,
    {
        // full duplex uses the two-line unidirectional wiring
        self.set_bidi();
        let ghost pre = self.regs;
        let ghost words0 = words@;
        let n = words.len();
        let mut i: usize = 0;

        proof {
            assert(ready_stream(old(self).regs) == ready_stream(pre));
            assert(rx_stream16(old(self).regs, words0) == rx_stream16(pre, words0));
            assert(words0.take(0) =~= Seq::<u16>::empty());
            assert(pre.tx@ + words0.take(0) =~= pre.tx@);
            let stream = rx_stream16(pre, words0);
            assert(stream.subrange(0, pre.rx@.len() as int) =~= pre.rx@);
        }

        while i < n
            invariant
                duplex16_inv(pre, self.regs, words0, words@, i as int, i as int),
                self.pins == old(self).pins,
                n == words0.len(),
            decreases n - i,
        {
            // block until the unit accepts an element
            let mut sent = false;
            while !sent
                invariant
                    duplex16_inv(pre, self.regs, words0, words@, i as int, i as int),
                    self.pins == old(self).pins,
                    i < n,
                decreases (if sent {
                    0int
                } else {
                    1int
                }), self.regs.status@.len(),
            {
                let ghost before = self.regs;
                match self.check_send() {
                    Poll::Ready => {
                        proof {
                            lemma_step_keeps(pre, before, self.regs);
                        }
                        sent = true;
                    },
                    Poll::WouldBlock => {
                        proof {
                            lemma_step_keeps(pre, before, self.regs);
                            if before.status@.len() == 0 {
                                assert(before.peek() == pre.resting);
                                assert(false);
                            }
                        }
                    },
                    Poll::Fault(e) => {
                        proof {
                            lemma_step_keeps(pre, before, self.regs);
                            if ready_stream(pre) {
                                assert(all_ready(before.peek()));
                                assert(false);
                            }
                            assert(self.regs.tx@ == old(self).regs.tx@ + old(words)@.take(
                                i as int,
                            ));
                            if e != Error::Overrun {
                                assert(!before.peek().ovr);
                                assert forall|j: int|
                                    old(self).regs.polled@.len() <= j
                                        < self.regs.polled@.len() implies !(#[trigger]
                                self.regs.polled@[j]).ovr by {}
                            }
                        }
                        return Err(e);
                    },
                }
            }
            let w = words[i];
            self.send_u16(w);
            proof {
                let k = i as int;
                let stream = rx_stream16(pre, words0);
                assert(w == words0[k]);
                assert(words0.take(k + 1) =~= words0.take(k).push(words0[k]));
                assert(self.regs.tx@ =~= pre.tx@ + words0.take(k + 1));
                if pre.loopback {
                    let avail: int = pre.rx@.len() as int + k;
                    assert(stream[avail] == words0[k]);
                    assert(stream.subrange(k, avail + 1) =~= stream.subrange(k, avail).push(
                        stream[avail],
                    ));
                }
            }
            // block until an element arrives
            let mut got = false;
            while !got
                invariant
                    duplex16_inv(pre, self.regs, words0, words@, i as int, i as int + 1),
                    self.pins == old(self).pins,
                    i < n,
                decreases (if got {
                    0int
                } else {
                    1int
                }), self.regs.status@.len(),
            {
                let ghost before = self.regs;
                match self.check_read() {
                    Poll::Ready => {
                        proof {
                            lemma_step_keeps(pre, before, self.regs);
                        }
                        got = true;
                    },
                    Poll::WouldBlock => {
                        proof {
                            lemma_step_keeps(pre, before, self.regs);
                            if before.status@.len() == 0 {
                                assert(before.peek() == pre.resting);
                                assert(false);
                            }
                        }
                    },
                    Poll::Fault(e) => {
                        proof {
                            lemma_step_keeps(pre, before, self.regs);
                            if ready_stream(pre) {
                                assert(all_ready(before.peek()));
                                assert(false);
                            }
                            assert(self.regs.tx@ == old(self).regs.tx@ + old(words)@.take(
                                i as int + 1,
                            ));
                            if e != Error::Overrun {
                                assert(!before.peek().ovr);
                                assert forall|j: int|
                                    old(self).regs.polled@.len() <= j
                                        < self.regs.polled@.len() implies !(#[trigger]
                                self.regs.polled@[j]).ovr by {}
                            }
                        }
                        return Err(e);
                    },
                }
            }
            let v = self.read_u16();
            words[i] = v;
            i += 1;
            proof {
                let m = i as int - 1;
                let stream = rx_stream16(pre, words0);
                let avail: int = pre.rx@.len() as int + (if pre.loopback {
                    m + 1
                } else {
                    0
                });
                if pre.loopback {
                    assert(m < avail);
                }
                if m < avail {
                    assert(stream.subrange(m, avail)[0] == stream[m]);
                    assert(stream.subrange(m, avail).skip(1) =~= stream.subrange(m + 1, avail));
                    assert(v == rx_word(stream, m));
                } else {
                    assert(stream =~= pre.rx@);
                    assert(stream.subrange(avail, avail).len() == 0);
                    assert(v == 0);
                    assert(rx_word(stream, m) == 0);
                }
            }
        }
        proof {
            assert(self.regs.tx@ == old(self).regs.tx@ + old(words)@.take(n as int));
            assert(old(words)@.take(n as int) =~= old(words)@);
            if pre.loopback && pre.rx@.len() == 0 {
                lemma_loopback_echo16(pre, words0);
                assert(words@ =~= words0);
            }
        }
        Ok(())
    }

    /// Send-only 16-bit transfer: forces the line drivers to send-only,
    /// then blocks on send readiness before every element. One final
    /// readiness check lets the last element clear the shift register; its
    /// outcome is deliberately ignored. An empty transfer performs no
    /// polling at all.
    #[verifier::loop_isolation(false)]
    #[verifier::rlimit(100)]
    pub fn write(&mut self, words: &Vec<u16>) -> (r: Result<(), Error>)
        requires
            settles(old(self).regs.resting),
        ensures
            final(self).pins == old(self).pins,
            final(self).regs.cr1 == (Cr1 { bidimode: true, bidioe: true, ..old(self).regs.cr1 }),
            final(self).regs.cr2 == old(self).regs.cr2,
            final(self).regs.resting == old(self).regs.resting,
            final(self).regs.loopback == old(self).regs.loopback,
            final(self).regs.status@.len() <= old(self).regs.status@.len(),
            old(self).regs.polled@.is_prefix_of(final(self).regs.polled@),
            // an empty transfer performs no polling and succeeds trivially
            words@.len() == 0 ==> final(self).regs.polled@ == old(self).regs.polled@ && r is Ok,
            // on success every element went out, in order
            r is Ok ==> final(self).regs.tx@ == old(self).regs.tx@ + words@,
            r is Ok ==> final(self).regs.rx@ == old(self).regs.rx@ + (if old(
                self).regs.loopback {
                words@
            } else {
                Seq::<u16>::empty()
            }),
            // a fault aborts at the poll that reports it, leaving a prefix
            // of the input transmitted
            r matches Err(e) ==> (e == Error::Overrun || e == Error::ModeFault) && classify_send(
                final(self).regs.polled@.last(),
            ) == Poll::Fault(e) && final(self).regs.polled@.len() > old(self).regs.polled@.len()
                && (exists|k: int|
                0 <= k < words@.len() && final(self).regs.tx@ == old(self).regs.tx@ + (#[trigger]
                words@.take(k)) && final(self).regs.rx@ == old(self).regs.rx@ + (if old(
                    self).regs.loopback {
                    words@.take(k)
                } else {
                    Seq::<u16>::empty()
                })),
            // an always-ready, fault-free peripheral guarantees success
            ready_stream(old(self).regs) ==> r is Ok,
    {
        // we only send, so the receive direction need not be monitored
        self.set_send_only();
        let ghost pre = self.regs;
        let n = words.len();

        proof {
            assert(ready_stream(old(self).regs) == ready_stream(pre));
            assert(words@.take(0) =~= Seq::<u16>::empty());
            assert(pre.tx@ + words@.take(0) =~= pre.tx@);
            assert(pre.rx@ + Seq::<u16>::empty() =~= pre.rx@);
        }

        if n > 0 {
            let mut i: usize = 0;
            while i < n
                invariant
                    poll_weak_inv(pre, self.regs),
                    i <= n,
                    n == words@.len(),
                    self.regs.tx@ == pre.tx@ + words@.take(i as int),
                    self.regs.rx@ == pre.rx@ + (if pre.loopback {
                        words@.take(i as int)
                    } else {
                        Seq::<u16>::empty()
                    }),
                    self.pins == old(self).pins,
                decreases n - i,
            {
                // block until the unit accepts an element
                let mut sent = false;
                while !sent
                    invariant
                        poll_weak_inv(pre, self.regs),
                        i < n,
                        n == words@.len(),
                        self.regs.tx@ == pre.tx@ + words@.take(i as int),
                        self.regs.rx@ == pre.rx@ + (if pre.loopback {
                            words@.take(i as int)
                        } else {
                            Seq::<u16>::empty()
                        }),
                        self.pins == old(self).pins,
                    decreases (if sent {
                        0int
                    } else {
                        1int
                    }), self.regs.status@.len(),
                {
                    let ghost before = self.regs;
                    match self.check_send() {
                        Poll::Ready => {
                            proof {
                                lemma_step_weak(pre, before, self.regs);
                            }
                            sent = true;
                        },
                        Poll::WouldBlock => {
                            proof {
                                lemma_step_weak(pre, before, self.regs);
                                if before.status@.len() == 0 {
                                    assert(before.peek() == pre.resting);
                                    assert(false);
                                }
                            }
                        },
                        Poll::Fault(e) => {
                            proof {
                                lemma_step_weak(pre, before, self.regs);
                                if ready_stream(pre) {
                                    assert(all_ready(before.peek()));
                                    assert(false);
                                }
                                assert(self.regs.tx@ == old(self).regs.tx@ + words@.take(
                                    i as int,
                                ));
                                assert(self.regs.rx@ == old(self).regs.rx@ + (if old(
                                    self).regs.loopback {
                                    words@.take(i as int)
                                } else {
                                    Seq::<u16>::empty()
                                }));
                            }
                            return Err(e);
                        },
                    }
                }
                let w = words[i];
                self.send_u16(w);
                i += 1;
                proof {
                    let k = i as int - 1;
                    assert(words@.take(k + 1) =~= words@.take(k).push(words@[k]));
                    assert(self.regs.tx@ =~= pre.tx@ + words@.take(k + 1));
                    if pre.loopback {
                        assert(self.regs.rx@ =~= pre.rx@ + words@.take(k + 1));
                    }
                }
            }

            // one last check so the final element clears the shift
            // register; a transient fault here is deliberately ignored
            let mut done = false;
            while !done
                invariant
                    poll_weak_inv(pre, self.regs),
                    n == words@.len(),
                    self.regs.tx@ == pre.tx@ + words@.take(n as int),
                    self.regs.rx@ == pre.rx@ + (if pre.loopback {
                        words@.take(n as int)
                    } else {
                        Seq::<u16>::empty()
                    }),
                    self.pins == old(self).pins,
                decreases (if done {
                    0int
                } else {
                    1int
                }), self.regs.status@.len(),
            {
                let ghost before = self.regs;
                match self.check_send() {
                    Poll::Ready => {
                        proof {
                            lemma_step_weak(pre, before, self.regs);
                        }
                        done = true;
                    },
                    Poll::WouldBlock => {
                        proof {
                            lemma_step_weak(pre, before, self.regs);
                            if before.status@.len() == 0 {
                                assert(before.peek() == pre.resting);
                                assert(false);
                            }
                        }
                    },
                    Poll::Fault(_fault) => {
                        proof {
                            lemma_step_weak(pre, before, self.regs);
                        }
                        done = true;
                    },
                }
            }
        }
        proof {
            assert(words@.take(n as int) =~= words@);
            if n == 0 {
                assert(self.regs.tx@ =~= pre.tx@ + words@);
                assert(self.regs.rx@ =~= pre.rx@ + (if pre.loopback {
                    words@
                } else {
                    Seq::<u16>::empty()
                }));
            }
        }
        Ok(())
    }
}

} // verus!
