//! Register-level model of the serial peripheral.
//!
//! The control registers are plain bit-fields. The status register is fed by
//! a script of snapshots, handed out one per read, followed by a `resting`
//! snapshot once the script is exhausted; this models the hardware state
//! changing between polls under the caller's control. The data register is a
//! transmit log paired with a receive queue; in loopback mode every
//! transmitted element is fed back into the receive queue, modelling a
//! directly connected bus.

use vstd::prelude::*;

verus! {

/// One snapshot of the status register.
#[derive(Clone, Copy, Debug, PartialEq, Eq, Structural)]
pub struct Status {
    /// receive-buffer overrun detected
    pub ovr: bool,
    /// role / chip-select disagreement detected
    pub modf: bool,
    /// receive buffer not empty
    pub rxne: bool,
    /// transmit buffer empty
    pub txe: bool,
    /// shift register busy
    pub bsy: bool,
    /// transmit FIFO fill level (0 = empty, 1 = quarter, 2 = half, 3 = full)
    pub ftlvl: u8,
}

/// First control register: role, clocking and line-direction bits.
#[derive(Clone, Copy, Debug, PartialEq, Eq, Structural)]
pub struct Cr1 {
    /// clock phase: capture on the second clock transition
    pub cpha: bool,
    /// clock polarity: idle high
    pub cpol: bool,
    /// controller (bus master) role
    pub mstr: bool,
    /// baud-rate divisor selector (three bits)
    pub br: u8,
    /// least-significant bit first (cleared: most-significant first)
    pub lsbfirst: bool,
    /// software slave management
    pub ssm: bool,
    /// internal slave-select level under software management
    pub ssi: bool,
    /// receive-only mode
    pub rxonly: bool,
    /// single-line bidirectional (half-duplex) mode
    pub bidimode: bool,
    /// output enable in bidirectional mode
    pub bidioe: bool,
    /// peripheral enable
    pub spe: bool,
}

/// Data-size selection of the second control register.
#[derive(Clone, Copy, Debug, PartialEq, Eq, Structural)]
pub enum FrameSize {
    Eight,
    Sixteen,
}

/// Second control register: frame size, receive threshold, select output.
#[derive(Clone, Copy, Debug, PartialEq, Eq, Structural)]
pub struct Cr2 {
    /// receive-FIFO threshold: a ready signal per 8-bit frame when set
    pub frxth: bool,
    /// data-size field
    pub ds: FrameSize,
    /// slave-select output enable
    pub ssoe: bool,
}

impl Cr1 {
    /// Contents after a block reset.
    pub open spec fn reset_spec() -> Cr1 {
        Cr1 {
            cpha: false,
            cpol: false,
            mstr: false,
            br: 0,
            lsbfirst: false,
            ssm: false,
            ssi: false,
            rxonly: false,
            bidimode: false,
            bidioe: false,
            spe: false,
        }
    }

    /// Builds the reset contents of the first control register.
    pub fn reset_value() -> (r: Cr1)
        ensures
            r == Cr1::reset_spec(),
    {
        Cr1 {
            cpha: false,
            cpol: false,
            mstr: false,
            br: 0,
            lsbfirst: false,
            ssm: false,
            ssi: false,
            rxonly: false,
            bidimode: false,
            bidioe: false,
            spe: false,
        }
    }
}

impl Cr2 {
    /// Contents after a block reset.
    pub open spec fn reset_spec() -> Cr2 {
        Cr2 { frxth: false, ds: FrameSize::Eight, ssoe: false }
    }

    /// Builds the reset contents of the second control register.
    pub fn reset_value() -> (r: Cr2)
        ensures
            r == Cr2::reset_spec(),
    {
        Cr2 { frxth: false, ds: FrameSize::Eight, ssoe: false }
    }
}

/// The register interface of one peripheral instance.
pub struct SpiRegs {
    /// first control register
    pub cr1: Cr1,
    /// second control register
    pub cr2: Cr2,
    /// status snapshots still to be reported, oldest first
    pub status: Vec<Status>,
    /// status reported on every read once `status` is exhausted
    pub resting: Status,
    /// elements waiting in the receive queue, oldest first
    pub rx: Vec<u16>,
    /// every element written to the data register, oldest first
    pub tx: Vec<u16>,
    /// feed each transmitted element back into the receive queue
    pub loopback: bool,
    /// history of every status snapshot handed out
    pub polled: Ghost<Seq<Status>>,
}

impl SpiRegs {
    /// The snapshot the next status read will report.
    pub open spec fn peek(self) -> Status {
        if self.status@.len() > 0 {
            self.status@[0]
        } else {
            self.resting
        }
    }

    /// `post` is `self` after exactly one status read and nothing else.
    pub open spec fn stepped(self, post: SpiRegs) -> bool {
        &&& post.cr1 == self.cr1
        &&& post.cr2 == self.cr2
        &&& post.resting == self.resting
        &&& post.loopback == self.loopback
        &&& post.rx@ == self.rx@
        &&& post.tx@ == self.tx@
        &&& post.status@ == if self.status@.len() > 0 {
            self.status@.skip(1)
        } else {
            self.status@
        }
        &&& post.polled@ == self.polled@.push(self.peek())
    }

    /// A fresh register block with both control registers at their reset
    /// contents, an empty transmit log, and the given status script,
    /// resting status, receive queue and loopback wiring.
    pub fn new(status: Vec<Status>, resting: Status, rx: Vec<u16>, loopback: bool) -> (r: SpiRegs)
        ensures
            r.cr1 == Cr1::reset_spec(),
            r.cr2 == Cr2::reset_spec(),
            r.status@ == status@,
            r.resting == resting,
            r.rx@ == rx@,
            r.tx@ == Seq::<u16>::empty(),
            r.loopback == loopback,
            r.polled@ == Seq::<Status>::empty(),
    {
        SpiRegs {
            cr1: Cr1::reset_value(),
            cr2: Cr2::reset_value(),
            status,
            resting,
            rx,
            tx: Vec::new(),
            loopback,
            polled: Ghost(Seq::empty()),
        }
    }

    /// Reads the status register: reports and consumes the next scripted
    /// snapshot, or the resting snapshot once the script is exhausted.
    pub fn read_status(&mut self) -> (s: Status)
        ensures
            s == old(self).peek(),
            old(self).stepped(*final(self)),
    {
        let s: Status;
        if self.status.len() > 0 {
            s = self.status.remove(0);
            proof {
                assert(self.status@ =~= old(self).status@.skip(1));
            }
        } else {
            s = self.resting;
        }
        self.polled = Ghost(self.polled@.push(s));
        s
    }

    /// Reads the data register: takes the oldest element of the receive
    /// queue, or reports an empty (zero) word when nothing has arrived.
    pub fn read_dr(&mut self) -> (v: u16)
        ensures
            final(self).cr1 == old(self).cr1,
            final(self).cr2 == old(self).cr2,
            final(self).status@ == old(self).status@,
            final(self).resting == old(self).resting,
            final(self).loopback == old(self).loopback,
            final(self).tx@ == old(self).tx@,
            final(self).polled@ == old(self).polled@,
            old(self).rx@.len() > 0 ==> v == old(self).rx@[0] && final(self).rx@ == old(
                self,
            ).rx@.skip(1),
            old(self).rx@.len() == 0 ==> v == 0 && final(self).rx@ == old(self).rx@,
    {
        if self.rx.len() > 0 {
            let v = self.rx.remove(0);
            proof {
                assert(self.rx@ =~= old(self).rx@.skip(1));
            }
            v
        } else {
            0
        }
    }

    /// Writes the data register: appends to the transmit log and, under
    /// loopback wiring, feeds the element back into the receive queue.
    pub fn write_dr(&mut self, v: u16)
        ensures
            final(self).cr1 == old(self).cr1,
            final(self).cr2 == old(self).cr2,
            final(self).status@ == old(self).status@,
            final(self).resting == old(self).resting,
            final(self).loopback == old(self).loopback,
            final(self).polled@ == old(self).polled@,
            final(self).tx@ == old(self).tx@.push(v),
            final(self).rx@ == if old(self).loopback {
                old(self).rx@.push(v)
            } else {
                old(self).rx@
            },
    {
        self.tx.push(v);
        if self.loopback {
            self.rx.push(v);
        }
    }

    /// Pulses the external reset line: both control registers return to
    /// their reset contents; the bus state is untouched.
    pub fn reset_pulse(&mut self)
        ensures
            final(self).cr1 == Cr1::reset_spec(),
            final(self).cr2 == Cr2::reset_spec(),
            final(self).status@ == old(self).status@,
            final(self).resting == old(self).resting,
            final(self).loopback == old(self).loopback,
            final(self).rx@ == old(self).rx@,
            final(self).tx@ == old(self).tx@,
            final(self).polled@ == old(self).polled@,
    {
        self.cr1 = Cr1::reset_value();
        self.cr2 = Cr2::reset_value();
    }
}

} // verus!
