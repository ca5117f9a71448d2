use spi_driver::regs::{Cr2, FrameSize, SpiRegs, Status};
use spi_driver::spi::{
    Error, MisoPin, Mode, MosiPin, Phase, Polarity, Poll, SckPin, Spi,
};

struct Sck;
struct Miso;
struct Mosi;

impl SckPin<SpiRegs> for Sck {}
impl MisoPin<SpiRegs> for Miso {}
impl MosiPin<SpiRegs> for Mosi {}

fn test_mode() -> Mode {
    Mode {
        polarity: Polarity::IdleHigh,
        phase: Phase::CaptureOnSecondTransition,
    }
}

fn ready() -> Status {
    Status {
        ovr: false,
        modf: false,
        rxne: true,
        txe: true,
        bsy: false,
        ftlvl: 0,
    }
}

fn send_ready() -> Status {
    Status {
        ovr: false,
        modf: false,
        rxne: false,
        txe: true,
        bsy: false,
        ftlvl: 0,
    }
}

fn read_not_ready() -> Status {
    Status {
        ovr: false,
        modf: false,
        rxne: false,
        txe: false,
        bsy: true,
        ftlvl: 0,
    }
}

fn overrun() -> Status {
    Status {
        ovr: true,
        modf: false,
        rxne: true,
        txe: true,
        bsy: false,
        ftlvl: 0,
    }
}

fn mode_fault() -> Status {
    Status {
        ovr: false,
        modf: true,
        rxne: true,
        txe: true,
        bsy: false,
        ftlvl: 0,
    }
}

/// A controller handle over a simulated register block: `script` drives
/// the upcoming status reads, `ready()` is reported once it runs out.
fn controller(
    script: Vec<Status>,
    rx: Vec<u16>,
    loopback: bool,
) -> Spi<Sck, Miso, Mosi, spi_driver::spi::EightBit> {
    let regs = SpiRegs::new(script, ready(), rx, loopback);
    Spi::controller(regs, (Sck, Miso, Mosi), test_mode(), 48_000_000, 1_000_000)
}

#[test]
fn controller_configuration_registers() {
    let spi = controller(vec![], vec![], false);
    let (regs, _pins) = spi.release();
    assert!(regs.cr1.spe);
    assert!(regs.cr1.mstr);
    assert!(regs.cr1.ssm);
    assert!(regs.cr1.ssi);
    assert!(regs.cr1.cpol);
    assert!(regs.cr1.cpha);
    assert!(!regs.cr1.lsbfirst);
    assert!(!regs.cr1.rxonly);
    assert!(!regs.cr1.bidimode);
    assert_eq!(regs.cr1.br, 0b101);
    assert_eq!(
        regs.cr2,
        Cr2 {
            frxth: true,
            ds: FrameSize::Eight,
            ssoe: false
        }
    );
}

#[test]
fn peripheral_configuration_registers() {
    let regs = SpiRegs::new(vec![], ready(), vec![], false);
    let spi = Spi::peripheral(regs, (Sck, Miso, Mosi), test_mode());
    let (regs, _pins) = spi.release();
    assert!(regs.cr1.spe);
    assert!(!regs.cr1.mstr);
    assert!(!regs.cr1.ssm);
    assert!(!regs.cr1.ssi);
    assert_eq!(regs.cr1.br, 0);
    assert!(regs.cr1.cpol);
    assert!(regs.cr1.cpha);
}

#[test]
fn width_conversion_round_trip() {
    let fresh = controller(vec![], vec![], false);
    let fresh_cr2 = fresh.regs.cr2;
    let sixteen = fresh.into_16bit_width();
    assert_eq!(
        sixteen.regs.cr2,
        Cr2 {
            frxth: false,
            ds: FrameSize::Sixteen,
            ssoe: false
        }
    );
    assert!(sixteen.regs.cr1.spe, "enable state preserved");
    let eight_again = sixteen.into_8bit_width();
    assert_eq!(eight_again.regs.cr2, fresh_cr2);
    assert!(eight_again.regs.cr1.spe, "enable state preserved");
}

#[test]
fn reset_preserves_control_registers() {
    let mut spi = controller(vec![], vec![], false);
    let cr1 = spi.regs.cr1;
    let cr2 = spi.regs.cr2;
    spi.reset();
    assert_eq!(spi.regs.cr1, cr1);
    assert_eq!(spi.regs.cr2, cr2);
}

#[test]
fn loopback_transfer_echoes_input() {
    let mut spi = controller(vec![], vec![], true);
    let mut data: Vec<u8> = vec![0x11, 0x22, 0x33, 0x44, 0x55];
    let r = spi.transfer(&mut data);
    assert!(r.is_ok());
    assert_eq!(data, vec![0x11, 0x22, 0x33, 0x44, 0x55]);
    let (regs, _pins) = spi.release();
    assert_eq!(regs.tx, vec![0x11, 0x22, 0x33, 0x44, 0x55]);
    assert!(!regs.cr1.bidimode, "full duplex clears bidirectional mode");
}

#[test]
fn transfer_stores_seeded_receive_queue() {
    let mut spi = controller(vec![], vec![0x0180, 0x0281, 0x0382], false);
    let mut data: Vec<u8> = vec![1, 2, 3];
    let r = spi.transfer(&mut data);
    assert!(r.is_ok());
    // the data register is read byte-wide: the low byte of each element
    assert_eq!(data, vec![0x80, 0x81, 0x82]);
    let (regs, _pins) = spi.release();
    assert_eq!(regs.tx, vec![1, 2, 3]);
}

#[test]
fn empty_transfer_checks_overrun_once() {
    let mut spi = controller(vec![ready(), ready()], vec![], false);
    let mut data: Vec<u8> = vec![];
    assert!(spi.transfer(&mut data).is_ok());
    let (regs, _pins) = spi.release();
    // only the final overrun check consulted the status register
    assert_eq!(regs.status.len(), 1);
}

#[test]
fn stalled_drain_is_incomplete_transfer_not_overrun() {
    // sends complete, but receive-ready never turns true afterwards and
    // no overrun bit is set
    let script = vec![
        send_ready(),
        send_ready(),
        read_not_ready(),
        read_not_ready(),
    ];
    let mut spi = controller(script, vec![], false);
    let mut data: Vec<u8> = vec![0xAA, 0xBB];
    assert_eq!(spi.transfer(&mut data), Err(Error::IncompleteTransfer));
}

#[test]
fn overrun_at_any_poll_fails_transfer() {
    // the fault arrives after one element was already exchanged
    let script = vec![send_ready(), overrun()];
    let mut spi = controller(script, vec![], false);
    let mut data: Vec<u8> = vec![1, 2];
    assert_eq!(spi.transfer(&mut data), Err(Error::Overrun));
    let (regs, _pins) = spi.release();
    assert_eq!(regs.tx, vec![1], "aborted after the first element");
}

#[test]
fn overrun_after_completed_exchange_still_fails() {
    let script = vec![ready(), ready(), overrun()];
    let mut spi = controller(script, vec![], true);
    let mut data: Vec<u8> = vec![9];
    assert_eq!(spi.transfer(&mut data), Err(Error::Overrun));
}

#[test]
fn mode_fault_aborts_transfer() {
    let script = vec![mode_fault()];
    let mut spi = controller(script, vec![], false);
    let mut data: Vec<u8> = vec![1, 2, 3];
    assert_eq!(spi.transfer(&mut data), Err(Error::ModeFault));
    let (regs, _pins) = spi.release();
    assert_eq!(regs.tx, Vec::<u16>::new());
}

#[test]
fn write_sends_all_elements_in_order() {
    let mut spi = controller(vec![], vec![], false);
    let data: Vec<u8> = vec![10, 20, 30, 40, 50, 60];
    assert!(spi.write(&data).is_ok());
    let (regs, _pins) = spi.release();
    assert_eq!(regs.tx, vec![10, 20, 30, 40, 50, 60]);
    assert!(regs.cr1.bidimode, "send-only sets bidirectional mode");
    assert!(regs.cr1.bidioe, "send-only enables the output driver");
}

#[test]
fn empty_write_polls_only_the_initial_block() {
    let mut spi = controller(vec![send_ready(), send_ready()], vec![], false);
    let data: Vec<u8> = vec![];
    assert!(spi.write(&data).is_ok());
    let (regs, _pins) = spi.release();
    // exactly one status snapshot consumed: the initial readiness block
    assert_eq!(regs.status.len(), 1);
    assert_eq!(regs.tx, Vec::<u16>::new());
}

#[test]
fn write_propagates_initial_fault_before_sending() {
    let mut spi = controller(vec![overrun()], vec![], false);
    let data: Vec<u8> = vec![1, 2, 3];
    assert_eq!(spi.write(&data), Err(Error::Overrun));
    let (regs, _pins) = spi.release();
    assert_eq!(regs.tx, Vec::<u16>::new());
}

#[test]
fn write_blocks_until_send_ready() {
    let script = vec![read_not_ready(), read_not_ready(), send_ready()];
    let mut spi = controller(script, vec![], false);
    let data: Vec<u8> = vec![7];
    assert!(spi.write(&data).is_ok());
    let (regs, _pins) = spi.release();
    assert_eq!(regs.tx, vec![7]);
}

#[test]
fn write_mode_fault_propagates() {
    let mut spi = controller(vec![mode_fault()], vec![], false);
    let data: Vec<u8> = vec![1];
    assert_eq!(spi.write(&data), Err(Error::ModeFault));
}

#[test]
fn send_buffer_size_quantizes_fill_level() {
    let mk = |ftlvl: u8| Status {
        ovr: false,
        modf: false,
        rxne: false,
        txe: true,
        bsy: false,
        ftlvl,
    };
    let script = vec![mk(0), mk(1), mk(2), mk(3)];
    let mut spi = controller(script, vec![], false);
    assert_eq!(spi.send_buffer_size(), 4);
    assert_eq!(spi.send_buffer_size(), 3);
    assert_eq!(spi.send_buffer_size(), 2);
    assert_eq!(spi.send_buffer_size(), 0);
}

#[test]
fn fault_detector_classification() {
    let script = vec![overrun(), mode_fault(), read_not_ready(), ready()];
    let mut spi = controller(script, vec![], false);
    assert_eq!(spi.check_send(), Poll::Fault(Error::Overrun));
    assert_eq!(spi.check_send(), Poll::Fault(Error::ModeFault));
    assert_eq!(spi.check_read(), Poll::WouldBlock);
    assert_eq!(spi.check_read(), Poll::Ready);
}

#[test]
fn direction_mode_toggles() {
    let mut spi = controller(vec![], vec![], false);
    spi.set_send_only();
    assert!(spi.regs.cr1.bidimode);
    assert!(spi.regs.cr1.bidioe);
    spi.set_bidi();
    assert!(!spi.regs.cr1.bidimode);
    assert!(!spi.regs.cr1.bidioe);
}

#[test]
fn loopback_transfer_16bit_echoes_input() {
    let spi = controller(vec![], vec![], true);
    let mut spi = spi.into_16bit_width();
    let mut data: Vec<u16> = vec![0x1234, 0xBEEF, 0x0042];
    assert!(spi.transfer(&mut data).is_ok());
    assert_eq!(data, vec![0x1234, 0xBEEF, 0x0042]);
    let (regs, _pins) = spi.release();
    assert_eq!(regs.tx, vec![0x1234, 0xBEEF, 0x0042]);
}

#[test]
fn transfer_16bit_stores_seeded_receive_queue() {
    let spi = controller(vec![], vec![0xAAAA, 0xBBBB], false);
    let mut spi = spi.into_16bit_width();
    let mut data: Vec<u16> = vec![1, 2];
    assert!(spi.transfer(&mut data).is_ok());
    assert_eq!(data, vec![0xAAAA, 0xBBBB]);
}

#[test]
fn transfer_16bit_overrun_aborts() {
    let script = vec![send_ready(), ready(), overrun()];
    let spi = controller(script, vec![0x1111, 0x2222], false);
    let mut spi = spi.into_16bit_width();
    let mut data: Vec<u16> = vec![5, 6];
    assert_eq!(spi.transfer(&mut data), Err(Error::Overrun));
    let (regs, _pins) = spi.release();
    assert_eq!(regs.tx, vec![5], "aborted after the first element");
}

#[test]
fn write_16bit_sends_all_elements() {
    let spi = controller(vec![], vec![], false);
    let mut spi = spi.into_16bit_width();
    let data: Vec<u16> = vec![100, 200, 300];
    assert!(spi.write(&data).is_ok());
    let (regs, _pins) = spi.release();
    assert_eq!(regs.tx, vec![100, 200, 300]);
}

#[test]
fn empty_write_16bit_performs_no_polling() {
    let spi = controller(vec![ready()], vec![], false);
    let mut spi = spi.into_16bit_width();
    let data: Vec<u16> = vec![];
    assert!(spi.write(&data).is_ok());
    let (regs, _pins) = spi.release();
    assert_eq!(regs.status.len(), 1, "no status snapshot consumed");
}

#[test]
fn write_16bit_mid_transfer_fault_leaves_prefix() {
    let script = vec![send_ready(), send_ready(), overrun()];
    let spi = controller(script, vec![], false);
    let mut spi = spi.into_16bit_width();
    let data: Vec<u16> = vec![11, 22, 33];
    assert_eq!(spi.write(&data), Err(Error::Overrun));
    let (regs, _pins) = spi.release();
    assert_eq!(regs.tx, vec![11, 22]);
}

#[test]
fn release_returns_interface_and_pins() {
    let spi = controller(vec![], vec![], false);
    let (regs, pins) = spi.release();
    assert!(regs.cr1.spe, "left in its last programmed state");
    let (_sck, _miso, _mosi) = pins;
}

#[test]
fn resting_settles_reports_liveness() {
    let spi = controller(vec![], vec![], false);
    assert!(spi.resting_settles());
    let regs = SpiRegs::new(vec![], read_not_ready(), vec![], false);
    let spi = Spi::peripheral(regs, (Sck, Miso, Mosi), test_mode());
    assert!(!spi.resting_settles());
}

#[test]
fn large_loopback_transfer() {
    let mut spi = controller(vec![], vec![], true);
    let original: Vec<u8> = (0..=255u8).collect();
    let mut data = original.clone();
    assert!(spi.transfer(&mut data).is_ok());
    assert_eq!(data, original);
    let (regs, _pins) = spi.release();
    assert_eq!(regs.tx.len(), 256);
}

#[test]
fn short_seeded_queue_reads_as_zero() {
    // only one element ever arrives; the data register reads empty (zero)
    // for the rest
    let mut spi = controller(vec![], vec![0x47], false);
    let mut data: Vec<u8> = vec![1, 2, 3];
    assert!(spi.transfer(&mut data).is_ok());
    assert_eq!(data, vec![0x47, 0, 0]);
}

#[test]
fn consecutive_transfers_drain_the_queue_in_order() {
    let mut spi = controller(vec![], vec![10, 20, 30, 40], false);
    let mut first: Vec<u8> = vec![0, 0];
    let mut second: Vec<u8> = vec![0, 0];
    assert!(spi.transfer(&mut first).is_ok());
    assert!(spi.transfer(&mut second).is_ok());
    assert_eq!(first, vec![10, 20]);
    assert_eq!(second, vec![30, 40]);
}
