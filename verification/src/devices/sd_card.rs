//! The SD host controller: the command protocol that brings a version 2 SD
//! card up, and single-block reads and writes. Registers are reached through
//! an `SdHost`, which maps register offsets to the controller's memory, by
//! way of `SdRegisters`, which records every access.

use crate::devices::pci::{
    get_pci_addres, read_config, spec_pci_address, write_pci_command, ConfigAccess, ConfigPort, DeviceInfo,
    PCICommand, PciConfigAccess,
};
use vstd::prelude::*;

verus! {

/// Class code of generic system peripherals.
pub const SD_CLASS_CODE: u8 = 0x8;
/// Subclass of SD host controllers.
pub const SD_SUB_CLASS: u8 = 0x5;
/// Programming interface without DMA.
pub const SD_NO_DMA_INTERFACE: u8 = 0x0;
/// Programming interface with DMA.
pub const SD_DMA_INTERFACE: u8 = 0x1;
/// Polls of a register before the controller is given up on.
pub const MAX_ITERATIONS: usize = 1000;
/// Bytes in a block of the card.
pub const SD_BLOCK_SIZE: u32 = 512;

/// Capabilities: 3.3 V is supported.
pub const CAP_VOLTAGE_3_3: u64 = 0x100_0000;
/// Capabilities: 3.0 V is supported.
pub const CAP_VOLTAGE_3_0: u64 = 0x200_0000;
/// Capabilities: 1.8 V is supported.
pub const CAP_VOLTAGE_1_8: u64 = 0x400_0000;

/// Present state: the command line is busy.
pub const PRESENT_COMMAND_INHIBIT_CMD: u32 = 0x1;
/// Present state: the data line is busy.
pub const PRESENT_COMMAND_INHIBIT_DATA: u32 = 0x2;
/// Present state: the buffer can be written.
pub const PRESENT_BUFFER_WRITE_ENABLE: u32 = 0x400;
/// Present state: the buffer can be read.
pub const PRESENT_BUFFER_READ_ENABLE: u32 = 0x800;
/// Present state: a command was not issued because of an error.
pub const PRESENT_COMMAND_NOT_ISSUED_ERROR: u32 = 0x800_0000;

/// Command flag: data is present.
pub const CMD_DATA_PRESENT_SELECT: u16 = 0x20;
/// Command flag: check the command index of the response.
pub const CMD_INDEX_CHECK_ENABLE: u16 = 0x10;
/// Command flag: check the CRC of the response.
pub const CMD_CRC_CHECK_ENABLE: u16 = 0x8;

/// Transfer mode: data goes from the card to the host.
pub const TRANSFER_READ_TO_CARD: u16 = 0x10;

/// One access to a register of the controller: its offset and the value
/// read or written.
#[derive(Debug, Clone, Copy, PartialEq, Eq, Structural)]
pub enum RegisterAccess {
    /// A byte was read.
    Read8(u64, u8),
    /// A 16-bit word was read.
    Read16(u64, u16),
    /// A 32-bit word was read.
    Read32(u64, u32),
    /// A 64-bit word was read.
    Read64(u64, u64),
    /// A byte was written.
    Write8(u64, u8),
    /// A 16-bit word was written.
    Write16(u64, u16),
    /// A 32-bit word was written.
    Write32(u64, u32),
}

/// The registers of an SD host controller, by offset from its base: each
/// call is one read or write of the register.
pub trait SdHost {
    /// Reads the byte register at `offset`.
    fn read_u8(&mut self, offset: u64) -> u8;
    /// Reads the 16-bit register at `offset`.
    fn read_u16(&mut self, offset: u64) -> u16;
    /// Reads the 32-bit register at `offset`.
    fn read_u32(&mut self, offset: u64) -> u32;
    /// Reads the 64-bit register at `offset`.
    fn read_u64(&mut self, offset: u64) -> u64;
    /// Writes the byte register at `offset`.
    fn write_u8(&mut self, offset: u64, value: u8);
    /// Writes the 16-bit register at `offset`.
    fn write_u16(&mut self, offset: u64, value: u16);
    /// Writes the 32-bit register at `offset`.
    fn write_u32(&mut self, offset: u64, value: u32);
}

/// The registers of a controller reached through `host`, with a record, in
/// order, of every access made to them: the driver reaches the controller
/// only through this.
pub struct SdRegisters<H: SdHost> {
    host: H,
    log: Ghost<Seq<RegisterAccess>>,
}

impl<H: SdHost> SdRegisters<H> {
    /// The accesses made so far, oldest first.
    pub closed spec fn accesses(&self) -> Seq<RegisterAccess> {
        self.log@
    }

    /// The registers of `host`, with no access made yet.
    pub fn new(host: H) -> (r: Self)
        ensures
            r.accesses() == Seq::<RegisterAccess>::empty(),
    {
        SdRegisters { host, log: Ghost(Seq::empty()) }
    }

    /// Reads the byte register at `offset`.
    pub fn read_u8(&mut self, offset: u64) -> (r: u8)
        ensures
            final(self).accesses() == old(self).accesses().push(RegisterAccess::Read8(offset, r)),
    {
        let r = self.host.read_u8(offset);
        self.log = Ghost(self.log@.push(RegisterAccess::Read8(offset, r)));
        r
    }

    /// Reads the 16-bit register at `offset`.
    pub fn read_u16(&mut self, offset: u64) -> (r: u16)
        ensures
            final(self).accesses() == old(self).accesses().push(RegisterAccess::Read16(offset, r)),
    {
        let r = self.host.read_u16(offset);
        self.log = Ghost(self.log@.push(RegisterAccess::Read16(offset, r)));
        r
    }

    /// Reads the 32-bit register at `offset`.
    pub fn read_u32(&mut self, offset: u64) -> (r: u32)
        ensures
            final(self).accesses() == old(self).accesses().push(RegisterAccess::Read32(offset, r)),
    {
        let r = self.host.read_u32(offset);
        self.log = Ghost(self.log@.push(RegisterAccess::Read32(offset, r)));
        r
    }

    /// Reads the 64-bit register at `offset`.
    pub fn read_u64(&mut self, offset: u64) -> (r: u64)
        ensures
            final(self).accesses() == old(self).accesses().push(RegisterAccess::Read64(offset, r)),
    {
        let r = self.host.read_u64(offset);
        self.log = Ghost(self.log@.push(RegisterAccess::Read64(offset, r)));
        r
    }

    /// Writes the byte register at `offset`.
    pub fn write_u8(&mut self, offset: u64, value: u8)
        ensures
            final(self).accesses() == old(self).accesses().push(RegisterAccess::Write8(offset, value)),
    {
        self.host.write_u8(offset, value);
        self.log = Ghost(self.log@.push(RegisterAccess::Write8(offset, value)));
    }

    /// Writes the 16-bit register at `offset`.
    pub fn write_u16(&mut self, offset: u64, value: u16)
        ensures
            final(self).accesses() == old(self).accesses().push(RegisterAccess::Write16(offset, value)),
    {
        self.host.write_u16(offset, value);
        self.log = Ghost(self.log@.push(RegisterAccess::Write16(offset, value)));
    }

    /// Writes the 32-bit register at `offset`.
    pub fn write_u32(&mut self, offset: u64, value: u32)
        ensures
            final(self).accesses() == old(self).accesses().push(RegisterAccess::Write32(offset, value)),
    {
        self.host.write_u32(offset, value);
        self.log = Ghost(self.log@.push(RegisterAccess::Write32(offset, value)));
    }
}

/// Whether `b` is `a` followed by more.
pub open spec fn extends<T>(a: Seq<T>, b: Seq<T>) -> bool {
    &&& a.len() <= b.len()
    &&& forall|i: int| 0 <= i < a.len() ==> #[trigger] b[i] == a[i]
}

/// What `b` adds to `a`, when it extends it.
pub open spec fn added<T>(a: Seq<T>, b: Seq<T>) -> Seq<T> {
    b.subrange(a.len() as int, b.len() as int)
}

/// A sequence extended twice extends the start, and what is added is the
/// two additions one after the other.
pub proof fn lemma_extends_trans<T>(a: Seq<T>, b: Seq<T>, c: Seq<T>)
    requires
        extends(a, b),
        extends(b, c),
    ensures
        extends(a, c),
        added(a, c) == added(a, b) + added(b, c),
        c == a + added(a, c),
{
    assert(added(a, c) =~= added(a, b) + added(b, c));
    assert(c =~= a + added(a, c));
}

/// What is known of a controller before its card is brought up.
#[derive(Debug, Clone, Copy, PartialEq, Eq, Structural)]
pub struct SDCardInfoInternal {
    /// The capabilities register.
    pub capabilities: u64,
    /// The kernel virtual address of the controller's registers.
    pub base_address_register: u64,
}

/// An SD card that has been brought up.
#[derive(Debug, Clone, Copy, PartialEq, Eq, Structural)]
pub struct SDCardInfo {
    /// The controller.
    pub internal_info: SDCardInfoInternal,
    /// Bytes per block.
    pub block_size: usize,
    /// Number of blocks.
    pub total_blocks: u64,
    /// The relative card address, an argument of some commands.
    pub reletave_card_address: u32,
}

/// Errors of the SD card.
#[derive(Debug, Clone, Copy, PartialEq, Eq, Structural)]
pub enum SDCardError {
    /// A command was under way when a new one was to be sent.
    CommandInhibited,
    /// A command was stopped by an error that must be handled first.
    CommandStoppedDueToError,
    /// The card did not answer in time.
    SDTimeout,
    /// The clock frequency could not be set.
    FrequencyUnableToBeSet,
    /// No supported voltage.
    VoltageUnableToBeSet,
    /// Any other error.
    GenericSDError,
}

/// The errors a command exchange with the controller can end in: an
/// error status, a busy or stopped command line, or no answer in time.
pub open spec fn command_error(e: SDCardError) -> bool {
    ||| e == SDCardError::GenericSDError
    ||| e == SDCardError::CommandInhibited
    ||| e == SDCardError::CommandStoppedDueToError
    ||| e == SDCardError::SDTimeout
}

/// The response of a command.
#[derive(Debug, Clone, Copy, PartialEq, Eq, Structural)]
pub enum SDCommandResponse {
    /// No response.
    NoResponse,
    /// A 32-bit response.
    Response32Bits(u32),
    /// A 128-bit response, shifted left by the 8 CRC bits the register
    /// leaves out.
    Response128Bits(u128),
}

/// The response type of a command, which decides the response's shape and
/// the checks the controller makes.
#[derive(Debug, Clone, Copy, PartialEq, Eq, Structural)]
pub enum SDResponseTypes {
    R0,
    R2,
    R1,
    R1b,
    R3,
    R4,
    R5,
    R5b,
    R6,
    R7,
}

/// The shape of the response of a command of type `t`.
pub open spec fn response_shape_ok(t: SDResponseTypes, r: SDCommandResponse) -> bool {
    match t {
        SDResponseTypes::R2 => r is Response128Bits,
        SDResponseTypes::R0 | SDResponseTypes::R7 => r is NoResponse,
        _ => r is Response32Bits,
    }
}

/// Whether `d` is an SD host controller.
pub open spec fn is_sd_card(d: DeviceInfo) -> bool {
    &&& d.class_code == SD_CLASS_CODE
    &&& d.subclass == SD_SUB_CLASS
    &&& (d.programming_interface == SD_DMA_INTERFACE || d.programming_interface == SD_NO_DMA_INTERFACE)
}

/// Index of the first SD host controller among `devices`, if any.
pub fn find_sd_card(devices: &Vec<DeviceInfo>) -> (r: Option<usize>)
    ensures
        r matches Some(i) ==> i < devices@.len() && is_sd_card(devices@[i as int]) && forall|j: int|
            0 <= j < i ==> !is_sd_card(#[trigger] devices@[j]),
        r is None ==> forall|j: int| 0 <= j < devices@.len() ==> !is_sd_card(#[trigger] devices@[j]),
{
    let mut i: usize = 0;
    while i < devices.len()
        invariant
            i <= devices@.len(),
            forall|j: int| 0 <= j < i ==> !is_sd_card(#[trigger] devices@[j]),
        decreases devices@.len() - i,
    {
        let d = &devices[i];
        if d.class_code == SD_CLASS_CODE && d.subclass == SD_SUB_CLASS && (d.programming_interface
            == SD_DMA_INTERFACE || d.programming_interface == SD_NO_DMA_INTERFACE) {
            return Some(i);
        }
        i = i + 1;
    }
    None
}

/// The memory address in a base address register: its low byte cleared.
pub fn bar_address(bar: u32) -> (r: u64)
    ensures
        r == bar - bar % 256,
{
    assert(bar & 0xFFFF_FF00u32 == bar - bar % 256) by (bit_vector);
    (bar & 0xFFFF_FF00) as u64
}

/// The command register `c` with memory-space decoding turned off.
pub fn memory_space_off(c: PCICommand) -> (r: PCICommand)
    ensures
        r.0 == c.0 & !PCICommand::MEMORY_SPACE,
{
    PCICommand(c.0 & !PCICommand::MEMORY_SPACE)
}

/// The command register `c` with memory-space decoding and bus mastering
/// turned on.
pub fn memory_and_bus_master_on(c: PCICommand) -> (r: PCICommand)
    ensures
        r.0 == c.0 | PCICommand::MEMORY_SPACE | PCICommand::BUS_MASTER,
{
    PCICommand(c.0 | PCICommand::MEMORY_SPACE | PCICommand::BUS_MASTER)
}

/// Turns off memory-space decoding of the controller and reads the address
/// its registers live at, which the caller maps before bringing the card up.
pub fn sd_card_bar<A: PciConfigAccess>(access: &mut ConfigPort<A>, sd_card: &DeviceInfo) -> (r: u64)
    requires
        sd_card.device < 32,
    ensures
        r % 256 == 0,
        r < 0x1_0000_0000,
        ({
            let before = old(access).config_accesses();
            let after = final(access).config_accesses();
            let command = spec_pci_address(sd_card.bus, sd_card.device, 0, 4);
            let bar = spec_pci_address(sd_card.bus, sd_card.device, 0, 0x10);
            &&& after.len() == before.len() + 3
            &&& after == before.push(after[before.len() as int]).push(after[before.len() + 1int]).push(
                after[before.len() + 2int],
            )
            &&& after[before.len() as int] matches ConfigAccess::Read(a, d) && a == command
                && after[before.len() + 1int] == ConfigAccess::Write(
                command,
                ((d / 0x1_0000) * 0x1_0000 + (sd_card.command.0 & !PCICommand::MEMORY_SPACE)) as u32,
            )
            &&& after[before.len() + 2int] matches ConfigAccess::Read(a, w) && a == bar && r == w - w % 256
        }),
{
    let command = memory_space_off(sd_card.command);
    write_pci_command(access, sd_card.bus, sd_card.device, 0, command);
    let base_address_register = read_config(access, sd_card.bus, sd_card.device, 0, 0x10);
    bar_address(base_address_register)
}

/// Brings up the card of controller `sd_card` once its registers are
/// mapped at `base` and reachable through `host`: turns memory-space
/// decoding and bus mastering on, reads the capabilities and resets the
/// card.
pub fn initalize_sd_card<A: PciConfigAccess, H: SdHost>(
    access: &mut ConfigPort<A>,
    sd_card: &DeviceInfo,
    host: &mut SdRegisters<H>,
    base: u64,
) -> (r: Result<SDCardInfo, SDCardError>)
    requires
        sd_card.device < 32,
    ensures
        ({
            let before = old(access).config_accesses();
            let after = final(access).config_accesses();
            let address = spec_pci_address(sd_card.bus, sd_card.device, 0, 4);
            &&& after.len() == before.len() + 2
            &&& after == before.push(after[before.len() as int]).push(after[before.len() + 1int])
            &&& after[before.len() as int] matches ConfigAccess::Read(a, d) && a == address
                && after[before.len() + 1int] == ConfigAccess::Write(
                address,
                ((d / 0x1_0000) * 0x1_0000 + (sd_card.command.0 | PCICommand::MEMORY_SPACE
                    | PCICommand::BUS_MASTER)) as u32,
            )
        }),
        extends(old(host).accesses(), final(host).accesses()),
        added(old(host).accesses(), final(host).accesses()).len() >= 1,
        added(old(host).accesses(), final(host).accesses())[0] matches RegisterAccess::Read64(o, _) && o == 0x40,
        r matches Ok(info) ==> info.block_size == 512 && info.internal_info.base_address_register == base
            && info.total_blocks <= 0x1_0000_0000,
        r is Ok ==> exists|
            capabilities: u64,
            setup: Seq<RegisterAccess>,
            rs: Seq<SDCommandResponse>,
            segs: Seq<Seq<RegisterAccess>>,
        |
            #![trigger reset_exchanges(SDCardInfoInternal { capabilities, base_address_register: base }, rs, segs), extends(old(host).accesses(), setup)]
            {
                &&& added(old(host).accesses(), final(host).accesses())[0] == RegisterAccess::Read64(0x40, capabilities)
                &&& extends(old(host).accesses(), setup)
                &&& final(host).accesses() == setup + concat_all(segs)
                &&& rs.len() <= 13
                &&& spec_reset_step(SDCardInfoInternal { capabilities, base_address_register: base }, rs)
                    == ResetStep::Done(r)
                &&& reset_exchanges(SDCardInfoInternal { capabilities, base_address_register: base }, rs, segs)
            },
        r matches Err(e) ==> command_error(e) || e == SDCardError::VoltageUnableToBeSet,
{
    let command = memory_and_bus_master_on(sd_card.command);
    write_pci_command(access, sd_card.bus, sd_card.device, 0, command);
    let ghost start = host.accesses();
    let capabilities = host.read_u64(0x40);
    let ghost h1 = host.accesses();
    let info = SDCardInfoInternal { capabilities, base_address_register: base };
    let r = reset_sd_card(host, &info);
    proof {
        assert(host.accesses()[start.len() as int] == h1[start.len() as int]);
        assert(added(start, host.accesses())[0] == RegisterAccess::Read64(0x40, capabilities));
        if r is Ok {
            let (setup, rs, segs) = choose|
                setup: Seq<RegisterAccess>,
                rs: Seq<SDCommandResponse>,
                segs: Seq<Seq<RegisterAccess>>,
            |
                #![trigger reset_exchanges(info, rs, segs), extends(h1, setup)]
                {
                    &&& extends(h1, setup)
                    &&& host.accesses() == setup + concat_all(segs)
                    &&& rs.len() <= 13
                    &&& spec_reset_step(info, rs) == ResetStep::Done(r)
                    &&& reset_exchanges(info, rs, segs)
                };
            assert(extends(start, setup));
            assert(reset_exchanges(SDCardInfoInternal { capabilities, base_address_register: base }, rs, segs));
        }
    }
    r
}

/// Sends a software reset and waits for the controller to clear it.
pub fn software_reset_sd_card<H: SdHost>(host: &mut SdRegisters<H>) -> (r: Result<(), SDCardError>)
    ensures
        extends(old(host).accesses(), final(host).accesses()),
        r is Err ==> r == Err::<(), SDCardError>(SDCardError::SDTimeout),
{
    host.write_u8(0x2f, 1);
    let mut i: usize = 0;
    while i < MAX_ITERATIONS
        invariant
            i <= MAX_ITERATIONS,
            extends(old(host).accesses(), host.accesses()),
        decreases MAX_ITERATIONS - i,
    {
        let reset_taken = host.read_u8(0x2f);
        if reset_taken & 1 == 0 {
            return Ok(());
        }
        i = i + 1;
    }
    Err(SDCardError::SDTimeout)
}

/// Whether the error-interrupt status `error_state` lets work go on.
pub fn error_state_ok(error_state: u16) -> (r: Result<(), SDCardError>)
    ensures
        error_state == 0 <==> r is Ok,
        r is Err ==> r == Err::<(), SDCardError>(SDCardError::GenericSDError),
{
    if error_state != 0 {
        return Err(SDCardError::GenericSDError);
    }
    Ok(())
}

/// Fails when the error-interrupt status register shows an error.
pub fn check_no_errors<H: SdHost>(host: &mut SdRegisters<H>) -> (r: Result<(), SDCardError>)
    ensures
        final(host).accesses().len() == old(host).accesses().len() + 1,
        final(host).accesses() == old(host).accesses().push(final(host).accesses().last()),
        final(host).accesses().last() matches RegisterAccess::Read16(o, e) && o == 0x32 && (e == 0 <==> r is Ok),
        r is Err ==> r == Err::<(), SDCardError>(SDCardError::GenericSDError),
{
    let error_state = host.read_u16(0x32);
    error_state_ok(error_state)
}

/// Whether present state `present_state` lets a command be sent: not while
/// a command or data transfer holds the lines, and not when the state
/// reports that a command was not issued because of an error.
pub fn present_state_ok(present_state: u32) -> (r: Result<(), SDCardError>)
    ensures
        present_state & (PRESENT_COMMAND_INHIBIT_CMD | PRESENT_COMMAND_INHIBIT_DATA) != 0 ==> r == Err::<
            (),
            SDCardError,
        >(SDCardError::CommandInhibited),
        present_state & (PRESENT_COMMAND_INHIBIT_CMD | PRESENT_COMMAND_INHIBIT_DATA) == 0 && present_state
            & PRESENT_COMMAND_NOT_ISSUED_ERROR != 0 ==> r == Err::<(), SDCardError>(
            SDCardError::CommandStoppedDueToError,
        ),
        present_state & (PRESENT_COMMAND_INHIBIT_CMD | PRESENT_COMMAND_INHIBIT_DATA) == 0 && present_state
            & PRESENT_COMMAND_NOT_ISSUED_ERROR == 0 ==> r is Ok,
{
    if present_state & (PRESENT_COMMAND_INHIBIT_CMD | PRESENT_COMMAND_INHIBIT_DATA) != 0 {
        return Err(SDCardError::CommandInhibited);
    }
    if present_state & PRESENT_COMMAND_NOT_ISSUED_ERROR != 0 {
        return Err(SDCardError::CommandStoppedDueToError);
    }
    Ok(())
}

/// Whether present state `ps` lets a command be sent.
pub open spec fn state_free(ps: u32) -> bool {
    &&& ps & (PRESENT_COMMAND_INHIBIT_CMD | PRESENT_COMMAND_INHIBIT_DATA) == 0
    &&& ps & PRESENT_COMMAND_NOT_ISSUED_ERROR == 0
}

/// The accesses of a check that found the command line free: the error
/// status read as zero, then a present state that lets a command be sent.
pub open spec fn command_line_free(seg: Seq<RegisterAccess>) -> bool {
    &&& seg.len() == 2
    &&& seg[0] == RegisterAccess::Read16(0x32, 0)
    &&& seg[1] matches RegisterAccess::Read32(o, ps) && o == 0x24 && state_free(ps)
}

/// The accesses of a check that refused a command: an error status other
/// than zero, or a zero one and then a present state that does not let a
/// command be sent.
pub open spec fn command_line_refused(seg: Seq<RegisterAccess>) -> bool {
    ||| seg.len() == 1 && (seg[0] matches RegisterAccess::Read16(o, e) && o == 0x32 && e != 0)
    ||| {
        &&& seg.len() == 2
        &&& seg[0] == RegisterAccess::Read16(0x32, 0)
        &&& seg[1] matches RegisterAccess::Read32(o, ps) && o == 0x24 && !state_free(ps)
    }
}

/// Fails unless a command may be sent now.
pub fn sending_command_valid<H: SdHost>(host: &mut SdRegisters<H>) -> (r: Result<(), SDCardError>)
    ensures
        extends(old(host).accesses(), final(host).accesses()),
        r is Ok ==> command_line_free(added(old(host).accesses(), final(host).accesses())),
        r is Err ==> command_line_refused(added(old(host).accesses(), final(host).accesses())),
        r is Err ==> (r == Err::<(), SDCardError>(SDCardError::GenericSDError) || r == Err::<(), SDCardError>(
            SDCardError::CommandInhibited,
        ) || r == Err::<(), SDCardError>(SDCardError::CommandStoppedDueToError)),
{
    let ghost start = host.accesses();
    let checked = check_no_errors(host);
    if checked.is_err() {
        proof {
            assert(added(start, host.accesses()) =~= seq![host.accesses().last()]);
        }
        return checked;
    }
    let present_state = host.read_u32(0x24);
    let r = present_state_ok(present_state);
    proof {
        assert(added(start, host.accesses()) =~= seq![
            host.accesses()[start.len() as int],
            RegisterAccess::Read32(0x24, present_state),
        ]);
    }
    r
}

/// Enables the normal and error interrupt status bits and signals.
pub fn enable_sd_card_interrupts<H: SdHost>(host: &mut SdRegisters<H>) -> (r: Result<(), SDCardError>)
    ensures
        extends(old(host).accesses(), final(host).accesses()),
        r matches Err(e) ==> command_error(e),
{
    host.write_u16(0x34, 0x1FF);
    sending_command_valid(host)?;
    host.write_u16(0x36, 0x0FB);
    sending_command_valid(host)?;
    host.write_u16(0x38, 0x1FF);
    sending_command_valid(host)?;
    host.write_u16(0x3A, 0x0FB);
    sending_command_valid(host)?;
    Ok(())
}

/// The power-control value for the highest voltage the capabilities offer:
/// 3.3 V, else 1.8 V, else 3.0 V; `VoltageUnableToBeSet` without any.
pub fn power_control_for(capabilities: u64) -> (r: Result<u8, SDCardError>)
    ensures
        capabilities & CAP_VOLTAGE_3_3 != 0 ==> r == Ok::<u8, SDCardError>(0xE),
        capabilities & CAP_VOLTAGE_3_3 == 0 && capabilities & CAP_VOLTAGE_1_8 != 0 ==> r == Ok::<u8, SDCardError>(
            0xA,
        ),
        capabilities & CAP_VOLTAGE_3_3 == 0 && capabilities & CAP_VOLTAGE_1_8 == 0 && capabilities
            & CAP_VOLTAGE_3_0 != 0 ==> r == Ok::<u8, SDCardError>(0xC),
        capabilities & (CAP_VOLTAGE_3_3 | CAP_VOLTAGE_1_8 | CAP_VOLTAGE_3_0) == 0 ==> r == Err::<u8, SDCardError>(
            SDCardError::VoltageUnableToBeSet,
        ),
        r is Err <==> capabilities & (CAP_VOLTAGE_3_3 | CAP_VOLTAGE_1_8 | CAP_VOLTAGE_3_0) == 0,
{
    assert(capabilities & (CAP_VOLTAGE_3_3 | CAP_VOLTAGE_1_8 | CAP_VOLTAGE_3_0) == 0 <==> (capabilities
        & CAP_VOLTAGE_3_3 == 0 && capabilities & CAP_VOLTAGE_1_8 == 0 && capabilities & CAP_VOLTAGE_3_0
        == 0)) by (bit_vector);
    if capabilities & CAP_VOLTAGE_3_3 != 0 {
        Ok(0xE)
    } else if capabilities & CAP_VOLTAGE_1_8 != 0 {
        Ok(0xA)
    } else if capabilities & CAP_VOLTAGE_3_0 != 0 {
        Ok(0xC)
    } else {
        Err(SDCardError::VoltageUnableToBeSet)
    }
}

/// Turns the card's power off, selects the voltage and turns it on again.
pub fn power_on_sd_card<H: SdHost>(host: &mut SdRegisters<H>, sd_card: &SDCardInfoInternal) -> (r: Result<(), SDCardError>)
    ensures
        extends(old(host).accesses(), final(host).accesses()),
        sd_card.capabilities & (CAP_VOLTAGE_3_3 | CAP_VOLTAGE_1_8 | CAP_VOLTAGE_3_0) == 0 <==> r is Err,
        r is Err ==> r == Err::<(), SDCardError>(SDCardError::VoltageUnableToBeSet),
{
    host.write_u8(0x29, 0);
    let power_control = power_control_for(sd_card.capabilities)?;
    host.write_u8(0x29, power_control);
    host.write_u8(0x29, power_control | 1);
    Ok(())
}

/// The clock-control register with the SD clock stopped.
pub fn clock_stopped(reg: u16) -> (r: u16)
    ensures
        r == reg & 0xFFFE,
{
    reg & 0xFFFE
}

/// The clock-control register with the divisor set to 0x80.
pub fn clock_divided(reg: u16) -> (r: u16)
    ensures
        r == (reg & 0x00FF) | 0x8000,
{
    (reg & 0x00FF) | 0x8000
}

/// Whether the clock-control register says the internal clock is stable.
pub fn clock_stable(reg: u16) -> (r: bool)
    ensures
        r == (reg & 0b10 != 0),
{
    reg & 0b10 != 0
}

/// Stops the SD clock, sets its divisor, starts the internal clock, waits
/// for it to be stable and then starts the SD clock.
pub fn set_sd_clock<H: SdHost>(host: &mut SdRegisters<H>) -> (r: Result<(), SDCardError>)
    ensures
        extends(old(host).accesses(), final(host).accesses()),
        r is Err ==> r == Err::<(), SDCardError>(SDCardError::SDTimeout),
{
    let mut clock_ctrl_reg = host.read_u16(0x2c);
    clock_ctrl_reg = clock_stopped(clock_ctrl_reg);
    host.write_u16(0x2c, clock_ctrl_reg);
    clock_ctrl_reg = clock_divided(clock_ctrl_reg);
    host.write_u16(0x2c, clock_ctrl_reg);
    clock_ctrl_reg = clock_ctrl_reg | 1;
    host.write_u16(0x2c, clock_ctrl_reg);
    let mut finished = false;
    let mut i: usize = 0;
    while i < MAX_ITERATIONS && !finished
        invariant
            i <= MAX_ITERATIONS,
            extends(old(host).accesses(), host.accesses()),
        decreases MAX_ITERATIONS - i + (if finished { 0int } else { 1int }),
    {
        let clock_taken = host.read_u16(0x2c);
        if clock_stable(clock_taken) {
            finished = true;
        } else {
            i = i + 1;
        }
    }
    if !finished {
        return Err(SDCardError::SDTimeout);
    }
    clock_ctrl_reg = clock_ctrl_reg | 0b110;
    host.write_u16(0x2c, clock_ctrl_reg);
    Ok(())
}

/// Sets the data timeout to its longest.
pub fn enable_timeouts<H: SdHost>(host: &mut SdRegisters<H>) -> (r: Result<(), SDCardError>)
    ensures
        extends(old(host).accesses(), final(host).accesses()),
        r matches Err(e) ==> command_error(e),
{
    host.write_u8(0x2e, 0b1110);
    sending_command_valid(host)?;
    Ok(())
}

proof fn lemma_command_bits(idx: u16, base: u16, low: u16, flags: u16, checks: u16)
    by (bit_vector)
    requires
        idx < 64,
        base == idx * 256,
        low < 4,
        flags == 0 || flags == 0x20,
        checks == 0 || checks == 8 || checks == 0x18,
    ensures
        base | low | flags | 0 == base | low | flags,
        base | 0 | flags | 0 == base | flags,
        base | low | flags | 0x10 | 0x8 == base | low | flags | 0x18,
        (base | low | flags | checks) / 256 == idx,
        (base | low | flags | checks) & 3 == low,
        (base | low | flags | checks) & 0x20 == flags,
        (base | low | flags | checks) & 0x18 == checks,
        (base | low | flags | checks) & 0xC4 == 0,
        ((base | low | flags | checks) & 0x10 != 0) == (checks == 0x18),
        ((base | low | flags | checks) & 0x8 != 0) == (checks != 0),
{
}

/// The command register value, bit by bit: the command index in the high
/// byte; the response length in the two low bits (none for R0, 136 bits
/// for R2, 48 bits with busy for R1b and R5b, 48 bits otherwise); the index
/// check for R1, R1b, R5, R5b, R6 and R7; the CRC check for those and R2;
/// the data-present flag as given.
pub proof fn lemma_command_value(command_idx: u8, t: SDResponseTypes, flags: u16)
    requires
        command_idx < 64,
        flags == 0 || flags == CMD_DATA_PRESENT_SELECT,
    ensures
        ({
            let v = spec_command_value(command_idx, t, flags);
            let len: u16 = match t {
                SDResponseTypes::R0 => 0,
                SDResponseTypes::R2 => 1,
                SDResponseTypes::R1b | SDResponseTypes::R5b => 3,
                _ => 2,
            };
            let index_check = match t {
                SDResponseTypes::R1 | SDResponseTypes::R1b | SDResponseTypes::R5 | SDResponseTypes::R5b
                | SDResponseTypes::R6 | SDResponseTypes::R7 => true,
                _ => false,
            };
            let crc_check = index_check || t == SDResponseTypes::R2;
            &&& v / 256 == command_idx
            &&& v & 3 == len
            &&& v & CMD_DATA_PRESENT_SELECT == flags
            &&& (v & CMD_INDEX_CHECK_ENABLE != 0) == index_check
            &&& (v & CMD_CRC_CHECK_ENABLE != 0) == crc_check
            &&& v & 0xC4 == 0
        }),
{
    let idx = command_idx as u16;
    let base = ((command_idx as u16) * 256) as u16;
    match t {
        SDResponseTypes::R2 => {
            lemma_command_bits(idx, base, 1, flags, 8);
            assert(spec_command_value(command_idx, t, flags) == base | 1 | flags | 8);
        },
        SDResponseTypes::R3 | SDResponseTypes::R4 => {
            lemma_command_bits(idx, base, 2, flags, 0);
            assert(spec_command_value(command_idx, t, flags) == base | 2 | flags);
        },
        SDResponseTypes::R1 | SDResponseTypes::R5 | SDResponseTypes::R7 | SDResponseTypes::R6 => {
            lemma_command_bits(idx, base, 2, flags, 0x18);
            assert(spec_command_value(command_idx, t, flags) == base | 2 | flags | 0x18);
        },
        SDResponseTypes::R1b | SDResponseTypes::R5b => {
            lemma_command_bits(idx, base, 3, flags, 0x18);
            assert(spec_command_value(command_idx, t, flags) == base | 3 | flags | 0x18);
        },
        SDResponseTypes::R0 => {
            lemma_command_bits(idx, base, 0, flags, 0);
            assert(spec_command_value(command_idx, t, flags) == base | flags);
        },
    }
}

/// The command register value for command `command_idx` with response
/// type `t` and extra flags `flags`: the index in the high byte, the
/// response length in the low bits, and the index and CRC checks the type
/// calls for.
pub open spec fn spec_command_value(command_idx: u8, t: SDResponseTypes, flags: u16) -> u16 {
    let base = ((command_idx as u16) * 256) as u16;
    match t {
        SDResponseTypes::R2 => (base | 1 | flags | CMD_CRC_CHECK_ENABLE) as u16,
        SDResponseTypes::R3 | SDResponseTypes::R4 => (base | 2 | flags) as u16,
        SDResponseTypes::R1 | SDResponseTypes::R5 | SDResponseTypes::R7 | SDResponseTypes::R6 => (base | 2
            | flags | CMD_INDEX_CHECK_ENABLE | CMD_CRC_CHECK_ENABLE) as u16,
        SDResponseTypes::R1b | SDResponseTypes::R5b => (base | 3 | flags | CMD_INDEX_CHECK_ENABLE
            | CMD_CRC_CHECK_ENABLE) as u16,
        SDResponseTypes::R0 => (base | flags) as u16,
    }
}

/// The command register value, as `spec_command_value` says.
pub fn command_value(command_idx: u8, response_type: SDResponseTypes, flags: u16) -> (r: u16)
    requires
        command_idx < 64,
    ensures
        r == spec_command_value(command_idx, response_type, flags),
{
    let mut command: u16 = command_idx as u16;
    assert((command_idx as u16) << 8u16 == ((command_idx as u16) * 256) as u16) by (bit_vector)
        requires
            command_idx < 64,
    ;
    command = command << 8u16;
    let mut myflags = flags;
    match response_type {
        SDResponseTypes::R2 => {
            command = command | 0b01;
            myflags = myflags | CMD_CRC_CHECK_ENABLE;
        },
        SDResponseTypes::R3 | SDResponseTypes::R4 => {
            command = command | 0b10;
        },
        SDResponseTypes::R1 | SDResponseTypes::R5 | SDResponseTypes::R7 | SDResponseTypes::R6 => {
            command = command | 0b10;
            myflags = myflags | CMD_INDEX_CHECK_ENABLE | CMD_CRC_CHECK_ENABLE;
        },
        SDResponseTypes::R1b | SDResponseTypes::R5b => {
            command = command | 0b11;
            myflags = myflags | CMD_INDEX_CHECK_ENABLE | CMD_CRC_CHECK_ENABLE;
        },
        SDResponseTypes::R0 => {},
    }
    let r = command | myflags;
    proof {
        let b = ((command_idx as u16) * 256) as u16;
        let f = flags;
        assert(b | 1 | (f | 8) == b | 1 | f | 8) by (bit_vector);
        assert(b | 2 | (f | 16 | 8) == b | 2 | f | 16 | 8) by (bit_vector);
        assert(b | 3 | (f | 16 | 8) == b | 3 | f | 16 | 8) by (bit_vector);
    }
    r
}

/// The 128-bit response held in four 32-bit response registers, lowest
/// first, shifted left by 8 bits.
pub open spec fn spec_r2_response(r0: u32, r1: u32, r2: u32, r3: u32) -> u128 {
    ((r0 + r1 * 0x1_0000_0000int + r2 * 0x1_0000_0000_0000_0000int + r3 * 0x1_0000_0000_0000_0000_0000_0000int) as u128)
        << 8u128
}

/// Assembles a 128-bit response, as `spec_r2_response` says.
pub fn r2_response(r0: u32, r1: u32, r2: u32, r3: u32) -> (r: u128)
    ensures
        r == spec_r2_response(r0, r1, r2, r3),
{
    let a = r0 as u128;
    let b = r1 as u128;
    let c = r2 as u128;
    let d = r3 as u128;
    let mut response: u128 = 0;
    response = response | a;
    response = response | (b << 32u128);
    response = response | (c << 64u128);
    response = response | (d << 96u128);
    let shifted = response << 8u128;
    assert((((0u128 | a) | (b << 32u128)) | (c << 64u128)) | (d << 96u128) == a + b * 0x1_0000_0000 + c
        * 0x1_0000_0000_0000_0000 + d * 0x1_0000_0000_0000_0000_0000_0000) by (bit_vector)
        requires
            a < 0x1_0000_0000,
            b < 0x1_0000_0000,
            c < 0x1_0000_0000,
            d < 0x1_0000_0000,
    ;
    shifted
}

/// Whether `seg` are the reads of the response registers that gave
/// response `resp` of type `t`: the four response words for R2, the first
/// one for the other types with a response, none for R0 and R7.
pub open spec fn response_read(t: SDResponseTypes, resp: SDCommandResponse, seg: Seq<RegisterAccess>) -> bool {
    match t {
        SDResponseTypes::R0 | SDResponseTypes::R7 => seg.len() == 0 && resp == SDCommandResponse::NoResponse,
        SDResponseTypes::R2 => {
            &&& seg.len() == 4
            &&& seg[0] matches RegisterAccess::Read32(o0, r0) && o0 == 0x10
            &&& seg[1] matches RegisterAccess::Read32(o1, r1) && o1 == 0x14
            &&& seg[2] matches RegisterAccess::Read32(o2, r2) && o2 == 0x18
            &&& seg[3] matches RegisterAccess::Read32(o3, r3) && o3 == 0x1C
            &&& resp == SDCommandResponse::Response128Bits(
                spec_r2_response(word_read(seg), word_read(seg.skip(1)), word_read(seg.skip(2)), word_read(seg.skip(3))),
            )
        },
        _ => seg.len() == 1 && (seg[0] matches RegisterAccess::Read32(o, v) && o == 0x10)
            && resp == SDCommandResponse::Response32Bits(word_read(seg)),
    }
}

/// Reads the response registers as response type `response_type` says.
pub fn determine_sd_card_response<H: SdHost>(host: &mut SdRegisters<H>, response_type: SDResponseTypes) -> (r: SDCommandResponse)
    ensures
        extends(old(host).accesses(), final(host).accesses()),
        response_type == SDResponseTypes::R0 || response_type == SDResponseTypes::R7 ==> r
            == SDCommandResponse::NoResponse,
        response_type == SDResponseTypes::R2 ==> r is Response128Bits,
        response_shape_ok(response_type, r),
        response_read(response_type, r, added(old(host).accesses(), final(host).accesses())),
{
    let ghost start = host.accesses();
    match response_type {
        SDResponseTypes::R1b
        | SDResponseTypes::R1
        | SDResponseTypes::R3
        | SDResponseTypes::R4
        | SDResponseTypes::R5b
        | SDResponseTypes::R5
        | SDResponseTypes::R6 => {
            let response = host.read_u32(0x10);
            proof {
                assert(added(start, host.accesses()) =~= seq![RegisterAccess::Read32(0x10, response)]);
            }
            SDCommandResponse::Response32Bits(response)
        },
        SDResponseTypes::R2 => {
            let r0 = host.read_u32(0x10);
            let r1 = host.read_u32(0x14);
            let r2 = host.read_u32(0x18);
            let r3 = host.read_u32(0x1C);
            proof {
                let seg = added(start, host.accesses());
                assert(seg =~= seq![
                    RegisterAccess::Read32(0x10, r0),
                    RegisterAccess::Read32(0x14, r1),
                    RegisterAccess::Read32(0x18, r2),
                    RegisterAccess::Read32(0x1C, r3),
                ]);
                assert(word_read(seg.skip(1)) == r1);
                assert(word_read(seg.skip(2)) == r2);
                assert(word_read(seg.skip(3)) == r3);
            }
            SDCommandResponse::Response128Bits(r2_response(r0, r1, r2, r3))
        },
        _ => {
            proof {
                assert(added(start, host.accesses()) =~= Seq::<RegisterAccess>::empty());
            }
            SDCommandResponse::NoResponse
        },
    }
}

/// The accesses of a command that was sent: two checks that found the
/// command line free, then the write of `command` to the command register,
/// then the rest of the exchange.
pub open spec fn command_issued(seg: Seq<RegisterAccess>, command: u16) -> bool {
    &&& seg.len() >= 5
    &&& command_line_free(seg.take(2))
    &&& command_line_free(seg.subrange(2, 4))
    &&& seg[4] == RegisterAccess::Write16(0xE, command)
}

/// The accesses of a command exchange that ended with response `resp` of
/// type `t`: the completion acknowledged, then the response read.
pub open spec fn command_answered(seg: Seq<RegisterAccess>, t: SDResponseTypes, resp: SDCommandResponse) -> bool {
    exists|k: int|
        5 < k <= seg.len() && seg[k - 1] == RegisterAccess::Write16(0x30, 1) && response_read(
            t,
            resp,
            #[trigger] seg.skip(k),
        )
}

/// Two free checks and the command write, followed by anything, make a
/// command that was sent.
proof fn lemma_command_issued(
    start: Seq<RegisterAccess>,
    h1: Seq<RegisterAccess>,
    h2: Seq<RegisterAccess>,
    h3: Seq<RegisterAccess>,
    fin: Seq<RegisterAccess>,
    command: u16,
)
    requires
        extends(start, h1),
        command_line_free(added(start, h1)),
        extends(h1, h2),
        command_line_free(added(h1, h2)),
        h3 == h2.push(RegisterAccess::Write16(0xE, command)),
        extends(h3, fin),
    ensures
        extends(start, fin),
        command_issued(added(start, fin), command),
{
    let seg = added(start, fin);
    assert(seg.take(2) =~= added(start, h1));
    assert(seg.subrange(2, 4) =~= added(h1, h2));
    assert(seg[4] == h3[start.len() + 4int]);
}

/// Sends command `command_idx` and waits for it to complete; returns its
/// response, shaped as its response type says.
pub fn send_sd_command<H: SdHost>(
    host: &mut SdRegisters<H>,
    command_idx: u8,
    response_type: SDResponseTypes,
    flags: u16,
) -> (r: Result<SDCommandResponse, SDCardError>)
    requires
        command_idx < 64,
    ensures
        extends(old(host).accesses(), final(host).accesses()),
        r is Ok ==> command_issued(
            added(old(host).accesses(), final(host).accesses()),
            spec_command_value(command_idx, response_type, flags),
        ),
        r matches Ok(resp) ==> response_shape_ok(response_type, resp),
        r matches Ok(resp) ==> command_answered(
            added(old(host).accesses(), final(host).accesses()),
            response_type,
            resp,
        ),
        r matches Err(e) ==> command_error(e),
{
    let ghost start = host.accesses();
    sending_command_valid(host)?;
    let ghost h1 = host.accesses();
    let command = command_value(command_idx, response_type, flags);
    sending_command_valid(host)?;
    let ghost h2 = host.accesses();
    host.write_u16(0xE, command);
    let ghost h3 = host.accesses();
    check_no_errors(host)?;
    let mut i: usize = 0;
    while i < MAX_ITERATIONS
        invariant
            i <= MAX_ITERATIONS,
            extends(start, h1),
            command_line_free(added(start, h1)),
            extends(h1, h2),
            command_line_free(added(h1, h2)),
            h3 == h2.push(RegisterAccess::Write16(0xE, command)),
            command == spec_command_value(command_idx, response_type, flags),
            extends(h3, host.accesses()),
            start == old(host).accesses(),
        decreases MAX_ITERATIONS - i,
    {
        let command_done = host.read_u16(0x30);
        if (command_done & 1) == 1 {
            host.write_u16(0x30, 1);
            let ghost h4 = host.accesses();
            let resp = determine_sd_card_response(host, response_type);
            proof {
                lemma_command_issued(start, h1, h2, h3, host.accesses(), command);
                let seg = added(start, host.accesses());
                let k = h4.len() - start.len();
                assert(h4.len() >= h3.len() + 1);
                assert(seg.skip(k) =~= added(h4, host.accesses()));
                assert(seg[k - 1] == h4[h4.len() - 1]);
                assert(response_read(response_type, resp, seg.skip(k)));
            }
            return Ok(resp);
        }
        i = i + 1;
    }
    check_no_errors(host)?;
    Err(SDCardError::SDTimeout)
}

/// The card of controller `sd_card` with relative address `rca` whose
/// card-specific data register of structure version 2 is `csd`: blocks of
/// 512 bytes, 1024 of them for each of the C_SIZE + 1 units of 512 KiB the
/// card holds.
pub open spec fn spec_card_info(sd_card: SDCardInfoInternal, rca: u32, csd: u128) -> SDCardInfo {
    SDCardInfo {
        internal_info: sd_card,
        block_size: 512,
        total_blocks: (((csd / 0x1_0000_0000_0000) % 0x40_0000 + 1) * 1024) as u64,
        reletave_card_address: rca,
    }
}

/// The card described by a card-specific data register `csd` of structure
/// version 2 (SDHC and SDXC): blocks of 512 bytes, 1024 of them for each
/// of the C_SIZE + 1 units of 512 KiB the card holds.
pub fn get_full_sd_card_info(sd_card: &SDCardInfoInternal, rca: u32, csd: u128) -> (r: Result<
    SDCardInfo,
    SDCardError,
>)
    requires
        csd / 0x4000_0000_0000_0000_0000_0000_0000_0000 == 1,
    ensures
        r == Ok::<SDCardInfo, SDCardError>(spec_card_info(*sd_card, rca, csd)),
{
    assert((csd >> 48u128) & 0x3F_FFFFu128 == (csd / 0x1_0000_0000_0000) % 0x40_0000) by (bit_vector);
    let c_size: u64 = ((csd >> 48u128) & 0x3F_FFFF) as u64;
    Ok(SDCardInfo {
        internal_info: *sd_card,
        reletave_card_address: rca,
        block_size: SD_BLOCK_SIZE as usize,
        total_blocks: (c_size + 1) * 1024,
    })
}

/// The version of the card-specific data structure in `csd`.
pub fn csd_structure(csd: u128) -> (r: u128)
    ensures
        r == csd / 0x4000_0000_0000_0000_0000_0000_0000_0000,
{
    assert(csd >> 126u128 == csd / 0x4000_0000_0000_0000_0000_0000_0000_0000) by (bit_vector);
    csd >> 126u128
}

/// What the protocol that brings a card up does next.
#[derive(Debug, Clone, Copy)]
pub enum ResetStep {
    /// Put `argument` in the argument register and send command `index`,
    /// whose response has type `response_type`.
    Send { argument: u32, index: u8, response_type: SDResponseTypes },
    /// The protocol is over, with this result.
    Done(Result<SDCardInfo, SDCardError>),
}

/// Sending `argument` with command `index` of response type `t`.
pub open spec fn send_step(argument: u32, index: u8, t: SDResponseTypes) -> ResetStep {
    ResetStep::Send { argument, index, response_type: t }
}

/// The next step of the protocol that brings a version 2 card of controller
/// `sd_card` from idle to the transfer state, once the commands sent so far
/// answered `rs`: CMD0, CMD8 (argument 0x1AA), CMD55 and ACMD41; then again
/// CMD0, CMD8 and CMD55, and ACMD41 with the low byte of the first answer
/// and the high-capacity bit; CMD2; CMD3, whose answer is the relative
/// address; CMD9 with that address for the card-specific data; CMD13 and
/// CMD7 with that address. `GenericSDError` when an answer has not the
/// expected shape or the card-specific data is not of version 2.
pub open spec fn spec_reset_step(sd_card: SDCardInfoInternal, rs: Seq<SDCommandResponse>) -> ResetStep {
    let n = rs.len();
    if n == 0 {
        send_step(0, 0, SDResponseTypes::R0)
    } else if n == 1 {
        send_step(0x1aa, 8, SDResponseTypes::R7)
    } else if n == 2 {
        send_step(0, 55, SDResponseTypes::R1)
    } else if n == 3 {
        send_step(0, 41, SDResponseTypes::R3)
    } else if !(rs[3] is Response32Bits) {
        ResetStep::Done(Err(SDCardError::GenericSDError))
    } else if n == 4 {
        send_step(0, 0, SDResponseTypes::R0)
    } else if n == 5 {
        send_step(0x1aa, 8, SDResponseTypes::R7)
    } else if n == 6 {
        send_step(0, 55, SDResponseTypes::R1)
    } else if n == 7 {
        send_step((rs[3]->Response32Bits_0 & 0xFF) | 0x40_0000, 41, SDResponseTypes::R3)
    } else if n == 8 {
        send_step(0, 2, SDResponseTypes::R2)
    } else if n == 9 {
        send_step(0, 3, SDResponseTypes::R6)
    } else if !(rs[9] is Response32Bits) {
        ResetStep::Done(Err(SDCardError::GenericSDError))
    } else if n == 10 {
        send_step(rs[9]->Response32Bits_0, 9, SDResponseTypes::R2)
    } else if rs[10] is Response128Bits && rs[10]->Response128Bits_0 / 0x4000_0000_0000_0000_0000_0000_0000_0000
        != 1 {
        ResetStep::Done(Err(SDCardError::GenericSDError))
    } else if n == 11 {
        send_step(rs[9]->Response32Bits_0, 13, SDResponseTypes::R1)
    } else if n == 12 {
        send_step(rs[9]->Response32Bits_0, 7, SDResponseTypes::R1b)
    } else {
        ResetStep::Done(
            match rs[10] {
                SDCommandResponse::Response128Bits(csd) => Ok(spec_card_info(sd_card, rs[9]->Response32Bits_0, csd)),
                _ => Err(SDCardError::GenericSDError),
            },
        )
    }
}

/// The next step of bringing a card up, as `spec_reset_step` says.
pub fn reset_step(sd_card: &SDCardInfoInternal, rs: &Vec<SDCommandResponse>) -> (r: ResetStep)
    requires
        rs@.len() <= 13,
    ensures
        r == spec_reset_step(*sd_card, rs@),
        r matches ResetStep::Send { index, .. } ==> index < 64 && rs@.len() < 13,
        r matches ResetStep::Done(Ok(info)) ==> info.internal_info == *sd_card && info.block_size == 512
            && info.total_blocks <= 0x1_0000_0000,
{
    let n = rs.len();
    if n == 0 {
        return ResetStep::Send { argument: 0, index: 0, response_type: SDResponseTypes::R0 };
    }
    if n == 1 {
        return ResetStep::Send { argument: 0x1aa, index: 8, response_type: SDResponseTypes::R7 };
    }
    if n == 2 {
        return ResetStep::Send { argument: 0, index: 55, response_type: SDResponseTypes::R1 };
    }
    if n == 3 {
        return ResetStep::Send { argument: 0, index: 41, response_type: SDResponseTypes::R3 };
    }
    let acmd_response = match rs[3] {
        SDCommandResponse::Response32Bits(v) => v,
        _ => {
            return ResetStep::Done(Err(SDCardError::GenericSDError));
        },
    };
    if n == 4 {
        return ResetStep::Send { argument: 0, index: 0, response_type: SDResponseTypes::R0 };
    }
    if n == 5 {
        return ResetStep::Send { argument: 0x1aa, index: 8, response_type: SDResponseTypes::R7 };
    }
    if n == 6 {
        return ResetStep::Send { argument: 0, index: 55, response_type: SDResponseTypes::R1 };
    }
    if n == 7 {
        return ResetStep::Send {
            argument: (acmd_response & 0xFF) | 0x40_0000,
            index: 41,
            response_type: SDResponseTypes::R3,
        };
    }
    if n == 8 {
        return ResetStep::Send { argument: 0, index: 2, response_type: SDResponseTypes::R2 };
    }
    if n == 9 {
        return ResetStep::Send { argument: 0, index: 3, response_type: SDResponseTypes::R6 };
    }
    let rca = match rs[9] {
        SDCommandResponse::Response32Bits(v) => v,
        _ => {
            return ResetStep::Done(Err(SDCardError::GenericSDError));
        },
    };
    if n == 10 {
        return ResetStep::Send { argument: rca, index: 9, response_type: SDResponseTypes::R2 };
    }
    let mut result = Err(SDCardError::GenericSDError);
    match rs[10] {
        SDCommandResponse::Response128Bits(csd) => {
            if csd_structure(csd) != 1 {
                return ResetStep::Done(Err(SDCardError::GenericSDError));
            }
            result = get_full_sd_card_info(sd_card, rca, csd);
            proof {
                let c = (csd / 0x1_0000_0000_0000) % 0x40_0000;
                assert((c + 1) * 1024 <= 0x1_0000_0000) by (nonlinear_arith)
                    requires
                        0 <= c < 0x40_0000,
                ;
            }
        },
        _ => {},
    }
    if n == 11 {
        return ResetStep::Send { argument: rca, index: 13, response_type: SDResponseTypes::R1 };
    }
    if n == 12 {
        return ResetStep::Send { argument: rca, index: 7, response_type: SDResponseTypes::R1b };
    }
    ResetStep::Done(result)
}

/// Whether `segs` are the accesses of the command exchanges that bring the
/// card of `sd_card` up, `rs` being the responses: exchange `k` puts the
/// argument of step `k` in the argument register, then sends the step's
/// command, which was answered with `rs[k]`.
pub open spec fn reset_exchanges(
    sd_card: SDCardInfoInternal,
    rs: Seq<SDCommandResponse>,
    segs: Seq<Seq<RegisterAccess>>,
) -> bool {
    &&& segs.len() == rs.len()
    &&& forall|k: int|
        0 <= k < segs.len() ==> (#[trigger] spec_reset_step(sd_card, rs.take(k)) matches ResetStep::Send {
            argument,
            index,
            response_type,
        } && segs[k].len() >= 1 && segs[k][0] == RegisterAccess::Write32(0x8, argument) && command_issued(
            segs[k].skip(1),
            spec_command_value(index, response_type, 0),
        ) && command_answered(segs[k].skip(1), response_type, rs[k]))
}

/// Brings the card of controller `sd_card` from idle to the transfer state,
/// sending the commands `reset_step` gives, each with its argument, and
/// handing it the answers; ends with the result of the last step, or the
/// error of a command exchange. On success the accesses made are the
/// exchanges of the steps, each answered with the response handed on.
pub fn send_sd_reset_commands<H: SdHost>(host: &mut SdRegisters<H>, sd_card: &SDCardInfoInternal) -> (r: Result<
    SDCardInfo,
    SDCardError,
>)
    ensures
        extends(old(host).accesses(), final(host).accesses()),
        r matches Ok(info) ==> info.internal_info == *sd_card && info.block_size == 512
            && info.total_blocks <= 0x1_0000_0000,
        r is Ok ==> exists|rs: Seq<SDCommandResponse>|
            #![trigger spec_reset_step(*sd_card, rs)]
            rs.len() <= 13 && spec_reset_step(*sd_card, rs) == ResetStep::Done(r),
        r is Ok ==> exists|rs: Seq<SDCommandResponse>, segs: Seq<Seq<RegisterAccess>>|
            #![trigger reset_exchanges(*sd_card, rs, segs)]
            {
                &&& rs.len() <= 13
                &&& spec_reset_step(*sd_card, rs) == ResetStep::Done(r)
                &&& reset_exchanges(*sd_card, rs, segs)
                &&& final(host).accesses() == old(host).accesses() + concat_all(segs)
            },
        r matches Err(e) ==> command_error(e),
{
    let ghost start = host.accesses();
    let ghost mut segs: Seq<Seq<RegisterAccess>> = Seq::empty();
    let mut responses: Vec<SDCommandResponse> = Vec::new();
    loop
        invariant
            responses@.len() <= 13,
            start == old(host).accesses(),
            host.accesses() == start + concat_all(segs),
            reset_exchanges(*sd_card, responses@, segs),
        decreases 13 - responses@.len(),
    {
        let ghost before = host.accesses();
        let ghost rs0 = responses@;
        match reset_step(sd_card, &responses) {
            ResetStep::Send { argument, index, response_type } => {
                host.write_u32(0x8, argument);
                let ghost h1 = host.accesses();
                let response = send_sd_command(host, index, response_type, 0)?;
                responses.push(response);
                proof {
                    let seg = added(before, host.accesses());
                    lemma_step_added(start, segs, before, host.accesses());
                    assert(seg.skip(1) =~= added(h1, host.accesses()));
                    assert(seg[0] == h1[before.len() as int]);
                    let old_segs = segs;
                    segs = segs.push(seg);
                    assert(responses@.take(rs0.len() as int) =~= rs0);
                    assert forall|k: int| 0 <= k < segs.len() implies (#[trigger] spec_reset_step(
                        *sd_card,
                        responses@.take(k),
                    ) matches ResetStep::Send { argument, index, response_type } && segs[k].len() >= 1
                        && segs[k][0] == RegisterAccess::Write32(0x8, argument) && command_issued(
                        segs[k].skip(1),
                        spec_command_value(index, response_type, 0),
                    ) && command_answered(segs[k].skip(1), response_type, responses@[k])) by {
                        if k < old_segs.len() {
                            assert(responses@.take(k) =~= rs0.take(k));
                            assert(segs[k] == old_segs[k]);
                            assert(responses@[k] == rs0[k]);
                            assert(spec_reset_step(*sd_card, rs0.take(k)) matches ResetStep::Send {
                                argument,
                                index,
                                response_type,
                            } && old_segs[k].len() >= 1 && old_segs[k][0] == RegisterAccess::Write32(0x8, argument)
                                && command_issued(old_segs[k].skip(1), spec_command_value(index, response_type, 0))
                                && command_answered(old_segs[k].skip(1), response_type, rs0[k]));
                        }
                    }
                }
            },
            ResetStep::Done(r) => {
                return r;
            },
        }
    }
}

/// Resets the controller and brings the card up.
pub fn reset_sd_card<H: SdHost>(host: &mut SdRegisters<H>, sd_card: &SDCardInfoInternal) -> (r: Result<SDCardInfo, SDCardError>)
    ensures
        extends(old(host).accesses(), final(host).accesses()),
        r matches Ok(info) ==> info.internal_info == *sd_card && info.block_size == 512
            && info.total_blocks <= 0x1_0000_0000,
        r is Ok ==> sd_card.capabilities & (CAP_VOLTAGE_3_3 | CAP_VOLTAGE_1_8 | CAP_VOLTAGE_3_0) != 0
            && exists|rs: Seq<SDCommandResponse>|
            #![trigger spec_reset_step(*sd_card, rs)]
            rs.len() <= 13 && spec_reset_step(*sd_card, rs) == ResetStep::Done(r),
        r is Ok ==> exists|setup: Seq<RegisterAccess>, rs: Seq<SDCommandResponse>, segs: Seq<Seq<RegisterAccess>>|
            #![trigger reset_exchanges(*sd_card, rs, segs), extends(old(host).accesses(), setup)]
            {
                &&& extends(old(host).accesses(), setup)
                &&& final(host).accesses() == setup + concat_all(segs)
                &&& rs.len() <= 13
                &&& spec_reset_step(*sd_card, rs) == ResetStep::Done(r)
                &&& reset_exchanges(*sd_card, rs, segs)
            },
        r matches Err(e) ==> command_error(e) || e == SDCardError::VoltageUnableToBeSet,
{
    software_reset_sd_card(host)?;
    enable_sd_card_interrupts(host)?;
    power_on_sd_card(host, sd_card)?;
    set_sd_clock(host)?;
    enable_timeouts(host)?;
    let ghost setup = host.accesses();
    let r = send_sd_reset_commands(host, sd_card);
    proof {
        assert(extends(old(host).accesses(), setup));
    }
    r
}

/// The bytes of a block read as 128 words: word `i` gives bytes `4 * i` to
/// `4 * i + 3`, least significant first.
pub proof fn lemma_words_to_bytes(words: Seq<u32>, i: int)
    requires
        0 <= i < 128,
    ensures
        spec_words_to_bytes(words).len() == 512,
        spec_words_to_bytes(words)[4 * i] == (words[i] % 0x100) as u8,
        spec_words_to_bytes(words)[4 * i + 1] == ((words[i] / 0x100) % 0x100) as u8,
        spec_words_to_bytes(words)[4 * i + 2] == ((words[i] / 0x1_0000) % 0x100) as u8,
        spec_words_to_bytes(words)[4 * i + 3] == ((words[i] / 0x100_0000) % 0x100) as u8,
{
    assert((4 * i) / 4 == i && (4 * i) % 4 == 0);
    assert((4 * i + 1) / 4 == i && (4 * i + 1) % 4 == 1);
    assert((4 * i + 2) / 4 == i && (4 * i + 2) % 4 == 2);
    assert((4 * i + 3) / 4 == i && (4 * i + 3) % 4 == 3);
}

/// The word written for bytes `4 * i` to `4 * i + 3` of a block: byte
/// `4 * i` is its least significant byte, byte `4 * i + 3` its most.
pub proof fn lemma_word_at(data: Seq<u8>, i: int)
    ensures
        spec_word_at(data, i) as int == data[4 * i] + data[4 * i + 1] * 0x100 + data[4 * i + 2] * 0x1_0000
            + data[4 * i + 3] * 0x100_0000,
{
    let x = data[4 * i] + data[4 * i + 1] * 0x100 + data[4 * i + 2] * 0x1_0000 + data[4 * i + 3] * 0x100_0000;
    assert(0 <= x < 0x1_0000_0000) by (nonlinear_arith)
        requires
            x == data[4 * i] + data[4 * i + 1] * 0x100 + data[4 * i + 2] * 0x1_0000 + data[4 * i + 3] * 0x100_0000,
            0 <= data[4 * i] < 256,
            0 <= data[4 * i + 1] < 256,
            0 <= data[4 * i + 2] < 256,
            0 <= data[4 * i + 3] < 256,
    ;
}

/// The 512 bytes of 128 little-endian words.
pub open spec fn spec_words_to_bytes(words: Seq<u32>) -> Seq<u8> {
    Seq::new(512, |k: int| (((words[k / 4] as int) / pow256(k % 4)) % 256) as u8)
}

/// 256 to the power `e`, for `e` below 4.
pub open spec fn pow256(e: int) -> int {
    if e == 0 {
        1
    } else if e == 1 {
        0x100
    } else if e == 2 {
        0x1_0000
    } else {
        0x100_0000
    }
}

/// Byte `i` (least significant first) of `w`.
fn byte_of(w: u32, i: usize) -> (r: u8)
    requires
        i < 4,
    ensures
        r == ((w as int) / pow256(i as int)) % 256,
{
    if i == 0 {
        assert(w & 0xFFu32 == w % 256) by (bit_vector);
        (w & 0xFF) as u8
    } else if i == 1 {
        assert((w >> 8u32) & 0xFFu32 == (w / 0x100) % 256) by (bit_vector);
        ((w >> 8u32) & 0xFF) as u8
    } else if i == 2 {
        assert((w >> 16u32) & 0xFFu32 == (w / 0x1_0000) % 256) by (bit_vector);
        ((w >> 16u32) & 0xFF) as u8
    } else {
        assert((w >> 24u32) & 0xFFu32 == (w / 0x100_0000) % 256) by (bit_vector);
        ((w >> 24u32) & 0xFF) as u8
    }
}

/// The 512 bytes of 128 little-endian words.
pub fn words_to_bytes(words: &[u32]) -> (r: [u8; 512])
    requires
        words@.len() == 128,
    ensures
        r@ == spec_words_to_bytes(words@),
{
    let mut out = [0u8; 512];
    let mut k: usize = 0;
    while k < 512
        invariant
            k <= 512,
            words@.len() == 128,
            out@.len() == 512,
            forall|j: int| 0 <= j < k ==> out@[j] == spec_words_to_bytes(words@)[j],
        decreases 512 - k,
    {
        out[k] = byte_of(words[k / 4], k % 4);
        k = k + 1;
    }
    proof {
        assert(out@ =~= spec_words_to_bytes(words@));
    }
    out
}

/// The little-endian word made of the 4 bytes of `data` from `4 * i`.
pub open spec fn spec_word_at(data: Seq<u8>, i: int) -> u32 {
    (data[4 * i] + data[4 * i + 1] * 0x100 + data[4 * i + 2] * 0x1_0000 + data[4 * i + 3] * 0x100_0000) as u32
}

/// The little-endian word made of 4 bytes of `data`.
fn word_at(data: &[u8; 512], i: usize) -> (r: u32)
    requires
        i < 128,
    ensures
        r == spec_word_at(data@, i as int),
{
    let a = data[4 * i] as u32;
    let b = data[4 * i + 1] as u32;
    let c = data[4 * i + 2] as u32;
    let d = data[4 * i + 3] as u32;
    assert(a | (b << 8u32) | (c << 16u32) | (d << 24u32) == a + b * 0x100 + c * 0x1_0000 + d * 0x100_0000)
        by (bit_vector)
        requires
            a < 256,
            b < 256,
            c < 256,
            d < 256,
    ;
    a | (b << 8u32) | (c << 16u32) | (d << 24u32)
}

/// Whether `a` is a read of the present-state register.
pub open spec fn present_read(a: RegisterAccess) -> bool {
    a matches RegisterAccess::Read32(o, _) && o == 0x24
}

/// Whether `a` read a value with bit `bit` set.
pub open spec fn shows(a: RegisterAccess, bit: u32) -> bool {
    a matches RegisterAccess::Read32(_, v) && bit & v != 0
}

/// The accesses of a wait that saw bit `bit`: reads of the present state,
/// the last one and only it showing the bit.
pub open spec fn state_reached(bit: u32, seg: Seq<RegisterAccess>) -> bool {
    &&& seg.len() >= 1
    &&& forall|j: int|
        0 <= j < seg.len() ==> present_read(#[trigger] seg[j]) && (shows(seg[j], bit) <==> j == seg.len() - 1)
}

/// The accesses of a wait that timed out: `MAX_ITERATIONS` reads of the
/// present state, none showing bit `bit`.
pub open spec fn state_missed(bit: u32, seg: Seq<RegisterAccess>) -> bool {
    &&& seg.len() == MAX_ITERATIONS
    &&& forall|j: int| 0 <= j < seg.len() ==> present_read(#[trigger] seg[j]) && !shows(seg[j], bit)
}

/// Waits for the present state to show bit `bit`.
fn wait_for_state<H: SdHost>(host: &mut SdRegisters<H>, bit: u32) -> (r: bool)
    ensures
        extends(old(host).accesses(), final(host).accesses()),
        r ==> state_reached(bit, added(old(host).accesses(), final(host).accesses())),
        !r ==> state_missed(bit, added(old(host).accesses(), final(host).accesses())),
{
    let ghost start = host.accesses();
    let mut i: usize = 0;
    while i < MAX_ITERATIONS
        invariant
            i <= MAX_ITERATIONS,
            start == old(host).accesses(),
            extends(start, host.accesses()),
            added(start, host.accesses()).len() == i,
            forall|j: int|
                0 <= j < i ==> present_read(#[trigger] added(start, host.accesses())[j]) && !shows(
                    added(start, host.accesses())[j],
                    bit,
                ),
        decreases MAX_ITERATIONS - i,
    {
        let ghost before = host.accesses();
        let present_state = host.read_u32(0x24);
        proof {
            assert(added(start, host.accesses()) =~= added(start, before).push(
                RegisterAccess::Read32(0x24, present_state),
            ));
        }
        if bit & present_state != 0 {
            return true;
        }
        i = i + 1;
    }
    false
}

/// One step of a single-block transfer.
#[derive(Debug, Clone, Copy, PartialEq, Eq, Structural)]
pub enum TransferStep {
    /// Write the 16-bit register at this offset.
    Write16(u64, u16),
    /// Write the 32-bit register at this offset.
    Write32(u64, u32),
    /// Fail unless a command may be sent now.
    CheckCommandLine,
    /// Send command `.0` with response type `.1` and flags `.2`.
    Command(u8, SDResponseTypes, u16),
    /// Wait until the present state shows this bit; time out otherwise.
    WaitFor(u32),
    /// Read the 32-bit register at this offset: the next word of the block.
    Read32(u64),
    /// The transfer is over.
    Done,
}

/// The number of steps of a single-block transfer before `Done`.
pub const TRANSFER_STEPS: usize = 135;

/// Step `done` of the transfer of block `block` of the card, to the card
/// when `to_card` (the block's bytes being `data`), else from it: block
/// size 512 and one block; a check that a command may be sent; byte address
/// `block * 512` as the argument; the direction; CMD24 (write) or CMD17
/// (read) with data present; a wait for the buffer; then the 128 words of
/// the block through the buffer data port, little-endian.
pub open spec fn spec_transfer_step(block: u32, to_card: bool, data: Seq<u8>, done: int) -> TransferStep {
    if done == 0 {
        TransferStep::Write16(0x4, 0x200)
    } else if done == 1 {
        TransferStep::Write16(0x6, 1)
    } else if done == 2 {
        TransferStep::CheckCommandLine
    } else if done == 3 {
        TransferStep::Write32(0x8, (block * 512) as u32)
    } else if done == 4 {
        TransferStep::Write16(0xC, if to_card { 0 } else { TRANSFER_READ_TO_CARD })
    } else if done == 5 {
        TransferStep::Command(
            if to_card { 24 } else { 17 },
            SDResponseTypes::R1,
            CMD_DATA_PRESENT_SELECT,
        )
    } else if done == 6 {
        TransferStep::WaitFor(
            if to_card { PRESENT_BUFFER_WRITE_ENABLE } else { PRESENT_BUFFER_READ_ENABLE },
        )
    } else if 7 <= done < 135 {
        if to_card {
            TransferStep::Write32(0x20, spec_word_at(data, done - 7))
        } else {
            TransferStep::Read32(0x20)
        }
    } else {
        TransferStep::Done
    }
}

/// Step `done` of a single-block transfer, as `spec_transfer_step` says.
pub fn transfer_step(block: u32, to_card: bool, data: &[u8; 512], done: usize) -> (r: TransferStep)
    requires
        block < 0x80_0000,
    ensures
        r == spec_transfer_step(block, to_card, data@, done as int),
{
    if done == 0 {
        TransferStep::Write16(0x4, 0x200)
    } else if done == 1 {
        TransferStep::Write16(0x6, 1)
    } else if done == 2 {
        TransferStep::CheckCommandLine
    } else if done == 3 {
        TransferStep::Write32(0x8, block * SD_BLOCK_SIZE)
    } else if done == 4 {
        TransferStep::Write16(0xC, if to_card { 0 } else { TRANSFER_READ_TO_CARD })
    } else if done == 5 {
        TransferStep::Command(if to_card { 24 } else { 17 }, SDResponseTypes::R1, CMD_DATA_PRESENT_SELECT)
    } else if done == 6 {
        TransferStep::WaitFor(if to_card { PRESENT_BUFFER_WRITE_ENABLE } else { PRESENT_BUFFER_READ_ENABLE })
    } else if done < TRANSFER_STEPS {
        if to_card {
            TransferStep::Write32(0x20, word_at(data, done - 7))
        } else {
            TransferStep::Read32(0x20)
        }
    } else {
        TransferStep::Done
    }
}

/// The accesses of the steps of a transfer, one after the other.
pub open spec fn concat_all(segs: Seq<Seq<RegisterAccess>>) -> Seq<RegisterAccess>
    decreases segs.len(),
{
    if segs.len() == 0 {
        Seq::empty()
    } else {
        concat_all(segs.drop_last()) + segs.last()
    }
}

/// Whether `seg` is what step `step` of a transfer does to the registers
/// when it goes through.
pub open spec fn step_done(step: TransferStep, seg: Seq<RegisterAccess>) -> bool {
    match step {
        TransferStep::Write16(o, v) => seg == seq![RegisterAccess::Write16(o, v)],
        TransferStep::Write32(o, v) => seg == seq![RegisterAccess::Write32(o, v)],
        TransferStep::CheckCommandLine => command_line_free(seg),
        TransferStep::Command(i, t, f) => command_issued(seg, spec_command_value(i, t, f)),
        TransferStep::WaitFor(bit) => state_reached(bit, seg),
        TransferStep::Read32(o) => seg.len() == 1 && (seg[0] matches RegisterAccess::Read32(p, _) && p == o),
        TransferStep::Done => seg.len() == 0,
    }
}

/// Whether `seg` is what step `step` of a transfer does to the registers
/// when it fails: a check that refused the command, a wait that timed out,
/// or a command exchange that failed.
pub open spec fn step_failed(step: TransferStep, seg: Seq<RegisterAccess>) -> bool {
    match step {
        TransferStep::CheckCommandLine => command_line_refused(seg),
        TransferStep::Command(_, _, _) => true,
        TransferStep::WaitFor(bit) => state_missed(bit, seg),
        _ => false,
    }
}

/// The word that the read of a step gave.
pub open spec fn word_read(seg: Seq<RegisterAccess>) -> u32 {
    match seg[0] {
        RegisterAccess::Read32(_, v) => v,
        _ => 0,
    }
}

/// The 128 words the data port gave in the steps of a read.
pub open spec fn words_read(segs: Seq<Seq<RegisterAccess>>) -> Seq<u32> {
    Seq::new(128, |i: int| word_read(segs[i + 7]))
}

/// Whether `segs` are the accesses of every step of the transfer of block
/// `block`, each as it goes through.
pub open spec fn transfer_done(block: u32, to_card: bool, data: Seq<u8>, segs: Seq<Seq<RegisterAccess>>) -> bool {
    &&& segs.len() == TRANSFER_STEPS
    &&& forall|k: int|
        0 <= k < segs.len() ==> step_done(spec_transfer_step(block, to_card, data, k), #[trigger] segs[k])
}

/// Whether `segs` are the accesses of the steps of the transfer of block
/// `block` up to one that failed: the ones before it went through.
pub open spec fn transfer_failed(block: u32, to_card: bool, data: Seq<u8>, segs: Seq<Seq<RegisterAccess>>) -> bool {
    &&& 1 <= segs.len() <= TRANSFER_STEPS
    &&& forall|k: int|
        0 <= k < segs.len() - 1 ==> step_done(spec_transfer_step(block, to_card, data, k), #[trigger] segs[k])
    &&& step_failed(spec_transfer_step(block, to_card, data, segs.len() - 1), segs.last())
}

/// Adding the accesses of one more step.
proof fn lemma_concat_push(segs: Seq<Seq<RegisterAccess>>, seg: Seq<RegisterAccess>)
    ensures
        concat_all(segs.push(seg)) == concat_all(segs) + seg,
{
    assert(segs.push(seg).drop_last() =~= segs);
}

/// The accesses of a step, taken from the log before and after it.
proof fn lemma_step_added(
    start: Seq<RegisterAccess>,
    segs: Seq<Seq<RegisterAccess>>,
    before: Seq<RegisterAccess>,
    after: Seq<RegisterAccess>,
)
    requires
        before == start + concat_all(segs),
        extends(before, after),
    ensures
        after == start + concat_all(segs.push(added(before, after))),
        extends(start, after),
{
    lemma_concat_push(segs, added(before, after));
    assert(after =~= before + added(before, after));
    assert(after =~= start + concat_all(segs.push(added(before, after))));
}

/// Performs the steps of a single-block transfer that `transfer_step`
/// gives, in order; returns the words read, and the accesses of each step.
fn run_transfer<H: SdHost>(host: &mut SdRegisters<H>, block: u32, to_card: bool, data: &[u8; 512]) -> (r: (
    Result<Vec<u32>, SDCardError>,
    Ghost<Seq<Seq<RegisterAccess>>>,
))
    requires
        block < 0x80_0000,
    ensures
        final(host).accesses() == old(host).accesses() + concat_all(r.1@),
        r.0 matches Ok(words) ==> transfer_done(block, to_card, data@, r.1@) && (if to_card {
            words@.len() == 0
        } else {
            words@ == words_read(r.1@)
        }),
        r.0 matches Err(e) ==> command_error(e) && transfer_failed(block, to_card, data@, r.1@),
{
    let ghost start = host.accesses();
    let ghost mut segs: Seq<Seq<RegisterAccess>> = Seq::empty();
    let mut words: Vec<u32> = Vec::new();
    let mut done: usize = 0;
    while done < TRANSFER_STEPS
        invariant
            block < 0x80_0000,
            done <= TRANSFER_STEPS,
            start == old(host).accesses(),
            segs.len() == done,
            host.accesses() == start + concat_all(segs),
            forall|k: int|
                0 <= k < done ==> step_done(spec_transfer_step(block, to_card, data@, k), #[trigger] segs[k]),
            words@.len() == (if to_card || done <= 7 { 0int } else { done - 7 }),
            forall|i: int| 0 <= i < words@.len() ==> words@[i] == word_read(#[trigger] segs[i + 7]),
        decreases TRANSFER_STEPS - done,
    {
        let ghost before = host.accesses();
        let step = transfer_step(block, to_card, data, done);
        let mut failed: Option<SDCardError> = None;
        match step {
            TransferStep::Write16(offset, value) => host.write_u16(offset, value),
            TransferStep::Write32(offset, value) => host.write_u32(offset, value),
            TransferStep::CheckCommandLine => {
                if let Err(e) = sending_command_valid(host) {
                    failed = Some(e);
                }
            },
            TransferStep::Command(index, response_type, flags) => {
                if let Err(e) = send_sd_command(host, index, response_type, flags) {
                    failed = Some(e);
                }
            },
            TransferStep::WaitFor(bit) => {
                if !wait_for_state(host, bit) {
                    failed = Some(SDCardError::SDTimeout);
                }
            },
            TransferStep::Read32(offset) => {
                let w = host.read_u32(offset);
                words.push(w);
            },
            TransferStep::Done => {},
        }
        let ghost seg = added(before, host.accesses());
        proof {
            lemma_step_added(start, segs, before, host.accesses());
            if failed is None {
                match step {
                    TransferStep::Write16(o, v) => {
                        assert(seg =~= seq![RegisterAccess::Write16(o, v)]);
                    },
                    TransferStep::Write32(o, v) => {
                        assert(seg =~= seq![RegisterAccess::Write32(o, v)]);
                    },
                    TransferStep::Read32(o) => {
                        assert(seg =~= seq![RegisterAccess::Read32(o, words@.last())]);
                    },
                    TransferStep::Done => {
                        assert(seg =~= Seq::<RegisterAccess>::empty());
                    },
                    _ => {},
                }
                assert(step_done(step, seg));
            } else {
                assert(step_failed(step, seg));
            }
            segs = segs.push(seg);
        }
        if let Some(e) = failed {
            proof {
                assert(segs.last() == seg);
                assert(segs.len() - 1 == done);
            }
            return (Err(e), Ghost(segs));
        }
        done = done + 1;
    }
    (Ok(words), Ghost(segs))
}

/// The steps of a read do not depend on the data handed to them.
proof fn lemma_read_steps(block: u32, d1: Seq<u8>, d2: Seq<u8>, segs: Seq<Seq<RegisterAccess>>)
    ensures
        transfer_done(block, false, d1, segs) ==> transfer_done(block, false, d2, segs),
        transfer_failed(block, false, d1, segs) ==> transfer_failed(block, false, d2, segs),
{
    assert forall|k: int| #[trigger] spec_transfer_step(block, false, d1, k) == spec_transfer_step(block, false, d2, k) by {}
}

/// Reads block `block` of the card: one block of 512 bytes from byte
/// address `block * 512`, word by word from the buffer data port, through
/// the steps `transfer_step` gives. On success every step went through and
/// the bytes are the 128 words the data port gave; on failure the steps
/// before the failing one went through.
pub fn read_sd_card<H: SdHost>(host: &mut SdRegisters<H>, sd_card: &SDCardInfo, block: u32) -> (r: Result<[u8; 512], SDCardError>)
    requires
        block < 0x80_0000,
    ensures
        r matches Ok(bytes) ==> exists|segs: Seq<Seq<RegisterAccess>>|
            #![trigger concat_all(segs)]
            {
                &&& final(host).accesses() == old(host).accesses() + concat_all(segs)
                &&& transfer_done(block, false, Seq::empty(), segs)
                &&& bytes@ == spec_words_to_bytes(words_read(segs))
            },
        r matches Err(e) ==> command_error(e) && exists|segs: Seq<Seq<RegisterAccess>>|
            #![trigger concat_all(segs)]
            {
                &&& final(host).accesses() == old(host).accesses() + concat_all(segs)
                &&& transfer_failed(block, false, Seq::empty(), segs)
            },
{
    let none = [0u8; 512];
    let (words, Ghost(segs)) = run_transfer(host, block, false, &none);
    proof {
        lemma_read_steps(block, none@, Seq::empty(), segs);
    }
    match words {
        Ok(words) => Ok(words_to_bytes(words.as_slice())),
        Err(e) => Err(e),
    }
}

/// Writes `data` to block `block` of the card, word by word (little-endian)
/// through the buffer data port, through the steps `transfer_step` gives.
/// On success every step went through; on failure the steps before the
/// failing one went through.
pub fn write_sd_card<H: SdHost>(host: &mut SdRegisters<H>, sd_card: &SDCardInfo, block: u32, data: [u8; 512]) -> (r: Result<
    (),
    SDCardError,
>)
    requires
        block < 0x80_0000,
    ensures
        r is Ok ==> exists|segs: Seq<Seq<RegisterAccess>>|
            #![trigger concat_all(segs)]
            {
                &&& final(host).accesses() == old(host).accesses() + concat_all(segs)
                &&& transfer_done(block, true, data@, segs)
            },
        r matches Err(e) ==> command_error(e) && exists|segs: Seq<Seq<RegisterAccess>>|
            #![trigger concat_all(segs)]
            {
                &&& final(host).accesses() == old(host).accesses() + concat_all(segs)
                &&& transfer_failed(block, true, data@, segs)
            },
{
    let (r, Ghost(segs)) = run_transfer(host, block, true, &data);
    match r {
        Ok(_) => Ok(()),
        Err(e) => Err(e),
    }
}

} // verus!
