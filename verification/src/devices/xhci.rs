//! The xHCI USB host controller: finding it on the PCI bus, locating its
//! registers, and the protocol that resets it.

use crate::devices::pci::{read_config, spec_pci_address, ConfigAccess, ConfigPort, DeviceInfo, PciConfigAccess};
use vstd::prelude::*;

verus! {

/// Class code of serial bus controllers.
pub const XHCI_CLASS_CODE: u8 = 0x0C;
/// Subclass of USB controllers.
pub const XHCI_SUB_CLASS_CODE: u8 = 0x03;
/// Programming interface of xHCI controllers.
pub const XHCI_PROGRAMMING_INTERFACE: u8 = 0x30;

/// Whether a device is an xHCI controller.
pub open spec fn is_xhci(d: DeviceInfo) -> bool {
    d.class_code == XHCI_CLASS_CODE && d.subclass == XHCI_SUB_CLASS_CODE && d.programming_interface
        == XHCI_PROGRAMMING_INTERFACE
}

/// Index of the first xHCI controller among `devices`, if any.
pub fn find_xhci_inferface(devices: &Vec<DeviceInfo>) -> (r: Option<usize>)
    ensures
        r matches Some(i) ==> i < devices@.len() && is_xhci(devices@[i as int]) && forall|j: int|
            0 <= j < i ==> !is_xhci(#[trigger] devices@[j]),
        r is None ==> forall|j: int| 0 <= j < devices@.len() ==> !is_xhci(#[trigger] devices@[j]),
{
    let mut i: usize = 0;
    while i < devices.len()
        invariant
            i <= devices@.len(),
            forall|j: int| 0 <= j < i ==> !is_xhci(#[trigger] devices@[j]),
        decreases devices@.len() - i,
    {
        let d = &devices[i];
        if d.class_code == XHCI_CLASS_CODE && d.subclass == XHCI_SUB_CLASS_CODE
            && d.programming_interface == XHCI_PROGRAMMING_INTERFACE {
            return Some(i);
        }
        i = i + 1;
    }
    None
}

/// Most USB devices the kernel gives slots to.
pub const MAX_USB_DEVICES: u8 = 4;

/// Offset of the command register among the operational registers.
pub const USB_COMMAND_OFFSET: u64 = 0x0;
/// Offset of the status register among the operational registers.
pub const USB_STATUS_OFFSET: u64 = 0x4;
/// Offset of the configure register among the operational registers.
pub const CONFIGURE_OFFSET: u64 = 0x38;

/// Command register: run (set) or stop (clear) the controller.
pub const CMD_RUN_HOST_CONTROLLER: u32 = 1;
/// Command register: reset the controller.
pub const CMD_HOST_CONTROLLER_RESET: u32 = 0x2;
/// Command register: let the controller send interrupts.
pub const CMD_INTERRUPTER_ENABLE: u32 = 0x4;
/// Command register: let the controller signal host system errors.
pub const CMD_HOST_SYSTEM_ERROR_ENABLE: u32 = 0x8;
/// Command register: reset the controller but keep the ports' state.
pub const CMD_LIGHT_HOST_CONTROLLER_RESET: u32 = 0x80;
/// Command register: save the controller's internal state.
pub const CMD_CONTROLLER_SAVE_STATE: u32 = 0x100;
/// Command register: restore the saved internal state.
pub const CMD_CONTROLLER_RESTORE_STATE: u32 = 0x200;

/// Status register: the controller has halted.
pub const STS_HC_HALTED: u32 = 1;
/// Status register: the controller met a serious error.
pub const STS_HOST_SYSTEM_ERROR: u32 = 0x4;
/// Status register: an interrupter has an interrupt pending.
pub const STS_EVENT_INTERRUPT: u32 = 0x8;
/// Status register: a port changed.
pub const STS_PORT_CHANGE_DETECT: u32 = 0x10;
/// Status register: the controller is not ready yet.
pub const STS_CONTROLLER_NOT_READY: u32 = 0x800;
/// Status register: the controller met an internal error.
pub const STS_HOST_CONTROLLER_ERROR: u32 = 0x1000;

/// The capability registers of a controller.
#[derive(Debug, Clone, Copy, PartialEq, Eq, Structural)]
pub struct XHCICapabilities {
    /// Offset of the operational registers from the capability registers.
    pub register_length: u8,
    /// The supported revision of the specification, in BCD.
    pub version_number: u16,
    /// Structural parameters 1.
    pub structural_paramaters_1: u32,
    /// Structural parameters 2.
    pub structural_paramaters_2: u32,
    /// Structural parameters 3.
    pub structural_paramaters_3: u32,
    /// Capability parameters 1.
    pub capability_paramaters_1: u32,
    /// Offset of the doorbell array.
    pub doorbell_offset: u32,
    /// Offset of the runtime registers.
    pub runtime_register_space_offset: u32,
    /// Capability parameters 2.
    pub capability_paramaters_2: u32,
}

/// The 64-bit address of the registers from the two base address registers
/// that hold it: the high word, then the low word with its four flag bits
/// cleared.
pub fn xhci_full_bar(bar_0: u32, bar_1: u32) -> (r: u64)
    ensures
        r == bar_1 * 0x1_0000_0000 + (bar_0 - bar_0 % 16),
{
    let low: u64 = (bar_0 & 0xFFFF_FFF0) as u64;
    let high: u64 = bar_1 as u64;
    assert(bar_0 & 0xFFFF_FFF0u32 == bar_0 - bar_0 % 16) by (bit_vector);
    assert((high << 32u64) | low == high * 0x1_0000_0000 + low) by (bit_vector)
        requires
            high < 0x1_0000_0000,
            low < 0x1_0000_0000,
    ;
    (high << 32) | low
}

/// Reads the two base address registers of controller `device` and gives
/// the address its registers live at, which the caller maps.
pub fn xhci_bar<A: PciConfigAccess>(access: &mut ConfigPort<A>, device: &DeviceInfo) -> (r: u64)
    requires
        device.device < 32,
    ensures
        r % 16 == 0,
        exists|bar_0: u32, bar_1: u32|
            #![auto]
            {
                &&& final(access).config_accesses() == old(access).config_accesses().push(
                    ConfigAccess::Read(spec_pci_address(device.bus, device.device, 0, 0x10), bar_0),
                ).push(ConfigAccess::Read(spec_pci_address(device.bus, device.device, 0, 0x14), bar_1))
                &&& r == bar_1 * 0x1_0000_0000 + (bar_0 - bar_0 % 16)
            },
{
    let bar_0 = read_config(access, device.bus, device.device, 0, 0x10);
    let bar_1 = read_config(access, device.bus, device.device, 0, 0x14);
    xhci_full_bar(bar_0, bar_1)
}

/// Where the operational registers start, past the capability registers
/// at `address`.
pub fn operational_registers(address: u64, capabilities: &XHCICapabilities) -> (r: u64)
    requires
        address + capabilities.register_length <= u64::MAX,
    ensures
        r == address + capabilities.register_length,
{
    address + capabilities.register_length as u64
}

/// The number of device slots to enable: as many as the controller has,
/// but no more than `MAX_USB_DEVICES`.
pub fn max_device_slots(capabilities: &XHCICapabilities) -> (r: u32)
    ensures
        r == if capabilities.capability_paramaters_1 % 256 < MAX_USB_DEVICES {
            (capabilities.capability_paramaters_1 % 256) as int
        } else {
            MAX_USB_DEVICES as int
        },
{
    let params = capabilities.capability_paramaters_1;
    let slots = params & 0xFF;
    assert(params & 0xFFu32 == params % 256) by (bit_vector);
    if slots < MAX_USB_DEVICES as u32 {
        slots
    } else {
        MAX_USB_DEVICES as u32
    }
}

/// Where a software reset of a controller stands.
#[derive(Debug, Clone, Copy, PartialEq, Eq, Structural)]
pub enum XhciResetState {
    /// The command register is to be read.
    ReadCommand,
    /// Waiting for the controller to halt; `command` is the command word
    /// with the run bit cleared.
    AwaitHalt { command: u32 },
    /// The controller halted with status `status`; the reset is to be
    /// written.
    StartReset { command: u32, status: u32 },
    /// Waiting for the reset bit to clear; `status` was read last.
    AwaitResetClear { status: u32 },
    /// Waiting for the controller to become ready.
    AwaitReady,
    /// The controller is reset and ready.
    Done,
}

/// The register access a reset asks for next.
#[derive(Debug, Clone, Copy, PartialEq, Eq, Structural)]
pub enum XhciRegisterAccess {
    /// Read the command register.
    ReadCommand,
    /// Read the status register.
    ReadStatus,
    /// Write this word to the command register.
    WriteCommand(u32),
    /// Nothing more: the reset is over.
    Finished,
}

/// The access the reset asks for in state `state`.
pub open spec fn spec_next_access(state: XhciResetState) -> XhciRegisterAccess {
    match state {
        XhciResetState::ReadCommand => XhciRegisterAccess::ReadCommand,
        XhciResetState::AwaitHalt { .. } => XhciRegisterAccess::ReadStatus,
        XhciResetState::StartReset { command, .. } => XhciRegisterAccess::WriteCommand(
            command | CMD_HOST_CONTROLLER_RESET,
        ),
        XhciResetState::AwaitResetClear { .. } => XhciRegisterAccess::ReadCommand,
        XhciResetState::AwaitReady => XhciRegisterAccess::ReadStatus,
        XhciResetState::Done => XhciRegisterAccess::Finished,
    }
}

/// The state after the access of `state` was made and, for a read, gave
/// `value`: the run bit is cleared from the command word; the controller
/// is waited on until it halts; the reset bit is written; the command
/// register is read until the bit clears; and, if the status read last
/// said the controller was not ready, the status is read until it is.
pub open spec fn spec_advance(state: XhciResetState, value: u32) -> XhciResetState {
    match state {
        XhciResetState::ReadCommand => XhciResetState::AwaitHalt {
            command: value & !CMD_RUN_HOST_CONTROLLER,
        },
        XhciResetState::AwaitHalt { command } => if value & STS_HC_HALTED != 0 {
            XhciResetState::StartReset { command, status: value }
        } else {
            state
        },
        XhciResetState::StartReset { status, .. } => XhciResetState::AwaitResetClear { status },
        XhciResetState::AwaitResetClear { status } => if value & CMD_HOST_CONTROLLER_RESET != 0 {
            state
        } else if status & STS_CONTROLLER_NOT_READY != 0 {
            XhciResetState::AwaitReady
        } else {
            XhciResetState::Done
        },
        XhciResetState::AwaitReady => if value & STS_CONTROLLER_NOT_READY != 0 {
            state
        } else {
            XhciResetState::Done
        },
        XhciResetState::Done => state,
    }
}

/// The register access a reset in state `state` asks for.
pub fn reset_next_access(state: &XhciResetState) -> (r: XhciRegisterAccess)
    ensures
        r == spec_next_access(*state),
{
    match state {
        XhciResetState::ReadCommand => XhciRegisterAccess::ReadCommand,
        XhciResetState::AwaitHalt { .. } => XhciRegisterAccess::ReadStatus,
        XhciResetState::StartReset { command, .. } => XhciRegisterAccess::WriteCommand(
            *command | CMD_HOST_CONTROLLER_RESET,
        ),
        XhciResetState::AwaitResetClear { .. } => XhciRegisterAccess::ReadCommand,
        XhciResetState::AwaitReady => XhciRegisterAccess::ReadStatus,
        XhciResetState::Done => XhciRegisterAccess::Finished,
    }
}

/// The state of a reset once the access of `state` was made; `value` is
/// the word read, and is not looked at after a write.
pub fn reset_advance(state: XhciResetState, value: u32) -> (r: XhciResetState)
    ensures
        r == spec_advance(state, value),
{
    match state {
        XhciResetState::ReadCommand => XhciResetState::AwaitHalt {
            command: value & !CMD_RUN_HOST_CONTROLLER,
        },
        XhciResetState::AwaitHalt { command } => if value & STS_HC_HALTED != 0 {
            XhciResetState::StartReset { command, status: value }
        } else {
            state
        },
        XhciResetState::StartReset { status, .. } => XhciResetState::AwaitResetClear { status },
        XhciResetState::AwaitResetClear { status } => if value & CMD_HOST_CONTROLLER_RESET != 0 {
            state
        } else if status & STS_CONTROLLER_NOT_READY != 0 {
            XhciResetState::AwaitReady
        } else {
            XhciResetState::Done
        },
        XhciResetState::AwaitReady => if value & STS_CONTROLLER_NOT_READY != 0 {
            state
        } else {
            XhciResetState::Done
        },
        XhciResetState::Done => state,
    }
}

/// What holds of every state a reset passes through from `ReadCommand`:
/// the command word kept has the run bit clear, and the reset is written
/// only once the status said the controller halted.
pub open spec fn reset_state_ok(state: XhciResetState) -> bool {
    match state {
        XhciResetState::AwaitHalt { command } => command & CMD_RUN_HOST_CONTROLLER == 0,
        XhciResetState::StartReset { command, status } => command & CMD_RUN_HOST_CONTROLLER == 0
            && status & STS_HC_HALTED != 0,
        XhciResetState::AwaitResetClear { status } => status & STS_HC_HALTED != 0,
        _ => true,
    }
}

/// A reset keeps `reset_state_ok` from step to step; the only word it
/// writes has the reset bit set and the run bit clear, and it writes it
/// only after seeing the controller halted; once done, it stays done and
/// asks for nothing.
pub proof fn lemma_reset_protocol(state: XhciResetState, value: u32)
    requires
        reset_state_ok(state),
    ensures
        reset_state_ok(spec_advance(state, value)),
        spec_next_access(state) matches XhciRegisterAccess::WriteCommand(c) ==> c
            & CMD_HOST_CONTROLLER_RESET != 0 && c & CMD_RUN_HOST_CONTROLLER == 0,
        spec_next_access(state) is WriteCommand ==> (state matches XhciResetState::StartReset {
            status,
            ..
        } && status & STS_HC_HALTED != 0),
        state == XhciResetState::Done ==> spec_advance(state, value) == state
            && spec_next_access(state) == XhciRegisterAccess::Finished,
{
    assert((value & !1u32) & 1u32 == 0) by (bit_vector);
    if let XhciResetState::StartReset { command, status } = state {
        assert(command & 1u32 == 0 ==> (command | 2u32) & 2u32 != 0 && (command | 2u32) & 1u32 == 0)
            by (bit_vector);
    }
}

} // verus!
