use taos::devices::pci::{
    command_word, decode_device, device_connected, get_pci_addres, probe_step, vendor_absent,
    walk_pci_bus, write_pci_command, ConfigPort, DeviceInfo, PCICommand, PciConfigAccess,
    ProbeStep,
};
use taos::devices::sd_card::{
    bar_address, clock_divided, clock_stable, clock_stopped, command_value, csd_structure,
    error_state_ok, find_sd_card, get_full_sd_card_info, memory_and_bus_master_on, memory_space_off,
    power_control_for, present_state_ok,
    r2_response, read_sd_card, reset_step, transfer_step, words_to_bytes, write_sd_card,
    ResetStep, SDCardError, SdRegisters, SDCardInfo, SDCardInfoInternal, SDCommandResponse,
    SDResponseTypes, SdHost, TransferStep,
};
use taos::devices::xhci::find_xhci_inferface;
use taos::events::event_runner::{EventRunner, RunStep};
use taos::events::{
    current_running_event_info, current_running_event_pid, current_running_event_priority,
    inc_runner_clock, runner_timestamp, EventInfo,
};
use taos::interrupts::x2apic::{pit_divider, pit_divider_bytes, X2Apic, X2ApicError, X2ApicManager};
use taos::processes::loader::{load_elf, page_fill, plan_segments, SegmentPlan, PT_LOAD};
use taos::processes::process::ProcessState;
use taos::processes::registers::Registers;
use taos::syscalls::mmap::{
    mmap_plan, protection_to_pagetable_flags, MmapCall, MmapFlags, ProtFlags, PAGE_NO_EXECUTE,
    PAGE_PRESENT, PAGE_WRITABLE,
};

#[test]
fn mmap_flags() {
    let f = MmapFlags::new().with_flags(MmapFlags::MAP_ANONYMOUS).with_flags(MmapFlags::MAP_PRIVATE);
    assert_eq!(f.bits(), 20);
    assert!(f.contains(MmapFlags::MAP_ANON));
    assert!(!f.contains(MmapFlags::MAP_SHARED));
    assert_eq!(MmapFlags::default().bits(), 0);
    let p = ProtFlags::new().with_flags(ProtFlags::PROT_READ | ProtFlags::PROT_WRITE);
    assert_eq!(p.bits(), 6);
    assert!(p.contains(ProtFlags::PROT_WRITE));
    assert!(!p.contains(ProtFlags::PROT_EXEC));
    assert!(p.contains(ProtFlags::PROT_READ | ProtFlags::PROT_WRITE));
    let r = ProtFlags::new().with_flags(ProtFlags::PROT_READ);
    assert!(!r.contains(ProtFlags::PROT_READ | ProtFlags::PROT_WRITE));
    assert!(!f.contains(MmapFlags::MAP_ANONYMOUS | MmapFlags::MAP_SHARED));
    assert_eq!(ProtFlags::default(), ProtFlags::new());
}

#[test]
fn mmap_call_contains() {
    let c = MmapCall::new(0x1000, 0x3000, 4, 0);
    assert!(c.contains(0x1000));
    assert!(c.contains(0x2fff));
    assert!(!c.contains(0x3000));
    assert!(!c.contains(0xfff));
    assert!(c.loaded.is_empty());
}

#[test]
fn pagetable_flags() {
    assert_eq!(protection_to_pagetable_flags(ProtFlags::PROT_READ), PAGE_PRESENT | PAGE_NO_EXECUTE);
    assert_eq!(
        protection_to_pagetable_flags(ProtFlags::PROT_READ | ProtFlags::PROT_WRITE | ProtFlags::PROT_EXEC),
        PAGE_PRESENT | PAGE_WRITABLE
    );
    assert_eq!(protection_to_pagetable_flags(ProtFlags::PROT_EXEC), 0);
}

#[test]
fn mmap_plans() {
    let p = mmap_plan(0x9000_0000_0000, 3 * 4096 + 10, ProtFlags::PROT_READ, MmapFlags::MAP_ANONYMOUS, 3, 7, u64::MAX);
    assert_eq!(p.address, 0x9000_0000_0000);
    assert_eq!(p.page_count, 3);
    assert_eq!(p.next_address, 0x9000_0000_0000 + 3 * 4096);
    let c = p.call.unwrap();
    assert_eq!((c.fd, c.offset), (-1, 0));
    assert_eq!(c.loaded, vec![false; 3]);
    assert_eq!(c.end, 0x9000_0000_0000 + 3 * 4096 + 10);
    let q = mmap_plan(0x1000, 8192, 0, MmapFlags::MAP_PRIVATE, 3, 7, u64::MAX);
    let c = q.call.unwrap();
    assert_eq!((c.fd, c.offset), (3, 7));
    assert!(c.loaded.is_empty());
    let r = mmap_plan(0x1000, 8192, 0, 0, 3, 7, 0x1000);
    assert_eq!(r.address, 0x1000);
    assert!(r.call.is_none());
    assert_eq!(r.next_address, 0x1000);
}

#[test]
fn x2apic_values() {
    assert_eq!(X2ApicManager::send_ipi(3, 0x40), Ok((3u64 << 32) | 0x40));
    assert_eq!(X2ApicManager::send_ipi(3, 15), Err(X2ApicError::InvalidVector));
    assert_eq!(X2ApicManager::mask_timer(0x20020), 0x30020);
    assert_eq!(X2ApicManager::unmask_timer(0x30020), 0x20020);
    assert_eq!(X2ApicManager::timer_config(), 0x20020);
    assert_eq!(
        X2ApicManager::configure_timer_current_core(1000),
        vec![(0x832, 0x20020), (0x83E, 0xB), (0x838, 1000)]
    );
    assert_eq!(X2ApicManager::calibrate_timer(u32::MAX - 1_000_000, 100), 10_000);
    assert_eq!(pit_divider(), Ok(59659));
    assert_eq!(pit_divider_bytes(59659), (0x0B, 0xE9));
}

#[test]
fn x2apic_enable_and_register() {
    assert!(matches!(X2Apic::new(false), Err(X2ApicError::NotSupported)));
    let mut apic = X2Apic::new(true).unwrap();
    assert!(apic.needs_enable());
    assert_eq!(X2Apic::enable_value(0xFEE0_0000), 0xFEE0_0C00);
    assert_eq!(apic.confirm_enabled(0xFEE0_0800), Err(X2ApicError::EnableFailed));
    assert!(apic.needs_enable());
    assert_eq!(apic.confirm_enabled(0xFEE0_0C00), Ok(()));
    assert!(!apic.needs_enable());
    let mut manager = X2ApicManager::new();
    assert_eq!(manager.register_core(0, apic), Ok(()));
    assert_eq!(manager.register_core(64, apic), Err(X2ApicError::CoreOutOfRange));
}

#[test]
fn events_priorities_and_fifo() {
    let mut runner = EventRunner::init();
    let a = runner.schedule(2, 7);
    let b = runner.schedule(0, 8);
    let c = runner.schedule(2, 9);
    assert_eq!((a, b, c), (0, 1, 2));
    assert!(runner.have_unblocked_events());
    assert!(runner.contains_event(a));
    assert_eq!(runner.next_event().unwrap().eid, b);
    assert_eq!(runner.next_event().unwrap().eid, a);
    assert_eq!(runner.next_event().unwrap().eid, c);
    assert!(runner.next_event().is_none());
    assert!(!runner.have_unblocked_events());
}

#[test]
fn events_run_loop_steps() {
    let mut runner = EventRunner::init();
    assert_eq!(runner.start_next(), RunStep::Idle);
    let e = runner.schedule(1, 42);
    match runner.start_next() {
        RunStep::Poll(ev) => {
            assert_eq!(ev.eid, e);
            assert_eq!(current_running_event_pid(&runner), 42);
            assert_eq!(current_running_event_priority(&runner), 1);
            assert_eq!(current_running_event_info(&runner), EventInfo { priority: 1, pid: 42 });
        }
        other => panic!("unexpected step {:?}", other),
    }
    runner.finish_poll(false);
    assert_eq!(current_running_event_pid(&runner), 0);
    assert_eq!(current_running_event_priority(&runner), 3);
    assert!(runner.have_unblocked_events());
    assert!(matches!(runner.start_next(), RunStep::Poll(_)));
    runner.finish_poll(true);
    assert!(!runner.contains_event(e));
    assert_eq!(runner.start_next(), RunStep::Idle);
}

#[test]
fn events_ageing() {
    let mut runner = EventRunner::init();
    let low = runner.schedule(3, 1);
    // Run a level-0 event repeatedly so the event clock advances.
    let busy = runner.schedule(0, 2);
    for _ in 0..6 {
        match runner.start_next() {
            RunStep::Poll(ev) => assert_eq!(ev.eid, busy),
            other => panic!("unexpected step {:?}", other),
        }
        runner.finish_poll(false);
    }
    // The low-priority event has waited long enough to move up a level.
    runner.reprioritize();
    let mut seen_low = false;
    for _ in 0..20 {
        if let RunStep::Poll(ev) = runner.start_next() {
            if ev.eid == low {
                seen_low = true;
                assert!(ev.priority < 3);
                break;
            }
            runner.finish_poll(false);
        }
    }
    assert!(seen_low);
}

#[test]
fn events_stamps_trail_the_event_clock() {
    let mut runner = EventRunner::init();
    let e = runner.schedule(2, 3);
    for polls in 0..4u64 {
        match runner.start_next() {
            RunStep::Poll(ev) => {
                assert_eq!(ev.eid, e);
                // Stamped with the event clock, which counts the polls made, when it was last queued.
                assert_eq!(ev.scheduled_timestamp, polls);
            }
            other => panic!("unexpected step {:?}", other),
        }
        runner.finish_poll(false);
    }
}

#[test]
fn events_sleep_and_wake() {
    let mut runner = EventRunner::init();
    let s = runner.nanosleep_event(1, 5, 3);
    assert_eq!(s.target_timestamp, 3);
    assert!(runner.have_blocked_events());
    assert!(!runner.have_unblocked_events());
    runner.awake_next_sleeper();
    assert!(!runner.have_unblocked_events());
    for _ in 0..3 {
        inc_runner_clock(&mut runner);
    }
    assert_eq!(runner_timestamp(&runner), 3);
    runner.awake_next_sleeper();
    assert!(runner.have_unblocked_events());
    assert!(!runner.have_blocked_events());
    assert_eq!(runner.next_event().unwrap().eid, s.event.eid);
    assert!(runner.nanosleep_current_event(10).is_none());
}

struct FakeBus {
    words: Vec<(u32, u32)>,
    writes: Vec<(u32, u32)>,
}

impl PciConfigAccess for FakeBus {
    fn read_config_word(&mut self, address: u32) -> u32 {
        self.words.iter().find(|(a, _)| *a == address).map(|(_, w)| *w).unwrap_or(0xFFFF_FFFF)
    }

    fn write_config_word(&mut self, address: u32, data: u32) {
        self.writes.push((address, data));
    }
}

#[test]
fn pci_addresses_and_decoding() {
    assert_eq!(get_pci_addres(1, 2, 3, 0x10), 0x8001_1310);
    assert!(vendor_absent(0x1234_FFFF));
    assert!(!vendor_absent(0xFFFF_1234));
    assert_eq!(command_word(0xABCD_1234, 0x0006), 0xABCD_0006);
    let d = decode_device(0, 3, 0x7E43_8086, 0x0290_0107, 0x0805_0100, 0x0000_0010);
    assert_eq!(d.device_id, 0x7E43);
    assert_eq!(d.vendor_id, 0x8086);
    assert_eq!(d.status, 0x0290);
    assert_eq!(d.command, PCICommand(0x0107));
    assert_eq!((d.class_code, d.subclass, d.programming_interface, d.revision_id), (8, 5, 1, 0));
    assert_eq!(d.cache_line_size, 0x10);
    let devices = vec![
        DeviceInfo { class_code: 0x0C, subclass: 0x03, programming_interface: 0x30, ..d },
        d,
    ];
    assert_eq!(find_sd_card(&devices), Some(1));
    assert_eq!(find_xhci_inferface(&devices), Some(0));
    assert_eq!(find_sd_card(&devices[..1].to_vec()), None);
}

#[test]
fn pci_walk() {
    let base = get_pci_addres(0, 3, 0, 0);
    let mut bus = FakeBus {
        words: vec![(base, 0x7E43_8086), (base + 4, 0x0290_0107), (base + 8, 0x0805_0100), (base + 12, 0)],
        writes: vec![],
    };
    let mut port = ConfigPort::new(bus);
    let found = walk_pci_bus(&mut port);
    assert_eq!(found.len(), 1);
    assert_eq!((found[0].bus, found[0].device, found[0].vendor_id), (0, 3, 0x8086));
    assert!(port.access().writes.is_empty());
}

#[test]
fn pci_probe_steps() {
    let base = get_pci_addres(2, 5, 0, 0);
    assert_eq!(base, 0x8002_2800);
    let mut words: Vec<u32> = Vec::new();
    assert_eq!(probe_step(2, 5, &words), ProbeStep::Read(base));
    words.push(0x7E43_8086);
    assert_eq!(probe_step(2, 5, &words), ProbeStep::Read(base + 4));
    words.push(0x0290_0107);
    assert_eq!(probe_step(2, 5, &words), ProbeStep::Read(base + 8));
    words.push(0x0805_0100);
    assert_eq!(probe_step(2, 5, &words), ProbeStep::Read(base + 12));
    words.push(0x0000_0010);
    let expected = decode_device(2, 5, 0x7E43_8086, 0x0290_0107, 0x0805_0100, 0x0000_0010);
    assert_eq!(probe_step(2, 5, &words), ProbeStep::Done(Some(expected)));
    // No device answers: nothing is read past the vendor word.
    assert_eq!(probe_step(2, 5, &vec![0xFFFF_FFFF]), ProbeStep::Done(None));
    let mut bus = FakeBus {
        words: vec![(base, 0x7E43_8086), (base + 4, 0x0290_0107), (base + 8, 0x0805_0100), (base + 12, 0x10)],
        writes: vec![],
    };
    let mut port = ConfigPort::new(bus);
    assert_eq!(device_connected(&mut port, 2, 5), Some(expected));
    assert_eq!(device_connected(&mut port, 2, 6), None);
}

#[test]
fn sd_card_decisions() {
    assert_eq!(power_control_for(1 << 24), Ok(0xE));
    assert_eq!(power_control_for(1 << 26), Ok(0xA));
    assert_eq!(power_control_for(1 << 25), Ok(0xC));
    assert_eq!(power_control_for(0), Err(SDCardError::VoltageUnableToBeSet));
    assert_eq!(error_state_ok(0), Ok(()));
    assert_eq!(error_state_ok(4), Err(SDCardError::GenericSDError));
    assert_eq!(present_state_ok(0x1), Err(SDCardError::CommandInhibited));
    assert_eq!(present_state_ok(0x0800_0000), Err(SDCardError::CommandStoppedDueToError));
    assert_eq!(present_state_ok(0x0001_0000), Ok(()));
    assert_eq!(present_state_ok(0), Ok(()));
    assert_eq!(present_state_ok(0x0801_0000), Err(SDCardError::CommandStoppedDueToError));
    assert_eq!(memory_space_off(PCICommand(0x0107)), PCICommand(0x0105));
    assert_eq!(memory_and_bus_master_on(PCICommand(0x0401)), PCICommand(0x0407));
    assert_eq!(command_value(17, SDResponseTypes::R1, 0x20), (17 << 8) | 0x2 | 0x20 | 0x18);
    assert_eq!(command_value(2, SDResponseTypes::R2, 0), (2 << 8) | 0x1 | 0x8);
    assert_eq!(command_value(0, SDResponseTypes::R0, 0), 0);
    assert_eq!(command_value(7, SDResponseTypes::R1b, 0), (7 << 8) | 0x3 | 0x18);
    assert_eq!(command_value(41, SDResponseTypes::R3, 0), (41 << 8) | 0x2);
    assert_eq!(clock_stopped(0xFFFF), 0xFFFE);
    assert_eq!(clock_divided(0x1234), 0x8034);
    assert!(clock_stable(0b10));
    assert!(!clock_stable(0b01));
    assert_eq!(bar_address(0xFEBF_1004), 0xFEBF_1000);
    assert_eq!(r2_response(1, 2, 3, 4), ((4u128 << 96) | (3u128 << 64) | (2u128 << 32) | 1) << 8);
}

#[test]
fn sd_card_csd() {
    let csd: u128 = (1u128 << 126) | (0x00_1DFFu128 << 48);
    assert_eq!(csd_structure(csd), 1);
    let internal = SDCardInfoInternal { capabilities: 0, base_address_register: 0x1000 };
    let info = get_full_sd_card_info(&internal, 0x1234_0000, csd).unwrap();
    assert_eq!(info.block_size, 512);
    assert_eq!(info.total_blocks, 0x1E00 * 1024);
    assert_eq!(info.reletave_card_address, 0x1234_0000);
}

fn expect_send(step: ResetStep, argument: u32, index: u8, response_type: SDResponseTypes) {
    match step {
        ResetStep::Send { argument: a, index: i, response_type: t } => {
            assert_eq!((a, i, t), (argument, index, response_type));
        }
        other => panic!("unexpected step {:?}", other),
    }
}

#[test]
fn sd_reset_protocol_steps() {
    let internal = SDCardInfoInternal { capabilities: 0, base_address_register: 0x1000 };
    let csd: u128 = (1u128 << 126) | (0x00_1DFFu128 << 48);
    let script: [(u32, u8, SDResponseTypes, SDCommandResponse); 13] = [
        (0, 0, SDResponseTypes::R0, SDCommandResponse::NoResponse),
        (0x1aa, 8, SDResponseTypes::R7, SDCommandResponse::NoResponse),
        (0, 55, SDResponseTypes::R1, SDCommandResponse::Response32Bits(0x120)),
        (0, 41, SDResponseTypes::R3, SDCommandResponse::Response32Bits(0x00FF_8012)),
        (0, 0, SDResponseTypes::R0, SDCommandResponse::NoResponse),
        (0x1aa, 8, SDResponseTypes::R7, SDCommandResponse::NoResponse),
        (0, 55, SDResponseTypes::R1, SDCommandResponse::Response32Bits(0x120)),
        (0x40_0012, 41, SDResponseTypes::R3, SDCommandResponse::Response32Bits(0xC0FF_8000)),
        (0, 2, SDResponseTypes::R2, SDCommandResponse::Response128Bits(0)),
        (0, 3, SDResponseTypes::R6, SDCommandResponse::Response32Bits(0x1234_0000)),
        (0x1234_0000, 9, SDResponseTypes::R2, SDCommandResponse::Response128Bits(csd)),
        (0x1234_0000, 13, SDResponseTypes::R1, SDCommandResponse::Response32Bits(0x900)),
        (0x1234_0000, 7, SDResponseTypes::R1b, SDCommandResponse::Response32Bits(0x700)),
    ];
    let mut rs: Vec<SDCommandResponse> = Vec::new();
    for (argument, index, t, answer) in script.iter() {
        expect_send(reset_step(&internal, &rs), *argument, *index, *t);
        rs.push(*answer);
    }
    match reset_step(&internal, &rs) {
        ResetStep::Done(Ok(info)) => {
            assert_eq!(info.total_blocks, 0x1E00 * 1024);
            assert_eq!(info.reletave_card_address, 0x1234_0000);
            assert_eq!(info.block_size, 512);
        }
        other => panic!("unexpected step {:?}", other),
    }
    // An ACMD41 answer without 32 bits stops the protocol.
    let mut bad: Vec<SDCommandResponse> = rs[..4].to_vec();
    bad[3] = SDCommandResponse::NoResponse;
    assert!(matches!(reset_step(&internal, &bad), ResetStep::Done(Err(SDCardError::GenericSDError))));
    // Card-specific data of another version stops it after CMD9.
    let mut old_card: Vec<SDCommandResponse> = rs[..11].to_vec();
    old_card[10] = SDCommandResponse::Response128Bits(0);
    assert!(matches!(reset_step(&internal, &old_card), ResetStep::Done(Err(SDCardError::GenericSDError))));
}

#[test]
fn sd_transfer_steps() {
    let mut data = [0u8; 512];
    data[0] = 0x01;
    data[1] = 0x02;
    data[2] = 0x03;
    data[3] = 0x04;
    data[508] = 0xAA;
    data[511] = 0xDD;
    let read: Vec<TransferStep> = (0..136).map(|k| transfer_step(3, false, &data, k)).collect();
    assert_eq!(read[0], TransferStep::Write16(0x4, 0x200));
    assert_eq!(read[1], TransferStep::Write16(0x6, 1));
    assert_eq!(read[2], TransferStep::CheckCommandLine);
    assert_eq!(read[3], TransferStep::Write32(0x8, 3 * 512));
    assert_eq!(read[4], TransferStep::Write16(0xC, 0x10));
    assert_eq!(read[5], TransferStep::Command(17, SDResponseTypes::R1, 0x20));
    assert_eq!(read[6], TransferStep::WaitFor(0x800));
    assert!(read[7..135].iter().all(|s| *s == TransferStep::Read32(0x20)));
    assert_eq!(read[135], TransferStep::Done);
    let write: Vec<TransferStep> = (0..136).map(|k| transfer_step(3, true, &data, k)).collect();
    assert_eq!(write[4], TransferStep::Write16(0xC, 0));
    assert_eq!(write[5], TransferStep::Command(24, SDResponseTypes::R1, 0x20));
    assert_eq!(write[6], TransferStep::WaitFor(0x400));
    assert_eq!(write[7], TransferStep::Write32(0x20, 0x0403_0201));
    assert_eq!(write[8], TransferStep::Write32(0x20, 0));
    assert_eq!(write[134], TransferStep::Write32(0x20, 0xDD00_00AA));
    assert_eq!(write[135], TransferStep::Done);
}

#[test]
fn sd_card_word_bytes() {
    let mut words = vec![0u32; 128];
    words[0] = 0x0403_0201;
    words[127] = 0xDDCC_BBAA;
    let bytes = words_to_bytes(&words);
    assert_eq!(&bytes[0..4], &[1, 2, 3, 4]);
    assert_eq!(&bytes[508..512], &[0xAA, 0xBB, 0xCC, 0xDD]);
}

#[test]
fn registers_and_states() {
    let r = Registers::new();
    assert_eq!(r.rax, 0);
    assert_eq!(r.rip, 0);
    assert!(r == Registers::default());
    assert_ne!(ProcessState::Ready, ProcessState::Blocked);
    assert!(taos::processes::init(0));
    assert!(!taos::processes::init(1));
}

fn tiny_elf() -> Vec<u8> {
    let mut e = vec![0u8; 64 + 56 + 16];
    e[0..4].copy_from_slice(b"\x7fELF");
    e[4] = 2; // 64-bit
    e[5] = 1; // little-endian
    e[6] = 1; // version
    e[16..18].copy_from_slice(&2u16.to_le_bytes()); // executable
    e[18..20].copy_from_slice(&0x3Eu16.to_le_bytes()); // x86-64
    e[20..24].copy_from_slice(&1u32.to_le_bytes());
    e[24..32].copy_from_slice(&0x40_1000u64.to_le_bytes()); // entry
    e[32..40].copy_from_slice(&64u64.to_le_bytes()); // program headers
    e[52..54].copy_from_slice(&64u16.to_le_bytes());
    e[54..56].copy_from_slice(&56u16.to_le_bytes());
    e[56..58].copy_from_slice(&1u16.to_le_bytes());
    let ph = 64;
    e[ph..ph + 4].copy_from_slice(&1u32.to_le_bytes()); // PT_LOAD
    e[ph + 4..ph + 8].copy_from_slice(&5u32.to_le_bytes()); // R + X
    e[ph + 8..ph + 16].copy_from_slice(&120u64.to_le_bytes()); // offset
    e[ph + 16..ph + 24].copy_from_slice(&0x40_1000u64.to_le_bytes()); // vaddr
    e[ph + 24..ph + 32].copy_from_slice(&0x40_1000u64.to_le_bytes()); // paddr
    e[ph + 32..ph + 40].copy_from_slice(&16u64.to_le_bytes()); // filesz
    e[ph + 40..ph + 48].copy_from_slice(&0x2000u64.to_le_bytes()); // memsz
    e[ph + 48..ph + 56].copy_from_slice(&0x1000u64.to_le_bytes()); // align
    e
}

#[test]
fn elf_load_plan() {
    let plan = load_elf(&tiny_elf()).unwrap();
    assert_eq!(plan.entry, 0x40_1000);
    assert_eq!(plan.segments.len(), 1);
    let s = plan.segments[0];
    assert_eq!(s.first_page, 0x40_1000);
    assert_eq!(s.page_count, 2);
    assert_eq!(s.page_flags, 1 | 2 | 4);
    assert_eq!((s.file_offset, s.file_size), (120, 16));
    assert_eq!(page_fill(&s, 0), (16, 16));
    assert_eq!(page_fill(&s, 1), (0, 0));
    assert_eq!(plan.stack_top, 0x7000_0000_0000 + 8192);
    assert_eq!(plan.stack_page_count, 3);
    assert!(load_elf(b"not an elf").is_none());
}

#[test]
fn elf_segment_checks() {
    let ok = vec![(PT_LOAD, 2u32, 0x1000u64, 0x10u64, 0x10u64, 0u64), (2u32, 0u32, 0u64, 0u64, 0u64, 0u64)];
    let plans = plan_segments(&ok, 0x10).unwrap();
    assert_eq!(plans.len(), 1);
    assert_eq!(
        plans[0],
        SegmentPlan {
            first_page: 0x1000,
            page_count: 1,
            map_flags: 7,
            page_flags: 7 | 0x8000_0000_0000_0000,
            file_offset: 0,
            file_size: 0x10,
        }
    );
    let empty = vec![(PT_LOAD, 0u32, 0x1000u64, 0u64, 0u64, 0u64)];
    assert!(plan_segments(&empty, 0x10).is_none());
    let past_end = vec![(PT_LOAD, 0u32, 0x1000u64, 0x10u64, 0x20u64, 0u64)];
    assert!(plan_segments(&past_end, 0x10).is_none());
    // File bytes past the last page the memory size reaches are never read.
    let long_file = vec![(PT_LOAD, 0u32, 0x1000u64, 0x10u64, 0x3000u64, 0u64)];
    assert_eq!(plan_segments(&long_file, 0x1000).unwrap()[0].file_size, 0x3000);
    assert!(plan_segments(&long_file, 0xFFF).is_none());
    let non_canonical = vec![(PT_LOAD, 0u32, 0x0000_8000_0000_0000u64, 0x10u64, 0u64, 0u64)];
    assert!(plan_segments(&non_canonical, 0x10).is_none());
}

/// A configuration space in memory: each address keeps the last word
/// written, and one never written reads as all ones.
struct ConfigSpace {
    words: Vec<(u32, u32)>,
}

impl PciConfigAccess for ConfigSpace {
    fn read_config_word(&mut self, address: u32) -> u32 {
        self.words.iter().find(|(a, _)| *a == address).map(|(_, w)| *w).unwrap_or(0xFFFF_FFFF)
    }

    fn write_config_word(&mut self, address: u32, data: u32) {
        self.words.retain(|(a, _)| *a != address);
        self.words.push((address, data));
    }
}

/// Controller registers in memory: each offset keeps the last value
/// written, zero before, and a read gives it back cut to its width.
struct RegisterFile {
    values: Vec<(u64, u64)>,
}

impl RegisterFile {
    fn value(&self, offset: u64) -> u64 {
        self.values.iter().find(|(o, _)| *o == offset).map(|(_, v)| *v).unwrap_or(0)
    }

    fn store(&mut self, offset: u64, value: u64) {
        self.values.retain(|(o, _)| *o != offset);
        self.values.push((offset, value));
    }
}

impl SdHost for RegisterFile {
    fn read_u8(&mut self, offset: u64) -> u8 {
        self.value(offset) as u8
    }
    fn read_u16(&mut self, offset: u64) -> u16 {
        self.value(offset) as u16
    }
    fn read_u32(&mut self, offset: u64) -> u32 {
        self.value(offset) as u32
    }
    fn read_u64(&mut self, offset: u64) -> u64 {
        self.value(offset)
    }
    fn write_u8(&mut self, offset: u64, value: u8) {
        self.store(offset, value as u64)
    }
    fn write_u16(&mut self, offset: u64, value: u16) {
        self.store(offset, value as u64)
    }
    fn write_u32(&mut self, offset: u64, value: u32) {
        self.store(offset, value as u64)
    }
}

#[test]
fn pci_walk_over_config_space() {
    let mut space = ConfigPort::new(ConfigSpace { words: vec![] });
    let base = get_pci_addres(1, 7, 0, 0);
    space.write_config_word(base, 0x7E43_8086);
    space.write_config_word(base + 4, 0x0290_0107);
    space.write_config_word(base + 8, 0x0805_0100);
    space.write_config_word(base + 12, 0x10);
    let first = get_pci_addres(0, 2, 0, 0);
    space.write_config_word(first, 0x1111_2222);
    let found = walk_pci_bus(&mut space);
    assert_eq!(found.len(), 2);
    assert_eq!((found[0].bus, found[0].device, found[0].vendor_id, found[0].device_id), (0, 2, 0x2222, 0x1111));
    assert_eq!(found[0].class_code, 0xFF);
    assert_eq!((found[1].bus, found[1].device, found[1].vendor_id), (1, 7, 0x8086));
    assert_eq!(found[1].class_code, 0x08);
    write_pci_command(&mut space, 1, 7, 0, PCICommand(0x0006));
    assert_eq!(space.read_config_word(base + 4), 0x0290_0006);
}

fn sd_info() -> SDCardInfo {
    SDCardInfo {
        internal_info: SDCardInfoInternal { capabilities: 0, base_address_register: 0 },
        block_size: 512,
        total_blocks: 1024,
        reletave_card_address: 0,
    }
}

/// Registers of a controller that is ready for a transfer: no error, the
/// lines free, the buffer readable and writable, and every command done.
fn ready_registers() -> SdRegisters<RegisterFile> {
    let mut regs = SdRegisters::new(RegisterFile { values: vec![] });
    regs.write_u32(0x24, 0xC00);
    regs.write_u16(0x30, 1);
    regs
}

#[test]
fn sd_read_block_from_registers() {
    let mut regs = ready_registers();
    regs.write_u32(0x20, 0x0403_0201);
    let bytes = read_sd_card(&mut regs, &sd_info(), 5).unwrap();
    for i in 0..512 {
        assert_eq!(bytes[i], (i % 4) as u8 + 1);
    }
    // The byte address of block 5, the read direction and CMD17.
    assert_eq!(regs.read_u32(0x8), 5 * 512);
    assert_eq!(regs.read_u16(0xC), 0x10);
    assert_eq!(regs.read_u16(0xE), command_value(17, SDResponseTypes::R1, 0x20));
}

#[test]
fn sd_write_block_to_registers() {
    let mut regs = ready_registers();
    let mut data = [0u8; 512];
    for i in 0..512 {
        data[i] = i as u8;
    }
    assert_eq!(write_sd_card(&mut regs, &sd_info(), 9, data), Ok(()));
    assert_eq!(regs.read_u32(0x8), 9 * 512);
    assert_eq!(regs.read_u16(0xC), 0);
    assert_eq!(regs.read_u16(0xE), command_value(24, SDResponseTypes::R1, 0x20));
    // The last word through the data port is bytes 508..512, little-endian.
    assert_eq!(regs.read_u32(0x20), 0xFFFE_FDFC);
}

#[test]
fn sd_transfer_failures() {
    // The buffer never becomes readable: the wait times out.
    let mut regs = SdRegisters::new(RegisterFile { values: vec![] });
    regs.write_u16(0x30, 1);
    assert_eq!(read_sd_card(&mut regs, &sd_info(), 0), Err(SDCardError::SDTimeout));
    // The command line is busy: the check refuses the command.
    let mut busy = ready_registers();
    busy.write_u32(0x24, 0xC01);
    assert_eq!(read_sd_card(&mut busy, &sd_info(), 0), Err(SDCardError::CommandInhibited));
    // The error status is set.
    let mut failing = ready_registers();
    failing.write_u16(0x32, 1);
    assert_eq!(write_sd_card(&mut failing, &sd_info(), 0, [0u8; 512]), Err(SDCardError::GenericSDError));
}
