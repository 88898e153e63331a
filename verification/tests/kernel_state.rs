use taos::devices::xhci::{
    max_device_slots, operational_registers, reset_advance, reset_next_access, xhci_full_bar,
    XHCICapabilities, XhciRegisterAccess, XhciResetState, CMD_HOST_CONTROLLER_RESET,
    CMD_RUN_HOST_CONTROLLER, STS_CONTROLLER_NOT_READY, STS_HC_HALTED,
};
use taos::interrupts::idt::{decode_syscall, page_fault_grows_stack, Syscall};
use taos::memory::boot_frame_allocator::BootIntoFrameAllocator;
use taos::memory::MemoryRegion;
use taos::processes::process::{ProcessState, ProcessTable};
use taos::qemu::QemuExitCode;
use taos::memory::tlb::tlb_shootdown;
use taos::events::nanos_to_ticks;

#[test]
fn process_table_create_run_exit() {
    let mut table = ProcessTable::new();
    assert_eq!(table.next_pid(), 1);
    let a = table.create_process(0x7000_0000_2000, 0x40_1000, 0x5000);
    let b = table.create_process(0x7000_0000_2000, 0x40_2000, 0x6000);
    assert_eq!(a, 1);
    assert_eq!(b, 2);
    let pa = table.get(a).unwrap();
    assert_eq!(pa.state, ProcessState::New);
    assert_eq!(pa.registers.rsp, 0x7000_0000_2000);
    assert_eq!(pa.registers.rip, 0x40_1000);
    assert_eq!(pa.registers.rflags, 0x202);
    assert_eq!(pa.registers.rax, 0);
    assert_eq!(pa.pml4_frame, 0x5000);

    let running = table.start_running(b);
    assert_eq!(running.state, ProcessState::Running);
    assert_eq!(running.registers.rip, 0x40_2000);
    assert_eq!(table.get(b).unwrap().state, ProcessState::Running);
    assert_eq!(table.get(a).unwrap().state, ProcessState::New);

    table.set_kernel_return(b, 0xdead_0000, 0xbeef_0000);
    let done = table.exit_process(b);
    assert_eq!(done.state, ProcessState::Terminated);
    assert_eq!(done.kernel_rsp, 0xdead_0000);
    assert_eq!(done.kernel_rip, 0xbeef_0000);
    assert!(table.get(b).is_none());
    assert!(table.get(a).is_some());
    assert!(table.get(0).is_none());

    let pids: Vec<u32> = table.entries().iter().map(|p| p.pid).collect();
    assert_eq!(pids, vec![1]);
}

#[test]
fn process_table_fork_takes_next_pid() {
    let mut table = ProcessTable::new();
    let parent = table.create_process(1, 2, 3);
    let child = table.fork(parent);
    assert_eq!(child, 2);
    assert_eq!(table.next_pid(), 3);
    assert!(table.get(child).is_none());
    let next = table.create_process(4, 5, 6);
    assert_eq!(next, 3);
    let pids: Vec<u32> = table.entries().iter().map(|p| p.pid).collect();
    assert_eq!(pids, vec![1, 3]);
}

#[test]
fn xhci_bar_and_slots() {
    assert_eq!(xhci_full_bar(0xFEBF_000C, 0x1), 0x1_FEBF_0000);
    assert_eq!(xhci_full_bar(0x1234_5678, 0), 0x1234_5670);
    let mut caps = XHCICapabilities {
        register_length: 0x20,
        version_number: 0x100,
        structural_paramaters_1: 0,
        structural_paramaters_2: 0,
        structural_paramaters_3: 0,
        capability_paramaters_1: 0x0000_0140,
        doorbell_offset: 0,
        runtime_register_space_offset: 0,
        capability_paramaters_2: 0,
    };
    assert_eq!(operational_registers(0x1000, &caps), 0x1020);
    assert_eq!(max_device_slots(&caps), 4);
    caps.capability_paramaters_1 = 0x0000_0102;
    assert_eq!(max_device_slots(&caps), 2);
}

#[test]
fn xhci_reset_protocol() {
    // The controller is running, takes two polls to halt, clears the reset
    // bit on the second read and reports ready after one more poll.
    let mut state = XhciResetState::ReadCommand;
    let mut reads_command = vec![0x5u32, 0x2, 0x0].into_iter();
    let mut reads_status = vec![0x0u32, STS_HC_HALTED | STS_CONTROLLER_NOT_READY, 0x0].into_iter();
    let mut writes = Vec::new();
    let mut steps = 0;
    loop {
        steps += 1;
        assert!(steps < 20);
        match reset_next_access(&state) {
            XhciRegisterAccess::ReadCommand => {
                let v = reads_command.next().unwrap();
                state = reset_advance(state, v);
            }
            XhciRegisterAccess::ReadStatus => {
                let v = reads_status.next().unwrap();
                state = reset_advance(state, v);
            }
            XhciRegisterAccess::WriteCommand(w) => {
                writes.push(w);
                state = reset_advance(state, 0);
            }
            XhciRegisterAccess::Finished => break,
        }
    }
    assert_eq!(state, XhciResetState::Done);
    assert_eq!(writes, vec![0x4 | CMD_HOST_CONTROLLER_RESET]);
    assert_eq!(writes[0] & CMD_RUN_HOST_CONTROLLER, 0);
    assert!(reads_command.next().is_none());
    assert!(reads_status.next().is_none());
}

#[test]
fn boot_allocator_hands_out_frames_in_order() {
    let map = vec![
        MemoryRegion { base: 0x1000, length: 0x2000, usable: true },
        MemoryRegion { base: 0x10_0000, length: 0x1000, usable: false },
        MemoryRegion { base: 0x20_0000, length: 0x1800, usable: true },
    ];
    // The kernel occupies [0x80_0000, 0x90_0000) physically.
    let mut alloc = BootIntoFrameAllocator::init(&map, 0x80_0000, 0xffff_ffff_8000_0000, 0xffff_ffff_8010_0000);
    assert_eq!(alloc.usable_frame(0), Some(0x1000));
    assert_eq!(alloc.usable_frame(3), Some(0x20_1000));
    assert_eq!(alloc.usable_frame(4), None);
    assert_eq!(alloc.first_frame(), None);
    assert_eq!(alloc.allocate_frame(), Some(0x1000));
    assert_eq!(alloc.allocate_frame(), Some(0x2000));
    assert_eq!(alloc.allocate_frame(), Some(0x20_0000));
    assert_eq!(alloc.allocate_frame(), Some(0x20_1000));
    assert_eq!(alloc.allocate_frame(), None);
    assert_eq!(alloc.allocated_count(), 4);
    assert_eq!(alloc.first_frame(), Some(0x1000));
    assert_eq!(alloc.last_frame(), Some(0x20_1000));
    assert_eq!(alloc.allocated_frames(), vec![0x1000, 0x2000, 0x3000, 0x4000]);
}

#[test]
fn boot_allocator_skips_frames_of_the_kernel_inside_the_heap_range() {
    // A kernel image placed inside the heap's address range is skipped.
    let heap_start: u64 = 0x0000_4444_4444_0000;
    let map = vec![MemoryRegion { base: heap_start, length: 0x3000, usable: true }];
    let alloc = BootIntoFrameAllocator::init(&map, heap_start + 0x1000, 0, 0x1000);
    assert_eq!(alloc.usable_frame(0), Some(heap_start));
    assert_eq!(alloc.usable_frame(1), Some(heap_start + 0x2000));
    assert_eq!(alloc.usable_frame(2), None);
}

#[test]
fn page_fault_stack_growth() {
    let hhdm: u64 = 0xffff_8000_0000_0000;
    assert!(page_fault_grows_stack(0x7000_0000_1000, 0x7000_0000_0fc0, hhdm));
    assert!(!page_fault_grows_stack(0x7000_0000_1000, 0x7000_0000_0fbf, hhdm));
    assert!(page_fault_grows_stack(0x7000_0000_1000, 0x7000_0000_5000, hhdm));
    assert!(!page_fault_grows_stack(0x7000_0000_1000, hhdm, hhdm));
}

#[test]
fn syscall_decoding() {
    let mut saved = [0u64; 15];
    saved[0] = 1;
    assert_eq!(decode_syscall(&saved), Some(Syscall::Exit));
    saved[0] = 3;
    assert_eq!(decode_syscall(&saved), Some(Syscall::Print));
    saved[0] = 2;
    saved[5] = 1_000_000;
    assert_eq!(decode_syscall(&saved), Some(Syscall::Nanosleep { nanos: 1_000_000 }));
    saved[0] = 0x1_0000_0001;
    assert_eq!(decode_syscall(&saved), Some(Syscall::Exit));
    saved[0] = 99;
    assert_eq!(decode_syscall(&saved), None);
}

#[test]
fn qemu_exit_codes() {
    assert_eq!(QemuExitCode::Success.code(), 0x10);
    assert_eq!(QemuExitCode::Failed.code(), 0x11);
}

#[test]
fn tlb_shootdown_targets_every_other_core() {
    let mut addresses = vec![0u64; 64];
    addresses[3] = 0x55;
    let targets = tlb_shootdown(&mut addresses, 3, 0x4000);
    assert_eq!(targets.len(), 63);
    assert_eq!(targets[0], 0);
    assert_eq!(targets[2], 2);
    assert_eq!(targets[3], 4);
    assert_eq!(targets[62], 63);
    assert_eq!(addresses[3], 0x55);
    assert!(addresses.iter().enumerate().all(|(i, a)| i == 3 || *a == 0x4000));
}

#[test]
fn sleep_durations_in_ticks() {
    assert_eq!(nanos_to_ticks(10_000_000_000), 10_000);
    assert_eq!(nanos_to_ticks(999_999), 0);
    assert_eq!(nanos_to_ticks(1_000_000), 1);
}
