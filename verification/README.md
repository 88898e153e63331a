# taos

The core of the TAOS kernel as a verified library, and the kernel around it.

`src/` holds the logic, each function with a contract that Verus proves:

- `ipc` — the 9P-style protocol messages, their encoding and decoding
  (each message's decoding gives back what was encoded), and what the
  operations of a bounded channel decide.
- `filesys` — block devices and a FAT16 file system: boot sector, FAT
  entries, directory entries, paths, files, and the file-system operations.
- `memory` — the boot frame allocator, the bitmap frame allocator and TLB
  shootdown targets.
- `events` — the per-core event runner: priority queues, ageing, sleepers.
- `processes` — the process table, process registers and the ELF load plan.
- `interrupts`, `devices`, `syscalls` — the values written to the x2APIC,
  the PIT, the PCI configuration space, the SD host controller and the
  xHCI controller, the decisions of the interrupt handlers, and `mmap`
  planning. The probe of a PCI slot, the SD card's bring-up commands and
  its single-block transfers are step functions: from what was read so far
  to the next register access. The drivers reach the hardware only through
  `ConfigPort` and `SdRegisters`, which keep a record of every access, so
  the bus walk and the block transfers are stated as the exact sequence of
  accesses they make.

`app/` is the kernel binary: boot, port and memory-mapped I/O, page tables,
the interrupt table, the futures of the event loop and the lock-free
channel. It calls the library for every decision.

`tests/` runs the library on concrete values.
