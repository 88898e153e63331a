//! Interrupt controllers: the values the kernel writes to them.

pub mod idt;
pub mod x2apic;
