//! Devices on the PCI bus: finding them and driving the SD host controller.

pub mod pci;
pub mod sd_card;
pub mod xhci;
