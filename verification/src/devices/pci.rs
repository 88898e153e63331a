//! The PCI bus: configuration addresses, the decoding of configuration
//! headers, and the walk over the bus.

use vstd::prelude::*;

verus! {

/// The port through which a configuration address is set.
pub const CONFIG_ADDRESS_BUS: u16 = 0xCF8;
/// The port through which configuration data is read and written.
pub const CONFIG_DATA_BUS: u16 = 0xCFC;

/// The command register of a PCI device, as bits.
#[derive(Debug, Clone, Copy, PartialEq, Eq, Structural)]
pub struct PCICommand(pub u16);

impl PCICommand {
    /// The device may not send an INTx# signal.
    pub const INTERRUPT_DISABLE: u16 = 0x400;
    /// Fast back-to-back transactions are allowed (read only).
    pub const FAST_BACK_TO_BACK_ENABLE: u16 = 0x200;
    /// The SERR# driver is enabled.
    pub const SERR_ENABLE: u16 = 0x100;
    /// Parity errors get the normal response.
    pub const PARITY_ERROR_RESPONSE: u16 = 0x40;
    /// Palette register writes are snooped (read only).
    pub const VGA_PALLETE_SNOOP: u16 = 0x20;
    /// Memory Write and Invalidate may be issued (read only).
    pub const MEMORY_WRITE_AND_INVILIDATE_ENABLE: u16 = 0x10;
    /// Special cycles are monitored (read only).
    pub const SPECIAL_CYCLES: u16 = 0x8;
    /// The device may act as a bus master.
    pub const BUS_MASTER: u16 = 0x4;
    /// The device responds to memory-space accesses.
    pub const MEMORY_SPACE: u16 = 0x2;
    /// The device responds to I/O-space accesses.
    pub const IO_SPACE: u16 = 0x1;

    /// The bits of the command.
    pub fn bits(&self) -> (r: u16)
        ensures
            r == self.0,
    {
        self.0
    }
}

/// What the configuration header of a single-function PCI device says.
#[derive(Debug, Clone, Copy, PartialEq, Eq, Structural)]
pub struct DeviceInfo {
    /// The bus of the device.
    pub bus: u8,
    /// The device number on its bus.
    pub device: u8,
    /// The vendor's identifier of the device.
    pub device_id: u16,
    /// The identifier of the vendor.
    pub vendor_id: u16,
    /// The status register when the bus was walked.
    pub status: u16,
    /// The command register when the bus was walked.
    pub command: PCICommand,
    /// The general kind of device.
    pub class_code: u8,
    /// The kind of device within its class.
    pub subclass: u8,
    /// The register-level programming interface.
    pub programming_interface: u8,
    /// The vendor's revision of the device.
    pub revision_id: u8,
    /// The built-in self test register.
    pub built_in_self_test: u8,
    /// The layout of the rest of the header.
    pub header_type: u8,
    /// The latency timer, in bus clocks.
    pub latency_timer: u8,
    /// The cache line size, in 32-bit units.
    pub cache_line_size: u8,
}

/// One access to the configuration space: the address and the word read
/// or written.
#[derive(Debug, Clone, Copy, PartialEq, Eq, Structural)]
pub enum ConfigAccess {
    /// The word at `.0` was read and was `.1`.
    Read(u32, u32),
    /// The word `.1` was written at `.0`.
    Write(u32, u32),
}

/// Access to the configuration space of the PCI bus: reading and writing
/// the 32-bit word at a configuration address.
pub trait PciConfigAccess {
    /// Reads the configuration word at `address`.
    fn read_config_word(&mut self, address: u32) -> u32;

    /// Writes `data` to the configuration word at `address`.
    fn write_config_word(&mut self, address: u32, data: u32);
}

/// The configuration space reached through `access`, with a record, in
/// order, of every access made to it: the drivers reach the bus only
/// through this.
pub struct ConfigPort<A: PciConfigAccess> {
    access: A,
    log: Ghost<Seq<ConfigAccess>>,
}

impl<A: PciConfigAccess> ConfigPort<A> {
    /// The accesses made so far, oldest first.
    pub closed spec fn config_accesses(&self) -> Seq<ConfigAccess> {
        self.log@
    }

    /// The configuration space behind `access`, with no access made yet.
    pub fn new(access: A) -> (r: Self)
        ensures
            r.config_accesses() == Seq::<ConfigAccess>::empty(),
    {
        ConfigPort { access, log: Ghost(Seq::empty()) }
    }

    /// The access the port goes through.
    pub fn access(&self) -> &A {
        &self.access
    }

    /// Reads the configuration word at `address`.
    pub fn read_config_word(&mut self, address: u32) -> (r: u32)
        ensures
            final(self).config_accesses() == old(self).config_accesses().push(ConfigAccess::Read(address, r)),
    {
        let r = self.access.read_config_word(address);
        self.log = Ghost(self.log@.push(ConfigAccess::Read(address, r)));
        r
    }

    /// Writes `data` to the configuration word at `address`.
    pub fn write_config_word(&mut self, address: u32, data: u32)
        ensures
            final(self).config_accesses() == old(self).config_accesses().push(ConfigAccess::Write(address, data)),
    {
        self.access.write_config_word(address, data);
        self.log = Ghost(self.log@.push(ConfigAccess::Write(address, data)));
    }
}

/// The configuration address of register `offset` of function `function`
/// of device `device` on bus `bus`: the enable bit, then bus, device,
/// function and offset.
pub open spec fn spec_pci_address(bus: u8, device: u8, function: u8, offset: u8) -> u32 {
    (0x8000_0000 + bus * 0x1_0000 + device * 0x800 + function * 0x100 + offset) as u32
}

/// The configuration address of a register, as `spec_pci_address` says.
pub fn get_pci_addres(bus: u8, device: u8, function: u8, offset: u8) -> (r: u32)
    requires
        offset % 4 == 0,
        function < 8,
        device < 32,
    ensures
        r == spec_pci_address(bus, device, function, offset),
{
    let b = bus as u32;
    let d = device as u32;
    let f = function as u32;
    let o = offset as u32;
    assert((1u32 << 31u32) | (b << 16u32) | (d << 11u32) | (f << 8u32) | o == 0x8000_0000 + b * 0x1_0000
        + d * 0x800 + f * 0x100 + o) by (bit_vector)
        requires
            b < 256,
            d < 32,
            f < 8,
            o < 256,
            o % 4 == 0,
    ;
    (1u32 << 31u32) | (b << 16u32) | (d << 11u32) | (f << 8u32) | o
}

/// Reads register `offset` of a function's configuration space.
pub fn read_config<A: PciConfigAccess>(access: &mut ConfigPort<A>, bus: u8, device: u8, function: u8, offset: u8) -> (r: u32)
    requires
        offset % 4 == 0,
        function < 8,
        device < 32,
    ensures
        final(access).config_accesses() == old(access).config_accesses().push(
            ConfigAccess::Read(spec_pci_address(bus, device, function, offset), r),
        ),
{
    let address = get_pci_addres(bus, device, function, offset);
    access.read_config_word(address)
}

/// Writes `data` to register `offset` of a function's configuration space.
pub fn write_pci_data<A: PciConfigAccess>(
    access: &mut ConfigPort<A>,
    bus: u8,
    device: u8,
    function: u8,
    offset: u8,
    data: u32,
)
    requires
        offset % 4 == 0,
        function < 8,
        device < 32,
    ensures
        final(access).config_accesses() == old(access).config_accesses().push(
            ConfigAccess::Write(spec_pci_address(bus, device, function, offset), data),
        ),
{
    let address = get_pci_addres(bus, device, function, offset);
    access.write_config_word(address, data);
}

/// The word written to the command/status register to set the command to
/// `command`: the status half of `data` kept, the command half replaced.
pub fn command_word(data: u32, command: u16) -> (r: u32)
    ensures
        r == (data / 0x1_0000) * 0x1_0000 + command,
{
    let c = command as u32;
    assert((data & 0xFFFF_0000u32) | c == (data / 0x1_0000) * 0x1_0000 + c) by (bit_vector)
        requires
            c < 0x1_0000,
    ;
    (data & 0xFFFF_0000) | c
}

/// Sets the command register of a function to `command`, keeping the
/// status register as read.
pub fn write_pci_command<A: PciConfigAccess>(
    access: &mut ConfigPort<A>,
    bus: u8,
    device: u8,
    function: u8,
    command: PCICommand,
)
    requires
        function < 8,
        device < 32,
    ensures
        ({
            let before = old(access).config_accesses();
            let after = final(access).config_accesses();
            let address = spec_pci_address(bus, device, function, 4);
            &&& after.len() == before.len() + 2
            &&& after == before.push(after[before.len() as int]).push(after[before.len() + 1int])
            &&& after[before.len() as int] matches ConfigAccess::Read(a, d) && a == address
                && after[before.len() + 1int] == ConfigAccess::Write(
                address,
                ((d / 0x1_0000) * 0x1_0000 + command.0) as u32,
            )
        }),
{
    let address = get_pci_addres(bus, device, function, 4);
    let data = access.read_config_word(address);
    access.write_config_word(address, command_word(data, command.bits()));
}

/// Whether the first configuration word of a function says no device
/// answers there: its vendor identifier is all ones.
pub fn vendor_absent(word0: u32) -> (r: bool)
    ensures
        r == (word0 % 0x1_0000 == 0xFFFF),
{
    assert(word0 & 0xFFFFu32 == word0 % 0x1_0000) by (bit_vector);
    (word0 & 0xFFFF) == 0xFFFF
}

/// The header of device `device` on bus `bus` whose first four
/// configuration words are `w0` to `w3`.
pub open spec fn spec_decode_device(bus: u8, device: u8, w0: u32, w1: u32, w2: u32, w3: u32) -> DeviceInfo {
    DeviceInfo {
        bus,
        device,
        device_id: (w0 / 0x1_0000) as u16,
        vendor_id: (w0 % 0x1_0000) as u16,
        status: (w1 / 0x1_0000) as u16,
        command: PCICommand((w1 % 0x1_0000) as u16),
        class_code: (w2 / 0x100_0000) as u8,
        subclass: ((w2 / 0x1_0000) % 0x100) as u8,
        programming_interface: ((w2 / 0x100) % 0x100) as u8,
        revision_id: (w2 % 0x100) as u8,
        built_in_self_test: (w3 / 0x100_0000) as u8,
        header_type: ((w3 / 0x1_0000) % 0x100) as u8,
        latency_timer: ((w3 / 0x100) % 0x100) as u8,
        cache_line_size: (w3 % 0x100) as u8,
    }
}

/// The top and bottom halves of a word.
fn halves(w: u32) -> (r: (u16, u16))
    ensures
        r.0 == w / 0x1_0000,
        r.1 == w % 0x1_0000,
{
    assert(w >> 16u32 == w / 0x1_0000) by (bit_vector);
    assert(w & 0xFFFFu32 == w % 0x1_0000) by (bit_vector);
    ((w >> 16u32) as u16, (w & 0xFFFF) as u16)
}

/// The four bytes of a word, most significant first.
fn bytes_of(w: u32) -> (r: (u8, u8, u8, u8))
    ensures
        r.0 == w / 0x100_0000,
        r.1 == (w / 0x1_0000) % 0x100,
        r.2 == (w / 0x100) % 0x100,
        r.3 == w % 0x100,
{
    assert(w >> 24u32 == w / 0x100_0000) by (bit_vector);
    assert((w & 0x00FF_0000u32) >> 16u32 == (w / 0x1_0000) % 0x100) by (bit_vector);
    assert((w & 0x0000_FF00u32) >> 8u32 == (w / 0x100) % 0x100) by (bit_vector);
    assert(w & 0xFFu32 == w % 0x100) by (bit_vector);
    (
        (w >> 24u32) as u8,
        ((w & 0x00FF_0000) >> 16u32) as u8,
        ((w & 0x0000_FF00) >> 8u32) as u8,
        (w & 0xFF) as u8,
    )
}

/// Decodes the first four configuration words of a device.
pub fn decode_device(bus: u8, device: u8, w0: u32, w1: u32, w2: u32, w3: u32) -> (r: DeviceInfo)
    ensures
        r == spec_decode_device(bus, device, w0, w1, w2, w3),
{
    let (device_id, vendor_id) = halves(w0);
    let (status, command) = halves(w1);
    let (class_code, subclass, programming_interface, revision_id) = bytes_of(w2);
    let (built_in_self_test, header_type, latency_timer, cache_line_size) = bytes_of(w3);
    DeviceInfo {
        bus,
        device,
        device_id,
        vendor_id,
        status,
        command: PCICommand(command),
        class_code,
        subclass,
        programming_interface,
        revision_id,
        built_in_self_test,
        header_type,
        latency_timer,
        cache_line_size,
    }
}

/// The header decoded from the first four configuration words, field by
/// field: the vendor in the low half of word 0 and the device in its high
/// half; the command in the low half of word 1 and the status in its high
/// half; the revision, interface, subclass and class in the bytes of word
/// 2 from the lowest; the cache line size, latency timer, header type and
/// self-test in the bytes of word 3 from the lowest.
pub proof fn lemma_decode_fields(bus: u8, device: u8, w0: u32, w1: u32, w2: u32, w3: u32)
    ensures
        ({
            let d = spec_decode_device(bus, device, w0, w1, w2, w3);
            &&& d.bus == bus && d.device == device
            &&& d.vendor_id == w0 % 0x1_0000 && d.device_id == w0 / 0x1_0000
            &&& d.command.0 == w1 % 0x1_0000 && d.status == w1 / 0x1_0000
            &&& d.revision_id == w2 % 0x100 && d.programming_interface == (w2 / 0x100) % 0x100
            &&& d.subclass == (w2 / 0x1_0000) % 0x100 && d.class_code == w2 / 0x100_0000
            &&& d.cache_line_size == w3 % 0x100 && d.latency_timer == (w3 / 0x100) % 0x100
            &&& d.header_type == (w3 / 0x1_0000) % 0x100 && d.built_in_self_test == w3 / 0x100_0000
        }),
{
}

/// What probing the first function of a slot does next.
#[derive(Debug, Clone, Copy, PartialEq, Eq, Structural)]
pub enum ProbeStep {
    /// Read the configuration word at this address.
    Read(u32),
    /// The probe is over: the device that answers there, if one does.
    Done(Option<DeviceInfo>),
}

/// The next step of probing device `device` on bus `bus` once the
/// configuration words `words` of its function 0 were read, in order from
/// offset 0: the words at offsets 0, 4, 8 and 12 in turn, then the header
/// they make; nothing past the first word when its vendor is all ones.
pub open spec fn spec_probe_step(bus: u8, device: u8, words: Seq<u32>) -> ProbeStep {
    if words.len() >= 1 && words[0] % 0x1_0000 == 0xFFFF {
        ProbeStep::Done(None)
    } else if words.len() < 4 {
        ProbeStep::Read(spec_pci_address(bus, device, 0, (4 * words.len()) as u8))
    } else {
        ProbeStep::Done(Some(spec_decode_device(bus, device, words[0], words[1], words[2], words[3])))
    }
}

/// The next step of probing a slot, as `spec_probe_step` says.
pub fn probe_step(bus: u8, device: u8, words: &Vec<u32>) -> (r: ProbeStep)
    requires
        device < 32,
        words@.len() <= 4,
    ensures
        r == spec_probe_step(bus, device, words@),
{
    let n = words.len();
    if n >= 1 && vendor_absent(words[0]) {
        return ProbeStep::Done(None);
    }
    if n < 4 {
        let offset = (4 * n) as u8;
        return ProbeStep::Read(get_pci_addres(bus, device, 0, offset));
    }
    ProbeStep::Done(Some(decode_device(bus, device, words[0], words[1], words[2], words[3])))
}

/// The reads of probing device `device` on bus `bus` that gave `words`:
/// the word at offset `4 * i` of function 0 gave `words[i]`.
pub open spec fn probe_log(bus: u8, device: u8, words: Seq<u32>) -> Seq<ConfigAccess> {
    Seq::new(words.len(), |i: int| ConfigAccess::Read(spec_pci_address(bus, device, 0, (4 * i) as u8), words[i]))
}

/// Whether `words` are all the words a probe of the slot reads: each read
/// was asked for by the words before it, and after the last one the probe
/// is over.
pub open spec fn probe_complete(bus: u8, device: u8, words: Seq<u32>) -> bool {
    &&& words.len() <= 4
    &&& spec_probe_step(bus, device, words) is Done
    &&& forall|i: int| 0 <= i < words.len() ==> (#[trigger] spec_probe_step(bus, device, words.take(i))) is Read
}

/// The header of the device at `bus` and `device`, read through `access`
/// as `probe_step` directs; nothing when no device answers there. The
/// accesses made are the reads of the probe, and the result is where the
/// probe ends.
pub fn device_connected<A: PciConfigAccess>(access: &mut ConfigPort<A>, bus: u8, device: u8) -> (r: Option<DeviceInfo>)
    requires
        device < 32,
    ensures
        exists|words: Seq<u32>|
            #![trigger probe_log(bus, device, words)]
            {
                &&& probe_complete(bus, device, words)
                &&& spec_probe_step(bus, device, words) == ProbeStep::Done(r)
                &&& final(access).config_accesses() == old(access).config_accesses() + probe_log(bus, device, words)
            },
        r matches Some(d) ==> d.bus == bus && d.device == device && d.vendor_id != 0xFFFF,
{
    let ghost start = access.config_accesses();
    let mut words: Vec<u32> = Vec::new();
    loop
        invariant
            device < 32,
            words@.len() <= 4,
            start == old(access).config_accesses(),
            access.config_accesses() == start + probe_log(bus, device, words@),
            forall|i: int|
                0 <= i < words@.len() ==> (#[trigger] spec_probe_step(bus, device, words@.take(i))) is Read,
        decreases 4 - words@.len(),
    {
        match probe_step(bus, device, &words) {
            ProbeStep::Read(address) => {
                let ghost before = words@;
                let w = access.read_config_word(address);
                words.push(w);
                proof {
                    assert(probe_log(bus, device, words@) =~= probe_log(bus, device, before).push(
                        ConfigAccess::Read(address, w),
                    ));
                    assert(access.config_accesses() =~= start + probe_log(bus, device, words@));
                    assert forall|i: int| 0 <= i < words@.len() implies (#[trigger] spec_probe_step(
                        bus,
                        device,
                        words@.take(i),
                    )) is Read by {
                        if i < before.len() {
                            assert(words@.take(i) =~= before.take(i));
                        } else {
                            assert(words@.take(i) =~= before);
                        }
                    }
                }
            },
            ProbeStep::Done(r) => {
                proof {
                    if r is Some {
                        let w0 = words@[0];
                        assert((w0 % 0x1_0000) as u16 != 0xFFFF);
                    }
                    assert(probe_complete(bus, device, words@));
                }
                return r;
            },
        }
    }
}

/// The place of a device on the bus, as one number.
pub open spec fn slot_of(d: DeviceInfo) -> int {
    d.bus * 32 + d.device
}

/// The bus of slot `s`, slots being numbered by bus and then device.
pub open spec fn slot_bus(s: int) -> u8 {
    (s / 32) as u8
}

/// The device of slot `s`.
pub open spec fn slot_device(s: int) -> u8 {
    (s % 32) as u8
}

/// The reads of probing slots 0, 1, ... in turn, `probes[s]` being the
/// words slot `s` gave.
pub open spec fn walk_log(probes: Seq<Seq<u32>>) -> Seq<ConfigAccess>
    decreases probes.len(),
{
    if probes.len() == 0 {
        Seq::empty()
    } else {
        let s = probes.len() - 1;
        walk_log(probes.drop_last()) + probe_log(slot_bus(s), slot_device(s), probes.last())
    }
}

/// The devices found by probing slots 0, 1, ... in turn, in slot order.
pub open spec fn walk_found(probes: Seq<Seq<u32>>) -> Seq<DeviceInfo>
    decreases probes.len(),
{
    if probes.len() == 0 {
        Seq::empty()
    } else {
        let s = probes.len() - 1;
        let rest = walk_found(probes.drop_last());
        match spec_probe_step(slot_bus(s), slot_device(s), probes.last()) {
            ProbeStep::Done(Some(d)) => rest.push(d),
            _ => rest,
        }
    }
}

/// Whether `probes` are complete probes of every slot of every bus.
pub open spec fn walk_complete(probes: Seq<Seq<u32>>) -> bool {
    &&& probes.len() == 256 * 32
    &&& forall|s: int| 0 <= s < probes.len() ==> probe_complete(slot_bus(s), slot_device(s), #[trigger] probes[s])
}

/// Every device that answers on the bus, in order of bus and device: each
/// slot of each bus is probed in that order, and the result is the devices
/// the probes found.
pub fn walk_pci_bus<A: PciConfigAccess>(access: &mut ConfigPort<A>) -> (r: Vec<DeviceInfo>)
    ensures
        exists|probes: Seq<Seq<u32>>|
            #![trigger walk_log(probes)]
            {
                &&& walk_complete(probes)
                &&& final(access).config_accesses() == old(access).config_accesses() + walk_log(probes)
                &&& r@ == walk_found(probes)
            },
        forall|k: int| 0 <= k < r@.len() ==> (#[trigger] r@[k]).vendor_id != 0xFFFF && r@[k].device < 32,
        forall|a: int, b: int| 0 <= a < b < r@.len() ==> slot_of(r@[a]) < slot_of(r@[b]),
{
    let ghost start = access.config_accesses();
    let ghost mut probes: Seq<Seq<u32>> = Seq::empty();
    let mut devices: Vec<DeviceInfo> = Vec::new();
    let mut bus: u16 = 0;
    while bus < 256
        invariant
            bus <= 256,
            start == old(access).config_accesses(),
            probes.len() == bus * 32,
            forall|s: int| 0 <= s < probes.len() ==> probe_complete(slot_bus(s), slot_device(s), #[trigger] probes[s]),
            access.config_accesses() == start + walk_log(probes),
            devices@ == walk_found(probes),
            forall|k: int| 0 <= k < devices@.len() ==> (#[trigger] devices@[k]).vendor_id != 0xFFFF
                && devices@[k].device < 32 && slot_of(devices@[k]) < bus * 32,
            forall|a: int, b: int| 0 <= a < b < devices@.len() ==> slot_of(devices@[a]) < slot_of(devices@[b]),
        decreases 256 - bus,
    {
        let mut device: u8 = 0;
        while device < 32
            invariant
                bus < 256,
                device <= 32,
                start == old(access).config_accesses(),
                probes.len() == bus * 32 + device,
                forall|s: int|
                    0 <= s < probes.len() ==> probe_complete(slot_bus(s), slot_device(s), #[trigger] probes[s]),
                access.config_accesses() == start + walk_log(probes),
                devices@ == walk_found(probes),
                forall|k: int| 0 <= k < devices@.len() ==> (#[trigger] devices@[k]).vendor_id != 0xFFFF
                    && devices@[k].device < 32 && slot_of(devices@[k]) < bus * 32 + device,
                forall|a: int, b: int| 0 <= a < b < devices@.len() ==> slot_of(devices@[a]) < slot_of(devices@[b]),
            decreases 32 - device,
        {
            let ghost before = access.config_accesses();
            let found = device_connected(access, bus as u8, device);
            proof {
                let s = bus * 32 + device;
                assert(s / 32 == bus && s % 32 == device) by (nonlinear_arith)
                    requires
                        s == bus * 32 + device,
                        device < 32,
                ;
                assert(slot_bus(s) == bus as u8 && slot_device(s) == device);
                let w = choose|words: Seq<u32>|
                    #![trigger probe_log(bus as u8, device, words)]
                    {
                        &&& probe_complete(bus as u8, device, words)
                        &&& spec_probe_step(bus as u8, device, words) == ProbeStep::Done(found)
                        &&& access.config_accesses() == before + probe_log(bus as u8, device, words)
                    };
                let old_probes = probes;
                probes = probes.push(w);
                assert(probes.drop_last() =~= old_probes);
                assert(probes.last() == w);
                assert(access.config_accesses() =~= start + walk_log(probes));
                assert forall|t: int|
                    0 <= t < probes.len() implies probe_complete(slot_bus(t), slot_device(t), #[trigger] probes[t]) by {
                    if t < old_probes.len() {
                        assert(probes[t] == old_probes[t]);
                    }
                }
            }
            match found {
                None => {},
                Some(device_info) => {
                    devices.push(device_info);
                },
            }
            proof {
                assert(devices@ =~= walk_found(probes));
            }
            device = device + 1;
        }
        bus = bus + 1;
    }
    devices
}

/// A configuration address gives back the bus, device, function and
/// register it was made of.
pub proof fn lemma_pci_address_fields(bus: u8, device: u8, function: u8, offset: u8)
    requires
        offset % 4 == 0,
        function < 8,
        device < 32,
    ensures
        ({
            let a = spec_pci_address(bus, device, function, offset);
            &&& a / 0x8000_0000 == 1
            &&& (a / 0x1_0000) % 0x100 == bus
            &&& (a / 0x800) % 32 == device
            &&& (a / 0x100) % 8 == function
            &&& a % 0x100 == offset
        }),
{
    let b = bus as u32;
    let d = device as u32;
    let f = function as u32;
    let o = offset as u32;
    let a = spec_pci_address(bus, device, function, offset);
    assert(a == 0x8000_0000u32 + b * 0x1_0000u32 + d * 0x800u32 + f * 0x100u32 + o);
    assert({
        let x = 0x8000_0000u32 + b * 0x1_0000u32 + d * 0x800u32 + f * 0x100u32 + o;
        &&& x / 0x8000_0000 == 1
        &&& (x / 0x1_0000) % 0x100 == b
        &&& (x / 0x800) % 32 == d
        &&& (x / 0x100) % 8 == f
        &&& x % 0x100 == o
    }) by (bit_vector)
        requires
            b < 256,
            d < 32,
            f < 8,
            o < 256,
    ;
}

} // verus!
