//! The x2APIC local interrupt controller and the PIT used to calibrate its
//! timer: the register values the kernel computes, and the table of
//! initialised cores.

use crate::constants::TIMER_VECTOR;
use vstd::prelude::*;

verus! {

/// Most cores whose controller the kernel keeps.
pub const MAX_CORES: usize = 64;

/// Model-specific register of the APIC base address and enable bits.
pub const IA32_APIC_BASE_MSR: u32 = 0x1B;
/// End-of-interrupt register.
pub const X2APIC_EOI: u32 = 0x80B;
/// Spurious-interrupt vector register.
pub const X2APIC_SIVR: u32 = 0x80F;
/// Task-priority register.
pub const X2APIC_TPR: u32 = 0x808;
/// Controller ID register.
pub const X2APIC_ID: u32 = 0x802;
/// Interrupt command register.
pub const X2APIC_ICR: u32 = 0x830;
/// Local vector table entry of the timer.
pub const X2APIC_LVT_TIMER: u32 = 0x832;
/// Timer initial-count register.
pub const X2APIC_TIMER_ICR: u32 = 0x838;
/// Timer current-count register.
pub const X2APIC_TIMER_CCR: u32 = 0x839;
/// Timer divide-configuration register.
pub const X2APIC_TIMER_DCR: u32 = 0x83E;

/// Frequency of the programmable interval timer in Hz.
pub const PIT_FREQUENCY: u64 = 1_193_182;
/// I/O port of PIT channel 2.
pub const CHANNEL_2_PORT: u16 = 0x42;
/// I/O port of the PIT command register.
pub const COMMAND_PORT: u16 = 0x43;
/// I/O port of the PIT gate and speaker control.
pub const CONTROL_PORT: u16 = 0x61;

/// Divide configuration "divide by 1".
pub const TIMER_DIVIDE_BY_1: u64 = 0xB;
/// The timer-mask bit of the timer's vector table entry.
pub const TIMER_MASK_BIT: u64 = 0x1_0000;
/// Bits of the APIC base register that enable the xAPIC and the x2APIC mode.
pub const APIC_ENABLE_BITS: u64 = 0xC00;
/// Spurious vector 0xFF with the APIC software-enable bit.
pub const SIVR_ENABLE: u64 = 0x1FF;

/// Errors of the x2APIC.
#[derive(Debug, Clone, Copy, PartialEq, Eq, Structural)]
pub enum X2ApicError {
    NotSupported,
    NotEnabled,
    EnableFailed,
    InvalidVector,
    ConfigurationFailed,
    TimerError,
    CoreOutOfRange,
}

/// Errors of the PIT calibration.
#[derive(Debug, Clone, Copy, PartialEq, Eq, Structural)]
pub enum PitError {
    InvalidDuration,
    CalibrationFailed,
}

/// The x2APIC of one core.
#[derive(Debug, Clone, Copy, PartialEq, Eq, Structural)]
pub struct X2Apic {
    enabled: bool,
}

impl X2Apic {
    /// Whether the controller has been enabled.
    pub closed spec fn spec_enabled(&self) -> bool {
        self.enabled
    }

    /// A controller not yet enabled; `NotSupported` when the processor has
    /// no x2APIC.
    pub fn new(has_x2apic: bool) -> (r: Result<Self, X2ApicError>)
        ensures
            has_x2apic ==> (r matches Ok(a) && !a.spec_enabled()),
            !has_x2apic ==> r == Err::<X2Apic, X2ApicError>(X2ApicError::NotSupported),
    {
        if !has_x2apic {
            return Err(X2ApicError::NotSupported);
        }
        Ok(Self { enabled: false })
    }

    /// Whether enabling still has to write the APIC base register.
    pub fn needs_enable(&self) -> (r: bool)
        ensures
            r == !self.spec_enabled(),
    {
        !self.enabled
    }

    /// The APIC base register with the enable bits set.
    pub fn enable_value(base: u64) -> (r: u64)
        ensures
            r == base | APIC_ENABLE_BITS,
    {
        base | APIC_ENABLE_BITS
    }

    /// Finishes enabling once the APIC base register has been read back:
    /// `EnableFailed` unless both enable bits stuck.
    pub fn confirm_enabled(&mut self, read_back: u64) -> (r: Result<(), X2ApicError>)
        ensures
            (read_back & APIC_ENABLE_BITS == APIC_ENABLE_BITS) ==> r is Ok && final(self).spec_enabled(),
            (read_back & APIC_ENABLE_BITS != APIC_ENABLE_BITS) ==> r == Err::<(), X2ApicError>(
                X2ApicError::EnableFailed,
            ) && *final(self) == *old(self),
    {
        if (read_back & APIC_ENABLE_BITS) != APIC_ENABLE_BITS {
            return Err(X2ApicError::EnableFailed);
        }
        self.enabled = true;
        Ok(())
    }
}

/// The controllers of the cores that have been initialised, by core ID.
pub struct X2ApicManager {
    apics: Vec<Option<X2Apic>>,
}

impl X2ApicManager {
    /// The controller of each core, by core ID.
    pub closed spec fn spec_apics(&self) -> Seq<Option<X2Apic>> {
        self.apics@
    }

    /// No core initialised.
    pub fn new() -> (r: Self)
        ensures
            r.spec_apics() == Seq::new(MAX_CORES as nat, |i: int| None::<X2Apic>),
    {
        let mut apics: Vec<Option<X2Apic>> = Vec::new();
        let mut i: usize = 0;
        while i < MAX_CORES
            invariant
                i <= MAX_CORES,
                apics@ == Seq::new(i as nat, |k: int| None::<X2Apic>),
            decreases MAX_CORES - i,
        {
            apics.push(None);
            proof {
                assert(apics@ =~= Seq::new((i + 1) as nat, |k: int| None::<X2Apic>));
            }
            i = i + 1;
        }
        X2ApicManager { apics }
    }

    /// Records the controller of core `id`; `CoreOutOfRange` when `id` is
    /// not below `MAX_CORES`.
    pub fn register_core(&mut self, id: usize, apic: X2Apic) -> (r: Result<(), X2ApicError>)
        requires
            old(self).spec_apics().len() == MAX_CORES,
        ensures
            final(self).spec_apics().len() == MAX_CORES,
            id < MAX_CORES ==> r is Ok && final(self).spec_apics() == old(self).spec_apics().update(
                id as int,
                Some(apic),
            ),
            id >= MAX_CORES ==> r == Err::<(), X2ApicError>(X2ApicError::CoreOutOfRange)
                && final(self).spec_apics() == old(self).spec_apics(),
    {
        if id >= MAX_CORES {
            return Err(X2ApicError::CoreOutOfRange);
        }
        self.apics.set(id, Some(apic));
        Ok(())
    }

    /// The timer's vector table entry: periodic mode, unmasked, on the timer
    /// vector.
    pub fn timer_config() -> (r: u64)
        ensures
            r == 0x2_0000 + TIMER_VECTOR,
    {
        assert((1u64 << 17u64) | (32u64) == 0x2_0020) by (bit_vector);
        (1u64 << 17u64) | (TIMER_VECTOR as u64)
    }

    /// The register writes that start the timer of a core counting down from
    /// `counter`: its vector table entry, its divider, its initial count.
    pub fn configure_timer_current_core(counter: u32) -> (r: Vec<(u32, u64)>)
        ensures
            r@ == seq![
                (X2APIC_LVT_TIMER, 0x2_0020u64),
                (X2APIC_TIMER_DCR, TIMER_DIVIDE_BY_1),
                (X2APIC_TIMER_ICR, counter as u64),
            ],
    {
        let mut writes: Vec<(u32, u64)> = Vec::new();
        writes.push((X2APIC_LVT_TIMER, Self::timer_config()));
        writes.push((X2APIC_TIMER_DCR, TIMER_DIVIDE_BY_1));
        writes.push((X2APIC_TIMER_ICR, counter as u64));
        proof {
            assert(writes@ =~= seq![
                (X2APIC_LVT_TIMER, 0x2_0020u64),
                (X2APIC_TIMER_DCR, TIMER_DIVIDE_BY_1),
                (X2APIC_TIMER_ICR, counter as u64),
            ]);
        }
        writes
    }

    /// The timer's vector table entry `val` with the timer masked.
    pub fn mask_timer(val: u64) -> (r: u64)
        ensures
            r == val | TIMER_MASK_BIT,
    {
        val | TIMER_MASK_BIT
    }

    /// The timer's vector table entry `val` with the timer unmasked.
    pub fn unmask_timer(val: u64) -> (r: u64)
        ensures
            r == val & !TIMER_MASK_BIT,
    {
        val & !TIMER_MASK_BIT
    }

    /// The interrupt command that sends `vector` to core `target_id`;
    /// `InvalidVector` for the vectors below 16, which are reserved.
    pub fn send_ipi(target_id: u32, vector: u8) -> (r: Result<u64, X2ApicError>)
        ensures
            vector < 16 ==> r == Err::<u64, X2ApicError>(X2ApicError::InvalidVector),
            vector >= 16 ==> r == Ok::<u64, X2ApicError>((target_id as u64 * 0x1_0000_0000 + vector as u64) as u64),
    {
        if vector < 16 {
            return Err(X2ApicError::InvalidVector);
        }
        let t = target_id as u64;
        let v = vector as u64;
        assert((t << 32u64) | v == t * 0x1_0000_0000 + v) by (bit_vector)
            requires
                t < 0x1_0000_0000,
                v < 256,
        ;
        Ok((t << 32u64) | v)
    }

    /// The timer count per tick of a `hz` Hz timer, from a calibration that
    /// started at `u32::MAX` and read `final_count` after the PIT measured
    /// its interval.
    pub fn calibrate_timer(final_count: u32, hz: u32) -> (r: u32)
        requires
            hz > 0,
        ensures
            r == (u32::MAX - final_count) / (hz as int),
    {
        let initial = u32::MAX;
        let diff = initial - final_count;
        diff / hz
    }
}

/// The PIT reload value for the calibration interval of a twentieth of a
/// second; `InvalidDuration` when it does not fit in 16 bits.
pub fn pit_divider() -> (r: Result<u32, PitError>)
    ensures
        r == Ok::<u32, PitError>(59659),
{
    let pit_divider = PIT_FREQUENCY as u32 / 20;
    if pit_divider > 0xFFFF {
        return Err(PitError::InvalidDuration);
    }
    Ok(pit_divider)
}

/// The two bytes written to PIT channel 2 for reload value `divider`: low
/// byte first.
pub fn pit_divider_bytes(divider: u32) -> (r: (u8, u8))
    requires
        divider <= 0xFFFF,
    ensures
        r.0 == divider % 256,
        r.1 == divider / 256,
{
    let lo = (divider & 0xFF) as u8;
    let hi = (divider >> 8u32) as u8;
    assert(divider & 0xFF == divider % 256) by (bit_vector);
    assert(divider >> 8u32 == divider / 256) by (bit_vector);
    (lo, hi)
}

/// Masking the timer sets its mask bit and unmasking clears it, leaving
/// every other bit of the entry alone; unmasking undoes masking.
pub proof fn lemma_mask_unmask(val: u64)
    ensures
        (val | TIMER_MASK_BIT) & TIMER_MASK_BIT != 0,
        (val & !TIMER_MASK_BIT) & TIMER_MASK_BIT == 0,
        (val | TIMER_MASK_BIT) & !TIMER_MASK_BIT == val & !TIMER_MASK_BIT,
        (val & !TIMER_MASK_BIT) | TIMER_MASK_BIT == val | TIMER_MASK_BIT,
{
    assert((val | 0x1_0000u64) & 0x1_0000u64 != 0) by (bit_vector);
    assert((val & !0x1_0000u64) & 0x1_0000u64 == 0) by (bit_vector);
    assert((val | 0x1_0000u64) & !0x1_0000u64 == val & !0x1_0000u64) by (bit_vector);
    assert((val & !0x1_0000u64) | 0x1_0000u64 == val | 0x1_0000u64) by (bit_vector);
}

} // verus!
