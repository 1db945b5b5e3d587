//! Interrupt priority layering: symbolic levels and their hardware values.
//!
//! Numerically smaller values are higher priorities. An interrupt is masked by
//! the BASEPRI threshold register when the register is non-zero and the
//! interrupt's value is at least the register's value.

use crate::config::{
    IRQ_DISABLE_BASEPRI_PRIORITY, IRQ_ENABLE_BASEPRI_PRIORITY, IRQ_HIGH_PRIORITY, IRQ_LOW_PRIORITY,
    IRQ_MAX_PRIORITY, IRQ_MIN_PRIORITY, IRQ_NORMAL_PRIORITY, IRQ_PRIORITY_GRANULARITY,
    PENDSV_PRIORITY, SVC_NORMAL_PRIORITY, SVC_RAISED_PRIORITY, SYSTICK_PRIORITY,
};
use vstd::prelude::*;

verus! {

/// The symbolic priority levels that the kernel uses.
#[derive(Clone, Copy, Debug, PartialEq, Eq, Structural)]
pub enum IrqLevel {
    /// BASEPRI value that masks every application interrupt.
    MaskDisable,
    /// BASEPRI value that masks nothing.
    MaskEnable,
    /// SVC priority while interrupts are globally masked.
    SvcRaised,
    IrqMax,
    IrqHigh,
    IrqNormal,
    IrqLow,
    IrqMin,
    /// SVC priority in the normal, unmasked state.
    SvcNormal,
    PendSv,
    SysTick,
}

/// Hardware values of every symbolic level.
#[derive(Clone, Copy, Debug, PartialEq, Eq, Structural)]
pub struct IrqPriorities {
    pub granularity: u8,
    pub enable_basepri: u8,
    pub disable_basepri: u8,
    pub svc_raised: u8,
    pub irq_max: u8,
    pub irq_high: u8,
    pub irq_normal: u8,
    pub irq_low: u8,
    pub irq_min: u8,
    pub svc_normal: u8,
    pub pendsv: u8,
    pub systick: u8,
}

/// Whether BASEPRI value `basepri` masks an exception of priority `prio`.
pub open spec fn masks(basepri: u8, prio: u8) -> bool {
    basepri != 0 && prio >= basepri
}

/// The layout derived from a granularity `g`: level `k` gets `k * g`.
pub open spec fn standard_layout(g: u8) -> IrqPriorities {
    IrqPriorities {
        granularity: g,
        enable_basepri: 0,
        disable_basepri: g,
        svc_raised: 0,
        irq_max: g,
        irq_high: (2 * g) as u8,
        irq_normal: (3 * g) as u8,
        irq_low: (4 * g) as u8,
        irq_min: (5 * g) as u8,
        svc_normal: (6 * g) as u8,
        pendsv: (7 * g) as u8,
        systick: (4 * g) as u8,
    }
}

impl IrqPriorities {
    /// The ordering the hardware mapping must preserve.
    pub open spec fn ordering_holds(&self) -> bool {
        &&& self.enable_basepri == 0
        &&& self.irq_max <= self.irq_high
        &&& self.irq_high <= self.irq_normal
        &&& self.irq_normal <= self.irq_low
        &&& self.irq_low <= self.irq_min
        &&& self.irq_min < self.svc_normal
        &&& self.svc_normal < self.pendsv
        &&& self.svc_raised < self.disable_basepri
        &&& self.disable_basepri <= self.irq_max
        &&& self.irq_max <= self.systick
        &&& self.systick <= self.irq_min
    }

    pub open spec fn level_spec(&self, l: IrqLevel) -> u8 {
        match l {
            IrqLevel::MaskDisable => self.disable_basepri,
            IrqLevel::MaskEnable => self.enable_basepri,
            IrqLevel::SvcRaised => self.svc_raised,
            IrqLevel::IrqMax => self.irq_max,
            IrqLevel::IrqHigh => self.irq_high,
            IrqLevel::IrqNormal => self.irq_normal,
            IrqLevel::IrqLow => self.irq_low,
            IrqLevel::IrqMin => self.irq_min,
            IrqLevel::SvcNormal => self.svc_normal,
            IrqLevel::PendSv => self.pendsv,
            IrqLevel::SysTick => self.systick,
        }
    }

    /// Builds the standard layout for granularity `g`, the step between two
    /// levels that the hardware's significant priority bits give. It exists
    /// when `g` is a power of two small enough for all eight levels to fit in
    /// a byte.
    pub fn from_granularity(g: u8) -> (r: Option<IrqPriorities>)
        ensures
            r.is_some() <==> (g == 1 || g == 2 || g == 4 || g == 8 || g == 16 || g == 32),
            r.is_some() ==> r.unwrap() == standard_layout(g),
            r.is_some() ==> r.unwrap().ordering_holds(),
    {
        if !(g == 1 || g == 2 || g == 4 || g == 8 || g == 16 || g == 32) {
            return None;
        }
        Some(IrqPriorities {
            granularity: g,
            enable_basepri: 0,
            disable_basepri: g,
            svc_raised: 0,
            irq_max: g,
            irq_high: 2 * g,
            irq_normal: 3 * g,
            irq_low: 4 * g,
            irq_min: 5 * g,
            svc_normal: 6 * g,
            pendsv: 7 * g,
            systick: 4 * g,
        })
    }

    /// The layout of the kernel's configured priority constants.
    pub fn configured() -> (r: IrqPriorities)
        ensures
            r == standard_layout(IRQ_PRIORITY_GRANULARITY),
            r.ordering_holds(),
    {
        IrqPriorities {
            granularity: IRQ_PRIORITY_GRANULARITY,
            enable_basepri: IRQ_ENABLE_BASEPRI_PRIORITY,
            disable_basepri: IRQ_DISABLE_BASEPRI_PRIORITY,
            svc_raised: SVC_RAISED_PRIORITY,
            irq_max: IRQ_MAX_PRIORITY,
            irq_high: IRQ_HIGH_PRIORITY,
            irq_normal: IRQ_NORMAL_PRIORITY,
            irq_low: IRQ_LOW_PRIORITY,
            irq_min: IRQ_MIN_PRIORITY,
            svc_normal: SVC_NORMAL_PRIORITY,
            pendsv: PENDSV_PRIORITY,
            systick: SYSTICK_PRIORITY,
        }
    }

    /// Checks the ordering invariant of a hand-written layout.
    pub fn validate(&self) -> (r: bool)
        ensures
            r == self.ordering_holds(),
    {
        self.enable_basepri == 0 && self.irq_max <= self.irq_high && self.irq_high
            <= self.irq_normal && self.irq_normal <= self.irq_low && self.irq_low <= self.irq_min
            && self.irq_min < self.svc_normal && self.svc_normal < self.pendsv && self.svc_raised
            < self.disable_basepri && self.disable_basepri <= self.irq_max && self.irq_max
            <= self.systick && self.systick <= self.irq_min
    }

    /// Hardware value of a symbolic level.
    pub fn level(&self, l: IrqLevel) -> (r: u8)
        ensures
            r == self.level_spec(l),
    {
        match l {
            IrqLevel::MaskDisable => self.disable_basepri,
            IrqLevel::MaskEnable => self.enable_basepri,
            IrqLevel::SvcRaised => self.svc_raised,
            IrqLevel::IrqMax => self.irq_max,
            IrqLevel::IrqHigh => self.irq_high,
            IrqLevel::IrqNormal => self.irq_normal,
            IrqLevel::IrqLow => self.irq_low,
            IrqLevel::IrqMin => self.irq_min,
            IrqLevel::SvcNormal => self.svc_normal,
            IrqLevel::PendSv => self.pendsv,
            IrqLevel::SysTick => self.systick,
        }
    }

    /// SVC priority to install: raised above the mask threshold while
    /// interrupts are globally masked, normal otherwise.
    pub fn svc_priority(&self, globally_masked: bool) -> (r: u8)
        ensures
            r == (if globally_masked { self.svc_raised } else { self.svc_normal }),
    {
        if globally_masked {
            self.svc_raised
        } else {
            self.svc_normal
        }
    }

    /// BASEPRI value to install for the given global mask state.
    pub fn basepri(&self, globally_masked: bool) -> (r: u8)
        ensures
            r == (if globally_masked { self.disable_basepri } else { self.enable_basepri }),
    {
        if globally_masked {
            self.disable_basepri
        } else {
            self.enable_basepri
        }
    }
}

/// Whether BASEPRI value `basepri` masks an exception of priority `prio`.
pub fn is_masked(basepri: u8, prio: u8) -> (r: bool)
    ensures
        r == masks(basepri, prio),
{
    basepri != 0 && prio >= basepri
}

/// Under a layout that keeps the ordering invariant: with interrupts globally
/// masked, every application interrupt tier is masked while the raised SVC
/// stays serviceable; with interrupts enabled nothing is masked; PendSV is
/// below both SVC priorities, so an SVC can tail-chain into a context switch.
pub proof fn lemma_masking_layers(c: IrqPriorities, l: IrqLevel)
    requires
        c.ordering_holds(),
    ensures
        !masks(c.basepri_spec(true), c.svc_priority_spec(true)),
        masks(c.basepri_spec(true), c.svc_priority_spec(false)),
        masks(c.basepri_spec(true), c.pendsv),
        !masks(c.basepri_spec(false), c.level_spec(l)),
        (l is IrqMax || l is IrqHigh || l is IrqNormal || l is IrqLow || l is IrqMin
            || l is SysTick) ==> masks(c.basepri_spec(true), c.level_spec(l)),
        c.pendsv > c.svc_priority_spec(true),
        c.pendsv > c.svc_priority_spec(false),
{
}

impl IrqPriorities {
    pub open spec fn svc_priority_spec(&self, globally_masked: bool) -> u8 {
        if globally_masked { self.svc_raised } else { self.svc_normal }
    }

    pub open spec fn basepri_spec(&self, globally_masked: bool) -> u8 {
        if globally_masked { self.disable_basepri } else { self.enable_basepri }
    }
}

} // verus!
