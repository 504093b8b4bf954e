//! The interrupt mask and the scoped guard that the scheduler's critical
//! sections run under.

use vstd::prelude::*;

verus! {

/// The processor's interrupt-enable flag.
#[derive(Clone, Copy, Debug)]
pub struct IrqMask {
    enabled: bool,
}

impl IrqMask {
    /// Whether interrupts are delivered.
    pub closed spec fn enabled(&self) -> bool {
        self.enabled
    }

    /// A mask that holds the flag as it was just read from the processor.
    pub fn observed(enabled: bool) -> (mask: IrqMask)
        ensures
            mask.enabled() == enabled,
    {
        IrqMask { enabled }
    }

    /// Reads the flag.
    pub fn irqs_enabled(&self) -> (on: bool)
        ensures
            on == self.enabled(),
    {
        self.enabled
    }
}

/// A critical section in progress: interrupts are masked, and the flag as it
/// was on entry is kept for the way out.
#[derive(Debug)]
pub struct IrqGuard {
    prior: bool,
}

impl IrqGuard {
    /// The flag as it was when the section was entered.
    pub closed spec fn prior(&self) -> bool {
        self.prior
    }

    /// Enters a critical section: remembers the flag and masks interrupts.
    pub fn acquire(mask: &mut IrqMask) -> (guard: IrqGuard)
        ensures
            !final(mask).enabled(),
            guard.prior() == old(mask).enabled(),
    {
        let prior = mask.enabled;
        mask.enabled = false;
        IrqGuard { prior }
    }

    /// A guard for a section that was entered with the flag at `prior`: the
    /// form in which a suspended task carries its section across a switch.
    pub fn resumed(prior: bool) -> (guard: IrqGuard)
        ensures
            guard.prior() == prior,
    {
        IrqGuard { prior }
    }

    /// Leaves the critical section: puts the flag back as it was on entry.
    pub fn release(self, mask: &mut IrqMask)
        ensures
            final(mask).enabled() == self.prior(),
    {
        mask.enabled = self.prior;
    }

    /// Gives up the guard without touching the mask, and hands back the flag
    /// to restore later.
    pub fn into_prior(self) -> (prior: bool)
        ensures
            prior == self.prior(),
    {
        self.prior
    }
}

/// Masks interrupts.
pub fn disable_irqs(mask: &mut IrqMask)
    ensures
        !final(mask).enabled(),
{
    mask.enabled = false;
}

/// Unmasks interrupts.
pub fn enable_irqs(mask: &mut IrqMask)
    ensures
        final(mask).enabled(),
{
    mask.enabled = true;
}

/// The check that task code makes wherever it must run unmasked. It is a
/// static obligation: a caller has to show that interrupts are enabled.
pub fn assert_irq_enabled(mask: &IrqMask)
    requires
        mask.enabled(),
{
}

/// The check that code inside a masked window makes.
pub fn assert_irq_disabled(mask: &IrqMask)
    requires
        !mask.enabled(),
{
}

/// One call that the enabled-and-disabled check makes on the interrupt
/// control.
#[derive(Clone, Copy, Debug, PartialEq, Eq)]
pub enum IrqCall {
    /// Reads the flag, which must show interrupts enabled.
    ExpectEnabled,
    /// Masks interrupts.
    Disable,
    /// Reads the flag, which must show interrupts disabled.
    ExpectDisabled,
    /// Unmasks interrupts.
    Enable,
}

/// The calls of the enabled-and-disabled check, in the order in which it
/// makes them.
pub open spec fn check_calls() -> Seq<IrqCall> {
    seq![IrqCall::ExpectEnabled, IrqCall::Disable, IrqCall::ExpectDisabled, IrqCall::Enable]
}

/// The flag after `call`, where it was `enabled` before.
pub open spec fn flag_after(call: IrqCall, enabled: bool) -> bool {
    match call {
        IrqCall::ExpectEnabled => enabled,
        IrqCall::Disable => false,
        IrqCall::ExpectDisabled => enabled,
        IrqCall::Enable => true,
    }
}

/// Whether `call` may be made with the flag at `enabled`: an expectation has
/// to be met.
pub open spec fn call_allowed(call: IrqCall, enabled: bool) -> bool {
    match call {
        IrqCall::ExpectEnabled => enabled,
        IrqCall::ExpectDisabled => !enabled,
        _ => true,
    }
}

/// The call at position `index` of the enabled-and-disabled check, and
/// `None` past its end.
pub fn check_call(index: usize) -> (call: Option<IrqCall>)
    ensures
        call == (if index < check_calls().len() {
            Some(check_calls()[index as int])
        } else {
            None
        }),
{
    if index == 0 {
        Some(IrqCall::ExpectEnabled)
    } else if index == 1 {
        Some(IrqCall::Disable)
    } else if index == 2 {
        Some(IrqCall::ExpectDisabled)
    } else if index == 3 {
        Some(IrqCall::Enable)
    } else {
        None
    }
}

/// Makes one call of the check on the mask.
pub fn make_call(mask: &mut IrqMask, call: IrqCall)
    requires
        call_allowed(call, old(mask).enabled()),
    ensures
        final(mask).enabled() == flag_after(call, old(mask).enabled()),
{
    match call {
        IrqCall::ExpectEnabled => assert_irq_enabled(mask),
        IrqCall::Disable => disable_irqs(mask),
        IrqCall::ExpectDisabled => assert_irq_disabled(mask),
        IrqCall::Enable => enable_irqs(mask),
    }
}

/// Checks that interrupts are enabled, masks them, checks that the mask took
/// effect, and unmasks them again: the calls of `check_calls`, one after the
/// other. On a mask that starts enabled every expectation is met, and the
/// mask ends as it started.
pub fn assert_irq_enabled_and_disabled(mask: &mut IrqMask)
    requires
        old(mask).enabled(),
    ensures
        final(mask).enabled(),
{
    let mut index: usize = 0;
    loop
        invariant
            index <= check_calls().len(),
            mask.enabled() == (index < 2 || index == 4),
        ensures
            mask.enabled(),
        decreases check_calls().len() - index,
    {
        match check_call(index) {
            Some(call) => {
                make_call(mask, call);
                index += 1;
            },
            None => {
                break ;
            },
        }
    }
}

} // verus!
