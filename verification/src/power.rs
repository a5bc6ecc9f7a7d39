//! Keep the host awake for remote access, and notice system wake.

use vstd::prelude::*;

verus! {

/// Hold an idle-sleep assertion when a session is live, or when the host asked
/// to stay awake for unattended / remote control.
pub fn should_keep_awake(keep: bool, control: bool, unattended: bool, driving: bool) -> (r: bool)
    ensures
        r == (driving || (keep && (control || unattended))),
{
    driving || (keep && (control || unattended))
}

pub trait PowerGuard {
    fn set_keep_awake(&mut self, on: bool) {
    }

    fn is_awake(&self) -> (r: bool)
        default_ensures
            !r,
    {
        false
    }

    fn take_wake(&mut self) -> (r: bool)
        default_ensures
            !r,
    {
        false
    }
}

/// A guard that only remembers what it was told.
#[derive(Clone, Copy, Debug)]
pub struct FakePower {
    pub keep_awake: bool,
    pub wake: bool,
}

impl FakePower {
    pub fn new() -> (p: Self)
        ensures
            !p.keep_awake,
            !p.wake,
    {
        FakePower { keep_awake: false, wake: false }
    }
}

impl PowerGuard for FakePower {
    fn set_keep_awake(&mut self, on: bool)
        ensures
            final(self).keep_awake == on,
            final(self).wake == old(self).wake,
    {
        self.keep_awake = on;
    }

    fn is_awake(&self) -> (r: bool)
        ensures
            r == self.keep_awake,
    {
        self.keep_awake
    }

    fn take_wake(&mut self) -> (r: bool)
        ensures
            r == old(self).wake,
            !final(self).wake,
            final(self).keep_awake == old(self).keep_awake,
    {
        let r = self.wake;
        self.wake = false;
        r
    }
}

/// A host without power management.
pub struct NullPower;

impl PowerGuard for NullPower {

}

} // verus!
