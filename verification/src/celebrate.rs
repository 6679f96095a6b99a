//! When a finished operation is celebrated, and how loudly.
use vstd::prelude::*;

verus! {

#[derive(Debug, Clone, Copy, PartialEq, Eq, Structural)]
pub enum Intensity {
    Full,
    Subtle,
    Off,
}

impl Intensity {
    /// The name shown for the setting.
    pub fn label(self) -> (r: &'static str)
        ensures
            r@ == match self {
                Intensity::Full => "full"@,
                Intensity::Subtle => "subtle"@,
                Intensity::Off => "off"@,
            },
    {
        match self {
            Intensity::Full => "full",
            Intensity::Subtle => "subtle",
            Intensity::Off => "off",
        }
    }
}

#[derive(Debug, Clone, Copy, PartialEq, Eq, Structural)]
pub enum Event {
    Commit,
    Merge,
    CherryPick,
    Rebase,
    Pull,
    Push,
    Checkout,
    Fetch,
    Stash,
}

/// The setting after `current` on the dial: full, subtle, off, and round again.
pub open spec fn next_spec(current: Intensity) -> Intensity {
    match current {
        Intensity::Full => Intensity::Subtle,
        Intensity::Subtle => Intensity::Off,
        Intensity::Off => Intensity::Full,
    }
}

/// Events that change history or the checkout are worth a celebration;
/// fetching and stashing are not.
pub open spec fn is_celebrated(event: Event) -> bool {
    !(event == Event::Fetch || event == Event::Stash)
}

pub fn next_intensity(current: Intensity) -> (r: Intensity)
    ensures
        r == next_spec(current),
{
    match current {
        Intensity::Full => Intensity::Subtle,
        Intensity::Subtle => Intensity::Off,
        Intensity::Off => Intensity::Full,
    }
}

/// Whether `event` is celebrated at `intensity`.
pub fn should_celebrate(event: Event, intensity: Intensity) -> (r: bool)
    ensures
        r == (intensity != Intensity::Off && is_celebrated(event)),
{
    if intensity == Intensity::Off {
        return false;
    }
    match event {
        Event::Commit | Event::Merge | Event::CherryPick | Event::Rebase | Event::Pull
        | Event::Push | Event::Checkout => true,
        Event::Fetch | Event::Stash => false,
    }
}

/// Turning the dial three times brings it back where it was.
pub proof fn law_dial_cycles(i: Intensity)
    ensures
        next_spec(next_spec(next_spec(i))) == i,
        next_spec(i) != i,
{
}

} // verus!
