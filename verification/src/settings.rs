//! Launcher-wide defaults and the anchor of the ASCII-art background.

use vstd::prelude::*;

verus! {

/// Corner to which the ASCII-art background is anchored.
#[derive(Debug, Clone, Copy, PartialEq, Eq, Structural)]
pub enum AsciiBgAnchor {
    TopLeft,
    TopRight,
    BottomLeft,
    BottomRight,
}

/// The anchors in the order the settings page offers them.
pub open spec fn anchors() -> Seq<AsciiBgAnchor> {
    seq![
        AsciiBgAnchor::TopLeft,
        AsciiBgAnchor::TopRight,
        AsciiBgAnchor::BottomLeft,
        AsciiBgAnchor::BottomRight,
    ]
}

/// Position of an anchor in [`anchors`].
pub open spec fn anchor_pos(a: AsciiBgAnchor) -> nat {
    match a {
        AsciiBgAnchor::TopLeft => 0,
        AsciiBgAnchor::TopRight => 1,
        AsciiBgAnchor::BottomLeft => 2,
        AsciiBgAnchor::BottomRight => 3,
    }
}

/// Human-readable name of an anchor.
pub open spec fn anchor_label(a: AsciiBgAnchor) -> Seq<char> {
    match a {
        AsciiBgAnchor::TopLeft => "Top-Left"@,
        AsciiBgAnchor::TopRight => "Top-Right"@,
        AsciiBgAnchor::BottomLeft => "Bottom-Left"@,
        AsciiBgAnchor::BottomRight => "Bottom-Right"@,
    }
}

/// The anchor one step forward (or back) in [`anchors`], wrapping around.
pub open spec fn anchor_step(a: AsciiBgAnchor, forward: bool) -> AsciiBgAnchor {
    if forward {
        anchors()[((anchor_pos(a) + 1) % 4) as int]
    } else {
        anchors()[((anchor_pos(a) + 3) % 4) as int]
    }
}

impl AsciiBgAnchor {
    /// Every anchor, in the order the settings page offers them.
    pub const ALL: [AsciiBgAnchor; 4] = [
        AsciiBgAnchor::TopLeft,
        AsciiBgAnchor::TopRight,
        AsciiBgAnchor::BottomLeft,
        AsciiBgAnchor::BottomRight,
    ];

    /// Human-readable name shown on the settings page.
    pub fn label(self) -> (r: &'static str)
        ensures
            r@ == anchor_label(self),
    {
        match self {
            AsciiBgAnchor::TopLeft => "Top-Left",
            AsciiBgAnchor::TopRight => "Top-Right",
            AsciiBgAnchor::BottomLeft => "Bottom-Left",
            AsciiBgAnchor::BottomRight => "Bottom-Right",
        }
    }

    /// Position of this anchor in [`AsciiBgAnchor::ALL`].
    pub fn index(self) -> (r: usize)
        ensures
            r == anchor_pos(self),
            r < 4,
            Self::ALL@[r as int] == self,
    {
        let all = Self::ALL;
        let mut i: usize = 0;
        while i < 4
            invariant
                i <= 4,
                all@ == anchors(),
                forall|j: int| 0 <= j < i ==> all@[j] != self,
            decreases 4 - i,
        {
            if all[i] == self {
                return i;
            }
            i = i + 1;
        }
        assert(all@[anchor_pos(self) as int] == self);
        0
    }

    /// The next anchor (or the previous one when `forward` is false),
    /// wrapping around at either end.
    pub fn cycle(self, forward: bool) -> (r: AsciiBgAnchor)
        ensures
            r == anchor_step(self, forward),
    {
        let options = Self::ALL;
        let current = self.index();
        let len: usize = 4;
        let next = if forward {
            (current + 1) % len
        } else {
            (current + len - 1) % len
        };
        options[next]
    }
}

impl Default for AsciiBgAnchor {
    fn default() -> (r: Self)
        ensures
            r == AsciiBgAnchor::BottomRight,
    {
        AsciiBgAnchor::BottomRight
    }
}

/// Stepping forward and then back (or back and then forward) returns the
/// anchor one started from.
pub proof fn law_anchor_cycle_inverse(a: AsciiBgAnchor)
    ensures
        anchor_step(anchor_step(a, true), false) == a,
        anchor_step(anchor_step(a, false), true) == a,
{
}

/// Four steps in either direction visit every anchor and come back.
pub proof fn law_anchor_cycle_period(a: AsciiBgAnchor, forward: bool)
    ensures
        anchor_step(anchor_step(anchor_step(anchor_step(a, forward), forward), forward), forward)
            == a,
{
}

/// Default minimum heap size, in MiB, for new instances.
pub fn default_min_memory() -> (r: u32)
    ensures
        r == 512,
{
    512
}

/// Default maximum heap size, in MiB, for new instances.
pub fn default_max_memory() -> (r: u32)
    ensures
        r == 4096,
{
    4096
}

/// Default of the boolean settings that start switched on.
pub fn default_true() -> (r: bool)
    ensures
        r,
{
    true
}

} // verus!
