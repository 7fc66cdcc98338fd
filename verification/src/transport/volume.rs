//! The volume of an output.

use vstd::prelude::*;

verus! {

/// How a volume is measured.
#[derive(Clone, Copy, Debug, PartialEq, Eq, Structural)]
pub enum Scale {
    Number,
    Decibel,
    Incremental,
}

/// How a volume is changed.
#[derive(Clone, Copy, Debug, PartialEq, Eq, Structural)]
pub enum ChangeMode {
    Absolute,
    Relative,
    RelativeStep,
}

/// Whether an output is to be muted.
#[derive(Clone, Copy, Debug, PartialEq, Eq, Structural)]
pub enum Mute {
    Mute,
    Unmute,
}

/// The volume of an output, and its limits.
#[derive(Clone, Copy, Debug, PartialEq, Eq, Structural)]
pub struct Volume {
    pub scale: Scale,
    pub min: Option<i8>,
    pub max: Option<i8>,
    pub value: Option<i8>,
    pub step: Option<i8>,
    pub is_muted: Option<bool>,
    pub hard_limit_min: i8,
    pub hard_limit_max: i8,
    pub soft_limit: i8,
}

impl ChangeMode {
    /// The name by which a core knows the mode.
    pub open spec fn text(self) -> Seq<char> {
        match self {
            ChangeMode::Absolute => "absolute"@,
            ChangeMode::Relative => "relative"@,
            ChangeMode::RelativeStep => "relative_step"@,
        }
    }

    /// The name by which a core knows the mode.
    pub fn as_str(&self) -> (r: &'static str)
        ensures
            r@ == self.text(),
    {
        match self {
            ChangeMode::Absolute => "absolute",
            ChangeMode::Relative => "relative",
            ChangeMode::RelativeStep => "relative_step",
        }
    }
}

impl Mute {
    /// The name by which a core knows the value.
    pub open spec fn text(self) -> Seq<char> {
        match self {
            Mute::Mute => "mute"@,
            Mute::Unmute => "unmute"@,
        }
    }

    /// The name by which a core knows the value.
    pub fn as_str(&self) -> (r: &'static str)
        ensures
            r@ == self.text(),
    {
        match self {
            Mute::Mute => "mute",
            Mute::Unmute => "unmute",
        }
    }
}

/// Each way to change a volume has the name by which a core knows it, and no two have the same.
pub proof fn names_of_modes(mode: ChangeMode)
    ensures
        mode.text() == "absolute"@ <==> mode == ChangeMode::Absolute,
        mode.text() == "relative"@ <==> mode == ChangeMode::Relative,
        mode.text() == "relative_step"@ <==> mode == ChangeMode::RelativeStep,
{
    reveal_strlit("absolute");
    reveal_strlit("relative");
    reveal_strlit("relative_step");
    assert("absolute"@[0] != "relative"@[0]);
    assert("absolute"@.len() != "relative_step"@.len());
    assert("relative"@.len() != "relative_step"@.len());
}

/// To mute and to end that have the names by which a core knows them.
pub proof fn names_of_mutes(mute: Mute)
    ensures
        mute.text() == "mute"@ <==> mute == Mute::Mute,
        mute.text() == "unmute"@ <==> mute == Mute::Unmute,
{
    reveal_strlit("mute");
    reveal_strlit("unmute");
    assert("mute"@.len() != "unmute"@.len());
}

} // verus!
