//! The ways in which a scene can be shown.
use vstd::prelude::*;

verus! {

/// One way of showing a scene.
#[derive(Debug, Copy, Clone, PartialEq, Eq, Structural)]
pub enum VisualMode {
    Normal3D,
    Degenerate3D,
    Combined3D,
    Degenerate4D,
}

impl VisualMode {
    /// The mode with the given number: 1 is `Normal3D`, 2 is `Combined3D`,
    /// 3 is `Degenerate3D`, 4 is `Degenerate4D`.
    pub open spec fn spec_from_int(number: u32) -> VisualMode {
        if number == 1 {
            VisualMode::Normal3D
        } else if number == 2 {
            VisualMode::Combined3D
        } else if number == 3 {
            VisualMode::Degenerate3D
        } else {
            VisualMode::Degenerate4D
        }
    }

    /// The mode with the given number, which is one of 1, 2, 3 and 4.
    pub fn from_int(number: u32) -> (mode: VisualMode)
        requires
            1 <= number <= 4,
        ensures
            mode == Self::spec_from_int(number),
    {
        if number == 1 {
            VisualMode::Normal3D
        } else if number == 2 {
            VisualMode::Combined3D
        } else if number == 3 {
            VisualMode::Degenerate3D
        } else {
            VisualMode::Degenerate4D
        }
    }

    /// The mode with the given number, if there is one.
    pub fn try_from_int(number: u32) -> (mode: Option<VisualMode>)
        ensures
            mode == if 1 <= number <= 4 {
                Some(Self::spec_from_int(number))
            } else {
                None
            },
    {
        if 1 <= number && number <= 4 {
            Some(Self::from_int(number))
        } else {
            None
        }
    }

    /// The name of the mode.
    pub open spec fn name(self) -> Seq<char> {
        match self {
            VisualMode::Normal3D => "Normal3D"@,
            VisualMode::Degenerate3D => "Degenerate3D"@,
            VisualMode::Combined3D => "Combined3D"@,
            VisualMode::Degenerate4D => "Degenerate4D"@,
        }
    }

    /// The name of the mode as a string.
    pub fn to_string(&self) -> (text: String)
        ensures
            text@ == self.name(),
    {
        match self {
            VisualMode::Normal3D => "Normal3D".to_owned(),
            VisualMode::Degenerate3D => "Degenerate3D".to_owned(),
            VisualMode::Combined3D => "Combined3D".to_owned(),
            VisualMode::Degenerate4D => "Degenerate4D".to_owned(),
        }
    }
}

} // verus!
