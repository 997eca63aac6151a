//! Horizontal or vertical.

use crate::error::{WallSwitchError, WallSwitchErrorView, WallSwitchResult};
use crate::text::{lowercase_spec, same_text, to_lowercase, trim, trim_spec};
use crate::traits::Colors;
use vstd::prelude::*;

verus! {

/// How pictures are laid out next to each other.
#[derive(Debug, Clone, Copy, PartialEq, Eq, Structural, PartialOrd, Ord, Hash)]
pub enum Orientation {
    /// Side by side.
    Horizontal,
    /// Stacked.
    Vertical,
}

/// The orientation that a lower-case name stands for.
pub open spec fn orientation_named(name: Seq<char>) -> Option<Orientation> {
    if name == "horizontal"@ {
        Some(Orientation::Horizontal)
    } else if name == "vertical"@ {
        Some(Orientation::Vertical)
    } else {
        None
    }
}

/// The orientation that a text names, whatever the case of its letters and
/// the white space around it.
pub open spec fn orientation_spec(text: Seq<char>) -> Option<Orientation> {
    orientation_named(lowercase_spec(trim_spec(text)))
}

impl Orientation {
    /// The other orientation.
    pub open spec fn flipped(self) -> Orientation {
        match self {
            Orientation::Horizontal => Orientation::Vertical,
            Orientation::Vertical => Orientation::Horizontal,
        }
    }

    /// The name of the orientation.
    pub open spec fn name(self) -> Seq<char> {
        match self {
            Orientation::Horizontal => "Horizontal"@,
            Orientation::Vertical => "Vertical"@,
        }
    }

    /// Turns a horizontal layout into a vertical one and back.
    pub fn flip(self) -> (r: Orientation)
        ensures
            r == self.flipped(),
    {
        match self {
            Orientation::Horizontal => Orientation::Vertical,
            Orientation::Vertical => Orientation::Horizontal,
        }
    }

    /// The orientation that the lower-case name `name` stands for.
    pub fn from_lowercase(name: &str) -> (r: WallSwitchResult<Orientation>)
        ensures
            match r {
                Ok(orientation) => orientation_named(name@) == Some(orientation),
                Err(e) => orientation_named(name@) is None && e@
                    == WallSwitchErrorView::InvalidOrientation,
            },
    {
        if same_text(name, "horizontal") {
            Ok(Orientation::Horizontal)
        } else if same_text(name, "vertical") {
            Ok(Orientation::Vertical)
        } else {
            Err(WallSwitchError::InvalidOrientation)
        }
    }

    /// Reads an orientation from its name, whatever the case of its letters
    /// and the white space around it.
    pub fn parse(text: &str) -> (r: WallSwitchResult<Orientation>)
        ensures
            match r {
                Ok(orientation) => orientation_spec(text@) == Some(orientation),
                Err(e) => orientation_spec(text@) is None && e@
                    == WallSwitchErrorView::InvalidOrientation,
            },
    {
        let trimmed = trim(text);
        let lowered = to_lowercase(trimmed.as_str());
        Orientation::from_lowercase(lowered.as_str())
    }

    /// The name of the orientation.
    pub fn to_string(&self) -> (r: String)
        ensures
            r@ == self.name(),
    {
        match self {
            Orientation::Horizontal => "Horizontal".to_string(),
            Orientation::Vertical => "Vertical".to_string(),
        }
    }
}

impl Default for Orientation {
    fn default() -> (r: Orientation)
        ensures
            r == Orientation::Horizontal,
    {
        Orientation::Horizontal
    }
}

impl std::str::FromStr for Orientation {
    type Err = WallSwitchError;

    /// Reads an orientation from its name, whatever the case of its letters
    /// and the white space around it.
    fn from_str(s: &str) -> (r: Result<Orientation, WallSwitchError>)
        ensures
            match r {
                Ok(orientation) => orientation_spec(s@) == Some(orientation),
                Err(e) => orientation_spec(s@) is None && e@
                    == WallSwitchErrorView::InvalidOrientation,
            },
    {
        Orientation::parse(s)
    }
}

impl Colors for Orientation {
    open spec fn plain(&self) -> Seq<char> {
        self.name()
    }

    fn plain_text(&self) -> (r: String) {
        self.to_string()
    }
}

} // verus!
