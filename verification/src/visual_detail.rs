//! The visual-detail presets and landmark detail levels, with the names the
//! command line and the API know them by, and the kinds of feature the
//! inspector shows.

use vstd::prelude::*;

use crate::extra_args::{value_check, ValueRule};
use crate::text::same_text;

verus! {

/// A preset of the visual-detail settings.
#[derive(Clone, Copy, Debug, PartialEq, Eq, Structural)]
pub enum VisualPreset {
    Performance,
    Balanced,
    Showcase,
}

/// How much detail landmarks are drawn with.
#[derive(Clone, Copy, Debug, PartialEq, Eq, Structural)]
pub enum LandmarkDetail {
    Off,
    Simple,
    Showcase,
}

/// High-level kind of an inspectable feature.
#[derive(Clone, Copy, Debug, PartialEq, Eq, Structural)]
pub enum FeatureKind {
    Address,
    Building,
    Landmark,
    Poi,
    Road,
    StreetSign,
    Transit,
}

/// The name of a preset.
pub open spec fn preset_name(p: VisualPreset) -> Seq<char> {
    match p {
        VisualPreset::Performance => "performance"@,
        VisualPreset::Balanced => "balanced"@,
        VisualPreset::Showcase => "showcase"@,
    }
}

/// The name of a landmark detail level.
pub open spec fn landmark_detail_name(d: LandmarkDetail) -> Seq<char> {
    match d {
        LandmarkDetail::Off => "off"@,
        LandmarkDetail::Simple => "simple"@,
        LandmarkDetail::Showcase => "showcase"@,
    }
}

/// The preset named `name`, if any.
pub open spec fn preset_named(name: Seq<char>) -> Option<VisualPreset> {
    if name == "performance"@ {
        Some(VisualPreset::Performance)
    } else if name == "balanced"@ {
        Some(VisualPreset::Balanced)
    } else if name == "showcase"@ {
        Some(VisualPreset::Showcase)
    } else {
        None
    }
}

/// The landmark detail level named `name`, if any.
pub open spec fn landmark_detail_named(name: Seq<char>) -> Option<LandmarkDetail> {
    if name == "off"@ {
        Some(LandmarkDetail::Off)
    } else if name == "simple"@ {
        Some(LandmarkDetail::Simple)
    } else if name == "showcase"@ {
        Some(LandmarkDetail::Showcase)
    } else {
        None
    }
}

impl VisualPreset {
    /// The name of the preset.
    pub fn name(self) -> (r: &'static str)
        ensures
            r@ == preset_name(self),
    {
        match self {
            VisualPreset::Performance => "performance",
            VisualPreset::Balanced => "balanced",
            VisualPreset::Showcase => "showcase",
        }
    }

    /// The preset of the given name.
    pub fn from_name(name: &str) -> (r: Option<Self>)
        ensures
            r == preset_named(name@),
    {
        if same_text(name, "performance") {
            Some(VisualPreset::Performance)
        } else if same_text(name, "balanced") {
            Some(VisualPreset::Balanced)
        } else if same_text(name, "showcase") {
            Some(VisualPreset::Showcase)
        } else {
            None
        }
    }
}

impl LandmarkDetail {
    /// The name of the level.
    pub fn name(self) -> (r: &'static str)
        ensures
            r@ == landmark_detail_name(self),
    {
        match self {
            LandmarkDetail::Off => "off",
            LandmarkDetail::Simple => "simple",
            LandmarkDetail::Showcase => "showcase",
        }
    }

    /// The level of the given name.
    pub fn from_name(name: &str) -> (r: Option<Self>)
        ensures
            r == landmark_detail_named(name@),
    {
        if same_text(name, "off") {
            Some(LandmarkDetail::Off)
        } else if same_text(name, "simple") {
            Some(LandmarkDetail::Simple)
        } else if same_text(name, "showcase") {
            Some(LandmarkDetail::Showcase)
        } else {
            None
        }
    }
}

/// Every preset and level is found again by its name.
pub proof fn lemma_names_round_trip(p: VisualPreset, d: LandmarkDetail)
    ensures
        preset_named(preset_name(p)) == Some(p),
        landmark_detail_named(landmark_detail_name(d)) == Some(d),
{
    reveal_strlit("performance");
    reveal_strlit("balanced");
    reveal_strlit("showcase");
    reveal_strlit("off");
    reveal_strlit("simple");
    assert("performance"@.len() == 11 && "balanced"@.len() == 8 && "showcase"@.len() == 8);
    assert("off"@.len() == 3 && "simple"@.len() == 6);
    assert("showcase"@[0] != "balanced"@[0]);
}

/// The API accepts exactly the preset and landmark names the renderer's own
/// command line knows, so a launch it lets through is not refused by the
/// renderer for those flags.
pub proof fn lemma_api_accepts_renderer_names(value: Seq<char>)
    ensures
        value_check(ValueRule::VisualPreset, value) is Ok <==> preset_named(value) is Some,
        value_check(ValueRule::LandmarkDetail, value) is Ok <==> landmark_detail_named(value) is Some,
{
}

} // verus!
