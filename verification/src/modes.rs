//! The small state enums of the viewer and the explanation mechanisms, with
//! their textual names and the toggles between their two states.
use vstd::prelude::*;
use vstd::string::*;

use crate::text::{append_decimal, decimal, str_equals};

verus! {

/// Dimensionality mode used by the program, determines which dimension the current viewer is in.
#[derive(Copy, Clone, Debug, PartialEq, Eq, Hash, Structural)]
pub enum DimensionalityMode {
    ThreeD,
    TwoD,
}

impl DimensionalityMode {
    /// The other dimensionality.
    pub open spec fn flipped(self) -> DimensionalityMode {
        match self {
            DimensionalityMode::TwoD => DimensionalityMode::ThreeD,
            DimensionalityMode::ThreeD => DimensionalityMode::TwoD,
        }
    }

    /// The text shown for a dimensionality.
    pub open spec fn name(self) -> Seq<char> {
        match self {
            DimensionalityMode::TwoD => "2D"@,
            DimensionalityMode::ThreeD => "3D"@,
        }
    }

    /// Convert the current value to a string
    pub fn to_string(&self) -> (s: String)
        ensures
            s@ == self.name(),
    {
        match self {
            DimensionalityMode::TwoD => String::from_str("2D"),
            DimensionalityMode::ThreeD => String::from_str("3D"),
        }
    }

    /// Get the inverse of the current value
    pub fn inverse(self) -> (res: Self)
        ensures
            res == self.flipped(),
    {
        match self {
            DimensionalityMode::TwoD => DimensionalityMode::ThreeD,
            DimensionalityMode::ThreeD => DimensionalityMode::TwoD,
        }
    }
}

/// Taking the inverse of a dimensionality twice gives it back, and the
/// inverse always differs from the value it came from.
pub proof fn dimensionality_inverse_is_involution(mode: DimensionalityMode)
    ensures
        mode.flipped().flipped() == mode,
        mode.flipped() != mode,
{
}

/// The two ways in which points can be drawn.
#[derive(Copy, Clone, Debug, PartialEq, Eq, Hash, Structural)]
pub enum RenderMode {
    Discreet,
    Continuous,
}

impl RenderMode {
    /// The other render mode.
    pub open spec fn flipped(self) -> RenderMode {
        match self {
            RenderMode::Discreet => RenderMode::Continuous,
            RenderMode::Continuous => RenderMode::Discreet,
        }
    }

    /// The text shown for a render mode (the continuous one keeps its historical spelling).
    pub open spec fn name(self) -> Seq<char> {
        match self {
            RenderMode::Discreet => "Discreet"@,
            RenderMode::Continuous => "Continous"@,
        }
    }

    /// Convert the current value to a string
    pub fn to_string(&self) -> (s: String)
        ensures
            s@ == self.name(),
    {
        match self {
            RenderMode::Discreet => String::from_str("Discreet"),
            RenderMode::Continuous => String::from_str("Continous"),
        }
    }

    /// Get the inverse of the current value
    pub fn inverse(self) -> (res: Self)
        ensures
            res == self.flipped(),
    {
        match self {
            RenderMode::Discreet => RenderMode::Continuous,
            RenderMode::Continuous => RenderMode::Discreet,
        }
    }
}

/// Taking the inverse of a render mode twice gives it back, and the inverse
/// always differs from the value it came from.
pub proof fn render_mode_inverse_is_involution(mode: RenderMode)
    ensures
        mode.flipped().flipped() == mode,
        mode.flipped() != mode,
{
}

/// Small enum used to denote which neighborhood type is currently being used.
#[derive(Copy, Clone, Debug, PartialEq, Eq, Hash, Structural)]
pub enum NeighborhoodType {
    K,
    R,
}

impl NeighborhoodType {
    /// The other neighborhood type.
    pub open spec fn flipped(self) -> NeighborhoodType {
        match self {
            NeighborhoodType::K => NeighborhoodType::R,
            NeighborhoodType::R => NeighborhoodType::K,
        }
    }

    /// The text shown for a neighborhood type.
    pub open spec fn name(self) -> Seq<char> {
        match self {
            NeighborhoodType::K => "K"@,
            NeighborhoodType::R => "R"@,
        }
    }

    /// Get the inverse of the current value
    pub fn inverse(self) -> (res: Self)
        ensures
            res == self.flipped(),
    {
        match self {
            NeighborhoodType::K => NeighborhoodType::R,
            NeighborhoodType::R => NeighborhoodType::K,
        }
    }

    /// Convert the current value to a string
    pub fn to_string(&self) -> (s: String)
        ensures
            s@ == self.name(),
    {
        match self {
            NeighborhoodType::K => String::from_str("K"),
            NeighborhoodType::R => String::from_str("R"),
        }
    }
}

/// Taking the inverse of a neighborhood type twice gives it back, and the
/// inverse always differs from the value it came from.
pub proof fn neighborhood_type_inverse_is_involution(t: NeighborhoodType)
    ensures
        t.flipped().flipped() == t,
        t.flipped() != t,
{
}

/// Which settings menu is open in the viewer.
#[derive(Copy, Clone, Debug, PartialEq, Eq, Hash, Structural)]
pub enum OpenSettingsMenu {
    ViewerSettings,
    ExplanationSettings,
    NoMenu,
}

/// The types of explanation metrics used in the da Silva paper, variance is better.
#[derive(Copy, Clone, Debug, PartialEq, Eq, Hash, Structural)]
pub enum DaSilvaType {
    Euclidean,
    Variance,
    EuclideanSingle(usize),
    VarianceSingle(usize),
}

impl DaSilvaType {
    /// The text shown for a da Silva type.
    pub open spec fn name(self) -> Seq<char> {
        match self {
            DaSilvaType::Euclidean => "Euclidean"@,
            DaSilvaType::Variance => "Variance"@,
            DaSilvaType::EuclideanSingle(attr) => "Euclidean for attribute "@ + decimal(attr as nat),
            DaSilvaType::VarianceSingle(attr) => "Variance for attribute "@ + decimal(attr as nat),
        }
    }

    /// Convert the current value to a string
    pub fn to_string(&self) -> (s: String)
        ensures
            s@ == self.name(),
    {
        match self {
            DaSilvaType::Euclidean => String::from_str("Euclidean"),
            DaSilvaType::Variance => String::from_str("Variance"),
            DaSilvaType::EuclideanSingle(attr) => {
                let mut s = String::from_str("Euclidean for attribute ");
                append_decimal(&mut s, *attr);
                s
            },
            DaSilvaType::VarianceSingle(attr) => {
                let mut s = String::from_str("Variance for attribute ");
                append_decimal(&mut s, *attr);
                s
            },
        }
    }
}

/// The types of thresholding used in the van Driel explanation mechanism.
#[derive(Copy, Clone, Debug, PartialEq, Eq, Hash, Structural)]
pub enum VanDrielType {
    TotalVariance,
    MinimalVariance,
}

/// Explanation mode is used to denote which color map is currently being displayed
#[derive(Copy, Clone, Debug, PartialEq, Eq, Hash, Structural)]
pub enum ExplanationMode {
    NoExplanation,
    DaSilva(DaSilvaType),
    VanDriel(VanDrielType),
    Normal,
}

/// The explanation mode that a mechanism name on the command line selects.
pub open spec fn mode_from_name(s: Seq<char>) -> Option<ExplanationMode> {
    if s == "silva_euclidean"@ {
        Some(ExplanationMode::DaSilva(DaSilvaType::Euclidean))
    } else if s == "silva_variance"@ {
        Some(ExplanationMode::DaSilva(DaSilvaType::Variance))
    } else if s == "driel_sum"@ {
        Some(ExplanationMode::VanDriel(VanDrielType::TotalVariance))
    } else if s == "driel_min"@ {
        Some(ExplanationMode::VanDriel(VanDrielType::MinimalVariance))
    } else if s == "none"@ {
        Some(ExplanationMode::NoExplanation)
    } else if s == "normal"@ {
        Some(ExplanationMode::Normal)
    } else {
        None
    }
}

/// Each mechanism name on the command line selects its own explanation mode,
/// and no other text selects one.
pub proof fn mechanism_names_select_modes(s: Seq<char>)
    ensures
        mode_from_name("silva_euclidean"@) == Some(ExplanationMode::DaSilva(DaSilvaType::Euclidean)),
        mode_from_name("silva_variance"@) == Some(ExplanationMode::DaSilva(DaSilvaType::Variance)),
        mode_from_name("driel_sum"@) == Some(ExplanationMode::VanDriel(VanDrielType::TotalVariance)),
        mode_from_name("driel_min"@) == Some(
            ExplanationMode::VanDriel(VanDrielType::MinimalVariance),
        ),
        mode_from_name("none"@) == Some(ExplanationMode::NoExplanation),
        mode_from_name("normal"@) == Some(ExplanationMode::Normal),
        s != "silva_euclidean"@ && s != "silva_variance"@ && s != "driel_sum"@ && s != "driel_min"@
            && s != "none"@ && s != "normal"@ ==> mode_from_name(s) is None,
{
    reveal_strlit("silva_euclidean");
    reveal_strlit("silva_variance");
    reveal_strlit("driel_sum");
    reveal_strlit("driel_min");
    reveal_strlit("none");
    reveal_strlit("normal");
    assert("silva_euclidean"@ != "silva_variance"@) by {
        assert("silva_euclidean"@.len() != "silva_variance"@.len());
    }
    assert("driel_sum"@ != "silva_euclidean"@) by {
        assert("driel_sum"@[0] != "silva_euclidean"@[0]);
    }
    assert("driel_sum"@ != "silva_variance"@) by {
        assert("driel_sum"@[0] != "silva_variance"@[0]);
    }
    assert("driel_min"@ != "silva_euclidean"@) by {
        assert("driel_min"@[0] != "silva_euclidean"@[0]);
    }
    assert("driel_min"@ != "silva_variance"@) by {
        assert("driel_min"@[0] != "silva_variance"@[0]);
    }
    assert("driel_min"@ != "driel_sum"@) by {
        assert("driel_min"@[6] != "driel_sum"@[6]);
    }
    assert("none"@ != "silva_euclidean"@ && "none"@ != "silva_variance"@ && "none"@ != "driel_sum"@
        && "none"@ != "driel_min"@) by {
        assert("none"@.len() == 4);
    }
    assert("normal"@ != "silva_euclidean"@ && "normal"@ != "silva_variance"@ && "normal"@
        != "driel_sum"@ && "normal"@ != "driel_min"@ && "normal"@ != "none"@) by {
        assert("normal"@.len() == 6);
    }
}

impl ExplanationMode {
    /// The text shown for an explanation mode.
    pub open spec fn name(self) -> Seq<char> {
        match self {
            ExplanationMode::NoExplanation => "None"@,
            ExplanationMode::DaSilva(t) => "Da Silva ("@ + t.name() + ")"@,
            ExplanationMode::VanDriel(VanDrielType::MinimalVariance) => "Van Driel (min)"@,
            ExplanationMode::VanDriel(VanDrielType::TotalVariance) => "Van Driel (total)"@,
            ExplanationMode::Normal => "Normal"@,
        }
    }

    /// Convert the current value to a string
    pub fn to_string(&self) -> (s: String)
        ensures
            s@ == self.name(),
    {
        match self {
            ExplanationMode::NoExplanation => String::from_str("None"),
            ExplanationMode::DaSilva(t) => {
                let mut s = String::from_str("Da Silva (");
                let inner = t.to_string();
                s.append(inner.as_str());
                s.append(")");
                s
            },
            ExplanationMode::VanDriel(VanDrielType::MinimalVariance) => String::from_str(
                "Van Driel (min)",
            ),
            ExplanationMode::VanDriel(VanDrielType::TotalVariance) => String::from_str(
                "Van Driel (total)",
            ),
            ExplanationMode::Normal => String::from_str("Normal"),
        }
    }

    /// Create an explanation mode from the name of a mechanism; the error
    /// names the text that was not recognised.
    pub fn try_from(s: &str) -> (res: Result<ExplanationMode, String>)
        ensures
            match res {
                Ok(mode) => mode_from_name(s@) == Some(mode),
                Err(msg) => mode_from_name(s@) is None && msg@ == "Could not create explanation mode from '"@
                    + s@ + "'"@,
            },
    {
        if str_equals(s, "silva_euclidean") {
            Ok(ExplanationMode::DaSilva(DaSilvaType::Euclidean))
        } else if str_equals(s, "silva_variance") {
            Ok(ExplanationMode::DaSilva(DaSilvaType::Variance))
        } else if str_equals(s, "driel_sum") {
            Ok(ExplanationMode::VanDriel(VanDrielType::TotalVariance))
        } else if str_equals(s, "driel_min") {
            Ok(ExplanationMode::VanDriel(VanDrielType::MinimalVariance))
        } else if str_equals(s, "none") {
            Ok(ExplanationMode::NoExplanation)
        } else if str_equals(s, "normal") {
            Ok(ExplanationMode::Normal)
        } else {
            let mut msg = String::from_str("Could not create explanation mode from '");
            msg.append(s);
            msg.append("'");
            Err(msg)
        }
    }
}


/// Whether the colour map of an existing explanation is kept when another
/// explanation is computed: the map for showing no explanation always stays,
/// the same explanation is replaced, and the single attribute explanations of
/// a da Silva metric are dropped when the full explanation of that metric is
/// recomputed.
pub open spec fn color_map_kept(existing: ExplanationMode, computed: ExplanationMode) -> bool {
    if existing == ExplanationMode::NoExplanation {
        true
    } else if existing == computed {
        false
    } else {
        match (existing, computed) {
            (
                ExplanationMode::DaSilva(DaSilvaType::VarianceSingle(_)),
                ExplanationMode::DaSilva(DaSilvaType::Variance),
            ) => false,
            (
                ExplanationMode::DaSilva(DaSilvaType::EuclideanSingle(_)),
                ExplanationMode::DaSilva(DaSilvaType::Euclidean),
            ) => false,
            _ => true,
        }
    }
}

/// Recomputing an explanation drops exactly the colour map of that same
/// explanation and, for a full da Silva explanation, the single attribute
/// maps of the same metric. The map for showing no explanation and every
/// other map, such as a full da Silva map of the other metric, are kept.
pub proof fn recompute_drops_only_replaced_maps(existing: ExplanationMode, computed: ExplanationMode)
    ensures
        existing == ExplanationMode::NoExplanation ==> color_map_kept(existing, computed),
        existing != ExplanationMode::NoExplanation && existing == computed ==> !color_map_kept(
            existing,
            computed,
        ),
        (existing matches ExplanationMode::DaSilva(DaSilvaType::VarianceSingle(_))) && computed
            == ExplanationMode::DaSilva(DaSilvaType::Variance) ==> !color_map_kept(existing, computed),
        (existing matches ExplanationMode::DaSilva(DaSilvaType::EuclideanSingle(_))) && computed
            == ExplanationMode::DaSilva(DaSilvaType::Euclidean) ==> !color_map_kept(existing, computed),
        !color_map_kept(existing, computed) ==> existing == computed || ((existing matches ExplanationMode::DaSilva(
            DaSilvaType::VarianceSingle(_),
        )) && computed == ExplanationMode::DaSilva(DaSilvaType::Variance)) || ((existing matches ExplanationMode::DaSilva(
            DaSilvaType::EuclideanSingle(_),
        )) && computed == ExplanationMode::DaSilva(DaSilvaType::Euclidean)),
{
}

/// Decide whether the colour map of `existing` survives computing `computed`.
pub fn keeps_color_map(existing: ExplanationMode, computed: ExplanationMode) -> (keep: bool)
    ensures
        keep == color_map_kept(existing, computed),
{
    if existing == ExplanationMode::NoExplanation {
        return true;
    }
    if existing == computed {
        return false;
    }
    match (existing, computed) {
        (
            ExplanationMode::DaSilva(DaSilvaType::VarianceSingle(_)),
            ExplanationMode::DaSilva(DaSilvaType::Variance),
        ) => false,
        (
            ExplanationMode::DaSilva(DaSilvaType::EuclideanSingle(_)),
            ExplanationMode::DaSilva(DaSilvaType::Euclidean),
        ) => false,
        _ => true,
    }
}

} // verus!
