//! The part of the viewer's scene that decides which of the 2D and 3D states
//! is shown, and the names shown in its legend.
use vstd::prelude::*;
use vstd::string::*;

use crate::modes::{DaSilvaType, DimensionalityMode, ExplanationMode, VanDrielType};
use crate::text::{append_decimal, decimal};

verus! {

/// What a scene shows: its dimensionality, which states are loaded, and
/// whether the window still has to be synced with it.
pub struct SceneModel {
    pub dimensionality_mode: DimensionalityMode,
    pub has_2d: bool,
    pub has_3d: bool,
    pub dirty: bool,
}

impl SceneModel {
    /// Once anything is loaded, the dimensionality shown has a loaded state.
    pub open spec fn shows_loaded_state(self) -> bool {
        (self.has_2d || self.has_3d) ==> match self.dimensionality_mode {
            DimensionalityMode::TwoD => self.has_2d,
            DimensionalityMode::ThreeD => self.has_3d,
        }
    }

    /// The state of the other dimensionality is loaded.
    pub open spec fn can_switch(self) -> bool {
        match self.dimensionality_mode {
            DimensionalityMode::TwoD => self.has_3d,
            DimensionalityMode::ThreeD => self.has_2d,
        }
    }

    /// The scene after a request to switch the dimensionality: it switches
    /// only when the state of the other dimensionality is loaded.
    pub open spec fn switched(self) -> SceneModel {
        if self.can_switch() {
            SceneModel {
                dimensionality_mode: self.dimensionality_mode.flipped(),
                dirty: true,
                ..self
            }
        } else {
            self
        }
    }
}

/// The 2D and 3D states of the viewer and the dimensionality being shown.
pub struct SceneStates<S2, S3> {
    dimensionality_mode: DimensionalityMode,
    state_2d: Option<S2>,
    state_3d: Option<S3>,
    dirty: bool,
}

impl<S2, S3> View for SceneStates<S2, S3> {
    type V = SceneModel;

    closed spec fn view(&self) -> SceneModel {
        SceneModel {
            dimensionality_mode: self.dimensionality_mode,
            has_2d: self.state_2d is Some,
            has_3d: self.state_3d is Some,
            dirty: self.dirty,
        }
    }
}

impl<S2, S3> SceneStates<S2, S3> {
    /// The loaded 2D state, if any.
    pub closed spec fn loaded_2d(&self) -> Option<S2> {
        self.state_2d
    }

    /// The loaded 3D state, if any.
    pub closed spec fn loaded_3d(&self) -> Option<S3> {
        self.state_3d
    }

    /// A scene without states, set to 3D.
    pub fn new() -> (res: Self)
        ensures
            res@ == (SceneModel {
                dimensionality_mode: DimensionalityMode::ThreeD,
                has_2d: false,
                has_3d: false,
                dirty: false,
            }),
            res.loaded_2d() is None,
            res.loaded_3d() is None,
    {
        SceneStates {
            dimensionality_mode: DimensionalityMode::ThreeD,
            state_2d: None,
            state_3d: None,
            dirty: false,
        }
    }

    /// Load the 3D state and show it.
    pub fn load_3d(&mut self, state: S3)
        ensures
            final(self)@ == (SceneModel {
                dimensionality_mode: DimensionalityMode::ThreeD,
                has_3d: true,
                dirty: true,
                ..old(self)@
            }),
            final(self).loaded_3d() == Some(state),
            final(self).loaded_2d() == old(self).loaded_2d(),
    {
        self.state_3d = Some(state);
        self.dimensionality_mode = DimensionalityMode::ThreeD;
        self.dirty = true;
    }

    /// Load the 2D state and show it.
    pub fn load_2d(&mut self, state: S2)
        ensures
            final(self)@ == (SceneModel {
                dimensionality_mode: DimensionalityMode::TwoD,
                has_2d: true,
                dirty: true,
                ..old(self)@
            }),
            final(self).loaded_2d() == Some(state),
            final(self).loaded_3d() == old(self).loaded_3d(),
    {
        self.state_2d = Some(state);
        self.dimensionality_mode = DimensionalityMode::TwoD;
        self.dirty = true;
    }

    /// Check if any data has been passed, we can not work without any reduction data
    pub fn initialized(&self) -> (b: bool)
        ensures
            b == (self@.has_2d || self@.has_3d),
    {
        !(self.state_2d.is_none() && self.state_3d.is_none())
    }

    /// Whether the state of the other dimensionality is loaded.
    pub fn dimension_switch_available(&self) -> (b: bool)
        ensures
            b == self@.can_switch(),
    {
        match self.dimensionality_mode {
            DimensionalityMode::TwoD => self.state_3d.is_some(),
            DimensionalityMode::ThreeD => self.state_2d.is_some(),
        }
    }

    /// Switch the dimensionality if the accompanying state is available;
    /// returns whether it switched.
    pub fn switch_dimensionality(&mut self) -> (switched: bool)
        ensures
            switched == old(self)@.can_switch(),
            final(self)@ == old(self)@.switched(),
            final(self).loaded_2d() == old(self).loaded_2d(),
            final(self).loaded_3d() == old(self).loaded_3d(),
    {
        match self.dimensionality_mode {
            DimensionalityMode::TwoD => if self.state_3d.is_some() {
                self.dimensionality_mode = DimensionalityMode::ThreeD;
                self.dirty = true;
                true
            } else {
                false
            },
            DimensionalityMode::ThreeD => if self.state_2d.is_some() {
                self.dimensionality_mode = DimensionalityMode::TwoD;
                self.dirty = true;
                true
            } else {
                false
            },
        }
    }

    /// The dimensionality being shown.
    pub fn dimensionality_mode(&self) -> (m: DimensionalityMode)
        ensures
            m == self@.dimensionality_mode,
    {
        self.dimensionality_mode
    }

    /// Whether the window has to be synced with the scene; clears the flag.
    pub fn take_dirty(&mut self) -> (was_dirty: bool)
        ensures
            was_dirty == old(self)@.dirty,
            final(self)@ == (SceneModel { dirty: false, ..old(self)@ }),
            final(self).loaded_2d() == old(self).loaded_2d(),
            final(self).loaded_3d() == old(self).loaded_3d(),
    {
        let was_dirty = self.dirty;
        self.dirty = false;
        was_dirty
    }

    /// The 2D state, if loaded.
    pub fn state_2d(&self) -> (s: Option<&S2>)
        ensures
            s is Some <==> self.loaded_2d() is Some,
            s is Some ==> *s->0 == self.loaded_2d()->0,
    {
        self.state_2d.as_ref()
    }

    /// The 3D state, if loaded.
    pub fn state_3d(&self) -> (s: Option<&S3>)
        ensures
            s is Some <==> self.loaded_3d() is Some,
            s is Some ==> *s->0 == self.loaded_3d()->0,
    {
        self.state_3d.as_ref()
    }

    /// The 2D state for changing it, if loaded.
    pub fn state_2d_mut(&mut self) -> (s: Option<&mut S2>)
        ensures
            s is Some <==> old(self).loaded_2d() is Some,
            s is Some ==> *s->0 == old(self).loaded_2d()->0,
            s is Some ==> final(self).loaded_2d() == Some(*final(s->0)),
            final(self)@ == old(self)@,
            final(self).loaded_3d() == old(self).loaded_3d(),
    {
        self.state_2d.as_mut()
    }

    /// The 3D state for changing it, if loaded.
    pub fn state_3d_mut(&mut self) -> (s: Option<&mut S3>)
        ensures
            s is Some <==> old(self).loaded_3d() is Some,
            s is Some ==> *s->0 == old(self).loaded_3d()->0,
            s is Some ==> final(self).loaded_3d() == Some(*final(s->0)),
            final(self)@ == old(self)@,
            final(self).loaded_2d() == old(self).loaded_2d(),
    {
        self.state_3d.as_mut()
    }
}

/// Every operation on a scene keeps the dimensionality it shows loaded, once
/// anything is loaded.
pub proof fn scene_shows_loaded_state(m: SceneModel)
    requires
        m.shows_loaded_state(),
    ensures
        m.switched().shows_loaded_state(),
        (SceneModel { dimensionality_mode: DimensionalityMode::TwoD, has_2d: true, dirty: true, ..m }).shows_loaded_state(),
        (SceneModel { dimensionality_mode: DimensionalityMode::ThreeD, has_3d: true, dirty: true, ..m }).shows_loaded_state(),
        (SceneModel { dirty: false, ..m }).shows_loaded_state(),
{
}

/// A switch request changes the dimensionality shown exactly when the state
/// of the other dimensionality is loaded, marks the scene to be synced when
/// it does, and never changes which states are loaded.
pub proof fn switching_needs_the_other_state(m: SceneModel)
    ensures
        m.can_switch() <==> (match m.dimensionality_mode {
            DimensionalityMode::TwoD => m.has_3d,
            DimensionalityMode::ThreeD => m.has_2d,
        }),
        m.can_switch() ==> m.switched().dimensionality_mode != m.dimensionality_mode
            && m.switched().dirty,
        !m.can_switch() ==> m.switched() == m,
        m.switched().has_2d == m.has_2d,
        m.switched().has_3d == m.has_3d,
{
}

/// With both states loaded, switching twice shows the dimensionality shown
/// before.
pub proof fn switching_twice_returns(m: SceneModel)
    requires
        m.has_2d,
        m.has_3d,
    ensures
        m.switched().switched().dimensionality_mode == m.dimensionality_mode,
{
}

/// The name shown in the legend for a dimension: for attribute based
/// explanations the name of the attribute, for dimensionality based ones the
/// number of dimensions.
pub open spec fn legend_name(mode: ExplanationMode, names: Option<Seq<Seq<char>>>, index: usize) -> Option<
    Seq<char>,
> {
    match mode {
        ExplanationMode::DaSilva(_) => match names {
            Some(n) => if index < n.len() {
                Some(n[index as int])
            } else {
                None
            },
            None => None,
        },
        ExplanationMode::VanDriel(_) => Some(decimal(index as nat) + " Dimension(s)"@),
        ExplanationMode::Normal => None,
        ExplanationMode::NoExplanation => None,
    }
}

/// For attribute based explanations the legend shows the name of the
/// attribute at the index, for every index that has a name, the first
/// included, and nothing past the names or without names; for
/// dimensionality based ones it shows the number of dimensions; the other
/// modes show nothing.
pub proof fn legend_names_the_attribute(
    silva: DaSilvaType,
    driel: VanDrielType,
    names: Seq<Seq<char>>,
    index: usize,
)
    ensures
        index < names.len() ==> legend_name(ExplanationMode::DaSilva(silva), Some(names), index)
            == Some(names[index as int]),
        index >= names.len() ==> legend_name(
            ExplanationMode::DaSilva(silva),
            Some(names),
            index,
        ) is None,
        legend_name(ExplanationMode::DaSilva(silva), None, index) is None,
        legend_name(ExplanationMode::VanDriel(driel), Some(names), index) == Some(
            decimal(index as nat) + " Dimension(s)"@,
        ),
        legend_name(ExplanationMode::Normal, Some(names), index) is None,
        legend_name(ExplanationMode::NoExplanation, Some(names), index) is None,
{
}

/// The names of the attributes, as text.
pub open spec fn name_texts(names: Seq<String>) -> Seq<Seq<char>> {
    names.map_values(|s: String| s@)
}

/// The name of a dimension in the legend, given the explanation mode shown
/// and the attribute names of the state shown (if one is loaded).
pub fn get_dimension_name(mode: ExplanationMode, names: Option<&Vec<String>>, index: usize) -> (res:
    Option<String>)
    ensures
        match res {
            Some(s) => legend_name(
                mode,
                match names {
                    Some(n) => Some(name_texts(n@)),
                    None => None,
                },
                index,
            ) == Some(s@),
            None => legend_name(
                mode,
                match names {
                    Some(n) => Some(name_texts(n@)),
                    None => None,
                },
                index,
            ) is None,
        },
{
    match mode {
        ExplanationMode::DaSilva(_) => match names {
            Some(n) => if index < n.len() {
                Some(n[index].clone())
            } else {
                None
            },
            None => None,
        },
        ExplanationMode::VanDriel(_) => {
            let mut s = String::new();
            append_decimal(&mut s, index);
            s.append(" Dimension(s)");
            Some(s)
        },
        ExplanationMode::Normal => None,
        ExplanationMode::NoExplanation => None,
    }
}

} // verus!
