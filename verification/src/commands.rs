//! The decisions of the command line commands: which explanation to run for
//! a reduced data set, and which shape to generate.
use vstd::prelude::*;
use vstd::string::*;

use crate::modes::{DaSilvaType, ExplanationMode, VanDrielType};
use crate::text::str_equals;

verus! {

/// The explanation run by the `explain` command.
#[derive(Copy, Clone, Debug, PartialEq, Eq, Structural)]
pub enum ExplanationRun {
    DaSilva2D(DaSilvaType),
    DaSilva3D(DaSilvaType),
    VanDriel2D(VanDrielType),
    VanDriel3D(VanDrielType),
}

/// The explanation to run for data reduced to `dimensionality` dimensions:
/// da Silva and van Driel in 2D and 3D; anything else is refused with the
/// dimensionality.
pub open spec fn run_for(dimensionality: usize, mode: ExplanationMode) -> Result<ExplanationRun, usize> {
    match mode {
        ExplanationMode::DaSilva(method) => if dimensionality == 2 {
            Ok(ExplanationRun::DaSilva2D(method))
        } else if dimensionality == 3 {
            Ok(ExplanationRun::DaSilva3D(method))
        } else {
            Err(dimensionality)
        },
        ExplanationMode::VanDriel(method) => if dimensionality == 2 {
            Ok(ExplanationRun::VanDriel2D(method))
        } else if dimensionality == 3 {
            Ok(ExplanationRun::VanDriel3D(method))
        } else {
            Err(dimensionality)
        },
        _ => Err(dimensionality),
    }
}

/// The explain command runs, for data reduced to 2 or 3 dimensions, the
/// explanation of the chosen mechanism in that dimensionality and with
/// exactly the method chosen; any other dimensionality, and the modes that
/// are no explanation mechanism, are refused with the dimensionality.
pub proof fn planned_run_carries_the_method(
    dimensionality: usize,
    silva: DaSilvaType,
    driel: VanDrielType,
)
    ensures
        run_for(2, ExplanationMode::DaSilva(silva)) == Ok::<ExplanationRun, usize>(
            ExplanationRun::DaSilva2D(silva),
        ),
        run_for(3, ExplanationMode::DaSilva(silva)) == Ok::<ExplanationRun, usize>(
            ExplanationRun::DaSilva3D(silva),
        ),
        run_for(2, ExplanationMode::VanDriel(driel)) == Ok::<ExplanationRun, usize>(
            ExplanationRun::VanDriel2D(driel),
        ),
        run_for(3, ExplanationMode::VanDriel(driel)) == Ok::<ExplanationRun, usize>(
            ExplanationRun::VanDriel3D(driel),
        ),
        dimensionality != 2 && dimensionality != 3 ==> run_for(
            dimensionality,
            ExplanationMode::DaSilva(silva),
        ) == Err::<ExplanationRun, usize>(dimensionality),
        dimensionality != 2 && dimensionality != 3 ==> run_for(
            dimensionality,
            ExplanationMode::VanDriel(driel),
        ) == Err::<ExplanationRun, usize>(dimensionality),
        run_for(dimensionality, ExplanationMode::Normal) == Err::<ExplanationRun, usize>(
            dimensionality,
        ),
        run_for(dimensionality, ExplanationMode::NoExplanation) == Err::<ExplanationRun, usize>(
            dimensionality,
        ),
{
}

/// Decide which explanation the `explain` command runs.
pub fn plan_explanation(dimensionality: usize, mode: ExplanationMode) -> (res: Result<
    ExplanationRun,
    usize,
>)
    ensures
        res == run_for(dimensionality, mode),
{
    match mode {
        ExplanationMode::DaSilva(method) => if dimensionality == 2 {
            Ok(ExplanationRun::DaSilva2D(method))
        } else if dimensionality == 3 {
            Ok(ExplanationRun::DaSilva3D(method))
        } else {
            Err(dimensionality)
        },
        ExplanationMode::VanDriel(method) => if dimensionality == 2 {
            Ok(ExplanationRun::VanDriel2D(method))
        } else if dimensionality == 3 {
            Ok(ExplanationRun::VanDriel3D(method))
        } else {
            Err(dimensionality)
        },
        _ => Err(dimensionality),
    }
}

/// The shapes the `generate` command can create.
#[derive(Copy, Clone, Debug, PartialEq, Eq, Structural)]
pub enum Shapes {
    Cube,
    HyperCube,
}

/// The shape a name selects.
pub open spec fn shape_named(name: Seq<char>) -> Option<Shapes> {
    if name == "cube"@ {
        Some(Shapes::Cube)
    } else if name == "hypercube"@ {
        Some(Shapes::HyperCube)
    } else {
        None
    }
}

/// `cube` and `hypercube` select their shapes, and no other name selects
/// any shape.
pub proof fn shape_names_select_shapes(name: Seq<char>)
    ensures
        shape_named("cube"@) == Some(Shapes::Cube),
        shape_named("hypercube"@) == Some(Shapes::HyperCube),
        name != "cube"@ && name != "hypercube"@ ==> shape_named(name) is None,
{
    reveal_strlit("cube");
    reveal_strlit("hypercube");
    assert("cube"@.len() != "hypercube"@.len());
}

/// Find out which shape should be generated.
pub fn parse_shape(name: &str) -> (res: Option<Shapes>)
    ensures
        res == shape_named(name@),
{
    if str_equals(name, "cube") {
        Some(Shapes::Cube)
    } else if str_equals(name, "hypercube") {
        Some(Shapes::HyperCube)
    } else {
        None
    }
}

} // verus!
