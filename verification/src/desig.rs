//! Designations of objects.
use vstd::prelude::*;

verus! {

/// What an object is called.
#[derive(Debug, PartialEq, Eq)]
pub enum Desig {
    /// No designation.
    Empty,
    /// Permanent number of an asteroid.
    Perm(u32),
    /// Provisional designation of an asteroid.
    Prov(String),
    /// Permanent designation of a comet: orbit type, number, fragment.
    CometPerm(char, u32, Option<char>),
    /// Provisional designation of a comet: orbit type, designation, fragment.
    CometProv(Option<char>, String, Option<char>),
    /// Satellite of a planet: planet, number.
    PlanetSat(i32, u32),
    /// A name.
    Name(String),
    /// NAIF id.
    Naif(i32),
    /// Code of an observatory.
    ObservatoryCode(String),
}

/// A designation with its texts as sequences of characters.
pub enum DesigModel {
    Empty,
    Perm(u32),
    Prov(Seq<char>),
    CometPerm(char, u32, Option<char>),
    CometProv(Option<char>, Seq<char>, Option<char>),
    PlanetSat(i32, u32),
    Name(Seq<char>),
    Naif(i32),
    ObservatoryCode(Seq<char>),
}

impl View for Desig {
    type V = DesigModel;

    open spec fn view(&self) -> DesigModel {
        match self {
            Desig::Empty => DesigModel::Empty,
            Desig::Perm(n) => DesigModel::Perm(*n),
            Desig::Prov(s) => DesigModel::Prov(s@),
            Desig::CometPerm(kind, n, fragment) => DesigModel::CometPerm(*kind, *n, *fragment),
            Desig::CometProv(kind, s, fragment) => DesigModel::CometProv(*kind, s@, *fragment),
            Desig::PlanetSat(planet, n) => DesigModel::PlanetSat(*planet, *n),
            Desig::Name(s) => DesigModel::Name(s@),
            Desig::Naif(id) => DesigModel::Naif(*id),
            Desig::ObservatoryCode(s) => DesigModel::ObservatoryCode(s@),
        }
    }
}

impl Clone for Desig {
    fn clone(&self) -> (r: Self)
        ensures
            r == *self,
    {
        match self {
            Desig::Empty => Desig::Empty,
            Desig::Perm(n) => Desig::Perm(*n),
            Desig::Prov(s) => Desig::Prov(s.clone()),
            Desig::CometPerm(kind, n, fragment) => Desig::CometPerm(*kind, *n, *fragment),
            Desig::CometProv(kind, s, fragment) => Desig::CometProv(*kind, s.clone(), *fragment),
            Desig::PlanetSat(planet, n) => Desig::PlanetSat(*planet, *n),
            Desig::Name(s) => Desig::Name(s.clone()),
            Desig::Naif(id) => Desig::Naif(*id),
            Desig::ObservatoryCode(s) => Desig::ObservatoryCode(s.clone()),
        }
    }
}

} // verus!
