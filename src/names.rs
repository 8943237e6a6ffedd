//! Fully qualified names of levels and properties, and the error kinds of
//! the query pipeline.
use vstd::prelude::*;

verus! {

/// What went wrong while resolving, binding or parsing a query.
#[derive(Debug, Clone, Copy, PartialEq, Eq, Structural)]
pub enum QueryError {
    /// A cube, dimension, hierarchy, level, measure or property is unknown.
    UnknownName,
    /// A member id matches more than one level of its dimension.
    AmbiguousMember,
    /// A time, top, growth, rca, rate or cut argument is malformed.
    MalformedArgument,
    /// A measure, a drilldown or cut, or a drilldown for a property is missing.
    MissingConstraint,
    /// A dimension lacks the foreign key that a join needs.
    MissingForeignKey,
    /// The geo-service could not be asked for neighbours.
    GeoserviceUnavailable,
    /// Two levels or properties of a cube got the same short name.
    NameCollision,
}

/// The identity of a level: dimension, hierarchy and level names.
#[derive(Debug, Clone, PartialEq, Eq)]
pub struct LevelName {
    pub dimension: String,
    pub hierarchy: String,
    pub level: String,
}

/// The abstract value of a [`LevelName`].
pub struct LevelNameView {
    pub dimension: Seq<char>,
    pub hierarchy: Seq<char>,
    pub level: Seq<char>,
}

impl View for LevelName {
    type V = LevelNameView;

    open spec fn view(&self) -> LevelNameView {
        LevelNameView { dimension: self.dimension@, hierarchy: self.hierarchy@, level: self.level@ }
    }
}

impl LevelName {
    pub fn new(dimension: String, hierarchy: String, level: String) -> (r: LevelName)
        ensures
            r.dimension@ == dimension@,
            r.hierarchy@ == hierarchy@,
            r.level@ == level@,
    {
        LevelName { dimension, hierarchy, level }
    }

    /// A copy with the same names.
    pub fn duplicate(&self) -> (r: LevelName)
        ensures
            r@ == self@,
    {
        LevelName {
            dimension: self.dimension.clone(),
            hierarchy: self.hierarchy.clone(),
            level: self.level.clone(),
        }
    }

    /// Whether both name the same level.
    pub fn same(&self, o: &LevelName) -> (r: bool)
        ensures
            r == (self@ == o@),
    {
        self.dimension == o.dimension && self.hierarchy == o.hierarchy && self.level == o.level
    }
}

/// The identity of a property: its level and its own name.
#[derive(Debug, Clone, PartialEq, Eq)]
pub struct PropertyName {
    pub level_name: LevelName,
    pub property: String,
}

impl PropertyName {
    pub fn new(dimension: String, hierarchy: String, level: String, property: String) -> (r:
        PropertyName)
        ensures
            r.level_name.dimension@ == dimension@,
            r.level_name.hierarchy@ == hierarchy@,
            r.level_name.level@ == level@,
            r.property@ == property@,
    {
        PropertyName { level_name: LevelName { dimension, hierarchy, level }, property }
    }

    /// A copy with the same names.
    pub fn duplicate(&self) -> (r: PropertyName)
        ensures
            r.level_name@ == self.level_name@,
            r.property@ == self.property@,
    {
        PropertyName { level_name: self.level_name.duplicate(), property: self.property.clone() }
    }
}

/// Whether `ln` occurs in `lns`.
pub open spec fn contains_level(lns: Seq<LevelName>, ln: LevelNameView) -> bool {
    exists|i: int| 0 <= i < lns.len() && (#[trigger] lns[i])@ == ln
}

/// Whether `ln` occurs in `lns`.
pub fn has_level(lns: &Vec<LevelName>, ln: &LevelName) -> (r: bool)
    ensures
        r == contains_level(lns@, ln@),
{
    let mut i: usize = 0;
    while i < lns.len()
        invariant
            i <= lns.len(),
            forall|j: int| 0 <= j < i ==> (#[trigger] lns@[j])@ != ln@,
        decreases lns.len() - i,
    {
        if lns[i].same(ln) {
            return true;
        }
        i = i + 1;
    }
    false
}

/// Copies a list of texts.
pub fn copy_texts(v: &Vec<String>) -> (r: Vec<String>)
    ensures
        r@ == v@,
{
    let mut r: Vec<String> = Vec::new();
    let mut i: usize = 0;
    while i < v.len()
        invariant
            i <= v.len(),
            r@.len() == i,
            forall|j: int| 0 <= j < i ==> r@[j] == v@[j],
        decreases v.len() - i,
    {
        let x: String = v[i].clone();
        assert(x == v@[i as int]);
        r.push(x);
        i = i + 1;
    }
    assert(r@ =~= v@);
    r
}

/// Copies a list of level names.
pub fn copy_level_names(v: &Vec<LevelName>) -> (r: Vec<LevelName>)
    ensures
        r@.len() == v@.len(),
        forall|i: int| 0 <= i < v@.len() ==> (#[trigger] r@[i])@ == v@[i]@,
{
    let mut r: Vec<LevelName> = Vec::new();
    let mut i: usize = 0;
    while i < v.len()
        invariant
            i <= v.len(),
            r@.len() == i,
            forall|j: int| 0 <= j < i ==> (#[trigger] r@[j])@ == v@[j]@,
        decreases v.len() - i,
    {
        r.push(v[i].duplicate());
        i = i + 1;
    }
    r
}

} // verus!
