//! The internal query: drilldowns, cuts and measures named against a cube,
//! with the post-aggregation options carried alongside.
use vstd::prelude::*;
use crate::names::{LevelName, PropertyName};

verus! {

/// A cut: the members of one level to keep.
#[derive(Debug, Clone, PartialEq, Eq)]
pub struct Cut {
    pub level_name: LevelName,
    pub members: Vec<String>,
}

#[derive(Debug, Clone, Copy, PartialEq, Eq, Structural)]
pub enum SortDirection {
    Asc,
    Desc,
}

/// Keep the first `n` rows per member of a level, ordered by a measure.
#[derive(Debug, Clone, PartialEq, Eq)]
pub struct TopQuery {
    pub n: u32,
    pub by_dimension: LevelName,
    pub measure: String,
    pub sort_direction: SortDirection,
}

/// Growth of a measure along a time level.
#[derive(Debug, Clone, PartialEq, Eq)]
pub struct GrowthQuery {
    pub time_drill: LevelName,
    pub measure: String,
}

/// Revealed comparative advantage of a measure over two levels.
#[derive(Debug, Clone, PartialEq, Eq)]
pub struct RcaQuery {
    pub drill_1: LevelName,
    pub drill_2: LevelName,
    pub measure: String,
}

/// The share of some members of a level.
#[derive(Debug, Clone, PartialEq, Eq)]
pub struct RateQuery {
    pub level_name: LevelName,
    pub values: Vec<String>,
}

/// Options applied after aggregation; each query of a request carries the
/// same.
#[derive(Debug, Clone, PartialEq, Eq)]
pub struct PostAggregation {
    pub top: Option<TopQuery>,
    pub top_where: Option<String>,
    pub sort: Option<String>,
    pub limit: Option<String>,
    pub growth: Option<GrowthQuery>,
    pub rca: Option<RcaQuery>,
    pub rate: Option<RateQuery>,
    pub debug: bool,
    pub sparse: bool,
    pub exclude_default_members: bool,
}

/// A query named against one cube.
#[derive(Debug, Clone, PartialEq, Eq)]
pub struct Query {
    pub drilldowns: Vec<LevelName>,
    pub cuts: Vec<Cut>,
    pub measures: Vec<String>,
    pub properties: Vec<PropertyName>,
    pub captions: Vec<PropertyName>,
    pub parents: bool,
    pub options: PostAggregation,
}

} // verus!
