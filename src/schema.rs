//! The cube catalog: cubes, dimensions, hierarchies, levels and measures,
//! with lookups by name.
use vstd::prelude::*;
use crate::names::{LevelName, LevelNameView, QueryError};
use crate::text::text_eq;

verus! {

/// How the values of a measure are combined.
#[derive(Debug, Clone, Copy, PartialEq, Eq, Structural)]
pub enum Aggregator {
    Sum,
    Avg,
    Min,
    Max,
    Count,
    CountDistinct,
}

/// What a dimension stands for.
#[derive(Debug, Clone, Copy, PartialEq, Eq, Structural)]
pub enum DimensionType {
    Generic,
    Geo,
    Time,
}

/// Whether member ids are written as quoted text or bare in SQL.
#[derive(Debug, Clone, Copy, PartialEq, Eq, Structural)]
pub enum MemberType {
    Text,
    NonText,
}

/// A physical table.
#[derive(Debug, Clone, PartialEq, Eq)]
pub struct Table {
    pub name: String,
    pub primary_key: Option<String>,
}

/// One cell of an inline table.
#[derive(Debug, Clone, PartialEq, Eq)]
pub struct RowValue {
    pub column: String,
    pub value: String,
}

/// One row of an inline table.
#[derive(Debug, Clone, PartialEq, Eq)]
pub struct InlineRow {
    pub row_values: Vec<RowValue>,
}

/// Rows given literally in the schema instead of a dimension table.
#[derive(Debug, Clone, PartialEq, Eq)]
pub struct InlineTable {
    pub alias: String,
    pub rows: Vec<InlineRow>,
}

/// A property of a level.
#[derive(Debug, Clone, PartialEq, Eq)]
pub struct Property {
    pub name: String,
    pub column: String,
    pub caption_set: Option<String>,
}

#[derive(Debug, Clone, PartialEq, Eq)]
pub struct Level {
    pub name: String,
    pub key_column: String,
    pub name_column: Option<String>,
    pub properties: Option<Vec<Property>>,
}

/// Levels ordered from the shallowest (parent) to the deepest (child).
#[derive(Debug, Clone, PartialEq, Eq)]
pub struct Hierarchy {
    pub name: String,
    pub table: Option<Table>,
    pub primary_key: String,
    pub levels: Vec<Level>,
    pub inline_table: Option<InlineTable>,
}

#[derive(Debug, Clone, PartialEq, Eq)]
pub struct Dimension {
    pub name: String,
    pub is_shared: bool,
    pub foreign_key: Option<String>,
    pub foreign_key_type: Option<MemberType>,
    pub dim_type: DimensionType,
    pub hierarchies: Vec<Hierarchy>,
}

#[derive(Debug, Clone, PartialEq, Eq)]
pub struct Measure {
    pub name: String,
    pub column: String,
    pub aggregator: Aggregator,
}

#[derive(Debug, Clone, PartialEq, Eq)]
pub struct Cube {
    pub name: String,
    pub table: Table,
    pub dimensions: Vec<Dimension>,
    pub measures: Vec<Measure>,
}

#[derive(Debug, Clone, PartialEq, Eq)]
pub struct Schema {
    pub cubes: Vec<Cube>,
}

/// The position of the first occurrence of `name` in `names`, or -1.
pub open spec fn first_index(names: Seq<Seq<char>>, name: Seq<char>) -> int
    decreases names.len(),
{
    if names.len() == 0 {
        -1
    } else if names[0] == name {
        0
    } else {
        let r = first_index(names.drop_first(), name);
        if r < 0 {
            -1
        } else {
            r + 1
        }
    }
}

/// A scan that stopped at `i` finds the first occurrence.
pub proof fn lemma_first_index(names: Seq<Seq<char>>, name: Seq<char>, i: int)
    requires
        0 <= i <= names.len(),
        forall|j: int| 0 <= j < i ==> names[j] != name,
        i < names.len() ==> names[i] == name,
    ensures
        first_index(names, name) == (if i < names.len() {
            i
        } else {
            -1
        }),
    decreases i,
{
    if names.len() > 0 && i > 0 {
        let rest = names.drop_first();
        assert forall|j: int| 0 <= j < i - 1 implies rest[j] != name by {
            assert(rest[j] == names[j + 1]);
        }
        lemma_first_index(rest, name, i - 1);
    }
}

/// What the first occurrence is, when there is one.
pub proof fn lemma_first_index_found(names: Seq<Seq<char>>, name: Seq<char>)
    ensures
        -1 <= first_index(names, name) < names.len(),
        first_index(names, name) >= 0 ==> names[first_index(names, name)] == name,
        first_index(names, name) < 0 ==> forall|j: int| 0 <= j < names.len() ==> names[j] != name,
    decreases names.len(),
{
    if names.len() > 0 {
        let rest = names.drop_first();
        lemma_first_index_found(rest, name);
        if names[0] != name && first_index(rest, name) < 0 {
            assert forall|j: int| 0 <= j < names.len() implies names[j] != name by {
                if j > 0 {
                    assert(names[j] == rest[j - 1]);
                }
            }
        }
    }
}

pub open spec fn opt_index(r: Option<usize>) -> int {
    match r {
        Some(i) => i as int,
        None => -1,
    }
}

pub open spec fn cube_names(cs: Seq<Cube>) -> Seq<Seq<char>> {
    cs.map_values(|c: Cube| c.name@)
}

pub open spec fn dimension_names(ds: Seq<Dimension>) -> Seq<Seq<char>> {
    ds.map_values(|d: Dimension| d.name@)
}

pub open spec fn hierarchy_names(hs: Seq<Hierarchy>) -> Seq<Seq<char>> {
    hs.map_values(|h: Hierarchy| h.name@)
}

pub open spec fn level_names(ls: Seq<Level>) -> Seq<Seq<char>> {
    ls.map_values(|l: Level| l.name@)
}

pub open spec fn measure_names(ms: Seq<Measure>) -> Seq<Seq<char>> {
    ms.map_values(|m: Measure| m.name@)
}

pub open spec fn property_names(ps: Seq<Property>) -> Seq<Seq<char>> {
    ps.map_values(|p: Property| p.name@)
}

/// Where a level stands in a cube: dimension, hierarchy and level positions,
/// each the first with its name.
pub open spec fn level_position(cube: Cube, ln: LevelNameView) -> Option<(int, int, int)> {
    let di = first_index(dimension_names(cube.dimensions@), ln.dimension);
    if di < 0 {
        None
    } else {
        let dim = cube.dimensions@[di];
        let hi = first_index(hierarchy_names(dim.hierarchies@), ln.hierarchy);
        if hi < 0 {
            None
        } else {
            let li = first_index(level_names(dim.hierarchies@[hi].levels@), ln.level);
            if li < 0 {
                None
            } else {
                Some((di, hi, li))
            }
        }
    }
}

pub open spec fn level_at(cube: Cube, p: (int, int, int)) -> Level {
    cube.dimensions@[p.0].hierarchies@[p.1].levels@[p.2]
}

pub open spec fn hierarchy_at(cube: Cube, p: (int, int, int)) -> Hierarchy {
    cube.dimensions@[p.0].hierarchies@[p.1]
}

pub proof fn lemma_level_position(cube: Cube, ln: LevelNameView)
    ensures
        level_position(cube, ln) matches Some(p) ==> {
            &&& 0 <= p.0 < cube.dimensions@.len()
            &&& 0 <= p.1 < cube.dimensions@[p.0].hierarchies@.len()
            &&& 0 <= p.2 < cube.dimensions@[p.0].hierarchies@[p.1].levels@.len()
            &&& cube.dimensions@[p.0].name@ == ln.dimension
            &&& cube.dimensions@[p.0].hierarchies@[p.1].name@ == ln.hierarchy
            &&& level_at(cube, p).name@ == ln.level
        },
{
    let dn = dimension_names(cube.dimensions@);
    lemma_first_index_found(dn, ln.dimension);
    let di = first_index(dn, ln.dimension);
    if di >= 0 {
        let dim = cube.dimensions@[di];
        let hn = hierarchy_names(dim.hierarchies@);
        lemma_first_index_found(hn, ln.hierarchy);
        let hi = first_index(hn, ln.hierarchy);
        if hi >= 0 {
            lemma_first_index_found(level_names(dim.hierarchies@[hi].levels@), ln.level);
        }
    }
}

/// The first cube with a given name.
pub fn find_cube(cubes: &Vec<Cube>, name: &str) -> (r: Option<usize>)
    ensures
        opt_index(r) == first_index(cube_names(cubes@), name@),
        r matches Some(i) ==> i < cubes@.len() && cube_names(cubes@)[i as int] == name@,
{
    let mut i: usize = 0;
    while i < cubes.len()
        invariant
            i <= cubes.len(),
            forall|j: int| 0 <= j < i ==> cube_names(cubes@)[j] != name@,
        decreases cubes.len() - i,
    {
        if text_eq(cubes[i].name.as_str(), name) {
            proof {
                lemma_first_index(cube_names(cubes@), name@, i as int);
            }
            return Some(i);
        }
        i = i + 1;
    }
    proof {
        lemma_first_index(cube_names(cubes@), name@, i as int);
    }
    None
}

/// The first dimension with a given name.
pub fn find_dimension(ds: &Vec<Dimension>, name: &str) -> (r: Option<usize>)
    ensures
        opt_index(r) == first_index(dimension_names(ds@), name@),
        r matches Some(i) ==> i < ds@.len() && dimension_names(ds@)[i as int] == name@,
{
    let mut i: usize = 0;
    while i < ds.len()
        invariant
            i <= ds.len(),
            forall|j: int| 0 <= j < i ==> dimension_names(ds@)[j] != name@,
        decreases ds.len() - i,
    {
        if text_eq(ds[i].name.as_str(), name) {
            proof {
                lemma_first_index(dimension_names(ds@), name@, i as int);
            }
            return Some(i);
        }
        i = i + 1;
    }
    proof {
        lemma_first_index(dimension_names(ds@), name@, i as int);
    }
    None
}

/// The first hierarchy with a given name.
pub fn find_hierarchy(hs: &Vec<Hierarchy>, name: &str) -> (r: Option<usize>)
    ensures
        opt_index(r) == first_index(hierarchy_names(hs@), name@),
        r matches Some(i) ==> i < hs@.len() && hierarchy_names(hs@)[i as int] == name@,
{
    let mut i: usize = 0;
    while i < hs.len()
        invariant
            i <= hs.len(),
            forall|j: int| 0 <= j < i ==> hierarchy_names(hs@)[j] != name@,
        decreases hs.len() - i,
    {
        if text_eq(hs[i].name.as_str(), name) {
            proof {
                lemma_first_index(hierarchy_names(hs@), name@, i as int);
            }
            return Some(i);
        }
        i = i + 1;
    }
    proof {
        lemma_first_index(hierarchy_names(hs@), name@, i as int);
    }
    None
}

/// The first level with a given name.
pub fn find_level(ls: &Vec<Level>, name: &str) -> (r: Option<usize>)
    ensures
        opt_index(r) == first_index(level_names(ls@), name@),
        r matches Some(i) ==> i < ls@.len() && level_names(ls@)[i as int] == name@,
{
    let mut i: usize = 0;
    while i < ls.len()
        invariant
            i <= ls.len(),
            forall|j: int| 0 <= j < i ==> level_names(ls@)[j] != name@,
        decreases ls.len() - i,
    {
        if text_eq(ls[i].name.as_str(), name) {
            proof {
                lemma_first_index(level_names(ls@), name@, i as int);
            }
            return Some(i);
        }
        i = i + 1;
    }
    proof {
        lemma_first_index(level_names(ls@), name@, i as int);
    }
    None
}

/// The first measure with a given name.
pub fn find_measure(ms: &Vec<Measure>, name: &str) -> (r: Option<usize>)
    ensures
        opt_index(r) == first_index(measure_names(ms@), name@),
        r matches Some(i) ==> i < ms@.len() && measure_names(ms@)[i as int] == name@,
{
    let mut i: usize = 0;
    while i < ms.len()
        invariant
            i <= ms.len(),
            forall|j: int| 0 <= j < i ==> measure_names(ms@)[j] != name@,
        decreases ms.len() - i,
    {
        if text_eq(ms[i].name.as_str(), name) {
            proof {
                lemma_first_index(measure_names(ms@), name@, i as int);
            }
            return Some(i);
        }
        i = i + 1;
    }
    proof {
        lemma_first_index(measure_names(ms@), name@, i as int);
    }
    None
}

/// The first property with a given name.
pub fn find_property(ps: &Vec<Property>, name: &str) -> (r: Option<usize>)
    ensures
        opt_index(r) == first_index(property_names(ps@), name@),
        r matches Some(i) ==> i < ps@.len() && property_names(ps@)[i as int] == name@,
{
    let mut i: usize = 0;
    while i < ps.len()
        invariant
            i <= ps.len(),
            forall|j: int| 0 <= j < i ==> property_names(ps@)[j] != name@,
        decreases ps.len() - i,
    {
        if text_eq(ps[i].name.as_str(), name) {
            proof {
                lemma_first_index(property_names(ps@), name@, i as int);
            }
            return Some(i);
        }
        i = i + 1;
    }
    proof {
        lemma_first_index(property_names(ps@), name@, i as int);
    }
    None
}

impl Schema {
    /// The first cube with the given name.
    pub fn cube_metadata(&self, cube_name: &str) -> (r: Option<&Cube>)
        ensures
            first_index(cube_names(self.cubes@), cube_name@) < 0 ==> r is None,
            first_index(cube_names(self.cubes@), cube_name@) >= 0 ==> r == Some(
                &self.cubes@[first_index(cube_names(self.cubes@), cube_name@)],
            ),
    {
        match find_cube(&self.cubes, cube_name) {
            Some(i) => Some(&self.cubes[i]),
            None => None,
        }
    }
}

impl Cube {
    /// Where a level stands: dimension, hierarchy and level positions.
    pub fn locate_level(&self, ln: &LevelName) -> (r: Option<(usize, usize, usize)>)
        ensures
            match r {
                Some(p) => level_position(*self, ln@) == Some((p.0 as int, p.1 as int, p.2 as int)),
                None => level_position(*self, ln@) is None,
            },
    {
        let di = match find_dimension(&self.dimensions, ln.dimension.as_str()) {
            Some(i) => i,
            None => return None,
        };
        let dim = &self.dimensions[di];
        let hi = match find_hierarchy(&dim.hierarchies, ln.hierarchy.as_str()) {
            Some(i) => i,
            None => return None,
        };
        let li = match find_level(&dim.hierarchies[hi].levels, ln.level.as_str()) {
            Some(i) => i,
            None => return None,
        };
        Some((di, hi, li))
    }

    /// The level that a name denotes.
    pub fn get_level(&self, ln: &LevelName) -> (r: Option<&Level>)
        ensures
            match level_position(*self, ln@) {
                Some(p) => r == Some(&level_at(*self, p)),
                None => r is None,
            },
    {
        proof {
            lemma_level_position(*self, ln@);
        }
        match self.locate_level(ln) {
            Some(p) => Some(&self.dimensions[p.0].hierarchies[p.1].levels[p.2]),
            None => None,
        }
    }

    /// The dimension that a level belongs to.
    pub fn get_dimension(&self, ln: &LevelName) -> (r: Option<&Dimension>)
        ensures
            match level_position(*self, ln@) {
                Some(p) => r == Some(&self.dimensions@[p.0]),
                None => r is None,
            },
    {
        proof {
            lemma_level_position(*self, ln@);
        }
        match self.locate_level(ln) {
            Some(p) => Some(&self.dimensions[p.0]),
            None => None,
        }
    }

    /// The next deeper level in the hierarchy, if any; an unknown level is an
    /// error.
    pub fn get_child_level(&self, ln: &LevelName) -> (r: Result<Option<&Level>, QueryError>)
        ensures
            match level_position(*self, ln@) {
                Some(p) => {
                    let h = hierarchy_at(*self, p);
                    if p.2 + 1 < h.levels@.len() {
                        r == Ok::<Option<&Level>, QueryError>(Some(&h.levels@[p.2 + 1]))
                    } else {
                        r == Ok::<Option<&Level>, QueryError>(None)
                    }
                },
                None => r == Err::<Option<&Level>, QueryError>(QueryError::UnknownName),
            },
    {
        proof {
            lemma_level_position(*self, ln@);
        }
        match self.locate_level(ln) {
            Some(p) => {
                let levels = &self.dimensions[p.0].hierarchies[p.1].levels;
                if levels.len() - p.2 > 1 {
                    Ok(Some(&levels[p.2 + 1]))
                } else {
                    Ok(None)
                }
            },
            None => Err(QueryError::UnknownName),
        }
    }

    /// The levels strictly above a level in its hierarchy, shallowest first;
    /// an unknown level is an error.
    pub fn get_level_parents(&self, ln: &LevelName) -> (r: Result<Vec<&Level>, QueryError>)
        ensures
            match level_position(*self, ln@) {
                Some(p) => r matches Ok(v) && v@.len() == p.2 && forall|i: int|
                    0 <= i < p.2 ==> v@[i] == &hierarchy_at(*self, p).levels@[i],
                None => r == Err::<Vec<&Level>, QueryError>(QueryError::UnknownName),
            },
    {
        proof {
            lemma_level_position(*self, ln@);
        }
        match self.locate_level(ln) {
            Some(p) => {
                let levels = &self.dimensions[p.0].hierarchies[p.1].levels;
                let mut v: Vec<&Level> = Vec::new();
                let mut i: usize = 0;
                while i < p.2
                    invariant
                        i <= p.2 < levels@.len(),
                        v@.len() == i,
                        forall|j: int| 0 <= j < i ==> v@[j] == &levels@[j],
                    decreases p.2 - i,
                {
                    v.push(&levels[i]);
                    i = i + 1;
                }
                Ok(v)
            },
            None => Err(QueryError::UnknownName),
        }
    }
}

} // verus!
