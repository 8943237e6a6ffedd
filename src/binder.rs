//! Binds a query's names to the physical columns of a cube, and names the
//! output columns.
use vstd::prelude::*;
use crate::names::{LevelName, LevelNameView, PropertyName, QueryError, has_level, contains_level, copy_texts};
use crate::query::{Cut, Query};
use crate::schema::{
    Cube, Dimension, Hierarchy, Level, Measure, MemberType, Property, Schema, Table, first_index,
    find_measure, find_property, hierarchy_at, level_at, level_position, lemma_level_position,
    measure_names, property_names,
};
use crate::sql::{
    CutSql, DrilldownSql, LevelColumn, MeasureSql, TableSql, drill_columns, level_columns_names,
    primary_agg, primary_agg_text,
};
use crate::result::{replace_all, replace_seq};

verus! {

/// The back-end dialect a query is written for. Both share the generated
/// text except for the join keyword, which MySQL spells `inner join`.
#[derive(Debug, Clone, Copy, PartialEq, Eq, Structural)]
pub enum Database {
    Clickhouse,
    MySql,
}

pub open spec fn table_sql_of(t: Table) -> TableSql {
    TableSql { name: t.name, primary_key: t.primary_key }
}

/// The table holding a hierarchy's levels: its own, or the fact table.
pub open spec fn bound_table(cube: Cube, h: Hierarchy) -> TableSql {
    match h.table {
        Some(t) => table_sql_of(t),
        None => table_sql_of(cube.table),
    }
}

pub open spec fn member_type_of(d: Dimension) -> MemberType {
    match d.foreign_key_type {
        Some(t) => t,
        None => MemberType::NonText,
    }
}

// ---------------------------------------------------------------------------
// Cuts
// ---------------------------------------------------------------------------

/// Why a cut cannot be bound, if it cannot.
pub open spec fn cut_error(cube: Cube, c: Cut) -> Option<QueryError> {
    match level_position(cube, c.level_name@) {
        None => Some(QueryError::UnknownName),
        Some(p) => if cube.dimensions@[p.0].foreign_key is None {
            Some(QueryError::MissingForeignKey)
        } else {
            None
        },
    }
}

/// `out` is the binding of cut `c`.
pub open spec fn cut_bound(cube: Cube, c: Cut, out: CutSql) -> bool {
    let p = level_position(cube, c.level_name@)->Some_0;
    let d = cube.dimensions@[p.0];
    let h = hierarchy_at(cube, p);
    &&& out.table == bound_table(cube, h)
    &&& out.primary_key == h.primary_key
    &&& d.foreign_key == Some(out.foreign_key)
    &&& out.column == level_at(cube, p).key_column
    &&& out.members@ == c.members@
    &&& out.member_type == member_type_of(d)
}

/// The error of the first cut that cannot be bound.
pub open spec fn cuts_error(cube: Cube, cs: Seq<Cut>) -> Option<QueryError>
    decreases cs.len(),
{
    if cs.len() == 0 {
        None
    } else {
        match cuts_error(cube, cs.drop_last()) {
            Some(e) => Some(e),
            None => cut_error(cube, cs.last()),
        }
    }
}

// ---------------------------------------------------------------------------
// Drilldowns
// ---------------------------------------------------------------------------

pub open spec fn level_column_of(l: Level) -> LevelColumn {
    LevelColumn { key_column: l.key_column, name_column: l.name_column }
}

/// The levels a drilldown projects: every level from the top down to the
/// drilled one with `parents`, else the drilled one alone.
pub open spec fn drill_levels(h: Hierarchy, li: int, parents: bool) -> Seq<Level> {
    if parents {
        h.levels@.subrange(0, li + 1)
    } else {
        seq![h.levels@[li]]
    }
}

/// The requested properties that belong to level `ln`, in request order.
pub open spec fn drill_props(ln: LevelNameView, props: Seq<PropertyName>) -> Seq<PropertyName>
    decreases props.len(),
{
    if props.len() == 0 {
        Seq::empty()
    } else if props.last().level_name@ == ln {
        drill_props(ln, props.drop_last()).push(props.last())
    } else {
        drill_props(ln, props.drop_last())
    }
}

pub open spec fn level_props(l: Level) -> Seq<Property> {
    match l.properties {
        Some(ps) => ps@,
        None => Seq::empty(),
    }
}

/// The position of a property in its level, or -1.
pub open spec fn prop_index(l: Level, name: Seq<char>) -> int {
    first_index(property_names(level_props(l)), name)
}

pub open spec fn prop_of(l: Level, name: Seq<char>) -> Property {
    level_props(l)[prop_index(l, name)]
}

/// Whether some requested property of level `ln` is not in `l`.
pub open spec fn props_missing(l: Level, ln: LevelNameView, props: Seq<PropertyName>) -> bool
    decreases props.len(),
{
    if props.len() == 0 {
        false
    } else {
        props_missing(l, ln, props.drop_last()) || (props.last().level_name@ == ln && prop_index(
            l,
            props.last().property@,
        ) < 0)
    }
}

/// Why a drilldown cannot be bound, if it cannot.
pub open spec fn drill_error(cube: Cube, ln: LevelNameView, props: Seq<PropertyName>) -> Option<
    QueryError,
> {
    match level_position(cube, ln) {
        None => Some(QueryError::UnknownName),
        Some(p) => if cube.dimensions@[p.0].foreign_key is None {
            Some(QueryError::MissingForeignKey)
        } else if props_missing(level_at(cube, p), ln, props) {
            Some(QueryError::UnknownName)
        } else {
            None
        },
    }
}

/// `out` is the binding of a drilldown on `ln`.
pub open spec fn drill_bound(
    cube: Cube,
    ln: LevelNameView,
    props: Seq<PropertyName>,
    parents: bool,
    out: DrilldownSql,
) -> bool {
    let p = level_position(cube, ln)->Some_0;
    let d = cube.dimensions@[p.0];
    let h = hierarchy_at(cube, p);
    let l = level_at(cube, p);
    &&& out.table == bound_table(cube, h)
    &&& out.primary_key == h.primary_key
    &&& d.foreign_key == Some(out.foreign_key)
    &&& out.level_columns@ == drill_levels(h, p.2, parents).map_values(|v: Level| level_column_of(v))
    &&& out.property_columns@ == drill_props(ln, props).map_values(
        |q: PropertyName| prop_of(l, q.property@).column,
    )
}

pub open spec fn drills_error(cube: Cube, ds: Seq<LevelName>, props: Seq<PropertyName>) -> Option<
    QueryError,
>
    decreases ds.len(),
{
    if ds.len() == 0 {
        None
    } else {
        match drills_error(cube, ds.drop_last(), props) {
            Some(e) => Some(e),
            None => drill_error(cube, ds.last()@, props),
        }
    }
}

/// The headers of the levels a drilldown projects: `"<level> ID"` before
/// `"<level>"` where the level has a name column.
pub open spec fn level_headers(ls: Seq<Level>) -> Seq<Seq<char>>
    decreases ls.len(),
{
    if ls.len() == 0 {
        Seq::empty()
    } else {
        let l = ls.last();
        level_headers(ls.drop_last()) + if l.name_column is Some {
            seq![l.name@ + " ID"@, l.name@]
        } else {
            seq![l.name@]
        }
    }
}

/// The headers of a drilldown: its levels, then its properties.
pub open spec fn drill_headers(cube: Cube, ln: LevelNameView, props: Seq<PropertyName>, parents: bool) -> Seq<
    Seq<char>,
> {
    let p = level_position(cube, ln)->Some_0;
    let l = level_at(cube, p);
    level_headers(drill_levels(hierarchy_at(cube, p), p.2, parents)) + drill_props(ln, props).map_values(
        |q: PropertyName| prop_of(l, q.property@).name@,
    )
}

pub open spec fn drills_headers(
    cube: Cube,
    ds: Seq<LevelName>,
    props: Seq<PropertyName>,
    parents: bool,
) -> Seq<Seq<char>>
    decreases ds.len(),
{
    if ds.len() == 0 {
        Seq::empty()
    } else {
        drills_headers(cube, ds.drop_last(), props, parents) + drill_headers(
            cube,
            ds.last()@,
            props,
            parents,
        )
    }
}

// ---------------------------------------------------------------------------
// Measures
// ---------------------------------------------------------------------------

pub open spec fn measure_of(cube: Cube, name: Seq<char>) -> Measure {
    cube.measures@[first_index(measure_names(cube.measures@), name)]
}

pub open spec fn measures_known(cube: Cube, ms: Seq<String>) -> bool {
    forall|i: int| 0 <= i < ms.len() ==> first_index(measure_names(cube.measures@), #[trigger] ms[i]@) >= 0
}

pub open spec fn measure_sql_of(m: Measure) -> MeasureSql {
    MeasureSql { column: m.column, aggregator: m.aggregator }
}

// ---------------------------------------------------------------------------
// Copies
// ---------------------------------------------------------------------------

fn copy_opt_text(o: &Option<String>) -> (r: Option<String>)
    ensures
        r == *o,
{
    match o {
        Some(s) => Some(s.clone()),
        None => None,
    }
}

fn table_sql(t: &Table) -> (r: TableSql)
    ensures
        r == table_sql_of(*t),
{
    TableSql { name: t.name.clone(), primary_key: copy_opt_text(&t.primary_key) }
}

impl Cube {
    /// The table a hierarchy's levels are read from.
    fn hierarchy_table(&self, h: &Hierarchy) -> (r: TableSql)
        ensures
            r == bound_table(*self, *h),
    {
        match &h.table {
            Some(t) => table_sql(t),
            None => table_sql(&self.table),
        }
    }

    /// The fact table.
    pub fn cube_table(&self) -> (r: TableSql)
        ensures
            r == table_sql_of(self.table),
    {
        table_sql(&self.table)
    }

    /// Binds one cut.
    pub fn bind_cut(&self, c: &Cut) -> (r: Result<CutSql, QueryError>)
        ensures
            match cut_error(*self, *c) {
                Some(e) => r == Err::<CutSql, QueryError>(e),
                None => r matches Ok(out) && cut_bound(*self, *c, out),
            },
    {
        proof {
            lemma_level_position(*self, c.level_name@);
        }
        let p = match self.locate_level(&c.level_name) {
            Some(p) => p,
            None => return Err(QueryError::UnknownName),
        };
        let dim = &self.dimensions[p.0];
        let hier = &dim.hierarchies[p.1];
        let level = &hier.levels[p.2];
        let foreign_key = match &dim.foreign_key {
            Some(f) => f.clone(),
            None => return Err(QueryError::MissingForeignKey),
        };
        let member_type = match dim.foreign_key_type {
            Some(t) => t,
            None => MemberType::NonText,
        };
        Ok(
            CutSql {
                table: self.hierarchy_table(hier),
                primary_key: hier.primary_key.clone(),
                foreign_key,
                column: level.key_column.clone(),
                members: copy_texts(&c.members),
                member_type,
            },
        )
    }

    /// Binds every cut, in order; the first that cannot be bound decides
    /// the error.
    pub fn cube_cut_cols(&self, cuts: &Vec<Cut>) -> (r: Result<Vec<CutSql>, QueryError>)
        ensures
            match cuts_error(*self, cuts@) {
                Some(e) => r == Err::<Vec<CutSql>, QueryError>(e),
                None => r matches Ok(v) && v@.len() == cuts@.len() && forall|k: int|
                    0 <= k < cuts@.len() ==> cut_bound(*self, cuts@[k], #[trigger] v@[k]),
            },
    {
        let mut res: Vec<CutSql> = Vec::new();
        let mut i: usize = 0;
        while i < cuts.len()
            invariant
                i <= cuts.len(),
                cuts_error(*self, cuts@.subrange(0, i as int)) is None,
                res@.len() == i,
                forall|k: int| 0 <= k < i ==> cut_bound(*self, cuts@[k], #[trigger] res@[k]),
            decreases cuts.len() - i,
        {
            proof {
                let s = cuts@.subrange(0, i as int + 1);
                assert(s.drop_last() =~= cuts@.subrange(0, i as int));
            }
            match self.bind_cut(&cuts[i]) {
                Ok(c) => res.push(c),
                Err(e) => {
                    proof {
                        lemma_cuts_error_prefix(*self, cuts@, i as int + 1);
                    }
                    return Err(e);
                },
            }
            i = i + 1;
        }
        assert(cuts@.subrange(0, i as int) =~= cuts@);
        Ok(res)
    }

    /// The level columns a drilldown projects.
    fn drill_level_columns(&self, p: (usize, usize, usize), parents: bool) -> (r: Vec<LevelColumn>)
        requires
            p.0 < self.dimensions@.len(),
            p.1 < self.dimensions@[p.0 as int].hierarchies@.len(),
            p.2 < self.dimensions@[p.0 as int].hierarchies@[p.1 as int].levels@.len(),
        ensures
            r@ == drill_levels(
                hierarchy_at(*self, (p.0 as int, p.1 as int, p.2 as int)),
                p.2 as int,
                parents,
            ).map_values(|v: Level| level_column_of(v)),
    {
        let levels = &self.dimensions[p.0].hierarchies[p.1].levels;
        let ghost want = drill_levels(
            hierarchy_at(*self, (p.0 as int, p.1 as int, p.2 as int)),
            p.2 as int,
            parents,
        ).map_values(|v: Level| level_column_of(v));
        let mut r: Vec<LevelColumn> = Vec::new();
        let start: usize = if parents {
            0
        } else {
            p.2
        };
        let mut i: usize = start;
        let n = levels.len();
        while i <= p.2
            invariant
                start <= i <= p.2 + 1,
                p.2 < levels@.len(),
                n == levels@.len(),
                start == (if parents {
                    0
                } else {
                    p.2
                }),
                want == drill_levels(
                    hierarchy_at(*self, (p.0 as int, p.1 as int, p.2 as int)),
                    p.2 as int,
                    parents,
                ).map_values(|v: Level| level_column_of(v)),
                *levels == self.dimensions@[p.0 as int].hierarchies@[p.1 as int].levels,
                r@ =~= want.subrange(0, i - start),
            decreases p.2 + 1 - i,
        {
            let l = &levels[i];
            r.push(
                LevelColumn { key_column: l.key_column.clone(), name_column: copy_opt_text(&l.name_column) },
            );
            i = i + 1;
        }
        assert(want.len() == p.2 + 1 - start);
        r
    }

    /// The property columns of a drilldown, or `None` if one is unknown.
    fn drill_property_columns(&self, l: &Level, ln: &LevelName, props: &Vec<PropertyName>) -> (r: Option<
        Vec<String>,
    >)
        ensures
            props_missing(*l, ln@, props@) <==> r is None,
            r matches Some(v) ==> v@ == drill_props(ln@, props@).map_values(
                |q: PropertyName| prop_of(*l, q.property@).column,
            ),
    {
        let mut r: Vec<String> = Vec::new();
        let mut i: usize = 0;
        while i < props.len()
            invariant
                i <= props.len(),
                !props_missing(*l, ln@, props@.subrange(0, i as int)),
                r@ =~= drill_props(ln@, props@.subrange(0, i as int)).map_values(
                    |q: PropertyName| prop_of(*l, q.property@).column,
                ),
            decreases props.len() - i,
        {
            let q = &props[i];
            proof {
                let s = props@.subrange(0, i as int + 1);
                assert(s.drop_last() =~= props@.subrange(0, i as int));
            }
            if q.level_name.same(ln) {
                let found = match &l.properties {
                    Some(ps) => match find_property(ps, q.property.as_str()) {
                        Some(k) => Some(ps[k].column.clone()),
                        None => None,
                    },
                    None => None,
                };
                match found {
                    Some(c) => {
                        r.push(c);
                    },
                    None => {
                        proof {
                            lemma_props_missing_prefix(*l, ln@, props@, i as int + 1);
                        }
                        return None;
                    },
                }
            }
            i = i + 1;
        }
        assert(props@.subrange(0, i as int) =~= props@);
        Some(r)
    }

    /// Binds one drilldown.
    pub fn bind_drill(&self, ln: &LevelName, props: &Vec<PropertyName>, parents: bool) -> (r: Result<
        DrilldownSql,
        QueryError,
    >)
        ensures
            match drill_error(*self, ln@, props@) {
                Some(e) => r == Err::<DrilldownSql, QueryError>(e),
                None => r matches Ok(out) && drill_bound(*self, ln@, props@, parents, out),
            },
    {
        proof {
            lemma_level_position(*self, ln@);
        }
        let p = match self.locate_level(ln) {
            Some(p) => p,
            None => return Err(QueryError::UnknownName),
        };
        let dim = &self.dimensions[p.0];
        let hier = &dim.hierarchies[p.1];
        let foreign_key = match &dim.foreign_key {
            Some(f) => f.clone(),
            None => return Err(QueryError::MissingForeignKey),
        };
        let property_columns = match self.drill_property_columns(&hier.levels[p.2], ln, props) {
            Some(v) => v,
            None => return Err(QueryError::UnknownName),
        };
        Ok(
            DrilldownSql {
                table: self.hierarchy_table(hier),
                primary_key: hier.primary_key.clone(),
                foreign_key,
                level_columns: self.drill_level_columns(p, parents),
                property_columns,
            },
        )
    }

    /// Binds every drilldown, in order.
    pub fn cube_drill_cols(&self, drills: &Vec<LevelName>, props: &Vec<PropertyName>, parents: bool) -> (r:
        Result<Vec<DrilldownSql>, QueryError>)
        ensures
            match drills_error(*self, drills@, props@) {
                Some(e) => r == Err::<Vec<DrilldownSql>, QueryError>(e),
                None => r matches Ok(v) && v@.len() == drills@.len() && forall|k: int|
                    0 <= k < drills@.len() ==> drill_bound(
                        *self,
                        drills@[k]@,
                        props@,
                        parents,
                        #[trigger] v@[k],
                    ),
            },
    {
        let mut res: Vec<DrilldownSql> = Vec::new();
        let mut i: usize = 0;
        while i < drills.len()
            invariant
                i <= drills.len(),
                drills_error(*self, drills@.subrange(0, i as int), props@) is None,
                res@.len() == i,
                forall|k: int|
                    0 <= k < i ==> drill_bound(*self, drills@[k]@, props@, parents, #[trigger] res@[k]),
            decreases drills.len() - i,
        {
            proof {
                let s = drills@.subrange(0, i as int + 1);
                assert(s.drop_last() =~= drills@.subrange(0, i as int));
            }
            match self.bind_drill(&drills[i], props, parents) {
                Ok(d) => res.push(d),
                Err(e) => {
                    proof {
                        lemma_drills_error_prefix(*self, drills@, props@, i as int + 1);
                    }
                    return Err(e);
                },
            }
            i = i + 1;
        }
        assert(drills@.subrange(0, i as int) =~= drills@);
        Ok(res)
    }

    /// Binds every measure, in order.
    pub fn cube_mea_cols(&self, meas: &Vec<String>) -> (r: Result<Vec<MeasureSql>, QueryError>)
        ensures
            measures_known(*self, meas@) <==> r is Ok,
            r matches Err(e) ==> e == QueryError::UnknownName,
            r matches Ok(v) ==> v@.len() == meas@.len() && forall|k: int|
                0 <= k < meas@.len() ==> #[trigger] v@[k] == measure_sql_of(measure_of(*self, meas@[k]@)),
    {
        let mut res: Vec<MeasureSql> = Vec::new();
        let mut i: usize = 0;
        while i < meas.len()
            invariant
                i <= meas.len(),
                res@.len() == i,
                forall|k: int| 0 <= k < i ==> first_index(measure_names(self.measures@), #[trigger] meas@[k]@) >= 0,
                forall|k: int|
                    0 <= k < i ==> #[trigger] res@[k] == measure_sql_of(measure_of(*self, meas@[k]@)),
            decreases meas.len() - i,
        {
            match find_measure(&self.measures, meas[i].as_str()) {
                Some(k) => {
                    let m = &self.measures[k];
                    res.push(MeasureSql { column: m.column.clone(), aggregator: m.aggregator });
                },
                None => {
                    return Err(QueryError::UnknownName);
                },
            }
            i = i + 1;
        }
        Ok(res)
    }

    /// The headers of one drilldown.
    fn drill_header_list(&self, ln: &LevelName, props: &Vec<PropertyName>, parents: bool) -> (r: Vec<String>)
        requires
            drill_error(*self, ln@, props@) is None,
        ensures
            r.deep_view() == drill_headers(*self, ln@, props@, parents),
    {
        proof {
            lemma_level_position(*self, ln@);
        }
        let p = self.locate_level(ln).unwrap();
        let ghost gp = (p.0 as int, p.1 as int, p.2 as int);
        let levels = &self.dimensions[p.0].hierarchies[p.1].levels;
        let ghost dl = drill_levels(hierarchy_at(*self, gp), p.2 as int, parents);
        let start: usize = if parents {
            0
        } else {
            p.2
        };
        let mut r: Vec<String> = Vec::new();
        let mut i: usize = start;
        assert(dl.subrange(0, 0) =~= Seq::<Level>::empty());
        let n = levels.len();
        while i <= p.2
            invariant
                start <= i <= p.2 + 1,
                p.2 < levels@.len(),
                n == levels@.len(),
                start == (if parents {
                    0
                } else {
                    p.2
                }),
                *levels == hierarchy_at(*self, gp).levels,
                gp == (p.0 as int, p.1 as int, p.2 as int),
                dl == drill_levels(hierarchy_at(*self, gp), p.2 as int, parents),
                r.deep_view() =~= level_headers(dl.subrange(0, i - start)),
            decreases p.2 + 1 - i,
        {
            let l = &levels[i];
            let ghost before = r.deep_view();
            proof {
                let s = dl.subrange(0, i - start + 1);
                assert(s.drop_last() =~= dl.subrange(0, i - start));
                assert(s.last() == *l);
            }
            if l.name_column.is_some() {
                let mut h = l.name.clone();
                h.append(" ID");
                r.push(h);
            }
            r.push(l.name.clone());
            assert(r.deep_view() =~= level_headers(dl.subrange(0, i - start + 1)));
            i = i + 1;
        }
        assert(dl.subrange(0, i - start) =~= dl);
        let level = &levels[p.2];
        let ghost head = r.deep_view();
        let ghost want = drill_props(ln@, props@).map_values(|q: PropertyName| prop_of(*level, q.property@).name@);
        let mut j: usize = 0;
        while j < props.len()
            invariant
                j <= props.len(),
                !props_missing(*level, ln@, props@),
                want == drill_props(ln@, props@).map_values(|q: PropertyName| prop_of(*level, q.property@).name@),
                r.deep_view() =~= head + drill_props(ln@, props@.subrange(0, j as int)).map_values(
                    |q: PropertyName| prop_of(*level, q.property@).name@,
                ),
            decreases props.len() - j,
        {
            let q = &props[j];
            proof {
                let s = props@.subrange(0, j as int + 1);
                assert(s.drop_last() =~= props@.subrange(0, j as int));
                lemma_props_missing_prefix_none(*level, ln@, props@, j as int + 1);
            }
            if q.level_name.same(ln) {
                let ps = l_props(level);
                let k = find_property(ps, q.property.as_str()).unwrap();
                let ghost before = r.deep_view();
                let x = ps[k].name.clone();
                r.push(x);
                assert(r.deep_view() =~= before.push(x@));
            }
            j = j + 1;
        }
        assert(props@.subrange(0, j as int) =~= props@);
        r
    }

    /// The headers of every drilldown, in order: level headers, then
    /// property names, for each; the first drilldown that cannot be bound
    /// decides the error.
    pub fn cube_drill_headers(&self, drills: &Vec<LevelName>, props: &Vec<PropertyName>, parents: bool) -> (r:
        Result<Vec<String>, QueryError>)
        ensures
            match drills_error(*self, drills@, props@) {
                Some(e) => r == Err::<Vec<String>, QueryError>(e),
                None => r matches Ok(v) && v.deep_view() == drills_headers(*self, drills@, props@, parents),
            },
    {
        let mut r: Vec<String> = Vec::new();
        let mut i: usize = 0;
        while i < drills.len()
            invariant
                i <= drills.len(),
                drills_error(*self, drills@.subrange(0, i as int), props@) is None,
                r.deep_view() =~= drills_headers(*self, drills@.subrange(0, i as int), props@, parents),
            decreases drills.len() - i,
        {
            proof {
                let s = drills@.subrange(0, i as int + 1);
                assert(s.drop_last() =~= drills@.subrange(0, i as int));
            }
            match self.bind_drill(&drills[i], props, parents) {
                Err(e) => {
                    proof {
                        lemma_drills_error_prefix(*self, drills@, props@, i as int + 1);
                    }
                    return Err(e);
                },
                Ok(_) => {},
            }
            let h = self.drill_header_list(&drills[i], props, parents);
            let ghost before = r.deep_view();
            let mut k: usize = 0;
            while k < h.len()
                invariant
                    k <= h.len(),
                    r.deep_view() =~= before + h.deep_view().subrange(0, k as int),
                decreases h.len() - k,
            {
                let x = h[k].clone();
                let ghost b = r.deep_view();
                r.push(x);
                assert(r.deep_view() =~= b.push(x@));
                k = k + 1;
            }
            assert(h.deep_view().subrange(0, k as int) =~= h.deep_view());
            i = i + 1;
        }
        assert(drills@.subrange(0, i as int) =~= drills@);
        Ok(r)
    }

    /// The headers of the measures: their names.
    pub fn cube_mea_headers(&self, meas: &Vec<String>) -> (r: Result<Vec<String>, QueryError>)
        ensures
            measures_known(*self, meas@) <==> r is Ok,
            r matches Err(e) ==> e == QueryError::UnknownName,
            r matches Ok(v) ==> v@ == meas@,
    {
        let mut i: usize = 0;
        while i < meas.len()
            invariant
                i <= meas.len(),
                forall|k: int| 0 <= k < i ==> first_index(measure_names(self.measures@), #[trigger] meas@[k]@) >= 0,
            decreases meas.len() - i,
        {
            if find_measure(&self.measures, meas[i].as_str()).is_none() {
                return Err(QueryError::UnknownName);
            }
            i = i + 1;
        }
        Ok(copy_texts(meas))
    }
}

fn l_props(l: &Level) -> (r: &Vec<Property>)
    requires
        l.properties is Some,
    ensures
        r@ == level_props(*l),
{
    match &l.properties {
        Some(ps) => ps,
        None => unreached(),
    }
}

proof fn lemma_cuts_error_prefix(cube: Cube, cs: Seq<Cut>, i: int)
    requires
        0 <= i <= cs.len(),
        cuts_error(cube, cs.subrange(0, i)) is Some,
    ensures
        cuts_error(cube, cs) == cuts_error(cube, cs.subrange(0, i)),
    decreases cs.len() - i,
{
    if i < cs.len() {
        let s = cs.subrange(0, i + 1);
        assert(s.drop_last() =~= cs.subrange(0, i));
        lemma_cuts_error_prefix(cube, cs, i + 1);
    } else {
        assert(cs.subrange(0, i) =~= cs);
    }
}

proof fn lemma_drills_error_prefix(cube: Cube, ds: Seq<LevelName>, props: Seq<PropertyName>, i: int)
    requires
        0 <= i <= ds.len(),
        drills_error(cube, ds.subrange(0, i), props) is Some,
    ensures
        drills_error(cube, ds, props) == drills_error(cube, ds.subrange(0, i), props),
    decreases ds.len() - i,
{
    if i < ds.len() {
        let s = ds.subrange(0, i + 1);
        assert(s.drop_last() =~= ds.subrange(0, i));
        lemma_drills_error_prefix(cube, ds, props, i + 1);
    } else {
        assert(ds.subrange(0, i) =~= ds);
    }
}

proof fn lemma_drills_error_none_prefix(cube: Cube, ds: Seq<LevelName>, props: Seq<PropertyName>, i: int)
    requires
        0 <= i <= ds.len(),
        drills_error(cube, ds, props) is None,
    ensures
        drills_error(cube, ds.subrange(0, i), props) is None,
        i > 0 ==> drill_error(cube, ds[i - 1]@, props) is None,
    decreases ds.len() - i,
{
    if i < ds.len() {
        lemma_drills_error_none_prefix(cube, ds, props, i + 1);
        let s = ds.subrange(0, i + 1);
        assert(s.drop_last() =~= ds.subrange(0, i));
    } else {
        assert(ds.subrange(0, i) =~= ds);
    }
}

proof fn lemma_props_missing_prefix(l: Level, ln: LevelNameView, props: Seq<PropertyName>, i: int)
    requires
        0 <= i <= props.len(),
        props_missing(l, ln, props.subrange(0, i)),
    ensures
        props_missing(l, ln, props),
    decreases props.len() - i,
{
    if i < props.len() {
        let s = props.subrange(0, i + 1);
        assert(s.drop_last() =~= props.subrange(0, i));
        lemma_props_missing_prefix(l, ln, props, i + 1);
    } else {
        assert(props.subrange(0, i) =~= props);
    }
}

proof fn lemma_props_missing_prefix_none(l: Level, ln: LevelNameView, props: Seq<PropertyName>, i: int)
    requires
        0 < i <= props.len(),
        !props_missing(l, ln, props),
    ensures
        !props_missing(l, ln, props.subrange(0, i)),
        props[i - 1].level_name@ == ln ==> prop_index(l, props[i - 1].property@) >= 0,
{
    if props_missing(l, ln, props.subrange(0, i)) {
        lemma_props_missing_prefix(l, ln, props, i);
    }
    let s = props.subrange(0, i);
    assert(s.last() == props[i - 1]);
}

// ---------------------------------------------------------------------------
// The whole query
// ---------------------------------------------------------------------------

pub open spec fn cuts_bound(cube: Cube, cuts: Seq<Cut>, out: Seq<CutSql>) -> bool {
    out.len() == cuts.len() && forall|k: int| 0 <= k < cuts.len() ==> cut_bound(cube, cuts[k], #[trigger] out[k])
}

pub open spec fn drills_bound(
    cube: Cube,
    drills: Seq<LevelName>,
    props: Seq<PropertyName>,
    parents: bool,
    out: Seq<DrilldownSql>,
) -> bool {
    out.len() == drills.len() && forall|k: int|
        0 <= k < drills.len() ==> drill_bound(cube, drills[k]@, props, parents, #[trigger] out[k])
}

pub open spec fn measures_sql(cube: Cube, ms: Seq<String>) -> Seq<MeasureSql> {
    Seq::new(ms.len(), |k: int| measure_sql_of(measure_of(cube, ms[k]@)))
}

/// Whether every requested property has a drilldown on its level.
pub open spec fn props_drilled(q: Query) -> bool {
    forall|k: int|
        0 <= k < q.properties@.len() ==> contains_level(q.drilldowns@, (#[trigger] q.properties@[k]).level_name@)
}

pub open spec fn cube_of(schema: Schema, cube_name: Seq<char>) -> Cube {
    schema.cubes@[first_index(crate::schema::cube_names(schema.cubes@), cube_name)]
}

/// Why a query cannot be turned into SQL, if it cannot: checks in order.
pub open spec fn query_error(schema: Schema, cube_name: Seq<char>, q: Query) -> Option<QueryError> {
    if q.measures@.len() == 0 {
        Some(QueryError::MissingConstraint)
    } else if q.drilldowns@.len() == 0 && q.cuts@.len() == 0 {
        Some(QueryError::MissingConstraint)
    } else if !props_drilled(q) {
        Some(QueryError::MissingConstraint)
    } else if first_index(crate::schema::cube_names(schema.cubes@), cube_name) < 0 {
        Some(QueryError::UnknownName)
    } else {
        let cube = cube_of(schema, cube_name);
        match cuts_error(cube, q.cuts@) {
            Some(e) => Some(e),
            None => match drills_error(cube, q.drilldowns@, q.properties@) {
                Some(e) => Some(e),
                None => if !measures_known(cube, q.measures@) {
                    Some(QueryError::UnknownName)
                } else {
                    None
                },
            },
        }
    }
}

fn check_props_drilled(q: &Query) -> (r: bool)
    ensures
        r == props_drilled(*q),
{
    let mut k: usize = 0;
    while k < q.properties.len()
        invariant
            k <= q.properties.len(),
            forall|j: int|
                0 <= j < k ==> contains_level(q.drilldowns@, (#[trigger] q.properties@[j]).level_name@),
        decreases q.properties.len() - k,
    {
        if !has_level(&q.drilldowns, &q.properties[k].level_name) {
            return false;
        }
        k = k + 1;
    }
    true
}

/// The generated text in a back-end's dialect.
pub open spec fn dialect_text(db: Database, sql: Seq<char>) -> Seq<char> {
    match db {
        Database::Clickhouse => sql,
        Database::MySql => replace_seq(sql, " all inner join "@, " inner join "@),
    }
}

/// Rewrites generated SQL into a back-end's dialect.
pub fn dialect_sql(db: Database, sql: String) -> (r: String)
    ensures
        r@ == dialect_text(db, sql@),
{
    match db {
        Database::Clickhouse => sql,
        Database::MySql => replace_all(sql.as_str(), " all inner join ", " inner join "),
    }
}

impl Schema {
    /// The fact table of the first cube with the given name.
    pub fn cube_table(&self, cube_name: &str) -> (r: Option<TableSql>)
        ensures
            first_index(crate::schema::cube_names(self.cubes@), cube_name@) < 0 ==> r is None,
            first_index(crate::schema::cube_names(self.cubes@), cube_name@) >= 0 ==> r == Some(
                table_sql_of(cube_of(*self, cube_name@).table),
            ),
    {
        match self.cube_metadata(cube_name) {
            Some(c) => Some(c.cube_table()),
            None => None,
        }
    }

    /// The SQL of a query on a cube, and the headers of its output columns:
    /// drilldown headers, then measure names.
    pub fn sql_query(&self, cube_name: &str, query: &Query, db: Database) -> (r: Result<
        (String, Vec<String>),
        QueryError,
    >)
        requires
            query.measures@.len() < u64::MAX / 4,
        ensures
            match query_error(*self, cube_name@, *query) {
                Some(e) => r == Err::<(String, Vec<String>), QueryError>(e),
                None => r matches Ok(out) && {
                    let cube = cube_of(*self, cube_name@);
                    &&& out.1.deep_view() == drills_headers(
                        cube,
                        query.drilldowns@,
                        query.properties@,
                        query.parents,
                    ) + query.measures.deep_view()
                    &&& exists|cs: Seq<CutSql>, ds: Seq<DrilldownSql>|
                        cuts_bound(cube, query.cuts@, cs) && drills_bound(
                            cube,
                            query.drilldowns@,
                            query.properties@,
                            query.parents,
                            ds,
                        ) && out.1@.len() == drills_columns(ds).len() + query.measures@.len() && out.0@ == dialect_text(
                            db,
                            primary_agg_text(
                                table_sql_of(cube.table),
                                cs,
                                ds,
                                measures_sql(cube, query.measures@),
                                Seq::empty(),
                            ),
                        )
                },
            },
    {
        if query.measures.len() == 0 {
            return Err(QueryError::MissingConstraint);
        }
        if query.drilldowns.len() == 0 && query.cuts.len() == 0 {
            return Err(QueryError::MissingConstraint);
        }
        if !check_props_drilled(query) {
            return Err(QueryError::MissingConstraint);
        }
        let cube = match self.cube_metadata(cube_name) {
            Some(c) => c,
            None => return Err(QueryError::UnknownName),
        };
        let table = cube.cube_table();
        let cut_cols = match cube.cube_cut_cols(&query.cuts) {
            Ok(v) => v,
            Err(e) => return Err(e),
        };
        let drill_cols = match cube.cube_drill_cols(&query.drilldowns, &query.properties, query.parents) {
            Ok(v) => v,
            Err(e) => return Err(e),
        };
        let mea_cols = match cube.cube_mea_cols(&query.measures) {
            Ok(v) => v,
            Err(e) => return Err(e),
        };
        let drill_headers = match cube.cube_drill_headers(&query.drilldowns, &query.properties, query.parents) {
            Ok(v) => v,
            Err(e) => return Err(e),
        };
        let mea_headers = match cube.cube_mea_headers(&query.measures) {
            Ok(v) => v,
            Err(e) => return Err(e),
        };
        let mut headers = drill_headers;
        let ghost head = headers.deep_view();
        let mut k: usize = 0;
        while k < mea_headers.len()
            invariant
                k <= mea_headers.len(),
                headers.deep_view() =~= head + mea_headers.deep_view().subrange(0, k as int),
            decreases mea_headers.len() - k,
        {
            let x = mea_headers[k].clone();
            let ghost b = headers.deep_view();
            headers.push(x);
            assert(headers.deep_view() =~= b.push(x@));
            k = k + 1;
        }
        assert(mea_headers.deep_view().subrange(0, k as int) =~= mea_headers.deep_view());
        assert(mea_cols@ =~= measures_sql(*cube, query.measures@));
        let hidden: Vec<DrilldownSql> = Vec::new();
        assert(hidden@ =~= Seq::<DrilldownSql>::empty());
        let (sql, _cols) = primary_agg(&table, &cut_cols, &drill_cols, &mea_cols, &hidden);
        let sql = dialect_sql(db, sql);
        assert(cuts_bound(*cube, query.cuts@, cut_cols@));
        assert(drills_bound(*cube, query.drilldowns@, query.properties@, query.parents, drill_cols@));
        proof {
            lemma_header_column_alignment(
                *cube,
                query.drilldowns@,
                query.properties@,
                query.parents,
                drill_cols@,
                query.measures@,
            );
        }
        Ok((sql, headers))
    }
}

/// The query listing the members of a level: its key and name columns,
/// distinct, ordered by key, read from the hierarchy's table.
pub open spec fn members_text(cube: Cube, p: (int, int, int)) -> Seq<char> {
    let l = level_at(cube, p);
    let cols = crate::sql::level_column_names(level_column_of(l));
    "select distinct "@ + crate::text::join_seq(cols, ", "@) + " from "@ + bound_table(cube, hierarchy_at(cube, p)).name@
        + " order by "@ + l.key_column@
}

impl Schema {
    /// The SQL listing the members of a level, and the headers of its
    /// columns; an unknown cube or level is an error.
    pub fn members_sql(&self, cube_name: &str, level_name: &LevelName) -> (r: Result<(String, Vec<String>), QueryError>)
        ensures
            first_index(crate::schema::cube_names(self.cubes@), cube_name@) < 0 ==> r == Err::<(String, Vec<String>), QueryError>(
                QueryError::UnknownName,
            ),
            first_index(crate::schema::cube_names(self.cubes@), cube_name@) >= 0 ==> match level_position(
                cube_of(*self, cube_name@),
                level_name@,
            ) {
                None => r == Err::<(String, Vec<String>), QueryError>(QueryError::UnknownName),
                Some(p) => r matches Ok(out) && out.0@ == members_text(cube_of(*self, cube_name@), p)
                    && out.1.deep_view() == level_headers(seq![level_at(cube_of(*self, cube_name@), p)]),
            },
    {
        let cube = match self.cube_metadata(cube_name) {
            Some(c) => c,
            None => return Err(QueryError::UnknownName),
        };
        proof {
            lemma_level_position(*cube, level_name@);
        }
        let p = match cube.locate_level(level_name) {
            Some(p) => p,
            None => return Err(QueryError::UnknownName),
        };
        let hier = &cube.dimensions[p.0].hierarchies[p.1];
        let level = &hier.levels[p.2];
        let table = cube.hierarchy_table(hier);
        let lc = LevelColumn { key_column: level.key_column.clone(), name_column: copy_opt_text(&level.name_column) };
        let mut cols: Vec<String> = Vec::new();
        cols.push(lc.key_column.clone());
        let mut headers: Vec<String> = Vec::new();
        match &lc.name_column {
            Some(n) => {
                cols.push(n.clone());
                let mut h = level.name.clone();
                h.append(" ID");
                headers.push(h);
            },
            None => {},
        }
        headers.push(level.name.clone());
        assert(cols.deep_view() =~= crate::sql::level_column_names(lc));
        proof {
            let ls = seq![*level];
            assert(ls.drop_last() =~= Seq::<Level>::empty());
            assert(ls.last() == *level);
            assert(level_headers(ls.drop_last()) == Seq::<Seq<char>>::empty());
            if level.name_column is Some {
                assert(headers.deep_view() =~= seq![level.name@ + " ID"@, level.name@]);
            } else {
                assert(headers.deep_view() =~= seq![level.name@]);
            }
            assert(headers.deep_view() =~= level_headers(ls));
        }
        let joined = crate::text::join_strings(&cols, ", ");
        let mut sql = String::from_str("select distinct ");
        sql.append(joined.as_str());
        sql.append(" from ");
        sql.append(table.name.as_str());
        sql.append(" order by ");
        sql.append(level.key_column.as_str());
        Ok((sql, headers))
    }
}

// ---------------------------------------------------------------------------
// Laws
// ---------------------------------------------------------------------------

/// All the columns a list of bound drilldowns projects, in order.
pub open spec fn drills_columns(ds: Seq<DrilldownSql>) -> Seq<Seq<char>>
    decreases ds.len(),
{
    if ds.len() == 0 {
        Seq::empty()
    } else {
        drills_columns(ds.drop_last()) + drill_columns(ds.last())
    }
}

/// Each level contributes as many headers as columns: `"<level> ID"` stands
/// where the key column stands and `"<level>"` where the name column stands;
/// a level without a name column has one header for its key.
pub proof fn lemma_level_headers_match_columns(ls: Seq<Level>)
    ensures
        level_headers(ls).len() == level_columns_names(ls.map_values(|v: Level| level_column_of(v))).len(),
    decreases ls.len(),
{
    if ls.len() > 0 {
        lemma_level_headers_match_columns(ls.drop_last());
        assert(ls.map_values(|v: Level| level_column_of(v)).drop_last() =~= ls.drop_last().map_values(
            |v: Level| level_column_of(v),
        ));
    }
}

/// A bound drilldown has one header per projected column.
pub proof fn lemma_drill_headers_match_columns(
    cube: Cube,
    ln: LevelNameView,
    props: Seq<PropertyName>,
    parents: bool,
    out: DrilldownSql,
)
    requires
        drill_error(cube, ln, props) is None,
        drill_bound(cube, ln, props, parents, out),
    ensures
        drill_headers(cube, ln, props, parents).len() == drill_columns(out).len(),
{
    lemma_level_position(cube, ln);
    let p = level_position(cube, ln)->Some_0;
    lemma_level_headers_match_columns(drill_levels(hierarchy_at(cube, p), p.2, parents));
}

/// Header and column alignment: for a bound query, the binder's header list
/// is exactly as long as the generator's output column list (drilldown
/// columns, then one column per measure), drilldown by drilldown.
pub proof fn lemma_header_column_alignment(
    cube: Cube,
    drills: Seq<LevelName>,
    props: Seq<PropertyName>,
    parents: bool,
    ds: Seq<DrilldownSql>,
    measures: Seq<String>,
)
    requires
        drills_error(cube, drills, props) is None,
        drills_bound(cube, drills, props, parents, ds),
    ensures
        drills_headers(cube, drills, props, parents).len() + measures.len() == drills_columns(ds).len()
            + measures_sql(cube, measures).len(),
        forall|k: int|
            0 <= k < drills.len() ==> drill_headers(cube, (#[trigger] drills[k])@, props, parents).len()
                == drill_columns(ds[k]).len(),
    decreases drills.len(),
{
    assert forall|k: int| 0 <= k < drills.len() implies drill_headers(
        cube,
        (#[trigger] drills[k])@,
        props,
        parents,
    ).len() == drill_columns(ds[k]).len() by {
        lemma_drills_error_none_prefix(cube, drills, props, k + 1);
        assert(drill_bound(cube, drills[k]@, props, parents, ds[k]));
        lemma_drill_headers_match_columns(cube, drills[k]@, props, parents, ds[k]);
    }
    if drills.len() > 0 {
        lemma_drills_error_none_prefix(cube, drills, props, drills.len() - 1);
        assert(drills.subrange(0, drills.len() - 1) =~= drills.drop_last());
        lemma_header_column_alignment(cube, drills.drop_last(), props, parents, ds.drop_last(), measures);
    }
}

/// Drilling with `parents` on a level at depth `d` (0 for the top level)
/// projects `d + 1` level column groups; without it, one.
pub proof fn lemma_parents_level_groups(
    cube: Cube,
    ln: LevelNameView,
    props: Seq<PropertyName>,
    parents: bool,
    out: DrilldownSql,
)
    requires
        drill_error(cube, ln, props) is None,
        drill_bound(cube, ln, props, parents, out),
    ensures
        out.level_columns@.len() == (if parents {
            level_position(cube, ln)->Some_0.2 + 1
        } else {
            1
        }),
{
    lemma_level_position(cube, ln);
}

/// Binding is a function of the schema and the query: two bindings of the
/// same cut are equal field by field.
pub proof fn lemma_cut_binding_stable(cube: Cube, c: Cut, a: CutSql, b: CutSql)
    requires
        cut_error(cube, c) is None,
        cut_bound(cube, c, a),
        cut_bound(cube, c, b),
    ensures
        a.table == b.table,
        a.primary_key == b.primary_key,
        a.foreign_key == b.foreign_key,
        a.column == b.column,
        a.members@ == b.members@,
        a.member_type == b.member_type,
{
}

/// Two bindings of the same drilldown are equal field by field.
pub proof fn lemma_drill_binding_stable(
    cube: Cube,
    ln: LevelNameView,
    props: Seq<PropertyName>,
    parents: bool,
    a: DrilldownSql,
    b: DrilldownSql,
)
    requires
        drill_error(cube, ln, props) is None,
        drill_bound(cube, ln, props, parents, a),
        drill_bound(cube, ln, props, parents, b),
    ensures
        a.table == b.table,
        a.primary_key == b.primary_key,
        a.foreign_key == b.foreign_key,
        a.level_columns@ == b.level_columns@,
        a.property_columns@ == b.property_columns@,
        drill_columns(a) == drill_columns(b),
{
}

} // verus!
