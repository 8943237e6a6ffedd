//! Bound query fragments and the multi-pass aggregation SQL built from them.
use vstd::prelude::*;
use crate::schema::{Aggregator, MemberType, first_index, lemma_first_index};
use crate::text::{join_seq, join_strings, decimal, decimal_text, text_eq};

verus! {

/// The fact table of a query.
#[derive(Debug, Clone, PartialEq, Eq)]
pub struct TableSql {
    pub name: String,
    pub primary_key: Option<String>,
}

/// The key column of a level and its display-name column, if any.
#[derive(Debug, Clone, PartialEq, Eq)]
pub struct LevelColumn {
    pub key_column: String,
    pub name_column: Option<String>,
}

/// A cut bound to physical columns.
#[derive(Debug, Clone, PartialEq, Eq)]
pub struct CutSql {
    pub table: TableSql,
    pub primary_key: String,
    pub foreign_key: String,
    pub column: String,
    pub members: Vec<String>,
    pub member_type: MemberType,
}

/// A drilldown bound to physical columns.
#[derive(Debug, Clone, PartialEq, Eq)]
pub struct DrilldownSql {
    pub table: TableSql,
    pub primary_key: String,
    pub foreign_key: String,
    pub level_columns: Vec<LevelColumn>,
    pub property_columns: Vec<String>,
}

/// A measure bound to its column.
#[derive(Debug, Clone, PartialEq, Eq)]
pub struct MeasureSql {
    pub column: String,
    pub aggregator: Aggregator,
}

// ---------------------------------------------------------------------------
// Column lists
// ---------------------------------------------------------------------------

/// The columns a level projects: its key, then its name if it has one.
pub open spec fn level_column_names(lc: LevelColumn) -> Seq<Seq<char>> {
    match lc.name_column {
        Some(n) => seq![lc.key_column@, n@],
        None => seq![lc.key_column@],
    }
}

pub open spec fn level_columns_names(lcs: Seq<LevelColumn>) -> Seq<Seq<char>>
    decreases lcs.len(),
{
    if lcs.len() == 0 {
        Seq::empty()
    } else {
        level_columns_names(lcs.drop_last()) + level_column_names(lcs.last())
    }
}

/// The columns a drilldown projects: level columns, then property columns.
pub open spec fn drill_columns(d: DrilldownSql) -> Seq<Seq<char>> {
    level_columns_names(d.level_columns@) + d.property_columns.deep_view()
}

pub open spec fn drill_col_text(d: DrilldownSql) -> Seq<char> {
    join_seq(drill_columns(d), ", "@)
}

pub open spec fn drill_col_texts(ds: Seq<DrilldownSql>) -> Seq<Seq<char>> {
    ds.map_values(|d: DrilldownSql| drill_col_text(d))
}

impl DrilldownSql {
    /// The column names of this drilldown.
    pub fn columns(&self) -> (r: Vec<String>)
        ensures
            r.deep_view() == drill_columns(*self),
    {
        let mut r: Vec<String> = Vec::new();
        let mut i: usize = 0;
        while i < self.level_columns.len()
            invariant
                i <= self.level_columns.len(),
                r.deep_view() == level_columns_names(self.level_columns@.subrange(0, i as int)),
            decreases self.level_columns.len() - i,
        {
            let lc = &self.level_columns[i];
            let ghost before = r.deep_view();
            r.push(lc.key_column.clone());
            match &lc.name_column {
                Some(n) => {
                    r.push(n.clone());
                },
                None => {},
            }
            proof {
                let s = self.level_columns@.subrange(0, i as int + 1);
                assert(s.drop_last() =~= self.level_columns@.subrange(0, i as int));
                assert(r.deep_view() =~= before + level_column_names(*lc));
            }
            i = i + 1;
        }
        assert(self.level_columns@.subrange(0, i as int) =~= self.level_columns@);
        let ghost lv = r.deep_view();
        let mut j: usize = 0;
        while j < self.property_columns.len()
            invariant
                j <= self.property_columns.len(),
                r.deep_view() =~= lv + self.property_columns.deep_view().subrange(0, j as int),
            decreases self.property_columns.len() - j,
        {
            let x = self.property_columns[j].clone();
            let ghost before = r.deep_view();
            r.push(x);
            assert(r.deep_view() =~= before.push(x@));
            j = j + 1;
        }
        assert(self.property_columns.deep_view().subrange(0, j as int)
            =~= self.property_columns.deep_view());
        r
    }

    /// The column names of this drilldown, comma separated.
    pub fn col_string(&self) -> (r: String)
        ensures
            r@ == drill_col_text(*self),
    {
        let cols = self.columns();
        join_strings(&cols, ", ")
    }
}

/// The column texts of several drilldowns.
pub fn drill_texts(ds: &Vec<DrilldownSql>) -> (r: Vec<String>)
    ensures
        r.deep_view() == drill_col_texts(ds@),
{
    let mut r: Vec<String> = Vec::new();
    let mut i: usize = 0;
    while i < ds.len()
        invariant
            i <= ds.len(),
            r.deep_view() =~= drill_col_texts(ds@.subrange(0, i as int)),
        decreases ds.len() - i,
    {
        let x = ds[i].col_string();
        let ghost before = r.deep_view();
        r.push(x);
        assert(r.deep_view() =~= before.push(x@));
        assert(drill_col_texts(ds@.subrange(0, i as int + 1)) =~= drill_col_texts(
            ds@.subrange(0, i as int),
        ).push(x@));
        i = i + 1;
    }
    assert(ds@.subrange(0, i as int) =~= ds@);
    r
}

// ---------------------------------------------------------------------------
// Measures
// ---------------------------------------------------------------------------

/// How many fact-query columns a measure takes.
pub open spec fn agg_width(a: Aggregator) -> nat {
    match a {
        Aggregator::Avg => 2,
        _ => 1,
    }
}

/// The first fact-query column of measure `i`: the widths of those before.
pub open spec fn mea_slot(ms: Seq<MeasureSql>, i: int) -> nat
    decreases i,
{
    if i <= 0 {
        0
    } else {
        mea_slot(ms, i - 1) + agg_width(ms[i - 1].aggregator)
    }
}

pub open spec fn m_alias(s: nat) -> Seq<char> {
    "m"@ + decimal(s)
}

/// The fact-query expression of a measure whose first column is `m<s>`.
pub open spec fn pass1_text(m: MeasureSql, s: nat) -> Seq<char> {
    match m.aggregator {
        Aggregator::Sum => "sum("@ + m.column@ + ") as "@ + m_alias(s),
        Aggregator::Min => "min("@ + m.column@ + ") as "@ + m_alias(s),
        Aggregator::Max => "max("@ + m.column@ + ") as "@ + m_alias(s),
        Aggregator::Count => "count("@ + m.column@ + ") as "@ + m_alias(s),
        Aggregator::Avg => "sum("@ + m.column@ + ") as "@ + m_alias(s) + ", count("@ + m.column@
            + ") as "@ + m_alias(s + 1),
        Aggregator::CountDistinct => "groupUniqArray("@ + m.column@ + ") as "@ + m_alias(s),
    }
}

/// The columns that carry a measure through the joins.
pub open spec fn select_text(m: MeasureSql, s: nat) -> Seq<char> {
    match m.aggregator {
        Aggregator::Avg => m_alias(s) + ", "@ + m_alias(s + 1),
        _ => m_alias(s),
    }
}

/// The final expression of measure number `i`, whose first column is `m<s>`.
pub open spec fn pass2_text(m: MeasureSql, s: nat, i: nat) -> Seq<char> {
    let fin = " as final_m"@ + decimal(i);
    match m.aggregator {
        Aggregator::Sum => "sum("@ + m_alias(s) + ")"@ + fin,
        Aggregator::Min => "min("@ + m_alias(s) + ")"@ + fin,
        Aggregator::Max => "max("@ + m_alias(s) + ")"@ + fin,
        Aggregator::Count => "count("@ + m_alias(s) + ")"@ + fin,
        Aggregator::Avg => "sum("@ + m_alias(s) + ")/sum("@ + m_alias(s + 1) + ")"@ + fin,
        Aggregator::CountDistinct => "length(groupUniqArrayArray("@ + m_alias(s) + "))"@ + fin,
    }
}

pub open spec fn pass1_texts(ms: Seq<MeasureSql>) -> Seq<Seq<char>> {
    Seq::new(ms.len(), |i: int| pass1_text(ms[i], mea_slot(ms, i)))
}

pub open spec fn select_texts(ms: Seq<MeasureSql>) -> Seq<Seq<char>> {
    Seq::new(ms.len(), |i: int| select_text(ms[i], mea_slot(ms, i)))
}

pub open spec fn pass2_texts(ms: Seq<MeasureSql>) -> Seq<Seq<char>> {
    Seq::new(ms.len(), |i: int| pass2_text(ms[i], mea_slot(ms, i), i as nat))
}

fn m_alias_text(s: u64) -> (r: String)
    ensures
        r@ == m_alias(s as nat),
{
    let mut r = String::from_str("m");
    let d = decimal_text(s);
    r.append(d.as_str());
    r
}

fn agg_prefix(a: Aggregator) -> (r: &'static str)
    requires
        a != Aggregator::Avg,
        a != Aggregator::CountDistinct,
    ensures
        r@ == (match a {
            Aggregator::Sum => "sum("@,
            Aggregator::Min => "min("@,
            Aggregator::Max => "max("@,
            _ => "count("@,
        }),
{
    match a {
        Aggregator::Sum => "sum(",
        Aggregator::Min => "min(",
        Aggregator::Max => "max(",
        _ => "count(",
    }
}

/// The fact-query expression of a measure.
pub fn agg_sql_string_pass_1(column: &String, aggregator: Aggregator, slot: u64) -> (r: String)
    requires
        slot < u64::MAX,
    ensures
        r@ == pass1_text(MeasureSql { column: *column, aggregator }, slot as nat),
{
    let alias = m_alias_text(slot);
    match aggregator {
        Aggregator::Avg => {
            let alias2 = m_alias_text(slot + 1);
            let mut r = String::from_str("sum(");
            r.append(column.as_str());
            r.append(") as ");
            r.append(alias.as_str());
            r.append(", count(");
            r.append(column.as_str());
            r.append(") as ");
            r.append(alias2.as_str());
            r
        },
        Aggregator::CountDistinct => {
            let mut r = String::from_str("groupUniqArray(");
            r.append(column.as_str());
            r.append(") as ");
            r.append(alias.as_str());
            r
        },
        _ => {
            let mut r = String::from_str(agg_prefix(aggregator));
            r.append(column.as_str());
            r.append(") as ");
            r.append(alias.as_str());
            r
        },
    }
}

/// The columns that carry a measure through the joins.
pub fn agg_sql_string_select_mea(aggregator: Aggregator, slot: u64) -> (r: String)
    requires
        slot < u64::MAX,
    ensures
        forall|c: String| r@ == select_text(MeasureSql { column: c, aggregator }, slot as nat),
{
    let mut r = m_alias_text(slot);
    match aggregator {
        Aggregator::Avg => {
            let alias2 = m_alias_text(slot + 1);
            r.append(", ");
            r.append(alias2.as_str());
        },
        _ => {},
    }
    r
}

/// The final expression of measure number `index`.
pub fn agg_sql_string_pass_2(aggregator: Aggregator, slot: u64, index: u64) -> (r: String)
    requires
        slot < u64::MAX,
    ensures
        forall|c: String| r@ == pass2_text(MeasureSql { column: c, aggregator }, slot as nat, index as nat),
{
    let alias = m_alias_text(slot);
    let mut fin = String::from_str(" as final_m");
    let d = decimal_text(index);
    fin.append(d.as_str());
    match aggregator {
        Aggregator::Avg => {
            let alias2 = m_alias_text(slot + 1);
            let mut r = String::from_str("sum(");
            r.append(alias.as_str());
            r.append(")/sum(");
            r.append(alias2.as_str());
            r.append(")");
            r.append(fin.as_str());
            r
        },
        Aggregator::CountDistinct => {
            let mut r = String::from_str("length(groupUniqArrayArray(");
            r.append(alias.as_str());
            r.append("))");
            r.append(fin.as_str());
            r
        },
        _ => {
            let mut r = String::from_str(agg_prefix(aggregator));
            r.append(alias.as_str());
            r.append(")");
            r.append(fin.as_str());
            r
        },
    }
}

/// The three measure lists of a query: fact-query expressions, carried
/// columns and final expressions.
pub fn measure_texts(meas: &Vec<MeasureSql>) -> (r: (Vec<String>, Vec<String>, Vec<String>))
    requires
        meas@.len() < u64::MAX / 4,
    ensures
        r.0.deep_view() == pass1_texts(meas@),
        r.1.deep_view() == select_texts(meas@),
        r.2.deep_view() == pass2_texts(meas@),
{
    let mut pass_one: Vec<String> = Vec::new();
    let mut sel: Vec<String> = Vec::new();
    let mut pass_two: Vec<String> = Vec::new();
    let mut slot: u64 = 0;
    let mut i: usize = 0;
    while i < meas.len()
        invariant
            i <= meas.len() < u64::MAX / 4,
            slot == mea_slot(meas@, i as int),
            slot <= 2 * i,
            pass_one.deep_view() =~= pass1_texts(meas@).subrange(0, i as int),
            sel.deep_view() =~= select_texts(meas@).subrange(0, i as int),
            pass_two.deep_view() =~= pass2_texts(meas@).subrange(0, i as int),
        decreases meas.len() - i,
    {
        let m = &meas[i];
        let a = agg_sql_string_pass_1(&m.column, m.aggregator, slot);
        let b = agg_sql_string_select_mea(m.aggregator, slot);
        let c = agg_sql_string_pass_2(m.aggregator, slot, i as u64);
        let ghost (b1, b2, b3) = (pass_one.deep_view(), sel.deep_view(), pass_two.deep_view());
        pass_one.push(a);
        sel.push(b);
        pass_two.push(c);
        proof {
            let mm = MeasureSql { column: m.column, aggregator: m.aggregator };
            assert(mm == meas@[i as int]);
            assert(b@ == select_text(meas@[i as int], slot as nat));
            assert(c@ == pass2_text(meas@[i as int], slot as nat, i as nat));
            assert(pass_one.deep_view() =~= b1.push(a@));
            assert(sel.deep_view() =~= b2.push(b@));
            assert(pass_two.deep_view() =~= b3.push(c@));
            assert(pass1_texts(meas@).subrange(0, i as int + 1) =~= pass1_texts(meas@).subrange(0, i as int).push(a@));
            assert(select_texts(meas@).subrange(0, i as int + 1) =~= select_texts(meas@).subrange(0, i as int).push(b@));
            assert(pass2_texts(meas@).subrange(0, i as int + 1) =~= pass2_texts(meas@).subrange(0, i as int).push(c@));
        }
        slot = match m.aggregator {
            Aggregator::Avg => slot + 2,
            _ => slot + 1,
        };
        i = i + 1;
    }
    (pass_one, sel, pass_two)
}

// ---------------------------------------------------------------------------
// Cuts
// ---------------------------------------------------------------------------

/// A member id as an SQL literal.
pub open spec fn member_literal(m: Seq<char>, t: MemberType) -> Seq<char> {
    match t {
        MemberType::Text => "'"@ + m + "'"@,
        MemberType::NonText => m,
    }
}

pub open spec fn member_literals(ms: Seq<Seq<char>>, t: MemberType) -> Seq<Seq<char>> {
    ms.map_values(|m: Seq<char>| member_literal(m, t))
}

/// The filter of a cut on its own column.
pub open spec fn cut_text(c: CutSql) -> Seq<char> {
    c.column@ + " in ("@ + join_seq(member_literals(c.members.deep_view(), c.member_type), ", "@)
        + ")"@
}

/// The filter of a cut on a dimension table, applied to the fact table.
pub open spec fn ext_cut_text(c: CutSql) -> Seq<char> {
    c.foreign_key@ + " in (select "@ + c.primary_key@ + " from "@ + c.table.name@ + (if c.members@.len()
        == 0 {
        Seq::empty()
    } else {
        " where "@ + cut_text(c)
    }) + ")"@
}

/// Renders a cut as a filter on its column.
pub fn cut_sql_string(c: &CutSql) -> (r: String)
    ensures
        r@ == cut_text(*c),
{
    let mut lits: Vec<String> = Vec::new();
    let mut i: usize = 0;
    while i < c.members.len()
        invariant
            i <= c.members.len(),
            lits.deep_view() =~= member_literals(c.members.deep_view(), c.member_type).subrange(
                0,
                i as int,
            ),
        decreases c.members.len() - i,
    {
        let q = match c.member_type {
            MemberType::Text => {
                let mut q = String::from_str("'");
                q.append(c.members[i].as_str());
                q.append("'");
                q
            },
            MemberType::NonText => c.members[i].clone(),
        };
        let ghost before = lits.deep_view();
        lits.push(q);
        assert(lits.deep_view() =~= before.push(q@));
        assert(member_literals(c.members.deep_view(), c.member_type).subrange(0, i as int + 1)
            =~= member_literals(c.members.deep_view(), c.member_type).subrange(0, i as int).push(
            q@,
        ));
        i = i + 1;
    }
    assert(lits.deep_view() =~= member_literals(c.members.deep_view(), c.member_type));
    let joined = join_strings(&lits, ", ");
    let mut r = c.column.clone();
    r.append(" in (");
    r.append(joined.as_str());
    r.append(")");
    r
}

/// Renders a cut on a dimension table as a filter on the fact table.
pub fn ext_cut_sql_string(c: &CutSql) -> (r: String)
    ensures
        r@ == ext_cut_text(*c),
{
    let mut r = c.foreign_key.clone();
    r.append(" in (select ");
    r.append(c.primary_key.as_str());
    r.append(" from ");
    r.append(c.table.name.as_str());
    let ghost head = r@;
    if c.members.len() > 0 {
        let f = cut_sql_string(c);
        r.append(" where ");
        r.append(f.as_str());
    } else {
        assert(head + Seq::<char>::empty() =~= head);
    }
    r.append(")");
    r
}

// ---------------------------------------------------------------------------
// The query
// ---------------------------------------------------------------------------

/// Whether a drilldown reads the fact table itself.
pub open spec fn drill_is_inline(d: DrilldownSql, t: TableSql) -> bool {
    d.table.name@ == t.name@
}

pub open spec fn cut_is_inline(c: CutSql, t: TableSql) -> bool {
    c.table.name@ == t.name@
}

pub open spec fn inline_drills(ds: Seq<DrilldownSql>, t: TableSql) -> Seq<DrilldownSql>
    decreases ds.len(),
{
    if ds.len() == 0 {
        Seq::empty()
    } else if drill_is_inline(ds.last(), t) {
        inline_drills(ds.drop_last(), t).push(ds.last())
    } else {
        inline_drills(ds.drop_last(), t)
    }
}

pub open spec fn external_drills(ds: Seq<DrilldownSql>, t: TableSql) -> Seq<DrilldownSql>
    decreases ds.len(),
{
    if ds.len() == 0 {
        Seq::empty()
    } else if !drill_is_inline(ds.last(), t) {
        external_drills(ds.drop_last(), t).push(ds.last())
    } else {
        external_drills(ds.drop_last(), t)
    }
}

/// The filters of the fact query: inline cuts first, then external ones,
/// each group in request order.
pub open spec fn cut_clauses(cs: Seq<CutSql>, t: TableSql) -> Seq<Seq<char>> {
    inline_cut_texts(cs, t) + external_cut_texts(cs, t)
}

pub open spec fn inline_cut_texts(cs: Seq<CutSql>, t: TableSql) -> Seq<Seq<char>>
    decreases cs.len(),
{
    if cs.len() == 0 {
        Seq::empty()
    } else if cut_is_inline(cs.last(), t) {
        inline_cut_texts(cs.drop_last(), t).push(cut_text(cs.last()))
    } else {
        inline_cut_texts(cs.drop_last(), t)
    }
}

pub open spec fn external_cut_texts(cs: Seq<CutSql>, t: TableSql) -> Seq<Seq<char>>
    decreases cs.len(),
{
    if cs.len() == 0 {
        Seq::empty()
    } else if !cut_is_inline(cs.last(), t) {
        external_cut_texts(cs.drop_last(), t).push(ext_cut_text(cs.last()))
    } else {
        external_cut_texts(cs.drop_last(), t)
    }
}

/// External drilldowns in request order, except that the first one joined on
/// the fact table's primary key goes first.
pub open spec fn join_order(ext: Seq<DrilldownSql>, t: TableSql) -> Seq<DrilldownSql> {
    match t.primary_key {
        Some(pk) => {
            let k = first_index(foreign_keys(ext), pk@);
            if k < 0 {
                ext
            } else {
                seq![ext[k]] + ext.remove(k)
            }
        },
        None => ext,
    }
}

/// The per-dimension subquery of an external drilldown.
pub open spec fn dim_subquery_text(d: DrilldownSql) -> Seq<char> {
    "select "@ + drill_col_text(d) + ", "@ + d.primary_key@ + " as "@ + d.foreign_key@ + " from "@
        + d.table.name@ + " group by "@ + drill_col_text(d) + ", "@ + d.primary_key@
}

/// The fact-table columns: inline drilldown columns, then the foreign keys of
/// the joined dimensions.
pub open spec fn fact_dim_cols(ds: Seq<DrilldownSql>, t: TableSql) -> Seq<char> {
    join_seq(
        drill_col_texts(inline_drills(ds, t)) + join_order(external_drills(ds, t), t).map_values(
            |d: DrilldownSql| d.foreign_key@,
        ),
        ", "@,
    )
}

pub open spec fn opt_part(present: bool, s: Seq<char>) -> Seq<char> {
    if present {
        s
    } else {
        Seq::empty()
    }
}

/// The fact-table aggregate.
pub open spec fn fact_query_text(
    t: TableSql,
    cs: Seq<CutSql>,
    ds: Seq<DrilldownSql>,
    ms: Seq<MeasureSql>,
    hidden: Seq<DrilldownSql>,
) -> Seq<char> {
    let cols = fact_dim_cols(ds, t);
    let hid = opt_part(hidden.len() > 0, ", "@ + join_seq(drill_col_texts(hidden), ", "@));
    "select "@ + cols + hid + ", "@ + join_seq(pass1_texts(ms), ", "@) + " from "@ + t.name@
        + opt_part(cs.len() > 0, " where "@ + join_seq(cut_clauses(cs, t), " and "@))
        + " group by "@ + cols + hid
}

/// The columns carried after joining the first dimensions of `dims`.
pub open spec fn carried_cols(base: Seq<char>, dims: Seq<DrilldownSql>) -> Seq<Seq<char>> {
    seq![base] + drill_col_texts(dims)
}

/// The fact aggregate joined with each dimension subquery in turn.
pub open spec fn star_join(
    fact: Seq<char>,
    base: Seq<char>,
    dims: Seq<DrilldownSql>,
    mea: Seq<char>,
) -> Seq<char>
    decreases dims.len(),
{
    if dims.len() == 0 {
        fact
    } else {
        let d = dims.last();
        "select "@ + join_seq(carried_cols(base, dims), ", "@) + ", "@ + mea + " from ("@
            + dim_subquery_text(d) + ") all inner join ("@ + star_join(
            fact,
            base,
            dims.drop_last(),
            mea,
        ) + ") using "@ + d.foreign_key@
    }
}

/// The whole query: the final re-aggregation over the star join.
pub open spec fn primary_agg_text(
    t: TableSql,
    cs: Seq<CutSql>,
    ds: Seq<DrilldownSql>,
    ms: Seq<MeasureSql>,
    hidden: Seq<DrilldownSql>,
) -> Seq<char> {
    let drill_cols = join_seq(drill_col_texts(ds), ", "@);
    let joined = star_join(
        fact_query_text(t, cs, ds, ms, hidden),
        fact_dim_cols(ds, t),
        join_order(external_drills(ds, t), t),
        join_seq(select_texts(ms), ", "@),
    );
    "select "@ + drill_cols + ", "@ + join_seq(pass2_texts(ms), ", "@) + " from ("@ + joined
        + ") group by "@ + drill_cols
}

/// Renders the per-dimension subquery of an external drilldown.
pub fn dim_subquery(d: &DrilldownSql) -> (r: String)
    ensures
        r@ == dim_subquery_text(*d),
{
    let cols = d.col_string();
    let mut r = String::from_str("select ");
    r.append(cols.as_str());
    r.append(", ");
    r.append(d.primary_key.as_str());
    r.append(" as ");
    r.append(d.foreign_key.as_str());
    r.append(" from ");
    r.append(d.table.name.as_str());
    r.append(" group by ");
    r.append(cols.as_str());
    r.append(", ");
    r.append(d.primary_key.as_str());
    r
}

/// The drilldowns at the given positions.
pub open spec fn pick(ds: Seq<DrilldownSql>, idx: Seq<usize>) -> Seq<DrilldownSql> {
    idx.map_values(|i: usize| ds[i as int])
}

/// Splits drilldowns into those on the fact table and the others, each in
/// request order, as positions.
pub fn split_drills(ds: &Vec<DrilldownSql>, t: &TableSql) -> (r: (Vec<usize>, Vec<usize>))
    ensures
        forall|k: int| 0 <= k < r.0@.len() ==> r.0@[k] < ds@.len(),
        forall|k: int| 0 <= k < r.1@.len() ==> r.1@[k] < ds@.len(),
        pick(ds@, r.0@) == inline_drills(ds@, *t),
        pick(ds@, r.1@) == external_drills(ds@, *t),
{
    let mut inl: Vec<usize> = Vec::new();
    let mut ext: Vec<usize> = Vec::new();
    let mut i: usize = 0;
    while i < ds.len()
        invariant
            i <= ds.len(),
            forall|k: int| 0 <= k < inl@.len() ==> inl@[k] < i,
            forall|k: int| 0 <= k < ext@.len() ==> ext@[k] < i,
            pick(ds@, inl@) =~= inline_drills(ds@.subrange(0, i as int), *t),
            pick(ds@, ext@) =~= external_drills(ds@.subrange(0, i as int), *t),
        decreases ds.len() - i,
    {
        let d = &ds[i];
        proof {
            let s = ds@.subrange(0, i as int + 1);
            assert(s.drop_last() =~= ds@.subrange(0, i as int));
            assert(s.last() == ds@[i as int]);
        }
        if text_eq(d.table.name.as_str(), t.name.as_str()) {
            let ghost before = inl@;
            inl.push(i);
            assert(pick(ds@, inl@) =~= pick(ds@, before).push(ds@[i as int]));
        } else {
            let ghost before = ext@;
            ext.push(i);
            assert(pick(ds@, ext@) =~= pick(ds@, before).push(ds@[i as int]));
        }
        i = i + 1;
    }
    assert(ds@.subrange(0, i as int) =~= ds@);
    (inl, ext)
}

/// The column texts of the drilldowns at the given positions.
fn texts_at(ds: &Vec<DrilldownSql>, idx: &Vec<usize>) -> (r: Vec<String>)
    requires
        forall|k: int| 0 <= k < idx@.len() ==> idx@[k] < ds@.len(),
    ensures
        r.deep_view() == drill_col_texts(pick(ds@, idx@)),
{
    let mut r: Vec<String> = Vec::new();
    let mut k: usize = 0;
    while k < idx.len()
        invariant
            k <= idx.len(),
            forall|j: int| 0 <= j < idx@.len() ==> idx@[j] < ds@.len(),
            r.deep_view() =~= drill_col_texts(pick(ds@, idx@)).subrange(0, k as int),
        decreases idx.len() - k,
    {
        let x = ds[idx[k]].col_string();
        let ghost before = r.deep_view();
        r.push(x);
        assert(r.deep_view() =~= before.push(x@));
        assert(drill_col_texts(pick(ds@, idx@)).subrange(0, k as int + 1) =~= drill_col_texts(
            pick(ds@, idx@),
        ).subrange(0, k as int).push(x@));
        k = k + 1;
    }
    r
}

pub open spec fn foreign_keys(ds: Seq<DrilldownSql>) -> Seq<Seq<char>> {
    ds.map_values(|d: DrilldownSql| d.foreign_key@)
}

/// The positions of the external drilldowns in join order.
fn order_for_join(ds: &Vec<DrilldownSql>, ext: &Vec<usize>, t: &TableSql) -> (r: Vec<usize>)
    requires
        forall|k: int| 0 <= k < ext@.len() ==> ext@[k] < ds@.len(),
    ensures
        forall|k: int| 0 <= k < r@.len() ==> r@[k] < ds@.len(),
        pick(ds@, r@) == join_order(pick(ds@, ext@), *t),
{
    let mut r: Vec<usize> = Vec::new();
    let mut k: usize = 0;
    while k < ext.len()
        invariant
            k <= ext.len(),
            r@ =~= ext@.subrange(0, k as int),
        decreases ext.len() - k,
    {
        r.push(ext[k]);
        k = k + 1;
    }
    assert(r@ =~= ext@);
    let ghost e = pick(ds@, ext@);
    let ghost fks = foreign_keys(e);
    match &t.primary_key {
        None => r,
        Some(pk) => {
            let mut i: usize = 0;
            while i < r.len()
                invariant
                    t.primary_key == Some(*pk),
                    r@ == ext@,
                    e == pick(ds@, ext@),
                    fks == foreign_keys(e),
                    forall|j: int| 0 <= j < ext@.len() ==> ext@[j] < ds@.len(),
                    i <= r.len(),
                    forall|j: int| 0 <= j < i ==> fks[j] != pk@,
                decreases r.len() - i,
            {
                if ds[r[i]].foreign_key == *pk {
                    proof {
                        assert(e[i as int] == ds@[ext@[i as int] as int]);
                        assert(fks[i as int] == pk@);
                        lemma_first_index(fks, pk@, i as int);
                        assert(first_index(foreign_keys(e), pk@) == i);
                    }
                    let x = r.remove(i);
                    r.insert(0, x);
                    assert(r@ == ext@.remove(i as int).insert(0, x));
                    assert(pick(ds@, r@) =~= seq![e[i as int]] + e.remove(i as int));
                    assert(t.primary_key == Some(*pk));
                    return r;
                }
                i = i + 1;
            }
            proof {
                lemma_first_index(fks, pk@, i as int);
            }
            r
        },
    }
}

/// The fact-table columns: inline drilldown columns, then foreign keys.
fn fact_columns(ds: &Vec<DrilldownSql>, inl: &Vec<usize>, ordered: &Vec<usize>) -> (r: Vec<String>)
    requires
        forall|k: int| 0 <= k < inl@.len() ==> inl@[k] < ds@.len(),
        forall|k: int| 0 <= k < ordered@.len() ==> ordered@[k] < ds@.len(),
    ensures
        r.deep_view() == drill_col_texts(pick(ds@, inl@)) + foreign_keys(pick(ds@, ordered@)),
{
    let mut r = texts_at(ds, inl);
    let ghost head = r.deep_view();
    let mut k: usize = 0;
    while k < ordered.len()
        invariant
            k <= ordered.len(),
            forall|j: int| 0 <= j < ordered@.len() ==> ordered@[j] < ds@.len(),
            r.deep_view() =~= head + foreign_keys(pick(ds@, ordered@)).subrange(0, k as int),
        decreases ordered.len() - k,
    {
        let x = ds[ordered[k]].foreign_key.clone();
        let ghost before = r.deep_view();
        r.push(x);
        assert(r.deep_view() =~= before.push(x@));
        assert(foreign_keys(pick(ds@, ordered@)).subrange(0, k as int + 1) =~= foreign_keys(
            pick(ds@, ordered@),
        ).subrange(0, k as int).push(x@));
        k = k + 1;
    }
    assert(foreign_keys(pick(ds@, ordered@)).subrange(0, k as int) =~= foreign_keys(
        pick(ds@, ordered@),
    ));
    r
}

/// The filters of the fact query.
fn cut_clause_texts(cs: &Vec<CutSql>, t: &TableSql) -> (r: Vec<String>)
    ensures
        r.deep_view() == cut_clauses(cs@, *t),
{
    let mut inl: Vec<String> = Vec::new();
    let mut ext: Vec<String> = Vec::new();
    let mut i: usize = 0;
    while i < cs.len()
        invariant
            i <= cs.len(),
            inl.deep_view() =~= inline_cut_texts(cs@.subrange(0, i as int), *t),
            ext.deep_view() =~= external_cut_texts(cs@.subrange(0, i as int), *t),
        decreases cs.len() - i,
    {
        let c = &cs[i];
        proof {
            let s = cs@.subrange(0, i as int + 1);
            assert(s.drop_last() =~= cs@.subrange(0, i as int));
            assert(s.last() == cs@[i as int]);
        }
        if text_eq(c.table.name.as_str(), t.name.as_str()) {
            let x = cut_sql_string(c);
            let ghost before = inl.deep_view();
            inl.push(x);
            assert(inl.deep_view() =~= before.push(x@));
        } else {
            let x = ext_cut_sql_string(c);
            let ghost before = ext.deep_view();
            ext.push(x);
            assert(ext.deep_view() =~= before.push(x@));
        }
        i = i + 1;
    }
    assert(cs@.subrange(0, i as int) =~= cs@);
    let ghost a = inl.deep_view();
    let mut k: usize = 0;
    while k < ext.len()
        invariant
            k <= ext.len(),
            inl.deep_view() =~= a + ext.deep_view().subrange(0, k as int),
        decreases ext.len() - k,
    {
        let x = ext[k].clone();
        let ghost before = inl.deep_view();
        inl.push(x);
        assert(inl.deep_view() =~= before.push(x@));
        k = k + 1;
    }
    assert(ext.deep_view().subrange(0, k as int) =~= ext.deep_view());
    inl
}

/// Renders the fact-table aggregate.
fn fact_query(
    t: &TableSql,
    cs: &Vec<CutSql>,
    cols: &String,
    hidden: &Vec<DrilldownSql>,
    mea1: &String,
) -> (r: String)
    ensures
        r@ == "select "@ + cols@ + opt_part(hidden@.len() > 0, ", "@ + join_seq(drill_col_texts(hidden@), ", "@)) + ", "@
            + mea1@ + " from "@ + t.name@ + opt_part(cs@.len() > 0, " where "@ + join_seq(cut_clauses(cs@, *t), " and "@))
            + " group by "@ + cols@ + opt_part(hidden@.len() > 0, ", "@ + join_seq(drill_col_texts(hidden@), ", "@)),
{
    let ht = drill_texts(hidden);
    let hj = join_strings(&ht, ", ");
    let mut hid = String::new();
    if hidden.len() > 0 {
        hid.append(", ");
        hid.append(hj.as_str());
    }
    assert(hid@ =~= opt_part(hidden@.len() > 0, ", "@ + join_seq(drill_col_texts(hidden@), ", "@)));
    let mut wh = String::new();
    if cs.len() > 0 {
        let cts = cut_clause_texts(cs, t);
        let cj = join_strings(&cts, " and ");
        wh.append(" where ");
        wh.append(cj.as_str());
    }
    assert(wh@ =~= opt_part(cs@.len() > 0, " where "@ + join_seq(cut_clauses(cs@, *t), " and "@)));
    let mut f = String::from_str("select ");
    f.append(cols.as_str());
    f.append(hid.as_str());
    f.append(", ");
    f.append(mea1.as_str());
    f.append(" from ");
    f.append(t.name.as_str());
    f.append(wh.as_str());
    f.append(" group by ");
    f.append(cols.as_str());
    f.append(hid.as_str());
    f
}

/// The multi-pass aggregation query for a bound query, and the final
/// drilldown column list.
///
/// The fact table is aggregated first, filtered by all cuts; each drilldown
/// on another table then joins its dimension subquery on its foreign key, in
/// request order except that the one keyed on the fact table's primary key
/// joins first; the outcome is re-aggregated over all drilldown columns.
/// Hidden drilldowns group the fact query without being carried up.
pub fn primary_agg(
    table: &TableSql,
    cuts: &Vec<CutSql>,
    drills: &Vec<DrilldownSql>,
    meas: &Vec<MeasureSql>,
    hidden_drills: &Vec<DrilldownSql>,
) -> (r: (String, String))
    requires
        meas@.len() < u64::MAX / 4,
    ensures
        r.0@ == primary_agg_text(*table, cuts@, drills@, meas@, hidden_drills@),
        r.1@ == join_seq(drill_col_texts(drills@), ", "@),
{
    let (inl, ext) = split_drills(drills, table);
    let ordered = order_for_join(drills, &ext, table);
    let ghost dims = pick(drills@, ordered@);
    assert(dims == join_order(external_drills(drills@, *table), *table));
    let fcols = fact_columns(drills, &inl, &ordered);
    let cols = join_strings(&fcols, ", ");
    assert(cols@ == fact_dim_cols(drills@, *table));
    let (pass_one, sel, pass_two) = measure_texts(meas);
    let mea1 = join_strings(&pass_one, ", ");
    let sel_join = join_strings(&sel, ", ");
    let fact = fact_query(table, cuts, &cols, hidden_drills, &mea1);
    assert(fact@ == fact_query_text(*table, cuts@, drills@, meas@, hidden_drills@));

    let mut acc: Vec<String> = Vec::new();
    acc.push(cols.clone());
    let mut sub = fact;
    let mut k: usize = 0;
    assert(dims.subrange(0, 0) =~= Seq::<DrilldownSql>::empty());
    assert(acc.deep_view() =~= carried_cols(cols@, dims.subrange(0, 0)));
    while k < ordered.len()
        invariant
            k <= ordered.len(),
            forall|j: int| 0 <= j < ordered@.len() ==> ordered@[j] < drills@.len(),
            dims == pick(drills@, ordered@),
            acc.deep_view() =~= carried_cols(cols@, dims.subrange(0, k as int)),
            sub@ == star_join(fact@, cols@, dims.subrange(0, k as int), sel_join@),
        decreases ordered.len() - k,
    {
        let d = &drills[ordered[k]];
        let x = d.col_string();
        let ghost before = acc.deep_view();
        acc.push(x);
        proof {
            let s = dims.subrange(0, k as int + 1);
            assert(s.drop_last() =~= dims.subrange(0, k as int));
            assert(s.last() == *d);
            assert(acc.deep_view() =~= before.push(x@));
            assert(drill_col_texts(s) =~= drill_col_texts(dims.subrange(0, k as int)).push(x@));
            assert(acc.deep_view() =~= carried_cols(cols@, s));
        }
        let dq = dim_subquery(d);
        let acc_text = join_strings(&acc, ", ");
        let mut nsub = String::from_str("select ");
        nsub.append(acc_text.as_str());
        nsub.append(", ");
        nsub.append(sel_join.as_str());
        nsub.append(" from (");
        nsub.append(dq.as_str());
        nsub.append(") all inner join (");
        nsub.append(sub.as_str());
        nsub.append(") using ");
        nsub.append(d.foreign_key.as_str());
        sub = nsub;
        k = k + 1;
    }
    assert(dims.subrange(0, k as int) =~= dims);
    let dtexts = drill_texts(drills);
    let final_cols = join_strings(&dtexts, ", ");
    let fin = join_strings(&pass_two, ", ");
    let mut q = String::from_str("select ");
    q.append(final_cols.as_str());
    q.append(", ");
    q.append(fin.as_str());
    q.append(" from (");
    q.append(sub.as_str());
    q.append(") group by ");
    q.append(final_cols.as_str());
    (q, final_cols)
}

} // verus!
