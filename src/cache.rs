//! The per-cube metadata cache: time-level values, short-name maps, and the
//! parent, children and neighbour maps of each level.
use vstd::prelude::*;
use crate::names::{LevelName, LevelNameView, PropertyName, QueryError};
use crate::schema::{
    Cube, Dimension, Hierarchy, InlineRow, InlineTable, Level, Property, RowValue, first_index, opt_index,
    lemma_first_index,
};
use crate::config::{LogicLayerConfig, override_name};
use crate::resolver::{pair_keys, pairs_view, set_pair, set_pair_exec};
use crate::text::{decimal, decimal_text, parse_u32, parse_u32_spec, split_on, split_seq, text_eq};

verus! {

// ---------------------------------------------------------------------------
// Time
// ---------------------------------------------------------------------------

#[derive(Debug, Clone, Copy, PartialEq, Eq, Structural)]
pub enum TimeValue {
    First,
    Last,
    Value(u32),
}

#[derive(Debug, Clone, Copy, PartialEq, Eq, Structural)]
pub enum TimePrecision {
    Year,
    Quarter,
    Month,
    Week,
    Day,
}

/// A time cut: a precision and which of its values.
#[derive(Debug, Clone, Copy, PartialEq, Eq, Structural)]
pub struct Time {
    pub precision: TimePrecision,
    pub value: TimeValue,
}

/// The time value a token denotes: `latest`, `oldest` or a `u32`.
pub open spec fn time_value_of(s: Seq<char>) -> Option<TimeValue> {
    if s == "latest"@ {
        Some(TimeValue::Last)
    } else if s == "oldest"@ {
        Some(TimeValue::First)
    } else {
        match parse_u32_spec(s) {
            Some(n) => Some(TimeValue::Value(n)),
            None => None,
        }
    }
}

/// The precision a token denotes.
pub open spec fn precision_of(s: Seq<char>) -> Option<TimePrecision> {
    if s == "year"@ {
        Some(TimePrecision::Year)
    } else if s == "quarter"@ {
        Some(TimePrecision::Quarter)
    } else if s == "month"@ {
        Some(TimePrecision::Month)
    } else if s == "week"@ {
        Some(TimePrecision::Week)
    } else if s == "day"@ {
        Some(TimePrecision::Day)
    } else {
        None
    }
}

pub open spec fn time_of(key: Seq<char>, value: Seq<char>) -> Option<Time> {
    match (precision_of(key), time_value_of(value)) {
        (Some(p), Some(v)) => Some(Time { precision: p, value: v }),
        _ => None,
    }
}

impl TimeValue {
    /// Parses `latest`, `oldest` or a number.
    pub fn from_str(raw: &str) -> (r: Result<TimeValue, QueryError>)
        ensures
            match time_value_of(raw@) {
                Some(v) => r == Ok::<TimeValue, QueryError>(v),
                None => r == Err::<TimeValue, QueryError>(QueryError::MalformedArgument),
            },
    {
        if text_eq(raw, "latest") {
            Ok(TimeValue::Last)
        } else if text_eq(raw, "oldest") {
            Ok(TimeValue::First)
        } else {
            match parse_u32(raw) {
                Some(n) => Ok(TimeValue::Value(n)),
                None => Err(QueryError::MalformedArgument),
            }
        }
    }
}

impl TimePrecision {
    /// Parses `year`, `quarter`, `month`, `week` or `day`.
    pub fn from_str(raw: &str) -> (r: Result<TimePrecision, QueryError>)
        ensures
            match precision_of(raw@) {
                Some(p) => r == Ok::<TimePrecision, QueryError>(p),
                None => r == Err::<TimePrecision, QueryError>(QueryError::MalformedArgument),
            },
    {
        if text_eq(raw, "year") {
            Ok(TimePrecision::Year)
        } else if text_eq(raw, "quarter") {
            Ok(TimePrecision::Quarter)
        } else if text_eq(raw, "month") {
            Ok(TimePrecision::Month)
        } else if text_eq(raw, "week") {
            Ok(TimePrecision::Week)
        } else if text_eq(raw, "day") {
            Ok(TimePrecision::Day)
        } else {
            Err(QueryError::MalformedArgument)
        }
    }
}

impl Time {
    /// Parses `<precision>.<value>`.
    pub fn from_str(raw: &str) -> (r: Result<Time, QueryError>)
        ensures
            split_seq(raw@, '.').len() != 2 ==> r == Err::<Time, QueryError>(QueryError::MalformedArgument),
            split_seq(raw@, '.').len() == 2 ==> match time_of(split_seq(raw@, '.')[0], split_seq(raw@, '.')[1]) {
                Some(t) => r == Ok::<Time, QueryError>(t),
                None => r == Err::<Time, QueryError>(QueryError::MalformedArgument),
            },
    {
        let e = split_on(raw, '.');
        if e.len() != 2 {
            return Err(QueryError::MalformedArgument);
        }
        Time::from_key_value(e[0].as_str(), e[1].as_str())
    }

    /// The time cut of a precision token and a value token.
    pub fn from_key_value(key: &str, value: &str) -> (r: Result<Time, QueryError>)
        ensures
            match time_of(key@, value@) {
                Some(t) => r == Ok::<Time, QueryError>(t),
                None => r == Err::<Time, QueryError>(QueryError::MalformedArgument),
            },
    {
        let precision = match TimePrecision::from_str(key) {
            Ok(p) => p,
            Err(e) => return Err(e),
        };
        let value = match TimeValue::from_str(value) {
            Ok(v) => v,
            Err(e) => return Err(e),
        };
        Ok(Time { precision, value })
    }
}

// ---------------------------------------------------------------------------
// Keyed lists
// ---------------------------------------------------------------------------

pub open spec fn map_keys<V>(m: Seq<(String, V)>) -> Seq<Seq<char>> {
    m.map_values(|e: (String, V)| e.0@)
}

/// The first entry with a given key.
pub fn find_key<V>(m: &Vec<(String, V)>, k: &str) -> (r: Option<usize>)
    ensures
        opt_index(r) == first_index(map_keys(m@), k@),
        r matches Some(i) ==> i < m@.len() && m@[i as int].0@ == k@,
{
    let mut i: usize = 0;
    while i < m.len()
        invariant
            i <= m.len(),
            forall|j: int| 0 <= j < i ==> map_keys(m@)[j] != k@,
        decreases m.len() - i,
    {
        if text_eq(m[i].0.as_str(), k) {
            proof {
                lemma_first_index(map_keys(m@), k@, i as int);
            }
            return Some(i);
        }
        i = i + 1;
    }
    proof {
        lemma_first_index(map_keys(m@), k@, i as int);
    }
    None
}

/// What a keyed list gives for a key: the value of its first entry.
pub open spec fn lookup<V>(m: Seq<(String, V)>, k: Seq<char>) -> Option<V> {
    let i = first_index(map_keys(m), k);
    if i < 0 {
        None
    } else {
        Some(m[i].1)
    }
}

// ---------------------------------------------------------------------------
// The cache
// ---------------------------------------------------------------------------

/// The cached relations of one level's members.
#[derive(Debug, Clone, PartialEq, Eq)]
pub struct LevelCache {
    /// Member id to the id of its parent, for a level below the top.
    pub parent_map: Option<Vec<(String, String)>>,
    /// Member id to the ids of its children, for a level above the bottom.
    pub children_map: Option<Vec<(String, Vec<String>)>>,
    /// Member id to the ids of up to two members before and after it.
    pub neighbors_map: Vec<(String, Vec<String>)>,
}

/// Member id to the levels of a dimension that hold it.
#[derive(Debug, Clone, PartialEq, Eq)]
pub struct DimensionCache {
    pub id_map: Vec<(String, Vec<LevelName>)>,
}

#[derive(Debug, Clone, PartialEq, Eq)]
pub struct CubeCache {
    pub name: String,
    pub year_level: Option<Level>,
    pub year_values: Option<Vec<String>>,
    pub quarter_level: Option<Level>,
    pub quarter_values: Option<Vec<String>>,
    pub month_level: Option<Level>,
    pub month_values: Option<Vec<String>>,
    pub week_level: Option<Level>,
    pub week_values: Option<Vec<String>>,
    pub day_level: Option<Level>,
    pub day_values: Option<Vec<String>>,
    /// Level short name to level.
    pub level_map: Vec<(String, LevelName)>,
    /// Property short name to property.
    pub property_map: Vec<(String, PropertyName)>,
    /// Level short name to its cached relations.
    pub level_caches: Vec<(String, LevelCache)>,
    /// Dimension name to its member index.
    pub dimension_caches: Vec<(String, DimensionCache)>,
}

#[derive(Debug, Clone, PartialEq, Eq)]
pub struct Cache {
    pub cubes: Vec<CubeCache>,
}

pub open spec fn cube_cache_names(cs: Seq<CubeCache>) -> Seq<Seq<char>> {
    cs.map_values(|c: CubeCache| c.name@)
}

impl Cache {
    /// The cache of the first cube with the given name.
    pub fn find_cube_info(&self, cube: &str) -> (r: Option<&CubeCache>)
        ensures
            first_index(cube_cache_names(self.cubes@), cube@) < 0 ==> r is None,
            first_index(cube_cache_names(self.cubes@), cube@) >= 0 ==> r == Some(
                &self.cubes@[first_index(cube_cache_names(self.cubes@), cube@)],
            ),
    {
        let mut i: usize = 0;
        while i < self.cubes.len()
            invariant
                i <= self.cubes.len(),
                forall|j: int| 0 <= j < i ==> cube_cache_names(self.cubes@)[j] != cube@,
            decreases self.cubes.len() - i,
        {
            if text_eq(self.cubes[i].name.as_str(), cube) {
                proof {
                    lemma_first_index(cube_cache_names(self.cubes@), cube@, i as int);
                }
                return Some(&self.cubes[i]);
            }
            i = i + 1;
        }
        proof {
            lemma_first_index(cube_cache_names(self.cubes@), cube@, i as int);
        }
        None
    }
}

/// The value a time cut picks from a level's sorted values: the first, the
/// last, or the given number.
pub open spec fn time_value_text(v: TimeValue, values: Option<Vec<String>>) -> Option<Seq<char>> {
    match values {
        None => None,
        Some(vs) => match v {
            TimeValue::First => if vs@.len() >= 1 {
                Some(vs@[0]@)
            } else {
                None
            },
            TimeValue::Last => if vs@.len() >= 1 {
                Some(vs@.last()@)
            } else {
                None
            },
            TimeValue::Value(t) => Some(decimal(t as nat)),
        },
    }
}

pub open spec fn time_level_of(c: CubeCache, p: TimePrecision) -> Option<Level> {
    match p {
        TimePrecision::Year => c.year_level,
        TimePrecision::Quarter => c.quarter_level,
        TimePrecision::Month => c.month_level,
        TimePrecision::Week => c.week_level,
        TimePrecision::Day => c.day_level,
    }
}

pub open spec fn time_values_of(c: CubeCache, p: TimePrecision) -> Option<Vec<String>> {
    match p {
        TimePrecision::Year => c.year_values,
        TimePrecision::Quarter => c.quarter_values,
        TimePrecision::Month => c.month_values,
        TimePrecision::Week => c.week_values,
        TimePrecision::Day => c.day_values,
    }
}

/// The cut a time token stands for: the level's name and the picked value.
pub open spec fn time_cut_of(c: CubeCache, t: Time) -> Option<(Seq<char>, Seq<char>)> {
    match (time_value_text(t.value, time_values_of(c, t.precision)), time_level_of(c, t.precision)) {
        (Some(v), Some(l)) => Some((l.name@, v)),
        _ => None,
    }
}

impl CubeCache {
    /// The level short name and member id that a time cut stands for; an
    /// error where the cube has no such time level or no value to pick.
    pub fn get_time_cut(&self, time: &Time) -> (r: Result<(String, String), QueryError>)
        ensures
            match time_cut_of(*self, *time) {
                Some(p) => r matches Ok(o) && o.0@ == p.0 && o.1@ == p.1,
                None => r == Err::<(String, String), QueryError>(QueryError::MalformedArgument),
            },
    {
        let (values, level) = match time.precision {
            TimePrecision::Year => (&self.year_values, &self.year_level),
            TimePrecision::Quarter => (&self.quarter_values, &self.quarter_level),
            TimePrecision::Month => (&self.month_values, &self.month_level),
            TimePrecision::Week => (&self.week_values, &self.week_level),
            TimePrecision::Day => (&self.day_values, &self.day_level),
        };
        let val = match self.get_value(time, values) {
            Some(v) => v,
            None => return Err(QueryError::MalformedArgument),
        };
        let ln = match self.get_level_name(level) {
            Some(l) => l,
            None => return Err(QueryError::MalformedArgument),
        };
        Ok((ln, val))
    }

    /// The name of a level, if there is one.
    pub fn get_level_name(&self, level: &Option<Level>) -> (r: Option<String>)
        ensures
            match *level {
                Some(l) => r matches Some(s) && s@ == l.name@,
                None => r is None,
            },
    {
        match level {
            Some(l) => Some(l.name.clone()),
            None => None,
        }
    }

    /// The value a time cut picks from a level's sorted values.
    pub fn get_value(&self, time: &Time, opt: &Option<Vec<String>>) -> (r: Option<String>)
        ensures
            match time_value_text(time.value, *opt) {
                Some(v) => r matches Some(s) && s@ == v,
                None => r is None,
            },
    {
        match opt {
            Some(v) => match time.value {
                TimeValue::First => {
                    if v.len() >= 1 {
                        Some(v[0].clone())
                    } else {
                        None
                    }
                },
                TimeValue::Last => {
                    if v.len() >= 1 {
                        Some(v[v.len() - 1].clone())
                    } else {
                        None
                    }
                },
                TimeValue::Value(t) => Some(decimal_text(t as u64)),
            },
            None => None,
        }
    }
}

// ---------------------------------------------------------------------------
// Member relations
// ---------------------------------------------------------------------------

pub open spec fn min_int(a: int, b: int) -> int {
    if a < b {
        a
    } else {
        b
    }
}

pub open spec fn max_int(a: int, b: int) -> int {
    if a > b {
        a
    } else {
        b
    }
}

/// The neighbours of the member at position `c` of a sorted id list: up to
/// two before it and up to two after it, in order.
pub open spec fn neighbor_window(ids: Seq<String>, c: int) -> Seq<String> {
    ids.subrange(max_int(0, c - 2), c) + ids.subrange(c + 1, min_int(ids.len() as int, c + 3))
}

fn copy_range(ids: &Vec<String>, from: usize, to: usize, out: &mut Vec<String>)
    requires
        from <= to <= ids@.len(),
    ensures
        final(out)@ == old(out)@ + ids@.subrange(from as int, to as int),
{
    let mut i: usize = from;
    let ghost start = out@;
    while i < to
        invariant
            from <= i <= to <= ids@.len(),
            out@ == start + ids@.subrange(from as int, i as int),
        decreases to - i,
    {
        out.push(ids[i].clone());
        assert(ids@.subrange(from as int, i as int + 1) =~= ids@.subrange(from as int, i as int).push(
            ids@[i as int],
        ));
        i = i + 1;
    }
}

/// The neighbour window of every member of a sorted id list, in list order.
pub fn get_neighbors_map(distinct_ids: &Vec<String>) -> (r: Vec<(String, Vec<String>)>)
    ensures
        r@.len() == distinct_ids@.len(),
        forall|c: int|
            0 <= c < r@.len() ==> (#[trigger] r@[c]).0 == distinct_ids@[c] && r@[c].1@ == neighbor_window(
                distinct_ids@,
                c,
            ),
{
    let n = distinct_ids.len();
    let mut r: Vec<(String, Vec<String>)> = Vec::new();
    let mut c: usize = 0;
    while c < n
        invariant
            n == distinct_ids@.len(),
            c <= n,
            r@.len() == c,
            forall|k: int|
                0 <= k < c ==> (#[trigger] r@[k]).0 == distinct_ids@[k] && r@[k].1@ == neighbor_window(
                    distinct_ids@,
                    k,
                ),
        decreases n - c,
    {
        let before: usize = if c >= 2 {
            c - 2
        } else {
            0
        };
        let after: usize = if n - c > 3 {
            c + 3
        } else {
            n
        };
        let mut w: Vec<String> = Vec::new();
        copy_range(distinct_ids, before, c, &mut w);
        copy_range(distinct_ids, c + 1, after, &mut w);
        assert(w@ =~= neighbor_window(distinct_ids@, c as int));
        r.push((distinct_ids[c].clone(), w));
        c = c + 1;
    }
    r
}

/// The pairs of two columns, row by row, up to the shorter one.
pub open spec fn zip_columns(a: Seq<String>, b: Seq<String>) -> Seq<(String, String)> {
    Seq::new(min_int(a.len() as int, b.len() as int) as nat, |i: int| (a[i], b[i]))
}

/// Key to value: a later pair for a key replaces an earlier one, keys kept
/// in order of first appearance.
pub open spec fn pair_map(ps: Seq<(String, String)>) -> Seq<(Seq<char>, Seq<char>)>
    decreases ps.len(),
{
    if ps.len() == 0 {
        Seq::empty()
    } else {
        set_pair(pair_map(ps.drop_last()), ps.last().0@, ps.last().1@)
    }
}

/// Adds a value under a key, unless the key already holds it.
pub open spec fn add_child(g: Seq<(Seq<char>, Seq<Seq<char>>)>, k: Seq<char>, v: Seq<char>) -> Seq<
    (Seq<char>, Seq<Seq<char>>),
> {
    let i = first_index(g.map_values(|e: (Seq<char>, Seq<Seq<char>>)| e.0), k);
    if i < 0 {
        g.push((k, seq![v]))
    } else if g[i].1.contains(v) {
        g
    } else {
        g.update(i, (k, g[i].1.push(v)))
    }
}

/// Key to its distinct values in order of first appearance, keys in order
/// of first appearance.
pub open spec fn group_pairs(ps: Seq<(String, String)>) -> Seq<(Seq<char>, Seq<Seq<char>>)>
    decreases ps.len(),
{
    if ps.len() == 0 {
        Seq::empty()
    } else {
        add_child(group_pairs(ps.drop_last()), ps.last().0@, ps.last().1@)
    }
}

pub open spec fn groups_view(r: Seq<(String, Vec<String>)>) -> Seq<(Seq<char>, Seq<Seq<char>>)> {
    r.map_values(|e: (String, Vec<String>)| (e.0@, e.1.deep_view()))
}

/// A key to value map built from pairs holds each key once.
pub proof fn lemma_pair_map_keys(ps: Seq<(String, String)>)
    ensures
        keys_distinct(pair_keys(pair_map(ps))),
    decreases ps.len(),
{
    if ps.len() > 0 {
        let g = pair_map(ps.drop_last());
        lemma_pair_map_keys(ps.drop_last());
        let k = ps.last().0@;
        crate::schema::lemma_first_index_found(pair_keys(g), k);
        let g2 = pair_map(ps);
        assert forall|i: int, j: int| 0 <= i < j < pair_keys(g2).len() implies pair_keys(g2)[i] != pair_keys(g2)[j] by {
            if first_index(pair_keys(g), k) < 0 {
                if j == g.len() {
                    assert(pair_keys(g)[i] == g[i].0);
                } else {
                    assert(pair_keys(g2)[i] == pair_keys(g)[i]);
                    assert(pair_keys(g2)[j] == pair_keys(g)[j]);
                }
            } else {
                assert(pair_keys(g2)[i] == pair_keys(g)[i]);
                assert(pair_keys(g2)[j] == pair_keys(g)[j]);
            }
        }
    }
}

pub open spec fn group_keys(g: Seq<(Seq<char>, Seq<Seq<char>>)>) -> Seq<Seq<char>> {
    g.map_values(|e: (Seq<char>, Seq<Seq<char>>)| e.0)
}

/// Grouping pairs by key holds each key once.
pub proof fn lemma_group_pairs_keys(ps: Seq<(String, String)>)
    ensures
        keys_distinct(group_keys(group_pairs(ps))),
    decreases ps.len(),
{
    if ps.len() > 0 {
        let g = group_pairs(ps.drop_last());
        lemma_group_pairs_keys(ps.drop_last());
        let k = ps.last().0@;
        assert(g.map_values(|e: (Seq<char>, Seq<Seq<char>>)| e.0) == group_keys(g));
        crate::schema::lemma_first_index_found(group_keys(g), k);
        let g2 = group_pairs(ps);
        assert forall|i: int, j: int| 0 <= i < j < group_keys(g2).len() implies group_keys(g2)[i] != group_keys(g2)[j] by {
            if first_index(group_keys(g), k) < 0 {
                if j == g.len() {
                    assert(group_keys(g)[i] == g[i].0);
                } else {
                    assert(group_keys(g2)[i] == group_keys(g)[i]);
                    assert(group_keys(g2)[j] == group_keys(g)[j]);
                }
            } else {
                assert(group_keys(g2)[i] == group_keys(g)[i]);
                assert(group_keys(g2)[j] == group_keys(g)[j]);
            }
        }
    }
}

/// Builds the key to value map of a list of pairs.
pub fn pair_map_of(ps: &Vec<(String, String)>) -> (r: Vec<(String, String)>)
    ensures
        pairs_view(r@) == pair_map(ps@),
{
    let mut r: Vec<(String, String)> = Vec::new();
    let mut i: usize = 0;
    assert(pairs_view(r@) =~= Seq::empty());
    while i < ps.len()
        invariant
            i <= ps.len(),
            pairs_view(r@) == pair_map(ps@.subrange(0, i as int)),
        decreases ps.len() - i,
    {
        proof {
            let s = ps@.subrange(0, i as int + 1);
            assert(s.drop_last() =~= ps@.subrange(0, i as int));
        }
        set_pair_exec(&mut r, ps[i].0.clone(), ps[i].1.clone());
        i = i + 1;
    }
    assert(ps@.subrange(0, i as int) =~= ps@);
    r
}

/// Whether `x` occurs in `v`.
pub fn text_in(v: &Vec<String>, x: &String) -> (r: bool)
    ensures
        r == v.deep_view().contains(x@),
{
    let mut i: usize = 0;
    while i < v.len()
        invariant
            i <= v.len(),
            forall|j: int| 0 <= j < i ==> v.deep_view()[j] != x@,
        decreases v.len() - i,
    {
        if v[i] == *x {
            assert(v.deep_view()[i as int] == x@);
            return true;
        }
        i = i + 1;
    }
    false
}

/// Groups the values of a list of pairs under their keys.
pub fn group_pairs_of(ps: &Vec<(String, String)>) -> (r: Vec<(String, Vec<String>)>)
    ensures
        groups_view(r@) == group_pairs(ps@),
{
    let mut r: Vec<(String, Vec<String>)> = Vec::new();
    let mut i: usize = 0;
    assert(groups_view(r@) =~= Seq::empty());
    while i < ps.len()
        invariant
            i <= ps.len(),
            groups_view(r@) == group_pairs(ps@.subrange(0, i as int)),
        decreases ps.len() - i,
    {
        proof {
            let s = ps@.subrange(0, i as int + 1);
            assert(s.drop_last() =~= ps@.subrange(0, i as int));
        }
        let k = &ps[i].0;
        let v = &ps[i].1;
        let ghost g = groups_view(r@);
        assert(map_keys(r@) =~= g.map_values(|e: (Seq<char>, Seq<Seq<char>>)| e.0));
        match find_key(&r, k.as_str()) {
            None => {
                let mut vs: Vec<String> = Vec::new();
                vs.push(v.clone());
                assert(vs.deep_view() =~= seq![v@]);
                r.push((k.clone(), vs));
                assert(groups_view(r@) =~= g.push((k@, seq![v@])));
            },
            Some(j) => {
                if !text_in(&r[j].1, v) {
                    let (key, mut vs) = r.remove(j);
                    let ghost old_vs = vs.deep_view();
                    vs.push(v.clone());
                    assert(vs.deep_view() =~= old_vs.push(v@));
                    let ghost nv = (key@, vs.deep_view());
                    r.insert(j, (key, vs));
                    assert(groups_view(r@) =~= g.update(j as int, nv));
                }
            },
        }
        i = i + 1;
    }
    assert(ps@.subrange(0, i as int) =~= ps@);
    r
}

fn zip_of(a: &Vec<String>, b: &Vec<String>) -> (r: Vec<(String, String)>)
    ensures
        r@ == zip_columns(a@, b@),
{
    let mut r: Vec<(String, String)> = Vec::new();
    let mut i: usize = 0;
    while i < a.len() && i < b.len()
        invariant
            i <= a@.len(),
            i <= b@.len(),
            r@ =~= zip_columns(a@, b@).subrange(0, i as int),
        decreases a.len() - i,
    {
        r.push((a[i].clone(), b[i].clone()));
        i = i + 1;
    }
    assert(r@ =~= zip_columns(a@, b@));
    r
}

/// Member id to parent id, from two columns of (parent, member) rows.
pub fn parent_map_from_columns(parent_column: &Vec<String>, current_column: &Vec<String>) -> (r: Vec<
    (String, String),
>)
    ensures
        pairs_view(r@) == pair_map(zip_columns(current_column@, parent_column@)),
{
    let ps = zip_of(current_column, parent_column);
    pair_map_of(&ps)
}

/// Member id to its distinct children ids, from two columns of (member,
/// child) rows.
pub fn children_map_from_columns(current_column: &Vec<String>, children_column: &Vec<String>) -> (r: Vec<
    (String, Vec<String>),
>)
    ensures
        groups_view(r@) == group_pairs(zip_columns(current_column@, children_column@)),
{
    let ps = zip_of(current_column, children_column);
    group_pairs_of(&ps)
}

// ---------------------------------------------------------------------------
// Inline tables
// ---------------------------------------------------------------------------

/// The values of column `col` in one row, unless `col` is `skip`.
pub open spec fn row_cells(rvs: Seq<RowValue>, col: Seq<char>, skip: Option<Seq<char>>) -> Seq<String>
    decreases rvs.len(),
{
    if rvs.len() == 0 {
        Seq::empty()
    } else {
        let v = rvs.last();
        if v.column@ == col && skip != Some(v.column@) {
            row_cells(rvs.drop_last(), col, skip).push(v.value)
        } else {
            row_cells(rvs.drop_last(), col, skip)
        }
    }
}

/// The values of column `col` in all rows, in order.
pub open spec fn table_cells(rows: Seq<InlineRow>, col: Seq<char>, skip: Option<Seq<char>>) -> Seq<String>
    decreases rows.len(),
{
    if rows.len() == 0 {
        Seq::empty()
    } else {
        table_cells(rows.drop_last(), col, skip) + row_cells(rows.last().row_values@, col, skip)
    }
}


/// The value of column `col` in a row: its first cell of that column.
pub open spec fn row_value(rvs: Seq<RowValue>, col: Seq<char>) -> Option<String> {
    let i = first_index(rvs.map_values(|v: RowValue| v.column@), col);
    if i < 0 {
        None
    } else {
        Some(rvs[i].value)
    }
}

/// `(key, other)` for each row that holds both columns, in row order.
pub open spec fn row_pairs(rows: Seq<InlineRow>, kcol: Seq<char>, ocol: Seq<char>) -> Seq<(String, String)>
    decreases rows.len(),
{
    if rows.len() == 0 {
        Seq::empty()
    } else {
        let r = row_pairs(rows.drop_last(), kcol, ocol);
        match (row_value(rows.last().row_values@, kcol), row_value(rows.last().row_values@, ocol)) {
            (Some(k), Some(o)) => r.push((k, o)),
            _ => r,
        }
    }
}

fn find_row_value(rvs: &Vec<RowValue>, col: &String) -> (r: Option<String>)
    ensures
        r == row_value(rvs@, col@),
{
    let ghost cols = rvs@.map_values(|v: RowValue| v.column@);
    let mut i: usize = 0;
    while i < rvs.len()
        invariant
            i <= rvs.len(),
            cols == rvs@.map_values(|v: RowValue| v.column@),
            forall|j: int| 0 <= j < i ==> cols[j] != col@,
        decreases rvs.len() - i,
    {
        if rvs[i].column == *col {
            proof {
                lemma_first_index(cols, col@, i as int);
            }
            return Some(rvs[i].value.clone());
        }
        i = i + 1;
    }
    proof {
        lemma_first_index(cols, col@, i as int);
    }
    None
}

fn inline_row_pairs(t: &InlineTable, kcol: &String, ocol: &String) -> (r: Vec<(String, String)>)
    ensures
        r@ == row_pairs(t.rows@, kcol@, ocol@),
{
    let mut r: Vec<(String, String)> = Vec::new();
    let mut i: usize = 0;
    while i < t.rows.len()
        invariant
            i <= t.rows.len(),
            r@ == row_pairs(t.rows@.subrange(0, i as int), kcol@, ocol@),
        decreases t.rows.len() - i,
    {
        proof {
            let s = t.rows@.subrange(0, i as int + 1);
            assert(s.drop_last() =~= t.rows@.subrange(0, i as int));
        }
        let rvs = &t.rows[i].row_values;
        match (find_row_value(rvs, kcol), find_row_value(rvs, ocol)) {
            (Some(k), Some(o)) => {
                r.push((k, o));
            },
            _ => {},
        }
        i = i + 1;
    }
    assert(t.rows@.subrange(0, i as int) =~= t.rows@);
    r
}

/// Member id to parent id for a level of an inline table, each row pairing
/// its own two keys.
pub fn get_inline_parent_data(parent_level: &Level, current_level: &Level, inline_table: &InlineTable) -> (r:
    Vec<(String, String)>)
    ensures
        pairs_view(r@) == pair_map(row_pairs(inline_table.rows@, current_level.key_column@, parent_level.key_column@)),
{
    let ps = inline_row_pairs(inline_table, &current_level.key_column, &parent_level.key_column);
    pair_map_of(&ps)
}

/// Member id to its distinct children ids for a level of an inline table.
pub fn get_inline_children_data(current_level: &Level, child_level: &Level, inline_table: &InlineTable) -> (r:
    Vec<(String, Vec<String>)>)
    ensures
        groups_view(r@) == group_pairs(row_pairs(inline_table.rows@, current_level.key_column@, child_level.key_column@)),
{
    let ps = inline_row_pairs(inline_table, &current_level.key_column, &child_level.key_column);
    group_pairs_of(&ps)
}

// ---------------------------------------------------------------------------
// Short names
// ---------------------------------------------------------------------------

/// The short name of a level (`prop` None) or of one of its properties: the
/// configured override (a shared-dimension override for a shared
/// dimension, a cube override otherwise), else the plain name.
pub open spec fn short_name(
    cube: Cube,
    cfg: Option<LogicLayerConfig>,
    d: Dimension,
    ln: LevelNameView,
    prop: Option<Seq<char>>,
    plain: Seq<char>,
) -> Seq<char> {
    match cfg {
        None => plain,
        Some(c) => {
            let found = if d.is_shared {
                override_name(c.shared_dimension_names@, d.name@, ln, prop)
            } else {
                override_name(c.cube_names@, cube.name@, ln, prop)
            };
            match found {
                Some(s) => s,
                None => plain,
            }
        },
    }
}

/// The short name of a level or property under the configuration.
pub fn short_name_of(
    cube: &Cube,
    cfg: &Option<LogicLayerConfig>,
    d: &Dimension,
    ln: &LevelName,
    prop: &Option<String>,
    plain: &String,
) -> (r: String)
    ensures
        r@ == short_name(*cube, *cfg, *d, ln@, prop.deep_view(), plain@),
{
    match cfg {
        None => plain.clone(),
        Some(c) => {
            let found = if d.is_shared {
                c.find_unique_shared_dimension_name(d.name.as_str(), ln, prop)
            } else {
                c.find_unique_cube_name(cube.name.as_str(), ln, prop)
            };
            match found {
                Some(s) => s,
                None => plain.clone(),
            }
        },
    }
}

pub open spec fn level_name_view(d: Dimension, h: Hierarchy, l: Level) -> LevelNameView {
    LevelNameView { dimension: d.name@, hierarchy: h.name@, level: l.name@ }
}

/// The short name of the level named `ln` in `cube`, if the cube has it.
pub fn get_unique_level_name(cube: &Cube, ll_config: &Option<LogicLayerConfig>, ln: &LevelName) -> (r: Option<String>)
    ensures
        match crate::schema::level_position(*cube, ln@) {
            Some(p) => r matches Some(s) && s@ == short_name(
                *cube,
                *ll_config,
                cube.dimensions@[p.0],
                ln@,
                None,
                ln.level@,
            ),
            None => r is None,
        },
{
    proof {
        crate::schema::lemma_level_position(*cube, ln@);
    }
    match cube.locate_level(ln) {
        Some(p) => Some(short_name_of(cube, ll_config, &cube.dimensions[p.0], ln, &None, &ln.level)),
        None => None,
    }
}

pub open spec fn entries_view(v: Seq<(String, LevelName)>) -> Seq<(Seq<char>, LevelNameView)> {
    v.map_values(|e: (String, LevelName)| (e.0@, e.1@))
}

/// The short name and identity of the first `n` levels of a hierarchy.
pub open spec fn hier_level_entries(cube: Cube, cfg: Option<LogicLayerConfig>, d: Dimension, h: Hierarchy, n: int) -> Seq<
    (Seq<char>, LevelNameView),
>
    decreases n,
{
    if n <= 0 {
        Seq::empty()
    } else {
        let l = h.levels@[n - 1];
        let ln = level_name_view(d, h, l);
        hier_level_entries(cube, cfg, d, h, n - 1).push((short_name(cube, cfg, d, ln, None, l.name@), ln))
    }
}

pub open spec fn dim_level_entries(cube: Cube, cfg: Option<LogicLayerConfig>, d: Dimension, n: int) -> Seq<
    (Seq<char>, LevelNameView),
>
    decreases n,
{
    if n <= 0 {
        Seq::empty()
    } else {
        let h = d.hierarchies@[n - 1];
        dim_level_entries(cube, cfg, d, n - 1) + hier_level_entries(cube, cfg, d, h, h.levels@.len() as int)
    }
}

/// Every level of the cube with its short name, dimension by dimension,
/// hierarchy by hierarchy, shallowest level first.
pub open spec fn cube_level_entries(cube: Cube, cfg: Option<LogicLayerConfig>, n: int) -> Seq<
    (Seq<char>, LevelNameView),
>
    decreases n,
{
    if n <= 0 {
        Seq::empty()
    } else {
        let d = cube.dimensions@[n - 1];
        cube_level_entries(cube, cfg, n - 1) + dim_level_entries(cube, cfg, d, d.hierarchies@.len() as int)
    }
}

pub open spec fn keys_distinct(keys: Seq<Seq<char>>) -> bool {
    forall|i: int, j: int| 0 <= i < j < keys.len() ==> keys[i] != keys[j]
}

fn all_keys_distinct<V>(v: &Vec<(String, V)>) -> (r: bool)
    ensures
        r == keys_distinct(map_keys(v@)),
{
    let ghost ks = map_keys(v@);
    let mut i: usize = 0;
    while i < v.len()
        invariant
            i <= v.len(),
            ks == map_keys(v@),
            forall|a: int, b: int| 0 <= a < b < ks.len() && a < i ==> ks[a] != ks[b],
        decreases v.len() - i,
    {
        let mut j: usize = i + 1;
        while j < v.len()
            invariant
                i < v.len(),
                i + 1 <= j <= v.len(),
                ks == map_keys(v@),
                forall|a: int, b: int| 0 <= a < b < ks.len() && a < i ==> ks[a] != ks[b],
                forall|b: int| i < b < j ==> ks[i as int] != ks[b],
            decreases v.len() - j,
        {
            if v[i].0 == v[j].0 {
                assert(ks[i as int] == ks[j as int]);
                return false;
            }
            j = j + 1;
        }
        i = i + 1;
    }
    true
}

/// Short name to level for every level of a cube; two levels with one short
/// name are an error.
pub fn get_level_map(cube: &Cube, ll_config: &Option<LogicLayerConfig>) -> (r: Result<Vec<(String, LevelName)>, QueryError>)
    ensures
        ({
            let es = cube_level_entries(*cube, *ll_config, cube.dimensions@.len() as int);
            &&& keys_distinct(es.map_values(|e: (Seq<char>, LevelNameView)| e.0)) <==> r is Ok
            &&& r matches Err(e) ==> e == QueryError::NameCollision
            &&& r matches Ok(v) ==> entries_view(v@) == es
        }),
{
    let mut out: Vec<(String, LevelName)> = Vec::new();
    let mut di: usize = 0;
    while di < cube.dimensions.len()
        invariant
            di <= cube.dimensions.len(),
            entries_view(out@) =~= cube_level_entries(*cube, *ll_config, di as int),
        decreases cube.dimensions.len() - di,
    {
        let d = &cube.dimensions[di];
        let ghost base_d = entries_view(out@);
        let mut hi: usize = 0;
        while hi < d.hierarchies.len()
            invariant
                hi <= d.hierarchies.len(),
                *d == cube.dimensions@[di as int],
                entries_view(out@) =~= base_d + dim_level_entries(*cube, *ll_config, *d, hi as int),
            decreases d.hierarchies.len() - hi,
        {
            let h = &d.hierarchies[hi];
            let ghost base_h = entries_view(out@);
            let mut li: usize = 0;
            while li < h.levels.len()
                invariant
                    li <= h.levels.len(),
                    *h == d.hierarchies@[hi as int],
                    entries_view(out@) =~= base_h + hier_level_entries(*cube, *ll_config, *d, *h, li as int),
                decreases h.levels.len() - li,
            {
                let l = &h.levels[li];
                let ln = LevelName::new(d.name.clone(), h.name.clone(), l.name.clone());
                let name = short_name_of(cube, ll_config, d, &ln, &None, &l.name);
                let ghost before = out@;
                out.push((name, ln));
                assert(entries_view(out@) =~= entries_view(before).push((name@, ln@)));
                li = li + 1;
            }
            hi = hi + 1;
        }
        di = di + 1;
    }
    assert(map_keys(out@) =~= cube_level_entries(*cube, *ll_config, cube.dimensions@.len() as int).map_values(
        |e: (Seq<char>, LevelNameView)| e.0,
    ));
    if all_keys_distinct(&out) {
        Ok(out)
    } else {
        Err(QueryError::NameCollision)
    }
}

pub open spec fn prop_entries_view(v: Seq<(String, PropertyName)>) -> Seq<(Seq<char>, LevelNameView, Seq<char>)> {
    v.map_values(|e: (String, PropertyName)| (e.0@, e.1.level_name@, e.1.property@))
}

pub open spec fn level_props_of(l: Level) -> Seq<Property> {
    match l.properties {
        Some(ps) => ps@,
        None => Seq::empty(),
    }
}

/// The short name and identity of the first `n` properties of a level.
pub open spec fn level_prop_entries(cube: Cube, cfg: Option<LogicLayerConfig>, d: Dimension, h: Hierarchy, l: Level, n: int) -> Seq<
    (Seq<char>, LevelNameView, Seq<char>),
>
    decreases n,
{
    if n <= 0 {
        Seq::empty()
    } else {
        let p = level_props_of(l)[n - 1];
        let ln = level_name_view(d, h, l);
        level_prop_entries(cube, cfg, d, h, l, n - 1).push(
            (short_name(cube, cfg, d, ln, Some(p.name@), p.name@), ln, p.name@),
        )
    }
}

pub open spec fn hier_prop_entries(cube: Cube, cfg: Option<LogicLayerConfig>, d: Dimension, h: Hierarchy, n: int) -> Seq<
    (Seq<char>, LevelNameView, Seq<char>),
>
    decreases n,
{
    if n <= 0 {
        Seq::empty()
    } else {
        let l = h.levels@[n - 1];
        hier_prop_entries(cube, cfg, d, h, n - 1) + level_prop_entries(cube, cfg, d, h, l, level_props_of(l).len() as int)
    }
}

pub open spec fn dim_prop_entries(cube: Cube, cfg: Option<LogicLayerConfig>, d: Dimension, n: int) -> Seq<
    (Seq<char>, LevelNameView, Seq<char>),
>
    decreases n,
{
    if n <= 0 {
        Seq::empty()
    } else {
        let h = d.hierarchies@[n - 1];
        dim_prop_entries(cube, cfg, d, n - 1) + hier_prop_entries(cube, cfg, d, h, h.levels@.len() as int)
    }
}

/// Every property of the cube with its short name, in schema order.
pub open spec fn cube_prop_entries(cube: Cube, cfg: Option<LogicLayerConfig>, n: int) -> Seq<
    (Seq<char>, LevelNameView, Seq<char>),
>
    decreases n,
{
    if n <= 0 {
        Seq::empty()
    } else {
        let d = cube.dimensions@[n - 1];
        cube_prop_entries(cube, cfg, n - 1) + dim_prop_entries(cube, cfg, d, d.hierarchies@.len() as int)
    }
}

/// Short name to property for every property of a cube; two properties with
/// one short name are an error.
pub fn get_property_map(cube: &Cube, ll_config: &Option<LogicLayerConfig>) -> (r: Result<Vec<(String, PropertyName)>, QueryError>)
    ensures
        ({
            let es = cube_prop_entries(*cube, *ll_config, cube.dimensions@.len() as int);
            &&& keys_distinct(es.map_values(|e: (Seq<char>, LevelNameView, Seq<char>)| e.0)) <==> r is Ok
            &&& r matches Err(e) ==> e == QueryError::NameCollision
            &&& r matches Ok(v) ==> prop_entries_view(v@) == es
        }),
{
    let mut out: Vec<(String, PropertyName)> = Vec::new();
    let mut di: usize = 0;
    while di < cube.dimensions.len()
        invariant
            di <= cube.dimensions.len(),
            prop_entries_view(out@) =~= cube_prop_entries(*cube, *ll_config, di as int),
        decreases cube.dimensions.len() - di,
    {
        let d = &cube.dimensions[di];
        let ghost base_d = prop_entries_view(out@);
        let mut hi: usize = 0;
        while hi < d.hierarchies.len()
            invariant
                hi <= d.hierarchies.len(),
                *d == cube.dimensions@[di as int],
                prop_entries_view(out@) =~= base_d + dim_prop_entries(*cube, *ll_config, *d, hi as int),
            decreases d.hierarchies.len() - hi,
        {
            let h = &d.hierarchies[hi];
            let ghost base_h = prop_entries_view(out@);
            let mut li: usize = 0;
            while li < h.levels.len()
                invariant
                    li <= h.levels.len(),
                    *h == d.hierarchies@[hi as int],
                    prop_entries_view(out@) =~= base_h + hier_prop_entries(*cube, *ll_config, *d, *h, li as int),
                decreases h.levels.len() - li,
            {
                let l = &h.levels[li];
                let ghost base_l = prop_entries_view(out@);
                match &l.properties {
                    Some(props) => {
                        let mut pi: usize = 0;
                        while pi < props.len()
                            invariant
                                pi <= props.len(),
                                l.properties == Some(*props),
                                prop_entries_view(out@) =~= base_l + level_prop_entries(*cube, *ll_config, *d, *h, *l, pi as int),
                            decreases props.len() - pi,
                        {
                            let p = &props[pi];
                            let ln = LevelName::new(d.name.clone(), h.name.clone(), l.name.clone());
                            let name = short_name_of(cube, ll_config, d, &ln, &Some(p.name.clone()), &p.name);
                            let pn = PropertyName { level_name: ln, property: p.name.clone() };
                            let ghost before = out@;
                            out.push((name, pn));
                            assert(prop_entries_view(out@) =~= prop_entries_view(before).push(
                                (name@, pn.level_name@, pn.property@),
                            ));
                            pi = pi + 1;
                        }
                    },
                    None => {
                        assert(level_prop_entries(*cube, *ll_config, *d, *h, *l, 0) =~= Seq::empty());
                    },
                }
                li = li + 1;
            }
            hi = hi + 1;
        }
        di = di + 1;
    }
    assert(map_keys(out@) =~= cube_prop_entries(*cube, *ll_config, cube.dimensions@.len() as int).map_values(
        |e: (Seq<char>, LevelNameView, Seq<char>)| e.0,
    ));
    if all_keys_distinct(&out) {
        Ok(out)
    } else {
        Err(QueryError::NameCollision)
    }
}

/// Time round trip: on a cube whose year level has sorted values `vs`,
/// `year.latest` cuts to the last value, `year.oldest` to the first, and a
/// number to itself.
pub proof fn lemma_time_round_trip(c: CubeCache, n: u32)
    requires
        c.year_level is Some,
        c.year_values matches Some(vs) && vs@.len() >= 1,
    ensures
        time_cut_of(c, Time { precision: TimePrecision::Year, value: TimeValue::Last }) == Some(
            (c.year_level->Some_0.name@, c.year_values->Some_0@.last()@),
        ),
        time_cut_of(c, Time { precision: TimePrecision::Year, value: TimeValue::First }) == Some(
            (c.year_level->Some_0.name@, c.year_values->Some_0@[0]@),
        ),
        time_cut_of(c, Time { precision: TimePrecision::Year, value: TimeValue::Value(n) }) == Some(
            (c.year_level->Some_0.name@, decimal(n as nat)),
        ),
{
}

/// A cube without a level for a precision has no time cut for it.
pub proof fn lemma_time_cut_needs_level(c: CubeCache, t: Time)
    requires
        time_level_of(c, t.precision) is None,
    ensures
        time_cut_of(c, t) is None,
{
}

/// Neighbour window: on sorted keys `[a, b, c, d, e]` the neighbours of `c`
/// are `[a, b, d, e]`, of `a` are `[b, c]` and of `e` are `[c, d]`.
pub proof fn lemma_neighbor_window_five(ids: Seq<String>)
    requires
        ids.len() == 5,
    ensures
        neighbor_window(ids, 2) == seq![ids[0], ids[1], ids[3], ids[4]],
        neighbor_window(ids, 0) == seq![ids[1], ids[2]],
        neighbor_window(ids, 4) == seq![ids[2], ids[3]],
{
    assert(neighbor_window(ids, 2) =~= seq![ids[0], ids[1], ids[3], ids[4]]);
    assert(neighbor_window(ids, 0) =~= seq![ids[1], ids[2]]);
    assert(neighbor_window(ids, 4) =~= seq![ids[2], ids[3]]);
}

} // verus!
