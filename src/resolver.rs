//! The logic-layer resolver: turns a permissive request into internal
//! queries and a header-rename map.
use vstd::prelude::*;
use crate::cache::{CubeCache, LevelCache, Time, time_cut_of, time_of, find_key, map_keys, lookup};
use crate::config::{LogicLayerConfig, named_set_value};
use crate::names::{LevelName, LevelNameView, PropertyName, QueryError, copy_level_names, copy_texts};
use crate::query::{Cut, GrowthQuery, PostAggregation, Query, RateQuery, RcaQuery, SortDirection, TopQuery};
use crate::text::{parse_u32, parse_u32_spec, text_eq};
use crate::schema::{
    Cube, DimensionType, Level, first_index, level_position, hierarchy_at, lemma_level_position,
};
use crate::text::{join_seq, join_strings, split_on, split_seq};
use crate::schema::Property;

verus! {

/// A permissive request, as its parameters arrive.
#[derive(Debug, Clone, PartialEq, Eq)]
pub struct LogicLayerQueryOpt {
    pub cube: String,
    pub drilldowns: Option<String>,
    /// Every other parameter: a level or dimension short name and its
    /// comma-separated cut values, keys distinct.
    pub cuts: Vec<(String, String)>,
    pub time: Option<String>,
    pub measures: Option<String>,
    pub properties: Option<String>,
    pub filters: Option<String>,
    pub parents: Option<bool>,
    pub top: Option<String>,
    pub top_where: Option<String>,
    pub sort: Option<String>,
    pub limit: Option<String>,
    pub growth: Option<String>,
    pub rca: Option<String>,
    pub debug: Option<bool>,
    pub exclude_default_members: Option<bool>,
    pub locale: Option<String>,
    pub sparse: Option<bool>,
    pub rate: Option<String>,
}

/// The state after reading some characters of a bracketed list: inside
/// brackets or not, the current item, and the finished items.
pub open spec fn args_state(s: Seq<char>) -> (bool, Seq<char>, Seq<Seq<char>>)
    decreases s.len(),
{
    if s.len() == 0 {
        (false, Seq::empty(), Seq::empty())
    } else {
        let (open, cur, acc) = args_state(s.drop_last());
        let c = s.last();
        if c == '[' {
            (true, cur, acc)
        } else if c == ']' {
            (false, cur, acc)
        } else if c == ',' {
            if open {
                (open, cur.push(c), acc)
            } else {
                (open, Seq::empty(), acc.push(cur))
            }
        } else {
            (open, cur.push(c), acc)
        }
    }
}

/// The items of a comma-separated list in which commas inside `[...]` are
/// literal and the brackets themselves are dropped; an empty last item is
/// dropped.
pub open spec fn split_args(s: Seq<char>) -> Seq<Seq<char>> {
    let (open, cur, acc) = args_state(s);
    if cur.len() >= 1 {
        acc.push(cur)
    } else {
        acc
    }
}

impl LogicLayerQueryOpt {
    /// Splits a bracket-aware comma-separated list.
    pub fn deserialize_args(arg: &str) -> (r: Vec<String>)
        ensures
            r.deep_view() == split_args(arg@),
    {
        let n = arg.unicode_len();
        let mut open = false;
        let mut cur = String::new();
        let mut acc: Vec<String> = Vec::new();
        let mut i: usize = 0;
        while i < n
            invariant
                n == arg@.len(),
                i <= n,
                (open, cur@, acc.deep_view()) == args_state(arg@.subrange(0, i as int)),
            decreases n - i,
        {
            let c = arg.get_char(i);
            proof {
                let s = arg@.subrange(0, i as int + 1);
                assert(s.drop_last() =~= arg@.subrange(0, i as int));
                assert(s.last() == c);
            }
            if c == '[' {
                open = true;
            } else if c == ']' {
                open = false;
            } else if c == ',' && !open {
                let ghost before = acc.deep_view();
                acc.push(cur);
                assert(acc.deep_view() =~= before.push(cur@));
                cur = String::new();
            } else {
                let ch = arg.substring_char(i, i + 1);
                let ghost old_cur = cur@;
                cur.append(ch);
                assert(cur@ =~= old_cur.push(c));
            }
            i = i + 1;
        }
        assert(arg@.subrange(0, n as int) =~= arg@);
        if cur.unicode_len() >= 1 {
            let ghost before = acc.deep_view();
            acc.push(cur);
            assert(acc.deep_view() =~= before.push(cur@));
        }
        acc
    }
}

// ---------------------------------------------------------------------------
// Cut cleanup
// ---------------------------------------------------------------------------

pub open spec fn pairs_view(m: Seq<(String, String)>) -> Seq<(Seq<char>, Seq<char>)> {
    m.map_values(|e: (String, String)| (e.0@, e.1@))
}

pub open spec fn pair_keys(m: Seq<(Seq<char>, Seq<char>)>) -> Seq<Seq<char>> {
    m.map_values(|e: (Seq<char>, Seq<char>)| e.0)
}

/// Sets the value of a key: replaces the first entry with it, else appends.
pub open spec fn set_pair(m: Seq<(Seq<char>, Seq<char>)>, k: Seq<char>, v: Seq<char>) -> Seq<(Seq<char>, Seq<char>)> {
    let i = first_index(pair_keys(m), k);
    if i < 0 {
        m.push((k, v))
    } else {
        m.update(i, (k, v))
    }
}

/// The cut map after injecting the cuts of the time tokens, from the first.
pub open spec fn with_time_cuts(
    c: CubeCache,
    m: Seq<(Seq<char>, Seq<char>)>,
    tokens: Seq<Seq<char>>,
) -> Result<Seq<(Seq<char>, Seq<char>)>, QueryError>
    decreases tokens.len(),
{
    if tokens.len() == 0 {
        Ok(m)
    } else {
        match with_time_cuts(c, m, tokens.drop_last()) {
            Err(e) => Err(e),
            Ok(m2) => {
                let tc = split_seq(tokens.last(), '.');
                if tc.len() != 2 {
                    Err(QueryError::MalformedArgument)
                } else {
                    match time_of(tc[0], tc[1]) {
                        None => Err(QueryError::MalformedArgument),
                        Some(t) => match time_cut_of(c, t) {
                            None => Err(QueryError::MalformedArgument),
                            Some(p) => Ok(set_pair(m2, p.0, p.1)),
                        },
                    }
                }
            },
        }
    }
}

/// A cut's values after named-set substitution of each value.
pub open spec fn substituted_values(cfg: Option<LogicLayerConfig>, key: Seq<char>, values: Seq<char>) -> Seq<char> {
    if values.len() == 0 {
        values
    } else {
        match cfg {
            None => values,
            Some(c) => join_seq(
                split_seq(values, ',').map_values(|v: Seq<char>| named_set_value(c.named_sets@, key, v)),
                ","@,
            ),
        }
    }
}

/// The cleaned cut map: time cuts injected, then named sets substituted.
pub open spec fn cleaned_cuts(
    opt: LogicLayerQueryOpt,
    c: CubeCache,
    cfg: Option<LogicLayerConfig>,
) -> Result<Seq<(Seq<char>, Seq<char>)>, QueryError> {
    let base = pairs_view(opt.cuts@);
    let timed = match opt.time {
        None => Ok(base),
        Some(t) => with_time_cuts(c, base, split_seq(t@, ',')),
    };
    match timed {
        Err(e) => Err(e),
        Ok(m) => Ok(m.map_values(|e: (Seq<char>, Seq<char>)| (e.0, substituted_values(cfg, e.0, e.1)))),
    }
}

/// Sets the value of a key in a keyed list of texts.
pub fn set_pair_exec(m: &mut Vec<(String, String)>, k: String, v: String)
    ensures
        pairs_view(final(m)@) == set_pair(pairs_view(old(m)@), k@, v@),
{
    let ghost pv = pairs_view(m@);
    assert(map_keys(m@) =~= pair_keys(pv));
    match find_key(m, k.as_str()) {
        Some(i) => {
            let ghost kv = (k@, v@);
            m.set(i, (k, v));
            assert(pairs_view(m@) =~= pv.update(i as int, kv));
        },
        None => {
            let ghost kv = (k@, v@);
            m.push((k, v));
            assert(pairs_view(m@) =~= pv.push(kv));
        },
    }
}

fn substitute_values(cfg: &Option<LogicLayerConfig>, key: &String, values: &String) -> (r: String)
    ensures
        r@ == substituted_values(*cfg, key@, values@),
{
    if values.unicode_len() == 0 {
        return values.clone();
    }
    match cfg {
        None => {
            assert(substituted_values(*cfg, key@, values@) == values@);
            values.clone()
        },
        Some(c) => {
            let parts = split_on(values.as_str(), ',');
            let mut out: Vec<String> = Vec::new();
            let mut i: usize = 0;
            while i < parts.len()
                invariant
                    i <= parts.len(),
                    out.deep_view() =~= parts.deep_view().map_values(
                        |v: Seq<char>| named_set_value(c.named_sets@, key@, v),
                    ).subrange(0, i as int),
                decreases parts.len() - i,
            {
                let x = c.substitute_cut(key.as_str(), parts[i].as_str());
                let ghost before = out.deep_view();
                out.push(x);
                assert(out.deep_view() =~= before.push(x@));
                i = i + 1;
            }
            assert(out.deep_view() =~= split_seq(values@, ',').map_values(
                |v: Seq<char>| named_set_value(c.named_sets@, key@, v),
            ));
            join_strings(&out, ",")
        },
    }
}

/// Injects the time cuts and substitutes named sets in a request's cuts.
pub fn clean_cuts_map(
    agg_query_opt: &LogicLayerQueryOpt,
    cube_cache: &CubeCache,
    ll_config: &Option<LogicLayerConfig>,
) -> (r: Result<Vec<(String, String)>, QueryError>)
    ensures
        match cleaned_cuts(*agg_query_opt, *cube_cache, *ll_config) {
            Err(e) => r == Err::<Vec<(String, String)>, QueryError>(e),
            Ok(m) => r matches Ok(v) && pairs_view(v@) == m,
        },
{
    let mut cuts: Vec<(String, String)> = Vec::new();
    let mut i: usize = 0;
    while i < agg_query_opt.cuts.len()
        invariant
            i <= agg_query_opt.cuts.len(),
            pairs_view(cuts@) =~= pairs_view(agg_query_opt.cuts@).subrange(0, i as int),
        decreases agg_query_opt.cuts.len() - i,
    {
        let e = &agg_query_opt.cuts[i];
        let ghost before = pairs_view(cuts@);
        cuts.push((e.0.clone(), e.1.clone()));
        assert(pairs_view(cuts@) =~= before.push((e.0@, e.1@)));
        assert(pairs_view(agg_query_opt.cuts@).subrange(0, i as int + 1) =~= pairs_view(agg_query_opt.cuts@).subrange(0, i as int).push((e.0@, e.1@)));
        i = i + 1;
    }
    assert(pairs_view(cuts@) =~= pairs_view(agg_query_opt.cuts@));
    assert(pairs_view(cuts@) == pairs_view(agg_query_opt.cuts@));
    match &agg_query_opt.time {
        None => {},
        Some(t) => {
            let tokens = split_on(t.as_str(), ',');
            let ghost base = pairs_view(cuts@);
            let mut k: usize = 0;
            assert(tokens.deep_view().subrange(0, 0) =~= Seq::<Seq<char>>::empty());
            while k < tokens.len()
                invariant
                    k <= tokens.len(),
                    agg_query_opt.time == Some(*t),
                    tokens.deep_view() == split_seq(t@, ','),
                    base == pairs_view(agg_query_opt.cuts@),
                    with_time_cuts(*cube_cache, base, tokens.deep_view().subrange(0, k as int)) == Ok::<
                        Seq<(Seq<char>, Seq<char>)>,
                        QueryError,
                    >(pairs_view(cuts@)),
                decreases tokens.len() - k,
            {
                let ghost s = tokens.deep_view().subrange(0, k as int + 1);
                assert(s.drop_last() =~= tokens.deep_view().subrange(0, k as int));
                proof {
                    lemma_with_time_cuts_err(*cube_cache, base, tokens.deep_view(), k as int + 1);
                }
                assert(s.last() == tokens@[k as int]@);
                let tc = split_on(tokens[k].as_str(), '.');
                if tc.len() != 2 {
                    assert(with_time_cuts(*cube_cache, base, s) is Err);
                    return Err(QueryError::MalformedArgument);
                }
                let time = match Time::from_key_value(tc[0].as_str(), tc[1].as_str()) {
                    Ok(time) => time,
                    Err(e) => {
                        assert(with_time_cuts(*cube_cache, base, s) is Err);
                        return Err(e);
                    },
                };
                let (cut, cut_value) = match cube_cache.get_time_cut(&time) {
                    Ok(p) => p,
                    Err(e) => {
                        assert(with_time_cuts(*cube_cache, base, s) is Err);
                        return Err(e);
                    },
                };
                set_pair_exec(&mut cuts, cut, cut_value);
                k = k + 1;
            }
            assert(tokens.deep_view().subrange(0, k as int) =~= tokens.deep_view());
        },
    }
    let ghost timed = pairs_view(cuts@);
    let mut out: Vec<(String, String)> = Vec::new();
    let mut j: usize = 0;
    while j < cuts.len()
        invariant
            j <= cuts.len(),
            timed == pairs_view(cuts@),
            pairs_view(out@) =~= timed.map_values(
                |e: (Seq<char>, Seq<char>)| (e.0, substituted_values(*ll_config, e.0, e.1)),
            ).subrange(0, j as int),
        decreases cuts.len() - j,
    {
        let e = &cuts[j];
        let v = substitute_values(ll_config, &e.0, &e.1);
        let ghost before = pairs_view(out@);
        out.push((e.0.clone(), v));
        assert(pairs_view(out@) =~= before.push((e.0@, v@)));
        assert(timed[j as int] == (e.0@, e.1@));
        j = j + 1;
    }
    assert(timed.map_values(
        |e: (Seq<char>, Seq<char>)| (e.0, substituted_values(*ll_config, e.0, e.1)),
    ).subrange(0, j as int) =~= timed.map_values(
        |e: (Seq<char>, Seq<char>)| (e.0, substituted_values(*ll_config, e.0, e.1)),
    ));
    assert(cleaned_cuts(*agg_query_opt, *cube_cache, *ll_config) == Ok::<Seq<(Seq<char>, Seq<char>)>, QueryError>(timed.map_values(
        |e: (Seq<char>, Seq<char>)| (e.0, substituted_values(*ll_config, e.0, e.1)),
    )));
    Ok(out)
}

proof fn lemma_with_time_cuts_err(c: CubeCache, m: Seq<(Seq<char>, Seq<char>)>, tokens: Seq<Seq<char>>, i: int)
    requires
        0 <= i <= tokens.len(),
    ensures
        with_time_cuts(c, m, tokens.subrange(0, i)) is Err ==> with_time_cuts(c, m, tokens)
            == with_time_cuts(c, m, tokens.subrange(0, i)),
    decreases tokens.len() - i,
{
    if i < tokens.len() {
        lemma_with_time_cuts_err(c, m, tokens, i + 1);
        let s = tokens.subrange(0, i + 1);
        assert(s.drop_last() =~= tokens.subrange(0, i));
    } else {
        assert(tokens.subrange(0, i) =~= tokens);
    }
}

// ---------------------------------------------------------------------------
// Cut resolution
// ---------------------------------------------------------------------------

/// What the geo-service answered for the elements asked about, when it is
/// configured.
#[derive(Debug, Clone, PartialEq, Eq)]
pub struct GeoNeighbors {
    pub configured: bool,
    pub answers: Vec<(String, Vec<String>)>,
}

/// The position of the first occurrence of `x`, or -1.
pub open spec fn first_of<A>(s: Seq<A>, x: A) -> int
    decreases s.len(),
{
    if s.len() == 0 {
        -1
    } else if s[0] == x {
        0
    } else {
        let r = first_of(s.drop_first(), x);
        if r < 0 {
            -1
        } else {
            r + 1
        }
    }
}

proof fn lemma_first_of<A>(s: Seq<A>, x: A, i: int)
    requires
        0 <= i <= s.len(),
        forall|j: int| 0 <= j < i ==> s[j] != x,
        i < s.len() ==> s[i] == x,
    ensures
        first_of(s, x) == (if i < s.len() {
            i
        } else {
            -1
        }),
    decreases i,
{
    if s.len() > 0 && i > 0 {
        let rest = s.drop_first();
        assert forall|j: int| 0 <= j < i - 1 implies rest[j] != x by {
            assert(rest[j] == s[j + 1]);
        }
        lemma_first_of(rest, x, i - 1);
    }
}

pub type EntryView = (LevelNameView, Seq<Seq<char>>);

pub type DimCutsView = Seq<(Seq<char>, Seq<EntryView>)>;

pub type HeaderView = Seq<(Seq<char>, Seq<char>)>;

/// Cuts grouped by dimension, then by level, in order of first mention.
pub type DimensionCuts = Vec<(String, Vec<(LevelName, Vec<String>)>)>;

pub open spec fn entries_view(es: Seq<(LevelName, Vec<String>)>) -> Seq<EntryView> {
    es.map_values(|e: (LevelName, Vec<String>)| (e.0@, e.1.deep_view()))
}

pub open spec fn dim_cuts_view(m: Seq<(String, Vec<(LevelName, Vec<String>)>)>) -> DimCutsView {
    m.map_values(|d: (String, Vec<(LevelName, Vec<String>)>)| (d.0@, entries_view(d.1@)))
}

pub open spec fn entry_levels(es: Seq<EntryView>) -> Seq<LevelNameView> {
    es.map_values(|e: EntryView| e.0)
}

pub open spec fn dim_keys(m: DimCutsView) -> Seq<Seq<char>> {
    m.map_values(|d: (Seq<char>, Seq<EntryView>)| d.0)
}

/// Adds member ids to a level's cut: its dimension's group and its level's
/// entry are created on first mention; ids are appended.
pub open spec fn add_entry(m: DimCutsView, ln: LevelNameView, els: Seq<Seq<char>>) -> DimCutsView {
    let di = first_index(dim_keys(m), ln.dimension);
    if di < 0 {
        m.push((ln.dimension, seq![(ln, els)]))
    } else {
        let es = m[di].1;
        let li = first_of(entry_levels(es), ln);
        let es2 = if li < 0 {
            es.push((ln, els))
        } else {
            es.update(li, (ln, es[li].1 + els))
        };
        m.update(di, (m[di].0, es2))
    }
}

pub open spec fn add_entries(m: DimCutsView, es: Seq<EntryView>) -> DimCutsView
    decreases es.len(),
{
    if es.len() == 0 {
        m
    } else {
        add_entry(add_entries(m, es.drop_last()), es.last().0, es.last().1)
    }
}

/// Adds a header rename unless its key already has one.
pub open spec fn insert_absent(h: HeaderView, k: Seq<char>, v: Seq<char>) -> HeaderView {
    if first_index(pair_keys(h), k) < 0 {
        h.push((k, v))
    } else {
        h
    }
}

pub open spec fn insert_all(h: HeaderView, hs: HeaderView) -> HeaderView
    decreases hs.len(),
{
    if hs.len() == 0 {
        h
    } else {
        let h2 = insert_all(h, hs.drop_last());
        insert_absent(h2, hs.last().0, hs.last().1)
    }
}

/// Adds member ids to the cut of a level.
pub fn add_cut_entries(dimension_cuts_map: &mut DimensionCuts, level_name: &LevelName, elements: &Vec<String>)
    ensures
        dim_cuts_view(final(dimension_cuts_map)@) == add_entry(
            dim_cuts_view(old(dimension_cuts_map)@),
            level_name@,
            elements.deep_view(),
        ),
{
    let ghost m = dim_cuts_view(dimension_cuts_map@);
    assert(crate::cache::map_keys(dimension_cuts_map@) =~= dim_keys(m));
    match find_key(dimension_cuts_map, level_name.dimension.as_str()) {
        None => {
            let mut es: Vec<(LevelName, Vec<String>)> = Vec::new();
            es.push((level_name.duplicate(), crate::names::copy_texts(elements)));
            assert(entries_view(es@) =~= seq![(level_name@, elements.deep_view())]);
            dimension_cuts_map.push((level_name.dimension.clone(), es));
            assert(dim_cuts_view(dimension_cuts_map@) =~= m.push(
                (level_name.dimension@, seq![(level_name@, elements.deep_view())]),
            ));
        },
        Some(di) => {
            let (dname, mut es) = dimension_cuts_map.remove(di);
            let ghost ev = entries_view(es@);
            let mut li: usize = 0;
            let mut found = false;
            while li < es.len() && !found
                invariant
                    li <= es.len(),
                    ev == entries_view(es@),
                    found ==> li < es.len() && entry_levels(ev)[li as int] == level_name@,
                    forall|j: int| 0 <= j < li ==> entry_levels(ev)[j] != level_name@,
                decreases es.len() - li + (if found { 0int } else { 1int }),
            {
                if es[li].0.same(level_name) {
                    found = true;
                } else {
                    li = li + 1;
                }
            }
            proof {
                lemma_first_of(entry_levels(ev), level_name@, li as int);
            }
            if found {
                let ghost es0 = es@;
                let (l, mut v) = es.remove(li);
                assert(l@ == ev[li as int].0);
                assert(v.deep_view() == ev[li as int].1);
                let ghost old_v = v.deep_view();
                let mut k: usize = 0;
                while k < elements.len()
                    invariant
                        k <= elements.len(),
                        v.deep_view() =~= old_v + elements.deep_view().subrange(0, k as int),
                    decreases elements.len() - k,
                {
                    let x = elements[k].clone();
                    let ghost b = v.deep_view();
                    v.push(x);
                    assert(v.deep_view() =~= b.push(x@));
                    k = k + 1;
                }
                assert(elements.deep_view().subrange(0, k as int) =~= elements.deep_view());
                let ghost nv = (l, v);
                es.insert(li, (l, v));
                assert(es@ =~= es0.update(li as int, nv));
                assert(entries_view(es@) =~= ev.update(li as int, (level_name@, ev[li as int].1 + elements.deep_view())));
            } else {
                es.push((level_name.duplicate(), crate::names::copy_texts(elements)));
                assert(entries_view(es@) =~= ev.push((level_name@, elements.deep_view())));
            }
            let ghost ne = entries_view(es@);
            dimension_cuts_map.insert(di, (dname, es));
            assert(dim_cuts_view(dimension_cuts_map@) =~= m.update(di as int, (m[di as int].0, ne)));
        },
    }
}

/// The level a cut key and element denote, and whether the key named the
/// level itself; `None` where the key or element is unknown.
pub open spec fn key_level(c: CubeCache, key: Seq<char>, element: Seq<char>) -> Result<Option<(LevelNameView, bool)>, QueryError> {
    match lookup(c.dimension_caches@, key) {
        Some(dc) => match lookup(dc.id_map@, element) {
            None => Ok(None),
            Some(lns) => if lns@.len() > 1 {
                Err(QueryError::AmbiguousMember)
            } else if lns@.len() == 0 {
                Ok(None)
            } else {
                Ok(Some((lns@[0]@, false)))
            },
        },
        None => match lookup(c.level_map@, key) {
            Some(ln) => Ok(Some((ln@, true))),
            None => Ok(None),
        },
    }
}

fn resolve_key(c: &CubeCache, key: &String, element: &String) -> (r: Result<Option<(LevelName, bool)>, QueryError>)
    ensures
        match key_level(*c, key@, element@) {
            Err(e) => r == Err::<Option<(LevelName, bool)>, QueryError>(e),
            Ok(None) => r == Ok::<Option<(LevelName, bool)>, QueryError>(None),
            Ok(Some(p)) => r matches Ok(Some(q)) && q.0@ == p.0 && q.1 == p.1,
        },
{
    match find_key(&c.dimension_caches, key.as_str()) {
        Some(di) => {
            let dc = &c.dimension_caches[di].1;
            match find_key(&dc.id_map, element.as_str()) {
                None => Ok(None),
                Some(k) => {
                    let lns = &dc.id_map[k].1;
                    if lns.len() > 1 {
                        Err(QueryError::AmbiguousMember)
                    } else if lns.len() == 0 {
                        Ok(None)
                    } else {
                        Ok(Some((lns[0].duplicate(), false)))
                    }
                },
            }
        },
        None => match find_key(&c.level_map, key.as_str()) {
            Some(k) => Ok(Some((c.level_map[k].1.duplicate(), true))),
            None => Ok(None),
        },
    }
}

/// An operation on a cut element.
#[derive(Debug, Clone, Copy, PartialEq, Eq, Structural)]
pub enum CutOp {
    Children,
    Parents,
    Neighbors,
}

pub open spec fn cut_op_of(s: Seq<char>) -> Option<CutOp> {
    if s == "children"@ {
        Some(CutOp::Children)
    } else if s == "parents"@ {
        Some(CutOp::Parents)
    } else if s == "neighbors"@ {
        Some(CutOp::Neighbors)
    } else {
        None
    }
}

fn parse_cut_op(s: &str) -> (r: Option<CutOp>)
    ensures
        r == cut_op_of(s@),
{
    if crate::text::text_eq(s, "children") {
        Some(CutOp::Children)
    } else if crate::text::text_eq(s, "parents") {
        Some(CutOp::Parents)
    } else if crate::text::text_eq(s, "neighbors") {
        Some(CutOp::Neighbors)
    } else {
        None
    }
}

pub type Expansion = (Seq<EntryView>, HeaderView);

pub open spec fn level_map_levels(c: CubeCache) -> Seq<LevelNameView> {
    c.level_map@.map_values(|e: (String, LevelName)| e.1@)
}

/// The cached relations of a level: those stored under its short name.
pub open spec fn level_cache_of(c: CubeCache, ln: LevelNameView) -> Option<LevelCache> {
    let i = first_of(level_map_levels(c), ln);
    if i < 0 {
        None
    } else {
        lookup(c.level_caches@, c.level_map@[i].0@)
    }
}

/// The cached relations of a level, found through its short name.
pub fn find_level_cache<'a>(c: &'a CubeCache, ln: &LevelName) -> (r: Option<&'a LevelCache>)
    ensures
        match level_cache_of(*c, ln@) {
            None => r is None,
            Some(lc) => r matches Some(x) && *x == lc,
        },
{
    let ghost ls = level_map_levels(*c);
    let mut i: usize = 0;
    while i < c.level_map.len()
        invariant
            i <= c.level_map.len(),
            ls == level_map_levels(*c),
            forall|j: int| 0 <= j < i ==> ls[j] != ln@,
        decreases c.level_map.len() - i,
    {
        if c.level_map[i].1.same(ln) {
            proof {
                lemma_first_of(ls, ln@, i as int);
            }
            return match find_key(&c.level_caches, c.level_map[i].0.as_str()) {
                None => None,
                Some(k) => Some(&c.level_caches[k].1),
            };
        }
        i = i + 1;
    }
    proof {
        lemma_first_of(ls, ln@, i as int);
    }
    None
}

/// The cuts and header renames of `:parents` from the `k` shallowest
/// ancestors, deepest first: each ancestor gets the parent id of the current
/// element, which then becomes the current element; a missing link ends the
/// ascent.
pub open spec fn ascend(
    c: CubeCache,
    dim: Seq<char>,
    hier: Seq<char>,
    levels: Seq<Level>,
    k: int,
    cur_level: Seq<char>,
    cur_el: Seq<char>,
) -> Result<Expansion, QueryError>
    decreases k,
{
    if k <= 0 {
        Ok((Seq::empty(), Seq::empty()))
    } else {
        let a = levels[k - 1];
        let aln = LevelNameView { dimension: dim, hierarchy: hier, level: a.name@ };
        let hdr = seq![(a.name@, dim)];
        match level_cache_of(c, LevelNameView { dimension: dim, hierarchy: hier, level: cur_level }) {
            None => Err(QueryError::UnknownName),
            Some(lc) => match lc.parent_map {
                None => Ok((Seq::empty(), hdr)),
                Some(pm) => match lookup(pm@, cur_el) {
                    None => Ok((Seq::empty(), hdr)),
                    Some(pid) => match ascend(c, dim, hier, levels, k - 1, a.name@, pid@) {
                        Err(e) => Err(e),
                        Ok(rest) => Ok((seq![(aln, seq![pid@])] + rest.0, hdr + rest.1)),
                    },
                },
            },
        }
    }
}

/// The cuts and header renames that an element of level `ln` with an
/// operation stands for.
pub open spec fn expansion(
    cube: Cube,
    c: CubeCache,
    geo: GeoNeighbors,
    ln: LevelNameView,
    element: Seq<char>,
    op: CutOp,
) -> Result<Expansion, QueryError> {
    match level_position(cube, ln) {
        None => Err(QueryError::UnknownName),
        Some(p) => {
            let h = hierarchy_at(cube, p);
            match op {
                CutOp::Children => if p.2 + 1 >= h.levels@.len() {
                    Ok((Seq::empty(), Seq::empty()))
                } else {
                    let child = h.levels@[p.2 + 1];
                    let cln = LevelNameView { dimension: ln.dimension, hierarchy: ln.hierarchy, level: child.name@ };
                    let hdr = seq![(child.name@, ln.dimension)];
                    match level_cache_of(c, ln) {
                        None => Err(QueryError::UnknownName),
                        Some(lc) => match lc.children_map {
                            None => Ok((Seq::empty(), hdr)),
                            Some(cm) => match lookup(cm@, element) {
                                None => Ok((Seq::empty(), hdr)),
                                Some(ch) => Ok((seq![(cln, ch.deep_view())], hdr)),
                            },
                        },
                    }
                },
                CutOp::Parents => ascend(c, ln.dimension, ln.hierarchy, h.levels@, p.2, ln.level, element),
                CutOp::Neighbors => {
                    let d = cube.dimensions@[p.0];
                    if d.dim_type == DimensionType::Geo && geo.configured {
                        match lookup(geo.answers@, element) {
                            None => Err(QueryError::GeoserviceUnavailable),
                            Some(ns) => Ok((seq![(ln, ns.deep_view())], Seq::empty())),
                        }
                    } else {
                        match level_cache_of(c, ln) {
                            None => Err(QueryError::UnknownName),
                            Some(lc) => match lookup(lc.neighbors_map@, element) {
                                None => Ok((Seq::empty(), Seq::empty())),
                                Some(ns) => Ok((seq![(ln, ns.deep_view())], Seq::empty())),
                            },
                        }
                    }
                },
            }
        },
    }
}

pub open spec fn headers_view(h: Seq<(String, String)>) -> HeaderView {
    pairs_view(h)
}

/// The resolver's running state: cuts by dimension, header renames, and the
/// levels named directly by a cut key.
pub struct ResolveState {
    pub cuts: DimCutsView,
    pub headers: HeaderView,
    pub matched: Seq<LevelNameView>,
}

/// The state after one cut value of a key.
pub open spec fn step_value(
    cube: Cube,
    c: CubeCache,
    geo: GeoNeighbors,
    st: ResolveState,
    key: Seq<char>,
    value: Seq<char>,
) -> Result<ResolveState, QueryError> {
    let parts = split_seq(value, ':');
    let element = parts[0];
    match key_level(c, key, element) {
        Err(e) => Err(e),
        Ok(None) => Ok(st),
        Ok(Some((ln, by_level))) => {
            let h1 = insert_absent(st.headers, ln.level, ln.dimension);
            let m1 = if by_level {
                st.matched.push(ln)
            } else {
                st.matched
            };
            if parts.len() == 1 {
                Ok(ResolveState { cuts: add_entry(st.cuts, ln, seq![element]), headers: h1, matched: m1 })
            } else if parts.len() == 2 {
                match cut_op_of(parts[1]) {
                    None => Err(QueryError::MalformedArgument),
                    Some(op) => match expansion(cube, c, geo, ln, element, op) {
                        Err(e) => Err(e),
                        Ok(x) => Ok(
                            ResolveState {
                                cuts: add_entries(st.cuts, x.0),
                                headers: insert_all(h1, x.1),
                                matched: m1,
                            },
                        ),
                    },
                }
            } else {
                Err(QueryError::MalformedArgument)
            }
        },
    }
}

/// The state after the first `n` values of a key.
pub open spec fn step_values(
    cube: Cube,
    c: CubeCache,
    geo: GeoNeighbors,
    st: ResolveState,
    key: Seq<char>,
    values: Seq<Seq<char>>,
) -> Result<ResolveState, QueryError>
    decreases values.len(),
{
    if values.len() == 0 {
        Ok(st)
    } else {
        match step_values(cube, c, geo, st, key, values.drop_last()) {
            Err(e) => Err(e),
            Ok(s2) => step_value(cube, c, geo, s2, key, values.last()),
        }
    }
}

/// The state after the given cut entries, in order; an entry with no values
/// is passed over.
pub open spec fn step_cuts(
    cube: Cube,
    c: CubeCache,
    geo: GeoNeighbors,
    items: Seq<(Seq<char>, Seq<char>)>,
) -> Result<ResolveState, QueryError>
    decreases items.len(),
{
    if items.len() == 0 {
        Ok(ResolveState { cuts: Seq::empty(), headers: Seq::empty(), matched: Seq::empty() })
    } else {
        match step_cuts(cube, c, geo, items.drop_last()) {
            Err(e) => Err(e),
            Ok(st) => {
                let (k, v) = items.last();
                if v.len() == 0 {
                    Ok(st)
                } else {
                    step_values(cube, c, geo, st, k, split_seq(v, ','))
                }
            },
        }
    }
}

pub type Entries = Vec<(LevelName, Vec<String>)>;

pub type Headers = Vec<(String, String)>;

fn one_entry(ln: &LevelName, ids: &Vec<String>) -> (r: Entries)
    ensures
        entries_view(r@) == seq![(ln@, ids.deep_view())],
{
    let mut r: Entries = Vec::new();
    r.push((ln.duplicate(), crate::names::copy_texts(ids)));
    assert(entries_view(r@) =~= seq![(ln@, ids.deep_view())]);
    r
}

fn one_header(k: &String, v: &String) -> (r: Headers)
    ensures
        headers_view(r@) == seq![(k@, v@)],
{
    let mut r: Headers = Vec::new();
    r.push((k.clone(), v.clone()));
    assert(headers_view(r@) =~= seq![(k@, v@)]);
    r
}

fn ascend_exec(
    c: &CubeCache,
    dim: &String,
    hier: &String,
    levels: &Vec<Level>,
    k: usize,
    cur_level: &String,
    cur_el: &String,
) -> (r: Result<(Entries, Headers), QueryError>)
    requires
        k <= levels@.len(),
    ensures
        match ascend(*c, dim@, hier@, levels@, k as int, cur_level@, cur_el@) {
            Err(e) => r == Err::<(Entries, Headers), QueryError>(e),
            Ok(x) => r matches Ok(o) && entries_view(o.0@) == x.0 && headers_view(o.1@) == x.1,
        },
    decreases k,
{
    if k == 0 {
        let e: Entries = Vec::new();
        let h: Headers = Vec::new();
        assert(entries_view(e@) =~= Seq::empty());
        assert(headers_view(h@) =~= Seq::empty());
        return Ok((e, h));
    }
    let a = &levels[k - 1];
    let aln = LevelName::new(dim.clone(), hier.clone(), a.name.clone());
    let mut hdr = one_header(&a.name, dim);
    let empty: Entries = Vec::new();
    assert(entries_view(empty@) =~= Seq::empty());
    let cur_ln = LevelName::new(dim.clone(), hier.clone(), cur_level.clone());
    let lc = match find_level_cache(c, &cur_ln) {
        None => return Err(QueryError::UnknownName),
        Some(lc) => lc,
    };
    let pm = match &lc.parent_map {
        None => return Ok((empty, hdr)),
        Some(pm) => pm,
    };
    let pid = match find_key(pm, cur_el.as_str()) {
        None => return Ok((empty, hdr)),
        Some(i) => &pm[i].1,
    };
    match ascend_exec(c, dim, hier, levels, k - 1, &a.name, pid) {
        Err(e) => Err(e),
        Ok((mut es, hs)) => {
            let ghost ev = entries_view(es@);
            let mut ids: Vec<String> = Vec::new();
            ids.push(pid.clone());
            assert(ids.deep_view() =~= seq![pid@]);
            es.insert(0, (aln, ids));
            assert(entries_view(es@) =~= seq![(aln@, seq![pid@])] + ev);
            let ghost h0 = headers_view(hdr@);
            let mut j: usize = 0;
            while j < hs.len()
                invariant
                    j <= hs.len(),
                    headers_view(hdr@) =~= h0 + headers_view(hs@).subrange(0, j as int),
                decreases hs.len() - j,
            {
                let ghost b = headers_view(hdr@);
                hdr.push((hs[j].0.clone(), hs[j].1.clone()));
                assert(headers_view(hdr@) =~= b.push((hs@[j as int].0@, hs@[j as int].1@)));
                j = j + 1;
            }
            assert(headers_view(hs@).subrange(0, j as int) =~= headers_view(hs@));
            Ok((es, hdr))
        },
    }
}

/// The cuts and header renames that an element of a level with an operation
/// stands for.
pub fn expand_cut(
    cube: &Cube,
    c: &CubeCache,
    geo: &GeoNeighbors,
    ln: &LevelName,
    element: &String,
    op: CutOp,
) -> (r: Result<(Entries, Headers), QueryError>)
    ensures
        match expansion(*cube, *c, *geo, ln@, element@, op) {
            Err(e) => r == Err::<(Entries, Headers), QueryError>(e),
            Ok(x) => r matches Ok(o) && entries_view(o.0@) == x.0 && headers_view(o.1@) == x.1,
        },
{
    proof {
        lemma_level_position(*cube, ln@);
    }
    let p = match cube.locate_level(ln) {
        None => return Err(QueryError::UnknownName),
        Some(p) => p,
    };
    let levels = &cube.dimensions[p.0].hierarchies[p.1].levels;
    let empty: Entries = Vec::new();
    let no_headers: Headers = Vec::new();
    assert(entries_view(empty@) =~= Seq::empty());
    assert(headers_view(no_headers@) =~= Seq::empty());
    match op {
        CutOp::Children => {
            if levels.len() - p.2 <= 1 {
                return Ok((empty, no_headers));
            }
            let child = &levels[p.2 + 1];
            let cln = LevelName::new(ln.dimension.clone(), ln.hierarchy.clone(), child.name.clone());
            let hdr = one_header(&child.name, &ln.dimension);
            let lc = match find_level_cache(c, ln) {
                None => return Err(QueryError::UnknownName),
                Some(lc) => lc,
            };
            let cm = match &lc.children_map {
                None => return Ok((empty, hdr)),
                Some(cm) => cm,
            };
            match find_key(cm, element.as_str()) {
                None => Ok((empty, hdr)),
                Some(i) => Ok((one_entry(&cln, &cm[i].1), hdr)),
            }
        },
        CutOp::Parents => ascend_exec(c, &ln.dimension, &ln.hierarchy, levels, p.2, &ln.level, element),
        CutOp::Neighbors => {
            let d = &cube.dimensions[p.0];
            let is_geo = match d.dim_type {
                DimensionType::Geo => true,
                _ => false,
            };
            if is_geo && geo.configured {
                match find_key(&geo.answers, element.as_str()) {
                    None => Err(QueryError::GeoserviceUnavailable),
                    Some(i) => Ok((one_entry(ln, &geo.answers[i].1), no_headers)),
                }
            } else {
                let lc = match find_level_cache(c, ln) {
                    None => return Err(QueryError::UnknownName),
                    Some(lc) => lc,
                };
                match find_key(&lc.neighbors_map, element.as_str()) {
                    None => Ok((empty, no_headers)),
                    Some(i) => Ok((one_entry(ln, &lc.neighbors_map[i].1), no_headers)),
                }
            }
        },
    }
}

fn insert_header(h: &mut Headers, k: &String, v: &String)
    ensures
        headers_view(final(h)@) == insert_absent(headers_view(old(h)@), k@, v@),
{
    let ghost hv = headers_view(h@);
    assert(map_keys(h@) =~= pair_keys(hv));
    match find_key(h, k.as_str()) {
        Some(_) => {},
        None => {
            h.push((k.clone(), v.clone()));
            assert(headers_view(h@) =~= hv.push((k@, v@)));
        },
    }
}

fn insert_headers(h: &mut Headers, hs: &Headers)
    ensures
        headers_view(final(h)@) == insert_all(headers_view(old(h)@), headers_view(hs@)),
{
    let ghost h0 = headers_view(h@);
    let mut j: usize = 0;
    while j < hs.len()
        invariant
            j <= hs.len(),
            headers_view(h@) == insert_all(h0, headers_view(hs@).subrange(0, j as int)),
        decreases hs.len() - j,
    {
        proof {
            let s = headers_view(hs@).subrange(0, j as int + 1);
            assert(s.drop_last() =~= headers_view(hs@).subrange(0, j as int));
        }
        insert_header(h, &hs[j].0, &hs[j].1);
        j = j + 1;
    }
    assert(headers_view(hs@).subrange(0, j as int) =~= headers_view(hs@));
}

fn add_all_entries(m: &mut DimensionCuts, es: &Entries)
    ensures
        dim_cuts_view(final(m)@) == add_entries(dim_cuts_view(old(m)@), entries_view(es@)),
{
    let ghost m0 = dim_cuts_view(m@);
    let mut j: usize = 0;
    while j < es.len()
        invariant
            j <= es.len(),
            dim_cuts_view(m@) == add_entries(m0, entries_view(es@).subrange(0, j as int)),
        decreases es.len() - j,
    {
        proof {
            let s = entries_view(es@).subrange(0, j as int + 1);
            assert(s.drop_last() =~= entries_view(es@).subrange(0, j as int));
        }
        add_cut_entries(m, &es[j].0, &es[j].1);
        j = j + 1;
    }
    assert(entries_view(es@).subrange(0, j as int) =~= entries_view(es@));
}

pub open spec fn levels_view(v: Seq<LevelName>) -> Seq<LevelNameView> {
    v.map_values(|l: LevelName| l@)
}

pub open spec fn state_of(m: DimensionCuts, h: Headers, matched: Vec<LevelName>) -> ResolveState {
    ResolveState { cuts: dim_cuts_view(m@), headers: headers_view(h@), matched: levels_view(matched@) }
}

fn resolve_value(
    cube: &Cube,
    c: &CubeCache,
    geo: &GeoNeighbors,
    m: &mut DimensionCuts,
    h: &mut Headers,
    matched: &mut Vec<LevelName>,
    key: &String,
    value: &String,
) -> (r: Result<(), QueryError>)
    ensures
        match step_value(*cube, *c, *geo, state_of(*old(m), *old(h), *old(matched)), key@, value@) {
            Err(e) => r == Err::<(), QueryError>(e),
            Ok(st) => r is Ok && state_of(*final(m), *final(h), *final(matched)) == st,
        },
{
    let parts = split_on(value.as_str(), ':');
    proof {
        crate::text::lemma_split_nonempty(value@, ':');
    }
    let element = &parts[0];
    let (ln, by_level) = match resolve_key(c, key, element) {
        Err(e) => return Err(e),
        Ok(None) => return Ok(()),
        Ok(Some(p)) => p,
    };
    insert_header(h, &ln.level, &ln.dimension);
    if by_level {
        let ghost mv = levels_view(matched@);
        matched.push(ln.duplicate());
        assert(levels_view(matched@) =~= mv.push(ln@));
    }
    if parts.len() == 1 {
        let mut ids: Vec<String> = Vec::new();
        ids.push(element.clone());
        assert(ids.deep_view() =~= seq![element@]);
        add_cut_entries(m, &ln, &ids);
        Ok(())
    } else if parts.len() == 2 {
        let op = match parse_cut_op(parts[1].as_str()) {
            None => return Err(QueryError::MalformedArgument),
            Some(op) => op,
        };
        match expand_cut(cube, c, geo, &ln, element, op) {
            Err(e) => Err(e),
            Ok((es, hs)) => {
                add_all_entries(m, &es);
                insert_headers(h, &hs);
                Ok(())
            },
        }
    } else {
        Err(QueryError::MalformedArgument)
    }
}

/// Removes every header rename with key `k`.
pub open spec fn remove_key(h: HeaderView, k: Seq<char>) -> HeaderView
    decreases h.len(),
{
    if h.len() == 0 {
        h
    } else {
        let r = remove_key(h.drop_last(), k);
        if h.last().0 == k {
            r
        } else {
            r.push(h.last())
        }
    }
}

/// The header renames left once each dimension cut on a single level that a
/// cut key named directly keeps that level's own name.
pub open spec fn drop_single(h: HeaderView, cuts: DimCutsView, matched: Seq<LevelNameView>) -> HeaderView
    decreases cuts.len(),
{
    if cuts.len() == 0 {
        h
    } else {
        let h2 = drop_single(h, cuts.drop_last(), matched);
        let es = cuts.last().1;
        if es.len() == 1 && matched.contains(es[0].0) {
            remove_key(h2, es[0].0.level)
        } else {
            h2
        }
    }
}

fn remove_header(h: &Headers, k: &String) -> (r: Headers)
    ensures
        headers_view(r@) == remove_key(headers_view(h@), k@),
{
    let mut r: Headers = Vec::new();
    let mut i: usize = 0;
    while i < h.len()
        invariant
            i <= h.len(),
            headers_view(r@) == remove_key(headers_view(h@).subrange(0, i as int), k@),
        decreases h.len() - i,
    {
        proof {
            let s = headers_view(h@).subrange(0, i as int + 1);
            assert(s.drop_last() =~= headers_view(h@).subrange(0, i as int));
        }
        if h[i].0 != *k {
            let ghost b = headers_view(r@);
            r.push((h[i].0.clone(), h[i].1.clone()));
            assert(headers_view(r@) =~= b.push((h@[i as int].0@, h@[i as int].1@)));
        }
        i = i + 1;
    }
    assert(headers_view(h@).subrange(0, i as int) =~= headers_view(h@));
    r
}

/// The final result of resolving a request's cuts: cuts by dimension, and
/// header renames.
pub open spec fn resolved_cuts(cube: Cube, c: CubeCache, geo: GeoNeighbors, items: Seq<(Seq<char>, Seq<char>)>) -> Result<
    (DimCutsView, HeaderView),
    QueryError,
> {
    match step_cuts(cube, c, geo, items) {
        Err(e) => Err(e),
        Ok(st) => Ok((st.cuts, drop_single(st.headers, st.cuts, st.matched))),
    }
}

/// Resolves a request's cuts into cuts grouped by dimension and level, and
/// the header renames that name result columns after their dimension.
pub fn resolve_cuts(
    cuts_map: &Vec<(String, String)>,
    cube: &Cube,
    cube_cache: &CubeCache,
    geo: &GeoNeighbors,
) -> (r: Result<(DimensionCuts, Headers), QueryError>)
    ensures
        match resolved_cuts(*cube, *cube_cache, *geo, pairs_view(cuts_map@)) {
            Err(e) => r == Err::<(DimensionCuts, Headers), QueryError>(e),
            Ok(x) => r matches Ok(o) && dim_cuts_view(o.0@) == x.0 && headers_view(o.1@) == x.1,
        },
{
    let mut m: DimensionCuts = Vec::new();
    let mut h: Headers = Vec::new();
    let mut matched: Vec<LevelName> = Vec::new();
    let ghost items = pairs_view(cuts_map@);
    proof {
        assert(dim_cuts_view(m@) =~= Seq::empty());
        assert(headers_view(h@) =~= Seq::empty());
        assert(levels_view(matched@) =~= Seq::empty());
        assert(items.subrange(0, 0) =~= Seq::empty());
    }
    let mut i: usize = 0;
    while i < cuts_map.len()
        invariant
            i <= cuts_map.len(),
            items == pairs_view(cuts_map@),
            step_cuts(*cube, *cube_cache, *geo, items.subrange(0, i as int)) == Ok::<ResolveState, QueryError>(
                state_of(m, h, matched),
            ),
        decreases cuts_map.len() - i,
    {
        let ghost s = items.subrange(0, i as int + 1);
        proof {
            assert(s.drop_last() =~= items.subrange(0, i as int));
            lemma_step_cuts_err(*cube, *cube_cache, *geo, items, i as int + 1);
        }
        let key = &cuts_map[i].0;
        let values = &cuts_map[i].1;
        if values.unicode_len() > 0 {
            let vs = split_on(values.as_str(), ',');
            let ghost st0 = state_of(m, h, matched);
            let mut j: usize = 0;
            assert(vs.deep_view().subrange(0, 0) =~= Seq::<Seq<char>>::empty());
            while j < vs.len()
                invariant
                    j <= vs.len(),
                    i < cuts_map@.len(),
                    items == pairs_view(cuts_map@),
                    s == items.subrange(0, i as int + 1),
                    s.drop_last() == items.subrange(0, i as int),
                    *key == cuts_map@[i as int].0,
                    *values == cuts_map@[i as int].1,
                    values@.len() > 0,
                    step_cuts(*cube, *cube_cache, *geo, items.subrange(0, i as int)) == Ok::<ResolveState, QueryError>(st0),
                    vs.deep_view() == split_seq(values@, ','),
                    step_values(*cube, *cube_cache, *geo, st0, key@, vs.deep_view().subrange(0, j as int))
                        == Ok::<ResolveState, QueryError>(state_of(m, h, matched)),
                decreases vs.len() - j,
            {
                proof {
                    let t = vs.deep_view().subrange(0, j as int + 1);
                    assert(t.drop_last() =~= vs.deep_view().subrange(0, j as int));
                    lemma_step_values_err(*cube, *cube_cache, *geo, st0, key@, vs.deep_view(), j as int + 1);
                }
                match resolve_value(cube, cube_cache, geo, &mut m, &mut h, &mut matched, key, &vs[j]) {
                    Err(e) => {
                        proof {
                            let t = vs.deep_view().subrange(0, j as int + 1);
                            assert(t.last() == vs@[j as int]@);
                            assert(step_values(*cube, *cube_cache, *geo, st0, key@, t) == Err::<ResolveState, QueryError>(e));
                            assert(step_values(*cube, *cube_cache, *geo, st0, key@, vs.deep_view()) == Err::<ResolveState, QueryError>(e));
                            assert(s.last() == (key@, values@));
                            assert(step_cuts(*cube, *cube_cache, *geo, s) == Err::<ResolveState, QueryError>(e));
                            lemma_step_cuts_err(*cube, *cube_cache, *geo, items, i as int + 1);
                        }
                        return Err(e);
                    },
                    Ok(()) => {},
                }
                j = j + 1;
            }
            assert(vs.deep_view().subrange(0, j as int) =~= vs.deep_view());
        }
        i = i + 1;
    }
    assert(items.subrange(0, i as int) =~= items);
    let ghost st = state_of(m, h, matched);
    let mut hh: Headers = Vec::new();
    let mut k: usize = 0;
    let ghost cv = dim_cuts_view(m@);
    proof {
        let hv = headers_view(h@);
        assert(headers_view(hh@) =~= Seq::empty());
    }
    hh = remove_none(&h);
    assert(cv.subrange(0, 0) =~= Seq::empty());
    while k < m.len()
        invariant
            k <= m.len(),
            cv == dim_cuts_view(m@),
            st == state_of(m, h, matched),
            headers_view(hh@) == drop_single(st.headers, cv.subrange(0, k as int), st.matched),
        decreases m.len() - k,
    {
        proof {
            let t = cv.subrange(0, k as int + 1);
            assert(t.drop_last() =~= cv.subrange(0, k as int));
        }
        let es = &m[k].1;
        if es.len() == 1 {
            let ghost lv = levels_view(matched@);
            let ln = &es[0].0;
            let is_matched = crate::names::has_level(&matched, ln);
            proof {
                if is_matched {
                    let w = choose|w: int| 0 <= w < matched@.len() && (#[trigger] matched@[w])@ == ln@;
                    assert(lv[w] == ln@);
                } else {
                    if lv.contains(ln@) {
                        let w = choose|w: int| 0 <= w < lv.len() && lv[w] == ln@;
                        assert(matched@[w]@ == ln@);
                    }
                }
            }
            if is_matched {
                hh = remove_header(&hh, &ln.level);
            }
        }
        k = k + 1;
    }
    assert(cv.subrange(0, k as int) =~= cv);
    Ok((m, hh))
}

fn remove_none(h: &Headers) -> (r: Headers)
    ensures
        headers_view(r@) == headers_view(h@),
{
    let mut r: Headers = Vec::new();
    let mut i: usize = 0;
    while i < h.len()
        invariant
            i <= h.len(),
            headers_view(r@) =~= headers_view(h@).subrange(0, i as int),
        decreases h.len() - i,
    {
        let ghost b = headers_view(r@);
        r.push((h[i].0.clone(), h[i].1.clone()));
        assert(headers_view(r@) =~= b.push((h@[i as int].0@, h@[i as int].1@)));
        i = i + 1;
    }
    assert(headers_view(h@).subrange(0, i as int) =~= headers_view(h@));
    r
}

proof fn lemma_step_cuts_err(cube: Cube, c: CubeCache, geo: GeoNeighbors, items: Seq<(Seq<char>, Seq<char>)>, i: int)
    requires
        0 <= i <= items.len(),
    ensures
        step_cuts(cube, c, geo, items.subrange(0, i)) is Err ==> step_cuts(cube, c, geo, items)
            == step_cuts(cube, c, geo, items.subrange(0, i)),
    decreases items.len() - i,
{
    if i < items.len() {
        lemma_step_cuts_err(cube, c, geo, items, i + 1);
        let s = items.subrange(0, i + 1);
        assert(s.drop_last() =~= items.subrange(0, i));
    } else {
        assert(items.subrange(0, i) =~= items);
    }
}

proof fn lemma_step_values_err(
    cube: Cube,
    c: CubeCache,
    geo: GeoNeighbors,
    st: ResolveState,
    key: Seq<char>,
    vs: Seq<Seq<char>>,
    i: int,
)
    requires
        0 <= i <= vs.len(),
    ensures
        step_values(cube, c, geo, st, key, vs.subrange(0, i)) is Err ==> step_values(cube, c, geo, st, key, vs)
            == step_values(cube, c, geo, st, key, vs.subrange(0, i)),
    decreases vs.len() - i,
{
    if i < vs.len() {
        lemma_step_values_err(cube, c, geo, st, key, vs, i + 1);
        let s = vs.subrange(0, i + 1);
        assert(s.drop_last() =~= vs.subrange(0, i));
    } else {
        assert(vs.subrange(0, i) =~= vs);
    }
}

// ---------------------------------------------------------------------------
// Cartesian product
// ---------------------------------------------------------------------------

/// Every extension of a partial combination by one choice out of `n`.
pub open spec fn partial_product(acc: Seq<Seq<usize>>, n: usize) -> Seq<Seq<usize>>
    decreases acc.len(),
{
    if acc.len() == 0 {
        Seq::empty()
    } else {
        partial_product(acc.drop_last(), n) + Seq::new(n as nat, |j: int| acc.last().push(j as usize))
    }
}

/// Every combination of one choice per list, the first list varying
/// slowest; no lists give no combinations.
pub open spec fn product_seq(sizes: Seq<usize>) -> Seq<Seq<usize>>
    decreases sizes.len(),
{
    if sizes.len() == 0 {
        Seq::empty()
    } else if sizes.len() == 1 {
        Seq::new(sizes[0] as nat, |j: int| seq![j as usize])
    } else {
        partial_product(product_seq(sizes.drop_last()), sizes.last())
    }
}

pub open spec fn product_size(sizes: Seq<usize>) -> nat
    decreases sizes.len(),
{
    if sizes.len() == 0 {
        1
    } else {
        product_size(sizes.drop_last()) * (sizes.last() as nat)
    }
}

pub proof fn lemma_partial_product_len(acc: Seq<Seq<usize>>, n: usize)
    ensures
        partial_product(acc, n).len() == acc.len() * n,
    decreases acc.len(),
{
    if acc.len() > 0 {
        lemma_partial_product_len(acc.drop_last(), n);
        assert((acc.len() - 1) * n + n == acc.len() * n) by (nonlinear_arith);
    }
}

/// Cartesian completeness: with at least one list, there are as many
/// combinations as the product of the list sizes.
pub proof fn lemma_product_count(sizes: Seq<usize>)
    requires
        sizes.len() > 0,
    ensures
        product_seq(sizes).len() == product_size(sizes),
    decreases sizes.len(),
{
    if sizes.len() == 1 {
        assert(sizes.drop_last().len() == 0);
        assert(product_size(sizes.drop_last()) == 1);
        assert(sizes.last() == sizes[0]);
        assert(product_size(sizes) == product_size(sizes.drop_last()) * (sizes.last() as nat));
        assert(product_size(sizes) == sizes[0] as nat) by (nonlinear_arith)
            requires
                product_size(sizes) == product_size(sizes.drop_last()) * (sizes.last() as nat),
                product_size(sizes.drop_last()) == 1,
                sizes.last() == sizes[0],
        ;
    } else {
        lemma_product_count(sizes.drop_last());
        lemma_partial_product_len(product_seq(sizes.drop_last()), sizes.last());
    }
}

fn copy_indices(v: &Vec<usize>) -> (r: Vec<usize>)
    ensures
        r@ == v@,
{
    let mut r: Vec<usize> = Vec::new();
    let mut i: usize = 0;
    while i < v.len()
        invariant
            i <= v.len(),
            r@ =~= v@.subrange(0, i as int),
        decreases v.len() - i,
    {
        r.push(v[i]);
        i = i + 1;
    }
    r
}

/// Extends each partial combination by each of `n` choices.
pub fn partial_cartesian(a: &Vec<Vec<usize>>, n: usize) -> (r: Vec<Vec<usize>>)
    ensures
        r.deep_view() == partial_product(a.deep_view(), n),
{
    let mut r: Vec<Vec<usize>> = Vec::new();
    let mut i: usize = 0;
    while i < a.len()
        invariant
            i <= a.len(),
            r.deep_view() =~= partial_product(a.deep_view().subrange(0, i as int), n),
        decreases a.len() - i,
    {
        let ghost base = r.deep_view();
        let mut j: usize = 0;
        while j < n
            invariant
                j <= n,
                i < a.len(),
                r.deep_view() =~= base + Seq::new(j as nat, |k: int| a@[i as int]@.push(k as usize)),
            decreases n - j,
        {
            let mut v = copy_indices(&a[i]);
            v.push(j);
            assert(v.deep_view() =~= a@[i as int]@.push(j));
            let ghost b = r.deep_view();
            r.push(v);
            assert(r.deep_view() =~= b.push(a@[i as int]@.push(j)));
            j = j + 1;
        }
        proof {
            let s = a.deep_view().subrange(0, i as int + 1);
            assert(s.drop_last() =~= a.deep_view().subrange(0, i as int));
            assert(s.last() =~= a@[i as int]@);
        }
        i = i + 1;
    }
    assert(a.deep_view().subrange(0, i as int) =~= a.deep_view());
    r
}

/// Every combination of one index per list size.
pub fn cartesian_product(sizes: &Vec<usize>) -> (r: Vec<Vec<usize>>)
    ensures
        r.deep_view() == product_seq(sizes@),
{
    if sizes.len() == 0 {
        let r: Vec<Vec<usize>> = Vec::new();
        assert(r.deep_view() =~= Seq::empty());
        return r;
    }
    let mut acc: Vec<Vec<usize>> = Vec::new();
    let mut j: usize = 0;
    while j < sizes[0]
        invariant
            sizes@.len() > 0,
            j <= sizes@[0],
            acc.deep_view() =~= Seq::new(j as nat, |k: int| seq![k as usize]),
        decreases sizes[0] - j,
    {
        let mut v: Vec<usize> = Vec::new();
        v.push(j);
        assert(v.deep_view() =~= seq![j]);
        let ghost b = acc.deep_view();
        acc.push(v);
        assert(acc.deep_view() =~= b.push(seq![j]));
        j = j + 1;
    }
    assert(sizes@.subrange(0, 1).drop_last() =~= Seq::<usize>::empty());
    assert(acc.deep_view() == product_seq(sizes@.subrange(0, 1)));
    let mut i: usize = 1;
    while i < sizes.len()
        invariant
            1 <= i <= sizes.len(),
            acc.deep_view() == product_seq(sizes@.subrange(0, i as int)),
        decreases sizes.len() - i,
    {
        proof {
            let s = sizes@.subrange(0, i as int + 1);
            assert(s.drop_last() =~= sizes@.subrange(0, i as int));
        }
        acc = partial_cartesian(&acc, sizes[i]);
        i = i + 1;
    }
    assert(sizes@.subrange(0, i as int) =~= sizes@);
    acc
}

// ---------------------------------------------------------------------------
// Drilldowns, properties and captions
// ---------------------------------------------------------------------------

/// The levels of the drilldown tokens, in order; a token that names no
/// level of the cube is dropped.
pub open spec fn resolve_drills(c: CubeCache, cube: Cube, toks: Seq<Seq<char>>) -> Seq<LevelNameView>
    decreases toks.len(),
{
    if toks.len() == 0 {
        Seq::empty()
    } else {
        let r = resolve_drills(c, cube, toks.drop_last());
        match lookup(c.level_map@, toks.last()) {
            Some(ln) => if level_position(cube, ln@) is Some {
                r.push(ln@)
            } else {
                r
            },
            None => r,
        }
    }
}

pub type PropView = (LevelNameView, Seq<char>);

pub open spec fn props_view(v: Seq<PropertyName>) -> Seq<PropView> {
    v.map_values(|p: PropertyName| (p.level_name@, p.property@))
}

/// The properties of the property tokens, in order; an unknown token is
/// dropped.
pub open spec fn resolve_props(c: CubeCache, toks: Seq<Seq<char>>) -> Seq<PropView>
    decreases toks.len(),
{
    if toks.len() == 0 {
        Seq::empty()
    } else {
        let r = resolve_props(c, toks.drop_last());
        match lookup(c.property_map@, toks.last()) {
            Some(p) => r.push((p.level_name@, p.property@)),
            None => r,
        }
    }
}

/// A property's captions: one per requested locale equal to its caption set.
pub open spec fn prop_captions(ln: LevelNameView, p: Property, locales: Seq<Seq<char>>) -> Seq<PropView>
    decreases locales.len(),
{
    if locales.len() == 0 {
        Seq::empty()
    } else {
        let r = prop_captions(ln, p, locales.drop_last());
        match p.caption_set {
            Some(cs) => if cs@ == locales.last() {
                r.push((ln, p.name@))
            } else {
                r
            },
            None => r,
        }
    }
}

/// The captions of a level's properties, in property order.
pub open spec fn level_captions(ln: LevelNameView, props: Seq<Property>, locales: Seq<Seq<char>>) -> Seq<PropView>
    decreases props.len(),
{
    if props.len() == 0 {
        Seq::empty()
    } else {
        level_captions(ln, props.drop_last(), locales) + prop_captions(ln, props.last(), locales)
    }
}

/// The captions of the first `n` levels of a hierarchy.
pub open spec fn levels_captions(dim: Seq<char>, hier: Seq<char>, levels: Seq<Level>, n: int, locales: Seq<Seq<char>>) -> Seq<PropView>
    decreases n,
{
    if n <= 0 {
        Seq::empty()
    } else {
        let l = levels[n - 1];
        levels_captions(dim, hier, levels, n - 1, locales) + level_captions(
            LevelNameView { dimension: dim, hierarchy: hier, level: l.name@ },
            crate::cache::level_props_of(l),
            locales,
        )
    }
}

/// The captions a drilldown brings: its level's, then with `parents` those
/// of each ancestor, shallowest first.
pub open spec fn drill_captions(cube: Cube, ln: LevelNameView, parents: bool, locales: Seq<Seq<char>>) -> Seq<PropView> {
    match level_position(cube, ln) {
        None => Seq::empty(),
        Some(p) => {
            let h = hierarchy_at(cube, p);
            let own = level_captions(ln, crate::cache::level_props_of(h.levels@[p.2]), locales);
            if parents {
                own + levels_captions(ln.dimension, ln.hierarchy, h.levels@, p.2, locales)
            } else {
                own
            }
        },
    }
}

pub open spec fn drills_captions(cube: Cube, ds: Seq<LevelNameView>, parents: bool, locales: Seq<Seq<char>>) -> Seq<PropView>
    decreases ds.len(),
{
    if ds.len() == 0 {
        Seq::empty()
    } else {
        drills_captions(cube, ds.drop_last(), parents, locales) + drill_captions(cube, ds.last(), parents, locales)
    }
}

fn push_level_captions(out: &mut Vec<PropertyName>, ln: &LevelName, l: &Level, locales: &Vec<String>)
    ensures
        props_view(final(out)@) == props_view(old(out)@) + level_captions(
            ln@,
            crate::cache::level_props_of(*l),
            locales.deep_view(),
        ),
{
    let ghost o = props_view(out@);
    match &l.properties {
        None => {
            assert(level_captions(ln@, crate::cache::level_props_of(*l), locales.deep_view()) =~= Seq::empty());
            assert(props_view(out@) =~= o + Seq::empty());
        },
        Some(ps) => {
            let mut i: usize = 0;
            assert(ps@.subrange(0, 0) =~= Seq::<Property>::empty());
            while i < ps.len()
                invariant
                    i <= ps.len(),
                    l.properties == Some(*ps),
                    props_view(out@) =~= o + level_captions(ln@, ps@.subrange(0, i as int), locales.deep_view()),
                decreases ps.len() - i,
            {
                let p = &ps[i];
                let ghost before = props_view(out@);
                proof {
                    let s = ps@.subrange(0, i as int + 1);
                    assert(s.drop_last() =~= ps@.subrange(0, i as int));
                }
                let mut j: usize = 0;
                assert(locales.deep_view().subrange(0, 0) =~= Seq::<Seq<char>>::empty());
                while j < locales.len()
                    invariant
                        j <= locales.len(),
                        props_view(out@) =~= before + prop_captions(ln@, *p, locales.deep_view().subrange(0, j as int)),
                    decreases locales.len() - j,
                {
                    proof {
                        let s = locales.deep_view().subrange(0, j as int + 1);
                        assert(s.drop_last() =~= locales.deep_view().subrange(0, j as int));
                    }
                    match &p.caption_set {
                        Some(cs) => {
                            if *cs == locales[j] {
                                let pn = PropertyName { level_name: ln.duplicate(), property: p.name.clone() };
                                let ghost b = props_view(out@);
                                out.push(pn);
                                assert(props_view(out@) =~= b.push((ln@, p.name@)));
                            }
                        },
                        None => {},
                    }
                    j = j + 1;
                }
                assert(locales.deep_view().subrange(0, j as int) =~= locales.deep_view());
                i = i + 1;
            }
            assert(ps@.subrange(0, i as int) =~= ps@);
        },
    }
}

/// The captions of the ancestors of a level, for the given locales.
pub fn get_parent_captions(cube: &Cube, level_name: &LevelName, locales: &Vec<String>) -> (r: Vec<PropertyName>)
    ensures
        props_view(r@) == match level_position(*cube, level_name@) {
            None => Seq::empty(),
            Some(p) => levels_captions(
                level_name@.dimension,
                level_name@.hierarchy,
                hierarchy_at(*cube, p).levels@,
                p.2,
                locales.deep_view(),
            ),
        },
{
    let mut out: Vec<PropertyName> = Vec::new();
    proof {
        lemma_level_position(*cube, level_name@);
    }
    assert(props_view(out@) =~= Seq::empty());
    match cube.locate_level(level_name) {
        None => out,
        Some(p) => {
            let levels = &cube.dimensions[p.0].hierarchies[p.1].levels;
            let mut i: usize = 0;
            while i < p.2
                invariant
                    i <= p.2 < levels@.len(),
                    props_view(out@) =~= levels_captions(
                        level_name@.dimension,
                        level_name@.hierarchy,
                        levels@,
                        i as int,
                        locales.deep_view(),
                    ),
                decreases p.2 - i,
            {
                let l = &levels[i];
                let ln = LevelName::new(level_name.dimension.clone(), level_name.hierarchy.clone(), l.name.clone());
                push_level_captions(&mut out, &ln, l, locales);
                i = i + 1;
            }
            out
        },
    }
}

fn drill_caption_list(cube: &Cube, ln: &LevelName, parents: bool, locales: &Vec<String>, out: &mut Vec<PropertyName>)
    ensures
        props_view(final(out)@) == props_view(old(out)@) + drill_captions(*cube, ln@, parents, locales.deep_view()),
{
    proof {
        lemma_level_position(*cube, ln@);
    }
    let ghost o = props_view(out@);
    match cube.locate_level(ln) {
        None => {
            assert(props_view(out@) =~= o + Seq::empty());
        },
        Some(p) => {
            let l = &cube.dimensions[p.0].hierarchies[p.1].levels[p.2];
            push_level_captions(out, ln, l, locales);
            if parents {
                let pc = get_parent_captions(cube, ln, locales);
                let ghost b = props_view(out@);
                let mut k: usize = 0;
                while k < pc.len()
                    invariant
                        k <= pc.len(),
                        props_view(out@) =~= b + props_view(pc@).subrange(0, k as int),
                    decreases pc.len() - k,
                {
                    let ghost bb = props_view(out@);
                    out.push(pc[k].duplicate());
                    assert(props_view(out@) =~= bb.push(props_view(pc@)[k as int]));
                    k = k + 1;
                }
                assert(props_view(pc@).subrange(0, k as int) =~= props_view(pc@));
            }
        },
    }
}

// ---------------------------------------------------------------------------
// Post-aggregation options
// ---------------------------------------------------------------------------

pub open spec fn direction_of(s: Seq<char>) -> Option<SortDirection> {
    if s == "asc"@ {
        Some(SortDirection::Asc)
    } else if s == "desc"@ {
        Some(SortDirection::Desc)
    } else {
        None
    }
}

pub type TopView = (u32, LevelNameView, Seq<char>, SortDirection);

/// `<n>,<level>,<measure>,<asc|desc>`.
pub open spec fn top_of(c: CubeCache, t: Seq<char>) -> Result<TopView, QueryError> {
    let parts = split_seq(t, ',');
    if parts.len() != 4 {
        Err(QueryError::MalformedArgument)
    } else {
        match lookup(c.level_map@, parts[1]) {
            None => Err(QueryError::UnknownName),
            Some(ln) => match parse_u32_spec(parts[0]) {
                None => Err(QueryError::MalformedArgument),
                Some(n) => match direction_of(parts[3]) {
                    None => Err(QueryError::MalformedArgument),
                    Some(d) => Ok((n, ln@, parts[2], d)),
                },
            },
        }
    }
}

/// `<level>,<measure>`.
pub open spec fn growth_of(c: CubeCache, g: Seq<char>) -> Result<(LevelNameView, Seq<char>), QueryError> {
    let parts = split_seq(g, ',');
    if parts.len() != 2 {
        Err(QueryError::MalformedArgument)
    } else {
        match lookup(c.level_map@, parts[0]) {
            None => Err(QueryError::UnknownName),
            Some(ln) => Ok((ln@, parts[1])),
        }
    }
}

/// `<level>,<level>,<measure>`.
pub open spec fn rca_of(c: CubeCache, r: Seq<char>) -> Result<(LevelNameView, LevelNameView, Seq<char>), QueryError> {
    let parts = split_seq(r, ',');
    if parts.len() != 3 {
        Err(QueryError::MalformedArgument)
    } else {
        match (lookup(c.level_map@, parts[0]), lookup(c.level_map@, parts[1])) {
            (Some(l1), Some(l2)) => Ok((l1@, l2@, parts[2])),
            _ => Err(QueryError::UnknownName),
        }
    }
}

/// `<level>.<id>,<id>,...`.
pub open spec fn rate_of(c: CubeCache, r: Seq<char>) -> Result<(LevelNameView, Seq<Seq<char>>), QueryError> {
    let parts = split_seq(r, '.');
    if parts.len() != 2 {
        Err(QueryError::MalformedArgument)
    } else {
        match lookup(c.level_map@, parts[0]) {
            None => Err(QueryError::UnknownName),
            Some(ln) => Ok((ln@, split_seq(parts[1], ','))),
        }
    }
}

/// The level a short name stands for in a cube's cache.
pub fn level_of_short(c: &CubeCache, name: &String) -> (r: Option<LevelName>)
    ensures
        match lookup(c.level_map@, name@) {
            None => r is None,
            Some(ln) => r matches Some(x) && x@ == ln@,
        },
{
    match find_key(&c.level_map, name.as_str()) {
        None => None,
        Some(i) => Some(c.level_map[i].1.duplicate()),
    }
}

/// Parses a top option.
pub fn parse_top(c: &CubeCache, t: &String) -> (r: Result<TopQuery, QueryError>)
    ensures
        match top_of(*c, t@) {
            Err(e) => r == Err::<TopQuery, QueryError>(e),
            Ok(v) => r matches Ok(q) && q.n == v.0 && q.by_dimension@ == v.1 && q.measure@ == v.2 && q.sort_direction == v.3,
        },
{
    let parts = split_on(t.as_str(), ',');
    if parts.len() != 4 {
        return Err(QueryError::MalformedArgument);
    }
    let ln = match level_of_short(c, &parts[1]) {
        None => return Err(QueryError::UnknownName),
        Some(ln) => ln,
    };
    let n = match parse_u32(parts[0].as_str()) {
        None => return Err(QueryError::MalformedArgument),
        Some(n) => n,
    };
    let dir = if text_eq(parts[3].as_str(), "asc") {
        SortDirection::Asc
    } else if text_eq(parts[3].as_str(), "desc") {
        SortDirection::Desc
    } else {
        return Err(QueryError::MalformedArgument);
    };
    Ok(TopQuery { n, by_dimension: ln, measure: parts[2].clone(), sort_direction: dir })
}

/// Parses a growth option.
pub fn parse_growth(c: &CubeCache, g: &String) -> (r: Result<GrowthQuery, QueryError>)
    ensures
        match growth_of(*c, g@) {
            Err(e) => r == Err::<GrowthQuery, QueryError>(e),
            Ok(v) => r matches Ok(q) && q.time_drill@ == v.0 && q.measure@ == v.1,
        },
{
    let parts = split_on(g.as_str(), ',');
    if parts.len() != 2 {
        return Err(QueryError::MalformedArgument);
    }
    match level_of_short(c, &parts[0]) {
        None => Err(QueryError::UnknownName),
        Some(ln) => Ok(GrowthQuery { time_drill: ln, measure: parts[1].clone() }),
    }
}

/// Parses an rca option.
pub fn parse_rca(c: &CubeCache, r: &String) -> (res: Result<RcaQuery, QueryError>)
    ensures
        match rca_of(*c, r@) {
            Err(e) => res == Err::<RcaQuery, QueryError>(e),
            Ok(v) => res matches Ok(q) && q.drill_1@ == v.0 && q.drill_2@ == v.1 && q.measure@ == v.2,
        },
{
    let parts = split_on(r.as_str(), ',');
    if parts.len() != 3 {
        return Err(QueryError::MalformedArgument);
    }
    match (level_of_short(c, &parts[0]), level_of_short(c, &parts[1])) {
        (Some(l1), Some(l2)) => Ok(RcaQuery { drill_1: l1, drill_2: l2, measure: parts[2].clone() }),
        _ => Err(QueryError::UnknownName),
    }
}

/// Parses a rate option.
pub fn parse_rate(c: &CubeCache, r: &String) -> (res: Result<RateQuery, QueryError>)
    ensures
        match rate_of(*c, r@) {
            Err(e) => res == Err::<RateQuery, QueryError>(e),
            Ok(v) => res matches Ok(q) && q.level_name@ == v.0 && q.values.deep_view() == v.1,
        },
{
    let parts = split_on(r.as_str(), '.');
    if parts.len() != 2 {
        return Err(QueryError::MalformedArgument);
    }
    match level_of_short(c, &parts[0]) {
        None => Err(QueryError::UnknownName),
        Some(ln) => Ok(RateQuery { level_name: ln, values: split_on(parts[1].as_str(), ',') }),
    }
}

fn drills_from_tokens(c: &CubeCache, cube: &Cube, toks: &Vec<String>) -> (r: Vec<LevelName>)
    ensures
        levels_view(r@) == resolve_drills(*c, *cube, toks.deep_view()),
{
    let mut r: Vec<LevelName> = Vec::new();
    let mut i: usize = 0;
    assert(toks.deep_view().subrange(0, 0) =~= Seq::<Seq<char>>::empty());
    assert(levels_view(r@) =~= Seq::empty());
    while i < toks.len()
        invariant
            i <= toks.len(),
            levels_view(r@) == resolve_drills(*c, *cube, toks.deep_view().subrange(0, i as int)),
        decreases toks.len() - i,
    {
        proof {
            let s = toks.deep_view().subrange(0, i as int + 1);
            assert(s.drop_last() =~= toks.deep_view().subrange(0, i as int));
            assert(s.last() == toks@[i as int]@);
        }
        match level_of_short(c, &toks[i]) {
            None => {},
            Some(ln) => {
                if cube.get_level(&ln).is_some() {
                    let ghost b = levels_view(r@);
                    r.push(ln);
                    assert(levels_view(r@) =~= b.push(ln@));
                }
            },
        }
        i = i + 1;
    }
    assert(toks.deep_view().subrange(0, i as int) =~= toks.deep_view());
    r
}

fn props_from_tokens(c: &CubeCache, toks: &Vec<String>) -> (r: Vec<PropertyName>)
    ensures
        props_view(r@) == resolve_props(*c, toks.deep_view()),
{
    let mut r: Vec<PropertyName> = Vec::new();
    let mut i: usize = 0;
    assert(toks.deep_view().subrange(0, 0) =~= Seq::<Seq<char>>::empty());
    assert(props_view(r@) =~= Seq::empty());
    while i < toks.len()
        invariant
            i <= toks.len(),
            props_view(r@) == resolve_props(*c, toks.deep_view().subrange(0, i as int)),
        decreases toks.len() - i,
    {
        proof {
            let s = toks.deep_view().subrange(0, i as int + 1);
            assert(s.drop_last() =~= toks.deep_view().subrange(0, i as int));
            assert(s.last() == toks@[i as int]@);
        }
        match find_key(&c.property_map, toks[i].as_str()) {
            None => {},
            Some(k) => {
                let p = c.property_map[k].1.duplicate();
                let ghost b = props_view(r@);
                r.push(p);
                assert(props_view(r@) =~= b.push((p.level_name@, p.property@)));
            },
        }
        i = i + 1;
    }
    assert(toks.deep_view().subrange(0, i as int) =~= toks.deep_view());
    r
}

pub open spec fn opt_tokens(o: Option<String>) -> Seq<Seq<char>> {
    match o {
        Some(s) => split_args(s@),
        None => Seq::empty(),
    }
}

/// The locales a request asks captions for.
pub open spec fn locales_of(o: Option<String>) -> Seq<Seq<char>> {
    match o {
        Some(s) => split_seq(s@, ','),
        None => Seq::empty(),
    }
}

fn tokens_of(o: &Option<String>) -> (r: Vec<String>)
    ensures
        r.deep_view() == opt_tokens(*o),
{
    match o {
        Some(s) => LogicLayerQueryOpt::deserialize_args(s.as_str()),
        None => {
            let r: Vec<String> = Vec::new();
            assert(r.deep_view() =~= Seq::empty());
            r
        },
    }
}

// ---------------------------------------------------------------------------
// Query generation
// ---------------------------------------------------------------------------

pub open spec fn opt_error<T>(r: Option<Result<T, QueryError>>) -> Option<QueryError> {
    match r {
        Some(Err(e)) => Some(e),
        _ => None,
    }
}

pub open spec fn top_result(c: CubeCache, o: Option<String>) -> Option<Result<TopView, QueryError>> {
    match o {
        Some(t) => Some(top_of(c, t@)),
        None => None,
    }
}

pub open spec fn growth_result(c: CubeCache, o: Option<String>) -> Option<Result<(LevelNameView, Seq<char>), QueryError>> {
    match o {
        Some(g) => Some(growth_of(c, g@)),
        None => None,
    }
}

pub open spec fn rca_result(c: CubeCache, o: Option<String>) -> Option<Result<(LevelNameView, LevelNameView, Seq<char>), QueryError>> {
    match o {
        Some(r) => Some(rca_of(c, r@)),
        None => None,
    }
}

pub open spec fn rate_result(c: CubeCache, o: Option<String>) -> Option<Result<(LevelNameView, Seq<Seq<char>>), QueryError>> {
    match o {
        Some(r) => Some(rate_of(c, r@)),
        None => None,
    }
}

/// The first failing option, in the order top, growth, rca, rate.
pub open spec fn options_error(c: CubeCache, opt: LogicLayerQueryOpt) -> Option<QueryError> {
    match opt_error(top_result(c, opt.top)) {
        Some(e) => Some(e),
        None => match opt_error(growth_result(c, opt.growth)) {
            Some(e) => Some(e),
            None => match opt_error(rca_result(c, opt.rca)) {
                Some(e) => Some(e),
                None => opt_error(rate_result(c, opt.rate)),
            },
        },
    }
}

pub open spec fn unwrap_flag(b: Option<bool>) -> bool {
    match b {
        Some(x) => x,
        None => false,
    }
}

/// `o` carries the request's options as parsed.
pub open spec fn options_built(o: PostAggregation, c: CubeCache, opt: LogicLayerQueryOpt) -> bool {
    &&& match (o.top, top_result(c, opt.top)) {
        (None, None) => true,
        (Some(q), Some(Ok(v))) => q.n == v.0 && q.by_dimension@ == v.1 && q.measure@ == v.2 && q.sort_direction == v.3,
        _ => false,
    }
    &&& match (o.growth, growth_result(c, opt.growth)) {
        (None, None) => true,
        (Some(q), Some(Ok(v))) => q.time_drill@ == v.0 && q.measure@ == v.1,
        _ => false,
    }
    &&& match (o.rca, rca_result(c, opt.rca)) {
        (None, None) => true,
        (Some(q), Some(Ok(v))) => q.drill_1@ == v.0 && q.drill_2@ == v.1 && q.measure@ == v.2,
        _ => false,
    }
    &&& match (o.rate, rate_result(c, opt.rate)) {
        (None, None) => true,
        (Some(q), Some(Ok(v))) => q.level_name@ == v.0 && q.values.deep_view() == v.1,
        _ => false,
    }
    &&& o.top_where == opt.top_where
    &&& o.sort == opt.sort
    &&& o.limit == opt.limit
    &&& o.debug == unwrap_flag(opt.debug)
    &&& o.sparse == unwrap_flag(opt.sparse)
    &&& o.exclude_default_members == unwrap_flag(opt.exclude_default_members)
}

fn copy_opt_text(o: &Option<String>) -> (r: Option<String>)
    ensures
        r == *o,
{
    match o {
        Some(s) => Some(s.clone()),
        None => None,
    }
}

fn flag(b: Option<bool>) -> (r: bool)
    ensures
        r == unwrap_flag(b),
{
    match b {
        Some(x) => x,
        None => false,
    }
}

/// Parses the post-aggregation options of a request.
pub fn parse_options(c: &CubeCache, opt: &LogicLayerQueryOpt) -> (r: Result<PostAggregation, QueryError>)
    ensures
        match options_error(*c, *opt) {
            Some(e) => r == Err::<PostAggregation, QueryError>(e),
            None => r matches Ok(o) && options_built(o, *c, *opt),
        },
{
    let top = match &opt.top {
        None => None,
        Some(t) => match parse_top(c, t) {
            Ok(q) => Some(q),
            Err(e) => return Err(e),
        },
    };
    let growth = match &opt.growth {
        None => None,
        Some(g) => match parse_growth(c, g) {
            Ok(q) => Some(q),
            Err(e) => return Err(e),
        },
    };
    let rca = match &opt.rca {
        None => None,
        Some(x) => match parse_rca(c, x) {
            Ok(q) => Some(q),
            Err(e) => return Err(e),
        },
    };
    let rate = match &opt.rate {
        None => None,
        Some(x) => match parse_rate(c, x) {
            Ok(q) => Some(q),
            Err(e) => return Err(e),
        },
    };
    Ok(
        PostAggregation {
            top,
            top_where: copy_opt_text(&opt.top_where),
            sort: copy_opt_text(&opt.sort),
            limit: copy_opt_text(&opt.limit),
            growth,
            rca,
            rate,
            debug: flag(opt.debug),
            sparse: flag(opt.sparse),
            exclude_default_members: flag(opt.exclude_default_members),
        },
    )
}

fn copy_options(o: &PostAggregation, Ghost(c): Ghost<CubeCache>, Ghost(opt): Ghost<LogicLayerQueryOpt>) -> (r: PostAggregation)
    requires
        options_built(*o, c, opt),
    ensures
        options_built(r, c, opt),
{
    let top = match &o.top {
        None => None,
        Some(q) => Some(TopQuery { n: q.n, by_dimension: q.by_dimension.duplicate(), measure: q.measure.clone(), sort_direction: q.sort_direction }),
    };
    let growth = match &o.growth {
        None => None,
        Some(q) => Some(GrowthQuery { time_drill: q.time_drill.duplicate(), measure: q.measure.clone() }),
    };
    let rca = match &o.rca {
        None => None,
        Some(q) => Some(RcaQuery { drill_1: q.drill_1.duplicate(), drill_2: q.drill_2.duplicate(), measure: q.measure.clone() }),
    };
    let rate = match &o.rate {
        None => None,
        Some(q) => Some(RateQuery { level_name: q.level_name.duplicate(), values: copy_texts(&q.values) }),
    };
    PostAggregation {
        top,
        top_where: copy_opt_text(&o.top_where),
        sort: copy_opt_text(&o.sort),
        limit: copy_opt_text(&o.limit),
        growth,
        rca,
        rate,
        debug: o.debug,
        sparse: o.sparse,
        exclude_default_members: o.exclude_default_members,
    }
}

pub open spec fn cuts_view(cs: Seq<Cut>) -> Seq<EntryView> {
    cs.map_values(|c: Cut| (c.level_name@, c.members.deep_view()))
}

pub open spec fn dim_sizes(dm: DimCutsView) -> Seq<usize> {
    dm.map_values(|d: (Seq<char>, Seq<EntryView>)| d.1.len() as usize)
}

/// One cut per dimension: the level entry that the combination picks.
pub open spec fn combo_cuts(dm: DimCutsView, combo: Seq<usize>) -> Seq<EntryView> {
    Seq::new(dm.len(), |d: int| dm[d].1[combo[d] as int])
}

/// The drilldowns every query of a request gets added: all cut levels of
/// each dimension cut on more than one level, so that the member sets can be
/// told apart in the result.
pub open spec fn added_drills(dm: DimCutsView, n: int) -> Seq<LevelNameView>
    decreases n,
{
    if n <= 0 {
        Seq::empty()
    } else {
        let r = added_drills(dm, n - 1);
        if dm[n - 1].1.len() > 1 {
            r + entry_levels(dm[n - 1].1)
        } else {
            r
        }
    }
}

/// The captions of the added drilldowns.
pub open spec fn added_captions(cube: Cube, dm: DimCutsView, n: int, locales: Seq<Seq<char>>) -> Seq<PropView>
    decreases n,
{
    if n <= 0 {
        Seq::empty()
    } else {
        let r = added_captions(cube, dm, n - 1, locales);
        if dm[n - 1].1.len() > 1 {
            r + drills_captions(cube, entry_levels(dm[n - 1].1), false, locales)
        } else {
            r
        }
    }
}

/// How many queries a request expands to: one per combination of one cut
/// level per dimension, or one when nothing is cut.
pub open spec fn query_count(dm: DimCutsView) -> nat {
    if dm.len() == 0 {
        1
    } else {
        product_seq(dim_sizes(dm)).len()
    }
}

/// Why a request cannot be resolved, if it cannot: cut cleanup, then the
/// options, then the cuts.
pub open spec fn generate_error(
    opt: LogicLayerQueryOpt,
    cube: Cube,
    c: CubeCache,
    cfg: Option<LogicLayerConfig>,
    geo: GeoNeighbors,
) -> Option<QueryError> {
    match cleaned_cuts(opt, c, cfg) {
        Err(e) => Some(e),
        Ok(cm) => match options_error(c, opt) {
            Some(e) => Some(e),
            None => match resolved_cuts(cube, c, geo, cm) {
                Err(e) => Some(e),
                Ok(_) => None,
            },
        },
    }
}

/// Query `q` of a request: the request's drilldowns, measures, properties
/// and options, with the cuts of combination `combo` (none when nothing is
/// cut) and the drilldowns and captions that combination adds.
pub open spec fn query_built(
    q: Query,
    opt: LogicLayerQueryOpt,
    cube: Cube,
    c: CubeCache,
    dm: DimCutsView,
    combo: Option<Seq<usize>>,
) -> bool {
    let parents = unwrap_flag(opt.parents);
    let locales = locales_of(opt.locale);
    let drills = resolve_drills(c, cube, opt_tokens(opt.drilldowns));
    let caps = drills_captions(cube, drills, parents, locales);
    &&& q.measures.deep_view() == opt_tokens(opt.measures)
    &&& props_view(q.properties@) == resolve_props(c, opt_tokens(opt.properties))
    &&& q.parents == parents
    &&& options_built(q.options, c, opt)
    &&& match combo {
        None => {
            &&& levels_view(q.drilldowns@) == drills
            &&& q.cuts@.len() == 0
            &&& props_view(q.captions@) == caps
        },
        Some(cb) => {
            &&& levels_view(q.drilldowns@) == drills + added_drills(dm, dm.len() as int)
            &&& cuts_view(q.cuts@) == combo_cuts(dm, cb)
            &&& props_view(q.captions@) == caps + added_captions(cube, dm, dm.len() as int, locales)
        },
    }
}

pub open spec fn combo_valid(combo: Seq<usize>, sizes: Seq<usize>) -> bool {
    combo.len() == sizes.len() && forall|d: int| 0 <= d < sizes.len() ==> combo[d] < sizes[d]
}

proof fn lemma_partial_product_valid(acc: Seq<Seq<usize>>, n: usize, sizes: Seq<usize>)
    requires
        sizes.len() > 0,
        sizes.last() == n,
        forall|k: int| 0 <= k < acc.len() ==> combo_valid(#[trigger] acc[k], sizes.drop_last()),
    ensures
        forall|k: int| 0 <= k < partial_product(acc, n).len() ==> combo_valid(#[trigger] partial_product(acc, n)[k], sizes),
    decreases acc.len(),
{
    if acc.len() > 0 {
        lemma_partial_product_valid(acc.drop_last(), n, sizes);
        let a = partial_product(acc.drop_last(), n);
        let b = Seq::new(n as nat, |j: int| acc.last().push(j as usize));
        assert(partial_product(acc, n) == a + b);
        assert forall|k: int| 0 <= k < partial_product(acc, n).len() implies combo_valid(
            #[trigger] partial_product(acc, n)[k],
            sizes,
        ) by {
            if k >= a.len() {
                let j = k - a.len();
                assert(partial_product(acc, n)[k] == acc.last().push(j as usize));
                assert(combo_valid(acc[acc.len() - 1], sizes.drop_last()));
            } else {
                assert(partial_product(acc, n)[k] == a[k]);
            }
        }
    }
}

/// Every combination picks one valid index per list.
pub proof fn lemma_product_valid(sizes: Seq<usize>)
    ensures
        forall|k: int| 0 <= k < product_seq(sizes).len() ==> combo_valid(#[trigger] product_seq(sizes)[k], sizes),
    decreases sizes.len(),
{
    if sizes.len() == 1 {
        assert forall|k: int| 0 <= k < product_seq(sizes).len() implies combo_valid(#[trigger] product_seq(sizes)[k], sizes) by {
            assert(product_seq(sizes)[k] == seq![k as usize]);
        }
    } else if sizes.len() > 1 {
        lemma_product_valid(sizes.drop_last());
        lemma_partial_product_valid(product_seq(sizes.drop_last()), sizes.last(), sizes);
    }
}

fn copy_props(v: &Vec<PropertyName>) -> (r: Vec<PropertyName>)
    ensures
        props_view(r@) == props_view(v@),
{
    let mut r: Vec<PropertyName> = Vec::new();
    let mut i: usize = 0;
    while i < v.len()
        invariant
            i <= v.len(),
            props_view(r@) =~= props_view(v@).subrange(0, i as int),
        decreases v.len() - i,
    {
        let ghost b = props_view(r@);
        r.push(v[i].duplicate());
        assert(props_view(r@) =~= b.push(props_view(v@)[i as int]));
        i = i + 1;
    }
    assert(props_view(v@).subrange(0, i as int) =~= props_view(v@));
    r
}

/// The parts that every query of a request shares.
pub struct SharedParts {
    pub drills: Vec<LevelName>,
    pub measures: Vec<String>,
    pub properties: Vec<PropertyName>,
    pub captions: Vec<PropertyName>,
    pub parents: bool,
    pub locales: Vec<String>,
    pub options: PostAggregation,
}

pub open spec fn shared_ok(sp: SharedParts, opt: LogicLayerQueryOpt, cube: Cube, c: CubeCache) -> bool {
    let parents = unwrap_flag(opt.parents);
    let locales = locales_of(opt.locale);
    let drills = resolve_drills(c, cube, opt_tokens(opt.drilldowns));
    &&& levels_view(sp.drills@) == drills
    &&& sp.measures.deep_view() == opt_tokens(opt.measures)
    &&& props_view(sp.properties@) == resolve_props(c, opt_tokens(opt.properties))
    &&& props_view(sp.captions@) == drills_captions(cube, drills, parents, locales)
    &&& sp.parents == parents
    &&& sp.locales.deep_view() == locales
    &&& options_built(sp.options, c, opt)
}

fn shared_parts(opt: &LogicLayerQueryOpt, cube: &Cube, c: &CubeCache, options: PostAggregation) -> (r: SharedParts)
    requires
        options_built(options, *c, *opt),
    ensures
        shared_ok(r, *opt, *cube, *c),
{
    let parents = flag(opt.parents);
    let locales = match &opt.locale {
        Some(l) => split_on(l.as_str(), ','),
        None => {
            let v: Vec<String> = Vec::new();
            assert(v.deep_view() =~= Seq::empty());
            v
        },
    };
    let drill_toks = tokens_of(&opt.drilldowns);
    let drills = drills_from_tokens(c, cube, &drill_toks);
    let measures = tokens_of(&opt.measures);
    let prop_toks = tokens_of(&opt.properties);
    let properties = props_from_tokens(c, &prop_toks);
    let mut captions: Vec<PropertyName> = Vec::new();
    let mut i: usize = 0;
    assert(props_view(captions@) =~= Seq::empty());
    assert(levels_view(drills@).subrange(0, 0) =~= Seq::<LevelNameView>::empty());
    while i < drills.len()
        invariant
            i <= drills.len(),
            props_view(captions@) == drills_captions(*cube, levels_view(drills@).subrange(0, i as int), parents, locales.deep_view()),
        decreases drills.len() - i,
    {
        proof {
            let s = levels_view(drills@).subrange(0, i as int + 1);
            assert(s.drop_last() =~= levels_view(drills@).subrange(0, i as int));
        }
        drill_caption_list(cube, &drills[i], parents, &locales, &mut captions);
        i = i + 1;
    }
    assert(levels_view(drills@).subrange(0, i as int) =~= levels_view(drills@));
    SharedParts { drills, measures, properties, captions, parents, locales, options }
}

pub open spec fn dm_view(dm: DimensionCuts) -> DimCutsView {
    dim_cuts_view(dm@)
}

fn build_query(
    sp: &SharedParts,
    cube: &Cube,
    dm: &DimensionCuts,
    combo: &Vec<usize>,
    Ghost(opt): Ghost<LogicLayerQueryOpt>,
    Ghost(c): Ghost<CubeCache>,
) -> (r: Query)
    requires
        shared_ok(*sp, opt, *cube, c),
        combo_valid(combo@, dim_sizes(dm_view(*dm))),
    ensures
        query_built(r, opt, *cube, c, dm_view(*dm), Some(combo@)),
{
    let ghost dv = dm_view(*dm);
    let mut drills = copy_level_names(&sp.drills);
    assert(levels_view(drills@) =~= levels_view(sp.drills@));
    let mut caps = copy_props(&sp.captions);
    let mut cuts: Vec<Cut> = Vec::new();
    let ghost d0 = levels_view(drills@);
    let ghost c0 = props_view(caps@);
    let mut d: usize = 0;
    while d < dm.len()
        invariant
            d <= dm.len(),
            dv == dm_view(*dm),
            combo_valid(combo@, dim_sizes(dv)),
            levels_view(drills@) =~= d0 + added_drills(dv, d as int),
            props_view(caps@) =~= c0 + added_captions(*cube, dv, d as int, sp.locales.deep_view()),
            cuts_view(cuts@) =~= combo_cuts(dv, combo@).subrange(0, d as int),
        decreases dm.len() - d,
    {
        let es = &dm[d].1;
        assert(dv[d as int].1 == entries_view(es@));
        let n_es = es.len();
        assert(entries_view(es@).len() == n_es);
        assert(dim_sizes(dv)[d as int] == n_es);
        let pick = combo[d];
        let e = &es[pick];
        let ghost bc = cuts_view(cuts@);
        cuts.push(Cut { level_name: e.0.duplicate(), members: copy_texts(&e.1) });
        assert(cuts_view(cuts@) =~= bc.push(dv[d as int].1[pick as int]));
        if es.len() > 1 {
            let ghost bd = levels_view(drills@);
            let ghost bc2 = props_view(caps@);
            let ghost lv = entry_levels(dv[d as int].1);
            let mut j: usize = 0;
            assert(lv.subrange(0, 0) =~= Seq::<LevelNameView>::empty());
            while j < es.len()
                invariant
                    j <= es.len(),
                    lv == entry_levels(entries_view(es@)),
                    levels_view(drills@) =~= bd + lv.subrange(0, j as int),
                    props_view(caps@) =~= bc2 + drills_captions(*cube, lv.subrange(0, j as int), false, sp.locales.deep_view()),
                decreases es.len() - j,
            {
                proof {
                    let t = lv.subrange(0, j as int + 1);
                    assert(t.drop_last() =~= lv.subrange(0, j as int));
                    assert(t.last() == es@[j as int].0@);
                }
                let ghost bj = levels_view(drills@);
                drills.push(es[j].0.duplicate());
                assert(levels_view(drills@) =~= bj.push(es@[j as int].0@));
                drill_caption_list(cube, &es[j].0, false, &sp.locales, &mut caps);
                j = j + 1;
            }
            assert(lv.subrange(0, j as int) =~= lv);
        }
        d = d + 1;
    }
    assert(combo_cuts(dv, combo@).subrange(0, d as int) =~= combo_cuts(dv, combo@));
    Query {
        drilldowns: drills,
        cuts,
        measures: copy_texts(&sp.measures),
        properties: copy_props(&sp.properties),
        captions: caps,
        parents: sp.parents,
        options: copy_options(&sp.options, Ghost(c), Ghost(opt)),
    }
}

fn build_plain_query(sp: &SharedParts, Ghost(opt): Ghost<LogicLayerQueryOpt>, Ghost(cube): Ghost<Cube>, Ghost(c): Ghost<CubeCache>) -> (r: Query)
    requires
        shared_ok(*sp, opt, cube, c),
    ensures
        forall|dm: DimCutsView| query_built(r, opt, cube, c, dm, None),
{
    let drills = copy_level_names(&sp.drills);
    assert(levels_view(drills@) =~= levels_view(sp.drills@));
    Query {
        drilldowns: drills,
        cuts: Vec::new(),
        measures: copy_texts(&sp.measures),
        properties: copy_props(&sp.properties),
        captions: copy_props(&sp.captions),
        parents: sp.parents,
        options: copy_options(&sp.options, Ghost(c), Ghost(opt)),
    }
}

/// The result of a request that resolves: its queries and header renames.
pub open spec fn generated(
    opt: LogicLayerQueryOpt,
    cube: Cube,
    c: CubeCache,
    cfg: Option<LogicLayerConfig>,
    geo: GeoNeighbors,
    qs: Seq<Query>,
    hs: HeaderView,
) -> bool {
    match cleaned_cuts(opt, c, cfg) {
        Err(_) => false,
        Ok(cm) => match resolved_cuts(cube, c, geo, cm) {
            Err(_) => false,
            Ok(x) => {
                let dm = x.0;
                &&& hs == x.1
                &&& qs.len() == query_count(dm)
                &&& forall|k: int|
                    0 <= k < qs.len() ==> query_built(
                        #[trigger] qs[k],
                        opt,
                        cube,
                        c,
                        dm,
                        if dm.len() == 0 {
                            None
                        } else {
                            Some(product_seq(dim_sizes(dm))[k])
                        },
                    )
            },
        },
    }
}

/// Expands a permissive request into internal queries, one per combination
/// of one cut level per dimension (one query when nothing is cut), and the
/// header renames of the result columns.
pub fn generate_ts_queries(
    agg_query_opt: &LogicLayerQueryOpt,
    cube: &Cube,
    cube_cache: &CubeCache,
    ll_config: &Option<LogicLayerConfig>,
    geo: &GeoNeighbors,
) -> (r: Result<(Vec<Query>, Headers), QueryError>)
    ensures
        match generate_error(*agg_query_opt, *cube, *cube_cache, *ll_config, *geo) {
            Some(e) => r == Err::<(Vec<Query>, Headers), QueryError>(e),
            None => r matches Ok(o) && generated(*agg_query_opt, *cube, *cube_cache, *ll_config, *geo, o.0@, headers_view(o.1@)),
        },
{
    let cuts_map = match clean_cuts_map(agg_query_opt, cube_cache, ll_config) {
        Ok(m) => m,
        Err(e) => return Err(e),
    };
    let options = match parse_options(cube_cache, agg_query_opt) {
        Ok(o) => o,
        Err(e) => return Err(e),
    };
    let sp = shared_parts(agg_query_opt, cube, cube_cache, options);
    let (dm, headers) = match resolve_cuts(&cuts_map, cube, cube_cache, geo) {
        Ok(x) => x,
        Err(e) => return Err(e),
    };
    let ghost dv = dm_view(dm);
    let mut queries: Vec<Query> = Vec::new();
    if dm.len() == 0 {
        let q = build_plain_query(&sp, Ghost(*agg_query_opt), Ghost(*cube), Ghost(*cube_cache));
        queries.push(q);
        assert(queries@.len() == 1);
        assert(query_built(queries@[0], *agg_query_opt, *cube, *cube_cache, dv, None));
        return Ok((queries, headers));
    }
    let mut sizes: Vec<usize> = Vec::new();
    let mut d: usize = 0;
    while d < dm.len()
        invariant
            d <= dm.len(),
            dv == dm_view(dm),
            sizes@ =~= dim_sizes(dv).subrange(0, d as int),
        decreases dm.len() - d,
    {
        sizes.push(dm[d].1.len());
        d = d + 1;
    }
    assert(sizes@ =~= dim_sizes(dv));
    let combos = cartesian_product(&sizes);
    proof {
        lemma_product_valid(sizes@);
    }
    let mut k: usize = 0;
    while k < combos.len()
        invariant
            k <= combos.len(),
            dv == dm_view(dm),
            dv.len() > 0,
            sizes@ == dim_sizes(dv),
            combos.deep_view() == product_seq(sizes@),
            forall|j: int| 0 <= j < product_seq(sizes@).len() ==> combo_valid(#[trigger] product_seq(sizes@)[j], sizes@),
            shared_ok(sp, *agg_query_opt, *cube, *cube_cache),
            queries@.len() == k,
            forall|j: int|
                0 <= j < k ==> query_built(
                    #[trigger] queries@[j],
                    *agg_query_opt,
                    *cube,
                    *cube_cache,
                    dv,
                    Some(product_seq(dim_sizes(dv))[j]),
                ),
        decreases combos.len() - k,
    {
        assert(combos@[k as int]@ =~= combos.deep_view()[k as int]);
        assert(combo_valid(product_seq(sizes@)[k as int], sizes@));
        let q = build_query(&sp, cube, &dm, &combos[k], Ghost(*agg_query_opt), Ghost(*cube_cache));
        queries.push(q);
        k = k + 1;
    }
    Ok((queries, headers))
}

/// Cartesian completeness: a request whose cuts resolve to `Kᵢ` levels in
/// dimension `i` expands to `∏ Kᵢ` queries, and to one query when nothing is
/// cut.
pub proof fn lemma_cartesian_completeness(dm: DimCutsView)
    ensures
        query_count(dm) == (if dm.len() == 0 {
            1
        } else {
            product_size(dim_sizes(dm))
        }),
{
    if dm.len() > 0 {
        lemma_product_count(dim_sizes(dm));
    }
}

} // verus!
