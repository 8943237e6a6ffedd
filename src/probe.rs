//! Filling the metadata cache: the back-end probes each level needs, and the
//! cache built from their answers.
use vstd::prelude::*;
use crate::cache::{
    CubeCache, DimensionCache, LevelCache, children_map_from_columns, cube_level_entries, entries_view,
    find_key, get_inline_children_data, get_inline_parent_data, get_level_map, get_neighbors_map,
    get_property_map, group_pairs, groups_view, map_keys, neighbor_window, pair_map, parent_map_from_columns,
    keys_distinct, row_pairs, table_cells, zip_columns,
};
use crate::resolver::pairs_view;
use crate::config::LogicLayerConfig;
use crate::names::{LevelName, LevelNameView, QueryError};
use crate::schema::{Cube, Hierarchy, Level, Property, first_index, level_at};
use crate::text::text_eq;

verus! {

/// The back-end queries that fill one level's cache; a hierarchy given as
/// inline rows needs none.
#[derive(Debug, Clone, PartialEq, Eq)]
pub struct LevelProbeSql {
    pub level_name: LevelName,
    pub distinct_sql: Option<String>,
    pub parent_sql: Option<String>,
    pub children_sql: Option<String>,
}

/// The back-end's answers for one level: its sorted distinct keys, and the
/// (parent key, key) and (key, child key) rows, each as two columns.
#[derive(Debug, Clone, PartialEq, Eq)]
pub struct LevelProbe {
    pub distinct_values: Vec<String>,
    /// Parent keys of the (parent key, key) rows.
    pub parent_keys: Vec<String>,
    /// Keys of the (parent key, key) rows.
    pub keys_with_parent: Vec<String>,
    /// Keys of the (key, child key) rows.
    pub keys_with_children: Vec<String>,
    /// Child keys of the (key, child key) rows.
    pub child_keys: Vec<String>,
}

pub open spec fn distinct_text(column: Seq<char>, table: Seq<char>) -> Seq<char> {
    "select distinct "@ + column + " from "@ + table + " order by "@ + column
}

pub open spec fn pairs_text(first: Seq<char>, second: Seq<char>, table: Seq<char>) -> Seq<char> {
    "select distinct "@ + first + ", "@ + second + " from "@ + table + " group by "@ + first + ", "@ + second
        + " order by "@ + first + ", "@ + second
}

/// The sorted distinct values of a column.
pub fn distinct_values_sql(column: &str, table: &str) -> (r: String)
    ensures
        r@ == distinct_text(column@, table@),
{
    let mut r = String::from_str("select distinct ");
    r.append(column);
    r.append(" from ");
    r.append(table);
    r.append(" order by ");
    r.append(column);
    r
}

/// The distinct pairs of two columns, sorted.
pub fn distinct_pairs_sql(first: &str, second: &str, table: &str) -> (r: String)
    ensures
        r@ == pairs_text(first@, second@, table@),
{
    let mut r = String::from_str("select distinct ");
    r.append(first);
    r.append(", ");
    r.append(second);
    r.append(" from ");
    r.append(table);
    r.append(" group by ");
    r.append(first);
    r.append(", ");
    r.append(second);
    r.append(" order by ");
    r.append(first);
    r.append(", ");
    r.append(second);
    r
}

/// The texts of `s` without repeats, each where it first occurs.
pub open spec fn distinct_texts(s: Seq<String>) -> Seq<String>
    decreases s.len(),
{
    if s.len() == 0 {
        Seq::empty()
    } else {
        let r = distinct_texts(s.drop_last());
        if r.map_values(|x: String| x@).contains(s.last()@) {
            r
        } else {
            r.push(s.last())
        }
    }
}

/// The member ids of level `li` of a hierarchy: its inline rows' distinct
/// keys, or the probed distinct keys.
pub open spec fn level_ids(h: Hierarchy, li: int, probe: LevelProbe) -> Seq<String> {
    match h.inline_table {
        Some(t) => distinct_texts(table_cells(t.rows@, h.levels@[li].key_column@, None)),
        None => probe.distinct_values@,
    }
}

fn distinct_of(v: &Vec<String>) -> (r: Vec<String>)
    ensures
        r@ == distinct_texts(v@),
{
    let mut r: Vec<String> = Vec::new();
    let mut i: usize = 0;
    assert(v@.subrange(0, 0) =~= Seq::<String>::empty());
    while i < v.len()
        invariant
            i <= v.len(),
            r@ == distinct_texts(v@.subrange(0, i as int)),
        decreases v.len() - i,
    {
        proof {
            let s = v@.subrange(0, i as int + 1);
            assert(s.drop_last() =~= v@.subrange(0, i as int));
        }
        assert(r.deep_view() =~= r@.map_values(|x: String| x@));
        if !crate::cache::text_in(&r, &v[i]) {
            r.push(v[i].clone());
        }
        i = i + 1;
    }
    assert(v@.subrange(0, i as int) =~= v@);
    r
}

/// The cache of level `li` of a hierarchy is built from its ids and rows.
pub open spec fn level_cache_built(h: Hierarchy, li: int, probe: LevelProbe, lc: LevelCache) -> bool {
    let ids = level_ids(h, li, probe);
    let levels = h.levels@;
    &&& lc.neighbors_map@.len() == ids.len()
    &&& forall|c: int|
        0 <= c < ids.len() ==> (#[trigger] lc.neighbors_map@[c]).0 == ids[c] && lc.neighbors_map@[c].1@
            == neighbor_window(ids, c)
    &&& (li == 0 <==> lc.parent_map is None)
    &&& lc.parent_map matches Some(pm) ==> pairs_view(pm@) == match h.inline_table {
        Some(t) => pair_map(row_pairs(t.rows@, levels[li].key_column@, levels[li - 1].key_column@)),
        None => pair_map(zip_columns(probe.keys_with_parent@, probe.parent_keys@)),
    }
    &&& (li + 1 >= levels.len() <==> lc.children_map is None)
    &&& lc.children_map matches Some(cm) ==> groups_view(cm@) == match h.inline_table {
        Some(t) => group_pairs(row_pairs(t.rows@, levels[li].key_column@, levels[li + 1].key_column@)),
        None => group_pairs(zip_columns(probe.keys_with_children@, probe.child_keys@)),
    }
}

fn inline_cells(t: &crate::schema::InlineTable, col: &String) -> (r: Vec<String>)
    ensures
        r@ == table_cells(t.rows@, col@, None),
{
    let mut r: Vec<String> = Vec::new();
    let mut i: usize = 0;
    while i < t.rows.len()
        invariant
            i <= t.rows.len(),
            r@ == table_cells(t.rows@.subrange(0, i as int), col@, None),
        decreases t.rows.len() - i,
    {
        let rvs = &t.rows[i].row_values;
        let ghost head = r@;
        let mut j: usize = 0;
        while j < rvs.len()
            invariant
                j <= rvs.len(),
                r@ == head + crate::cache::row_cells(rvs@.subrange(0, j as int), col@, None),
            decreases rvs.len() - j,
        {
            let v = &rvs[j];
            proof {
                let s = rvs@.subrange(0, j as int + 1);
                assert(s.drop_last() =~= rvs@.subrange(0, j as int));
            }
            if v.column == *col {
                r.push(v.value.clone());
                assert(r@ =~= head + crate::cache::row_cells(rvs@.subrange(0, j as int + 1), col@, None));
            }
            j = j + 1;
        }
        proof {
            assert(rvs@.subrange(0, j as int) =~= rvs@);
            let s = t.rows@.subrange(0, i as int + 1);
            assert(s.drop_last() =~= t.rows@.subrange(0, i as int));
        }
        i = i + 1;
    }
    assert(t.rows@.subrange(0, i as int) =~= t.rows@);
    r
}

/// Builds the cache of level `li` of a hierarchy, and returns the level's
/// member ids with it.
pub fn build_level_cache(h: &Hierarchy, li: usize, probe: &LevelProbe) -> (r: (LevelCache, Vec<String>))
    requires
        li < h.levels@.len(),
    ensures
        r.1@ == level_ids(*h, li as int, *probe),
        level_cache_built(*h, li as int, *probe, r.0),
{
    let levels = &h.levels;
    let level = &levels[li];
    let (ids, parent_map, children_map) = match &h.inline_table {
        Some(t) => {
            let cells = inline_cells(t, &level.key_column);
            let ids = distinct_of(&cells);
            let pm = if li >= 1 {
                Some(get_inline_parent_data(&levels[li - 1], level, t))
            } else {
                None
            };
            let cm = if levels.len() - li > 1 {
                Some(get_inline_children_data(level, &levels[li + 1], t))
            } else {
                None
            };
            (ids, pm, cm)
        },
        None => {
            let ids = crate::names::copy_texts(&probe.distinct_values);
            let pm = if li >= 1 {
                Some(parent_map_from_columns(&probe.parent_keys, &probe.keys_with_parent))
            } else {
                None
            };
            let cm = if levels.len() - li > 1 {
                Some(children_map_from_columns(&probe.keys_with_children, &probe.child_keys))
            } else {
                None
            };
            (ids, pm, cm)
        },
    };
    let neighbors_map = get_neighbors_map(&ids);
    (LevelCache { parent_map, children_map, neighbors_map }, ids)
}

/// The probes of the level at `slot`: its sorted distinct keys, and the
/// (parent key, key) and (key, child key) pairs where it has a parent or a
/// child, all read from the hierarchy's table (the fact table if it has
/// none); a hierarchy of inline rows needs no probe.
pub open spec fn probe_built(cube: Cube, slot: (int, int, int), p: LevelProbeSql) -> bool {
    let d = cube.dimensions@[slot.0];
    let h = crate::schema::hierarchy_at(cube, slot);
    let ls = h.levels@;
    let l = ls[slot.2];
    let table = match h.table {
        Some(t) => t.name@,
        None => cube.table.name@,
    };
    &&& p.level_name@ == LevelNameView { dimension: d.name@, hierarchy: h.name@, level: l.name@ }
    &&& if h.inline_table is Some {
        p.distinct_sql is None && p.parent_sql is None && p.children_sql is None
    } else {
        &&& p.distinct_sql matches Some(x) && x@ == distinct_text(l.key_column@, table)
        &&& (slot.2 == 0 <==> p.parent_sql is None)
        &&& p.parent_sql matches Some(x) ==> x@ == pairs_text(ls[slot.2 - 1].key_column@, l.key_column@, table)
        &&& (slot.2 + 1 >= ls.len() <==> p.children_sql is None)
        &&& p.children_sql matches Some(x) ==> x@ == pairs_text(l.key_column@, ls[slot.2 + 1].key_column@, table)
    }
}

/// The probes of every level of a cube, dimension by dimension, hierarchy by
/// hierarchy, shallowest level first.
pub fn probe_queries(cube: &Cube) -> (r: Vec<LevelProbeSql>)
    ensures
        r@.len() == all_slots(*cube).len(),
        forall|k: int| 0 <= k < r@.len() ==> probe_built(*cube, all_slots(*cube)[k], #[trigger] r@[k]),
{
    let mut out: Vec<LevelProbeSql> = Vec::new();
    let ghost mut done: Seq<(int, int, int)> = Seq::empty();
    let mut di: usize = 0;
    while di < cube.dimensions.len()
        invariant
            di <= cube.dimensions.len(),
            done == cube_slots(*cube, di as int),
            out@.len() == done.len(),
            forall|k: int| 0 <= k < out@.len() ==> probe_built(*cube, done[k], #[trigger] out@[k]),
        decreases cube.dimensions.len() - di,
    {
        let d = &cube.dimensions[di];
        let ghost done_d = done;
        let mut hi: usize = 0;
        while hi < d.hierarchies.len()
            invariant
                hi <= d.hierarchies.len(),
                *d == cube.dimensions@[di as int],
                done == done_d + dim_slots(*d, di as int, hi as int),
                out@.len() == done.len(),
                forall|k: int| 0 <= k < out@.len() ==> probe_built(*cube, done[k], #[trigger] out@[k]),
            decreases d.hierarchies.len() - hi,
        {
            let h = &d.hierarchies[hi];
            let table = match &h.table {
                Some(t) => &t.name,
                None => &cube.table.name,
            };
            let ghost done_h = done;
            let mut li: usize = 0;
            while li < h.levels.len()
                invariant
                    li <= h.levels.len(),
                    *h == d.hierarchies@[hi as int],
                    *d == cube.dimensions@[di as int],
                    *table == match h.table {
                        Some(t) => t.name,
                        None => cube.table.name,
                    },
                    done == done_h + hier_slots(di as int, hi as int, li as int),
                    out@.len() == done.len(),
                    forall|k: int| 0 <= k < out@.len() ==> probe_built(*cube, done[k], #[trigger] out@[k]),
                decreases h.levels.len() - li,
            {
                let l = &h.levels[li];
                let ln = LevelName::new(d.name.clone(), h.name.clone(), l.name.clone());
                let probe = if h.inline_table.is_some() {
                    LevelProbeSql { level_name: ln, distinct_sql: None, parent_sql: None, children_sql: None }
                } else {
                    let parent_sql = if li >= 1 {
                        Some(distinct_pairs_sql(h.levels[li - 1].key_column.as_str(), l.key_column.as_str(), table.as_str()))
                    } else {
                        None
                    };
                    let children_sql = if h.levels.len() - li > 1 {
                        Some(distinct_pairs_sql(l.key_column.as_str(), h.levels[li + 1].key_column.as_str(), table.as_str()))
                    } else {
                        None
                    };
                    LevelProbeSql {
                        level_name: ln,
                        distinct_sql: Some(distinct_values_sql(l.key_column.as_str(), table.as_str())),
                        parent_sql,
                        children_sql,
                    }
                };
                proof {
                    let slot = (di as int, hi as int, li as int);
                    assert(crate::schema::hierarchy_at(*cube, slot) == *h);
                    assert(probe_built(*cube, slot, probe));
                    assert(hier_slots(di as int, hi as int, li as int + 1) =~= hier_slots(di as int, hi as int, li as int).push(slot));
                }
                let ghost old_out = out@;
                out.push(probe);
                proof {
                    let slot = (di as int, hi as int, li as int);
                    let nd = done.push(slot);
                    assert forall|k: int| 0 <= k < out@.len() implies probe_built(*cube, nd[k], #[trigger] out@[k]) by {
                        if k < old_out.len() {
                            assert(nd[k] == done[k]);
                            assert(out@[k] == old_out[k]);
                        }
                    }
                    done = nd;
                }
                li = li + 1;
            }
            assert(dim_slots(*d, di as int, hi as int + 1) =~= dim_slots(*d, di as int, hi as int) + hier_slots(di as int, hi as int, h.levels@.len() as int));
            hi = hi + 1;
        }
        assert(cube_slots(*cube, di as int + 1) =~= cube_slots(*cube, di as int) + dim_slots(*d, di as int, d.hierarchies@.len() as int));
        di = di + 1;
    }
    out
}

fn copy_level(l: &Level) -> (r: Level)
    ensures
        r.name == l.name,
        r.key_column == l.key_column,
        r.name_column == l.name_column,
{
    let props = match &l.properties {
        None => None,
        Some(ps) => {
            let mut v: Vec<Property> = Vec::new();
            let mut i: usize = 0;
            while i < ps.len()
                invariant
                    i <= ps.len(),
                decreases ps.len() - i,
            {
                let p = &ps[i];
                let cs = match &p.caption_set {
                    Some(c) => Some(c.clone()),
                    None => None,
                };
                v.push(Property { name: p.name.clone(), column: p.column.clone(), caption_set: cs });
                i = i + 1;
            }
            Some(v)
        },
    };
    let nc = match &l.name_column {
        Some(n) => Some(n.clone()),
        None => None,
    };
    Level { name: l.name.clone(), key_column: l.key_column.clone(), name_column: nc, properties: props }
}

pub type IndexView = Seq<(Seq<char>, Seq<LevelNameView>)>;

pub type MemberPairs = Set<(LevelNameView, Seq<char>)>;

/// `g` indexes exactly the (level, member id) pairs of `s`: ids are
/// distinct, each id lists a level at most once, and it lists a level
/// exactly when the pair is in `s`.
pub open spec fn index_sound(g: IndexView, s: MemberPairs) -> bool {
    &&& forall|i: int, j: int| 0 <= i < j < g.len() ==> g[i].0 != g[j].0
    &&& forall|i: int, a: int, b: int| 0 <= i < g.len() && 0 <= a < b < g[i].1.len() ==> g[i].1[a] != g[i].1[b]
    &&& forall|i: int, a: int| 0 <= i < g.len() && 0 <= a < g[i].1.len() ==> s.contains((g[i].1[a], g[i].0))
    &&& forall|p: (LevelNameView, Seq<char>)| s.contains(p) ==> exists|i: int| 0 <= i < g.len() && g[i].0 == p.1 && g[i].1.contains(p.0)
}

/// The (level, member id) pairs of one level.
pub open spec fn level_pairs(ids: Seq<String>, ln: LevelNameView) -> MemberPairs {
    Set::new(|p: (LevelNameView, Seq<char>)| p.0 == ln && exists|x: int| 0 <= x < ids.len() && ids[x]@ == p.1)
}

/// The (level, member id) pairs of several levels.
pub open spec fn member_pairs(members: Seq<(LevelNameView, Seq<String>)>) -> MemberPairs {
    Set::new(|p: (LevelNameView, Seq<char>)| exists|t: int| 0 <= t < members.len() && #[trigger] members[t].0 == p.0
        && exists|x: int| 0 <= x < members[t].1.len() && members[t].1[x]@ == p.1)
}

proof fn lemma_index_add(g: IndexView, id: Seq<char>, ln: LevelNameView, s: MemberPairs)
    requires
        index_sound(g, s),
    ensures
        index_sound(index_add(g, id, ln), s.insert((ln, id))),
{
    let keys = index_keys(g);
    crate::schema::lemma_first_index_found(keys, id);
    let i = first_index(keys, id);
    let g2 = index_add(g, id, ln);
    let s2 = s.insert((ln, id));
    if i < 0 {
        assert forall|j: int| 0 <= j < g.len() implies g[j].0 != id by {
            assert(keys[j] == g[j].0);
        }
        assert forall|p: (LevelNameView, Seq<char>)| s2.contains(p) implies exists|k: int|
            0 <= k < g2.len() && g2[k].0 == p.1 && g2[k].1.contains(p.0) by {
            if p == (ln, id) {
                assert(g2[g.len() as int].1[0] == ln);
            } else {
                let k = choose|k: int| 0 <= k < g.len() && g[k].0 == p.1 && g[k].1.contains(p.0);
                assert(g2[k] == g[k]);
            }
        }
    } else {
        assert(keys[i] == g[i].0);
        if g[i].1.contains(ln) {
            assert forall|p: (LevelNameView, Seq<char>)| s2.contains(p) implies exists|k: int|
                0 <= k < g2.len() && g2[k].0 == p.1 && g2[k].1.contains(p.0) by {
                if p == (ln, id) {
                    assert(g2[i].0 == id);
                } else {
                    let k = choose|k: int| 0 <= k < g.len() && g[k].0 == p.1 && g[k].1.contains(p.0);
                }
            }
        } else {
            let l2 = g[i].1.push(ln);
            assert(g2 == g.update(i, (id, l2)));
            assert(g2[i].1 == l2);
            assert forall|a: int, b: int| 0 <= a < b < l2.len() implies l2[a] != l2[b] by {
                if b == l2.len() - 1 {
                    assert(l2[a] == g[i].1[a]);
                }
            }
            assert forall|j: int, a: int| 0 <= j < g2.len() && 0 <= a < g2[j].1.len() implies s2.contains((g2[j].1[a], g2[j].0)) by {
                if j != i {
                    assert(g2[j] == g[j]);
                } else if a < g[i].1.len() {
                    assert(g2[j].1[a] == g[i].1[a]);
                    assert(g2[j].0 == g[i].0);
                    assert(s.contains((g[i].1[a], g[i].0)));
                } else {
                    assert(g2[j].1[a] == ln);
                    assert(g2[j].0 == id);
                }
            }
            assert forall|p: (LevelNameView, Seq<char>)| s2.contains(p) implies exists|k: int|
                0 <= k < g2.len() && g2[k].0 == p.1 && g2[k].1.contains(p.0) by {
                if p == (ln, id) {
                    assert(g2[i].1[g[i].1.len() as int] == ln);
                } else {
                    let k = choose|k: int| 0 <= k < g.len() && g[k].0 == p.1 && g[k].1.contains(p.0);
                    if k == i {
                        let w = choose|w: int| 0 <= w < g[i].1.len() && g[i].1[w] == p.0;
                        assert(g2[i].1[w] == p.0);
                    } else {
                        assert(g2[k] == g[k]);
                    }
                }
            }
        }
    }
}

proof fn lemma_index_level(g: IndexView, ids: Seq<String>, ln: LevelNameView, s: MemberPairs)
    requires
        index_sound(g, s),
    ensures
        index_sound(index_level(g, ids, ln), s.union(level_pairs(ids, ln))),
    decreases ids.len(),
{
    if ids.len() == 0 {
        assert(s.union(level_pairs(ids, ln)) =~= s);
    } else {
        let rest = ids.drop_last();
        lemma_index_level(g, rest, ln, s);
        lemma_index_add(index_level(g, rest, ln), ids.last()@, ln, s.union(level_pairs(rest, ln)));
        assert forall|p: (LevelNameView, Seq<char>)| s.union(level_pairs(ids, ln)).contains(p) == s.union(
            level_pairs(rest, ln),
        ).insert((ln, ids.last()@)).contains(p) by {
            if level_pairs(ids, ln).contains(p) && p != (ln, ids.last()@) {
                let x = choose|x: int| 0 <= x < ids.len() && ids[x]@ == p.1;
                assert(x < rest.len());
                assert(rest[x] == ids[x]);
            }
            if level_pairs(rest, ln).contains(p) {
                let x = choose|x: int| 0 <= x < rest.len() && rest[x]@ == p.1;
                assert(ids[x] == rest[x]);
            }
            if p == (ln, ids.last()@) {
                assert(ids[ids.len() - 1]@ == p.1);
            }
        }
        assert(s.union(level_pairs(ids, ln)) =~= s.union(level_pairs(rest, ln)).insert((ln, ids.last()@)));
    }
}

/// The member-id index of a dimension lists, under each member id, exactly
/// the levels that hold that member, each once, and lists each id once.
pub proof fn lemma_member_index(members: Seq<(LevelNameView, Seq<String>)>)
    ensures
        index_sound(index_all(members), member_pairs(members)),
    decreases members.len(),
{
    if members.len() == 0 {
        assert(member_pairs(members) =~= Set::empty());
    } else {
        let rest = members.drop_last();
        let m = members.last();
        lemma_member_index(rest);
        lemma_index_level(index_all(rest), m.1, m.0, member_pairs(rest));
        assert forall|p: (LevelNameView, Seq<char>)| member_pairs(members).contains(p) == member_pairs(rest).union(
            level_pairs(m.1, m.0),
        ).contains(p) by {
            if member_pairs(members).contains(p) {
                let t = choose|t: int| 0 <= t < members.len() && #[trigger] members[t].0 == p.0 && exists|x: int|
                    0 <= x < members[t].1.len() && members[t].1[x]@ == p.1;
                if t < rest.len() {
                    assert(rest[t] == members[t]);
                }
            }
            if member_pairs(rest).contains(p) {
                let t = choose|t: int| 0 <= t < rest.len() && #[trigger] rest[t].0 == p.0 && exists|x: int|
                    0 <= x < rest[t].1.len() && rest[t].1[x]@ == p.1;
                assert(members[t] == rest[t]);
            }
            if level_pairs(m.1, m.0).contains(p) {
                assert(members[members.len() - 1] == m);
            }
        }
        assert(member_pairs(members) =~= member_pairs(rest).union(level_pairs(m.1, m.0)));
    }
}

/// Records that `ln` holds each of `ids`.
pub open spec fn index_view(m: Seq<(String, Vec<LevelName>)>) -> Seq<(Seq<char>, Seq<LevelNameView>)> {
    m.map_values(|e: (String, Vec<LevelName>)| (e.0@, e.1@.map_values(|l: LevelName| l@)))
}

pub open spec fn index_keys(g: Seq<(Seq<char>, Seq<LevelNameView>)>) -> Seq<Seq<char>> {
    g.map_values(|e: (Seq<char>, Seq<LevelNameView>)| e.0)
}

/// Records that level `ln` holds member `id`: the id's entry is created on
/// first mention, and lists each level once.
pub open spec fn index_add(g: Seq<(Seq<char>, Seq<LevelNameView>)>, id: Seq<char>, ln: LevelNameView) -> Seq<
    (Seq<char>, Seq<LevelNameView>),
> {
    let i = first_index(index_keys(g), id);
    if i < 0 {
        g.push((id, seq![ln]))
    } else if g[i].1.contains(ln) {
        g
    } else {
        g.update(i, (id, g[i].1.push(ln)))
    }
}

/// Records every member of one level.
pub open spec fn index_level(g: Seq<(Seq<char>, Seq<LevelNameView>)>, ids: Seq<String>, ln: LevelNameView) -> Seq<
    (Seq<char>, Seq<LevelNameView>),
>
    decreases ids.len(),
{
    if ids.len() == 0 {
        g
    } else {
        index_add(index_level(g, ids.drop_last(), ln), ids.last()@, ln)
    }
}

/// The member-id index of a dimension: every member of each of its levels,
/// level after level.
pub open spec fn index_all(members: Seq<(LevelNameView, Seq<String>)>) -> Seq<(Seq<char>, Seq<LevelNameView>)>
    decreases members.len(),
{
    if members.len() == 0 {
        Seq::empty()
    } else {
        index_level(index_all(members.drop_last()), members.last().1, members.last().0)
    }
}

/// Records that `ln` holds each of `ids`.
fn index_ids(id_map: &mut Vec<(String, Vec<LevelName>)>, ids: &Vec<String>, ln: &LevelName)
    ensures
        index_view(final(id_map)@) == index_level(index_view(old(id_map)@), ids@, ln@),
{
    let ghost g0 = index_view(id_map@);
    let mut i: usize = 0;
    assert(ids@.subrange(0, 0) =~= Seq::<String>::empty());
    while i < ids.len()
        invariant
            i <= ids.len(),
            index_view(id_map@) == index_level(g0, ids@.subrange(0, i as int), ln@),
        decreases ids.len() - i,
    {
        proof {
            let s = ids@.subrange(0, i as int + 1);
            assert(s.drop_last() =~= ids@.subrange(0, i as int));
        }
        let ghost g = index_view(id_map@);
        assert(map_keys(id_map@) =~= index_keys(g));
        match find_key(id_map, ids[i].as_str()) {
            Some(k) => {
                let present = crate::names::has_level(&id_map[k].1, ln);
                let ghost lv = id_map@[k as int].1@.map_values(|l: LevelName| l@);
                proof {
                    if present {
                        let w = choose|w: int| 0 <= w < id_map@[k as int].1@.len() && (#[trigger] id_map@[k as int].1@[w])@ == ln@;
                        assert(lv[w] == ln@);
                    } else if lv.contains(ln@) {
                        let w = choose|w: int| 0 <= w < lv.len() && lv[w] == ln@;
                        assert(id_map@[k as int].1@[w]@ == ln@);
                    }
                }
                if !present {
                    let (key, mut lns) = id_map.remove(k);
                    lns.push(ln.duplicate());
                    assert(lns@.map_values(|l: LevelName| l@) =~= lv.push(ln@));
                    let ghost nv = (key@, lns@.map_values(|l: LevelName| l@));
                    id_map.insert(k, (key, lns));
                    assert(index_view(id_map@) =~= g.update(k as int, nv));
                }
            },
            None => {
                let mut lns: Vec<LevelName> = Vec::new();
                lns.push(ln.duplicate());
                assert(lns@.map_values(|l: LevelName| l@) =~= seq![ln@]);
                id_map.push((ids[i].clone(), lns));
                assert(index_view(id_map@) =~= g.push((ids@[i as int]@, seq![ln@])));
            },
        }
        i = i + 1;
    }
    assert(ids@.subrange(0, i as int) =~= ids@);
}

/// The positions of the levels of hierarchy `hi` of dimension `di`.
pub open spec fn hier_slots(di: int, hi: int, n: int) -> Seq<(int, int, int)> {
    Seq::new(n as nat, |li: int| (di, hi, li))
}

pub open spec fn dim_slots(d: crate::schema::Dimension, di: int, n: int) -> Seq<(int, int, int)>
    decreases n,
{
    if n <= 0 {
        Seq::empty()
    } else {
        dim_slots(d, di, n - 1) + hier_slots(di, n - 1, d.hierarchies@[n - 1].levels@.len() as int)
    }
}

/// The position of every level of a cube, in schema order.
pub open spec fn cube_slots(cube: Cube, n: int) -> Seq<(int, int, int)>
    decreases n,
{
    if n <= 0 {
        Seq::empty()
    } else {
        let d = cube.dimensions@[n - 1];
        cube_slots(cube, n - 1) + dim_slots(d, n - 1, d.hierarchies@.len() as int)
    }
}

/// Level `k` in schema order got its cache from answer `k`.
pub open spec fn caches_from_probes(cube: Cube, probes: Seq<LevelProbe>, caches: Seq<(String, LevelCache)>, slots: Seq<(int, int, int)>) -> bool {
    &&& caches.len() == slots.len()
    &&& forall|k: int|
        0 <= k < slots.len() ==> level_cache_built(
            crate::schema::hierarchy_at(cube, #[trigger] slots[k]),
            slots[k].2,
            probes[k],
            caches[k].1,
        )
}

/// What a built cube cache is made of: the cube's name, its level and
/// property short-name maps, and one level cache per level under its short
/// name, in schema order.
pub open spec fn cube_cache_built(cube: Cube, cfg: Option<LogicLayerConfig>, c: CubeCache) -> bool {
    let es = cube_level_entries(cube, cfg, cube.dimensions@.len() as int);
    &&& c.name == cube.name
    &&& entries_view(c.level_map@) == es
    &&& crate::cache::prop_entries_view(c.property_map@) == crate::cache::cube_prop_entries(
        cube,
        cfg,
        cube.dimensions@.len() as int,
    )
    &&& map_keys(c.level_caches@) == es.map_values(|e: (Seq<char>, LevelNameView)| e.0)
    &&& map_keys(c.dimension_caches@) == crate::schema::dimension_names(cube.dimensions@)
}

/// The keyed lists of a cube cache that lookups read by first match hold
/// each key once: level and property short names, level caches, and each
/// dimension's member ids.
pub open spec fn cache_keys_unique(c: CubeCache) -> bool {
    &&& keys_distinct(map_keys(c.level_map@))
    &&& keys_distinct(map_keys(c.property_map@))
    &&& keys_distinct(map_keys(c.level_caches@))
    &&& forall|d: int| 0 <= d < c.dimension_caches@.len() ==> keys_distinct(map_keys(#[trigger] c.dimension_caches@[d].1.id_map@))
    &&& forall|k: int| 0 <= k < c.level_caches@.len() ==> level_cache_keys_unique(#[trigger] c.level_caches@[k].1)
}

/// The parent and children maps of a level cache hold each member once.
pub open spec fn level_cache_keys_unique(lc: LevelCache) -> bool {
    &&& lc.parent_map matches Some(pm) ==> keys_distinct(map_keys(pm@))
    &&& lc.children_map matches Some(cm) ==> keys_distinct(map_keys(cm@))
}

pub open spec fn all_slots(cube: Cube) -> Seq<(int, int, int)> {
    cube_slots(cube, cube.dimensions@.len() as int)
}

pub open spec fn slot_name(cube: Cube, slot: (int, int, int)) -> LevelNameView {
    let h = crate::schema::hierarchy_at(cube, slot);
    LevelNameView { dimension: cube.dimensions@[slot.0].name@, hierarchy: h.name@, level: h.levels@[slot.2].name@ }
}

/// The last of the given level positions whose level has the given name, or -1.
pub open spec fn last_named(cube: Cube, slots: Seq<(int, int, int)>, name: Seq<char>) -> int
    decreases slots.len(),
{
    if slots.len() == 0 {
        -1
    } else if level_at(cube, slots.last()).name@ == name {
        slots.len() - 1
    } else {
        last_named(cube, slots.drop_last(), name)
    }
}

/// The cache of a time precision holds the last level of that name and its
/// member ids, or nothing when the cube has no such level.
pub open spec fn time_level_ok(
    cube: Cube,
    probes: Seq<LevelProbe>,
    slots: Seq<(int, int, int)>,
    name: Seq<char>,
    lvl: Option<Level>,
    vals: Option<Vec<String>>,
) -> bool {
    let k = last_named(cube, slots, name);
    if k < 0 {
        lvl is None && vals is None
    } else {
        let l = level_at(cube, slots[k]);
        &&& lvl matches Some(x) && x.name == l.name && x.key_column == l.key_column && x.name_column == l.name_column
        &&& vals matches Some(v) && v@ == level_ids(crate::schema::hierarchy_at(cube, slots[k]), slots[k].2, probes[k])
    }
}

proof fn lemma_time_step(
    cube: Cube,
    probes: Seq<LevelProbe>,
    done: Seq<(int, int, int)>,
    slot: (int, int, int),
    nm: Seq<char>,
    lvl_old: Option<Level>,
    vals_old: Option<Vec<String>>,
    lvl_new: Option<Level>,
    vals_new: Option<Vec<String>>,
)
    requires
        time_level_ok(cube, probes, done, nm, lvl_old, vals_old),
        level_at(cube, slot).name@ == nm ==> {
            let l = level_at(cube, slot);
            &&& lvl_new matches Some(x) && x.name == l.name && x.key_column == l.key_column && x.name_column == l.name_column
            &&& vals_new matches Some(v) && v@ == level_ids(crate::schema::hierarchy_at(cube, slot), slot.2, probes[done.len() as int])
        },
        level_at(cube, slot).name@ != nm ==> lvl_new == lvl_old && vals_new == vals_old,
    ensures
        time_level_ok(cube, probes, done.push(slot), nm, lvl_new, vals_new),
{
    let nd = done.push(slot);
    assert(nd.drop_last() =~= done);
    assert(nd.last() == slot);
    lemma_last_named_range(cube, done, nm);
    let k = last_named(cube, done, nm);
    if k >= 0 {
        assert(nd[k] == done[k]);
    }
}

proof fn lemma_last_named_range(cube: Cube, slots: Seq<(int, int, int)>, nm: Seq<char>)
    ensures
        -1 <= last_named(cube, slots, nm) < slots.len(),
    decreases slots.len(),
{
    if slots.len() > 0 {
        lemma_last_named_range(cube, slots.drop_last(), nm);
    }
}

pub open spec fn time_levels_ok(cube: Cube, probes: Seq<LevelProbe>, slots: Seq<(int, int, int)>, c: CubeCache) -> bool {
    &&& time_level_ok(cube, probes, slots, "Year"@, c.year_level, c.year_values)
    &&& time_level_ok(cube, probes, slots, "Quarter"@, c.quarter_level, c.quarter_values)
    &&& time_level_ok(cube, probes, slots, "Month"@, c.month_level, c.month_values)
    &&& time_level_ok(cube, probes, slots, "Week"@, c.week_level, c.week_values)
    &&& time_level_ok(cube, probes, slots, "Day"@, c.day_level, c.day_values)
}

/// The levels of dimension `di` with their member ids, in schema order;
/// answer `off + t` belongs to the `t`-th of them.
pub open spec fn dim_members(cube: Cube, probes: Seq<LevelProbe>, di: int) -> Seq<(LevelNameView, Seq<String>)> {
    let d = cube.dimensions@[di];
    let sl = dim_slots(d, di, d.hierarchies@.len() as int);
    let off = cube_slots(cube, di).len();
    Seq::new(sl.len(), |t: int| (slot_name(cube, sl[t]), level_ids(crate::schema::hierarchy_at(cube, sl[t]), sl[t].2, probes[off + t])))
}

pub open spec fn slot_members(cube: Cube, probes: Seq<LevelProbe>, slots: Seq<(int, int, int)>, off: int, n: int) -> Seq<(LevelNameView, Seq<String>)> {
    Seq::new(n as nat, |t: int| (slot_name(cube, slots[off + t]), level_ids(crate::schema::hierarchy_at(cube, slots[off + t]), slots[off + t].2, probes[off + t])))
}

proof fn lemma_dim_slots_mono(d: crate::schema::Dimension, di: int, a: int, b: int)
    requires
        0 <= a <= b,
    ensures
        dim_slots(d, di, a).len() <= dim_slots(d, di, b).len(),
    decreases b,
{
    if a < b {
        lemma_dim_slots_mono(d, di, a, b - 1);
    }
}

proof fn lemma_cube_slots_mono(cube: Cube, a: int, b: int)
    requires
        0 <= a <= b,
    ensures
        cube_slots(cube, a).len() <= cube_slots(cube, b).len(),
    decreases b,
{
    if a < b {
        lemma_cube_slots_mono(cube, a, b - 1);
    }
}

pub open spec fn level_keys(cube: Cube, cfg: Option<LogicLayerConfig>) -> Seq<Seq<char>> {
    cube_level_entries(cube, cfg, cube.dimensions@.len() as int).map_values(|e: (Seq<char>, LevelNameView)| e.0)
}

pub open spec fn property_keys(cube: Cube, cfg: Option<LogicLayerConfig>) -> Seq<Seq<char>> {
    crate::cache::cube_prop_entries(cube, cfg, cube.dimensions@.len() as int).map_values(
        |e: (Seq<char>, LevelNameView, Seq<char>)| e.0,
    )
}

/// Builds a cube's cache from the answers to its probes, given in the order
/// of [`probe_queries`]. Colliding short names are an error, and so is a
/// number of answers other than the number of levels.
#[verifier::rlimit(100)]
#[verifier::spinoff_prover]
pub fn build_cube_cache(cube: &Cube, ll_config: &Option<LogicLayerConfig>, probes: &Vec<LevelProbe>) -> (r: Result<
    CubeCache,
    QueryError,
>)
    ensures
        (keys_distinct(level_keys(*cube, *ll_config)) && keys_distinct(property_keys(*cube, *ll_config))
            && probes@.len() == all_slots(*cube).len()) <==> r is Ok,
        r matches Err(e) ==> e == (if keys_distinct(level_keys(*cube, *ll_config)) && keys_distinct(
            property_keys(*cube, *ll_config),
        ) {
            QueryError::MissingConstraint
        } else {
            QueryError::NameCollision
        }),
        r matches Ok(c) ==> {
            &&& cube_cache_built(*cube, *ll_config, c)
            &&& cache_keys_unique(c)
            &&& caches_from_probes(*cube, probes@, c.level_caches@, all_slots(*cube))
            &&& time_levels_ok(*cube, probes@, all_slots(*cube), c)
            &&& forall|di: int|
                0 <= di < cube.dimensions@.len() ==> index_view(#[trigger] c.dimension_caches@[di].1.id_map@)
                    == index_all(dim_members(*cube, probes@, di))
        },
{
    let level_map = match get_level_map(cube, ll_config) {
        Ok(m) => m,
        Err(e) => return Err(e),
    };
    let property_map = match get_property_map(cube, ll_config) {
        Ok(m) => m,
        Err(e) => return Err(e),
    };
    proof {
        reveal_strlit("Year");
        reveal_strlit("Quarter");
        reveal_strlit("Month");
        reveal_strlit("Week");
        reveal_strlit("Day");
    }
    let mut year_level: Option<Level> = None;
    let mut year_values: Option<Vec<String>> = None;
    let mut quarter_level: Option<Level> = None;
    let mut quarter_values: Option<Vec<String>> = None;
    let mut month_level: Option<Level> = None;
    let mut month_values: Option<Vec<String>> = None;
    let mut week_level: Option<Level> = None;
    let mut week_values: Option<Vec<String>> = None;
    let mut day_level: Option<Level> = None;
    let mut day_values: Option<Vec<String>> = None;
    let mut level_caches: Vec<(String, LevelCache)> = Vec::new();
    let mut dimension_caches: Vec<(String, DimensionCache)> = Vec::new();
    let ghost es = entries_view(level_map@);
    let ghost total = all_slots(*cube).len();
    let ghost mut done: Seq<(int, int, int)> = Seq::empty();
    let mut k: usize = 0;
    let mut di: usize = 0;
    while di < cube.dimensions.len()
        invariant
            di <= cube.dimensions.len(),
            es == entries_view(level_map@),
            es == cube_level_entries(*cube, *ll_config, cube.dimensions@.len() as int),
            keys_distinct(level_keys(*cube, *ll_config)),
            keys_distinct(property_keys(*cube, *ll_config)),
            total == all_slots(*cube).len(),
            k == level_caches@.len(),
            map_keys(level_caches@) =~= cube_level_entries(*cube, *ll_config, di as int).map_values(
                |e: (Seq<char>, LevelNameView)| e.0,
            ),
            map_keys(dimension_caches@) =~= crate::schema::dimension_names(cube.dimensions@).subrange(0, di as int),
            dimension_caches@.len() == di,
            forall|dj: int|
                0 <= dj < di ==> index_view(#[trigger] dimension_caches@[dj].1.id_map@) == index_all(dim_members(*cube, probes@, dj)),
            done == cube_slots(*cube, di as int),
            caches_from_probes(*cube, probes@, level_caches@, done),
            time_level_ok(*cube, probes@, done, "Year"@, year_level, year_values),
            time_level_ok(*cube, probes@, done, "Quarter"@, quarter_level, quarter_values),
            time_level_ok(*cube, probes@, done, "Month"@, month_level, month_values),
            time_level_ok(*cube, probes@, done, "Week"@, week_level, week_values),
            time_level_ok(*cube, probes@, done, "Day"@, day_level, day_values),
        decreases cube.dimensions.len() - di,
    {
        let d = &cube.dimensions[di];
        let mut id_map: Vec<(String, Vec<LevelName>)> = Vec::new();
        let ghost base_d = map_keys(level_caches@);
        let ghost done_d = done;
        proof {
            lemma_cube_slots_mono(*cube, di as int + 1, cube.dimensions@.len() as int);
            assert(cube_slots(*cube, di as int + 1) =~= cube_slots(*cube, di as int) + dim_slots(*d, di as int, d.hierarchies@.len() as int));
            assert(index_view(id_map@) =~= index_all(slot_members(*cube, probes@, done, done_d.len() as int, 0)));
        }
        let mut hi: usize = 0;
        while hi < d.hierarchies.len()
            invariant
                hi <= d.hierarchies.len(),
                di < cube.dimensions.len(),
                *d == cube.dimensions@[di as int],
                keys_distinct(level_keys(*cube, *ll_config)),
                keys_distinct(property_keys(*cube, *ll_config)),
                total == all_slots(*cube).len(),
                done_d == cube_slots(*cube, di as int),
                done_d.len() + dim_slots(*d, di as int, d.hierarchies@.len() as int).len() <= total,
                k == level_caches@.len(),
                map_keys(level_caches@) =~= base_d + crate::cache::dim_level_entries(*cube, *ll_config, *d, hi as int).map_values(
                    |e: (Seq<char>, LevelNameView)| e.0,
                ),
                done == done_d + dim_slots(*d, di as int, hi as int),
                caches_from_probes(*cube, probes@, level_caches@, done),
                index_view(id_map@) == index_all(slot_members(*cube, probes@, done, done_d.len() as int, done.len() - done_d.len())),
                time_level_ok(*cube, probes@, done, "Year"@, year_level, year_values),
                time_level_ok(*cube, probes@, done, "Quarter"@, quarter_level, quarter_values),
                time_level_ok(*cube, probes@, done, "Month"@, month_level, month_values),
                time_level_ok(*cube, probes@, done, "Week"@, week_level, week_values),
                time_level_ok(*cube, probes@, done, "Day"@, day_level, day_values),
            decreases d.hierarchies.len() - hi,
        {
            let h = &d.hierarchies[hi];
            let ghost base_h = map_keys(level_caches@);
            let ghost done_h = done;
            proof {
                lemma_dim_slots_mono(*d, di as int, hi as int + 1, d.hierarchies@.len() as int);
                assert(dim_slots(*d, di as int, hi as int + 1) =~= dim_slots(*d, di as int, hi as int) + hier_slots(di as int, hi as int, h.levels@.len() as int));
            }
            let mut li: usize = 0;
            while li < h.levels.len()
                invariant
                    li <= h.levels.len(),
                    di < cube.dimensions.len(),
                    hi < d.hierarchies.len(),
                    *h == d.hierarchies@[hi as int],
                    *d == cube.dimensions@[di as int],
                    keys_distinct(level_keys(*cube, *ll_config)),
                    keys_distinct(property_keys(*cube, *ll_config)),
                    total == all_slots(*cube).len(),
                    done_h.len() + h.levels@.len() <= total,
                    done_d.len() <= done_h.len(),
                    k == level_caches@.len(),
                    map_keys(level_caches@) =~= base_h + crate::cache::hier_level_entries(*cube, *ll_config, *d, *h, li as int).map_values(
                        |e: (Seq<char>, LevelNameView)| e.0,
                    ),
                    done == done_h + hier_slots(di as int, hi as int, li as int),
                    caches_from_probes(*cube, probes@, level_caches@, done),
                    index_view(id_map@) == index_all(slot_members(*cube, probes@, done, done_d.len() as int, done.len() - done_d.len())),
                    time_level_ok(*cube, probes@, done, "Year"@, year_level, year_values),
                    time_level_ok(*cube, probes@, done, "Quarter"@, quarter_level, quarter_values),
                    time_level_ok(*cube, probes@, done, "Month"@, month_level, month_values),
                    time_level_ok(*cube, probes@, done, "Week"@, week_level, week_values),
                    time_level_ok(*cube, probes@, done, "Day"@, day_level, day_values),
                decreases h.levels.len() - li,
            {
                let l = &h.levels[li];
                if k >= probes.len() {
                    return Err(QueryError::MissingConstraint);
                }
                let slot = Ghost((di as int, hi as int, li as int));
                let (lc, ids) = build_level_cache(h, li, &probes[k]);
                proof {
                    assert(crate::schema::hierarchy_at(*cube, slot@) == *h);
                    assert(level_at(*cube, slot@) == *l);
                }
                let ghost nd = done.push(slot@);
                let ghost oy = (year_level, year_values);
                let ghost oq = (quarter_level, quarter_values);
                let ghost om = (month_level, month_values);
                let ghost ow = (week_level, week_values);
                let ghost odd = (day_level, day_values);
                if text_eq(l.name.as_str(), "Year") {
                    year_level = Some(copy_level(l));
                    year_values = Some(crate::names::copy_texts(&ids));
                } else if text_eq(l.name.as_str(), "Quarter") {
                    quarter_level = Some(copy_level(l));
                    quarter_values = Some(crate::names::copy_texts(&ids));
                } else if text_eq(l.name.as_str(), "Month") {
                    month_level = Some(copy_level(l));
                    month_values = Some(crate::names::copy_texts(&ids));
                } else if text_eq(l.name.as_str(), "Week") {
                    week_level = Some(copy_level(l));
                    week_values = Some(crate::names::copy_texts(&ids));
                } else if text_eq(l.name.as_str(), "Day") {
                    day_level = Some(copy_level(l));
                    day_values = Some(crate::names::copy_texts(&ids));
                }
                proof {
                    assert forall|j: int| 0 <= j < done.len() implies nd[j] == done[j] by {}
                    assert(nd[done.len() as int] == slot@);
                    assert(k == done.len());
                    reveal_strlit("Year");
                    reveal_strlit("Quarter");
                    reveal_strlit("Month");
                    reveal_strlit("Week");
                    reveal_strlit("Day");
                    assert("Year"@[0] == 'Y' && "Quarter"@[0] == 'Q' && "Month"@[0] == 'M' && "Week"@[0] == 'W'
                        && "Day"@[0] == 'D');
                    assert(nd.drop_last() =~= done);
                    assert(ids@ == level_ids(crate::schema::hierarchy_at(*cube, slot@), slot@.2, probes@[done.len() as int]));
                    lemma_time_step(*cube, probes@, done, slot@, "Year"@, oy.0, oy.1, year_level, year_values);
                    lemma_time_step(*cube, probes@, done, slot@, "Quarter"@, oq.0, oq.1, quarter_level, quarter_values);
                    lemma_time_step(*cube, probes@, done, slot@, "Month"@, om.0, om.1, month_level, month_values);
                    lemma_time_step(*cube, probes@, done, slot@, "Week"@, ow.0, ow.1, week_level, week_values);
                    lemma_time_step(*cube, probes@, done, slot@, "Day"@, odd.0, odd.1, day_level, day_values);
                }
                let ln = LevelName::new(d.name.clone(), h.name.clone(), l.name.clone());
                let name = crate::cache::short_name_of(cube, ll_config, d, &ln, &None, &l.name);
                assert(ln@ == crate::cache::level_name_view(*d, *h, *l));
                assert(ln@ == slot_name(*cube, slot@));
                let ghost old_index = index_view(id_map@);
                index_ids(&mut id_map, &ids, &ln);
                proof {
                    let n0 = done.len() - done_d.len();
                    let m1 = slot_members(*cube, probes@, nd, done_d.len() as int, n0 + 1);
                    assert(m1.drop_last() =~= slot_members(*cube, probes@, done, done_d.len() as int, n0));
                    assert(m1.last() == (ln@, ids@));
                }
                let ghost before = map_keys(level_caches@);
                let ghost old_caches = level_caches@;
                level_caches.push((name, lc));
                assert(map_keys(level_caches@) =~= before.push(name@));
                proof {
                    assert(hier_slots(di as int, hi as int, li as int + 1) =~= hier_slots(di as int, hi as int, li as int).push(slot@));
                    assert forall|j: int| 0 <= j < nd.len() implies level_cache_built(
                        crate::schema::hierarchy_at(*cube, #[trigger] nd[j]),
                        nd[j].2,
                        probes@[j],
                        level_caches@[j].1,
                    ) by {
                        if j < done.len() {
                            assert(level_caches@[j] == old_caches[j]);
                        }
                    }
                    done = nd;
                }
                k = k + 1;
                li = li + 1;
            }
            hi = hi + 1;
        }
        proof {
            assert(done =~= cube_slots(*cube, di as int + 1));
            let n = done.len() - done_d.len();
            assert(slot_members(*cube, probes@, done, done_d.len() as int, n) =~= dim_members(*cube, probes@, di as int));
        }
        let ghost bd = map_keys(dimension_caches@);
        let ghost new_index = index_view(id_map@);
        dimension_caches.push((d.name.clone(), DimensionCache { id_map }));
        assert(map_keys(dimension_caches@) =~= bd.push(d.name@));
        assert(index_view(dimension_caches@[di as int].1.id_map@) == new_index);
        di = di + 1;
    }
    if k != probes.len() {
        return Err(QueryError::MissingConstraint);
    }
    assert(crate::schema::dimension_names(cube.dimensions@).subrange(0, di as int) =~= crate::schema::dimension_names(
        cube.dimensions@,
    ));
    proof {
        assert(map_keys(level_map@) =~= level_keys(*cube, *ll_config));
        assert(map_keys(property_map@) =~= property_keys(*cube, *ll_config));
        assert(map_keys(level_caches@) =~= level_keys(*cube, *ll_config));
        assert forall|j: int| 0 <= j < level_caches@.len() implies level_cache_keys_unique(#[trigger] level_caches@[j].1) by {
            let lc = level_caches@[j].1;
            let sl = done[j];
            assert(level_cache_built(crate::schema::hierarchy_at(*cube, sl), sl.2, probes@[j], lc));
            let h = crate::schema::hierarchy_at(*cube, sl);
            let levels = h.levels@;
            if let Some(pm) = lc.parent_map {
                let ps = match h.inline_table {
                    Some(t) => row_pairs(t.rows@, levels[sl.2].key_column@, levels[sl.2 - 1].key_column@),
                    None => zip_columns(probes@[j].keys_with_parent@, probes@[j].parent_keys@),
                };
                crate::cache::lemma_pair_map_keys(ps);
                assert(map_keys(pm@) =~= crate::resolver::pair_keys(pairs_view(pm@)));
            }
            if let Some(cm) = lc.children_map {
                let ps = match h.inline_table {
                    Some(t) => row_pairs(t.rows@, levels[sl.2].key_column@, levels[sl.2 + 1].key_column@),
                    None => zip_columns(probes@[j].keys_with_children@, probes@[j].child_keys@),
                };
                crate::cache::lemma_group_pairs_keys(ps);
                assert(map_keys(cm@) =~= crate::cache::group_keys(groups_view(cm@)));
            }
        }
        assert forall|d: int| 0 <= d < dimension_caches@.len() implies keys_distinct(
            map_keys(#[trigger] dimension_caches@[d].1.id_map@),
        ) by {
            let m = dimension_caches@[d].1.id_map@;
            lemma_member_index(dim_members(*cube, probes@, d));
            assert forall|i: int, j: int| 0 <= i < j < map_keys(m).len() implies map_keys(m)[i] != map_keys(m)[j] by {
                assert(map_keys(m)[i] == index_view(m)[i].0);
                assert(map_keys(m)[j] == index_view(m)[j].0);
            }
        }
    }
    Ok(
        CubeCache {
            name: cube.name.clone(),
            year_level,
            year_values,
            quarter_level,
            quarter_values,
            month_level,
            month_values,
            week_level,
            week_values,
            day_level,
            day_values,
            level_map,
            property_map,
            level_caches,
            dimension_caches,
        },
    )
}

} // verus!
