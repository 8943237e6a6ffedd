use tesseract_logic::cache::{
    get_inline_children_data, get_inline_parent_data, get_level_map, get_neighbors_map, get_property_map,
    get_unique_level_name, Cache, CubeCache, DimensionCache, LevelCache, Time, TimePrecision, TimeValue,
};
use tesseract_logic::config::{AliasConfig, LogicLayerConfig, NameOverride, NamedSetConfig};
use tesseract_logic::names::{LevelName, QueryError};
use tesseract_logic::probe::{build_cube_cache, probe_queries, LevelProbe};
use tesseract_logic::resolver::{
    cartesian_product, clean_cuts_map, generate_ts_queries, get_parent_captions, partial_cartesian,
    resolve_cuts, GeoNeighbors, LogicLayerQueryOpt,
};
use tesseract_logic::schema::{
    Aggregator, Cube, Dimension, DimensionType, Hierarchy, InlineRow, InlineTable, Level, Measure, Property,
    RowValue, Table,
};

fn s(x: &str) -> String {
    x.to_string()
}

fn sv(xs: &[&str]) -> Vec<String> {
    xs.iter().map(|x| s(x)).collect()
}

fn ln(d: &str, h: &str, l: &str) -> LevelName {
    LevelName::new(s(d), s(h), s(l))
}

fn level(name: &str, key: &str, name_col: Option<&str>) -> Level {
    Level { name: s(name), key_column: s(key), name_column: name_col.map(s), properties: None }
}

fn sales_cube() -> Cube {
    let mut state = level("State", "state_key", Some("state_name"));
    state.properties = Some(vec![Property { name: s("Name ES"), column: s("name_es"), caption_set: Some(s("es")) }]);
    Cube {
        name: s("Sales"),
        table: Table { name: s("sales_fact"), primary_key: None },
        dimensions: vec![
            Dimension {
                name: s("Geography"),
                is_shared: false,
                foreign_key: Some(s("geo_id")),
                foreign_key_type: None,
                dim_type: DimensionType::Geo,
                hierarchies: vec![Hierarchy {
                    name: s("Geography"),
                    table: Some(Table { name: s("geo_dim"), primary_key: None }),
                    primary_key: s("county_key"),
                    levels: vec![state, level("County", "county_key", Some("county_name"))],
                    inline_table: None,
                }],
            },
            Dimension {
                name: s("Time"),
                is_shared: false,
                foreign_key: Some(s("year")),
                foreign_key_type: None,
                dim_type: DimensionType::Time,
                hierarchies: vec![Hierarchy {
                    name: s("Time"),
                    table: None,
                    primary_key: s("year"),
                    levels: vec![level("Year", "year", None)],
                    inline_table: None,
                }],
            },
        ],
        measures: vec![Measure { name: s("Revenue"), column: s("revenue"), aggregator: Aggregator::Sum }],
    }
}

fn sales_cache() -> CubeCache {
    let state = ln("Geography", "Geography", "State");
    let county = ln("Geography", "Geography", "County");
    let year = ln("Time", "Time", "Year");
    CubeCache {
        name: s("Sales"),
        year_level: Some(level("Year", "year", None)),
        year_values: Some(sv(&["2018", "2019", "2020"])),
        quarter_level: None,
        quarter_values: None,
        month_level: None,
        month_values: None,
        week_level: None,
        week_values: None,
        day_level: None,
        day_values: None,
        level_map: vec![(s("State"), state.clone()), (s("County"), county.clone()), (s("Year"), year.clone())],
        property_map: vec![],
        level_caches: vec![
            (
                s("State"),
                LevelCache {
                    parent_map: None,
                    children_map: Some(vec![(s("01"), sv(&["01001", "01003"]))]),
                    neighbors_map: vec![(s("01"), sv(&["02"])), (s("02"), sv(&["01"]))],
                },
            ),
            (
                s("County"),
                LevelCache {
                    parent_map: Some(vec![(s("01001"), s("01")), (s("017"), s("01"))]),
                    children_map: None,
                    neighbors_map: vec![],
                },
            ),
            (s("Year"), LevelCache { parent_map: None, children_map: None, neighbors_map: vec![] }),
        ],
        dimension_caches: vec![(
            s("Geography"),
            DimensionCache {
                id_map: vec![
                    (s("01"), vec![state.clone()]),
                    (s("01001"), vec![county.clone()]),
                    (s("017"), vec![county.clone()]),
                    (s("99"), vec![state, county]),
                ],
            },
        )],
    }
}

fn request(cuts: Vec<(&str, &str)>) -> LogicLayerQueryOpt {
    LogicLayerQueryOpt {
        cube: s("Sales"),
        drilldowns: None,
        cuts: cuts.into_iter().map(|(k, v)| (s(k), s(v))).collect(),
        time: None,
        measures: Some(s("Revenue")),
        properties: None,
        filters: None,
        parents: None,
        top: None,
        top_where: None,
        sort: None,
        limit: None,
        growth: None,
        rca: None,
        debug: None,
        exclude_default_members: None,
        locale: None,
        sparse: None,
        rate: None,
    }
}

fn no_geo() -> GeoNeighbors {
    GeoNeighbors { configured: false, answers: vec![] }
}

fn resolve(cuts: Vec<(&str, &str)>) -> Result<(Vec<(String, Vec<(LevelName, Vec<String>)>)>, Vec<(String, String)>), QueryError> {
    let m: Vec<(String, String)> = cuts.into_iter().map(|(k, v)| (s(k), s(v))).collect();
    resolve_cuts(&m, &sales_cube(), &sales_cache(), &no_geo())
}

#[test]
fn children_expansion() {
    let (queries, headers) =
        generate_ts_queries(&request(vec![("Geography", "01:children")]), &sales_cube(), &sales_cache(), &None, &no_geo())
            .unwrap();
    assert_eq!(queries.len(), 1);
    assert_eq!(queries[0].cuts.len(), 1);
    assert_eq!(queries[0].cuts[0].level_name, ln("Geography", "Geography", "County"));
    assert_eq!(queries[0].cuts[0].members, sv(&["01001", "01003"]));
    assert!(headers.contains(&(s("County"), s("Geography"))));
}

#[test]
fn multi_level_cut_on_one_dimension() {
    let (queries, headers) = generate_ts_queries(
        &request(vec![("State", "01"), ("County", "017")]),
        &sales_cube(),
        &sales_cache(),
        &None,
        &no_geo(),
    )
    .unwrap();
    assert_eq!(queries.len(), 2);
    let state = ln("Geography", "Geography", "State");
    let county = ln("Geography", "Geography", "County");
    for q in &queries {
        assert_eq!(q.drilldowns, vec![state.clone(), county.clone()]);
        assert_eq!(q.cuts.len(), 1);
    }
    assert_eq!(queries[0].cuts[0].level_name, state);
    assert_eq!(queries[0].cuts[0].members, sv(&["01"]));
    assert_eq!(queries[1].cuts[0].level_name, county);
    assert_eq!(headers, vec![(s("State"), s("Geography")), (s("County"), s("Geography"))]);
}

#[test]
fn single_level_cut_keeps_its_name() {
    let (dm, headers) = resolve(vec![("State", "01,02")]).unwrap();
    assert_eq!(dm.len(), 1);
    assert_eq!(dm[0].1[0].1, sv(&["01", "02"]));
    assert!(headers.is_empty());
    let (_, headers) = resolve(vec![("Geography", "01")]).unwrap();
    assert_eq!(headers, vec![(s("State"), s("Geography"))]);
}

#[test]
fn cartesian_completeness() {
    let mut cube = sales_cube();
    cube.dimensions[1].hierarchies[0].levels.push(level("Month", "month", None));
    let mut cache = sales_cache();
    cache.level_map.push((s("Month"), ln("Time", "Time", "Month")));
    let req = request(vec![("State", "01"), ("County", "017"), ("Year", "2019"), ("Month", "3")]);
    let (queries, _) = generate_ts_queries(&req, &cube, &cache, &None, &no_geo()).unwrap();
    assert_eq!(queries.len(), 4);
    for q in &queries {
        assert_eq!(q.cuts.len(), 2);
        assert_eq!(q.drilldowns.len(), 4);
    }
    let (plain, _) = generate_ts_queries(&request(vec![]), &cube, &cache, &None, &no_geo()).unwrap();
    assert_eq!(plain.len(), 1);
    assert!(plain[0].cuts.is_empty());
    assert_eq!(cartesian_product(&vec![2, 3]).len(), 6);
    assert_eq!(cartesian_product(&vec![2, 3])[4], vec![1, 1]);
    assert!(cartesian_product(&vec![]).is_empty());
    assert_eq!(partial_cartesian(&vec![vec![0], vec![1]], 2), vec![vec![0, 0], vec![0, 1], vec![1, 0], vec![1, 1]]);
}

#[test]
fn time_round_trip() {
    let cache = sales_cache();
    let cut = |v: TimeValue| cache.get_time_cut(&Time { precision: TimePrecision::Year, value: v }).unwrap();
    assert_eq!(cut(TimeValue::Last), (s("Year"), s("2020")));
    assert_eq!(cut(TimeValue::First), (s("Year"), s("2018")));
    assert_eq!(cut(TimeValue::Value(2019)), (s("Year"), s("2019")));
    let mut req = request(vec![]);
    req.time = Some(s("year.latest"));
    let cleaned = clean_cuts_map(&req, &cache, &None).unwrap();
    assert_eq!(cleaned, vec![(s("Year"), s("2020"))]);
}

#[test]
fn time_latest_without_year_level() {
    let mut cache = sales_cache();
    cache.year_level = None;
    cache.year_values = None;
    let mut req = request(vec![]);
    req.time = Some(s("year.latest"));
    assert_eq!(
        generate_ts_queries(&req, &sales_cube(), &cache, &None, &no_geo()).err(),
        Some(QueryError::MalformedArgument)
    );
    assert_eq!(
        cache.get_time_cut(&Time { precision: TimePrecision::Year, value: TimeValue::Last }),
        Err(QueryError::MalformedArgument)
    );
}

#[test]
fn time_tokens() {
    assert_eq!(Time::from_str("month.oldest"), Ok(Time { precision: TimePrecision::Month, value: TimeValue::First }));
    assert_eq!(Time::from_key_value("day", "+17"), Ok(Time { precision: TimePrecision::Day, value: TimeValue::Value(17) }));
    assert_eq!(Time::from_str("year"), Err(QueryError::MalformedArgument));
    assert_eq!(Time::from_str("decade.latest"), Err(QueryError::MalformedArgument));
    assert_eq!(TimeValue::from_str("4294967296"), Err(QueryError::MalformedArgument));
    assert_eq!(TimeValue::from_str("4294967295"), Ok(TimeValue::Value(4294967295)));
    assert_eq!(TimePrecision::from_str("week"), Ok(TimePrecision::Week));
    let mut req = request(vec![]);
    req.time = Some(s("year.next"));
    assert_eq!(clean_cuts_map(&req, &sales_cache(), &None), Err(QueryError::MalformedArgument));
    req.time = Some(s("year"));
    assert_eq!(clean_cuts_map(&req, &sales_cache(), &None), Err(QueryError::MalformedArgument));
}

#[test]
fn neighbor_window() {
    let ids = sv(&["a", "b", "c", "d", "e"]);
    let m = get_neighbors_map(&ids);
    assert_eq!(m[2], (s("c"), sv(&["a", "b", "d", "e"])));
    assert_eq!(m[0], (s("a"), sv(&["b", "c"])));
    assert_eq!(m[4], (s("e"), sv(&["c", "d"])));
    assert_eq!(m[1], (s("b"), sv(&["a", "c", "d"])));
    assert!(get_neighbors_map(&vec![]).is_empty());
    assert_eq!(get_neighbors_map(&sv(&["x"])), vec![(s("x"), vec![])]);
}

#[test]
fn parents_and_neighbors_operations() {
    let (dm, headers) = resolve(vec![("County", "017:parents")]).unwrap();
    assert_eq!(dm[0].1, vec![(ln("Geography", "Geography", "State"), sv(&["01"]))]);
    assert_eq!(headers, vec![(s("County"), s("Geography")), (s("State"), s("Geography"))]);
    let (dm, _) = resolve(vec![("State", "01:parents")]).unwrap();
    assert!(dm.is_empty());
    let (dm, _) = resolve(vec![("State", "01:neighbors")]).unwrap();
    assert_eq!(dm[0].1, vec![(ln("Geography", "Geography", "State"), sv(&["02"]))]);
    let geo = GeoNeighbors { configured: true, answers: vec![(s("01"), sv(&["05", "06"]))] };
    let m = vec![(s("State"), s("01:neighbors"))];
    let (dm, _) = resolve_cuts(&m, &sales_cube(), &sales_cache(), &geo).unwrap();
    assert_eq!(dm[0].1[0].1, sv(&["05", "06"]));
    let m = vec![(s("State"), s("02:neighbors"))];
    assert_eq!(resolve_cuts(&m, &sales_cube(), &sales_cache(), &geo).err(), Some(QueryError::GeoserviceUnavailable));
}

#[test]
fn cut_errors_and_silent_skips() {
    assert_eq!(resolve(vec![("Geography", "99")]).err(), Some(QueryError::AmbiguousMember));
    assert_eq!(resolve(vec![("State", "01:siblings")]).err(), Some(QueryError::MalformedArgument));
    assert_eq!(resolve(vec![("State", "01:children:parents")]).err(), Some(QueryError::MalformedArgument));
    let (dm, headers) = resolve(vec![("Nowhere", "01"), ("Geography", "77"), ("State", "")]).unwrap();
    assert!(dm.is_empty());
    assert!(headers.is_empty());
    let (dm, _) = resolve(vec![("County", "01001:children")]).unwrap();
    assert!(dm.is_empty());
}

#[test]
fn named_sets_and_aliases() {
    let cfg = LogicLayerConfig {
        aliases: Some(vec![AliasConfig { name: s("sales"), cube: s("Sales") }]),
        named_sets: vec![NamedSetConfig { cut_key: s("State"), name: s("south"), members: s("01,13") }],
        cube_names: vec![],
        shared_dimension_names: vec![],
    };
    assert_eq!(cfg.sub_cube_name("sales"), "Sales");
    assert_eq!(cfg.sub_cube_name("other"), "other");
    assert_eq!(cfg.substitute_cut("State", "south"), "01,13");
    assert_eq!(cfg.substitute_cut("County", "south"), "south");
    let cleaned = clean_cuts_map(&request(vec![("State", "south,02")]), &sales_cache(), &Some(cfg)).unwrap();
    assert_eq!(cleaned, vec![(s("State"), s("01,13,02"))]);
}

#[test]
fn drilldown_and_option_parsing() {
    let mut req = request(vec![]);
    req.drilldowns = Some(s("State,[Year],Unknown,County"));
    req.parents = Some(true);
    req.locale = Some(s("es"));
    req.top = Some(s("10,State,Revenue,desc"));
    req.growth = Some(s("Year,Revenue"));
    req.rca = Some(s("State,Year,Revenue"));
    req.rate = Some(s("State.01,02"));
    let (queries, _) = generate_ts_queries(&req, &sales_cube(), &sales_cache(), &None, &no_geo()).unwrap();
    let q = &queries[0];
    assert_eq!(
        q.drilldowns,
        vec![ln("Geography", "Geography", "State"), ln("Time", "Time", "Year"), ln("Geography", "Geography", "County")]
    );
    assert!(q.parents);
    assert_eq!(q.captions.len(), 2);
    assert_eq!(q.captions[0].property, "Name ES");
    assert_eq!(q.captions[1].level_name, ln("Geography", "Geography", "State"));
    let top = q.options.top.as_ref().unwrap();
    assert_eq!(top.n, 10);
    assert_eq!(top.measure, "Revenue");
    assert_eq!(q.options.growth.as_ref().unwrap().time_drill, ln("Time", "Time", "Year"));
    assert_eq!(q.options.rate.as_ref().unwrap().values, sv(&["01", "02"]));
    let mut bad = request(vec![]);
    bad.growth = Some(s("Year"));
    assert_eq!(generate_ts_queries(&bad, &sales_cube(), &sales_cache(), &None, &no_geo()).err(), Some(QueryError::MalformedArgument));
    bad.growth = Some(s("Decade,Revenue"));
    assert_eq!(generate_ts_queries(&bad, &sales_cube(), &sales_cache(), &None, &no_geo()).err(), Some(QueryError::UnknownName));
    let mut bad = request(vec![]);
    bad.top = Some(s("ten,State,Revenue,desc"));
    assert_eq!(generate_ts_queries(&bad, &sales_cube(), &sales_cache(), &None, &no_geo()).err(), Some(QueryError::MalformedArgument));
}

#[test]
fn bracket_aware_arguments() {
    assert_eq!(LogicLayerQueryOpt::deserialize_args("a,[b,c],d"), sv(&["a", "b,c", "d"]));
    assert_eq!(LogicLayerQueryOpt::deserialize_args("a,"), sv(&["a"]));
    assert_eq!(LogicLayerQueryOpt::deserialize_args("a,,b"), sv(&["a", "", "b"]));
    assert!(LogicLayerQueryOpt::deserialize_args("").is_empty());
}

#[test]
fn parent_captions() {
    let caps = get_parent_captions(&sales_cube(), &ln("Geography", "Geography", "County"), &sv(&["en", "es"]));
    assert_eq!(caps.len(), 1);
    assert_eq!(caps[0].level_name, ln("Geography", "Geography", "State"));
    assert!(get_parent_captions(&sales_cube(), &ln("Geography", "Geography", "State"), &sv(&["es"])).is_empty());
}

#[test]
fn short_names_and_collisions() {
    let cube = sales_cube();
    let map = get_level_map(&cube, &None).unwrap();
    assert_eq!(map.iter().map(|e| e.0.clone()).collect::<Vec<_>>(), sv(&["State", "County", "Year"]));
    let cfg = LogicLayerConfig {
        aliases: None,
        named_sets: vec![],
        cube_names: vec![NameOverride {
            scope: s("Sales"),
            level_name: ln("Time", "Time", "Year"),
            property: None,
            unique_name: s("State"),
        }],
        shared_dimension_names: vec![],
    };
    assert_eq!(get_level_map(&cube, &Some(cfg.clone())), Err(QueryError::NameCollision));
    assert_eq!(get_unique_level_name(&cube, &Some(cfg), &ln("Time", "Time", "Year")), Some(s("State")));
    assert_eq!(get_unique_level_name(&cube, &None, &ln("Time", "Time", "Decade")), None);
    let props = get_property_map(&cube, &None).unwrap();
    assert_eq!(props.len(), 1);
    assert_eq!(props[0].0, "Name ES");
}

fn inline_table() -> InlineTable {
    let row = |st: &str, co: &str| InlineRow {
        row_values: vec![
            RowValue { column: s("st"), value: s(st) },
            RowValue { column: s("co"), value: s(co) },
        ],
    };
    InlineTable { alias: s("geo"), rows: vec![row("01", "011"), row("01", "012"), row("02", "021")] }
}

#[test]
fn inline_relations() {
    let st = level("State", "st", None);
    let co = level("County", "co", None);
    let parents = get_inline_parent_data(&st, &co, &inline_table());
    assert_eq!(parents, vec![(s("011"), s("01")), (s("012"), s("01")), (s("021"), s("02"))]);
    let children = get_inline_children_data(&st, &co, &inline_table());
    assert_eq!(children, vec![(s("01"), sv(&["011", "012"])), (s("02"), sv(&["021"]))]);
}

#[test]
fn cache_from_probes() {
    let cube = sales_cube();
    let plan = probe_queries(&cube);
    assert_eq!(plan.len(), 3);
    assert_eq!(plan[0].distinct_sql.as_deref(), Some("select distinct state_key from geo_dim order by state_key"));
    assert_eq!(plan[0].parent_sql, None);
    assert_eq!(
        plan[1].parent_sql.as_deref(),
        Some("select distinct state_key, county_key from geo_dim group by state_key, county_key order by state_key, county_key")
    );
    assert_eq!(plan[2].distinct_sql.as_deref(), Some("select distinct year from sales_fact order by year"));
    let empty = LevelProbe { distinct_values: vec![], parent_keys: vec![], keys_with_parent: vec![], keys_with_children: vec![], child_keys: vec![] };
    let probes = vec![
        LevelProbe {
            distinct_values: sv(&["01", "02"]),
            parent_keys: vec![],
            keys_with_parent: vec![],
            keys_with_children: sv(&["01", "01", "02"]),
            child_keys: sv(&["011", "012", "021"]),
        },
        LevelProbe {
            distinct_values: sv(&["011", "012", "021"]),
            parent_keys: sv(&["01", "01", "02"]),
            keys_with_parent: sv(&["011", "012", "021"]),
            keys_with_children: vec![],
            child_keys: vec![],
        },
        LevelProbe { distinct_values: sv(&["2019", "2020"]), ..empty.clone() },
    ];
    let c = build_cube_cache(&cube, &None, &probes).unwrap();
    assert_eq!(c.name, "Sales");
    assert_eq!(c.year_values, Some(sv(&["2019", "2020"])));
    assert_eq!(c.level_caches[0].1.children_map, Some(vec![(s("01"), sv(&["011", "012"])), (s("02"), sv(&["021"]))]));
    assert_eq!(c.level_caches[1].1.parent_map.as_ref().unwrap()[2], (s("021"), s("02")));
    assert_eq!(c.dimension_caches[0].1.id_map[0], (s("01"), vec![ln("Geography", "Geography", "State")]));
    assert_eq!(c.year_level.as_ref().unwrap().name, "Year");
    assert!(c.quarter_level.is_none() && c.quarter_values.is_none());
    assert_eq!(build_cube_cache(&cube, &None, &vec![empty.clone()]).err(), Some(QueryError::MissingConstraint));
    let mut too_many = probes.clone();
    too_many.push(empty.clone());
    assert_eq!(build_cube_cache(&cube, &None, &too_many).err(), Some(QueryError::MissingConstraint));
    let clash = LogicLayerConfig {
        aliases: None,
        named_sets: vec![],
        cube_names: vec![NameOverride {
            scope: s("Sales"),
            level_name: ln("Time", "Time", "Year"),
            property: None,
            unique_name: s("County"),
        }],
        shared_dimension_names: vec![],
    };
    assert_eq!(build_cube_cache(&cube, &Some(clash), &probes).err(), Some(QueryError::NameCollision));
    let cache = Cache { cubes: vec![c] };
    assert!(cache.find_cube_info("Sales").is_some());
    assert!(cache.find_cube_info("Other").is_none());
}

#[test]
fn unknown_drill_tokens_are_dropped_one_by_one() {
    let mut req = request(vec![]);
    req.drilldowns = Some(s("State,Bogus,County"));
    req.properties = Some(s("Nope,Name ES"));
    let mut cache = sales_cache();
    cache.property_map.push((s("Name ES"), tesseract_logic::names::PropertyName::new(s("Geography"), s("Geography"), s("State"), s("Name ES"))));
    let (queries, _) = generate_ts_queries(&req, &sales_cube(), &cache, &None, &no_geo()).unwrap();
    assert_eq!(queries[0].drilldowns, vec![ln("Geography", "Geography", "State"), ln("Geography", "Geography", "County")]);
    assert_eq!(queries[0].properties.len(), 1);
}

#[test]
fn level_caches_are_found_by_short_name() {
    let mut cache = sales_cache();
    cache.level_map[0].0 = s("St");
    cache.level_caches[0].0 = s("St");
    let m = vec![(s("St"), s("01:children"))];
    let (dm, _) = resolve_cuts(&m, &sales_cube(), &cache, &no_geo()).unwrap();
    assert_eq!(dm[0].1[0].1, sv(&["01001", "01003"]));
}

#[test]
fn member_without_levels_is_skipped() {
    let mut cache = sales_cache();
    cache.dimension_caches[0].1.id_map.push((s("55"), vec![]));
    let m = vec![(s("Geography"), s("55"))];
    let (dm, headers) = resolve_cuts(&m, &sales_cube(), &cache, &no_geo()).unwrap();
    assert!(dm.is_empty());
    assert!(headers.is_empty());
}

#[test]
fn inline_relations_use_each_row() {
    let st = level("State", "st", None);
    let co = level("County", "co", None);
    let row = |cells: Vec<(&str, &str)>| InlineRow {
        row_values: cells.into_iter().map(|(c, v)| RowValue { column: s(c), value: s(v) }).collect(),
    };
    let t = InlineTable {
        alias: s("geo"),
        rows: vec![
            row(vec![("st", "01"), ("co", "011")]),
            row(vec![("st", "02")]),
            row(vec![("co", "021"), ("st", "02")]),
            row(vec![("st", "01"), ("co", "012")]),
            row(vec![("st", "01"), ("co", "011")]),
        ],
    };
    let parents = get_inline_parent_data(&st, &co, &t);
    assert_eq!(parents, vec![(s("011"), s("01")), (s("021"), s("02")), (s("012"), s("01"))]);
    let children = get_inline_children_data(&st, &co, &t);
    assert_eq!(children, vec![(s("01"), sv(&["011", "012"])), (s("02"), sv(&["021"]))]);
    let empty = InlineTable { alias: s("geo"), rows: vec![] };
    assert!(get_inline_children_data(&st, &co, &empty).is_empty());
}

#[test]
fn member_index_lists_each_level_once() {
    let mut cube = sales_cube();
    cube.dimensions[0].hierarchies[0].inline_table = Some(InlineTable {
        alias: s("geo"),
        rows: vec![
            InlineRow { row_values: vec![RowValue { column: s("state_key"), value: s("01") }, RowValue { column: s("county_key"), value: s("01") }] },
            InlineRow { row_values: vec![RowValue { column: s("state_key"), value: s("01") }, RowValue { column: s("county_key"), value: s("02") }] },
        ],
    });
    let empty = LevelProbe { distinct_values: vec![], parent_keys: vec![], keys_with_parent: vec![], keys_with_children: vec![], child_keys: vec![] };
    let c = build_cube_cache(&cube, &None, &vec![empty.clone(), empty.clone(), empty]).unwrap();
    let id_map = &c.dimension_caches[0].1.id_map;
    assert_eq!(
        id_map[0],
        (s("01"), vec![ln("Geography", "Geography", "State"), ln("Geography", "Geography", "County")])
    );
    assert_eq!(id_map[1], (s("02"), vec![ln("Geography", "Geography", "County")]));
    assert_eq!(id_map.len(), 2);
    assert_eq!(c.level_caches[0].1.neighbors_map, vec![(s("01"), vec![])]);
    assert_eq!(c.level_caches[0].1.children_map, Some(vec![(s("01"), sv(&["01", "02"]))]));
}
