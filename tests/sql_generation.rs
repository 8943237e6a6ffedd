use tesseract_logic::binder::{dialect_sql, Database};
use tesseract_logic::names::{LevelName, PropertyName, QueryError};
use tesseract_logic::query::{Cut, PostAggregation, Query};
use tesseract_logic::schema::{
    Aggregator, Cube, Dimension, DimensionType, Hierarchy, Level, Measure, MemberType, Property, Schema,
    Table,
};
use tesseract_logic::sql::{
    agg_sql_string_pass_1, agg_sql_string_pass_2, agg_sql_string_select_mea, cut_sql_string, dim_subquery,
    measure_texts, primary_agg, CutSql, DrilldownSql, LevelColumn, MeasureSql, TableSql,
};

fn s(x: &str) -> String {
    x.to_string()
}

fn level(name: &str, key: &str, name_col: Option<&str>) -> Level {
    Level { name: s(name), key_column: s(key), name_column: name_col.map(s), properties: None }
}

fn sales_cube() -> Cube {
    let mut county = level("County", "county_key", Some("county_name"));
    county.properties = Some(vec![Property { name: s("Population"), column: s("pop"), caption_set: None }]);
    Cube {
        name: s("Sales"),
        table: Table { name: s("sales_fact"), primary_key: None },
        dimensions: vec![
            Dimension {
                name: s("Geography"),
                is_shared: false,
                foreign_key: Some(s("geo_id")),
                foreign_key_type: None,
                dim_type: DimensionType::Geo,
                hierarchies: vec![Hierarchy {
                    name: s("Geography"),
                    table: Some(Table { name: s("geo_dim"), primary_key: Some(s("county_key")) }),
                    primary_key: s("county_key"),
                    levels: vec![level("State", "state_key", Some("state_name")), county],
                    inline_table: None,
                }],
            },
            Dimension {
                name: s("Time"),
                is_shared: false,
                foreign_key: Some(s("year")),
                foreign_key_type: None,
                dim_type: DimensionType::Time,
                hierarchies: vec![Hierarchy {
                    name: s("Time"),
                    table: None,
                    primary_key: s("year"),
                    levels: vec![level("Year", "year", None)],
                    inline_table: None,
                }],
            },
        ],
        measures: vec![
            Measure { name: s("Revenue"), column: s("revenue"), aggregator: Aggregator::Sum },
            Measure { name: s("AvgPrice"), column: s("price"), aggregator: Aggregator::Avg },
        ],
    }
}

fn schema() -> Schema {
    Schema { cubes: vec![sales_cube()] }
}

fn ln(d: &str, h: &str, l: &str) -> LevelName {
    LevelName::new(s(d), s(h), s(l))
}

fn no_options() -> PostAggregation {
    PostAggregation {
        top: None,
        top_where: None,
        sort: None,
        limit: None,
        growth: None,
        rca: None,
        rate: None,
        debug: false,
        sparse: false,
        exclude_default_members: false,
    }
}

fn query(drills: Vec<LevelName>, cuts: Vec<Cut>, measures: Vec<&str>, parents: bool) -> Query {
    Query {
        drilldowns: drills,
        cuts,
        measures: measures.into_iter().map(s).collect(),
        properties: vec![],
        captions: vec![],
        parents,
        options: no_options(),
    }
}

const FACT_2020: &str = "select geo_id, sum(revenue) as m0 from sales_fact where year in (2020) group by geo_id";
const STATE_DIM: &str =
    "select state_key, state_name, county_key as geo_id from geo_dim group by state_key, state_name, county_key";

#[test]
fn single_drill_single_cut_one_measure() {
    let q = query(
        vec![ln("Geography", "Geography", "State")],
        vec![Cut { level_name: ln("Time", "Time", "Year"), members: vec![s("2020")] }],
        vec!["Revenue"],
        false,
    );
    let (sql, headers) = schema().sql_query("Sales", &q, Database::Clickhouse).unwrap();
    assert_eq!(headers, vec![s("State ID"), s("State"), s("Revenue")]);
    let star = format!(
        "select geo_id, state_key, state_name, m0 from ({}) all inner join ({}) using geo_id",
        STATE_DIM, FACT_2020
    );
    let expected = format!(
        "select state_key, state_name, sum(m0) as final_m0 from ({}) group by state_key, state_name",
        star
    );
    assert_eq!(sql, expected);
}

#[test]
fn mysql_dialect_rewrites_the_join() {
    let q = query(vec![ln("Geography", "Geography", "State")], vec![], vec!["Revenue"], false);
    let (a, ha) = schema().sql_query("Sales", &q, Database::Clickhouse).unwrap();
    let (b, hb) = schema().sql_query("Sales", &q, Database::MySql).unwrap();
    assert_eq!(ha, hb);
    assert!(a.contains(") all inner join ("));
    assert!(!b.contains("all inner join"));
    assert_eq!(b, a.replace(" all inner join ", " inner join "));
    assert_eq!(dialect_sql(Database::Clickhouse, a.clone()), a);
}

#[test]
fn fact_table_of_a_cube() {
    assert_eq!(schema().cube_table("Sales"), Some(TableSql { name: s("sales_fact"), primary_key: None }));
    assert_eq!(schema().cube_table("Nope"), None);
}

#[test]
fn parents_on_drill() {
    let q = query(vec![ln("Geography", "Geography", "County")], vec![], vec!["Revenue"], true);
    let (sql, headers) = schema().sql_query("Sales", &q, Database::Clickhouse).unwrap();
    assert_eq!(headers, vec![s("State ID"), s("State"), s("County ID"), s("County"), s("Revenue")]);
    assert!(sql.contains(
        "select state_key, state_name, county_key, county_name, county_key as geo_id from geo_dim"
    ));
    assert!(sql.ends_with("group by state_key, state_name, county_key, county_name"));
}

#[test]
fn parents_yield_one_column_group_per_level() {
    let cube = sales_cube();
    let drills = vec![ln("Geography", "Geography", "County")];
    let with = cube.cube_drill_cols(&drills, &vec![], true).unwrap();
    let without = cube.cube_drill_cols(&drills, &vec![], false).unwrap();
    assert_eq!(with[0].level_columns.len(), 2);
    assert_eq!(without[0].level_columns.len(), 1);
    let top = cube.cube_drill_cols(&vec![ln("Geography", "Geography", "State")], &vec![], true).unwrap();
    assert_eq!(top[0].level_columns.len(), 1);
}

#[test]
fn two_measures_one_averaging() {
    let meas = vec![
        MeasureSql { column: s("revenue"), aggregator: Aggregator::Sum },
        MeasureSql { column: s("price"), aggregator: Aggregator::Avg },
    ];
    let (pass_one, sel, pass_two) = measure_texts(&meas);
    assert_eq!(pass_one.join(", "), "sum(revenue) as m0, sum(price) as m1, count(price) as m2");
    assert_eq!(sel.join(", "), "m0, m1, m2");
    assert_eq!(pass_two.join(", "), "sum(m0) as final_m0, sum(m1)/sum(m2) as final_m1");
    let q = query(vec![ln("Geography", "Geography", "State")], vec![], vec!["Revenue", "AvgPrice"], false);
    let (sql, headers) = schema().sql_query("Sales", &q, Database::Clickhouse).unwrap();
    assert_eq!(headers, vec![s("State ID"), s("State"), s("Revenue"), s("AvgPrice")]);
    assert!(sql.contains("sum(revenue) as m0, sum(price) as m1, count(price) as m2 from sales_fact"));
    assert!(sql.starts_with("select state_key, state_name, sum(m0) as final_m0, sum(m1)/sum(m2) as final_m1 from ("));
}

#[test]
fn header_count_matches_column_count() {
    let cube = sales_cube();
    let drills = vec![ln("Geography", "Geography", "County"), ln("Time", "Time", "Year")];
    let props = vec![PropertyName::new(s("Geography"), s("Geography"), s("County"), s("Population"))];
    for parents in [false, true] {
        let cols = cube.cube_drill_cols(&drills, &props, parents).unwrap();
        let headers = cube.cube_drill_headers(&drills, &props, parents).unwrap();
        let ncols: usize = cols.iter().map(|d| d.columns().len()).sum();
        assert_eq!(headers.len(), ncols);
    }
    let headers = cube.cube_drill_headers(&drills, &props, false).unwrap();
    assert_eq!(
        cube.cube_drill_headers(&vec![ln("Geography", "Geography", "City")], &vec![], false),
        Err(QueryError::UnknownName)
    );
    assert_eq!(headers, vec![s("County ID"), s("County"), s("Population"), s("Year")]);
}

#[test]
fn rebinding_gives_the_same_ir() {
    let q = query(
        vec![ln("Geography", "Geography", "County")],
        vec![Cut { level_name: ln("Geography", "Geography", "State"), members: vec![s("01")] }],
        vec!["Revenue", "AvgPrice"],
        true,
    );
    let cube = sales_cube();
    let a = cube.cube_cut_cols(&q.cuts).unwrap();
    let b = cube.cube_cut_cols(&q.cuts).unwrap();
    assert_eq!(a, b);
    let c = cube.cube_drill_cols(&q.drilldowns, &q.properties, true).unwrap();
    let d = cube.cube_drill_cols(&q.drilldowns, &q.properties, true).unwrap();
    assert_eq!(c, d);
    assert_eq!(
        schema().sql_query("Sales", &q, Database::Clickhouse),
        schema().sql_query("Sales", &q, Database::Clickhouse)
    );
}

#[test]
fn binder_errors() {
    let sch = schema();
    let drill = vec![ln("Geography", "Geography", "State")];
    assert_eq!(
        sch.sql_query("Sales", &query(drill.clone(), vec![], vec![], false), Database::Clickhouse),
        Err(QueryError::MissingConstraint)
    );
    assert_eq!(
        sch.sql_query("Sales", &query(vec![], vec![], vec!["Revenue"], false), Database::Clickhouse),
        Err(QueryError::MissingConstraint)
    );
    assert_eq!(
        sch.sql_query("Nope", &query(drill.clone(), vec![], vec!["Revenue"], false), Database::Clickhouse),
        Err(QueryError::UnknownName)
    );
    assert_eq!(
        sch.sql_query("Sales", &query(drill.clone(), vec![], vec!["Profit"], false), Database::Clickhouse),
        Err(QueryError::UnknownName)
    );
    assert_eq!(
        sch.sql_query(
            "Sales",
            &query(vec![ln("Geography", "Geography", "City")], vec![], vec!["Revenue"], false),
            Database::Clickhouse
        ),
        Err(QueryError::UnknownName)
    );
    let mut q = query(drill.clone(), vec![], vec!["Revenue"], false);
    q.properties = vec![PropertyName::new(s("Geography"), s("Geography"), s("County"), s("Population"))];
    assert_eq!(sch.sql_query("Sales", &q, Database::Clickhouse), Err(QueryError::MissingConstraint));
    let mut q = query(vec![ln("Geography", "Geography", "County")], vec![], vec!["Revenue"], false);
    q.properties = vec![PropertyName::new(s("Geography"), s("Geography"), s("County"), s("Area"))];
    assert_eq!(sch.sql_query("Sales", &q, Database::Clickhouse), Err(QueryError::UnknownName));
    let mut cube = sales_cube();
    cube.dimensions[0].foreign_key = None;
    let sch2 = Schema { cubes: vec![cube] };
    assert_eq!(
        sch2.sql_query("Sales", &query(drill, vec![], vec!["Revenue"], false), Database::Clickhouse),
        Err(QueryError::MissingForeignKey)
    );
}

#[test]
fn cube_lookup_takes_the_first_match() {
    let mut other = sales_cube();
    other.table.name = s("other_fact");
    let sch = Schema { cubes: vec![sales_cube(), other] };
    assert_eq!(sch.cube_metadata("Sales").unwrap().table.name, "sales_fact");
    assert!(sch.cube_metadata("Missing").is_none());
}

#[test]
fn schema_navigation() {
    let cube = sales_cube();
    let county = ln("Geography", "Geography", "County");
    let state = ln("Geography", "Geography", "State");
    assert_eq!(cube.get_child_level(&state).unwrap().unwrap().name, "County");
    assert!(cube.get_child_level(&county).unwrap().is_none());
    let parents = cube.get_level_parents(&county).unwrap();
    assert_eq!(parents.len(), 1);
    assert_eq!(parents[0].name, "State");
    assert_eq!(cube.get_dimension(&county).unwrap().name, "Geography");
    assert_eq!(cube.get_child_level(&ln("X", "Y", "Z")), Err(QueryError::UnknownName));
}

fn drill(table: &str, fk: &str, cols: Vec<(&str, Option<&str>)>) -> DrilldownSql {
    DrilldownSql {
        table: TableSql { name: s(table), primary_key: None },
        primary_key: s("id"),
        foreign_key: s(fk),
        level_columns: cols
            .into_iter()
            .map(|(k, n)| LevelColumn { key_column: s(k), name_column: n.map(s) })
            .collect(),
        property_columns: vec![],
    }
}

#[test]
fn primary_key_dimension_joins_first() {
    let table = TableSql { name: s("fact"), primary_key: Some(s("b_id")) };
    let drills = vec![drill("dim_a", "a_id", vec![("a", None)]), drill("dim_b", "b_id", vec![("b", None)])];
    let meas = vec![MeasureSql { column: s("x"), aggregator: Aggregator::Max }];
    let (sql, cols) = primary_agg(&table, &vec![], &drills, &meas, &vec![]);
    assert_eq!(cols, "a, b");
    let fact = "select b_id, a_id, max(x) as m0 from fact group by b_id, a_id";
    let dim_a = "select a, id as a_id from dim_a group by a, id";
    let dim_b = "select b, id as b_id from dim_b group by b, id";
    let j1 = format!("select b_id, a_id, b, m0 from ({}) all inner join ({}) using b_id", dim_b, fact);
    let j2 = format!("select b_id, a_id, b, a, m0 from ({}) all inner join ({}) using a_id", dim_a, j1);
    assert_eq!(sql, format!("select a, b, max(m0) as final_m0 from ({}) group by a, b", j2));
}

#[test]
fn inline_drill_and_external_cut() {
    let table = TableSql { name: s("fact"), primary_key: None };
    let drills = vec![drill("fact", "year", vec![("year", None)])];
    let cuts = vec![
        CutSql {
            table: TableSql { name: s("geo"), primary_key: None },
            primary_key: s("geo_key"),
            foreign_key: s("geo_id"),
            column: s("state"),
            members: vec![s("01"), s("02")],
            member_type: MemberType::Text,
        },
        CutSql {
            table: TableSql { name: s("geo2"), primary_key: None },
            primary_key: s("k"),
            foreign_key: s("g2"),
            column: s("c"),
            members: vec![],
            member_type: MemberType::NonText,
        },
    ];
    let meas = vec![MeasureSql { column: s("v"), aggregator: Aggregator::CountDistinct }];
    let hidden = vec![drill("fact", "month", vec![("month", None)])];
    let (sql, _) = primary_agg(&table, &cuts, &drills, &meas, &hidden);
    let fact = "select year, month, groupUniqArray(v) as m0 from fact where geo_id in (select geo_key from geo where state in ('01', '02')) and g2 in (select k from geo2) group by year, month";
    assert_eq!(
        sql,
        format!("select year, length(groupUniqArrayArray(m0)) as final_m0 from ({}) group by year", fact)
    );
}

#[test]
fn fragment_renderers() {
    let c = CutSql {
        table: TableSql { name: s("t"), primary_key: None },
        primary_key: s("p"),
        foreign_key: s("f"),
        column: s("col"),
        members: vec![s("a"), s("b")],
        member_type: MemberType::Text,
    };
    assert_eq!(cut_sql_string(&c), "col in ('a', 'b')");
    assert_eq!(agg_sql_string_pass_1(&s("c"), Aggregator::Min, 12), "min(c) as m12");
    assert_eq!(agg_sql_string_pass_1(&s("c"), Aggregator::Count, 0), "count(c) as m0");
    assert_eq!(agg_sql_string_select_mea(Aggregator::Avg, 3), "m3, m4");
    assert_eq!(agg_sql_string_pass_2(Aggregator::Max, 7, 2), "max(m7) as final_m2");
    assert_eq!(agg_sql_string_pass_2(Aggregator::Count, 0, 0), "count(m0) as final_m0");
    let d = drill("dim", "fk", vec![("k1", Some("n1")), ("k2", None)]);
    assert_eq!(d.col_string(), "k1, n1, k2");
    assert_eq!(dim_subquery(&d), "select k1, n1, k2, id as fk from dim group by k1, n1, k2, id");
}

#[test]
fn members_of_a_level() {
    let sch = schema();
    let (sql, headers) = sch.members_sql("Sales", &ln("Geography", "Geography", "County")).unwrap();
    assert_eq!(sql, "select distinct county_key, county_name from geo_dim order by county_key");
    assert_eq!(headers, vec![s("County ID"), s("County")]);
    let (sql, headers) = sch.members_sql("Sales", &ln("Time", "Time", "Year")).unwrap();
    assert_eq!(sql, "select distinct year from sales_fact order by year");
    assert_eq!(headers, vec![s("Year")]);
    assert_eq!(sch.members_sql("Sales", &ln("Time", "Time", "Decade")), Err(QueryError::UnknownName));
    assert_eq!(sch.members_sql("Nope", &ln("Time", "Time", "Year")), Err(QueryError::UnknownName));
}
