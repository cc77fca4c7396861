use qrender::data_loading::{datatype_name, statement_type, to_legacy};
use qrender::legacy::{group_properties, GroupConfig, GroupingConfig, StatementType};
use qrender::model::{Property, Qualifier, Rank, Statement, Value, WikidataItem};
use qrender::rendering::{render_plain, RendererKind, RendererRegistry};
use qrender::error::QRenderError;

fn typed() -> WikidataItem {
    WikidataItem {
        qid: "Q1".to_string(),
        label: None,
        description: None,
        properties: vec![
            Property {
                pid: "P2048".to_string(),
                label: "height".to_string(),
                statements: vec![Statement {
                    value: Value::Quantity {
                        amount: "8848".to_string(),
                        raw: "+8848".to_string(),
                        unit_qid: Some("Q11573".to_string()),
                        unit_label: Some("metre".to_string()),
                    },
                    rank: Rank::Preferred,
                    qualifiers: vec![Qualifier {
                        pid: "P459".to_string(),
                        label: "determination method".to_string(),
                        value: Value::ItemRef { qid: "Q2".to_string(), label: "survey".to_string(), image_url: None },
                    }],
                }],
            },
            Property {
                pid: "P17".to_string(),
                label: "country".to_string(),
                statements: vec![Statement {
                    value: Value::ItemRef { qid: "Q837".to_string(), label: "Nepal".to_string(), image_url: None },
                    rank: Rank::Normal,
                    qualifiers: vec![],
                }],
            },
        ],
    }
}

#[test]
fn typed_values_map_to_the_flat_shape() {
    let legacy = to_legacy(&typed());
    assert_eq!(legacy.properties.len(), 2);
    let (pid, height) = &legacy.properties[0];
    assert_eq!(pid, "P2048");
    assert_eq!(height.wd_label, "height");
    let s = &height.statements[0];
    assert_eq!(s.value, "+8848");
    assert_eq!(s.datatype, "quantity");
    assert_eq!(s.rank, "Preferred");
    assert_eq!(s.statement_type, StatementType::Literal);
    assert_eq!(s.unit_of_measure.as_deref(), Some("http://www.wikidata.org/entity/Q11573"));
    assert_eq!(s.unit_of_measure_label.as_deref(), Some("metre"));
    let q = &s.qualifiers.as_ref().expect("qualifiers")[0];
    assert_eq!(q.value, "survey");
    assert_eq!(q.qualifier_type, "uri");
    assert_eq!(q.datatype, "wikibase-item");
    let country = &legacy.properties[1].1.statements[0];
    assert!(country.qualifiers.is_none());
    assert_eq!(country.qid.as_deref(), Some("Q837"));
    assert_eq!(country.statement_type, StatementType::Uri);
}

#[test]
fn datatype_names() {
    assert_eq!(datatype_name(&Value::Url { url: "u".to_string() }), "url");
    assert_eq!(datatype_name(&Value::ExternalId { id: "i".to_string() }), "external-id");
    assert_eq!(statement_type(&Value::Url { url: "u".to_string() }), StatementType::Uri);
    assert_eq!(statement_type(&Value::Text { text: "t".to_string() }), StatementType::Literal);
}

fn config() -> GroupingConfig {
    GroupingConfig {
        groups: vec![
            ("dimensions".to_string(), GroupConfig { pids: vec!["P2048".to_string()], renderer: Some("dimensions".to_string()), order: Some(1) }),
            ("identifiers".to_string(), GroupConfig { pids: vec!["P213".to_string()], renderer: None, order: Some(5) }),
            ("misc".to_string(), GroupConfig { pids: vec![], renderer: None, order: None }),
        ],
    }
}

#[test]
fn groups_come_in_descending_order_then_default() {
    let legacy = to_legacy(&typed());
    let groups = group_properties(&legacy, &config());
    let names: Vec<&str> = groups.iter().map(|g| g.0.as_str()).collect();
    assert_eq!(names, ["identifiers", "dimensions", "misc", "default"]);
    assert_eq!(groups[1].1.len(), 1);
    assert_eq!(groups[3].1[0].pid, "P17");
}

#[test]
fn dimensions_render_one_line_per_statement() {
    let legacy = to_legacy(&typed());
    let groups = group_properties(&legacy, &config());
    let text = render_plain("dimensions", &groups[1].1).unwrap();
    assert_eq!(text, "Dimensions Group:\ndimensions\n  height: +8848 \n");
}

#[test]
fn renderers_by_name() {
    assert_eq!(RendererRegistry::get_renderer("default").unwrap(), RendererKind::Default);
    assert_eq!(RendererRegistry::get_renderer("dimensions").unwrap(), RendererKind::Dimensions);
    match RendererRegistry::get_renderer("fancy") {
        Err(QRenderError::UnknownRenderer(name)) => assert_eq!(name, "fancy"),
        other => panic!("unexpected {other:?}"),
    }
}

#[test]
fn render_plan_picks_renderers_and_skips_empty_groups() {
    let legacy = to_legacy(&typed());
    let plan = qrender::render::render_plan(&legacy, &config(), true).unwrap();
    let names: Vec<(&str, RendererKind)> = plan.iter().map(|g| (g.0.as_str(), g.1)).collect();
    assert_eq!(names, [("dimensions", RendererKind::Dimensions), ("default", RendererKind::Default)]);
}
