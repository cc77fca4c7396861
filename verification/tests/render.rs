use qrender::archetype::ArchetypesConfig;
use qrender::error::QRenderError;
use qrender::grouping::GroupingConfig;
use qrender::model::{Property, Rank, Statement, Value, WikidataItem};
use qrender::{render_typed_item, RenderConfig, RenderFormatOptions};

fn item() -> WikidataItem {
    WikidataItem {
        qid: "Q3870".to_string(),
        label: Some("Nairobi".to_string()),
        description: None,
        properties: vec![Property {
            pid: "P571".to_string(),
            label: "inception".to_string(),
            statements: vec![Statement {
                value: Value::Time { iso: "1899-01-01T00:00:00Z".to_string(), precision: Some(9) },
                rank: Rank::Normal,
                qualifiers: vec![],
            }],
        }],
    }
}

fn groups() -> GroupingConfig {
    GroupingConfig { groups: vec![], properties: vec![] }
}

#[test]
fn text_rendering_of_an_item() {
    let config = RenderConfig::new_text_renderer("en", groups());
    assert!(config.ignore_ids);
    let out = render_typed_item(&item(), &config, &ArchetypesConfig { archetypes: vec![] }).unwrap();
    assert_eq!(out, "# Nairobi\n\n## inception\n1899\n");
}

#[test]
fn markdown_rendering_of_an_item() {
    let config = RenderConfig::new_markdow_renderer("en", groups());
    let out = render_typed_item(&item(), &config, &ArchetypesConfig { archetypes: vec![] }).unwrap();
    assert_eq!(out, "# Nairobi\n\n## inception\n**1899**\n");
}

#[test]
fn factoid_pages_take_their_template_path() {
    let config = RenderConfig::new(RenderFormatOptions::Factoid, true, "en", groups());
    match render_typed_item(&item(), &config, &ArchetypesConfig { archetypes: vec![] }) {
        Err(QRenderError::UnsupportedFormat(f)) => assert_eq!(f, "factoid"),
        other => panic!("unexpected {other:?}"),
    }
}

#[test]
fn text_is_the_default_format() {
    assert_eq!(RenderFormatOptions::default(), RenderFormatOptions::Text);
}
