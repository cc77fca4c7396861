use qrender::model::{Rank, Value};
use qrender::sparql::{rows_fit, Binding, SparqlValue};
use qrender::transform::{entity_id, last_uri_segment, transform, try_transform};

fn uri(v: &str) -> SparqlValue {
    SparqlValue { value_type: "uri".to_string(), value: v.to_string(), datatype: None, lang: None }
}

fn lit(v: &str) -> SparqlValue {
    SparqlValue { value_type: "literal".to_string(), value: v.to_string(), datatype: None, lang: None }
}

fn row(entries: Vec<(&str, SparqlValue)>) -> Binding {
    Binding { entries: entries.into_iter().map(|(k, v)| (k.to_string(), v)).collect() }
}

fn header() -> Vec<(&'static str, SparqlValue)> {
    vec![("itemLabel", lit("Nairobi")), ("itemDescription", lit("capital city of Kenya"))]
}

fn image_row() -> Binding {
    let mut e = header();
    e.extend(vec![
        ("property", uri("http://www.wikidata.org/entity/P18")),
        ("propertyLabel", lit("image")),
        ("propertyType", uri("http://wikiba.se/ontology#CommonsMedia")),
        ("statement", uri("http://www.wikidata.org/entity/statement/Q3870-1")),
        ("statementValue", uri("http://commons.wikimedia.org/wiki/Special:FilePath/Nairobi%20banner.jpg")),
        ("statementRankLabel", lit("Normal")),
    ]);
    row(e)
}

fn country_row(statement: &str, rank: &str) -> Binding {
    let mut e = header();
    e.extend(vec![
        ("property", uri("http://www.wikidata.org/entity/P17")),
        ("propertyLabel", lit("country")),
        ("propertyType", uri("http://wikiba.se/ontology#WikibaseItem")),
        ("statement", uri(statement)),
        ("statementValue", uri("http://www.wikidata.org/entity/Q114")),
        ("statementValueLabel", lit("Kenya")),
        ("statementRankLabel", lit(rank)),
    ]);
    row(e)
}

#[test]
fn uri_helpers() {
    assert_eq!(last_uri_segment("http://wikiba.se/ontology#Time"), "ontology#Time");
    assert_eq!(entity_id("http://www.wikidata.org/entity/Q42"), Some("Q42".to_string()));
    assert_eq!(entity_id("http://example.org/Q42"), None);
}

#[test]
fn header_and_media_file_names() {
    let item = transform("Q3870", &[image_row()]);
    assert_eq!(item.qid, "Q3870");
    assert_eq!(item.label.as_deref(), Some("Nairobi"));
    assert_eq!(item.description.as_deref(), Some("capital city of Kenya"));
    let p = item.get("P18").expect("image property");
    assert_eq!(p.label, "image");
    match &p.statements[0].value {
        Value::CommonsMedia { file_name, .. } => assert_eq!(file_name, "Nairobi banner.jpg"),
        other => panic!("unexpected {other:?}"),
    }
}

#[test]
fn item_values_keep_their_labels() {
    let item = transform("Q3870", &[country_row("http://www.wikidata.org/entity/statement/Q3870-2", "Preferred")]);
    let p = item.get("P17").expect("country");
    assert_eq!(p.statements[0].rank, Rank::Preferred);
    match &p.statements[0].value {
        Value::ItemRef { qid, label, .. } => {
            assert_eq!(qid, "Q114");
            assert_eq!(label, "Kenya");
        },
        other => panic!("unexpected {other:?}"),
    }
}

#[test]
fn deprecated_statements_are_dropped() {
    let item = transform(
        "Q3870",
        &[
            image_row(),
            country_row("http://www.wikidata.org/entity/statement/Q3870-3", "Deprecated"),
        ],
    );
    assert!(item.get("P17").is_none(), "a property left without statements is dropped");
    assert!(item.get("P18").is_some());
}

#[test]
fn rows_of_one_statement_merge() {
    let s = "http://www.wikidata.org/entity/statement/Q3870-4";
    let item = transform("Q3870", &[country_row(s, "Normal"), country_row(s, "Normal")]);
    assert_eq!(item.get("P17").unwrap().statements.len(), 1);
    assert!(try_transform("Q3870", &[country_row(s, "Normal")]).is_some());
}

#[test]
fn a_row_binds_each_variable_once() {
    assert!(rows_fit(&[image_row(), country_row("http://www.wikidata.org/entity/statement/Q3870-2", "Normal")]));
    let mut e = header();
    e.push(("itemLabel", lit("Nairobi City")));
    assert!(!rows_fit(&[image_row(), row(e)]));
}
