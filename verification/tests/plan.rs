use qrender::cards::plan::{apply, select, size, Variant};
use qrender::cards::{Card, CardKind, FactRow, FactValue, ItemChip, Layout, TemporalSpan, Tier};

fn chip(image: bool, ended: bool) -> FactValue {
    FactValue::Item(ItemChip {
        qid: "Q1".to_string(),
        label: "x".to_string(),
        image_url: if image { Some("http://commons.wikimedia.org/x.jpg".to_string()) } else { None },
        thumb_url: if image {
            Some("https://commons.wikimedia.org/x.jpg?width=96".to_string())
        } else {
            None
        },
        span: if ended {
            Some(TemporalSpan { start: Some("2018".to_string()), end: Some("2021".to_string()), point: None })
        } else {
            None
        },
        note: None,
        current: false,
    })
}

fn facts(values: Vec<FactValue>) -> CardKind {
    CardKind::Facts { rows: vec![FactRow { label: "p".to_string(), values }] }
}

#[test]
fn one_item_with_image_is_a_portrait() {
    assert_eq!(select(&facts(vec![chip(true, false)])), Variant::Portrait);
}

#[test]
fn one_item_without_image_is_a_fact_line() {
    assert_eq!(select(&facts(vec![chip(false, false)])), Variant::FactLine);
}

#[test]
fn image_rich_enumerations_are_tile_strips() {
    let values = vec![chip(true, false), chip(true, false), chip(true, true)];
    assert_eq!(select(&facts(values)), Variant::TileStrip);
}

#[test]
fn spans_without_images_are_current_with_history() {
    let values = vec![chip(false, false), chip(false, true), chip(false, true)];
    assert_eq!(select(&facts(values)), Variant::CurrentWithHistory);
}

#[test]
fn plain_enumerations_are_chip_lists() {
    let values = (0..5).map(|_| chip(false, false)).collect();
    assert_eq!(select(&facts(values)), Variant::ChipList);
}

#[test]
fn grouped_rows_are_a_facts_table() {
    let kind = CardKind::Facts {
        rows: vec![
            FactRow { label: "a".to_string(), values: vec![chip(false, false)] },
            FactRow { label: "b".to_string(), values: vec![chip(false, false)] },
        ],
    };
    assert_eq!(select(&kind), Variant::FactsTable);
}

#[test]
fn variant_names_are_kebab_case() {
    assert_eq!(Variant::CurrentWithHistory.as_str(), "current-history");
    assert_eq!(Variant::IndicatorTable.as_str(), "indicator-table");
    assert!(Variant::TileStrip.is_chip_cover());
    assert!(Variant::ChipList.is_chip_cover());
    assert!(!Variant::Portrait.is_chip_cover());
}

fn card(kind: CardKind) -> Card {
    Card {
        title: "t".to_string(),
        localized_title: true,
        icon: None,
        source_pids: vec!["P1".to_string()],
        variant: Variant::default(),
        layout: Layout::default(),
        tier: Tier::Standard,
        kind,
    }
}

#[test]
fn planning_sizes_and_orders_cover_chips() {
    // a chip list shows preferred values with pictures first, as tiles
    let mut values: Vec<FactValue> = (0..4).map(|_| chip(false, false)).collect();
    if let FactValue::Item(c) = &mut values[3] {
        c.current = true;
        c.label = "now".to_string();
    }
    let planned = apply(card(facts(values)));
    assert_eq!(planned.variant, Variant::ChipList);
    assert_eq!((planned.layout.cols, planned.layout.rows), (3, 2));
    let CardKind::Facts { rows } = &planned.kind else { panic!("facts") };
    let FactValue::Item(first) = &rows[0].values[0] else { panic!("chip") };
    assert_eq!(first.label, "now");
}

#[test]
fn tiles_get_tile_sized_thumbnails() {
    let planned = apply(card(facts(vec![chip(true, false)])));
    assert_eq!(planned.variant, Variant::Portrait);
    let CardKind::Facts { rows } = &planned.kind else { panic!("facts") };
    let FactValue::Item(c) = &rows[0].values[0] else { panic!("chip") };
    assert_eq!(c.thumb_url.as_deref(), Some("https://commons.wikimedia.org/x.jpg?width=400"));
}

#[test]
fn facts_tables_grow_with_their_values() {
    let rows: Vec<FactRow> = (0..3)
        .map(|i| FactRow { label: format!("r{i}"), values: (0..3).map(|_| chip(false, false)).collect() })
        .collect();
    let planned = apply(card(CardKind::Facts { rows }));
    assert_eq!(planned.variant, Variant::FactsTable);
    // nine values: three rows of three plus a header row
    assert_eq!((planned.layout.cols, planned.layout.rows), (2, 4));
}

#[test]
fn facts_table_rows_grow_with_values_up_to_four() {
    let table = |n: usize| CardKind::Facts {
        rows: vec![
            FactRow { label: "a".to_string(), values: (0..n).map(|_| chip(false, false)).collect() },
            FactRow { label: "b".to_string(), values: vec![chip(false, false)] },
        ],
    };
    assert_eq!(select(&table(1)), Variant::FactsTable);
    assert_eq!(size(Variant::FactsTable, &table(1)), (2, 2));
    assert_eq!(size(Variant::FactsTable, &table(5)), (2, 3));
    assert_eq!(size(Variant::FactsTable, &table(8)), (2, 4));
    // far past a byte's worth of thirds the table stays at its tallest
    assert_eq!(select(&table(800)), Variant::FactsTable);
    assert_eq!(size(Variant::FactsTable, &table(800)), (2, 4));
}
