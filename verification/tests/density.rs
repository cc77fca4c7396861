use qrender::cards::density::consolidate_region;
use qrender::cards::plan::Variant;
use qrender::cards::{Card, CardKind, FactValue, Layout, SeriesPoint, Tier};

fn trend(title: &str, pid: &str) -> Card {
    Card {
        title: title.to_string(),
        localized_title: true,
        icon: None,
        source_pids: vec![pid.to_string()],
        variant: Variant::default(),
        layout: Layout::default(),
        tier: Tier::Standard,
        kind: CardKind::StatSeries {
            current: "1".to_string(),
            note: None,
            series: vec![
                SeriesPoint { label: "2011".to_string(), value: "1".to_string(), display: "1".to_string() },
                SeriesPoint { label: "2016".to_string(), value: "2".to_string(), display: "2".to_string() },
            ],
        },
    }
}

fn map(title: &str, pid: &str) -> Card {
    Card {
        title: title.to_string(),
        localized_title: true,
        icon: None,
        source_pids: vec![pid.to_string()],
        variant: Variant::default(),
        layout: Layout::default(),
        tier: Tier::Standard,
        kind: CardKind::GeoMap {
            lat: "1".to_string(),
            lon: "2".to_string(),
            label: title.to_string(),
            geoshape: None,
        },
    }
}

fn stat() -> Card {
    Card {
        title: "x".to_string(),
        localized_title: true,
        icon: None,
        source_pids: vec!["P1".to_string()],
        variant: Variant::default(),
        layout: Layout::default(),
        tier: Tier::Standard,
        kind: CardKind::Stat { value: "v".to_string(), note: None },
    }
}

#[test]
fn three_trends_merge_into_an_indicator_table() {
    let mut cards = vec![
        stat(),
        trend("birth rate", "P8763"),
        trend("death rate", "P10091"),
        trend("fertility rate", "P4841"),
    ];
    consolidate_region(&mut cards);
    assert_eq!(cards.len(), 2);
    // merged card sits where the first trend was
    let CardKind::Indicators { indicators } = &cards[1].kind else {
        panic!("expected indicators, got {:?}", cards[1].kind);
    };
    assert_eq!(indicators.len(), 3);
    assert_eq!(indicators[0].label, "birth rate");
    assert_eq!(cards[1].variant, Variant::IndicatorTable);
    assert_eq!(cards[1].source_pids, ["P8763", "P10091", "P4841"]);
}

#[test]
fn two_trends_stay_separate() {
    let mut cards = vec![trend("a", "P1"), trend("b", "P2")];
    consolidate_region(&mut cards);
    assert_eq!(cards.len(), 2);
}

#[test]
fn sibling_maps_merge_into_a_coordinate_list() {
    let mut cards = vec![
        map("coordinates of northernmost point", "P1332"),
        stat(),
        map("coordinates of southernmost point", "P1333"),
    ];
    consolidate_region(&mut cards);
    assert_eq!(cards.len(), 2);
    let CardKind::Facts { rows } = &cards[0].kind else {
        panic!("expected facts, got {:?}", cards[0].kind);
    };
    assert_eq!(rows.len(), 2);
    assert_eq!(rows[0].label, "coordinates of northernmost point");
}

#[test]
fn a_lone_map_is_untouched() {
    let mut cards = vec![map("coordinate location", "P625"), stat()];
    consolidate_region(&mut cards);
    assert!(matches!(cards[0].kind, CardKind::GeoMap { .. }));
}

#[test]
fn merged_coordinates_read_lat_comma_lon() {
    let mut cards = vec![map("north", "P1332"), map("south", "P1333")];
    consolidate_region(&mut cards);
    assert_eq!(cards.len(), 1);
    assert_eq!(cards[0].title, "coordinates");
    assert_eq!(cards[0].icon.as_deref(), Some("location_on"));
    let CardKind::Facts { rows } = &cards[0].kind else { panic!("facts") };
    let FactValue::Text { value, .. } = &rows[1].values[0] else { panic!("text") };
    assert_eq!(value, "1, 2");
}

#[test]
fn merging_keeps_the_regions_tier() {
    let mut cards: Vec<Card> = vec![trend("a", "P1"), trend("b", "P2"), trend("c", "P3")];
    for c in &mut cards {
        c.tier = Tier::Footnote;
    }
    consolidate_region(&mut cards);
    assert_eq!(cards.len(), 1);
    assert_eq!(cards[0].tier, Tier::Footnote);
    assert_eq!(cards[0].icon.as_deref(), Some("pace"));
}
