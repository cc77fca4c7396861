use qrender::archetype::{
    resolve, ArchetypeConfig, ArchetypesConfig, HeroConfig, SectionConfig, TimelineConfig, GENERIC,
};
use qrender::cards::page::{page_fits, synthesize};
use qrender::cards::plan::Variant;
use qrender::cards::synthesis::item_fits;
use qrender::cards::{Card, CardKind, FactValue, FactoidPage, Tier};
use qrender::grouping::{GroupConfig, GroupingConfig, MeterConfig, PropertyConfig};
use qrender::model::{Property, Qualifier, Rank, Statement, Value, WikidataItem};

fn time(iso: &str) -> Value {
    Value::Time { iso: iso.to_string(), precision: Some(9) }
}

fn item_ref(qid: &str, label: &str) -> Value {
    Value::ItemRef { qid: qid.to_string(), label: label.to_string(), image_url: None }
}

fn qualifier(pid: &str, label: &str, value: Value) -> Qualifier {
    Qualifier { pid: pid.to_string(), label: label.to_string(), value }
}

fn statement(value: Value, rank: Rank, qualifiers: Vec<Qualifier>) -> Statement {
    Statement { value, rank, qualifiers }
}

fn property(pid: &str, label: &str, statements: Vec<Statement>) -> Property {
    Property { pid: pid.to_string(), label: label.to_string(), statements }
}

fn item(properties: Vec<Property>) -> WikidataItem {
    WikidataItem {
        qid: "Q1".to_string(),
        label: Some("Testland".to_string()),
        description: None,
        properties,
    }
}

fn no_groups() -> GroupingConfig {
    GroupingConfig { groups: vec![], properties: vec![] }
}

fn no_archetypes() -> ArchetypesConfig {
    ArchetypesConfig { archetypes: vec![] }
}

fn quantity(amount: &str) -> Value {
    Value::Quantity { amount: amount.to_string(), raw: amount.to_string(), unit_qid: None, unit_label: None }
}

fn page_of(item: &WikidataItem, config: &GroupingConfig, archetypes: &ArchetypesConfig) -> FactoidPage {
    assert!(page_fits(item, archetypes));
    synthesize(item, "en", config, archetypes, true)
}

fn find<'a>(page: &'a FactoidPage, pids: &[&str]) -> Option<&'a Card> {
    page.all_cards().into_iter().find(|c| c.source_pids == pids)
}

#[test]
fn preferred_media_supersedes_variants() {
    // Two flag images, one preferred: only the preferred renders
    let media = |file: &str, rank: Rank| Statement {
        value: Value::CommonsMedia {
            file_name: file.to_string(),
            url: format!("http://commons.wikimedia.org/wiki/Special:FilePath/{file}"),
        },
        rank,
        qualifiers: vec![],
    };
    let item = item(vec![property(
        "P41",
        "flag image",
        vec![media("Old flag.svg", Rank::Normal), media("Flag.svg", Rank::Preferred)],
    )]);
    let page = page_of(&item, &no_groups(), &no_archetypes());
    let card = find(&page, &["P41"]).expect("flag card");
    let CardKind::Image { image } = &card.kind else {
        panic!("one preferred flag must be a single Image, got {:?}", card.kind);
    };
    assert_eq!(image.file_name, "Flag.svg");
    assert_eq!(image.page_url, "https://commons.wikimedia.org/wiki/File:Flag.svg");
}

#[test]
fn configured_scale_becomes_a_meter() {
    let config = GroupingConfig {
        groups: vec![],
        properties: vec![(
            "P1081".to_string(),
            PropertyConfig {
                icon: None,
                ignore: false,
                cols: None,
                rows: None,
                sort: None,
                footnote: false,
                meter: Some(MeterConfig {
                    min: "0".to_string(),
                    max: "1".to_string(),
                    low: Some("0.55".to_string()),
                    high: Some("0.8".to_string()),
                    optimum: Some("1".to_string()),
                }),
            },
        )],
    };
    let item = item(vec![property(
        "P1081",
        "Human Development Index",
        vec![statement(
            quantity("0.601"),
            Rank::Preferred,
            vec![qualifier("P585", "point in time", time("2021-01-01T00:00:00Z"))],
        )],
    )]);
    let page = page_of(&item, &config, &no_archetypes());
    let card = find(&page, &["P1081"]).expect("meter card");
    let CardKind::Meter { value, note, max, .. } = &card.kind else {
        panic!("HDI must be a Meter, got {:?}", card.kind);
    };
    assert_eq!(value, "0.601");
    assert_eq!(max, "1");
    assert_eq!(note.as_deref(), Some("2021"));
    assert_eq!(card.variant, Variant::Gauge);
}

#[test]
fn sparse_item_stays_generic() {
    let config = ArchetypesConfig {
        archetypes: vec![(
            "person".to_string(),
            ArchetypeConfig {
                p31: vec!["Q5".to_string()],
                signals: vec!["P569".to_string(), "P570".to_string(), "P19".to_string(), "P20".to_string()],
                hero: None,
                sections: vec![],
            },
        )],
    };
    let item = WikidataItem { qid: "Q1".to_string(), label: Some("Testland".to_string()), description: None, properties: vec![] };
    assert_eq!(resolve(&item, &config), GENERIC);
}

fn people() -> ArchetypesConfig {
    ArchetypesConfig {
        archetypes: vec![(
            "person".to_string(),
            ArchetypeConfig {
                p31: vec!["Q5".to_string()],
                signals: vec!["P569".to_string(), "P570".to_string(), "P19".to_string(), "P20".to_string()],
                hero: Some(HeroConfig {
                    dates: vec!["P569".to_string(), "P570".to_string()],
                    tagline: Some("P106".to_string()),
                    emblem: None,
                }),
                sections: vec![
                    SectionConfig {
                        name: "life".to_string(),
                        icon: Some("person".to_string()),
                        pids: vec!["P569".to_string(), "P570".to_string()],
                        timeline: Some(TimelineConfig {
                            pids: vec!["P569".to_string(), "P166".to_string(), "P570".to_string()],
                            min_events: 3,
                        }),
                    },
                    SectionConfig { name: "career".to_string(), icon: None, pids: vec!["P106".to_string()], timeline: None },
                ],
            },
        )],
    }
}

fn person() -> WikidataItem {
    item(vec![
        property("P31", "instance of", vec![statement(item_ref("Q5", "human"), Rank::Normal, vec![])]),
        property("P569", "date of birth", vec![statement(time("1952-03-11T00:00:00Z"), Rank::Normal, vec![])]),
        property("P570", "date of death", vec![statement(time("2001-05-11T00:00:00Z"), Rank::Normal, vec![])]),
        property(
            "P166",
            "award received",
            vec![statement(
                item_ref("Q1", "Inkpot Award"),
                Rank::Normal,
                vec![qualifier("P585", "point in time", time("1983-01-01T00:00:00Z"))],
            )],
        ),
        property(
            "P106",
            "occupation",
            vec![
                statement(item_ref("Q2", "screenwriter"), Rank::Normal, vec![]),
                statement(item_ref("Q3", "writer"), Rank::Preferred, vec![]),
            ],
        ),
    ])
}

#[test]
fn person_resolves_by_instance_of() {
    assert_eq!(resolve(&person(), &people()), "person");
}

#[test]
fn signals_back_up_a_missing_instance_of() {
    let mut p = person();
    p.properties.remove(0);
    p.properties.push(property("P19", "place of birth", vec![statement(item_ref("Q84", "London"), Rank::Normal, vec![])]));
    p.properties.push(property("P20", "place of death", vec![statement(item_ref("Q9", "Santa Barbara"), Rank::Normal, vec![])]));
    assert_eq!(resolve(&p, &people()), "person");
}

#[test]
fn person_hero_facts_from_recipe() {
    let page = page_of(&person(), &no_groups(), &people());
    assert_eq!(page.archetype, "person");
    let facts = page.hero_facts.as_ref().expect("hero facts");
    assert_eq!(facts.date_range.as_deref(), Some("1952 \u{2013} 2001"));
    assert_eq!(facts.tagline.as_deref(), Some("writer \u{b7} screenwriter"));
}

#[test]
fn person_timeline_opens_life_section() {
    let page = page_of(&person(), &no_groups(), &people());
    let names: Vec<&str> = page.sections.iter().map(|s| s.name.as_str()).collect();
    assert_eq!(names, ["life", "career"]);
    let life = &page.sections[0];
    let CardKind::Timeline { events } = &life.cards[0].kind else {
        panic!("life leads with a timeline, got {:?}", life.cards[0].kind);
    };
    assert_eq!(events.len(), 3);
    assert!(events.windows(2).all(|w| w[0].iso <= w[1].iso));
    assert_eq!(events[1].display, "1983");
    assert_eq!(events[1].detail.as_deref(), Some("Inkpot Award"));
    assert_eq!(life.cards[0].source_pids, ["P569", "P166", "P570"]);
    // claimed cards left the overflow grid
    assert!(page.overflow.iter().all(|c| !c.source_pids.iter().any(|p| p == "P569" || p == "P106")));
}

#[test]
fn temporal_qualifiers_become_a_span() {
    let item = item(vec![property(
        "P26",
        "spouse",
        vec![statement(
            item_ref("Q2", "Emma Portner"),
            Rank::Normal,
            vec![
                qualifier("P580", "start time", time("2018-01-01T00:00:00Z")),
                qualifier("P582", "end time", time("2021-01-01T00:00:00Z")),
            ],
        )],
    )]);
    let page = page_of(&item, &no_groups(), &no_archetypes());
    let card = find(&page, &["P26"]).expect("spouse");
    let CardKind::Facts { rows } = &card.kind else {
        panic!("spouse must be Facts, got {:?}", card.kind);
    };
    let FactValue::Item(chip) = &rows[0].values[0] else { panic!("item value") };
    assert_eq!(chip.label, "Emma Portner");
    let span = chip.span.as_ref().expect("marriage span");
    assert_eq!(span.display(), "2018 \u{2013} 2021");
    assert!(span.ended());
    assert!(chip.ended());
    assert_eq!(chip.note, None, "dates must not repeat as prose");
}

#[test]
fn same_year_quantities_are_keyed_rows_not_a_series() {
    let twitter = |n: &str, rank: Rank, month: &str| {
        statement(
            quantity(n),
            rank,
            vec![
                qualifier("P585", "point in time", time(&format!("2021-{month}-01T00:00:00Z"))),
                qualifier("P6552", "Twitter user numeric ID", Value::ExternalId { id: "1".to_string() }),
            ],
        )
    };
    let item = item(vec![property(
        "P8687",
        "social media followers",
        vec![
            twitter("1900000", Rank::Normal, "01"),
            twitter("1974124", Rank::Preferred, "05"),
            statement(
                quantity("5058816"),
                Rank::Normal,
                vec![
                    qualifier("P585", "point in time", time("2021-03-01T00:00:00Z")),
                    qualifier("P2003", "Instagram username", Value::ExternalId { id: "x".to_string() }),
                ],
            ),
        ],
    )]);
    let page = page_of(&item, &no_groups(), &no_archetypes());
    let card = find(&page, &["P8687"]).expect("followers card");
    let CardKind::Facts { rows } = &card.kind else {
        panic!("colliding years must be Facts rows, got {:?}", card.kind);
    };
    assert_eq!(rows.len(), 2);
    assert!(rows[0].label.contains("Twitter"), "{}", rows[0].label);
    let FactValue::Text { value, .. } = &rows[0].values[0] else { panic!("quantity row") };
    assert_eq!(value, "1974124", "preferred value leads");
    assert!(rows[1].label.contains("Instagram"), "{}", rows[1].label);
    let FactValue::Text { value, .. } = &rows[1].values[0] else { panic!("quantity row") };
    assert_eq!(value, "5058816");
}

#[test]
fn population_becomes_stat_series() {
    let pop = |n: &str, year: &str| {
        statement(quantity(n), Rank::Normal, vec![qualifier("P585", "point in time", time(&format!("{year}-01-01T00:00:00Z")))])
    };
    let item = item(vec![property(
        "P1082",
        "population",
        vec![pop("3138369", "2009"), pop("5545000", "2016"), pop("3375000", "2010")],
    )]);
    let page = page_of(&item, &no_groups(), &no_archetypes());
    let card = find(&page, &["P1082"]).expect("population card");
    let CardKind::StatSeries { current, series, note } = &card.kind else {
        panic!("population must be a StatSeries, got {:?}", card.kind);
    };
    assert_eq!(series.len(), 3);
    assert_eq!(current, "5545000");
    assert_eq!(note.as_deref(), Some("2016"));
    let labels: Vec<&str> = series.iter().map(|p| p.label.as_str()).collect();
    assert_eq!(labels, ["2009", "2010", "2016"]);
}

#[test]
fn coordinates_become_a_map() {
    let item = item(vec![property(
        "P625",
        "coordinate location",
        vec![statement(
            Value::Coordinate {
                lat: "-1.286388888".to_string(),
                lon: "36.817222222".to_string(),
                raw: "Point(36.817222222 -1.286388888)".to_string(),
            },
            Rank::Normal,
            vec![],
        )],
    )]);
    let page = page_of(&item, &no_groups(), &no_archetypes());
    let card = find(&page, &["P625"]).expect("map card");
    let CardKind::GeoMap { lat, lon, .. } = &card.kind else { panic!("map") };
    assert_eq!(lat, "-1.286388888");
    assert_eq!(lon, "36.817222222");
    assert_eq!(card.icon.as_deref(), Some("location_on"));
    assert_eq!(card.variant, Variant::MapPanel);
}

#[test]
fn hero_comes_from_main_image() {
    let item = item(vec![property(
        "P18",
        "image",
        vec![statement(
            Value::CommonsMedia {
                file_name: "Nairobi banner.jpg".to_string(),
                url: "http://commons.wikimedia.org/wiki/Special:FilePath/Nairobi%20banner.jpg".to_string(),
            },
            Rank::Normal,
            vec![],
        )],
    )]);
    let page = page_of(&item, &no_groups(), &no_archetypes());
    let hero = page.hero.as_ref().expect("a P18 hero");
    assert_eq!(hero.thumb_url, "https://commons.wikimedia.org/wiki/Special:FilePath/Nairobi%20banner.jpg?width=640");
    assert_eq!(hero.caption, "Testland");
    assert!(page.all_cards().iter().all(|c| c.source_pids != ["P18".to_string()]));
}

#[test]
fn identifiers_are_suppressed() {
    let item = item(vec![
        property("P646", "Freebase ID", vec![statement(Value::ExternalId { id: "/m/05d49".to_string() }, Rank::Normal, vec![])]),
        property("P1376", "capital of", vec![statement(item_ref("Q114", "Kenya"), Rank::Normal, vec![])]),
    ]);
    let page = page_of(&item, &no_groups(), &no_archetypes());
    assert!(find(&page, &["P646"]).is_none());
    assert!(find(&page, &["P1376"]).is_some());
}

#[test]
fn curation_meta_lands_in_footnotes() {
    let config = GroupingConfig {
        groups: vec![(
            "categories".to_string(),
            GroupConfig {
                pids: vec!["P910".to_string()],
                order: None,
                icon: None,
                cols: None,
                rows: None,
                sort: Some(9000),
                footnote: true,
            },
        )],
        properties: vec![],
    };
    let item = item(vec![
        property("P910", "topic's main category", vec![statement(item_ref("Q5", "Category:Nairobi"), Rank::Normal, vec![])]),
        property("P1082", "population", vec![statement(quantity("4397073"), Rank::Normal, vec![])]),
    ]);
    let page = page_of(&item, &config, &no_archetypes());
    assert!(page.footnotes.iter().any(|c| c.source_pids.contains(&"P910".to_string())));
    assert!(!page.footnotes.iter().any(|c| c.source_pids == ["P1082"]));
    // the regions and the tier flag agree
    assert!(page.footnotes.iter().all(|c| c.tier == Tier::Footnote));
    assert!(page.overflow.iter().all(|c| c.tier == Tier::Standard));
}

#[test]
fn grouped_properties_form_one_facts_card() {
    let config = GroupingConfig {
        groups: vec![(
            "located_in".to_string(),
            GroupConfig {
                pids: vec!["P17".to_string(), "P131".to_string(), "P17".to_string()],
                order: Some(1),
                icon: Some("globe".to_string()),
                cols: None,
                rows: None,
                sort: None,
                footnote: false,
            },
        )],
        properties: vec![],
    };
    let item = item(vec![
        property("P17", "country", vec![statement(item_ref("Q114", "Kenya"), Rank::Normal, vec![])]),
        property("P131", "located in the administrative territorial entity", vec![statement(item_ref("Q3335223", "Nairobi County"), Rank::Normal, vec![])]),
    ]);
    let page = page_of(&item, &config, &no_archetypes());
    let card = find(&page, &["P17", "P131"]).expect("one card for the group");
    assert_eq!(card.title, "Located in");
    assert!(!card.localized_title);
    assert_eq!(card.icon.as_deref(), Some("globe"));
    let CardKind::Facts { rows } = &card.kind else { panic!("facts") };
    assert_eq!(rows.len(), 2);
    assert_eq!(rows[0].label, "country");
}

#[test]
fn inception_time_is_formatted() {
    let item = item(vec![property(
        "P571",
        "inception",
        vec![statement(time("1899-01-01T00:00:00Z"), Rank::Normal, vec![])],
    )]);
    let page = page_of(&item, &no_groups(), &no_archetypes());
    let card = find(&page, &["P571"]).expect("inception");
    let CardKind::Stat { value, .. } = &card.kind else { panic!("stat") };
    assert_eq!(value, "1899");
}

#[test]
fn bare_item_is_a_header_only_page() {
    let bare = WikidataItem {
        qid: "Q1".to_string(),
        label: Some("Testland".to_string()),
        description: Some("a test item".to_string()),
        properties: vec![],
    };
    let page = page_of(&bare, &no_groups(), &people());
    assert_eq!(page.label.as_deref(), Some("Testland"));
    assert_eq!(page.description.as_deref(), Some("a test item"));
    assert!(page.hero.is_none());
    assert!(page.hero_facts.is_none());
    assert!(page.all_cards().is_empty());
}

#[test]
fn ignored_property_makes_no_card_even_when_grouped() {
    let config = GroupingConfig {
        groups: vec![(
            "classification".to_string(),
            GroupConfig {
                pids: vec!["P31".to_string(), "P1376".to_string()],
                order: None,
                icon: None,
                cols: None,
                rows: None,
                sort: None,
                footnote: false,
            },
        )],
        properties: vec![(
            "P31".to_string(),
            PropertyConfig { icon: None, ignore: true, cols: None, rows: None, sort: None, footnote: false, meter: None },
        )],
    };
    let item = item(vec![
        property("P31", "instance of", vec![statement(item_ref("Q515", "city"), Rank::Normal, vec![])]),
        property("P1376", "capital of", vec![statement(item_ref("Q114", "Kenya"), Rank::Normal, vec![])]),
    ]);
    let page = page_of(&item, &config, &no_archetypes());
    assert!(page.all_cards().iter().all(|c| !c.source_pids.contains(&"P31".to_string())));
    assert!(page.all_cards().iter().any(|c| c.source_pids.contains(&"P1376".to_string())));
}

#[test]
fn an_item_repeating_a_pid_does_not_fit() {
    let twice = item(vec![
        property("P1376", "capital of", vec![statement(item_ref("Q114", "Kenya"), Rank::Normal, vec![])]),
        property("P1376", "capital of", vec![statement(item_ref("Q115", "Ethiopia"), Rank::Normal, vec![])]),
    ]);
    assert!(!item_fits(&twice));
    assert!(item_fits(&item(vec![property(
        "P1376",
        "capital of",
        vec![statement(item_ref("Q114", "Kenya"), Rank::Normal, vec![])],
    )])));
}

#[test]
fn sections_hold_standard_cards_and_are_never_empty() {
    let page = page_of(&person(), &no_groups(), &people());
    assert_eq!(page.qid, "Q1");
    assert_eq!(page.archetype, "person");
    assert!(!page.sections.is_empty());
    for section in &page.sections {
        assert!(!section.cards.is_empty());
        assert!(section.cards.iter().all(|c| c.tier == Tier::Standard));
    }
}

#[test]
fn a_time_is_cut_to_its_year_only_where_the_page_shows_years() {
    // the year cut of this date falls inside the euro sign
    let odd = || Value::Time { iso: "20\u{20ac}1234".to_string(), precision: None };
    // as a statement value it shows at its own precision
    let plain = item(vec![property("P571", "inception", vec![statement(odd(), Rank::Normal, vec![])])]);
    let page = page_of(&plain, &no_groups(), &no_archetypes());
    let card = find(&page, &["P571"]).expect("inception card");
    let CardKind::Stat { value, .. } = &card.kind else {
        panic!("a lone time is a stat, got {:?}", card.kind);
    };
    assert_eq!(value, "20\u{20ac}1234");
    // as a start-time qualifier it would be shown as a year
    let dated = item(vec![property(
        "P39",
        "position held",
        vec![statement(item_ref("Q30185", "mayor"), Rank::Normal, vec![qualifier("P580", "start time", odd())])],
    )]);
    assert!(!page_fits(&dated, &no_archetypes()));
    // as another qualifier it shows at its own precision
    let noted = item(vec![property(
        "P39",
        "position held",
        vec![statement(item_ref("Q30185", "mayor"), Rank::Normal, vec![qualifier("P5054", "cabinet", odd())])],
    )]);
    assert!(page_fits(&noted, &no_archetypes()));
    // on a property the recipe puts on its timeline and hero it would be shown as a year
    let mut born = person();
    born.properties[1].statements[0].value = odd();
    assert!(page_fits(&born, &no_archetypes()));
    assert!(!page_fits(&born, &people()));
}
