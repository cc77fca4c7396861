use qrender::cards::plan::Variant;
use qrender::cards::{
    Card, CardKind, FactRow, FactValue, FactoidPage, ItemChip, Layout, Section, TemporalSpan, Tier,
};
use qrender::textual::{escape, render_html, render_markdown, render_text, render_wikitext};

fn card(title: &str, kind: CardKind) -> Card {
    Card {
        title: title.to_string(),
        localized_title: true,
        icon: None,
        source_pids: vec!["P1".to_string()],
        variant: Variant::default(),
        layout: Layout::default(),
        tier: Tier::Standard,
        kind,
    }
}

fn page() -> FactoidPage {
    let chip = ItemChip {
        qid: "Q114".to_string(),
        label: "Kenya".to_string(),
        image_url: None,
        thumb_url: None,
        span: Some(TemporalSpan { start: Some("1963".to_string()), end: None, point: None }),
        note: None,
        current: true,
    };
    FactoidPage {
        qid: "Q3870".to_string(),
        label: Some("Nairobi".to_string()),
        description: Some("capital city of Kenya".to_string()),
        language: "en".to_string(),
        archetype: "place".to_string(),
        hero: None,
        hero_facts: None,
        sections: vec![Section {
            name: "people".to_string(),
            icon: None,
            cards: vec![card("population", CardKind::Stat { value: "4397073".to_string(), note: Some("2019".to_string()) })],
        }],
        overflow: vec![card(
            "country",
            CardKind::Facts {
                rows: vec![FactRow {
                    label: "country".to_string(),
                    values: vec![FactValue::Item(chip), FactValue::Link { url: "https://nairobi.go.ke".to_string() }],
                }],
            },
        )],
        footnotes: vec![],
    }
}

#[test]
fn plain_text_page() {
    assert_eq!(
        render_text(&page()),
        "# Nairobi\ncapital city of Kenya\n\n## population\n4397073 (2019)\n\n## country\ncountry: Kenya (1963 \u{2013}); https://nairobi.go.ke\n"
    );
}

#[test]
fn markdown_page() {
    assert_eq!(
        render_markdown(&page()),
        "# Nairobi\n*capital city of Kenya*\n\n## population\n**4397073** (2019)\n\n## country\n- **country**: [Kenya](https://www.wikidata.org/wiki/Q114) (1963 \u{2013}); [https://nairobi.go.ke](https://nairobi.go.ke)\n"
    );
}

#[test]
fn wikitext_page() {
    assert_eq!(
        render_wikitext(&page()),
        "'''Nairobi'''\ncapital city of Kenya\n\n== population ==\n:* 4397073 (2019)\n\n== country ==\n;country\n:* [[wikidata:Q114|Kenya]] (1963 \u{2013})\n:* [https://nairobi.go.ke]\n"
    );
}

#[test]
fn html_page() {
    assert_eq!(
        render_html(&page()),
        "<article>\n<h1>Nairobi</h1>\n<p>capital city of Kenya</p>\n<section>\n<h2>population</h2>\n<p><strong>4397073</strong> (2019)</p>\n</section>\n<section>\n<h2>country</h2>\n<dl>\n<dt>country</dt>\n<dd><a href=\"https://www.wikidata.org/wiki/Q114\">Kenya</a> (1963 \u{2013})</dd>\n<dd><a href=\"https://nairobi.go.ke\">https://nairobi.go.ke</a></dd>\n</dl>\n</section>\n</article>\n"
    );
}

#[test]
fn html_text_is_escaped() {
    assert_eq!(escape("a < b & \"c\" > d"), "a &lt; b &amp; &quot;c&quot; &gt; d");
    let mut p = page();
    p.label = Some("<script>".to_string());
    assert!(render_html(&p).contains("<h1>&lt;script&gt;</h1>"));
}

#[test]
fn series_without_note_say_latest() {
    let mut p = page();
    p.sections.clear();
    p.overflow = vec![card(
        "population",
        CardKind::StatSeries {
            current: "5".to_string(),
            note: None,
            series: vec![qrender::cards::SeriesPoint { label: "2009".to_string(), value: "3".to_string(), display: "3".to_string() }],
        },
    )];
    assert!(render_text(&p).ends_with("5 (latest)\n  2009: 3\n"));
}
