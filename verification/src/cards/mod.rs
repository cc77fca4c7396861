//! Card intermediate representation: a renderer-independent "facts about
//! an item" document. Every backend renders this; card kinds are derived
//! from the typed values by `synthesize`.
//!
//! Numbers stay decimal text here as in the model: a map's `lat`/`lon`,
//! a meter's bounds and value, and a series point's `value`.

pub mod compose;
pub mod density;
pub mod page;
pub mod plan;
pub mod quantities;
pub mod sources;
pub mod sparse;
pub mod synthesis;

use vstd::prelude::*;

pub use crate::cards::plan::Variant;
use crate::text::{opt_view, owned, push_str, strs_view};

verus! {

/// Layout preference for the bento grid: column/row spans (in grid
/// units) and sort weight.
#[derive(Debug, Clone, Copy, PartialEq, Eq, Structural)]
pub struct Layout {
    pub cols: u8,
    pub rows: u8,
    pub sort: i32,
    /// Tiles a cover-chips card shows before the +N button
    pub cover_values: usize,
}

pub open spec fn default_layout() -> Layout {
    Layout { cols: 2, rows: 2, sort: 1000, cover_values: 2 }
}

impl Default for Layout {
    fn default() -> (res: Layout)
        ensures
            res == default_layout(),
    {
        Layout { cols: 2, rows: 2, sort: 1000, cover_values: 2 }
    }
}

/// Visual weight class. Standard cards fill the main grid; footnote
/// cards (Wikimedia-curation meta) collapse at the page end.
#[derive(Debug, Clone, Copy, PartialEq, Eq, Structural)]
pub enum Tier {
    Standard,
    Footnote,
}

#[derive(Debug, Clone, Copy, PartialEq, Eq, Structural)]
pub enum MediaKind {
    Image,
    Audio,
    Video,
}

/// A Commons media file as a card shows it.
#[derive(Debug)]
pub struct GalleryImage {
    pub file_name: String,
    pub thumb_url: String,
    pub file_url: String,
    pub page_url: String,
    pub caption: String,
    pub media: MediaKind,
}

pub struct GalleryImageV {
    pub file_name: Seq<char>,
    pub thumb_url: Seq<char>,
    pub file_url: Seq<char>,
    pub page_url: Seq<char>,
    pub caption: Seq<char>,
    pub media: MediaKind,
}

impl View for GalleryImage {
    type V = GalleryImageV;

    open spec fn view(&self) -> GalleryImageV {
        GalleryImageV {
            file_name: self.file_name@,
            thumb_url: self.thumb_url@,
            file_url: self.file_url@,
            page_url: self.page_url@,
            caption: self.caption@,
            media: self.media,
        }
    }
}

/// One dated statement on a timeline.
#[derive(Debug)]
pub struct TimelineEvent {
    pub iso: String,
    pub display: String,
    pub label: String,
    pub detail: Option<String>,
    pub thumb_url: Option<String>,
}

pub struct TimelineEventV {
    pub iso: Seq<char>,
    pub display: Seq<char>,
    pub label: Seq<char>,
    pub detail: Option<Seq<char>>,
    pub thumb_url: Option<Seq<char>>,
}

impl View for TimelineEvent {
    type V = TimelineEventV;

    open spec fn view(&self) -> TimelineEventV {
        TimelineEventV {
            iso: self.iso@,
            display: self.display@,
            label: self.label@,
            detail: opt_view(self.detail),
            thumb_url: opt_view(self.thumb_url),
        }
    }
}

/// One point of a quantity time series; `value` is the amount as decimal text.
#[derive(Debug)]
pub struct SeriesPoint {
    pub label: String,
    pub value: String,
    pub display: String,
}

pub struct SeriesPointV {
    pub label: Seq<char>,
    pub value: Seq<char>,
    pub display: Seq<char>,
}

impl View for SeriesPoint {
    type V = SeriesPointV;

    open spec fn view(&self) -> SeriesPointV {
        SeriesPointV {
            label: self.label@,
            value: self.value@,
            display: self.display@,
        }
    }
}

/// One consolidated time series: what was a whole StatSeries card
/// before the density pass merged its region's siblings.
#[derive(Debug)]
pub struct Indicator {
    pub label: String,
    pub current: String,
    pub note: Option<String>,
    pub series: Vec<SeriesPoint>,
}

pub struct IndicatorV {
    pub label: Seq<char>,
    pub current: Seq<char>,
    pub note: Option<Seq<char>>,
    pub series: Seq<SeriesPointV>,
}

impl View for Indicator {
    type V = IndicatorV;

    open spec fn view(&self) -> IndicatorV {
        IndicatorV {
            label: self.label@,
            current: self.current@,
            note: opt_view(self.note),
            series: self.series@.map_values(|x: SeriesPoint| x@),
        }
    }
}

/// When a statement held: from start-time/end-time/point-in-time
/// qualifiers, at year granularity.
#[derive(Debug)]
pub struct TemporalSpan {
    pub start: Option<String>,
    pub end: Option<String>,
    pub point: Option<String>,
}

pub struct TemporalSpanV {
    pub start: Option<Seq<char>>,
    pub end: Option<Seq<char>>,
    pub point: Option<Seq<char>>,
}

impl View for TemporalSpan {
    type V = TemporalSpanV;

    open spec fn view(&self) -> TemporalSpanV {
        TemporalSpanV {
            start: opt_view(self.start),
            end: opt_view(self.end),
            point: opt_view(self.point),
        }
    }
}

/// A referenced item, with when it held and what qualifies it.
#[derive(Debug)]
pub struct ItemChip {
    pub qid: String,
    pub label: String,
    pub image_url: Option<String>,
    pub thumb_url: Option<String>,
    pub span: Option<TemporalSpan>,
    pub note: Option<String>,
    pub current: bool,
}

pub struct ItemChipV {
    pub qid: Seq<char>,
    pub label: Seq<char>,
    pub image_url: Option<Seq<char>>,
    pub thumb_url: Option<Seq<char>>,
    pub span: Option<TemporalSpanV>,
    pub note: Option<Seq<char>>,
    pub current: bool,
}

impl View for ItemChip {
    type V = ItemChipV;

    open spec fn view(&self) -> ItemChipV {
        ItemChipV {
            qid: self.qid@,
            label: self.label@,
            image_url: opt_view(self.image_url),
            thumb_url: opt_view(self.thumb_url),
            span: match self.span { Some(x) => Some(x@), None => None },
            note: opt_view(self.note),
            current: self.current,
        }
    }
}

/// One property inside a Facts card: localized label plus its values.
#[derive(Debug)]
pub struct FactRow {
    pub label: String,
    pub values: Vec<FactValue>,
}

pub struct FactRowV {
    pub label: Seq<char>,
    pub values: Seq<FactValueV>,
}

impl View for FactRow {
    type V = FactRowV;

    open spec fn view(&self) -> FactRowV {
        FactRowV {
            label: self.label@,
            values: self.values@.map_values(|x: FactValue| x@),
        }
    }
}

/// Header facts resolved from the archetype's hero config.
#[derive(Debug)]
pub struct HeroFacts {
    pub date_range: Option<String>,
    pub tagline: Option<String>,
    pub emblem: Option<GalleryImage>,
}

pub struct HeroFactsV {
    pub date_range: Option<Seq<char>>,
    pub tagline: Option<Seq<char>>,
    pub emblem: Option<GalleryImageV>,
}

impl View for HeroFacts {
    type V = HeroFactsV;

    open spec fn view(&self) -> HeroFactsV {
        HeroFactsV {
            date_range: opt_view(self.date_range),
            tagline: opt_view(self.tagline),
            emblem: match self.emblem { Some(x) => Some(x@), None => None },
        }
    }
}

/// A card of the page.
#[derive(Debug)]
pub struct Card {
    pub title: String,
    pub localized_title: bool,
    pub icon: Option<String>,
    pub source_pids: Vec<String>,
    pub variant: Variant,
    pub layout: Layout,
    pub tier: Tier,
    pub kind: CardKind,
}

pub struct CardV {
    pub title: Seq<char>,
    pub localized_title: bool,
    pub icon: Option<Seq<char>>,
    pub source_pids: Seq<Seq<char>>,
    pub variant: Variant,
    pub layout: Layout,
    pub tier: Tier,
    pub kind: CardKindV,
}

impl View for Card {
    type V = CardV;

    open spec fn view(&self) -> CardV {
        CardV {
            title: self.title@,
            localized_title: self.localized_title,
            icon: opt_view(self.icon),
            source_pids: strs_view(self.source_pids@),
            variant: self.variant,
            layout: self.layout,
            tier: self.tier,
            kind: self.kind@,
        }
    }
}

/// A titled region of a composed page; the name is a machine name.
#[derive(Debug)]
pub struct Section {
    pub name: String,
    pub icon: Option<String>,
    pub cards: Vec<Card>,
}

pub struct SectionV {
    pub name: Seq<char>,
    pub icon: Option<Seq<char>>,
    pub cards: Seq<CardV>,
}

impl View for Section {
    type V = SectionV;

    open spec fn view(&self) -> SectionV {
        SectionV {
            name: self.name@,
            icon: opt_view(self.icon),
            cards: self.cards@.map_values(|x: Card| x@),
        }
    }
}

/// The card document for one item: header, archetype sections, the
/// overflow grid of unclaimed cards, and the collapsed footnotes.
#[derive(Debug)]
pub struct FactoidPage {
    pub qid: String,
    pub label: Option<String>,
    pub description: Option<String>,
    pub language: String,
    pub archetype: String,
    pub hero: Option<GalleryImage>,
    pub hero_facts: Option<HeroFacts>,
    pub sections: Vec<Section>,
    pub overflow: Vec<Card>,
    pub footnotes: Vec<Card>,
}

pub struct FactoidPageV {
    pub qid: Seq<char>,
    pub label: Option<Seq<char>>,
    pub description: Option<Seq<char>>,
    pub language: Seq<char>,
    pub archetype: Seq<char>,
    pub hero: Option<GalleryImageV>,
    pub hero_facts: Option<HeroFactsV>,
    pub sections: Seq<SectionV>,
    pub overflow: Seq<CardV>,
    pub footnotes: Seq<CardV>,
}

impl View for FactoidPage {
    type V = FactoidPageV;

    open spec fn view(&self) -> FactoidPageV {
        FactoidPageV {
            qid: self.qid@,
            label: opt_view(self.label),
            description: opt_view(self.description),
            language: self.language@,
            archetype: self.archetype@,
            hero: match self.hero { Some(x) => Some(x@), None => None },
            hero_facts: match self.hero_facts { Some(x) => Some(x@), None => None },
            sections: self.sections@.map_values(|x: Section| x@),
            overflow: self.overflow@.map_values(|x: Card| x@),
            footnotes: self.footnotes@.map_values(|x: Card| x@),
        }
    }
}

#[derive(Debug)]
pub enum FactValue {
    Item(ItemChip),
    Link { url: String },
    Text { value: String, span: Option<TemporalSpan>, note: Option<String> },
}

pub enum FactValueV {
    Item(ItemChipV),
    Link { url: Seq<char> },
    Text { value: Seq<char>, span: Option<TemporalSpanV>, note: Option<Seq<char>> },
}

impl View for FactValue {
    type V = FactValueV;

    open spec fn view(&self) -> FactValueV {
        match self {
            FactValue::Item(x0) => FactValueV::Item(x0@),
            FactValue::Link { url } => FactValueV::Link { url: url@ },
            FactValue::Text { value, span, note } => FactValueV::Text { value: value@, span: match *span { Some(x) => Some(x@), None => None }, note: opt_view(*note) },
        }
    }
}

#[derive(Debug)]
pub enum CardKind {
    Image { image: GalleryImage },
    Gallery { images: Vec<GalleryImage> },
    Stat { value: String, note: Option<String> },
    StatSeries { current: String, note: Option<String>, series: Vec<SeriesPoint> },
    GeoMap { lat: String, lon: String, label: String, geoshape: Option<String> },
    Facts { rows: Vec<FactRow> },
    Timeline { events: Vec<TimelineEvent> },
    Indicators { indicators: Vec<Indicator> },
    Meter { value: String, display: String, note: Option<String>, min: String, max: String, low: Option<String>, high: Option<String>, optimum: Option<String> },
}

pub enum CardKindV {
    Image { image: GalleryImageV },
    Gallery { images: Seq<GalleryImageV> },
    Stat { value: Seq<char>, note: Option<Seq<char>> },
    StatSeries { current: Seq<char>, note: Option<Seq<char>>, series: Seq<SeriesPointV> },
    GeoMap { lat: Seq<char>, lon: Seq<char>, label: Seq<char>, geoshape: Option<Seq<char>> },
    Facts { rows: Seq<FactRowV> },
    Timeline { events: Seq<TimelineEventV> },
    Indicators { indicators: Seq<IndicatorV> },
    Meter { value: Seq<char>, display: Seq<char>, note: Option<Seq<char>>, min: Seq<char>, max: Seq<char>, low: Option<Seq<char>>, high: Option<Seq<char>>, optimum: Option<Seq<char>> },
}

impl View for CardKind {
    type V = CardKindV;

    open spec fn view(&self) -> CardKindV {
        match self {
            CardKind::Image { image } => CardKindV::Image { image: image@ },
            CardKind::Gallery { images } => CardKindV::Gallery { images: images@.map_values(|x: GalleryImage| x@) },
            CardKind::Stat { value, note } => CardKindV::Stat { value: value@, note: opt_view(*note) },
            CardKind::StatSeries { current, note, series } => CardKindV::StatSeries { current: current@, note: opt_view(*note), series: series@.map_values(|x: SeriesPoint| x@) },
            CardKind::GeoMap { lat, lon, label, geoshape } => CardKindV::GeoMap { lat: lat@, lon: lon@, label: label@, geoshape: opt_view(*geoshape) },
            CardKind::Facts { rows } => CardKindV::Facts { rows: rows@.map_values(|x: FactRow| x@) },
            CardKind::Timeline { events } => CardKindV::Timeline { events: events@.map_values(|x: TimelineEvent| x@) },
            CardKind::Indicators { indicators } => CardKindV::Indicators { indicators: indicators@.map_values(|x: Indicator| x@) },
            CardKind::Meter { value, display, note, min, max, low, high, optimum } => CardKindV::Meter { value: value@, display: display@, note: opt_view(*note), min: min@, max: max@, low: opt_view(*low), high: opt_view(*high), optimum: opt_view(*optimum) },
        }
    }
}

pub open spec fn en_dash() -> char {
    '\u{2013}'
}

impl TemporalSpanV {
    /// "2018 – 2021", "2018 –", "– 2021", or the point in time.
    pub open spec fn display(self) -> Seq<char> {
        match (self.start, self.end, self.point) {
            (Some(start), Some(end), _) => if start == end {
                start
            } else {
                start + seq![' ', en_dash(), ' '] + end
            },
            (Some(start), None, _) => start + seq![' ', en_dash()],
            (None, Some(end), _) => seq![en_dash(), ' '] + end,
            (None, None, Some(point)) => point,
            (None, None, None) => Seq::empty(),
        }
    }
}

impl TemporalSpan {
    /// The span as text, at year granularity.
    pub fn display(&self) -> (res: String)
        ensures
            res@ == self@.display(),
    {
        proof {
            reveal_strlit(" \u{2013} ");
            reveal_strlit(" \u{2013}");
            reveal_strlit("\u{2013} ");
        }
        match (&self.start, &self.end, &self.point) {
            (Some(start), Some(end), _) => if crate::text::str_eq(start.as_str(), end.as_str()) {
                start.clone()
            } else {
                let mut s = start.clone();
                push_str(&mut s, " \u{2013} ");
                push_str(&mut s, end.as_str());
                assert(s@ =~= start@ + seq![' ', en_dash(), ' '] + end@);
                s
            },
            (Some(start), None, _) => {
                let mut s = start.clone();
                push_str(&mut s, " \u{2013}");
                assert(s@ =~= start@ + seq![' ', en_dash()]);
                s
            },
            (None, Some(end), _) => {
                let mut s = owned("\u{2013} ");
                push_str(&mut s, end.as_str());
                assert(s@ =~= seq![en_dash(), ' '] + end@);
                s
            },
            (None, None, Some(point)) => point.clone(),
            (None, None, None) => String::new(),
        }
    }

    /// The value no longer holds: an end time has been recorded.
    pub fn ended(&self) -> (res: bool)
        ensures
            res == self@.end is Some,
    {
        self.end.is_some()
    }

    pub fn duplicate(&self) -> (res: TemporalSpan)
        ensures
            res@ == self@,
    {
        TemporalSpan {
            start: crate::text::copy_opt(&self.start),
            end: crate::text::copy_opt(&self.end),
            point: crate::text::copy_opt(&self.point),
        }
    }
}

impl ItemChipV {
    pub open spec fn ended(self) -> bool {
        match self.span {
            Some(span) => span.end is Some,
            None => false,
        }
    }
}

impl ItemChip {
    /// The statement no longer holds (its span records an end time).
    pub fn ended(&self) -> (res: bool)
        ensures
            res == self@.ended(),
    {
        match &self.span {
            Some(span) => span.ended(),
            None => false,
        }
    }
}

/// The cards of the sections, in order.
pub open spec fn section_cards(sections: Seq<SectionV>) -> Seq<CardV>
    decreases sections.len(),
{
    if sections.len() == 0 {
        Seq::empty()
    } else {
        section_cards(sections.drop_last()) + sections.last().cards
    }
}

impl FactoidPageV {
    /// Every card in reading order: sections, then overflow, then footnotes.
    pub open spec fn all_cards(self) -> Seq<CardV> {
        section_cards(self.sections) + self.overflow + self.footnotes
    }
}

impl FactoidPage {
    /// Every card in reading order: sections, then overflow, then
    /// footnotes. The textual backends walk this.
    pub fn all_cards(&self) -> (res: Vec<&Card>)
        ensures
            res@.map_values(|c: &Card| c@) == self@.all_cards(),
    {
        let mut res: Vec<&Card> = Vec::new();
        let ghost secs = self@.sections;
        for i in 0..self.sections.len()
            invariant
                secs == self@.sections,
                res@.map_values(|c: &Card| c@) == section_cards(secs.take(i as int)),
        {
            let section = &self.sections[i];
            let ghost before = res@.map_values(|c: &Card| c@);
            for j in 0..section.cards.len()
                invariant
                    res@.map_values(|c: &Card| c@) == before + section@.cards.take(j as int),
            {
                let ghost prev = res@.map_values(|c: &Card| c@);
                res.push(&section.cards[j]);
                assert(res@.map_values(|c: &Card| c@) =~= prev.push(section.cards@[j as int]@));
                assert(section@.cards[j as int] == section.cards@[j as int]@);
                assert(res@.map_values(|c: &Card| c@) =~= before + section@.cards.take(j as int + 1));
            }
            assert(section@.cards.take(section.cards.len() as int) =~= section@.cards);
            assert(secs.take(i as int + 1).drop_last() =~= secs.take(i as int));
        }
        assert(secs.take(self.sections.len() as int) =~= secs);
        let ghost base = res@.map_values(|c: &Card| c@);
        for j in 0..self.overflow.len()
            invariant
                res@.map_values(|c: &Card| c@) == base + self@.overflow.take(j as int),
        {
            let ghost prev = res@.map_values(|c: &Card| c@);
            res.push(&self.overflow[j]);
            assert(res@.map_values(|c: &Card| c@) =~= prev.push(self.overflow@[j as int]@));
            assert(res@.map_values(|c: &Card| c@) =~= base + self@.overflow.take(j as int + 1));
        }
        assert(self@.overflow.take(self.overflow.len() as int) =~= self@.overflow);
        let ghost base2 = res@.map_values(|c: &Card| c@);
        for j in 0..self.footnotes.len()
            invariant
                res@.map_values(|c: &Card| c@) == base2 + self@.footnotes.take(j as int),
        {
            let ghost prev = res@.map_values(|c: &Card| c@);
            res.push(&self.footnotes[j]);
            assert(res@.map_values(|c: &Card| c@) =~= prev.push(self.footnotes@[j as int]@));
            assert(res@.map_values(|c: &Card| c@) =~= base2 + self@.footnotes.take(j as int + 1));
        }
        assert(self@.footnotes.take(self.footnotes.len() as int) =~= self@.footnotes);
        res
    }
}

} // verus!

verus! {

/// A freshly built card: default variant and layout, standard tier, no
/// icon (planning and icon resolution come later).
pub open spec fn base_card(
    title: Seq<char>,
    localized: bool,
    pids: Seq<Seq<char>>,
    kind: CardKindV,
) -> CardV {
    CardV {
        title,
        localized_title: localized,
        icon: None,
        source_pids: pids,
        variant: crate::cards::plan::default_variant(),
        layout: default_layout(),
        tier: Tier::Standard,
        kind,
    }
}

pub fn new_card(title: String, localized: bool, pids: Vec<String>, kind: CardKind) -> (res: Card)
    ensures
        res@ == base_card(title@, localized, strs_view(pids@), kind@),
{
    Card {
        title,
        localized_title: localized,
        icon: None,
        source_pids: pids,
        variant: Variant::default(),
        layout: Layout::default(),
        tier: Tier::Standard,
        kind,
    }
}

/// A one-element PID list.
pub fn single_pid(pid: &String) -> (res: Vec<String>)
    ensures
        strs_view(res@) == seq![pid@],
{
    let mut v: Vec<String> = Vec::new();
    v.push(pid.clone());
    assert(strs_view(v@) =~= seq![pid@]);
    v
}

} // verus!
