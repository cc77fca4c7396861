//! Composition: apply an archetype recipe to the synthesized card pool.
//! Sections claim cards by source PID (first section wins), a timeline
//! card is built from dated statements across properties, and hero
//! facts surface in the page header. Nothing is dropped: unclaimed cards
//! stay in the overflow grid.

use vstd::prelude::*;

use crate::archetype::{ArchetypeConfig, HeroConfig, SectionConfig, TimelineConfig};
use crate::cards::plan::{apply, planned};
use crate::cards::quantities::year_text;
use crate::cards::synthesis::{
    gallery_image, gallery_image_of, item_ok, lemma_item_get_ok, opt_thumb, property_ok,
    qualifier_ok, statement_ok, chip_thumb_url, START_TIME, POINT_IN_TIME,
};
use crate::cards::{
    base_card, new_card, Card, CardKind, CardKindV, CardV, GalleryImageV, HeroFacts, HeroFactsV,
    Section, SectionV, TimelineEvent, TimelineEventV,
};
use crate::format::{format_time, year_ok, PRECISION_YEAR};
use crate::model::{ItemV, Property, PropertyV, QualifierV, Rank, Statement, StatementV, Value, ValueV, WikidataItem};
use crate::sort::{lemma_sorted_map, sort_by, sorted_by};
use crate::text::{join, join_strings, opt_view, owned, push_str, str_eq, strs_view, text_less};

verus! {

/// Every time value of the property can be cut to its year.
pub open spec fn dated_ok(p: PropertyV) -> bool {
    forall|i: int| 0 <= i < p.statements.len() ==> year_ok(#[trigger] p.statements[i].value)
}

/// The time values of the timeline's properties can be cut to their
/// year (a timeline shows them as years).
pub open spec fn timeline_ok(item: ItemV, pids: Seq<Seq<char>>) -> bool {
    forall|k: int|
        0 <= k < pids.len() ==> match item.get(#[trigger] pids[k]) {
            Some(p) => dated_ok(p),
            None => true,
        }
}

/// The first statement of the property, if a time, can be cut to its year.
pub open spec fn first_year_ok(item: ItemV, pid: Seq<char>) -> bool {
    match item.get(pid) {
        Some(p) => p.statements.len() > 0 ==> year_ok(p.statements[0].value),
        None => true,
    }
}

/// The hero's date properties can be shown as years.
pub open spec fn hero_ok(item: ItemV, config: HeroConfig) -> bool {
    let d = strs_view(config.dates@);
    if d.len() == 2 {
        first_year_ok(item, d[0]) && first_year_ok(item, d[1])
    } else if d.len() == 1 {
        first_year_ok(item, d[0])
    } else {
        true
    }
}

/// Every section's timeline can show its properties' times as years.
pub open spec fn sections_ok(item: ItemV, configs: Seq<SectionConfig>) -> bool {
    forall|j: int|
        0 <= j < configs.len() ==> match (#[trigger] configs[j]).timeline {
            Some(tc) => timeline_ok(item, strs_view(tc.pids@)),
            None => true,
        }
}

/// The times a recipe shows as years (hero dates, timeline events) can
/// be cut to their year.
pub open spec fn recipe_ok(item: ItemV, recipe: Option<ArchetypeConfig>) -> bool {
    match recipe {
        Some(r) => (match r.hero {
            Some(h) => hero_ok(item, h),
            None => true,
        }) && sections_ok(item, r.sections@),
        None => true,
    }
}

/// The year of the property's first statement, when it is a time.
pub open spec fn first_year(item: ItemV, pid: Seq<char>) -> Option<Seq<char>> {
    match item.get(pid) {
        Some(p) => if p.statements.len() > 0 {
            match p.statements[0].value {
                ValueV::Time { iso, .. } => Some(year_text(iso)),
                _ => None,
            }
        } else {
            None
        },
        None => None,
    }
}

/// Years of the configured start and end properties.
pub open spec fn hero_dates(item: ItemV, dates: Seq<Seq<char>>) -> (Option<Seq<char>>, Option<Seq<char>>) {
    if dates.len() == 2 {
        (first_year(item, dates[0]), first_year(item, dates[1]))
    } else if dates.len() == 1 {
        (first_year(item, dates[0]), None)
    } else {
        (None, None)
    }
}

/// "1952 – 2001", "1952 –", or "– 2001".
pub open spec fn date_range(start: Option<Seq<char>>, end: Option<Seq<char>>) -> Option<Seq<char>> {
    match (start, end) {
        (Some(s), Some(e)) => Some(s + " \u{2013} "@ + e),
        (Some(s), None) => Some(s + " \u{2013}"@),
        (None, Some(e)) => Some("\u{2013} "@ + e),
        (None, None) => None,
    }
}

pub open spec fn preferred_first(a: StatementV, b: StatementV) -> bool {
    a.rank == Rank::Preferred && b.rank != Rank::Preferred
}

/// Labels of the item-valued statements, in order.
pub open spec fn item_labels(ss: Seq<StatementV>) -> Seq<Seq<char>>
    decreases ss.len(),
{
    if ss.len() == 0 {
        Seq::empty()
    } else {
        let rest = item_labels(ss.drop_last());
        match ss.last().value {
            ValueV::ItemRef { label, .. } => rest.push(label),
            _ => rest,
        }
    }
}

pub open spec fn first_four(s: Seq<Seq<char>>) -> Seq<Seq<char>> {
    if s.len() > 4 {
        s.take(4)
    } else {
        s
    }
}

/// Up to four value labels of the property, preferred rank first.
pub open spec fn tagline_of(item: ItemV, pid: Seq<char>) -> Option<Seq<char>> {
    match item.get(pid) {
        Some(p) => {
            let labels = first_four(
                item_labels(sorted_by(p.statements, |a: StatementV, b: StatementV| preferred_first(a, b))),
            );
            if labels.len() > 0 {
                Some(join(labels, " \u{b7} "@))
            } else {
                None
            }
        },
        None => None,
    }
}

/// The image of the property's first statement, when it is a media file.
pub open spec fn emblem_of(item: ItemV, pid: Seq<char>) -> Option<GalleryImageV> {
    match item.get(pid) {
        Some(p) => if p.statements.len() > 0 {
            match p.statements[0].value {
                ValueV::CommonsMedia { file_name, .. } => Some(gallery_image_of(file_name, p.label)),
                _ => None,
            }
        } else {
            None
        },
        None => None,
    }
}

/// Header facts from the hero config; none when the data has none of them.
pub open spec fn hero_facts_of(item: ItemV, config: HeroConfig) -> Option<HeroFactsV> {
    let (start, end) = hero_dates(item, strs_view(config.dates@));
    let d = date_range(start, end);
    let t = match config.tagline {
        Some(pid) => tagline_of(item, pid@),
        None => None,
    };
    let e = match config.emblem {
        Some(pid) => emblem_of(item, pid@),
        None => None,
    };
    if d is None && t is None && e is None {
        None
    } else {
        Some(HeroFactsV { date_range: d, tagline: t, emblem: e })
    }
}

fn year_of_first(item: &WikidataItem, pid: &str) -> (res: Option<String>)
    requires
        item_ok(item@),
        first_year_ok(item@, pid@),
    ensures
        opt_view(res) == first_year(item@, pid@),
{
    proof { lemma_item_get_ok(item@, pid@); }
    let p = match item.get(pid) {
        Some(p) => p,
        None => return None,
    };
    if p.statements.len() == 0 {
        return None;
    }
    assert(p@.statements[0] == p.statements@[0]@);
    assert(statement_ok(p@.statements[0]));
    match &p.statements[0].value {
        Value::Time { iso, .. } => Some(format_time(iso.as_str(), Some(PRECISION_YEAR))),
        _ => None,
    }
}

fn preferred_less(a: &&Statement, b: &&Statement) -> (res: bool)
    ensures
        res == preferred_first(a@, b@),
{
    a.rank == Rank::Preferred && b.rank != Rank::Preferred
}

fn tagline(item: &WikidataItem, pid: &str) -> (res: Option<String>)
    ensures
        opt_view(res) == tagline_of(item@, pid@),
{
    let p = match item.get(pid) {
        Some(p) => p,
        None => return None,
    };
    let mut refs: Vec<&Statement> = Vec::new();
    for i in 0..p.statements.len()
        invariant
            refs@.map_values(|s: &Statement| s@) == p@.statements.take(i as int),
    {
        let ghost prev = refs@.map_values(|s: &Statement| s@);
        refs.push(&p.statements[i]);
        assert(refs@.map_values(|s: &Statement| s@) =~= prev.push(p.statements@[i as int]@));
        assert(p@.statements.take(i as int + 1) =~= p@.statements.take(i as int).push(
            p.statements@[i as int]@,
        ));
    }
    assert(p@.statements.take(p.statements.len() as int) =~= p@.statements);
    let ghost before = refs@;
    let sorted = sort_by(
        refs,
        preferred_less,
        Ghost(|a: &Statement, b: &Statement| preferred_first(a@, b@)),
    );
    let ghost sv = sorted_by(p@.statements, |a: StatementV, b: StatementV| preferred_first(a, b));
    proof {
        lemma_sorted_map(
            before,
            |s: &Statement| s@,
            |a: &Statement, b: &Statement| preferred_first(a@, b@),
            |a: StatementV, b: StatementV| preferred_first(a, b),
        );
    }
    let mut labels: Vec<String> = Vec::new();
    for i in 0..sorted.len()
        invariant
            sv == sorted@.map_values(|s: &Statement| s@),
            strs_view(labels@) == item_labels(sv.take(i as int)),
    {
        assert(sv[i as int] == sorted@[i as int]@);
        assert(sv.take(i as int + 1).drop_last() =~= sv.take(i as int));
        assert(sv.take(i as int + 1).last() == sv[i as int]);
        match &sorted[i].value {
            Value::ItemRef { label, .. } => {
                let ghost prev = strs_view(labels@);
                labels.push(label.clone());
                assert(strs_view(labels@) =~= prev.push(label@));
            },
            _ => {},
        }
    }
    assert(sv.take(sv.len() as int) =~= sv);
    let ghost all = strs_view(labels@);
    if labels.len() > 4 {
        labels.truncate(4);
        assert(strs_view(labels@) =~= all.take(4));
    }
    if labels.len() == 0 {
        return None;
    }
    Some(join_strings(&labels, " \u{b7} "))
}

fn emblem(item: &WikidataItem, pid: &str) -> (res: Option<crate::cards::GalleryImage>)
    ensures
        match res {
            Some(g) => emblem_of(item@, pid@) == Some(g@),
            None => emblem_of(item@, pid@) is None,
        },
{
    let p = match item.get(pid) {
        Some(p) => p,
        None => return None,
    };
    if p.statements.len() == 0 {
        return None;
    }
    assert(p@.statements[0] == p.statements@[0]@);
    match &p.statements[0].value {
        Value::CommonsMedia { file_name, .. } => Some(
            gallery_image(file_name.as_str(), p.label.as_str()),
        ),
        _ => None,
    }
}

fn date_range_exec(start: Option<String>, end: Option<String>) -> (res: Option<String>)
    ensures
        opt_view(res) == date_range(opt_view(start), opt_view(end)),
{
    match (start, end) {
        (Some(s), Some(e)) => {
            let mut r = s;
            push_str(&mut r, " \u{2013} ");
            push_str(&mut r, e.as_str());
            Some(r)
        },
        (Some(s), None) => {
            let mut r = s;
            push_str(&mut r, " \u{2013}");
            Some(r)
        },
        (None, Some(e)) => {
            let mut r = owned("\u{2013} ");
            push_str(&mut r, e.as_str());
            Some(r)
        },
        (None, None) => None,
    }
}

/// Header facts from the hero config. Every part is optional: absent
/// data leaves the header as it would be without the recipe.
pub fn hero_facts(item: &WikidataItem, config: &HeroConfig) -> (res: Option<HeroFacts>)
    requires
        item_ok(item@),
        hero_ok(item@, *config),
    ensures
        match res {
            Some(h) => hero_facts_of(item@, *config) == Some(h@),
            None => hero_facts_of(item@, *config) is None,
        },
{
    let ghost dv = strs_view(config.dates@);
    let (start, end) = if config.dates.len() == 2 {
        (year_of_first(item, config.dates[0].as_str()), year_of_first(item, config.dates[1].as_str()))
    } else if config.dates.len() == 1 {
        (year_of_first(item, config.dates[0].as_str()), None)
    } else {
        (None, None)
    };
    assert((opt_view(start), opt_view(end)) == hero_dates(item@, dv));
    let date_range = date_range_exec(start, end);
    let tagline = match &config.tagline {
        Some(pid) => tagline(item, pid.as_str()),
        None => None,
    };
    let emblem = match &config.emblem {
        Some(pid) => emblem(item, pid.as_str()),
        None => None,
    };
    if date_range.is_none() && tagline.is_none() && emblem.is_none() {
        return None;
    }
    Some(HeroFacts { date_range, tagline, emblem })
}

} // verus!

verus! {

/// The time of the first start-time or point-in-time qualifier.
pub open spec fn event_iso(quals: Seq<QualifierV>) -> Option<Seq<char>>
    decreases quals.len(),
{
    if quals.len() == 0 {
        None
    } else {
        match quals[0].value {
            ValueV::Time { iso, .. } => if quals[0].pid == START_TIME@ || quals[0].pid
                == POINT_IN_TIME@ {
                Some(iso)
            } else {
                event_iso(quals.drop_first())
            },
            _ => event_iso(quals.drop_first()),
        }
    }
}

pub proof fn lemma_event_iso_ok(quals: Seq<QualifierV>)
    requires
        forall|i: int| 0 <= i < quals.len() ==> qualifier_ok(#[trigger] quals[i]),
    ensures
        match event_iso(quals) {
            Some(iso) => crate::format::time_cuttable(iso, Some(PRECISION_YEAR)),
            None => true,
        },
    decreases quals.len(),
{
    if quals.len() > 0 {
        assert(qualifier_ok(quals[0]));
        assert forall|i: int| 0 <= i < quals.drop_first().len() implies qualifier_ok(
            #[trigger] quals.drop_first()[i],
        ) by {
            assert(quals.drop_first()[i] == quals[i + 1]);
        }
        lemma_event_iso_ok(quals.drop_first());
    }
}

/// When an item-valued statement happened: its start time, else its
/// point in time.
pub fn event_time(statement: &Statement) -> (res: Option<String>)
    ensures
        opt_view(res) == event_iso(statement@.qualifiers),
{
    let ghost q = statement@.qualifiers;
    let mut i: usize = 0;
    assert(q.skip(0) =~= q);
    while i < statement.qualifiers.len()
        invariant
            q == statement@.qualifiers,
            i <= q.len(),
            event_iso(q) == event_iso(q.skip(i as int)),
        decreases q.len() - i,
    {
        let qual = &statement.qualifiers[i];
        assert(q.skip(i as int)[0] == qual@);
        assert(q.skip(i as int).drop_first() =~= q.skip(i as int + 1));
        match &qual.value {
            Value::Time { iso, .. } => {
                if str_eq(qual.pid.as_str(), START_TIME) || str_eq(qual.pid.as_str(), POINT_IN_TIME) {
                    return Some(iso.clone());
                }
            },
            _ => {},
        }
        i += 1;
    }
    None
}

/// A timeline event for a dated statement: a time value directly, an
/// item value through its start or point in time. Years only.
pub open spec fn statement_event(p: PropertyV, s: StatementV) -> Option<TimelineEventV> {
    match s.value {
        ValueV::Time { iso, .. } => Some(
            TimelineEventV {
                iso,
                display: year_text(iso),
                label: p.label,
                detail: None,
                thumb_url: None,
            },
        ),
        ValueV::ItemRef { label, image_url, .. } => match event_iso(s.qualifiers) {
            Some(iso) => Some(
                TimelineEventV {
                    iso,
                    display: year_text(iso),
                    label: p.label,
                    detail: Some(label),
                    thumb_url: opt_thumb(image_url),
                },
            ),
            None => None,
        },
        _ => None,
    }
}

pub open spec fn property_events(p: PropertyV, ss: Seq<StatementV>) -> Seq<TimelineEventV>
    decreases ss.len(),
{
    if ss.len() == 0 {
        Seq::empty()
    } else {
        let rest = property_events(p, ss.drop_last());
        match statement_event(p, ss.last()) {
            Some(e) => rest.push(e),
            None => rest,
        }
    }
}

/// Events of the configured properties in property order, and the PIDs
/// that contributed any.
pub open spec fn timeline_events(item: ItemV, pids: Seq<Seq<char>>) -> (Seq<TimelineEventV>, Seq<Seq<char>>)
    decreases pids.len(),
{
    if pids.len() == 0 {
        (Seq::empty(), Seq::empty())
    } else {
        let (ev, ps) = timeline_events(item, pids.drop_last());
        match item.get(pids.last()) {
            Some(p) => {
                let new = property_events(p, p.statements);
                if new.len() > 0 {
                    (ev + new, ps.push(pids.last()))
                } else {
                    (ev, ps)
                }
            },
            None => (ev, ps),
        }
    }
}

pub open spec fn event_before(a: TimelineEventV, b: TimelineEventV) -> bool {
    text_less(a.iso, b.iso)
}

/// One chronology across the configured properties, sorted by time; no
/// card below the configured minimum of events.
pub open spec fn timeline_of(item: ItemV, config: TimelineConfig) -> Option<CardV> {
    let (ev, ps) = timeline_events(item, strs_view(config.pids@));
    if ev.len() < config.min_events {
        None
    } else {
        Some(
            planned(
                CardV {
                    icon: Some("event"@),
                    ..base_card(
                        "timeline"@,
                        false,
                        ps,
                        CardKindV::Timeline {
                            events: sorted_by(ev, |a: TimelineEventV, b: TimelineEventV| event_before(a, b)),
                        },
                    )
                },
            ),
        )
    }
}

fn event_less(a: &TimelineEvent, b: &TimelineEvent) -> (res: bool)
    ensures
        res == event_before(a@, b@),
{
    crate::text::str_less(a.iso.as_str(), b.iso.as_str())
}

fn events_into(events: &mut Vec<TimelineEvent>, property: &Property)
    requires
        property_ok(property@),
        dated_ok(property@),
    ensures
        final(events)@.map_values(|e: TimelineEvent| e@) == old(events)@.map_values(
            |e: TimelineEvent| e@,
        ) + property_events(property@, property@.statements),
{
    let ghost e0 = events@.map_values(|e: TimelineEvent| e@);
    let ghost ss = property@.statements;
    for i in 0..property.statements.len()
        invariant
            ss == property@.statements,
            property_ok(property@),
            dated_ok(property@),
            events@.map_values(|e: TimelineEvent| e@) == e0 + property_events(
                property@,
                ss.take(i as int),
            ),
    {
        let statement = &property.statements[i];
        assert(ss[i as int] == statement@);
        assert(statement_ok(ss[i as int]));
        assert(ss.take(i as int + 1).drop_last() =~= ss.take(i as int));
        assert(ss.take(i as int + 1).last() == statement@);
        let ghost prev = events@.map_values(|e: TimelineEvent| e@);
        let event = match &statement.value {
            Value::Time { iso, .. } => Some(
                TimelineEvent {
                    iso: iso.clone(),
                    display: format_time(iso.as_str(), Some(PRECISION_YEAR)),
                    label: property.label.clone(),
                    detail: None,
                    thumb_url: None,
                },
            ),
            Value::ItemRef { label, image_url, .. } => {
                proof { lemma_event_iso_ok(statement@.qualifiers); }
                match event_time(statement) {
                    Some(iso) => {
                        let display = format_time(iso.as_str(), Some(PRECISION_YEAR));
                        let thumb = match image_url {
                            Some(u) => Some(chip_thumb_url(u.as_str())),
                            None => None,
                        };
                        Some(
                            TimelineEvent {
                                iso,
                                display,
                                label: property.label.clone(),
                                detail: Some(label.clone()),
                                thumb_url: thumb,
                            },
                        )
                    },
                    None => None,
                }
            },
            _ => None,
        };
        match event {
            Some(e) => {
                events.push(e);
                assert(events@.map_values(|e: TimelineEvent| e@) =~= prev.push(e@));
            },
            None => {},
        }
    }
    assert(ss.take(ss.len() as int) =~= ss);
}

/// One chronology from every dated statement of the configured
/// properties. Below the configured minimum no card renders.
pub fn timeline_card(item: &WikidataItem, config: &TimelineConfig) -> (res: Option<Card>)
    requires
        item_ok(item@),
        timeline_ok(item@, strs_view(config.pids@)),
    ensures
        match res {
            Some(c) => timeline_of(item@, *config) == Some(c@),
            None => timeline_of(item@, *config) is None,
        },
{
    let ghost pv = strs_view(config.pids@);
    let mut events: Vec<TimelineEvent> = Vec::new();
    let mut source_pids: Vec<String> = Vec::new();
    assert(events@.map_values(|e: TimelineEvent| e@) =~= Seq::<TimelineEventV>::empty());
    assert(strs_view(source_pids@) =~= Seq::<Seq<char>>::empty());
    for i in 0..config.pids.len()
        invariant
            pv == strs_view(config.pids@),
            item_ok(item@),
            timeline_ok(item@, pv),
            (events@.map_values(|e: TimelineEvent| e@), strs_view(source_pids@)) == timeline_events(
                item@,
                pv.take(i as int),
            ),
    {
        assert(pv.take(i as int + 1).drop_last() =~= pv.take(i as int));
        assert(pv.take(i as int + 1).last() == config.pids@[i as int]@);
        proof {
            lemma_item_get_ok(item@, config.pids@[i as int]@);
            assert(pv[i as int] == config.pids@[i as int]@);
        }
        match item.get(config.pids[i].as_str()) {
            Some(property) => {
                let before = events.len();
                let ghost ev0 = events@.map_values(|e: TimelineEvent| e@);
                let ghost new = property_events(property@, property@.statements);
                events_into(&mut events, property);
                assert(events@.map_values(|e: TimelineEvent| e@).len() == events@.len());
                proof {
                    if new.len() == 0 {
                        assert(ev0 + new =~= ev0);
                    }
                }
                if events.len() > before {
                    let ghost prev = strs_view(source_pids@);
                    source_pids.push(config.pids[i].clone());
                    assert(strs_view(source_pids@) =~= prev.push(config.pids@[i as int]@));
                }
            },
            None => {},
        }
    }
    assert(pv.take(pv.len() as int) =~= pv);
    if events.len() < config.min_events {
        return None;
    }
    let ghost before = events@;
    let sorted = sort_by(events, event_less, Ghost(|a: TimelineEvent, b: TimelineEvent| event_before(a@, b@)));
    proof {
        lemma_sorted_map(
            before,
            |e: TimelineEvent| e@,
            |a: TimelineEvent, b: TimelineEvent| event_before(a@, b@),
            |a: TimelineEventV, b: TimelineEventV| event_before(a, b),
        );
    }
    let mut card = new_card(owned("timeline"), false, source_pids, CardKind::Timeline { events: sorted });
    card.icon = Some(owned("event"));
    Some(apply(card))
}

} // verus!

verus! {

/// Some source PID of the card is one the section lists.
pub open spec fn claims(card: CardV, pids: Seq<Seq<char>>) -> bool {
    exists|k: int| 0 <= k < card.source_pids.len() && pids.contains(#[trigger] card.source_pids[k])
}

/// The cards the section claims, in pool order.
pub open spec fn claimed(pool: Seq<CardV>, pids: Seq<Seq<char>>) -> Seq<CardV>
    decreases pool.len(),
{
    if pool.len() == 0 {
        Seq::empty()
    } else if claims(pool.last(), pids) {
        claimed(pool.drop_last(), pids).push(pool.last())
    } else {
        claimed(pool.drop_last(), pids)
    }
}

/// The cards the section leaves, in pool order.
pub open spec fn unclaimed(pool: Seq<CardV>, pids: Seq<Seq<char>>) -> Seq<CardV>
    decreases pool.len(),
{
    if pool.len() == 0 {
        Seq::empty()
    } else if claims(pool.last(), pids) {
        unclaimed(pool.drop_last(), pids)
    } else {
        unclaimed(pool.drop_last(), pids).push(pool.last())
    }
}

/// A section takes its cards from the pool, led by its timeline when
/// one renders; a section with no cards is left out.
pub open spec fn section_step(acc: (Seq<SectionV>, Seq<CardV>), item: ItemV, sc: SectionConfig) -> (
    Seq<SectionV>,
    Seq<CardV>,
) {
    let pids = strs_view(sc.pids@);
    let mine = claimed(acc.1, pids);
    let with_timeline = match sc.timeline {
        Some(tc) => match timeline_of(item, tc) {
            Some(t) => seq![t] + mine,
            None => mine,
        },
        None => mine,
    };
    (
        if with_timeline.len() > 0 {
            acc.0.push(SectionV { name: sc.name@, icon: opt_view(sc.icon), cards: with_timeline })
        } else {
            acc.0
        },
        unclaimed(acc.1, pids),
    )
}

/// The recipe's sections in order, each claiming from what the earlier
/// ones left; the rest is the overflow.
pub open spec fn composed(item: ItemV, pool: Seq<CardV>, configs: Seq<SectionConfig>) -> (
    Seq<SectionV>,
    Seq<CardV>,
)
    decreases configs.len(),
{
    if configs.len() == 0 {
        (Seq::empty(), pool)
    } else {
        section_step(composed(item, pool, configs.drop_last()), item, configs.last())
    }
}

fn claims_exec(card: &Card, pids: &Vec<String>) -> (res: bool)
    ensures
        res == claims(card@, strs_view(pids@)),
{
    let ghost sp = card@.source_pids;
    for k in 0..card.source_pids.len()
        invariant
            sp == card@.source_pids,
            forall|j: int| 0 <= j < k ==> !strs_view(pids@).contains(#[trigger] sp[j]),
    {
        assert(sp[k as int] == card.source_pids@[k as int]@);
        if crate::text::contains_str(pids, card.source_pids[k].as_str()) {
            return true;
        }
    }
    false
}

fn split_pool(pool: Vec<Card>, pids: &Vec<String>) -> (res: (Vec<Card>, Vec<Card>))
    ensures
        res.0@.map_values(|c: Card| c@) == claimed(pool@.map_values(|c: Card| c@), strs_view(pids@)),
        res.1@.map_values(|c: Card| c@) == unclaimed(pool@.map_values(|c: Card| c@), strs_view(pids@)),
{
    let ghost pv = pool@.map_values(|c: Card| c@);
    let ghost ps = strs_view(pids@);
    let mut mine: Vec<Card> = Vec::new();
    let mut rest: Vec<Card> = Vec::new();
    for card in it: pool
        invariant
            pv == it.seq().map_values(|c: Card| c@),
            ps == strs_view(pids@),
            mine@.map_values(|c: Card| c@) == claimed(pv.take(it.index() as int), ps),
            rest@.map_values(|c: Card| c@) == unclaimed(pv.take(it.index() as int), ps),
    {
        let ghost i = it.index();
        assert(pv[i as int] == card@);
        assert(pv.take(i + 1).drop_last() =~= pv.take(i as int));
        assert(pv.take(i + 1).last() == card@);
        let ghost m0 = mine@.map_values(|c: Card| c@);
        let ghost r0 = rest@.map_values(|c: Card| c@);
        if claims_exec(&card, pids) {
            mine.push(card);
            assert(mine@.map_values(|c: Card| c@) =~= m0.push(pv[i as int]));
        } else {
            rest.push(card);
            assert(rest@.map_values(|c: Card| c@) =~= r0.push(pv[i as int]));
        }
    }
    assert(pv.take(pv.len() as int) =~= pv);
    (mine, rest)
}

/// Distribute the cards into the recipe's sections; what no section
/// claims stays in the overflow grid.
pub fn sections(item: &WikidataItem, cards: Vec<Card>, recipe: &ArchetypeConfig) -> (res: (
    Vec<Section>,
    Vec<Card>,
))
    requires
        item_ok(item@),
        sections_ok(item@, recipe.sections@),
    ensures
        (res.0@.map_values(|s: Section| s@), res.1@.map_values(|c: Card| c@)) == composed(
            item@,
            cards@.map_values(|c: Card| c@),
            recipe.sections@,
        ),
{
    let ghost start = cards@.map_values(|c: Card| c@);
    let ghost configs = recipe.sections@;
    let mut pool = cards;
    let mut out: Vec<Section> = Vec::new();
    assert(out@.map_values(|s: Section| s@) =~= Seq::<SectionV>::empty());
    assert(configs.take(0) =~= Seq::<SectionConfig>::empty());
    for i in 0..recipe.sections.len()
        invariant
            configs == recipe.sections@,
            item_ok(item@),
            sections_ok(item@, configs),
            (out@.map_values(|s: Section| s@), pool@.map_values(|c: Card| c@)) == composed(
                item@,
                start,
                configs.take(i as int),
            ),
    {
        let sc = &recipe.sections[i];
        assert(configs[i as int] == *sc);
        assert(configs.take(i as int + 1).drop_last() =~= configs.take(i as int));
        assert(configs.take(i as int + 1).last() == *sc);
        let (mut mine, rest) = split_pool(pool, &sc.pids);
        pool = rest;
        match &sc.timeline {
            Some(tc) => match timeline_card(item, tc) {
                Some(t) => {
                    let ghost m0 = mine@.map_values(|c: Card| c@);
                    mine.insert(0, t);
                    assert(mine@.map_values(|c: Card| c@) =~= seq![t@] + m0);
                },
                None => {},
            },
            None => {},
        }
        if mine.len() > 0 {
            let ghost o0 = out@.map_values(|s: Section| s@);
            let section = Section {
                name: sc.name.clone(),
                icon: crate::text::copy_opt(&sc.icon),
                cards: mine,
            };
            out.push(section);
            assert(out@.map_values(|s: Section| s@) =~= o0.push(section@));
        }
    }
    assert(configs.take(configs.len() as int) =~= configs);
    (out, pool)
}

} // verus!

verus! {

/// A timeline lists its events in time order.
pub proof fn timeline_is_chronological(item: ItemV, config: TimelineConfig)
    ensures
        match timeline_of(item, config) {
            Some(c) => c.kind matches CardKindV::Timeline { events } && forall|i: int, j: int|
                0 <= i < j < events.len() ==> !text_less(
                    #[trigger] events[j].iso,
                    #[trigger] events[i].iso,
                ),
            None => true,
        },
{
    let (ev, ps) = timeline_events(item, strs_view(config.pids@));
    let lt = |a: TimelineEventV, b: TimelineEventV| event_before(a, b);
    assert(crate::sort::strict_weak(lt)) by {
        assert forall|a: TimelineEventV| !#[trigger] lt(a, a) by {
            crate::text::lemma_text_less_irreflexive(a.iso);
        }
        assert forall|a: TimelineEventV, b: TimelineEventV, c: TimelineEventV| #[trigger] lt(a, b)
            && #[trigger] lt(b, c) implies lt(a, c) by {
            crate::text::lemma_text_less_transitive(a.iso, b.iso, c.iso);
        }
        assert forall|a: TimelineEventV, b: TimelineEventV, c: TimelineEventV| #[trigger] lt(a, c) implies lt(
            a,
            b,
        ) || #[trigger] lt(b, c) by {
            crate::text::lemma_text_less_strict_weak();
            let t = |x: Seq<char>, y: Seq<char>| text_less(x, y);
            assert(t(a.iso, c.iso));
            assert(t(a.iso, b.iso) || t(b.iso, c.iso));
        }
    }
    crate::sort::lemma_sorted_by_sorted(ev, lt);
}

/// The pool left after each section has claimed its cards.
pub open spec fn remaining(pool: Seq<CardV>, configs: Seq<SectionConfig>) -> Seq<CardV>
    decreases configs.len(),
{
    if configs.len() == 0 {
        pool
    } else {
        unclaimed(remaining(pool, configs.drop_last()), strs_view(configs.last().pids@))
    }
}

/// The cards the sections claimed from the pool, section by section.
pub open spec fn taken(pool: Seq<CardV>, configs: Seq<SectionConfig>) -> Seq<CardV>
    decreases configs.len(),
{
    if configs.len() == 0 {
        Seq::empty()
    } else {
        taken(pool, configs.drop_last()) + claimed(
            remaining(pool, configs.drop_last()),
            strs_view(configs.last().pids@),
        )
    }
}

pub proof fn lemma_claim_partition(pool: Seq<CardV>, pids: Seq<Seq<char>>)
    ensures
        claimed(pool, pids).to_multiset().add(unclaimed(pool, pids).to_multiset()) == pool.to_multiset(),
        forall|i: int|
            0 <= i < unclaimed(pool, pids).len() ==> !claims(#[trigger] unclaimed(pool, pids)[i], pids),
        forall|i: int|
            0 <= i < claimed(pool, pids).len() ==> claims(#[trigger] claimed(pool, pids)[i], pids),
    decreases pool.len(),
{
    broadcast use vstd::seq_lib::group_to_multiset_ensures;

    if pool.len() == 0 {
        assert(claimed(pool, pids).to_multiset().add(unclaimed(pool, pids).to_multiset()) =~= pool.to_multiset());
    } else {
        let d = pool.drop_last();
        let c = pool.last();
        lemma_claim_partition(d, pids);
        assert(pool =~= d.push(c));
        let a = claimed(d, pids);
        let b = unclaimed(d, pids);
        if claims(c, pids) {
            assert(a.push(c).to_multiset().add(b.to_multiset()) =~= d.to_multiset().insert(c));
            assert forall|i: int| 0 <= i < a.push(c).len() implies claims(#[trigger] a.push(c)[i], pids) by {
                if i < a.len() {
                    assert(a.push(c)[i] == a[i]);
                }
            }
        } else {
            assert(a.to_multiset().add(b.push(c).to_multiset()) =~= d.to_multiset().insert(c));
            assert forall|i: int| 0 <= i < b.push(c).len() implies !claims(#[trigger] b.push(c)[i], pids) by {
                if i < b.len() {
                    assert(b.push(c)[i] == b[i]);
                }
            }
        }
    }
}

/// Composition drops no card: every card of the pool is claimed by
/// exactly one section or stays in the overflow, which is what no
/// section claimed.
pub proof fn composition_keeps_every_card(item: ItemV, pool: Seq<CardV>, configs: Seq<SectionConfig>)
    ensures
        composed(item, pool, configs).1 == remaining(pool, configs),
        taken(pool, configs).to_multiset().add(remaining(pool, configs).to_multiset()) == pool.to_multiset(),
    decreases configs.len(),
{
    if configs.len() > 0 {
        composition_keeps_every_card(item, pool, configs.drop_last());
        let r = remaining(pool, configs.drop_last());
        let pids = strs_view(configs.last().pids@);
        lemma_claim_partition(r, pids);
        let t = taken(pool, configs.drop_last());
        broadcast use vstd::seq_lib::group_to_multiset_ensures;

        vstd::seq_lib::lemma_multiset_commutative(t, claimed(r, pids));
        assert((t + claimed(r, pids)).to_multiset().add(unclaimed(r, pids).to_multiset()) =~= t.to_multiset().add(
            claimed(r, pids).to_multiset().add(unclaimed(r, pids).to_multiset()),
        ));
    } else {
        broadcast use vstd::seq_lib::group_to_multiset_ensures, vstd::multiset::group_multiset_axioms;

        assert(taken(pool, configs) =~= Seq::<CardV>::empty());
        assert(taken(pool, configs).to_multiset().len() == 0);
        assert(taken(pool, configs).to_multiset() =~= vstd::multiset::Multiset::empty());
        assert(taken(pool, configs).to_multiset().add(pool.to_multiset()) =~= pool.to_multiset());
    }
}

/// A section that would hold no card (it claims nothing and has no
/// timeline) is left out: every composed section has a card.
pub proof fn empty_sections_collapse(item: ItemV, pool: Seq<CardV>, configs: Seq<SectionConfig>)
    ensures
        forall|i: int|
            0 <= i < composed(item, pool, configs).0.len() ==> (#[trigger] composed(
                item,
                pool,
                configs,
            ).0[i]).cards.len() > 0,
    decreases configs.len(),
{
    if configs.len() > 0 {
        empty_sections_collapse(item, pool, configs.drop_last());
        let acc = composed(item, pool, configs.drop_last());
        let next = section_step(acc, item, configs.last());
        assert forall|i: int| 0 <= i < next.0.len() implies (#[trigger] next.0[i]).cards.len() > 0 by {
            if i < acc.0.len() {
                assert(acc.0[i].cards.len() > 0);
            }
        }
    }
}

/// The overflow holds no card a section's PIDs would claim: the first
/// section that lists a card's PID takes it.
pub proof fn overflow_is_unclaimed(pool: Seq<CardV>, configs: Seq<SectionConfig>, k: int)
    requires
        0 <= k < configs.len(),
    ensures
        forall|i: int|
            0 <= i < remaining(pool, configs).len() ==> !claims(
                #[trigger] remaining(pool, configs)[i],
                strs_view(configs[k].pids@),
            ),
    decreases configs.len(),
{
    let r = remaining(pool, configs.drop_last());
    let pids = strs_view(configs.last().pids@);
    lemma_claim_partition(r, pids);
    lemma_unclaimed_from(r, pids);
    if k < configs.len() - 1 {
        overflow_is_unclaimed(pool, configs.drop_last(), k);
        assert(configs.drop_last()[k] == configs[k]);
        assert forall|i: int| 0 <= i < unclaimed(r, pids).len() implies !claims(
            #[trigger] unclaimed(r, pids)[i],
            strs_view(configs[k].pids@),
        ) by {
            let j = choose|j: int| 0 <= j < r.len() && r[j] == unclaimed(r, pids)[i];
            assert(!claims(r[j], strs_view(configs.drop_last()[k].pids@)));
        }
    }
}

/// Every card left unclaimed was in the pool.
pub proof fn lemma_unclaimed_from(pool: Seq<CardV>, pids: Seq<Seq<char>>)
    ensures
        forall|i: int|
            0 <= i < unclaimed(pool, pids).len() ==> exists|j: int|
                0 <= j < pool.len() && pool[j] == #[trigger] unclaimed(pool, pids)[i],
    decreases pool.len(),
{
    if pool.len() > 0 {
        let d = pool.drop_last();
        lemma_unclaimed_from(d, pids);
        let b = unclaimed(d, pids);
        assert forall|i: int| 0 <= i < unclaimed(pool, pids).len() implies exists|j: int|
            0 <= j < pool.len() && pool[j] == #[trigger] unclaimed(pool, pids)[i] by {
            if i < b.len() {
                assert(unclaimed(pool, pids)[i] == b[i]);
                let j = choose|j: int| 0 <= j < d.len() && d[j] == b[i];
                assert(pool[j] == d[j]);
            } else {
                assert(unclaimed(pool, pids)[i] == pool.last());
                assert(pool[pool.len() - 1] == pool.last());
            }
        }
    }
}

// ---------------------------------------------------------------------
// Checking that a recipe's year cuts fall between characters
// ---------------------------------------------------------------------

fn dated_fits(p: &Property) -> (res: bool)
    ensures
        res == dated_ok(p@),
{
    let ghost ss = p@.statements;
    for i in 0..p.statements.len()
        invariant
            ss == p@.statements,
            forall|k: int| 0 <= k < i ==> year_ok(#[trigger] ss[k].value),
    {
        assert(ss[i as int] == p.statements@[i as int]@);
        if !crate::format::year_fits(&p.statements[i].value) {
            assert(!year_ok(ss[i as int].value));
            return false;
        }
    }
    true
}

fn timeline_fits(item: &WikidataItem, pids: &Vec<String>) -> (res: bool)
    ensures
        res == timeline_ok(item@, strs_view(pids@)),
{
    let ghost pv = strs_view(pids@);
    for i in 0..pids.len()
        invariant
            pv == strs_view(pids@),
            forall|k: int|
                0 <= k < i ==> match item@.get(#[trigger] pv[k]) {
                    Some(p) => dated_ok(p),
                    None => true,
                },
    {
        assert(pv[i as int] == pids@[i as int]@);
        match item.get(pids[i].as_str()) {
            Some(p) => {
                if !dated_fits(p) {
                    return false;
                }
            },
            None => {},
        }
    }
    true
}

fn first_year_fits(item: &WikidataItem, pid: &str) -> (res: bool)
    ensures
        res == first_year_ok(item@, pid@),
{
    match item.get(pid) {
        Some(p) => {
            if p.statements.len() == 0 {
                true
            } else {
                assert(p@.statements[0] == p.statements@[0]@);
                crate::format::year_fits(&p.statements[0].value)
            }
        },
        None => true,
    }
}

fn hero_fits(item: &WikidataItem, config: &HeroConfig) -> (res: bool)
    ensures
        res == hero_ok(item@, *config),
{
    let ghost d = strs_view(config.dates@);
    if config.dates.len() == 2 {
        assert(d[0] == config.dates@[0]@ && d[1] == config.dates@[1]@);
        first_year_fits(item, config.dates[0].as_str()) && first_year_fits(item, config.dates[1].as_str())
    } else if config.dates.len() == 1 {
        assert(d[0] == config.dates@[0]@);
        first_year_fits(item, config.dates[0].as_str())
    } else {
        true
    }
}

fn sections_fit(item: &WikidataItem, configs: &Vec<SectionConfig>) -> (res: bool)
    ensures
        res == sections_ok(item@, configs@),
{
    for j in 0..configs.len()
        invariant
            forall|k: int|
                0 <= k < j ==> match (#[trigger] configs@[k]).timeline {
                    Some(tc) => timeline_ok(item@, strs_view(tc.pids@)),
                    None => true,
                },
    {
        match &configs[j].timeline {
            Some(tc) => {
                if !timeline_fits(item, &tc.pids) {
                    assert(!sections_ok(item@, configs@));
                    return false;
                }
            },
            None => {},
        }
    }
    true
}

/// Whether the recipe's hero dates and timeline events can be cut to
/// their years on this item.
pub fn recipe_fits(item: &WikidataItem, recipe: &ArchetypeConfig) -> (res: bool)
    ensures
        res == recipe_ok(item@, Some(*recipe)),
{
    let hero = match &recipe.hero {
        Some(h) => hero_fits(item, h),
        None => true,
    };
    hero && sections_fit(item, &recipe.sections)
}

// ---------------------------------------------------------------------
// The shape of the hero's date range
// ---------------------------------------------------------------------

/// A date range reads start, dash, end: a known start opens it and a
/// known end closes it; with only a start the dash comes last ("1952 –"),
/// with only an end it comes first ("– 2001"); with neither there is no
/// range.
pub proof fn date_range_reads_start_dash_end(start: Option<Seq<char>>, end: Option<Seq<char>>)
    ensures
        match (start, end) {
            (Some(s), Some(e)) => date_range(start, end) == Some(s + " \u{2013} "@ + e),
            (Some(s), None) => date_range(start, end) matches Some(r) && r.len() == s.len() + 2
                && r.subrange(0, s.len() as int) == s && r[r.len() - 1] == '\u{2013}',
            (None, Some(e)) => date_range(start, end) matches Some(r) && r.len() == e.len() + 2
                && r[0] == '\u{2013}' && r.subrange(2, r.len() as int) == e,
            (None, None) => date_range(start, end) is None,
        },
{
    reveal_strlit(" \u{2013}");
    reveal_strlit("\u{2013} ");
    match (start, end) {
        (Some(s), None) => {
            let r = s + " \u{2013}"@;
            assert(r.subrange(0, s.len() as int) =~= s);
        },
        (None, Some(e)) => {
            let r = "\u{2013} "@ + e;
            assert(r.subrange(2, r.len() as int) =~= e);
        },
        _ => {},
    }
}

/// A hero whose dates are a start and an end property, with a year for
/// the start and none for the end (a living person), shows the range as
/// the start year followed by the dash.
pub proof fn open_ended_hero_range(item: ItemV, config: HeroConfig, year: Seq<char>)
    requires
        config.dates@.len() == 2,
        first_year(item, config.dates@[0]@) == Some(year),
        first_year(item, config.dates@[1]@) is None,
    ensures
        hero_facts_of(item, config) matches Some(h) && h.date_range == Some(year + " \u{2013}"@),
{
    let dv = strs_view(config.dates@);
    assert(dv[0] == config.dates@[0]@ && dv[1] == config.dates@[1]@);
}

} // verus!
