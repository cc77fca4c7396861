//! Page-level density: per region (each section, the overflow grid, the
//! footnotes), three or more time-series cards merge into one indicator
//! table, and two or more map cards into one labeled coordinate list.
//! Merging never crosses a region boundary and drops nothing: every
//! series and every coordinate stays on the page.

use vstd::prelude::*;

use crate::cards::plan::{apply, default_variant, planned};
use crate::cards::{
    default_layout, CardKind, CardKindV, CardV, Card, FactRow, FactRowV, FactValue, FactValueV,
    FactoidPage, FactoidPageV, Indicator, IndicatorV, Layout, Section, SectionV, Tier,
};
use crate::text::{owned, push_str, strs_view};

verus! {

pub const MIN_TRENDS: usize = 3;

pub const MIN_MAPS: usize = 2;

pub open spec fn is_trend(c: CardV) -> bool {
    c.kind is StatSeries
}

pub open spec fn is_map(c: CardV) -> bool {
    c.kind is GeoMap
}

pub open spec fn count_where(cards: Seq<CardV>, pred: spec_fn(CardV) -> bool) -> nat
    decreases cards.len(),
{
    if cards.len() == 0 {
        0
    } else {
        count_where(cards.drop_last(), pred) + if pred(cards.last()) { 1nat } else { 0nat }
    }
}

/// A region being merged: the kept cards, the merged parts, the merged
/// cards' PIDs, the tier of the last merged card, and where the first
/// merged card stood among the kept ones.
pub struct Merge<T> {
    pub kept: Seq<CardV>,
    pub parts: Seq<T>,
    pub pids: Seq<Seq<char>>,
    pub tier: Tier,
    pub first: Option<int>,
}

pub open spec fn indicator_of(c: CardV) -> IndicatorV {
    match c.kind {
        CardKindV::StatSeries { current, note, series } => IndicatorV {
            label: c.title,
            current,
            note,
            series,
        },
        _ => IndicatorV { label: c.title, current: Seq::empty(), note: None, series: Seq::empty() },
    }
}

/// "lat, lon" as one text value under the map's title.
pub open spec fn coordinate_row(c: CardV) -> FactRowV {
    match c.kind {
        CardKindV::GeoMap { lat, lon, .. } => FactRowV {
            label: c.title,
            values: seq![FactValueV::Text { value: lat + ", "@ + lon, span: None, note: None }],
        },
        _ => FactRowV { label: c.title, values: Seq::empty() },
    }
}

pub open spec fn merge_fold<T>(
    cards: Seq<CardV>,
    pred: spec_fn(CardV) -> bool,
    part: spec_fn(CardV) -> T,
) -> Merge<T>
    decreases cards.len(),
{
    if cards.len() == 0 {
        Merge { kept: Seq::empty(), parts: Seq::empty(), pids: Seq::empty(), tier: Tier::Standard, first: None }
    } else {
        let m = merge_fold(cards.drop_last(), pred, part);
        let c = cards.last();
        if pred(c) {
            Merge {
                kept: m.kept,
                parts: m.parts.push(part(c)),
                pids: m.pids + c.source_pids,
                tier: c.tier,
                first: if m.first is None { Some(m.kept.len() as int) } else { m.first },
            }
        } else {
            Merge { kept: m.kept.push(c), ..m }
        }
    }
}

pub open spec fn merged_card(title: Seq<char>, icon: Seq<char>, pids: Seq<Seq<char>>, tier: Tier, kind: CardKindV) -> CardV {
    planned(
        CardV {
            title,
            localized_title: false,
            icon: Some(icon),
            source_pids: pids,
            variant: default_variant(),
            layout: default_layout(),
            tier,
            kind,
        },
    )
}

/// Three or more trends become one indicators card where the first stood.
pub open spec fn trends_merged(cards: Seq<CardV>) -> Seq<CardV> {
    if count_where(cards, |c: CardV| is_trend(c)) < MIN_TRENDS {
        cards
    } else {
        let m = merge_fold(cards, |c: CardV| is_trend(c), |c: CardV| indicator_of(c));
        let card = merged_card(
            "indicators"@,
            "pace"@,
            m.pids,
            m.tier,
            CardKindV::Indicators { indicators: m.parts },
        );
        m.kept.insert(
            match m.first {
                Some(k) => k,
                None => m.kept.len() as int,
            },
            card,
        )
    }
}

/// Two or more maps become one coordinate list where the first stood.
pub open spec fn maps_merged(cards: Seq<CardV>) -> Seq<CardV> {
    if count_where(cards, |c: CardV| is_map(c)) < MIN_MAPS {
        cards
    } else {
        let m = merge_fold(cards, |c: CardV| is_map(c), |c: CardV| coordinate_row(c));
        let card = merged_card(
            "coordinates"@,
            "location_on"@,
            m.pids,
            m.tier,
            CardKindV::Facts { rows: m.parts },
        );
        m.kept.insert(
            match m.first {
                Some(k) => k,
                None => m.kept.len() as int,
            },
            card,
        )
    }
}

pub open spec fn region(cards: Seq<CardV>) -> Seq<CardV> {
    maps_merged(trends_merged(cards))
}

pub open spec fn consolidated(page: FactoidPageV) -> FactoidPageV {
    FactoidPageV {
        sections: page.sections.map_values(|s: SectionV| SectionV { cards: region(s.cards), ..s }),
        overflow: region(page.overflow),
        footnotes: region(page.footnotes),
        ..page
    }
}

pub proof fn lemma_merge_first<T>(cards: Seq<CardV>, pred: spec_fn(CardV) -> bool, part: spec_fn(CardV) -> T)
    ensures
        match merge_fold(cards, pred, part).first {
            Some(k) => 0 <= k <= merge_fold(cards, pred, part).kept.len(),
            None => true,
        },
    decreases cards.len(),
{
    if cards.len() > 0 {
        lemma_merge_first(cards.drop_last(), pred, part);
    }
}

fn count_trends(cards: &Vec<Card>) -> (res: usize)
    ensures
        res == count_where(cards@.map_values(|c: Card| c@), |c: CardV| is_trend(c)),
{
    let ghost cv = cards@.map_values(|c: Card| c@);
    let mut n: usize = 0;
    for i in 0..cards.len()
        invariant
            cv == cards@.map_values(|c: Card| c@),
            n == count_where(cv.take(i as int), |c: CardV| is_trend(c)),
            n <= i,
    {
        assert(cv.take(i as int + 1).drop_last() =~= cv.take(i as int));
        assert(cv[i as int] == cards@[i as int]@);
        if matches!(cards[i].kind, CardKind::StatSeries { .. }) {
            n += 1;
        }
    }
    assert(cv.take(cv.len() as int) =~= cv);
    n
}

fn count_maps(cards: &Vec<Card>) -> (res: usize)
    ensures
        res == count_where(cards@.map_values(|c: Card| c@), |c: CardV| is_map(c)),
{
    let ghost cv = cards@.map_values(|c: Card| c@);
    let mut n: usize = 0;
    for i in 0..cards.len()
        invariant
            cv == cards@.map_values(|c: Card| c@),
            n == count_where(cv.take(i as int), |c: CardV| is_map(c)),
            n <= i,
    {
        assert(cv.take(i as int + 1).drop_last() =~= cv.take(i as int));
        assert(cv[i as int] == cards@[i as int]@);
        if matches!(cards[i].kind, CardKind::GeoMap { .. }) {
            n += 1;
        }
    }
    assert(cv.take(cv.len() as int) =~= cv);
    n
}

fn append_pids(pids: &mut Vec<String>, more: Vec<String>)
    ensures
        strs_view(final(pids)@) == strs_view(old(pids)@) + strs_view(more@),
{
    let mut more = more;
    let ghost a = strs_view(pids@);
    let ghost b = strs_view(more@);
    pids.append(&mut more);
    assert(strs_view(pids@) =~= a + b);
}

/// Replace the region's time-series cards with one indicators card at
/// the position of the first, keeping everything else in order.
pub fn merge_trends(cards: &mut Vec<Card>)
    ensures
        final(cards)@.map_values(|c: Card| c@) == trends_merged(old(cards)@.map_values(|c: Card| c@)),
{
    let ghost cv = cards@.map_values(|c: Card| c@);
    let trends = count_trends(cards);
    if trends < MIN_TRENDS {
        return ;
    }
    let mut all: Vec<Card> = Vec::new();
    std::mem::swap(cards, &mut all);
    let mut indicators: Vec<Indicator> = Vec::new();
    let mut source_pids: Vec<String> = Vec::new();
    let mut tier = Tier::Standard;
    let mut first_position: Option<usize> = None;
    let mut kept: Vec<Card> = Vec::new();
    for card in it: all
        invariant
            cv == it.seq().map_values(|c: Card| c@),
            ({
                let m = merge_fold(cv.take(it.index() as int), |c: CardV| is_trend(c), |c: CardV| indicator_of(c));
                &&& m.kept == kept@.map_values(|c: Card| c@)
                &&& m.parts == indicators@.map_values(|x: Indicator| x@)
                &&& m.pids == strs_view(source_pids@)
                &&& m.tier == tier
                &&& m.first == match first_position {
                    Some(k) => Some(k as int),
                    None => None::<int>,
                }
            }),
            kept@.len() <= it.index(),
    {
        let ghost i = it.index();
        assert(cv[i as int] == card@);
        assert(cv.take(i + 1).drop_last() =~= cv.take(i as int));
        assert(cv.take(i + 1).last() == card@);
        let Card { title, localized_title, icon, source_pids: pids, variant, layout, tier: t, kind } = card;
        match kind {
            CardKind::StatSeries { current, note, series } => {
                if first_position.is_none() {
                    first_position = Some(kept.len());
                }
                let ghost i0 = indicators@.map_values(|x: Indicator| x@);
                let ind = Indicator { label: title, current, note, series };
                indicators.push(ind);
                assert(indicators@.map_values(|x: Indicator| x@) =~= i0.push(indicator_of(cv[i as int])));
                append_pids(&mut source_pids, pids);
                tier = t;
            },
            kind => {
                let ghost k0 = kept@.map_values(|c: Card| c@);
                let c = Card { title, localized_title, icon, source_pids: pids, variant, layout, tier: t, kind };
                assert(c@ == cv[i as int]);
                kept.push(c);
                assert(kept@.map_values(|c: Card| c@) =~= k0.push(cv[i as int]));
            },
        }
    }
    assert(cv.take(cv.len() as int) =~= cv);
    proof { lemma_merge_first(cv, |c: CardV| is_trend(c), |c: CardV| indicator_of(c)); }
    let merged = Card {
        title: owned("indicators"),
        localized_title: false,
        icon: Some(owned("pace")),
        source_pids,
        variant: crate::cards::Variant::default(),
        layout: Layout::default(),
        tier,
        kind: CardKind::Indicators { indicators },
    };
    let merged = apply(merged);
    let at = match first_position {
        Some(k) => k,
        None => kept.len(),
    };
    let ghost k0 = kept@.map_values(|c: Card| c@);
    kept.insert(at, merged);
    assert(kept@.map_values(|c: Card| c@) =~= k0.insert(at as int, merged@));
    *cards = kept;
}

/// Replace the region's map cards with one labeled coordinate list.
pub fn merge_maps(cards: &mut Vec<Card>)
    ensures
        final(cards)@.map_values(|c: Card| c@) == maps_merged(old(cards)@.map_values(|c: Card| c@)),
{
    let ghost cv = cards@.map_values(|c: Card| c@);
    let maps = count_maps(cards);
    if maps < MIN_MAPS {
        return ;
    }
    let mut all: Vec<Card> = Vec::new();
    std::mem::swap(cards, &mut all);
    let mut rows: Vec<FactRow> = Vec::new();
    let mut source_pids: Vec<String> = Vec::new();
    let mut tier = Tier::Standard;
    let mut first_position: Option<usize> = None;
    let mut kept: Vec<Card> = Vec::new();
    for card in it: all
        invariant
            cv == it.seq().map_values(|c: Card| c@),
            ({
                let m = merge_fold(cv.take(it.index() as int), |c: CardV| is_map(c), |c: CardV| coordinate_row(c));
                &&& m.kept == kept@.map_values(|c: Card| c@)
                &&& m.parts == rows@.map_values(|x: FactRow| x@)
                &&& m.pids == strs_view(source_pids@)
                &&& m.tier == tier
                &&& m.first == match first_position {
                    Some(k) => Some(k as int),
                    None => None::<int>,
                }
            }),
            kept@.len() <= it.index(),
    {
        let ghost i = it.index();
        assert(cv[i as int] == card@);
        assert(cv.take(i + 1).drop_last() =~= cv.take(i as int));
        assert(cv.take(i + 1).last() == card@);
        let Card { title, localized_title, icon, source_pids: pids, variant, layout, tier: t, kind } = card;
        match kind {
            CardKind::GeoMap { lat, lon, label, geoshape } => {
                if first_position.is_none() {
                    first_position = Some(kept.len());
                }
                let mut text = lat;
                push_str(&mut text, ", ");
                push_str(&mut text, lon.as_str());
                let mut values: Vec<FactValue> = Vec::new();
                values.push(FactValue::Text { value: text, span: None, note: None });
                let row = FactRow { label: title, values };
                assert(row@ == coordinate_row(cv[i as int])) by {
                    assert(row@.values =~= coordinate_row(cv[i as int]).values);
                }
                let ghost r0 = rows@.map_values(|x: FactRow| x@);
                rows.push(row);
                assert(rows@.map_values(|x: FactRow| x@) =~= r0.push(coordinate_row(cv[i as int])));
                append_pids(&mut source_pids, pids);
                tier = t;
            },
            kind => {
                let ghost k0 = kept@.map_values(|c: Card| c@);
                let c = Card { title, localized_title, icon, source_pids: pids, variant, layout, tier: t, kind };
                assert(c@ == cv[i as int]);
                kept.push(c);
                assert(kept@.map_values(|c: Card| c@) =~= k0.push(cv[i as int]));
            },
        }
    }
    assert(cv.take(cv.len() as int) =~= cv);
    proof { lemma_merge_first(cv, |c: CardV| is_map(c), |c: CardV| coordinate_row(c)); }
    let merged = Card {
        title: owned("coordinates"),
        localized_title: false,
        icon: Some(owned("location_on")),
        source_pids,
        variant: crate::cards::Variant::default(),
        layout: Layout::default(),
        tier,
        kind: CardKind::Facts { rows },
    };
    let merged = apply(merged);
    let at = match first_position {
        Some(k) => k,
        None => kept.len(),
    };
    let ghost k0 = kept@.map_values(|c: Card| c@);
    kept.insert(at, merged);
    assert(kept@.map_values(|c: Card| c@) =~= k0.insert(at as int, merged@));
    *cards = kept;
}

pub fn consolidate_region(cards: &mut Vec<Card>)
    ensures
        final(cards)@.map_values(|c: Card| c@) == region(old(cards)@.map_values(|c: Card| c@)),
{
    merge_trends(cards);
    merge_maps(cards);
}

/// Consolidate every region of the page.
pub fn consolidate(page: &mut FactoidPage)
    ensures
        final(page)@ == consolidated(old(page)@),
{
    let ghost p0 = page@;
    let mut secs: Vec<Section> = Vec::new();
    std::mem::swap(&mut page.sections, &mut secs);
    let ghost sv = secs@.map_values(|s: Section| s@);
    assert(sv == p0.sections);
    let mut out: Vec<Section> = Vec::new();
    for s in it: secs
        invariant
            sv == it.seq().map_values(|s: Section| s@),
            out@.map_values(|s: Section| s@) == sv.take(it.index() as int).map_values(
                |s: SectionV| SectionV { cards: region(s.cards), ..s },
            ),
    {
        let ghost i = it.index();
        assert(sv[i as int] == s@);
        let Section { name, icon, cards } = s;
        let mut cards = cards;
        consolidate_region(&mut cards);
        let ns = Section { name, icon, cards };
        let ghost o0 = out@.map_values(|s: Section| s@);
        out.push(ns);
        assert(out@.map_values(|s: Section| s@) =~= o0.push(SectionV { cards: region(sv[i as int].cards), ..sv[i as int] }));
        assert(sv.take(i + 1).map_values(|s: SectionV| SectionV { cards: region(s.cards), ..s }) =~= sv.take(
            i as int,
        ).map_values(|s: SectionV| SectionV { cards: region(s.cards), ..s }).push(
            SectionV { cards: region(sv[i as int].cards), ..sv[i as int] },
        ));
    }
    assert(sv.take(sv.len() as int) =~= sv);
    page.sections = out;
    consolidate_region(&mut page.overflow);
    consolidate_region(&mut page.footnotes);
    assert(page@.sections =~= consolidated(p0).sections);
}

} // verus!

verus! {

/// The cards satisfying `pred`, in order.
pub open spec fn only(cards: Seq<CardV>, pred: spec_fn(CardV) -> bool) -> Seq<CardV>
    decreases cards.len(),
{
    if cards.len() == 0 {
        Seq::empty()
    } else if pred(cards.last()) {
        only(cards.drop_last(), pred).push(cards.last())
    } else {
        only(cards.drop_last(), pred)
    }
}

pub proof fn lemma_merge_fold<T>(cards: Seq<CardV>, pred: spec_fn(CardV) -> bool, part: spec_fn(CardV) -> T)
    ensures
        merge_fold(cards, pred, part).kept == only(cards, |c: CardV| !pred(c)),
        merge_fold(cards, pred, part).parts == only(cards, pred).map_values(part),
        only(cards, pred).len() == count_where(cards, pred),
    decreases cards.len(),
{
    if cards.len() > 0 {
        lemma_merge_fold(cards.drop_last(), pred, part);
        let o = only(cards.drop_last(), pred);
        if pred(cards.last()) {
            assert(o.push(cards.last()).map_values(part) =~= o.map_values(part).push(part(cards.last())));
        }
    } else {
        assert(only(cards, pred).map_values(part) =~= Seq::<T>::empty());
    }
}

/// Merging time series drops nothing: the region keeps every other card
/// in order, and one indicators card, where the first series stood,
/// lists every series in order.
pub proof fn trends_merge_keeps_every_series(cards: Seq<CardV>)
    requires
        count_where(cards, |c: CardV| is_trend(c)) >= MIN_TRENDS,
    ensures
        exists|k: int|
            0 <= k < trends_merged(cards).len() && trends_merged(cards).remove(k) == only(
                cards,
                |c: CardV| !is_trend(c),
            ) && trends_merged(cards)[k].kind == (CardKindV::Indicators {
                indicators: only(cards, |c: CardV| is_trend(c)).map_values(|c: CardV| indicator_of(c)),
            }),
{
    let pred = |c: CardV| is_trend(c);
    let part = |c: CardV| indicator_of(c);
    lemma_merge_fold(cards, pred, part);
    lemma_merge_first(cards, pred, part);
    let m = merge_fold(cards, pred, part);
    let k = match m.first {
        Some(k) => k,
        None => m.kept.len() as int,
    };
    let r = trends_merged(cards);
    assert(r.remove(k) =~= m.kept);
    assert((|c: CardV| !pred(c)) =~= (|c: CardV| !is_trend(c)));
    assert(r[k].kind == (CardKindV::Indicators { indicators: m.parts }));
}

/// Merging maps drops nothing: the region keeps every other card in
/// order, and one coordinate list, where the first map stood, has a row
/// for every map in order.
pub proof fn maps_merge_keeps_every_coordinate(cards: Seq<CardV>)
    requires
        count_where(cards, |c: CardV| is_map(c)) >= MIN_MAPS,
    ensures
        exists|k: int|
            0 <= k < maps_merged(cards).len() && maps_merged(cards).remove(k) == only(
                cards,
                |c: CardV| !is_map(c),
            ) && maps_merged(cards)[k].kind == (CardKindV::Facts {
                rows: only(cards, |c: CardV| is_map(c)).map_values(|c: CardV| coordinate_row(c)),
            }),
{
    let pred = |c: CardV| is_map(c);
    let part = |c: CardV| coordinate_row(c);
    lemma_merge_fold(cards, pred, part);
    lemma_merge_first(cards, pred, part);
    let m = merge_fold(cards, pred, part);
    let k = match m.first {
        Some(k) => k,
        None => m.kept.len() as int,
    };
    let r = maps_merged(cards);
    assert(r.remove(k) =~= m.kept);
    assert((|c: CardV| !pred(c)) =~= (|c: CardV| !is_map(c)));
    assert(m.parts.len() >= 2);
    assert(r[k].kind == (CardKindV::Facts { rows: m.parts }));
}

} // verus!

verus! {

pub open spec fn all_tier(cards: Seq<CardV>, t: Tier) -> bool {
    forall|i: int| 0 <= i < cards.len() ==> (#[trigger] cards[i]).tier == t
}

pub proof fn lemma_merge_tier<T>(cards: Seq<CardV>, pred: spec_fn(CardV) -> bool, part: spec_fn(CardV) -> T, t: Tier)
    requires
        all_tier(cards, t),
    ensures
        all_tier(merge_fold(cards, pred, part).kept, t),
        merge_fold(cards, pred, part).parts.len() > 0 ==> merge_fold(cards, pred, part).tier == t,
    decreases cards.len(),
{
    if cards.len() > 0 {
        assert(all_tier(cards.drop_last(), t)) by {
            assert forall|i: int| 0 <= i < cards.drop_last().len() implies (#[trigger] cards.drop_last()[i]).tier == t by {
                assert(cards.drop_last()[i] == cards[i]);
            }
        }
        lemma_merge_tier(cards.drop_last(), pred, part, t);
        assert(cards[cards.len() - 1].tier == t);
        let m = merge_fold(cards.drop_last(), pred, part);
        if !pred(cards.last()) {
            assert forall|i: int| 0 <= i < m.kept.push(cards.last()).len() implies (#[trigger] m.kept.push(
                cards.last(),
            )[i]).tier == t by {
                if i < m.kept.len() {
                    assert(m.kept.push(cards.last())[i] == m.kept[i]);
                }
            }
        }
    }
}

pub proof fn lemma_insert_tier(s: Seq<CardV>, k: int, c: CardV, t: Tier)
    requires
        all_tier(s, t),
        c.tier == t,
        0 <= k <= s.len(),
    ensures
        all_tier(s.insert(k, c), t),
{
    assert forall|i: int| 0 <= i < s.insert(k, c).len() implies (#[trigger] s.insert(k, c)[i]).tier == t by {
        if i < k {
            assert(s.insert(k, c)[i] == s[i]);
        } else if i > k {
            assert(s.insert(k, c)[i] == s[i - 1]);
        }
    }
}

/// Consolidating a region whose cards share a tier keeps that tier on
/// every card, merged ones included.
pub proof fn region_keeps_tier(cards: Seq<CardV>, t: Tier)
    requires
        all_tier(cards, t),
    ensures
        all_tier(region(cards), t),
{
    let tr = trends_merged(cards);
    if count_where(cards, |c: CardV| is_trend(c)) >= MIN_TRENDS {
        let pred = |c: CardV| is_trend(c);
        let part = |c: CardV| indicator_of(c);
        lemma_merge_fold(cards, pred, part);
        lemma_merge_first(cards, pred, part);
        lemma_merge_tier(cards, pred, part, t);
        let m = merge_fold(cards, pred, part);
        let k = match m.first {
            Some(k) => k,
            None => m.kept.len() as int,
        };
        lemma_insert_tier(m.kept, k, tr[k], t);
        assert(tr =~= m.kept.insert(k, tr[k]));
    }
    assert(all_tier(tr, t));
    if count_where(tr, |c: CardV| is_map(c)) >= MIN_MAPS {
        let pred = |c: CardV| is_map(c);
        let part = |c: CardV| coordinate_row(c);
        lemma_merge_fold(tr, pred, part);
        lemma_merge_first(tr, pred, part);
        lemma_merge_tier(tr, pred, part, t);
        let m = merge_fold(tr, pred, part);
        let k = match m.first {
            Some(k) => k,
            None => m.kept.len() as int,
        };
        let mr = maps_merged(tr);
        lemma_insert_tier(m.kept, k, mr[k], t);
        assert(mr =~= m.kept.insert(k, mr[k]));
    }
}

} // verus!
