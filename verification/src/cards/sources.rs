//! Where a card's source PIDs come from: only from the properties it was
//! made of. So a PID the page does not show (an ignored one, the main
//! image the hero shows in full, the emblem the header shows in full) is
//! the source of no card.

use vstd::prelude::*;

use crate::archetype::ArchetypeConfig;
use crate::cards::page::{
    emblem_consumed, emblem_pid, finished, group_properties, groups_part, hero_consumes,
    leftover_part, page_cards, pid_before, shown, sort_before, ungrouped,
};
use crate::cards::synthesis::{
    dedup, group_cards, group_fold, image_cards, property_step, row_cards, statement_step,
    statements_fold, GroupAcc, Reading,
};
use crate::archetype::{resolved, ArchetypesConfig, SectionConfig};
use crate::cards::compose::{claimed, composed, section_step, timeline_of, unclaimed};
use crate::cards::density::{
    count_where, indicator_of, coordinate_row, is_map, is_trend, lemma_merge_first, lemma_merge_fold,
    maps_merged, merge_fold, region, trends_merged, MIN_MAPS, MIN_TRENDS,
};
use crate::cards::page::{of_tier, recipe_of, synthesized};
use crate::cards::{section_cards, CardV, SectionV};
use crate::grouping::{GroupConfig, GroupingConfig};
use crate::model::{lemma_property_index_bounds, ItemV, PropertyV, StatementV};
use crate::sort::{lemma_sorted_all, sorted_by};

verus! {

/// No card names `pid` among its sources.
pub open spec fn cards_avoid(cards: Seq<CardV>, pid: Seq<char>) -> bool {
    forall|i: int| 0 <= i < cards.len() ==> !(#[trigger] cards[i]).source_pids.contains(pid)
}

/// No property has the PID `pid`.
pub open spec fn props_avoid(props: Seq<PropertyV>, pid: Seq<char>) -> bool {
    forall|i: int| 0 <= i < props.len() ==> (#[trigger] props[i]).pid != pid
}

/// No entry is keyed by `pid`.
pub open spec fn keys_avoid<T>(entries: Seq<(Seq<char>, T)>, pid: Seq<char>) -> bool {
    forall|i: int| 0 <= i < entries.len() ==> (#[trigger] entries[i]).0 != pid
}

proof fn lemma_dedup_avoids(s: Seq<Seq<char>>, pid: Seq<char>)
    requires
        !s.contains(pid),
    ensures
        !dedup(s).contains(pid),
    decreases s.len(),
{
    if s.len() > 0 {
        assert(!s.drop_last().contains(pid)) by {
            if s.drop_last().contains(pid) {
                let j = choose|j: int| 0 <= j < s.drop_last().len() && s.drop_last()[j] == pid;
                assert(s[j] == pid);
            }
        }
        lemma_dedup_avoids(s.drop_last(), pid);
        let d = dedup(s.drop_last());
        if !d.contains(s.last()) {
            assert(s[s.len() - 1] != pid);
            assert(!d.push(s.last()).contains(pid)) by {
                if d.push(s.last()).contains(pid) {
                    let j = choose|j: int| 0 <= j < d.push(s.last()).len() && d.push(s.last())[j] == pid;
                    if j < d.len() {
                        assert(d[j] == pid);
                    }
                }
            }
        }
    }
}

proof fn lemma_keys_avoid<T>(entries: Seq<(Seq<char>, T)>, pid: Seq<char>)
    requires
        keys_avoid(entries, pid),
    ensures
        !entries.map_values(|x: (Seq<char>, T)| x.0).contains(pid),
        !dedup(entries.map_values(|x: (Seq<char>, T)| x.0)).contains(pid),
{
    let keys = entries.map_values(|x: (Seq<char>, T)| x.0);
    assert(!keys.contains(pid)) by {
        if keys.contains(pid) {
            let j = choose|j: int| 0 <= j < keys.len() && keys[j] == pid;
            assert(entries[j].0 == pid);
        }
    }
    lemma_dedup_avoids(keys, pid);
}

proof fn lemma_single_avoids(a: Seq<char>, pid: Seq<char>)
    requires
        a != pid,
    ensures
        !seq![a].contains(pid),
{
    if seq![a].contains(pid) {
        let j = choose|j: int| 0 <= j < 1 && seq![a][j] == pid;
        assert(seq![a][0] == a);
    }
}

pub open spec fn reading_avoids(r: Reading, pid: Seq<char>) -> bool {
    cards_avoid(r.0, pid) && keys_avoid(r.1, pid)
}

pub open spec fn acc_avoids(acc: GroupAcc, pid: Seq<char>) -> bool {
    cards_avoid(acc.cards, pid) && keys_avoid(acc.images, pid) && keys_avoid(acc.rows, pid)
}

proof fn lemma_statements_fold_avoids(
    acc: Reading,
    p: PropertyV,
    pref_media: bool,
    ss: Seq<StatementV>,
    pid: Seq<char>,
)
    requires
        reading_avoids(acc, pid),
        p.pid != pid,
    ensures
        reading_avoids(statements_fold(acc, p, pref_media, ss), pid),
    decreases ss.len(),
{
    if ss.len() > 0 {
        lemma_statements_fold_avoids(acc, p, pref_media, ss.drop_last(), pid);
        let r = statements_fold(acc, p, pref_media, ss.drop_last());
        let n = statement_step(r, p, pref_media, ss.last());
        lemma_single_avoids(p.pid, pid);
        assert(cards_avoid(n.0, pid)) by {
            assert forall|i: int| 0 <= i < n.0.len() implies !(#[trigger] n.0[i]).source_pids.contains(
                pid,
            ) by {
                if i < r.0.len() && n.0.len() == r.0.len() + 1 {
                    assert(n.0[i] == r.0[i]);
                }
            }
        }
        assert(keys_avoid(n.1, pid)) by {
            assert forall|i: int| 0 <= i < n.1.len() implies (#[trigger] n.1[i]).0 != pid by {
                if i < r.1.len() && n.1.len() == r.1.len() + 1 {
                    assert(n.1[i] == r.1[i]);
                }
            }
        }
    }
}

proof fn lemma_group_fold_avoids(props: Seq<PropertyV>, config: GroupingConfig, pid: Seq<char>)
    requires
        props_avoid(props, pid),
    ensures
        acc_avoids(group_fold(props, config), pid),
    decreases props.len(),
{
    if props.len() > 0 {
        assert(props_avoid(props.drop_last(), pid)) by {
            assert forall|i: int| 0 <= i < props.drop_last().len() implies (
            #[trigger] props.drop_last()[i]).pid != pid by {
                assert(props.drop_last()[i] == props[i]);
            }
        }
        lemma_group_fold_avoids(props.drop_last(), config, pid);
        let acc = group_fold(props.drop_last(), config);
        let p = props.last();
        assert(p.pid != pid) by {
            assert(props[props.len() - 1] == p);
        }
        lemma_single_avoids(p.pid, pid);
        let n = property_step(acc, p, config);
        match crate::cards::synthesis::configured_meter(p, config) {
            Some(card) => {
                assert(card.source_pids == seq![p.pid]);
                assert(n.cards == acc.cards.push(card));
                assert forall|i: int| 0 <= i < n.cards.len() implies !(
                #[trigger] n.cards[i]).source_pids.contains(pid) by {
                    if i < acc.cards.len() {
                        assert(n.cards[i] == acc.cards[i]);
                    }
                }
            },
            None => match crate::cards::quantities::quantity_card(p) {
                Some(card) => {
                    assert(card.source_pids == seq![p.pid]);
                    assert(n.cards == acc.cards.push(card));
                    assert forall|i: int| 0 <= i < n.cards.len() implies !(
                    #[trigger] n.cards[i]).source_pids.contains(pid) by {
                        if i < acc.cards.len() {
                            assert(n.cards[i] == acc.cards[i]);
                        }
                    }
                },
                None => {
                    lemma_statements_fold_avoids(
                        (acc.cards, acc.images, Seq::empty()),
                        p,
                        crate::cards::synthesis::has_preferred_media(p.statements),
                        crate::cards::synthesis::ordered(p),
                        pid,
                    );
                    assert forall|i: int| 0 <= i < n.rows.len() implies (#[trigger] n.rows[i]).0
                        != pid by {
                        if i < acc.rows.len() && n.rows.len() == acc.rows.len() + 1 {
                            assert(n.rows[i] == acc.rows[i]);
                        }
                    }
                },
            },
        }
    }
}

proof fn lemma_group_cards_avoid(
    title: Seq<char>,
    localized: bool,
    props: Seq<PropertyV>,
    config: GroupingConfig,
    pid: Seq<char>,
)
    requires
        props_avoid(props, pid),
    ensures
        cards_avoid(group_cards(title, localized, props, config), pid),
{
    lemma_group_fold_avoids(props, config, pid);
    let acc = group_fold(props, config);
    let ic = image_cards(acc.images, title, localized);
    let rc = row_cards(acc.rows, title, localized);
    lemma_keys_avoid(acc.images, pid);
    lemma_keys_avoid(acc.rows, pid);
    if acc.images.len() > 0 {
        lemma_single_avoids(acc.images[0].0, pid);
    }
    if acc.rows.len() > 0 {
        lemma_single_avoids(acc.rows[0].0, pid);
    }
    assert(cards_avoid(ic, pid));
    assert(cards_avoid(rc, pid));
    let all = acc.cards + ic + rc;
    assert forall|i: int| 0 <= i < all.len() implies !(#[trigger] all[i]).source_pids.contains(pid) by {
        if i < acc.cards.len() {
            assert(all[i] == acc.cards[i]);
        } else if i < acc.cards.len() + ic.len() {
            assert(all[i] == ic[i - acc.cards.len()]);
        } else {
            assert(all[i] == rc[i - acc.cards.len() - ic.len()]);
        }
    }
}

proof fn lemma_finished_avoid(
    cards: Seq<CardV>,
    group: Option<GroupConfig>,
    config: GroupingConfig,
    pid: Seq<char>,
)
    requires
        cards_avoid(cards, pid),
    ensures
        cards_avoid(cards.map_values(|c: CardV| finished(c, group, config)), pid),
{
    let m = cards.map_values(|c: CardV| finished(c, group, config));
    assert forall|i: int| 0 <= i < m.len() implies !(#[trigger] m[i]).source_pids.contains(pid) by {
        assert(m[i].source_pids == cards[i].source_pids);
    }
}

proof fn lemma_concat_avoid(a: Seq<CardV>, b: Seq<CardV>, pid: Seq<char>)
    requires
        cards_avoid(a, pid),
        cards_avoid(b, pid),
    ensures
        cards_avoid(a + b, pid),
{
    assert forall|i: int| 0 <= i < (a + b).len() implies !(#[trigger] (a + b)[i]).source_pids.contains(
        pid,
    ) by {
        if i < a.len() {
            assert((a + b)[i] == a[i]);
        } else {
            assert((a + b)[i] == b[i - a.len()]);
        }
    }
}

proof fn lemma_group_properties_avoid(
    item: ItemV,
    pids: Seq<Seq<char>>,
    config: GroupingConfig,
    hero_p18: bool,
    emblem: bool,
    epid: Seq<char>,
    pid: Seq<char>,
)
    requires
        !shown(config, hero_p18, emblem, epid, pid),
    ensures
        props_avoid(group_properties(item, pids, config, hero_p18, emblem, epid), pid),
    decreases pids.len(),
{
    if pids.len() > 0 {
        lemma_group_properties_avoid(item, pids.drop_last(), config, hero_p18, emblem, epid, pid);
        let rest = group_properties(item, pids.drop_last(), config, hero_p18, emblem, epid);
        lemma_property_index_bounds(item.properties, pids.last());
        if shown(config, hero_p18, emblem, epid, pids.last()) {
            match item.get(pids.last()) {
                Some(p) => {
                    assert(p.pid == pids.last());
                    assert forall|i: int| 0 <= i < rest.push(p).len() implies (
                    #[trigger] rest.push(p)[i]).pid != pid by {
                        if i < rest.len() {
                            assert(rest.push(p)[i] == rest[i]);
                        }
                    }
                },
                None => {},
            }
        }
    }
}

proof fn lemma_groups_part_avoid(
    item: ItemV,
    groups: Seq<(String, GroupConfig)>,
    config: GroupingConfig,
    ignore_ids: bool,
    hero_p18: bool,
    emblem: bool,
    epid: Seq<char>,
    pid: Seq<char>,
)
    requires
        !shown(config, hero_p18, emblem, epid, pid),
    ensures
        cards_avoid(groups_part(item, groups, config, ignore_ids, hero_p18, emblem, epid), pid),
    decreases groups.len(),
{
    if groups.len() > 0 {
        lemma_groups_part_avoid(item, groups.drop_last(), config, ignore_ids, hero_p18, emblem, epid, pid);
        let rest = groups_part(item, groups.drop_last(), config, ignore_ids, hero_p18, emblem, epid);
        let (name, g) = groups.last();
        if !(ignore_ids && name@ == "identifiers"@) {
            let props = group_properties(
                item,
                dedup(crate::text::strs_view(g.pids@)),
                config,
                hero_p18,
                emblem,
                epid,
            );
            lemma_group_properties_avoid(
                item,
                dedup(crate::text::strs_view(g.pids@)),
                config,
                hero_p18,
                emblem,
                epid,
                pid,
            );
            let made = group_cards(crate::cards::synthesis::humanized(name@), false, props, config);
            lemma_group_cards_avoid(crate::cards::synthesis::humanized(name@), false, props, config, pid);
            lemma_finished_avoid(made, Some(g), config, pid);
            lemma_concat_avoid(rest, made.map_values(|c: CardV| finished(c, Some(g), config)), pid);
        }
    }
}

proof fn lemma_ungrouped_avoid(
    props: Seq<PropertyV>,
    config: GroupingConfig,
    hero_p18: bool,
    emblem: bool,
    epid: Seq<char>,
    pid: Seq<char>,
)
    requires
        !shown(config, hero_p18, emblem, epid, pid),
    ensures
        props_avoid(ungrouped(props, config, hero_p18, emblem, epid), pid),
    decreases props.len(),
{
    if props.len() > 0 {
        lemma_ungrouped_avoid(props.drop_last(), config, hero_p18, emblem, epid, pid);
        let rest = ungrouped(props.drop_last(), config, hero_p18, emblem, epid);
        let p = props.last();
        assert forall|i: int| 0 <= i < rest.push(p).len() && shown(config, hero_p18, emblem, epid, p.pid)
            implies (#[trigger] rest.push(p)[i]).pid != pid by {
            if i < rest.len() {
                assert(rest.push(p)[i] == rest[i]);
            }
        }
    }
}

proof fn lemma_leftover_avoid(props: Seq<PropertyV>, config: GroupingConfig, ignore_ids: bool, pid: Seq<char>)
    requires
        props_avoid(props, pid),
    ensures
        cards_avoid(leftover_part(props, config, ignore_ids), pid),
    decreases props.len(),
{
    if props.len() > 0 {
        assert(props_avoid(props.drop_last(), pid)) by {
            assert forall|i: int| 0 <= i < props.drop_last().len() implies (
            #[trigger] props.drop_last()[i]).pid != pid by {
                assert(props.drop_last()[i] == props[i]);
            }
        }
        lemma_leftover_avoid(props.drop_last(), config, ignore_ids, pid);
        let rest = leftover_part(props.drop_last(), config, ignore_ids);
        let p = props.last();
        assert(p == props[props.len() - 1]);
        assert(props_avoid(seq![p], pid)) by {
            assert forall|i: int| 0 <= i < seq![p].len() implies (#[trigger] seq![p][i]).pid != pid by {
                assert(seq![p][i] == p);
            }
        }
        let made = group_cards(p.label, true, seq![p], config);
        lemma_group_cards_avoid(p.label, true, seq![p], config, pid);
        lemma_finished_avoid(made, None, config, pid);
        lemma_concat_avoid(rest, made.map_values(|c: CardV| finished(c, None, config)), pid);
    }
}

proof fn lemma_page_cards_avoid(
    item: ItemV,
    config: GroupingConfig,
    recipe: Option<ArchetypeConfig>,
    ignore_ids: bool,
    x: Seq<char>,
)
    requires
        !shown(config, hero_consumes(item), emblem_consumed(item, recipe), emblem_pid(recipe), x),
    ensures
        cards_avoid(page_cards(item, config, recipe, ignore_ids), x),
{
    let hp = hero_consumes(item);
    let ec = emblem_consumed(item, recipe);
    let epid = emblem_pid(recipe);
    let grouped_cards = groups_part(item, config.spec_sorted_groups(), config, ignore_ids, hp, ec, epid);
    lemma_groups_part_avoid(item, config.spec_sorted_groups(), config, ignore_ids, hp, ec, epid, x);
    let loose = ungrouped(item.properties, config, hp, ec, epid);
    lemma_ungrouped_avoid(item.properties, config, hp, ec, epid, x);
    let plt = |a: PropertyV, b: PropertyV| pid_before(a, b);
    let ppred = |p: PropertyV| p.pid != x;
    lemma_sorted_all(loose, plt, ppred);
    let rest = sorted_by(loose, plt);
    assert(props_avoid(rest, x)) by {
        assert forall|i: int| 0 <= i < rest.len() implies (#[trigger] rest[i]).pid != x by {
            assert(ppred(rest[i]));
        }
    }
    lemma_leftover_avoid(rest, config, ignore_ids, x);
    let all = grouped_cards + leftover_part(rest, config, ignore_ids);
    lemma_concat_avoid(grouped_cards, leftover_part(rest, config, ignore_ids), x);
    let clt = |a: CardV, b: CardV| sort_before(a, b);
    let cpred = |c: CardV| !c.source_pids.contains(x);
    lemma_sorted_all(all, clt, cpred);
    let sorted = sorted_by(all, clt);
    assert forall|i: int| 0 <= i < sorted.len() implies !(#[trigger] sorted[i]).source_pids.contains(x) by {
        assert(cpred(sorted[i]));
    }
}

/// A PID the page does not show is the source of no card: a PID the
/// grouping config ignores, the main image (P18) when the hero shows all
/// of it, and the recipe's emblem property when the header shows it in
/// full.
pub proof fn hidden_pids_make_no_card(
    item: ItemV,
    config: GroupingConfig,
    recipe: Option<ArchetypeConfig>,
    ignore_ids: bool,
    pid: Seq<char>,
)
    ensures
        config.ignores(pid) ==> cards_avoid(page_cards(item, config, recipe, ignore_ids), pid),
        hero_consumes(item) ==> cards_avoid(page_cards(item, config, recipe, ignore_ids), "P18"@),
        emblem_consumed(item, recipe) ==> cards_avoid(
            page_cards(item, config, recipe, ignore_ids),
            emblem_pid(recipe),
        ),
{
    if config.ignores(pid) {
        lemma_page_cards_avoid(item, config, recipe, ignore_ids, pid);
    }
    if hero_consumes(item) {
        lemma_page_cards_avoid(item, config, recipe, ignore_ids, "P18"@);
    }
    if emblem_consumed(item, recipe) {
        lemma_page_cards_avoid(item, config, recipe, ignore_ids, emblem_pid(recipe));
    }
}

// ---------------------------------------------------------------------
// On the finished page
// ---------------------------------------------------------------------

/// The card is a timeline (whose PIDs the recipe lists), or does not
/// name `pid` among its sources.
pub open spec fn spares(c: CardV, pid: Seq<char>) -> bool {
    c.kind is Timeline || !c.source_pids.contains(pid)
}

pub open spec fn all_spare(cards: Seq<CardV>, pid: Seq<char>) -> bool {
    forall|i: int| 0 <= i < cards.len() ==> spares(#[trigger] cards[i], pid)
}

pub open spec fn sections_spare(secs: Seq<SectionV>, pid: Seq<char>) -> bool {
    forall|i: int| 0 <= i < secs.len() ==> all_spare((#[trigger] secs[i]).cards, pid)
}

proof fn lemma_push_spare(s: Seq<CardV>, c: CardV, pid: Seq<char>)
    requires
        all_spare(s, pid),
        spares(c, pid),
    ensures
        all_spare(s.push(c), pid),
{
    assert forall|i: int| 0 <= i < s.push(c).len() implies spares(#[trigger] s.push(c)[i], pid) by {
        if i < s.len() {
            assert(s.push(c)[i] == s[i]);
        }
    }
}

proof fn lemma_drop_last_spare(s: Seq<CardV>, pid: Seq<char>)
    requires
        all_spare(s, pid),
        s.len() > 0,
    ensures
        all_spare(s.drop_last(), pid),
        spares(s.last(), pid),
{
    assert forall|i: int| 0 <= i < s.drop_last().len() implies spares(#[trigger] s.drop_last()[i], pid) by {
        assert(s.drop_last()[i] == s[i]);
    }
    assert(spares(s[s.len() - 1], pid));
}

proof fn lemma_concat_spare(a: Seq<CardV>, b: Seq<CardV>, pid: Seq<char>)
    requires
        all_spare(a, pid),
        all_spare(b, pid),
    ensures
        all_spare(a + b, pid),
{
    assert forall|i: int| 0 <= i < (a + b).len() implies spares(#[trigger] (a + b)[i], pid) by {
        if i < a.len() {
            assert((a + b)[i] == a[i]);
        } else {
            assert((a + b)[i] == b[i - a.len()]);
        }
    }
}

proof fn lemma_of_tier_spare(cards: Seq<CardV>, footnote: bool, pid: Seq<char>)
    requires
        all_spare(cards, pid),
    ensures
        all_spare(of_tier(cards, footnote), pid),
    decreases cards.len(),
{
    if cards.len() > 0 {
        lemma_drop_last_spare(cards, pid);
        lemma_of_tier_spare(cards.drop_last(), footnote, pid);
        if (cards.last().tier == crate::cards::Tier::Footnote) == footnote {
            lemma_push_spare(of_tier(cards.drop_last(), footnote), cards.last(), pid);
        }
    }
}

proof fn lemma_claimed_spare(pool: Seq<CardV>, pids: Seq<Seq<char>>, pid: Seq<char>)
    requires
        all_spare(pool, pid),
    ensures
        all_spare(claimed(pool, pids), pid),
        all_spare(unclaimed(pool, pids), pid),
    decreases pool.len(),
{
    if pool.len() > 0 {
        lemma_drop_last_spare(pool, pid);
        lemma_claimed_spare(pool.drop_last(), pids, pid);
        lemma_push_spare(claimed(pool.drop_last(), pids), pool.last(), pid);
        lemma_push_spare(unclaimed(pool.drop_last(), pids), pool.last(), pid);
    }
}

proof fn lemma_composed_spare(item: ItemV, pool: Seq<CardV>, configs: Seq<SectionConfig>, pid: Seq<char>)
    requires
        all_spare(pool, pid),
    ensures
        sections_spare(composed(item, pool, configs).0, pid),
        all_spare(composed(item, pool, configs).1, pid),
    decreases configs.len(),
{
    if configs.len() > 0 {
        lemma_composed_spare(item, pool, configs.drop_last(), pid);
        let acc = composed(item, pool, configs.drop_last());
        let sc = configs.last();
        let pids = crate::text::strs_view(sc.pids@);
        lemma_claimed_spare(acc.1, pids, pid);
        let mine = claimed(acc.1, pids);
        let with_timeline = match sc.timeline {
            Some(tc) => match timeline_of(item, tc) {
                Some(t) => seq![t] + mine,
                None => mine,
            },
            None => mine,
        };
        match sc.timeline {
            Some(tc) => match timeline_of(item, tc) {
                Some(t) => {
                    assert(t.kind is Timeline);
                    assert(all_spare(seq![t], pid)) by {
                        assert forall|i: int| 0 <= i < seq![t].len() implies spares(#[trigger] seq![t][i], pid) by {
                            assert(seq![t][i] == t);
                        }
                    }
                    lemma_concat_spare(seq![t], mine, pid);
                },
                None => {},
            },
            None => {},
        }
        assert(all_spare(with_timeline, pid));
        let next = section_step(acc, item, sc);
        assert forall|i: int| 0 <= i < next.0.len() implies all_spare((#[trigger] next.0[i]).cards, pid) by {
            if i < acc.0.len() {
                assert(all_spare(acc.0[i].cards, pid));
            }
        }
    }
}

proof fn lemma_section_cards_spare(secs: Seq<SectionV>, pid: Seq<char>)
    requires
        sections_spare(secs, pid),
    ensures
        all_spare(section_cards(secs), pid),
    decreases secs.len(),
{
    if secs.len() > 0 {
        assert(sections_spare(secs.drop_last(), pid)) by {
            assert forall|i: int| 0 <= i < secs.drop_last().len() implies all_spare(
                (#[trigger] secs.drop_last()[i]).cards,
                pid,
            ) by {
                assert(secs.drop_last()[i] == secs[i]);
            }
        }
        lemma_section_cards_spare(secs.drop_last(), pid);
        assert(all_spare(secs[secs.len() - 1].cards, pid));
        lemma_concat_spare(section_cards(secs.drop_last()), secs.last().cards, pid);
    }
}

proof fn lemma_merge_spare<T>(
    cards: Seq<CardV>,
    pred: spec_fn(CardV) -> bool,
    part: spec_fn(CardV) -> T,
    pid: Seq<char>,
)
    requires
        all_spare(cards, pid),
        forall|c: CardV| #[trigger] pred(c) ==> !(c.kind is Timeline),
    ensures
        all_spare(merge_fold(cards, pred, part).kept, pid),
        !merge_fold(cards, pred, part).pids.contains(pid),
    decreases cards.len(),
{
    if cards.len() > 0 {
        lemma_drop_last_spare(cards, pid);
        lemma_merge_spare(cards.drop_last(), pred, part, pid);
        let m = merge_fold(cards.drop_last(), pred, part);
        let c = cards.last();
        if pred(c) {
            assert(!c.source_pids.contains(pid));
            assert(!(m.pids + c.source_pids).contains(pid)) by {
                if (m.pids + c.source_pids).contains(pid) {
                    let j = choose|j: int| 0 <= j < (m.pids + c.source_pids).len() && (m.pids
                        + c.source_pids)[j] == pid;
                    if j < m.pids.len() {
                        assert(m.pids[j] == pid);
                    } else {
                        assert(c.source_pids[j - m.pids.len()] == pid);
                    }
                }
            }
        } else {
            lemma_push_spare(m.kept, c, pid);
        }
    }
}

proof fn lemma_insert_spare(s: Seq<CardV>, k: int, c: CardV, pid: Seq<char>)
    requires
        all_spare(s, pid),
        spares(c, pid),
        0 <= k <= s.len(),
    ensures
        all_spare(s.insert(k, c), pid),
{
    assert forall|i: int| 0 <= i < s.insert(k, c).len() implies spares(#[trigger] s.insert(k, c)[i], pid) by {
        if i < k {
            assert(s.insert(k, c)[i] == s[i]);
        } else if i > k {
            assert(s.insert(k, c)[i] == s[i - 1]);
        }
    }
}

proof fn lemma_region_spare(cards: Seq<CardV>, pid: Seq<char>)
    requires
        all_spare(cards, pid),
    ensures
        all_spare(region(cards), pid),
{
    let tr = trends_merged(cards);
    if count_where(cards, |c: CardV| is_trend(c)) >= MIN_TRENDS {
        let pred = |c: CardV| is_trend(c);
        let part = |c: CardV| indicator_of(c);
        lemma_merge_fold(cards, pred, part);
        lemma_merge_first(cards, pred, part);
        lemma_merge_spare(cards, pred, part, pid);
        let m = merge_fold(cards, pred, part);
        let k = match m.first {
            Some(k) => k,
            None => m.kept.len() as int,
        };
        assert(tr =~= m.kept.insert(k, tr[k]));
        assert(tr[k].source_pids == m.pids);
        lemma_insert_spare(m.kept, k, tr[k], pid);
    }
    assert(all_spare(tr, pid));
    if count_where(tr, |c: CardV| is_map(c)) >= MIN_MAPS {
        let pred = |c: CardV| is_map(c);
        let part = |c: CardV| coordinate_row(c);
        lemma_merge_fold(tr, pred, part);
        lemma_merge_first(tr, pred, part);
        lemma_merge_spare(tr, pred, part, pid);
        let m = merge_fold(tr, pred, part);
        let k = match m.first {
            Some(k) => k,
            None => m.kept.len() as int,
        };
        let mr = maps_merged(tr);
        assert(mr =~= m.kept.insert(k, mr[k]));
        assert(mr[k].source_pids == m.pids);
        lemma_insert_spare(m.kept, k, mr[k], pid);
    }
}

proof fn lemma_page_spares(
    item: ItemV,
    language: Seq<char>,
    config: GroupingConfig,
    archetypes: ArchetypesConfig,
    ignore_ids: bool,
    x: Seq<char>,
)
    requires
        cards_avoid(
            page_cards(item, config, recipe_of(archetypes, resolved(item, archetypes)), ignore_ids),
            x,
        ),
    ensures
        all_spare(synthesized(item, language, config, archetypes, ignore_ids).all_cards(), x),
{
    let name = resolved(item, archetypes);
    let recipe = recipe_of(archetypes, name);
    let cards = page_cards(item, config, recipe, ignore_ids);
    assert(all_spare(cards, x));
    lemma_of_tier_spare(cards, false, x);
    lemma_of_tier_spare(cards, true, x);
    let standard = of_tier(cards, false);
    let (secs, overflow) = match recipe {
        Some(r) => composed(item, standard, r.sections@),
        None => (Seq::empty(), standard),
    };
    match recipe {
        Some(r) => lemma_composed_spare(item, standard, r.sections@, x),
        None => {},
    }
    assert(sections_spare(secs, x));
    let rsecs = secs.map_values(|s: SectionV| SectionV { cards: region(s.cards), ..s });
    assert(sections_spare(rsecs, x)) by {
        assert forall|i: int| 0 <= i < rsecs.len() implies all_spare((#[trigger] rsecs[i]).cards, x) by {
            lemma_region_spare(secs[i].cards, x);
        }
    }
    lemma_section_cards_spare(rsecs, x);
    lemma_region_spare(overflow, x);
    lemma_region_spare(of_tier(cards, true), x);
    let page = synthesized(item, language, config, archetypes, ignore_ids);
    assert(page.sections == rsecs);
    lemma_concat_spare(section_cards(rsecs), region(overflow), x);
    lemma_concat_spare(section_cards(rsecs) + region(overflow), region(of_tier(cards, true)), x);
}

/// On the finished page as well, a PID the page does not show is the
/// source of no card but a timeline (which draws on the PIDs the recipe
/// lists for it): a PID the grouping config ignores, the main image
/// (P18) when the hero shows all of it, and the recipe's emblem property
/// when the header shows it in full.
pub proof fn hidden_pids_stay_off_the_page(
    item: ItemV,
    language: Seq<char>,
    config: GroupingConfig,
    archetypes: ArchetypesConfig,
    ignore_ids: bool,
    pid: Seq<char>,
)
    ensures
        config.ignores(pid) ==> all_spare(
            synthesized(item, language, config, archetypes, ignore_ids).all_cards(),
            pid,
        ),
        hero_consumes(item) ==> all_spare(
            synthesized(item, language, config, archetypes, ignore_ids).all_cards(),
            "P18"@,
        ),
        emblem_consumed(item, recipe_of(archetypes, resolved(item, archetypes))) ==> all_spare(
            synthesized(item, language, config, archetypes, ignore_ids).all_cards(),
            emblem_pid(recipe_of(archetypes, resolved(item, archetypes))),
        ),
{
    let recipe = recipe_of(archetypes, resolved(item, archetypes));
    hidden_pids_make_no_card(item, config, recipe, ignore_ids, pid);
    if config.ignores(pid) {
        lemma_page_spares(item, language, config, archetypes, ignore_ids, pid);
    }
    if hero_consumes(item) {
        lemma_page_spares(item, language, config, archetypes, ignore_ids, "P18"@);
    }
    if emblem_consumed(item, recipe) {
        lemma_page_spares(item, language, config, archetypes, ignore_ids, emblem_pid(recipe));
    }
}

} // verus!
