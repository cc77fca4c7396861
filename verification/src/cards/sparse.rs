//! What an item with no statements gives: the page degrades to its
//! header (label and description) with no hero and no card.

use vstd::prelude::*;

use crate::archetype::{resolved, ArchetypeConfig, ArchetypesConfig, SectionConfig};
use crate::cards::compose::{claimed, composed, timeline_events, unclaimed};
use crate::cards::page::{
    group_properties, groups_part, leftover_part, of_tier, page_cards, pid_before, recipe_index,
    recipe_of, synthesized, ungrouped,
};
use crate::cards::synthesis::group_cards;
use crate::cards::{section_cards, CardV};
use crate::grouping::{GroupConfig, GroupingConfig};
use crate::model::{ItemV, PropertyV};
use crate::sort::sorted_by;
use crate::text::strs_view;

verus! {

/// Every timeline of every recipe asks for at least one event.
pub open spec fn timelines_need_events(archetypes: ArchetypesConfig) -> bool {
    forall|i: int, j: int|
        0 <= i < archetypes.archetypes@.len() && 0 <= j < archetypes.archetypes@[i].1.sections@.len()
            ==> match (#[trigger] archetypes.archetypes@[i].1.sections@[j]).timeline {
            Some(tc) => tc.min_events > 0,
            None => true,
        }
}

proof fn lemma_recipe_index_bounds(entries: Seq<(String, ArchetypeConfig)>, name: Seq<char>)
    ensures
        match recipe_index(entries, name) {
            Some(i) => 0 <= i < entries.len(),
            None => true,
        },
    decreases entries.len(),
{
    if entries.len() > 0 {
        lemma_recipe_index_bounds(entries.drop_first(), name);
    }
}

proof fn lemma_no_group_properties(
    item: ItemV,
    pids: Seq<Seq<char>>,
    config: GroupingConfig,
    hero_p18: bool,
    emblem: bool,
    epid: Seq<char>,
)
    requires
        item.properties.len() == 0,
    ensures
        group_properties(item, pids, config, hero_p18, emblem, epid).len() == 0,
    decreases pids.len(),
{
    if pids.len() > 0 {
        lemma_no_group_properties(item, pids.drop_last(), config, hero_p18, emblem, epid);
    }
}

proof fn lemma_no_group_cards(
    item: ItemV,
    groups: Seq<(String, GroupConfig)>,
    config: GroupingConfig,
    ignore_ids: bool,
    hero_p18: bool,
    emblem: bool,
    epid: Seq<char>,
)
    requires
        item.properties.len() == 0,
    ensures
        groups_part(item, groups, config, ignore_ids, hero_p18, emblem, epid).len() == 0,
    decreases groups.len(),
{
    if groups.len() > 0 {
        lemma_no_group_cards(item, groups.drop_last(), config, ignore_ids, hero_p18, emblem, epid);
        let (name, g) = groups.last();
        let pids = crate::cards::synthesis::dedup(strs_view(g.pids@));
        lemma_no_group_properties(item, pids, config, hero_p18, emblem, epid);
        let props = group_properties(item, pids, config, hero_p18, emblem, epid);
        assert(props =~= Seq::<PropertyV>::empty());
        assert(group_cards(crate::cards::synthesis::humanized(name@), false, props, config).len() == 0);
    }
}

proof fn lemma_no_events(item: ItemV, pids: Seq<Seq<char>>)
    requires
        item.properties.len() == 0,
    ensures
        timeline_events(item, pids).0.len() == 0,
    decreases pids.len(),
{
    if pids.len() > 0 {
        lemma_no_events(item, pids.drop_last());
    }
}

proof fn lemma_nothing_composed(item: ItemV, configs: Seq<SectionConfig>)
    requires
        item.properties.len() == 0,
        forall|j: int|
            0 <= j < configs.len() ==> match (#[trigger] configs[j]).timeline {
                Some(tc) => tc.min_events > 0,
                None => true,
            },
    ensures
        composed(item, Seq::<CardV>::empty(), configs).0.len() == 0,
        composed(item, Seq::<CardV>::empty(), configs).1.len() == 0,
    decreases configs.len(),
{
    if configs.len() > 0 {
        lemma_nothing_composed(item, configs.drop_last());
        let acc = composed(item, Seq::<CardV>::empty(), configs.drop_last());
        let sc = configs.last();
        assert(acc.1 =~= Seq::<CardV>::empty());
        assert(claimed(acc.1, strs_view(sc.pids@)).len() == 0);
        assert(unclaimed(acc.1, strs_view(sc.pids@)).len() == 0);
        assert(configs[configs.len() - 1] == sc);
        match sc.timeline {
            Some(tc) => {
                lemma_no_events(item, strs_view(tc.pids@));
            },
            None => {},
        }
    }
}

/// An item with no statements renders a header-only page: its label and
/// description, no hero image, no hero facts and no card (as long as no
/// recipe configures a timeline that renders with no events).
pub proof fn bare_item_renders_header_only(
    item: ItemV,
    language: Seq<char>,
    config: GroupingConfig,
    archetypes: ArchetypesConfig,
    ignore_ids: bool,
)
    requires
        item.properties.len() == 0,
        timelines_need_events(archetypes),
    ensures
        synthesized(item, language, config, archetypes, ignore_ids).label == item.label,
        synthesized(item, language, config, archetypes, ignore_ids).description == item.description,
        synthesized(item, language, config, archetypes, ignore_ids).hero is None,
        synthesized(item, language, config, archetypes, ignore_ids).hero_facts is None,
        synthesized(item, language, config, archetypes, ignore_ids).all_cards().len() == 0,
{
    let name = resolved(item, archetypes);
    let recipe = recipe_of(archetypes, name);
    let hp = crate::cards::page::hero_consumes(item);
    let ec = crate::cards::page::emblem_consumed(item, recipe);
    let epid = crate::cards::page::emblem_pid(recipe);
    lemma_no_group_cards(item, config.spec_sorted_groups(), config, ignore_ids, hp, ec, epid);
    let loose = ungrouped(item.properties, config, hp, ec, epid);
    assert(loose.len() == 0);
    let rest = sorted_by(loose, |a: PropertyV, b: PropertyV| pid_before(a, b));
    assert(rest.len() == 0);
    assert(leftover_part(rest, config, ignore_ids).len() == 0);
    let grouped_cards = groups_part(item, config.spec_sorted_groups(), config, ignore_ids, hp, ec, epid);
    let all = grouped_cards + leftover_part(rest, config, ignore_ids);
    assert(all.len() == 0);
    let cards = page_cards(item, config, recipe, ignore_ids);
    assert(cards.len() == 0);
    assert(cards =~= Seq::<CardV>::empty());
    let standard = of_tier(cards, false);
    assert(standard =~= Seq::<CardV>::empty());
    assert(of_tier(cards, true) =~= Seq::<CardV>::empty());
    match recipe {
        Some(r) => {
            lemma_recipe_index_bounds(archetypes.archetypes@, name);
            let k = recipe_index(archetypes.archetypes@, name)->0;
            assert(r == archetypes.archetypes@[k].1);
            assert forall|j: int| 0 <= j < r.sections@.len() implies match (
            #[trigger] r.sections@[j]).timeline {
                Some(tc) => tc.min_events > 0,
                None => true,
            } by {
                assert(r.sections@[j] == archetypes.archetypes@[k].1.sections@[j]);
            }
            lemma_nothing_composed(item, r.sections@);
        },
        None => {},
    }
    let page = synthesized(item, language, config, archetypes, ignore_ids);
    assert(page.sections.len() == 0);
    assert(section_cards(page.sections).len() == 0);
    assert(page.overflow.len() == 0);
    assert(page.footnotes.len() == 0);
    assert(crate::model::property_index(item.properties, "P18"@) is None);
    match recipe {
        Some(r) => match r.hero {
            Some(h) => {
                let dates = strs_view(h.dates@);
                assert(crate::cards::compose::hero_dates(item, dates) == (
                    None::<Seq<char>>,
                    None::<Seq<char>>,
                ));
            },
            None => {},
        },
        None => {},
    }
}

} // verus!
