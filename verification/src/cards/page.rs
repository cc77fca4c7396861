//! Page synthesis: the whole card document for one item. Groups from
//! the grouping config become cards in group order, ungrouped properties
//! follow by PID, the page is ordered by sort weight, footnote-tier cards
//! split off, the archetype recipe composes sections, and the density
//! pass consolidates each region.

use vstd::prelude::*;

use crate::archetype::{resolve, resolved, ArchetypeConfig, ArchetypesConfig};
use crate::cards::compose::{composed, hero_facts, hero_facts_of, recipe_ok, sections};
use crate::cards::density::{consolidate, consolidated};
use crate::cards::plan::{apply, planned};
use crate::cards::quantities::{first_preferred, lemma_first_preferred};
use crate::cards::synthesis::{
    cards_for_group, cards_view, dedup, gallery_image, gallery_image_of, group_cards, humanize,
    humanized, item_ok, lemma_item_get_ok, property_ok, props_ok,
};
use crate::cards::{
    Card, CardKind, CardKindV, CardV, FactoidPage, FactoidPageV, GalleryImage, GalleryImageV,
    HeroFacts, HeroFactsV, Layout, Section, SectionV, Tier,
};
use crate::grouping::{GroupConfig, GroupingConfig, PropertyConfig};
use crate::model::{ItemV, Property, PropertyV, Rank, Statement, StatementV, Value, ValueV, WikidataItem};
use crate::number::parse_u32_spec;
use crate::sort::{lemma_sorted_map, sort_by, sorted_by};
use crate::text::{opt_view, owned, str_eq, strs_view};
use crate::transform::shift;

verus! {

// ---------------------------------------------------------------------
// Per-card resolution
// ---------------------------------------------------------------------

/// The icon of the first source PID whose config names one.
pub open spec fn config_icon(pids: Seq<Seq<char>>, config: GroupingConfig) -> Option<Seq<char>>
    decreases pids.len(),
{
    if pids.len() == 0 {
        None
    } else {
        match config.property(pids[0]) {
            Some(pc) => match pc.icon {
                Some(i) => Some(i@),
                None => config_icon(pids.drop_first(), config),
            },
            None => config_icon(pids.drop_first(), config),
        }
    }
}

/// Per-PID config wins, then the group icon, then a default for the
/// card kind.
pub open spec fn icon_of(card: CardV, group_icon: Option<Seq<char>>, config: GroupingConfig) -> Option<
    Seq<char>,
> {
    match config_icon(card.source_pids, config) {
        Some(i) => Some(i),
        None => match group_icon {
            Some(g) => Some(g),
            None => match card.kind {
                CardKindV::Image { .. } => Some("photo_library"@),
                CardKindV::Gallery { .. } => Some("photo_library"@),
                CardKindV::GeoMap { .. } => Some("location_on"@),
                _ => None,
            },
        },
    }
}

/// The config of the first source PID that has one.
pub open spec fn first_config(pids: Seq<Seq<char>>, config: GroupingConfig) -> Option<PropertyConfig>
    decreases pids.len(),
{
    if pids.len() == 0 {
        None
    } else {
        match config.property(pids[0]) {
            Some(pc) => Some(pc),
            None => first_config(pids.drop_first(), config),
        }
    }
}

/// Page-order weight: the group's, overridden by the first configured
/// source PID's.
pub open spec fn sort_of(card: CardV, group: Option<GroupConfig>, config: GroupingConfig) -> i32 {
    let base = match group {
        Some(g) => match g.sort {
            Some(s) => s,
            None => 1000,
        },
        None => 1000,
    };
    match first_config(card.source_pids, config) {
        Some(pc) => match pc.sort {
            Some(s) => s,
            None => base,
        },
        None => base,
    }
}

pub open spec fn pid_footnote(config: GroupingConfig, pid: Seq<char>) -> bool {
    match config.property(pid) {
        Some(pc) => pc.footnote,
        None => false,
    }
}

/// A footnote when the group or any source property is curation meta.
pub open spec fn tier_of(card: CardV, group: Option<GroupConfig>, config: GroupingConfig) -> Tier {
    let property_footnote = exists|k: int|
        0 <= k < card.source_pids.len() && pid_footnote(config, #[trigger] card.source_pids[k]);
    if property_footnote || (match group {
        Some(g) => g.footnote,
        None => false,
    }) {
        Tier::Footnote
    } else {
        Tier::Standard
    }
}

pub open spec fn group_icon(group: Option<GroupConfig>) -> Option<Seq<char>> {
    match group {
        Some(g) => opt_view(g.icon),
        None => None,
    }
}

/// A synthesized card with its icon, sort weight and tier resolved, and
/// its presentation planned.
pub open spec fn finished(card: CardV, group: Option<GroupConfig>, config: GroupingConfig) -> CardV {
    planned(
        CardV {
            icon: icon_of(card, group_icon(group), config),
            layout: Layout { sort: sort_of(card, group, config), ..card.layout },
            tier: tier_of(card, group, config),
            ..card
        },
    )
}

/// Icon resolution: per-PID config wins, then the group icon, then a
/// default derived from the card kind.
pub fn resolve_icon(card: &Card, group_icon: Option<&str>, config: &GroupingConfig) -> (res: Option<String>)
    ensures
        opt_view(res) == icon_of(
            card@,
            match group_icon {
                Some(g) => Some(g@),
                None => None,
            },
            *config,
        ),
{
    let ghost pids = card@.source_pids;
    let mut i: usize = 0;
    assert(pids.skip(0) =~= pids);
    while i < card.source_pids.len()
        invariant
            pids == card@.source_pids,
            i <= pids.len(),
            config_icon(pids, *config) == config_icon(pids.skip(i as int), *config),
        decreases pids.len() - i,
    {
        assert(pids.skip(i as int)[0] == card.source_pids@[i as int]@);
        assert(pids.skip(i as int).drop_first() =~= pids.skip(i as int + 1));
        match config.property_config(card.source_pids[i].as_str()) {
            Some(pc) => match &pc.icon {
                Some(icon) => {
                    return Some(icon.clone());
                },
                None => {},
            },
            None => {},
        }
        i += 1;
    }
    match group_icon {
        Some(icon) => {
            return Some(owned(icon));
        },
        None => {},
    }
    match card.kind {
        CardKind::Image { .. } | CardKind::Gallery { .. } => Some(owned("photo_library")),
        CardKind::GeoMap { .. } => Some(owned("location_on")),
        _ => None,
    }
}

/// A card is a footnote when its group or any source property is
/// flagged as Wikimedia-curation meta.
pub fn resolve_tier(card: &Card, group_config: Option<&GroupConfig>, config: &GroupingConfig) -> (res: Tier)
    ensures
        res == tier_of(
            card@,
            match group_config {
                Some(g) => Some(*g),
                None => None,
            },
            *config,
        ),
{
    let ghost pids = card@.source_pids;
    let mut property_footnote = false;
    for k in 0..card.source_pids.len()
        invariant
            pids == card@.source_pids,
            property_footnote == exists|j: int| 0 <= j < k && pid_footnote(*config, #[trigger] pids[j]),
    {
        assert(pids[k as int] == card.source_pids@[k as int]@);
        let f = match config.property_config(card.source_pids[k].as_str()) {
            Some(pc) => pc.footnote,
            None => false,
        };
        assert(f == pid_footnote(*config, pids[k as int]));
        if f {
            property_footnote = true;
        }
    }
    let group_footnote = match group_config {
        Some(g) => g.footnote,
        None => false,
    };
    if property_footnote || group_footnote {
        Tier::Footnote
    } else {
        Tier::Standard
    }
}

/// Page-order weight: group config, then per-PID config.
pub fn resolve_sort(card: &Card, group_config: Option<&GroupConfig>, config: &GroupingConfig) -> (res: i32)
    ensures
        res == sort_of(
            card@,
            match group_config {
                Some(g) => Some(*g),
                None => None,
            },
            *config,
        ),
{
    let mut sort: i32 = match group_config {
        Some(g) => match g.sort {
            Some(s) => s,
            None => Layout::default().sort,
        },
        None => Layout::default().sort,
    };
    let ghost base = sort;
    let ghost pids = card@.source_pids;
    let mut i: usize = 0;
    assert(pids.skip(0) =~= pids);
    while i < card.source_pids.len()
        invariant
            pids == card@.source_pids,
            i <= pids.len(),
            sort == base,
            base == (match group_config {
                Some(g) => match g.sort {
                    Some(s) => s,
                    None => 1000i32,
                },
                None => 1000i32,
            }),
            first_config(pids, *config) == first_config(pids.skip(i as int), *config),
        decreases pids.len() - i,
    {
        assert(pids.skip(i as int)[0] == card.source_pids@[i as int]@);
        assert(pids.skip(i as int).drop_first() =~= pids.skip(i as int + 1));
        match config.property_config(card.source_pids[i].as_str()) {
            Some(pc) => {
                sort = match pc.sort {
                    Some(s) => s,
                    None => sort,
                };
                return sort;
            },
            None => {},
        }
        i += 1;
    }
    sort
}

fn finish(card: Card, group: Option<&GroupConfig>, config: &GroupingConfig) -> (res: Card)
    ensures
        res@ == finished(
            card@,
            match group {
                Some(g) => Some(*g),
                None => None,
            },
            *config,
        ),
{
    let group_icon = match group {
        Some(g) => match &g.icon {
            Some(i) => Some(i.as_str()),
            None => None,
        },
        None => None,
    };
    let icon = resolve_icon(&card, group_icon, config);
    let sort = resolve_sort(&card, group, config);
    let tier = resolve_tier(&card, group, config);
    let mut card = card;
    card.icon = icon;
    card.layout.sort = sort;
    card.tier = tier;
    apply(card)
}

} // verus!

verus! {

// ---------------------------------------------------------------------
// The page
// ---------------------------------------------------------------------

/// The numeric part of a PID ("P1082" to 1082), as `u32::from_str` reads it.
pub open spec fn pid_number(pid: Seq<char>) -> Option<u32> {
    if pid.len() > 0 && pid[0] == 'P' {
        parse_u32_spec(pid.drop_first())
    } else {
        None
    }
}

/// PID order: unnumbered first, then by number.
pub open spec fn pid_before(a: PropertyV, b: PropertyV) -> bool {
    match (pid_number(a.pid), pid_number(b.pid)) {
        (None, Some(_)) => true,
        (Some(x), Some(y)) => x < y,
        _ => false,
    }
}

pub open spec fn count_preferred(ss: Seq<StatementV>) -> nat
    decreases ss.len(),
{
    if ss.len() == 0 {
        0
    } else {
        count_preferred(ss.drop_last()) + if ss.last().rank == Rank::Preferred { 1nat } else { 0nat }
    }
}

/// The preferred-rank statement when one exists, else the first.
pub open spec fn main_statement(p: PropertyV) -> Option<StatementV> {
    match first_preferred(p.statements) {
        Some(i) => Some(p.statements[i]),
        None => if p.statements.len() > 0 {
            Some(p.statements[0])
        } else {
            None
        },
    }
}

/// The page hero: the main image (P18) captioned with the item's label,
/// or its QID without one.
pub open spec fn hero_of(item: ItemV) -> Option<GalleryImageV> {
    match item.get("P18"@) {
        Some(p) => match main_statement(p) {
            Some(s) => match s.value {
                ValueV::CommonsMedia { file_name, .. } => Some(
                    gallery_image_of(
                        file_name,
                        match item.label {
                            Some(l) => l,
                            None => item.qid,
                        },
                    ),
                ),
                _ => None,
            },
            None => None,
        },
        None => None,
    }
}

/// The hero shows all P18 has: one statement, or one preferred.
pub open spec fn hero_consumes(item: ItemV) -> bool {
    hero_of(item) is Some && match item.get("P18"@) {
        Some(p) => p.statements.len() == 1 || count_preferred(p.statements) == 1,
        None => false,
    }
}

pub open spec fn recipe_index(entries: Seq<(String, ArchetypeConfig)>, name: Seq<char>) -> Option<int>
    decreases entries.len(),
{
    if entries.len() == 0 {
        None
    } else if entries[0].0@ == name {
        Some(0)
    } else {
        shift(recipe_index(entries.drop_first(), name), 1)
    }
}

/// The recipe named `name`.
pub open spec fn recipe_of(archetypes: ArchetypesConfig, name: Seq<char>) -> Option<ArchetypeConfig> {
    match recipe_index(archetypes.archetypes@, name) {
        Some(i) => Some(archetypes.archetypes@[i].1),
        None => None,
    }
}

pub open spec fn recipe_hero_facts(item: ItemV, recipe: Option<ArchetypeConfig>) -> Option<HeroFactsV> {
    match recipe {
        Some(r) => match r.hero {
            Some(h) => hero_facts_of(item, h),
            None => None,
        },
        None => None,
    }
}

pub open spec fn emblem_pid(recipe: Option<ArchetypeConfig>) -> Seq<char> {
    match recipe {
        Some(r) => match r.hero {
            Some(h) => match h.emblem {
                Some(e) => e@,
                None => ""@,
            },
            None => ""@,
        },
        None => ""@,
    }
}

/// The header emblem shows a single-statement property in full.
pub open spec fn emblem_consumed(item: ItemV, recipe: Option<ArchetypeConfig>) -> bool {
    match recipe_hero_facts(item, recipe) {
        Some(f) => f.emblem is Some && match item.get(emblem_pid(recipe)) {
            Some(p) => p.statements.len() == 1,
            None => false,
        },
        None => false,
    }
}

/// A PID the page renders: not ignored, and not already shown in full by
/// the hero or the emblem.
pub open spec fn shown(config: GroupingConfig, hero_p18: bool, emblem: bool, epid: Seq<char>, pid: Seq<char>) -> bool {
    !config.ignores(pid) && !(hero_p18 && pid == "P18"@) && !(emblem && pid == epid)
}

/// The item's properties for the listed PIDs that are shown.
pub open spec fn group_properties(
    item: ItemV,
    pids: Seq<Seq<char>>,
    config: GroupingConfig,
    hero_p18: bool,
    emblem: bool,
    epid: Seq<char>,
) -> Seq<PropertyV>
    decreases pids.len(),
{
    if pids.len() == 0 {
        Seq::empty()
    } else {
        let rest = group_properties(item, pids.drop_last(), config, hero_p18, emblem, epid);
        if shown(config, hero_p18, emblem, epid, pids.last()) {
            match item.get(pids.last()) {
                Some(p) => rest.push(p),
                None => rest,
            }
        } else {
            rest
        }
    }
}

/// Cards of the groups in the given order, each group's PIDs once.
pub open spec fn groups_part(
    item: ItemV,
    groups: Seq<(String, GroupConfig)>,
    config: GroupingConfig,
    ignore_ids: bool,
    hero_p18: bool,
    emblem: bool,
    epid: Seq<char>,
) -> Seq<CardV>
    decreases groups.len(),
{
    if groups.len() == 0 {
        Seq::empty()
    } else {
        let rest = groups_part(item, groups.drop_last(), config, ignore_ids, hero_p18, emblem, epid);
        let (name, g) = groups.last();
        if ignore_ids && name@ == "identifiers"@ {
            rest
        } else {
            rest + group_cards(
                humanized(name@),
                false,
                group_properties(item, dedup(strs_view(g.pids@)), config, hero_p18, emblem, epid),
                config,
            ).map_values(|c: CardV| finished(c, Some(g), config))
        }
    }
}

/// Some group lists the PID.
pub open spec fn grouped(config: GroupingConfig, pid: Seq<char>) -> bool {
    exists|i: int|
        0 <= i < config.groups@.len() && strs_view((#[trigger] config.groups@[i]).1.pids@).contains(pid)
}

/// The item's properties no group lists, that are shown.
pub open spec fn ungrouped(
    props: Seq<PropertyV>,
    config: GroupingConfig,
    hero_p18: bool,
    emblem: bool,
    epid: Seq<char>,
) -> Seq<PropertyV>
    decreases props.len(),
{
    if props.len() == 0 {
        Seq::empty()
    } else {
        let rest = ungrouped(props.drop_last(), config, hero_p18, emblem, epid);
        let p = props.last();
        if !grouped(config, p.pid) && shown(config, hero_p18, emblem, epid, p.pid) {
            rest.push(p)
        } else {
            rest
        }
    }
}

/// Every statement is an external identifier.
pub open spec fn ids_only(p: PropertyV) -> bool {
    forall|i: int| 0 <= i < p.statements.len() ==> (#[trigger] p.statements[i]).value is ExternalId
}

/// Each ungrouped property's own cards, titled with its label.
pub open spec fn leftover_part(props: Seq<PropertyV>, config: GroupingConfig, ignore_ids: bool) -> Seq<CardV>
    decreases props.len(),
{
    if props.len() == 0 {
        Seq::empty()
    } else {
        let rest = leftover_part(props.drop_last(), config, ignore_ids);
        let p = props.last();
        if ignore_ids && ids_only(p) {
            rest
        } else {
            rest + group_cards(p.label, true, seq![p], config).map_values(
                |c: CardV| finished(c, None, config),
            )
        }
    }
}

pub open spec fn sort_before(a: CardV, b: CardV) -> bool {
    a.layout.sort < b.layout.sort
}

/// The cards of the tier, in order.
pub open spec fn of_tier(cards: Seq<CardV>, footnote: bool) -> Seq<CardV>
    decreases cards.len(),
{
    if cards.len() == 0 {
        Seq::empty()
    } else {
        let rest = of_tier(cards.drop_last(), footnote);
        if (cards.last().tier == Tier::Footnote) == footnote {
            rest.push(cards.last())
        } else {
            rest
        }
    }
}

/// Every card of the page before composition, in page order: group
/// cards, then ungrouped properties by PID, stably sorted by weight.
pub open spec fn page_cards(
    item: ItemV,
    config: GroupingConfig,
    recipe: Option<ArchetypeConfig>,
    ignore_ids: bool,
) -> Seq<CardV> {
    let hp = hero_consumes(item);
    let ec = emblem_consumed(item, recipe);
    let epid = emblem_pid(recipe);
    let grouped_cards = groups_part(item, config.spec_sorted_groups(), config, ignore_ids, hp, ec, epid);
    let rest = sorted_by(
        ungrouped(item.properties, config, hp, ec, epid),
        |a: PropertyV, b: PropertyV| pid_before(a, b),
    );
    sorted_by(
        grouped_cards + leftover_part(rest, config, ignore_ids),
        |a: CardV, b: CardV| sort_before(a, b),
    )
}

/// The card document for an item.
pub open spec fn synthesized(
    item: ItemV,
    language: Seq<char>,
    config: GroupingConfig,
    archetypes: ArchetypesConfig,
    ignore_ids: bool,
) -> FactoidPageV {
    let name = resolved(item, archetypes);
    let recipe = recipe_of(archetypes, name);
    let cards = page_cards(item, config, recipe, ignore_ids);
    let standard = of_tier(cards, false);
    let (secs, overflow) = match recipe {
        Some(r) => composed(item, standard, r.sections@),
        None => (Seq::empty(), standard),
    };
    consolidated(
        FactoidPageV {
            qid: item.qid,
            label: item.label,
            description: item.description,
            language,
            archetype: name,
            hero: hero_of(item),
            hero_facts: recipe_hero_facts(item, recipe),
            sections: secs,
            overflow,
            footnotes: of_tier(cards, true),
        },
    )
}

} // verus!

verus! {

pub proof fn lemma_group_properties_ok(
    item: ItemV,
    pids: Seq<Seq<char>>,
    config: GroupingConfig,
    hero_p18: bool,
    emblem: bool,
    epid: Seq<char>,
)
    requires
        item_ok(item),
    ensures
        props_ok(group_properties(item, pids, config, hero_p18, emblem, epid)),
    decreases pids.len(),
{
    if pids.len() > 0 {
        lemma_group_properties_ok(item, pids.drop_last(), config, hero_p18, emblem, epid);
        lemma_item_get_ok(item, pids.last());
        let rest = group_properties(item, pids.drop_last(), config, hero_p18, emblem, epid);
        match item.get(pids.last()) {
            Some(p) => {
                assert forall|i: int| 0 <= i < rest.push(p).len() implies property_ok(
                    #[trigger] rest.push(p)[i],
                ) by {
                    if i < rest.len() {
                        assert(rest.push(p)[i] == rest[i]);
                    }
                }
            },
            None => {},
        }
    }
}

pub proof fn lemma_ungrouped_ok(
    props: Seq<PropertyV>,
    config: GroupingConfig,
    hero_p18: bool,
    emblem: bool,
    epid: Seq<char>,
)
    requires
        props_ok(props),
    ensures
        props_ok(ungrouped(props, config, hero_p18, emblem, epid)),
    decreases props.len(),
{
    if props.len() > 0 {
        assert forall|i: int| 0 <= i < props.drop_last().len() implies property_ok(
            #[trigger] props.drop_last()[i],
        ) by {
            assert(props.drop_last()[i] == props[i]);
        }
        lemma_ungrouped_ok(props.drop_last(), config, hero_p18, emblem, epid);
        let rest = ungrouped(props.drop_last(), config, hero_p18, emblem, epid);
        let p = props.last();
        assert(property_ok(props[props.len() - 1]));
        assert forall|i: int| 0 <= i < rest.push(p).len() implies property_ok(
            #[trigger] rest.push(p)[i],
        ) by {
            if i < rest.len() {
                assert(rest.push(p)[i] == rest[i]);
            }
        }
    }
}

fn count_preferred_exec(ss: &Vec<Statement>) -> (res: usize)
    ensures
        res == count_preferred(ss@.map_values(|s: Statement| s@)),
{
    let ghost v = ss@.map_values(|s: Statement| s@);
    let mut n: usize = 0;
    for i in 0..ss.len()
        invariant
            v == ss@.map_values(|s: Statement| s@),
            n == count_preferred(v.take(i as int)),
            n <= i,
    {
        assert(v.take(i as int + 1).drop_last() =~= v.take(i as int));
        assert(v[i as int] == ss@[i as int]@);
        if ss[i].rank == Rank::Preferred {
            n += 1;
        }
    }
    assert(v.take(v.len() as int) =~= v);
    n
}

/// The page hero from the main image, and whether it shows all of P18.
fn main_image(item: &WikidataItem) -> (res: (Option<GalleryImage>, bool))
    ensures
        match res.0 {
            Some(g) => hero_of(item@) == Some(g@),
            None => hero_of(item@) is None,
        },
        res.1 == hero_consumes(item@),
{
    let p = match item.get("P18") {
        Some(p) => p,
        None => return (None, false),
    };
    proof { lemma_first_preferred(p@.statements); }
    let index = match crate::cards::quantities::first_preferred_exec(&p.statements) {
        Some(i) => i,
        None => {
            if p.statements.len() == 0 {
                return (None, false);
            }
            0
        },
    };
    assert(p@.statements[index as int] == p.statements@[index as int]@);
    let hero = match &p.statements[index].value {
        Value::CommonsMedia { file_name, .. } => {
            let caption = match &item.label {
                Some(l) => l.as_str(),
                None => item.qid.as_str(),
            };
            Some(gallery_image(file_name.as_str(), caption))
        },
        _ => None,
    };
    let consumes = hero.is_some() && (p.statements.len() == 1 || count_preferred_exec(&p.statements)
        == 1);
    (hero, consumes)
}

/// The recipe of the named archetype.
fn recipe_for<'a>(archetypes: &'a ArchetypesConfig, name: &str) -> (res: Option<&'a ArchetypeConfig>)
    ensures
        match res {
            Some(r) => recipe_of(*archetypes, name@) == Some(*r),
            None => recipe_of(*archetypes, name@) is None,
        },
{
    let ghost e = archetypes.archetypes@;
    let mut i: usize = 0;
    assert(e.skip(0) =~= e);
    while i < archetypes.archetypes.len()
        invariant
            e == archetypes.archetypes@,
            i <= e.len(),
            recipe_index(e, name@) == shift(recipe_index(e.skip(i as int), name@), i as int),
        decreases e.len() - i,
    {
        assert(e.skip(i as int)[0] == e[i as int]);
        assert(e.skip(i as int).drop_first() =~= e.skip(i as int + 1));
        if str_eq(archetypes.archetypes[i].0.as_str(), name) {
            return Some(&archetypes.archetypes[i].1);
        }
        i += 1;
    }
    None
}

fn group_properties_exec<'a>(
    item: &'a WikidataItem,
    pids: &Vec<String>,
    config: &GroupingConfig,
    hero_p18: bool,
    emblem: bool,
    epid: &str,
) -> (res: Vec<&'a Property>)
    ensures
        res@.map_values(|p: &Property| p@) == group_properties(
            item@,
            dedup(strs_view(pids@)),
            *config,
            hero_p18,
            emblem,
            epid@,
        ),
{
    let unique = crate::cards::synthesis::dedup_pids(crate::text::copy_strings(pids));
    let ghost u = strs_view(unique@);
    let mut res: Vec<&Property> = Vec::new();
    for i in 0..unique.len()
        invariant
            u == strs_view(unique@),
            res@.map_values(|p: &Property| p@) == group_properties(
                item@,
                u.take(i as int),
                *config,
                hero_p18,
                emblem,
                epid@,
            ),
    {
        let pid = unique[i].as_str();
        assert(u.take(i as int + 1).drop_last() =~= u.take(i as int));
        assert(u.take(i as int + 1).last() == pid@);
        let show = !config.is_ignored(pid) && !(hero_p18 && str_eq(pid, "P18")) && !(emblem && str_eq(pid, epid));
        if show {
            match item.get(pid) {
                Some(p) => {
                    let ghost prev = res@.map_values(|p: &Property| p@);
                    res.push(p);
                    assert(res@.map_values(|p: &Property| p@) =~= prev.push(p@));
                },
                None => {},
            }
        }
    }
    assert(u.take(u.len() as int) =~= u);
    res
}

fn push_finished(cards: &mut Vec<Card>, made: Vec<Card>, group: Option<&GroupConfig>, config: &GroupingConfig)
    ensures
        cards_view(final(cards)@) == cards_view(old(cards)@) + cards_view(made@).map_values(
            |c: CardV| finished(
                c,
                match group {
                    Some(g) => Some(*g),
                    None => None,
                },
                *config,
            ),
        ),
{
    let ghost g = match group {
        Some(g) => Some(*g),
        None => None,
    };
    let ghost c0 = cards_view(cards@);
    let ghost mv = cards_view(made@);
    for card in it: made
        invariant
            mv == cards_view(it.seq()),
            g == match group {
                Some(g) => Some(*g),
                None => None,
            },
            cards_view(cards@) == c0 + mv.take(it.index() as int).map_values(
                |c: CardV| finished(c, g, *config),
            ),
    {
        let ghost i = it.index();
        assert(mv[i as int] == card@);
        let ghost prev = cards_view(cards@);
        let f = finish(card, group, config);
        cards.push(f);
        assert(cards_view(cards@) =~= prev.push(finished(mv[i as int], g, *config)));
        assert(mv.take(i + 1).map_values(|c: CardV| finished(c, g, *config)) =~= mv.take(
            i as int,
        ).map_values(|c: CardV| finished(c, g, *config)).push(finished(mv[i as int], g, *config)));
    }
    assert(mv.take(mv.len() as int) =~= mv);
}

} // verus!

verus! {

fn groups_part_exec(
    item: &WikidataItem,
    config: &GroupingConfig,
    ignore_ids: bool,
    hero_p18: bool,
    emblem: bool,
    epid: &str,
) -> (res: Vec<Card>)
    requires
        item_ok(item@),
    ensures
        cards_view(res@) == groups_part(
            item@,
            config.spec_sorted_groups(),
            *config,
            ignore_ids,
            hero_p18,
            emblem,
            epid@,
        ),
{
    let groups = config.sorted_groups();
    let ghost sg = config.spec_sorted_groups();
    let mut cards: Vec<Card> = Vec::new();
    assert(cards_view(cards@) =~= Seq::<CardV>::empty());
    for i in 0..groups.len()
        invariant
            sg == groups@.map_values(|g: &(String, GroupConfig)| *g),
            item_ok(item@),
            cards_view(cards@) == groups_part(
                item@,
                sg.take(i as int),
                *config,
                ignore_ids,
                hero_p18,
                emblem,
                epid@,
            ),
    {
        let entry = groups[i];
        assert(sg[i as int] == *entry);
        assert(sg.take(i as int + 1).drop_last() =~= sg.take(i as int));
        assert(sg.take(i as int + 1).last() == *entry);
        if !(ignore_ids && str_eq(entry.0.as_str(), "identifiers")) {
            let props = group_properties_exec(item, &entry.1.pids, config, hero_p18, emblem, epid);
            proof {
                lemma_group_properties_ok(
                    item@,
                    dedup(strs_view(entry.1.pids@)),
                    *config,
                    hero_p18,
                    emblem,
                    epid@,
                );
            }
            let title = humanize(entry.0.as_str());
            let made = cards_for_group(title.as_str(), false, &props, config);
            push_finished(&mut cards, made, Some(&entry.1), config);
        }
    }
    assert(sg.take(sg.len() as int) =~= sg);
    cards
}

fn is_grouped(config: &GroupingConfig, pid: &str) -> (res: bool)
    ensures
        res == grouped(*config, pid@),
{
    for i in 0..config.groups.len()
        invariant
            forall|j: int|
                0 <= j < i ==> !strs_view((#[trigger] config.groups@[j]).1.pids@).contains(pid@),
    {
        if crate::text::contains_str(&config.groups[i].1.pids, pid) {
            return true;
        }
    }
    false
}

fn pid_key(p: &Property) -> (res: Option<u32>)
    ensures
        res == pid_number(p@.pid),
{
    let c = crate::text::chars_of(p.pid.as_str());
    if c.len() > 0 && c[0] == 'P' {
        let mut rest: Vec<char> = Vec::new();
        for i in 1..c.len()
            invariant
                c.len() > 0,
                rest@ == c@.subrange(1, i as int),
        {
            rest.push(c[i]);
            assert(c@.subrange(1, i as int + 1) =~= c@.subrange(1, i as int).push(c@[i as int]));
        }
        assert(rest@ =~= c@.drop_first());
        crate::number::parse_u32_chars(&rest)
    } else {
        None
    }
}

fn pid_less(a: &&Property, b: &&Property) -> (res: bool)
    ensures
        res == pid_before(a@, b@),
{
    match (pid_key(a), pid_key(b)) {
        (None, Some(_)) => true,
        (Some(x), Some(y)) => x < y,
        _ => false,
    }
}

fn ids_only_exec(p: &Property) -> (res: bool)
    ensures
        res == ids_only(p@),
{
    for i in 0..p.statements.len()
        invariant
            forall|j: int| 0 <= j < i ==> (#[trigger] p@.statements[j]).value is ExternalId,
    {
        assert(p@.statements[i as int] == p.statements@[i as int]@);
        if !matches!(p.statements[i].value, Value::ExternalId { .. }) {
            return false;
        }
    }
    true
}

fn leftover_exec(
    item: &WikidataItem,
    config: &GroupingConfig,
    ignore_ids: bool,
    hero_p18: bool,
    emblem: bool,
    epid: &str,
) -> (res: Vec<Card>)
    requires
        item_ok(item@),
    ensures
        cards_view(res@) == leftover_part(
            sorted_by(
                ungrouped(item@.properties, *config, hero_p18, emblem, epid@),
                |a: PropertyV, b: PropertyV| pid_before(a, b),
            ),
            *config,
            ignore_ids,
        ),
{
    let ghost all = item@.properties;
    let mut refs: Vec<&Property> = Vec::new();
    for i in 0..item.properties.len()
        invariant
            all == item@.properties,
            refs@.map_values(|p: &Property| p@) == ungrouped(
                all.take(i as int),
                *config,
                hero_p18,
                emblem,
                epid@,
            ),
    {
        let p = &item.properties[i];
        assert(all[i as int] == p@);
        assert(all.take(i as int + 1).drop_last() =~= all.take(i as int));
        assert(all.take(i as int + 1).last() == p@);
        let pid = p.pid.as_str();
        let show = !is_grouped(config, pid) && !config.is_ignored(pid) && !(hero_p18 && str_eq(pid, "P18"))
            && !(emblem && str_eq(pid, epid));
        if show {
            let ghost prev = refs@.map_values(|p: &Property| p@);
            refs.push(p);
            assert(refs@.map_values(|p: &Property| p@) =~= prev.push(p@));
        }
    }
    assert(all.take(all.len() as int) =~= all);
    let ghost unsorted = ungrouped(all, *config, hero_p18, emblem, epid@);
    proof {
        assert(props_ok(all));
        lemma_ungrouped_ok(all, *config, hero_p18, emblem, epid@);
        crate::sort::lemma_sorted_all(
            unsorted,
            |a: PropertyV, b: PropertyV| pid_before(a, b),
            |p: PropertyV| property_ok(p),
        );
    }
    let ghost before = refs@;
    let sorted = sort_by(refs, pid_less, Ghost(|a: &Property, b: &Property| pid_before(a@, b@)));
    proof {
        lemma_sorted_map(
            before,
            |p: &Property| p@,
            |a: &Property, b: &Property| pid_before(a@, b@),
            |a: PropertyV, b: PropertyV| pid_before(a, b),
        );
    }
    let ghost sv = sorted_by(unsorted, |a: PropertyV, b: PropertyV| pid_before(a, b));
    let mut cards: Vec<Card> = Vec::new();
    assert(cards_view(cards@) =~= Seq::<CardV>::empty());
    for i in 0..sorted.len()
        invariant
            sv == sorted@.map_values(|p: &Property| p@),
            props_ok(sv),
            cards_view(cards@) == leftover_part(sv.take(i as int), *config, ignore_ids),
    {
        let p = sorted[i];
        assert(sv[i as int] == p@);
        assert(sv.take(i as int + 1).drop_last() =~= sv.take(i as int));
        assert(sv.take(i as int + 1).last() == p@);
        if !(ignore_ids && ids_only_exec(p)) {
            let mut one: Vec<&Property> = Vec::new();
            one.push(p);
            assert(one@.map_values(|q: &Property| q@) =~= seq![p@]);
            assert(property_ok(p@));
            let made = cards_for_group(p.label.as_str(), true, &one, config);
            push_finished(&mut cards, made, None, config);
        }
    }
    assert(sv.take(sv.len() as int) =~= sv);
    cards
}

fn sort_less(a: &Card, b: &Card) -> (res: bool)
    ensures
        res == sort_before(a@, b@),
{
    a.layout.sort < b.layout.sort
}

fn split_tiers(cards: Vec<Card>) -> (res: (Vec<Card>, Vec<Card>))
    ensures
        cards_view(res.0@) == of_tier(cards_view(cards@), true),
        cards_view(res.1@) == of_tier(cards_view(cards@), false),
{
    let ghost cv = cards_view(cards@);
    let mut footnotes: Vec<Card> = Vec::new();
    let mut standard: Vec<Card> = Vec::new();
    for card in it: cards
        invariant
            cv == cards_view(it.seq()),
            cards_view(footnotes@) == of_tier(cv.take(it.index() as int), true),
            cards_view(standard@) == of_tier(cv.take(it.index() as int), false),
    {
        let ghost i = it.index();
        assert(cv[i as int] == card@);
        assert(cv.take(i + 1).drop_last() =~= cv.take(i as int));
        assert(cv.take(i + 1).last() == card@);
        if card.tier == Tier::Footnote {
            let ghost prev = cards_view(footnotes@);
            footnotes.push(card);
            assert(cards_view(footnotes@) =~= prev.push(cv[i as int]));
        } else {
            let ghost prev = cards_view(standard@);
            standard.push(card);
            assert(cards_view(standard@) =~= prev.push(cv[i as int]));
        }
    }
    assert(cv.take(cv.len() as int) =~= cv);
    (footnotes, standard)
}

/// Whether `synthesize` can render the item: each PID once, every time
/// cuttable where the page shows it (own precision, temporal qualifiers
/// and the recipe's hero dates and timeline events as years).
pub fn page_fits(item: &WikidataItem, archetypes: &ArchetypesConfig) -> (res: bool)
    ensures
        res == (item_ok(item@) && recipe_ok(item@, recipe_of(*archetypes, resolved(item@, *archetypes)))),
{
    if !crate::cards::synthesis::item_fits(item) {
        return false;
    }
    let archetype = resolve(item, archetypes);
    match recipe_for(archetypes, archetype.as_str()) {
        Some(r) => crate::cards::compose::recipe_fits(item, r),
        None => true,
    }
}

/// The card document for an item: groups from the grouping config in
/// group order, then ungrouped properties by PID, ordered by sort weight
/// (stable), footnote-tier cards split off, the archetype recipe's
/// sections claiming from the rest, and each region consolidated.
pub fn synthesize(
    item: &WikidataItem,
    language: &str,
    config: &GroupingConfig,
    archetypes: &ArchetypesConfig,
    ignore_ids: bool,
) -> (res: FactoidPage)
    requires
        item_ok(item@),
        recipe_ok(item@, recipe_of(*archetypes, resolved(item@, *archetypes))),
    ensures
        res@ == synthesized(item@, language@, *config, *archetypes, ignore_ids),
{
    let archetype = resolve(item, archetypes);
    let recipe = recipe_for(archetypes, archetype.as_str());
    let ghost rv = match recipe {
        Some(r) => Some(*r),
        None => None,
    };
    assert(recipe_ok(item@, rv));
    let facts = match recipe {
        Some(r) => match &r.hero {
            Some(h) => hero_facts(item, h),
            None => None,
        },
        None => None,
    };
    assert(match facts {
        Some(f) => recipe_hero_facts(item@, rv) == Some(f@),
        None => recipe_hero_facts(item@, rv) is None,
    });
    let (hero, hero_p18) = main_image(item);
    let epid: &str = match recipe {
        Some(r) => match &r.hero {
            Some(h) => match &h.emblem {
                Some(e) => e.as_str(),
                None => "",
            },
            None => "",
        },
        None => "",
    };
    assert(epid@ == emblem_pid(rv));
    let emblem = match &facts {
        Some(f) => f.emblem.is_some() && match item.get(epid) {
            Some(p) => p.statements.len() == 1,
            None => false,
        },
        None => false,
    };
    assert(emblem == emblem_consumed(item@, rv));
    let mut cards = groups_part_exec(item, config, ignore_ids, hero_p18, emblem, epid);
    let mut rest = leftover_exec(item, config, ignore_ids, hero_p18, emblem, epid);
    let ghost g0 = cards_view(cards@);
    let ghost r0 = cards_view(rest@);
    cards.append(&mut rest);
    assert(cards_view(cards@) =~= g0 + r0);
    let ghost before = cards@;
    let sorted = sort_by(cards, sort_less, Ghost(|a: Card, b: Card| sort_before(a@, b@)));
    proof {
        lemma_sorted_map(
            before,
            |c: Card| c@,
            |a: Card, b: Card| sort_before(a@, b@),
            |a: CardV, b: CardV| sort_before(a, b),
        );
        assert(cards_view(before) =~= before.map_values(|c: Card| c@));
        assert(cards_view(sorted@) =~= sorted@.map_values(|c: Card| c@));
    }
    assert(cards_view(sorted@) == page_cards(item@, *config, rv, ignore_ids));
    let (footnotes, standard) = split_tiers(sorted);
    let (secs, overflow) = match recipe {
        Some(r) => sections(item, standard, r),
        None => (Vec::new(), standard),
    };
    assert(secs@.map_values(|s: Section| s@) =~= match rv {
        Some(r) => composed(item@, cards_view(standard@), r.sections@).0,
        None => Seq::<SectionV>::empty(),
    });
    let mut page = FactoidPage {
        qid: item.qid.clone(),
        label: crate::text::copy_opt(&item.label),
        description: crate::text::copy_opt(&item.description),
        language: owned(language),
        archetype,
        hero,
        hero_facts: facts,
        sections: secs,
        overflow,
        footnotes,
    };
    consolidate(&mut page);
    page
}

} // verus!

verus! {

/// Before composition the page's cards come in ascending sort weight
/// (equal weights keep group order).
pub proof fn page_cards_by_weight(
    item: ItemV,
    config: GroupingConfig,
    recipe: Option<ArchetypeConfig>,
    ignore_ids: bool,
)
    ensures
        crate::sort::is_sorted_by(
            page_cards(item, config, recipe, ignore_ids),
            |a: CardV, b: CardV| sort_before(a, b),
        ),
{
    let hp = hero_consumes(item);
    let ec = emblem_consumed(item, recipe);
    let epid = emblem_pid(recipe);
    let all = groups_part(item, config.spec_sorted_groups(), config, ignore_ids, hp, ec, epid)
        + leftover_part(
        sorted_by(ungrouped(item.properties, config, hp, ec, epid), |a: PropertyV, b: PropertyV| pid_before(a, b)),
        config,
        ignore_ids,
    );
    let lt = |a: CardV, b: CardV| sort_before(a, b);
    assert(crate::sort::strict_weak(lt));
    crate::sort::lemma_sorted_by_sorted(all, lt);
}

/// Every card goes to exactly one of the footnotes and the standard
/// cards, by its tier, keeping its order.
pub proof fn tiers_partition(cards: Seq<CardV>)
    ensures
        of_tier(cards, true).to_multiset().add(of_tier(cards, false).to_multiset()) == cards.to_multiset(),
        forall|i: int|
            0 <= i < of_tier(cards, true).len() ==> (#[trigger] of_tier(cards, true)[i]).tier == Tier::Footnote,
        forall|i: int|
            0 <= i < of_tier(cards, false).len() ==> (#[trigger] of_tier(cards, false)[i]).tier == Tier::Standard,
    decreases cards.len(),
{
    broadcast use vstd::seq_lib::group_to_multiset_ensures, vstd::multiset::group_multiset_axioms;

    if cards.len() == 0 {
        assert(of_tier(cards, true) =~= Seq::<CardV>::empty());
        assert(of_tier(cards, false) =~= Seq::<CardV>::empty());
        assert(cards.to_multiset().len() == 0);
        assert(of_tier(cards, true).to_multiset().add(of_tier(cards, false).to_multiset()) =~= cards.to_multiset());
    } else {
        let d = cards.drop_last();
        let c = cards.last();
        tiers_partition(d);
        assert(cards =~= d.push(c));
        let f = of_tier(d, true);
        let s = of_tier(d, false);
        if c.tier == Tier::Footnote {
            assert(f.push(c).to_multiset().add(s.to_multiset()) =~= d.to_multiset().insert(c));
            assert forall|i: int| 0 <= i < f.push(c).len() implies (#[trigger] f.push(c)[i]).tier
                == Tier::Footnote by {
                if i < f.len() {
                    assert(f.push(c)[i] == f[i]);
                }
            }
        } else {
            assert(f.to_multiset().add(s.push(c).to_multiset()) =~= d.to_multiset().insert(c));
            assert forall|i: int| 0 <= i < s.push(c).len() implies (#[trigger] s.push(c)[i]).tier
                == Tier::Standard by {
                if i < s.len() {
                    assert(s.push(c)[i] == s[i]);
                }
            }
        }
    }
}

} // verus!

verus! {

pub proof fn lemma_remaining_tier(pool: Seq<CardV>, configs: Seq<crate::archetype::SectionConfig>, t: Tier)
    requires
        crate::cards::density::all_tier(pool, t),
    ensures
        crate::cards::density::all_tier(crate::cards::compose::remaining(pool, configs), t),
    decreases configs.len(),
{
    if configs.len() > 0 {
        lemma_remaining_tier(pool, configs.drop_last(), t);
        let r = crate::cards::compose::remaining(pool, configs.drop_last());
        let pids = strs_view(configs.last().pids@);
        crate::cards::compose::lemma_unclaimed_from(r, pids);
        let u = crate::cards::compose::unclaimed(r, pids);
        assert forall|i: int| 0 <= i < u.len() implies (#[trigger] u[i]).tier == t by {
            let j = choose|j: int| 0 <= j < r.len() && r[j] == u[i];
        }
    }
}

/// The page regions and the tier flag agree: the footnotes are
/// footnote-tier cards, and the overflow grid standard-tier ones.
pub proof fn regions_match_tiers(
    item: ItemV,
    language: Seq<char>,
    config: GroupingConfig,
    archetypes: ArchetypesConfig,
    ignore_ids: bool,
)
    ensures
        crate::cards::density::all_tier(synthesized(item, language, config, archetypes, ignore_ids).footnotes, Tier::Footnote),
        crate::cards::density::all_tier(synthesized(item, language, config, archetypes, ignore_ids).overflow, Tier::Standard),
{
    let name = resolved(item, archetypes);
    let recipe = recipe_of(archetypes, name);
    let cards = page_cards(item, config, recipe, ignore_ids);
    tiers_partition(cards);
    let standard = of_tier(cards, false);
    crate::cards::density::region_keeps_tier(of_tier(cards, true), Tier::Footnote);
    match recipe {
        Some(r) => {
            crate::cards::compose::composition_keeps_every_card(item, standard, r.sections@);
            lemma_remaining_tier(standard, r.sections@, Tier::Standard);
            crate::cards::density::region_keeps_tier(
                crate::cards::compose::remaining(standard, r.sections@),
                Tier::Standard,
            );
        },
        None => {
            crate::cards::density::region_keeps_tier(standard, Tier::Standard);
        },
    }
}

proof fn lemma_claimed_tier(pool: Seq<CardV>, pids: Seq<Seq<char>>, t: Tier)
    requires
        crate::cards::density::all_tier(pool, t),
    ensures
        crate::cards::density::all_tier(crate::cards::compose::claimed(pool, pids), t),
        crate::cards::density::all_tier(crate::cards::compose::unclaimed(pool, pids), t),
    decreases pool.len(),
{
    if pool.len() > 0 {
        let d = pool.drop_last();
        assert forall|i: int| 0 <= i < d.len() implies (#[trigger] d[i]).tier == t by {
            assert(d[i] == pool[i]);
        }
        lemma_claimed_tier(d, pids, t);
        assert(pool[pool.len() - 1].tier == t);
        let c = crate::cards::compose::claimed(d, pids);
        let u = crate::cards::compose::unclaimed(d, pids);
        assert forall|i: int| 0 <= i < c.push(pool.last()).len() implies (#[trigger] c.push(
            pool.last(),
        )[i]).tier == t by {
            if i < c.len() {
                assert(c.push(pool.last())[i] == c[i]);
            }
        }
        assert forall|i: int| 0 <= i < u.push(pool.last()).len() implies (#[trigger] u.push(
            pool.last(),
        )[i]).tier == t by {
            if i < u.len() {
                assert(u.push(pool.last())[i] == u[i]);
            }
        }
    }
}

/// Every section holds cards of the pool's tier, timelines included.
proof fn lemma_composed_tier(item: ItemV, pool: Seq<CardV>, configs: Seq<crate::archetype::SectionConfig>)
    requires
        crate::cards::density::all_tier(pool, Tier::Standard),
    ensures
        forall|i: int|
            0 <= i < composed(item, pool, configs).0.len() ==> crate::cards::density::all_tier(
                (#[trigger] composed(item, pool, configs).0[i]).cards,
                Tier::Standard,
            ),
        crate::cards::density::all_tier(composed(item, pool, configs).1, Tier::Standard),
    decreases configs.len(),
{
    if configs.len() > 0 {
        lemma_composed_tier(item, pool, configs.drop_last());
        let acc = composed(item, pool, configs.drop_last());
        let sc = configs.last();
        let pids = strs_view(sc.pids@);
        lemma_claimed_tier(acc.1, pids, Tier::Standard);
        let mine = crate::cards::compose::claimed(acc.1, pids);
        match sc.timeline {
            Some(tc) => match crate::cards::compose::timeline_of(item, tc) {
                Some(tl) => {
                    assert(tl.tier == Tier::Standard);
                    assert forall|i: int| 0 <= i < (seq![tl] + mine).len() implies (#[trigger] (seq![tl]
                        + mine)[i]).tier == Tier::Standard by {
                        if i > 0 {
                            assert((seq![tl] + mine)[i] == mine[i - 1]);
                        }
                    }
                },
                None => {},
            },
            None => {},
        }
        let next = crate::cards::compose::section_step(acc, item, sc);
        assert forall|i: int| 0 <= i < next.0.len() implies crate::cards::density::all_tier(
            (#[trigger] next.0[i]).cards,
            Tier::Standard,
        ) by {
            if i < acc.0.len() {
                assert(next.0[i] == acc.0[i]);
            }
        }
    }
}

/// Consolidating a region that has a card leaves it a card.
proof fn lemma_region_nonempty(cards: Seq<CardV>)
    requires
        cards.len() > 0,
    ensures
        crate::cards::density::region(cards).len() > 0,
{
    let tr = crate::cards::density::trends_merged(cards);
    assert(tr.len() > 0);
}

/// The finished page: its header is the item's, its archetype the
/// resolved one; the footnotes are footnote-tier cards, the overflow
/// and every section's cards standard-tier ones, and no section is empty.
pub proof fn page_regions_hold_their_tier(
    item: ItemV,
    language: Seq<char>,
    config: GroupingConfig,
    archetypes: ArchetypesConfig,
    ignore_ids: bool,
)
    ensures
        ({
            let page = synthesized(item, language, config, archetypes, ignore_ids);
            &&& page.qid == item.qid
            &&& page.label == item.label
            &&& page.description == item.description
            &&& page.language == language
            &&& page.archetype == resolved(item, archetypes)
            &&& crate::cards::density::all_tier(page.footnotes, Tier::Footnote)
            &&& crate::cards::density::all_tier(page.overflow, Tier::Standard)
            &&& forall|i: int|
                0 <= i < page.sections.len() ==> crate::cards::density::all_tier(
                    (#[trigger] page.sections[i]).cards,
                    Tier::Standard,
                ) && page.sections[i].cards.len() > 0
        }),
{
    regions_match_tiers(item, language, config, archetypes, ignore_ids);
    let name = resolved(item, archetypes);
    let recipe = recipe_of(archetypes, name);
    let cards = page_cards(item, config, recipe, ignore_ids);
    tiers_partition(cards);
    let standard = of_tier(cards, false);
    let page = synthesized(item, language, config, archetypes, ignore_ids);
    match recipe {
        Some(r) => {
            lemma_composed_tier(item, standard, r.sections@);
            crate::cards::compose::empty_sections_collapse(item, standard, r.sections@);
            let secs = composed(item, standard, r.sections@).0;
            assert forall|i: int| 0 <= i < page.sections.len() implies crate::cards::density::all_tier(
                (#[trigger] page.sections[i]).cards,
                Tier::Standard,
            ) && page.sections[i].cards.len() > 0 by {
                assert(page.sections[i].cards == crate::cards::density::region(secs[i].cards));
                crate::cards::density::region_keeps_tier(secs[i].cards, Tier::Standard);
                lemma_region_nonempty(secs[i].cards);
            }
        },
        None => {},
    }
}

} // verus!
