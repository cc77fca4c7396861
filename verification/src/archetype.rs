//! Archetype resolution: which composition recipe a page gets. Curated
//! P31 (instance of) QIDs select directly; otherwise signal-property
//! presence votes. `generic` is always a safe answer.

use vstd::prelude::*;

use crate::model::{ItemV, PropertyV, StatementV, Value, ValueV, WikidataItem};
use crate::sort::{lemma_sorted_map, sort_by, sorted_by};
use crate::text::{contains_str, owned, str_less, strs_view, text_less};

verus! {

pub const GENERIC: &'static str = "generic";

/// Minimum signal-property hits for a shape-scored match.
pub const SIGNAL_THRESHOLD: usize = 4;

/// Header facts an archetype surfaces.
#[derive(Debug)]
pub struct HeroConfig {
    /// Start and end date properties, e.g. birth and death
    pub dates: Vec<String>,
    /// Property whose value labels form the tagline
    pub tagline: Option<String>,
    /// Property whose image is the header emblem
    pub emblem: Option<String>,
}

/// A chronology built from dated statements of the listed properties.
#[derive(Debug)]
pub struct TimelineConfig {
    pub pids: Vec<String>,
    /// Below this many events no timeline renders
    pub min_events: usize,
}

/// A region of the page claiming cards by source PID.
#[derive(Debug)]
pub struct SectionConfig {
    pub name: String,
    pub icon: Option<String>,
    pub pids: Vec<String>,
    pub timeline: Option<TimelineConfig>,
}

#[derive(Debug)]
pub struct ArchetypeConfig {
    /// P31 values that select this archetype directly
    pub p31: Vec<String>,
    /// Properties whose presence votes for this archetype
    pub signals: Vec<String>,
    pub hero: Option<HeroConfig>,
    pub sections: Vec<SectionConfig>,
}

#[derive(Debug)]
pub struct ArchetypesConfig {
    /// Archetype name to its config
    pub archetypes: Vec<(String, ArchetypeConfig)>,
}

/// The QIDs of the item-valued statements.
pub open spec fn item_qids(stmts: Seq<StatementV>) -> Seq<Seq<char>>
    decreases stmts.len(),
{
    if stmts.len() == 0 {
        Seq::empty()
    } else {
        let rest = item_qids(stmts.drop_last());
        match stmts.last().value {
            ValueV::ItemRef { qid, .. } => rest.push(qid),
            _ => rest,
        }
    }
}

/// The item's P31 (instance of) QIDs.
pub open spec fn instance_of(item: ItemV) -> Seq<Seq<char>> {
    match item.get("P31"@) {
        Some(p) => item_qids(p.statements),
        None => Seq::empty(),
    }
}

pub open spec fn p31_hit(a: ArchetypeConfig, qids: Seq<Seq<char>>) -> bool {
    exists|i: int| 0 <= i < qids.len() && strs_view(a.p31@).contains(#[trigger] qids[i])
}

pub open spec fn name_before(a: (String, ArchetypeConfig), b: (String, ArchetypeConfig)) -> bool {
    text_less(a.0@, b.0@)
}

/// Archetypes in name order, so resolution is deterministic.
pub open spec fn by_name(config: ArchetypesConfig) -> Seq<(String, ArchetypeConfig)> {
    sorted_by(
        config.archetypes@,
        |a: (String, ArchetypeConfig), b: (String, ArchetypeConfig)| name_before(a, b),
    )
}

/// The first archetype (in `s`) one of whose curated P31 values the item has.
pub open spec fn first_p31(s: Seq<(String, ArchetypeConfig)>, qids: Seq<Seq<char>>) -> Option<
    Seq<char>,
>
    decreases s.len(),
{
    if s.len() == 0 {
        None
    } else if p31_hit(s[0].1, qids) {
        Some(s[0].0@)
    } else {
        first_p31(s.drop_first(), qids)
    }
}

/// How many of the archetype's signal properties the item has.
pub open spec fn signal_hits(item: ItemV, signals: Seq<Seq<char>>) -> nat
    decreases signals.len(),
{
    if signals.len() == 0 {
        0
    } else {
        signal_hits(item, signals.drop_last()) + if item.has(signals.last()) { 1nat } else { 0nat }
    }
}

/// The archetype with the most signal hits at or above the threshold;
/// the earliest wins ties.
pub open spec fn best_signals(item: ItemV, s: Seq<(String, ArchetypeConfig)>) -> Option<
    (Seq<char>, nat),
>
    decreases s.len(),
{
    if s.len() == 0 {
        None
    } else {
        let b = best_signals(item, s.drop_last());
        let h = signal_hits(item, strs_view(s.last().1.signals@));
        if h >= SIGNAL_THRESHOLD && match b {
            Some((_, bh)) => h > bh,
            None => true,
        } {
            Some((s.last().0@, h))
        } else {
            b
        }
    }
}

/// P31 match wins; else the best signal score; else generic.
pub open spec fn resolved(item: ItemV, config: ArchetypesConfig) -> Seq<char> {
    let s = by_name(config);
    match first_p31(s, instance_of(item)) {
        Some(name) => name,
        None => match best_signals(item, s) {
            Some((name, _)) => name,
            None => GENERIC@,
        },
    }
}

fn name_less(a: &&(String, ArchetypeConfig), b: &&(String, ArchetypeConfig)) -> (res: bool)
    ensures
        res == name_before(**a, **b),
{
    str_less(a.0.as_str(), b.0.as_str())
}

fn p31_values(item: &WikidataItem) -> (res: Vec<String>)
    ensures
        strs_view(res@) == instance_of(item@),
{
    let mut res: Vec<String> = Vec::new();
    match item.get("P31") {
        Some(p) => {
            let ghost sv = p@.statements;
            for i in 0..p.statements.len()
                invariant
                    sv == p@.statements,
                    strs_view(res@) == item_qids(sv.take(i as int)),
            {
                assert(sv.take(i as int + 1).drop_last() =~= sv.take(i as int));
                assert(sv[i as int] == p.statements@[i as int]@);
                match &p.statements[i].value {
                    Value::ItemRef { qid, .. } => {
                        let ghost prev = strs_view(res@);
                        res.push(qid.clone());
                        assert(strs_view(res@) =~= prev.push(qid@));
                    },
                    _ => {},
                }
            }
            assert(sv.take(sv.len() as int) =~= sv);
        },
        None => {
            assert(strs_view(res@) =~= Seq::<Seq<char>>::empty());
        },
    }
    res
}

fn any_in(qids: &Vec<String>, p31: &Vec<String>) -> (res: bool)
    ensures
        res == exists|i: int|
            0 <= i < strs_view(qids@).len() && strs_view(p31@).contains(
                #[trigger] strs_view(qids@)[i],
            ),
{
    let ghost q = strs_view(qids@);
    for i in 0..qids.len()
        invariant
            q == strs_view(qids@),
            forall|j: int| 0 <= j < i ==> !strs_view(p31@).contains(#[trigger] q[j]),
    {
        if contains_str(p31, qids[i].as_str()) {
            assert(strs_view(p31@).contains(q[i as int]));
            return true;
        }
    }
    false
}

fn count_signals(item: &WikidataItem, signals: &Vec<String>) -> (res: usize)
    ensures
        res == signal_hits(item@, strs_view(signals@)),
{
    let ghost sv = strs_view(signals@);
    let mut hits: usize = 0;
    for i in 0..signals.len()
        invariant
            sv == strs_view(signals@),
            hits == signal_hits(item@, sv.take(i as int)),
            hits <= i,
    {
        assert(sv.take(i as int + 1).drop_last() =~= sv.take(i as int));
        if item.get(signals[i].as_str()).is_some() {
            hits += 1;
        }
    }
    assert(sv.take(sv.len() as int) =~= sv);
    hits
}

/// The composition recipe name for an item.
pub fn resolve(item: &WikidataItem, config: &ArchetypesConfig) -> (res: String)
    ensures
        res@ == resolved(item@, *config),
{
    let qids = p31_values(item);
    let mut refs: Vec<&(String, ArchetypeConfig)> = Vec::new();
    for i in 0..config.archetypes.len()
        invariant
            refs@.map_values(|g: &(String, ArchetypeConfig)| *g) == config.archetypes@.take(i as int),
    {
        let ghost prev = refs@.map_values(|g: &(String, ArchetypeConfig)| *g);
        refs.push(&config.archetypes[i]);
        assert(refs@.map_values(|g: &(String, ArchetypeConfig)| *g) =~= prev.push(config.archetypes@[i as int]));
        assert(prev.push(config.archetypes@[i as int]) =~= config.archetypes@.take(i as int + 1));
    }
    assert(config.archetypes@.take(config.archetypes.len() as int) =~= config.archetypes@);
    let ghost before = refs@;
    let names = sort_by(
        refs,
        name_less,
        Ghost(|a: &(String, ArchetypeConfig), b: &(String, ArchetypeConfig)| name_before(*a, *b)),
    );
    proof {
        lemma_sorted_map(
            before,
            |g: &(String, ArchetypeConfig)| *g,
            |a: &(String, ArchetypeConfig), b: &(String, ArchetypeConfig)| name_before(*a, *b),
            |a: (String, ArchetypeConfig), b: (String, ArchetypeConfig)| name_before(a, b),
        );
    }
    let ghost s = names@.map_values(|g: &(String, ArchetypeConfig)| *g);
    assert(s == by_name(*config));
    assert(s.skip(0) =~= s);
    for i in 0..names.len()
        invariant
            s == names@.map_values(|g: &(String, ArchetypeConfig)| *g),
            s == by_name(*config),
            strs_view(qids@) == instance_of(item@),
            first_p31(s, strs_view(qids@)) == first_p31(s.skip(i as int), strs_view(qids@)),
    {
        let entry = names[i];
        assert(s.skip(i as int)[0] == *entry);
        if any_in(&qids, &entry.1.p31) {
            assert(p31_hit(s.skip(i as int)[0].1, strs_view(qids@)));
            assert(first_p31(s.skip(i as int), strs_view(qids@)) == Some(entry.0@));
            return entry.0.clone();
        }
        assert(s.skip(i as int).drop_first() =~= s.skip(i as int + 1));
    }
    assert(s.skip(names.len() as int) =~= Seq::<(String, ArchetypeConfig)>::empty());
    let mut best: Option<(usize, usize)> = None;
    for i in 0..names.len()
        invariant
            s == names@.map_values(|g: &(String, ArchetypeConfig)| *g),
            s == by_name(*config),
            strs_view(qids@) == instance_of(item@),
            first_p31(s, strs_view(qids@)) is None,
            match best_signals(item@, s.take(i as int)) {
                Some((n, h)) => best matches Some((k, bh)) && k < i && bh == h && s[k as int].0@ == n,
                None => best is None,
            },
    {
        let entry = names[i];
        assert(s.take(i as int + 1).drop_last() =~= s.take(i as int));
        assert(s.take(i as int + 1).last() == *entry);
        let h = count_signals(item, &entry.1.signals);
        let better = match best {
            None => true,
            Some((_, b)) => h > b,
        };
        if h >= SIGNAL_THRESHOLD && better {
            best = Some((i, h));
        }
    }
    assert(s.take(names.len() as int) =~= s);
    match best {
        Some((k, _)) => names[k].0.clone(),
        None => owned(GENERIC),
    }
}

} // verus!
