//! Property-level judgment: which properties form a group, which are
//! ignored or footnotes, icons, page order, and declared gauge scales.
//! Loaded from `groups.toml`; the maps there are lists here, one entry
//! per key.

use vstd::prelude::*;

use crate::sort::{lemma_sorted_map, sort_by, sorted_by};
use crate::text::{opt_view, str_eq, str_less, strs_view, text_less};

verus! {

/// How a group of properties renders.
#[derive(Debug)]
pub struct GroupConfig {
    pub pids: Vec<String>,
    pub order: Option<i32>,
    /// Symbol name, shown on cards from this group
    pub icon: Option<String>,
    pub cols: Option<u8>,
    pub rows: Option<u8>,
    pub sort: Option<i32>,
    /// Wikimedia-curation meta: cards render in the collapsed footnotes
    pub footnote: bool,
}

/// A quantity's gauge scale; bounds and thresholds as decimal text.
#[derive(Debug)]
pub struct MeterConfig {
    pub min: String,
    pub max: String,
    pub low: Option<String>,
    pub high: Option<String>,
    pub optimum: Option<String>,
}

/// Per-PID overrides.
#[derive(Debug)]
pub struct PropertyConfig {
    /// Symbol name; overrides the group icon
    pub icon: Option<String>,
    /// Never render this property (structural properties like P31)
    pub ignore: bool,
    pub cols: Option<u8>,
    pub rows: Option<u8>,
    pub sort: Option<i32>,
    /// Wikimedia-curation meta; see `GroupConfig::footnote`
    pub footnote: bool,
    /// Render this quantity as a gauge
    pub meter: Option<MeterConfig>,
}

#[derive(Debug)]
pub struct GroupingConfig {
    /// Group name to group config
    pub groups: Vec<(String, GroupConfig)>,
    /// PID to property config
    pub properties: Vec<(String, PropertyConfig)>,
}

/// Position of the first property config for `pid`.
pub open spec fn config_index(props: Seq<(String, PropertyConfig)>, pid: Seq<char>) -> Option<int>
    decreases props.len(),
{
    if props.len() == 0 {
        None
    } else if props[0].0@ == pid {
        Some(0)
    } else {
        match config_index(props.drop_first(), pid) {
            Some(i) => Some(i + 1),
            None => None,
        }
    }
}

pub proof fn lemma_config_index_bounds(props: Seq<(String, PropertyConfig)>, pid: Seq<char>)
    ensures
        match config_index(props, pid) {
            Some(i) => 0 <= i < props.len() && props[i].0@ == pid,
            None => true,
        },
    decreases props.len(),
{
    if props.len() > 0 {
        lemma_config_index_bounds(props.drop_first(), pid);
    }
}

/// The group config's order key: explicit orders first (ascending), the
/// rest by name.
pub open spec fn group_before(a: (String, GroupConfig), b: (String, GroupConfig)) -> bool {
    match (a.1.order, b.1.order) {
        (Some(x), Some(y)) => x < y || (x == y && text_less(a.0@, b.0@)),
        (Some(_), None) => true,
        (None, Some(_)) => false,
        (None, None) => text_less(a.0@, b.0@),
    }
}

impl GroupingConfig {
    /// The config for `pid`, if one is declared.
    pub open spec fn property(&self, pid: Seq<char>) -> Option<PropertyConfig> {
        match config_index(self.properties@, pid) {
            Some(i) => Some(self.properties@[i].1),
            None => None,
        }
    }

    pub open spec fn ignores(&self, pid: Seq<char>) -> bool {
        match self.property(pid) {
            Some(p) => p.ignore,
            None => false,
        }
    }

    /// The config declared for `pid`.
    pub fn property_config(&self, pid: &str) -> (res: Option<&PropertyConfig>)
        ensures
            match res {
                Some(p) => self.property(pid@) == Some(*p),
                None => self.property(pid@) is None,
            },
    {
        let mut i: usize = 0;
        assert(self.properties@.skip(0) =~= self.properties@);
        while i < self.properties.len()
            invariant
                i <= self.properties@.len(),
                config_index(self.properties@, pid@) == match config_index(
                    self.properties@.skip(i as int),
                    pid@,
                ) {
                    Some(k) => Some(k + i),
                    None => None,
                },
            decreases self.properties@.len() - i,
        {
            let ghost rest = self.properties@.skip(i as int);
            if str_eq(self.properties[i].0.as_str(), pid) {
                assert(rest[0] == self.properties@[i as int]);
                return Some(&self.properties[i].1);
            }
            assert(rest.drop_first() =~= self.properties@.skip(i as int + 1));
            i += 1;
        }
        None
    }

    /// Whether `pid` is never rendered.
    pub fn is_ignored(&self, pid: &str) -> (res: bool)
        ensures
            res == self.ignores(pid@),
    {
        match self.property_config(pid) {
            Some(p) => p.ignore,
            None => false,
        }
    }

    pub open spec fn spec_sorted_groups(&self) -> Seq<(String, GroupConfig)> {
        sorted_by(self.groups@, |a: (String, GroupConfig), b: (String, GroupConfig)| group_before(a, b))
    }

    /// Groups with an explicit order first (ascending), the rest
    /// alphabetically, so output is deterministic.
    pub fn sorted_groups(&self) -> (res: Vec<&(String, GroupConfig)>)
        ensures
            res@.map_values(|g: &(String, GroupConfig)| *g) == self.spec_sorted_groups(),
    {
        let mut refs: Vec<&(String, GroupConfig)> = Vec::new();
        for i in 0..self.groups.len()
            invariant
                refs@.map_values(|g: &(String, GroupConfig)| *g) == self.groups@.take(i as int),
        {
            let ghost prev = refs@.map_values(|g: &(String, GroupConfig)| *g);
            refs.push(&self.groups[i]);
            assert(refs@.map_values(|g: &(String, GroupConfig)| *g) =~= prev.push(self.groups@[i as int]));
            assert(refs@.map_values(|g: &(String, GroupConfig)| *g) =~= self.groups@.take(i as int + 1));
        }
        assert(self.groups@.take(self.groups.len() as int) =~= self.groups@);
        let ghost before = refs@;
        let sorted = sort_by(
            refs,
            group_less,
            Ghost(|a: &(String, GroupConfig), b: &(String, GroupConfig)| group_before(*a, *b)),
        );
        proof {
            lemma_sorted_map(
                before,
                |g: &(String, GroupConfig)| *g,
                |a: &(String, GroupConfig), b: &(String, GroupConfig)| group_before(*a, *b),
                |a: (String, GroupConfig), b: (String, GroupConfig)| group_before(a, b),
            );
        }
        sorted
    }
}

fn group_less(a: &&(String, GroupConfig), b: &&(String, GroupConfig)) -> (res: bool)
    ensures
        res == group_before(**a, **b),
{
    match (a.1.order, b.1.order) {
        (Some(x), Some(y)) => x < y || (x == y && str_less(a.0.as_str(), b.0.as_str())),
        (Some(_), None) => true,
        (None, Some(_)) => false,
        (None, None) => str_less(a.0.as_str(), b.0.as_str()),
    }
}

} // verus!
