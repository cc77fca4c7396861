//! The flat item shape the template renderers consume: every value as
//! its display string, qualifiers as display strings, properties keyed
//! by PID; and its grouping, groups ordered by descending `order`.

use vstd::prelude::*;

use crate::sort::{lemma_sorted_map, sort_by, sorted_by};
use crate::text::{contains_str, copy_opt, opt_view, str_eq, strs_view};

verus! {

#[derive(Debug, Clone, Copy, PartialEq, Eq, Structural)]
pub enum StatementType {
    Literal,
    Uri,
}

#[derive(Debug)]
pub struct Qualifier {
    pub datatype: String,
    pub qualifier_type: String,
    pub pid: String,
    pub value: String,
    pub label: String,
}

pub struct QualifierV {
    pub datatype: Seq<char>,
    pub qualifier_type: Seq<char>,
    pub pid: Seq<char>,
    pub value: Seq<char>,
    pub label: Seq<char>,
}

impl View for Qualifier {
    type V = QualifierV;

    open spec fn view(&self) -> QualifierV {
        QualifierV {
            datatype: self.datatype@,
            qualifier_type: self.qualifier_type@,
            pid: self.pid@,
            value: self.value@,
            label: self.label@,
        }
    }
}

#[derive(Debug)]
pub struct Statement {
    pub statement_type: StatementType,
    pub datatype: String,
    pub value: String,
    pub rank: String,
    pub unit_of_measure: Option<String>,
    pub unit_of_measure_label: Option<String>,
    pub qualifiers: Option<Vec<Qualifier>>,
    pub qid: Option<String>,
    pub image_url: Option<String>,
}

pub struct StatementV {
    pub statement_type: StatementType,
    pub datatype: Seq<char>,
    pub value: Seq<char>,
    pub rank: Seq<char>,
    pub unit_of_measure: Option<Seq<char>>,
    pub unit_of_measure_label: Option<Seq<char>>,
    pub qualifiers: Option<Seq<QualifierV>>,
    pub qid: Option<Seq<char>>,
    pub image_url: Option<Seq<char>>,
}

impl View for Statement {
    type V = StatementV;

    open spec fn view(&self) -> StatementV {
        StatementV {
            statement_type: self.statement_type,
            datatype: self.datatype@,
            value: self.value@,
            rank: self.rank@,
            unit_of_measure: opt_view(self.unit_of_measure),
            unit_of_measure_label: opt_view(self.unit_of_measure_label),
            qualifiers: match self.qualifiers {
                Some(q) => Some(q@.map_values(|x: Qualifier| x@)),
                None => None,
            },
            qid: opt_view(self.qid),
            image_url: opt_view(self.image_url),
        }
    }
}

#[derive(Debug)]
pub struct Property {
    pub pid: String,
    pub wd_label: String,
    pub statements: Vec<Statement>,
}

pub struct PropertyV {
    pub pid: Seq<char>,
    pub wd_label: Seq<char>,
    pub statements: Seq<StatementV>,
}

impl View for Property {
    type V = PropertyV;

    open spec fn view(&self) -> PropertyV {
        PropertyV {
            pid: self.pid@,
            wd_label: self.wd_label@,
            statements: self.statements@.map_values(|s: Statement| s@),
        }
    }
}

/// Properties by PID, one entry per PID.
#[derive(Debug)]
pub struct WikidataItem {
    pub properties: Vec<(String, Property)>,
}

pub open spec fn entries_view(v: Seq<(String, Property)>) -> Seq<(Seq<char>, PropertyV)> {
    v.map_values(|e: (String, Property)| (e.0@, e.1@))
}

impl View for WikidataItem {
    type V = Seq<(Seq<char>, PropertyV)>;

    open spec fn view(&self) -> Seq<(Seq<char>, PropertyV)> {
        entries_view(self.properties@)
    }
}

impl Qualifier {
    pub fn duplicate(&self) -> (res: Qualifier)
        ensures
            res@ == self@,
    {
        Qualifier {
            datatype: self.datatype.clone(),
            qualifier_type: self.qualifier_type.clone(),
            pid: self.pid.clone(),
            value: self.value.clone(),
            label: self.label.clone(),
        }
    }
}

impl Statement {
    pub fn duplicate(&self) -> (res: Statement)
        ensures
            res@ == self@,
    {
        let qualifiers = match &self.qualifiers {
            Some(q) => {
                let mut v: Vec<Qualifier> = Vec::new();
                for i in 0..q.len()
                    invariant
                        v@.map_values(|x: Qualifier| x@) == q@.map_values(|x: Qualifier| x@).take(i as int),
                {
                    let ghost prev = v@.map_values(|x: Qualifier| x@);
                    v.push(q[i].duplicate());
                    assert(v@.map_values(|x: Qualifier| x@) =~= prev.push(q@[i as int]@));
                    assert(q@.map_values(|x: Qualifier| x@).take(i as int + 1) =~= q@.map_values(
                        |x: Qualifier| x@,
                    ).take(i as int).push(q@[i as int]@));
                }
                assert(q@.map_values(|x: Qualifier| x@).take(q.len() as int) =~= q@.map_values(|x: Qualifier| x@));
                Some(v)
            },
            None => None,
        };
        Statement {
            statement_type: self.statement_type,
            datatype: self.datatype.clone(),
            value: self.value.clone(),
            rank: self.rank.clone(),
            unit_of_measure: copy_opt(&self.unit_of_measure),
            unit_of_measure_label: copy_opt(&self.unit_of_measure_label),
            qualifiers,
            qid: copy_opt(&self.qid),
            image_url: copy_opt(&self.image_url),
        }
    }
}

impl Property {
    pub fn duplicate(&self) -> (res: Property)
        ensures
            res@ == self@,
    {
        let mut v: Vec<Statement> = Vec::new();
        for i in 0..self.statements.len()
            invariant
                v@.map_values(|x: Statement| x@) == self@.statements.take(i as int),
        {
            let ghost prev = v@.map_values(|x: Statement| x@);
            v.push(self.statements[i].duplicate());
            assert(v@.map_values(|x: Statement| x@) =~= prev.push(self.statements@[i as int]@));
            assert(self@.statements.take(i as int + 1) =~= self@.statements.take(i as int).push(
                self.statements@[i as int]@,
            ));
        }
        assert(self@.statements.take(self.statements.len() as int) =~= self@.statements);
        Property { pid: self.pid.clone(), wd_label: self.wd_label.clone(), statements: v }
    }
}

// ---------------------------------------------------------------------
// Grouping
// ---------------------------------------------------------------------

#[derive(Debug)]
pub struct GroupConfig {
    pub pids: Vec<String>,
    /// Renderer name; "default" when absent
    pub renderer: Option<String>,
    pub order: Option<i32>,
}

#[derive(Debug)]
pub struct GroupingConfig {
    /// Group name to group config
    pub groups: Vec<(String, GroupConfig)>,
}

/// `Option<i32>` order: no order first, then ascending.
pub open spec fn order_before(a: (String, GroupConfig), b: (String, GroupConfig)) -> bool {
    match (a.1.order, b.1.order) {
        (None, Some(_)) => true,
        (Some(x), Some(y)) => x < y,
        _ => false,
    }
}

/// The first entry for `pid`.
pub open spec fn entry_of(entries: Seq<(Seq<char>, PropertyV)>, pid: Seq<char>) -> Option<PropertyV>
    decreases entries.len(),
{
    if entries.len() == 0 {
        None
    } else if entries[0].0 == pid {
        Some(entries[0].1)
    } else {
        entry_of(entries.drop_first(), pid)
    }
}

/// The item's properties for the PIDs, in PID order.
pub open spec fn properties_for(item: Seq<(Seq<char>, PropertyV)>, pids: Seq<Seq<char>>) -> Seq<PropertyV>
    decreases pids.len(),
{
    if pids.len() == 0 {
        Seq::empty()
    } else {
        let rest = properties_for(item, pids.drop_last());
        match entry_of(item, pids.last()) {
            Some(p) => rest.push(p),
            None => rest,
        }
    }
}

pub open spec fn in_some_group(groups: Seq<(String, GroupConfig)>, pid: Seq<char>) -> bool {
    exists|i: int| 0 <= i < groups.len() && strs_view((#[trigger] groups[i]).1.pids@).contains(pid)
}

/// The item's properties no group lists, in item order.
pub open spec fn ungrouped_of(item: Seq<(Seq<char>, PropertyV)>, groups: Seq<(String, GroupConfig)>) -> Seq<PropertyV>
    decreases item.len(),
{
    if item.len() == 0 {
        Seq::empty()
    } else {
        let rest = ungrouped_of(item.drop_last(), groups);
        if in_some_group(groups, item.last().0) {
            rest
        } else {
            rest.push(item.last().1)
        }
    }
}

pub open spec fn groups_with_properties(
    item: Seq<(Seq<char>, PropertyV)>,
    groups: Seq<(String, GroupConfig)>,
) -> Seq<(Seq<char>, Seq<PropertyV>)> {
    groups.map_values(|g: (String, GroupConfig)| (g.0@, properties_for(item, strs_view(g.1.pids@))))
}

/// Every group in descending order with its properties, then a
/// "default" group of the ungrouped ones when there are any.
pub open spec fn grouped(item: Seq<(Seq<char>, PropertyV)>, config: GroupingConfig) -> Seq<
    (Seq<char>, Seq<PropertyV>),
> {
    let sorted = sorted_by(config.groups@, |a: (String, GroupConfig), b: (String, GroupConfig)| order_before(a, b)).reverse();
    let listed = groups_with_properties(item, sorted);
    let rest = ungrouped_of(item, config.groups@);
    if rest.len() > 0 {
        listed.push(("default"@, rest))
    } else {
        listed
    }
}

fn order_less(a: &&(String, GroupConfig), b: &&(String, GroupConfig)) -> (res: bool)
    ensures
        res == order_before(**a, **b),
{
    match (a.1.order, b.1.order) {
        (None, Some(_)) => true,
        (Some(x), Some(y)) => x < y,
        _ => false,
    }
}

impl GroupingConfig {
    pub open spec fn spec_sorted_groups(&self) -> Seq<(String, GroupConfig)> {
        sorted_by(self.groups@, |a: (String, GroupConfig), b: (String, GroupConfig)| order_before(a, b)).reverse()
    }

    /// Groups by descending order (stably sorted ascending, then reversed).
    pub fn sorted_groups(&self) -> (res: Vec<&(String, GroupConfig)>)
        ensures
            res@.map_values(|g: &(String, GroupConfig)| *g) == self.spec_sorted_groups(),
    {
        let mut refs: Vec<&(String, GroupConfig)> = Vec::new();
        for i in 0..self.groups.len()
            invariant
                refs@.map_values(|g: &(String, GroupConfig)| *g) == self.groups@.take(i as int),
        {
            let ghost prev = refs@.map_values(|g: &(String, GroupConfig)| *g);
            refs.push(&self.groups[i]);
            assert(refs@.map_values(|g: &(String, GroupConfig)| *g) =~= prev.push(self.groups@[i as int]));
            assert(refs@.map_values(|g: &(String, GroupConfig)| *g) =~= self.groups@.take(i as int + 1));
        }
        assert(self.groups@.take(self.groups.len() as int) =~= self.groups@);
        let ghost before = refs@;
        let sorted = sort_by(
            refs,
            order_less,
            Ghost(|a: &(String, GroupConfig), b: &(String, GroupConfig)| order_before(*a, *b)),
        );
        proof {
            lemma_sorted_map(
                before,
                |g: &(String, GroupConfig)| *g,
                |a: &(String, GroupConfig), b: &(String, GroupConfig)| order_before(*a, *b),
                |a: (String, GroupConfig), b: (String, GroupConfig)| order_before(a, b),
            );
        }
        let ghost sv = sorted@.map_values(|g: &(String, GroupConfig)| *g);
        let mut out: Vec<&(String, GroupConfig)> = Vec::new();
        let mut k = sorted.len();
        while k > 0
            invariant
                k <= sorted@.len(),
                sv == sorted@.map_values(|g: &(String, GroupConfig)| *g),
                out@.map_values(|g: &(String, GroupConfig)| *g) == sv.reverse().take(sv.len() - k),
            decreases k,
        {
            k -= 1;
            let ghost prev = out@.map_values(|g: &(String, GroupConfig)| *g);
            out.push(sorted[k]);
            assert(out@.map_values(|g: &(String, GroupConfig)| *g) =~= prev.push(sv[k as int]));
            assert(sv.reverse().take(sv.len() - k) =~= sv.reverse().take(sv.len() - k - 1).push(sv[k as int]));
        }
        assert(sv.reverse().take(sv.len() as int) =~= sv.reverse());
        out
    }
}

fn entry_for<'a>(item: &'a WikidataItem, pid: &str) -> (res: Option<&'a Property>)
    ensures
        match res {
            Some(p) => entry_of(item@, pid@) == Some(p@),
            None => entry_of(item@, pid@) is None,
        },
{
    let ghost e = item@;
    let mut i: usize = 0;
    assert(e.skip(0) =~= e);
    while i < item.properties.len()
        invariant
            e == item@,
            i <= e.len(),
            entry_of(e, pid@) == entry_of(e.skip(i as int), pid@),
        decreases e.len() - i,
    {
        assert(e.skip(i as int)[0] == (item.properties@[i as int].0@, item.properties@[i as int].1@));
        assert(e.skip(i as int).drop_first() =~= e.skip(i as int + 1));
        if str_eq(item.properties[i].0.as_str(), pid) {
            return Some(&item.properties[i].1);
        }
        i += 1;
    }
    None
}

/// The item's properties per group, groups in descending order, and a
/// "default" group of the properties no group lists.
pub fn group_properties(item: &WikidataItem, config: &GroupingConfig) -> (res: Vec<(String, Vec<Property>)>)
    ensures
        res@.map_values(|g: (String, Vec<Property>)| (g.0@, g.1@.map_values(|p: Property| p@)))
            == grouped(item@, *config),
{
    let sorted = config.sorted_groups();
    let ghost sv = config.spec_sorted_groups();
    let mut out: Vec<(String, Vec<Property>)> = Vec::new();
    for i in 0..sorted.len()
        invariant
            sv == sorted@.map_values(|g: &(String, GroupConfig)| *g),
            out@.map_values(|g: (String, Vec<Property>)| (g.0@, g.1@.map_values(|p: Property| p@)))
                == groups_with_properties(item@, sv.take(i as int)),
    {
        let entry = sorted[i];
        assert(sv[i as int] == *entry);
        let ghost pids = strs_view(entry.1.pids@);
        let mut props: Vec<Property> = Vec::new();
        for j in 0..entry.1.pids.len()
            invariant
                pids == strs_view(entry.1.pids@),
                props@.map_values(|p: Property| p@) == properties_for(item@, pids.take(j as int)),
        {
            assert(pids.take(j as int + 1).drop_last() =~= pids.take(j as int));
            assert(pids.take(j as int + 1).last() == entry.1.pids@[j as int]@);
            match entry_for(item, entry.1.pids[j].as_str()) {
                Some(p) => {
                    let ghost prev = props@.map_values(|p: Property| p@);
                    props.push(p.duplicate());
                    assert(props@.map_values(|p: Property| p@) =~= prev.push(p@));
                },
                None => {},
            }
        }
        assert(pids.take(pids.len() as int) =~= pids);
        let ghost prev = out@.map_values(|g: (String, Vec<Property>)| (g.0@, g.1@.map_values(|p: Property| p@)));
        out.push((entry.0.clone(), props));
        assert(out@.map_values(|g: (String, Vec<Property>)| (g.0@, g.1@.map_values(|p: Property| p@)))
            =~= prev.push((entry.0@, properties_for(item@, pids))));
        assert(groups_with_properties(item@, sv.take(i as int + 1)) =~= groups_with_properties(
            item@,
            sv.take(i as int),
        ).push((entry.0@, properties_for(item@, pids))));
    }
    assert(sv.take(sv.len() as int) =~= sv);
    let ghost e = item@;
    let mut rest: Vec<Property> = Vec::new();
    for i in 0..item.properties.len()
        invariant
            e == item@,
            rest@.map_values(|p: Property| p@) == ungrouped_of(e.take(i as int), config.groups@),
    {
        assert(e.take(i as int + 1).drop_last() =~= e.take(i as int));
        assert(e.take(i as int + 1).last() == (item.properties@[i as int].0@, item.properties@[i as int].1@));
        let pid = item.properties[i].0.as_str();
        let mut listed = false;
        for k in 0..config.groups.len()
            invariant
                listed == exists|j: int|
                    0 <= j < k && strs_view((#[trigger] config.groups@[j]).1.pids@).contains(pid@),
        {
            if contains_str(&config.groups[k].1.pids, pid) {
                listed = true;
            }
        }
        if !listed {
            let ghost prev = rest@.map_values(|p: Property| p@);
            rest.push(item.properties[i].1.duplicate());
            assert(rest@.map_values(|p: Property| p@) =~= prev.push(item.properties@[i as int].1@));
        }
    }
    assert(e.take(e.len() as int) =~= e);
    if rest.len() > 0 {
        let ghost prev = out@.map_values(|g: (String, Vec<Property>)| (g.0@, g.1@.map_values(|p: Property| p@)));
        let ghost rv = rest@.map_values(|p: Property| p@);
        out.push((crate::text::owned("default"), rest));
        assert(out@.map_values(|g: (String, Vec<Property>)| (g.0@, g.1@.map_values(|p: Property| p@)))
            =~= prev.push(("default"@, rv)));
    }
    out
}

} // verus!
