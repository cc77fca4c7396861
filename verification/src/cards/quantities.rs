//! Quantity cards: a config-declared gauge, a time series over distinct
//! years, or labeled rows for parallel measurements taken at the same
//! time.

use vstd::prelude::*;

use crate::cards::synthesis::{
    lemma_point_time_ok, point_time, property_ok, qualifier_context, span_of, statement_ok,
    statement_time, END_TIME, POINT_IN_TIME, START_TIME,
};
use crate::cards::{
    base_card, new_card, single_pid, Card, CardKind, CardKindV, CardV, FactRow, FactRowV,
    FactValue, FactValueV, SeriesPoint, SeriesPointV,
};
use crate::model::QualifierV;
use crate::sort::{lemma_sorted_map, sort_by, sorted_by, strict_weak};
use crate::text::{join, join_strings, strs_view};
use crate::transform::pairs_view;
use crate::format::value_ok;
use crate::format::{display_value, format_time, time_text, value_text, PRECISION_YEAR};
use crate::grouping::MeterConfig;
use crate::model::{Property, PropertyV, Rank, Statement, StatementV, Value, ValueV};
use crate::text::{copy_opt, opt_view, text_less};
use crate::transform::shift;

verus! {

/// The statement's point-in-time ISO text, if it has one.
pub open spec fn time_key(s: StatementV) -> Option<Seq<char>> {
    match point_time(s.qualifiers) {
        Some((iso, _)) => Some(iso),
        None => None,
    }
}

/// The order of `Option<String>`: nothing before anything.
pub open spec fn opt_text_less(a: Option<Seq<char>>, b: Option<Seq<char>>) -> bool {
    match (a, b) {
        (None, Some(_)) => true,
        (Some(x), Some(y)) => text_less(x, y),
        _ => false,
    }
}

/// The year of the statement's point in time.
pub open spec fn time_note(s: StatementV) -> Option<Seq<char>> {
    match point_time(s.qualifiers) {
        Some((iso, _)) => Some(time_text(iso, Some(PRECISION_YEAR))),
        None => None,
    }
}

pub open spec fn first_preferred(ss: Seq<StatementV>) -> Option<int>
    decreases ss.len(),
{
    if ss.len() == 0 {
        None
    } else if ss[0].rank == Rank::Preferred {
        Some(0)
    } else {
        shift(first_preferred(ss.drop_first()), 1)
    }
}

pub proof fn lemma_first_preferred(ss: Seq<StatementV>)
    ensures
        match first_preferred(ss) {
            Some(i) => 0 <= i < ss.len() && ss[i].rank == Rank::Preferred && forall|j: int|
                0 <= j < i ==> #[trigger] ss[j].rank != Rank::Preferred,
            None => forall|j: int| 0 <= j < ss.len() ==> #[trigger] ss[j].rank != Rank::Preferred,
        },
    decreases ss.len(),
{
    if ss.len() > 0 {
        lemma_first_preferred(ss.drop_first());
        if ss[0].rank != Rank::Preferred {
            match first_preferred(ss.drop_first()) {
                Some(i) => {
                    assert(ss[i + 1] == ss.drop_first()[i]);
                    assert forall|j: int| 0 <= j < i + 1 implies #[trigger] ss[j].rank
                        != Rank::Preferred by {
                        if j > 0 {
                            assert(ss[j] == ss.drop_first()[j - 1]);
                        }
                    }
                },
                None => {
                    assert forall|j: int| 0 <= j < ss.len() implies #[trigger] ss[j].rank
                        != Rank::Preferred by {
                        if j > 0 {
                            assert(ss[j] == ss.drop_first()[j - 1]);
                        }
                    }
                },
            }
        }
    }
}

/// The last statement with the latest point in time (what `max_by_key`
/// picks among equals).
pub open spec fn latest(ss: Seq<StatementV>) -> int
    decreases ss.len(),
{
    if ss.len() <= 1 {
        0
    } else {
        let b = latest(ss.drop_last());
        if opt_text_less(time_key(ss.last()), time_key(ss[b])) {
            b
        } else {
            ss.len() - 1
        }
    }
}

pub proof fn lemma_latest_bounds(ss: Seq<StatementV>)
    requires
        ss.len() > 0,
    ensures
        0 <= latest(ss) < ss.len(),
    decreases ss.len(),
{
    if ss.len() > 1 {
        lemma_latest_bounds(ss.drop_last());
    }
}

/// The statement holding the "current" quantity: the first preferred
/// one, else the latest by point in time.
pub open spec fn current_index(ss: Seq<StatementV>) -> Option<int> {
    match first_preferred(ss) {
        Some(i) => Some(i),
        None => if ss.len() > 0 {
            Some(latest(ss))
        } else {
            None
        },
    }
}

pub fn first_preferred_exec(ss: &Vec<Statement>) -> (res: Option<usize>)
    ensures
        match res {
            Some(i) => first_preferred(ss@.map_values(|s: Statement| s@)) == Some(i as int),
            None => first_preferred(ss@.map_values(|s: Statement| s@)) is None,
        },
{
    let ghost v = ss@.map_values(|s: Statement| s@);
    proof { lemma_first_preferred(v); }
    for i in 0..ss.len()
        invariant
            v == ss@.map_values(|s: Statement| s@),
            forall|j: int| 0 <= j < i ==> #[trigger] v[j].rank != Rank::Preferred,
            match first_preferred(v) {
                Some(k) => 0 <= k < v.len() && v[k].rank == Rank::Preferred && forall|j: int|
                    0 <= j < k ==> #[trigger] v[j].rank != Rank::Preferred,
                None => forall|j: int| 0 <= j < v.len() ==> #[trigger] v[j].rank != Rank::Preferred,
            },
    {
        assert(v[i as int] == ss@[i as int]@);
        if ss[i].rank == Rank::Preferred {
            assert(v[i as int].rank == Rank::Preferred);
            return Some(i);
        }
    }
    None
}

/// Pick the statement holding the "current" quantity and the year of
/// its point in time.
pub fn current_quantity(property: &Property) -> (res: Option<(&Statement, Option<String>)>)
    requires
        property_ok(property@),
    ensures
        match res {
            Some((s, note)) => current_index(property@.statements) matches Some(i) && s@
                == property@.statements[i] && opt_view(note) == time_note(s@),
            None => current_index(property@.statements) is None,
        },
{
    let ghost v = property@.statements;
    let ss = &property.statements;
    let i = match first_preferred_exec(ss) {
        Some(i) => i,
        None => {
            if ss.len() == 0 {
                return None;
            }
            let mut best: usize = 0;
            let mut best_key = match statement_time(&ss[0]) {
                Some((iso, _)) => Some(iso),
                None => None,
            };
            for k in 1..ss.len()
                invariant
                    v == property@.statements,
                    v == ss@.map_values(|s: Statement| s@),
                    v.len() > 0,
                    best == latest(v.take(k as int)),
                    best < k,
                    opt_view(best_key) == time_key(v[best as int]),
            {
                let key = match statement_time(&ss[k]) {
                    Some((iso, _)) => Some(iso),
                    None => None,
                };
                assert(v[k as int] == ss@[k as int]@);
                assert(v.take(k as int + 1).drop_last() =~= v.take(k as int));
                assert(v.take(k as int + 1)[best as int] == v[best as int]);
                let less = match (&key, &best_key) {
                    (None, Some(_)) => true,
                    (Some(x), Some(y)) => crate::text::str_less(x.as_str(), y.as_str()),
                    _ => false,
                };
                if !less {
                    best = k;
                    best_key = key;
                }
            }
            assert(v.take(v.len() as int) =~= v);
            best
        },
    };
    proof {
        lemma_first_preferred(v);
        if first_preferred(v) is None {
            lemma_latest_bounds(v);
        }
    }
    let statement = &ss[i];
    assert(statement@ == v[i as int]);
    assert(statement_ok(v[i as int]));
    proof { lemma_point_time_ok(statement@.qualifiers); }
    let note = match statement_time(statement) {
        Some((iso, _)) => Some(format_time(iso.as_str(), Some(PRECISION_YEAR))),
        None => None,
    };
    Some((statement, note))
}

/// A gauge card for a quantity on a config-declared scale.
pub open spec fn meter_card(p: PropertyV, m: MeterConfig) -> Option<CardV> {
    match current_index(p.statements) {
        Some(i) => match p.statements[i].value {
            ValueV::Quantity { amount, .. } => Some(
                base_card(
                    p.label,
                    true,
                    seq![p.pid],
                    CardKindV::Meter {
                        value: amount,
                        display: value_text(p.statements[i].value),
                        note: time_note(p.statements[i]),
                        min: m.min@,
                        max: m.max@,
                        low: opt_view(m.low),
                        high: opt_view(m.high),
                        optimum: opt_view(m.optimum),
                    },
                ),
            ),
            _ => None,
        },
        None => None,
    }
}

/// A quantity on a config-declared scale becomes a gauge card.
pub fn as_meter(property: &Property, meter: &MeterConfig) -> (res: Option<Card>)
    requires
        property_ok(property@),
    ensures
        match res {
            Some(c) => meter_card(property@, *meter) == Some(c@),
            None => meter_card(property@, *meter) is None,
        },
{
    let (statement, note) = match current_quantity(property) {
        Some(x) => x,
        None => return None,
    };
    let amount = match &statement.value {
        Value::Quantity { amount, .. } => amount.clone(),
        _ => return None,
    };
    let display = display_value(&statement.value);
    let kind = CardKind::Meter {
        value: amount,
        display,
        note,
        min: meter.min.clone(),
        max: meter.max.clone(),
        low: copy_opt(&meter.low),
        high: copy_opt(&meter.high),
        optimum: copy_opt(&meter.optimum),
    };
    Some(new_card(property.label.clone(), true, single_pid(&property.pid), kind))
}

} // verus!

verus! {

/// The ISO text of the statement's point in time (empty without one).
pub open spec fn dated_iso(s: StatementV) -> Seq<char> {
    match point_time(s.qualifiers) {
        Some((iso, _)) => iso,
        None => Seq::empty(),
    }
}

pub open spec fn year_text(iso: Seq<char>) -> Seq<char> {
    time_text(iso, Some(PRECISION_YEAR))
}

/// Every statement is a quantity with a point in time.
pub open spec fn all_dated(ss: Seq<StatementV>) -> bool {
    forall|i: int|
        0 <= i < ss.len() ==> (#[trigger] ss[i]).value is Quantity && point_time(ss[i].qualifiers) is Some
}

/// Two statements fall in the same year.
pub open spec fn years_collide(ss: Seq<StatementV>) -> bool {
    exists|i: int, j: int|
        0 <= i < j < ss.len() && year_text(dated_iso(#[trigger] ss[i])) == year_text(
            dated_iso(#[trigger] ss[j]),
        )
}

pub open spec fn amount_of(v: ValueV) -> Seq<char> {
    match v {
        ValueV::Quantity { amount, .. } => amount,
        _ => Seq::empty(),
    }
}

pub open spec fn iso_before(a: StatementV, b: StatementV) -> bool {
    text_less(dated_iso(a), dated_iso(b))
}

pub open spec fn by_time(ss: Seq<StatementV>) -> Seq<StatementV> {
    sorted_by(ss, |a: StatementV, b: StatementV| iso_before(a, b))
}

pub open spec fn series_point(s: StatementV) -> SeriesPointV {
    SeriesPointV {
        label: year_text(dated_iso(s)),
        value: amount_of(s.value),
        display: value_text(s.value),
    }
}

/// Distinct years: the series in time order; the current value is the
/// preferred statement's, else the latest.
pub open spec fn series_card(p: PropertyV) -> CardV {
    let sorted = by_time(p.statements);
    let current = match first_preferred(sorted) {
        Some(i) => sorted[i],
        None => sorted.last(),
    };
    base_card(
        p.label,
        true,
        seq![p.pid],
        CardKindV::StatSeries {
            current: value_text(current.value),
            note: time_note(current),
            series: sorted.map_values(|s: StatementV| series_point(s)),
        },
    )
}

pub open spec fn is_temporal(pid: Seq<char>) -> bool {
    pid == START_TIME@ || pid == END_TIME@ || pid == POINT_IN_TIME@
}

/// The non-temporal qualifiers as (pid, value) pairs, in order.
pub open spec fn signature_pairs(quals: Seq<QualifierV>) -> Seq<(Seq<char>, Seq<char>)>
    decreases quals.len(),
{
    if quals.len() == 0 {
        Seq::empty()
    } else {
        let rest = signature_pairs(quals.drop_last());
        if is_temporal(quals.last().pid) {
            rest
        } else {
            rest.push((quals.last().pid, value_text(quals.last().value)))
        }
    }
}

pub open spec fn pair_less(a: (Seq<char>, Seq<char>), b: (Seq<char>, Seq<char>)) -> bool {
    text_less(a.0, b.0) || (a.0 == b.0 && text_less(a.1, b.1))
}

/// What distinguishes parallel measurements: the non-temporal
/// qualifiers, sorted.
pub open spec fn signature(s: StatementV) -> Seq<(Seq<char>, Seq<char>)> {
    sorted_by(
        signature_pairs(s.qualifiers),
        |a: (Seq<char>, Seq<char>), b: (Seq<char>, Seq<char>)| pair_less(a, b),
    )
}

pub open spec fn key_has(key: Seq<(Seq<char>, Seq<char>)>, pid: Seq<char>) -> bool {
    exists|k: int| 0 <= k < key.len() && (#[trigger] key[k]).0 == pid
}

/// Labels of the qualifiers the key names, in qualifier order.
pub open spec fn key_labels(quals: Seq<QualifierV>, key: Seq<(Seq<char>, Seq<char>)>) -> Seq<
    Seq<char>,
>
    decreases quals.len(),
{
    if quals.len() == 0 {
        Seq::empty()
    } else {
        let rest = key_labels(quals.drop_last(), key);
        if key_has(key, quals.last().pid) {
            rest.push(quals.last().label)
        } else {
            rest
        }
    }
}

/// A group of same-signature statements: its key, its label, its members.
pub type Group = (Seq<(Seq<char>, Seq<char>)>, Seq<char>, Seq<StatementV>);

pub open spec fn group_index(groups: Seq<Group>, key: Seq<(Seq<char>, Seq<char>)>) -> Option<int>
    decreases groups.len(),
{
    if groups.len() == 0 {
        None
    } else if groups[0].0 == key {
        Some(0)
    } else {
        shift(group_index(groups.drop_first(), key), 1)
    }
}

/// Statements grouped by signature, groups in first-seen order.
pub open spec fn groups_of(ss: Seq<StatementV>) -> Seq<Group>
    decreases ss.len(),
{
    if ss.len() == 0 {
        Seq::empty()
    } else {
        let g = groups_of(ss.drop_last());
        let s = ss.last();
        let key = signature(s);
        match group_index(g, key) {
            Some(k) => g.update(k, (g[k].0, g[k].1, g[k].2.push(s))),
            None => g.push((key, join(key_labels(s.qualifiers, key), ", "@), seq![s])),
        }
    }
}

/// Current first: preferred rank, else the latest point in time.
pub open spec fn member_before(a: StatementV, b: StatementV) -> bool {
    let ap = a.rank == Rank::Preferred;
    let bp = b.rank == Rank::Preferred;
    (ap && !bp) || (ap == bp && opt_text_less(time_key(b), time_key(a)))
}

pub open spec fn member_value(s: StatementV) -> FactValueV {
    FactValueV::Text { value: value_text(s.value), span: span_of(s.qualifiers), note: None }
}

pub open spec fn keyed_row(g: Group) -> FactRowV {
    FactRowV {
        label: g.1,
        values: sorted_by(g.2, |a: StatementV, b: StatementV| member_before(a, b)).map_values(
            |s: StatementV| member_value(s),
        ),
    }
}

/// Same-time measurements told apart by their other qualifiers: one
/// labeled row per group, when there are at least two groups.
pub open spec fn keyed_card(p: PropertyV) -> Option<CardV> {
    let g = groups_of(p.statements);
    if g.len() < 2 {
        None
    } else {
        Some(
            base_card(
                p.label,
                true,
                seq![p.pid],
                CardKindV::Facts { rows: g.map_values(|x: Group| keyed_row(x)) },
            ),
        )
    }
}

/// Dated quantities: parallel measurements when years collide and
/// signatures tell them apart, else a time series. Needs two or more
/// statements, all of them dated quantities.
pub open spec fn quantity_card(p: PropertyV) -> Option<CardV> {
    if !all_dated(p.statements) || p.statements.len() < 2 {
        None
    } else if years_collide(p.statements) && keyed_card(p) is Some {
        keyed_card(p)
    } else {
        Some(series_card(p))
    }
}

} // verus!

verus! {

/// A dated quantity statement whose times can be shown.
pub open spec fn dated_ok(s: StatementV) -> bool {
    statement_ok(s) && s.value is Quantity && point_time(s.qualifiers) is Some
}

fn iso_text(s: &Statement) -> (res: String)
    ensures
        res@ == dated_iso(s@),
{
    match statement_time(s) {
        Some((iso, _)) => iso,
        None => String::new(),
    }
}

fn iso_less(a: &&Statement, b: &&Statement) -> (res: bool)
    ensures
        res == iso_before(a@, b@),
{
    let x = iso_text(a);
    let y = iso_text(b);
    crate::text::str_less(x.as_str(), y.as_str())
}

/// Statement references in property order.
fn statement_refs<'a>(dated: &Vec<(String, &'a Statement)>) -> (res: Vec<&'a Statement>)
    ensures
        res@.map_values(|s: &Statement| s@) == dated@.map_values(|x: (String, &Statement)| x.1@),
{
    let ghost want = dated@.map_values(|x: (String, &Statement)| x.1@);
    let mut refs: Vec<&Statement> = Vec::new();
    for i in 0..dated.len()
        invariant
            want == dated@.map_values(|x: (String, &Statement)| x.1@),
            refs@.map_values(|s: &Statement| s@) == want.take(i as int),
    {
        let ghost prev = refs@.map_values(|s: &Statement| s@);
        refs.push(dated[i].1);
        assert(refs@.map_values(|s: &Statement| s@) =~= prev.push(want[i as int]));
        assert(want.take(i as int + 1) =~= want.take(i as int).push(want[i as int]));
    }
    assert(want.take(want.len() as int) =~= want);
    refs
}

/// The dated statements sorted by time, and each one's year and amount.
pub fn stat_series(property: &Property, dated: Vec<(String, &Statement)>) -> (res: Card)
    requires
        property_ok(property@),
        dated@.map_values(|x: (String, &Statement)| x.1@) == property@.statements,
        property@.statements.len() > 0,
        all_dated(property@.statements),
    ensures
        res@ == series_card(property@),
{
    let ghost ss = property@.statements;
    let refs = statement_refs(&dated);
    let ghost before = refs@;
    let sorted = sort_by(refs, iso_less, Ghost(|a: &Statement, b: &Statement| iso_before(a@, b@)));
    let ghost sv = by_time(ss);
    proof {
        lemma_sorted_map(
            before,
            |s: &Statement| s@,
            |a: &Statement, b: &Statement| iso_before(a@, b@),
            |a: StatementV, b: StatementV| iso_before(a, b),
        );
        assert(sorted@.map_values(|s: &Statement| s@) == sv);
        crate::sort::lemma_sorted_len(ss, |a: StatementV, b: StatementV| iso_before(a, b));
        assert(forall|i: int| 0 <= i < ss.len() ==> dated_ok(#[trigger] ss[i]));
        crate::sort::lemma_sorted_all(
            ss,
            |a: StatementV, b: StatementV| iso_before(a, b),
            |s: StatementV| dated_ok(s),
        );
        lemma_first_preferred(sv);
    }
    let mut k: usize = sorted.len() - 1;
    let mut found = false;
    let mut i: usize = 0;
    while i < sorted.len()
        invariant
            sv == sorted@.map_values(|s: &Statement| s@),
            i <= sv.len(),
            sv.len() > 0,
            k == sv.len() - 1,
            !found,
            forall|j: int| 0 <= j < i ==> #[trigger] sv[j].rank != Rank::Preferred,
        ensures
            i <= sv.len(),
            forall|j: int| 0 <= j < i ==> #[trigger] sv[j].rank != Rank::Preferred,
            i < sv.len() ==> sv[i as int].rank == Rank::Preferred,
        decreases sv.len() - i,
    {
        assert(sv[i as int] == sorted@[i as int]@);
        if sorted[i].rank == Rank::Preferred {
            break;
        }
        i += 1;
    }
    if i < sorted.len() {
        k = i;
        found = true;
    }
    assert(sv[k as int] == sorted@[k as int]@);
    assert(sv[k as int] == match first_preferred(sv) {
        Some(j) => sv[j],
        None => sv.last(),
    });
    let current = sorted[k];
    assert(dated_ok(current@));
    proof { lemma_point_time_ok(current@.qualifiers); }
    let current_display = display_value(&current.value);
    let note = match statement_time(current) {
        Some((iso, _)) => Some(format_time(iso.as_str(), Some(PRECISION_YEAR))),
        None => None,
    };
    let mut series: Vec<SeriesPoint> = Vec::new();
    for j in 0..sorted.len()
        invariant
            sv == sorted@.map_values(|s: &Statement| s@),
            forall|i: int| 0 <= i < sv.len() ==> dated_ok(#[trigger] sv[i]),
            series@.map_values(|p: SeriesPoint| p@) == sv.take(j as int).map_values(
                |s: StatementV| series_point(s),
            ),
    {
        let s = sorted[j];
        assert(sv[j as int] == s@);
        assert(dated_ok(s@));
        proof { lemma_point_time_ok(s@.qualifiers); }
        let iso = iso_text(s);
        let label = format_time(iso.as_str(), Some(PRECISION_YEAR));
        let value = match &s.value {
            Value::Quantity { amount, .. } => amount.clone(),
            _ => String::new(),
        };
        let point = SeriesPoint { label, value, display: display_value(&s.value) };
        let ghost prev = series@.map_values(|p: SeriesPoint| p@);
        series.push(point);
        assert(series@.map_values(|p: SeriesPoint| p@) =~= prev.push(series_point(sv[j as int])));
        assert(sv.take(j as int + 1).map_values(|s: StatementV| series_point(s)) =~= sv.take(
            j as int,
        ).map_values(|s: StatementV| series_point(s)).push(series_point(sv[j as int])));
    }
    assert(sv.take(sv.len() as int) =~= sv);
    let kind = CardKind::StatSeries { current: current_display, note, series };
    new_card(property.label.clone(), true, single_pid(&property.pid), kind)
}

} // verus!

verus! {

pub proof fn lemma_group_index(groups: Seq<Group>, key: Seq<(Seq<char>, Seq<char>)>, j: int)
    requires
        0 <= j <= groups.len(),
        forall|i: int| 0 <= i < j ==> (#[trigger] groups[i]).0 != key,
        j < groups.len() ==> groups[j].0 == key,
    ensures
        j < groups.len() ==> group_index(groups, key) == Some(j),
        j == groups.len() ==> group_index(groups, key) is None,
    decreases j,
{
    if groups.len() > 0 {
        if j > 0 {
            assert forall|i: int| 0 <= i < j - 1 implies (#[trigger] groups.drop_first()[i]).0
                != key by {
                assert(groups.drop_first()[i] == groups[i + 1]);
            }
            if j - 1 < groups.drop_first().len() {
                assert(groups.drop_first()[j - 1] == groups[j]);
            }
            lemma_group_index(groups.drop_first(), key, j - 1);
        }
    }
}

fn pair_lt(a: &(String, String), b: &(String, String)) -> (res: bool)
    ensures
        res == pair_less((a.0@, a.1@), (b.0@, b.1@)),
{
    crate::text::str_less(a.0.as_str(), b.0.as_str()) || (crate::text::str_eq(
        a.0.as_str(),
        b.0.as_str(),
    ) && crate::text::str_less(a.1.as_str(), b.1.as_str()))
}

fn temporal(pid: &str) -> (res: bool)
    ensures
        res == is_temporal(pid@),
{
    crate::text::str_eq(pid, START_TIME) || crate::text::str_eq(pid, END_TIME)
        || crate::text::str_eq(pid, POINT_IN_TIME)
}

/// The statement's distinguishing qualifiers, sorted.
fn signature_of(statement: &Statement) -> (res: Vec<(String, String)>)
    requires
        statement_ok(statement@),
    ensures
        pairs_view(res@) == signature(statement@),
{
    let ghost q = statement@.qualifiers;
    let mut raw: Vec<(String, String)> = Vec::new();
    for i in 0..statement.qualifiers.len()
        invariant
            q == statement@.qualifiers,
            statement_ok(statement@),
            pairs_view(raw@) == signature_pairs(q.take(i as int)),
    {
        let qual = &statement.qualifiers[i];
        assert(q[i as int] == qual@);
        assert(q.take(i as int + 1).drop_last() =~= q.take(i as int));
        assert(q.take(i as int + 1).last() == qual@);
        if !temporal(qual.pid.as_str()) {
            assert(value_ok(q[i as int].value));
            let shown = display_value(&qual.value);
            let ghost prev = pairs_view(raw@);
            raw.push((qual.pid.clone(), shown));
            assert(pairs_view(raw@) =~= prev.push((qual@.pid, value_text(qual@.value))));
        }
    }
    assert(q.take(q.len() as int) =~= q);
    let ghost before = raw@;
    let sorted = sort_by(
        raw,
        pair_lt,
        Ghost(|a: (String, String), b: (String, String)| pair_less((a.0@, a.1@), (b.0@, b.1@))),
    );
    proof {
        lemma_sorted_map(
            before,
            |p: (String, String)| (p.0@, p.1@),
            |a: (String, String), b: (String, String)| pair_less((a.0@, a.1@), (b.0@, b.1@)),
            |a: (Seq<char>, Seq<char>), b: (Seq<char>, Seq<char>)| pair_less(a, b),
        );
        assert(pairs_view(before) =~= before.map_values(|p: (String, String)| (p.0@, p.1@)));
        assert(pairs_view(sorted@) =~= sorted@.map_values(|p: (String, String)| (p.0@, p.1@)));
    }
    sorted
}

fn pairs_eq(a: &Vec<(String, String)>, b: &Vec<(String, String)>) -> (res: bool)
    ensures
        res == (pairs_view(a@) == pairs_view(b@)),
{
    if a.len() != b.len() {
        assert(pairs_view(a@).len() != pairs_view(b@).len());
        return false;
    }
    for i in 0..a.len()
        invariant
            a@.len() == b@.len(),
            forall|j: int| 0 <= j < i ==> #[trigger] pairs_view(a@)[j] == pairs_view(b@)[j],
    {
        if !crate::text::str_eq(a[i].0.as_str(), b[i].0.as_str()) || !crate::text::str_eq(
            a[i].1.as_str(),
            b[i].1.as_str(),
        ) {
            assert(pairs_view(a@)[i as int] != pairs_view(b@)[i as int]);
            return false;
        }
        assert(pairs_view(a@)[i as int] == pairs_view(b@)[i as int]);
    }
    assert(pairs_view(a@) =~= pairs_view(b@));
    true
}

fn key_has_exec(key: &Vec<(String, String)>, pid: &str) -> (res: bool)
    ensures
        res == key_has(pairs_view(key@), pid@),
{
    let ghost kv = pairs_view(key@);
    for k in 0..key.len()
        invariant
            kv == pairs_view(key@),
            forall|j: int| 0 <= j < k ==> (#[trigger] kv[j]).0 != pid@,
    {
        assert(kv[k as int].0 == key@[k as int].0@);
        if crate::text::str_eq(key[k].0.as_str(), pid) {
            return true;
        }
    }
    false
}

fn group_label(statement: &Statement, key: &Vec<(String, String)>) -> (res: String)
    ensures
        res@ == join(key_labels(statement@.qualifiers, pairs_view(key@)), ", "@),
{
    let ghost q = statement@.qualifiers;
    let mut labels: Vec<String> = Vec::new();
    for i in 0..statement.qualifiers.len()
        invariant
            q == statement@.qualifiers,
            strs_view(labels@) == key_labels(q.take(i as int), pairs_view(key@)),
    {
        let qual = &statement.qualifiers[i];
        assert(q[i as int] == qual@);
        assert(q.take(i as int + 1).drop_last() =~= q.take(i as int));
        assert(q.take(i as int + 1).last() == qual@);
        if key_has_exec(key, qual.pid.as_str()) {
            let ghost prev = strs_view(labels@);
            labels.push(qual.label.clone());
            assert(strs_view(labels@) =~= prev.push(qual@.label));
        }
    }
    assert(q.take(q.len() as int) =~= q);
    join_strings(&labels, ", ")
}

fn time_key_exec(s: &Statement) -> (res: Option<String>)
    ensures
        opt_view(res) == time_key(s@),
{
    match statement_time(s) {
        Some((iso, _)) => Some(iso),
        None => None,
    }
}

fn member_less(a: &&Statement, b: &&Statement) -> (res: bool)
    ensures
        res == member_before(a@, b@),
{
    let ap = a.rank == Rank::Preferred;
    let bp = b.rank == Rank::Preferred;
    let ta = time_key_exec(a);
    let tb = time_key_exec(b);
    let later = match (&tb, &ta) {
        (None, Some(_)) => true,
        (Some(x), Some(y)) => crate::text::str_less(x.as_str(), y.as_str()),
        _ => false,
    };
    (ap && !bp) || (ap == bp && later)
}

pub open spec fn groups_view(
    keys: Seq<Vec<(String, String)>>,
    labels: Seq<String>,
    members: Seq<Vec<&Statement>>,
) -> Seq<Group> {
    Seq::new(
        keys.len(),
        |k: int| (pairs_view(keys[k]@), labels[k]@, members[k]@.map_values(|s: &Statement| s@)),
    )
}

/// One labeled row of current-first values for a group.
fn keyed_row_exec(label: String, members: Vec<&Statement>) -> (res: FactRow)
    requires
        forall|m: int| 0 <= m < members@.len() ==> statement_ok(#[trigger] members@[m]@),
    ensures
        res@ == keyed_row((Seq::empty(), label@, members@.map_values(|s: &Statement| s@))),
{
    let ghost mv = members@.map_values(|s: &Statement| s@);
    let ghost before = members@;
    let sorted = sort_by(
        members,
        member_less,
        Ghost(|a: &Statement, b: &Statement| member_before(a@, b@)),
    );
    let ghost sv = sorted_by(mv, |a: StatementV, b: StatementV| member_before(a, b));
    proof {
        lemma_sorted_map(
            before,
            |s: &Statement| s@,
            |a: &Statement, b: &Statement| member_before(a@, b@),
            |a: StatementV, b: StatementV| member_before(a, b),
        );
        assert(forall|m: int| 0 <= m < mv.len() ==> statement_ok(#[trigger] mv[m]));
        crate::sort::lemma_sorted_all(
            mv,
            |a: StatementV, b: StatementV| member_before(a, b),
            |s: StatementV| statement_ok(s),
        );
    }
    let mut values: Vec<FactValue> = Vec::new();
    for j in 0..sorted.len()
        invariant
            sv == sorted@.map_values(|s: &Statement| s@),
            forall|m: int| 0 <= m < sv.len() ==> statement_ok(#[trigger] sv[m]),
            values@.map_values(|v: FactValue| v@) == sv.take(j as int).map_values(
                |s: StatementV| member_value(s),
            ),
    {
        let s = sorted[j];
        assert(sv[j as int] == s@);
        assert(statement_ok(s@));
        let (span, _) = qualifier_context(s);
        let v = FactValue::Text { value: display_value(&s.value), span, note: None };
        let ghost prev = values@.map_values(|v: FactValue| v@);
        values.push(v);
        assert(values@.map_values(|v: FactValue| v@) =~= prev.push(member_value(s@)));
        assert(sv.take(j as int + 1).map_values(|s: StatementV| member_value(s)) =~= sv.take(
            j as int,
        ).map_values(|s: StatementV| member_value(s)).push(member_value(s@)));
    }
    assert(sv.take(sv.len() as int) =~= sv);
    FactRow { label, values }
}

/// Group same-time measurements by their distinguishing qualifiers (the
/// platform qualifier on each follower count): one labeled row per
/// group, current value first.
pub fn as_keyed_quantities(property: &Property, dated: &Vec<(String, &Statement)>) -> (res: Option<Card>)
    requires
        property_ok(property@),
        dated@.map_values(|x: (String, &Statement)| x.1@) == property@.statements,
    ensures
        match res {
            Some(c) => keyed_card(property@) == Some(c@),
            None => keyed_card(property@) is None,
        },
{
    let ghost ss = property@.statements;
    let mut keys: Vec<Vec<(String, String)>> = Vec::new();
    let mut labels: Vec<String> = Vec::new();
    let mut members: Vec<Vec<&Statement>> = Vec::new();
    assert(groups_view(keys@, labels@, members@) =~= groups_of(ss.take(0)));
    for i in 0..dated.len()
        invariant
            ss == property@.statements,
            property_ok(property@),
            dated@.map_values(|x: (String, &Statement)| x.1@) == ss,
            keys@.len() == labels@.len(),
            keys@.len() == members@.len(),
            groups_view(keys@, labels@, members@) == groups_of(ss.take(i as int)),
            forall|k: int, m: int|
                0 <= k < members@.len() && 0 <= m < members@[k]@.len() ==> statement_ok(
                    #[trigger] members@[k]@[m]@,
                ),
    {
        let s = dated[i].1;
        assert(ss[i as int] == s@);
        assert(statement_ok(ss[i as int]));
        assert(ss.take(i as int + 1).drop_last() =~= ss.take(i as int));
        assert(ss.take(i as int + 1).last() == s@);
        let key = signature_of(s);
        let ghost g = groups_view(keys@, labels@, members@);
        let mut j: usize = 0;
        let mut found = false;
        while j < keys.len()
            invariant
                j <= keys@.len(),
                g == groups_view(keys@, labels@, members@),
                forall|t: int| 0 <= t < j ==> (#[trigger] g[t]).0 != pairs_view(key@),
                found ==> j < keys@.len() && g[j as int].0 == pairs_view(key@),
            ensures
                j <= keys@.len(),
                forall|t: int| 0 <= t < j ==> (#[trigger] g[t]).0 != pairs_view(key@),
                found ==> j < keys@.len() && g[j as int].0 == pairs_view(key@),
                !found ==> j == keys@.len(),
            decreases keys@.len() - j,
        {
            if pairs_eq(&keys[j], &key) {
                found = true;
                break;
            }
            j += 1;
        }
        proof { lemma_group_index(g, pairs_view(key@), j as int); }
        if found {
            let ghost old_m = members@;
            let mut m = members.remove(j);
            let ghost m0 = m@;
            assert(m0 == old_m[j as int]@);
            m.push(s);
            members.insert(j, m);
            assert(members@ =~= old_m.update(j as int, members@[j as int]));
            assert(members@[j as int]@ == m0.push(s));
            assert(members@[j as int]@.map_values(|x: &Statement| x@) =~= m0.map_values(
                |x: &Statement| x@,
            ).push(s@));
            let ghost want = g.update(j as int, (g[j as int].0, g[j as int].1, g[j as int].2.push(s@)));
            assert forall|t: int| 0 <= t < want.len() implies #[trigger] groups_view(
                keys@,
                labels@,
                members@,
            )[t] == want[t] by {
                if t != j {
                    assert(members@[t] == old_m[t]);
                }
            }
            assert(groups_view(keys@, labels@, members@) =~= want);
        } else {
            let label = group_label(s, &key);
            let ghost kv = pairs_view(key@);
            let ghost old_m = members@;
            keys.push(key);
            labels.push(label);
            let mut m: Vec<&Statement> = Vec::new();
            m.push(s);
            assert(m@.map_values(|x: &Statement| x@) =~= seq![s@]);
            members.push(m);
            let ghost want = g.push(
                (signature(s@), join(key_labels(s@.qualifiers, signature(s@)), ", "@), seq![s@]),
            );
            assert forall|t: int| 0 <= t < want.len() implies #[trigger] groups_view(
                keys@,
                labels@,
                members@,
            )[t] == want[t] by {
                if t < g.len() {
                    assert(members@[t] == old_m[t]);
                }
            }
            assert(groups_view(keys@, labels@, members@) =~= want);
        }
    }
    assert(ss.take(ss.len() as int) =~= ss);
    let ghost groups = groups_view(keys@, labels@, members@);
    if keys.len() < 2 {
        return None;
    }
    let mut rows: Vec<FactRow> = Vec::new();
    let n = keys.len();
    let mut k: usize = 0;
    while members.len() > 0
        invariant
            k + members@.len() == n,
            labels@.len() == members@.len(),
            groups.len() == n,
            forall|t: int|
                k <= t < n ==> (#[trigger] groups[t]).1 == labels@[t - k]@ && groups[t].2
                    == members@[t - k]@.map_values(|s: &Statement| s@),
            forall|t: int, m: int|
                0 <= t < members@.len() && 0 <= m < members@[t]@.len() ==> statement_ok(
                    #[trigger] members@[t]@[m]@,
                ),
            rows@.map_values(|r: FactRow| r@) == groups.take(k as int).map_values(
                |x: Group| keyed_row(x),
            ),
        decreases members@.len(),
    {
        let ghost gk = groups[k as int];
        assert(gk.1 == labels@[0]@);
        let ghost old_labels = labels@;
        let label = labels.remove(0);
        let ghost old_members = members@;
        let group = members.remove(0);
        assert(forall|m: int| 0 <= m < group@.len() ==> statement_ok(#[trigger] group@[m]@)) by {
            assert forall|m: int| 0 <= m < group@.len() implies statement_ok(#[trigger] group@[m]@) by {
                assert(old_members[0] == group);
                assert(statement_ok(old_members[0]@[m]@));
            }
        }
        assert forall|t: int, m: int|
            0 <= t < members@.len() && 0 <= m < members@[t]@.len() implies statement_ok(
                #[trigger] members@[t]@[m]@,
            ) by {
            assert(members@[t] == old_members[t + 1]);
        }
        assert forall|t: int| k + 1 <= t < n implies (#[trigger] groups[t]).1 == labels@[t - (k
            + 1)]@ && groups[t].2 == members@[t - (k + 1)]@.map_values(|s: &Statement| s@) by {
            assert(labels@[t - (k + 1)] == old_labels[t - k]);
            assert(members@[t - (k + 1)] == old_members[t - k]);
        }
        let row = keyed_row_exec(label, group);
        assert(keyed_row((Seq::empty(), gk.1, gk.2)) == keyed_row(gk));
        let ghost prev = rows@.map_values(|r: FactRow| r@);
        rows.push(row);
        assert(rows@.map_values(|r: FactRow| r@) =~= prev.push(keyed_row(gk)));
        assert(groups.take(k as int + 1).map_values(|x: Group| keyed_row(x)) =~= groups.take(
            k as int,
        ).map_values(|x: Group| keyed_row(x)).push(keyed_row(gk)));
        k += 1;
    }
    assert(groups.take(n as int) =~= groups);
    let kind = CardKind::Facts { rows };
    Some(new_card(property.label.clone(), true, single_pid(&property.pid), kind))
}

} // verus!

verus! {

/// Quantity statements with point-in-time qualifiers: distinct years
/// form a time series (population over time); colliding years told
/// apart by other qualifiers are parallel measurements and become
/// labeled rows instead.
pub fn as_quantity_card(property: &Property) -> (res: Option<Card>)
    requires
        property_ok(property@),
    ensures
        match res {
            Some(c) => quantity_card(property@) == Some(c@),
            None => quantity_card(property@) is None,
        },
{
    let ghost ss = property@.statements;
    let mut dated: Vec<(String, &Statement)> = Vec::new();
    for i in 0..property.statements.len()
        invariant
            ss == property@.statements,
            dated@.map_values(|x: (String, &Statement)| x.1@) == ss.take(i as int),
            forall|j: int| 0 <= j < i ==> (#[trigger] ss[j]).value is Quantity && point_time(
                ss[j].qualifiers,
            ) is Some,
            forall|j: int| 0 <= j < i ==> #[trigger] dated@[j].0@ == dated_iso(ss[j]),
    {
        let statement = &property.statements[i];
        assert(ss[i as int] == statement@);
        match &statement.value {
            Value::Quantity { .. } => {},
            _ => {
                assert(!all_dated(ss));
                return None;
            },
        }
        let iso = match statement_time(statement) {
            Some((iso, _)) => iso,
            None => {
                assert(!all_dated(ss));
                return None;
            },
        };
        let ghost prev = dated@.map_values(|x: (String, &Statement)| x.1@);
        dated.push((iso, statement));
        assert(dated@.map_values(|x: (String, &Statement)| x.1@) =~= prev.push(statement@));
        assert(ss.take(i as int + 1) =~= ss.take(i as int).push(statement@));
    }
    assert(ss.take(ss.len() as int) =~= ss);
    assert(all_dated(ss));
    if dated.len() < 2 {
        return None;
    }
    let mut years: Vec<String> = Vec::new();
    for i in 0..dated.len()
        invariant
            ss == property@.statements,
            property_ok(property@),
            dated@.map_values(|x: (String, &Statement)| x.1@) == ss,
            forall|j: int| 0 <= j < dated@.len() ==> #[trigger] dated@[j].0@ == dated_iso(ss[j]),
            all_dated(ss),
            years@.len() == i,
            forall|j: int| 0 <= j < i ==> #[trigger] years@[j]@ == year_text(dated_iso(ss[j])),
    {
        assert(statement_ok(ss[i as int]));
        assert(dated@[i as int].1@ == ss[i as int]);
        proof { lemma_point_time_ok(ss[i as int].qualifiers); }
        let y = format_time(dated[i].0.as_str(), Some(PRECISION_YEAR));
        years.push(y);
    }
    let mut collide = false;
    let mut a: usize = 0;
    while a < years.len()
        invariant
            years@.len() == ss.len(),
            forall|j: int| 0 <= j < ss.len() ==> #[trigger] years@[j]@ == year_text(dated_iso(ss[j])),
            a <= years@.len(),
            collide == exists|i: int, j: int|
                0 <= i < j < ss.len() && i < a && year_text(dated_iso(#[trigger] ss[i])) == year_text(
                    dated_iso(#[trigger] ss[j]),
                ),
        decreases years@.len() - a,
    {
        let mut b: usize = a + 1;
        while b < years.len()
            invariant
                years@.len() == ss.len(),
                forall|j: int| 0 <= j < ss.len() ==> #[trigger] years@[j]@ == year_text(dated_iso(ss[j])),
                a < b <= years@.len(),
                collide == ((exists|i: int, j: int|
                    0 <= i < j < ss.len() && i < a && year_text(dated_iso(#[trigger] ss[i]))
                        == year_text(dated_iso(#[trigger] ss[j]))) || (exists|j: int|
                    a < j < b && year_text(dated_iso(ss[a as int])) == year_text(
                        dated_iso(#[trigger] ss[j]),
                    ))),
            decreases years@.len() - b,
        {
            if crate::text::str_eq(years[a].as_str(), years[b].as_str()) {
                assert(year_text(dated_iso(ss[a as int])) == year_text(dated_iso(ss[b as int])));
                collide = true;
            }
            b += 1;
        }
        proof {
            let ya = year_text(dated_iso(ss[a as int]));
            if exists|i: int, j: int|
                0 <= i < j < ss.len() && i < a + 1 && year_text(dated_iso(#[trigger] ss[i]))
                    == year_text(dated_iso(#[trigger] ss[j])) {
                let (i, j) = choose|i: int, j: int|
                    0 <= i < j < ss.len() && i < a + 1 && year_text(dated_iso(#[trigger] ss[i]))
                        == year_text(dated_iso(#[trigger] ss[j]));
                if i < a {
                    assert(year_text(dated_iso(ss[i])) == year_text(dated_iso(ss[j])));
                    assert(exists|i: int, j: int|
                        0 <= i < j < ss.len() && i < a && year_text(dated_iso(#[trigger] ss[i]))
                            == year_text(dated_iso(#[trigger] ss[j])));
                } else {
                    assert(i == a);
                    assert(ya == year_text(dated_iso(ss[j])));
                    assert(a < j < b);
                    assert(exists|j: int|
                        a < j < b && year_text(dated_iso(ss[a as int])) == year_text(
                            dated_iso(#[trigger] ss[j]),
                        ));
                }
                assert(collide);
            }
            if collide {
                if exists|i: int, j: int|
                    0 <= i < j < ss.len() && i < a && year_text(dated_iso(#[trigger] ss[i]))
                        == year_text(dated_iso(#[trigger] ss[j])) {
                    let (i, j) = choose|i: int, j: int|
                        0 <= i < j < ss.len() && i < a && year_text(dated_iso(#[trigger] ss[i]))
                            == year_text(dated_iso(#[trigger] ss[j]));
                    assert(year_text(dated_iso(ss[i])) == year_text(dated_iso(ss[j])));
                } else {
                    let j = choose|j: int|
                        a < j < b && ya == year_text(dated_iso(#[trigger] ss[j]));
                    assert(year_text(dated_iso(ss[a as int])) == year_text(dated_iso(ss[j])));
                }
            }
        }
        a += 1;
    }
    assert(collide == years_collide(ss));
    if collide {
        match as_keyed_quantities(property, &dated) {
            Some(card) => {
                return Some(card);
            },
            None => {},
        }
    }
    Some(stat_series(property, dated))
}

// ---------------------------------------------------------------------
// Which statement a series card headlines
// ---------------------------------------------------------------------

/// The headline of a series card: its current text and the note under it.
pub open spec fn series_headline(c: CardV) -> Option<(Seq<char>, Option<Seq<char>>)> {
    match c.kind {
        CardKindV::StatSeries { current, note, .. } => Some((current, note)),
        _ => None,
    }
}

proof fn lemma_iso_before_strict_weak()
    ensures
        strict_weak(|a: StatementV, b: StatementV| iso_before(a, b)),
{
    let lt = |a: StatementV, b: StatementV| iso_before(a, b);
    assert forall|a: StatementV| !#[trigger] lt(a, a) by {
        crate::text::lemma_text_less_irreflexive(dated_iso(a));
    }
    assert forall|a: StatementV, b: StatementV, c: StatementV| #[trigger] lt(a, b) && #[trigger] lt(b, c)
        implies lt(a, c) by {
        crate::text::lemma_text_less_transitive(dated_iso(a), dated_iso(b), dated_iso(c));
    }
    assert forall|a: StatementV, b: StatementV, c: StatementV| #[trigger] lt(a, c) implies lt(a, b)
        || #[trigger] lt(b, c) by {
        let (x, y, z) = (dated_iso(a), dated_iso(b), dated_iso(c));
        if !text_less(x, y) {
            if x == y {
            } else {
                crate::text::lemma_text_less_total(x, y);
                crate::text::lemma_text_less_transitive(y, x, z);
            }
        }
    }
}

/// What a series card headlines: when some statement has preferred rank,
/// the value and year of a preferred statement that no preferred
/// statement precedes in time; when none does, those of a statement that
/// no statement follows in time.
pub proof fn series_headline_prefers_rank(p: PropertyV)
    requires
        p.statements.len() > 0,
    ensures
        (exists|k: int| 0 <= k < p.statements.len() && (#[trigger] p.statements[k]).rank == Rank::Preferred)
            ==> exists|c: int|
            0 <= c < p.statements.len() && (#[trigger] p.statements[c]).rank == Rank::Preferred
                && series_headline(series_card(p)) == Some(
                (value_text(p.statements[c].value), time_note(p.statements[c])),
            ) && forall|t: int|
                0 <= t < p.statements.len() && (#[trigger] p.statements[t]).rank == Rank::Preferred
                    ==> !text_less(dated_iso(p.statements[t]), dated_iso(p.statements[c])),
        (forall|k: int| 0 <= k < p.statements.len() ==> (#[trigger] p.statements[k]).rank != Rank::Preferred)
            ==> exists|c: int|
            0 <= c < p.statements.len() && series_headline(series_card(p)) == Some(
                (value_text((#[trigger] p.statements[c]).value), time_note(p.statements[c])),
            ) && forall|t: int|
                0 <= t < p.statements.len() ==> !text_less(
                    dated_iso(p.statements[c]),
                    dated_iso(#[trigger] p.statements[t]),
                ),
{
    let ss = p.statements;
    let lt = |a: StatementV, b: StatementV| iso_before(a, b);
    let sorted = sorted_by(ss, lt);
    assert(sorted == by_time(ss));
    lemma_iso_before_strict_weak();
    crate::sort::lemma_sorted_by_sorted(ss, lt);
    crate::sort::lemma_sorted_len(ss, lt);
    lemma_first_preferred(sorted);
    assert forall|j: int| 0 <= j < sorted.len() implies ss.contains(#[trigger] sorted[j]) by {
        crate::sort::lemma_sorted_contains(ss, lt, sorted[j]);
    }
    assert forall|t: int| 0 <= t < ss.len() implies sorted.contains(#[trigger] ss[t]) by {
        crate::sort::lemma_sorted_contains(ss, lt, ss[t]);
    }
    match first_preferred(sorted) {
        Some(i) => {
            let cur = sorted[i];
            assert(ss.contains(cur));
            let c = choose|c: int| 0 <= c < ss.len() && ss[c] == cur;
            assert(series_headline(series_card(p)) == Some((value_text(cur.value), time_note(cur))));
            assert forall|t: int| 0 <= t < ss.len() && (#[trigger] ss[t]).rank == Rank::Preferred implies !text_less(
                dated_iso(ss[t]),
                dated_iso(ss[c]),
            ) by {
                assert(sorted.contains(ss[t]));
                let j = choose|j: int| 0 <= j < sorted.len() && sorted[j] == ss[t];
                if j < i {
                    assert(sorted[j].rank != Rank::Preferred);
                } else if j == i {
                    crate::text::lemma_text_less_irreflexive(dated_iso(cur));
                } else {
                    assert(!lt(sorted[j], sorted[i]));
                }
            }
            assert(ss[c].rank == Rank::Preferred);
        },
        None => {
            assert forall|k: int| 0 <= k < ss.len() implies (#[trigger] ss[k]).rank != Rank::Preferred by {
                assert(sorted.contains(ss[k]));
                let j = choose|j: int| 0 <= j < sorted.len() && sorted[j] == ss[k];
                assert(sorted[j].rank != Rank::Preferred);
            }
            let last = sorted.len() - 1;
            let cur = sorted[last];
            assert(ss.contains(cur));
            let c = choose|c: int| 0 <= c < ss.len() && ss[c] == cur;
            assert(series_headline(series_card(p)) == Some((value_text(cur.value), time_note(cur))));
            assert forall|t: int| 0 <= t < ss.len() implies !text_less(dated_iso(ss[c]), dated_iso(#[trigger] ss[t])) by {
                assert(sorted.contains(ss[t]));
                let j = choose|j: int| 0 <= j < sorted.len() && sorted[j] == ss[t];
                if j == last {
                    crate::text::lemma_text_less_irreflexive(dated_iso(cur));
                } else {
                    assert(!lt(sorted[last], sorted[j]));
                }
            }
        },
    }
}

} // verus!
