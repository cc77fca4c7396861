//! The typed item mapped onto the flat shape the template renderers
//! consume: each value as its display string, with its datatype name.

use vstd::prelude::*;

use crate::legacy;
use crate::model::{Rank, Value, ValueV, WikidataItem};
use crate::text::{opt_view, owned, push_str};

verus! {

pub open spec fn type_of(v: ValueV) -> legacy::StatementType {
    match v {
        ValueV::ItemRef { .. } => legacy::StatementType::Uri,
        ValueV::Url { .. } => legacy::StatementType::Uri,
        ValueV::CommonsMedia { .. } => legacy::StatementType::Uri,
        _ => legacy::StatementType::Literal,
    }
}

/// The Wikibase datatype name of a value.
pub open spec fn datatype_of(v: ValueV) -> Seq<char> {
    match v {
        ValueV::Text { .. } => "string"@,
        ValueV::MonolingualText { .. } => "monolingualtext"@,
        ValueV::ItemRef { .. } => "wikibase-item"@,
        ValueV::Time { .. } => "time"@,
        ValueV::Quantity { .. } => "quantity"@,
        ValueV::Coordinate { .. } => "globe-coordinate"@,
        ValueV::CommonsMedia { .. } => "commonsMedia"@,
        ValueV::Url { .. } => "url"@,
        ValueV::GeoShape { .. } => "geo-shape"@,
        ValueV::ExternalId { .. } => "external-id"@,
    }
}

pub open spec fn rank_name(r: Rank) -> Seq<char> {
    match r {
        Rank::Preferred => "Preferred"@,
        Rank::Normal => "Normal"@,
        Rank::Deprecated => "Deprecated"@,
    }
}

pub open spec fn kind_name(t: legacy::StatementType) -> Seq<char> {
    match t {
        legacy::StatementType::Uri => "uri"@,
        legacy::StatementType::Literal => "literal"@,
    }
}

pub open spec fn legacy_qualifier(q: crate::model::QualifierV) -> legacy::QualifierV {
    legacy::QualifierV {
        datatype: datatype_of(q.value),
        qualifier_type: kind_name(type_of(q.value)),
        pid: q.pid,
        value: q.value.display(),
        label: q.label,
    }
}

/// A statement in the flat shape: units as entity URIs, no qualifier
/// list when there are none.
pub open spec fn legacy_statement(s: crate::model::StatementV) -> legacy::StatementV {
    let (unit, unit_label) = match s.value {
        ValueV::Quantity { unit_qid, unit_label, .. } => (
            match unit_qid {
                Some(q) => Some("http://www.wikidata.org/entity/"@ + q),
                None => None,
            },
            unit_label,
        ),
        _ => (None, None),
    };
    legacy::StatementV {
        statement_type: type_of(s.value),
        datatype: datatype_of(s.value),
        value: s.value.display(),
        rank: rank_name(s.rank),
        unit_of_measure: unit,
        unit_of_measure_label: unit_label,
        qualifiers: if s.qualifiers.len() == 0 {
            None
        } else {
            Some(s.qualifiers.map_values(|q: crate::model::QualifierV| legacy_qualifier(q)))
        },
        qid: match s.value {
            ValueV::ItemRef { qid, .. } => Some(qid),
            _ => None,
        },
        image_url: match s.value {
            ValueV::ItemRef { image_url, .. } => image_url,
            _ => None,
        },
    }
}

pub open spec fn legacy_property(p: crate::model::PropertyV) -> legacy::PropertyV {
    legacy::PropertyV {
        pid: p.pid,
        wd_label: p.label,
        statements: p.statements.map_values(|s: crate::model::StatementV| legacy_statement(s)),
    }
}

/// The item in the flat shape, keyed by PID in item order.
pub open spec fn legacy_item(item: crate::model::ItemV) -> Seq<(Seq<char>, legacy::PropertyV)> {
    item.properties.map_values(|p: crate::model::PropertyV| (p.pid, legacy_property(p)))
}

/// URI-valued values (items, URLs, media) and literals.
pub fn statement_type(value: &Value) -> (res: legacy::StatementType)
    ensures
        res == type_of(value@),
{
    match value {
        Value::ItemRef { .. } | Value::Url { .. } | Value::CommonsMedia { .. } => legacy::StatementType::Uri,
        _ => legacy::StatementType::Literal,
    }
}

/// The Wikibase datatype name of a value.
pub fn datatype_name(value: &Value) -> (res: String)
    ensures
        res@ == datatype_of(value@),
{
    owned(
        match value {
            Value::Text { .. } => "string",
            Value::MonolingualText { .. } => "monolingualtext",
            Value::ItemRef { .. } => "wikibase-item",
            Value::Time { .. } => "time",
            Value::Quantity { .. } => "quantity",
            Value::Coordinate { .. } => "globe-coordinate",
            Value::CommonsMedia { .. } => "commonsMedia",
            Value::Url { .. } => "url",
            Value::GeoShape { .. } => "geo-shape",
            Value::ExternalId { .. } => "external-id",
        },
    )
}

fn rank_text(rank: Rank) -> (res: String)
    ensures
        res@ == rank_name(rank),
{
    owned(
        match rank {
            Rank::Preferred => "Preferred",
            Rank::Normal => "Normal",
            Rank::Deprecated => "Deprecated",
        },
    )
}

pub fn to_legacy_statement(statement: &crate::model::Statement) -> (res: legacy::Statement)
    ensures
        res@ == legacy_statement(statement@),
{
    let value = &statement.value;
    let (unit_of_measure, unit_of_measure_label) = match value {
        Value::Quantity { unit_qid, unit_label, .. } => (
            match unit_qid {
                Some(q) => {
                    let mut u = owned("http://www.wikidata.org/entity/");
                    push_str(&mut u, q.as_str());
                    Some(u)
                },
                None => None,
            },
            crate::text::copy_opt(unit_label),
        ),
        _ => (None, None),
    };
    let ghost qs = statement@.qualifiers;
    let mut qualifiers: Vec<legacy::Qualifier> = Vec::new();
    for i in 0..statement.qualifiers.len()
        invariant
            qs == statement@.qualifiers,
            qualifiers@.map_values(|q: legacy::Qualifier| q@) == qs.take(i as int).map_values(
                |q: crate::model::QualifierV| legacy_qualifier(q),
            ),
    {
        let q = &statement.qualifiers[i];
        assert(qs[i as int] == q@);
        let t = match statement_type(&q.value) {
            legacy::StatementType::Uri => owned("uri"),
            legacy::StatementType::Literal => owned("literal"),
        };
        let lq = legacy::Qualifier {
            datatype: datatype_name(&q.value),
            qualifier_type: t,
            pid: q.pid.clone(),
            value: owned(q.value.display()),
            label: q.label.clone(),
        };
        let ghost prev = qualifiers@.map_values(|q: legacy::Qualifier| q@);
        qualifiers.push(lq);
        assert(qualifiers@.map_values(|q: legacy::Qualifier| q@) =~= prev.push(legacy_qualifier(q@)));
        assert(qs.take(i as int + 1).map_values(|q: crate::model::QualifierV| legacy_qualifier(q))
            =~= qs.take(i as int).map_values(|q: crate::model::QualifierV| legacy_qualifier(q)).push(
            legacy_qualifier(q@),
        ));
    }
    assert(qs.take(qs.len() as int) =~= qs);
    legacy::Statement {
        statement_type: statement_type(value),
        datatype: datatype_name(value),
        value: owned(value.display()),
        rank: rank_text(statement.rank),
        unit_of_measure,
        unit_of_measure_label,
        qualifiers: if qualifiers.len() == 0 {
            None
        } else {
            Some(qualifiers)
        },
        qid: match value {
            Value::ItemRef { qid, .. } => Some(qid.clone()),
            _ => None,
        },
        image_url: match value {
            Value::ItemRef { image_url, .. } => crate::text::copy_opt(image_url),
            _ => None,
        },
    }
}

/// Map the typed item onto the flat shape the template renderers
/// consume.
pub fn to_legacy(item: &WikidataItem) -> (res: legacy::WikidataItem)
    ensures
        res@ == legacy_item(item@),
{
    let ghost ps = item@.properties;
    let mut properties: Vec<(String, legacy::Property)> = Vec::new();
    for i in 0..item.properties.len()
        invariant
            ps == item@.properties,
            legacy::entries_view(properties@) == ps.take(i as int).map_values(
                |p: crate::model::PropertyV| (p.pid, legacy_property(p)),
            ),
    {
        let property = &item.properties[i];
        assert(ps[i as int] == property@);
        let ghost ss = property@.statements;
        let mut statements: Vec<legacy::Statement> = Vec::new();
        for j in 0..property.statements.len()
            invariant
                ss == property@.statements,
                statements@.map_values(|s: legacy::Statement| s@) == ss.take(j as int).map_values(
                    |s: crate::model::StatementV| legacy_statement(s),
                ),
        {
            assert(ss[j as int] == property.statements@[j as int]@);
            let ghost prev = statements@.map_values(|s: legacy::Statement| s@);
            statements.push(to_legacy_statement(&property.statements[j]));
            assert(statements@.map_values(|s: legacy::Statement| s@) =~= prev.push(legacy_statement(ss[j as int])));
            assert(ss.take(j as int + 1).map_values(|s: crate::model::StatementV| legacy_statement(s))
                =~= ss.take(j as int).map_values(|s: crate::model::StatementV| legacy_statement(s)).push(
                legacy_statement(ss[j as int]),
            ));
        }
        assert(ss.take(ss.len() as int) =~= ss);
        let lp = legacy::Property {
            pid: property.pid.clone(),
            wd_label: property.label.clone(),
            statements,
        };
        let ghost prev = legacy::entries_view(properties@);
        properties.push((property.pid.clone(), lp));
        assert(legacy::entries_view(properties@) =~= prev.push((ps[i as int].pid, legacy_property(ps[i as int]))));
        assert(ps.take(i as int + 1).map_values(|p: crate::model::PropertyV| (p.pid, legacy_property(p)))
            =~= ps.take(i as int).map_values(|p: crate::model::PropertyV| (p.pid, legacy_property(p))).push(
            (ps[i as int].pid, legacy_property(ps[i as int])),
        ));
    }
    assert(ps.take(ps.len() as int) =~= ps);
    legacy::WikidataItem { properties }
}

} // verus!
