//! Typed model of a Wikidata item, built from SPARQL query results.
//!
//! Every value keeps the localized display string the Wikidata label
//! service produced (see `display`); the typed payload is additional
//! signal for renderers that need dates, units or coordinates.
//!
//! Numbers are carried as decimal text: `Quantity::amount` and the
//! coordinate's `lat`/`lon` hold literals that `number::is_float_literal`
//! accepts, so a caller that wants the numeric value can always parse them.

use vstd::prelude::*;

use crate::text::{copy_opt, opt_view, str_eq};

verus! {

#[derive(Debug, Clone, Copy, PartialEq, Eq, Structural)]
pub enum Rank {
    Preferred,
    Normal,
    Deprecated,
}

#[derive(Debug)]
pub enum Value {
    Text { text: String },
    MonolingualText { text: String, language: String },
    ItemRef {
        qid: String,
        label: String,
        /// P18 image of the referenced item, when available
        image_url: Option<String>,
    },
    Time {
        /// ISO 8601 timestamp as stored by Wikidata, e.g. "1899-01-01T00:00:00Z"
        iso: String,
        /// Wikidata precision (9 = year, 10 = month, 11 = day, ...)
        precision: Option<u8>,
    },
    Quantity {
        /// The quantity as decimal text
        amount: String,
        /// The decimal literal as written, kept for display fidelity
        raw: String,
        unit_qid: Option<String>,
        unit_label: Option<String>,
    },
    Coordinate {
        /// Latitude and longitude as decimal text
        lat: String,
        lon: String,
        /// The WKT literal as written, e.g. "Point(36.817222222 -1.286388888)"
        raw: String,
    },
    CommonsMedia {
        /// Commons file name, e.g. "Nairobi banner.jpg"
        file_name: String,
        /// Special:FilePath URL as returned by SPARQL
        url: String,
    },
    Url { url: String },
    GeoShape { url: String },
    ExternalId { id: String },
}

pub enum ValueV {
    Text { text: Seq<char> },
    MonolingualText { text: Seq<char>, language: Seq<char> },
    ItemRef { qid: Seq<char>, label: Seq<char>, image_url: Option<Seq<char>> },
    Time { iso: Seq<char>, precision: Option<u8> },
    Quantity {
        amount: Seq<char>,
        raw: Seq<char>,
        unit_qid: Option<Seq<char>>,
        unit_label: Option<Seq<char>>,
    },
    Coordinate { lat: Seq<char>, lon: Seq<char>, raw: Seq<char> },
    CommonsMedia { file_name: Seq<char>, url: Seq<char> },
    Url { url: Seq<char> },
    GeoShape { url: Seq<char> },
    ExternalId { id: Seq<char> },
}

impl View for Value {
    type V = ValueV;

    open spec fn view(&self) -> ValueV {
        match self {
            Value::Text { text } => ValueV::Text { text: text@ },
            Value::MonolingualText { text, language } => ValueV::MonolingualText {
                text: text@,
                language: language@,
            },
            Value::ItemRef { qid, label, image_url } => ValueV::ItemRef {
                qid: qid@,
                label: label@,
                image_url: opt_view(*image_url),
            },
            Value::Time { iso, precision } => ValueV::Time { iso: iso@, precision: *precision },
            Value::Quantity { amount, raw, unit_qid, unit_label } => ValueV::Quantity {
                amount: amount@,
                raw: raw@,
                unit_qid: opt_view(*unit_qid),
                unit_label: opt_view(*unit_label),
            },
            Value::Coordinate { lat, lon, raw } => ValueV::Coordinate {
                lat: lat@,
                lon: lon@,
                raw: raw@,
            },
            Value::CommonsMedia { file_name, url } => ValueV::CommonsMedia {
                file_name: file_name@,
                url: url@,
            },
            Value::Url { url } => ValueV::Url { url: url@ },
            Value::GeoShape { url } => ValueV::GeoShape { url: url@ },
            Value::ExternalId { id } => ValueV::ExternalId { id: id@ },
        }
    }
}

impl ValueV {
    /// What text-oriented renderers print for a value: the label the
    /// label service resolved, or the literal itself.
    pub open spec fn display(self) -> Seq<char> {
        match self {
            ValueV::Text { text } => text,
            ValueV::MonolingualText { text, .. } => text,
            ValueV::ItemRef { label, .. } => label,
            ValueV::Time { iso, .. } => iso,
            ValueV::Quantity { raw, .. } => raw,
            ValueV::Coordinate { raw, .. } => raw,
            ValueV::CommonsMedia { url, .. } => url,
            ValueV::Url { url } => url,
            ValueV::GeoShape { url } => url,
            ValueV::ExternalId { id } => id,
        }
    }
}

impl Value {
    /// The human-readable string for this value — what the Wikidata label
    /// service resolved, or the literal itself.
    pub fn display(&self) -> (res: &str)
        ensures
            res@ == self@.display(),
    {
        match self {
            Value::Text { text } => text.as_str(),
            Value::MonolingualText { text, .. } => text.as_str(),
            Value::ItemRef { label, .. } => label.as_str(),
            Value::Time { iso, .. } => iso.as_str(),
            Value::Quantity { raw, .. } => raw.as_str(),
            Value::Coordinate { raw, .. } => raw.as_str(),
            Value::CommonsMedia { url, .. } => url.as_str(),
            Value::Url { url } => url.as_str(),
            Value::GeoShape { url } => url.as_str(),
            Value::ExternalId { id } => id.as_str(),
        }
    }

    /// An equal copy of this value.
    pub fn duplicate(&self) -> (res: Value)
        ensures
            res@ == self@,
    {
        match self {
            Value::Text { text } => Value::Text { text: text.clone() },
            Value::MonolingualText { text, language } => Value::MonolingualText {
                text: text.clone(),
                language: language.clone(),
            },
            Value::ItemRef { qid, label, image_url } => Value::ItemRef {
                qid: qid.clone(),
                label: label.clone(),
                image_url: copy_opt(image_url),
            },
            Value::Time { iso, precision } => Value::Time { iso: iso.clone(), precision: *precision },
            Value::Quantity { amount, raw, unit_qid, unit_label } => Value::Quantity {
                amount: amount.clone(),
                raw: raw.clone(),
                unit_qid: copy_opt(unit_qid),
                unit_label: copy_opt(unit_label),
            },
            Value::Coordinate { lat, lon, raw } => Value::Coordinate {
                lat: lat.clone(),
                lon: lon.clone(),
                raw: raw.clone(),
            },
            Value::CommonsMedia { file_name, url } => Value::CommonsMedia {
                file_name: file_name.clone(),
                url: url.clone(),
            },
            Value::Url { url } => Value::Url { url: url.clone() },
            Value::GeoShape { url } => Value::GeoShape { url: url.clone() },
            Value::ExternalId { id } => Value::ExternalId { id: id.clone() },
        }
    }
}

#[derive(Debug)]
pub struct Qualifier {
    pub pid: String,
    pub label: String,
    pub value: Value,
}

pub struct QualifierV {
    pub pid: Seq<char>,
    pub label: Seq<char>,
    pub value: ValueV,
}

impl View for Qualifier {
    type V = QualifierV;

    open spec fn view(&self) -> QualifierV {
        QualifierV { pid: self.pid@, label: self.label@, value: self.value@ }
    }
}

#[derive(Debug)]
pub struct Statement {
    pub value: Value,
    pub rank: Rank,
    pub qualifiers: Vec<Qualifier>,
}

pub struct StatementV {
    pub value: ValueV,
    pub rank: Rank,
    pub qualifiers: Seq<QualifierV>,
}

impl View for Statement {
    type V = StatementV;

    open spec fn view(&self) -> StatementV {
        StatementV {
            value: self.value@,
            rank: self.rank,
            qualifiers: self.qualifiers@.map_values(|q: Qualifier| q@),
        }
    }
}

#[derive(Debug)]
pub struct Property {
    pub pid: String,
    pub label: String,
    pub statements: Vec<Statement>,
}

pub struct PropertyV {
    pub pid: Seq<char>,
    pub label: Seq<char>,
    pub statements: Seq<StatementV>,
}

impl View for Property {
    type V = PropertyV;

    open spec fn view(&self) -> PropertyV {
        PropertyV {
            pid: self.pid@,
            label: self.label@,
            statements: self.statements@.map_values(|s: Statement| s@),
        }
    }
}

/// A Wikidata item. `properties` keeps one entry per PID, in the order
/// the query results first mentioned them.
#[derive(Debug)]
pub struct WikidataItem {
    pub qid: String,
    pub label: Option<String>,
    pub description: Option<String>,
    pub properties: Vec<Property>,
}

pub struct ItemV {
    pub qid: Seq<char>,
    pub label: Option<Seq<char>>,
    pub description: Option<Seq<char>>,
    pub properties: Seq<PropertyV>,
}

impl View for WikidataItem {
    type V = ItemV;

    open spec fn view(&self) -> ItemV {
        ItemV {
            qid: self.qid@,
            label: opt_view(self.label),
            description: opt_view(self.description),
            properties: self.properties@.map_values(|p: Property| p@),
        }
    }
}

/// Position of the first property with the given PID.
pub open spec fn property_index(props: Seq<PropertyV>, pid: Seq<char>) -> Option<int>
    decreases props.len(),
{
    if props.len() == 0 {
        None
    } else if props[0].pid == pid {
        Some(0)
    } else {
        match property_index(props.drop_first(), pid) {
            Some(i) => Some(i + 1),
            None => None,
        }
    }
}

pub proof fn lemma_property_index(props: Seq<PropertyV>, pid: Seq<char>, i: int)
    requires
        0 <= i < props.len(),
        props[i].pid == pid,
        forall|j: int| 0 <= j < i ==> props[j].pid != pid,
    ensures
        property_index(props, pid) == Some(i),
    decreases i,
{
    if i > 0 {
        lemma_property_index(props.drop_first(), pid, i - 1);
    }
}

pub proof fn lemma_property_index_none(props: Seq<PropertyV>, pid: Seq<char>)
    requires
        forall|j: int| 0 <= j < props.len() ==> props[j].pid != pid,
    ensures
        property_index(props, pid) is None,
    decreases props.len(),
{
    if props.len() > 0 {
        lemma_property_index_none(props.drop_first(), pid);
    }
}

pub proof fn lemma_property_index_bounds(props: Seq<PropertyV>, pid: Seq<char>)
    ensures
        match property_index(props, pid) {
            Some(i) => 0 <= i < props.len() && props[i].pid == pid && forall|j: int|
                0 <= j < i ==> props[j].pid != pid,
            None => forall|j: int| 0 <= j < props.len() ==> props[j].pid != pid,
        },
    decreases props.len(),
{
    if props.len() > 0 {
        lemma_property_index_bounds(props.drop_first(), pid);
        if props[0].pid != pid {
            match property_index(props.drop_first(), pid) {
                Some(i) => {
                    assert forall|j: int| 0 <= j < i + 1 implies props[j].pid != pid by {
                        if j > 0 {
                            assert(props.drop_first()[j - 1] == props[j]);
                        }
                    }
                },
                None => {
                    assert forall|j: int| 0 <= j < props.len() implies props[j].pid != pid by {
                        if j > 0 {
                            assert(props.drop_first()[j - 1] == props[j]);
                        }
                    }
                },
            }
        }
    }
}

/// No PID occurs twice among the properties.
pub open spec fn distinct_pids(props: Seq<PropertyV>) -> bool {
    forall|i: int, j: int| 0 <= i < j < props.len() ==> (#[trigger] props[i]).pid != (#[trigger] props[j]).pid
}

/// Whether no PID occurs twice among the properties.
pub fn has_distinct_pids(props: &Vec<Property>) -> (res: bool)
    ensures
        res == distinct_pids(props@.map_values(|p: Property| p@)),
{
    let ghost v = props@.map_values(|p: Property| p@);
    let mut j: usize = 0;
    while j < props.len()
        invariant
            v == props@.map_values(|p: Property| p@),
            j <= props@.len(),
            forall|a: int, b: int| 0 <= a < b < j ==> (#[trigger] v[a]).pid != (#[trigger] v[b]).pid,
        decreases props@.len() - j,
    {
        let mut i: usize = 0;
        while i < j
            invariant
                v == props@.map_values(|p: Property| p@),
                i <= j < props@.len(),
                forall|a: int| 0 <= a < i ==> (#[trigger] v[a]).pid != v[j as int].pid,
            decreases j - i,
        {
            if crate::text::str_eq(props[i].pid.as_str(), props[j].pid.as_str()) {
                assert(v[i as int].pid == v[j as int].pid);
                return false;
            }
            i += 1;
        }
        j += 1;
    }
    true
}

impl ItemV {
    /// The property with the given PID, if the item has one.
    pub open spec fn get(self, pid: Seq<char>) -> Option<PropertyV> {
        match property_index(self.properties, pid) {
            Some(i) => Some(self.properties[i]),
            None => None,
        }
    }

    pub open spec fn has(self, pid: Seq<char>) -> bool {
        property_index(self.properties, pid) is Some
    }
}

impl WikidataItem {
    /// The property with the given PID, if the item has one.
    pub fn get(&self, pid: &str) -> (res: Option<&Property>)
        ensures
            match res {
                Some(p) => self@.get(pid@) == Some(p@),
                None => self@.get(pid@) is None,
            },
    {
        let ghost props = self@.properties;
        let mut i: usize = 0;
        while i < self.properties.len()
            invariant
                props == self@.properties,
                i <= self.properties@.len(),
                forall|j: int| 0 <= j < i ==> props[j].pid != pid@,
            decreases self.properties@.len() - i,
        {
            if str_eq(self.properties[i].pid.as_str(), pid) {
                proof { lemma_property_index(props, pid@, i as int); }
                return Some(&self.properties[i]);
            }
            i += 1;
        }
        proof { lemma_property_index_none(props, pid@); }
        None
    }
}

} // verus!
