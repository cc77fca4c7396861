//! Transform SPARQL result rows into the typed model.
//!
//! Rows are grouped by the `?statement` node URI: one statement per
//! distinct node, in first-seen order, so statements that share a value
//! label stay distinct and qualifiers attach to the right statement.

use vstd::prelude::*;

use crate::model::{
    distinct_pids, lemma_property_index, lemma_property_index_bounds, lemma_property_index_none,
    property_index, ItemV, Property, PropertyV,
    Qualifier, QualifierV, Rank, Statement, StatementV, Value, ValueV, WikidataItem,
};
use crate::number::{is_float_literal, is_float_text, parse_u8, parse_u8_spec};
use crate::percent::{percent_decode_lossy, percent_decoded_lossy};
use crate::sparql::{rows_ok, Binding, SparqlValue};
use crate::text::{
    after_last, after_last_char, chars_of, copy_opt, first_index_of, find_char, opt_view, owned,
    slice_string, starts_with, str_eq, strip_prefix, strip_prefix_str, has_prefix,
};

verus! {

pub const ENTITY_PREFIX: &'static str = "http://www.wikidata.org/entity/";

pub const FILEPATH_PREFIX: &'static str = "http://commons.wikimedia.org/wiki/Special:FilePath/";

pub const XSD_DATETIME: &'static str = "http://www.w3.org/2001/XMLSchema#dateTime";

pub const XSD_DECIMAL: &'static str = "http://www.w3.org/2001/XMLSchema#decimal";

pub const WKT_LITERAL: &'static str = "http://www.opengis.net/ont/geosparql#wktLiteral";

// ---------------------------------------------------------------------
// URIs and literals
// ---------------------------------------------------------------------

pub open spec fn uri_segment(uri: Seq<char>) -> Seq<char> {
    after_last(uri, '/')
}

pub open spec fn entity_of(uri: Seq<char>) -> Option<Seq<char>> {
    strip_prefix(uri, ENTITY_PREFIX@)
}

pub open spec fn file_name_of(url: Seq<char>) -> Seq<char> {
    let encoded = match strip_prefix(url, FILEPATH_PREFIX@) {
        Some(rest) => rest,
        None => url,
    };
    percent_decoded_lossy(encoded)
}

/// The last `/`-separated segment of a URI.
pub fn last_uri_segment(uri: &str) -> (res: String)
    ensures
        res@ == uri_segment(uri@),
{
    after_last_char(uri, '/')
}

/// The QID of a Wikidata entity URI.
pub fn entity_id(uri: &str) -> (res: Option<String>)
    ensures
        opt_view(res) == entity_of(uri@),
{
    strip_prefix_str(uri, ENTITY_PREFIX)
}

/// The decoded Commons file name of a `Special:FilePath` URL.
fn commons_file_name(url: &str) -> (res: String)
    ensures
        res@ == file_name_of(url@),
{
    match strip_prefix_str(url, FILEPATH_PREFIX) {
        Some(rest) => percent_decode_lossy(rest.as_str()),
        None => percent_decode_lossy(url),
    }
}

// ---------------------------------------------------------------------
// WKT points
// ---------------------------------------------------------------------

/// Unicode White_Space, as `char::is_whitespace` documents it.
pub open spec fn is_space(c: char) -> bool {
    let u = c as u32;
    (0x9 <= u && u <= 0xd) || u == 0x20 || u == 0x85 || u == 0xa0 || u == 0x1680 || (0x2000 <= u
        && u <= 0x200a) || u == 0x2028 || u == 0x2029 || u == 0x202f || u == 0x205f || u == 0x3000
}

/// Leading whitespace removed.
pub open spec fn trim_start(s: Seq<char>) -> Seq<char>
    decreases s.len(),
{
    if s.len() > 0 && is_space(s[0]) {
        trim_start(s.drop_first())
    } else {
        s
    }
}

/// Length of the leading run of non-whitespace characters.
pub open spec fn word_len(s: Seq<char>) -> nat
    decreases s.len(),
{
    if s.len() > 0 && !is_space(s[0]) {
        1 + word_len(s.drop_first())
    } else {
        0
    }
}

/// Index of the first occurrence of `p` in `s`.
pub open spec fn find_seq(s: Seq<char>, p: Seq<char>) -> Option<int>
    decreases s.len(),
{
    if starts_with(s, p) {
        Some(0)
    } else if s.len() == 0 {
        None
    } else {
        match find_seq(s.drop_first(), p) {
            Some(i) => Some(i + 1),
            None => None,
        }
    }
}

/// The `(latitude, longitude)` texts of a WKT literal "Point(lon lat)",
/// optionally prefixed by a globe URI; both must be float literals.
pub open spec fn wkt_point(wkt: Seq<char>) -> Option<(Seq<char>, Seq<char>)> {
    match find_seq(wkt, seq!['P', 'o', 'i', 'n', 't', '(']) {
        None => None,
        Some(i) => {
            let rest = wkt.subrange(i + 6, wkt.len() as int);
            match first_index_of(rest, ')') {
                None => None,
                Some(j) => {
                    let t1 = trim_start(rest.subrange(0, j));
                    let lon = t1.subrange(0, word_len(t1) as int);
                    let t2 = trim_start(t1.subrange(word_len(t1) as int, t1.len() as int));
                    let lat = t2.subrange(0, word_len(t2) as int);
                    if t1.len() == 0 || !is_float_literal(lon) || t2.len() == 0
                        || !is_float_literal(lat) {
                        None
                    } else {
                        Some((lat, lon))
                    }
                },
            }
        },
    }
}

fn is_space_char(c: char) -> (res: bool)
    ensures
        res == is_space(c),
{
    let u = c as u32;
    (0x9 <= u && u <= 0xd) || u == 0x20 || u == 0x85 || u == 0xa0 || u == 0x1680 || (0x2000 <= u
        && u <= 0x200a) || u == 0x2028 || u == 0x2029 || u == 0x202f || u == 0x205f || u == 0x3000
}

proof fn lemma_trim_start(s: Seq<char>, i: int)
    requires
        0 <= i <= s.len(),
        forall|k: int| 0 <= k < i ==> is_space(#[trigger] s[k]),
        i < s.len() ==> !is_space(s[i]),
    ensures
        trim_start(s) == s.subrange(i, s.len() as int),
    decreases i,
{
    if i == 0 {
        assert(s.subrange(0, s.len() as int) =~= s);
    } else {
        assert(s.drop_first().subrange(i - 1, s.len() - 1) =~= s.subrange(i, s.len() as int));
        assert forall|k: int| 0 <= k < i - 1 implies is_space(#[trigger] s.drop_first()[k]) by {
            assert(s.drop_first()[k] == s[k + 1]);
        }
        lemma_trim_start(s.drop_first(), i - 1);
    }
}

proof fn lemma_word_len(s: Seq<char>, i: int)
    requires
        0 <= i <= s.len(),
        forall|k: int| 0 <= k < i ==> !is_space(#[trigger] s[k]),
        i < s.len() ==> is_space(s[i]),
    ensures
        word_len(s) == i,
    decreases i,
{
    if i > 0 {
        assert forall|k: int| 0 <= k < i - 1 implies !is_space(#[trigger] s.drop_first()[k]) by {
            assert(s.drop_first()[k] == s[k + 1]);
        }
        lemma_word_len(s.drop_first(), i - 1);
    }
}

/// Skips whitespace from `from`; the index of the first non-space.
fn skip_spaces(s: &Vec<char>, from: usize, to: usize) -> (res: usize)
    requires
        from <= to <= s@.len(),
    ensures
        from <= res <= to,
        trim_start(s@.subrange(from as int, to as int)) == s@.subrange(res as int, to as int),
{
    let mut i = from;
    while i < to && is_space_char(s[i])
        invariant
            from <= i <= to <= s@.len(),
            forall|k: int| from <= k < i ==> is_space(#[trigger] s@[k]),
        decreases to - i,
    {
        i += 1;
    }
    proof {
        let t = s@.subrange(from as int, to as int);
        assert forall|k: int| 0 <= k < i - from implies is_space(#[trigger] t[k]) by {
            assert(t[k] == s@[from + k]);
        }
        lemma_trim_start(t, i - from);
        assert(t.subrange(i - from, t.len() as int) =~= s@.subrange(i as int, to as int));
    }
    i
}

/// The end of the word starting at `from`.
fn word_end(s: &Vec<char>, from: usize, to: usize) -> (res: usize)
    requires
        from <= to <= s@.len(),
    ensures
        from <= res <= to,
        word_len(s@.subrange(from as int, to as int)) == res - from,
{
    let mut i = from;
    while i < to && !is_space_char(s[i])
        invariant
            from <= i <= to <= s@.len(),
            forall|k: int| from <= k < i ==> !is_space(#[trigger] s@[k]),
        decreases to - i,
    {
        i += 1;
    }
    proof {
        let t = s@.subrange(from as int, to as int);
        assert forall|k: int| 0 <= k < i - from implies !is_space(#[trigger] t[k]) by {
            assert(t[k] == s@[from + k]);
        }
        lemma_word_len(t, i - from);
    }
    i
}

pub open spec fn shift(o: Option<int>, by: int) -> Option<int> {
    match o {
        Some(k) => Some(k + by),
        None => None,
    }
}

/// Where `p` first occurs in `s`.
pub fn find_text(s: &Vec<char>, p: &str) -> (res: Option<usize>)
    ensures
        match res {
            Some(i) => find_seq(s@, p@) == Some(i as int) && i + p@.len() <= s@.len(),
            None => find_seq(s@, p@) is None,
        },
{
    let pc = chars_of(p);
    let n = s.len();
    let mut i: usize = 0;
    assert(s@.subrange(0, s@.len() as int) =~= s@);
    loop
        invariant
            pc@ == p@,
            n == s@.len(),
            i <= n,
            find_seq(s@, p@) == shift(find_seq(s@.subrange(i as int, n as int), p@), i as int),
        decreases n - i,
    {
        let ghost rest = s@.subrange(i as int, n as int);
        if pc.len() <= n - i {
            let mut j: usize = 0;
            let mut same = true;
            while j < pc.len()
                invariant
                    pc@ == p@,
                    n == s@.len(),
                    i + pc@.len() <= n,
                    j <= pc@.len(),
                    same == forall|k: int| 0 <= k < j ==> s@[i + k] == pc@[k],
                decreases pc@.len() - j,
            {
                if s[i + j] != pc[j] {
                    same = false;
                }
                j += 1;
            }
            if same {
                assert(rest.subrange(0, p@.len() as int) =~= p@);
                return Some(i);
            } else {
                assert(!starts_with(rest, p@)) by {
                    let k = choose|k: int| 0 <= k < pc@.len() && s@[i + k] != pc@[k];
                    assert(rest.subrange(0, p@.len() as int)[k] != p@[k]);
                }
            }
        } else {
            assert(!starts_with(rest, p@));
        }
        if i == n {
            assert(rest.len() == 0);
            return None;
        }
        assert(rest.drop_first() =~= s@.subrange(i as int + 1, n as int));
        i += 1;
    }
}

/// The latitude and longitude texts of a WKT point literal.
fn parse_wkt_point(wkt: &str) -> (res: Option<(String, String)>)
    ensures
        match res {
            Some((lat, lon)) => wkt_point(wkt@) == Some((lat@, lon@)),
            None => wkt_point(wkt@) is None,
        },
{
    let s = chars_of(wkt);
    proof { reveal_strlit("Point("); }
    assert("Point("@ =~= seq!['P', 'o', 'i', 'n', 't', '(']);
    let n = s.len();
    let start = match find_text(&s, "Point(") {
        Some(i) => i + 6,
        None => return None,
    };
    let ghost rest = s@.subrange(start as int, s@.len() as int);
    let mut close = start;
    while close < s.len() && s[close] != ')'
        invariant
            start <= close <= s@.len(),
            forall|k: int| start <= k < close ==> s@[k] != ')',
        decreases s@.len() - close,
    {
        close += 1;
    }
    if close == s.len() {
        proof {
            crate::text::lemma_first_index_of_none(rest, ')');
        }
        return None;
    }
    proof {
        crate::text::lemma_first_index_of(rest, ')', close - start);
    }
    let ghost inner = rest.subrange(0, close - start);
    assert(inner =~= s@.subrange(start as int, close as int));
    let a = skip_spaces(&s, start, close);
    let ghost t1 = s@.subrange(a as int, close as int);
    if a == close {
        return None;
    }
    let b = word_end(&s, a, close);
    let lon = slice_string(&s, a, b);
    assert(t1.subrange(0, (b - a) as int) =~= lon@);
    if !is_float_text(lon.as_str()) {
        return None;
    }
    let c = skip_spaces(&s, b, close);
    assert(t1.subrange((b - a) as int, t1.len() as int) =~= s@.subrange(b as int, close as int));
    let ghost t2 = s@.subrange(c as int, close as int);
    if c == close {
        return None;
    }
    let d = word_end(&s, c, close);
    let lat = slice_string(&s, c, d);
    assert(t2.subrange(0, (d - c) as int) =~= lat@);
    if !is_float_text(lat.as_str()) {
        return None;
    }
    Some((lat, lon))
}

// ---------------------------------------------------------------------
// Values
// ---------------------------------------------------------------------

pub open spec fn term_value(t: Option<SparqlValue>) -> Option<Seq<char>> {
    match t {
        Some(v) => Some(v.value@),
        None => None,
    }
}

pub open spec fn rank_of(label: Option<SparqlValue>) -> Rank {
    match label {
        Some(v) => if v.value@ == "Preferred"@ {
            Rank::Preferred
        } else if v.value@ == "Deprecated"@ {
            Rank::Deprecated
        } else {
            Rank::Normal
        },
        None => Rank::Normal,
    }
}

impl Rank {
    /// The rank named by a `?statementRankLabel` term; Normal otherwise.
    pub fn from_label(label: Option<&SparqlValue>) -> (res: Rank)
        ensures
            res == rank_of(match label {
                Some(v) => Some(*v),
                None => None,
            }),
    {
        match label {
            Some(v) => if str_eq(v.value.as_str(), "Preferred") {
                Rank::Preferred
            } else if str_eq(v.value.as_str(), "Deprecated") {
                Rank::Deprecated
            } else {
                Rank::Normal
            },
            None => Rank::Normal,
        }
    }
}

pub open spec fn or_default(o: Option<Seq<char>>, d: Seq<char>) -> Seq<char> {
    match o {
        Some(x) => x,
        None => d,
    }
}

pub open spec fn is_kind(segment: Seq<char>, name: Seq<char>) -> bool {
    segment == "ontology#"@ + name || segment == name
}

/// The typed value of a statement, from the property's wikibase datatype.
pub open spec fn statement_value(
    property_type: Seq<char>,
    value: SparqlValue,
    label: Option<SparqlValue>,
) -> ValueV {
    let seg = uri_segment(property_type);
    let v = value.value@;
    let display = term_value(label);
    if is_kind(seg, "Time"@) {
        ValueV::Time { iso: v, precision: None }
    } else if is_kind(seg, "Quantity"@) {
        if is_float_literal(v) {
            ValueV::Quantity { amount: v, raw: v, unit_qid: None, unit_label: None }
        } else {
            ValueV::Text { text: or_default(display, v) }
        }
    } else if is_kind(seg, "GlobeCoordinate"@) {
        match wkt_point(v) {
            Some((lat, lon)) => ValueV::Coordinate { lat, lon, raw: v },
            None => ValueV::Text { text: v },
        }
    } else if is_kind(seg, "CommonsMedia"@) {
        ValueV::CommonsMedia { file_name: file_name_of(v), url: v }
    } else if is_kind(seg, "Url"@) {
        ValueV::Url { url: v }
    } else if is_kind(seg, "GeoShape"@) {
        ValueV::GeoShape { url: v }
    } else if is_kind(seg, "ExternalId"@) {
        ValueV::ExternalId { id: v }
    } else if is_kind(seg, "Monolingualtext"@) {
        ValueV::MonolingualText { text: v, language: or_default(opt_view(value.lang), Seq::empty()) }
    } else if is_kind(seg, "WikibaseItem"@) {
        match entity_of(v) {
            Some(qid) => ValueV::ItemRef { qid, label: or_default(display, qid), image_url: None },
            None => ValueV::Text { text: or_default(display, v) },
        }
    } else if value.value_type@ == "uri"@ {
        ValueV::Url { url: v }
    } else {
        ValueV::Text { text: or_default(display, v) }
    }
}

fn kind_is(seg: &str, name: &str, qualified: &str) -> (res: bool)
    requires
        qualified@ == "ontology#"@ + name@,
    ensures
        res == is_kind(seg@, name@),
{
    str_eq(seg, qualified) || str_eq(seg, name)
}

fn label_or(label: Option<&SparqlValue>, fallback: &str) -> (res: String)
    ensures
        res@ == or_default(
            term_value(
                match label {
                    Some(v) => Some(*v),
                    None => None,
                },
            ),
            fallback@,
        ),
{
    match label {
        Some(l) => l.value.clone(),
        None => owned(fallback),
    }
}

/// The typed value of a statement, from the property's wikibase datatype
/// (http://wikiba.se/ontology#Time, #Quantity, ...).
fn parse_statement_value(
    property_type: &str,
    value: &SparqlValue,
    label: Option<&SparqlValue>,
) -> (res: Value)
    ensures
        res@ == statement_value(
            property_type@,
            *value,
            match label {
                Some(v) => Some(*v),
                None => None,
            },
        ),
{
    let seg = last_uri_segment(property_type);
    let s = seg.as_str();
    let v = value.value.as_str();
    proof {
        reveal_strlit("ontology#");
        reveal_strlit("Time");
        reveal_strlit("ontology#Time");
        reveal_strlit("Quantity");
        reveal_strlit("ontology#Quantity");
        reveal_strlit("GlobeCoordinate");
        reveal_strlit("ontology#GlobeCoordinate");
        reveal_strlit("CommonsMedia");
        reveal_strlit("ontology#CommonsMedia");
        reveal_strlit("Url");
        reveal_strlit("ontology#Url");
        reveal_strlit("GeoShape");
        reveal_strlit("ontology#GeoShape");
        reveal_strlit("ExternalId");
        reveal_strlit("ontology#ExternalId");
        reveal_strlit("Monolingualtext");
        reveal_strlit("ontology#Monolingualtext");
        reveal_strlit("WikibaseItem");
        reveal_strlit("ontology#WikibaseItem");
    }
    assert("ontology#Time"@ =~= "ontology#"@ + "Time"@);
    assert("ontology#Quantity"@ =~= "ontology#"@ + "Quantity"@);
    assert("ontology#GlobeCoordinate"@ =~= "ontology#"@ + "GlobeCoordinate"@);
    assert("ontology#CommonsMedia"@ =~= "ontology#"@ + "CommonsMedia"@);
    assert("ontology#Url"@ =~= "ontology#"@ + "Url"@);
    assert("ontology#GeoShape"@ =~= "ontology#"@ + "GeoShape"@);
    assert("ontology#ExternalId"@ =~= "ontology#"@ + "ExternalId"@);
    assert("ontology#Monolingualtext"@ =~= "ontology#"@ + "Monolingualtext"@);
    assert("ontology#WikibaseItem"@ =~= "ontology#"@ + "WikibaseItem"@);
    if kind_is(s, "Time", "ontology#Time") {
        Value::Time { iso: owned(v), precision: None }
    } else if kind_is(s, "Quantity", "ontology#Quantity") {
        if is_float_text(v) {
            Value::Quantity { amount: owned(v), raw: owned(v), unit_qid: None, unit_label: None }
        } else {
            Value::Text { text: label_or(label, v) }
        }
    } else if kind_is(s, "GlobeCoordinate", "ontology#GlobeCoordinate") {
        match parse_wkt_point(v) {
            Some((lat, lon)) => Value::Coordinate { lat, lon, raw: owned(v) },
            None => Value::Text { text: owned(v) },
        }
    } else if kind_is(s, "CommonsMedia", "ontology#CommonsMedia") {
        Value::CommonsMedia { file_name: commons_file_name(v), url: owned(v) }
    } else if kind_is(s, "Url", "ontology#Url") {
        Value::Url { url: owned(v) }
    } else if kind_is(s, "GeoShape", "ontology#GeoShape") {
        Value::GeoShape { url: owned(v) }
    } else if kind_is(s, "ExternalId", "ontology#ExternalId") {
        Value::ExternalId { id: owned(v) }
    } else if kind_is(s, "Monolingualtext", "ontology#Monolingualtext") {
        let language = match &value.lang {
            Some(l) => l.clone(),
            None => String::new(),
        };
        Value::MonolingualText { text: owned(v), language }
    } else if kind_is(s, "WikibaseItem", "ontology#WikibaseItem") {
        match entity_id(v) {
            Some(qid) => {
                let l = label_or(label, qid.as_str());
                Value::ItemRef { qid, label: l, image_url: None }
            },
            None => Value::Text { text: label_or(label, v) },
        }
    } else if str_eq(value.value_type.as_str(), "uri") {
        Value::Url { url: owned(v) }
    } else {
        Value::Text { text: label_or(label, v) }
    }
}

/// The typed value of a qualifier, from the term's own datatype and shape
/// (qualifier property types are not in the query).
pub open spec fn qualifier_value(value: SparqlValue, label: Option<SparqlValue>) -> ValueV {
    let v = value.value@;
    let dt = opt_view(value.datatype);
    if dt == Some(XSD_DATETIME@) {
        ValueV::Time { iso: v, precision: None }
    } else if dt == Some(XSD_DECIMAL@) {
        if is_float_literal(v) {
            ValueV::Quantity { amount: v, raw: v, unit_qid: None, unit_label: None }
        } else {
            ValueV::Text { text: v }
        }
    } else if dt == Some(WKT_LITERAL@) {
        match wkt_point(v) {
            Some((lat, lon)) => ValueV::Coordinate { lat, lon, raw: v },
            None => ValueV::Text { text: v },
        }
    } else if value.value_type@ == "uri"@ {
        match entity_of(v) {
            Some(qid) => ValueV::ItemRef {
                qid,
                label: or_default(term_value(label), qid),
                image_url: None,
            },
            None => if starts_with(v, FILEPATH_PREFIX@) {
                ValueV::CommonsMedia { file_name: file_name_of(v), url: v }
            } else {
                ValueV::Url { url: v }
            },
        }
    } else {
        match value.lang {
            Some(lang) => ValueV::MonolingualText { text: v, language: lang@ },
            None => ValueV::Text { text: v },
        }
    }
}

fn datatype_is(value: &SparqlValue, name: &str) -> (res: bool)
    ensures
        res == (opt_view(value.datatype) == Some(name@)),
{
    match &value.datatype {
        Some(d) => str_eq(d.as_str(), name),
        None => false,
    }
}

/// The typed value of a qualifier term.
fn parse_qualifier_value(value: &SparqlValue, label: Option<&SparqlValue>) -> (res: Value)
    ensures
        res@ == qualifier_value(
            *value,
            match label {
                Some(v) => Some(*v),
                None => None,
            },
        ),
{
    let v = value.value.as_str();
    if datatype_is(value, XSD_DATETIME) {
        Value::Time { iso: owned(v), precision: None }
    } else if datatype_is(value, XSD_DECIMAL) {
        if is_float_text(v) {
            Value::Quantity { amount: owned(v), raw: owned(v), unit_qid: None, unit_label: None }
        } else {
            Value::Text { text: owned(v) }
        }
    } else if datatype_is(value, WKT_LITERAL) {
        match parse_wkt_point(v) {
            Some((lat, lon)) => Value::Coordinate { lat, lon, raw: owned(v) },
            None => Value::Text { text: owned(v) },
        }
    } else if str_eq(value.value_type.as_str(), "uri") {
        match entity_id(v) {
            Some(qid) => {
                let l = label_or(label, qid.as_str());
                Value::ItemRef { qid, label: l, image_url: None }
            },
            None => {
                let c = chars_of(v);
                if has_prefix(&c, FILEPATH_PREFIX) {
                    Value::CommonsMedia { file_name: commons_file_name(v), url: owned(v) }
                } else {
                    Value::Url { url: owned(v) }
                }
            },
        }
    } else {
        match &value.lang {
            Some(lang) => Value::MonolingualText { text: owned(v), language: lang.clone() },
            None => Value::Text { text: owned(v) },
        }
    }
}

} // verus!

verus! {

// ---------------------------------------------------------------------
// Assembling the item row by row
// ---------------------------------------------------------------------

/// Bookkeeping for one statement node: where its statement lives and
/// which (qualifier PID, raw qualifier value) pairs it has taken.
pub struct StatementSlot {
    pub uri: String,
    pub pid: String,
    pub pos: usize,
    pub seen: Vec<(String, String)>,
}

pub struct SlotV {
    pub uri: Seq<char>,
    pub pid: Seq<char>,
    pub pos: int,
    pub seen: Seq<(Seq<char>, Seq<char>)>,
}

pub open spec fn pairs_view(v: Seq<(String, String)>) -> Seq<(Seq<char>, Seq<char>)> {
    v.map_values(|p: (String, String)| (p.0@, p.1@))
}

impl View for StatementSlot {
    type V = SlotV;

    open spec fn view(&self) -> SlotV {
        SlotV { uri: self.uri@, pid: self.pid@, pos: self.pos as int, seen: pairs_view(self.seen@) }
    }
}

/// The item as assembled so far; `failed` once a row would index past a
/// property's statements (a statement node reused under another property).
pub struct Assembly {
    pub label: Option<Seq<char>>,
    pub description: Option<Seq<char>>,
    pub properties: Seq<PropertyV>,
    pub slots: Seq<SlotV>,
    pub failed: bool,
}

pub open spec fn slot_index(slots: Seq<SlotV>, uri: Seq<char>) -> Option<int>
    decreases slots.len(),
{
    if slots.len() == 0 {
        None
    } else if slots[0].uri == uri {
        Some(0)
    } else {
        match slot_index(slots.drop_first(), uri) {
            Some(i) => Some(i + 1),
            None => None,
        }
    }
}

pub open spec fn keep_first(cur: Option<Seq<char>>, t: Option<SparqlValue>) -> Option<Seq<char>> {
    if cur is None {
        term_value(t)
    } else {
        cur
    }
}

/// An item value picks up the referenced item's image from its row.
pub open spec fn with_image(v: ValueV, image: Option<SparqlValue>) -> ValueV {
    match v {
        ValueV::ItemRef { qid, label, .. } => ValueV::ItemRef {
            qid,
            label,
            image_url: term_value(image),
        },
        other => other,
    }
}

/// A quantity picks up its unit from any row of its statement; the
/// dimensionless unit Q199 is not a unit worth showing.
pub open spec fn with_unit(v: ValueV, b: Binding) -> ValueV {
    match (b.spec_get("unitOfMeasure"@), v) {
        (Some(u), ValueV::Quantity { amount, raw, unit_qid, unit_label }) => if entity_of(u.value@)
            != Some("Q199"@) {
            ValueV::Quantity {
                amount,
                raw,
                unit_qid: entity_of(u.value@),
                unit_label: if unit_label is None {
                    term_value(b.spec_get("unitOfMeasureLabel"@))
                } else {
                    unit_label
                },
            }
        } else {
            v
        },
        _ => v,
    }
}

/// A time picks up its precision from any row of its statement.
pub open spec fn with_precision(v: ValueV, b: Binding) -> ValueV {
    match (b.spec_get("timePrecision"@), v) {
        (Some(p), ValueV::Time { iso, .. }) => ValueV::Time { iso, precision: parse_u8_spec(p.value@) },
        _ => v,
    }
}

/// A row's qualifier joins its statement unless the statement already
/// has that (PID, raw value) pair.
pub open spec fn with_qualifier(
    quals: Seq<QualifierV>,
    seen: Seq<(Seq<char>, Seq<char>)>,
    b: Binding,
) -> (Seq<QualifierV>, Seq<(Seq<char>, Seq<char>)>) {
    match (b.spec_get("qualifierProperty"@), b.spec_get("qualifierValue"@)) {
        (Some(qp), Some(qv)) => {
            let key = (uri_segment(qp.value@), qv.value@);
            if seen.contains(key) {
                (quals, seen)
            } else {
                (
                    quals.push(
                        QualifierV {
                            pid: key.0,
                            label: or_default(
                                term_value(b.spec_get("qualifierPropertyLabel"@)),
                                Seq::empty(),
                            ),
                            value: qualifier_value(qv, b.spec_get("qualifierValueLabel"@)),
                        },
                    ),
                    seen.push(key),
                )
            }
        },
        _ => (quals, seen),
    }
}

/// The statement a row creates when its node is new.
pub open spec fn new_statement(b: Binding, property_type: SparqlValue, value: SparqlValue) -> StatementV {
    StatementV {
        value: with_image(
            statement_value(property_type.value@, value, b.spec_get("statementValueLabel"@)),
            b.spec_get("statementValueImage"@),
        ),
        rank: rank_of(b.spec_get("statementRankLabel"@)),
        qualifiers: Seq::empty(),
    }
}

/// A row that names a property and a statement.
pub open spec fn statement_row(
    st: Assembly,
    b: Binding,
    property: SparqlValue,
    property_label: SparqlValue,
    property_type: SparqlValue,
    node: SparqlValue,
    value: SparqlValue,
) -> Assembly {
    let pid = uri_segment(property.value@);
    let props1 = match property_index(st.properties, pid) {
        Some(_) => st.properties,
        None => st.properties.push(
            PropertyV { pid, label: property_label.value@, statements: Seq::empty() },
        ),
    };
    let pi = match property_index(st.properties, pid) {
        Some(i) => i,
        None => st.properties.len() as int,
    };
    let uri = node.value@;
    match slot_index(st.slots, uri) {
        Some(k) => {
            let pos = st.slots[k].pos;
            if pos >= props1[pi].statements.len() {
                Assembly { failed: true, ..st }
            } else {
                update_statement(Assembly { properties: props1, ..st }, b, pi, pos, k)
            }
        },
        None => {
            let pos = props1[pi].statements.len() as int;
            let props2 = props1.update(
                pi,
                PropertyV {
                    statements: props1[pi].statements.push(new_statement(b, property_type, value)),
                    ..props1[pi]
                },
            );
            let slots = st.slots.push(SlotV { uri, pid, pos, seen: Seq::empty() });
            update_statement(
                Assembly { properties: props2, slots, ..st },
                b,
                pi,
                pos,
                st.slots.len() as int,
            )
        },
    }
}

/// Unit, precision and qualifier of a row applied to the statement at
/// `pos` of property `pi`, tracked by slot `k`.
pub open spec fn update_statement(st: Assembly, b: Binding, pi: int, pos: int, k: int) -> Assembly {
    let stmt = st.properties[pi].statements[pos];
    let (quals, seen) = with_qualifier(stmt.qualifiers, st.slots[k].seen, b);
    let stmt2 = StatementV {
        value: with_precision(with_unit(stmt.value, b), b),
        rank: stmt.rank,
        qualifiers: quals,
    };
    Assembly {
        properties: st.properties.update(
            pi,
            PropertyV {
                statements: st.properties[pi].statements.update(pos, stmt2),
                ..st.properties[pi]
            },
        ),
        slots: st.slots.update(k, SlotV { seen, ..st.slots[k] }),
        ..st
    }
}

/// One row folded into the assembly.
pub open spec fn step(st: Assembly, b: Binding) -> Assembly {
    if st.failed {
        st
    } else {
        let st1 = Assembly {
            label: keep_first(st.label, b.spec_get("itemLabel"@)),
            description: keep_first(st.description, b.spec_get("itemDescription"@)),
            ..st
        };
        match (
            b.spec_get("property"@),
            b.spec_get("propertyLabel"@),
            b.spec_get("propertyType"@),
            b.spec_get("statement"@),
            b.spec_get("statementValue"@),
        ) {
            (Some(p), Some(pl), Some(pt), Some(n), Some(v)) => statement_row(st1, b, p, pl, pt, n, v),
            _ => st1,
        }
    }
}

pub open spec fn empty_assembly() -> Assembly {
    Assembly {
        label: None,
        description: None,
        properties: Seq::empty(),
        slots: Seq::empty(),
        failed: false,
    }
}

/// The assembly after the first `n` rows.
pub open spec fn assembled(rows: Seq<Binding>, n: int) -> Assembly
    decreases n,
{
    if n <= 0 {
        empty_assembly()
    } else {
        step(assembled(rows, n - 1), rows[n - 1])
    }
}

pub open spec fn not_deprecated(s: StatementV) -> bool {
    s.rank != Rank::Deprecated
}

pub open spec fn drop_deprecated(p: PropertyV) -> PropertyV {
    PropertyV { statements: p.statements.filter(|s: StatementV| not_deprecated(s)), ..p }
}

pub open spec fn non_empty(p: PropertyV) -> bool {
    p.statements.len() > 0
}

/// The item the rows describe: deprecated statements dropped, and the
/// properties left with no statement.
pub open spec fn item_of(qid: Seq<char>, st: Assembly) -> ItemV {
    ItemV {
        qid,
        label: st.label,
        description: st.description,
        properties: st.properties.map_values(|p: PropertyV| drop_deprecated(p)).filter(
            |p: PropertyV| non_empty(p),
        ),
    }
}

/// The item `transform` builds from the rows, or None where a row would
/// index past a property's statements.
pub open spec fn transformed(qid: Seq<char>, rows: Seq<Binding>) -> Option<ItemV> {
    let st = assembled(rows, rows.len() as int);
    if st.failed {
        None
    } else {
        Some(item_of(qid, st))
    }
}

} // verus!

verus! {

pub open spec fn props_view(s: Seq<Property>) -> Seq<PropertyV> {
    s.map_values(|p: Property| p@)
}

pub open spec fn slots_view(s: Seq<StatementSlot>) -> Seq<SlotV> {
    s.map_values(|x: StatementSlot| x@)
}

pub open spec fn quals_view(s: Seq<Qualifier>) -> Seq<QualifierV> {
    s.map_values(|q: Qualifier| q@)
}

pub open spec fn opt_term(t: Option<&SparqlValue>) -> Option<SparqlValue> {
    match t {
        Some(v) => Some(*v),
        None => None,
    }
}

fn term_string(t: Option<&SparqlValue>) -> (res: Option<String>)
    ensures
        opt_view(res) == term_value(opt_term(t)),
{
    match t {
        Some(v) => Some(v.value.clone()),
        None => None,
    }
}

fn apply_image(v: Value, image: Option<&SparqlValue>) -> (res: Value)
    ensures
        res@ == with_image(v@, opt_term(image)),
{
    match v {
        Value::ItemRef { qid, label, .. } => Value::ItemRef {
            qid,
            label,
            image_url: term_string(image),
        },
        other => other,
    }
}

fn apply_unit(v: Value, b: &Binding) -> (res: Value)
    ensures
        res@ == with_unit(v@, *b),
{
    match b.get("unitOfMeasure") {
        Some(u) => match v {
            Value::Quantity { amount, raw, unit_qid, unit_label } => {
                let e = entity_id(u.value.as_str());
                let dimensionless = match &e {
                    Some(q) => str_eq(q.as_str(), "Q199"),
                    None => false,
                };
                if dimensionless {
                    Value::Quantity { amount, raw, unit_qid, unit_label }
                } else {
                    let label = match unit_label {
                        Some(l) => Some(l),
                        None => term_string(b.get("unitOfMeasureLabel")),
                    };
                    Value::Quantity { amount, raw, unit_qid: e, unit_label: label }
                }
            },
            other => other,
        },
        None => v,
    }
}

fn apply_precision(v: Value, b: &Binding) -> (res: Value)
    ensures
        res@ == with_precision(v@, *b),
{
    match b.get("timePrecision") {
        Some(p) => match v {
            Value::Time { iso, .. } => Value::Time { iso, precision: parse_u8(p.value.as_str()) },
            other => other,
        },
        None => v,
    }
}

fn seen_has(seen: &Vec<(String, String)>, pid: &String, value: &String) -> (res: bool)
    ensures
        res == pairs_view(seen@).contains((pid@, value@)),
{
    let ghost sv = pairs_view(seen@);
    let mut i: usize = 0;
    while i < seen.len()
        invariant
            sv == pairs_view(seen@),
            i <= seen@.len(),
            forall|j: int| 0 <= j < i ==> sv[j] != (pid@, value@),
        decreases seen@.len() - i,
    {
        if str_eq(seen[i].0.as_str(), pid.as_str()) && str_eq(seen[i].1.as_str(), value.as_str()) {
            assert(sv[i as int] == (pid@, value@));
            return true;
        }
        i += 1;
    }
    false
}

fn apply_qualifier(quals: &mut Vec<Qualifier>, seen: &mut Vec<(String, String)>, b: &Binding)
    ensures
        (quals_view(final(quals)@), pairs_view(final(seen)@)) == with_qualifier(
            quals_view(old(quals)@),
            pairs_view(old(seen)@),
            *b,
        ),
{
    match (b.get("qualifierProperty"), b.get("qualifierValue")) {
        (Some(qp), Some(qv)) => {
            let qpid = last_uri_segment(qp.value.as_str());
            let raw = qv.value.clone();
            if !seen_has(seen, &qpid, &raw) {
                let label = match b.get("qualifierPropertyLabel") {
                    Some(l) => l.value.clone(),
                    None => String::new(),
                };
                let value = parse_qualifier_value(qv, b.get("qualifierValueLabel"));
                let ghost old_q = quals_view(quals@);
                let ghost old_s = pairs_view(seen@);
                seen.push((qpid.clone(), raw));
                quals.push(Qualifier { pid: qpid, label, value });
                assert(quals_view(quals@) =~= old_q.push(quals@.last()@));
                assert(pairs_view(seen@) =~= old_s.push((seen@.last().0@, seen@.last().1@)));
            }
        },
        _ => {},
    }
}

fn find_slot(slots: &Vec<StatementSlot>, uri: &str) -> (res: Option<usize>)
    ensures
        match res {
            Some(k) => slot_index(slots_view(slots@), uri@) == Some(k as int) && k < slots@.len(),
            None => slot_index(slots_view(slots@), uri@) is None,
        },
{
    let ghost sv = slots_view(slots@);
    let mut i: usize = 0;
    while i < slots.len()
        invariant
            sv == slots_view(slots@),
            i <= slots@.len(),
            forall|j: int| 0 <= j < i ==> sv[j].uri != uri@,
        decreases slots@.len() - i,
    {
        if str_eq(slots[i].uri.as_str(), uri) {
            proof { lemma_slot_index(sv, uri@, i as int); }
            return Some(i);
        }
        i += 1;
    }
    proof { lemma_slot_index_none(sv, uri@); }
    None
}

proof fn lemma_slot_index(slots: Seq<SlotV>, uri: Seq<char>, i: int)
    requires
        0 <= i < slots.len(),
        slots[i].uri == uri,
        forall|j: int| 0 <= j < i ==> slots[j].uri != uri,
    ensures
        slot_index(slots, uri) == Some(i),
    decreases i,
{
    if i > 0 {
        lemma_slot_index(slots.drop_first(), uri, i - 1);
    }
}

proof fn lemma_slot_index_none(slots: Seq<SlotV>, uri: Seq<char>)
    requires
        forall|j: int| 0 <= j < slots.len() ==> slots[j].uri != uri,
    ensures
        slot_index(slots, uri) is None,
    decreases slots.len(),
{
    if slots.len() > 0 {
        lemma_slot_index_none(slots.drop_first(), uri);
    }
}

fn find_property(props: &Vec<Property>, pid: &str) -> (res: Option<usize>)
    ensures
        match res {
            Some(k) => property_index(props_view(props@), pid@) == Some(k as int) && k < props@.len(),
            None => property_index(props_view(props@), pid@) is None,
        },
{
    let ghost pv = props_view(props@);
    let mut i: usize = 0;
    while i < props.len()
        invariant
            pv == props_view(props@),
            i <= props@.len(),
            forall|j: int| 0 <= j < i ==> pv[j].pid != pid@,
        decreases props@.len() - i,
    {
        if str_eq(props[i].pid.as_str(), pid) {
            proof { lemma_property_index(pv, pid@, i as int); }
            return Some(i);
        }
        i += 1;
    }
    proof { lemma_property_index_none(pv, pid@); }
    None
}

/// The unit, precision and qualifier of a row applied to one statement.
fn update_statement_exec(
    props: &mut Vec<Property>,
    slots: &mut Vec<StatementSlot>,
    b: &Binding,
    pi: usize,
    pos: usize,
    k: usize,
)
    requires
        pi < old(props)@.len(),
        pos < old(props)@[pi as int].statements@.len(),
        k < old(slots)@.len(),
    ensures
        props_view(final(props)@) == update_statement(
            Assembly {
                label: None,
                description: None,
                properties: props_view(old(props)@),
                slots: slots_view(old(slots)@),
                failed: false,
            },
            *b,
            pi as int,
            pos as int,
            k as int,
        ).properties,
        slots_view(final(slots)@) == update_statement(
            Assembly {
                label: None,
                description: None,
                properties: props_view(old(props)@),
                slots: slots_view(old(slots)@),
                failed: false,
            },
            *b,
            pi as int,
            pos as int,
            k as int,
        ).slots,
{
    let ghost st = Assembly {
        label: None,
        description: None,
        properties: props_view(props@),
        slots: slots_view(slots@),
        failed: false,
    };
    let ghost want = update_statement(st, *b, pi as int, pos as int, k as int);
    let ghost old_props = props@;
    let ghost old_slots = slots@;
    let mut prop = props.remove(pi);
    let mut stmt = prop.statements.remove(pos);
    let mut slot = slots.remove(k);
    let ghost old_stmt = stmt@;
    assert(old_stmt == st.properties[pi as int].statements[pos as int]);
    let value = apply_precision(apply_unit(stmt.value, b), b);
    stmt.value = value;
    apply_qualifier(&mut stmt.qualifiers, &mut slot.seen, b);
    let ghost old_prop = prop@;
    prop.statements.insert(pos, stmt);
    props.insert(pi, prop);
    slots.insert(k, slot);
    proof {
        assert(props_view(props@) =~= want.properties) by {
            assert(prop.statements@.map_values(|s: Statement| s@) =~= st.properties[pi as int].statements.update(
                pos as int,
                want.properties[pi as int].statements[pos as int],
            ));
        }
        assert(slots_view(slots@) =~= want.slots);
    }
}

} // verus!

verus! {

pub open spec fn exec_assembly(
    label: Option<String>,
    description: Option<String>,
    props: Seq<Property>,
    slots: Seq<StatementSlot>,
) -> Assembly {
    Assembly {
        label: opt_view(label),
        description: opt_view(description),
        properties: props_view(props),
        slots: slots_view(slots),
        failed: false,
    }
}

/// A row naming a property and a statement folded into the item;
/// false where the row would index past the property's statements.
fn statement_row_exec(
    props: &mut Vec<Property>,
    slots: &mut Vec<StatementSlot>,
    b: &Binding,
    property: &SparqlValue,
    property_label: &SparqlValue,
    property_type: &SparqlValue,
    node: &SparqlValue,
    value: &SparqlValue,
    Ghost(label): Ghost<Option<Seq<char>>>,
    Ghost(description): Ghost<Option<Seq<char>>>,
) -> (ok: bool)
    ensures
        ({
            let want = statement_row(
                Assembly {
                    label,
                    description,
                    properties: props_view(old(props)@),
                    slots: slots_view(old(slots)@),
                    failed: false,
                },
                *b,
                *property,
                *property_label,
                *property_type,
                *node,
                *value,
            );
            &&& ok == !want.failed
            &&& ok ==> props_view(final(props)@) == want.properties && slots_view(final(slots)@)
                == want.slots && want.label == label && want.description == description
        }),
{
    let ghost st = Assembly {
        label,
        description,
        properties: props_view(props@),
        slots: slots_view(slots@),
        failed: false,
    };
    let pid = last_uri_segment(property.value.as_str());
    let pi = match find_property(props, pid.as_str()) {
        Some(i) => i,
        None => {
            let ghost before = props_view(props@);
            props.push(
                Property {
                    pid: pid.clone(),
                    label: property_label.value.clone(),
                    statements: Vec::new(),
                },
            );
            assert(props_view(props@) =~= before.push(props@.last()@));
            assert(props@.last()@.statements =~= Seq::<StatementV>::empty());
            props.len() - 1
        },
    };
    let ghost props1 = props_view(props@);
    assert(props1 == match property_index(st.properties, pid@) {
        Some(_) => st.properties,
        None => st.properties.push(
            PropertyV { pid: pid@, label: property_label.value@, statements: Seq::empty() },
        ),
    });
    match find_slot(slots, node.value.as_str()) {
        Some(k) => {
            let pos = slots[k].pos;
            if pos >= props[pi].statements.len() {
                return false;
            }
            update_statement_exec(props, slots, b, pi, pos, k);
            true
        },
        None => {
            let v = apply_image(
                parse_statement_value(
                    property_type.value.as_str(),
                    value,
                    b.get("statementValueLabel"),
                ),
                b.get("statementValueImage"),
            );
            let stmt = Statement {
                value: v,
                rank: Rank::from_label(b.get("statementRankLabel")),
                qualifiers: Vec::new(),
            };
            let ghost sv = stmt@;
            assert(sv.qualifiers =~= Seq::<QualifierV>::empty());
            let mut prop = props.remove(pi);
            let pos = prop.statements.len();
            let ghost before_stmts = prop@.statements;
            prop.statements.push(stmt);
            assert(prop@.statements =~= before_stmts.push(sv));
            props.insert(pi, prop);
            assert(props_view(props@) =~= props1.update(
                pi as int,
                PropertyV {
                    statements: props1[pi as int].statements.push(
                        new_statement(*b, *property_type, *value),
                    ),
                    ..props1[pi as int]
                },
            ));
            let k = slots.len();
            let ghost before_slots = slots_view(slots@);
            slots.push(
                StatementSlot { uri: node.value.clone(), pid, pos, seen: Vec::new() },
            );
            assert(pairs_view(slots@.last().seen@) =~= Seq::<(Seq<char>, Seq<char>)>::empty());
            assert(slots_view(slots@) =~= before_slots.push(slots@.last()@));
            update_statement_exec(props, slots, b, pi, pos, k);
            true
        },
    }
}

} // verus!

verus! {

fn keep_current(stmts: Vec<Statement>) -> (res: Vec<Statement>)
    ensures
        res@.map_values(|s: Statement| s@) == stmts@.map_values(|s: Statement| s@).filter(
            |s: StatementV| not_deprecated(s),
        ),
{
    let ghost all = stmts@.map_values(|s: Statement| s@);
    let mut res: Vec<Statement> = Vec::new();
    for s in it: stmts
        invariant
            all == it.seq().map_values(|s: Statement| s@),
            res@.map_values(|s: Statement| s@) == all.take(it.index() as int).filter(
                |s: StatementV| not_deprecated(s),
            ),
    {
        let ghost i = it.index();
        let ghost before = res@.map_values(|s: Statement| s@);
        let keep = s.rank != Rank::Deprecated;
        if keep {
            res.push(s);
            assert(res@.map_values(|s: Statement| s@) =~= before.push(all[i as int]));
        }
        proof {
            reveal_with_fuel(Seq::<_>::filter, 1);
            assert(all.take(i + 1).drop_last() =~= all.take(i as int));
        }
    }
    proof {
        assert(all.take(all.len() as int) =~= all);
    }
    res
}

fn finish(
    qid: &str,
    label: Option<String>,
    description: Option<String>,
    props: Vec<Property>,
) -> (res: WikidataItem)
    ensures
        res@ == item_of(qid@, exec_assembly(label, description, props@, Seq::empty())),
{
    let ghost all = props_view(props@);
    let ghost mapped = all.map_values(|p: PropertyV| drop_deprecated(p));
    let mut kept: Vec<Property> = Vec::new();
    for p in it: props
        invariant
            all == it.seq().map_values(|p: Property| p@),
            mapped == all.map_values(|p: PropertyV| drop_deprecated(p)),
            props_view(kept@) == mapped.take(it.index() as int).filter(|p: PropertyV| non_empty(p)),
    {
        let ghost i = it.index();
        let ghost before = props_view(kept@);
        let Property { pid, label, statements } = p;
        let statements = keep_current(statements);
        let q = Property { pid, label, statements };
        assert(q@ == mapped[i as int]);
        if q.statements.len() > 0 {
            kept.push(q);
            assert(props_view(kept@) =~= before.push(mapped[i as int]));
        }
        proof {
            reveal_with_fuel(Seq::<_>::filter, 1);
            assert(mapped.take(i + 1).drop_last() =~= mapped.take(i as int));
        }
    }
    proof {
        assert(mapped.take(mapped.len() as int) =~= mapped);
    }
    WikidataItem { qid: owned(qid), label, description, properties: kept }
}

proof fn lemma_failure_sticks(rows: Seq<Binding>, i: int, n: int)
    requires
        0 <= i <= n <= rows.len(),
        assembled(rows, i).failed,
    ensures
        assembled(rows, n).failed,
    decreases n - i,
{
    if i < n {
        lemma_failure_sticks(rows, i, n - 1);
    }
}

/// The item the rows describe, or None where a row reuses a statement
/// node under another property at a position that property does not have
/// (the point where indexing into that property's statements would fail).
pub fn try_transform(qid: &str, bindings: &[Binding]) -> (res: Option<WikidataItem>)
    requires
        rows_ok(bindings@),
    ensures
        match res {
            Some(item) => transformed(qid@, bindings@) == Some(item@),
            None => transformed(qid@, bindings@) is None,
        },
{
    let mut label: Option<String> = None;
    let mut description: Option<String> = None;
    let mut props: Vec<Property> = Vec::new();
    let mut slots: Vec<StatementSlot> = Vec::new();
    let ghost rows = bindings@;
    assert(props_view(props@) =~= Seq::<PropertyV>::empty());
    assert(slots_view(slots@) =~= Seq::<SlotV>::empty());
    for i in 0..bindings.len()
        invariant
            rows == bindings@,
            exec_assembly(label, description, props@, slots@) == assembled(rows, i as int),
    {
        let b = &bindings[i];
        let ghost st = assembled(rows, i as int);
        if label.is_none() {
            label = match b.get("itemLabel") {
                Some(l) => Some(l.value.clone()),
                None => None,
            };
        }
        if description.is_none() {
            description = match b.get("itemDescription") {
                Some(d) => Some(d.value.clone()),
                None => None,
            };
        }
        assert(opt_view(label) == keep_first(st.label, b.spec_get("itemLabel"@)));
        assert(opt_view(description) == keep_first(st.description, b.spec_get("itemDescription"@)));
        match (
            b.get("property"),
            b.get("propertyLabel"),
            b.get("propertyType"),
            b.get("statement"),
            b.get("statementValue"),
        ) {
            (Some(p), Some(pl), Some(pt), Some(n), Some(v)) => {
                let ok = statement_row_exec(
                    &mut props,
                    &mut slots,
                    b,
                    p,
                    pl,
                    pt,
                    n,
                    v,
                    Ghost(opt_view(label)),
                    Ghost(opt_view(description)),
                );
                if !ok {
                    proof {
                        lemma_failure_sticks(rows, i as int + 1, rows.len() as int);
                    }
                    return None;
                }
            },
            _ => {},
        }
    }
    Some(finish(qid, label, description, props))
}

/// Whether `transform` accepts the rows: no row reuses a statement node
/// under another property at a position that property does not have.
pub open spec fn transformable(qid: Seq<char>, rows: Seq<Binding>) -> bool {
    transformed(qid, rows) is Some
}

/// The item the rows describe: one property per PID and one statement per
/// statement node, both in first-seen order, deprecated statements dropped.
pub fn transform(qid: &str, bindings: &[Binding]) -> (res: WikidataItem)
    requires
        rows_ok(bindings@),
        transformable(qid@, bindings@),
    ensures
        transformed(qid@, bindings@) == Some(res@),
{
    match try_transform(qid, bindings) {
        Some(item) => item,
        None => {
            assert(false);
            WikidataItem { qid: owned(qid), label: None, description: None, properties: Vec::new() }
        },
    }
}

} // verus!

verus! {

pub proof fn lemma_filter_all<A>(s: Seq<A>, pred: spec_fn(A) -> bool, q: spec_fn(A) -> bool)
    requires
        forall|i: int| 0 <= i < s.len() ==> q(#[trigger] s[i]),
    ensures
        forall|i: int| 0 <= i < s.filter(pred).len() ==> q(#[trigger] s.filter(pred)[i]),
    decreases s.len(),
{
    reveal(Seq::filter);
    if s.len() > 0 {
        assert forall|i: int| 0 <= i < s.drop_last().len() implies q(#[trigger] s.drop_last()[i]) by {
            assert(s.drop_last()[i] == s[i]);
        }
        lemma_filter_all(s.drop_last(), pred, q);
        let f = s.drop_last().filter(pred);
        assert(q(s[s.len() - 1]));
        if pred(s.last()) {
            assert forall|i: int| 0 <= i < f.push(s.last()).len() implies q(#[trigger] f.push(s.last())[i]) by {
                if i < f.len() {
                    assert(f.push(s.last())[i] == f[i]);
                }
            }
        }
    }
}

/// Two property lists with the same PIDs position by position.
pub open spec fn same_pids(a: Seq<PropertyV>, b: Seq<PropertyV>) -> bool {
    a.len() == b.len() && forall|i: int| 0 <= i < a.len() ==> (#[trigger] a[i]).pid == b[i].pid
}

proof fn lemma_same_pids_distinct(a: Seq<PropertyV>, b: Seq<PropertyV>)
    requires
        same_pids(a, b),
        distinct_pids(a),
    ensures
        distinct_pids(b),
{
    assert forall|i: int, j: int| 0 <= i < j < b.len() implies (#[trigger] b[i]).pid != (#[trigger] b[j]).pid by {
        assert(a[i].pid == b[i].pid);
        assert(a[j].pid == b[j].pid);
    }
}

proof fn lemma_update_keeps_pids(st: Assembly, b: Binding, pi: int, pos: int, k: int)
    requires
        0 <= pi < st.properties.len(),
    ensures
        same_pids(st.properties, update_statement(st, b, pi, pos, k).properties),
{
    let r = update_statement(st, b, pi, pos, k).properties;
    assert forall|i: int| 0 <= i < st.properties.len() implies (#[trigger] st.properties[i]).pid == r[i].pid by {
        if i != pi {
            assert(r[i] == st.properties[i]);
        }
    }
}

proof fn lemma_step_distinct(st: Assembly, b: Binding)
    requires
        distinct_pids(st.properties),
    ensures
        distinct_pids(step(st, b).properties),
{
    if !st.failed {
        let st1 = Assembly {
            label: keep_first(st.label, b.spec_get("itemLabel"@)),
            description: keep_first(st.description, b.spec_get("itemDescription"@)),
            ..st
        };
        match (
            b.spec_get("property"@),
            b.spec_get("propertyLabel"@),
            b.spec_get("propertyType"@),
            b.spec_get("statement"@),
            b.spec_get("statementValue"@),
        ) {
            (Some(p), Some(pl), Some(pt), Some(n), Some(v)) => {
                let pid = uri_segment(p.value@);
                lemma_property_index_bounds(st1.properties, pid);
                let props1 = match property_index(st1.properties, pid) {
                    Some(_) => st1.properties,
                    None => st1.properties.push(
                        PropertyV { pid, label: pl.value@, statements: Seq::empty() },
                    ),
                };
                let pi = match property_index(st1.properties, pid) {
                    Some(i) => i,
                    None => st1.properties.len() as int,
                };
                assert(distinct_pids(props1)) by {
                    if property_index(st1.properties, pid) is None {
                        assert forall|i: int, j: int| 0 <= i < j < props1.len() implies (
                        #[trigger] props1[i]).pid != (#[trigger] props1[j]).pid by {
                            assert(props1[i] == st1.properties[i]);
                            if j < st1.properties.len() {
                                assert(props1[j] == st1.properties[j]);
                            }
                        }
                    }
                }
                assert(0 <= pi < props1.len());
                let uri = n.value@;
                match slot_index(st1.slots, uri) {
                    Some(k) => {
                        let pos = st1.slots[k].pos;
                        if pos < props1[pi].statements.len() {
                            lemma_update_keeps_pids(Assembly { properties: props1, ..st1 }, b, pi, pos, k);
                            lemma_same_pids_distinct(
                                props1,
                                update_statement(Assembly { properties: props1, ..st1 }, b, pi, pos, k).properties,
                            );
                        }
                    },
                    None => {
                        let pos = props1[pi].statements.len() as int;
                        let props2 = props1.update(
                            pi,
                            PropertyV {
                                statements: props1[pi].statements.push(new_statement(b, pt, v)),
                                ..props1[pi]
                            },
                        );
                        assert(same_pids(props1, props2)) by {
                            assert forall|i: int| 0 <= i < props1.len() implies (#[trigger] props1[i]).pid
                                == props2[i].pid by {
                                if i != pi {
                                    assert(props2[i] == props1[i]);
                                }
                            }
                        }
                        lemma_same_pids_distinct(props1, props2);
                        let slots = st1.slots.push(SlotV { uri, pid, pos, seen: Seq::empty() });
                        let st2 = Assembly { properties: props2, slots, ..st1 };
                        lemma_update_keeps_pids(st2, b, pi, pos, st1.slots.len() as int);
                        lemma_same_pids_distinct(
                            props2,
                            update_statement(st2, b, pi, pos, st1.slots.len() as int).properties,
                        );
                    },
                }
            },
            _ => {},
        }
    }
}

proof fn lemma_assembled_distinct(rows: Seq<Binding>, n: int)
    ensures
        distinct_pids(assembled(rows, n).properties),
    decreases n,
{
    if n > 0 {
        lemma_assembled_distinct(rows, n - 1);
        lemma_step_distinct(assembled(rows, n - 1), rows[n - 1]);
    }
}

proof fn lemma_filter_distinct(s: Seq<PropertyV>, pred: spec_fn(PropertyV) -> bool)
    requires
        distinct_pids(s),
    ensures
        distinct_pids(s.filter(pred)),
    decreases s.len(),
{
    reveal(Seq::filter);
    if s.len() > 0 {
        let d = s.drop_last();
        assert(distinct_pids(d)) by {
            assert forall|i: int, j: int| 0 <= i < j < d.len() implies (#[trigger] d[i]).pid != (
            #[trigger] d[j]).pid by {
                assert(d[i] == s[i] && d[j] == s[j]);
            }
        }
        lemma_filter_distinct(d, pred);
        let f = d.filter(pred);
        if pred(s.last()) {
            let l = s.last();
            assert forall|i: int, j: int| 0 <= i < j < f.push(l).len() implies (#[trigger] f.push(
                l,
            )[i]).pid != (#[trigger] f.push(l)[j]).pid by {
                assert(f.push(l)[i] == f[i]);
                if j < f.len() {
                    assert(f.push(l)[j] == f[j]);
                } else {
                    assert(f.contains(f[i]));
                    d.lemma_filter_contains_rev(pred, f[i]);
                    assert(d.contains(f[i]));
                    let k = choose|k: int| 0 <= k < d.len() && d[k] == f[i];
                    assert(s[k] == d[k]);
                    assert(s[s.len() - 1] == l);
                }
            }
        }
    }
}

/// A transformed item holds each PID once, no deprecated statement and
/// no property without statements.
pub proof fn transform_keeps_no_deprecated(qid: Seq<char>, rows: Seq<Binding>)
    ensures
        match transformed(qid, rows) {
            Some(item) => distinct_pids(item.properties) && forall|i: int|
                0 <= i < item.properties.len() ==> (#[trigger] item.properties[i]).statements.len() > 0
                    && forall|j: int|
                    0 <= j < item.properties[i].statements.len() ==> (
                    #[trigger] item.properties[i].statements[j]).rank != Rank::Deprecated,
            None => true,
        },
{
    broadcast use vstd::seq_lib::group_filter_ensures;

    let st = assembled(rows, rows.len() as int);
    if !st.failed {
        let mapped = st.properties.map_values(|p: PropertyV| drop_deprecated(p));
        lemma_assembled_distinct(rows, rows.len() as int);
        lemma_same_pids_distinct(st.properties, mapped);
        lemma_filter_distinct(mapped, |p: PropertyV| non_empty(p));
        let clean = |p: PropertyV|
            forall|j: int| 0 <= j < p.statements.len() ==> (#[trigger] p.statements[j]).rank != Rank::Deprecated;
        assert forall|i: int| 0 <= i < mapped.len() implies clean(#[trigger] mapped[i]) by {
            let ss = st.properties[i].statements;
            assert(mapped[i].statements == ss.filter(|s: StatementV| not_deprecated(s)));
            assert forall|j: int| 0 <= j < mapped[i].statements.len() implies (
            #[trigger] mapped[i].statements[j]).rank != Rank::Deprecated by {
                ss.lemma_filter_pred(|s: StatementV| not_deprecated(s), j);
            }
        }
        lemma_filter_all(mapped, |p: PropertyV| non_empty(p), clean);
        let f = mapped.filter(|p: PropertyV| non_empty(p));
        assert forall|i: int| 0 <= i < f.len() implies (#[trigger] f[i]).statements.len() > 0 && forall|j: int|
            0 <= j < f[i].statements.len() ==> (#[trigger] f[i].statements[j]).rank != Rank::Deprecated by {
            mapped.lemma_filter_pred(|p: PropertyV| non_empty(p), i);
            assert(clean(f[i]));
        }
    }
}

/// A statement's value takes the kind its property's datatype names
/// (`ontology#Kind` or bare `Kind`): a URL property gives a URL value, an
/// external identifier an identifier, a Commons file a media value and a
/// time a time, each carrying the statement value's text.
pub proof fn statement_value_follows_datatype(
    property_type: Seq<char>,
    value: SparqlValue,
    label: Option<SparqlValue>,
)
    ensures
        ({
            let seg = uri_segment(property_type);
            let v = value.value@;
            let got = statement_value(property_type, value, label);
            &&& (seg == "ontology#Url"@ || seg == "Url"@) ==> got == ValueV::Url { url: v }
            &&& (seg == "ontology#ExternalId"@ || seg == "ExternalId"@) ==> got == ValueV::ExternalId { id: v }
            &&& (seg == "ontology#GeoShape"@ || seg == "GeoShape"@) ==> got == ValueV::GeoShape { url: v }
            &&& (seg == "ontology#Time"@ || seg == "Time"@) ==> got == ValueV::Time { iso: v, precision: None }
            &&& (seg == "ontology#CommonsMedia"@ || seg == "CommonsMedia"@) ==> (got matches ValueV::CommonsMedia {
                url,
                ..
            } && url == v)
        }),
{
    reveal_strlit("ontology#");
    reveal_strlit("ontology#Url");
    reveal_strlit("Url");
    reveal_strlit("ontology#ExternalId");
    reveal_strlit("ExternalId");
    reveal_strlit("ontology#GeoShape");
    reveal_strlit("GeoShape");
    reveal_strlit("ontology#Time");
    reveal_strlit("Time");
    reveal_strlit("ontology#CommonsMedia");
    reveal_strlit("CommonsMedia");
    reveal_strlit("Quantity");
    reveal_strlit("GlobeCoordinate");
    reveal_strlit("Monolingualtext");
    reveal_strlit("WikibaseItem");
    let pre = "ontology#"@;
    assert(pre + "Url"@ =~= "ontology#Url"@);
    assert(pre + "ExternalId"@ =~= "ontology#ExternalId"@);
    assert(pre + "GeoShape"@ =~= "ontology#GeoShape"@);
    assert(pre + "Time"@ =~= "ontology#Time"@);
    assert(pre + "CommonsMedia"@ =~= "ontology#CommonsMedia"@);
    // names of equal length differ in a character
    assert("ontology#Url"@[0] != "CommonsMedia"@[0]);
    assert("GeoShape"@[0] != "Quantity"@[0]);
    assert((pre + "GeoShape"@)[9] != (pre + "Quantity"@)[9]);
}

} // verus!
