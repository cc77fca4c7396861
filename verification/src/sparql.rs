//! SPARQL query construction, the SPARQL JSON result shape, and the
//! query's input validation.

use vstd::prelude::*;

use crate::number::all_digits;
use crate::text::{chars_of, opt_view, owned, push_str, str_eq};

verus! {

pub const WIKIDATA_ENDPOINT: &'static str = "https://query.wikidata.org/sparql";

/// One term of a SPARQL JSON result row
/// (https://www.w3.org/TR/sparql11-results-json/).
#[derive(Debug)]
pub struct SparqlValue {
    pub value_type: String,
    pub value: String,
    pub datatype: Option<String>,
    pub lang: Option<String>,
}

/// One result row: variable name to term, each name at most once
/// (`names_distinct`).
#[derive(Debug)]
pub struct Binding {
    pub entries: Vec<(String, SparqlValue)>,
}

#[derive(Debug)]
pub struct SparqlResults {
    pub bindings: Vec<Binding>,
}

#[derive(Debug)]
pub struct SparqlResponse {
    pub results: SparqlResults,
}

/// The term bound to `name` in a row (the first entry with that name).
pub open spec fn entry_get(entries: Seq<(String, SparqlValue)>, name: Seq<char>) -> Option<
    SparqlValue,
>
    decreases entries.len(),
{
    if entries.len() == 0 {
        None
    } else if entries[0].0@ == name {
        Some(entries[0].1)
    } else {
        entry_get(entries.drop_first(), name)
    }
}

/// No variable name occurs twice in the row (it is a map from names to
/// terms).
pub open spec fn names_distinct(entries: Seq<(String, SparqlValue)>) -> bool {
    forall|i: int, j: int| 0 <= i < j < entries.len() ==> (#[trigger] entries[i]).0@ != (#[trigger] entries[j]).0@
}

/// Every row binds each name at most once.
pub open spec fn rows_ok(rows: Seq<Binding>) -> bool {
    forall|k: int| 0 <= k < rows.len() ==> names_distinct((#[trigger] rows[k]).entries@)
}

/// Whether every row binds each name at most once.
pub fn rows_fit(rows: &[Binding]) -> (res: bool)
    ensures
        res == rows_ok(rows@),
{
    for k in 0..rows.len()
        invariant
            forall|m: int| 0 <= m < k ==> names_distinct((#[trigger] rows@[m]).entries@),
    {
        if !rows[k].names_fit() {
            return false;
        }
    }
    true
}

impl Binding {
    pub open spec fn spec_get(&self, name: Seq<char>) -> Option<SparqlValue> {
        entry_get(self.entries@, name)
    }

    /// Whether no name occurs twice in the row.
    pub fn names_fit(&self) -> (res: bool)
        ensures
            res == names_distinct(self.entries@),
    {
        let e = &self.entries;
        for j in 0..e.len()
            invariant
                e@ == self.entries@,
                forall|a: int, b: int| 0 <= a < b < j ==> (#[trigger] e@[a]).0@ != (#[trigger] e@[b]).0@,
        {
            for i in 0..j
                invariant
                    e@ == self.entries@,
                    j < e@.len(),
                    forall|a: int| 0 <= a < i ==> (#[trigger] e@[a]).0@ != e@[j as int].0@,
            {
                if str_eq(e[i].0.as_str(), e[j].0.as_str()) {
                    assert(e@[i as int].0@ == e@[j as int].0@);
                    return false;
                }
            }
        }
        true
    }

    /// The term bound to `name` in this row.
    pub fn get(&self, name: &str) -> (res: Option<&SparqlValue>)
        ensures
            match res {
                Some(v) => self.spec_get(name@) == Some(*v),
                None => self.spec_get(name@) is None,
            },
    {
        let mut i: usize = 0;
        assert(self.entries@.skip(0) =~= self.entries@);
        while i < self.entries.len()
            invariant
                i <= self.entries@.len(),
                entry_get(self.entries@, name@) == entry_get(self.entries@.skip(i as int), name@),
            decreases self.entries@.len() - i,
        {
            let ghost rest = self.entries@.skip(i as int);
            if str_eq(self.entries[i].0.as_str(), name) {
                assert(rest[0] == self.entries@[i as int]);
                return Some(&self.entries[i].1);
            }
            assert(rest.drop_first() =~= self.entries@.skip(i as int + 1));
            i += 1;
        }
        None
    }
}

/// Errors of fetching an item. The transport and decoding variants carry
/// the message of the underlying failure.
#[derive(Debug)]
pub enum QjsonError {
    InvalidQid(String),
    InvalidLanguage(String),
    Http(String),
    WdqsStatus(u16),
    Decode(String),
}

/// A QID: `Q` followed by one or more ASCII digits.
pub open spec fn valid_qid(qid: Seq<char>) -> bool {
    qid.len() > 1 && qid[0] == 'Q' && all_digits(qid.drop_first())
}

pub open spec fn language_char(c: char) -> bool {
    ('a' <= c && c <= 'z') || ('0' <= c && c <= '9') || c == '-'
}

/// A language code: 1 to 32 characters from `a-z`, `0-9` and `-`.
pub open spec fn valid_language(language: Seq<char>) -> bool {
    0 < language.len() <= 32 && forall|i: int| 0 <= i < language.len() ==> language_char(language[i])
}

/// QIDs are interpolated into the SPARQL query, so they are validated first.
pub fn validate_qid(qid: &str) -> (res: Result<(), QjsonError>)
    ensures
        res is Ok <==> valid_qid(qid@),
        res matches Err(QjsonError::InvalidQid(s)) ==> s@ == qid@,
        res is Err ==> res matches Err(QjsonError::InvalidQid(_)),
{
    let c = chars_of(qid);
    let mut ok = c.len() > 1 && c[0] == 'Q';
    if ok {
        let mut i: usize = 1;
        while i < c.len()
            invariant
                c@ == qid@,
                1 <= i <= c@.len(),
                forall|j: int| 1 <= j < i ==> crate::text::is_digit(#[trigger] c@[j]),
            decreases c@.len() - i,
        {
            if !('0' <= c[i] && c[i] <= '9') {
                assert(!crate::text::is_digit(c@.drop_first()[i - 1]));
                return Err(QjsonError::InvalidQid(owned(qid)));
            }
            i += 1;
        }
        assert forall|j: int| 0 <= j < c@.len() - 1 implies crate::text::is_digit(
            #[trigger] c@.drop_first()[j],
        ) by {
            assert(c@.drop_first()[j] == c@[j + 1]);
        }
        ok = true;
    }
    if ok {
        Ok(())
    } else {
        Err(QjsonError::InvalidQid(owned(qid)))
    }
}

/// Language codes are interpolated into the SPARQL query, so they are
/// validated first.
pub fn validate_language(language: &str) -> (res: Result<(), QjsonError>)
    ensures
        res is Ok <==> valid_language(language@),
        res matches Err(QjsonError::InvalidLanguage(s)) ==> s@ == language@,
        res is Err ==> res matches Err(QjsonError::InvalidLanguage(_)),
{
    let c = chars_of(language);
    if c.len() == 0 || c.len() > 32 {
        return Err(QjsonError::InvalidLanguage(owned(language)));
    }
    let mut i: usize = 0;
    while i < c.len()
        invariant
            c@ == language@,
            i <= c@.len(),
            forall|j: int| 0 <= j < i ==> language_char(#[trigger] c@[j]),
        decreases c@.len() - i,
    {
        let ch = c[i];
        if !(('a' <= ch && ch <= 'z') || ('0' <= ch && ch <= '9') || ch == '-') {
            assert(!language_char(c@[i as int]));
            return Err(QjsonError::InvalidLanguage(owned(language)));
        }
        i += 1;
    }
    Ok(())
}

pub const QUERY_HEAD: &'static str = r#"
    SELECT
        ?itemLabel
        ?itemDescription
        ?property
        ?propertyLabel
        ?propertyType
        ?statement
        ?statementValue
        ?statementValueLabel
        ?statementValueImage
        ?qualifierProperty
        ?qualifierPropertyLabel
        ?qualifierValue
        ?qualifierValueLabel
        ?unitOfMeasure
        ?unitOfMeasureLabel
        ?timePrecision
        ?statementRankLabel
    WHERE {
        VALUES ?item {wd:"#;

pub const QUERY_MIDDLE: &'static str = r#"}

        ?item ?propertyPredicate ?statement .
        ?statement ?statementPropertyPredicate ?statementValue .

        ?property wikibase:claim ?propertyPredicate .
        ?property wikibase:statementProperty ?statementPropertyPredicate .
        ?property wikibase:propertyType ?propertyType .

        ?statement wikibase:rank ?statementRank .
        BIND(
            IF(?statementRank = wikibase:NormalRank, "Normal",
                IF(?statementRank = wikibase:PreferredRank, "Preferred",
                    IF(?statementRank = wikibase:DeprecatedRank, "Deprecated", "Unknown")
                )
            ) AS ?statementRankLabel
        )

        OPTIONAL {
            ?statementValue wdt:P18 ?statementValueImage .
        }

        OPTIONAL {
            ?statement ?qualifierPredicate ?qualifierValue .
            ?qualifierProperty wikibase:qualifier ?qualifierPredicate .
        }

        ?property wikibase:statementValue ?statementValueNodePredicate .
        OPTIONAL {
            ?statement ?statementValueNodePredicate ?valueNode .
            ?valueNode wikibase:quantityUnit ?unitOfMeasure .
        }
        OPTIONAL {
            ?statement ?statementValueNodePredicate ?timeValueNode .
            ?timeValueNode wikibase:timePrecision ?timePrecision .
        }

        SERVICE wikibase:label {
            bd:serviceParam wikibase:language ""#;

pub const QUERY_TAIL: &'static str = r#", mul, en" .
            ?item rdfs:label ?itemLabel .
            ?item schema:description ?itemDescription .
            ?property rdfs:label ?propertyLabel .
            ?statementValue rdfs:label ?statementValueLabel .
            ?qualifierProperty rdfs:label ?qualifierPropertyLabel .
            ?qualifierValue rdfs:label ?qualifierValueLabel .
            ?unitOfMeasure rdfs:label ?unitOfMeasureLabel .
        }
    }
    ORDER BY ?property ?statement ?qualifierProperty ?qualifierValue
    "#;

/// The query text for an item in a language.
pub open spec fn query_text(qid: Seq<char>, language: Seq<char>) -> Seq<char> {
    QUERY_HEAD@ + qid + QUERY_MIDDLE@ + language + QUERY_TAIL@
}

/// One query fetches every statement of the item with labels resolved by
/// the label service, falling back through `{language}, mul, en`.
pub fn build_query(qid: &str, language: &str) -> (res: String)
    ensures
        res@ == query_text(qid@, language@),
{
    let mut q = owned(QUERY_HEAD);
    push_str(&mut q, qid);
    push_str(&mut q, QUERY_MIDDLE);
    push_str(&mut q, language);
    push_str(&mut q, QUERY_TAIL);
    q
}

/// The query to send for an item, or why none may be sent: both inputs
/// are validated before they are interpolated.
pub fn query_for(qid: &str, language: &str) -> (res: Result<String, QjsonError>)
    ensures
        match res {
            Ok(q) => valid_qid(qid@) && valid_language(language@) && q@ == query_text(qid@, language@),
            Err(QjsonError::InvalidQid(s)) => !valid_qid(qid@) && s@ == qid@,
            Err(QjsonError::InvalidLanguage(s)) => valid_qid(qid@) && !valid_language(language@) && s@
                == language@,
            Err(_) => false,
        },
{
    validate_qid(qid)?;
    validate_language(language)?;
    Ok(build_query(qid, language))
}

/// Cache key of a transformed item: `qjson:{qid}:{language}`.
pub fn cache_key(qid: &str, language: &str) -> (res: String)
    ensures
        res@ == "qjson:"@ + qid@ + ":"@ + language@,
{
    let mut k = owned("qjson:");
    push_str(&mut k, qid);
    push_str(&mut k, ":");
    push_str(&mut k, language);
    k
}

/// HTTP status the web service answers a failed fetch with: invalid input
/// is the client's fault (400), anything else the query service's (502).
pub fn error_status(error: &QjsonError) -> (res: u16)
    ensures
        res == (match error {
            QjsonError::InvalidQid(_) | QjsonError::InvalidLanguage(_) => 400u16,
            _ => 502u16,
        }),
{
    match error {
        QjsonError::InvalidQid(_) | QjsonError::InvalidLanguage(_) => 400,
        _ => 502,
    }
}

} // verus!

verus! {

impl QjsonError {
    pub open spec fn text(&self) -> Seq<char> {
        match self {
            QjsonError::InvalidQid(q) => "invalid QID: "@ + q@,
            QjsonError::InvalidLanguage(l) => "invalid language code: "@ + l@,
            QjsonError::Http(m) => "WDQS request failed: "@ + m@,
            QjsonError::WdqsStatus(s) => "WDQS returned HTTP "@ + crate::number::decimal(*s as nat),
            QjsonError::Decode(m) => "failed to decode SPARQL response: "@ + m@,
        }
    }

    /// The error as a sentence, as the service answers it.
    pub fn message(&self) -> (res: String)
        ensures
            res@ == self.text(),
    {
        let (head, tail) = match self {
            QjsonError::InvalidQid(q) => ("invalid QID: ", q.clone()),
            QjsonError::InvalidLanguage(l) => ("invalid language code: ", l.clone()),
            QjsonError::Http(m) => ("WDQS request failed: ", m.clone()),
            QjsonError::WdqsStatus(s) => ("WDQS returned HTTP ", crate::number::usize_text(*s as usize)),
            QjsonError::Decode(m) => ("failed to decode SPARQL response: ", m.clone()),
        };
        let mut out = owned(head);
        push_str(&mut out, tail.as_str());
        out
    }
}

} // verus!

verus! {

/// WDQS answers with results only on success (a 2xx status); any other
/// status is an error carrying it.
pub fn check_status(status: u16) -> (res: Result<(), QjsonError>)
    ensures
        200 <= status < 300 ==> res is Ok,
        !(200 <= status < 300) ==> (res matches Err(QjsonError::WdqsStatus(s)) && s == status),
{
    if 200 <= status && status < 300 {
        Ok(())
    } else {
        Err(QjsonError::WdqsStatus(status))
    }
}

} // verus!
