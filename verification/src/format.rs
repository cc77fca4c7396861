//! Display formatting for typed values on cards.

use vstd::prelude::*;
use vstd::string::StringSliceAdditionalSpecFns;
use vstd::utf8::{decode_utf8, encode_utf8, is_char_boundary};

use crate::model::{Value, ValueV};
use crate::text::{before_first, chars_of, find_char, owned, push_str, slice_string};

verus! {

broadcast use vstd::utf8::encode_utf8_decode_utf8, vstd::utf8::encode_utf8_valid_utf8, vstd::string::group_string_axioms;

/// Wikidata time precisions
pub const PRECISION_YEAR: u8 = 9;

pub const PRECISION_MONTH: u8 = 10;

/// The date part of an ISO timestamp: what precedes the first `T`.
pub open spec fn date_part(iso: Seq<char>) -> Seq<char> {
    before_first(iso, 'T')
}

/// The byte length a precision keeps of the date part: six bytes fewer
/// at year precision or coarser ("1899-01-01" to "1899"), three fewer at
/// month precision, all of it otherwise.
pub open spec fn time_cut(iso: Seq<char>, precision: Option<u8>) -> int {
    let n = encode_utf8(date_part(iso)).len() as int;
    match precision {
        Some(p) => if p <= PRECISION_YEAR {
            if n >= 6 { n - 6 } else { 0 }
        } else if p == PRECISION_MONTH {
            if n >= 3 { n - 3 } else { 0 }
        } else {
            n
        },
        None => n,
    }
}

/// The cut falls between two characters (slicing there does not panic).
pub open spec fn time_cuttable(iso: Seq<char>, precision: Option<u8>) -> bool {
    is_char_boundary(encode_utf8(date_part(iso)), time_cut(iso, precision))
}

/// An ISO timestamp truncated to its precision.
pub open spec fn time_text(iso: Seq<char>, precision: Option<u8>) -> Seq<char> {
    decode_utf8(encode_utf8(date_part(iso)).subrange(0, time_cut(iso, precision)))
}

/// A time that can be shown both at its own precision and as a year.
pub open spec fn time_ok(iso: Seq<char>, precision: Option<u8>) -> bool {
    time_cuttable(iso, Some(PRECISION_YEAR)) && time_cuttable(iso, precision)
}

/// An all-ASCII date part can be cut at every precision, and its text is
/// the character prefix up to the cut: the dates WDQS returns always meet
/// the slicing precondition.
pub proof fn lemma_ascii_time_text(iso: Seq<char>, precision: Option<u8>)
    requires
        vstd::utf8::is_ascii_chars(date_part(iso)),
    ensures
        time_cuttable(iso, precision),
        time_text(iso, precision) == date_part(iso).subrange(0, time_cut(iso, precision)),
        encode_utf8(date_part(iso)).len() == date_part(iso).len(),
{
    let d = date_part(iso);
    let bytes = encode_utf8(d);
    vstd::utf8::is_ascii_chars_encode_utf8(d);
    let k = time_cut(iso, precision);
    let t = d.subrange(0, k);
    assert(vstd::utf8::is_ascii_chars(t));
    vstd::utf8::is_ascii_chars_encode_utf8(t);
    assert(bytes.subrange(0, k) =~= encode_utf8(t));
    vstd::utf8::encode_utf8_valid_utf8(d);
    if k < bytes.len() {
        vstd::utf8::is_char_boundary_iff_not_is_continuation_byte(bytes, k);
        vstd::utf8::is_ascii_chars_nat_bound(d);
        assert((d[k] as u32) < 128);
    } else {
        vstd::utf8::is_char_boundary_start_end_of_seq(bytes);
    }
}

/// Truncate an ISO timestamp ("1899-01-01T00:00:00Z") to its stated
/// precision. Splitting from the right keeps negative years' sign.
pub fn format_time(iso: &str, precision: Option<u8>) -> (res: String)
    requires
        time_cuttable(iso@, precision),
    ensures
        res@ == time_text(iso@, precision),
{
    let chars = chars_of(iso);
    let date = match find_char(&chars, 'T') {
        Some(i) => slice_string(&chars, 0, i),
        None => owned(iso),
    };
    assert(date@ == date_part(iso@));
    let d = date.as_str();
    let n = d.as_bytes().len();
    assert(d@ == date_part(iso@));
    assert(n as int == encode_utf8(date_part(iso@)).len());
    let cut = match precision {
        Some(p) => if p <= PRECISION_YEAR {
            if n >= 6 { n - 6 } else { 0 }
        } else if p == PRECISION_MONTH {
            if n >= 3 { n - 3 } else { 0 }
        } else {
            n
        },
        None => n,
    };
    assert(cut == time_cut(iso@, precision));
    let (head, _) = d.split_at(cut);
    let res = owned(head);
    assert(res@ == decode_utf8(head.spec_bytes()));
    res
}

/// Card-facing value text: times truncated to precision, quantities
/// with their unit label, everything else as `display`.
pub open spec fn value_text(v: ValueV) -> Seq<char> {
    match v {
        ValueV::Time { iso, precision } => time_text(iso, precision),
        ValueV::Quantity { raw, unit_label, .. } => match unit_label {
            Some(unit) => raw + seq![' '] + unit,
            None => raw,
        },
        other => other.display(),
    }
}

/// A time value can be cut at its own precision (how it is shown).
pub open spec fn value_ok(v: ValueV) -> bool {
    match v {
        ValueV::Time { iso, precision } => time_cuttable(iso, precision),
        _ => true,
    }
}

/// A time value can be cut to its year (how dates on a time axis, spans
/// and timelines are shown).
pub open spec fn year_ok(v: ValueV) -> bool {
    match v {
        ValueV::Time { iso, .. } => time_cuttable(iso, Some(PRECISION_YEAR)),
        _ => true,
    }
}

/// The text a card shows for a value.
pub fn display_value(value: &Value) -> (res: String)
    requires
        value_ok(value@),
    ensures
        res@ == value_text(value@),
{
    match value {
        Value::Time { iso, precision } => format_time(iso.as_str(), *precision),
        Value::Quantity { raw, unit_label, .. } => match unit_label {
            Some(unit) => {
                let mut s = raw.clone();
                push_str(&mut s, " ");
                push_str(&mut s, unit.as_str());
                proof { reveal_strlit(" "); }
                assert(s@ =~= raw@ + seq![' '] + unit@);
                s
            },
            None => raw.clone(),
        },
        other => owned(other.display()),
    }
}

} // verus!

verus! {

/// Whether `format_time` can cut the timestamp at the precision.
pub fn time_fits(iso: &str, precision: Option<u8>) -> (res: bool)
    ensures
        res == time_cuttable(iso@, precision),
{
    let chars = chars_of(iso);
    let date = match find_char(&chars, 'T') {
        Some(i) => slice_string(&chars, 0, i),
        None => owned(iso),
    };
    assert(date@ == date_part(iso@));
    let d = date.as_str();
    let n = d.as_bytes().len();
    assert(n as int == encode_utf8(date_part(iso@)).len());
    let cut = match precision {
        Some(p) => if p <= PRECISION_YEAR {
            if n >= 6 { n - 6 } else { 0 }
        } else if p == PRECISION_MONTH {
            if n >= 3 { n - 3 } else { 0 }
        } else {
            n
        },
        None => n,
    };
    assert(cut == time_cut(iso@, precision));
    d.is_char_boundary(cut)
}

/// Whether a time value can be shown at its own precision.
pub fn value_fits(value: &Value) -> (res: bool)
    ensures
        res == value_ok(value@),
{
    match value {
        Value::Time { iso, precision } => time_fits(iso.as_str(), *precision),
        _ => true,
    }
}

/// Whether a time value can be cut to its year.
pub fn year_fits(value: &Value) -> (res: bool)
    ensures
        res == year_ok(value@),
{
    match value {
        Value::Time { iso, .. } => time_fits(iso.as_str(), Some(PRECISION_YEAR)),
        _ => true,
    }
}

} // verus!
