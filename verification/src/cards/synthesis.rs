//! Build cards from a typed item, driven by the grouping config and the
//! values' own types: images become Image/Gallery cards, coordinates map
//! cards, quantity series chart cards, item references chip rows; what
//! remains becomes labeled fact rows.

use vstd::prelude::*;

use crate::cards::{
    base_card, new_card, single_pid, Card, CardKind, CardKindV, CardV, FactRow, FactRowV,
    FactValue, FactValueV, GalleryImage, GalleryImageV, ItemChip, ItemChipV, MediaKind,
    TemporalSpan, TemporalSpanV,
};
use crate::cards::quantities::{as_meter, as_quantity_card, is_temporal, meter_card, quantity_card};
use crate::grouping::GroupingConfig;
use crate::format::{
    display_value, format_time, time_ok, time_text, value_ok, value_text, year_ok, PRECISION_YEAR,
};
use crate::model::{ItemV, Property, PropertyV, QualifierV, Rank, Statement, StatementV, Value, ValueV};
use crate::number::{decimal, lower, usize_text};
use crate::sort::{lemma_sorted_map, sort_by, sorted_by};
use crate::percent::{encode_file_segment, segment_encoded};
use crate::text::{
    after_last, after_last_char, chars_of, contains_str, copy_opt, join, join_strings, opt_view,
    owned, push_str, slice_string, str_eq, str_less, string_from, strs_view, text_less,
};
use crate::transform::{find_seq, find_text};

verus! {

pub const THUMB_WIDTH: usize = 640;

/// 2x for the 48px chip thumb
pub const CHIP_THUMB_WIDTH: usize = 96;

pub const FILE_PATH_URL: &'static str = "https://commons.wikimedia.org/wiki/Special:FilePath/";

pub const FILE_PAGE_URL: &'static str = "https://commons.wikimedia.org/wiki/File:";

/// `s` with the first occurrence of `from` replaced by `to`.
pub open spec fn replace_first(s: Seq<char>, from: Seq<char>, to: Seq<char>) -> Seq<char> {
    match find_seq(s, from) {
        Some(i) => s.subrange(0, i) + to + s.subrange(i + from.len(), s.len() as int),
        None => s,
    }
}

/// A Commons thumbnail URL: the image URL made https, with a width.
pub open spec fn thumb_text(image_url: Seq<char>, width: nat) -> Seq<char> {
    replace_first(image_url, "http://"@, "https://"@) + "?width="@ + decimal(width)
}

/// A thumbnail of `image_url` at `width` pixels.
pub fn thumb_url(image_url: &str, width: usize) -> (res: String)
    ensures
        res@ == thumb_text(image_url@, width as nat),
{
    let c = chars_of(image_url);
    let n = c.len();
    proof { reveal_strlit("http://"); }
    let mut res = match find_text(&c, "http://") {
        Some(i) => {
            assert(i + 7 <= n);
            let mut s = slice_string(&c, 0, i);
            push_str(&mut s, "https://");
            let rest = slice_string(&c, i + 7, n);
            push_str(&mut s, rest.as_str());
            s
        },
        None => owned(image_url),
    };
    push_str(&mut res, "?width=");
    let w = usize_text(width);
    push_str(&mut res, w.as_str());
    res
}

/// A chip-sized thumbnail (image_url arrives as an http FilePath URL).
pub fn chip_thumb_url(image_url: &str) -> (res: String)
    ensures
        res@ == thumb_text(image_url@, CHIP_THUMB_WIDTH as nat),
{
    thumb_url(image_url, CHIP_THUMB_WIDTH)
}

pub open spec fn is_audio_extension(e: Seq<char>) -> bool {
    e == "ogg"@ || e == "oga"@ || e == "opus"@ || e == "mp3"@ || e == "flac"@ || e == "wav"@ || e
        == "mid"@
}

pub open spec fn is_video_extension(e: Seq<char>) -> bool {
    e == "webm"@ || e == "ogv"@ || e == "mpg"@ || e == "mpeg"@
}

/// Audio and video are told apart by the file extension.
pub open spec fn media_of(file_name: Seq<char>) -> MediaKind {
    let e = lower(after_last(file_name, '.'));
    if is_audio_extension(e) {
        MediaKind::Audio
    } else if is_video_extension(e) {
        MediaKind::Video
    } else {
        MediaKind::Image
    }
}

fn lowered(s: &str) -> (res: String)
    ensures
        res@ == lower(s@),
{
    let c = chars_of(s);
    let mut out: Vec<char> = Vec::new();
    for i in 0..c.len()
        invariant
            out@ == lower(c@.take(i as int)),
    {
        let ch = c[i];
        let d = if 'A' <= ch && ch <= 'Z' {
            (((ch as u32) + 32) as u8) as char
        } else {
            ch
        };
        out.push(d);
        assert(lower(c@.take(i as int + 1)) =~= lower(c@.take(i as int)).push(
            crate::number::ascii_lower(c@[i as int]),
        ));
    }
    assert(c@.take(c@.len() as int) =~= c@);
    string_from(&out)
}

pub fn media_kind(file_name: &str) -> (res: MediaKind)
    ensures
        res == media_of(file_name@),
{
    let ext = lowered(after_last_char(file_name, '.').as_str());
    let e = ext.as_str();
    if str_eq(e, "ogg") || str_eq(e, "oga") || str_eq(e, "opus") || str_eq(e, "mp3") || str_eq(
        e,
        "flac",
    ) || str_eq(e, "wav") || str_eq(e, "mid") {
        MediaKind::Audio
    } else if str_eq(e, "webm") || str_eq(e, "ogv") || str_eq(e, "mpg") || str_eq(e, "mpeg") {
        MediaKind::Video
    } else {
        MediaKind::Image
    }
}

/// The card image of a Commons file: 640px thumbnail, direct file URL,
/// and file description page.
pub open spec fn gallery_image_of(file_name: Seq<char>, caption: Seq<char>) -> GalleryImageV {
    let encoded = segment_encoded(file_name);
    GalleryImageV {
        file_name,
        thumb_url: FILE_PATH_URL@ + encoded + "?width="@ + decimal(THUMB_WIDTH as nat),
        file_url: FILE_PATH_URL@ + encoded,
        page_url: FILE_PAGE_URL@ + encoded,
        caption,
        media: media_of(file_name),
    }
}

pub fn gallery_image(file_name: &str, caption: &str) -> (res: GalleryImage)
    ensures
        res@ == gallery_image_of(file_name@, caption@),
{
    let encoded = encode_file_segment(file_name);
    let mut file_url = owned(FILE_PATH_URL);
    push_str(&mut file_url, encoded.as_str());
    let mut thumb = file_url.clone();
    push_str(&mut thumb, "?width=");
    let w = usize_text(THUMB_WIDTH);
    push_str(&mut thumb, w.as_str());
    let mut page_url = owned(FILE_PAGE_URL);
    push_str(&mut page_url, encoded.as_str());
    GalleryImage {
        file_name: owned(file_name),
        thumb_url: thumb,
        file_url,
        page_url,
        caption: owned(caption),
        media: media_kind(file_name),
    }
}

/// A group's machine name as a title: underscores to spaces, an ASCII
/// first letter upper-cased.
pub open spec fn humanized(name: Seq<char>) -> Seq<char> {
    let t = name.map_values(|c: char| if c == '_' { ' ' } else { c });
    if t.len() > 0 && 'a' <= t[0] && t[0] <= 'z' {
        t.update(0, ((t[0] as u32) - 32) as char)
    } else {
        t
    }
}

pub fn humanize(group_name: &str) -> (res: String)
    ensures
        res@ == humanized(group_name@),
{
    let c = chars_of(group_name);
    let mut out: Vec<char> = Vec::new();
    for i in 0..c.len()
        invariant
            out@ == c@.take(i as int).map_values(|c: char| if c == '_' { ' ' } else { c }),
    {
        let ch = c[i];
        out.push(if ch == '_' { ' ' } else { ch });
        assert(out@ =~= c@.take(i as int + 1).map_values(|c: char| if c == '_' { ' ' } else { c }));
    }
    assert(c@.take(c@.len() as int) =~= c@);
    if out.len() > 0 && 'a' <= out[0] && out[0] <= 'z' {
        let up = (((out[0] as u32) - 32) as u8) as char;
        out.set(0, up);
    }
    string_from(&out)
}

} // verus!

verus! {

pub const POINT_IN_TIME: &'static str = "P585";

pub const START_TIME: &'static str = "P580";

pub const END_TIME: &'static str = "P582";

/// A qualifier's time can be shown at its own precision and, for a start,
/// end or point-in-time qualifier, as its year.
pub open spec fn qualifier_ok(q: QualifierV) -> bool {
    value_ok(q.value) && (is_temporal(q.pid) ==> year_ok(q.value))
}

/// Every time in the statement can be shown where cards show it: its
/// value at its own precision, its qualifiers as `qualifier_ok` says.
pub open spec fn statement_ok(s: StatementV) -> bool {
    value_ok(s.value) && forall|i: int| 0 <= i < s.qualifiers.len() ==> qualifier_ok(#[trigger] s.qualifiers[i])
}

pub open spec fn property_ok(p: PropertyV) -> bool {
    forall|i: int| 0 <= i < p.statements.len() ==> statement_ok(#[trigger] p.statements[i])
}

/// The ISO time and precision of the first point-in-time qualifier.
pub open spec fn point_time(quals: Seq<QualifierV>) -> Option<(Seq<char>, Option<u8>)>
    decreases quals.len(),
{
    if quals.len() == 0 {
        None
    } else {
        match quals[0].value {
            ValueV::Time { iso, precision } => if quals[0].pid == POINT_IN_TIME@ {
                Some((iso, precision))
            } else {
                point_time(quals.drop_first())
            },
            _ => point_time(quals.drop_first()),
        }
    }
}

/// The ISO time of the first start-time qualifier, empty without one.
pub open spec fn start_iso(quals: Seq<QualifierV>) -> Seq<char>
    decreases quals.len(),
{
    if quals.len() == 0 {
        Seq::empty()
    } else {
        match quals[0].value {
            ValueV::Time { iso, .. } => if quals[0].pid == START_TIME@ {
                iso
            } else {
                start_iso(quals.drop_first())
            },
            _ => start_iso(quals.drop_first()),
        }
    }
}

/// Some qualifier records an end time.
pub open spec fn has_end(quals: Seq<QualifierV>) -> bool {
    exists|i: int| 0 <= i < quals.len() && #[trigger] quals[i].pid == END_TIME@
}

pub proof fn lemma_point_time_ok(quals: Seq<QualifierV>)
    requires
        forall|i: int| 0 <= i < quals.len() ==> qualifier_ok(#[trigger] quals[i]),
    ensures
        match point_time(quals) {
            Some((iso, p)) => time_ok(iso, p),
            None => true,
        },
    decreases quals.len(),
{
    if quals.len() > 0 {
        assert(qualifier_ok(quals[0]));
        assert forall|i: int| 0 <= i < quals.drop_first().len() implies qualifier_ok(
            #[trigger] quals.drop_first()[i],
        ) by {
            assert(quals.drop_first()[i] == quals[i + 1]);
        }
        lemma_point_time_ok(quals.drop_first());
    }
}

/// The statement's point in time, from its first point-in-time qualifier.
pub fn statement_time(statement: &Statement) -> (res: Option<(String, Option<u8>)>)
    ensures
        match res {
            Some((iso, p)) => point_time(statement@.qualifiers) == Some((iso@, p)),
            None => point_time(statement@.qualifiers) is None,
        },
{
    let ghost q = statement@.qualifiers;
    let mut i: usize = 0;
    assert(q.skip(0) =~= q);
    while i < statement.qualifiers.len()
        invariant
            q == statement@.qualifiers,
            i <= q.len(),
            point_time(q) == point_time(q.skip(i as int)),
        decreases q.len() - i,
    {
        let qual = &statement.qualifiers[i];
        assert(q.skip(i as int)[0] == qual@);
        assert(q.skip(i as int).drop_first() =~= q.skip(i as int + 1));
        match &qual.value {
            Value::Time { iso, precision } => {
                if str_eq(qual.pid.as_str(), POINT_IN_TIME) {
                    return Some((iso.clone(), *precision));
                }
            },
            _ => {},
        }
        i += 1;
    }
    None
}

fn start_time(statement: &Statement) -> (res: String)
    ensures
        res@ == start_iso(statement@.qualifiers),
{
    let ghost q = statement@.qualifiers;
    let mut i: usize = 0;
    assert(q.skip(0) =~= q);
    while i < statement.qualifiers.len()
        invariant
            q == statement@.qualifiers,
            i <= q.len(),
            start_iso(q) == start_iso(q.skip(i as int)),
        decreases q.len() - i,
    {
        let qual = &statement.qualifiers[i];
        assert(q.skip(i as int)[0] == qual@);
        assert(q.skip(i as int).drop_first() =~= q.skip(i as int + 1));
        match &qual.value {
            Value::Time { iso, .. } => {
                if str_eq(qual.pid.as_str(), START_TIME) {
                    return iso.clone();
                }
            },
            _ => {},
        }
        i += 1;
    }
    String::new()
}

fn ended(statement: &Statement) -> (res: bool)
    ensures
        res == has_end(statement@.qualifiers),
{
    let ghost q = statement@.qualifiers;
    for i in 0..statement.qualifiers.len()
        invariant
            q == statement@.qualifiers,
            forall|j: int| 0 <= j < i ==> #[trigger] q[j].pid != END_TIME@,
    {
        assert(q[i as int] == statement.qualifiers@[i as int]@);
        if str_eq(statement.qualifiers[i].pid.as_str(), END_TIME) {
            assert(q[i as int].pid == END_TIME@);
            return true;
        }
    }
    false
}

/// Display order key: what holds now first (preferred rank, then no end
/// time), then history by start time.
pub open spec fn statement_before(a: StatementV, b: StatementV) -> bool {
    let (a0, a1, a2) = (a.rank != Rank::Preferred, has_end(a.qualifiers), start_iso(a.qualifiers));
    let (b0, b1, b2) = (b.rank != Rank::Preferred, has_end(b.qualifiers), start_iso(b.qualifiers));
    (!a0 && b0) || (a0 == b0 && ((!a1 && b1) || (a1 == b1 && text_less(a2, b2))))
}

pub open spec fn ordered(p: PropertyV) -> Seq<StatementV> {
    sorted_by(p.statements, |a: StatementV, b: StatementV| statement_before(a, b))
}

fn statement_less(a: &&Statement, b: &&Statement) -> (res: bool)
    ensures
        res == statement_before(a@, b@),
{
    let a0 = a.rank != Rank::Preferred;
    let b0 = b.rank != Rank::Preferred;
    let a1 = ended(a);
    let b1 = ended(b);
    let a2 = start_time(a);
    let b2 = start_time(b);
    (!a0 && b0) || (a0 == b0 && ((!a1 && b1) || (a1 == b1 && str_less(a2.as_str(), b2.as_str()))))
}

/// Display order for a property's statements: what holds now first
/// (preferred rank, then statements without an end time), then history
/// chronologically by start time.
pub fn ordered_statements(property: &Property) -> (res: Vec<&Statement>)
    ensures
        res@.map_values(|s: &Statement| s@) == ordered(property@),
{
    let mut refs: Vec<&Statement> = Vec::new();
    for i in 0..property.statements.len()
        invariant
            refs@.map_values(|s: &Statement| s@) == property@.statements.take(i as int),
    {
        let ghost prev = refs@.map_values(|s: &Statement| s@);
        refs.push(&property.statements[i]);
        assert(refs@.map_values(|s: &Statement| s@) =~= prev.push(property.statements@[i as int]@));
        assert(property@.statements.take(i as int + 1) =~= property@.statements.take(i as int).push(
            property.statements@[i as int]@,
        ));
    }
    assert(property@.statements.take(property.statements.len() as int) =~= property@.statements);
    let ghost before = refs@;
    let sorted = sort_by(
        refs,
        statement_less,
        Ghost(|a: &Statement, b: &Statement| statement_before(a@, b@)),
    );
    proof {
        lemma_sorted_map(
            before,
            |s: &Statement| s@,
            |a: &Statement, b: &Statement| statement_before(a@, b@),
            |a: StatementV, b: StatementV| statement_before(a, b),
        );
    }
    sorted
}

/// The first occurrence of each PID, in order.
pub open spec fn dedup(s: Seq<Seq<char>>) -> Seq<Seq<char>>
    decreases s.len(),
{
    if s.len() == 0 {
        s
    } else {
        let d = dedup(s.drop_last());
        if d.contains(s.last()) {
            d
        } else {
            d.push(s.last())
        }
    }
}

pub fn dedup_pids(pids: Vec<String>) -> (res: Vec<String>)
    ensures
        strs_view(res@) == dedup(strs_view(pids@)),
{
    let ghost all = strs_view(pids@);
    let mut res: Vec<String> = Vec::new();
    for i in 0..pids.len()
        invariant
            all == strs_view(pids@),
            strs_view(res@) == dedup(all.take(i as int)),
    {
        assert(all.take(i as int + 1).drop_last() =~= all.take(i as int));
        assert(all.take(i as int + 1).last() == pids@[i as int]@);
        if !contains_str(&res, pids[i].as_str()) {
            let ghost prev = strs_view(res@);
            res.push(pids[i].clone());
            assert(strs_view(res@) =~= prev.push(pids@[i as int]@));
        }
    }
    assert(all.take(pids.len() as int) =~= all);
    res
}

} // verus!

verus! {

/// Temporal qualifiers read so far, and notes for the rest.
pub struct Context {
    pub start: Option<Seq<char>>,
    pub end: Option<Seq<char>>,
    pub point: Option<Seq<char>>,
    pub notes: Seq<Seq<char>>,
}

/// A qualifier as prose: "label: value".
pub open spec fn qualifier_note(q: QualifierV) -> Seq<char> {
    q.label + ": "@ + value_text(q.value)
}

pub open spec fn year_of(v: ValueV) -> Option<Seq<char>> {
    match v {
        ValueV::Time { iso, .. } => Some(time_text(iso, Some(PRECISION_YEAR))),
        _ => None,
    }
}

/// A start, end or point-in-time qualifier fills its slot once, as a
/// year; a second one, or one without a time, becomes a note.
pub open spec fn context_step(c: Context, q: QualifierV) -> Context {
    let year = year_of(q.value);
    let note = Context { notes: c.notes.push(qualifier_note(q)), ..c };
    if q.pid == START_TIME@ {
        if year is Some && c.start is None { Context { start: year, ..c } } else { note }
    } else if q.pid == END_TIME@ {
        if year is Some && c.end is None { Context { end: year, ..c } } else { note }
    } else if q.pid == POINT_IN_TIME@ {
        if year is Some && c.point is None { Context { point: year, ..c } } else { note }
    } else {
        note
    }
}

pub open spec fn context_of(quals: Seq<QualifierV>) -> Context
    decreases quals.len(),
{
    if quals.len() == 0 {
        Context { start: None, end: None, point: None, notes: Seq::empty() }
    } else {
        context_step(context_of(quals.drop_last()), quals.last())
    }
}

/// The statement's temporal span, when any temporal slot is filled.
pub open spec fn span_of(quals: Seq<QualifierV>) -> Option<TemporalSpanV> {
    let c = context_of(quals);
    if c.start is Some || c.end is Some || c.point is Some {
        Some(TemporalSpanV { start: c.start, end: c.end, point: c.point })
    } else {
        None
    }
}

/// The remaining qualifiers as one note, joined with ", ".
pub open spec fn note_of(quals: Seq<QualifierV>) -> Option<Seq<char>> {
    let c = context_of(quals);
    if c.notes.len() == 0 {
        None
    } else {
        Some(join(c.notes, ", "@))
    }
}

fn span_view(start: &Option<String>, end: &Option<String>, point: &Option<String>) -> (res: Option<TemporalSpan>)
    ensures
        match res {
            Some(s) => (start.is_some() || end.is_some() || point.is_some()) && s@ == TemporalSpanV {
                start: opt_view(*start),
                end: opt_view(*end),
                point: opt_view(*point),
            },
            None => !(start.is_some() || end.is_some() || point.is_some()),
        },
{
    if start.is_some() || end.is_some() || point.is_some() {
        Some(TemporalSpan { start: copy_opt(start), end: copy_opt(end), point: copy_opt(point) })
    } else {
        None
    }
}

/// Typed context from a statement's qualifiers: the temporal ones
/// (start/end/point in time) become a TemporalSpan at year granularity,
/// the rest a "label: value" note.
pub fn qualifier_context(statement: &Statement) -> (res: (Option<TemporalSpan>, Option<String>))
    requires
        forall|i: int| 0 <= i < statement@.qualifiers.len() ==> qualifier_ok(#[trigger] statement@.qualifiers[i]),
    ensures
        match res.0 {
            Some(s) => span_of(statement@.qualifiers) == Some(s@),
            None => span_of(statement@.qualifiers) is None,
        },
        opt_view(res.1) == note_of(statement@.qualifiers),
{
    let ghost q = statement@.qualifiers;
    let mut start: Option<String> = None;
    let mut end: Option<String> = None;
    let mut point: Option<String> = None;
    let mut notes: Vec<String> = Vec::new();
    assert(strs_view(notes@) =~= Seq::<Seq<char>>::empty());
    assert(q.take(0) =~= Seq::<QualifierV>::empty());
    for i in 0..statement.qualifiers.len()
        invariant
            q == statement@.qualifiers,
            forall|j: int| 0 <= j < q.len() ==> qualifier_ok(#[trigger] q[j]),
            context_of(q.take(i as int)) == (Context {
                start: opt_view(start),
                end: opt_view(end),
                point: opt_view(point),
                notes: strs_view(notes@),
            }),
    {
        let qual = &statement.qualifiers[i];
        assert(q[i as int] == qual@);
        assert(q.take(i as int + 1).drop_last() =~= q.take(i as int));
        assert(q.take(i as int + 1).last() == qual@);
        assert(qualifier_ok(qual@));
        let pid = qual.pid.as_str();
        let kind: u8 = if str_eq(pid, START_TIME) {
            1
        } else if str_eq(pid, END_TIME) {
            2
        } else if str_eq(pid, POINT_IN_TIME) {
            3
        } else {
            0
        };
        // only the temporal qualifiers are cut to their year
        let year = if kind == 0 {
            None
        } else {
            match &qual.value {
                Value::Time { iso, .. } => Some(format_time(iso.as_str(), Some(PRECISION_YEAR))),
                _ => None,
            }
        };
        assert(kind != 0 ==> opt_view(year) == year_of(qual@.value));
        let slot: u8 = if kind == 1 {
            if year.is_some() && start.is_none() { 1 } else { 0 }
        } else if kind == 2 {
            if year.is_some() && end.is_none() { 2 } else { 0 }
        } else if kind == 3 {
            if year.is_some() && point.is_none() { 3 } else { 0 }
        } else {
            0
        };
        if slot == 1 {
            start = year;
        } else if slot == 2 {
            end = year;
        } else if slot == 3 {
            point = year;
        } else {
            let mut note = qual.label.clone();
            push_str(&mut note, ": ");
            let shown = display_value(&qual.value);
            push_str(&mut note, shown.as_str());
            let ghost prev = strs_view(notes@);
            notes.push(note);
            assert(strs_view(notes@) =~= prev.push(qualifier_note(qual@)));
        }
    }
    assert(q.take(q.len() as int) =~= q);
    let span = span_view(&start, &end, &point);
    let note = if notes.len() == 0 {
        None
    } else {
        Some(join_strings(&notes, ", "))
    };
    (span, note)
}

} // verus!

verus! {

pub open spec fn cards_view(v: Seq<Card>) -> Seq<CardV> {
    v.map_values(|c: Card| c@)
}

pub open spec fn images_view(v: Seq<(String, GalleryImage)>) -> Seq<(Seq<char>, GalleryImageV)> {
    v.map_values(|x: (String, GalleryImage)| (x.0@, x.1@))
}

pub open spec fn rows_view(v: Seq<(String, FactRow)>) -> Seq<(Seq<char>, FactRowV)> {
    v.map_values(|x: (String, FactRow)| (x.0@, x.1@))
}

pub open spec fn values_view(v: Seq<FactValue>) -> Seq<FactValueV> {
    v.map_values(|x: FactValue| x@)
}

/// Some media statement has preferred rank: the others are superseded
/// variants (old flags, alternate crops).
pub open spec fn has_preferred_media(ss: Seq<StatementV>) -> bool {
    exists|i: int|
        0 <= i < ss.len() && (#[trigger] ss[i]).rank == Rank::Preferred && ss[i].value is CommonsMedia
}

pub open spec fn opt_thumb(image_url: Option<Seq<char>>) -> Option<Seq<char>> {
    match image_url {
        Some(u) => Some(thumb_text(u, CHIP_THUMB_WIDTH as nat)),
        None => None,
    }
}

/// Cards, images and the current property's row values, as a property's
/// statements are read.
pub type Reading = (Seq<CardV>, Seq<(Seq<char>, GalleryImageV)>, Seq<FactValueV>);

/// Media go to the images, coordinates make a map card, everything else
/// becomes a value of the property's row.
pub open spec fn statement_step(acc: Reading, p: PropertyV, pref_media: bool, s: StatementV) -> Reading {
    match s.value {
        ValueV::CommonsMedia { file_name, .. } => if pref_media && s.rank != Rank::Preferred {
            acc
        } else {
            (acc.0, acc.1.push((p.pid, gallery_image_of(file_name, p.label))), acc.2)
        },
        ValueV::Coordinate { lat, lon, .. } => (
            acc.0.push(
                base_card(
                    p.label,
                    true,
                    seq![p.pid],
                    CardKindV::GeoMap { lat, lon, label: p.label, geoshape: None },
                ),
            ),
            acc.1,
            acc.2,
        ),
        ValueV::Url { url } => (acc.0, acc.1, acc.2.push(FactValueV::Link { url })),
        ValueV::ItemRef { qid, label, image_url } => (
            acc.0,
            acc.1,
            acc.2.push(
                FactValueV::Item(
                    ItemChipV {
                        qid,
                        label,
                        image_url,
                        thumb_url: opt_thumb(image_url),
                        span: span_of(s.qualifiers),
                        note: note_of(s.qualifiers),
                        current: s.rank == Rank::Preferred,
                    },
                ),
            ),
        ),
        _ => (
            acc.0,
            acc.1,
            acc.2.push(
                FactValueV::Text {
                    value: value_text(s.value),
                    span: span_of(s.qualifiers),
                    note: note_of(s.qualifiers),
                },
            ),
        ),
    }
}

pub open spec fn statements_fold(acc: Reading, p: PropertyV, pref_media: bool, ss: Seq<StatementV>) -> Reading
    decreases ss.len(),
{
    if ss.len() == 0 {
        acc
    } else {
        statement_step(statements_fold(acc, p, pref_media, ss.drop_last()), p, pref_media, ss.last())
    }
}

fn statement_into(
    cards: &mut Vec<Card>,
    images: &mut Vec<(String, GalleryImage)>,
    values: &mut Vec<FactValue>,
    property: &Property,
    pref_media: bool,
    statement: &Statement,
)
    requires
        statement_ok(statement@),
    ensures
        (cards_view(final(cards)@), images_view(final(images)@), values_view(final(values)@))
            == statement_step(
            (cards_view(old(cards)@), images_view(old(images)@), values_view(old(values)@)),
            property@,
            pref_media,
            statement@,
        ),
{
    let ghost c0 = cards_view(cards@);
    let ghost i0 = images_view(images@);
    let ghost v0 = values_view(values@);
    match &statement.value {
        Value::CommonsMedia { file_name, .. } => {
            if pref_media && statement.rank != Rank::Preferred {
                return ;
            }
            let image = gallery_image(file_name.as_str(), property.label.as_str());
            images.push((property.pid.clone(), image));
            assert(images_view(images@) =~= i0.push(
                (property@.pid, gallery_image_of(file_name@, property@.label)),
            ));
        },
        Value::Coordinate { lat, lon, .. } => {
            let kind = CardKind::GeoMap {
                lat: lat.clone(),
                lon: lon.clone(),
                label: property.label.clone(),
                geoshape: None,
            };
            let card = new_card(property.label.clone(), true, single_pid(&property.pid), kind);
            cards.push(card);
            assert(cards_view(cards@) =~= c0.push(card@));
        },
        Value::Url { url } => {
            values.push(FactValue::Link { url: url.clone() });
            assert(values_view(values@) =~= v0.push(FactValueV::Link { url: url@ }));
        },
        Value::ItemRef { qid, label, image_url } => {
            let (span, note) = qualifier_context(statement);
            let thumb = match image_url {
                Some(u) => Some(chip_thumb_url(u.as_str())),
                None => None,
            };
            let chip = ItemChip {
                qid: qid.clone(),
                label: label.clone(),
                image_url: copy_opt(image_url),
                thumb_url: thumb,
                span,
                note,
                current: statement.rank == Rank::Preferred,
            };
            let v = FactValue::Item(chip);
            values.push(v);
            assert(values_view(values@) =~= v0.push(v@));
        },
        _ => {
            let (span, note) = qualifier_context(statement);
            let v = FactValue::Text { value: display_value(&statement.value), span, note };
            values.push(v);
            assert(values_view(values@) =~= v0.push(v@));
        },
    }
}

} // verus!

verus! {

/// What a group's properties have produced so far.
pub struct GroupAcc {
    pub cards: Seq<CardV>,
    pub images: Seq<(Seq<char>, GalleryImageV)>,
    pub rows: Seq<(Seq<char>, FactRowV)>,
}

/// The gauge card a config-declared meter scale makes of the property.
pub open spec fn configured_meter(p: PropertyV, config: GroupingConfig) -> Option<CardV> {
    match config.property(p.pid) {
        Some(pc) => match pc.meter {
            Some(m) => meter_card(p, m),
            None => None,
        },
        None => None,
    }
}

/// A configured gauge wins; then a dated-quantity card; otherwise the
/// statements, in display order, feed the images, map cards and one row.
pub open spec fn property_step(acc: GroupAcc, p: PropertyV, config: GroupingConfig) -> GroupAcc {
    match configured_meter(p, config) {
        Some(card) => GroupAcc { cards: acc.cards.push(card), ..acc },
        None => match quantity_card(p) {
            Some(card) => GroupAcc { cards: acc.cards.push(card), ..acc },
            None => {
                let r = statements_fold(
                    (acc.cards, acc.images, Seq::empty()),
                    p,
                    has_preferred_media(p.statements),
                    ordered(p),
                );
                GroupAcc {
                    cards: r.0,
                    images: r.1,
                    rows: if r.2.len() > 0 {
                        acc.rows.push((p.pid, FactRowV { label: p.label, values: r.2 }))
                    } else {
                        acc.rows
                    },
                }
            },
        },
    }
}

pub open spec fn group_fold(props: Seq<PropertyV>, config: GroupingConfig) -> GroupAcc
    decreases props.len(),
{
    if props.len() == 0 {
        GroupAcc { cards: Seq::empty(), images: Seq::empty(), rows: Seq::empty() }
    } else {
        property_step(group_fold(props.drop_last(), config), props.last(), config)
    }
}

/// A lone row's note: its span, then its qualifier note.
pub open spec fn stat_note(span: Option<TemporalSpanV>, note: Option<Seq<char>>) -> Option<Seq<char>> {
    match (span, note) {
        (Some(s), Some(n)) => Some(s.display() + ", "@ + n),
        (Some(s), None) => Some(s.display()),
        (None, n) => n,
    }
}

/// The image cards: one image stands alone under its caption; more form
/// a gallery under the group title.
pub open spec fn image_cards(
    images: Seq<(Seq<char>, GalleryImageV)>,
    title: Seq<char>,
    localized: bool,
) -> Seq<CardV> {
    if images.len() == 0 {
        Seq::empty()
    } else if images.len() == 1 {
        seq![base_card(images[0].1.caption, true, seq![images[0].0], CardKindV::Image { image: images[0].1 })]
    } else {
        seq![
            base_card(
                title,
                localized,
                dedup(images.map_values(|x: (Seq<char>, GalleryImageV)| x.0)),
                CardKindV::Gallery {
                    images: images.map_values(|x: (Seq<char>, GalleryImageV)| x.1),
                },
            ),
        ]
    }
}

/// The row cards: a lone plain value is a stat; a lone richer row keeps
/// its property title; several rows form one facts card.
pub open spec fn row_cards(rows: Seq<(Seq<char>, FactRowV)>, title: Seq<char>, localized: bool) -> Seq<
    CardV,
> {
    if rows.len() == 0 {
        Seq::empty()
    } else if rows.len() == 1 {
        let (pid, row) = rows[0];
        if row.values.len() == 1 && row.values[0] is Text {
            match row.values[0] {
                FactValueV::Text { value, span, note } => seq![
                    base_card(
                        row.label,
                        true,
                        seq![pid],
                        CardKindV::Stat { value, note: stat_note(span, note) },
                    ),
                ],
                _ => Seq::empty(),
            }
        } else {
            seq![base_card(row.label, true, seq![pid], CardKindV::Facts { rows: seq![row] })]
        }
    } else {
        seq![
            base_card(
                title,
                localized,
                dedup(rows.map_values(|x: (Seq<char>, FactRowV)| x.0)),
                CardKindV::Facts { rows: rows.map_values(|x: (Seq<char>, FactRowV)| x.1) },
            ),
        ]
    }
}

/// The cards a group of properties makes: gauges, quantity and map
/// cards in property order, then the image card, then the row card.
pub open spec fn group_cards(
    title: Seq<char>,
    localized: bool,
    props: Seq<PropertyV>,
    config: GroupingConfig,
) -> Seq<CardV> {
    let acc = group_fold(props, config);
    acc.cards + image_cards(acc.images, title, localized) + row_cards(acc.rows, title, localized)
}

pub open spec fn props_ok(props: Seq<PropertyV>) -> bool {
    forall|i: int| 0 <= i < props.len() ==> property_ok(#[trigger] props[i])
}

fn has_preferred_media_exec(property: &Property) -> (res: bool)
    ensures
        res == has_preferred_media(property@.statements),
{
    let ghost ss = property@.statements;
    for i in 0..property.statements.len()
        invariant
            ss == property@.statements,
            forall|j: int|
                0 <= j < i ==> !((#[trigger] ss[j]).rank == Rank::Preferred && ss[j].value is CommonsMedia),
    {
        let s = &property.statements[i];
        assert(ss[i as int] == s@);
        if s.rank == Rank::Preferred && matches!(s.value, Value::CommonsMedia { .. }) {
            return true;
        }
    }
    false
}

fn property_into(
    cards: &mut Vec<Card>,
    images: &mut Vec<(String, GalleryImage)>,
    rows: &mut Vec<(String, FactRow)>,
    property: &Property,
    config: &GroupingConfig,
)
    requires
        property_ok(property@),
    ensures
        (GroupAcc {
            cards: cards_view(final(cards)@),
            images: images_view(final(images)@),
            rows: rows_view(final(rows)@),
        }) == property_step(
            GroupAcc {
                cards: cards_view(old(cards)@),
                images: images_view(old(images)@),
                rows: rows_view(old(rows)@),
            },
            property@,
            *config,
        ),
{
    let ghost c0 = cards_view(cards@);
    let ghost r0 = rows_view(rows@);
    let meter = match config.property_config(property.pid.as_str()) {
        Some(pc) => match &pc.meter {
            Some(m) => as_meter(property, m),
            None => None,
        },
        None => None,
    };
    assert(match meter {
        Some(c) => configured_meter(property@, *config) == Some(c@),
        None => configured_meter(property@, *config) is None,
    });
    match meter {
        Some(card) => {
            cards.push(card);
            assert(cards_view(cards@) =~= c0.push(card@));
            return ;
        },
        None => {},
    }
    match as_quantity_card(property) {
        Some(card) => {
            cards.push(card);
            assert(cards_view(cards@) =~= c0.push(card@));
            return ;
        },
        None => {},
    }
    let pref_media = has_preferred_media_exec(property);
    let statements = ordered_statements(property);
    let ghost ord = ordered(property@);
    proof {
        assert(forall|i: int| 0 <= i < property@.statements.len() ==> statement_ok(#[trigger] property@.statements[i]));
        crate::sort::lemma_sorted_all(
            property@.statements,
            |a: StatementV, b: StatementV| statement_before(a, b),
            |s: StatementV| statement_ok(s),
        );
    }
    let mut values: Vec<FactValue> = Vec::new();
    let ghost start = (cards_view(cards@), images_view(images@), Seq::<FactValueV>::empty());
    assert(values_view(values@) =~= Seq::<FactValueV>::empty());
    for i in 0..statements.len()
        invariant
            ord == statements@.map_values(|s: &Statement| s@),
            forall|j: int| 0 <= j < ord.len() ==> statement_ok(#[trigger] ord[j]),
            pref_media == has_preferred_media(property@.statements),
            (cards_view(cards@), images_view(images@), values_view(values@)) == statements_fold(
                start,
                property@,
                pref_media,
                ord.take(i as int),
            ),
    {
        assert(ord[i as int] == statements@[i as int]@);
        assert(ord.take(i as int + 1).drop_last() =~= ord.take(i as int));
        assert(ord.take(i as int + 1).last() == ord[i as int]);
        statement_into(cards, images, &mut values, property, pref_media, statements[i]);
    }
    assert(ord.take(ord.len() as int) =~= ord);
    if values.len() > 0 {
        let ghost vv = values_view(values@);
        let row = FactRow { label: property.label.clone(), values };
        assert(row@ == FactRowV { label: property@.label, values: vv });
        rows.push((property.pid.clone(), row));
        assert(rows_view(rows@) =~= r0.push((property@.pid, row@)));
    }
}

} // verus!

verus! {

fn image_cards_exec(images: Vec<(String, GalleryImage)>, title: &str, localized: bool) -> (res: Vec<Card>)
    ensures
        cards_view(res@) == image_cards(images_view(images@), title@, localized),
{
    let ghost iv = images_view(images@);
    let mut out: Vec<Card> = Vec::new();
    if images.len() == 0 {
        assert(cards_view(out@) =~= Seq::<CardV>::empty());
        return out;
    }
    if images.len() == 1 {
        let mut images = images;
        let (pid, image) = images.remove(0);
        assert((pid@, image@) == iv[0]);
        let card = new_card(image.caption.clone(), true, single_pid(&pid), CardKind::Image { image });
        out.push(card);
        assert(cards_view(out@) =~= seq![card@]);
        return out;
    }
    let mut pids: Vec<String> = Vec::new();
    let mut gallery: Vec<GalleryImage> = Vec::new();
    for x in it: images
        invariant
            iv == images_view(it.seq()),
            strs_view(pids@) == iv.take(it.index() as int).map_values(
                |x: (Seq<char>, GalleryImageV)| x.0,
            ),
            gallery@.map_values(|g: GalleryImage| g@) == iv.take(it.index() as int).map_values(
                |x: (Seq<char>, GalleryImageV)| x.1,
            ),
    {
        let ghost i = it.index();
        assert(iv[i as int] == (x.0@, x.1@));
        let (pid, image) = x;
        let ghost p0 = strs_view(pids@);
        let ghost g0 = gallery@.map_values(|g: GalleryImage| g@);
        pids.push(pid);
        gallery.push(image);
        assert(strs_view(pids@) =~= p0.push(iv[i as int].0));
        assert(gallery@.map_values(|g: GalleryImage| g@) =~= g0.push(iv[i as int].1));
        assert(iv.take(i + 1).map_values(|x: (Seq<char>, GalleryImageV)| x.0) =~= iv.take(
            i as int,
        ).map_values(|x: (Seq<char>, GalleryImageV)| x.0).push(iv[i as int].0));
        assert(iv.take(i + 1).map_values(|x: (Seq<char>, GalleryImageV)| x.1) =~= iv.take(
            i as int,
        ).map_values(|x: (Seq<char>, GalleryImageV)| x.1).push(iv[i as int].1));
    }
    assert(iv.take(iv.len() as int) =~= iv);
    let pids = dedup_pids(pids);
    let card = new_card(owned(title), localized, pids, CardKind::Gallery { images: gallery });
    out.push(card);
    assert(cards_view(out@) =~= seq![card@]);
    out
}

fn stat_note_exec(span: Option<TemporalSpan>, note: Option<String>) -> (res: Option<String>)
    ensures
        opt_view(res) == stat_note(
            match span {
                Some(s) => Some(s@),
                None => None,
            },
            opt_view(note),
        ),
{
    match (span, note) {
        (Some(span), Some(note)) => {
            let mut s = span.display();
            push_str(&mut s, ", ");
            push_str(&mut s, note.as_str());
            Some(s)
        },
        (Some(span), None) => Some(span.display()),
        (None, note) => note,
    }
}

fn row_cards_exec(rows: Vec<(String, FactRow)>, title: &str, localized: bool) -> (res: Vec<Card>)
    ensures
        cards_view(res@) == row_cards(rows_view(rows@), title@, localized),
{
    let ghost rv = rows_view(rows@);
    let mut out: Vec<Card> = Vec::new();
    if rows.len() == 0 {
        assert(cards_view(out@) =~= Seq::<CardV>::empty());
        return out;
    }
    if rows.len() == 1 {
        let mut rows = rows;
        let (pid, row) = rows.remove(0);
        assert((pid@, row@) == rv[0]);
        let is_stat = row.values.len() == 1 && matches!(row.values[0], FactValue::Text { .. });
        assert(row@.values.len() == row.values@.len());
        if row.values.len() == 1 {
            assert(row@.values[0] == row.values@[0]@);
        }
        if is_stat {
            let FactRow { label, mut values } = row;
            let v = values.remove(0);
            match v {
                FactValue::Text { value, span, note } => {
                    let note = stat_note_exec(span, note);
                    let card = new_card(label, true, single_pid(&pid), CardKind::Stat { value, note });
                    out.push(card);
                    assert(cards_view(out@) =~= seq![card@]);
                },
                _ => {},
            }
        } else {
            let title = row.label.clone();
            let mut one: Vec<FactRow> = Vec::new();
            one.push(row);
            let kind = CardKind::Facts { rows: one };
            assert(kind@ == CardKindV::Facts { rows: seq![rv[0].1] }) by {
                assert(one@.map_values(|r: FactRow| r@) =~= seq![rv[0].1]);
            }
            let card = new_card(title, true, single_pid(&pid), kind);
            out.push(card);
            assert(cards_view(out@) =~= seq![card@]);
        }
        return out;
    }
    let mut pids: Vec<String> = Vec::new();
    let mut facts: Vec<FactRow> = Vec::new();
    for x in it: rows
        invariant
            rv == rows_view(it.seq()),
            strs_view(pids@) == rv.take(it.index() as int).map_values(
                |x: (Seq<char>, FactRowV)| x.0,
            ),
            facts@.map_values(|g: FactRow| g@) == rv.take(it.index() as int).map_values(
                |x: (Seq<char>, FactRowV)| x.1,
            ),
    {
        let ghost i = it.index();
        assert(rv[i as int] == (x.0@, x.1@));
        let (pid, row) = x;
        let ghost p0 = strs_view(pids@);
        let ghost g0 = facts@.map_values(|g: FactRow| g@);
        pids.push(pid);
        facts.push(row);
        assert(strs_view(pids@) =~= p0.push(rv[i as int].0));
        assert(facts@.map_values(|g: FactRow| g@) =~= g0.push(rv[i as int].1));
        assert(rv.take(i + 1).map_values(|x: (Seq<char>, FactRowV)| x.0) =~= rv.take(
            i as int,
        ).map_values(|x: (Seq<char>, FactRowV)| x.0).push(rv[i as int].0));
        assert(rv.take(i + 1).map_values(|x: (Seq<char>, FactRowV)| x.1) =~= rv.take(
            i as int,
        ).map_values(|x: (Seq<char>, FactRowV)| x.1).push(rv[i as int].1));
    }
    assert(rv.take(rv.len() as int) =~= rv);
    let pids = dedup_pids(pids);
    let card = new_card(owned(title), localized, pids, CardKind::Facts { rows: facts });
    out.push(card);
    assert(cards_view(out@) =~= seq![card@]);
    out
}

/// The cards a group of properties makes: configured gauges and dated
/// quantity cards per property; media gathered into one image or
/// gallery card; coordinates as map cards; everything else one labeled
/// row per property, so a group reads as one card.
pub fn cards_for_group(
    title: &str,
    title_is_localized: bool,
    properties: &Vec<&Property>,
    config: &GroupingConfig,
) -> (res: Vec<Card>)
    requires
        props_ok(properties@.map_values(|p: &Property| p@)),
    ensures
        cards_view(res@) == group_cards(
            title@,
            title_is_localized,
            properties@.map_values(|p: &Property| p@),
            *config,
        ),
{
    let ghost pv = properties@.map_values(|p: &Property| p@);
    let mut cards: Vec<Card> = Vec::new();
    let mut images: Vec<(String, GalleryImage)> = Vec::new();
    let mut rows: Vec<(String, FactRow)> = Vec::new();
    assert(cards_view(cards@) =~= Seq::<CardV>::empty());
    assert(images_view(images@) =~= Seq::<(Seq<char>, GalleryImageV)>::empty());
    assert(rows_view(rows@) =~= Seq::<(Seq<char>, FactRowV)>::empty());
    for i in 0..properties.len()
        invariant
            pv == properties@.map_values(|p: &Property| p@),
            props_ok(pv),
            (GroupAcc {
                cards: cards_view(cards@),
                images: images_view(images@),
                rows: rows_view(rows@),
            }) == group_fold(pv.take(i as int), *config),
    {
        assert(pv[i as int] == properties@[i as int]@);
        assert(property_ok(pv[i as int]));
        assert(pv.take(i as int + 1).drop_last() =~= pv.take(i as int));
        assert(pv.take(i as int + 1).last() == pv[i as int]);
        property_into(&mut cards, &mut images, &mut rows, properties[i], config);
    }
    assert(pv.take(pv.len() as int) =~= pv);
    let ghost acc = group_fold(pv, *config);
    let image_part = image_cards_exec(images, title, title_is_localized);
    let row_part = row_cards_exec(rows, title, title_is_localized);
    let ghost c0 = cards_view(cards@);
    let mut image_part = image_part;
    let mut row_part = row_part;
    let ghost ip = cards_view(image_part@);
    let ghost rp = cards_view(row_part@);
    cards.append(&mut image_part);
    cards.append(&mut row_part);
    assert(cards_view(cards@) =~= c0 + ip + rp);
    cards
}

} // verus!

verus! {

/// The item holds each PID once, and every time in it can be shown at
/// the precisions cards use.
pub open spec fn item_ok(item: ItemV) -> bool {
    &&& crate::model::distinct_pids(item.properties)
    &&& forall|i: int| 0 <= i < item.properties.len() ==> property_ok(#[trigger] item.properties[i])
}

pub proof fn lemma_item_get_ok(item: ItemV, pid: Seq<char>)
    requires
        item_ok(item),
    ensures
        match item.get(pid) {
            Some(p) => property_ok(p),
            None => true,
        },
{
    crate::model::lemma_property_index_bounds(item.properties, pid);
}

} // verus!

verus! {

/// The stat-style note of a span and a qualifier note.
pub fn stat_note_of(span: &Option<TemporalSpan>, note: &Option<String>) -> (res: Option<String>)
    ensures
        opt_view(res) == stat_note(
            match span {
                Some(s) => Some(s@),
                None => None,
            },
            opt_view(*note),
        ),
{
    let s = match span {
        Some(s) => Some(s.duplicate()),
        None => None,
    };
    stat_note_exec(s, copy_opt(note))
}

} // verus!

verus! {

fn statement_fits(s: &Statement) -> (res: bool)
    ensures
        res == statement_ok(s@),
{
    if !crate::format::value_fits(&s.value) {
        return false;
    }
    let ghost qs = s@.qualifiers;
    for k in 0..s.qualifiers.len()
        invariant
            qs == s@.qualifiers,
            forall|m: int| 0 <= m < k ==> qualifier_ok(#[trigger] qs[m]),
    {
        let q = &s.qualifiers[k];
        assert(qs[k as int] == q@);
        let pid = q.pid.as_str();
        let temporal = str_eq(pid, START_TIME) || str_eq(pid, END_TIME) || str_eq(pid, POINT_IN_TIME);
        assert(temporal == is_temporal(q@.pid));
        if !crate::format::value_fits(&q.value) || (temporal && !crate::format::year_fits(&q.value)) {
            assert(!qualifier_ok(qs[k as int]));
            return false;
        }
    }
    true
}

fn property_fits(p: &Property) -> (res: bool)
    ensures
        res == property_ok(p@),
{
    let ghost ss = p@.statements;
    for j in 0..p.statements.len()
        invariant
            ss == p@.statements,
            forall|k: int| 0 <= k < j ==> statement_ok(#[trigger] ss[k]),
    {
        assert(ss[j as int] == p.statements@[j as int]@);
        if !statement_fits(&p.statements[j]) {
            return false;
        }
    }
    true
}

/// Whether the item holds each PID once and every time in it can be
/// shown at the precisions cards use (a transformed item holds each PID
/// once; Wikidata's ASCII timestamps can always be shown).
pub fn item_fits(item: &crate::model::WikidataItem) -> (res: bool)
    ensures
        res == item_ok(item@),
{
    if !crate::model::has_distinct_pids(&item.properties) {
        return false;
    }
    let ghost props = item@.properties;
    for i in 0..item.properties.len()
        invariant
            props == item@.properties,
            forall|k: int| 0 <= k < i ==> property_ok(#[trigger] props[k]),
    {
        assert(props[i as int] == item.properties@[i as int]@);
        if !property_fits(&item.properties[i]) {
            return false;
        }
    }
    true
}

} // verus!
