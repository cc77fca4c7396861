//! Text-oriented backends over the card document: plain text and
//! markdown for chat and LLM use, wikitext for wikis, and a plain
//! semantic HTML fragment. One document, four serializations.
//!
//! Every value carries its context: a value's span and qualifier note
//! follow it in parentheses, as on a stat card.

use vstd::prelude::*;

use crate::cards::synthesis::stat_note;
use crate::cards::{
    Card, CardKind, CardKindV, CardV, FactRow, FactRowV, FactValue, FactValueV, FactoidPage,
    FactoidPageV, GalleryImage, GalleryImageV, Indicator, IndicatorV, SeriesPoint, SeriesPointV,
    TemporalSpan, TemporalSpanV, TimelineEvent, TimelineEventV,
};
use crate::text::{concat, join, lemma_concat_step, opt_view, owned, push_char, push_str};

verus! {

pub const WIKIDATA_URL: &'static str = "https://www.wikidata.org/wiki";

/// " (note)" when there is a note.
pub open spec fn paren(note: Option<Seq<char>>) -> Seq<char> {
    match note {
        Some(n) => " ("@ + n + ")"@,
        None => Seq::empty(),
    }
}

pub open spec fn note_or_latest(note: Option<Seq<char>>) -> Seq<char> {
    match note {
        Some(n) => n,
        None => "latest"@,
    }
}

pub open spec fn span_view(span: Option<TemporalSpan>) -> Option<TemporalSpanV> {
    match span {
        Some(s) => Some(s@),
        None => None,
    }
}

/// A value's context: its span, then its qualifier note.
pub open spec fn value_context(v: FactValueV) -> Option<Seq<char>> {
    match v {
        FactValueV::Item(c) => stat_note(c.span, c.note),
        FactValueV::Text { span, note, .. } => stat_note(span, note),
        FactValueV::Link { .. } => None,
    }
}

fn paren_exec(out: &mut String, note: &Option<String>)
    ensures
        final(out)@ == old(out)@ + paren(opt_view(*note)),
{
    match note {
        Some(n) => {
            push_str(out, " (");
            push_str(out, n.as_str());
            push_str(out, ")");
        },
        None => {},
    }
}

fn context_exec(v: &FactValue) -> (res: Option<String>)
    ensures
        opt_view(res) == value_context(v@),
{
    match v {
        FactValue::Item(c) => crate::cards::synthesis::stat_note_of(&c.span, &c.note),
        FactValue::Text { span, note, .. } => crate::cards::synthesis::stat_note_of(span, note),
        FactValue::Link { .. } => None,
    }
}

// ---------------------------------------------------------------------
// Plain text
// ---------------------------------------------------------------------

pub open spec fn value_plain(v: FactValueV) -> Seq<char> {
    match v {
        FactValueV::Item(c) => c.label + paren(value_context(v)),
        FactValueV::Link { url } => url,
        FactValueV::Text { value, .. } => value + paren(value_context(v)),
    }
}

pub open spec fn row_plain(r: FactRowV) -> Seq<char> {
    r.label + ": "@ + join(r.values.map_values(|v: FactValueV| value_plain(v)), "; "@) + "\n"@
}

pub open spec fn image_plain(g: GalleryImageV) -> Seq<char> {
    g.caption + ": "@ + g.file_url + "\n"@
}

pub open spec fn point_plain(p: SeriesPointV) -> Seq<char> {
    "  "@ + p.label + ": "@ + p.display + "\n"@
}

pub open spec fn event_plain(e: TimelineEventV) -> Seq<char> {
    e.display + ": "@ + e.label + paren(e.detail) + "\n"@
}

pub open spec fn indicator_plain(i: IndicatorV) -> Seq<char> {
    i.label + ": "@ + i.current + " ("@ + note_or_latest(i.note) + ")\n"@
}

pub open spec fn body_plain(k: CardKindV) -> Seq<char> {
    match k {
        CardKindV::Image { image } => image_plain(image),
        CardKindV::Gallery { images } => concat(images.map_values(|g: GalleryImageV| image_plain(g))),
        CardKindV::Stat { value, note } => value + paren(note) + "\n"@,
        CardKindV::Meter { display, note, .. } => display + paren(note) + "\n"@,
        CardKindV::StatSeries { current, note, series } => current + " ("@ + note_or_latest(note)
            + ")\n"@ + concat(series.map_values(|p: SeriesPointV| point_plain(p))),
        CardKindV::GeoMap { lat, lon, .. } => lat + ", "@ + lon + "\n"@,
        CardKindV::Facts { rows } => concat(rows.map_values(|r: FactRowV| row_plain(r))),
        CardKindV::Timeline { events } => concat(events.map_values(|e: TimelineEventV| event_plain(e))),
        CardKindV::Indicators { indicators } => concat(
            indicators.map_values(|i: IndicatorV| indicator_plain(i)),
        ),
    }
}

pub open spec fn card_plain(c: CardV) -> Seq<char> {
    "\n## "@ + c.title + "\n"@ + body_plain(c.kind)
}

/// The page as plain text: title, description, then each card under a
/// heading in reading order.
pub open spec fn page_plain(p: FactoidPageV) -> Seq<char> {
    (match p.label {
        Some(l) => "# "@ + l + "\n"@,
        None => Seq::empty(),
    }) + (match p.description {
        Some(d) => d + "\n"@,
        None => Seq::empty(),
    }) + concat(p.all_cards().map_values(|c: CardV| card_plain(c)))
}

fn value_plain_exec(v: &FactValue) -> (res: String)
    ensures
        res@ == value_plain(v@),
{
    let ctx = context_exec(v);
    match v {
        FactValue::Item(c) => {
            let mut s = c.label.clone();
            paren_exec(&mut s, &ctx);
            s
        },
        FactValue::Link { url } => url.clone(),
        FactValue::Text { value, .. } => {
            let mut s = value.clone();
            paren_exec(&mut s, &ctx);
            s
        },
    }
}

fn row_plain_exec(r: &FactRow) -> (res: String)
    ensures
        res@ == row_plain(r@),
{
    let mut parts: Vec<String> = Vec::new();
    let ghost vs = r@.values;
    for i in 0..r.values.len()
        invariant
            vs == r@.values,
            crate::text::strs_view(parts@) == vs.take(i as int).map_values(|v: FactValueV| value_plain(v)),
    {
        assert(vs[i as int] == r.values@[i as int]@);
        let ghost prev = crate::text::strs_view(parts@);
        parts.push(value_plain_exec(&r.values[i]));
        assert(crate::text::strs_view(parts@) =~= prev.push(value_plain(vs[i as int])));
        assert(vs.take(i as int + 1).map_values(|v: FactValueV| value_plain(v)) =~= vs.take(
            i as int,
        ).map_values(|v: FactValueV| value_plain(v)).push(value_plain(vs[i as int])));
    }
    assert(vs.take(vs.len() as int) =~= vs);
    let mut s = r.label.clone();
    push_str(&mut s, ": ");
    let joined = crate::text::join_strings(&parts, "; ");
    push_str(&mut s, joined.as_str());
    push_str(&mut s, "\n");
    s
}

fn body_plain_exec(out: &mut String, k: &CardKind)
    ensures
        final(out)@ == old(out)@ + body_plain(k@),
{
    let ghost o0 = out@;
    match k {
        CardKind::Image { image } => {
            push_str(out, image.caption.as_str());
            push_str(out, ": ");
            push_str(out, image.file_url.as_str());
            push_str(out, "\n");
        },
        CardKind::Gallery { images } => {
            let ghost parts = images@.map_values(|g: GalleryImage| g@).map_values(|g: GalleryImageV| image_plain(g));
            for i in 0..images.len()
                invariant
                    parts == images@.map_values(|g: GalleryImage| g@).map_values(|g: GalleryImageV| image_plain(g)),
                    out@ == o0 + concat(parts.take(i as int)),
            {
                proof { lemma_concat_step(parts, i as int); }
                let image = &images[i];
                push_str(out, image.caption.as_str());
                push_str(out, ": ");
                push_str(out, image.file_url.as_str());
                push_str(out, "\n");
            }
            assert(parts.take(parts.len() as int) =~= parts);
        },
        CardKind::Stat { value, note } => {
            push_str(out, value.as_str());
            paren_exec(out, note);
            push_str(out, "\n");
        },
        CardKind::Meter { display, note, .. } => {
            push_str(out, display.as_str());
            paren_exec(out, note);
            push_str(out, "\n");
        },
        CardKind::StatSeries { current, note, series } => {
            push_str(out, current.as_str());
            push_str(out, " (");
            match note {
                Some(n) => push_str(out, n.as_str()),
                None => push_str(out, "latest"),
            }
            push_str(out, ")\n");
            let ghost o1 = out@;
            let ghost parts = series@.map_values(|p: SeriesPoint| p@).map_values(|p: SeriesPointV| point_plain(p));
            for i in 0..series.len()
                invariant
                    parts == series@.map_values(|p: SeriesPoint| p@).map_values(|p: SeriesPointV| point_plain(p)),
                    out@ == o1 + concat(parts.take(i as int)),
            {
                proof { lemma_concat_step(parts, i as int); }
                let p = &series[i];
                push_str(out, "  ");
                push_str(out, p.label.as_str());
                push_str(out, ": ");
                push_str(out, p.display.as_str());
                push_str(out, "\n");
            }
            assert(parts.take(parts.len() as int) =~= parts);
        },
        CardKind::GeoMap { lat, lon, .. } => {
            push_str(out, lat.as_str());
            push_str(out, ", ");
            push_str(out, lon.as_str());
            push_str(out, "\n");
        },
        CardKind::Facts { rows } => {
            let ghost parts = rows@.map_values(|r: FactRow| r@).map_values(|r: FactRowV| row_plain(r));
            for i in 0..rows.len()
                invariant
                    parts == rows@.map_values(|r: FactRow| r@).map_values(|r: FactRowV| row_plain(r)),
                    out@ == o0 + concat(parts.take(i as int)),
            {
                proof { lemma_concat_step(parts, i as int); }
                let line = row_plain_exec(&rows[i]);
                push_str(out, line.as_str());
            }
            assert(parts.take(parts.len() as int) =~= parts);
        },
        CardKind::Timeline { events } => {
            let ghost parts = events@.map_values(|e: TimelineEvent| e@).map_values(|e: TimelineEventV| event_plain(e));
            for i in 0..events.len()
                invariant
                    parts == events@.map_values(|e: TimelineEvent| e@).map_values(|e: TimelineEventV| event_plain(e)),
                    out@ == o0 + concat(parts.take(i as int)),
            {
                proof { lemma_concat_step(parts, i as int); }
                let e = &events[i];
                push_str(out, e.display.as_str());
                push_str(out, ": ");
                push_str(out, e.label.as_str());
                paren_exec(out, &e.detail);
                push_str(out, "\n");
            }
            assert(parts.take(parts.len() as int) =~= parts);
        },
        CardKind::Indicators { indicators } => {
            let ghost parts = indicators@.map_values(|x: Indicator| x@).map_values(|x: IndicatorV| indicator_plain(x));
            for i in 0..indicators.len()
                invariant
                    parts == indicators@.map_values(|x: Indicator| x@).map_values(|x: IndicatorV| indicator_plain(x)),
                    out@ == o0 + concat(parts.take(i as int)),
            {
                proof { lemma_concat_step(parts, i as int); }
                let x = &indicators[i];
                push_str(out, x.label.as_str());
                push_str(out, ": ");
                push_str(out, x.current.as_str());
                push_str(out, " (");
                match &x.note {
                    Some(n) => push_str(out, n.as_str()),
                    None => push_str(out, "latest"),
                }
                push_str(out, ")\n");
            }
            assert(parts.take(parts.len() as int) =~= parts);
        },
    }
}

/// Plain text, for chat and LLM use.
pub fn render_text(page: &FactoidPage) -> (res: String)
    ensures
        res@ == page_plain(page@),
{
    let mut out = String::new();
    match &page.label {
        Some(label) => {
            push_str(&mut out, "# ");
            push_str(&mut out, label.as_str());
            push_str(&mut out, "\n");
        },
        None => {},
    }
    match &page.description {
        Some(d) => {
            push_str(&mut out, d.as_str());
            push_str(&mut out, "\n");
        },
        None => {},
    }
    let ghost o0 = out@;
    let cards = page.all_cards();
    let ghost parts = cards@.map_values(|c: &Card| c@).map_values(|c: CardV| card_plain(c));
    for i in 0..cards.len()
        invariant
            parts == cards@.map_values(|c: &Card| c@).map_values(|c: CardV| card_plain(c)),
            out@ == o0 + concat(parts.take(i as int)),
    {
        proof { lemma_concat_step(parts, i as int); }
        let card = cards[i];
        push_str(&mut out, "\n## ");
        push_str(&mut out, card.title.as_str());
        push_str(&mut out, "\n");
        body_plain_exec(&mut out, &card.kind);
    }
    assert(parts.take(parts.len() as int) =~= parts);
    out
}

} // verus!

verus! {

// ---------------------------------------------------------------------
// Markdown
// ---------------------------------------------------------------------

pub open spec fn value_md(v: FactValueV) -> Seq<char> {
    match v {
        FactValueV::Item(c) => "["@ + c.label + "]("@ + WIKIDATA_URL@ + "/"@ + c.qid + ")"@ + paren(
            value_context(v),
        ),
        FactValueV::Link { url } => "["@ + url + "]("@ + url + ")"@,
        FactValueV::Text { value, .. } => value + paren(value_context(v)),
    }
}

pub open spec fn row_md(r: FactRowV) -> Seq<char> {
    "- **"@ + r.label + "**: "@ + join(r.values.map_values(|v: FactValueV| value_md(v)), "; "@) + "\n"@
}

pub open spec fn image_md(g: GalleryImageV) -> Seq<char> {
    "!["@ + g.caption + "]("@ + g.thumb_url + ")\n"@
}

pub open spec fn point_md(p: SeriesPointV) -> Seq<char> {
    "- "@ + p.label + ": "@ + p.display + "\n"@
}

pub open spec fn event_md(e: TimelineEventV) -> Seq<char> {
    "- "@ + e.display + ": "@ + e.label + paren(e.detail) + "\n"@
}

pub open spec fn indicator_md(i: IndicatorV) -> Seq<char> {
    "- **"@ + i.label + "**: "@ + i.current + " ("@ + note_or_latest(i.note) + ")\n"@
}

pub open spec fn body_md(k: CardKindV) -> Seq<char> {
    match k {
        CardKindV::Image { image } => image_md(image),
        CardKindV::Gallery { images } => concat(images.map_values(|g: GalleryImageV| image_md(g))),
        CardKindV::Stat { value, note } => "**"@ + value + "**"@ + paren(note) + "\n"@,
        CardKindV::Meter { display, note, .. } => "**"@ + display + "**"@ + paren(note) + "\n"@,
        CardKindV::StatSeries { current, note, series } => "**"@ + current + "** ("@ + note_or_latest(
            note,
        ) + ")\n"@ + concat(series.map_values(|p: SeriesPointV| point_md(p))),
        CardKindV::GeoMap { lat, lon, .. } => lat + ", "@ + lon + "\n"@,
        CardKindV::Facts { rows } => concat(rows.map_values(|r: FactRowV| row_md(r))),
        CardKindV::Timeline { events } => concat(events.map_values(|e: TimelineEventV| event_md(e))),
        CardKindV::Indicators { indicators } => concat(
            indicators.map_values(|i: IndicatorV| indicator_md(i)),
        ),
    }
}

pub open spec fn card_md(c: CardV) -> Seq<char> {
    "\n## "@ + c.title + "\n"@ + body_md(c.kind)
}

/// The page as markdown: title, italic description, then each card
/// under a heading; item values link to Wikidata.
pub open spec fn page_md(p: FactoidPageV) -> Seq<char> {
    (match p.label {
        Some(l) => "# "@ + l + "\n"@,
        None => Seq::empty(),
    }) + (match p.description {
        Some(d) => "*"@ + d + "*\n"@,
        None => Seq::empty(),
    }) + concat(p.all_cards().map_values(|c: CardV| card_md(c)))
}

fn value_md_exec(v: &FactValue) -> (res: String)
    ensures
        res@ == value_md(v@),
{
    let ctx = context_exec(v);
    match v {
        FactValue::Item(c) => {
            let mut s = owned("[");
            push_str(&mut s, c.label.as_str());
            push_str(&mut s, "](");
            push_str(&mut s, WIKIDATA_URL);
            push_str(&mut s, "/");
            push_str(&mut s, c.qid.as_str());
            push_str(&mut s, ")");
            paren_exec(&mut s, &ctx);
            s
        },
        FactValue::Link { url } => {
            let mut s = owned("[");
            push_str(&mut s, url.as_str());
            push_str(&mut s, "](");
            push_str(&mut s, url.as_str());
            push_str(&mut s, ")");
            s
        },
        FactValue::Text { value, .. } => {
            let mut s = value.clone();
            paren_exec(&mut s, &ctx);
            s
        },
    }
}

fn row_md_exec(r: &FactRow) -> (res: String)
    ensures
        res@ == row_md(r@),
{
    let mut parts: Vec<String> = Vec::new();
    let ghost vs = r@.values;
    for i in 0..r.values.len()
        invariant
            vs == r@.values,
            crate::text::strs_view(parts@) == vs.take(i as int).map_values(|v: FactValueV| value_md(v)),
    {
        assert(vs[i as int] == r.values@[i as int]@);
        let ghost prev = crate::text::strs_view(parts@);
        parts.push(value_md_exec(&r.values[i]));
        assert(crate::text::strs_view(parts@) =~= prev.push(value_md(vs[i as int])));
        assert(vs.take(i as int + 1).map_values(|v: FactValueV| value_md(v)) =~= vs.take(
            i as int,
        ).map_values(|v: FactValueV| value_md(v)).push(value_md(vs[i as int])));
    }
    assert(vs.take(vs.len() as int) =~= vs);
    let mut s = owned("- **");
    push_str(&mut s, r.label.as_str());
    push_str(&mut s, "**: ");
    let joined = crate::text::join_strings(&parts, "; ");
    push_str(&mut s, joined.as_str());
    push_str(&mut s, "\n");
    s
}

fn body_md_exec(out: &mut String, k: &CardKind)
    ensures
        final(out)@ == old(out)@ + body_md(k@),
{
    let ghost o0 = out@;
    match k {
        CardKind::Image { image } => {
            push_str(out, "![");
            push_str(out, image.caption.as_str());
            push_str(out, "](");
            push_str(out, image.thumb_url.as_str());
            push_str(out, ")\n");
        },
        CardKind::Gallery { images } => {
            let ghost parts = images@.map_values(|g: GalleryImage| g@).map_values(|g: GalleryImageV| image_md(g));
            for i in 0..images.len()
                invariant
                    parts == images@.map_values(|g: GalleryImage| g@).map_values(|g: GalleryImageV| image_md(g)),
                    out@ == o0 + concat(parts.take(i as int)),
            {
                proof { lemma_concat_step(parts, i as int); }
                let image = &images[i];
                push_str(out, "![");
                push_str(out, image.caption.as_str());
                push_str(out, "](");
                push_str(out, image.thumb_url.as_str());
                push_str(out, ")\n");
            }
            assert(parts.take(parts.len() as int) =~= parts);
        },
        CardKind::Stat { value, note } => {
            push_str(out, "**");
            push_str(out, value.as_str());
            push_str(out, "**");
            paren_exec(out, note);
            push_str(out, "\n");
        },
        CardKind::Meter { display, note, .. } => {
            push_str(out, "**");
            push_str(out, display.as_str());
            push_str(out, "**");
            paren_exec(out, note);
            push_str(out, "\n");
        },
        CardKind::StatSeries { current, note, series } => {
            push_str(out, "**");
            push_str(out, current.as_str());
            push_str(out, "** (");
            match note {
                Some(n) => push_str(out, n.as_str()),
                None => push_str(out, "latest"),
            }
            push_str(out, ")\n");
            let ghost o1 = out@;
            let ghost parts = series@.map_values(|p: SeriesPoint| p@).map_values(|p: SeriesPointV| point_md(p));
            for i in 0..series.len()
                invariant
                    parts == series@.map_values(|p: SeriesPoint| p@).map_values(|p: SeriesPointV| point_md(p)),
                    out@ == o1 + concat(parts.take(i as int)),
            {
                proof { lemma_concat_step(parts, i as int); }
                let p = &series[i];
                push_str(out, "- ");
                push_str(out, p.label.as_str());
                push_str(out, ": ");
                push_str(out, p.display.as_str());
                push_str(out, "\n");
            }
            assert(parts.take(parts.len() as int) =~= parts);
        },
        CardKind::GeoMap { lat, lon, .. } => {
            push_str(out, lat.as_str());
            push_str(out, ", ");
            push_str(out, lon.as_str());
            push_str(out, "\n");
        },
        CardKind::Facts { rows } => {
            let ghost parts = rows@.map_values(|r: FactRow| r@).map_values(|r: FactRowV| row_md(r));
            for i in 0..rows.len()
                invariant
                    parts == rows@.map_values(|r: FactRow| r@).map_values(|r: FactRowV| row_md(r)),
                    out@ == o0 + concat(parts.take(i as int)),
            {
                proof { lemma_concat_step(parts, i as int); }
                let line = row_md_exec(&rows[i]);
                push_str(out, line.as_str());
            }
            assert(parts.take(parts.len() as int) =~= parts);
        },
        CardKind::Timeline { events } => {
            let ghost parts = events@.map_values(|e: TimelineEvent| e@).map_values(|e: TimelineEventV| event_md(e));
            for i in 0..events.len()
                invariant
                    parts == events@.map_values(|e: TimelineEvent| e@).map_values(|e: TimelineEventV| event_md(e)),
                    out@ == o0 + concat(parts.take(i as int)),
            {
                proof { lemma_concat_step(parts, i as int); }
                let e = &events[i];
                push_str(out, "- ");
                push_str(out, e.display.as_str());
                push_str(out, ": ");
                push_str(out, e.label.as_str());
                paren_exec(out, &e.detail);
                push_str(out, "\n");
            }
            assert(parts.take(parts.len() as int) =~= parts);
        },
        CardKind::Indicators { indicators } => {
            let ghost parts = indicators@.map_values(|x: Indicator| x@).map_values(|x: IndicatorV| indicator_md(x));
            for i in 0..indicators.len()
                invariant
                    parts == indicators@.map_values(|x: Indicator| x@).map_values(|x: IndicatorV| indicator_md(x)),
                    out@ == o0 + concat(parts.take(i as int)),
            {
                proof { lemma_concat_step(parts, i as int); }
                indicator_md_exec(out, &indicators[i]);
            }
            assert(parts.take(parts.len() as int) =~= parts);
        },
    }
}

fn indicator_md_exec(out: &mut String, x: &Indicator)
    ensures
        final(out)@ == old(out)@ + indicator_md(x@),
{
    push_str(out, "- **");
    push_str(out, x.label.as_str());
    push_str(out, "**: ");
    push_str(out, x.current.as_str());
    push_str(out, " (");
    match &x.note {
        Some(n) => push_str(out, n.as_str()),
        None => push_str(out, "latest"),
    }
    push_str(out, ")\n");
    proof {
        reveal_strlit("- **");
        reveal_strlit("**: ");
        reveal_strlit(" (");
        reveal_strlit("latest");
        reveal_strlit(")\n");
    }
}

/// Markdown, for chat and LLM use.
pub fn render_markdown(page: &FactoidPage) -> (res: String)
    ensures
        res@ == page_md(page@),
{
    let mut out = String::new();
    match &page.label {
        Some(label) => {
            push_str(&mut out, "# ");
            push_str(&mut out, label.as_str());
            push_str(&mut out, "\n");
        },
        None => {},
    }
    match &page.description {
        Some(d) => {
            push_str(&mut out, "*");
            push_str(&mut out, d.as_str());
            push_str(&mut out, "*\n");
        },
        None => {},
    }
    let ghost o0 = out@;
    let cards = page.all_cards();
    let ghost parts = cards@.map_values(|c: &Card| c@).map_values(|c: CardV| card_md(c));
    for i in 0..cards.len()
        invariant
            parts == cards@.map_values(|c: &Card| c@).map_values(|c: CardV| card_md(c)),
            out@ == o0 + concat(parts.take(i as int)),
    {
        proof { lemma_concat_step(parts, i as int); }
        let card = cards[i];
        push_str(&mut out, "\n## ");
        push_str(&mut out, card.title.as_str());
        push_str(&mut out, "\n");
        body_md_exec(&mut out, &card.kind);
    }
    assert(parts.take(parts.len() as int) =~= parts);
    out
}

} // verus!

verus! {

// ---------------------------------------------------------------------
// Wikitext
// ---------------------------------------------------------------------

pub open spec fn value_wiki(v: FactValueV) -> Seq<char> {
    match v {
        FactValueV::Item(c) => "[[wikidata:"@ + c.qid + "|"@ + c.label + "]]"@ + paren(value_context(v)),
        FactValueV::Link { url } => "["@ + url + "]"@,
        FactValueV::Text { value, .. } => value + paren(value_context(v)),
    }
}

pub open spec fn value_line_wiki(v: FactValueV) -> Seq<char> {
    ":* "@ + value_wiki(v) + "\n"@
}

pub open spec fn row_wiki(r: FactRowV) -> Seq<char> {
    ";"@ + r.label + "\n"@ + concat(r.values.map_values(|v: FactValueV| value_line_wiki(v)))
}

pub open spec fn image_wiki(g: GalleryImageV) -> Seq<char> {
    "[[File:"@ + g.file_name + "|thumb|"@ + g.caption + "]]\n"@
}

pub open spec fn point_wiki(p: SeriesPointV) -> Seq<char> {
    ":* "@ + p.label + ": "@ + p.display + "\n"@
}

pub open spec fn event_wiki(e: TimelineEventV) -> Seq<char> {
    ":* "@ + e.display + ": "@ + e.label + paren(e.detail) + "\n"@
}

pub open spec fn indicator_wiki(i: IndicatorV) -> Seq<char> {
    ":* "@ + i.label + ": "@ + i.current + " ("@ + note_or_latest(i.note) + ")\n"@
}

pub open spec fn body_wiki(k: CardKindV) -> Seq<char> {
    match k {
        CardKindV::Image { image } => image_wiki(image),
        CardKindV::Gallery { images } => concat(images.map_values(|g: GalleryImageV| image_wiki(g))),
        CardKindV::Stat { value, note } => ":* "@ + value + paren(note) + "\n"@,
        CardKindV::Meter { display, note, .. } => ":* "@ + display + paren(note) + "\n"@,
        CardKindV::StatSeries { current, note, series } => ":* "@ + current + " ("@ + note_or_latest(
            note,
        ) + ")\n"@ + concat(series.map_values(|p: SeriesPointV| point_wiki(p))),
        CardKindV::GeoMap { lat, lon, .. } => ":* "@ + lat + ", "@ + lon + "\n"@,
        CardKindV::Facts { rows } => concat(rows.map_values(|r: FactRowV| row_wiki(r))),
        CardKindV::Timeline { events } => concat(events.map_values(|e: TimelineEventV| event_wiki(e))),
        CardKindV::Indicators { indicators } => concat(
            indicators.map_values(|i: IndicatorV| indicator_wiki(i)),
        ),
    }
}

pub open spec fn card_wiki(c: CardV) -> Seq<char> {
    "\n== "@ + c.title + " ==\n"@ + body_wiki(c.kind)
}

/// The page as wikitext: bold title, description, then each card as a
/// section; item values link to Wikidata.
pub open spec fn page_wiki(p: FactoidPageV) -> Seq<char> {
    (match p.label {
        Some(l) => "'''"@ + l + "'''\n"@,
        None => Seq::empty(),
    }) + (match p.description {
        Some(d) => d + "\n"@,
        None => Seq::empty(),
    }) + concat(p.all_cards().map_values(|c: CardV| card_wiki(c)))
}

fn value_wiki_exec(out: &mut String, v: &FactValue)
    ensures
        final(out)@ == old(out)@ + value_line_wiki(v@),
{
    let ctx = context_exec(v);
    push_str(out, ":* ");
    match v {
        FactValue::Item(c) => {
            push_str(out, "[[wikidata:");
            push_str(out, c.qid.as_str());
            push_str(out, "|");
            push_str(out, c.label.as_str());
            push_str(out, "]]");
            paren_exec(out, &ctx);
        },
        FactValue::Link { url } => {
            push_str(out, "[");
            push_str(out, url.as_str());
            push_str(out, "]");
        },
        FactValue::Text { value, .. } => {
            push_str(out, value.as_str());
            paren_exec(out, &ctx);
        },
    }
    push_str(out, "\n");
}

fn row_wiki_exec(out: &mut String, r: &FactRow)
    ensures
        final(out)@ == old(out)@ + row_wiki(r@),
{
    push_str(out, ";");
    push_str(out, r.label.as_str());
    push_str(out, "\n");
    let ghost o1 = out@;
    let ghost parts = r@.values.map_values(|v: FactValueV| value_line_wiki(v));
    for i in 0..r.values.len()
        invariant
            parts == r@.values.map_values(|v: FactValueV| value_line_wiki(v)),
            out@ == o1 + concat(parts.take(i as int)),
    {
        proof { lemma_concat_step(parts, i as int); }
        assert(r@.values[i as int] == r.values@[i as int]@);
        value_wiki_exec(out, &r.values[i]);
    }
    assert(parts.take(parts.len() as int) =~= parts);
}

fn body_wiki_exec(out: &mut String, k: &CardKind)
    ensures
        final(out)@ == old(out)@ + body_wiki(k@),
{
    let ghost o0 = out@;
    match k {
        CardKind::Image { image } => {
            push_str(out, "[[File:");
            push_str(out, image.file_name.as_str());
            push_str(out, "|thumb|");
            push_str(out, image.caption.as_str());
            push_str(out, "]]\n");
        },
        CardKind::Gallery { images } => {
            let ghost parts = images@.map_values(|g: GalleryImage| g@).map_values(|g: GalleryImageV| image_wiki(g));
            for i in 0..images.len()
                invariant
                    parts == images@.map_values(|g: GalleryImage| g@).map_values(|g: GalleryImageV| image_wiki(g)),
                    out@ == o0 + concat(parts.take(i as int)),
            {
                proof { lemma_concat_step(parts, i as int); }
                let image = &images[i];
                push_str(out, "[[File:");
                push_str(out, image.file_name.as_str());
                push_str(out, "|thumb|");
                push_str(out, image.caption.as_str());
                push_str(out, "]]\n");
            }
            assert(parts.take(parts.len() as int) =~= parts);
        },
        CardKind::Stat { value, note } => {
            push_str(out, ":* ");
            push_str(out, value.as_str());
            paren_exec(out, note);
            push_str(out, "\n");
        },
        CardKind::Meter { display, note, .. } => {
            push_str(out, ":* ");
            push_str(out, display.as_str());
            paren_exec(out, note);
            push_str(out, "\n");
        },
        CardKind::StatSeries { current, note, series } => {
            push_str(out, ":* ");
            push_str(out, current.as_str());
            push_str(out, " (");
            match note {
                Some(n) => push_str(out, n.as_str()),
                None => push_str(out, "latest"),
            }
            push_str(out, ")\n");
            let ghost o1 = out@;
            let ghost parts = series@.map_values(|p: SeriesPoint| p@).map_values(|p: SeriesPointV| point_wiki(p));
            for i in 0..series.len()
                invariant
                    parts == series@.map_values(|p: SeriesPoint| p@).map_values(|p: SeriesPointV| point_wiki(p)),
                    out@ == o1 + concat(parts.take(i as int)),
            {
                proof { lemma_concat_step(parts, i as int); }
                let p = &series[i];
                push_str(out, ":* ");
                push_str(out, p.label.as_str());
                push_str(out, ": ");
                push_str(out, p.display.as_str());
                push_str(out, "\n");
            }
            assert(parts.take(parts.len() as int) =~= parts);
        },
        CardKind::GeoMap { lat, lon, .. } => {
            push_str(out, ":* ");
            push_str(out, lat.as_str());
            push_str(out, ", ");
            push_str(out, lon.as_str());
            push_str(out, "\n");
        },
        CardKind::Facts { rows } => {
            let ghost parts = rows@.map_values(|r: FactRow| r@).map_values(|r: FactRowV| row_wiki(r));
            for i in 0..rows.len()
                invariant
                    parts == rows@.map_values(|r: FactRow| r@).map_values(|r: FactRowV| row_wiki(r)),
                    out@ == o0 + concat(parts.take(i as int)),
            {
                proof { lemma_concat_step(parts, i as int); }
                row_wiki_exec(out, &rows[i]);
            }
            assert(parts.take(parts.len() as int) =~= parts);
        },
        CardKind::Timeline { events } => {
            let ghost parts = events@.map_values(|e: TimelineEvent| e@).map_values(|e: TimelineEventV| event_wiki(e));
            for i in 0..events.len()
                invariant
                    parts == events@.map_values(|e: TimelineEvent| e@).map_values(|e: TimelineEventV| event_wiki(e)),
                    out@ == o0 + concat(parts.take(i as int)),
            {
                proof { lemma_concat_step(parts, i as int); }
                let e = &events[i];
                push_str(out, ":* ");
                push_str(out, e.display.as_str());
                push_str(out, ": ");
                push_str(out, e.label.as_str());
                paren_exec(out, &e.detail);
                push_str(out, "\n");
            }
            assert(parts.take(parts.len() as int) =~= parts);
        },
        CardKind::Indicators { indicators } => {
            let ghost parts = indicators@.map_values(|x: Indicator| x@).map_values(|x: IndicatorV| indicator_wiki(x));
            for i in 0..indicators.len()
                invariant
                    parts == indicators@.map_values(|x: Indicator| x@).map_values(|x: IndicatorV| indicator_wiki(x)),
                    out@ == o0 + concat(parts.take(i as int)),
            {
                proof { lemma_concat_step(parts, i as int); }
                let x = &indicators[i];
                push_str(out, ":* ");
                push_str(out, x.label.as_str());
                push_str(out, ": ");
                push_str(out, x.current.as_str());
                push_str(out, " (");
                match &x.note {
                    Some(n) => push_str(out, n.as_str()),
                    None => push_str(out, "latest"),
                }
                push_str(out, ")\n");
            }
            assert(parts.take(parts.len() as int) =~= parts);
        },
    }
}

/// Wikitext, for wikis.
pub fn render_wikitext(page: &FactoidPage) -> (res: String)
    ensures
        res@ == page_wiki(page@),
{
    let mut out = String::new();
    match &page.label {
        Some(label) => {
            push_str(&mut out, "'''");
            push_str(&mut out, label.as_str());
            push_str(&mut out, "'''\n");
        },
        None => {},
    }
    match &page.description {
        Some(d) => {
            push_str(&mut out, d.as_str());
            push_str(&mut out, "\n");
        },
        None => {},
    }
    let ghost o0 = out@;
    let cards = page.all_cards();
    let ghost parts = cards@.map_values(|c: &Card| c@).map_values(|c: CardV| card_wiki(c));
    for i in 0..cards.len()
        invariant
            parts == cards@.map_values(|c: &Card| c@).map_values(|c: CardV| card_wiki(c)),
            out@ == o0 + concat(parts.take(i as int)),
    {
        proof { lemma_concat_step(parts, i as int); }
        let card = cards[i];
        push_str(&mut out, "\n== ");
        push_str(&mut out, card.title.as_str());
        push_str(&mut out, " ==\n");
        body_wiki_exec(&mut out, &card.kind);
    }
    assert(parts.take(parts.len() as int) =~= parts);
    out
}

} // verus!

verus! {

// ---------------------------------------------------------------------
// HTML
// ---------------------------------------------------------------------

pub open spec fn escape_char(c: char) -> Seq<char> {
    if c == '&' {
        "&amp;"@
    } else if c == '<' {
        "&lt;"@
    } else if c == '>' {
        "&gt;"@
    } else if c == '"' {
        "&quot;"@
    } else {
        seq![c]
    }
}

/// `&`, `<`, `>` and `"` as entities.
pub open spec fn escaped(s: Seq<char>) -> Seq<char>
    decreases s.len(),
{
    if s.len() == 0 {
        Seq::empty()
    } else {
        escaped(s.drop_last()) + escape_char(s.last())
    }
}

fn push_escaped(out: &mut String, text: &str)
    ensures
        final(out)@ == old(out)@ + escaped(text@),
{
    let c = crate::text::chars_of(text);
    let ghost o0 = out@;
    for i in 0..c.len()
        invariant
            c@ == text@,
            out@ == o0 + escaped(c@.take(i as int)),
    {
        assert(c@.take(i as int + 1).drop_last() =~= c@.take(i as int));
        assert(c@.take(i as int + 1).last() == c@[i as int]);
        let ch = c[i];
        if ch == '&' {
            push_str(out, "&amp;");
        } else if ch == '<' {
            push_str(out, "&lt;");
        } else if ch == '>' {
            push_str(out, "&gt;");
        } else if ch == '"' {
            push_str(out, "&quot;");
        } else {
            let ghost before = out@;
            push_char(out, ch);
            assert(out@ =~= before + seq![ch]);
        }
    }
    assert(c@.take(c@.len() as int) =~= c@);
}

/// Text with `&`, `<`, `>` and `"` escaped for HTML.
pub fn escape(text: &str) -> (res: String)
    ensures
        res@ == escaped(text@),
{
    let mut out = String::new();
    push_escaped(&mut out, text);
    out
}

pub open spec fn paren_html(note: Option<Seq<char>>) -> Seq<char> {
    match note {
        Some(n) => " ("@ + escaped(n) + ")"@,
        None => Seq::empty(),
    }
}

fn paren_html_exec(out: &mut String, note: &Option<String>)
    ensures
        final(out)@ == old(out)@ + paren_html(opt_view(*note)),
{
    match note {
        Some(n) => {
            push_str(out, " (");
            push_escaped(out, n.as_str());
            push_str(out, ")");
        },
        None => {},
    }
}

pub open spec fn value_html(v: FactValueV) -> Seq<char> {
    match v {
        FactValueV::Item(c) => "<a href=\""@ + WIKIDATA_URL@ + "/"@ + escaped(c.qid) + "\">"@ + escaped(
            c.label,
        ) + "</a>"@ + paren_html(value_context(v)),
        FactValueV::Link { url } => "<a href=\""@ + escaped(url) + "\">"@ + escaped(url) + "</a>"@,
        FactValueV::Text { value, .. } => escaped(value) + paren_html(value_context(v)),
    }
}

pub open spec fn value_line_html(v: FactValueV) -> Seq<char> {
    "<dd>"@ + value_html(v) + "</dd>\n"@
}

pub open spec fn row_html(r: FactRowV) -> Seq<char> {
    "<dt>"@ + escaped(r.label) + "</dt>\n"@ + concat(r.values.map_values(|v: FactValueV| value_line_html(v)))
}

pub open spec fn image_html(g: GalleryImageV) -> Seq<char> {
    "<figure><img src=\""@ + escaped(g.thumb_url) + "\" alt=\""@ + escaped(g.caption) + "\"></figure>\n"@
}

pub open spec fn point_html(p: SeriesPointV) -> Seq<char> {
    "<li>"@ + escaped(p.label) + ": "@ + escaped(p.display) + "</li>\n"@
}

pub open spec fn event_html(e: TimelineEventV) -> Seq<char> {
    "<li>"@ + escaped(e.display) + ": "@ + escaped(e.label) + paren_html(e.detail) + "</li>\n"@
}

pub open spec fn indicator_html(i: IndicatorV) -> Seq<char> {
    "<li>"@ + escaped(i.label) + ": "@ + escaped(i.current) + " ("@ + escaped(note_or_latest(i.note))
        + ")</li>\n"@
}

pub open spec fn body_html(k: CardKindV) -> Seq<char> {
    match k {
        CardKindV::Image { image } => image_html(image),
        CardKindV::Gallery { images } => concat(images.map_values(|g: GalleryImageV| image_html(g))),
        CardKindV::Stat { value, note } => "<p><strong>"@ + escaped(value) + "</strong>"@ + paren_html(
            note,
        ) + "</p>\n"@,
        CardKindV::Meter { value, display, note, min, max, .. } => "<p><strong>"@ + escaped(display)
            + "</strong>"@ + paren_html(note) + "</p>\n<meter min=\""@ + escaped(min) + "\" max=\""@
            + escaped(max) + "\" value=\""@ + escaped(value) + "\"></meter>\n"@,
        CardKindV::StatSeries { current, note, series } => "<p><strong>"@ + escaped(current)
            + "</strong> ("@ + escaped(note_or_latest(note)) + ")</p>\n<ul>\n"@ + concat(
            series.map_values(|p: SeriesPointV| point_html(p)),
        ) + "</ul>\n"@,
        CardKindV::GeoMap { lat, lon, .. } => "<p>"@ + escaped(lat) + ", "@ + escaped(lon) + "</p>\n"@,
        CardKindV::Facts { rows } => "<dl>\n"@ + concat(rows.map_values(|r: FactRowV| row_html(r)))
            + "</dl>\n"@,
        CardKindV::Timeline { events } => "<ol>\n"@ + concat(
            events.map_values(|e: TimelineEventV| event_html(e)),
        ) + "</ol>\n"@,
        CardKindV::Indicators { indicators } => "<ul>\n"@ + concat(
            indicators.map_values(|i: IndicatorV| indicator_html(i)),
        ) + "</ul>\n"@,
    }
}

pub open spec fn card_html(c: CardV) -> Seq<char> {
    "<section>\n<h2>"@ + escaped(c.title) + "</h2>\n"@ + body_html(c.kind) + "</section>\n"@
}

/// The page as a plain semantic HTML fragment (no styling), every text
/// escaped.
pub open spec fn page_html(p: FactoidPageV) -> Seq<char> {
    "<article>\n"@ + (match p.label {
        Some(l) => "<h1>"@ + escaped(l) + "</h1>\n"@,
        None => Seq::empty(),
    }) + (match p.description {
        Some(d) => "<p>"@ + escaped(d) + "</p>\n"@,
        None => Seq::empty(),
    }) + concat(p.all_cards().map_values(|c: CardV| card_html(c))) + "</article>\n"@
}

fn value_html_exec(out: &mut String, v: &FactValue)
    ensures
        final(out)@ == old(out)@ + value_line_html(v@),
{
    let ctx = context_exec(v);
    push_str(out, "<dd>");
    match v {
        FactValue::Item(c) => {
            push_str(out, "<a href=\"");
            push_str(out, WIKIDATA_URL);
            push_str(out, "/");
            push_escaped(out, c.qid.as_str());
            push_str(out, "\">");
            push_escaped(out, c.label.as_str());
            push_str(out, "</a>");
            paren_html_exec(out, &ctx);
        },
        FactValue::Link { url } => {
            push_str(out, "<a href=\"");
            push_escaped(out, url.as_str());
            push_str(out, "\">");
            push_escaped(out, url.as_str());
            push_str(out, "</a>");
        },
        FactValue::Text { value, .. } => {
            push_escaped(out, value.as_str());
            paren_html_exec(out, &ctx);
        },
    }
    push_str(out, "</dd>\n");
}

fn row_html_exec(out: &mut String, r: &FactRow)
    ensures
        final(out)@ == old(out)@ + row_html(r@),
{
    push_str(out, "<dt>");
    push_escaped(out, r.label.as_str());
    push_str(out, "</dt>\n");
    let ghost o1 = out@;
    let ghost parts = r@.values.map_values(|v: FactValueV| value_line_html(v));
    for i in 0..r.values.len()
        invariant
            parts == r@.values.map_values(|v: FactValueV| value_line_html(v)),
            out@ == o1 + concat(parts.take(i as int)),
    {
        proof { lemma_concat_step(parts, i as int); }
        assert(r@.values[i as int] == r.values@[i as int]@);
        value_html_exec(out, &r.values[i]);
    }
    assert(parts.take(parts.len() as int) =~= parts);
}

fn image_html_exec(out: &mut String, image: &GalleryImage)
    ensures
        final(out)@ == old(out)@ + image_html(image@),
{
    push_str(out, "<figure><img src=\"");
    push_escaped(out, image.thumb_url.as_str());
    push_str(out, "\" alt=\"");
    push_escaped(out, image.caption.as_str());
    push_str(out, "\"></figure>\n");
}

#[verifier::rlimit(60)]
fn body_html_exec(out: &mut String, k: &CardKind)
    ensures
        final(out)@ == old(out)@ + body_html(k@),
{
    let ghost o0 = out@;
    match k {
        CardKind::Image { image } => {
            image_html_exec(out, image);
        },
        CardKind::Gallery { images } => {
            let ghost parts = images@.map_values(|g: GalleryImage| g@).map_values(|g: GalleryImageV| image_html(g));
            for i in 0..images.len()
                invariant
                    parts == images@.map_values(|g: GalleryImage| g@).map_values(|g: GalleryImageV| image_html(g)),
                    out@ == o0 + concat(parts.take(i as int)),
            {
                proof { lemma_concat_step(parts, i as int); }
                image_html_exec(out, &images[i]);
            }
            assert(parts.take(parts.len() as int) =~= parts);
        },
        CardKind::Stat { value, note } => {
            push_str(out, "<p><strong>");
            push_escaped(out, value.as_str());
            push_str(out, "</strong>");
            paren_html_exec(out, note);
            push_str(out, "</p>\n");
        },
        CardKind::Meter { value, display, note, min, max, .. } => {
            push_str(out, "<p><strong>");
            push_escaped(out, display.as_str());
            push_str(out, "</strong>");
            paren_html_exec(out, note);
            push_str(out, "</p>\n<meter min=\"");
            push_escaped(out, min.as_str());
            push_str(out, "\" max=\"");
            push_escaped(out, max.as_str());
            push_str(out, "\" value=\"");
            push_escaped(out, value.as_str());
            push_str(out, "\"></meter>\n");
        },
        CardKind::StatSeries { current, note, series } => {
            push_str(out, "<p><strong>");
            push_escaped(out, current.as_str());
            push_str(out, "</strong> (");
            match note {
                Some(n) => push_escaped(out, n.as_str()),
                None => push_escaped(out, "latest"),
            }
            push_str(out, ")</p>\n<ul>\n");
            let ghost o1 = out@;
            let ghost parts = series@.map_values(|p: SeriesPoint| p@).map_values(|p: SeriesPointV| point_html(p));
            for i in 0..series.len()
                invariant
                    parts == series@.map_values(|p: SeriesPoint| p@).map_values(|p: SeriesPointV| point_html(p)),
                    out@ == o1 + concat(parts.take(i as int)),
            {
                proof { lemma_concat_step(parts, i as int); }
                let p = &series[i];
                push_str(out, "<li>");
                push_escaped(out, p.label.as_str());
                push_str(out, ": ");
                push_escaped(out, p.display.as_str());
                push_str(out, "</li>\n");
            }
            assert(parts.take(parts.len() as int) =~= parts);
            push_str(out, "</ul>\n");
        },
        CardKind::GeoMap { lat, lon, .. } => {
            push_str(out, "<p>");
            push_escaped(out, lat.as_str());
            push_str(out, ", ");
            push_escaped(out, lon.as_str());
            push_str(out, "</p>\n");
        },
        CardKind::Facts { rows } => {
            push_str(out, "<dl>\n");
            let ghost o1 = out@;
            let ghost parts = rows@.map_values(|r: FactRow| r@).map_values(|r: FactRowV| row_html(r));
            for i in 0..rows.len()
                invariant
                    parts == rows@.map_values(|r: FactRow| r@).map_values(|r: FactRowV| row_html(r)),
                    out@ == o1 + concat(parts.take(i as int)),
            {
                proof { lemma_concat_step(parts, i as int); }
                row_html_exec(out, &rows[i]);
            }
            assert(parts.take(parts.len() as int) =~= parts);
            push_str(out, "</dl>\n");
        },
        CardKind::Timeline { events } => {
            push_str(out, "<ol>\n");
            let ghost o1 = out@;
            let ghost parts = events@.map_values(|e: TimelineEvent| e@).map_values(|e: TimelineEventV| event_html(e));
            for i in 0..events.len()
                invariant
                    parts == events@.map_values(|e: TimelineEvent| e@).map_values(|e: TimelineEventV| event_html(e)),
                    out@ == o1 + concat(parts.take(i as int)),
            {
                proof { lemma_concat_step(parts, i as int); }
                let e = &events[i];
                push_str(out, "<li>");
                push_escaped(out, e.display.as_str());
                push_str(out, ": ");
                push_escaped(out, e.label.as_str());
                paren_html_exec(out, &e.detail);
                push_str(out, "</li>\n");
            }
            assert(parts.take(parts.len() as int) =~= parts);
            push_str(out, "</ol>\n");
        },
        CardKind::Indicators { indicators } => {
            push_str(out, "<ul>\n");
            let ghost o1 = out@;
            let ghost parts = indicators@.map_values(|x: Indicator| x@).map_values(|x: IndicatorV| indicator_html(x));
            for i in 0..indicators.len()
                invariant
                    parts == indicators@.map_values(|x: Indicator| x@).map_values(|x: IndicatorV| indicator_html(x)),
                    out@ == o1 + concat(parts.take(i as int)),
            {
                proof { lemma_concat_step(parts, i as int); }
                let x = &indicators[i];
                push_str(out, "<li>");
                push_escaped(out, x.label.as_str());
                push_str(out, ": ");
                push_escaped(out, x.current.as_str());
                push_str(out, " (");
                match &x.note {
                    Some(n) => push_escaped(out, n.as_str()),
                    None => push_escaped(out, "latest"),
                }
                push_str(out, ")</li>\n");
            }
            assert(parts.take(parts.len() as int) =~= parts);
            push_str(out, "</ul>\n");
        },
    }
}

/// Plain semantic HTML fragment (no styling), for embedding.
pub fn render_html(page: &FactoidPage) -> (res: String)
    ensures
        res@ == page_html(page@),
{
    let mut out = owned("<article>\n");
    match &page.label {
        Some(label) => {
            push_str(&mut out, "<h1>");
            push_escaped(&mut out, label.as_str());
            push_str(&mut out, "</h1>\n");
        },
        None => {},
    }
    match &page.description {
        Some(d) => {
            push_str(&mut out, "<p>");
            push_escaped(&mut out, d.as_str());
            push_str(&mut out, "</p>\n");
        },
        None => {},
    }
    let ghost o0 = out@;
    let cards = page.all_cards();
    let ghost parts = cards@.map_values(|c: &Card| c@).map_values(|c: CardV| card_html(c));
    for i in 0..cards.len()
        invariant
            parts == cards@.map_values(|c: &Card| c@).map_values(|c: CardV| card_html(c)),
            out@ == o0 + concat(parts.take(i as int)),
    {
        proof { lemma_concat_step(parts, i as int); }
        let card = cards[i];
        push_str(&mut out, "<section>\n<h2>");
        push_escaped(&mut out, card.title.as_str());
        push_str(&mut out, "</h2>\n");
        body_html_exec(&mut out, &card.kind);
        push_str(&mut out, "</section>\n");
    }
    assert(parts.take(parts.len() as int) =~= parts);
    push_str(&mut out, "</article>\n");
    out
}

/// Escaped text holds no `<`, `>` or `"`: markup in values cannot
/// open or close a tag, or end an attribute.
pub proof fn escaped_is_inert(s: Seq<char>)
    ensures
        forall|i: int|
            0 <= i < escaped(s).len() ==> #[trigger] escaped(s)[i] != '<' && escaped(s)[i] != '>'
                && escaped(s)[i] != '"',
    decreases s.len(),
{
    if s.len() > 0 {
        escaped_is_inert(s.drop_last());
        reveal_strlit("&amp;");
        reveal_strlit("&lt;");
        reveal_strlit("&gt;");
        reveal_strlit("&quot;");
        let a = escaped(s.drop_last());
        let b = escape_char(s.last());
        assert forall|i: int| 0 <= i < (a + b).len() implies #[trigger] (a + b)[i] != '<' && (a
            + b)[i] != '>' && (a + b)[i] != '"' by {
            if i < a.len() {
                assert((a + b)[i] == a[i]);
            } else {
                assert((a + b)[i] == b[i - a.len()]);
            }
        }
    }
}

/// A map card reads latitude first, then longitude, in every textual
/// backend, as one line, and as in the merged coordinate list: the plain
/// text and markdown body is the coordinate list's "lat, lon" text and a
/// newline, wikitext puts it in an indented line, HTML in a paragraph.
pub proof fn maps_read_latitude_first(c: CardV)
    requires
        c.kind is GeoMap,
    ensures
        ({
            let lat = c.kind->GeoMap_lat;
            let lon = c.kind->GeoMap_lon;
            &&& crate::cards::density::coordinate_row(c).values == seq![
                FactValueV::Text { value: lat + ", "@ + lon, span: None, note: None },
            ]
            &&& card_plain(c) == "\n## "@ + c.title + "\n"@ + (lat + ", "@ + lon) + "\n"@
            &&& body_plain(c.kind) == lat + ", "@ + lon + "\n"@
            &&& body_md(c.kind) == lat + ", "@ + lon + "\n"@
            &&& body_wiki(c.kind) == ":* "@ + lat + ", "@ + lon + "\n"@
            &&& body_html(c.kind) == "<p>"@ + escaped(lat) + ", "@ + escaped(lon) + "</p>\n"@
        }),
{
    let lat = c.kind->GeoMap_lat;
    let lon = c.kind->GeoMap_lon;
    assert("\n## "@ + c.title + "\n"@ + (lat + ", "@ + lon + "\n"@) =~= "\n## "@ + c.title + "\n"@ + (lat
        + ", "@ + lon) + "\n"@);
}

} // verus!
