//! Presentation planning: pick each card's visual variant and the grid
//! size it fills, from the card's own content.

use vstd::prelude::*;

use crate::cards::synthesis::{thumb_text, thumb_url};
use crate::cards::{
    Card, CardKind, CardKindV, CardV, FactRow, FactRowV, FactValue, FactValueV, ItemChipV, Layout,
};
use crate::sort::{lemma_sorted_map, sort_by, sorted_by};

verus! {

#[derive(Debug, Clone, Copy, PartialEq, Eq, Structural)]
pub enum Variant {
    /// Full-bleed single media value
    MediaFull,
    /// Horizontal scroll-snap strip of media
    GalleryStrip,
    /// One big number
    StatBlock,
    /// Current number + history bars (distinct years)
    Trend,
    /// A quantity on a config-declared scale
    Gauge,
    /// Static map tile
    MapPanel,
    /// Cross-property chronology
    Timeline,
    /// One or two items, at least one with an image
    Portrait,
    /// One or two plain values: a single compact line
    FactLine,
    /// Values with ended spans: what holds now emphasized, history beneath
    CurrentWithHistory,
    /// Three or more items, mostly with images
    TileStrip,
    /// Item enumeration with few images
    ChipList,
    /// Consolidated sibling time series
    IndicatorTable,
    /// Multi-property labeled rows (the grouped workhorse)
    FactsTable,
}

} // verus!

verus! {

impl Variant {
    pub open spec fn spec_is_chip_cover(self) -> bool {
        self == Variant::ChipList || self == Variant::TileStrip
    }

    /// Cover-chips presentation: the card shows the two best chips; the
    /// full list opens in a popover.
    pub fn is_chip_cover(&self) -> (res: bool)
        ensures
            res == self.spec_is_chip_cover(),
    {
        match self {
            Variant::ChipList | Variant::TileStrip => true,
            _ => false,
        }
    }

    pub open spec fn name(self) -> Seq<char> {
        match self {
            Variant::MediaFull => "media-full"@,
            Variant::GalleryStrip => "gallery-strip"@,
            Variant::StatBlock => "stat-block"@,
            Variant::Trend => "trend"@,
            Variant::Gauge => "gauge"@,
            Variant::MapPanel => "map-panel"@,
            Variant::Timeline => "timeline"@,
            Variant::Portrait => "portrait"@,
            Variant::FactLine => "fact-line"@,
            Variant::CurrentWithHistory => "current-history"@,
            Variant::TileStrip => "tile-strip"@,
            Variant::ChipList => "chip-list"@,
            Variant::IndicatorTable => "indicator-table"@,
            Variant::FactsTable => "facts-table"@,
        }
    }

    /// Kebab-case name used by the JSON API and the factoid page.
    pub fn as_str(&self) -> (res: &'static str)
        ensures
            res@ == self.name(),
    {
        match self {
            Variant::MediaFull => "media-full",
            Variant::GalleryStrip => "gallery-strip",
            Variant::StatBlock => "stat-block",
            Variant::Trend => "trend",
            Variant::Gauge => "gauge",
            Variant::MapPanel => "map-panel",
            Variant::Timeline => "timeline",
            Variant::Portrait => "portrait",
            Variant::FactLine => "fact-line",
            Variant::CurrentWithHistory => "current-history",
            Variant::TileStrip => "tile-strip",
            Variant::ChipList => "chip-list",
            Variant::IndicatorTable => "indicator-table",
            Variant::FactsTable => "facts-table",
        }
    }
}

pub open spec fn default_variant() -> Variant {
    Variant::FactsTable
}

impl Default for Variant {
    fn default() -> (res: Variant)
        ensures
            res == default_variant(),
    {
        Variant::FactsTable
    }
}

} // verus!

verus! {

pub open spec fn has_image(v: FactValueV) -> bool {
    match v {
        FactValueV::Item(chip) => chip.thumb_url is Some,
        _ => false,
    }
}

pub open spec fn is_ended(v: FactValueV) -> bool {
    match v {
        FactValueV::Item(chip) => chip.ended(),
        FactValueV::Text { span, .. } => match span {
            Some(s) => s.end is Some,
            None => false,
        },
        FactValueV::Link { .. } => false,
    }
}

pub open spec fn count_images(values: Seq<FactValueV>) -> nat
    decreases values.len(),
{
    if values.len() == 0 {
        0
    } else {
        count_images(values.drop_last()) + if has_image(values.last()) { 1nat } else { 0nat }
    }
}

pub open spec fn count_ended(values: Seq<FactValueV>) -> nat
    decreases values.len(),
{
    if values.len() == 0 {
        0
    } else {
        count_ended(values.drop_last()) + if is_ended(values.last()) { 1nat } else { 0nat }
    }
}

/// What a Facts card actually holds: the input to variant selection.
pub struct Census {
    pub values: usize,
    pub with_image: usize,
    pub ended: usize,
}

pub fn census(values: &Vec<FactValue>) -> (c: Census)
    ensures
        c.values == values@.len(),
        c.with_image == count_images(values@.map_values(|v: FactValue| v@)),
        c.ended == count_ended(values@.map_values(|v: FactValue| v@)),
{
    let ghost vs = values@.map_values(|v: FactValue| v@);
    let mut c = Census { values: values.len(), with_image: 0, ended: 0 };
    for i in 0..values.len()
        invariant
            vs == values@.map_values(|v: FactValue| v@),
            c.values == values@.len(),
            c.with_image == count_images(vs.take(i as int)),
            c.ended == count_ended(vs.take(i as int)),
            c.with_image <= i,
            c.ended <= i,
    {
        let (image, ended) = match &values[i] {
            FactValue::Item(chip) => (chip.thumb_url.is_some(), chip.ended()),
            FactValue::Text { span, .. } => (
                false,
                match span {
                    Some(s) => s.ended(),
                    None => false,
                },
            ),
            FactValue::Link { .. } => (false, false),
        };
        assert(vs.take(i as int + 1).drop_last() =~= vs.take(i as int));
        if image {
            c.with_image = c.with_image + 1;
        }
        if ended {
            c.ended = c.ended + 1;
        }
    }
    assert(vs.take(values.len() as int) =~= vs);
    c
}

/// The variant a card's kind and content census choose.
pub open spec fn select_variant(kind: CardKindV) -> Variant {
    match kind {
        CardKindV::Image { .. } => Variant::MediaFull,
        CardKindV::Gallery { .. } => Variant::GalleryStrip,
        CardKindV::Stat { .. } => Variant::StatBlock,
        CardKindV::StatSeries { .. } => Variant::Trend,
        CardKindV::Meter { .. } => Variant::Gauge,
        CardKindV::GeoMap { .. } => Variant::MapPanel,
        CardKindV::Timeline { .. } => Variant::Timeline,
        CardKindV::Indicators { .. } => Variant::IndicatorTable,
        CardKindV::Facts { rows } => if rows.len() != 1 {
            Variant::FactsTable
        } else {
            let values = rows[0].values;
            let n = values.len();
            let images = count_images(values);
            if n <= 2 && images >= 1 {
                Variant::Portrait
            } else if n <= 2 {
                Variant::FactLine
            } else if images * 5 >= n * 3 {
                Variant::TileStrip
            } else if count_ended(values) >= 1 {
                Variant::CurrentWithHistory
            } else {
                Variant::ChipList
            }
        },
    }
}

pub fn select(kind: &CardKind) -> (res: Variant)
    ensures
        res == select_variant(kind@),
{
    match kind {
        CardKind::Image { .. } => Variant::MediaFull,
        CardKind::Gallery { .. } => Variant::GalleryStrip,
        CardKind::Stat { .. } => Variant::StatBlock,
        CardKind::StatSeries { .. } => Variant::Trend,
        CardKind::Meter { .. } => Variant::Gauge,
        CardKind::GeoMap { .. } => Variant::MapPanel,
        CardKind::Timeline { .. } => Variant::Timeline,
        CardKind::Indicators { .. } => Variant::IndicatorTable,
        CardKind::Facts { rows } => {
            if rows.len() != 1 {
                return Variant::FactsTable;
            }
            let c = census(&rows[0].values);
            assert(rows@[0]@.values == rows@[0].values@.map_values(|v: FactValue| v@));
            if c.values <= 2 && c.with_image >= 1 {
                Variant::Portrait
            } else if c.values <= 2 {
                Variant::FactLine
            } else if (c.with_image as u128) * 5 >= (c.values as u128) * 3 {
                Variant::TileStrip
            } else if c.ended >= 1 {
                Variant::CurrentWithHistory
            } else {
                Variant::ChipList
            }
        },
    }
}

pub open spec fn total_values(rows: Seq<FactRowV>) -> nat
    decreases rows.len(),
{
    if rows.len() == 0 {
        0
    } else {
        total_values(rows.drop_last()) + rows.last().values.len()
    }
}

/// Rows of a facts table: one per three values plus a header row,
/// between two and four.
pub open spec fn facts_table_rows(total: nat) -> u8 {
    let with_header = 1 + (total + 2) / 3;
    if with_header < 2 {
        2
    } else if with_header > 4 {
        4
    } else {
        with_header as u8
    }
}

/// Fixed size per variant, in grid units; content only picks between a
/// variant's few steps.
pub open spec fn variant_size(variant: Variant, kind: CardKindV) -> (u8, u8) {
    match (variant, kind) {
        (Variant::MediaFull, _) => (2, 2),
        (Variant::GalleryStrip, CardKindV::Gallery { images }) => (
            if images.len() >= 4 { 6 } else { 4 },
            2,
        ),
        (Variant::StatBlock, CardKindV::Stat { value, .. }) => (
            2,
            if vstd::utf8::encode_utf8(value).len() > 32 { 2 } else { 1 },
        ),
        (Variant::Trend, CardKindV::StatSeries { series, .. }) => (
            2,
            if series.len() > 6 { 3 } else { 2 },
        ),
        (Variant::Gauge, _) => (2, 1),
        (Variant::MapPanel, _) => (1, 1),
        (Variant::Timeline, CardKindV::Timeline { events }) => (
            2,
            if events.len() > 6 { 4 } else { 3 },
        ),
        (Variant::Portrait, CardKindV::Facts { rows }) => if rows[0].values.len() == 1 {
            (2, 2)
        } else {
            (3, 2)
        },
        (Variant::FactLine, _) => (2, 1),
        (Variant::CurrentWithHistory, CardKindV::Facts { rows }) => (
            2,
            if rows[0].values.len() <= 3 { 2 } else { 3 },
        ),
        (Variant::TileStrip, _) => (3, 2),
        (Variant::IndicatorTable, CardKindV::Indicators { indicators }) => (
            4,
            if indicators.len() > 7 { 3 } else { 2 },
        ),
        (Variant::ChipList, _) => (3, 2),
        (Variant::FactsTable, CardKindV::Facts { rows }) => (2, facts_table_rows(total_values(rows))),
        _ => (2, 2),
    }
}

pub fn size(variant: Variant, kind: &CardKind) -> (res: (u8, u8))
    requires
        variant == select_variant(kind@),
    ensures
        res == variant_size(variant, kind@),
{
    match (variant, kind) {
        (Variant::MediaFull, _) => (2, 2),
        (Variant::GalleryStrip, CardKind::Gallery { images }) => (
            if images.len() >= 4 { 6 } else { 4 },
            2,
        ),
        (Variant::StatBlock, CardKind::Stat { value, .. }) => (
            2,
            if value.as_str().as_bytes().len() > 32 { 2 } else { 1 },
        ),
        (Variant::Trend, CardKind::StatSeries { series, .. }) => (
            2,
            if series.len() > 6 { 3 } else { 2 },
        ),
        (Variant::Gauge, _) => (2, 1),
        (Variant::MapPanel, _) => (1, 1),
        (Variant::Timeline, CardKind::Timeline { events }) => (
            2,
            if events.len() > 6 { 4 } else { 3 },
        ),
        (Variant::Portrait, CardKind::Facts { rows }) => {
            assert(rows@[0]@.values.len() == rows@[0].values@.len());
            if rows[0].values.len() == 1 {
                (2, 2)
            } else {
                (3, 2)
            }
        },
        (Variant::FactLine, _) => (2, 1),
        (Variant::CurrentWithHistory, CardKind::Facts { rows }) => {
            assert(rows@[0]@.values.len() == rows@[0].values@.len());
            (2, if rows[0].values.len() <= 3 { 2 } else { 3 })
        },
        (Variant::TileStrip, _) => (3, 2),
        (Variant::IndicatorTable, CardKind::Indicators { indicators }) => (
            4,
            if indicators.len() > 7 { 3 } else { 2 },
        ),
        (Variant::ChipList, _) => (3, 2),
        (Variant::FactsTable, CardKind::Facts { rows }) => {
            let ghost rv = rows@.map_values(|r: FactRow| r@);
            let mut total: u128 = 0;
            for i in 0..rows.len()
                invariant
                    rv == rows@.map_values(|r: FactRow| r@),
                    total == total_values(rv.take(i as int)),
                    total <= i * 0xffff_ffff_ffff_ffffu128,
                    rows@.len() <= 0xffff_ffff_ffff_ffff,
            {
                assert(rv.take(i as int + 1).drop_last() =~= rv.take(i as int));
                let n = rows[i].values.len();
                assert(n <= 0xffff_ffff_ffff_ffff);
                assert(total + n <= (i + 1) * 0xffff_ffff_ffff_ffffu128) by (nonlinear_arith)
                    requires
                        total <= i * 0xffff_ffff_ffff_ffffu128,
                        n <= 0xffff_ffff_ffff_ffff,
                ;
                assert((i + 1) * 0xffff_ffff_ffff_ffffu128 <= 0xffff_ffff_ffff_ffff * 0xffff_ffff_ffff_ffffu128) by (nonlinear_arith)
                    requires
                        i < 0xffff_ffff_ffff_ffff,
                ;
                total = total + n as u128;
            }
            assert(rv.take(rows.len() as int) =~= rv);
            let third: u128 = total / 3 + if total % 3 == 0 { 0 } else { 1 };
            assert(third == (total + 2) / 3);
            let with_header: u128 = 1 + third;
            let r: u8 = if with_header < 2 {
                2
            } else if with_header > 4 {
                4
            } else {
                with_header as u8
            };
            (2, r)
        },
        _ => (2, 2),
    }
}

/// Image tiles need real resolution; round chip thumbs don't.
pub const TILE_THUMB_WIDTH: usize = 400;

pub open spec fn cover_key(v: FactValueV) -> (bool, bool) {
    match v {
        FactValueV::Item(chip) => (!chip.current, chip.thumb_url is None),
        _ => (true, true),
    }
}

/// Cover order: preferred rank first, then values with a picture.
pub open spec fn cover_before(a: FactValueV, b: FactValueV) -> bool {
    let (a0, a1) = cover_key(a);
    let (b0, b1) = cover_key(b);
    (!a0 && b0) || (a0 == b0 && !a1 && b1)
}

pub open spec fn tile_thumb(v: FactValueV) -> FactValueV {
    match v {
        FactValueV::Item(chip) => match chip.image_url {
            Some(u) => FactValueV::Item(
                ItemChipV { thumb_url: Some(thumb_text(u, TILE_THUMB_WIDTH as nat)), ..chip },
            ),
            None => v,
        },
        _ => v,
    }
}

pub open spec fn tile_row(r: FactRowV) -> FactRowV {
    FactRowV { values: r.values.map_values(|v: FactValueV| tile_thumb(v)), ..r }
}

pub open spec fn is_tile_variant(v: Variant) -> bool {
    v == Variant::Portrait || v == Variant::TileStrip || v == Variant::ChipList
}

/// A card with its variant chosen, its size set, cover-chips values put
/// in cover order, and tile variants carrying tile-sized thumbnails.
pub open spec fn planned(card: CardV) -> CardV {
    let variant = select_variant(card.kind);
    let (cols, rows) = variant_size(variant, card.kind);
    let kind1 = if variant.spec_is_chip_cover() {
        match card.kind {
            CardKindV::Facts { rows } => CardKindV::Facts {
                rows: rows.update(
                    0,
                    FactRowV {
                        values: sorted_by(
                            rows[0].values,
                            |a: FactValueV, b: FactValueV| cover_before(a, b),
                        ),
                        ..rows[0]
                    },
                ),
            },
            k => k,
        }
    } else {
        card.kind
    };
    let kind2 = if is_tile_variant(variant) {
        match kind1 {
            CardKindV::Facts { rows } => CardKindV::Facts {
                rows: rows.map_values(|r: FactRowV| tile_row(r)),
            },
            k => k,
        }
    } else {
        kind1
    };
    CardV { variant, layout: Layout { cols, rows, ..card.layout }, kind: kind2, ..card }
}

fn cover_less(a: &FactValue, b: &FactValue) -> (r: bool)
    ensures
        r == cover_before(a@, b@),
{
    let ka = match a {
        FactValue::Item(chip) => (!chip.current, chip.thumb_url.is_none()),
        _ => (true, true),
    };
    let kb = match b {
        FactValue::Item(chip) => (!chip.current, chip.thumb_url.is_none()),
        _ => (true, true),
    };
    (!ka.0 && kb.0) || (ka.0 == kb.0 && !ka.1 && kb.1)
}

fn tile_value(v: FactValue) -> (res: FactValue)
    ensures
        res@ == tile_thumb(v@),
{
    match v {
        FactValue::Item(mut chip) => {
            let t = match &chip.image_url {
                Some(u) => Some(thumb_url(u.as_str(), TILE_THUMB_WIDTH)),
                None => None,
            };
            if t.is_some() {
                chip.thumb_url = t;
            }
            FactValue::Item(chip)
        },
        other => other,
    }
}

fn tile_rows(rows: Vec<FactRow>) -> (res: Vec<FactRow>)
    ensures
        res@.map_values(|r: FactRow| r@) == rows@.map_values(|r: FactRow| r@).map_values(
            |r: FactRowV| tile_row(r),
        ),
{
    let ghost all = rows@.map_values(|r: FactRow| r@);
    let mut out: Vec<FactRow> = Vec::new();
    for row in it: rows
        invariant
            all == it.seq().map_values(|r: FactRow| r@),
            out@.map_values(|r: FactRow| r@) == all.take(it.index() as int).map_values(
                |r: FactRowV| tile_row(r),
            ),
    {
        let ghost i = it.index();
        let FactRow { label, values } = row;
        let ghost vs = values@.map_values(|v: FactValue| v@);
        let mut nv: Vec<FactValue> = Vec::new();
        for v in jt: values
            invariant
                vs == jt.seq().map_values(|v: FactValue| v@),
                nv@.map_values(|v: FactValue| v@) == vs.take(jt.index() as int).map_values(
                    |v: FactValueV| tile_thumb(v),
                ),
        {
            let ghost j = jt.index();
            let ghost prev = nv@.map_values(|v: FactValue| v@);
            assert(vs[j as int] == v@);
            let t = tile_value(v);
            nv.push(t);
            assert(nv@.map_values(|v: FactValue| v@) =~= prev.push(tile_thumb(vs[j as int])));
            assert(nv@.map_values(|v: FactValue| v@) =~= vs.take(j + 1).map_values(
                |v: FactValueV| tile_thumb(v),
            ));
        }
        assert(vs.take(vs.len() as int) =~= vs);
        let r = FactRow { label, values: nv };
        let ghost prev = out@.map_values(|r: FactRow| r@);
        assert(r@ == tile_row(all[i as int]));
        out.push(r);
        assert(out@.map_values(|r: FactRow| r@) =~= prev.push(tile_row(all[i as int])));
        assert(out@.map_values(|r: FactRow| r@) =~= all.take(i + 1).map_values(
            |r: FactRowV| tile_row(r),
        ));
    }
    assert(all.take(all.len() as int) =~= all);
    out
}

/// Choose the card's variant and size, and arrange its values for it.
pub fn apply(card: Card) -> (res: Card)
    ensures
        res@ == planned(card@),
{
    let ghost c0 = card@;
    let variant = select(&card.kind);
    let (cols, rows_span) = size(variant, &card.kind);
    let Card { title, localized_title, icon, source_pids, variant: _, layout, tier, kind } = card;
    let ghost want1 = if variant.spec_is_chip_cover() {
        match c0.kind {
            CardKindV::Facts { rows } => CardKindV::Facts {
                rows: rows.update(
                    0,
                    FactRowV {
                        values: sorted_by(
                            rows[0].values,
                            |a: FactValueV, b: FactValueV| cover_before(a, b),
                        ),
                        ..rows[0]
                    },
                ),
            },
            k => k,
        }
    } else {
        c0.kind
    };
    let kind1 = if variant.is_chip_cover() {
        match kind {
            CardKind::Facts { mut rows } => {
                let ghost old_rows = rows@.map_values(|r: FactRow| r@);
                assert(rows@.len() == 1);
                let row = rows.remove(0);
                let FactRow { label, values } = row;
                let ghost exec_vals = values@;
                let sorted = sort_by(
                    values,
                    cover_less,
                    Ghost(|a: FactValue, b: FactValue| cover_before(a@, b@)),
                );
                proof {
                    lemma_sorted_map(
                        exec_vals,
                        |v: FactValue| v@,
                        |a: FactValue, b: FactValue| cover_before(a@, b@),
                        |a: FactValueV, b: FactValueV| cover_before(a, b),
                    );
                }
                let new_row = FactRow { label, values: sorted };
                assert(new_row@ == FactRowV {
                    values: sorted_by(
                        old_rows[0].values,
                        |a: FactValueV, b: FactValueV| cover_before(a, b),
                    ),
                    ..old_rows[0]
                });
                rows.insert(0, new_row);
                assert(rows@.map_values(|r: FactRow| r@) =~= old_rows.update(0, new_row@));
                CardKind::Facts { rows }
            },
            k => k,
        }
    } else {
        kind
    };
    assert(kind1@ == want1);
    let kind2 = if matches!(variant, Variant::Portrait | Variant::TileStrip | Variant::ChipList) {
        match kind1 {
            CardKind::Facts { rows } => CardKind::Facts { rows: tile_rows(rows) },
            k => k,
        }
    } else {
        kind1
    };
    Card {
        title,
        localized_title,
        icon,
        source_pids,
        variant,
        layout: Layout { cols, rows: rows_span, ..layout },
        tier,
        kind: kind2,
    }
}

} // verus!

verus! {

/// Distinct variants have distinct names, so the name identifies the
/// variant for the JSON API and the page.
pub proof fn variant_names_distinct(a: Variant, b: Variant)
    requires
        a != b,
    ensures
        a.name() != b.name(),
{
    reveal_strlit("media-full");
    reveal_strlit("gallery-strip");
    reveal_strlit("stat-block");
    reveal_strlit("trend");
    reveal_strlit("gauge");
    reveal_strlit("map-panel");
    reveal_strlit("timeline");
    reveal_strlit("portrait");
    reveal_strlit("fact-line");
    reveal_strlit("current-history");
    reveal_strlit("tile-strip");
    reveal_strlit("chip-list");
    reveal_strlit("indicator-table");
    reveal_strlit("facts-table");
    if a.name() == b.name() {
        assert(a.name().len() == b.name().len());
        assert(a.name()[0] == b.name()[0]);
        assert(a.name()[1] == b.name()[1]);
        assert(a.name()[2] == b.name()[2]);
    }
}

/// Lower-case ASCII words joined by single hyphens.
pub open spec fn kebab_case(s: Seq<char>) -> bool {
    &&& s.len() > 0
    &&& forall|i: int| 0 <= i < s.len() ==> ('a' <= #[trigger] s[i] <= 'z' || s[i] == '-')
    &&& s[0] != '-'
    &&& s[s.len() - 1] != '-'
    &&& forall|i: int| 0 <= i < s.len() - 1 ==> !(#[trigger] s[i] == '-' && s[i + 1] == '-')
}

/// Every variant's name is kebab-case.
pub proof fn variant_names_are_kebab_case(v: Variant)
    ensures
        kebab_case(v.name()),
{
    match v {
        Variant::MediaFull => reveal_strlit("media-full"),
        Variant::GalleryStrip => reveal_strlit("gallery-strip"),
        Variant::StatBlock => reveal_strlit("stat-block"),
        Variant::Trend => reveal_strlit("trend"),
        Variant::Gauge => reveal_strlit("gauge"),
        Variant::MapPanel => reveal_strlit("map-panel"),
        Variant::Timeline => reveal_strlit("timeline"),
        Variant::Portrait => reveal_strlit("portrait"),
        Variant::FactLine => reveal_strlit("fact-line"),
        Variant::CurrentWithHistory => reveal_strlit("current-history"),
        Variant::TileStrip => reveal_strlit("tile-strip"),
        Variant::ChipList => reveal_strlit("chip-list"),
        Variant::IndicatorTable => reveal_strlit("indicator-table"),
        Variant::FactsTable => reveal_strlit("facts-table"),
    }
}

proof fn lemma_count_images_positive(values: Seq<FactValueV>)
    ensures
        count_images(values) >= 1 <==> exists|i: int|
            0 <= i < values.len() && (#[trigger] values[i] matches FactValueV::Item(chip) && chip.thumb_url is Some),
    decreases values.len(),
{
    if values.len() > 0 {
        let d = values.drop_last();
        lemma_count_images_positive(d);
        if exists|i: int| 0 <= i < d.len() && (#[trigger] d[i] matches FactValueV::Item(chip) && chip.thumb_url is Some) {
            let i = choose|i: int| 0 <= i < d.len() && (#[trigger] d[i] matches FactValueV::Item(chip) && chip.thumb_url is Some);
            assert(values[i] == d[i]);
        }
        if exists|i: int| 0 <= i < values.len() && (#[trigger] values[i] matches FactValueV::Item(chip) && chip.thumb_url is Some) {
            let i = choose|i: int| 0 <= i < values.len() && (#[trigger] values[i] matches FactValueV::Item(chip) && chip.thumb_url is Some);
            if i < d.len() {
                assert(d[i] == values[i]);
            }
        }
    }
}

/// A one-row facts card of one or two values is a portrait exactly when
/// some value is an item with an image, however many lack one; without
/// any image it is a fact line.
pub proof fn short_rows_with_an_image_are_portraits(row: FactRowV)
    requires
        row.values.len() <= 2,
    ensures
        select_variant(CardKindV::Facts { rows: seq![row] }) == if exists|i: int|
            0 <= i < row.values.len() && (#[trigger] row.values[i] matches FactValueV::Item(chip)
                && chip.thumb_url is Some) {
            Variant::Portrait
        } else {
            Variant::FactLine
        },
{
    lemma_count_images_positive(row.values);
    assert(seq![row][0] == row);
}

} // verus!
