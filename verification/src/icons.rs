//! Icon symbols (Material Symbols): the names the factoid page may use.
//! Each name has a `<symbol id="i-NAME">` asset of its own, which the
//! page embeds only when one of its cards uses it.

use vstd::prelude::*;

use crate::cards::{Card, CardKind, CardKindV, CardV, FactoidPage, FactoidPageV};
use crate::text::str_eq;

verus! {

pub const ICON_COUNT: usize = 52;

/// The icon names, sorted.
pub open spec fn icon_names() -> Seq<Seq<char>> {
    seq![
        "3d_rotation"@,
        "altitude"@,
        "archive"@,
        "arrow_cool_down"@,
        "article"@,
        "aspect_ratio"@,
        "bloodtype"@,
        "bold"@,
        "calendar_month"@,
        "call"@,
        "captive_portal"@,
        "communities"@,
        "compare_arrows"@,
        "directions_car"@,
        "distance"@,
        "equal"@,
        "event"@,
        "fit_width"@,
        "globe"@,
        "group"@,
        "groups"@,
        "hand"@,
        "height"@,
        "home"@,
        "how_to_vote"@,
        "info"@,
        "language"@,
        "local_library"@,
        "location_on"@,
        "man"@,
        "map"@,
        "mountain_flag"@,
        "open_in_phone"@,
        "pace"@,
        "person"@,
        "photo_library"@,
        "policy"@,
        "school"@,
        "sell"@,
        "stethoscope"@,
        "straighten"@,
        "tag"@,
        "thermometer"@,
        "thermostat_arrow_down"@,
        "thermostat_arrow_up"@,
        "train"@,
        "trophy"@,
        "video_library"@,
        "visibility"@,
        "volume_up"@,
        "weight"@,
        "woman"@
    ]
}

/// The icon name at position `i` of the sorted table.
pub fn icon_name(i: usize) -> (res: &'static str)
    requires
        i < ICON_COUNT,
    ensures
        res@ == icon_names()[i as int],
{
    match i {
        0 => "3d_rotation",
        1 => "altitude",
        2 => "archive",
        3 => "arrow_cool_down",
        4 => "article",
        5 => "aspect_ratio",
        6 => "bloodtype",
        7 => "bold",
        8 => "calendar_month",
        9 => "call",
        10 => "captive_portal",
        11 => "communities",
        12 => "compare_arrows",
        13 => "directions_car",
        14 => "distance",
        15 => "equal",
        16 => "event",
        17 => "fit_width",
        18 => "globe",
        19 => "group",
        20 => "groups",
        21 => "hand",
        22 => "height",
        23 => "home",
        24 => "how_to_vote",
        25 => "info",
        26 => "language",
        27 => "local_library",
        28 => "location_on",
        29 => "man",
        30 => "map",
        31 => "mountain_flag",
        32 => "open_in_phone",
        33 => "pace",
        34 => "person",
        35 => "photo_library",
        36 => "policy",
        37 => "school",
        38 => "sell",
        39 => "stethoscope",
        40 => "straighten",
        41 => "tag",
        42 => "thermometer",
        43 => "thermostat_arrow_down",
        44 => "thermostat_arrow_up",
        45 => "train",
        46 => "trophy",
        47 => "video_library",
        48 => "visibility",
        49 => "volume_up",
        50 => "weight",
        51 => "woman",
        _ => "woman",
    }
}

/// Position of the named icon in the table, if it is one.
pub fn lookup(name: &str) -> (res: Option<usize>)
    ensures
        match res {
            Some(i) => i < ICON_COUNT && icon_names()[i as int] == name@,
            None => !icon_names().contains(name@),
        },
{
    let mut i: usize = 0;
    while i < ICON_COUNT
        invariant
            i <= ICON_COUNT,
            icon_names().len() == ICON_COUNT,
            forall|j: int| 0 <= j < i ==> icon_names()[j] != name@,
        decreases ICON_COUNT - i,
    {
        if str_eq(icon_name(i), name) {
            return Some(i);
        }
        i += 1;
    }
    None
}

/// The card shows the icon: as its own icon, or "event" on a timeline.
pub open spec fn card_shows(c: CardV, name: Seq<char>) -> bool {
    c.icon == Some(name) || (name == "event"@ && c.kind is Timeline)
}

/// Some card of the page shows the icon.
pub open spec fn page_uses_icon(page: FactoidPageV, name: Seq<char>) -> bool {
    exists|i: int| 0 <= i < page.all_cards().len() && card_shows(#[trigger] page.all_cards()[i], name)
}

/// The table positions of the icons the page's cards show, in table
/// order and each once: the symbols the page's sprite embeds.
pub fn sprite_icons(page: &FactoidPage) -> (res: Vec<usize>)
    ensures
        forall|i: int, j: int| 0 <= i < j < res.len() ==> res[i] < res[j],
        forall|k: usize| res@.contains(k) <==> k < ICON_COUNT && page_uses_icon(page@, icon_names()[k as int]),
{
    let cards = page.all_cards();
    let ghost cv = page@.all_cards();
    let mut res: Vec<usize> = Vec::new();
    for k in 0..ICON_COUNT
        invariant
            cards@.map_values(|c: &Card| c@) == cv,
            cv == page@.all_cards(),
            forall|i: int, j: int| 0 <= i < j < res.len() ==> res[i] < res[j],
            forall|i: int| 0 <= i < res.len() ==> res[i] < k,
            forall|m: usize| res@.contains(m) <==> m < k && page_uses_icon(page@, icon_names()[m as int]),
    {
        let name = icon_name(k);
        let is_event = str_eq(name, "event");
        let mut used = false;
        let mut i: usize = 0;
        while i < cards.len()
            invariant
                cards@.map_values(|c: &Card| c@) == cv,
                i <= cards@.len(),
                name@ == icon_names()[k as int],
                is_event == (name@ == "event"@),
                used <==> exists|j: int| 0 <= j < i && card_shows(#[trigger] cv[j], name@),
            decreases cards@.len() - i,
        {
            let c = cards[i];
            assert(cv[i as int] == c@);
            let own = match &c.icon {
                Some(n) => str_eq(n.as_str(), name),
                None => false,
            };
            let timeline = match &c.kind {
                CardKind::Timeline { .. } => true,
                _ => false,
            };
            if own || (is_event && timeline) {
                assert(card_shows(cv[i as int], name@));
                used = true;
            }
            i += 1;
        }
        assert(cards@.len() == cv.len());
        assert(used == page_uses_icon(page@, icon_names()[k as int])) by {
            if used {
                let j = choose|j: int| 0 <= j < cards@.len() && card_shows(#[trigger] cv[j], name@);
                assert(card_shows(page@.all_cards()[j], name@));
            }
            if page_uses_icon(page@, icon_names()[k as int]) {
                let j = choose|j: int|
                    0 <= j < page@.all_cards().len() && card_shows(#[trigger] page@.all_cards()[j], name@);
                assert(card_shows(cv[j], name@));
            }
        }
        let ghost before = res@;
        if used {
            res.push(k);
        }
        assert forall|m: usize| res@.contains(m) <==> m < k + 1 && page_uses_icon(
            page@,
            icon_names()[m as int],
        ) by {
            assert(before.contains(m) <==> m < k && page_uses_icon(page@, icon_names()[m as int]));
            if m == k {
                if used {
                    assert(res@[res.len() - 1] == k);
                } else {
                    assert(res@ == before);
                    if before.contains(m) {
                        let j = choose|j: int| 0 <= j < before.len() && before[j] == m;
                        assert(before[j] < k);
                    }
                }
            } else if used {
                if res@.contains(m) {
                    let j = choose|j: int| 0 <= j < res.len() && res@[j] == m;
                    assert(j < before.len());
                    assert(before[j] == m);
                }
                if before.contains(m) {
                    let j = choose|j: int| 0 <= j < before.len() && before[j] == m;
                    assert(res@[j] == m);
                }
            } else {
                assert(res@ == before);
            }
        }
    }
    res
}

} // verus!
