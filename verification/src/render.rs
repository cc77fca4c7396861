//! Rendering an item: the output format, the render configuration, and
//! the format dispatch over the card document; and, for the flat item
//! shape, which renderer renders which group.

use vstd::prelude::*;

use crate::archetype::ArchetypesConfig;
use crate::cards::page::{synthesize, synthesized};
use crate::cards::synthesis::item_ok;
use crate::error::QRenderError;
use crate::grouping::GroupingConfig;
use crate::legacy;
use crate::model::WikidataItem;
use crate::rendering::{RendererKind, RendererRegistry};
use crate::text::{owned, str_eq, strs_view};
use crate::textual::{page_html, page_md, page_plain, page_wiki, render_html, render_markdown, render_text, render_wikitext};

verus! {

#[derive(Debug, Clone, Copy, PartialEq, Eq, Structural)]
pub enum RenderFormatOptions {
    Text,
    HTML,
    Markdown,
    Wikitext,
    Factoid,
}

impl Default for RenderFormatOptions {
    fn default() -> (res: RenderFormatOptions)
        ensures
            res == RenderFormatOptions::Text,
    {
        RenderFormatOptions::Text
    }
}

pub struct RenderConfig {
    pub format: RenderFormatOptions,
    pub ignore_ids: bool,
    pub grouping_config: GroupingConfig,
    pub language: String,
}

impl RenderConfig {
    pub fn new(
        format: RenderFormatOptions,
        ignore_ids: bool,
        language: &str,
        grouping_config: GroupingConfig,
    ) -> (res: RenderConfig)
        ensures
            res.format == format,
            res.ignore_ids == ignore_ids,
            res.language@ == language@,
            res.grouping_config == grouping_config,
    {
        RenderConfig { format, ignore_ids, grouping_config, language: owned(language) }
    }

    /// Plain text without identifiers.
    pub fn new_text_renderer(language: &str, grouping_config: GroupingConfig) -> (res: RenderConfig)
        ensures
            res.format == RenderFormatOptions::Text,
            res.ignore_ids,
            res.language@ == language@,
            res.grouping_config == grouping_config,
    {
        Self::new(RenderFormatOptions::Text, true, language, grouping_config)
    }

    /// Markdown without identifiers.
    pub fn new_markdow_renderer(language: &str, grouping_config: GroupingConfig) -> (res: RenderConfig)
        ensures
            res.format == RenderFormatOptions::Markdown,
            res.ignore_ids,
            res.language@ == language@,
            res.grouping_config == grouping_config,
    {
        Self::new(RenderFormatOptions::Markdown, true, language, grouping_config)
    }
}

/// The item's card document in the configured textual format.
pub open spec fn rendered_text(item: crate::model::ItemV, config: RenderConfig, archetypes: ArchetypesConfig) -> Option<Seq<char>> {
    let page = synthesized(item, config.language@, config.grouping_config, archetypes, config.ignore_ids);
    match config.format {
        RenderFormatOptions::Text => Some(page_plain(page)),
        RenderFormatOptions::Markdown => Some(page_md(page)),
        RenderFormatOptions::Wikitext => Some(page_wiki(page)),
        RenderFormatOptions::HTML => Some(page_html(page)),
        RenderFormatOptions::Factoid => None,
    }
}

/// Render an already-fetched item: no network, deterministic output.
/// The factoid page is rendered through its HTML template instead; here
/// it is a format this path does not render.
pub fn render_typed_item(
    item: &WikidataItem,
    render_config: &RenderConfig,
    archetypes: &ArchetypesConfig,
) -> (res: Result<String, QRenderError>)
    requires
        item_ok(item@),
        crate::cards::compose::recipe_ok(
            item@,
            crate::cards::page::recipe_of(*archetypes, crate::archetype::resolved(item@, *archetypes)),
        ),
    ensures
        match rendered_text(item@, *render_config, *archetypes) {
            Some(t) => res matches Ok(s) && s@ == t,
            None => res matches Err(QRenderError::UnsupportedFormat(f)) && f@ == "factoid"@,
        },
{
    if render_config.format == RenderFormatOptions::Factoid {
        return Err(QRenderError::UnsupportedFormat(owned("factoid")));
    }
    let page = synthesize(
        item,
        render_config.language.as_str(),
        &render_config.grouping_config,
        archetypes,
        render_config.ignore_ids,
    );
    Ok(
        match render_config.format {
            RenderFormatOptions::Text => render_text(&page),
            RenderFormatOptions::Markdown => render_markdown(&page),
            RenderFormatOptions::Wikitext => render_wikitext(&page),
            _ => render_html(&page),
        },
    )
}

// ---------------------------------------------------------------------
// Flat item shape
// ---------------------------------------------------------------------

/// The renderer a group's config names: the first entry of that name,
/// "default" without one.
pub open spec fn renderer_name(groups: Seq<(String, legacy::GroupConfig)>, name: Seq<char>) -> Seq<char>
    decreases groups.len(),
{
    if groups.len() == 0 {
        "default"@
    } else if groups[0].0@ == name {
        match groups[0].1.renderer {
            Some(r) => r@,
            None => "default"@,
        }
    } else {
        renderer_name(groups.drop_first(), name)
    }
}

/// A group is rendered when it has properties, and the identifiers group
/// only when identifiers are wanted.
pub open spec fn rendered_group(g: (Seq<char>, Seq<legacy::PropertyV>), ignore_ids: bool) -> bool {
    g.1.len() > 0 && !(ignore_ids && g.0 == "identifiers"@)
}

/// Which renderer renders which group, in group order; the first group
/// that names an unknown renderer makes it an error.
pub open spec fn render_plan_of(
    groups: Seq<(Seq<char>, Seq<legacy::PropertyV>)>,
    config: legacy::GroupingConfig,
    ignore_ids: bool,
) -> Result<Seq<(Seq<char>, RendererKind, Seq<legacy::PropertyV>)>, Seq<char>>
    decreases groups.len(),
{
    if groups.len() == 0 {
        Ok(Seq::empty())
    } else {
        match render_plan_of(groups.drop_last(), config, ignore_ids) {
            Err(e) => Err(e),
            Ok(plan) => {
                let g = groups.last();
                if !rendered_group(g, ignore_ids) {
                    Ok(plan)
                } else {
                    let name = renderer_name(config.groups@, g.0);
                    match RendererRegistry::spec_renderer(name) {
                        Some(k) => Ok(plan.push((g.0, k, g.1))),
                        None => Err(name),
                    }
                }
            },
        }
    }
}

pub open spec fn plan_view(v: Seq<(String, RendererKind, Vec<legacy::Property>)>) -> Seq<
    (Seq<char>, RendererKind, Seq<legacy::PropertyV>),
> {
    v.map_values(
        |x: (String, RendererKind, Vec<legacy::Property>)| (x.0@, x.1, x.2@.map_values(|p: legacy::Property| p@)),
    )
}

fn renderer_for(config: &legacy::GroupingConfig, name: &str) -> (res: String)
    ensures
        res@ == renderer_name(config.groups@, name@),
{
    let ghost g = config.groups@;
    let mut i: usize = 0;
    assert(g.skip(0) =~= g);
    while i < config.groups.len()
        invariant
            g == config.groups@,
            i <= g.len(),
            renderer_name(g, name@) == renderer_name(g.skip(i as int), name@),
        decreases g.len() - i,
    {
        assert(g.skip(i as int)[0] == g[i as int]);
        assert(g.skip(i as int).drop_first() =~= g.skip(i as int + 1));
        if str_eq(config.groups[i].0.as_str(), name) {
            return match &config.groups[i].1.renderer {
                Some(r) => r.clone(),
                None => owned("default"),
            };
        }
        i += 1;
    }
    owned("default")
}

/// Which renderer renders which group of the flat item: groups in
/// descending order then the ungrouped ones, empty groups skipped, and
/// identifiers skipped when unwanted.
pub fn render_plan(item: &legacy::WikidataItem, config: &legacy::GroupingConfig, ignore_ids: bool) -> (res: Result<
    Vec<(String, RendererKind, Vec<legacy::Property>)>,
    QRenderError,
>)
    ensures
        match render_plan_of(legacy::grouped(item@, *config), *config, ignore_ids) {
            Ok(plan) => res matches Ok(v) && plan_view(v@) == plan,
            Err(name) => res matches Err(QRenderError::UnknownRenderer(n)) && n@ == name,
        },
{
    let groups = legacy::group_properties(item, config);
    let ghost gv = groups@.map_values(
        |g: (String, Vec<legacy::Property>)| (g.0@, g.1@.map_values(|p: legacy::Property| p@)),
    );
    let mut plan: Vec<(String, RendererKind, Vec<legacy::Property>)> = Vec::new();
    assert(plan_view(plan@) =~= Seq::<(Seq<char>, RendererKind, Seq<legacy::PropertyV>)>::empty());
    for g in it: groups
        invariant
            gv == it.seq().map_values(
                |g: (String, Vec<legacy::Property>)| (g.0@, g.1@.map_values(|p: legacy::Property| p@)),
            ),
            gv == legacy::grouped(item@, *config),
            render_plan_of(gv.take(it.index() as int), *config, ignore_ids) == Ok::<
                Seq<(Seq<char>, RendererKind, Seq<legacy::PropertyV>)>,
                Seq<char>,
            >(plan_view(plan@)),
    {
        let ghost i = it.index();
        assert(gv.take(i + 1).drop_last() =~= gv.take(i as int));
        assert(gv.take(i + 1).last() == gv[i as int]);
        let (name, properties) = g;
        assert(gv[i as int] == (name@, properties@.map_values(|p: legacy::Property| p@)));
        let skip = properties.len() == 0 || (ignore_ids && str_eq(name.as_str(), "identifiers"));
        if !skip {
            let renderer = renderer_for(config, name.as_str());
            match RendererRegistry::get_renderer(renderer.as_str()) {
                Ok(kind) => {
                    let ghost prev = plan_view(plan@);
                    let ghost pv = properties@.map_values(|p: legacy::Property| p@);
                    plan.push((name, kind, properties));
                    assert(plan_view(plan@) =~= prev.push((gv[i as int].0, kind, pv)));
                },
                Err(e) => {
                    assert(render_plan_of(gv.take(i + 1), *config, ignore_ids) == Err::<
                        Seq<(Seq<char>, RendererKind, Seq<legacy::PropertyV>)>,
                        Seq<char>,
                    >(renderer@));
                    proof {
                        lemma_plan_error(gv, *config, ignore_ids, i + 1);
                    }
                    return Err(e);
                },
            }
        }
    }
    assert(gv.take(gv.len() as int) =~= gv);
    Ok(plan)
}

/// Once a prefix of the groups fails, the whole plan fails the same way.
pub proof fn lemma_plan_error(
    groups: Seq<(Seq<char>, Seq<legacy::PropertyV>)>,
    config: legacy::GroupingConfig,
    ignore_ids: bool,
    n: int,
)
    requires
        0 <= n <= groups.len(),
        render_plan_of(groups.take(n), config, ignore_ids) is Err,
    ensures
        render_plan_of(groups, config, ignore_ids) == render_plan_of(groups.take(n), config, ignore_ids),
    decreases groups.len() - n,
{
    if n < groups.len() {
        assert(groups.take(n + 1).drop_last() =~= groups.take(n));
        lemma_plan_error(groups, config, ignore_ids, n + 1);
    } else {
        assert(groups.take(n) =~= groups);
    }
}

} // verus!
