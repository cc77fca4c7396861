//! Group renderers of the flat item shape: the template-driven default
//! renderer, and the dimensions renderer, whose text forms list each
//! statement under the group name. A registry maps names to renderers.

use vstd::prelude::*;

use crate::error::QRenderError;
use crate::legacy::{Property, PropertyV, StatementV};
use crate::text::{concat, lemma_concat_step, owned, push_str, str_eq};

verus! {

/// Renders a group through the default templates.
pub struct DefaultRenderer;

/// Renders a dimensions group: one line per statement.
pub struct DimensionsRenderer;

/// The renderers a group config can name.
#[derive(Debug, Clone, Copy, PartialEq, Eq, Structural)]
pub enum RendererKind {
    Default,
    Dimensions,
}

pub struct RendererRegistry;

impl RendererRegistry {
    pub open spec fn spec_renderer(name: Seq<char>) -> Option<RendererKind> {
        if name == "default"@ {
            Some(RendererKind::Default)
        } else if name == "dimensions"@ {
            Some(RendererKind::Dimensions)
        } else {
            None
        }
    }

    /// The renderer named `name`; an unknown name is an error.
    pub fn get_renderer(name: &str) -> (res: Result<RendererKind, QRenderError>)
        ensures
            match Self::spec_renderer(name@) {
                Some(k) => res == Ok::<RendererKind, QRenderError>(k),
                None => res matches Err(QRenderError::UnknownRenderer(n)) && n@ == name@,
            },
    {
        if str_eq(name, "default") {
            Ok(RendererKind::Default)
        } else if str_eq(name, "dimensions") {
            Ok(RendererKind::Dimensions)
        } else {
            Err(QRenderError::UnknownRenderer(owned(name)))
        }
    }
}

pub open spec fn statement_line(group: Seq<char>, label: Seq<char>, s: StatementV) -> Seq<char> {
    group + "\n  "@ + label + ": "@ + s.value + " \n"@
}

pub open spec fn property_lines(group: Seq<char>, p: PropertyV) -> Seq<char> {
    concat(p.statements.map_values(|s: StatementV| statement_line(group, p.wd_label, s)))
}

/// "Dimensions Group:" and a line pair per statement: the group name,
/// then the property label and value.
pub open spec fn plain_text(group: Seq<char>, properties: Seq<PropertyV>) -> Seq<char> {
    "Dimensions Group:\n"@ + concat(properties.map_values(|p: PropertyV| property_lines(group, p)))
}

/// The dimensions renderer's text, markdown and wikitext form.
pub fn render_plain(group_name: &str, properties: &Vec<Property>) -> (res: Result<String, QRenderError>)
    ensures
        res matches Ok(s) && s@ == plain_text(group_name@, properties@.map_values(|p: Property| p@)),
{
    let mut text = owned("Dimensions Group:\n");
    let ghost t0 = text@;
    let ghost parts = properties@.map_values(|p: Property| p@).map_values(
        |p: PropertyV| property_lines(group_name@, p),
    );
    for i in 0..properties.len()
        invariant
            parts == properties@.map_values(|p: Property| p@).map_values(
                |p: PropertyV| property_lines(group_name@, p),
            ),
            text@ == t0 + concat(parts.take(i as int)),
    {
        proof { lemma_concat_step(parts, i as int); }
        let property = &properties[i];
        let ghost t1 = text@;
        let ghost lines = property@.statements.map_values(
            |s: StatementV| statement_line(group_name@, property@.wd_label, s),
        );
        for j in 0..property.statements.len()
            invariant
                lines == property@.statements.map_values(
                    |s: StatementV| statement_line(group_name@, property@.wd_label, s),
                ),
                text@ == t1 + concat(lines.take(j as int)),
        {
            proof { lemma_concat_step(lines, j as int); }
            assert(property@.statements[j as int] == property.statements@[j as int]@);
            push_str(&mut text, group_name);
            push_str(&mut text, "\n  ");
            push_str(&mut text, property.wd_label.as_str());
            push_str(&mut text, ": ");
            push_str(&mut text, property.statements[j].value.as_str());
            push_str(&mut text, " \n");
        }
        assert(lines.take(lines.len() as int) =~= lines);
    }
    assert(parts.take(parts.len() as int) =~= parts);
    Ok(text)
}

impl DimensionsRenderer {
    pub fn render_text(&self, group_name: &str, properties: &Vec<Property>) -> (res: Result<String, QRenderError>)
        ensures
            res matches Ok(s) && s@ == plain_text(group_name@, properties@.map_values(|p: Property| p@)),
    {
        render_plain(group_name, properties)
    }

    pub fn render_markdown(&self, group_name: &str, properties: &Vec<Property>) -> (res: Result<String, QRenderError>)
        ensures
            res matches Ok(s) && s@ == plain_text(group_name@, properties@.map_values(|p: Property| p@)),
    {
        render_plain(group_name, properties)
    }

    pub fn render_wikitext(&self, group_name: &str, properties: &Vec<Property>) -> (res: Result<String, QRenderError>)
        ensures
            res matches Ok(s) && s@ == plain_text(group_name@, properties@.map_values(|p: Property| p@)),
    {
        render_plain(group_name, properties)
    }
}

} // verus!
