//! What stands round the rows of an answer.

use vstd::prelude::*;

use crate::formats::{collection_framing, Format, OutputDef};

verus! {

/// The media type of a format and what stands round its rows.
#[derive(Debug, Clone, Copy, PartialEq, Eq)]
pub struct Render {
    pub content_type: &'static str,
    pub header: &'static str,
    pub footer: &'static str,
    pub separator: &'static str,
}

/// What a render is.
pub struct RenderModel {
    pub content_type: Seq<char>,
    pub header: Seq<char>,
    pub footer: Seq<char>,
    pub separator: Seq<char>,
}

impl View for Render {
    type V = RenderModel;

    open spec fn view(&self) -> RenderModel {
        RenderModel {
            content_type: self.content_type@,
            header: self.header@,
            footer: self.footer@,
            separator: self.separator@,
        }
    }
}

/// The media type of GeoJSON and what stands round its features.
pub open spec fn feature_collection() -> RenderModel {
    RenderModel {
        content_type: "application/geo+json"@,
        header: collection_framing().header,
        footer: collection_framing().footer,
        separator: collection_framing().separator,
    }
}

/// The media type of an output and what stands round its rows.
pub open spec fn render_of(def: OutputDef) -> RenderModel {
    RenderModel {
        content_type: def.output.spec_content_type(),
        header: def.output.spec_framing().header,
        footer: def.output.spec_framing().footer,
        separator: def.output.spec_framing().separator,
    }
}

impl Render {
    /// The media type of an output and what stands round its rows.
    pub fn of_output(def: &OutputDef) -> (r: Render)
        ensures
            r@ == render_of(*def),
    {
        Render {
            content_type: def.output.content_type(),
            header: def.output.header(),
            footer: def.output.footer(),
            separator: def.output.separator(),
        }
    }

    /// The media type of a format and what stands round its rows.
    pub fn of(format: Format) -> (r: Render)
        ensures
            r@ == feature_collection(),
    {
        match format {
            Format::GeoJson | Format::Json => Render {
                content_type: "application/geo+json",
                header: "{\"type\":\"FeatureCollection\",\"features\":[",
                footer: "]}",
                separator: ",",
            },
        }
    }
}

} // verus!
