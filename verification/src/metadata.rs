//! The metadata records attached to an engine.

use vstd::prelude::*;

verus! {

/// Ghost view of an [`EngineMetadata`] record: the four fields as sequences
/// of characters.
#[verifier::ext_equal]
pub struct MetaFields {
    pub display_name: Seq<char>,
    pub source_code: Option<Seq<char>>,
    pub website: Option<Seq<char>>,
    pub authors: Option<Seq<char>>,
}

/// A basic representation of an engine's metadata, as stored in the
/// `meta.json` sidecar file of the engine's subdirectory.
#[derive(Clone, Debug, PartialEq)]
pub struct EngineMetadata {
    pub display_name: String,
    pub source_code: Option<String>,
    pub website: Option<String>,
    pub authors: Option<String>,
}

impl View for EngineMetadata {
    type V = MetaFields;

    open spec fn view(&self) -> MetaFields {
        MetaFields {
            display_name: self.display_name@,
            source_code: self.source_code.deep_view(),
            website: self.website.deep_view(),
            authors: self.authors.deep_view(),
        }
    }
}

impl DeepView for EngineMetadata {
    type V = MetaFields;

    open spec fn deep_view(&self) -> MetaFields {
        self.view()
    }
}

/// The fields of the default record: display name `"Template"`, every
/// optional field absent.
pub open spec fn template_fields() -> MetaFields {
    MetaFields {
        display_name: "Template"@,
        source_code: None,
        website: None,
        authors: None,
    }
}

impl Default for EngineMetadata {
    /// The record written to a fresh sidecar file.
    fn default() -> (r: EngineMetadata)
        ensures
            r@ =~= template_fields(),
    {
        EngineMetadata {
            display_name: String::from_str("Template"),
            source_code: None,
            website: None,
            authors: None,
        }
    }
}

/// Why a sidecar file's text could not be used.
#[derive(Clone, Copy, Debug, PartialEq, Eq, Structural)]
pub enum MetaError {
    /// The text is not a valid JSON object, or lacks the required
    /// `display_name` string.
    Malformed,
}

/// A named, versioned content bundle associated with an engine. The core only
/// defines the shape; nothing in the scan populates these yet.
#[derive(Clone, Debug, PartialEq)]
pub struct Modpack {
    pub display_name: String,
    pub version: String,
    pub brief: String,
}

/// Ghost view of a [`Modpack`].
#[verifier::ext_equal]
pub struct ModpackFields {
    pub display_name: Seq<char>,
    pub version: Seq<char>,
    pub brief: Seq<char>,
}

impl View for Modpack {
    type V = ModpackFields;

    open spec fn view(&self) -> ModpackFields {
        ModpackFields {
            display_name: self.display_name@,
            version: self.version@,
            brief: self.brief@,
        }
    }
}

impl DeepView for Modpack {
    type V = ModpackFields;

    open spec fn deep_view(&self) -> ModpackFields {
        self.view()
    }
}

} // verus!
