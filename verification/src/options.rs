//! The [`Options`] input and output bag.
//!
//! `Options` carries the behavioural inputs (`patch`, `warn_only`, and so on)
//! and the values the converter writes back (`openapi`, `patches`, `refmap`).
//! The converter mutates it in place.

use vstd::prelude::*;

use crate::json::{Json, Text};
use crate::value::JsonValue;

verus! {

/// Default property name used to store warnings when `warn_only` is set.
pub const DEFAULT_WARN_PROPERTY: &'static str = "x-s2o-warning";

/// How to handle a `$ref` object that carries sibling properties.
#[derive(Debug, Clone, Copy, PartialEq, Eq, Structural)]
pub enum RefSiblings {
    /// Drop the siblings and keep only the `$ref`. This is the default.
    Remove,
    /// Keep the siblings next to the `$ref`.
    Preserve,
    /// Wrap the `$ref` and its siblings in an `allOf` when inside a schema.
    AllOf,
}

impl Default for RefSiblings {
    fn default() -> (r: RefSiblings)
        ensures
            r == RefSiblings::Remove,
    {
        RefSiblings::Remove
    }
}

/// Inputs and outputs for a conversion run.
///
/// The struct is mutated in place during conversion.
#[derive(Debug)]
pub struct Options {
    /// Repair small patchable errors instead of returning an error.
    pub patch: bool,
    /// Never error on non-patchable problems. Write a warning extension into
    /// the offending container instead. A document that cannot be converted at all
    /// is rejected all the same: one of another version, one with anchors that are
    /// not allowed, and one to resolve without a source.
    pub warn_only: bool,
    /// Property name used to store warnings when `warn_only` is set.
    pub warn_property: String,
    /// Keep deleted parameters and add debug markers.
    pub debug: bool,
    /// Output `openapi` version string, used when it starts with `3.`.
    pub target_version: Option<String>,
    /// Resolve external `$ref`s.
    pub resolve: bool,
    /// Resolve internal `$ref`s. Disables shared request body extraction.
    pub resolve_internal: bool,
    /// How to handle `$ref` siblings.
    pub ref_siblings: RefSiblings,
    /// Extension key under which to preserve body parameter names. Empty
    /// disables the feature.
    pub rbname: String,
    /// Add an `x-origin` provenance entry when set.
    pub origin: bool,
    /// Source URL or path. Used for provenance and as a resolver base.
    pub source: Option<String>,
    /// Allow YAML anchors and shared object references.
    pub anchors: bool,
    /// Return the bare `openapi` document instead of the options bag.
    pub direct: bool,
    /// The source was YAML and not JSON.
    pub source_yaml: bool,
    /// The YAML source uses an anchor that an alias references.
    pub had_anchors: bool,
    /// The text of the source, or the YAML form of the input.
    pub text: String,
    /// The converted output document.
    pub openapi: JsonValue,
    /// Where each relocated `$ref` target went.
    pub refmap: JsonValue,
    /// Count of patches applied. The count wraps around at `u64::MAX`.
    pub patches: u64,
}

/// The model of [`Options`].
pub struct Settings {
    pub patch: bool,
    pub warn_only: bool,
    pub warn_property: Text,
    pub debug: bool,
    pub target_version: Option<Text>,
    pub resolve: bool,
    pub resolve_internal: bool,
    pub ref_siblings: RefSiblings,
    pub rbname: Text,
    pub origin: bool,
    pub source: Option<Text>,
    pub anchors: bool,
    pub direct: bool,
    pub source_yaml: bool,
    pub had_anchors: bool,
    pub text: Text,
    pub openapi: Json,
    pub refmap: Json,
    pub patches: u64,
}

/// The text of an optional string.
pub open spec fn opt_string(s: Option<String>) -> Option<Text> {
    match s {
        Some(s) => Some(s@),
        None => None,
    }
}

impl View for Options {
    type V = Settings;

    open spec fn view(&self) -> Settings {
        Settings {
            patch: self.patch,
            warn_only: self.warn_only,
            warn_property: self.warn_property@,
            debug: self.debug,
            target_version: opt_string(self.target_version),
            resolve: self.resolve,
            resolve_internal: self.resolve_internal,
            ref_siblings: self.ref_siblings,
            rbname: self.rbname@,
            origin: self.origin,
            source: opt_string(self.source),
            anchors: self.anchors,
            direct: self.direct,
            source_yaml: self.source_yaml,
            had_anchors: self.had_anchors,
            text: self.text@,
            openapi: self.openapi@,
            refmap: self.refmap@,
            patches: self.patches,
        }
    }
}

impl Settings {
    /// The settings with every feature off.
    pub open spec fn plain() -> Settings {
        Settings {
            patch: false,
            warn_only: false,
            warn_property: Seq::empty(),
            debug: false,
            target_version: None,
            resolve: false,
            resolve_internal: false,
            ref_siblings: RefSiblings::Remove,
            rbname: Seq::empty(),
            origin: false,
            source: None,
            anchors: false,
            direct: false,
            source_yaml: false,
            had_anchors: false,
            text: Seq::empty(),
            openapi: Json::Null,
            refmap: Json::Null,
            patches: 0,
        }
    }

    /// The settings after one more patch.
    pub open spec fn patched(self) -> Settings {
        Settings {
            patches: if self.patches == u64::MAX {
                0
            } else {
                (self.patches + 1) as u64
            },
            ..self
        }
    }

    /// The settings with another output document.
    pub open spec fn with_openapi(self, doc: Json) -> Settings {
        Settings { openapi: doc, ..self }
    }

    /// The property that holds a warning.
    pub open spec fn warning_key(self) -> Text {
        if self.warn_property.len() == 0 {
            DEFAULT_WARN_PROPERTY@
        } else {
            self.warn_property
        }
    }
}

impl Default for Options {
    fn default() -> (r: Options)
        ensures
            r@ == Settings::plain(),
    {
        Options {
            patch: false,
            warn_only: false,
            warn_property: String::new(),
            debug: false,
            target_version: None,
            resolve: false,
            resolve_internal: false,
            ref_siblings: RefSiblings::Remove,
            rbname: String::new(),
            origin: false,
            source: None,
            anchors: false,
            direct: false,
            source_yaml: false,
            had_anchors: false,
            text: String::new(),
            openapi: JsonValue::Null,
            refmap: JsonValue::Null,
            patches: 0,
        }
    }
}

impl Options {
    /// Build an options bag with default settings.
    pub fn new() -> (r: Options)
        ensures
            r@ == (Settings { warn_property: DEFAULT_WARN_PROPERTY@, ..Settings::plain() }),
    {
        let mut r = Options::default();
        r.warn_property = DEFAULT_WARN_PROPERTY.to_owned();
        r
    }

    /// Take the output document out.
    pub fn take_document(&mut self) -> (r: JsonValue)
        ensures
            r@ == old(self)@.openapi,
            final(self)@ == old(self)@.with_openapi(Json::Null),
    {
        self.openapi.take()
    }

    /// Set the output document.
    pub fn set_document(&mut self, doc: JsonValue)
        ensures
            final(self)@ == old(self)@.with_openapi(doc@),
    {
        self.openapi = doc;
    }

    /// Count one patch.
    pub fn add_patch(&mut self)
        ensures
            final(self)@ == old(self)@.patched(),
    {
        self.patches = self.patches.wrapping_add(1);
    }
}

} // verus!
