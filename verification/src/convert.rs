//! The conversion orchestration and the process helpers.
//!
//! [`convert_obj`] builds the OpenAPI 3.0 skeleton from a Swagger 2.0 document,
//! relocates top-level containers under `components`, derives `servers`, and
//! then runs [`main_pass::main_convert`], which rewrites `$ref`s, converts
//! parameters into request bodies, fixes schemas, and prunes empty buckets.
//!
//! A conversion that resolves external references stops for their files to be
//! read and goes on with [`resume_conversion`].

use vstd::prelude::*;

use crate::convert::info::value_to_string;
use crate::convert::main_pass::main_convert;
use crate::convert::skeleton::{build_skeleton, fix_essentials, is_swagger_two};
use crate::error::{self, S2OError};
use crate::json::{Json, Text};
use crate::options::{Options, Settings};
use crate::resolver::{self, optional_resolve, ExternalRef};
use crate::serial;
use crate::text;
use crate::value::JsonValue;
use crate::yaml;

pub mod body;
pub mod cache;
pub mod components;
pub mod examples;
pub mod header;
pub mod info;
pub mod main_pass;
pub mod operation;
pub mod parameter;
pub mod paths;
pub mod refs;
pub mod response;
pub mod security;
pub mod servers;
pub mod skeleton;

verus! {

/// What is left to do once external references are resolved.
#[derive(Debug, Clone, Copy, PartialEq, Eq, Structural)]
pub enum Stage {
    /// The input is an OpenAPI 3 document. It is the output.
    PassedThrough,
    /// The output is a skeleton, ready for the conversion core.
    Skeleton,
}

/// The document to convert: an empty object in place of null.
pub open spec fn given_document(swagger: Json) -> Json {
    if swagger is Null {
        Json::empty()
    } else {
        swagger
    }
}

/// Whether a document is an OpenAPI 3 document.
pub open spec fn is_openapi_three(doc: Json) -> bool {
    match doc.text_member("openapi"@) {
        Some(v) => text::starts(v, "3."@),
        None => false,
    }
}

/// The version that a document reports.
pub open spec fn reported_version(doc: Json) -> Text {
    match doc.member("openapi"@) {
        Some(v) => info::value_text(v),
        None => match doc.member("swagger"@) {
            Some(v) => info::value_text(v),
            None => "undefined"@,
        },
    }
}

/// The settings at the start of a conversion: no patches yet, and the YAML form of
/// the input for its text, when no text is set already.
pub open spec fn started(doc: Json, o: Settings) -> Settings {
    Settings {
        text: if o.text.len() == 0 {
            serial::yaml_text(doc)
        } else {
            o.text
        },
        patches: 0,
        ..o
    }
}

/// The settings where external references are resolved, and the stage or the
/// failure.
pub open spec fn begun(swagger: Json, o: Settings) -> (Settings, Result<Stage, Text>) {
    let doc = given_document(swagger);
    let o1 = started(doc, o);
    if o1.had_anchors && !o1.anchors {
        (o1, Err("YAML anchor or merge key"@))
    } else if is_openapi_three(doc) {
        let (d2, o2, e2) = skeleton::essentials_fixed(doc, o1);
        match e2 {
            Some(e) => (o2, Err(e)),
            None => (o2.with_openapi(d2), Ok(Stage::PassedThrough)),
        }
    } else if !skeleton::swagger_two(doc.member("swagger"@)) {
        (o1, Err("Unsupported swagger/OpenAPI version: "@ + reported_version(doc)))
    } else {
        let (d2, o2, e2) = skeleton::skeleton(doc, o1);
        match e2 {
            Some(e) => (o2, Err(e)),
            None => (o2.with_openapi(d2), Ok(Stage::Skeleton)),
        }
    }
}

/// The settings after the conversion core, and the failure. The document of a
/// failed conversion is as far converted as it came.
pub open spec fn finished(o: Settings) -> (Settings, Option<Text>) {
    let (d1, o1, e1) = main_pass::main_converted(o.openapi, o.with_openapi(Json::Null));
    (o1.with_openapi(d1), e1)
}

/// The settings after the rest of a conversion, and the failure.
pub open spec fn completed(stage: Stage, o: Settings) -> (Settings, Option<Text>) {
    match stage {
        Stage::PassedThrough => (o, None),
        Stage::Skeleton => finished(o),
    }
}

/// What a conversion came to, over the models: the references that it needs, none
/// for a finished one.
pub enum Outcome {
    Done,
    Unresolved(Stage, Seq<(Text, Seq<Text>)>),
    Failed(Text),
}

/// The settings after the external references of a conversion are looked for, and
/// the outcome. With none left the conversion is finished.
pub open spec fn resumed(stage: Stage, o: Settings) -> (Settings, Outcome) {
    match resolver::resolve_failure(o) {
        Some(e) => (o, Outcome::Failed(e)),
        None => if resolver::unresolved(o).len() > 0 {
            (o, Outcome::Unresolved(stage, resolver::unresolved(o)))
        } else {
            let (o1, e1) = completed(stage, o);
            match e1 {
                Some(e) => (o1, Outcome::Failed(e)),
                None => (o1, Outcome::Done),
            }
        },
    }
}

/// The settings after a conversion, and the outcome.
pub open spec fn converted(swagger: Json, o: Settings) -> (Settings, Outcome) {
    let (o1, r1) = begun(swagger, o);
    match r1 {
        Err(e) => (o1, Outcome::Failed(e)),
        Ok(stage) => resumed(stage, o1),
    }
}

/// What a conversion gives where external references are resolved, over the models.
pub open spec fn stage_of(r: Result<Stage, S2OError>) -> Result<Stage, Text> {
    match r {
        Ok(s) => Ok(s),
        Err(e) => Err(e.message@),
    }
}

fn report_version(doc: &JsonValue) -> (r: String)
    ensures
        r@ == reported_version(doc@),
{
    match doc.get("openapi") {
        Some(v) => value_to_string(v),
        None => match doc.get("swagger") {
            Some(v) => value_to_string(v),
            None => "undefined".to_owned(),
        },
    }
}

fn start(doc: &JsonValue, options: &mut Options)
    ensures
        final(options)@ == started(doc@, old(options)@),
{
    // Record the YAML form of the input when no entry point set it already.
    if options.text.as_str().is_empty() {
        options.text = yaml::stringify(doc);
    }
    options.patches = 0;
}

/// Run a conversion up to where external references are resolved.
///
/// On success `options.openapi` holds the skeleton, or the whole output for an
/// OpenAPI 3 document.
pub fn begin_conversion(swagger: &JsonValue, options: &mut Options) -> (r: Result<Stage, S2OError>)
    ensures
        (final(options)@, stage_of(r)) == begun(swagger@, old(options)@),
{
    let doc = if swagger.is_null() {
        JsonValue::empty_object()
    } else {
        swagger.clone()
    };
    start(&doc, options);

    // Reject YAML anchors unless allowed.
    if options.had_anchors && !options.anchors {
        return Err(S2OError::new("YAML anchor or merge key"));
    }

    // OAS3 pass-through.
    let passes = match doc.get_str("openapi") {
        Some(v) => text::starts_with(v, "3."),
        None => false,
    };
    if passes {
        let mut openapi = doc;
        fix_essentials(&mut openapi, options)?;
        options.set_document(openapi);
        return Ok(Stage::PassedThrough);
    }

    // Version gate.
    if !is_swagger_two(doc.get("swagger")) {
        let message = text::cat(
            "Unsupported swagger/OpenAPI version: ",
            report_version(&doc).as_str(),
        );
        return Err(S2OError { message });
    }

    let mut openapi = JsonValue::Null;
    build_skeleton(&doc, &mut openapi, options)?;
    options.set_document(openapi);
    Ok(Stage::Skeleton)
}

/// Whether a document has no media types and no schemes of its own.
pub open spec fn without_media_types(doc: Json) -> bool {
    !doc.has("consumes"@) && !doc.has("produces"@) && !doc.has("schemes"@)
}

/// Run the rest of a conversion.
pub fn finish_conversion(stage: Stage, options: &mut Options) -> (r: Result<(), S2OError>)
    ensures
        (final(options)@, error::failure(r)) == completed(stage, old(options)@),
        r is Ok && stage == Stage::Skeleton ==> without_media_types(final(options)@.openapi),
{
    if stage == Stage::PassedThrough {
        return Ok(());
    }
    // Take the document out so the core can borrow it alongside options.
    let mut doc = options.take_document();
    let result = main_convert(&mut doc, options);
    options.set_document(doc);
    result
}

/// How far a conversion came.
#[derive(Debug)]
pub enum Progress {
    /// `options.openapi` holds the converted document.
    Done,
    /// These external references are to be resolved before the conversion goes on.
    /// There are none unless `options.resolve` is set.
    Unresolved(Stage, Vec<ExternalRef>),
}

/// What a conversion came to, over the models.
pub open spec fn outcome(r: Result<Progress, S2OError>) -> Outcome {
    match r {
        Ok(Progress::Done) => Outcome::Done,
        Ok(Progress::Unresolved(stage, refs)) => Outcome::Unresolved(
            stage,
            resolver::externals(refs@),
        ),
        Err(e) => Outcome::Failed(e.message@),
    }
}

/// Finish a conversion, unless external references are left to resolve.
pub fn resume_conversion(stage: Stage, options: &mut Options) -> (r: Result<Progress, S2OError>)
    ensures
        (final(options)@, outcome(r)) == resumed(stage, old(options)@),
        r matches Ok(Progress::Done) && stage == Stage::Skeleton ==> without_media_types(
            final(options)@.openapi,
        ),
{
    let refs = optional_resolve(options)?;
    if refs.len() > 0 {
        return Ok(Progress::Unresolved(stage, refs));
    }
    finish_conversion(stage, options)?;
    Ok(Progress::Done)
}

/// Convert a Swagger 2.0 document into OpenAPI 3.0.
///
/// On success `options.openapi` holds the converted document. The input value is
/// not mutated. With `options.resolve` set the conversion stops at external
/// references, since their files have to be read first, and goes on with
/// [`resume_conversion`].
pub fn convert_obj(swagger: &JsonValue, options: &mut Options) -> (r: Result<Progress, S2OError>)
    ensures
        (final(options)@, outcome(r)) == converted(swagger@, old(options)@),
        r matches Ok(Progress::Done) && !is_openapi_three(given_document(swagger@))
            ==> without_media_types(final(options)@.openapi),
{
    let stage = begin_conversion(swagger, options)?;
    resume_conversion(stage, options)
}

// --- text ------------------------------------------------------------------

/// The document of a source text, or the message of the failure, and the
/// settings that say what the source is.
pub open spec fn source_read(source: Text, o: Settings) -> (Settings, Result<Json, Text>) {
    match serial::json_read(source) {
        Some(j) => (Settings { text: source, source_yaml: false, ..o }, Ok(yaml::normalised(j))),
        None => match yaml::yaml_parsed(source) {
            Ok(j) => (
                Settings {
                    text: source,
                    source_yaml: true,
                    had_anchors: yaml::anchored(source),
                    ..o
                },
                Ok(j),
            ),
            Err(e) => (o, Err(e)),
        },
    }
}

/// The settings after a conversion of a source text, and the outcome.
pub open spec fn text_converted(source: Text, o: Settings) -> (Settings, Outcome) {
    let (o1, r1) = source_read(source, o);
    match r1 {
        Ok(j) => converted(j, o1),
        Err(e) => (o1, Outcome::Failed(e)),
    }
}

/// Parse a source text and record what it is.
pub fn read_source(source: &str, options: &mut Options) -> (r: Result<JsonValue, S2OError>)
    ensures
        (final(options)@, yaml::outcome(r)) == source_read(source@, old(options)@),
{
    if let Some(mut v) = serial::from_json_text(source) {
        yaml::normalise_numbers(&mut v);
        options.text = source.to_owned();
        options.source_yaml = false;
        return Ok(v);
    }
    let v = yaml::parse_yaml(source)?;
    options.text = source.to_owned();
    options.source_yaml = true;
    options.had_anchors = yaml::has_alias(source);
    Ok(v)
}

/// Convert a Swagger 2.0 document given as JSON or YAML text.
///
/// JSON is tried first, then YAML. `options.source_yaml` tells which it was, and
/// `options.text` holds the text.
pub fn convert_str(source: &str, options: &mut Options) -> (r: Result<Progress, S2OError>)
    ensures
        (final(options)@, outcome(r)) == text_converted(source@, old(options)@),
{
    let v = read_source(source, options)?;
    convert_obj(&v, options)
}

} // verus!
