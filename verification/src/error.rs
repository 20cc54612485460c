//! The crate error type and the throw-or-warn policy.

use vstd::prelude::*;

use crate::json::{self, Json, Text};
use crate::laws;
use crate::options::{Options, Settings, DEFAULT_WARN_PROPERTY};
use crate::value::JsonValue;

verus! {

/// The single error type raised by the converter.
///
/// The name keeps the `S2O` (Swagger to OpenAPI) prefix so callers have a stable
/// type to match on.
#[derive(Debug, PartialEq, Eq)]
pub struct S2OError {
    /// Human-readable description of the problem.
    pub message: String,
}

impl S2OError {
    /// Build an error with the given message.
    pub fn new(message: &str) -> (r: S2OError)
        ensures
            r.message@ == message@,
    {
        S2OError { message: message.to_owned() }
    }
}

impl Clone for S2OError {
    fn clone(&self) -> (r: S2OError)
        ensures
            r.message@ == self.message@,
    {
        S2OError { message: self.message.clone() }
    }
}

/// The message of a failure.
pub open spec fn failure(r: Result<(), S2OError>) -> Option<Text> {
    match r {
        Ok(()) => None,
        Err(e) => Some(e.message@),
    }
}

/// The container after a problem, and the failure that the problem is. With
/// `warn_only` the message goes into the container, when that is an object.
/// Otherwise it is a failure.
pub open spec fn warned(container: Json, message: Text, o: Settings) -> (Json, Option<Text>) {
    if o.warn_only {
        match container {
            Json::Object(m) => (
                Json::Object(json::insert(m, o.warning_key(), Json::String(message))),
                None,
            ),
            _ => (container, None),
        }
    } else {
        (container, Some(message))
    }
}

/// With `warn_only` no problem is a failure. Without it every problem is, and the
/// container stays as it is.
pub proof fn warn_only_never_fails(container: Json, message: Text, o: Settings)
    ensures
        o.warn_only ==> warned(container, message, o).1 is None,
        o.warn_only && container is Object ==> warned(container, message, o).0.member(
            o.warning_key(),
        ) == Some(Json::String(message)),
        !o.warn_only ==> warned(container, message, o) == (container, Some(message)),
{
    if let Json::Object(m) = container {
        laws::lookup_after_insert(m, o.warning_key(), Json::String(message));
    }
}

/// Either warn into a container or raise an error.
///
/// When `warn_only` is set, the message is written into `container` under the
/// configured warning property and `Ok(())` is returned. Otherwise the message
/// becomes an error.
pub fn warn_or_error(message: &str, container: &mut JsonValue, options: &Options) -> (r: Result<
    (),
    S2OError,
>)
    ensures
        (final(container)@, failure(r)) == warned(old(container)@, message@, options@),
{
    if options.warn_only {
        let prop = if options.warn_property.as_str().is_empty() {
            DEFAULT_WARN_PROPERTY.to_owned()
        } else {
            options.warn_property.clone()
        };
        if let Some(map) = container.as_object_mut() {
            map.insert(prop.as_str(), JsonValue::text(message));
        }
        Ok(())
    } else {
        Err(S2OError::new(message))
    }
}

} // verus!
