//! The error type shared by schema construction, the registry and evaluation.

use vstd::prelude::*;
use vstd::string::*;

verus! {

/// What can go wrong when a schema is built, registered or evaluated.
///
/// None of these is a validation error: a validation error describes an
/// instance that a schema rejects and is an ordinary result of evaluation.
#[derive(Debug, PartialEq, Clone, Eq, Hash)]
pub enum JslError {
    /// The keywords of a schema do not make up one of the eight forms, or
    /// an identifier or a reference is no URL.
    InvalidForm,
    /// A name is used twice where it may be used once: among `properties`,
    /// `optionalProperties` and the tag of an enclosing discriminator, among
    /// the branches of a discriminator, or among the definitions.
    AmbiguousProperty { property: String },
    /// A reference names a definition that does not exist.
    NoSuchDefinition { definition: String },
    /// A schema that is not a root schema was handed to a registry.
    NonRoot,
    /// A relative reference was found in a document that has no `id` to
    /// resolve it against.
    RelativeRefFromAnonymousSchema,
    /// Following references went deeper than the configured bound.
    MaxDepthExceeded,
}

/// The mathematical value of a [`JslError`]: the same variants, with the
/// strings replaced by their character sequences.
pub enum ErrorView {
    InvalidForm,
    AmbiguousProperty { property: Seq<char> },
    NoSuchDefinition { definition: Seq<char> },
    NonRoot,
    RelativeRefFromAnonymousSchema,
    MaxDepthExceeded,
}

impl View for JslError {
    type V = ErrorView;

    open spec fn view(&self) -> ErrorView {
        match *self {
            JslError::InvalidForm => ErrorView::InvalidForm,
            JslError::AmbiguousProperty { property } => ErrorView::AmbiguousProperty {
                property: property@,
            },
            JslError::NoSuchDefinition { definition } => ErrorView::NoSuchDefinition {
                definition: definition@,
            },
            JslError::NonRoot => ErrorView::NonRoot,
            JslError::RelativeRefFromAnonymousSchema => ErrorView::RelativeRefFromAnonymousSchema,
            JslError::MaxDepthExceeded => ErrorView::MaxDepthExceeded,
        }
    }
}

/// What an error says of itself.
pub open spec fn message_of(error: ErrorView) -> Seq<char> {
    match error {
        ErrorView::InvalidForm => "invalid schema form"@,
        ErrorView::AmbiguousProperty { property } => "ambiguous property: "@ + property,
        ErrorView::NoSuchDefinition { definition } => "no such definition: "@ + definition,
        ErrorView::NonRoot => "schema is not a root schema"@,
        ErrorView::RelativeRefFromAnonymousSchema => "relative reference from a schema without id"@,
        ErrorView::MaxDepthExceeded => "maximum reference depth exceeded during validation"@,
    }
}

impl JslError {
    /// The error in words.
    pub fn message(&self) -> (text: String)
        ensures
            text@ == message_of(self@),
    {
        match self {
            JslError::InvalidForm => "invalid schema form".to_owned(),
            JslError::AmbiguousProperty { property } => {
                "ambiguous property: ".to_owned().concat(property.as_str())
            },
            JslError::NoSuchDefinition { definition } => {
                "no such definition: ".to_owned().concat(definition.as_str())
            },
            JslError::NonRoot => "schema is not a root schema".to_owned(),
            JslError::RelativeRefFromAnonymousSchema => {
                "relative reference from a schema without id".to_owned()
            },
            JslError::MaxDepthExceeded => {
                "maximum reference depth exceeded during validation".to_owned()
            },
        }
    }
}

} // verus!
