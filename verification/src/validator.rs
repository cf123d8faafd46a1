//! Validation: configuration, the validator, and the errors it reports.

use vstd::prelude::*;
use crate::errors::{ErrorView, JslError};
use crate::json::Json;
use crate::paths::{resolves, well_named};
use crate::pointer::{pointer_string, pointer_text};
use crate::schema::{is_closed, Schema};
use crate::text::strings_view;
use crate::vm::{validate, validation};

verus! {

/// A sequence of JSON Pointer reference tokens.
pub type Path = Seq<Seq<char>>;

/// The mathematical value of a [`ValidationError`]: its two paths.
pub struct ErrorAt {
    pub instance_path: Path,
    pub schema_path: Path,
}

/// One reason why an instance does not satisfy a schema.
///
/// This is no error of the program: a list of these is what a successful
/// validation returns. Each holds the reference tokens of two JSON Pointers,
/// one into the instance and one into the schema.
#[derive(Clone, Debug, PartialEq, Eq)]
pub struct ValidationError {
    instance_path: Vec<String>,
    schema_path: Vec<String>,
}

impl View for ValidationError {
    type V = ErrorAt;

    closed spec fn view(&self) -> ErrorAt {
        ErrorAt {
            instance_path: strings_view(self.instance_path@),
            schema_path: strings_view(self.schema_path@),
        }
    }
}

impl ValidationError {
    /// An error at the given place of the instance, raised by the given
    /// place of the schema.
    pub fn new(instance_path: Vec<String>, schema_path: Vec<String>) -> (e: ValidationError)
        ensures
            e@.instance_path == strings_view(instance_path@),
            e@.schema_path == strings_view(schema_path@),
    {
        ValidationError { instance_path, schema_path }
    }

    /// The tokens that lead to the rejected part of the instance.
    pub fn instance_path(&self) -> (r: &Vec<String>)
        ensures
            strings_view(r@) == self@.instance_path,
    {
        &self.instance_path
    }

    /// The tokens that lead to the part of the schema that rejected it.
    pub fn schema_path(&self) -> (r: &Vec<String>)
        ensures
            strings_view(r@) == self@.schema_path,
    {
        &self.schema_path
    }

    /// The instance path as the text of a JSON Pointer.
    pub fn instance_pointer(&self) -> (text: String)
        ensures
            text@ == pointer_text(self@.instance_path),
    {
        pointer_string(&self.instance_path)
    }

    /// The schema path as the text of a JSON Pointer.
    pub fn schema_pointer(&self) -> (text: String)
        ensures
            text@ == pointer_text(self@.schema_path),
    {
        pointer_string(&self.schema_path)
    }
}

/// The views of a list of validation errors.
pub open spec fn errors_view(errors: Seq<ValidationError>) -> Seq<ErrorAt> {
    Seq::new(errors.len(), |i: int| errors[i]@)
}

/// How a validation proceeds.
#[derive(Debug, Eq, PartialEq, Clone, Hash)]
pub struct Config {
    max_errors: usize,
    max_depth: usize,
    strict_instance_semantics: bool,
}

/// The mathematical value of a [`Config`].
pub struct ConfigView {
    /// The number of errors after which validation stops; zero for no bound.
    pub max_errors: nat,
    /// The bound on the depth of references.
    pub max_depth: nat,
    /// Whether members that a properties form does not speak of are errors.
    pub strict: bool,
}

impl View for Config {
    type V = ConfigView;

    closed spec fn view(&self) -> ConfigView {
        ConfigView {
            max_errors: self.max_errors as nat,
            max_depth: self.max_depth as nat,
            strict: self.strict_instance_semantics,
        }
    }
}

impl Config {
    /// The default configuration: every error is reported, references are
    /// followed to a depth of 32, and members that a schema does not speak
    /// of are accepted.
    pub fn new() -> (c: Config)
        ensures
            c@ == (ConfigView { max_errors: 0, max_depth: 32, strict: false }),
    {
        Config { max_errors: 0, max_depth: 32, strict_instance_semantics: false }
    }

    /// Sets the number of errors after which validation stops. Zero, the
    /// default, asks for all of them.
    pub fn max_errors(&mut self, max_errors: usize) -> (r: &mut Self)
        ensures
            r@ == (ConfigView { max_errors: max_errors as nat, ..old(self)@ }),
            *final(self) == *final(r),
    {
        self.max_errors = max_errors;
        self
    }

    /// Sets the bound on the depth of references. A validation that meets
    /// the bound fails; it returns no errors.
    pub fn max_depth(&mut self, max_depth: usize) -> (r: &mut Self)
        ensures
            r@ == (ConfigView { max_depth: max_depth as nat, ..old(self)@ }),
            *final(self) == *final(r),
    {
        self.max_depth = max_depth;
        self
    }

    /// Sets whether a member that a properties form does not speak of is an
    /// error.
    pub fn strict_instance_semantics(&mut self, strict_instance_semantics: bool) -> (r: &mut Self)
        ensures
            r@ == (ConfigView { strict: strict_instance_semantics, ..old(self)@ }),
            *final(self) == *final(r),
    {
        self.strict_instance_semantics = strict_instance_semantics;
        self
    }
}

impl Default for Config {
    fn default() -> (c: Config)
        ensures
            c@ == (ConfigView { max_errors: 0, max_depth: 32, strict: false }),
    {
        Config::new()
    }
}

/// Validates instances against schemas.
#[derive(Debug, Default, Eq, PartialEq, Clone, Hash)]
pub struct Validator {
    config: Config,
}

impl Validator {
    /// A validator with the default configuration.
    pub fn new() -> (v: Validator)
        ensures
            v.config()@ == (ConfigView { max_errors: 0, max_depth: 32, strict: false }),
    {
        Self::new_with_config(Config::new())
    }

    /// A validator with the given configuration.
    pub fn new_with_config(config: Config) -> (v: Validator)
        ensures
            v.config() == config,
    {
        Validator { config }
    }

    /// The configuration of this validator.
    pub closed spec fn config(&self) -> Config {
        self.config
    }

    /// Validates `instance` against the root schema `schema`.
    ///
    /// The result is what [`validation`] says for this validator's
    /// configuration: the errors in the order in which they are met, cut
    /// off at the configured number; or `MaxDepthExceeded` where references
    /// go deeper than the configured bound before that number is reached;
    /// or `NoSuchDefinition` where a reference names no definition of
    /// `schema`.
    pub fn validate(&self, schema: &Schema, instance: &Json) -> (r: Result<
        Vec<ValidationError>,
        JslError,
    >)
        ensures
            match r {
                Ok(errors) => validation(
                    self.config()@.max_errors,
                    self.config()@.max_depth,
                    self.config()@.strict,
                    *schema,
                    *instance,
                ) == Ok::<Seq<ErrorAt>, ErrorView>(errors_view(errors@)),
                Err(e) => validation(
                    self.config()@.max_errors,
                    self.config()@.max_depth,
                    self.config()@.strict,
                    *schema,
                    *instance,
                ) == Err::<Seq<ErrorAt>, ErrorView>(e@),
            },
            r matches Ok(errors) ==> self.config()@.max_errors > 0 ==> errors@.len()
                <= self.config()@.max_errors,
            r matches Ok(errors) ==> forall|k: int|
                0 <= k < errors@.len() ==> resolves(
                    *instance,
                    (#[trigger] errors@[k])@.instance_path,
                ) && well_named(*schema, errors@[k]@.schema_path),
            r matches Err(e) ==> e@ == ErrorView::MaxDepthExceeded || (e@ is NoSuchDefinition
                && !is_closed(schema@)),
    {
        validate(
            self.config.max_errors,
            self.config.max_depth,
            self.config.strict_instance_semantics,
            schema,
            instance,
        )
    }
}

} // verus!
