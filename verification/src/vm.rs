//! The evaluator: what a schema says of an instance, and the machine that
//! computes it.

use vstd::prelude::*;
use crate::errors::{ErrorView, JslError};
use crate::json::{find_key, has_key, position, Json};
use crate::paths::{lemma_depth_safety, lemma_paths_well_formed, resolves, well_named};
use crate::pointer::{decimal, index_token};
use crate::schema::{is_closed, Form, Schema, Type};
use crate::timestamp::{is_rfc3339, parses_as_rfc3339};
use crate::text::{clone_strings, contains_string, name_view, strings_view};
use crate::validator::{errors_view, ErrorAt, Path, ValidationError};

verus! {

/// What evaluation yields before any cap is applied: the errors in the order
/// in which they are met and, where evaluation cannot go on, the reason. The
/// errors are those met before that point.
pub struct Outcome {
    pub errors: Seq<ErrorAt>,
    pub fatal: Option<ErrorView>,
}

/// Nothing to report.
pub open spec fn clean() -> Outcome {
    Outcome { errors: seq![], fatal: None }
}

/// One error, at the given place of the instance and of the schema.
pub open spec fn one(instance_path: Path, schema_path: Path) -> Outcome {
    Outcome { errors: seq![ErrorAt { instance_path, schema_path }], fatal: None }
}

/// Evaluation cannot go on.
pub open spec fn stop(reason: ErrorView) -> Outcome {
    Outcome { errors: seq![], fatal: Some(reason) }
}

/// First `a`, then `b`, unless `a` could not go on.
pub open spec fn then(a: Outcome, b: Outcome) -> Outcome {
    if a.fatal.is_some() {
        a
    } else {
        Outcome { errors: a.errors + b.errors, fatal: b.fatal }
    }
}

/// Whether a value has the primitive type `t`, given whether it is a string
/// that holds a date-time.
pub open spec fn has_type_given(t: Type, instance: Json, date_time: bool) -> bool {
    match t {
        Type::Boolean => instance is Bool,
        Type::Number => instance is Number,
        Type::String => instance is String,
        Type::Timestamp => instance is String && date_time,
    }
}

/// Whether a value is a string that holds an RFC 3339 date-time.
pub open spec fn is_date_time(instance: Json) -> bool {
    match instance {
        Json::String(s) => is_rfc3339(s@),
        _ => false,
    }
}

/// Whether a value has the primitive type `t`.
pub open spec fn has_type(t: Type, instance: Json) -> bool {
    has_type_given(t, instance, is_date_time(instance))
}

/// Whether a value is one of the listed strings.
pub open spec fn is_one_of(values: Seq<String>, instance: Json) -> bool {
    match instance {
        Json::String(s) => strings_view(values).contains(s@),
        _ => false,
    }
}

/// The definition of the given name in a root schema.
pub open spec fn definition(root: Schema, name: Seq<char>) -> Option<Schema> {
    match root.defs {
        Some(defs) => match position(defs@, name) {
            Some(i) => Some(defs@[i].1),
            None => None,
        },
        None => None,
    }
}

/// What `schema` says of `instance`.
///
/// `root` holds the definitions, `depth` is the number of references that
/// may still be followed, `tag` is the tag of the discriminator that chose
/// `schema`, if one did, and the two paths say where `instance` and `schema`
/// stand.
pub open spec fn run(
    root: Schema,
    depth: nat,
    schema: Schema,
    instance: Json,
    tag: Option<Seq<char>>,
    instance_path: Path,
    schema_path: Path,
    strict: bool,
) -> Outcome
    decreases depth, schema, 1nat, 0nat,
{
    match *schema.form {
        Form::Empty => clean(),
        Form::Ref(name) => {
            if depth == 0 {
                stop(ErrorView::MaxDepthExceeded)
            } else {
                match definition(root, name@) {
                    Some(target) => run(
                        root,
                        (depth - 1) as nat,
                        target,
                        instance,
                        None,
                        instance_path,
                        seq!["definitions"@, name@],
                        strict,
                    ),
                    None => stop(ErrorView::NoSuchDefinition { definition: name@ }),
                }
            }
        },
        Form::Type(t) => {
            if has_type(t, instance) {
                clean()
            } else {
                one(instance_path, schema_path.push("type"@))
            }
        },
        Form::Enum(values) => {
            if is_one_of(values@, instance) {
                clean()
            } else {
                one(instance_path, schema_path.push("enum"@))
            }
        },
        Form::Elements(_) => match instance {
            Json::Array(items) => run_elements(
                root,
                depth,
                schema,
                items@,
                0,
                instance_path,
                schema_path.push("elements"@),
                strict,
            ),
            _ => one(instance_path, schema_path.push("elements"@)),
        },
        Form::Properties(required, optional, has_required) => match instance {
            Json::Object(members) => then(
                then(
                    run_members(
                        root,
                        depth,
                        schema,
                        true,
                        0,
                        members@,
                        instance_path,
                        schema_path.push("properties"@),
                        strict,
                    ),
                    run_members(
                        root,
                        depth,
                        schema,
                        false,
                        0,
                        members@,
                        instance_path,
                        schema_path.push("optionalProperties"@),
                        strict,
                    ),
                ),
                if strict {
                    undeclared(required@, optional@, tag, members@, 0, instance_path, schema_path)
                } else {
                    clean()
                },
            ),
            _ => one(
                instance_path,
                schema_path.push(
                    if has_required {
                        "properties"@
                    } else {
                        "optionalProperties"@
                    },
                ),
            ),
        },
        Form::Values(_) => match instance {
            Json::Object(members) => run_values(
                root,
                depth,
                schema,
                members@,
                0,
                instance_path,
                schema_path.push("values"@),
                strict,
            ),
            _ => one(instance_path, schema_path.push("values"@)),
        },
        Form::Discriminator(tag_name, mapping) => match instance {
            Json::Object(members) => match position(members@, tag_name@) {
                Some(p) => match members@[p].1 {
                    Json::String(value) => match position(mapping@, value@) {
                        Some(m) => run(
                            root,
                            depth,
                            mapping@[m].1,
                            instance,
                            Some(tag_name@),
                            instance_path,
                            schema_path.push("discriminator"@).push("mapping"@).push(value@),
                            strict,
                        ),
                        None => one(
                            instance_path.push(tag_name@),
                            schema_path.push("discriminator"@).push("mapping"@),
                        ),
                    },
                    _ => one(
                        instance_path.push(tag_name@),
                        schema_path.push("discriminator"@).push("tag"@),
                    ),
                },
                None => one(instance_path, schema_path.push("discriminator"@).push("tag"@)),
            },
            _ => one(instance_path, schema_path.push("discriminator"@)),
        },
    }
}

/// What the element schema of `parent` says of the items of an array from
/// position `from` on, in turn.
pub open spec fn run_elements(
    root: Schema,
    depth: nat,
    parent: Schema,
    items: Seq<Json>,
    from: nat,
    instance_path: Path,
    schema_path: Path,
    strict: bool,
) -> Outcome
    decreases depth, parent, 0nat, items.len() - from,
{
    if from >= items.len() {
        clean()
    } else {
        match *parent.form {
            Form::Elements(sub) => then(
                run(
                    root,
                    depth,
                    sub,
                    items[from as int],
                    None,
                    instance_path.push(decimal(from)),
                    schema_path,
                    strict,
                ),
                run_elements(root, depth, parent, items, from + 1, instance_path, schema_path, strict),
            ),
            _ => clean(),
        }
    }
}

/// What the value schema of `parent` says of the members of an object from
/// position `from` on, in turn.
pub open spec fn run_values(
    root: Schema,
    depth: nat,
    parent: Schema,
    members: Seq<(String, Json)>,
    from: nat,
    instance_path: Path,
    schema_path: Path,
    strict: bool,
) -> Outcome
    decreases depth, parent, 0nat, members.len() - from,
{
    if from >= members.len() {
        clean()
    } else {
        match *parent.form {
            Form::Values(sub) => then(
                run(
                    root,
                    depth,
                    sub,
                    members[from as int].1,
                    None,
                    instance_path.push(members[from as int].0@),
                    schema_path,
                    strict,
                ),
                run_values(root, depth, parent, members, from + 1, instance_path, schema_path, strict),
            ),
            _ => clean(),
        }
    }
}

/// The properties of a schema in properties form: the required ones or the
/// optional ones.
pub open spec fn properties_of(parent: Schema, required: bool) -> Seq<(String, Schema)> {
    match *parent.form {
        Form::Properties(req, opt, _) => if required {
            req@
        } else {
            opt@
        },
        _ => seq![],
    }
}

/// What the required (or the optional) properties of `parent` from position
/// `from` on say of the members of an object, in turn. A required property
/// that the object lacks is an error; an optional one is not.
pub open spec fn run_members(
    root: Schema,
    depth: nat,
    parent: Schema,
    required: bool,
    from: nat,
    members: Seq<(String, Json)>,
    instance_path: Path,
    schema_path: Path,
    strict: bool,
) -> Outcome
    decreases depth, parent, 0nat, properties_of(parent, required).len() - from,
{
    let properties = properties_of(parent, required);
    if from >= properties.len() {
        clean()
    } else {
        let name = properties[from as int].0@;
        then(
            match position(members, name) {
                Some(p) => run(
                    root,
                    depth,
                    properties[from as int].1,
                    members[p].1,
                    None,
                    instance_path.push(name),
                    schema_path.push(name),
                    strict,
                ),
                None => if required {
                    one(instance_path, schema_path.push(name))
                } else {
                    clean()
                },
            },
            run_members(root, depth, parent, required, from + 1, members, instance_path, schema_path, strict),
        )
    }
}

/// Whether a member of that name is one that a properties form does not
/// speak of: it is neither required nor optional, nor the tag that chose the
/// form.
pub open spec fn is_undeclared(
    required: Seq<(String, Schema)>,
    optional: Seq<(String, Schema)>,
    tag: Option<Seq<char>>,
    name: Seq<char>,
) -> bool {
    tag != Some(name) && !has_key(required, name) && !has_key(optional, name)
}

/// One error for each member from position `from` on that the properties
/// form does not speak of.
pub open spec fn undeclared(
    required: Seq<(String, Schema)>,
    optional: Seq<(String, Schema)>,
    tag: Option<Seq<char>>,
    members: Seq<(String, Json)>,
    from: nat,
    instance_path: Path,
    schema_path: Path,
) -> Outcome
    decreases members.len() - from,
{
    if from >= members.len() {
        clean()
    } else {
        let name = members[from as int].0@;
        then(
            if is_undeclared(required, optional, tag, name) {
                one(instance_path.push(name), schema_path)
            } else {
                clean()
            },
            undeclared(required, optional, tag, members, from + 1, instance_path, schema_path),
        )
    }
}

/// Whether a list that holds `count` errors has reached the cap. A cap of
/// zero is no cap.
pub open spec fn is_full(count: nat, cap: nat) -> bool {
    cap > 0 && count >= cap
}

/// What a validation returns: the errors of the outcome, cut off at the cap
/// where they reach it; else the reason why evaluation could not go on; else
/// all the errors.
pub open spec fn capped(outcome: Outcome, cap: nat) -> Result<Seq<ErrorAt>, ErrorView> {
    if is_full(outcome.errors.len(), cap) {
        Ok(outcome.errors.take(cap as int))
    } else {
        match outcome.fatal {
            Some(reason) => Err(reason),
            None => Ok(outcome.errors),
        }
    }
}

/// The number of references that may be followed before the bound on depth
/// is met, when evaluation starts in the root schema.
pub open spec fn initial_depth(max_depth: nat) -> nat {
    if max_depth >= 1 {
        (max_depth - 1) as nat
    } else {
        0
    }
}

/// What validating `instance` against `schema` returns.
pub open spec fn validation(
    max_errors: nat,
    max_depth: nat,
    strict: bool,
    schema: Schema,
    instance: Json,
) -> Result<Seq<ErrorAt>, ErrorView> {
    capped(
        run(schema, initial_depth(max_depth), schema, instance, None, seq![], seq![], strict),
        max_errors,
    )
}

/// Whether a value has the primitive type `t`. `date_time` says whether the
/// value is a string that holds a date-time; it is read for
/// `Type::Timestamp` only.
pub fn has_primitive_type(t: Type, instance: &Json, date_time: bool) -> (ok: bool)
    ensures
        ok == has_type_given(t, *instance, date_time),
{
    match t {
        Type::Boolean => match instance {
            Json::Bool(_) => true,
            _ => false,
        },
        Type::Number => match instance {
            Json::Number(_) => true,
            _ => false,
        },
        Type::String => match instance {
            Json::String(_) => true,
            _ => false,
        },
        Type::Timestamp => match instance {
            Json::String(_) => date_time,
            _ => false,
        },
    }
}

/// Why the machine stopped early.
enum EvalError {
    /// The list of errors is full.
    Internal,
    /// Evaluation cannot go on.
    Actual(JslError),
}

/// How the list of errors changes over a step whose outcome is `outcome`:
/// on `Ok` all its errors were added and the list is not full; on
/// `Internal` the list became full, and holds the first `cap` errors; on
/// `Actual` evaluation could not go on before the list became full.
spec fn accounted(
    before: Seq<ErrorAt>,
    cap: nat,
    outcome: Outcome,
    r: Result<(), EvalError>,
    after: Seq<ErrorAt>,
) -> bool {
    let all = before + outcome.errors;
    match r {
        Ok(()) => !is_full(all.len(), cap) && outcome.fatal.is_none() && after == all,
        Err(EvalError::Internal) => is_full(all.len(), cap) && after == all.take(cap as int),
        Err(EvalError::Actual(e)) => !is_full(all.len(), cap) && outcome.fatal == Some(e@),
    }
}

proof fn lemma_accounted_then_ok(
    before: Seq<ErrorAt>,
    cap: nat,
    first: Outcome,
    middle: Seq<ErrorAt>,
    second: Outcome,
    r: Result<(), EvalError>,
    after: Seq<ErrorAt>,
)
    requires
        accounted(before, cap, first, Ok(()), middle),
        accounted(middle, cap, second, r, after),
    ensures
        accounted(before, cap, then(first, second), r, after),
{
    assert(before + (first.errors + second.errors) =~= (before + first.errors) + second.errors);
}

proof fn lemma_accounted_then_err(
    before: Seq<ErrorAt>,
    cap: nat,
    first: Outcome,
    r: Result<(), EvalError>,
    after: Seq<ErrorAt>,
    second: Outcome,
)
    requires
        r.is_err(),
        accounted(before, cap, first, r, after),
    ensures
        accounted(before, cap, then(first, second), r, after),
{
    if first.fatal.is_none() {
        let short = before + first.errors;
        let long = before + (first.errors + second.errors);
        assert(long.take(cap as int) =~= short.take(cap as int));
    }
}

/// The machine: the bounds it runs under, the root schema, where it stands
/// in the instance and in the schema, and the errors met so far.
struct Vm<'a> {
    max_failures: usize,
    max_depth: usize,
    strict_instance_semantics: bool,
    root_schema: &'a Schema,
    instance_tokens: Vec<String>,
    schema_tokens: Vec<Vec<String>>,
    errors: Vec<ValidationError>,
}

impl<'a> Vm<'a> {
    spec fn inv(&self) -> bool {
        &&& self.schema_tokens@.len() >= 1
        &&& (self.max_failures == 0 || self.errors@.len() < self.max_failures)
    }

    spec fn cap(&self) -> nat {
        self.max_failures as nat
    }

    spec fn depth_left(&self) -> nat {
        if self.schema_tokens@.len() <= self.max_depth {
            (self.max_depth - self.schema_tokens@.len()) as nat
        } else {
            0
        }
    }

    spec fn ipath(&self) -> Path {
        strings_view(self.instance_tokens@)
    }

    spec fn spath(&self) -> Path {
        strings_view(self.schema_tokens@.last()@)
    }

    spec fn reported(&self) -> Seq<ErrorAt> {
        errors_view(self.errors@)
    }

    spec fn same_setup(&self, other: &Vm) -> bool {
        &&& self.max_failures == other.max_failures
        &&& self.max_depth == other.max_depth
        &&& self.strict_instance_semantics == other.strict_instance_semantics
        &&& *self.root_schema == *other.root_schema
    }

    /// The machine stands where `other` stands.
    spec fn same_place(&self, other: &Vm) -> bool {
        &&& self.ipath() == other.ipath()
        &&& self.spath() == other.spath()
        &&& self.schema_tokens@.len() == other.schema_tokens@.len()
        &&& self.schema_tokens@.drop_last() == other.schema_tokens@.drop_last()
    }

    /// The machine is `other` moved to the given place, with nothing else
    /// changed.
    spec fn moved(&self, other: &Vm, instance_path: Path, schema_path: Path) -> bool {
        &&& self.same_setup(other)
        &&& self.errors == other.errors
        &&& self.ipath() == instance_path
        &&& self.spath() == schema_path
        &&& self.schema_tokens@.len() == other.schema_tokens@.len()
        &&& self.schema_tokens@.drop_last() == other.schema_tokens@.drop_last()
    }

    fn push_schema_token(&mut self, token: String)
        requires
            old(self).schema_tokens@.len() >= 1,
        ensures
            final(self).moved(old(self), old(self).ipath(), old(self).spath().push(token@)),
            final(self).instance_tokens == old(self).instance_tokens,
    {
        let mut top = self.schema_tokens.pop().unwrap();
        top.push(token);
        self.schema_tokens.push(top);
        assert(self.spath() =~= old(self).spath().push(token@));
        assert(self.schema_tokens@.drop_last() =~= old(self).schema_tokens@.drop_last());
    }

    fn pop_schema_token(&mut self)
        requires
            old(self).schema_tokens@.len() >= 1,
            old(self).spath().len() >= 1,
        ensures
            final(self).moved(old(self), old(self).ipath(), old(self).spath().drop_last()),
            final(self).instance_tokens == old(self).instance_tokens,
    {
        let mut top = self.schema_tokens.pop().unwrap();
        top.pop();
        self.schema_tokens.push(top);
        assert(self.spath() =~= old(self).spath().drop_last());
        assert(self.schema_tokens@.drop_last() =~= old(self).schema_tokens@.drop_last());
    }

    fn push_instance_token(&mut self, token: String)
        ensures
            final(self).moved(old(self), old(self).ipath().push(token@), old(self).spath()),
            final(self).schema_tokens == old(self).schema_tokens,
    {
        self.instance_tokens.push(token);
        assert(self.ipath() =~= old(self).ipath().push(token@));
    }

    fn pop_instance_token(&mut self)
        requires
            old(self).ipath().len() >= 1,
        ensures
            final(self).moved(old(self), old(self).ipath().drop_last(), old(self).spath()),
            final(self).schema_tokens == old(self).schema_tokens,
    {
        self.instance_tokens.pop();
        assert(self.ipath() =~= old(self).ipath().drop_last());
    }

    /// Records an error at the place where the machine stands.
    fn push_err(&mut self) -> (r: Result<(), EvalError>)
        requires
            old(self).inv(),
        ensures
            final(self).same_setup(old(self)),
            final(self).instance_tokens == old(self).instance_tokens,
            final(self).schema_tokens == old(self).schema_tokens,
            accounted(
                old(self).reported(),
                old(self).cap(),
                one(old(self).ipath(), old(self).spath()),
                r,
                final(self).reported(),
            ),
            r.is_ok() ==> final(self).inv(),
    {
        let n = self.schema_tokens.len();
        let schema_path = clone_strings(&self.schema_tokens[n - 1]);
        let instance_path = clone_strings(&self.instance_tokens);
        let error = ValidationError::new(instance_path, schema_path);
        self.errors.push(error);
        proof {
            let all = old(self).reported() + one(old(self).ipath(), old(self).spath()).errors;
            assert(self.reported() =~= all);
            assert(all.take(all.len() as int) =~= all);
        }
        if self.errors.len() == self.max_failures {
            Err(EvalError::Internal)
        } else {
            Ok(())
        }
    }

    /// Records an error under one more schema token.
    fn report_under(&mut self, token: String) -> (r: Result<(), EvalError>)
        requires
            old(self).inv(),
        ensures
            final(self).same_setup(old(self)),
            accounted(
                old(self).reported(),
                old(self).cap(),
                one(old(self).ipath(), old(self).spath().push(token@)),
                r,
                final(self).reported(),
            ),
            r.is_ok() ==> final(self).inv() && final(self).same_place(old(self)),
    {
        self.push_schema_token(token);
        self.push_err()?;
        self.pop_schema_token();
        assert(self.spath() =~= old(self).spath());
        Ok(())
    }

    /// Records an error at a member of the instance.
    fn report_at(&mut self, member: String) -> (r: Result<(), EvalError>)
        requires
            old(self).inv(),
        ensures
            final(self).same_setup(old(self)),
            accounted(
                old(self).reported(),
                old(self).cap(),
                one(old(self).ipath().push(member@), old(self).spath()),
                r,
                final(self).reported(),
            ),
            r.is_ok() ==> final(self).inv() && final(self).same_place(old(self)),
    {
        self.push_instance_token(member);
        self.push_err()?;
        self.pop_instance_token();
        assert(self.ipath() =~= old(self).ipath());
        Ok(())
    }

    /// Evaluates `instance` against `schema` at the place where the machine
    /// stands.
    fn eval(&mut self, schema: &Schema, instance: &Json, parent_tag: Option<&String>) -> (r: Result<
        (),
        EvalError,
    >)
        requires
            old(self).inv(),
        ensures
            final(self).same_setup(old(self)),
            accounted(
                old(self).reported(),
                old(self).cap(),
                run(
                    *old(self).root_schema,
                    old(self).depth_left(),
                    *schema,
                    *instance,
                    name_view(parent_tag),
                    old(self).ipath(),
                    old(self).spath(),
                    old(self).strict_instance_semantics,
                ),
                r,
                final(self).reported(),
            ),
            r.is_ok() ==> final(self).inv() && final(self).same_place(old(self)),
        decreases old(self).depth_left(), schema, 1nat, 0nat,
    {
        match &*schema.form {
            Form::Empty => {
                assert(self.reported() + clean().errors =~= self.reported());
                Ok(())
            },
            Form::Ref(name) => self.eval_ref(schema, name, instance),
            Form::Type(t) => {
                let date_time = match t {
                    Type::Timestamp => match instance {
                        Json::String(text) => parses_as_rfc3339(text.as_str()),
                        _ => false,
                    },
                    _ => false,
                };
                if has_primitive_type(*t, instance, date_time) {
                    assert(self.reported() + clean().errors =~= self.reported());
                    Ok(())
                } else {
                    self.report_under("type".to_owned())
                }
            },
            Form::Enum(values) => {
                let listed = match instance {
                    Json::String(text) => contains_string(values, text),
                    _ => false,
                };
                if listed {
                    assert(self.reported() + clean().errors =~= self.reported());
                    Ok(())
                } else {
                    self.report_under("enum".to_owned())
                }
            },
            Form::Elements(sub) => match instance {
                Json::Array(items) => {
                    self.push_schema_token("elements".to_owned());
                    self.eval_elements(schema, sub, items)?;
                    self.pop_schema_token();
                    assert(self.spath() =~= old(self).spath());
                    Ok(())
                },
                _ => self.report_under("elements".to_owned()),
            },
            Form::Properties(required, optional, has_required) => match instance {
                Json::Object(members) => self.eval_properties(
                    schema,
                    required,
                    optional,
                    members,
                    parent_tag,
                ),
                _ => {
                    if *has_required {
                        self.report_under("properties".to_owned())
                    } else {
                        self.report_under("optionalProperties".to_owned())
                    }
                },
            },
            Form::Values(sub) => match instance {
                Json::Object(members) => {
                    self.push_schema_token("values".to_owned());
                    self.eval_values(schema, sub, members)?;
                    self.pop_schema_token();
                    assert(self.spath() =~= old(self).spath());
                    Ok(())
                },
                _ => self.report_under("values".to_owned()),
            },
            Form::Discriminator(tag, mapping) => {
                self.push_schema_token("discriminator".to_owned());
                match instance {
                    Json::Object(members) => match find_key(members, tag) {
                        Some(p) => match &members[p].1 {
                            Json::String(value) => match find_key(mapping, value) {
                                Some(m) => {
                                    self.push_schema_token("mapping".to_owned());
                                    self.push_schema_token(value.clone());
                                    self.eval(&mapping[m].1, instance, Some(tag))?;
                                    self.pop_schema_token();
                                    self.pop_schema_token();
                                },
                                None => {
                                    self.push_schema_token("mapping".to_owned());
                                    self.report_at(tag.clone())?;
                                    self.pop_schema_token();
                                },
                            },
                            _ => {
                                self.push_schema_token("tag".to_owned());
                                self.report_at(tag.clone())?;
                                self.pop_schema_token();
                            },
                        },
                        None => {
                            self.report_under("tag".to_owned())?;
                        },
                    },
                    _ => {
                        self.push_err()?;
                    },
                }
                self.pop_schema_token();
                assert(self.spath() =~= old(self).spath());
                Ok(())
            },
        }
    }

    /// Follows a reference to the definition of the given name.
    fn eval_ref(&mut self, schema: &Schema, name: &String, instance: &Json) -> (r: Result<
        (),
        EvalError,
    >)
        requires
            old(self).inv(),
        ensures
            final(self).same_setup(old(self)),
            accounted(
                old(self).reported(),
                old(self).cap(),
                if old(self).depth_left() == 0 {
                    stop(ErrorView::MaxDepthExceeded)
                } else {
                    match definition(*old(self).root_schema, name@) {
                        Some(target) => run(
                            *old(self).root_schema,
                            (old(self).depth_left() - 1) as nat,
                            target,
                            *instance,
                            None,
                            old(self).ipath(),
                            seq!["definitions"@, name@],
                            old(self).strict_instance_semantics,
                        ),
                        None => stop(ErrorView::NoSuchDefinition { definition: name@ }),
                    }
                },
                r,
                final(self).reported(),
            ),
            r.is_ok() ==> final(self).inv() && final(self).same_place(old(self)),
        decreases old(self).depth_left(), schema, 0nat, 0nat,
    {
        if self.schema_tokens.len() >= self.max_depth {
            assert(self.reported() + stop(ErrorView::MaxDepthExceeded).errors =~= self.reported());
            return Err(EvalError::Actual(JslError::MaxDepthExceeded));
        }
        let root: &Schema = self.root_schema;
        let found = match &root.defs {
            Some(defs) => match find_key(defs, name) {
                Some(i) => Some(&defs[i].1),
                None => None,
            },
            None => None,
        };
        match found {
            Some(target) => {
                let mut frame: Vec<String> = Vec::new();
                frame.push("definitions".to_owned());
                frame.push(name.clone());
                self.schema_tokens.push(frame);
                assert(self.spath() =~= seq!["definitions"@, name@]);
                assert(self.schema_tokens@.drop_last() =~= old(self).schema_tokens@);
                self.eval(target, instance, None)?;
                self.schema_tokens.pop();
                assert(self.schema_tokens@ =~= old(self).schema_tokens@);
                Ok(())
            },
            None => {
                assert(self.reported() + stop(
                    ErrorView::NoSuchDefinition { definition: name@ },
                ).errors =~= self.reported());
                Err(EvalError::Actual(JslError::NoSuchDefinition { definition: name.clone() }))
            },
        }
    }

    /// Evaluates the items of an array against the element schema of
    /// `parent`.
    fn eval_elements(&mut self, parent: &Schema, sub: &Schema, items: &Vec<Json>) -> (r: Result<
        (),
        EvalError,
    >)
        requires
            old(self).inv(),
            *parent.form matches Form::Elements(s) && s == *sub,
        ensures
            final(self).same_setup(old(self)),
            accounted(
                old(self).reported(),
                old(self).cap(),
                run_elements(
                    *old(self).root_schema,
                    old(self).depth_left(),
                    *parent,
                    items@,
                    0,
                    old(self).ipath(),
                    old(self).spath(),
                    old(self).strict_instance_semantics,
                ),
                r,
                final(self).reported(),
            ),
            r.is_ok() ==> final(self).inv() && final(self).same_place(old(self)),
        decreases old(self).depth_left(), parent, 0nat, 0nat,
    {
        let ghost root = *self.root_schema;
        let ghost depth = self.depth_left();
        let ghost ip = self.ipath();
        let ghost sp = self.spath();
        let ghost strict = self.strict_instance_semantics;
        let ghost cap = self.cap();
        let ghost before = self.reported();
        let ghost total = run_elements(root, depth, *parent, items@, 0, ip, sp, strict);
        let ghost mut acc: Seq<ErrorAt> = Seq::empty();
        assert(before + acc =~= before);
        assert(then(Outcome { errors: acc, fatal: None }, total).errors =~= total.errors);
        let mut i: usize = 0;
        while i < items.len()
            invariant
                i <= items.len(),
                *parent.form matches Form::Elements(s) && s == *sub,
                self.inv(),
                self.same_setup(old(self)),
                self.same_place(old(self)),
                root == *old(self).root_schema,
                depth == old(self).depth_left(),
                ip == old(self).ipath(),
                sp == old(self).spath(),
                strict == old(self).strict_instance_semantics,
                cap == old(self).cap(),
                before == old(self).reported(),
                self.reported() == before + acc,
                total == run_elements(root, depth, *parent, items@, 0, ip, sp, strict),
                total == then(
                    Outcome { errors: acc, fatal: None },
                    run_elements(root, depth, *parent, items@, i as nat, ip, sp, strict),
                ),
            decreases items.len() - i,
        {
            let ghost here = run(
                root,
                depth,
                *sub,
                items@[i as int],
                None,
                ip.push(decimal(i as nat)),
                sp,
                strict,
            );
            let ghost rest = run_elements(root, depth, *parent, items@, (i + 1) as nat, ip, sp, strict);
            let ghost done = Outcome { errors: acc, fatal: None };
            assert(run_elements(root, depth, *parent, items@, i as nat, ip, sp, strict) == then(here, rest));
            self.push_instance_token(index_token(i));
            let r = self.eval(sub, &items[i], None);
            if r.is_err() {
                proof {
                    lemma_accounted_then_err(before + acc, cap, here, r, self.reported(), rest);
                    assert(before + done.errors =~= before + acc);
                    lemma_accounted_then_ok(before, cap, done, before + acc, then(here, rest), r, self.reported());
                }
                return r;
            }
            self.pop_instance_token();
            proof {
                assert(self.ipath() =~= ip);
                let next = acc + here.errors;
                assert(before + next =~= (before + acc) + here.errors);
                assert(then(done, then(here, rest)).errors =~= then(
                    Outcome { errors: next, fatal: None },
                    rest,
                ).errors);
                acc = next;
            }
            i += 1;
        }
        proof {
            assert(total.errors =~= acc);
        }
        Ok(())
    }

    /// Evaluates the member values of an object against the value schema
    /// of `parent`.
    fn eval_values(&mut self, parent: &Schema, sub: &Schema, members: &Vec<(String, Json)>) -> (r:
        Result<(), EvalError>)
        requires
            old(self).inv(),
            *parent.form matches Form::Values(s) && s == *sub,
        ensures
            final(self).same_setup(old(self)),
            accounted(
                old(self).reported(),
                old(self).cap(),
                run_values(
                    *old(self).root_schema,
                    old(self).depth_left(),
                    *parent,
                    members@,
                    0,
                    old(self).ipath(),
                    old(self).spath(),
                    old(self).strict_instance_semantics,
                ),
                r,
                final(self).reported(),
            ),
            r.is_ok() ==> final(self).inv() && final(self).same_place(old(self)),
        decreases old(self).depth_left(), parent, 0nat, 0nat,
    {
        let ghost root = *self.root_schema;
        let ghost depth = self.depth_left();
        let ghost ip = self.ipath();
        let ghost sp = self.spath();
        let ghost strict = self.strict_instance_semantics;
        let ghost cap = self.cap();
        let ghost before = self.reported();
        let ghost total = run_values(root, depth, *parent, members@, 0, ip, sp, strict);
        let ghost mut acc: Seq<ErrorAt> = Seq::empty();
        assert(before + acc =~= before);
        assert(then(Outcome { errors: acc, fatal: None }, total).errors =~= total.errors);
        let mut i: usize = 0;
        while i < members.len()
            invariant
                i <= members.len(),
                *parent.form matches Form::Values(s) && s == *sub,
                self.inv(),
                self.same_setup(old(self)),
                self.same_place(old(self)),
                root == *old(self).root_schema,
                depth == old(self).depth_left(),
                ip == old(self).ipath(),
                sp == old(self).spath(),
                strict == old(self).strict_instance_semantics,
                cap == old(self).cap(),
                before == old(self).reported(),
                self.reported() == before + acc,
                total == run_values(root, depth, *parent, members@, 0, ip, sp, strict),
                total == then(
                    Outcome { errors: acc, fatal: None },
                    run_values(root, depth, *parent, members@, i as nat, ip, sp, strict),
                ),
            decreases members.len() - i,
        {
            let ghost here = run(
                root,
                depth,
                *sub,
                members@[i as int].1,
                None,
                ip.push(members@[i as int].0@),
                sp,
                strict,
            );
            let ghost rest = run_values(root, depth, *parent, members@, (i + 1) as nat, ip, sp, strict);
            let ghost done = Outcome { errors: acc, fatal: None };
            assert(run_values(root, depth, *parent, members@, i as nat, ip, sp, strict) == then(here, rest));
            self.push_instance_token(members[i].0.clone());
            let r = self.eval(sub, &members[i].1, None);
            if r.is_err() {
                proof {
                    lemma_accounted_then_err(before + acc, cap, here, r, self.reported(), rest);
                    assert(before + done.errors =~= before + acc);
                    lemma_accounted_then_ok(before, cap, done, before + acc, then(here, rest), r, self.reported());
                }
                return r;
            }
            self.pop_instance_token();
            proof {
                assert(self.ipath() =~= ip);
                let next = acc + here.errors;
                assert(before + next =~= (before + acc) + here.errors);
                assert(then(done, then(here, rest)).errors =~= then(
                    Outcome { errors: next, fatal: None },
                    rest,
                ).errors);
                acc = next;
            }
            i += 1;
        }
        proof {
            assert(total.errors =~= acc);
        }
        Ok(())
    }

    /// Evaluates the members of an object against a properties form: the
    /// required properties, the optional ones and, under strict instance
    /// semantics, the members that the form does not speak of.
    fn eval_properties(
        &mut self,
        parent: &Schema,
        required: &Vec<(String, Schema)>,
        optional: &Vec<(String, Schema)>,
        members: &Vec<(String, Json)>,
        parent_tag: Option<&String>,
    ) -> (r: Result<(), EvalError>)
        requires
            old(self).inv(),
            *parent.form matches Form::Properties(req, opt, _) && req == *required && opt
                == *optional,
        ensures
            final(self).same_setup(old(self)),
            accounted(
                old(self).reported(),
                old(self).cap(),
                then(
                    then(
                        run_members(
                            *old(self).root_schema,
                            old(self).depth_left(),
                            *parent,
                            true,
                            0,
                            members@,
                            old(self).ipath(),
                            old(self).spath().push("properties"@),
                            old(self).strict_instance_semantics,
                        ),
                        run_members(
                            *old(self).root_schema,
                            old(self).depth_left(),
                            *parent,
                            false,
                            0,
                            members@,
                            old(self).ipath(),
                            old(self).spath().push("optionalProperties"@),
                            old(self).strict_instance_semantics,
                        ),
                    ),
                    if old(self).strict_instance_semantics {
                        undeclared(
                            required@,
                            optional@,
                            name_view(parent_tag),
                            members@,
                            0,
                            old(self).ipath(),
                            old(self).spath(),
                        )
                    } else {
                        clean()
                    },
                ),
                r,
                final(self).reported(),
            ),
            r.is_ok() ==> final(self).inv() && final(self).same_place(old(self)),
        decreases old(self).depth_left(), parent, 0nat, 1nat,
    {
        let ghost root = *self.root_schema;
        let ghost depth = self.depth_left();
        let ghost ip = self.ipath();
        let ghost sp = self.spath();
        let ghost strict = self.strict_instance_semantics;
        let ghost cap = self.cap();
        let ghost before = self.reported();
        let ghost first = run_members(root, depth, *parent, true, 0, members@, ip, sp.push("properties"@), strict);
        let ghost second = run_members(
            root,
            depth,
            *parent,
            false,
            0,
            members@,
            ip,
            sp.push("optionalProperties"@),
            strict,
        );
        let ghost third = if strict {
            undeclared(required@, optional@, name_view(parent_tag), members@, 0, ip, sp)
        } else {
            clean()
        };

        self.push_schema_token("properties".to_owned());
        let r1 = self.eval_members(parent, true, required, members);
        if r1.is_err() {
            proof {
                lemma_accounted_then_err(before, cap, first, r1, self.reported(), second);
                lemma_accounted_then_err(before, cap, then(first, second), r1, self.reported(), third);
            }
            return r1;
        }
        self.pop_schema_token();
        assert(self.spath() =~= sp);
        let ghost middle = self.reported();

        self.push_schema_token("optionalProperties".to_owned());
        let r2 = self.eval_members(parent, false, optional, members);
        proof {
            lemma_accounted_then_ok(before, cap, first, middle, second, r2, self.reported());
        }
        if r2.is_err() {
            proof {
                lemma_accounted_then_err(before, cap, then(first, second), r2, self.reported(), third);
            }
            return r2;
        }
        self.pop_schema_token();
        assert(self.spath() =~= sp);
        let ghost late = self.reported();

        if self.strict_instance_semantics {
            let r3 = self.report_undeclared(required, optional, parent_tag, members);
            proof {
                lemma_accounted_then_ok(before, cap, then(first, second), late, third, r3, self.reported());
            }
            r3
        } else {
            proof {
                assert(late + third.errors =~= late);
                lemma_accounted_then_ok(before, cap, then(first, second), late, third, Ok(()), late);
            }
            Ok(())
        }
    }

    /// Evaluates the members of an object against the required (or the
    /// optional) properties of `parent`.
    fn eval_members(
        &mut self,
        parent: &Schema,
        required: bool,
        properties: &Vec<(String, Schema)>,
        members: &Vec<(String, Json)>,
    ) -> (r: Result<(), EvalError>)
        requires
            old(self).inv(),
            *parent.form matches Form::Properties(req, opt, _) && *properties == (if required {
                req
            } else {
                opt
            }),
        ensures
            final(self).same_setup(old(self)),
            accounted(
                old(self).reported(),
                old(self).cap(),
                run_members(
                    *old(self).root_schema,
                    old(self).depth_left(),
                    *parent,
                    required,
                    0,
                    members@,
                    old(self).ipath(),
                    old(self).spath(),
                    old(self).strict_instance_semantics,
                ),
                r,
                final(self).reported(),
            ),
            r.is_ok() ==> final(self).inv() && final(self).same_place(old(self)),
        decreases old(self).depth_left(), parent, 0nat, 0nat,
    {
        let ghost root = *self.root_schema;
        let ghost depth = self.depth_left();
        let ghost ip = self.ipath();
        let ghost sp = self.spath();
        let ghost strict = self.strict_instance_semantics;
        let ghost cap = self.cap();
        let ghost before = self.reported();
        let ghost total = run_members(root, depth, *parent, required, 0, members@, ip, sp, strict);
        let ghost mut acc: Seq<ErrorAt> = Seq::empty();
        assert(before + acc =~= before);
        assert(then(Outcome { errors: acc, fatal: None }, total).errors =~= total.errors);
        assert(properties@ == properties_of(*parent, required));
        let mut i: usize = 0;
        while i < properties.len()
            invariant
                i <= properties.len(),
                *parent.form matches Form::Properties(req, opt, _) && *properties == (if required {
                    req
                } else {
                    opt
                }),
                properties@ == properties_of(*parent, required),
                self.inv(),
                self.same_setup(old(self)),
                self.same_place(old(self)),
                root == *old(self).root_schema,
                depth == old(self).depth_left(),
                ip == old(self).ipath(),
                sp == old(self).spath(),
                strict == old(self).strict_instance_semantics,
                cap == old(self).cap(),
                before == old(self).reported(),
                self.reported() == before + acc,
                total == run_members(root, depth, *parent, required, 0, members@, ip, sp, strict),
                total == then(
                    Outcome { errors: acc, fatal: None },
                    run_members(root, depth, *parent, required, i as nat, members@, ip, sp, strict),
                ),
            decreases properties.len() - i,
        {
            let name = &properties[i].0;
            let ghost here = match position(members@, name@) {
                Some(p) => run(
                    root,
                    depth,
                    properties@[i as int].1,
                    members@[p].1,
                    None,
                    ip.push(name@),
                    sp.push(name@),
                    strict,
                ),
                None => if required {
                    one(ip, sp.push(name@))
                } else {
                    clean()
                },
            };
            let ghost rest = run_members(
                root,
                depth,
                *parent,
                required,
                (i + 1) as nat,
                members@,
                ip,
                sp,
                strict,
            );
            let ghost done = Outcome { errors: acc, fatal: None };
            assert(run_members(root, depth, *parent, required, i as nat, members@, ip, sp, strict) == then(
                here,
                rest,
            ));
            self.push_schema_token(name.clone());
            let r = match find_key(members, name) {
                Some(p) => {
                    self.push_instance_token(name.clone());
                    let inner = self.eval(&properties[i].1, &members[p].1, None);
                    if inner.is_ok() {
                        self.pop_instance_token();
                        assert(self.ipath() =~= ip);
                    }
                    inner
                },
                None => {
                    if required {
                        self.push_err()
                    } else {
                        assert(self.reported() + clean().errors =~= self.reported());
                        Ok(())
                    }
                },
            };
            if r.is_err() {
                proof {
                    lemma_accounted_then_err(before + acc, cap, here, r, self.reported(), rest);
                    assert(before + done.errors =~= before + acc);
                    lemma_accounted_then_ok(before, cap, done, before + acc, then(here, rest), r, self.reported());
                }
                return r;
            }
            self.pop_schema_token();
            proof {
                assert(self.spath() =~= sp);
                let next = acc + here.errors;
                assert(before + next =~= (before + acc) + here.errors);
                assert(then(done, then(here, rest)).errors =~= then(
                    Outcome { errors: next, fatal: None },
                    rest,
                ).errors);
                acc = next;
            }
            i += 1;
        }
        proof {
            assert(total.errors =~= acc);
        }
        Ok(())
    }

    /// Records an error for each member of an object that a properties form
    /// does not speak of.
    fn report_undeclared(
        &mut self,
        required: &Vec<(String, Schema)>,
        optional: &Vec<(String, Schema)>,
        parent_tag: Option<&String>,
        members: &Vec<(String, Json)>,
    ) -> (r: Result<(), EvalError>)
        requires
            old(self).inv(),
        ensures
            final(self).same_setup(old(self)),
            accounted(
                old(self).reported(),
                old(self).cap(),
                undeclared(
                    required@,
                    optional@,
                    name_view(parent_tag),
                    members@,
                    0,
                    old(self).ipath(),
                    old(self).spath(),
                ),
                r,
                final(self).reported(),
            ),
            r.is_ok() ==> final(self).inv() && final(self).same_place(old(self)),
    {
        let ghost ip = self.ipath();
        let ghost sp = self.spath();
        let ghost cap = self.cap();
        let ghost tag = name_view(parent_tag);
        let ghost before = self.reported();
        let ghost total = undeclared(required@, optional@, tag, members@, 0, ip, sp);
        let ghost mut acc: Seq<ErrorAt> = Seq::empty();
        assert(before + acc =~= before);
        assert(then(Outcome { errors: acc, fatal: None }, total).errors =~= total.errors);
        let mut i: usize = 0;
        while i < members.len()
            invariant
                i <= members.len(),
                self.inv(),
                self.same_setup(old(self)),
                self.same_place(old(self)),
                ip == old(self).ipath(),
                sp == old(self).spath(),
                cap == old(self).cap(),
                tag == name_view(parent_tag),
                before == old(self).reported(),
                self.reported() == before + acc,
                total == undeclared(required@, optional@, tag, members@, 0, ip, sp),
                total == then(
                    Outcome { errors: acc, fatal: None },
                    undeclared(required@, optional@, tag, members@, i as nat, ip, sp),
                ),
            decreases members.len() - i,
        {
            let name = &members[i].0;
            let ghost here = if is_undeclared(required@, optional@, tag, name@) {
                one(ip.push(name@), sp)
            } else {
                clean()
            };
            let ghost rest = undeclared(required@, optional@, tag, members@, (i + 1) as nat, ip, sp);
            let ghost done = Outcome { errors: acc, fatal: None };
            assert(undeclared(required@, optional@, tag, members@, i as nat, ip, sp) == then(here, rest));
            let parent_match = match parent_tag {
                Some(t) => *t == *name,
                None => false,
            };
            let r = if !parent_match && find_key(required, name).is_none() && find_key(
                optional,
                name,
            ).is_none() {
                self.report_at(name.clone())
            } else {
                assert(self.reported() + clean().errors =~= self.reported());
                Ok(())
            };
            if r.is_err() {
                proof {
                    lemma_accounted_then_err(before + acc, cap, here, r, self.reported(), rest);
                    assert(before + done.errors =~= before + acc);
                    lemma_accounted_then_ok(before, cap, done, before + acc, then(here, rest), r, self.reported());
                }
                return r;
            }
            proof {
                let next = acc + here.errors;
                assert(before + next =~= (before + acc) + here.errors);
                assert(then(done, then(here, rest)).errors =~= then(
                    Outcome { errors: next, fatal: None },
                    rest,
                ).errors);
                acc = next;
            }
            i += 1;
        }
        proof {
            assert(total.errors =~= acc);
        }
        Ok(())
    }
}

/// Validates `instance` against the root schema `schema`.
///
/// At most `max_failures` errors are collected, unless it is zero, and at
/// most `max_depth - 1` references are followed one inside the other. The
/// result is the list of errors, in the order in which they are met, or the
/// reason why evaluation could not go on: `MaxDepthExceeded`, or
/// `NoSuchDefinition` for a reference that names no definition of `schema`.
pub fn validate(
    max_failures: usize,
    max_depth: usize,
    strict_instance_semantics: bool,
    schema: &Schema,
    instance: &Json,
) -> (r: Result<Vec<ValidationError>, JslError>)
    ensures
        match r {
            Ok(errors) => validation(
                max_failures as nat,
                max_depth as nat,
                strict_instance_semantics,
                *schema,
                *instance,
            ) == Ok::<Seq<ErrorAt>, ErrorView>(errors_view(errors@)),
            Err(e) => validation(
                max_failures as nat,
                max_depth as nat,
                strict_instance_semantics,
                *schema,
                *instance,
            ) == Err::<Seq<ErrorAt>, ErrorView>(e@),
        },
        r matches Ok(errors) ==> max_failures > 0 ==> errors@.len() <= max_failures,
        r matches Ok(errors) ==> forall|k: int|
            0 <= k < errors@.len() ==> resolves(*instance, (#[trigger] errors@[k])@.instance_path)
                && well_named(*schema, errors@[k]@.schema_path),
        r matches Err(e) ==> e@ == ErrorView::MaxDepthExceeded || (e@ is NoSuchDefinition
            && !is_closed(schema@)),
{
    proof {
        lemma_paths_well_formed(
            max_failures as nat,
            max_depth as nat,
            strict_instance_semantics,
            *schema,
            *instance,
        );
        lemma_depth_safety(
            max_failures as nat,
            max_depth as nat,
            strict_instance_semantics,
            *schema,
            *instance,
        );
    }
    let mut frames: Vec<Vec<String>> = Vec::new();
    frames.push(Vec::new());
    let mut vm = Vm {
        max_failures,
        max_depth,
        strict_instance_semantics,
        root_schema: schema,
        instance_tokens: Vec::new(),
        schema_tokens: frames,
        errors: Vec::new(),
    };
    let ghost outcome = run(
        *schema,
        initial_depth(max_depth as nat),
        *schema,
        *instance,
        None,
        seq![],
        seq![],
        strict_instance_semantics,
    );
    assert(vm.ipath() =~= seq![]);
    assert(vm.spath() =~= seq![]);
    assert(vm.reported() =~= seq![]);
    let r = vm.eval(schema, instance, None);
    proof {
        assert(Seq::<ErrorAt>::empty() + outcome.errors =~= outcome.errors);
        assert(vm.reported().len() == vm.errors@.len());
        let seen = vm.reported();
        if r.is_ok() || r == Err::<(), EvalError>(EvalError::Internal) {
            assert(validation(
                max_failures as nat,
                max_depth as nat,
                strict_instance_semantics,
                *schema,
                *instance,
            ) == Ok::<Seq<ErrorAt>, ErrorView>(seen));
            assert forall|k: int| 0 <= k < vm.errors@.len() implies resolves(
                *instance,
                (#[trigger] vm.errors@[k])@.instance_path,
            ) && well_named(*schema, vm.errors@[k]@.schema_path) by {
                let listed = validation(
                    max_failures as nat,
                    max_depth as nat,
                    strict_instance_semantics,
                    *schema,
                    *instance,
                )->Ok_0;
                assert(listed == seen);
                assert(listed[k] == vm.errors@[k]@);
                assert(resolves(*instance, listed[k].instance_path));
            }
        }
    }
    match r {
        Ok(()) => Ok(vm.errors),
        Err(EvalError::Internal) => Ok(vm.errors),
        Err(EvalError::Actual(e)) => Err(e),
    }
}

} // verus!
