//! Schemas: the permissive form in which a schema arrives, the canonical form
//! that the evaluator reads, and the step from the first to the second.

use vstd::prelude::*;
use crate::errors::{ErrorView, JslError};
use crate::json::{clone_members, find_key, has_key, members_view, Json, JsonView};
use crate::text::{clone_option, clone_strings, name_view, option_view, strings_view};
use crate::uri::{absolute_url, parse_url};

verus! {

/// The values that the `type` keyword may ask for.
#[derive(Clone, Copy, Debug, PartialEq, Eq, Hash)]
pub enum Type {
    /// `true` or `false`.
    Boolean,
    /// Any JSON number.
    Number,
    /// Any JSON string.
    String,
    /// A string that holds an RFC 3339 date-time.
    Timestamp,
}

/// The form of a schema, with the data that belongs to it.
#[derive(Debug, PartialEq)]
pub enum Form {
    /// Accepts every instance.
    Empty,
    /// Stands for the definition of that name in the root schema.
    Ref(String),
    /// Accepts the instances of one primitive type.
    Type(Type),
    /// Accepts the strings listed.
    Enum(Vec<String>),
    /// Accepts arrays whose elements all satisfy the schema.
    Elements(Schema),
    /// Accepts objects by their members: the required ones, the optional
    /// ones, and whether the keyword `properties` was written at all.
    Properties(Vec<(String, Schema)>, Vec<(String, Schema)>, bool),
    /// Accepts objects whose member values all satisfy the schema.
    Values(Schema),
    /// Accepts objects by the schema that the value of their tag member
    /// selects.
    Discriminator(String, Vec<(String, Schema)>),
}

/// A schema in canonical form.
///
/// `defs` is present exactly on a root schema. `id`, where present, is the
/// absolute URI under which a root schema is known. `extra` keeps the
/// members that are no keyword, as they were written.
#[derive(Debug, PartialEq)]
pub struct Schema {
    pub id: Option<String>,
    pub defs: Option<Vec<(String, Schema)>>,
    pub form: Box<Form>,
    pub extra: Vec<(String, Json)>,
}

impl Schema {
    /// Whether this is a root schema.
    pub fn is_root(&self) -> (r: bool)
        ensures
            r == self.defs.is_some(),
    {
        self.defs.is_some()
    }

    /// The definitions of a root schema; `None` on any other schema.
    pub fn definitions(&self) -> (r: &Option<Vec<(String, Schema)>>)
        ensures
            *r == self.defs,
    {
        &self.defs
    }

    /// The form of the schema.
    pub fn form(&self) -> (r: &Form)
        ensures
            *r == *self.form,
    {
        &self.form
    }
}

/// The mathematical value of a [`Form`]: strings as character sequences,
/// lists as sequences.
pub enum FormView {
    Empty,
    Ref(Seq<char>),
    Type(Type),
    Enum(Seq<Seq<char>>),
    Elements(SchemaView),
    Properties(Seq<(Seq<char>, SchemaView)>, Seq<(Seq<char>, SchemaView)>, bool),
    Values(SchemaView),
    Discriminator(Seq<char>, Seq<(Seq<char>, SchemaView)>),
}

/// The mathematical value of a [`Schema`].
pub struct SchemaView {
    pub id: Option<Seq<char>>,
    pub defs: Option<Seq<(Seq<char>, SchemaView)>>,
    pub form: Box<FormView>,
    pub extra: Seq<(Seq<char>, JsonView)>,
}

/// The value of a schema.
pub open spec fn schema_view(schema: Schema) -> SchemaView
    decreases schema,
{
    SchemaView {
        id: option_view(schema.id),
        defs: match schema.defs {
            Some(defs) => Some(entries_view(defs)),
            None => None,
        },
        form: Box::new(form_view(*schema.form)),
        extra: members_view(schema.extra),
    }
}

/// The value of a list of named schemas.
pub open spec fn entries_view(entries: Vec<(String, Schema)>) -> Seq<(Seq<char>, SchemaView)>
    decreases entries,
{
    Seq::new(
        entries@.len(),
        |i: int|
            if 0 <= i < entries@.len() {
                (entries[i].0@, schema_view(entries[i].1))
            } else {
                arbitrary()
            },
    )
}

/// The value of a form.
pub open spec fn form_view(form: Form) -> FormView
    decreases form,
{
    match form {
        Form::Empty => FormView::Empty,
        Form::Ref(name) => FormView::Ref(name@),
        Form::Type(t) => FormView::Type(t),
        Form::Enum(values) => FormView::Enum(strings_view(values@)),
        Form::Elements(sub) => FormView::Elements(schema_view(sub)),
        Form::Properties(required, optional, has_required) => FormView::Properties(
            entries_view(required),
            entries_view(optional),
            has_required,
        ),
        Form::Values(sub) => FormView::Values(schema_view(sub)),
        Form::Discriminator(tag, mapping) => FormView::Discriminator(tag@, entries_view(mapping)),
    }
}

impl View for Schema {
    type V = SchemaView;

    open spec fn view(&self) -> SchemaView {
        schema_view(*self)
    }
}

impl View for Form {
    type V = FormView;

    open spec fn view(&self) -> FormView {
        form_view(*self)
    }
}

impl Clone for Schema {
    /// A copy with the same value.
    fn clone(&self) -> (copy: Schema)
        ensures
            copy@ == self@,
        decreases self,
    {
        Schema {
            id: clone_option(&self.id),
            defs: match &self.defs {
                Some(defs) => Some(clone_entries(defs)),
                None => None,
            },
            form: Box::new(clone_form(&self.form)),
            extra: clone_members(&self.extra),
        }
    }
}

impl Clone for Form {
    /// A copy with the same value.
    fn clone(&self) -> (copy: Form)
        ensures
            copy@ == self@,
    {
        clone_form(self)
    }
}

/// A copy of a form.
pub fn clone_form(form: &Form) -> (copy: Form)
    ensures
        form_view(copy) == form_view(*form),
    decreases form,
{
    match form {
        Form::Empty => Form::Empty,
        Form::Ref(name) => Form::Ref(name.clone()),
        Form::Type(t) => Form::Type(*t),
        Form::Enum(values) => Form::Enum(clone_strings(values)),
        Form::Elements(sub) => Form::Elements(sub.clone()),
        Form::Properties(required, optional, has_required) => Form::Properties(
            clone_entries(required),
            clone_entries(optional),
            *has_required,
        ),
        Form::Values(sub) => Form::Values(sub.clone()),
        Form::Discriminator(tag, mapping) => Form::Discriminator(tag.clone(), clone_entries(mapping)),
    }
}

/// A copy of a list of named schemas.
pub fn clone_entries(entries: &Vec<(String, Schema)>) -> (copy: Vec<(String, Schema)>)
    ensures
        entries_view(copy) == entries_view(*entries),
    decreases entries,
{
    let mut copy: Vec<(String, Schema)> = Vec::new();
    let mut i: usize = 0;
    while i < entries.len()
        invariant
            i <= entries.len(),
            copy@.len() == i,
            forall|j: int|
                0 <= j < i ==> (#[trigger] copy@[j]).0@ == entries@[j].0@ && schema_view(copy@[j].1)
                    == schema_view(entries@[j].1),
        decreases entries.len() - i,
    {
        copy.push((entries[i].0.clone(), entries[i].1.clone()));
        i += 1;
    }
    assert(entries_view(copy) =~= entries_view(*entries));
    copy
}

/// A schema as it is written: every keyword may be present or absent, and
/// nothing is checked.
#[derive(Debug, PartialEq)]
pub struct Serde {
    pub id: Option<String>,
    pub defs: Option<Vec<(String, Serde)>>,
    pub rxf: Option<String>,
    pub typ: Option<String>,
    pub enm: Option<Vec<String>>,
    pub elems: Option<Box<Serde>>,
    pub props: Option<Vec<(String, Serde)>>,
    pub opt_props: Option<Vec<(String, Serde)>>,
    pub values: Option<Box<Serde>>,
    pub discriminator: Option<SerdeDiscriminator>,
    pub extra: Vec<(String, Json)>,
}

/// The `discriminator` keyword as it is written.
#[derive(Debug, PartialEq)]
pub struct SerdeDiscriminator {
    pub tag: String,
    pub mapping: Vec<(String, Serde)>,
}

/// The mathematical value of a [`Serde`].
pub struct SerdeView {
    pub id: Option<Seq<char>>,
    pub defs: Option<Seq<(Seq<char>, SerdeView)>>,
    pub rxf: Option<Seq<char>>,
    pub typ: Option<Seq<char>>,
    pub enm: Option<Seq<Seq<char>>>,
    pub elems: Option<Box<SerdeView>>,
    pub props: Option<Seq<(Seq<char>, SerdeView)>>,
    pub opt_props: Option<Seq<(Seq<char>, SerdeView)>>,
    pub values: Option<Box<SerdeView>>,
    pub discriminator: Option<DiscriminatorView>,
    pub extra: Seq<(Seq<char>, JsonView)>,
}

/// The mathematical value of a [`SerdeDiscriminator`].
pub struct DiscriminatorView {
    pub tag: Seq<char>,
    pub mapping: Seq<(Seq<char>, SerdeView)>,
}

/// The value of a schema as it is written.
pub open spec fn serde_view(serde: Serde) -> SerdeView
    decreases serde,
{
    SerdeView {
        id: option_view(serde.id),
        defs: serde_entries_option_view(serde.defs),
        rxf: option_view(serde.rxf),
        typ: option_view(serde.typ),
        enm: match serde.enm {
            Some(values) => Some(strings_view(values@)),
            None => None,
        },
        elems: match serde.elems {
            Some(sub) => Some(Box::new(serde_view(*sub))),
            None => None,
        },
        props: serde_entries_option_view(serde.props),
        opt_props: serde_entries_option_view(serde.opt_props),
        values: match serde.values {
            Some(sub) => Some(Box::new(serde_view(*sub))),
            None => None,
        },
        discriminator: match serde.discriminator {
            Some(d) => Some(DiscriminatorView { tag: d.tag@, mapping: serde_entries_view(d.mapping) }),
            None => None,
        },
        extra: members_view(serde.extra),
    }
}

/// The value of a list of named schemas as they are written, where there
/// is one.
pub open spec fn serde_entries_option_view(entries: Option<Vec<(String, Serde)>>) -> Option<
    Seq<(Seq<char>, SerdeView)>,
>
    decreases entries,
{
    match entries {
        Some(list) => Some(serde_entries_view(list)),
        None => None,
    }
}

/// The value of a list of named schemas as they are written.
pub open spec fn serde_entries_view(entries: Vec<(String, Serde)>) -> Seq<(Seq<char>, SerdeView)>
    decreases entries,
{
    Seq::new(
        entries@.len(),
        |i: int|
            if 0 <= i < entries@.len() {
                (entries[i].0@, serde_view(entries[i].1))
            } else {
                arbitrary()
            },
    )
}

impl View for Serde {
    type V = SerdeView;

    open spec fn view(&self) -> SerdeView {
        serde_view(*self)
    }
}

impl View for SerdeDiscriminator {
    type V = DiscriminatorView;

    open spec fn view(&self) -> DiscriminatorView {
        DiscriminatorView { tag: self.tag@, mapping: serde_entries_view(self.mapping) }
    }
}

impl Clone for Serde {
    /// A copy with the same value.
    fn clone(&self) -> (copy: Serde)
        ensures
            copy@ == self@,
        decreases self,
    {
        Serde {
            id: clone_option(&self.id),
            defs: clone_serde_entries_option(&self.defs),
            rxf: clone_option(&self.rxf),
            typ: clone_option(&self.typ),
            enm: match &self.enm {
                Some(values) => Some(clone_strings(values)),
                None => None,
            },
            elems: match &self.elems {
                Some(sub) => Some(Box::new((**sub).clone())),
                None => None,
            },
            props: clone_serde_entries_option(&self.props),
            opt_props: clone_serde_entries_option(&self.opt_props),
            values: match &self.values {
                Some(sub) => Some(Box::new((**sub).clone())),
                None => None,
            },
            discriminator: match &self.discriminator {
                Some(d) => Some(
                    SerdeDiscriminator { tag: d.tag.clone(), mapping: clone_serde_entries(&d.mapping) },
                ),
                None => None,
            },
            extra: clone_members(&self.extra),
        }
    }
}

impl Clone for SerdeDiscriminator {
    /// A copy with the same value.
    fn clone(&self) -> (copy: SerdeDiscriminator)
        ensures
            copy@ == self@,
    {
        SerdeDiscriminator { tag: self.tag.clone(), mapping: clone_serde_entries(&self.mapping) }
    }
}

/// A copy of a list of named schemas as they are written, where there is
/// one.
pub fn clone_serde_entries_option(entries: &Option<Vec<(String, Serde)>>) -> (copy: Option<
    Vec<(String, Serde)>,
>)
    ensures
        serde_entries_option_view(copy) == serde_entries_option_view(*entries),
    decreases entries,
{
    match entries {
        Some(list) => Some(clone_serde_entries(list)),
        None => None,
    }
}

/// A copy of a list of named schemas as they are written.
pub fn clone_serde_entries(entries: &Vec<(String, Serde)>) -> (copy: Vec<(String, Serde)>)
    ensures
        serde_entries_view(copy) == serde_entries_view(*entries),
    decreases entries,
{
    let mut copy: Vec<(String, Serde)> = Vec::new();
    let mut i: usize = 0;
    while i < entries.len()
        invariant
            i <= entries.len(),
            copy@.len() == i,
            forall|j: int|
                0 <= j < i ==> (#[trigger] copy@[j]).0@ == entries@[j].0@ && serde_view(copy@[j].1)
                    == serde_view(entries@[j].1),
        decreases entries.len() - i,
    {
        copy.push((entries[i].0.clone(), entries[i].1.clone()));
        i += 1;
    }
    assert(serde_entries_view(copy) =~= serde_entries_view(*entries));
    copy
}

impl Default for Serde {
    /// The schema with no keyword at all.
    fn default() -> (s: Serde)
        ensures
            s.id.is_none(),
            s.defs.is_none(),
            s.rxf.is_none(),
            s.typ.is_none(),
            s.enm.is_none(),
            s.elems.is_none(),
            s.props.is_none(),
            s.opt_props.is_none(),
            s.values.is_none(),
            s.discriminator.is_none(),
            s.extra@.len() == 0,
    {
        Serde {
            id: None,
            defs: None,
            rxf: None,
            typ: None,
            enm: None,
            elems: None,
            props: None,
            opt_props: None,
            values: None,
            discriminator: None,
            extra: Vec::new(),
        }
    }
}

impl Default for SerdeDiscriminator {
    /// An empty tag and an empty mapping.
    fn default() -> (d: SerdeDiscriminator)
        ensures
            d.tag@.len() == 0,
            d.mapping@.len() == 0,
    {
        SerdeDiscriminator { tag: String::new(), mapping: Vec::new() }
    }
}

/// One if the keyword is present, zero if not.
pub open spec fn present(keyword: bool) -> nat {
    if keyword {
        1
    } else {
        0
    }
}

/// The number of forms that the keywords of a schema ask for. `properties`
/// and `optionalProperties` ask for the same one.
pub open spec fn group_count(serde: Serde) -> nat {
    present(serde.rxf.is_some()) + present(serde.typ.is_some()) + present(serde.enm.is_some())
        + present(serde.elems.is_some()) + present(
        serde.props.is_some() || serde.opt_props.is_some(),
    ) + present(serde.values.is_some()) + present(serde.discriminator.is_some())
}

/// The primitive type of that name.
pub open spec fn type_named(name: Seq<char>) -> Option<Type> {
    if name == "boolean"@ {
        Some(Type::Boolean)
    } else if name == "number"@ {
        Some(Type::Number)
    } else if name == "string"@ {
        Some(Type::String)
    } else if name == "timestamp"@ {
        Some(Type::Timestamp)
    } else {
        None
    }
}

/// No string occurs twice.
pub open spec fn distinct(values: Seq<Seq<char>>) -> bool {
    forall|i: int, j: int| 0 <= i < j < values.len() ==> values[i] != values[j]
}

/// Some entry has that name.
pub open spec fn has_name(entries: Seq<(Seq<char>, SchemaView)>, name: Seq<char>) -> bool {
    exists|i: int| 0 <= i < entries.len() && (#[trigger] entries[i]).0 == name
}

/// The schema that is no root, with the given form.
pub open spec fn plain(form: FormView, extra: Seq<(Seq<char>, JsonView)>) -> SchemaView {
    SchemaView { id: None, defs: None, form: Box::new(form), extra }
}

/// The canonical form of a schema that is no root, or why it has none.
///
/// Keywords that ask for more than one form are rejected first. An unknown
/// type name and an empty or repeating `enum` are rejected. What is inside
/// `definitions` and `id` is not read here.
pub open spec fn canonical(serde: Serde) -> Result<SchemaView, ErrorView>
    decreases serde,
{
    if group_count(serde) > 1 {
        Err(ErrorView::InvalidForm)
    } else if let Some(name) = serde.rxf {
        Ok(plain(FormView::Ref(name@), members_view(serde.extra)))
    } else if let Some(name) = serde.typ {
        match type_named(name@) {
            Some(t) => Ok(plain(FormView::Type(t), members_view(serde.extra))),
            None => Err(ErrorView::InvalidForm),
        }
    } else if let Some(values) = serde.enm {
        if values@.len() == 0 || !distinct(strings_view(values@)) {
            Err(ErrorView::InvalidForm)
        } else {
            Ok(plain(FormView::Enum(strings_view(values@)), members_view(serde.extra)))
        }
    } else if let Some(sub) = serde.elems {
        match canonical(*sub) {
            Ok(s) => Ok(plain(FormView::Elements(s), members_view(serde.extra))),
            Err(e) => Err(e),
        }
    } else if serde.props.is_some() || serde.opt_props.is_some() {
        match canonical_entries_of(serde.props, seq![]) {
            Ok(required) => match canonical_entries_of(serde.opt_props, required) {
                Ok(optional) => Ok(
                    plain(
                        FormView::Properties(required, optional, serde.props.is_some()),
                        members_view(serde.extra),
                    ),
                ),
                Err(e) => Err(e),
            },
            Err(e) => Err(e),
        }
    } else if let Some(sub) = serde.values {
        match canonical(*sub) {
            Ok(s) => Ok(plain(FormView::Values(s), members_view(serde.extra))),
            Err(e) => Err(e),
        }
    } else if let Some(d) = serde.discriminator {
        match canonical_entries(d.mapping, 0, seq![], seq![], Some(d.tag@)) {
            Ok(mapping) => Ok(plain(FormView::Discriminator(d.tag@, mapping), members_view(serde.extra))),
            Err(e) => Err(e),
        }
    } else {
        Ok(plain(FormView::Empty, members_view(serde.extra)))
    }
}

/// The canonical form of a list of named schemas that may be absent; an
/// absent one is the empty list.
pub open spec fn canonical_entries_of(
    entries: Option<Vec<(String, Serde)>>,
    reserved: Seq<(Seq<char>, SchemaView)>,
) -> Result<Seq<(Seq<char>, SchemaView)>, ErrorView>
    decreases entries,
{
    match entries {
        Some(list) => canonical_entries(list, 0, seq![], reserved, None),
        None => Ok(seq![]),
    }
}

/// What a discriminator asks of the schema of one of its branches: that it
/// has the properties form, and that none of its properties is the tag.
pub open spec fn branch_error(branch: SchemaView, tag: Seq<char>) -> Option<ErrorView> {
    match *branch.form {
        FormView::Properties(required, optional, _) => if has_name(required, tag) || has_name(
            optional,
            tag,
        ) {
            Some(ErrorView::AmbiguousProperty { property: tag })
        } else {
            None
        },
        _ => Some(ErrorView::InvalidForm),
    }
}

/// The canonical form of the named schemas from position `from` on, added
/// in turn to `done`; or the first reason why one of them has none.
///
/// A name that is among `reserved` or was met before is rejected as
/// ambiguous. Where `tag` is given, the schemas are the branches of a
/// discriminator with that tag.
pub open spec fn canonical_entries(
    entries: Vec<(String, Serde)>,
    from: nat,
    done: Seq<(Seq<char>, SchemaView)>,
    reserved: Seq<(Seq<char>, SchemaView)>,
    tag: Option<Seq<char>>,
) -> Result<Seq<(Seq<char>, SchemaView)>, ErrorView>
    decreases entries, entries@.len() - from,
{
    if from >= entries@.len() {
        Ok(done)
    } else {
        let name = entries[from as int].0@;
        if has_name(reserved, name) || has_name(done, name) {
            Err(ErrorView::AmbiguousProperty { property: name })
        } else {
            match canonical(entries[from as int].1) {
                Err(e) => Err(e),
                Ok(s) => {
                    let problem = match tag {
                        Some(t) => branch_error(s, t),
                        None => None,
                    };
                    match problem {
                        Some(e) => Err(e),
                        None => canonical_entries(entries, from + 1, done.push((name, s)), reserved, tag),
                    }
                },
            }
        }
    }
}

/// The references that a schema makes, in the order in which its parts
/// are written: the names that its `ref` forms hold.
pub open spec fn refs_of(schema: SchemaView) -> Seq<Seq<char>>
    decreases schema,
{
    match *schema.form {
        FormView::Ref(name) => seq![name],
        FormView::Elements(sub) => refs_of(sub),
        FormView::Properties(required, optional, _) => refs_of_entries(required, 0)
            + refs_of_entries(optional, 0),
        FormView::Values(sub) => refs_of(sub),
        FormView::Discriminator(_, mapping) => refs_of_entries(mapping, 0),
        _ => seq![],
    }
}

/// The references that the named schemas from position `from` on make.
pub open spec fn refs_of_entries(entries: Seq<(Seq<char>, SchemaView)>, from: nat) -> Seq<
    Seq<char>,
>
    decreases entries, entries.len() - from,
{
    if from >= entries.len() {
        seq![]
    } else {
        refs_of(entries[from as int].1) + refs_of_entries(entries, from + 1)
    }
}

/// The definitions of a schema; none where it is no root.
pub open spec fn definitions_of(schema: SchemaView) -> Seq<(Seq<char>, SchemaView)> {
    match schema.defs {
        Some(defs) => defs,
        None => seq![],
    }
}

/// The references that a root schema and its definitions make.
pub open spec fn refs_of_root(root: SchemaView) -> Seq<Seq<char>> {
    refs_of(root) + refs_of_entries(definitions_of(root), 0)
}

/// The first of the references from position `from` on that names none of
/// the definitions.
pub open spec fn first_unknown(
    defs: Seq<(Seq<char>, SchemaView)>,
    refs: Seq<Seq<char>>,
    from: nat,
) -> Option<Seq<char>>
    decreases refs.len() - from,
{
    if from >= refs.len() {
        None
    } else if !has_name(defs, refs[from as int]) {
        Some(refs[from as int])
    } else {
        first_unknown(defs, refs, from + 1)
    }
}

/// Every reference that the root schema or one of its definitions makes
/// names a definition.
pub open spec fn is_closed(root: SchemaView) -> bool {
    first_unknown(definitions_of(root), refs_of_root(root), 0).is_none()
}

/// The identifier of a root schema: the text of the absolute URL that `id`
/// holds. An `id` that holds none is rejected.
pub open spec fn canonical_id(id: Option<String>) -> Result<Option<Seq<char>>, ErrorView> {
    match id {
        None => Ok(None),
        Some(text) => match absolute_url(text@) {
            Some(url) => Ok(Some(url)),
            None => Err(ErrorView::InvalidForm),
        },
    }
}

/// The canonical form of a root schema, or why it has none.
///
/// The identifier is read first, then the definitions in their order, then
/// the schema itself. In a schema without identifier every reference must
/// name a definition; in one with an identifier a reference that names none
/// stands for another document.
pub open spec fn canonical_root(serde: Serde) -> Result<SchemaView, ErrorView> {
    match canonical_id(serde.id) {
        Err(e) => Err(e),
        Ok(id) => match canonical_entries_of(serde.defs, seq![]) {
            Err(e) => Err(e),
            Ok(defs) => match canonical(serde) {
                Err(e) => Err(e),
                Ok(body) => {
                    let root = SchemaView { id, defs: Some(defs), form: body.form, extra: body.extra };
                    if id.is_some() {
                        Ok(root)
                    } else {
                        match first_unknown(defs, refs_of_root(root), 0) {
                            Some(name) => Err(ErrorView::NoSuchDefinition { definition: name }),
                            None => Ok(root),
                        }
                    }
                },
            },
        },
    }
}

/// The primitive type of that name, if it names one.
pub fn parse_type(name: &String) -> (t: Option<Type>)
    ensures
        t == type_named(name@),
{
    if *name == "boolean".to_owned() {
        Some(Type::Boolean)
    } else if *name == "number".to_owned() {
        Some(Type::Number)
    } else if *name == "string".to_owned() {
        Some(Type::String)
    } else if *name == "timestamp".to_owned() {
        Some(Type::Timestamp)
    } else {
        None
    }
}

/// Whether no string occurs twice in the list.
pub fn all_distinct(values: &Vec<String>) -> (ok: bool)
    ensures
        ok == distinct(strings_view(values@)),
{
    let ghost texts = strings_view(values@);
    let mut j: usize = 0;
    while j < values.len()
        invariant
            j <= values.len(),
            texts == strings_view(values@),
            forall|a: int, b: int| 0 <= a < b < j ==> texts[a] != texts[b],
        decreases values.len() - j,
    {
        let mut i: usize = 0;
        while i < j
            invariant
                i <= j,
                j < values.len(),
                texts == strings_view(values@),
                forall|a: int| 0 <= a < i ==> texts[a] != texts[j as int],
            decreases j - i,
        {
            if values[i] == values[j] {
                assert(texts[i as int] == texts[j as int]);
                return false;
            }
            i += 1;
        }
        j += 1;
    }
    true
}

/// Whether some entry of the list has that name.
pub fn name_taken(entries: &Vec<(String, Schema)>, name: &String) -> (taken: bool)
    ensures
        taken == has_name(entries_view(*entries), name@),
{
    let found = find_key(entries, name);
    proof {
        let view = entries_view(*entries);
        if has_key(entries@, name@) {
            let i = choose|i: int| 0 <= i < entries@.len() && (#[trigger] entries@[i]).0@ == name@;
            assert(view[i].0 == name@);
        }
        if has_name(view, name@) {
            let i = choose|i: int| 0 <= i < view.len() && (#[trigger] view[i]).0 == name@;
            assert(entries@[i].0@ == name@);
        }
    }
    found.is_some()
}

impl Schema {
    /// The canonical form of a schema that is no root.
    fn _from_serde(serde: Serde) -> (r: Result<Schema, JslError>)
        ensures
            match r {
                Ok(s) => canonical(serde) == Ok::<SchemaView, ErrorView>(s@),
                Err(e) => canonical(serde) == Err::<SchemaView, ErrorView>(e@),
            },
        decreases serde,
    {
        let Serde {
            id: _,
            defs: _,
            rxf,
            typ,
            enm,
            elems,
            props,
            opt_props,
            values,
            discriminator,
            extra,
        } = serde;
        let mut groups: u8 = 0;
        if rxf.is_some() {
            groups += 1;
        }
        if typ.is_some() {
            groups += 1;
        }
        if enm.is_some() {
            groups += 1;
        }
        if elems.is_some() {
            groups += 1;
        }
        if props.is_some() || opt_props.is_some() {
            groups += 1;
        }
        if values.is_some() {
            groups += 1;
        }
        if discriminator.is_some() {
            groups += 1;
        }
        assert(groups == group_count(serde));
        proof {
            reveal_with_fuel(canonical, 2);
            reveal_with_fuel(canonical_entries_of, 2);
            reveal_with_fuel(schema_view, 2);
            reveal_with_fuel(form_view, 2);
        }
        if groups > 1 {
            return Err(JslError::InvalidForm);
        }
        let form = if let Some(name) = rxf {
            Form::Ref(name)
        } else if let Some(name) = typ {
            match parse_type(&name) {
                Some(t) => Form::Type(t),
                None => {
                    return Err(JslError::InvalidForm);
                },
            }
        } else if let Some(listed) = enm {
            if listed.len() == 0 || !all_distinct(&listed) {
                return Err(JslError::InvalidForm);
            }
            Form::Enum(listed)
        } else if let Some(sub) = elems {
            Form::Elements(Self::_from_serde(*sub)?)
        } else if props.is_some() || opt_props.is_some() {
            let has_required = props.is_some();
            let none: Vec<(String, Schema)> = Vec::new();
            assert(entries_view(none) =~= seq![]);
            let required = match props {
                Some(list) => Self::canon_entries(list, &none, None)?,
                None => Vec::new(),
            };
            assert(props.is_none() ==> entries_view(required) =~= seq![]);
            let optional = match opt_props {
                Some(list) => Self::canon_entries(list, &required, None)?,
                None => Vec::new(),
            };
            assert(opt_props.is_none() ==> entries_view(optional) =~= seq![]);
            Form::Properties(required, optional, has_required)
        } else if let Some(sub) = values {
            Form::Values(Self::_from_serde(*sub)?)
        } else if let Some(d) = discriminator {
            let SerdeDiscriminator { tag, mapping } = d;
            let none: Vec<(String, Schema)> = Vec::new();
            assert(entries_view(none) =~= seq![]);
            let branches = Self::canon_entries(mapping, &none, Some(&tag))?;
            Form::Discriminator(tag, branches)
        } else {
            Form::Empty
        };
        Ok(Schema { id: None, defs: None, form: Box::new(form), extra })
    }

    /// The canonical forms of a list of named schemas, in their order.
    fn canon_entries(
        entries: Vec<(String, Serde)>,
        reserved: &Vec<(String, Schema)>,
        tag: Option<&String>,
    ) -> (r: Result<Vec<(String, Schema)>, JslError>)
        ensures
            match r {
                Ok(list) => canonical_entries(
                    entries,
                    0,
                    seq![],
                    entries_view(*reserved),
                    name_view(tag),
                ) == Ok::<Seq<(Seq<char>, SchemaView)>, ErrorView>(entries_view(list)),
                Err(e) => canonical_entries(
                    entries,
                    0,
                    seq![],
                    entries_view(*reserved),
                    name_view(tag),
                ) == Err::<Seq<(Seq<char>, SchemaView)>, ErrorView>(e@),
            },
        decreases entries,
    {
        let ghost whole = entries;
        let ghost taken = entries_view(*reserved);
        let ghost total = canonical_entries(whole, 0, seq![], taken, name_view(tag));
        let mut out: Vec<(String, Schema)> = Vec::new();
        assert(entries_view(out) =~= seq![]);
        for entry in it: entries
            invariant
                whole == entries,
                it.seq() == whole@,
                taken == entries_view(*reserved),
                total == canonical_entries(whole, 0, seq![], taken, name_view(tag)),
                total == canonical_entries(
                    whole,
                    it.index() as nat,
                    entries_view(out),
                    taken,
                    name_view(tag),
                ),
        {
            let ghost at = it.index();
            assert(whole[at] == entry);
            let (name, sub) = entry;
            if name_taken(reserved, &name) || name_taken(&out, &name) {
                return Err(JslError::AmbiguousProperty { property: name });
            }
            let schema = Self::_from_serde(sub)?;
            match tag {
                Some(t) => match &*schema.form {
                    Form::Properties(required, optional, _) => {
                        if name_taken(required, t) || name_taken(optional, t) {
                            return Err(JslError::AmbiguousProperty { property: t.clone() });
                        }
                    },
                    _ => {
                        return Err(JslError::InvalidForm);
                    },
                },
                None => {},
            }
            let ghost before = entries_view(out);
            let ghost added = (name@, schema@);
            out.push((name, schema));
            assert(entries_view(out) =~= before.push(added));
        }
        Ok(out)
    }
}

impl Schema {
    /// Adds the references that this schema makes to `out`, in the order
    /// in which its parts are written.
    pub fn collect_refs(&self, out: &mut Vec<String>)
        ensures
            strings_view(final(out)@) == strings_view(old(out)@) + refs_of(self@),
        decreases self,
    {
        proof {
            reveal_with_fuel(schema_view, 2);
            reveal_with_fuel(form_view, 2);
        }
        let ghost before = strings_view(out@);
        match &*self.form {
            Form::Ref(name) => {
                out.push(name.clone());
                assert(strings_view(out@) =~= before + seq![name@]);
            },
            Form::Elements(sub) => {
                sub.collect_refs(out);
            },
            Form::Properties(required, optional, _) => {
                Self::collect_refs_of_entries(required, out);
                let ghost middle = strings_view(out@);
                Self::collect_refs_of_entries(optional, out);
                assert(strings_view(out@) =~= before + (refs_of_entries(entries_view(*required), 0)
                    + refs_of_entries(entries_view(*optional), 0)));
            },
            Form::Values(sub) => {
                sub.collect_refs(out);
            },
            Form::Discriminator(_, mapping) => {
                Self::collect_refs_of_entries(mapping, out);
            },
            _ => {
                assert(strings_view(out@) =~= before + Seq::<Seq<char>>::empty());
            },
        }
    }

    /// Adds the references that the named schemas make to `out`.
    fn collect_refs_of_entries(entries: &Vec<(String, Schema)>, out: &mut Vec<String>)
        ensures
            strings_view(final(out)@) == strings_view(old(out)@) + refs_of_entries(
                entries_view(*entries),
                0,
            ),
        decreases entries,
    {
        let ghost before = strings_view(out@);
        let ghost view = entries_view(*entries);
        let mut i: usize = 0;
        assert(strings_view(out@) + refs_of_entries(view, 0) =~= before + refs_of_entries(view, 0));
        while i < entries.len()
            invariant
                i <= entries.len(),
                view == entries_view(*entries),
                view.len() == entries@.len(),
                strings_view(out@) + refs_of_entries(view, i as nat) == before + refs_of_entries(
                    view,
                    0,
                ),
            decreases entries.len() - i,
        {
            let ghost here = strings_view(out@);
            let ghost rest = refs_of_entries(view, (i + 1) as nat);
            assert(view[i as int].1 == entries[i as int].1@);
            entries[i].1.collect_refs(out);
            assert(strings_view(out@) + rest =~= here + (refs_of(view[i as int].1) + rest));
            i += 1;
        }
        assert(strings_view(out@) + refs_of_entries(view, i as nat) =~= strings_view(out@));
    }

    /// The references that this root schema and its definitions make.
    pub fn refs(&self) -> (refs: Vec<String>)
        ensures
            strings_view(refs@) == refs_of_root(self@),
    {
        let mut out: Vec<String> = Vec::new();
        assert(strings_view(out@) =~= seq![]);
        self.collect_refs(&mut out);
        assert(strings_view(out@) =~= refs_of(self@));
        match &self.defs {
            Some(defs) => {
                Self::collect_refs_of_entries(defs, &mut out);
            },
            None => {
                assert(refs_of_entries(definitions_of(self@), 0) =~= seq![]);
                assert(strings_view(out@) =~= refs_of_root(self@));
            },
        }
        out
    }

    /// Checks that each of the references names one of the definitions.
    pub fn check_refs(defs: &Vec<(String, Schema)>, refs: &Vec<String>) -> (r: Result<(), JslError>)
        ensures
            match r {
                Ok(()) => first_unknown(entries_view(*defs), strings_view(refs@), 0).is_none(),
                Err(e) => first_unknown(entries_view(*defs), strings_view(refs@), 0) matches Some(name)
                    && e@ == (ErrorView::NoSuchDefinition { definition: name }),
            },
    {
        let ghost names = entries_view(*defs);
        let ghost texts = strings_view(refs@);
        let mut i: usize = 0;
        while i < refs.len()
            invariant
                i <= refs.len(),
                names == entries_view(*defs),
                texts == strings_view(refs@),
                first_unknown(names, texts, 0) == first_unknown(names, texts, i as nat),
            decreases refs.len() - i,
        {
            if !name_taken(defs, &refs[i]) {
                return Err(JslError::NoSuchDefinition { definition: refs[i].clone() });
            }
            i += 1;
        }
        Ok(())
    }

    /// The canonical form of a root schema.
    ///
    /// The result is what [`canonical_root`] says: the schema in canonical
    /// form, or the first reason why it has none.
    pub fn from_serde(serde: Serde) -> (r: Result<Schema, JslError>)
        ensures
            canonicalizes(serde, r),
            r matches Ok(s) ==> well_formed_root(s@),
            group_count(serde) > 1 ==> r.is_err(),
    {
        proof {
            lemma_canonical_root_well_formed(serde);
        }
        let Serde {
            id,
            defs,
            rxf,
            typ,
            enm,
            elems,
            props,
            opt_props,
            values,
            discriminator,
            extra,
        } = serde;
        let id = match id {
            Some(text) => match parse_url(text.as_str()) {
                Some(url) => Some(url),
                None => {
                    return Err(JslError::InvalidForm);
                },
            },
            None => None,
        };
        let none: Vec<(String, Schema)> = Vec::new();
        assert(entries_view(none) =~= seq![]);
        let defs = match defs {
            Some(list) => Self::canon_entries(list, &none, None)?,
            None => Vec::new(),
        };
        assert(serde.defs.is_none() ==> entries_view(defs) =~= seq![]);
        let body = Serde {
            id: None,
            defs: None,
            rxf,
            typ,
            enm,
            elems,
            props,
            opt_props,
            values,
            discriminator,
            extra,
        };
        proof {
            reveal_with_fuel(canonical, 2);
            assert(group_count(body) == group_count(serde));
            assert(canonical(body) == canonical(serde));
        }
        let Schema { id: _, defs: _, form, extra } = Self::_from_serde(body)?;
        let schema = Schema { id, defs: Some(defs), form, extra };
        proof {
            reveal_with_fuel(schema_view, 2);
            assert(refs_of(schema@) == refs_of(canonical(serde)->Ok_0));
        }
        if schema.id.is_none() {
            let refs = schema.refs();
            match &schema.defs {
                Some(defs) => Self::check_refs(defs, &refs)?,
                None => {},
            }
        }
        Ok(schema)
    }
}

/// No name occurs twice among the named schemas.
pub open spec fn names_distinct(entries: Seq<(Seq<char>, SchemaView)>) -> bool {
    forall|i: int, j: int| 0 <= i < j < entries.len() ==> entries[i].0 != entries[j].0
}

/// None of the names occurs among the reserved ones.
pub open spec fn names_apart(
    entries: Seq<(Seq<char>, SchemaView)>,
    reserved: Seq<(Seq<char>, SchemaView)>,
) -> bool {
    forall|i: int| 0 <= i < entries.len() ==> !has_name(reserved, (#[trigger] entries[i]).0)
}

/// What holds of every schema in canonical form, at every depth: an
/// enumeration is not empty and lists no string twice; no property is named
/// twice, whether required or optional; the branches of a discriminator are
/// named once each, have the properties form, and have no property named
/// like the tag.
pub open spec fn well_formed(schema: SchemaView) -> bool
    decreases schema,
{
    match *schema.form {
        FormView::Enum(values) => values.len() > 0 && distinct(values),
        FormView::Elements(sub) => well_formed(sub),
        FormView::Values(sub) => well_formed(sub),
        FormView::Properties(required, optional, _) => {
            &&& names_distinct(required)
            &&& names_distinct(optional)
            &&& names_apart(optional, required)
            &&& forall|i: int| 0 <= i < required.len() ==> well_formed((#[trigger] required[i]).1)
            &&& forall|i: int| 0 <= i < optional.len() ==> well_formed((#[trigger] optional[i]).1)
        },
        FormView::Discriminator(tag, mapping) => {
            &&& names_distinct(mapping)
            &&& forall|i: int|
                0 <= i < mapping.len() ==> well_formed((#[trigger] mapping[i]).1) && branch_error(
                    mapping[i].1,
                    tag,
                ).is_none()
        },
        _ => true,
    }
}

/// What holds of every root schema in canonical form: it is well formed and
/// so are its definitions, which are named once each; and where it has no
/// identifier, every reference in it names one of its definitions.
pub open spec fn well_formed_root(root: SchemaView) -> bool {
    &&& root.defs.is_some()
    &&& well_formed(root)
    &&& names_distinct(definitions_of(root))
    &&& forall|i: int|
        0 <= i < definitions_of(root).len() ==> well_formed((#[trigger] definitions_of(root)[i]).1)
    &&& (root.id.is_none() ==> is_closed(root))
}

/// The named schemas are well formed, named once each and not like the
/// reserved ones; where a tag is given, they are branches that a
/// discriminator with that tag accepts.
pub open spec fn entries_well_formed(
    entries: Seq<(Seq<char>, SchemaView)>,
    reserved: Seq<(Seq<char>, SchemaView)>,
    tag: Option<Seq<char>>,
) -> bool {
    &&& names_distinct(entries)
    &&& names_apart(entries, reserved)
    &&& forall|i: int| 0 <= i < entries.len() ==> well_formed((#[trigger] entries[i]).1)
    &&& (tag matches Some(t) ==> forall|i: int|
        0 <= i < entries.len() ==> branch_error((#[trigger] entries[i]).1, t).is_none())
}

/// A schema that has a canonical form has a well-formed one, and one that
/// is no root.
pub proof fn lemma_canonical_well_formed(serde: Serde)
    ensures
        canonical(serde) matches Ok(s) ==> well_formed(s) && s.id.is_none() && s.defs.is_none(),
    decreases serde,
{
    reveal_with_fuel(canonical, 2);
    reveal_with_fuel(canonical_entries_of, 2);
    if group_count(serde) > 1 {
    } else if let Some(sub) = serde.elems {
        lemma_canonical_well_formed(*sub);
    } else if serde.props.is_some() || serde.opt_props.is_some() {
        let none = Seq::<(Seq<char>, SchemaView)>::empty();
        match serde.props {
            Some(list) => lemma_canonical_entries_well_formed(list, 0, none, none, None),
            None => {},
        }
        match canonical_entries_of(serde.props, none) {
            Ok(required) => match serde.opt_props {
                Some(list) => lemma_canonical_entries_well_formed(list, 0, none, required, None),
                None => {},
            },
            Err(_) => {},
        }
    } else if let Some(sub) = serde.values {
        lemma_canonical_well_formed(*sub);
    } else if let Some(d) = serde.discriminator {
        let none = Seq::<(Seq<char>, SchemaView)>::empty();
        lemma_canonical_entries_well_formed(d.mapping, 0, none, none, Some(d.tag@));
    }
}

/// Named schemas that have canonical forms have well-formed ones.
pub proof fn lemma_canonical_entries_well_formed(
    entries: Vec<(String, Serde)>,
    from: nat,
    done: Seq<(Seq<char>, SchemaView)>,
    reserved: Seq<(Seq<char>, SchemaView)>,
    tag: Option<Seq<char>>,
)
    requires
        entries_well_formed(done, reserved, tag),
    ensures
        canonical_entries(entries, from, done, reserved, tag) matches Ok(list)
            ==> entries_well_formed(list, reserved, tag),
    decreases entries, entries@.len() - from,
{
    if from < entries@.len() {
        let name = entries[from as int].0@;
        if !(has_name(reserved, name) || has_name(done, name)) {
            lemma_canonical_well_formed(entries[from as int].1);
            match canonical(entries[from as int].1) {
                Ok(s) => {
                    let problem = match tag {
                        Some(t) => branch_error(s, t),
                        None => None,
                    };
                    if problem.is_none() {
                        let next = done.push((name, s));
                        assert forall|i: int, j: int| 0 <= i < j < next.len() implies next[i].0
                            != next[j].0 by {
                            if j == done.len() {
                                assert(done[i].0 != name);
                            }
                        }
                        lemma_canonical_entries_well_formed(entries, from + 1, next, reserved, tag);
                    }
                },
                Err(_) => {},
            }
        }
    }
}

/// A root schema that has a canonical form has a well-formed one.
pub proof fn lemma_canonical_root_well_formed(serde: Serde)
    ensures
        canonical_root(serde) matches Ok(root) ==> well_formed_root(root),
{
    let none = Seq::<(Seq<char>, SchemaView)>::empty();
    match serde.defs {
        Some(list) => lemma_canonical_entries_well_formed(list, 0, none, none, None),
        None => {},
    }
    lemma_canonical_well_formed(serde);
}

/// The number of forms that a form is: each of the eight counts one if the
/// form is that one.
pub open spec fn forms_held(form: FormView) -> nat {
    present(form is Empty) + present(form is Ref) + present(form is Type) + present(form is Enum)
        + present(form is Elements) + present(form is Properties) + present(form is Values)
        + present(form is Discriminator)
}

/// A schema has exactly one of the eight forms.
pub proof fn lemma_one_form(schema: SchemaView)
    ensures
        forms_held(*schema.form) == 1,
{
}

/// A schema that has a canonical form asks for at most one form, and for
/// none exactly where its canonical form is the empty one.
pub proof fn lemma_form_of_keywords(serde: Serde)
    ensures
        canonical(serde) matches Ok(s) ==> group_count(serde) <= 1 && (group_count(serde) == 0
            <==> *s.form is Empty),
{
    reveal_with_fuel(canonical, 2);
    reveal_with_fuel(canonical_entries_of, 2);
}

/// Keywords that ask for more than one form are rejected: such a schema
/// has no canonical form, as a root or otherwise.
pub proof fn lemma_contradiction_rejected(serde: Serde)
    requires
        group_count(serde) > 1,
    ensures
        canonical(serde) == Err::<SchemaView, ErrorView>(ErrorView::InvalidForm),
        canonical_root(serde).is_err(),
{
}

/// Whether `r` is what canonicalizing `serde` as a root schema returns.
pub open spec fn canonicalizes(serde: Serde, r: Result<Schema, JslError>) -> bool {
    match r {
        Ok(s) => canonical_root(serde) == Ok::<SchemaView, ErrorView>(s@),
        Err(e) => canonical_root(serde) == Err::<SchemaView, ErrorView>(e@),
    }
}

/// The value of what canonicalizing returns.
pub open spec fn result_view(r: Result<Schema, JslError>) -> Result<SchemaView, ErrorView> {
    match r {
        Ok(s) => Ok(s@),
        Err(e) => Err(e@),
    }
}

/// The canonical form of a schema depends on its value alone.
pub proof fn lemma_canonical_by_value(a: Serde, b: Serde)
    requires
        a@ == b@,
    ensures
        canonical(a) == canonical(b),
    decreases a,
{
    reveal_with_fuel(serde_view, 2);
    reveal_with_fuel(serde_entries_option_view, 2);
    reveal_with_fuel(canonical, 2);
    reveal_with_fuel(canonical_entries_of, 2);
    let none = Seq::<(Seq<char>, SchemaView)>::empty();
    assert(group_count(a) == group_count(b));
    if group_count(a) > 1 {
    } else if a.rxf.is_some() {
    } else if a.typ.is_some() {
    } else if a.enm.is_some() {
        assert(strings_view(a.enm->Some_0@).len() == a.enm->Some_0@.len());
        assert(strings_view(b.enm->Some_0@).len() == b.enm->Some_0@.len());
    } else if let Some(sub) = a.elems {
        lemma_canonical_by_value(*sub, *b.elems->Some_0);
    } else if a.props.is_some() || a.opt_props.is_some() {
        match a.props {
            Some(list) => lemma_canonical_entries_by_value(list, b.props->Some_0, 0, none, none, None),
            None => {},
        }
        match canonical_entries_of(a.props, none) {
            Ok(required) => match a.opt_props {
                Some(list) => lemma_canonical_entries_by_value(
                    list,
                    b.opt_props->Some_0,
                    0,
                    none,
                    required,
                    None,
                ),
                None => {},
            },
            Err(_) => {},
        }
    } else if let Some(sub) = a.values {
        lemma_canonical_by_value(*sub, *b.values->Some_0);
    } else if let Some(d) = a.discriminator {
        let e = b.discriminator->Some_0;
        lemma_canonical_entries_by_value(d.mapping, e.mapping, 0, none, none, Some(d.tag@));
    }
}

/// The canonical forms of named schemas depend on their values alone.
pub proof fn lemma_canonical_entries_by_value(
    a: Vec<(String, Serde)>,
    b: Vec<(String, Serde)>,
    from: nat,
    done: Seq<(Seq<char>, SchemaView)>,
    reserved: Seq<(Seq<char>, SchemaView)>,
    tag: Option<Seq<char>>,
)
    requires
        serde_entries_view(a) == serde_entries_view(b),
    ensures
        canonical_entries(a, from, done, reserved, tag) == canonical_entries(
            b,
            from,
            done,
            reserved,
            tag,
        ),
    decreases a, a@.len() - from,
{
    let va = serde_entries_view(a);
    let vb = serde_entries_view(b);
    assert(va.len() == a@.len() && vb.len() == b@.len());
    if from < a@.len() {
        let i = from as int;
        assert(va[i] == (a[i].0@, serde_view(a[i].1)));
        assert(vb[i] == (b[i].0@, serde_view(b[i].1)));
        let name = a[i].0@;
        if !(has_name(reserved, name) || has_name(done, name)) {
            lemma_canonical_by_value(a[i].1, b[i].1);
            match canonical(a[i].1) {
                Ok(s) => {
                    let problem = match tag {
                        Some(t) => branch_error(s, t),
                        None => None,
                    };
                    if problem.is_none() {
                        lemma_canonical_entries_by_value(
                            a,
                            b,
                            from + 1,
                            done.push((name, s)),
                            reserved,
                            tag,
                        );
                    }
                },
                Err(_) => {},
            }
        }
    }
}

/// The canonical form of a root schema depends on its value alone.
pub proof fn lemma_canonical_root_by_value(a: Serde, b: Serde)
    requires
        a@ == b@,
    ensures
        canonical_root(a) == canonical_root(b),
{
    reveal_with_fuel(serde_view, 2);
    reveal_with_fuel(serde_entries_option_view, 2);
    let none = Seq::<(Seq<char>, SchemaView)>::empty();
    match a.defs {
        Some(list) => lemma_canonical_entries_by_value(list, b.defs->Some_0, 0, none, none, None),
        None => {},
    }
    lemma_canonical_by_value(a, b);
}

/// Canonicalizing is a function of the value: two results for schemas of
/// one value have the same value.
pub proof fn lemma_canonical_deterministic(
    one: Serde,
    other: Serde,
    first: Result<Schema, JslError>,
    second: Result<Schema, JslError>,
)
    requires
        one@ == other@,
        canonicalizes(one, first),
        canonicalizes(other, second),
    ensures
        result_view(first) == result_view(second),
{
    lemma_canonical_root_by_value(one, other);
}

} // verus!
