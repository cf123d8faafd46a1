//! What holds of every evaluation: where its errors point, and when it can
//! fail.

use vstd::prelude::*;
use crate::errors::ErrorView;
use crate::json::{has_key, is_first_at, lemma_position_has_key, position, Json};
use crate::pointer::decimal;
use crate::schema::{
    definitions_of, entries_view, first_unknown, form_view, has_name, is_closed, refs_of,
    refs_of_entries, refs_of_root, schema_view, Form, Schema, SchemaView,
};
use crate::validator::Path;
use crate::vm::{
    clean, definition, initial_depth, is_undeclared, one, properties_of, run, run_elements,
    run_members, run_values, then, undeclared, validation, Outcome,
};

verus! {

/// `value` is the member of the object `parent`, or the element of the
/// array `parent`, that `token` names.
pub open spec fn child(parent: Json, token: Seq<char>, value: Json) -> bool {
    match parent {
        Json::Object(members) => exists|p: int|
            0 <= p < members@.len() && (#[trigger] members@[p]).0@ == token && members@[p].1
                == value,
        Json::Array(items) => exists|i: int|
            0 <= i < items@.len() && decimal(i as nat) == token && (#[trigger] items@[i]) == value,
        _ => false,
    }
}

/// Following the tokens of `path` from `top`, one by one, can end at
/// `value`.
pub open spec fn leads(top: Json, path: Path, value: Json) -> bool
    decreases path.len(),
{
    if path.len() == 0 {
        top == value
    } else {
        exists|middle: Json|
            leads(top, path.drop_last(), middle) && #[trigger] child(middle, path.last(), value)
    }
}

/// The path leads from `top` to some value inside it.
pub open spec fn resolves(top: Json, path: Path) -> bool {
    exists|value: Json| #[trigger] leads(top, path, value)
}

/// The token is one of the keywords of the schema language.
pub open spec fn is_keyword(token: Seq<char>) -> bool {
    ||| token == "type"@
    ||| token == "enum"@
    ||| token == "elements"@
    ||| token == "properties"@
    ||| token == "optionalProperties"@
    ||| token == "values"@
    ||| token == "discriminator"@
    ||| token == "mapping"@
    ||| token == "tag"@
    ||| token == "definitions"@
}

/// The token is the name of a property or of a branch somewhere in the
/// schema.
pub open spec fn names_in(schema: Schema, token: Seq<char>) -> bool
    decreases schema,
{
    match *schema.form {
        Form::Elements(sub) => names_in(sub, token),
        Form::Values(sub) => names_in(sub, token),
        Form::Properties(required, optional, _) => named_among(required, token) || named_among(
            optional,
            token,
        ),
        Form::Discriminator(_, mapping) => named_among(mapping, token),
        _ => false,
    }
}

/// The token is the name of one of the schemas, or a name inside one.
pub open spec fn named_among(entries: Vec<(String, Schema)>, token: Seq<char>) -> bool
    decreases entries,
{
    exists|i: int|
        0 <= i < entries@.len() && ((#[trigger] entries[i]).0@ == token || names_in(
            entries[i].1,
            token,
        ))
}

/// The token is a name that the root schema holds: of a definition, a
/// property or a branch.
pub open spec fn known_name(root: Schema, token: Seq<char>) -> bool {
    names_in(root, token) || match root.defs {
        Some(defs) => named_among(defs, token),
        None => false,
    }
}

/// Every token of the path is a keyword or a name that the root schema
/// holds.
pub open spec fn well_named(root: Schema, path: Path) -> bool {
    forall|k: int| 0 <= k < path.len() ==> is_keyword(#[trigger] path[k]) || known_name(root, path[k])
}

/// Each of the references names one of the schemas.
pub open spec fn covered(names: Seq<(Seq<char>, SchemaView)>, refs: Seq<Seq<char>>) -> bool {
    forall|k: int| 0 <= k < refs.len() ==> has_name(names, #[trigger] refs[k])
}

/// What is known where evaluation stands: the instance path leads to the
/// instance, the schema path is well named, the names inside the schema are
/// names of the root schema, and, where the root schema is closed, the
/// references of the schema name definitions.
pub open spec fn placed(
    root: Schema,
    top: Json,
    schema: Schema,
    instance: Json,
    instance_path: Path,
    schema_path: Path,
) -> bool {
    &&& leads(top, instance_path, instance)
    &&& well_named(root, schema_path)
    &&& forall|t: Seq<char>| #[trigger] names_in(schema, t) ==> known_name(root, t)
    &&& (is_closed(root@) ==> covered(definitions_of(root@), refs_of(schema@)))
}

/// What holds of an outcome: every instance path leads into the instance,
/// every schema path is well named, and evaluation fails only because
/// references go too deep or, where the root schema is not closed, because
/// a reference names no definition.
pub open spec fn sound(root: Schema, top: Json, outcome: Outcome) -> bool {
    &&& forall|k: int|
        0 <= k < outcome.errors.len() ==> resolves(top, (#[trigger] outcome.errors[k]).instance_path)
            && well_named(root, outcome.errors[k].schema_path)
    &&& (outcome.fatal matches Some(e) ==> e == ErrorView::MaxDepthExceeded || (e is NoSuchDefinition
        && !is_closed(root@)))
}

proof fn lemma_sound_then(root: Schema, top: Json, a: Outcome, b: Outcome)
    requires
        sound(root, top, a),
        sound(root, top, b),
    ensures
        sound(root, top, then(a, b)),
{
    let c = then(a, b);
    if a.fatal.is_none() {
        assert forall|k: int| 0 <= k < c.errors.len() implies resolves(
            top,
            (#[trigger] c.errors[k]).instance_path,
        ) && well_named(root, c.errors[k].schema_path) by {
            if k < a.errors.len() {
                assert(c.errors[k] == a.errors[k]);
            } else {
                assert(c.errors[k] == b.errors[k - a.errors.len()]);
            }
        }
    }
}

proof fn lemma_well_named_push(root: Schema, path: Path, token: Seq<char>)
    requires
        well_named(root, path),
        is_keyword(token) || known_name(root, token),
    ensures
        well_named(root, path.push(token)),
{
    let longer = path.push(token);
    assert forall|k: int| 0 <= k < longer.len() implies is_keyword(#[trigger] longer[k]) || known_name(
        root,
        longer[k],
    ) by {
        if k < path.len() {
            assert(longer[k] == path[k]);
        }
    }
}

proof fn lemma_leads_push(top: Json, path: Path, middle: Json, token: Seq<char>, value: Json)
    requires
        leads(top, path, middle),
        child(middle, token, value),
    ensures
        leads(top, path.push(token), value),
        resolves(top, path.push(token)),
{
    let longer = path.push(token);
    assert(longer.drop_last() =~= path);
    assert(longer.last() == token);
    assert(leads(top, longer.drop_last(), middle));
    assert(child(middle, longer.last(), value));
    assert(leads(top, longer, value));
}

proof fn lemma_covered_split(names: Seq<(Seq<char>, SchemaView)>, a: Seq<Seq<char>>, b: Seq<Seq<char>>)
    requires
        covered(names, a + b),
    ensures
        covered(names, a),
        covered(names, b),
{
    let both = a + b;
    assert forall|k: int| 0 <= k < a.len() implies has_name(names, #[trigger] a[k]) by {
        assert(both[k] == a[k]);
    }
    assert forall|k: int| 0 <= k < b.len() implies has_name(names, #[trigger] b[k]) by {
        assert(both[k + a.len()] == b[k]);
    }
}

proof fn lemma_covered_entry(
    names: Seq<(Seq<char>, SchemaView)>,
    entries: Seq<(Seq<char>, SchemaView)>,
    from: nat,
    at: int,
)
    requires
        from <= at < entries.len(),
        covered(names, refs_of_entries(entries, from)),
    ensures
        covered(names, refs_of(entries[at].1)),
    decreases at - from,
{
    lemma_covered_split(names, refs_of(entries[from as int].1), refs_of_entries(entries, from + 1));
    if from < at {
        lemma_covered_entry(names, entries, from + 1, at);
    }
}

proof fn lemma_first_unknown_none(
    names: Seq<(Seq<char>, SchemaView)>,
    refs: Seq<Seq<char>>,
    from: nat,
)
    requires
        first_unknown(names, refs, from).is_none(),
    ensures
        forall|k: int| from <= k < refs.len() ==> has_name(names, #[trigger] refs[k]),
    decreases refs.len() - from,
{
    if from < refs.len() {
        lemma_first_unknown_none(names, refs, from + 1);
    }
}

/// In a closed root schema every reference names a definition: those of
/// the root schema itself and those of each definition.
proof fn lemma_closed_covers(root: Schema)
    requires
        is_closed(root@),
    ensures
        covered(definitions_of(root@), refs_of(root@)),
        covered(definitions_of(root@), refs_of_entries(definitions_of(root@), 0)),
{
    lemma_first_unknown_none(definitions_of(root@), refs_of_root(root@), 0);
    assert(covered(definitions_of(root@), refs_of_root(root@)));
    lemma_covered_split(
        definitions_of(root@),
        refs_of(root@),
        refs_of_entries(definitions_of(root@), 0),
    );
}

proof fn lemma_has_name_key(entries: Vec<(String, Schema)>, name: Seq<char>)
    ensures
        has_name(entries_view(entries), name) == has_key(entries@, name),
{
    let view = entries_view(entries);
    if has_key(entries@, name) {
        let i = choose|i: int| 0 <= i < entries@.len() && (#[trigger] entries@[i]).0@ == name;
        assert(view[i].0 == name);
    }
    if has_name(view, name) {
        let i = choose|i: int| 0 <= i < view.len() && (#[trigger] view[i]).0 == name;
        assert(entries@[i].0@ == name);
    }
}

/// The definitions of a root schema hold the names inside each of them, and
/// in a closed root schema their references name definitions.
proof fn lemma_definition_placed(
    root: Schema,
    top: Json,
    name: Seq<char>,
    instance: Json,
    instance_path: Path,
)
    requires
        leads(top, instance_path, instance),
        definition(root, name).is_some(),
    ensures
        placed(
            root,
            top,
            definition(root, name)->Some_0,
            instance,
            instance_path,
            seq!["definitions"@, name],
        ),
{
    reveal_with_fuel(schema_view, 2);
    let defs = root.defs->Some_0;
    lemma_position_has_key(defs@, name);
    let i = position(defs@, name)->Some_0;
    let target = defs@[i].1;
    assert(is_first_at(defs@, name, i));
    assert(defs[i].0@ == name);
    assert(named_among(defs, name));
    let path = seq!["definitions"@, name];
    assert forall|k: int| 0 <= k < path.len() implies is_keyword(#[trigger] path[k]) || known_name(
        root,
        path[k],
    ) by {
        if k == 0 {
            assert(path[k] == "definitions"@);
        } else {
            assert(path[k] == name);
        }
    }
    assert forall|t: Seq<char>| #[trigger] names_in(target, t) implies known_name(root, t) by {
        assert(names_in(defs[i].1, t));
        assert(named_among(defs, t));
    }
    if is_closed(root@) {
        lemma_closed_covers(root);
        let view = definitions_of(root@);
        assert(view == entries_view(defs));
        assert(view[i].1 == target@);
        lemma_covered_entry(view, view, 0, i);
    }
}

/// The schemas of a list hold their own names, and their references are
/// among those of the list.
proof fn lemma_entry_placed(
    root: Schema,
    top: Json,
    entries: Vec<(String, Schema)>,
    at: int,
    instance: Json,
    instance_path: Path,
    schema_path: Path,
)
    requires
        0 <= at < entries@.len(),
        leads(top, instance_path, instance),
        well_named(root, schema_path),
        forall|t: Seq<char>| #[trigger] named_among(entries, t) ==> known_name(root, t),
        is_closed(root@) ==> covered(definitions_of(root@), refs_of_entries(entries_view(entries), 0)),
    ensures
        placed(root, top, entries[at].1, instance, instance_path, schema_path),
        known_name(root, entries[at].0@),
{
    assert(named_among(entries, entries[at].0@));
    assert forall|t: Seq<char>| #[trigger] names_in(entries[at].1, t) implies known_name(root, t) by {
        assert(named_among(entries, t));
    }
    if is_closed(root@) {
        let view = entries_view(entries);
        assert(view[at].1 == entries[at].1@);
        lemma_covered_entry(definitions_of(root@), view, 0, at);
    }
}

/// Every outcome of evaluating a schema is sound.
proof fn lemma_run_sound(
    root: Schema,
    depth: nat,
    schema: Schema,
    instance: Json,
    tag: Option<Seq<char>>,
    instance_path: Path,
    schema_path: Path,
    strict: bool,
    top: Json,
)
    requires
        placed(root, top, schema, instance, instance_path, schema_path),
    ensures
        sound(
            root,
            top,
            run(root, depth, schema, instance, tag, instance_path, schema_path, strict),
        ),
    decreases depth, schema, 1nat, 0nat,
{
    reveal_with_fuel(schema_view, 2);
    reveal_with_fuel(form_view, 2);
    let ip = instance_path;
    let sp = schema_path;
    assert(resolves(top, ip));
    match *schema.form {
        Form::Empty => {},
        Form::Ref(name) => {
            if depth > 0 {
                match definition(root, name@) {
                    Some(target) => {
                        lemma_definition_placed(root, top, name@, instance, ip);
                        lemma_run_sound(
                            root,
                            (depth - 1) as nat,
                            target,
                            instance,
                            None,
                            ip,
                            seq!["definitions"@, name@],
                            strict,
                            top,
                        );
                    },
                    None => {
                        if is_closed(root@) {
                            let refs = refs_of(schema@);
                            assert(refs[0] == name@);
                            assert(has_name(definitions_of(root@), name@));
                            match root.defs {
                                Some(defs) => {
                                    lemma_has_name_key(defs, name@);
                                    lemma_position_has_key(defs@, name@);
                                },
                                None => {},
                            }
                        }
                    },
                }
            }
        },
        Form::Type(_) => {
            lemma_well_named_push(root, sp, "type"@);
        },
        Form::Enum(_) => {
            lemma_well_named_push(root, sp, "enum"@);
        },
        Form::Elements(sub) => {
            lemma_well_named_push(root, sp, "elements"@);
            match instance {
                Json::Array(items) => {
                    lemma_run_elements_sound(
                        root,
                        depth,
                        schema,
                        items,
                        0,
                        ip,
                        sp.push("elements"@),
                        strict,
                        top,
                    );
                },
                _ => {},
            }
        },
        Form::Properties(required, optional, has_required) => {
            lemma_well_named_push(root, sp, "properties"@);
            lemma_well_named_push(root, sp, "optionalProperties"@);
            match instance {
                Json::Object(members) => {
                    let first = run_members(
                        root,
                        depth,
                        schema,
                        true,
                        0,
                        members@,
                        ip,
                        sp.push("properties"@),
                        strict,
                    );
                    let second = run_members(
                        root,
                        depth,
                        schema,
                        false,
                        0,
                        members@,
                        ip,
                        sp.push("optionalProperties"@),
                        strict,
                    );
                    let third = if strict {
                        undeclared(required@, optional@, tag, members@, 0, ip, sp)
                    } else {
                        clean()
                    };
                    lemma_run_members_sound(
                        root,
                        depth,
                        schema,
                        true,
                        0,
                        members,
                        ip,
                        sp.push("properties"@),
                        strict,
                        top,
                    );
                    lemma_run_members_sound(
                        root,
                        depth,
                        schema,
                        false,
                        0,
                        members,
                        ip,
                        sp.push("optionalProperties"@),
                        strict,
                        top,
                    );
                    if strict {
                        lemma_undeclared_sound(root, required@, optional@, tag, members, 0, ip, sp, top);
                    }
                    lemma_sound_then(root, top, first, second);
                    lemma_sound_then(root, top, then(first, second), third);
                },
                _ => {},
            }
        },
        Form::Values(sub) => {
            lemma_well_named_push(root, sp, "values"@);
            match instance {
                Json::Object(members) => {
                    lemma_run_values_sound(
                        root,
                        depth,
                        schema,
                        members,
                        0,
                        ip,
                        sp.push("values"@),
                        strict,
                        top,
                    );
                },
                _ => {},
            }
        },
        Form::Discriminator(tag_name, mapping) => {
            let d = sp.push("discriminator"@);
            lemma_well_named_push(root, sp, "discriminator"@);
            lemma_well_named_push(root, d, "tag"@);
            lemma_well_named_push(root, d, "mapping"@);
            match instance {
                Json::Object(members) => {
                    lemma_position_has_key(members@, tag_name@);
                    match position(members@, tag_name@) {
                        Some(p) => {
                            assert(is_first_at(members@, tag_name@, p));
                            assert(members@[p].0@ == tag_name@);
                            assert(child(instance, tag_name@, members@[p].1));
                            lemma_leads_push(top, ip, instance, tag_name@, members@[p].1);
                            match members@[p].1 {
                                Json::String(value) => {
                                    lemma_position_has_key(mapping@, value@);
                                    match position(mapping@, value@) {
                                        Some(m) => {
                                            assert(is_first_at(mapping@, value@, m));
                                            assert forall|t: Seq<char>| #[trigger]
                                                named_among(mapping, t) implies known_name(root, t) by {
                                                assert(names_in(schema, t));
                                            }
                                            assert(mapping[m].0@ == value@);
                                            assert(named_among(mapping, value@));
                                            lemma_well_named_push(root, d.push("mapping"@), value@);
                                            lemma_entry_placed(
                                                root,
                                                top,
                                                mapping,
                                                m,
                                                instance,
                                                ip,
                                                d.push("mapping"@).push(value@),
                                            );
                                            lemma_run_sound(
                                                root,
                                                depth,
                                                mapping[m].1,
                                                instance,
                                                Some(tag_name@),
                                                ip,
                                                d.push("mapping"@).push(value@),
                                                strict,
                                                top,
                                            );
                                        },
                                        None => {},
                                    }
                                },
                                _ => {},
                            }
                        },
                        None => {},
                    }
                },
                _ => {},
            }
        },
    }
}

/// Every outcome of evaluating the elements of an array is sound.
proof fn lemma_run_elements_sound(
    root: Schema,
    depth: nat,
    parent: Schema,
    items: Vec<Json>,
    from: nat,
    instance_path: Path,
    schema_path: Path,
    strict: bool,
    top: Json,
)
    requires
        *parent.form is Elements,
        leads(top, instance_path, Json::Array(items)),
        well_named(root, schema_path),
        forall|t: Seq<char>| #[trigger] names_in(parent, t) ==> known_name(root, t),
        is_closed(root@) ==> covered(definitions_of(root@), refs_of(parent@)),
    ensures
        sound(
            root,
            top,
            run_elements(root, depth, parent, items@, from, instance_path, schema_path, strict),
        ),
    decreases depth, parent, 0nat, items@.len() - from,
{
    reveal_with_fuel(schema_view, 2);
    reveal_with_fuel(form_view, 2);
    if from < items@.len() {
        let sub = parent.form->Elements_0;
        let item = items@[from as int];
        let token = decimal(from);
        assert(Json::Array(items)->Array_0@[from as int] == item);
        assert(child(Json::Array(items), token, item));
        lemma_leads_push(top, instance_path, Json::Array(items), token, item);
        assert forall|t: Seq<char>| #[trigger] names_in(sub, t) implies known_name(root, t) by {
            assert(names_in(parent, t));
        }
        lemma_run_sound(
            root,
            depth,
            sub,
            item,
            None,
            instance_path.push(token),
            schema_path,
            strict,
            top,
        );
        lemma_run_elements_sound(
            root,
            depth,
            parent,
            items,
            from + 1,
            instance_path,
            schema_path,
            strict,
            top,
        );
        lemma_sound_then(
            root,
            top,
            run(root, depth, sub, item, None, instance_path.push(token), schema_path, strict),
            run_elements(root, depth, parent, items@, from + 1, instance_path, schema_path, strict),
        );
    }
}

/// Every outcome of evaluating the member values of an object is sound.
proof fn lemma_run_values_sound(
    root: Schema,
    depth: nat,
    parent: Schema,
    members: Vec<(String, Json)>,
    from: nat,
    instance_path: Path,
    schema_path: Path,
    strict: bool,
    top: Json,
)
    requires
        *parent.form is Values,
        leads(top, instance_path, Json::Object(members)),
        well_named(root, schema_path),
        forall|t: Seq<char>| #[trigger] names_in(parent, t) ==> known_name(root, t),
        is_closed(root@) ==> covered(definitions_of(root@), refs_of(parent@)),
    ensures
        sound(
            root,
            top,
            run_values(root, depth, parent, members@, from, instance_path, schema_path, strict),
        ),
    decreases depth, parent, 0nat, members@.len() - from,
{
    reveal_with_fuel(schema_view, 2);
    reveal_with_fuel(form_view, 2);
    if from < members@.len() {
        let sub = parent.form->Values_0;
        let value = members@[from as int].1;
        let token = members@[from as int].0@;
        assert(Json::Object(members)->Object_0@[from as int].0@ == token);
        assert(child(Json::Object(members), token, value));
        lemma_leads_push(top, instance_path, Json::Object(members), token, value);
        assert forall|t: Seq<char>| #[trigger] names_in(sub, t) implies known_name(root, t) by {
            assert(names_in(parent, t));
        }
        lemma_run_sound(
            root,
            depth,
            sub,
            value,
            None,
            instance_path.push(token),
            schema_path,
            strict,
            top,
        );
        lemma_run_values_sound(
            root,
            depth,
            parent,
            members,
            from + 1,
            instance_path,
            schema_path,
            strict,
            top,
        );
        lemma_sound_then(
            root,
            top,
            run(root, depth, sub, value, None, instance_path.push(token), schema_path, strict),
            run_values(root, depth, parent, members@, from + 1, instance_path, schema_path, strict),
        );
    }
}

/// Every outcome of evaluating the members of an object against required
/// or optional properties is sound.
proof fn lemma_run_members_sound(
    root: Schema,
    depth: nat,
    parent: Schema,
    required: bool,
    from: nat,
    members: Vec<(String, Json)>,
    instance_path: Path,
    schema_path: Path,
    strict: bool,
    top: Json,
)
    requires
        *parent.form is Properties,
        leads(top, instance_path, Json::Object(members)),
        well_named(root, schema_path),
        forall|t: Seq<char>| #[trigger] names_in(parent, t) ==> known_name(root, t),
        is_closed(root@) ==> covered(definitions_of(root@), refs_of(parent@)),
    ensures
        sound(
            root,
            top,
            run_members(
                root,
                depth,
                parent,
                required,
                from,
                members@,
                instance_path,
                schema_path,
                strict,
            ),
        ),
    decreases depth, parent, 0nat, properties_of(parent, required).len() - from,
{
    reveal_with_fuel(schema_view, 2);
    reveal_with_fuel(form_view, 2);
    let properties = properties_of(parent, required);
    if from < properties.len() {
        let list = if required {
            parent.form->Properties_0
        } else {
            parent.form->Properties_1
        };
        assert(list@ == properties);
        let name = properties[from as int].0@;
        let sub = properties[from as int].1;
        let instance = Json::Object(members);
        assert forall|t: Seq<char>| #[trigger] named_among(list, t) implies known_name(root, t) by {
            assert(names_in(parent, t));
        }
        if is_closed(root@) {
            lemma_covered_split(
                definitions_of(root@),
                refs_of_entries(entries_view(parent.form->Properties_0), 0),
                refs_of_entries(entries_view(parent.form->Properties_1), 0),
            );
        }
        assert(resolves(top, instance_path));
        lemma_position_has_key(members@, name);
        let here = match position(members@, name) {
            Some(p) => run(
                root,
                depth,
                sub,
                members@[p].1,
                None,
                instance_path.push(name),
                schema_path.push(name),
                strict,
            ),
            None => if required {
                one(instance_path, schema_path.push(name))
            } else {
                clean()
            },
        };
        match position(members@, name) {
            Some(p) => {
                assert(is_first_at(members@, name, p));
                assert(instance->Object_0@[p].0@ == name);
                assert(child(instance, name, members@[p].1));
                lemma_leads_push(top, instance_path, instance, name, members@[p].1);
                lemma_entry_placed(
                    root,
                    top,
                    list,
                    from as int,
                    members@[p].1,
                    instance_path.push(name),
                    schema_path,
                );
                lemma_well_named_push(root, schema_path, name);
                lemma_run_sound(
                    root,
                    depth,
                    sub,
                    members@[p].1,
                    None,
                    instance_path.push(name),
                    schema_path.push(name),
                    strict,
                    top,
                );
            },
            None => {
                lemma_entry_placed(
                    root,
                    top,
                    list,
                    from as int,
                    instance,
                    instance_path,
                    schema_path,
                );
                lemma_well_named_push(root, schema_path, name);
            },
        }
        lemma_run_members_sound(
            root,
            depth,
            parent,
            required,
            from + 1,
            members,
            instance_path,
            schema_path,
            strict,
            top,
        );
        lemma_sound_then(
            root,
            top,
            here,
            run_members(
                root,
                depth,
                parent,
                required,
                from + 1,
                members@,
                instance_path,
                schema_path,
                strict,
            ),
        );
    }
}

/// Every error for a member that a properties form does not speak of
/// points at that member.
proof fn lemma_undeclared_sound(
    root: Schema,
    required: Seq<(String, Schema)>,
    optional: Seq<(String, Schema)>,
    tag: Option<Seq<char>>,
    members: Vec<(String, Json)>,
    from: nat,
    instance_path: Path,
    schema_path: Path,
    top: Json,
)
    requires
        leads(top, instance_path, Json::Object(members)),
        well_named(root, schema_path),
    ensures
        sound(
            root,
            top,
            undeclared(required, optional, tag, members@, from, instance_path, schema_path),
        ),
    decreases members@.len() - from,
{
    if from < members@.len() {
        let name = members@[from as int].0@;
        let instance = Json::Object(members);
        assert(instance->Object_0@[from as int].0@ == name);
        assert(child(instance, name, members@[from as int].1));
        lemma_leads_push(top, instance_path, instance, name, members@[from as int].1);
        let here = if is_undeclared(required, optional, tag, name) {
            one(instance_path.push(name), schema_path)
        } else {
            clean()
        };
        lemma_undeclared_sound(
            root,
            required,
            optional,
            tag,
            members,
            from + 1,
            instance_path,
            schema_path,
            top,
        );
        lemma_sound_then(
            root,
            top,
            here,
            undeclared(required, optional, tag, members@, from + 1, instance_path, schema_path),
        );
    }
}

/// The outcome of evaluating a root schema against an instance is sound.
proof fn lemma_outcome_sound(depth: nat, strict: bool, schema: Schema, instance: Json)
    ensures
        sound(schema, instance, run(schema, depth, schema, instance, None, seq![], seq![], strict)),
{
    let none = Seq::<Seq<char>>::empty();
    assert(leads(instance, none, instance));
    if is_closed(schema@) {
        lemma_closed_covers(schema);
    }
    lemma_run_sound(schema, depth, schema, instance, None, none, none, strict, instance);
}

/// Every error of a validation points into the instance, by a path that
/// leads to a value inside it, and into the schema, by a path made of
/// keywords and of names that the schema holds.
pub proof fn lemma_paths_well_formed(
    max_errors: nat,
    max_depth: nat,
    strict: bool,
    schema: Schema,
    instance: Json,
)
    ensures
        validation(max_errors, max_depth, strict, schema, instance) matches Ok(errors) ==> forall|
            k: int,
        |
            0 <= k < errors.len() ==> resolves(instance, (#[trigger] errors[k]).instance_path)
                && well_named(schema, errors[k].schema_path),
{
    lemma_outcome_sound(initial_depth(max_depth), strict, schema, instance);
    let outcome = run(
        schema,
        initial_depth(max_depth),
        schema,
        instance,
        None,
        seq![],
        seq![],
        strict,
    );
    match validation(max_errors, max_depth, strict, schema, instance) {
        Ok(errors) => {
            assert forall|k: int| 0 <= k < errors.len() implies resolves(
                instance,
                (#[trigger] errors[k]).instance_path,
            ) && well_named(schema, errors[k].schema_path) by {
                assert(errors[k] == outcome.errors[k]);
            }
        },
        Err(_) => {},
    }
}

/// A validation returns a list of errors, or fails because references go
/// deeper than the bound; against a schema that is not closed it may also
/// fail because a reference names no definition. It fails in no other way.
pub proof fn lemma_depth_safety(
    max_errors: nat,
    max_depth: nat,
    strict: bool,
    schema: Schema,
    instance: Json,
)
    ensures
        validation(max_errors, max_depth, strict, schema, instance) matches Err(e) ==> e
            == ErrorView::MaxDepthExceeded || (e is NoSuchDefinition && !is_closed(schema@)),
{
    lemma_outcome_sound(initial_depth(max_depth), strict, schema, instance);
}

/// The number of errors that a validation returns is at most the cap,
/// where there is one.
pub proof fn lemma_error_cap(
    max_errors: nat,
    max_depth: nat,
    strict: bool,
    schema: Schema,
    instance: Json,
)
    requires
        max_errors > 0,
    ensures
        validation(max_errors, max_depth, strict, schema, instance) matches Ok(errors)
            ==> errors.len() <= max_errors,
{
}

} // verus!
