//! Evaluation depends on the values of the schema and of the instance, not
//! on how they are held.

use vstd::prelude::*;
use crate::json::{
    has_key, is_first_at, items_view, json_view, lemma_position_first, lemma_position_has_key,
    members_view, position, Json,
};
use crate::schema::{entries_view, form_view, schema_view, Form, Schema};
use crate::validator::Path;
use crate::vm::{
    definition, initial_depth, properties_of, run, run_elements, run_members, run_values,
    undeclared, validation,
};

verus! {

/// Two lists hold the same keys in the same order.
pub open spec fn same_keys<V, W>(a: Seq<(String, V)>, b: Seq<(String, W)>) -> bool {
    &&& a.len() == b.len()
    &&& forall|i: int| 0 <= i < a.len() ==> (#[trigger] a[i]).0@ == b[i].0@
}

/// Lists with the same keys have a key at the same first position.
pub proof fn lemma_position_by_value<V, W>(a: Seq<(String, V)>, b: Seq<(String, W)>, key: Seq<char>)
    requires
        same_keys(a, b),
    ensures
        position(a, key) == position(b, key),
        has_key(a, key) == has_key(b, key),
{
    lemma_position_has_key(a, key);
    lemma_position_has_key(b, key);
    match position(a, key) {
        Some(i) => {
            assert(is_first_at(a, key, i));
            assert(b[i].0@ == a[i].0@);
            assert forall|j: int| 0 <= j < i implies (#[trigger] b[j]).0@ != key by {
                assert(a[j].0@ == b[j].0@);
            }
            assert(is_first_at(b, key, i));
            lemma_position_first(b, key, i);
        },
        None => {
            match position(b, key) {
                Some(i) => {
                    assert(is_first_at(b, key, i));
                    assert(a[i].0@ == b[i].0@);
                    assert(has_key(a, key));
                },
                None => {},
            }
        },
    }
}

/// Lists of named schemas with one value have the same keys, and schemas of
/// one value at each position.
proof fn lemma_entries_by_value(a: Vec<(String, Schema)>, b: Vec<(String, Schema)>)
    requires
        entries_view(a) == entries_view(b),
    ensures
        same_keys(a@, b@),
        forall|i: int| 0 <= i < a@.len() ==> schema_view(#[trigger] a@[i].1) == schema_view(b@[i].1),
{
    let va = entries_view(a);
    let vb = entries_view(b);
    assert(va.len() == a@.len() && vb.len() == b@.len());
    assert forall|i: int| 0 <= i < a@.len() implies (#[trigger] a@[i]).0@ == b@[i].0@ && schema_view(
        a@[i].1,
    ) == schema_view(b@[i].1) by {
        assert(va[i] == (a[i].0@, schema_view(a[i].1)));
        assert(vb[i] == (b[i].0@, schema_view(b[i].1)));
    }
}

/// Objects of one value have the same keys, and members of one value at
/// each position.
proof fn lemma_members_by_value(a: Vec<(String, Json)>, b: Vec<(String, Json)>)
    requires
        members_view(a) == members_view(b),
    ensures
        same_keys(a@, b@),
        forall|i: int| 0 <= i < a@.len() ==> json_view(#[trigger] a@[i].1) == json_view(b@[i].1),
{
    let va = members_view(a);
    let vb = members_view(b);
    assert(va.len() == a@.len() && vb.len() == b@.len());
    assert forall|i: int| 0 <= i < a@.len() implies (#[trigger] a@[i]).0@ == b@[i].0@ && json_view(
        a@[i].1,
    ) == json_view(b@[i].1) by {
        assert(va[i] == (a[i].0@, json_view(a[i].1)));
        assert(vb[i] == (b[i].0@, json_view(b[i].1)));
    }
}

/// Arrays of one value have elements of one value at each position.
proof fn lemma_items_by_value(a: Vec<Json>, b: Vec<Json>)
    requires
        items_view(a) == items_view(b),
    ensures
        a@.len() == b@.len(),
        forall|i: int| 0 <= i < a@.len() ==> json_view(#[trigger] a@[i]) == json_view(b@[i]),
{
    let va = items_view(a);
    let vb = items_view(b);
    assert(va.len() == a@.len() && vb.len() == b@.len());
    assert forall|i: int| 0 <= i < a@.len() implies json_view(#[trigger] a@[i]) == json_view(
        b@[i],
    ) by {
        assert(va[i] == json_view(a[i]));
        assert(vb[i] == json_view(b[i]));
    }
}

/// Root schemas of one value have definitions of one value under each name.
proof fn lemma_definition_by_value(a: Schema, b: Schema, name: Seq<char>)
    requires
        a@ == b@,
    ensures
        definition(a, name).is_some() == definition(b, name).is_some(),
        definition(a, name).is_some() ==> schema_view(definition(a, name)->Some_0) == schema_view(
            definition(b, name)->Some_0,
        ),
{
    reveal_with_fuel(schema_view, 2);
    match a.defs {
        Some(da) => {
            let db = b.defs->Some_0;
            lemma_entries_by_value(da, db);
            lemma_position_by_value(da@, db@, name);
            lemma_position_has_key(da@, name);
        },
        None => {},
    }
}

/// Evaluating schemas of one value against instances of one value gives
/// one outcome.
proof fn lemma_run_by_value(
    ra: Schema,
    rb: Schema,
    depth: nat,
    a: Schema,
    b: Schema,
    ia: Json,
    ib: Json,
    tag: Option<Seq<char>>,
    instance_path: Path,
    schema_path: Path,
    strict: bool,
)
    requires
        ra@ == rb@,
        a@ == b@,
        ia@ == ib@,
    ensures
        run(ra, depth, a, ia, tag, instance_path, schema_path, strict) == run(
            rb,
            depth,
            b,
            ib,
            tag,
            instance_path,
            schema_path,
            strict,
        ),
    decreases depth, a, 1nat, 0nat,
{
    reveal_with_fuel(schema_view, 2);
    reveal_with_fuel(form_view, 2);
    reveal_with_fuel(json_view, 2);
    let ip = instance_path;
    let sp = schema_path;
    assert(form_view(*a.form) == form_view(*b.form));
    match *a.form {
        Form::Empty => {},
        Form::Ref(name) => {
            if depth > 0 {
                lemma_definition_by_value(ra, rb, name@);
                match definition(ra, name@) {
                    Some(ta) => {
                        let tb = definition(rb, name@)->Some_0;
                        lemma_run_by_value(
                            ra,
                            rb,
                            (depth - 1) as nat,
                            ta,
                            tb,
                            ia,
                            ib,
                            None,
                            ip,
                            seq!["definitions"@, name@],
                            strict,
                        );
                    },
                    None => {},
                }
            }
        },
        Form::Type(_) => {},
        Form::Enum(_) => {},
        Form::Elements(_) => {
            match ia {
                Json::Array(items_a) => {
                    let items_b = ib->Array_0;
                    lemma_run_elements_by_value(
                        ra,
                        rb,
                        depth,
                        a,
                        b,
                        items_a,
                        items_b,
                        0,
                        ip,
                        sp.push("elements"@),
                        strict,
                    );
                },
                _ => {},
            }
        },
        Form::Properties(required_a, optional_a, _) => {
            let required_b = b.form->Properties_0;
            let optional_b = b.form->Properties_1;
            match ia {
                Json::Object(members_a) => {
                    let members_b = ib->Object_0;
                    lemma_run_members_by_value(
                        ra,
                        rb,
                        depth,
                        a,
                        b,
                        true,
                        0,
                        members_a,
                        members_b,
                        ip,
                        sp.push("properties"@),
                        strict,
                    );
                    lemma_run_members_by_value(
                        ra,
                        rb,
                        depth,
                        a,
                        b,
                        false,
                        0,
                        members_a,
                        members_b,
                        ip,
                        sp.push("optionalProperties"@),
                        strict,
                    );
                    lemma_entries_by_value(required_a, required_b);
                    lemma_entries_by_value(optional_a, optional_b);
                    lemma_members_by_value(members_a, members_b);
                    lemma_undeclared_by_value(
                        required_a@,
                        required_b@,
                        optional_a@,
                        optional_b@,
                        tag,
                        members_a@,
                        members_b@,
                        0,
                        ip,
                        sp,
                    );
                },
                _ => {},
            }
        },
        Form::Values(_) => {
            match ia {
                Json::Object(members_a) => {
                    let members_b = ib->Object_0;
                    lemma_run_values_by_value(
                        ra,
                        rb,
                        depth,
                        a,
                        b,
                        members_a,
                        members_b,
                        0,
                        ip,
                        sp.push("values"@),
                        strict,
                    );
                },
                _ => {},
            }
        },
        Form::Discriminator(tag_a, mapping_a) => {
            let mapping_b = b.form->Discriminator_1;
            match ia {
                Json::Object(members_a) => {
                    let members_b = ib->Object_0;
                    lemma_members_by_value(members_a, members_b);
                    lemma_position_by_value(members_a@, members_b@, tag_a@);
                    lemma_position_has_key(members_a@, tag_a@);
                    match position(members_a@, tag_a@) {
                        Some(p) => {
                            assert(json_view(members_a@[p].1) == json_view(members_b@[p].1));
                            match members_a@[p].1 {
                                Json::String(value) => {
                                    lemma_entries_by_value(mapping_a, mapping_b);
                                    lemma_position_by_value(mapping_a@, mapping_b@, value@);
                                    lemma_position_has_key(mapping_a@, value@);
                                    match position(mapping_a@, value@) {
                                        Some(m) => {
                                            assert(schema_view(mapping_a@[m].1) == schema_view(
                                                mapping_b@[m].1,
                                            ));
                                            lemma_run_by_value(
                                                ra,
                                                rb,
                                                depth,
                                                mapping_a[m].1,
                                                mapping_b[m].1,
                                                ia,
                                                ib,
                                                Some(tag_a@),
                                                ip,
                                                sp.push("discriminator"@).push("mapping"@).push(
                                                    value@,
                                                ),
                                                strict,
                                            );
                                        },
                                        None => {},
                                    }
                                },
                                _ => {},
                            }
                        },
                        None => {},
                    }
                },
                _ => {},
            }
        },
    }
}

proof fn lemma_run_elements_by_value(
    ra: Schema,
    rb: Schema,
    depth: nat,
    a: Schema,
    b: Schema,
    items_a: Vec<Json>,
    items_b: Vec<Json>,
    from: nat,
    instance_path: Path,
    schema_path: Path,
    strict: bool,
)
    requires
        ra@ == rb@,
        a@ == b@,
        *a.form is Elements,
        items_view(items_a) == items_view(items_b),
    ensures
        run_elements(ra, depth, a, items_a@, from, instance_path, schema_path, strict)
            == run_elements(rb, depth, b, items_b@, from, instance_path, schema_path, strict),
    decreases depth, a, 0nat, items_a@.len() - from,
{
    reveal_with_fuel(schema_view, 2);
    reveal_with_fuel(form_view, 2);
    assert(form_view(*a.form) == form_view(*b.form));
    lemma_items_by_value(items_a, items_b);
    if from < items_a@.len() {
        let sub_a = a.form->Elements_0;
        let sub_b = b.form->Elements_0;
        assert(json_view(items_a@[from as int]) == json_view(items_b@[from as int]));
        lemma_run_by_value(
            ra,
            rb,
            depth,
            sub_a,
            sub_b,
            items_a@[from as int],
            items_b@[from as int],
            None,
            instance_path.push(crate::pointer::decimal(from)),
            schema_path,
            strict,
        );
        lemma_run_elements_by_value(
            ra,
            rb,
            depth,
            a,
            b,
            items_a,
            items_b,
            from + 1,
            instance_path,
            schema_path,
            strict,
        );
    }
}

proof fn lemma_run_values_by_value(
    ra: Schema,
    rb: Schema,
    depth: nat,
    a: Schema,
    b: Schema,
    members_a: Vec<(String, Json)>,
    members_b: Vec<(String, Json)>,
    from: nat,
    instance_path: Path,
    schema_path: Path,
    strict: bool,
)
    requires
        ra@ == rb@,
        a@ == b@,
        *a.form is Values,
        members_view(members_a) == members_view(members_b),
    ensures
        run_values(ra, depth, a, members_a@, from, instance_path, schema_path, strict)
            == run_values(rb, depth, b, members_b@, from, instance_path, schema_path, strict),
    decreases depth, a, 0nat, members_a@.len() - from,
{
    reveal_with_fuel(schema_view, 2);
    reveal_with_fuel(form_view, 2);
    assert(form_view(*a.form) == form_view(*b.form));
    lemma_members_by_value(members_a, members_b);
    if from < members_a@.len() {
        let sub_a = a.form->Values_0;
        let sub_b = b.form->Values_0;
        assert(members_a@[from as int].0@ == members_b@[from as int].0@);
        assert(json_view(members_a@[from as int].1) == json_view(members_b@[from as int].1));
        lemma_run_by_value(
            ra,
            rb,
            depth,
            sub_a,
            sub_b,
            members_a@[from as int].1,
            members_b@[from as int].1,
            None,
            instance_path.push(members_a@[from as int].0@),
            schema_path,
            strict,
        );
        lemma_run_values_by_value(
            ra,
            rb,
            depth,
            a,
            b,
            members_a,
            members_b,
            from + 1,
            instance_path,
            schema_path,
            strict,
        );
    }
}

proof fn lemma_run_members_by_value(
    ra: Schema,
    rb: Schema,
    depth: nat,
    a: Schema,
    b: Schema,
    required: bool,
    from: nat,
    members_a: Vec<(String, Json)>,
    members_b: Vec<(String, Json)>,
    instance_path: Path,
    schema_path: Path,
    strict: bool,
)
    requires
        ra@ == rb@,
        a@ == b@,
        *a.form is Properties,
        members_view(members_a) == members_view(members_b),
    ensures
        run_members(
            ra,
            depth,
            a,
            required,
            from,
            members_a@,
            instance_path,
            schema_path,
            strict,
        ) == run_members(
            rb,
            depth,
            b,
            required,
            from,
            members_b@,
            instance_path,
            schema_path,
            strict,
        ),
    decreases depth, a, 0nat, properties_of(a, required).len() - from,
{
    reveal_with_fuel(schema_view, 2);
    reveal_with_fuel(form_view, 2);
    assert(form_view(*a.form) == form_view(*b.form));
    let list_a = if required {
        a.form->Properties_0
    } else {
        a.form->Properties_1
    };
    let list_b = if required {
        b.form->Properties_0
    } else {
        b.form->Properties_1
    };
    assert(list_a@ == properties_of(a, required));
    assert(list_b@ == properties_of(b, required));
    lemma_entries_by_value(list_a, list_b);
    lemma_members_by_value(members_a, members_b);
    if from < list_a@.len() {
        let i = from as int;
        let name = list_a@[i].0@;
        assert(list_b@[i].0@ == name);
        assert(schema_view(list_a@[i].1) == schema_view(list_b@[i].1));
        lemma_position_by_value(members_a@, members_b@, name);
        lemma_position_has_key(members_a@, name);
        match position(members_a@, name) {
            Some(p) => {
                assert(json_view(members_a@[p].1) == json_view(members_b@[p].1));
                lemma_run_by_value(
                    ra,
                    rb,
                    depth,
                    list_a[i].1,
                    list_b[i].1,
                    members_a@[p].1,
                    members_b@[p].1,
                    None,
                    instance_path.push(name),
                    schema_path.push(name),
                    strict,
                );
            },
            None => {},
        }
        lemma_run_members_by_value(
            ra,
            rb,
            depth,
            a,
            b,
            required,
            from + 1,
            members_a,
            members_b,
            instance_path,
            schema_path,
            strict,
        );
    }
}

proof fn lemma_undeclared_by_value(
    required_a: Seq<(String, Schema)>,
    required_b: Seq<(String, Schema)>,
    optional_a: Seq<(String, Schema)>,
    optional_b: Seq<(String, Schema)>,
    tag: Option<Seq<char>>,
    members_a: Seq<(String, Json)>,
    members_b: Seq<(String, Json)>,
    from: nat,
    instance_path: Path,
    schema_path: Path,
)
    requires
        same_keys(required_a, required_b),
        same_keys(optional_a, optional_b),
        same_keys(members_a, members_b),
    ensures
        undeclared(required_a, optional_a, tag, members_a, from, instance_path, schema_path)
            == undeclared(required_b, optional_b, tag, members_b, from, instance_path, schema_path),
    decreases members_a.len() - from,
{
    if from < members_a.len() {
        let name = members_a[from as int].0@;
        assert(members_b[from as int].0@ == name);
        lemma_position_by_value(required_a, required_b, name);
        lemma_position_by_value(optional_a, optional_b, name);
        lemma_undeclared_by_value(
            required_a,
            required_b,
            optional_a,
            optional_b,
            tag,
            members_a,
            members_b,
            from + 1,
            instance_path,
            schema_path,
        );
    }
}

/// What a validation returns depends on the values of the schema and of
/// the instance alone.
pub proof fn lemma_validation_by_value(
    max_errors: nat,
    max_depth: nat,
    strict: bool,
    schema: Schema,
    instance: Json,
    other_schema: Schema,
    other_instance: Json,
)
    requires
        schema@ == other_schema@,
        instance@ == other_instance@,
    ensures
        validation(max_errors, max_depth, strict, schema, instance) == validation(
            max_errors,
            max_depth,
            strict,
            other_schema,
            other_instance,
        ),
{
    lemma_run_by_value(
        schema,
        other_schema,
        initial_depth(max_depth),
        schema,
        other_schema,
        instance,
        other_instance,
        None,
        seq![],
        seq![],
        strict,
    );
}

} // verus!
