//! Schemas as JSON: how a schema is written as a JSON value, and how one is
//! read from it.

use vstd::prelude::*;
use crate::errors::{ErrorView, JslError};
use crate::json::{clone_members, items_view, json_view, members_view, Json, JsonView};
use crate::schema::{
    canonicalizes, serde_entries_option_view, serde_entries_view, serde_view, DiscriminatorView,
    Schema, Serde, SerdeDiscriminator, SerdeView,
};
use crate::text::{option_view, strings_view};

verus! {

/// A member of a JSON object: its name and its value.
pub type Member = (Seq<char>, JsonView);

/// The name is one of the keywords that a schema is written with.
pub open spec fn is_wire_keyword(name: Seq<char>) -> bool {
    ||| name == "id"@
    ||| name == "definitions"@
    ||| name == "ref"@
    ||| name == "type"@
    ||| name == "enum"@
    ||| name == "elements"@
    ||| name == "properties"@
    ||| name == "optionalProperties"@
    ||| name == "values"@
    ||| name == "discriminator"@
}

/// The schema with no keyword at all.
pub open spec fn empty_schema() -> SerdeView {
    SerdeView {
        id: None,
        defs: None,
        rxf: None,
        typ: None,
        enm: None,
        elems: None,
        props: None,
        opt_props: None,
        values: None,
        discriminator: None,
        extra: seq![],
    }
}

/// A list of strings as JSON values.
pub open spec fn written_texts(texts: Seq<Seq<char>>) -> Seq<JsonView> {
    Seq::new(texts.len(), |i: int| JsonView::String(texts[i]))
}

/// The member that holds a text, where there is one.
pub open spec fn text_member(name: Seq<char>, text: Option<Seq<char>>) -> Seq<Member> {
    match text {
        Some(t) => seq![(name, JsonView::String(t))],
        None => seq![],
    }
}

/// The member that holds a value, where there is one.
pub open spec fn value_member(name: Seq<char>, value: Option<JsonView>) -> Seq<Member> {
    match value {
        Some(v) => seq![(name, v)],
        None => seq![],
    }
}

/// A schema as a JSON value: an object with a member for each keyword that
/// is present, in a fixed order, followed by the members that are no
/// keyword.
pub open spec fn written(schema: SerdeView) -> JsonView
    decreases schema,
{
    JsonView::Object(
        text_member("id"@, schema.id) + (value_member(
            "definitions"@,
            match schema.defs {
                Some(entries) => Some(JsonView::Object(written_entries(entries))),
                None => None,
            },
        ) + (text_member("ref"@, schema.rxf) + (text_member("type"@, schema.typ) + (value_member(
            "enum"@,
            match schema.enm {
                Some(texts) => Some(JsonView::Array(written_texts(texts))),
                None => None,
            },
        ) + (value_member(
            "elements"@,
            match schema.elems {
                Some(sub) => Some(written(*sub)),
                None => None,
            },
        ) + (value_member(
            "properties"@,
            match schema.props {
                Some(entries) => Some(JsonView::Object(written_entries(entries))),
                None => None,
            },
        ) + (value_member(
            "optionalProperties"@,
            match schema.opt_props {
                Some(entries) => Some(JsonView::Object(written_entries(entries))),
                None => None,
            },
        ) + (value_member(
            "values"@,
            match schema.values {
                Some(sub) => Some(written(*sub)),
                None => None,
            },
        ) + (value_member(
            "discriminator"@,
            match schema.discriminator {
                Some(d) => Some(
                    JsonView::Object(
                        seq![
                            ("tag"@, JsonView::String(d.tag)),
                            ("mapping"@, JsonView::Object(written_entries(d.mapping))),
                        ],
                    ),
                ),
                None => None,
            },
        ) + schema.extra))))))))),
    )
}

/// Named schemas as the members of a JSON object.
pub open spec fn written_entries(entries: Seq<(Seq<char>, SerdeView)>) -> Seq<Member>
    decreases entries,
{
    Seq::new(
        entries.len(),
        |i: int|
            if 0 <= i < entries.len() {
                (entries[i].0, written(entries[i].1))
            } else {
                arbitrary()
            },
    )
}

/// The strings that a list of JSON values holds, if it holds strings only.
pub open spec fn read_texts(items: Seq<JsonView>) -> Option<Seq<Seq<char>>> {
    if forall|i: int| 0 <= i < items.len() ==> (#[trigger] items[i]) is String {
        Some(Seq::new(items.len(), |i: int| items[i]->String_0))
    } else {
        None
    }
}

/// The schema that a JSON value holds, if it holds one: an object whose
/// keywords occur once each and hold what they may hold. Its other members
/// are kept as they are.
pub open spec fn read(json: JsonView) -> Option<SerdeView>
    decreases json, 2nat, 0nat,
{
    match json {
        JsonView::Object(members) => read_members(members, 0, empty_schema()),
        _ => None,
    }
}

/// The schema `so_far` with what the members from position `from` on add
/// to it.
pub open spec fn read_members(members: Seq<Member>, from: nat, so_far: SerdeView) -> Option<
    SerdeView,
>
    decreases members, 0nat, members.len() - from,
{
    if from >= members.len() {
        Some(so_far)
    } else {
        match read_member(members[from as int].0, members[from as int].1, so_far) {
            Some(next) => read_members(members, from + 1, next),
            None => None,
        }
    }
}

/// The schema `so_far` with what one member adds to it.
pub open spec fn read_member(name: Seq<char>, value: JsonView, so_far: SerdeView) -> Option<
    SerdeView,
>
    decreases value, 3nat, 0nat,
{
    if name == "id"@ {
        match value {
            JsonView::String(text) if so_far.id.is_none() => Some(
                SerdeView { id: Some(text), ..so_far },
            ),
            _ => None,
        }
    } else if name == "definitions"@ {
        match read_object(value) {
            Some(entries) if so_far.defs.is_none() => Some(
                SerdeView { defs: Some(entries), ..so_far },
            ),
            _ => None,
        }
    } else if name == "ref"@ {
        match value {
            JsonView::String(text) if so_far.rxf.is_none() => Some(
                SerdeView { rxf: Some(text), ..so_far },
            ),
            _ => None,
        }
    } else if name == "type"@ {
        match value {
            JsonView::String(text) if so_far.typ.is_none() => Some(
                SerdeView { typ: Some(text), ..so_far },
            ),
            _ => None,
        }
    } else if name == "enum"@ {
        match value {
            JsonView::Array(items) if so_far.enm.is_none() => match read_texts(items) {
                Some(texts) => Some(SerdeView { enm: Some(texts), ..so_far }),
                None => None,
            },
            _ => None,
        }
    } else if name == "elements"@ {
        match read(value) {
            Some(sub) if so_far.elems.is_none() => Some(
                SerdeView { elems: Some(Box::new(sub)), ..so_far },
            ),
            _ => None,
        }
    } else if name == "properties"@ {
        match read_object(value) {
            Some(entries) if so_far.props.is_none() => Some(
                SerdeView { props: Some(entries), ..so_far },
            ),
            _ => None,
        }
    } else if name == "optionalProperties"@ {
        match read_object(value) {
            Some(entries) if so_far.opt_props.is_none() => Some(
                SerdeView { opt_props: Some(entries), ..so_far },
            ),
            _ => None,
        }
    } else if name == "values"@ {
        match read(value) {
            Some(sub) if so_far.values.is_none() => Some(
                SerdeView { values: Some(Box::new(sub)), ..so_far },
            ),
            _ => None,
        }
    } else if name == "discriminator"@ {
        match read_discriminator(value) {
            Some(d) if so_far.discriminator.is_none() => Some(
                SerdeView { discriminator: Some(d), ..so_far },
            ),
            _ => None,
        }
    } else {
        Some(SerdeView { extra: so_far.extra.push((name, value)), ..so_far })
    }
}

/// The named schemas that a JSON object holds, if its members all hold
/// schemas.
pub open spec fn read_object(json: JsonView) -> Option<Seq<(Seq<char>, SerdeView)>>
    decreases json, 2nat, 0nat,
{
    match json {
        JsonView::Object(members) => read_entries(members, 0, seq![]),
        _ => None,
    }
}

/// The list `so_far` with the named schemas that the members from position
/// `from` on hold.
pub open spec fn read_entries(
    members: Seq<Member>,
    from: nat,
    so_far: Seq<(Seq<char>, SerdeView)>,
) -> Option<Seq<(Seq<char>, SerdeView)>>
    decreases members, 0nat, members.len() - from,
{
    if from >= members.len() {
        Some(so_far)
    } else {
        match read(members[from as int].1) {
            Some(sub) => read_entries(members, from + 1, so_far.push((members[from as int].0, sub))),
            None => None,
        }
    }
}

/// The discriminator that a JSON value holds, if it holds one: an object
/// with the two members `tag`, a string, and `mapping`, an object of
/// schemas, in either order.
pub open spec fn read_discriminator(json: JsonView) -> Option<DiscriminatorView>
    decreases json, 2nat, 0nat,
{
    match json {
        JsonView::Object(members) => {
            if members.len() != 2 {
                None
            } else if members[0].0 == "tag"@ && members[1].0 == "mapping"@ {
                read_tag_and_mapping(members[0].1, members[1].1)
            } else if members[1].0 == "tag"@ && members[0].0 == "mapping"@ {
                read_tag_and_mapping(members[1].1, members[0].1)
            } else {
                None
            }
        },
        _ => None,
    }
}

/// The discriminator with the given tag and mapping, if the first is a
/// string and the second an object of schemas.
pub open spec fn read_tag_and_mapping(tag: JsonView, mapping: JsonView) -> Option<DiscriminatorView>
    decreases mapping, 3nat, 0nat,
{
    match (tag, read_object(mapping)) {
        (JsonView::String(text), Some(entries)) => Some(
            DiscriminatorView { tag: text, mapping: entries },
        ),
        _ => None,
    }
}

/// No member that is kept beside the keywords is named like a keyword, in
/// the schema or in any schema inside it.
pub open spec fn wire_valid(schema: SerdeView) -> bool
    decreases schema,
{
    &&& forall|i: int| 0 <= i < schema.extra.len() ==> !is_wire_keyword((#[trigger] schema.extra[i]).0)
    &&& (schema.defs matches Some(entries) ==> entries_wire_valid(entries))
    &&& (schema.elems matches Some(sub) ==> wire_valid(*sub))
    &&& (schema.props matches Some(entries) ==> entries_wire_valid(entries))
    &&& (schema.opt_props matches Some(entries) ==> entries_wire_valid(entries))
    &&& (schema.values matches Some(sub) ==> wire_valid(*sub))
    &&& (schema.discriminator matches Some(d) ==> entries_wire_valid(d.mapping))
}

/// `wire_valid` for each of the named schemas.
pub open spec fn entries_wire_valid(entries: Seq<(Seq<char>, SerdeView)>) -> bool
    decreases entries,
{
    forall|i: int| 0 <= i < entries.len() ==> wire_valid((#[trigger] entries[i]).1)
}

proof fn lemma_read_shift(a: Seq<Member>, b: Seq<Member>, k: nat, so_far: SerdeView)
    ensures
        read_members(a + b, a.len() + k, so_far) == read_members(b, k, so_far),
    decreases b.len() - k,
{
    let both = a + b;
    if k < b.len() {
        assert(both[(a.len() + k) as int] == b[k as int]);
        match read_member(b[k as int].0, b[k as int].1, so_far) {
            Some(next) => lemma_read_shift(a, b, k + 1, next),
            None => {},
        }
    }
}

/// Reading a list of members is reading its first part, then the rest.
proof fn lemma_read_concat(a: Seq<Member>, b: Seq<Member>, from: nat, so_far: SerdeView)
    requires
        from <= a.len(),
    ensures
        read_members(a + b, from, so_far) == match read_members(a, from, so_far) {
            Some(next) => read_members(b, 0, next),
            None => None,
        },
    decreases a.len() - from,
{
    let both = a + b;
    if from < a.len() {
        assert(both[from as int] == a[from as int]);
        match read_member(a[from as int].0, a[from as int].1, so_far) {
            Some(next) => lemma_read_concat(a, b, from + 1, next),
            None => {},
        }
    } else {
        lemma_read_shift(a, b, 0, so_far);
    }
}

/// Members that are named like no keyword are kept as they are.
proof fn lemma_read_extra(extra: Seq<Member>, from: nat, so_far: SerdeView)
    requires
        from <= extra.len(),
        forall|i: int| 0 <= i < extra.len() ==> !is_wire_keyword((#[trigger] extra[i]).0),
    ensures
        read_members(extra, from, so_far) == Some(
            SerdeView { extra: so_far.extra + extra.skip(from as int), ..so_far },
        ),
    decreases extra.len() - from,
{
    if from < extra.len() {
        let name = extra[from as int].0;
        assert(!is_wire_keyword(name));
        let next = SerdeView { extra: so_far.extra.push(extra[from as int]), ..so_far };
        assert(read_member(name, extra[from as int].1, so_far) == Some(next));
        lemma_read_extra(extra, from + 1, next);
        assert(next.extra + extra.skip((from + 1) as int) =~= so_far.extra + extra.skip(from as int));
    } else {
        assert(so_far.extra + extra.skip(from as int) =~= so_far.extra);
    }
}

proof fn lemma_read_written_texts(texts: Seq<Seq<char>>)
    ensures
        read_texts(written_texts(texts)) == Some(texts),
{
    let items = written_texts(texts);
    assert(Seq::new(items.len(), |i: int| items[i]->String_0) =~= texts);
}

/// Named schemas that were written are read back as they were.
proof fn lemma_read_written_entries(
    entries: Seq<(Seq<char>, SerdeView)>,
    from: nat,
    so_far: Seq<(Seq<char>, SerdeView)>,
)
    requires
        from <= entries.len(),
        entries_wire_valid(entries),
    ensures
        read_entries(written_entries(entries), from, so_far) == Some(
            so_far + entries.skip(from as int),
        ),
    decreases entries, entries.len() - from,
{
    let members = written_entries(entries);
    if from < entries.len() {
        let i = from as int;
        assert(members[i] == (entries[i].0, written(entries[i].1)));
        lemma_round_trip(entries[i].1);
        let next = so_far.push((entries[i].0, entries[i].1));
        lemma_read_written_entries(entries, from + 1, next);
        assert(next + entries.skip((from + 1) as int) =~= so_far + entries.skip(i));
    } else {
        assert(so_far + entries.skip(from as int) =~= so_far);
    }
}

/// A list of named schemas that was written as an object is read back as
/// it was.
proof fn lemma_read_written_object(entries: Seq<(Seq<char>, SerdeView)>)
    requires
        entries_wire_valid(entries),
    ensures
        read_object(JsonView::Object(written_entries(entries))) == Some(entries),
    decreases entries, entries.len() + 1,
{
    lemma_read_written_entries(entries, 0, seq![]);
    assert(Seq::<(Seq<char>, SerdeView)>::empty() + entries.skip(0) =~= entries);
}

/// The keywords differ from one another.
proof fn lemma_keywords_differ()
    ensures
        "id"@.len() == 2,
        "definitions"@.len() == 11,
        "ref"@.len() == 3,
        "type"@.len() == 4,
        "enum"@.len() == 4,
        "type"@[0] != "enum"@[0],
        "elements"@.len() == 8,
        "properties"@.len() == 10,
        "optionalProperties"@.len() == 18,
        "values"@.len() == 6,
        "discriminator"@.len() == 13,
{
    reveal_strlit("id");
    reveal_strlit("definitions");
    reveal_strlit("ref");
    reveal_strlit("type");
    reveal_strlit("enum");
    reveal_strlit("elements");
    reveal_strlit("properties");
    reveal_strlit("optionalProperties");
    reveal_strlit("values");
    reveal_strlit("discriminator");
}

/// Reading one member and then the rest is reading the rest from what the
/// member gave.
proof fn lemma_read_first(
    name: Seq<char>,
    value: JsonView,
    rest: Seq<Member>,
    so_far: SerdeView,
    next: SerdeView,
)
    requires
        read_member(name, value, so_far) == Some(next),
    ensures
        read_members(seq![(name, value)] + rest, 0, so_far) == read_members(rest, 0, next),
{
    let first = seq![(name, value)];
    reveal_with_fuel(read_members, 3);
    assert(read_members(first, 0, so_far) == Some(next));
    lemma_read_concat(first, rest, 0, so_far);
}

/// Reading a member that holds a text, where there is one, and then the
/// rest.
proof fn lemma_read_text_member(
    name: Seq<char>,
    text: Option<Seq<char>>,
    rest: Seq<Member>,
    so_far: SerdeView,
    next: SerdeView,
)
    requires
        text matches Some(t) ==> read_member(name, JsonView::String(t), so_far) == Some(next),
        text.is_none() ==> next == so_far,
    ensures
        read_members(text_member(name, text) + rest, 0, so_far) == read_members(rest, 0, next),
{
    match text {
        Some(t) => lemma_read_first(name, JsonView::String(t), rest, so_far, next),
        None => {
            assert(text_member(name, text) + rest =~= rest);
        },
    }
}

/// Reading a member that holds a value, where there is one, and then the
/// rest.
proof fn lemma_read_value_member(
    name: Seq<char>,
    value: Option<JsonView>,
    rest: Seq<Member>,
    so_far: SerdeView,
    next: SerdeView,
)
    requires
        value matches Some(v) ==> read_member(name, v, so_far) == Some(next),
        value.is_none() ==> next == so_far,
    ensures
        read_members(value_member(name, value) + rest, 0, so_far) == read_members(rest, 0, next),
{
    match value {
        Some(v) => lemma_read_first(name, v, rest, so_far, next),
        None => {
            assert(value_member(name, value) + rest =~= rest);
        },
    }
}

/// A discriminator that was written is read back as it was.
proof fn lemma_read_written_discriminator(d: DiscriminatorView)
    requires
        entries_wire_valid(d.mapping),
    ensures
        read_discriminator(
            JsonView::Object(
                seq![
                    ("tag"@, JsonView::String(d.tag)),
                    ("mapping"@, JsonView::Object(written_entries(d.mapping))),
                ],
            ),
        ) == Some(d),
    decreases d.mapping, d.mapping.len() + 2,
{
    lemma_read_written_object(d.mapping);
    let members = seq![
        ("tag"@, JsonView::String(d.tag)),
        ("mapping"@, JsonView::Object(written_entries(d.mapping))),
    ];
    assert(members.len() == 2);
    assert(members[0].0 == "tag"@ && members[1].0 == "mapping"@);
    assert(read_tag_and_mapping(members[0].1, members[1].1) == Some(d));
}

proof fn lemma_member_id(text: Seq<char>, so_far: SerdeView)
    requires
        so_far.id.is_none(),
    ensures
        read_member("id"@, JsonView::String(text), so_far) == Some(
            SerdeView { id: Some(text), ..so_far },
        ),
{
}

proof fn lemma_member_definitions(
    value: JsonView,
    entries: Seq<(Seq<char>, SerdeView)>,
    so_far: SerdeView,
)
    requires
        so_far.defs.is_none(),
        read_object(value) == Some(entries),
    ensures
        read_member("definitions"@, value, so_far) == Some(
            SerdeView { defs: Some(entries), ..so_far },
        ),
{
    lemma_keywords_differ();
}

proof fn lemma_member_ref(text: Seq<char>, so_far: SerdeView)
    requires
        so_far.rxf.is_none(),
    ensures
        read_member("ref"@, JsonView::String(text), so_far) == Some(
            SerdeView { rxf: Some(text), ..so_far },
        ),
{
    lemma_keywords_differ();
}

proof fn lemma_member_type(text: Seq<char>, so_far: SerdeView)
    requires
        so_far.typ.is_none(),
    ensures
        read_member("type"@, JsonView::String(text), so_far) == Some(
            SerdeView { typ: Some(text), ..so_far },
        ),
{
    lemma_keywords_differ();
}

proof fn lemma_member_enum(texts: Seq<Seq<char>>, so_far: SerdeView)
    requires
        so_far.enm.is_none(),
    ensures
        read_member("enum"@, JsonView::Array(written_texts(texts)), so_far) == Some(
            SerdeView { enm: Some(texts), ..so_far },
        ),
{
    lemma_keywords_differ();
    lemma_read_written_texts(texts);
}

proof fn lemma_member_elements(value: JsonView, sub: SerdeView, so_far: SerdeView)
    requires
        so_far.elems.is_none(),
        read(value) == Some(sub),
    ensures
        read_member("elements"@, value, so_far) == Some(
            SerdeView { elems: Some(Box::new(sub)), ..so_far },
        ),
{
    lemma_keywords_differ();
}

proof fn lemma_member_properties(
    value: JsonView,
    entries: Seq<(Seq<char>, SerdeView)>,
    so_far: SerdeView,
)
    requires
        so_far.props.is_none(),
        read_object(value) == Some(entries),
    ensures
        read_member("properties"@, value, so_far) == Some(
            SerdeView { props: Some(entries), ..so_far },
        ),
{
    lemma_keywords_differ();
}

proof fn lemma_member_optional(
    value: JsonView,
    entries: Seq<(Seq<char>, SerdeView)>,
    so_far: SerdeView,
)
    requires
        so_far.opt_props.is_none(),
        read_object(value) == Some(entries),
    ensures
        read_member("optionalProperties"@, value, so_far) == Some(
            SerdeView { opt_props: Some(entries), ..so_far },
        ),
{
    lemma_keywords_differ();
}

proof fn lemma_member_values(value: JsonView, sub: SerdeView, so_far: SerdeView)
    requires
        so_far.values.is_none(),
        read(value) == Some(sub),
    ensures
        read_member("values"@, value, so_far) == Some(
            SerdeView { values: Some(Box::new(sub)), ..so_far },
        ),
{
    lemma_keywords_differ();
}

proof fn lemma_member_discriminator(value: JsonView, d: DiscriminatorView, so_far: SerdeView)
    requires
        so_far.discriminator.is_none(),
        read_discriminator(value) == Some(d),
    ensures
        read_member("discriminator"@, value, so_far) == Some(
            SerdeView { discriminator: Some(d), ..so_far },
        ),
{
    lemma_keywords_differ();
}

/// The members that a schema is written with, from the keyword of the
/// given rank on; what is no keyword comes last.
pub open spec fn written_from(schema: SerdeView, rank: nat) -> Seq<Member>
    decreases 11 - rank,
{
    if rank >= 10 {
        schema.extra
    } else {
        written_member(schema, rank) + written_from(schema, rank + 1)
    }
}

/// The member that a schema is written with for the keyword of the given
/// rank, where that keyword is present.
pub open spec fn written_member(schema: SerdeView, rank: nat) -> Seq<Member> {
    if rank == 0 {
        text_member("id"@, schema.id)
    } else if rank == 1 {
        value_member(
            "definitions"@,
            match schema.defs {
                Some(entries) => Some(JsonView::Object(written_entries(entries))),
                None => None,
            },
        )
    } else if rank == 2 {
        text_member("ref"@, schema.rxf)
    } else if rank == 3 {
        text_member("type"@, schema.typ)
    } else if rank == 4 {
        value_member(
            "enum"@,
            match schema.enm {
                Some(texts) => Some(JsonView::Array(written_texts(texts))),
                None => None,
            },
        )
    } else if rank == 5 {
        value_member(
            "elements"@,
            match schema.elems {
                Some(sub) => Some(written(*sub)),
                None => None,
            },
        )
    } else if rank == 6 {
        value_member(
            "properties"@,
            match schema.props {
                Some(entries) => Some(JsonView::Object(written_entries(entries))),
                None => None,
            },
        )
    } else if rank == 7 {
        value_member(
            "optionalProperties"@,
            match schema.opt_props {
                Some(entries) => Some(JsonView::Object(written_entries(entries))),
                None => None,
            },
        )
    } else if rank == 8 {
        value_member(
            "values"@,
            match schema.values {
                Some(sub) => Some(written(*sub)),
                None => None,
            },
        )
    } else {
        value_member(
            "discriminator"@,
            match schema.discriminator {
                Some(d) => Some(
                    JsonView::Object(
                        seq![
                            ("tag"@, JsonView::String(d.tag)),
                            ("mapping"@, JsonView::Object(written_entries(d.mapping))),
                        ],
                    ),
                ),
                None => None,
            },
        )
    }
}

/// What has been read of a schema when the keywords below the given rank
/// have been read.
pub open spec fn read_up_to(schema: SerdeView, rank: nat) -> SerdeView {
    SerdeView {
        id: if rank > 0 {
            schema.id
        } else {
            None
        },
        defs: if rank > 1 {
            schema.defs
        } else {
            None
        },
        rxf: if rank > 2 {
            schema.rxf
        } else {
            None
        },
        typ: if rank > 3 {
            schema.typ
        } else {
            None
        },
        enm: if rank > 4 {
            schema.enm
        } else {
            None
        },
        elems: if rank > 5 {
            schema.elems
        } else {
            None
        },
        props: if rank > 6 {
            schema.props
        } else {
            None
        },
        opt_props: if rank > 7 {
            schema.opt_props
        } else {
            None
        },
        values: if rank > 8 {
            schema.values
        } else {
            None
        },
        discriminator: if rank > 9 {
            schema.discriminator
        } else {
            None
        },
        extra: seq![],
    }
}

/// The members of a written schema are those of `written_from`, from the
/// first keyword on.
proof fn lemma_written_members(schema: SerdeView)
    ensures
        written(schema) == JsonView::Object(written_from(schema, 0)),
{
    reveal_with_fuel(written_from, 11);
}

/// Reading the member of one keyword adds that keyword to what was read.
proof fn lemma_read_rank(schema: SerdeView, rank: nat, rest: Seq<Member>)
    requires
        rank < 10,
        wire_valid(schema),
        schema.elems matches Some(sub) ==> read(written(*sub)) == Some(*sub),
        schema.values matches Some(sub) ==> read(written(*sub)) == Some(*sub),
    ensures
        read_members(written_member(schema, rank) + rest, 0, read_up_to(schema, rank))
            == read_members(rest, 0, read_up_to(schema, rank + 1)),
    decreases schema, 0nat,
{
    let s = schema;
    let so_far = read_up_to(s, rank);
    let next = read_up_to(s, rank + 1);
    if rank == 0 {
        if let Some(text) = s.id {
            lemma_member_id(text, so_far);
        }
        lemma_read_text_member("id"@, s.id, rest, so_far, next);
    } else if rank == 1 {
        let value = match s.defs {
            Some(entries) => Some(JsonView::Object(written_entries(entries))),
            None => None,
        };
        if let Some(entries) = s.defs {
            lemma_read_written_object(entries);
            lemma_member_definitions(value->Some_0, entries, so_far);
        }
        lemma_read_value_member("definitions"@, value, rest, so_far, next);
    } else if rank == 2 {
        if let Some(text) = s.rxf {
            lemma_member_ref(text, so_far);
        }
        lemma_read_text_member("ref"@, s.rxf, rest, so_far, next);
    } else if rank == 3 {
        if let Some(text) = s.typ {
            lemma_member_type(text, so_far);
        }
        lemma_read_text_member("type"@, s.typ, rest, so_far, next);
    } else if rank == 4 {
        let value = match s.enm {
            Some(texts) => Some(JsonView::Array(written_texts(texts))),
            None => None,
        };
        if let Some(texts) = s.enm {
            lemma_member_enum(texts, so_far);
        }
        lemma_read_value_member("enum"@, value, rest, so_far, next);
    } else if rank == 5 {
        let value = match s.elems {
            Some(sub) => Some(written(*sub)),
            None => None,
        };
        if let Some(sub) = s.elems {
            lemma_member_elements(value->Some_0, *sub, so_far);
        }
        lemma_read_value_member("elements"@, value, rest, so_far, next);
    } else if rank == 6 {
        let value = match s.props {
            Some(entries) => Some(JsonView::Object(written_entries(entries))),
            None => None,
        };
        if let Some(entries) = s.props {
            lemma_read_written_object(entries);
            lemma_member_properties(value->Some_0, entries, so_far);
        }
        lemma_read_value_member("properties"@, value, rest, so_far, next);
    } else if rank == 7 {
        let value = match s.opt_props {
            Some(entries) => Some(JsonView::Object(written_entries(entries))),
            None => None,
        };
        if let Some(entries) = s.opt_props {
            lemma_read_written_object(entries);
            lemma_member_optional(value->Some_0, entries, so_far);
        }
        lemma_read_value_member("optionalProperties"@, value, rest, so_far, next);
    } else if rank == 8 {
        let value = match s.values {
            Some(sub) => Some(written(*sub)),
            None => None,
        };
        if let Some(sub) = s.values {
            lemma_member_values(value->Some_0, *sub, so_far);
        }
        lemma_read_value_member("values"@, value, rest, so_far, next);
    } else {
        let value = match s.discriminator {
            Some(d) => Some(
                JsonView::Object(
                    seq![
                        ("tag"@, JsonView::String(d.tag)),
                        ("mapping"@, JsonView::Object(written_entries(d.mapping))),
                    ],
                ),
            ),
            None => None,
        };
        if let Some(d) = s.discriminator {
            lemma_read_written_discriminator(d);
            lemma_member_discriminator(value->Some_0, d, so_far);
        }
        lemma_read_value_member("discriminator"@, value, rest, so_far, next);
    }
}

/// Reading the members of a written schema from the keyword of the given
/// rank on gives the schema.
proof fn lemma_read_from_rank(schema: SerdeView, rank: nat)
    requires
        rank <= 10,
        wire_valid(schema),
        schema.elems matches Some(sub) ==> read(written(*sub)) == Some(*sub),
        schema.values matches Some(sub) ==> read(written(*sub)) == Some(*sub),
    ensures
        read_members(written_from(schema, rank), 0, read_up_to(schema, rank)) == Some(schema),
    decreases schema, 1nat, 10 - rank,
{
    if rank < 10 {
        lemma_read_rank(schema, rank, written_from(schema, rank + 1));
        lemma_read_from_rank(schema, rank + 1);
    } else {
        let so_far = read_up_to(schema, 10);
        lemma_read_extra(schema.extra, 0, so_far);
        assert(so_far.extra + schema.extra.skip(0) =~= schema.extra);
    }
}

/// A schema that was written is read back as it was.
pub proof fn lemma_round_trip(schema: SerdeView)
    requires
        wire_valid(schema),
    ensures
        read(written(schema)) == Some(schema),
    decreases schema, 2nat,
{
    if let Some(sub) = schema.elems {
        lemma_round_trip(*sub);
    }
    if let Some(sub) = schema.values {
        lemma_round_trip(*sub);
    }
    lemma_written_members(schema);
    lemma_read_from_rank(schema, 0);
}

/// The schema that is read from a JSON value keeps, beside the keywords,
/// no member that is named like a keyword.
pub proof fn lemma_read_valid(json: JsonView)
    ensures
        read(json) matches Some(schema) ==> wire_valid(schema),
    decreases json, 2nat, 0nat,
{
    match json {
        JsonView::Object(members) => lemma_read_members_valid(members, 0, empty_schema()),
        _ => {},
    }
}

proof fn lemma_read_members_valid(members: Seq<Member>, from: nat, so_far: SerdeView)
    requires
        wire_valid(so_far),
    ensures
        read_members(members, from, so_far) matches Some(schema) ==> wire_valid(schema),
    decreases members, 0nat, members.len() - from,
{
    if from < members.len() {
        lemma_read_member_valid(members[from as int].0, members[from as int].1, so_far);
        match read_member(members[from as int].0, members[from as int].1, so_far) {
            Some(next) => lemma_read_members_valid(members, from + 1, next),
            None => {},
        }
    }
}

proof fn lemma_read_member_valid(name: Seq<char>, value: JsonView, so_far: SerdeView)
    requires
        wire_valid(so_far),
    ensures
        read_member(name, value, so_far) matches Some(schema) ==> wire_valid(schema),
    decreases value, 3nat, 0nat,
{
    if name == "id"@ {
    } else if name == "definitions"@ {
        lemma_read_object_valid(value);
    } else if name == "ref"@ {
    } else if name == "type"@ {
    } else if name == "enum"@ {
    } else if name == "elements"@ {
        lemma_read_valid(value);
    } else if name == "properties"@ {
        lemma_read_object_valid(value);
    } else if name == "optionalProperties"@ {
        lemma_read_object_valid(value);
    } else if name == "values"@ {
        lemma_read_valid(value);
    } else if name == "discriminator"@ {
        match value {
            JsonView::Object(members) => {
                if members.len() == 2 {
                    lemma_read_object_valid(members[0].1);
                    lemma_read_object_valid(members[1].1);
                }
            },
            _ => {},
        }
    } else {
        let next = SerdeView { extra: so_far.extra.push((name, value)), ..so_far };
        assert forall|i: int| 0 <= i < next.extra.len() implies !is_wire_keyword(
            (#[trigger] next.extra[i]).0,
        ) by {
            if i < so_far.extra.len() {
                assert(next.extra[i] == so_far.extra[i]);
            }
        }
    }
}

proof fn lemma_read_object_valid(json: JsonView)
    ensures
        read_object(json) matches Some(entries) ==> entries_wire_valid(entries),
    decreases json, 2nat, 0nat,
{
    match json {
        JsonView::Object(members) => lemma_read_entries_valid(members, 0, seq![]),
        _ => {},
    }
}

proof fn lemma_read_entries_valid(
    members: Seq<Member>,
    from: nat,
    so_far: Seq<(Seq<char>, SerdeView)>,
)
    requires
        entries_wire_valid(so_far),
    ensures
        read_entries(members, from, so_far) matches Some(entries) ==> entries_wire_valid(entries),
    decreases members, 0nat, members.len() - from,
{
    if from < members.len() {
        lemma_read_valid(members[from as int].1);
        match read(members[from as int].1) {
            Some(sub) => {
                let next = so_far.push((members[from as int].0, sub));
                assert forall|i: int| 0 <= i < next.len() implies wire_valid(
                    (#[trigger] next[i]).1,
                ) by {
                    if i < so_far.len() {
                        assert(next[i] == so_far[i]);
                    }
                }
                lemma_read_entries_valid(members, from + 1, next);
            },
            None => {},
        }
    }
}

/// What is read from a JSON value, written and read again is what was read
/// at first: writing keeps all that reading understood.
pub proof fn lemma_read_written_read(json: JsonView)
    ensures
        read(json) matches Some(schema) ==> read(written(schema)) == Some(schema),
{
    lemma_read_valid(json);
    match read(json) {
        Some(schema) => lemma_round_trip(schema),
        None => {},
    }
}

/// The members that a schema is written with for the keywords below the
/// given rank.
pub open spec fn written_up_to(schema: SerdeView, rank: nat) -> Seq<Member>
    decreases rank,
{
    if rank == 0 {
        seq![]
    } else {
        written_up_to(schema, (rank - 1) as nat) + written_member(schema, (rank - 1) as nat)
    }
}

/// The members below a rank and those from it on are all the members.
proof fn lemma_written_split(schema: SerdeView, rank: nat)
    requires
        rank <= 10,
    ensures
        written_up_to(schema, rank) + written_from(schema, rank) == written_from(schema, 0),
    decreases rank,
{
    if rank == 0 {
        assert(written_up_to(schema, 0) + written_from(schema, 0) =~= written_from(schema, 0));
    } else {
        let k = (rank - 1) as nat;
        lemma_written_split(schema, k);
        assert(written_up_to(schema, rank) + written_from(schema, rank) =~= written_up_to(schema, k)
            + written_from(schema, k));
    }
}

/// Whether `text` holds the characters of `literal`.
pub fn is_text(text: &String, literal: &str) -> (same: bool)
    ensures
        same == (text@ == literal@),
{
    *text == literal.to_owned()
}

/// A list of strings as JSON strings.
pub fn texts_to_json(values: &Vec<String>) -> (items: Vec<Json>)
    ensures
        items_view(items) == written_texts(strings_view(values@)),
{
    let mut items: Vec<Json> = Vec::new();
    let mut i: usize = 0;
    while i < values.len()
        invariant
            i <= values.len(),
            items@.len() == i,
            forall|j: int|
                0 <= j < i ==> json_view(#[trigger] items@[j]) == JsonView::String(values@[j]@),
        decreases values.len() - i,
    {
        items.push(Json::String(values[i].clone()));
        i += 1;
    }
    assert(items_view(items) =~= written_texts(strings_view(values@)));
    items
}

/// Named schemas as the members of a JSON object.
pub fn entries_to_json(entries: &Vec<(String, Serde)>) -> (members: Vec<(String, Json)>)
    ensures
        members_view(members) == written_entries(serde_entries_view(*entries)),
    decreases entries,
{
    let ghost view = serde_entries_view(*entries);
    let mut members: Vec<(String, Json)> = Vec::new();
    let mut i: usize = 0;
    while i < entries.len()
        invariant
            i <= entries.len(),
            members@.len() == i,
            view == serde_entries_view(*entries),
            forall|j: int|
                0 <= j < i ==> (#[trigger] members@[j]).0@ == entries@[j].0@ && json_view(
                    members@[j].1,
                ) == written(serde_view(entries@[j].1)),
        decreases entries.len() - i,
    {
        members.push((entries[i].0.clone(), entries[i].1.to_json()));
        i += 1;
    }
    assert(members_view(members) =~= written_entries(view));
    members
}

/// The values of the fields of a schema as it is written.
proof fn lemma_serde_fields(serde: Serde)
    ensures
        serde@.id == option_view(serde.id),
        serde@.defs == serde_entries_option_view(serde.defs),
        serde@.rxf == option_view(serde.rxf),
        serde@.typ == option_view(serde.typ),
        serde@.enm == match serde.enm {
            Some(values) => Some(strings_view(values@)),
            None => None,
        },
        serde@.elems == match serde.elems {
            Some(sub) => Some(Box::new(sub@)),
            None => None,
        },
        serde@.props == serde_entries_option_view(serde.props),
        serde@.opt_props == serde_entries_option_view(serde.opt_props),
        serde@.values == match serde.values {
            Some(sub) => Some(Box::new(sub@)),
            None => None,
        },
        serde@.discriminator == match serde.discriminator {
            Some(d) => Some(d@),
            None => None,
        },
        serde@.extra == members_view(serde.extra),
        forall|list: Vec<(String, Serde)>| #[trigger]
            serde_entries_option_view(Some(list)) == Some(serde_entries_view(list)),
        serde_entries_option_view(None) == None::<Seq<(Seq<char>, SerdeView)>>,
{
    reveal_with_fuel(serde_view, 2);
    reveal_with_fuel(serde_entries_option_view, 2);
}

/// One more keyword: the members below the next rank are those below a
/// rank and the member of that rank.
proof fn lemma_written_next(schema: SerdeView, rank: nat)
    ensures
        written_up_to(schema, rank + 1) == written_up_to(schema, rank) + written_member(schema, rank),
{
    reveal_with_fuel(written_up_to, 2);
}

/// Adds the member that holds a text, where there is one.
fn push_text(members: &mut Vec<(String, Json)>, name: &str, text: &Option<String>)
    ensures
        members_view(*final(members)) == members_view(*old(members)) + text_member(
            name@,
            option_view(*text),
        ),
{
    let ghost before = members_view(*members);
    match text {
        Some(t) => {
            members.push((name.to_owned(), Json::String(t.clone())));
            assert(members_view(*members) =~= before + text_member(name@, option_view(*text)));
        },
        None => {
            assert(before =~= before + text_member(name@, option_view(*text)));
        },
    }
}

/// The value of a JSON value that may be absent.
pub open spec fn json_option_view(json: Option<Json>) -> Option<JsonView> {
    match json {
        Some(j) => Some(j@),
        None => None,
    }
}

/// Adds the member that holds a value, where there is one.
fn push_value(members: &mut Vec<(String, Json)>, name: &str, value: Option<Json>)
    ensures
        members_view(*final(members)) == members_view(*old(members)) + value_member(
            name@,
            json_option_view(value),
        ),
{
    let ghost before = members_view(*members);
    match value {
        Some(v) => {
            members.push((name.to_owned(), v));
            assert(members_view(*members) =~= before + value_member(name@, json_option_view(value)));
        },
        None => {
            assert(before =~= before + value_member(name@, json_option_view(value)));
        },
    }
}

/// Named schemas, where there are any, as a JSON object.
fn entries_option_to_json(entries: &Option<Vec<(String, Serde)>>) -> (json: Option<Json>)
    ensures
        json_option_view(json) == match serde_entries_option_view(*entries) {
            Some(list) => Some(JsonView::Object(written_entries(list))),
            None => None,
        },
    decreases entries,
{
    proof {
        reveal_with_fuel(serde_entries_option_view, 2);
        reveal_with_fuel(json_view, 2);
    }
    match entries {
        Some(list) => Some(Json::Object(entries_to_json(list))),
        None => None,
    }
}

/// A schema, where there is one, as a JSON value.
fn boxed_to_json(schema: &Option<Box<Serde>>) -> (json: Option<Json>)
    ensures
        json_option_view(json) == match *schema {
            Some(sub) => Some(written(sub@)),
            None => None,
        },
    decreases schema,
{
    match schema {
        Some(sub) => Some(sub.to_json()),
        None => None,
    }
}

/// A discriminator, where there is one, as a JSON object.
fn discriminator_to_json(discriminator: &Option<SerdeDiscriminator>) -> (json: Option<Json>)
    ensures
        json_option_view(json) == match *discriminator {
            Some(d) => Some(
                JsonView::Object(
                    seq![
                        ("tag"@, JsonView::String(d@.tag)),
                        ("mapping"@, JsonView::Object(written_entries(d@.mapping))),
                    ],
                ),
            ),
            None => None,
        },
    decreases discriminator,
{
    proof {
        reveal_with_fuel(json_view, 2);
    }
    match discriminator {
        Some(d) => {
            let mut inner: Vec<(String, Json)> = Vec::new();
            inner.push(("tag".to_owned(), Json::String(d.tag.clone())));
            inner.push(("mapping".to_owned(), Json::Object(entries_to_json(&d.mapping))));
            assert(members_view(inner) =~= seq![
                ("tag"@, JsonView::String(d@.tag)),
                ("mapping"@, JsonView::Object(written_entries(d@.mapping))),
            ]);
            Some(Json::Object(inner))
        },
        None => None,
    }
}

/// A list of strings, where there is one, as a JSON array.
fn texts_option_to_json(values: &Option<Vec<String>>) -> (json: Option<Json>)
    ensures
        json_option_view(json) == match *values {
            Some(list) => Some(JsonView::Array(written_texts(strings_view(list@)))),
            None => None,
        },
{
    proof {
        reveal_with_fuel(json_view, 2);
    }
    match values {
        Some(list) => Some(Json::Array(texts_to_json(list))),
        None => None,
    }
}

impl Serde {
    /// The schema as a JSON value.
    pub fn to_json(&self) -> (json: Json)
        ensures
            json@ == written(self@),
        decreases self, 1nat,
    {
        let ghost s = self@;
        proof {
            lemma_serde_fields(*self);
        }
        let mut members: Vec<(String, Json)> = Vec::new();
        assert(members_view(members) =~= written_up_to(s, 0));
        push_text(&mut members, "id", &self.id);
        proof {
            lemma_written_next(s, 0);
        }
        push_value(&mut members, "definitions", entries_option_to_json(&self.defs));
        proof {
            lemma_written_next(s, 1);
        }
        push_text(&mut members, "ref", &self.rxf);
        proof {
            lemma_written_next(s, 2);
        }
        push_text(&mut members, "type", &self.typ);
        proof {
            lemma_written_next(s, 3);
        }
        push_value(&mut members, "enum", texts_option_to_json(&self.enm));
        proof {
            lemma_written_next(s, 4);
        }
        push_value(&mut members, "elements", boxed_to_json(&self.elems));
        proof {
            lemma_written_next(s, 5);
        }
        assert(members_view(members) == written_up_to(s, 6));
        self.rest_to_json(members)
    }

    /// The members of the schema as JSON, from `properties` on, added to
    /// those before them.
    fn rest_to_json(&self, members: Vec<(String, Json)>) -> (json: Json)
        requires
            members_view(members) == written_up_to(self@, 6),
        ensures
            json@ == written(self@),
        decreases self, 0nat,
    {
        let ghost s = self@;
        proof {
            lemma_serde_fields(*self);
        }
        let mut members = members;
        push_value(&mut members, "properties", entries_option_to_json(&self.props));
        proof {
            lemma_written_next(s, 6);
        }
        push_value(&mut members, "optionalProperties", entries_option_to_json(&self.opt_props));
        proof {
            lemma_written_next(s, 7);
        }
        push_value(&mut members, "values", boxed_to_json(&self.values));
        proof {
            lemma_written_next(s, 8);
        }
        push_value(&mut members, "discriminator", discriminator_to_json(&self.discriminator));
        proof {
            lemma_written_next(s, 9);
        }
        assert(members_view(members) == written_up_to(s, 10));
        let ghost before = members_view(members);
        let mut extra = clone_members(&self.extra);
        members.append(&mut extra);
        assert(members_view(members) =~= before + members_view(self.extra));
        proof {
            lemma_written_members(s);
            lemma_written_split(s, 10);
            reveal_with_fuel(json_view, 2);
        }
        Json::Object(members)
    }
}

/// The value of a schema as it is written that may be absent.
pub open spec fn serde_option_view(serde: Option<Serde>) -> Option<SerdeView> {
    match serde {
        Some(s) => Some(s@),
        None => None,
    }
}

/// The strings that a list of JSON values holds, if it holds strings only.
pub fn texts_from_json(items: &Vec<Json>) -> (texts: Option<Vec<String>>)
    ensures
        match texts {
            Some(list) => read_texts(items_view(*items)) == Some(strings_view(list@)),
            None => read_texts(items_view(*items)).is_none(),
        },
{
    proof {
        reveal_with_fuel(json_view, 2);
    }
    let ghost view = items_view(*items);
    let mut texts: Vec<String> = Vec::new();
    let mut i: usize = 0;
    while i < items.len()
        invariant
            i <= items.len(),
            texts@.len() == i,
            view == items_view(*items),
            forall|j: int| 0 <= j < i ==> (#[trigger] view[j]) is String,
            forall|j: int| 0 <= j < i ==> (#[trigger] texts@[j])@ == view[j]->String_0,
        decreases items.len() - i,
    {
        assert(view[i as int] == json_view(items@[i as int]));
        match &items[i] {
            Json::String(text) => {
                texts.push(text.clone());
            },
            _ => {
                assert(!(view[i as int] is String));
                return None;
            },
        }
        i += 1;
    }
    assert(strings_view(texts@) =~= Seq::new(view.len(), |i: int| view[i]->String_0));
    Some(texts)
}

/// The named schemas that a JSON object holds, if its members all hold
/// schemas.
pub fn entries_from_json(json: &Json) -> (entries: Option<Vec<(String, Serde)>>)
    ensures
        match entries {
            Some(list) => read_object(json@) == Some(serde_entries_view(list)),
            None => read_object(json@).is_none(),
        },
    decreases json, 2nat,
{
    proof {
        reveal_with_fuel(json_view, 2);
    }
    match json {
        Json::Object(members) => {
            let ghost view = members_view(*members);
            let mut entries: Vec<(String, Serde)> = Vec::new();
            assert(serde_entries_view(entries) =~= seq![]);
            let mut i: usize = 0;
            while i < members.len()
                invariant
                    i <= members.len(),
                    view == members_view(*members),
                    view.len() == members@.len(),
                    *json == Json::Object(*members),
                    read_entries(view, 0, seq![]) == read_entries(
                        view,
                        i as nat,
                        serde_entries_view(entries),
                    ),
                decreases members.len() - i,
            {
                assert(view[i as int] == (members@[i as int].0@, json_view(members@[i as int].1)));
                let ghost before = serde_entries_view(entries);
                match Serde::from_json(&members[i].1) {
                    Ok(sub) => {
                        entries.push((members[i].0.clone(), sub));
                        assert(serde_entries_view(entries) =~= before.push(
                            (members@[i as int].0@, sub@),
                        ));
                    },
                    Err(_) => {
                        return None;
                    },
                }
                i += 1;
            }
            Some(entries)
        },
        _ => None,
    }
}

/// The discriminator that a JSON value holds, if it holds one.
pub fn discriminator_from_json(json: &Json) -> (d: Option<SerdeDiscriminator>)
    ensures
        match d {
            Some(found) => read_discriminator(json@) == Some(found@),
            None => read_discriminator(json@).is_none(),
        },
    decreases json, 2nat,
{
    proof {
        reveal_with_fuel(json_view, 2);
    }
    match json {
        Json::Object(members) => {
            if members.len() != 2 {
                return None;
            }
            let ghost view = members_view(*members);
            assert(view[0] == (members@[0].0@, json_view(members@[0].1)));
            assert(view[1] == (members@[1].0@, json_view(members@[1].1)));
            let (tag, mapping) = if is_text(&members[0].0, "tag") && is_text(
                &members[1].0,
                "mapping",
            ) {
                (&members[0].1, &members[1].1)
            } else if is_text(&members[1].0, "tag") && is_text(&members[0].0, "mapping") {
                (&members[1].1, &members[0].1)
            } else {
                return None;
            };
            match tag {
                Json::String(text) => match entries_from_json(mapping) {
                    Some(entries) => Some(SerdeDiscriminator { tag: text.clone(), mapping: entries }),
                    None => None,
                },
                _ => None,
            }
        },
        _ => None,
    }
}

/// The schema `so_far` with what one member adds to it, if the member may
/// be added.
pub fn read_one(name: &String, value: &Json, so_far: Serde) -> (r: Option<Serde>)
    ensures
        serde_option_view(r) == read_member(name@, value@, so_far@),
    decreases value, 3nat,
{
    proof {
        reveal_with_fuel(json_view, 2);
        lemma_serde_fields(so_far);
    }
    let mut next = so_far;
    if is_text(name, "id") {
        match value {
            Json::String(text) => {
                if next.id.is_some() {
                    return None;
                }
                next.id = Some(text.clone());
            },
            _ => {
                return None;
            },
        }
    } else if is_text(name, "definitions") {
        match entries_from_json(value) {
            Some(entries) => {
                if next.defs.is_some() {
                    return None;
                }
                next.defs = Some(entries);
            },
            None => {
                return None;
            },
        }
    } else if is_text(name, "ref") {
        match value {
            Json::String(text) => {
                if next.rxf.is_some() {
                    return None;
                }
                next.rxf = Some(text.clone());
            },
            _ => {
                return None;
            },
        }
    } else if is_text(name, "type") {
        match value {
            Json::String(text) => {
                if next.typ.is_some() {
                    return None;
                }
                next.typ = Some(text.clone());
            },
            _ => {
                return None;
            },
        }
    } else if is_text(name, "enum") {
        match value {
            Json::Array(items) => {
                if next.enm.is_some() {
                    return None;
                }
                match texts_from_json(items) {
                    Some(texts) => {
                        next.enm = Some(texts);
                    },
                    None => {
                        return None;
                    },
                }
            },
            _ => {
                return None;
            },
        }
    } else if is_text(name, "elements") {
        match Serde::from_json(value) {
            Ok(sub) => {
                if next.elems.is_some() {
                    return None;
                }
                next.elems = Some(Box::new(sub));
            },
            Err(_) => {
                return None;
            },
        }
    } else if is_text(name, "properties") {
        match entries_from_json(value) {
            Some(entries) => {
                if next.props.is_some() {
                    return None;
                }
                next.props = Some(entries);
            },
            None => {
                return None;
            },
        }
    } else if is_text(name, "optionalProperties") {
        match entries_from_json(value) {
            Some(entries) => {
                if next.opt_props.is_some() {
                    return None;
                }
                next.opt_props = Some(entries);
            },
            None => {
                return None;
            },
        }
    } else if is_text(name, "values") {
        match Serde::from_json(value) {
            Ok(sub) => {
                if next.values.is_some() {
                    return None;
                }
                next.values = Some(Box::new(sub));
            },
            Err(_) => {
                return None;
            },
        }
    } else if is_text(name, "discriminator") {
        match discriminator_from_json(value) {
            Some(d) => {
                if next.discriminator.is_some() {
                    return None;
                }
                next.discriminator = Some(d);
            },
            None => {
                return None;
            },
        }
    } else {
        let ghost before = members_view(next.extra);
        next.extra.push((name.clone(), value.clone()));
        assert(members_view(next.extra) =~= before.push((name@, value@)));
    }
    proof {
        lemma_serde_fields(next);
    }
    Some(next)
}

impl Serde {
    /// The schema that a JSON value holds, if it holds one; else
    /// `InvalidForm`.
    pub fn from_json(json: &Json) -> (r: Result<Serde, JslError>)
        ensures
            match read(json@) {
                Some(schema) => r matches Ok(s) && s@ == schema,
                None => r matches Err(e) && e@ == ErrorView::InvalidForm,
            },
        decreases json, 2nat,
    {
        proof {
            reveal_with_fuel(json_view, 2);
        }
        match json {
            Json::Object(members) => {
                let ghost view = members_view(*members);
                let mut so_far = Serde::default();
                proof {
                    lemma_serde_fields(so_far);
                    assert(members_view(so_far.extra) =~= seq![]);
                    assert(so_far@ == empty_schema());
                }
                let mut i: usize = 0;
                while i < members.len()
                    invariant
                        i <= members.len(),
                        view == members_view(*members),
                        view.len() == members@.len(),
                        *json == Json::Object(*members),
                        read(json@) == read_members(view, i as nat, so_far@),
                    decreases members.len() - i,
                {
                    assert(view[i as int] == (members@[i as int].0@, json_view(members@[i as int].1)));
                    match read_one(&members[i].0, &members[i].1, so_far) {
                        Some(next) => {
                            so_far = next;
                        },
                        None => {
                            return Err(JslError::InvalidForm);
                        },
                    }
                    i += 1;
                }
                Ok(so_far)
            },
            _ => Err(JslError::InvalidForm),
        }
    }
}

impl Schema {
    /// The canonical form of the root schema that a JSON value holds.
    ///
    /// A value that holds no schema is rejected as `InvalidForm`. Else the
    /// result is what canonicalizing the schema that it holds returns.
    pub fn from_json(json: &Json) -> (r: Result<Schema, JslError>)
        ensures
            match read(json@) {
                Some(schema) => exists|serde: Serde| serde@ == schema && #[trigger] canonicalizes(serde, r),
                None => r matches Err(e) && e@ == ErrorView::InvalidForm,
            },
    {
        match Serde::from_json(json) {
            Ok(serde) => {
                let r = Schema::from_serde(serde);
                assert(canonicalizes(serde, r));
                r
            },
            Err(e) => Err(e),
        }
    }
}

} // verus!
