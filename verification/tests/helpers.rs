use jsl::json::find_key;
use jsl::registry::{find_name, resolve_given, stays_in_document, Link};
use jsl::schema::{all_distinct, name_taken, parse_type};
use jsl::text::clone_option;
use jsl::{Form, Json, JslError, Schema, Serde, SerdeDiscriminator, SerdeSchema, Type};

fn s(text: &str) -> String {
    text.to_owned()
}

fn sub(form: Form) -> Schema {
    Schema { id: None, defs: None, form: Box::new(form), extra: vec![] }
}

#[test]
fn keys_are_found_at_their_first_position() {
    let members = vec![(s("a"), Json::Null), (s("b"), Json::Bool(true)), (s("a"), Json::Bool(false))];
    assert_eq!(find_key(&members, &s("a")), Some(0));
    assert_eq!(find_key(&members, &s("b")), Some(1));
    assert_eq!(find_key(&members, &s("c")), None);
    assert_eq!(find_key(&Vec::<(String, Json)>::new(), &s("a")), None);
}

#[test]
fn names_are_found_at_their_first_position() {
    let entries = vec![(s("x"), sub(Form::Empty)), (s("y"), sub(Form::Empty))];
    assert_eq!(find_name(&entries, &s("y")), Some(1));
    assert_eq!(find_name(&entries, &s("z")), None);
    assert!(name_taken(&entries, &s("x")));
    assert!(!name_taken(&entries, &s("")));
}

#[test]
fn type_names() {
    assert_eq!(parse_type(&s("boolean")), Some(Type::Boolean));
    assert_eq!(parse_type(&s("number")), Some(Type::Number));
    assert_eq!(parse_type(&s("string")), Some(Type::String));
    assert_eq!(parse_type(&s("timestamp")), Some(Type::Timestamp));
    assert_eq!(parse_type(&s("Boolean")), None);
    assert_eq!(parse_type(&s("")), None);
}

#[test]
fn distinct_strings() {
    assert!(all_distinct(&vec![]));
    assert!(all_distinct(&vec![s("a"), s("b"), s("c")]));
    assert!(!all_distinct(&vec![s("a"), s("b"), s("a")]));
    assert!(!all_distinct(&vec![s("a"), s("b"), s("b")]));
}

#[test]
fn references_are_collected_in_order() {
    let schema = Schema {
        id: None,
        defs: Some(vec![
            (s("d1"), sub(Form::Ref(s("r5")))),
            (s("d2"), sub(Form::Values(sub(Form::Ref(s("r6")))))),
        ]),
        form: Box::new(Form::Properties(
            vec![(s("p"), sub(Form::Ref(s("r1")))), (s("q"), sub(Form::Type(Type::String)))],
            vec![(
                s("o"),
                sub(Form::Discriminator(
                    s("t"),
                    vec![
                        (s("m"), sub(Form::Elements(sub(Form::Ref(s("r2")))))),
                        (s("n"), sub(Form::Ref(s("r3")))),
                    ],
                )),
            ), (s("u"), sub(Form::Ref(s("r4"))))],
            true,
        )),
        extra: vec![],
    };
    assert_eq!(schema.refs(), vec![s("r1"), s("r2"), s("r3"), s("r4"), s("r5"), s("r6")]);

    let mut out = vec![s("first")];
    schema.collect_refs(&mut out);
    assert_eq!(out, vec![s("first"), s("r1"), s("r2"), s("r3"), s("r4")]);

    let defs = vec![(s("r1"), sub(Form::Empty)), (s("r2"), sub(Form::Empty))];
    assert_eq!(Schema::check_refs(&defs, &vec![s("r2"), s("r1"), s("r2")]), Ok(()));
    assert_eq!(
        Schema::check_refs(&defs, &vec![s("r2"), s("r4"), s("r3")]),
        Err(JslError::NoSuchDefinition { definition: s("r4") })
    );
    assert_eq!(Schema::check_refs(&defs, &vec![]), Ok(()));
}

#[test]
fn links_by_the_shape_of_a_reference() {
    assert!(stays_in_document(&s("")));
    assert!(stays_in_document(&s("#")));
    assert!(stays_in_document(&s("#a")));
    assert!(!stays_in_document(&s("a#")));
    assert_eq!(clone_option(&Some(s("x"))), Some(s("x")));
    assert_eq!(clone_option(&None), None);

    let defs = vec![(s("#named"), sub(Form::Empty))];
    let base = Some(s("http://example.com/"));
    assert_eq!(
        resolve_given(&base, &defs, &s("#named"), None),
        Ok(Link { document: base.clone(), definition: Some(s("#named")) })
    );
    assert_eq!(
        resolve_given(&base, &defs, &s("#other"), None),
        Ok(Link { document: base.clone(), definition: Some(s("other")) })
    );
    assert_eq!(
        resolve_given(&base, &defs, &s("x"), Some(s("http://example.com/x#y"))),
        Ok(Link { document: Some(s("http://example.com/x")), definition: Some(s("y")) })
    );
    assert_eq!(resolve_given(&base, &defs, &s("x"), None), Err(JslError::InvalidForm));
    assert_eq!(
        resolve_given(&None, &defs, &s("x"), None),
        Err(JslError::RelativeRefFromAnonymousSchema)
    );
    assert_eq!(
        resolve_given(&None, &defs, &s(""), None),
        Ok(Link { document: None, definition: None })
    );
}

#[test]
fn the_schema_without_keywords() {
    let empty: SerdeSchema = Serde::default();
    assert_eq!(empty.id, None);
    assert_eq!(empty.defs, None);
    assert_eq!(empty.rxf, None);
    assert_eq!(empty.typ, None);
    assert_eq!(empty.enm, None);
    assert_eq!(empty.elems, None);
    assert_eq!(empty.props, None);
    assert_eq!(empty.opt_props, None);
    assert_eq!(empty.values, None);
    assert_eq!(empty.discriminator, None);
    assert_eq!(empty.extra, vec![]);
    let d = SerdeDiscriminator::default();
    assert_eq!(d.tag, "");
    assert_eq!(d.mapping, vec![]);
}

#[test]
fn copies_have_the_same_value() {
    let json = Json::Object(vec![
        (s("a"), Json::Array(vec![Json::Null, Json::Bool(true), Json::Number(s("1e3"))])),
        (s("b"), Json::String(s("text"))),
    ]);
    assert_eq!(json.clone(), json);

    let serde = Serde {
        id: Some(s("http://example.com/")),
        defs: Some(vec![(s("d"), Serde { typ: Some(s("string")), ..Serde::default() })]),
        props: Some(vec![(s("p"), Serde { rxf: Some(s("d")), ..Serde::default() })]),
        opt_props: Some(vec![(
            s("o"),
            Serde {
                discriminator: Some(SerdeDiscriminator {
                    tag: s("t"),
                    mapping: vec![(s("m"), Serde { props: Some(vec![]), ..Serde::default() })],
                }),
                ..Serde::default()
            },
        )]),
        extra: vec![(s("x"), json.clone())],
        ..Serde::default()
    };
    assert_eq!(serde.clone(), serde);
    let d = SerdeDiscriminator { tag: s("t"), mapping: vec![(s("m"), serde.clone())] };
    assert_eq!(d.clone(), d);

    let schema = Schema::from_serde(serde.clone()).unwrap();
    assert_eq!(schema.clone(), schema);
    assert_eq!(schema.form().clone(), *schema.form());
    assert_eq!(Schema::from_serde(serde.clone()), Schema::from_serde(serde));

    let other = Schema {
        id: None,
        defs: None,
        form: Box::new(Form::Enum(vec![s("A"), s("B")])),
        extra: vec![],
    };
    assert_eq!(Form::Elements(other.clone()).clone(), Form::Elements(other.clone()));
    assert_eq!(Form::Values(other.clone()).clone(), Form::Values(other));
}

#[test]
fn errors_in_words() {
    assert_eq!(JslError::InvalidForm.message(), "invalid schema form");
    assert_eq!(
        JslError::AmbiguousProperty { property: s("p") }.message(),
        "ambiguous property: p"
    );
    assert_eq!(
        JslError::NoSuchDefinition { definition: s("d") }.message(),
        "no such definition: d"
    );
    assert_eq!(JslError::NonRoot.message(), "schema is not a root schema");
    assert_eq!(
        JslError::RelativeRefFromAnonymousSchema.message(),
        "relative reference from a schema without id"
    );
    assert_eq!(
        JslError::MaxDepthExceeded.message(),
        "maximum reference depth exceeded during validation"
    );
}
