use jsl::{Form, Json, JslError, Schema, Serde, SerdeDiscriminator, Type};
use serde_json::Value;

fn s(text: &str) -> String {
    text.to_owned()
}

fn json_of(value: &Value) -> Json {
    match value {
        Value::Null => Json::Null,
        Value::Bool(b) => Json::Bool(*b),
        Value::Number(n) => Json::Number(n.to_string()),
        Value::String(t) => Json::String(t.clone()),
        Value::Array(items) => Json::Array(items.iter().map(json_of).collect()),
        Value::Object(members) => {
            Json::Object(members.iter().map(|(k, v)| (k.clone(), json_of(v))).collect())
        }
    }
}

fn from_text(text: &str) -> Serde {
    Serde::from_json(&json_of(&serde_json::from_str::<Value>(text).unwrap())).unwrap()
}

fn keyword_type(name: &str) -> Serde {
    Serde { typ: Some(s(name)), ..Serde::default() }
}

fn sub(form: Form) -> Schema {
    Schema { id: None, defs: None, form: Box::new(form), extra: vec![] }
}

fn root(form: Form) -> Schema {
    Schema { id: None, defs: Some(vec![]), form: Box::new(form), extra: vec![] }
}

#[test]
fn from_serde_root() {
    assert_eq!(
        Schema::from_serde(from_text(r#"{"definitions": {"a": {"type": "boolean"}}}"#)).unwrap(),
        Schema {
            id: None,
            defs: Some(vec![(s("a"), sub(Form::Type(Type::Boolean)))]),
            form: Box::new(Form::Empty),
            extra: vec![],
        }
    );
}

#[test]
fn from_serde_empty() {
    assert_eq!(
        Schema::from_serde(from_text("{}")).unwrap(),
        Schema { id: None, defs: Some(vec![]), form: Box::new(Form::Empty), extra: vec![] }
    );
}

#[test]
fn from_serde_extra() {
    assert_eq!(
        Schema::from_serde(from_text(r#"{"foo": "bar"}"#)).unwrap(),
        Schema {
            id: None,
            defs: Some(vec![]),
            form: Box::new(Form::Empty),
            extra: vec![(s("foo"), Json::String(s("bar")))],
        }
    );
}

#[test]
fn from_serde_ref() {
    assert_eq!(
        Schema::from_serde(from_text(
            r#"{"definitions": {"a": {"type": "boolean"}}, "ref": "a"}"#
        ))
        .unwrap(),
        Schema {
            id: None,
            defs: Some(vec![(s("a"), sub(Form::Type(Type::Boolean)))]),
            form: Box::new(Form::Ref(s("a"))),
            extra: vec![],
        }
    );

    assert!(Schema::from_serde(from_text(
        r#"{"definitions": {"a": {"type": "boolean"}}, "ref": ""}"#
    ))
    .is_err());
}

#[test]
fn from_serde_type() {
    assert_eq!(
        Schema::from_serde(from_text(r#"{"type": "boolean"}"#)).unwrap(),
        root(Form::Type(Type::Boolean))
    );
    assert_eq!(
        Schema::from_serde(from_text(r#"{"type": "number"}"#)).unwrap(),
        root(Form::Type(Type::Number))
    );
    assert_eq!(
        Schema::from_serde(from_text(r#"{"type": "string"}"#)).unwrap(),
        root(Form::Type(Type::String))
    );
    assert_eq!(
        Schema::from_serde(from_text(r#"{"type": "timestamp"}"#)).unwrap(),
        root(Form::Type(Type::Timestamp))
    );
    assert!(Schema::from_serde(from_text(r#"{"type": "nonsense"}"#)).is_err());
}

#[test]
fn from_serde_enum() {
    assert_eq!(
        Schema::from_serde(from_text(r#"{"enum": ["FOO", "BAR"]}"#)).unwrap(),
        root(Form::Enum(vec![s("FOO"), s("BAR")]))
    );

    assert!(Schema::from_serde(from_text(r#"{"enum": []}"#)).is_err());

    assert!(Schema::from_serde(from_text(r#"{"enum": ["FOO", "FOO"]}"#)).is_err());
}

#[test]
fn from_serde_elements() {
    assert_eq!(
        Schema::from_serde(from_text(r#"{"elements": {"type": "boolean"}}"#)).unwrap(),
        root(Form::Elements(sub(Form::Type(Type::Boolean))))
    );
}

#[test]
fn from_serde_properties() {
    assert_eq!(
        Schema::from_serde(from_text(
            r#"{
                "properties": {"a": {"type": "boolean"}},
                "optionalProperties": {"b": {"type": "boolean"}}
            }"#
        ))
        .unwrap(),
        root(Form::Properties(
            vec![(s("a"), sub(Form::Type(Type::Boolean)))],
            vec![(s("b"), sub(Form::Type(Type::Boolean)))],
            true,
        ))
    );

    assert_eq!(
        Schema::from_serde(from_text(r#"{"optionalProperties": {"b": {"type": "boolean"}}}"#))
            .unwrap(),
        root(Form::Properties(
            vec![],
            vec![(s("b"), sub(Form::Type(Type::Boolean)))],
            false,
        ))
    );

    assert!(Schema::from_serde(from_text(
        r#"{
            "properties": {"a": {"type": "boolean"}},
            "optionalProperties": {"a": {"type": "boolean"}}
        }"#
    ))
    .is_err());
}

#[test]
fn from_serde_values() {
    assert_eq!(
        Schema::from_serde(from_text(r#"{"values": {"type": "boolean"}}"#)).unwrap(),
        root(Form::Values(sub(Form::Type(Type::Boolean))))
    );
}

#[test]
fn from_serde_discriminator() {
    assert_eq!(
        Schema::from_serde(from_text(
            r#"{
                "discriminator": {
                    "tag": "foo",
                    "mapping": {"a": {"properties": {}}, "b": {"properties": {}}}
                }
            }"#
        ))
        .unwrap(),
        root(Form::Discriminator(
            s("foo"),
            vec![
                (s("a"), sub(Form::Properties(vec![], vec![], true))),
                (s("b"), sub(Form::Properties(vec![], vec![], true))),
            ],
        ))
    );

    assert!(Schema::from_serde(from_text(
        r#"{"discriminator": {"tag": "foo", "mapping": {"a": {"type": "boolean"}}}}"#
    ))
    .is_err());

    assert!(Schema::from_serde(from_text(
        r#"{
            "discriminator": {
                "tag": "foo",
                "mapping": {"a": {"properties": {"foo": {"type": "boolean"}}}}
            }
        }"#
    ))
    .is_err());
}

#[test]
fn each_error_of_canonicalization() {
    assert_eq!(
        Schema::from_serde(Serde {
            rxf: Some(s("a")),
            typ: Some(s("boolean")),
            defs: Some(vec![(s("a"), Serde::default())]),
            ..Serde::default()
        }),
        Err(JslError::InvalidForm)
    );
    assert_eq!(
        Schema::from_serde(Serde {
            elems: Some(Box::new(Serde::default())),
            values: Some(Box::new(Serde::default())),
            ..Serde::default()
        }),
        Err(JslError::InvalidForm)
    );
    assert_eq!(Schema::from_serde(keyword_type("nonsense")), Err(JslError::InvalidForm));
    assert_eq!(
        Schema::from_serde(Serde {
            props: Some(vec![(s("a"), Serde::default())]),
            opt_props: Some(vec![(s("a"), Serde::default())]),
            ..Serde::default()
        }),
        Err(JslError::AmbiguousProperty { property: s("a") })
    );
    assert_eq!(
        Schema::from_serde(Serde {
            props: Some(vec![(s("a"), Serde::default()), (s("a"), Serde::default())]),
            ..Serde::default()
        }),
        Err(JslError::AmbiguousProperty { property: s("a") })
    );
    assert_eq!(
        Schema::from_serde(Serde {
            discriminator: Some(SerdeDiscriminator {
                tag: s("foo"),
                mapping: vec![(
                    s("a"),
                    Serde {
                        opt_props: Some(vec![(s("foo"), Serde::default())]),
                        ..Serde::default()
                    },
                )],
            }),
            ..Serde::default()
        }),
        Err(JslError::AmbiguousProperty { property: s("foo") })
    );
    assert_eq!(
        Schema::from_serde(Serde { rxf: Some(s("nowhere")), ..Serde::default() }),
        Err(JslError::NoSuchDefinition { definition: s("nowhere") })
    );
    assert_eq!(
        Schema::from_serde(Serde {
            defs: Some(vec![(
                s("a"),
                Serde { elems: Some(Box::new(Serde { rxf: Some(s("b")), ..Serde::default() })), ..Serde::default() },
            )]),
            ..Serde::default()
        }),
        Err(JslError::NoSuchDefinition { definition: s("b") })
    );
    assert_eq!(
        Schema::from_serde(Serde { id: Some(s("not a url")), ..Serde::default() }),
        Err(JslError::InvalidForm)
    );
}

#[test]
fn canonicalization_is_a_function() {
    let make = || Serde {
        defs: Some(vec![(s("a"), keyword_type("string"))]),
        props: Some(vec![(s("x"), Serde { rxf: Some(s("a")), ..Serde::default() })]),
        extra: vec![(s("note"), Json::Bool(true))],
        ..Serde::default()
    };
    assert_eq!(Schema::from_serde(make()), Schema::from_serde(make()));
}

#[test]
fn identifier_is_written_as_a_url() {
    let schema = Schema::from_serde(Serde {
        id: Some(s("HTTP://Example.COM")),
        rxf: Some(s("/other#d")),
        ..Serde::default()
    })
    .unwrap();
    assert_eq!(schema.id, Some(s("http://example.com/")));
    assert!(schema.is_root());
    assert_eq!(schema.form(), &Form::Ref(s("/other#d")));
    assert_eq!(schema.definitions(), &Some(vec![]));
    assert_eq!(schema.refs(), vec![s("/other#d")]);
}
