use jsl::wire::{discriminator_from_json, entries_from_json, entries_to_json, is_text, read_one};
use jsl::wire::{texts_from_json, texts_to_json};
use jsl::{Config, Form, Json, JslError, Schema, Serde, SerdeDiscriminator, Type, Validator};
use serde_json::Value;

fn s(text: &str) -> String {
    text.to_owned()
}

fn json_from_value(value: &Value) -> Json {
    match value {
        Value::Null => Json::Null,
        Value::Bool(b) => Json::Bool(*b),
        Value::Number(n) => Json::Number(n.to_string()),
        Value::String(t) => Json::String(t.clone()),
        Value::Array(items) => Json::Array(items.iter().map(json_from_value).collect()),
        Value::Object(members) => {
            Json::Object(members.iter().map(|(k, v)| (k.clone(), json_from_value(v))).collect())
        }
    }
}

fn value_from_json(json: &Json) -> Value {
    match json {
        Json::Null => Value::Null,
        Json::Bool(b) => Value::Bool(*b),
        Json::Number(text) => serde_json::from_str(text).unwrap(),
        Json::String(t) => Value::String(t.clone()),
        Json::Array(items) => Value::Array(items.iter().map(value_from_json).collect()),
        Json::Object(members) => {
            Value::Object(members.iter().map(|(k, v)| (k.clone(), value_from_json(v))).collect())
        }
    }
}

fn parse(text: &str) -> Json {
    json_from_value(&serde_json::from_str::<Value>(text).expect("failed to parse json"))
}

#[test]
fn schema_roundtrip_json() {
    let data = r#"{
  "definitions": {
    "a": {}
  },
  "ref": "http://example.com/bar",
  "type": "foo",
  "enum": [
    "FOO",
    "BAR"
  ],
  "elements": {},
  "properties": {
    "a": {}
  },
  "optionalProperties": {
    "a": {}
  },
  "values": {},
  "discriminator": {
    "tag": "foo",
    "mapping": {
      "a": {}
    }
  },
  "extra": "foo"
}"#;

    let parsed: Serde = Serde::from_json(&parse(data)).expect("failed to parse json");
    assert_eq!(
        parsed,
        Serde {
            id: None,
            rxf: Some("http://example.com/bar".to_owned()),
            defs: Some(vec![("a".to_owned(), Serde::default())]),
            typ: Some("foo".to_owned()),
            enm: Some(vec!["FOO".to_owned(), "BAR".to_owned()]),
            elems: Some(Box::new(Serde::default())),
            props: Some(vec![("a".to_owned(), Serde::default())]),
            opt_props: Some(vec![("a".to_owned(), Serde::default())]),
            values: Some(Box::new(Serde::default())),
            discriminator: Some(SerdeDiscriminator {
                tag: "foo".to_owned(),
                mapping: vec![("a".to_owned(), Serde::default())],
            }),
            extra: vec![("extra".to_owned(), Json::String("foo".to_owned()))],
        }
    );

    let round_trip = serde_json::to_string_pretty(&value_from_json(&parsed.to_json()))
        .expect("failed to serialize json");
    assert_eq!(round_trip, data);
}

#[test]
fn keywords_are_read_in_any_order() {
    let text = r#"{
        "note": [1, 2.5, null],
        "optionalProperties": {"o": {"type": "string"}},
        "id": "http://example.com/x",
        "more": {"type": 1},
        "properties": {"p": {"values": {"enum": ["A"]}}},
        "definitions": {"d": {"discriminator": {"mapping": {"m": {"properties": {}}}, "tag": "t"}}}
    }"#;
    let serde = Serde::from_json(&parse(text)).unwrap();
    assert_eq!(serde.id, Some(s("http://example.com/x")));
    assert_eq!(
        serde.extra,
        vec![
            (s("note"), Json::Array(vec![Json::Number(s("1")), Json::Number(s("2.5")), Json::Null])),
            (s("more"), Json::Object(vec![(s("type"), Json::Number(s("1")))])),
        ]
    );
    let written = serde.to_json();
    match &written {
        Json::Object(members) => {
            let names: Vec<&str> = members.iter().map(|(k, _)| k.as_str()).collect();
            assert_eq!(
                names,
                vec!["id", "definitions", "properties", "optionalProperties", "note", "more"]
            );
        }
        _ => panic!("a schema is written as an object"),
    }
    assert_eq!(Serde::from_json(&written), Ok(serde.clone()));
    assert_eq!(Serde::from_json(&written).unwrap().to_json(), written);
    assert_eq!(value_from_json(&written), value_from_json(&serde.clone().to_json()));
}

#[test]
fn what_is_no_schema_is_rejected() {
    let bad = [
        r#"[]"#,
        r#""type""#,
        r#"{"type": 1}"#,
        r#"{"id": null}"#,
        r#"{"ref": {}}"#,
        r#"{"enum": "A"}"#,
        r#"{"enum": ["A", 1]}"#,
        r#"{"elements": []}"#,
        r#"{"elements": {"type": false}}"#,
        r#"{"values": 1}"#,
        r#"{"properties": []}"#,
        r#"{"properties": {"a": 1}}"#,
        r#"{"optionalProperties": "x"}"#,
        r#"{"definitions": {"a": {"ref": 1}}}"#,
        r#"{"discriminator": {"tag": "t"}}"#,
        r#"{"discriminator": {"tag": 1, "mapping": {}}}"#,
        r#"{"discriminator": {"tag": "t", "mapping": []}}"#,
        r#"{"discriminator": {"tag": "t", "mapping": {}, "more": 1}}"#,
        r#"{"discriminator": {"propertyName": "t", "mapping": {}}}"#,
    ];
    for text in bad {
        assert_eq!(Serde::from_json(&parse(text)), Err(JslError::InvalidForm), "{}", text);
        assert_eq!(Schema::from_json(&parse(text)), Err(JslError::InvalidForm), "{}", text);
    }
    let twice = Json::Object(vec![
        (s("type"), Json::String(s("string"))),
        (s("type"), Json::String(s("string"))),
    ]);
    assert_eq!(Serde::from_json(&twice), Err(JslError::InvalidForm));
}

#[test]
fn schemas_are_parsed_from_json() {
    assert_eq!(
        Schema::from_json(&parse(r#"{"definitions": {"a": {"type": "boolean"}}, "ref": "a"}"#)),
        Ok(Schema {
            id: None,
            defs: Some(vec![(
                s("a"),
                Schema { id: None, defs: None, form: Box::new(Form::Type(Type::Boolean)), extra: vec![] },
            )]),
            form: Box::new(Form::Ref(s("a"))),
            extra: vec![],
        })
    );
    assert_eq!(
        Schema::from_json(&parse(r#"{"ref": "a"}"#)),
        Err(JslError::NoSuchDefinition { definition: s("a") })
    );
    assert_eq!(
        Schema::from_json(&parse(r#"{"type": "string", "values": {}}"#)),
        Err(JslError::InvalidForm)
    );
}

#[test]
fn parts_of_the_wire_format() {
    assert!(is_text(&s("tag"), "tag"));
    assert!(!is_text(&s("tag"), "tags"));
    assert_eq!(
        texts_to_json(&vec![s("a"), s("b")]),
        vec![Json::String(s("a")), Json::String(s("b"))]
    );
    assert_eq!(
        texts_from_json(&vec![Json::String(s("a")), Json::String(s("b"))]),
        Some(vec![s("a"), s("b")])
    );
    assert_eq!(texts_from_json(&vec![Json::String(s("a")), Json::Null]), None);
    assert_eq!(texts_from_json(&vec![]), Some(vec![]));

    let entries = vec![
        (s("x"), Serde { typ: Some(s("string")), ..Serde::default() }),
        (s("y"), Serde::default()),
    ];
    let written = entries_to_json(&entries);
    assert_eq!(
        written,
        vec![
            (s("x"), Json::Object(vec![(s("type"), Json::String(s("string")))])),
            (s("y"), Json::Object(vec![])),
        ]
    );
    assert_eq!(entries_from_json(&Json::Object(written)), Some(entries.clone()));
    assert_eq!(entries_from_json(&Json::Null), None);

    let d = Json::Object(vec![
        (s("mapping"), Json::Object(entries_to_json(&entries))),
        (s("tag"), Json::String(s("t"))),
    ]);
    assert_eq!(
        discriminator_from_json(&d),
        Some(SerdeDiscriminator { tag: s("t"), mapping: entries })
    );
    assert_eq!(discriminator_from_json(&Json::Array(vec![])), None);

    let base = Serde { typ: Some(s("string")), ..Serde::default() };
    assert_eq!(read_one(&s("type"), &Json::String(s("number")), base.clone()), None);
    assert_eq!(
        read_one(&s("ref"), &Json::String(s("r")), base.clone()),
        Some(Serde { rxf: Some(s("r")), ..base.clone() })
    );
    assert_eq!(
        read_one(&s("other"), &Json::Bool(true), base.clone()),
        Some(Serde { extra: vec![(s("other"), Json::Bool(true))], ..base })
    );
}

fn errors_of(validator: &Validator, schema: &str, instance: &str) -> Vec<(String, String)> {
    let schema = Schema::from_json(&parse(schema)).unwrap();
    let mut found: Vec<(String, String)> = validator
        .validate(&schema, &parse(instance))
        .unwrap()
        .iter()
        .map(|e| (e.instance_pointer(), e.schema_pointer()))
        .collect();
    found.sort();
    found
}

fn at(instance: &str, schema: &str) -> (String, String) {
    (s(instance), s(schema))
}

#[test]
fn documents_from_text_give_the_standard_paths() {
    let v = Validator::new();
    let person = r#"{"properties":{"name":{"type":"string"},"age":{"type":"number"}}}"#;
    assert_eq!(errors_of(&v, person, r#"{"name":"John","age":43}"#), vec![]);
    assert_eq!(
        errors_of(&v, person, r#"{"age":"43"}"#),
        vec![at("", "/properties/name"), at("/age", "/properties/age/type")]
    );

    let list = r#"{"elements":{"type":"string"}}"#;
    assert_eq!(errors_of(&v, list, r#"["a","b",3]"#), vec![at("/2", "/elements/type")]);

    let named = r#"{"definitions":{"a":{"type":"boolean"}},"ref":"a"}"#;
    assert_eq!(errors_of(&v, named, "true"), vec![]);
    assert_eq!(errors_of(&v, named, "1"), vec![at("", "/definitions/a/type")]);

    let cyclic = Schema::from_json(&parse(r#"{"definitions":{"a":{"ref":"a"}},"ref":"a"}"#)).unwrap();
    assert_eq!(v.validate(&cyclic, &parse("{}")), Err(JslError::MaxDepthExceeded));

    let tagged =
        r#"{"discriminator":{"tag":"t","mapping":{"x":{"properties":{"v":{"type":"string"}}}}}}"#;
    assert_eq!(errors_of(&v, tagged, r#"{"t":"x","v":"ok"}"#), vec![]);
    assert_eq!(errors_of(&v, tagged, r#"{"t":"y"}"#), vec![at("/t", "/discriminator/mapping")]);
    assert_eq!(errors_of(&v, tagged, "{}"), vec![at("", "/discriminator/tag")]);

    let mut config = Config::new();
    config.strict_instance_semantics(true);
    let strict = Validator::new_with_config(config);
    assert_eq!(
        errors_of(&strict, r#"{"properties":{"a":{}}}"#, r#"{"a":1,"b":2}"#),
        vec![at("/b", "")]
    );
    assert_eq!(errors_of(&strict, tagged, r#"{"t":"x","v":"ok"}"#), vec![]);

    let phones = r#"{"properties":{"name":{"type":"string"},"age":{"type":"number"},
        "phones":{"elements":{"type":"string"}}}}"#;
    assert_eq!(
        errors_of(&v, phones, r#"{"age":"43","phones":["+44 1234567",442345678]}"#),
        vec![
            at("", "/properties/name"),
            at("/age", "/properties/age/type"),
            at("/phones/1", "/properties/phones/elements/type"),
        ]
    );
}
