use jsl::registry::{resolve, split_fragment, Link, Registry};
use jsl::{Form, JslError, Schema, Serde};
use url::Url;

fn s(text: &str) -> String {
    text.to_owned()
}

fn reference(to: &str) -> Serde {
    Serde { rxf: Some(s(to)), ..Serde::default() }
}

fn document(id: &str, defs: Vec<(&str, Serde)>) -> Schema {
    Schema::from_serde(Serde {
        id: Some(s(id)),
        defs: Some(defs.into_iter().map(|(k, v)| (s(k), v)).collect()),
        ..Serde::default()
    })
    .unwrap()
}

fn url(text: &str) -> String {
    Url::parse(text).unwrap().to_string()
}

fn json_of(value: &serde_json::Value) -> jsl::Json {
    match value {
        serde_json::Value::Null => jsl::Json::Null,
        serde_json::Value::Bool(b) => jsl::Json::Bool(*b),
        serde_json::Value::Number(n) => jsl::Json::Number(n.to_string()),
        serde_json::Value::String(t) => jsl::Json::String(t.clone()),
        serde_json::Value::Array(items) => jsl::Json::Array(items.iter().map(json_of).collect()),
        serde_json::Value::Object(members) => {
            jsl::Json::Object(members.iter().map(|(k, v)| (k.clone(), json_of(v))).collect())
        }
    }
}

fn from_text(text: &str) -> Serde {
    Serde::from_json(&json_of(&serde_json::from_str::<serde_json::Value>(text).unwrap())).unwrap()
}

#[test]
fn register() {
    let mut registry = Registry::new();
    let missing1 = registry
        .register(
            Schema::from_serde(from_text(
                r##"{
                    "id": "http://example.com/foo",
                    "definitions": {
                        "a": {"ref": ""},
                        "b": {"ref": "#"},
                        "c": {"ref": "#c"},
                        "d": {"ref": "http://example.com/foo#d"}
                    }
                }"##,
            ))
            .unwrap(),
        )
        .unwrap();

    assert_eq!(missing1, &Vec::<String>::new());

    let missing2 = registry
        .register(
            Schema::from_serde(from_text(
                r##"{
                    "id": "http://example.com/foo",
                    "definitions": {
                        "a": {"ref": "/bar"},
                        "b": {"ref": "//foo.example.com"},
                        "c": {"ref": "/bar#c"},
                        "d": {"ref": "//foo.example.com#d"}
                    }
                }"##,
            ))
            .unwrap(),
        )
        .unwrap();

    let mut missing2: Vec<_> = missing2.iter().cloned().collect();
    missing2.sort();
    assert_eq!(missing2, vec![url("http://example.com/bar"), url("http://foo.example.com")]);

    let missing3 = registry
        .register(
            Schema::from_serde(from_text(
                r#"{"id": "http://example.com/bar", "definitions": {"c": {}}}"#,
            ))
            .unwrap(),
        )
        .unwrap();

    assert_eq!(missing3, &vec![url("http://foo.example.com")]);

    let missing4 = registry
        .register(
            Schema::from_serde(from_text(
                r#"{"id": "http://foo.example.com", "definitions": {"d": {}}}"#,
            ))
            .unwrap(),
        )
        .unwrap();

    assert_eq!(missing4, &Vec::<String>::new());
    assert!(registry.is_sealed());

    let missing5 = registry
        .register(
            Schema::from_serde(from_text(
                r#"{
                    "id": "http://bar.example.com",
                    "definitions": {
                        "a": {"ref": "/1"},
                        "b": {"elements": {"ref": "/2"}},
                        "c": {
                            "properties": {"a": {"ref": "/3"}},
                            "optionalProperties": {"b": {"ref": "/4"}}
                        },
                        "d": {"values": {"ref": "/5"}},
                        "e": {
                            "discriminator": {
                                "tag": "foo",
                                "mapping": {"a": {"properties": {"a": {"ref": "/6"}}}}
                            }
                        }
                    }
                }"#,
            ))
            .unwrap(),
        )
        .unwrap();

    let mut missing5: Vec<_> = missing5.iter().cloned().collect();
    missing5.sort();
    assert_eq!(
        missing5,
        vec![
            url("http://bar.example.com/1"),
            url("http://bar.example.com/2"),
            url("http://bar.example.com/3"),
            url("http://bar.example.com/4"),
            url("http://bar.example.com/5"),
            url("http://bar.example.com/6"),
        ]
    );
}

#[test]
fn registry_refuses_what_is_no_root() {
    let mut registry = Registry::default();
    let schema = Schema { id: None, defs: None, form: Box::new(Form::Empty), extra: vec![] };
    assert_eq!(registry.register(schema), Err(JslError::NonRoot));
    assert!(registry.is_sealed());
    assert!(registry.get(&None).is_none());
}

#[test]
fn registry_rejects_a_relative_reference_without_base() {
    let mut registry = Registry::new();
    let schema = Schema {
        id: None,
        defs: Some(vec![]),
        form: Box::new(Form::Ref(s("/elsewhere"))),
        extra: vec![],
    };
    assert_eq!(registry.register(schema), Err(JslError::RelativeRefFromAnonymousSchema));
    assert!(registry.get(&None).is_none());
    assert_eq!(registry.missing_ids(), &Vec::<String>::new());
}

#[test]
fn registry_follows_an_absolute_reference_without_base() {
    let mut registry = Registry::new();
    let schema = Schema {
        id: None,
        defs: Some(vec![]),
        form: Box::new(Form::Elements(Schema {
            id: None,
            defs: None,
            form: Box::new(Form::Ref(s("http://schemas.example.com/user.json"))),
            extra: vec![],
        })),
        extra: vec![],
    };
    let missing = registry.register(schema).unwrap();
    assert_eq!(missing, &vec![s("http://schemas.example.com/user.json")]);
    assert!(!registry.is_sealed());
    assert!(registry.get(&None).is_some());

    let missing = registry
        .register(document("http://schemas.example.com/user.json", vec![]))
        .unwrap();
    assert_eq!(missing, &Vec::<String>::new());
    assert!(registry.is_sealed());
}

#[test]
fn registry_checks_definitions_of_documents_that_are_there() {
    let mut registry = Registry::new();
    registry.register(document("http://example.com/a", vec![("x", Serde::default())])).unwrap();
    assert_eq!(
        registry.register(document("http://example.com/b", vec![("y", reference("/a#nope"))])),
        Err(JslError::NoSuchDefinition { definition: s("nope") })
    );
    assert!(registry.get(&Some(url("http://example.com/b"))).is_none());
    assert!(registry.is_sealed());
    assert_eq!(
        registry
            .register(document("http://example.com/b", vec![("y", reference("/a#x"))]))
            .unwrap(),
        &Vec::<String>::new()
    );
    assert!(registry.get(&Some(url("http://example.com/b"))).is_some());
}

#[test]
fn registering_again_keeps_the_registry_sealed() {
    let mut registry = Registry::new();
    registry.register(document("http://example.com/a", vec![("x", reference("#x"))])).unwrap();
    assert!(registry.is_sealed());
    registry.register(document("http://example.com/a", vec![("x", reference("#x"))])).unwrap();
    assert!(registry.is_sealed());
    assert_eq!(
        registry.get(&Some(s("http://example.com/a"))),
        Some(&document("http://example.com/a", vec![("x", reference("#x"))]))
    );
}

#[test]
fn references_split_at_the_first_hash() {
    assert_eq!(split_fragment("http://a/b#c#d"), (s("http://a/b"), Some(s("c#d"))));
    assert_eq!(split_fragment("http://a/b#"), (s("http://a/b"), None));
    assert_eq!(split_fragment("http://a/b"), (s("http://a/b"), None));
    assert_eq!(split_fragment("#x"), (s(""), Some(s("x"))));
    assert_eq!(split_fragment(""), (s(""), None));
}

#[test]
fn references_resolve_against_the_identifier() {
    let base = Some(s("http://example.com/dir/doc"));
    let defs = vec![(
        s("local"),
        Schema { id: None, defs: None, form: Box::new(Form::Empty), extra: vec![] },
    )];
    assert_eq!(
        resolve(&base, &defs, &s("local")),
        Ok(Link { document: base.clone(), definition: Some(s("local")) })
    );
    assert_eq!(
        resolve(&base, &defs, &s("other#d")),
        Ok(Link { document: Some(s("http://example.com/dir/other")), definition: Some(s("d")) })
    );
    assert_eq!(resolve(&base, &defs, &s("")), Ok(Link { document: base.clone(), definition: None }));
    assert_eq!(
        resolve(&base, &defs, &s("#d")),
        Ok(Link { document: base.clone(), definition: Some(s("d")) })
    );
    assert_eq!(resolve(&base, &defs, &s("http://[")), Err(JslError::InvalidForm));
    assert_eq!(
        resolve(&None, &defs, &s("other")),
        Err(JslError::RelativeRefFromAnonymousSchema)
    );
    assert_eq!(
        resolve(&None, &defs, &s("https://example.org")),
        Ok(Link { document: Some(s("https://example.org/")), definition: None })
    );
}
