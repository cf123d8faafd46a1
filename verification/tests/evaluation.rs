use jsl::text::{clone_strings, contains_string};
use jsl::vm::{has_primitive_type, validate};
use jsl::{Config, Form, Json, JslError, Schema, Serde, Type, ValidationError, Validator};

fn s(text: &str) -> String {
    text.to_owned()
}

fn num(text: &str) -> Json {
    Json::Number(s(text))
}

fn text(value: &str) -> Json {
    Json::String(s(value))
}

fn object(members: Vec<(&str, Json)>) -> Json {
    Json::Object(members.into_iter().map(|(k, v)| (s(k), v)).collect())
}

fn sub(form: Form) -> Schema {
    Schema { id: None, defs: None, form: Box::new(form), extra: vec![] }
}

fn root(defs: Vec<(&str, Schema)>, form: Form) -> Schema {
    Schema {
        id: None,
        defs: Some(defs.into_iter().map(|(k, v)| (s(k), v)).collect()),
        form: Box::new(form),
        extra: vec![],
    }
}

fn props(entries: Vec<(&str, Schema)>) -> Vec<(String, Schema)> {
    entries.into_iter().map(|(k, v)| (s(k), v)).collect()
}

fn paths(errors: &[ValidationError]) -> Vec<(String, String)> {
    let mut out: Vec<(String, String)> = errors
        .iter()
        .map(|e| (e.instance_pointer(), e.schema_pointer()))
        .collect();
    out.sort_by_key(|(i, sp)| format!("{},{}", sp, i));
    out
}

fn pair(instance: &str, schema: &str) -> (String, String) {
    (s(instance), s(schema))
}

#[test]
fn properties_accept_and_reject() {
    let schema = root(
        vec![],
        Form::Properties(
            props(vec![
                ("name", sub(Form::Type(Type::String))),
                ("age", sub(Form::Type(Type::Number))),
            ]),
            vec![],
            true,
        ),
    );
    let validator = Validator::new();
    let good = object(vec![("name", text("John")), ("age", num("43"))]);
    assert_eq!(validator.validate(&schema, &good).unwrap(), vec![]);

    let bad = object(vec![("age", text("43"))]);
    let errors = validator.validate(&schema, &bad).unwrap();
    assert_eq!(
        paths(&errors),
        vec![pair("/age", "/properties/age/type"), pair("", "/properties/name")]
    );
}

#[test]
fn elements_report_the_index() {
    let schema = root(vec![], Form::Elements(sub(Form::Type(Type::String))));
    let instance = Json::Array(vec![text("a"), text("b"), num("3")]);
    let errors = Validator::new().validate(&schema, &instance).unwrap();
    assert_eq!(paths(&errors), vec![pair("/2", "/elements/type")]);
}

#[test]
fn reference_starts_a_new_schema_path() {
    let schema = root(vec![("a", sub(Form::Type(Type::Boolean)))], Form::Ref(s("a")));
    let validator = Validator::new();
    assert_eq!(validator.validate(&schema, &Json::Bool(true)).unwrap(), vec![]);
    let errors = validator.validate(&schema, &num("1")).unwrap();
    assert_eq!(paths(&errors), vec![pair("", "/definitions/a/type")]);
}

fn json_of(value: &serde_json::Value) -> Json {
    match value {
        serde_json::Value::Null => Json::Null,
        serde_json::Value::Bool(b) => Json::Bool(*b),
        serde_json::Value::Number(n) => Json::Number(n.to_string()),
        serde_json::Value::String(t) => Json::String(t.clone()),
        serde_json::Value::Array(items) => Json::Array(items.iter().map(json_of).collect()),
        serde_json::Value::Object(members) => {
            Json::Object(members.iter().map(|(k, v)| (k.clone(), json_of(v))).collect())
        }
    }
}

fn json(text: &str) -> Json {
    json_of(&serde_json::from_str::<serde_json::Value>(text).unwrap())
}

#[test]
fn infinite_loop() {
    let validator = Validator::new();
    assert!(validator
        .validate(
            &Schema::from_serde(
                Serde::from_json(&json(r#"{"definitions": {"a": {"ref": "a"}}, "ref": "a"}"#))
                    .unwrap()
            )
            .unwrap(),
            &json("{}")
        )
        .is_err());
}

#[test]
fn max_errors() {
    let mut config = Config::new();
    config.max_errors(3);

    let validator = Validator::new_with_config(config);
    assert_eq!(
        validator
            .validate(
                &Schema::from_serde(
                    Serde::from_json(&json(r#"{"elements": {"type": "string"}}"#)).unwrap()
                )
                .unwrap(),
                &json("[null, null, null, null, null]")
            )
            .unwrap()
            .len(),
        3
    );
}

#[test]
fn cyclic_reference_fails_at_the_depth() {
    let schema = root(vec![("a", sub(Form::Ref(s("a"))))], Form::Ref(s("a")));
    assert_eq!(
        Validator::new().validate(&schema, &object(vec![])),
        Err(JslError::MaxDepthExceeded)
    );
}

fn chain(length: usize) -> Schema {
    let mut defs: Vec<(String, Schema)> = Vec::new();
    for i in 0..length {
        let form = if i + 1 < length {
            Form::Ref(format!("d{}", i + 1))
        } else {
            Form::Type(Type::Boolean)
        };
        defs.push((format!("d{}", i), sub(form)));
    }
    Schema { id: None, defs: Some(defs), form: Box::new(Form::Ref(s("d0"))), extra: vec![] }
}

#[test]
fn depth_counts_the_references_that_are_open() {
    let mut config = Config::new();
    config.max_depth(4);
    let validator = Validator::new_with_config(config);

    let errors = validator.validate(&chain(3), &num("1")).unwrap();
    assert_eq!(paths(&errors), vec![pair("", "/definitions/d2/type")]);
    assert_eq!(validator.validate(&chain(4), &num("1")), Err(JslError::MaxDepthExceeded));

    let default = Validator::new();
    assert!(default.validate(&chain(31), &Json::Bool(true)).unwrap().is_empty());
    assert_eq!(default.validate(&chain(32), &Json::Bool(true)), Err(JslError::MaxDepthExceeded));

    let mut config = Config::new();
    config.max_depth(0);
    let none = Validator::new_with_config(config);
    assert_eq!(none.validate(&chain(1), &Json::Bool(true)), Err(JslError::MaxDepthExceeded));
    assert!(none.validate(&root(vec![], Form::Empty), &Json::Null).unwrap().is_empty());
}

#[test]
fn the_cap_is_reached_before_the_depth() {
    let looping = sub(Form::Ref(s("a")));
    let schema = root(
        vec![("a", sub(Form::Ref(s("a"))))],
        Form::Properties(
            props(vec![("x", sub(Form::Type(Type::String))), ("y", looping)]),
            vec![],
            true,
        ),
    );
    let instance = object(vec![("x", num("1")), ("y", num("2"))]);

    assert_eq!(Validator::new().validate(&schema, &instance), Err(JslError::MaxDepthExceeded));

    let mut config = Config::new();
    config.max_errors(1);
    let errors = Validator::new_with_config(config).validate(&schema, &instance).unwrap();
    assert_eq!(paths(&errors), vec![pair("/x", "/properties/x/type")]);
}

#[test]
fn errors_come_in_the_order_of_the_schema() {
    let schema = root(vec![], Form::Elements(sub(Form::Type(Type::String))));
    let instance = Json::Array(vec![Json::Null, text("ok"), Json::Null, Json::Null]);
    let all = validate(0, 32, false, &schema, &instance).unwrap();
    let listed: Vec<String> = all.iter().map(|e| e.instance_pointer()).collect();
    assert_eq!(listed, vec![s("/0"), s("/2"), s("/3")]);

    let two = validate(2, 32, false, &schema, &instance).unwrap();
    assert_eq!(two, all[..2].to_vec());
}

#[test]
fn a_reference_to_nothing_fails() {
    let schema = root(vec![], Form::Elements(sub(Form::Ref(s("gone")))));
    assert_eq!(
        Validator::new().validate(&schema, &Json::Array(vec![Json::Null])),
        Err(JslError::NoSuchDefinition { definition: s("gone") })
    );
    assert!(Validator::new().validate(&schema, &Json::Array(vec![])).unwrap().is_empty());

    let no_root = sub(Form::Ref(s("a")));
    assert_eq!(
        Validator::new().validate(&no_root, &Json::Null),
        Err(JslError::NoSuchDefinition { definition: s("a") })
    );
}

#[test]
fn types_accept_their_values() {
    let validator = Validator::new();
    let check = |t: Type, instance: &Json| -> bool {
        validator.validate(&root(vec![], Form::Type(t)), instance).unwrap().is_empty()
    };
    assert!(check(Type::Boolean, &Json::Bool(false)));
    assert!(!check(Type::Boolean, &Json::Null));
    assert!(check(Type::Number, &num("1.5e3")));
    assert!(!check(Type::Number, &text("1")));
    assert!(check(Type::String, &text("")));
    assert!(!check(Type::String, &Json::Array(vec![])));
    assert!(check(Type::Timestamp, &text("1985-04-12T23:20:50.52Z")));
    assert!(check(Type::Timestamp, &text("1996-12-19T16:39:57-08:00")));
    assert!(!check(Type::Timestamp, &text("1985-04-12")));
    assert!(!check(Type::Timestamp, &text("1985-13-12T23:20:50Z")));
    assert!(!check(Type::Timestamp, &num("1")));

    assert!(has_primitive_type(Type::Timestamp, &text("anything"), true));
    assert!(!has_primitive_type(Type::Timestamp, &text("anything"), false));
    assert!(!has_primitive_type(Type::Timestamp, &Json::Null, true));
    assert!(has_primitive_type(Type::String, &text("anything"), false));
}

#[test]
fn enumerations_accept_their_strings() {
    let schema = root(vec![], Form::Enum(vec![s("FOO"), s("BAR")]));
    let validator = Validator::new();
    assert!(validator.validate(&schema, &text("BAR")).unwrap().is_empty());
    assert_eq!(paths(&validator.validate(&schema, &text("BAZ")).unwrap()), vec![pair("", "/enum")]);
    assert_eq!(paths(&validator.validate(&schema, &num("1")).unwrap()), vec![pair("", "/enum")]);
    assert!(contains_string(&vec![s("a"), s("b")], &s("b")));
    assert!(!contains_string(&vec![s("a"), s("b")], &s("c")));
}

#[test]
fn values_and_optional_properties() {
    let validator = Validator::new();
    let values = root(vec![], Form::Values(sub(Form::Type(Type::Boolean))));
    let instance = object(vec![("a", Json::Bool(true)), ("b", Json::Null)]);
    assert_eq!(paths(&validator.validate(&values, &instance).unwrap()), vec![pair("/b", "/values/type")]);
    assert_eq!(paths(&validator.validate(&values, &Json::Null).unwrap()), vec![pair("", "/values")]);

    let optional = root(
        vec![],
        Form::Properties(vec![], props(vec![("o", sub(Form::Type(Type::Boolean)))]), false),
    );
    assert!(validator.validate(&optional, &object(vec![])).unwrap().is_empty());
    assert_eq!(
        paths(&validator.validate(&optional, &object(vec![("o", Json::Null)])).unwrap()),
        vec![pair("/o", "/optionalProperties/o/type")]
    );
    assert_eq!(
        paths(&validator.validate(&optional, &Json::Null).unwrap()),
        vec![pair("", "/optionalProperties")]
    );
    let required = root(vec![], Form::Properties(vec![], vec![], true));
    assert_eq!(
        paths(&validator.validate(&required, &Json::Null).unwrap()),
        vec![pair("", "/properties")]
    );
    assert_eq!(
        paths(&validator.validate(&root(vec![], Form::Elements(sub(Form::Empty))), &Json::Null).unwrap()),
        vec![pair("", "/elements")]
    );
}

#[test]
fn pointers_escape_and_count() {
    let schema = root(
        vec![],
        Form::Values(sub(Form::Elements(sub(Form::Type(Type::Boolean))))),
    );
    let mut items: Vec<Json> = Vec::new();
    for _ in 0..12 {
        items.push(Json::Bool(true));
    }
    items.push(Json::Null);
    let instance = object(vec![("a/b~c", Json::Array(items))]);
    let errors = Validator::new().validate(&schema, &instance).unwrap();
    assert_eq!(errors.len(), 1);
    assert_eq!(errors[0].instance_path(), &vec![s("a/b~c"), s("12")]);
    assert_eq!(errors[0].schema_path(), &vec![s("values"), s("elements"), s("type")]);
    assert_eq!(errors[0].instance_pointer(), "/a~1b~0c/12");
    assert_eq!(errors[0].schema_pointer(), "/values/elements/type");

    let made = ValidationError::new(vec![s("x")], vec![]);
    assert_eq!(made.instance_pointer(), "/x");
    assert_eq!(made.schema_pointer(), "");
    assert_eq!(clone_strings(&vec![s("p"), s("q")]), vec![s("p"), s("q")]);
}

#[test]
fn configuration_defaults_and_builders() {
    assert_eq!(Config::new(), Config::default());
    assert_eq!(Validator::new(), Validator::new_with_config(Config::new()));
    assert_eq!(Validator::new(), Validator::default());

    let mut config = Config::new();
    config.max_errors(1).max_depth(2).strict_instance_semantics(true);
    let mut same = Config::new();
    same.strict_instance_semantics(true);
    same.max_depth(2);
    same.max_errors(1);
    assert_eq!(config, same);
    assert_ne!(config, Config::new());
}

#[test]
fn discriminator_branches() {
    let branch = sub(Form::Properties(
        props(vec![("v", sub(Form::Type(Type::String)))]),
        vec![],
        true,
    ));
    let schema = root(vec![], Form::Discriminator(s("t"), props(vec![("x", branch)])));
    let validator = Validator::new();

    let good = object(vec![("t", text("x")), ("v", text("ok"))]);
    assert_eq!(validator.validate(&schema, &good).unwrap(), vec![]);

    let unknown = object(vec![("t", text("y"))]);
    assert_eq!(
        paths(&validator.validate(&schema, &unknown).unwrap()),
        vec![pair("/t", "/discriminator/mapping")]
    );

    let missing = object(vec![]);
    assert_eq!(
        paths(&validator.validate(&schema, &missing).unwrap()),
        vec![pair("", "/discriminator/tag")]
    );

    let not_a_string = object(vec![("t", num("1"))]);
    assert_eq!(
        paths(&validator.validate(&schema, &not_a_string).unwrap()),
        vec![pair("/t", "/discriminator/tag")]
    );

    assert_eq!(
        paths(&validator.validate(&schema, &num("1")).unwrap()),
        vec![pair("", "/discriminator")]
    );

    let wrong_member = object(vec![("t", text("x")), ("v", num("1"))]);
    assert_eq!(
        paths(&validator.validate(&schema, &wrong_member).unwrap()),
        vec![pair("/v", "/discriminator/mapping/x/properties/v/type")]
    );
}

#[test]
fn strict_instances_reject_unknown_members() {
    let mut config = Config::new();
    config.strict_instance_semantics(true);
    let validator = Validator::new_with_config(config);

    let schema = root(
        vec![],
        Form::Properties(props(vec![("a", sub(Form::Empty))]), vec![], true),
    );
    let instance = object(vec![("a", num("1")), ("b", num("2"))]);
    assert_eq!(
        paths(&validator.validate(&schema, &instance).unwrap()),
        vec![pair("/b", "")]
    );
    assert_eq!(Validator::new().validate(&schema, &instance).unwrap(), vec![]);

    let branch = sub(Form::Properties(props(vec![("v", sub(Form::Empty))]), vec![], true));
    let tagged = root(vec![], Form::Discriminator(s("t"), props(vec![("x", branch)])));
    let instance = object(vec![("t", text("x")), ("v", num("1"))]);
    assert_eq!(validator.validate(&tagged, &instance).unwrap(), vec![]);
    let instance = object(vec![("t", text("x")), ("v", num("1")), ("w", num("1"))]);
    assert_eq!(
        paths(&validator.validate(&tagged, &instance).unwrap()),
        vec![pair("/w", "/discriminator/mapping/x")]
    );
}

fn follow<'a>(top: &'a Json, tokens: &[String]) -> Option<&'a Json> {
    let mut at = top;
    for token in tokens {
        at = match at {
            Json::Object(members) => &members.iter().find(|(k, _)| k == token)?.1,
            Json::Array(items) => items.get(token.parse::<usize>().ok()?)?,
            _ => return None,
        };
    }
    Some(at)
}

#[test]
fn instance_paths_lead_into_the_instance() {
    let mut config = Config::new();
    config.strict_instance_semantics(true);
    let validator = Validator::new_with_config(config);
    let branch = sub(Form::Properties(
        props(vec![("list", sub(Form::Elements(sub(Form::Ref(s("item"))))))]),
        props(vec![("note", sub(Form::Type(Type::String)))]),
        true,
    ));
    let schema = root(
        vec![(
            "item",
            sub(Form::Properties(props(vec![("id", sub(Form::Type(Type::Number)))]), vec![], true)),
        )],
        Form::Discriminator(s("kind"), props(vec![("a", branch)])),
    );
    let instance = object(vec![
        ("kind", text("a")),
        (
            "list",
            Json::Array(vec![
                object(vec![("id", num("1"))]),
                object(vec![("id", text("x")), ("more", Json::Null)]),
                Json::Null,
            ]),
        ),
        ("note", num("3")),
        ("stray", Json::Null),
    ]);
    let errors = validator.validate(&schema, &instance).unwrap();
    assert_eq!(
        paths(&errors),
        vec![
            pair("/list/1/more", "/definitions/item"),
            pair("/list/2", "/definitions/item/properties"),
            pair("/list/1/id", "/definitions/item/properties/id/type"),
            pair("/stray", "/discriminator/mapping/a"),
            pair("/note", "/discriminator/mapping/a/optionalProperties/note/type"),
        ]
    );
    let keywords = [
        "type", "enum", "elements", "properties", "optionalProperties", "values",
        "discriminator", "mapping", "tag", "definitions",
    ];
    let names = ["item", "id", "list", "note", "a"];
    for error in &errors {
        assert!(follow(&instance, error.instance_path()).is_some());
        for token in error.schema_path() {
            assert!(keywords.contains(&token.as_str()) || names.contains(&token.as_str()));
        }
    }
}
