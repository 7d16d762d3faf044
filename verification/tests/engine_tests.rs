use appconfig::engine::build;
use appconfig::errors::AppConfigError;
use appconfig::schema::ConfigInstance;
use appconfig::schema::ConfigValue;
use appconfig::schema::FieldDescriptor;
use appconfig::schema::FieldRule;
use appconfig::schema::ScalarType;
use appconfig::schema::Schema;
use appconfig::source::DataSource;
use appconfig::table::KvTable;

fn text_field(ident: &str) -> FieldDescriptor {
    FieldDescriptor {
        ident: ident.to_string(),
        rule: FieldRule::Scalar {
            ty: ScalarType::Text,
            rename: None,
            default_text: None,
            provider: None,
        },
    }
}

fn int_field(ident: &str) -> FieldDescriptor {
    FieldDescriptor {
        ident: ident.to_string(),
        rule: FieldRule::Scalar {
            ty: ScalarType::Int,
            rename: None,
            default_text: None,
            provider: None,
        },
    }
}

fn schema_of(fields: Vec<FieldDescriptor>) -> Schema {
    let s = Schema::new(fields);
    assert!(s.check_wf());
    s
}

fn text_of(inst: &ConfigInstance, name: &str) -> String {
    inst.get(name).unwrap().as_text().unwrap().clone()
}

fn int_of(inst: &ConfigInstance, name: &str) -> i64 {
    inst.get(name).unwrap().as_int().unwrap()
}

fn no_env() -> KvTable<String> {
    KvTable::new()
}

fn no_skips() -> KvTable<ConfigValue> {
    KvTable::new()
}

fn no_alts() -> KvTable<DataSource> {
    KvTable::new()
}

// the schema of a configuration with one plain text field
fn config_str() -> Schema {
    schema_of(vec![text_field("field")])
}

// the schema of a configuration with one plain 64-bit integer field
fn config_nested() -> Schema {
    schema_of(vec![int_field("field4")])
}

#[test]
fn it_reads_from_ds() {
    let mut data_src = DataSource::memory();
    data_src.set("FIELD", "hello".to_string()).unwrap();

    let config = build(&config_str(), &mut data_src, None, &no_env(), &no_skips(), &mut no_alts())
        .unwrap();
    assert_eq!(text_of(&config, "field"), "hello");
}

#[test]
fn it_reads_from_env() {
    let mut data_src = DataSource::memory();
    let mut env = no_env();
    env.set("FIELD", "hello".to_string());

    let config = build(&config_str(), &mut data_src, None, &env, &no_skips(), &mut no_alts())
        .unwrap();
    assert_eq!(text_of(&config, "field"), "hello");
}

#[test]
fn ds_takes_precedence() {
    let mut data_src = DataSource::memory();
    data_src.set("FIELD", "world".to_string()).unwrap();
    let mut env = no_env();
    env.set("FIELD", "hello".to_string());

    let config = build(&config_str(), &mut data_src, None, &env, &no_skips(), &mut no_alts())
        .unwrap();
    assert_eq!(text_of(&config, "field"), "world");
}

#[test]
fn it_uses_prefix() {
    let mut data_src = DataSource::memory();
    data_src.set("PREFIX_FIELD", "hello".to_string()).unwrap();

    let config = build(
        &config_str(),
        &mut data_src,
        Some("PREFIX_".to_string()),
        &no_env(),
        &no_skips(),
        &mut no_alts(),
    )
    .unwrap();
    assert_eq!(text_of(&config, "field"), "hello");
}

// the schema of a configuration whose attributes rename and default fields
fn config_attrs() -> Schema {
    let f1 = appconfig::directives::field_from_attrs(
        "field",
        ScalarType::Text,
        "default = \"default\", name = \"attr_field\"",
        None,
        None,
    )
    .unwrap();
    let f2 = appconfig::directives::field_from_attrs("field2", ScalarType::Int, "default = 4", None, None)
        .unwrap();
    schema_of(vec![f1, f2])
}

#[test]
fn it_reads_name_from_attrs() {
    let mut data_src = DataSource::memory();
    data_src.set("ATTR_FIELD", "hello".to_string()).unwrap();

    let config = build(&config_attrs(), &mut data_src, None, &no_env(), &no_skips(), &mut no_alts())
        .unwrap();
    assert_eq!(text_of(&config, "field"), "hello");
}

#[test]
fn it_reads_default_from_attrs() {
    let mut data_src = DataSource::memory();

    let config = build(&config_attrs(), &mut data_src, None, &no_env(), &no_skips(), &mut no_alts())
        .unwrap();
    assert_eq!(text_of(&config, "field"), "default");
    assert_eq!(int_of(&config, "field2"), 4);
}

fn return_four() -> i64 {
    return 4;
}

// the schema of a configuration whose field falls back to a provider
fn config_default_fn() -> Schema {
    let f = appconfig::directives::field_from_attrs(
        "field3",
        ScalarType::Int,
        "default_fn = return_four",
        Some(ConfigValue::Int(return_four())),
        None,
    )
    .unwrap();
    schema_of(vec![f])
}

#[test]
fn it_reads_default_from_fn() {
    let mut data_src = DataSource::memory();

    let config = build(
        &config_default_fn(),
        &mut data_src,
        None,
        &no_env(),
        &no_skips(),
        &mut no_alts(),
    )
    .unwrap();
    assert_eq!(int_of(&config, "field3"), 4);
}

#[test]
fn it_writes_to_data_src() {
    let mut data_src = DataSource::memory();

    let _config = build(
        &config_default_fn(),
        &mut data_src,
        None,
        &no_env(),
        &no_skips(),
        &mut no_alts(),
    )
    .unwrap();
    let val = data_src.get("FIELD3").unwrap().unwrap();
    assert_eq!(val, "4")
}

// the schema of a configuration with one skip field
fn config_skip() -> Schema {
    let f = appconfig::directives::field_from_attrs("field", ScalarType::Text, "skip", None, None)
        .unwrap();
    schema_of(vec![f])
}

#[test]
fn it_skips_fields() {
    let mut data_src = DataSource::memory();
    data_src.set("FIELD", "hello".to_string()).unwrap();
    let mut skips = no_skips();
    skips.set("field", ConfigValue::Text("world".to_string()));

    let config = build(&config_skip(), &mut data_src, None, &no_env(), &skips, &mut no_alts())
        .unwrap();
    assert_eq!(text_of(&config, "field"), "world");
}

#[test]
fn it_should_error_if_no_values_are_provided() {
    let mut data_src = DataSource::memory();

    let config = build(&config_nested(), &mut data_src, None, &no_env(), &no_skips(), &mut no_alts());
    assert!(config.is_err());
}

// a configuration holding an integer field and a nested configuration
fn config_nested2() -> Schema {
    let nested = appconfig::directives::field_from_attrs(
        "field6",
        ScalarType::Text,
        "nested",
        None,
        Some(config_nested()),
    )
    .unwrap();
    schema_of(vec![int_field("field5"), nested])
}

#[test]
fn it_reads_nested() {
    let mut data_src = DataSource::memory();
    data_src.set("FIELD5", "5".to_string()).unwrap();
    data_src.set("FIELD6_FIELD4", "6".to_string()).unwrap();

    let config = build(&config_nested2(), &mut data_src, None, &no_env(), &no_skips(), &mut no_alts())
        .unwrap();
    assert_eq!(int_of(&config, "field5"), 5);
    let inner = config.get("field6").unwrap().as_nested().unwrap();
    assert_eq!(int_of(inner, "field4"), 6);
}

// a nested configuration under an explicit prefix
fn config_nested3() -> Schema {
    let nested = appconfig::directives::field_from_attrs(
        "field7",
        ScalarType::Text,
        "nested, prefix = \"nested_\"",
        None,
        Some(config_nested()),
    )
    .unwrap();
    schema_of(vec![nested])
}

#[test]
fn it_reads_nested_with_prefix() {
    let mut data_src = DataSource::memory();
    data_src.set("NESTED_FIELD4", "7".to_string()).unwrap();

    let config = build(&config_nested3(), &mut data_src, None, &no_env(), &no_skips(), &mut no_alts())
        .unwrap();
    let inner = config.get("field7").unwrap().as_nested().unwrap();
    assert_eq!(int_of(inner, "field4"), 7);
}

// a nested configuration read through a caller-supplied alternate source
fn config_nested4() -> Schema {
    let nested = appconfig::directives::field_from_attrs(
        "field8",
        ScalarType::Text,
        "nested, data_src = nested_data",
        None,
        Some(config_nested()),
    )
    .unwrap();
    schema_of(vec![nested])
}

#[test]
fn it_reads_nested_with_data_src() {
    let mut data_src = DataSource::memory();
    let mut env = no_env();
    env.set("FIELD8_FIELD4", "8".to_string());
    let mut alts = no_alts();
    alts.set("nested_data", DataSource::memory());

    let config = build(&config_nested4(), &mut data_src, None, &env, &no_skips(), &mut alts)
        .unwrap();
    let inner = config.get("field8").unwrap().as_nested().unwrap();
    assert_eq!(int_of(inner, "field4"), 8);
    let nested_data = alts.get("nested_data").unwrap();
    assert_eq!(nested_data.get("FIELD8_FIELD4").unwrap().unwrap(), "8");
}

#[test]
fn env_value_is_persisted() {
    let mut data_src = DataSource::memory();
    let mut env = no_env();
    env.set("FIELD", "hello".to_string());

    let config = build(&config_str(), &mut data_src, None, &env, &no_skips(), &mut no_alts())
        .unwrap();
    assert_eq!(text_of(&config, "field"), "hello");
    assert_eq!(data_src.get("FIELD").unwrap().unwrap(), "hello");
}

#[test]
fn rebuild_from_store_after_env_is_gone() {
    let mut data_src = DataSource::memory();
    let mut env = no_env();
    env.set("FIELD", "hello".to_string());

    let first = build(&config_str(), &mut data_src, None, &env, &no_skips(), &mut no_alts())
        .unwrap();
    assert_eq!(text_of(&first, "field"), "hello");

    // the environment variable is gone; the populated store answers
    let second = build(&config_str(), &mut data_src, None, &no_env(), &no_skips(), &mut no_alts())
        .unwrap();
    assert_eq!(text_of(&second, "field"), "hello");
}

#[test]
fn missing_required_field_names_it() {
    let mut data_src = DataSource::memory();

    let err = build(&config_nested(), &mut data_src, None, &no_env(), &no_skips(), &mut no_alts())
        .unwrap_err();
    match err {
        AppConfigError::FieldNotSetError(name) => assert_eq!(name, "field4"),
        _ => panic!("expected a field-not-set error"),
    }
    assert!(data_src.get("FIELD4").unwrap().is_none());
}

#[test]
fn unparsable_value_aborts_before_persistence() {
    let mut data_src = DataSource::memory();
    data_src.set("FIELD4", "abc".to_string()).unwrap();
    let mut env = no_env();
    env.set("OTHER", "5".to_string());

    let fields = vec![int_field("other"), int_field("field4")];
    let err = build(&schema_of(fields), &mut data_src, None, &env, &no_skips(), &mut no_alts())
        .unwrap_err();
    match err {
        AppConfigError::ParsingError(name) => assert_eq!(name, "field4"),
        _ => panic!("expected a parsing error"),
    }
    // nothing was written during the failing call: the resolvable field
    // was not persisted, and the bad value sits in the store untouched
    assert!(data_src.get("OTHER").unwrap().is_none());
    assert_eq!(data_src.get("FIELD4").unwrap().unwrap(), "abc");
}

#[test]
fn faulty_source_gives_datastore_error() {
    let mut data_src = DataSource::faulty();

    let err = build(&config_str(), &mut data_src, None, &no_env(), &no_skips(), &mut no_alts())
        .unwrap_err();
    assert!(matches!(err, AppConfigError::DatastoreError));
}

#[test]
fn missing_skip_argument_is_field_not_set() {
    let mut data_src = DataSource::memory();

    let err = build(&config_skip(), &mut data_src, None, &no_env(), &no_skips(), &mut no_alts())
        .unwrap_err();
    match err {
        AppConfigError::FieldNotSetError(name) => assert_eq!(name, "field"),
        _ => panic!("expected a field-not-set error"),
    }
}

#[test]
fn missing_alternate_source_is_datastore_error() {
    let mut data_src = DataSource::memory();
    let mut env = no_env();
    env.set("FIELD8_FIELD4", "8".to_string());

    let err = build(&config_nested4(), &mut data_src, None, &env, &no_skips(), &mut no_alts())
        .unwrap_err();
    assert!(matches!(err, AppConfigError::DatastoreError));
}

#[test]
fn nop_source_reads_nothing_and_keeps_nothing() {
    let mut data_src = DataSource::nop();
    let mut env = no_env();
    env.set("FIELD", "hello".to_string());

    let config = build(&config_str(), &mut data_src, None, &env, &no_skips(), &mut no_alts())
        .unwrap();
    assert_eq!(text_of(&config, "field"), "hello");
    // the write was accepted and discarded
    assert!(data_src.get("FIELD").unwrap().is_none());
}

#[test]
fn renamed_skip_field_takes_its_argument_under_the_new_name() {
    let mut data_src = DataSource::memory();
    let f = appconfig::directives::field_from_attrs(
        "field",
        ScalarType::Text,
        "skip, name = other",
        None,
        None,
    )
    .unwrap();
    let mut skips = no_skips();
    skips.set("other", ConfigValue::Text("world".to_string()));

    let config = build(&schema_of(vec![f]), &mut data_src, None, &no_env(), &skips, &mut no_alts())
        .unwrap();
    assert_eq!(text_of(&config, "field"), "world");
}
