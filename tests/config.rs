use ingest::config::{
    LibrdkafkaConfig, PartialSchemaConfig, PartialSchemaConfigWithSchemaId, PythonProcessorConfig,
    SchemaConfig,
};
use ingest::error::ConfigError;
use ingest::methods::{validate_convert_method, validate_convert_methods};
use ingest::producers::Kafka;
use ingest::schema::{Plan, ServerState};

fn producer(name: &str) -> LibrdkafkaConfig {
    let mut c = LibrdkafkaConfig::default();
    c.name = name.to_owned();
    c.config = vec![("bootstrap.servers".to_owned(), "localhost:9092".to_owned())];
    c
}

fn processor(path: &str, methods: Option<&[&str]>) -> PythonProcessorConfig {
    PythonProcessorConfig {
        methods: methods.map(|m| m.iter().map(|s| s.to_string()).collect()),
        processor: path.to_owned(),
        implements_process_head: false,
        process_is_blocking: false,
        process_head_is_blocking: false,
    }
}

fn schema(id: &str, partial: PartialSchemaConfig) -> PartialSchemaConfigWithSchemaId {
    PartialSchemaConfigWithSchemaId {
        schema_id: id.to_owned(),
        schema_config: partial,
    }
}

fn start(
    default: SchemaConfig,
    overrides: Vec<PartialSchemaConfigWithSchemaId>,
    producers: Vec<LibrdkafkaConfig>,
) -> Result<ServerState, ConfigError> {
    let passwords = vec![None; producers.len()];
    let kafka = Kafka::start(&producers, &passwords)?;
    ServerState::build(
        &default,
        &overrides,
        &kafka.producer_names(),
        Default::default(),
        1024 * 1024,
        "/tmp",
    )
}

fn assert_is_config_error(r: Result<ServerState, ConfigError>, message: &str) {
    match r {
        Ok(_) => panic!("expected a configuration error"),
        Err(e) => assert_eq!(e.message(), message),
    }
}

fn topic() -> SchemaConfig {
    SchemaConfig::with_topic("test".to_owned())
}

#[test]
fn test_config_python_duplicate_default() {
    let mut default = topic();
    default.python_request_processor = vec![
        processor("python_processors:StaticProcessor", None),
        processor("python_processors:StaticProcessor", None),
    ];
    let r = start(default, vec![], vec![producer("main")]);
    assert_is_config_error(
        r,
        "Default Python request processor: Duplicate Python request processor 'python_processors:StaticProcessor'",
    );
}

#[test]
fn test_config_python_duplicate_default_for_method() {
    let mut default = topic();
    default.python_request_processor = vec![
        processor("python_processors:StaticProcessor", Some(&["GET", "POST"])),
        processor("python_processors:StaticProcessor", Some(&["GET", "PUT"])),
    ];
    let r = start(default, vec![], vec![producer("main")]);
    assert_is_config_error(
        r,
        "Default Python request processor: Duplicate method 'GET' configured for Python request processor 'python_processors:StaticProcessor'",
    );
}

#[test]
fn test_config_python_duplicate_default_for_schema() {
    let mut partial = PartialSchemaConfig::default();
    partial.python_request_processor = vec![
        processor("python_processors:StaticProcessor", None),
        processor("python_processors:StaticProcessor", None),
    ];
    let r = start(topic(), vec![schema("2", partial)], vec![producer("main")]);
    assert_is_config_error(
        r,
        "Python request processor for schema 2: Duplicate Python request processor 'python_processors:StaticProcessor'",
    );
}

#[test]
fn test_config_python_duplicate_default_for_schema_for_method() {
    let mut partial = PartialSchemaConfig::default();
    partial.python_request_processor = vec![
        processor("python_processors:StaticProcessor", Some(&["GET", "POST", "PUT"])),
        processor("python_processors:StaticProcessor", Some(&["POST", "PUT"])),
    ];
    let r = start(topic(), vec![schema("3", partial)], vec![producer("main")]);
    assert_is_config_error(
        r,
        "Python request processor for schema 3: Duplicate method 'POST' configured for Python request processor 'python_processors:StaticProcessor'",
    );
}

#[test]
fn test_config_unspecified_librdkafka_config_in_default_schema() {
    let mut default = topic();
    default.librdkafka_config = "no".to_owned();
    let r = start(default, vec![], vec![producer("main")]);
    assert_is_config_error(
        r,
        "Librdkafka config with name 'no' configured on default schema config not found. Available librdkafka configs: [\"main\"]",
    );
}

#[test]
fn test_config_unspecified_librdkafka_config_in_other_schema() {
    let mut partial = PartialSchemaConfig::default();
    partial.librdkafka_config = Some("no".to_owned());
    let r = start(topic(), vec![schema("3", partial)], vec![producer("main")]);
    assert_is_config_error(
        r,
        "Librdkafka config with name 'no' configured on schema '3' not found. Available librdkafka configs: [\"main\"]",
    );
}

#[test]
fn test_config_missing_librdkafka_config_in_default_schema() {
    let r = start(topic(), vec![], vec![producer("other")]);
    assert_is_config_error(
        r,
        "Librdkafka config with name 'main' configured on default schema config not found. Available librdkafka configs: [\"other\"]",
    );
}

#[test]
fn test_config_conflicting_librdkafka_config_names() {
    let r = start(topic(), vec![], vec![producer("main"), producer("main")]);
    assert_is_config_error(
        r,
        "Librdkafka configuration with name 'main' specified more than once",
    );
}

#[test]
fn test_config_conflicting_librdkafka_config_explicit_names() {
    let r = start(topic(), vec![], vec![producer("conf"), producer("conf")]);
    assert_is_config_error(
        r,
        "Librdkafka configuration with name 'conf' specified more than once",
    );
}

#[test]
fn unknown_producer_lists_every_producer() {
    let mut default = topic();
    default.librdkafka_config = "no".to_owned();
    let r = start(default, vec![], vec![producer("main"), producer("other")]);
    assert_is_config_error(
        r,
        "Librdkafka config with name 'no' configured on default schema config not found. Available librdkafka configs: [\"main\", \"other\"]",
    );
}

#[test]
fn duplicate_schema_id_fails_with_the_id() {
    let r = start(
        topic(),
        vec![
            schema("7", PartialSchemaConfig::default()),
            schema("7", PartialSchemaConfig::default()),
        ],
        vec![producer("main")],
    );
    match &r {
        Err(ConfigError::DuplicateSchema(id)) => assert_eq!(id, "7"),
        _ => panic!("expected a duplicate schema error"),
    }
    assert_is_config_error(r, "Schema with id 7 specified more than once in configuration");
}

#[test]
fn second_producer_serves_a_schema() {
    let mut partial = PartialSchemaConfig::default();
    partial.librdkafka_config = Some("other".to_owned());
    partial.response_status = Some(201);
    let state = start(
        topic(),
        vec![schema("3", partial)],
        vec![producer("main"), producer("other")],
    )
    .unwrap();
    let s = state.schema_config("3");
    assert_eq!(s.librdkafka_config, "other");
    assert_eq!(s.response_status, 201);
    assert_eq!(s.destination_topic, "test");
    assert_eq!(s.allowed_methods, vec!["POST".to_owned()]);
    let d = state.schema_config("unknown");
    assert_eq!(d.librdkafka_config, "main");
    assert_eq!(d.response_status, 200);
}

#[test]
fn producer_settings_take_the_sasl_password() {
    let configs = vec![producer("main")];
    let kafka = Kafka::start(&configs, &vec![Some("secret".to_owned())]).unwrap();
    assert_eq!(kafka.producer_names(), vec!["main".to_owned()]);
    assert_eq!(
        kafka.producers[0].settings,
        vec![
            ("bootstrap.servers".to_owned(), "localhost:9092".to_owned()),
            ("sasl.password".to_owned(), "secret".to_owned()),
        ]
    );
}

#[test]
fn methods_are_upper_cased_sorted_and_deduplicated() {
    let methods = vec!["post".to_owned(), "GET".to_owned(), "Post".to_owned(), "delete".to_owned()];
    assert_eq!(
        validate_convert_methods(&methods).unwrap(),
        vec!["DELETE".to_owned(), "GET".to_owned(), "POST".to_owned()]
    );
    assert_eq!(validate_convert_method("patch").unwrap(), "PATCH");
}

#[test]
fn invalid_method_is_reported_with_its_text() {
    let methods = vec!["GET".to_owned(), "G T".to_owned(), "(".to_owned()];
    match validate_convert_methods(&methods) {
        Err(e) => assert_eq!(e.message(), "G T is not a valid http method"),
        Ok(_) => panic!("expected an invalid method"),
    }
    assert!(validate_convert_method("").is_err());
    let mut default = topic();
    default.allowed_methods = vec!["PO ST".to_owned()];
    assert_is_config_error(
        start(default, vec![], vec![producer("main")]),
        "PO ST is not a valid http method",
    );
}

#[test]
fn processor_path_needs_one_colon() {
    let mut default = topic();
    default.python_request_processor = vec![processor("python_processors.StaticProcessor", None)];
    assert_is_config_error(
        start(default, vec![], vec![producer("main")]),
        "Python request processor location should be of the format <module-dot-path>:<callable object>, found python_processors.StaticProcessor instead",
    );
}

#[test]
fn processor_precedence() {
    let mut default = topic();
    default.python_request_processor = vec![
        processor("m:GlobalDefault", None),
        processor("m:GlobalGet", Some(&["get"])),
    ];
    let mut partial = PartialSchemaConfig::default();
    partial.python_request_processor = vec![
        processor("m:SchemaDefault", None),
        processor("m:SchemaPut", Some(&["PUT"])),
    ];
    let mut only_method = PartialSchemaConfig::default();
    only_method.python_request_processor = vec![processor("m:SchemaPatch", Some(&["PATCH"]))];
    let state = start(
        default,
        vec![schema("s", partial), schema("t", only_method)],
        vec![producer("main")],
    )
    .unwrap();
    let r = &state.python_processor_resolver;
    assert_eq!(r.get("s", "PUT").unwrap().path, "m:SchemaPut");
    assert_eq!(r.get("s", "GET").unwrap().path, "m:SchemaDefault");
    assert_eq!(r.get("t", "PATCH").unwrap().path, "m:SchemaPatch");
    assert_eq!(r.get("t", "GET").unwrap().path, "m:GlobalGet");
    assert_eq!(r.get("t", "POST").unwrap().path, "m:GlobalDefault");
    assert_eq!(r.get("other", "GET").unwrap().path, "m:GlobalGet");
    assert_eq!(r.get("other", "DELETE").unwrap().path, "m:GlobalDefault");
}

#[test]
fn method_outside_allowed_is_refused_unless_a_processor_is_bound() {
    let mut partial = PartialSchemaConfig::default();
    partial.python_request_processor = vec![processor("m:Get", Some(&["GET"]))];
    let state = start(topic(), vec![schema("p", partial)], vec![producer("main")]).unwrap();
    assert!(matches!(state.plan("1", "PUT"), Plan::MethodNotAllowed));
    assert!(matches!(state.plan("1", "POST"), Plan::Proceed(None)));
    match state.plan("p", "GET") {
        Plan::Proceed(Some(p)) => assert_eq!(p.path, "m:Get"),
        _ => panic!("expected the bound processor"),
    }
    assert!(matches!(state.plan("p", "PUT"), Plan::MethodNotAllowed));
}
