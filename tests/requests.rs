use ingest::config::{
    header_is, ContentType, HeaderNames, LibrdkafkaConfig, PythonProcessorConfig, SchemaConfig,
};
use ingest::error::Error;
use ingest::framing::{trim_bytes, LineFramer};
use ingest::pipeline::{
    append_body_chunk, method_not_allowed, needs_body_stage, not_forwarded, outbound_headers,
    plan_response, resolve_content_type, should_forward, BodyPrefix, Ingest, IngestResponse,
    RequestMeta, ResponseBody, ResponsePlan,
};
use ingest::processors::ProcessorResponse;
use ingest::producers::Kafka;
use ingest::schema::{Plan, ServerState};

fn state_with(default: SchemaConfig, max_event_size_bytes: u64) -> ServerState {
    let producers = vec![LibrdkafkaConfig::default()];
    let kafka = Kafka::start(&producers, &vec![None]).unwrap();
    ServerState::build(
        &default,
        &vec![],
        &kafka.producer_names(),
        HeaderNames::default(),
        max_event_size_bytes,
        "/tmp",
    )
    .unwrap()
}

fn state(content_type: Option<ContentType>) -> ServerState {
    let mut default = SchemaConfig::with_topic("test".to_owned());
    default.content_type = content_type;
    state_with(default, 1024 * 1024)
}

/// Runs a request through the library as the server does, with a broker that acknowledges
/// every message. Returns the answer and the report.
fn request(
    state: &ServerState,
    schema_id: &str,
    method: &str,
    content_type: Option<&str>,
    chunks: &[&str],
) -> (ResponsePlan, Option<IngestResponse>) {
    match state.plan(schema_id, method) {
        Plan::MethodNotAllowed => return (method_not_allowed(), None),
        Plan::Proceed(_) => {}
    }
    let schema = state.schema_config(schema_id);
    let ct = resolve_content_type(
        schema.content_type_from_header,
        content_type.map(|c| c.as_bytes()),
        schema.content_type,
    );
    let max = state.max_event_size_bytes as usize;
    let mut ingest = Ingest::new(schema_id.to_owned(), ct);
    let mut sent: Vec<Vec<u8>> = Vec::new();
    match ct {
        ContentType::Jsonlines => {
            let mut framer = LineFramer::new();
            for c in chunks {
                for line in framer.push(c.as_bytes()) {
                    if !ingest.reading {
                        break;
                    }
                    if let Some(m) = ingest.on_framed_line(&line, max) {
                        sent.push(m);
                    }
                }
                if ingest.reading && framer.pending_exceeds(max) {
                    ingest.on_too_large();
                }
                if !ingest.reading {
                    break;
                }
            }
            if ingest.reading {
                if let Some(line) = framer.finish() {
                    if let Some(m) = ingest.on_framed_line(&line, max) {
                        sent.push(m);
                    }
                }
            }
            if ingest.reading {
                ingest.on_read_end();
            }
        }
        _ => {
            let mut buf = Vec::new();
            let mut too_large = false;
            for c in chunks {
                if append_body_chunk(&mut buf, c.as_bytes(), max) {
                    too_large = true;
                    break;
                }
            }
            if too_large {
                ingest.on_too_large();
            } else if let Some(m) = ingest.on_body(&buf) {
                sent.push(m);
            }
        }
    }
    for m in &sent {
        ingest.on_delivery(Ok(m.len()));
    }
    assert!(ingest.is_finished());
    let report = ingest.report();
    let plan = plan_response(schema.response_status, None, &report.error);
    (plan, Some(report))
}

fn assert_ingest_response(
    res: (ResponsePlan, Option<IngestResponse>),
    status: u16,
    expected: Option<(&str, u64, u128, &str)>,
) {
    let (plan, report) = res;
    assert_eq!(plan.status, status);
    match expected {
        Some((content_type, count, bytes, schema_id)) => {
            assert!(matches!(plan.body, ResponseBody::Report));
            assert_eq!(
                plan.headers,
                vec![("Content-Type".to_owned(), "application/json".to_owned())]
            );
            let report = report.unwrap();
            assert_eq!(report.ingested_content_type.to_string(), content_type);
            assert_eq!(report.ingested_count, count);
            assert_eq!(report.ingested_bytes, bytes);
            assert_eq!(report.ingested_schema_id, schema_id);
        }
        None => {
            assert!(plan.headers.is_empty());
            match plan.body {
                ResponseBody::Given(b) => assert!(b.is_empty()),
                ResponseBody::Report => panic!("expected an empty body"),
            }
        }
    }
}

const DATA: &str = r#"[{"some":{"nested":"data"}},{"some":{"deeper":{"nested":"data"}}}]"#;

const PADDED: &str = "\n\r\t    \t\t\t    \r\r{\"some\":\"data\"}      \t\t\t\r\r\r\n\r     ";

#[test]
fn test_response_default() {
    let res = request(&state(None), "1", "POST", None, &[DATA]);
    assert_ingest_response(res, 200, Some(("application/json", 1, DATA.len() as u128, "1")));
}

#[test]
fn default_json_scenario() {
    let res = request(&state(None), "1", "POST", None, &["[{\"a\":1}]"]);
    assert_ingest_response(res, 200, Some(("application/json", 1, 9, "1")));
}

#[test]
fn test_response_trim() {
    let res = request(&state(None), "1", "POST", None, &[PADDED]);
    assert_ingest_response(res, 200, Some(("application/json", 1, 15, "1")));
}

#[test]
fn test_response_binary_no_trim() {
    let res = request(&state(Some(ContentType::Binary)), "1", "POST", None, &[PADDED]);
    assert_ingest_response(
        res,
        200,
        Some(("application/octet-stream", 1, PADDED.len() as u128, "1")),
    );
}

#[test]
fn test_response_content_type_from_request() {
    let res = request(
        &state(Some(ContentType::Binary)),
        "1",
        "POST",
        Some("application/json"),
        &[PADDED],
    );
    assert_ingest_response(res, 200, Some(("application/json", 1, 15, "1")));
}

#[test]
fn test_response_content_type_from_request_with_semicolon() {
    let res = request(
        &state(Some(ContentType::Binary)),
        "1",
        "POST",
        Some("application/json; charset=utf-8"),
        &[PADDED],
    );
    assert_ingest_response(res, 200, Some(("application/json", 1, 15, "1")));
}

#[test]
fn test_response_ignore_content_type_from_request() {
    let mut default = SchemaConfig::with_topic("test".to_owned());
    default.content_type = Some(ContentType::Binary);
    default.content_type_from_header = false;
    let res = request(
        &state_with(default, 1024 * 1024),
        "1",
        "POST",
        Some("application/json"),
        &[PADDED],
    );
    assert_ingest_response(res, 200, Some(("application/octet-stream", 1, 50, "1")));
}

#[test]
fn test_response_not_allowed_method() {
    let res = request(&state(None), "1", "PUT", None, &["[{\"a\":1}]"]);
    assert_ingest_response(res, 405, None);
}

#[test]
fn test_response_custom_method() {
    let mut default = SchemaConfig::with_topic("test".to_owned());
    default.allowed_methods = vec!["POST".to_owned(), "PUT".to_owned()];
    let res = request(&state_with(default, 1024 * 1024), "1", "PUT", None, &[DATA]);
    assert_ingest_response(res, 200, Some(("application/json", 1, DATA.len() as u128, "1")));
}

#[test]
fn test_response_ndjson() {
    let res = request(
        &state(Some(ContentType::Jsonlines)),
        "1",
        "POST",
        None,
        &["{\"line1\": \"1\"}\n{\"line2\": \"2\"}\n"],
    );
    assert_ingest_response(res, 200, Some(("application/jsonlines", 2, 28, "1")));
}

#[test]
fn test_response_ndjson_ignore_empty_lines() {
    let res = request(
        &state(Some(ContentType::Jsonlines)),
        "1",
        "POST",
        None,
        &["{\"line1\": \"1\"}\n\n{\"line2\": \"2\"}\n\t\r     \n{\"line3\": \"3\"}\n    \t\t\t\r\n"],
    );
    assert_ingest_response(res, 200, Some(("application/jsonlines", 3, 42, "1")));
}

#[test]
fn ndjson_short_lines_skip_empty_ones() {
    let res = request(
        &state(Some(ContentType::Jsonlines)),
        "1",
        "POST",
        None,
        &["{\"l\":1}\n\n{\"l\":2}\n\t\r     \n{\"l\":3}\n    \t\t\t\r\n"],
    );
    assert_ingest_response(res, 200, Some(("application/jsonlines", 3, 21, "1")));
}

#[test]
fn test_response_ndjson_line_limit_exceeded() {
    let mut default = SchemaConfig::with_topic("test".to_owned());
    default.content_type = Some(ContentType::Jsonlines);
    let res = request(&state_with(default, 2), "1", "POST", None, &["12\n34\n563\n23"]);
    assert_ingest_response(res, 413, Some(("application/jsonlines", 2, 4, "1")));
}

#[test]
fn json_body_over_the_limit() {
    let default = SchemaConfig::with_topic("test".to_owned());
    let res = request(&state_with(default, 8), "1", "POST", None, &["[{\"a\":1}]"]);
    assert_ingest_response(res, 413, Some(("application/json", 0, 0, "1")));
}

#[test]
fn chunked_json_body_over_the_limit() {
    let res = request(
        &state_with(SchemaConfig::with_topic("test".to_owned()), 5),
        "1",
        "POST",
        None,
        &["[{\"a\"", ":1}]"],
    );
    assert_ingest_response(res, 413, Some(("application/json", 0, 0, "1")));
}

#[test]
fn chunked_json_body() {
    let res = request(&state(None), "1", "POST", None, &["[{\"a\"", ":1}]"]);
    assert_ingest_response(res, 200, Some(("application/json", 1, 9, "1")));
}

#[test]
fn whitespace_only_json_body_is_one_empty_message() {
    let mut ingest = Ingest::new("1".to_owned(), ContentType::Json);
    let m = ingest.on_body(" \t\r\n ".as_bytes()).unwrap();
    assert!(m.is_empty());
    assert_eq!(ingest.received, 1);
    ingest.on_delivery(Ok(0));
    let report = ingest.report();
    assert_eq!(report.ingested_count, 1);
    assert_eq!(report.ingested_bytes, 0);
}

#[test]
fn json_body_that_is_not_utf8_is_a_bad_request() {
    let mut ingest = Ingest::new("1".to_owned(), ContentType::Json);
    assert!(ingest.on_body(&[b'"', 0xff, b'"']).is_none());
    assert!(ingest.is_finished());
    let report = ingest.report();
    assert!(matches!(report.error, Some(Error::BadRequest)));
    assert_eq!(plan_response(200, None, &report.error).status, 400);
}

#[test]
fn broker_failure_ends_the_request_with_its_error() {
    let mut ingest = Ingest::new("1".to_owned(), ContentType::Jsonlines);
    assert_eq!(ingest.on_line(b" a ").unwrap(), b"a".to_vec());
    assert_eq!(ingest.on_line(b"bc").unwrap(), b"bc".to_vec());
    assert!(ingest.on_line(b"\t").is_none());
    ingest.on_delivery(Ok(1));
    ingest.on_delivery(Err("queue full".to_owned()));
    assert!(ingest.is_finished());
    ingest.on_delivery(Ok(5));
    let report = ingest.report();
    assert_eq!(report.ingested_count, 1);
    assert_eq!(report.ingested_bytes, 1);
    match &report.error {
        Some(Error::Kafka(t)) => assert_eq!(t, "queue full"),
        _ => panic!("expected the broker's error"),
    }
    assert_eq!(plan_response(200, None, &report.error).status, 500);
}

#[test]
fn first_error_is_kept() {
    let mut ingest = Ingest::new("1".to_owned(), ContentType::Jsonlines);
    ingest.on_line(b"x");
    ingest.on_too_large();
    assert!(!ingest.is_finished());
    ingest.on_delivery(Err("down".to_owned()));
    assert!(ingest.is_finished());
    assert!(matches!(ingest.error, Some(Error::PayloadTooLarge)));
}

#[test]
fn read_error_is_an_internal_error() {
    let mut ingest = Ingest::new("1".to_owned(), ContentType::Binary);
    ingest.on_read_error("reset".to_owned());
    assert!(ingest.is_finished());
    assert_eq!(ingest.error.as_ref().unwrap().status_code(), 500);
    assert_eq!(Error::PayloadTooLarge.status_code(), 413);
    assert_eq!(Error::BadRequest.status_code(), 400);
}

#[test]
fn processor_short_circuit() {
    let mut default = SchemaConfig::with_topic("test".to_owned());
    default.python_request_processor = vec![PythonProcessorConfig {
        methods: None,
        processor: "python_processors:StaticProcessor".to_owned(),
        implements_process_head: false,
        process_is_blocking: false,
        process_head_is_blocking: false,
    }];
    let state = state_with(default, 1024);
    let processor = match state.plan("1", "POST") {
        Plan::Proceed(Some(p)) => p,
        _ => panic!("expected the global processor"),
    };
    assert!(needs_body_stage(&processor, &None));
    let answer = Some(ProcessorResponse {
        forward: false,
        response_status: Some(418),
        response_headers: Some(vec![
            ("a".to_owned(), "b".to_owned()),
            ("c".to_owned(), "d".to_owned()),
        ]),
        response_body: Some(b"body".to_vec()),
    });
    assert!(!should_forward(&answer));
    let report = not_forwarded("1".to_owned());
    assert_eq!(report.ingested_count, 0);
    let plan = plan_response(200, answer, &report.error);
    assert_eq!(plan.status, 418);
    assert_eq!(
        plan.headers,
        vec![("a".to_owned(), "b".to_owned()), ("c".to_owned(), "d".to_owned())]
    );
    match plan.body {
        ResponseBody::Given(b) => assert_eq!(b, b"body".to_vec()),
        ResponseBody::Report => panic!("expected the processor's body"),
    }
}

#[test]
fn processor_head_stage_answers_first() {
    let mut default = SchemaConfig::with_topic("test".to_owned());
    default.python_request_processor = vec![PythonProcessorConfig {
        methods: None,
        processor: "python_processors:HeadOnlyProcessor".to_owned(),
        implements_process_head: true,
        process_is_blocking: false,
        process_head_is_blocking: false,
    }];
    let state = state_with(default, 1024);
    let processor = match state.plan("1", "POST") {
        Plan::Proceed(Some(p)) => p,
        _ => panic!("expected the global processor"),
    };
    assert!(processor.implements_process_head);
    let head = Some(ProcessorResponse {
        forward: false,
        response_status: Some(418),
        response_headers: None,
        response_body: Some(b"head".to_vec()),
    });
    assert!(!needs_body_stage(&processor, &head));
    let plan = plan_response(200, head, &None);
    assert_eq!(plan.status, 418);
    assert!(plan.headers.is_empty());
    match plan.body {
        ResponseBody::Given(b) => assert_eq!(b, b"head".to_vec()),
        ResponseBody::Report => panic!("expected the head stage's body"),
    }
}

#[test]
fn processor_status_wins_over_error_and_own_content_type_is_kept() {
    let answer = Some(ProcessorResponse {
        forward: true,
        response_status: Some(202),
        response_headers: Some(vec![("content-TYPE".to_owned(), "text/plain".to_owned())]),
        response_body: None,
    });
    let plan = plan_response(200, answer, &Some(Error::PayloadTooLarge));
    assert_eq!(plan.status, 202);
    assert_eq!(plan.headers, vec![("content-TYPE".to_owned(), "text/plain".to_owned())]);
    assert!(matches!(plan.body, ResponseBody::Report));
    let plan = plan_response(201, None, &Some(Error::PayloadTooLarge));
    assert_eq!(plan.status, 413);
}

#[test]
fn body_prefix_keeps_what_is_past_the_limit() {
    let mut prefix = BodyPrefix::new(4);
    prefix.on_chunk(b"ab");
    assert!(!prefix.full);
    prefix.on_chunk(b"cde");
    assert!(prefix.full);
    assert_eq!(prefix.read, b"abcd".to_vec());
    assert_eq!(prefix.remaining, b"e".to_vec());
    assert_eq!(prefix.into_body(), b"abcde".to_vec());
    let mut first = BodyPrefix::new(2);
    first.on_chunk(b"xyz");
    assert!(first.full);
    assert_eq!(first.read, b"xy".to_vec());
    assert_eq!(first.remaining, b"z".to_vec());
    let mut exact = BodyPrefix::new(3);
    exact.on_chunk(b"abc");
    assert!(!exact.full);
    exact.on_chunk(b"");
    assert!(!exact.full);
}

#[test]
fn content_type_policy() {
    let h = |s: &'static str| Some(s.as_bytes());
    assert_eq!(resolve_content_type(true, h("application/x-ndjson"), None), ContentType::Jsonlines);
    assert_eq!(resolve_content_type(true, h("application/jsonlines"), None), ContentType::Jsonlines);
    assert_eq!(
        resolve_content_type(true, h("application/x-jsonlines;q=1"), None),
        ContentType::Jsonlines
    );
    assert_eq!(resolve_content_type(true, h("text/plain"), Some(ContentType::Json)), ContentType::Binary);
    assert_eq!(resolve_content_type(true, None, Some(ContentType::Jsonlines)), ContentType::Jsonlines);
    assert_eq!(resolve_content_type(true, None, None), ContentType::Json);
    assert_eq!(resolve_content_type(false, h("application/json"), None), ContentType::Json);
    assert_eq!(
        resolve_content_type(true, Some(&[0xff, b'a']), Some(ContentType::Binary)),
        ContentType::Binary
    );
}

#[test]
fn outbound_headers_follow_the_schema() {
    let names = HeaderNames::default();
    let mut schema = SchemaConfig::with_topic("test".to_owned());
    let meta = RequestMeta {
        schema_id: "1".to_owned(),
        ip: "10.0.0.1".to_owned(),
        url: "/1?x=y".to_owned(),
        method: "POST".to_owned(),
        headers: vec![
            ("x-a".to_owned(), b"1".to_vec()),
            ("x-a".to_owned(), b"2".to_vec()),
        ],
    };
    let plain = outbound_headers(&names, &schema, &meta, "0.1.0");
    assert_eq!(
        plain,
        vec![
            ("ncube-ingest-schema-id".to_owned(), b"1".to_vec()),
            ("ncube-ingest-ip".to_owned(), b"10.0.0.1".to_vec()),
            ("ncube-ingest-version".to_owned(), b"0.1.0".to_vec()),
        ]
    );
    schema.forward_ingest_version = false;
    schema.forward_request_url = true;
    schema.forward_request_method = true;
    schema.forward_request_http_headers = true;
    let all = outbound_headers(&names, &schema, &meta, "0.1.0");
    assert_eq!(
        all,
        vec![
            ("ncube-ingest-schema-id".to_owned(), b"1".to_vec()),
            ("ncube-ingest-ip".to_owned(), b"10.0.0.1".to_vec()),
            ("ncube-ingest-http-url".to_owned(), b"/1?x=y".to_vec()),
            ("ncube-ingest-http-method".to_owned(), b"POST".to_vec()),
            ("ncube-ingest-http-header-x-a".to_owned(), b"1".to_vec()),
            ("ncube-ingest-http-header-x-a".to_owned(), b"2".to_vec()),
        ]
    );
}

#[test]
fn trimming_twice_is_trimming_once() {
    let once = trim_bytes(PADDED.as_bytes());
    assert_eq!(once, b"{\"some\":\"data\"}".to_vec());
    assert_eq!(trim_bytes(&once), once);
    assert!(trim_bytes(b" \t\r\n").is_empty());
}

#[test]
fn header_is_compares_text() {
    assert!(header_is(Some(b"websocket"), "websocket"));
    assert!(!header_is(Some(b"WebSocket"), "websocket"));
    assert!(!header_is(None, "websocket"));
    assert!(!header_is(Some(&[0x80]), "\u{80}"));
}

#[test]
fn defaults() {
    assert_eq!(ingest::config::default_keepalive_seconds(), 300);
    assert_eq!(ingest::config::default_max_event_size_bytes(), 1048576);
    assert!(ingest::config::default_num_workers() >= 1);
    assert_eq!(ingest::config::default_python_plugin_src_dir(), "/usr/local/src/ingest/python/");
    assert_eq!(ingest::config::default_librdkafka_config_name(), "main");
    assert_eq!(ingest::config::default_allowed_methods(), vec!["POST".to_owned()]);
    assert_eq!(ingest::config::default_response_status(), 200);
    assert!(ingest::config::default_content_type().is_none());
    assert!(ingest::config::default_content_type_from_header());
    assert!(ingest::config::default_forward_ingest_version());
    assert!(!ingest::config::default_forward_request_url());
    assert!(!ingest::config::default_forward_request_method());
    assert!(!ingest::config::default_forward_request_http_headers());
    assert_eq!(ContentType::Jsonlines.to_string(), "application/jsonlines");
    assert_eq!(HeaderNames::default().http_header_prefix, "ncube-ingest-http-header-");
}

#[test]
fn json_body_at_the_limit_is_accepted() {
    let res = request(
        &state_with(SchemaConfig::with_topic("test".to_owned()), 9),
        "1",
        "POST",
        None,
        &["[{\"a\"", ":1}]"],
    );
    assert_ingest_response(res, 200, Some(("application/json", 1, 9, "1")));
}

#[test]
fn empty_json_body_is_one_empty_message() {
    let res = request(&state(None), "1", "POST", None, &[""]);
    assert_ingest_response(res, 200, Some(("application/json", 1, 0, "1")));
}

#[test]
fn chunked_ndjson_line_limit_exceeded() {
    let mut default = SchemaConfig::with_topic("test".to_owned());
    default.content_type = Some(ContentType::Jsonlines);
    let res = request(&state_with(default, 2), "1", "POST", None, &["11\n", "22\r\n3", "334\n44"]);
    assert_ingest_response(res, 413, Some(("application/jsonlines", 2, 4, "1")));
}

#[test]
fn line_framer_cuts_at_line_feeds_across_chunks() {
    let mut framer = LineFramer::new();
    assert_eq!(framer.push(b"ab"), Vec::<Vec<u8>>::new());
    assert_eq!(framer.push(b"c\r\n\nd"), vec![b"abc".to_vec(), b"".to_vec()]);
    assert!(!framer.pending_exceeds(1));
    assert!(framer.pending_exceeds(0) == false);
    assert_eq!(framer.push(b"ef\r"), Vec::<Vec<u8>>::new());
    assert!(framer.pending_exceeds(2));
    assert!(!framer.pending_exceeds(3));
    assert_eq!(framer.finish(), Some(b"def".to_vec()));
    assert_eq!(LineFramer::new().finish(), None);
}

#[test]
fn framed_line_over_the_limit_ends_reading() {
    let mut ingest = Ingest::new("1".to_owned(), ContentType::Jsonlines);
    assert_eq!(ingest.on_framed_line(b" ab ", 4), Some(b"ab".to_vec()));
    assert!(ingest.on_framed_line(b"abcde", 4).is_none());
    assert!(!ingest.reading);
    assert!(matches!(ingest.error, Some(Error::PayloadTooLarge)));
    assert_eq!(ingest.received, 1);
}
