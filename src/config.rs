use vstd::prelude::*;
use vstd::string::*;

verus! {

/// How a request body is cut into messages.
#[derive(Clone, Copy, Debug, PartialEq, Eq, Structural)]
pub enum ContentType {
    /// One UTF-8 message, trimmed.
    Json,
    /// One message per non-empty line.
    Jsonlines,
    /// One message, the body as it came.
    Binary,
}

/// The media type that names a content type in reports.
pub open spec fn content_type_name(c: ContentType) -> Seq<char> {
    match c {
        ContentType::Json => "application/json"@,
        ContentType::Jsonlines => "application/jsonlines"@,
        ContentType::Binary => "application/octet-stream"@,
    }
}

impl ContentType {
    /// The media type of this content type, as written in the ingest report.
    pub fn to_string(&self) -> (r: String)
        ensures
            r@ == content_type_name(*self),
    {
        match self {
            ContentType::Json => String::from_str("application/json"),
            ContentType::Jsonlines => String::from_str("application/jsonlines"),
            ContentType::Binary => String::from_str("application/octet-stream"),
        }
    }
}

/// Names of the metadata headers attached to every outbound message.
#[derive(Clone, Debug)]
pub struct HeaderNames {
    pub schema_id: String,
    pub ip: String,
    pub http_url: String,
    pub http_method: String,
    pub http_header_prefix: String,
    pub ingest_version: String,
}

impl Default for HeaderNames {
    fn default() -> (r: HeaderNames)
        ensures
            r.schema_id@ == "ncube-ingest-schema-id"@,
            r.ip@ == "ncube-ingest-ip"@,
            r.http_url@ == "ncube-ingest-http-url"@,
            r.http_method@ == "ncube-ingest-http-method"@,
            r.http_header_prefix@ == "ncube-ingest-http-header-"@,
            r.ingest_version@ == "ncube-ingest-version"@,
    {
        HeaderNames {
            schema_id: String::from_str("ncube-ingest-schema-id"),
            ip: String::from_str("ncube-ingest-ip"),
            http_url: String::from_str("ncube-ingest-http-url"),
            http_method: String::from_str("ncube-ingest-http-method"),
            http_header_prefix: String::from_str("ncube-ingest-http-header-"),
            ingest_version: String::from_str("ncube-ingest-version"),
        }
    }
}

/// Secret settings of a producer that are read from files.
#[derive(Clone, Debug)]
pub struct KafkaSecrets {
    pub sasl_password_path: Option<String>,
}

impl Default for KafkaSecrets {
    fn default() -> (r: KafkaSecrets)
        ensures
            r.sasl_password_path is None,
    {
        KafkaSecrets { sasl_password_path: None }
    }
}

/// The recipe of one named producer: its broker-client options and secrets.
#[derive(Clone, Debug)]
pub struct LibrdkafkaConfig {
    pub name: String,
    /// Broker-client options, one (key, value) pair per option.
    pub config: Vec<(String, String)>,
    pub secrets: KafkaSecrets,
}

impl Default for LibrdkafkaConfig {
    fn default() -> (r: LibrdkafkaConfig)
        ensures
            r.name@ == "main"@,
            r.config@.len() == 0,
            r.secrets.sasl_password_path is None,
    {
        LibrdkafkaConfig {
            name: default_librdkafka_config_name(),
            config: Vec::new(),
            secrets: KafkaSecrets::default(),
        }
    }
}

/// Binds a request processor, named by its callable path, to a schema; to the methods
/// listed, or to every method when none are.
#[derive(Clone, Debug)]
pub struct PythonProcessorConfig {
    pub methods: Option<Vec<String>>,
    pub processor: String,
    pub implements_process_head: bool,
    pub process_is_blocking: bool,
    pub process_head_is_blocking: bool,
}

/// The full policy of one schema.
#[derive(Clone, Debug)]
pub struct SchemaConfig {
    pub content_type_from_header: bool,
    pub content_type: Option<ContentType>,
    pub forward_request_url: bool,
    pub forward_request_method: bool,
    pub forward_request_http_headers: bool,
    pub forward_ingest_version: bool,
    pub response_status: u16,
    /// Never empty.
    pub allowed_methods: Vec<String>,
    pub destination_topic: String,
    pub python_request_processor: Vec<PythonProcessorConfig>,
    pub librdkafka_config: String,
}

/// The policy of one schema where every absent field is taken from the default schema.
#[derive(Clone, Debug)]
pub struct PartialSchemaConfig {
    pub content_type_from_header: Option<bool>,
    pub content_type: Option<ContentType>,
    pub forward_request_url: Option<bool>,
    pub forward_request_method: Option<bool>,
    pub forward_request_http_headers: Option<bool>,
    pub forward_ingest_version: Option<bool>,
    pub response_status: Option<u16>,
    pub allowed_methods: Option<Vec<String>>,
    pub destination_topic: Option<String>,
    pub python_request_processor: Vec<PythonProcessorConfig>,
    pub librdkafka_config: Option<String>,
}

impl Default for PartialSchemaConfig {
    fn default() -> (r: PartialSchemaConfig)
        ensures
            r.content_type_from_header is None,
            r.content_type is None,
            r.forward_request_url is None,
            r.forward_request_method is None,
            r.forward_request_http_headers is None,
            r.forward_ingest_version is None,
            r.response_status is None,
            r.allowed_methods is None,
            r.destination_topic is None,
            r.python_request_processor@.len() == 0,
            r.librdkafka_config is None,
    {
        PartialSchemaConfig {
            content_type_from_header: None,
            content_type: None,
            forward_request_url: None,
            forward_request_method: None,
            forward_request_http_headers: None,
            forward_ingest_version: None,
            response_status: None,
            allowed_methods: None,
            destination_topic: None,
            python_request_processor: Vec::new(),
            librdkafka_config: None,
        }
    }
}

/// A schema override together with the schema it applies to.
#[derive(Clone, Debug)]
pub struct PartialSchemaConfigWithSchemaId {
    pub schema_id: String,
    pub schema_config: PartialSchemaConfig,
}

/// Seconds an idle keep-alive connection is held open.
pub fn default_keepalive_seconds() -> (r: u64)
    ensures
        r == 300,
{
    300
}

/// The largest message, and the largest body prefix a processor sees: one mebibyte.
pub fn default_max_event_size_bytes() -> (r: u64)
    ensures
        r == 1024 * 1024,
{
    1024 * 1024
}

/// Relies on num_cpus::get_physical, the number of physical cores, which it documents as
/// at least one.
#[verifier::external_body]
fn physical_cores() -> (r: usize)
    ensures
        r >= 1,
{
    num_cpus::get_physical()
}

/// One worker per physical core.
pub fn default_num_workers() -> (r: usize)
    ensures
        r >= 1,
{
    physical_cores()
}

pub fn default_python_plugin_src_dir() -> (r: String)
    ensures
        r@ == "/usr/local/src/ingest/python/"@,
{
    String::from_str("/usr/local/src/ingest/python/")
}

pub fn default_content_type_from_header() -> (r: bool)
    ensures
        r,
{
    true
}

pub fn default_content_type() -> (r: Option<ContentType>)
    ensures
        r is None,
{
    None
}

pub fn default_forward_request_url() -> (r: bool)
    ensures
        !r,
{
    false
}

pub fn default_forward_request_http_headers() -> (r: bool)
    ensures
        !r,
{
    false
}

pub fn default_forward_request_method() -> (r: bool)
    ensures
        !r,
{
    false
}

pub fn default_response_status() -> (r: u16)
    ensures
        r == 200,
{
    200
}

pub fn default_forward_ingest_version() -> (r: bool)
    ensures
        r,
{
    true
}

pub fn default_allowed_methods() -> (r: Vec<String>)
    ensures
        r@.len() == 1,
        r@[0]@ == "POST"@,
{
    let mut v: Vec<String> = Vec::new();
    v.push(String::from_str("POST"));
    v
}

pub fn default_librdkafka_config_name() -> (r: String)
    ensures
        r@ == "main"@,
{
    String::from_str("main")
}

impl SchemaConfig {
    /// The schema policy that sends to `destination_topic` with every other field at its
    /// default.
    pub fn with_topic(destination_topic: String) -> (r: SchemaConfig)
        ensures
            r.destination_topic == destination_topic,
            r.content_type_from_header,
            r.content_type is None,
            !r.forward_request_url,
            !r.forward_request_method,
            !r.forward_request_http_headers,
            r.forward_ingest_version,
            r.response_status == 200,
            r.allowed_methods@.len() == 1,
            r.allowed_methods@[0]@ == "POST"@,
            r.python_request_processor@.len() == 0,
            r.librdkafka_config@ == "main"@,
    {
        SchemaConfig {
            content_type_from_header: default_content_type_from_header(),
            content_type: default_content_type(),
            forward_request_url: default_forward_request_url(),
            forward_request_method: default_forward_request_method(),
            forward_request_http_headers: default_forward_request_http_headers(),
            forward_ingest_version: default_forward_ingest_version(),
            response_status: default_response_status(),
            allowed_methods: default_allowed_methods(),
            destination_topic,
            python_request_processor: Vec::new(),
            librdkafka_config: default_librdkafka_config_name(),
        }
    }
}

/// Whether a header is present, made of visible ASCII, and equal to `value`.
pub open spec fn header_is_spec(header: Option<Seq<u8>>, value: Seq<char>) -> bool {
    match header {
        Some(h) => visible_ascii(h) && h.len() == value.len() && forall|k: int|
            0 <= k < h.len() ==> value[k] == h[k] as char,
        None => false,
    }
}

/// The bytes that a header value may hold to be read as text: tab and visible ASCII.
pub open spec fn visible_ascii_byte(b: u8) -> bool {
    b == 9 || (32 <= b && b < 127)
}

pub open spec fn visible_ascii(h: Seq<u8>) -> bool {
    forall|k: int| 0 <= k < h.len() ==> visible_ascii_byte(#[trigger] h[k])
}

/// Whether every byte of `h` is a tab or visible ASCII.
pub fn is_visible_ascii(h: &[u8]) -> (r: bool)
    ensures
        r == visible_ascii(h@),
{
    let mut i: usize = 0;
    while i < h.len()
        invariant
            i <= h@.len(),
            forall|k: int| 0 <= k < i ==> visible_ascii_byte(#[trigger] h@[k]),
        decreases h@.len() - i,
    {
        let b = h[i];
        if !(b == 9 || (32 <= b && b < 127)) {
            return false;
        }
        i = i + 1;
    }
    true
}

/// Whether the header is present, reads as text, and equals `value`.
pub fn header_is(header: Option<&[u8]>, value: &str) -> (r: bool)
    ensures
        r == header_is_spec(
            match header {
                Some(h) => Some(h@),
                None => None,
            },
            value@,
        ),
{
    match header {
        None => false,
        Some(h) => {
            if !is_visible_ascii(h) {
                return false;
            }
            let n = value.unicode_len();
            if h.len() != n {
                return false;
            }
            let mut i: usize = 0;
            while i < n
                invariant
                    header == Some(h),
                    visible_ascii(h@),
                    i <= n,
                    n == h@.len(),
                    n == value@.len(),
                    forall|k: int| 0 <= k < i ==> value@[k] == h@[k] as char,
                decreases n - i,
            {
                if value.get_char(i) != h[i] as char {
                    assert(value@[i as int] != h@[i as int] as char);
                    return false;
                }
                i = i + 1;
            }
            true
        },
    }
}

} // verus!
