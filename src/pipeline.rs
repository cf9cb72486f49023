use vstd::prelude::*;
use vstd::slice::slice_subrange;
use vstd::slice::slice_to_vec;
use vstd::string::*;
use vstd::utf8::encode_utf8;
use vstd::utf8::valid_utf8;

use crate::config::header_is;
use crate::config::header_is_spec;
use crate::config::is_visible_ascii;
use crate::config::visible_ascii;
use crate::config::ContentType;
use crate::config::HeaderNames;
use crate::config::SchemaConfig;
use crate::error::status_of;
use crate::error::Error;
use crate::framing::is_trim_byte;
use crate::framing::lemma_trim_whitespace_only;
use crate::framing::trim_bytes;
use crate::framing::trimmed;
use crate::headers::ascii_lower;
use crate::headers::ascii_lowercase;
use crate::methods::text_equal;
use crate::processors::ProcessorResponse;
use crate::processors::PythonProcessor;

verus! {

/// Relies on std::str::from_utf8, which succeeds exactly on well-formed UTF-8.
#[verifier::external_body]
fn is_utf8(b: &[u8]) -> (r: bool)
    ensures
        r == valid_utf8(b@),
{
    std::str::from_utf8(b).is_ok()
}

/// The bytes of a header value before its first `;`: the media type without parameters.
pub open spec fn media_type(h: Seq<u8>) -> Seq<u8>
    decreases h.len(),
{
    if h.len() == 0 || h[0] == 59 {
        seq![]
    } else {
        seq![h[0]] + media_type(h.drop_first())
    }
}

/// The content type a media type announces.
pub open spec fn classify_media_type(m: Seq<u8>) -> ContentType {
    if header_is_spec(Some(m), "application/json"@) {
        ContentType::Json
    } else if header_is_spec(Some(m), "application/x-ndjson"@) || header_is_spec(
        Some(m),
        "application/jsonlines"@,
    ) || header_is_spec(Some(m), "application/x-jsonlines"@) {
        ContentType::Jsonlines
    } else {
        ContentType::Binary
    }
}

/// The content type a request body is parsed as: from its `Content-Type` header when the
/// schema says so and the header reads as text, else the schema's own, else JSON.
pub open spec fn effective_content_type(
    from_header: bool,
    header: Option<Seq<u8>>,
    configured: Option<ContentType>,
) -> ContentType {
    let fallback = match configured {
        Some(c) => c,
        None => ContentType::Json,
    };
    if from_header {
        match header {
            Some(h) => if visible_ascii(h) {
                classify_media_type(media_type(h))
            } else {
                fallback
            },
            None => fallback,
        }
    } else {
        fallback
    }
}

/// Resolves the content type of a request body from the schema policy and the request's
/// `Content-Type` header value, if it has one.
pub fn resolve_content_type(
    from_header: bool,
    header: Option<&[u8]>,
    configured: Option<ContentType>,
) -> (r: ContentType)
    ensures
        r == effective_content_type(
            from_header,
            match header {
                Some(h) => Some(h@),
                None => None,
            },
            configured,
        ),
{
    let fallback = match configured {
        Some(c) => c,
        None => ContentType::Json,
    };
    if !from_header {
        return fallback;
    }
    match header {
        None => fallback,
        Some(h) => {
            if !is_visible_ascii(h) {
                return fallback;
            }
            let n = h.len();
            let mut i: usize = 0;
            assert(h@.subrange(0, 0) + media_type(h@.subrange(0, n as int)) =~= media_type(h@))
                by {
                assert(h@.subrange(0, n as int) =~= h@);
            }
            while i < n && h[i] != 59
                invariant
                    i <= n,
                    n == h@.len(),
                    media_type(h@) == h@.subrange(0, i as int) + media_type(
                        h@.subrange(i as int, n as int),
                    ),
                decreases n - i,
            {
                let ghost rest = h@.subrange(i as int, n as int);
                assert(rest.drop_first() =~= h@.subrange(i + 1, n as int));
                assert(h@.subrange(0, i + 1) =~= h@.subrange(0, i as int) + seq![h@[i as int]]);
                assert(h@.subrange(0, i as int) + media_type(rest) =~= h@.subrange(0, i + 1)
                    + media_type(h@.subrange(i + 1, n as int)));
                i = i + 1;
            }
            assert(media_type(h@.subrange(i as int, n as int)) =~= seq![]);
            assert(media_type(h@) =~= h@.subrange(0, i as int));
            let m = slice_subrange(h, 0, i);
            if header_is(Some(m), "application/json") {
                ContentType::Json
            } else if header_is(Some(m), "application/x-ndjson") || header_is(
                Some(m),
                "application/jsonlines",
            ) || header_is(Some(m), "application/x-jsonlines") {
                ContentType::Jsonlines
            } else {
                ContentType::Binary
            }
        },
    }
}

/// The bytes of `s` in UTF-8.
pub fn text_bytes(s: &str) -> (r: Vec<u8>)
    ensures
        r@ == encode_utf8(s@),
{
    slice_to_vec(s.as_bytes())
}

/// What the gateway knows of a request when it forwards it.
pub struct RequestMeta {
    pub schema_id: String,
    /// The client's address, empty when unknown.
    pub ip: String,
    pub url: String,
    pub method: String,
    /// The request headers as (name, value), duplicates kept.
    pub headers: Vec<(String, Vec<u8>)>,
}

/// The (name, value) pairs of a header list.
pub open spec fn header_pairs(v: Seq<(String, Vec<u8>)>) -> Seq<(Seq<char>, Seq<u8>)> {
    v.map_values(|e: (String, Vec<u8>)| (e.0@, e.1@))
}

/// The metadata headers of every message of a request: schema id and client address always;
/// the gateway version, the URL and the method when the schema forwards them; and when it
/// forwards request headers, each of them under the prefixed name.
pub open spec fn outbound_spec(
    names: HeaderNames,
    schema: SchemaConfig,
    meta: RequestMeta,
    version: Seq<char>,
) -> Seq<(Seq<char>, Seq<u8>)> {
    seq![
        (names.schema_id@, encode_utf8(meta.schema_id@)),
        (names.ip@, encode_utf8(meta.ip@)),
    ] + (if schema.forward_ingest_version {
        seq![(names.ingest_version@, encode_utf8(version))]
    } else {
        seq![]
    }) + (if schema.forward_request_url {
        seq![(names.http_url@, encode_utf8(meta.url@))]
    } else {
        seq![]
    }) + (if schema.forward_request_method {
        seq![(names.http_method@, encode_utf8(meta.method@))]
    } else {
        seq![]
    }) + (if schema.forward_request_http_headers {
        header_pairs(meta.headers@).map_values(
            |e: (Seq<char>, Seq<u8>)| (names.http_header_prefix@ + e.0, e.1),
        )
    } else {
        seq![]
    })
}

fn push_header(out: &mut Vec<(String, Vec<u8>)>, name: &String, value: &str)
    ensures
        header_pairs(final(out)@) == header_pairs(old(out)@).push((name@, encode_utf8(value@))),
{
    let ghost prev = out@;
    out.push((name.clone(), text_bytes(value)));
    assert(header_pairs(out@) =~= header_pairs(prev).push((name@, encode_utf8(value@))));
}

/// Builds the metadata headers attached to every message of a request.
pub fn outbound_headers(
    names: &HeaderNames,
    schema: &SchemaConfig,
    meta: &RequestMeta,
    version: &str,
) -> (r: Vec<(String, Vec<u8>)>)
    ensures
        header_pairs(r@) == outbound_spec(*names, *schema, *meta, version@),
{
    let mut out: Vec<(String, Vec<u8>)> = Vec::new();
    push_header(&mut out, &names.schema_id, meta.schema_id.as_str());
    push_header(&mut out, &names.ip, meta.ip.as_str());
    let ghost base = header_pairs(out@);
    if schema.forward_ingest_version {
        push_header(&mut out, &names.ingest_version, version);
    }
    let ghost with_version = header_pairs(out@);
    if schema.forward_request_url {
        push_header(&mut out, &names.http_url, meta.url.as_str());
    }
    let ghost with_url = header_pairs(out@);
    if schema.forward_request_method {
        push_header(&mut out, &names.http_method, meta.method.as_str());
    }
    let ghost with_method = header_pairs(out@);
    let ghost forwarded = header_pairs(meta.headers@).map_values(
        |e: (Seq<char>, Seq<u8>)| (names.http_header_prefix@ + e.0, e.1),
    );
    if schema.forward_request_http_headers {
        let mut i: usize = 0;
        while i < meta.headers.len()
            invariant
                i <= meta.headers@.len(),
                header_pairs(out@) == with_method + forwarded.subrange(0, i as int),
                forwarded.len() == meta.headers@.len(),
                forwarded == header_pairs(meta.headers@).map_values(
                    |e: (Seq<char>, Seq<u8>)| (names.http_header_prefix@ + e.0, e.1),
                ),
            decreases meta.headers@.len() - i,
        {
            let name = names.http_header_prefix.clone().concat(meta.headers[i].0.as_str());
            let value = slice_to_vec(meta.headers[i].1.as_slice());
            let ghost prev = out@;
            out.push((name, value));
            assert(header_pairs(meta.headers@)[i as int] == (
                meta.headers@[i as int].0@,
                meta.headers@[i as int].1@,
            ));
            assert(forwarded[i as int] == (
                names.http_header_prefix@ + meta.headers@[i as int].0@,
                meta.headers@[i as int].1@,
            ));
            assert(header_pairs(out@) =~= header_pairs(prev).push(forwarded[i as int]));
            assert(with_method + forwarded.subrange(0, i + 1) =~= (with_method
                + forwarded.subrange(0, i as int)).push(forwarded[i as int]));
            i = i + 1;
        }
        assert(forwarded.subrange(0, forwarded.len() as int) =~= forwarded);
    } else {
        assert(with_method + seq![] =~= with_method);
    }
    assert(header_pairs(out@) =~= outbound_spec(*names, *schema, *meta, version@));
    out
}

/// One message on its way to the broker. The key is always empty, which lets the
/// producer's partitioner spread messages over partitions.
pub struct OutboundRecord {
    pub topic: String,
    pub producer_name: String,
    pub key: String,
    pub headers: Vec<(String, Vec<u8>)>,
    pub payload: Vec<u8>,
}

/// The record that carries `payload` with the metadata `headers` to the schema's topic on
/// the schema's producer.
pub fn outbound_record(schema: &SchemaConfig, headers: &Vec<(String, Vec<u8>)>, payload: Vec<u8>) -> (r:
    OutboundRecord)
    ensures
        r.topic@ == schema.destination_topic@,
        r.producer_name@ == schema.librdkafka_config@,
        r.key@.len() == 0,
        header_pairs(r.headers@) == header_pairs(headers@),
        r.payload == payload,
{
    let mut copy: Vec<(String, Vec<u8>)> = Vec::new();
    let mut i: usize = 0;
    while i < headers.len()
        invariant
            i <= headers@.len(),
            copy@.len() == i,
            header_pairs(copy@) == header_pairs(headers@.subrange(0, i as int)),
        decreases headers@.len() - i,
    {
        let ghost prev = copy@;
        copy.push((headers[i].0.clone(), slice_to_vec(headers[i].1.as_slice())));
        assert forall|k: int| 0 <= k < i + 1 implies header_pairs(copy@)[k] == header_pairs(
            headers@.subrange(0, i + 1),
        )[k] by {
            if k < i {
                assert(copy@[k] == prev[k]);
                assert(header_pairs(prev)[k] == header_pairs(headers@.subrange(0, i as int))[k]);
            }
        }
        assert(header_pairs(copy@) =~= header_pairs(headers@.subrange(0, i + 1)));
        i = i + 1;
    }
    assert(headers@.subrange(0, headers@.len() as int) =~= headers@);
    OutboundRecord {
        topic: schema.destination_topic.clone(),
        producer_name: schema.librdkafka_config.clone(),
        key: String::new(),
        headers: copy,
        payload,
    }
}

/// Appends a chunk of a single-message body to what was read so far; tells whether the
/// body now exceeds `max` bytes.
pub fn append_body_chunk(body: &mut Vec<u8>, chunk: &[u8], max: usize) -> (exceeded: bool)
    ensures
        final(body)@ == old(body)@ + chunk@,
        exceeded == (final(body)@.len() > max),
{
    let mut i: usize = 0;
    let ghost start = body@;
    while i < chunk.len()
        invariant
            i <= chunk@.len(),
            body@ == start + chunk@.subrange(0, i as int),
        decreases chunk@.len() - i,
    {
        body.push(chunk[i]);
        assert(body@ =~= start + chunk@.subrange(0, i + 1));
        i = i + 1;
    }
    assert(chunk@.subrange(0, chunk@.len() as int) =~= chunk@);
    body.len() > max
}

/// The message that a whole single-message body becomes: a JSON body must be UTF-8 and is
/// trimmed; a binary body is sent as it came. None for a JSON body that is not UTF-8.
pub open spec fn single_payload(content_type: ContentType, body: Seq<u8>) -> Option<Seq<u8>> {
    match content_type {
        ContentType::Json => if valid_utf8(body) {
            Some(trimmed(body))
        } else {
            None
        },
        _ => Some(body),
    }
}

proof fn lemma_ascii_is_utf8(s: Seq<u8>)
    requires
        forall|k: int| 0 <= k < s.len() ==> #[trigger] s[k] < 128,
    ensures
        valid_utf8(s),
    decreases s.len(),
{
    if s.len() > 0 {
        assert(vstd::utf8::pop_first_scalar(s) =~= s.drop_first());
        assert forall|k: int| 0 <= k < s.drop_first().len() implies #[trigger] s.drop_first()[k]
            < 128 by {
            assert(s.drop_first()[k] == s[k + 1]);
        }
        lemma_ascii_is_utf8(s.drop_first());
    }
}

/// A JSON body of whitespace alone is one message, and that message is empty.
pub proof fn lemma_whitespace_body_is_one_empty_message(body: Seq<u8>)
    requires
        forall|k: int| 0 <= k < body.len() ==> is_trim_byte(#[trigger] body[k]),
    ensures
        single_payload(ContentType::Json, body) == Some(Seq::<u8>::empty()),
{
    assert forall|k: int| 0 <= k < body.len() implies #[trigger] body[k] < 128 by {
        assert(is_trim_byte(body[k]));
    }
    lemma_ascii_is_utf8(body);
    lemma_trim_whitespace_only(body);
    assert(trimmed(body) =~= Seq::<u8>::empty());
}

/// The sum of a sequence of lengths.
pub open spec fn total(s: Seq<nat>) -> nat
    decreases s.len(),
{
    if s.len() == 0 {
        0
    } else {
        total(s.drop_last()) + s.last()
    }
}

/// Two to the sixty-fourth: more than any message length or message count.
pub open spec fn bound64() -> int {
    0x1_0000_0000_0000_0000
}

/// The delivery accounting of one request, driven by the events of its body and of the
/// broker: messages dispatched, acknowledged and failed, bytes acknowledged, and the first
/// error. `acked` holds the length of each acknowledged message.
pub struct Ingest {
    pub schema_id: String,
    pub content_type: ContentType,
    pub received: u64,
    pub delivered: u64,
    pub failed: u64,
    pub bytes: u128,
    pub error: Option<Error>,
    /// The body is still being read.
    pub reading: bool,
    /// No more deliveries are awaited.
    pub closed: bool,
    pub acked: Ghost<Seq<nat>>,
}

/// The report sent back for a request, and the error that ended it, if any.
pub struct IngestResponse {
    pub ingested_count: u64,
    pub ingested_bytes: u128,
    pub ingested_content_type: ContentType,
    pub ingested_schema_id: String,
    pub error: Option<Error>,
}

impl Ingest {
    pub open spec fn wf(&self) -> bool {
        &&& self.delivered + self.failed <= self.received
        &&& self.delivered == self.acked@.len()
        &&& self.bytes == total(self.acked@)
        &&& self.bytes <= self.delivered * bound64()
        &&& (self.closed ==> !self.reading)
    }

    /// Whether every dispatched message has been acknowledged or has failed.
    pub open spec fn settled(&self) -> bool {
        self.delivered + self.failed == self.received
    }

    /// A request whose body is about to be read.
    pub fn new(schema_id: String, content_type: ContentType) -> (r: Ingest)
        ensures
            r.wf(),
            r.schema_id == schema_id,
            r.content_type == content_type,
            r.received == 0 && r.delivered == 0 && r.failed == 0 && r.bytes == 0,
            r.error is None,
            r.reading && !r.closed,
            r.acked@.len() == 0,
    {
        Ingest {
            schema_id,
            content_type,
            received: 0,
            delivered: 0,
            failed: 0,
            bytes: 0,
            error: None,
            reading: true,
            closed: false,
            acked: Ghost(Seq::empty()),
        }
    }

    fn record(&mut self, e: Error)
        ensures
            final(self).error == (match old(self).error {
                Some(x) => Some(x),
                None => Some(e),
            }),
            final(self).received == old(self).received,
            final(self).delivered == old(self).delivered,
            final(self).failed == old(self).failed,
            final(self).bytes == old(self).bytes,
            final(self).reading == old(self).reading,
            final(self).closed == old(self).closed,
            final(self).acked == old(self).acked,
            final(self).schema_id == old(self).schema_id,
            final(self).content_type == old(self).content_type,
    {
        if self.error.is_none() {
            self.error = Some(e);
        }
    }

    fn stop_reading(&mut self)
        requires
            old(self).wf(),
        ensures
            final(self).wf(),
            !final(self).reading,
            final(self).closed == old(self).settled(),
            final(self).error == old(self).error,
            final(self).received == old(self).received,
            final(self).delivered == old(self).delivered,
            final(self).failed == old(self).failed,
            final(self).bytes == old(self).bytes,
            final(self).acked == old(self).acked,
            final(self).schema_id == old(self).schema_id,
            final(self).content_type == old(self).content_type,
    {
        self.reading = false;
        self.closed = self.delivered + self.failed == self.received;
    }

    /// A line of a JSON-lines body. Returns the message to send: the trimmed line, or None
    /// for a line of whitespace alone or when no more messages can be counted.
    pub fn on_line(&mut self, line: &[u8]) -> (r: Option<Vec<u8>>)
        requires
            old(self).wf(),
            old(self).reading,
        ensures
            final(self).wf(),
            final(self).reading,
            !final(self).closed,
            final(self).error == old(self).error,
            final(self).delivered == old(self).delivered,
            final(self).failed == old(self).failed,
            final(self).bytes == old(self).bytes,
            final(self).acked == old(self).acked,
            final(self).schema_id == old(self).schema_id,
            final(self).content_type == old(self).content_type,
            old(self).received < u64::MAX && trimmed(line@).len() > 0 ==> r is Some && r->0@
                == trimmed(line@) && final(self).received == old(self).received + 1,
            !(old(self).received < u64::MAX && trimmed(line@).len() > 0) ==> r is None
                && final(self).received == old(self).received,
    {
        let data = trim_bytes(line);
        if data.len() == 0 || self.received == u64::MAX {
            return None;
        }
        self.received = self.received + 1;
        Some(data)
    }

    /// A line that a line framer cut from a JSON-lines body. A line longer than `max` bytes
    /// ends reading with `PayloadTooLarge`; any other is taken as `on_line` takes it.
    pub fn on_framed_line(&mut self, line: &[u8], max: usize) -> (r: Option<Vec<u8>>)
        requires
            old(self).wf(),
            old(self).reading,
        ensures
            final(self).wf(),
            final(self).delivered == old(self).delivered,
            final(self).failed == old(self).failed,
            final(self).bytes == old(self).bytes,
            final(self).acked == old(self).acked,
            final(self).schema_id == old(self).schema_id,
            final(self).content_type == old(self).content_type,
            line@.len() > max ==> r is None && !final(self).reading && final(self).received == old(
                self,
            ).received && final(self).closed == old(self).settled() && final(self).error == (
            match old(self).error {
                Some(x) => Some(x),
                None => Some(Error::PayloadTooLarge),
            }),
            line@.len() <= max ==> final(self).reading && !final(self).closed && final(self).error
                == old(self).error && (old(self).received < u64::MAX && trimmed(line@).len() > 0
                ==> r is Some && r->0@ == trimmed(line@) && final(self).received == old(
                self,
            ).received + 1) && (!(old(self).received < u64::MAX && trimmed(line@).len() > 0)
                ==> r is None && final(self).received == old(self).received),
    {
        if line.len() > max {
            self.on_too_large();
            return None;
        }
        self.on_line(line)
    }

    /// The whole body of a single-message request has been read. Returns the message to send,
    /// or None when the body is rejected, which ends the request with `BadRequest`.
    pub fn on_body(&mut self, body: &[u8]) -> (r: Option<Vec<u8>>)
        requires
            old(self).wf(),
            old(self).reading,
            old(self).received == 0,
        ensures
            final(self).wf(),
            !final(self).reading,
            final(self).delivered == old(self).delivered,
            final(self).failed == old(self).failed,
            final(self).bytes == old(self).bytes,
            final(self).acked == old(self).acked,
            final(self).schema_id == old(self).schema_id,
            final(self).content_type == old(self).content_type,
            match single_payload(old(self).content_type, body@) {
                Some(p) => r is Some && r->0@ == p && final(self).received == 1
                    && !final(self).closed && final(self).error == old(self).error,
                None => r is None && final(self).received == 0 && final(self).closed
                    && final(self).error == (match old(self).error {
                    Some(x) => Some(x),
                    None => Some(Error::BadRequest),
                }),
            },
    {
        let payload = match self.content_type {
            ContentType::Json => {
                if !is_utf8(body) {
                    self.record(Error::BadRequest);
                    self.stop_reading();
                    return None;
                }
                trim_bytes(body)
            },
            _ => slice_to_vec(body),
        };
        self.received = 1;
        self.reading = false;
        Some(payload)
    }

    /// A message exceeded the size bound; no more of the body is read.
    pub fn on_too_large(&mut self)
        requires
            old(self).wf(),
        ensures
            final(self).wf(),
            !final(self).reading,
            final(self).closed == old(self).settled(),
            final(self).error == (match old(self).error {
                Some(x) => Some(x),
                None => Some(Error::PayloadTooLarge),
            }),
            final(self).received == old(self).received,
            final(self).delivered == old(self).delivered,
            final(self).failed == old(self).failed,
            final(self).bytes == old(self).bytes,
            final(self).acked == old(self).acked,
            final(self).schema_id == old(self).schema_id,
            final(self).content_type == old(self).content_type,
    {
        self.record(Error::PayloadTooLarge);
        self.stop_reading();
    }

    /// Reading the body failed; no more of it is read.
    pub fn on_read_error(&mut self, text: String)
        requires
            old(self).wf(),
        ensures
            final(self).wf(),
            !final(self).reading,
            final(self).closed == old(self).settled(),
            final(self).error == (match old(self).error {
                Some(x) => Some(x),
                None => Some(Error::IO(text)),
            }),
            final(self).received == old(self).received,
            final(self).delivered == old(self).delivered,
            final(self).failed == old(self).failed,
            final(self).bytes == old(self).bytes,
            final(self).acked == old(self).acked,
            final(self).schema_id == old(self).schema_id,
            final(self).content_type == old(self).content_type,
    {
        self.record(Error::IO(text));
        self.stop_reading();
    }

    /// The body has been read to its end.
    pub fn on_read_end(&mut self)
        requires
            old(self).wf(),
        ensures
            final(self).wf(),
            !final(self).reading,
            final(self).closed == old(self).settled(),
            final(self).error == old(self).error,
            final(self).received == old(self).received,
            final(self).delivered == old(self).delivered,
            final(self).failed == old(self).failed,
            final(self).bytes == old(self).bytes,
            final(self).acked == old(self).acked,
            final(self).schema_id == old(self).schema_id,
            final(self).content_type == old(self).content_type,
    {
        self.stop_reading();
    }

    /// The broker answered for one dispatched message: `Ok` with the message's length when
    /// it was acknowledged, `Err` with the broker's text when it failed. The first failure
    /// stops reading and waiting. An answer beyond the messages dispatched changes nothing.
    pub fn on_delivery(&mut self, result: Result<usize, String>)
        requires
            old(self).wf(),
        ensures
            final(self).wf(),
            final(self).received == old(self).received,
            final(self).schema_id == old(self).schema_id,
            final(self).content_type == old(self).content_type,
            old(self).settled() ==> final(self).delivered == old(self).delivered
                && final(self).acked == old(self).acked && final(self).failed == old(self).failed
                && final(self).closed == old(self).closed,
            !old(self).settled() ==> match result {
                Ok(n) => final(self).acked@ == old(self).acked@.push(n as nat)
                    && final(self).delivered == old(self).delivered + 1
                    && final(self).failed == old(self).failed && final(self).error == old(
                    self,
                ).error && final(self).reading == old(self).reading && final(self).closed == (
                old(self).closed || (!old(self).reading && final(self).settled())),
                Err(t) => final(self).acked == old(self).acked && final(self).delivered == old(
                    self,
                ).delivered && final(self).failed == old(self).failed + 1 && final(self).closed
                    && !final(self).reading && final(self).error == (match old(self).error {
                    Some(x) => Some(x),
                    None => Some(Error::Kafka(t)),
                }),
            },
    {
        if self.delivered + self.failed >= self.received {
            return ;
        }
        match result {
            Ok(n) => {
                proof {
                    assert((self.delivered + 1) * bound64() == self.delivered * bound64()
                        + bound64()) by (nonlinear_arith);
                    assert((self.delivered + 1) * bound64() <= (u64::MAX as int) * bound64())
                        by (nonlinear_arith)
                        requires
                            self.delivered + 1 <= u64::MAX,
                    ;
                }
                let ghost prev = self.acked@;
                self.bytes = self.bytes + n as u128;
                self.delivered = self.delivered + 1;
                self.acked = Ghost(prev.push(n as nat));
                assert(self.acked@.drop_last() =~= prev);
                if !self.reading && self.delivered + self.failed == self.received {
                    self.closed = true;
                }
            },
            Err(t) => {
                self.failed = self.failed + 1;
                self.record(Error::Kafka(t));
                self.reading = false;
                self.closed = true;
            },
        }
    }

    /// Whether the request is over: nothing more is read and no delivery is awaited.
    pub fn is_finished(&self) -> (r: bool)
        ensures
            r == (!self.reading && self.closed),
    {
        !self.reading && self.closed
    }

    /// The report of the request: the messages and bytes acknowledged, and the first error.
    pub fn report(self) -> (r: IngestResponse)
        requires
            self.wf(),
        ensures
            r.ingested_count == self.acked@.len(),
            r.ingested_bytes == total(self.acked@),
            r.ingested_content_type == self.content_type,
            r.ingested_schema_id == self.schema_id,
            r.error == self.error,
    {
        IngestResponse {
            ingested_count: self.delivered,
            ingested_bytes: self.bytes,
            ingested_content_type: self.content_type,
            ingested_schema_id: self.schema_id,
            error: self.error,
        }
    }
}

/// The report of a request whose processor answered without forwarding.
pub fn not_forwarded(schema_id: String) -> (r: IngestResponse)
    ensures
        r.ingested_count == 0,
        r.ingested_bytes == 0,
        r.ingested_content_type == ContentType::Binary,
        r.ingested_schema_id == schema_id,
        r.error is None,
{
    IngestResponse {
        ingested_count: 0,
        ingested_bytes: 0,
        ingested_content_type: ContentType::Binary,
        ingested_schema_id: schema_id,
        error: None,
    }
}

/// The part of a body a processor sees: at most `limit` bytes. What came after is kept in
/// `remaining`, so that nothing read is lost.
pub struct BodyPrefix {
    pub read: Vec<u8>,
    pub remaining: Vec<u8>,
    /// The prefix is complete: the body went past the limit.
    pub full: bool,
    pub limit: usize,
}

impl BodyPrefix {
    pub open spec fn wf(&self) -> bool {
        &&& self.read@.len() <= self.limit
        &&& !self.full ==> self.remaining@.len() == 0
    }

    pub fn new(limit: usize) -> (r: BodyPrefix)
        ensures
            r.wf(),
            r.read@.len() == 0,
            r.remaining@.len() == 0,
            !r.full,
            r.limit == limit,
    {
        BodyPrefix { read: Vec::new(), remaining: Vec::new(), full: false, limit }
    }

    /// Takes the next chunk of the body. The prefix takes as much of it as the limit allows;
    /// a chunk that goes past the limit completes the prefix, and its rest goes to
    /// `remaining`.
    pub fn on_chunk(&mut self, chunk: &[u8])
        requires
            old(self).wf(),
            !old(self).full,
        ensures
            final(self).wf(),
            final(self).limit == old(self).limit,
            final(self).full == (old(self).read@.len() + chunk@.len() > old(self).limit),
            final(self).read@ + final(self).remaining@ == old(self).read@ + chunk@,
            !final(self).full ==> final(self).read@ == old(self).read@ + chunk@,
            final(self).full ==> final(self).read@ == (old(self).read@ + chunk@).subrange(
                0,
                old(self).limit as int,
            ),
    {
        let room = self.limit - self.read.len();
        let ghost before = self.read@;
        if chunk.len() <= room {
            self.read.extend_from_slice(chunk);
            assert(self.read@ =~= before + chunk@);
            assert(self.read@ + self.remaining@ =~= before + chunk@);
        } else {
            let head = slice_subrange(chunk, 0, room);
            let tail = slice_subrange(chunk, room, chunk.len());
            self.read.extend_from_slice(head);
            self.remaining.extend_from_slice(tail);
            self.full = true;
            assert(self.read@ =~= before + chunk@.subrange(0, room as int));
            assert(self.remaining@ =~= chunk@.subrange(room as int, chunk@.len() as int));
            assert(self.read@ =~= (before + chunk@).subrange(0, self.limit as int));
            assert(self.read@ + self.remaining@ =~= before + chunk@);
        }
    }

    /// The whole of what was read: the prefix, then the rest.
    pub fn into_body(self) -> (r: Vec<u8>)
        ensures
            r@ == self.read@ + self.remaining@,
    {
        let mut r = self.read;
        let mut rest = self.remaining;
        let ghost a = r@;
        let ghost b = rest@;
        r.append(&mut rest);
        assert(r@ =~= a + b);
        r
    }
}

/// Whether the processor's body stage runs: always, unless its head stage answered.
pub fn needs_body_stage(processor: &PythonProcessor, head: &Option<ProcessorResponse>) -> (r: bool)
    ensures
        r == !(processor.implements_process_head && head is Some),
{
    !(processor.implements_process_head && head.is_some())
}

/// Whether the body is forwarded: unless a processor answered and said not to.
pub fn should_forward(answer: &Option<ProcessorResponse>) -> (r: bool)
    ensures
        r == match answer {
            Some(a) => a.forward,
            None => true,
        },
{
    match answer {
        Some(a) => a.forward,
        None => true,
    }
}

/// The body of a reply: bytes given by a processor, or the ingest report.
pub enum ResponseBody {
    Given(Vec<u8>),
    Report,
}

/// The status, headers and body a request is answered with.
pub struct ResponsePlan {
    pub status: u16,
    pub headers: Vec<(String, String)>,
    pub body: ResponseBody,
}

/// The answer to a method the schema does not allow: `405`, no headers, empty body.
pub fn method_not_allowed() -> (r: ResponsePlan)
    ensures
        r.status == 405,
        r.headers@.len() == 0,
        r.body matches ResponseBody::Given(b) && b@.len() == 0,
{
    ResponsePlan { status: 405, headers: Vec::new(), body: ResponseBody::Given(Vec::new()) }
}

/// The (name, value) texts of a list of response headers.
pub open spec fn reply_pairs(v: Seq<(String, String)>) -> Seq<(Seq<char>, Seq<char>)> {
    v.map_values(|e: (String, String)| (e.0@, e.1@))
}

/// Whether a header list names `Content-Type`, in any case.
pub open spec fn names_content_type(v: Seq<(String, String)>) -> bool {
    exists|k: int| 0 <= k < v.len() && ascii_lower((#[trigger] v[k]).0@) == "content-type"@
}

/// The status of the answer: the processor's, else the error's, else the schema's.
pub open spec fn reply_status(schema_status: u16, answer: Option<ProcessorResponse>, error: Option<Error>) -> u16 {
    match answer {
        Some(a) if a.response_status is Some => a.response_status->0,
        _ => match error {
            Some(e) => status_of(e),
            None => schema_status,
        },
    }
}

fn has_content_type(v: &Vec<(String, String)>) -> (r: bool)
    ensures
        r == names_content_type(v@),
{
    let mut i: usize = 0;
    while i < v.len()
        invariant
            i <= v@.len(),
            forall|k: int| 0 <= k < i ==> ascii_lower((#[trigger] v@[k]).0@) != "content-type"@,
        decreases v@.len() - i,
    {
        let lower = ascii_lowercase(v[i].0.as_str());
        if text_equal(lower.as_str(), "content-type") {
            return true;
        }
        i = i + 1;
    }
    false
}

/// Assembles the answer to a request from the schema's status, the processor's answer, if
/// any, and the error that ended forwarding, if any. The processor's headers are kept; when
/// the body is the report and they name no content type, `Content-Type: application/json`
/// is added.
pub fn plan_response(schema_status: u16, answer: Option<ProcessorResponse>, error: &Option<Error>) -> (r:
    ResponsePlan)
    ensures
        r.status == reply_status(schema_status, answer, *error),
        match answer {
            Some(a) if a.response_body is Some => r.body matches ResponseBody::Given(b) && b
                == a.response_body->0,
            _ => r.body is Report,
        },
        ({
            let given = match answer {
                Some(a) if a.response_headers is Some => a.response_headers->0@,
                _ => Seq::<(String, String)>::empty(),
            };
            if r.body is Report && !names_content_type(given) {
                reply_pairs(r.headers@) == reply_pairs(given).push(
                    ("Content-Type"@, "application/json"@),
                )
            } else {
                reply_pairs(r.headers@) == reply_pairs(given)
            }
        }),
{
    let error_status = match error {
        Some(e) => Some(e.status_code()),
        None => None,
    };
    let (status, mut headers, body) = match answer {
        Some(a) => {
            let status = match a.response_status {
                Some(s) => s,
                None => match error_status {
                    Some(s) => s,
                    None => schema_status,
                },
            };
            let headers = match a.response_headers {
                Some(h) => h,
                None => Vec::new(),
            };
            let body = match a.response_body {
                Some(b) => ResponseBody::Given(b),
                None => ResponseBody::Report,
            };
            (status, headers, body)
        },
        None => (
            match error_status {
                Some(s) => s,
                None => schema_status,
            },
            Vec::new(),
            ResponseBody::Report,
        ),
    };
    let is_report = match body {
        ResponseBody::Report => true,
        ResponseBody::Given(_) => false,
    };
    if is_report && !has_content_type(&headers) {
        let ghost before = headers@;
        headers.push((String::from_str("Content-Type"), String::from_str("application/json")));
        assert(reply_pairs(headers@) =~= reply_pairs(before).push(
            ("Content-Type"@, "application/json"@),
        ));
    }
    ResponsePlan { status, headers, body }
}

} // verus!
