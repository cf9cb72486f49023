use vstd::prelude::*;
use vstd::string::*;

use crate::config::HeaderNames;
use crate::config::PartialSchemaConfigWithSchemaId;
use crate::config::SchemaConfig;
use crate::error::ConfigError;
use crate::headers::texts;
use crate::methods::holds_text;
use crate::methods::strictly_sorted;
use crate::methods::text_equal;
use crate::methods::validate_convert_methods;
use crate::processors::bound_processor;
use crate::processors::colons;
use crate::processors::lemma_list_valid_prefix;
use crate::processors::lemma_scope_step;
use crate::processors::list_valid;
use crate::processors::processor_at;
use crate::processors::scope_matches;
use crate::processors::scope_of;
use crate::methods::ascii_upper;
use crate::methods::method_token;
use crate::config::PythonProcessorConfig;
use crate::processors::opt_text;
use crate::processors::PythonProcessor;
use crate::processors::PythonProcessorResolver;

verus! {

/// The schema table and what every request shares: header names, processors, size bound.
pub struct ServerState {
    pub header_names: HeaderNames,
    pub default_schema_config: SchemaConfig,
    /// Each schema id once.
    pub schema_configs: Vec<(String, SchemaConfig)>,
    pub python_processor_resolver: PythonProcessorResolver,
    pub max_event_size_bytes: u64,
}

/// The ids of a schema table.
pub open spec fn table_ids(v: Seq<(String, SchemaConfig)>) -> Seq<Seq<char>> {
    v.map_values(|e: (String, SchemaConfig)| e.0@)
}

/// The ids of a list of overrides.
pub open spec fn override_ids(v: Seq<PartialSchemaConfigWithSchemaId>) -> Seq<Seq<char>> {
    v.map_values(|e: PartialSchemaConfigWithSchemaId| e.schema_id@)
}

/// The configuration of the first schema with id `k`.
pub open spec fn table_get(v: Seq<(String, SchemaConfig)>, k: Seq<char>) -> Option<SchemaConfig>
    decreases v.len(),
{
    if v.len() == 0 {
        None
    } else if v[0].0@ == k {
        Some(v[0].1)
    } else {
        table_get(v.drop_first(), k)
    }
}

/// `o`'s value, or `d` where it has none.
pub open spec fn or_else<T>(o: Option<T>, d: T) -> T {
    match o {
        Some(x) => x,
        None => d,
    }
}

/// The schema an override describes, its absent fields taken from `d`, with the methods
/// `methods` already checked; the processors are kept by the resolver.
pub open spec fn merged(d: SchemaConfig, o: PartialSchemaConfigWithSchemaId, s: SchemaConfig) -> bool {
    let p = o.schema_config;
    &&& s.content_type_from_header == or_else(p.content_type_from_header, d.content_type_from_header)
    &&& s.content_type == (if p.content_type is Some {
        p.content_type
    } else {
        d.content_type
    })
    &&& s.forward_request_url == or_else(p.forward_request_url, d.forward_request_url)
    &&& s.forward_request_method == or_else(p.forward_request_method, d.forward_request_method)
    &&& s.forward_request_http_headers == or_else(
        p.forward_request_http_headers,
        d.forward_request_http_headers,
    )
    &&& s.forward_ingest_version == or_else(p.forward_ingest_version, d.forward_ingest_version)
    &&& s.response_status == or_else(p.response_status, d.response_status)
    &&& s.destination_topic@ == or_else(p.destination_topic, d.destination_topic)@
    &&& s.librdkafka_config@ == or_else(p.librdkafka_config, d.librdkafka_config)@
    &&& match p.allowed_methods {
        Some(m) => strictly_sorted(texts(s.allowed_methods@)) && texts(s.allowed_methods@).to_set()
            == m@.map_values(|x: String| crate::methods::ascii_upper(x@)).to_set(),
        None => texts(s.allowed_methods@) == texts(d.allowed_methods@),
    }
}

fn copy_texts(v: &Vec<String>) -> (r: Vec<String>)
    ensures
        texts(r@) == texts(v@),
{
    let mut r: Vec<String> = Vec::new();
    let mut i: usize = 0;
    while i < v.len()
        invariant
            i <= v@.len(),
            texts(r@) == texts(v@.subrange(0, i as int)),
        decreases v@.len() - i,
    {
        let ghost prev = texts(r@);
        r.push(v[i].clone());
        assert(texts(r@) =~= prev.push(v@[i as int]@));
        assert(texts(v@.subrange(0, i + 1)) =~= texts(v@.subrange(0, i as int)).push(v@[i as int]@));
        i = i + 1;
    }
    assert(v@.subrange(0, v@.len() as int) =~= v@);
    r
}

fn copy_text_option(o: &Option<String>, d: &String) -> (r: String)
    ensures
        r@ == or_else(*o, *d)@,
{
    match o {
        Some(s) => s.clone(),
        None => d.clone(),
    }
}

fn unknown_producer(name: &String, schema_id: Option<&String>, available: &Vec<String>) -> (r:
    ConfigError)
    ensures
        r matches ConfigError::UnknownProducer { name: n, schema_id: s, available: a } && n@ == name@
            && texts(a@) == texts(available@) && opt_text(s) == match schema_id {
            Some(x) => Some(x@),
            None => None,
        },
{
    ConfigError::UnknownProducer {
        name: name.clone(),
        schema_id: match schema_id {
            Some(s) => Some(s.clone()),
            None => None,
        },
        available: copy_texts(available),
    }
}

/// Whether every name in `ms` is an HTTP method, compared in upper case.
pub open spec fn all_methods_valid(ms: Seq<String>) -> bool {
    forall|k: int| 0 <= k < ms.len() ==> method_token(ascii_upper((#[trigger] ms[k])@))
}

/// The producer an override uses: its own, else the default schema's.
pub open spec fn override_producer(d: SchemaConfig, o: PartialSchemaConfigWithSchemaId) -> Seq<char> {
    or_else(o.schema_config.librdkafka_config, d.librdkafka_config)@
}

/// Whether an override can be served: its producer exists, its methods are valid, its
/// processor bindings can all be bound.
pub open spec fn override_valid(
    d: SchemaConfig,
    o: PartialSchemaConfigWithSchemaId,
    names: Seq<String>,
) -> bool {
    &&& texts(names).contains(override_producer(d, o))
    &&& o.schema_config.allowed_methods is Some ==> all_methods_valid(
        o.schema_config.allowed_methods->0@,
    )
    &&& list_valid(o.schema_config.python_request_processor@)
}

/// Whether a configuration can be served: every producer named exists, every method is valid,
/// every scope's processor bindings can all be bound, and no schema id is given twice.
pub open spec fn config_valid(
    d: SchemaConfig,
    overrides: Seq<PartialSchemaConfigWithSchemaId>,
    names: Seq<String>,
) -> bool {
    &&& texts(names).contains(d.librdkafka_config@)
    &&& all_methods_valid(d.allowed_methods@)
    &&& list_valid(d.python_request_processor@)
    &&& forall|i: int| 0 <= i < overrides.len() ==> override_valid(d, #[trigger] overrides[i], names)
    &&& forall|i: int, j: int|
        0 <= i < j < overrides.len() ==> (#[trigger] overrides[i]).schema_id@
            != (#[trigger] overrides[j]).schema_id@
}

/// Whether a list of processor bindings names `t` as a method.
pub open spec fn binding_names_method(l: Seq<PythonProcessorConfig>, t: Seq<char>) -> bool {
    exists|i: int, k: int|
        0 <= i < l.len() && (#[trigger] l[i]).methods is Some && 0 <= k < l[i].methods->0@.len()
            && (#[trigger] l[i].methods->0@[k])@ == t
}

/// Whether a configuration names `t` as a method somewhere.
pub open spec fn config_names_method(
    d: SchemaConfig,
    overrides: Seq<PartialSchemaConfigWithSchemaId>,
    t: Seq<char>,
) -> bool {
    ||| texts(d.allowed_methods@).contains(t)
    ||| binding_names_method(d.python_request_processor@, t)
    ||| exists|i: int|
        0 <= i < overrides.len() && (((#[trigger] overrides[i]).schema_config.allowed_methods is Some
            && texts(overrides[i].schema_config.allowed_methods->0@).contains(t))
            || binding_names_method(overrides[i].schema_config.python_request_processor@, t))
}

/// Whether a configuration names `p` as a processor path somewhere.
pub open spec fn config_names_path(
    d: SchemaConfig,
    overrides: Seq<PartialSchemaConfigWithSchemaId>,
    p: Seq<char>,
) -> bool {
    ||| exists|k: int|
        0 <= k < d.python_request_processor@.len() && (
        #[trigger] d.python_request_processor@[k]).processor@ == p
    ||| exists|i: int, k: int|
        0 <= i < overrides.len() && 0 <= k
            < overrides[i].schema_config.python_request_processor@.len() && (
        #[trigger] overrides[i].schema_config.python_request_processor@[k]).processor@ == p
}

/// What a request becomes once its schema and method are known.
pub enum Plan {
    /// Answer `405` with an empty body.
    MethodNotAllowed,
    /// Go on, with the processor bound to the schema and method, if any.
    Proceed(Option<PythonProcessor>),
}

impl ServerState {
    /// Resolves the configuration: the default schema and each override merged onto it,
    /// methods checked and normalised, producers checked against `producer_names`, and
    /// processors registered.
    pub fn build(
        default_schema_config: &SchemaConfig,
        overrides: &Vec<PartialSchemaConfigWithSchemaId>,
        producer_names: &Vec<String>,
        header_names: HeaderNames,
        max_event_size_bytes: u64,
        python_plugin_src_dir: &str,
    ) -> (r: Result<ServerState, ConfigError>)
        ensures
            r is Ok <==> config_valid(*default_schema_config, overrides@, producer_names@),
            !texts(producer_names@).contains(default_schema_config.librdkafka_config@) ==> (r matches Err(
                ConfigError::UnknownProducer { name: n, schema_id: None, .. },
            ) && n@ == default_schema_config.librdkafka_config@),
            r is Ok ==> {
                let s = r->Ok_0;
                let d = *default_schema_config;
                &&& s.default_schema_config.content_type_from_header == d.content_type_from_header
                &&& s.default_schema_config.content_type == d.content_type
                &&& s.default_schema_config.forward_request_url == d.forward_request_url
                &&& s.default_schema_config.forward_request_method == d.forward_request_method
                &&& s.default_schema_config.forward_request_http_headers
                    == d.forward_request_http_headers
                &&& s.default_schema_config.forward_ingest_version == d.forward_ingest_version
                &&& s.default_schema_config.response_status == d.response_status
                &&& s.default_schema_config.destination_topic@ == d.destination_topic@
                &&& s.default_schema_config.librdkafka_config@ == d.librdkafka_config@
                &&& strictly_sorted(texts(s.default_schema_config.allowed_methods@))
                &&& texts(s.default_schema_config.allowed_methods@).to_set()
                    == d.allowed_methods@.map_values(|x: String| ascii_upper(x@)).to_set()
                &&& table_ids(s.schema_configs@) == override_ids(overrides@)
                &&& forall|i: int|
                    0 <= i < s.schema_configs@.len() ==> texts(producer_names@).contains(
                        (#[trigger] s.schema_configs@[i]).1.librdkafka_config@,
                    ) && merged(s.default_schema_config, overrides@[i], s.schema_configs@[i].1)
                &&& s.max_event_size_bytes == max_event_size_bytes
                &&& scope_matches(
                    Some(s.python_processor_resolver.default_processor),
                    d.python_request_processor@,
                )
                &&& forall|i: int|
                    0 <= i < overrides@.len() ==> scope_matches(
                        scope_of(
                            s.python_processor_resolver.schemas@,
                            (#[trigger] overrides@[i]).schema_id@,
                        ),
                        overrides@[i].schema_config.python_request_processor@,
                    )
                &&& forall|key: Seq<char>|
                    !override_ids(overrides@).contains(key) ==> #[trigger] scope_of(
                        s.python_processor_resolver.schemas@,
                        key,
                    ) is None
            },
            r matches Err(ConfigError::UnknownProducer { name: n, schema_id: sid, available: a })
                ==> texts(a@) == texts(producer_names@) && !texts(producer_names@).contains(n@)
                && match sid {
                None => n@ == default_schema_config.librdkafka_config@,
                Some(id) => exists|i: int|
                    0 <= i < overrides@.len() && (#[trigger] overrides@[i]).schema_id@ == id@
                        && override_producer(*default_schema_config, overrides@[i]) == n@,
            },
            r matches Err(ConfigError::DuplicateSchema(id)) ==> exists|i: int, j: int|
                0 <= i < j < overrides@.len() && overrides@[i].schema_id@ == id@
                    && overrides@[j].schema_id@ == id@,
            r matches Err(ConfigError::InvalidMethod(t)) ==> !method_token(ascii_upper(t@))
                && config_names_method(*default_schema_config, overrides@, t@),
            r matches Err(ConfigError::InvalidProcessorPath(p)) ==> colons(p@) != 1
                && config_names_path(*default_schema_config, overrides@, p@),
            r matches Err(ConfigError::DuplicateProcessorBinding { schema_id: sid, .. }) ==> match sid {
                None => !list_valid(default_schema_config.python_request_processor@),
                Some(id) => exists|i: int|
                    0 <= i < overrides@.len() && (#[trigger] overrides@[i]).schema_id@ == id@
                        && !list_valid(overrides@[i].schema_config.python_request_processor@),
            },
            !(r matches Err(ConfigError::DuplicateProducerName(_))),
    {
        let ghost d = *default_schema_config;
        let ghost ov = overrides@;
        let ghost names = producer_names@;
        if !holds_text(producer_names, default_schema_config.librdkafka_config.as_str()) {
            return Err(unknown_producer(&default_schema_config.librdkafka_config, None, producer_names));
        }
        let default_methods = match validate_convert_methods(&default_schema_config.allowed_methods) {
            Ok(m) => m,
            Err(e) => {
                proof {
                    let k = choose|k: int|
                        0 <= k < d.allowed_methods@.len() && !method_token(
                            ascii_upper(d.allowed_methods@[k]@),
                        ) && (forall|j: int|
                            0 <= j < k ==> method_token(
                                ascii_upper(#[trigger] d.allowed_methods@[j]@),
                            )) && (e matches ConfigError::InvalidMethod(t) && t@
                            == #[trigger] d.allowed_methods@[k]@);
                    assert(texts(d.allowed_methods@)[k] == d.allowed_methods@[k]@);
                }
                return Err(e);
            },
        };
        let default_schema = SchemaConfig {
            content_type_from_header: default_schema_config.content_type_from_header,
            content_type: default_schema_config.content_type,
            forward_request_url: default_schema_config.forward_request_url,
            forward_request_method: default_schema_config.forward_request_method,
            forward_request_http_headers: default_schema_config.forward_request_http_headers,
            forward_ingest_version: default_schema_config.forward_ingest_version,
            response_status: default_schema_config.response_status,
            allowed_methods: default_methods,
            destination_topic: default_schema_config.destination_topic.clone(),
            python_request_processor: default_schema_config.python_request_processor.clone(),
            librdkafka_config: default_schema_config.librdkafka_config.clone(),
        };
        let ghost ld = d.python_request_processor@;
        let mut resolver = PythonProcessorResolver::new(python_plugin_src_dir);
        let mut k: usize = 0;
        proof {
            assert(ld.subrange(0, 0) =~= Seq::<PythonProcessorConfig>::empty());
        }
        while k < default_schema_config.python_request_processor.len()
            invariant
                d == *default_schema_config,
                names == producer_names@,
                ld == d.python_request_processor@,
                k <= ld.len(),
                texts(names).contains(d.librdkafka_config@),
                all_methods_valid(d.allowed_methods@),
                resolver.schemas@.len() == 0,
                scope_matches(Some(resolver.default_processor), ld.subrange(0, k as int)),
                forall|q: Seq<char>|
                    #[trigger] processor_at(resolver.processors@, q) is Some ==> colons(q) == 1,
                list_valid(ld.subrange(0, k as int)),
            decreases ld.len() - k,
        {
            let ghost r0 = resolver;
            let r = resolver.add_default(&default_schema_config.python_request_processor[k]);
            proof {
                lemma_scope_step(r0, resolver, ld, k as int, None, r);
            }
            match r {
                Ok(()) => {},
                Err(e) => {
                    proof {
                        if list_valid(ld) {
                            lemma_list_valid_prefix(ld, k + 1);
                        }
                        match &e {
                            ConfigError::InvalidMethod(t) => {
                                let c = ld[k as int];
                                let j = choose|j: int|
                                    0 <= j < c.methods->0@.len() && (#[trigger] c.methods->0@[j])@
                                        == t@ && !method_token(ascii_upper(t@));
                                assert(ld[k as int].methods->0@[j]@ == t@);
                                assert(binding_names_method(ld, t@));
                            },
                            ConfigError::InvalidProcessorPath(pp) => {
                                assert(ld[k as int].processor@ == pp@);
                            },
                            _ => {},
                        }
                    }
                    return Err(e);
                },
            }
            proof {
                assert(ld.subrange(0, k + 1) == ld.subrange(0, k + 1));
            }
            k = k + 1;
        }
        proof {
            assert(ld.subrange(0, ld.len() as int) =~= ld);
        }
        let mut table: Vec<(String, SchemaConfig)> = Vec::new();
        let mut i: usize = 0;
        proof {
            assert forall|key: Seq<char>| #[trigger] scope_of(resolver.schemas@, key) is None by {}
        }
        while i < overrides.len()
            invariant
                d == *default_schema_config,
                ov == overrides@,
                names == producer_names@,
                ld == d.python_request_processor@,
                i <= ov.len(),
                table@.len() == i,
                texts(names).contains(d.librdkafka_config@),
                all_methods_valid(d.allowed_methods@),
                list_valid(ld),
                default_schema.librdkafka_config@ == d.librdkafka_config@,
                scope_matches(Some(resolver.default_processor), ld),
                forall|q: Seq<char>|
                    #[trigger] processor_at(resolver.processors@, q) is Some ==> colons(q) == 1,
                table_ids(table@) == override_ids(ov.subrange(0, i as int)),
                forall|a: int, b: int| 0 <= a < b < i ==> ov[a].schema_id@ != ov[b].schema_id@,
                forall|j: int| 0 <= j < i ==> override_valid(d, #[trigger] ov[j], names),
                forall|j: int|
                    0 <= j < i ==> scope_matches(
                        scope_of(resolver.schemas@, (#[trigger] ov[j]).schema_id@),
                        ov[j].schema_config.python_request_processor@,
                    ),
                forall|key: Seq<char>|
                    !override_ids(ov.subrange(0, i as int)).contains(key) ==> #[trigger] scope_of(
                        resolver.schemas@,
                        key,
                    ) is None,
                forall|j: int|
                    0 <= j < table@.len() ==> texts(names).contains(
                        (#[trigger] table@[j]).1.librdkafka_config@,
                    ) && merged(default_schema, ov[j], table@[j].1),
            decreases ov.len() - i,
        {
            let o = &overrides[i];
            let p = &o.schema_config;
            let allowed_methods = match &p.allowed_methods {
                Some(m) => match validate_convert_methods(m) {
                    Ok(v) => v,
                    Err(e) => {
                        proof {
                            let ms = m@;
                            let k = choose|k: int|
                                0 <= k < ms.len() && !method_token(ascii_upper(ms[k]@)) && (forall|
                                    j: int,
                                | 0 <= j < k ==> method_token(ascii_upper(#[trigger] ms[j]@))) && (e matches ConfigError::InvalidMethod(t) && t@ == #[trigger] ms[k]@);
                            assert(texts(ms)[k] == ms[k]@);
                            assert(ov[i as int] == *o);
                            assert(!override_valid(d, ov[i as int], names));
                        }
                        return Err(e);
                    },
                },
                None => copy_texts(&default_schema.allowed_methods),
            };
            let librdkafka_config = copy_text_option(&p.librdkafka_config, &default_schema.librdkafka_config);
            if !holds_text(producer_names, librdkafka_config.as_str()) {
                proof {
                    assert(ov[i as int] == *o);
                    assert(!override_valid(d, ov[i as int], names));
                }
                return Err(unknown_producer(&librdkafka_config, Some(&o.schema_id), producer_names));
            }
            let schema = SchemaConfig {
                content_type_from_header: match p.content_type_from_header {
                    Some(v) => v,
                    None => default_schema.content_type_from_header,
                },
                content_type: match p.content_type {
                    Some(c) => Some(c),
                    None => default_schema.content_type,
                },
                forward_request_url: match p.forward_request_url {
                    Some(v) => v,
                    None => default_schema.forward_request_url,
                },
                forward_request_method: match p.forward_request_method {
                    Some(v) => v,
                    None => default_schema.forward_request_method,
                },
                forward_request_http_headers: match p.forward_request_http_headers {
                    Some(v) => v,
                    None => default_schema.forward_request_http_headers,
                },
                forward_ingest_version: match p.forward_ingest_version {
                    Some(v) => v,
                    None => default_schema.forward_ingest_version,
                },
                response_status: match p.response_status {
                    Some(v) => v,
                    None => default_schema.response_status,
                },
                allowed_methods,
                destination_topic: copy_text_option(&p.destination_topic, &default_schema.destination_topic),
                python_request_processor: p.python_request_processor.clone(),
                librdkafka_config,
            };
            let mut j: usize = 0;
            while j < table.len()
                invariant
                    j <= table@.len(),
                    i < ov.len(),
                    ov == overrides@,
                    table_ids(table@) == override_ids(ov.subrange(0, i as int)),
                    forall|a: int| 0 <= a < j ==> ov[a].schema_id@ != o.schema_id@,
                    table@.len() == i,
                    o == ov[i as int],
                    d == *default_schema_config,
                    names == producer_names@,
                    texts(names).contains(d.librdkafka_config@),
                decreases table@.len() - j,
            {
                assert(table_ids(table@)[j as int] == table@[j as int].0@);
                assert(override_ids(ov.subrange(0, i as int))[j as int] == ov[j as int].schema_id@);
                if text_equal(table[j].0.as_str(), o.schema_id.as_str()) {
                    assert(ov[j as int].schema_id@ == ov[i as int].schema_id@);
                    return Err(ConfigError::DuplicateSchema(o.schema_id.clone()));
                }
                j = j + 1;
            }
            let ghost prev = table@;
            table.push((o.schema_id.clone(), schema));
            assert(table_ids(table@) =~= table_ids(prev).push(o.schema_id@));
            assert(override_ids(ov.subrange(0, i + 1)) =~= override_ids(ov.subrange(0, i as int)).push(
                o.schema_id@,
            ));
            assert forall|j2: int| 0 <= j2 < table@.len() implies texts(names).contains(
                (#[trigger] table@[j2]).1.librdkafka_config@,
            ) && merged(default_schema, ov[j2], table@[j2].1) by {
                if j2 < prev.len() {
                    assert(table@[j2] == prev[j2]);
                }
            }
            let ghost li = o.schema_config.python_request_processor@;
            let ghost id = o.schema_id@;
            proof {
                assert(!override_ids(ov.subrange(0, i as int)).contains(id)) by {
                    if override_ids(ov.subrange(0, i as int)).contains(id) {
                        let a = choose|a: int|
                            0 <= a < override_ids(ov.subrange(0, i as int)).len() && override_ids(
                                ov.subrange(0, i as int),
                            )[a] == id;
                        assert(override_ids(ov.subrange(0, i as int))[a] == ov[a].schema_id@);
                    }
                }
                assert(li.subrange(0, 0) =~= Seq::<PythonProcessorConfig>::empty());
            }
            let mut k: usize = 0;
            proof {
                assert forall|key: Seq<char>|
                    !override_ids(ov.subrange(0, i + 1)).contains(key) implies #[trigger] scope_of(
                    resolver.schemas@,
                    key,
                ) is None by {
                    if override_ids(ov.subrange(0, i as int)).contains(key) {
                        let a = choose|a: int|
                            0 <= a < override_ids(ov.subrange(0, i as int)).len() && override_ids(
                                ov.subrange(0, i as int),
                            )[a] == key;
                        assert(override_ids(ov.subrange(0, i + 1))[a] == key);
                    }
                }
            }
            while k < o.schema_config.python_request_processor.len()
                invariant
                    d == *default_schema_config,
                    ov == overrides@,
                    names == producer_names@,
                    ld == d.python_request_processor@,
                    i < ov.len(),
                    o == ov[i as int],
                    li == o.schema_config.python_request_processor@,
                    id == o.schema_id@,
                    k <= li.len(),
                    table@.len() == i + 1,
                    texts(names).contains(d.librdkafka_config@),
                    texts(names).contains(override_producer(d, *o)),
                    o.schema_config.allowed_methods is Some ==> all_methods_valid(
                        o.schema_config.allowed_methods->0@,
                    ),
                    all_methods_valid(d.allowed_methods@),
                    list_valid(ld),
                    default_schema.librdkafka_config@ == d.librdkafka_config@,
                    scope_matches(Some(resolver.default_processor), ld),
                    forall|q: Seq<char>|
                        #[trigger] processor_at(resolver.processors@, q) is Some ==> colons(q) == 1,
                    table_ids(table@) == override_ids(ov.subrange(0, i + 1)),
                    forall|a: int, b: int|
                        0 <= a < b < i + 1 ==> ov[a].schema_id@ != ov[b].schema_id@,
                    forall|j: int| 0 <= j < i ==> override_valid(d, #[trigger] ov[j], names),
                    forall|j: int|
                        0 <= j < i ==> scope_matches(
                            scope_of(resolver.schemas@, (#[trigger] ov[j]).schema_id@),
                            ov[j].schema_config.python_request_processor@,
                        ),
                    scope_matches(scope_of(resolver.schemas@, id), li.subrange(0, k as int)),
                    list_valid(li.subrange(0, k as int)),
                    forall|key: Seq<char>|
                        !override_ids(ov.subrange(0, i + 1)).contains(key) ==> #[trigger] scope_of(
                            resolver.schemas@,
                            key,
                        ) is None,
                    forall|j: int|
                        0 <= j < table@.len() ==> texts(names).contains(
                            (#[trigger] table@[j]).1.librdkafka_config@,
                        ) && merged(default_schema, ov[j], table@[j].1),
                decreases li.len() - k,
            {
                let ghost r0 = resolver;
                let r = resolver.add_for_schema(o.schema_id.as_str(), &o.schema_config.python_request_processor[k]);
                proof {
                    lemma_scope_step(r0, resolver, li, k as int, Some(id), r);
                }
                match r {
                    Ok(()) => {},
                    Err(e) => {
                        proof {
                            if list_valid(li) {
                                lemma_list_valid_prefix(li, k + 1);
                            }
                            assert(!override_valid(d, ov[i as int], names));
                            match &e {
                                ConfigError::InvalidMethod(t) => {
                                    let c = li[k as int];
                                    let jj = choose|jj: int|
                                        0 <= jj < c.methods->0@.len() && (#[trigger] c.methods->0@[jj])@
                                            == t@ && !method_token(ascii_upper(t@));
                                    assert(li[k as int].methods->0@[jj]@ == t@);
                                    assert(binding_names_method(li, t@));
                                },
                                ConfigError::InvalidProcessorPath(pp) => {
                                    assert(ov[i as int].schema_config.python_request_processor@[k as int].processor@
                                        == pp@);
                                },
                                _ => {},
                            }
                        }
                        return Err(e);
                    },
                }
                proof {
                    assert forall|j: int| 0 <= j < i implies scope_matches(
                        scope_of(resolver.schemas@, (#[trigger] ov[j]).schema_id@),
                        ov[j].schema_config.python_request_processor@,
                    ) by {
                        assert(ov[j].schema_id@ != id);
                        assert(scope_of(resolver.schemas@, ov[j].schema_id@) == scope_of(
                            r0.schemas@,
                            ov[j].schema_id@,
                        ));
                    }
                    assert forall|key: Seq<char>|
                        !override_ids(ov.subrange(0, i + 1)).contains(key) implies #[trigger] scope_of(
                        resolver.schemas@,
                        key,
                    ) is None by {
                        assert(override_ids(ov.subrange(0, i + 1))[i as int] == id);
                        assert(scope_of(resolver.schemas@, key) == scope_of(r0.schemas@, key));
                    }
                }
                k = k + 1;
            }
            proof {
                assert(li.subrange(0, li.len() as int) =~= li);
                assert(override_valid(d, ov[i as int], names));
            }
            i = i + 1;
        }
        proof {
            assert(ov.subrange(0, ov.len() as int) =~= ov);
        }
        Ok(
            ServerState {
                header_names,
                default_schema_config: default_schema,
                schema_configs: table,
                python_processor_resolver: resolver,
                max_event_size_bytes,
            },
        )
    }

    /// The configuration of `schema_id`, or the default one for an unknown schema.
    pub fn schema_config(&self, schema_id: &str) -> (r: &SchemaConfig)
        ensures
            *r == or_else(table_get(self.schema_configs@, schema_id@), self.default_schema_config),
    {
        let mut i: usize = 0;
        assert(self.schema_configs@.subrange(0, self.schema_configs@.len() as int)
            =~= self.schema_configs@);
        while i < self.schema_configs.len()
            invariant
                i <= self.schema_configs@.len(),
                table_get(self.schema_configs@, schema_id@) == table_get(
                    self.schema_configs@.subrange(i as int, self.schema_configs@.len() as int),
                    schema_id@,
                ),
            decreases self.schema_configs@.len() - i,
        {
            let ghost rest = self.schema_configs@.subrange(
                i as int,
                self.schema_configs@.len() as int,
            );
            assert(rest.drop_first() =~= self.schema_configs@.subrange(
                i + 1,
                self.schema_configs@.len() as int,
            ));
            assert(rest[0] == self.schema_configs@[i as int]);
            if text_equal(self.schema_configs[i].0.as_str(), schema_id) {
                return &self.schema_configs[i].1;
            }
            i = i + 1;
        }
        &self.default_schema_config
    }

    /// Decides what becomes of a request for `schema_id` with `method`: `405` when the
    /// schema does not allow the method and no processor is bound to it, else the
    /// processor bound, if any.
    pub fn plan(&self, schema_id: &str, method: &str) -> (r: Plan)
        ensures
            (r is MethodNotAllowed) <==> (!texts(
                or_else(
                    table_get(self.schema_configs@, schema_id@),
                    self.default_schema_config,
                ).allowed_methods@,
            ).contains(method@) && bound_processor(
                self.python_processor_resolver,
                schema_id@,
                method@,
            ) is None),
            r matches Plan::Proceed(o) ==> match bound_processor(
                self.python_processor_resolver,
                schema_id@,
                method@,
            ) {
                Some(q) => o is Some && o->0.path@ == q.path@ && o->0.implements_process_head
                    == q.implements_process_head && o->0.process_is_blocking
                    == q.process_is_blocking && o->0.process_head_is_blocking
                    == q.process_head_is_blocking,
                None => o is None,
            },
    {
        let processor = self.python_processor_resolver.get(schema_id, method);
        let schema = self.schema_config(schema_id);
        if processor.is_none() && !holds_text(&schema.allowed_methods, method) {
            Plan::MethodNotAllowed
        } else {
            Plan::Proceed(processor)
        }
    }
}

} // verus!
