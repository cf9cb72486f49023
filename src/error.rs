use vstd::prelude::*;
use vstd::string::*;

use crate::headers::texts;

verus! {

/// A configuration that cannot be served; found at startup.
#[derive(Debug)]
pub enum ConfigError {
    /// A method name that is not an HTTP method.
    InvalidMethod(String),
    /// A processor location that is not `<module>:<callable>`.
    InvalidProcessorPath(String),
    /// Two producers with one name.
    DuplicateProducerName(String),
    /// A schema names a producer that does not exist; `schema_id` is None for the default
    /// schema; `available` lists the producers there are.
    UnknownProducer { name: String, schema_id: Option<String>, available: Vec<String> },
    /// Two overrides for one schema.
    DuplicateSchema(String),
    /// Two processors for one method, or two method-less processors, in one scope;
    /// `schema_id` is None for the global scope.
    DuplicateProcessorBinding { path: String, method: Option<String>, schema_id: Option<String> },
}

/// A list of names as written in messages: `["a", "b"]`.
pub open spec fn quoted_list(s: Seq<Seq<char>>) -> Seq<char> {
    "["@ + quoted_items(s) + "]"@
}

pub open spec fn quoted_items(s: Seq<Seq<char>>) -> Seq<char>
    decreases s.len(),
{
    if s.len() == 0 {
        seq![]
    } else if s.len() == 1 {
        "\""@ + s[0] + "\""@
    } else {
        quoted_items(s.drop_last()) + ", \""@ + s.last() + "\""@
    }
}

/// The scope a processor binding error names.
pub open spec fn scope_text(schema_id: Option<String>) -> Seq<char> {
    match schema_id {
        Some(id) => "Python request processor for schema "@ + id@ + ": "@,
        None => "Default Python request processor: "@,
    }
}

/// The message that describes a configuration error.
pub open spec fn config_error_text(e: ConfigError) -> Seq<char> {
    match e {
        ConfigError::InvalidMethod(m) => m@ + " is not a valid http method"@,
        ConfigError::InvalidProcessorPath(p) => "Python request processor location should be of the format <module-dot-path>:<callable object>, found "@
            + p@ + " instead"@,
        ConfigError::DuplicateProducerName(n) => "Librdkafka configuration with name '"@ + n@
            + "' specified more than once"@,
        ConfigError::UnknownProducer { name, schema_id, available } => "Librdkafka config with name '"@
            + name@ + match schema_id {
            Some(id) => "' configured on schema '"@ + id@ + "' not found. "@,
            None => "' configured on default schema config not found. "@,
        } + "Available librdkafka configs: "@ + quoted_list(texts(available@)),
        ConfigError::DuplicateSchema(id) => "Schema with id "@ + id@
            + " specified more than once in configuration"@,
        ConfigError::DuplicateProcessorBinding { path, method, schema_id } => scope_text(schema_id)
            + match method {
            Some(m) => "Duplicate method '"@ + m@ + "' configured for Python request processor '"@
                + path@ + "'"@,
            None => "Duplicate Python request processor '"@ + path@ + "'"@,
        },
    }
}

fn quote_names(names: &Vec<String>) -> (r: String)
    ensures
        r@ == quoted_list(texts(names@)),
{
    let mut r = String::from_str("[");
    let mut i: usize = 0;
    while i < names.len()
        invariant
            i <= names@.len(),
            r@ == "["@ + quoted_items(texts(names@).subrange(0, i as int)),
        decreases names@.len() - i,
    {
        let ghost prev = texts(names@).subrange(0, i as int);
        let ghost next = texts(names@).subrange(0, i + 1);
        assert(next.drop_last() =~= prev);
        assert(next.last() == names@[i as int]@);
        if i > 0 {
            r = r.concat(", \"");
        } else {
            r = r.concat("\"");
            assert(prev =~= Seq::<Seq<char>>::empty());
        }
        r = r.concat(names[i].as_str()).concat("\"");
        assert(r@ =~= "["@ + quoted_items(next));
        i = i + 1;
    }
    assert(texts(names@).subrange(0, names@.len() as int) =~= texts(names@));
    r.concat("]")
}

impl ConfigError {
    /// The message that describes this error.
    pub fn message(&self) -> (r: String)
        ensures
            r@ == config_error_text(*self),
    {
        match self {
            ConfigError::InvalidMethod(m) => m.clone().concat(" is not a valid http method"),
            ConfigError::InvalidProcessorPath(p) => String::from_str(
                "Python request processor location should be of the format <module-dot-path>:<callable object>, found ",
            ).concat(p.as_str()).concat(" instead"),
            ConfigError::DuplicateProducerName(n) => String::from_str(
                "Librdkafka configuration with name '",
            ).concat(n.as_str()).concat("' specified more than once"),
            ConfigError::UnknownProducer { name, schema_id, available } => {
                let head = String::from_str("Librdkafka config with name '").concat(name.as_str());
                let place = match schema_id {
                    Some(id) => String::from_str("' configured on schema '").concat(id.as_str()).concat(
                        "' not found. ",
                    ),
                    None => String::from_str("' configured on default schema config not found. "),
                };
                let list = quote_names(available);
                let r = head.concat(place.as_str()).concat("Available librdkafka configs: ").concat(
                    list.as_str(),
                );
                assert(r@ =~= config_error_text(*self));
                r
            },
            ConfigError::DuplicateSchema(id) => String::from_str("Schema with id ").concat(
                id.as_str(),
            ).concat(" specified more than once in configuration"),
            ConfigError::DuplicateProcessorBinding { path, method, schema_id } => {
                let scope = match schema_id {
                    Some(id) => String::from_str("Python request processor for schema ").concat(
                        id.as_str(),
                    ).concat(": "),
                    None => String::from_str("Default Python request processor: "),
                };
                let what = match method {
                    Some(m) => String::from_str("Duplicate method '").concat(m.as_str()).concat(
                        "' configured for Python request processor '",
                    ).concat(path.as_str()).concat("'"),
                    None => String::from_str("Duplicate Python request processor '").concat(
                        path.as_str(),
                    ).concat("'"),
                };
                let r = scope.concat(what.as_str());
                assert(r@ =~= config_error_text(*self));
                r
            },
        }
    }
}

/// Why a request, or the service, failed.
#[derive(Debug)]
pub enum Error {
    /// The broker did not take a message; its text.
    Kafka(String),
    /// Reading the request failed; its text.
    IO(String),
    Config(ConfigError),
    /// A processor failed; its text and traceback.
    Python(String),
    /// A message is larger than the size bound.
    PayloadTooLarge,
    /// A JSON body is not UTF-8.
    BadRequest,
}

/// The HTTP status that answers a request that failed with `e`.
pub open spec fn status_of(e: Error) -> u16 {
    match e {
        Error::PayloadTooLarge => 413,
        Error::BadRequest => 400,
        _ => 500,
    }
}

impl Error {
    /// The HTTP status that answers a request that failed with this error.
    pub fn status_code(&self) -> (r: u16)
        ensures
            r == status_of(*self),
    {
        match self {
            Error::PayloadTooLarge => 413,
            Error::BadRequest => 400,
            _ => 500,
        }
    }
}

} // verus!
