use vstd::prelude::*;
use vstd::string::*;

use crate::config::PythonProcessorConfig;
use crate::error::ConfigError;
use crate::methods::ascii_upper;
use crate::methods::text_equal;
use crate::methods::method_token;
use crate::methods::lemma_sorted_distinct;
use crate::headers::texts;
use crate::methods::validate_convert_methods;

verus! {

/// What a processor asks of the response: whether to forward the body, and the status,
/// headers and body to answer with where it sets them.
#[derive(Debug)]
pub struct ProcessorResponse {
    pub forward: bool,
    pub response_status: Option<u16>,
    pub response_headers: Option<Vec<(String, String)>>,
    pub response_body: Option<Vec<u8>>,
}

/// A processor as the request pipeline uses it: its callable path and how it is called.
#[derive(Debug)]
pub struct PythonProcessor {
    pub path: String,
    pub implements_process_head: bool,
    pub process_is_blocking: bool,
    pub process_head_is_blocking: bool,
}

/// The processors bound in one scope: one for every method without its own, and one per
/// method; each given by its callable path.
#[derive(Debug)]
pub struct Bindings {
    pub default: Option<String>,
    pub by_method: Vec<(String, String)>,
}

/// The text of an optional string.
pub open spec fn opt_text(o: Option<String>) -> Option<Seq<char>> {
    match o {
        Some(s) => Some(s@),
        None => None,
    }
}

/// The value of the first pair whose key is `k`.
pub open spec fn first_value(s: Seq<(String, String)>, k: Seq<char>) -> Option<Seq<char>>
    decreases s.len(),
{
    if s.len() == 0 {
        None
    } else if s[0].0@ == k {
        Some(s[0].1@)
    } else {
        first_value(s.drop_first(), k)
    }
}

/// The processor path a scope gives `method`: the method's own, else the scope's default.
pub open spec fn scope_path(b: Bindings, method: Seq<char>) -> Option<Seq<char>> {
    match first_value(b.by_method@, method) {
        Some(p) => Some(p),
        None => opt_text(b.default),
    }
}

/// The bindings of the first scope named `k`.
pub open spec fn scope_of(s: Seq<(String, Bindings)>, k: Seq<char>) -> Option<Bindings>
    decreases s.len(),
{
    if s.len() == 0 {
        None
    } else if s[0].0@ == k {
        Some(s[0].1)
    } else {
        scope_of(s.drop_first(), k)
    }
}

/// The first processor registered under `path`.
pub open spec fn processor_at(s: Seq<PythonProcessor>, path: Seq<char>) -> Option<PythonProcessor>
    decreases s.len(),
{
    if s.len() == 0 {
        None
    } else if s[0].path@ == path {
        Some(s[0])
    } else {
        processor_at(s.drop_first(), path)
    }
}

/// The number of `:` in a callable path.
pub open spec fn colons(s: Seq<char>) -> nat
    decreases s.len(),
{
    if s.len() == 0 {
        0
    } else {
        colons(s.drop_last()) + if s.last() == ':' {
            1nat
        } else {
            0nat
        }
    }
}

/// Whether `config` lists the method `m`, methods compared in upper case.
pub open spec fn lists_method(config: PythonProcessorConfig, m: Seq<char>) -> bool {
    config.methods is Some && exists|k: int|
        0 <= k < config.methods->0@.len() && ascii_upper(config.methods->0@[k]@) == m
}

/// Whether every method `config` lists names an HTTP method.
pub open spec fn methods_valid(config: PythonProcessorConfig) -> bool {
    config.methods is Some ==> forall|k: int|
        0 <= k < config.methods->0@.len() ==> method_token(
            ascii_upper((#[trigger] config.methods->0@[k])@),
        )
}

/// The processor bound to `m` in a scope, if the scope exists.
pub open spec fn scope_method(b: Option<Bindings>, m: Seq<char>) -> Option<Seq<char>> {
    match b {
        Some(x) => first_value(x.by_method@, m),
        None => None,
    }
}

/// The default processor of a scope, if the scope exists.
pub open spec fn scope_default(b: Option<Bindings>) -> Option<Seq<char>> {
    match b {
        Some(x) => opt_text(x.default),
        None => None,
    }
}

/// Whether a scope leaves free what `config` would bind: its default when `config` lists no
/// method, else every method it lists.
pub open spec fn scope_free(b: Option<Bindings>, config: PythonProcessorConfig) -> bool {
    if config.methods is None {
        scope_default(b) is None
    } else {
        forall|m: Seq<char>| #[trigger] lists_method(config, m) ==> scope_method(b, m) is None
    }
}

/// Instantiated processors and the bindings of each schema and of the global scope.
pub struct PythonProcessorResolver {
    pub processors: Vec<PythonProcessor>,
    pub schemas: Vec<(String, Bindings)>,
    pub default_processor: Bindings,
    pub python_plugin_src_dir: String,
}

/// The bindings of the scope of `schema_id`, or of the global scope for None.
pub open spec fn scope_bindings(r: PythonProcessorResolver, schema_id: Option<Seq<char>>) -> Option<
    Bindings,
> {
    match schema_id {
        Some(id) => scope_of(r.schemas@, id),
        None => Some(r.default_processor),
    }
}

/// The processor path that serves `method` on `schema_id`: the schema's binding for the
/// method, else the schema's default, else the global binding for the method, else the
/// global default.
pub open spec fn resolved_path(
    r: PythonProcessorResolver,
    schema_id: Seq<char>,
    method: Seq<char>,
) -> Option<Seq<char>> {
    let own = match scope_of(r.schemas@, schema_id) {
        Some(b) => scope_path(b, method),
        None => None,
    };
    match own {
        Some(p) => Some(p),
        None => scope_path(r.default_processor, method),
    }
}

/// Bindings take precedence in this order: the schema's for the method, the schema's
/// default, the global one for the method, the global default.
pub proof fn lemma_binding_precedence(r: PythonProcessorResolver, schema_id: Seq<char>, method: Seq<char>)
    ensures
        ({
            let own = scope_of(r.schemas@, schema_id);
            let global = r.default_processor;
            let own_method = if own is Some {
                first_value(own->0.by_method@, method)
            } else {
                None
            };
            let own_default = if own is Some {
                opt_text(own->0.default)
            } else {
                None
            };
            &&& own_method is Some ==> resolved_path(r, schema_id, method) == own_method
            &&& own_method is None && own_default is Some ==> resolved_path(r, schema_id, method)
                == own_default
            &&& own_method is None && own_default is None && first_value(global.by_method@, method)
                is Some ==> resolved_path(r, schema_id, method) == first_value(
                global.by_method@,
                method,
            )
            &&& own_method is None && own_default is None && first_value(global.by_method@, method)
                is None ==> resolved_path(r, schema_id, method) == opt_text(global.default)
        }),
{
}

/// The registered processor that serves `method` on `schema_id`.
pub open spec fn bound_processor(
    r: PythonProcessorResolver,
    schema_id: Seq<char>,
    method: Seq<char>,
) -> Option<PythonProcessor> {
    match resolved_path(r, schema_id, method) {
        Some(p) => processor_at(r.processors@, p),
        None => None,
    }
}

fn lookup_value(s: &Vec<(String, String)>, k: &str) -> (r: Option<String>)
    ensures
        opt_text(r) == first_value(s@, k@),
{
    let mut i: usize = 0;
    assert(s@.subrange(0, s@.len() as int) =~= s@);
    while i < s.len()
        invariant
            i <= s@.len(),
            first_value(s@, k@) == first_value(s@.subrange(i as int, s@.len() as int), k@),
        decreases s@.len() - i,
    {
        assert(s@.subrange(i as int, s@.len() as int).drop_first() =~= s@.subrange(
            i + 1,
            s@.len() as int,
        ));
        if text_equal(s[i].0.as_str(), k) {
            return Some(s[i].1.clone());
        }
        i = i + 1;
    }
    None
}

fn lookup_scope(s: &Vec<(String, Bindings)>, k: &str) -> (r: Option<usize>)
    ensures
        r is None ==> forall|j: int| 0 <= j < s@.len() ==> (#[trigger] s@[j]).0@ != k@,
        r is Some ==> r->0 < s@.len() && s@[r->0 as int].0@ == k@ && forall|j: int|
            0 <= j < r->0 ==> (#[trigger] s@[j]).0@ != k@,
{
    let mut i: usize = 0;
    while i < s.len()
        invariant
            i <= s@.len(),
            forall|j: int| 0 <= j < i ==> (#[trigger] s@[j]).0@ != k@,
        decreases s@.len() - i,
    {
        if text_equal(s[i].0.as_str(), k) {
            return Some(i);
        }
        i = i + 1;
    }
    None
}

/// The scope named by the first key equal to `k` is the first scope with that key.
proof fn lemma_scope_of_at(s: Seq<(String, Bindings)>, k: Seq<char>, idx: int)
    requires
        0 <= idx < s.len(),
        s[idx].0@ == k,
        forall|j: int| 0 <= j < idx ==> (#[trigger] s[j]).0@ != k,
    ensures
        scope_of(s, k) == Some(s[idx].1),
    decreases idx,
{
    if idx > 0 {
        assert(s[0].0@ != k);
        assert forall|j: int| 0 <= j < idx - 1 implies (#[trigger] s.drop_first()[j]).0@ != k by {
            assert(s.drop_first()[j] == s[j + 1]);
        }
        lemma_scope_of_at(s.drop_first(), k, idx - 1);
    }
}

/// No scope is named `k` when no key equals it.
proof fn lemma_scope_of_none(s: Seq<(String, Bindings)>, k: Seq<char>)
    requires
        forall|j: int| 0 <= j < s.len() ==> (#[trigger] s[j]).0@ != k,
    ensures
        scope_of(s, k) is None,
    decreases s.len(),
{
    if s.len() > 0 {
        assert(s[0].0@ != k);
        assert forall|j: int| 0 <= j < s.len() - 1 implies (#[trigger] s.drop_first()[j]).0@ != k by {
            assert(s.drop_first()[j] == s[j + 1]);
        }
        lemma_scope_of_none(s.drop_first(), k);
    }
}

fn scope_lookup(b: &Bindings, method: &str) -> (r: Option<String>)
    ensures
        opt_text(r) == scope_path(*b, method@),
{
    match lookup_value(&b.by_method, method) {
        Some(p) => Some(p),
        None => match &b.default {
            Some(d) => Some(d.clone()),
            None => None,
        },
    }
}

fn count_colons(s: &str) -> (r: usize)
    ensures
        r == colons(s@),
{
    let n = s.unicode_len();
    let mut i: usize = 0;
    let mut c: usize = 0;
    while i < n
        invariant
            i <= n,
            n == s@.len(),
            c == colons(s@.subrange(0, i as int)),
            c <= i,
        decreases n - i,
    {
        assert(s@.subrange(0, i + 1).drop_last() =~= s@.subrange(0, i as int));
        if s.get_char(i) == ':' {
            c = c + 1;
        }
        i = i + 1;
    }
    assert(s@.subrange(0, n as int) =~= s@);
    c
}

impl Bindings {
    pub fn new() -> (r: Bindings)
        ensures
            r.default is None,
            r.by_method@.len() == 0,
    {
        Bindings { default: None, by_method: Vec::new() }
    }

    /// Binds `path` as the default of this scope; `DuplicateProcessorBinding` when the
    /// scope has a default already.
    pub fn bind_default(&mut self, path: &String, schema_id: Option<&str>) -> (r: Result<
        (),
        ConfigError,
    >)
        ensures
            old(self).default is None ==> r is Ok && opt_text(final(self).default) == Some(path@)
                && final(self).by_method == old(self).by_method,
            old(self).default is Some ==> (r matches Err(
                ConfigError::DuplicateProcessorBinding { path: p, method: None, schema_id: sid },
            ) && p@ == path@ && opt_text(sid) == (match schema_id {
                Some(s) => Some(s@),
                None => None,
            })),
    {
        if self.default.is_some() {
            return Err(
                ConfigError::DuplicateProcessorBinding {
                    path: path.clone(),
                    method: None,
                    schema_id: match schema_id {
                        Some(s) => Some(String::from_str(s)),
                        None => None,
                    },
                },
            );
        }
        self.default = Some(path.clone());
        Ok(())
    }

    /// Binds `path` to each method of `methods`, which holds each method once;
    /// `DuplicateProcessorBinding` with the first method that this scope has bound already.
    pub fn bind_methods(&mut self, methods: &Vec<String>, path: &String, schema_id: Option<&str>) -> (r:
        Result<(), ConfigError>)
        requires
            forall|i: int, j: int|
                0 <= i < j < methods@.len() ==> (#[trigger] methods@[i])@ != (#[trigger] methods@[j])@,
        ensures
            r is Ok ==> forall|m: Seq<char>| #[trigger]
                first_value(final(self).by_method@, m) == if first_value(old(self).by_method@, m)
                    is None && exists|k: int| 0 <= k < methods@.len() && methods@[k]@ == m {
                    Some(path@)
                } else {
                    first_value(old(self).by_method@, m)
                },
            (forall|k: int|
                0 <= k < methods@.len() ==> first_value(old(self).by_method@, #[trigger] methods@[k]@)
                    is None) ==> r is Ok,
            (exists|k: int|
                0 <= k < methods@.len() && first_value(old(self).by_method@, #[trigger] methods@[k]@)
                    is Some) ==> r is Err,
            final(self).default == old(self).default,
            r is Err ==> (r matches Err(ConfigError::DuplicateProcessorBinding { .. })),
            r matches Err(ConfigError::DuplicateProcessorBinding { path: p, method: m, schema_id: sid }) ==> p@
                == path@ && opt_text(sid) == (match schema_id {
                Some(s) => Some(s@),
                None => None,
            }) && m is Some && exists|k: int|
                0 <= k < methods@.len() && (#[trigger] methods@[k])@ == m->0@ && first_value(
                    old(self).by_method@,
                    m->0@,
                ) is Some && forall|j: int|
                    0 <= j < k ==> first_value(old(self).by_method@, #[trigger] methods@[j]@) is None,
    {
        let mut i: usize = 0;
        let ghost start = self.by_method@;
        while i < methods.len()
            invariant
                i <= methods@.len(),
                self.default == old(self).default,
                start == old(self).by_method@,
                forall|k: int| 0 <= k < i ==> first_value(start, #[trigger] methods@[k]@) is None,
                forall|a: int, b: int|
                    0 <= a < b < methods@.len() ==> (#[trigger] methods@[a])@ != (#[trigger] methods@[b])@,
                forall|m: Seq<char>| #[trigger]
                    first_value(self.by_method@, m) == if first_value(start, m) is None && exists|
                        j: int,
                    | 0 <= j < i && methods@[j]@ == m {
                        Some(path@)
                    } else {
                        first_value(start, m)
                    },
            decreases methods@.len() - i,
        {
            match lookup_value(&self.by_method, methods[i].as_str()) {
                Some(_) => {
                    proof {
                        if first_value(start, methods@[i as int]@) is None {
                            let j = choose|j: int| 0 <= j < i && methods@[j]@ == methods@[i as int]@;
                            assert(methods@[j]@ != methods@[i as int]@);
                        }
                    }
                    return Err(
                        ConfigError::DuplicateProcessorBinding {
                            path: path.clone(),
                            method: Some(methods[i].clone()),
                            schema_id: match schema_id {
                                Some(s) => Some(String::from_str(s)),
                                None => None,
                            },
                        },
                    );
                },
                None => {},
            }
            let ghost prev = self.by_method@;
            self.by_method.push((methods[i].clone(), path.clone()));
            proof {
                assert forall|m: Seq<char>| #[trigger]
                    first_value(self.by_method@, m) == if first_value(start, m) is None && exists|
                        j: int,
                    | 0 <= j < i + 1 && methods@[j]@ == m {
                        Some(path@)
                    } else {
                        first_value(start, m)
                    } by {
                    assert(self.by_method@ =~= prev.push(self.by_method@.last()));
                    lemma_first_value_push(prev, self.by_method@.last(), m);
                    if m == methods@[i as int]@ {
                        assert(exists|j: int| 0 <= j < i + 1 && methods@[j]@ == m);
                    } else if exists|j: int| 0 <= j < i + 1 && methods@[j]@ == m {
                        let j = choose|j: int| 0 <= j < i + 1 && methods@[j]@ == m;
                        assert(j < i);
                    }
                }
            }
            i = i + 1;
        }
        Ok(())
    }
}

/// Appending a pair changes the first value of a key only where the key had none.
proof fn lemma_first_value_push(s: Seq<(String, String)>, e: (String, String), k: Seq<char>)
    ensures
        first_value(s.push(e), k) == if first_value(s, k) is Some {
            first_value(s, k)
        } else if e.0@ == k {
            Some(e.1@)
        } else {
            None::<Seq<char>>
        },
    decreases s.len(),
{
    if s.len() > 0 {
        assert(s.push(e).drop_first() =~= s.drop_first().push(e));
        assert(s.push(e)[0] == s[0]);
        lemma_first_value_push(s.drop_first(), e, k);
    } else {
        assert(s.push(e).drop_first() =~= Seq::<(String, String)>::empty());
        assert(s.push(e)[0] == e);
        assert(first_value(Seq::<(String, String)>::empty(), k) is None);
    }
}

/// What adding the processor of `config` to the scope `sid` (None for the global scope)
/// does, from `r0` to `r1` with result `res`. It succeeds exactly when the path is usable (already
/// registered, or with exactly one `:`), every method is valid, and the scope has nothing bound
/// where `config` binds; each failure names its cause. On success the scope binds `config`'s
/// path to each listed method that was free, or as its default; other scopes do not change.
pub open spec fn add_outcome(
    r0: PythonProcessorResolver,
    r1: PythonProcessorResolver,
    config: PythonProcessorConfig,
    sid: Option<Seq<char>>,
    res: Result<(), ConfigError>,
) -> bool {
    let path = config.processor@;
    let path_ok = processor_at(r0.processors@, path) is Some || colons(path) == 1;
    let ob = scope_bindings(r0, sid);
    &&& res is Ok <==> path_ok && methods_valid(config) && scope_free(ob, config)
    &&& !path_ok ==> (res matches Err(ConfigError::InvalidProcessorPath(p)) && p@ == path)
    &&& path_ok && !methods_valid(config) ==> (res matches Err(ConfigError::InvalidMethod(t))
        && exists|k: int|
        0 <= k < config.methods->0@.len() && (#[trigger] config.methods->0@[k])@ == t@
            && !method_token(ascii_upper(t@)))
    &&& path_ok && methods_valid(config) && !scope_free(ob, config) ==> (res matches Err(
        ConfigError::DuplicateProcessorBinding { path: p, method: m, schema_id: s },
    ) && p@ == path && opt_text(s) == sid && (m is None <==> config.methods is None) && (m is Some
        ==> lists_method(config, m->0@) && scope_method(ob, m->0@) is Some))
    &&& res is Ok ==> processor_at(r1.processors@, path) is Some
    &&& res is Ok ==> forall|q: Seq<char>|
        #[trigger] processor_at(r1.processors@, q) is Some ==> processor_at(r0.processors@, q) is Some
            || q == path
    &&& res is Ok ==> (scope_bindings(r1, sid) matches Some(b) && (forall|m: Seq<char>|
        #[trigger] first_value(b.by_method@, m) == if lists_method(config, m) && scope_method(ob, m)
            is None {
            Some(path)
        } else {
            scope_method(ob, m)
        }) && opt_text(b.default) == if config.methods is None {
        Some(path)
    } else {
        scope_default(ob)
    })
    &&& sid is None ==> r1.schemas == r0.schemas
    &&& sid is Some ==> r1.default_processor == r0.default_processor && forall|k: Seq<char>|
        k != sid->0 ==> #[trigger] scope_of(r1.schemas@, k) == scope_of(r0.schemas@, k)
}

impl PythonProcessorResolver {
    /// A resolver with no processor, whose processors are loaded from `python_plugin_src_dir`.
    pub fn new(python_plugin_src_dir: &str) -> (r: PythonProcessorResolver)
        ensures
            r.processors@.len() == 0,
            r.schemas@.len() == 0,
            r.default_processor.default is None,
            r.default_processor.by_method@.len() == 0,
            r.python_plugin_src_dir@ == python_plugin_src_dir@,
    {
        PythonProcessorResolver {
            processors: Vec::new(),
            schemas: Vec::new(),
            default_processor: Bindings::new(),
            python_plugin_src_dir: String::from_str(python_plugin_src_dir),
        }
    }

    /// Registers the processor of `config` under its callable path, once per path, and
    /// returns the path; `InvalidProcessorPath` for a path that is new and is not
    /// `<module>:<callable>`.
    pub fn instantiate(&mut self, config: &PythonProcessorConfig) -> (r: Result<String, ConfigError>)
        ensures
            processor_at(old(self).processors@, config.processor@) is Some ==> r is Ok && r->Ok_0@
                == config.processor@ && final(self).processors == old(self).processors,
            processor_at(old(self).processors@, config.processor@) is None && colons(
                config.processor@,
            ) == 1 ==> r is Ok && r->Ok_0@ == config.processor@ && final(self).processors@
                == old(self).processors@.push(final(self).processors@.last())
                && final(self).processors@.last().path@ == config.processor@
                && final(self).processors@.last().implements_process_head
                == config.implements_process_head
                && final(self).processors@.last().process_is_blocking == config.process_is_blocking
                && final(self).processors@.last().process_head_is_blocking
                == config.process_head_is_blocking,
            processor_at(old(self).processors@, config.processor@) is None && colons(
                config.processor@,
            ) != 1 ==> (r matches Err(ConfigError::InvalidProcessorPath(p)) && p@
                == config.processor@),
            final(self).schemas == old(self).schemas,
            final(self).default_processor == old(self).default_processor,
    {
        let path = config.processor.as_str();
        let mut i: usize = 0;
        assert(self.processors@.subrange(0, self.processors@.len() as int) =~= self.processors@);
        while i < self.processors.len()
            invariant
                *self == *old(self),
                path@ == config.processor@,
                i <= self.processors@.len(),
                processor_at(self.processors@, path@) == processor_at(
                    self.processors@.subrange(i as int, self.processors@.len() as int),
                    path@,
                ),
            decreases self.processors@.len() - i,
        {
            assert(self.processors@.subrange(i as int, self.processors@.len() as int).drop_first()
                =~= self.processors@.subrange(i + 1, self.processors@.len() as int));
            if text_equal(self.processors[i].path.as_str(), path) {
                assert(self.processors@.subrange(i as int, self.processors@.len() as int)[0]
                    == self.processors@[i as int]);
                return Ok(String::from_str(path));
            }
            i = i + 1;
        }
        if count_colons(path) != 1 {
            return Err(ConfigError::InvalidProcessorPath(String::from_str(path)));
        }
        self.processors.push(
            PythonProcessor {
                path: String::from_str(path),
                implements_process_head: config.implements_process_head,
                process_is_blocking: config.process_is_blocking,
                process_head_is_blocking: config.process_head_is_blocking,
            },
        );
        Ok(String::from_str(path))
    }

    /// Registers the processor of `config` and binds it in the scope of `schema_id`, or in
    /// the global scope for None: to the methods it lists, or as the scope's default.
    pub fn add(&mut self, config: &PythonProcessorConfig, schema_id: Option<&str>) -> (r: Result<
        (),
        ConfigError,
    >)
        ensures
            add_outcome(
                *old(self),
                *final(self),
                *config,
                match schema_id {
                    Some(s) => Some(s@),
                    None => None,
                },
                r,
            ),
    {
        let ghost r0 = *self;
        let ghost sid = match schema_id {
            Some(s) => Some(s@),
            None => None::<Seq<char>>,
        };
        let path = match self.instantiate(config) {
            Ok(p) => p,
            Err(e) => return Err(e),
        };
        proof {
            if processor_at(r0.processors@, config.processor@) is None {
                lemma_processor_at_push(r0.processors@, self.processors@.last(), config.processor@);
                assert forall|q: Seq<char>| #[trigger]
                    processor_at(self.processors@, q) is Some implies processor_at(
                    r0.processors@,
                    q,
                ) is Some || q == config.processor@ by {
                    lemma_processor_at_push(r0.processors@, self.processors@.last(), q);
                }
            }
        }
        let cleaned = match &config.methods {
            Some(methods) => match validate_convert_methods(methods) {
                Ok(m) => Some(m),
                Err(e) => return Err(e),
            },
            None => None,
        };
        proof {
            if cleaned is Some {
                lemma_sorted_distinct(texts(cleaned->0@));
                assert forall|i: int, j: int|
                    0 <= i < j < cleaned->0@.len() implies (#[trigger] cleaned->0@[i])@
                    != (#[trigger] cleaned->0@[j])@ by {
                    assert(texts(cleaned->0@)[i] == cleaned->0@[i]@);
                    assert(texts(cleaned->0@)[j] == cleaned->0@[j]@);
                }
                lemma_cleaned_lists(cleaned->0@, *config);
            }
        }
        match schema_id {
            None => {
                let ghost b_old = self.default_processor;
                assert(b_old == r0.default_processor);
                let r = match &cleaned {
                    Some(m) => self.default_processor.bind_methods(m, &path, schema_id),
                    None => self.default_processor.bind_default(&path, schema_id),
                };
                proof {
                    if cleaned is Some {
                        lemma_bind_agrees(b_old, Some(b_old), *config, cleaned->0@);
                    }
                }
                r
            },
            Some(s) => {
                let idx = match lookup_scope(&self.schemas, s) {
                    Some(k) => {
                        proof {
                            lemma_scope_of_at(self.schemas@, s@, k as int);
                        }
                        k
                    },
                    None => {
                        proof {
                            lemma_scope_of_none(self.schemas@, s@);
                        }
                        let ghost before = self.schemas@;
                        self.schemas.push((String::from_str(s), Bindings::new()));
                        proof {
                            assert forall|k: Seq<char>| k != s@ implies #[trigger] scope_of(
                                self.schemas@,
                                k,
                            ) == scope_of(before, k) by {
                                lemma_scope_of_push_other(before, self.schemas@.last(), k);
                            }
                        }
                        self.schemas.len() - 1
                    },
                };
                let ghost keyed = self.schemas@;
                assert(keyed[idx as int].0@ == s@);
                assert(forall|j: int| 0 <= j < idx ==> (#[trigger] keyed[j]).0@ != s@);
                let (id, mut scope) = self.schemas.remove(idx);
                let ghost b_old = scope;
                proof {
                    assert(b_old == keyed[idx as int].1);
                    assert forall|m: Seq<char>| #[trigger]
                        scope_method(scope_of(r0.schemas@, s@), m) == first_value(
                            b_old.by_method@,
                            m,
                        ) by {
                        if scope_of(r0.schemas@, s@) is None {
                            assert(b_old.by_method@.len() == 0);
                        }
                    }
                    if cleaned is Some {
                        lemma_bind_agrees(b_old, scope_of(r0.schemas@, s@), *config, cleaned->0@);
                    }
                }
                let r = match &cleaned {
                    Some(m) => scope.bind_methods(m, &path, schema_id),
                    None => scope.bind_default(&path, schema_id),
                };
                self.schemas.insert(idx, (id, scope));
                proof {
                    assert(self.schemas@ =~= keyed.update(idx as int, self.schemas@[idx as int]));
                    assert forall|j: int| 0 <= j < idx implies (#[trigger] self.schemas@[j]).0@
                        != s@ by {
                        assert(self.schemas@[j] == keyed[j]);
                    }
                    lemma_scope_of_at(self.schemas@, s@, idx as int);
                    assert forall|k: Seq<char>| k != s@ implies #[trigger] scope_of(
                        self.schemas@,
                        k,
                    ) == scope_of(keyed, k) by {
                        lemma_scope_of_update(keyed, idx as int, self.schemas@[idx as int], k);
                    }
                }
                r
            },
        }
    }

    /// Binds the processor of `config` in the global scope.
    pub fn add_default(&mut self, config: &PythonProcessorConfig) -> (r: Result<(), ConfigError>)
        ensures
            add_outcome(*old(self), *final(self), *config, None, r),
    {
        self.add(config, None)
    }

    /// Binds the processor of `config` in the scope of `schema_id`.
    pub fn add_for_schema(&mut self, schema_id: &str, config: &PythonProcessorConfig) -> (r: Result<
        (),
        ConfigError,
    >)
        ensures
            add_outcome(*old(self), *final(self), *config, Some(schema_id@), r),
    {
        self.add(config, Some(schema_id))
    }

    /// The processor that serves `method` on `schema_id`, by the precedence of
    /// `resolved_path`.
    pub fn get(&self, schema_id: &str, method: &str) -> (r: Option<PythonProcessor>)
        ensures
            match bound_processor(*self, schema_id@, method@) {
                Some(q) => r is Some && r->0.path@ == q.path@
                    && r->0.implements_process_head == q.implements_process_head
                    && r->0.process_is_blocking == q.process_is_blocking
                    && r->0.process_head_is_blocking == q.process_head_is_blocking,
                None => r is None,
            },
    {
        let own = match lookup_scope(&self.schemas, schema_id) {
            Some(k) => {
                proof {
                    lemma_scope_of_at(self.schemas@, schema_id@, k as int);
                }
                scope_lookup(&self.schemas[k].1, method)
            },
            None => {
                proof {
                    lemma_scope_of_none(self.schemas@, schema_id@);
                }
                None
            },
        };
        let path = match own {
            Some(p) => p,
            None => match scope_lookup(&self.default_processor, method) {
                Some(p) => p,
                None => return None,
            },
        };
        let mut i: usize = 0;
        assert(self.processors@.subrange(0, self.processors@.len() as int) =~= self.processors@);
        assert(resolved_path(*self, schema_id@, method@) == Some(path@));
        while i < self.processors.len()
            invariant
                resolved_path(*self, schema_id@, method@) == Some(path@),
                i <= self.processors@.len(),
                processor_at(self.processors@, path@) == processor_at(
                    self.processors@.subrange(i as int, self.processors@.len() as int),
                    path@,
                ),
            decreases self.processors@.len() - i,
        {
            assert(self.processors@.subrange(i as int, self.processors@.len() as int).drop_first()
                =~= self.processors@.subrange(i + 1, self.processors@.len() as int));
            if text_equal(self.processors[i].path.as_str(), path.as_str()) {
                assert(self.processors@.subrange(i as int, self.processors@.len() as int)[0]
                    == self.processors@[i as int]);
                let q = &self.processors[i];
                return Some(
                    PythonProcessor {
                        path: q.path.clone(),
                        implements_process_head: q.implements_process_head,
                        process_is_blocking: q.process_is_blocking,
                        process_head_is_blocking: q.process_head_is_blocking,
                    },
                );
            }
            i = i + 1;
        }
        None
    }
}

/// The checked methods are exactly the methods `config` lists, in upper case.
proof fn lemma_cleaned_lists(cleaned: Seq<String>, config: PythonProcessorConfig)
    requires
        config.methods is Some,
        texts(cleaned).to_set() == config.methods->0@.map_values(|m: String| ascii_upper(m@)).to_set(),
    ensures
        forall|m: Seq<char>|
            #[trigger] lists_method(config, m) <==> exists|k: int|
                0 <= k < cleaned.len() && cleaned[k]@ == m,
{
    let ms = config.methods->0@;
    assert forall|m: Seq<char>| #[trigger] lists_method(config, m) <==> exists|k: int|
        0 <= k < cleaned.len() && cleaned[k]@ == m by {
        if lists_method(config, m) {
            let k = choose|k: int| 0 <= k < ms.len() && ascii_upper(ms[k]@) == m;
            assert(ms.map_values(|x: String| ascii_upper(x@))[k] == m);
            assert(ms.map_values(|x: String| ascii_upper(x@)).to_set().contains(m));
            assert(texts(cleaned).to_set().contains(m));
            let j = choose|j: int| 0 <= j < texts(cleaned).len() && texts(cleaned)[j] == m;
            assert(texts(cleaned)[j] == cleaned[j]@);
        }
        if exists|k: int| 0 <= k < cleaned.len() && cleaned[k]@ == m {
            let k = choose|k: int| 0 <= k < cleaned.len() && cleaned[k]@ == m;
            assert(texts(cleaned)[k] == m);
            assert(texts(cleaned).to_set().contains(m));
            let up = ms.map_values(|x: String| ascii_upper(x@));
            assert(up.to_set().contains(m));
            let j = choose|j: int| 0 <= j < up.len() && #[trigger] up[j] == m;
            assert(ascii_upper(ms[j]@) == m);
        }
    }
}

/// The processor a list of binding configurations gives method `m`: that of the first
/// configuration listing it.
pub open spec fn list_method(l: Seq<PythonProcessorConfig>, m: Seq<char>) -> Option<Seq<char>>
    decreases l.len(),
{
    if l.len() == 0 {
        None
    } else {
        let p = list_method(l.drop_last(), m);
        if p is Some {
            p
        } else if lists_method(l.last(), m) {
            Some(l.last().processor@)
        } else {
            None
        }
    }
}

/// The default processor a list of binding configurations gives: that of the first
/// configuration that lists no method.
pub open spec fn list_default(l: Seq<PythonProcessorConfig>) -> Option<Seq<char>>
    decreases l.len(),
{
    if l.len() == 0 {
        None
    } else {
        let p = list_default(l.drop_last());
        if p is Some {
            p
        } else if l.last().methods is None {
            Some(l.last().processor@)
        } else {
            None
        }
    }
}

/// Whether two binding configurations claim the same thing: both the default, or a method.
pub open spec fn clash(a: PythonProcessorConfig, b: PythonProcessorConfig) -> bool {
    (a.methods is None && b.methods is None) || exists|m: Seq<char>|
        #[trigger] lists_method(a, m) && lists_method(b, m)
}

/// Whether a scope's binding configurations can all be bound: each path is
/// `<module>:<callable>`, each method valid, and no two claim the same thing.
pub open spec fn list_valid(l: Seq<PythonProcessorConfig>) -> bool {
    &&& forall|i: int| 0 <= i < l.len() ==> colons((#[trigger] l[i]).processor@) == 1 && methods_valid(l[i])
    &&& forall|i: int, j: int| 0 <= i < j < l.len() ==> !clash(#[trigger] l[i], #[trigger] l[j])
}

/// Whether a scope binds exactly what a list of binding configurations gives.
pub open spec fn scope_matches(b: Option<Bindings>, l: Seq<PythonProcessorConfig>) -> bool {
    &&& forall|m: Seq<char>| #[trigger] scope_method(b, m) == list_method(l, m)
    &&& scope_default(b) == list_default(l)
}

pub proof fn lemma_list_method_none(l: Seq<PythonProcessorConfig>, m: Seq<char>)
    ensures
        list_method(l, m) is None <==> forall|i: int| 0 <= i < l.len() ==> !lists_method(#[trigger] l[i], m),
    decreases l.len(),
{
    if l.len() > 0 {
        let d = l.drop_last();
        lemma_list_method_none(d, m);
        if list_method(l, m) is None {
            assert forall|i: int| 0 <= i < l.len() implies !lists_method(#[trigger] l[i], m) by {
                if i < l.len() - 1 {
                    assert(d[i] == l[i]);
                }
            }
        }
        if forall|i: int| 0 <= i < l.len() ==> !lists_method(#[trigger] l[i], m) {
            assert forall|i: int| 0 <= i < d.len() implies !lists_method(#[trigger] d[i], m) by {
                assert(d[i] == l[i]);
            }
            assert(!lists_method(l[l.len() - 1], m));
        }
    }
}

pub proof fn lemma_list_default_none(l: Seq<PythonProcessorConfig>)
    ensures
        list_default(l) is None <==> forall|i: int| 0 <= i < l.len() ==> (#[trigger] l[i]).methods is Some,
    decreases l.len(),
{
    if l.len() > 0 {
        let d = l.drop_last();
        lemma_list_default_none(d);
        if list_default(l) is None {
            assert forall|i: int| 0 <= i < l.len() implies (#[trigger] l[i]).methods is Some by {
                if i < l.len() - 1 {
                    assert(d[i] == l[i]);
                }
            }
        }
        if forall|i: int| 0 <= i < l.len() ==> (#[trigger] l[i]).methods is Some {
            assert forall|i: int| 0 <= i < d.len() implies (#[trigger] d[i]).methods is Some by {
                assert(d[i] == l[i]);
            }
            assert(l[l.len() - 1].methods is Some);
        }
    }
}

/// A valid list's prefixes are valid.
pub proof fn lemma_list_valid_prefix(l: Seq<PythonProcessorConfig>, j: int)
    requires
        0 <= j <= l.len(),
        list_valid(l),
    ensures
        list_valid(l.subrange(0, j)),
{
    let p = l.subrange(0, j);
    assert forall|i: int| 0 <= i < p.len() implies colons((#[trigger] p[i]).processor@) == 1
        && methods_valid(p[i]) by {
        assert(p[i] == l[i]);
    }
    assert forall|a: int, b: int| 0 <= a < b < p.len() implies !clash(#[trigger] p[a], #[trigger] p[b]) by {
        assert(p[a] == l[a]);
        assert(p[b] == l[b]);
    }
}

/// Adding the next configuration of a list to a scope that binds the list's earlier ones
/// succeeds exactly when the longer prefix is valid, and then binds the longer prefix.
pub proof fn lemma_scope_step(
    r0: PythonProcessorResolver,
    r1: PythonProcessorResolver,
    l: Seq<PythonProcessorConfig>,
    k: int,
    sid: Option<Seq<char>>,
    res: Result<(), ConfigError>,
)
    requires
        0 <= k < l.len(),
        add_outcome(r0, r1, l[k], sid, res),
        scope_matches(scope_bindings(r0, sid), l.subrange(0, k)),
        forall|q: Seq<char>| #[trigger] processor_at(r0.processors@, q) is Some ==> colons(q) == 1,
        list_valid(l.subrange(0, k)),
    ensures
        res is Ok <==> list_valid(l.subrange(0, k + 1)),
        res is Ok ==> scope_matches(scope_bindings(r1, sid), l.subrange(0, k + 1)),
        res is Ok ==> forall|q: Seq<char>|
            #[trigger] processor_at(r1.processors@, q) is Some ==> colons(q) == 1,
{
    let c = l[k];
    let p = l.subrange(0, k);
    let p1 = l.subrange(0, k + 1);
    let ob = scope_bindings(r0, sid);
    assert(p1.drop_last() =~= p);
    assert(p1.last() == c);
    assert(processor_at(r0.processors@, c.processor@) is Some ==> colons(c.processor@) == 1);
    lemma_list_default_none(p);
    assert(scope_free(ob, c) <==> forall|i: int| 0 <= i < k ==> !clash(#[trigger] p[i], c)) by {
        if c.methods is None {
            assert forall|i: int| 0 <= i < k implies !clash(#[trigger] p[i], c) <==> p[i].methods
                is Some by {
                if p[i].methods is Some {
                    assert forall|m: Seq<char>| !(#[trigger] lists_method(p[i], m) && lists_method(c, m)) by {}
                }
            }
        } else {
            if scope_free(ob, c) {
                assert forall|i: int| 0 <= i < k implies !clash(#[trigger] p[i], c) by {
                    assert forall|m: Seq<char>| !(#[trigger] lists_method(p[i], m) && lists_method(c, m)) by {
                        if lists_method(c, m) {
                            assert(scope_method(ob, m) is None);
                            lemma_list_method_none(p, m);
                        }
                    }
                }
            }
            if forall|i: int| 0 <= i < k ==> !clash(#[trigger] p[i], c) {
                assert forall|m: Seq<char>| #[trigger] lists_method(c, m) implies scope_method(ob, m)
                    is None by {
                    lemma_list_method_none(p, m);
                    assert forall|i: int| 0 <= i < p.len() implies !lists_method(#[trigger] p[i], m) by {
                        assert(!clash(p[i], c));
                    }
                }
            }
        }
    }
    assert(list_valid(p1) <==> colons(c.processor@) == 1 && methods_valid(c) && forall|i: int|
        0 <= i < k ==> !clash(#[trigger] p[i], c)) by {
        if list_valid(p1) {
            assert(p1[k] == c);
            assert forall|i: int| 0 <= i < k implies !clash(#[trigger] p[i], c) by {
                assert(p1[i] == p[i]);
            }
        }
        if colons(c.processor@) == 1 && methods_valid(c) && forall|i: int|
            0 <= i < k ==> !clash(#[trigger] p[i], c) {
            assert forall|i: int| 0 <= i < p1.len() implies colons((#[trigger] p1[i]).processor@)
                == 1 && methods_valid(p1[i]) by {
                if i < k {
                    assert(p1[i] == p[i]);
                }
            }
            assert forall|a: int, b: int| 0 <= a < b < p1.len() implies !clash(
                #[trigger] p1[a],
                #[trigger] p1[b],
            ) by {
                assert(p1[a] == p[a]);
                if b < k {
                    assert(p1[b] == p[b]);
                }
            }
        }
    }
    if res is Ok {
        let b1 = scope_bindings(r1, sid)->0;
        assert forall|m: Seq<char>| #[trigger] scope_method(scope_bindings(r1, sid), m) == list_method(
            p1,
            m,
        ) by {
            assert(scope_method(ob, m) == list_method(p, m));
        }
    }
}

/// Binding the checked methods in `b_old` agrees with binding the methods `config` lists in
/// the scope `ob` that `b_old` stands for.
proof fn lemma_bind_agrees(
    b_old: Bindings,
    ob: Option<Bindings>,
    config: PythonProcessorConfig,
    cleaned: Seq<String>,
)
    requires
        config.methods is Some,
        forall|m: Seq<char>|
            #[trigger] lists_method(config, m) <==> exists|k: int|
                0 <= k < cleaned.len() && cleaned[k]@ == m,
        forall|m: Seq<char>| #[trigger] scope_method(ob, m) == first_value(b_old.by_method@, m),
    ensures
        scope_free(ob, config) <==> forall|k: int|
            0 <= k < cleaned.len() ==> first_value(b_old.by_method@, #[trigger] cleaned[k]@) is None,
{
    if scope_free(ob, config) {
        assert forall|k: int| 0 <= k < cleaned.len() implies first_value(
            b_old.by_method@,
            #[trigger] cleaned[k]@,
        ) is None by {
            assert(lists_method(config, cleaned[k]@));
            assert(scope_method(ob, cleaned[k]@) is None);
        }
    }
    if forall|k: int|
        0 <= k < cleaned.len() ==> first_value(b_old.by_method@, #[trigger] cleaned[k]@) is None {
        assert forall|m: Seq<char>| #[trigger] lists_method(config, m) implies scope_method(ob, m)
            is None by {
            let k = choose|k: int| 0 <= k < cleaned.len() && cleaned[k]@ == m;
            assert(first_value(b_old.by_method@, cleaned[k]@) is None);
        }
    }
}

/// Appending a scope does not change what another key finds.
proof fn lemma_scope_of_push_other(s: Seq<(String, Bindings)>, e: (String, Bindings), k: Seq<char>)
    requires
        e.0@ != k,
    ensures
        scope_of(s.push(e), k) == scope_of(s, k),
    decreases s.len(),
{
    if s.len() > 0 {
        assert(s.push(e).drop_first() =~= s.drop_first().push(e));
        assert(s.push(e)[0] == s[0]);
        lemma_scope_of_push_other(s.drop_first(), e, k);
    } else {
        assert(s.push(e).drop_first() =~= Seq::<(String, Bindings)>::empty());
        assert(s.push(e)[0] == e);
        assert(scope_of(Seq::<(String, Bindings)>::empty(), k) is None);
    }
}

/// Replacing a scope keyed other than `k` does not change what `k` finds.
proof fn lemma_scope_of_update(s: Seq<(String, Bindings)>, idx: int, e: (String, Bindings), k: Seq<char>)
    requires
        0 <= idx < s.len(),
        s[idx].0@ != k,
        e.0@ != k,
    ensures
        scope_of(s.update(idx, e), k) == scope_of(s, k),
    decreases s.len(),
{
    if idx > 0 {
        assert(s.update(idx, e).drop_first() =~= s.drop_first().update(idx - 1, e));
        assert(s.update(idx, e)[0] == s[0]);
        lemma_scope_of_update(s.drop_first(), idx - 1, e, k);
    } else {
        assert(s.update(idx, e).drop_first() =~= s.drop_first());
    }
}

/// Appending a processor changes what a path finds only where the path found none.
proof fn lemma_processor_at_push(s: Seq<PythonProcessor>, e: PythonProcessor, path: Seq<char>)
    ensures
        processor_at(s.push(e), path) == if processor_at(s, path) is Some {
            processor_at(s, path)
        } else if e.path@ == path {
            Some(e)
        } else {
            None::<PythonProcessor>
        },
    decreases s.len(),
{
    if s.len() > 0 {
        assert(s.push(e).drop_first() =~= s.drop_first().push(e));
        assert(s.push(e)[0] == s[0]);
        lemma_processor_at_push(s.drop_first(), e, path);
    } else {
        assert(s.push(e).drop_first() =~= Seq::<PythonProcessor>::empty());
        assert(s.push(e)[0] == e);
        assert(processor_at(Seq::<PythonProcessor>::empty(), path) is None);
    }
}

} // verus!
