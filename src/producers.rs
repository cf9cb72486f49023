use vstd::prelude::*;
use vstd::string::*;

use crate::config::LibrdkafkaConfig;
use crate::error::ConfigError;
use crate::headers::texts;
use crate::methods::holds_text;

verus! {

/// The broker-client settings of one named producer.
pub struct ProducerSpec {
    pub name: String,
    /// (key, value) settings, in the order given; the SASL password last when there is one.
    pub settings: Vec<(String, String)>,
}

/// The producer pool as configured: one producer per name.
pub struct Kafka {
    pub producers: Vec<ProducerSpec>,
}

/// The (key, value) texts of a settings list.
pub open spec fn setting_texts(v: Seq<(String, String)>) -> Seq<(Seq<char>, Seq<char>)> {
    v.map_values(|e: (String, String)| (e.0@, e.1@))
}

/// The settings a producer is created with: its options, then the SASL password when a
/// password file was given.
pub open spec fn producer_settings(c: LibrdkafkaConfig, password: Option<String>) -> Seq<
    (Seq<char>, Seq<char>),
> {
    setting_texts(c.config@) + match password {
        Some(p) => seq![("sasl.password"@, p@)],
        None => seq![],
    }
}

/// The names of a list of producer configurations.
pub open spec fn config_names(v: Seq<LibrdkafkaConfig>) -> Seq<Seq<char>> {
    v.map_values(|c: LibrdkafkaConfig| c.name@)
}

/// Whether no two texts are equal.
pub open spec fn distinct(s: Seq<Seq<char>>) -> bool {
    forall|i: int, j: int| 0 <= i < j < s.len() ==> s[i] != s[j]
}

fn copy_settings(v: &Vec<(String, String)>) -> (r: Vec<(String, String)>)
    ensures
        setting_texts(r@) == setting_texts(v@),
{
    let mut r: Vec<(String, String)> = Vec::new();
    let mut i: usize = 0;
    while i < v.len()
        invariant
            i <= v@.len(),
            r@.len() == i,
            setting_texts(r@) == setting_texts(v@.subrange(0, i as int)),
        decreases v@.len() - i,
    {
        let ghost prev = r@;
        r.push((v[i].0.clone(), v[i].1.clone()));
        assert forall|k: int| 0 <= k < i + 1 implies setting_texts(r@)[k] == setting_texts(
            v@.subrange(0, i + 1),
        )[k] by {
            if k < i {
                assert(r@[k] == prev[k]);
                assert(setting_texts(prev)[k] == setting_texts(v@.subrange(0, i as int))[k]);
            }
        }
        assert(setting_texts(r@) =~= setting_texts(v@.subrange(0, i + 1)));
        i = i + 1;
    }
    assert(v@.subrange(0, v@.len() as int) =~= v@);
    r
}

impl Kafka {
    /// The pool of `configs`, where `passwords[i]` is the content of the SASL password file
    /// of `configs[i]`, if it names one. `DuplicateProducerName` with the first name given
    /// twice.
    pub fn start(configs: &Vec<LibrdkafkaConfig>, passwords: &Vec<Option<String>>) -> (r: Result<
        Kafka,
        ConfigError,
    >)
        requires
            passwords@.len() == configs@.len(),
        ensures
            distinct(config_names(configs@)) <==> r is Ok,
            r is Ok ==> r->Ok_0.producers@.len() == configs@.len() && forall|i: int|
                0 <= i < configs@.len() ==> (#[trigger] r->Ok_0.producers@[i]).name@
                    == configs@[i].name@ && setting_texts(r->Ok_0.producers@[i].settings@)
                    == producer_settings(configs@[i], passwords@[i]),
            r is Err ==> (r matches Err(ConfigError::DuplicateProducerName(n)) && exists|j: int|
                0 <= j < configs@.len() && configs@[j].name@ == n@ && distinct(
                    config_names(configs@.subrange(0, j)),
                ) && config_names(configs@.subrange(0, j)).contains(n@)),
    {
        let mut producers: Vec<ProducerSpec> = Vec::new();
        let mut names: Vec<String> = Vec::new();
        let mut i: usize = 0;
        while i < configs.len()
            invariant
                i <= configs@.len(),
                passwords@.len() == configs@.len(),
                producers@.len() == i,
                texts(names@) == config_names(configs@.subrange(0, i as int)),
                distinct(texts(names@)),
                forall|k: int|
                    0 <= k < i ==> (#[trigger] producers@[k]).name@ == configs@[k].name@
                        && setting_texts(producers@[k].settings@) == producer_settings(
                        configs@[k],
                        passwords@[k],
                    ),
            decreases configs@.len() - i,
        {
            let c = &configs[i];
            if holds_text(&names, c.name.as_str()) {
                proof {
                    let j = choose|j: int| 0 <= j < texts(names@).len() && texts(names@)[j] == c.name@;
                    assert(config_names(configs@.subrange(0, i as int))[j] == configs@[j].name@);
                    assert(config_names(configs@)[j] == config_names(configs@)[i as int]);
                }
                return Err(ConfigError::DuplicateProducerName(c.name.clone()));
            }
            let mut settings = copy_settings(&c.config);
            match &passwords[i] {
                Some(p) => {
                    let ghost prev = settings@;
                    settings.push((String::from_str("sasl.password"), p.clone()));
                    assert(setting_texts(settings@) =~= setting_texts(prev) + seq![
                        ("sasl.password"@, p@),
                    ]);
                },
                None => {
                    assert(setting_texts(settings@) + seq![] =~= setting_texts(settings@));
                },
            }
            let ghost prev_names = texts(names@);
            names.push(c.name.clone());
            assert(texts(names@) =~= prev_names.push(c.name@));
            assert(config_names(configs@.subrange(0, i + 1)) =~= config_names(
                configs@.subrange(0, i as int),
            ).push(c.name@));
            producers.push(ProducerSpec { name: c.name.clone(), settings });
            i = i + 1;
        }
        assert(configs@.subrange(0, configs@.len() as int) =~= configs@);
        Ok(Kafka { producers })
    }

    /// The names of the producers, in the order configured.
    pub fn producer_names(&self) -> (r: Vec<String>)
        ensures
            r@.len() == self.producers@.len(),
            forall|i: int| 0 <= i < r@.len() ==> (#[trigger] r@[i])@ == self.producers@[i].name@,
    {
        let mut r: Vec<String> = Vec::new();
        let mut i: usize = 0;
        while i < self.producers.len()
            invariant
                i <= self.producers@.len(),
                r@.len() == i,
                forall|k: int| 0 <= k < i ==> (#[trigger] r@[k])@ == self.producers@[k].name@,
            decreases self.producers@.len() - i,
        {
            r.push(self.producers[i].name.clone());
            i = i + 1;
        }
        r
    }
}

} // verus!
