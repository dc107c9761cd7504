//! The models that work on subtasks.

use crate::subtasks::config;
use crate::subtasks::config::{ProviderConfig, RoutingPolicy, SubtasksConfig};
use crate::seqs;
use crate::table::Table;
use crate::text;
use vstd::prelude::*;

verus! {

/// How a model is to think.
#[derive(Debug)]
pub struct ThinkingConfig {
    pub effort: String,
    pub budget_tokens: Option<u32>,
}

/// How a model is reached.
#[derive(Debug)]
pub enum ProviderChoice {
    /// As the one that works on requests.
    Inherited,
    /// By itself.
    Own {
        api_key: String,
        endpoint: String,
        model: String,
        thinking: Option<ThinkingConfig>,
        max_tokens: Option<u32>,
    },
}

/// How a model is reached, as mathematical data.
pub enum ProviderView {
    Inherited,
    Own {
        api_key: Seq<char>,
        endpoint: Seq<char>,
        model: Seq<char>,
        thinking: Option<(Seq<char>, Option<u32>)>,
        max_tokens: Option<u32>,
    },
}

impl View for ProviderChoice {
    type V = ProviderView;

    open spec fn view(&self) -> ProviderView {
        match self {
            ProviderChoice::Inherited => ProviderView::Inherited,
            ProviderChoice::Own { api_key, endpoint, model, thinking, max_tokens } =>
                ProviderView::Own {
                    api_key: api_key@,
                    endpoint: endpoint@,
                    model: model@,
                    thinking: match *thinking {
                        Some(t) => Some((t.effort@, t.budget_tokens)),
                        None => None,
                    },
                    max_tokens: *max_tokens,
                },
        }
    }
}

/// The models of a table.
pub open spec fn choices(t: Map<Seq<char>, ProviderChoice>) -> Map<Seq<char>, ProviderView> {
    t.map_values(|p: ProviderChoice| p@)
}

/// A model that the configuration names. What it does not say is inherited,
/// and the name of the model is its own.
pub open spec fn configured(name: Seq<char>, p: ProviderConfig, api_key: Seq<char>) -> ProviderView {
    ProviderView::Own {
        api_key: match p.api_key {
            Some(k) => k@,
            None => api_key,
        },
        endpoint: p.endpoint@,
        model: match p.model {
            Some(m) => m@,
            None => name,
        },
        thinking: if p.thinking_enabled {
            Some((p.thinking_effort@, p.thinking_budget_tokens))
        } else {
            None
        },
        max_tokens: p.max_tokens,
    }
}

/// A model that only a rule names.
pub open spec fn routed(name: Seq<char>, api_key: Seq<char>, api_base: Seq<char>) -> ProviderView {
    ProviderView::Own { api_key, endpoint: api_base, model: name, thinking: None, max_tokens: None }
}

/// The models that the configuration names, and the one that works on
/// requests under its name unless the configuration names it too.
pub open spec fn named_models(
    providers: Map<Seq<char>, ProviderConfig>,
    default_model: Seq<char>,
    api_key: Seq<char>,
) -> Map<Seq<char>, ProviderView> {
    Map::new(
        |n: Seq<char>| n == default_model || providers.contains_key(n),
        |n: Seq<char>|
            if providers.contains_key(n) {
                configured(n, providers[n], api_key)
            } else {
                ProviderView::Inherited
            },
    )
}

/// All models once those were added that only rules name.
pub open spec fn with_routed(
    known: Map<Seq<char>, ProviderView>,
    rules: Seq<(Seq<char>, Seq<char>)>,
    api_key: Seq<char>,
    api_base: Seq<char>,
) -> Map<Seq<char>, ProviderView>
    decreases rules.len(),
{
    if rules.len() == 0 {
        known
    } else {
        let m = with_routed(known, rules.drop_last(), api_key, api_base);
        let name = rules.last().1;
        if m.contains_key(name) {
            m
        } else {
            m.insert(name, routed(name, api_key, api_base))
        }
    }
}

fn configured_choice(name: &str, p: &ProviderConfig, api_key: &str) -> (r: ProviderChoice)
    ensures
        r@ == configured(name@, *p, api_key@),
{
    ProviderChoice::Own {
        api_key: match &p.api_key {
            Some(k) => k.clone(),
            None => api_key.to_owned(),
        },
        endpoint: p.endpoint.clone(),
        model: match &p.model {
            Some(m) => m.clone(),
            None => name.to_owned(),
        },
        thinking: if p.thinking_enabled {
            Some(
                ThinkingConfig {
                    effort: p.thinking_effort.clone(),
                    budget_tokens: p.thinking_budget_tokens,
                },
            )
        } else {
            None
        },
        max_tokens: p.max_tokens,
    }
}

/// What puts the results of subtasks together.
#[derive(Debug)]
pub enum ReducerChoice {
    /// Rules.
    Rules,
    /// A model under this name; `known` says whether it is one of the models
    /// for subtasks, else the one that works on requests stands in.
    Model { name: String, known: bool },
}

/// The models that work on subtasks.
pub struct SubtasksEngine {
    pub providers: Table<ProviderChoice>,
    pub routing: RoutingPolicy,
    pub reducer: ReducerChoice,
    pub config: SubtasksConfig,
}

impl SubtasksEngine {
    /// The models that work on subtasks, given how the one that works on
    /// requests is reached.
    pub fn new_with_context(
        config: SubtasksConfig,
        default_model: &str,
        api_key: &str,
        api_base: &str,
    ) -> (r: Self)
        ensures
            r.config == config,
            config::rules_view(r.routing.rules@) == config::rules_view(config.routing_rules@),
            r.routing.default_model@ == (match config.default_model {
                Some(m) => m@,
                None => default_model@,
            }),
            choices(r.providers@) == with_routed(
                named_models(config.providers@, default_model@, api_key@),
                config::rules_view(config.routing_rules@),
                api_key@,
                api_base@,
            ),
            match config.reducer_model {
                Some(m) => r.reducer matches ReducerChoice::Model { name, known } && name@ == m@
                    && known == r.providers@.contains_key(m@),
                None => r.reducer is Rules,
            },
    {
        let routing = config.to_routing_policy(default_model);
        let mut providers: Table<ProviderChoice> = Table::new();
        providers.insert(default_model.to_owned(), ProviderChoice::Inherited);
        let keys = config.providers.keys();
        let ghost names = text::texts(keys@);
        let ghost given = config.providers@;
        let mut i: usize = 0;
        proof {
            assert(choices(providers@) =~= named_models(
                Map::empty(),
                default_model@,
                api_key@,
            ));
            assert(given.restrict(names.take(0).to_set()) =~= Map::empty());
        }
        while i < keys.len()
            invariant
                0 <= i <= keys@.len(),
                names == text::texts(keys@),
                given == config.providers@,
                forall|k: Seq<char>| #[trigger] names.contains(k) <==> given.contains_key(k),
                choices(providers@) == named_models(
                    given.restrict(names.take(i as int).to_set()),
                    default_model@,
                    api_key@,
                ),
            decreases keys@.len() - i,
        {
            let ghost before = providers@;
            let ghost name = keys@[i as int]@;
            proof {
                assert(names[i as int] == name);
                assert(names.contains(name));
            }
            match config.providers.get(keys[i].as_str()) {
                Some(p) => {
                    let c = configured_choice(keys[i].as_str(), p, api_key);
                    let ghost cv = c@;
                    providers.insert(keys[i].clone(), c);
                    proof {
                        assert(choices(providers@) =~= choices(before).insert(name, cv));
                        assert(names.take(i + 1) =~= names.take(i as int).push(name));
                        let a = given.restrict(names.take(i as int).to_set());
                        let b = given.restrict(names.take(i + 1).to_set());
                        assert forall|n: Seq<char>| #[trigger]
                            names.take(i + 1).contains(n) <==> names.take(i as int).contains(n)
                                || n == name by {
                            seqs::lemma_push_contains(names.take(i as int), name, n);
                        }
                        assert(b =~= a.insert(name, given[name]));
                        assert(named_models(b, default_model@, api_key@) =~= named_models(
                            a,
                            default_model@,
                            api_key@,
                        ).insert(name, configured(name, given[name], api_key@)));
                    }
                },
                None => {},
            }
            i += 1;
        }
        proof {
            assert(names.take(i as int) =~= names);
            assert(given.restrict(names.to_set()) =~= given);
        }
        let ghost known = choices(providers@);
        let ghost rules = config::rules_view(routing.rules@);
        let mut j: usize = 0;
        proof {
            assert(rules.take(0) =~= Seq::empty());
        }
        while j < routing.rules.len()
            invariant
                0 <= j <= routing.rules@.len(),
                rules == config::rules_view(routing.rules@),
                choices(providers@) == with_routed(
                    known,
                    rules.take(j as int),
                    api_key@,
                    api_base@,
                ),
            decreases routing.rules@.len() - j,
        {
            let ghost before = providers@;
            let name = &routing.rules[j].target_model;
            proof {
                assert(rules.take(j + 1).drop_last() =~= rules.take(j as int));
                assert(rules.take(j + 1).last() == rules[j as int]);
                assert(rules[j as int].1 == name@);
            }
            let is_known = match providers.get(name.as_str()) {
                Some(_) => true,
                None => false,
            };
            if !is_known {
                let c = ProviderChoice::Own {
                    api_key: api_key.to_owned(),
                    endpoint: api_base.to_owned(),
                    model: name.clone(),
                    thinking: None,
                    max_tokens: None,
                };
                let ghost cv = c@;
                providers.insert(name.clone(), c);
                proof {
                    assert(choices(providers@) =~= choices(before).insert(name@, cv));
                }
            }
            j += 1;
        }
        proof {
            assert(rules.take(j as int) =~= rules);
        }
        let reducer = match &config.reducer_model {
            Some(m) => {
                let known = match providers.get(m.as_str()) {
                    Some(_) => true,
                    None => false,
                };
                ReducerChoice::Model { name: m.clone(), known }
            },
            None => ReducerChoice::Rules,
        };
        SubtasksEngine { providers, routing, reducer, config }
    }

    /// Whether requests may be split into subtasks.
    pub fn is_enabled(&self) -> (r: bool)
        ensures
            r == self.config.enabled,
    {
        self.config.enabled
    }
}

proof fn lemma_routed(
    known: Map<Seq<char>, ProviderView>,
    rules: Seq<(Seq<char>, Seq<char>)>,
    api_key: Seq<char>,
    api_base: Seq<char>,
)
    ensures
        forall|n: Seq<char>| #[trigger]
            known.contains_key(n) ==> with_routed(known, rules, api_key, api_base).contains_key(n)
                && with_routed(known, rules, api_key, api_base)[n] == known[n],
        forall|i: int|
            0 <= i < rules.len() ==> with_routed(known, rules, api_key, api_base).contains_key(
                (#[trigger] rules[i]).1,
            ),
    decreases rules.len(),
{
    if rules.len() > 0 {
        let p = rules.drop_last();
        lemma_routed(known, p, api_key, api_base);
        assert forall|i: int| 0 <= i < rules.len() implies with_routed(
            known,
            rules,
            api_key,
            api_base,
        ).contains_key((#[trigger] rules[i]).1) by {
            if i < p.len() {
                assert(rules[i] == p[i]);
            }
        }
    }
}

/// Every model that a rule names is there, and what the configuration says of
/// a model is not changed by the rules.
pub proof fn law_every_target_is_served(
    providers: Map<Seq<char>, ProviderConfig>,
    default_model: Seq<char>,
    rules: Seq<(Seq<char>, Seq<char>)>,
    api_key: Seq<char>,
    api_base: Seq<char>,
)
    ensures
        ({
            let all = with_routed(
                named_models(providers, default_model, api_key),
                rules,
                api_key,
                api_base,
            );
            &&& all.contains_key(default_model)
            &&& forall|i: int| 0 <= i < rules.len() ==> all.contains_key((#[trigger] rules[i]).1)
            &&& forall|n: Seq<char>| #[trigger]
                providers.contains_key(n) ==> all.contains_key(n) && all[n] == configured(
                    n,
                    providers[n],
                    api_key,
                )
        }),
{
    let known = named_models(providers, default_model, api_key);
    lemma_routed(known, rules, api_key, api_base);
    assert(known.contains_key(default_model));
    assert forall|n: Seq<char>| #[trigger] providers.contains_key(n) implies known.contains_key(n)
        && known[n] == configured(n, providers[n], api_key) by {}
}

/// A model that the configuration names is reached as it says, with the key
/// of requests and under its own name where it does not say.
pub proof fn law_configured_model_is_reached(name: Seq<char>, p: ProviderConfig, api_key: Seq<char>)
    ensures
        configured(name, p, api_key) matches ProviderView::Own {
            api_key: k,
            endpoint,
            model,
            thinking,
            max_tokens,
        } && endpoint == p.endpoint@ && max_tokens == p.max_tokens && (p.api_key is None ==> k
            == api_key) && (p.api_key is Some ==> k == p.api_key->0@) && (p.model is None ==> model
            == name) && (p.model is Some ==> model == p.model->0@) && (thinking is Some
            <==> p.thinking_enabled),
{
}

/// A model that only a rule names is reached like the one that works on
/// requests, under the name that the rule gives.
pub proof fn law_routed_model_is_reached(
    known: Map<Seq<char>, ProviderView>,
    rules: Seq<(Seq<char>, Seq<char>)>,
    i: int,
    api_key: Seq<char>,
    api_base: Seq<char>,
)
    requires
        0 <= i < rules.len(),
        !known.contains_key(rules[i].1),
    ensures
        with_routed(known, rules, api_key, api_base).contains_key(rules[i].1),
        with_routed(known, rules, api_key, api_base)[rules[i].1] matches ProviderView::Own {
            api_key: k,
            endpoint,
            model,
            ..
        } && k == api_key && endpoint == api_base && model == rules[i].1,
{
    lemma_routed(known, rules, api_key, api_base);
    lemma_routed_like_requests(known, rules, rules[i].1, api_key, api_base);
}

proof fn lemma_routed_like_requests(
    known: Map<Seq<char>, ProviderView>,
    rules: Seq<(Seq<char>, Seq<char>)>,
    n: Seq<char>,
    api_key: Seq<char>,
    api_base: Seq<char>,
)
    requires
        !known.contains_key(n),
    ensures
        with_routed(known, rules, api_key, api_base).contains_key(n) ==> with_routed(
            known,
            rules,
            api_key,
            api_base,
        )[n] == routed(n, api_key, api_base),
    decreases rules.len(),
{
    if rules.len() > 0 {
        lemma_routed_like_requests(known, rules.drop_last(), n, api_key, api_base);
    }
}

} // verus!
