//! Expansion of the shorthand configuration form into a full configuration.
//!
//! In the shorthand form a scenario is a list of URLs. A scenario whose name
//! has a dot (`auth.search`) inherits the requests of the scenario named by
//! the part before the first dot (`auth`): they run first, once per user, as
//! on-start requests.

use crate::models::config::{
    bare_request, Configuration, DetailedRequest, ExecutionPlan, HTTPRequestDefinition,
    ScenarioDefinition,
};
use crate::strmap::StrMap;
use crate::text::{chars_of, find_first, find_in, sub_string};
use vstd::prelude::*;
use vstd::string::StringExecFns;

verus! {

/// The shorthand form of a configuration.
#[derive(Debug)]
pub struct ShorthandConfiguration {
    pub execution: ShorthandExecution,
    pub scenarios: StrMap<ShorthandScenario>,
}

/// One execution plan, or several.
#[derive(Debug)]
pub enum ShorthandExecution {
    Single(ShorthandExecutionPlan),
    Multiple(Vec<ShorthandExecutionPlan>),
}

/// An execution plan of the shorthand form.
#[derive(Debug, Clone)]
pub struct ShorthandExecutionPlan {
    pub concurrency: usize,
    pub ramp_up: String,
    pub hold_for: String,
    pub scenario: String,
}

/// The ramp-up when the shorthand form gives none.
pub fn default_ramp_up() -> (s: String)
    ensures
        s@ == "0s"@,
{
    String::from_str("0s")
}

/// The hold time when the shorthand form gives none.
pub fn default_hold_for() -> (s: String)
    ensures
        s@ == "10s"@,
{
    String::from_str("10s")
}

/// A shorthand scenario: the URLs it requests, in order.
#[derive(Debug, Clone)]
pub struct ShorthandScenario {
    pub requests: Vec<String>,
}

/// Expands shorthand configurations.
pub struct SchemaNormalizer;

/// The execution plans of the shorthand form, in order.
pub open spec fn shorthand_plans(e: ShorthandExecution) -> Seq<ShorthandExecutionPlan> {
    match e {
        ShorthandExecution::Single(p) => seq![p],
        ShorthandExecution::Multiple(v) => v@,
    }
}

/// `e` is the full plan for shorthand plan `p`: the same users, times and
/// scenario, with no throughput limit, steps or pacing.
pub open spec fn plan_expanded(p: ShorthandExecutionPlan, e: ExecutionPlan) -> bool {
    &&& e.concurrency == p.concurrency
    &&& e.ramp_up@ == p.ramp_up@
    &&& e.hold_for@ == p.hold_for@
    &&& e.scenario@ == p.scenario@
    &&& e.throughput is None
    &&& e.steps is None
    &&& e.pacing is None
}

/// The scenario whose requests a scenario named `name` inherits: the part
/// of the name before its first dot, when it has one.
pub open spec fn parent_scenario(name: Seq<char>) -> Option<Seq<char>> {
    match find_first(name, seq!['.']) {
        Some(i) => Some(name.take(i)),
        None => None,
    }
}

/// The URLs that scenario `name` inherits from its parent in `sh`; none
/// when it has no parent or the parent is not defined.
pub open spec fn inherited_requests(sh: Map<Seq<char>, ShorthandScenario>, name: Seq<char>) -> Seq<
    String,
> {
    match parent_scenario(name) {
        Some(p) => if sh.contains_key(p) {
            sh[p].requests@
        } else {
            Seq::empty()
        },
        None => Seq::empty(),
    }
}

/// `r` is a bare GET of `url`.
pub open spec fn simple_request_for(r: HTTPRequestDefinition, url: Seq<char>) -> bool {
    r matches HTTPRequestDefinition::Simple(u) && u@ == url
}

/// `d` requests `url` once per user before anything else, with no other
/// setting.
pub open spec fn setup_request(url: Seq<char>, d: DetailedRequest) -> bool {
    d.on_start && bare_request(url, DetailedRequest { on_start: false, ..d })
}

/// `r` is an on-start request of `url` with no other setting.
pub open spec fn setup_request_for(r: HTTPRequestDefinition, url: Seq<char>) -> bool {
    r matches HTTPRequestDefinition::Detailed(d) && setup_request(url, *d)
}

/// `s` is the full scenario for shorthand scenario `name` of `sh`: weight
/// one, no think time, data sources or headers; the inherited URLs first,
/// as on-start requests, then the scenario's own URLs as bare GETs.
pub open spec fn scenario_expanded(
    sh: Map<Seq<char>, ShorthandScenario>,
    name: Seq<char>,
    s: ScenarioDefinition,
) -> bool {
    let inherited = inherited_requests(sh, name);
    let own = sh[name].requests@;
    &&& s.weight == 1
    &&& s.think_time is None
    &&& s.data_sources is None
    &&& s.headers is None
    &&& s.requests@.len() == inherited.len() + own.len()
    &&& forall|i: int|
        0 <= i < inherited.len() ==> setup_request_for(#[trigger] s.requests@[i], inherited[i]@)
    &&& forall|j: int|
        0 <= j < own.len() ==> simple_request_for(
            #[trigger] s.requests@[inherited.len() + j],
            own[j]@,
        )
}

/// A scenario whose name has no dot inherits nothing: its full form holds
/// exactly its own URLs, as bare GETs.
pub proof fn lemma_undotted_scenario_keeps_own_requests(
    sh: Map<Seq<char>, ShorthandScenario>,
    name: Seq<char>,
    s: ScenarioDefinition,
)
    requires
        !crate::text::contains(name, seq!['.']),
        scenario_expanded(sh, name, s),
    ensures
        s.requests@.len() == sh[name].requests@.len(),
        forall|j: int|
            0 <= j < s.requests@.len() ==> simple_request_for(#[trigger] s.requests@[j], sh[name].requests@[j]@),
{
    crate::text::lemma_find_first(name, seq!['.']);
    assert(inherited_requests(sh, name).len() == 0);
    assert forall|j: int| 0 <= j < s.requests@.len() implies simple_request_for(
        #[trigger] s.requests@[j],
        sh[name].requests@[j]@,
    ) by {
        assert(s.requests@[0 + j] == s.requests@[j]);
    }
}

/// A request of `url` with every other field absent, run on start.
fn setup_request_exec(url: &String) -> (r: HTTPRequestDefinition)
    ensures
        setup_request_for(r, url@),
{
    let mut d = DetailedRequest::for_url(url.clone());
    d.on_start = true;
    HTTPRequestDefinition::Detailed(Box::new(d))
}

/// The full plan for a shorthand plan.
fn expand_plan(p: &ShorthandExecutionPlan) -> (e: ExecutionPlan)
    ensures
        plan_expanded(*p, e),
{
    ExecutionPlan {
        concurrency: p.concurrency,
        ramp_up: p.ramp_up.clone(),
        hold_for: p.hold_for.clone(),
        scenario: p.scenario.clone(),
        throughput: None,
        steps: None,
        pacing: None,
    }
}

/// The parent scenario's URLs for scenario `name`, when the name has a dot
/// and the parent is defined.
fn inherited_of(scenarios: &StrMap<ShorthandScenario>, name: &String) -> (r: Vec<String>)
    ensures
        r@ == inherited_requests(scenarios@, name@),
{
    let v = chars_of(name.as_str());
    let dot = vec!['.'];
    assert(dot@ =~= seq!['.']);
    let pos = find_in(&v, 0, v.len(), &dot);
    assert(v@.subrange(0, v@.len() as int) =~= name@);
    match pos {
        Some(i) => {
            let parent = sub_string(&v, 0, i);
            assert(parent@ =~= name@.take(i as int));
            match scenarios.get(parent.as_str()) {
                Some(p) => p.requests.clone(),
                None => Vec::new(),
            }
        },
        None => Vec::new(),
    }
}

/// The full scenario for the shorthand scenario `name`.
fn expand_scenario(scenarios: &StrMap<ShorthandScenario>, name: &String, own: &ShorthandScenario) -> (s:
    ScenarioDefinition)
    requires
        scenarios@.contains_key(name@),
        scenarios@[name@] == *own,
    ensures
        scenario_expanded(scenarios@, name@, s),
{
    let inherited = inherited_of(scenarios, name);
    let mut requests: Vec<HTTPRequestDefinition> = Vec::new();
    let mut i: usize = 0;
    while i < inherited.len()
        invariant
            i <= inherited@.len(),
            requests@.len() == i,
            forall|k: int| 0 <= k < i ==> setup_request_for(#[trigger] requests@[k], inherited@[k]@),
        decreases inherited@.len() - i,
    {
        requests.push(setup_request_exec(&inherited[i]));
        i = i + 1;
    }
    let mut j: usize = 0;
    while j < own.requests.len()
        invariant
            j <= own.requests@.len(),
            requests@.len() == inherited@.len() + j,
            forall|k: int| 0 <= k < inherited@.len() ==> setup_request_for(#[trigger] requests@[k], inherited@[k]@),
            forall|k: int|
                0 <= k < j ==> simple_request_for(
                    #[trigger] requests@[inherited@.len() + k],
                    own.requests@[k]@,
                ),
        decreases own.requests@.len() - j,
    {
        let ghost before = requests@;
        requests.push(HTTPRequestDefinition::Simple(own.requests[j].clone()));
        assert forall|k: int| 0 <= k < inherited@.len() implies setup_request_for(
            #[trigger] requests@[k],
            inherited@[k]@,
        ) by {
            assert(requests@[k] == before[k]);
        }
        assert forall|k: int| 0 <= k < j + 1 implies simple_request_for(
            #[trigger] requests@[inherited@.len() + k],
            own.requests@[k]@,
        ) by {
            if k < j {
                assert(requests@[inherited@.len() + k] == before[inherited@.len() + k]);
            }
        }
        j = j + 1;
    }
    ScenarioDefinition {
        requests,
        weight: 1,
        think_time: None,
        data_sources: None,
        headers: None,
    }
}

impl SchemaNormalizer {
    /// Expands a shorthand configuration: each plan becomes a full plan
    /// with no throughput limit, steps or pacing; each scenario becomes a
    /// full scenario of bare GETs with weight one, preceded, for a dotted
    /// name, by its parent's URLs as on-start requests. The result has no
    /// reporting, services or control API.
    pub fn normalize_shorthand(shorthand: ShorthandConfiguration) -> (c: Configuration)
        ensures
            c.execution@.len() == shorthand_plans(shorthand.execution).len(),
            forall|i: int|
                0 <= i < c.execution@.len() ==> plan_expanded(
                    shorthand_plans(shorthand.execution)[i],
                    #[trigger] c.execution@[i],
                ),
            c.scenarios@.dom() == shorthand.scenarios@.dom(),
            forall|name: Seq<char>| #[trigger]
                c.scenarios@.contains_key(name) ==> scenario_expanded(
                    shorthand.scenarios@,
                    name,
                    c.scenarios@[name],
                ),
            c.reporting@.len() == 0,
            c.services@.len() == 0,
            c.api is None,
    {
        let mut execution: Vec<ExecutionPlan> = Vec::new();
        match &shorthand.execution {
            ShorthandExecution::Single(p) => {
                execution.push(expand_plan(p));
            },
            ShorthandExecution::Multiple(plans) => {
                let mut i: usize = 0;
                while i < plans.len()
                    invariant
                        i <= plans@.len(),
                        execution@.len() == i,
                        forall|k: int|
                            0 <= k < i ==> plan_expanded(plans@[k], #[trigger] execution@[k]),
                    decreases plans@.len() - i,
                {
                    execution.push(expand_plan(&plans[i]));
                    i = i + 1;
                }
            },
        }
        let sh = &shorthand.scenarios;
        let n = sh.len();
        let mut scenarios: StrMap<ScenarioDefinition> = StrMap::new();
        let mut i: usize = 0;
        while i < n
            invariant
                n == sh.len_spec(),
                i <= n,
                sh.keys().len() == n,
                forall|a: int, b: int|
                    0 <= a < n && 0 <= b < n && a != b ==> #[trigger] sh.keys()[a]
                        != #[trigger] sh.keys()[b],
                forall|a: int| 0 <= a < n ==> sh@.dom().contains(#[trigger] sh.keys()[a]),
                forall|k: Seq<char>| #[trigger]
                    sh@.dom().contains(k) ==> exists|a: int| 0 <= a < n && #[trigger] sh.keys()[a] == k,
                forall|k: Seq<char>|
                    #[trigger] scenarios@.contains_key(k) <==> exists|a: int|
                        0 <= a < i && #[trigger] sh.keys()[a] == k,
                forall|a: int|
                    0 <= a < i ==> scenario_expanded(
                        sh@,
                        #[trigger] sh.keys()[a],
                        scenarios@[sh.keys()[a]],
                    ),
            decreases n - i,
        {
            let name = sh.key_at(i);
            let own = sh.value_at(i);
            let def = expand_scenario(sh, name, own);
            let ghost before = scenarios@;
            scenarios.insert(name.clone(), def);
            proof {
                assert forall|k: Seq<char>|
                    #[trigger] scenarios@.contains_key(k) <==> exists|a: int|
                        0 <= a < i + 1 && #[trigger] sh.keys()[a] == k by {
                    if k == sh.keys()[i as int] {
                        assert(sh.keys()[i as int] == k);
                    } else if before.contains_key(k) {
                        let a = choose|a: int| 0 <= a < i && #[trigger] sh.keys()[a] == k;
                        assert(0 <= a < i + 1 && sh.keys()[a] == k);
                    } else {
                        if exists|a: int| 0 <= a < i + 1 && #[trigger] sh.keys()[a] == k {
                            let a = choose|a: int| 0 <= a < i + 1 && #[trigger] sh.keys()[a] == k;
                            assert(a != i);
                        }
                    }
                }
                assert forall|a: int| 0 <= a < i + 1 implies scenario_expanded(
                    sh@,
                    #[trigger] sh.keys()[a],
                    scenarios@[sh.keys()[a]],
                ) by {
                    if a < i {
                        assert(sh.keys()[a] != sh.keys()[i as int]);
                    }
                }
            }
            i = i + 1;
        }
        proof {
            assert forall|k: Seq<char>| scenarios@.contains_key(k) <==> sh@.contains_key(k) by {
                if sh@.contains_key(k) {
                    let a = choose|a: int| 0 <= a < sh.keys().len() && #[trigger] sh.keys()[a] == k;
                    assert(sh.keys()[a] == k);
                }
            }
            assert(scenarios@.dom() =~= sh@.dom());
            assert forall|name: Seq<char>| #[trigger]
                scenarios@.contains_key(name) implies scenario_expanded(
                sh@,
                name,
                scenarios@[name],
            ) by {
                let a = choose|a: int| 0 <= a < n && #[trigger] sh.keys()[a] == name;
                assert(scenario_expanded(sh@, sh.keys()[a], scenarios@[sh.keys()[a]]));
            }
        }
        Configuration {
            execution,
            scenarios,
            reporting: Vec::new(),
            services: Vec::new(),
            api: None,
        }
    }
}

} // verus!
