//! The decisions around a load-test run: which service hooks run in each
//! phase, which SLA criteria apply, which reports push live metrics, and
//! what the live SLA watch does with each round of results.

use crate::engine::sla::SlaResult;
use crate::engine::utils::{parse_time_to_ms, time_ms};
use crate::models::config::{ReportingDefinition, ServiceDefinition, SlaAction, SlaCriterion, SlaMetric};
use crate::strmap::StrMap;
use crate::text::{str_eq, string_views};
use vstd::prelude::*;

verus! {

/// The shell commands of service `s` for `phase` (`prepare`, `startup` or
/// `shutdown`); none for another module or phase.
pub open spec fn phase_commands(s: ServiceDefinition, phase: Seq<char>) -> Seq<Seq<char>> {
    if s.module@ != "shell"@ {
        Seq::empty()
    } else if phase == "prepare"@ {
        string_views(s.prepare@)
    } else if phase == "startup"@ {
        string_views(s.startup@)
    } else if phase == "shutdown"@ {
        string_views(s.shutdown@)
    } else {
        Seq::empty()
    }
}

/// The commands of the first `k` services for `phase`, in order.
pub open spec fn hook_list(services: Seq<ServiceDefinition>, phase: Seq<char>, k: int) -> Seq<Seq<char>>
    decreases k,
{
    if k <= 0 {
        Seq::empty()
    } else {
        hook_list(services, phase, k - 1) + phase_commands(services[k - 1], phase)
    }
}

proof fn lemma_hook_list_prefix(services: Seq<ServiceDefinition>, s: ServiceDefinition, phase: Seq<char>, k: int)
    requires
        0 <= k <= services.len(),
    ensures
        hook_list(services.push(s), phase, k) == hook_list(services, phase, k),
    decreases k,
{
    if k > 0 {
        lemma_hook_list_prefix(services, s, phase, k - 1);
        assert(services.push(s)[k - 1] == services[k - 1]);
    }
}

/// Appending a service appends its own commands for the phase, in order: a
/// `shell` service adds its `prepare`, `startup` or `shutdown` list for
/// that phase; a service of another module, or any other phase, adds
/// nothing.
pub proof fn lemma_hooks_of_appended_service(services: Seq<ServiceDefinition>, s: ServiceDefinition, phase: Seq<char>)
    ensures
        s.module@ == "shell"@ && phase == "prepare"@ ==> hook_list(services.push(s), phase, services.len() as int + 1)
            == hook_list(services, phase, services.len() as int) + string_views(s.prepare@),
        s.module@ == "shell"@ && phase == "startup"@ ==> hook_list(services.push(s), phase, services.len() as int + 1)
            == hook_list(services, phase, services.len() as int) + string_views(s.startup@),
        s.module@ == "shell"@ && phase == "shutdown"@ ==> hook_list(services.push(s), phase, services.len() as int + 1)
            == hook_list(services, phase, services.len() as int) + string_views(s.shutdown@),
        s.module@ != "shell"@ || (phase != "prepare"@ && phase != "startup"@ && phase != "shutdown"@)
            ==> hook_list(services.push(s), phase, services.len() as int + 1) == hook_list(
            services,
            phase,
            services.len() as int,
        ),
{
    lemma_hook_list_prefix(services, s, phase, services.len() as int);
    assert(services.push(s)[services.len() as int] == s);
    reveal_strlit("prepare");
    reveal_strlit("startup");
    reveal_strlit("shutdown");
    assert("startup"@[0] != "prepare"@[0]);
    assert("shutdown"@.len() != "prepare"@.len() && "shutdown"@.len() != "startup"@.len());
    if s.module@ != "shell"@ || (phase != "prepare"@ && phase != "startup"@ && phase != "shutdown"@) {
        assert(hook_list(services, phase, services.len() as int) + Seq::<Seq<char>>::empty() =~= hook_list(
            services,
            phase,
            services.len() as int,
        ));
    }
}

fn push_all(out: &mut Vec<String>, cmds: &Vec<String>)
    ensures
        string_views(final(out)@) == string_views(old(out)@) + string_views(cmds@),
{
    let ghost start = string_views(out@);
    let mut i: usize = 0;
    assert(string_views(cmds@.take(0)) =~= Seq::<Seq<char>>::empty());
    assert(start + string_views(cmds@.take(0)) =~= start);
    while i < cmds.len()
        invariant
            i <= cmds@.len(),
            string_views(out@) == start + string_views(cmds@.take(i as int)),
        decreases cmds@.len() - i,
    {
        let ghost before = out@;
        out.push(cmds[i].clone());
        assert(string_views(cmds@.take(i + 1)) =~= string_views(cmds@.take(i as int)).push(cmds@[i as int]@));
        assert(string_views(out@) =~= string_views(before).push(cmds@[i as int]@));
        i = i + 1;
    }
    assert(cmds@.take(cmds@.len() as int) =~= cmds@);
}

/// The shell commands to run for a phase, service by service.
pub fn hook_commands(services: &[ServiceDefinition], phase: &str) -> (cmds: Vec<String>)
    ensures
        string_views(cmds@) == hook_list(services@, phase@, services@.len() as int),
{
    let mut cmds: Vec<String> = Vec::new();
    let mut i: usize = 0;
    assert(string_views(cmds@) =~= Seq::<Seq<char>>::empty());
    while i < services.len()
        invariant
            i <= services@.len(),
            string_views(cmds@) == hook_list(services@, phase@, i as int),
        decreases services@.len() - i,
    {
        let s = &services[i];
        let ghost before = string_views(cmds@);
        if str_eq(s.module.as_str(), "shell") {
            if str_eq(phase, "prepare") {
                push_all(&mut cmds, &s.prepare);
            } else if str_eq(phase, "startup") {
                push_all(&mut cmds, &s.startup);
            } else if str_eq(phase, "shutdown") {
                push_all(&mut cmds, &s.shutdown);
            }
        }
        assert(string_views(cmds@) =~= before + phase_commands(services@[i as int], phase@));
        i = i + 1;
    }
    cmds
}

/// A copy of an action.
fn copy_action(a: &SlaAction) -> (r: SlaAction)
    ensures
        r == *a,
{
    match a {
        SlaAction::Stop => SlaAction::Stop,
        SlaAction::Warn => SlaAction::Warn,
        SlaAction::Continue => SlaAction::Continue,
        SlaAction::Exec(c) => SlaAction::Exec(c.clone()),
    }
}

fn copy_text(s: &Option<String>) -> (r: Option<String>)
    ensures
        r == *s,
{
    match s {
        Some(t) => Some(t.clone()),
        None => None,
    }
}

/// A copy of a criterion.
fn copy_criterion(c: &SlaCriterion) -> (r: SlaCriterion)
    ensures
        r == *c,
{
    SlaCriterion {
        metric: c.metric,
        threshold_bits: c.threshold_bits,
        subject: copy_text(&c.subject),
        duration: copy_text(&c.duration),
        action: copy_action(&c.action),
    }
}

/// The criteria of one reporting definition: a failure threshold becomes a
/// stop-on-breach fail-rate criterion, followed by its own criteria.
pub open spec fn definition_criteria(d: ReportingDefinition) -> Seq<SlaCriterion> {
    match d.failed_threshold_bits {
        Some(t) => seq![
            SlaCriterion {
                metric: SlaMetric::FailRate,
                threshold_bits: t,
                subject: None,
                duration: None,
                action: SlaAction::Stop,
            },
        ] + d.sla@,
        None => d.sla@,
    }
}

/// The criteria of the first `k` reporting definitions, in order.
pub open spec fn criteria_list(reporting: Seq<ReportingDefinition>, k: int) -> Seq<SlaCriterion>
    decreases k,
{
    if k <= 0 {
        Seq::empty()
    } else {
        criteria_list(reporting, k - 1) + definition_criteria(reporting[k - 1])
    }
}

/// All SLA criteria of a run, definition by definition.
pub fn collect_sla_criteria(reporting: &Vec<ReportingDefinition>) -> (c: Vec<SlaCriterion>)
    ensures
        c@ == criteria_list(reporting@, reporting@.len() as int),
{
    let mut c: Vec<SlaCriterion> = Vec::new();
    let mut i: usize = 0;
    while i < reporting.len()
        invariant
            i <= reporting@.len(),
            c@ == criteria_list(reporting@, i as int),
        decreases reporting@.len() - i,
    {
        let d = &reporting[i];
        let ghost start = c@;
        match d.failed_threshold_bits {
            Some(t) => {
                c.push(
                    SlaCriterion {
                        metric: SlaMetric::FailRate,
                        threshold_bits: t,
                        subject: None,
                        duration: None,
                        action: SlaAction::Stop,
                    },
                );
            },
            None => {},
        }
        let ghost mid = c@;
        let mut j: usize = 0;
        while j < d.sla.len()
            invariant
                j <= d.sla@.len(),
                c@ == mid + d.sla@.take(j as int),
            decreases d.sla@.len() - j,
        {
            c.push(copy_criterion(&d.sla[j]));
            assert(c@ =~= mid + d.sla@.take(j + 1));
            j = j + 1;
        }
        assert(d.sla@.take(d.sla@.len() as int) =~= d.sla@);
        assert(c@ =~= start + definition_criteria(*d));
        i = i + 1;
    }
    c
}

/// The live-push interval of reporting definition `d`, in milliseconds:
/// an `influxdb` definition with an interval longer than zero.
pub open spec fn live_interval(d: ReportingDefinition) -> Option<int> {
    if d.module@ == "influxdb"@ {
        match d.interval {
            Some(i) => if time_ms(i@) > 0 {
                Some(time_ms(i@))
            } else {
                None
            },
            None => None,
        }
    } else {
        None
    }
}

/// The live pushes of the first `k` definitions: each definition's
/// position and interval.
pub open spec fn live_pushes(reporting: Seq<ReportingDefinition>, k: int) -> Seq<(usize, u64)>
    decreases k,
{
    if k <= 0 {
        Seq::empty()
    } else {
        match live_interval(reporting[k - 1]) {
            Some(ms) => live_pushes(reporting, k - 1).push(((k - 1) as usize, ms as u64)),
            None => live_pushes(reporting, k - 1),
        }
    }
}

/// Every interval of the definitions fits in a `u64`.
pub open spec fn intervals_fit(reporting: Seq<ReportingDefinition>) -> bool {
    forall|i: int|
        0 <= i < reporting.len() ==> match (#[trigger] reporting[i]).interval {
            Some(s) => time_ms(s@) <= u64::MAX,
            None => true,
        }
}

/// The reporting definitions that push live metrics, with their intervals.
pub fn live_push_intervals(reporting: &Vec<ReportingDefinition>) -> (r: Vec<(usize, u64)>)
    requires
        intervals_fit(reporting@),
    ensures
        r@ == live_pushes(reporting@, reporting@.len() as int),
{
    let mut r: Vec<(usize, u64)> = Vec::new();
    let mut i: usize = 0;
    while i < reporting.len()
        invariant
            i <= reporting@.len(),
            intervals_fit(reporting@),
            r@ == live_pushes(reporting@, i as int),
        decreases reporting@.len() - i,
    {
        let d = &reporting[i];
        if str_eq(d.module.as_str(), "influxdb") {
            match &d.interval {
                Some(s) => {
                    assert(reporting@[i as int] == *d);
                    let ms = parse_time_to_ms(s.as_str());
                    if ms > 0 {
                        r.push((i, ms));
                    }
                },
                None => {},
            }
        }
        i = i + 1;
    }
    r
}

/// What the live SLA watch does about one breached result.
#[derive(Debug, Clone, PartialEq, Eq)]
pub enum WatchAction {
    /// Log a warning about the result at this position.
    Warn(usize),
    /// Log the breach of the result at this position.
    Note(usize),
    /// Run this command (each command once per run).
    Run(String),
    /// Stop the run because of the result at this position.
    Abort(usize),
}

/// The actions of one round of the live SLA watch over `results[i..]`, and
/// whether it ends the watch, given the commands already run.
pub open spec fn watch_round(
    results: Seq<SlaResult>,
    ran: Set<Seq<char>>,
    i: int,
) -> (Seq<WatchAction>, Set<Seq<char>>, bool)
    decreases results.len() - i,
{
    if i < 0 || i >= results.len() {
        (Seq::empty(), ran, false)
    } else if results[i].passed {
        watch_round(results, ran, i + 1)
    } else {
        match results[i].action {
            SlaAction::Stop => (seq![WatchAction::Abort(i as usize)], ran, true),
            SlaAction::Warn => {
                let rest = watch_round(results, ran, i + 1);
                (seq![WatchAction::Warn(i as usize)] + rest.0, rest.1, rest.2)
            },
            SlaAction::Continue => {
                let rest = watch_round(results, ran, i + 1);
                (seq![WatchAction::Note(i as usize)] + rest.0, rest.1, rest.2)
            },
            SlaAction::Exec(c) => if ran.contains(c@) {
                watch_round(results, ran, i + 1)
            } else {
                let rest = watch_round(results, ran.insert(c@), i + 1);
                (seq![WatchAction::Run(c)] + rest.0, rest.1, rest.2)
            },
        }
    }
}

/// The commands a watch has run (their texts).
pub open spec fn ran_set(ran: Map<Seq<char>, ()>) -> Set<Seq<char>> {
    ran.dom()
}

/// One round of the live SLA watch: for each breached result in order, a
/// warning or a note, or its command when not run before; the first
/// breached stop action aborts the run and ends the watch. `ran` holds
/// the commands already run and gains the new ones. Returns the actions
/// and whether the watch ends.
pub fn sla_watch_round(results: &Vec<SlaResult>, ran: &mut StrMap<()>) -> (r: (Vec<WatchAction>, bool))
    ensures
        r.0@ == watch_round(results@, ran_set(old(ran)@), 0).0,
        ran_set(final(ran)@) == watch_round(results@, ran_set(old(ran)@), 0).1,
        r.1 == watch_round(results@, ran_set(old(ran)@), 0).2,
{
    let ghost target = watch_round(results@, ran_set(ran@), 0);
    let mut actions: Vec<WatchAction> = Vec::new();
    let mut i: usize = 0;
    while i < results.len()
        invariant
            i <= results@.len(),
            target == watch_round(results@, ran_set(old(ran)@), 0),
            target.0 == actions@ + watch_round(results@, ran_set(ran@), i as int).0,
            target.1 == watch_round(results@, ran_set(ran@), i as int).1,
            target.2 == watch_round(results@, ran_set(ran@), i as int).2,
        decreases results@.len() - i,
    {
        let res = &results[i];
        if !res.passed {
            match &res.action {
                SlaAction::Stop => {
                    actions.push(WatchAction::Abort(i));
                    assert(target.0 =~= actions@);
                    return (actions, true);
                },
                SlaAction::Warn => {
                    let ghost before = actions@;
                    actions.push(WatchAction::Warn(i));
                    assert(before + watch_round(results@, ran_set(ran@), i as int).0 =~= actions@
                        + watch_round(results@, ran_set(ran@), i + 1).0);
                },
                SlaAction::Continue => {
                    let ghost before = actions@;
                    actions.push(WatchAction::Note(i));
                    assert(before + watch_round(results@, ran_set(ran@), i as int).0 =~= actions@
                        + watch_round(results@, ran_set(ran@), i + 1).0);
                },
                SlaAction::Exec(cmd) => {
                    if !ran.contains_key(cmd.as_str()) {
                        let ghost before = actions@;
                        let ghost old_ran = ran_set(ran@);
                        let _ = ran.insert(cmd.clone(), ());
                        assert(ran_set(ran@) =~= old_ran.insert(cmd@));
                        actions.push(WatchAction::Run(cmd.clone()));
                        assert(before + watch_round(results@, old_ran, i as int).0 =~= actions@
                            + watch_round(results@, ran_set(ran@), i + 1).0);
                    }
                },
            }
        }
        i = i + 1;
    }
    assert(target.0 =~= actions@);
    (actions, false)
}

} // verus!
