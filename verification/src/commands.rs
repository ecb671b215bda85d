//! The decisions behind the application's commands: which target lists are
//! accepted, when pinging may start or stop, and the summary of a run.

use vstd::prelude::*;

use crate::workbook::{read_view, ReadResult, ReadView};

verus! {

/// A target as the user enters it: its address, as text, and a host name.
pub struct TargetInput {
    pub ip: String,
    pub hostname: String,
}

/// A target ready to be pinged: its position in the list, its host name and
/// its parsed address.
pub struct PlannedTarget<A> {
    pub index: usize,
    pub hostname: String,
    pub ip: A,
}

/// A target list read from a file: the header row and the data rows.
pub struct ExcelData {
    pub headers: Vec<String>,
    pub rows: Vec<Vec<String>>,
}

/// What is known of one target while pinging.
#[derive(Clone, Copy)]
pub struct TargetStatus {
    pub is_alive: bool,
    pub success_count: u64,
    pub fail_count: u64,
}

/// The ping engine, as the commands see it.
pub struct EngineSnapshot {
    pub targets: Vec<TargetStatus>,
    pub running: bool,
}

/// Counts over all targets of a run.
pub struct StatsSummary {
    pub total_targets: usize,
    pub alive_count: usize,
    pub dead_count: usize,
    pub total_success: u64,
    pub total_fail: u64,
    pub running: bool,
}

/// Whether a ping engine is set up, and whether it is running.
#[derive(Clone, Copy, Debug, PartialEq, Eq, Structural)]
pub enum EngineState {
    /// No targets were set yet.
    Absent,
    /// Targets are set and no ping run is going on.
    Idle,
    /// A ping run is going on.
    Running,
}

/// The number of targets that answered.
pub open spec fn count_alive(ts: Seq<TargetStatus>) -> nat
    decreases ts.len(),
{
    if ts.len() == 0 {
        0
    } else {
        count_alive(ts.drop_last()) + if ts.last().is_alive {
            1nat
        } else {
            0nat
        }
    }
}

/// The successful pings of all targets.
pub open spec fn sum_success(ts: Seq<TargetStatus>) -> nat
    decreases ts.len(),
{
    if ts.len() == 0 {
        0
    } else {
        sum_success(ts.drop_last()) + ts.last().success_count as nat
    }
}

/// The failed pings of all targets.
pub open spec fn sum_fail(ts: Seq<TargetStatus>) -> nat
    decreases ts.len(),
{
    if ts.len() == 0 {
        0
    } else {
        sum_fail(ts.drop_last()) + ts.last().fail_count as nat
    }
}

proof fn lemma_count_alive_bound(ts: Seq<TargetStatus>)
    ensures
        count_alive(ts) <= ts.len(),
    decreases ts.len(),
{
    if ts.len() > 0 {
        lemma_count_alive_bound(ts.drop_last());
    }
}

proof fn lemma_sums_monotone(ts: Seq<TargetStatus>, i: int)
    requires
        0 <= i <= ts.len(),
    ensures
        sum_success(ts.take(i)) <= sum_success(ts),
        sum_fail(ts.take(i)) <= sum_fail(ts),
    decreases ts.len() - i,
{
    if i < ts.len() {
        assert(ts.take(i + 1).drop_last() =~= ts.take(i));
        lemma_sums_monotone(ts, i + 1);
    } else {
        assert(ts.take(i) =~= ts);
    }
}

/// The summary of a run: how many targets there are, how many answered and
/// how many did not, the successful and failed pings over all targets, and
/// whether the run is going on; all zero when no engine is set up.
pub fn get_stats_summary(engine: &Option<EngineSnapshot>) -> (r: StatsSummary)
    requires
        engine matches Some(e) ==> sum_success(e.targets@) <= u64::MAX && sum_fail(e.targets@)
            <= u64::MAX,
    ensures
        engine is None ==> r.total_targets == 0 && r.alive_count == 0 && r.dead_count == 0
            && r.total_success == 0 && r.total_fail == 0 && !r.running,
        engine matches Some(e) ==> {
            &&& r.total_targets == e.targets@.len()
            &&& r.alive_count == count_alive(e.targets@)
            &&& r.dead_count == e.targets@.len() - count_alive(e.targets@)
            &&& r.total_success == sum_success(e.targets@)
            &&& r.total_fail == sum_fail(e.targets@)
            &&& r.running == e.running
        },
        r.alive_count + r.dead_count == r.total_targets,
{
    match engine {
        None => StatsSummary {
            total_targets: 0,
            alive_count: 0,
            dead_count: 0,
            total_success: 0,
            total_fail: 0,
            running: false,
        },
        Some(e) => {
            let ts = &e.targets;
            let total = ts.len();
            let mut alive: usize = 0;
            let mut success: u64 = 0;
            let mut fail: u64 = 0;
            for i in 0..total
                invariant
                    total == ts@.len(),
                    sum_success(ts@) <= u64::MAX,
                    sum_fail(ts@) <= u64::MAX,
                    alive == count_alive(ts@.take(i as int)),
                    success == sum_success(ts@.take(i as int)),
                    fail == sum_fail(ts@.take(i as int)),
            {
                proof {
                    assert(ts@.take(i + 1).drop_last() =~= ts@.take(i as int));
                    lemma_count_alive_bound(ts@.take(i + 1));
                    lemma_sums_monotone(ts@, i + 1);
                }
                let t = ts[i];
                if t.is_alive {
                    alive = alive + 1;
                }
                success = success + t.success_count;
                fail = fail + t.fail_count;
            }
            proof {
                assert(ts@.take(total as int) =~= ts@);
                lemma_count_alive_bound(ts@);
            }
            StatsSummary {
                total_targets: total,
                alive_count: alive,
                dead_count: total - alive,
                total_success: success,
                total_fail: fail,
                running: e.running,
            }
        },
    }
}

/// The answer to starting a ping run: it needs targets, and no run going on
/// already.
pub open spec fn start_answer(state: EngineState) -> Result<(), Seq<char>> {
    match state {
        EngineState::Absent => Err("No targets configured. Call set_targets first."@),
        EngineState::Running => Err("Ping is already running"@),
        EngineState::Idle => Ok(()),
    }
}

/// The state after starting: a run goes on once started.
pub open spec fn state_after_start(state: EngineState) -> EngineState {
    match state {
        EngineState::Idle => EngineState::Running,
        _ => state,
    }
}

/// The answer to stopping a ping run: it needs an engine.
pub open spec fn stop_answer(state: EngineState) -> Result<(), Seq<char>> {
    match state {
        EngineState::Absent => Err("No ping engine initialized"@),
        _ => Ok(()),
    }
}

/// The state after stopping: the engine and its targets stay, no run goes on.
pub open spec fn state_after_stop(state: EngineState) -> EngineState {
    match state {
        EngineState::Absent => EngineState::Absent,
        _ => EngineState::Idle,
    }
}

/// The state after setting up targets: a new engine, not running, replaces
/// any earlier one when the targets are accepted; nothing changes otherwise.
pub open spec fn state_after_set_targets(state: EngineState, accepted: bool) -> EngineState {
    if accepted {
        EngineState::Idle
    } else {
        state
    }
}

pub open spec fn answer_view(r: Result<(), String>) -> Result<(), Seq<char>> {
    match r {
        Ok(()) => Ok(()),
        Err(e) => Err(e@),
    }
}

/// Starts a ping run: allowed only when targets are set and no run goes on,
/// and then the engine runs.
pub fn start_ping(state: &mut EngineState) -> (r: Result<(), String>)
    ensures
        answer_view(r) == start_answer(*old(state)),
        *final(state) == state_after_start(*old(state)),
        *old(state) == EngineState::Idle ==> r is Ok && *final(state) == EngineState::Running,
        *old(state) != EngineState::Idle ==> r is Err && *final(state) == *old(state),
{
    match *state {
        EngineState::Absent => Err(String::from_str("No targets configured. Call set_targets first.")),
        EngineState::Running => Err(String::from_str("Ping is already running")),
        EngineState::Idle => {
            *state = EngineState::Running;
            Ok(())
        },
    }
}

/// Stops a ping run: allowed whenever an engine is set up, running or not;
/// the engine and its targets stay.
pub fn stop_ping(state: &mut EngineState) -> (r: Result<(), String>)
    ensures
        answer_view(r) == stop_answer(*old(state)),
        *final(state) == state_after_stop(*old(state)),
        *old(state) == EngineState::Absent ==> (r matches Err(e) && e@
            == "No ping engine initialized"@) && *final(state) == EngineState::Absent,
        *old(state) != EngineState::Absent ==> r is Ok && *final(state) == EngineState::Idle,
{
    match *state {
        EngineState::Absent => Err(String::from_str("No ping engine initialized")),
        _ => {
            *state = EngineState::Idle;
            Ok(())
        },
    }
}

/// Whether a ping run is going on; never without an engine.
pub fn is_ping_running(state: &EngineState) -> (r: bool)
    ensures
        r == (*state == EngineState::Running),
{
    match *state {
        EngineState::Running => true,
        _ => false,
    }
}

/// Whether results may be exported: there must be an engine that holds
/// them. When this is `Ok`, the command's answer is what writing the export
/// gives, which the caller does.
pub fn export_to_excel(state: &EngineState) -> (r: Result<(), String>)
    ensures
        *state != EngineState::Absent <==> r is Ok,
        *state == EngineState::Absent ==> (r matches Err(e) && e@ == "No ping results to export"@),
{
    match *state {
        EngineState::Absent => Err(String::from_str("No ping results to export")),
        _ => Ok(()),
    }
}

/// The run lifecycle: without an engine nothing runs; setting up targets
/// gives a new engine that is not running, whatever ran before, so starting
/// it is allowed; a start makes it run; a stop, once or again, is allowed
/// and leaves it set up but not running; asking whether it runs changes
/// nothing.
pub proof fn lemma_run_lifecycle(s: EngineState)
    ensures
        state_after_set_targets(s, true) == EngineState::Idle,
        start_answer(state_after_set_targets(s, true)) == Ok::<(), Seq<char>>(()),
        state_after_start(EngineState::Idle) == EngineState::Running,
        stop_answer(EngineState::Running) == Ok::<(), Seq<char>>(()),
        state_after_stop(EngineState::Running) == EngineState::Idle,
        s != EngineState::Absent ==> stop_answer(s) == Ok::<(), Seq<char>>(()) && stop_answer(
            state_after_stop(s),
        ) == Ok::<(), Seq<char>>(()) && state_after_stop(state_after_stop(s)) == EngineState::Idle,
        state_after_set_targets(s, false) == s,
        start_answer(EngineState::Running) is Err,
        state_after_stop(EngineState::Absent) == EngineState::Absent,
        stop_answer(EngineState::Absent) is Err,
        start_answer(state_after_stop(EngineState::Absent)) == Err::<(), Seq<char>>(
            "No targets configured. Call set_targets first."@,
        ),
        state_after_start(EngineState::Absent) == EngineState::Absent,
        state_after_start(EngineState::Running) == EngineState::Running,
{
}

/// Sets up the targets of a run from the user's list and the outcome of
/// parsing each address: the targets in list order, each with its position,
/// host name and address, and a new engine that is not running replaces any
/// earlier one; or, when an address did not parse, the error naming the
/// first such address, and nothing changes.
pub fn set_targets<A: Copy>(
    state: &mut EngineState,
    inputs: &Vec<TargetInput>,
    addresses: &Vec<Option<A>>,
) -> (r: Result<Vec<PlannedTarget<A>>, String>)
    requires
        inputs@.len() == addresses@.len(),
    ensures
        *final(state) == state_after_set_targets(*old(state), r is Ok),
        r is Ok ==> *final(state) == EngineState::Idle,
        r is Err ==> *final(state) == *old(state),
        r is Ok <==> (forall|k: int| 0 <= k < addresses@.len() ==> addresses@[k] is Some),
        r matches Ok(v) ==> {
            &&& v@.len() == inputs@.len()
            &&& forall|k: int|
                0 <= k < v@.len() ==> {
                    &&& (#[trigger] v@[k]).index == k
                    &&& v@[k].hostname == inputs@[k].hostname
                    &&& addresses@[k] == Some(v@[k].ip)
                }
        },
        r matches Err(e) ==> exists|k: int|
            0 <= k < addresses@.len() && addresses@[k] is None && (forall|j: int|
                0 <= j < k ==> addresses@[j] is Some) && e@ == "Invalid IP address: "@
                + inputs@[k].ip@,
{
    let mut targets: Vec<PlannedTarget<A>> = Vec::new();
    for i in 0..inputs.len()
        invariant
            inputs@.len() == addresses@.len(),
            targets@.len() == i,
            forall|k: int| 0 <= k < i ==> addresses@[k] is Some,
            forall|k: int|
                0 <= k < i ==> {
                    &&& (#[trigger] targets@[k]).index == k
                    &&& targets@[k].hostname == inputs@[k].hostname
                    &&& addresses@[k] == Some(targets@[k].ip)
                },
    {
        match addresses[i] {
            Some(ip) => {
                targets.push(PlannedTarget { index: i, hostname: inputs[i].hostname.clone(), ip });
            },
            None => {
                let mut msg = String::from_str("Invalid IP address: ");
                msg.append(inputs[i].ip.as_str());
                assert(addresses@[i as int] is None);
                return Err(msg);
            },
        }
    }
    *state = EngineState::Idle;
    Ok(targets)
}

/// The view of a read list.
pub open spec fn excel_data_view(r: Result<ExcelData, String>) -> ReadView {
    match r {
        Ok(d) => Ok((d.headers.deep_view(), d.rows.deep_view())),
        Err(e) => Err(e@),
    }
}

/// The target list as the front end receives it, from the result of
/// reading it: errors are passed on unchanged.
pub fn excel_data(read: ReadResult) -> (r: Result<ExcelData, String>)
    ensures
        excel_data_view(r) == read_view(read),
{
    match read {
        Ok((headers, rows)) => Ok(ExcelData { headers, rows }),
        Err(e) => Err(e),
    }
}

} // verus!
