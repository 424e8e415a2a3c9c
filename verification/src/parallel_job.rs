//! A rendering that several processes share: what each of them is doing, when
//! one is started again, and when the whole is over.
use crate::decimal::{decimal, u64_text};
use crate::frame_partition::Partition;
use crate::json::{
    Json, array_value, empty_object, json_of, number_value, set_member, text_value,
};
use serde_json::Value;
use vstd::prelude::*;
use vstd::string::*;

verus! {

/// What a process is doing.
#[derive(Clone, Copy, Debug, PartialEq, Eq, Structural)]
pub enum ProcessState {
    Running,
    Done,
    Failed,
    Retrying,
}

/// The name of a state, as clients know it.
pub open spec fn state_name(state: ProcessState) -> Seq<char> {
    match state {
        ProcessState::Running => "running"@,
        ProcessState::Done => "done"@,
        ProcessState::Failed => "failed"@,
        ProcessState::Retrying => "retrying"@,
    }
}

impl ProcessState {
    /// The name of the state, as clients know it.
    pub fn name(self) -> (res: String)
        ensures
            res@ == state_name(self),
    {
        match self {
            ProcessState::Running => "running".to_owned(),
            ProcessState::Done => "done".to_owned(),
            ProcessState::Failed => "failed".to_owned(),
            ProcessState::Retrying => "retrying".to_owned(),
        }
    }
}

/// The process will not run again.
pub open spec fn is_over(state: ProcessState) -> bool {
    state == ProcessState::Done || state == ProcessState::Failed
}

/// What clients are told of one process.
#[derive(Debug, PartialEq)]
pub struct ProcessStatus {
    pub index: usize,
    pub gpu: usize,
    pub frames: String,
    pub state: ProcessState,
    pub render_stats: String,
    pub retries: u32,
}

/// What a status says.
pub struct StatusView {
    pub index: int,
    pub gpu: int,
    pub frames: Seq<char>,
    pub state: ProcessState,
    pub render_stats: Seq<char>,
    pub retries: int,
}

impl View for ProcessStatus {
    type V = StatusView;

    open spec fn view(&self) -> StatusView {
        StatusView {
            index: self.index as int,
            gpu: self.gpu as int,
            frames: self.frames@,
            state: self.state,
            render_stats: self.render_stats@,
            retries: self.retries as int,
        }
    }
}

/// A status as the database and the clients get it.
pub open spec fn status_json(status: StatusView) -> Json {
    Json::Object(
        map![
            "index"@ => Json::Unsigned(status.index as u64),
            "gpu"@ => Json::Unsigned(status.gpu as u64),
            "frames"@ => Json::Text(status.frames),
            "state"@ => Json::Text(state_name(status.state)),
            "render_stats"@ => Json::Text(status.render_stats),
            "retries"@ => Json::Unsigned(status.retries as u64),
        ],
    )
}

/// A list of statuses as the database and the clients get it.
pub open spec fn board_json(statuses: Seq<StatusView>) -> Json {
    Json::Array(statuses.map_values(|status: StatusView| status_json(status)))
}

/// Writes a status as a document.
pub fn status_document(status: &ProcessStatus) -> (res: Value)
    ensures
        json_of(res) == status_json(status@),
{
    let mut res = empty_object();
    set_member(&mut res, "index", number_value(status.index as u64));
    set_member(&mut res, "gpu", number_value(status.gpu as u64));
    set_member(&mut res, "frames", text_value(status.frames.as_str()));
    set_member(&mut res, "state", text_value(status.state.name().as_str()));
    set_member(&mut res, "render_stats", text_value(status.render_stats.as_str()));
    set_member(&mut res, "retries", number_value(status.retries as u64));
    res
}

/// Writes a list of statuses as a document.
pub fn board_document(statuses: &Vec<ProcessStatus>) -> (res: Value)
    ensures
        json_of(res) == board_json(statuses@.map_values(|status: ProcessStatus| status@)),
{
    let mut items: Vec<Value> = Vec::new();
    let mut i: usize = 0;
    while i < statuses.len()
        invariant
            i <= statuses@.len(),
            items@.len() == i,
            forall|k: int|
                0 <= k < i ==> json_of(#[trigger] items@[k]) == status_json(statuses@[k]@),
        decreases statuses@.len() - i,
    {
        items.push(status_document(&statuses[i]));
        i = i + 1;
    }
    let ghost board = statuses@.map_values(|status: ProcessStatus| status@);
    assert(items@.map_values(|item: Value| json_of(item)) =~= board.map_values(
        |status: StatusView| status_json(status),
    ));
    array_value(items)
}

/// A process at its start: pinned to the GPU of its own index.
pub open spec fn first_status(partition: Partition) -> StatusView {
    StatusView {
        index: partition.index as int,
        gpu: partition.index as int,
        frames: partition.frames_label@,
        state: ProcessState::Running,
        render_stats: ""@,
        retries: 0,
    }
}

/// A process when it has ended: it is done, or, if it failed, it is tried
/// once more, but not twice, and not once the job is stopped.
pub open spec fn after_exit(status: StatusView, success: bool, stopped: bool) -> StatusView {
    if success {
        StatusView { state: ProcessState::Done, ..status }
    } else if status.retries == 0 && !stopped {
        StatusView { state: ProcessState::Retrying, retries: 1, ..status }
    } else {
        StatusView { state: ProcessState::Failed, ..status }
    }
}

/// A new value for one field of one status in the database.
#[derive(Debug, PartialEq)]
pub struct StatusUpdate {
    pub path: String,
    pub value: StatusValue,
}

/// The value of a field.
#[derive(Debug, PartialEq)]
pub enum StatusValue {
    Text(String),
    Number(u32),
}

/// What an update says.
pub struct UpdateView {
    pub path: Seq<char>,
    pub value: ValueView,
}

/// What a value says.
pub enum ValueView {
    Text(Seq<char>),
    Number(int),
}

impl View for StatusValue {
    type V = ValueView;

    open spec fn view(&self) -> ValueView {
        match *self {
            StatusValue::Text(s) => ValueView::Text(s@),
            StatusValue::Number(n) => ValueView::Number(n as int),
        }
    }
}

impl View for StatusUpdate {
    type V = UpdateView;

    open spec fn view(&self) -> UpdateView {
        UpdateView { path: self.path@, value: self.value@ }
    }
}

/// A value as the database gets it.
pub open spec fn value_json(value: ValueView) -> Json {
    match value {
        ValueView::Text(s) => Json::Text(s),
        ValueView::Number(n) => Json::Unsigned(n as u64),
    }
}

/// Writes a value as a document.
pub fn value_document(value: &StatusValue) -> (res: Value)
    ensures
        json_of(res) == value_json(value@),
{
    match value {
        StatusValue::Text(s) => text_value(s.as_str()),
        StatusValue::Number(n) => number_value(*n as u64),
    }
}

/// What a list of updates says.
pub open spec fn updates_of(list: Seq<StatusUpdate>) -> Seq<UpdateView> {
    list.map_values(|u: StatusUpdate| u@)
}

/// Where the database keeps a field of a status.
pub open spec fn field_path(index: int, field: Seq<char>) -> Seq<char> {
    "$.parallel_status["@ + decimal(index) + "]."@ + field
}

/// The update of the state.
pub open spec fn state_update(status: StatusView) -> UpdateView {
    UpdateView {
        path: field_path(status.index, "state"@),
        value: ValueView::Text(state_name(status.state)),
    }
}

/// The update of the number of retries.
pub open spec fn retries_update(status: StatusView) -> UpdateView {
    UpdateView {
        path: field_path(status.index, "retries"@),
        value: ValueView::Number(status.retries),
    }
}

/// The update of the latest line of output.
pub open spec fn stats_update(status: StatusView) -> UpdateView {
    UpdateView {
        path: field_path(status.index, "render_stats"@),
        value: ValueView::Text(status.render_stats),
    }
}

/// Names a field of a status in the database.
pub fn status_field_path(index: usize, field: &str) -> (res: String)
    ensures
        res@ == field_path(index as int, field@),
{
    let number = u64_text(index as u64);
    "$.parallel_status[".to_owned().concat(number.as_str()).concat("].").concat(field)
}

fn update_state(status: &ProcessStatus) -> (res: StatusUpdate)
    ensures
        res@ == state_update(status@),
{
    StatusUpdate {
        path: status_field_path(status.index, "state"),
        value: StatusValue::Text(status.state.name()),
    }
}

/// How many processes are not over.
pub open spec fn active(statuses: Seq<StatusView>) -> nat
    decreases statuses.len(),
{
    if statuses.len() == 0 {
        0
    } else {
        active(statuses.drop_last()) + (if is_over(statuses.last().state) {
            0nat
        } else {
            1nat
        })
    }
}

/// Every process is over.
pub open spec fn all_over(statuses: Seq<StatusView>) -> bool {
    forall|i: int| 0 <= i < statuses.len() ==> is_over((#[trigger] statuses[i]).state)
}

proof fn lemma_active_update(statuses: Seq<StatusView>, i: int, status: StatusView)
    requires
        0 <= i < statuses.len(),
    ensures
        active(statuses.update(i, status)) == active(statuses) - (if is_over(statuses[i].state) {
            0int
        } else {
            1int
        }) + (if is_over(status.state) {
            0int
        } else {
            1int
        }),
    decreases statuses.len(),
{
    let changed = statuses.update(i, status);
    if i == statuses.len() - 1 {
        assert(changed.drop_last() =~= statuses.drop_last());
    } else {
        assert(changed.drop_last() =~= statuses.drop_last().update(i, status));
        lemma_active_update(statuses.drop_last(), i, status);
    }
}

proof fn lemma_none_active(statuses: Seq<StatusView>)
    ensures
        active(statuses) == 0 <==> all_over(statuses),
    decreases statuses.len(),
{
    if statuses.len() > 0 {
        let rest = statuses.drop_last();
        lemma_none_active(rest);
        if all_over(rest) && is_over(statuses.last().state) {
            assert forall|i: int| 0 <= i < statuses.len() implies is_over(
                (#[trigger] statuses[i]).state,
            ) by {
                if i < rest.len() {
                    assert(statuses[i] == rest[i]);
                }
            }
        }
        if all_over(statuses) {
            assert forall|i: int| 0 <= i < rest.len() implies is_over(
                (#[trigger] rest[i]).state,
            ) by {
                assert(statuses[i] == rest[i]);
            }
        }
    }
}

/// What follows the end of a process.
#[derive(Clone, Copy, Debug, PartialEq, Eq, Structural)]
pub enum AfterExit {
    /// It is started again.
    Respawn,
    /// It is over, others are not.
    Finish,
    /// It is over, and so is the whole rendering.
    FinishJob,
}

/// A rendering that several processes share.
pub struct ParallelJob {
    statuses: Vec<ProcessStatus>,
    remaining: usize,
    stopped: bool,
}

impl ParallelJob {
    /// What clients are told of the processes.
    pub closed spec fn board(&self) -> Seq<StatusView> {
        self.statuses@.map_values(|s: ProcessStatus| s@)
    }

    /// The job is stopped: no process is started any more.
    pub closed spec fn is_stopped(&self) -> bool {
        self.stopped
    }

    /// The count of processes that are not over is right, no process was
    /// retried twice, and none failed for good without a retry, unless the job
    /// is stopped.
    pub closed spec fn wf(&self) -> bool {
        &&& self.remaining == active(self.board())
        &&& forall|i: int|
            0 <= i < self.board().len() ==> tries_in_order(
                #[trigger] self.board()[i],
                self.is_stopped(),
            )
    }

    /// At every moment, no process has been retried twice, and none has failed
    /// for good without a second run, unless the job is stopped.
    pub proof fn retries_are_limited(&self)
        requires
            self.wf(),
        ensures
            forall|i: int|
                0 <= i < self.board().len() ==> tries_in_order(
                #[trigger] self.board()[i],
                self.is_stopped(),
            ),
    {
    }

    /// Begins with all processes running.
    pub fn new(partitions: &Vec<Partition>) -> (res: ParallelJob)
        ensures
            res.wf(),
            !res.is_stopped(),
            res.board() == partitions@.map_values(|p: Partition| first_status(p)),
            active(res.board()) == partitions@.len(),
            res.board().len() == partitions@.len(),
            forall|i: int|
                0 <= i < partitions@.len() ==> {
                    &&& (#[trigger] res.board()[i]).retries == 0
                    &&& res.board()[i].state == ProcessState::Running
                    &&& res.board()[i].index == partitions@[i].index
                    &&& res.board()[i].gpu == partitions@[i].index
                    &&& res.board()[i].frames == partitions@[i].frames_label@
                    &&& res.board()[i].render_stats.len() == 0
                },
    {
        proof {
            reveal_strlit("");
        }
        let ghost first = partitions@.map_values(|p: Partition| first_status(p));
        let mut statuses: Vec<ProcessStatus> = Vec::new();
        let mut i: usize = 0;
        assert(statuses@.map_values(|s: ProcessStatus| s@) =~= first.take(0));
        while i < partitions.len()
            invariant
                i <= partitions@.len(),
                first == partitions@.map_values(|p: Partition| first_status(p)),
                statuses@.map_values(|s: ProcessStatus| s@) == first.take(i as int),
                active(first.take(i as int)) == i,
            decreases partitions@.len() - i,
        {
            let status = ProcessStatus {
                index: partitions[i].index,
                gpu: partitions[i].index,
                frames: partitions[i].frames_label.clone(),
                state: ProcessState::Running,
                render_stats: "".to_owned(),
                retries: 0,
            };
            let ghost before = statuses@;
            statuses.push(status);
            proof {
                assert(statuses@.map_values(|s: ProcessStatus| s@) =~= first.take(i + 1));
                assert(first.take(i + 1).drop_last() =~= first.take(i as int));
            }
            i = i + 1;
        }
        assert(first.take(i as int) =~= first);
        ParallelJob { statuses, remaining: partitions.len(), stopped: false }
    }

    /// What clients are told of the processes.
    pub fn statuses(&self) -> (res: &Vec<ProcessStatus>)
        ensures
            res@.map_values(|s: ProcessStatus| s@) == self.board(),
    {
        &self.statuses
    }

    /// Stops the job: no process is started any more, and none that fails is
    /// tried again.
    pub fn stop(&mut self)
        requires
            old(self).wf(),
        ensures
            final(self).wf(),
            final(self).is_stopped(),
            final(self).board() == old(self).board(),
    {
        let ghost before = self.board();
        self.stopped = true;
        assert(self.board() == before);
    }

    /// Tells whether a process may be started: it is not over, and the job is
    /// not stopped.
    pub fn may_launch(&self, i: usize) -> (res: bool)
        requires
            i < self.board().len(),
        ensures
            res == (!self.is_stopped() && !is_over(self.board()[i as int].state)),
    {
        let over = match self.statuses[i].state {
            ProcessState::Done | ProcessState::Failed => true,
            _ => false,
        };
        assert(self.board()[i as int] == self.statuses@[i as int]@);
        !self.stopped && !over
    }

    /// A process has been started, for the first or the second time.
    pub fn started(&mut self, i: usize) -> (res: Vec<StatusUpdate>)
        requires
            old(self).wf(),
            i < old(self).board().len(),
            !is_over(old(self).board()[i as int].state),
            !old(self).is_stopped(),
        ensures
            final(self).wf(),
            !final(self).is_stopped(),
            ({
                let status = StatusView {
                    state: ProcessState::Running,
                    ..old(self).board()[i as int]
                };
                &&& final(self).board() == old(self).board().update(i as int, status)
                &&& updates_of(res@) == seq![state_update(status)]
            }),
    {
        let ghost before = self.board();
        let ghost old_status = before[i as int];
        self.statuses[i].state = ProcessState::Running;
        let update = update_state(&self.statuses[i]);
        proof {
            let status = StatusView { state: ProcessState::Running, ..old_status };
            assert(self.board() =~= before.update(i as int, status));
            lemma_active_update(before, i as int, status);
        }
        let res = vec![update];
        assert(updates_of(res@) =~= seq![update@]);
        res
    }

    /// A process has printed a line.
    pub fn printed(&mut self, i: usize, line: String) -> (res: Vec<StatusUpdate>)
        requires
            old(self).wf(),
            i < old(self).board().len(),
        ensures
            final(self).wf(),
            final(self).is_stopped() == old(self).is_stopped(),
            ({
                let status = StatusView { render_stats: line@, ..old(self).board()[i as int] };
                &&& final(self).board() == old(self).board().update(i as int, status)
                &&& updates_of(res@) == seq![stats_update(status)]
            }),
    {
        let ghost before = self.board();
        let ghost old_status = before[i as int];
        let shown = line.clone();
        self.statuses[i].render_stats = line;
        let update = StatusUpdate {
            path: status_field_path(self.statuses[i].index, "render_stats"),
            value: StatusValue::Text(shown),
        };
        proof {
            let status = StatusView { render_stats: line@, ..old_status };
            assert(self.board() =~= before.update(i as int, status));
            lemma_active_update(before, i as int, status);
        }
        let res = vec![update];
        assert(updates_of(res@) =~= seq![update@]);
        res
    }

    /// A process has ended, with success or without. (One that could not be
    /// started because the job was stopped has ended without.)
    pub fn exited(&mut self, i: usize, success: bool) -> (res: (Vec<StatusUpdate>, AfterExit))
        requires
            old(self).wf(),
            i < old(self).board().len(),
            !is_over(old(self).board()[i as int].state),
        ensures
            final(self).wf(),
            final(self).is_stopped() == old(self).is_stopped(),
            old(self).is_stopped() ==> res.1 != AfterExit::Respawn,
            ({
                let before = old(self).board()[i as int];
                let status = after_exit(before, success, old(self).is_stopped());
                &&& final(self).board() == old(self).board().update(i as int, status)
                &&& updates_of(res.0@) == (if status.state == ProcessState::Retrying {
                    seq![retries_update(status), state_update(status)]
                } else {
                    seq![state_update(status)]
                })
                &&& res.1 == AfterExit::Respawn <==> status.state == ProcessState::Retrying
                &&& res.1 == AfterExit::FinishJob <==> all_over(final(self).board())
            }),
    {
        let ghost before = self.board();
        let ghost old_status = before[i as int];
        let ghost status = after_exit(old_status, success, self.is_stopped());
        let mut updates: Vec<StatusUpdate> = Vec::new();
        assert(tries_in_order(old_status, self.is_stopped()));
        if success {
            self.statuses[i].state = ProcessState::Done;
        } else if self.statuses[i].retries == 0 && !self.stopped {
            self.statuses[i].retries = 1;
            self.statuses[i].state = ProcessState::Retrying;
            updates.push(
                StatusUpdate {
                    path: status_field_path(self.statuses[i].index, "retries"),
                    value: StatusValue::Number(1),
                },
            );
        } else {
            self.statuses[i].state = ProcessState::Failed;
        }
        updates.push(update_state(&self.statuses[i]));
        proof {
            assert(self.board() =~= before.update(i as int, status));
            lemma_active_update(before, i as int, status);
            lemma_none_active(self.board());
            if status.state == ProcessState::Retrying {
                assert(updates_of(updates@) =~= seq![retries_update(status), state_update(status)]);
                assert(self.board()[i as int] == status);
            } else {
                assert(updates_of(updates@) =~= seq![state_update(status)]);
            }
        }
        let again = match self.statuses[i].state {
            ProcessState::Retrying => true,
            _ => false,
        };
        if again {
            (updates, AfterExit::Respawn)
        } else {
            self.remaining = self.remaining - 1;
            assert(self.board() =~= before.update(i as int, status));
            if self.remaining == 0 {
                (updates, AfterExit::FinishJob)
            } else {
                (updates, AfterExit::Finish)
            }
        }
    }
}

/// A record with a new value in one field.
pub open spec fn with_field(record: Json, field: Seq<char>, value: ValueView) -> Json {
    Json::Object(record->Object_0.insert(field, value_json(value)))
}

/// The updates keep what the database has of a process at what the board says
/// of it: when the process is started, when it prints a line, and when it
/// ends.
pub proof fn updates_keep_the_stored_status(
    before: StatusView,
    line: Seq<char>,
    success: bool,
    stopped: bool,
)
    ensures
        ({
            let running = StatusView { state: ProcessState::Running, ..before };
            let update = state_update(running);
            &&& update.path == field_path(before.index, "state"@)
            &&& status_json(running) == with_field(status_json(before), "state"@, update.value)
        }),
        ({
            let shown = StatusView { render_stats: line, ..before };
            let update = stats_update(shown);
            &&& update.path == field_path(before.index, "render_stats"@)
            &&& status_json(shown) == with_field(
                status_json(before),
                "render_stats"@,
                update.value,
            )
        }),
        ({
            let after = after_exit(before, success, stopped);
            let counted = if after.state == ProcessState::Retrying {
                with_field(status_json(before), "retries"@, retries_update(after).value)
            } else {
                status_json(before)
            };
            &&& retries_update(after).path == field_path(before.index, "retries"@)
            &&& state_update(after).path == field_path(before.index, "state"@)
            &&& status_json(after) == with_field(counted, "state"@, state_update(after).value)
        }),
{
    lemma_status_fields();
    let running = StatusView { state: ProcessState::Running, ..before };
    assert(status_json(running)->Object_0 =~= with_field(
        status_json(before),
        "state"@,
        state_update(running).value,
    )->Object_0);
    let shown = StatusView { render_stats: line, ..before };
    assert(status_json(shown)->Object_0 =~= with_field(
        status_json(before),
        "render_stats"@,
        stats_update(shown).value,
    )->Object_0);
    let after = after_exit(before, success, stopped);
    let counted = if after.state == ProcessState::Retrying {
        with_field(status_json(before), "retries"@, retries_update(after).value)
    } else {
        status_json(before)
    };
    assert(status_json(after)->Object_0 =~= with_field(
        counted,
        "state"@,
        state_update(after).value,
    )->Object_0);
}

/// The fields of a status have different names.
pub proof fn lemma_status_fields()
    ensures
        "state"@ != "render_stats"@,
        "state"@ != "retries"@,
        "render_stats"@ != "retries"@,
{
    reveal_strlit("state");
    reveal_strlit("render_stats");
    reveal_strlit("retries");
    assert("state"@.len() == 5 && "render_stats"@.len() == 12 && "retries"@.len() == 7);
}

/// A process was retried at most once, is waiting for its second run only
/// after it was, and has failed for good only after it was, or in a stopped
/// job.
pub open spec fn tries_in_order(status: StatusView, stopped: bool) -> bool {
    &&& 0 <= status.retries <= 1
    &&& status.state == ProcessState::Retrying ==> status.retries == 1
    &&& status.state == ProcessState::Failed ==> status.retries == 1 || stopped
}

/// A process that fails is run once more and no more than that: after the
/// second run it is over, done if that run succeeded and failed if not.
pub proof fn a_failed_process_gets_one_more_run(status: StatusView, second: bool)
    requires
        tries_in_order(status, false),
        status.retries == 0,
    ensures
        ({
            let waiting = after_exit(status, false, false);
            let rerun = StatusView { state: ProcessState::Running, ..waiting };
            let end = after_exit(rerun, second, false);
            &&& waiting.state == ProcessState::Retrying
            &&& waiting.retries == 1
            &&& is_over(end.state)
            &&& end.state == ProcessState::Done <==> second
            &&& end.retries == 1
        }),
{
}

/// A stopped job starts nothing: whichever run a process is in when it ends,
/// it is over then, and is not retried.
pub proof fn a_stopped_job_starts_nothing(status: StatusView, success: bool)
    ensures
        is_over(after_exit(status, success, true).state),
        after_exit(status, success, true).retries == status.retries,
{
}

/// How many runs a process can still end: the one that it is in, and the one
/// that it gets if that fails before the job is stopped.
pub open spec fn runs_left(status: StatusView, stopped: bool) -> nat {
    if is_over(status.state) {
        0
    } else if status.retries == 0 && !stopped {
        2
    } else {
        1
    }
}

/// Every process comes to an end: each run that ends leaves fewer, a start
/// or a line of output adds none, nor does stopping the job, and none is left
/// exactly when it is over.
pub proof fn every_process_comes_to_an_end(
    status: StatusView,
    success: bool,
    stopped: bool,
    line: Seq<char>,
)
    requires
        tries_in_order(status, stopped),
    ensures
        !is_over(status.state) ==> runs_left(after_exit(status, success, stopped), stopped)
            < runs_left(status, stopped),
        !is_over(status.state) ==> runs_left(
            StatusView { state: ProcessState::Running, ..status },
            stopped,
        ) == runs_left(status, stopped),
        runs_left(StatusView { render_stats: line, ..status }, stopped) == runs_left(
            status,
            stopped,
        ),
        runs_left(status, true) <= runs_left(status, stopped),
        runs_left(status, stopped) == 0 <==> is_over(status.state),
{
}

/// A process that succeeds is over at once, on its first or its second run.
pub proof fn a_successful_process_is_over(status: StatusView, stopped: bool)
    ensures
        after_exit(status, true, stopped).state == ProcessState::Done,
        after_exit(status, true, stopped).retries == status.retries,
{
}

/// Whatever happens to a process, it keeps its index, its GPU and its frames.
pub proof fn a_process_keeps_its_place(status: StatusView, success: bool, stopped: bool)
    ensures
        after_exit(status, success, stopped).index == status.index,
        after_exit(status, success, stopped).gpu == status.gpu,
        after_exit(status, success, stopped).frames == status.frames,
{
}

/// A process of a new job, whatever its place, is in the first of two runs: it
/// runs, pinned to the GPU of its own index, on the frames of its share, has
/// printed nothing and was not retried; and if that run fails while the job is
/// not stopped, it gets its second.
pub proof fn every_process_begins_with_its_first_run(partition: Partition)
    ensures
        ({
            let status = first_status(partition);
            let failed = after_exit(status, false, false);
            &&& status.index == partition.index
            &&& status.gpu == partition.index
            &&& status.frames == partition.frames_label@
            &&& status.state == ProcessState::Running
            &&& status.render_stats.len() == 0
            &&& status.retries == 0
            &&& runs_left(status, false) == 2
            &&& failed.state == ProcessState::Retrying
            &&& failed.retries == 1
        }),
{
    reveal_strlit("");
}

/// What the end of a run means: it is done exactly if it succeeded; otherwise
/// it is retried exactly if it never was and the job is not stopped, which
/// counts as a retry, and else has failed. The line that it printed last stays,
/// and so do its index, GPU and frames.
pub proof fn end_of_a_run(status: StatusView, success: bool, stopped: bool)
    ensures
        ({
            let after = after_exit(status, success, stopped);
            let again = !success && status.retries == 0 && !stopped;
            &&& after.state == ProcessState::Done <==> success
            &&& after.state == ProcessState::Retrying <==> again
            &&& after.state == ProcessState::Failed <==> !success && !again
            &&& again ==> after.retries == status.retries + 1
            &&& !again ==> after.retries == status.retries
            &&& after.index == status.index
            &&& after.gpu == status.gpu
            &&& after.frames == status.frames
            &&& after.render_stats == status.render_stats
        }),
{
}

/// A process is over exactly if it is done or has failed; a job, if all its
/// processes are; and each process that is not over is one that is awaited.
pub proof fn over_means_done_or_failed(
    board: Seq<StatusView>,
    status: StatusView,
    state: ProcessState,
)
    ensures
        is_over(state) <==> state == ProcessState::Done || state == ProcessState::Failed,
        all_over(Seq::empty()),
        all_over(board.push(status)) <==> all_over(board) && (status.state == ProcessState::Done
            || status.state == ProcessState::Failed),
        active(Seq::empty()) == 0,
        active(board.push(status)) == active(board) + (if status.state == ProcessState::Running
            || status.state == ProcessState::Retrying {
            1nat
        } else {
            0nat
        }),
{
    let longer = board.push(status);
    assert(longer.drop_last() =~= board);
    if all_over(longer) {
        assert(is_over(longer[board.len() as int].state));
        assert forall|i: int| 0 <= i < board.len() implies is_over(
            (#[trigger] board[i]).state,
        ) by {
            assert(longer[i] == board[i]);
        }
    }
    if all_over(board) && is_over(status.state) {
        assert forall|i: int| 0 <= i < longer.len() implies is_over(
            (#[trigger] longer[i]).state,
        ) by {
            if i < board.len() {
                assert(longer[i] == board[i]);
            }
        }
    }
}

/// The names by which clients know the states.
pub proof fn names_of_the_states()
    ensures
        state_name(ProcessState::Running) == "running"@,
        state_name(ProcessState::Done) == "done"@,
        state_name(ProcessState::Failed) == "failed"@,
        state_name(ProcessState::Retrying) == "retrying"@,
{
}

/// An update goes to the place of its process in the stored list, and to the
/// field that it is about, and brings what the status says there.
pub proof fn updates_say_what_the_status_says(status: StatusView)
    ensures
        state_update(status).path == "$.parallel_status["@ + decimal(status.index) + "].state"@,
        state_update(status).value == ValueView::Text(state_name(status.state)),
        retries_update(status).path == "$.parallel_status["@ + decimal(status.index)
            + "].retries"@,
        retries_update(status).value == ValueView::Number(status.retries),
        stats_update(status).path == "$.parallel_status["@ + decimal(status.index)
            + "].render_stats"@,
        stats_update(status).value == ValueView::Text(status.render_stats),
{
    reveal_strlit("].");
    reveal_strlit("state");
    reveal_strlit("retries");
    reveal_strlit("render_stats");
    reveal_strlit("].state");
    reveal_strlit("].retries");
    reveal_strlit("].render_stats");
    let head = "$.parallel_status["@ + decimal(status.index);
    assert(head + "]."@ + "state"@ =~= head + "].state"@);
    assert(head + "]."@ + "retries"@ =~= head + "].retries"@);
    assert(head + "]."@ + "render_stats"@ =~= head + "].render_stats"@);
}

/// Any field of any status has a place of its own in the stored list.
pub proof fn every_field_has_its_path(index: int, field: Seq<char>)
    ensures
        field_path(index, field) == "$.parallel_status["@ + decimal(index) + "]."@ + field,
{
}

/// A list of updates says what its updates say, each in its turn.
pub proof fn updates_come_in_order(list: Seq<StatusUpdate>, i: int)
    requires
        0 <= i < list.len(),
    ensures
        updates_of(list).len() == list.len(),
        updates_of(list)[i] == list[i]@,
{
}

/// What is shown of a status, an update or a value is what it holds.
pub proof fn views_hold_every_field(status: ProcessStatus, update: StatusUpdate, s: String, n: u32)
    ensures
        status@.index == status.index,
        status@.gpu == status.gpu,
        status@.frames == status.frames@,
        status@.state == status.state,
        status@.render_stats == status.render_stats@,
        status@.retries == status.retries,
        update@.path == update.path@,
        update@.value == update.value@,
        StatusValue::Text(s)@ == ValueView::Text(s@),
        StatusValue::Number(n)@ == ValueView::Number(n as int),
        value_json(ValueView::Text(s@)) == Json::Text(s@),
        value_json(ValueView::Number(n as int)) == Json::Unsigned(n as u64),
{
}

/// A stored status has these six members, with what the status says, and no
/// others.
pub proof fn members_of_a_status(status: StatusView, key: Seq<char>)
    ensures
        status_json(status) matches Json::Object(members) ==> {
            &&& members.contains_key(key) <==> key == "index"@ || key == "gpu"@ || key == "frames"@
                || key == "state"@ || key == "render_stats"@ || key == "retries"@
            &&& members["index"@] == Json::Unsigned(status.index as u64)
            &&& members["gpu"@] == Json::Unsigned(status.gpu as u64)
            &&& members["frames"@] == Json::Text(status.frames)
            &&& members["state"@] == Json::Text(state_name(status.state))
            &&& members["render_stats"@] == Json::Text(status.render_stats)
            &&& members["retries"@] == Json::Unsigned(status.retries as u64)
        },
        status_json(status) is Object,
{
    lemma_status_fields();
    reveal_strlit("index");
    reveal_strlit("gpu");
    reveal_strlit("frames");
    reveal_strlit("state");
    reveal_strlit("render_stats");
    reveal_strlit("retries");
    assert("index"@.len() == 5 && "gpu"@.len() == 3 && "frames"@.len() == 6);
    assert("state"@.len() == 5 && "render_stats"@.len() == 12 && "retries"@.len() == 7);
    assert("index"@[0] == 'i' && "state"@[0] == 's');
}

/// The stored list has the statuses of the board, each in its place.
pub proof fn stored_list_follows_the_board(board: Seq<StatusView>, i: int)
    requires
        0 <= i < board.len(),
    ensures
        board_json(board) matches Json::Array(items) ==> items.len() == board.len() && items[i]
            == status_json(board[i]),
        board_json(board) is Array,
{
}

} // verus!
