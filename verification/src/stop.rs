//! The processes that run, and stopping them.
use crate::decimal::{decimal, u64_text};
use crate::reply::{Reply, ReplyView, Status, answer, reply};
use vstd::prelude::*;
use vstd::string::*;

verus! {

/// The ids of the Blender processes that run.
pub struct LivePids {
    pids: Vec<u32>,
}

impl View for LivePids {
    type V = Seq<u32>;

    closed spec fn view(&self) -> Seq<u32> {
        self.pids@
    }
}

/// A list without the first occurrence of `pid`.
pub open spec fn without(pids: Seq<u32>, pid: u32) -> Seq<u32>
    decreases pids.len(),
{
    if pids.len() == 0 {
        pids
    } else if pids[0] == pid {
        pids.drop_first()
    } else {
        seq![pids[0]] + without(pids.drop_first(), pid)
    }
}

proof fn lemma_without_at(pids: Seq<u32>, pid: u32, k: int)
    requires
        0 <= k <= pids.len(),
        forall|i: int| 0 <= i < k ==> #[trigger] pids[i] != pid,
        k < pids.len() ==> pids[k] == pid,
    ensures
        without(pids, pid) == (if k < pids.len() {
            pids.remove(k)
        } else {
            pids
        }),
    decreases k,
{
    if k > 0 {
        let rest = pids.drop_first();
        assert forall|i: int| 0 <= i < k - 1 implies #[trigger] rest[i] != pid by {
            assert(rest[i] == pids[i + 1]);
        }
        lemma_without_at(rest, pid, k - 1);
        assert(pids[0] != pid);
        if k < pids.len() {
            assert(seq![pids[0]] + rest.remove(k - 1) =~= pids.remove(k));
        } else {
            assert(seq![pids[0]] + rest =~= pids);
        }
    } else if pids.len() > 0 {
        assert(pids.drop_first() =~= pids.remove(0));
    }
}

impl LivePids {
    /// No process runs.
    pub fn new() -> (res: LivePids)
        ensures
            res@ == Seq::<u32>::empty(),
    {
        LivePids { pids: Vec::new() }
    }

    /// A process has been started.
    pub fn insert(&mut self, pid: u32)
        ensures
            final(self)@ == old(self)@.push(pid),
    {
        self.pids.push(pid);
    }

    /// A process has ended.
    pub fn remove(&mut self, pid: u32)
        ensures
            final(self)@ == without(old(self)@, pid),
    {
        let mut i: usize = 0;
        while i < self.pids.len() && self.pids[i] != pid
            invariant
                i <= self@.len(),
                self@ == old(self)@,
                forall|k: int| 0 <= k < i ==> #[trigger] self@[k] != pid,
            decreases self@.len() - i,
        {
            i = i + 1;
        }
        proof {
            lemma_without_at(self@, pid, i as int);
        }
        if i < self.pids.len() {
            self.pids.remove(i);
        }
    }

    /// Forgets all processes.
    pub fn clear(&mut self)
        ensures
            final(self)@ == Seq::<u32>::empty(),
    {
        self.pids.clear();
    }

    /// The processes that run, the longest running first.
    pub fn all(&self) -> (res: Vec<u32>)
        ensures
            res@ == self@,
    {
        let mut res: Vec<u32> = Vec::new();
        let mut i: usize = 0;
        while i < self.pids.len()
            invariant
                i <= self@.len(),
                res@ == self@.take(i as int),
            decreases self@.len() - i,
        {
            res.push(self.pids[i]);
            i = i + 1;
        }
        assert(self@.take(i as int) == self@);
        res
    }
}

/// A process that has started and ended is no longer among those that run,
/// and the others are what they were, if no other has its id.
pub proof fn started_then_ended(pids: Seq<u32>, pid: u32)
    requires
        !pids.contains(pid),
    ensures
        without(pids.push(pid), pid) == pids,
{
    let all = pids.push(pid);
    assert forall|i: int| 0 <= i < pids.len() implies #[trigger] all[i] != pid by {
        assert(pids.contains(pids[i]));
    }
    lemma_without_at(all, pid, pids.len() as int);
    assert(all.remove(pids.len() as int) =~= pids);
}

/// A process that could not be told to stop.
#[derive(Debug, PartialEq)]
pub struct StopFailure {
    pub pid: u32,
    pub error: String,
}

/// How a failure is reported.
pub open spec fn failure_text(failure: StopFailure) -> Seq<char> {
    decimal(failure.pid as int) + ": "@ + failure.error@
}

/// The failures, with commas between them.
pub open spec fn failures_text(failures: Seq<StopFailure>) -> Seq<char>
    decreases failures.len(),
{
    if failures.len() == 0 {
        Seq::empty()
    } else if failures.len() == 1 {
        failure_text(failures[0])
    } else {
        failures_text(failures.drop_last()) + ", "@ + failure_text(failures.last())
    }
}

/// The answer to a request to stop: there has to be something to stop, and
/// every process has to be told.
pub open spec fn stop_answer(pids: Seq<u32>, failures: Seq<StopFailure>) -> ReplyView {
    if pids.len() == 0 {
        answer(Status::BadRequest, "No render task are active"@)
    } else if failures.len() == 0 {
        answer(Status::Success, "Blender exited successfully"@)
    } else {
        answer(
            Status::InternalServerError,
            "Failed to cancel some renders: "@ + failures_text(failures),
        )
    }
}

/// Answers a request to stop the processes `pids`, of which some could not be
/// told.
pub fn stop_reply(pids: &Vec<u32>, failures: &Vec<StopFailure>) -> (res: Reply)
    ensures
        res@ == stop_answer(pids@, failures@),
{
    if pids.len() == 0 {
        return reply(Status::BadRequest, "No render task are active");
    }
    if failures.len() == 0 {
        return reply(Status::Success, "Blender exited successfully");
    }
    let mut list = String::new();
    let mut i: usize = 0;
    assert(failures_text(failures@.take(0)) == Seq::<char>::empty());
    while i < failures.len()
        invariant
            i <= failures@.len(),
            list@ == failures_text(failures@.take(i as int)),
        decreases failures@.len() - i,
    {
        let ghost next = failures@.take(i + 1);
        assert(next.drop_last() == failures@.take(i as int));
        let pid = u64_text(failures[i].pid as u64);
        let text = pid.concat(": ").concat(failures[i].error.as_str());
        if i > 0 {
            list.append(", ");
        }
        list.append(text.as_str());
        assert(list@ =~= failures_text(next));
        i = i + 1;
    }
    assert(failures@.take(i as int) == failures@);
    Reply {
        status: Status::InternalServerError,
        body: "Failed to cancel some renders: ".to_owned().concat(list.as_str()),
    }
}

/// What is known of failures once a process has been told; `error` is what
/// went wrong, if anything did.
pub open spec fn after_report(
    failures: Seq<StopFailure>,
    pid: u32,
    error: Option<String>,
) -> Seq<StopFailure> {
    match error {
        Some(error) => failures.push(StopFailure { pid, error }),
        None => failures,
    }
}

/// A request to stop, on its way through the processes.
pub struct Stopping {
    pids: Vec<u32>,
    next: usize,
    failures: Vec<StopFailure>,
}

impl Stopping {
    /// The processes that have been told, or could not be.
    pub closed spec fn told(&self) -> Seq<u32> {
        self.pids@.take(self.next as int)
    }

    /// The processes that are still to be told.
    pub closed spec fn ahead(&self) -> Seq<u32> {
        self.pids@.skip(self.next as int)
    }

    /// The processes that could not be told.
    pub closed spec fn failed(&self) -> Seq<StopFailure> {
        self.failures@
    }

    /// It has not gone beyond the last process.
    pub closed spec fn wf(&self) -> bool {
        self.next <= self.pids@.len()
    }

    /// Begins with the processes that run.
    pub fn new(live: &LivePids) -> (res: Stopping)
        ensures
            res.wf(),
            res.told() == Seq::<u32>::empty(),
            res.ahead() == live@,
            res.failed() == Seq::<StopFailure>::empty(),
    {
        let res = Stopping { pids: live.all(), next: 0, failures: Vec::new() };
        assert(res.ahead() =~= live@);
        res
    }

    /// The process to be told next.
    pub fn next_pid(&self) -> (res: Option<u32>)
        requires
            self.wf(),
        ensures
            match res {
                Some(pid) => self.ahead().len() > 0 && pid == self.ahead()[0],
                None => self.ahead().len() == 0,
            },
    {
        if self.next < self.pids.len() {
            Some(self.pids[self.next])
        } else {
            None
        }
    }

    /// That process has been told, or could not be.
    pub fn report(&mut self, error: Option<String>)
        requires
            old(self).wf(),
            old(self).ahead().len() > 0,
        ensures
            final(self).wf(),
            final(self).told() == old(self).told().push(old(self).ahead()[0]),
            final(self).ahead() == old(self).ahead().drop_first(),
            final(self).failed() == after_report(old(self).failed(), old(self).ahead()[0], error),
    {
        let ghost before = *self;
        assert(self.next < self.pids.len());
        match error {
            Some(error) => {
                let pid: u32 = self.pids[self.next];
                self.failures.push(StopFailure { pid, error });
            },
            None => {},
        }
        self.next = self.next + 1;
        proof {
            assert(self.told() =~= before.told().push(before.ahead()[0]));
            assert(self.ahead() =~= before.ahead().drop_first());
        }
    }

    /// Ends, once every process has been told: nothing is left of the list of
    /// those that run, and the client is answered.
    pub fn finish(self, live: &mut LivePids) -> (res: Reply)
        requires
            self.wf(),
            self.ahead().len() == 0,
        ensures
            final(live)@ == Seq::<u32>::empty(),
            res@ == stop_answer(self.told(), self.failed()),
    {
        live.clear();
        assert(self.told() =~= self.pids@);
        stop_reply(&self.pids, &self.failures)
    }
}

/// Whom a request to stop has told, and what failed, once it has gone through
/// the processes ahead; `errors` are what went wrong with each, if anything.
pub open spec fn walked(
    told: Seq<u32>,
    ahead: Seq<u32>,
    failures: Seq<StopFailure>,
    errors: Seq<Option<String>>,
) -> (Seq<u32>, Seq<StopFailure>)
    decreases ahead.len(),
{
    if ahead.len() == 0 {
        (told, failures)
    } else {
        walked(
            told.push(ahead[0]),
            ahead.drop_first(),
            after_report(failures, ahead[0], errors[0]),
            errors.drop_first(),
        )
    }
}

/// The failures among the processes, in order.
pub open spec fn failures_among(pids: Seq<u32>, errors: Seq<Option<String>>) -> Seq<StopFailure>
    decreases pids.len(),
{
    if pids.len() == 0 {
        Seq::empty()
    } else {
        after_report(Seq::empty(), pids[0], errors[0]) + failures_among(
            pids.drop_first(),
            errors.drop_first(),
        )
    }
}

proof fn lemma_walked(
    told: Seq<u32>,
    ahead: Seq<u32>,
    failures: Seq<StopFailure>,
    errors: Seq<Option<String>>,
)
    requires
        errors.len() == ahead.len(),
    ensures
        walked(told, ahead, failures, errors) == (
            told + ahead,
            failures + failures_among(ahead, errors),
        ),
    decreases ahead.len(),
{
    if ahead.len() == 0 {
        assert(told + ahead =~= told);
        assert(failures + failures_among(ahead, errors) =~= failures);
    } else {
        let reported = after_report(failures, ahead[0], errors[0]);
        let rest = failures_among(ahead.drop_first(), errors.drop_first());
        lemma_walked(
            told.push(ahead[0]),
            ahead.drop_first(),
            reported,
            errors.drop_first(),
        );
        assert(told.push(ahead[0]) + ahead.drop_first() =~= told + ahead);
        assert(reported + rest =~= failures + failures_among(ahead, errors));
    }
}

proof fn lemma_no_failures(pids: Seq<u32>, errors: Seq<Option<String>>)
    requires
        errors.len() == pids.len(),
    ensures
        failures_among(pids, errors).len() == 0 <==> forall|i: int|
            0 <= i < errors.len() ==> #[trigger] errors[i] is None,
    decreases pids.len(),
{
    if pids.len() > 0 {
        let rest = errors.drop_first();
        lemma_no_failures(pids.drop_first(), rest);
        assert forall|i: int| 0 < i < errors.len() implies #[trigger] errors[i] == rest[i - 1] by {
        }
        if errors[0] is None && forall|i: int| 0 <= i < rest.len() ==> #[trigger] rest[i] is None {
            assert forall|i: int| 0 <= i < errors.len() implies #[trigger] errors[i] is None by {
                if i > 0 {
                    assert(rest[i - 1] is None);
                }
            }
        }
        if forall|i: int| 0 <= i < errors.len() ==> #[trigger] errors[i] is None {
            assert(errors[0] is None);
            assert forall|i: int| 0 <= i < rest.len() implies #[trigger] rest[i] is None by {
                assert(rest[i] == errors[i + 1]);
            }
        }
    }
}

/// A request to stop tells every process once, in order, also behind one that
/// could not be told. With processes there, the answer is success exactly if
/// all were told, and else names those that were not, in order; a request that
/// comes when the list is empty, as it is after the first, is refused.
pub proof fn every_process_is_told(pids: Seq<u32>, errors: Seq<Option<String>>)
    requires
        errors.len() == pids.len(),
    ensures
        ({
            let (told, failures) = walked(Seq::empty(), pids, Seq::empty(), errors);
            let reply = stop_answer(told, failures);
            &&& told == pids
            &&& failures == failures_among(pids, errors)
            &&& pids.len() > 0 ==> (reply.status == Status::Success <==> forall|i: int|
                0 <= i < errors.len() ==> #[trigger] errors[i] is None)
            &&& pids.len() > 0 && reply.status != Status::Success ==> reply == answer(
                Status::InternalServerError,
                "Failed to cancel some renders: "@ + failures_text(failures),
            )
        }),
        stop_answer(Seq::empty(), Seq::empty()) == answer(
            Status::BadRequest,
            "No render task are active"@,
        ),
{
    lemma_walked(Seq::empty(), pids, Seq::empty(), errors);
    lemma_no_failures(pids, errors);
    assert(Seq::<u32>::empty() + pids =~= pids);
    assert(Seq::<StopFailure>::empty() + failures_among(pids, errors) =~= failures_among(
        pids,
        errors,
    ));
}

/// A process that ends is taken out of the list once, where it first stands;
/// the others stay, in their order, and so does the list if it is not there.
pub proof fn first_occurrence_is_removed(before: Seq<u32>, pid: u32, after: Seq<u32>)
    requires
        !before.contains(pid),
    ensures
        without(before, pid) == before,
        without(before + seq![pid] + after, pid) == before + after,
{
    let all = before + seq![pid] + after;
    let k = before.len() as int;
    assert forall|i: int| 0 <= i < k implies #[trigger] before[i] != pid by {
        assert(before.contains(before[i]));
    }
    assert forall|i: int| 0 <= i < k implies #[trigger] all[i] != pid by {
        assert(all[i] == before[i]);
    }
    lemma_without_at(before, pid, k);
    lemma_without_at(all, pid, k);
    assert(all.remove(k) =~= before + after);
}

/// Each failure is reported by its process and what went wrong, and a comma
/// stands between one and the next.
pub proof fn failures_are_listed(failures: Seq<StopFailure>, failure: StopFailure)
    ensures
        failures_text(seq![failure]) == decimal(failure.pid as int) + ": "@ + failure.error@,
        failures.len() > 0 ==> failures_text(failures.push(failure)) == failures_text(failures)
            + ", "@ + (decimal(failure.pid as int) + ": "@ + failure.error@),
{
    assert(failures.push(failure).drop_last() =~= failures);
}

/// The three answers: with no process to stop, with every process told, and
/// with some that were not.
pub proof fn answers_to_a_stop(pids: Seq<u32>, failures: Seq<StopFailure>)
    ensures
        pids.len() == 0 ==> stop_answer(pids, failures).status == Status::BadRequest && stop_answer(
            pids,
            failures,
        ).body == "No render task are active"@,
        pids.len() > 0 && failures.len() == 0 ==> stop_answer(pids, failures).status
            == Status::Success && stop_answer(pids, failures).body
            == "Blender exited successfully"@,
        pids.len() > 0 && failures.len() > 0 ==> stop_answer(pids, failures).status
            == Status::InternalServerError && stop_answer(pids, failures).body
            == "Failed to cancel some renders: "@ + failures_text(failures),
{
}

/// A process that could not be told is added to the failures with what went
/// wrong; one that was told adds nothing.
pub proof fn only_errors_are_failures(failures: Seq<StopFailure>, pid: u32, error: String)
    ensures
        after_report(failures, pid, None) == failures,
        after_report(failures, pid, Some(error)).len() == failures.len() + 1,
        after_report(failures, pid, Some(error)).last().pid == pid,
        after_report(failures, pid, Some(error)).last().error == error,
        after_report(failures, pid, Some(error)).drop_last() == failures,
{
    assert(after_report(failures, pid, Some(error)).drop_last() =~= failures);
}

} // verus!
