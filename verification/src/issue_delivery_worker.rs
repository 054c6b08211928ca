//! The outbox table and the delivery worker.
//!
//! A published issue fans out into one delivery task per confirmed
//! recipient; concurrent workers claim one eligible task at a time, try
//! the send, and either delete the task (success, malformed address, or
//! retry budget exhausted) or reschedule it.  Claiming models the
//! row-level lock a worker holds from claim to resolve: a claimed task is
//! skipped by every other claim, and a task's disappearance is its only
//! terminal state.  Each operation stands for one committed transaction,
//! except claiming, which opens the transaction that the resolve step
//! commits.

use vstd::prelude::*;

use crate::domain::subscriber_email::{email_accepted, validate_email_text};

verus! {

/// Mathematical image of a stored issue.
#[verifier::ext_equal]
pub ghost struct IssueView {
    pub newsletter_issue_id: u128,
    pub title: Seq<char>,
    pub text_content: Seq<char>,
    pub html_content: Seq<char>,
    pub published_at: i64,
}

/// Mathematical image of a delivery task row.
#[verifier::ext_equal]
pub ghost struct TaskRowView {
    pub newsletter_issue_id: u128,
    pub subscriber_email: Seq<char>,
    pub n_retries: u16,
    pub execute_after: i64,
}

/// A task row together with its lock state.
#[verifier::ext_equal]
pub ghost struct TaskView {
    pub row: TaskRowView,
    pub claimed: bool,
}

/// Mathematical image of the whole delivery store.
#[verifier::ext_equal]
pub ghost struct StoreView {
    pub issues: Seq<IssueView>,
    pub tasks: Seq<TaskView>,
}

/// A stored newsletter issue, immutable once created.
pub struct NewsletterIssue {
    pub newsletter_issue_id: u128,
    pub title: String,
    pub text_content: String,
    pub html_content: String,
    pub published_at: i64,
}

impl View for NewsletterIssue {
    type V = IssueView;

    open spec fn view(&self) -> IssueView {
        IssueView {
            newsletter_issue_id: self.newsletter_issue_id,
            title: self.title@,
            text_content: self.text_content@,
            html_content: self.html_content@,
            published_at: self.published_at,
        }
    }
}

/// One delivery task, identified by (issue, recipient address).
pub struct DeliveryTask {
    pub newsletter_issue_id: u128,
    pub subscriber_email: String,
    pub n_retries: u16,
    pub execute_after: i64,
}

impl View for DeliveryTask {
    type V = TaskRowView;

    open spec fn view(&self) -> TaskRowView {
        TaskRowView {
            newsletter_issue_id: self.newsletter_issue_id,
            subscriber_email: self.subscriber_email@,
            n_retries: self.n_retries,
            execute_after: self.execute_after,
        }
    }
}

struct TaskSlot {
    row: DeliveryTask,
    claimed: bool,
}

impl View for TaskSlot {
    type V = TaskView;

    closed spec fn view(&self) -> TaskView {
        TaskView { row: self.row@, claimed: self.claimed }
    }
}

/// Does task `t` deliver issue `issue_id` to `email`?
pub open spec fn task_matches(t: TaskView, issue_id: u128, email: Seq<char>) -> bool {
    t.row.newsletter_issue_id == issue_id && t.row.subscriber_email == email
}

/// Is there a task for (`issue_id`, `email`)?
pub open spec fn has_task(tasks: Seq<TaskView>, issue_id: u128, email: Seq<char>) -> bool {
    exists|i: int| 0 <= i < tasks.len() && task_matches(tasks[i], issue_id, email)
}

/// The index of the task for (`issue_id`, `email`); meaningful when
/// [`has_task`] holds and tasks are unique.
pub open spec fn task_index(tasks: Seq<TaskView>, issue_id: u128, email: Seq<char>) -> int {
    choose|i: int| 0 <= i < tasks.len() && task_matches(tasks[i], issue_id, email)
}

/// At most one task per (issue, recipient) pair.
pub open spec fn unique_tasks(tasks: Seq<TaskView>) -> bool {
    forall|i: int, j: int|
        0 <= i < tasks.len() && 0 <= j < tasks.len() && i != j ==> !(
        tasks[i].row.newsletter_issue_id == tasks[j].row.newsletter_issue_id
            && tasks[i].row.subscriber_email == tasks[j].row.subscriber_email)
}

/// Is there an issue stored under `issue_id`?
pub open spec fn has_issue(issues: Seq<IssueView>, issue_id: u128) -> bool {
    exists|i: int| 0 <= i < issues.len() && #[trigger] issues[i].newsletter_issue_id == issue_id
}

/// The issue stored under `issue_id`; meaningful when [`has_issue`] holds
/// and issues are unique.
pub open spec fn the_issue(issues: Seq<IssueView>, issue_id: u128) -> IssueView {
    issues[choose|i: int|
        0 <= i < issues.len() && #[trigger] issues[i].newsletter_issue_id == issue_id]
}

/// At most one issue per identifier.
pub open spec fn unique_issues(issues: Seq<IssueView>) -> bool {
    forall|i: int, j: int|
        0 <= i < issues.len() && 0 <= j < issues.len() && i != j
            ==> issues[i].newsletter_issue_id != issues[j].newsletter_issue_id
}

/// Every task delivers an issue that exists: fan-out writes tasks in the
/// same transaction as their issue.
pub open spec fn tasks_reference_issues(st: StoreView) -> bool {
    forall|i: int|
        0 <= i < st.tasks.len() ==> has_issue(
            st.issues,
            (#[trigger] st.tasks[i]).row.newsletter_issue_id,
        )
}

/// The delivery store: the issues table and the delivery queue.
pub struct DeliveryStore {
    issues: Vec<NewsletterIssue>,
    tasks: Vec<TaskSlot>,
}

impl View for DeliveryStore {
    type V = StoreView;

    closed spec fn view(&self) -> StoreView {
        StoreView {
            issues: Seq::new(self.issues@.len(), |i: int| self.issues@[i]@),
            tasks: Seq::new(self.tasks@.len(), |i: int| self.tasks@[i]@),
        }
    }
}

impl DeliveryStore {
    /// The store's invariant: unique issues, unique tasks, and no task
    /// without its issue.
    pub open spec fn wf(&self) -> bool {
        &&& unique_issues(self@.issues)
        &&& unique_tasks(self@.tasks)
        &&& tasks_reference_issues(self@)
    }

    /// An empty store.
    pub fn new() -> (r: DeliveryStore)
        ensures
            r@.issues == Seq::<IssueView>::empty(),
            r@.tasks == Seq::<TaskView>::empty(),
            r.wf(),
    {
        let r = DeliveryStore { issues: Vec::new(), tasks: Vec::new() };
        proof {
            assert(r@.issues =~= Seq::<IssueView>::empty());
            assert(r@.tasks =~= Seq::<TaskView>::empty());
        }
        r
    }

    /// How many delivery tasks are pending or retryable.
    pub fn task_count(&self) -> (r: usize)
        ensures
            r == self@.tasks.len(),
    {
        self.tasks.len()
    }

    /// Is there an issue stored under `issue_id`?
    pub fn contains_issue(&self, issue_id: u128) -> (r: bool)
        ensures
            r == has_issue(self@.issues, issue_id),
    {
        let mut i: usize = 0;
        while i < self.issues.len()
            invariant
                0 <= i <= self.issues.len(),
                self@.issues.len() == self.issues@.len(),
                forall|j: int|
                    0 <= j < i ==> #[trigger] self@.issues[j].newsletter_issue_id != issue_id,
            decreases self.issues.len() - i,
        {
            if self.issues[i].newsletter_issue_id == issue_id {
                proof {
                    assert(self@.issues[i as int].newsletter_issue_id == issue_id);
                }
                return true;
            }
            i = i + 1;
        }
        false
    }

    /// Is there a task for (`issue_id`, `email`)?
    pub fn contains_task(&self, issue_id: u128, email: &String) -> (r: bool)
        ensures
            r == has_task(self@.tasks, issue_id, email@),
    {
        match self.find_task(issue_id, email) {
            Some(_) => true,
            None => false,
        }
    }

    /// Index of the task for (`issue_id`, `email`), if any.
    fn find_task(&self, issue_id: u128, email: &String) -> (r: Option<usize>)
        ensures
            match r {
                Some(i) => 0 <= i < self@.tasks.len() && task_matches(
                    self@.tasks[i as int],
                    issue_id,
                    email@,
                ),
                None => !has_task(self@.tasks, issue_id, email@),
            },
    {
        let mut i: usize = 0;
        while i < self.tasks.len()
            invariant
                0 <= i <= self.tasks.len(),
                self@.tasks.len() == self.tasks@.len(),
                forall|j: int| 0 <= j < i ==> !task_matches(self@.tasks[j], issue_id, email@),
            decreases self.tasks.len() - i,
        {
            if self.tasks[i].row.newsletter_issue_id == issue_id && self.tasks[i].row.subscriber_email
                == *email {
                proof {
                    assert(task_matches(self@.tasks[i as int], issue_id, email@));
                }
                return Some(i);
            }
            i = i + 1;
        }
        None
    }

    /// In well-formed stores the matching task is unique, so the task
    /// found at any matching index is the task of [`task_index`].
    proof fn lemma_found_is_task_index(&self, issue_id: u128, email: Seq<char>, i: int)
        requires
            unique_tasks(self@.tasks),
            0 <= i < self@.tasks.len(),
            task_matches(self@.tasks[i], issue_id, email),
        ensures
            has_task(self@.tasks, issue_id, email),
            task_index(self@.tasks, issue_id, email) == i,
    {
        assert(has_task(self@.tasks, issue_id, email));
        let j = choose|j: int|
            0 <= j < self@.tasks.len() && task_matches(self@.tasks[j], issue_id, email);
        if j != i {
            assert(self@.tasks[i].row.newsletter_issue_id == self@.tasks[j].row.newsletter_issue_id
                && self@.tasks[i].row.subscriber_email == self@.tasks[j].row.subscriber_email);
            assert(false);
        }
    }

    /// Stores a new issue.  Fresh identifiers only; the task queue is
    /// untouched.
    pub(crate) fn insert_issue(&mut self, issue: NewsletterIssue) -> (r: ())
        requires
            old(self).wf(),
            !has_issue(old(self)@.issues, issue.newsletter_issue_id),
        ensures
            final(self).wf(),
            final(self)@.issues == old(self)@.issues.push(issue@),
            final(self)@.tasks == old(self)@.tasks,
    {
        let ghost pre = self@;
        let ghost iv = issue@;
        self.issues.push(issue);
        proof {
            assert(self@.issues =~= pre.issues.push(iv));
            assert(self@.tasks =~= pre.tasks);
            assert forall|i: int, j: int|
                0 <= i < self@.issues.len() && 0 <= j < self@.issues.len() && i != j implies self@
                .issues[i].newsletter_issue_id != self@.issues[j].newsletter_issue_id by {
                if i < pre.issues.len() && j < pre.issues.len() {
                    assert(pre.issues[i].newsletter_issue_id != pre.issues[j].newsletter_issue_id);
                } else if i < pre.issues.len() {
                    assert(self@.issues[i].newsletter_issue_id != iv.newsletter_issue_id);
                } else {
                    assert(self@.issues[j].newsletter_issue_id != iv.newsletter_issue_id);
                }
            }
            assert forall|i: int| 0 <= i < self@.tasks.len() implies has_issue(
                self@.issues,
                (#[trigger] self@.tasks[i]).row.newsletter_issue_id,
            ) by {
                assert(has_issue(pre.issues, pre.tasks[i].row.newsletter_issue_id));
                let k = choose|k: int|
                    0 <= k < pre.issues.len() && #[trigger] pre.issues[k].newsletter_issue_id
                        == pre.tasks[i].row.newsletter_issue_id;
                assert(self@.issues[k].newsletter_issue_id
                    == self@.tasks[i].row.newsletter_issue_id);
            }
        }
    }

    /// The stored issue's title, plain-text content and HTML content.
    pub fn get_issue(&self, issue_id: u128) -> (r: Option<(String, String, String)>)
        requires
            self.wf(),
        ensures
            match r {
                Some(c) => has_issue(self@.issues, issue_id) && {
                    let issue = the_issue(self@.issues, issue_id);
                    c.0@ == issue.title && c.1@ == issue.text_content && c.2@ == issue.html_content
                },
                None => !has_issue(self@.issues, issue_id),
            },
    {
        let mut i: usize = 0;
        while i < self.issues.len()
            invariant
                self.wf(),
                0 <= i <= self.issues.len(),
                self@.issues.len() == self.issues@.len(),
                forall|j: int|
                    0 <= j < i ==> #[trigger] self@.issues[j].newsletter_issue_id != issue_id,
            decreases self.issues.len() - i,
        {
            if self.issues[i].newsletter_issue_id == issue_id {
                proof {
                    assert(self@.issues[i as int].newsletter_issue_id == issue_id);
                    let j = choose|j: int|
                        0 <= j < self@.issues.len() && #[trigger] self@.issues[j].newsletter_issue_id
                            == issue_id;
                    if j != i {
                        assert(self@.issues[i as int].newsletter_issue_id != self@
                            .issues[j].newsletter_issue_id);
                        assert(false);
                    }
                }
                return Some(
                    (
                        self.issues[i].title.clone(),
                        self.issues[i].text_content.clone(),
                        self.issues[i].html_content.clone(),
                    ),
                );
            }
            i = i + 1;
        }
        None
    }

    /// Appends one unclaimed task row.  Fan-out inserts tasks only for
    /// stored issues and never twice for one (issue, recipient) pair.
    pub(crate) fn push_task(&mut self, task: DeliveryTask) -> (r: ())
        requires
            old(self).wf(),
            has_issue(old(self)@.issues, task.newsletter_issue_id),
            !has_task(old(self)@.tasks, task.newsletter_issue_id, task.subscriber_email@),
        ensures
            final(self).wf(),
            final(self)@.issues == old(self)@.issues,
            final(self)@.tasks == old(self)@.tasks.push(TaskView { row: task@, claimed: false }),
    {
        let ghost pre = self@;
        let ghost tv = TaskView { row: task@, claimed: false };
        self.tasks.push(TaskSlot { row: task, claimed: false });
        proof {
            assert(self@.issues =~= pre.issues);
            assert(self@.tasks =~= pre.tasks.push(tv));
            assert forall|i: int, j: int|
                0 <= i < self@.tasks.len() && 0 <= j < self@.tasks.len() && i != j implies !(
            self@.tasks[i].row.newsletter_issue_id == self@.tasks[j].row.newsletter_issue_id
                && self@.tasks[i].row.subscriber_email
                == self@.tasks[j].row.subscriber_email) by {
                if i < pre.tasks.len() && j < pre.tasks.len() {
                    assert(!(pre.tasks[i].row.newsletter_issue_id
                        == pre.tasks[j].row.newsletter_issue_id && pre.tasks[i].row.subscriber_email
                        == pre.tasks[j].row.subscriber_email));
                } else if i < pre.tasks.len() {
                    assert(!task_matches(pre.tasks[i], tv.row.newsletter_issue_id,
                        tv.row.subscriber_email));
                } else {
                    assert(!task_matches(pre.tasks[j], tv.row.newsletter_issue_id,
                        tv.row.subscriber_email));
                }
            }
        }
    }
}

/// A worker may claim task `t` at time `now`: it is eligible and no other
/// worker holds its lock.
pub open spec fn claimable(t: TaskView, now: i64) -> bool {
    !t.claimed && t.row.execute_after < now
}

/// The first claimable task, skipping locked rows, as the claim query
/// scans the queue.
pub open spec fn first_claimable(tasks: Seq<TaskView>, now: i64) -> Option<int>
    decreases tasks.len(),
{
    if tasks.len() == 0 {
        None
    } else if claimable(tasks[0], now) {
        Some(0)
    } else {
        match first_claimable(tasks.skip(1), now) {
            Some(j) => Some(j + 1),
            None => None,
        }
    }
}

/// What [`first_claimable`] returns: the least claimable index, or
/// nothing when no task is claimable.
pub proof fn lemma_first_claimable_props(tasks: Seq<TaskView>, now: i64)
    ensures
        match first_claimable(tasks, now) {
            Some(i) => 0 <= i < tasks.len() && claimable(tasks[i], now) && (forall|j: int|
                0 <= j < i ==> !claimable(#[trigger] tasks[j], now)),
            None => forall|j: int| 0 <= j < tasks.len() ==> !claimable(#[trigger] tasks[j], now),
        },
    decreases tasks.len(),
{
    if tasks.len() > 0 && !claimable(tasks[0], now) {
        lemma_first_claimable_props(tasks.skip(1), now);
        assert forall|j: int| 0 <= j < tasks.skip(1).len() implies tasks.skip(1)[j] == tasks[j + 1]
            by {}
        match first_claimable(tasks.skip(1), now) {
            Some(i) => {
                assert forall|j: int| 0 <= j < i + 1 implies !claimable(
                    #[trigger] tasks[j],
                    now,
                ) by {
                    if j > 0 {
                        assert(!claimable(tasks.skip(1)[j - 1], now));
                    }
                }
            },
            None => {
                assert forall|j: int| 0 <= j < tasks.len() implies !claimable(
                    #[trigger] tasks[j],
                    now,
                ) by {
                    if j > 0 {
                        assert(!claimable(tasks.skip(1)[j - 1], now));
                    }
                }
            },
        }
    }
}

/// The queue after a claim at time `now`, and the claimed index: the
/// first claimable task becomes locked; an empty result leaves the queue
/// unchanged.
pub open spec fn claim_transition(tasks: Seq<TaskView>, now: i64) -> (Seq<TaskView>, Option<int>) {
    match first_claimable(tasks, now) {
        Some(i) => (tasks.update(i, TaskView { claimed: true, ..tasks[i] }), Some(i)),
        None => (tasks, None),
    }
}

/// The next eligibility time after a failed attempt: pushed out by the
/// configured wait, saturating at the largest representable time.
pub open spec fn push_out(execute_after: i64, retry_wait_seconds: u16) -> i64 {
    if execute_after as int + retry_wait_seconds as int <= i64::MAX as int {
        (execute_after as int + retry_wait_seconds as int) as i64
    } else {
        i64::MAX
    }
}

/// A task rescheduled after a transient failure: one more recorded
/// attempt, pushed out, and unlocked.
pub open spec fn retried_task(t: TaskView, retry_wait_seconds: u16) -> TaskView {
    TaskView {
        row: TaskRowView {
            n_retries: (t.row.n_retries + 1) as u16,
            execute_after: push_out(t.row.execute_after, retry_wait_seconds),
            ..t.row
        },
        claimed: false,
    }
}

/// What one worker iteration reports.
#[derive(Clone, Copy, PartialEq, Eq, Structural, Debug)]
pub enum ExecutionOutput {
    TaskCompleted,
    NoAvaliableTask,
    RetryLater,
}

/// One worker iteration over the store, given whether the provider would
/// accept the send: claim the first eligible unclaimed task, then delete
/// it (send accepted, malformed address, or retry budget exhausted) or
/// reschedule it (transient failure with budget left).
pub open spec fn step_transition(
    st: StoreView,
    now: i64,
    send_succeeds: bool,
    retries_limit: u16,
    retry_wait_seconds: u16,
) -> (StoreView, ExecutionOutput) {
    match first_claimable(st.tasks, now) {
        None => (st, ExecutionOutput::NoAvaliableTask),
        Some(i) => {
            let t = st.tasks[i];
            if !email_accepted(t.row.subscriber_email) {
                (StoreView { tasks: st.tasks.remove(i), ..st }, ExecutionOutput::TaskCompleted)
            } else if send_succeeds {
                (StoreView { tasks: st.tasks.remove(i), ..st }, ExecutionOutput::TaskCompleted)
            } else if t.row.n_retries as int + 1 >= retries_limit as int {
                (StoreView { tasks: st.tasks.remove(i), ..st }, ExecutionOutput::TaskCompleted)
            } else {
                (
                    StoreView {
                        tasks: st.tasks.update(i, retried_task(t, retry_wait_seconds)),
                        ..st
                    },
                    ExecutionOutput::RetryLater,
                )
            }
        },
    }
}

impl DeliveryStore {
    /// Claims one eligible task: locks the first task whose eligibility
    /// time has passed and that no other worker holds, and hands out a
    /// copy of its row.  Returns nothing when every eligible task is
    /// locked or the queue has none.
    pub fn dequeue_task(&mut self, now: i64) -> (r: Option<DeliveryTask>)
        requires
            old(self).wf(),
        ensures
            final(self).wf(),
            final(self)@.issues == old(self)@.issues,
            match r {
                Some(t) => {
                    &&& first_claimable(old(self)@.tasks, now) matches Some(i) && t@ == old(
                        self,
                    )@.tasks[i].row
                    &&& final(self)@.tasks == claim_transition(old(self)@.tasks, now).0
                },
                None => final(self)@ == old(self)@ && first_claimable(old(self)@.tasks, now)
                    is None,
            },
    {
        let ghost pre = self@;
        let mut i: usize = 0;
        while i < self.tasks.len()
            invariant
                self.wf(),
                pre == old(self)@,
                self@ == pre,
                0 <= i <= self.tasks.len(),
                self@.tasks.len() == self.tasks@.len(),
                forall|j: int| 0 <= j < i ==> !claimable(#[trigger] self@.tasks[j], now),
            decreases self.tasks.len() - i,
        {
            if !self.tasks[i].claimed && self.tasks[i].row.execute_after < now {
                proof {
                    assert(claimable(self@.tasks[i as int], now));
                    lemma_first_claimable_props(pre.tasks, now);
                    match first_claimable(pre.tasks, now) {
                        Some(k) => {
                            if k < i {
                                assert(!claimable(pre.tasks[k], now));
                                assert(false);
                            } else if k > i {
                                assert(!claimable(pre.tasks[i as int], now));
                                assert(false);
                            }
                        },
                        None => {
                            assert(!claimable(pre.tasks[i as int], now));
                            assert(false);
                        },
                    }
                }
                let row_copy = DeliveryTask {
                    newsletter_issue_id: self.tasks[i].row.newsletter_issue_id,
                    subscriber_email: self.tasks[i].row.subscriber_email.clone(),
                    n_retries: self.tasks[i].row.n_retries,
                    execute_after: self.tasks[i].row.execute_after,
                };
                self.tasks[i].claimed = true;
                proof {
                    assert(row_copy@ =~= pre.tasks[i as int].row);
                    assert(self@.issues =~= pre.issues);
                    assert(self@.tasks =~= pre.tasks.update(
                        i as int,
                        TaskView { claimed: true, ..pre.tasks[i as int] },
                    ));
                    assert forall|a: int, b: int|
                        0 <= a < self@.tasks.len() && 0 <= b < self@.tasks.len() && a != b implies !(
                    self@.tasks[a].row.newsletter_issue_id == self@.tasks[b].row.newsletter_issue_id
                        && self@.tasks[a].row.subscriber_email
                        == self@.tasks[b].row.subscriber_email) by {
                        assert(self@.tasks[a].row == pre.tasks[a].row);
                        assert(self@.tasks[b].row == pre.tasks[b].row);
                    }
                    assert forall|a: int| 0 <= a < self@.tasks.len() implies has_issue(
                        self@.issues,
                        (#[trigger] self@.tasks[a]).row.newsletter_issue_id,
                    ) by {
                        assert(self@.tasks[a].row == pre.tasks[a].row);
                        assert(has_issue(pre.issues, pre.tasks[a].row.newsletter_issue_id));
                    }
                }
                return Some(row_copy);
            }
            i = i + 1;
        }
        proof {
            lemma_first_claimable_props(pre.tasks, now);
            match first_claimable(pre.tasks, now) {
                Some(k) => {
                    assert(!claimable(pre.tasks[k], now));
                    assert(false);
                },
                None => {},
            }
        }
        None
    }

    /// Deletes the claimed task for (`task.newsletter_issue_id`,
    /// `task.subscriber_email`): the resolve step for success, a
    /// malformed address, or an exhausted retry budget.  Deletion is the
    /// task's only terminal state.
    pub fn delete_task(&mut self, task: &DeliveryTask) -> (r: ())
        requires
            old(self).wf(),
            has_task(old(self)@.tasks, task.newsletter_issue_id, task.subscriber_email@),
            old(self)@.tasks[task_index(
                old(self)@.tasks,
                task.newsletter_issue_id,
                task.subscriber_email@,
            )].claimed,
        ensures
            final(self).wf(),
            final(self)@.issues == old(self)@.issues,
            final(self)@.tasks == old(self)@.tasks.remove(
                task_index(old(self)@.tasks, task.newsletter_issue_id, task.subscriber_email@),
            ),
    {
        let ghost pre = self@;
        let found = self.find_task(task.newsletter_issue_id, &task.subscriber_email);
        match found {
            Some(i) => {
                proof {
                    self.lemma_found_is_task_index(
                        task.newsletter_issue_id,
                        task.subscriber_email@,
                        i as int,
                    );
                }
                self.tasks.remove(i);
                proof {
                    assert(self@.issues =~= pre.issues);
                    assert(self@.tasks =~= pre.tasks.remove(i as int));
                    assert forall|a: int, b: int|
                        0 <= a < self@.tasks.len() && 0 <= b < self@.tasks.len() && a != b implies !(
                    self@.tasks[a].row.newsletter_issue_id == self@.tasks[b].row.newsletter_issue_id
                        && self@.tasks[a].row.subscriber_email
                        == self@.tasks[b].row.subscriber_email) by {
                        let a0 = if a < i { a } else { a + 1 };
                        let b0 = if b < i { b } else { b + 1 };
                        assert(self@.tasks[a] == pre.tasks[a0]);
                        assert(self@.tasks[b] == pre.tasks[b0]);
                    }
                    assert forall|a: int| 0 <= a < self@.tasks.len() implies has_issue(
                        self@.issues,
                        (#[trigger] self@.tasks[a]).row.newsletter_issue_id,
                    ) by {
                        let a0 = if a < i { a } else { a + 1 };
                        assert(self@.tasks[a] == pre.tasks[a0]);
                        assert(has_issue(pre.issues, pre.tasks[a0].row.newsletter_issue_id));
                    }
                }
            },
            None => {
                proof {
                    assert(false);
                }
            },
        }
    }

    /// Reschedules the claimed task after a transient failure: one more
    /// recorded attempt, eligibility pushed out by the configured wait,
    /// and the lock released.
    pub fn schedule_next_retry(&mut self, task: &DeliveryTask, retry_wait_seconds: u16) -> (r: ())
        requires
            old(self).wf(),
            has_task(old(self)@.tasks, task.newsletter_issue_id, task.subscriber_email@),
            ({
                let t = old(self)@.tasks[task_index(
                    old(self)@.tasks,
                    task.newsletter_issue_id,
                    task.subscriber_email@,
                )];
                t.claimed && t.row == task@ && t.row.n_retries < u16::MAX
            }),
        ensures
            final(self).wf(),
            final(self)@.issues == old(self)@.issues,
            final(self)@.tasks == old(self)@.tasks.update(
                task_index(old(self)@.tasks, task.newsletter_issue_id, task.subscriber_email@),
                retried_task(
                    old(self)@.tasks[task_index(
                        old(self)@.tasks,
                        task.newsletter_issue_id,
                        task.subscriber_email@,
                    )],
                    retry_wait_seconds,
                ),
            ),
    {
        let ghost pre = self@;
        let found = self.find_task(task.newsletter_issue_id, &task.subscriber_email);
        match found {
            Some(i) => {
                proof {
                    self.lemma_found_is_task_index(
                        task.newsletter_issue_id,
                        task.subscriber_email@,
                        i as int,
                    );
                }
                let next_retries = self.tasks[i].row.n_retries + 1;
                let ea = self.tasks[i].row.execute_after;
                let next_delivery: i64 = if ea <= i64::MAX - (retry_wait_seconds as i64) {
                    ea + (retry_wait_seconds as i64)
                } else {
                    i64::MAX
                };
                self.tasks[i].row.n_retries = next_retries;
                self.tasks[i].row.execute_after = next_delivery;
                self.tasks[i].claimed = false;
                proof {
                    assert(self@.issues =~= pre.issues);
                    assert(self@.tasks =~= pre.tasks.update(
                        i as int,
                        retried_task(pre.tasks[i as int], retry_wait_seconds),
                    ));
                    assert forall|a: int, b: int|
                        0 <= a < self@.tasks.len() && 0 <= b < self@.tasks.len() && a != b implies !(
                    self@.tasks[a].row.newsletter_issue_id == self@.tasks[b].row.newsletter_issue_id
                        && self@.tasks[a].row.subscriber_email
                        == self@.tasks[b].row.subscriber_email) by {
                        assert(self@.tasks[a].row.newsletter_issue_id
                            == pre.tasks[a].row.newsletter_issue_id
                            && self@.tasks[a].row.subscriber_email
                            == pre.tasks[a].row.subscriber_email);
                        assert(self@.tasks[b].row.newsletter_issue_id
                            == pre.tasks[b].row.newsletter_issue_id
                            && self@.tasks[b].row.subscriber_email
                            == pre.tasks[b].row.subscriber_email);
                    }
                    assert forall|a: int| 0 <= a < self@.tasks.len() implies has_issue(
                        self@.issues,
                        (#[trigger] self@.tasks[a]).row.newsletter_issue_id,
                    ) by {
                        assert(self@.tasks[a].row.newsletter_issue_id
                            == pre.tasks[a].row.newsletter_issue_id);
                        assert(has_issue(pre.issues, pre.tasks[a].row.newsletter_issue_id));
                    }
                }
            },
            None => {
                proof {
                    assert(false);
                }
            },
        }
    }

    /// One worker iteration: claim one eligible task and resolve it.
    /// `send_succeeds` is the provider's answer for the send this
    /// iteration would attempt; it is ignored when no task is claimed or
    /// the stored address is malformed.  The whole iteration follows
    /// [`step_transition`].
    pub fn try_execute_task(
        &mut self,
        now: i64,
        send_succeeds: bool,
        retries_limit: u16,
        retry_wait_seconds: u16,
    ) -> (r: ExecutionOutput)
        requires
            old(self).wf(),
        ensures
            final(self).wf(),
            (final(self)@, r) == step_transition(
                old(self)@,
                now,
                send_succeeds,
                retries_limit,
                retry_wait_seconds,
            ),
    {
        let ghost pre = self@;
        let task = match self.dequeue_task(now) {
            None => {
                return ExecutionOutput::NoAvaliableTask;
            },
            Some(t) => t,
        };
        let ghost i = match first_claimable(pre.tasks, now) {
            Some(i) => i,
            None => 0,
        };
        proof {
            lemma_first_claimable_props(pre.tasks, now);
            assert(task@ == pre.tasks[i].row);
            assert(self@.tasks == pre.tasks.update(
                i,
                TaskView { claimed: true, ..pre.tasks[i] },
            ));
            assert(task_matches(self@.tasks[i], task.newsletter_issue_id, task.subscriber_email@));
            self.lemma_found_is_task_index(
                task.newsletter_issue_id,
                task.subscriber_email@,
                i,
            );
        }
        let valid_address = validate_email_text(task.subscriber_email.as_str());
        if !valid_address {
            self.delete_task(&task);
            proof {
                assert(self@.tasks =~= pre.tasks.remove(i));
                assert(self@ =~= step_transition(
                    pre,
                    now,
                    send_succeeds,
                    retries_limit,
                    retry_wait_seconds,
                ).0);
            }
            ExecutionOutput::TaskCompleted
        } else if send_succeeds {
            self.delete_task(&task);
            proof {
                assert(self@.tasks =~= pre.tasks.remove(i));
                assert(self@ =~= step_transition(
                    pre,
                    now,
                    send_succeeds,
                    retries_limit,
                    retry_wait_seconds,
                ).0);
            }
            ExecutionOutput::TaskCompleted
        } else if (task.n_retries as u32) + 1 >= (retries_limit as u32) {
            self.delete_task(&task);
            proof {
                assert(self@.tasks =~= pre.tasks.remove(i));
                assert(self@ =~= step_transition(
                    pre,
                    now,
                    send_succeeds,
                    retries_limit,
                    retry_wait_seconds,
                ).0);
            }
            ExecutionOutput::TaskCompleted
        } else {
            let ghost mid = self@;
            proof {
                assert(retried_task(mid.tasks[i], retry_wait_seconds) =~= retried_task(
                    pre.tasks[i],
                    retry_wait_seconds,
                ));
            }
            self.schedule_next_retry(&task, retry_wait_seconds);
            proof {
                assert(self@.tasks =~= pre.tasks.update(
                    i,
                    retried_task(pre.tasks[i], retry_wait_seconds),
                ));
                assert(self@ =~= step_transition(
                    pre,
                    now,
                    send_succeeds,
                    retries_limit,
                    retry_wait_seconds,
                ).0);
            }
            ExecutionOutput::RetryLater
        }
    }
}


/// Concurrent workers never attempt the same task simultaneously: a
/// second claim made while the first is still held hands out a different
/// (issue, recipient) pair, because the first task's row stays locked
/// until its resolve step.
pub proof fn lemma_claims_are_disjoint(tasks: Seq<TaskView>, now1: i64, now2: i64)
    requires
        unique_tasks(tasks),
        claim_transition(tasks, now1).1 is Some,
        claim_transition(claim_transition(tasks, now1).0, now2).1 is Some,
    ensures
        ({
            let (tasks1, r1) = claim_transition(tasks, now1);
            let (tasks2, r2) = claim_transition(tasks1, now2);
            let i1 = match r1 { Some(i) => i, None => 0 };
            let i2 = match r2 { Some(i) => i, None => 0 };
            &&& i1 != i2
            &&& !(tasks1[i2].row.newsletter_issue_id == tasks[i1].row.newsletter_issue_id
                && tasks1[i2].row.subscriber_email == tasks[i1].row.subscriber_email)
        }),
{
    let (tasks1, r1) = claim_transition(tasks, now1);
    let (tasks2, r2) = claim_transition(tasks1, now2);
    lemma_first_claimable_props(tasks, now1);
    lemma_first_claimable_props(tasks1, now2);
    let i1 = match r1 { Some(i) => i, None => 0 };
    let i2 = match r2 { Some(i) => i, None => 0 };
    assert(tasks1[i1].claimed);
    assert(claimable(tasks1[i2], now2));
    assert(i1 != i2);
    assert(tasks1[i2] == tasks[i2]);
    assert(!(tasks[i2].row.newsletter_issue_id == tasks[i1].row.newsletter_issue_id
        && tasks[i2].row.subscriber_email == tasks[i1].row.subscriber_email));
}

/// Worker steps never resurrect or invent work: every task present after
/// a step was already queued, as the same (issue, recipient) pair, before
/// it.
pub proof fn lemma_step_adds_no_task(
    st: StoreView,
    now: i64,
    send_succeeds: bool,
    retries_limit: u16,
    retry_wait_seconds: u16,
)
    ensures
        ({
            let st2 = step_transition(st, now, send_succeeds, retries_limit,
                retry_wait_seconds).0;
            forall|k: int|
                0 <= k < st2.tasks.len() ==> has_task(
                    st.tasks,
                    (#[trigger] st2.tasks[k]).row.newsletter_issue_id,
                    st2.tasks[k].row.subscriber_email,
                )
        }),
{
    lemma_first_claimable_props(st.tasks, now);
    let st2 = step_transition(st, now, send_succeeds, retries_limit, retry_wait_seconds).0;
    match first_claimable(st.tasks, now) {
        None => {
            assert forall|k: int| 0 <= k < st2.tasks.len() implies has_task(
                st.tasks,
                (#[trigger] st2.tasks[k]).row.newsletter_issue_id,
                st2.tasks[k].row.subscriber_email,
            ) by {
                assert(task_matches(st.tasks[k], st2.tasks[k].row.newsletter_issue_id,
                    st2.tasks[k].row.subscriber_email));
            }
        },
        Some(i) => {
            assert forall|k: int| 0 <= k < st2.tasks.len() implies has_task(
                st.tasks,
                (#[trigger] st2.tasks[k]).row.newsletter_issue_id,
                st2.tasks[k].row.subscriber_email,
            ) by {
                if st2.tasks.len() == st.tasks.len() {
                    // the step rescheduled the claimed task in place
                    assert(task_matches(st.tasks[k], st2.tasks[k].row.newsletter_issue_id,
                        st2.tasks[k].row.subscriber_email));
                } else {
                    // the step removed the claimed task
                    let k0 = if k < i { k } else { k + 1 };
                    assert(st2.tasks[k] == st.tasks[k0]);
                    assert(task_matches(st.tasks[k0], st2.tasks[k].row.newsletter_issue_id,
                        st2.tasks[k].row.subscriber_email));
                }
            }
        },
    }
}

/// The retry budget is never exceeded: when every queued task has been
/// attempted fewer than `retries_limit` times, that still holds after any
/// worker step, whatever the send outcome.
pub proof fn lemma_retry_counts_stay_below_limit(
    st: StoreView,
    now: i64,
    send_succeeds: bool,
    retries_limit: u16,
    retry_wait_seconds: u16,
)
    requires
        retries_limit >= 1,
        forall|k: int|
            0 <= k < st.tasks.len() ==> (#[trigger] st.tasks[k]).row.n_retries < retries_limit,
    ensures
        ({
            let st2 = step_transition(st, now, send_succeeds, retries_limit,
                retry_wait_seconds).0;
            forall|k: int|
                0 <= k < st2.tasks.len() ==> (#[trigger] st2.tasks[k]).row.n_retries
                    < retries_limit
        }),
{
    lemma_first_claimable_props(st.tasks, now);
    let st2 = step_transition(st, now, send_succeeds, retries_limit, retry_wait_seconds).0;
    match first_claimable(st.tasks, now) {
        None => {},
        Some(i) => {
            assert forall|k: int| 0 <= k < st2.tasks.len() implies (#[trigger] st2.tasks[k])
                .row.n_retries < retries_limit by {
                if st2.tasks.len() == st.tasks.len() {
                    if k != i {
                        assert(st2.tasks[k] == st.tasks[k]);
                    }
                } else {
                    let k0 = if k < i { k } else { k + 1 };
                    assert(st2.tasks[k] == st.tasks[k0]);
                }
            }
        },
    }
}

/// A task that has exhausted its retry budget and fails again is
/// abandoned: the step deletes it, so no later attempt on it is possible.
pub proof fn lemma_exhausted_task_abandoned(
    st: StoreView,
    now: i64,
    retries_limit: u16,
    retry_wait_seconds: u16,
)
    requires
        unique_tasks(st.tasks),
        claim_transition(st.tasks, now).1 is Some,
        ({
            let i = match claim_transition(st.tasks, now).1 { Some(i) => i, None => 0 };
            st.tasks[i].row.n_retries as int + 1 >= retries_limit as int
        }),
    ensures
        ({
            let i = match claim_transition(st.tasks, now).1 { Some(i) => i, None => 0 };
            let (st2, outcome) = step_transition(st, now, false, retries_limit,
                retry_wait_seconds);
            &&& outcome is TaskCompleted
            &&& !has_task(
                st2.tasks,
                st.tasks[i].row.newsletter_issue_id,
                st.tasks[i].row.subscriber_email,
            )
        }),
{
    lemma_first_claimable_props(st.tasks, now);
    let i = match claim_transition(st.tasks, now).1 { Some(i) => i, None => 0 };
    let (st2, outcome) = step_transition(st, now, false, retries_limit, retry_wait_seconds);
    assert(st2.tasks == st.tasks.remove(i));
    assert forall|k: int| 0 <= k < st2.tasks.len() implies !task_matches(
        st2.tasks[k],
        st.tasks[i].row.newsletter_issue_id,
        st.tasks[i].row.subscriber_email,
    ) by {
        let k0 = if k < i { k } else { k + 1 };
        assert(st2.tasks[k] == st.tasks[k0]);
        assert(!(st.tasks[k0].row.newsletter_issue_id == st.tasks[i].row.newsletter_issue_id
            && st.tasks[k0].row.subscriber_email == st.tasks[i].row.subscriber_email));
    }
}

/// How a step changes the queue's size: completing a task removes exactly
/// one row; rescheduling and an empty claim leave the count unchanged.
pub proof fn lemma_step_task_count(
    st: StoreView,
    now: i64,
    send_succeeds: bool,
    retries_limit: u16,
    retry_wait_seconds: u16,
)
    ensures
        ({
            let (st2, outcome) = step_transition(st, now, send_succeeds, retries_limit,
                retry_wait_seconds);
            match outcome {
                ExecutionOutput::TaskCompleted => st2.tasks.len() == st.tasks.len() - 1,
                ExecutionOutput::NoAvaliableTask => st2 == st,
                ExecutionOutput::RetryLater => st2.tasks.len() == st.tasks.len(),
            }
        }),
{
    lemma_first_claimable_props(st.tasks, now);
}

/// The store after `k` worker iterations, each seeing the same clock and
/// a provider that accepts every send.
pub open spec fn drained(
    st: StoreView,
    now: i64,
    retries_limit: u16,
    retry_wait_seconds: u16,
    k: nat,
) -> StoreView
    decreases k,
{
    if k == 0 {
        st
    } else {
        step_transition(
            drained(st, now, retries_limit, retry_wait_seconds, (k - 1) as nat),
            now,
            true,
            retries_limit,
            retry_wait_seconds,
        ).0
    }
}

/// Is every queued task eligible, unclaimed and validly addressed?
pub open spec fn all_tasks_deliverable(st: StoreView, now: i64) -> bool {
    forall|k: int|
        0 <= k < st.tasks.len() ==> {
            let t = #[trigger] st.tasks[k];
            !t.claimed && t.row.execute_after < now && email_accepted(t.row.subscriber_email)
        }
}

/// One step of a full drain: with every task deliverable and the provider
/// accepting, a step completes exactly one task and leaves the rest
/// deliverable.
pub proof fn lemma_drain_step(
    st: StoreView,
    now: i64,
    retries_limit: u16,
    retry_wait_seconds: u16,
)
    requires
        all_tasks_deliverable(st, now),
        st.tasks.len() > 0,
    ensures
        ({
            let (st2, outcome) = step_transition(st, now, true, retries_limit,
                retry_wait_seconds);
            &&& outcome is TaskCompleted
            &&& st2.tasks.len() == st.tasks.len() - 1
            &&& all_tasks_deliverable(st2, now)
        }),
{
    assert(claimable(st.tasks[0], now));
    let (st2, outcome) = step_transition(st, now, true, retries_limit, retry_wait_seconds);
    assert(st2.tasks == st.tasks.remove(0));
    assert forall|k: int| 0 <= k < st2.tasks.len() implies {
        let t = #[trigger] st2.tasks[k];
        !t.claimed && t.row.execute_after < now && email_accepted(t.row.subscriber_email)
    } by {
        assert(st2.tasks[k] == st.tasks[k + 1]);
    }
}

/// Full drain: a queue of `n` deliverable tasks is empty after `n`
/// iterations with an accepting provider, and every one of those
/// iterations completes exactly one task, so exactly `n` sends are
/// attempted in all.
pub proof fn lemma_full_drain(
    st: StoreView,
    now: i64,
    retries_limit: u16,
    retry_wait_seconds: u16,
    m: nat,
)
    requires
        all_tasks_deliverable(st, now),
        m <= st.tasks.len(),
    ensures
        drained(st, now, retries_limit, retry_wait_seconds, m).tasks.len() == st.tasks.len()
            - m,
        all_tasks_deliverable(drained(st, now, retries_limit, retry_wait_seconds, m), now),
        m < st.tasks.len() ==> step_transition(
            drained(st, now, retries_limit, retry_wait_seconds, m),
            now,
            true,
            retries_limit,
            retry_wait_seconds,
        ).1 is TaskCompleted,
    decreases m,
{
    if m > 0 {
        lemma_full_drain(st, now, retries_limit, retry_wait_seconds, (m - 1) as nat);
        lemma_drain_step(
            drained(st, now, retries_limit, retry_wait_seconds, (m - 1) as nat),
            now,
            retries_limit,
            retry_wait_seconds,
        );
    }
    if m < st.tasks.len() {
        lemma_drain_step(
            drained(st, now, retries_limit, retry_wait_seconds, m),
            now,
            retries_limit,
            retry_wait_seconds,
        );
    }
}


/// The retry policy's terminal test: after one more failed attempt a task
/// with `n_retries` recorded attempts has reached the configured limit
/// and must be abandoned rather than rescheduled.
pub fn should_abandon(n_retries: u16, retries_limit: u16) -> (r: bool)
    ensures
        r == (n_retries as int + 1 >= retries_limit as int),
{
    (n_retries as u32) + 1 >= (retries_limit as u32)
}

/// The retry policy's backoff rule: the next eligibility time after a
/// failed attempt, pushed out by the configured wait.
pub fn next_execute_after(execute_after: i64, retry_wait_seconds: u16) -> (r: i64)
    ensures
        r == push_out(execute_after, retry_wait_seconds),
{
    if execute_after <= i64::MAX - (retry_wait_seconds as i64) {
        execute_after + (retry_wait_seconds as i64)
    } else {
        i64::MAX
    }
}


/// One worker iteration's inputs: the clock it sees and whether the
/// provider would accept its send.
#[verifier::ext_equal]
pub ghost struct StepInput {
    pub now: i64,
    pub send_succeeds: bool,
}

/// The store after a run of worker iterations with the given inputs.
pub open spec fn run_steps(
    st: StoreView,
    inputs: Seq<StepInput>,
    retries_limit: u16,
    retry_wait_seconds: u16,
) -> StoreView
    decreases inputs.len(),
{
    if inputs.len() == 0 {
        st
    } else {
        run_steps(
            step_transition(st, inputs[0].now, inputs[0].send_succeeds, retries_limit,
                retry_wait_seconds).0,
            inputs.skip(1),
            retries_limit,
            retry_wait_seconds,
        )
    }
}

/// How many iterations of a run end a task for good (delivered, skipped
/// as malformed, or abandoned at the retry limit).
pub open spec fn completed_count(
    st: StoreView,
    inputs: Seq<StepInput>,
    retries_limit: u16,
    retry_wait_seconds: u16,
) -> int
    decreases inputs.len(),
{
    if inputs.len() == 0 {
        0
    } else {
        let (st2, outcome) = step_transition(st, inputs[0].now, inputs[0].send_succeeds,
            retries_limit, retry_wait_seconds);
        (if outcome is TaskCompleted {
            1int
        } else {
            0int
        }) + completed_count(st2, inputs.skip(1), retries_limit, retry_wait_seconds)
    }
}

/// Terminal outcomes are conserved: over any run of worker iterations,
/// whatever each one's clock and send outcome, the number of tasks that
/// reach a terminal state equals the number of tasks that left the
/// queue.  In particular, a run that empties a queue of `n` tasks ends
/// exactly `n` of them — each delivered or permanently abandoned, never
/// lost and never duplicated.
pub proof fn lemma_run_conserves_tasks(
    st: StoreView,
    inputs: Seq<StepInput>,
    retries_limit: u16,
    retry_wait_seconds: u16,
)
    ensures
        completed_count(st, inputs, retries_limit, retry_wait_seconds) == st.tasks.len()
            - run_steps(st, inputs, retries_limit, retry_wait_seconds).tasks.len(),
    decreases inputs.len(),
{
    if inputs.len() > 0 {
        let (st2, _) = step_transition(st, inputs[0].now, inputs[0].send_succeeds,
            retries_limit, retry_wait_seconds);
        lemma_step_task_count(st, inputs[0].now, inputs[0].send_succeeds, retries_limit,
            retry_wait_seconds);
        lemma_run_conserves_tasks(st2, inputs.skip(1), retries_limit, retry_wait_seconds);
    }
}


/// The loop-level half of the retry/backoff policy: between iterations a
/// worker sleeps ten seconds when the queue had no eligible task, two
/// seconds after an unexpected failure (no outcome, such as a storage
/// error during claim or resolve), and not at all after completing or
/// rescheduling a task.
pub fn work_loop_backoff_seconds(outcome: &Option<ExecutionOutput>) -> (r: u64)
    ensures
        r == (match outcome {
            None => 2int,
            Some(o) => if o is NoAvaliableTask {
                10int
            } else {
                0int
            },
        }),
{
    match outcome {
        None => 2,
        Some(ExecutionOutput::NoAvaliableTask) => 10,
        Some(ExecutionOutput::TaskCompleted) => 0,
        Some(ExecutionOutput::RetryLater) => 0,
    }
}

} // verus!
