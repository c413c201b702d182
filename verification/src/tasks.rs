//! Background task bookkeeping: the registry of submitted tasks, their
//! lifecycle transitions, and garbage collection of finished tasks.
//!
//! Workers that actually run tasks live outside the library; every
//! state transition they need is a verified method here.

use vstd::prelude::*;

use crate::error::{AstraError, AstraErrorV};
use crate::types::{OperationType, SyncOperation, SyncOperationV, SyncResult, SyncResultV};

verus! {

/// The lifecycle state of a background task.
#[derive(Clone, Debug)]
pub enum TaskStatus {
    Pending,
    Running,
    Completed,
    Failed(String),
}

/// Mathematical view of a `TaskStatus`.
pub ghost enum TaskStatusV {
    Pending,
    Running,
    Completed,
    Failed(Seq<char>),
}

impl View for TaskStatus {
    type V = TaskStatusV;

    open spec fn view(&self) -> TaskStatusV {
        match self {
            TaskStatus::Pending => TaskStatusV::Pending,
            TaskStatus::Running => TaskStatusV::Running,
            TaskStatus::Completed => TaskStatusV::Completed,
            TaskStatus::Failed(m) => TaskStatusV::Failed(m@),
        }
    }
}

/// A task status that no transition ever leaves.
pub open spec fn is_terminal(s: TaskStatusV) -> bool {
    s is Completed || s is Failed
}

/// What a background task is asked to do.
#[derive(Clone, Debug)]
pub enum TaskType {
    FullSync,
    FileUpload { local_path: String, remote_path: String },
    FileDownload { remote_path: String, local_path: String },
    CustomOperations { operations: Vec<SyncOperation> },
}

/// Mathematical view of a `TaskType`.
pub ghost enum TaskTypeV {
    FullSync,
    FileUpload { local_path: Seq<char>, remote_path: Seq<char> },
    FileDownload { remote_path: Seq<char>, local_path: Seq<char> },
    CustomOperations { operations: Seq<SyncOperationV> },
}

impl View for TaskType {
    type V = TaskTypeV;

    open spec fn view(&self) -> TaskTypeV {
        match self {
            TaskType::FullSync => TaskTypeV::FullSync,
            TaskType::FileUpload { local_path, remote_path } => TaskTypeV::FileUpload {
                local_path: local_path@,
                remote_path: remote_path@,
            },
            TaskType::FileDownload { remote_path, local_path } => TaskTypeV::FileDownload {
                remote_path: remote_path@,
                local_path: local_path@,
            },
            TaskType::CustomOperations { operations } => TaskTypeV::CustomOperations {
                operations: operations@.map_values(|o: SyncOperation| o@),
            },
        }
    }
}

/// One submitted task: identity, request, lifecycle state and result.
#[derive(Clone, Debug)]
pub struct BackgroundTask {
    pub id: u64,
    pub task_type: TaskType,
    pub status: TaskStatus,
    pub created_at: u64,
    pub updated_at: u64,
    pub result: Option<SyncResult>,
}

/// Mathematical view of a `BackgroundTask`.
pub ghost struct BackgroundTaskV {
    pub id: u64,
    pub task_type: TaskTypeV,
    pub status: TaskStatusV,
    pub created_at: u64,
    pub updated_at: u64,
    pub result: Option<SyncResultV>,
}

impl View for BackgroundTask {
    type V = BackgroundTaskV;

    open spec fn view(&self) -> BackgroundTaskV {
        BackgroundTaskV {
            id: self.id,
            task_type: self.task_type@,
            status: self.status@,
            created_at: self.created_at,
            updated_at: self.updated_at,
            result: match self.result {
                Some(r) => Some(r@),
                None => None,
            },
        }
    }
}

/// The views of a list of tasks.
pub open spec fn tasks_of(s: Seq<BackgroundTask>) -> Seq<BackgroundTaskV> {
    s.map_values(|t: BackgroundTask| t@)
}

/// Does the registry hold a task with this identity?
pub open spec fn has_task(s: Seq<BackgroundTaskV>, id: u64) -> bool {
    exists|j: int| 0 <= j < s.len() && s[j].id == id
}

/// The task with this identity (meaningful when present and unique).
pub open spec fn task_at(s: Seq<BackgroundTaskV>, id: u64) -> BackgroundTaskV {
    s[choose|j: int| 0 <= j < s.len() && s[j].id == id]
}

/// Task identities are pairwise distinct.
pub open spec fn unique_ids(s: Seq<BackgroundTaskV>) -> bool {
    forall|i: int, j: int| 0 <= i < j < s.len() ==> s[i].id != s[j].id
}

/// With unique identities, any task whose identity matches is the task
/// that `task_at` denotes.
pub proof fn lemma_task_at(s: Seq<BackgroundTaskV>, id: u64, j: int)
    requires
        unique_ids(s),
        0 <= j < s.len(),
        s[j].id == id,
    ensures
        has_task(s, id),
        task_at(s, id) == s[j],
{
    assert(has_task(s, id));
    let k = choose|k: int| 0 <= k < s.len() && s[k].id == id;
    if k != j {
        if k < j {
            assert(s[k].id != s[j].id);
        } else {
            assert(s[j].id != s[k].id);
        }
    }
}

/// Is a task kept by garbage collection? Pending and Running tasks are
/// always kept; a terminal task is kept while its age is below the
/// threshold.
pub open spec fn spec_keep_task(t: BackgroundTaskV, now: u64, max_age: u64) -> bool {
    !is_terminal(t.status) || (if now >= t.updated_at {
        now - t.updated_at
    } else {
        0
    }) < max_age
}

/// The registry after garbage collection, in original order.
pub open spec fn spec_cleanup(s: Seq<BackgroundTaskV>, now: u64, max_age: u64)
    -> Seq<BackgroundTaskV>
    decreases s.len(),
{
    if s.len() == 0 {
        Seq::empty()
    } else {
        spec_cleanup(s.drop_last(), now, max_age) + (if spec_keep_task(s.last(), now, max_age) {
            seq![s.last()]
        } else {
            Seq::empty()
        })
    }
}

/// The registry of background tasks. Identities are assigned here,
/// increasing from zero, and are never reused.
pub struct TaskManager {
    pub tasks: Vec<BackgroundTask>,
    pub next_id: u64,
}

impl TaskManager {
    /// Identities are unique and below the next free identity.
    pub open spec fn wf(&self) -> bool {
        &&& unique_ids(tasks_of(self.tasks@))
        &&& forall|i: int| 0 <= i < self.tasks@.len() ==> (#[trigger] tasks_of(
            self.tasks@)[i]).id < self.next_id
    }

    /// An empty registry.
    pub fn new() -> (r: Self)
        ensures
            r.wf(),
            r.tasks@.len() == 0,
            r.next_id == 0,
    {
        let r = TaskManager { tasks: Vec::new(), next_id: 0 };
        proof {
            assert(tasks_of(r.tasks@) =~= Seq::<BackgroundTaskV>::empty());
        }
        r
    }

    /// Find the position of the task with this identity.
    fn find_index(&self, task_id: u64) -> (r: Option<usize>)
        ensures
            match r {
                Some(i) => i < self.tasks@.len() && tasks_of(self.tasks@)[i as int].id
                    == task_id,
                None => !has_task(tasks_of(self.tasks@), task_id),
            },
    {
        let n = self.tasks.len();
        let mut i: usize = 0;
        while i < n
            invariant
                n == self.tasks@.len(),
                i <= n,
                forall|j: int| 0 <= j < i ==> tasks_of(self.tasks@)[j].id != task_id,
            decreases n - i,
        {
            if self.tasks[i].id == task_id {
                assert(tasks_of(self.tasks@)[i as int].id == task_id);
                return Some(i);
            }
            assert(tasks_of(self.tasks@)[i as int].id != task_id);
            i += 1;
        }
        None
    }

    /// Accept a task: assign it the next identity and store it as
    /// Pending. Submission does not run anything.
    pub fn submit_task(&mut self, task_type: TaskType, now: u64) -> (id: u64)
        requires
            old(self).wf(),
            old(self).next_id < u64::MAX,
        ensures
            final(self).wf(),
            id == old(self).next_id,
            final(self).next_id == old(self).next_id + 1,
            tasks_of(final(self).tasks@) =~= tasks_of(old(self).tasks@).push(
                BackgroundTaskV {
                    id,
                    task_type: task_type@,
                    status: TaskStatusV::Pending,
                    created_at: now,
                    updated_at: now,
                    result: None,
                },
            ),
    {
        let id = self.next_id;
        let task = BackgroundTask {
            id,
            task_type,
            status: TaskStatus::Pending,
            created_at: now,
            updated_at: now,
            result: None,
        };
        self.tasks.push(task);
        self.next_id = id + 1;
        proof {
            let news = tasks_of(self.tasks@);
            let olds = tasks_of(old(self).tasks@);
            assert(news =~= olds.push(BackgroundTaskV {
                id,
                task_type: task_type@,
                status: TaskStatusV::Pending,
                created_at: now,
                updated_at: now,
                result: None,
            }));
            assert forall|i: int| 0 <= i < self.tasks@.len() implies (#[trigger] news[i]).id
                < self.next_id by {
                if i < olds.len() {
                    assert(news[i] == olds[i]);
                }
            }
        }
        id
    }

    /// The current record of one task, if it exists.
    pub fn get_task_status(&self, task_id: u64) -> (r: Option<&BackgroundTask>)
        requires
            self.wf(),
        ensures
            match r {
                Some(t) => has_task(tasks_of(self.tasks@), task_id) && task_at(tasks_of(
                    self.tasks@), task_id) == t@,
                None => !has_task(tasks_of(self.tasks@), task_id),
            },
    {
        match self.find_index(task_id) {
            Some(i) => {
                proof {
                    lemma_task_at(tasks_of(self.tasks@), task_id, i as int);
                }
                Some(&self.tasks[i])
            },
            None => None,
        }
    }

    /// All task records, in submission order.
    pub fn get_all_tasks(&self) -> (r: &Vec<BackgroundTask>)
        ensures
            r == &self.tasks,
    {
        &self.tasks
    }

    /// Mark a Pending task Running. A task in any other state — in
    /// particular a terminal one — is left untouched.
    pub fn mark_running(&mut self, task_id: u64, now: u64) -> (r: bool)
        requires
            old(self).wf(),
        ensures
            final(self).wf(),
            final(self).next_id == old(self).next_id,
            r == (has_task(tasks_of(old(self).tasks@), task_id) && task_at(tasks_of(old(
                self).tasks@), task_id).status is Pending),
            has_task(tasks_of(old(self).tasks@), task_id) && is_terminal(task_at(tasks_of(
                old(self).tasks@), task_id).status) ==> final(self).tasks@ == old(
                self).tasks@,
            r ==> tasks_of(final(self).tasks@) =~= tasks_of(old(self).tasks@).update(
                choose|j: int| 0 <= j < tasks_of(old(self).tasks@).len() && tasks_of(old(
                    self).tasks@)[j].id == task_id,
                BackgroundTaskV {
                    status: TaskStatusV::Running,
                    updated_at: now,
                    ..task_at(tasks_of(old(self).tasks@), task_id)
                },
            ),
            !r ==> final(self).tasks@ == old(self).tasks@,
    {
        let ghost olds = tasks_of(self.tasks@);
        match self.find_index(task_id) {
            Some(i) => {
                proof {
                    lemma_task_at(olds, task_id, i as int);
                }
                let is_pending = match &self.tasks[i].status {
                    TaskStatus::Pending => true,
                    _ => false,
                };
                if is_pending {
                    let mut task = self.tasks.remove(i);
                    task.status = TaskStatus::Running;
                    task.updated_at = now;
                    self.tasks.insert(i, task);
                    proof {
                        let news = tasks_of(self.tasks@);
                        assert(news =~= olds.update(i as int, BackgroundTaskV {
                            status: TaskStatusV::Running,
                            updated_at: now,
                            ..task_at(olds, task_id)
                        }));
                        let j = choose|j: int| 0 <= j < olds.len() && olds[j].id == task_id;
                        assert(j == i as int) by {
                            if j != i as int {
                                assert(olds[j].id != olds[i as int].id);
                            }
                        }
                        assert forall|a: int, b: int| 0 <= a < b < news.len() implies news[a].id
                            != news[b].id by {
                            assert(news[a].id == olds[a].id);
                            assert(news[b].id == olds[b].id);
                        }
                        assert forall|a: int| 0 <= a < news.len() implies (
                            #[trigger] news[a]).id < self.next_id by {
                            assert(news[a].id == olds[a].id);
                        }
                    }
                    true
                } else {
                    false
                }
            },
            None => false,
        }
    }

    /// Record the outcome of a Running task: Completed with its result,
    /// or Failed with the error text. This is the single terminal
    /// write; a task in any other state — in particular one already
    /// terminal — is left untouched.
    pub fn finish_task(&mut self, task_id: u64, outcome: Result<SyncResult, String>, now: u64)
        -> (r: bool)
        requires
            old(self).wf(),
        ensures
            final(self).wf(),
            final(self).next_id == old(self).next_id,
            r == (has_task(tasks_of(old(self).tasks@), task_id) && task_at(tasks_of(old(
                self).tasks@), task_id).status is Running),
            has_task(tasks_of(old(self).tasks@), task_id) && is_terminal(task_at(tasks_of(
                old(self).tasks@), task_id).status) ==> final(self).tasks@ == old(
                self).tasks@,
            r ==> tasks_of(final(self).tasks@) =~= tasks_of(old(self).tasks@).update(
                choose|j: int| 0 <= j < tasks_of(old(self).tasks@).len() && tasks_of(old(
                    self).tasks@)[j].id == task_id,
                (match outcome {
                    Ok(res) => BackgroundTaskV {
                        status: TaskStatusV::Completed,
                        updated_at: now,
                        result: Some(res@),
                        ..task_at(tasks_of(old(self).tasks@), task_id)
                    },
                    Err(msg) => BackgroundTaskV {
                        status: TaskStatusV::Failed(msg@),
                        updated_at: now,
                        ..task_at(tasks_of(old(self).tasks@), task_id)
                    },
                }),
            ),
            !r ==> final(self).tasks@ == old(self).tasks@,
    {
        let ghost olds = tasks_of(self.tasks@);
        match self.find_index(task_id) {
            Some(i) => {
                proof {
                    lemma_task_at(olds, task_id, i as int);
                }
                let is_running = match &self.tasks[i].status {
                    TaskStatus::Running => true,
                    _ => false,
                };
                if is_running {
                    let ghost outcomev: Result<SyncResultV, Seq<char>> = (match &outcome {
                        Ok(res) => Ok(res@),
                        Err(msg) => Err(msg@),
                    });
                    let ghost target = (match outcomev {
                        Ok(resv) => BackgroundTaskV {
                            status: TaskStatusV::Completed,
                            updated_at: now,
                            result: Some(resv),
                            ..task_at(olds, task_id)
                        },
                        Err(msgv) => BackgroundTaskV {
                            status: TaskStatusV::Failed(msgv),
                            updated_at: now,
                            ..task_at(olds, task_id)
                        },
                    });
                    let mut task = self.tasks.remove(i);
                    match outcome {
                        Ok(res) => {
                            task.status = TaskStatus::Completed;
                            task.result = Some(res);
                        },
                        Err(msg) => {
                            task.status = TaskStatus::Failed(msg);
                        },
                    }
                    task.updated_at = now;
                    self.tasks.insert(i, task);
                    proof {
                        let news = tasks_of(self.tasks@);
                        assert(news =~= olds.update(i as int, target));
                        let j = choose|j: int| 0 <= j < olds.len() && olds[j].id == task_id;
                        assert(j == i as int) by {
                            if j != i as int {
                                assert(olds[j].id != olds[i as int].id);
                            }
                        }
                        assert forall|a: int, b: int| 0 <= a < b < news.len() implies news[a].id
                            != news[b].id by {
                            assert(news[a].id == olds[a].id);
                            assert(news[b].id == olds[b].id);
                        }
                        assert forall|a: int| 0 <= a < news.len() implies (
                            #[trigger] news[a]).id < self.next_id by {
                            assert(news[a].id == olds[a].id);
                        }
                    }
                    true
                } else {
                    false
                }
            },
            None => false,
        }
    }

    /// Evict terminal tasks older than the threshold. Pending and
    /// Running tasks are never evicted, whatever their age.
    pub fn cleanup_old_tasks(&mut self, now: u64, max_age: u64)
        requires
            old(self).wf(),
        ensures
            final(self).wf(),
            final(self).next_id == old(self).next_id,
            tasks_of(final(self).tasks@) == spec_cleanup(tasks_of(old(self).tasks@), now,
                max_age),
    {
        let ghost oldraw = self.tasks@;
        let ghost olds = tasks_of(self.tasks@);
        let mut kept: Vec<BackgroundTask> = Vec::new();
        let n = self.tasks.len();
        let mut i: usize = 0;
        proof {
            assert(tasks_of(kept@) =~= Seq::<BackgroundTaskV>::empty());
            assert(self.tasks@ =~= oldraw.skip(0));
        }
        proof {
            assert(forall|i: int| 0 <= i < olds.len() ==> (#[trigger] olds[i]).id
                < self.next_id);
        }
        while i < n
            invariant
                olds == tasks_of(oldraw),
                n == oldraw.len(),
                i <= n,
                self.next_id == old(self).next_id,
                unique_ids(olds),
                forall|j: int| 0 <= j < olds.len() ==> (#[trigger] olds[j]).id < self.next_id,
                self.tasks@ =~= oldraw.skip(i as int),
                tasks_of(kept@) == spec_cleanup(olds.take(i as int), now, max_age),
            decreases n - i,
        {
            let t = self.tasks.remove(0);
            proof {
                assert(oldraw.skip(i as int)[0] == oldraw[i as int]);
                assert(t@ == olds[i as int]);
                assert(self.tasks@ =~= oldraw.skip(i as int + 1));
            }
            let keep: bool = match &t.status {
                TaskStatus::Pending => true,
                TaskStatus::Running => true,
                _ => {
                    let age: u64 = if now >= t.updated_at {
                        now - t.updated_at
                    } else {
                        0
                    };
                    age < max_age
                },
            };
            assert(keep == spec_keep_task(olds[i as int], now, max_age));
            if keep {
                kept.push(t);
            }
            i += 1;
            proof {
                assert(olds.take(i as int).drop_last() =~= olds.take(i as int - 1));
                assert(olds.take(i as int).last() == olds[i as int - 1]);
                assert(tasks_of(kept@) =~= spec_cleanup(olds.take(i as int), now, max_age));
            }
        }
        proof {
            assert(olds.take(n as int) =~= olds);
        }
        self.tasks = kept;
        proof {
            lemma_cleanup_wf(olds, now, max_age, self.next_id);
        }
    }
}

/// The paths a batch of explicit operations reports as transferred:
/// the local path of each upload or download, other kinds skipped.
pub open spec fn spec_custom_transfer_paths(ops: Seq<SyncOperationV>) -> Seq<Seq<char>>
    decreases ops.len(),
{
    if ops.len() == 0 {
        Seq::empty()
    } else {
        spec_custom_transfer_paths(ops.drop_last()) + (if ops.last().operation_type
            == OperationType::Upload || ops.last().operation_type == OperationType::Download {
            seq![ops.last().local_path]
        } else {
            Seq::empty()
        })
    }
}

/// What executing a task yields: a full sync cannot run without a
/// configuration; single transfers and explicit batches report the
/// paths they concern.
pub open spec fn spec_execute_task(t: TaskTypeV) -> Result<SyncResultV, AstraErrorV> {
    match t {
        TaskTypeV::FullSync => Err(
            AstraErrorV::TaskError(
                "Full sync requires configuration - not implemented for background tasks yet"@,
            ),
        ),
        TaskTypeV::FileUpload { local_path, remote_path } => Ok(
            SyncResultV {
                success: true,
                message: "File upload completed"@,
                files_transferred: seq![local_path],
                files_skipped: Seq::empty(),
                errors: Seq::empty(),
            },
        ),
        TaskTypeV::FileDownload { remote_path, local_path } => Ok(
            SyncResultV {
                success: true,
                message: "File download completed"@,
                files_transferred: seq![local_path],
                files_skipped: Seq::empty(),
                errors: Seq::empty(),
            },
        ),
        TaskTypeV::CustomOperations { operations } => Ok(
            SyncResultV {
                success: true,
                message: "Custom operations completed"@,
                files_transferred: spec_custom_transfer_paths(operations),
                files_skipped: Seq::empty(),
                errors: Seq::empty(),
            },
        ),
    }
}

impl TaskManager {
    /// Decide the outcome of a task.
    pub fn execute_task(task: &BackgroundTask) -> (r: Result<SyncResult, AstraError>)
        ensures
            match r {
                Ok(s) => spec_execute_task(task@.task_type) == Ok::<SyncResultV, AstraErrorV>(
                    s@),
                Err(e) => spec_execute_task(task@.task_type) == Err::<SyncResultV,
                    AstraErrorV>(e@),
            },
    {
        match &task.task_type {
            TaskType::FullSync => Err(
                AstraError::TaskError(
                    String::from_str(
                        "Full sync requires configuration - not implemented for background tasks yet",
                    ),
                ),
            ),
            TaskType::FileUpload { local_path, remote_path: _ } => {
                let mut transferred: Vec<String> = Vec::new();
                transferred.push(local_path.clone());
                let r = SyncResult {
                    success: true,
                    message: String::from_str("File upload completed"),
                    files_transferred: transferred,
                    files_skipped: Vec::new(),
                    errors: Vec::new(),
                };
                proof {
                    assert(r@.files_transferred =~= seq![local_path@]);
                    assert(r@.files_skipped =~= Seq::<Seq<char>>::empty());
                    assert(r@.errors =~= Seq::<Seq<char>>::empty());
                }
                Ok(r)
            },
            TaskType::FileDownload { remote_path: _, local_path } => {
                let mut transferred: Vec<String> = Vec::new();
                transferred.push(local_path.clone());
                let r = SyncResult {
                    success: true,
                    message: String::from_str("File download completed"),
                    files_transferred: transferred,
                    files_skipped: Vec::new(),
                    errors: Vec::new(),
                };
                proof {
                    assert(r@.files_transferred =~= seq![local_path@]);
                    assert(r@.files_skipped =~= Seq::<Seq<char>>::empty());
                    assert(r@.errors =~= Seq::<Seq<char>>::empty());
                }
                Ok(r)
            },
            TaskType::CustomOperations { operations } => {
                let ghost opsv = operations@.map_values(|o: SyncOperation| o@);
                let mut transferred: Vec<String> = Vec::new();
                let n = operations.len();
                let mut i: usize = 0;
                proof {
                    assert(transferred@.map_values(|s: String| s@)
                        =~= Seq::<Seq<char>>::empty());
                    assert(opsv.take(0) =~= Seq::<SyncOperationV>::empty());
                }
                while i < n
                    invariant
                        opsv == operations@.map_values(|o: SyncOperation| o@),
                        n == operations@.len(),
                        i <= n,
                        transferred@.map_values(|s: String| s@) == spec_custom_transfer_paths(
                            opsv.take(i as int)),
                    decreases n - i,
                {
                    let op = &operations[i];
                    let is_transfer = match op.operation_type {
                        OperationType::Upload => true,
                        OperationType::Download => true,
                        _ => false,
                    };
                    if is_transfer {
                        transferred.push(op.local_path.clone());
                    }
                    i += 1;
                    proof {
                        assert(opsv.take(i as int).drop_last() =~= opsv.take(i as int - 1));
                        assert(opsv.take(i as int).last() == opsv[i as int - 1]);
                        assert(transferred@.map_values(|s: String| s@)
                            =~= spec_custom_transfer_paths(opsv.take(i as int)));
                    }
                }
                proof {
                    assert(opsv.take(n as int) =~= opsv);
                }
                let r = SyncResult {
                    success: true,
                    message: String::from_str("Custom operations completed"),
                    files_transferred: transferred,
                    files_skipped: Vec::new(),
                    errors: Vec::new(),
                };
                proof {
                    assert(r@.files_transferred =~= transferred@.map_values(
                        |s: String| s@));
                    assert(r@.files_skipped =~= Seq::<Seq<char>>::empty());
                    assert(r@.errors =~= Seq::<Seq<char>>::empty());
                }
                Ok(r)
            },
        }
    }
}

/// Law: a Pending or Running task is never evicted by garbage
/// collection, whatever its age.
pub proof fn lemma_cleanup_keeps_active(s: Seq<BackgroundTaskV>, now: u64, max_age: u64,
    j: int)
    requires
        0 <= j < s.len(),
        !is_terminal(s[j].status),
    ensures
        spec_cleanup(s, now, max_age).contains(s[j]),
    decreases s.len(),
{
    let c = spec_cleanup(s, now, max_age);
    let pre = s.drop_last();
    let cpre = spec_cleanup(pre, now, max_age);
    if j < s.len() - 1 {
        assert(pre[j] == s[j]);
        lemma_cleanup_keeps_active(pre, now, max_age, j);
        let k = choose|k: int| 0 <= k < cpre.len() && cpre[k] == pre[j];
        assert(c[k] == s[j]);
    } else {
        assert(spec_keep_task(s.last(), now, max_age));
        assert(c[c.len() - 1] == s[j]);
    }
}

/// Law: a terminal task whose age has reached the threshold is
/// evicted by garbage collection.
pub proof fn lemma_cleanup_drops_stale(s: Seq<BackgroundTaskV>, now: u64, max_age: u64,
    j: int)
    requires
        unique_ids(s),
        0 <= j < s.len(),
        is_terminal(s[j].status),
        !spec_keep_task(s[j], now, max_age),
    ensures
        !has_task(spec_cleanup(s, now, max_age), s[j].id),
    decreases s.len(),
{
    let c = spec_cleanup(s, now, max_age);
    let pre = s.drop_last();
    let cpre = spec_cleanup(pre, now, max_age);
    assert(forall|a: int| 0 <= a < pre.len() ==> pre[a] == s[a]);
    lemma_cleanup_elems(pre, now, max_age);
    if j < s.len() - 1 {
        lemma_cleanup_drops_stale(pre, now, max_age, j);
        assert forall|k: int| 0 <= k < c.len() implies (#[trigger] c[k]).id != s[j].id by {
            if k < cpre.len() {
                assert(c[k] == cpre[k]);
                assert(!(exists|a: int| 0 <= a < cpre.len() && cpre[a].id == s[j].id));
            } else {
                assert(c[k] == s.last());
                assert(s[j].id != s[s.len() - 1].id);
            }
        }
    } else {
        assert forall|k: int| 0 <= k < c.len() implies (#[trigger] c[k]).id != s[j].id by {
            assert(c[k] == cpre[k]);
            let a = choose|a: int| 0 <= a < pre.len() && cpre[k] == pre[a];
            assert(s[a].id != s[s.len() - 1].id);
        }
    }
}

/// Garbage collection keeps identities unique and below the bound.
proof fn lemma_cleanup_wf(s: Seq<BackgroundTaskV>, now: u64, max_age: u64, bound: u64)
    requires
        unique_ids(s),
        forall|i: int| 0 <= i < s.len() ==> (#[trigger] s[i]).id < bound,
    ensures
        unique_ids(spec_cleanup(s, now, max_age)),
        forall|i: int| 0 <= i < spec_cleanup(s, now, max_age).len() ==> (#[trigger] spec_cleanup(
            s, now, max_age)[i]).id < bound,
    decreases s.len(),
{
    if s.len() > 0 {
        let pre = s.drop_last();
        assert(forall|i: int| 0 <= i < pre.len() ==> pre[i] == s[i]);
        lemma_cleanup_wf(pre, now, max_age, bound);
        lemma_cleanup_elems(s, now, max_age);
        lemma_cleanup_elems(pre, now, max_age);
        let c = spec_cleanup(s, now, max_age);
        let cpre = spec_cleanup(pre, now, max_age);
        assert forall|a: int, b: int| 0 <= a < b < c.len() implies c[a].id != c[b].id by {
            if b < cpre.len() {
                assert(c[a] == cpre[a] && c[b] == cpre[b]);
            } else {
                assert(c[b] == s.last());
                let ja = choose|ja: int| 0 <= ja < pre.len() && cpre[a] == pre[ja];
                assert(c[a] == cpre[a]);
                assert(s[ja].id != s[s.len() - 1].id);
            }
        }
        assert forall|i: int| 0 <= i < c.len() implies (#[trigger] c[i]).id < bound by {
            if i < cpre.len() {
                assert(c[i] == cpre[i]);
            } else {
                assert(c[i] == s.last());
            }
        }
    }
}

/// Every record that garbage collection keeps is one of the original
/// records.
proof fn lemma_cleanup_elems(s: Seq<BackgroundTaskV>, now: u64, max_age: u64)
    ensures
        forall|k: int| 0 <= k < spec_cleanup(s, now, max_age).len() ==> exists|j: int|
            0 <= j < s.len() && #[trigger] spec_cleanup(s, now, max_age)[k] == s[j],
    decreases s.len(),
{
    if s.len() > 0 {
        let pre = s.drop_last();
        lemma_cleanup_elems(pre, now, max_age);
        let c = spec_cleanup(s, now, max_age);
        let cpre = spec_cleanup(pre, now, max_age);
        assert forall|k: int| 0 <= k < c.len() implies exists|j: int| 0 <= j < s.len()
            && #[trigger] c[k] == s[j] by {
            if k < cpre.len() {
                let j = choose|j: int| 0 <= j < pre.len() && cpre[k] == pre[j];
                assert(c[k] == cpre[k]);
                assert(c[k] == s[j]);
            } else {
                assert(c[k] == s[s.len() - 1]);
            }
        }
    }
}

} // verus!
