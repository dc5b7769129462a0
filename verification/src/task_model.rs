//! Backup plans, work tasks and their persisted encodings.

use vstd::prelude::*;
use crate::text::{chars_of, chars_eq, spec_index_of, index_of_char, lemma_index_of_found, spec_is_lower_hex};
use crate::def::{prefixed, BuckyBackupError, RestoreConfig, spec_starts_with};
use crate::json::{
    JsonValue, json_i64, json_u64, push_member, push_str_member, spec_json_i64, spec_json_eq,
    spec_json_u64, spec_str_member, spec_value_member,
};

verus! {

/// Errors of the task database.
pub enum BackupDbError {
    NotFound(String),
    InvalidCheckpointId(String),
    /// An error reported by the database engine, by its message.
    DatabaseError(String),
    DataFormatError(String),
}

/// The library error that a database error becomes.
pub open spec fn spec_db_error_to_backup_error(e: BackupDbError) -> (BuckyBackupErrorKind, Seq<
    char,
>) {
    match e {
        BackupDbError::NotFound(m) => (BuckyBackupErrorKind::NotFound, m@),
        BackupDbError::InvalidCheckpointId(m) => (
            BuckyBackupErrorKind::Failed,
            "invalid checkpoint id: "@ + m@,
        ),
        BackupDbError::DatabaseError(m) => (BuckyBackupErrorKind::Failed, "database error: "@ + m@),
        BackupDbError::DataFormatError(m) => (
            BuckyBackupErrorKind::Failed,
            "data format error: "@ + m@,
        ),
    }
}

/// The variant of a `BuckyBackupError`.
pub enum BuckyBackupErrorKind {
    Internal,
    AlreadyDone,
    TryLater,
    NeedProcess,
    Failed,
    NotFound,
}

/// The variant and message of a library error.
pub open spec fn spec_backup_error_parts(e: BuckyBackupError) -> (BuckyBackupErrorKind, Seq<char>) {
    match e {
        BuckyBackupError::Internal(m) => (BuckyBackupErrorKind::Internal, m@),
        BuckyBackupError::AlreadyDone(m) => (BuckyBackupErrorKind::AlreadyDone, m@),
        BuckyBackupError::TryLater(m) => (BuckyBackupErrorKind::TryLater, m@),
        BuckyBackupError::NeedProcess(m) => (BuckyBackupErrorKind::NeedProcess, m@),
        BuckyBackupError::Failed(m) => (BuckyBackupErrorKind::Failed, m@),
        BuckyBackupError::NotFound(m) => (BuckyBackupErrorKind::NotFound, m@),
    }
}

/// The human-readable text of a database error.
pub open spec fn spec_db_error_message(e: BackupDbError) -> Seq<char> {
    match e {
        BackupDbError::NotFound(m) => "NotFound: "@ + m@,
        BackupDbError::InvalidCheckpointId(m) => "InvalidCheckpointId: "@ + m@,
        BackupDbError::DatabaseError(m) => "database error: "@ + m@,
        BackupDbError::DataFormatError(m) => "Data format error: "@ + m@,
    }
}

impl BackupDbError {
    /// The human-readable text of the error (what `Display` prints).
    pub fn to_message(&self) -> (s: String)
        ensures
            s@ == spec_db_error_message(*self),
    {
        match self {
            BackupDbError::NotFound(m) => prefixed("NotFound: ", m.as_str()),
            BackupDbError::InvalidCheckpointId(m) => prefixed("InvalidCheckpointId: ", m.as_str()),
            BackupDbError::DatabaseError(m) => prefixed("database error: ", m.as_str()),
            BackupDbError::DataFormatError(m) => prefixed("Data format error: ", m.as_str()),
        }
    }

    /// The library error that this database error becomes.
    pub fn into_backup_error(self) -> (r: BuckyBackupError)
        ensures
            spec_backup_error_parts(r) == spec_db_error_to_backup_error(self),
    {
        match self {
            BackupDbError::NotFound(m) => BuckyBackupError::NotFound(m),
            BackupDbError::InvalidCheckpointId(m) => BuckyBackupError::Failed(
                prefixed("invalid checkpoint id: ", m.as_str()),
            ),
            BackupDbError::DatabaseError(m) => BuckyBackupError::Failed(
                prefixed("database error: ", m.as_str()),
            ),
            BackupDbError::DataFormatError(m) => BuckyBackupError::Failed(
                prefixed("data format error: ", m.as_str()),
            ),
        }
    }
}

/// Where a plan reads from.
pub enum BackupSource {
    Directory(String),
    ChunkList(String),
}

impl BackupSource {
    /// The URL of the source, whatever its kind.
    pub fn get_source_url(&self) -> (r: &str)
        ensures
            r@ == match self {
                BackupSource::Directory(u) => u@,
                BackupSource::ChunkList(u) => u@,
            },
    {
        match self {
            BackupSource::Directory(url) => url.as_str(),
            BackupSource::ChunkList(url) => url.as_str(),
        }
    }

    /// The source kind as stored in the plan table.
    pub fn type_text(&self) -> (r: &'static str)
        ensures
            r@ == match self {
                BackupSource::Directory(_) => "directory"@,
                BackupSource::ChunkList(_) => "chunklist"@,
            },
    {
        match self {
            BackupSource::Directory(_) => "directory",
            BackupSource::ChunkList(_) => "chunklist",
        }
    }
}

/// The source URL of a source.
pub open spec fn spec_source_url(s: BackupSource) -> Seq<char> {
    match s {
        BackupSource::Directory(u) => u@,
        BackupSource::ChunkList(u) => u@,
    }
}

/// A backup target as recorded in the target table.
pub struct BackupTargetRecord {
    pub target_id: String,
    pub target_type: String,
    pub url: String,
    pub name: String,
    pub description: String,
    pub state: String,
    pub used: u64,
    pub total: u64,
    pub last_error: String,
    /// Target configuration.
    pub config: Option<JsonValue>,
}

impl BackupTargetRecord {
    /// A record for a new target: state `UNKNOWN`, nothing used, no error.
    pub fn new(
        target_id: String,
        target_type: &str,
        url: &str,
        name: &str,
        description: Option<&str>,
        config: Option<JsonValue>,
    ) -> (r: Self)
        ensures
            r.target_id == target_id,
            r.target_type@ == target_type@,
            r.url@ == url@,
            r.name@ == name@,
            r.description@ == match description {
                Some(d) => d@,
                None => Seq::<char>::empty(),
            },
            r.state@ == "UNKNOWN"@,
            r.used == 0 && r.total == 0,
            r.last_error@ == Seq::<char>::empty(),
            r.config == config,
    {
        let description = match description {
            Some(d) => String::from_str(d),
            None => String::new(),
        };
        BackupTargetRecord {
            target_id,
            target_type: String::from_str(target_type),
            url: String::from_str(url),
            name: String::from_str(name),
            description,
            state: String::from_str("UNKNOWN"),
            used: 0,
            total: 0,
            last_error: String::new(),
            config,
        }
    }
}

/// A backup plan: what to back up, where, and when.
pub struct BackupPlanConfig {
    pub source: BackupSource,
    pub target: String,
    pub title: String,
    pub description: String,
    pub type_str: String,
    pub last_checkpoint_index: u64,
    /// Scheduling policy (an array of rules).
    pub policy: JsonValue,
    pub priority: i64,
    pub create_time: u64,
    pub update_time: u64,
    /// Whether automatic scheduling is switched off.
    pub policy_disabled: bool,
}

/// The key of a plan: `<type>-<source url>-<target>`.
pub open spec fn spec_plan_key(p: BackupPlanConfig) -> Seq<char> {
    p.type_str@ + "-"@ + spec_source_url(p.source) + "-"@ + p.target@
}

impl BackupPlanConfig {
    /// The checkpoint type of the plan (its type string).
    pub fn get_checkpiont_type(&self) -> (r: String)
        ensures
            r@ == self.type_str@,
    {
        self.type_str.clone()
    }

    /// A chunk-to-chunk plan from `source` to the target `target_id`.
    pub fn chunk2chunk(source: &str, target_id: &str, title: &str, description: &str) -> (r: Self)
        ensures
            r.source matches BackupSource::ChunkList(u) && u@ == source@,
            r.target@ == target_id@,
            r.title@ == title@,
            r.description@ == description@,
            r.type_str@ == "c2c"@,
            r.last_checkpoint_index == 1024,
            r.policy matches JsonValue::Array(a) && a@.len() == 0,
            r.priority == 0,
            r.create_time == 0 && r.update_time == 0,
            !r.policy_disabled,
    {
        BackupPlanConfig {
            source: BackupSource::ChunkList(String::from_str(source)),
            target: String::from_str(target_id),
            title: String::from_str(title),
            description: String::from_str(description),
            type_str: String::from_str("c2c"),
            last_checkpoint_index: 1024,
            policy: JsonValue::Array(Vec::new()),
            priority: 0,
            create_time: 0,
            update_time: 0,
            policy_disabled: false,
        }
    }

    /// Starts the plan's next checkpoint: its index goes up by one and the
    /// plan is stamped as updated at `now_ms`. Returns the new index.
    pub fn begin_checkpoint(&mut self, now_ms: u64) -> (index: u64)
        requires
            old(self).last_checkpoint_index < u64::MAX,
        ensures
            index == old(self).last_checkpoint_index + 1,
            final(self).last_checkpoint_index == index,
            final(self).update_time == now_ms,
            final(self).source == old(self).source,
            final(self).target == old(self).target,
            final(self).title == old(self).title,
            final(self).description == old(self).description,
            final(self).type_str == old(self).type_str,
            final(self).policy == old(self).policy,
            final(self).priority == old(self).priority,
            final(self).create_time == old(self).create_time,
            final(self).policy_disabled == old(self).policy_disabled,
    {
        self.last_checkpoint_index = self.last_checkpoint_index + 1;
        self.update_time = now_ms;
        self.last_checkpoint_index
    }

    /// Fills in the times of a plan about to be stored: a plan without a
    /// creation time is created and updated at `now_ms`; one without an
    /// update time is updated when it was created.
    pub fn stamp_times(&mut self, now_ms: u64)
        ensures
            old(self).create_time == 0 ==> final(self).create_time == now_ms && final(self).update_time
                == now_ms,
            old(self).create_time != 0 ==> final(self).create_time == old(self).create_time,
            old(self).create_time != 0 && old(self).update_time == 0 ==> final(self).update_time
                == old(self).create_time,
            old(self).create_time != 0 && old(self).update_time != 0 ==> final(self).update_time
                == old(self).update_time,
            final(self).source == old(self).source,
            final(self).target == old(self).target,
            final(self).title == old(self).title,
            final(self).description == old(self).description,
            final(self).type_str == old(self).type_str,
            final(self).last_checkpoint_index == old(self).last_checkpoint_index,
            final(self).policy == old(self).policy,
            final(self).priority == old(self).priority,
            final(self).policy_disabled == old(self).policy_disabled,
    {
        if self.create_time == 0 {
            self.create_time = now_ms;
            self.update_time = now_ms;
        } else if self.update_time == 0 {
            self.update_time = self.create_time;
        }
    }

    /// The key of the plan (see `spec_plan_key`).
    pub fn get_plan_key(&self) -> (r: String)
        ensures
            r@ == spec_plan_key(*self),
    {
        let mut key = self.type_str.clone();
        key.append("-");
        key.append(self.source.get_source_url());
        key.append("-");
        key.append(self.target.as_str());
        key
    }
}

/// State of a work task.
pub enum TaskState {
    Running,
    Pending,
    Pausing,
    Paused,
    Done,
    Failed(String),
    Remove,
}

/// Abstract value of a `TaskState`.
pub enum TaskStateView {
    Running,
    Pending,
    Pausing,
    Paused,
    Done,
    Failed(Seq<char>),
    Remove,
}

impl View for TaskState {
    type V = TaskStateView;

    open spec fn view(&self) -> TaskStateView {
        match self {
            TaskState::Running => TaskStateView::Running,
            TaskState::Pending => TaskStateView::Pending,
            TaskState::Pausing => TaskStateView::Pausing,
            TaskState::Paused => TaskStateView::Paused,
            TaskState::Done => TaskStateView::Done,
            TaskState::Failed(m) => TaskStateView::Failed(m@),
            TaskState::Remove => TaskStateView::Remove,
        }
    }
}

/// The text of a task state, as stored and as reported.
pub open spec fn spec_task_state_text(s: TaskStateView) -> Seq<char> {
    match s {
        TaskStateView::Running => "RUNNING"@,
        TaskStateView::Pending => "PENDING"@,
        TaskStateView::Pausing => "PAUSING"@,
        TaskStateView::Paused => "PAUSED"@,
        TaskStateView::Done => "DONE"@,
        TaskStateView::Failed(m) => "FAILED:"@ + m,
        TaskStateView::Remove => "REMOVE"@,
    }
}

/// The task state read back from its text: a text `FAILED:<msg>` (split at
/// its first colon) is a failure with message `<msg>`; any other unknown
/// text is a failure with message `UNKNOWN`.
pub open spec fn spec_task_state_from_text(t: Seq<char>) -> TaskStateView {
    if t == "RUNNING"@ {
        TaskStateView::Running
    } else if t == "PENDING"@ {
        TaskStateView::Pending
    } else if t == "PAUSING"@ {
        TaskStateView::Pausing
    } else if t == "PAUSED"@ {
        TaskStateView::Paused
    } else if t == "DONE"@ {
        TaskStateView::Done
    } else if t == "REMOVE"@ {
        TaskStateView::Remove
    } else {
        match spec_index_of(t, ':') {
            Some(i) => if t.subrange(0, i) == "FAILED"@ {
                TaskStateView::Failed(t.subrange(i + 1, t.len() as int))
            } else {
                TaskStateView::Failed("UNKNOWN"@)
            },
            None => TaskStateView::Failed("UNKNOWN"@),
        }
    }
}

/// A task in one of these states may be resumed: `Paused` or `Failed`.
pub open spec fn spec_is_resumable(s: TaskStateView) -> bool {
    s is Paused || s is Failed
}

/// A task in one of these states may be paused: `Running` or `Pending`.
pub open spec fn spec_is_pausable(s: TaskStateView) -> bool {
    s is Running || s is Pending
}

/// The state written to the database when a task is saved: a pending task
/// is saved as running, a pausing task as paused; the others as they are.
pub open spec fn spec_persisted_state(s: TaskStateView) -> TaskStateView {
    match s {
        TaskStateView::Pending => TaskStateView::Running,
        TaskStateView::Pausing => TaskStateView::Paused,
        _ => s,
    }
}

impl TaskState {
    /// The text of the state (see `spec_task_state_text`).
    pub fn to_string(&self) -> (s: String)
        ensures
            s@ == spec_task_state_text(self@),
    {
        match self {
            TaskState::Running => String::from_str("RUNNING"),
            TaskState::Pending => String::from_str("PENDING"),
            TaskState::Pausing => String::from_str("PAUSING"),
            TaskState::Paused => String::from_str("PAUSED"),
            TaskState::Done => String::from_str("DONE"),
            TaskState::Failed(m) => prefixed("FAILED:", m.as_str()),
            TaskState::Remove => String::from_str("REMOVE"),
        }
    }

    /// The state read back from its text (see `spec_task_state_from_text`).
    pub fn from_sql_text(t: &str) -> (s: TaskState)
        ensures
            s@ == spec_task_state_from_text(t@),
    {
        let v = chars_of(t);
        if chars_eq(&v, &chars_of("RUNNING")) {
            TaskState::Running
        } else if chars_eq(&v, &chars_of("PENDING")) {
            TaskState::Pending
        } else if chars_eq(&v, &chars_of("PAUSING")) {
            TaskState::Pausing
        } else if chars_eq(&v, &chars_of("PAUSED")) {
            TaskState::Paused
        } else if chars_eq(&v, &chars_of("DONE")) {
            TaskState::Done
        } else if chars_eq(&v, &chars_of("REMOVE")) {
            TaskState::Remove
        } else {
            match index_of_char(&v, ':') {
                Some(i) => {
                    let mut head: Vec<char> = Vec::new();
                    crate::text::extend_chars(&mut head, &v, 0, i);
                    if chars_eq(&head, &chars_of("FAILED")) {
                        let mut msg: Vec<char> = Vec::new();
                        let n = v.len();
                        assert(i < n);
                        crate::text::extend_chars(&mut msg, &v, i + 1, n);
                        TaskState::Failed(crate::text::string_from_chars(&msg))
                    } else {
                        TaskState::Failed(String::from_str("UNKNOWN"))
                    }
                },
                None => TaskState::Failed(String::from_str("UNKNOWN")),
            }
        }
    }

    /// Whether a task in this state may be resumed.
    pub fn is_resumable(&self) -> (b: bool)
        ensures
            b == spec_is_resumable(self@),
    {
        match self {
            TaskState::Running | TaskState::Pending | TaskState::Pausing | TaskState::Done
            | TaskState::Remove => false,
            TaskState::Paused | TaskState::Failed(_) => true,
        }
    }

    /// Whether a task in this state may be paused.
    pub fn is_puasable(&self) -> (b: bool)
        ensures
            b == spec_is_pausable(self@),
    {
        match self {
            TaskState::Running | TaskState::Pending => true,
            TaskState::Paused | TaskState::Failed(_) | TaskState::Done | TaskState::Pausing
            | TaskState::Remove => false,
        }
    }

    /// The state written to the database when a task in this state is saved.
    pub fn persisted_state(&self) -> (r: TaskState)
        ensures
            r@ == spec_persisted_state(self@),
    {
        match self {
            TaskState::Done => TaskState::Done,
            TaskState::Failed(m) => TaskState::Failed(m.clone()),
            TaskState::Running | TaskState::Pending => TaskState::Running,
            TaskState::Paused | TaskState::Pausing => TaskState::Paused,
            TaskState::Remove => TaskState::Remove,
        }
    }
}

/// Reading back the text of any task state gives the same state.
pub proof fn law_task_state_text_roundtrip(s: TaskStateView)
    ensures
        spec_task_state_from_text(spec_task_state_text(s)) == s,
{
    reveal_strlit("RUNNING");
    reveal_strlit("PENDING");
    reveal_strlit("PAUSING");
    reveal_strlit("PAUSED");
    reveal_strlit("DONE");
    reveal_strlit("REMOVE");
    reveal_strlit("FAILED:");
    reveal_strlit("FAILED");
    assert("RUNNING"@[0] == 'R' && "PENDING"@[0] == 'P' && "PAUSING"@[0] == 'P');
    assert("PAUSED"@[0] == 'P' && "DONE"@[0] == 'D' && "REMOVE"@[0] == 'R');
    assert("PENDING"@[1] == 'E' && "PAUSING"@[1] == 'A' && "PAUSED"@[1] == 'A');
    assert("RUNNING"@[1] == 'U' && "REMOVE"@[1] == 'E');
    assert("RUNNING"@.len() == 7 && "PENDING"@.len() == 7 && "PAUSING"@.len() == 7);
    assert("PAUSED"@.len() == 6 && "DONE"@.len() == 4 && "REMOVE"@.len() == 6);
    assert("PAUSING"@[5] == 'N' && "PAUSED"@[5] == 'D');
    if let TaskStateView::Failed(m) = s {
        let t = "FAILED:"@ + m;
        assert(t[0] == 'F');
        let prefix = "FAILED:"@;
        assert(forall|k: int| 0 <= k < 6 ==> t[k] == prefix[k] && prefix[k] != ':');
        assert(t[6] == ':');
        lemma_index_of_found(t, ':', 6);
        assert(t.subrange(0, 6) =~= "FAILED"@);
        assert(t.subrange(7, t.len() as int) =~= m);
    }
}

/// Kind of a work task.
pub enum TaskType {
    Backup,
    Restore,
}

/// The text of a task type.
pub open spec fn spec_task_type_text(t: TaskType) -> Seq<char> {
    match t {
        TaskType::Backup => "BACKUP"@,
        TaskType::Restore => "RESTORE"@,
    }
}

/// The task type read back from its text; unknown texts read as `Backup`.
pub open spec fn spec_task_type_from_text(t: Seq<char>) -> TaskType {
    if t == "RESTORE"@ {
        TaskType::Restore
    } else {
        TaskType::Backup
    }
}

impl TaskType {
    /// The text of the type.
    pub fn to_string(&self) -> (r: &'static str)
        ensures
            r@ == spec_task_type_text(*self),
    {
        match self {
            TaskType::Backup => "BACKUP",
            TaskType::Restore => "RESTORE",
        }
    }

    /// The type read back from its text (see `spec_task_type_from_text`).
    pub fn from_sql_text(t: &str) -> (r: TaskType)
        ensures
            r == spec_task_type_from_text(t@),
    {
        let v = chars_of(t);
        if chars_eq(&v, &chars_of("RESTORE")) {
            TaskType::Restore
        } else {
            TaskType::Backup
        }
    }
}

/// Reading back the text of a task type gives the same type.
pub proof fn law_task_type_text_roundtrip(t: TaskType)
    ensures
        spec_task_type_from_text(spec_task_type_text(t)) == t,
{
    reveal_strlit("BACKUP");
    reveal_strlit("RESTORE");
    assert("BACKUP"@.len() == 6 && "RESTORE"@.len() == 7);
}

/// Field by which task lists are ordered.
pub enum TaskOrderField {
    CreateTime,
    UpdateTime,
    CompleteTime,
}

/// Direction of an ordering.
pub enum SortOrder {
    Asc,
    Desc,
}

/// A work task: a backup or restore run of a plan on one checkpoint.
pub struct WorkTask {
    pub taskid: String,
    pub task_type: TaskType,
    pub owner_plan_id: String,
    pub checkpoint_id: String,
    pub total_size: u64,
    pub completed_size: u64,
    pub state: TaskState,
    pub create_time: u64,
    pub update_time: u64,
    pub item_count: u64,
    pub completed_item_count: u64,
    pub wait_transfer_item_count: u64,
    pub restore_config: Option<RestoreConfig>,
}

/// The text of a fresh random UUID, through `uuid::Uuid::new_v4` and its
/// `Display` form.
///
/// Claims what the `uuid` crate's formatter writes: 36 characters, hyphens
/// at positions 8, 13, 18 and 23 and lower-case hexadecimal digits
/// elsewhere. Which digits is left open (they are random).
#[verifier::external_body]
fn new_uuid_text() -> (r: String)
    ensures
        r@.len() == 36,
        forall|i: int|
            0 <= i < 36 ==> if i == 8 || i == 13 || i == 18 || i == 23 {
                #[trigger] r@[i] == '-'
            } else {
                spec_is_lower_hex(r@[i])
            },
{
    uuid::Uuid::new_v4().to_string()
}

/// A fresh random task id: `task_` followed by a new random UUID.
fn new_task_id() -> (id: String)
    ensures
        id@.len() == 41,
        spec_starts_with(id@, "task_"@),
        forall|i: int| 5 <= i < 41 && i != 13 && i != 18 && i != 23 && i != 28 ==> spec_is_lower_hex(#[trigger] id@[i]),
{
    let u = new_uuid_text();
    let id = prefixed("task_", u.as_str());
    proof {
        reveal_strlit("task_");
        assert(id@.subrange(0, 5) =~= "task_"@);
        assert forall|i: int| 5 <= i < 41 && i != 13 && i != 18 && i != 23 && i != 28 implies spec_is_lower_hex(#[trigger] id@[i]) by {
            assert(id@[i] == u@[i - 5]);
        }
    }
    id
}

impl WorkTask {
    /// A new paused task of a plan on a checkpoint, with a fresh id and the
    /// current time as creation and update time.
    pub fn new(owner_plan_id: &str, checkpoint_id: &str, task_type: TaskType) -> (t: Self)
        ensures
            spec_starts_with(t.taskid@, "task_"@),
            t.taskid@.len() == 41,
            t.task_type == task_type,
            t.owner_plan_id@ == owner_plan_id@,
            t.checkpoint_id@ == checkpoint_id@,
            t.state@ == TaskStateView::Paused,
            t.total_size == 0 && t.completed_size == 0,
            t.item_count == 0 && t.completed_item_count == 0 && t.wait_transfer_item_count == 0,
            t.restore_config is None,
    {
        let taskid = new_task_id();
        let create_time = crate::clock::now_unix_millis() as u64;
        let update_time = crate::clock::now_unix_millis() as u64;
        WorkTask {
            taskid,
            task_type,
            owner_plan_id: String::from_str(owner_plan_id),
            checkpoint_id: String::from_str(checkpoint_id),
            total_size: 0,
            completed_size: 0,
            state: TaskState::Paused,
            create_time,
            update_time,
            item_count: 0,
            completed_item_count: 0,
            wait_transfer_item_count: 0,
            restore_config: None,
        }
    }

    /// Sets the restore configuration of the task.
    pub fn set_restore_config(&mut self, restore_config: RestoreConfig)
        ensures
            final(self).restore_config == Some(restore_config),
            final(self).taskid == old(self).taskid,
            final(self).state == old(self).state,
            final(self).checkpoint_id == old(self).checkpoint_id,
            final(self).owner_plan_id == old(self).owner_plan_id,
    {
        self.restore_config = Some(restore_config);
    }
}

/// The members of a target record as JSON, in order.
pub open spec fn spec_target_json(r: BackupTargetRecord, m: Seq<(String, JsonValue)>) -> bool {
    &&& m.len() == if r.config is Some {
        10int
    } else {
        9int
    }
    &&& spec_str_member(m[0], "target_id"@, r.target_id@)
    &&& spec_str_member(m[1], "target_type"@, r.target_type@)
    &&& spec_str_member(m[2], "url"@, r.url@)
    &&& spec_str_member(m[3], "name"@, r.name@)
    &&& spec_str_member(m[4], "description"@, r.description@)
    &&& spec_str_member(m[5], "state"@, r.state@)
    &&& spec_value_member(m[6], "used"@, spec_json_u64(r.used))
    &&& spec_value_member(m[7], "total"@, spec_json_u64(r.total))
    &&& spec_str_member(m[8], "last_error"@, r.last_error@)
    &&& (r.config matches Some(c) ==> m[9].0@ == "config"@ && spec_json_eq(m[9].1, c))
}

impl BackupTargetRecord {
    /// The record as a JSON object: its fields by name, then its
    /// configuration when it has one (see `spec_target_json`).
    pub fn to_json_value(&self) -> (v: JsonValue)
        ensures
            v matches JsonValue::Object(m) && spec_target_json(*self, m@),
    {
        let mut m: Vec<(String, JsonValue)> = Vec::new();
        push_str_member(&mut m, "target_id", self.target_id.as_str());
        push_str_member(&mut m, "target_type", self.target_type.as_str());
        push_str_member(&mut m, "url", self.url.as_str());
        push_str_member(&mut m, "name", self.name.as_str());
        push_str_member(&mut m, "description", self.description.as_str());
        push_str_member(&mut m, "state", self.state.as_str());
        push_member(&mut m, "used", json_u64(self.used));
        push_member(&mut m, "total", json_u64(self.total));
        push_str_member(&mut m, "last_error", self.last_error.as_str());
        let ghost base = m@;
        match &self.config {
            Some(cfg) => {
                push_member(&mut m, "config", cfg.copy());
                assert(m@.take(9) == base);
                assert(m@[0] == base[0] && m@[1] == base[1] && m@[2] == base[2] && m@[3] == base[3]);
                assert(m@[4] == base[4] && m@[5] == base[5] && m@[6] == base[6] && m@[7] == base[7]);
                assert(m@[8] == base[8]);
            },
            None => {},
        }
        JsonValue::Object(m)
    }
}

/// The members of a plan as JSON, in order.
pub open spec fn spec_plan_json(p: BackupPlanConfig, m: Seq<(String, JsonValue)>) -> bool {
    &&& m.len() == 10
    &&& spec_str_member(m[0], "source"@, spec_source_url(p.source))
    &&& spec_str_member(m[1], "target"@, p.target@)
    &&& spec_str_member(m[2], "title"@, p.title@)
    &&& spec_str_member(m[3], "description"@, p.description@)
    &&& spec_str_member(m[4], "type_str"@, p.type_str@)
    &&& spec_value_member(m[5], "last_checkpoint_index"@, spec_json_u64(p.last_checkpoint_index))
    &&& m[6].0@ == "policy"@ && spec_json_eq(m[6].1, p.policy)
    &&& spec_value_member(m[7], "priority"@, spec_json_i64(p.priority))
    &&& spec_value_member(m[8], "create_time"@, spec_json_u64(p.create_time))
    &&& spec_value_member(m[9], "update_time"@, spec_json_u64(p.update_time))
}

impl BackupPlanConfig {
    /// The plan as a JSON object (see `spec_plan_json`).
    pub fn to_json_value(&self) -> (v: JsonValue)
        ensures
            v matches JsonValue::Object(m) && spec_plan_json(*self, m@),
    {
        let mut m: Vec<(String, JsonValue)> = Vec::new();
        push_str_member(&mut m, "source", self.source.get_source_url());
        push_str_member(&mut m, "target", self.target.as_str());
        push_str_member(&mut m, "title", self.title.as_str());
        push_str_member(&mut m, "description", self.description.as_str());
        push_str_member(&mut m, "type_str", self.type_str.as_str());
        push_member(&mut m, "last_checkpoint_index", json_u64(self.last_checkpoint_index));
        push_member(&mut m, "policy", self.policy.copy());
        push_member(&mut m, "priority", json_i64(self.priority));
        push_member(&mut m, "create_time", json_u64(self.create_time));
        push_member(&mut m, "update_time", json_u64(self.update_time));
        JsonValue::Object(m)
    }
}

/// The members of a task as JSON, in order.
pub open spec fn spec_task_json(t: WorkTask, m: Seq<(String, JsonValue)>) -> bool {
    &&& m.len() == if t.restore_config is Some {
        13int
    } else {
        12int
    }
    &&& spec_str_member(m[0], "taskid"@, t.taskid@)
    &&& spec_str_member(m[1], "task_type"@, spec_task_type_text(t.task_type))
    &&& spec_str_member(m[2], "owner_plan_id"@, t.owner_plan_id@)
    &&& spec_str_member(m[3], "checkpoint_id"@, t.checkpoint_id@)
    &&& spec_value_member(m[4], "total_size"@, spec_json_u64(t.total_size))
    &&& spec_value_member(m[5], "completed_size"@, spec_json_u64(t.completed_size))
    &&& spec_str_member(m[6], "state"@, spec_task_state_text(t.state@))
    &&& spec_value_member(m[7], "create_time"@, spec_json_u64(t.create_time))
    &&& spec_value_member(m[8], "update_time"@, spec_json_u64(t.update_time))
    &&& spec_value_member(m[9], "item_count"@, spec_json_u64(t.item_count))
    &&& spec_value_member(m[10], "completed_item_count"@, spec_json_u64(t.completed_item_count))
    &&& spec_value_member(
        m[11],
        "wait_transfer_item_count"@,
        spec_json_u64(t.wait_transfer_item_count),
    )
    &&& (t.restore_config matches Some(rc) ==> m[12].0@ == "restore_config"@ && (m[12].1 matches JsonValue::Object(
        r,
    ) && r@.len() == 2 && spec_str_member(r@[0], "restore_location_url"@, rc.restore_location_url@)
        && spec_value_member(r@[1], "is_clean_restore"@, JsonValue::Bool(rc.is_clean_restore))))
}

impl WorkTask {
    /// The task as a JSON object, with its restore location when it
    /// restores (see `spec_task_json`).
    pub fn to_json_value(&self) -> (v: JsonValue)
        ensures
            v matches JsonValue::Object(m) && spec_task_json(*self, m@),
    {
        let mut m: Vec<(String, JsonValue)> = Vec::new();
        push_str_member(&mut m, "taskid", self.taskid.as_str());
        push_str_member(&mut m, "task_type", self.task_type.to_string());
        push_str_member(&mut m, "owner_plan_id", self.owner_plan_id.as_str());
        push_str_member(&mut m, "checkpoint_id", self.checkpoint_id.as_str());
        push_member(&mut m, "total_size", json_u64(self.total_size));
        push_member(&mut m, "completed_size", json_u64(self.completed_size));
        let state = self.state.to_string();
        push_str_member(&mut m, "state", state.as_str());
        push_member(&mut m, "create_time", json_u64(self.create_time));
        push_member(&mut m, "update_time", json_u64(self.update_time));
        push_member(&mut m, "item_count", json_u64(self.item_count));
        push_member(&mut m, "completed_item_count", json_u64(self.completed_item_count));
        push_member(&mut m, "wait_transfer_item_count", json_u64(self.wait_transfer_item_count));
        let ghost base = m@;
        match &self.restore_config {
            Some(rc) => {
                let mut r: Vec<(String, JsonValue)> = Vec::new();
                push_str_member(&mut r, "restore_location_url", rc.restore_location_url.as_str());
                push_member(&mut r, "is_clean_restore", JsonValue::Bool(rc.is_clean_restore));
                push_member(&mut m, "restore_config", JsonValue::Object(r));
                assert(m@.take(12) == base);
                assert(m@[0] == base[0] && m@[1] == base[1] && m@[2] == base[2] && m@[3] == base[3]);
                assert(m@[4] == base[4] && m@[5] == base[5] && m@[6] == base[6] && m@[7] == base[7]);
                assert(m@[8] == base[8] && m@[9] == base[9] && m@[10] == base[10] && m@[11]
                    == base[11]);
            },
            None => {},
        }
        JsonValue::Object(m)
    }
}

/// The log lines of one running task.
pub struct BackupTaskSession {
    pub task_id: String,
    pub logs: Vec<String>,
}

impl BackupTaskSession {
    pub fn new(task_id: String) -> (s: BackupTaskSession)
        ensures
            s.task_id == task_id,
            s.logs@.len() == 0,
    {
        BackupTaskSession { task_id, logs: Vec::new() }
    }
}

/// A piece of a chunk in transfer.
pub struct TransferCacheNode {
    pub item_id: String,
    pub chunk_id: String,
    pub total_size: u64,
    pub offset: u64,
    pub is_last_piece: bool,
    pub content: Vec<u8>,
    pub full_id: Option<String>,
}

/// Changes to a plan: each field given replaces the plan's.
pub struct BackupPlanUpdateParams {
    pub title: Option<String>,
    pub description: Option<String>,
    pub policy: Option<JsonValue>,
    pub priority: Option<u64>,
    pub policy_disabled: Option<bool>,
    pub reserved_versions: Option<u64>,
}

/// Applies changes to a plan and stamps it with `now_ms` as its update
/// time. A priority is stored as the signed number of the same bits.
pub fn apply_plan_update(plan: &mut BackupPlanConfig, params: BackupPlanUpdateParams, now_ms: i64)
    ensures
        final(plan).title == match params.title {
            Some(t) => t,
            None => old(plan).title,
        },
        final(plan).description == match params.description {
            Some(d) => d,
            None => old(plan).description,
        },
        final(plan).policy == match params.policy {
            Some(p) => p,
            None => old(plan).policy,
        },
        final(plan).priority == match params.priority {
            Some(p) => p as i64,
            None => old(plan).priority,
        },
        final(plan).policy_disabled == match params.policy_disabled {
            Some(b) => b,
            None => old(plan).policy_disabled,
        },
        final(plan).update_time == now_ms as u64,
        final(plan).source == old(plan).source,
        final(plan).target == old(plan).target,
        final(plan).type_str == old(plan).type_str,
        final(plan).last_checkpoint_index == old(plan).last_checkpoint_index,
        final(plan).create_time == old(plan).create_time,
{
    if let Some(title) = params.title {
        plan.title = title;
    }
    if let Some(description) = params.description {
        plan.description = description;
    }
    if let Some(policy) = params.policy {
        plan.policy = policy;
    }
    if let Some(priority) = params.priority {
        plan.priority = priority as i64;
    }
    if let Some(policy_disabled) = params.policy_disabled {
        plan.policy_disabled = policy_disabled;
    }
    plan.update_time = now_ms as u64;
}

} // verus!
