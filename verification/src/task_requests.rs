//! Calls of the control service that name plans and tasks: which method a
//! call names, the parameters of task requests, and the answers built from
//! what the engine returns.

use vstd::prelude::*;
use crate::def::RestoreConfig;
use crate::json::{
    JsonValue, spec_get, spec_as_str, spec_json_u64, json_u64, push_member, push_str_member,
    spec_str_member, spec_value_member,
};
use crate::rpc_params::{RpcError, RpcErrorView, parse_error};
use crate::task_model::{
    BackupPlanConfig, BackupTargetRecord, WorkTask, spec_plan_json, spec_task_json,
};
use crate::text::{chars_of, chars_eq};

verus! {

/// The methods of the control service.
#[derive(Clone, Copy, PartialEq, Eq, Structural)]
pub enum ControlMethod {
    CreateBackupPlan,
    ListBackupPlan,
    GetBackupPlan,
    CreateBackupTarget,
    ListBackupTarget,
    GetBackupTarget,
    UpdateBackupTarget,
    RemoveBackupTarget,
    CreateBackupTask,
    CreateRestoreTask,
    GetTaskInfo,
    ResumeBackupTask,
    PauseBackupTask,
    ConsumeSizeSummary,
    ListFilesInTask,
    ListBackupTask,
    ListDirectoryChildren,
    ValidatePath,
    IsPlanRunning,
}

/// The name a method is called by.
pub open spec fn spec_method_name(m: ControlMethod) -> Seq<char> {
    match m {
        ControlMethod::CreateBackupPlan => "create_backup_plan"@,
        ControlMethod::ListBackupPlan => "list_backup_plan"@,
        ControlMethod::GetBackupPlan => "get_backup_plan"@,
        ControlMethod::CreateBackupTarget => "create_backup_target"@,
        ControlMethod::ListBackupTarget => "list_backup_target"@,
        ControlMethod::GetBackupTarget => "get_backup_target"@,
        ControlMethod::UpdateBackupTarget => "update_backup_target"@,
        ControlMethod::RemoveBackupTarget => "remove_backup_target"@,
        ControlMethod::CreateBackupTask => "create_backup_task"@,
        ControlMethod::CreateRestoreTask => "create_restore_task"@,
        ControlMethod::GetTaskInfo => "get_task_info"@,
        ControlMethod::ResumeBackupTask => "resume_backup_task"@,
        ControlMethod::PauseBackupTask => "pause_backup_task"@,
        ControlMethod::ConsumeSizeSummary => "consume_size_summary"@,
        ControlMethod::ListFilesInTask => "list_files_in_task"@,
        ControlMethod::ListBackupTask => "list_backup_task"@,
        ControlMethod::ListDirectoryChildren => "list_directory_children"@,
        ControlMethod::ValidatePath => "validate_path"@,
        ControlMethod::IsPlanRunning => "is_plan_running"@,
    }
}

impl ControlMethod {
    /// The name the method is called by.
    pub fn name(&self) -> (s: &'static str)
        ensures
            s@ == spec_method_name(*self),
    {
        match self {
            ControlMethod::CreateBackupPlan => "create_backup_plan",
            ControlMethod::ListBackupPlan => "list_backup_plan",
            ControlMethod::GetBackupPlan => "get_backup_plan",
            ControlMethod::CreateBackupTarget => "create_backup_target",
            ControlMethod::ListBackupTarget => "list_backup_target",
            ControlMethod::GetBackupTarget => "get_backup_target",
            ControlMethod::UpdateBackupTarget => "update_backup_target",
            ControlMethod::RemoveBackupTarget => "remove_backup_target",
            ControlMethod::CreateBackupTask => "create_backup_task",
            ControlMethod::CreateRestoreTask => "create_restore_task",
            ControlMethod::GetTaskInfo => "get_task_info",
            ControlMethod::ResumeBackupTask => "resume_backup_task",
            ControlMethod::PauseBackupTask => "pause_backup_task",
            ControlMethod::ConsumeSizeSummary => "consume_size_summary",
            ControlMethod::ListFilesInTask => "list_files_in_task",
            ControlMethod::ListBackupTask => "list_backup_task",
            ControlMethod::ListDirectoryChildren => "list_directory_children",
            ControlMethod::ValidatePath => "validate_path",
            ControlMethod::IsPlanRunning => "is_plan_running",
        }
    }
}

/// All methods, in the order they are listed.
pub open spec fn spec_all_methods() -> Seq<ControlMethod> {
    seq![
        ControlMethod::CreateBackupPlan,
        ControlMethod::ListBackupPlan,
        ControlMethod::GetBackupPlan,
        ControlMethod::CreateBackupTarget,
        ControlMethod::ListBackupTarget,
        ControlMethod::GetBackupTarget,
        ControlMethod::UpdateBackupTarget,
        ControlMethod::RemoveBackupTarget,
        ControlMethod::CreateBackupTask,
        ControlMethod::CreateRestoreTask,
        ControlMethod::GetTaskInfo,
        ControlMethod::ResumeBackupTask,
        ControlMethod::PauseBackupTask,
        ControlMethod::ConsumeSizeSummary,
        ControlMethod::ListFilesInTask,
        ControlMethod::ListBackupTask,
        ControlMethod::ListDirectoryChildren,
        ControlMethod::ValidatePath,
        ControlMethod::IsPlanRunning,
    ]
}

fn all_methods() -> (r: Vec<ControlMethod>)
    ensures
        r@ == spec_all_methods(),
{
    let r = vec![
        ControlMethod::CreateBackupPlan,
        ControlMethod::ListBackupPlan,
        ControlMethod::GetBackupPlan,
        ControlMethod::CreateBackupTarget,
        ControlMethod::ListBackupTarget,
        ControlMethod::GetBackupTarget,
        ControlMethod::UpdateBackupTarget,
        ControlMethod::RemoveBackupTarget,
        ControlMethod::CreateBackupTask,
        ControlMethod::CreateRestoreTask,
        ControlMethod::GetTaskInfo,
        ControlMethod::ResumeBackupTask,
        ControlMethod::PauseBackupTask,
        ControlMethod::ConsumeSizeSummary,
        ControlMethod::ListFilesInTask,
        ControlMethod::ListBackupTask,
        ControlMethod::ListDirectoryChildren,
        ControlMethod::ValidatePath,
        ControlMethod::IsPlanRunning,
    ];
    assert(r@ =~= spec_all_methods());
    r
}

proof fn lemma_every_method_listed(m: ControlMethod)
    ensures
        spec_all_methods().contains(m),
{
    let all = spec_all_methods();
    match m {
        ControlMethod::CreateBackupPlan => assert(all[0] == m),
        ControlMethod::ListBackupPlan => assert(all[1] == m),
        ControlMethod::GetBackupPlan => assert(all[2] == m),
        ControlMethod::CreateBackupTarget => assert(all[3] == m),
        ControlMethod::ListBackupTarget => assert(all[4] == m),
        ControlMethod::GetBackupTarget => assert(all[5] == m),
        ControlMethod::UpdateBackupTarget => assert(all[6] == m),
        ControlMethod::RemoveBackupTarget => assert(all[7] == m),
        ControlMethod::CreateBackupTask => assert(all[8] == m),
        ControlMethod::CreateRestoreTask => assert(all[9] == m),
        ControlMethod::GetTaskInfo => assert(all[10] == m),
        ControlMethod::ResumeBackupTask => assert(all[11] == m),
        ControlMethod::PauseBackupTask => assert(all[12] == m),
        ControlMethod::ConsumeSizeSummary => assert(all[13] == m),
        ControlMethod::ListFilesInTask => assert(all[14] == m),
        ControlMethod::ListBackupTask => assert(all[15] == m),
        ControlMethod::ListDirectoryChildren => assert(all[16] == m),
        ControlMethod::ValidatePath => assert(all[17] == m),
        ControlMethod::IsPlanRunning => assert(all[18] == m),
    }
}

/// The method a call names, if the service has one by that name.
pub fn control_method(name: &str) -> (r: Option<ControlMethod>)
    ensures
        match r {
            Some(m) => spec_method_name(m) == name@,
            None => forall|m: ControlMethod| spec_method_name(m) != name@,
        },
{
    let all = all_methods();
    let n = chars_of(name);
    let mut i: usize = 0;
    while i < all.len()
        invariant
            i <= all@.len(),
            all@ == spec_all_methods(),
            n@ == name@,
            forall|k: int| 0 <= k < i ==> spec_method_name(#[trigger] all@[k]) != name@,
        decreases all.len() - i,
    {
        let m = all[i];
        if chars_eq(&chars_of(m.name()), &n) {
            return Some(m);
        }
        i = i + 1;
    }
    proof {
        assert forall|m: ControlMethod| spec_method_name(m) != name@ by {
            lemma_every_method_listed(m);
            let k = choose|k: int| 0 <= k < all@.len() && all@[k] == m;
            assert(spec_method_name(all@[k]) != name@);
        }
    }
    None
}

/// A parameter that the call must have; a present one is a string (the
/// service stops on any other).
pub open spec fn spec_required_str(params: JsonValue, key: Seq<char>) -> Result<Seq<char>, RpcErrorView> {
    match spec_get(params, key) {
        None => Err(parse_error(key + " is required"@)),
        Some(v) => Ok(spec_as_str(v)->0),
    }
}

/// A present parameter that is not a string.
pub open spec fn spec_not_str(params: JsonValue, key: Seq<char>) -> bool {
    spec_get(params, key) matches Some(v) && !(v is String)
}

fn required_message(key: &str) -> (r: RpcError)
    ensures
        r@ == parse_error(key@ + " is required"@),
{
    let mut m = String::from_str(key);
    m.append(" is required");
    RpcError::ParseRequestError(m)
}

/// A parameter the call must have (see `spec_required_str`).
pub fn required_str_param(params: &JsonValue, key: &str) -> (r: Result<String, RpcError>)
    requires
        !spec_not_str(*params, key@),
    ensures
        match (r, spec_required_str(*params, key@)) {
            (Ok(x), Ok(y)) => x@ == y,
            (Err(x), Err(y)) => x@ == y,
            _ => false,
        },
{
    match params.get(key) {
        None => Err(required_message(key)),
        Some(JsonValue::String(s)) => Ok(s.clone()),
        Some(_) => Err(required_message(key)),
    }
}

/// A request for a new backup task: the plan, and the checkpoint it builds
/// on when one is named.
pub open spec fn spec_backup_task_request(params: JsonValue) -> Result<
    (Seq<char>, Option<Seq<char>>),
    RpcErrorView,
> {
    match spec_required_str(params, "plan_id"@) {
        Err(e) => Err(e),
        Ok(plan) => Ok(
            (
                plan,
                match spec_get(params, "parent_checkpoint_id"@) {
                    Some(v) => Some(spec_as_str(v)->0),
                    None => None,
                },
            ),
        ),
    }
}

/// Reads a request for a new backup task (see `spec_backup_task_request`).
pub fn parse_create_backup_task_request(params: &JsonValue) -> (r: Result<
    (String, Option<String>),
    RpcError,
>)
    requires
        !spec_not_str(*params, "plan_id"@),
        spec_get(*params, "plan_id"@) is Some ==> !spec_not_str(*params, "parent_checkpoint_id"@),
    ensures
        match (r, spec_backup_task_request(*params)) {
            (Ok((p, c)), Ok((sp, sc))) => p@ == sp && match (c, sc) {
                (Some(x), Some(y)) => x@ == y,
                (None, None) => true,
                _ => false,
            },
            (Err(x), Err(y)) => x@ == y,
            _ => false,
        },
{
    let plan = match required_str_param(params, "plan_id") {
        Ok(p) => p,
        Err(e) => return Err(e),
    };
    let parent = match params.get("parent_checkpoint_id") {
        Some(JsonValue::String(s)) => Some(s.clone()),
        _ => None,
    };
    Ok((plan, parent))
}

/// A restore configuration read as its deserialiser reads it: an object
/// with a string `restore_location_url`, a boolean `is_clean_restore` and
/// optional `params` (absent or null is none), or an array of exactly
/// those three in that order.
pub open spec fn spec_restore_config(v: JsonValue) -> Option<(Seq<char>, bool, Option<JsonValue>)> {
    let (url, clean, params) = match v {
        JsonValue::Object(m) => (
            spec_get(v, "restore_location_url"@),
            spec_get(v, "is_clean_restore"@),
            Some(
                match spec_get(v, "params"@) {
                    Some(JsonValue::Null) => None,
                    p => p,
                },
            ),
        ),
        JsonValue::Array(a) => if a@.len() == 3 {
            (Some(a@[0]), Some(a@[1]), Some(if a@[2] is Null { None } else { Some(a@[2]) }))
        } else {
            (None, None, None)
        },
        _ => (None, None, None),
    };
    match (url, clean, params) {
        (Some(JsonValue::String(u)), Some(JsonValue::Bool(b)), Some(p)) => Some((u@, b, p)),
        _ => None,
    }
}

/// Reads a restore configuration (see `spec_restore_config`).
pub fn parse_restore_config(v: JsonValue) -> (r: Option<RestoreConfig>)
    ensures
        match (r, spec_restore_config(v)) {
            (Some(c), Some((u, b, p))) => c.restore_location_url@ == u && c.is_clean_restore == b
                && c.params == p,
            (None, None) => true,
            _ => false,
        },
{
    let (url, clean, params) = match v {
        JsonValue::Object(m) => {
            let obj = JsonValue::Object(m);
            let url = match obj.get("restore_location_url") {
                Some(JsonValue::String(s)) => Some(s.clone()),
                _ => None,
            };
            let clean = match obj.get("is_clean_restore") {
                Some(JsonValue::Bool(b)) => Some(*b),
                _ => None,
            };
            let params = match obj.take_member("params") {
                Some(JsonValue::Null) => None,
                p => p,
            };
            (url, clean, Some(params))
        },
        JsonValue::Array(a) => {
            if a.len() != 3 {
                return None;
            }
            let mut a = a;
            let third = a.pop().unwrap();
            let second = a.pop().unwrap();
            let first = a.pop().unwrap();
            let url = match first {
                JsonValue::String(s) => Some(s),
                _ => None,
            };
            let clean = match second {
                JsonValue::Bool(b) => Some(b),
                _ => None,
            };
            let params = match third {
                JsonValue::Null => None,
                p => Some(p),
            };
            (url, clean, Some(params))
        },
        _ => return None,
    };
    match (url, clean, params) {
        (Some(u), Some(b), Some(p)) => Some(
            RestoreConfig { restore_location_url: u, is_clean_restore: b, params: p },
        ),
        _ => None,
    }
}

/// A request for a restore: the plan, the checkpoint and the restore
/// configuration, each required (in that order); the configuration must
/// read as one.
pub open spec fn spec_restore_task_request(params: JsonValue) -> Result<
    (Seq<char>, Seq<char>, (Seq<char>, bool, Option<JsonValue>)),
    RpcErrorView,
> {
    if spec_get(params, "plan_id"@) is None {
        Err(parse_error("plan_id is required"@))
    } else if spec_get(params, "checkpoint_id"@) is None {
        Err(parse_error("checkpoint_id is required"@))
    } else if spec_get(params, "cfg"@) is None {
        Err(parse_error("cfg is required"@))
    } else {
        match spec_restore_config(spec_get(params, "cfg"@)->0) {
            None => Err(parse_error("cfg format error"@)),
            Some(c) => Ok(
                (
                    spec_as_str(spec_get(params, "plan_id"@)->0)->0,
                    spec_as_str(spec_get(params, "checkpoint_id"@)->0)->0,
                    c,
                ),
            ),
        }
    }
}

fn refuse(m: &str) -> (e: RpcError)
    ensures
        e@ == parse_error(m@),
{
    RpcError::ParseRequestError(String::from_str(m))
}

/// Reads a request for a restore (see `spec_restore_task_request`).
pub fn parse_create_restore_task_request(params: JsonValue) -> (r: Result<
    (String, String, RestoreConfig),
    RpcError,
>)
    requires
        spec_get(params, "plan_id"@) is Some && spec_get(params, "checkpoint_id"@) is Some
            && spec_get(params, "cfg"@) is Some ==> !spec_not_str(params, "plan_id"@)
            && !spec_not_str(params, "checkpoint_id"@),
    ensures
        match (r, spec_restore_task_request(params)) {
            (Ok((p, c, cfg)), Ok((sp, sc, (u, b, q)))) => p@ == sp && c@ == sc
                && cfg.restore_location_url@ == u && cfg.is_clean_restore == b && cfg.params == q,
            (Err(x), Err(y)) => x@ == y,
            _ => false,
        },
{
    let plan = match params.get("plan_id") {
        Some(JsonValue::String(s)) => Some(s.clone()),
        Some(_) => None,
        None => return Err(refuse("plan_id is required")),
    };
    let checkpoint = match params.get("checkpoint_id") {
        Some(JsonValue::String(s)) => Some(s.clone()),
        Some(_) => None,
        None => return Err(refuse("checkpoint_id is required")),
    };
    let ghost cfg_value = spec_get(params, "cfg"@);
    let cfg = match params.take_member("cfg") {
        Some(v) => v,
        None => return Err(refuse("cfg is required")),
    };
    let (plan, checkpoint) = match (plan, checkpoint) {
        (Some(p), Some(c)) => (p, c),
        _ => return Err(refuse("plan_id is required")),
    };
    match parse_restore_config(cfg) {
        Some(c) => Ok((plan, checkpoint, c)),
        None => Err(refuse("cfg format error")),
    }
}

/// The answer about a task: its JSON, with the size its backup items add
/// up to in place of its own total size.
pub fn task_detail_json(task: WorkTask, total_size: u64) -> (v: JsonValue)
    ensures
        v matches JsonValue::Object(m) && spec_task_json(WorkTask { total_size, ..task }, m@),
{
    let mut t = task;
    t.total_size = total_size;
    t.to_json_value()
}

/// The members of the answer about a plan: the plan's own, then whether a
/// backup of it runs, its target's type, URL and name, and the size and
/// number of its completed backups.
pub open spec fn spec_plan_detail_json(
    plan: BackupPlanConfig,
    is_running: bool,
    target: BackupTargetRecord,
    total_size: u64,
    total_backup: u64,
    m: Seq<(String, JsonValue)>,
) -> bool {
    &&& m.len() == 16
    &&& spec_plan_json(plan, m.take(10))
    &&& spec_value_member(m[10], "is_running"@, JsonValue::Bool(is_running))
    &&& spec_str_member(m[11], "target_type"@, target.target_type@)
    &&& spec_str_member(m[12], "target_url"@, target.url@)
    &&& spec_str_member(m[13], "target_name"@, target.name@)
    &&& spec_value_member(m[14], "total_size"@, spec_json_u64(total_size))
    &&& spec_value_member(m[15], "total_backup"@, spec_json_u64(total_backup))
}

/// The answer about a plan (see `spec_plan_detail_json`).
pub fn plan_detail_json(
    plan: &BackupPlanConfig,
    is_running: bool,
    target: &BackupTargetRecord,
    total_size: u64,
    total_backup: u64,
) -> (v: JsonValue)
    ensures
        v matches JsonValue::Object(m) && spec_plan_detail_json(
            *plan,
            is_running,
            *target,
            total_size,
            total_backup,
            m@,
        ),
{
    let base = plan.to_json_value();
    let mut m = match base {
        JsonValue::Object(m) => m,
        _ => Vec::new(),
    };
    let ghost b = m@;
    push_member(&mut m, "is_running", JsonValue::Bool(is_running));
    push_str_member(&mut m, "target_type", target.target_type.as_str());
    push_str_member(&mut m, "target_url", target.url.as_str());
    push_str_member(&mut m, "target_name", target.name.as_str());
    push_member(&mut m, "total_size", json_u64(total_size));
    push_member(&mut m, "total_backup", json_u64(total_backup));
    proof {
        assert(m@.take(10) =~= b);
    }
    JsonValue::Object(m)
}

} // verus!
