//! Requests that create backup plans and backup targets: reading their
//! parameters and building what gets stored.

use vstd::prelude::*;
use crate::json::{JsonValue, spec_get, spec_as_i64, spec_as_bool, spec_as_str};
use crate::rpc_params::{RpcError, RpcErrorView, parse_error, spec_extract_string, extract_string};
use crate::task_model::{BackupPlanConfig, BackupSource};
use crate::text::{chars_of, chars_eq};
use crate::def::spec_starts_with;
use crate::url_text::{check_target_url, spec_adjusted_target_url, url_path_result};

verus! {

/// The parameters of a request for a new plan.
pub struct CreatePlanRequest {
    pub type_str: String,
    pub source_type: String,
    pub source: String,
    pub target_type: String,
    pub target: String,
    pub title: String,
    pub description: String,
    pub policy: JsonValue,
    pub priority: i64,
    pub reserved_versions: i64,
    pub policy_disabled: bool,
}

pub open spec fn spec_refusal_of(r: Result<Seq<char>, RpcErrorView>) -> Option<RpcErrorView> {
    match r {
        Ok(_) => None,
        Err(e) => Some(e),
    }
}

/// The first of the required strings of a plan request that is missing or
/// not a string, as the refusal it gets.
pub open spec fn spec_plan_request_refusal(p: JsonValue) -> Option<RpcErrorView> {
    let e1 = spec_refusal_of(spec_extract_string(p, "type_str"@));
    let e2 = spec_refusal_of(spec_extract_string(p, "source_type"@));
    let e3 = spec_refusal_of(spec_extract_string(p, "source"@));
    let e4 = spec_refusal_of(spec_extract_string(p, "target_type"@));
    let e5 = spec_refusal_of(spec_extract_string(p, "target"@));
    let e6 = spec_refusal_of(spec_extract_string(p, "title"@));
    let e7 = spec_refusal_of(spec_extract_string(p, "description"@));
    if e1 is Some {
        e1
    } else if e2 is Some {
        e2
    } else if e3 is Some {
        e3
    } else if e4 is Some {
        e4
    } else if e5 is Some {
        e5
    } else if e6 is Some {
        e6
    } else {
        e7
    }
}

/// An integer parameter, 0 when absent or not an `i64`.
pub open spec fn spec_i64_param(p: JsonValue, key: Seq<char>) -> i64 {
    match spec_get(p, key) {
        Some(v) => match spec_as_i64(v) {
            Some(x) => x,
            None => 0,
        },
        None => 0,
    }
}

/// A flag parameter, false when absent or not a boolean.
pub open spec fn spec_bool_param(p: JsonValue, key: Seq<char>) -> bool {
    match spec_get(p, key) {
        Some(v) => match spec_as_bool(v) {
            Some(x) => x,
            None => false,
        },
        None => false,
    }
}

/// Whether the string parameter `key` holds `v`.
pub open spec fn spec_string_param_is(p: JsonValue, key: Seq<char>, v: Seq<char>) -> bool {
    spec_extract_string(p, key) == Ok::<Seq<char>, RpcErrorView>(v)
}

fn i64_param(p: &JsonValue, key: &str) -> (r: i64)
    ensures
        r == spec_i64_param(*p, key@),
{
    match p.get(key) {
        Some(v) => match v.as_i64() {
            Some(x) => x,
            None => 0,
        },
        None => 0,
    }
}

fn bool_param(p: &JsonValue, key: &str) -> (r: bool)
    ensures
        r == spec_bool_param(*p, key@),
{
    match p.get(key) {
        Some(v) => match v.as_bool() {
            Some(x) => x,
            None => false,
        },
        None => false,
    }
}

/// Reads a request for a new plan. The seven strings are required, in
/// order; the policy defaults to an empty list, the numbers to 0 and the
/// flag to false.
pub fn parse_create_plan_request(params: JsonValue) -> (r: Result<CreatePlanRequest, RpcError>)
    ensures
        match r {
            Err(e) => spec_plan_request_refusal(params) == Some(e@),
            Ok(q) => {
                &&& spec_plan_request_refusal(params) is None
                &&& spec_string_param_is(params, "type_str"@, q.type_str@)
                &&& spec_string_param_is(params, "source_type"@, q.source_type@)
                &&& spec_string_param_is(params, "source"@, q.source@)
                &&& spec_string_param_is(params, "target_type"@, q.target_type@)
                &&& spec_string_param_is(params, "target"@, q.target@)
                &&& spec_string_param_is(params, "title"@, q.title@)
                &&& spec_string_param_is(params, "description"@, q.description@)
                &&& match spec_get(params, "policy"@) {
                    Some(v) => q.policy == v,
                    None => q.policy matches JsonValue::Array(a) && a@.len() == 0,
                }
                &&& q.priority == spec_i64_param(params, "priority"@)
                &&& q.reserved_versions == spec_i64_param(params, "reserved_versions"@)
                &&& q.policy_disabled == spec_bool_param(params, "policy_disabled"@)
            },
        },
{
    let type_str = match extract_string(&params, "type_str") {
        Ok(x) => x,
        Err(e) => return Err(e),
    };
    let source_type = match extract_string(&params, "source_type") {
        Ok(x) => x,
        Err(e) => return Err(e),
    };
    let source = match extract_string(&params, "source") {
        Ok(x) => x,
        Err(e) => return Err(e),
    };
    let target_type = match extract_string(&params, "target_type") {
        Ok(x) => x,
        Err(e) => return Err(e),
    };
    let target = match extract_string(&params, "target") {
        Ok(x) => x,
        Err(e) => return Err(e),
    };
    let title = match extract_string(&params, "title") {
        Ok(x) => x,
        Err(e) => return Err(e),
    };
    let description = match extract_string(&params, "description") {
        Ok(x) => x,
        Err(e) => return Err(e),
    };
    let priority = i64_param(&params, "priority");
    let reserved_versions = i64_param(&params, "reserved_versions");
    let policy_disabled = bool_param(&params, "policy_disabled");
    let policy = match params.take_member("policy") {
        Some(v) => v,
        None => JsonValue::Array(Vec::new()),
    };
    Ok(
        CreatePlanRequest {
            type_str,
            source_type,
            source,
            target_type,
            target,
            title,
            description,
            policy,
            priority,
            reserved_versions,
            policy_disabled,
        },
    )
}

/// The plan a request asks for: only chunk-to-chunk plans (`c2c`) are
/// known. The plan starts at checkpoint index 0 and is stamped with `now_ms`
/// as creation and update time.
pub fn plan_config_for_request(
    req: CreatePlanRequest,
    source_url: &str,
    target_id: &str,
    now_ms: i64,
) -> (r: Result<BackupPlanConfig, RpcError>)
    ensures
        req.type_str@ != "c2c"@ ==> (r matches Err(e) && e@ == parse_error(
            "unknown type_str: "@ + req.type_str@,
        )),
        req.type_str@ == "c2c"@ ==> (r matches Ok(c) && c.source matches BackupSource::ChunkList(u)
            && u@ == source_url@ && c.target@ == target_id@ && c.title@ == req.title@
            && c.description@ == req.description@ && c.type_str@ == "c2c"@
            && c.last_checkpoint_index == 0 && c.policy == req.policy && c.priority == req.priority
            && c.create_time == now_ms as u64 && c.update_time == now_ms as u64
            && !c.policy_disabled),
{
    if !chars_eq(&chars_of(req.type_str.as_str()), &chars_of("c2c")) {
        let mut m = String::from_str("unknown type_str: ");
        m.append(req.type_str.as_str());
        return Err(RpcError::ParseRequestError(m));
    }
    let mut config = BackupPlanConfig::chunk2chunk(
        source_url,
        target_id,
        req.title.as_str(),
        req.description.as_str(),
    );
    config.last_checkpoint_index = 0;
    config.policy = req.policy;
    config.priority = req.priority;
    let now = now_ms as u64;
    config.create_time = now;
    config.update_time = now;
    Ok(config)
}

/// The parameters of a request for a new target.
pub struct CreateTargetRequest {
    pub target_type: String,
    /// The URL as stored (see `spec_adjusted_target_url`).
    pub url: String,
    pub name: String,
    pub description: Option<String>,
    /// The target's configuration; a null one counts as none.
    pub config: Option<JsonValue>,
}

/// The refusal of a target request that the parameters alone decide:
/// a missing type, URL or name, or one that is not a string.
pub open spec fn spec_target_request_refusal(p: JsonValue) -> Option<RpcErrorView> {
    if spec_get(p, "target_type"@) is None || spec_get(p, "url"@) is None || spec_get(p, "name"@) is None {
        Some(parse_error("target_type, url, name are required"@))
    } else if spec_as_str(spec_get(p, "target_type"@)->0) is None {
        Some(parse_error("target_type must be a string"@))
    } else if spec_as_str(spec_get(p, "url"@)->0) is None {
        Some(parse_error("url must be a string"@))
    } else {
        None
    }
}

/// The URL of a target request as stored, once the type and URL are
/// strings.
pub open spec fn spec_target_request_url(p: JsonValue) -> Seq<char> {
    spec_adjusted_target_url(
        spec_as_str(spec_get(p, "target_type"@)->0)->0,
        spec_as_str(spec_get(p, "url"@)->0)->0,
    )
}

/// Reads a request for a new target. The type, URL and name are required
/// strings; the URL is checked (see `check_target_url`).
pub fn parse_create_target_request(params: JsonValue) -> (r: Result<CreateTargetRequest, RpcError>)
    ensures
        spec_target_request_refusal(params) matches Some(e) ==> (r matches Err(x) && x@ == e),
        spec_target_request_refusal(params) is None ==> match r {
            Ok(q) => {
                &&& q.target_type@ == spec_as_str(spec_get(params, "target_type"@)->0)->0
                &&& q.url@ == spec_target_request_url(params)
                &&& spec_as_str(spec_get(params, "name"@)->0) == Some(q.name@)
                &&& q.description.is_some() == (spec_get(params, "description"@) matches Some(d)
                    && spec_as_str(d) is Some)
                &&& q.description matches Some(d) ==> spec_get(params, "description"@) matches Some(
                    v,
                ) && spec_as_str(v) == Some(d@)
                &&& match spec_get(params, "config"@) {
                    Some(JsonValue::Null) => q.config is None,
                    Some(v) => q.config == Some(v),
                    None => q.config is None,
                }
            },
            Err(e) => {
                ||| (spec_starts_with(spec_target_request_url(params), "file://"@) && if url_path_result(
                    spec_target_request_url(params),
                ) is Err {
                    e@ == parse_error("source must be a valid file URL"@)
                } else {
                    e@ == parse_error("source must point to a local filesystem path"@)
                })
                ||| (e@ == parse_error("name must be a string"@) && spec_as_str(
                    spec_get(params, "name"@)->0,
                ) is None && (spec_starts_with(spec_target_request_url(params), "file://"@)
                    ==> url_path_result(spec_target_request_url(params)) is Ok))
            },
        },
        spec_target_request_refusal(params) is None && !spec_starts_with(
            spec_target_request_url(params),
            "file://"@,
        ) ==> (r is Ok <==> spec_as_str(
            spec_get(params, "name"@)->0,
        ) is Some),
{
    let (tt, u, n) = match (params.get("target_type"), params.get("url"), params.get("name")) {
        (Some(a), Some(b), Some(c)) => (a, b, c),
        _ => {
            return Err(RpcError::ParseRequestError(String::from_str("target_type, url, name are required")));
        },
    };
    let target_type = match tt.as_str() {
        Some(s) => s,
        None => {
            return Err(RpcError::ParseRequestError(String::from_str("target_type must be a string")));
        },
    };
    let raw_url = match u.as_str() {
        Some(s) => s,
        None => {
            return Err(RpcError::ParseRequestError(String::from_str("url must be a string")));
        },
    };
    let url = match check_target_url(target_type, raw_url) {
        Ok(x) => x,
        Err(e) => return Err(e),
    };
    let name = match n.as_str() {
        Some(s) => String::from_str(s),
        None => {
            return Err(RpcError::ParseRequestError(String::from_str("name must be a string")));
        },
    };
    let target_type = String::from_str(target_type);
    let description = match params.get("description") {
        Some(d) => match d.as_str() {
            Some(s) => Some(String::from_str(s)),
            None => None,
        },
        None => None,
    };
    let config = match params.take_member("config") {
        Some(JsonValue::Null) => None,
        Some(v) => Some(v),
        None => None,
    };
    Ok(CreateTargetRequest { target_type, url, name, description, config })
}

} // verus!
