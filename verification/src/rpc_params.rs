//! Reading the parameters of control requests.

use vstd::prelude::*;
use crate::json::{JsonValue, spec_get, spec_as_str, spec_as_u64, spec_member};
use crate::task_model::{BackupDbError, BackupTargetRecord, SortOrder, spec_db_error_message, TaskOrderField, TaskState, TaskStateView, TaskType, spec_task_state_text};
use crate::task_query::{TaskListQuery, str_lowercase, to_lowercase};
use crate::text::{chars_of, chars_eq, string_from_chars, spec_string_views, spec_is_ascii_digit};
use crate::def::prefixed;
use crate::task_flow::{str_trim, trim_text};

verus! {

/// Errors answered to a control request.
pub enum RpcError {
    ParseRequestError(String),
    ReasonError(String),
}

pub enum RpcErrorView {
    ParseRequestError(Seq<char>),
    ReasonError(Seq<char>),
}

impl View for RpcError {
    type V = RpcErrorView;

    open spec fn view(&self) -> RpcErrorView {
        match self {
            RpcError::ParseRequestError(m) => RpcErrorView::ParseRequestError(m@),
            RpcError::ReasonError(m) => RpcErrorView::ReasonError(m@),
        }
    }
}

pub open spec fn parse_error(m: Seq<char>) -> RpcErrorView {
    RpcErrorView::ParseRequestError(m)
}

fn parse_err(m: String) -> (e: RpcError)
    ensures
        e@ == parse_error(m@),
{
    RpcError::ParseRequestError(m)
}

fn parse_err_lit(m: &str) -> (e: RpcError)
    ensures
        e@ == parse_error(m@),
{
    RpcError::ParseRequestError(String::from_str(m))
}

fn str_is(s: &str, lit: &str) -> (b: bool)
    ensures
        b == (s@ == lit@),
{
    chars_eq(&chars_of(s), &chars_of(lit))
}

/// The state a filter name stands for (a failure of any message for
/// `FAILED`).
pub open spec fn spec_state_from_name(s: Seq<char>) -> Option<TaskStateView> {
    if s == "RUNNING"@ {
        Some(TaskStateView::Running)
    } else if s == "PENDING"@ {
        Some(TaskStateView::Pending)
    } else if s == "PAUSED"@ {
        Some(TaskStateView::Paused)
    } else if s == "DONE"@ {
        Some(TaskStateView::Done)
    } else if s == "FAILED"@ {
        Some(TaskStateView::Failed(Seq::empty()))
    } else {
        None
    }
}

pub fn parse_task_state_from_str(value: &str) -> (r: Option<TaskState>)
    ensures
        match (r, spec_state_from_name(value@)) {
            (Some(x), Some(y)) => x@ == y,
            (None, None) => true,
            _ => false,
        },
{
    if str_is(value, "RUNNING") {
        Some(TaskState::Running)
    } else if str_is(value, "PENDING") {
        Some(TaskState::Pending)
    } else if str_is(value, "PAUSED") {
        Some(TaskState::Paused)
    } else if str_is(value, "DONE") {
        Some(TaskState::Done)
    } else if str_is(value, "FAILED") {
        Some(TaskState::Failed(String::new()))
    } else {
        None
    }
}

/// A state filter names states by their text: the name of every state that
/// a filter can name (running, pending, paused, done) reads back as that very
/// state, `FAILED` reads as a failure, and the names a filter cannot use
/// (pausing, removed, a failure's full text) are refused, as is any text
/// that is none of the five names.
pub proof fn law_state_names_read_back(s: TaskStateView, t: Seq<char>)
    ensures
        spec_state_from_name(t) is Some ==> t == "RUNNING"@ || t == "PENDING"@ || t == "PAUSED"@
            || t == "DONE"@ || t == "FAILED"@,
        (s is Running || s is Pending || s is Paused || s is Done) ==> spec_state_from_name(
            spec_task_state_text(s),
        ) == Some(s),
        spec_state_from_name("FAILED"@) == Some(TaskStateView::Failed(Seq::empty())),
        (s is Pausing || s is Remove) ==> spec_state_from_name(spec_task_state_text(s)) is None,
        s is Failed ==> spec_state_from_name(spec_task_state_text(s)) is None,
{
    reveal_strlit("RUNNING");
    reveal_strlit("PENDING");
    reveal_strlit("PAUSED");
    reveal_strlit("PAUSING");
    reveal_strlit("DONE");
    reveal_strlit("FAILED");
    reveal_strlit("FAILED:");
    reveal_strlit("REMOVE");
    assert("PENDING"@ != "RUNNING"@) by {
        assert("PENDING"@[0] != "RUNNING"@[0]);
    }
    assert("PAUSED"@ != "RUNNING"@ && "PAUSED"@ != "PENDING"@) by {
        assert("PAUSED"@.len() != "RUNNING"@.len());
        assert("PAUSED"@.len() != "PENDING"@.len());
    }
    assert("DONE"@ != "RUNNING"@ && "DONE"@ != "PENDING"@ && "DONE"@ != "PAUSED"@) by {
        assert("DONE"@.len() == 4);
    }
    assert("FAILED"@ != "RUNNING"@ && "FAILED"@ != "PENDING"@ && "FAILED"@ != "PAUSED"@
        && "FAILED"@ != "DONE"@) by {
        assert("FAILED"@[0] != "PAUSED"@[0]);
        assert("FAILED"@.len() == 6);
    }
    assert("PAUSING"@ != "RUNNING"@ && "PAUSING"@ != "PENDING"@ && "PAUSING"@ != "PAUSED"@
        && "PAUSING"@ != "DONE"@ && "PAUSING"@ != "FAILED"@) by {
        assert("PAUSING"@[0] != "RUNNING"@[0]);
        assert("PAUSING"@[1] != "PENDING"@[1]);
        assert("PAUSING"@.len() != "PAUSED"@.len());
    }
    assert("REMOVE"@ != "RUNNING"@ && "REMOVE"@ != "PENDING"@ && "REMOVE"@ != "PAUSED"@
        && "REMOVE"@ != "DONE"@ && "REMOVE"@ != "FAILED"@) by {
        assert("REMOVE"@[1] != "RUNNING"@[1]);
        assert("REMOVE"@[0] != "PENDING"@[0]);
        assert("REMOVE"@[0] != "PAUSED"@[0]);
        assert("REMOVE"@.len() != "DONE"@.len());
        assert("REMOVE"@[0] != "FAILED"@[0]);
    }
    if s is Failed {
        let t = spec_task_state_text(s);
        assert(t.len() >= 7);
        assert(t[6] == ':');
        assert(t != "FAILED"@);
        assert(t != "RUNNING"@) by {
            assert("RUNNING"@[6] != ':');
        }
        assert(t != "PENDING"@) by {
            assert("PENDING"@[6] != ':');
        }
        assert(t != "PAUSED"@);
        assert(t != "DONE"@);
    }
}

pub open spec fn spec_type_from_name(s: Seq<char>) -> Option<TaskType> {
    if s == "BACKUP"@ {
        Some(TaskType::Backup)
    } else if s == "RESTORE"@ {
        Some(TaskType::Restore)
    } else {
        None
    }
}

pub fn parse_task_type_from_str(value: &str) -> (r: Option<TaskType>)
    ensures
        r == spec_type_from_name(value@),
{
    if str_is(value, "BACKUP") {
        Some(TaskType::Backup)
    } else if str_is(value, "RESTORE") {
        Some(TaskType::Restore)
    } else {
        None
    }
}

/// One element of a state filter.
pub open spec fn spec_state_item(v: JsonValue) -> Result<TaskStateView, RpcErrorView> {
    match spec_as_str(v) {
        None => Err(parse_error("state filter must be an array of strings"@)),
        Some(s) => match spec_state_from_name(s) {
            Some(st) => Ok(st),
            None => Err(parse_error("unsupported task state filter: "@ + s)),
        },
    }
}


pub open spec fn spec_collect_states(items: Seq<JsonValue>) -> Result<Seq<TaskStateView>, RpcErrorView>
    decreases items.len(),
{
    if items.len() == 0 {
        Ok(Seq::empty())
    } else {
        match spec_collect_states(items.drop_last()) {
            Err(e) => Err(e),
            Ok(v) => match spec_state_item(items.last()) {
                Ok(x) => Ok(v.push(x)),
                Err(e) => Err(e),
            },
        }
    }
}

proof fn lemma_collect_states_err(items: Seq<JsonValue>, k: int, e: RpcErrorView)
    requires
        0 <= k <= items.len(),
        spec_collect_states(items.take(k)) == Err::<Seq<TaskStateView>, RpcErrorView>(e),
    ensures
        spec_collect_states(items) == Err::<Seq<TaskStateView>, RpcErrorView>(e),
    decreases items.len() - k,
{
    if k == items.len() {
        assert(items.take(k) =~= items);
    } else {
        assert(items.take(k + 1).drop_last() =~= items.take(k));
        lemma_collect_states_err(items, k + 1, e);
    }
}

pub open spec fn spec_collect_types(items: Seq<JsonValue>) -> Result<Seq<TaskType>, RpcErrorView>
    decreases items.len(),
{
    if items.len() == 0 {
        Ok(Seq::empty())
    } else {
        match spec_collect_types(items.drop_last()) {
            Err(e) => Err(e),
            Ok(v) => match spec_type_item(items.last()) {
                Ok(x) => Ok(v.push(x)),
                Err(e) => Err(e),
            },
        }
    }
}

proof fn lemma_collect_types_err(items: Seq<JsonValue>, k: int, e: RpcErrorView)
    requires
        0 <= k <= items.len(),
        spec_collect_types(items.take(k)) == Err::<Seq<TaskType>, RpcErrorView>(e),
    ensures
        spec_collect_types(items) == Err::<Seq<TaskType>, RpcErrorView>(e),
    decreases items.len() - k,
{
    if k == items.len() {
        assert(items.take(k) =~= items);
    } else {
        assert(items.take(k + 1).drop_last() =~= items.take(k));
        lemma_collect_types_err(items, k + 1, e);
    }
}

pub open spec fn spec_collect_strings(items: Seq<JsonValue>, field: Seq<char>) -> Result<Seq<Seq<char>>, RpcErrorView>
    decreases items.len(),
{
    if items.len() == 0 {
        Ok(Seq::empty())
    } else {
        match spec_collect_strings(items.drop_last(), field) {
            Err(e) => Err(e),
            Ok(v) => match spec_string_item(field, items.last()) {
                Ok(x) => Ok(v.push(x)),
                Err(e) => Err(e),
            },
        }
    }
}

proof fn lemma_collect_strings_err(items: Seq<JsonValue>, field: Seq<char>, k: int, e: RpcErrorView)
    requires
        0 <= k <= items.len(),
        spec_collect_strings(items.take(k), field) == Err::<Seq<Seq<char>>, RpcErrorView>(e),
    ensures
        spec_collect_strings(items, field) == Err::<Seq<Seq<char>>, RpcErrorView>(e),
    decreases items.len() - k,
{
    if k == items.len() {
        assert(items.take(k) =~= items);
    } else {
        assert(items.take(k + 1).drop_last() =~= items.take(k));
        lemma_collect_strings_err(items, field, k + 1, e);
    }
}

/// A state filter: an array of state names, or null for none.
pub open spec fn spec_parse_task_states(v: JsonValue) -> Result<Seq<TaskStateView>, RpcErrorView> {
    match v {
        JsonValue::Array(items) => spec_collect_states(items@),
        JsonValue::Null => Ok(Seq::empty()),
        _ => Err(parse_error("state filter must be an array of strings"@)),
    }
}

pub open spec fn spec_state_views(v: Seq<TaskState>) -> Seq<TaskStateView> {
    v.map_values(|s: TaskState| s@)
}

pub fn parse_task_states(value: &JsonValue) -> (r: Result<Vec<TaskState>, RpcError>)
    ensures
        match (r, spec_parse_task_states(*value)) {
            (Ok(x), Ok(y)) => spec_state_views(x@) == y,
            (Err(x), Err(y)) => x@ == y,
            _ => false,
        },
{
    match value {
        JsonValue::Array(items) => {
            let mut result: Vec<TaskState> = Vec::new();
            assert(spec_state_views(result@) =~= Seq::<TaskStateView>::empty());
            let mut i: usize = 0;
            assert(items@.take(0) =~= Seq::<JsonValue>::empty());
            while i < items.len()
                invariant
                    i <= items@.len(),
                    spec_parse_task_states(*value) == spec_collect_states(items@),
                    spec_collect_states(items@.take(i as int)) == Ok::<Seq<TaskStateView>, RpcErrorView>(
                        spec_state_views(result@),
                    ),
                decreases items.len() - i,
            {
                proof {
                    assert(items@.take(i + 1).drop_last() =~= items@.take(i as int));
                    assert(items@.take(i + 1).last() == items@[i as int]);
                }
                let s = match items[i].as_str() {
                    Some(s) => s,
                    None => {
                        let e = parse_err_lit("state filter must be an array of strings");
                        proof {
                            assert(spec_collect_states(items@.take(i + 1)) == Err::<
                                Seq<TaskStateView>,
                                RpcErrorView,
                            >(e@));
                            lemma_collect_states_err(items@, i + 1, e@);
                        }
                        return Err(e);
                    },
                };
                let st = match parse_task_state_from_str(s) {
                    Some(st) => st,
                    None => {
                        let e = parse_err(prefixed("unsupported task state filter: ", s));
                        proof {
                            assert(spec_collect_states(items@.take(i + 1)) == Err::<
                                Seq<TaskStateView>,
                                RpcErrorView,
                            >(e@));
                            lemma_collect_states_err(items@, i + 1, e@);
                        }
                        return Err(e);
                    },
                };
                let ghost before = spec_state_views(result@);
                result.push(st);
                assert(spec_state_views(result@) =~= before.push(st@));
                i = i + 1;
            }
            assert(items@.take(items@.len() as int) =~= items@);
            Ok(result)
        },
        JsonValue::Null => {
            let v: Vec<TaskState> = Vec::new();
            assert(spec_state_views(v@) =~= Seq::<TaskStateView>::empty());
            Ok(v)
        },
        _ => Err(parse_err_lit("state filter must be an array of strings")),
    }
}

/// One element of a type filter.
pub open spec fn spec_type_item(v: JsonValue) -> Result<TaskType, RpcErrorView> {
    match spec_as_str(v) {
        None => Err(parse_error("type filter must be an array of strings"@)),
        Some(s) => match spec_type_from_name(s) {
            Some(t) => Ok(t),
            None => Err(parse_error("unsupported task type filter: "@ + s)),
        },
    }
}

/// A type filter: an array of type names, or null for none.
pub open spec fn spec_parse_task_types(v: JsonValue) -> Result<Seq<TaskType>, RpcErrorView> {
    match v {
        JsonValue::Array(items) => spec_collect_types(items@),
        JsonValue::Null => Ok(Seq::empty()),
        _ => Err(parse_error("type filter must be an array of strings"@)),
    }
}

pub fn parse_task_types(value: &JsonValue) -> (r: Result<Vec<TaskType>, RpcError>)
    ensures
        match (r, spec_parse_task_types(*value)) {
            (Ok(x), Ok(y)) => x@ == y,
            (Err(x), Err(y)) => x@ == y,
            _ => false,
        },
{
    match value {
        JsonValue::Array(items) => {
            let mut result: Vec<TaskType> = Vec::new();
            let mut i: usize = 0;
            assert(items@.take(0) =~= Seq::<JsonValue>::empty());
            while i < items.len()
                invariant
                    i <= items@.len(),
                    spec_parse_task_types(*value) == spec_collect_types(items@),
                    spec_collect_types(items@.take(i as int)) == Ok::<Seq<TaskType>, RpcErrorView>(
                        result@,
                    ),
                decreases items.len() - i,
            {
                proof {
                    assert(items@.take(i + 1).drop_last() =~= items@.take(i as int));
                    assert(items@.take(i + 1).last() == items@[i as int]);
                }
                let s = match items[i].as_str() {
                    Some(s) => s,
                    None => {
                        let e = parse_err_lit("type filter must be an array of strings");
                        proof {
                            assert(spec_collect_types(items@.take(i + 1)) == Err::<
                                Seq<TaskType>,
                                RpcErrorView,
                            >(e@));
                            lemma_collect_types_err(items@, i + 1, e@);
                        }
                        return Err(e);
                    },
                };
                let t = match parse_task_type_from_str(s) {
                    Some(t) => t,
                    None => {
                        let e = parse_err(prefixed("unsupported task type filter: ", s));
                        proof {
                            assert(spec_collect_types(items@.take(i + 1)) == Err::<
                                Seq<TaskType>,
                                RpcErrorView,
                            >(e@));
                            lemma_collect_types_err(items@, i + 1, e@);
                        }
                        return Err(e);
                    },
                };
                result.push(t);
                i = i + 1;
            }
            assert(items@.take(items@.len() as int) =~= items@);
            Ok(result)
        },
        JsonValue::Null => Ok(Vec::new()),
        _ => Err(parse_err_lit("type filter must be an array of strings")),
    }
}

/// One element of a string filter named `field`.
pub open spec fn spec_string_item(field: Seq<char>, v: JsonValue) -> Result<Seq<char>, RpcErrorView> {
    match spec_as_str(v) {
        None => Err(parse_error(field + " filter must be an array of strings"@)),
        Some(s) => Ok(s),
    }
}

/// A string filter named `field`: an array of strings, or null for none.
pub open spec fn spec_parse_string_list(v: JsonValue, field: Seq<char>) -> Result<
    Seq<Seq<char>>,
    RpcErrorView,
> {
    match v {
        JsonValue::Array(items) => spec_collect_strings(items@, field),
        JsonValue::Null => Ok(Seq::empty()),
        _ => Err(parse_error(field + " filter must be an array of strings"@)),
    }
}

pub fn parse_string_list(value: &JsonValue, field: &str) -> (r: Result<Vec<String>, RpcError>)
    ensures
        match (r, spec_parse_string_list(*value, field@)) {
            (Ok(x), Ok(y)) => spec_string_views(x@) == y,
            (Err(x), Err(y)) => x@ == y,
            _ => false,
        },
{
    match value {
        JsonValue::Array(items) => {
            let mut result: Vec<String> = Vec::new();
            assert(spec_string_views(result@) =~= Seq::<Seq<char>>::empty());
            let mut i: usize = 0;
            assert(items@.take(0) =~= Seq::<JsonValue>::empty());
            while i < items.len()
                invariant
                    i <= items@.len(),
                    spec_parse_string_list(*value, field@) == spec_collect_strings(items@, field@),
                    spec_collect_strings(items@.take(i as int), field@) == Ok::<Seq<Seq<char>>, RpcErrorView>(
                        spec_string_views(result@),
                    ),
                decreases items.len() - i,
            {
                proof {
                    assert(items@.take(i + 1).drop_last() =~= items@.take(i as int));
                    assert(items@.take(i + 1).last() == items@[i as int]);
                }
                let s = match items[i].as_str() {
                    Some(s) => s,
                    None => {
                        let mut m = String::from_str(field);
                        m.append(" filter must be an array of strings");
                        let e = parse_err(m);
                        proof {
                            assert(spec_collect_strings(items@.take(i + 1), field@) == Err::<
                                Seq<Seq<char>>,
                                RpcErrorView,
                            >(e@));
                            lemma_collect_strings_err(items@, field@, i + 1, e@);
                        }
                        return Err(e);
                    },
                };
                let ghost before = spec_string_views(result@);
                result.push(String::from_str(s));
                assert(spec_string_views(result@) =~= before.push(s@));
                i = i + 1;
            }
            assert(items@.take(items@.len() as int) =~= items@);
            Ok(result)
        },
        JsonValue::Null => {
            let v: Vec<String> = Vec::new();
            assert(spec_string_views(v@) =~= Seq::<Seq<char>>::empty());
            Ok(v)
        },
        _ => {
            let mut m = String::from_str(field);
            m.append(" filter must be an array of strings");
            Err(parse_err(m))
        },
    }
}

/// One `[field, order]` pair of an ordering.
pub open spec fn spec_order_item(v: JsonValue) -> Result<(TaskOrderField, SortOrder), RpcErrorView> {
    match v {
        JsonValue::Array(pair) => if pair@.len() != 2 {
            Err(parse_error("order_by entries must be [field, order] arrays"@))
        } else {
            match (spec_as_str(pair@[0]), spec_as_str(pair@[1])) {
                (None, _) => Err(parse_error("order_by field must be a string"@)),
                (Some(_), None) => Err(parse_error("order_by order must be a string"@)),
                (Some(f), Some(o)) => {
                    let field = if f == "create_time"@ {
                        Some(TaskOrderField::CreateTime)
                    } else if f == "update_time"@ {
                        Some(TaskOrderField::UpdateTime)
                    } else if f == "complete_time"@ {
                        Some(TaskOrderField::CompleteTime)
                    } else {
                        None
                    };
                    let dir = if o == "asc"@ {
                        Some(SortOrder::Asc)
                    } else if o == "desc"@ {
                        Some(SortOrder::Desc)
                    } else {
                        None
                    };
                    match (field, dir) {
                        (None, _) => Err(parse_error("unsupported order_by field: "@ + f)),
                        (Some(_), None) => Err(parse_error("unsupported order direction: "@ + o)),
                        (Some(a), Some(b)) => Ok((a, b)),
                    }
                },
            }
        },
        _ => Err(parse_error("order_by entries must be [field, order] arrays"@)),
    }
}

pub open spec fn spec_collect_orders(items: Seq<JsonValue>) -> Result<Seq<(TaskOrderField, SortOrder)>, RpcErrorView>
    decreases items.len(),
{
    if items.len() == 0 {
        Ok(Seq::empty())
    } else {
        match spec_collect_orders(items.drop_last()) {
            Err(e) => Err(e),
            Ok(v) => match spec_order_item(items.last()) {
                Ok(x) => Ok(v.push(x)),
                Err(e) => Err(e),
            },
        }
    }
}

proof fn lemma_collect_orders_err(items: Seq<JsonValue>, k: int, e: RpcErrorView)
    requires
        0 <= k <= items.len(),
        spec_collect_orders(items.take(k)) == Err::<Seq<(TaskOrderField, SortOrder)>, RpcErrorView>(e),
    ensures
        spec_collect_orders(items) == Err::<Seq<(TaskOrderField, SortOrder)>, RpcErrorView>(e),
    decreases items.len() - k,
{
    if k == items.len() {
        assert(items.take(k) =~= items);
    } else {
        assert(items.take(k + 1).drop_last() =~= items.take(k));
        lemma_collect_orders_err(items, k + 1, e);
    }
}

/// An ordering: absent, null or empty for none, else `[field, order]`
/// pairs.
pub open spec fn spec_parse_order_by(v: Option<JsonValue>) -> Result<
    Option<Seq<(TaskOrderField, SortOrder)>>,
    RpcErrorView,
> {
    match v {
        None => Ok(None),
        Some(JsonValue::Null) => Ok(None),
        Some(JsonValue::Array(items)) => if items@.len() == 0 {
            Ok(None)
        } else {
            match spec_collect_orders(items@) {
                Ok(x) => Ok(Some(x)),
                Err(e) => Err(e),
            }
        },
        Some(_) => Err(parse_error("order_by must be an array of [field, order] pairs"@)),
    }
}

fn order_item(v: &JsonValue) -> (r: Result<(TaskOrderField, SortOrder), RpcError>)
    ensures
        match (r, spec_order_item(*v)) {
            (Ok(x), Ok(y)) => x == y,
            (Err(x), Err(y)) => x@ == y,
            _ => false,
        },
{
    let pair = match v {
        JsonValue::Array(pair) => pair,
        _ => {
            return Err(parse_err_lit("order_by entries must be [field, order] arrays"));
        },
    };
    if pair.len() != 2 {
        return Err(parse_err_lit("order_by entries must be [field, order] arrays"));
    }
    let f = match pair[0].as_str() {
        Some(f) => f,
        None => {
            return Err(parse_err_lit("order_by field must be a string"));
        },
    };
    let o = match pair[1].as_str() {
        Some(o) => o,
        None => {
            return Err(parse_err_lit("order_by order must be a string"));
        },
    };
    let field = if str_is(f, "create_time") {
        TaskOrderField::CreateTime
    } else if str_is(f, "update_time") {
        TaskOrderField::UpdateTime
    } else if str_is(f, "complete_time") {
        TaskOrderField::CompleteTime
    } else {
        return Err(parse_err(prefixed("unsupported order_by field: ", f)));
    };
    let dir = if str_is(o, "asc") {
        SortOrder::Asc
    } else if str_is(o, "desc") {
        SortOrder::Desc
    } else {
        return Err(parse_err(prefixed("unsupported order direction: ", o)));
    };
    Ok((field, dir))
}

pub fn parse_order_by(value: Option<&JsonValue>) -> (r: Result<
    Option<Vec<(TaskOrderField, SortOrder)>>,
    RpcError,
>)
    ensures
        match (
            r,
            spec_parse_order_by(
                match value {
                    Some(v) => Some(*v),
                    None => None,
                },
            ),
        ) {
            (Ok(None), Ok(None)) => true,
            (Ok(Some(x)), Ok(Some(y))) => x@ == y,
            (Err(x), Err(y)) => x@ == y,
            _ => false,
        },
{
    let raw = match value {
        None => {
            return Ok(None);
        },
        Some(raw) => raw,
    };
    let items = match raw {
        JsonValue::Array(items) => items,
        JsonValue::Null => {
            return Ok(None);
        },
        _ => {
            return Err(parse_err_lit("order_by must be an array of [field, order] pairs"));
        },
    };
    if items.len() == 0 {
        return Ok(None);
    }
    let mut result: Vec<(TaskOrderField, SortOrder)> = Vec::new();
    let mut i: usize = 0;
    assert(items@.take(0) =~= Seq::<JsonValue>::empty());
    while i < items.len()
        invariant
            i <= items@.len(),
            items@.len() > 0,
            spec_parse_order_by(
                match value {
                    Some(v) => Some(*v),
                    None => None,
                },
            ) == (match spec_collect_orders(items@) {
                Ok(x) => Ok(Some(x)),
                Err(e) => Err(e),
            }),
            spec_collect_orders(items@.take(i as int)) == Ok::<
                Seq<(TaskOrderField, SortOrder)>,
                RpcErrorView,
            >(result@),
        decreases items.len() - i,
    {
        proof {
            assert(items@.take(i + 1).drop_last() =~= items@.take(i as int));
            assert(items@.take(i + 1).last() == items@[i as int]);
        }
        match order_item(&items[i]) {
            Ok(p) => {
                result.push(p);
            },
            Err(e) => {
                proof {
                    lemma_collect_orders_err(items@, i + 1, e@);
                }
                return Err(e);
            },
        }
        i = i + 1;
    }
    assert(items@.take(items@.len() as int) =~= items@);
    Ok(Some(result))
}

/// A required string parameter.
pub open spec fn spec_extract_string(params: JsonValue, key: Seq<char>) -> Result<Seq<char>, RpcErrorView> {
    match spec_get(params, key) {
        None => Err(parse_error(key + " is required"@)),
        Some(v) => match spec_as_str(v) {
            Some(s) => Ok(s),
            None => Err(parse_error(key + " must be a string"@)),
        },
    }
}

pub fn extract_string(params: &JsonValue, key: &str) -> (r: Result<String, RpcError>)
    ensures
        match (r, spec_extract_string(*params, key@)) {
            (Ok(x), Ok(y)) => x@ == y,
            (Err(x), Err(y)) => x@ == y,
            _ => false,
        },
{
    match params.get(key) {
        None => {
            let mut m = String::from_str(key);
            m.append(" is required");
            Err(parse_err(m))
        },
        Some(v) => match v.as_str() {
            Some(s) => Ok(String::from_str(s)),
            None => {
                let mut m = String::from_str(key);
                m.append(" must be a string");
                Err(parse_err(m))
            },
        },
    }
}

/// The answer to a request naming a target that the database could not
/// give: a missing target is named in the answer, any other failure is
/// passed on by its message.
pub fn target_lookup_error(target_id: &str, e: &BackupDbError) -> (r: RpcError)
    ensures
        match e {
            BackupDbError::NotFound(_) => r@ == RpcErrorView::ReasonError(
                "backup target "@ + target_id@ + " not found"@,
            ),
            _ => r@ == RpcErrorView::ReasonError(spec_db_error_message(*e)),
        },
{
    match e {
        BackupDbError::NotFound(_) => {
            let mut m = String::from_str("backup target ");
            m.append(target_id);
            m.append(" not found");
            RpcError::ReasonError(m)
        },
        _ => RpcError::ReasonError(e.to_message()),
    }
}

/// A paging number: a non-negative integer, or absent or null.
pub open spec fn spec_paging_param(params: JsonValue, key: Seq<char>) -> Result<Option<u64>, RpcErrorView> {
    match spec_get(params, key) {
        None => Ok(None),
        Some(JsonValue::Null) => Ok(None),
        Some(v) => match spec_as_u64(v) {
            Some(x) => Ok(Some(x)),
            None => Err(parse_error(key + " must be a non-negative integer"@)),
        },
    }
}

fn paging_param(params: &JsonValue, key: &str) -> (r: Result<Option<u64>, RpcError>)
    ensures
        match (r, spec_paging_param(*params, key@)) {
            (Ok(x), Ok(y)) => x == y,
            (Err(x), Err(y)) => x@ == y,
            _ => false,
        },
{
    match params.get(key) {
        None => Ok(None),
        Some(v) => {
            if v.is_null() {
                return Ok(None);
            }
            match v.as_u64() {
                Some(x) => Ok(Some(x)),
                None => {
                    let mut m = String::from_str(key);
                    m.append(" must be a non-negative integer");
                    Err(parse_err(m))
                },
            }
        },
    }
}

/// What a task filter asks for.
pub struct TaskFilterView {
    pub legacy: Option<Seq<char>>,
    pub states: Seq<TaskStateView>,
    pub types: Seq<TaskType>,
    pub plan_ids: Seq<Seq<char>>,
    pub titles: Seq<Seq<char>>,
}

pub open spec fn spec_optional_list<T>(
    r: Option<Result<Seq<T>, RpcErrorView>>,
) -> Result<Seq<T>, RpcErrorView> {
    match r {
        None => Ok(Seq::empty()),
        Some(x) => x,
    }
}

/// A task filter: absent or null for none, a non-empty string for a legacy
/// state name, or an object with optional `state`, `type`, `owner_plan_id`
/// and `owner_plan_title` lists (titles are matched in lower case).
pub open spec fn spec_parse_filter(f: Option<JsonValue>) -> Result<TaskFilterView, RpcErrorView> {
    let none = TaskFilterView {
        legacy: None,
        states: Seq::empty(),
        types: Seq::empty(),
        plan_ids: Seq::empty(),
        titles: Seq::empty(),
    };
    match f {
        None => Ok(none),
        Some(JsonValue::Null) => Ok(none),
        Some(JsonValue::String(s)) => Ok(
            TaskFilterView {
                legacy: if s@.len() > 0 {
                    Some(s@)
                } else {
                    None
                },
                ..none
            },
        ),
        Some(JsonValue::Object(m)) => {
            let states = spec_optional_list(
                match spec_member(m@, "state"@) {
                    Some(v) => Some(spec_parse_task_states(v)),
                    None => None,
                },
            );
            let types = spec_optional_list(
                match spec_member(m@, "type"@) {
                    Some(v) => Some(spec_parse_task_types(v)),
                    None => None,
                },
            );
            let ids = spec_optional_list(
                match spec_member(m@, "owner_plan_id"@) {
                    Some(v) => Some(spec_parse_string_list(v, "owner_plan_id"@)),
                    None => None,
                },
            );
            let titles = spec_optional_list(
                match spec_member(m@, "owner_plan_title"@) {
                    Some(v) => Some(spec_parse_string_list(v, "owner_plan_title"@)),
                    None => None,
                },
            );
            match (states, types, ids, titles) {
                (Err(e), _, _, _) => Err(e),
                (Ok(_), Err(e), _, _) => Err(e),
                (Ok(_), Ok(_), Err(e), _) => Err(e),
                (Ok(_), Ok(_), Ok(_), Err(e)) => Err(e),
                (Ok(a), Ok(b), Ok(c), Ok(d)) => Ok(
                    TaskFilterView {
                        legacy: None,
                        states: a,
                        types: b,
                        plan_ids: c,
                        titles: d.map_values(|t: Seq<char>| str_lowercase(t)),
                    },
                ),
            }
        },
        Some(_) => Err(parse_error("filter must be a string or object"@)),
    }
}

/// The parts of a parsed task filter.
pub struct TaskFilter {
    pub legacy: Option<String>,
    pub states: Vec<TaskState>,
    pub types: Vec<TaskType>,
    pub plan_ids: Vec<String>,
    pub titles: Vec<String>,
}

pub open spec fn spec_filter_matches(f: TaskFilter, v: TaskFilterView) -> bool {
    &&& match (f.legacy, v.legacy) {
        (Some(a), Some(b)) => a@ == b,
        (None, None) => true,
        _ => false,
    }
    &&& spec_state_views(f.states@) == v.states
    &&& f.types@ == v.types
    &&& spec_string_views(f.plan_ids@) == v.plan_ids
    &&& spec_string_views(f.titles@) == v.titles
}

fn lowercase_all(v: Vec<String>) -> (r: Vec<String>)
    ensures
        spec_string_views(r@) == spec_string_views(v@).map_values(|t: Seq<char>| str_lowercase(t)),
{
    let mut r: Vec<String> = Vec::new();
    let mut i: usize = 0;
    while i < v.len()
        invariant
            i <= v@.len(),
            spec_string_views(r@) == spec_string_views(v@.take(i as int)).map_values(
                |t: Seq<char>| str_lowercase(t),
            ),
        decreases v.len() - i,
    {
        let l = to_lowercase(v[i].as_str());
        let ghost before = r@;
        let ghost lv = l@;
        r.push(l);
        proof {
            assert(spec_string_views(r@) =~= spec_string_views(before).push(lv));
            assert(spec_string_views(v@.take(i + 1)) =~= spec_string_views(v@.take(i as int)).push(
                v@[i as int]@,
            ));
            assert(spec_string_views(v@.take(i + 1)).map_values(|t: Seq<char>| str_lowercase(t))
                =~= spec_string_views(v@.take(i as int)).map_values(
                |t: Seq<char>| str_lowercase(t),
            ).push(str_lowercase(v@[i as int]@)));
        }
        i = i + 1;
    }
    assert(v@.take(v@.len() as int) =~= v@);
    r
}

pub fn parse_task_filter(filter: Option<&JsonValue>) -> (r: Result<TaskFilter, RpcError>)
    ensures
        match (
            r,
            spec_parse_filter(
                match filter {
                    Some(v) => Some(*v),
                    None => None,
                },
            ),
        ) {
            (Ok(x), Ok(y)) => spec_filter_matches(x, y),
            (Err(x), Err(y)) => x@ == y,
            _ => false,
        },
{
    let mut out = TaskFilter {
        legacy: None,
        states: Vec::new(),
        types: Vec::new(),
        plan_ids: Vec::new(),
        titles: Vec::new(),
    };
    proof {
        assert(spec_state_views(out.states@) =~= Seq::<TaskStateView>::empty());
        assert(spec_string_views(out.plan_ids@) =~= Seq::<Seq<char>>::empty());
        assert(spec_string_views(out.titles@) =~= Seq::<Seq<char>>::empty());
    }
    let v = match filter {
        None => {
            return Ok(out);
        },
        Some(v) => v,
    };
    match v {
        JsonValue::Null => Ok(out),
        JsonValue::String(s) => {
            if !s.as_str().is_empty() {
                out.legacy = Some(s.clone());
            }
            Ok(out)
        },
        JsonValue::Object(_) => {
            match v.get("state") {
                Some(x) => {
                    match parse_task_states(x) {
                        Ok(p) => {
                            out.states = p;
                        },
                        Err(e) => {
                            return Err(e);
                        },
                    }
                },
                None => {},
            }
            match v.get("type") {
                Some(x) => {
                    match parse_task_types(x) {
                        Ok(p) => {
                            out.types = p;
                        },
                        Err(e) => {
                            return Err(e);
                        },
                    }
                },
                None => {},
            }
            match v.get("owner_plan_id") {
                Some(x) => {
                    match parse_string_list(x, "owner_plan_id") {
                        Ok(p) => {
                            out.plan_ids = p;
                        },
                        Err(e) => {
                            return Err(e);
                        },
                    }
                },
                None => {},
            }
            match v.get("owner_plan_title") {
                Some(x) => {
                    match parse_string_list(x, "owner_plan_title") {
                        Ok(titles) => {
                            out.titles = lowercase_all(titles);
                        },
                        Err(e) => {
                            return Err(e);
                        },
                    }
                },
                None => {
                    assert(Seq::<Seq<char>>::empty().map_values(|t: Seq<char>| str_lowercase(t))
                        =~= Seq::<Seq<char>>::empty());
                },
            }
            Ok(out)
        },
        _ => Err(parse_err_lit("filter must be a string or object")),
    }
}

/// The first error of the parameters of a task listing, in the order they
/// are read: offset, limit, ordering, filter.
pub open spec fn spec_query_params_error(params: JsonValue) -> Option<RpcErrorView> {
    match (
        spec_paging_param(params, "offset"@),
        spec_paging_param(params, "limit"@),
        spec_parse_order_by(spec_get(params, "order_by"@)),
        spec_parse_filter(spec_get(params, "filter"@)),
    ) {
        (Err(e), _, _, _) => Some(e),
        (Ok(_), Err(e), _, _) => Some(e),
        (Ok(_), Ok(_), Err(e), _) => Some(e),
        (Ok(_), Ok(_), Ok(_), Err(e)) => Some(e),
        _ => None,
    }
}

/// Reads the task listing query of a control request: `offset` and `limit`
/// (non-negative integers), `order_by` and `filter`.
pub fn task_list_query_from_params(params: &JsonValue) -> (r: Result<TaskListQuery, RpcError>)
    ensures
        match r {
            Err(e) => spec_query_params_error(*params) == Some(e@),
            Ok(q) => {
                &&& spec_query_params_error(*params) is None
                &&& spec_paging_param(*params, "offset"@) matches Ok(off) && q.offset == (match off {
                    Some(x) => x as usize,
                    None => 0,
                })
                &&& spec_paging_param(*params, "limit"@) matches Ok(lim) && q.limit == (match lim {
                    Some(x) => Some(x as usize),
                    None => None,
                })
                &&& spec_parse_order_by(spec_get(*params, "order_by"@)) matches Ok(o) && q.order_by@
                    == (match o {
                    Some(x) => x,
                    None => Seq::empty(),
                })
                &&& spec_parse_filter(spec_get(*params, "filter"@)) matches Ok(f)
                    && spec_filter_matches(
                    TaskFilter {
                        legacy: q.legacy_filter,
                        states: q.states,
                        types: q.types,
                        plan_ids: q.owner_plan_ids,
                        titles: q.owner_plan_titles,
                    },
                    f,
                )
            },
        },
{
    let offset = match paging_param(params, "offset") {
        Ok(x) => x,
        Err(e) => {
            return Err(e);
        },
    };
    let limit = match paging_param(params, "limit") {
        Ok(x) => x,
        Err(e) => {
            return Err(e);
        },
    };
    let order_by = match parse_order_by(params.get("order_by")) {
        Ok(x) => x,
        Err(e) => {
            return Err(e);
        },
    };
    let filter = match parse_task_filter(params.get("filter")) {
        Ok(x) => x,
        Err(e) => {
            return Err(e);
        },
    };
    #[verifier::truncate]
    let offset: usize = match offset {
        Some(x) => x as usize,
        None => 0,
    };
    #[verifier::truncate]
    let limit: Option<usize> = match limit {
        Some(x) => Some(x as usize),
        None => None,
    };
    let order_by = match order_by {
        Some(v) => v,
        None => Vec::new(),
    };
    let TaskFilter { legacy, states, types, plan_ids, titles } = filter;
    let q = TaskListQuery {
        legacy_filter: legacy,
        states,
        types,
        owner_plan_ids: plan_ids,
        owner_plan_titles: titles,
        order_by,
        offset,
        limit,
    };
    Ok(q)
}

/// The text after an optional leading `+`.
pub open spec fn spec_unsigned_part(s: Seq<char>) -> Seq<char> {
    if s.len() > 0 && s[0] == '+' {
        s.drop_first()
    } else {
        s
    }
}

pub open spec fn spec_all_digits(d: Seq<char>) -> bool {
    forall|i: int| 0 <= i < d.len() ==> spec_is_ascii_digit(#[trigger] d[i])
}

/// The value of a string of decimal digits.
pub open spec fn spec_decimal(d: Seq<char>) -> int
    decreases d.len(),
{
    if d.len() == 0 {
        0
    } else {
        spec_decimal(d.drop_last()) * 10 + (d.last() as int - '0' as int)
    }
}

/// An unsigned integer read from text as `u64::from_str` reads it: an
/// optional `+`, then one or more decimal digits, within range.
pub open spec fn spec_parse_u64(s: Seq<char>) -> Option<u64> {
    let d = spec_unsigned_part(s);
    if d.len() == 0 || !spec_all_digits(d) {
        None
    } else if spec_decimal(d) > u64::MAX {
        None
    } else {
        Some(spec_decimal(d) as u64)
    }
}

proof fn lemma_decimal_grows(d: Seq<char>, k: int)
    requires
        0 <= k <= d.len(),
        forall|i: int| 0 <= i < d.len() ==> spec_is_ascii_digit(#[trigger] d[i]),
    ensures
        0 <= spec_decimal(d.take(k)) <= spec_decimal(d),
    decreases d.len() - k,
{
    if k < d.len() {
        lemma_decimal_grows(d, k + 1);
        assert(d.take(k + 1).drop_last() =~= d.take(k));
        assert(spec_is_ascii_digit(d[k]));
    } else {
        assert(d.take(k) =~= d);
        lemma_decimal_nonneg(d);
    }
}

proof fn lemma_decimal_nonneg(d: Seq<char>)
    requires
        forall|i: int| 0 <= i < d.len() ==> spec_is_ascii_digit(#[trigger] d[i]),
    ensures
        spec_decimal(d) >= 0,
    decreases d.len(),
{
    if d.len() > 0 {
        let e = d.drop_last();
        assert forall|i: int| 0 <= i < e.len() implies spec_is_ascii_digit(#[trigger] e[i]) by {
            assert(e[i] == d[i]);
        }
        lemma_decimal_nonneg(e);
        assert(spec_is_ascii_digit(d[d.len() - 1]));
    }
}

/// Reads an unsigned integer from text (see `spec_parse_u64`).
pub fn parse_u64_text(s: &str) -> (r: Option<u64>)
    ensures
        r == spec_parse_u64(s@),
{
    let v = chars_of(s);
    let start: usize = if v.len() > 0 && v[0] == '+' {
        1
    } else {
        0
    };
    let ghost d = spec_unsigned_part(s@);
    assert(v@.skip(start as int) =~= d);
    if start == v.len() {
        return None;
    }
    let mut i: usize = start;
    while i < v.len()
        invariant
            start <= i <= v@.len(),
            v@ == s@,
            v@.skip(start as int) == d,
            d == spec_unsigned_part(s@),
            d.len() > 0,
            forall|k: int| start <= k < i ==> spec_is_ascii_digit(#[trigger] v@[k]),
        decreases v.len() - i,
    {
        if !(v[i] >= '0' && v[i] <= '9') {
            assert(d[i - start] == v@[i as int]);
            assert(!spec_is_ascii_digit(d[i - start]));
            assert(!spec_all_digits(d));
            return None;
        }
        i = i + 1;
    }
    assert forall|k: int| 0 <= k < d.len() implies spec_is_ascii_digit(#[trigger] d[k]) by {
        assert(d[k] == v@[k + start]);
    }
    let mut val: u64 = 0;
    let mut j: usize = start;
    while j < v.len()
        invariant
            start <= j <= v@.len(),
            v@ == s@,
            v@.skip(start as int) == d,
            d == spec_unsigned_part(s@),
            d.len() > 0,
            forall|k: int| 0 <= k < d.len() ==> spec_is_ascii_digit(#[trigger] d[k]),
            val == spec_decimal(d.take(j - start)),
        decreases v.len() - j,
    {
        proof {
            assert(d.take(j - start + 1).drop_last() =~= d.take(j - start));
            assert(d[j - start] == v@[j as int]);
            assert(spec_is_ascii_digit(d[j - start]));
        }
        let c = v[j];
        let digit: u64 = (c as u32 - '0' as u32) as u64;
        assert(digit == d.take(j - start + 1).last() as int - '0' as int);
        if val > 1844674407370955161 || (val == 1844674407370955161 && digit > 5) {
            proof {
                lemma_decimal_grows(d, j - start + 1);
                assert(spec_decimal(d.take(j - start + 1)) == val * 10 + digit);
                assert(spec_all_digits(d));
            }
            return None;
        }
        val = val * 10 + digit;
        j = j + 1;
    }
    assert(d.take(d.len() as int) =~= d);
    Some(val)
}

/// A field set from a string parameter: kept when absent or null.
pub open spec fn spec_string_update(params: JsonValue, key: Seq<char>, old: Seq<char>) -> Result<
    Seq<char>,
    RpcErrorView,
> {
    match spec_get(params, key) {
        None => Ok(old),
        Some(JsonValue::Null) => Ok(old),
        Some(v) => match spec_as_str(v) {
            Some(s) => Ok(s),
            None => Err(parse_error(key + " must be a string"@)),
        },
    }
}

/// A count set from a number or a decimal string: kept when absent or null.
pub open spec fn spec_count_update(params: JsonValue, key: Seq<char>, old: u64) -> Result<
    u64,
    RpcErrorView,
> {
    match spec_get(params, key) {
        None => Ok(old),
        Some(JsonValue::Null) => Ok(old),
        Some(JsonValue::String(s)) => match spec_parse_u64(s@) {
            Some(n) => Ok(n),
            None => Err(parse_error(key + " must be a non-negative integer"@)),
        },
        Some(v) => match spec_as_u64(v) {
            Some(n) => Ok(n),
            None => Err(parse_error(key + " must be a non-negative integer"@)),
        },
    }
}

fn update_string(params: &JsonValue, key: &str, field: &mut String) -> (r: Result<(), RpcError>)
    ensures
        match spec_string_update(*params, key@, old(field)@) {
            Ok(s) => r is Ok && final(field)@ == s,
            Err(e) => r matches Err(x) && x@ == e && final(field)@ == old(field)@,
        },
{
    match params.get(key) {
        None => Ok(()),
        Some(v) => {
            if v.is_null() {
                return Ok(());
            }
            match v.as_str() {
                Some(s) => {
                    *field = String::from_str(s);
                    Ok(())
                },
                None => {
                    let mut m = String::from_str(key);
                    m.append(" must be a string");
                    Err(parse_err(m))
                },
            }
        },
    }
}

fn update_count(params: &JsonValue, key: &str, field: &mut u64) -> (r: Result<(), RpcError>)
    ensures
        match spec_count_update(*params, key@, *old(field)) {
            Ok(n) => r is Ok && *final(field) == n,
            Err(e) => r matches Err(x) && x@ == e && *final(field) == *old(field),
        },
{
    match params.get(key) {
        None => Ok(()),
        Some(v) => {
            if v.is_null() {
                return Ok(());
            }
            let n = match v {
                JsonValue::String(s) => parse_u64_text(s.as_str()),
                _ => v.as_u64(),
            };
            match n {
                Some(n) => {
                    *field = n;
                    Ok(())
                },
                None => {
                    let mut m = String::from_str(key);
                    m.append(" must be a non-negative integer");
                    Err(parse_err(m))
                },
            }
        },
    }
}

/// The first error of a target update, in the order the fields are read.
pub open spec fn spec_target_update_error(params: JsonValue, r: BackupTargetRecord) -> Option<
    RpcErrorView,
> {
    if spec_string_update(params, "target_type"@, r.target_type@) is Err {
        Some(spec_string_update(params, "target_type"@, r.target_type@)->Err_0)
    } else if spec_string_update(params, "url"@, r.url@) is Err {
        Some(spec_string_update(params, "url"@, r.url@)->Err_0)
    } else if spec_string_update(params, "name"@, r.name@) is Err {
        Some(spec_string_update(params, "name"@, r.name@)->Err_0)
    } else if spec_string_update(params, "description"@, r.description@) is Err {
        Some(spec_string_update(params, "description"@, r.description@)->Err_0)
    } else if spec_string_update(params, "state"@, r.state@) is Err {
        Some(spec_string_update(params, "state"@, r.state@)->Err_0)
    } else if spec_count_update(params, "used"@, r.used) is Err {
        Some(spec_count_update(params, "used"@, r.used)->Err_0)
    } else if spec_count_update(params, "total"@, r.total) is Err {
        Some(spec_count_update(params, "total"@, r.total)->Err_0)
    } else if spec_string_update(params, "last_error"@, r.last_error@) is Err {
        Some(spec_string_update(params, "last_error"@, r.last_error@)->Err_0)
    } else {
        None
    }
}

/// Applies the fields of an update request to a target record: each of
/// `target_type`, `url`, `name`, `description`, `state`, `used`, `total`,
/// `last_error` and `config` that is present and not null replaces the
/// field (a null `config` clears it).
pub fn apply_target_update(record: BackupTargetRecord, params: JsonValue) -> (r: Result<
    BackupTargetRecord,
    RpcError,
>)
    ensures
        match r {
            Err(e) => spec_target_update_error(params, record) == Some(e@),
            Ok(n) => {
                &&& spec_target_update_error(params, record) is None
                &&& n.target_id == record.target_id
                &&& spec_string_update(params, "target_type"@, record.target_type@) == Ok::<
                    Seq<char>,
                    RpcErrorView,
                >(n.target_type@)
                &&& spec_string_update(params, "url"@, record.url@) == Ok::<Seq<char>, RpcErrorView>(
                    n.url@,
                )
                &&& spec_string_update(params, "name"@, record.name@) == Ok::<
                    Seq<char>,
                    RpcErrorView,
                >(n.name@)
                &&& spec_string_update(params, "description"@, record.description@) == Ok::<
                    Seq<char>,
                    RpcErrorView,
                >(n.description@)
                &&& spec_string_update(params, "state"@, record.state@) == Ok::<
                    Seq<char>,
                    RpcErrorView,
                >(n.state@)
                &&& spec_count_update(params, "used"@, record.used) == Ok::<u64, RpcErrorView>(
                    n.used,
                )
                &&& spec_count_update(params, "total"@, record.total) == Ok::<u64, RpcErrorView>(
                    n.total,
                )
                &&& spec_string_update(params, "last_error"@, record.last_error@) == Ok::<
                    Seq<char>,
                    RpcErrorView,
                >(n.last_error@)
                &&& n.config == match spec_get(params, "config"@) {
                    None => record.config,
                    Some(JsonValue::Null) => None,
                    Some(v) => Some(v),
                }
            },
        },
{
    let mut rec = record;
    update_string(&params, "target_type", &mut rec.target_type)?;
    update_string(&params, "url", &mut rec.url)?;
    update_string(&params, "name", &mut rec.name)?;
    update_string(&params, "description", &mut rec.description)?;
    update_string(&params, "state", &mut rec.state)?;
    update_count(&params, "used", &mut rec.used)?;
    update_count(&params, "total", &mut rec.total)?;
    update_string(&params, "last_error", &mut rec.last_error)?;
    let ghost p0 = params;
    match params {
        JsonValue::Object(mut members) => {
            match crate::json::find_member(&members, "config") {
                Some(i) => {
                    let (_, v) = members.remove(i);
                    if v.is_null() {
                        rec.config = None;
                    } else {
                        rec.config = Some(v);
                    }
                },
                None => {},
            }
        },
        _ => {},
    }
    Ok(rec)
}

/// The `subdir` of a listing request: absent or null for the whole backup,
/// else a string whose trimmed form names it (an empty one names nothing).
pub open spec fn spec_listing_subdir(params: JsonValue) -> Result<Option<Seq<char>>, RpcErrorView> {
    match spec_get(params, "subdir"@) {
        None => Ok(None),
        Some(JsonValue::Null) => Ok(None),
        Some(JsonValue::String(s)) => if str_trim(s@).len() == 0 {
            Ok(None)
        } else {
            Ok(Some(str_trim(s@)))
        },
        Some(_) => Err(parse_error("subdir must be a string or null"@)),
    }
}

/// The task id and subdirectory of a listing request.
pub fn parse_listing_params(params: &JsonValue) -> (r: Result<(String, Option<String>), RpcError>)
    ensures
        match r {
            Ok((id, sub)) => spec_extract_string(*params, "taskid"@) == Ok::<Seq<char>, RpcErrorView>(id@)
                && spec_listing_subdir(*params) == Ok::<Option<Seq<char>>, RpcErrorView>(
                match sub {
                    Some(x) => Some(x@),
                    None => None,
                },
            ),
            Err(e) => match spec_extract_string(*params, "taskid"@) {
                Err(m) => e@ == m,
                Ok(_) => spec_listing_subdir(*params) == Err::<Option<Seq<char>>, RpcErrorView>(e@),
            },
        },
{
    let task_id = match extract_string(params, "taskid") {
        Ok(t) => t,
        Err(e) => return Err(e),
    };
    let subdir = match params.get("subdir") {
        None => None,
        Some(JsonValue::Null) => None,
        Some(JsonValue::String(s)) => {
            let t = trim_text(s.as_str());
            if t.as_str().is_empty() {
                None
            } else {
                Some(t)
            }
        },
        Some(_) => return Err(parse_err_lit("subdir must be a string or null")),
    };
    Ok((task_id, subdir))
}

/// The decimal text of a number (`u64::to_string`).
pub open spec fn spec_u64_text(n: u64) -> Seq<char>
    decreases n,
{
    if n < 10 {
        seq![(n + '0' as u64) as char]
    } else {
        spec_u64_text(n / 10).push(((n % 10) + '0' as u64) as char)
    }
}

pub(crate) fn push_u64_text(out: &mut Vec<char>, n: u64)
    ensures
        final(out)@ == old(out)@ + spec_u64_text(n),
    decreases n,
{
    if n >= 10 {
        push_u64_text(out, n / 10);
    }
    let d = n % 10;
    let c = if d == 0 {
        '0'
    } else if d == 1 {
        '1'
    } else if d == 2 {
        '2'
    } else if d == 3 {
        '3'
    } else if d == 4 {
        '4'
    } else if d == 5 {
        '5'
    } else if d == 6 {
        '6'
    } else if d == 7 {
        '7'
    } else if d == 8 {
        '8'
    } else {
        '9'
    };
    assert(c == ((n % 10) + '0' as u64) as char);
    out.push(c);
    if n >= 10 {
        assert(final(out)@ =~= old(out)@ + spec_u64_text(n));
    } else {
        assert(final(out)@ =~= old(out)@ + spec_u64_text(n));
    }
}

/// The decimal text of a number (see `spec_u64_text`).
pub fn u64_text(n: u64) -> (r: String)
    ensures
        r@ == spec_u64_text(n),
{
    let mut out: Vec<char> = Vec::new();
    push_u64_text(&mut out, n);
    assert(out@ =~= spec_u64_text(n));
    string_from_chars(&out)
}

proof fn lemma_u64_text_digits(n: u64)
    ensures
        spec_u64_text(n).len() > 0,
        spec_all_digits(spec_u64_text(n)),
        spec_decimal(spec_u64_text(n)) == n,
    decreases n,
{
    let d = n % 10;
    let c = (d + '0' as u64) as char;
    assert(c as int == d + 48);
    assert('0' as int == 48);
    assert(n == (n / 10) * 10 + d);
    if n < 10 {
        let t = spec_u64_text(n);
        assert(t.drop_last() =~= Seq::<char>::empty());
        assert(t.last() == c);
        assert(spec_decimal(t) == spec_decimal(t.drop_last()) * 10 + (t.last() as int - '0' as int));
    } else {
        lemma_u64_text_digits(n / 10);
        let t = spec_u64_text(n);
        let prev = spec_u64_text(n / 10);
        assert(t.drop_last() =~= prev);
        assert(t.last() == c);
        assert(spec_decimal(t) == spec_decimal(prev) * 10 + (c as int - '0' as int));
        assert forall|i: int| 0 <= i < t.len() implies spec_is_ascii_digit(#[trigger] t[i]) by {
            if i < prev.len() {
                assert(t[i] == prev[i]);
            }
        }
    }
}

/// A number's decimal text reads back as the number.
pub proof fn law_u64_text_parses_back(n: u64)
    ensures
        spec_parse_u64(spec_u64_text(n)) == Some(n),
{
    lemma_u64_text_digits(n);
    assert(spec_u64_text(n)[0] != '+') by {
        assert(spec_is_ascii_digit(spec_u64_text(n)[0]));
    }
    assert(spec_unsigned_part(spec_u64_text(n)) == spec_u64_text(n));
}

} // verus!
