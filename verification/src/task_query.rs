//! The SQL text and parameters of a filtered, ordered, paged task list query.

use vstd::prelude::*;
use crate::text::{chars_of, chars_eq};
use crate::task_model::{BackupDbError, SortOrder, TaskOrderField, TaskState, TaskType, spec_task_state_text, spec_task_type_text};

verus! {

/// The lower-case form of a string (Unicode lower case).
pub uninterp spec fn str_lowercase(s: Seq<char>) -> Seq<char>;

/// The lower-case form of `s`, through `str::to_lowercase`.
///
/// Claims only that the result is the named lower-case form of `s`.
#[verifier::external_body]
pub(crate) fn to_lowercase(s: &str) -> (r: String)
    ensures
        r@ == str_lowercase(s@),
{
    s.to_lowercase()
}

/// A filtered, ordered and paged listing of work tasks.
pub struct TaskListQuery {
    pub legacy_filter: Option<String>,
    pub states: Vec<TaskState>,
    pub types: Vec<TaskType>,
    pub owner_plan_ids: Vec<String>,
    pub owner_plan_titles: Vec<String>,
    pub order_by: Vec<(TaskOrderField, SortOrder)>,
    pub offset: usize,
    pub limit: Option<usize>,
}

/// A bound SQL parameter.
pub enum SqlParam {
    Text(String),
    Int(i64),
}

/// Abstract value of a `SqlParam`.
pub enum SqlParamView {
    Text(Seq<char>),
    Int(i64),
}

impl View for SqlParam {
    type V = SqlParamView;

    open spec fn view(&self) -> SqlParamView {
        match self {
            SqlParam::Text(s) => SqlParamView::Text(s@),
            SqlParam::Int(i) => SqlParamView::Int(*i),
        }
    }
}

/// The count query, the id query and their parameters.
pub struct TaskQuerySql {
    pub count_sql: String,
    pub select_sql: String,
    pub params: Vec<SqlParam>,
    pub select_params: Vec<SqlParam>,
}

/// `parts` joined with `sep` between them.
pub open spec fn spec_join(parts: Seq<Seq<char>>, sep: Seq<char>) -> Seq<char>
    decreases parts.len(),
{
    if parts.len() == 0 {
        Seq::empty()
    } else if parts.len() == 1 {
        parts[0]
    } else {
        spec_join(parts.drop_last(), sep) + sep + parts.last()
    }
}

pub open spec fn spec_views(v: Seq<String>) -> Seq<Seq<char>> {
    v.map_values(|s: String| s@)
}

pub open spec fn spec_param_views(v: Seq<SqlParam>) -> Seq<SqlParamView> {
    v.map_values(|p: SqlParam| p@)
}

/// Joins strings with a separator.
pub fn join_strings(parts: &Vec<String>, sep: &str) -> (r: String)
    ensures
        r@ == spec_join(spec_views(parts@), sep@),
{
    let mut out = String::new();
    let mut i: usize = 0;
    while i < parts.len()
        invariant
            i <= parts@.len(),
            out@ == spec_join(spec_views(parts@.take(i as int)), sep@),
        decreases parts.len() - i,
    {
        proof {
            assert(spec_views(parts@.take(i + 1)).drop_last() =~= spec_views(parts@.take(i as int)));
            assert(spec_views(parts@.take(i + 1)).last() == parts@[i as int]@);
        }
        if i > 0 {
            out.append(sep);
        }
        out.append(parts[i].as_str());
        i = i + 1;
    }
    assert(parts@.take(parts@.len() as int) =~= parts@);
    out
}

/// `n` copies of a clause.
pub open spec fn spec_repeat(x: Seq<char>, n: nat) -> Seq<Seq<char>> {
    Seq::new(n, |i: int| x)
}

fn repeat_str(x: &str, n: usize) -> (r: Vec<String>)
    ensures
        spec_views(r@) == spec_repeat(x@, n as nat),
{
    let mut r: Vec<String> = Vec::new();
    let mut i: usize = 0;
    while i < n
        invariant
            i <= n,
            spec_views(r@) == spec_repeat(x@, i as nat),
        decreases n - i,
    {
        let ghost before = r@;
        let c = String::from_str(x);
        r.push(c);
        assert(spec_views(r@) =~= spec_views(before).push(x@));
        i = i + 1;
        assert(spec_views(r@) =~= spec_repeat(x@, i as nat));
    }
    r
}

/// The condition a legacy filter name stands for, if any.
pub open spec fn spec_legacy_condition(f: Seq<char>) -> Option<Seq<char>> {
    if f == "running"@ {
        Some("work_tasks.state = 'RUNNING'"@)
    } else if f == "paused"@ {
        Some("work_tasks.state = 'PAUSED'"@)
    } else if f == "failed"@ {
        Some("work_tasks.state LIKE 'FAILED%'"@)
    } else if f == "pending"@ {
        Some("work_tasks.state = 'PENDING'"@)
    } else if f == "done"@ {
        Some("work_tasks.state = 'DONE'"@)
    } else {
        None
    }
}

/// The state texts bound for the states that are not failures, in order.
pub open spec fn spec_state_params(states: Seq<TaskState>) -> Seq<Seq<char>>
    decreases states.len(),
{
    if states.len() == 0 {
        Seq::empty()
    } else {
        let rest = spec_state_params(states.drop_last());
        if states.last()@ is Failed {
            rest
        } else {
            rest.push(spec_task_state_text(states.last()@))
        }
    }
}

pub open spec fn spec_any_failed(states: Seq<TaskState>) -> bool {
    exists|i: int| 0 <= i < states.len() && (#[trigger] states[i])@ is Failed
}

/// The alternatives of the state condition.
pub open spec fn spec_state_clauses(states: Seq<TaskState>) -> Seq<Seq<char>> {
    spec_repeat("work_tasks.state = ?"@, spec_state_params(states).len()) + if spec_any_failed(
        states,
    ) {
        seq!["work_tasks.state LIKE 'FAILED%'"@]
    } else {
        Seq::empty()
    }
}

/// Every condition of the query, in order.
pub open spec fn spec_legacy_conditions(q: TaskListQuery) -> Seq<Seq<char>> {
    match q.legacy_filter {
        Some(f) => match spec_legacy_condition(f@) {
            Some(c) => seq![c],
            None => Seq::empty(),
        },
        None => Seq::empty(),
    }
}

pub open spec fn spec_conditions(q: TaskListQuery) -> Seq<Seq<char>> {
    let legacy = spec_legacy_conditions(q);
    let states = if q.states@.len() > 0 {
        seq!["("@ + spec_join(spec_state_clauses(q.states@), " OR "@) + ")"@]
    } else {
        Seq::empty()
    };
    let types = if q.types@.len() > 0 {
        seq![
            "work_tasks.task_type IN ("@ + spec_join(spec_repeat("?"@, q.types@.len()), ", "@)
                + ")"@,
        ]
    } else {
        Seq::empty()
    };
    let plans = if q.owner_plan_ids@.len() > 0 {
        seq![
            "work_tasks.owner_plan_id IN ("@ + spec_join(
                spec_repeat("?"@, q.owner_plan_ids@.len()),
                ", "@,
            ) + ")"@,
        ]
    } else {
        Seq::empty()
    };
    let titles = if q.owner_plan_titles@.len() > 0 {
        seq![
            "("@ + spec_join(
                spec_repeat("LOWER(backup_plans.title) LIKE ?"@, q.owner_plan_titles@.len()),
                " OR "@,
            ) + ")"@,
        ]
    } else {
        Seq::empty()
    };
    legacy + states + types + plans + titles
}

/// The parameters bound to the conditions, in order.
pub open spec fn spec_condition_params(q: TaskListQuery) -> Seq<SqlParamView> {
    spec_state_params(q.states@).map_values(|t: Seq<char>| SqlParamView::Text(t)) + q.types@.map_values(
        |t: TaskType| SqlParamView::Text(spec_task_type_text(t)),
    ) + q.owner_plan_ids@.map_values(|p: String| SqlParamView::Text(p@))
        + q.owner_plan_titles@.map_values(
        |t: String| SqlParamView::Text("%"@ + str_lowercase(t@) + "%"@),
    )
}

pub open spec fn spec_from_clause(q: TaskListQuery) -> Seq<char> {
    " FROM work_tasks"@ + if q.owner_plan_titles@.len() > 0 {
        " LEFT JOIN backup_plans ON backup_plans.plan_id = work_tasks.owner_plan_id"@
    } else {
        Seq::empty()
    }
}

pub open spec fn spec_where_clause(q: TaskListQuery) -> Seq<char> {
    if spec_conditions(q).len() == 0 {
        Seq::empty()
    } else {
        " WHERE "@ + spec_join(spec_conditions(q), " AND "@)
    }
}

pub open spec fn spec_direction(d: SortOrder) -> Seq<char> {
    match d {
        SortOrder::Desc => "DESC"@,
        SortOrder::Asc => "ASC"@,
    }
}

/// The ordering terms of one ordering entry.
pub open spec fn spec_order_terms(f: TaskOrderField, d: SortOrder) -> Seq<Seq<char>> {
    match f {
        TaskOrderField::CreateTime => seq!["work_tasks.create_time "@ + spec_direction(d)],
        TaskOrderField::UpdateTime => seq!["work_tasks.update_time "@ + spec_direction(d)],
        TaskOrderField::CompleteTime => seq![
            "CASE WHEN work_tasks.state = 'DONE' THEN 1 ELSE 0 END "@ + spec_direction(d),
            "CASE WHEN work_tasks.state = 'DONE' THEN work_tasks.update_time END "@
                + spec_direction(d),
        ],
    }
}

pub open spec fn spec_order_parts(order: Seq<(TaskOrderField, SortOrder)>) -> Seq<Seq<char>>
    decreases order.len(),
{
    if order.len() == 0 {
        Seq::empty()
    } else {
        spec_order_parts(order.drop_last()) + spec_order_terms(order.last().0, order.last().1)
    }
}

/// Ordering terms follow the entries in turn.
proof fn lemma_order_parts_concat(a: Seq<(TaskOrderField, SortOrder)>, b: Seq<(TaskOrderField, SortOrder)>)
    ensures
        spec_order_parts(a + b) == spec_order_parts(a) + spec_order_parts(b),
    decreases b.len(),
{
    if b.len() == 0 {
        assert(a + b =~= a);
        assert(spec_order_parts(a) + spec_order_parts(b) =~= spec_order_parts(a));
    } else {
        lemma_order_parts_concat(a, b.drop_last());
        assert((a + b).drop_last() =~= a + b.drop_last());
        assert((a + b).last() == b.last());
        assert(spec_order_parts(a) + spec_order_parts(b) =~= spec_order_parts(a)
            + spec_order_parts(b.drop_last()) + spec_order_terms(b.last().0, b.last().1));
    }
}

pub open spec fn spec_order_clause(q: TaskListQuery) -> Seq<char> {
    if spec_order_parts(q.order_by@).len() == 0 {
        Seq::empty()
    } else {
        " ORDER BY "@ + spec_join(spec_order_parts(q.order_by@), ", "@)
    }
}

/// Task lists are sorted by the column the caller asked for, in the
/// direction asked: an ordering by update time alone sorts by
/// `work_tasks.update_time`, one by creation time alone by
/// `work_tasks.create_time`, and one by completion first by whether the task
/// is done; an ordering of several entries sorts by each entry's terms in
/// turn.
pub proof fn law_order_by_requested_column(
    q: TaskListQuery,
    d: SortOrder,
    a: Seq<(TaskOrderField, SortOrder)>,
    b: Seq<(TaskOrderField, SortOrder)>,
)
    ensures
        q.order_by@ == seq![(TaskOrderField::UpdateTime, d)] ==> spec_order_clause(q)
            == " ORDER BY "@ + "work_tasks.update_time "@ + (if d is Desc {
            "DESC"@
        } else {
            "ASC"@
        }),
        q.order_by@ == seq![(TaskOrderField::CreateTime, d)] ==> spec_order_clause(q)
            == " ORDER BY "@ + "work_tasks.create_time "@ + (if d is Desc {
            "DESC"@
        } else {
            "ASC"@
        }),
        q.order_by@ == seq![(TaskOrderField::CompleteTime, d)] ==> spec_order_clause(q)
            == " ORDER BY "@ + "CASE WHEN work_tasks.state = 'DONE' THEN 1 ELSE 0 END "@ + (if d is Desc {
            "DESC"@
        } else {
            "ASC"@
        }) + ", "@ + "CASE WHEN work_tasks.state = 'DONE' THEN work_tasks.update_time END "@ + (
        if d is Desc {
            "DESC"@
        } else {
            "ASC"@
        }),
        q.order_by@.len() == 0 ==> spec_order_clause(q).len() == 0,
        spec_order_parts(a + b) == spec_order_parts(a) + spec_order_parts(b),
{
    lemma_order_parts_concat(a, b);
    let o = q.order_by@;
    if o.len() == 1 {
        assert(o.drop_last() =~= Seq::<(TaskOrderField, SortOrder)>::empty());
        assert(spec_order_parts(o.drop_last()) == Seq::<Seq<char>>::empty());
        assert(o.last() == o[0]);
        assert(spec_order_parts(o) =~= spec_order_terms(o[0].0, o[0].1));
        let t = spec_order_terms(o[0].0, o[0].1);
        if t.len() == 1 {
            assert(spec_join(t, ", "@) == t[0]);
        } else {
            assert(t.drop_last() =~= seq![t[0]]);
            assert(spec_join(t.drop_last(), ", "@) == t[0]);
            assert(spec_join(t, ", "@) == t[0] + ", "@ + t[1]);
            assert(spec_order_clause(q) == " ORDER BY "@ + spec_join(t, ", "@));
            let dir = spec_direction(o[0].1);
            assert(" ORDER BY "@ + (t[0] + ", "@ + t[1]) =~= " ORDER BY "@
                + "CASE WHEN work_tasks.state = 'DONE' THEN 1 ELSE 0 END "@ + dir + ", "@
                + "CASE WHEN work_tasks.state = 'DONE' THEN work_tasks.update_time END "@ + dir);
            if o == seq![(TaskOrderField::CompleteTime, d)] {
                assert(o[0] == (TaskOrderField::CompleteTime, d));
                assert(dir == (if d is Desc {
                    "DESC"@
                } else {
                    "ASC"@
                }));
                assert(spec_order_clause(q) =~= " ORDER BY "@
                    + "CASE WHEN work_tasks.state = 'DONE' THEN 1 ELSE 0 END "@ + dir + ", "@
                    + "CASE WHEN work_tasks.state = 'DONE' THEN work_tasks.update_time END "@ + dir);
            }
        }
    }
}

/// The paging clause and its parameters.
pub open spec fn spec_paging(q: TaskListQuery) -> (Seq<char>, Seq<SqlParamView>) {
    match q.limit {
        Some(l) => if q.offset > 0 {
            (" LIMIT ? OFFSET ?"@, seq![SqlParamView::Int(l as i64), SqlParamView::Int(q.offset as i64)])
        } else {
            (" LIMIT ?"@, seq![SqlParamView::Int(l as i64)])
        },
        None => if q.offset > 0 {
            (" LIMIT -1 OFFSET ?"@, seq![SqlParamView::Int(q.offset as i64)])
        } else {
            (Seq::empty(), Seq::empty())
        },
    }
}

pub open spec fn spec_limit_too_large(q: TaskListQuery) -> bool {
    q.limit matches Some(l) && l > i64::MAX
}

/// Whether a paging number cannot be bound as a 64-bit integer.
pub open spec fn spec_paging_too_large(q: TaskListQuery) -> bool {
    spec_limit_too_large(q) || (q.offset > 0 && q.offset > i64::MAX)
}

fn push_repeat_condition(conditions: &mut Vec<String>, head: &str, item: &str, sep: &str, n: usize)
    ensures
        final(conditions)@.len() == old(conditions)@.len() + 1,
        spec_views(final(conditions)@) == spec_views(old(conditions)@).push(
            head@ + spec_join(spec_repeat(item@, n as nat), sep@) + ")"@,
        ),
{
    let parts = repeat_str(item, n);
    let joined = join_strings(&parts, sep);
    let mut c = String::from_str(head);
    c.append(joined.as_str());
    c.append(")");
    let ghost before = conditions@;
    conditions.push(c);
    assert(spec_views(conditions@) =~= spec_views(before).push(c@));
}

/// The state alternatives and their parameters.
fn state_clauses(states: &Vec<TaskState>) -> (r: (Vec<String>, Vec<SqlParam>))
    ensures
        spec_views(r.0@) == spec_state_clauses(states@),
        spec_param_views(r.1@) == spec_state_params(states@).map_values(
            |t: Seq<char>| SqlParamView::Text(t),
        ),
{
    let mut clauses: Vec<String> = Vec::new();
    let mut params: Vec<SqlParam> = Vec::new();
    let mut include_failed = false;
    let mut i: usize = 0;
    while i < states.len()
        invariant
            i <= states@.len(),
            spec_views(clauses@) == spec_repeat(
                "work_tasks.state = ?"@,
                spec_state_params(states@.take(i as int)).len(),
            ),
            spec_param_views(params@) == spec_state_params(states@.take(i as int)).map_values(
                |t: Seq<char>| SqlParamView::Text(t),
            ),
            include_failed == spec_any_failed(states@.take(i as int)),
        decreases states.len() - i,
    {
        let ghost t = states@.take(i + 1);
        proof {
            assert(t.drop_last() =~= states@.take(i as int));
            assert(t.last() == states@[i as int]);
        }
        match &states[i] {
            TaskState::Failed(_) => {
                include_failed = true;
                proof {
                    assert(t[i as int]@ is Failed);
                }
            },
            s => {
                let ghost cb = clauses@;
                let ghost pb = params@;
                let c = String::from_str("work_tasks.state = ?");
                clauses.push(c);
                let text = s.to_string();
                params.push(SqlParam::Text(text));
                proof {
                    assert(!(t.last()@ is Failed));
                    assert(spec_state_params(t) == spec_state_params(t.drop_last()).push(
                        spec_task_state_text(t.last()@),
                    ));
                    assert(spec_views(clauses@) =~= spec_views(cb).push("work_tasks.state = ?"@));
                    assert(spec_param_views(params@) =~= spec_param_views(pb).push(
                        SqlParamView::Text(text@),
                    ));
                    assert(spec_views(clauses@) =~= spec_repeat(
                        "work_tasks.state = ?"@,
                        spec_state_params(t).len(),
                    ));
                    assert(spec_param_views(params@) =~= spec_state_params(t).map_values(
                        |x: Seq<char>| SqlParamView::Text(x),
                    ));
                }
            },
        }
        proof {
            if spec_any_failed(t) && !include_failed {
                let k = choose|k: int| 0 <= k < t.len() && (#[trigger] t[k])@ is Failed;
                if k < i {
                    assert(states@.take(i as int)[k] == t[k]);
                }
            }
            if include_failed && !spec_any_failed(states@.take(i as int)) {
                assert(t[i as int]@ is Failed);
            }
            if spec_any_failed(states@.take(i as int)) {
                let k = choose|k: int|
                    0 <= k < states@.take(i as int).len() && (
                    #[trigger] states@.take(i as int)[k])@ is Failed;
                assert(t[k] == states@.take(i as int)[k]);
            }
        }
        i = i + 1;
    }
    assert(states@.take(states@.len() as int) =~= states@);
    if include_failed {
        let ghost cb = clauses@;
        clauses.push(String::from_str("work_tasks.state LIKE 'FAILED%'"));
        assert(spec_views(clauses@) =~= spec_views(cb) + seq!["work_tasks.state LIKE 'FAILED%'"@]);
    } else {
        assert(spec_views(clauses@) =~= spec_views(clauses@) + Seq::<Seq<char>>::empty());
    }
    (clauses, params)
}

fn str_is(s: &str, lit: &str) -> (b: bool)
    ensures
        b == (s@ == lit@),
{
    chars_eq(&chars_of(s), &chars_of(lit))
}

/// The condition of a legacy filter name, if it names one.
fn legacy_condition(f: &str) -> (r: Option<String>)
    ensures
        match (r, spec_legacy_condition(f@)) {
            (Some(x), Some(y)) => x@ == y,
            (None, None) => true,
            _ => false,
        },
{
    if str_is(f, "running") {
        Some(String::from_str("work_tasks.state = 'RUNNING'"))
    } else if str_is(f, "paused") {
        Some(String::from_str("work_tasks.state = 'PAUSED'"))
    } else if str_is(f, "failed") {
        Some(String::from_str("work_tasks.state LIKE 'FAILED%'"))
    } else if str_is(f, "pending") {
        Some(String::from_str("work_tasks.state = 'PENDING'"))
    } else if str_is(f, "done") {
        Some(String::from_str("work_tasks.state = 'DONE'"))
    } else {
        None
    }
}

fn push_string(v: &mut Vec<String>, x: String)
    ensures
        spec_views(final(v)@) == spec_views(old(v)@).push(x@),
{
    let ghost before = v@;
    v.push(x);
    assert(spec_views(v@) =~= spec_views(before).push(x@));
}

fn push_param(v: &mut Vec<SqlParam>, x: SqlParam)
    ensures
        spec_param_views(final(v)@) == spec_param_views(old(v)@).push(x@),
{
    let ghost before = v@;
    v.push(x);
    assert(spec_param_views(v@) =~= spec_param_views(before).push(x@));
}

fn append_params(v: &mut Vec<SqlParam>, mut w: Vec<SqlParam>)
    ensures
        spec_param_views(final(v)@) == spec_param_views(old(v)@) + spec_param_views(w@),
{
    let ghost before = v@;
    let ghost wv = w@;
    v.append(&mut w);
    assert(spec_param_views(v@) =~= spec_param_views(before) + spec_param_views(wv));
}

/// The conditions of the query and their parameters.
fn conditions(q: &TaskListQuery) -> (r: (Vec<String>, Vec<SqlParam>))
    ensures
        spec_views(r.0@) == spec_conditions(*q),
        spec_param_views(r.1@) == spec_condition_params(*q),
{
    let mut conds: Vec<String> = Vec::new();
    let mut params: Vec<SqlParam> = Vec::new();
    let ghost legacy = spec_legacy_conditions(*q);
    match &q.legacy_filter {
        Some(f) => match legacy_condition(f.as_str()) {
            Some(c) => push_string(&mut conds, c),
            None => {},
        },
        None => {},
    }
    assert(spec_views(conds@) =~= legacy);
    let ghost after_legacy = spec_views(conds@);
    if q.states.len() > 0 {
        let (clauses, sp) = state_clauses(&q.states);
        let joined = join_strings(&clauses, " OR ");
        let mut c = String::from_str("(");
        c.append(joined.as_str());
        c.append(")");
        push_string(&mut conds, c);
        append_params(&mut params, sp);
    } else {
        assert(spec_state_params(q.states@) =~= Seq::<Seq<char>>::empty());
    }
    let ghost after_states = spec_views(conds@);
    let ghost params_states = spec_param_views(params@);
    if q.types.len() > 0 {
        push_repeat_condition(&mut conds, "work_tasks.task_type IN (", "?", ", ", q.types.len());
    }
    let ghost after_types = spec_views(conds@);
    let mut k: usize = 0;
    while k < q.types.len()
        invariant
            k <= q.types@.len(),
            spec_param_views(params@) == params_states + q.types@.take(k as int).map_values(
                |t: TaskType| SqlParamView::Text(spec_task_type_text(t)),
            ),
        decreases q.types.len() - k,
    {
        let ghost pb = params@;
        let text = String::from_str(q.types[k].to_string());
        push_param(&mut params, SqlParam::Text(text));
        k = k + 1;
        assert(spec_param_views(params@) =~= params_states + q.types@.take(k as int).map_values(
            |t: TaskType| SqlParamView::Text(spec_task_type_text(t)),
        ));
    }
    assert(q.types@.take(q.types@.len() as int) =~= q.types@);
    let ghost params_types = spec_param_views(params@);
    if q.owner_plan_ids.len() > 0 {
        push_repeat_condition(
            &mut conds,
            "work_tasks.owner_plan_id IN (",
            "?",
            ", ",
            q.owner_plan_ids.len(),
        );
    }
    let ghost after_plans = spec_views(conds@);
    let mut k: usize = 0;
    while k < q.owner_plan_ids.len()
        invariant
            k <= q.owner_plan_ids@.len(),
            spec_param_views(params@) == params_types + q.owner_plan_ids@.take(k as int).map_values(
                |p: String| SqlParamView::Text(p@),
            ),
        decreases q.owner_plan_ids.len() - k,
    {
        push_param(&mut params, SqlParam::Text(q.owner_plan_ids[k].clone()));
        k = k + 1;
        assert(spec_param_views(params@) =~= params_types + q.owner_plan_ids@.take(
            k as int,
        ).map_values(|p: String| SqlParamView::Text(p@)));
    }
    assert(q.owner_plan_ids@.take(q.owner_plan_ids@.len() as int) =~= q.owner_plan_ids@);
    let ghost params_plans = spec_param_views(params@);
    if q.owner_plan_titles.len() > 0 {
        let ghost cb = spec_views(conds@);
        let parts = repeat_str("LOWER(backup_plans.title) LIKE ?", q.owner_plan_titles.len());
        let joined = join_strings(&parts, " OR ");
        let mut c = String::from_str("(");
        c.append(joined.as_str());
        c.append(")");
        push_string(&mut conds, c);
    }
    let mut k: usize = 0;
    while k < q.owner_plan_titles.len()
        invariant
            k <= q.owner_plan_titles@.len(),
            spec_param_views(params@) == params_plans + q.owner_plan_titles@.take(
                k as int,
            ).map_values(|t: String| SqlParamView::Text("%"@ + str_lowercase(t@) + "%"@)),
        decreases q.owner_plan_titles.len() - k,
    {
        let lower = to_lowercase(q.owner_plan_titles[k].as_str());
        let mut pattern = String::from_str("%");
        pattern.append(lower.as_str());
        pattern.append("%");
        push_param(&mut params, SqlParam::Text(pattern));
        k = k + 1;
        assert(spec_param_views(params@) =~= params_plans + q.owner_plan_titles@.take(
            k as int,
        ).map_values(|t: String| SqlParamView::Text("%"@ + str_lowercase(t@) + "%"@)));
    }
    assert(q.owner_plan_titles@.take(q.owner_plan_titles@.len() as int) =~= q.owner_plan_titles@);
    assert(spec_views(conds@) =~= spec_conditions(*q));
    assert(spec_param_views(params@) =~= spec_condition_params(*q));
    (conds, params)
}

fn direction(d: &SortOrder) -> (r: &'static str)
    ensures
        r@ == spec_direction(*d),
{
    match d {
        SortOrder::Desc => "DESC",
        SortOrder::Asc => "ASC",
    }
}

fn prefixed_string(head: &str, tail: &str) -> (r: String)
    ensures
        r@ == head@ + tail@,
{
    let mut r = String::from_str(head);
    r.append(tail);
    r
}

/// The ordering terms, in order.
fn order_parts(order: &Vec<(TaskOrderField, SortOrder)>) -> (r: Vec<String>)
    ensures
        spec_views(r@) == spec_order_parts(order@),
{
    let mut parts: Vec<String> = Vec::new();
    let mut i: usize = 0;
    while i < order.len()
        invariant
            i <= order@.len(),
            spec_views(parts@) == spec_order_parts(order@.take(i as int)),
        decreases order.len() - i,
    {
        let ghost before = spec_views(parts@);
        let (field, dir) = &order[i];
        let d = direction(dir);
        match field {
            TaskOrderField::CreateTime => {
                push_string(&mut parts, prefixed_string("work_tasks.create_time ", d));
            },
            TaskOrderField::UpdateTime => {
                push_string(&mut parts, prefixed_string("work_tasks.update_time ", d));
            },
            TaskOrderField::CompleteTime => {
                push_string(
                    &mut parts,
                    prefixed_string("CASE WHEN work_tasks.state = 'DONE' THEN 1 ELSE 0 END ", d),
                );
                push_string(
                    &mut parts,
                    prefixed_string(
                        "CASE WHEN work_tasks.state = 'DONE' THEN work_tasks.update_time END ",
                        d,
                    ),
                );
            },
        }
        proof {
            assert(order@.take(i + 1).drop_last() =~= order@.take(i as int));
            assert(spec_views(parts@) =~= before + spec_order_terms(*field, *dir));
        }
        i = i + 1;
    }
    assert(order@.take(order@.len() as int) =~= order@);
    parts
}

/// Builds the count query and the id query of a task listing, with their
/// parameters. A limit or offset that does not fit a 64-bit integer is a
/// data format error.
pub fn build_task_query(q: &TaskListQuery) -> (r: Result<TaskQuerySql, BackupDbError>)
    ensures
        match r {
            Ok(sql) => {
                &&& !spec_paging_too_large(*q)
                &&& sql.count_sql@ == "SELECT COUNT(*)"@ + spec_from_clause(*q) + spec_where_clause(
                    *q,
                )
                &&& sql.select_sql@ == "SELECT work_tasks.taskid"@ + spec_from_clause(*q)
                    + spec_where_clause(*q) + spec_order_clause(*q) + spec_paging(*q).0
                &&& spec_param_views(sql.params@) == spec_condition_params(*q)
                &&& spec_param_views(sql.select_params@) == spec_condition_params(*q) + spec_paging(
                    *q,
                ).1
            },
            Err(e) => {
                &&& spec_paging_too_large(*q)
                &&& e matches BackupDbError::DataFormatError(m)
                &&& spec_limit_too_large(*q) ==> e->DataFormatError_0@ == "limit exceeds i64 range"@
                &&& !spec_limit_too_large(*q) ==> e->DataFormatError_0@
                    == "offset exceeds i64 range"@
            },
        },
{
    let mut from_clause = String::from_str(" FROM work_tasks");
    if q.owner_plan_titles.len() > 0 {
        from_clause.append(
            " LEFT JOIN backup_plans ON backup_plans.plan_id = work_tasks.owner_plan_id",
        );
    }
    assert(from_clause@ =~= spec_from_clause(*q));
    let (conds, params) = conditions(q);
    let where_clause = if conds.len() == 0 {
        String::new()
    } else {
        let joined = join_strings(&conds, " AND ");
        prefixed_string(" WHERE ", joined.as_str())
    };
    assert(where_clause@ =~= spec_where_clause(*q));
    let mut count_sql = String::from_str("SELECT COUNT(*)");
    count_sql.append(from_clause.as_str());
    count_sql.append(where_clause.as_str());
    let mut select_sql = String::from_str("SELECT work_tasks.taskid");
    select_sql.append(from_clause.as_str());
    select_sql.append(where_clause.as_str());
    let parts = order_parts(&q.order_by);
    if parts.len() > 0 {
        let joined = join_strings(&parts, ", ");
        select_sql.append(" ORDER BY ");
        select_sql.append(joined.as_str());
    }
    let ghost before_paging = select_sql@;
    assert(before_paging =~= "SELECT work_tasks.taskid"@ + spec_from_clause(*q) + spec_where_clause(
        *q,
    ) + spec_order_clause(*q));
    let mut paging: Vec<SqlParam> = Vec::new();
    let max: u64 = 0x7fff_ffff_ffff_ffff;
    match q.limit {
        Some(limit) => {
            if limit as u64 > max {
                return Err(BackupDbError::DataFormatError(String::from_str("limit exceeds i64 range")));
            }
            if q.offset > 0 {
                if q.offset as u64 > max {
                    return Err(
                        BackupDbError::DataFormatError(String::from_str("offset exceeds i64 range")),
                    );
                }
                select_sql.append(" LIMIT ? OFFSET ?");
                push_param(&mut paging, SqlParam::Int(limit as i64));
                push_param(&mut paging, SqlParam::Int(q.offset as i64));
            } else {
                select_sql.append(" LIMIT ?");
                push_param(&mut paging, SqlParam::Int(limit as i64));
            }
        },
        None => {
            if q.offset > 0 {
                if q.offset as u64 > max {
                    return Err(
                        BackupDbError::DataFormatError(String::from_str("offset exceeds i64 range")),
                    );
                }
                select_sql.append(" LIMIT -1 OFFSET ?");
                push_param(&mut paging, SqlParam::Int(q.offset as i64));
            }
        },
    }
    assert(select_sql@ =~= before_paging + spec_paging(*q).0);
    assert(spec_param_views(paging@) =~= spec_paging(*q).1);
    let mut select_params: Vec<SqlParam> = Vec::new();
    let mut i: usize = 0;
    while i < params.len()
        invariant
            i <= params@.len(),
            spec_param_views(select_params@) == spec_param_views(params@.take(i as int)),
        decreases params.len() - i,
    {
        let p = match &params[i] {
            SqlParam::Text(t) => SqlParam::Text(t.clone()),
            SqlParam::Int(n) => SqlParam::Int(*n),
        };
        push_param(&mut select_params, p);
        i = i + 1;
        assert(spec_param_views(select_params@) =~= spec_param_views(params@.take(i as int)));
    }
    assert(params@.take(params@.len() as int) =~= params@);
    append_params(&mut select_params, paging);
    Ok(TaskQuerySql { count_sql, select_sql, params, select_params })
}

} // verus!
