//! Backup plan policies: when a plan starts a backup by itself.

use vstd::prelude::*;
use crate::json::{JsonValue, JsonNumber, spec_member, find_member};
use chrono::TimeZone;

verus! {

/// A periodic run at a time of day (minutes after midnight), daily, weekly
/// on a weekday, or monthly on a day of the month.
pub struct PlanPolicyPeriod {
    pub minutes: u64,
    pub week: Option<u32>,
    pub date: Option<u32>,
}

/// A run some seconds after the source last changed.
pub struct PlanPolicyEvent {
    pub update_delay: u64,
}

pub enum PlanPolicyRule {
    Period(PlanPolicyPeriod),
    Event(PlanPolicyEvent),
}

/// Minutes in a day.
pub const MINUTES_PER_DAY: u64 = 1440;

/// A required unsigned integer.
pub open spec fn spec_u64_field(v: Option<JsonValue>) -> Option<u64> {
    match v {
        Some(JsonValue::Number(JsonNumber::PosInt(n))) => Some(n),
        _ => None,
    }
}

/// An optional 32-bit unsigned integer: absent or null is none; anything
/// else than such an integer is refused (the outer `None`).
pub open spec fn spec_opt_u32_field(v: Option<JsonValue>) -> Option<Option<u32>> {
    match v {
        None => Some(None),
        Some(JsonValue::Null) => Some(None),
        Some(JsonValue::Number(JsonNumber::PosInt(n))) => if n <= u32::MAX {
            Some(Some(n as u32))
        } else {
            None
        },
        _ => None,
    }
}

/// The fields of a rule, read by name from an object or by position from
/// an array.
pub open spec fn spec_field(v: JsonValue, name: Seq<char>, pos: int) -> Option<JsonValue> {
    match v {
        JsonValue::Object(m) => spec_member(m@, name),
        JsonValue::Array(a) => if pos < a@.len() {
            Some(a@[pos])
        } else {
            None
        },
        _ => None,
    }
}

/// Array form: no more elements than fields.
pub open spec fn spec_arity_ok(v: JsonValue, fields: int) -> bool {
    match v {
        JsonValue::Array(a) => a@.len() <= fields,
        _ => true,
    }
}

/// A rule read as a periodic rule, if it is one.
pub open spec fn spec_read_period(v: JsonValue) -> Option<(u64, Option<u32>, Option<u32>)> {
    if !(v is Object || v is Array) || !spec_arity_ok(v, 3) {
        None
    } else {
        match (
            spec_u64_field(spec_field(v, "minutes"@, 0)),
            spec_opt_u32_field(spec_field(v, "week"@, 1)),
            spec_opt_u32_field(spec_field(v, "date"@, 2)),
        ) {
            (Some(m), Some(w), Some(d)) => Some((m, w, d)),
            _ => None,
        }
    }
}

/// A rule read as an event rule, if it is one.
pub open spec fn spec_read_event(v: JsonValue) -> Option<u64> {
    if !(v is Object || v is Array) || !spec_arity_ok(v, 1) {
        None
    } else {
        spec_u64_field(spec_field(v, "update_delay"@, 0))
    }
}

/// Abstract value of a rule.
pub enum PolicyView {
    Period(u64, Option<u32>, Option<u32>),
    Event(u64),
}

pub open spec fn spec_policy_view(r: PlanPolicyRule) -> PolicyView {
    match r {
        PlanPolicyRule::Period(p) => PolicyView::Period(p.minutes, p.week, p.date),
        PlanPolicyRule::Event(e) => PolicyView::Event(e.update_delay),
    }
}

/// A rule read as a periodic rule first, else as an event rule.
pub open spec fn spec_read_rule(v: JsonValue) -> Option<PolicyView> {
    match spec_read_period(v) {
        Some((m, w, d)) => Some(PolicyView::Period(m, w, d)),
        None => match spec_read_event(v) {
            Some(u) => Some(PolicyView::Event(u)),
            None => None,
        },
    }
}

/// Whether a rule is kept: a period within a day, an event with a delay.
pub open spec fn spec_rule_valid(r: PolicyView) -> bool {
    match r {
        PolicyView::Period(m, _, _) => m < MINUTES_PER_DAY,
        PolicyView::Event(u) => u != 0,
    }
}

/// Every element reads as a rule.
pub open spec fn spec_all_rules_read(items: Seq<JsonValue>) -> bool {
    forall|i: int| 0 <= i < items.len() ==> (#[trigger] spec_read_rule(items[i])) is Some
}

/// The valid rules among `items`, in order.
pub open spec fn spec_valid_rules(items: Seq<JsonValue>) -> Seq<PolicyView>
    decreases items.len(),
{
    if items.len() == 0 {
        Seq::empty()
    } else {
        let rest = spec_valid_rules(items.drop_last());
        match spec_read_rule(items.last()) {
            Some(r) => if spec_rule_valid(r) {
                rest.push(r)
            } else {
                rest
            },
            None => rest,
        }
    }
}

/// The rules of a plan's policy: none unless the policy is an array whose
/// every element reads as a rule; then its valid rules, in order.
pub open spec fn spec_parse_plan_policies(policy: JsonValue) -> Seq<PolicyView> {
    match policy {
        JsonValue::Array(items) => if spec_all_rules_read(items@) {
            spec_valid_rules(items@)
        } else {
            Seq::empty()
        },
        _ => Seq::empty(),
    }
}

fn field<'a>(v: &'a JsonValue, name: &str, pos: usize) -> (r: Option<&'a JsonValue>)
    ensures
        match (r, spec_field(*v, name@, pos as int)) {
            (Some(x), Some(y)) => *x == y,
            (None, None) => true,
            _ => false,
        },
{
    match v {
        JsonValue::Object(m) => match find_member(m, name) {
            Some(i) => Some(&m[i].1),
            None => None,
        },
        JsonValue::Array(a) => {
            if pos < a.len() {
                Some(&a[pos])
            } else {
                None
            }
        },
        _ => None,
    }
}

fn u64_field(v: Option<&JsonValue>) -> (r: Option<u64>)
    ensures
        r == spec_u64_field(
            match v {
                Some(x) => Some(*x),
                None => None,
            },
        ),
{
    match v {
        Some(JsonValue::Number(JsonNumber::PosInt(n))) => Some(*n),
        _ => None,
    }
}

fn opt_u32_field(v: Option<&JsonValue>) -> (r: Option<Option<u32>>)
    ensures
        r == spec_opt_u32_field(
            match v {
                Some(x) => Some(*x),
                None => None,
            },
        ),
{
    match v {
        None => Some(None),
        Some(JsonValue::Null) => Some(None),
        Some(JsonValue::Number(JsonNumber::PosInt(n))) => {
            if *n <= 0xffff_ffff {
                Some(Some(*n as u32))
            } else {
                None
            }
        },
        _ => None,
    }
}

fn arity_ok(v: &JsonValue, fields: usize) -> (b: bool)
    ensures
        b == spec_arity_ok(*v, fields as int),
{
    match v {
        JsonValue::Array(a) => a.len() <= fields,
        _ => true,
    }
}

/// Reads one rule of a policy (see `spec_read_rule`).
pub fn read_rule(v: &JsonValue) -> (r: Option<PlanPolicyRule>)
    ensures
        match (r, spec_read_rule(*v)) {
            (Some(x), Some(y)) => spec_policy_view(x) == y,
            (None, None) => true,
            _ => false,
        },
{
    let shaped = match v {
        JsonValue::Object(_) => true,
        JsonValue::Array(_) => true,
        _ => false,
    };
    if !shaped {
        return None;
    }
    if arity_ok(v, 3) {
        let m = u64_field(field(v, "minutes", 0));
        let w = opt_u32_field(field(v, "week", 1));
        let d = opt_u32_field(field(v, "date", 2));
        match (m, w, d) {
            (Some(minutes), Some(week), Some(date)) => {
                return Some(PlanPolicyRule::Period(PlanPolicyPeriod { minutes, week, date }));
            },
            _ => {},
        }
    }
    if arity_ok(v, 1) {
        match u64_field(field(v, "update_delay", 0)) {
            Some(update_delay) => {
                return Some(PlanPolicyRule::Event(PlanPolicyEvent { update_delay }));
            },
            None => {},
        }
    }
    None
}

pub fn rule_valid(r: &PlanPolicyRule) -> (b: bool)
    ensures
        b == spec_rule_valid(spec_policy_view(*r)),
{
    match r {
        PlanPolicyRule::Period(p) => p.minutes < MINUTES_PER_DAY,
        PlanPolicyRule::Event(e) => e.update_delay != 0,
    }
}

pub open spec fn spec_policy_views(v: Seq<PlanPolicyRule>) -> Seq<PolicyView> {
    v.map_values(|r: PlanPolicyRule| spec_policy_view(r))
}

/// The rules of a plan's policy (see `spec_parse_plan_policies`): a policy
/// that is not an array, or that has an element that is no rule, has none;
/// periods of a day or more and events without delay are dropped.
pub fn parse_plan_policies(policy: &JsonValue) -> (r: Vec<PlanPolicyRule>)
    ensures
        spec_policy_views(r@) == spec_parse_plan_policies(*policy),
{
    let items = match policy {
        JsonValue::Array(items) => items,
        _ => {
            let r: Vec<PlanPolicyRule> = Vec::new();
            assert(spec_policy_views(r@) =~= Seq::<PolicyView>::empty());
            return r;
        },
    };
    let mut rules: Vec<PlanPolicyRule> = Vec::new();
    let mut i: usize = 0;
    assert(spec_policy_views(rules@) =~= Seq::<PolicyView>::empty());
    assert(items@.take(0) =~= Seq::<JsonValue>::empty());
    while i < items.len()
        invariant
            i <= items@.len(),
            spec_parse_plan_policies(*policy) == (if spec_all_rules_read(items@) {
                spec_valid_rules(items@)
            } else {
                Seq::empty()
            }),
            spec_all_rules_read(items@.take(i as int)),
            spec_policy_views(rules@) == spec_valid_rules(items@.take(i as int)),
        decreases items.len() - i,
    {
        proof {
            assert(items@.take(i + 1).drop_last() =~= items@.take(i as int));
            assert(items@.take(i + 1).last() == items@[i as int]);
        }
        match read_rule(&items[i]) {
            None => {
                let r: Vec<PlanPolicyRule> = Vec::new();
                assert(!spec_all_rules_read(items@)) by {
                    assert(spec_read_rule(items@[i as int]) is None);
                }
                assert(spec_policy_views(r@) =~= Seq::<PolicyView>::empty());
                return r;
            },
            Some(rule) => {
                let ghost before = spec_policy_views(rules@);
                if rule_valid(&rule) {
                    rules.push(rule);
                    assert(spec_policy_views(rules@) =~= before.push(spec_policy_view(rule)));
                }
                proof {
                    let t = items@.take(i + 1);
                    assert forall|k: int| 0 <= k < t.len() implies (#[trigger] spec_read_rule(
                        t[k],
                    )) is Some by {
                        if k < i {
                            assert(t[k] == items@.take(i as int)[k]);
                        }
                    }
                }
            },
        }
        i = i + 1;
    }
    assert(items@.take(items@.len() as int) =~= items@);
    rules
}

/// Whether any rule is an event rule.
pub fn policies_contain_event(policies: &Vec<PlanPolicyRule>) -> (b: bool)
    ensures
        b == exists|i: int| 0 <= i < policies@.len() && (#[trigger] policies@[i]) is Event,
{
    let mut i: usize = 0;
    while i < policies.len()
        invariant
            i <= policies@.len(),
            forall|k: int| 0 <= k < i ==> !((#[trigger] policies@[k]) is Event),
        decreases policies.len() - i,
    {
        match &policies[i] {
            PlanPolicyRule::Event(_) => {
                return true;
            },
            _ => {},
        }
        i = i + 1;
    }
    false
}

/// Whether an event rule asks for a run now: the source changed after the
/// last completed backup (or after the plan was created, when none has
/// completed) and the delay has passed since that change.
pub open spec fn spec_event_policy_due(
    last_completed: Option<u64>,
    now_ms: u64,
    update_delay: u64,
    baseline_ms: u64,
    source_update: Option<u64>,
) -> bool {
    match source_update {
        None => false,
        Some(latest) => {
            let last_backup = match last_completed {
                Some(t) => t,
                None => baseline_ms,
            };
            let delay = if update_delay * 1000 > u64::MAX {
                u64::MAX as int
            } else {
                update_delay * 1000
            };
            let due = if latest + delay > u64::MAX {
                u64::MAX as int
            } else {
                latest + delay
            };
            latest > last_backup && now_ms >= due
        },
    }
}

pub fn is_event_policy_due(
    last_completed: Option<u64>,
    now_ms: u64,
    event: &PlanPolicyEvent,
    baseline_ms: u64,
    source_update: Option<u64>,
) -> (b: bool)
    ensures
        b == spec_event_policy_due(last_completed, now_ms, event.update_delay, baseline_ms, source_update),
{
    let latest_update = match source_update {
        Some(ts) => ts,
        None => {
            return false;
        },
    };
    let last_backup = match last_completed {
        Some(t) => t,
        None => baseline_ms,
    };
    if latest_update <= last_backup {
        return false;
    }
    let delay_ms: u64 = if event.update_delay > u64::MAX / 1000 {
        u64::MAX
    } else {
        event.update_delay * 1000
    };
    let due: u64 = if latest_update > u64::MAX - delay_ms {
        u64::MAX
    } else {
        latest_update + delay_ms
    };
    now_ms >= due
}

/// An event rule is due only for a change after the last completed backup
/// (after the plan's creation when none completed): a source that last
/// changed at or before that is never due, nor one with no known change;
/// a due rule's delay has passed since the change (a time past the last
/// millisecond counts as the last one). A change after the last backup
/// whose delay has passed is due.
pub proof fn law_event_due_only_after_new_change(
    last_completed: Option<u64>,
    now_ms: u64,
    update_delay: u64,
    baseline_ms: u64,
    source_update: Option<u64>,
)
    ensures
        source_update is None ==> !spec_event_policy_due(
            last_completed,
            now_ms,
            update_delay,
            baseline_ms,
            source_update,
        ),
        source_update matches Some(u) && u <= (match last_completed {
            Some(t) => t,
            None => baseline_ms,
        }) ==> !spec_event_policy_due(last_completed, now_ms, update_delay, baseline_ms, source_update),
        match source_update {
            Some(u) => spec_event_policy_due(
                last_completed,
                now_ms,
                update_delay,
                baseline_ms,
                source_update,
            ) ==> now_ms >= u && u > (match last_completed {
                Some(t) => t,
                None => baseline_ms,
            }),
            None => true,
        },
        match source_update {
            Some(u) => spec_event_policy_due(
                last_completed,
                now_ms,
                update_delay,
                baseline_ms,
                source_update,
            ) ==> now_ms >= (if u + update_delay * 1000 > u64::MAX {
                u64::MAX as int
            } else {
                u + update_delay * 1000
            }),
            None => true,
        },
        source_update matches Some(u) && u > (match last_completed {
            Some(t) => t,
            None => baseline_ms,
        }) && u + update_delay * 1000 <= now_ms ==> spec_event_policy_due(
            last_completed,
            now_ms,
            update_delay,
            baseline_ms,
            source_update,
        ),
{
    assert(update_delay * 1000 >= 0) by (nonlinear_arith);
}

/// Earliest and latest years of the calendar in use.
pub const MIN_YEAR: i32 = -262143;
pub const MAX_YEAR: i32 = 262142;

/// A local civil date and time of day, to the minute.
pub struct CivilDateTime {
    pub year: i32,
    pub month: u32,
    pub day: u32,
    pub hour: u32,
    pub minute: u32,
}

/// The local time now: civil date, weekday (days since Monday) and time.
pub struct LocalNow {
    pub year: i32,
    pub month: u32,
    pub day: u32,
    pub weekday: u32,
    pub hour: u32,
    pub minute: u32,
    pub second: u32,
}

pub open spec fn spec_is_leap(y: int) -> bool {
    (y % 4 == 0 && y % 100 != 0) || y % 400 == 0
}

/// Days in a month of the Gregorian calendar.
pub open spec fn spec_last_day_of_month(y: int, m: int) -> int {
    if m == 2 {
        if spec_is_leap(y) {
            29
        } else {
            28
        }
    } else if m == 4 || m == 6 || m == 9 || m == 11 {
        30
    } else {
        31
    }
}

/// A valid civil date within the calendar's years.
pub open spec fn spec_valid_date(y: int, m: int, d: int) -> bool {
    &&& MIN_YEAR <= y <= MAX_YEAR
    &&& 1 <= m <= 12
    &&& 1 <= d <= spec_last_day_of_month(y, m)
}

/// Days in `month` of `year`; the month after it must lie in the calendar.
pub fn last_day_of_month(year: i32, month: u32) -> (d: u32)
    requires
        1 <= month <= 12,
        MIN_YEAR <= year,
        year + (if month == 12 {
            1int
        } else {
            0
        }) <= MAX_YEAR,
    ensures
        d == spec_last_day_of_month(year as int, month as int),
{
    if month == 2 {
        let leap = (year % 4 == 0 && year % 100 != 0) || year % 400 == 0;
        if leap {
            29
        } else {
            28
        }
    } else if month == 4 || month == 6 || month == 9 || month == 11 {
        30
    } else {
        31
    }
}

/// A day of the month kept within the month: day 0 is the first, a day past
/// the end is the last.
pub open spec fn spec_clamp_day(y: int, m: int, desired: int) -> int {
    if desired == 0 {
        1
    } else if desired < spec_last_day_of_month(y, m) {
        desired
    } else {
        spec_last_day_of_month(y, m)
    }
}

pub fn clamp_day(year: i32, month: u32, desired_day: u32) -> (d: u32)
    requires
        1 <= month <= 12,
        MIN_YEAR <= year,
        year + (if month == 12 {
            1int
        } else {
            0
        }) <= MAX_YEAR,
    ensures
        d == spec_clamp_day(year as int, month as int, desired_day as int),
{
    if desired_day == 0 {
        return 1;
    }
    let last = last_day_of_month(year, month);
    if desired_day < last {
        desired_day
    } else {
        last
    }
}

/// The day before a date.
pub open spec fn spec_prev_day(y: int, m: int, d: int) -> (int, int, int) {
    if d > 1 {
        (y, m, d - 1)
    } else if m > 1 {
        (y, m - 1, spec_last_day_of_month(y, m - 1))
    } else {
        (y - 1, 12, 31)
    }
}

/// The date `n` days before a date.
pub open spec fn spec_minus_days(y: int, m: int, d: int, n: nat) -> (int, int, int)
    decreases n,
{
    if n == 0 {
        (y, m, d)
    } else {
        let p = spec_prev_day(y, m, d);
        spec_minus_days(p.0, p.1, p.2, (n - 1) as nat)
    }
}

/// Going back `n` days moves the year back by at most `n` and never
/// forward.
proof fn lemma_minus_days_year(y: int, m: int, d: int, n: nat)
    ensures
        y - n <= spec_minus_days(y, m, d, n).0 <= y,
    decreases n,
{
    if n > 0 {
        let p = spec_prev_day(y, m, d);
        lemma_minus_days_year(p.0, p.1, p.2, (n - 1) as nat);
    }
}

/// Going back further never gives a later year.
proof fn lemma_minus_days_more(y: int, m: int, d: int, n: nat, k: nat)
    ensures
        spec_minus_days(y, m, d, n + k).0 <= spec_minus_days(y, m, d, n).0,
    decreases n,
{
    if n == 0 {
        lemma_minus_days_year(y, m, d, k);
    } else {
        let p = spec_prev_day(y, m, d);
        assert((n + k - 1) as nat == ((n - 1) as nat + k) as nat);
        lemma_minus_days_more(p.0, p.1, p.2, (n - 1) as nat, k);
    }
}

/// Goes back `n` days from a date; stops (with none) when that goes before
/// the first year of the calendar.
fn minus_days(y: i32, m: u32, d: u32, n: u32) -> (r: Option<(i32, u32, u32)>)
    requires
        spec_valid_date(y as int, m as int, d as int),
    ensures
        match r {
            Some(t) => (t.0 as int, t.1 as int, t.2 as int) == spec_minus_days(
                y as int,
                m as int,
                d as int,
                n as nat,
            ) && spec_valid_date(t.0 as int, t.1 as int, t.2 as int),
            None => spec_minus_days(y as int, m as int, d as int, n as nat).0 < MIN_YEAR,
        },
{
    let mut cy = y;
    let mut cm = m;
    let mut cd = d;
    let mut k: u32 = 0;
    while k < n
        invariant
            k <= n,
            spec_valid_date(cy as int, cm as int, cd as int),
            spec_minus_days(y as int, m as int, d as int, n as nat) == spec_minus_days(
                cy as int,
                cm as int,
                cd as int,
                (n - k) as nat,
            ),
        decreases n - k,
    {
        if cd > 1 {
            cd = cd - 1;
        } else if cm > 1 {
            cm = cm - 1;
            cd = last_day_of_month(cy, cm);
        } else {
            if cy == MIN_YEAR {
                proof {
                    let rest = (n - k) as nat;
                    assert(spec_minus_days(cy as int, cm as int, cd as int, rest) == spec_minus_days(
                        MIN_YEAR - 1,
                        12,
                        31,
                        (rest - 1) as nat,
                    ));
                    lemma_minus_days_year(MIN_YEAR - 1, 12, 31, (rest - 1) as nat);
                }
                return None;
            }
            cy = cy - 1;
            cm = 12;
            cd = 31;
        }
        k = k + 1;
    }
    Some((cy, cm, cd))
}

/// Whether civil time `a` is later than `now` (whose seconds only make it
/// later).
pub open spec fn spec_later_than(a: CivilDateTime, now: LocalNow) -> bool {
    if a.year != now.year {
        a.year > now.year
    } else if a.month != now.month {
        a.month > now.month
    } else if a.day != now.day {
        a.day > now.day
    } else if a.hour != now.hour {
        a.hour > now.hour
    } else {
        a.minute > now.minute
    }
}

fn later_than(a: &CivilDateTime, now: &LocalNow) -> (b: bool)
    ensures
        b == spec_later_than(*a, *now),
{
    if a.year != now.year {
        a.year > now.year
    } else if a.month != now.month {
        a.month > now.month
    } else if a.day != now.day {
        a.day > now.day
    } else if a.hour != now.hour {
        a.hour > now.hour
    } else {
        a.minute > now.minute
    }
}

/// A weekday (days since Monday) for a policy's week number: 1 is Monday,
/// 7 and 0 are Sunday.
pub open spec fn spec_policy_weekday(week: u32) -> Option<u32> {
    if 1 <= week <= 7 {
        Some((week - 1) as u32)
    } else if week == 0 {
        Some(6)
    } else {
        None
    }
}

pub fn policy_weekday(week: u32) -> (r: Option<u32>)
    ensures
        r == spec_policy_weekday(week),
{
    if week >= 1 && week <= 7 {
        Some(week - 1)
    } else if week == 0 {
        Some(6)
    } else {
        None
    }
}

pub open spec fn spec_at(t: (int, int, int), hour: u32, minute: u32) -> CivilDateTime {
    CivilDateTime { year: t.0 as i32, month: t.1 as u32, day: t.2 as u32, hour, minute }
}

/// A valid local time now.
pub open spec fn spec_now_valid(now: LocalNow) -> bool {
    &&& spec_valid_date(now.year as int, now.month as int, now.day as int)
    &&& now.weekday < 7
    &&& now.hour < 24 && now.minute < 60 && now.second < 61
    &&& now.year < MAX_YEAR
}

/// The latest time not after `now` at which a periodic rule falls: today
/// (or yesterday), this week's weekday (or last week's), or this month's
/// day (or last month's, the day kept within the month). A rule with a
/// month day of 0 or an unknown week number never falls.
pub open spec fn spec_latest_occurrence(minutes: u64, week: Option<u32>, date: Option<u32>, now: LocalNow) -> Option<
    CivilDateTime,
> {
    let hour = (minutes / 60) as u32;
    let minute = (minutes % 60) as u32;
    let today = (now.year as int, now.month as int, now.day as int);
    if minutes >= MINUTES_PER_DAY {
        None
    } else if date is Some {
        let dd = date->0;
        if dd == 0 {
            None
        } else {
            let this = CivilDateTime {
                year: now.year,
                month: now.month,
                day: spec_clamp_day(now.year as int, now.month as int, dd as int) as u32,
                hour,
                minute,
            };
            if !spec_later_than(this, now) {
                Some(this)
            } else {
                let (py, pm) = if now.month == 1 {
                    (now.year - 1, 12int)
                } else {
                    (now.year as int, now.month - 1)
                };
                Some(
                    CivilDateTime {
                        year: py as i32,
                        month: pm as u32,
                        day: spec_clamp_day(py, pm, dd as int) as u32,
                        hour,
                        minute,
                    },
                )
            }
        }
    } else if week is Some {
        match spec_policy_weekday(week->0) {
            None => None,
            Some(target) => {
                let diff = if now.weekday >= target {
                    now.weekday - target
                } else {
                    now.weekday - target + 7
                };
                let this = spec_at(spec_minus_days(today.0, today.1, today.2, diff as nat), hour, minute);
                if !spec_later_than(this, now) {
                    Some(this)
                } else {
                    Some(spec_at(spec_minus_days(today.0, today.1, today.2, (diff + 7) as nat), hour, minute))
                }
            },
        }
    } else {
        let this = spec_at(today, hour, minute);
        if !spec_later_than(this, now) {
            Some(this)
        } else {
            Some(spec_at(spec_minus_days(today.0, today.1, today.2, 1), hour, minute))
        }
    }
}

/// A time kept only when it lies within the calendar (not before its
/// first year).
pub open spec fn spec_in_calendar(o: Option<CivilDateTime>) -> Option<CivilDateTime> {
    match o {
        Some(c) => if c.year >= MIN_YEAR {
            Some(c)
        } else {
            None
        },
        None => None,
    }
}

/// The latest time not after `now` at which a periodic rule falls (see
/// `spec_latest_occurrence`); none also when that date is before the first
/// year of the calendar.
pub fn latest_occurrence(period: &PlanPolicyPeriod, now: &LocalNow) -> (r: Option<CivilDateTime>)
    requires
        spec_now_valid(*now),
    ensures
        r == spec_in_calendar(spec_latest_occurrence(period.minutes, period.week, period.date, *now)),
{
    let ghost today = (now.year as int, now.month as int, now.day as int);
    if period.minutes >= MINUTES_PER_DAY {
        return None;
    }
    let hour = (period.minutes / 60) as u32;
    let minute = (period.minutes % 60) as u32;
    match period.date {
        Some(dd) => {
            if dd == 0 {
                return None;
            }
            let this = CivilDateTime {
                year: now.year,
                month: now.month,
                day: clamp_day(now.year, now.month, dd),
                hour,
                minute,
            };
            if !later_than(&this, now) {
                return Some(this);
            }
            if now.month == 1 && now.year == MIN_YEAR {
                return None;
            }
            let (py, pm) = if now.month == 1 {
                (now.year - 1, 12u32)
            } else {
                (now.year, now.month - 1)
            };
            return Some(CivilDateTime { year: py, month: pm, day: clamp_day(py, pm, dd), hour, minute });
        },
        None => {},
    }
    match period.week {
        Some(w) => {
            let target = match policy_weekday(w) {
                Some(t) => t,
                None => {
                    return None;
                },
            };
            let diff = if now.weekday >= target {
                now.weekday - target
            } else {
                now.weekday + 7 - target
            };
            proof {
                lemma_minus_days_year(today.0, today.1, today.2, diff as nat);
                lemma_minus_days_year(today.0, today.1, today.2, (diff + 7) as nat);
                lemma_minus_days_more(today.0, today.1, today.2, diff as nat, 7);
            }
            let first = match minus_days(now.year, now.month, now.day, diff) {
                Some(t) => t,
                None => {
                    return None;
                },
            };
            let this = CivilDateTime { year: first.0, month: first.1, day: first.2, hour, minute };
            if !later_than(&this, now) {
                return Some(this);
            }
            match minus_days(now.year, now.month, now.day, diff + 7) {
                Some(t) => Some(CivilDateTime { year: t.0, month: t.1, day: t.2, hour, minute }),
                None => None,
            }
        },
        None => {
            let this = CivilDateTime { year: now.year, month: now.month, day: now.day, hour, minute };
            if !later_than(&this, now) {
                return Some(this);
            }
            proof {
                lemma_minus_days_year(today.0, today.1, today.2, 1);
            }
            match minus_days(now.year, now.month, now.day, 1) {
                Some(t) => Some(CivilDateTime { year: t.0, month: t.1, day: t.2, hour, minute }),
                None => None,
            }
        },
    }
}

/// Milliseconds since the epoch of a local civil time, through
/// `chrono::Local::with_ymd_and_hms` and `DateTime::timestamp_millis`;
/// none when the local time does not exist or is ambiguous. Nothing is
/// claimed of the value: it depends on the machine's time zone.
#[verifier::external_body]
fn local_timestamp_millis(c: &CivilDateTime) -> Option<i64> {
    match chrono::Local.with_ymd_and_hms(c.year, c.month, c.day, c.hour, c.minute, 0) {
        chrono::LocalResult::Single(dt) => Some(dt.timestamp_millis()),
        _ => None,
    }
}

/// A timestamp in milliseconds as an unsigned count: one at or before the
/// epoch counts as 0.
pub fn timestamp_to_millis(ms: i64) -> (r: u64)
    ensures
        r == (if ms <= 0 {
            0
        } else {
            ms as int
        }),
{
    if ms <= 0 {
        0
    } else {
        ms as u64
    }
}

/// What a local civil time comes to, given what the time zone made of it:
/// none when it gave no single instant, otherwise the instant as an
/// unsigned count of milliseconds (see `timestamp_to_millis`).
pub fn millis_from_local_instant(instant: Option<i64>) -> (r: Option<u64>)
    ensures
        match instant {
            Some(ms) => r == Some((if ms <= 0 {
                0
            } else {
                ms as int
            }) as u64),
            None => r is None,
        },
{
    match instant {
        Some(ms) => Some(timestamp_to_millis(ms)),
        None => None,
    }
}

/// Milliseconds since the epoch of a local civil time (see
/// `millis_from_local_instant`); none when the local time does not exist or
/// is ambiguous. Which of these it is, and the value, depend on the
/// machine's time zone; whatever it is, the count fits in an `i64`.
pub fn local_civil_to_millis(c: &CivilDateTime) -> (r: Option<u64>)
    ensures
        r matches Some(v) ==> v <= i64::MAX,
{
    millis_from_local_instant(local_timestamp_millis(c))
}

/// The greatest of the times given.
pub open spec fn spec_max_due(dues: Seq<Option<u64>>) -> Option<u64>
    decreases dues.len(),
{
    if dues.len() == 0 {
        None
    } else {
        match (spec_max_due(dues.drop_last()), dues.last()) {
            (None, x) => x,
            (Some(a), None) => Some(a),
            (Some(a), Some(b)) => Some(if a >= b { a } else { b }),
        }
    }
}

pub fn max_due(dues: &Vec<Option<u64>>) -> (r: Option<u64>)
    ensures
        r == spec_max_due(dues@),
{
    let mut best: Option<u64> = None;
    let mut i: usize = 0;
    while i < dues.len()
        invariant
            i <= dues@.len(),
            best == spec_max_due(dues@.take(i as int)),
        decreases dues.len() - i,
    {
        proof {
            assert(dues@.take(i + 1).drop_last() =~= dues@.take(i as int));
        }
        best = match (best, dues[i]) {
            (None, x) => x,
            (Some(a), None) => Some(a),
            (Some(a), Some(b)) => Some(if a >= b { a } else { b }),
        };
        i = i + 1;
    }
    assert(dues@.take(dues@.len() as int) =~= dues@);
    best
}

/// Whether a rule is periodic and has fallen at a time within the calendar.
pub open spec fn spec_has_occurrence(r: PlanPolicyRule, now: LocalNow) -> bool {
    match r {
        PlanPolicyRule::Period(p) => spec_in_calendar(
            spec_latest_occurrence(p.minutes, p.week, p.date, now),
        ) is Some,
        _ => false,
    }
}

proof fn lemma_max_due_none(dues: Seq<Option<u64>>)
    requires
        forall|j: int| 0 <= j < dues.len() ==> (#[trigger] dues[j]) is None,
    ensures
        spec_max_due(dues) is None,
    decreases dues.len(),
{
    if dues.len() > 0 {
        let d = dues.drop_last();
        assert forall|j: int| 0 <= j < d.len() implies (#[trigger] d[j]) is None by {
            assert(d[j] == dues[j]);
        }
        lemma_max_due_none(d);
        assert(dues[dues.len() - 1] is None);
    }
}

/// The due time rule `r` contributes, given what the time zone made of its
/// latest occurrence (`instant`: the milliseconds of that local time, or
/// none where it is no single instant): a periodic rule that has fallen
/// within the calendar contributes that instant as an unsigned count; any
/// other rule, or an occurrence with no instant, nothing.
pub open spec fn spec_rule_due(r: PlanPolicyRule, now: LocalNow, instant: Option<i64>) -> Option<u64> {
    if spec_has_occurrence(r, now) {
        match instant {
            Some(ms) => Some((if ms <= 0 {
                0
            } else {
                ms as int
            }) as u64),
            None => None,
        }
    } else {
        None
    }
}

/// The due times of the rules, rule by rule (`instants[k]` for rule `k`).
pub open spec fn spec_rule_dues(
    policies: Seq<PlanPolicyRule>,
    now: LocalNow,
    instants: Seq<Option<i64>>,
) -> Seq<Option<u64>> {
    Seq::new(policies.len(), |k: int| spec_rule_due(policies[k], now, instants[k]))
}

/// The greatest of the times given is one of them and no smaller than any.
proof fn lemma_max_due_is_greatest(dues: Seq<Option<u64>>)
    ensures
        forall|j: int|
            0 <= j < dues.len() && (#[trigger] dues[j]) is Some ==> (spec_max_due(dues) matches Some(
                m,
            ) && m >= dues[j]->0),
        spec_max_due(dues) matches Some(m) ==> exists|j: int|
            0 <= j < dues.len() && #[trigger] dues[j] == Some(m),
        spec_max_due(dues) is None ==> forall|j: int| 0 <= j < dues.len() ==> (#[trigger] dues[j]) is None,
    decreases dues.len(),
{
    if dues.len() > 0 {
        let d = dues.drop_last();
        lemma_max_due_is_greatest(d);
        assert forall|j: int| 0 <= j < d.len() implies #[trigger] d[j] == dues[j] by {}
        let n = dues.len() - 1;
        match spec_max_due(d) {
            Some(a) => {
                let j0 = choose|j: int| 0 <= j < d.len() && #[trigger] d[j] == Some(a);
                assert(dues[j0] == Some(a));
            },
            None => {},
        }
        assert(dues[n] == dues.last());
        assert forall|j: int|
            0 <= j < dues.len() && (#[trigger] dues[j]) is Some implies (spec_max_due(
            dues,
        ) matches Some(m) && m >= dues[j]->0) by {
            if j < n {
                assert(d[j] == dues[j]);
            }
        }
        if spec_max_due(dues) is None {
            assert forall|j: int| 0 <= j < dues.len() implies (#[trigger] dues[j]) is None by {
                if j < n {
                    assert(d[j] == dues[j]);
                }
            }
        }
    }
}

/// The latest due time of the periodic rules: the greatest, over the rules
/// that have fallen within the calendar, of the instants the time zone gave
/// their latest occurrences. Rule `k`'s instant is `instants[k]`; it is
/// read only for a periodic rule that has fallen.
pub fn period_due_from_instants(
    policies: &Vec<PlanPolicyRule>,
    now: &LocalNow,
    instants: &Vec<Option<i64>>,
) -> (r: Option<u64>)
    requires
        spec_now_valid(*now),
        instants@.len() == policies@.len(),
    ensures
        r == spec_max_due(spec_rule_dues(policies@, *now, instants@)),
{
    let mut dues: Vec<Option<u64>> = Vec::new();
    let mut i: usize = 0;
    while i < policies.len()
        invariant
            i <= policies@.len(),
            spec_now_valid(*now),
            instants@.len() == policies@.len(),
            dues@.len() == i,
            forall|j: int| 0 <= j < i ==> #[trigger] dues@[j] == spec_rule_due(
                policies@[j],
                *now,
                instants@[j],
            ),
        decreases policies.len() - i,
    {
        let due = match &policies[i] {
            PlanPolicyRule::Period(p) => match latest_occurrence(p, now) {
                Some(_) => millis_from_local_instant(instants[i]),
                None => None,
            },
            _ => None,
        };
        dues.push(due);
        i = i + 1;
    }
    assert(dues@ =~= spec_rule_dues(policies@, *now, instants@));
    max_due(&dues)
}

/// The periodic due time is the latest of the rules' due times: every
/// periodic rule that has fallen within the calendar and whose local time
/// is a single instant makes the plan due, no earlier than that instant;
/// a due time is always the instant of some such rule; and none comes
/// exactly when no rule has both.
pub proof fn law_period_due_is_latest_rule_due(
    policies: Seq<PlanPolicyRule>,
    now: LocalNow,
    instants: Seq<Option<i64>>,
)
    requires
        instants.len() == policies.len(),
    ensures
        forall|k: int|
            0 <= k < policies.len() && spec_has_occurrence(#[trigger] policies[k], now)
                && instants[k] is Some ==> (spec_max_due(spec_rule_dues(policies, now, instants)) matches Some(
                m,
            ) && m >= (if instants[k]->0 <= 0 {
                0
            } else {
                instants[k]->0 as int
            })),
        spec_max_due(spec_rule_dues(policies, now, instants)) matches Some(m) ==> exists|k: int|
            0 <= k < policies.len() && spec_has_occurrence(#[trigger] policies[k], now)
                && (instants[k] matches Some(ms) && m == (if ms <= 0 {
                0
            } else {
                ms as int
            })),
        spec_max_due(spec_rule_dues(policies, now, instants)) is None <==> forall|k: int|
            0 <= k < policies.len() ==> !(spec_has_occurrence(#[trigger] policies[k], now)
                && instants[k] is Some),
{
    let dues = spec_rule_dues(policies, now, instants);
    lemma_max_due_is_greatest(dues);
    if forall|k: int|
        0 <= k < policies.len() ==> !(spec_has_occurrence(#[trigger] policies[k], now)
            && instants[k] is Some) {
        assert forall|j: int| 0 <= j < dues.len() implies (#[trigger] dues[j]) is None by {
            assert(dues[j] == spec_rule_due(policies[j], now, instants[j]));
        }
        lemma_max_due_none(dues);
    }
    assert forall|k: int|
        0 <= k < policies.len() && spec_has_occurrence(#[trigger] policies[k], now)
            && instants[k] is Some implies (spec_max_due(dues) matches Some(m) && m >= (if instants[k]->0
        <= 0 {
        0
    } else {
        instants[k]->0 as int
    })) by {
        assert(dues[k] == spec_rule_due(policies[k], now, instants[k]));
        assert(dues[k] is Some);
    }
    if spec_max_due(dues) is Some {
        let m = spec_max_due(dues)->0;
        let j = choose|j: int| 0 <= j < dues.len() && #[trigger] dues[j] == Some(m);
        assert(dues[j] == spec_rule_due(policies[j], now, instants[j]));
        assert(spec_has_occurrence(policies[j], now) && instants[j] is Some);
    } else {
        assert forall|k: int| 0 <= k < policies.len() implies !(spec_has_occurrence(
            #[trigger] policies[k],
            now,
        ) && instants[k] is Some) by {
            assert(dues[k] == spec_rule_due(policies[k], now, instants[k]));
        }
    }
}

/// The latest time, in milliseconds, at which any periodic rule fell (see
/// `period_due_from_instants`, which is handed what the machine's time zone
/// made of each rule's latest occurrence). None when no periodic rule has
/// fallen within the calendar; a time only when one has. Which time, and
/// whether one comes at all, depend on the time zone: a local time in a gap
/// of the clock is no instant.
pub fn latest_period_due_time(policies: &Vec<PlanPolicyRule>, now: &LocalNow) -> (r: Option<u64>)
    requires
        spec_now_valid(*now),
    ensures
        (forall|i: int| 0 <= i < policies@.len() ==> !spec_has_occurrence(#[trigger] policies@[i], *now))
            ==> r is None,
        r is Some ==> exists|i: int|
            0 <= i < policies@.len() && spec_has_occurrence(#[trigger] policies@[i], *now),
{
    let mut instants: Vec<Option<i64>> = Vec::new();
    let mut i: usize = 0;
    while i < policies.len()
        invariant
            i <= policies@.len(),
            spec_now_valid(*now),
            instants@.len() == i,
        decreases policies.len() - i,
    {
        let instant = match &policies[i] {
            PlanPolicyRule::Period(p) => match latest_occurrence(p, now) {
                Some(c) => local_timestamp_millis(&c),
                None => None,
            },
            _ => None,
        };
        instants.push(instant);
        i = i + 1;
    }
    proof {
        law_period_due_is_latest_rule_due(policies@, *now, instants@);
    }
    period_due_from_instants(policies, now, &instants)
}

/// Whether a plan starts a backup by itself now: its latest periodic time
/// has come, is after the plan's latest backup task and not before the plan
/// was created; or an event rule is due.
pub open spec fn spec_should_auto_start(
    period_due: Option<u64>,
    now_ms: u64,
    last_created: Option<u64>,
    plan_create_time: u64,
    event_delays: Seq<u64>,
    last_completed: Option<u64>,
    latest_update: Option<u64>,
) -> bool {
    ||| (period_due matches Some(d) && d <= now_ms && d > (match last_created {
        Some(c) => c,
        None => 0,
    }) && d >= plan_create_time)
    ||| exists|i: int|
        0 <= i < event_delays.len() && spec_event_policy_due(
            last_completed,
            now_ms,
            #[trigger] event_delays[i],
            plan_create_time,
            latest_update,
        )
}

pub fn should_auto_start(
    period_due: Option<u64>,
    now_ms: u64,
    last_created: Option<u64>,
    plan_create_time: u64,
    event_delays: &Vec<u64>,
    last_completed: Option<u64>,
    latest_update: Option<u64>,
) -> (b: bool)
    ensures
        b == spec_should_auto_start(
            period_due,
            now_ms,
            last_created,
            plan_create_time,
            event_delays@,
            last_completed,
            latest_update,
        ),
{
    match period_due {
        Some(d) => {
            let lc = match last_created {
                Some(c) => c,
                None => 0,
            };
            if d <= now_ms && d > lc && d >= plan_create_time {
                return true;
            }
        },
        None => {},
    }
    let mut i: usize = 0;
    while i < event_delays.len()
        invariant
            i <= event_delays@.len(),
            forall|k: int|
                0 <= k < i ==> !spec_event_policy_due(
                    last_completed,
                    now_ms,
                    #[trigger] event_delays@[k],
                    plan_create_time,
                    latest_update,
                ),
        decreases event_delays.len() - i,
    {
        let e = PlanPolicyEvent { update_delay: event_delays[i] };
        if is_event_policy_due(last_completed, now_ms, &e, plan_create_time, latest_update) {
            return true;
        }
        i = i + 1;
    }
    false
}

/// Whether the scheduler looks at a plan at all: its policies are enabled,
/// its policy is a non-empty array, and it has no backup task that can
/// still run.
pub fn plan_wants_auto_start(policy_disabled: bool, policy: &JsonValue, has_runnable_task: bool) -> (b: bool)
    ensures
        b == (!policy_disabled && (policy matches JsonValue::Array(a) && a@.len() > 0)
            && !has_runnable_task),
{
    if policy_disabled {
        return false;
    }
    let non_empty = match policy {
        JsonValue::Array(a) => a.len() > 0,
        _ => false,
    };
    non_empty && !has_runnable_task
}

/// Date `a` comes before date `b`.
pub open spec fn spec_date_before(a: (int, int, int), b: (int, int, int)) -> bool {
    a.0 < b.0 || (a.0 == b.0 && (a.1 < b.1 || (a.1 == b.1 && a.2 < b.2)))
}

proof fn lemma_minus_days_before(y: int, m: int, d: int, n: nat)
    requires
        1 <= m <= 12,
        1 <= d,
        n >= 1,
    ensures
        spec_date_before(spec_minus_days(y, m, d, n), (y, m, d)),
    decreases n,
{
    let p = spec_prev_day(y, m, d);
    assert(spec_date_before(p, (y, m, d)));
    if n > 1 {
        assert(1 <= p.1 <= 12 && 1 <= p.2) by {
            if d <= 1 && m > 1 {
                assert(spec_last_day_of_month(y, m - 1) >= 28);
            }
        }
        lemma_minus_days_before(p.0, p.1, p.2, (n - 1) as nat);
        assert(spec_minus_days(y, m, d, n) == spec_minus_days(p.0, p.1, p.2, (n - 1) as nat));
        let q = spec_minus_days(p.0, p.1, p.2, (n - 1) as nat);
        assert(spec_date_before(q, p));
    } else {
        assert(spec_minus_days(y, m, d, n) == spec_minus_days(p.0, p.1, p.2, 0));
    }
}

/// A plan's periodic rule never falls later than now.
pub proof fn law_latest_occurrence_not_after_now(
    minutes: u64,
    week: Option<u32>,
    date: Option<u32>,
    now: LocalNow,
)
    requires
        spec_now_valid(now),
    ensures
        spec_latest_occurrence(minutes, week, date, now) matches Some(c) ==> !spec_later_than(c, now),
{
    let today = (now.year as int, now.month as int, now.day as int);
    if minutes < MINUTES_PER_DAY {
        if date is Some {
        } else if week is Some {
            if let Some(target) = spec_policy_weekday(week->0) {
                let diff = if now.weekday >= target {
                    now.weekday - target
                } else {
                    now.weekday - target + 7
                };
                lemma_minus_days_before(today.0, today.1, today.2, (diff + 7) as nat);
                lemma_minus_days_valid(today.0, today.1, today.2, (diff + 7) as nat);
            }
        } else {
            lemma_minus_days_before(today.0, today.1, today.2, 1);
            lemma_minus_days_valid(today.0, today.1, today.2, 1);
        }
    }
}

/// Going back a few days from a valid date in the calendar stays a date
/// whose fields fit their types.
proof fn lemma_minus_days_valid(y: int, m: int, d: int, n: nat)
    requires
        spec_valid_date(y, m, d),
        n <= 14,
    ensures
        ({
            let t = spec_minus_days(y, m, d, n);
            &&& y - 1 <= t.0 <= y
            &&& 1 <= t.1 <= 12
            &&& 1 <= t.2 <= 31
        }),
    decreases n,
{
    if n > 0 {
        let p = spec_prev_day(y, m, d);
        if y - 1 >= MIN_YEAR || p.0 == y {
            if p.0 == y {
                lemma_minus_days_valid(p.0, p.1, p.2, (n - 1) as nat);
            } else {
                lemma_minus_days_from_dec31(p.0, (n - 1) as nat);
            }
        } else {
            lemma_minus_days_from_dec31(p.0, (n - 1) as nat);
        }
    }
}

/// Going back at most two weeks from the last day of a year stays in that
/// year.
proof fn lemma_minus_days_from_dec31(y: int, n: nat)
    requires
        n <= 14,
    ensures
        spec_minus_days(y, 12, 31, n) == (y, 12int, 31 - n),
    decreases n,
{
    if n > 0 {
        lemma_minus_days_dec(y, 30, (n - 1) as nat);
    }
}

proof fn lemma_minus_days_dec(y: int, d: int, n: nat)
    requires
        n < d <= 31,
    ensures
        spec_minus_days(y, 12, d, n) == (y, 12int, d - n),
    decreases n,
{
    if n > 0 {
        lemma_minus_days_dec(y, d - 1, (n - 1) as nat);
    }
}

} // verus!
