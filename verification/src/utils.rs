//! Shared value types: calendar dates, task priorities, swimlane statuses,
//! and the parsing of the keyword vocabulary used on the command line.

use crate::error::AppError;
use vstd::prelude::*;

verus! {

/// std's opaque handle to a point in time.
#[verifier::external_type_specification]
#[verifier::external_body]
pub struct ExSystemTime(std::time::SystemTime);

/// A calendar date, stored as plain year / month / day fields.
#[derive(Clone, Copy, Debug, PartialEq, Eq, Structural)]
pub struct TimeStamp {
    pub year: i32,
    pub month: u32,
    pub day: u32,
}

/// Priority tier of a task or subtask.
#[derive(Clone, Copy, Debug, PartialEq, Eq, Structural)]
pub enum TaskPriority {
    High,
    Medium,
    Low,
}

/// Swimlane (status column) of a task or subtask on the board.
#[derive(Clone, Copy, Debug, PartialEq, Eq, Structural)]
pub enum TaskStatus {
    ToDo,
    InProgress,
    Blocked,
    InReview,
    Done,
}

/// The deadline buckets a filter keyword can select.
#[derive(Clone, Copy, Debug, PartialEq, Eq, Structural)]
pub enum DeadlineFilter {
    PastDeadline,
    Today,
    Tomorrow,
    AfterTomorrow,
    NoDeadline,
}

/// Leap years of the proleptic Gregorian calendar; divisibility does not
/// depend on the sign of the year.
pub open spec fn is_leap_year(y: int) -> bool {
    let a = if y >= 0 {
        y
    } else {
        -y
    };
    a % 4 == 0 && (a % 100 != 0 || a % 400 == 0)
}

/// Number of days in month `m` of year `y` (Gregorian calendar).
pub open spec fn days_in_month(y: int, m: int) -> int
    recommends
        1 <= m <= 12,
{
    if m == 2 {
        if is_leap_year(y) {
            29
        } else {
            28
        }
    } else if m == 4 || m == 6 || m == 9 || m == 11 {
        30
    } else {
        31
    }
}

/// A real calendar date within the range the library works in.
pub open spec fn valid_date(d: TimeStamp) -> bool {
    &&& -400000 < d.year < 400000
    &&& 1 <= d.month <= 12
    &&& 1 <= d.day <= days_in_month(d.year as int, d.month as int)
}

/// Strict chronological order on dates.
pub open spec fn date_lt(a: TimeStamp, b: TimeStamp) -> bool {
    ||| a.year < b.year
    ||| (a.year == b.year && a.month < b.month)
    ||| (a.year == b.year && a.month == b.month && a.day < b.day)
}

/// The day after `d`.
pub open spec fn spec_next_day(d: TimeStamp) -> TimeStamp {
    if (d.day as int) < days_in_month(d.year as int, d.month as int) {
        TimeStamp { year: d.year, month: d.month, day: (d.day + 1) as u32 }
    } else if d.month < 12 {
        TimeStamp { year: d.year, month: (d.month + 1) as u32, day: 1 }
    } else {
        TimeStamp { year: (d.year + 1) as i32, month: 1, day: 1 }
    }
}

impl TimeStamp {
    /// Relies on chrono's `Local::now` and the `Datelike` accessors: the
    /// current local date is a real calendar date (month 1..=12, day valid
    /// for that month), and chrono keeps dates within roughly 262,000 years
    /// of the common era.
    #[verifier::external_body]
    pub fn new() -> (r: TimeStamp)
        ensures
            valid_date(r),
    {
        let now: chrono::DateTime<chrono::Local> = chrono::Local::now();
        TimeStamp {
            year: chrono::Datelike::year(&now),
            month: chrono::Datelike::month(&now),
            day: chrono::Datelike::day(&now),
        }
    }

    /// Whether `self` falls strictly before `other`.
    pub fn is_before(&self, other: &TimeStamp) -> (r: bool)
        ensures
            r == date_lt(*self, *other),
    {
        if self.year != other.year {
            self.year < other.year
        } else if self.month != other.month {
            self.month < other.month
        } else {
            self.day < other.day
        }
    }

    /// The day after `self`.
    pub fn next_day(&self) -> (r: TimeStamp)
        requires
            valid_date(*self),
        ensures
            r == spec_next_day(*self),
    {
        let dim: u32 = days_in_month_of(self.year, self.month);
        if self.day < dim {
            TimeStamp { year: self.year, month: self.month, day: self.day + 1 }
        } else if self.month < 12 {
            TimeStamp { year: self.year, month: self.month + 1, day: 1 }
        } else {
            TimeStamp { year: self.year + 1, month: 1, day: 1 }
        }
    }
}

/// Whether `y` is a leap year.
pub fn leap_year(y: i32) -> (r: bool)
    requires
        -400000 < y < 400000,
    ensures
        r == is_leap_year(y as int),
{
    let a: i32 = if y >= 0 {
        y
    } else {
        -y
    };
    a % 4 == 0 && (a % 100 != 0 || a % 400 == 0)
}

/// Number of days in month `m` of year `y`.
pub fn days_in_month_of(y: i32, m: u32) -> (r: u32)
    requires
        -400000 < y < 400000,
        1 <= m <= 12,
    ensures
        r as int == days_in_month(y as int, m as int),
{
    if m == 2 {
        if leap_year(y) {
            29
        } else {
            28
        }
    } else if m == 4 || m == 6 || m == 9 || m == 11 {
        30
    } else {
        31
    }
}

/// Removing the first occurrence of `x` from a duplicate-free sequence
/// leaves no occurrence, and keeps the sequence duplicate-free.
pub proof fn lemma_remove_value_no_dup<A>(s: Seq<A>, x: A)
    requires
        s.no_duplicates(),
    ensures
        !s.remove_value(x).contains(x),
        s.remove_value(x).no_duplicates(),
{
    s.index_of_first_ensures(x);
    match s.index_of_first(x) {
        Some(p) => {
            let r = s.remove(p);
            assert forall|k: int| 0 <= k < r.len() implies r[k] != x by {
                if k < p {
                    assert(r[k] == s[k]);
                    assert(s[k] != s[p]);
                } else {
                    assert(r[k] == s[k + 1]);
                    assert(s[k + 1] != s[p]);
                }
            }
            if r.contains(x) {
                let w = choose|w: int| 0 <= w < r.len() && r[w] == x;
                assert(r[w] != x);
            }
            assert forall|i: int, j: int| 0 <= i < j < r.len() implies r[i] != r[j] by {
                if j < p {
                    assert(r[i] == s[i] && r[j] == s[j]);
                } else if i < p {
                    assert(r[i] == s[i] && r[j] == s[j + 1]);
                } else {
                    assert(r[i] == s[i + 1] && r[j] == s[j + 1]);
                }
            }
        },
        None => {},
    }
}

/// Removing the first occurrence of one value does not affect whether any
/// other value occurs.
pub proof fn lemma_remove_value_other<A>(s: Seq<A>, x: A, e: A)
    requires
        e != x,
    ensures
        s.remove_value(x).contains(e) == s.contains(e),
{
    s.index_of_first_ensures(x);
    match s.index_of_first(x) {
        Some(p) => {
            let r = s.remove(p);
            if r.contains(e) {
                let w = choose|w: int| 0 <= w < r.len() && r[w] == e;
                if w < p {
                    assert(s[w] == e);
                } else {
                    assert(s[w + 1] == e);
                }
                assert(s.contains(e));
            }
            if s.contains(e) {
                let q = choose|q: int| 0 <= q < s.len() && s[q] == e;
                assert(q != p);
                if q < p {
                    assert(r[q] == e);
                    assert(r.contains(e));
                } else {
                    assert(r[q - 1] == e);
                    assert(r.contains(e));
                }
            }
        },
        None => {},
    }
}

/// Anything found after removing a value was already there.
pub proof fn lemma_remove_value_contains_orig<A>(s: Seq<A>, x: A, e: A)
    requires
        s.remove_value(x).contains(e),
    ensures
        s.contains(e),
{
    s.index_of_first_ensures(x);
    match s.index_of_first(x) {
        Some(p) => {
            let r = s.remove(p);
            let w = choose|w: int| 0 <= w < r.len() && r[w] == e;
            if w < p {
                assert(s[w] == e);
            } else {
                assert(s[w + 1] == e);
            }
        },
        None => {},
    }
}

/// Appending a value that does not occur keeps a sequence duplicate-free.
pub proof fn lemma_push_no_dup<A>(s: Seq<A>, x: A)
    requires
        s.no_duplicates(),
        !s.contains(x),
    ensures
        s.push(x).no_duplicates(),
{
    let r = s.push(x);
    assert forall|i: int, j: int| 0 <= i < j < r.len() implies r[i] != r[j] by {
        if j == s.len() as int {
            assert(r[i] == s[i]);
            if s[i] == x {
                assert(s.contains(x));
            }
        } else {
            assert(r[i] == s[i] && r[j] == s[j]);
        }
    }
}

/// Whether a deadline falls in the bucket a filter keyword selects,
/// relative to `today`.
pub open spec fn deadline_matches(dl: Option<TimeStamp>, f: DeadlineFilter, today: TimeStamp) -> bool {
    match f {
        DeadlineFilter::NoDeadline => dl is None,
        DeadlineFilter::PastDeadline => dl matches Some(d) && date_lt(d, today),
        DeadlineFilter::Today => dl matches Some(d) && d == today,
        DeadlineFilter::Tomorrow => dl matches Some(d) && d == spec_next_day(today),
        DeadlineFilter::AfterTomorrow => dl matches Some(d) && date_lt(spec_next_day(today), d),
    }
}

/// Whether `dl` falls in the bucket `f` selects, relative to `today`.
pub fn deadline_bucket_matches(dl: &Option<TimeStamp>, f: DeadlineFilter, today: &TimeStamp) -> (r:
    bool)
    requires
        valid_date(*today),
    ensures
        r == deadline_matches(*dl, f, *today),
{
    match f {
        DeadlineFilter::NoDeadline => dl.is_none(),
        DeadlineFilter::PastDeadline => {
            match dl {
                Some(d) => d.is_before(today),
                None => false,
            }
        },
        DeadlineFilter::Today => {
            match dl {
                Some(d) => *d == *today,
                None => false,
            }
        },
        DeadlineFilter::Tomorrow => {
            let tm = today.next_day();
            match dl {
                Some(d) => *d == tm,
                None => false,
            }
        },
        DeadlineFilter::AfterTomorrow => {
            let tm = today.next_day();
            match dl {
                Some(d) => tm.is_before(d),
                None => false,
            }
        },
    }
}

/// The decimal digit character for `d`.
pub open spec fn digit_char(d: int) -> char
    recommends
        0 <= d <= 9,
{
    if d == 0 {
        '0'
    } else if d == 1 {
        '1'
    } else if d == 2 {
        '2'
    } else if d == 3 {
        '3'
    } else if d == 4 {
        '4'
    } else if d == 5 {
        '5'
    } else if d == 6 {
        '6'
    } else if d == 7 {
        '7'
    } else if d == 8 {
        '8'
    } else {
        '9'
    }
}

/// `n` written as five decimal digits, zero padded.
pub open spec fn five_digits(n: int) -> Seq<char>
    recommends
        0 <= n < 100000,
{
    seq![
        digit_char(n / 10000 % 10),
        digit_char(n / 1000 % 10),
        digit_char(n / 100 % 10),
        digit_char(n / 10 % 10),
        digit_char(n % 10),
    ]
}

/// The one-character string for digit `d`.
fn digit_str(d: u64) -> (r: &'static str)
    requires
        d < 10,
    ensures
        r@ == seq![digit_char(d as int)],
{
    let s: &'static str = match d {
        0 => "0",
        1 => "1",
        2 => "2",
        3 => "3",
        4 => "4",
        5 => "5",
        6 => "6",
        7 => "7",
        8 => "8",
        _ => "9",
    };
    proof {
        reveal_strlit("0");
        reveal_strlit("1");
        reveal_strlit("2");
        reveal_strlit("3");
        reveal_strlit("4");
        reveal_strlit("5");
        reveal_strlit("6");
        reveal_strlit("7");
        reveal_strlit("8");
        reveal_strlit("9");
        assert(s@ =~= seq![digit_char(d as int)]);
    }
    s
}

/// An entity id: the kind prefix followed by the last five decimal digits
/// of the creation time in milliseconds, zero padded.
pub fn format_entity_id(prefix: &str, millis: u64) -> (r: String)
    ensures
        r@ == prefix@ + five_digits((millis % 100000) as int),
{
    let n: u64 = millis % 100000;
    let mut s: String = String::from_str(prefix);
    s.append(digit_str(n / 10000 % 10));
    s.append(digit_str(n / 1000 % 10));
    s.append(digit_str(n / 100 % 10));
    s.append(digit_str(n / 10 % 10));
    s.append(digit_str(n % 10));
    proof {
        assert(s@ =~= prefix@ + five_digits((millis % 100000) as int));
    }
    s
}

/// Relies on std's `SystemTime::now`: the current system time, about which
/// nothing further can be promised.
#[verifier::external_body]
pub fn system_now() -> std::time::SystemTime {
    std::time::SystemTime::now()
}

/// Relies on std's `SystemTime::duration_since` and `Duration::as_millis`:
/// the number of milliseconds from the unix epoch to `t`, or an error when
/// `t` lies before the epoch.
#[verifier::external_body]
pub fn millis_since_epoch(t: std::time::SystemTime) -> (r: Result<u64, AppError>)
    ensures
        r is Err ==> r->Err_0 is CurrentDateTimeFetchError,
{
    match t.duration_since(std::time::UNIX_EPOCH) {
        Ok(d) => Ok(d.as_millis() as u64),
        Err(e) => Err(AppError::CurrentDateTimeFetchError(e.to_string())),
    }
}

/// Whether two string slices hold the same characters.
pub fn str_eq(a: &str, b: &str) -> (r: bool)
    ensures
        r == (a@ == b@),
{
    let sa: String = String::from_str(a);
    let sb: String = String::from_str(b);
    sa == sb
}

/// Whether a list of identifier strings holds one with the given characters.
pub fn vec_contains_string(v: &Vec<String>, x: &String) -> (r: bool)
    ensures
        r == v.deep_view().contains(x@),
{
    let n: usize = v.len();
    let mut i: usize = 0;
    while i < n
        invariant
            i <= n,
            n == v.len(),
            forall|j: int| 0 <= j < i ==> v.deep_view()[j] != x@,
        decreases n - i,
    {
        if v[i] == *x {
            proof {
                assert(v.deep_view()[i as int] == x@);
            }
            return true;
        }
        proof {
            assert(v.deep_view()[i as int] == v@[i as int]@);
        }
        i = i + 1;
    }
    proof {
        assert(v.deep_view().len() == v@.len());
        assert(forall|j: int| 0 <= j < v.deep_view().len() ==> v.deep_view()[j] != x@);
    }
    false
}

/// Index of the first occurrence of `x` in `v`, if any.
pub fn position_of_string(v: &Vec<String>, x: &String) -> (r: Option<usize>)
    ensures
        match r {
            Some(j) => {
                &&& j < v.len()
                &&& v.deep_view()[j as int] == x@
                &&& forall|k: int| 0 <= k < j ==> v.deep_view()[k] != x@
                &&& v.deep_view().index_of_first(x@) == Some(j as int)
            },
            None => {
                &&& !v.deep_view().contains(x@)
                &&& v.deep_view().index_of_first(x@) is None
            },
        },
{
    let n: usize = v.len();
    let mut i: usize = 0;
    while i < n
        invariant
            i <= n,
            n == v.len(),
            forall|j: int| 0 <= j < i ==> v.deep_view()[j] != x@,
        decreases n - i,
    {
        if v[i] == *x {
            proof {
                let dv = v.deep_view();
                assert(dv[i as int] == x@);
                assert(dv.contains(x@));
                dv.index_of_first_ensures(x@);
                match dv.index_of_first(x@) {
                    Some(i2) => {
                        if i2 < i as int {
                            assert(dv[i2] != x@);
                        } else if (i as int) < i2 {
                            assert(dv[i as int] != x@);
                        }
                    },
                    None => {},
                }
            }
            return Some(i);
        }
        proof {
            assert(v.deep_view()[i as int] == v@[i as int]@);
        }
        i = i + 1;
    }
    proof {
        let dv = v.deep_view();
        assert(dv.len() == v@.len());
        assert(!dv.contains(x@));
        dv.index_of_first_ensures(x@);
        match dv.index_of_first(x@) {
            Some(i2) => {
                assert(dv.contains(x@));
            },
            None => {},
        }
    }
    None
}

/// Copy a list of identifier strings.
pub fn clone_string_vec(v: &Vec<String>) -> (r: Vec<String>)
    ensures
        r.deep_view() == v.deep_view(),
        r@.len() == v@.len(),
{
    let r = v.clone();
    proof {
        assert forall|k: int| 0 <= k < r@.len() implies r@[k]@ == v@[k]@ by {}
        assert(r.deep_view() =~= v.deep_view());
    }
    r
}

/// Append one identifier to a list.
pub fn push_string(v: &mut Vec<String>, x: String)
    ensures
        final(v).deep_view() == old(v).deep_view().push(x@),
{
    let ghost dv0 = v.deep_view();
    v.push(x);
    proof {
        assert(v.deep_view() =~= dv0.push(v@[v@.len() - 1]@));
    }
}

/// Append copies of all identifiers in `other` to `v`.
pub fn append_strings(v: &mut Vec<String>, other: &Vec<String>)
    ensures
        final(v).deep_view() == old(v).deep_view() + other.deep_view(),
{
    let ghost dv0 = v.deep_view();
    let n: usize = other.len();
    let mut j: usize = 0;
    while j < n
        invariant
            j <= n,
            n == other.len(),
            v.deep_view() == dv0 + other.deep_view().take(j as int),
        decreases n - j,
    {
        let ghost dv = v.deep_view();
        v.push(other[j].clone());
        proof {
            assert(other@[j as int]@ == other.deep_view()[j as int]);
            assert(v.deep_view() =~= dv.push(other.deep_view()[j as int]));
            assert(other.deep_view().take(j as int + 1) =~= other.deep_view().take(
                j as int,
            ).push(other.deep_view()[j as int]));
            assert(dv0 + other.deep_view().take(j as int + 1) =~= (dv0 + other.deep_view().take(
                j as int,
            )).push(other.deep_view()[j as int]));
        }
        j = j + 1;
    }
    proof {
        assert(other.deep_view().take(n as int) =~= other.deep_view());
        assert(v.deep_view() =~= dv0 + other.deep_view());
    }
}

/// Remove the first occurrence of `x` from `v`; no-op if `x` is absent.
pub fn remove_first_occurrence(v: &mut Vec<String>, x: &String)
    ensures
        final(v).deep_view() == old(v).deep_view().remove_value(x@),
{
    match position_of_string(v, x) {
        Some(p) => {
            let ghost dv0 = v.deep_view();
            v.remove(p);
            proof {
                assert(v.deep_view() =~= dv0.remove(p as int));
                assert(dv0.remove_value(x@) == dv0.remove(p as int));
            }
        },
        None => {
            proof {
                assert(v.deep_view().remove_value(x@) == v.deep_view());
            }
        },
    }
}

/// The swimlane a keyword names, if it names one.
pub open spec fn swimlane_of_keyword(s: Seq<char>) -> Option<TaskStatus> {
    if s == "to-do"@ {
        Some(TaskStatus::ToDo)
    } else if s == "in-progress"@ {
        Some(TaskStatus::InProgress)
    } else if s == "blocked"@ {
        Some(TaskStatus::Blocked)
    } else if s == "in-review"@ {
        Some(TaskStatus::InReview)
    } else if s == "done"@ {
        Some(TaskStatus::Done)
    } else {
        None
    }
}

impl TaskStatus {
    /// Parse one of the five swimlane keywords.
    pub fn from_keyword(keyword: &str) -> (r: Option<TaskStatus>)
        ensures
            r == swimlane_of_keyword(keyword@),
    {
        if str_eq(keyword, "to-do") {
            Some(TaskStatus::ToDo)
        } else if str_eq(keyword, "in-progress") {
            Some(TaskStatus::InProgress)
        } else if str_eq(keyword, "blocked") {
            Some(TaskStatus::Blocked)
        } else if str_eq(keyword, "in-review") {
            Some(TaskStatus::InReview)
        } else if str_eq(keyword, "done") {
            Some(TaskStatus::Done)
        } else {
            None
        }
    }
}

/// The five swimlanes in display order.
pub open spec fn all_lanes() -> Seq<TaskStatus> {
    seq![
        TaskStatus::ToDo,
        TaskStatus::InProgress,
        TaskStatus::Blocked,
        TaskStatus::InReview,
        TaskStatus::Done,
    ]
}

/// The swimlanes a task or subtask can still move out of: every lane but
/// done, in display order.
pub open spec fn non_done_lanes() -> Seq<TaskStatus> {
    seq![TaskStatus::ToDo, TaskStatus::InProgress, TaskStatus::Blocked, TaskStatus::InReview]
}

/// The swimlanes a show keyword selects: all five for `all`, otherwise the
/// single named lane.
pub open spec fn show_lanes_of_keyword(s: Seq<char>) -> Option<Seq<TaskStatus>> {
    if s == "all"@ {
        Some(all_lanes())
    } else {
        match swimlane_of_keyword(s) {
            Some(t) => Some(seq![t]),
            None => None,
        }
    }
}

/// Parse a show keyword into the list of swimlanes it selects.
pub fn swimlanes_to_show(keyword: &str) -> (r: Option<Vec<TaskStatus>>)
    ensures
        match r {
            Some(v) => show_lanes_of_keyword(keyword@) == Some(v@),
            None => show_lanes_of_keyword(keyword@) is None,
        },
{
    if str_eq(keyword, "all") {
        let mut v: Vec<TaskStatus> = Vec::new();
        v.push(TaskStatus::ToDo);
        v.push(TaskStatus::InProgress);
        v.push(TaskStatus::Blocked);
        v.push(TaskStatus::InReview);
        v.push(TaskStatus::Done);
        proof {
            assert(v@ =~= all_lanes());
        }
        Some(v)
    } else {
        match TaskStatus::from_keyword(keyword) {
            Some(t) => {
                let mut v: Vec<TaskStatus> = Vec::new();
                v.push(t);
                proof {
                    assert(v@ =~= seq![t]);
                }
                Some(v)
            },
            None => None,
        }
    }
}

/// The four non-done swimlanes as a list.
pub fn non_done_lanes_vec() -> (r: Vec<TaskStatus>)
    ensures
        r@ == non_done_lanes(),
{
    let mut v: Vec<TaskStatus> = Vec::new();
    v.push(TaskStatus::ToDo);
    v.push(TaskStatus::InProgress);
    v.push(TaskStatus::Blocked);
    v.push(TaskStatus::InReview);
    proof {
        assert(v@ =~= non_done_lanes());
    }
    v
}

/// The priority tier a filter keyword names, if it names one.
pub open spec fn priority_of_keyword(s: Seq<char>) -> Option<TaskPriority> {
    if s == "high"@ {
        Some(TaskPriority::High)
    } else if s == "medium"@ {
        Some(TaskPriority::Medium)
    } else if s == "low"@ {
        Some(TaskPriority::Low)
    } else {
        None
    }
}

impl TaskPriority {
    /// Parse one of the three priority filter keywords.
    pub fn from_keyword(keyword: &str) -> (r: Option<TaskPriority>)
        ensures
            r == priority_of_keyword(keyword@),
    {
        if str_eq(keyword, "high") {
            Some(TaskPriority::High)
        } else if str_eq(keyword, "medium") {
            Some(TaskPriority::Medium)
        } else if str_eq(keyword, "low") {
            Some(TaskPriority::Low)
        } else {
            None
        }
    }
}

/// The deadline bucket a filter keyword names, if it names one.
pub open spec fn deadline_filter_of_keyword(s: Seq<char>) -> Option<DeadlineFilter> {
    if s == "past-deadline"@ {
        Some(DeadlineFilter::PastDeadline)
    } else if s == "today"@ {
        Some(DeadlineFilter::Today)
    } else if s == "tomorrow"@ {
        Some(DeadlineFilter::Tomorrow)
    } else if s == "after-tomorrow"@ {
        Some(DeadlineFilter::AfterTomorrow)
    } else if s == "no-deadline"@ {
        Some(DeadlineFilter::NoDeadline)
    } else {
        None
    }
}

impl DeadlineFilter {
    /// Parse one of the five deadline filter keywords.
    pub fn from_keyword(keyword: &str) -> (r: Option<DeadlineFilter>)
        ensures
            r == deadline_filter_of_keyword(keyword@),
    {
        if str_eq(keyword, "past-deadline") {
            Some(DeadlineFilter::PastDeadline)
        } else if str_eq(keyword, "today") {
            Some(DeadlineFilter::Today)
        } else if str_eq(keyword, "tomorrow") {
            Some(DeadlineFilter::Tomorrow)
        } else if str_eq(keyword, "after-tomorrow") {
            Some(DeadlineFilter::AfterTomorrow)
        } else if str_eq(keyword, "no-deadline") {
            Some(DeadlineFilter::NoDeadline)
        } else {
            None
        }
    }
}

} // verus!
