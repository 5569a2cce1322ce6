use vstd::prelude::*;
use itertools::Itertools;
use crate::error::ShipError;
use crate::record::{all_resolved, all_well_formed, views, Record, RecordView};
use crate::timestamp::{diff_naive_datetime, minutes_between, whole_minutes, Timestamp};
use crate::transfer::Transfer;

verus! {

/// Minutes from the record at `i` to the next one.
pub open spec fn step_minutes(s: Seq<RecordView>, i: int) -> int {
    minutes_between(s[i].datetime, s[i + 1].datetime)
}

/// Minutes from the first record to the last.
pub open spec fn total_minutes(s: Seq<RecordView>) -> int {
    minutes_between(s[0].datetime, s.last().datetime)
}

/// The sum of the first `n` steps.
pub open spec fn sum_steps(s: Seq<RecordView>, n: int) -> int
    decreases n,
{
    if n <= 0 {
        0
    } else {
        sum_steps(s, n - 1) + step_minutes(s, n - 1)
    }
}

/// The step at `i` is the longest, and no earlier step is as long.
pub open spec fn is_longest_step(s: Seq<RecordView>, i: int) -> bool {
    &&& 0 <= i < s.len() - 1
    &&& forall|j: int| 0 <= j < s.len() - 1 ==> step_minutes(s, j) <= step_minutes(s, i)
    &&& forall|j: int| 0 <= j < i ==> step_minutes(s, j) < step_minutes(s, i)
}

pub open spec fn strs(v: Seq<String>) -> Seq<Seq<char>> {
    v.map_values(|s: String| s@)
}

/// The distinct values of `s`, each where it first occurs.
pub open spec fn distinct_in_order(s: Seq<Seq<char>>) -> Seq<Seq<char>>
    decreases s.len(),
{
    if s.len() == 0 {
        seq![]
    } else {
        let p = distinct_in_order(s.drop_last());
        if p.contains(s.last()) {
            p
        } else {
            p.push(s.last())
        }
    }
}

/// The locale of each record, in order.
pub open spec fn locales_of(s: Seq<RecordView>) -> Seq<Seq<char>> {
    Seq::new(s.len(), |i: int| s[i].locale->0)
}

/// The distinct locales of the records, in order of first appearance.
pub open spec fn layover_locales(s: Seq<RecordView>) -> Seq<Seq<char>> {
    distinct_in_order(locales_of(s))
}

/// `t` spans the first and the last record that carry `locale`.
pub open spec fn is_layover(s: Seq<RecordView>, locale: Seq<char>, t: Transfer) -> bool {
    exists|i: int, j: int|
        {
            &&& 0 <= i <= j < s.len()
            &&& (#[trigger] s[i]).locale == Some(locale)
            &&& (#[trigger] s[j]).locale == Some(locale)
            &&& forall|k: int| 0 <= k < i ==> (#[trigger] s[k]).locale != Some(locale)
            &&& forall|k: int| j < k < s.len() ==> (#[trigger] s[k]).locale != Some(locale)
            &&& t.from@ == s[i]
            &&& t.to@ == s[j]
            &&& t.minutes == minutes_between(s[i].datetime, s[j].datetime)
        }
}

/// Relies on itertools' `unique`: keeps the first of each run of equal
/// strings, in their order.
#[verifier::external_body]
fn unique_strings(v: Vec<String>) -> (r: Vec<String>)
    ensures
        strs(r@) == distinct_in_order(strs(v@)),
{
    v.into_iter().unique().collect()
}

/// The distinct values hold exactly the values of `s`, each once; so the
/// layovers name each locale of the records exactly once.
pub proof fn lemma_distinct_in_order(s: Seq<Seq<char>>)
    ensures
        forall|x: Seq<char>| distinct_in_order(s).contains(x) <==> s.contains(x),
        distinct_in_order(s).no_duplicates(),
    decreases s.len(),
{
    if s.len() > 0 {
        let q = s.drop_last();
        lemma_distinct_in_order(q);
        let p = distinct_in_order(q);
        assert(s =~= q.push(s.last()));
        assert forall|x: Seq<char>| s.contains(x) <==> (q.contains(x) || x == s.last()) by {
            if s.contains(x) && !q.contains(x) {
                let k = choose|k: int| 0 <= k < s.len() && s[k] == x;
                if k < q.len() {
                    assert(q[k] == x);
                }
            }
            if q.contains(x) {
                let k = choose|k: int| 0 <= k < q.len() && q[k] == x;
                assert(s[k] == x);
            }
            if x == s.last() {
                assert(s[s.len() - 1] == x);
            }
        }
        if !p.contains(s.last()) {
            let np = p.push(s.last());
            assert forall|x: Seq<char>| np.contains(x) <==> (p.contains(x) || x == s.last()) by {
                if np.contains(x) && !p.contains(x) {
                    let k = choose|k: int| 0 <= k < np.len() && np[k] == x;
                    if k < p.len() {
                        assert(p[k] == x);
                    }
                }
                if p.contains(x) {
                    let k = choose|k: int| 0 <= k < p.len() && p[k] == x;
                    assert(np[k] == x);
                }
                if x == s.last() {
                    assert(np[np.len() - 1] == x);
                }
            }
            assert forall|a: int, b: int| 0 <= a < b < np.len() implies np[a] != np[b] by {
                if b == np.len() - 1 {
                    assert(p.contains(np[a]));
                }
            }
        }
    }
}

/// An interval for each pair of neighbouring records.
pub fn calc_transfers(records: &[Record]) -> (r: Result<Vec<Transfer>, ShipError>)
    requires
        all_well_formed(views(records@)),
    ensures
        r matches Ok(v) && {
            let s = views(records@);
            &&& v@.len() == if s.len() == 0 {
                0
            } else {
                s.len() - 1
            }
            &&& forall|i: int|
                0 <= i < v@.len() ==> {
                    &&& (#[trigger] v@[i]).from@ == s[i]
                    &&& v@[i].to@ == s[i + 1]
                    &&& v@[i].minutes == step_minutes(s, i)
                }
        },
{
    let ghost s = views(records@);
    let mut transfers: Vec<Transfer> = Vec::new();
    let n = records.len();
    if n == 0 {
        return Ok(transfers);
    }
    let mut i: usize = 0;
    while i + 1 < n
        invariant
            n == records@.len(),
            s == views(records@),
            all_well_formed(s),
            n > 0,
            i < n,
            transfers@.len() == i,
            forall|k: int|
                0 <= k < i ==> {
                    &&& (#[trigger] transfers@[k]).from@ == s[k]
                    &&& transfers@[k].to@ == s[k + 1]
                    &&& transfers@[k].minutes == step_minutes(s, k)
                },
        decreases n - i,
    {
        proof {
            assert(s[i as int] == records@[i as int]@);
            assert(s[i + 1] == records@[i + 1]@);
        }
        let mins = diff_naive_datetime(&records[i].datetime, &records[i + 1].datetime);
        let from = records[i].clone();
        let to = records[i + 1].clone();
        let transfer = Transfer { from, to, minutes: mins };
        transfers.push(transfer);
        i = i + 1;
    }
    Ok(transfers)
}

/// The first of the longest intervals.
pub fn longest_transfer(transfers: Vec<Transfer>) -> (r: Transfer)
    requires
        transfers@.len() > 0,
    ensures
        exists|i: int|
            {
                &&& 0 <= i < transfers@.len()
                &&& r == #[trigger] transfers@[i]
                &&& forall|j: int| 0 <= j < transfers@.len() ==> transfers@[j].minutes <= r.minutes
                &&& forall|j: int| 0 <= j < i ==> transfers@[j].minutes < r.minutes
            },
{
    let n = transfers.len();
    let mut best: usize = 0;
    let mut i: usize = 1;
    while i < n
        invariant
            n == transfers@.len(),
            1 <= i <= n,
            best < i,
            forall|j: int| 0 <= j < i ==> transfers@[j].minutes <= transfers@[best as int].minutes,
            forall|j: int| 0 <= j < best ==> transfers@[j].minutes < transfers@[best as int].minutes,
        decreases n - i,
    {
        if transfers[i].minutes > transfers[best].minutes {
            best = i;
        }
        i = i + 1;
    }
    let ghost all = transfers@;
    let mut transfers = transfers;
    let r = transfers.remove(best);
    assert(r == all[best as int]);
    r
}

/// Minutes from the first record to the last.
pub fn calc_total_shipment_time(records: &[Record]) -> (r: Result<i64, ShipError>)
    requires
        all_well_formed(views(records@)),
    ensures
        r is Err <==> records@.len() == 0,
        r matches Err(e) ==> e == ShipError::EmptyInput,
        r matches Ok(m) ==> m == total_minutes(views(records@)),
{
    let n = records.len();
    if n == 0 {
        return Err(ShipError::EmptyInput);
    }
    proof {
        let s = views(records@);
        assert(s[0] == records@[0]@);
        assert(s.last() == records@[n - 1]@);
    }
    Ok(diff_naive_datetime(&records[0].datetime, &records[n - 1].datetime))
}

/// The interval between the first pair of neighbouring records that lie
/// furthest apart.
pub fn calc_longest_delay(records: &[Record]) -> (r: Result<Transfer, ShipError>)
    requires
        all_well_formed(views(records@)),
    ensures
        r is Err <==> records@.len() < 2,
        r matches Err(e) ==> e == ShipError::EmptyInput,
        r matches Ok(t) ==> exists|i: int|
            {
                &&& #[trigger] is_longest_step(views(records@), i)
                &&& t.from@ == views(records@)[i]
                &&& t.to@ == views(records@)[i + 1]
                &&& t.minutes == step_minutes(views(records@), i)
            },
{
    if records.len() < 2 {
        return Err(ShipError::EmptyInput);
    }
    let transfers = match calc_transfers(records) {
        Ok(v) => v,
        Err(e) => {
            return Err(e);
        },
    };
    let ghost all = transfers@;
    let t = longest_transfer(transfers);
    proof {
        let s = views(records@);
        let i = choose|i: int|
            {
                &&& 0 <= i < all.len()
                &&& t == #[trigger] all[i]
                &&& forall|j: int| 0 <= j < all.len() ==> all[j].minutes <= t.minutes
                &&& forall|j: int| 0 <= j < i ==> all[j].minutes < t.minutes
            };
        assert forall|j: int| 0 <= j < s.len() - 1 implies step_minutes(s, j) <= step_minutes(s, i) by {
            assert(all[j].minutes == step_minutes(s, j));
        }
        assert forall|j: int| 0 <= j < i implies step_minutes(s, j) < step_minutes(s, i) by {
            assert(all[j].minutes == step_minutes(s, j));
        }
        assert(is_longest_step(s, i));
    }
    Ok(t)
}

/// The locales of the records, each once, in order of first appearance.
pub fn generate_locales_list(records: &[Record]) -> (r: Vec<String>)
    requires
        all_resolved(views(records@)),
    ensures
        strs(r@) == layover_locales(views(records@)),
{
    let ghost s = views(records@);
    let mut locales: Vec<String> = Vec::new();
    let n = records.len();
    let mut i: usize = 0;
    while i < n
        invariant
            n == records@.len(),
            s == views(records@),
            all_resolved(s),
            i <= n,
            strs(locales@) =~= locales_of(s).take(i as int),
        decreases n - i,
    {
        proof {
            assert(s[i as int] == records@[i as int]@);
        }
        let l = match &records[i].locale {
            Some(l) => l.clone(),
            None => String::new(),
        };
        let ghost prev = locales@;
        locales.push(l);
        proof {
            assert(strs(locales@) =~= strs(prev).push(l@));
        }
        i = i + 1;
    }
    proof {
        assert(locales_of(s).take(n as int) =~= locales_of(s));
    }
    unique_strings(locales)
}

fn has_locale(rec: &Record, wanted: &String) -> (r: bool)
    ensures
        r == (rec@.locale == Some(wanted@)),
{
    match &rec.locale {
        Some(l) => l.eq(wanted),
        None => false,
    }
}

/// The interval from the first to the last record that carries the locale.
pub fn filter_layover_time(records: &[Record], search_locale: &str) -> (r: Result<
    Transfer,
    ShipError,
>)
    requires
        all_well_formed(views(records@)),
    ensures
        r is Err <==> !exists|i: int|
            0 <= i < records@.len() && (#[trigger] views(records@)[i]).locale == Some(
                search_locale@,
            ),
        r matches Err(e) ==> e == ShipError::LocaleNotFound,
        r matches Ok(t) ==> is_layover(views(records@), search_locale@, t),
{
    let ghost s = views(records@);
    let ghost target = Some(search_locale@);
    let wanted = String::from_str(search_locale);
    let n = records.len();
    let mut i: usize = 0;
    while i < n && !has_locale(&records[i], &wanted)
        invariant
            n == records@.len(),
            s == views(records@),
            wanted@ == search_locale@,
            target == Some(wanted@),
            i <= n,
            forall|k: int| 0 <= k < i ==> (#[trigger] s[k]).locale != target,
        decreases n - i,
    {
        proof {
            assert(s[i as int] == records@[i as int]@);
        }
        i = i + 1;
    }
    if i == n {
        return Err(ShipError::LocaleNotFound);
    }
    proof {
        assert(s[i as int] == records@[i as int]@);
    }
    let mut j: usize = n - 1;
    while j > i && !has_locale(&records[j], &wanted)
        invariant
            n == records@.len(),
            s == views(records@),
            wanted@ == search_locale@,
            target == Some(wanted@),
            i <= j < n,
            s[i as int].locale == target,
            forall|k: int| j < k < n ==> (#[trigger] s[k]).locale != target,
        decreases j,
    {
        proof {
            assert(s[j as int] == records@[j as int]@);
        }
        j = j - 1;
    }
    proof {
        assert(s[j as int] == records@[j as int]@);
        assert(s[i as int].datetime.wf() && s[j as int].datetime.wf());
    }
    let from = records[i].clone();
    let to = records[j].clone();
    let mins = diff_naive_datetime(&records[i].datetime, &records[j].datetime);
    let t = Transfer { from, to, minutes: mins };
    proof {
        assert(s[j as int].locale == target);
        assert(is_layover(s, search_locale@, t));
    }
    Ok(t)
}

/// For each distinct locale, in order of first appearance, the interval from
/// its first to its last record.
pub fn calc_layover_times(records: &[Record]) -> (r: Result<Vec<Transfer>, ShipError>)
    requires
        all_well_formed(views(records@)),
        all_resolved(views(records@)),
    ensures
        r is Err <==> records@.len() == 0,
        r matches Err(e) ==> e == ShipError::EmptyInput,
        r matches Ok(v) ==> {
            let locs = layover_locales(views(records@));
            &&& v@.len() == locs.len()
            &&& forall|k: int|
                0 <= k < v@.len() ==> is_layover(views(records@), locs[k], #[trigger] v@[k])
        },
{
    let ghost s = views(records@);
    if records.len() == 0 {
        return Err(ShipError::EmptyInput);
    }
    let search_locales = generate_locales_list(records);
    let ghost locs = layover_locales(s);
    proof {
        lemma_distinct_in_order(locales_of(s));
    }
    let mut layovers: Vec<Transfer> = Vec::new();
    let m = search_locales.len();
    let mut k: usize = 0;
    while k < m
        invariant
            m == search_locales@.len(),
            s == views(records@),
            all_well_formed(s),
            all_resolved(s),
            strs(search_locales@) == locs,
            locs == layover_locales(s),
            forall|x: Seq<char>| locs.contains(x) <==> locales_of(s).contains(x),
            k <= m,
            layovers@.len() == k,
            forall|q: int| 0 <= q < k ==> is_layover(s, locs[q], #[trigger] layovers@[q]),
        decreases m - k,
    {
        let ghost loc = search_locales@[k as int]@;
        proof {
            assert(locs[k as int] == loc);
            assert(locs.contains(loc));
            let w = choose|w: int| 0 <= w < locales_of(s).len() && locales_of(s)[w] == loc;
            assert(s[w].locale == Some(loc));
        }
        let transfer = match filter_layover_time(records, search_locales[k].as_str()) {
            Ok(t) => t,
            Err(e) => {
                return Err(e);
            },
        };
        layovers.push(transfer);
        k = k + 1;
    }
    Ok(layovers)
}

proof fn lemma_exact_minutes(a: Timestamp, b: Timestamp)
    requires
        a.second == b.second,
    ensures
        minutes_between(a, b) == minute_count(b) - minute_count(a),
{
    let k = minute_count(b) - minute_count(a);
    lemma_minute_count(a);
    lemma_minute_count(b);
    assert(b.seconds() - a.seconds() == 60 * k);
    lemma_whole_minutes_of_multiple(k);
}

proof fn lemma_whole_minutes_of_multiple(k: int)
    ensures
        whole_minutes(60 * k) == k,
{
    if k >= 0 {
        assert((60 * k) / 60 == k) by (nonlinear_arith);
    } else {
        assert((-(60 * k)) / 60 == -k) by (nonlinear_arith)
            requires
                k < 0,
        ;
    }
}

/// Whole minutes elapsed since 0000-01-01 00:00, ignoring the second.
pub open spec fn minute_count(t: Timestamp) -> int {
    (t.seconds() - t.second) / 60
}

proof fn lemma_minute_count(t: Timestamp)
    ensures
        t.seconds() == 60 * minute_count(t) + t.second,
{
    let days = crate::timestamp::days_before_year(t.year as int)
        + crate::timestamp::days_before_month(t.year as int, t.month as int) + t.day - 1;
    let m = days * 1440 + t.hour * 60 + t.minute;
    assert(t.seconds() - t.second == 60 * m);
    assert((60 * m) / 60 == m) by (nonlinear_arith);
}

/// Where all timestamps fall on the same second of a minute, the total time
/// from the first record to the last is the sum of the times between
/// neighbouring records.
pub proof fn lemma_total_is_sum_of_steps(s: Seq<RecordView>)
    requires
        s.len() >= 1,
        forall|i: int| 0 <= i < s.len() ==> (#[trigger] s[i]).datetime.second == s[0].datetime.second,
    ensures
        total_minutes(s) == sum_steps(s, s.len() - 1),
{
    lemma_sum_steps(s, s.len() - 1);
    lemma_minute_count(s[0].datetime);
    lemma_minute_count(s.last().datetime);
    lemma_exact_minutes(s[0].datetime, s.last().datetime);
}

proof fn lemma_sum_steps(s: Seq<RecordView>, n: int)
    requires
        0 <= n < s.len(),
        forall|i: int| 0 <= i < s.len() ==> (#[trigger] s[i]).datetime.second == s[0].datetime.second,
    ensures
        sum_steps(s, n) == minute_count(s[n].datetime) - minute_count(s[0].datetime),
    decreases n,
{
    if n > 0 {
        lemma_sum_steps(s, n - 1);
        lemma_exact_minutes(s[n - 1].datetime, s[n].datetime);
    }
}

} // verus!
