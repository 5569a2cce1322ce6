use vstd::prelude::*;
use crate::error::ShipError;
use crate::record::{all_well_formed, views, Record, RecordView};
use crate::timestamp::{is_date_at, is_stamp, is_time_at, parse_naive_datetime, stamp_value, Timestamp};

verus! {

/// The three tokens that a tracking line carries.
#[derive(Clone, Copy, Debug, PartialEq, Eq, Structural)]
pub enum Token {
    /// `YYYY-MM-DD`
    Date,
    /// `HH:MM:SS`
    Time,
    /// A letter, which starts the status text running to the end of the line.
    Status,
}

pub open spec fn is_letter(c: char) -> bool {
    ('a' <= c <= 'z') || ('A' <= c <= 'Z')
}

impl Token {
    pub open spec fn starts_at(self, s: Seq<char>, i: int) -> bool {
        match self {
            Token::Date => is_date_at(s, i),
            Token::Time => is_time_at(s, i),
            Token::Status => 0 <= i < s.len() && is_letter(s[i]),
        }
    }
}

/// The leftmost position at or after `i` where the token starts.
pub open spec fn first_token(s: Seq<char>, kind: Token, i: int) -> Option<int>
    decreases s.len() - i,
{
    if i < 0 || i >= s.len() {
        None
    } else if kind.starts_at(s, i) {
        Some(i)
    } else {
        first_token(s, kind, i + 1)
    }
}

/// The record that a line describes: its leftmost date and leftmost time
/// read together, and the text from its first letter to its end.
pub open spec fn line_record(l: Seq<char>) -> Option<RecordView> {
    match (
        first_token(l, Token::Date, 0),
        first_token(l, Token::Time, 0),
        first_token(l, Token::Status, 0),
    ) {
        (Some(d), Some(t), Some(a)) => match stamp_value(
            l.subrange(d, d + 10) + seq![' '] + l.subrange(t, t + 8),
        ) {
            Some(ts) => Some(
                RecordView { datetime: ts, status: l.subrange(a, l.len() as int), locale: None },
            ),
            None => None,
        },
        _ => None,
    }
}

proof fn lemma_first_token(s: Seq<char>, kind: Token, i: int)
    ensures
        first_token(s, kind, i) matches Some(j) ==> i <= j < s.len() && kind.starts_at(s, j),
    decreases s.len() - i,
{
    if 0 <= i < s.len() && !kind.starts_at(s, i) {
        lemma_first_token(s, kind, i + 1);
    }
}

pub open spec fn opt_int(o: Option<usize>) -> Option<int> {
    match o {
        Some(i) => Some(i as int),
        None => None,
    }
}

fn is_digit_at(s: &str, i: usize) -> (r: bool)
    requires
        i < s@.len(),
    ensures
        r == crate::timestamp::is_digit(s@[i as int]),
{
    let c = s.get_char(i);
    '0' <= c && c <= '9'
}

fn char_is(s: &str, i: usize, c: char) -> (r: bool)
    requires
        i < s@.len(),
    ensures
        r == (s@[i as int] == c),
{
    s.get_char(i) == c
}

fn token_starts_at(s: &str, n: usize, i: usize, kind: Token) -> (r: bool)
    requires
        n == s@.len(),
        i < n,
    ensures
        r == kind.starts_at(s@, i as int),
{
    match kind {
        Token::Date => {
            if n - i < 10 {
                return false;
            }
            let r = is_digit_at(s, i) && is_digit_at(s, i + 1) && is_digit_at(s, i + 2)
                && is_digit_at(s, i + 3) && char_is(s, i + 4, '-') && is_digit_at(s, i + 5)
                && is_digit_at(s, i + 6) && char_is(s, i + 7, '-') && is_digit_at(s, i + 8)
                && is_digit_at(s, i + 9);
            r
        },
        Token::Time => {
            if n - i < 8 {
                return false;
            }
            let r = is_digit_at(s, i) && is_digit_at(s, i + 1) && char_is(s, i + 2, ':')
                && is_digit_at(s, i + 3) && is_digit_at(s, i + 4) && char_is(s, i + 5, ':')
                && is_digit_at(s, i + 6) && is_digit_at(s, i + 7);
            r
        },
        Token::Status => {
            let c = s.get_char(i);
            ('a' <= c && c <= 'z') || ('A' <= c && c <= 'Z')
        },
    }
}

/// Where the token first starts in `s`.
pub fn find_token(s: &str, kind: Token) -> (r: Option<usize>)
    ensures
        opt_int(r) == first_token(s@, kind, 0),
{
    let n = s.unicode_len();
    let mut i: usize = 0;
    while i < n
        invariant
            n == s@.len(),
            i <= n,
            first_token(s@, kind, 0) == first_token(s@, kind, i as int),
        decreases n - i,
    {
        if token_starts_at(s, n, i, kind) {
            return Some(i);
        }
        i = i + 1;
    }
    None
}

/// Reads one tracking line into a record with no locale.
pub fn parse_line(line: &str) -> (r: Option<Record>)
    ensures
        match r {
            Some(rec) => line_record(line@) == Some(rec@),
            None => line_record(line@) is None,
        },
        r matches Some(rec) ==> rec.datetime.wf(),
{
    let d = find_token(line, Token::Date);
    let t = find_token(line, Token::Time);
    let a = find_token(line, Token::Status);
    match (d, t, a) {
        (Some(d), Some(t), Some(a)) => {
            let n = line.unicode_len();
            proof {
                lemma_first_token(line@, Token::Date, 0);
                lemma_first_token(line@, Token::Time, 0);
                lemma_first_token(line@, Token::Status, 0);
                assert(is_date_at(line@, d as int));
                assert(is_time_at(line@, t as int));
            }
            let date = line.substring_char(d, d + 10);
            let time = line.substring_char(t, t + 8);
            let stamp = String::from_str(date).concat(" ").concat(time);
            proof {
                reveal_strlit(" ");
                let s = stamp@;
                assert(s =~= line@.subrange(d as int, d + 10) + seq![' '] + line@.subrange(
                    t as int,
                    t + 8,
                ));
                assert(is_stamp(s));
            }
            match parse_naive_datetime(stamp.as_str()) {
                Some(ts) => {
                    let status = String::from_str(line.substring_char(a, n));
                    Some(Record { datetime: ts, status, locale: None })
                },
                None => None,
            }
        },
        _ => None,
    }
}

/// `s` is in calendar order of its timestamps.
pub open spec fn is_chronological(s: Seq<RecordView>) -> bool {
    forall|i: int, j: int|
        0 <= i < j < s.len() ==> (#[trigger] s[i]).datetime.not_after((#[trigger] s[j]).datetime)
}

/// The records of `s` stamped `t`, in their order in `s`.
pub open spec fn stamped(s: Seq<RecordView>, t: Timestamp) -> Seq<RecordView>
    decreases s.len(),
{
    if s.len() == 0 {
        seq![]
    } else if s.last().datetime == t {
        stamped(s.drop_last(), t).push(s.last())
    } else {
        stamped(s.drop_last(), t)
    }
}

/// `out` is `input` sorted by timestamp, records with equal timestamps
/// keeping their order in `input`.
pub open spec fn is_stable_sort_of(out: Seq<RecordView>, input: Seq<RecordView>) -> bool {
    &&& is_chronological(out)
    &&& forall|t: Timestamp| #[trigger] stamped(out, t) == stamped(input, t)
}

/// The records that the lines describe, in the order of the lines.
pub open spec fn line_records(lines: Seq<String>) -> Seq<RecordView> {
    Seq::new(lines.len(), |i: int| line_record(lines[i]@)->0)
}

proof fn lemma_stamped_append(a: Seq<RecordView>, b: Seq<RecordView>, t: Timestamp)
    ensures
        stamped(a + b, t) == stamped(a, t) + stamped(b, t),
    decreases b.len(),
{
    if b.len() == 0 {
        assert(a + b =~= a);
        assert(stamped(b, t) =~= seq![]);
        assert(stamped(a, t) + stamped(b, t) =~= stamped(a, t));
    } else {
        let ab = a + b;
        assert(ab.drop_last() =~= a + b.drop_last());
        assert(ab.last() == b.last());
        lemma_stamped_append(a, b.drop_last(), t);
        if b.last().datetime == t {
            assert(stamped(a, t) + stamped(b, t) =~= (stamped(a, t) + stamped(b.drop_last(), t)).push(
                b.last(),
            ));
        }
    }
}

proof fn lemma_stamped_none(a: Seq<RecordView>, t: Timestamp)
    requires
        forall|k: int| 0 <= k < a.len() ==> (#[trigger] a[k]).datetime != t,
    ensures
        stamped(a, t) == Seq::<RecordView>::empty(),
    decreases a.len(),
{
    if a.len() > 0 {
        lemma_stamped_none(a.drop_last(), t);
    }
}

proof fn lemma_order_facts(a: Timestamp, b: Timestamp, c: Timestamp)
    ensures
        a.not_after(a),
        !a.not_after(b) ==> b.not_after(a) && a != b,
        a.not_after(b) && b.not_after(c) ==> a.not_after(c),
{
}

/// Reads every line into a record, then orders the records by timestamp,
/// keeping the order of the lines among equal timestamps.
pub fn parse_raw_records(data: Vec<String>) -> (r: Result<Vec<Record>, ShipError>)
    ensures
        r is Ok <==> forall|i: int| 0 <= i < data@.len() ==> (#[trigger] line_record(data@[i]@)) is Some,
        r matches Err(e) ==> e matches ShipError::MalformedLine(i) && i < data@.len()
            && line_record(data@[i as int]@) is None
            && forall|j: int| 0 <= j < i ==> (#[trigger] line_record(data@[j]@)) is Some,
        r matches Ok(v) ==> is_stable_sort_of(views(v@), line_records(data@)) && all_well_formed(
            views(v@),
        ),
{
    let mut records: Vec<Record> = Vec::new();
    let n = data.len();
    let ghost input = line_records(data@);
    let mut i: usize = 0;
    while i < n
        invariant
            n == data@.len(),
            i <= n,
            input == line_records(data@),
            forall|j: int| 0 <= j < i ==> (#[trigger] line_record(data@[j]@)) is Some,
            is_chronological(views(records@)),
            all_well_formed(views(records@)),
            forall|t: Timestamp| #[trigger] stamped(views(records@), t) == stamped(input.take(i as int), t),
        decreases n - i,
    {
        let rec = match parse_line(data[i].as_str()) {
            Some(rec) => rec,
            None => {
                return Err(ShipError::MalformedLine(i));
            },
        };
        let ghost old_v = views(records@);
        let mut p = records.len();
        while p > 0 && !records[p - 1].datetime.is_not_after(&rec.datetime)
            invariant
                p <= records@.len(),
                old_v == views(records@),
                forall|k: int| p <= k < records@.len() ==> !(#[trigger] records@[k]).datetime.not_after(rec.datetime),
            decreases p,
        {
            p = p - 1;
        }
        let ghost x = rec@;
        proof {
            assert(x == input[i as int]);
            assert forall|k: int| 0 <= k < p implies (#[trigger] old_v[k]).datetime.not_after(x.datetime) by {
                lemma_order_facts(old_v[k].datetime, old_v[p - 1].datetime, x.datetime);
            }
            assert forall|k: int| p <= k < old_v.len() implies x.datetime.not_after((#[trigger] old_v[k]).datetime)
                && old_v[k].datetime != x.datetime by {
                lemma_order_facts(old_v[k].datetime, x.datetime, x.datetime);
            }
        }
        records.insert(p, rec);
        proof {
            let nv = views(records@);
            assert(nv =~= old_v.insert(p as int, x));
            assert forall|a: int, b: int| 0 <= a < b < nv.len() implies (#[trigger] nv[a]).datetime.not_after(
                (#[trigger] nv[b]).datetime,
            ) by {
                if a < p && b > p {
                    lemma_order_facts(nv[a].datetime, x.datetime, nv[b].datetime);
                }
            }
            let pre = old_v.subrange(0, p as int);
            let post = old_v.subrange(p as int, old_v.len() as int);
            assert(old_v =~= pre + post);
            assert(nv =~= pre + seq![x] + post);
            assert(input.take(i + 1) =~= input.take(i as int) + seq![x]);
            assert forall|t: Timestamp| #[trigger] stamped(nv, t) == stamped(input.take(i + 1), t) by {
                lemma_stamped_append(pre, post, t);
                lemma_stamped_append(pre + seq![x], post, t);
                lemma_stamped_append(pre, seq![x], t);
                lemma_stamped_append(input.take(i as int), seq![x], t);
                assert(seq![x].drop_last() =~= Seq::<RecordView>::empty());
                assert(stamped(Seq::<RecordView>::empty(), t) =~= Seq::<RecordView>::empty());
                if t == x.datetime {
                    assert forall|k: int| 0 <= k < post.len() implies (#[trigger] post[k]).datetime != t by {
                        assert(post[k] == old_v[p + k]);
                    }
                    lemma_stamped_none(post, t);
                }
            }
        }
        i = i + 1;
    }
    proof {
        assert(input.take(n as int) =~= input);
    }
    Ok(records)
}

} // verus!
