use vstd::prelude::*;
use crate::error::ShipError;
use crate::record::{opt_view, views, Record, RecordView};

verus! {

/// The canonical display name that the country catalog gives a token, if
/// the token names a country.
pub uninterp spec fn country_name(token: Seq<char>) -> Option<Seq<char>>;

/// Relies on celes: `Country::from_str` looks the token up among the
/// catalog's country names and codes, and the country's `to_string` is its
/// display name; the outcome depends on the token alone.
#[verifier::external_body]
fn lookup_country(token: &str) -> (r: Option<String>)
    ensures
        opt_view(r) == country_name(token@),
{
    match <celes::Country as std::str::FromStr>::from_str(token) {
        Ok(c) => Some(c.to_string()),
        Err(_) => None,
    }
}

pub open spec fn is_delimiter(c: char) -> bool {
    c == '.' || c == ',' || c == '-' || c == ';' || c == ' '
}

/// Position of the last delimiter in `s`.
pub open spec fn last_delimiter(s: Seq<char>) -> Option<int>
    decreases s.len(),
{
    if s.len() == 0 {
        None
    } else if is_delimiter(s.last()) {
        Some(s.len() - 1)
    } else {
        last_delimiter(s.drop_last())
    }
}

proof fn lemma_last_delimiter(s: Seq<char>)
    ensures
        last_delimiter(s) matches Some(j) ==> 0 <= j < s.len() && is_delimiter(s[j]),
    decreases s.len(),
{
    if s.len() > 0 && !is_delimiter(s.last()) {
        lemma_last_delimiter(s.drop_last());
    }
}

/// `s` cut at its delimiters from the right into at most `n` pieces, the
/// rightmost first; the last piece keeps whatever is left.
pub open spec fn split_from_right(s: Seq<char>, n: nat) -> Seq<Seq<char>>
    decreases n,
{
    if n <= 1 {
        seq![s]
    } else {
        match last_delimiter(s) {
            None => seq![s],
            Some(j) => seq![s.subrange(j + 1, s.len() as int)] + split_from_right(
                s.subrange(0, j),
                (n - 1) as nat,
            ),
        }
    }
}

pub open spec fn first_nonempty(ps: Seq<Seq<char>>) -> Option<Seq<char>>
    decreases ps.len(),
{
    if ps.len() == 0 {
        None
    } else if ps[0].len() > 0 {
        Some(ps[0])
    } else {
        first_nonempty(ps.drop_first())
    }
}

/// The token of a status text that may name a country: the rightmost
/// non-empty piece among its last three pieces.
pub open spec fn locale_token_of(status: Seq<char>) -> Option<Seq<char>> {
    first_nonempty(split_from_right(status, 3))
}

/// The locale that a status text resolves to.
pub open spec fn resolve_locale(status: Seq<char>) -> Option<Seq<char>> {
    match locale_token_of(status) {
        Some(t) => country_name(t),
        None => None,
    }
}

/// The last delimiter among the first `end` characters of `s`.
fn last_delimiter_before(s: &str, end: usize) -> (r: Option<usize>)
    requires
        end <= s@.len(),
    ensures
        crate::extract::opt_int(r) == last_delimiter(s@.subrange(0, end as int)),
        r matches Some(j) ==> j < end,
{
    let mut k = end;
    while k > 0
        invariant
            k <= end <= s@.len(),
            last_delimiter(s@.subrange(0, end as int)) == last_delimiter(s@.subrange(0, k as int)),
        decreases k,
    {
        let c = s.get_char(k - 1);
        proof {
            assert(s@.subrange(0, k as int).drop_last() =~= s@.subrange(0, k - 1));
        }
        if c == '.' || c == ',' || c == '-' || c == ';' || c == ' ' {
            proof {
                lemma_last_delimiter(s@.subrange(0, end as int));
            }
            return Some(k - 1);
        }
        k = k - 1;
    }
    None
}

/// The rightmost non-empty piece among the last three pieces of the status
/// text, cut at `.`, `,`, `-`, `;` and spaces.
pub fn locale_token(status: &str) -> (r: Option<String>)
    ensures
        opt_view(r) == locale_token_of(status@),
{
    let n = status.unicode_len();
    let ghost s = status@;
    proof {
        assert(s.subrange(0, n as int) =~= s);
    }
    let j1 = last_delimiter_before(status, n);
    match j1 {
        None => {
            proof {
                reveal_with_fuel(first_nonempty, 2);
            }
            if n > 0 {
                Some(String::from_str(status))
            } else {
                None
            }
        },
        Some(j1) => {
            let ghost rest = s.subrange(0, j1 as int);
            let ghost p1 = s.subrange(j1 + 1, n as int);
            let j2 = last_delimiter_before(status, j1);
            proof {
                assert(s.subrange(0, j1 as int).subrange(0, j1 as int) =~= rest);
            }
            if j1 + 1 < n {
                proof {
                    assert(p1.len() > 0);
                }
                return Some(String::from_str(status.substring_char(j1 + 1, n)));
            }
            match j2 {
                None => {
                    proof {
                        let ps = seq![p1] + seq![rest];
                        assert(split_from_right(s, 3) == seq![p1] + split_from_right(rest, 2));
                        assert(split_from_right(s, 3) =~= ps);
                        assert(ps.drop_first() =~= seq![rest]);
                        assert(seq![rest].drop_first() =~= Seq::<Seq<char>>::empty());
                        reveal_with_fuel(first_nonempty, 3);
                    }
                    if j1 > 0 {
                        Some(String::from_str(status.substring_char(0, j1)))
                    } else {
                        None
                    }
                },
                Some(j2) => {
                    let ghost p2 = rest.subrange(j2 + 1, j1 as int);
                    let ghost p3 = rest.subrange(0, j2 as int);
                    proof {
                        let ps = seq![p1] + (seq![p2] + seq![p3]);
                        assert(split_from_right(rest, 2) == seq![p2] + split_from_right(p3, 1));
                        assert(split_from_right(s, 3) =~= ps);
                        assert(ps.drop_first() =~= seq![p2, p3]);
                        assert(seq![p2, p3].drop_first() =~= seq![p3]);
                        assert(seq![p3].drop_first() =~= Seq::<Seq<char>>::empty());
                        reveal_with_fuel(first_nonempty, 4);
                        assert(p2 =~= s.subrange(j2 + 1, j1 as int));
                        assert(p3 =~= s.subrange(0, j2 as int));
                    }
                    if j2 + 1 < j1 {
                        Some(String::from_str(status.substring_char(j2 + 1, j1)))
                    } else if j2 > 0 {
                        Some(String::from_str(status.substring_char(0, j2)))
                    } else {
                        None
                    }
                },
            }
        },
    }
}

/// The country that a status text names by its rightmost token, if any.
pub fn parse_raw_locale(status_str: &str) -> (r: Option<String>)
    ensures
        opt_view(r) == resolve_locale(status_str@),
{
    match locale_token(status_str) {
        Some(token) => lookup_country(token.as_str()),
        None => None,
    }
}

/// Each record with its locale resolved from its status text.
pub open spec fn resolve_all(s: Seq<RecordView>) -> Seq<RecordView> {
    Seq::new(
        s.len(),
        |i: int| RecordView { locale: resolve_locale(s[i].status), ..s[i] },
    )
}

/// Sets every record's locale to what its status text resolves to.
pub fn set_locales(records: Vec<Record>) -> (r: Result<Vec<Record>, ShipError>)
    ensures
        r matches Ok(v) && views(v@) == resolve_all(views(records@)),
{
    let mut out: Vec<Record> = Vec::new();
    let n = records.len();
    let mut i: usize = 0;
    while i < n
        invariant
            n == records@.len(),
            i <= n,
            views(out@) =~= resolve_all(views(records@)).take(i as int),
        decreases n - i,
    {
        let new_locale = parse_raw_locale(records[i].status.as_str());
        let mut rec = records[i].clone();
        rec.set_locale(new_locale);
        let ghost prev = out@;
        out.push(rec);
        proof {
            assert(views(records@)[i as int] == records@[i as int]@);
            assert(views(out@) =~= views(prev).push(rec@));
        }
        i = i + 1;
    }
    Ok(out)
}

/// The locale that a forward fill carries to position `i`: that of the
/// nearest earlier resolved record, or the empty text if there is none.
pub open spec fn carried_locale(s: Seq<RecordView>, i: int) -> Seq<char>
    decreases i,
{
    if i <= 0 {
        seq![]
    } else {
        match s[i - 1].locale {
            Some(l) => l,
            None => carried_locale(s, i - 1),
        }
    }
}

/// Each unresolved record takes the locale carried to it; resolved ones stay.
pub open spec fn fill_locales(s: Seq<RecordView>) -> Seq<RecordView> {
    Seq::new(
        s.len(),
        |i: int|
            match s[i].locale {
                Some(_) => s[i],
                None => RecordView { locale: Some(carried_locale(s, i)), ..s[i] },
            },
    )
}

/// Fills each unresolved locale with the most recent resolved one before it,
/// or with the empty text where none precedes it.
pub fn set_null_locales(records: Vec<Record>) -> (r: Result<Vec<Record>, ShipError>)
    ensures
        r matches Ok(v) && views(v@) == fill_locales(views(records@)),
{
    let mut curr_locale = String::new();
    let mut out: Vec<Record> = Vec::new();
    let n = records.len();
    let ghost s = views(records@);
    let mut i: usize = 0;
    while i < n
        invariant
            n == records@.len(),
            s == views(records@),
            i <= n,
            curr_locale@ == carried_locale(s, i as int),
            views(out@) =~= fill_locales(s).take(i as int),
        decreases n - i,
    {
        let mut rec = records[i].clone();
        match &records[i].locale {
            Some(l) => {
                curr_locale = l.clone();
            },
            None => {
                rec.set_locale(Some(curr_locale.clone()));
            },
        }
        let ghost prev = out@;
        out.push(rec);
        proof {
            assert(s[i as int] == records@[i as int]@);
            assert(views(out@) =~= views(prev).push(rec@));
        }
        i = i + 1;
    }
    Ok(out)
}

proof fn lemma_carried_locale(s: Seq<RecordView>, i: int)
    requires
        0 <= i <= s.len(),
    ensures
        (exists|j: int|
            0 <= j < i && s[j].locale == Some(carried_locale(s, i)) && forall|k: int|
                j < k < i ==> (#[trigger] s[k]).locale is None) || (carried_locale(s, i) == Seq::<
            char,
        >::empty() && forall|k: int| 0 <= k < i ==> (#[trigger] s[k]).locale is None),
    decreases i,
{
    if i > 0 {
        lemma_carried_locale(s, i - 1);
        if s[i - 1].locale is Some {
            assert(s[i - 1].locale == Some(carried_locale(s, i)));
        } else {
            assert(carried_locale(s, i) == carried_locale(s, i - 1));
        }
    }
}

/// Forward fill: a record that had no locale takes the locale of the nearest
/// earlier record that had one, or the empty text where no earlier record had
/// one; a record that had a locale keeps it.
pub proof fn lemma_fill_is_forward(s: Seq<RecordView>)
    ensures
        fill_locales(s).len() == s.len(),
        forall|i: int|
            0 <= i < s.len() && (#[trigger] s[i]).locale is Some ==> fill_locales(s)[i] == s[i],
        forall|i: int|
            0 <= i < s.len() && (#[trigger] s[i]).locale is None ==> {
                &&& fill_locales(s)[i].datetime == s[i].datetime
                &&& fill_locales(s)[i].status == s[i].status
                &&& {
                    ||| exists|j: int|
                        0 <= j < i && (#[trigger] s[j]).locale is Some && fill_locales(s)[i].locale
                            == s[j].locale && forall|k: int| j < k < i ==> (#[trigger] s[k]).locale is None
                    ||| fill_locales(s)[i].locale == Some(Seq::<char>::empty()) && forall|k: int|
                        0 <= k < i ==> (#[trigger] s[k]).locale is None
                }
            },
{
    assert forall|i: int| 0 <= i < s.len() && (#[trigger] s[i]).locale is None implies {
        ||| exists|j: int|
            0 <= j < i && (#[trigger] s[j]).locale is Some && fill_locales(s)[i].locale
                == s[j].locale && forall|k: int| j < k < i ==> (#[trigger] s[k]).locale is None
        ||| fill_locales(s)[i].locale == Some(Seq::<char>::empty()) && forall|k: int|
            0 <= k < i ==> (#[trigger] s[k]).locale is None
    } by {
        lemma_carried_locale(s, i);
    }
}

/// After a fill every record has a locale.
pub proof fn lemma_fill_resolves_all(s: Seq<RecordView>)
    ensures
        forall|i: int| 0 <= i < s.len() ==> (#[trigger] fill_locales(s)[i]).locale is Some,
{
}

/// Filling twice changes nothing more than filling once.
pub proof fn lemma_fill_idempotent(s: Seq<RecordView>)
    ensures
        fill_locales(fill_locales(s)) == fill_locales(s),
{
    let f = fill_locales(s);
    assert(fill_locales(f) =~= f);
}

} // verus!
