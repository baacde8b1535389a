//! Rendering of the final balance snapshot: deterministic ordering (ascending
//! client id) and fixed four-decimal formatting of the fixed-point amounts.
//! Both are contractual for the output format; the actual writing of the
//! rendered text to a sink is left to the caller.
use vstd::prelude::*;
use crate::models::OutputRecord;

verus! {

broadcast use vstd::seq_lib::group_to_multiset_ensures;

/// The decimal digit character for a value below ten.
pub open spec fn spec_digit(d: int) -> char {
    if d == 0 {
        '0'
    } else if d == 1 {
        '1'
    } else if d == 2 {
        '2'
    } else if d == 3 {
        '3'
    } else if d == 4 {
        '4'
    } else if d == 5 {
        '5'
    } else if d == 6 {
        '6'
    } else if d == 7 {
        '7'
    } else if d == 8 {
        '8'
    } else {
        '9'
    }
}

/// Decimal digits of a non-negative integer, most significant first, without
/// leading zeroes (zero itself is a single `'0'`).
pub open spec fn spec_decimal(n: int) -> Seq<char>
    recommends
        0 <= n,
    decreases n,
{
    if n < 10 {
        seq![spec_digit(n)]
    } else {
        spec_decimal(n / 10).push(spec_digit(n % 10))
    }
}

/// Exactly four fractional digits, zero-padded on the left.
pub open spec fn spec_frac4(n: int) -> Seq<char> {
    seq![
        spec_digit(n / 1000 % 10),
        spec_digit(n / 100 % 10),
        spec_digit(n / 10 % 10),
        spec_digit(n % 10),
    ]
}

/// A non-negative fixed-point amount (in ten-thousandths) rendered with
/// exactly four fractional digits, e.g. `1.5000`.
pub open spec fn spec_amount(units: int) -> Seq<char>
    recommends
        0 <= units,
{
    spec_decimal(units / 10000) + seq!['.'] + spec_frac4(units % 10000)
}

/// The boolean literals used in the locked column.
pub open spec fn spec_bool(b: bool) -> Seq<char> {
    if b {
        seq!['t', 'r', 'u', 'e']
    } else {
        seq!['f', 'a', 'l', 's', 'e']
    }
}

/// One output row: client id, available, held, total, locked — comma
/// separated, newline terminated.
pub open spec fn spec_row(r: OutputRecord) -> Seq<char> {
    spec_decimal(r.client_id as int) + seq![','] + spec_amount(r.available as int) + seq![',']
        + spec_amount(r.held as int) + seq![','] + spec_amount(r.total as int) + seq![',']
        + spec_bool(r.locked) + seq!['\n']
}

/// The header row of the report.
pub open spec fn spec_header() -> Seq<char> {
    "client,available,held,total,locked\n"@
}

/// The whole report: the header followed by one row per record, in the
/// records' order.
pub open spec fn spec_report(rs: Seq<OutputRecord>) -> Seq<char>
    decreases rs.len(),
{
    if rs.len() == 0 {
        spec_header()
    } else {
        spec_report(rs.drop_last()) + spec_row(rs.last())
    }
}

/// Non-decreasing client ids over the first `n` entries.
pub open spec fn spec_sorted_to(rs: Seq<OutputRecord>, n: int) -> bool {
    forall|a: int, b: int| 0 <= a < b < n ==> rs[a].client_id <= rs[b].client_id
}

fn digit_str(d: u64) -> (s: &'static str)
    requires
        d < 10,
    ensures
        s@ == seq![spec_digit(d as int)],
{
    proof {
        reveal_strlit("0");
        reveal_strlit("1");
        reveal_strlit("2");
        reveal_strlit("3");
        reveal_strlit("4");
        reveal_strlit("5");
        reveal_strlit("6");
        reveal_strlit("7");
        reveal_strlit("8");
        reveal_strlit("9");
    }
    match d {
        0 => "0",
        1 => "1",
        2 => "2",
        3 => "3",
        4 => "4",
        5 => "5",
        6 => "6",
        7 => "7",
        8 => "8",
        _ => "9",
    }
}

/// The decimal rendering of an unsigned integer.
pub fn decimal_string(n: u64) -> (s: String)
    ensures
        s@ == spec_decimal(n as int),
    decreases n,
{
    if n < 10 {
        String::from_str(digit_str(n))
    } else {
        let mut s = decimal_string(n / 10);
        s.append(digit_str(n % 10));
        proof {
            assert(s@ =~= spec_decimal(n as int));
        }
        s
    }
}

fn push_frac4(s: &mut String, n: u64)
    requires
        n < 10000,
    ensures
        final(s)@ == old(s)@ + spec_frac4(n as int),
{
    s.append(digit_str(n / 1000));
    s.append(digit_str(n / 100 % 10));
    s.append(digit_str(n / 10 % 10));
    s.append(digit_str(n % 10));
    proof {
        assert(n / 1000 % 10 == n / 1000) by {
            assert(n / 1000 < 10);
        };
        assert(s@ =~= old(s)@ + spec_frac4(n as int));
    }
}

/// A non-negative fixed-point amount rendered with exactly four fractional
/// digits.
pub fn amount_string(units: i64) -> (s: String)
    requires
        0 <= units,
    ensures
        s@ == spec_amount(units as int),
{
    let whole = (units / 10000) as u64;
    let frac = (units % 10000) as u64;
    let mut s = decimal_string(whole);
    s.append(".");
    push_frac4(&mut s, frac);
    proof {
        reveal_strlit(".");
        assert(s@ =~= spec_amount(units as int));
    }
    s
}

fn bool_str(b: bool) -> (s: &'static str)
    ensures
        s@ == spec_bool(b),
{
    proof {
        reveal_strlit("true");
        reveal_strlit("false");
    }
    if b {
        "true"
    } else {
        "false"
    }
}

/// Renders one output row.
pub fn render_row(r: &OutputRecord) -> (s: String)
    requires
        0 <= r.available,
        0 <= r.held,
        0 <= r.total,
    ensures
        s@ == spec_row(*r),
{
    let mut s = decimal_string(r.client_id as u64);
    s.append(",");
    let available = amount_string(r.available);
    s.append(available.as_str());
    s.append(",");
    let held = amount_string(r.held);
    s.append(held.as_str());
    s.append(",");
    let total = amount_string(r.total);
    s.append(total.as_str());
    s.append(",");
    s.append(bool_str(r.locked));
    s.append("\n");
    proof {
        reveal_strlit(",");
        reveal_strlit("\n");
        assert(s@ =~= spec_row(*r));
    }
    s
}

/// Renders the whole report: the header row, then one row per record in the
/// records' order.
pub fn render_report(records: &Vec<OutputRecord>) -> (s: String)
    requires
        forall|i: int| #![trigger records@[i]] 0 <= i < records@.len()
            ==> 0 <= records@[i].available && 0 <= records@[i].held && 0 <= records@[i].total,
    ensures
        s@ == spec_report(records@),
{
    let mut s = String::from_str("client,available,held,total,locked\n");
    let mut idx: usize = 0;
    while idx < records.len()
        invariant
            idx <= records@.len(),
            s@ == spec_report(records@.take(idx as int)),
            forall|i: int| #![trigger records@[i]] 0 <= i < records@.len()
                ==> 0 <= records@[i].available && 0 <= records@[i].held
                    && 0 <= records@[i].total,
        decreases records@.len() - idx,
    {
        let row = render_row(&records[idx]);
        s.append(row.as_str());
        proof {
            let taken = records@.take(idx + 1 as int);
            assert(taken.drop_last() =~= records@.take(idx as int));
            assert(taken.last() == records@[idx as int]);
        }
        idx = idx + 1;
    }
    proof {
        assert(records@.take(records@.len() as int) =~= records@);
    }
    s
}

/// Sorts the records by ascending client id; the result holds exactly the
/// same records (as a multiset) as before.
pub fn sort_by_client(records: &mut Vec<OutputRecord>)
    ensures
        final(records)@.len() == old(records)@.len(),
        final(records)@.to_multiset() == old(records)@.to_multiset(),
        spec_sorted_to(final(records)@, final(records)@.len() as int),
{
    if records.len() < 2 {
        return ;
    }
    let mut i: usize = 1;
    while i < records.len()
        invariant
            1 <= i <= records@.len(),
            records@.len() == old(records)@.len(),
            records@.to_multiset() == old(records)@.to_multiset(),
            spec_sorted_to(records@, i as int),
        decreases records@.len() - i,
    {
        let ghost pre = records@;
        let x = records[i];
        let mut p: usize = i;
        while p > 0 && records[p - 1].client_id > x.client_id
            invariant
                p <= i < records@.len(),
                records@ == pre,
                x == pre[i as int],
                forall|k: int| p <= k < i ==> pre[k].client_id > x.client_id,
            decreases p,
        {
            p = p - 1;
        }
        let moved = records.remove(i);
        records.insert(p, moved);
        proof {
            let post = pre.remove(i as int).insert(p as int, x);
            assert(records@ == post);
            assert(pre.to_multiset().contains(x));
            assert(post.to_multiset() =~= pre.to_multiset());
            assert forall|a: int, b: int| 0 <= a < b < i + 1
                implies post[a].client_id <= post[b].client_id by {
                assert(forall|k: int| 0 <= k < p ==> post[k] == pre[k]);
                assert(post[p as int] == x);
                assert(forall|k: int| p < k <= i ==> post[k] == pre[k - 1]);
                if p > 0 {
                    assert(pre[p - 1].client_id <= x.client_id);
                }
            };
            assert(spec_sorted_to(records@, i + 1 as int));
        }
        i = i + 1;
    }
}

} // verus!
