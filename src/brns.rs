//! Expansion of comma-separated BRN numbers into one record per user and number.

use vstd::prelude::*;
use crate::text::{chars_of, string_of};

verus! {

/// One BRN record: a user and one of their numbers.
pub struct Brn {
    pub user_uid: u64,
    /// BRN number string (for example `07569`).
    pub number: String,
}

/// A stored row: a user and their numbers, comma-separated.
pub struct BrnRow {
    pub user_id: i32,
    pub brns_values: String,
}

/// `c` has the Unicode `White_Space` property.
pub open spec fn is_space(c: char) -> bool {
    ('\u{9}' <= c && c <= '\u{d}') || c == ' ' || c == '\u{85}' || c == '\u{a0}' || c == '\u{1680}'
        || ('\u{2000}' <= c && c <= '\u{200a}') || c == '\u{2028}' || c == '\u{2029}' || c
        == '\u{202f}' || c == '\u{205f}' || c == '\u{3000}'
}

/// `s` without leading white space.
pub open spec fn trim_start(s: Seq<char>) -> Seq<char>
    decreases s.len(),
{
    if s.len() > 0 && is_space(s[0]) {
        trim_start(s.skip(1))
    } else {
        s
    }
}

/// `s` without trailing white space.
pub open spec fn trim_end(s: Seq<char>) -> Seq<char>
    decreases s.len(),
{
    if s.len() > 0 && is_space(s.last()) {
        trim_end(s.drop_last())
    } else {
        s
    }
}

/// `s` without leading and trailing white space.
pub open spec fn trim(s: Seq<char>) -> Seq<char> {
    trim_end(trim_start(s))
}

/// The pieces of `s` between commas, empty pieces included.
pub open spec fn split_commas(s: Seq<char>) -> Seq<Seq<char>>
    decreases s.len(),
{
    if s.len() == 0 {
        seq![Seq::empty()]
    } else {
        let p = split_commas(s.drop_last());
        if s.last() == ',' {
            p.push(Seq::empty())
        } else {
            p.drop_last().push(p.last().push(s.last()))
        }
    }
}

/// The trimmed, non-empty pieces among the first `n` of `pieces`.
pub open spec fn numbers_in(pieces: Seq<Seq<char>>, n: nat) -> Seq<Seq<char>>
    decreases n,
{
    if n == 0 {
        Seq::empty()
    } else {
        let prev = numbers_in(pieces, (n - 1) as nat);
        let t = trim(pieces[n - 1]);
        if t.len() > 0 {
            prev.push(t)
        } else {
            prev
        }
    }
}

/// The numbers of a comma-separated list: each piece trimmed, empty ones dropped.
pub open spec fn brn_numbers(s: Seq<char>) -> Seq<Seq<char>> {
    numbers_in(split_commas(s), split_commas(s).len())
}

/// The records of the first `n` rows: for each row with a positive user, one per number.
pub open spec fn brn_records(rows: Seq<BrnRow>, n: nat) -> Seq<(u64, Seq<char>)>
    decreases n,
{
    if n == 0 {
        Seq::empty()
    } else {
        let prev = brn_records(rows, (n - 1) as nat);
        let r = rows[n - 1];
        if r.user_id > 0 {
            prev + brn_numbers(r.brns_values@).map_values(|s: Seq<char>| (r.user_id as u64, s))
        } else {
            prev
        }
    }
}

/// A record as a pair of user and number.
pub open spec fn brn_view(b: Brn) -> (u64, Seq<char>) {
    (b.user_uid, b.number@)
}

fn is_space_exec(c: char) -> (r: bool)
    ensures
        r == is_space(c),
{
    ('\u{9}' <= c && c <= '\u{d}') || c == ' ' || c == '\u{85}' || c == '\u{a0}' || c == '\u{1680}'
        || ('\u{2000}' <= c && c <= '\u{200a}') || c == '\u{2028}' || c == '\u{2029}' || c
        == '\u{202f}' || c == '\u{205f}' || c == '\u{3000}'
}

/// `v` without leading and trailing white space.
fn trim_chars(v: &Vec<char>) -> (r: Vec<char>)
    ensures
        r@ == trim(v@),
{
    let n = v.len();
    let mut a: usize = 0;
    assert(v@.skip(0) =~= v@);
    while a < n && is_space_exec(v[a])
        invariant
            n == v@.len(),
            a <= n,
            trim_start(v@) == trim_start(v@.skip(a as int)),
        decreases n - a,
    {
        assert(v@.skip(a as int).skip(1) =~= v@.skip(a + 1));
        a = a + 1;
    }
    let ghost st = v@.skip(a as int);
    assert(trim_start(v@) == st);
    let mut b: usize = n;
    assert(v@.subrange(a as int, n as int) =~= st);
    while b > a && is_space_exec(v[b - 1])
        invariant
            n == v@.len(),
            a <= b <= n,
            st == v@.skip(a as int),
            trim_end(st) == trim_end(v@.subrange(a as int, b as int)),
        decreases b,
    {
        assert(v@.subrange(a as int, b as int).drop_last() =~= v@.subrange(a as int, b - 1));
        b = b - 1;
    }
    let mut out: Vec<char> = Vec::new();
    let mut i: usize = a;
    while i < b
        invariant
            a <= i <= b <= n,
            n == v@.len(),
            out@ == v@.subrange(a as int, i as int),
        decreases b - i,
    {
        out.push(v[i]);
        i = i + 1;
        assert(out@ =~= v@.subrange(a as int, i as int));
    }
    out
}

/// The pieces of `s` between commas, empty pieces included.
fn split_pieces(s: &str) -> (r: Vec<Vec<char>>)
    ensures
        r@.map_values(|p: Vec<char>| p@) == split_commas(s@),
{
    let chars = chars_of(s);
    let mut done: Vec<Vec<char>> = Vec::new();
    let mut cur: Vec<char> = Vec::new();
    let mut i: usize = 0;
    assert(chars@.subrange(0, 0) =~= Seq::<char>::empty());
    assert(done@.map_values(|p: Vec<char>| p@).push(cur@) =~= split_commas(chars@.subrange(0, 0)));
    while i < chars.len()
        invariant
            i <= chars@.len(),
            done@.map_values(|p: Vec<char>| p@).push(cur@) == split_commas(chars@.subrange(0, i as int)),
        decreases chars@.len() - i,
    {
        let ghost pre = chars@.subrange(0, i + 1);
        assert(pre.drop_last() =~= chars@.subrange(0, i as int));
        assert(pre.last() == chars@[i as int]);
        let ghost dv = done@.map_values(|p: Vec<char>| p@);
        if chars[i] == ',' {
            done.push(cur);
            cur = Vec::new();
            assert(done@.map_values(|p: Vec<char>| p@) =~= dv.push(done@.last()@));
            assert(done@.map_values(|p: Vec<char>| p@).push(cur@) =~= split_commas(pre));
        } else {
            let ghost old_cur = cur@;
            cur.push(chars[i]);
            assert(dv.push(old_cur).drop_last() =~= dv);
            assert(dv.push(cur@) =~= split_commas(pre));
        }
        i = i + 1;
    }
    assert(chars@.subrange(0, chars@.len() as int) =~= chars@);
    let ghost dv = done@.map_values(|p: Vec<char>| p@);
    done.push(cur);
    assert(done@.map_values(|p: Vec<char>| p@) =~= dv.push(done@.last()@));
    done
}

/// Appends one record per number of `row` for user `uid`.
fn push_numbers(uid: u64, values: &str, out: &mut Vec<Brn>)
    ensures
        final(out)@.map_values(|b: Brn| brn_view(b)) == old(out)@.map_values(|b: Brn| brn_view(b))
            + brn_numbers(values@).map_values(|s: Seq<char>| (uid, s)),
{
    let ghost start = out@.map_values(|b: Brn| brn_view(b));
    let pieces = split_pieces(values);
    let ghost pv = pieces@.map_values(|p: Vec<char>| p@);
    let mut i: usize = 0;
    assert(numbers_in(pv, 0).map_values(|s: Seq<char>| (uid, s)) =~= Seq::<(u64, Seq<char>)>::empty());
    assert(out@.map_values(|b: Brn| brn_view(b)) =~= start + numbers_in(pv, 0).map_values(|s: Seq<char>| (uid, s)));
    while i < pieces.len()
        invariant
            i <= pieces@.len(),
            pv == pieces@.map_values(|p: Vec<char>| p@),
            pv == split_commas(values@),
            out@.map_values(|b: Brn| brn_view(b)) == start + numbers_in(pv, i as nat).map_values(
                |s: Seq<char>| (uid, s),
            ),
        decreases pieces@.len() - i,
    {
        let ghost before = out@.map_values(|b: Brn| brn_view(b));
        let t = trim_chars(&pieces[i]);
        assert(pv[i as int] == pieces@[i as int]@);
        if t.len() > 0 {
            let number = string_of(&t);
            out.push(Brn { user_uid: uid, number });
            assert(out@.map_values(|b: Brn| brn_view(b)) =~= before.push((uid, t@)));
            assert(numbers_in(pv, (i + 1) as nat).map_values(|s: Seq<char>| (uid, s)) =~= numbers_in(
                pv,
                i as nat,
            ).map_values(|s: Seq<char>| (uid, s)).push((uid, t@)));
        }
        i = i + 1;
    }
}

/// Expands stored rows into one record per user and number: rows of non-positive
/// users are skipped; numbers are split on commas, trimmed, and empty ones dropped.
pub fn expand_brns(rows: &Vec<BrnRow>) -> (r: Vec<Brn>)
    ensures
        r@.map_values(|b: Brn| brn_view(b)) == brn_records(rows@, rows@.len()),
{
    let mut out: Vec<Brn> = Vec::new();
    let mut i: usize = 0;
    assert(out@.map_values(|b: Brn| brn_view(b)) =~= brn_records(rows@, 0));
    while i < rows.len()
        invariant
            i <= rows@.len(),
            out@.map_values(|b: Brn| brn_view(b)) == brn_records(rows@, i as nat),
        decreases rows@.len() - i,
    {
        if rows[i].user_id > 0 {
            push_numbers(rows[i].user_id as u64, rows[i].brns_values.as_str(), &mut out);
        }
        i = i + 1;
    }
    out
}

} // verus!
