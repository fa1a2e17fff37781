//! The query-string grammar of the import route: `&`-separated `key=value`
//! pairs, with one optional unsigned decimal parameter `id`.
//!
//! A missing `id` pair yields the reserved unset id; an `id` value that is
//! not a decimal number fitting in 64 bits is a parse failure, reported to
//! the caller rather than aborting the request.

use vstd::prelude::*;
use crate::item::UNSET_ID;
use crate::text::chars_of;

verus! {

/// Index of the first occurrence of `c` in `s`, or `s.len()` if none.
pub open spec fn find_char(s: Seq<char>, c: char) -> int
    decreases s.len(),
{
    if s.len() == 0 {
        0
    } else if s[0] == c {
        0
    } else {
        1 + find_char(s.skip(1), c)
    }
}

/// `find_char` lies in range, points left of every occurrence, and hits one.
pub proof fn lemma_find_char_props(s: Seq<char>, c: char)
    ensures
        0 <= find_char(s, c) <= s.len(),
        forall|k: int| 0 <= k < find_char(s, c) ==> s[k] != c,
        find_char(s, c) < s.len() ==> s[find_char(s, c)] == c,
    decreases s.len(),
{
    if s.len() == 0 {
    } else if s[0] == c {
    } else {
        lemma_find_char_props(s.skip(1), c);
        let f = find_char(s, c);
        assert forall|k: int| 0 <= k < f implies s[k] != c by {
            if k > 0 {
                assert(s.skip(1)[k - 1] == s[k]);
            }
        }
        if f < s.len() {
            assert(s.skip(1)[f - 1] == s[f]);
        }
    }
}

/// Any index with the three properties of `lemma_find_char_props` is
/// `find_char` itself.
pub proof fn lemma_find_char_unique(s: Seq<char>, c: char, j: int)
    requires
        0 <= j <= s.len(),
        forall|k: int| 0 <= k < j ==> s[k] != c,
        j < s.len() ==> s[j] == c,
    ensures
        find_char(s, c) == j,
    decreases s.len(),
{
    if s.len() == 0 {
    } else if s[0] == c {
        assert(j == 0);
    } else {
        assert(j >= 1);
        assert forall|k: int| 0 <= k < j - 1 implies s.skip(1)[k] != c by {
            assert(s.skip(1)[k] == s[k + 1]);
        }
        if j - 1 < s.len() - 1 {
            assert(s.skip(1)[j - 1] == s[j]);
        }
        lemma_find_char_unique(s.skip(1), c, j - 1);
    }
}

/// The key of a `key=value` pair: everything left of the first `=`.
pub open spec fn pair_key(p: Seq<char>) -> Seq<char> {
    p.take(find_char(p, '='))
}

/// The value of a `key=value` pair: everything right of the first `=`, or
/// empty when the pair has no `=`.
pub open spec fn pair_value(p: Seq<char>) -> Seq<char> {
    if find_char(p, '=') == p.len() {
        Seq::empty()
    } else {
        p.skip(find_char(p, '=') + 1)
    }
}

/// The value of the first `&`-separated pair of `q` whose key is `id`, if
/// any pair carries that key.
pub open spec fn first_id_value(q: Seq<char>) -> Option<Seq<char>>
    decreases q.len(),
    via first_id_value_decreases
{
    let j = find_char(q, '&');
    let seg = q.take(j);
    if pair_key(seg) == "id"@ {
        Some(pair_value(seg))
    } else if j == q.len() {
        None
    } else {
        first_id_value(q.skip(j + 1))
    }
}

#[via_fn]
proof fn first_id_value_decreases(q: Seq<char>) {
    lemma_find_char_props(q, '&');
}

/// A decimal digit.
pub open spec fn is_digit(c: char) -> bool {
    '0' as u32 <= c as u32 && c as u32 <= '9' as u32
}

/// The numeric value of a decimal digit.
pub open spec fn digit_val(c: char) -> int {
    c as u32 - '0' as u32
}

/// Every character of `s` is a decimal digit.
pub open spec fn all_digits(s: Seq<char>) -> bool {
    forall|i: int| 0 <= i < s.len() ==> is_digit(s[i])
}

/// The number that the digit string `s` denotes, most significant first.
pub open spec fn digits_val(s: Seq<char>) -> int
    decreases s.len(),
{
    if s.len() == 0 {
        0
    } else {
        10 * digits_val(s.drop_last()) + digit_val(s.last())
    }
}

/// The unsigned 64-bit number that `s` denotes, if `s` is a nonempty digit
/// string whose value fits.
pub open spec fn parse_u64(s: Seq<char>) -> Option<u64> {
    if s.len() > 0 && all_digits(s) && digits_val(s) <= u64::MAX {
        Some(digits_val(s) as u64)
    } else {
        None
    }
}

/// The id that query string `q` carries: the reserved unset id when no pair
/// has key `id`, the parsed number when the first such pair holds a valid
/// one, and nothing when it is malformed.
pub open spec fn spec_query_id(q: Seq<char>) -> Option<u64> {
    match first_id_value(q) {
        Option::None => Some(UNSET_ID),
        Option::Some(v) => parse_u64(v),
    }
}

/// A digit string denotes a nonnegative number.
pub proof fn lemma_digits_val_nonneg(s: Seq<char>)
    requires
        all_digits(s),
    ensures
        digits_val(s) >= 0,
    decreases s.len(),
{
    if s.len() > 0 {
        assert(all_digits(s.drop_last()));
        lemma_digits_val_nonneg(s.drop_last());
        assert(digit_val(s.last()) >= 0);
    }
}

/// Extending a digit prefix by one digit multiplies by ten and adds it.
pub proof fn lemma_digits_val_step(s: Seq<char>, i: int)
    requires
        0 <= i < s.len(),
    ensures
        digits_val(s.take(i + 1)) == 10 * digits_val(s.take(i)) + digit_val(s[i]),
{
    assert(s.take(i + 1).drop_last() =~= s.take(i));
    assert(s.take(i + 1).last() == s[i]);
}

/// A digit string denotes at least what any prefix of it denotes.
pub proof fn lemma_digits_val_grows(s: Seq<char>, i: int)
    requires
        all_digits(s),
        0 <= i <= s.len(),
    ensures
        digits_val(s.take(i)) <= digits_val(s),
    decreases s.len() - i,
{
    if i < s.len() {
        lemma_digits_val_grows(s, i + 1);
        lemma_digits_val_step(s, i);
        assert(all_digits(s.take(i)));
        lemma_digits_val_nonneg(s.take(i));
        assert(digit_val(s[i]) >= 0);
    } else {
        assert(s.take(i) =~= s);
    }
}

/// First occurrence of `c` in `cs` at or after `from`, or `cs.len()`.
fn find_in(cs: &Vec<char>, from: usize, c: char) -> (j: usize)
    requires
        from <= cs.len(),
    ensures
        from <= j <= cs.len(),
        j - from == find_char(cs@.skip(from as int), c),
        forall|k: int| from <= k < j ==> cs@[k] != c,
        j < cs.len() ==> cs@[j as int] == c,
{
    let n = cs.len();
    let mut j = from;
    while j < n
        invariant
            from <= j <= n,
            n == cs.len(),
            forall|k: int| from <= k < j ==> cs@[k] != c,
        decreases n - j,
    {
        if cs[j] == c {
            proof {
                lemma_find_from(cs@, from as int, j as int, c);
            }
            return j;
        }
        j = j + 1;
    }
    proof {
        lemma_find_from(cs@, from as int, j as int, c);
    }
    j
}

/// Transfers the first-occurrence characterization from a suffix of `s`
/// back to `find_char` on that suffix.
proof fn lemma_find_from(s: Seq<char>, from: int, j: int, c: char)
    requires
        0 <= from <= j <= s.len(),
        forall|k: int| from <= k < j ==> s[k] != c,
        j < s.len() ==> s[j] == c,
    ensures
        find_char(s.skip(from), c) == j - from,
{
    let t = s.skip(from);
    assert forall|k: int| 0 <= k < j - from implies t[k] != c by {
        assert(t[k] == s[k + from]);
    }
    if j - from < t.len() {
        assert(t[j - from] == s[j]);
    }
    lemma_find_char_unique(t, c, j - from);
}

/// First occurrence of `c` in `cs` within `[from, to)`, or `to`.
fn find_in_upto(cs: &Vec<char>, from: usize, to: usize, c: char) -> (e: usize)
    requires
        from <= to <= cs.len(),
    ensures
        from <= e <= to,
        forall|k: int| from <= k < e ==> cs@[k] != c,
        e < to ==> cs@[e as int] == c,
{
    let mut e = from;
    while e < to
        invariant
            from <= e <= to <= cs.len(),
            forall|k: int| from <= k < e ==> cs@[k] != c,
        decreases to - e,
    {
        if cs[e] == c {
            return e;
        }
        e = e + 1;
    }
    e
}

/// Parse the digit string `cs[from..to]` as an unsigned 64-bit number.
fn parse_u64_range(cs: &Vec<char>, from: usize, to: usize) -> (r: Option<u64>)
    requires
        from <= to <= cs.len(),
    ensures
        r == parse_u64(cs@.subrange(from as int, to as int)),
{
    let ghost v = cs@.subrange(from as int, to as int);
    if from == to {
        return None;
    }
    let mut acc: u64 = 0;
    let mut i = from;
    while i < to
        invariant
            from <= i <= to <= cs.len(),
            v == cs@.subrange(from as int, to as int),
            all_digits(v.take(i - from)),
            acc == digits_val(v.take(i - from)),
        decreases to - i,
    {
        let c = cs[i];
        let u = c as u32;
        proof {
            assert(v[i - from] == cs@[i as int]);
        }
        if u < '0' as u32 || u > '9' as u32 {
            proof {
                assert(!is_digit(v[i - from]));
                assert(!all_digits(v));
            }
            return None;
        }
        let d = (u - '0' as u32) as u64;
        proof {
            assert(is_digit(v[i - from]));
            assert(d == digit_val(v[i - from]));
            lemma_digits_val_step(v, i - from);
            assert(all_digits(v.take(i - from + 1)));
        }
        let next = match acc.checked_mul(10) {
            Option::Some(m) => m.checked_add(d),
            Option::None => None,
        };
        match next {
            Option::Some(x) => {
                acc = x;
            },
            Option::None => {
                proof {
                    assert(digits_val(v.take(i - from + 1)) > u64::MAX);
                    if all_digits(v) {
                        lemma_digits_val_grows(v, i - from + 1);
                        assert(digits_val(v) > u64::MAX);
                    }
                }
                return None;
            },
        }
        i = i + 1;
    }
    proof {
        assert(v.take(i - from) =~= v);
    }
    Some(acc)
}

/// Parse the optional `id` parameter of query string `query`.
///
/// Returns the reserved unset id when no `id` pair is present, the parsed
/// number when the first `id` pair holds a valid unsigned decimal, and
/// nothing when that pair is malformed.
pub fn parse_query_id(query: &str) -> (r: Option<u64>)
    ensures
        r == spec_query_id(query@),
{
    let cs = chars_of(query);
    let n = cs.len();
    let mut start: usize = 0;
    proof {
        assert(cs@.skip(0) =~= query@);
    }
    loop
        invariant
            start <= n,
            n == cs.len(),
            cs@ == query@,
            first_id_value(query@) == first_id_value(cs@.skip(start as int)),
        decreases n - start,
    {
        let j = find_in(&cs, start, '&');
        let e = find_in_upto(&cs, start, j, '=');
        let ghost qs = cs@.skip(start as int);
        let ghost seg = qs.take(j - start);
        proof {
            assert(seg =~= cs@.subrange(start as int, j as int));
            lemma_find_in_segment(cs@, start as int, e as int, j as int, '=');
            assert(find_char(seg, '=') == e - start);
        }
        let klen = e - start;
        let is_id = klen == 2 && cs[start] == 'i' && cs[start + 1] == 'd';
        proof {
            reveal_strlit("id");
            assert(pair_key(seg) == seg.take(e - start));
            assert(seg.take(e - start) =~= cs@.subrange(start as int, e as int));
            if is_id {
                assert(cs@.subrange(start as int, e as int) =~= "id"@);
            } else {
                if pair_key(seg) == "id"@ {
                    assert(cs@.subrange(start as int, e as int).len() == 2);
                    assert(cs@.subrange(start as int, e as int)[0] == 'i');
                    assert(cs@.subrange(start as int, e as int)[1] == 'd');
                    assert(false);
                }
            }
            assert(is_id == (pair_key(seg) == "id"@));
        }
        if is_id {
            if e == j {
                proof {
                    assert(find_char(seg, '=') == seg.len());
                    assert(pair_value(seg) == Seq::<char>::empty());
                    assert(first_id_value(qs) == Some(Seq::<char>::empty()));
                    assert(parse_u64(Seq::<char>::empty()) is None);
                }
                return None;
            }
            let r = parse_u64_range(&cs, e + 1, j);
            proof {
                assert(find_char(seg, '=') < seg.len());
                assert(pair_value(seg) == seg.skip(e - start + 1));
                assert(seg.skip(e - start + 1) =~= cs@.subrange(e + 1, j as int));
                assert(first_id_value(qs) == Some(pair_value(seg)));
            }
            return r;
        }
        if j == n {
            proof {
                assert(j - start == find_char(qs, '&'));
                assert(find_char(qs, '&') == qs.len());
                assert(first_id_value(qs) is None);
            }
            return Some(crate::item::unset_id());
        }
        proof {
            assert(j - start == find_char(qs, '&'));
            assert(first_id_value(qs) == first_id_value(qs.skip(j - start + 1)));
            assert(qs.skip(j - start + 1) =~= cs@.skip(j + 1));
        }
        start = j + 1;
    }
}

/// `find_char` within a prefix-delimited segment agrees with the
/// first-occurrence characterization on the whole sequence.
proof fn lemma_find_in_segment(s: Seq<char>, from: int, e: int, to: int, c: char)
    requires
        0 <= from <= e <= to <= s.len(),
        forall|k: int| from <= k < e ==> s[k] != c,
        e < to ==> s[e] == c,
    ensures
        find_char(s.subrange(from, to), c) == e - from,
{
    let t = s.subrange(from, to);
    assert forall|k: int| 0 <= k < e - from implies t[k] != c by {
        assert(t[k] == s[k + from]);
    }
    if e - from < t.len() {
        assert(t[e - from] == s[e]);
    }
    lemma_find_char_unique(t, c, e - from);
}

} // verus!
