use vstd::prelude::*;

verus! {

pub open spec fn is_digit(c: char) -> bool {
    '0' <= c && c <= '9'
}

pub open spec fn all_digits(s: Seq<char>) -> bool {
    forall|i: int| 0 <= i < s.len() ==> is_digit(#[trigger] s[i])
}

pub open spec fn digit_value(c: char) -> int {
    c as int - '0' as int
}

/// The number a string of decimal digits denotes.
pub open spec fn digits_value(s: Seq<char>) -> int
    decreases s.len(),
{
    if s.len() == 0 {
        0
    } else {
        10 * digits_value(s.drop_last()) + digit_value(s.last())
    }
}

/// A non-empty run of decimal digits whose value is at most `max`.
pub open spec fn parse_decimal(s: Seq<char>, max: int) -> Option<int> {
    if s.len() > 0 && all_digits(s) && digits_value(s) <= max {
        Some(digits_value(s))
    } else {
        None
    }
}

/// The characters of `s`, in order.
pub fn chars_of(s: &str) -> (r: Vec<char>)
    ensures
        r@ == s@,
{
    let mut r: Vec<char> = Vec::new();
    for c in it: s.chars()
        invariant
            it.seq() == s@,
            r@ == it.seq().take(it.index() as int),
    {
        r.push(c);
    }
    assert(r@ =~= s@);
    r
}

proof fn lemma_digits_value_nonneg(s: Seq<char>)
    requires
        all_digits(s),
    ensures
        digits_value(s) >= 0,
    decreases s.len(),
{
    if s.len() > 0 {
        assert(all_digits(s.drop_last()));
        lemma_digits_value_nonneg(s.drop_last());
    }
}

/// Reads `cs[lo..hi]` as a decimal number of at most `max`.
pub fn parse_decimal_range(cs: &Vec<char>, lo: usize, hi: usize, max: u64) -> (r: Option<u64>)
    requires
        lo <= hi <= cs.len(),
        max < u64::MAX,
    ensures
        r matches Some(v) ==> parse_decimal(cs@.subrange(lo as int, hi as int), max as int) == Some(v as int),
        r is None ==> parse_decimal(cs@.subrange(lo as int, hi as int), max as int) is None,
{
    if lo == hi {
        return None;
    }
    let ghost s = cs@.subrange(lo as int, hi as int);
    let cap: u64 = max + 1;
    let mut acc: u64 = 0;
    let mut i: usize = lo;
    while i < hi
        invariant
            lo <= i <= hi <= cs.len(),
            cap == max + 1,
            max < u64::MAX,
            s == cs@.subrange(lo as int, hi as int),
            all_digits(cs@.subrange(lo as int, i as int)),
            acc == if digits_value(cs@.subrange(lo as int, i as int)) > max {
                cap as int
            } else {
                digits_value(cs@.subrange(lo as int, i as int))
            },
        decreases hi - i,
    {
        let c = cs[i];
        if !('0' <= c && c <= '9') {
            assert(s[i - lo] == c);
            return None;
        }
        let ghost pre = cs@.subrange(lo as int, i as int);
        let ghost next = cs@.subrange(lo as int, i + 1);
        assert(next.drop_last() =~= pre);
        assert(all_digits(next));
        proof {
            lemma_digits_value_nonneg(pre);
        }
        let d: u64 = (c as u32 - '0' as u32) as u64;
        if acc < cap {
            let v: u128 = (acc as u128) * 10 + (d as u128);
            if v > max as u128 {
                acc = cap;
            } else {
                acc = v as u64;
            }
        } else {
            assert(digits_value(next) >= digits_value(pre)) by (nonlinear_arith)
                requires
                    digits_value(next) == 10 * digits_value(pre) + digit_value(c),
                    digits_value(pre) >= 0,
                    digit_value(c) >= 0,
            ;
        }
        i = i + 1;
    }
    assert(cs@.subrange(lo as int, i as int) =~= s);
    if acc == cap {
        None
    } else {
        Some(acc)
    }
}

} // verus!
