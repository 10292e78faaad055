//! Small string helpers shared by the resolver, the classifier and the
//! streaming planner: string equality over views, decimal formatting and
//! decimal parsing of `u64` values.

use vstd::prelude::*;

verus! {

/// Equality of two string slices, stated over their character views.
pub fn str_eq(a: &str, b: &str) -> (r: bool)
    ensures
        r == (a@ == b@),
{
    let a_owned: String = a.to_owned();
    let b_owned: String = b.to_owned();
    a_owned == b_owned
}

/// The smallest index at which `c` occurs in `s`, or `-1` if it does not.
pub open spec fn find_first(s: Seq<char>, c: char) -> int
    decreases s.len(),
{
    if s.len() == 0 {
        -1
    } else if s[0] == c {
        0
    } else if find_first(s.skip(1), c) == -1 {
        -1
    } else {
        find_first(s.skip(1), c) + 1
    }
}

proof fn lemma_find_first_scan(s: Seq<char>, i: int, c: char)
    requires
        0 <= i <= s.len(),
        forall|j: int| 0 <= j < i ==> s[j] != c,
    ensures
        i == s.len() ==> find_first(s, c) == -1,
        i < s.len() && s[i] == c ==> find_first(s, c) == i,
    decreases i,
{
    if i > 0 {
        let r = s.skip(1);
        assert(forall|j: int| 0 <= j < i - 1 ==> r[j] == s[j + 1] && s[j + 1] != c);
        lemma_find_first_scan(r, i - 1, c);
        if i < s.len() {
            assert(r[i - 1] == s[i]);
        }
    }
}

/// Finds the first occurrence of `c` in `s`.
pub fn ffind(s: &str, c: char) -> (r: Option<usize>)
    ensures
        match r {
            Some(i) => i < s@.len() && find_first(s@, c) == i as int,
            None => find_first(s@, c) == -1,
        },
{
    let n = s.unicode_len();
    let mut i: usize = 0;
    while i < n
        invariant
            0 <= i <= n,
            n == s@.len(),
            forall|j: int| 0 <= j < i ==> s@[j] != c,
        decreases n - i,
    {
        if s.get_char(i) == c {
            proof {
                lemma_find_first_scan(s@, i as int, c);
            }
            return Some(i);
        }
        i = i + 1;
    }
    proof {
        lemma_find_first_scan(s@, n as int, c);
    }
    None
}

/// The decimal digit character for a value in `0..10`.
pub open spec fn dec_digit(d: int) -> char {
    if d == 0 {
        '0'
    } else if d == 1 {
        '1'
    } else if d == 2 {
        '2'
    } else if d == 3 {
        '3'
    } else if d == 4 {
        '4'
    } else if d == 5 {
        '5'
    } else if d == 6 {
        '6'
    } else if d == 7 {
        '7'
    } else if d == 8 {
        '8'
    } else {
        '9'
    }
}

/// The canonical decimal rendering of a nonnegative integer:
/// no leading zeros, except that zero itself is rendered as `0`.
pub open spec fn spec_dec(n: int) -> Seq<char>
    recommends
        n >= 0,
    decreases n,
{
    if n < 10 {
        seq![dec_digit(n)]
    } else {
        spec_dec(n / 10).push(dec_digit(n % 10))
    }
}

/// Whether `c` is an ASCII decimal digit.
pub open spec fn is_dec_digit(c: char) -> bool {
    48 <= c as int <= 57
}

/// The numeric value of a decimal digit character.
pub open spec fn digit_val(c: char) -> int {
    c as int - 48
}

/// Whether every character of `s` is an ASCII decimal digit.
pub open spec fn all_dec_digits(s: Seq<char>) -> bool {
    forall|i: int| 0 <= i < s.len() ==> is_dec_digit(#[trigger] s[i])
}

/// The numeric value of a sequence of decimal digit characters.
pub open spec fn dec_val(s: Seq<char>) -> int
    decreases s.len(),
{
    if s.len() == 0 {
        0
    } else {
        dec_val(s.drop_last()) * 10 + digit_val(s.last())
    }
}

proof fn lemma_dec_val_nonneg(s: Seq<char>)
    requires
        all_dec_digits(s),
    ensures
        dec_val(s) >= 0,
    decreases s.len(),
{
    if s.len() > 0 {
        assert(all_dec_digits(s.drop_last())) by {
            assert(forall|i: int|
                0 <= i < s.drop_last().len() ==> is_dec_digit(#[trigger] s.drop_last()[i]) && s.drop_last()[i]
                    == s[i]);
        }
        lemma_dec_val_nonneg(s.drop_last());
    }
}

proof fn lemma_dec_val_take_step(s: Seq<char>, i: int)
    requires
        0 <= i < s.len(),
    ensures
        dec_val(s.take(i + 1)) == dec_val(s.take(i)) * 10 + digit_val(s[i]),
{
    assert(s.take(i + 1).drop_last() =~= s.take(i));
    assert(s.take(i + 1).last() == s[i]);
}

proof fn lemma_dec_val_take_le(s: Seq<char>, i: int)
    requires
        0 <= i <= s.len(),
        all_dec_digits(s),
    ensures
        dec_val(s.take(i)) <= dec_val(s),
    decreases s.len() - i,
{
    if i < s.len() {
        assert(all_dec_digits(s.take(i))) by {
            assert(forall|j: int| 0 <= j < i ==> #[trigger] s.take(i)[j] == s[j]);
        }
        lemma_dec_val_nonneg(s.take(i));
        lemma_dec_val_take_step(s, i);
        lemma_dec_val_take_le(s, i + 1);
    } else {
        assert(s.take(i) =~= s);
    }
}

/// Parses a string of ASCII decimal digits as a `u64`. Returns `None`
/// exactly when the string is empty, holds a non-digit character, or
/// denotes a value above `u64::MAX`.
pub fn parse_u64(s: &str) -> (r: Option<u64>)
    ensures
        match r {
            Some(v) => s@.len() > 0 && all_dec_digits(s@) && v == dec_val(s@),
            None => s@.len() == 0 || !all_dec_digits(s@) || dec_val(s@) > u64::MAX,
        },
{
    let n = s.unicode_len();
    if n == 0 {
        return None;
    }
    let mut val: u64 = 0;
    let mut i: usize = 0;
    while i < n
        invariant
            0 <= i <= n,
            n == s@.len(),
            all_dec_digits(s@.take(i as int)),
            val == dec_val(s@.take(i as int)),
        decreases n - i,
    {
        let c = s.get_char(i);
        let u = c as u32;
        if u < 48 || u > 57 {
            assert(!is_dec_digit(s@[i as int]));
            return None;
        }
        let d = (u - 48) as u64;
        proof {
            lemma_dec_val_take_step(s@, i as int);
            assert(all_dec_digits(s@.take(i as int + 1))) by {
                assert(forall|j: int|
                    0 <= j < i as int + 1 ==> #[trigger] s@.take(i as int + 1)[j] == s@[j]);
            }
        }
        if val > (u64::MAX - d) / 10 {
            proof {
                assert(val * 10 + d > u64::MAX) by (nonlinear_arith)
                    requires
                        val > (u64::MAX - d) / 10,
                        0 <= d <= 9,
                ;
                if all_dec_digits(s@) {
                    lemma_dec_val_take_le(s@, i as int + 1);
                }
            }
            return None;
        }
        val = val * 10 + d;
        i = i + 1;
    }
    proof {
        assert(s@.take(n as int) =~= s@);
    }
    Some(val)
}

/// Renders a `u64` in decimal, matching [`spec_dec`].
pub fn u64_to_dec(n: u64) -> (r: String)
    ensures
        r@ == spec_dec(n as int),
{
    let digits = "0123456789";
    proof {
        reveal_strlit("0123456789");
    }
    if n == 0 {
        let z = digits.substring_char(0, 1);
        assert(z@ =~= spec_dec(0));
        return z.to_owned();
    }
    let mut m = n;
    let mut acc = String::new();
    assert(spec_dec(n as int) =~= spec_dec(m as int) + acc@);
    while m > 0
        invariant
            n > 0,
            spec_dec(n as int) == if m == 0 {
                acc@
            } else {
                spec_dec(m as int) + acc@
            },
        decreases m,
    {
        let digits = "0123456789";
        proof {
            reveal_strlit("0123456789");
        }
        let d = (m % 10) as usize;
        let digit = digits.substring_char(d, d + 1);
        assert(digit@ =~= seq![dec_digit(d as int)]);
        let ghost old_acc = acc@;
        let ghost old_m = m as int;
        acc = digit.to_owned().concat(acc.as_str());
        m = m / 10;
        proof {
            if old_m < 10 {
                assert(spec_dec(old_m) + old_acc =~= acc@);
            } else {
                assert(spec_dec(old_m) + old_acc =~= spec_dec(old_m / 10) + acc@);
            }
        }
    }
    acc
}

} // verus!
