//! The catalog's rating value and its parser.
//!
//! A rating is held as a whole number of hundredths, parsed from the
//! dataset's decimal rating field. A field that does not fit the rating
//! grammar (digits, optionally followed by a dot and more digits, with at
//! most seven digits before the dot) degrades to zero rather than
//! aborting the load; fraction digits beyond the second are dropped.

use crate::text::first_occ;
use crate::text::lemma_first_occ;
use vstd::prelude::*;
use vstd::string::StrSliceExecFns;

verus! {

/// The character codes of `'0'` through `'9'`.
pub open spec fn is_digit(c: char) -> bool {
    '0' as int <= c as int && c as int <= '9' as int
}

/// Numeric value of a digit character.
pub open spec fn digit_val(c: char) -> int {
    c as int - '0' as int
}

/// Every character of `s` is a decimal digit.
pub open spec fn all_digits(s: Seq<char>) -> bool {
    forall|i: int| 0 <= i < s.len() ==> is_digit(s[i])
}

/// Value of a digit string read in base ten; the empty string reads as 0.
pub open spec fn digits_val(s: Seq<char>) -> int
    decreases s.len(),
{
    if s.len() == 0 {
        0
    } else {
        digits_val(s.drop_last()) * 10 + digit_val(s.last())
    }
}

pub open spec fn pow10(n: nat) -> int
    decreases n,
{
    if n == 0 {
        1
    } else {
        10 * pow10((n - 1) as nat)
    }
}

pub proof fn lemma_digits_val_bound(s: Seq<char>)
    requires
        all_digits(s),
    ensures
        0 <= digits_val(s) < pow10(s.len()),
    decreases s.len(),
{
    if s.len() > 0 {
        assert(all_digits(s.drop_last()));
        lemma_digits_val_bound(s.drop_last());
    }
}

pub proof fn lemma_pow10_pos(n: nat)
    ensures
        pow10(n) >= 1,
    decreases n,
{
    if n > 0 {
        lemma_pow10_pos((n - 1) as nat);
    }
}

pub proof fn lemma_pow10_le(a: nat, b: nat)
    requires
        a <= b,
    ensures
        1 <= pow10(a) <= pow10(b),
    decreases b,
{
    lemma_pow10_pos(a);
    if a < b {
        lemma_pow10_le(a, (b - 1) as nat);
    }
}

/// Hundredths encoded by the first two fraction digits; missing digits
/// read as zero.
pub open spec fn frac_centi(f: Seq<char>) -> int {
    if f.len() == 0 {
        0
    } else if f.len() == 1 {
        digit_val(f[0]) * 10
    } else {
        digit_val(f[0]) * 10 + digit_val(f[1])
    }
}

/// The rating, in hundredths, encoded by `s`: the integer part (one to
/// seven digits) times one hundred plus the first two fraction digits;
/// zero for anything outside that grammar.
pub open spec fn rating_centi_of(s: Seq<char>) -> u32 {
    let d = first_occ(s, '.');
    if d < 0 || d >= s.len() {
        if 1 <= s.len() <= 7 && all_digits(s) {
            (digits_val(s) * 100) as u32
        } else {
            0
        }
    } else {
        let ip = s.subrange(0, d);
        let fp = s.subrange(d + 1, s.len() as int);
        if 1 <= ip.len() <= 7 && all_digits(ip) && all_digits(fp) {
            (digits_val(ip) * 100 + frac_centi(fp)) as u32
        } else {
            0
        }
    }
}

/// Reads `s` as a rating in hundredths, degrading to zero when `s` is
/// outside the rating grammar.
pub fn parse_rating(s: &str) -> (r: u32)
    ensures
        r == rating_centi_of(s@),
{
    let n = s.unicode_len();
    let mut i: usize = 0;
    let mut dot: usize = n;
    while i < n
        invariant_except_break
            dot == n,
        invariant
            n == s@.len(),
            i <= n,
            dot <= n,
            forall|j: int| 0 <= j < i ==> s@[j] != '.',
        ensures
            dot == n ==> forall|j: int| 0 <= j < n ==> s@[j] != '.',
            dot < n ==> s@[dot as int] == '.' && (forall|j: int| 0 <= j < dot ==> s@[j] != '.'),
        decreases n - i,
    {
        if s.get_char(i) == '.' {
            dot = i;
            break ;
        }
        i += 1;
    }
    proof {
        lemma_first_occ(s@, '.');
        if dot < n {
            assert(first_occ(s@, '.') == dot as int);
        } else {
            assert(first_occ(s@, '.') == -1);
        }
    }
    let ghost ip: Seq<char> = if dot == n {
        s@
    } else {
        s@.subrange(0, dot as int)
    };
    if dot == 0 || dot > 7 {
        return 0;
    }
    let mut acc: u32 = 0;
    let mut j: usize = 0;
    while j < dot
        invariant
            n == s@.len(),
            dot <= n,
            1 <= dot <= 7,
            j <= dot,
            first_occ(s@, '.') == (if dot == n {
                -1int
            } else {
                dot as int
            }),
            ip == (if dot == n {
                s@
            } else {
                s@.subrange(0, dot as int)
            }),
            forall|k: int| 0 <= k < j ==> is_digit(ip[k]),
            acc == digits_val(ip.subrange(0, j as int)),
        decreases dot - j,
    {
        let c = s.get_char(j);
        let code = c as u32;
        assert(ip[j as int] == s@[j as int]);
        if code < 48 || code > 57 {
            proof {
                assert(c as int == code as int);
                assert(!is_digit(ip[j as int]));
                assert(!all_digits(ip));
                assert(rating_centi_of(s@) == 0);
            }
            return 0;
        }
        proof {
            assert(all_digits(ip.subrange(0, j as int)));
            lemma_digits_val_bound(ip.subrange(0, j as int));
            lemma_pow10_le(j as nat, 6);
            reveal_with_fuel(pow10, 8);
            assert(pow10(6) == 1000000);
        }
        let d = code - 48;
        assert(ip.subrange(0, j + 1).drop_last() =~= ip.subrange(0, j as int));
        assert(ip.subrange(0, j + 1).last() == ip[j as int]);
        acc = acc * 10 + d;
        j += 1;
    }
    assert(ip.subrange(0, dot as int) =~= ip);
    assert(all_digits(ip));
    proof {
        lemma_digits_val_bound(ip);
        lemma_pow10_le(ip.len(), 7);
        reveal_with_fuel(pow10, 9);
        assert(pow10(7) == 10000000);
        assert(acc <= 9999999);
    }
    if dot == n {
        return acc * 100;
    }
    let ghost fp: Seq<char> = s@.subrange(dot + 1, n as int);
    let mut fc: u32 = 0;
    let mut k: usize = dot + 1;
    while k < n
        invariant
            n == s@.len(),
            dot < n,
            first_occ(s@, '.') == dot as int,
            fp == s@.subrange(dot + 1, n as int),
            dot + 1 <= k <= n,
            forall|m: int| 0 <= m < k - dot - 1 ==> is_digit(fp[m]),
            fc == frac_centi(fp.subrange(0, if k - dot - 1 > 2 {
                2int
            } else {
                k - dot - 1
            })),
        decreases n - k,
    {
        let c = s.get_char(k);
        let code = c as u32;
        assert(fp[k - dot - 1] == s@[k as int]);
        if code < 48 || code > 57 {
            proof {
                assert(c as int == code as int);
                assert(!is_digit(fp[k - dot - 1]));
                assert(!all_digits(fp));
                assert(rating_centi_of(s@) == 0);
            }
            return 0;
        }
        if k == dot + 1 {
            fc = (code - 48) * 10;
            assert(fp.subrange(0, 1).len() == 1);
        } else if k == dot + 2 {
            fc = fc + (code - 48);
            assert(fp.subrange(0, 2)[0] == fp[0]);
            assert(fp.subrange(0, 2)[1] == fp[1]);
            assert(fp.subrange(0, 1)[0] == fp[0]);
        }
        k += 1;
    }
    assert(all_digits(fp));
    proof {
        if fp.len() >= 2 {
            assert(fp.subrange(0, 2)[0] == fp[0]);
            assert(fp.subrange(0, 2)[1] == fp[1]);
            assert(fc == frac_centi(fp));
            assert(fc <= 99);
        } else {
            assert(fp.subrange(0, fp.len() as int) =~= fp);
            assert(fc <= 90);
        }
    }
    acc * 100 + fc
}

} // verus!
