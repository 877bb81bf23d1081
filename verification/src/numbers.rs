use vstd::prelude::*;

verus! {

/// The character of a single decimal digit.
pub open spec fn digit_char(d: int) -> char {
    if d == 0 {
        '0'
    } else if d == 1 {
        '1'
    } else if d == 2 {
        '2'
    } else if d == 3 {
        '3'
    } else if d == 4 {
        '4'
    } else if d == 5 {
        '5'
    } else if d == 6 {
        '6'
    } else if d == 7 {
        '7'
    } else if d == 8 {
        '8'
    } else {
        '9'
    }
}

/// The value of a decimal digit character; anything else is worth a
/// negative mark.
pub open spec fn digit_val(c: char) -> int {
    if c == '0' {
        0
    } else if c == '1' {
        1
    } else if c == '2' {
        2
    } else if c == '3' {
        3
    } else if c == '4' {
        4
    } else if c == '5' {
        5
    } else if c == '6' {
        6
    } else if c == '7' {
        7
    } else if c == '8' {
        8
    } else if c == '9' {
        9
    } else {
        -1
    }
}

/// `c` is a decimal digit.
pub open spec fn is_digit(c: char) -> bool {
    digit_val(c) >= 0
}

/// Every character of `s` is a decimal digit.
pub open spec fn all_digits(s: Seq<char>) -> bool {
    forall|i: int| 0 <= i < s.len() ==> is_digit(s[i])
}

/// The decimal writing of a natural number, most significant digit first,
/// without leading zeros (a lone zero for zero itself).
pub open spec fn dec_of(n: nat) -> Seq<char>
    decreases n,
{
    if n < 10 {
        seq![digit_char(n as int)]
    } else {
        dec_of(n / 10) + seq![digit_char((n % 10) as int)]
    }
}

/// The numeric value of a digit string.
pub open spec fn dec_val(s: Seq<char>) -> nat
    decreases s.len(),
{
    if s.len() == 0 {
        0
    } else {
        dec_val(s.drop_last()) * 10 + (if digit_val(s.last()) >= 0 {
            digit_val(s.last()) as nat
        } else {
            0
        })
    }
}

/// What a nonempty all-digit string means as a `u64`, when it fits.
pub open spec fn parse_u64_opt(s: Seq<char>) -> Option<u64> {
    if s.len() > 0 && all_digits(s) && dec_val(s) <= u64::MAX {
        Some(dec_val(s) as u64)
    } else {
        None
    }
}

/// The decimal writing of a signed value: a minus sign before the magnitude
/// for negative values.
pub open spec fn dec_of_i64(v: int) -> Seq<char> {
    if v < 0 {
        seq!['-'] + dec_of((-v) as nat)
    } else {
        dec_of(v as nat)
    }
}

/// What a string means as an `i64`: an optional minus sign before a
/// nonempty all-digit magnitude that fits.
pub open spec fn parse_i64_opt(s: Seq<char>) -> Option<i64> {
    if s.len() > 0 && s[0] == '-' {
        let t = s.drop_first();
        if t.len() > 0 && all_digits(t) && dec_val(t) <= 0x8000000000000000 {
            Some((-(dec_val(t) as int)) as i64)
        } else {
            None
        }
    } else if s.len() > 0 && all_digits(s) && dec_val(s) <= i64::MAX {
        Some(dec_val(s) as i64)
    } else {
        None
    }
}

/// What a string means as a `u32`, when it fits.
pub open spec fn parse_u32_opt(s: Seq<char>) -> Option<u32> {
    if s.len() > 0 && all_digits(s) && dec_val(s) <= u32::MAX {
        Some(dec_val(s) as u32)
    } else {
        None
    }
}

/// What a string means as a `u8`, when it fits.
pub open spec fn parse_u8_opt(s: Seq<char>) -> Option<u8> {
    if s.len() > 0 && all_digits(s) && dec_val(s) <= u8::MAX {
        Some(dec_val(s) as u8)
    } else {
        None
    }
}

/// The decimal writing of a number is a nonempty digit string whose value
/// is the number again: rendering and parsing invert each other.
pub proof fn lemma_dec_round_trip(n: nat)
    ensures
        dec_of(n).len() > 0,
        all_digits(dec_of(n)),
        dec_val(dec_of(n)) == n,
    decreases n,
{
    if n < 10 {
        assert(dec_of(n) == seq![digit_char(n as int)]);
        assert(dec_val(dec_of(n)) == dec_val(dec_of(n).drop_last()) * 10 + n) by {
            assert(dec_of(n).last() == digit_char(n as int));
            assert(digit_val(digit_char(n as int)) == n);
            assert(dec_of(n).drop_last() =~= Seq::<char>::empty());
        }
    } else {
        lemma_dec_round_trip(n / 10);
        let w = dec_of(n / 10) + seq![digit_char((n % 10) as int)];
        assert(dec_of(n) == w);
        assert(w.drop_last() =~= dec_of(n / 10));
        assert(w.last() == digit_char((n % 10) as int));
        assert(digit_val(digit_char((n % 10) as int)) == n % 10);
        assert(dec_val(w) == dec_val(dec_of(n / 10)) * 10 + n % 10);
        assert(dec_val(w) == (n / 10) * 10 + n % 10);
        assert((n / 10) * 10 + n % 10 == n) by (nonlinear_arith);
        assert(all_digits(w)) by {
            assert(forall|i: int|
                0 <= i < w.len() - 1 ==> w[i] == dec_of(n / 10)[i]);
        }
    }
}

/// A digit string is worth at least as much as any of its prefixes.
proof fn lemma_dec_val_prefix_le(s: Seq<char>, k: int)
    requires
        0 <= k <= s.len(),
        all_digits(s),
    ensures
        dec_val(s.take(k)) <= dec_val(s),
    decreases s.len() - k,
{
    if k < s.len() {
        lemma_dec_val_prefix_le(s, k + 1);
        let a = s.take(k);
        let b = s.take(k + 1);
        assert(b.drop_last() =~= a);
        assert(dec_val(b) == dec_val(a) * 10 + (if digit_val(b.last()) >= 0 {
            digit_val(b.last()) as nat
        } else {
            0
        }));
        assert(dec_val(a) <= dec_val(a) * 10) by (nonlinear_arith);
    } else {
        assert(s.take(k) =~= s);
    }
}

/// The digit character of a value below ten.
fn char_of_digit(d: u64) -> (r: char)
    requires
        d < 10,
    ensures
        r == digit_char(d as int),
{
    if d == 0 {
        '0'
    } else if d == 1 {
        '1'
    } else if d == 2 {
        '2'
    } else if d == 3 {
        '3'
    } else if d == 4 {
        '4'
    } else if d == 5 {
        '5'
    } else if d == 6 {
        '6'
    } else if d == 7 {
        '7'
    } else if d == 8 {
        '8'
    } else {
        '9'
    }
}

/// The value of a digit character; nothing for any other character.
fn digit_of(c: char) -> (r: Option<u64>)
    ensures
        match r {
            Some(d) => is_digit(c) && d as int == digit_val(c),
            None => !is_digit(c),
        },
{
    if c == '0' {
        Some(0)
    } else if c == '1' {
        Some(1)
    } else if c == '2' {
        Some(2)
    } else if c == '3' {
        Some(3)
    } else if c == '4' {
        Some(4)
    } else if c == '5' {
        Some(5)
    } else if c == '6' {
        Some(6)
    } else if c == '7' {
        Some(7)
    } else if c == '8' {
        Some(8)
    } else if c == '9' {
        Some(9)
    } else {
        None
    }
}

/// Writes a `u64` in decimal.
#[verifier::loop_isolation(true)]
pub fn u64_to_chars(n: u64) -> (r: Vec<char>)
    ensures
        r@ == dec_of(n as nat),
{
    if n == 0 {
        let r: Vec<char> = vec!['0'];
        proof {
            assert(r@ =~= seq![digit_char(0)]);
        }
        return r;
    }
    let mut tmp: Vec<char> = Vec::new();
    let mut m: u64 = n;
    proof {
        assert(dec_of(n as nat) =~= dec_of(n as nat) + tmp@.reverse());
    }
    loop
        invariant_except_break
            m > 0,
            dec_of(n as nat) == dec_of(m as nat) + tmp@.reverse(),
        ensures
            tmp@.len() > 0,
            dec_of(n as nat) == tmp@.reverse(),
        decreases m,
    {
        let c: char = char_of_digit(m % 10);
        let ghost before = tmp@;
        tmp.push(c);
        proof {
            assert(tmp@.reverse() =~= seq![c] + before.reverse());
        }
        let m2: u64 = m / 10;
        proof {
            if m < 10 {
                assert(dec_of(m as nat) == seq![digit_char(m as int)]);
                assert(m % 10 == m);
                assert(dec_of(n as nat) =~= seq![c] + before.reverse());
            } else {
                assert(dec_of(m as nat) == dec_of((m as nat) / 10) + seq![digit_char(
                    ((m as nat) % 10) as int,
                )]);
                assert(m2 as nat == (m as nat) / 10);
                assert(dec_of(n as nat) =~= dec_of(m2 as nat) + (seq![c] + before.reverse()))
                ;
            }
        }
        m = m2;
        if m == 0 {
            break ;
        }
    }
    let nlen: usize = tmp.len();
    let mut r: Vec<char> = Vec::new();
    let mut i: usize = nlen;
    while i > 0
        invariant
            i <= nlen,
            nlen == tmp@.len(),
            r@.len() == nlen - i,
            forall|j: int| 0 <= j < r@.len() ==> r@[j] == tmp@[nlen - 1 - j],
        decreases i,
    {
        i = i - 1;
        r.push(tmp[i]);
    }
    proof {
        assert(r@ =~= tmp@.reverse());
    }
    r
}

/// Reads a `u64` from a nonempty all-digit string; anything else, or a
/// value out of range, is nothing.
pub fn parse_u64_chars(s: &Vec<char>) -> (r: Option<u64>)
    ensures
        r == parse_u64_opt(s@),
{
    let n: usize = s.len();
    if n == 0 {
        return None;
    }
    let mut acc: u64 = 0;
    let mut i: usize = 0;
    while i < n
        invariant
            i <= n,
            n == s@.len(),
            forall|j: int| 0 <= j < i ==> is_digit(s@[j]),
            acc == dec_val(s@.take(i as int)),
        decreases n - i,
    {
        let c: char = s[i];
        let dv = digit_of(c);
        let d: u64 = match dv {
            Some(d) => d,
            None => {
                proof {
                    assert(!is_digit(s@[i as int]));
                }
                return None;
            },
        };
        proof {
            assert(is_digit(s@[i as int]));
            assert(d as int == digit_val(s@[i as int]));
            assert(s@.take(i + 1 as int).drop_last() =~= s@.take(i as int));
            assert(s@.take(i + 1 as int).last() == s@[i as int]);
        }
        if acc > (u64::MAX - d) / 10 {
            proof {
                assert(dec_val(s@.take(i + 1 as int)) == acc * 10 + d);
                assert(acc * 10 + d > u64::MAX) by (nonlinear_arith)
                    requires
                        acc > (u64::MAX - d) / 10,
                        d < 10,
                ;
                if all_digits(s@) {
                    lemma_dec_val_prefix_le(s@, i + 1);
                }
            }
            return None;
        }
        acc = acc * 10 + d;
        i = i + 1;
    }
    proof {
        assert(s@.take(n as int) =~= s@);
    }
    Some(acc)
}

/// Writes an `i64` in decimal, minus sign first for negative values.
pub fn i64_to_chars(v: i64) -> (r: Vec<char>)
    ensures
        r@ == dec_of_i64(v as int),
{
    if v >= 0 {
        u64_to_chars(v as u64)
    } else {
        let m: u64 = if v == i64::MIN {
            9223372036854775808u64
        } else {
            (-v) as u64
        };
        let digits = u64_to_chars(m);
        let mut r: Vec<char> = Vec::new();
        r.push('-');
        let out = crate::chars::concat_chars(&r, &digits);
        proof {
            assert(out@ =~= seq!['-'] + dec_of((-(v as int)) as nat));
        }
        out
    }
}

/// Reads an `i64`: an optional minus sign before an all-digit magnitude.
pub fn parse_i64_chars(s: &Vec<char>) -> (r: Option<i64>)
    ensures
        r == parse_i64_opt(s@),
{
    let n: usize = s.len();
    if n == 0 {
        return None;
    }
    if s[0] == '-' {
        let t = crate::chars::subvec(s, 1, n);
        proof {
            assert(t@ =~= s@.drop_first());
        }
        let m = parse_u64_chars(&t);
        match m {
            Some(mv) => {
                if mv > 9223372036854775808u64 {
                    return None;
                }
                if mv == 9223372036854775808u64 {
                    Some(i64::MIN)
                } else {
                    Some(-(mv as i64))
                }
            },
            None => {
                proof {
                    if t@.len() > 0 && all_digits(t@) && dec_val(t@) <= 0x8000000000000000 {
                        assert(dec_val(t@) <= u64::MAX);
                    }
                }
                None
            },
        }
    } else {
        let m = parse_u64_chars(s);
        match m {
            Some(mv) => {
                if mv > i64::MAX as u64 {
                    None
                } else {
                    Some(mv as i64)
                }
            },
            None => None,
        }
    }
}

/// Writes a `u32` in decimal.
pub fn u32_to_chars(v: u32) -> (r: Vec<char>)
    ensures
        r@ == dec_of(v as nat),
{
    u64_to_chars(v as u64)
}

/// Reads a `u32` from an all-digit string that fits.
pub fn parse_u32_chars(s: &Vec<char>) -> (r: Option<u32>)
    ensures
        r == parse_u32_opt(s@),
{
    let m = parse_u64_chars(s);
    match m {
        Some(mv) => {
            if mv > u32::MAX as u64 {
                None
            } else {
                Some(mv as u32)
            }
        },
        None => None,
    }
}

/// Writes a `u8` in decimal.
pub fn u8_to_chars(v: u8) -> (r: Vec<char>)
    ensures
        r@ == dec_of(v as nat),
{
    u64_to_chars(v as u64)
}

/// Reads a `u8` from an all-digit string that fits.
pub fn parse_u8_chars(s: &Vec<char>) -> (r: Option<u8>)
    ensures
        r == parse_u8_opt(s@),
{
    let m = parse_u64_chars(s);
    match m {
        Some(mv) => {
            if mv > u8::MAX as u64 {
                None
            } else {
                Some(mv as u8)
            }
        },
        None => None,
    }
}

/// Round trip of the signed writing: parsing what was written returns the
/// value.
pub proof fn lemma_i64_round_trip(v: int)
    requires
        i64::MIN <= v <= i64::MAX,
    ensures
        parse_i64_opt(dec_of_i64(v)) == Some(v as i64),
{
    if v < 0 {
        lemma_dec_round_trip((-v) as nat);
        let s = seq!['-'] + dec_of((-v) as nat);
        assert(s[0] == '-');
        assert(s.drop_first() =~= dec_of((-v) as nat));
        assert(dec_val(s.drop_first()) == (-v) as nat);
        assert((-v) as nat <= 0x8000000000000000);
    } else {
        lemma_dec_round_trip(v as nat);
        let s = dec_of(v as nat);
        assert(s[0] != '-') by {
            if s.len() >= 1 && s[0] == '-' {
                assert(is_digit(s[0]));
            }
        }
        assert(dec_val(s) <= i64::MAX);
    }
}

} // verus!
