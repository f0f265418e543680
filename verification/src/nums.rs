//! Decimal-string encoding of integers.
//!
//! The table's native number attributes are decimal strings; these are the
//! canonical encodings (no sign for non-negative values, no leading zeros)
//! together with strict parsers that accept exactly the canonical forms.

use vstd::prelude::*;

verus! {

/// The character for one decimal digit value.
pub open spec fn dec_digit(d: nat) -> char {
    if d == 0 {
        '0'
    } else if d == 1 {
        '1'
    } else if d == 2 {
        '2'
    } else if d == 3 {
        '3'
    } else if d == 4 {
        '4'
    } else if d == 5 {
        '5'
    } else if d == 6 {
        '6'
    } else if d == 7 {
        '7'
    } else if d == 8 {
        '8'
    } else {
        '9'
    }
}

/// Whether a character is a decimal digit.
pub open spec fn is_digit_char(c: char) -> bool {
    c == '0' || c == '1' || c == '2' || c == '3' || c == '4' || c == '5' || c == '6' || c == '7'
        || c == '8' || c == '9'
}

/// The value of a decimal digit character.
pub open spec fn digit_val(c: char) -> nat {
    if c == '0' {
        0
    } else if c == '1' {
        1
    } else if c == '2' {
        2
    } else if c == '3' {
        3
    } else if c == '4' {
        4
    } else if c == '5' {
        5
    } else if c == '6' {
        6
    } else if c == '7' {
        7
    } else if c == '8' {
        8
    } else {
        9
    }
}

/// The canonical decimal encoding of a non-negative integer.
pub open spec fn dec_of_nat(n: nat) -> Seq<char>
    decreases n,
{
    if n < 10 {
        seq![dec_digit(n)]
    } else {
        dec_of_nat(n / 10).push(dec_digit(n % 10))
    }
}

/// The canonical decimal encoding of an integer, with a leading minus sign
/// for negative values.
pub open spec fn dec_of_int(n: int) -> Seq<char> {
    if n < 0 {
        seq!['-'] + dec_of_nat((-n) as nat)
    } else {
        dec_of_nat(n as nat)
    }
}

/// The numeric value of a sequence of digit characters.
pub open spec fn val_of_digits(s: Seq<char>) -> nat
    decreases s.len(),
{
    if s.len() == 0 {
        0
    } else {
        val_of_digits(s.drop_last()) * 10 + digit_val(s.last())
    }
}

/// A canonical unsigned decimal string: nonempty, all digits, and no
/// leading zero unless the string is exactly `"0"`.
pub open spec fn is_canonical_dec(s: Seq<char>) -> bool {
    &&& s.len() > 0
    &&& forall|i: int| 0 <= i < s.len() ==> is_digit_char(#[trigger] s[i])
    &&& (s[0] == '0' ==> s.len() == 1)
}

/// A digit character round-trips through its value.
proof fn lemma_digit_roundtrip(d: nat)
    requires
        d < 10,
    ensures
        is_digit_char(dec_digit(d)),
        digit_val(dec_digit(d)) == d,
{
    if d == 0 {
    } else if d == 1 {
    } else if d == 2 {
    } else if d == 3 {
    } else if d == 4 {
    } else if d == 5 {
    } else if d == 6 {
    } else if d == 7 {
    } else if d == 8 {
    } else {
        assert(d == 9);
    }
}

/// A digit value round-trips through its character.
proof fn lemma_char_roundtrip(c: char)
    requires
        is_digit_char(c),
    ensures
        digit_val(c) < 10,
        dec_digit(digit_val(c)) == c,
{
}

/// The canonical encoding of a value is a canonical decimal string.
pub proof fn lemma_dec_of_nat_canonical(n: nat)
    ensures
        is_canonical_dec(dec_of_nat(n)),
        val_of_digits(dec_of_nat(n)) == n,
        dec_of_nat(n)[0] == '0' ==> n == 0,
    decreases n,
{
    if n < 10 {
        lemma_digit_roundtrip(n);
        let w = dec_of_nat(n);
        assert(w =~= seq![dec_digit(n)]);
        assert(w[0] == dec_digit(n));
        assert(w.drop_last() =~= Seq::<char>::empty());
        assert(val_of_digits(Seq::<char>::empty()) == 0);
        assert(val_of_digits(w) == val_of_digits(w.drop_last()) * 10 + digit_val(w.last()));
    } else {
        lemma_dec_of_nat_canonical(n / 10);
        lemma_digit_roundtrip(n % 10);
        let p = dec_of_nat(n / 10);
        let w = dec_of_nat(n);
        assert(w =~= p.push(dec_digit(n % 10)));
        assert(w.drop_last() =~= p);
        assert(val_of_digits(w) == val_of_digits(p) * 10 + digit_val(w.last()));
        assert(w[0] == p[0]);
        assert(w.last() == dec_digit(n % 10));
        assert forall|i: int| 0 <= i < w.len() implies is_digit_char(#[trigger] w[i]) by {
            if i < w.len() - 1 {
                assert(w[i] == p[i]);
            } else {
                assert(w[i] == w.last());
            }
        }
        assert(n / 10 != 0);
        assert(w[0] != '0');
    }
}

/// A canonical decimal string is the canonical encoding of its value.
pub proof fn lemma_canonical_dec_of_val(s: Seq<char>)
    requires
        is_canonical_dec(s),
    ensures
        dec_of_nat(val_of_digits(s)) == s,
    decreases s.len(),
{
    let v = val_of_digits(s);
    if s.len() == 1 {
        assert(v == digit_val(s[0])) by {
            assert(s.drop_last() =~= Seq::<char>::empty());
            assert(val_of_digits(Seq::<char>::empty()) == 0);
            assert(s.last() == s[0]);
        }
        assert(v < 10) by {
            lemma_char_roundtrip(s[0]);
        }
        assert(dec_digit(v) == s[0]) by {
            lemma_char_roundtrip(s[0]);
        }
        assert(dec_of_nat(v) =~= s);
    } else {
        let p = s.drop_last();
        assert(p[0] == s[0]);
        assert(s[0] != '0');
        assert(is_canonical_dec(p));
        lemma_canonical_dec_of_val(p);
        let pv = val_of_digits(p);
        assert(v == pv * 10 + digit_val(s.last()));
        assert(pv > 0) by {
            if pv == 0 {
                lemma_dec_of_nat_canonical(0);
                assert(dec_of_nat(0) =~= seq!['0']);
                assert(p[0] == '0');
            }
        }
        assert(v >= 10);
        assert(v / 10 == pv && v % 10 == digit_val(s.last())) by {
            assert(digit_val(s.last()) < 10);
        }
        assert(dec_of_nat(v) =~= dec_of_nat(pv).push(dec_digit((v % 10) as nat)));
        assert(dec_digit(digit_val(s.last())) == s.last()) by {
            lemma_char_roundtrip(s.last());
        }
        assert(dec_of_nat(v) =~= p.push(s.last()));
        assert(p.push(s.last()) =~= s);
    }
}

/// Canonical encodings of distinct values differ.
pub proof fn lemma_dec_of_nat_injective(m: nat, n: nat)
    requires
        dec_of_nat(m) == dec_of_nat(n),
    ensures
        m == n,
{
    lemma_dec_of_nat_canonical(m);
    lemma_dec_of_nat_canonical(n);
}

/// A one-character string for one decimal digit value.
fn digit_str(d: u64) -> (r: &'static str)
    requires
        d < 10,
    ensures
        r@ =~= seq![dec_digit(d as nat)],
{
    proof {
        reveal_strlit("0");
        reveal_strlit("1");
        reveal_strlit("2");
        reveal_strlit("3");
        reveal_strlit("4");
        reveal_strlit("5");
        reveal_strlit("6");
        reveal_strlit("7");
        reveal_strlit("8");
        reveal_strlit("9");
    }
    if d == 0 {
        "0"
    } else if d == 1 {
        "1"
    } else if d == 2 {
        "2"
    } else if d == 3 {
        "3"
    } else if d == 4 {
        "4"
    } else if d == 5 {
        "5"
    } else if d == 6 {
        "6"
    } else if d == 7 {
        "7"
    } else if d == 8 {
        "8"
    } else {
        "9"
    }
}

/// Renders a `u64` as its canonical decimal string.
pub fn u64_to_dec(n: u64) -> (r: String)
    ensures
        r@ == dec_of_nat(n as nat),
    decreases n,
{
    if n < 10 {
        digit_str(n).to_owned()
    } else {
        let mut s = u64_to_dec(n / 10);
        s.append(digit_str(n % 10));
        proof {
            assert(s@ =~= dec_of_nat((n / 10) as nat).push(dec_digit((n % 10) as nat)));
        }
        s
    }
}

/// Renders an `i64` as its canonical decimal string.
pub fn i64_to_dec(n: i64) -> (r: String)
    ensures
        r@ == dec_of_int(n as int),
{
    if n >= 0 {
        u64_to_dec(n as u64)
    } else {
        let mag: u64 = if n == i64::MIN {
            9223372036854775808u64
        } else {
            (-n) as u64
        };
        let digits = u64_to_dec(mag);
        let mut s = String::from_str("-");
        proof {
            reveal_strlit("-");
            assert(s@ =~= seq!['-']);
        }
        s.append(digits.as_str());
        proof {
            assert(s@ =~= seq!['-'] + dec_of_nat((-(n as int)) as nat));
        }
        s
    }
}

/// The value of one decimal digit character, or `None` for any other
/// character.
fn digit_of_char(c: char) -> (r: Option<u64>)
    ensures
        match r {
            Some(v) => is_digit_char(c) && v < 10 && v as nat == digit_val(c),
            None => !is_digit_char(c),
        },
{
    if c == '0' {
        Some(0)
    } else if c == '1' {
        Some(1)
    } else if c == '2' {
        Some(2)
    } else if c == '3' {
        Some(3)
    } else if c == '4' {
        Some(4)
    } else if c == '5' {
        Some(5)
    } else if c == '6' {
        Some(6)
    } else if c == '7' {
        Some(7)
    } else if c == '8' {
        Some(8)
    } else if c == '9' {
        Some(9)
    } else {
        None
    }
}

/// Parses a canonical unsigned decimal string, rejecting anything that
/// `u64_to_dec` could not have produced.
pub fn dec_to_u64(s: &str) -> (r: Option<u64>)
    ensures
        match r {
            Some(v) => s@ == dec_of_nat(v as nat),
            None => forall|v: u64| s@ != dec_of_nat(v as nat),
        },
{
    let len = s.unicode_len();
    if len == 0 {
        proof {
            assert forall|v: u64| s@ != dec_of_nat(v as nat) by {
                lemma_dec_of_nat_canonical(v as nat);
            }
        }
        return None;
    }
    let first = s.get_char(0);
    if first == '0' && len != 1 {
        proof {
            assert forall|v: u64| s@ != dec_of_nat(v as nat) by {
                lemma_dec_of_nat_canonical(v as nat);
            }
        }
        return None;
    }
    let mut acc: u64 = 0;
    let mut i: usize = 0;
    while i < len
        invariant
            len == s@.len(),
            0 < len,
            i <= len,
            forall|j: int| 0 <= j < i ==> is_digit_char(#[trigger] s@[j]),
            acc as nat == val_of_digits(s@.subrange(0, i as int)),
            s@[0] == '0' ==> len == 1,
        decreases len - i,
    {
        let c = s.get_char(i);
        match digit_of_char(c) {
            None => {
                proof {
                    assert forall|v: u64| s@ != dec_of_nat(v as nat) by {
                        lemma_dec_of_nat_canonical(v as nat);
                    }
                }
                return None;
            },
            Some(d) => {
                if acc > (u64::MAX - d) / 10 {
                    proof {
                        lemma_parse_overflow(s@, i as int, acc as nat, d as nat);
                    }
                    return None;
                }
                proof {
                    assert(s@.subrange(0, i + 1).drop_last() =~= s@.subrange(0, i as int));
                }
                acc = acc * 10 + d;
                i = i + 1;
            },
        }
    }
    proof {
        assert(s@.subrange(0, len as int) =~= s@);
        assert(is_canonical_dec(s@));
        lemma_canonical_dec_of_val(s@);
    }
    Some(acc)
}

/// If a strict prefix of a digit string already carries a value beyond
/// what any `u64` digit string can reach, no `u64` encodes the string.
proof fn lemma_parse_overflow(s: Seq<char>, i: int, acc: nat, d: nat)
    requires
        0 <= i < s.len(),
        acc == val_of_digits(s.subrange(0, i)),
        d == digit_val(s[i]),
        d < 10,
        acc * 10 + d > u64::MAX,
        forall|j: int| 0 <= j <= i ==> is_digit_char(#[trigger] s[j]),
    ensures
        forall|v: u64| s != dec_of_nat(v as nat),
{
    assert forall|v: u64| s != dec_of_nat(v as nat) by {
        if s == dec_of_nat(v as nat) {
            lemma_dec_of_nat_canonical(v as nat);
            lemma_val_prefix_le(s, i + 1);
            assert(s.subrange(0, i + 1).drop_last() =~= s.subrange(0, i));
            assert(val_of_digits(s.subrange(0, i + 1)) == acc * 10 + d);
        }
    }
}

/// The value of a digit string is at least the value of any of its
/// prefixes, provided every character is a digit.
proof fn lemma_val_prefix_le(s: Seq<char>, k: int)
    requires
        0 <= k <= s.len(),
    ensures
        val_of_digits(s.subrange(0, k)) <= val_of_digits(s),
    decreases s.len() - k,
{
    if k < s.len() {
        lemma_val_prefix_le(s, k + 1);
        assert(s.subrange(0, k + 1).drop_last() =~= s.subrange(0, k));
        assert(val_of_digits(s.subrange(0, k + 1)) == val_of_digits(s.subrange(0, k)) * 10
            + digit_val(s.subrange(0, k + 1).last()));
    } else {
        assert(s.subrange(0, k) =~= s);
    }
}

/// Parses a canonical signed decimal string, rejecting anything that
/// `i64_to_dec` could not have produced.
pub fn dec_to_i64(s: &str) -> (r: Option<i64>)
    ensures
        match r {
            Some(v) => s@ == dec_of_int(v as int),
            None => forall|v: i64| s@ != dec_of_int(v as int),
        },
{
    let len = s.unicode_len();
    if len == 0 {
        proof {
            assert forall|v: i64| s@ != dec_of_int(v as int) by {
                lemma_dec_of_int_nonempty(v as int);
            }
        }
        return None;
    }
    if s.get_char(0) == '-' {
        let mag_str = s.substring_char(1, len);
        proof {
            assert(mag_str@ =~= s@.drop_first());
        }
        match dec_to_u64(mag_str) {
            Some(mag) => {
                if mag == 0 || mag > 9223372036854775808u64 {
                    proof {
                        lemma_neg_reject(s@, mag as nat);
                    }
                    None
                } else {
                    let v: i64 = if mag == 9223372036854775808u64 {
                        i64::MIN
                    } else {
                        -(mag as i64)
                    };
                    proof {
                        assert(s@ =~= seq!['-'] + mag_str@);
                    }
                    Some(v)
                }
            },
            None => {
                proof {
                    assert forall|v: i64| s@ != dec_of_int(v as int) by {
                        if v < 0 && s@ == dec_of_int(v as int) {
                            assert(s@.drop_first() =~= dec_of_nat((-(v as int)) as nat));
                        } else if v >= 0 && s@ == dec_of_int(v as int) {
                            lemma_dec_of_nat_canonical(v as nat);
                        }
                    }
                }
                None
            },
        }
    } else {
        match dec_to_u64(s) {
            Some(mag) => {
                if mag > i64::MAX as u64 {
                    proof {
                        assert forall|v: i64| s@ != dec_of_int(v as int) by {
                            if s@ == dec_of_int(v as int) {
                                if v < 0 {
                                    lemma_dec_of_nat_canonical((-(v as int)) as nat);
                                    assert(s@[0] == '-');
                                } else {
                                    lemma_dec_of_nat_injective(mag as nat, v as nat);
                                }
                            }
                        }
                    }
                    None
                } else {
                    Some(mag as i64)
                }
            },
            None => {
                proof {
                    assert forall|v: i64| s@ != dec_of_int(v as int) by {
                        if v < 0 && s@ == dec_of_int(v as int) {
                            assert(s@[0] == '-');
                            lemma_dec_of_nat_canonical((-(v as int)) as nat);
                            assert(is_digit_char(s@[0]));
                        }
                    }
                }
                None
            },
        }
    }
}

/// A signed canonical encoding is never empty.
proof fn lemma_dec_of_int_nonempty(v: int)
    ensures
        dec_of_int(v).len() > 0,
{
    if v < 0 {
        lemma_dec_of_nat_canonical((-v) as nat);
    } else {
        lemma_dec_of_nat_canonical(v as nat);
    }
}

/// A minus sign followed by a zero magnitude, or by a magnitude beyond
/// `i64` range, encodes no `i64`.
proof fn lemma_neg_reject(s: Seq<char>, mag: nat)
    requires
        s.len() > 0,
        s[0] == '-',
        s.drop_first() == dec_of_nat(mag),
        mag == 0 || mag > 9223372036854775808,
    ensures
        forall|v: i64| s != dec_of_int(v as int),
{
    assert forall|v: i64| s != dec_of_int(v as int) by {
        if s == dec_of_int(v as int) {
            if v >= 0 {
                lemma_dec_of_nat_canonical(v as nat);
                assert(is_digit_char(s[0]));
            } else {
                assert(s.drop_first() =~= dec_of_nat((-(v as int)) as nat));
                lemma_dec_of_nat_injective(mag, (-(v as int)) as nat);
            }
        }
    }
}

/// The `u32` a canonical decimal string denotes, if any.
pub open spec fn spec_parse_u32(s: Seq<char>) -> Option<int> {
    if is_canonical_dec(s) && val_of_digits(s) <= u32::MAX {
        Some(val_of_digits(s) as int)
    } else {
        None
    }
}

/// The `i64` a canonical signed decimal string denotes, if any.
pub open spec fn spec_parse_i64(s: Seq<char>) -> Option<int> {
    if s.len() > 0 && s[0] == '-' {
        let m = s.drop_first();
        if is_canonical_dec(m) && 0 < val_of_digits(m) <= 0x8000000000000000 {
            Some(-(val_of_digits(m) as int))
        } else {
            None
        }
    } else if is_canonical_dec(s) && val_of_digits(s) <= i64::MAX {
        Some(val_of_digits(s) as int)
    } else {
        None
    }
}

/// Parses a canonical decimal string as a `u32`.
pub fn parse_u32(s: &str) -> (r: Option<u32>)
    ensures
        match r {
            Some(v) => spec_parse_u32(s@) == Some(v as int),
            None => spec_parse_u32(s@) is None,
        },
{
    match dec_to_u64(s) {
        Some(v) => {
            proof {
                lemma_dec_of_nat_canonical(v as nat);
            }
            if v <= 0xffffffffu64 {
                Some(v as u32)
            } else {
                None
            }
        },
        None => {
            proof {
                if is_canonical_dec(s@) && val_of_digits(s@) <= u32::MAX {
                    lemma_canonical_dec_of_val(s@);
                    assert(s@ == dec_of_nat(val_of_digits(s@)));
                }
            }
            None
        },
    }
}

/// Parses a canonical signed decimal string as an `i64`.
pub fn parse_i64(s: &str) -> (r: Option<i64>)
    ensures
        match r {
            Some(v) => spec_parse_i64(s@) == Some(v as int),
            None => spec_parse_i64(s@) is None,
        },
{
    match dec_to_i64(s) {
        Some(v) => {
            proof {
                if v >= 0 {
                    lemma_dec_of_nat_canonical(v as nat);
                    assert(is_digit_char(s@[0]));
                } else {
                    let m = s@.drop_first();
                    assert(m =~= dec_of_nat((-(v as int)) as nat));
                    lemma_dec_of_nat_canonical((-(v as int)) as nat);
                    assert(val_of_digits(m) == -(v as int));
                }
            }
            Some(v)
        },
        None => {
            proof {
                if s@.len() > 0 && s@[0] == '-' {
                    let m = s@.drop_first();
                    if is_canonical_dec(m) && 0 < val_of_digits(m) <= 0x8000000000000000 {
                        lemma_canonical_dec_of_val(m);
                        let v = -(val_of_digits(m) as int);
                        assert(i64::MIN <= v < 0);
                        assert(dec_of_int(v) == seq!['-'] + dec_of_nat(val_of_digits(m)));
                        assert(s@ =~= seq!['-'] + m);
                        assert(s@ == dec_of_int((v as i64) as int));
                    }
                } else if is_canonical_dec(s@) && val_of_digits(s@) <= i64::MAX {
                    lemma_canonical_dec_of_val(s@);
                    let v = val_of_digits(s@) as int;
                    assert(s@ == dec_of_nat(val_of_digits(s@)));
                    assert(s@ == dec_of_int((v as i64) as int));
                }
            }
            None
        },
    }
}

} // verus!
