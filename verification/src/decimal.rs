//! Decimal text for the counters: rendering an integer as its digit string
//! and reading one back, with the round-trip proved.

use vstd::arithmetic::div_mod::lemma_fundamental_div_mod;
use vstd::prelude::*;
use vstd::string::StringExecFns;

verus! {

pub open spec fn is_digit(c: char) -> bool {
    c == '0' || c == '1' || c == '2' || c == '3' || c == '4' || c == '5' || c == '6' || c == '7'
        || c == '8' || c == '9'
}

pub open spec fn digit_char(d: nat) -> char
    recommends
        d < 10,
{
    if d == 0 {
        '0'
    } else if d == 1 {
        '1'
    } else if d == 2 {
        '2'
    } else if d == 3 {
        '3'
    } else if d == 4 {
        '4'
    } else if d == 5 {
        '5'
    } else if d == 6 {
        '6'
    } else if d == 7 {
        '7'
    } else if d == 8 {
        '8'
    } else {
        '9'
    }
}

pub open spec fn digit_val(c: char) -> nat
    recommends
        is_digit(c),
{
    if c == '0' {
        0
    } else if c == '1' {
        1
    } else if c == '2' {
        2
    } else if c == '3' {
        3
    } else if c == '4' {
        4
    } else if c == '5' {
        5
    } else if c == '6' {
        6
    } else if c == '7' {
        7
    } else if c == '8' {
        8
    } else {
        9
    }
}

/// Decimal digit string of `n`, most significant digit first.
pub open spec fn spec_dec(n: nat) -> Seq<char>
    decreases n,
{
    if n < 10 {
        seq![digit_char(n)]
    } else {
        spec_dec(n / 10).push(digit_char(n % 10))
    }
}

pub open spec fn all_digits(s: Seq<char>) -> bool {
    forall|i: int| 0 <= i < s.len() ==> is_digit(#[trigger] s[i])
}

/// Numeric value of a digit string, read left to right.
pub open spec fn spec_dec_val(s: Seq<char>) -> nat
    decreases s.len(),
{
    if s.len() == 0 {
        0
    } else {
        spec_dec_val(s.drop_last()) * 10 + digit_val(s.last())
    }
}

/// What parsing a counter field yields: the value of an all-digit string
/// that fits, and the zero default otherwise.
pub open spec fn spec_parse_u16(s: Seq<char>) -> u16 {
    if s.len() > 0 && all_digits(s) && spec_dec_val(s) <= u16::MAX {
        spec_dec_val(s) as u16
    } else {
        0
    }
}

/// The digit string of `n` is nonempty, made of digits only, and reads back
/// as `n`.
pub proof fn lemma_dec_props(n: nat)
    ensures
        spec_dec(n).len() >= 1,
        all_digits(spec_dec(n)),
        spec_dec_val(spec_dec(n)) == n,
    decreases n,
{
    if n < 10 {
        let s = spec_dec(n);
        assert(s =~= Seq::empty().push(digit_char(n)));
        assert(s.drop_last() =~= Seq::<char>::empty());
        assert(spec_dec_val(s.drop_last()) == 0);
        assert(s.last() == digit_char(n));
        assert(digit_val(digit_char(n)) == n);
        assert(spec_dec_val(s) == 0 * 10 + digit_val(digit_char(n)));
    } else {
        lemma_dec_props(n / 10);
        let s = spec_dec(n / 10);
        let d = digit_char(n % 10);
        assert(spec_dec(n) == s.push(d));
        assert(s.push(d).drop_last() =~= s);
        assert(s.push(d).last() == d);
        assert(spec_dec_val(s.push(d)) == spec_dec_val(s) * 10 + digit_val(d));
        assert(digit_val(d) == n % 10);
        lemma_fundamental_div_mod(n as int, 10);
        assert(spec_dec_val(spec_dec(n)) == (n / 10) * 10 + n % 10);
        assert forall|i: int| 0 <= i < spec_dec(n).len() implies is_digit(
            #[trigger] spec_dec(n)[i],
        ) by {
            if i < s.len() {
                assert(spec_dec(n)[i] == s[i]);
            } else {
                assert(spec_dec(n)[i] == d);
            }
        }
    }
}

/// Reading the digit string of an in-range value gives that value back.
pub proof fn lemma_parse_of_dec(n: nat)
    requires
        n <= u16::MAX,
    ensures
        spec_parse_u16(spec_dec(n)) == n,
{
    lemma_dec_props(n);
}

/// One decimal digit as a string slice.
fn digit_str(d: u64) -> (s: &'static str)
    requires
        d < 10,
    ensures
        s@ == seq![digit_char(d as nat)],
{
    if d == 0 {
        proof {
            reveal_strlit("0");
            assert("0"@ =~= seq![digit_char(0)]);
        }
        "0"
    } else if d == 1 {
        proof {
            reveal_strlit("1");
            assert("1"@ =~= seq![digit_char(1)]);
        }
        "1"
    } else if d == 2 {
        proof {
            reveal_strlit("2");
            assert("2"@ =~= seq![digit_char(2)]);
        }
        "2"
    } else if d == 3 {
        proof {
            reveal_strlit("3");
            assert("3"@ =~= seq![digit_char(3)]);
        }
        "3"
    } else if d == 4 {
        proof {
            reveal_strlit("4");
            assert("4"@ =~= seq![digit_char(4)]);
        }
        "4"
    } else if d == 5 {
        proof {
            reveal_strlit("5");
            assert("5"@ =~= seq![digit_char(5)]);
        }
        "5"
    } else if d == 6 {
        proof {
            reveal_strlit("6");
            assert("6"@ =~= seq![digit_char(6)]);
        }
        "6"
    } else if d == 7 {
        proof {
            reveal_strlit("7");
            assert("7"@ =~= seq![digit_char(7)]);
        }
        "7"
    } else if d == 8 {
        proof {
            reveal_strlit("8");
            assert("8"@ =~= seq![digit_char(8)]);
        }
        "8"
    } else {
        proof {
            reveal_strlit("9");
            assert("9"@ =~= seq![digit_char(9)]);
        }
        "9"
    }
}

/// Decimal digit string of `n`, widened to two digits with a leading zero:
/// the form a clock field takes.
pub open spec fn spec_pad2(n: nat) -> Seq<char> {
    if n < 10 {
        seq!['0'] + spec_dec(n)
    } else {
        spec_dec(n)
    }
}

/// Render `n` in decimal, zero-padded to at least two digits.
pub fn u64_to_dec_pad2(n: u64) -> (s: String)
    ensures
        s@ == spec_pad2(n as nat),
{
    if n < 10 {
        proof {
            reveal_strlit("0");
            assert("0"@ =~= seq!['0']);
        }
        let mut s = "0".to_owned();
        s.append(digit_str(n));
        proof {
            assert(s@ =~= spec_pad2(n as nat));
        }
        s
    } else {
        u64_to_dec(n)
    }
}

/// Render `n` in decimal.
pub fn u64_to_dec(n: u64) -> (s: String)
    ensures
        s@ == spec_dec(n as nat),
    decreases n,
{
    if n < 10 {
        let s = digit_str(n).to_owned();
        s
    } else {
        let mut s = u64_to_dec(n / 10);
        s.append(digit_str(n % 10));
        proof {
            assert(s@ =~= spec_dec(n as nat));
        }
        s
    }
}

/// Read a counter field: the value of an all-digit string that fits in the
/// field's type, and 0 for anything else.
pub fn parse_u16_chars(v: &Vec<char>, from: usize, to: usize) -> (r: u16)
    requires
        from <= to <= v@.len(),
    ensures
        r == spec_parse_u16(v@.subrange(from as int, to as int)),
{
    let ghost s = v@.subrange(from as int, to as int);
    let mut all_dig = true;
    let mut val: u64 = 0;
    let mut i: usize = from;
    while i < to
        invariant
            from <= i <= to <= v@.len(),
            s == v@.subrange(from as int, to as int),
            all_dig == all_digits(s.subrange(0, i - from)),
            all_dig && spec_dec_val(s.subrange(0, i - from)) <= u16::MAX ==> val == spec_dec_val(
                s.subrange(0, i - from),
            ),
            all_dig && spec_dec_val(s.subrange(0, i - from)) > u16::MAX ==> val > u16::MAX,
            val <= 655360,
        decreases to - i,
    {
        let c = v[i];
        let ghost pre = s.subrange(0, i - from);
        assert(s.subrange(0, i + 1 - from).drop_last() =~= pre);
        assert(s.subrange(0, i + 1 - from).last() == c);
        let d: u64 = digit_of(c);
        if d == 10 {
            all_dig = false;
            assert(!is_digit(s.subrange(0, i + 1 - from)[i - from]));
        } else {
            assert(is_digit(c) && d == digit_val(c));
            assert(all_digits(s.subrange(0, i + 1 - from)) == all_digits(pre)) by {
                assert(forall|j: int|
                    0 <= j < pre.len() ==> pre[j] == #[trigger] s.subrange(0, i + 1 - from)[j]);
            }
            if val <= 65535 {
                val = val * 10 + d;
            } else {
                assert(spec_dec_val(s.subrange(0, i + 1 - from)) == spec_dec_val(pre) * 10
                    + digit_val(c));
            }
        }
        i = i + 1;
    }
    assert(s.subrange(0, to - from) =~= s);
    if all_dig && to > from && val <= 65535 {
        val as u16
    } else {
        0
    }
}

/// Digit value of `c`, with 10 standing for "not a digit".
fn digit_of(c: char) -> (d: u64)
    ensures
        is_digit(c) ==> d == digit_val(c),
        !is_digit(c) ==> d == 10,
{
    if c == '0' {
        0
    } else if c == '1' {
        1
    } else if c == '2' {
        2
    } else if c == '3' {
        3
    } else if c == '4' {
        4
    } else if c == '5' {
        5
    } else if c == '6' {
        6
    } else if c == '7' {
        7
    } else if c == '8' {
        8
    } else if c == '9' {
        9
    } else {
        10
    }
}

} // verus!
