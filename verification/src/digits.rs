//! Decimal rendering of machine integers, used to build host identifiers.
//!
//! The rendering is specified by [`dec_digits`] and proved injective, which is
//! what the distinctness of host identifiers ultimately rests on.
use vstd::prelude::*;

verus! {

/// The character for one decimal digit.
pub open spec fn digit_char(d: nat) -> char {
    if d == 0 {
        '0'
    } else if d == 1 {
        '1'
    } else if d == 2 {
        '2'
    } else if d == 3 {
        '3'
    } else if d == 4 {
        '4'
    } else if d == 5 {
        '5'
    } else if d == 6 {
        '6'
    } else if d == 7 {
        '7'
    } else if d == 8 {
        '8'
    } else {
        '9'
    }
}

/// The decimal rendering of `n`, most significant digit first, no leading zeros.
pub open spec fn dec_digits(n: nat) -> Seq<char>
    decreases n,
{
    if n < 10 {
        seq![digit_char(n)]
    } else {
        dec_digits(n / 10) + seq![digit_char(n % 10)]
    }
}

/// A rendering has at least one character.
pub proof fn lemma_dec_digits_nonempty(n: nat)
    ensures
        dec_digits(n).len() >= 1,
    decreases n,
{
    if n >= 10 {
        lemma_dec_digits_nonempty(n / 10);
    }
}

/// Distinct digits render to distinct characters.
proof fn lemma_digit_char_injective(a: nat, b: nat)
    requires
        a < 10,
        b < 10,
        a != b,
    ensures
        digit_char(a) != digit_char(b),
{
}

/// Numbers of ten or more have renderings of two or more characters.
proof fn lemma_dec_digits_len_ge_two(n: nat)
    requires
        n >= 10,
    ensures
        dec_digits(n).len() >= 2,
{
    lemma_dec_digits_nonempty(n / 10);
}

/// Decimal rendering is injective: distinct numbers render to distinct strings.
pub proof fn lemma_dec_digits_injective(a: nat, b: nat)
    requires
        a != b,
    ensures
        dec_digits(a) != dec_digits(b),
    decreases a + b,
{
    if a < 10 && b < 10 {
        lemma_digit_char_injective(a, b);
        assert(dec_digits(a)[0] == digit_char(a));
        assert(dec_digits(b)[0] == digit_char(b));
    } else if a < 10 {
        lemma_dec_digits_len_ge_two(b);
    } else if b < 10 {
        lemma_dec_digits_len_ge_two(a);
    } else {
        let pa = dec_digits(a / 10);
        let pb = dec_digits(b / 10);
        if dec_digits(a) == dec_digits(b) {
            assert(dec_digits(a).len() == pa.len() + 1);
            assert(dec_digits(b).len() == pb.len() + 1);
            assert(dec_digits(a).last() == digit_char(a % 10));
            assert(dec_digits(b).last() == digit_char(b % 10));
            if a % 10 != b % 10 {
                lemma_digit_char_injective(a % 10, b % 10);
                assert(false);
            } else {
                assert(a / 10 != b / 10);
                lemma_dec_digits_injective(a / 10, b / 10);
                assert(pa.len() == pb.len());
                assert forall|i: int| 0 <= i < pa.len() implies pa[i] == pb[i] by {
                    assert(dec_digits(a)[i] == pa[i]);
                    assert(dec_digits(b)[i] == pb[i]);
                }
                assert(pa =~= pb);
                assert(false);
            }
        }
    }
}

/// The string of one decimal digit character.
fn digit_str(d: u8) -> (r: &'static str)
    requires
        d < 10,
    ensures
        r@ == seq![digit_char(d as nat)],
{
    proof {
        reveal_strlit("0");
        reveal_strlit("1");
        reveal_strlit("2");
        reveal_strlit("3");
        reveal_strlit("4");
        reveal_strlit("5");
        reveal_strlit("6");
        reveal_strlit("7");
        reveal_strlit("8");
        reveal_strlit("9");
    }
    let r = if d == 0 {
        "0"
    } else if d == 1 {
        "1"
    } else if d == 2 {
        "2"
    } else if d == 3 {
        "3"
    } else if d == 4 {
        "4"
    } else if d == 5 {
        "5"
    } else if d == 6 {
        "6"
    } else if d == 7 {
        "7"
    } else if d == 8 {
        "8"
    } else {
        "9"
    };
    proof {
        assert(r@ =~= seq![digit_char(d as nat)]);
    }
    r
}

/// Renders `n` in decimal, most significant digit first.
pub fn render_u64(n: u64) -> (s: String)
    ensures
        s@ == dec_digits(n as nat),
    decreases n,
{
    if n < 10 {
        String::from_str(digit_str(n as u8))
    } else {
        let mut s = render_u64(n / 10);
        s.append(digit_str((n % 10) as u8));
        proof {
            assert(s@ =~= dec_digits(n as nat));
        }
        s
    }
}

} // verus!
