//! Decimal rendering of part counters.
//!
//! Part files are told apart only by the decimal counter embedded in their
//! names, so the reader's termination and the writer/reader agreement both
//! rest on this rendering being injective.

use vstd::prelude::*;

verus! {

use vstd::string::StringExecFns;

/// The character for one decimal digit value.
pub open spec fn dec_digit(d: nat) -> char
    recommends
        d < 10,
{
    ((48 + d) as u8) as char
}

/// The decimal rendering of `n`, most significant digit first, no leading
/// zeros (except for `n == 0`, rendered as a single zero digit).
pub open spec fn dec_str(n: nat) -> Seq<char>
    decreases n,
{
    if n < 10 {
        seq![dec_digit(n)]
    } else {
        dec_str(n / 10).push(dec_digit(n % 10))
    }
}

/// A decimal rendering is never empty.
pub proof fn lemma_dec_str_len(n: nat)
    ensures
        dec_str(n).len() >= 1,
{
}

/// Digit characters determine the digit value.
proof fn lemma_dec_digit_injective(d1: nat, d2: nat)
    requires
        d1 < 10,
        d2 < 10,
        dec_digit(d1) == dec_digit(d2),
    ensures
        d1 == d2,
{
    assert(dec_digit(d1) as u8 == 48 + d1);
    assert(dec_digit(d2) as u8 == 48 + d2);
}

/// Distinct numbers render to distinct decimal strings.
pub proof fn lemma_dec_str_injective(a: nat, b: nat)
    requires
        dec_str(a) == dec_str(b),
    ensures
        a == b,
    decreases a,
{
    lemma_dec_str_len(a / 10);
    lemma_dec_str_len(b / 10);
    if a < 10 && b < 10 {
        assert(dec_str(a)[0] == dec_digit(a));
        assert(dec_str(b)[0] == dec_digit(b));
        lemma_dec_digit_injective(a, b);
    } else if a < 10 {
        assert(dec_str(b).len() >= 2);
    } else if b < 10 {
        assert(dec_str(a).len() >= 2);
    } else {
        assert(dec_str(a).last() == dec_digit(a % 10));
        assert(dec_str(b).last() == dec_digit(b % 10));
        lemma_dec_digit_injective(a % 10, b % 10);
        assert(dec_str(a).drop_last() =~= dec_str(a / 10));
        assert(dec_str(b).drop_last() =~= dec_str(b / 10));
        lemma_dec_str_injective(a / 10, b / 10);
        vstd::arithmetic::div_mod::lemma_fundamental_div_mod(a as int, 10);
        vstd::arithmetic::div_mod::lemma_fundamental_div_mod(b as int, 10);
    }
}

/// Two equal strings that embed a decimal rendering between a common prefix
/// and a common suffix embed the same number.
pub proof fn lemma_dec_str_embed_injective(pre: Seq<char>, k1: nat, k2: nat, tail: Seq<char>)
    requires
        pre + dec_str(k1) + tail == pre + dec_str(k2) + tail,
    ensures
        k1 == k2,
{
    let w1 = pre + dec_str(k1) + tail;
    let w2 = pre + dec_str(k2) + tail;
    assert(w1.len() == pre.len() + dec_str(k1).len() + tail.len());
    assert(w2.len() == pre.len() + dec_str(k2).len() + tail.len());
    let d = dec_str(k1).len() as int;
    assert(dec_str(k1) =~= w1.subrange(pre.len() as int, pre.len() + d));
    assert(dec_str(k2) =~= w2.subrange(pre.len() as int, pre.len() + d));
    lemma_dec_str_injective(k1, k2);
}

/// One decimal digit as a string slice.
fn digit_str(d: u64) -> (r: &'static str)
    requires
        d < 10,
    ensures
        r@ == seq![dec_digit(d as nat)],
{
    proof {
        reveal_strlit("0");
        reveal_strlit("1");
        reveal_strlit("2");
        reveal_strlit("3");
        reveal_strlit("4");
        reveal_strlit("5");
        reveal_strlit("6");
        reveal_strlit("7");
        reveal_strlit("8");
        reveal_strlit("9");
    }
    if d == 0 {
        proof { assert("0"@ =~= seq![dec_digit(0)]); }
        "0"
    } else if d == 1 {
        proof { assert("1"@ =~= seq![dec_digit(1)]); }
        "1"
    } else if d == 2 {
        proof { assert("2"@ =~= seq![dec_digit(2)]); }
        "2"
    } else if d == 3 {
        proof { assert("3"@ =~= seq![dec_digit(3)]); }
        "3"
    } else if d == 4 {
        proof { assert("4"@ =~= seq![dec_digit(4)]); }
        "4"
    } else if d == 5 {
        proof { assert("5"@ =~= seq![dec_digit(5)]); }
        "5"
    } else if d == 6 {
        proof { assert("6"@ =~= seq![dec_digit(6)]); }
        "6"
    } else if d == 7 {
        proof { assert("7"@ =~= seq![dec_digit(7)]); }
        "7"
    } else if d == 8 {
        proof { assert("8"@ =~= seq![dec_digit(8)]); }
        "8"
    } else {
        proof { assert("9"@ =~= seq![dec_digit(9)]); }
        "9"
    }
}

/// Renders `n` in decimal.
pub fn u64_to_string(n: u64) -> (r: String)
    ensures
        r@ == dec_str(n as nat),
    decreases n,
{
    if n < 10 {
        String::from_str(digit_str(n))
    } else {
        let mut s = u64_to_string(n / 10);
        s.append(digit_str(n % 10));
        proof {
            assert(dec_str(n as nat) =~= dec_str((n / 10) as nat) + seq![
                dec_digit((n % 10) as nat),
            ]);
        }
        s
    }
}

} // verus!
