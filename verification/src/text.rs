//! Comparison of strings by their bytes, and numbers as text.

use vstd::prelude::*;
use vstd::string::StringExecFns;
use vstd::utf8::*;

verus! {

/// Two texts with the same bytes are the same text.
pub proof fn lemma_same_bytes_same_text(a: Seq<char>, b: Seq<char>)
    requires
        encode_utf8(a) == encode_utf8(b),
    ensures
        a == b,
{
    encode_utf8_decode_utf8(a);
    encode_utf8_decode_utf8(b);
}

/// Whether two byte slices hold the same bytes.
pub fn bytes_eq(a: &[u8], b: &[u8]) -> (same: bool)
    ensures
        same == (a@ == b@),
{
    if a.len() != b.len() {
        return false;
    }
    let mut i: usize = 0;
    while i < a.len()
        invariant
            a.len() == b.len(),
            i <= a.len(),
            forall|k: int| 0 <= k < i ==> a@[k] == b@[k],
        decreases a.len() - i,
    {
        if a[i] != b[i] {
            return false;
        }
        i += 1;
    }
    assert(a@ =~= b@);
    true
}

/// Whether two strings hold the same text.
pub fn str_eq(a: &str, b: &str) -> (same: bool)
    ensures
        same == (a@ == b@),
{
    let same = bytes_eq(a.as_bytes(), b.as_bytes());
    proof {
        if same {
            lemma_same_bytes_same_text(a@, b@);
        }
    }
    same
}

/// The digit that stands for a number below ten.
pub open spec fn spec_digit(d: int) -> char {
    if d == 0 {
        '0'
    } else if d == 1 {
        '1'
    } else if d == 2 {
        '2'
    } else if d == 3 {
        '3'
    } else if d == 4 {
        '4'
    } else if d == 5 {
        '5'
    } else if d == 6 {
        '6'
    } else if d == 7 {
        '7'
    } else if d == 8 {
        '8'
    } else {
        '9'
    }
}

/// A number in decimal digits, without leading zeros.
pub open spec fn spec_decimal(n: nat) -> Seq<char>
    decreases n,
{
    if n < 10 {
        seq![spec_digit(n as int)]
    } else {
        spec_decimal(n / 10).push(spec_digit((n % 10) as int))
    }
}

/// The digits of a number from the digit of place `from` down to the last
/// one, given the digits of the number with their places counted from the
/// last digit.
pub open spec fn spec_digits_down(places: Seq<u8>, from: int) -> Seq<char>
    decreases from + 1,
{
    if from < 0 {
        Seq::empty()
    } else {
        seq![spec_digit(places[from] as int)] + spec_digits_down(places, from - 1)
    }
}

fn digit(d: u8) -> (text: &'static str)
    requires
        d < 10,
    ensures
        text@ == seq![spec_digit(d as int)],
{
    proof {
        reveal_strlit("0");
        reveal_strlit("1");
        reveal_strlit("2");
        reveal_strlit("3");
        reveal_strlit("4");
        reveal_strlit("5");
        reveal_strlit("6");
        reveal_strlit("7");
        reveal_strlit("8");
        reveal_strlit("9");
    }
    let text = if d == 0 {
        "0"
    } else if d == 1 {
        "1"
    } else if d == 2 {
        "2"
    } else if d == 3 {
        "3"
    } else if d == 4 {
        "4"
    } else if d == 5 {
        "5"
    } else if d == 6 {
        "6"
    } else if d == 7 {
        "7"
    } else if d == 8 {
        "8"
    } else {
        "9"
    };
    assert(text@ =~= seq![spec_digit(d as int)]);
    text
}

/// A number in decimal digits.
pub fn decimal(n: u64) -> (text: String)
    ensures
        text@ == spec_decimal(n as nat),
{
    let mut places: Vec<u8> = Vec::new();
    let mut rest: u64 = n;
    while rest >= 10
        invariant
            forall|i: int| 0 <= i < places@.len() ==> places@[i] < 10,
            spec_decimal(n as nat) == spec_decimal(rest as nat) + spec_digits_down(
                places@,
                places@.len() - 1,
            ),
        decreases rest,
    {
        let ghost before = places@;
        let ghost was = rest;
        places.push((rest % 10) as u8);
        rest = rest / 10;
        proof {
            let k = before.len() as int;
            lemma_digits_down_keeps(before, places@, k - 1);
            assert(spec_digits_down(places@, k) == seq![spec_digit((was % 10) as int)]
                + spec_digits_down(places@, k - 1));
            assert(spec_decimal(was as nat) == spec_decimal(rest as nat).push(
                spec_digit((was % 10) as int),
            ));
            assert(spec_decimal(rest as nat).push(spec_digit((was % 10) as int))
                + spec_digits_down(before, k - 1) =~= spec_decimal(rest as nat) + (seq![
                spec_digit((was % 10) as int),
            ] + spec_digits_down(before, k - 1)));
        }
    }
    let mut text = String::from_str(digit(rest as u8));
    let mut k: usize = places.len();
    while k > 0
        invariant
            k <= places.len(),
            rest < 10,
            forall|i: int| 0 <= i < places@.len() ==> places@[i] < 10,
            text@ + spec_digits_down(places@, k - 1) == spec_decimal(rest as nat)
                + spec_digits_down(places@, places@.len() - 1),
        decreases k,
    {
        k -= 1;
        let ghost before = text@;
        text.append(digit(places[k]));
        proof {
            assert(spec_digits_down(places@, k as int) == seq![spec_digit(places@[k as int] as int)]
                + spec_digits_down(places@, k - 1));
            assert(text@ + spec_digits_down(places@, k - 1) =~= before + spec_digits_down(
                places@,
                k as int,
            ));
        }
    }
    assert(text@ + Seq::<char>::empty() =~= text@);
    text
}

/// The digits of the places below a place are the same in a sequence of
/// places and in one that goes on after it.
proof fn lemma_digits_down_keeps(short: Seq<u8>, long: Seq<u8>, from: int)
    requires
        from < short.len() <= long.len(),
        forall|i: int| 0 <= i < short.len() ==> short[i] == long[i],
    ensures
        spec_digits_down(long, from) == spec_digits_down(short, from),
    decreases from + 1,
{
    if from >= 0 {
        lemma_digits_down_keeps(short, long, from - 1);
    }
}

} // verus!
