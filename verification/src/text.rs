//! Decimal text representations of integers.

use vstd::prelude::*;
use vstd::string::StringExecFns;

verus! {

/// The character of a single decimal digit.
pub open spec fn digit_char(d: nat) -> char {
    if d == 0 {
        '0'
    } else if d == 1 {
        '1'
    } else if d == 2 {
        '2'
    } else if d == 3 {
        '3'
    } else if d == 4 {
        '4'
    } else if d == 5 {
        '5'
    } else if d == 6 {
        '6'
    } else if d == 7 {
        '7'
    } else if d == 8 {
        '8'
    } else {
        '9'
    }
}

/// The decimal representation of a natural number, most significant digit
/// first.
pub open spec fn dec_of(n: nat) -> Seq<char>
    decreases n,
{
    if n < 10 {
        seq![digit_char(n)]
    } else {
        dec_of(n / 10).push(digit_char(n % 10))
    }
}

/// The text of a digit buffer holding the least significant digit first:
/// the digits read back to front.
pub open spec fn digits_text(digits: Seq<u64>) -> Seq<char>
    decreases digits.len(),
{
    if digits.len() == 0 {
        Seq::empty()
    } else {
        digits_text(digits.skip(1)).push(digit_char(digits[0] as nat))
    }
}

/// Appending a more significant digit at the back of the buffer prepends its
/// character to the text.
proof fn lemma_digits_text_push(s: Seq<u64>, d: u64)
    ensures
        digits_text(s.push(d)) == seq![digit_char(d as nat)] + digits_text(s),
    decreases s.len(),
{
    if s.len() == 0 {
        assert(s =~= Seq::<u64>::empty());
        assert(s.push(d).skip(1) =~= Seq::<u64>::empty());
        assert(digits_text(Seq::<u64>::empty()) =~= Seq::<char>::empty());
        assert(s.push(d)[0] == d);
        assert(digits_text(s.push(d)) == digits_text(s.push(d).skip(1)).push(
            digit_char(s.push(d)[0] as nat),
        ));
        assert(digits_text(s.push(d)) =~= seq![digit_char(d as nat)] + digits_text(s));
    } else {
        assert(s.push(d).skip(1) =~= s.skip(1).push(d));
        lemma_digits_text_push(s.skip(1), d);
        assert(digits_text(s.push(d)) == digits_text(s.skip(1).push(d)).push(
            digit_char(s[0] as nat),
        ));
        assert((seq![digit_char(d as nat)] + digits_text(s.skip(1))).push(
            digit_char(s[0] as nat),
        ) =~= seq![digit_char(d as nat)] + digits_text(s));
    }
}

/// Append one decimal digit to a string.
fn append_digit(s: &mut String, d: u64)
    requires
        d < 10,
    ensures
        final(s)@ == old(s)@.push(digit_char(d as nat)),
{
    let lit: &str = if d == 0 {
        "0"
    } else if d == 1 {
        "1"
    } else if d == 2 {
        "2"
    } else if d == 3 {
        "3"
    } else if d == 4 {
        "4"
    } else if d == 5 {
        "5"
    } else if d == 6 {
        "6"
    } else if d == 7 {
        "7"
    } else if d == 8 {
        "8"
    } else {
        "9"
    };
    proof {
        reveal_strlit("0");
        reveal_strlit("1");
        reveal_strlit("2");
        reveal_strlit("3");
        reveal_strlit("4");
        reveal_strlit("5");
        reveal_strlit("6");
        reveal_strlit("7");
        reveal_strlit("8");
        reveal_strlit("9");
        assert(lit@ =~= seq![digit_char(d as nat)]);
    }
    s.append(lit);
    proof {
        assert(old(s)@ + seq![digit_char(d as nat)] =~= old(s)@.push(digit_char(d as nat)));
    }
}

/// The decimal text of an unsigned integer.
pub fn u64_to_dec_string(x: u64) -> (r: String)
    ensures
        r@ == dec_of(x as nat),
{
    // collect the digits below the leading one, least significant first
    let mut digits: Vec<u64> = Vec::new();
    let mut rem: u64 = x;
    proof {
        assert(dec_of(x as nat) + Seq::<char>::empty() =~= dec_of(x as nat));
    }
    loop
        invariant
            forall|j: int| 0 <= j < digits@.len() ==> #[trigger] digits@[j] < 10,
            dec_of(x as nat) == dec_of(rem as nat) + digits_text(digits@),
        ensures
            rem < 10,
            forall|j: int| 0 <= j < digits@.len() ==> #[trigger] digits@[j] < 10,
            dec_of(x as nat) == dec_of(rem as nat) + digits_text(digits@),
        decreases rem,
    {
        if rem < 10 {
            break ;
        }
        let d = rem % 10;
        let ghost old_digits = digits@;
        let ghost old_rem = rem as nat;
        digits.push(d);
        rem = rem / 10;
        proof {
            assert(dec_of(old_rem) == dec_of(old_rem / 10).push(digit_char(old_rem % 10)));
            lemma_digits_text_push(old_digits, d);
            assert(dec_of(rem as nat) + digits_text(digits@) =~= (dec_of(rem as nat).push(
                digit_char((old_rem % 10) as nat),
            )) + digits_text(old_digits));
        }
    }
    let mut out = String::new();
    append_digit(&mut out, rem);
    proof {
        assert(String::new.ensures((), out) ==> true);
        assert(out@ =~= dec_of(rem as nat) + digits_text(digits@.skip(digits@.len() as int)))
            by {
            assert(digits@.skip(digits@.len() as int) =~= Seq::<u64>::empty());
            assert(dec_of(rem as nat) =~= seq![digit_char(rem as nat)]);
            assert(Seq::<char>::empty().push(digit_char(rem as nat)) =~= seq![
                digit_char(rem as nat),
            ]);
        }
    }
    let mut i: usize = digits.len();
    while i > 0
        invariant
            0 <= i <= digits@.len(),
            rem < 10,
            forall|j: int| 0 <= j < digits@.len() ==> #[trigger] digits@[j] < 10,
            out@ == dec_of(rem as nat) + digits_text(digits@.skip(i as int)),
        decreases i,
    {
        let d = digits[i - 1];
        append_digit(&mut out, d);
        i = i - 1;
        proof {
            assert(digits@.skip(i as int).skip(1) =~= digits@.skip(i + 1));
            assert(digits_text(digits@.skip(i as int)) == digits_text(digits@.skip(i + 1)).push(
                digit_char(digits@[i as int] as nat),
            ));
            assert((dec_of(rem as nat) + digits_text(digits@.skip(i + 1))).push(
                digit_char(d as nat),
            ) =~= dec_of(rem as nat) + digits_text(digits@.skip(i as int)));
        }
    }
    proof {
        assert(digits@.skip(0) =~= digits@);
    }
    out
}

/// Two numbers with the same decimal text are equal.
pub proof fn lemma_dec_of_injective(a: nat, b: nat)
    requires
        dec_of(a) == dec_of(b),
    ensures
        a == b,
    decreases a,
{
    lemma_dec_of_min_len(a);
    lemma_dec_of_min_len(b);
    if a < 10 && b < 10 {
        assert(dec_of(a)[0] == digit_char(a));
        assert(dec_of(b)[0] == digit_char(b));
        lemma_digit_char_injective(a, b);
    } else if a < 10 {
        assert(dec_of(a).len() == 1);
        assert(dec_of(b).len() >= 2);
    } else if b < 10 {
        assert(dec_of(b).len() == 1);
        assert(dec_of(a).len() >= 2);
    } else {
        assert(dec_of(a).last() == digit_char(a % 10));
        assert(dec_of(b).last() == digit_char(b % 10));
        lemma_digit_char_injective(a % 10, b % 10);
        assert(dec_of(a / 10).push(digit_char(a % 10)).drop_last() =~= dec_of(a / 10));
        assert(dec_of(b / 10).push(digit_char(b % 10)).drop_last() =~= dec_of(b / 10));
        assert(dec_of(a / 10) == dec_of(b / 10));
        lemma_dec_of_injective(a / 10, b / 10);
        assert(a == 10 * (a / 10) + a % 10) by (nonlinear_arith);
        assert(b == 10 * (b / 10) + b % 10) by (nonlinear_arith);
    }
}

/// Decimal text holds at least one character, at least two for numbers of
/// two digits.
proof fn lemma_dec_of_min_len(n: nat)
    ensures
        dec_of(n).len() >= 1,
        n >= 10 ==> dec_of(n).len() >= 2,
    decreases n,
{
    if n >= 10 {
        lemma_dec_of_min_len(n / 10);
    }
}

/// Distinct digits render as distinct characters.
proof fn lemma_digit_char_injective(a: nat, b: nat)
    requires
        a < 10,
        b < 10,
        digit_char(a) == digit_char(b),
    ensures
        a == b,
{
}

} // verus!