//! Decimal text for machine integers. The object model renders an integer as
//! its decimal digit string; the specification side is the recursive
//! digit-string function, and the executable side is proved to produce
//! exactly that string.

use vstd::prelude::*;
use vstd::string::StringExecFns;

verus! {

/// The decimal digit character for `d`; meaningful only for `d < 10`.
pub open spec fn digit_char(d: nat) -> char {
    if d == 0 {
        '0'
    } else if d == 1 {
        '1'
    } else if d == 2 {
        '2'
    } else if d == 3 {
        '3'
    } else if d == 4 {
        '4'
    } else if d == 5 {
        '5'
    } else if d == 6 {
        '6'
    } else if d == 7 {
        '7'
    } else if d == 8 {
        '8'
    } else {
        '9'
    }
}

/// The decimal digit string of `n`, most significant digit first, without a
/// sign and without leading zeros (`0` itself renders as one digit).
pub open spec fn dec_digits(n: nat) -> Seq<char>
    decreases n,
{
    if n < 10 {
        seq![digit_char(n)]
    } else {
        dec_digits(n / 10) + seq![digit_char(n % 10)]
    }
}

/// The decimal rendering of `n`: the digit string of the magnitude, with a
/// leading minus sign when `n` is negative.
pub open spec fn dec_int(n: int) -> Seq<char> {
    if n < 0 {
        seq!['-'] + dec_digits((-n) as nat)
    } else {
        dec_digits(n as nat)
    }
}

/// The characters of the digit values `ds`, read back to front: the digit
/// extraction loop collects least-significant digits first, so reading its
/// vector in reverse yields the most-significant-first digit string.
spec fn rev_chars(ds: Seq<u32>) -> Seq<char> {
    Seq::new(ds.len(), |i: int| digit_char(ds[ds.len() - 1 - i] as nat))
}

proof fn lemma_rev_push(ds: Seq<u32>, d: u32)
    ensures
        rev_chars(ds.push(d)) =~= seq![digit_char(d as nat)] + rev_chars(ds),
{
    assert forall|j: int| 0 <= j < ds.len() + 1 implies rev_chars(ds.push(d))[j] == (seq![
        digit_char(d as nat),
    ] + rev_chars(ds))[j] by {
        if j == 0 {
            assert(ds.push(d)[ds.len() as int] == d);
        } else {
            assert(ds.push(d)[ds.len() - j] == ds[ds.len() - j]);
        }
    }
}

/// The one-character string for the digit `d`.
fn digit_str(d: u32) -> (r: &'static str)
    requires
        d < 10,
    ensures
        r@ == seq![digit_char(d as nat)],
{
    proof {
        reveal_strlit("0");
        reveal_strlit("1");
        reveal_strlit("2");
        reveal_strlit("3");
        reveal_strlit("4");
        reveal_strlit("5");
        reveal_strlit("6");
        reveal_strlit("7");
        reveal_strlit("8");
        reveal_strlit("9");
    }
    let r: &'static str = if d == 0 {
        "0"
    } else if d == 1 {
        "1"
    } else if d == 2 {
        "2"
    } else if d == 3 {
        "3"
    } else if d == 4 {
        "4"
    } else if d == 5 {
        "5"
    } else if d == 6 {
        "6"
    } else if d == 7 {
        "7"
    } else if d == 8 {
        "8"
    } else {
        "9"
    };
    proof {
        assert(r@ =~= seq![digit_char(d as nat)]);
    }
    r
}

/// Renders `value` in decimal, exactly as the specification-level rendering
/// describes it.
pub fn int_to_string(value: i32) -> (r: String)
    ensures
        r@ == dec_int(value as int),
{
    let mut m: u32 = if value < 0 {
        (-(value as i64)) as u32
    } else {
        value as u32
    };
    let ghost m0: nat = m as nat;
    let mut digits: Vec<u32> = Vec::new();
    let d0: u32 = m % 10;
    digits.push(d0);
    m = m / 10;
    proof {
        lemma_rev_push(Seq::<u32>::empty(), d0);
        assert(rev_chars(Seq::<u32>::empty()) =~= Seq::<char>::empty());
        if m == 0 {
            assert(dec_digits(m0) =~= rev_chars(digits@));
        } else {
            assert(dec_digits(m0) =~= dec_digits(m as nat) + rev_chars(digits@));
        }
    }
    while m > 0
        invariant
            digits@.len() >= 1,
            forall|k: int| 0 <= k < digits@.len() ==> digits@[k] < 10,
            dec_digits(m0) == if m == 0 {
                rev_chars(digits@)
            } else {
                dec_digits(m as nat) + rev_chars(digits@)
            },
        decreases m,
    {
        let d: u32 = m % 10;
        let ghost before: Seq<u32> = digits@;
        digits.push(d);
        let ghost mm: nat = m as nat;
        m = m / 10;
        proof {
            lemma_rev_push(before, d);
            if m == 0 {
                assert(dec_digits(mm) =~= seq![digit_char(d as nat)]);
                assert(dec_digits(m0) =~= rev_chars(digits@));
            } else {
                assert(dec_digits(mm) =~= dec_digits(m as nat) + seq![digit_char(d as nat)]);
                assert(dec_digits(m0) =~= dec_digits(m as nat) + rev_chars(digits@));
            }
        }
    }
    let mut r: String = String::new();
    if value < 0 {
        r.append("-");
    }
    let ghost prefix: Seq<char> = if value < 0 {
        seq!['-']
    } else {
        Seq::<char>::empty()
    };
    proof {
        reveal_strlit("-");
        assert(r@ =~= prefix);
    }
    let mut i: usize = digits.len();
    while i > 0
        invariant
            i <= digits@.len(),
            forall|k: int| 0 <= k < digits@.len() ==> digits@[k] < 10,
            dec_digits(m0) == rev_chars(digits@),
            r@ == prefix + rev_chars(digits@).take(digits@.len() - i),
        decreases i,
    {
        i = i - 1;
        let ghost rold: Seq<char> = r@;
        r.append(digit_str(digits[i]));
        proof {
            let ds = digits@;
            let k = ds.len() - i - 1;
            assert(rev_chars(ds)[k] == digit_char(ds[i as int] as nat));
            assert(rev_chars(ds).take(k + 1) =~= rev_chars(ds).take(k).push(rev_chars(ds)[k]));
            assert(r@ =~= prefix + rev_chars(ds).take(ds.len() - i));
        }
    }
    proof {
        assert(rev_chars(digits@).take(digits@.len() as int) =~= rev_chars(digits@));
        if value < 0 {
            assert(m0 == (-(value as int)) as nat);
        } else {
            assert(m0 == (value as int) as nat);
        }
        assert(r@ =~= dec_int(value as int));
    }
    r
}

} // verus!
