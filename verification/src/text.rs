use vstd::prelude::*;
use vstd::string::*;

verus! {

/// The character for a single decimal digit.
pub open spec fn dec_digit(d: nat) -> char {
    if d == 0 {
        '0'
    } else if d == 1 {
        '1'
    } else if d == 2 {
        '2'
    } else if d == 3 {
        '3'
    } else if d == 4 {
        '4'
    } else if d == 5 {
        '5'
    } else if d == 6 {
        '6'
    } else if d == 7 {
        '7'
    } else if d == 8 {
        '8'
    } else {
        '9'
    }
}

/// The decimal rendering of a natural number: no sign, no leading zeros
/// (except for the single digit of zero itself).
pub open spec fn dec_rep(n: nat) -> Seq<char>
    decreases n,
{
    if n < 10 {
        seq![dec_digit(n)]
    } else {
        dec_rep(n / 10).push(dec_digit(n % 10))
    }
}

/// Appends the character of one decimal digit to `out`.
pub fn append_digit(out: &mut String, d: u8)
    requires
        d < 10,
    ensures
        final(out)@ == old(out)@ + seq![dec_digit(d as nat)],
{
    proof {
        reveal_strlit("0");
        reveal_strlit("1");
        reveal_strlit("2");
        reveal_strlit("3");
        reveal_strlit("4");
        reveal_strlit("5");
        reveal_strlit("6");
        reveal_strlit("7");
        reveal_strlit("8");
        reveal_strlit("9");
    }
    if d == 0 {
        out.append("0");
        proof {
            assert("0"@ =~= seq![dec_digit(0)]);
        }
    } else if d == 1 {
        out.append("1");
        proof {
            assert("1"@ =~= seq![dec_digit(1)]);
        }
    } else if d == 2 {
        out.append("2");
        proof {
            assert("2"@ =~= seq![dec_digit(2)]);
        }
    } else if d == 3 {
        out.append("3");
        proof {
            assert("3"@ =~= seq![dec_digit(3)]);
        }
    } else if d == 4 {
        out.append("4");
        proof {
            assert("4"@ =~= seq![dec_digit(4)]);
        }
    } else if d == 5 {
        out.append("5");
        proof {
            assert("5"@ =~= seq![dec_digit(5)]);
        }
    } else if d == 6 {
        out.append("6");
        proof {
            assert("6"@ =~= seq![dec_digit(6)]);
        }
    } else if d == 7 {
        out.append("7");
        proof {
            assert("7"@ =~= seq![dec_digit(7)]);
        }
    } else if d == 8 {
        out.append("8");
        proof {
            assert("8"@ =~= seq![dec_digit(8)]);
        }
    } else {
        out.append("9");
        proof {
            assert("9"@ =~= seq![dec_digit(9)]);
        }
    }
}

/// Appends the decimal rendering of `n` to `out`.
pub fn append_decimal(out: &mut String, n: usize)
    ensures
        final(out)@ == old(out)@ + dec_rep(n as nat),
    decreases n,
{
    if n < 10 {
        append_digit(out, n as u8);
    } else {
        append_decimal(out, n / 10);
        append_digit(out, (n % 10) as u8);
        proof {
            assert(old(out)@ + dec_rep((n / 10) as nat) + seq![dec_digit((n % 10) as nat)] =~= old(
                out,
            )@ + dec_rep(n as nat));
        }
    }
}

/// The decimal rendering of `n` as an owned string.
pub fn decimal_string(n: usize) -> (r: String)
    ensures
        r@ == dec_rep(n as nat),
{
    let mut out = String::new();
    append_decimal(&mut out, n);
    proof {
        assert(Seq::<char>::empty() + dec_rep(n as nat) =~= dec_rep(n as nat));
    }
    out
}

/// Character-wise string comparison, specified over the string views.
pub fn str_eq(a: &str, b: &str) -> (r: bool)
    ensures
        r == (a@ == b@),
{
    let la = a.unicode_len();
    let lb = b.unicode_len();
    if la != lb {
        proof {
            if a@ == b@ {
                assert(a@.len() == b@.len());
            }
        }
        return false;
    }
    let mut i: usize = 0;
    while i < la
        invariant
            i <= la,
            la == a@.len(),
            lb == b@.len(),
            la == lb,
            forall|j: int| 0 <= j < i ==> a@[j] == b@[j],
        decreases la - i,
    {
        let ca = a.get_char(i);
        let cb = b.get_char(i);
        if ca != cb {
            proof {
                if a@ == b@ {
                    assert(a@[i as int] == b@[i as int]);
                }
            }
            return false;
        }
        i += 1;
    }
    proof {
        assert(a@ =~= b@);
    }
    true
}

} // verus!
