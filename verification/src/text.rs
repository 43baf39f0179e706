//! Small verified text utilities: string comparison, decimal formatting of
//! integers, and repeated characters.

use vstd::prelude::*;
use vstd::string::StrSliceExecFns;
use vstd::string::StringExecFns;

verus! {

/// Whether two string slices hold the same characters.
pub fn str_eq(a: &str, b: &str) -> (r: bool)
    ensures
        r == (a@ == b@),
{
    let na: usize = a.unicode_len();
    let nb: usize = b.unicode_len();
    if na != nb {
        return false;
    }
    let mut i: usize = 0;
    while i < na
        invariant
            na == a@.len(),
            na == b@.len(),
            i <= na,
            forall|k: int| 0 <= k < i ==> a@[k] == b@[k],
        decreases na - i,
    {
        if a.get_char(i) != b.get_char(i) {
            return false;
        }
        i += 1;
    }
    proof {
        assert(a@ =~= b@);
    }
    true
}

/// The character for a single decimal digit.
pub open spec fn spec_digit_char(d: nat) -> char {
    if d == 0 {
        '0'
    } else if d == 1 {
        '1'
    } else if d == 2 {
        '2'
    } else if d == 3 {
        '3'
    } else if d == 4 {
        '4'
    } else if d == 5 {
        '5'
    } else if d == 6 {
        '6'
    } else if d == 7 {
        '7'
    } else if d == 8 {
        '8'
    } else {
        '9'
    }
}

/// Appends the character for the decimal digit `d`.
pub fn push_digit(out: &mut String, d: u64)
    ensures
        final(out)@ == old(out)@ + seq![spec_digit_char(d as nat)],
{
    match d {
        0 => {
            proof {
                reveal_strlit("0");
            }
            out.append("0");
        },
        1 => {
            proof {
                reveal_strlit("1");
            }
            out.append("1");
        },
        2 => {
            proof {
                reveal_strlit("2");
            }
            out.append("2");
        },
        3 => {
            proof {
                reveal_strlit("3");
            }
            out.append("3");
        },
        4 => {
            proof {
                reveal_strlit("4");
            }
            out.append("4");
        },
        5 => {
            proof {
                reveal_strlit("5");
            }
            out.append("5");
        },
        6 => {
            proof {
                reveal_strlit("6");
            }
            out.append("6");
        },
        7 => {
            proof {
                reveal_strlit("7");
            }
            out.append("7");
        },
        8 => {
            proof {
                reveal_strlit("8");
            }
            out.append("8");
        },
        _ => {
            proof {
                reveal_strlit("9");
            }
            out.append("9");
        },
    }
}

/// The decimal digit characters of `n`, most significant first.
pub open spec fn u64_chars(n: nat) -> Seq<char>
    decreases n,
{
    if n < 10 {
        seq![spec_digit_char(n)]
    } else {
        u64_chars(n / 10).push(spec_digit_char(n % 10))
    }
}

/// Appends the decimal digits of `n`.
pub fn push_u64_chars(out: &mut String, n: u64)
    ensures
        final(out)@ == old(out)@ + u64_chars(n as nat),
    decreases n,
{
    if n < 10 {
        push_digit(out, n);
    } else {
        push_u64_chars(out, n / 10);
        push_digit(out, n % 10);
        proof {
            assert(final(out)@ =~= old(out)@ + u64_chars(n as nat));
        }
    }
}

/// The decimal rendering of a signed integer: a `-` sign for negative values,
/// then the digits of the magnitude.
pub open spec fn i64_chars(n: int) -> Seq<char> {
    if n < 0 {
        seq!['-'] + u64_chars((-n) as nat)
    } else {
        u64_chars(n as nat)
    }
}

/// Appends the decimal rendering of a signed integer.
pub fn push_i64_chars(out: &mut String, n: i64)
    ensures
        final(out)@ == old(out)@ + i64_chars(n as int),
{
    if n < 0 {
        proof {
            reveal_strlit("-");
        }
        out.append("-");
        let mag: u64 = #[verifier::truncate] ((-(n as i128)) as u64);
        proof {
            assert(mag == (-(n as int)) as nat);
        }
        push_u64_chars(out, mag);
        proof {
            assert(final(out)@ =~= old(out)@ + i64_chars(n as int));
        }
    } else {
        let mag: u64 = #[verifier::truncate] (n as u64);
        push_u64_chars(out, mag);
    }
}

/// `n` copies of the character `c`.
pub open spec fn repeat_char(c: char, n: nat) -> Seq<char>
    decreases n,
{
    if n == 0 {
        Seq::empty()
    } else {
        repeat_char(c, (n - 1) as nat).push(c)
    }
}

/// Appends `n` spaces.
pub fn push_spaces(out: &mut String, n: usize)
    ensures
        final(out)@ == old(out)@ + repeat_char(' ', n as nat),
    decreases n,
{
    if n == 0 {
        proof {
            assert(final(out)@ =~= old(out)@ + repeat_char(' ', 0));
        }
    } else {
        push_spaces(out, n - 1);
        proof {
            reveal_strlit(" ");
        }
        out.append(" ");
        proof {
            assert(final(out)@ =~= old(out)@ + repeat_char(' ', n as nat));
        }
    }
}

/// Appends `n` caret characters.
pub fn push_carets(out: &mut String, n: usize)
    ensures
        final(out)@ == old(out)@ + repeat_char('^', n as nat),
    decreases n,
{
    if n == 0 {
        proof {
            assert(final(out)@ =~= old(out)@ + repeat_char('^', 0));
        }
    } else {
        push_carets(out, n - 1);
        proof {
            reveal_strlit("^");
        }
        out.append("^");
        proof {
            assert(final(out)@ =~= old(out)@ + repeat_char('^', n as nat));
        }
    }
}

} // verus!
