//! Unit conversion: times to integer nanoseconds, rates to hertz.

use vstd::prelude::*;
use vstd::string::StrSliceExecFns;
use vstd::string::StringExecFns;

use crate::ast::Quantity;
use crate::ast::QuantityV;
use crate::diagnostic::Diagnostic;
use crate::lexer::DiagV;
use crate::lexer::diag_view;
use crate::number::Decimal;
use crate::number::DecimalV;
use crate::number::zero_digits;
use crate::parser::span_pair;
use crate::text::str_eq;

verus! {

/// The two dimensions a unit can have.
#[derive(Debug, Clone, Copy, PartialEq, Eq, Structural)]
pub enum UnitKind {
    Time,
    Rate,
}

/// The power of ten that converts a time unit to nanoseconds, if the unit is
/// one.
pub open spec fn spec_time_shift(u: Seq<char>) -> Option<nat> {
    if u == "s"@ {
        Some(9nat)
    } else if u == "ms"@ {
        Some(6nat)
    } else if u == "us"@ {
        Some(3nat)
    } else if u == "ns"@ {
        Some(0nat)
    } else {
        None
    }
}

/// The power of ten that converts a rate unit to hertz, if the unit is one.
pub open spec fn spec_rate_shift(u: Seq<char>) -> Option<nat> {
    if u == "Hz"@ {
        Some(0nat)
    } else if u == "kHz"@ {
        Some(3nat)
    } else {
        None
    }
}

/// The diagnostic for a quantity without a unit.
pub open spec fn missing_unit_err(context: Seq<char>, q: QuantityV) -> DiagV {
    DiagV { message: "missing unit for "@ + context, span: span_pair(q.span) }
}

/// What converting a quantity to integer nanoseconds yields.  The value is
/// scaled exactly and rounded to the nearest nanosecond, halves away from
/// zero; a value whose magnitude cannot be represented is refused.
pub open spec fn spec_time_to_nanos(q: QuantityV, context: Seq<char>) -> Result<int, DiagV> {
    match q.unit {
        None => Err(missing_unit_err(context, q)),
        Some(u) => match spec_time_shift(u.name) {
            None => Err(
                DiagV {
                    message: "unsupported time unit `"@ + u.name + "` for "@ + context,
                    span: span_pair(u.span),
                },
            ),
            Some(k) => {
                if q.value.wf() && q.value.scaled_mag(k) <= i64::MAX {
                    Ok(q.value.scaled_round(k))
                } else {
                    Err(
                        DiagV {
                            message: "invalid time value for "@ + context,
                            span: span_pair(q.span),
                        },
                    )
                }
            },
        },
    }
}

/// The diagnostic for a quantity without a unit.
pub fn missing_unit(context: &str, q: &Quantity) -> (d: Diagnostic)
    ensures
        diag_view(d) == missing_unit_err(context@, q@),
{
    let mut m: String = String::new();
    m.append("missing unit for ");
    m.append(context);
    Diagnostic::new(m).with_span(q.span)
}

/// Converts a time quantity to integer nanoseconds.
pub fn time_to_nanos(q: &Quantity, context: &str) -> (r: Result<i64, Diagnostic>)
    ensures
        match r {
            Ok(v) => spec_time_to_nanos(q@, context@) == Ok::<int, DiagV>(v as int),
            Err(d) => spec_time_to_nanos(q@, context@) == Err::<int, DiagV>(diag_view(d)),
        },
{
    let unit = match &q.unit {
        Some(u) => u,
        None => {
            return Err(missing_unit(context, q));
        },
    };
    let shift: usize = if str_eq(unit.name.as_str(), "s") {
        9
    } else if str_eq(unit.name.as_str(), "ms") {
        6
    } else if str_eq(unit.name.as_str(), "us") {
        3
    } else if str_eq(unit.name.as_str(), "ns") {
        0
    } else {
        let mut m: String = String::new();
        m.append("unsupported time unit `");
        m.append(unit.name.as_str());
        m.append("` for ");
        m.append(context);
        return Err(Diagnostic::new(m).with_span(unit.span));
    };
    if q.value.check_wf() {
        match q.value.to_scaled_i64(shift) {
            Some(v) => {
                return Ok(v);
            },
            None => {},
        }
    }
    let mut m: String = String::new();
    m.append("invalid time value for ");
    m.append(context);
    Err(Diagnostic::new(m).with_span(q.span))
}

/// The decimal scaled up by ten to the `k`: the point moves `k` places to
/// the right, zeros filling in where the fraction runs out.
pub open spec fn spec_scale_up(v: DecimalV, k: nat) -> DecimalV {
    if v.frac_digits.len() <= k {
        DecimalV {
            neg: v.neg,
            int_digits: v.int_digits + v.frac_digits + zero_digits(
                (k - v.frac_digits.len()) as nat,
            ),
            frac_digits: Seq::empty(),
        }
    } else {
        DecimalV {
            neg: v.neg,
            int_digits: v.int_digits + v.frac_digits.take(k as int),
            frac_digits: v.frac_digits.skip(k as int),
        }
    }
}

/// Scales a decimal up by ten to the `k`.
pub fn scale_up(d: &Decimal, k: usize) -> (r: Decimal)
    ensures
        r@ == spec_scale_up(d@, k as nat),
        d@.wf() ==> r@.wf(),
{
    let fl: usize = d.frac_digits.len();
    let mut int2: Vec<u8> = Vec::new();
    let mut i: usize = 0;
    while i < d.int_digits.len()
        invariant
            i <= d.int_digits@.len(),
            int2@ == d.int_digits@.take(i as int),
        decreases d.int_digits@.len() - i,
    {
        int2.push(d.int_digits[i]);
        proof {
            assert(int2@ =~= d.int_digits@.take(i + 1));
        }
        i += 1;
    }
    proof {
        assert(int2@ =~= d.int_digits@);
    }
    if fl <= k {
        let mut j: usize = 0;
        while j < fl
            invariant
                j <= fl,
                fl == d.frac_digits@.len(),
                int2@ == d.int_digits@ + d.frac_digits@.take(j as int),
            decreases fl - j,
        {
            int2.push(d.frac_digits[j]);
            proof {
                assert(int2@ =~= d.int_digits@ + d.frac_digits@.take(j + 1));
            }
            j += 1;
        }
        let mut z: usize = 0;
        while z < k - fl
            invariant
                z <= k - fl,
                fl == d.frac_digits@.len(),
                fl <= k,
                int2@ == d.int_digits@ + d.frac_digits@.take(fl as int) + zero_digits(z as nat),
            decreases k - fl - z,
        {
            int2.push(0);
            proof {
                assert(int2@ =~= d.int_digits@ + d.frac_digits@.take(fl as int) + zero_digits(
                    (z + 1) as nat,
                ));
            }
            z += 1;
        }
        let r = Decimal { neg: d.neg, int_digits: int2, frac_digits: Vec::new() };
        proof {
            assert(d.frac_digits@.take(fl as int) =~= d.frac_digits@);
            assert(r@.int_digits =~= d.int_digits@ + d.frac_digits@ + zero_digits(
                (k - fl) as nat,
            ));
            assert(r@.frac_digits =~= Seq::<u8>::empty());
        }
        r
    } else {
        let mut j: usize = 0;
        while j < k
            invariant
                j <= k,
                k < d.frac_digits@.len(),
                int2@ == d.int_digits@ + d.frac_digits@.take(j as int),
            decreases k - j,
        {
            int2.push(d.frac_digits[j]);
            proof {
                assert(int2@ =~= d.int_digits@ + d.frac_digits@.take(j + 1));
            }
            j += 1;
        }
        let mut frac2: Vec<u8> = Vec::new();
        let mut m: usize = k;
        while m < d.frac_digits.len()
            invariant
                k <= m <= d.frac_digits@.len(),
                frac2@ == d.frac_digits@.subrange(k as int, m as int),
            decreases d.frac_digits@.len() - m,
        {
            frac2.push(d.frac_digits[m]);
            proof {
                assert(frac2@ =~= d.frac_digits@.subrange(k as int, m + 1));
            }
            m += 1;
        }
        let r = Decimal { neg: d.neg, int_digits: int2, frac_digits: frac2 };
        proof {
            assert(r@.int_digits =~= d.int_digits@ + d.frac_digits@.take(k as int));
            assert(r@.frac_digits =~= d.frac_digits@.skip(k as int));
        }
        r
    }
}

/// What converting a quantity to hertz yields: the exact decimal rate.
pub open spec fn spec_rate_to_hz(q: QuantityV, context: Seq<char>) -> Result<DecimalV, DiagV> {
    match q.unit {
        None => Err(missing_unit_err(context, q)),
        Some(u) => match spec_rate_shift(u.name) {
            None => Err(
                DiagV {
                    message: "unsupported rate unit `"@ + u.name + "` for "@ + context,
                    span: span_pair(u.span),
                },
            ),
            Some(k) => {
                if q.value.wf() {
                    Ok(spec_scale_up(q.value, k))
                } else {
                    Err(
                        DiagV {
                            message: "invalid rate value for "@ + context,
                            span: span_pair(q.span),
                        },
                    )
                }
            },
        },
    }
}

/// Converts a rate quantity to hertz, kept as an exact decimal.
pub fn rate_to_hz(q: &Quantity, context: &str) -> (r: Result<Decimal, Diagnostic>)
    ensures
        match r {
            Ok(v) => spec_rate_to_hz(q@, context@) == Ok::<DecimalV, DiagV>(v@) && v@.wf(),
            Err(d) => spec_rate_to_hz(q@, context@) == Err::<DecimalV, DiagV>(diag_view(d)),
        },
{
    let unit = match &q.unit {
        Some(u) => u,
        None => {
            return Err(missing_unit(context, q));
        },
    };
    let shift: usize = if str_eq(unit.name.as_str(), "Hz") {
        0
    } else if str_eq(unit.name.as_str(), "kHz") {
        3
    } else {
        let mut m: String = String::new();
        m.append("unsupported rate unit `");
        m.append(unit.name.as_str());
        m.append("` for ");
        m.append(context);
        return Err(Diagnostic::new(m).with_span(unit.span));
    };
    if !q.value.check_wf() {
        let mut m: String = String::new();
        m.append("invalid rate value for ");
        m.append(context);
        return Err(Diagnostic::new(m).with_span(q.span));
    }
    Ok(scale_up(&q.value, shift))
}

/// Checks that a quantity converts as a time.
pub fn expect_time(q: &Quantity, context: &str) -> (r: Result<(), Diagnostic>)
    ensures
        match r {
            Ok(_) => spec_time_to_nanos(q@, context@) is Ok,
            Err(d) => spec_time_to_nanos(q@, context@) == Err::<int, DiagV>(diag_view(d)),
        },
{
    match time_to_nanos(q, context) {
        Ok(_) => Ok(()),
        Err(d) => Err(d),
    }
}

/// Checks that a quantity converts as a rate.
pub fn expect_rate(q: &Quantity, context: &str) -> (r: Result<(), Diagnostic>)
    ensures
        match r {
            Ok(_) => spec_rate_to_hz(q@, context@) is Ok,
            Err(d) => spec_rate_to_hz(q@, context@) == Err::<DecimalV, DiagV>(diag_view(d)),
        },
{
    match rate_to_hz(q, context) {
        Ok(_) => Ok(()),
        Err(d) => Err(d),
    }
}

} // verus!
