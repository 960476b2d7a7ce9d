use vstd::prelude::*;

verus! {

/// An ASCII decimal digit.
pub open spec fn is_digit(c: u8) -> bool {
    48 <= c <= 57
}

pub open spec fn all_digits(s: Seq<u8>) -> bool {
    forall|i: int| 0 <= i < s.len() ==> is_digit(#[trigger] s[i])
}

/// The number a run of decimal digits spells, most significant first.
pub open spec fn digits_value(s: Seq<u8>) -> nat
    decreases s.len(),
{
    if s.len() == 0 {
        0
    } else {
        digits_value(s.drop_last()) * 10 + (s.last() - 48) as nat
    }
}

/// The index of the first `.` at or after `i`, or the length when there is
/// none.
pub open spec fn dot_from(s: Seq<u8>, i: int) -> int
    decreases s.len() - i,
{
    if i < 0 || i >= s.len() {
        s.len() as int
    } else if s[i] == 46 {
        i
    } else {
        dot_from(s, i + 1)
    }
}

/// `n` zero digits.
pub open spec fn zeros(n: nat) -> Seq<u8> {
    Seq::new(n, |i: int| 48u8)
}

/// An unsigned decimal `digits[.digits]` rewritten with exactly `scale`
/// digits after the point, as one run of digits: the integer part, then the
/// fraction's first `scale` digits, padded with zeros. `None` when `u` is not
/// of that form, or when the fraction has a non-zero digit past `scale`
/// places (the value is not a whole number of units).
pub open spec fn scaled_digits(u: Seq<u8>, scale: nat) -> Option<Seq<u8>> {
    let p = dot_from(u, 0);
    let int_part = u.take(p);
    if int_part.len() == 0 || !all_digits(int_part) {
        None
    } else if p == u.len() {
        Some(int_part + zeros(scale))
    } else {
        let frac = u.skip(p + 1);
        if frac.len() == 0 || !all_digits(frac) {
            None
        } else if frac.len() <= scale {
            Some(int_part + frac + zeros((scale - frac.len()) as nat))
        } else if forall|i: int| scale <= i < frac.len() ==> #[trigger] frac[i] == 48 {
            Some(int_part + frac.take(scale as int))
        } else {
            None
        }
    }
}

/// The text starts with a minus sign.
pub open spec fn is_negative(b: Seq<u8>) -> bool {
    b.len() > 0 && b[0] == 45
}

/// The text after the sign, if any.
pub open spec fn unsigned_part(b: Seq<u8>) -> Seq<u8> {
    if is_negative(b) {
        b.drop_first()
    } else {
        b
    }
}

/// The decimal `[-]digits[.digits]` in `b`, counted in units of
/// `10^-scale`, when that is a whole number that fits in 64 signed bits.
pub open spec fn parse_fixed_point(b: Seq<u8>, scale: nat) -> Option<int> {
    let neg = is_negative(b);
    let u = unsigned_part(b);
    match scaled_digits(u, scale) {
        None => None,
        Some(d) => {
            let m = digits_value(d) as int;
            let v = if neg {
                -m
            } else {
                m
            };
            if i64::MIN <= v <= i64::MAX {
                Some(v)
            } else {
                None
            }
        },
    }
}

/// One past the largest magnitude a 64-bit signed value can take.
const CAP: u128 = 9223372036854775809;

/// `v`, held at `CAP` once it reaches it.
spec fn capped(v: nat) -> nat {
    if v < CAP {
        v
    } else {
        CAP as nat
    }
}

/// Appending a digit to a run multiplies its value by ten and adds the digit;
/// the accumulator is held at `CAP` once the value reaches it.
proof fn lemma_push_digit(seen: Seq<u8>, c: u8, acc: u128)
    requires
        is_digit(c),
        acc == capped(digits_value(seen)),
    ensures
        digits_value(seen.push(c)) == digits_value(seen) * 10 + (c - 48),
        (if acc >= CAP {
            CAP as nat
        } else {
            capped((acc * 10 + (c - 48)) as nat)
        }) == capped(digits_value(seen.push(c))),
{
    assert(seen.push(c).drop_last() =~= seen);
}

/// Adds one digit to the capped accumulator.
fn push_digit(acc: u128, c: u8, Ghost(seen): Ghost<Seq<u8>>) -> (r: u128)
    requires
        is_digit(c),
        acc == capped(digits_value(seen)),
    ensures
        r == capped(digits_value(seen.push(c))),
{
    proof {
        lemma_push_digit(seen, c, acc);
    }
    if acc >= CAP {
        CAP
    } else {
        let next = acc * 10 + (c - 48) as u128;
        if next >= CAP {
            CAP
        } else {
            next
        }
    }
}

/// Parses the decimal `[-]digits[.digits]` in `b` into a count of units of
/// `10^-scale` (so with `scale == 4`, `"0.56"` gives `5600`). `None` when `b`
/// is not of that form, when the value is not a whole number of units, or
/// when it does not fit in 64 signed bits.
pub fn parse_fixed_point_bytes(b: &[u8], scale: usize) -> (r: Option<i64>)
    ensures
        r == (match parse_fixed_point(b@, scale as nat) {
            Some(v) => Some(v as i64),
            None => None::<i64>,
        }),
{
    let neg = b.len() > 0 && b[0] == 45;
    let start: usize = if neg {
        1
    } else {
        0
    };
    let u = vstd::slice::slice_subrange(b, start, b.len());
    assert(u@ =~= unsigned_part(b@));
    let ghost us = u@;
    let n = u.len();
    // Find the point.
    let mut p: usize = 0;
    while p < n && u[p] != 46
        invariant
            n == us.len(),
            us == u@,
            p <= n,
            dot_from(us, 0) == dot_from(us, p as int),
        decreases n - p,
    {
        p += 1;
    }
    assert(dot_from(us, 0) == p);
    if p == 0 {
        return None;
    }
    // The integer part.

    let mut acc: u128 = 0;
    let ghost mut seen: Seq<u8> = Seq::empty();
    let mut i: usize = 0;
    while i < p
        invariant
            n == us.len(),
            us == u@,
            p <= n,
            dot_from(us, 0) == p,
            us == unsigned_part(b@),
            i <= p,
            seen =~= us.take(i as int),
            all_digits(seen),
            acc == capped(digits_value(seen)),
        decreases p - i,
    {
        let c = u[i];
        if !(48 <= c && c <= 57) {
            assert(!all_digits(us.take(p as int))) by {
                assert(us.take(p as int)[i as int] == c);
            }
            assert(scaled_digits(us, scale as nat) is None);
            return None;
        }
        acc = push_digit(acc, c, Ghost(seen));
        proof {
            seen = seen.push(c);
        }
        i += 1;
    }
    assert(seen =~= us.take(p as int));
    // The fraction, then the padding.

    if p < n {
        let ghost frac = us.skip(p + 1);
        if p + 1 == n {
            return None;
        }
        let mut k: usize = p + 1;
        let ghost int_part = seen;
        while k < n
            invariant
                n == us.len(),
                us == u@,
                p < n,
                dot_from(us, 0) == p,
                us == unsigned_part(b@),
                frac == us.skip(p + 1),
                int_part == us.take(p as int),
                p + 1 <= k <= n,
                all_digits(frac.take(k - p - 1)),
                forall|j: int| scale <= j < k - p - 1 ==> #[trigger] frac[j] == 48,
                seen =~= int_part + frac.take(
                    if k - p - 1 <= scale {
                        k - p - 1
                    } else {
                        scale as int
                    },
                ),
                acc == capped(digits_value(seen)),
            decreases n - k,
        {
            let c = u[k];
            if !(48 <= c && c <= 57) {
                assert(frac[k - p - 1] == c);
                assert(!all_digits(frac));
                assert(scaled_digits(us, scale as nat) is None);
                return None;
            }
            if k - p - 1 < scale {
                acc = push_digit(acc, c, Ghost(seen));
                proof {
                    seen = seen.push(c);
                    assert(seen =~= int_part + frac.take(k - p));
                }
            } else if c != 48 {
                assert(frac[k - p - 1] == c);
                assert(!(forall|j: int| scale <= j < frac.len() ==> #[trigger] frac[j] == 48));
                assert(scaled_digits(us, scale as nat) is None);
                return None;
            }
            assert(frac.take(k - p) =~= frac.take(k - p - 1).push(c));
            k += 1;
        }
        assert(frac.take(frac.len() as int) =~= frac);
        let mut pad: usize = if n - p - 1 < scale {
            scale - (n - p - 1)
        } else {
            0
        };
        let ghost before_pad = seen;
        let ghost total_pad = pad;
        while pad > 0
            invariant
                pad <= total_pad,
                seen =~= before_pad + zeros((total_pad - pad) as nat),
                acc == capped(digits_value(seen)),
            decreases pad,
        {
            acc = push_digit(acc, 48, Ghost(seen));
            proof {
                seen = seen.push(48u8);
                assert(seen =~= before_pad + zeros((total_pad - pad + 1) as nat));
            }
            pad -= 1;
        }
        proof {
            if frac.len() <= scale {
                assert(frac.take(frac.len() as int) =~= frac);
            }
        }
    } else {
        let mut pad: usize = scale;
        let ghost before_pad = seen;
        while pad > 0
            invariant
                pad <= scale,
                seen =~= before_pad + zeros((scale - pad) as nat),
                acc == capped(digits_value(seen)),
            decreases pad,
        {
            acc = push_digit(acc, 48, Ghost(seen));
            proof {
                seen = seen.push(48u8);
                assert(seen =~= before_pad + zeros((scale - pad + 1) as nat));
            }
            pad -= 1;
        }
    }
    assert(scaled_digits(us, scale as nat) == Some(seen));
    if neg {
        if acc > 9223372036854775808 {
            None
        } else if acc == 9223372036854775808 {
            Some(i64::MIN)
        } else {
            Some(-(acc as i64))
        }
    } else {
        if acc > 9223372036854775807 {
            None
        } else {
            Some(acc as i64)
        }
    }
}

/// Ten to the power `n`.
pub open spec fn pow10(n: nat) -> nat
    decreases n,
{
    if n == 0 {
        1
    } else {
        10 * pow10((n - 1) as nat)
    }
}

proof fn lemma_pow10_add(a: nat, b: nat)
    ensures
        pow10(a + b) == pow10(a) * pow10(b),
    decreases b,
{
    if b > 0 {
        let b1 = (b - 1) as nat;
        lemma_pow10_add(a, b1);
        assert((a + b1) as nat == (a + b - 1) as nat);
        let x = pow10(a);
        let y = pow10(b1);
        assert(10 * (x * y) == x * (10 * y)) by (nonlinear_arith);
        assert(pow10(a + b) == 10 * pow10((a + b - 1) as nat));
        assert(pow10(b) == 10 * y);
    } else {
        let x = pow10(a);
        assert(x * 1 == x) by (nonlinear_arith);
        assert(a + b == a);
    }
}

/// Digits written after others shift those by one place each.
proof fn lemma_digits_concat(x: Seq<u8>, y: Seq<u8>)
    ensures
        digits_value(x + y) == digits_value(x) * pow10(y.len()) + digits_value(y),
    decreases y.len(),
{
    if y.len() == 0 {
        assert(x + y =~= x);
        let a = digits_value(x);
        assert(a * 1 == a) by (nonlinear_arith);
        assert(pow10(y.len()) == 1);
        assert(digits_value(y) == 0);
    } else {
        let yd = y.drop_last();
        lemma_digits_concat(x, yd);
        assert((x + y).drop_last() =~= x + yd);
        assert((x + y).last() == y.last());
        let a = digits_value(x);
        let p = pow10(yd.len());
        let b = digits_value(yd);
        let c = (y.last() - 48) as nat;
        assert((a * p + b) * 10 + c == a * (10 * p) + (b * 10 + c)) by (nonlinear_arith);
        assert(digits_value(x + y) == digits_value(x + yd) * 10 + c);
        assert(pow10(y.len()) == 10 * p);
        assert(digits_value(y) == b * 10 + c);
    }
}

proof fn lemma_zeros(k: nat)
    ensures
        digits_value(zeros(k)) == 0,
        all_digits(zeros(k)),
    decreases k,
{
    if k > 0 {
        lemma_zeros((k - 1) as nat);
        assert(zeros(k).drop_last() =~= zeros((k - 1) as nat));
    }
}

/// In digits followed by a point (or by nothing), the first point is right
/// after the digits.
proof fn lemma_dot_after_digits(a: Seq<u8>, rest: Seq<u8>, i: int)
    requires
        all_digits(a),
        0 <= i <= a.len(),
        rest.len() == 0 || rest[0] == 46,
    ensures
        dot_from(a + rest, i) == a.len(),
    decreases a.len() - i,
{
    if i < a.len() {
        assert((a + rest)[i] == a[i]);
        lemma_dot_after_digits(a, rest, i + 1);
    } else if rest.len() > 0 {
        assert((a + rest)[i] == 46);
    }
}

/// The parser reads the decimal `[-]a.f`, where the fraction `f` has at most
/// `scale` digits, as its exact value counted in units of `10^-scale`: the
/// integer digits times `10^scale` plus the fraction digits times
/// `10^(scale - f.len())`, negated after a minus sign, whatever the scale.
pub proof fn lemma_fixed_point_fraction(neg: bool, a: Seq<u8>, f: Seq<u8>, scale: nat)
    requires
        a.len() > 0,
        all_digits(a),
        f.len() > 0,
        all_digits(f),
        f.len() <= scale,
        digits_value(a) * pow10(scale) + digits_value(f) * pow10((scale - f.len()) as nat)
            <= i64::MAX,
    ensures
        parse_fixed_point(
            (if neg {
                seq![45u8]
            } else {
                Seq::empty()
            }) + a + seq![46u8] + f,
            scale,
        ) == Some(
            if neg {
                -(digits_value(a) * pow10(scale) + digits_value(f) * pow10(
                    (scale - f.len()) as nat,
                ))
            } else {
                (digits_value(a) * pow10(scale) + digits_value(f) * pow10((scale - f.len()) as nat)) as int
            },
        ),
{
    let sign: Seq<u8> = if neg {
        seq![45u8]
    } else {
        Seq::empty()
    };
    let b = sign + a + seq![46u8] + f;
    let u = a + (seq![46u8] + f);
    assert(is_negative(b) == neg) by {
        if !neg {
            assert(b[0] == a[0]);
        }
    }
    assert(unsigned_part(b) =~= u);
    lemma_dot_after_digits(a, seq![46u8] + f, 0);
    assert(u.take(a.len() as int) =~= a);
    assert(u.skip(a.len() as int + 1) =~= f);
    let k = (scale - f.len()) as nat;
    assert(scaled_digits(u, scale) == Some(a + f + zeros(k)));
    lemma_digits_concat(a + f, zeros(k));
    lemma_digits_concat(a, f);
    lemma_zeros(k);
    lemma_pow10_add(f.len(), k);
    assert(f.len() + k == scale);
    let x = digits_value(a);
    let y = digits_value(f);
    let pf = pow10(f.len());
    let pk = pow10(k);
    assert((x * pf + y) * pk == x * (pf * pk) + y * pk) by (nonlinear_arith);
}

/// The parser reads the whole number `[-]a` as its value times `10^scale`,
/// negated after a minus sign.
pub proof fn lemma_fixed_point_whole(neg: bool, a: Seq<u8>, scale: nat)
    requires
        a.len() > 0,
        all_digits(a),
        digits_value(a) * pow10(scale) <= i64::MAX,
    ensures
        parse_fixed_point(
            (if neg {
                seq![45u8]
            } else {
                Seq::empty()
            }) + a,
            scale,
        ) == Some(
            if neg {
                -(digits_value(a) * pow10(scale))
            } else {
                (digits_value(a) * pow10(scale)) as int
            },
        ),
{
    let sign: Seq<u8> = if neg {
        seq![45u8]
    } else {
        Seq::empty()
    };
    let b = sign + a;
    assert(is_negative(b) == neg) by {
        if !neg {
            assert(b[0] == a[0]);
        }
    }
    assert(unsigned_part(b) =~= a);
    lemma_dot_after_digits(a, Seq::empty(), 0);
    assert(a + Seq::<u8>::empty() =~= a);
    assert(a.take(a.len() as int) =~= a);
    assert(scaled_digits(a, scale) == Some(a + zeros(scale)));
    lemma_digits_concat(a, zeros(scale));
    lemma_zeros(scale);
}

/// A fraction with more digits than `scale` is read only when every digit
/// past `scale` places is zero, and then as its first `scale` digits; a
/// non-zero digit past `scale` places means the value is no whole number of
/// units, and the text is refused.
pub proof fn lemma_fixed_point_long_fraction(neg: bool, a: Seq<u8>, f: Seq<u8>, scale: nat)
    requires
        a.len() > 0,
        all_digits(a),
        all_digits(f),
        f.len() > scale,
    ensures
        (exists|i: int| scale <= i < f.len() && f[i] != 48) ==> parse_fixed_point(
            (if neg {
                seq![45u8]
            } else {
                Seq::empty()
            }) + a + seq![46u8] + f,
            scale,
        ) is None,
        (forall|i: int| scale <= i < f.len() ==> f[i] == 48) && digits_value(a) * pow10(scale)
            + digits_value(f.take(scale as int)) <= i64::MAX ==> parse_fixed_point(
            (if neg {
                seq![45u8]
            } else {
                Seq::empty()
            }) + a + seq![46u8] + f,
            scale,
        ) == Some(
            if neg {
                -(digits_value(a) * pow10(scale) + digits_value(f.take(scale as int)))
            } else {
                (digits_value(a) * pow10(scale) + digits_value(f.take(scale as int))) as int
            },
        ),
{
    let sign: Seq<u8> = if neg {
        seq![45u8]
    } else {
        Seq::empty()
    };
    let b = sign + a + seq![46u8] + f;
    let u = a + (seq![46u8] + f);
    assert(is_negative(b) == neg) by {
        if !neg {
            assert(b[0] == a[0]);
        }
    }
    assert(unsigned_part(b) =~= u);
    lemma_dot_after_digits(a, seq![46u8] + f, 0);
    assert(u.take(a.len() as int) =~= a);
    assert(u.skip(a.len() as int + 1) =~= f);
    if exists|i: int| scale <= i < f.len() && f[i] != 48 {
        let i = choose|i: int| scale <= i < f.len() && f[i] != 48;
        assert(!(forall|j: int| scale <= j < f.len() ==> #[trigger] f[j] == 48));
        assert(scaled_digits(u, scale) is None);
    } else {
        assert(forall|j: int| scale <= j < f.len() ==> #[trigger] f[j] == 48);
        assert(scaled_digits(u, scale) == Some(a + f.take(scale as int)));
        lemma_digits_concat(a, f.take(scale as int));
    }
}

} // verus!
