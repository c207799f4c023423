//! Reading a typed number the way `f64::from_str` reads it: an optional
//! sign, decimal digits with at most one `.`, and an optional exponent.
use vstd::prelude::*;

use crate::text::{all_digits, chars_of, digit_value, digits_value, is_digit, is_first_dot, ten_pow};

verus! {

/// `c` marks an exponent.
pub open spec fn is_exp_mark(c: char) -> bool {
    c == 'e' || c == 'E'
}

/// `p` is the position of the first exponent mark in `s`.
pub open spec fn is_first_exp(s: Seq<char>, p: int) -> bool {
    0 <= p < s.len() && is_exp_mark(s[p]) && forall|j: int| 0 <= j < p ==> !is_exp_mark(s[j])
}

/// The digits before and after the `.` of a mantissa: digits with at
/// most one `.` and at least one digit (`"5"`, `"5."`, `".5"`, `"5.25"`).
pub open spec fn mantissa_parts(m: Seq<char>) -> Option<(Seq<char>, Seq<char>)> {
    if exists|p: int| is_first_dot(m, p) {
        let p = choose|p: int| is_first_dot(m, p);
        let ip = m.take(p);
        let fp = m.skip(p + 1);
        if all_digits(ip) && all_digits(fp) && ip.len() + fp.len() > 0 {
            Some((ip, fp))
        } else {
            None
        }
    } else if m.len() > 0 && all_digits(m) {
        Some((m, seq![]))
    } else {
        None
    }
}

/// The value of an exponent: an optional sign and at least one digit.
pub open spec fn exponent_value(x: Seq<char>) -> Option<int> {
    let signed = x.len() > 0 && (x[0] == '+' || x[0] == '-');
    let body = if signed {
        x.drop_first()
    } else {
        x
    };
    if body.len() > 0 && all_digits(body) {
        Some(
            if signed && x[0] == '-' {
                -(digits_value(body) as int)
            } else {
                digits_value(body) as int
            },
        )
    } else {
        None
    }
}

/// A finite number as written: its sign, all its mantissa digits, how
/// many of them stand before the `.`, and its exponent.
pub struct DecimalNumber {
    pub negative: bool,
    pub digits: Seq<char>,
    pub int_len: nat,
    pub exponent: int,
}

/// The text without one leading sign.
pub open spec fn unsigned_text(t: Seq<char>) -> Seq<char> {
    if t.len() > 0 && (t[0] == '+' || t[0] == '-') {
        t.drop_first()
    } else {
        t
    }
}

/// The finite number that `t` writes as `f64::from_str` reads it: an
/// optional `+` or `-`, a mantissa (see `mantissa_parts`), and optionally
/// `e` or `E` with an exponent (see `exponent_value`). `None` for every
/// other text; `inf`, `infinity` and `nan`, which `f64::from_str` also
/// reads, name no finite number and are `None` too.
pub open spec fn decimal_number(t: Seq<char>) -> Option<DecimalNumber> {
    let negative = t.len() > 0 && t[0] == '-';
    let b = unsigned_text(t);
    let has_exp = exists|p: int| is_first_exp(b, p);
    let pe = if has_exp {
        choose|p: int| is_first_exp(b, p)
    } else {
        b.len() as int
    };
    let exponent = if has_exp {
        exponent_value(b.skip(pe + 1))
    } else {
        Some(0int)
    };
    match (mantissa_parts(b.take(pe)), exponent) {
        (Some(parts), Some(e)) => Some(
            DecimalNumber { negative, digits: parts.0 + parts.1, int_len: parts.0.len(), exponent: e },
        ),
        _ => None,
    }
}

/// `n * 10^k` as a fraction `(num, den)`.
pub open spec fn scaled(n: nat, k: int) -> (nat, nat) {
    if k >= 0 {
        (n * ten_pow(k as nat), 1)
    } else {
        (n, ten_pow((-k) as nat))
    }
}

/// The magnitude of the number in thousandths, as a fraction `(num, den)`.
pub open spec fn milli_fraction(d: DecimalNumber) -> (nat, nat) {
    scaled(digits_value(d.digits), d.int_len + d.exponent + 3 - d.digits.len())
}

/// `t` writes a number from 10 to 200 (inclusive).
pub open spec fn reads_in_range(t: Seq<char>) -> bool {
    match decimal_number(t) {
        Some(d) => {
            let (num, den) = milli_fraction(d);
            !d.negative && 10_000 * den <= num && num <= 200_000 * den
        },
        None => false,
    }
}

// ---------------------------------------------------------------------
// Powers of ten and digit runs
// ---------------------------------------------------------------------

pub proof fn lemma_ten_pow_pos(a: nat)
    ensures
        ten_pow(a) >= 1,
    decreases a,
{
    if a > 0 {
        lemma_ten_pow_pos((a - 1) as nat);
    }
}

pub proof fn lemma_ten_pow_add(a: nat, b: nat)
    ensures
        ten_pow(a + b) == ten_pow(a) * ten_pow(b),
    decreases a,
{
    if a == 0 {
        assert(ten_pow(0) == 1);
        assert(1 * ten_pow(b) == ten_pow(b));
    } else {
        lemma_ten_pow_add((a - 1) as nat, b);
        assert(ten_pow(a) == 10 * ten_pow((a - 1) as nat));
        assert(((a + b) - 1) as nat == (a - 1 + b) as nat);
        assert(ten_pow(a + b) == 10 * ten_pow((a - 1 + b) as nat));
        assert(10 * (ten_pow((a - 1) as nat) * ten_pow(b)) == (10 * ten_pow((a - 1) as nat)) * ten_pow(b))
            by (nonlinear_arith);
    }
}

pub proof fn lemma_ten_pow_mono(a: nat, b: nat)
    requires
        a <= b,
    ensures
        ten_pow(a) <= ten_pow(b),
{
    lemma_ten_pow_add(a, (b - a) as nat);
    lemma_ten_pow_pos((b - a) as nat);
    lemma_ten_pow_pos(a);
    let x = ten_pow(a);
    let y = ten_pow((b - a) as nat);
    assert(x * y >= x) by (nonlinear_arith)
        requires
            y >= 1,
            x >= 1,
    ;
}

/// Digits after others: `dv(a + b) == dv(a) * 10^|b| + dv(b)`.
pub proof fn lemma_dv_append(a: Seq<char>, b: Seq<char>)
    ensures
        digits_value(a + b) == digits_value(a) * ten_pow(b.len()) + digits_value(b),
    decreases b.len(),
{
    if b.len() == 0 {
        assert(a + b =~= a);
        assert(ten_pow(0) == 1);
        assert(digits_value(b) == 0);
        assert(digits_value(a) * 1 == digits_value(a));
    } else {
        let b2 = b.drop_last();
        assert((a + b).drop_last() =~= a + b2);
        assert((a + b).last() == b.last());
        lemma_dv_append(a, b2);
        assert(digits_value(a + b) == digits_value((a + b).drop_last()) * 10 + digit_value((a + b).last()));
        assert(digits_value(b) == digits_value(b2) * 10 + digit_value(b.last()));
        let x = digits_value(a);
        let p = ten_pow(b2.len());
        assert(ten_pow(b.len()) == 10 * p);
        assert((x * p + digits_value(b2)) * 10 + digit_value(b.last()) == x * (10 * p) + (digits_value(
            b2,
        ) * 10 + digit_value(b.last()))) by (nonlinear_arith);
    }
}

pub proof fn lemma_dv_bound(s: Seq<char>)
    requires
        all_digits(s),
    ensures
        digits_value(s) < ten_pow(s.len()),
    decreases s.len(),
{
    if s.len() > 0 {
        let t = s.drop_last();
        assert(all_digits(t)) by {
            assert forall|i: int| 0 <= i < t.len() implies is_digit(#[trigger] t[i]) by {
                assert(t[i] == s[i]);
            }
        }
        lemma_dv_bound(t);
        assert(is_digit(s[s.len() - 1]));
        assert(digit_value(s.last()) <= 9);
        let x = digits_value(t);
        let p = ten_pow(t.len());
        assert(x * 10 + 9 < 10 * p) by (nonlinear_arith)
            requires
                x < p,
        ;
    }
}

/// A digit run is zero exactly when all its digits are `0`.
pub proof fn lemma_dv_zero(s: Seq<char>)
    requires
        all_digits(s),
    ensures
        (digits_value(s) == 0) <==> (forall|i: int| 0 <= i < s.len() ==> s[i] == '0'),
    decreases s.len(),
{
    if s.len() > 0 {
        let t = s.drop_last();
        assert(all_digits(t)) by {
            assert forall|i: int| 0 <= i < t.len() implies is_digit(#[trigger] t[i]) by {
                assert(t[i] == s[i]);
            }
        }
        lemma_dv_zero(t);
        assert(is_digit(s[s.len() - 1]));
        if digits_value(s) == 0 {
            assert forall|i: int| 0 <= i < s.len() implies s[i] == '0' by {
                if i < t.len() {
                    assert(t[i] == s[i]);
                }
            }
        }
        if forall|i: int| 0 <= i < s.len() ==> s[i] == '0' {
            assert forall|i: int| 0 <= i < t.len() implies t[i] == '0' by {
                assert(t[i] == s[i]);
            }
            assert(s[s.len() - 1] == '0');
        }
    }
}

/// A digit run that starts with a nonzero digit is at least `10^(len-1)`.
pub proof fn lemma_dv_lead(s: Seq<char>)
    requires
        all_digits(s),
        s.len() >= 1,
        s[0] != '0',
    ensures
        digits_value(s) >= ten_pow((s.len() - 1) as nat),
{
    let h = s.take(1);
    let t = s.skip(1);
    assert(s =~= h + t);
    lemma_dv_append(h, t);
    assert(h.drop_last() =~= Seq::<char>::empty());
    assert(h.last() == s[0]);
    assert(digits_value(h.drop_last()) == 0);
    assert(digits_value(h) == digit_value(s[0]));
    assert(is_digit(s[0]));
    assert(digit_value(s[0]) >= 1);
    let p = ten_pow(t.len());
    assert(digit_value(s[0]) * p >= p) by (nonlinear_arith)
        requires
            digit_value(s[0]) >= 1,
    ;
}


/// Below the range: a number with `np` digits whose point stands `q <= 1`
/// places in is under 10.
pub proof fn lemma_below_range(nv: nat, np: nat, q: int)
    requires
        nv < ten_pow(np),
        q <= 1,
    ensures
        scaled(nv, q + 3 - np).0 < 10_000 * scaled(nv, q + 3 - np).1,
{
    let k = q + 3 - np;
    assert(ten_pow(4) == 10_000) by {
        reveal_with_fuel(ten_pow, 5);
    }
    if k >= 0 {
        let kk = k as nat;
        lemma_ten_pow_add(np, kk);
        lemma_ten_pow_pos(kk);
        lemma_ten_pow_mono(np + kk, 4);
        let a = ten_pow(np);
        let b = ten_pow(kk);
        assert(nv * b < a * b) by (nonlinear_arith)
            requires
                nv < a,
                b >= 1,
        ;
    } else {
        let m = (-k) as nat;
        lemma_ten_pow_add(4, m);
        lemma_ten_pow_mono(np, 4 + m);
    }
}

/// Above the range: a number with `np >= 1` digits, the first nonzero,
/// whose point stands `q >= 4` places in is over 1000.
pub proof fn lemma_above_range(nv: nat, np: nat, q: int)
    requires
        np >= 1,
        nv >= ten_pow((np - 1) as nat),
        q >= 4,
    ensures
        scaled(nv, q + 3 - np).0 > 200_000 * scaled(nv, q + 3 - np).1,
{
    let k = q + 3 - np;
    assert(ten_pow(6) == 1_000_000) by {
        reveal_with_fuel(ten_pow, 7);
    }
    let e = (q + 2) as nat;
    lemma_ten_pow_mono(6, e);
    if k >= 0 {
        let kk = k as nat;
        lemma_ten_pow_add((np - 1) as nat, kk);
        assert((np - 1) as nat + kk == e);
        let a = ten_pow((np - 1) as nat);
        let b = ten_pow(kk);
        lemma_ten_pow_pos(kk);
        assert(nv * b >= a * b) by (nonlinear_arith)
            requires
                nv >= a,
                b >= 1,
        ;
    } else {
        let m = (-k) as nat;
        lemma_ten_pow_add(e, m);
        assert(e + m == (np - 1) as nat);
        lemma_ten_pow_pos(m);
        let a = ten_pow(e);
        let b = ten_pow(m);
        assert(a * b > 200_000 * b) by (nonlinear_arith)
            requires
                a >= 1_000_000,
                b >= 1,
        ;
    }
}

/// Splitting a digit run after its first digits gives the whole part and
/// the remainder of its division by `10^|r|`.
pub proof fn lemma_split_floor(a: Seq<char>, r: Seq<char>)
    requires
        all_digits(r),
    ensures
        digits_value(a + r) / ten_pow(r.len()) == digits_value(a),
        digits_value(a + r) % ten_pow(r.len()) == digits_value(r),
{
    lemma_dv_append(a, r);
    lemma_dv_bound(r);
    lemma_ten_pow_pos(r.len());
    vstd::arithmetic::div_mod::lemma_fundamental_div_mod_converse(
        digits_value(a + r) as int,
        ten_pow(r.len()) as int,
        digits_value(a) as int,
        digits_value(r) as int,
    );
}

/// How a digit run compares with half of `10^len`, by its first digit.
pub proof fn lemma_half(r: Seq<char>)
    requires
        all_digits(r),
        r.len() >= 1,
    ensures
        digit_value(r[0]) >= 6 ==> 2 * digits_value(r) > ten_pow(r.len()),
        digit_value(r[0]) <= 4 ==> 2 * digits_value(r) < ten_pow(r.len()),
        digit_value(r[0]) == 5 ==> 2 * digits_value(r) >= ten_pow(r.len()),
        digit_value(r[0]) == 5 ==> (2 * digits_value(r) == ten_pow(r.len()) <==> digits_value(r.skip(1))
            == 0),
{
    let h = r.take(1);
    let t = r.skip(1);
    assert(r =~= h + t);
    lemma_dv_append(h, t);
    assert(h.last() == r[0]);
    assert(digits_value(h.drop_last()) == 0);
    assert(all_digits(t)) by {
        assert forall|i: int| 0 <= i < t.len() implies is_digit(#[trigger] t[i]) by {
            assert(t[i] == r[i + 1]);
        }
    }
    lemma_dv_bound(t);
    assert(is_digit(r[0]));
    let d0 = digit_value(r[0]);
    let p = ten_pow(t.len());
    let w = digits_value(t);
    assert(ten_pow(r.len()) == 10 * p) by {
        assert(r.len() == t.len() + 1);
    }
    assert(digits_value(r) == d0 * p + w);
    assert(d0 >= 6 ==> 2 * (d0 * p + w) > 10 * p) by (nonlinear_arith)
        requires
            w < p,
    ;
    assert(d0 <= 4 ==> 2 * (d0 * p + w) < 10 * p) by (nonlinear_arith)
        requires
            w < p,
    ;
    assert(d0 == 5 ==> 2 * (d0 * p + w) == 10 * p + 2 * w) by (nonlinear_arith);
}


// ---------------------------------------------------------------------
// Reading the text
// ---------------------------------------------------------------------

/// Exponents are read up to this size; larger ones put any number far
/// outside every range that matters here.
pub open spec fn exp_cap() -> nat {
    1_000_000_000_000_000_000_000_000_000_000
}

fn first_exp(v: &Vec<char>, lo: usize) -> (p: usize)
    requires
        lo <= v@.len(),
    ensures
        lo <= p <= v@.len(),
        forall|j: int| lo <= j < p ==> !is_exp_mark(v@[j]),
        p < v@.len() ==> is_exp_mark(v@[p as int]),
{
    let mut p = lo;
    while p < v.len() && v[p] != 'e' && v[p] != 'E'
        invariant
            lo <= p <= v@.len(),
            forall|j: int| lo <= j < p ==> !is_exp_mark(v@[j]),
        decreases v.len() - p,
    {
        p = p + 1;
    }
    p
}

fn read_mantissa(v: &Vec<char>, lo: usize, hi: usize) -> (r: Option<(Vec<char>, usize)>)
    requires
        lo <= hi <= v@.len(),
    ensures
        match mantissa_parts(v@.subrange(lo as int, hi as int)) {
            None => r is None,
            Some(parts) => r matches Some(x) && x.0@ == parts.0 + parts.1 && x.1 == parts.0.len(),
        },
{
    let ghost m = v@.subrange(lo as int, hi as int);
    let mut p: usize = lo;
    while p < hi && v[p] != '.'
        invariant
            lo <= p <= hi <= v@.len(),
            forall|j: int| lo <= j < p ==> v@[j] != '.',
        decreases hi - p,
    {
        p = p + 1;
    }
    let mut ok = true;
    let mut k: usize = lo;
    while k < hi
        invariant
            lo <= p <= hi <= v@.len(),
            lo <= k <= hi,
            ok == (forall|j: int| lo <= j < k && j != p ==> is_digit(v@[j])),
        decreases hi - k,
    {
        if k != p && !('0' <= v[k] && v[k] <= '9') {
            ok = false;
        }
        k = k + 1;
    }
    let mut digits: Vec<char> = Vec::new();
    if p == hi {
        proof {
            assert(!exists|q: int| is_first_dot(m, q)) by {
                if exists|q: int| is_first_dot(m, q) {
                    let q = choose|q: int| is_first_dot(m, q);
                    assert(m[q] == v@[lo + q]);
                }
            }
            if ok {
                assert forall|i: int| 0 <= i < m.len() implies is_digit(#[trigger] m[i]) by {
                    assert(m[i] == v@[lo + i]);
                }
            } else {
                let j = choose|j: int| lo <= j < hi && j != p && !is_digit(v@[j]);
                assert(!is_digit(m[j - lo]));
            }
        }
        if !ok || hi == lo {
            return None;
        }
        let mut i = lo;
        while i < hi
            invariant
                lo <= i <= hi <= v@.len(),
                digits@ == v@.subrange(lo as int, i as int),
            decreases hi - i,
        {
            digits.push(v[i]);
            i = i + 1;
            assert(digits@ =~= v@.subrange(lo as int, i as int));
        }
        assert(m + Seq::<char>::empty() =~= m);
        return Some((digits, hi - lo));
    }
    let ghost q = (p - lo) as int;
    proof {
        assert(m[q] == v@[p as int]);
        assert(is_first_dot(m, q));
        assert forall|q2: int| is_first_dot(m, q2) implies q2 == q by {
            if q2 < q {
                assert(m[q2] == v@[lo + q2]);
            } else if q2 > q {
                assert(m[q] == '.');
            }
        }
    }
    let ghost ip = m.take(q);
    let ghost fp = m.skip(q + 1);
    assert(ip =~= v@.subrange(lo as int, p as int));
    assert(fp =~= v@.subrange(p + 1, hi as int));
    proof {
        if ok {
            assert forall|i: int| 0 <= i < ip.len() implies is_digit(#[trigger] ip[i]) by {
                assert(ip[i] == v@[lo + i]);
            }
            assert forall|i: int| 0 <= i < fp.len() implies is_digit(#[trigger] fp[i]) by {
                assert(fp[i] == v@[p + 1 + i]);
            }
        } else {
            let j = choose|j: int| lo <= j < hi && j != p && !is_digit(v@[j]);
            if j < p {
                assert(!is_digit(ip[j - lo]));
            } else {
                assert(!is_digit(fp[j - p - 1]));
            }
        }
    }
    if !ok || (p == lo && p + 1 == hi) {
        return None;
    }
    let mut i = lo;
    while i < p
        invariant
            lo <= i <= p < hi <= v@.len(),
            digits@ == v@.subrange(lo as int, i as int),
        decreases p - i,
    {
        digits.push(v[i]);
        i = i + 1;
        assert(digits@ =~= v@.subrange(lo as int, i as int));
    }
    let mut i = p + 1;
    while i < hi
        invariant
            lo <= p < i <= hi <= v@.len(),
            digits@ == v@.subrange(lo as int, p as int) + v@.subrange(p + 1, i as int),
        decreases hi - i,
    {
        digits.push(v[i]);
        i = i + 1;
        assert(digits@ =~= v@.subrange(lo as int, p as int) + v@.subrange(p + 1, i as int));
    }
    Some((digits, p - lo))
}

fn read_exponent(v: &Vec<char>, lo: usize, hi: usize) -> (r: Option<(bool, u128)>)
    requires
        lo <= hi <= v@.len(),
    ensures
        r is Some <==> exponent_value(v@.subrange(lo as int, hi as int)) is Some,
        r matches Some(x) ==> {
            let e = exponent_value(v@.subrange(lo as int, hi as int)).unwrap();
            &&& x.1 <= exp_cap()
            &&& x.1 < exp_cap() ==> e == (if x.0 { -(x.1 as int) } else { x.1 as int })
            &&& x.1 == exp_cap() ==> (if x.0 { e <= -(exp_cap() as int) } else { e >= exp_cap() })
        },
{
    let ghost x = v@.subrange(lo as int, hi as int);
    let signed = lo < hi && (v[lo] == '+' || v[lo] == '-');
    let neg = signed && v[lo] == '-';
    let start = if signed { lo + 1 } else { lo };
    let ghost body = v@.subrange(start as int, hi as int);
    proof {
        if signed {
            assert(x[0] == v@[lo as int]);
            assert(body =~= x.drop_first());
        } else {
            if lo < hi {
                assert(x[0] == v@[lo as int]);
            }
            assert(body =~= x);
        }
    }
    if start == hi {
        return None;
    }
    let cap: u128 = 1_000_000_000_000_000_000_000_000_000_000;
    let mut acc: u128 = 0;
    let mut ok = true;
    let mut i = start;
    while i < hi
        invariant
            start <= i <= hi <= v@.len(),
            body == v@.subrange(start as int, hi as int),
            cap == exp_cap(),
            acc <= cap,
            ok == all_digits(v@.subrange(start as int, i as int)),
            ok ==> acc == (if digits_value(v@.subrange(start as int, i as int)) < cap {
                digits_value(v@.subrange(start as int, i as int))
            } else {
                cap as nat
            }),
        decreases hi - i,
    {
        let c = v[i];
        let ghost pre = v@.subrange(start as int, i as int);
        let ghost nxt = v@.subrange(start as int, i + 1);
        assert(nxt.drop_last() =~= pre);
        assert(nxt.last() == c);
        if '0' <= c && c <= '9' {
            if ok {
                let d: u128 = (c as u128) - ('0' as u128);
                if acc == cap {
                    assert(digits_value(nxt) >= digits_value(pre));
                } else {
                    let next = acc * 10 + d;
                    acc = if next >= cap { cap } else { next };
                }
            }
            proof {
                if ok {
                    assert forall|j: int| 0 <= j < nxt.len() implies is_digit(#[trigger] nxt[j]) by {
                        if j < pre.len() {
                            assert(nxt[j] == pre[j]);
                        }
                    }
                }
            }
        } else {
            assert(!is_digit(nxt[nxt.len() - 1]));
            ok = false;
        }
        proof {
            if !ok {
                if all_digits(nxt) {
                    assert forall|j: int| 0 <= j < pre.len() implies is_digit(#[trigger] pre[j]) by {
                        assert(nxt[j] == pre[j]);
                    }
                    assert(is_digit(nxt[nxt.len() - 1]));
                }
            }
        }
        i = i + 1;
    }
    if !ok {
        return None;
    }
    Some((neg, acc))
}


fn small_digits(v: &Vec<char>, lo: usize, hi: usize) -> (r: u64)
    requires
        lo <= hi <= v@.len(),
        hi - lo <= 6,
        all_digits(v@.subrange(lo as int, hi as int)),
    ensures
        r == digits_value(v@.subrange(lo as int, hi as int)),
        r < ten_pow((hi - lo) as nat),
{
    let mut acc: u64 = 0;
    let mut i = lo;
    assert(ten_pow(6) == 1_000_000) by {
        reveal_with_fuel(ten_pow, 7);
    }
    while i < hi
        invariant
            lo <= i <= hi <= v@.len(),
            hi - lo <= 6,
            ten_pow(6) == 1_000_000,
            all_digits(v@.subrange(lo as int, hi as int)),
            acc == digits_value(v@.subrange(lo as int, i as int)),
            acc < ten_pow((i - lo) as nat),
        decreases hi - i,
    {
        let ghost pre = v@.subrange(lo as int, i as int);
        let ghost nxt = v@.subrange(lo as int, i + 1);
        assert(nxt.drop_last() =~= pre);
        assert(v@.subrange(lo as int, hi as int)[i - lo] == v@[i as int]);
        assert(is_digit(v@[i as int]));
        proof {
            assert(all_digits(nxt)) by {
                assert forall|j: int| 0 <= j < nxt.len() implies is_digit(#[trigger] nxt[j]) by {
                    assert(nxt[j] == v@.subrange(lo as int, hi as int)[j]);
                }
            }
            lemma_dv_bound(nxt);
            lemma_ten_pow_mono((i + 1 - lo) as nat, 6);
        }
        let d: u64 = (v[i] as u64) - ('0' as u64);
        acc = acc * 10 + d;
        i = i + 1;
    }
    acc
}

fn all_zero(v: &Vec<char>, lo: usize, hi: usize) -> (r: bool)
    requires
        lo <= hi <= v@.len(),
    ensures
        r == (forall|j: int| lo <= j < hi ==> v@[j] == '0'),
{
    let mut i = lo;
    while i < hi
        invariant
            lo <= i <= hi <= v@.len(),
            forall|j: int| lo <= j < i ==> v@[j] == '0',
        decreases hi - i,
    {
        if v[i] != '0' {
            return false;
        }
        i = i + 1;
    }
    true
}

proof fn lemma_range_by_floor(num: nat, den: nat, f: nat, r: nat)
    requires
        den >= 1,
        r < den,
        num == f * den + r,
    ensures
        (10_000 * den <= num) == (f >= 10_000),
        (num <= 200_000 * den) == (f < 200_000 || (f == 200_000 && r == 0)),
{
    if f >= 10_000 {
        assert(10_000 * den <= num) by (nonlinear_arith)
            requires
                num == f * den + r,
                f >= 10_000,
        ;
    } else {
        assert(num < 10_000 * den) by (nonlinear_arith)
            requires
                num == f * den + r,
                r < den,
                f <= 9_999,
        ;
    }
    if f < 200_000 {
        assert(num < 200_000 * den) by (nonlinear_arith)
            requires
                num == f * den + r,
                r < den,
                f <= 199_999,
        ;
    } else if f == 200_000 {
        assert(num == 200_000 * den + r) by (nonlinear_arith)
            requires
                num == f * den + r,
                f == 200_000,
        ;
    } else {
        assert(num > 200_000 * den) by (nonlinear_arith)
            requires
                num == f * den + r,
                f >= 200_001,
                den >= 1,
        ;
    }
}

/// The fraction `num / den` lies from 10000 to 200000.
pub open spec fn in_milli_range(num: nat, den: nat) -> bool {
    10_000 * den <= num && num <= 200_000 * den
}

/// `f` is `num / den` rounded down and `c` says how the rest compares
/// with half of `den` (0: none, 1: under half, 2: half, 3: over half).
pub open spec fn floor_and_code(num: nat, den: nat, f: nat, c: u8) -> bool {
    &&& den >= 1
    &&& f == num / den
    &&& (c == 0) == (num % den == 0)
    &&& (c == 1) == (0 < num % den && 2 * (num % den) < den)
    &&& (c == 2) == (2 * (num % den) == den)
    &&& (c == 3) == (2 * (num % den) > den)
}

fn parse_number(t: &str) -> (r: Option<(bool, Vec<char>, usize, bool, u128)>)
    ensures
        r is Some <==> decimal_number(t@) is Some,
        r matches Some(x) ==> {
            let d = decimal_number(t@).unwrap();
            &&& d.negative == x.0
            &&& d.digits == x.1@
            &&& d.int_len == x.2
            &&& all_digits(d.digits)
            &&& x.4 <= exp_cap()
            &&& x.4 < exp_cap() ==> d.exponent == (if x.3 { -(x.4 as int) } else { x.4 as int })
            &&& x.4 == exp_cap() ==> (if x.3 { d.exponent <= -(exp_cap() as int) } else { d.exponent >= exp_cap() })
        },
{
    let v = chars_of(t);
    let n = v.len();
    let negative = n > 0 && v[0] == '-';
    let start: usize = if n > 0 && (v[0] == '+' || v[0] == '-') { 1 } else { 0 };
    let ghost b = unsigned_text(t@);
    assert(b =~= v@.subrange(start as int, n as int));
    let pe = first_exp(&v, start);
    let ghost has_exp = exists|p: int| is_first_exp(b, p);
    proof {
        if pe < n {
            assert(is_first_exp(b, pe - start));
            assert forall|p2: int| is_first_exp(b, p2) implies p2 == pe - start by {
                if p2 < pe - start {
                    assert(b[p2] == v@[start + p2]);
                } else if p2 > pe - start {
                    assert(b[pe - start] == v@[pe as int]);
                }
            }
        } else {
            assert(!has_exp) by {
                if has_exp {
                    let p2 = choose|p: int| is_first_exp(b, p);
                    assert(b[p2] == v@[start + p2]);
                }
            }
        }
    }
    let ghost pe_spec: int = if has_exp { choose|p: int| is_first_exp(b, p) } else { b.len() as int };
    assert(pe_spec == pe - start);
    assert(b.take(pe_spec) =~= v@.subrange(start as int, pe as int));
    let (digits, int_len) = match read_mantissa(&v, start, pe) {
        None => return None,
        Some(x) => x,
    };
    proof {
        let parts = mantissa_parts(b.take(pe_spec)).unwrap();
        assert(all_digits(parts.0 + parts.1)) by {
            assert forall|j: int| 0 <= j < (parts.0 + parts.1).len() implies is_digit(#[trigger] (parts.0 + parts.1)[j]) by {
                if j < parts.0.len() {
                    assert((parts.0 + parts.1)[j] == parts.0[j]);
                } else {
                    assert((parts.0 + parts.1)[j] == parts.1[j - parts.0.len()]);
                }
            }
        }
    }
    if pe < n {
        assert(b.skip(pe_spec + 1) =~= v@.subrange(pe + 1, n as int));
        match read_exponent(&v, pe + 1, n) {
            None => None,
            Some(x) => Some((negative, digits, int_len, x.0, x.1)),
        }
    } else {
        assert(exp_cap() > 0);
        Some((negative, digits, int_len, false, 0))
    }
}

fn floor_of_long(digits: &Vec<char>, z: usize, sdig: usize, Ghost(k): Ghost<int>) -> (r: (u64, u8))
    requires
        z + sdig <= digits@.len(),
        sdig <= 6,
        all_digits(digits@.skip(z as int)),
        k == sdig - (digits@.len() - z),
    ensures
        floor_and_code(
            scaled(digits_value(digits@.skip(z as int)), k).0,
            scaled(digits_value(digits@.skip(z as int)), k).1,
            r.0 as nat,
            r.1,
        ),
{
    let ghost dd = digits@;
    let ghost tail = dd.skip(z as int);
    let len = digits.len();
    let ghost a = tail.take(sdig as int);
    let ghost rest = tail.skip(sdig as int);
    assert(a =~= dd.subrange(z as int, z + sdig));
    assert(all_digits(a)) by {
        assert forall|j: int| 0 <= j < a.len() implies is_digit(#[trigger] a[j]) by {
            assert(a[j] == tail[j]);
        }
    }
    let f = small_digits(digits, z, z + sdig);
    let ghost nv = digits_value(tail);
    proof {
        assert(tail =~= a + rest);
        assert(all_digits(rest)) by {
            assert forall|j: int| 0 <= j < rest.len() implies is_digit(#[trigger] rest[j]) by {
                assert(rest[j] == tail[sdig + j]);
            }
        }
        lemma_split_floor(a, rest);
        assert(k == -(rest.len() as int));
        if rest.len() == 0 {
            assert(ten_pow(0) == 1);
            assert(nv * 1 == nv);
        }
        lemma_ten_pow_pos(rest.len());
    }
    let ghost num = scaled(nv, k).0;
    let ghost den = scaled(nv, k).1;
    assert(num == nv && den == ten_pow(rest.len()));
    if z + sdig == len {
        proof {
            assert(den == 1);
            assert(num % 1 == 0) by (nonlinear_arith);
        }
        return (f, 0);
    }
    let r0 = digits[z + sdig];
    let after_zero = all_zero(digits, z + sdig + 1, len);
    proof {
        assert(rest[0] == r0);
        lemma_half(rest);
        lemma_dv_zero(rest);
        let rs = rest.skip(1);
        assert(all_digits(rs)) by {
            assert forall|j: int| 0 <= j < rs.len() implies is_digit(#[trigger] rs[j]) by {
                assert(rs[j] == rest[j + 1]);
            }
        }
        lemma_dv_zero(rs);
        assert(after_zero == (forall|j: int| 0 <= j < rs.len() ==> rs[j] == '0')) by {
            if after_zero {
                assert forall|j: int| 0 <= j < rs.len() implies rs[j] == '0' by {
                    assert(rs[j] == dd[z + sdig + 1 + j]);
                }
            } else {
                let j = choose|j: int| z + sdig + 1 <= j < len && dd[j] != '0';
                assert(rs[j - z - sdig - 1] == dd[j]);
            }
        }
        assert((forall|j: int| 0 <= j < rest.len() ==> rest[j] == '0') == (r0 == '0' && after_zero)) by {
            if r0 == '0' && after_zero {
                assert forall|j: int| 0 <= j < rest.len() implies rest[j] == '0' by {
                    if j > 0 {
                        assert(rest[j] == rs[j - 1]);
                    }
                }
            }
            if forall|j: int| 0 <= j < rest.len() ==> rest[j] == '0' {
                assert forall|j: int| 0 <= j < rs.len() implies rs[j] == '0' by {
                    assert(rs[j] == rest[j + 1]);
                }
            }
        }
        assert(is_digit(r0));
    }
    let c: u8 = if r0 > '5' {
        3
    } else if r0 == '5' {
        if after_zero { 2 } else { 3 }
    } else if r0 == '0' && after_zero {
        0
    } else {
        1
    };
    (f, c)
}

fn floor_of_short(digits: &Vec<char>, z: usize, sdig: usize, Ghost(k): Ghost<int>) -> (f: u64)
    requires
        z <= digits@.len(),
        digits@.len() - z < sdig <= 6,
        all_digits(digits@.skip(z as int)),
        k == sdig - (digits@.len() - z),
    ensures
        floor_and_code(
            scaled(digits_value(digits@.skip(z as int)), k).0,
            scaled(digits_value(digits@.skip(z as int)), k).1,
            f as nat,
            0,
        ),
{
    let len = digits.len();
    let ghost tail = digits@.skip(z as int);
    assert(digits@.subrange(z as int, len as int) =~= tail);
    let base = small_digits(digits, z, len);
    let ghost nv = digits_value(tail);
    let npx = len - z;
    let kk: usize = sdig - npx;
    let mut f: u64 = base;
    let mut j: usize = 0;
    assert(ten_pow(6) == 1_000_000) by {
        reveal_with_fuel(ten_pow, 7);
    }
    assert(ten_pow(0) == 1);
    while j < kk
        invariant
            j <= kk,
            kk + npx == sdig,
            sdig <= 6,
            ten_pow(6) == 1_000_000,
            nv < ten_pow(npx as nat),
            f == nv * ten_pow(j as nat),
        decreases kk - j,
    {
        proof {
            lemma_ten_pow_add(npx as nat, (j + 1) as nat);
            lemma_ten_pow_mono((npx + j + 1) as nat, 6);
            lemma_ten_pow_pos((j + 1) as nat);
            let a = ten_pow(npx as nat);
            let b2 = ten_pow((j + 1) as nat);
            assert(nv * b2 < a * b2) by (nonlinear_arith)
                requires
                    nv < a,
                    b2 >= 1,
            ;
            assert(ten_pow((j + 1) as nat) == 10 * ten_pow(j as nat));
            assert(nv * (10 * ten_pow(j as nat)) == (nv * ten_pow(j as nat)) * 10) by (nonlinear_arith);
        }
        f = f * 10;
        j = j + 1;
    }
    proof {
        let num = scaled(nv, k).0;
        assert(k == kk as int);
        assert(num == f);
        assert(num / 1 == num && num % 1 == 0) by (nonlinear_arith);
    }
    f
}

/// What committing needs of a text read as `f64::from_str` reads it:
/// `None` when the text writes no number from 10 to 200; otherwise the
/// number in thousandths rounded down, and how the rest compares with
/// half a thousandth (0: nothing left, 1: less than half, 2: exactly
/// half, 3: more than half).
pub fn read_in_range(t: &str) -> (r: Option<(u32, u8)>)
    ensures
        r is Some <==> reads_in_range(t@),
        r matches Some(x) ==> floor_and_code(
            milli_fraction(decimal_number(t@).unwrap()).0,
            milli_fraction(decimal_number(t@).unwrap()).1,
            x.0 as nat,
            x.1,
        ),
{
    let (negative, digits, int_len, eneg, eabs) = match parse_number(t) {
        None => return None,
        Some(x) => x,
    };
    let ghost d = decimal_number(t@).unwrap();
    if negative {
        return None;
    }
    let len = digits.len();
    let mut z: usize = 0;
    while z < len && digits[z] == '0'
        invariant
            z <= len == digits@.len(),
            forall|j: int| 0 <= j < z ==> digits@[j] == '0',
        decreases len - z,
    {
        z = z + 1;
    }
    let ghost dd = digits@;
    let ghost zs = dd.take(z as int);
    let ghost tail = dd.skip(z as int);
    proof {
        assert(dd =~= zs + tail);
        lemma_dv_append(zs, tail);
        assert(all_digits(zs)) by {
            assert forall|j: int| 0 <= j < zs.len() implies is_digit(#[trigger] zs[j]) by {
                assert(zs[j] == dd[j]);
            }
        }
        assert(all_digits(tail)) by {
            assert forall|j: int| 0 <= j < tail.len() implies is_digit(#[trigger] tail[j]) by {
                assert(tail[j] == dd[z + j]);
            }
        }
        lemma_dv_zero(zs);
        assert forall|j: int| 0 <= j < zs.len() implies zs[j] == '0' by {
            assert(zs[j] == dd[j]);
        }
        assert(digits_value(zs) == 0);
        assert(0 * ten_pow(tail.len()) == 0);
        assert(digits_value(dd) == digits_value(tail));
        lemma_dv_bound(tail);
    }
    let ghost nv = digits_value(tail);
    let ghost np = tail.len();
    let ghost q: int = int_len + d.exponent - z;
    assert(milli_fraction(d) == scaled(nv, q + 3 - np));
    if z == len {
        proof {
            lemma_dv_zero(tail);
            assert(nv == 0);
            if q + 3 - np < 0 {
                lemma_ten_pow_pos(((-(q + 3 - np)) as nat));
            }
        }
        return None;
    }
    proof {
        assert(tail[0] == dd[z as int]);
        lemma_dv_lead(tail);
    }
    let cap: u128 = 1_000_000_000_000_000_000_000_000_000_000;
    if eabs == cap {
        proof {
            if eneg {
                lemma_below_range(nv, np, q);
            } else {
                lemma_above_range(nv, np, q);
            }
        }
        return None;
    }
    let qx: i128 = if eneg {
        int_len as i128 - eabs as i128 - z as i128
    } else {
        int_len as i128 + eabs as i128 - z as i128
    };
    assert(qx == q);
    if qx != 2 && qx != 3 {
        proof {
            if q <= 1 {
                lemma_below_range(nv, np, q);
            } else {
                lemma_above_range(nv, np, q);
            }
        }
        return None;
    }
    let sdig: usize = if qx == 2 { 5 } else { 6 };
    let ghost k: int = q + 3 - np;
    let ghost num = scaled(nv, k).0;
    let ghost den = scaled(nv, k).1;
    let (f, c) = if len - z >= sdig {
        floor_of_long(&digits, z, sdig, Ghost(k))
    } else {
        (floor_of_short(&digits, z, sdig, Ghost(k)), 0u8)
    };
    proof {
        vstd::arithmetic::div_mod::lemma_fundamental_div_mod(num as int, den as int);
        lemma_range_by_floor(num, den, f as nat, num % den);
    }
    if f < 10_000 || f > 200_000 || (f == 200_000 && c != 0) {
        return None;
    }
    Some((f as u32, c))
}

/// A run of digits reads as the whole number it writes.
pub proof fn lemma_reads_digits(s: Seq<char>)
    requires
        all_digits(s),
        s.len() > 0,
    ensures
        decimal_number(s) == Some(DecimalNumber { negative: false, digits: s, int_len: s.len(), exponent: 0 }),
        milli_fraction(decimal_number(s).unwrap()) == (digits_value(s) * 1000, 1nat),
{
    assert(is_digit(s[0]));
    assert(unsigned_text(s) == s);
    assert(!exists|p: int| is_first_exp(s, p)) by {
        if exists|p: int| is_first_exp(s, p) {
            let p = choose|p: int| is_first_exp(s, p);
            assert(is_digit(s[p]));
        }
    }
    assert(s.take(s.len() as int) =~= s);
    assert(!exists|p: int| is_first_dot(s, p)) by {
        if exists|p: int| is_first_dot(s, p) {
            let p = choose|p: int| is_first_dot(s, p);
            assert(is_digit(s[p]));
        }
    }
    assert(s + Seq::<char>::empty() =~= s);
    assert(ten_pow(3) == 1000) by {
        reveal_with_fuel(ten_pow, 4);
    }
}

} // verus!
