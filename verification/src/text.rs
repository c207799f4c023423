//! Text helpers: decimal rendering of integers and of fixed-point
//! thousandths, character access, equality and substring search.
use vstd::prelude::*;
use vstd::string::*;

verus! {

/// The character of a decimal digit.
pub open spec fn digit_char(d: nat) -> char {
    if d == 0 {
        '0'
    } else if d == 1 {
        '1'
    } else if d == 2 {
        '2'
    } else if d == 3 {
        '3'
    } else if d == 4 {
        '4'
    } else if d == 5 {
        '5'
    } else if d == 6 {
        '6'
    } else if d == 7 {
        '7'
    } else if d == 8 {
        '8'
    } else {
        '9'
    }
}

/// Decimal digits of `n`, most significant first, without leading zeros
/// (`0` is written `"0"`).
pub open spec fn dec(n: nat) -> Seq<char>
    decreases n,
{
    if n < 10 {
        seq![digit_char(n)]
    } else {
        dec(n / 10).push(digit_char(n % 10))
    }
}

/// `m` thousandths written with exactly three decimals, as `{:.3}` writes it.
pub open spec fn fixed3(m: nat) -> Seq<char> {
    dec(m / 1000) + seq!['.', digit_char((m / 100) % 10), digit_char((m / 10) % 10), digit_char(m % 10)]
}

/// The fractional digits of `m` thousandths without trailing zeros
/// (empty when `m` is whole).
pub open spec fn frac_digits(m: nat) -> Seq<char> {
    let f = m % 1000;
    if f == 0 {
        seq![]
    } else if f % 100 == 0 {
        seq![digit_char(f / 100)]
    } else if f % 10 == 0 {
        seq![digit_char(f / 100), digit_char((f / 10) % 10)]
    } else {
        seq![digit_char(f / 100), digit_char((f / 10) % 10), digit_char(f % 10)]
    }
}

/// `m` thousandths in the shortest decimal form, as `{}` writes a number:
/// `500` is `"0.5"`, `2000` is `"2"`.
pub open spec fn display_milli(m: nat) -> Seq<char> {
    if m % 1000 == 0 {
        dec(m / 1000)
    } else {
        dec(m / 1000) + seq!['.'] + frac_digits(m)
    }
}

/// `m` thousandths as `{:?}` writes a number: like `display_milli`,
/// but a whole number keeps a `.0`.
pub open spec fn debug_milli(m: nat) -> Seq<char> {
    if m % 1000 == 0 {
        dec(m / 1000) + seq!['.', '0']
    } else {
        display_milli(m)
    }
}

/// `{:?}` of an optional whole number: `"None"` or `"Some(n)"`.
pub open spec fn debug_opt_count(o: Option<u32>) -> Seq<char> {
    match o {
        None => seq!['N', 'o', 'n', 'e'],
        Some(v) => seq!['S', 'o', 'm', 'e', '('] + dec(v as nat) + seq![')'],
    }
}

/// `{:?}` of an optional quantity in thousandths: `"None"` or `"Some(x)"`.
pub open spec fn debug_opt_milli(o: Option<u32>) -> Seq<char> {
    match o {
        None => seq!['N', 'o', 'n', 'e'],
        Some(v) => seq!['S', 'o', 'm', 'e', '('] + debug_milli(v as nat) + seq![')'],
    }
}

/// Rounds `n / d` to the nearest whole number, a tie going to the even one.
pub open spec fn round_half_even(n: nat, d: nat) -> nat
    recommends
        d > 0,
{
    let q = n / d;
    let r = n % d;
    if 2 * r > d {
        q + 1
    } else if 2 * r < d {
        q
    } else if q % 2 == 0 {
        q
    } else {
        q + 1
    }
}

/// `m` thousandths rounded to a whole number, as `{:.0}` writes it.
pub open spec fn whole_milli(m: nat) -> Seq<char> {
    dec(round_half_even(m, 1000))
}

pub fn digit_str(d: u64) -> (s: &'static str)
    requires
        d < 10,
    ensures
        s@ == seq![digit_char(d as nat)],
{
    proof {
        reveal_strlit("0");
        reveal_strlit("1");
        reveal_strlit("2");
        reveal_strlit("3");
        reveal_strlit("4");
        reveal_strlit("5");
        reveal_strlit("6");
        reveal_strlit("7");
        reveal_strlit("8");
        reveal_strlit("9");
    }
    if d == 0 {
        "0"
    } else if d == 1 {
        "1"
    } else if d == 2 {
        "2"
    } else if d == 3 {
        "3"
    } else if d == 4 {
        "4"
    } else if d == 5 {
        "5"
    } else if d == 6 {
        "6"
    } else if d == 7 {
        "7"
    } else if d == 8 {
        "8"
    } else {
        "9"
    }
}

/// Appends the decimal digits of `n`.
pub fn push_dec(s: &mut String, n: u64)
    ensures
        final(s)@ == old(s)@ + dec(n as nat),
    decreases n,
{
    if n >= 10 {
        push_dec(s, n / 10);
        s.append(digit_str(n % 10));
        assert(final(s)@ =~= old(s)@ + dec(n as nat));
    } else {
        s.append(digit_str(n));
    }
}

/// Appends `m` thousandths with exactly three decimals.
pub fn push_fixed3(s: &mut String, m: u64)
    ensures
        final(s)@ == old(s)@ + fixed3(m as nat),
{
    push_dec(s, m / 1000);
    s.append(".");
    s.append(digit_str((m / 100) % 10));
    s.append(digit_str((m / 10) % 10));
    s.append(digit_str(m % 10));
    proof {
        reveal_strlit(".");
    }
    assert(final(s)@ =~= old(s)@ + fixed3(m as nat));
}

/// Appends `m` thousandths in the shortest decimal form.
pub fn push_display_milli(s: &mut String, m: u64)
    ensures
        final(s)@ == old(s)@ + display_milli(m as nat),
{
    proof {
        reveal_strlit(".");
    }
    push_dec(s, m / 1000);
    let f = m % 1000;
    if f != 0 {
        s.append(".");
        s.append(digit_str(f / 100));
        if f % 100 != 0 {
            s.append(digit_str((f / 10) % 10));
            if f % 10 != 0 {
                s.append(digit_str(f % 10));
            }
        }
    }
    assert(final(s)@ =~= old(s)@ + display_milli(m as nat));
}

/// Appends `m` thousandths as `{:?}` writes a number.
pub fn push_debug_milli(s: &mut String, m: u64)
    ensures
        final(s)@ == old(s)@ + debug_milli(m as nat),
{
    proof {
        reveal_strlit(".0");
    }
    push_display_milli(s, m);
    if m % 1000 == 0 {
        s.append(".0");
    }
    assert(final(s)@ =~= old(s)@ + debug_milli(m as nat));
}

/// Appends `{:?}` of an optional whole number.
pub fn push_debug_opt_count(s: &mut String, o: Option<u32>)
    ensures
        final(s)@ == old(s)@ + debug_opt_count(o),
{
    proof {
        reveal_strlit("None");
        reveal_strlit("Some(");
        reveal_strlit(")");
    }
    match o {
        None => {
            s.append("None");
        },
        Some(v) => {
            s.append("Some(");
            push_dec(s, v as u64);
            s.append(")");
        },
    }
    assert(final(s)@ =~= old(s)@ + debug_opt_count(o));
}

/// Appends `{:?}` of an optional quantity in thousandths.
pub fn push_debug_opt_milli(s: &mut String, o: Option<u32>)
    ensures
        final(s)@ == old(s)@ + debug_opt_milli(o),
{
    proof {
        reveal_strlit("None");
        reveal_strlit("Some(");
        reveal_strlit(")");
    }
    match o {
        None => {
            s.append("None");
        },
        Some(v) => {
            s.append("Some(");
            push_debug_milli(s, v as u64);
            s.append(")");
        },
    }
    assert(final(s)@ =~= old(s)@ + debug_opt_milli(o));
}

/// Appends `m` thousandths rounded to a whole number (ties to even).
pub fn push_whole_milli(s: &mut String, m: u64)
    ensures
        final(s)@ == old(s)@ + whole_milli(m as nat),
{
    let q = m / 1000;
    let r = m % 1000;
    let w = if r > 500 {
        q + 1
    } else if r < 500 {
        q
    } else if q % 2 == 0 {
        q
    } else {
        q + 1
    };
    push_dec(s, w);
}

/// The characters of `s`, in order.
pub fn chars_of(s: &str) -> (v: Vec<char>)
    ensures
        v@ == s@,
{
    let n = s.unicode_len();
    let mut v: Vec<char> = Vec::new();
    let mut i: usize = 0;
    while i < n
        invariant
            n == s@.len(),
            i <= n,
            v@ == s@.subrange(0, i as int),
        decreases n - i,
    {
        let c = s.get_char(i);
        v.push(c);
        i = i + 1;
        assert(v@ =~= s@.subrange(0, i as int));
    }
    assert(v@ =~= s@);
    v
}

/// Whether two character sequences are equal.
pub fn chars_eq(a: &Vec<char>, b: &Vec<char>) -> (r: bool)
    ensures
        r == (a@ == b@),
{
    if a.len() != b.len() {
        return false;
    }
    let mut i: usize = 0;
    while i < a.len()
        invariant
            a@.len() == b@.len(),
            i <= a@.len(),
            forall|j: int| 0 <= j < i ==> a@[j] == b@[j],
        decreases a.len() - i,
    {
        if a[i] != b[i] {
            return false;
        }
        i = i + 1;
    }
    assert(a@ =~= b@);
    true
}

/// Whether two strings hold the same text.
pub fn str_eq(a: &str, b: &str) -> (r: bool)
    ensures
        r == (a@ == b@),
{
    let va = chars_of(a);
    let vb = chars_of(b);
    chars_eq(&va, &vb)
}

/// `pat` occurs in `s` starting at position `i`.
pub open spec fn occurs_at(s: Seq<char>, pat: Seq<char>, i: int) -> bool {
    0 <= i && i + pat.len() <= s.len() && s.subrange(i, i + pat.len()) == pat
}

/// `pat` occurs somewhere in `s`, as `str::contains` finds it.
pub open spec fn has_substring(s: Seq<char>, pat: Seq<char>) -> bool {
    exists|i: int| occurs_at(s, pat, i)
}

fn occurs_at_exec(s: &Vec<char>, pat: &Vec<char>, i: usize) -> (r: bool)
    requires
        i + pat@.len() <= s@.len(),
    ensures
        r == occurs_at(s@, pat@, i as int),
{
    let mut j: usize = 0;
    while j < pat.len()
        invariant
            i + pat@.len() <= s@.len(),
            s@.len() == s.len(),
            j <= pat@.len(),
            forall|k: int| 0 <= k < j ==> s@[i + k] == pat@[k],
        decreases pat.len() - j,
    {
        if s[i + j] != pat[j] {
            assert(s@.subrange(i as int, i + pat@.len())[j as int] != pat@[j as int]);
            return false;
        }
        j = j + 1;
    }
    assert(s@.subrange(i as int, i + pat@.len()) =~= pat@);
    true
}

/// Whether `pat` occurs in `s`.
pub fn contains_str(s: &str, pat: &str) -> (r: bool)
    ensures
        r == has_substring(s@, pat@),
{
    let vs = chars_of(s);
    let vp = chars_of(pat);
    if vp.len() > vs.len() {
        assert forall|i: int| !occurs_at(s@, pat@, i) by {}
        return false;
    }
    let last = vs.len() - vp.len();
    let mut i: usize = 0;
    while i < last
        invariant
            vs@ == s@,
            vp@ == pat@,
            last == vs@.len() - vp@.len(),
            vp@.len() <= vs@.len(),
            i <= last,
            forall|k: int| 0 <= k < i ==> !occurs_at(s@, pat@, k),
        decreases last - i,
    {
        if occurs_at_exec(&vs, &vp, i) {
            return true;
        }
        i = i + 1;
    }
    if occurs_at_exec(&vs, &vp, last) {
        return true;
    }
    assert forall|k: int| !occurs_at(s@, pat@, k) by {
        if 0 <= k && k + pat@.len() <= s@.len() {
            assert(k <= last);
        }
    }
    false
}

/// A decimal digit character.
pub open spec fn is_digit(c: char) -> bool {
    '0' <= c && c <= '9'
}

/// The value of a decimal digit character.
pub open spec fn digit_value(c: char) -> nat {
    (c as int - '0' as int) as nat
}

/// Every character of `s` is a decimal digit.
pub open spec fn all_digits(s: Seq<char>) -> bool {
    forall|i: int| 0 <= i < s.len() ==> is_digit(#[trigger] s[i])
}

/// The number that a run of decimal digits writes (`0` for an empty run).
pub open spec fn digits_value(s: Seq<char>) -> nat
    decreases s.len(),
{
    if s.len() == 0 {
        0
    } else {
        digits_value(s.drop_last()) * 10 + digit_value(s.last())
    }
}

/// `p` is the position of the first `.` in `s`.
pub open spec fn is_first_dot(s: Seq<char>, p: int) -> bool {
    0 <= p < s.len() && s[p] == '.' && forall|j: int| 0 <= j < p ==> s[j] != '.'
}

proof fn lemma_digit_char(d: nat)
    requires
        d < 10,
    ensures
        is_digit(digit_char(d)),
        digit_value(digit_char(d)) == d,
{
}

/// The decimal digits of `n` are digits that read back as `n`.
pub proof fn lemma_dec_reads_back(n: nat)
    ensures
        all_digits(dec(n)),
        digits_value(dec(n)) == n,
        dec(n).len() > 0,
    decreases n,
{
    if n < 10 {
        lemma_digit_char(n);
        assert(dec(n).drop_last() =~= Seq::<char>::empty());
        assert(digits_value(dec(n).drop_last()) == 0);
        assert(dec(n).last() == digit_char(n));
    } else {
        lemma_digit_char(n % 10);
        lemma_dec_reads_back(n / 10);
        let d = dec(n);
        assert(d.drop_last() =~= dec(n / 10));
        assert(d.last() == digit_char(n % 10));
        assert(digits_value(d) == digits_value(d.drop_last()) * 10 + digit_value(d.last()));
        assert(n == (n / 10) * 10 + n % 10);
        assert forall|i: int| 0 <= i < d.len() implies is_digit(#[trigger] d[i]) by {
            if i < d.len() - 1 {
                assert(d[i] == dec(n / 10)[i]);
            }
        }
    }
}

/// Ten to the power `k`.
pub open spec fn ten_pow(k: nat) -> nat
    decreases k,
{
    if k == 0 {
        1
    } else {
        10 * ten_pow((k - 1) as nat)
    }
}

/// A number below `10^k` takes at most `k` decimal digits (`k >= 1`).
pub proof fn lemma_dec_len(n: nat, k: nat)
    requires
        k >= 1,
        n < ten_pow(k),
    ensures
        dec(n).len() <= k,
    decreases k,
{
    if n >= 10 {
        assert(k >= 2) by {
            if k == 1 {
                assert(ten_pow(1) == 10) by {
                    assert(ten_pow(0) == 1);
                }
            }
        }
        assert(n / 10 < ten_pow((k - 1) as nat));
        lemma_dec_len(n / 10, (k - 1) as nat);
    }
}

} // verus!
