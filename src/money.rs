//! Fixed-point money: `Price4Decimals` counts units of 10^-4, `Amount8Decimals`
//! counts units of 10^-8. Both parse from and format to decimal strings.

use vstd::prelude::*;

verus! {

/// Ten to the power `n`.
pub open spec fn pow10(n: nat) -> nat
    decreases n,
{
    if n == 0 {
        1
    } else {
        10 * pow10((n - 1) as nat)
    }
}

pub open spec fn is_digit(c: char) -> bool {
    '0' <= c && c <= '9'
}

pub open spec fn digit_value(c: char) -> nat {
    (c as int - '0' as int) as nat
}

pub open spec fn all_digits(s: Seq<char>) -> bool {
    forall|i: int| 0 <= i < s.len() ==> is_digit(#[trigger] s[i])
}

/// The number that a string of decimal digits denotes.
pub open spec fn digits_value(s: Seq<char>) -> nat
    decreases s.len(),
{
    if s.len() == 0 {
        0
    } else {
        digits_value(s.drop_last()) * 10 + digit_value(s.last())
    }
}

/// `j` is the position of the first decimal point in `s`.
pub open spec fn first_point_at(s: Seq<char>, j: int) -> bool {
    &&& 0 <= j < s.len()
    &&& s[j] == '.'
    &&& forall|k: int| 0 <= k < j ==> s[k] != '.'
}

/// Position of the first decimal point, or the length when there is none.
pub open spec fn point_index(s: Seq<char>) -> int {
    if exists|j: int| first_point_at(s, j) {
        choose|j: int| first_point_at(s, j)
    } else {
        s.len() as int
    }
}

pub open spec fn whole_part(s: Seq<char>) -> Seq<char> {
    s.take(point_index(s))
}

pub open spec fn fraction_part(s: Seq<char>) -> Seq<char> {
    if point_index(s) < s.len() {
        s.skip(point_index(s) + 1)
    } else {
        Seq::empty()
    }
}

/// The grammar `digits ('.' digits?)?`: a non-empty whole part, then an
/// optional point with an optional run of fraction digits.
pub open spec fn is_decimal(s: Seq<char>) -> bool {
    &&& whole_part(s).len() > 0
    &&& all_digits(whole_part(s))
    &&& all_digits(fraction_part(s))
}

pub open spec fn zeros(n: nat) -> Seq<char> {
    Seq::new(n, |i: int| '0')
}

/// Exactly `scale` fraction digits: padded with zeros on the right, or cut
/// after `scale` digits (rounding toward zero).
pub open spec fn scaled_fraction(f: Seq<char>, scale: nat) -> Seq<char> {
    if f.len() <= scale {
        f + zeros((scale - f.len()) as nat)
    } else {
        f.take(scale as int)
    }
}

/// The count of 10^-scale units that a decimal string denotes.
pub open spec fn decimal_units(s: Seq<char>, scale: nat) -> nat {
    digits_value(whole_part(s) + scaled_fraction(fraction_part(s), scale))
}

/// Why a decimal string was refused.
#[derive(Clone, Copy, Debug, PartialEq, Eq, Structural)]
pub enum DecimalError {
    /// The text does not follow `digits ('.' digits?)?`.
    Malformed,
    /// The value does not fit in 128 bits of units.
    Overflow,
}

pub proof fn lemma_pow10_positive(n: nat)
    ensures
        pow10(n) >= 1,
    decreases n,
{
    if n > 0 {
        lemma_pow10_positive((n - 1) as nat);
    }
}

proof fn lemma_pow10_monotone(a: nat, b: nat)
    requires
        a <= b,
    ensures
        pow10(a) <= pow10(b),
    decreases b,
{
    if a < b {
        lemma_pow10_monotone(a, (b - 1) as nat);
        lemma_pow10_positive((b - 1) as nat);
    }
}

proof fn lemma_pow10_fits(n: nat)
    requires
        n <= 38,
    ensures
        pow10(n) <= u128::MAX,
{
    lemma_pow10_monotone(n, 38);
    reveal_with_fuel(pow10, 39);
    assert(pow10(38) == 100000000000000000000000000000000000000);
}

/// Computes 10^n.
fn pow10_exec(n: usize) -> (r: u128)
    requires
        n <= 38,
    ensures
        r == pow10(n as nat),
{
    let mut r: u128 = 1;
    let mut i: usize = 0;
    while i < n
        invariant
            i <= n <= 38,
            r == pow10(i as nat),
        decreases n - i,
    {
        proof {
            lemma_pow10_fits((i + 1) as nat);
        }
        r = r * 10;
        i = i + 1;
    }
    r
}

proof fn lemma_digits_value_push(s: Seq<char>, c: char)
    ensures
        digits_value(s.push(c)) == digits_value(s) * 10 + digit_value(c),
{
    assert(s.push(c).drop_last() =~= s);
}

proof fn lemma_digits_value_grows(s: Seq<char>, c: char)
    requires
        is_digit(c),
    ensures
        digits_value(s.push(c)) >= digits_value(s),
{
    lemma_digits_value_push(s, c);
}

fn digit_of(c: char) -> (r: u128)
    requires
        is_digit(c),
    ensures
        r == digit_value(c),
        r < 10,
{
    (c as u32 - '0' as u32) as u128
}

/// Appends one decimal digit to `acc`, recording in `over` whether the value
/// has left the range of `u128`.
fn push_digit(acc: &mut u128, over: &mut bool, d: u128, Ghost(s): Ghost<Seq<char>>, Ghost(c): Ghost<char>)
    requires
        is_digit(c),
        d == digit_value(c),
        !*old(over) ==> *old(acc) == digits_value(s),
        *old(over) ==> digits_value(s) > u128::MAX,
    ensures
        !*final(over) ==> *final(acc) == digits_value(s.push(c)),
        *final(over) ==> digits_value(s.push(c)) > u128::MAX,
{
    proof {
        lemma_digits_value_push(s, c);
    }
    if !*over {
        match acc.checked_mul(10) {
            Some(t) => match t.checked_add(d) {
                Some(v) => {
                    *acc = v;
                },
                None => {
                    *over = true;
                },
            },
            None => {
                *over = true;
            },
        }
    }
}

/// Reads a decimal string as a count of 10^-`decimals` units.
pub fn parse_units_from_decimal(s: &str, decimals: usize) -> (r: Result<u128, DecimalError>)
    requires
        decimals <= 38,
    ensures
        !is_decimal(s@) <==> r == Err::<u128, DecimalError>(DecimalError::Malformed),
        is_decimal(s@) && decimal_units(s@, decimals as nat) > u128::MAX <==> r == Err::<u128, DecimalError>(DecimalError::Overflow),
        r matches Ok(u) ==> u == decimal_units(s@, decimals as nat),
{
    let n = s.unicode_len();
    // locate the first point
    let mut k: usize = 0;
    while k < n && s.get_char(k) != '.'
        invariant
            k <= n,
            n == s@.len(),
            forall|j: int| 0 <= j < k ==> s@[j] != '.',
        decreases n - k,
    {
        k = k + 1;
    }
    let ghost sv = s@;
    proof {
        if k < n {
            assert(first_point_at(sv, k as int));
            let j = choose|j: int| first_point_at(sv, j);
            assert(j == k as int);
        } else {
            assert forall|j: int| !first_point_at(sv, j) by {}
        }
        assert(point_index(sv) == k as int);
    }
    let ghost whole = whole_part(sv);
    let ghost frac = fraction_part(sv);
    if k == 0 {
        return Err(DecimalError::Malformed);
    }
    let mut acc: u128 = 0;
    let mut over = false;
    let mut i: usize = 0;
    while i < k
        invariant
            0 < k <= n,
            n == sv.len(),
            s@ == sv,
            point_index(sv) == k,
            whole == whole_part(sv),
            frac == fraction_part(sv),
            whole == sv.take(k as int),
            i <= k,
            all_digits(whole.take(i as int)),
            !over ==> acc == digits_value(whole.take(i as int)),
            over ==> digits_value(whole.take(i as int)) > u128::MAX,
        decreases k - i,
    {
        let c = s.get_char(i);
        if !('0' <= c && c <= '9') {
            proof {
                assert(whole[i as int] == c);
                assert(!all_digits(whole));
            }
            return Err(DecimalError::Malformed);
        }
        let d = digit_of(c);
        proof {
            assert(whole.take(i as int).push(c) =~= whole.take(i + 1));
            lemma_digits_value_grows(whole.take(i as int), c);
        }
        push_digit(&mut acc, &mut over, d, Ghost(whole.take(i as int)), Ghost(c));
        i = i + 1;
    }
    assert(whole.take(k as int) =~= whole);
    // fraction digits, at most `decimals` of them counted
    let ghost sf = scaled_fraction(frac, decimals as nat);
    let mut taken: usize = 0;
    let mut j: usize = if k < n { k + 1 } else { n };
    while j < n
        invariant
            0 < k <= n,
            n == sv.len(),
            s@ == sv,
            point_index(sv) == k,
            whole == whole_part(sv),
            frac == fraction_part(sv),
            k < n ==> frac == sv.skip(k + 1),
            k == n ==> j == n,
            k < j <= n || j == n,
            k < n ==> taken == if j - (k + 1) < decimals { j - (k + 1) } else { decimals as int },
            taken <= decimals,
            all_digits(whole),
            k < n ==> all_digits(frac.take(j - (k + 1))),
            sf == scaled_fraction(frac, decimals as nat),
            !over ==> acc == digits_value(whole + sf.take(taken as int)),
            over ==> digits_value(whole + sf.take(taken as int)) > u128::MAX,
        decreases n - j,
    {
        let c = s.get_char(j);
        if !('0' <= c && c <= '9') {
            proof {
                assert(frac[j - (k + 1)] == c);
                assert(!all_digits(frac));
            }
            return Err(DecimalError::Malformed);
        }
        if taken < decimals {
            let d = digit_of(c);
            proof {
                assert(sf[taken as int] == c);
                assert((whole + sf.take(taken as int)).push(c) =~= whole + sf.take(taken + 1));
                lemma_digits_value_grows(whole + sf.take(taken as int), c);
            }
            push_digit(&mut acc, &mut over, d, Ghost(whole + sf.take(taken as int)), Ghost(c));
            taken = taken + 1;
        }
        proof {
            assert(frac.take(j - (k + 1)).push(c) =~= frac.take(j + 1 - (k + 1)));
        }
        j = j + 1;
    }
    proof {
        if k < n {
            assert(frac.take(n - (k + 1)) =~= frac);
        } else {
            assert(frac =~= Seq::<char>::empty());
        }
        assert(is_decimal(sv));
    }
    // zeros up to `decimals` fraction digits
    while taken < decimals
        invariant
            taken <= decimals,
            sf == scaled_fraction(frac, decimals as nat),
            sf.len() == decimals,
            forall|t: int| frac.len() <= t < decimals ==> sf[t] == '0',
            taken >= frac.len() || taken == decimals,
            !over ==> acc == digits_value(whole + sf.take(taken as int)),
            over ==> digits_value(whole + sf.take(taken as int)) > u128::MAX,
        decreases decimals - taken,
    {
        proof {
            assert(sf[taken as int] == '0');
            assert((whole + sf.take(taken as int)).push('0') =~= whole + sf.take(taken + 1));
            lemma_digits_value_grows(whole + sf.take(taken as int), '0');
        }
        push_digit(&mut acc, &mut over, 0, Ghost(whole + sf.take(taken as int)), Ghost('0'));
        taken = taken + 1;
    }
    assert(sf.take(decimals as int) =~= sf);
    if over {
        Err(DecimalError::Overflow)
    } else {
        Ok(acc)
    }
}


pub open spec fn digit_char(d: nat) -> char {
    if d == 0 {
        '0'
    } else if d == 1 {
        '1'
    } else if d == 2 {
        '2'
    } else if d == 3 {
        '3'
    } else if d == 4 {
        '4'
    } else if d == 5 {
        '5'
    } else if d == 6 {
        '6'
    } else if d == 7 {
        '7'
    } else if d == 8 {
        '8'
    } else {
        '9'
    }
}

/// The shortest decimal digits of `n`.
pub open spec fn decimal_string(n: nat) -> Seq<char>
    decreases n,
{
    if n < 10 {
        seq![digit_char(n)]
    } else {
        decimal_string(n / 10).push(digit_char(n % 10))
    }
}

/// The last `w` decimal digits of `n`, with leading zeros.
pub open spec fn fixed_digits(n: nat, w: nat) -> Seq<char>
    decreases w,
{
    if w == 0 {
        Seq::empty()
    } else {
        fixed_digits(n / 10, (w - 1) as nat).push(digit_char(n % 10))
    }
}

/// `s` without its trailing zeros.
pub open spec fn trim_zeros(s: Seq<char>) -> Seq<char>
    decreases s.len(),
{
    if s.len() > 0 && s.last() == '0' {
        trim_zeros(s.drop_last())
    } else {
        s
    }
}

/// Canonical text of `units` counts of 10^-scale: the whole part, then, when
/// the fraction is not zero, a point and the fraction digits without
/// trailing zeros.
pub open spec fn format_decimal(units: nat, scale: nat) -> Seq<char> {
    let whole = units / pow10(scale);
    let fraction = units % pow10(scale);
    if fraction == 0 {
        decimal_string(whole)
    } else {
        decimal_string(whole) + seq!['.'] + trim_zeros(fixed_digits(fraction, scale))
    }
}

fn digit_text(d: u128) -> (r: &'static str)
    requires
        d < 10,
    ensures
        r@ == seq![digit_char(d as nat)],
{
    proof {
        reveal_strlit("0");
        reveal_strlit("1");
        reveal_strlit("2");
        reveal_strlit("3");
        reveal_strlit("4");
        reveal_strlit("5");
        reveal_strlit("6");
        reveal_strlit("7");
        reveal_strlit("8");
        reveal_strlit("9");
    }
    if d == 0 {
        "0"
    } else if d == 1 {
        "1"
    } else if d == 2 {
        "2"
    } else if d == 3 {
        "3"
    } else if d == 4 {
        "4"
    } else if d == 5 {
        "5"
    } else if d == 6 {
        "6"
    } else if d == 7 {
        "7"
    } else if d == 8 {
        "8"
    } else {
        "9"
    }
}

fn push_decimal(out: &mut String, n: u128)
    ensures
        final(out)@ == old(out)@ + decimal_string(n as nat),
    decreases n,
{
    if n >= 10 {
        push_decimal(out, n / 10);
    }
    out.append(digit_text(n % 10));
    proof {
        if n >= 10 {
            assert(old(out)@ + decimal_string(n as nat) =~= old(out)@ + decimal_string((n / 10) as nat) + seq![digit_char((n % 10) as nat)]);
        } else {
            assert(n % 10 == n);
        }
    }
}

fn push_fixed(out: &mut String, n: u128, w: usize)
    ensures
        final(out)@ == old(out)@ + fixed_digits(n as nat, w as nat),
    decreases w,
{
    if w == 0 {
        assert(old(out)@ + fixed_digits(n as nat, 0) =~= old(out)@);
        return;
    }
    push_fixed(out, n / 10, w - 1);
    out.append(digit_text(n % 10));
    assert(old(out)@ + fixed_digits(n as nat, w as nat) =~= old(out)@ + fixed_digits((n / 10) as nat, (w - 1) as nat) + seq![digit_char((n % 10) as nat)]);
}

/// The shortest decimal digits of `n`.
pub fn decimal_text(n: u128) -> (r: String)
    ensures
        r@ == decimal_string(n as nat),
{
    let mut out = String::new();
    push_decimal(&mut out, n);
    assert(out@ =~= decimal_string(n as nat));
    out
}

/// Writes `units` counts of 10^-`decimals` in canonical decimal form.
pub fn format_units_to_decimal(units: u128, decimals: usize) -> (r: String)
    requires
        decimals <= 38,
    ensures
        r@ == format_decimal(units as nat, decimals as nat),
{
    let p = pow10_exec(decimals);
    proof {
        lemma_pow10_positive(decimals as nat);
    }
    let whole = units / p;
    let fraction = units % p;
    let mut out = String::new();
    push_decimal(&mut out, whole);
    if fraction != 0 {
        proof {
            reveal_strlit(".");
        }
        out.append(".");
        let mut f = fraction;
        let mut w = decimals;
        while f % 10 == 0
            invariant
                f != 0,
                f < pow10(w as nat),
                w <= decimals,
                trim_zeros(fixed_digits(fraction as nat, decimals as nat)) == trim_zeros(fixed_digits(f as nat, w as nat)),
            decreases w,
        {
            assert(w > 0);
            proof {
                let fw = fixed_digits(f as nat, w as nat);
                assert(fw.last() == '0');
                assert(fw.drop_last() == fixed_digits((f / 10) as nat, (w - 1) as nat));
                assert(f / 10 < pow10((w - 1) as nat)) by (nonlinear_arith)
                    requires
                        f < 10 * pow10((w - 1) as nat),
                ;
            }
            f = f / 10;
            w = w - 1;
        }
        proof {
            let fw = fixed_digits(f as nat, w as nat);
            assert(w > 0);
            assert(fw.last() != '0');
        }
        push_fixed(&mut out, f, w);
        proof {
            reveal_strlit(".");
        }
    }
    out
}


proof fn lemma_digit_char(d: nat)
    requires
        d < 10,
    ensures
        is_digit(digit_char(d)),
        digit_value(digit_char(d)) == d,
        digit_char(d) == '0' <==> d == 0,
{
}

proof fn lemma_char_digit(c: char)
    requires
        is_digit(c),
    ensures
        digit_value(c) < 10,
        digit_char(digit_value(c)) == c,
{
}

proof fn lemma_digits_value_bound(x: Seq<char>)
    requires
        all_digits(x),
    ensures
        digits_value(x) < pow10(x.len()),
    decreases x.len(),
{
    if x.len() > 0 {
        let y = x.drop_last();
        lemma_digits_value_bound(y);
        lemma_char_digit(x.last());
        assert(x.last() == x[x.len() - 1]);
        let a = digits_value(y);
        let b = pow10(y.len());
        let d = digit_value(x.last());
        assert(a * 10 + d < 10 * b) by (nonlinear_arith)
            requires
                a < b,
                d < 10,
        ;
    }
}

proof fn lemma_digits_value_concat(a: Seq<char>, b: Seq<char>)
    ensures
        digits_value(a + b) == digits_value(a) * pow10(b.len()) + digits_value(b),
    decreases b.len(),
{
    if b.len() == 0 {
        assert(a + b =~= a);
        assert(pow10(0) == 1);
        assert(digits_value(b) == 0);
    } else {
        let c = b.last();
        let b1 = b.drop_last();
        assert((a + b).drop_last() =~= a + b1);
        assert((a + b).last() == c);
        lemma_digits_value_concat(a, b1);
        assert(pow10(b.len()) == 10 * pow10(b1.len()));
        assert(digits_value(a + b) == digits_value(a + b1) * 10 + digit_value(c));
        assert(digits_value(b) == digits_value(b1) * 10 + digit_value(c));
        let x = digits_value(a);
        let p = pow10(b1.len());
        let y = digits_value(b1);
        assert((x * p + y) * 10 + digit_value(c) == x * (10 * p) + (y * 10 + digit_value(c))) by (nonlinear_arith);
    }
}

proof fn lemma_zeros_value(n: nat)
    ensures
        digits_value(zeros(n)) == 0,
        all_digits(zeros(n)),
    decreases n,
{
    if n > 0 {
        assert(zeros(n).drop_last() =~= zeros((n - 1) as nat));
        lemma_zeros_value((n - 1) as nat);
    }
}

proof fn lemma_decimal_string(n: nat)
    ensures
        digits_value(decimal_string(n)) == n,
        all_digits(decimal_string(n)),
        decimal_string(n).len() > 0,
        forall|i: int| 0 <= i < decimal_string(n).len() ==> decimal_string(n)[i] != '.',
    decreases n,
{
    if n < 10 {
        lemma_digit_char(n);
        assert(seq![digit_char(n)].drop_last() =~= Seq::<char>::empty());
        assert(digits_value(seq![digit_char(n)]) == digits_value(Seq::<char>::empty()) * 10 + digit_value(digit_char(n)));
    } else {
        lemma_decimal_string(n / 10);
        lemma_digit_char(n % 10);
        assert(decimal_string(n).drop_last() =~= decimal_string(n / 10));
        assert(decimal_string(n).last() == digit_char(n % 10));
        assert(n == (n / 10) * 10 + n % 10);
    }
}

proof fn lemma_fixed_digits(n: nat, w: nat)
    ensures
        digits_value(fixed_digits(n, w)) == n % pow10(w),
        all_digits(fixed_digits(n, w)),
        fixed_digits(n, w).len() == w,
    decreases w,
{
    if w > 0 {
        let m = pow10((w - 1) as nat);
        lemma_fixed_digits(n / 10, (w - 1) as nat);
        lemma_digit_char(n % 10);
        lemma_pow10_positive((w - 1) as nat);
        assert(fixed_digits(n, w).drop_last() =~= fixed_digits(n / 10, (w - 1) as nat));
        assert((n / 10) % m * 10 + n % 10 == n % (10 * m)) by (nonlinear_arith)
            requires
                m >= 1,
        {
            let q = n / 10;
            let r = n % 10;
            let a = q / m;
            let b = q % m;
            assert(n == 10 * q + r);
            assert(q == m * a + b);
            assert(n == (10 * m) * a + (10 * b + r));
            assert(0 <= 10 * b + r < 10 * m);
            vstd::arithmetic::div_mod::lemma_fundamental_div_mod_converse(n as int, (10 * m) as int, a as int, (10 * b + r) as int);
        }
    }
}

proof fn lemma_trim_zeros(x: Seq<char>)
    ensures
        trim_zeros(x).len() <= x.len(),
        x =~= trim_zeros(x) + zeros((x.len() - trim_zeros(x).len()) as nat),
        trim_zeros(x).len() > 0 ==> trim_zeros(x).last() != '0',
    decreases x.len(),
{
    if x.len() > 0 && x.last() == '0' {
        let y = x.drop_last();
        lemma_trim_zeros(y);
        let k = (y.len() - trim_zeros(y).len()) as nat;
        assert(zeros(k).push('0') =~= zeros(k + 1));
        assert(y.push('0') =~= x);
    } else {
        assert(zeros(0) =~= Seq::<char>::empty());
    }
}

proof fn lemma_trim_zeros_digits(x: Seq<char>)
    requires
        all_digits(x),
    ensures
        all_digits(trim_zeros(x)),
        trim_zeros(x).len() == 0 <==> digits_value(x) == 0,
    decreases x.len(),
{
    lemma_trim_zeros(x);
    if x.len() > 0 {
        let y = x.drop_last();
        assert(all_digits(y));
        lemma_trim_zeros_digits(y);
        lemma_char_digit(x.last());
        assert(x.last() == x[x.len() - 1]);
        assert(trim_zeros(x).len() > 0 ==> trim_zeros(x) =~= x.take(trim_zeros(x).len() as int));
    }
}

proof fn lemma_trim_padded(f: Seq<char>, j: nat)
    ensures
        trim_zeros(f + zeros(j)) == trim_zeros(f),
    decreases j,
{
    if j == 0 {
        assert(f + zeros(0) =~= f);
    } else {
        assert((f + zeros(j)).drop_last() =~= f + zeros((j - 1) as nat));
        assert((f + zeros(j)).last() == '0');
        lemma_trim_padded(f, (j - 1) as nat);
    }
}

proof fn lemma_fixed_of_digits(y: Seq<char>)
    requires
        all_digits(y),
    ensures
        fixed_digits(digits_value(y), y.len()) == y,
    decreases y.len(),
{
    if y.len() > 0 {
        let y1 = y.drop_last();
        let c = y.last();
        assert(c == y[y.len() - 1]);
        lemma_fixed_of_digits(y1);
        lemma_char_digit(c);
        let v = digits_value(y);
        assert(v / 10 == digits_value(y1));
        assert(v % 10 == digit_value(c));
        assert(y1.push(c) =~= y);
    }
}

proof fn lemma_point_index_at(s: Seq<char>, k: int)
    requires
        0 <= k <= s.len(),
        forall|j: int| 0 <= j < k ==> s[j] != '.',
        k < s.len() ==> s[k] == '.',
    ensures
        point_index(s) == k,
{
    if k < s.len() {
        assert(first_point_at(s, k));
        let j = choose|j: int| first_point_at(s, j);
        assert(j == k);
    } else {
        assert forall|j: int| !first_point_at(s, j) by {}
    }
}

proof fn lemma_leading_digit_positive(w: Seq<char>)
    requires
        w.len() > 0,
        all_digits(w),
        w[0] != '0',
    ensures
        digits_value(w) >= 1,
    decreases w.len(),
{
    if w.len() == 1 {
        assert(w.last() == w[0]);
        lemma_char_digit(w[0]);
    } else {
        let y = w.drop_last();
        assert(y[0] == w[0]);
        lemma_leading_digit_positive(y);
    }
}

proof fn lemma_decimal_string_of_digits(w: Seq<char>)
    requires
        w.len() > 0,
        all_digits(w),
        w.len() == 1 || w[0] != '0',
    ensures
        decimal_string(digits_value(w)) == w,
    decreases w.len(),
{
    let c = w.last();
    assert(c == w[w.len() - 1]);
    lemma_char_digit(c);
    if w.len() == 1 {
        assert(w.drop_last() =~= Seq::<char>::empty());
        assert(digits_value(w.drop_last()) == 0);
        assert(digits_value(w) == digit_value(c));
        assert(seq![c] =~= w);
    } else {
        let y = w.drop_last();
        assert(y[0] == w[0]);
        lemma_decimal_string_of_digits(y);
        lemma_leading_digit_positive(y);
        let v = digits_value(w);
        assert(v / 10 == digits_value(y));
        assert(v % 10 == digit_value(c));
        assert(y.push(c) =~= w);
    }
}

/// Formatting then parsing gives back the value: the text is a decimal and
/// denotes exactly `units`.
pub proof fn lemma_parse_format(units: nat, scale: nat)
    ensures
        is_decimal(format_decimal(units, scale)),
        decimal_units(format_decimal(units, scale), scale) == units,
{
    let p = pow10(scale);
    lemma_pow10_positive(scale);
    let w = units / p;
    let f = units % p;
    let ws = decimal_string(w);
    lemma_decimal_string(w);
    lemma_fixed_digits(f, scale);
    lemma_digits_value_concat(ws, fixed_digits(f, scale));
    vstd::arithmetic::div_mod::lemma_small_mod(f, p);
    assert(units == w * p + f) by (nonlinear_arith)
        requires
            w == units / p,
            f == units % p,
            p >= 1,
    ;
    let t = format_decimal(units, scale);
    if f == 0 {
        lemma_point_index_at(t, t.len() as int);
        assert(whole_part(t) =~= ws);
        assert(fraction_part(t) =~= Seq::<char>::empty());
        assert(scaled_fraction(Seq::<char>::empty(), scale) =~= zeros(scale));
        lemma_zeros_value(scale);
        lemma_digits_value_concat(ws, zeros(scale));
    } else {
        let fd = fixed_digits(f, scale);
        let tz = trim_zeros(fd);
        lemma_trim_zeros(fd);
        lemma_trim_zeros_digits(fd);
        assert(t =~= ws + seq!['.'] + tz);
        lemma_point_index_at(t, ws.len() as int);
        assert(whole_part(t) =~= ws);
        assert(fraction_part(t) =~= tz);
        assert(scaled_fraction(tz, scale) =~= fd);
    }
}

/// The canonical text of a decimal: trailing fraction zeros removed, and the
/// point too when no fraction digit remains.
pub open spec fn canonical(s: Seq<char>) -> Seq<char> {
    let t = trim_zeros(fraction_part(s));
    if t.len() == 0 {
        whole_part(s)
    } else {
        whole_part(s) + seq!['.'] + t
    }
}

/// Parsing then formatting a decimal with at most `scale` fraction digits and
/// no leading zero in its whole part gives its canonical text.
pub proof fn lemma_format_parse(s: Seq<char>, scale: nat)
    requires
        is_decimal(s),
        fraction_part(s).len() <= scale,
        whole_part(s).len() == 1 || whole_part(s)[0] != '0',
    ensures
        format_decimal(decimal_units(s, scale), scale) == canonical(s),
{
    let w = whole_part(s);
    let f = fraction_part(s);
    let k = f.len();
    let j = (scale - k) as nat;
    let p = pow10(scale);
    let y = f + zeros(j);
    lemma_zeros_value(j);
    assert(all_digits(y));
    assert(scaled_fraction(f, scale) == y);
    lemma_digits_value_concat(w, y);
    lemma_digits_value_concat(f, zeros(j));
    lemma_digits_value_bound(y);
    assert(y.len() == scale);
    let wv = digits_value(w);
    let r = digits_value(y);
    let u = decimal_units(s, scale);
    assert(u == wv * p + r);
    lemma_pow10_positive(scale);
    assert(u / p == wv && u % p == r) by {
        vstd::arithmetic::div_mod::lemma_fundamental_div_mod_converse(u as int, p as int, wv as int, r as int);
    }
    lemma_decimal_string_of_digits(w);
    lemma_fixed_of_digits(y);
    lemma_trim_padded(f, j);
    lemma_trim_zeros_digits(f);
    lemma_pow10_positive(j);
    assert(r == digits_value(f) * pow10(j));
    assert(r == 0 <==> digits_value(f) == 0) by (nonlinear_arith)
        requires
            r == digits_value(f) * pow10(j),
            pow10(j) >= 1,
    ;
}

/// A non-negative price held as a count of 10^-4 units.
#[derive(Copy, Clone, Debug, PartialEq, Eq, Structural, PartialOrd, Ord, Hash)]
pub struct Price4Decimals {
    pub units: u128,
}

/// A non-negative quantity held as a count of 10^-8 units.
#[derive(Copy, Clone, Debug, PartialEq, Eq, Structural, PartialOrd, Ord, Hash)]
pub struct Amount8Decimals {
    pub units: u128,
}

/// Fraction digits of a price.
pub const PRICE_DECIMALS: usize = 4;

/// Fraction digits of an amount.
pub const AMOUNT_DECIMALS: usize = 8;

/// Price units in one whole price.
pub const PRICE_UNITS_PER_WHOLE: u128 = 10000;

/// Amount units in one whole amount.
pub const AMOUNT_UNITS_PER_WHOLE: u128 = 100000000;

impl View for Price4Decimals {
    type V = nat;

    open spec fn view(&self) -> nat {
        self.units as nat
    }
}

impl View for Amount8Decimals {
    type V = nat;

    open spec fn view(&self) -> nat {
        self.units as nat
    }
}

/// Amount units of `amount` amount units sold at `price` price units: the
/// product scaled back by the price's 10^4, rounded down.
pub open spec fn amount_times_price(amount: nat, price: nat) -> nat {
    amount * price / (PRICE_UNITS_PER_WHOLE as nat)
}

impl Price4Decimals {
    pub fn from_units(units: u128) -> (r: Price4Decimals)
        ensures
            r@ == units,
    {
        Price4Decimals { units }
    }

    pub fn units(&self) -> (r: u128)
        ensures
            r == self@,
    {
        self.units
    }

    /// Reads a price such as `"1.2345"`; digits past the fourth fraction
    /// digit are dropped.
    pub fn parse(s: &str) -> (r: Result<Price4Decimals, DecimalError>)
        ensures
            !is_decimal(s@) <==> r == Err::<Price4Decimals, DecimalError>(DecimalError::Malformed),
            is_decimal(s@) && decimal_units(s@, 4) > u128::MAX <==> r == Err::<Price4Decimals, DecimalError>(DecimalError::Overflow),
            r matches Ok(p) ==> p@ == decimal_units(s@, 4),
    {
        match parse_units_from_decimal(s, PRICE_DECIMALS) {
            Ok(units) => Ok(Price4Decimals { units }),
            Err(e) => Err(e),
        }
    }

    /// Canonical decimal text, e.g. `"1.2345"`, `"1.2"`, `"12"`.
    pub fn to_string(&self) -> (r: String)
        ensures
            r@ == format_decimal(self@, 4),
    {
        format_units_to_decimal(self.units, PRICE_DECIMALS)
    }
}

impl Amount8Decimals {
    pub fn from_units(units: u128) -> (r: Amount8Decimals)
        ensures
            r@ == units,
    {
        Amount8Decimals { units }
    }

    /// The amount of `value` whole units.
    pub fn from_whole(value: u128) -> (r: Amount8Decimals)
        requires
            value * AMOUNT_UNITS_PER_WHOLE <= u128::MAX,
        ensures
            r@ == value * AMOUNT_UNITS_PER_WHOLE,
    {
        Amount8Decimals { units: value * AMOUNT_UNITS_PER_WHOLE }
    }

    pub fn units(&self) -> (r: u128)
        ensures
            r == self@,
    {
        self.units
    }

    /// Reads an amount such as `"12.5"`; digits past the eighth fraction
    /// digit are dropped.
    pub fn parse(s: &str) -> (r: Result<Amount8Decimals, DecimalError>)
        ensures
            !is_decimal(s@) <==> r == Err::<Amount8Decimals, DecimalError>(DecimalError::Malformed),
            is_decimal(s@) && decimal_units(s@, 8) > u128::MAX <==> r == Err::<Amount8Decimals, DecimalError>(DecimalError::Overflow),
            r matches Ok(a) ==> a@ == decimal_units(s@, 8),
    {
        match parse_units_from_decimal(s, AMOUNT_DECIMALS) {
            Ok(units) => Ok(Amount8Decimals { units }),
            Err(e) => Err(e),
        }
    }

    /// Canonical decimal text, e.g. `"2.5"`.
    pub fn to_string(&self) -> (r: String)
        ensures
            r@ == format_decimal(self@, 8),
    {
        format_units_to_decimal(self.units, AMOUNT_DECIMALS)
    }

    /// The value of this amount at `price`, as an amount.
    pub fn mul_price(&self, price: Price4Decimals) -> (r: Amount8Decimals)
        requires
            self@ * price@ <= u128::MAX,
        ensures
            r@ == amount_times_price(self@, price@),
    {
        Amount8Decimals { units: self.units * price.units / PRICE_UNITS_PER_WHOLE }
    }

    pub fn add(&self, other: Amount8Decimals) -> (r: Amount8Decimals)
        requires
            self@ + other@ <= u128::MAX,
        ensures
            r@ == self@ + other@,
    {
        Amount8Decimals { units: self.units + other.units }
    }

    pub fn sub(&self, other: Amount8Decimals) -> (r: Amount8Decimals)
        requires
            other@ <= self@,
        ensures
            r@ == self@ - other@,
    {
        Amount8Decimals { units: self.units - other.units }
    }

    /// One hundredth of this amount, rounded down.
    pub fn percent(&self) -> (r: Amount8Decimals)
        ensures
            r@ == self@ / 100,
    {
        Amount8Decimals { units: self.units / 100 }
    }
}

impl core::str::FromStr for Price4Decimals {
    type Err = DecimalError;

    fn from_str(s: &str) -> Result<Price4Decimals, DecimalError> {
        Price4Decimals::parse(s)
    }
}

impl core::str::FromStr for Amount8Decimals {
    type Err = DecimalError;

    fn from_str(s: &str) -> Result<Amount8Decimals, DecimalError> {
        Amount8Decimals::parse(s)
    }
}

} // verus!
