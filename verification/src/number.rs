//! Comparing parameter values written as decimal text by the number they
//! denote, so that `-6.20` and `-6.2`, or `-0` and `0`, count as equal.
use vstd::prelude::*;

use crate::text::{
    all_digits, append_chars, chars_eq, chars_of, decimal_number_chars, digit_run, digit_val,
    digits_value, is_digit, is_decimal_number, is_zero_literal, mantissa_end, mantissa_end_chars, scan_digits,
    slice_chars, str_eq, unsigned_part, unsigned_part_chars,
};

verus! {

/// Ten to the power `n`.
pub open spec fn pow10(n: nat) -> nat
    decreases n,
{
    if n == 0 {
        1
    } else {
        pow10((n - 1) as nat) * 10
    }
}

/// A plain decimal: an optional sign, then digits with an optional point
/// and fraction, at least one digit, and no exponent.
pub open spec fn is_plain_decimal(s: Seq<char>) -> bool {
    let b = unsigned_part(s);
    is_decimal_number(b) && mantissa_end(b) == b.len()
}

/// The digits before the point.
pub open spec fn int_digits(s: Seq<char>) -> Seq<char> {
    let b = unsigned_part(s);
    b.take(digit_run(b, 0))
}

/// The digits after the point (none without a point).
pub open spec fn frac_digits(s: Seq<char>) -> Seq<char> {
    let b = unsigned_part(s);
    let a = digit_run(b, 0);
    if a < b.len() {
        b.subrange(a + 1, b.len() as int)
    } else {
        seq![]
    }
}

pub open spec fn is_negative(s: Seq<char>) -> bool {
    s.len() > 0 && s[0] == '-'
}

/// The number `s` denotes, times ten to the power `places`, for `places`
/// at least its number of decimal places: an integer.
pub open spec fn scaled_value(s: Seq<char>, places: nat) -> int {
    let n = digits_value(int_digits(s) + frac_digits(s)) * pow10(
        (places - frac_digits(s).len()) as nat,
    );
    if is_negative(s) {
        -n
    } else {
        n as int
    }
}

/// Two plain decimals denote the same number: brought to the same number
/// of decimal places, they give the same integer.
pub open spec fn same_number(a: Seq<char>, b: Seq<char>) -> bool {
    let p = if frac_digits(a).len() >= frac_digits(b).len() {
        frac_digits(a).len()
    } else {
        frac_digits(b).len()
    };
    scaled_value(a, p) == scaled_value(b, p)
}

/// Equal as parameter values: two plain decimals when they denote the same
/// number, any other texts when they are the same text.
pub open spec fn same_value(a: Seq<char>, b: Seq<char>) -> bool {
    if is_plain_decimal(a) && is_plain_decimal(b) {
        same_number(a, b)
    } else {
        a == b
    }
}

/// `n` zero digits.
pub open spec fn zeros(n: nat) -> Seq<char> {
    Seq::new(n, |i: int| '0')
}

proof fn lemma_digit_run(s: Seq<char>, i: int)
    requires
        0 <= i <= s.len(),
    ensures
        i <= digit_run(s, i) <= s.len(),
        forall|j: int| i <= j < digit_run(s, i) ==> is_digit(#[trigger] s[j]),
        digit_run(s, i) < s.len() ==> !is_digit(s[digit_run(s, i)]),
    decreases s.len() - i,
{
    if i < s.len() && is_digit(s[i]) {
        lemma_digit_run(s, i + 1);
    }
}

proof fn lemma_zeros_value(n: nat)
    ensures
        digits_value(zeros(n)) == 0,
        all_digits(zeros(n)),
    decreases n,
{
    if n > 0 {
        assert(zeros(n).drop_last() =~= zeros((n - 1) as nat));
        lemma_zeros_value((n - 1) as nat);
    }
}

/// Leading zeros do not change the value.
proof fn lemma_leading_zeros(n: nat, s: Seq<char>)
    ensures
        digits_value(zeros(n) + s) == digits_value(s),
    decreases s.len(),
{
    if s.len() == 0 {
        assert(zeros(n) + s =~= zeros(n));
        lemma_zeros_value(n);
    } else {
        assert((zeros(n) + s).drop_last() =~= zeros(n) + s.drop_last());
        lemma_leading_zeros(n, s.drop_last());
    }
}

/// Trailing zeros multiply the value by a power of ten.
proof fn lemma_trailing_zeros(s: Seq<char>, n: nat)
    ensures
        digits_value(s + zeros(n)) == digits_value(s) * pow10(n),
    decreases n,
{
    if n == 0 {
        assert(s + zeros(0) =~= s);
        assert(pow10(0) == 1);
        assert(digits_value(s + zeros(n)) == digits_value(s));
    } else {
        assert((s + zeros(n)).drop_last() =~= s + zeros((n - 1) as nat));
        assert((s + zeros(n)).last() == '0');
        lemma_trailing_zeros(s, (n - 1) as nat);
        let v = digits_value(s);
        let p = pow10((n - 1) as nat);
        assert(v * p * 10 == v * (p * 10)) by (nonlinear_arith);
        assert(digit_val('0') == 0);
        assert(digits_value(s + zeros(n)) == digits_value(s + zeros((n - 1) as nat)) * 10 + 0);
        assert(pow10(n) == p * 10);
        assert(digits_value(s + zeros(n)) == v * p * 10);
        assert(digits_value(s) * pow10(n) == v * (p * 10));
    }
}

/// Digit texts of one length have one value each.
proof fn lemma_digits_injective(s: Seq<char>, t: Seq<char>)
    requires
        s.len() == t.len(),
        all_digits(s),
        all_digits(t),
        digits_value(s) == digits_value(t),
    ensures
        s == t,
    decreases s.len(),
{
    if s.len() > 0 {
        let vs = digits_value(s.drop_last());
        let vt = digits_value(t.drop_last());
        let ds = digit_val(s.last());
        let dt = digit_val(t.last());
        assert(is_digit(s[s.len() - 1]) && is_digit(t[t.len() - 1]));
        assert(ds < 10 && dt < 10);
        assert(vs * 10 + ds == vt * 10 + dt);
        assert(vs == vt && ds == dt) by (nonlinear_arith)
            requires
                vs * 10 + ds == vt * 10 + dt,
                0 <= ds < 10,
                0 <= dt < 10,
                vs >= 0,
                vt >= 0,
        ;
        assert(all_digits(s.drop_last()));
        assert(all_digits(t.drop_last()));
        lemma_digits_injective(s.drop_last(), t.drop_last());
        assert(s =~= s.drop_last().push(s.last()));
        assert(t =~= t.drop_last().push(t.last()));
    }
}

/// The digits of a plain decimal are digits.
proof fn lemma_parts_are_digits(s: Seq<char>)
    requires
        is_plain_decimal(s),
    ensures
        all_digits(int_digits(s)),
        all_digits(frac_digits(s)),
{
    let b = unsigned_part(s);
    let a = digit_run(b, 0);
    lemma_digit_run(b, 0);
    assert forall|j: int| 0 <= j < int_digits(s).len() implies is_digit(
        #[trigger] int_digits(s)[j],
    ) by {
        assert(int_digits(s)[j] == b[j]);
    }
    if a < b.len() {
        assert(b[a] == '.');
        lemma_digit_run(b, a + 1);
        assert forall|j: int| 0 <= j < frac_digits(s).len() implies is_digit(
            #[trigger] frac_digits(s)[j],
        ) by {
            assert(frac_digits(s)[j] == b[a + 1 + j]);
        }
    }
}

/// A digit text is all zeros exactly when its value is zero.
proof fn lemma_zero_value(s: Seq<char>)
    requires
        all_digits(s),
    ensures
        (forall|i: int| 0 <= i < s.len() ==> #[trigger] s[i] == '0') <==> digits_value(s) == 0,
{
    lemma_zeros_value(s.len());
    if forall|i: int| 0 <= i < s.len() ==> #[trigger] s[i] == '0' {
        assert(s =~= zeros(s.len()));
    }
    if digits_value(s) == 0 {
        lemma_digits_injective(s, zeros(s.len()));
    }
}

/// Whether `v` is a plain decimal.
fn plain_decimal(v: &Vec<char>) -> (r: bool)
    ensures
        r == is_plain_decimal(v@),
{
    let b = unsigned_part_chars(v);
    decimal_number_chars(&b) && mantissa_end_chars(&b) == b.len()
}

/// The digits before and after the point.
fn parts(v: &Vec<char>) -> (r: (Vec<char>, Vec<char>))
    ensures
        r.0@ == int_digits(v@),
        r.1@ == frac_digits(v@),
{
    let b = unsigned_part_chars(v);
    let a = scan_digits(&b, 0);
    let ip = slice_chars(&b, 0, a);
    let fp = if a < b.len() {
        slice_chars(&b, a + 1, b.len())
    } else {
        Vec::new()
    };
    proof {
        lemma_digit_run(b@, 0);
        assert(fp@ =~= frac_digits(v@));
    }
    (ip, fp)
}

/// `v` with `lead` zeros before it and `trail` zeros after it.
fn padded(v: &Vec<char>, lead: usize, trail: usize) -> (r: Vec<char>)
    ensures
        r@ == zeros(lead as nat) + v@ + zeros(trail as nat),
{
    let mut r: Vec<char> = Vec::new();
    let mut i: usize = 0;
    while i < lead
        invariant
            i <= lead,
            r@ == zeros(i as nat),
        decreases lead - i,
    {
        r.push('0');
        i += 1;
        assert(r@ =~= zeros(i as nat));
    }
    append_chars(&mut r, v);
    let ghost mid = r@;
    let mut j: usize = 0;
    while j < trail
        invariant
            j <= trail,
            r@ == mid + zeros(j as nat),
        decreases trail - j,
    {
        r.push('0');
        j += 1;
        assert(r@ =~= mid + zeros(j as nat));
    }
    r
}

fn all_zero(v: &Vec<char>) -> (r: bool)
    ensures
        r == (forall|i: int| 0 <= i < v@.len() ==> #[trigger] v@[i] == '0'),
{
    let mut i: usize = 0;
    while i < v.len()
        invariant
            i <= v@.len(),
            forall|k: int| 0 <= k < i ==> #[trigger] v@[k] == '0',
        decreases v.len() - i,
    {
        if v[i] != '0' {
            return false;
        }
        i += 1;
    }
    true
}

/// The digits of a plain decimal brought to `lead_to` digits before the
/// point and `places` after it.
fn aligned(ip: &Vec<char>, fp: &Vec<char>, lead_to: usize, places: usize) -> (r: Vec<char>)
    requires
        ip@.len() <= lead_to,
        fp@.len() <= places,
        all_digits(ip@),
        all_digits(fp@),
    ensures
        r@.len() == lead_to + places,
        all_digits(r@),
        digits_value(r@) == digits_value(ip@ + fp@) * pow10((places - fp@.len()) as nat),
{
    let mut d = Vec::new();
    append_chars(&mut d, ip);
    append_chars(&mut d, fp);
    let r = padded(&d, lead_to - ip.len(), places - fp.len());
    proof {
        let z1 = zeros((lead_to - ip@.len()) as nat);
        let z2 = zeros((places - fp@.len()) as nat);
        lemma_zeros_value((lead_to - ip@.len()) as nat);
        lemma_zeros_value((places - fp@.len()) as nat);
        lemma_trailing_zeros(z1 + d@, (places - fp@.len()) as nat);
        lemma_leading_zeros((lead_to - ip@.len()) as nat, d@);
        assert forall|i: int| 0 <= i < r@.len() implies is_digit(#[trigger] r@[i]) by {
            if i < z1.len() {
                assert(r@[i] == z1[i]);
            } else if i < z1.len() + ip@.len() {
                assert(r@[i] == ip@[i - z1.len()]);
            } else if i < z1.len() + ip@.len() + fp@.len() {
                assert(r@[i] == fp@[i - z1.len() - ip@.len()]);
            } else {
                assert(r@[i] == z2[i - z1.len() - ip@.len() - fp@.len()]);
            }
        }
    }
    r
}

/// Whether two parameter values are equal: plain decimals by the number
/// they denote, other texts by their characters.
pub fn values_equal(a: &str, b: &str) -> (r: bool)
    ensures
        r == same_value(a@, b@),
{
    let va = chars_of(a);
    let vb = chars_of(b);
    if !(plain_decimal(&va) && plain_decimal(&vb)) {
        return str_eq(a, b);
    }
    let (ia, fa) = parts(&va);
    let (ib, fb) = parts(&vb);
    proof {
        lemma_parts_are_digits(va@);
        lemma_parts_are_digits(vb@);
    }
    let places = if fa.len() >= fb.len() {
        fa.len()
    } else {
        fb.len()
    };
    let lead_to = if ia.len() >= ib.len() {
        ia.len()
    } else {
        ib.len()
    };
    let da = aligned(&ia, &fa, lead_to, places);
    let db = aligned(&ib, &fb, lead_to, places);
    let neg_a = va.len() > 0 && va[0] == '-';
    let neg_b = vb.len() > 0 && vb[0] == '-';
    let za = all_zero(&da);
    let zb = all_zero(&db);
    proof {
        lemma_zero_value(da@);
        lemma_zero_value(db@);
        assert(scaled_value(va@, places as nat) == if neg_a {
            -digits_value(da@)
        } else {
            digits_value(da@) as int
        });
        assert(scaled_value(vb@, places as nat) == if neg_b {
            -digits_value(db@)
        } else {
            digits_value(db@) as int
        });
        if digits_value(da@) == digits_value(db@) {
            lemma_digits_injective(da@, db@);
        }
    }
    if za && zb {
        true
    } else if neg_a != neg_b {
        false
    } else {
        chars_eq(&da, &db)
    }
}

/// A plain decimal is written as zero (every digit `0`) exactly when it
/// denotes the number zero: `0`, `0.0`, `-0`, `00.000` and the like.
pub proof fn lemma_zero_text_denotes_zero(s: Seq<char>)
    requires
        is_plain_decimal(s),
    ensures
        is_zero_literal(s) <==> same_value(s, "0"@),
{
    reveal_strlit("0");
    let z = "0"@;
    let b = unsigned_part(s);
    let a = digit_run(b, 0);
    lemma_digit_run(b, 0);
    lemma_parts_are_digits(s);
    // "0" is a plain decimal with one integer digit and no fraction.
    assert(z.len() == 1 && z[0] == '0');
    assert(unsigned_part(z) == z);
    lemma_digit_run(z, 0);
    assert(digit_run(z, 1) == 1);
    assert(digit_run(z, 0) == 1);
    assert(mantissa_end(z) == 1);
    assert(is_decimal_number(z));
    assert(is_plain_decimal(z));
    assert(int_digits(z) =~= z);
    assert(frac_digits(z) =~= Seq::<char>::empty());
    assert(int_digits(z) + frac_digits(z) =~= z);
    assert(z.drop_last() =~= Seq::<char>::empty());
    assert(digits_value(z.drop_last()) == 0);
    assert(z.last() == '0');
    assert(digit_val('0') == 0);
    assert(digits_value(z) == digits_value(z.drop_last()) * 10 + digit_val(z.last()));
    assert(digits_value(z) == 0);
    let d = int_digits(s) + frac_digits(s);
    let p = frac_digits(s).len();
    assert(pow10(0) == 1);
    assert(((p - frac_digits(s).len()) as nat) == 0);
    assert(digits_value(d) * pow10(0) == digits_value(d));
    assert(scaled_value(s, p) == if is_negative(s) { -digits_value(d) } else { digits_value(d) as int });
    assert(scaled_value(z, p) == 0) by {
        assert(digits_value(z) * pow10(p) == 0) by (nonlinear_arith)
            requires digits_value(z) == 0;
    }
    assert(all_digits(d)) by {
        assert forall|j: int| 0 <= j < d.len() implies is_digit(#[trigger] d[j]) by {
            if j < int_digits(s).len() {
                assert(d[j] == int_digits(s)[j]);
            } else {
                assert(d[j] == frac_digits(s)[j - int_digits(s).len()]);
            }
        }
    }
    lemma_zero_value(d);
    // The characters before the end of the number are the integer digits,
    // the point, and the fraction digits.
    if is_zero_literal(s) {
        assert forall|j: int| 0 <= j < d.len() implies #[trigger] d[j] == '0' by {
            if j < a {
                assert(d[j] == b[j]);
                assert(b[j] == '0' || b[j] == '.');
                assert(is_digit(b[j]));
            } else {
                assert(a < b.len());
                assert(d[j] == b[j + 1]);
                assert(b[j + 1] == '0' || b[j + 1] == '.');
                assert(is_digit(frac_digits(s)[j - a]));
            }
        }
    }
    if same_value(s, z) {
        assert(digits_value(d) == 0);
        assert forall|j: int| 0 <= j < mantissa_end(b) implies (#[trigger] b[j] == '0' || b[j] == '.') by {
            if j < a {
                assert(d[j] == b[j]);
            } else if j > a {
                assert(d[j - 1] == b[j]);
            } else {
                assert(b[a] == '.');
            }
        }
    }
}

} // verus!
