//! Exact decimal quantities.
//!
//! A `Decimal` stores a quantity as an integer mantissa together with a
//! decimal scale: the value is `mantissa / 10^scale`.  All arithmetic is
//! exact integer arithmetic on mantissas; no binary floating point is
//! involved anywhere.  The number of fraction digits is capped at
//! `MAX_SCALE` and parsed mantissas are capped at `MAX_COEFF`, which
//! together keep every computation inside `i128` without rounding.

use vstd::prelude::*;

verus! {

/// Largest number of fraction digits a quantity may carry.
pub const MAX_SCALE: u32 = 12;

/// Largest mantissa magnitude accepted when a quantity is parsed.
pub const MAX_COEFF: i128 = 1_000_000_000_000_000_000;

/// An exact decimal number: `mantissa / 10^scale`.
#[derive(Clone, Copy, Debug)]
pub struct Decimal {
    pub mantissa: i128,
    pub scale: u32,
}

/// `10^e`.
pub open spec fn pow10(e: nat) -> int
    decreases e,
{
    if e == 0 {
        1
    } else {
        10 * pow10((e - 1) as nat)
    }
}

pub proof fn lemma_pow10_pos(e: nat)
    ensures
        pow10(e) >= 1,
    decreases e,
{
    if e > 0 {
        lemma_pow10_pos((e - 1) as nat);
    }
}

pub proof fn lemma_pow10_adds(a: nat, b: nat)
    ensures
        pow10(a + b) == pow10(a) * pow10(b),
    decreases a,
{
    if a == 0 {
    } else {
        lemma_pow10_adds((a - 1) as nat, b);
        assert(pow10(a + b) == 10 * pow10((a + b - 1) as nat));
        assert((a + b - 1) as nat == (a - 1) as nat + b);
        assert(pow10(a) * pow10(b) == 10 * (pow10((a - 1) as nat) * pow10(b)))
            by (nonlinear_arith)
            requires
                pow10(a) == 10 * pow10((a - 1) as nat),
        ;
    }
}

impl Decimal {
    /// A parsed quantity: the scale is capped and the mantissa is small
    /// enough that per-symbol sums of such quantities stay exact.
    pub open spec fn wf(self) -> bool {
        &&& self.scale <= MAX_SCALE
        &&& -MAX_COEFF <= self.mantissa <= MAX_COEFF
    }

    /// The value scaled up to a common denominator of `10^MAX_SCALE`;
    /// two decimals denote the same quantity exactly when their scaled
    /// values are equal.
    pub open spec fn scaled(self) -> int {
        self.mantissa * pow10((MAX_SCALE - self.scale) as nat)
    }

    pub fn new(mantissa: i128, scale: u32) -> (r: Decimal)
        requires
            scale <= MAX_SCALE,
        ensures
            r.mantissa == mantissa,
            r.scale == scale,
    {
        Decimal { mantissa, scale }
    }

    /// The quantity is zero exactly when the mantissa is zero.
    pub fn is_zero(&self) -> (r: bool)
        ensures
            r == (self.scaled() == 0),
    {
        proof {
            lemma_pow10_pos((MAX_SCALE - self.scale) as nat);
            assert(self.mantissa * pow10((MAX_SCALE - self.scale) as nat) == 0 <==> self.mantissa
                == 0) by (nonlinear_arith)
                requires
                    pow10((MAX_SCALE - self.scale) as nat) >= 1,
            ;
        }
        self.mantissa == 0
    }

    /// Exact negation.
    pub fn neg(&self) -> (r: Decimal)
        requires
            self.mantissa > i128::MIN,
        ensures
            r.scale == self.scale,
            r.mantissa == -self.mantissa,
            r.scaled() == -self.scaled(),
    {
        proof {
            assert((-self.mantissa) * pow10((MAX_SCALE - self.scale) as nat) == -(self.mantissa
                * pow10((MAX_SCALE - self.scale) as nat))) by (nonlinear_arith);
        }
        Decimal { mantissa: -self.mantissa, scale: self.scale }
    }

    /// Exact addition after aligning both mantissas to the larger scale.
    /// The alignment bound is what the caller must supply to rule out
    /// `i128` overflow; it follows from `wf` plus a cap on how many
    /// quantities have been summed so far.
    pub fn add(&self, other: &Decimal) -> (r: Decimal)
        requires
            add_ok(*self, *other),
        ensures
            r.scale == max_scale(*self, *other),
            r.mantissa == self.aligned(r.scale as nat) + other.aligned(r.scale as nat),
            r.scaled() == self.scaled() + other.scaled(),
    {
        let s: u32 = if self.scale >= other.scale {
            self.scale
        } else {
            other.scale
        };
        proof {
            lemma_pow10_small();
            lemma_pow10_monotonic((s - self.scale) as nat, MAX_SCALE as nat);
            lemma_pow10_monotonic((s - other.scale) as nat, MAX_SCALE as nat);
        }
        let ma: i128 = self.mantissa * pow10_i128(s - self.scale);
        let mb: i128 = other.mantissa * pow10_i128(s - other.scale);
        let r = Decimal { mantissa: ma + mb, scale: s };
        proof {
            lemma_aligned_scaled(*self, s as nat);
            lemma_aligned_scaled(*other, s as nat);
            assert((self.aligned(s as nat) + other.aligned(s as nat)) * pow10(
                (MAX_SCALE - s) as nat,
            ) == self.aligned(s as nat) * pow10((MAX_SCALE - s) as nat) + other.aligned(s as nat)
                * pow10((MAX_SCALE - s) as nat)) by (nonlinear_arith);
        }
        r
    }

    /// The mantissa this quantity would have at scale `s`.
    pub open spec fn aligned(self, s: nat) -> int {
        self.mantissa * pow10((s - self.scale) as nat)
    }
}

/// The common scale two quantities are aligned to when added.
pub open spec fn max_scale(a: Decimal, b: Decimal) -> u32 {
    if a.scale >= b.scale {
        a.scale
    } else {
        b.scale
    }
}

/// Both aligned mantissas and their sum fit in an `i128`, so the exact
/// sum can be computed.
pub open spec fn add_ok(a: Decimal, b: Decimal) -> bool {
    let s = max_scale(a, b) as nat;
    &&& a.scale <= MAX_SCALE
    &&& b.scale <= MAX_SCALE
    &&& i128::MIN <= a.aligned(s) <= i128::MAX
    &&& i128::MIN <= b.aligned(s) <= i128::MAX
    &&& i128::MIN <= a.aligned(s) + b.aligned(s) <= i128::MAX
}

/// `10^MAX_SCALE` written out.
pub proof fn lemma_pow10_small()
    ensures
        pow10(MAX_SCALE as nat) == 1_000_000_000_000,
{
    reveal_with_fuel(pow10, 13);
}

/// Aligning to a scale between the quantity's own and `MAX_SCALE` and then
/// scaling the rest of the way equals scaling directly.
pub proof fn lemma_aligned_scaled(d: Decimal, s: nat)
    requires
        d.scale <= s <= MAX_SCALE,
    ensures
        d.aligned(s) * pow10((MAX_SCALE - s) as nat) == d.scaled(),
{
    let a = (s - d.scale) as nat;
    let b = (MAX_SCALE - s) as nat;
    lemma_pow10_adds(a, b);
    assert((d.mantissa * pow10(a)) * pow10(b) == d.mantissa * (pow10(a) * pow10(b)))
        by (nonlinear_arith);
}

/// `10^e` as an `i128`.
pub fn pow10_i128(e: u32) -> (r: i128)
    requires
        pow10(e as nat) <= i128::MAX,
    ensures
        r == pow10(e as nat),
{
    let mut i: u32 = 0;
    let mut acc: i128 = 1;
    while i < e
        invariant
            0 <= i <= e,
            acc == pow10(i as nat),
            pow10(e as nat) <= i128::MAX,
        decreases e - i,
    {
        proof {
            lemma_pow10_monotonic((i + 1) as nat, e as nat);
            lemma_pow10_pos(i as nat);
        }
        acc = acc * 10;
        i = i + 1;
    }
    acc
}

pub proof fn lemma_pow10_monotonic(a: nat, b: nat)
    requires
        a <= b,
    ensures
        pow10(a) <= pow10(b),
    decreases b,
{
    if a < b {
        lemma_pow10_monotonic(a, (b - 1) as nat);
        lemma_pow10_pos((b - 1) as nat);
    }
}

/// Two decimals denote the same quantity: their mantissas agree once
/// aligned to a common scale.
pub open spec fn eq_value(a: Decimal, b: Decimal) -> bool {
    a.aligned(max_scale(a, b) as nat) == b.aligned(max_scale(a, b) as nat)
}

/// A nonzero mantissa aligned across 39 or more decimal places leaves
/// the `i128` range.
proof fn lemma_aligned_escapes(m: int, e: nat)
    requires
        m != 0,
        -0x8000_0000_0000_0000_0000_0000_0000_0000 <= m,
        m <= 0xffff_ffff_ffff_ffff_ffff_ffff_ffff_ffff,
        e >= 39,
    ensures
        m * pow10(e) > i128::MAX || m * pow10(e) < i128::MIN,
{
    lemma_pow10_monotonic(39, e);
    assert(pow10(39) == 1_000_000_000_000_000_000_000_000_000_000_000_000_000) by {
        reveal_with_fuel(pow10, 40);
    }
    if m > 0 {
        assert(m * pow10(e) >= 1 * pow10(e)) by (nonlinear_arith)
            requires
                m >= 1,
                pow10(e) >= pow10(39) >= 1,
        ;
    } else {
        assert(m * pow10(e) <= (-1) * pow10(e)) by (nonlinear_arith)
            requires
                m <= -1,
                pow10(e) >= pow10(39) >= 1,
        ;
    }
}

impl PartialEq for Decimal {
    fn eq(&self, other: &Decimal) -> bool {
        let (lo_m, lo_s, hi_m, hi_s): (i128, u32, i128, u32) = if self.scale <= other.scale {
            (self.mantissa, self.scale, other.mantissa, other.scale)
        } else {
            (other.mantissa, other.scale, self.mantissa, self.scale)
        };
        let e: u32 = hi_s - lo_s;
        proof {
            assert(Decimal { mantissa: hi_m, scale: hi_s }.aligned(hi_s as nat) == hi_m * 1);
            assert(hi_m * 1 == hi_m) by (nonlinear_arith);
        }
        if e == 0 {
            proof {
                assert(lo_m * pow10(0) == lo_m) by (nonlinear_arith);
            }
            lo_m == hi_m
        } else if lo_m == 0 {
            proof {
                assert(0int * pow10((e) as nat) == 0) by (nonlinear_arith);
            }
            hi_m == 0
        } else if e > 38 {
            proof {
                lemma_aligned_escapes(lo_m as int, e as nat);
            }
            false
        } else {
            proof {
                assert(pow10(38) <= i128::MAX) by {
                    reveal_with_fuel(pow10, 39);
                }
                lemma_pow10_monotonic(e as nat, 38);
            }
            let p: i128 = pow10_i128(e);
            match lo_m.checked_mul(p) {
                Some(prod) => prod == hi_m,
                None => false,
            }
        }
    }
}

impl vstd::std_specs::cmp::PartialEqSpecImpl for Decimal {
    open spec fn obeys_eq_spec() -> bool {
        true
    }

    open spec fn eq_spec(&self, other: &Decimal) -> bool {
        eq_value(*self, *other)
    }
}

/// `10^30` written out: the largest scaled value of one parsed quantity.
pub proof fn lemma_pow10_30()
    ensures
        pow10(30) == 1_000_000_000_000_000_000_000_000_000_000,
{
    reveal_with_fuel(pow10, 31);
}

/// A well-formed quantity's scaled value is at most `10^30` in magnitude.
pub proof fn lemma_wf_scaled_bound(d: Decimal)
    requires
        d.wf(),
    ensures
        -pow10(30) <= d.scaled() <= pow10(30),
{
    let p = pow10((MAX_SCALE - d.scale) as nat);
    lemma_pow10_pos((MAX_SCALE - d.scale) as nat);
    lemma_pow10_monotonic((MAX_SCALE - d.scale) as nat, MAX_SCALE as nat);
    lemma_pow10_small();
    lemma_pow10_30();
    assert(-(MAX_COEFF as int) * 1_000_000_000_000 <= d.mantissa * p <= (MAX_COEFF as int)
        * 1_000_000_000_000) by (nonlinear_arith)
        requires
            -MAX_COEFF <= d.mantissa <= MAX_COEFF,
            1 <= p <= 1_000_000_000_000,
    ;
}

/// An aligned mantissa lies between zero and the scaled value.
pub proof fn lemma_aligned_le_scaled(d: Decimal, s: nat)
    requires
        d.scale <= s <= MAX_SCALE,
    ensures
        d.scaled() >= 0 ==> 0 <= d.aligned(s) <= d.scaled(),
        d.scaled() < 0 ==> d.scaled() <= d.aligned(s) <= 0,
{
    lemma_aligned_scaled(d, s);
    let p = pow10((MAX_SCALE - s) as nat);
    lemma_pow10_pos((MAX_SCALE - s) as nat);
    assert((d.aligned(s) * p == d.scaled() && p >= 1) ==> (d.scaled() >= 0 ==> 0 <= d.aligned(s)
        <= d.scaled()) && (d.scaled() < 0 ==> d.scaled() <= d.aligned(s) <= 0))
        by (nonlinear_arith);
}

/// A mantissa is at most its scaled value in magnitude.
pub proof fn lemma_mantissa_le_scaled(d: Decimal)
    requires
        d.scale <= MAX_SCALE,
    ensures
        d.scaled() >= 0 ==> 0 <= d.mantissa <= d.scaled(),
        d.scaled() < 0 ==> d.scaled() <= d.mantissa <= 0,
{
    let p = pow10((MAX_SCALE - d.scale) as nat);
    lemma_pow10_pos((MAX_SCALE - d.scale) as nat);
    assert((d.mantissa * p == d.scaled() && p >= 1) ==> (d.scaled() >= 0 ==> 0 <= d.mantissa
        <= d.scaled()) && (d.scaled() < 0 ==> d.scaled() <= d.mantissa <= 0)) by (nonlinear_arith);
}

/// The character for one decimal digit.
pub open spec fn digit_char(d: int) -> char {
    if d == 0 {
        '0'
    } else if d == 1 {
        '1'
    } else if d == 2 {
        '2'
    } else if d == 3 {
        '3'
    } else if d == 4 {
        '4'
    } else if d == 5 {
        '5'
    } else if d == 6 {
        '6'
    } else if d == 7 {
        '7'
    } else if d == 8 {
        '8'
    } else {
        '9'
    }
}

pub open spec fn is_digit_char(c: char) -> bool {
    '0' <= c && c <= '9'
}

/// The numeric value of one digit character.
pub open spec fn char_digit(c: char) -> int {
    c as int - '0' as int
}

/// The decimal digits of `n`, most significant first, no leading zeros.
pub open spec fn digits_of(n: nat) -> Seq<char>
    decreases n,
{
    if n < 10 {
        seq![digit_char(n as int)]
    } else {
        digits_of(n / 10).push(digit_char((n % 10) as int))
    }
}

/// The number denoted by a digit string, by Horner's rule.
pub open spec fn digits_val(ds: Seq<char>) -> int
    decreases ds.len(),
{
    if ds.len() == 0 {
        0
    } else {
        10 * digits_val(ds.drop_last()) + char_digit(ds.last())
    }
}

/// `ds` padded on the left with zeros to at least `k` characters.
pub open spec fn zero_pad(ds: Seq<char>, k: nat) -> Seq<char> {
    if ds.len() >= k {
        ds
    } else {
        Seq::new((k - ds.len()) as nat, |i: int| '0') + ds
    }
}

/// The text of the decimal `m / 10^s`: an optional minus sign, the
/// integer digits, and, when `s > 0`, a radix point followed by exactly
/// `s` fraction digits.
pub open spec fn dec_chars(m: int, s: nat) -> Seq<char> {
    let mag = if m < 0 {
        -m
    } else {
        m
    };
    let ds = zero_pad(digits_of(mag as nat), s + 1);
    let sign = if m < 0 {
        seq!['-']
    } else {
        Seq::<char>::empty()
    };
    if s == 0 {
        sign + ds
    } else {
        sign + ds.take(ds.len() - s) + seq!['.'] + ds.skip(ds.len() - s)
    }
}

fn digit_to_char(d: u8) -> (c: char)
    requires
        d < 10,
    ensures
        c == digit_char(d as int),
{
    if d == 0 {
        '0'
    } else if d == 1 {
        '1'
    } else if d == 2 {
        '2'
    } else if d == 3 {
        '3'
    } else if d == 4 {
        '4'
    } else if d == 5 {
        '5'
    } else if d == 6 {
        '6'
    } else if d == 7 {
        '7'
    } else if d == 8 {
        '8'
    } else {
        '9'
    }
}

pub fn push_digits(n: u128, v: &mut Vec<char>)
    ensures
        final(v)@ == old(v)@ + digits_of(n as nat),
    decreases n,
{
    if n < 10 {
        v.push(digit_to_char(n as u8));
        assert(v@ =~= old(v)@ + digits_of(n as nat));
    } else {
        push_digits(n / 10, v);
        v.push(digit_to_char((n % 10) as u8));
        assert(v@ =~= old(v)@ + digits_of(n as nat));
    }
}

impl Decimal {
    /// The characters of this quantity, as `dec_chars` describes them.
    pub fn to_chars(&self) -> (v: Vec<char>)
        requires
            self.mantissa > i128::MIN,
            self.scale <= MAX_SCALE,
        ensures
            v@ == dec_chars(self.mantissa as int, self.scale as nat),
    {
        let neg: bool = self.mantissa < 0;
        let mag: u128 = if neg {
            (-self.mantissa) as u128
        } else {
            self.mantissa as u128
        };
        let mut ds: Vec<char> = Vec::new();
        push_digits(mag, &mut ds);
        assert(ds@ == digits_of(mag as nat));
        let want: usize = (self.scale as usize) + 1;
        let ghost base = digits_of(mag as nat);
        while ds.len() < want
            invariant
                ds@ =~= Seq::new((ds@.len() - base.len()) as nat, |i: int| '0') + base,
                ds@.len() >= base.len(),
                ds@.len() <= want || ds@.len() == base.len(),
                want == self.scale + 1,
            decreases want - ds.len(),
        {
            ds.insert(0, '0');
            assert(ds@ =~= Seq::new((ds@.len() - base.len()) as nat, |i: int| '0') + base);
        }
        assert(ds@ =~= zero_pad(base, (self.scale + 1) as nat));
        let mut out: Vec<char> = Vec::new();
        if neg {
            out.push('-');
        }
        let s: usize = self.scale as usize;
        let cut: usize = ds.len() - s;
        let mut i: usize = 0;
        while i < cut
            invariant
                i <= cut <= ds.len(),
                out@ =~= (if neg {
                    seq!['-']
                } else {
                    Seq::<char>::empty()
                }) + ds@.take(i as int),
            decreases cut - i,
        {
            out.push(ds[i]);
            i = i + 1;
        }
        if s > 0 {
            out.push('.');
            let mut j: usize = cut;
            while j < ds.len()
                invariant
                    cut <= j <= ds@.len(),
                    cut == ds@.len() - s,
                    out@ =~= (if neg {
                        seq!['-']
                    } else {
                        Seq::<char>::empty()
                    }) + ds@.take(cut as int) + seq!['.'] + ds@.subrange(cut as int, j as int),
                decreases ds.len() - j,
            {
                out.push(ds[j]);
                j = j + 1;
            }
            assert(ds@.subrange(cut as int, ds@.len() as int) =~= ds@.skip(cut as int));
        }
        proof {
            if self.scale == 0 {
                assert(out@ =~= dec_chars(self.mantissa as int, self.scale as nat));
            } else {
                assert(out@ =~= dec_chars(self.mantissa as int, self.scale as nat));
            }
        }
        out
    }

    /// The quantity written as text.
    pub fn render(&self) -> (r: String)
        requires
            self.mantissa > i128::MIN,
            self.scale <= MAX_SCALE,
        ensures
            r@ == dec_chars(self.mantissa as int, self.scale as nat),
    {
        let v = self.to_chars();
        crate::text::chars_to_string(&v)
    }
}

/// Reading back the digits of `n` yields `n`, and every character is a
/// digit.
pub proof fn lemma_digits_of_val(n: nat)
    ensures
        digits_val(digits_of(n)) == n,
        digits_of(n).len() >= 1,
        forall|i: int| 0 <= i < digits_of(n).len() ==> is_digit_char(#[trigger] digits_of(n)[i]),
    decreases n,
{
    if n < 10 {
        let ds = digits_of(n);
        assert(ds == seq![digit_char(n as int)]);
        assert(ds.drop_last() =~= Seq::<char>::empty());
        assert(ds.last() == digit_char(n as int));
        assert(digits_val(ds) == 10 * digits_val(Seq::<char>::empty()) + char_digit(ds.last()));
        assert(char_digit(digit_char(n as int)) == n);
    } else {
        lemma_digits_of_val(n / 10);
        let ds = digits_of(n);
        assert(ds == digits_of(n / 10).push(digit_char((n % 10) as int)));
        assert(ds.drop_last() =~= digits_of(n / 10));
        assert(char_digit(digit_char((n % 10) as int)) == n % 10);
        assert(digits_val(ds) == 10 * (n / 10) + n % 10);
    }
}

/// Leading zeros do not change a digit string's value, and padding keeps
/// every character a digit.
pub proof fn lemma_zero_pad_val(ds: Seq<char>, k: nat)
    requires
        forall|i: int| 0 <= i < ds.len() ==> is_digit_char(#[trigger] ds[i]),
    ensures
        digits_val(zero_pad(ds, k)) == digits_val(ds),
        zero_pad(ds, k).len() >= k,
        zero_pad(ds, k).len() >= ds.len(),
        forall|i: int|
            0 <= i < zero_pad(ds, k).len() ==> is_digit_char(#[trigger] zero_pad(ds, k)[i]),
{
    if ds.len() >= k {
    } else {
        lemma_zeros_prefix_val(Seq::new((k - ds.len()) as nat, |i: int| '0'), ds);
    }
}

/// Prepending zeros to a digit string does not change its value.
pub proof fn lemma_zeros_prefix_val(zs: Seq<char>, ds: Seq<char>)
    requires
        forall|i: int| 0 <= i < zs.len() ==> zs[i] == '0',
    ensures
        digits_val(zs + ds) == digits_val(ds),
    decreases ds.len(), zs.len(),
{
    if ds.len() == 0 {
        if zs.len() == 0 {
            assert(zs + ds =~= Seq::<char>::empty());
        } else {
            assert((zs + ds).drop_last() =~= zs.drop_last() + ds);
            assert((zs + ds).last() == zs.last());
            lemma_zeros_prefix_val(zs.drop_last(), ds);
            assert(char_digit('0') == 0);
        }
    } else {
        assert((zs + ds).drop_last() =~= zs + ds.drop_last());
        assert((zs + ds).last() == ds.last());
        lemma_zeros_prefix_val(zs, ds.drop_last());
    }
}

/// A quantity's text is non-empty and starts with the minus sign exactly
/// when the quantity is negative, and with a digit otherwise.
pub proof fn lemma_dec_chars_first(m: int, s: nat)
    ensures
        dec_chars(m, s).len() >= 1,
        m < 0 ==> dec_chars(m, s)[0] == '-',
        m >= 0 ==> is_digit_char(dec_chars(m, s)[0]),
{
    let mag: nat = (if m < 0 {
        -m
    } else {
        m
    }) as nat;
    lemma_digits_of_val(mag);
    lemma_zero_pad_val(digits_of(mag), s + 1);
    let ds = zero_pad(digits_of(mag), s + 1);
    if m >= 0 {
        if s == 0 {
            assert(dec_chars(m, s)[0] == ds[0]);
        } else {
            assert(dec_chars(m, s)[0] == ds.take(ds.len() - s)[0]);
        }
    }
}

} // verus!
