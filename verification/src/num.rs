//! Fixed-point decimal numbers.
//!
//! A `LoxNum` stores `mantissa`, and the number it denotes is
//! `mantissa / 10^9`.  Mantissas are kept within `±10^27`, so every
//! arithmetic result is saturated ("clamped") to that range; division
//! truncates toward zero and division by zero saturates by sign.
use vstd::prelude::*;
use vstd::math::abs;

verus! {

/// Number of mantissa units per one: nine decimal fraction digits.
pub const NUM_SCALE: u128 = 1_000_000_000;

/// Largest mantissa magnitude a well-formed number may carry (`10^27`).
pub const NUM_BOUND: u128 = 1_000_000_000_000_000_000_000_000_000;

pub open spec fn scale() -> int {
    NUM_SCALE as int
}

pub open spec fn bound() -> int {
    NUM_BOUND as int
}

/// Saturate a mantissa into the representable range.
pub open spec fn sat(v: int) -> int {
    if v > bound() {
        bound()
    } else if v < -bound() {
        -bound()
    } else {
        v
    }
}

/// Quotient truncated toward zero (the usual hardware division).
pub open spec fn div_trunc(a: int, b: int) -> int
    recommends
        b != 0,
{
    if (a >= 0) == (b >= 0) {
        abs(a) as int / abs(b) as int
    } else {
        -(abs(a) as int / abs(b) as int)
    }
}

/// Quotient rounded toward negative infinity.
pub open spec fn div_floor(a: int, b: int) -> int
    recommends
        b != 0,
{
    if abs(a) as int % abs(b) as int == 0 || ((a >= 0) == (b >= 0)) {
        div_trunc(a, b)
    } else {
        div_trunc(a, b) - 1
    }
}

pub open spec fn num_add(a: int, b: int) -> int {
    sat(a + b)
}

pub open spec fn num_sub(a: int, b: int) -> int {
    sat(a - b)
}

pub open spec fn num_neg(a: int) -> int {
    -a
}

pub open spec fn num_mul(a: int, b: int) -> int {
    sat(div_trunc(a * b, scale()))
}

/// Division by zero saturates to the signed extreme (zero stays zero).
pub open spec fn num_div(a: int, b: int) -> int {
    if b == 0 {
        if a > 0 {
            bound()
        } else if a < 0 {
            -bound()
        } else {
            0
        }
    } else {
        sat(div_trunc(a * scale(), b))
    }
}

/// Mathematical (floor-based) modulo; modulo by zero yields zero.
pub open spec fn num_mod(a: int, b: int) -> int {
    if b == 0 {
        0
    } else {
        a - div_floor(a, b) * b
    }
}

#[derive(Clone, Copy, Debug, PartialEq, Eq, Structural)]
pub struct LoxNum {
    pub mantissa: i128,
}

impl View for LoxNum {
    type V = int;

    open spec fn view(&self) -> int {
        self.mantissa as int
    }
}

impl LoxNum {
    /// Every number the library manipulates keeps its mantissa in range.
    pub open spec fn inv(self) -> bool {
        -bound() <= self.mantissa as int <= bound()
    }

    /// The number denoting the given integer, saturated into range.
    pub fn from_int(v: u64) -> (r: LoxNum)
        ensures
            r.inv(),
            r@ == sat(v as int * scale()),
    {
        proof {
            assert(v as int * scale() <= u64::MAX as int * 1_000_000_000) by (nonlinear_arith)
                requires
                    v <= u64::MAX,
            ;
            assert(v as int * scale() >= 0) by (nonlinear_arith);
        }
        let mag = (v as u128) * NUM_SCALE;
        Self::compose(false, Self::sat_mag(mag))
    }

    pub fn lt(&self, other: &LoxNum) -> (r: bool)
        ensures
            r == (self@ < other@),
    {
        self.mantissa < other.mantissa
    }

    pub fn le(&self, other: &LoxNum) -> (r: bool)
        ensures
            r == (self@ <= other@),
    {
        self.mantissa <= other.mantissa
    }

    pub fn add(&self, other: &LoxNum) -> (r: LoxNum)
        requires
            self.inv(),
            other.inv(),
        ensures
            r.inv(),
            r@ == num_add(self@, other@),
    {
        Self::sat_i(self.mantissa + other.mantissa)
    }

    pub fn sub(&self, other: &LoxNum) -> (r: LoxNum)
        requires
            self.inv(),
            other.inv(),
        ensures
            r.inv(),
            r@ == num_sub(self@, other@),
    {
        Self::sat_i(self.mantissa - other.mantissa)
    }

    pub fn neg(&self) -> (r: LoxNum)
        requires
            self.inv(),
        ensures
            r.inv(),
            r@ == num_neg(self@),
    {
        LoxNum { mantissa: -self.mantissa }
    }

    /// Saturate a signed mantissa that a single add or subtract produced.
    fn sat_i(v: i128) -> (r: LoxNum)
        ensures
            r.inv(),
            r@ == sat(v as int),
    {
        if v > NUM_BOUND as i128 {
            LoxNum { mantissa: NUM_BOUND as i128 }
        } else if v < -(NUM_BOUND as i128) {
            LoxNum { mantissa: -(NUM_BOUND as i128) }
        } else {
            LoxNum { mantissa: v }
        }
    }

    /// Split into sign and magnitude.
    fn split(v: i128) -> (r: (bool, u128))
        requires
            -bound() <= v as int <= bound(),
        ensures
            r.1 as int == abs(v as int),
            r.0 == (v < 0),
    {
        if v < 0 {
            (true, (-v) as u128)
        } else {
            (false, v as u128)
        }
    }

    /// Rebuild a signed mantissa from sign and saturated magnitude.
    fn compose(neg: bool, mag: u128) -> (r: LoxNum)
        requires
            mag as int <= bound(),
        ensures
            r.inv(),
            r@ == if neg {
                -(mag as int)
            } else {
                mag as int
            },
    {
        if neg {
            LoxNum { mantissa: -(mag as i128) }
        } else {
            LoxNum { mantissa: mag as i128 }
        }
    }

    fn sat_mag(mag: u128) -> (r: u128)
        ensures
            r as int == if mag as int > bound() {
                bound()
            } else {
                mag as int
            },
    {
        if mag > NUM_BOUND {
            NUM_BOUND
        } else {
            mag
        }
    }

    pub fn mul(&self, other: &LoxNum) -> (r: LoxNum)
        requires
            self.inv(),
            other.inv(),
        ensures
            r.inv(),
            r@ == num_mul(self@, other@),
    {
        let ghost a = self@;
        let ghost b = other@;
        let (na, ma) = Self::split(self.mantissa);
        let (nb, mb) = Self::split(other.mantissa);
        let neg = na != nb;
        proof {
            lemma_abs_mul(a, b);
        }
        match ma.checked_mul(mb) {
            Some(p) => {
                let q = p / NUM_SCALE;
                proof {
                    lemma_trunc_by_magnitude(a * b, scale());
                }
                Self::compose(neg && q > 0, Self::sat_mag(q))
            },
            None => {
                proof {
                    lemma_trunc_by_magnitude(a * b, scale());
                    assert(abs(a * b) as int / scale() > bound()) by (nonlinear_arith)
                        requires
                            abs(a * b) as int > u128::MAX as int,
                            scale() == NUM_SCALE as int,
                            bound() == NUM_BOUND as int,
                    ;
                }
                Self::compose(neg, NUM_BOUND)
            },
        }
    }

    pub fn div(&self, other: &LoxNum) -> (r: LoxNum)
        requires
            self.inv(),
            other.inv(),
        ensures
            r.inv(),
            r@ == num_div(self@, other@),
    {
        let ghost a = self@;
        let ghost b = other@;
        if other.mantissa == 0 {
            if self.mantissa > 0 {
                LoxNum { mantissa: NUM_BOUND as i128 }
            } else if self.mantissa < 0 {
                LoxNum { mantissa: -(NUM_BOUND as i128) }
            } else {
                LoxNum { mantissa: 0 }
            }
        } else {
            let (na, ma) = Self::split(self.mantissa);
            let (nb, mb) = Self::split(other.mantissa);
            let neg = na != nb;
            let p = ma * NUM_SCALE;
            let q = p / mb;
            proof {
                lemma_abs_mul(a, scale());
                assert(abs(scale()) as int == scale());
                lemma_trunc_by_magnitude(a * scale(), b);
                assert((a * scale() >= 0) == (a >= 0)) by (nonlinear_arith);
            }
            Self::compose(neg && q > 0, Self::sat_mag(q))
        }
    }

    pub fn floor_mod(&self, other: &LoxNum) -> (r: LoxNum)
        requires
            self.inv(),
            other.inv(),
        ensures
            r.inv(),
            r@ == num_mod(self@, other@),
    {
        let ghost a = self@;
        let ghost b = other@;
        if other.mantissa == 0 {
            LoxNum { mantissa: 0 }
        } else {
            let (na, ma) = Self::split(self.mantissa);
            let (nb, mb) = Self::split(other.mantissa);
            let q0 = ma / mb;
            let rem = ma % mb;
            let same = na == nb;
            let rmag = if rem == 0 {
                0
            } else if same {
                rem
            } else {
                mb - rem
            };
            let rneg = nb && rmag != 0;
            proof {
                lemma_floor_mod_cases(a, b, ma as int, mb as int);
            }
            Self::compose(rneg, rmag)
        }
    }
}

// ---------------------------------------------------------------------------
// Decimal text form
// ---------------------------------------------------------------------------

pub open spec fn dec_digit(d: int) -> char {
    if d == 0 {
        '0'
    } else if d == 1 {
        '1'
    } else if d == 2 {
        '2'
    } else if d == 3 {
        '3'
    } else if d == 4 {
        '4'
    } else if d == 5 {
        '5'
    } else if d == 6 {
        '6'
    } else if d == 7 {
        '7'
    } else if d == 8 {
        '8'
    } else {
        '9'
    }
}

/// Decimal digits of `n`, most significant first.
pub open spec fn dec_str(n: nat) -> Seq<char>
    decreases n,
{
    if n < 10 {
        seq![dec_digit(n as int)]
    } else {
        dec_str(n / 10).push(dec_digit((n % 10) as int))
    }
}

/// Exactly `w` decimal digits of `n`, zero padded at the front.
pub open spec fn pad_str(n: nat, w: nat) -> Seq<char>
    decreases w,
{
    if w == 0 {
        Seq::<char>::empty()
    } else {
        pad_str(n / 10, (w - 1) as nat).push(dec_digit((n % 10) as int))
    }
}

pub open spec fn trim_zeros(s: Seq<char>) -> Seq<char>
    decreases s.len(),
{
    if s.len() > 0 && s.last() == '0' {
        trim_zeros(s.drop_last())
    } else {
        s
    }
}

/// The text form of a number: optional minus sign, integer part, and a
/// fraction part with trailing zeros removed, present only when nonzero.
pub open spec fn num_text(m: int) -> Seq<char> {
    let mag = abs(m);
    let ip = mag / (NUM_SCALE as nat);
    let fp = mag % (NUM_SCALE as nat);
    (if m < 0 {
        seq!['-']
    } else {
        Seq::<char>::empty()
    }) + dec_str(ip) + (if fp == 0 {
        Seq::<char>::empty()
    } else {
        seq!['.'] + trim_zeros(pad_str(fp, 9))
    })
}

fn digit_char(d: u128) -> (c: char)
    requires
        d < 10,
    ensures
        c == dec_digit(d as int),
{
    match d {
        0 => '0',
        1 => '1',
        2 => '2',
        3 => '3',
        4 => '4',
        5 => '5',
        6 => '6',
        7 => '7',
        8 => '8',
        _ => '9',
    }
}

pub fn push_dec(out: &mut Vec<char>, n: u128)
    ensures
        final(out)@ == old(out)@ + dec_str(n as nat),
    decreases n,
{
    if n < 10 {
        out.push(digit_char(n));
    } else {
        push_dec(out, n / 10);
        out.push(digit_char(n % 10));
    }
}

fn push_pad(out: &mut Vec<char>, n: u128, w: usize)
    ensures
        final(out)@ == old(out)@ + pad_str(n as nat, w as nat),
    decreases w,
{
    if w > 0 {
        push_pad(out, n / 10, w - 1);
        out.push(digit_char(n % 10));
    } else {
        assert(old(out)@ + pad_str(n as nat, 0) =~= old(out)@);
    }
}

impl LoxNum {
    /// Render the number as decimal text.
    pub fn to_chars(&self) -> (r: Vec<char>)
        requires
            self.inv(),
        ensures
            r@ == num_text(self@),
    {
        let ghost fpg = abs(self@) % (NUM_SCALE as nat);
        let (neg, mag) = Self::split(self.mantissa);
        let ip = mag / NUM_SCALE;
        let fp = mag % NUM_SCALE;
        let mut out: Vec<char> = Vec::new();
        if neg {
            out.push('-');
        }
        push_dec(&mut out, ip);
        if fp != 0 {
            let mut frac: Vec<char> = Vec::new();
            push_pad(&mut frac, fp, 9);
            proof {
                assert(frac@ =~= Seq::<char>::empty() + pad_str(fpg, 9));
            }
            while frac.len() > 0 && frac[frac.len() - 1] == '0'
                invariant
                    trim_zeros(frac@) == trim_zeros(pad_str(fpg, 9)),
                decreases frac.len(),
            {
                let ghost pre = frac@;
                frac.pop();
                proof {
                    assert(frac@ =~= pre.drop_last());
                }
            }
            out.push('.');
            out.append(&mut frac);
        }
        proof {
            assert(out@ =~= num_text(self@));
        }
        out
    }
}

// ---------------------------------------------------------------------------
// Parsing literal text
// ---------------------------------------------------------------------------

/// Digit strings longer than this saturate while being accumulated.
pub const DIG_CAP: u128 = 1_000_000_000_000_000_000_000_000_000_000_000_000;

/// Exponents saturate here; any larger one overflows every number anyway.
pub const EXP_CAP: u128 = 100;

pub open spec fn is_digit_char(c: char) -> bool {
    '0' <= c && c <= '9'
}

pub open spec fn digit_val(c: char) -> int {
    if c == '0' {
        0
    } else if c == '1' {
        1
    } else if c == '2' {
        2
    } else if c == '3' {
        3
    } else if c == '4' {
        4
    } else if c == '5' {
        5
    } else if c == '6' {
        6
    } else if c == '7' {
        7
    } else if c == '8' {
        8
    } else {
        9
    }
}

/// The value of a digit string, saturated at `cap`.
pub open spec fn dig_acc(s: Seq<char>, cap: int) -> int
    decreases s.len(),
{
    if s.len() == 0 {
        0
    } else {
        let p = dig_acc(s.drop_last(), cap);
        let v = p * 10 + digit_val(s.last());
        if v > cap {
            cap
        } else {
            v
        }
    }
}

pub open spec fn pow10(e: int) -> int
    decreases e,
{
    if e <= 0 {
        1
    } else {
        10 * pow10(e - 1)
    }
}

/// The mantissa denoted by significand digits `sig` (integer digits
/// followed by `flen` fraction digits) and exponent digits `xp`,
/// saturated into range; what falls below the ninth decimal place of the
/// final value is truncated.
pub open spec fn num_from_parts(sig: Seq<char>, flen: int, xp: Seq<char>) -> int {
    let d = dig_acc(sig, DIG_CAP as int);
    let e = dig_acc(xp, EXP_CAP as int);
    if e >= flen {
        sat(d * scale() * pow10(e - flen))
    } else {
        sat(div_trunc(d * scale(), pow10(flen - e)))
    }
}

proof fn lemma_pow10_pos(e: int)
    ensures
        pow10(e) >= 1,
    decreases e,
{
    if e > 0 {
        lemma_pow10_pos(e - 1);
    }
}

proof fn lemma_pow10_monotone(a: int, b: int)
    requires
        a <= b,
    ensures
        pow10(a) <= pow10(b),
    decreases b - a,
{
    if a < b {
        lemma_pow10_monotone(a, b - 1);
        lemma_pow10_pos(b - 1);
    }
}

proof fn lemma_pow10_split(a: int, b: int)
    requires
        a >= 0,
        b >= 0,
    ensures
        pow10(a + b) == pow10(a) * pow10(b),
    decreases a,
{
    if a == 0 {
        assert(pow10(b) == 1 * pow10(b)) by (nonlinear_arith);
    } else {
        lemma_pow10_split(a - 1, b);
        assert(10 * (pow10(a - 1) * pow10(b)) == (10 * pow10(a - 1)) * pow10(b))
            by (nonlinear_arith);
    }
}

pub proof fn lemma_pow10_values()
    ensures
        pow10(9) == NUM_SCALE as int,
        pow10(27) == NUM_BOUND as int,
        pow10(36) == DIG_CAP as int,
        pow10(28) == 10 * NUM_BOUND as int,
        pow10(37) == 10 * DIG_CAP as int,
        pow10(20) == 100_000_000_000_000_000_000,
{
    reveal_with_fuel(pow10, 40);
}

/// A number below `10^k` needs at most `k` digits, and always at least one.
pub proof fn lemma_dec_str_len(n: nat, k: nat)
    requires
        n < pow10(k as int),
        k >= 1,
    ensures
        1 <= dec_str(n).len() <= k,
    decreases k,
{
    if n < 10 {
    } else {
        assert(k >= 2) by {
            reveal_with_fuel(pow10, 2);
        }
        assert(pow10(k as int) == 10 * pow10(k as int - 1));
        lemma_pow10_pos(k as int - 1);
        assert(n / 10 < pow10(k as int - 1)) by (nonlinear_arith)
            requires
                n < 10 * pow10(k as int - 1),
                pow10(k as int - 1) >= 1,
        ;
        lemma_dec_str_len(n / 10, (k - 1) as nat);
    }
}

proof fn lemma_dig_acc_bounds(s: Seq<char>, cap: int)
    requires
        cap >= 0,
    ensures
        0 <= dig_acc(s, cap) <= cap,
    decreases s.len(),
{
    if s.len() > 0 {
        lemma_dig_acc_bounds(s.drop_last(), cap);
    }
}

/// One forward step of digit accumulation.
proof fn lemma_dig_acc_step(s: Seq<char>, i: int, cap: int)
    requires
        0 <= i < s.len(),
    ensures
        dig_acc(s.take(i + 1), cap) == ({
            let v = dig_acc(s.take(i), cap) * 10 + digit_val(s[i]);
            if v > cap {
                cap
            } else {
                v
            }
        }),
{
    assert(s.take(i + 1).drop_last() =~= s.take(i));
    assert(s.take(i + 1).last() == s[i]);
}

fn digit_of(c: char) -> (d: u128)
    ensures
        d as int == digit_val(c),
        d < 10,
{
    match c {
        '0' => 0,
        '1' => 1,
        '2' => 2,
        '3' => 3,
        '4' => 4,
        '5' => 5,
        '6' => 6,
        '7' => 7,
        '8' => 8,
        _ => 9,
    }
}

/// Accumulate the value of a run of digit characters, saturating at `cap`.
fn acc_digits(s: &Vec<char>, cap: u128) -> (r: u128)
    requires
        cap <= DIG_CAP,
    ensures
        r as int == dig_acc(s@, cap as int),
        r <= cap,
{
    let mut acc: u128 = 0;
    let mut i: usize = 0;
    proof {
        assert(s@.take(0) =~= Seq::<char>::empty());
    }
    while i < s.len()
        invariant
            i <= s.len(),
            0 <= acc <= cap,
            cap <= DIG_CAP,
            acc as int == dig_acc(s@.take(i as int), cap as int),
        decreases s.len() - i,
    {
        let c = s[i];
        let d: u128 = digit_of(c);
        let v = acc * 10 + d;
        acc = if v > cap {
            cap
        } else {
            v
        };
        proof {
            lemma_dig_acc_step(s@, i as int, cap as int);
        }
        i += 1;
    }
    proof {
        assert(s@.take(s@.len() as int) =~= s@);
    }
    acc
}

fn pow10_u(e: usize) -> (r: u128)
    requires
        e <= 36,
    ensures
        r as int == pow10(e as int),
        r <= DIG_CAP,
{
    proof {
        lemma_pow10_values();
    }
    let mut acc: u128 = 1;
    let mut i: usize = 0;
    while i < e
        invariant
            i <= e <= 36,
            acc as int == pow10(i as int),
            acc <= DIG_CAP,
        decreases e - i,
    {
        proof {
            lemma_pow10_values();
            lemma_pow10_monotone(i as int + 1, 36);
            lemma_pow10_pos(i as int);
        }
        acc = acc * 10;
        i += 1;
    }
    acc
}

impl LoxNum {
    /// Build the number a numeric literal denotes.  `sig` holds the
    /// significand digits, of which the last `flen` sit after the decimal
    /// point, and `xp` holds the exponent digits (none means exponent 0).
    pub fn from_parts(sig: &Vec<char>, flen: usize, xp: &Vec<char>) -> (r: LoxNum)
        requires
            flen <= sig.len(),
        ensures
            r.inv(),
            r@ == num_from_parts(sig@, flen as int, xp@),
    {
        proof {
            lemma_pow10_values();
            lemma_dig_acc_bounds(sig@, DIG_CAP as int);
            lemma_dig_acc_bounds(xp@, EXP_CAP as int);
        }
        let d = acc_digits(sig, DIG_CAP);
        let e = acc_digits(xp, EXP_CAP);
        let ghost dd = d as int;
        if e >= flen as u128 {
            let k = e - flen as u128;
            let ghost kk = k as int;
            if d == 0 {
                proof {
                    assert(0 * scale() * pow10(kk) == 0) by (nonlinear_arith);
                }
                LoxNum { mantissa: 0 }
            } else if k >= 28 {
                proof {
                    lemma_pow10_monotone(28, kk);
                    assert(dd * scale() * pow10(kk) > bound()) by (nonlinear_arith)
                        requires
                            dd >= 1,
                            scale() == NUM_SCALE as int,
                            pow10(kk) >= pow10(28),
                            pow10(28) == 10 * NUM_BOUND as int,
                            bound() == NUM_BOUND as int,
                    ;
                }
                LoxNum { mantissa: NUM_BOUND as i128 }
            } else {
                let pw = pow10_u(k as usize);
                proof {
                    lemma_pow10_pos(kk);
                    lemma_pow10_monotone(kk, 27);
                }
                match d.checked_mul(NUM_SCALE) {
                    Some(m1) => {
                        match m1.checked_mul(pw) {
                            Some(m2) => {
                                proof {
                                    assert(dd * scale() * pow10(kk) == m2 as int)
                                        by (nonlinear_arith)
                                        requires
                                            m1 as int == dd * scale(),
                                            m2 as int == m1 as int * pow10(kk),
                                    ;
                                }
                                Self::compose(false, Self::sat_mag(m2))
                            },
                            None => {
                                proof {
                                    assert(dd * scale() * pow10(kk) > bound())
                                        by (nonlinear_arith)
                                        requires
                                            m1 as int == dd * scale(),
                                            m1 as int * pow10(kk) > u128::MAX as int,
                                            u128::MAX as int > bound(),
                                    ;
                                }
                                LoxNum { mantissa: NUM_BOUND as i128 }
                            },
                        }
                    },
                    None => {
                        proof {
                            lemma_pow10_pos(kk);
                            assert(dd * scale() * pow10(kk) > bound()) by (nonlinear_arith)
                                requires
                                    dd * scale() > u128::MAX as int,
                                    pow10(kk) >= 1,
                                    u128::MAX as int > bound(),
                            ;
                        }
                        LoxNum { mantissa: NUM_BOUND as i128 }
                    },
                }
            }
        } else {
            // Negative overall shift: divide by a power of ten.
            let kk = flen as u128 - e;
            let ghost kki = kk as int;
            proof {
                lemma_pow10_pos(kki);
            }
            if kk <= 9 {
                let pw = pow10_u(9 - kk as usize);
                proof {
                    lemma_pow10_split(9 - kki, kki);
                    assert(pow10(9) == pow10(9 - kki) * pow10(kki));
                }
                proof {
                    lemma_pow10_pos(9 - kki);
                    lemma_cancel_mul_div(dd, pow10(9 - kki), pow10(kki));
                    assert(dd * scale() == dd * pow10(9 - kki) * pow10(kki)) by (nonlinear_arith)
                        requires
                            scale() == pow10(9 - kki) * pow10(kki),
                    ;
                }
                match d.checked_mul(pw) {
                    Some(m) => Self::compose(false, Self::sat_mag(m)),
                    None => {
                        proof {
                            assert(dd * pow10(9 - kki) > bound()) by (nonlinear_arith)
                                requires
                                    dd * pow10(9 - kki) > u128::MAX as int,
                                    u128::MAX as int > bound(),
                            ;
                        }
                        LoxNum { mantissa: NUM_BOUND as i128 }
                    },
                }
            } else {
                proof {
                    lemma_pow10_split(9, kki - 9);
                    lemma_pow10_pos(kki - 9);
                    lemma_shift_right(dd, pow10(kki - 9));
                }
                if kk - 9 >= 37 {
                    proof {
                        lemma_pow10_monotone(37, kki - 9);
                        vstd::arithmetic::div_mod::lemma_basic_div(dd, pow10(kki - 9));
                    }
                    LoxNum { mantissa: 0 }
                } else {
                    let pw = pow10_u((kk - 9) as usize);
                    let q = d / pw;
                    Self::compose(false, Self::sat_mag(q))
                }
            }
        }
    }
}

/// `(d * p) / p == d` and the result of an exact multiple division.
proof fn lemma_cancel_mul_div(d: int, p: int, q: int)
    requires
        d >= 0,
        p >= 1,
        q >= 1,
    ensures
        div_trunc(d * p * q, q) == d * p,
{
    assert(d * p >= 0) by (nonlinear_arith)
        requires
            d >= 0,
            p >= 1,
    ;
    assert(d * p * q >= 0) by (nonlinear_arith)
        requires
            d * p >= 0,
            q >= 1,
    ;
    vstd::arithmetic::div_mod::lemma_div_multiples_vanish(d * p, q);
    assert(q * (d * p) == d * p * q) by (nonlinear_arith);
}

/// Dividing by `scale * p` is dividing the significand by `p`.
proof fn lemma_shift_right(d: int, p: int)
    requires
        d >= 0,
        p >= 1,
    ensures
        div_trunc(d * scale(), scale() * p) == d / p,
{
    assert(d * scale() >= 0) by (nonlinear_arith)
        requires
            d >= 0,
    ;
    assert(scale() * p >= scale()) by (nonlinear_arith)
        requires
            p >= 1,
    ;
    vstd::arithmetic::div_mod::lemma_div_denominator(d * scale(), scale() as int, p);
    vstd::arithmetic::div_mod::lemma_div_multiples_vanish(d, scale() as int);
    assert(scale() * d == d * scale()) by (nonlinear_arith);
}

/// The magnitude of a product is the product of the magnitudes.
proof fn lemma_abs_mul(a: int, b: int)
    ensures
        abs(a * b) as int == abs(a) as int * abs(b) as int,
        a != 0 && b != 0 ==> ((a * b >= 0) == ((a >= 0) == (b >= 0))),
        a == 0 || b == 0 ==> a * b == 0,
{
    assert(abs(a * b) as int == abs(a) as int * abs(b) as int) by (nonlinear_arith);
    assert(a != 0 && b != 0 ==> ((a * b >= 0) == ((a >= 0) == (b >= 0)))) by (nonlinear_arith);
    assert(a == 0 || b == 0 ==> a * b == 0) by (nonlinear_arith);
}

/// Truncating division computed on magnitudes.
proof fn lemma_trunc_by_magnitude(x: int, d: int)
    requires
        d != 0,
    ensures
        div_trunc(x, d) == if (x >= 0) == (d >= 0) {
            abs(x) as int / abs(d) as int
        } else {
            -(abs(x) as int / abs(d) as int)
        },
        abs(x) as int / abs(d) as int >= 0,
        x == 0 ==> div_trunc(x, d) == 0,
{
    assert(abs(x) as int / abs(d) as int >= 0) by (nonlinear_arith)
        requires
            abs(d) as int > 0,
            abs(x) as int >= 0,
    ;
    if x == 0 {
        assert(abs(0int) as int / abs(d) as int == 0) by (nonlinear_arith)
            requires
                abs(d) as int > 0,
        ;
    }
}

/// Relates the sign/magnitude remainder computation to `num_mod`.
proof fn lemma_floor_mod_cases(a: int, b: int, ma: int, mb: int)
    requires
        b != 0,
        ma == abs(a) as int,
        mb == abs(b) as int,
    ensures
        ({
            let q0 = ma / mb;
            let rem = ma % mb;
            let same = (a < 0) == (b < 0);
            let rmag: int = if rem == 0 {
                0
            } else if same {
                rem
            } else {
                mb - rem
            };
            let rneg = (b < 0) && rmag != 0;
            &&& num_mod(a, b) == if rneg {
                -rmag
            } else {
                rmag
            }
            &&& 0 <= rmag <= mb
        }),
{
    let q0 = ma / mb;
    let rem = ma % mb;
    vstd::arithmetic::div_mod::lemma_fundamental_div_mod(ma, mb);
    vstd::arithmetic::div_mod::lemma_remainder_upper(ma, mb);
    vstd::arithmetic::div_mod::lemma_remainder_lower(ma, mb);
    vstd::arithmetic::div_mod::lemma_div_pos_is_pos(ma, mb);
    assert(ma == q0 * mb + rem);
    assert(0 <= rem < mb);
    assert(q0 >= 0);
    if a >= 0 && b > 0 {
        assert(num_mod(a, b) == a - q0 * b);
        assert(a - q0 * b == rem);
    } else if a < 0 && b < 0 {
        assert(a == -ma && b == -mb);
        assert(div_trunc(a, b) == q0);
        assert(div_floor(a, b) == q0);
        assert(num_mod(a, b) == a - q0 * b);
        assert(a - q0 * b == -ma + q0 * mb) by (nonlinear_arith)
            requires
                a == -ma,
                b == -mb,
        ;
        assert(-ma + q0 * mb == -rem);
    } else if a >= 0 && b < 0 {
        assert(b == -mb && a == ma);
        assert(div_trunc(a, b) == -q0);
        if rem == 0 {
            assert(div_floor(a, b) == -q0);
            assert(num_mod(a, b) == a - (-q0) * b);
            assert(a - (-q0) * b == ma - q0 * mb) by (nonlinear_arith)
                requires
                    a == ma,
                    b == -mb,
            ;
        } else {
            assert(div_floor(a, b) == -q0 - 1);
            assert(num_mod(a, b) == a - (-q0 - 1) * b);
            assert(a - (-q0 - 1) * b == ma - (q0 + 1) * mb) by (nonlinear_arith)
                requires
                    a == ma,
                    b == -mb,
            ;
            assert(ma - (q0 + 1) * mb == rem - mb) by (nonlinear_arith)
                requires
                    ma == q0 * mb + rem,
            ;
        }
    } else {
        assert(a < 0 && b > 0);
        assert(a == -ma && b == mb);
        assert(div_trunc(a, b) == -q0);
        if rem == 0 {
            assert(div_floor(a, b) == -q0);
            assert(num_mod(a, b) == a - (-q0) * b);
            assert(a - (-q0) * b == -ma + q0 * mb) by (nonlinear_arith)
                requires
                    a == -ma,
                    b == mb,
            ;
        } else {
            assert(div_floor(a, b) == -q0 - 1);
            assert(num_mod(a, b) == a - (-q0 - 1) * b);
            assert(a - (-q0 - 1) * b == -ma + (q0 + 1) * mb) by (nonlinear_arith)
                requires
                    a == -ma,
                    b == mb,
            ;
            assert(-ma + (q0 + 1) * mb == mb - rem) by (nonlinear_arith)
                requires
                    ma == q0 * mb + rem,
            ;
        }
    }
}

} // verus!
