//! Fixed-precision unsigned monetary amounts: a 64-bit whole part and a
//! four-digit fractional part. Arithmetic is exact; subtraction reports the
//! shortfall instead of going negative.

use vstd::prelude::*;
use vstd::string::StringSliceAdditionalSpecFns;

verus! {

/// Number of fractional digits carried by every amount.
pub const PRECISION: u32 = 4;

/// Ten to the `PRECISION`: the modulus at which fractional digits carry
/// into the whole part.
pub const FRAC_MODULUS: u16 = 10000;

/// An exact monetary amount: `dollars` whole units plus `cents` ten-thousandths.
#[derive(Clone, Copy, Debug, PartialEq, Eq, Structural)]
pub struct Decimal {
    dollars: u64,
    cents: u16,
}

impl Decimal {
    /// Normalization invariant: the fractional part never reaches the carry
    /// modulus.
    #[verifier::type_invariant]
    pub closed spec fn wf(self) -> bool {
        self.cents < 10000
    }

    /// The amount as a count of ten-thousandths.
    pub closed spec fn value(self) -> int {
        self.dollars * 10000 + self.cents
    }

    /// The largest value a normalized amount can represent.
    pub open spec fn max_value() -> int {
        u64::MAX * 10000 + 9999
    }

    /// The unique normalized amount worth `v` ten-thousandths (truncating the
    /// whole part into 64 bits, which leaves every in-range value unchanged).
    pub closed spec fn from_value(v: int) -> Decimal {
        Decimal { dollars: ((v / 10000) as u64), cents: ((v % 10000) as u16) }
    }

    pub fn new(dollars: u64, cents: u16) -> (r: Decimal)
        requires
            dollars + cents / 10000 <= u64::MAX,
        ensures
            r.wf(),
            r.value() == dollars * 10000 + cents,
    {
        let carry: u64 = (cents / FRAC_MODULUS) as u64;
        let d = Decimal { dollars: dollars + carry, cents: cents % FRAC_MODULUS };
        proof {
            assert(d.value() == dollars * 10000 + cents) by {
                assert(cents == 10000 * (cents / 10000) + cents % 10000);
            }
        }
        d
    }

    /// The zero amount, as a spec value.
    pub closed spec fn spec_zero() -> Decimal {
        Decimal { dollars: 0, cents: 0 }
    }

    pub fn zero() -> (r: Decimal)
        ensures
            r == Decimal::spec_zero(),
            r.wf(),
            r.value() == 0,
    {
        Decimal { dollars: 0, cents: 0 }
    }
}

impl Decimal {
    /// Exact addition. The carry out of the fractional part moves into the
    /// whole part; the caller must leave room for the sum.
    pub fn add(self, rhs: Decimal) -> (r: Decimal)
        requires
            self.value() + rhs.value() <= Decimal::max_value(),
        ensures
            r.wf(),
            r.value() == self.value() + rhs.value(),
            r == Decimal::from_value(self.value() + rhs.value()),
    {
        proof {
            use_type_invariant(&self);
            use_type_invariant(&rhs);
        }
        let cents_sum: u16 = self.cents + rhs.cents;
        let carry: u64 = (cents_sum / FRAC_MODULUS) as u64;
        let r = Decimal {
            dollars: self.dollars + rhs.dollars + carry,
            cents: cents_sum % FRAC_MODULUS,
        };
        proof {
            assert(cents_sum == 10000 * (cents_sum / 10000) + cents_sum % 10000);
            lemma_from_value_inverse(r);
        }
        r
    }

    /// Exact subtraction that never goes negative: `a.sub(b)` is the
    /// difference when `a >= b`, and otherwise reports the shortfall `b - a`
    /// inside `Err`.
    pub fn sub(self, rhs: Decimal) -> (r: Result<Decimal, Decimal>)
        ensures
            self.value() >= rhs.value() ==> r == Result::<Decimal, Decimal>::Ok(
                Decimal::from_value(self.value() - rhs.value()),
            ),
            self.value() < rhs.value() ==> r == Result::<Decimal, Decimal>::Err(
                Decimal::from_value(rhs.value() - self.value()),
            ),
            r is Ok ==> r->Ok_0.wf() && r->Ok_0.value() == self.value() - rhs.value(),
            r is Err ==> r->Err_0.wf() && r->Err_0.value() == rhs.value() - self.value(),
            r is Ok <==> self.value() >= rhs.value(),
    {
        proof {
            use_type_invariant(&self);
            use_type_invariant(&rhs);
        }
        let r: Result<Decimal, Decimal> = if self.dollars >= rhs.dollars {
            if self.cents >= rhs.cents {
                Ok(Decimal { dollars: self.dollars - rhs.dollars, cents: self.cents - rhs.cents })
            } else if self.dollars == rhs.dollars {
                Err(Decimal { dollars: 0, cents: rhs.cents - self.cents })
            } else {
                // Borrow one whole unit into the fractional part.
                Ok(
                    Decimal {
                        dollars: self.dollars - rhs.dollars - 1,
                        cents: FRAC_MODULUS + self.cents - rhs.cents,
                    },
                )
            }
        } else {
            if self.cents > rhs.cents {
                Err(
                    Decimal {
                        dollars: rhs.dollars - self.dollars - 1,
                        cents: FRAC_MODULUS + rhs.cents - self.cents,
                    },
                )
            } else {
                Err(Decimal { dollars: rhs.dollars - self.dollars, cents: rhs.cents - self.cents })
            }
        };
        proof {
            match r {
                Ok(d) => lemma_from_value_inverse(d),
                Err(d) => lemma_from_value_inverse(d),
            }
        }
        r
    }
}

/// The zero amount is normalized and worth nothing.
pub proof fn lemma_spec_zero()
    ensures
        Decimal::spec_zero().wf(),
        Decimal::spec_zero().value() == 0,
{
}

/// Every amount is nonnegative, and a normalized amount is in range.
pub broadcast proof fn lemma_value_bounds(d: Decimal)
    ensures
        #[trigger] d.value() >= 0,
        d.wf() ==> d.value() <= Decimal::max_value(),
{
}

/// A value in range is represented exactly: normalizing loses nothing.
pub proof fn lemma_from_value_value(v: int)
    requires
        0 <= v <= Decimal::max_value(),
    ensures
        Decimal::from_value(v).wf(),
        Decimal::from_value(v).value() == v,
{
    vstd::arithmetic::div_mod::lemma_fundamental_div_mod(v, 10000);
}

/// Two normalized amounts worth the same are the same amount.
pub proof fn lemma_value_injective(a: Decimal, b: Decimal)
    requires
        a.wf(),
        b.wf(),
        a.value() == b.value(),
    ensures
        a == b,
{
    lemma_from_value_inverse(a);
    lemma_from_value_inverse(b);
}

/// `add` is commutative: summing in either order yields the same amount.
pub proof fn lemma_add_commutative(a: Decimal, b: Decimal)
    ensures
        Decimal::from_value(a.value() + b.value()) == Decimal::from_value(b.value() + a.value()),
{
}

/// `add` is associative: grouping does not change the sum.
pub proof fn lemma_add_associative(a: Decimal, b: Decimal, c: Decimal)
    requires
        a.value() + b.value() + c.value() <= Decimal::max_value(),
    ensures
        Decimal::from_value(Decimal::from_value(a.value() + b.value()).value() + c.value())
            == Decimal::from_value(a.value() + Decimal::from_value(b.value() + c.value()).value()),
{
    lemma_from_value_value(a.value() + b.value());
    lemma_from_value_value(b.value() + c.value());
}

/// A normalized amount is recovered unchanged from its value.
pub proof fn lemma_from_value_inverse(d: Decimal)
    requires
        d.wf(),
    ensures
        Decimal::from_value(d.value()) == d,
{
    assert(d.value() / 10000 == d.dollars && d.value() % 10000 == d.cents) by {
        assert(d.dollars * 10000 + d.cents == 10000 * d.dollars + d.cents);
        vstd::arithmetic::div_mod::lemma_fundamental_div_mod_converse(
            d.value(),
            10000,
            d.dollars as int,
            d.cents as int,
        );
    }
}

/// Rejection of a malformed decimal string.
#[derive(Clone, Copy, Debug, PartialEq, Eq, Structural)]
pub struct ParseError;

/// ASCII digit.
pub open spec fn is_digit(b: u8) -> bool {
    48 <= b <= 57
}

/// The numeric value of one ASCII digit.
pub open spec fn digit_val(b: u8) -> int {
    b - 48
}

pub open spec fn all_digits(s: Seq<u8>) -> bool {
    forall|i: int| 0 <= i < s.len() ==> is_digit(#[trigger] s[i])
}

/// The number written by a digit string, most significant first.
pub open spec fn digits_val(s: Seq<u8>) -> int
    decreases s.len(),
{
    if s.len() == 0 {
        0
    } else {
        digits_val(s.drop_last()) * 10 + digit_val(s.last())
    }
}

pub open spec fn pow10(k: int) -> int
    decreases k,
{
    if k <= 0 {
        1
    } else {
        10 * pow10(k - 1)
    }
}

/// Index of the first `.` at or after `i`, or the length when there is none.
pub open spec fn first_dot_from(s: Seq<u8>, i: int) -> int
    decreases s.len() - i,
{
    if i >= s.len() {
        s.len() as int
    } else if s[i] == 46 {
        i
    } else {
        first_dot_from(s, i + 1)
    }
}

pub open spec fn first_dot(s: Seq<u8>) -> int {
    first_dot_from(s, 0)
}

/// The digits before the first dot (the whole text when there is no dot).
pub open spec fn whole_part(s: Seq<u8>) -> Seq<u8> {
    s.take(first_dot(s))
}

/// Everything after the first dot; empty when there is no dot.
pub open spec fn frac_part(s: Seq<u8>) -> Seq<u8> {
    if first_dot(s) == s.len() {
        Seq::empty()
    } else {
        s.skip(first_dot(s) + 1)
    }
}

/// The fractional digits that are consumed: everything past the first
/// `PRECISION` characters is ignored, never inspected.
pub open spec fn frac_digits(s: Seq<u8>) -> Seq<u8> {
    if frac_part(s).len() <= 4 {
        frac_part(s)
    } else {
        frac_part(s).take(4)
    }
}

/// A string parses when it is non-empty, its whole part is all digits and
/// fits in 64 bits, and its consumed fractional digits are digits.
pub open spec fn parse_ok(s: Seq<u8>) -> bool {
    &&& s.len() > 0
    &&& all_digits(whole_part(s))
    &&& digits_val(whole_part(s)) <= u64::MAX
    &&& all_digits(frac_digits(s))
}

/// The parsed value in ten-thousandths: missing fractional digits count as
/// trailing zeros.
pub open spec fn parse_value(s: Seq<u8>) -> int {
    digits_val(whole_part(s)) * 10000 + digits_val(frac_digits(s)) * pow10(
        4 - frac_digits(s).len(),
    )
}

/// What parsing a byte string yields.
pub open spec fn spec_parse(s: Seq<u8>) -> Option<Decimal> {
    if parse_ok(s) {
        Some(Decimal::from_value(parse_value(s)))
    } else {
        None
    }
}

/// The scan for the first dot stops at the first dot and nowhere else.
proof fn lemma_first_dot_props(s: Seq<u8>, i: int)
    requires
        0 <= i <= s.len(),
    ensures
        i <= first_dot_from(s, i) <= s.len(),
        first_dot_from(s, i) < s.len() ==> s[first_dot_from(s, i)] == 46,
        forall|j: int| i <= j < first_dot_from(s, i) ==> s[j] != 46,
    decreases s.len() - i,
{
    if i < s.len() && s[i] != 46 {
        lemma_first_dot_props(s, i + 1);
    }
}

/// A position with no dot before it and a dot (or the end) at it is the
/// first dot.
proof fn lemma_first_dot_unique(s: Seq<u8>, i: int)
    requires
        0 <= i <= s.len(),
        i < s.len() ==> s[i] == 46,
        forall|j: int| 0 <= j < i ==> s[j] != 46,
    ensures
        first_dot(s) == i,
{
    lemma_first_dot_props(s, 0);
}

/// A digit string of length `n` writes a number below `10^n`.
proof fn lemma_digits_val_bound(s: Seq<u8>)
    requires
        all_digits(s),
    ensures
        0 <= digits_val(s) < pow10(s.len() as int),
    decreases s.len(),
{
    if s.len() > 0 {
        assert(all_digits(s.drop_last()));
        lemma_digits_val_bound(s.drop_last());
    }
}

/// The small powers of ten, written out.
proof fn lemma_pow10_small()
    ensures
        pow10(0) == 1,
        pow10(1) == 10,
        pow10(2) == 100,
        pow10(3) == 1000,
        pow10(4) == 10000,
{
    assert(pow10(0) == 1);
    assert(pow10(1) == 10);
    assert(pow10(2) == 100);
    assert(pow10(3) == 1000);
    assert(pow10(4) == 10000);
}

/// Reading one more digit multiplies by ten and adds it.
proof fn lemma_digits_val_take_step(s: Seq<u8>, i: int)
    requires
        0 <= i < s.len(),
    ensures
        digits_val(s.take(i + 1)) == digits_val(s.take(i)) * 10 + digit_val(s[i]),
{
    assert(s.take(i + 1).drop_last() =~= s.take(i));
}

/// A digit string is worth at least any of its prefixes.
proof fn lemma_digits_val_prefix_mono(s: Seq<u8>, i: int)
    requires
        all_digits(s),
        0 <= i <= s.len(),
    ensures
        digits_val(s.take(i)) <= digits_val(s),
    decreases s.len() - i,
{
    if i == s.len() {
        assert(s.take(i) =~= s);
    } else {
        assert(all_digits(s.take(i))) by {
            assert(forall|j: int| 0 <= j < i ==> s.take(i)[j] == s[j]);
        }
        lemma_digits_val_take_step(s, i);
        lemma_digits_val_bound(s.take(i));
        lemma_digits_val_prefix_mono(s, i + 1);
    }
}

impl Decimal {
    /// Parse a decimal string: an optional run of whole-part digits, then
    /// optionally a dot and fractional digits, of which only the first
    /// `PRECISION` are consumed (truncation, not rounding). Missing
    /// fractional digits count as trailing zeros.
    pub fn parse(s: &str) -> (r: Result<Decimal, ParseError>)
        ensures
            r is Ok <==> parse_ok(s.spec_bytes()),
            r is Ok ==> spec_parse(s.spec_bytes()) == Some(r->Ok_0),
            r is Err ==> spec_parse(s.spec_bytes()) is None,
            r is Ok ==> r->Ok_0.wf() && r->Ok_0.value() == parse_value(s.spec_bytes()),
    {
        let b: &[u8] = s.as_bytes();
        let ghost bs = s.spec_bytes();
        let n: usize = b.len();
        if n == 0 {
            return Err(ParseError);
        }
        // Find the first dot, if any.
        let mut dot: usize = 0;
        while dot < n && b[dot] != 46
            invariant
                b@ == bs,
                bs == s.spec_bytes(),
                n == bs.len(),
                dot <= n,
                forall|j: int| 0 <= j < dot ==> bs[j] != 46,
            decreases n - dot,
        {
            dot = dot + 1;
        }
        proof {
            lemma_first_dot_unique(bs, dot as int);
        }
        let ghost whole = whole_part(bs);
        // Whole part: empty stands for zero; otherwise digits fitting in u64.
        let mut dollars: u64 = 0;
        let mut i: usize = 0;
        while i < dot
            invariant
                b@ == bs,
                bs == s.spec_bytes(),
                n == bs.len(),
                dot <= n,
                dot == first_dot(bs),
                whole == whole_part(bs),
                i <= dot,
                all_digits(whole.take(i as int)),
                dollars == digits_val(whole.take(i as int)),
            decreases dot - i,
        {
            let c = b[i];
            if c < 48 || c > 57 {
                proof {
                    assert(whole[i as int] == bs[i as int]);
                    assert(0 <= i < whole.len() && !is_digit(whole[i as int]));
                    assert(!all_digits(whole));
                }
                return Err(ParseError);
            }
            let d = (c - 48) as u64;
            proof {
                assert(whole.take(i as int) =~= whole.take(i + 1).drop_last());
                assert(whole[i as int] == bs[i as int]);
            }
            let next = match dollars.checked_mul(10) {
                Some(m) => m.checked_add(d),
                None => None,
            };
            match next {
                Some(v) => {
                    dollars = v;
                },
                None => {
                    // The whole part does not fit in 64 bits (or has a later
                    // non-digit, which also rejects the string).
                    proof {
                        if all_digits(whole) {
                            lemma_digits_val_take_step(whole, i as int);
                            lemma_digits_val_prefix_mono(whole, i + 1);
                        }
                    }
                    return Err(ParseError);
                },
            }
            proof {
                lemma_digits_val_take_step(whole, i as int);
            }
            i = i + 1;
        }
        proof {
            assert(whole.take(dot as int) =~= whole);
        }
        // Fractional part: consume at most PRECISION digits, padding with
        // zeros on the right.
        let frac_len: usize = if dot < n {
            n - dot - 1
        } else {
            0
        };
        let ghost fp = frac_part(bs);
        proof {
            assert(fp.len() == frac_len);
        }
        let mut cents: u16 = 0;
        let mut k: usize = 0;
        while k < 4
            invariant
                b@ == bs,
                bs == s.spec_bytes(),
                n == bs.len(),
                dot <= n,
                dot == first_dot(bs),
                fp == frac_part(bs),
                frac_len == fp.len(),
                dot < n ==> frac_len == n - dot - 1,
                k <= 4,
                all_digits(fp.take(min_int(k as int, fp.len() as int))),
                k <= fp.len() ==> cents == digits_val(fp.take(k as int)),
                k > fp.len() ==> cents == digits_val(fp) * pow10(k - fp.len()),
                cents < pow10(k as int),
            decreases 4 - k,
        {
            let ghost m = min_int(k as int, fp.len() as int);
            if k < frac_len {
                let c = b[dot + 1 + k];
                proof {
                    assert(fp[k as int] == bs[dot + 1 + k]);
                }
                if c < 48 || c > 57 {
                    proof {
                        assert(frac_digits(bs)[k as int] == fp[k as int]);
                        assert(0 <= k < frac_digits(bs).len() && !is_digit(
                            frac_digits(bs)[k as int],
                        ));
                        assert(!all_digits(frac_digits(bs)));
                    }
                    return Err(ParseError);
                }
                let d16: u16 = (c - 48) as u16;
                proof {
                    lemma_pow10_small();
                    lemma_digits_val_bound(fp.take(k as int));
                    lemma_digits_val_take_step(fp, k as int);
                    assert(m == k);
                    assert(min_int(k + 1, fp.len() as int) == k + 1);
                    assert(pow10(k + 1) == 10 * pow10(k as int));
                    assert(forall|j: int|
                        0 <= j < k + 1 ==> is_digit(#[trigger] fp.take(k + 1)[j]));
                    lemma_digits_val_bound(fp.take(k + 1));
                }
                cents = cents * 10 + d16;
            } else {
                proof {
                    lemma_pow10_small();
                    assert(m == fp.len() as int);
                    assert(min_int(k + 1, fp.len() as int) == m);
                    assert(pow10(k + 1) == 10 * pow10(k as int));
                    if k == fp.len() {
                        assert(fp.take(k as int) =~= fp);
                        assert(cents * 10 == digits_val(fp) * pow10(1)) by (nonlinear_arith)
                            requires
                                cents == digits_val(fp),
                                pow10(1) == 10,
                        ;
                    } else {
                        assert(pow10(k + 1 - fp.len()) == 10 * pow10(k - fp.len()));
                        assert(cents * 10 == digits_val(fp) * pow10(k + 1 - fp.len()))
                            by (nonlinear_arith)
                            requires
                                cents == digits_val(fp) * pow10(k - fp.len()),
                                pow10(k + 1 - fp.len()) == 10 * pow10(k - fp.len()),
                        ;
                    }
                }
                cents = cents * 10;
            }
            k = k + 1;
        }
        let ghost fd = frac_digits(bs);
        proof {
            lemma_pow10_small();
            assert(fd =~= fp.take(min_int(4, fp.len() as int)));
            if fp.len() >= 4 {
                assert(fd =~= fp.take(4));
                vstd::arithmetic::mul::lemma_mul_basics(digits_val(fd));
                assert(cents == digits_val(fd) * pow10(4 - fd.len()));
            } else {
                assert(fd =~= fp);
                assert(cents == digits_val(fd) * pow10(4 - fd.len()));
            }
        }
        let r = Decimal { dollars, cents };
        proof {
            lemma_from_value_inverse(r);
        }
        Ok(r)
    }
}

/// The digits of `n`, most significant first; empty for zero.
pub open spec fn digits_of(n: int) -> Seq<u8>
    decreases n,
{
    if n <= 0 {
        Seq::empty()
    } else {
        digits_of(n / 10).push((48 + n % 10) as u8)
    }
}

/// The whole-part text: the digits of `n`, or a single zero digit.
pub open spec fn whole_digits(n: int) -> Seq<u8> {
    if n == 0 {
        seq![48u8]
    } else {
        digits_of(n)
    }
}

/// The four fractional digits of `c`, zero-padded on the left.
pub open spec fn frac4_digits(c: int) -> Seq<u8> {
    seq![
        (48 + c / 1000 % 10) as u8,
        (48 + c / 100 % 10) as u8,
        (48 + c / 10 % 10) as u8,
        (48 + c % 10) as u8,
    ]
}

impl Decimal {
    /// The canonical text of an amount: whole part, a dot, and exactly four
    /// fractional digits.
    pub closed spec fn spec_display_bytes(self) -> Seq<u8> {
        whole_digits(self.dollars as int) + seq![46u8] + frac4_digits(self.cents as int)
    }

    /// Render the amount as ASCII bytes in canonical form.
    pub fn display_bytes(&self) -> (r: Vec<u8>)
        ensures
            r@ == self.spec_display_bytes(),
            all_ascii(r@),
    {
        proof {
            use_type_invariant(self);
        }
        let ghost d0 = self.dollars as int;
        let mut out: Vec<u8> = Vec::new();
        if self.dollars == 0 {
            out.push(48);
            proof {
                assert(out@ =~= whole_digits(d0));
            }
        } else {
            // Extract the whole-part digits least significant first, then
            // emit them in reverse.
            let mut rev: Vec<u8> = Vec::new();
            let mut n: u64 = self.dollars;
            while n > 0
                invariant
                    d0 == self.dollars as int,
                    digits_of(d0) == digits_of(n as int) + rev@.reverse(),
                    forall|i: int| 0 <= i < rev@.len() ==> 48 <= #[trigger] rev@[i] <= 57,
                decreases n,
            {
                let b: u8 = (n % 10) as u8 + 48;
                proof {
                    assert(rev@.push(b).reverse() =~= seq![b] + rev@.reverse());
                    assert(digits_of(n as int) == digits_of(n as int / 10).push(b));
                    assert(digits_of(n as int / 10) + rev@.push(b).reverse() =~= digits_of(
                        n as int,
                    ) + rev@.reverse());
                }
                rev.push(b);
                n = n / 10;
            }
            proof {
                assert(digits_of(0int) + rev@.reverse() =~= rev@.reverse());
            }
            let m = rev.len();
            let mut j: usize = 0;
            while j < m
                invariant
                    m == rev@.len(),
                    j <= m,
                    digits_of(d0) == rev@.reverse(),
                    d0 == self.dollars as int,
                    self.dollars != 0,
                    forall|i: int| 0 <= i < rev@.len() ==> 48 <= #[trigger] rev@[i] <= 57,
                    out@ == rev@.reverse().take(j as int),
                decreases m - j,
            {
                out.push(rev[m - 1 - j]);
                proof {
                    assert(out@ =~= rev@.reverse().take(j + 1));
                }
                j = j + 1;
            }
            proof {
                assert(rev@.reverse().take(m as int) =~= rev@.reverse());
                assert(out@ == whole_digits(d0));
            }
        }
        let ghost whole_len = out@.len();
        out.push(46);
        let c = self.cents;
        out.push((c / 1000) as u8 + 48);
        out.push((c / 100 % 10) as u8 + 48);
        out.push((c / 10 % 10) as u8 + 48);
        out.push((c % 10) as u8 + 48);
        proof {
            assert(c / 1000 % 10 == c / 1000);
            assert(out@ =~= self.spec_display_bytes());
            assert(forall|i: int|
                0 <= i < whole_digits(d0).len() ==> 48 <= #[trigger] whole_digits(d0)[i]
                    <= 57) by {
                lemma_digits_of_all_digits(d0);
            }
        }
        out
    }

    /// Render the amount as a string in canonical form.
    pub fn display(&self) -> (r: String)
        ensures
            r@ == self.spec_display_bytes().map_values(|b: u8| b as char),
    {
        let bytes = self.display_bytes();
        ascii_string(bytes)
    }
}

/// Every byte is printable ASCII.
pub open spec fn all_ascii(s: Seq<u8>) -> bool {
    forall|i: int| 0 <= i < s.len() ==> #[trigger] s[i] < 128
}

/// Relies on `String::from_utf8`: ASCII bytes are valid UTF-8 and decode to
/// exactly those characters.
#[verifier::external_body]
fn ascii_string(v: Vec<u8>) -> (r: String)
    requires
        all_ascii(v@),
    ensures
        r@ == v@.map_values(|b: u8| b as char),
{
    String::from_utf8(v).unwrap()
}

/// The digits that `digits_of` produces are digits.
proof fn lemma_digits_of_all_digits(n: int)
    ensures
        all_digits(digits_of(n)),
        forall|i: int|
            0 <= i < digits_of(n).len() ==> 48 <= #[trigger] digits_of(n)[i] <= 57,
    decreases n,
{
    if n > 0 {
        lemma_digits_of_all_digits(n / 10);
        assert(forall|i: int|
            0 <= i < digits_of(n / 10).len() ==> digits_of(n)[i] == #[trigger] digits_of(
                n / 10,
            )[i]);
    }
}

/// Writing a number and reading it back is the identity.
proof fn lemma_digits_of_val(n: int)
    requires
        n >= 0,
    ensures
        digits_val(digits_of(n)) == n,
    decreases n,
{
    if n > 0 {
        lemma_digits_of_val(n / 10);
        assert(digits_of(n).drop_last() =~= digits_of(n / 10));
    }
}

/// Parsing the canonical text of an amount yields that amount back: display
/// is a right inverse of parse for every representable value.
#[verifier::rlimit(60)]
pub proof fn lemma_parse_display_round_trip(x: Decimal)
    requires
        x.wf(),
    ensures
        spec_parse(x.spec_display_bytes()) == Some(x),
{
    let d0 = x.dollars as int;
    let c = x.cents as int;
    let w = whole_digits(d0);
    let f4 = frac4_digits(c);
    let s = x.spec_display_bytes();
    lemma_pow10_small();
    lemma_digits_of_all_digits(d0);
    // The whole part is all digits, so the first dot is the separator.
    assert(forall|i: int| 0 <= i < w.len() ==> 48 <= #[trigger] w[i] <= 57);
    assert(w.len() > 0) by {
        if d0 > 0 {
            assert(digits_of(d0) == digits_of(d0 / 10).push((48 + d0 % 10) as u8));
        }
    }
    assert(s[w.len() as int] == 46);
    assert(forall|j: int| 0 <= j < w.len() ==> s[j] == #[trigger] w[j]);
    lemma_first_dot_unique(s, w.len() as int);
    assert(whole_part(s) =~= w);
    // The whole part reads back as the whole units.
    assert(digits_val(w) == d0) by {
        lemma_digits_of_val(d0);
        if d0 == 0 {
            assert(w =~= seq![48u8]);
            assert(w.drop_last() =~= Seq::<u8>::empty());
        }
    }
    // The fractional part is the four padded digits.
    assert(frac_part(s) =~= f4);
    assert(frac_digits(s) == f4);
    assert(all_digits(f4));
    // The four digits read back as the fractional units.
    assert(digits_val(f4) == c) by {
        let t3 = f4.drop_last();
        let t2 = t3.drop_last();
        let t1 = t2.drop_last();
        assert(t1.drop_last() =~= Seq::<u8>::empty());
        assert(digits_val(Seq::<u8>::empty()) == 0);
        assert(t1.len() == 1 && t1.last() == (48 + c / 1000 % 10) as u8);
        assert(t2.len() == 2 && t2.last() == (48 + c / 100 % 10) as u8);
        assert(t3.len() == 3 && t3.last() == (48 + c / 10 % 10) as u8);
        assert(f4.len() == 4 && f4.last() == (48 + c % 10) as u8);
        assert(digits_val(t1) == digit_val(t1.last()));
        assert(digits_val(t2) == digits_val(t1) * 10 + digit_val(t2.last()));
        assert(digits_val(t3) == digits_val(t2) * 10 + digit_val(t3.last()));
        assert(digits_val(f4) == digits_val(t3) * 10 + digit_val(f4.last()));
        assert(((c / 1000 % 10 * 10 + c / 100 % 10) * 10 + c / 10 % 10) * 10 + c % 10 == c);
    }
    assert(parse_ok(s));
    assert(parse_value(s) == d0 * 10000 + c) by {
        vstd::arithmetic::mul::lemma_mul_basics(digits_val(f4));
    }
    lemma_from_value_inverse(x);
}

/// The smaller of two integers.
pub open spec fn min_int(a: int, b: int) -> int {
    if a <= b {
        a
    } else {
        b
    }
}

impl Default for Decimal {
    fn default() -> (r: Decimal)
        ensures
            r.wf(),
            r.value() == 0,
    {
        Decimal { dollars: 0, cents: 0 }
    }
}

} // verus!
