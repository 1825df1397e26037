//! Floating-point work is not done here. A constant of the floating-point
//! type is held as its IEEE-754 bit pattern, and every operation on such
//! patterns that needs floating-point arithmetic is looked up in a table of
//! results that the caller supplies. When a result is missing, the library
//! stops and names the operation it needs; the caller computes it, records
//! it in the table and runs the library again.

use vstd::prelude::*;
use vstd::arithmetic::power2::{lemma2_to64, lemma_pow2_pos, lemma_pow2_strictly_increases, pow2};
use vstd::bits::{lemma_u64_shl_is_mul, lemma_u64_shr_is_div};
use crate::error::{ParseError, ParseErrorView};
use crate::text::{bytes_eq, copy_bytes};

verus! {

/// An operation on 64-bit floating-point numbers. Numbers are given and
/// returned as bit patterns.
#[derive(Debug)]
pub enum FloatOp {
    /// The number that the text of a floating-point literal denotes.
    Parse(Vec<u8>),
    /// The number nearest to an integer.
    FromInt(i64),
    Add(u64, u64),
    Sub(u64, u64),
    Mul(u64, u64),
    Div(u64, u64),
}

/// The model of a [`FloatOp`].
pub enum FloatOpView {
    Parse(Seq<u8>),
    FromInt(i64),
    Add(u64, u64),
    Sub(u64, u64),
    Mul(u64, u64),
    Div(u64, u64),
}

impl View for FloatOp {
    type V = FloatOpView;

    open spec fn view(&self) -> FloatOpView {
        match *self {
            FloatOp::Parse(text) => FloatOpView::Parse(text@),
            FloatOp::FromInt(v) => FloatOpView::FromInt(v),
            FloatOp::Add(a, b) => FloatOpView::Add(a, b),
            FloatOp::Sub(a, b) => FloatOpView::Sub(a, b),
            FloatOp::Mul(a, b) => FloatOpView::Mul(a, b),
            FloatOp::Div(a, b) => FloatOpView::Div(a, b),
        }
    }
}

impl Clone for FloatOp {
    fn clone(&self) -> (r: Self)
        ensures
            r@ == self@,
    {
        match self {
            FloatOp::Parse(text) => FloatOp::Parse(copy_bytes(text.as_slice())),
            FloatOp::FromInt(v) => FloatOp::FromInt(*v),
            FloatOp::Add(a, b) => FloatOp::Add(*a, *b),
            FloatOp::Sub(a, b) => FloatOp::Sub(*a, *b),
            FloatOp::Mul(a, b) => FloatOp::Mul(*a, *b),
            FloatOp::Div(a, b) => FloatOp::Div(*a, *b),
        }
    }
}

impl FloatOp {
    /// Whether two operations are the same operation on the same operands.
    pub fn same(&self, other: &FloatOp) -> (r: bool)
        ensures
            r == (self@ == other@),
    {
        match (self, other) {
            (FloatOp::Parse(a), FloatOp::Parse(b)) => bytes_eq(a.as_slice(), b.as_slice()),
            (FloatOp::FromInt(a), FloatOp::FromInt(b)) => *a == *b,
            (FloatOp::Add(a, b), FloatOp::Add(c, d)) => *a == *c && *b == *d,
            (FloatOp::Sub(a, b), FloatOp::Sub(c, d)) => *a == *c && *b == *d,
            (FloatOp::Mul(a, b), FloatOp::Mul(c, d)) => *a == *c && *b == *d,
            (FloatOp::Div(a, b), FloatOp::Div(c, d)) => *a == *c && *b == *d,
            _ => false,
        }
    }
}

/// Why the library stopped before it was done.
#[derive(Debug)]
pub enum Stop {
    /// The result of this operation is needed and not in the table.
    Float(FloatOp),
    /// The source is in error.
    Error(ParseError),
}

/// The model of a [`Stop`].
pub enum StopView {
    Float(FloatOpView),
    Error(ParseErrorView),
}

impl View for Stop {
    type V = StopView;

    open spec fn view(&self) -> StopView {
        match *self {
            Stop::Float(op) => StopView::Float(op@),
            Stop::Error(e) => StopView::Error(e@),
        }
    }
}

/// Whether what a function returned is what its model says: the same
/// value, or the same reason to stop.
pub open spec fn agrees<T: View>(r: Result<T, Stop>, model: Result<T::V, StopView>) -> bool {
    match model {
        Ok(v) => r is Ok && r->Ok_0@ == v,
        Err(s) => r is Err && r->Err_0@ == s,
    }
}

/// The results that the first `n` entries of a table give: for each
/// operation the result of the earliest entry that holds it.
pub open spec fn results_from(entries: Seq<(FloatOp, u64)>, i: int) -> Map<FloatOpView, u64>
    decreases entries.len() - i,
{
    if 0 <= i < entries.len() {
        results_from(entries, i + 1).insert(entries[i].0@, entries[i].1)
    } else {
        Map::empty()
    }
}

/// The result of `op` by the table `table`, or the request to supply it.
pub open spec fn ask(table: Map<FloatOpView, u64>, op: FloatOpView) -> Result<u64, StopView> {
    if table.dom().contains(op) {
        Ok(table[op])
    } else {
        Err(StopView::Float(op))
    }
}

/// A table of known results of floating-point operations.
#[derive(Debug)]
pub struct FloatTable {
    pub entries: Vec<(FloatOp, u64)>,
}

impl View for FloatTable {
    type V = Map<FloatOpView, u64>;

    open spec fn view(&self) -> Map<FloatOpView, u64> {
        results_from(self.entries@, 0)
    }
}

/// An entry added at the end of a table gives a result only for an
/// operation that had none.
proof fn lemma_results_push(entries: Seq<(FloatOp, u64)>, entry: (FloatOp, u64), i: int)
    requires
        0 <= i <= entries.len(),
    ensures
        results_from(entries.push(entry), i) == (if results_from(entries, i).dom().contains(
            entry.0@,
        ) {
            results_from(entries, i)
        } else {
            results_from(entries, i).insert(entry.0@, entry.1)
        }),
    decreases entries.len() - i,
{
    let longer = entries.push(entry);
    if i < entries.len() {
        lemma_results_push(entries, entry, i + 1);
    } else {
        assert(results_from(longer, i + 1) =~= Map::empty());
    }
}

impl FloatTable {
    /// The table without any result.
    pub fn new() -> (r: FloatTable)
        ensures
            r@ == Map::<FloatOpView, u64>::empty(),
    {
        FloatTable { entries: Vec::new() }
    }

    /// The result recorded for `op`, if there is one.
    pub fn get(&self, op: &FloatOp) -> (r: Option<u64>)
        ensures
            r == (if self@.dom().contains(op@) {
                Some(self@[op@])
            } else {
                None
            }),
    {
        let mut i: usize = 0;
        while i < self.entries.len()
            invariant
                i <= self.entries.len(),
                self@.dom().contains(op@) == results_from(self.entries@, i as int).dom().contains(
                    op@,
                ),
                self@.dom().contains(op@) ==> self@[op@] == results_from(
                    self.entries@,
                    i as int,
                )[op@],
            decreases self.entries.len() - i,
        {
            if self.entries[i].0.same(op) {
                return Some(self.entries[i].1);
            }
            i += 1;
        }
        None
    }

    /// Records that `op` gives `value`. An operation that already has a
    /// result keeps it.
    pub fn record(&mut self, op: FloatOp, value: u64)
        ensures
            final(self)@ == (if old(self)@.dom().contains(op@) {
                old(self)@
            } else {
                old(self)@.insert(op@, value)
            }),
    {
        proof {
            lemma_results_push(self.entries@, (op, value), 0);
        }
        self.entries.push((op, value));
    }

    /// The result of `op`, or the request to supply it.
    pub fn ask(&self, op: FloatOp) -> (r: Result<u64, Stop>)
        ensures
            agrees(r, ask(self@, op@)),
    {
        match self.get(&op) {
            Some(v) => Ok(v),
            None => Err(Stop::Float(op)),
        }
    }
}

/// Whether a bit pattern is one of the two zeros, `+0.0` or `-0.0`.
pub open spec fn is_zero_bits(bits: u64) -> bool {
    bits == 0 || bits == 0x8000_0000_0000_0000
}

/// Whether `bits` is one of the two zeros.
pub fn is_zero(bits: u64) -> (r: bool)
    ensures
        r == is_zero_bits(bits),
{
    bits == 0 || bits == 0x8000_0000_0000_0000
}

/// Whether the sign bit of a bit pattern is set.
pub open spec fn float_negative(bits: u64) -> bool {
    bits >= 0x8000_0000_0000_0000
}

/// The exponent field of a bit pattern: the eleven bits below the sign.
pub open spec fn float_exponent(bits: u64) -> nat {
    ((bits as nat) / 0x10_0000_0000_0000) % 0x800
}

/// The fraction field of a bit pattern: the lowest 52 bits.
pub open spec fn float_fraction(bits: u64) -> nat {
    (bits as nat) % 0x10_0000_0000_0000
}

/// The integer that a floating-point number becomes when its fraction is
/// dropped.
///
/// A pattern with an exponent field `e` from 1 to 2046 stands for the
/// number `s * 2^(e - 1075)` with the significand `s = 2^52 + fraction`,
/// with the sign. Its integer part is `s * 2^(e - 1075)` where `e` is at
/// least 1075, and the whole part of `s / 2^(1075 - e)` below that, which
/// is zero for every `e` below 1023. From `e = 1086` on the magnitude is
/// 2^63 or more, infinity included, and the result is the nearest bound of
/// the 64-bit range. Not-a-number gives zero, and so do the numbers with
/// the exponent field 0, which are all below one.
pub open spec fn float_to_int(bits: u64) -> i64 {
    let exponent = float_exponent(bits);
    let significand = 0x10_0000_0000_0000 + float_fraction(bits);
    if exponent == 0x7ff && float_fraction(bits) != 0 {
        0
    } else if exponent < 1023 {
        0
    } else if exponent >= 1086 {
        if float_negative(bits) {
            i64::MIN
        } else {
            i64::MAX
        }
    } else {
        let magnitude = if exponent >= 1075 {
            significand * pow2((exponent - 1075) as nat)
        } else {
            significand / pow2((1075 - exponent) as nat)
        };
        if float_negative(bits) {
            (-(magnitude as int)) as i64
        } else {
            magnitude as i64
        }
    }
}

/// Drops the fraction of the floating-point number with the bit pattern
/// `bits`.
pub fn truncate(bits: u64) -> (r: i64)
    ensures
        r == float_to_int(bits),
{
    let negative: bool = (bits >> 63) == 1;
    let exponent: u64 = (bits >> 52) & 0x7ff;
    let fraction: u64 = bits & 0xf_ffff_ffff_ffff;
    let significand: u64 = fraction | 0x10_0000_0000_0000;
    proof {
        assert(((bits >> 63) == 1) == (bits >= 0x8000_0000_0000_0000)) by (bit_vector);
        assert(((bits >> 52) & 0x7ff) == (bits / 0x10_0000_0000_0000) % 0x800) by (bit_vector);
        assert((bits & 0xf_ffff_ffff_ffff) == bits % 0x10_0000_0000_0000) by (bit_vector);
        assert(((bits & 0xf_ffff_ffff_ffff) | 0x10_0000_0000_0000) == (bits & 0xf_ffff_ffff_ffff)
            + 0x10_0000_0000_0000) by (bit_vector);
        assert(exponent == float_exponent(bits));
        assert(fraction == float_fraction(bits));
        assert(significand == 0x10_0000_0000_0000 + float_fraction(bits));
    }
    if exponent == 0x7ff && fraction != 0 {
        0
    } else if exponent < 1023 {
        0
    } else if exponent >= 1086 {
        if negative {
            i64::MIN
        } else {
            i64::MAX
        }
    } else {
        let magnitude: u64 = if exponent >= 1075 {
            let up: u64 = exponent - 1075;
            proof {
                lemma2_to64();
                if up < 10 {
                    lemma_pow2_strictly_increases(up as nat, 10);
                }
                assert(significand * pow2(up as nat) <= 0x1f_ffff_ffff_ffff * 1024) by (nonlinear_arith)
                    requires
                        significand <= 0x1f_ffff_ffff_ffff,
                        pow2(up as nat) <= 1024,
                ;
                lemma_u64_shl_is_mul(significand, up);
            }
            significand << up
        } else {
            let down: u64 = 1075 - exponent;
            proof {
                lemma_pow2_pos(down as nat);
                lemma_u64_shr_is_div(significand, down);
                assert(significand as nat / pow2(down as nat) <= significand) by (nonlinear_arith)
                    requires
                        pow2(down as nat) >= 1,
                ;
            }
            significand >> down
        };
        if negative {
            -(magnitude as i64)
        } else {
            magnitude as i64
        }
    }
}

/// The magnitude of an integer.
pub open spec fn magnitude(x: i64) -> nat {
    if x < 0 {
        (-(x as int)) as nat
    } else {
        x as nat
    }
}

/// The quotient of two integers, rounded towards zero: the quotient of
/// the magnitudes, negative when the signs differ. Division by zero gives
/// zero, and the one quotient that does not fit wraps around.
pub open spec fn quotient(l: i64, r: i64) -> i64 {
    if r == 0 {
        0
    } else if l == i64::MIN && r == -1 {
        i64::MIN
    } else if (l < 0) != (r < 0) {
        (-((magnitude(l) / magnitude(r)) as int)) as i64
    } else {
        (magnitude(l) / magnitude(r)) as i64
    }
}

fn magnitude_of(x: i64) -> (m: u64)
    ensures
        m == magnitude(x),
{
    if x < 0 {
        ((-(x + 1)) as u64) + 1
    } else {
        x as u64
    }
}

/// Divides, rounding towards zero; see [`quotient`].
pub fn divide(l: i64, r: i64) -> (q: i64)
    ensures
        q == quotient(l, r),
{
    if r == 0 {
        0
    } else if l == i64::MIN && r == -1 {
        i64::MIN
    } else {
        let a: u64 = magnitude_of(l);
        let b: u64 = magnitude_of(r);
        let m: u64 = a / b;
        proof {
            vstd::arithmetic::div_mod::lemma_div_is_ordered_by_denominator(a as int, 1, b as int);
            if b >= 2 {
                vstd::arithmetic::div_mod::lemma_div_is_ordered_by_denominator(
                    a as int,
                    2,
                    b as int,
                );
            }
        }
        if (l < 0) != (r < 0) {
            if m == 0x8000_0000_0000_0000 {
                i64::MIN
            } else {
                -(m as i64)
            }
        } else {
            m as i64
        }
    }
}

} // verus!
