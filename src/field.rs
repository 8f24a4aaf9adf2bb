//! The 32-bit and 128-bit binary tower fields.
use vstd::prelude::*;
use crate::tower::{
    fits, inv_at, lemma_inv_fits, lemma_mul_alpha_fits, lemma_mul_fits, lemma_mul_one, mul_alpha_at,
    mul_at, tower_inv, tower_mul, tower_mul_alpha,
};

verus! {

/// Errors reported by field and packed-field accessors.
#[derive(Debug, Clone, Copy, PartialEq, Eq, Structural)]
pub enum FieldError {
    /// An index at or past `max` was used.
    IndexOutOfRange { index: usize, max: usize },
    /// A basis index or a number of base elements exceeds the extension degree.
    ExtensionDegreeMismatch,
}

/// Product in the 32-bit tower field (level 5).
pub open spec fn mul32(a: u32, b: u32) -> u32 {
    tower_mul(5, a as u128, b as u128) as u32
}

/// Inverse in the 32-bit tower field, zero sent to zero.
pub open spec fn inv32(a: u32) -> u32 {
    tower_inv(5, a as u128) as u32
}

/// Product in the 128-bit tower field (level 7).
pub open spec fn mul128(a: u128, b: u128) -> u128 {
    tower_mul(7, a, b)
}

/// Inverse in the 128-bit tower field, zero sent to zero.
pub open spec fn inv128(a: u128) -> u128 {
    tower_inv(7, a)
}

/// The bit patterns of a sequence of 32-bit tower elements.
pub open spec fn vals32(s: Seq<BinaryField32b>) -> Seq<u32> {
    s.map_values(|x: BinaryField32b| x.0)
}

/// The bit patterns of a sequence of 128-bit tower elements.
pub open spec fn vals128(s: Seq<BinaryField128b>) -> Seq<u128> {
    s.map_values(|x: BinaryField128b| x.0)
}

pub proof fn lemma_vals32_push(s: Seq<BinaryField32b>, x: BinaryField32b)
    ensures
        vals32(s.push(x)) == vals32(s).push(x.0),
{
    assert(vals32(s.push(x)) =~= vals32(s).push(x.0));
}

/// An element of the 32-bit tower field.
#[derive(Debug, Clone, Copy, PartialEq, Eq, Structural)]
pub struct BinaryField32b(pub u32);

/// An element of the 128-bit tower field.
#[derive(Debug, Clone, Copy, PartialEq, Eq, Structural)]
pub struct BinaryField128b(pub u128);

proof fn lemma_u32_fits(a: u32)
    ensures
        fits(5, a as u128),
{
    assert((a as u128) >> 32u128 == 0) by (bit_vector);
}

proof fn lemma_fits_u32(a: u128)
    requires
        fits(5, a),
    ensures
        (a as u32) as u128 == a,
{
    assert(a >> 32u128 == 0 ==> (a as u32) as u128 == a) by (bit_vector);
}

impl BinaryField32b {
    pub fn new(value: u32) -> (r: Self)
        ensures
            r.0 == value,
    {
        BinaryField32b(value)
    }

    pub fn val(&self) -> (r: u32)
        ensures
            r == self.0,
    {
        self.0
    }

    pub fn zero() -> (r: Self)
        ensures
            r.0 == 0,
    {
        BinaryField32b(0)
    }

    pub fn one() -> (r: Self)
        ensures
            r.0 == 1,
    {
        BinaryField32b(1)
    }

    /// Field addition: bitwise exclusive or.
    pub fn add(self, rhs: Self) -> (r: Self)
        ensures
            r.0 == self.0 ^ rhs.0,
    {
        BinaryField32b(self.0 ^ rhs.0)
    }

    /// Field subtraction, equal to addition in characteristic two.
    pub fn sub(self, rhs: Self) -> (r: Self)
        ensures
            r.0 == self.0 ^ rhs.0,
    {
        BinaryField32b(self.0 ^ rhs.0)
    }

    pub fn mul(self, rhs: Self) -> (r: Self)
        ensures
            r.0 == mul32(self.0, rhs.0),
            r.0 as u128 == tower_mul(5, self.0 as u128, rhs.0 as u128),
    {
        let p = mul_at(5, self.0 as u128, rhs.0 as u128);
        proof {
            lemma_mul_fits(5, self.0 as u128, rhs.0 as u128);
            lemma_fits_u32(p);
        }
        BinaryField32b(p as u32)
    }

    pub fn square(self) -> (r: Self)
        ensures
            r.0 == mul32(self.0, self.0),
    {
        self.mul(self)
    }

    pub fn mul_alpha(self) -> (r: Self)
        ensures
            r.0 as u128 == tower_mul_alpha(5, self.0 as u128),
    {
        let p = mul_alpha_at(5, self.0 as u128);
        proof {
            lemma_u32_fits(self.0);
            lemma_mul_alpha_fits(5, self.0 as u128);
            lemma_fits_u32(p);
        }
        BinaryField32b(p as u32)
    }

    /// The inverse, or zero for zero.
    pub fn invert_or_zero(self) -> (r: Self)
        ensures
            r.0 == inv32(self.0),
            r.0 as u128 == tower_inv(5, self.0 as u128),
    {
        let p = inv_at(5, self.0 as u128);
        proof {
            lemma_u32_fits(self.0);
            lemma_inv_fits(5, self.0 as u128);
            lemma_fits_u32(p);
        }
        BinaryField32b(p as u32)
    }

    /// The inverse; `None` for zero.
    pub fn invert(self) -> (r: Option<Self>)
        ensures
            self.0 == 0 <==> r.is_none(),
            r.is_some() ==> r.unwrap().0 == inv32(self.0),
    {
        if self.0 == 0 {
            None
        } else {
            Some(self.invert_or_zero())
        }
    }

    /// The `i`-th basis element over GF(2): the bit pattern `1 << i`.
    pub fn basis(i: usize) -> (r: Result<Self, FieldError>)
        ensures
            i < 32 ==> r == Ok::<Self, FieldError>(BinaryField32b(1u32 << i)),
            i >= 32 ==> r == Err::<Self, FieldError>(FieldError::ExtensionDegreeMismatch),
    {
        if i >= 32 {
            Err(FieldError::ExtensionDegreeMismatch)
        } else {
            Ok(BinaryField32b(1u32 << i))
        }
    }
}

impl BinaryField128b {
    pub fn new(value: u128) -> (r: Self)
        ensures
            r.0 == value,
    {
        BinaryField128b(value)
    }

    pub fn val(&self) -> (r: u128)
        ensures
            r == self.0,
    {
        self.0
    }

    pub fn zero() -> (r: Self)
        ensures
            r.0 == 0,
    {
        BinaryField128b(0)
    }

    pub fn one() -> (r: Self)
        ensures
            r.0 == 1,
    {
        BinaryField128b(1)
    }

    /// The subfield embedding of a 32-bit tower element.
    pub fn from_b32(v: BinaryField32b) -> (r: Self)
        ensures
            r.0 == v.0 as u128,
    {
        BinaryField128b(v.0 as u128)
    }

    /// Field addition: bitwise exclusive or.
    pub fn add(self, rhs: Self) -> (r: Self)
        ensures
            r.0 == self.0 ^ rhs.0,
    {
        BinaryField128b(self.0 ^ rhs.0)
    }

    /// Field subtraction, equal to addition in characteristic two.
    pub fn sub(self, rhs: Self) -> (r: Self)
        ensures
            r.0 == self.0 ^ rhs.0,
    {
        BinaryField128b(self.0 ^ rhs.0)
    }

    pub fn mul(self, rhs: Self) -> (r: Self)
        ensures
            r.0 == mul128(self.0, rhs.0),
    {
        BinaryField128b(mul_at(7, self.0, rhs.0))
    }

    /// Product with an element of the 32-bit subfield.
    pub fn mul_b32(self, rhs: BinaryField32b) -> (r: Self)
        ensures
            r.0 == mul128(self.0, rhs.0 as u128),
    {
        BinaryField128b(mul_at(7, self.0, rhs.0 as u128))
    }

    pub fn square(self) -> (r: Self)
        ensures
            r.0 == mul128(self.0, self.0),
    {
        self.mul(self)
    }

    pub fn mul_alpha(self) -> (r: Self)
        ensures
            r.0 == tower_mul_alpha(7, self.0),
    {
        BinaryField128b(mul_alpha_at(7, self.0))
    }

    /// The inverse, or zero for zero.
    pub fn invert_or_zero(self) -> (r: Self)
        ensures
            r.0 == inv128(self.0),
    {
        BinaryField128b(inv_at(7, self.0))
    }

    /// The inverse; `None` for zero.
    pub fn invert(self) -> (r: Option<Self>)
        ensures
            self.0 == 0 <==> r.is_none(),
            r.is_some() ==> r.unwrap().0 == inv128(self.0),
    {
        if self.0 == 0 {
            None
        } else {
            Some(self.invert_or_zero())
        }
    }

    /// The `i`-th basis element over GF(2): the bit pattern `1 << i`.
    pub fn basis(i: usize) -> (r: Result<Self, FieldError>)
        ensures
            i < 128 ==> r == Ok::<Self, FieldError>(BinaryField128b(1u128 << i)),
            i >= 128 ==> r == Err::<Self, FieldError>(FieldError::ExtensionDegreeMismatch),
    {
        if i >= 128 {
            Err(FieldError::ExtensionDegreeMismatch)
        } else {
            Ok(BinaryField128b(1u128 << i))
        }
    }
}

/// Field laws of the 32-bit tower field: `x + x == 0`, `x * 1 == x`,
/// `invert_or_zero(0) == 0` and `square(x) == x * x`.
pub proof fn lemma_field32_laws(x: u32)
    ensures
        x ^ x == 0,
        mul32(x, 1) == x,
        inv32(0) == 0,
{
    assert(x ^ x == 0) by (bit_vector);
    lemma_u32_fits(x);
    lemma_mul_one(5, x as u128);
    crate::tower::lemma_inv_zero(5);
}

/// Field laws of the 128-bit tower field: `x + x == 0`, `x * 1 == x` and
/// `invert_or_zero(0) == 0`.
pub proof fn lemma_field128_laws(x: u128)
    ensures
        x ^ x == 0,
        mul128(x, 1) == x,
        inv128(0) == 0,
{
    assert(x ^ x == 0) by (bit_vector);
    lemma_mul_one(7, x);
    crate::tower::lemma_inv_zero(7);
}

} // verus!
