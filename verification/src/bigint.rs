//! The two arbitrary-precision operations taken from the `num_bigint` crate:
//! Euclidean division (used by `reduce` and the equality checks) and the
//! modular-inverse witness (used by the division and inversion gadgets).
//! Values cross the boundary as little-endian base-`2^32` digit vectors,
//! the same radix the limb model uses.

use vstd::prelude::*;
use crate::arith::digits_val;

verus! {

/// Quotient and remainder of arbitrary-precision naturals.
///
/// Relies on `num_bigint::BigUint`: `new` and `to_u32_digits` convert between
/// little-endian base-`2^32` digit vectors and big integers, and `/` / `%`
/// are Euclidean division and remainder of unsigned integers.
#[verifier::external_body]
pub(crate) fn big_divmod(x: &Vec<u32>, m: &Vec<u32>) -> (r: (Vec<u32>, Vec<u32>))
    requires
        digits_val(m@) >= 1,
    ensures
        digits_val(x@) == digits_val(r.0@) * digits_val(m@) + digits_val(r.1@),
        digits_val(r.1@) < digits_val(m@),
{
    let xb = num_bigint::BigUint::new(x.clone());
    let mb = num_bigint::BigUint::new(m.clone());
    let q = &xb / &mb;
    let rem = &xb % &mb;
    (q.to_u32_digits(), rem.to_u32_digits())
}

/// Modular inverse, used only as an off-circuit witness.
///
/// Relies on `num_bigint::BigUint::modinv`: when the result is present it is
/// the value in `[0, modulus)` whose product with the argument is congruent
/// to 1 modulo the modulus, and `None` is returned exactly when no inverse
/// exists, so on `None` no value below the modulus clears the product.
#[verifier::external_body]
pub(crate) fn big_modinv(x: &Vec<u32>, m: &Vec<u32>) -> (r: Option<Vec<u32>>)
    requires
        digits_val(m@) >= 2,
    ensures
        r matches Some(v) ==> digits_val(v@) < digits_val(m@) && (digits_val(v@) * digits_val(x@))
            % digits_val(m@) == 1,
        r is None ==> forall|v: nat|
            v < digits_val(m@) ==> #[trigger] ((v * digits_val(x@)) % digits_val(m@)) != 1,
{
    let xb = num_bigint::BigUint::new(x.clone());
    let mb = num_bigint::BigUint::new(m.clone());
    xb.modinv(&mb).map(|v| v.to_u32_digits())
}

} // verus!
