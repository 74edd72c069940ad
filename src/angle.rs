use vstd::prelude::*;

verus! {

/// Angle units in one degree: angles are held as nano-degrees.
pub const DEGREE: i64 = 1_000_000_000;

/// Angle units in one full turn.
pub const CIRCLE: i64 = 360_000_000_000;

/// Angle units in a right angle.
pub const QUARTER: i64 = 90_000_000_000;

/// Angle units in a half turn.
pub const HALF: i64 = 180_000_000_000;

/// The angle `a` brought into `[0, CIRCLE)`.
pub open spec fn norm(a: int) -> int {
    a % (CIRCLE as int)
}

/// Brings an angle into `[0, 360)` degrees, for negative angles too.
pub fn normalize(angle: i64) -> (r: i64)
    ensures
        r as int == norm(angle as int),
        0 <= r < CIRCLE,
{
    let r: i64 = if angle >= 0 {
        angle % CIRCLE
    } else {
        let m: i64 = (-(angle as i128) % (CIRCLE as i128)) as i64;
        if m == 0 { 0 } else { CIRCLE - m }
    };
    proof {
        assert(r as int == norm(angle as int)) by {
            if angle < 0 {
                let n: int = -(angle as int);
                let q: int = n / (CIRCLE as int);
                let m: int = n % (CIRCLE as int);
                assert(n == q * CIRCLE + m);
                assert(angle == (-q - 1) * CIRCLE + (CIRCLE - m));
                if m == 0 {
                    assert(angle == (-q) * CIRCLE + 0);
                    vstd::arithmetic::div_mod::lemma_fundamental_div_mod_converse(
                        angle as int, CIRCLE as int, -q, 0);
                } else {
                    vstd::arithmetic::div_mod::lemma_fundamental_div_mod_converse(
                        angle as int, CIRCLE as int, -q - 1, CIRCLE - m);
                }
            }
        }
    }
    r
}

/// A normalized angle lies in `[0, CIRCLE)`.
pub proof fn lemma_norm_range(a: int)
    ensures
        0 <= norm(a) < CIRCLE,
{
    vstd::arithmetic::div_mod::lemma_mod_division_less_than_divisor(a, CIRCLE as int);
}

} // verus!
