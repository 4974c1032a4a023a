//! The `bit32` library: bitwise operations on unsigned 32-bit integers.
//!
//! Every argument is an unsigned 32-bit integer; a Lua integer is reduced
//! modulo `2^32` (so `-1` becomes `0xFFFFFFFF`).  Results are always in
//! `[0, 2^32 - 1]`.  Negative displacements reverse the direction of the
//! shifts, and rotations take their displacement modulo 32.
use vstd::prelude::*;
use vstd::arithmetic::power2::*;
use vstd::arithmetic::div_mod::*;
use vstd::arithmetic::mul::*;
use vstd::bits::*;
use crate::error::{LibError, arg_error, is_arg_error};
use crate::env::{GlobalEnv, GlobalView, Module, install_module, installed, law_fresh_table_keys, module_functions, table_keys, table_of};

verus! {

/// `2^32`.
pub open spec fn two32() -> int {
    0x1_0000_0000
}

/// `x` shifted left by `n >= 0` bits, discarding bits past position 31.
pub open spec fn shl_spec(x: u32, n: int) -> int {
    (x * pow2(n as nat)) % two32()
}

/// `x` shifted right by `n >= 0` bits.
pub open spec fn shr_spec(x: u32, n: int) -> int {
    x as int / pow2(n as nat) as int
}

/// Logical left shift; a negative displacement shifts right.
pub open spec fn lshift_spec(x: u32, disp: int) -> int {
    if disp >= 0 {
        shl_spec(x, disp)
    } else {
        shr_spec(x, -disp)
    }
}

/// Logical right shift; a negative displacement shifts left.
pub open spec fn rshift_spec(x: u32, disp: int) -> int {
    if disp >= 0 {
        shr_spec(x, disp)
    } else {
        shl_spec(x, -disp)
    }
}

/// The two's-complement value of the 32 bits of `x`.
pub open spec fn signed32(x: u32) -> int {
    if x < 0x8000_0000 {
        x as int
    } else {
        x - two32()
    }
}

/// Arithmetic right shift: the signed value of `x` divided by `2^disp`
/// (rounded down), taken modulo `2^32`; a negative displacement shifts
/// left.
pub open spec fn arshift_spec(x: u32, disp: int) -> int {
    if disp >= 0 {
        (signed32(x) / pow2(disp as nat) as int) % two32()
    } else {
        shl_spec(x, -disp)
    }
}

/// Rotation left by `d` bits, `0 <= d < 32`.
pub open spec fn rotl_spec(x: u32, d: int) -> int {
    shl_spec(x, d) + shr_spec(x, 32 - d)
}

/// Rotation left; the displacement is taken modulo 32.
pub open spec fn lrotate_spec(x: u32, disp: int) -> int {
    rotl_spec(x, disp % 32)
}

/// Rotation right; the displacement is taken modulo 32.
pub open spec fn rrotate_spec(x: u32, disp: int) -> int {
    rotl_spec(x, (-disp) % 32)
}

/// Bitwise AND of all values; all ones for none.
pub open spec fn band_all(s: Seq<u32>) -> u32
    decreases s.len(),
{
    if s.len() == 0 {
        0xFFFF_FFFFu32
    } else {
        band_all(s.drop_last()) & s.last()
    }
}

/// Bitwise OR of all values; zero for none.
pub open spec fn bor_all(s: Seq<u32>) -> u32
    decreases s.len(),
{
    if s.len() == 0 {
        0u32
    } else {
        bor_all(s.drop_last()) | s.last()
    }
}

/// Bitwise XOR of all values; zero for none.
pub open spec fn bxor_all(s: Seq<u32>) -> u32
    decreases s.len(),
{
    if s.len() == 0 {
        0u32
    } else {
        bxor_all(s.drop_last()) ^ s.last()
    }
}

/// Number of significant bits of `x`.
pub open spec fn bit_len(x: nat) -> nat
    decreases x,
{
    if x == 0 {
        0
    } else {
        1 + bit_len(x / 2)
    }
}

/// Number of zero bits below the lowest one bit; 32 for zero.
pub open spec fn trailing_zero_count(x: nat) -> nat
    decreases x,
{
    if x == 0 {
        32
    } else if x % 2 == 1 {
        0
    } else {
        1 + trailing_zero_count(x / 2)
    }
}

/// The `i`-th byte of `x` (0 is the least significant).
pub open spec fn byte_of(x: u32, i: nat) -> int {
    (x as int / pow2(8 * i) as int) % 256
}

/// The bits `field .. field + width` of `n`.
pub open spec fn extract_spec(n: u32, field: int, width: int) -> int {
    (n as int / pow2(field as nat) as int) % pow2(width as nat) as int
}

/// `n` with the bits `field .. field + width` replaced by the low
/// `width` bits of `v`.
pub open spec fn replace_spec(n: u32, v: u32, field: int, width: int) -> int {
    n - extract_spec(n, field, width) * pow2(field as nat) + extract_spec(v, 0, width) * pow2(
        field as nat,
    )
}

/// The mask of the low `w` bits.
pub open spec fn field_mask(w: u32) -> u32 {
    if w >= 32 {
        0xFFFF_FFFFu32
    } else {
        ((1u32 << w) - 1) as u32
    }
}

/// A field of `width` bits at `field` lies within 32 bits.
pub open spec fn field_ok(field: int, width: int) -> bool {
    0 <= field && 1 <= width && field + width <= 32
}

// ---------------------------------------------------------------------------
// Arithmetic facts about shifts
// ---------------------------------------------------------------------------

proof fn lemma_shl(x: u32, d: u32)
    requires
        d < 32,
    ensures
        (x << d) as int == shl_spec(x, d as int),
{
    lemma_pow2_pos(d as nat);
    lemma_u32_pow2_no_overflow(d as nat);
    lemma2_to64();
    let p = pow2(d as nat);
    assert(x * p <= 0xFFFF_FFFF_FFFF_FFFF) by (nonlinear_arith)
        requires
            x <= 0xFFFF_FFFF,
            p <= 0xFFFF_FFFF,
    ;
    let y = x as u64;
    let dd = d as u64;
    lemma_u64_shl_is_mul(y, dd);
    assert((x << d) == ((y << dd) as u32)) by (bit_vector)
        requires
            y == x as u64,
            dd == d as u64,
            d < 32,
    ;
    let z = y << dd;
    assert(z as u32 == z % 0x1_0000_0000) by (bit_vector);
}

proof fn lemma_shl_big(x: u32, n: int)
    requires
        n >= 32,
    ensures
        shl_spec(x, n) == 0,
{
    lemma2_to64();
    lemma_pow2_adds(32, (n - 32) as nat);
    lemma_pow2_pos((n - 32) as nat);
    let k = pow2((n - 32) as nat) as int;
    lemma_mul_is_associative(x as int, k, two32());
    lemma_mod_multiples_basic(x * k, two32());
}

proof fn lemma_shr(x: u32, d: u32)
    requires
        d < 32,
    ensures
        (x >> d) as int == shr_spec(x, d as int),
{
    lemma_u32_shr_is_div(x, d);
}

proof fn lemma_shr_big(x: u32, n: int)
    requires
        n >= 32,
    ensures
        shr_spec(x, n) == 0,
{
    lemma2_to64();
    if n > 32 {
        lemma_pow2_strictly_increases(32, n as nat);
    }
    lemma_basic_div(x as int, pow2(n as nat) as int);
}

// ---------------------------------------------------------------------------
// Operations
// ---------------------------------------------------------------------------

/// Reduce a Lua integer to its low 32 bits (two's complement, so `-1`
/// becomes `0xFFFFFFFF`).
pub fn from_integer(i: i64) -> (r: u32)
    ensures
        r == i as u32,
{
    i as u32
}

/// Logical left shift; negative displacements shift right.
pub fn shift_left(r: u32, disp: i64) -> (out: u32)
    ensures
        out as int == lshift_spec(r, disp as int),
{
    if disp < 0 {
        if disp <= -32 {
            proof {
                lemma_shr_big(r, -disp);
            }
            0
        } else {
            let d = (-disp) as u32;
            proof {
                lemma_shr(r, d);
            }
            r >> d
        }
    } else if disp >= 32 {
        proof {
            lemma_shl_big(r, disp as int);
        }
        0
    } else {
        let d = disp as u32;
        proof {
            lemma_shl(r, d);
        }
        r << d
    }
}

/// Logical right shift; negative displacements shift left.
pub fn shift_right(r: u32, disp: i64) -> (out: u32)
    ensures
        out as int == rshift_spec(r, disp as int),
{
    if disp < 0 {
        if disp <= -32 {
            proof {
                lemma_shl_big(r, -disp);
            }
            0
        } else {
            let d = (-disp) as u32;
            proof {
                lemma_shl(r, d);
            }
            r << d
        }
    } else if disp >= 32 {
        proof {
            lemma_shr_big(r, disp as int);
        }
        0
    } else {
        let d = disp as u32;
        proof {
            lemma_shr(r, d);
        }
        r >> d
    }
}

proof fn lemma_floor_neg(y: int, k: int)
    requires
        0 <= y,
        0 < k,
    ensures
        (-y - 1) / k == -(y / k) - 1,
{
    let q = y / k;
    let r = y % k;
    lemma_fundamental_div_mod(y, k);
    assert(-y - 1 == (-q - 1) * k + (k - r - 1)) by (nonlinear_arith)
        requires
            y == k * q + r,
    ;
    lemma_fundamental_div_mod_converse(-y - 1, k, -q - 1, k - r - 1);
}

/// Arithmetic right shift: vacated bits are copies of bit 31; negative
/// displacements shift left.
pub fn shift_arith_right(r: u32, disp: i64) -> (out: u32)
    ensures
        out as int == arshift_spec(r, disp as int),
{
    if disp < 0 {
        if disp <= -32 {
            proof {
                lemma_shl_big(r, -disp);
            }
            0
        } else {
            let d = (-disp) as u32;
            proof {
                lemma_shl(r, d);
            }
            r << d
        }
    } else if disp >= 32 {
        proof {
            lemma2_to64();
            if disp > 32 {
                lemma_pow2_strictly_increases(32, disp as nat);
            }
            let k = pow2(disp as nat) as int;
            if r < 0x8000_0000 {
                lemma_basic_div(r as int, k);
            } else {
                let y = 0xFFFF_FFFF - r;
                lemma_floor_neg(y, k);
                lemma_basic_div(y, k);
            }
        }
        if r & 0x8000_0000 != 0 {
            assert(r & 0x8000_0000 != 0 ==> r >= 0x8000_0000) by (bit_vector);
            0xFFFF_FFFF
        } else {
            assert(r & 0x8000_0000 == 0 ==> r < 0x8000_0000) by (bit_vector);
            0
        }
    } else {
        let d = disp as u32;
        let out = ((r as i32) >> d) as u32;
        proof {
            lemma2_to64();
            lemma_pow2_pos(d as nat);
            lemma_u32_pow2_no_overflow(d as nat);
            if r < 0x8000_0000 {
                assert(r < 0x8000_0000 ==> ((r as i32) >> d) as u32 == r >> d) by (bit_vector);
                lemma_shr(r, d);
            } else {
                assert(r >= 0x8000_0000 && d < 32 ==> ((r as i32) >> d) as u32 == !((!r) >> d))
                    by (bit_vector);
                let nr = !r;
                assert(nr == 0xFFFF_FFFF - r) by (bit_vector)
                    requires
                        nr == !r,
                ;
                lemma_shr(nr, d);
                let q = nr >> d;
                assert(!q == 0xFFFF_FFFF - q) by (bit_vector);
                lemma_floor_neg(nr as int, pow2(d as nat) as int);
                let t = -(nr as int / pow2(d as nat) as int) - 1;
                assert(0xFFFF_FFFF - q == t + two32());
                lemma_mod_add_multiples_vanish(t, two32());
                lemma_small_mod((0xFFFF_FFFF - q) as nat, two32() as nat);
            }
        }
        out
    }
}

/// Bitwise AND of all arguments; `0xFFFFFFFF` when there are none.
pub fn band(args: &[u32]) -> (r: u32)
    ensures
        r == band_all(args@),
{
    let mut r = 0xFFFF_FFFFu32;
    let mut i: usize = 0;
    while i < args.len()
        invariant
            i <= args@.len(),
            r == band_all(args@.subrange(0, i as int)),
        decreases args@.len() - i,
    {
        proof {
            assert(args@.subrange(0, i + 1).drop_last() =~= args@.subrange(0, i as int));
        }
        r = r & args[i];
        i = i + 1;
    }
    assert(args@.subrange(0, args@.len() as int) =~= args@);
    r
}

/// Bitwise OR of all arguments; zero when there are none.
pub fn bor(args: &[u32]) -> (r: u32)
    ensures
        r == bor_all(args@),
{
    let mut r = 0u32;
    let mut i: usize = 0;
    while i < args.len()
        invariant
            i <= args@.len(),
            r == bor_all(args@.subrange(0, i as int)),
        decreases args@.len() - i,
    {
        proof {
            assert(args@.subrange(0, i + 1).drop_last() =~= args@.subrange(0, i as int));
        }
        r = r | args[i];
        i = i + 1;
    }
    assert(args@.subrange(0, args@.len() as int) =~= args@);
    r
}

/// Bitwise XOR of all arguments; zero when there are none.
pub fn bxor(args: &[u32]) -> (r: u32)
    ensures
        r == bxor_all(args@),
{
    let mut r = 0u32;
    let mut i: usize = 0;
    while i < args.len()
        invariant
            i <= args@.len(),
            r == bxor_all(args@.subrange(0, i as int)),
        decreases args@.len() - i,
    {
        proof {
            assert(args@.subrange(0, i + 1).drop_last() =~= args@.subrange(0, i as int));
        }
        r = r ^ args[i];
        i = i + 1;
    }
    assert(args@.subrange(0, args@.len() as int) =~= args@);
    r
}

/// Bitwise complement: `0xFFFFFFFF - x`.
pub fn bnot(x: u32) -> (r: u32)
    ensures
        r == 0xFFFF_FFFF - x,
{
    assert(!x == 0xFFFF_FFFF - x) by (bit_vector);
    !x
}

/// Whether the AND of all arguments is non-zero; `true` for none.
pub fn btest(args: &[u32]) -> (r: bool)
    ensures
        r == (band_all(args@) != 0),
{
    band(args) != 0
}

/// `x` shifted left by `disp` bits (right for negative `disp`).
pub fn lshift(x: u32, disp: i64) -> (r: u32)
    ensures
        r as int == lshift_spec(x, disp as int),
{
    shift_left(x, disp)
}

/// `x` shifted right by `disp` bits (left for negative `disp`).
pub fn rshift(x: u32, disp: i64) -> (r: u32)
    ensures
        r as int == rshift_spec(x, disp as int),
{
    shift_right(x, disp)
}

/// `x` arithmetically shifted right by `disp` bits (left for negative
/// `disp`).
pub fn arshift(x: u32, disp: i64) -> (r: u32)
    ensures
        r as int == arshift_spec(x, disp as int),
{
    shift_arith_right(x, disp)
}

proof fn lemma_rotl(x: u32, d: u32, e: u32)
    requires
        0 < d < 32,
        e == 32 - d,
    ensures
        ((x << d) | (x >> e)) as int == rotl_spec(x, d as int),
{
    assert((x << d) | (x >> e) == (x << d) + (x >> e)) by (bit_vector)
        requires
            0 < d < 32,
            e == 32 - d,
    ;
    lemma_shl(x, d);
    lemma_shr(x, e);
}

/// The displacement modulo 32, for any 64-bit displacement.
fn disp_mod32(disp: i64) -> (d: u32)
    ensures
        d as int == disp as int % 32,
        d < 32,
{
    if disp >= 0 {
        let m = disp % 32;
        m as u32
    } else {
        let a = -(disp + 1);
        let m = a % 32;
        proof {
            lemma_fundamental_div_mod(a as int, 32);
            let q = (a as int) / 32;
            lemma_fundamental_div_mod_converse(disp as int, 32, -q - 1, 31 - m);
        }
        (31 - m) as u32
    }
}

/// `x` rotated left by `disp` bits (modulo 32).
pub fn lrotate(x: u32, disp: i64) -> (r: u32)
    ensures
        r as int == lrotate_spec(x, disp as int),
{
    let d = disp_mod32(disp);
    if d == 0 {
        proof {
            lemma2_to64();
            lemma_basic_div(x as int, two32());
            lemma_small_mod(x as nat, two32() as nat);
            assert(pow2(0) == 1);
            assert(x * pow2(0) == x);
            assert((x * pow2(0)) % two32() == x);
            assert(shl_spec(x, 0) == x);
            assert(shr_spec(x, 32) == 0);
            assert(lrotate_spec(x, disp as int) == rotl_spec(x, 0));
        }
        x
    } else {
        let e = 32 - d;
        proof {
            lemma_rotl(x, d, e);
        }
        (x << d) | (x >> e)
    }
}

/// `x` rotated right by `disp` bits (modulo 32).
#[verifier::spinoff_prover]
pub fn rrotate(x: u32, disp: i64) -> (r: u32)
    ensures
        r as int == rrotate_spec(x, disp as int),
{
    let d = disp_mod32(disp);
    proof {
        assert((-(disp as int)) % 32 == (if d == 0 { 0 } else { 32 - d })) by {
            lemma_fundamental_div_mod(disp as int, 32);
            let q = (disp as int) / 32;
            if d == 0 {
                lemma_fundamental_div_mod_converse(-(disp as int), 32, -q, 0);
            } else {
                lemma_fundamental_div_mod_converse(-(disp as int), 32, -q - 1, 32 - d);
            }
        }
    }
    if d == 0 {
        proof {
            lemma2_to64();
            lemma_basic_div(x as int, two32());
            lemma_small_mod(x as nat, two32() as nat);
        }
        x
    } else {
        let e = 32 - d;
        proof {
            lemma_rotl(x, e, d);
            assert((x << e) | (x >> d) == (x >> d) | (x << e)) by (bit_vector);
        }
        (x >> d) | (x << e)
    }
}


proof fn lemma_pow2_32()
    ensures
        pow2(32) == two32(),
{
    lemma2_to64();
}

/// `1 << w` is `2^w` and the low-bits mask is `2^w - 1`, for `w < 32`.
proof fn lemma_mask(w: u32)
    requires
        w < 32,
    ensures
        (1u32 << w) as int == pow2(w as nat),
        (((1u32 << w) - 1) as u32) as nat == low_bits_mask(w as nat),
{
    lemma_pow2_pos(w as nat);
    lemma_u32_pow2_no_overflow(w as nat);
    lemma_u32_shl_is_mul(1u32, w);
}

/// `(y & mask) == y % 2^w` where `mask` is the `w`-bit mask (all ones
/// for `w == 32`).
proof fn lemma_and_mask(y: u32, w: u32, mask: u32)
    requires
        1 <= w <= 32,
        mask == (if w >= 32 {
            0xFFFF_FFFFu32
        } else {
            ((1u32 << w) - 1) as u32
        }),
    ensures
        (y & mask) as int == y as int % pow2(w as nat) as int,
{
    if w >= 32 {
        lemma_pow2_32();
        assert(y & 0xFFFF_FFFFu32 == y) by (bit_vector);
        lemma_small_mod(y as nat, two32() as nat);
    } else {
        lemma_mask(w);
        lemma_u32_pow2_no_overflow(w as nat);
        lemma_u32_low_bits_mask_is_mod(y, w as nat);
    }
}

/// `x << f` is `x * 2^f` when `x < 2^w` and `f + w <= 32`.
proof fn lemma_shl_fits(x: u32, f: u32, w: nat)
    requires
        x < pow2(w),
        f < 32,
        f + w <= 32,
    ensures
        (x << f) as int == x * pow2(f as nat),
        x * pow2(f as nat) < two32(),
{
    lemma_shl(x, f);
    lemma_pow2_adds(w, f as nat);
    lemma_pow2_pos(f as nat);
    let pf = pow2(f as nat) as int;
    let pw = pow2(w) as int;
    assert(x * pf <= (pw - 1) * pf) by (nonlinear_arith)
        requires
            x <= pw - 1,
            pf > 0,
    ;
    assert((pw - 1) * pf == pw * pf - pf) by (nonlinear_arith);
    if w + f < 32 {
        lemma_pow2_strictly_increases(w + f as nat, 32);
    }
    lemma_pow2_32();
    lemma_small_mod((x * pf) as nat, two32() as nat);
}

/// The field at bit 0 is the value modulo `2^width`.
proof fn lemma_extract_low(v: u32, width: int)
    ensures
        extract_spec(v, 0, width) == v as int % pow2(width as nat) as int,
{
    lemma2_to64();
    lemma_div_basics(v as int);
}

/// Extract `width` bits of `n` starting at bit `field` (bit 0 is the
/// least significant); `width` defaults to 1.
pub fn extract(n: u32, field: i64, width: Option<i64>) -> (r: Result<u32, LibError>)
    ensures
        ({
            let w = match width {
                Some(w) => w as int,
                None => 1,
            };
            if field < 0 {
                r matches Err(e) && is_arg_error(e, 2, "extract"@, "field cannot be negative"@)
            } else if w < 1 {
                r matches Err(e) && is_arg_error(e, 3, "extract"@, "width must be positive"@)
            } else if field + w > 32 {
                r matches Err(e) && is_arg_error(
                    e,
                    2,
                    "extract"@,
                    "trying to access non-existent bits"@,
                )
            } else {
                r matches Ok(v) && v as int == extract_spec(n, field as int, w)
            }
        }),
{
    let w = match width {
        Some(w) => w,
        None => 1,
    };
    if field < 0 {
        return Err(arg_error(2, "extract", "field cannot be negative"));
    }
    if w < 1 {
        return Err(arg_error(3, "extract", "width must be positive"));
    }
    if field > 32 - w {
        return Err(arg_error(2, "extract", "trying to access non-existent bits"));
    }
    let f = field as u32;
    let wu = w as u32;
    let mask = if wu >= 32 {
        0xFFFF_FFFFu32
    } else {
        proof {
            lemma_mask(wu);
            lemma_pow2_pos(wu as nat);
        }
        (1u32 << wu) - 1
    };
    let shifted = n >> f;
    proof {
        if wu < 32 {
            lemma_mask(wu);
            lemma_pow2_pos(wu as nat);
        }
        lemma_shr(n, f);
        lemma_and_mask(shifted, wu, mask);
    }
    Ok(shifted & mask)
}

/// Replace `width` bits of `n` starting at bit `field` by the low
/// `width` bits of `v`; `width` defaults to 1.
pub fn replace(n: u32, v: u32, field: i64, width: Option<i64>) -> (r: Result<u32, LibError>)
    ensures
        ({
            let w = match width {
                Some(w) => w as int,
                None => 1,
            };
            if field < 0 {
                r matches Err(e) && is_arg_error(e, 3, "replace"@, "field cannot be negative"@)
            } else if w < 1 {
                r matches Err(e) && is_arg_error(e, 4, "replace"@, "width must be positive"@)
            } else if field + w > 32 {
                r matches Err(e) && is_arg_error(
                    e,
                    3,
                    "replace"@,
                    "trying to access non-existent bits"@,
                )
            } else {
                &&& r matches Ok(x) && x as int == replace_spec(n, v, field as int, w)
                &&& r matches Ok(x) ==> (x & !(field_mask(w as u32) << (field as u32))) == (n & !(field_mask(w as u32)
                    << (field as u32)))
                &&& r matches Ok(x) ==> ((x >> (field as u32)) & field_mask(w as u32)) == (v & field_mask(w as u32))
            }
        }),
{
    let w = match width {
        Some(w) => w,
        None => 1,
    };
    if field < 0 {
        return Err(arg_error(3, "replace", "field cannot be negative"));
    }
    if w < 1 {
        return Err(arg_error(4, "replace", "width must be positive"));
    }
    if field > 32 - w {
        return Err(arg_error(3, "replace", "trying to access non-existent bits"));
    }
    let f = field as u32;
    let wu = w as u32;
    let mask = if wu >= 32 {
        0xFFFF_FFFFu32
    } else {
        proof {
            lemma_mask(wu);
            lemma_pow2_pos(wu as nat);
        }
        (1u32 << wu) - 1
    };
    let v_masked = v & mask;
    let result = (n & !(mask << f)) | (v_masked << f);
    proof {
        let e = (n >> f) & mask;
        lemma_shr(n, f);
        lemma_and_mask(n >> f, wu, mask);
        lemma_and_mask(v, wu, mask);
        lemma_pow2_pos(wu as nat);
        lemma_extract_low(v, wu as int);
        assert(e as int == extract_spec(n, f as int, wu as int));
        assert(v_masked as int == extract_spec(v, 0, wu as int));
        lemma_shl_fits(e, f, wu as nat);
        lemma_shl_fits(v_masked, f, wu as nat);
        assert((n & !(mask << f)) | (v_masked << f) == n - (e << f) + (v_masked << f)) by (bit_vector)
            requires
                1 <= wu <= 32,
                f + wu <= 32,
                mask == (if wu >= 32 {
                    0xFFFF_FFFFu32
                } else {
                    ((1u32 << wu) - 1) as u32
                }),
                e == (n >> f) & mask,
                v_masked == v & mask,
        ;
    }
    assert(mask == field_mask(wu));
    assert((result & !(mask << f)) == (n & !(mask << f)) && ((result >> f) & mask) == (v & mask)) by (bit_vector)
        requires
            1 <= wu <= 32,
            f + wu <= 32,
            mask == (if wu >= 32 {
                0xFFFF_FFFFu32
            } else {
                ((1u32 << wu) - 1) as u32
            }),
            v_masked == v & mask,
            result == (n & !(mask << f)) | (v_masked << f),
    ;
    Ok(result)
}

proof fn lemma_bit_len_bound(x: nat, k: nat)
    requires
        x < pow2(k),
    ensures
        bit_len(x) <= k,
    decreases x,
{
    if x > 0 {
        lemma_pow2_pos(k);
        if k == 0 {
            assert(pow2(0) == 1) by {
                lemma2_to64();
            }
        } else {
            lemma_pow2_unfold(k);
            lemma_bit_len_bound(x / 2, (k - 1) as nat);
        }
    }
}

/// Number of consecutive zero bits from the most significant bit; 32 for
/// zero.
pub fn countlz(n: u32) -> (r: i64)
    ensures
        r == 32 - bit_len(n as nat),
{
    proof {
        lemma_pow2_32();
        lemma_bit_len_bound(n as nat, 32);
    }
    let mut v = n;
    let mut bits: i64 = 0;
    while v != 0
        invariant
            0 <= bits,
            bits + bit_len(v as nat) == bit_len(n as nat),
            bit_len(n as nat) <= 32,
        decreases v,
    {
        v = v / 2;
        bits = bits + 1;
    }
    32 - bits
}

/// Number of consecutive zero bits from the least significant bit; 32
/// for zero.
pub fn countrz(n: u32) -> (r: i64)
    ensures
        r == trailing_zero_count(n as nat),
{
    if n == 0 {
        return 32;
    }
    let mut v = n;
    let mut c: i64 = 0;
    proof {
        lemma2_to64();
        assert(c as nat == 0);
        assert(v as int * pow2(c as nat) == v as int * 1);
    }
    while v % 2 == 0
        invariant
            v != 0,
            0 <= c <= 32,
            c + trailing_zero_count(v as nat) == trailing_zero_count(n as nat),
            v as int * pow2(c as nat) == n as int,
        decreases v,
    {
        proof {
            lemma_pow2_unfold((c + 1) as nat);
            lemma_pow2_pos(c as nat);
            if c + 1 > 32 {
                lemma_pow2_strictly_increases(32, (c + 1) as nat);
            }
            lemma_pow2_32();
            assert(v as int * pow2(c as nat) == (v as int / 2) * pow2((c + 1) as nat)) by (nonlinear_arith)
                requires
                    v % 2 == 0,
                    pow2((c + 1) as nat) == 2 * pow2(c as nat),
            ;
            assert((v as int / 2) >= 1);
            assert((v as int / 2) * pow2((c + 1) as nat) >= pow2((c + 1) as nat)) by (nonlinear_arith)
                requires
                    (v as int / 2) >= 1,
                    pow2((c + 1) as nat) > 0,
            ;
        }
        v = v / 2;
        c = c + 1;
    }
    c
}

/// `x` with the order of its four bytes reversed.
pub fn byteswap(x: u32) -> (r: u32)
    ensures
        r == byte_of(x, 0) * 0x100_0000 + byte_of(x, 1) * 0x1_0000 + byte_of(x, 2) * 0x100
            + byte_of(x, 3),
{
    proof {
        lemma2_to64();
        assert(8 * 0nat == 0 && 8 * 1nat == 8 && 8 * 2nat == 16 && 8 * 3nat == 24);
    }
    let r = (x << 24) | ((x << 8) & 0x00FF_0000) | ((x >> 8) & 0x0000_FF00) | (x >> 24);
    assert(r == (x % 256) * 0x100_0000 + ((x / 256) % 256) * 0x1_0000 + ((x / 0x1_0000) % 256)
        * 0x100 + (x / 0x100_0000) % 256) by (bit_vector)
        requires
            r == (x << 24) | ((x << 8) & 0x00FF_0000) | ((x >> 8) & 0x0000_FF00) | (x >> 24),
    ;
    r
}

/// Build the `bit32` library table and register it as the `bit32` global.
pub fn register(env: &mut GlobalEnv) -> (r: Result<(), LibError>)
    ensures
        r is Ok,
        installed(
            *old(env),
            *final(env),
            "bit32"@,
            GlobalView::Table(seq![Module::Bit32]),
            Some("bit32"@),
        ),
        table_of(final(env).global("bit32"@)) matches Some(m) && table_keys(m) == module_functions(Module::Bit32),
{
    install_module(env, "bit32", Module::Bit32);
    proof {
        law_fresh_table_keys(Module::Bit32);
        assert(final(env).global("bit32"@) == Some(GlobalView::Table(seq![Module::Bit32])));
    }
    Ok(())
}

// ---------------------------------------------------------------------------
// Laws
// ---------------------------------------------------------------------------

/// A negative left shift is a right shift: `lshift(x, -n) == rshift(x, n)`.
pub proof fn law_lshift_negative(x: u32, n: int)
    ensures
        lshift_spec(x, -n) == rshift_spec(x, n),
        rshift_spec(x, -n) == lshift_spec(x, n),
{
    if n == 0 {
        lemma2_to64();
        lemma_small_mod(x as nat, two32() as nat);
        lemma_div_basics(x as int);
        assert(pow2(0) == 1);
        assert(x * pow2(0) == x) by (nonlinear_arith)
            requires
                pow2(0) == 1,
        ;
    }
}

/// The complement is an involution: `bnot(bnot(x)) == x`.
pub proof fn law_bnot_involution(x: u32)
    ensures
        0xFFFF_FFFF - (0xFFFF_FFFF - x) == x,
{
}

/// Rotating left and then right by the same displacement restores the
/// value: `rrotate(lrotate(x, n), n) == x`.
pub proof fn law_rotate_inverse(x: u32, n: int)
    ensures
        rrotate_spec(lrotate_spec(x, n) as u32, n) == x,
{
    lemma2_to64();
    lemma_small_mod(x as nat, two32() as nat);
    assert(x * pow2(0) == x);
    lemma_basic_div(x as int, two32());
    let d = n % 32;
    lemma_fundamental_div_mod(n, 32);
    if d == 0 {
        lemma_fundamental_div_mod_converse(-n, 32, -(n / 32), 0);
    } else {
        lemma_fundamental_div_mod_converse(-n, 32, -(n / 32) - 1, 32 - d);
        let du = d as u32;
        let eu = (32 - d) as u32;
        lemma_rotl(x, du, eu);
        let y = (x << du) | (x >> eu);
        lemma_rotl(y, eu, du);
        assert((((x << du) | (x >> eu)) << eu) | (((x << du) | (x >> eu)) >> du) == x) by (bit_vector)
            requires
                0 < du < 32,
                eu == 32 - du,
        ;
    }
}

/// Extracting a field just replaced yields the low bits of the value put
/// there.
pub proof fn law_extract_replace(n: u32, v: u32, field: int, width: int, r: u32)
    requires
        field_ok(field, width),
        r as int == replace_spec(n, v, field, width),
    ensures
        extract_spec(r, field, width) == extract_spec(v, 0, width),
{
    let pf = pow2(field as nat) as int;
    let pw = pow2(width as nat) as int;
    lemma_pow2_pos(field as nat);
    lemma_pow2_pos(width as nat);
    assert(pow2(0) == 1) by {
        lemma2_to64();
    }
    let e = extract_spec(n, field, width);
    let vv = extract_spec(v, 0, width);
    lemma_extract_low(v, width);
    lemma_hoist_over_denominator(n as int, vv - e, pf as nat);
    assert(r as int == n as int + (vv - e) * pf) by (nonlinear_arith)
        requires
            r as int == n as int - e * pf + vv * pf,
    ;
    let m = n as int / pf;
    lemma_fundamental_div_mod(m, pw);
    assert(m + vv - e == pw * (m / pw) + vv);
    lemma_mod_multiples_vanish(m / pw, vv, pw);
    lemma_small_mod(vv as nat, pw as nat);
}

/// Replacing a field by its own contents leaves the value unchanged.
pub proof fn law_replace_same(n: u32, field: int, width: int)
    requires
        field_ok(field, width),
    ensures
        replace_spec(n, extract_spec(n, field, width) as u32, field, width) == n,
{
    let pw = pow2(width as nat) as int;
    lemma_pow2_pos(width as nat);
    assert(pow2(0) == 1) by {
        lemma2_to64();
    }
    let e = extract_spec(n, field, width);
    if width == 32 {
        lemma_pow2_32();
    } else {
        lemma_u32_pow2_no_overflow(width as nat);
    }
    assert(0 <= e < pw);
    assert(e as u32 as int == e);
    lemma_extract_low(e as u32, width);
    lemma_small_mod(e as nat, pw as nat);
}


/// Replacing a field keeps every bit outside it.
pub proof fn law_replace_keeps_other_bits(n: u32, v: u32, field: int, width: int, r: u32, i: int)
    requires
        field_ok(field, width),
        r as int == replace_spec(n, v, field, width),
        0 <= i < 32,
        !(field <= i < field + width),
    ensures
        extract_spec(r, i, 1) == extract_spec(n, i, 1),
{
    let pf = pow2(field as nat) as int;
    let pw = pow2(width as nat) as int;
    lemma_pow2_pos(field as nat);
    lemma_pow2_pos(width as nat);
    assert(pow2(0) == 1) by {
        lemma2_to64();
    }
    let e = extract_spec(n, field, width);
    let vv = extract_spec(v, 0, width);
    lemma_extract_low(v, width);
    assert(r as int == n as int + (vv - e) * pf) by (nonlinear_arith)
        requires
            r as int == n as int - e * pf + vv * pf,
    ;
    let pi = pow2(i as nat) as int;
    lemma_pow2_pos(i as nat);
    if i < field {
        let q = pow2((field - i) as nat) as int;
        lemma_pow2_adds(i as nat, (field - i) as nat);
        assert(pf == pi * q);
        lemma_pow2_adds(1, (field - i - 1) as nat);
        lemma_pow2_pos((field - i - 1) as nat);
        let h = pow2((field - i - 1) as nat) as int;
        assert(pow2(1) == 2) by {
            lemma2_to64();
        }
        assert(q == 2 * h);
        let j = (vv - e) * q;
        assert((vv - e) * pf == j * pi) by (nonlinear_arith)
            requires
                pf == pi * q,
                j == (vv - e) * q,
        ;
        lemma_hoist_over_denominator(n as int, j, pi as nat);
        assert(r as int / pi == n as int / pi + j);
        assert(j == 2 * ((vv - e) * h)) by (nonlinear_arith)
            requires
                j == (vv - e) * q,
                q == 2 * h,
        ;
        lemma_mod_multiples_vanish((vv - e) * h, n as int / pi, 2);
        assert(pow2(1nat) == 2);
    } else {
        let t = pow2((i - field) as nat) as int;
        lemma_pow2_pos((i - field) as nat);
        lemma_pow2_adds(field as nat, (i - field) as nat);
        assert(pi == pf * t);
        let u = pow2((i - field - width) as nat) as int;
        lemma_pow2_pos((i - field - width) as nat);
        lemma_pow2_adds(width as nat, (i - field - width) as nat);
        assert(t == pw * u);
        lemma_div_denominator(r as int, pf, t);
        lemma_div_denominator(n as int, pf, t);
        let m = n as int / pf;
        lemma_hoist_over_denominator(n as int, vv - e, pf as nat);
        assert(r as int / pf == m + vv - e);
        lemma_fundamental_div_mod(m, pw);
        let big = m / pw;
        assert(m == pw * big + e);
        assert(r as int / pf == pw * big + vv);
        assert(0 <= vv < pw) by {
            lemma_mod_bound(v as int, pw);
            assert(pow2(0) == 1);
        }
        assert(0 <= e < pw) by {
            lemma_mod_bound(n as int / pf, pw);
        }
        assert(m >= 0) by {
            lemma_div_pos_is_pos(n as int, pf);
        }
        lemma_fundamental_div_mod_converse(pw * big + vv, pw, big, vv);
        lemma_fundamental_div_mod_converse(m, pw, big, e);
        assert(pw * big + vv >= 0);
        lemma_div_denominator(pw * big + vv, pw, u);
        lemma_div_denominator(m, pw, u);
        assert(r as int / pi == n as int / pi);
    }
}

} // verus!
