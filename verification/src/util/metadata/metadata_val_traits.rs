use vstd::prelude::*;

verus! {

/// Describes bits and log2 bits for the numbers.
pub trait Bits {
    /// The size of this type in bits.
    const BITS: u32;
    /// The size (in log2) of this type in bits.
    const LOG2: u32;
}

impl Bits for u8 {
    const BITS: u32 = 8;
    const LOG2: u32 = 3;
}

impl Bits for u16 {
    const BITS: u32 = 16;
    const LOG2: u32 = 4;
}

impl Bits for u32 {
    const BITS: u32 = 32;
    const LOG2: u32 = 5;
}

impl Bits for u64 {
    const BITS: u32 = 64;
    const LOG2: u32 = 6;
}

/// `usize` is a machine word of a 64-bit target.
impl Bits for usize {
    const BITS: u32 = 64;
    const LOG2: u32 = 6;
}

/// Each type's size in bits is two to the power of its log2 size.
pub proof fn lemma_bits_log2()
    ensures
        1u32 << <u8 as Bits>::LOG2 == <u8 as Bits>::BITS,
        1u32 << <u16 as Bits>::LOG2 == <u16 as Bits>::BITS,
        1u32 << <u32 as Bits>::LOG2 == <u32 as Bits>::BITS,
        1u32 << <u64 as Bits>::LOG2 == <u64 as Bits>::BITS,
        1u32 << <usize as Bits>::LOG2 == <usize as Bits>::BITS,
{
    assert(1u32 << 3u32 == 8u32) by (bit_vector);
    assert(1u32 << 4u32 == 16u32) by (bit_vector);
    assert(1u32 << 5u32 == 32u32) by (bit_vector);
    assert(1u32 << 6u32 == 64u32) by (bit_vector);
}

/// Describes bitwise operations.
pub trait BitwiseOps: Sized {
    /// The bitwise and of two values.
    spec fn bitand_spec(a: Self, b: Self) -> Self;
    /// The bitwise or of two values.
    spec fn bitor_spec(a: Self, b: Self) -> Self;
    /// The bitwise xor of two values.
    spec fn bitxor_spec(a: Self, b: Self) -> Self;
    /// The bitwise inverse of a value.
    spec fn inv_spec(a: Self) -> Self;

    /// Perform bitwise and for two values.
    fn bitand(self, other: Self) -> (r: Self)
        ensures
            r == Self::bitand_spec(self, other),
    ;

    /// Perform bitwise or for two values.
    fn bitor(self, other: Self) -> (r: Self)
        ensures
            r == Self::bitor_spec(self, other),
    ;

    /// Perform bitwise xor for two values.
    fn bitxor(self, other: Self) -> (r: Self)
        ensures
            r == Self::bitxor_spec(self, other),
    ;

    /// Perform bitwise invert (not) for the value.
    fn inv(self) -> (r: Self)
        ensures
            r == Self::inv_spec(self),
    ;
}

impl BitwiseOps for u8 {
    open spec fn bitand_spec(a: u8, b: u8) -> u8 {
        a & b
    }

    open spec fn bitor_spec(a: u8, b: u8) -> u8 {
        a | b
    }

    open spec fn bitxor_spec(a: u8, b: u8) -> u8 {
        a ^ b
    }

    open spec fn inv_spec(a: u8) -> u8 {
        !a
    }

    fn bitand(self, other: Self) -> (r: Self) {
        self & other
    }

    fn bitor(self, other: Self) -> (r: Self) {
        self | other
    }

    fn bitxor(self, other: Self) -> (r: Self) {
        self ^ other
    }

    fn inv(self) -> (r: Self) {
        !self
    }
}

impl BitwiseOps for u16 {
    open spec fn bitand_spec(a: u16, b: u16) -> u16 {
        a & b
    }

    open spec fn bitor_spec(a: u16, b: u16) -> u16 {
        a | b
    }

    open spec fn bitxor_spec(a: u16, b: u16) -> u16 {
        a ^ b
    }

    open spec fn inv_spec(a: u16) -> u16 {
        !a
    }

    fn bitand(self, other: Self) -> (r: Self) {
        self & other
    }

    fn bitor(self, other: Self) -> (r: Self) {
        self | other
    }

    fn bitxor(self, other: Self) -> (r: Self) {
        self ^ other
    }

    fn inv(self) -> (r: Self) {
        !self
    }
}

impl BitwiseOps for u32 {
    open spec fn bitand_spec(a: u32, b: u32) -> u32 {
        a & b
    }

    open spec fn bitor_spec(a: u32, b: u32) -> u32 {
        a | b
    }

    open spec fn bitxor_spec(a: u32, b: u32) -> u32 {
        a ^ b
    }

    open spec fn inv_spec(a: u32) -> u32 {
        !a
    }

    fn bitand(self, other: Self) -> (r: Self) {
        self & other
    }

    fn bitor(self, other: Self) -> (r: Self) {
        self | other
    }

    fn bitxor(self, other: Self) -> (r: Self) {
        self ^ other
    }

    fn inv(self) -> (r: Self) {
        !self
    }
}

impl BitwiseOps for u64 {
    open spec fn bitand_spec(a: u64, b: u64) -> u64 {
        a & b
    }

    open spec fn bitor_spec(a: u64, b: u64) -> u64 {
        a | b
    }

    open spec fn bitxor_spec(a: u64, b: u64) -> u64 {
        a ^ b
    }

    open spec fn inv_spec(a: u64) -> u64 {
        !a
    }

    fn bitand(self, other: Self) -> (r: Self) {
        self & other
    }

    fn bitor(self, other: Self) -> (r: Self) {
        self | other
    }

    fn bitxor(self, other: Self) -> (r: Self) {
        self ^ other
    }

    fn inv(self) -> (r: Self) {
        !self
    }
}

impl BitwiseOps for usize {
    open spec fn bitand_spec(a: usize, b: usize) -> usize {
        a & b
    }

    open spec fn bitor_spec(a: usize, b: usize) -> usize {
        a | b
    }

    open spec fn bitxor_spec(a: usize, b: usize) -> usize {
        a ^ b
    }

    open spec fn inv_spec(a: usize) -> usize {
        !a
    }

    fn bitand(self, other: Self) -> (r: Self) {
        self & other
    }

    fn bitor(self, other: Self) -> (r: Self) {
        self | other
    }

    fn bitxor(self, other: Self) -> (r: Self) {
        self ^ other
    }

    fn inv(self) -> (r: Self) {
        !self
    }
}

/// Whether bit `i` of the `u8` value `x` is set.
pub open spec fn u8_bit(x: u8, i: u32) -> bool {
    (x >> i) & 1u8 == 1u8
}

/// On `u8`, each bit of a bitwise and, or, xor and inverse comes from the same bit of
/// the operands: it is set when it is set in both, in either, in exactly one, and when
/// it is not set in the operand, respectively.
pub proof fn lemma_u8_bitwise_ops(a: u8, b: u8)
    ensures
        forall|i: u32|
            i < 8 ==> (#[trigger] u8_bit(<u8 as BitwiseOps>::bitand_spec(a, b), i) <==> u8_bit(a, i)
                && u8_bit(b, i)),
        forall|i: u32|
            i < 8 ==> (#[trigger] u8_bit(<u8 as BitwiseOps>::bitor_spec(a, b), i) <==> u8_bit(a, i)
                || u8_bit(b, i)),
        forall|i: u32|
            i < 8 ==> (#[trigger] u8_bit(<u8 as BitwiseOps>::bitxor_spec(a, b), i) <==> u8_bit(a, i)
                != u8_bit(b, i)),
        forall|i: u32|
            i < 8 ==> (#[trigger] u8_bit(<u8 as BitwiseOps>::inv_spec(a), i) <==> !u8_bit(a, i)),
{
    let x = <u8 as BitwiseOps>::bitand_spec(a, b);
    let y = <u8 as BitwiseOps>::bitor_spec(a, b);
    let z = <u8 as BitwiseOps>::bitxor_spec(a, b);
    let v = <u8 as BitwiseOps>::inv_spec(a);
    assert(forall|i: u32|
        #![auto]
        i < 8 ==> {
            &&& ((x >> i) & 1u8 == 1u8 <==> (a >> i) & 1u8 == 1u8 && (b >> i) & 1u8 == 1u8)
            &&& ((y >> i) & 1u8 == 1u8 <==> (a >> i) & 1u8 == 1u8 || (b >> i) & 1u8 == 1u8)
            &&& ((z >> i) & 1u8 == 1u8 <==> ((a >> i) & 1u8 == 1u8) != ((b >> i) & 1u8 == 1u8))
            &&& ((v >> i) & 1u8 == 1u8 <==> !((a >> i) & 1u8 == 1u8))
        }) by (bit_vector)
        requires
            x == a & b,
            y == a | b,
            z == a ^ b,
            v == !a,
    ;
}

/// Whether bit `i` of the `u16` value `x` is set.
pub open spec fn u16_bit(x: u16, i: u32) -> bool {
    (x >> i) & 1u16 == 1u16
}

/// On `u16`, each bit of a bitwise and, or, xor and inverse comes from the same bit of
/// the operands: it is set when it is set in both, in either, in exactly one, and when
/// it is not set in the operand, respectively.
pub proof fn lemma_u16_bitwise_ops(a: u16, b: u16)
    ensures
        forall|i: u32|
            i < 16 ==> (#[trigger] u16_bit(<u16 as BitwiseOps>::bitand_spec(a, b), i) <==> u16_bit(a, i)
                && u16_bit(b, i)),
        forall|i: u32|
            i < 16 ==> (#[trigger] u16_bit(<u16 as BitwiseOps>::bitor_spec(a, b), i) <==> u16_bit(a, i)
                || u16_bit(b, i)),
        forall|i: u32|
            i < 16 ==> (#[trigger] u16_bit(<u16 as BitwiseOps>::bitxor_spec(a, b), i) <==> u16_bit(a, i)
                != u16_bit(b, i)),
        forall|i: u32|
            i < 16 ==> (#[trigger] u16_bit(<u16 as BitwiseOps>::inv_spec(a), i) <==> !u16_bit(a, i)),
{
    let x = <u16 as BitwiseOps>::bitand_spec(a, b);
    let y = <u16 as BitwiseOps>::bitor_spec(a, b);
    let z = <u16 as BitwiseOps>::bitxor_spec(a, b);
    let v = <u16 as BitwiseOps>::inv_spec(a);
    assert(forall|i: u32|
        #![auto]
        i < 16 ==> {
            &&& ((x >> i) & 1u16 == 1u16 <==> (a >> i) & 1u16 == 1u16 && (b >> i) & 1u16 == 1u16)
            &&& ((y >> i) & 1u16 == 1u16 <==> (a >> i) & 1u16 == 1u16 || (b >> i) & 1u16 == 1u16)
            &&& ((z >> i) & 1u16 == 1u16 <==> ((a >> i) & 1u16 == 1u16) != ((b >> i) & 1u16 == 1u16))
            &&& ((v >> i) & 1u16 == 1u16 <==> !((a >> i) & 1u16 == 1u16))
        }) by (bit_vector)
        requires
            x == a & b,
            y == a | b,
            z == a ^ b,
            v == !a,
    ;
}

/// Whether bit `i` of the `u32` value `x` is set.
pub open spec fn u32_bit(x: u32, i: u32) -> bool {
    (x >> i) & 1u32 == 1u32
}

/// On `u32`, each bit of a bitwise and, or, xor and inverse comes from the same bit of
/// the operands: it is set when it is set in both, in either, in exactly one, and when
/// it is not set in the operand, respectively.
pub proof fn lemma_u32_bitwise_ops(a: u32, b: u32)
    ensures
        forall|i: u32|
            i < 32 ==> (#[trigger] u32_bit(<u32 as BitwiseOps>::bitand_spec(a, b), i) <==> u32_bit(a, i)
                && u32_bit(b, i)),
        forall|i: u32|
            i < 32 ==> (#[trigger] u32_bit(<u32 as BitwiseOps>::bitor_spec(a, b), i) <==> u32_bit(a, i)
                || u32_bit(b, i)),
        forall|i: u32|
            i < 32 ==> (#[trigger] u32_bit(<u32 as BitwiseOps>::bitxor_spec(a, b), i) <==> u32_bit(a, i)
                != u32_bit(b, i)),
        forall|i: u32|
            i < 32 ==> (#[trigger] u32_bit(<u32 as BitwiseOps>::inv_spec(a), i) <==> !u32_bit(a, i)),
{
    let x = <u32 as BitwiseOps>::bitand_spec(a, b);
    let y = <u32 as BitwiseOps>::bitor_spec(a, b);
    let z = <u32 as BitwiseOps>::bitxor_spec(a, b);
    let v = <u32 as BitwiseOps>::inv_spec(a);
    assert(forall|i: u32|
        #![auto]
        i < 32 ==> {
            &&& ((x >> i) & 1u32 == 1u32 <==> (a >> i) & 1u32 == 1u32 && (b >> i) & 1u32 == 1u32)
            &&& ((y >> i) & 1u32 == 1u32 <==> (a >> i) & 1u32 == 1u32 || (b >> i) & 1u32 == 1u32)
            &&& ((z >> i) & 1u32 == 1u32 <==> ((a >> i) & 1u32 == 1u32) != ((b >> i) & 1u32 == 1u32))
            &&& ((v >> i) & 1u32 == 1u32 <==> !((a >> i) & 1u32 == 1u32))
        }) by (bit_vector)
        requires
            x == a & b,
            y == a | b,
            z == a ^ b,
            v == !a,
    ;
}

/// Whether bit `i` of the `u64` value `x` is set.
pub open spec fn u64_bit(x: u64, i: u32) -> bool {
    (x >> i) & 1u64 == 1u64
}

/// On `u64`, each bit of a bitwise and, or, xor and inverse comes from the same bit of
/// the operands: it is set when it is set in both, in either, in exactly one, and when
/// it is not set in the operand, respectively.
pub proof fn lemma_u64_bitwise_ops(a: u64, b: u64)
    ensures
        forall|i: u32|
            i < 64 ==> (#[trigger] u64_bit(<u64 as BitwiseOps>::bitand_spec(a, b), i) <==> u64_bit(a, i)
                && u64_bit(b, i)),
        forall|i: u32|
            i < 64 ==> (#[trigger] u64_bit(<u64 as BitwiseOps>::bitor_spec(a, b), i) <==> u64_bit(a, i)
                || u64_bit(b, i)),
        forall|i: u32|
            i < 64 ==> (#[trigger] u64_bit(<u64 as BitwiseOps>::bitxor_spec(a, b), i) <==> u64_bit(a, i)
                != u64_bit(b, i)),
        forall|i: u32|
            i < 64 ==> (#[trigger] u64_bit(<u64 as BitwiseOps>::inv_spec(a), i) <==> !u64_bit(a, i)),
{
    let x = <u64 as BitwiseOps>::bitand_spec(a, b);
    let y = <u64 as BitwiseOps>::bitor_spec(a, b);
    let z = <u64 as BitwiseOps>::bitxor_spec(a, b);
    let v = <u64 as BitwiseOps>::inv_spec(a);
    assert(forall|i: u32|
        #![auto]
        i < 64 ==> {
            &&& ((x >> i) & 1u64 == 1u64 <==> (a >> i) & 1u64 == 1u64 && (b >> i) & 1u64 == 1u64)
            &&& ((y >> i) & 1u64 == 1u64 <==> (a >> i) & 1u64 == 1u64 || (b >> i) & 1u64 == 1u64)
            &&& ((z >> i) & 1u64 == 1u64 <==> ((a >> i) & 1u64 == 1u64) != ((b >> i) & 1u64 == 1u64))
            &&& ((v >> i) & 1u64 == 1u64 <==> !((a >> i) & 1u64 == 1u64))
        }) by (bit_vector)
        requires
            x == a & b,
            y == a | b,
            z == a ^ b,
            v == !a,
    ;
}

/// Whether bit `i` of the `usize` value `x` is set.
pub open spec fn usize_bit(x: usize, i: u32) -> bool {
    (x >> i) & 1usize == 1usize
}

/// On `usize`, each bit of a bitwise and, or, xor and inverse comes from the same bit of
/// the operands: it is set when it is set in both, in either, in exactly one, and when
/// it is not set in the operand, respectively.
pub proof fn lemma_usize_bitwise_ops(a: usize, b: usize)
    ensures
        forall|i: u32|
            i < usize::BITS ==> (#[trigger] usize_bit(<usize as BitwiseOps>::bitand_spec(a, b), i) <==> usize_bit(a, i)
                && usize_bit(b, i)),
        forall|i: u32|
            i < usize::BITS ==> (#[trigger] usize_bit(<usize as BitwiseOps>::bitor_spec(a, b), i) <==> usize_bit(a, i)
                || usize_bit(b, i)),
        forall|i: u32|
            i < usize::BITS ==> (#[trigger] usize_bit(<usize as BitwiseOps>::bitxor_spec(a, b), i) <==> usize_bit(a, i)
                != usize_bit(b, i)),
        forall|i: u32|
            i < usize::BITS ==> (#[trigger] usize_bit(<usize as BitwiseOps>::inv_spec(a), i) <==> !usize_bit(a, i)),
{
    let x = <usize as BitwiseOps>::bitand_spec(a, b);
    let y = <usize as BitwiseOps>::bitor_spec(a, b);
    let z = <usize as BitwiseOps>::bitxor_spec(a, b);
    let v = <usize as BitwiseOps>::inv_spec(a);
    assert(forall|i: u32|
        #![auto]
        i < usize::BITS ==> {
            &&& ((x >> i) & 1usize == 1usize <==> (a >> i) & 1usize == 1usize && (b >> i) & 1usize == 1usize)
            &&& ((y >> i) & 1usize == 1usize <==> (a >> i) & 1usize == 1usize || (b >> i) & 1usize == 1usize)
            &&& ((z >> i) & 1usize == 1usize <==> ((a >> i) & 1usize == 1usize) != ((b >> i) & 1usize == 1usize))
            &&& ((v >> i) & 1usize == 1usize <==> !((a >> i) & 1usize == 1usize))
        }) by (bit_vector)
        requires
            x == a & b,
            y == a | b,
            z == a ^ b,
            v == !a,
    ;
}

/// A value that side metadata holds: an unsigned integer of 8, 16, 32 or 64 bits, with
/// the arithmetic that metadata updates use.
pub trait MetadataValue: Bits + BitwiseOps + Copy {
    /// `a + b`, wrapping around at the size of the type.
    spec fn wrapping_add_spec(a: Self, b: Self) -> Self;
    /// `a - b`, wrapping around at the size of the type.
    spec fn wrapping_sub_spec(a: Self, b: Self) -> Self;

    /// Add two values, wrapping around at the size of the type.
    fn wrapping_add(self, other: Self) -> (r: Self)
        ensures
            r == Self::wrapping_add_spec(self, other),
    ;

    /// Subtract two values, wrapping around at the size of the type.
    fn wrapping_sub(self, other: Self) -> (r: Self)
        ensures
            r == Self::wrapping_sub_spec(self, other),
    ;

    /// Whether two values are equal.
    fn same_value(self, other: Self) -> (r: bool)
        ensures
            r == (self == other),
    ;
}

impl MetadataValue for u8 {
    open spec fn wrapping_add_spec(a: u8, b: u8) -> u8 {
        vstd::wrapping::u8_specs::wrapping_add(a, b)
    }

    open spec fn wrapping_sub_spec(a: u8, b: u8) -> u8 {
        vstd::wrapping::u8_specs::wrapping_sub(a, b)
    }

    fn wrapping_add(self, other: Self) -> (r: Self) {
        u8::wrapping_add(self, other)
    }

    fn wrapping_sub(self, other: Self) -> (r: Self) {
        u8::wrapping_sub(self, other)
    }

    fn same_value(self, other: Self) -> (r: bool) {
        self == other
    }
}

impl MetadataValue for u16 {
    open spec fn wrapping_add_spec(a: u16, b: u16) -> u16 {
        vstd::wrapping::u16_specs::wrapping_add(a, b)
    }

    open spec fn wrapping_sub_spec(a: u16, b: u16) -> u16 {
        vstd::wrapping::u16_specs::wrapping_sub(a, b)
    }

    fn wrapping_add(self, other: Self) -> (r: Self) {
        u16::wrapping_add(self, other)
    }

    fn wrapping_sub(self, other: Self) -> (r: Self) {
        u16::wrapping_sub(self, other)
    }

    fn same_value(self, other: Self) -> (r: bool) {
        self == other
    }
}

impl MetadataValue for u32 {
    open spec fn wrapping_add_spec(a: u32, b: u32) -> u32 {
        vstd::wrapping::u32_specs::wrapping_add(a, b)
    }

    open spec fn wrapping_sub_spec(a: u32, b: u32) -> u32 {
        vstd::wrapping::u32_specs::wrapping_sub(a, b)
    }

    fn wrapping_add(self, other: Self) -> (r: Self) {
        u32::wrapping_add(self, other)
    }

    fn wrapping_sub(self, other: Self) -> (r: Self) {
        u32::wrapping_sub(self, other)
    }

    fn same_value(self, other: Self) -> (r: bool) {
        self == other
    }
}

impl MetadataValue for u64 {
    open spec fn wrapping_add_spec(a: u64, b: u64) -> u64 {
        vstd::wrapping::u64_specs::wrapping_add(a, b)
    }

    open spec fn wrapping_sub_spec(a: u64, b: u64) -> u64 {
        vstd::wrapping::u64_specs::wrapping_sub(a, b)
    }

    fn wrapping_add(self, other: Self) -> (r: Self) {
        u64::wrapping_add(self, other)
    }

    fn wrapping_sub(self, other: Self) -> (r: Self) {
        u64::wrapping_sub(self, other)
    }

    fn same_value(self, other: Self) -> (r: bool) {
        self == other
    }
}

impl MetadataValue for usize {
    open spec fn wrapping_add_spec(a: usize, b: usize) -> usize {
        vstd::wrapping::usize_specs::wrapping_add(a, b)
    }

    open spec fn wrapping_sub_spec(a: usize, b: usize) -> usize {
        vstd::wrapping::usize_specs::wrapping_sub(a, b)
    }

    fn wrapping_add(self, other: Self) -> (r: Self) {
        usize::wrapping_add(self, other)
    }

    fn wrapping_sub(self, other: Self) -> (r: Self) {
        usize::wrapping_sub(self, other)
    }

    fn same_value(self, other: Self) -> (r: bool) {
        self == other
    }
}

} // verus!
