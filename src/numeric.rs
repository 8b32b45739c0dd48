//! Integer casts whose contracts say what each one keeps: every value (extending), the
//! value when it fits (lossless), the low bits (truncating), or the bits (wrapping).
use vstd::prelude::*;

verus! {

/// A cast to `Self` that keeps every value of `T`.
pub trait ExtendingCastFrom<T>: Sized {
    spec fn spec_extend(val: T) -> Self;

    fn extending_cast_from(val: T) -> (r: Self)
        ensures
            r == Self::spec_extend(val),
    ;
}

/// Extending casts as a method of the source.
pub trait ExtendingCast: Sized {
    fn extending_cast<T: ExtendingCastFrom<Self>>(self) -> (r: T)
        ensures
            r == T::spec_extend(self),
    ;
}

/// Casts `x` to a type that holds every value of its own.
pub fn extending_cast<X, Y: ExtendingCastFrom<X>>(x: X) -> (r: Y)
    ensures
        r == Y::spec_extend(x),
{
    Y::extending_cast_from(x)
}

/// A cast to `Self` that keeps the value of `T` whenever it fits.
pub trait NumericCastFrom<T>: Sized {
    spec fn fits(val: T) -> bool;

    spec fn spec_cast(val: T) -> Self;

    fn numeric_cast_from(val: T) -> (r: Self)
        requires
            Self::fits(val),
        ensures
            r == Self::spec_cast(val),
    ;
}

/// Lossless casts as a method of the source.
pub trait NumericCast: Sized {
    fn numeric_cast<T: NumericCastFrom<Self>>(self) -> (r: T)
        requires
            T::fits(self),
        ensures
            r == T::spec_cast(self),
    ;
}

/// Casts `x` to another integer type that can represent its value.
pub fn numeric_cast<X, Y: NumericCastFrom<X>>(x: X) -> (r: Y)
    requires
        Y::fits(x),
    ensures
        r == Y::spec_cast(x),
{
    Y::numeric_cast_from(x)
}

/// A cast to a narrower `Self` that keeps the low bits of `T`.
pub trait TruncatingCastFrom<T>: Sized {
    spec fn spec_truncate(val: T) -> Self;

    fn truncating_cast_from(val: T) -> (r: Self)
        ensures
            r == Self::spec_truncate(val),
    ;
}

/// Truncating casts as a method of the source.
pub trait TruncatingCast: Sized {
    fn truncating_cast<T: TruncatingCastFrom<Self>>(self) -> (r: T)
        ensures
            r == T::spec_truncate(self),
    ;
}

/// Casts `x` to a narrower type, keeping its low bits.
pub fn truncating_cast<X, Y: TruncatingCastFrom<X>>(x: X) -> (r: Y)
    ensures
        r == Y::spec_truncate(x),
{
    Y::truncating_cast_from(x)
}

/// A cast between the signed and unsigned integers of one width, keeping the bits.
pub trait WrappingCast: Sized {
    type Output;

    spec fn spec_wrap(self) -> Self::Output;

    fn wrapping_cast(self) -> (r: Self::Output)
        ensures
            r == self.spec_wrap(),
    ;
}

/// Reinterprets the bits of `x` as the integer of the other signedness.
pub fn wrapping_cast<X: WrappingCast>(x: X) -> (r: X::Output)
    ensures
        r == x.spec_wrap(),
{
    x.wrapping_cast()
}

impl ExtendingCast for u8 {
    fn extending_cast<T: ExtendingCastFrom<u8>>(self) -> (r: T) {
        T::extending_cast_from(self)
    }
}

impl NumericCast for u8 {
    fn numeric_cast<T: NumericCastFrom<u8>>(self) -> (r: T) {
        T::numeric_cast_from(self)
    }
}

impl TruncatingCast for u8 {
    fn truncating_cast<T: TruncatingCastFrom<u8>>(self) -> (r: T) {
        T::truncating_cast_from(self)
    }
}

impl ExtendingCast for u16 {
    fn extending_cast<T: ExtendingCastFrom<u16>>(self) -> (r: T) {
        T::extending_cast_from(self)
    }
}

impl NumericCast for u16 {
    fn numeric_cast<T: NumericCastFrom<u16>>(self) -> (r: T) {
        T::numeric_cast_from(self)
    }
}

impl TruncatingCast for u16 {
    fn truncating_cast<T: TruncatingCastFrom<u16>>(self) -> (r: T) {
        T::truncating_cast_from(self)
    }
}

impl ExtendingCast for u32 {
    fn extending_cast<T: ExtendingCastFrom<u32>>(self) -> (r: T) {
        T::extending_cast_from(self)
    }
}

impl NumericCast for u32 {
    fn numeric_cast<T: NumericCastFrom<u32>>(self) -> (r: T) {
        T::numeric_cast_from(self)
    }
}

impl TruncatingCast for u32 {
    fn truncating_cast<T: TruncatingCastFrom<u32>>(self) -> (r: T) {
        T::truncating_cast_from(self)
    }
}

impl ExtendingCast for u64 {
    fn extending_cast<T: ExtendingCastFrom<u64>>(self) -> (r: T) {
        T::extending_cast_from(self)
    }
}

impl NumericCast for u64 {
    fn numeric_cast<T: NumericCastFrom<u64>>(self) -> (r: T) {
        T::numeric_cast_from(self)
    }
}

impl TruncatingCast for u64 {
    fn truncating_cast<T: TruncatingCastFrom<u64>>(self) -> (r: T) {
        T::truncating_cast_from(self)
    }
}

impl ExtendingCast for u128 {
    fn extending_cast<T: ExtendingCastFrom<u128>>(self) -> (r: T) {
        T::extending_cast_from(self)
    }
}

impl NumericCast for u128 {
    fn numeric_cast<T: NumericCastFrom<u128>>(self) -> (r: T) {
        T::numeric_cast_from(self)
    }
}

impl TruncatingCast for u128 {
    fn truncating_cast<T: TruncatingCastFrom<u128>>(self) -> (r: T) {
        T::truncating_cast_from(self)
    }
}

impl ExtendingCast for usize {
    fn extending_cast<T: ExtendingCastFrom<usize>>(self) -> (r: T) {
        T::extending_cast_from(self)
    }
}

impl NumericCast for usize {
    fn numeric_cast<T: NumericCastFrom<usize>>(self) -> (r: T) {
        T::numeric_cast_from(self)
    }
}

impl TruncatingCast for usize {
    fn truncating_cast<T: TruncatingCastFrom<usize>>(self) -> (r: T) {
        T::truncating_cast_from(self)
    }
}

impl ExtendingCast for i8 {
    fn extending_cast<T: ExtendingCastFrom<i8>>(self) -> (r: T) {
        T::extending_cast_from(self)
    }
}

impl NumericCast for i8 {
    fn numeric_cast<T: NumericCastFrom<i8>>(self) -> (r: T) {
        T::numeric_cast_from(self)
    }
}

impl TruncatingCast for i8 {
    fn truncating_cast<T: TruncatingCastFrom<i8>>(self) -> (r: T) {
        T::truncating_cast_from(self)
    }
}

impl ExtendingCast for i16 {
    fn extending_cast<T: ExtendingCastFrom<i16>>(self) -> (r: T) {
        T::extending_cast_from(self)
    }
}

impl NumericCast for i16 {
    fn numeric_cast<T: NumericCastFrom<i16>>(self) -> (r: T) {
        T::numeric_cast_from(self)
    }
}

impl TruncatingCast for i16 {
    fn truncating_cast<T: TruncatingCastFrom<i16>>(self) -> (r: T) {
        T::truncating_cast_from(self)
    }
}

impl ExtendingCast for i32 {
    fn extending_cast<T: ExtendingCastFrom<i32>>(self) -> (r: T) {
        T::extending_cast_from(self)
    }
}

impl NumericCast for i32 {
    fn numeric_cast<T: NumericCastFrom<i32>>(self) -> (r: T) {
        T::numeric_cast_from(self)
    }
}

impl TruncatingCast for i32 {
    fn truncating_cast<T: TruncatingCastFrom<i32>>(self) -> (r: T) {
        T::truncating_cast_from(self)
    }
}

impl ExtendingCast for i64 {
    fn extending_cast<T: ExtendingCastFrom<i64>>(self) -> (r: T) {
        T::extending_cast_from(self)
    }
}

impl NumericCast for i64 {
    fn numeric_cast<T: NumericCastFrom<i64>>(self) -> (r: T) {
        T::numeric_cast_from(self)
    }
}

impl TruncatingCast for i64 {
    fn truncating_cast<T: TruncatingCastFrom<i64>>(self) -> (r: T) {
        T::truncating_cast_from(self)
    }
}

impl ExtendingCast for i128 {
    fn extending_cast<T: ExtendingCastFrom<i128>>(self) -> (r: T) {
        T::extending_cast_from(self)
    }
}

impl NumericCast for i128 {
    fn numeric_cast<T: NumericCastFrom<i128>>(self) -> (r: T) {
        T::numeric_cast_from(self)
    }
}

impl TruncatingCast for i128 {
    fn truncating_cast<T: TruncatingCastFrom<i128>>(self) -> (r: T) {
        T::truncating_cast_from(self)
    }
}

impl ExtendingCast for isize {
    fn extending_cast<T: ExtendingCastFrom<isize>>(self) -> (r: T) {
        T::extending_cast_from(self)
    }
}

impl NumericCast for isize {
    fn numeric_cast<T: NumericCastFrom<isize>>(self) -> (r: T) {
        T::numeric_cast_from(self)
    }
}

impl TruncatingCast for isize {
    fn truncating_cast<T: TruncatingCastFrom<isize>>(self) -> (r: T) {
        T::truncating_cast_from(self)
    }
}

impl ExtendingCastFrom<u8> for u16 {
    open spec fn spec_extend(val: u8) -> u16 {
        val as u16
    }

    fn extending_cast_from(val: u8) -> (r: u16) {
        val as u16
    }
}

impl ExtendingCastFrom<u8> for u32 {
    open spec fn spec_extend(val: u8) -> u32 {
        val as u32
    }

    fn extending_cast_from(val: u8) -> (r: u32) {
        val as u32
    }
}

impl ExtendingCastFrom<u8> for u64 {
    open spec fn spec_extend(val: u8) -> u64 {
        val as u64
    }

    fn extending_cast_from(val: u8) -> (r: u64) {
        val as u64
    }
}

impl ExtendingCastFrom<u8> for u128 {
    open spec fn spec_extend(val: u8) -> u128 {
        val as u128
    }

    fn extending_cast_from(val: u8) -> (r: u128) {
        val as u128
    }
}

impl ExtendingCastFrom<u16> for u32 {
    open spec fn spec_extend(val: u16) -> u32 {
        val as u32
    }

    fn extending_cast_from(val: u16) -> (r: u32) {
        val as u32
    }
}

impl ExtendingCastFrom<u16> for u64 {
    open spec fn spec_extend(val: u16) -> u64 {
        val as u64
    }

    fn extending_cast_from(val: u16) -> (r: u64) {
        val as u64
    }
}

impl ExtendingCastFrom<u16> for u128 {
    open spec fn spec_extend(val: u16) -> u128 {
        val as u128
    }

    fn extending_cast_from(val: u16) -> (r: u128) {
        val as u128
    }
}

impl ExtendingCastFrom<u32> for u64 {
    open spec fn spec_extend(val: u32) -> u64 {
        val as u64
    }

    fn extending_cast_from(val: u32) -> (r: u64) {
        val as u64
    }
}

impl ExtendingCastFrom<u32> for u128 {
    open spec fn spec_extend(val: u32) -> u128 {
        val as u128
    }

    fn extending_cast_from(val: u32) -> (r: u128) {
        val as u128
    }
}

impl ExtendingCastFrom<u64> for u128 {
    open spec fn spec_extend(val: u64) -> u128 {
        val as u128
    }

    fn extending_cast_from(val: u64) -> (r: u128) {
        val as u128
    }
}

impl ExtendingCastFrom<i8> for i16 {
    open spec fn spec_extend(val: i8) -> i16 {
        val as i16
    }

    fn extending_cast_from(val: i8) -> (r: i16) {
        val as i16
    }
}

impl ExtendingCastFrom<i8> for i32 {
    open spec fn spec_extend(val: i8) -> i32 {
        val as i32
    }

    fn extending_cast_from(val: i8) -> (r: i32) {
        val as i32
    }
}

impl ExtendingCastFrom<i8> for i64 {
    open spec fn spec_extend(val: i8) -> i64 {
        val as i64
    }

    fn extending_cast_from(val: i8) -> (r: i64) {
        val as i64
    }
}

impl ExtendingCastFrom<i8> for i128 {
    open spec fn spec_extend(val: i8) -> i128 {
        val as i128
    }

    fn extending_cast_from(val: i8) -> (r: i128) {
        val as i128
    }
}

impl ExtendingCastFrom<i16> for i32 {
    open spec fn spec_extend(val: i16) -> i32 {
        val as i32
    }

    fn extending_cast_from(val: i16) -> (r: i32) {
        val as i32
    }
}

impl ExtendingCastFrom<i16> for i64 {
    open spec fn spec_extend(val: i16) -> i64 {
        val as i64
    }

    fn extending_cast_from(val: i16) -> (r: i64) {
        val as i64
    }
}

impl ExtendingCastFrom<i16> for i128 {
    open spec fn spec_extend(val: i16) -> i128 {
        val as i128
    }

    fn extending_cast_from(val: i16) -> (r: i128) {
        val as i128
    }
}

impl ExtendingCastFrom<i32> for i64 {
    open spec fn spec_extend(val: i32) -> i64 {
        val as i64
    }

    fn extending_cast_from(val: i32) -> (r: i64) {
        val as i64
    }
}

impl ExtendingCastFrom<i32> for i128 {
    open spec fn spec_extend(val: i32) -> i128 {
        val as i128
    }

    fn extending_cast_from(val: i32) -> (r: i128) {
        val as i128
    }
}

impl ExtendingCastFrom<i64> for i128 {
    open spec fn spec_extend(val: i64) -> i128 {
        val as i128
    }

    fn extending_cast_from(val: i64) -> (r: i128) {
        val as i128
    }
}

impl NumericCastFrom<u8> for u8 {
    open spec fn fits(val: u8) -> bool {
        u8::MIN <= val as int <= u8::MAX
    }

    open spec fn spec_cast(val: u8) -> u8 {
        val as u8
    }

    fn numeric_cast_from(val: u8) -> (r: u8) {
        val as u8
    }
}

impl NumericCastFrom<u8> for u16 {
    open spec fn fits(val: u8) -> bool {
        u16::MIN <= val as int <= u16::MAX
    }

    open spec fn spec_cast(val: u8) -> u16 {
        val as u16
    }

    fn numeric_cast_from(val: u8) -> (r: u16) {
        val as u16
    }
}

impl NumericCastFrom<u8> for u32 {
    open spec fn fits(val: u8) -> bool {
        u32::MIN <= val as int <= u32::MAX
    }

    open spec fn spec_cast(val: u8) -> u32 {
        val as u32
    }

    fn numeric_cast_from(val: u8) -> (r: u32) {
        val as u32
    }
}

impl NumericCastFrom<u8> for u64 {
    open spec fn fits(val: u8) -> bool {
        u64::MIN <= val as int <= u64::MAX
    }

    open spec fn spec_cast(val: u8) -> u64 {
        val as u64
    }

    fn numeric_cast_from(val: u8) -> (r: u64) {
        val as u64
    }
}

impl NumericCastFrom<u8> for u128 {
    open spec fn fits(val: u8) -> bool {
        u128::MIN <= val as int <= u128::MAX
    }

    open spec fn spec_cast(val: u8) -> u128 {
        val as u128
    }

    fn numeric_cast_from(val: u8) -> (r: u128) {
        val as u128
    }
}

impl NumericCastFrom<u8> for usize {
    open spec fn fits(val: u8) -> bool {
        usize::MIN <= val as int <= usize::MAX
    }

    open spec fn spec_cast(val: u8) -> usize {
        val as usize
    }

    fn numeric_cast_from(val: u8) -> (r: usize) {
        val as usize
    }
}

impl NumericCastFrom<u8> for i8 {
    open spec fn fits(val: u8) -> bool {
        i8::MIN <= val as int <= i8::MAX
    }

    open spec fn spec_cast(val: u8) -> i8 {
        val as i8
    }

    fn numeric_cast_from(val: u8) -> (r: i8) {
        val as i8
    }
}

impl NumericCastFrom<u8> for i16 {
    open spec fn fits(val: u8) -> bool {
        i16::MIN <= val as int <= i16::MAX
    }

    open spec fn spec_cast(val: u8) -> i16 {
        val as i16
    }

    fn numeric_cast_from(val: u8) -> (r: i16) {
        val as i16
    }
}

impl NumericCastFrom<u8> for i32 {
    open spec fn fits(val: u8) -> bool {
        i32::MIN <= val as int <= i32::MAX
    }

    open spec fn spec_cast(val: u8) -> i32 {
        val as i32
    }

    fn numeric_cast_from(val: u8) -> (r: i32) {
        val as i32
    }
}

impl NumericCastFrom<u8> for i64 {
    open spec fn fits(val: u8) -> bool {
        i64::MIN <= val as int <= i64::MAX
    }

    open spec fn spec_cast(val: u8) -> i64 {
        val as i64
    }

    fn numeric_cast_from(val: u8) -> (r: i64) {
        val as i64
    }
}

impl NumericCastFrom<u8> for i128 {
    open spec fn fits(val: u8) -> bool {
        i128::MIN <= val as int <= i128::MAX
    }

    open spec fn spec_cast(val: u8) -> i128 {
        val as i128
    }

    fn numeric_cast_from(val: u8) -> (r: i128) {
        val as i128
    }
}

impl NumericCastFrom<u8> for isize {
    open spec fn fits(val: u8) -> bool {
        isize::MIN <= val as int <= isize::MAX
    }

    open spec fn spec_cast(val: u8) -> isize {
        val as isize
    }

    fn numeric_cast_from(val: u8) -> (r: isize) {
        val as isize
    }
}

impl NumericCastFrom<u16> for u8 {
    open spec fn fits(val: u16) -> bool {
        u8::MIN <= val as int <= u8::MAX
    }

    open spec fn spec_cast(val: u16) -> u8 {
        val as u8
    }

    fn numeric_cast_from(val: u16) -> (r: u8) {
        val as u8
    }
}

impl NumericCastFrom<u16> for u16 {
    open spec fn fits(val: u16) -> bool {
        u16::MIN <= val as int <= u16::MAX
    }

    open spec fn spec_cast(val: u16) -> u16 {
        val as u16
    }

    fn numeric_cast_from(val: u16) -> (r: u16) {
        val as u16
    }
}

impl NumericCastFrom<u16> for u32 {
    open spec fn fits(val: u16) -> bool {
        u32::MIN <= val as int <= u32::MAX
    }

    open spec fn spec_cast(val: u16) -> u32 {
        val as u32
    }

    fn numeric_cast_from(val: u16) -> (r: u32) {
        val as u32
    }
}

impl NumericCastFrom<u16> for u64 {
    open spec fn fits(val: u16) -> bool {
        u64::MIN <= val as int <= u64::MAX
    }

    open spec fn spec_cast(val: u16) -> u64 {
        val as u64
    }

    fn numeric_cast_from(val: u16) -> (r: u64) {
        val as u64
    }
}

impl NumericCastFrom<u16> for u128 {
    open spec fn fits(val: u16) -> bool {
        u128::MIN <= val as int <= u128::MAX
    }

    open spec fn spec_cast(val: u16) -> u128 {
        val as u128
    }

    fn numeric_cast_from(val: u16) -> (r: u128) {
        val as u128
    }
}

impl NumericCastFrom<u16> for usize {
    open spec fn fits(val: u16) -> bool {
        usize::MIN <= val as int <= usize::MAX
    }

    open spec fn spec_cast(val: u16) -> usize {
        val as usize
    }

    fn numeric_cast_from(val: u16) -> (r: usize) {
        val as usize
    }
}

impl NumericCastFrom<u16> for i8 {
    open spec fn fits(val: u16) -> bool {
        i8::MIN <= val as int <= i8::MAX
    }

    open spec fn spec_cast(val: u16) -> i8 {
        val as i8
    }

    fn numeric_cast_from(val: u16) -> (r: i8) {
        val as i8
    }
}

impl NumericCastFrom<u16> for i16 {
    open spec fn fits(val: u16) -> bool {
        i16::MIN <= val as int <= i16::MAX
    }

    open spec fn spec_cast(val: u16) -> i16 {
        val as i16
    }

    fn numeric_cast_from(val: u16) -> (r: i16) {
        val as i16
    }
}

impl NumericCastFrom<u16> for i32 {
    open spec fn fits(val: u16) -> bool {
        i32::MIN <= val as int <= i32::MAX
    }

    open spec fn spec_cast(val: u16) -> i32 {
        val as i32
    }

    fn numeric_cast_from(val: u16) -> (r: i32) {
        val as i32
    }
}

impl NumericCastFrom<u16> for i64 {
    open spec fn fits(val: u16) -> bool {
        i64::MIN <= val as int <= i64::MAX
    }

    open spec fn spec_cast(val: u16) -> i64 {
        val as i64
    }

    fn numeric_cast_from(val: u16) -> (r: i64) {
        val as i64
    }
}

impl NumericCastFrom<u16> for i128 {
    open spec fn fits(val: u16) -> bool {
        i128::MIN <= val as int <= i128::MAX
    }

    open spec fn spec_cast(val: u16) -> i128 {
        val as i128
    }

    fn numeric_cast_from(val: u16) -> (r: i128) {
        val as i128
    }
}

impl NumericCastFrom<u16> for isize {
    open spec fn fits(val: u16) -> bool {
        isize::MIN <= val as int <= isize::MAX
    }

    open spec fn spec_cast(val: u16) -> isize {
        val as isize
    }

    fn numeric_cast_from(val: u16) -> (r: isize) {
        val as isize
    }
}

impl NumericCastFrom<u32> for u8 {
    open spec fn fits(val: u32) -> bool {
        u8::MIN <= val as int <= u8::MAX
    }

    open spec fn spec_cast(val: u32) -> u8 {
        val as u8
    }

    fn numeric_cast_from(val: u32) -> (r: u8) {
        val as u8
    }
}

impl NumericCastFrom<u32> for u16 {
    open spec fn fits(val: u32) -> bool {
        u16::MIN <= val as int <= u16::MAX
    }

    open spec fn spec_cast(val: u32) -> u16 {
        val as u16
    }

    fn numeric_cast_from(val: u32) -> (r: u16) {
        val as u16
    }
}

impl NumericCastFrom<u32> for u32 {
    open spec fn fits(val: u32) -> bool {
        u32::MIN <= val as int <= u32::MAX
    }

    open spec fn spec_cast(val: u32) -> u32 {
        val as u32
    }

    fn numeric_cast_from(val: u32) -> (r: u32) {
        val as u32
    }
}

impl NumericCastFrom<u32> for u64 {
    open spec fn fits(val: u32) -> bool {
        u64::MIN <= val as int <= u64::MAX
    }

    open spec fn spec_cast(val: u32) -> u64 {
        val as u64
    }

    fn numeric_cast_from(val: u32) -> (r: u64) {
        val as u64
    }
}

impl NumericCastFrom<u32> for u128 {
    open spec fn fits(val: u32) -> bool {
        u128::MIN <= val as int <= u128::MAX
    }

    open spec fn spec_cast(val: u32) -> u128 {
        val as u128
    }

    fn numeric_cast_from(val: u32) -> (r: u128) {
        val as u128
    }
}

impl NumericCastFrom<u32> for usize {
    open spec fn fits(val: u32) -> bool {
        usize::MIN <= val as int <= usize::MAX
    }

    open spec fn spec_cast(val: u32) -> usize {
        val as usize
    }

    fn numeric_cast_from(val: u32) -> (r: usize) {
        val as usize
    }
}

impl NumericCastFrom<u32> for i8 {
    open spec fn fits(val: u32) -> bool {
        i8::MIN <= val as int <= i8::MAX
    }

    open spec fn spec_cast(val: u32) -> i8 {
        val as i8
    }

    fn numeric_cast_from(val: u32) -> (r: i8) {
        val as i8
    }
}

impl NumericCastFrom<u32> for i16 {
    open spec fn fits(val: u32) -> bool {
        i16::MIN <= val as int <= i16::MAX
    }

    open spec fn spec_cast(val: u32) -> i16 {
        val as i16
    }

    fn numeric_cast_from(val: u32) -> (r: i16) {
        val as i16
    }
}

impl NumericCastFrom<u32> for i32 {
    open spec fn fits(val: u32) -> bool {
        i32::MIN <= val as int <= i32::MAX
    }

    open spec fn spec_cast(val: u32) -> i32 {
        val as i32
    }

    fn numeric_cast_from(val: u32) -> (r: i32) {
        val as i32
    }
}

impl NumericCastFrom<u32> for i64 {
    open spec fn fits(val: u32) -> bool {
        i64::MIN <= val as int <= i64::MAX
    }

    open spec fn spec_cast(val: u32) -> i64 {
        val as i64
    }

    fn numeric_cast_from(val: u32) -> (r: i64) {
        val as i64
    }
}

impl NumericCastFrom<u32> for i128 {
    open spec fn fits(val: u32) -> bool {
        i128::MIN <= val as int <= i128::MAX
    }

    open spec fn spec_cast(val: u32) -> i128 {
        val as i128
    }

    fn numeric_cast_from(val: u32) -> (r: i128) {
        val as i128
    }
}

impl NumericCastFrom<u32> for isize {
    open spec fn fits(val: u32) -> bool {
        isize::MIN <= val as int <= isize::MAX
    }

    open spec fn spec_cast(val: u32) -> isize {
        val as isize
    }

    fn numeric_cast_from(val: u32) -> (r: isize) {
        val as isize
    }
}

impl NumericCastFrom<u64> for u8 {
    open spec fn fits(val: u64) -> bool {
        u8::MIN <= val as int <= u8::MAX
    }

    open spec fn spec_cast(val: u64) -> u8 {
        val as u8
    }

    fn numeric_cast_from(val: u64) -> (r: u8) {
        val as u8
    }
}

impl NumericCastFrom<u64> for u16 {
    open spec fn fits(val: u64) -> bool {
        u16::MIN <= val as int <= u16::MAX
    }

    open spec fn spec_cast(val: u64) -> u16 {
        val as u16
    }

    fn numeric_cast_from(val: u64) -> (r: u16) {
        val as u16
    }
}

impl NumericCastFrom<u64> for u32 {
    open spec fn fits(val: u64) -> bool {
        u32::MIN <= val as int <= u32::MAX
    }

    open spec fn spec_cast(val: u64) -> u32 {
        val as u32
    }

    fn numeric_cast_from(val: u64) -> (r: u32) {
        val as u32
    }
}

impl NumericCastFrom<u64> for u64 {
    open spec fn fits(val: u64) -> bool {
        u64::MIN <= val as int <= u64::MAX
    }

    open spec fn spec_cast(val: u64) -> u64 {
        val as u64
    }

    fn numeric_cast_from(val: u64) -> (r: u64) {
        val as u64
    }
}

impl NumericCastFrom<u64> for u128 {
    open spec fn fits(val: u64) -> bool {
        u128::MIN <= val as int <= u128::MAX
    }

    open spec fn spec_cast(val: u64) -> u128 {
        val as u128
    }

    fn numeric_cast_from(val: u64) -> (r: u128) {
        val as u128
    }
}

impl NumericCastFrom<u64> for usize {
    open spec fn fits(val: u64) -> bool {
        usize::MIN <= val as int <= usize::MAX
    }

    open spec fn spec_cast(val: u64) -> usize {
        val as usize
    }

    fn numeric_cast_from(val: u64) -> (r: usize) {
        val as usize
    }
}

impl NumericCastFrom<u64> for i8 {
    open spec fn fits(val: u64) -> bool {
        i8::MIN <= val as int <= i8::MAX
    }

    open spec fn spec_cast(val: u64) -> i8 {
        val as i8
    }

    fn numeric_cast_from(val: u64) -> (r: i8) {
        val as i8
    }
}

impl NumericCastFrom<u64> for i16 {
    open spec fn fits(val: u64) -> bool {
        i16::MIN <= val as int <= i16::MAX
    }

    open spec fn spec_cast(val: u64) -> i16 {
        val as i16
    }

    fn numeric_cast_from(val: u64) -> (r: i16) {
        val as i16
    }
}

impl NumericCastFrom<u64> for i32 {
    open spec fn fits(val: u64) -> bool {
        i32::MIN <= val as int <= i32::MAX
    }

    open spec fn spec_cast(val: u64) -> i32 {
        val as i32
    }

    fn numeric_cast_from(val: u64) -> (r: i32) {
        val as i32
    }
}

impl NumericCastFrom<u64> for i64 {
    open spec fn fits(val: u64) -> bool {
        i64::MIN <= val as int <= i64::MAX
    }

    open spec fn spec_cast(val: u64) -> i64 {
        val as i64
    }

    fn numeric_cast_from(val: u64) -> (r: i64) {
        val as i64
    }
}

impl NumericCastFrom<u64> for i128 {
    open spec fn fits(val: u64) -> bool {
        i128::MIN <= val as int <= i128::MAX
    }

    open spec fn spec_cast(val: u64) -> i128 {
        val as i128
    }

    fn numeric_cast_from(val: u64) -> (r: i128) {
        val as i128
    }
}

impl NumericCastFrom<u64> for isize {
    open spec fn fits(val: u64) -> bool {
        isize::MIN <= val as int <= isize::MAX
    }

    open spec fn spec_cast(val: u64) -> isize {
        val as isize
    }

    fn numeric_cast_from(val: u64) -> (r: isize) {
        val as isize
    }
}

impl NumericCastFrom<u128> for u8 {
    open spec fn fits(val: u128) -> bool {
        u8::MIN <= val as int <= u8::MAX
    }

    open spec fn spec_cast(val: u128) -> u8 {
        val as u8
    }

    fn numeric_cast_from(val: u128) -> (r: u8) {
        val as u8
    }
}

impl NumericCastFrom<u128> for u16 {
    open spec fn fits(val: u128) -> bool {
        u16::MIN <= val as int <= u16::MAX
    }

    open spec fn spec_cast(val: u128) -> u16 {
        val as u16
    }

    fn numeric_cast_from(val: u128) -> (r: u16) {
        val as u16
    }
}

impl NumericCastFrom<u128> for u32 {
    open spec fn fits(val: u128) -> bool {
        u32::MIN <= val as int <= u32::MAX
    }

    open spec fn spec_cast(val: u128) -> u32 {
        val as u32
    }

    fn numeric_cast_from(val: u128) -> (r: u32) {
        val as u32
    }
}

impl NumericCastFrom<u128> for u64 {
    open spec fn fits(val: u128) -> bool {
        u64::MIN <= val as int <= u64::MAX
    }

    open spec fn spec_cast(val: u128) -> u64 {
        val as u64
    }

    fn numeric_cast_from(val: u128) -> (r: u64) {
        val as u64
    }
}

impl NumericCastFrom<u128> for u128 {
    open spec fn fits(val: u128) -> bool {
        u128::MIN <= val as int <= u128::MAX
    }

    open spec fn spec_cast(val: u128) -> u128 {
        val as u128
    }

    fn numeric_cast_from(val: u128) -> (r: u128) {
        val as u128
    }
}

impl NumericCastFrom<u128> for usize {
    open spec fn fits(val: u128) -> bool {
        usize::MIN <= val as int <= usize::MAX
    }

    open spec fn spec_cast(val: u128) -> usize {
        val as usize
    }

    fn numeric_cast_from(val: u128) -> (r: usize) {
        val as usize
    }
}

impl NumericCastFrom<u128> for i8 {
    open spec fn fits(val: u128) -> bool {
        i8::MIN <= val as int <= i8::MAX
    }

    open spec fn spec_cast(val: u128) -> i8 {
        val as i8
    }

    fn numeric_cast_from(val: u128) -> (r: i8) {
        val as i8
    }
}

impl NumericCastFrom<u128> for i16 {
    open spec fn fits(val: u128) -> bool {
        i16::MIN <= val as int <= i16::MAX
    }

    open spec fn spec_cast(val: u128) -> i16 {
        val as i16
    }

    fn numeric_cast_from(val: u128) -> (r: i16) {
        val as i16
    }
}

impl NumericCastFrom<u128> for i32 {
    open spec fn fits(val: u128) -> bool {
        i32::MIN <= val as int <= i32::MAX
    }

    open spec fn spec_cast(val: u128) -> i32 {
        val as i32
    }

    fn numeric_cast_from(val: u128) -> (r: i32) {
        val as i32
    }
}

impl NumericCastFrom<u128> for i64 {
    open spec fn fits(val: u128) -> bool {
        i64::MIN <= val as int <= i64::MAX
    }

    open spec fn spec_cast(val: u128) -> i64 {
        val as i64
    }

    fn numeric_cast_from(val: u128) -> (r: i64) {
        val as i64
    }
}

impl NumericCastFrom<u128> for i128 {
    open spec fn fits(val: u128) -> bool {
        i128::MIN <= val as int <= i128::MAX
    }

    open spec fn spec_cast(val: u128) -> i128 {
        val as i128
    }

    fn numeric_cast_from(val: u128) -> (r: i128) {
        val as i128
    }
}

impl NumericCastFrom<u128> for isize {
    open spec fn fits(val: u128) -> bool {
        isize::MIN <= val as int <= isize::MAX
    }

    open spec fn spec_cast(val: u128) -> isize {
        val as isize
    }

    fn numeric_cast_from(val: u128) -> (r: isize) {
        val as isize
    }
}

impl NumericCastFrom<usize> for u8 {
    open spec fn fits(val: usize) -> bool {
        u8::MIN <= val as int <= u8::MAX
    }

    open spec fn spec_cast(val: usize) -> u8 {
        val as u8
    }

    fn numeric_cast_from(val: usize) -> (r: u8) {
        val as u8
    }
}

impl NumericCastFrom<usize> for u16 {
    open spec fn fits(val: usize) -> bool {
        u16::MIN <= val as int <= u16::MAX
    }

    open spec fn spec_cast(val: usize) -> u16 {
        val as u16
    }

    fn numeric_cast_from(val: usize) -> (r: u16) {
        val as u16
    }
}

impl NumericCastFrom<usize> for u32 {
    open spec fn fits(val: usize) -> bool {
        u32::MIN <= val as int <= u32::MAX
    }

    open spec fn spec_cast(val: usize) -> u32 {
        val as u32
    }

    fn numeric_cast_from(val: usize) -> (r: u32) {
        val as u32
    }
}

impl NumericCastFrom<usize> for u64 {
    open spec fn fits(val: usize) -> bool {
        u64::MIN <= val as int <= u64::MAX
    }

    open spec fn spec_cast(val: usize) -> u64 {
        val as u64
    }

    fn numeric_cast_from(val: usize) -> (r: u64) {
        val as u64
    }
}

impl NumericCastFrom<usize> for u128 {
    open spec fn fits(val: usize) -> bool {
        u128::MIN <= val as int <= u128::MAX
    }

    open spec fn spec_cast(val: usize) -> u128 {
        val as u128
    }

    fn numeric_cast_from(val: usize) -> (r: u128) {
        val as u128
    }
}

impl NumericCastFrom<usize> for usize {
    open spec fn fits(val: usize) -> bool {
        usize::MIN <= val as int <= usize::MAX
    }

    open spec fn spec_cast(val: usize) -> usize {
        val as usize
    }

    fn numeric_cast_from(val: usize) -> (r: usize) {
        val as usize
    }
}

impl NumericCastFrom<usize> for i8 {
    open spec fn fits(val: usize) -> bool {
        i8::MIN <= val as int <= i8::MAX
    }

    open spec fn spec_cast(val: usize) -> i8 {
        val as i8
    }

    fn numeric_cast_from(val: usize) -> (r: i8) {
        val as i8
    }
}

impl NumericCastFrom<usize> for i16 {
    open spec fn fits(val: usize) -> bool {
        i16::MIN <= val as int <= i16::MAX
    }

    open spec fn spec_cast(val: usize) -> i16 {
        val as i16
    }

    fn numeric_cast_from(val: usize) -> (r: i16) {
        val as i16
    }
}

impl NumericCastFrom<usize> for i32 {
    open spec fn fits(val: usize) -> bool {
        i32::MIN <= val as int <= i32::MAX
    }

    open spec fn spec_cast(val: usize) -> i32 {
        val as i32
    }

    fn numeric_cast_from(val: usize) -> (r: i32) {
        val as i32
    }
}

impl NumericCastFrom<usize> for i64 {
    open spec fn fits(val: usize) -> bool {
        i64::MIN <= val as int <= i64::MAX
    }

    open spec fn spec_cast(val: usize) -> i64 {
        val as i64
    }

    fn numeric_cast_from(val: usize) -> (r: i64) {
        val as i64
    }
}

impl NumericCastFrom<usize> for i128 {
    open spec fn fits(val: usize) -> bool {
        i128::MIN <= val as int <= i128::MAX
    }

    open spec fn spec_cast(val: usize) -> i128 {
        val as i128
    }

    fn numeric_cast_from(val: usize) -> (r: i128) {
        val as i128
    }
}

impl NumericCastFrom<usize> for isize {
    open spec fn fits(val: usize) -> bool {
        isize::MIN <= val as int <= isize::MAX
    }

    open spec fn spec_cast(val: usize) -> isize {
        val as isize
    }

    fn numeric_cast_from(val: usize) -> (r: isize) {
        val as isize
    }
}

impl NumericCastFrom<i8> for u8 {
    open spec fn fits(val: i8) -> bool {
        u8::MIN <= val as int <= u8::MAX
    }

    open spec fn spec_cast(val: i8) -> u8 {
        val as u8
    }

    fn numeric_cast_from(val: i8) -> (r: u8) {
        val as u8
    }
}

impl NumericCastFrom<i8> for u16 {
    open spec fn fits(val: i8) -> bool {
        u16::MIN <= val as int <= u16::MAX
    }

    open spec fn spec_cast(val: i8) -> u16 {
        val as u16
    }

    fn numeric_cast_from(val: i8) -> (r: u16) {
        val as u16
    }
}

impl NumericCastFrom<i8> for u32 {
    open spec fn fits(val: i8) -> bool {
        u32::MIN <= val as int <= u32::MAX
    }

    open spec fn spec_cast(val: i8) -> u32 {
        val as u32
    }

    fn numeric_cast_from(val: i8) -> (r: u32) {
        val as u32
    }
}

impl NumericCastFrom<i8> for u64 {
    open spec fn fits(val: i8) -> bool {
        u64::MIN <= val as int <= u64::MAX
    }

    open spec fn spec_cast(val: i8) -> u64 {
        val as u64
    }

    fn numeric_cast_from(val: i8) -> (r: u64) {
        val as u64
    }
}

impl NumericCastFrom<i8> for u128 {
    open spec fn fits(val: i8) -> bool {
        u128::MIN <= val as int <= u128::MAX
    }

    open spec fn spec_cast(val: i8) -> u128 {
        val as u128
    }

    fn numeric_cast_from(val: i8) -> (r: u128) {
        val as u128
    }
}

impl NumericCastFrom<i8> for usize {
    open spec fn fits(val: i8) -> bool {
        usize::MIN <= val as int <= usize::MAX
    }

    open spec fn spec_cast(val: i8) -> usize {
        val as usize
    }

    fn numeric_cast_from(val: i8) -> (r: usize) {
        val as usize
    }
}

impl NumericCastFrom<i8> for i8 {
    open spec fn fits(val: i8) -> bool {
        i8::MIN <= val as int <= i8::MAX
    }

    open spec fn spec_cast(val: i8) -> i8 {
        val as i8
    }

    fn numeric_cast_from(val: i8) -> (r: i8) {
        val as i8
    }
}

impl NumericCastFrom<i8> for i16 {
    open spec fn fits(val: i8) -> bool {
        i16::MIN <= val as int <= i16::MAX
    }

    open spec fn spec_cast(val: i8) -> i16 {
        val as i16
    }

    fn numeric_cast_from(val: i8) -> (r: i16) {
        val as i16
    }
}

impl NumericCastFrom<i8> for i32 {
    open spec fn fits(val: i8) -> bool {
        i32::MIN <= val as int <= i32::MAX
    }

    open spec fn spec_cast(val: i8) -> i32 {
        val as i32
    }

    fn numeric_cast_from(val: i8) -> (r: i32) {
        val as i32
    }
}

impl NumericCastFrom<i8> for i64 {
    open spec fn fits(val: i8) -> bool {
        i64::MIN <= val as int <= i64::MAX
    }

    open spec fn spec_cast(val: i8) -> i64 {
        val as i64
    }

    fn numeric_cast_from(val: i8) -> (r: i64) {
        val as i64
    }
}

impl NumericCastFrom<i8> for i128 {
    open spec fn fits(val: i8) -> bool {
        i128::MIN <= val as int <= i128::MAX
    }

    open spec fn spec_cast(val: i8) -> i128 {
        val as i128
    }

    fn numeric_cast_from(val: i8) -> (r: i128) {
        val as i128
    }
}

impl NumericCastFrom<i8> for isize {
    open spec fn fits(val: i8) -> bool {
        isize::MIN <= val as int <= isize::MAX
    }

    open spec fn spec_cast(val: i8) -> isize {
        val as isize
    }

    fn numeric_cast_from(val: i8) -> (r: isize) {
        val as isize
    }
}

impl NumericCastFrom<i16> for u8 {
    open spec fn fits(val: i16) -> bool {
        u8::MIN <= val as int <= u8::MAX
    }

    open spec fn spec_cast(val: i16) -> u8 {
        val as u8
    }

    fn numeric_cast_from(val: i16) -> (r: u8) {
        val as u8
    }
}

impl NumericCastFrom<i16> for u16 {
    open spec fn fits(val: i16) -> bool {
        u16::MIN <= val as int <= u16::MAX
    }

    open spec fn spec_cast(val: i16) -> u16 {
        val as u16
    }

    fn numeric_cast_from(val: i16) -> (r: u16) {
        val as u16
    }
}

impl NumericCastFrom<i16> for u32 {
    open spec fn fits(val: i16) -> bool {
        u32::MIN <= val as int <= u32::MAX
    }

    open spec fn spec_cast(val: i16) -> u32 {
        val as u32
    }

    fn numeric_cast_from(val: i16) -> (r: u32) {
        val as u32
    }
}

impl NumericCastFrom<i16> for u64 {
    open spec fn fits(val: i16) -> bool {
        u64::MIN <= val as int <= u64::MAX
    }

    open spec fn spec_cast(val: i16) -> u64 {
        val as u64
    }

    fn numeric_cast_from(val: i16) -> (r: u64) {
        val as u64
    }
}

impl NumericCastFrom<i16> for u128 {
    open spec fn fits(val: i16) -> bool {
        u128::MIN <= val as int <= u128::MAX
    }

    open spec fn spec_cast(val: i16) -> u128 {
        val as u128
    }

    fn numeric_cast_from(val: i16) -> (r: u128) {
        val as u128
    }
}

impl NumericCastFrom<i16> for usize {
    open spec fn fits(val: i16) -> bool {
        usize::MIN <= val as int <= usize::MAX
    }

    open spec fn spec_cast(val: i16) -> usize {
        val as usize
    }

    fn numeric_cast_from(val: i16) -> (r: usize) {
        val as usize
    }
}

impl NumericCastFrom<i16> for i8 {
    open spec fn fits(val: i16) -> bool {
        i8::MIN <= val as int <= i8::MAX
    }

    open spec fn spec_cast(val: i16) -> i8 {
        val as i8
    }

    fn numeric_cast_from(val: i16) -> (r: i8) {
        val as i8
    }
}

impl NumericCastFrom<i16> for i16 {
    open spec fn fits(val: i16) -> bool {
        i16::MIN <= val as int <= i16::MAX
    }

    open spec fn spec_cast(val: i16) -> i16 {
        val as i16
    }

    fn numeric_cast_from(val: i16) -> (r: i16) {
        val as i16
    }
}

impl NumericCastFrom<i16> for i32 {
    open spec fn fits(val: i16) -> bool {
        i32::MIN <= val as int <= i32::MAX
    }

    open spec fn spec_cast(val: i16) -> i32 {
        val as i32
    }

    fn numeric_cast_from(val: i16) -> (r: i32) {
        val as i32
    }
}

impl NumericCastFrom<i16> for i64 {
    open spec fn fits(val: i16) -> bool {
        i64::MIN <= val as int <= i64::MAX
    }

    open spec fn spec_cast(val: i16) -> i64 {
        val as i64
    }

    fn numeric_cast_from(val: i16) -> (r: i64) {
        val as i64
    }
}

impl NumericCastFrom<i16> for i128 {
    open spec fn fits(val: i16) -> bool {
        i128::MIN <= val as int <= i128::MAX
    }

    open spec fn spec_cast(val: i16) -> i128 {
        val as i128
    }

    fn numeric_cast_from(val: i16) -> (r: i128) {
        val as i128
    }
}

impl NumericCastFrom<i16> for isize {
    open spec fn fits(val: i16) -> bool {
        isize::MIN <= val as int <= isize::MAX
    }

    open spec fn spec_cast(val: i16) -> isize {
        val as isize
    }

    fn numeric_cast_from(val: i16) -> (r: isize) {
        val as isize
    }
}

impl NumericCastFrom<i32> for u8 {
    open spec fn fits(val: i32) -> bool {
        u8::MIN <= val as int <= u8::MAX
    }

    open spec fn spec_cast(val: i32) -> u8 {
        val as u8
    }

    fn numeric_cast_from(val: i32) -> (r: u8) {
        val as u8
    }
}

impl NumericCastFrom<i32> for u16 {
    open spec fn fits(val: i32) -> bool {
        u16::MIN <= val as int <= u16::MAX
    }

    open spec fn spec_cast(val: i32) -> u16 {
        val as u16
    }

    fn numeric_cast_from(val: i32) -> (r: u16) {
        val as u16
    }
}

impl NumericCastFrom<i32> for u32 {
    open spec fn fits(val: i32) -> bool {
        u32::MIN <= val as int <= u32::MAX
    }

    open spec fn spec_cast(val: i32) -> u32 {
        val as u32
    }

    fn numeric_cast_from(val: i32) -> (r: u32) {
        val as u32
    }
}

impl NumericCastFrom<i32> for u64 {
    open spec fn fits(val: i32) -> bool {
        u64::MIN <= val as int <= u64::MAX
    }

    open spec fn spec_cast(val: i32) -> u64 {
        val as u64
    }

    fn numeric_cast_from(val: i32) -> (r: u64) {
        val as u64
    }
}

impl NumericCastFrom<i32> for u128 {
    open spec fn fits(val: i32) -> bool {
        u128::MIN <= val as int <= u128::MAX
    }

    open spec fn spec_cast(val: i32) -> u128 {
        val as u128
    }

    fn numeric_cast_from(val: i32) -> (r: u128) {
        val as u128
    }
}

impl NumericCastFrom<i32> for usize {
    open spec fn fits(val: i32) -> bool {
        usize::MIN <= val as int <= usize::MAX
    }

    open spec fn spec_cast(val: i32) -> usize {
        val as usize
    }

    fn numeric_cast_from(val: i32) -> (r: usize) {
        val as usize
    }
}

impl NumericCastFrom<i32> for i8 {
    open spec fn fits(val: i32) -> bool {
        i8::MIN <= val as int <= i8::MAX
    }

    open spec fn spec_cast(val: i32) -> i8 {
        val as i8
    }

    fn numeric_cast_from(val: i32) -> (r: i8) {
        val as i8
    }
}

impl NumericCastFrom<i32> for i16 {
    open spec fn fits(val: i32) -> bool {
        i16::MIN <= val as int <= i16::MAX
    }

    open spec fn spec_cast(val: i32) -> i16 {
        val as i16
    }

    fn numeric_cast_from(val: i32) -> (r: i16) {
        val as i16
    }
}

impl NumericCastFrom<i32> for i32 {
    open spec fn fits(val: i32) -> bool {
        i32::MIN <= val as int <= i32::MAX
    }

    open spec fn spec_cast(val: i32) -> i32 {
        val as i32
    }

    fn numeric_cast_from(val: i32) -> (r: i32) {
        val as i32
    }
}

impl NumericCastFrom<i32> for i64 {
    open spec fn fits(val: i32) -> bool {
        i64::MIN <= val as int <= i64::MAX
    }

    open spec fn spec_cast(val: i32) -> i64 {
        val as i64
    }

    fn numeric_cast_from(val: i32) -> (r: i64) {
        val as i64
    }
}

impl NumericCastFrom<i32> for i128 {
    open spec fn fits(val: i32) -> bool {
        i128::MIN <= val as int <= i128::MAX
    }

    open spec fn spec_cast(val: i32) -> i128 {
        val as i128
    }

    fn numeric_cast_from(val: i32) -> (r: i128) {
        val as i128
    }
}

impl NumericCastFrom<i32> for isize {
    open spec fn fits(val: i32) -> bool {
        isize::MIN <= val as int <= isize::MAX
    }

    open spec fn spec_cast(val: i32) -> isize {
        val as isize
    }

    fn numeric_cast_from(val: i32) -> (r: isize) {
        val as isize
    }
}

impl NumericCastFrom<i64> for u8 {
    open spec fn fits(val: i64) -> bool {
        u8::MIN <= val as int <= u8::MAX
    }

    open spec fn spec_cast(val: i64) -> u8 {
        val as u8
    }

    fn numeric_cast_from(val: i64) -> (r: u8) {
        val as u8
    }
}

impl NumericCastFrom<i64> for u16 {
    open spec fn fits(val: i64) -> bool {
        u16::MIN <= val as int <= u16::MAX
    }

    open spec fn spec_cast(val: i64) -> u16 {
        val as u16
    }

    fn numeric_cast_from(val: i64) -> (r: u16) {
        val as u16
    }
}

impl NumericCastFrom<i64> for u32 {
    open spec fn fits(val: i64) -> bool {
        u32::MIN <= val as int <= u32::MAX
    }

    open spec fn spec_cast(val: i64) -> u32 {
        val as u32
    }

    fn numeric_cast_from(val: i64) -> (r: u32) {
        val as u32
    }
}

impl NumericCastFrom<i64> for u64 {
    open spec fn fits(val: i64) -> bool {
        u64::MIN <= val as int <= u64::MAX
    }

    open spec fn spec_cast(val: i64) -> u64 {
        val as u64
    }

    fn numeric_cast_from(val: i64) -> (r: u64) {
        val as u64
    }
}

impl NumericCastFrom<i64> for u128 {
    open spec fn fits(val: i64) -> bool {
        u128::MIN <= val as int <= u128::MAX
    }

    open spec fn spec_cast(val: i64) -> u128 {
        val as u128
    }

    fn numeric_cast_from(val: i64) -> (r: u128) {
        val as u128
    }
}

impl NumericCastFrom<i64> for usize {
    open spec fn fits(val: i64) -> bool {
        usize::MIN <= val as int <= usize::MAX
    }

    open spec fn spec_cast(val: i64) -> usize {
        val as usize
    }

    fn numeric_cast_from(val: i64) -> (r: usize) {
        val as usize
    }
}

impl NumericCastFrom<i64> for i8 {
    open spec fn fits(val: i64) -> bool {
        i8::MIN <= val as int <= i8::MAX
    }

    open spec fn spec_cast(val: i64) -> i8 {
        val as i8
    }

    fn numeric_cast_from(val: i64) -> (r: i8) {
        val as i8
    }
}

impl NumericCastFrom<i64> for i16 {
    open spec fn fits(val: i64) -> bool {
        i16::MIN <= val as int <= i16::MAX
    }

    open spec fn spec_cast(val: i64) -> i16 {
        val as i16
    }

    fn numeric_cast_from(val: i64) -> (r: i16) {
        val as i16
    }
}

impl NumericCastFrom<i64> for i32 {
    open spec fn fits(val: i64) -> bool {
        i32::MIN <= val as int <= i32::MAX
    }

    open spec fn spec_cast(val: i64) -> i32 {
        val as i32
    }

    fn numeric_cast_from(val: i64) -> (r: i32) {
        val as i32
    }
}

impl NumericCastFrom<i64> for i64 {
    open spec fn fits(val: i64) -> bool {
        i64::MIN <= val as int <= i64::MAX
    }

    open spec fn spec_cast(val: i64) -> i64 {
        val as i64
    }

    fn numeric_cast_from(val: i64) -> (r: i64) {
        val as i64
    }
}

impl NumericCastFrom<i64> for i128 {
    open spec fn fits(val: i64) -> bool {
        i128::MIN <= val as int <= i128::MAX
    }

    open spec fn spec_cast(val: i64) -> i128 {
        val as i128
    }

    fn numeric_cast_from(val: i64) -> (r: i128) {
        val as i128
    }
}

impl NumericCastFrom<i64> for isize {
    open spec fn fits(val: i64) -> bool {
        isize::MIN <= val as int <= isize::MAX
    }

    open spec fn spec_cast(val: i64) -> isize {
        val as isize
    }

    fn numeric_cast_from(val: i64) -> (r: isize) {
        val as isize
    }
}

impl NumericCastFrom<i128> for u8 {
    open spec fn fits(val: i128) -> bool {
        u8::MIN <= val as int <= u8::MAX
    }

    open spec fn spec_cast(val: i128) -> u8 {
        val as u8
    }

    fn numeric_cast_from(val: i128) -> (r: u8) {
        val as u8
    }
}

impl NumericCastFrom<i128> for u16 {
    open spec fn fits(val: i128) -> bool {
        u16::MIN <= val as int <= u16::MAX
    }

    open spec fn spec_cast(val: i128) -> u16 {
        val as u16
    }

    fn numeric_cast_from(val: i128) -> (r: u16) {
        val as u16
    }
}

impl NumericCastFrom<i128> for u32 {
    open spec fn fits(val: i128) -> bool {
        u32::MIN <= val as int <= u32::MAX
    }

    open spec fn spec_cast(val: i128) -> u32 {
        val as u32
    }

    fn numeric_cast_from(val: i128) -> (r: u32) {
        val as u32
    }
}

impl NumericCastFrom<i128> for u64 {
    open spec fn fits(val: i128) -> bool {
        u64::MIN <= val as int <= u64::MAX
    }

    open spec fn spec_cast(val: i128) -> u64 {
        val as u64
    }

    fn numeric_cast_from(val: i128) -> (r: u64) {
        val as u64
    }
}

impl NumericCastFrom<i128> for u128 {
    open spec fn fits(val: i128) -> bool {
        u128::MIN <= val as int <= u128::MAX
    }

    open spec fn spec_cast(val: i128) -> u128 {
        val as u128
    }

    fn numeric_cast_from(val: i128) -> (r: u128) {
        val as u128
    }
}

impl NumericCastFrom<i128> for usize {
    open spec fn fits(val: i128) -> bool {
        usize::MIN <= val as int <= usize::MAX
    }

    open spec fn spec_cast(val: i128) -> usize {
        val as usize
    }

    fn numeric_cast_from(val: i128) -> (r: usize) {
        val as usize
    }
}

impl NumericCastFrom<i128> for i8 {
    open spec fn fits(val: i128) -> bool {
        i8::MIN <= val as int <= i8::MAX
    }

    open spec fn spec_cast(val: i128) -> i8 {
        val as i8
    }

    fn numeric_cast_from(val: i128) -> (r: i8) {
        val as i8
    }
}

impl NumericCastFrom<i128> for i16 {
    open spec fn fits(val: i128) -> bool {
        i16::MIN <= val as int <= i16::MAX
    }

    open spec fn spec_cast(val: i128) -> i16 {
        val as i16
    }

    fn numeric_cast_from(val: i128) -> (r: i16) {
        val as i16
    }
}

impl NumericCastFrom<i128> for i32 {
    open spec fn fits(val: i128) -> bool {
        i32::MIN <= val as int <= i32::MAX
    }

    open spec fn spec_cast(val: i128) -> i32 {
        val as i32
    }

    fn numeric_cast_from(val: i128) -> (r: i32) {
        val as i32
    }
}

impl NumericCastFrom<i128> for i64 {
    open spec fn fits(val: i128) -> bool {
        i64::MIN <= val as int <= i64::MAX
    }

    open spec fn spec_cast(val: i128) -> i64 {
        val as i64
    }

    fn numeric_cast_from(val: i128) -> (r: i64) {
        val as i64
    }
}

impl NumericCastFrom<i128> for i128 {
    open spec fn fits(val: i128) -> bool {
        i128::MIN <= val as int <= i128::MAX
    }

    open spec fn spec_cast(val: i128) -> i128 {
        val as i128
    }

    fn numeric_cast_from(val: i128) -> (r: i128) {
        val as i128
    }
}

impl NumericCastFrom<i128> for isize {
    open spec fn fits(val: i128) -> bool {
        isize::MIN <= val as int <= isize::MAX
    }

    open spec fn spec_cast(val: i128) -> isize {
        val as isize
    }

    fn numeric_cast_from(val: i128) -> (r: isize) {
        val as isize
    }
}

impl NumericCastFrom<isize> for u8 {
    open spec fn fits(val: isize) -> bool {
        u8::MIN <= val as int <= u8::MAX
    }

    open spec fn spec_cast(val: isize) -> u8 {
        val as u8
    }

    fn numeric_cast_from(val: isize) -> (r: u8) {
        val as u8
    }
}

impl NumericCastFrom<isize> for u16 {
    open spec fn fits(val: isize) -> bool {
        u16::MIN <= val as int <= u16::MAX
    }

    open spec fn spec_cast(val: isize) -> u16 {
        val as u16
    }

    fn numeric_cast_from(val: isize) -> (r: u16) {
        val as u16
    }
}

impl NumericCastFrom<isize> for u32 {
    open spec fn fits(val: isize) -> bool {
        u32::MIN <= val as int <= u32::MAX
    }

    open spec fn spec_cast(val: isize) -> u32 {
        val as u32
    }

    fn numeric_cast_from(val: isize) -> (r: u32) {
        val as u32
    }
}

impl NumericCastFrom<isize> for u64 {
    open spec fn fits(val: isize) -> bool {
        u64::MIN <= val as int <= u64::MAX
    }

    open spec fn spec_cast(val: isize) -> u64 {
        val as u64
    }

    fn numeric_cast_from(val: isize) -> (r: u64) {
        val as u64
    }
}

impl NumericCastFrom<isize> for u128 {
    open spec fn fits(val: isize) -> bool {
        u128::MIN <= val as int <= u128::MAX
    }

    open spec fn spec_cast(val: isize) -> u128 {
        val as u128
    }

    fn numeric_cast_from(val: isize) -> (r: u128) {
        val as u128
    }
}

impl NumericCastFrom<isize> for usize {
    open spec fn fits(val: isize) -> bool {
        usize::MIN <= val as int <= usize::MAX
    }

    open spec fn spec_cast(val: isize) -> usize {
        val as usize
    }

    fn numeric_cast_from(val: isize) -> (r: usize) {
        val as usize
    }
}

impl NumericCastFrom<isize> for i8 {
    open spec fn fits(val: isize) -> bool {
        i8::MIN <= val as int <= i8::MAX
    }

    open spec fn spec_cast(val: isize) -> i8 {
        val as i8
    }

    fn numeric_cast_from(val: isize) -> (r: i8) {
        val as i8
    }
}

impl NumericCastFrom<isize> for i16 {
    open spec fn fits(val: isize) -> bool {
        i16::MIN <= val as int <= i16::MAX
    }

    open spec fn spec_cast(val: isize) -> i16 {
        val as i16
    }

    fn numeric_cast_from(val: isize) -> (r: i16) {
        val as i16
    }
}

impl NumericCastFrom<isize> for i32 {
    open spec fn fits(val: isize) -> bool {
        i32::MIN <= val as int <= i32::MAX
    }

    open spec fn spec_cast(val: isize) -> i32 {
        val as i32
    }

    fn numeric_cast_from(val: isize) -> (r: i32) {
        val as i32
    }
}

impl NumericCastFrom<isize> for i64 {
    open spec fn fits(val: isize) -> bool {
        i64::MIN <= val as int <= i64::MAX
    }

    open spec fn spec_cast(val: isize) -> i64 {
        val as i64
    }

    fn numeric_cast_from(val: isize) -> (r: i64) {
        val as i64
    }
}

impl NumericCastFrom<isize> for i128 {
    open spec fn fits(val: isize) -> bool {
        i128::MIN <= val as int <= i128::MAX
    }

    open spec fn spec_cast(val: isize) -> i128 {
        val as i128
    }

    fn numeric_cast_from(val: isize) -> (r: i128) {
        val as i128
    }
}

impl NumericCastFrom<isize> for isize {
    open spec fn fits(val: isize) -> bool {
        isize::MIN <= val as int <= isize::MAX
    }

    open spec fn spec_cast(val: isize) -> isize {
        val as isize
    }

    fn numeric_cast_from(val: isize) -> (r: isize) {
        val as isize
    }
}

impl TruncatingCastFrom<u16> for u8 {
    open spec fn spec_truncate(val: u16) -> u8 {
        val as u8
    }

    fn truncating_cast_from(val: u16) -> (r: u8) {
        val as u8
    }
}

impl TruncatingCastFrom<u32> for u8 {
    open spec fn spec_truncate(val: u32) -> u8 {
        val as u8
    }

    fn truncating_cast_from(val: u32) -> (r: u8) {
        val as u8
    }
}

impl TruncatingCastFrom<u64> for u8 {
    open spec fn spec_truncate(val: u64) -> u8 {
        val as u8
    }

    fn truncating_cast_from(val: u64) -> (r: u8) {
        val as u8
    }
}

impl TruncatingCastFrom<u128> for u8 {
    open spec fn spec_truncate(val: u128) -> u8 {
        val as u8
    }

    fn truncating_cast_from(val: u128) -> (r: u8) {
        val as u8
    }
}

impl TruncatingCastFrom<u32> for u16 {
    open spec fn spec_truncate(val: u32) -> u16 {
        val as u16
    }

    fn truncating_cast_from(val: u32) -> (r: u16) {
        val as u16
    }
}

impl TruncatingCastFrom<u64> for u16 {
    open spec fn spec_truncate(val: u64) -> u16 {
        val as u16
    }

    fn truncating_cast_from(val: u64) -> (r: u16) {
        val as u16
    }
}

impl TruncatingCastFrom<u128> for u16 {
    open spec fn spec_truncate(val: u128) -> u16 {
        val as u16
    }

    fn truncating_cast_from(val: u128) -> (r: u16) {
        val as u16
    }
}

impl TruncatingCastFrom<u64> for u32 {
    open spec fn spec_truncate(val: u64) -> u32 {
        val as u32
    }

    fn truncating_cast_from(val: u64) -> (r: u32) {
        val as u32
    }
}

impl TruncatingCastFrom<u128> for u32 {
    open spec fn spec_truncate(val: u128) -> u32 {
        val as u32
    }

    fn truncating_cast_from(val: u128) -> (r: u32) {
        val as u32
    }
}

impl TruncatingCastFrom<u128> for u64 {
    open spec fn spec_truncate(val: u128) -> u64 {
        val as u64
    }

    fn truncating_cast_from(val: u128) -> (r: u64) {
        val as u64
    }
}

impl TruncatingCastFrom<usize> for u8 {
    open spec fn spec_truncate(val: usize) -> u8 {
        val as u8
    }

    fn truncating_cast_from(val: usize) -> (r: u8) {
        val as u8
    }
}

impl TruncatingCastFrom<usize> for u16 {
    open spec fn spec_truncate(val: usize) -> u16 {
        val as u16
    }

    fn truncating_cast_from(val: usize) -> (r: u16) {
        val as u16
    }
}

impl TruncatingCastFrom<usize> for u32 {
    open spec fn spec_truncate(val: usize) -> u32 {
        val as u32
    }

    fn truncating_cast_from(val: usize) -> (r: u32) {
        val as u32
    }
}

impl TruncatingCastFrom<u32> for usize {
    open spec fn spec_truncate(val: u32) -> usize {
        val as usize
    }

    fn truncating_cast_from(val: u32) -> (r: usize) {
        val as usize
    }
}

impl TruncatingCastFrom<u64> for usize {
    open spec fn spec_truncate(val: u64) -> usize {
        val as usize
    }

    fn truncating_cast_from(val: u64) -> (r: usize) {
        val as usize
    }
}

impl TruncatingCastFrom<u128> for usize {
    open spec fn spec_truncate(val: u128) -> usize {
        val as usize
    }

    fn truncating_cast_from(val: u128) -> (r: usize) {
        val as usize
    }
}

impl TruncatingCastFrom<i16> for i8 {
    open spec fn spec_truncate(val: i16) -> i8 {
        val as i8
    }

    fn truncating_cast_from(val: i16) -> (r: i8) {
        val as i8
    }
}

impl TruncatingCastFrom<i32> for i8 {
    open spec fn spec_truncate(val: i32) -> i8 {
        val as i8
    }

    fn truncating_cast_from(val: i32) -> (r: i8) {
        val as i8
    }
}

impl TruncatingCastFrom<i64> for i8 {
    open spec fn spec_truncate(val: i64) -> i8 {
        val as i8
    }

    fn truncating_cast_from(val: i64) -> (r: i8) {
        val as i8
    }
}

impl TruncatingCastFrom<i128> for i8 {
    open spec fn spec_truncate(val: i128) -> i8 {
        val as i8
    }

    fn truncating_cast_from(val: i128) -> (r: i8) {
        val as i8
    }
}

impl TruncatingCastFrom<i32> for i16 {
    open spec fn spec_truncate(val: i32) -> i16 {
        val as i16
    }

    fn truncating_cast_from(val: i32) -> (r: i16) {
        val as i16
    }
}

impl TruncatingCastFrom<i64> for i16 {
    open spec fn spec_truncate(val: i64) -> i16 {
        val as i16
    }

    fn truncating_cast_from(val: i64) -> (r: i16) {
        val as i16
    }
}

impl TruncatingCastFrom<i128> for i16 {
    open spec fn spec_truncate(val: i128) -> i16 {
        val as i16
    }

    fn truncating_cast_from(val: i128) -> (r: i16) {
        val as i16
    }
}

impl TruncatingCastFrom<i64> for i32 {
    open spec fn spec_truncate(val: i64) -> i32 {
        val as i32
    }

    fn truncating_cast_from(val: i64) -> (r: i32) {
        val as i32
    }
}

impl TruncatingCastFrom<i128> for i32 {
    open spec fn spec_truncate(val: i128) -> i32 {
        val as i32
    }

    fn truncating_cast_from(val: i128) -> (r: i32) {
        val as i32
    }
}

impl TruncatingCastFrom<i128> for i64 {
    open spec fn spec_truncate(val: i128) -> i64 {
        val as i64
    }

    fn truncating_cast_from(val: i128) -> (r: i64) {
        val as i64
    }
}

impl TruncatingCastFrom<isize> for i8 {
    open spec fn spec_truncate(val: isize) -> i8 {
        val as i8
    }

    fn truncating_cast_from(val: isize) -> (r: i8) {
        val as i8
    }
}

impl TruncatingCastFrom<isize> for i16 {
    open spec fn spec_truncate(val: isize) -> i16 {
        val as i16
    }

    fn truncating_cast_from(val: isize) -> (r: i16) {
        val as i16
    }
}

impl TruncatingCastFrom<isize> for i32 {
    open spec fn spec_truncate(val: isize) -> i32 {
        val as i32
    }

    fn truncating_cast_from(val: isize) -> (r: i32) {
        val as i32
    }
}

impl TruncatingCastFrom<i32> for isize {
    open spec fn spec_truncate(val: i32) -> isize {
        val as isize
    }

    fn truncating_cast_from(val: i32) -> (r: isize) {
        val as isize
    }
}

impl TruncatingCastFrom<i64> for isize {
    open spec fn spec_truncate(val: i64) -> isize {
        val as isize
    }

    fn truncating_cast_from(val: i64) -> (r: isize) {
        val as isize
    }
}

impl TruncatingCastFrom<i128> for isize {
    open spec fn spec_truncate(val: i128) -> isize {
        val as isize
    }

    fn truncating_cast_from(val: i128) -> (r: isize) {
        val as isize
    }
}

impl WrappingCast for u8 {
    type Output = i8;

    open spec fn spec_wrap(self) -> i8 {
        self as i8
    }

    fn wrapping_cast(self) -> (r: i8) {
        self as i8
    }
}

impl WrappingCast for u16 {
    type Output = i16;

    open spec fn spec_wrap(self) -> i16 {
        self as i16
    }

    fn wrapping_cast(self) -> (r: i16) {
        self as i16
    }
}

impl WrappingCast for u32 {
    type Output = i32;

    open spec fn spec_wrap(self) -> i32 {
        self as i32
    }

    fn wrapping_cast(self) -> (r: i32) {
        self as i32
    }
}

impl WrappingCast for u64 {
    type Output = i64;

    open spec fn spec_wrap(self) -> i64 {
        self as i64
    }

    fn wrapping_cast(self) -> (r: i64) {
        self as i64
    }
}

impl WrappingCast for u128 {
    type Output = i128;

    open spec fn spec_wrap(self) -> i128 {
        self as i128
    }

    fn wrapping_cast(self) -> (r: i128) {
        self as i128
    }
}

impl WrappingCast for usize {
    type Output = isize;

    open spec fn spec_wrap(self) -> isize {
        self as isize
    }

    fn wrapping_cast(self) -> (r: isize) {
        self as isize
    }
}

impl WrappingCast for i8 {
    type Output = u8;

    open spec fn spec_wrap(self) -> u8 {
        self as u8
    }

    fn wrapping_cast(self) -> (r: u8) {
        self as u8
    }
}

impl WrappingCast for i16 {
    type Output = u16;

    open spec fn spec_wrap(self) -> u16 {
        self as u16
    }

    fn wrapping_cast(self) -> (r: u16) {
        self as u16
    }
}

impl WrappingCast for i32 {
    type Output = u32;

    open spec fn spec_wrap(self) -> u32 {
        self as u32
    }

    fn wrapping_cast(self) -> (r: u32) {
        self as u32
    }
}

impl WrappingCast for i64 {
    type Output = u64;

    open spec fn spec_wrap(self) -> u64 {
        self as u64
    }

    fn wrapping_cast(self) -> (r: u64) {
        self as u64
    }
}

impl WrappingCast for i128 {
    type Output = u128;

    open spec fn spec_wrap(self) -> u128 {
        self as u128
    }

    fn wrapping_cast(self) -> (r: u128) {
        self as u128
    }
}

impl WrappingCast for isize {
    type Output = usize;

    open spec fn spec_wrap(self) -> usize {
        self as usize
    }

    fn wrapping_cast(self) -> (r: usize) {
        self as usize
    }
}

} // verus!
