use cfg_logic::utils::VecExt;
use cfg_logic::numeric::{
    extending_cast, numeric_cast, truncating_cast, wrapping_cast, ExtendingCast, NumericCast, TruncatingCast,
    WrappingCast,
};

#[test]
fn extending() {
    let x: i8 = -1;
    let y: i16 = extending_cast(x);
    assert_eq!(y, -1);

    let y: u32 = 255u8.extending_cast();
    assert_eq!(y, 255);

    let y = 255u8.extending_cast::<u32>();
    assert_eq!(y, 255);
}

#[test]
fn lossless_nop() {
    let x: i8 = 127;
    let y = x.numeric_cast::<i8>();
    assert_eq!(y, 127);
}

#[test]
fn extend() {
    let x: i8 = 127;
    let y = x.numeric_cast::<i16>();
    assert_eq!(y, 127);
}

#[test]
fn truncate() {
    let x: i16 = 127;

    let y = x.numeric_cast::<i8>();
    assert_eq!(y, 127);

    let y: i8 = numeric_cast(x);
    assert_eq!(y, 127);
}

#[test]
fn truncating() {
    let x: i16 = -1;
    let y: i8 = truncating_cast(x);
    assert_eq!(y, -1);

    let y: u8 = 256u32.truncating_cast();
    assert_eq!(y, 0);

    let y = 257u16.truncating_cast::<u8>();
    assert_eq!(y, 1);
}

#[test]
fn wrapping() {
    let x: i8 = -1;

    let y: u8 = x.wrapping_cast();
    assert_eq!(y, 255);

    let y = wrapping_cast(usize::MAX / 2);
    assert_eq!(y, isize::MAX);

    let y: usize = wrapping_cast(isize::MAX);
    assert_eq!(y, usize::MAX / 2);
}

#[test]
fn lossless_across_signedness() {
    let x: u64 = 1024;
    let y: usize = x.numeric_cast();
    assert_eq!(y, 1024);
    let z: i128 = numeric_cast(-5i32);
    assert_eq!(z, -5);
}

fn o<T: ToOwned + ?Sized>(x: &T) -> T::Owned {
    x.to_owned()
}

#[test]
fn test_insert_vec() {
    {
        let mut v = vec![1, 2, 3, 4, 5];
        v.insert_vec(2, vec![6, 7, 8]);
        assert_eq!(v, vec![1, 2, 6, 7, 8, 3, 4, 5]);
    }

    // owned strings
    {
        let mut v = vec![o("a"), o("b"), o("c"), o("d"), o("e")];
        v.insert_vec(2, vec![o("f"), o("g"), o("h")]);
        assert_eq!(v, vec![o("a"), o("b"), o("f"), o("g"), o("h"), o("c"), o("d"), o("e")]);
    }
}

#[test]
fn drain_filter_partitions() {
    let mut v = vec![1, 2, 3, 4, 5, 6];
    let even = cfg_logic::utils::drain_filter(&mut v, |x: &i32| x % 2 == 0);
    assert_eq!(even, vec![2, 4, 6]);
    assert_eq!(v, vec![1, 3, 5]);
}
