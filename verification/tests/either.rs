use rxy_core::either::{Either, EitherExt};
use rxy_core::x_if::x_if_else;

#[test]
fn either_ext_wraps_on_each_side() {
    let l: Either<u8, &str> = 3u8.either_left();
    let r: Either<&str, u8> = 3u8.either_right();
    assert_eq!(l, Either::Left(3));
    assert_eq!(r, Either::Right(3));
}

#[test]
fn either_maps_one_side_only() {
    let l: Either<u8, u8> = Either::Left(2);
    assert_eq!(l.map_left(|x: u8| x as u32 * 10), Either::Left(20u32));
    let r: Either<u8, u8> = Either::Right(2);
    assert_eq!(r.map_left(|x: u8| x as u32 * 10), Either::<u32, u8>::Right(2));
    assert_eq!(r.map_right(|x: u8| x + 1), Either::<u8, u8>::Right(3));
    assert_eq!(Either::<u8, u8>::Left(4).map(|x: u8| x * 2), Either::<u8, u8>::Left(8));
}

#[test]
fn either_unwraps_and_converts() {
    assert_eq!(Either::<u8, bool>::Left(1).unwrap_left(), 1);
    assert!(Either::<u8, bool>::Right(true).unwrap_right());
    assert_eq!(Either::<u8, u8>::Right(5).into_inner(), 5);
    let ok: Result<u8, bool> = Ok(1);
    let err: Result<u8, bool> = Err(false);
    assert_eq!(Either::from(ok), Either::Left(1));
    assert_eq!(Either::from(err), Either::Right(false));
    let e: Either<u8, bool> = Either::Left(7);
    assert_eq!(e.as_ref(), Either::Left(&7));
}

#[test]
fn either_keeps_the_state_keys() {
    let e: Either<(u8, u16), (u32, u64)> = Either::Right((1, 2));
    assert_eq!(e.map_to_state_key(), Either::Right(2u64));
}

#[test]
fn x_if_else_selects_by_the_condition() {
    assert_eq!(x_if_else(true, 1u8, "no"), Either::Left(1u8));
    assert_eq!(x_if_else(false, 1u8, "no"), Either::Right("no"));
}

#[test]
fn mapping_the_two_sides_commutes() {
    let f = |x: u8| x as u32 + 1;
    let g = |x: char| x.is_alphabetic();
    for e in [Either::<char, u8>::Left('a'), Either::<char, u8>::Right(4)] {
        assert_eq!(e.map_right(f).map_left(g), e.map_left(g).map_right(f));
    }
}
