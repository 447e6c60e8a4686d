//! Squares and square geometry.
//!
//! Squares are numbered 0..=63 from White's side: a1 = 0, b1 = 1, ..., h1 = 7,
//! a2 = 8, ..., h8 = 63. A square's rank is `sq / 8` and its file is `sq % 8`.
#![allow(non_snake_case)]
use vstd::prelude::*;

verus! {

pub open spec fn valid_sq(sq: int) -> bool {
    0 <= sq < 64
}

pub open spec fn sq_rank(sq: int) -> int {
    sq / 8
}

pub open spec fn sq_file(sq: int) -> int {
    sq % 8
}

pub open spec fn spec_north_of(sq: int) -> Option<i32> {
    if sq_rank(sq) == 7 {
        None
    } else {
        Some((sq + 8) as i32)
    }
}

pub open spec fn spec_south_of(sq: int) -> Option<i32> {
    if sq_rank(sq) == 0 {
        None
    } else {
        Some((sq - 8) as i32)
    }
}

pub open spec fn spec_east_of(sq: int) -> Option<i32> {
    if sq_file(sq) == 7 {
        None
    } else {
        Some((sq + 1) as i32)
    }
}

pub open spec fn spec_west_of(sq: int) -> Option<i32> {
    if sq_file(sq) == 0 {
        None
    } else {
        Some((sq - 1) as i32)
    }
}

pub open spec fn spec_north_east_of(sq: int) -> Option<i32> {
    if sq_rank(sq) == 7 || sq_file(sq) == 7 {
        None
    } else {
        Some((sq + 9) as i32)
    }
}

pub open spec fn spec_north_west_of(sq: int) -> Option<i32> {
    if sq_rank(sq) == 7 || sq_file(sq) == 0 {
        None
    } else {
        Some((sq + 7) as i32)
    }
}

pub open spec fn spec_south_east_of(sq: int) -> Option<i32> {
    if sq_rank(sq) == 0 || sq_file(sq) == 7 {
        None
    } else {
        Some((sq - 7) as i32)
    }
}

pub open spec fn spec_south_west_of(sq: int) -> Option<i32> {
    if sq_rank(sq) == 0 || sq_file(sq) == 0 {
        None
    } else {
        Some((sq - 9) as i32)
    }
}

fn A_FILE(sq: i32) -> (r: bool)
    requires
        valid_sq(sq as int),
    ensures
        r == (sq_file(sq as int) == 0),
{
    sq % 8 == 0
}

fn H_FILE(sq: i32) -> (r: bool)
    requires
        valid_sq(sq as int),
    ensures
        r == (sq_file(sq as int) == 7),
{
    sq % 8 == 7
}

fn FIRST_RANK(sq: i32) -> (r: bool)
    requires
        valid_sq(sq as int),
    ensures
        r == (sq_rank(sq as int) == 0),
{
    sq / 8 == 0
}

fn EIHGHT_RANK(sq: i32) -> (r: bool)
    requires
        valid_sq(sq as int),
    ensures
        r == (sq_rank(sq as int) == 7),
{
    sq / 8 == 7
}

pub fn NORTH_OF(sq: i32) -> (r: Option<i32>)
    requires
        valid_sq(sq as int),
    ensures
        r == spec_north_of(sq as int),
        r is Some ==> valid_sq(r.unwrap() as int),
{
    if EIHGHT_RANK(sq) {
        None
    } else {
        Some(sq + 8)
    }
}

pub fn NORTH_WEST_OF(sq: i32) -> (r: Option<i32>)
    requires
        valid_sq(sq as int),
    ensures
        r == spec_north_west_of(sq as int),
        r is Some ==> valid_sq(r.unwrap() as int),
{
    if EIHGHT_RANK(sq) || A_FILE(sq) {
        None
    } else {
        Some(sq + 7)
    }
}

pub fn NORTH_EAST_OF(sq: i32) -> (r: Option<i32>)
    requires
        valid_sq(sq as int),
    ensures
        r == spec_north_east_of(sq as int),
        r is Some ==> valid_sq(r.unwrap() as int),
{
    if EIHGHT_RANK(sq) || H_FILE(sq) {
        None
    } else {
        Some(sq + 9)
    }
}

pub fn SOUTH_OF(sq: i32) -> (r: Option<i32>)
    requires
        valid_sq(sq as int),
    ensures
        r == spec_south_of(sq as int),
        r is Some ==> valid_sq(r.unwrap() as int),
{
    if FIRST_RANK(sq) {
        None
    } else {
        Some(sq - 8)
    }
}

pub fn SOUTH_WEST_OF(sq: i32) -> (r: Option<i32>)
    requires
        valid_sq(sq as int),
    ensures
        r == spec_south_west_of(sq as int),
        r is Some ==> valid_sq(r.unwrap() as int),
{
    if FIRST_RANK(sq) || A_FILE(sq) {
        None
    } else {
        Some(sq - 9)
    }
}

pub fn SOUTH_EAST_OF(sq: i32) -> (r: Option<i32>)
    requires
        valid_sq(sq as int),
    ensures
        r == spec_south_east_of(sq as int),
        r is Some ==> valid_sq(r.unwrap() as int),
{
    if FIRST_RANK(sq) || H_FILE(sq) {
        None
    } else {
        Some(sq - 7)
    }
}

pub fn EAST_OF(sq: i32) -> (r: Option<i32>)
    requires
        valid_sq(sq as int),
    ensures
        r == spec_east_of(sq as int),
        r is Some ==> valid_sq(r.unwrap() as int),
{
    if H_FILE(sq) {
        None
    } else {
        Some(sq + 1)
    }
}

pub fn WEST_OF(sq: i32) -> (r: Option<i32>)
    requires
        valid_sq(sq as int),
    ensures
        r == spec_west_of(sq as int),
        r is Some ==> valid_sq(r.unwrap() as int),
{
    if A_FILE(sq) {
        None
    } else {
        Some(sq - 1)
    }
}

pub fn GET_SQ(row: i32, col: i32) -> (r: i32)
    requires
        0 <= row < 8,
        0 <= col < 8,
    ensures
        r == row * 8 + col,
        valid_sq(r as int),
{
    row * 8 + col
}

/// The file letter of a square: 'a' for file 0 through 'h' for file 7.
pub open spec fn spec_file_char(sq: int) -> char {
    ((97 + sq_file(sq)) as u8) as char
}

/// The rank digit of a square: '1' for rank 0 through '8' for rank 7.
pub open spec fn spec_rank_char(sq: int) -> char {
    ((49 + sq_rank(sq)) as u8) as char
}

pub fn file_char(sq: i32) -> (c: char)
    requires
        valid_sq(sq as int),
    ensures
        c == spec_file_char(sq as int),
{
    (97 + (sq % 8) as u8) as char
}

pub fn rank_char(sq: i32) -> (c: char)
    requires
        valid_sq(sq as int),
    ensures
        c == spec_rank_char(sq as int),
{
    (49 + (sq / 8) as u8) as char
}

/// The square named by a file letter 'a'..='h' and a rank digit '1'..='8',
/// or `None` if either character is out of range.
pub open spec fn spec_sq_from_chars(f: char, r: char) -> Option<i32> {
    if 'a' <= f <= 'h' && '1' <= r <= '8' {
        Some(((r as int - 49) * 8 + (f as int - 97)) as i32)
    } else {
        None
    }
}

pub fn sq_from_chars(f: char, r: char) -> (res: Option<i32>)
    ensures
        res == spec_sq_from_chars(f, r),
        res is Some ==> valid_sq(res.unwrap() as int),
{
    if 'a' <= f && f <= 'h' && '1' <= r && r <= '8' {
        let fi = f as u32;
        let ri = r as u32;
        Some(((ri - 49) * 8 + (fi - 97)) as i32)
    } else {
        None
    }
}

} // verus!
