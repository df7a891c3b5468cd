//! Shogi move generation on 81-square bitboards, with verified contracts.
//!
//! Squares are laid out file-major: bit `9 * file + rank` of a [`BitBoard`]
//! stands for the square on that file and rank, so square A1 (file 1, rank a)
//! is bit 0 and square I9 is bit 80.
#![allow(unused_imports)]
#![allow(non_snake_case)]

pub mod color;
pub mod file;
pub mod rank;
pub mod square;
pub mod bits;
pub mod bitboard;
pub mod piece;
pub mod shogi_move;
pub mod attacks;
pub mod board;
pub mod sliders;
