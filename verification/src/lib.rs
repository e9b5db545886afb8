//! A small toolkit of verified puzzle solvers built around one central
//! component: a virtual machine (the "processor") that interprets a
//! stack-free, register-free instruction set over a flat, growable memory
//! of signed 64-bit words.

pub mod cpu;
pub mod day01;
pub mod day02;
pub mod day03;
pub mod day05;
pub mod day06;
pub mod day07;
pub mod day10;
pub mod day11;
pub mod day04;
pub mod day12;
pub mod day14;
pub mod day15;
pub mod day16;
pub mod errors;
pub mod text;
