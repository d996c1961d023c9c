#![allow(unused_imports)]

pub mod config;
pub mod errors;
pub mod expect;
pub mod jwt;
pub mod output;
pub mod rng;
pub mod runner;
pub mod transform;
