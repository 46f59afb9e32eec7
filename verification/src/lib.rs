//! Verified core of a network-attached power distribution unit (PDU)
//! controller and of its build and flash tooling.

pub mod bytes;
pub mod config;
pub mod elf;
pub mod uf2;
pub mod codec;
pub mod storage;
pub mod auth;
pub mod gpio;
pub mod web;
pub mod text;
pub mod rp2;
pub mod paths;
pub mod ota;
pub mod plan;
