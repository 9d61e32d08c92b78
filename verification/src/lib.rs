use vstd::prelude::*;

pub mod text;
pub mod json;
pub mod vk;
pub mod adapter;
pub mod keymap;
pub mod strmap;
pub mod hub_core;
pub mod deck;
pub mod inspector;
pub mod hub;
pub mod protocol;
pub mod startup;
pub mod qr;

verus! {

} // verus!
