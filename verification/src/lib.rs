use vstd::prelude::*;

pub mod archconfig;
pub mod commands;
pub mod complementos;
pub mod helper;
pub mod conflictos;
pub mod conjunto;
pub mod entorno;
pub mod hardware;
pub mod layout;
pub mod orden;
pub mod probe;
pub mod protocol;
pub mod teclado;
pub mod texto;
pub mod validar;

verus! {

} // verus!
