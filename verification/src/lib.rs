//! Verified core of a small retail inventory manager.
//!
//! The crate models a catalog of branded products, their stock levels and
//! point-of-sale transactions recorded against that stock.  The heart of the
//! library is the sale recording engine: converting a cart of line items into
//! a sale record while guaranteeing that stock never goes negative and that a
//! failed sale leaves no visible side effect.  All monetary amounts are held
//! as integer cents, timestamps as integer seconds and dates as integer day
//! numbers, so that every rule can be stated and proved exactly.

pub mod almacen;
pub mod inventory;
pub mod marcas;
pub mod models;
pub mod orden;
pub mod productos;
pub mod sku;
pub mod texto;
pub mod usuarios;
pub mod ventas;
