//! Kifu (shogi game record) types compatible with json-kifu-format, with
//! writers for CSA, KIF, KI2 and USI and a normalizer that resolves each move
//! against the position it is played from.

pub mod handicap;
pub mod jkf;
pub mod notation;
pub mod position;
pub mod text;
pub mod error;
pub mod usi;
pub mod engine;
pub mod normalizer;
pub mod converter;
pub mod properties;
pub mod parser;
