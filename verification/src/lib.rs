//! A chess position core: coordinate codec, position model, FEN-style
//! interchange codec, and a move-legality engine.
pub mod board;
pub mod coord;
pub mod fen;
pub mod rules;
