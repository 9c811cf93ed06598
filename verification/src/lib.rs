//! Quire's screen logic: keys, games, the dictionary reader, the word cursor and the
//! Bookshop catalog format, each stated and proved against a model.

pub mod keys;

pub use keys::{Key, KeyEvent, KeyKind};
pub mod dict;
pub mod textutil;
pub mod bookshop;
pub mod games;
pub mod words;
pub mod cursor;
pub mod settings;
pub mod icons;
pub mod net;
pub mod reader;
pub mod screens;
pub mod qr;
pub mod ui;
