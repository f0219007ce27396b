//! BIP32 child indexes, derivation paths, derivation ranges and the
//! `[xpub]/path/ranges` derivation-components descriptor, with their
//! parsers and text forms.

pub mod text;
pub mod error;
pub mod index;
pub mod btc;
pub mod path;
pub mod range;
pub mod xpub;
pub mod slip;
pub mod branch;
pub mod grammar;
pub mod components;
pub mod template;
