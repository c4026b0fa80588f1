//! A cursor over source text for hand-written tokenizers: it consumes
//! characters with one character of lookahead, keeps byte offset, line and
//! column up to date, and cuts tokens as exact pieces of the source.
pub mod charbool;
pub mod err;
pub mod inner_token;
pub mod laws;
pub mod pos;
pub mod text;

pub use charbool::CharBool;
pub use err::TErr;
pub use inner_token::{InnerTokenizer, Token, TokenRes};
pub use pos::Pos;
