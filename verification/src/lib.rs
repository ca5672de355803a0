pub mod classify;
pub mod encoder;
pub mod format;
pub mod text;
pub mod token;
pub mod tokenizer;

pub use classify::{classify, is_ctrl, is_digit, is_letter_or_symbol, ByteClass};
pub use encoder::{encode, encode_bytes, encode_tokens, Code};
pub use text::push_bytes;
pub use token::{convert_vec, StrChar, Token};
pub use tokenizer::{chunk, InvalidByteError, Tokenizer};
