//! The ChaCha20 stream cipher: the 20-round block function over a 16-word
//! state and a keystream driver that combines it with data by exclusive-or.

pub mod block;
pub mod stream;

pub use block::{chacha20_block, double_round, quarter_round, round, set_band};
pub use stream::{ChaCha20, CipherError};
