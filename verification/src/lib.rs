//! Login handshake of a legacy MMO wire protocol: the Huffman codec that
//! compresses outbound packets, and the codec and dispatcher for the
//! fixed-layout packets of the handshake. Beside them, the state and the
//! repeating timers of the game world, and the console that registers
//! timers.

pub mod cli;
pub mod huffman;
pub mod state;
pub mod tcp;
pub mod ticks;
pub mod timer;
