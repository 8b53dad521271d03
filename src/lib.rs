//! Length-prefixed, zero-padded byte packets ("bytes wire packets"): their
//! format, the state machine that streams one packet into a sink, and the Nix
//! archive format written as a stream of such packets. Beside them stand the
//! plain data the rest of the toolchain hands around: digests, evaluator values
//! and upvalues, inode data and the command line.

pub mod args;
pub mod bytes_writer;
pub mod digests;
pub mod inodes;
pub mod nar;
pub mod upvalues;
pub mod value;
pub mod wire;
