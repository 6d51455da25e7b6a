//! Key-space primitives of a Kademlia-style distributed hash table: a fixed
//! 128-bit big-endian key, its ordering, and the XOR distance between keys.
pub mod key;
