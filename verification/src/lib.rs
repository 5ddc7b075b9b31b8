//! A multi-user remote filesystem library.
//!
//! The server side keeps an in-memory namespace tree shadowing a per-user
//! directory, a metadata catalog of per-path ownership and permissions, a
//! credential store with hashed passwords, and a token service issuing signed
//! bearer tokens.  The client side keeps the inode-to-path bijection that a
//! kernel filesystem driver needs and the pure decision logic of each kernel
//! callback.  Everything stated here is verified; calls into outside crates
//! (password hashing, token signing, timestamps) stand behind small trusted
//! wrappers whose contracts name what those crates compute.

pub mod error;
pub mod text;
pub mod perm;
pub mod catalog;
pub mod clock;
pub mod auth;
pub mod tree;
pub mod serverfs;
pub mod client;
pub mod router;
