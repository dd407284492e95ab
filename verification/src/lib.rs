//! A small persistent key-value store: the parsing of user commands, the
//! in-memory database, the on-disk data and log formats and the protocol
//! spoken between the client and the server.
pub mod minikv;
pub mod cliente;
pub mod servidor;
pub mod guia1;
