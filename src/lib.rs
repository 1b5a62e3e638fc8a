//! Servers for a handful of small line and datagram protocols, centred on a
//! chat room in which every member's connection relays what the others say.
pub mod acceptor;
pub mod chat;
pub mod config;
pub mod means_to_an_end;
pub mod number;
pub mod prime_time;
pub mod smoke_test;
pub mod text;
pub mod unusual_database_program;
pub mod utils;
