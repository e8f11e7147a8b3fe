//! Core of the KOC game client: the BON binary object codec, the payload
//! ciphers, the game message envelope and the pure decision rules that the
//! scheduler and the command-line tools are built on.

pub mod value;
pub mod bytes_io;
pub mod text;
pub mod b64;
pub mod float_bits;
pub mod bon;
pub mod bon_laws;
pub mod crypto;
pub mod protocol;
pub mod error_codes;
pub mod lookup;
pub mod kpi;
pub mod config;
pub mod maintenance;
pub mod wildcard;
pub mod proxy_capture;
pub mod study;
pub mod state;
pub mod cli_context;
pub mod cli_evotower;
pub mod http_client;
pub mod scheduler;
pub mod car;
pub mod koc;
pub mod tower;
pub mod daily;
pub mod cli_monthly;
pub mod dream;
pub mod websocket;
pub mod proxy;
pub mod catalog;
pub mod batch;
pub mod shape;
