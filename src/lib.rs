//! Request dispatch and credential lifecycle for a multiplexing LLM proxy:
//! the verified core that decides, while the surrounding program does the I/O.

pub mod cli;
pub mod text;
pub mod tags;
pub mod pool;
pub mod error;
pub mod retry;
pub mod upstream;
pub mod validator;
pub mod stream;
pub mod connection;
