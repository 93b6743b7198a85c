//! The server's protocol: frames, requests, tools and what they answer.
pub mod embedding_service;
pub mod http;
pub mod provider;
pub mod server;
pub mod tools;
pub mod transport;
