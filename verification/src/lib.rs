//! A client library for the Coinbase Pro exchange: request building and
//! signing, websocket framing, subscription requests and a level-2 order book.
pub mod outside;
pub mod text;
pub mod errors;
pub mod websocket_lite;
pub mod crypto;
pub mod datastructs;
pub mod order_book;
pub mod api;
pub mod requests;
pub mod mocked;
