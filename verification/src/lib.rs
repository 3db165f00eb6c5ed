//! Dispatch core of a unary RPC server that speaks JSON or a binary layout
//! over HTTP POST: schema registry, codec, routing and error mapping.
//!
//! A server describes its services ([`schema`]), registers them with one
//! handler for each method ([`dispatch::DispatcherBuilder`]) and seals the
//! builder. The [`dispatch::Dispatcher`] that comes out answers raw requests:
//! it finds the method at the path of the request ([`registry`]), decodes
//! the body in the format that the content type names ([`codec`]), runs the
//! handler, and encodes the response in the same format or reports the
//! error ([`error`]). [`hello`] is the greeting service that the server
//! ships with.

pub mod codec;
pub mod dispatch;
pub mod error;
pub mod hello;
pub mod registry;
pub mod schema;
pub mod wire;
