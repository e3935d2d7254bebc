//! Core of a client for SQL Server's Tabular Data Stream protocol: the
//! parameter type codec, the RPC and batch request encoders, the packet
//! framer, the token decoder and the result logic that sits on top of them.
use vstd::prelude::*;

pub mod buf;
pub mod bulk;
pub mod client;
pub mod column_data;
pub mod error;
pub mod packet;
pub mod result;
pub mod rpc_request;
pub mod text;
pub mod token;


verus! {

} // verus!
