//! A small RPC framework: a type schema registry shared by the server's codec and
//! the generated clients, the per-call execution state machine, the streaming
//! frame format, request admission, and the code generator that writes a
//! TypeScript client: its reachability and naming passes and the text it emits.

pub mod text;
pub mod schema;
pub mod registry;
pub mod type_id;
pub mod message;
pub mod reach;
pub mod naming;
pub mod typescript;
pub mod doc;
pub mod interface;
pub mod check_names;
pub mod closure;
pub mod decoder;
pub mod encoder;
pub mod stub;
pub mod binding;
pub mod frame;
pub mod call;
pub mod request;
