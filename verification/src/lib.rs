//! Live RTMP ingest to HTTP-FLV: the byte-level formats, the chunk-stream
//! demultiplexer, the publishing session, the stream broker and the control
//! plane, each with a machine-checked contract.

pub mod amf0;
pub mod amf0_value;
pub mod broker;
pub mod bytebuf;
pub mod chat;
pub mod chunk;
pub mod chunk_writer;
pub mod command;
pub mod config;
pub mod egress;
pub mod error;
pub mod flv;
pub mod session;
pub mod status;
pub mod stream;
pub mod stream_key;
pub mod supervisor;
pub mod transcoder;
pub mod wire;
