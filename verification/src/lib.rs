//! A proxy for the PROXY protocol over UDP, in two modes.
//!
//! `mmproxy` takes datagrams from trusted proxy servers, takes the PROXY header off and speaks with
//! the server from the client's own address. The reverse proxy stands on the other side: it puts a
//! header in front of each datagram of a client and passes it on.
//!
//! The library holds what the two modes decide: the command line, the headers, which origins are
//! allowed, how sockets are prepared and what becomes of each datagram. It opens no socket and
//! reads no file.
pub mod addr;
pub mod args;
pub mod header;
pub mod relay;
pub mod socket;
pub mod subnet;
pub mod text;
