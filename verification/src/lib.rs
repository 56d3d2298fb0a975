//! Reading of FBX binary documents: a pull parser for the byte stream and the
//! tree that a loaded document is kept in.
pub mod dom;
pub mod low;
pub mod pull_parser;
