//! The request and reply types of the cache protocol.
use vstd::prelude::*;

verus! {

/// A request to a cache server.
#[derive(Debug, Clone)]
pub enum Command {
    Get(String),
    Put(String, Vec<u8>, u32),
    Delete(String),
    Peer,
    Ping,
    Stats,
    Clear,
}

/// A server's reply.
#[derive(Debug, Clone)]
pub enum Response {
    Data(Vec<u8>),
    Error(String),
    Pong,
}

/// The mathematical content of a [`Command`].
pub enum CommandView {
    Get(Seq<char>),
    Put(Seq<char>, Seq<u8>, u32),
    Delete(Seq<char>),
    Peer,
    Ping,
    Stats,
    Clear,
}

/// The mathematical content of a [`Response`].
pub enum ResponseView {
    Data(Seq<u8>),
    Error(Seq<char>),
    Pong,
}

impl View for Command {
    type V = CommandView;

    open spec fn view(&self) -> CommandView {
        match self {
            Command::Get(k) => CommandView::Get(k@),
            Command::Put(k, v, t) => CommandView::Put(k@, v@, *t),
            Command::Delete(k) => CommandView::Delete(k@),
            Command::Peer => CommandView::Peer,
            Command::Ping => CommandView::Ping,
            Command::Stats => CommandView::Stats,
            Command::Clear => CommandView::Clear,
        }
    }
}

impl View for Response {
    type V = ResponseView;

    open spec fn view(&self) -> ResponseView {
        match self {
            Response::Data(d) => ResponseView::Data(d@),
            Response::Error(m) => ResponseView::Error(m@),
            Response::Pong => ResponseView::Pong,
        }
    }
}

} // verus!
