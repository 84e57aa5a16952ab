//! Control messages exchanged over the transfer stream.
//!
//! Four variants travel as structured text frames; raw upload bytes travel as
//! binary frames and are never control messages.  [`crate::codec`] gives the
//! text-frame representation.

use vstd::prelude::*;

verus! {

/// A client announces intent to send a file.
#[derive(Debug, PartialEq)]
pub struct TransferRequest {
    pub file_hash: String,
    pub file_size: usize,
    pub file_name: String,
    pub file_dir: String,
}

/// Abstract view of a [`TransferRequest`].
pub ghost struct TransferRequestView {
    pub file_hash: Seq<char>,
    pub file_size: usize,
    pub file_name: Seq<char>,
    pub file_dir: Seq<char>,
}

impl View for TransferRequest {
    type V = TransferRequestView;

    open spec fn view(&self) -> TransferRequestView {
        TransferRequestView {
            file_hash: self.file_hash@,
            file_size: self.file_size,
            file_name: self.file_name@,
            file_dir: self.file_dir@,
        }
    }
}

impl Clone for TransferRequest {
    fn clone(&self) -> (r: Self)
        ensures
            r == *self,
    {
        TransferRequest {
            file_hash: self.file_hash.clone(),
            file_size: self.file_size,
            file_name: self.file_name.clone(),
            file_dir: self.file_dir.clone(),
        }
    }
}

/// The server acknowledges a request, reporting the offset to resume from.
#[derive(Debug, PartialEq)]
pub struct TransferResponse {
    pub file_hash: String,
    pub sync_size: usize,
}

/// Abstract view of a [`TransferResponse`].
pub ghost struct TransferResponseView {
    pub file_hash: Seq<char>,
    pub sync_size: usize,
}

impl View for TransferResponse {
    type V = TransferResponseView;

    open spec fn view(&self) -> TransferResponseView {
        TransferResponseView { file_hash: self.file_hash@, sync_size: self.sync_size }
    }
}

impl Clone for TransferResponse {
    fn clone(&self) -> (r: Self)
        ensures
            r == *self,
    {
        TransferResponse { file_hash: self.file_hash.clone(), sync_size: self.sync_size }
    }
}

/// A client asks that one of its mappings to this content be removed.
#[derive(Debug, PartialEq)]
pub struct DeleteRequest {
    pub file_hash: String,
}

impl View for DeleteRequest {
    type V = Seq<char>;

    open spec fn view(&self) -> Seq<char> {
        self.file_hash@
    }
}

impl Clone for DeleteRequest {
    fn clone(&self) -> (r: Self)
        ensures
            r == *self,
    {
        DeleteRequest { file_hash: self.file_hash.clone() }
    }
}

/// One control message of the transfer protocol.
#[derive(Debug, PartialEq)]
pub enum TransferControlMessage {
    Request(TransferRequest),
    Response(TransferResponse),
    Delete(TransferResponse),
    Error(String),
}

/// Abstract view of a [`TransferControlMessage`].
pub ghost enum TransferControlMessageView {
    Request(TransferRequestView),
    Response(TransferResponseView),
    Delete(TransferResponseView),
    Error(Seq<char>),
}

impl View for TransferControlMessage {
    type V = TransferControlMessageView;

    open spec fn view(&self) -> TransferControlMessageView {
        match self {
            TransferControlMessage::Request(r) => TransferControlMessageView::Request(r@),
            TransferControlMessage::Response(r) => TransferControlMessageView::Response(r@),
            TransferControlMessage::Delete(r) => TransferControlMessageView::Delete(r@),
            TransferControlMessage::Error(m) => TransferControlMessageView::Error(m@),
        }
    }
}

impl Clone for TransferControlMessage {
    fn clone(&self) -> (r: Self)
        ensures
            r == *self,
    {
        match self {
            TransferControlMessage::Request(m) => TransferControlMessage::Request(m.clone()),
            TransferControlMessage::Response(m) => TransferControlMessage::Response(m.clone()),
            TransferControlMessage::Delete(m) => TransferControlMessage::Delete(m.clone()),
            TransferControlMessage::Error(m) => TransferControlMessage::Error(m.clone()),
        }
    }
}

} // verus!
