//! Errors of the request/response protocols and what they cost a peer.

use crate::score::PeerAction;
use crate::types::ConnectionDirection;
use vstd::prelude::*;

verus! {

/// The request/response protocols.
#[derive(Clone, Copy, Debug, PartialEq, Eq, Structural)]
pub enum Protocol {
    Status,
    Goodbye,
    Ping,
    DataByHash,
    AnswerFile,
    GetChunks,
}

/// The error codes that a peer can answer a request with.
#[derive(Clone, Copy, Debug, PartialEq, Eq, Structural)]
pub enum RPCResponseErrorCode {
    RateLimited,
    InvalidRequest,
    ServerError,
    ResourceUnavailable,
    Unknown,
}

/// What can go wrong with a request or its response. The texts are for the
/// reader of a log; nothing is decided on them.
#[derive(Debug)]
pub enum RPCError {
    /// The bytes received could not be decoded.
    SSZDecodeError(String),
    /// Reading or writing failed.
    IoError(String),
    /// The peer answered with an error code.
    ErrorResponse(RPCResponseErrorCode, String),
    /// The stream timed out.
    StreamTimeout,
    /// The peer does not speak the protocol.
    UnsupportedProtocol,
    /// The stream ended before the response was complete.
    IncompleteStream,
    /// The peer sent data that the protocol does not allow.
    InvalidData(String),
    /// An error within this node.
    InternalError(String),
    /// The negotiation of the protocol timed out.
    NegotiationTimeout,
    /// This node's handler rejected the request.
    HandlerRejected,
    /// The peer disconnected in good order.
    Disconnected,
}

/// What an error on `protocol` costs the peer; `None` where the peer is not
/// reported. `direction` says who opened the stream on which it happened.
pub open spec fn rpc_error_action(
    protocol: Protocol,
    error: RPCError,
    direction: ConnectionDirection,
) -> Option<PeerAction> {
    match error {
        RPCError::IncompleteStream => Some(PeerAction::MidToleranceError),
        RPCError::InternalError(_) => None,
        RPCError::HandlerRejected => None,
        RPCError::InvalidData(_) => Some(PeerAction::Fatal),
        RPCError::IoError(_) => Some(PeerAction::HighToleranceError),
        RPCError::ErrorResponse(code, _) => match code {
            RPCResponseErrorCode::Unknown => Some(PeerAction::HighToleranceError),
            RPCResponseErrorCode::ResourceUnavailable => Some(PeerAction::Fatal),
            RPCResponseErrorCode::ServerError => Some(PeerAction::MidToleranceError),
            RPCResponseErrorCode::InvalidRequest => Some(PeerAction::HighToleranceError),
            RPCResponseErrorCode::RateLimited => match protocol {
                Protocol::Ping => Some(PeerAction::MidToleranceError),
                Protocol::Goodbye => Some(PeerAction::LowToleranceError),
                Protocol::Status => Some(PeerAction::LowToleranceError),
                Protocol::DataByHash => Some(PeerAction::MidToleranceError),
                Protocol::AnswerFile => Some(PeerAction::MidToleranceError),
                Protocol::GetChunks => Some(PeerAction::MidToleranceError),
            },
        },
        RPCError::SSZDecodeError(_) => Some(PeerAction::Fatal),
        RPCError::UnsupportedProtocol => match protocol {
            Protocol::Ping => Some(PeerAction::Fatal),
            Protocol::Goodbye => None,
            Protocol::Status => Some(PeerAction::LowToleranceError),
            Protocol::DataByHash => None,
            Protocol::AnswerFile => None,
            Protocol::GetChunks => None,
        },
        RPCError::StreamTimeout => match direction {
            ConnectionDirection::Incoming => None,
            ConnectionDirection::Outgoing => match protocol {
                Protocol::Ping => Some(PeerAction::LowToleranceError),
                Protocol::Goodbye => None,
                Protocol::Status => None,
                Protocol::DataByHash => Some(PeerAction::MidToleranceError),
                Protocol::AnswerFile => Some(PeerAction::MidToleranceError),
                Protocol::GetChunks => Some(PeerAction::MidToleranceError),
            },
        },
        RPCError::NegotiationTimeout => Some(PeerAction::LowToleranceError),
        RPCError::Disconnected => None,
    }
}

/// What an error on `protocol` costs the peer; `None` where the peer is not
/// reported.
pub fn action_for_rpc_error(
    protocol: Protocol,
    error: &RPCError,
    direction: ConnectionDirection,
) -> (action: Option<PeerAction>)
    ensures
        action == rpc_error_action(protocol, *error, direction),
{
    match error {
        // The peer closed early: the connection may be poor.
        RPCError::IncompleteStream => Some(PeerAction::MidToleranceError),
        RPCError::InternalError(_) => None,
        // This node's fault.
        RPCError::HandlerRejected => None,
        // The peer does not keep to the protocol.
        RPCError::InvalidData(_) => Some(PeerAction::Fatal),
        // Either side may be at fault.
        RPCError::IoError(_) => Some(PeerAction::HighToleranceError),
        RPCError::ErrorResponse(code, _) => match code {
            RPCResponseErrorCode::Unknown => Some(PeerAction::HighToleranceError),
            // A peer that cannot serve what is asked of it is of no use
            // until it has caught up.
            RPCResponseErrorCode::ResourceUnavailable => Some(PeerAction::Fatal),
            RPCResponseErrorCode::ServerError => Some(PeerAction::MidToleranceError),
            RPCResponseErrorCode::InvalidRequest => Some(PeerAction::HighToleranceError),
            RPCResponseErrorCode::RateLimited => match protocol {
                Protocol::Ping => Some(PeerAction::MidToleranceError),
                Protocol::Goodbye => Some(PeerAction::LowToleranceError),
                Protocol::Status => Some(PeerAction::LowToleranceError),
                Protocol::DataByHash => Some(PeerAction::MidToleranceError),
                Protocol::AnswerFile => Some(PeerAction::MidToleranceError),
                Protocol::GetChunks => Some(PeerAction::MidToleranceError),
            },
        },
        RPCError::SSZDecodeError(_) => Some(PeerAction::Fatal),
        // Not to speak a protocol is no attack, but without some of them a
        // peer is of no use.
        RPCError::UnsupportedProtocol => match protocol {
            Protocol::Ping => Some(PeerAction::Fatal),
            Protocol::Goodbye => None,
            Protocol::Status => Some(PeerAction::LowToleranceError),
            Protocol::DataByHash => None,
            Protocol::AnswerFile => None,
            Protocol::GetChunks => None,
        },
        RPCError::StreamTimeout => match direction {
            // This node was late in answering.
            ConnectionDirection::Incoming => None,
            ConnectionDirection::Outgoing => match protocol {
                Protocol::Ping => Some(PeerAction::LowToleranceError),
                Protocol::Goodbye => None,
                Protocol::Status => None,
                Protocol::DataByHash => Some(PeerAction::MidToleranceError),
                Protocol::AnswerFile => Some(PeerAction::MidToleranceError),
                Protocol::GetChunks => Some(PeerAction::MidToleranceError),
            },
        },
        RPCError::NegotiationTimeout => Some(PeerAction::LowToleranceError),
        RPCError::Disconnected => None,
    }
}

} // verus!
