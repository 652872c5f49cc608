//! The rules of a passive proxy between a client and a server.
//!
//! The proxy reads every message, lets through what it can follow, and
//! writes each message out whole. It owns no connection: the code that does
//! hands it what it has read from one side and writes what it gets back to
//! the other.

use crate::error::Error;
use crate::protocol::{
    decode_c2s, decode_server_message, encode_c2s, C2SView, Encoding, Message, PixelFormat,
    SecurityType, ServerMessage, C2S,
};
use crate::wire::Reader;
use vstd::prelude::*;

pub mod handshake;

verus! {

/// Whether the proxy can follow the rectangles of an encoding: it knows
/// where their payload ends.
pub open spec fn is_followed(encoding: Encoding) -> bool {
    encoding is Raw || encoding is CopyRect || encoding is Zrle || encoding is Cursor
        || encoding is DesktopSize
}

/// The encodings of a list that the proxy can follow, in their order.
pub open spec fn followed(encodings: Seq<Encoding>) -> Seq<Encoding> {
    encodings.filter(|e: Encoding| is_followed(e))
}

/// The security types of a list that the proxy can follow: those that ask
/// for no authentication.
pub open spec fn open_types(types: Seq<SecurityType>) -> Seq<SecurityType> {
    types.filter(|t: SecurityType| t is NoAuthentication)
}

/// What the proxy passes on for a message of the client: the message as it
/// is, but for a list of encodings, of which it keeps what it can follow,
/// and for a change of the pixel format, which ends the session.
pub open spec fn passed_c2s(message: C2SView) -> Result<C2SView, Error> {
    match message {
        C2SView::SetPixelFormat(_) => Err(Error::Unexpected("SetPixelFormat")),
        C2SView::SetEncodings(encodings) => Ok(C2SView::SetEncodings(followed(encodings))),
        other => Ok(other),
    }
}

/// What a relay takes from one side and gives to the other.
#[derive(Debug, PartialEq, Eq)]
pub struct Relay {
    /// How many bytes of the input the message took.
    pub consumed: usize,
    /// What is to be written to the other side.
    pub forward: Vec<u8>,
}

/// The model of a `Relay`.
pub struct RelayView {
    pub consumed: nat,
    pub forward: Seq<u8>,
}

impl View for Relay {
    type V = RelayView;

    open spec fn view(&self) -> RelayView {
        RelayView { consumed: self.consumed as nat, forward: self.forward@ }
    }
}

/// The relay of the message of the client that `input` starts with.
pub open spec fn relayed_c2s(input: Seq<u8>) -> Result<RelayView, Error> {
    match decode_c2s(input) {
        Err(e) => Err(e),
        Ok((message, n)) => match passed_c2s(message) {
            Err(e) => Err(e),
            Ok(passed) => Ok(RelayView { consumed: n, forward: encode_c2s(passed) }),
        },
    }
}

/// The relay of the message of the server that `input` starts with: the
/// bytes of the whole message, as they came.
pub open spec fn relayed_s2c(format: PixelFormat, input: Seq<u8>) -> Result<RelayView, Error> {
    match decode_server_message(format, input) {
        Err(e) => Err(e),
        Ok((message, n)) => Ok(RelayView { consumed: n, forward: input.subrange(0, n as int) }),
    }
}

/// How a session of the proxy ended, from how its two directions ended:
/// well where both sides hung up, else with the error of the direction from
/// the client, or with that of the other where the client just hung up.
pub open spec fn joined(from_client: Error, from_server: Error) -> Result<(), Error> {
    if !(from_client is Disconnected) {
        Err(from_client)
    } else if !(from_server is Disconnected) {
        Err(from_server)
    } else {
        Ok(())
    }
}

/// Whether the proxy can follow the rectangles of an encoding.
pub fn can_follow(encoding: &Encoding) -> (yes: bool)
    ensures
        yes == is_followed(*encoding),
{
    match encoding {
        Encoding::Raw => true,
        Encoding::CopyRect => true,
        Encoding::Zrle => true,
        Encoding::Cursor => true,
        Encoding::DesktopSize => true,
        _ => false,
    }
}

/// The encodings of a list that the proxy can follow.
pub fn filter_encodings(encodings: &Vec<Encoding>) -> (kept: Vec<Encoding>)
    ensures
        kept@ == followed(encodings@),
{
    let mut kept: Vec<Encoding> = Vec::new();
    let mut i: usize = 0;
    let ghost keep = |e: Encoding| is_followed(e);
    assert(encodings@.subrange(0, 0) =~= Seq::<Encoding>::empty());
    proof {
        reveal(Seq::filter);
    }
    while i < encodings.len()
        invariant
            i <= encodings.len(),
            keep == |e: Encoding| is_followed(e),
            kept@ == encodings@.subrange(0, i as int).filter(keep),
        decreases encodings.len() - i,
    {
        proof {
            reveal(Seq::filter);
            assert(encodings@.subrange(0, i + 1).drop_last() =~= encodings@.subrange(0, i as int));
        }
        if can_follow(&encodings[i]) {
            kept.push(encodings[i]);
        }
        i = i + 1;
    }
    assert(encodings@.subrange(0, i as int) =~= encodings@);
    kept
}

/// The security types of a list that ask for no authentication.
pub fn filter_security_types(types: &Vec<SecurityType>) -> (kept: Vec<SecurityType>)
    ensures
        kept@ == open_types(types@),
{
    let mut kept: Vec<SecurityType> = Vec::new();
    let mut i: usize = 0;
    let ghost keep = |t: SecurityType| t is NoAuthentication;
    assert(types@.subrange(0, 0) =~= Seq::<SecurityType>::empty());
    proof {
        reveal(Seq::filter);
    }
    while i < types.len()
        invariant
            i <= types.len(),
            keep == |t: SecurityType| t is NoAuthentication,
            kept@ == types@.subrange(0, i as int).filter(keep),
        decreases types.len() - i,
    {
        proof {
            reveal(Seq::filter);
            assert(types@.subrange(0, i + 1).drop_last() =~= types@.subrange(0, i as int));
        }
        match types[i] {
            SecurityType::NoAuthentication => kept.push(types[i]),
            _ => {},
        }
        i = i + 1;
    }
    assert(types@.subrange(0, i as int) =~= types@);
    kept
}

/// Relays one message of the client.
pub fn relay_c2s(input: &[u8]) -> (r: Result<Relay, Error>)
    ensures
        match relayed_c2s(input@) {
            Ok(relay) => r matches Ok(v) && v@ == relay,
            Err(e) => r matches Err(e2) && e2 == e,
        },
{
    let mut reader = Reader::new(input);
    let message = C2S::read_from(&mut reader)?;
    let passed = match message {
        C2S::SetPixelFormat(_) => {
            return Err(Error::Unexpected("SetPixelFormat"));
        },
        C2S::SetEncodings(encodings) => C2S::SetEncodings(filter_encodings(&encodings)),
        other => other,
    };
    let mut forward: Vec<u8> = Vec::new();
    let _ = passed.write_to(&mut forward);
    assert(forward@ =~= encode_c2s(passed@));
    Ok(Relay { consumed: reader.position(), forward })
}

/// Relays one message of the server, in a session with the pixel format `format`.
pub fn relay_s2c(format: &PixelFormat, input: &[u8]) -> (r: Result<Relay, Error>)
    ensures
        match relayed_s2c(*format, input@) {
            Ok(relay) => r matches Ok(v) && v@ == relay,
            Err(e) => r matches Err(e2) && e2 == e,
        },
{
    let mut reader = Reader::new(input);
    let _ = ServerMessage::read_from(&mut reader, format)?;
    let consumed = reader.position();
    let forward = vstd::slice::slice_to_vec(vstd::slice::slice_subrange(input, 0, consumed));
    Ok(Relay { consumed, forward })
}

/// How a session of the proxy ended, from the errors that ended its two directions.
pub fn join(from_client: Error, from_server: Error) -> (r: Result<(), Error>)
    ensures
        r == joined(from_client, from_server),
{
    match from_client {
        Error::Disconnected => match from_server {
            Error::Disconnected => Ok(()),
            e => Err(e),
        },
        e => Err(e),
    }
}

} // verus!
