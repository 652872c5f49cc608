//! The handshake as the proxy sees it: each message is read from one side
//! and passed to the other, and of the security types that the server
//! offers only those that ask for no authentication.

use crate::error::{Error, ErrorView, IoError};
use crate::protocol::{
    decode_security_types, decode_server_init, decode_text, decode_version, encode_security_types,
    encode_version, Message, PixelFormat, SecurityTypes, ServerInit, Version,
};
use crate::proxy::{filter_security_types, open_types, Relay, RelayView};
use crate::wire::{be32, Reader};
use vstd::prelude::*;

verus! {

/// Where the proxy stands in the handshake. In each state one side is to speak.
#[derive(Debug, Clone, Copy, PartialEq, Eq, Structural)]
pub enum HandshakeState {
    /// The server announces its version.
    ServerVersion,
    /// The client settles on a version.
    ClientVersion,
    /// The server offers security types.
    Offer { version: Version },
    /// The client names the security type that it chose (from 3.7 on).
    Choice { version: Version },
    /// The server gives its verdict (3.8).
    Verdict,
    /// The server says why it refuses; after that the session is over.
    Reason,
    /// The client introduces itself.
    ClientInit,
    /// The server introduces itself.
    ServerInit,
    /// The handshake is over; the session runs with this pixel format.
    Running { format: PixelFormat },
    /// The server refused the client.
    Closed,
}

impl HandshakeState {
    /// Whether the next message comes from the server. In the two last
    /// states none comes any more.
    pub open spec fn server_speaks(self) -> bool {
        self is ServerVersion || self is Offer || self is Verdict || self is Reason || self
            is ServerInit
    }
}

/// What a step of the handshake leads to.
#[derive(Debug, PartialEq, Eq)]
pub struct Step {
    /// The state after the step.
    pub state: HandshakeState,
    /// What the step took, and what is to be written to the other side.
    pub relay: Relay,
}

/// The model of a `Step`.
pub struct StepView {
    pub state: HandshakeState,
    pub relay: RelayView,
}

impl View for Step {
    type V = StepView;

    open spec fn view(&self) -> StepView {
        StepView { state: self.state, relay: self.relay@ }
    }
}

/// The step that passes on the first `n` bytes of `input` as they are.
pub open spec fn pass(state: HandshakeState, input: Seq<u8>, n: nat) -> StepView {
    StepView { state, relay: RelayView { consumed: n, forward: input.subrange(0, n as int) } }
}

/// What the step from the state `state` leads to, on the input `input`
/// from the side that is to speak.
pub open spec fn advanced(state: HandshakeState, input: Seq<u8>) -> Result<StepView, ErrorView> {
    match state {
        HandshakeState::ServerVersion => match decode_version(input) {
            Err(e) => Err(e@),
            Ok((version, n)) => Ok(
                StepView {
                    state: HandshakeState::ClientVersion,
                    relay: RelayView { consumed: n, forward: encode_version(version) },
                },
            ),
        },
        HandshakeState::ClientVersion => match decode_version(input) {
            Err(e) => Err(e@),
            Ok((version, n)) => Ok(
                StepView {
                    state: HandshakeState::Offer { version },
                    relay: RelayView { consumed: n, forward: encode_version(version) },
                },
            ),
        },
        HandshakeState::Offer { version: Version::Rfb33 } => if input.len() < 4 {
            Err(ErrorView::Io(IoError::UnexpectedEof))
        } else if be32(input, 0) == 0 {
            Ok(pass(HandshakeState::Reason, input, 4))
        } else if be32(input, 0) == 1 {
            Ok(pass(HandshakeState::ClientInit, input, 4))
        } else {
            Err(ErrorView::AuthenticationUnavailable)
        },
        HandshakeState::Offer { version } => match decode_security_types(input) {
            Err(e) => Err(e@),
            Ok((types, n)) => if types.len() == 0 {
                Ok(pass(HandshakeState::Reason, input, n))
            } else if open_types(types).len() == 0 {
                Err(ErrorView::AuthenticationUnavailable)
            } else {
                Ok(
                    StepView {
                        state: HandshakeState::Choice { version },
                        relay: RelayView {
                            consumed: n,
                            forward: encode_security_types(open_types(types)),
                        },
                    },
                )
            },
        },
        HandshakeState::Choice { version } => if input.len() < 1 {
            Err(ErrorView::Io(IoError::UnexpectedEof))
        } else if input[0] != 1 {
            Err(ErrorView::Unexpected("security type"))
        } else if version is Rfb38 {
            Ok(pass(HandshakeState::Verdict, input, 1))
        } else {
            Ok(pass(HandshakeState::ClientInit, input, 1))
        },
        HandshakeState::Verdict => if input.len() < 4 {
            Err(ErrorView::Io(IoError::UnexpectedEof))
        } else if be32(input, 0) == 0 {
            Ok(pass(HandshakeState::ClientInit, input, 4))
        } else if be32(input, 0) == 1 {
            Ok(pass(HandshakeState::Reason, input, 4))
        } else {
            Err(ErrorView::Unexpected("security result"))
        },
        HandshakeState::Reason => match decode_text(input) {
            Err(e) => Err(e@),
            Ok((reason, n)) => Ok(pass(HandshakeState::Closed, input, n)),
        },
        HandshakeState::ClientInit => if input.len() < 1 {
            Err(ErrorView::Io(IoError::UnexpectedEof))
        } else {
            Ok(pass(HandshakeState::ServerInit, input, 1))
        },
        HandshakeState::ServerInit => match decode_server_init(input) {
            Err(e) => Err(e@),
            Ok((init, n)) => Ok(
                pass(HandshakeState::Running { format: init.pixel_format }, input, n),
            ),
        },
        _ => Err(ErrorView::Unexpected("handshake step")),
    }
}

/// The step that passes on what `reader` has read of `input`.
fn passing(state: HandshakeState, input: &[u8], reader: &Reader) -> (step: Step)
    requires
        reader.input() == input@,
    ensures
        step@ == pass(state, input@, reader.offset()),
{
    let consumed = reader.position();
    let forward = vstd::slice::slice_to_vec(vstd::slice::slice_subrange(input, 0, consumed));
    Step { state, relay: Relay { consumed, forward } }
}

impl HandshakeState {
    /// The state in which a handshake begins.
    pub fn start() -> (state: HandshakeState)
        ensures
            state == HandshakeState::ServerVersion,
    {
        HandshakeState::ServerVersion
    }

    /// Whether the next message comes from the server.
    pub fn awaits_server(&self) -> (yes: bool)
        ensures
            yes == self.server_speaks(),
    {
        match self {
            HandshakeState::ServerVersion => true,
            HandshakeState::Offer { .. } => true,
            HandshakeState::Verdict => true,
            HandshakeState::Reason => true,
            HandshakeState::ServerInit => true,
            _ => false,
        }
    }

    /// Makes the step that the input allows: reads the message that the
    /// state awaits from the front of `input`, which comes from the side
    /// that is to speak, and says what to write to the other side.
    pub fn advance(&self, input: &[u8]) -> (r: Result<Step, Error>)
        ensures
            match advanced(*self, input@) {
                Ok(step) => r matches Ok(v) && v@ == step,
                Err(e) => r matches Err(e2) && e2@ == e,
            },
    {
        let mut reader = Reader::new(input);
        match self {
            HandshakeState::ServerVersion => {
                let version = Version::read_from(&mut reader)?;
                let mut forward: Vec<u8> = Vec::new();
                let _ = version.write_to(&mut forward);
                assert(forward@ =~= encode_version(version));
                Ok(
                    Step {
                        state: HandshakeState::ClientVersion,
                        relay: Relay { consumed: reader.position(), forward },
                    },
                )
            },
            HandshakeState::ClientVersion => {
                let version = Version::read_from(&mut reader)?;
                let mut forward: Vec<u8> = Vec::new();
                let _ = version.write_to(&mut forward);
                assert(forward@ =~= encode_version(version));
                Ok(
                    Step {
                        state: HandshakeState::Offer { version },
                        relay: Relay { consumed: reader.position(), forward },
                    },
                )
            },
            HandshakeState::Offer { version: Version::Rfb33 } => {
                let code = reader.read_u32()?;
                if code == 0 {
                    Ok(passing(HandshakeState::Reason, input, &reader))
                } else if code == 1 {
                    Ok(passing(HandshakeState::ClientInit, input, &reader))
                } else {
                    Err(Error::AuthenticationUnavailable)
                }
            },
            HandshakeState::Offer { version } => {
                let types = SecurityTypes::read_from(&mut reader)?;
                if types.0.len() == 0 {
                    return Ok(passing(HandshakeState::Reason, input, &reader));
                }
                let kept = filter_security_types(&types.0);
                if kept.len() == 0 {
                    return Err(Error::AuthenticationUnavailable);
                }
                let mut forward: Vec<u8> = Vec::new();
                let _ = SecurityTypes(kept).write_to(&mut forward);
                assert(forward@ =~= encode_security_types(open_types(types.0@)));
                Ok(
                    Step {
                        state: HandshakeState::Choice { version: *version },
                        relay: Relay { consumed: reader.position(), forward },
                    },
                )
            },
            HandshakeState::Choice { version } => {
                let code = reader.read_u8()?;
                if code != 1 {
                    return Err(Error::Unexpected("security type"));
                }
                match version {
                    Version::Rfb38 => Ok(passing(HandshakeState::Verdict, input, &reader)),
                    _ => Ok(passing(HandshakeState::ClientInit, input, &reader)),
                }
            },
            HandshakeState::Verdict => {
                let code = reader.read_u32()?;
                if code == 0 {
                    Ok(passing(HandshakeState::ClientInit, input, &reader))
                } else if code == 1 {
                    Ok(passing(HandshakeState::Reason, input, &reader))
                } else {
                    Err(Error::Unexpected("security result"))
                }
            },
            HandshakeState::Reason => {
                let _ = String::read_from(&mut reader)?;
                Ok(passing(HandshakeState::Closed, input, &reader))
            },
            HandshakeState::ClientInit => {
                let _ = reader.read_u8()?;
                Ok(passing(HandshakeState::ServerInit, input, &reader))
            },
            HandshakeState::ServerInit => {
                let init = ServerInit::read_from(&mut reader)?;
                Ok(passing(HandshakeState::Running { format: init.pixel_format }, input, &reader))
            },
            _ => Err(Error::Unexpected("handshake step")),
        }
    }
}

} // verus!
