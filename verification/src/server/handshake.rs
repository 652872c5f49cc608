//! The handshake as the server sees it. The server offers the highest
//! version and no authentication.

use crate::error::{Error, IoError};
use crate::protocol::{
    decode_version, encode_server_init, encode_version, ClientInit, Message, SecurityResult,
    SecurityType, SecurityTypes, ServerInit, ServerInitView, Version,
};
use crate::wire::{bytes32, put_u32, Reader};
use vstd::prelude::*;

verus! {

/// Where the server stands in the handshake.
#[derive(Debug, Clone, Copy, PartialEq, Eq, Structural)]
pub enum HandshakeState {
    /// The version that the client settles on is awaited.
    Version,
    /// The security type that the client chose is awaited.
    Security { version: Version },
    /// The client's `ClientInit` is awaited.
    Init,
    /// The handshake is over; `shared` says whether the client would share
    /// the desktop with others.
    Done { shared: bool },
}

/// What a step of the handshake leads to.
#[derive(Debug)]
pub struct Step {
    /// The state after the step.
    pub state: HandshakeState,
    /// How many bytes of the input the step took.
    pub consumed: usize,
    /// What is to be written to the client.
    pub reply: Vec<u8>,
}

/// The model of a `Step`.
pub struct StepView {
    pub state: HandshakeState,
    pub consumed: nat,
    pub reply: Seq<u8>,
}

impl View for Step {
    type V = StepView;

    open spec fn view(&self) -> StepView {
        StepView { state: self.state, consumed: self.consumed as nat, reply: self.reply@ }
    }
}

/// What the server opens the connection with: the highest version that it speaks.
pub open spec fn greeting_bytes() -> Seq<u8> {
    encode_version(Version::Rfb38)
}

/// The offer of no authentication, as the server of a given version makes
/// it: before 3.7 the one security type in four bytes, from 3.7 on a list
/// of one.
pub open spec fn offer(version: Version) -> Seq<u8> {
    if version is Rfb33 {
        bytes32(1)
    } else {
        seq![1u8, 1u8]
    }
}

/// What the step from the state `state` on the input `input` leads to, for a
/// server that introduces itself with `init`.
pub open spec fn advanced(state: HandshakeState, input: Seq<u8>, init: ServerInitView) -> Result<
    StepView,
    Error,
> {
    match state {
        HandshakeState::Version => match decode_version(input) {
            Err(e) => Err(e),
            Ok((version, n)) => Ok(
                StepView {
                    state: if version is Rfb33 {
                        HandshakeState::Init
                    } else {
                        HandshakeState::Security { version }
                    },
                    consumed: n,
                    reply: offer(version),
                },
            ),
        },
        HandshakeState::Security { version } => if input.len() < 1 {
            Err(Error::Io(IoError::UnexpectedEof))
        } else {
            Ok(
                StepView {
                    state: HandshakeState::Init,
                    consumed: 1,
                    reply: if version is Rfb38 {
                        bytes32(0)
                    } else {
                        Seq::empty()
                    },
                },
            )
        },
        HandshakeState::Init => if input.len() < 1 {
            Err(Error::Io(IoError::UnexpectedEof))
        } else {
            Ok(
                StepView {
                    state: HandshakeState::Done { shared: input[0] != 0 },
                    consumed: 1,
                    reply: encode_server_init(init),
                },
            )
        },
        HandshakeState::Done { .. } => Err(Error::Unexpected("handshake step")),
    }
}

impl HandshakeState {
    /// The state in which a handshake begins.
    pub fn start() -> (state: HandshakeState)
        ensures
            state == HandshakeState::Version,
    {
        HandshakeState::Version
    }

    /// What the server writes before it reads anything.
    pub fn greeting() -> (bytes: Vec<u8>)
        ensures
            bytes@ == greeting_bytes(),
    {
        let mut bytes: Vec<u8> = Vec::new();
        let _ = Version::Rfb38.write_to(&mut bytes);
        assert(bytes@ =~= greeting_bytes());
        bytes
    }

    /// Makes the step that the input allows: reads the message that the
    /// state awaits from the front of `input` and says what to write back.
    pub fn advance(&self, input: &[u8], init: &ServerInit) -> (r: Result<Step, Error>)
        ensures
            match advanced(*self, input@, init@) {
                Ok(step) => r matches Ok(v) && v@ == step,
                Err(e) => r matches Err(e2) && e2 == e,
            },
    {
        let mut reader = Reader::new(input);
        let mut reply: Vec<u8> = Vec::new();
        match self {
            HandshakeState::Version => {
                let version = Version::read_from(&mut reader)?;
                let state = match version {
                    Version::Rfb33 => {
                        put_u32(&mut reply, 1);
                        assert(reply@ =~= offer(version));
                        HandshakeState::Init
                    },
                    _ => {
                        let mut types: Vec<SecurityType> = Vec::new();
                        types.push(SecurityType::NoAuthentication);
                        let _ = SecurityTypes(types).write_to(&mut reply);
                        assert(reply@ =~= offer(version));
                        HandshakeState::Security { version }
                    },
                };
                Ok(Step { state, consumed: reader.position(), reply })
            },
            HandshakeState::Security { version } => {
                let _ = SecurityType::read_from(&mut reader)?;
                match version {
                    Version::Rfb38 => {
                        let _ = SecurityResult::Succeeded.write_to(&mut reply);
                        assert(reply@ =~= bytes32(0));
                    },
                    _ => {},
                }
                Ok(Step { state: HandshakeState::Init, consumed: 1, reply })
            },
            HandshakeState::Init => {
                let client_init = ClientInit::read_from(&mut reader)?;
                let _ = init.write_to(&mut reply);
                assert(reply@ =~= encode_server_init(init@));
                Ok(
                    Step {
                        state: HandshakeState::Done { shared: client_init.shared },
                        consumed: 1,
                        reply,
                    },
                )
            },
            HandshakeState::Done { .. } => Err(Error::Unexpected("handshake step")),
        }
    }
}

} // verus!
