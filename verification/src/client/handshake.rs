//! The handshake as the client sees it: a state, and the step that takes
//! the next message of the server and says what to answer.
//!
//! The code that owns the connection reads bytes, calls `advance` with all
//! that it has read and not yet handed over, writes the reply and drops the
//! bytes that the step took. A step that fails with `Io(UnexpectedEof)` has
//! seen too little: the same step is made again once more bytes are there.

use crate::client::{AuthChoice, AuthMethod};
use crate::error::{Error, ErrorView, IoError};
use crate::protocol::{
    decode_apple_handshake, decode_security_types, decode_server_init, decode_text, decode_version,
    encode_version, flag_byte, latin1_bytes, AppleAuthHandshake, AppleAuthHandshakeView,
    ClientInit, Message, SecurityResult, SecurityType, SecurityTypes, ServerInit, ServerInitView,
    Version,
};
use crate::security::{
    apple_answer, apple_auth, be_value, challenge_response, des_ecb, mirrored_key,
};
use crate::wire::{be32, Reader};
use vstd::prelude::*;

verus! {

/// Where the client stands in the handshake.
#[derive(Debug)]
pub enum HandshakeState {
    /// The server's version is awaited.
    Version,
    /// The security types that the server offers are awaited.
    Security { version: Version },
    /// The server refused the connection; its reason is awaited.
    Refused,
    /// The caller is to choose among the methods.
    Choice { version: Version, methods: Vec<AuthMethod> },
    /// The challenge of VNC authentication is awaited.
    Challenge { version: Version, key: [u8; 8] },
    /// The server's part of the Apple Remote Desktop key exchange is awaited.
    AppleKeys { version: Version, username: String, password: String },
    /// The server's verdict on the authentication is awaited.
    Verdict { version: Version },
    /// The server rejected the credentials; its reason is awaited.
    FailureReason,
    /// The client has introduced itself; the server's `ServerInit` is awaited.
    Init,
    /// The handshake is over.
    Done(ServerInit),
}

/// The model of a `HandshakeState`.
pub enum HandshakeStateView {
    Version,
    Security { version: Version },
    Refused,
    Choice { version: Version, methods: Seq<AuthMethod> },
    Challenge { version: Version, key: Seq<u8> },
    AppleKeys { version: Version, username: Seq<char>, password: Seq<char> },
    Verdict { version: Version },
    FailureReason,
    Init,
    Done(ServerInitView),
}

impl View for HandshakeState {
    type V = HandshakeStateView;

    open spec fn view(&self) -> HandshakeStateView {
        match *self {
            HandshakeState::Version => HandshakeStateView::Version,
            HandshakeState::Security { version } => HandshakeStateView::Security { version },
            HandshakeState::Refused => HandshakeStateView::Refused,
            HandshakeState::Choice { version, methods } => HandshakeStateView::Choice {
                version,
                methods: methods@,
            },
            HandshakeState::Challenge { version, key } => HandshakeStateView::Challenge {
                version,
                key: key@,
            },
            HandshakeState::AppleKeys { version, username, password } =>
                HandshakeStateView::AppleKeys { version, username: username@, password: password@ },
            HandshakeState::Verdict { version } => HandshakeStateView::Verdict { version },
            HandshakeState::FailureReason => HandshakeStateView::FailureReason,
            HandshakeState::Init => HandshakeStateView::Init,
            HandshakeState::Done(init) => HandshakeStateView::Done(init@),
        }
    }
}

/// The model of an `AuthChoice`.
pub enum AuthChoiceView {
    NoAuthentication,
    Password(Seq<u8>),
    AppleRemoteDesktop(Seq<char>, Seq<char>),
}

impl View for AuthChoice {
    type V = AuthChoiceView;

    open spec fn view(&self) -> AuthChoiceView {
        match *self {
            AuthChoice::NoAuthentication => AuthChoiceView::NoAuthentication,
            AuthChoice::Password(password) => AuthChoiceView::Password(password@),
            AuthChoice::AppleRemoteDesktop(username, password) => AuthChoiceView::AppleRemoteDesktop(
                username@,
                password@,
            ),
        }
    }
}

/// What a step of the handshake leads to.
#[derive(Debug)]
pub struct Step {
    /// The state after the step.
    pub state: HandshakeState,
    /// How many bytes of the input the step took.
    pub consumed: usize,
    /// What is to be written to the server.
    pub reply: Vec<u8>,
}

/// The model of a `Step`.
pub struct StepView {
    pub state: HandshakeStateView,
    pub consumed: nat,
    pub reply: Seq<u8>,
}

impl View for Step {
    type V = StepView;

    open spec fn view(&self) -> StepView {
        StepView { state: self.state@, consumed: self.consumed as nat, reply: self.reply@ }
    }
}

/// The methods among the offered security types that this library knows, in
/// the order of the offer.
pub open spec fn known_methods(types: Seq<SecurityType>) -> Seq<AuthMethod>
    decreases types.len(),
{
    if types.len() == 0 {
        Seq::empty()
    } else {
        let before = known_methods(types.drop_last());
        match types.last() {
            SecurityType::NoAuthentication => before.push(AuthMethod::NoAuthentication),
            SecurityType::VncAuthentication => before.push(AuthMethod::Password),
            SecurityType::AppleRemoteDesktop => before.push(AuthMethod::AppleRemoteDesktop),
            _ => before,
        }
    }
}

/// The step that the server's offer leads to: to its reason where it offers
/// nothing, else to the caller's choice.
pub open spec fn after_offer(version: Version, types: Seq<SecurityType>, consumed: nat) -> StepView {
    StepView {
        state: if types.len() == 0 {
            HandshakeStateView::Refused
        } else {
            HandshakeStateView::Choice { version, methods: known_methods(types) }
        },
        consumed,
        reply: Seq::empty(),
    }
}

/// The bytes of the client's `ClientInit`.
pub open spec fn client_init(shared: bool) -> Seq<u8> {
    seq![flag_byte(shared)]
}

/// The answer to the server's part of the Apple Remote Desktop key exchange.
pub open spec fn apple_reply(
    username: Seq<char>,
    password: Seq<char>,
    keys: AppleAuthHandshakeView,
    private_key: Seq<u8>,
) -> Result<Seq<u8>, ErrorView> {
    if be_value(keys.prime) == 0 {
        Err(ErrorView::Unexpected("apple auth prime"))
    } else {
        let answer = apple_answer(latin1_bytes(username), latin1_bytes(password), keys, private_key);
        Ok(answer.0 + answer.1)
    }
}

/// What the step from the state `state` on the input `input` leads to.
/// `private_key` is the client's secret in the Apple Remote Desktop key exchange.
pub open spec fn advanced(
    state: HandshakeStateView,
    input: Seq<u8>,
    shared: bool,
    private_key: Seq<u8>,
) -> Result<StepView, ErrorView> {
    match state {
        HandshakeStateView::Version => match decode_version(input) {
            Err(e) => Err(e@),
            Ok((version, n)) => Ok(
                StepView {
                    state: HandshakeStateView::Security { version },
                    consumed: n,
                    reply: encode_version(version),
                },
            ),
        },
        HandshakeStateView::Security { version: Version::Rfb33 } => if input.len() < 4 {
            Err(ErrorView::Io(IoError::UnexpectedEof))
        } else if be32(input, 0) > 0xff {
            Err(ErrorView::Unexpected("security type"))
        } else if be32(input, 0) == 0 {
            Ok(after_offer(Version::Rfb33, Seq::empty(), 4))
        } else {
            Ok(after_offer(Version::Rfb33, seq![SecurityType::of_code(be32(input, 0) as u8)], 4))
        },
        HandshakeStateView::Security { version } => match decode_security_types(input) {
            Err(e) => Err(e@),
            Ok((types, n)) => Ok(after_offer(version, types, n)),
        },
        HandshakeStateView::Refused => match decode_text(input) {
            Err(e) => Err(e@),
            Ok((reason, n)) => Err(ErrorView::Server(reason)),
        },
        HandshakeStateView::Challenge { version, key } => if input.len() < 16 {
            Err(ErrorView::Io(IoError::UnexpectedEof))
        } else {
            Ok(
                StepView {
                    state: HandshakeStateView::Verdict { version },
                    consumed: 16,
                    reply: des_ecb(input.subrange(0, 16), mirrored_key(key)),
                },
            )
        },
        HandshakeStateView::AppleKeys { version, username, password } => match decode_apple_handshake(
            input,
        ) {
            Err(e) => Err(e@),
            Ok((keys, n)) => match apple_reply(username, password, keys, private_key) {
                Err(e) => Err(e),
                Ok(reply) => Ok(
                    StepView { state: HandshakeStateView::Verdict { version }, consumed: n, reply },
                ),
            },
        },
        HandshakeStateView::Verdict { version } => if input.len() < 4 {
            Err(ErrorView::Io(IoError::UnexpectedEof))
        } else if be32(input, 0) == 0 {
            Ok(StepView { state: HandshakeStateView::Init, consumed: 4, reply: client_init(shared) })
        } else if be32(input, 0) != 1 {
            Err(ErrorView::Unexpected("security result"))
        } else if version is Rfb38 {
            Ok(
                StepView {
                    state: HandshakeStateView::FailureReason,
                    consumed: 4,
                    reply: Seq::empty(),
                },
            )
        } else {
            Err(ErrorView::AuthenticationFailure(Seq::empty()))
        },
        HandshakeStateView::FailureReason => match decode_text(input) {
            Err(e) => Err(e@),
            Ok((reason, n)) => Err(ErrorView::AuthenticationFailure(reason)),
        },
        HandshakeStateView::Init => match decode_server_init(input) {
            Err(e) => Err(e@),
            Ok((init, n)) => Ok(
                StepView { state: HandshakeStateView::Done(init), consumed: n, reply: Seq::empty() },
            ),
        },
        _ => Err(ErrorView::Unexpected("handshake step")),
    }
}

/// The security type that stands for a choice.
pub open spec fn choice_type(choice: AuthChoiceView) -> SecurityType {
    match choice {
        AuthChoiceView::NoAuthentication => SecurityType::NoAuthentication,
        AuthChoiceView::Password(_) => SecurityType::VncAuthentication,
        AuthChoiceView::AppleRemoteDesktop(_, _) => SecurityType::AppleRemoteDesktop,
    }
}

/// Whether the server gives no verdict. Before protocol 3.8 it gives none
/// where there is nothing to authenticate.
pub open spec fn skips_verdict(version: Version, choice: AuthChoiceView) -> bool {
    choice is NoAuthentication && !(version is Rfb38)
}

/// What the caller's choice leads to. From protocol 3.7 on the client names
/// the security type that it chose. Where the server sends no verdict the
/// client introduces itself at once.
pub open spec fn chosen(state: HandshakeStateView, choice: Option<AuthChoiceView>, shared: bool) -> Result<
    StepView,
    ErrorView,
> {
    match (state, choice) {
        (HandshakeStateView::Choice { version, methods }, None) => Err(
            ErrorView::AuthenticationUnavailable,
        ),
        (HandshakeStateView::Choice { version, methods }, Some(choice)) => {
            let named = if version is Rfb33 {
                Seq::<u8>::empty()
            } else {
                seq![choice_type(choice).code()]
            };
            Ok(
                match choice {
                    AuthChoiceView::NoAuthentication => if skips_verdict(version, choice) {
                        StepView {
                            state: HandshakeStateView::Init,
                            consumed: 0,
                            reply: named + client_init(shared),
                        }
                    } else {
                        StepView {
                            state: HandshakeStateView::Verdict { version },
                            consumed: 0,
                            reply: named,
                        }
                    },
                    AuthChoiceView::Password(key) => StepView {
                        state: HandshakeStateView::Challenge { version, key },
                        consumed: 0,
                        reply: named,
                    },
                    AuthChoiceView::AppleRemoteDesktop(username, password) => StepView {
                        state: HandshakeStateView::AppleKeys { version, username, password },
                        consumed: 0,
                        reply: named,
                    },
                },
            )
        },
        _ => Err(ErrorView::Unexpected("handshake step")),
    }
}

/// The methods among the offered security types that this library knows.
fn methods_of(types: &Vec<SecurityType>) -> (methods: Vec<AuthMethod>)
    ensures
        methods@ == known_methods(types@),
{
    let mut methods: Vec<AuthMethod> = Vec::new();
    let mut i: usize = 0;
    assert(types@.subrange(0, 0) =~= Seq::<SecurityType>::empty());
    while i < types.len()
        invariant
            i <= types.len(),
            methods@ == known_methods(types@.subrange(0, i as int)),
        decreases types.len() - i,
    {
        assert(types@.subrange(0, i + 1).drop_last() =~= types@.subrange(0, i as int));
        match types[i] {
            SecurityType::NoAuthentication => methods.push(AuthMethod::NoAuthentication),
            SecurityType::VncAuthentication => methods.push(AuthMethod::Password),
            SecurityType::AppleRemoteDesktop => methods.push(AuthMethod::AppleRemoteDesktop),
            _ => {},
        }
        i = i + 1;
    }
    assert(types@.subrange(0, i as int) =~= types@);
    methods
}

/// The step that the server's offer leads to.
fn offer_step(version: Version, types: Vec<SecurityType>, consumed: usize) -> (step: Step)
    ensures
        step@ == after_offer(version, types@, consumed as nat),
{
    let state = if types.len() == 0 {
        HandshakeState::Refused
    } else {
        HandshakeState::Choice { version, methods: methods_of(&types) }
    };
    Step { state, consumed, reply: Vec::new() }
}

impl HandshakeState {
    /// The state in which a handshake begins.
    pub fn start() -> (state: HandshakeState)
        ensures
            state@ == HandshakeStateView::Version,
    {
        HandshakeState::Version
    }

    /// Makes the step that the input allows: reads the message that the
    /// state awaits from the front of `input` and says what to write back.
    /// The state itself is left as it is; the step holds its successor.
    pub fn advance(&self, input: &[u8], shared: bool, private_key: &[u8]) -> (r: Result<Step, Error>)
        ensures
            match advanced(self@, input@, shared, private_key@) {
                Ok(step) => r matches Ok(v) && v@ == step,
                Err(e) => r matches Err(e2) && e2@ == e,
            },
    {
        let mut reader = Reader::new(input);
        match self {
            HandshakeState::Version => {
                let version = Version::read_from(&mut reader)?;
                let mut reply: Vec<u8> = Vec::new();
                let _ = version.write_to(&mut reply);
                assert(reply@ =~= encode_version(version));
                Ok(
                    Step {
                        state: HandshakeState::Security { version },
                        consumed: reader.position(),
                        reply,
                    },
                )
            },
            HandshakeState::Security { version: Version::Rfb33 } => {
                let code = reader.read_u32()?;
                if code > 0xff {
                    return Err(Error::Unexpected("security type"));
                }
                let mut types: Vec<SecurityType> = Vec::new();
                if code != 0 {
                    types.push(SecurityType::from_code(code as u8));
                    assert(types@ =~= seq![SecurityType::of_code(code as u8)]);
                }
                Ok(offer_step(Version::Rfb33, types, reader.position()))
            },
            HandshakeState::Security { version } => {
                let types = SecurityTypes::read_from(&mut reader)?;
                Ok(offer_step(*version, types.0, reader.position()))
            },
            HandshakeState::Refused => {
                let reason = String::read_from(&mut reader)?;
                Err(Error::Server(reason))
            },
            HandshakeState::Challenge { version, key } => {
                let bytes = reader.read_bytes(16)?;
                let mut challenge: [u8; 16] = [0u8; 16];
                let mut i: usize = 0;
                while i < 16
                    invariant
                        i <= 16,
                        bytes@.len() == 16,
                        forall|k: int| 0 <= k < i ==> challenge@[k] == bytes@[k],
                    decreases 16 - i,
                {
                    challenge[i] = bytes[i];
                    i = i + 1;
                }
                assert(challenge@ =~= input@.subrange(0, 16));
                let response = challenge_response(&challenge, key);
                let reply = vstd::slice::slice_to_vec(response.as_slice());
                Ok(Step { state: HandshakeState::Verdict { version: *version }, consumed: 16, reply })
            },
            HandshakeState::AppleKeys { version, username, password } => {
                let keys = AppleAuthHandshake::read_from(&mut reader)?;
                let response = apple_auth(username.as_str(), password.as_str(), &keys, private_key)?;
                let mut reply: Vec<u8> = Vec::new();
                let _ = response.write_to(&mut reply);
                assert(reply@ =~= response.ciphertext@ + response.pub_key@);
                Ok(
                    Step {
                        state: HandshakeState::Verdict { version: *version },
                        consumed: reader.position(),
                        reply,
                    },
                )
            },
            HandshakeState::Verdict { version } => {
                match SecurityResult::read_from(&mut reader)? {
                    SecurityResult::Succeeded => {
                        let mut reply: Vec<u8> = Vec::new();
                        let _ = (ClientInit { shared }).write_to(&mut reply);
                        assert(reply@ =~= client_init(shared));
                        Ok(Step { state: HandshakeState::Init, consumed: 4, reply })
                    },
                    SecurityResult::Failed => match version {
                        Version::Rfb38 => Ok(
                            Step {
                                state: HandshakeState::FailureReason,
                                consumed: 4,
                                reply: Vec::new(),
                            },
                        ),
                        _ => Err(Error::AuthenticationFailure(String::new())),
                    },
                }
            },
            HandshakeState::FailureReason => {
                let reason = String::read_from(&mut reader)?;
                Err(Error::AuthenticationFailure(reason))
            },
            HandshakeState::Init => {
                let init = ServerInit::read_from(&mut reader)?;
                Ok(
                    Step {
                        state: HandshakeState::Done(init),
                        consumed: reader.position(),
                        reply: Vec::new(),
                    },
                )
            },
            _ => Err(Error::Unexpected("handshake step")),
        }
    }

    /// Takes the caller's choice among the methods that the server offers;
    /// `None` where the caller accepts none of them.
    pub fn select(&self, choice: Option<AuthChoice>, shared: bool) -> (r: Result<Step, Error>)
        ensures
            match chosen(
                self@,
                match choice {
                    Some(c) => Some(c@),
                    None => None,
                },
                shared,
            ) {
                Ok(step) => r matches Ok(v) && v@ == step,
                Err(e) => r matches Err(e2) && e2@ == e,
            },
    {
        let version = match self {
            HandshakeState::Choice { version, .. } => *version,
            _ => {
                return Err(Error::Unexpected("handshake step"));
            },
        };
        let choice = match choice {
            Some(choice) => choice,
            None => {
                return Err(Error::AuthenticationUnavailable);
            },
        };
        let mut reply: Vec<u8> = Vec::new();
        let named = match &choice {
            AuthChoice::NoAuthentication => SecurityType::NoAuthentication,
            AuthChoice::Password(_) => SecurityType::VncAuthentication,
            AuthChoice::AppleRemoteDesktop(_, _) => SecurityType::AppleRemoteDesktop,
        };
        match version {
            Version::Rfb33 => {},
            _ => {
                let _ = named.write_to(&mut reply);
            },
        }
        let ghost head = reply@;
        let state = match choice {
            AuthChoice::NoAuthentication => match version {
                Version::Rfb38 => HandshakeState::Verdict { version },
                _ => {
                    let _ = (ClientInit { shared }).write_to(&mut reply);
                    assert(reply@ =~= head + client_init(shared));
                    HandshakeState::Init
                },
            },
            AuthChoice::Password(key) => HandshakeState::Challenge { version, key },
            AuthChoice::AppleRemoteDesktop(username, password) => HandshakeState::AppleKeys {
                version,
                username,
                password,
            },
        };
        Ok(Step { state, consumed: 0, reply })
    }
}

} // verus!
