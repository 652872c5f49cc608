//! What the two sides of this library agree on: a client and a server that
//! both come from it complete the handshake with each other, and the client
//! sees the updates that the server sends.

use crate::client::handshake::{
    advanced as client_advanced, chosen, client_init, known_methods, AuthChoiceView,
    HandshakeStateView, StepView,
};
use crate::client::AuthMethod;
use crate::error::ErrorView;
use crate::protocol::{
    encode_server_init, encode_version, security_types_of, Message, SecurityType, ServerInit,
    ServerInitView, Version,
};
use crate::server::handshake::{advanced as server_advanced, offer, HandshakeState};
use crate::wire::{bytes32, lemma_be32_of_bytes32};
use vstd::prelude::*;

pub mod updates;

verus! {

/// How a handshake ends between a server and a client that has settled on
/// `version` and asks for no authentication: the states in which the
/// client and the server end up, each fed with what the other wrote, or the
/// error of the first step that fails.
pub open spec fn conversation(version: Version, shared: bool, init: ServerInitView) -> Result<
    (HandshakeStateView, HandshakeState),
    ErrorView,
> {
    let key = Seq::<u8>::empty();
    match server_advanced(HandshakeState::Version, encode_version(version), init) {
        Err(e) => Err(e@),
        Ok(offer) => match client_advanced(
            HandshakeStateView::Security { version },
            offer.reply,
            shared,
            key,
        ) {
            Err(e) => Err(e),
            Ok(offered) => match chosen(
                offered.state,
                Some(AuthChoiceView::NoAuthentication),
                shared,
            ) {
                Err(e) => Err(e),
                Ok(choice) => if version is Rfb33 {
                    // No security type is named, and no verdict is given.
                    finish(choice.state, offer.state, choice.reply, shared, init)
                } else {
                    match server_advanced(offer.state, choice.reply.subrange(0, 1), init) {
                        Err(e) => Err(e@),
                        Ok(verdict) => if version is Rfb38 {
                            match client_advanced(choice.state, verdict.reply, shared, key) {
                                Err(e) => Err(e),
                                Ok(hello) => finish(
                                    hello.state,
                                    verdict.state,
                                    hello.reply,
                                    shared,
                                    init,
                                ),
                            }
                        } else {
                            finish(
                                choice.state,
                                verdict.state,
                                choice.reply.skip(1),
                                shared,
                                init,
                            )
                        },
                    }
                },
            },
        },
    }
}

/// The end of a handshake: the server reads the client's `ClientInit`, and
/// the client the server's `ServerInit`.
pub open spec fn finish(
    client: HandshakeStateView,
    server: HandshakeState,
    hello: Seq<u8>,
    shared: bool,
    init: ServerInitView,
) -> Result<(HandshakeStateView, HandshakeState), ErrorView> {
    match server_advanced(server, hello, init) {
        Err(e) => Err(e@),
        Ok(introduced) => match client_advanced(
            client,
            introduced.reply,
            shared,
            Seq::<u8>::empty(),
        ) {
            Err(e) => Err(e),
            Ok(done) => Ok((done.state, introduced.state)),
        },
    }
}

/// The client and the server of this library agree on the handshake: in
/// every version, a client that asks for no authentication ends with what
/// the server said of itself, and the server with what the client said of
/// sharing.
pub proof fn lemma_handshakes_agree(version: Version, shared: bool, init: ServerInitView)
    requires
        ServerInit::fits(init),
    ensures
        conversation(version, shared, init) == Ok::<(HandshakeStateView, HandshakeState), ErrorView>(
            (HandshakeStateView::Done(init), HandshakeState::Done { shared }),
        ),
{
    let key = Seq::<u8>::empty();
    Version::lemma_round_trip(version, Seq::empty());
    assert(encode_version(version) + Seq::<u8>::empty() =~= encode_version(version));
    let offer = server_advanced(HandshakeState::Version, encode_version(version), init)->Ok_0;
    lemma_offer_is_read(version, shared);
    let offered = client_advanced(HandshakeStateView::Security { version }, offer.reply, shared, key)->Ok_0;
    let choice = chosen(offered.state, Some(AuthChoiceView::NoAuthentication), shared)->Ok_0;
    ServerInit::lemma_round_trip(init, Seq::empty());
    assert(encode_server_init(init) + Seq::<u8>::empty() =~= encode_server_init(init));
    if version is Rfb33 {
        assert(choice.reply =~= client_init(shared));
    } else {
        assert(choice.reply.subrange(0, 1) =~= seq![1u8]);
        let verdict = server_advanced(offer.state, choice.reply.subrange(0, 1), init)->Ok_0;
        if version is Rfb38 {
            lemma_be32_of_bytes32(0, Seq::empty());
            assert(bytes32(0) + Seq::<u8>::empty() =~= bytes32(0));
        } else {
            assert(choice.reply.skip(1) =~= client_init(shared));
        }
    }
}

/// The client reads the server's offer of no authentication as the one
/// method that it may choose.
proof fn lemma_offer_is_read(version: Version, shared: bool)
    ensures
        client_advanced(
            HandshakeStateView::Security { version },
            offer(version),
            shared,
            Seq::<u8>::empty(),
        ) == Ok::<StepView, ErrorView>(
            StepView {
                state: HandshakeStateView::Choice {
                    version,
                    methods: seq![AuthMethod::NoAuthentication],
                },
                consumed: offer(version).len(),
                reply: Seq::empty(),
            },
        ),
{
    let offer = offer(version);
    let types = seq![SecurityType::NoAuthentication];
    assert(types.drop_last() =~= Seq::<SecurityType>::empty());
    assert(known_methods(types.drop_last()) =~= Seq::<
        AuthMethod,
    >::empty());
    assert(known_methods(types) =~= seq![
        AuthMethod::NoAuthentication,
    ]);
    if version is Rfb33 {
        lemma_be32_of_bytes32(1, Seq::empty());
        assert(offer + Seq::<u8>::empty() =~= offer);
        assert(seq![SecurityType::of_code(1)] =~= types);
    } else {
        assert(security_types_of(offer.subrange(1, 2)) =~= types);
    }
}

} // verus!
