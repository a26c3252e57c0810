//! The rules of the opening handshake: what each side checks in what the other side sent.
//!
//! The requests and responses themselves are written and parsed by whoever owns the transport.
//! What they hold comes here as plain values: a status, a key, an accept value, names of
//! subprotocols, the text of an extension header.

use vstd::prelude::*;
use crate::errors::Error;
use crate::errors::HandshakeError;
use crate::extension::settle;
use crate::extension::ExtensionDecoder;
use crate::extension::ExtensionEncoder;
use crate::extension::ExtensionError;
use crate::extension::NegotiatedExtension;
use crate::extension::NoExtDecoder;
use crate::extension::NoExtEncoder;
use crate::extension::Requirement;
use crate::header::holds_name;
use crate::header::same_name;
use crate::header::spec_holds_name;
use crate::header::spec_same_name;
use crate::header::spec_trim;
use crate::header::trim;
use crate::mask::key_bytes;
use crate::sender::fresh_key;

verus! {

/// The status of a response that switches protocols.
pub const SWITCHING_PROTOCOLS: u16 = 101;

/// The only version of the protocol.
pub const PROTOCOL_VERSION: u8 = 13;

/// The SHA-1 digest of some bytes.
pub uninterp spec fn spec_sha1(data: Seq<u8>) -> Seq<u8>;

/// Some bytes in base64, with the standard alphabet and with padding.
pub uninterp spec fn spec_base64(data: Seq<u8>) -> Seq<u8>;

/// The text that every key is joined with before it is hashed:
/// `258EAFA5-E914-47DA-95CA-C5AB0DC85B11`.
pub open spec fn spec_guid() -> Seq<u8> {
    seq![
        50, 53, 56, 69, 65, 70, 65, 53, 45, 69, 57, 49, 52, 45, 52, 55, 68, 65, 45, 57,
        53, 67, 65, 45, 67, 53, 65, 66, 48, 68, 67, 56, 53, 66, 49, 49,
    ]
}

/// The protocol that a request asks to upgrade to: `websocket`.
pub open spec fn spec_upgrade_name() -> Seq<u8> {
    seq![119, 101, 98, 115, 111, 99, 107, 101, 116]
}

/// The option that a request has to state for its connection: `Upgrade`.
pub open spec fn spec_connection_name() -> Seq<u8> {
    seq![85, 112, 103, 114, 97, 100, 101]
}

pub fn upgrade_name() -> (r: [u8; 9])
    ensures
        r@ == spec_upgrade_name(),
{
    let r: [u8; 9] = [119, 101, 98, 115, 111, 99, 107, 101, 116];
    assert(r@ =~= spec_upgrade_name());
    r
}

pub fn connection_name() -> (r: [u8; 7])
    ensures
        r@ == spec_connection_name(),
{
    let r: [u8; 7] = [85, 112, 103, 114, 97, 100, 101];
    assert(r@ =~= spec_connection_name());
    r
}

/// The accept value that answers a key: the key joined with the fixed text, hashed with SHA-1,
/// written in base64.
pub open spec fn spec_accept_value(key: Seq<u8>) -> Seq<u8> {
    spec_base64(spec_sha1(key + spec_guid()))
}

/// `Sha1::digest` of the crate sha1: the digest of the bytes, which has 20 bytes.
#[verifier::external_body]
fn sha1_digest(data: &[u8]) -> (r: Vec<u8>)
    ensures
        r@ == spec_sha1(data@),
        r@.len() == 20,
{
    <sha1::Sha1 as sha1::Digest>::digest(data).to_vec()
}

/// `Engine::encode` of the crate base64, on its engine `STANDARD`: the bytes in base64. The
/// input is short enough for the length of the result to be computed.
#[verifier::external_body]
fn base64_encode(data: &[u8]) -> (r: Vec<u8>)
    requires
        data@.len() < 0x2000_0000,
    ensures
        r@ == spec_base64(data@),
{
    base64::Engine::encode(&base64::engine::general_purpose::STANDARD, data).into_bytes()
}

pub fn guid() -> (r: [u8; 36])
    ensures
        r@ == spec_guid(),
{
    let r: [u8; 36] = [
        50, 53, 56, 69, 65, 70, 65, 53, 45, 69, 57, 49, 52, 45, 52, 55, 68, 65, 45, 57,
        53, 67, 65, 45, 67, 53, 65, 66, 48, 68, 67, 56, 53, 66, 49, 49,
    ];
    assert(r@ =~= spec_guid());
    r
}

/// The accept value that answers a key.
pub fn accept_value(key: &[u8]) -> (r: Vec<u8>)
    ensures
        r@ == spec_accept_value(key@),
{
    let mut joined: Vec<u8> = Vec::new();
    joined.extend_from_slice(key);
    let fixed: [u8; 36] = guid();
    joined.extend_from_slice(fixed.as_slice());
    assert(joined@ =~= key@ + spec_guid());
    let digest: Vec<u8> = sha1_digest(joined.as_slice());
    base64_encode(digest.as_slice())
}

/// Whether two byte strings are the same.
pub fn same_bytes(a: &[u8], b: &[u8]) -> (r: bool)
    ensures
        r == (a@ == b@),
{
    if a.len() != b.len() {
        return false;
    }
    let n: usize = a.len();
    let mut i: usize = 0;
    while i < n
        invariant
            i <= n,
            n == a@.len(),
            n == b@.len(),
            forall|j: int| 0 <= j < i ==> a@[j] == b@[j],
        decreases n - i,
    {
        if a[i] != b[i] {
            return false;
        }
        i = i + 1;
    }
    assert(a@ =~= b@);
    true
}

/// The names that a list of strings spells.
pub open spec fn spec_names(list: Seq<String>) -> Seq<Seq<char>> {
    Seq::new(list.len(), |i: int| list[i]@)
}

/// A list of names without its repetitions: each name stays where it first stood.
pub open spec fn spec_dedup(names: Seq<Seq<char>>) -> Seq<Seq<char>>
    decreases names.len(),
{
    if names.len() == 0 {
        Seq::<Seq<char>>::empty()
    } else {
        let before = spec_dedup(names.drop_last());
        if before.contains(names.last()) {
            before
        } else {
            before.push(names.last())
        }
    }
}

/// The first of the requested names that the registry holds.
pub open spec fn spec_select(registry: Seq<Seq<char>>, requested: Seq<Seq<char>>) -> Option<
    Seq<char>,
>
    decreases requested.len(),
{
    if requested.len() == 0 {
        None
    } else if registry.contains(requested[0]) {
        Some(requested[0])
    } else {
        spec_select(registry, requested.drop_first())
    }
}

/// Whether a list of strings holds a name.
pub fn contains_name(list: &Vec<String>, name: &String) -> (r: bool)
    ensures
        r == spec_names(list@).contains(name@),
{
    let n: usize = list.len();
    let mut i: usize = 0;
    while i < n
        invariant
            i <= n,
            n == list@.len(),
            forall|j: int| 0 <= j < i ==> spec_names(list@)[j] != name@,
        decreases n - i,
    {
        if list[i] == *name {
            assert(spec_names(list@)[i as int] == name@);
            return true;
        }
        i = i + 1;
    }
    false
}

/// The subprotocols that one side supports, in its order of preference, each name once.
#[derive(Clone, Debug)]
pub struct ProtocolRegistry {
    names: Vec<String>,
}

impl View for ProtocolRegistry {
    type V = Seq<Seq<char>>;

    closed spec fn view(&self) -> Seq<Seq<char>> {
        spec_names(self.names@)
    }
}

impl ProtocolRegistry {
    /// The registry of these names. A name that is given again is passed over.
    pub fn new(names: Vec<String>) -> (r: ProtocolRegistry)
        ensures
            r@ == spec_dedup(spec_names(names@)),
    {
        let ghost all = spec_names(names@);
        let mut kept: Vec<String> = Vec::new();
        let n: usize = names.len();
        let mut i: usize = 0;
        assert(all.take(0) =~= Seq::<Seq<char>>::empty());
        while i < n
            invariant
                i <= n,
                n == names@.len(),
                all == spec_names(names@),
                spec_names(kept@) == spec_dedup(all.take(i as int)),
            decreases n - i,
        {
            let ghost before = spec_names(kept@);
            assert(all.take(i + 1).drop_last() =~= all.take(i as int));
            assert(all.take(i + 1).last() == names@[i as int]@);
            if !contains_name(&kept, &names[i]) {
                kept.push(names[i].clone());
                assert(spec_names(kept@) =~= before.push(names@[i as int]@));
            }
            i = i + 1;
        }
        assert(all.take(n as int) =~= all);
        ProtocolRegistry { names: kept }
    }

    /// The number of names.
    pub fn len(&self) -> (r: usize)
        ensures
            r == self@.len(),
    {
        self.names.len()
    }

    /// Whether the registry holds a name.
    pub fn contains(&self, name: &String) -> (r: bool)
        ensures
            r == self@.contains(name@),
    {
        contains_name(&self.names, name)
    }

    /// The names, in the order of preference.
    pub fn names(&self) -> (r: Vec<String>)
        ensures
            spec_names(r@) == self@,
    {
        let r = self.names.clone();
        assert(spec_names(r@) =~= spec_names(self.names@)) by {
            assert(r@.len() == self.names@.len());
            assert forall|i: int| 0 <= i < r@.len() implies r@[i]@ == self.names@[i]@ by {
                assert(vstd::pervasive::cloned(self.names@[i], r@[i]));
            }
        }
        r
    }

    /// The subprotocol that a server with this registry picks for a request: the first name
    /// in the order of the request that the registry holds.
    pub fn select(&self, requested: &Vec<String>) -> (r: Option<String>)
        ensures
            match spec_select(self@, spec_names(requested@)) {
                Some(name) => r matches Some(found) && found@ == name,
                None => r is None,
            },
    {
        let ghost all = spec_names(requested@);
        let n: usize = requested.len();
        let mut i: usize = 0;
        assert(all.skip(0) =~= all);
        while i < n
            invariant
                i <= n,
                n == requested@.len(),
                all == spec_names(requested@),
                spec_select(self@, all) == spec_select(self@, all.skip(i as int)),
            decreases n - i,
        {
            assert(all.skip(i as int)[0] == requested@[i as int]@);
            assert(all.skip(i as int).drop_first() =~= all.skip(i + 1));
            if self.contains(&requested[i]) {
                return Some(requested[i].clone());
            }
            i = i + 1;
        }
        None
    }

    /// What a client that offered this registry makes of the subprotocol that the server
    /// chose: none is in order, and so is one that was offered.
    pub fn accept_choice(&self, chosen: &Option<String>) -> (r: Result<Option<String>, Error>)
        ensures
            match *chosen {
                None => r matches Ok(found) && found is None,
                Some(name) => if self@.contains(name@) {
                    r matches Ok(Some(found)) && found@ == name@
                } else {
                    r matches Err(e) && e == Error::Handshake(HandshakeError::Subprotocol)
                },
            },
    {
        match chosen {
            None => Ok(None),
            Some(name) => if self.contains(name) {
                Ok(Some(name.clone()))
            } else {
                Err(Error::Handshake(HandshakeError::Subprotocol))
            },
        }
    }
}

/// No name stands twice in a list without repetitions, and the list holds just the names that
/// it was made of.
pub proof fn lemma_dedup(names: Seq<Seq<char>>)
    ensures
        spec_dedup(names).no_duplicates(),
        forall|name: Seq<char>| spec_dedup(names).contains(name) <==> names.contains(name),
    decreases names.len(),
{
    if names.len() > 0 {
        let before = spec_dedup(names.drop_last());
        lemma_dedup(names.drop_last());
        assert forall|name: Seq<char>| spec_dedup(names).contains(name) <==> names.contains(
            name,
        ) by {
            if names.contains(name) {
                let i = choose|i: int| 0 <= i < names.len() && names[i] == name;
                if i < names.len() - 1 {
                    assert(names.drop_last()[i] == name);
                    assert(names.drop_last().contains(name));
                    assert(before.contains(name));
                    let j = choose|j: int| 0 <= j < before.len() && before[j] == name;
                    assert(spec_dedup(names)[j] == name);
                } else {
                    if !before.contains(names.last()) {
                        assert(spec_dedup(names)[before.len() as int] == name);
                    }
                }
            }
            if spec_dedup(names).contains(name) {
                let j = choose|j: int| 0 <= j < spec_dedup(names).len() && spec_dedup(names)[j] == name;
                if j < before.len() {
                    assert(before[j] == name);
                    assert(before.contains(name));
                    assert(names.drop_last().contains(name));
                    let i = choose|i: int| 0 <= i < names.drop_last().len() && names.drop_last()[i] == name;
                    assert(names[i] == name);
                } else {
                    assert(name == names.last());
                    assert(names[names.len() - 1] == name);
                }
            }
        }
    }
}

/// The choice goes by the order of the request: a name is chosen if and only if the registry
/// holds it and holds none of the names that the request states before it.
pub proof fn lemma_select_is_first(registry: Seq<Seq<char>>, requested: Seq<Seq<char>>)
    ensures
        match spec_select(registry, requested) {
            Some(name) => exists|i: int|
                0 <= i < requested.len() && #[trigger] requested[i] == name && registry.contains(name)
                    && forall|j: int| 0 <= j < i ==> !registry.contains(#[trigger] requested[j]),
            None => forall|j: int| 0 <= j < requested.len() ==> !registry.contains(#[trigger] requested[j]),
        },
    decreases requested.len(),
{
    if requested.len() > 0 {
        if registry.contains(requested[0]) {
            assert(requested[0] == requested[0]);
        } else {
            let rest = requested.drop_first();
            lemma_select_is_first(registry, rest);
            match spec_select(registry, rest) {
                Some(name) => {
                    let i = choose|i: int|
                        0 <= i < rest.len() && #[trigger] rest[i] == name && registry.contains(name)
                            && forall|j: int| 0 <= j < i ==> !registry.contains(#[trigger] rest[j]);
                    assert(requested[i + 1] == name);
                    assert forall|j: int| 0 <= j < i + 1 implies !registry.contains(
                        #[trigger] requested[j],
                    ) by {
                        if j > 0 {
                            assert(rest[j - 1] == requested[j]);
                        }
                    }
                },
                None => {
                    assert forall|j: int| 0 <= j < requested.len() implies !registry.contains(
                        #[trigger] requested[j],
                    ) by {
                        if j > 0 {
                            assert(rest[j - 1] == requested[j]);
                        }
                    }
                },
            }
        }
    }
}

/// What an extension does during the handshake: it writes its offer, and it reads the other
/// side's offer or answer and decides what, if anything, is agreed on.
///
/// The spec functions say what the extension decides; the methods have to decide just that.
pub trait ExtensionHandshake {
    type Encoder: ExtensionEncoder;

    type Decoder: ExtensionDecoder;

    /// Whether the handshake may go on without this extension.
    spec fn spec_requirement(&self) -> Requirement;

    /// The text of the offer that a client sends.
    spec fn spec_offer(&self) -> Seq<u8>;

    /// What a client makes of the server's answer: the two halves of the extension, nothing
    /// where the answer agrees to nothing, or an error where the answer is malformed.
    spec fn spec_negotiate_client(&self, answer: Seq<u8>) -> Result<
        Option<(Self::Encoder, Self::Decoder)>,
        ExtensionError,
    >;

    /// What a server makes of the client's offer: the two halves and the answer to send,
    /// nothing where it agrees to nothing, or an error where the offer is malformed.
    spec fn spec_negotiate_server(&self, offer: Seq<u8>) -> Result<
        Option<(Self::Encoder, Self::Decoder, Seq<u8>)>,
        ExtensionError,
    >;

    fn requirement(&self) -> (r: Requirement)
        ensures
            r == self.spec_requirement(),
    ;

    /// The offer that a client sends. It is empty where there is nothing to offer.
    fn offer(&self) -> (r: Vec<u8>)
        ensures
            r@ == self.spec_offer(),
    ;

    fn negotiate_client(&self, answer: &[u8]) -> (r: Result<
        Option<(Self::Encoder, Self::Decoder)>,
        ExtensionError,
    >)
        ensures
            r == self.spec_negotiate_client(answer@),
    ;

    fn negotiate_server(&self, offer: &[u8]) -> (r: Result<
        Option<(Self::Encoder, Self::Decoder, Vec<u8>)>,
        ExtensionError,
    >)
        ensures
            match self.spec_negotiate_server(offer@) {
                Ok(Some(agreed)) => r matches Ok(Some(found)) && found.0 == agreed.0 && found.1
                    == agreed.1 && found.2@ == agreed.2,
                Ok(None) => r matches Ok(found) && found is None,
                Err(e) => r matches Err(found) && found == e,
            },
    ;
}

/// No extension at all: it offers nothing and agrees to nothing. A server that answers an
/// offer that was never made is refused.
#[derive(Clone, Copy, Debug, PartialEq, Eq, Structural)]
pub struct NoExt;

impl ExtensionHandshake for NoExt {
    type Encoder = NoExtEncoder;

    type Decoder = NoExtDecoder;

    open spec fn spec_requirement(&self) -> Requirement {
        Requirement::Optional
    }

    open spec fn spec_offer(&self) -> Seq<u8> {
        Seq::<u8>::empty()
    }

    open spec fn spec_negotiate_client(&self, answer: Seq<u8>) -> Result<
        Option<(NoExtEncoder, NoExtDecoder)>,
        ExtensionError,
    > {
        if spec_trim(answer).len() == 0 {
            Ok(None)
        } else {
            Err(ExtensionError)
        }
    }

    open spec fn spec_negotiate_server(&self, offer: Seq<u8>) -> Result<
        Option<(NoExtEncoder, NoExtDecoder, Seq<u8>)>,
        ExtensionError,
    > {
        Ok(None)
    }

    fn requirement(&self) -> (r: Requirement) {
        Requirement::Optional
    }

    fn offer(&self) -> (r: Vec<u8>) {
        Vec::new()
    }

    fn negotiate_client(&self, answer: &[u8]) -> (r: Result<
        Option<(NoExtEncoder, NoExtDecoder)>,
        ExtensionError,
    >) {
        if trim(answer).len() == 0 {
            Ok(None)
        } else {
            Err(ExtensionError)
        }
    }

    fn negotiate_server(&self, offer: &[u8]) -> (r: Result<
        Option<(NoExtEncoder, NoExtDecoder, Vec<u8>)>,
        ExtensionError,
    >) {
        Ok(None)
    }
}

/// What a server's response holds, as far as the handshake reads it.
#[derive(Clone, Debug)]
pub struct UpgradeResponse {
    pub status: u16,
    /// The accept value, empty where the response has none.
    pub accept: Vec<u8>,
    /// The subprotocol that the server chose, if it chose one.
    pub protocol: Option<String>,
    /// The text of the extension header, empty where the response has none.
    pub extensions: Vec<u8>,
}

/// What a client's request holds, as far as the handshake reads it.
#[derive(Clone, Debug)]
pub struct UpgradeRequest {
    /// What the request asks to upgrade to, empty where it does not say.
    pub upgrade: Vec<u8>,
    /// The options that the request states for its connection, with commas between them, empty
    /// where it states none.
    pub connection: Vec<u8>,
    /// The key, if the request has one.
    pub key: Option<Vec<u8>>,
    /// The version of the protocol that the request asks for, if it states one.
    pub version: Option<u8>,
    /// The subprotocols that the client offers, in its order of preference.
    pub protocols: Vec<String>,
    /// The text of the extension header, empty where the request has none.
    pub extensions: Vec<u8>,
}

/// What a handshake agreed on.
#[derive(Debug)]
pub struct HandshakeResult<En, De> {
    pub protocol: Option<String>,
    pub extension: NegotiatedExtension<En, De>,
}

/// What a server answers to a request that it accepts.
#[derive(Clone, Debug, PartialEq, Eq)]
pub struct UpgradeAnswer {
    /// The accept value for the response.
    pub accept: Vec<u8>,
    /// The subprotocol that the server chose, if it chose one.
    pub protocol: Option<String>,
    /// The text of the extension header for the response, empty where nothing was agreed on.
    pub extensions: Vec<u8>,
}

/// Why a client refuses a response, if it does: the first of a status other than 101, an
/// accept value that does not answer the key, a subprotocol that was not offered, an answer
/// that the extension cannot read, all of which fail the handshake, and no agreement on a
/// required extension.
pub open spec fn spec_response_error<E: ExtensionHandshake>(
    response: &UpgradeResponse,
    key: Seq<u8>,
    extension: &E,
    offered: Seq<Seq<char>>,
) -> Option<Error> {
    if response.status != SWITCHING_PROTOCOLS {
        Some(Error::Handshake(HandshakeError::Status))
    } else if response.accept@ != spec_accept_value(key) {
        Some(Error::Handshake(HandshakeError::Accept))
    } else if response.protocol matches Some(name) && !offered.contains(name@) {
        Some(Error::Handshake(HandshakeError::Subprotocol))
    } else {
        match extension.spec_negotiate_client(response.extensions@) {
            Err(_) => Some(Error::Handshake(HandshakeError::Extension)),
            Ok(None) => if extension.spec_requirement() == Requirement::Required {
                Some(Error::Extension)
            } else {
                None
            },
            Ok(Some(_)) => None,
        }
    }
}

/// Whether a request has what every request must have: it asks to upgrade to `websocket`, it
/// states `Upgrade` among the options of its connection, both without regard to case, it has
/// a key, and its version is 13.
pub open spec fn spec_well_formed(request: &UpgradeRequest) -> bool {
    &&& spec_same_name(request.upgrade@, spec_upgrade_name())
    &&& spec_holds_name(request.connection@, spec_connection_name())
    &&& request.key is Some
    &&& request.version == Some(PROTOCOL_VERSION)
}

/// Why a server refuses a request, if it does: the first of a request that lacks what every
/// request must have, an offer that the extension cannot read, both of which make a bad
/// request, and no agreement on a required extension.
pub open spec fn spec_request_error<E: ExtensionHandshake>(
    request: &UpgradeRequest,
    extension: &E,
) -> Option<Error> {
    if !spec_well_formed(request) {
        Some(Error::Handshake(HandshakeError::BadRequest))
    } else {
        match extension.spec_negotiate_server(request.extensions@) {
            Err(_) => Some(Error::Handshake(HandshakeError::BadRequest)),
            Ok(None) => if extension.spec_requirement() == Requirement::Required {
                Some(Error::Extension)
            } else {
                None
            },
            Ok(Some(_)) => None,
        }
    }
}

/// Checks, for a client, the response to a request that was sent with `key` and that offered
/// the subprotocols of the registry. An accepted response gives the subprotocol that the
/// server chose and the extension that was agreed on.
pub fn check_response<E: ExtensionHandshake>(
    response: &UpgradeResponse,
    key: &[u8],
    extension: &E,
    subprotocols: &ProtocolRegistry,
) -> (r: Result<HandshakeResult<E::Encoder, E::Decoder>, Error>)
    ensures
        match spec_response_error(response, key@, extension, subprotocols@) {
            Some(e) => r matches Err(found) && found == e,
            None => r matches Ok(agreed) && (match response.protocol {
                Some(name) => agreed.protocol matches Some(found) && found@ == name@,
                None => agreed.protocol is None,
            }) && (match extension.spec_negotiate_client(response.extensions@) {
                Ok(Some(halves)) => agreed.extension.encoder == Some(halves.0)
                    && agreed.extension.decoder == Some(halves.1),
                _ => agreed.extension.encoder is None && agreed.extension.decoder is None,
            }),
        },
{
    if response.status != SWITCHING_PROTOCOLS {
        return Err(Error::Handshake(HandshakeError::Status));
    }
    let expected: Vec<u8> = accept_value(key);
    if !same_bytes(response.accept.as_slice(), expected.as_slice()) {
        return Err(Error::Handshake(HandshakeError::Accept));
    }
    let protocol = match subprotocols.accept_choice(&response.protocol) {
        Err(e) => {
            return Err(e);
        },
        Ok(p) => p,
    };
    let agreed = match extension.negotiate_client(response.extensions.as_slice()) {
        Err(_) => {
            return Err(Error::Handshake(HandshakeError::Extension));
        },
        Ok(a) => a,
    };
    match settle(extension.requirement(), agreed) {
        Err(e) => Err(e),
        Ok(ext) => Ok(HandshakeResult { protocol: protocol, extension: ext }),
    }
}

/// What a server answers to a request that it accepts: the accept value for the key, the first
/// subprotocol in the order of the request that the registry holds, and the header of the
/// extension that was agreed on.
pub open spec fn spec_answers<E: ExtensionHandshake>(
    answer: UpgradeAnswer,
    request: &UpgradeRequest,
    extension: &E,
    registry: Seq<Seq<char>>,
) -> bool {
    &&& request.key matches Some(key) && answer.accept@ == spec_accept_value(key@)
    &&& match spec_select(registry, spec_names(request.protocols@)) {
        Some(name) => answer.protocol matches Some(found) && found@ == name,
        None => answer.protocol is None,
    }
    &&& match extension.spec_negotiate_server(request.extensions@) {
        Ok(Some(agreed)) => answer.extensions@ == agreed.2,
        _ => answer.extensions@.len() == 0,
    }
}

/// Checks, for a server, a request, and prepares the answer. An accepted request gives the
/// answer and the extension that was agreed on.
pub fn accept_request<E: ExtensionHandshake>(
    request: &UpgradeRequest,
    extension: &E,
    subprotocols: &ProtocolRegistry,
) -> (r: Result<(UpgradeAnswer, NegotiatedExtension<E::Encoder, E::Decoder>), Error>)
    ensures
        match spec_request_error(request, extension) {
            Some(e) => r matches Err(found) && found == e,
            None => r matches Ok(made) && spec_answers(made.0, request, extension, subprotocols@) && (
            match extension.spec_negotiate_server(request.extensions@) {
                Ok(Some(agreed)) => made.1.encoder == Some(agreed.0) && made.1.decoder == Some(
                    agreed.1,
                ),
                _ => made.1.encoder is None && made.1.decoder is None,
            }),
        },
{
    let wanted = upgrade_name();
    if !same_name(request.upgrade.as_slice(), wanted.as_slice()) {
        return Err(Error::Handshake(HandshakeError::BadRequest));
    }
    let option = connection_name();
    if !holds_name(request.connection.as_slice(), option.as_slice()) {
        return Err(Error::Handshake(HandshakeError::BadRequest));
    }
    let key = match &request.key {
        None => {
            return Err(Error::Handshake(HandshakeError::BadRequest));
        },
        Some(k) => k,
    };
    match request.version {
        Some(v) => {
            if v != PROTOCOL_VERSION {
                return Err(Error::Handshake(HandshakeError::BadRequest));
            }
        },
        None => {
            return Err(Error::Handshake(HandshakeError::BadRequest));
        },
    }
    let agreed = match extension.negotiate_server(request.extensions.as_slice()) {
        Err(_) => {
            return Err(Error::Handshake(HandshakeError::BadRequest));
        },
        Ok(a) => a,
    };
    let (halves, header) = match agreed {
        Some(found) => (Some((found.0, found.1)), found.2),
        None => (None, Vec::new()),
    };
    let ext = match settle(extension.requirement(), halves) {
        Err(e) => {
            return Err(e);
        },
        Ok(ext) => ext,
    };
    let protocol = subprotocols.select(&request.protocols);
    let accept = accept_value(key.as_slice());
    Ok((UpgradeAnswer { accept: accept, protocol: protocol, extensions: header }, ext))
}

/// A new key for a request: sixteen bytes drawn at random, written in base64.
pub fn request_key() -> (r: Vec<u8>)
    ensures
        exists|nonce: Seq<u8>| nonce.len() == 16 && r@ == #[trigger] spec_base64(nonce),
{
    let mut nonce: Vec<u8> = Vec::new();
    let mut i: usize = 0;
    while i < 4
        invariant
            i <= 4,
            nonce@.len() == 4 * i,
        decreases 4 - i,
    {
        let part: [u8; 4] = key_bytes(fresh_key());
        nonce.extend_from_slice(part.as_slice());
        i = i + 1;
    }
    base64_encode(nonce.as_slice())
}

/// What a client asks for: the upgrade to `websocket`, the protocol's version, the key, the
/// subprotocols of the registry in their order, and the offer of the extension.
pub fn upgrade_request<E: ExtensionHandshake>(
    key: Vec<u8>,
    extension: &E,
    subprotocols: &ProtocolRegistry,
) -> (r: UpgradeRequest)
    ensures
        r.upgrade@ == spec_upgrade_name(),
        r.connection@ == spec_connection_name(),
        r.key == Some(key),
        r.version == Some(PROTOCOL_VERSION),
        spec_names(r.protocols@) == subprotocols@,
        r.extensions@ == extension.spec_offer(),
{
    let wanted = upgrade_name();
    let option = connection_name();
    UpgradeRequest {
        upgrade: vstd::slice::slice_to_vec(wanted.as_slice()),
        connection: vstd::slice::slice_to_vec(option.as_slice()),
        key: Some(key),
        version: Some(PROTOCOL_VERSION),
        protocols: subprotocols.names(),
        extensions: extension.offer(),
    }
}

} // verus!
