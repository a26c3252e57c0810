//! Extensions: what may change a data frame's payload between the application and the wire.
//!
//! An extension is agreed on once, during the opening handshake, and then has two halves that
//! never share state: an encoder, which sees every outgoing data payload before it is masked,
//! and a decoder, which sees every incoming data payload after it was unmasked. Where none was
//! agreed on, payloads pass unchanged.
//!
//! This crate holds the interface and the empty extension, and no other. An extension that
//! compresses, such as permessage-deflate, needs a compressor from another crate: it
//! implements the traits here and brings the compressor with it.

use vstd::prelude::*;
use crate::errors::Error;
use crate::frame::HeaderFlags;
use crate::protocol::DataCode;

verus! {

/// An extension refused a payload, or an offer that it had to accept.
#[derive(Clone, Copy, Debug, PartialEq, Eq, Structural)]
pub struct ExtensionError;

/// The sending half of an extension.
///
/// The spec functions say what an encoder in a given state makes of a payload and in what state
/// that leaves it; `encode` has to do just that. The reserved bits that an encoder claims never
/// change.
pub trait ExtensionEncoder: Sized {
    /// The reserved bits that this encoder may set. The final flag is not read.
    spec fn spec_reserved(&self) -> HeaderFlags;

    /// The payload and the flags that go on the wire in place of those given, or `None` where
    /// the encoder refuses them.
    spec fn spec_encode(&self, payload: Seq<u8>, flags: HeaderFlags, opcode: DataCode) -> Option<
        (Seq<u8>, HeaderFlags),
    >;

    /// The encoder after it was given this payload.
    spec fn spec_after_encode(&self, payload: Seq<u8>, flags: HeaderFlags, opcode: DataCode) -> Self;

    fn reserved(&self) -> (r: HeaderFlags)
        ensures
            r == self.spec_reserved(),
    ;

    fn encode(&mut self, payload: &mut Vec<u8>, flags: &mut HeaderFlags, opcode: DataCode) -> (r:
        Result<(), ExtensionError>)
        ensures
            *final(self) == old(self).spec_after_encode(old(payload)@, *old(flags), opcode),
            final(self).spec_reserved() == old(self).spec_reserved(),
            match old(self).spec_encode(old(payload)@, *old(flags), opcode) {
                Some(made) => r is Ok && final(payload)@ == made.0 && *final(flags) == made.1,
                None => r is Err,
            },
    ;
}

/// The receiving half of an extension.
pub trait ExtensionDecoder: Sized {
    /// The reserved bits that this decoder accepts on a frame. The final flag is not read.
    spec fn spec_reserved(&self) -> HeaderFlags;

    /// The payload that the application gets in place of the one that came with these flags, or
    /// `None` where the decoder refuses it.
    spec fn spec_decode(&self, payload: Seq<u8>, flags: HeaderFlags, opcode: DataCode) -> Option<
        Seq<u8>,
    >;

    /// The decoder after it was given this payload.
    spec fn spec_after_decode(&self, payload: Seq<u8>, flags: HeaderFlags, opcode: DataCode) -> Self;

    fn reserved(&self) -> (r: HeaderFlags)
        ensures
            r == self.spec_reserved(),
    ;

    fn decode(&mut self, payload: &mut Vec<u8>, flags: HeaderFlags, opcode: DataCode) -> (r: Result<
        (),
        ExtensionError,
    >)
        ensures
            *final(self) == old(self).spec_after_decode(old(payload)@, flags, opcode),
            final(self).spec_reserved() == old(self).spec_reserved(),
            match old(self).spec_decode(old(payload)@, flags, opcode) {
                Some(made) => r is Ok && final(payload)@ == made,
                None => r is Err,
            },
    ;
}

/// The encoder that changes nothing.
#[derive(Clone, Copy, Debug, PartialEq, Eq, Structural)]
pub struct NoExtEncoder;

/// The decoder that changes nothing.
#[derive(Clone, Copy, Debug, PartialEq, Eq, Structural)]
pub struct NoExtDecoder;

impl ExtensionEncoder for NoExtEncoder {
    open spec fn spec_reserved(&self) -> HeaderFlags {
        HeaderFlags { fin: false, rsv1: false, rsv2: false, rsv3: false }
    }

    open spec fn spec_encode(&self, payload: Seq<u8>, flags: HeaderFlags, opcode: DataCode) -> Option<
        (Seq<u8>, HeaderFlags),
    > {
        Some((payload, flags))
    }

    open spec fn spec_after_encode(&self, payload: Seq<u8>, flags: HeaderFlags, opcode: DataCode) -> Self {
        *self
    }

    fn reserved(&self) -> (r: HeaderFlags) {
        HeaderFlags::empty()
    }

    fn encode(&mut self, payload: &mut Vec<u8>, flags: &mut HeaderFlags, opcode: DataCode) -> (r:
        Result<(), ExtensionError>) {
        Ok(())
    }
}

impl ExtensionDecoder for NoExtDecoder {
    open spec fn spec_reserved(&self) -> HeaderFlags {
        HeaderFlags { fin: false, rsv1: false, rsv2: false, rsv3: false }
    }

    open spec fn spec_decode(&self, payload: Seq<u8>, flags: HeaderFlags, opcode: DataCode) -> Option<
        Seq<u8>,
    > {
        Some(payload)
    }

    open spec fn spec_after_decode(&self, payload: Seq<u8>, flags: HeaderFlags, opcode: DataCode) -> Self {
        *self
    }

    fn reserved(&self) -> (r: HeaderFlags) {
        HeaderFlags::empty()
    }

    fn decode(&mut self, payload: &mut Vec<u8>, flags: HeaderFlags, opcode: DataCode) -> (r: Result<
        (),
        ExtensionError,
    >) {
        Ok(())
    }
}

/// The reserved bits that an encoder, if there is one, may set.
pub open spec fn spec_encoder_reserved<En: ExtensionEncoder>(encoder: Option<En>) -> HeaderFlags {
    match encoder {
        Some(e) => HeaderFlags {
            fin: false,
            rsv1: e.spec_reserved().rsv1,
            rsv2: e.spec_reserved().rsv2,
            rsv3: e.spec_reserved().rsv3,
        },
        None => HeaderFlags { fin: false, rsv1: false, rsv2: false, rsv3: false },
    }
}

/// The reserved bits that a decoder, if there is one, accepts.
pub open spec fn spec_decoder_reserved<De: ExtensionDecoder>(decoder: Option<De>) -> HeaderFlags {
    match decoder {
        Some(d) => HeaderFlags {
            fin: false,
            rsv1: d.spec_reserved().rsv1,
            rsv2: d.spec_reserved().rsv2,
            rsv3: d.spec_reserved().rsv3,
        },
        None => HeaderFlags { fin: false, rsv1: false, rsv2: false, rsv3: false },
    }
}

/// What goes on the wire for an outgoing data payload: what the encoder makes of it, if there
/// is an encoder, it keeps the final flag and it sets no reserved bit but those that it claims.
/// `None` stands for a refusal.
pub open spec fn spec_extension_encode<En: ExtensionEncoder>(
    encoder: Option<En>,
    payload: Seq<u8>,
    flags: HeaderFlags,
    opcode: DataCode,
) -> Option<(Seq<u8>, HeaderFlags)> {
    match encoder {
        None => Some((payload, flags)),
        Some(e) => match e.spec_encode(payload, flags, opcode) {
            None => None,
            Some(made) => if made.1.fin == flags.fin && made.1.spec_reserved_within(
                e.spec_reserved(),
            ) {
                Some(made)
            } else {
                None
            },
        },
    }
}

/// What the application gets for an incoming data payload. `None` stands for a refusal.
pub open spec fn spec_extension_decode<De: ExtensionDecoder>(
    decoder: Option<De>,
    payload: Seq<u8>,
    flags: HeaderFlags,
    opcode: DataCode,
) -> Option<Seq<u8>> {
    match decoder {
        None => Some(payload),
        Some(d) => d.spec_decode(payload, flags, opcode),
    }
}

/// The encoder, if there is one, after an outgoing data payload went through it.
pub open spec fn spec_encoder_after<En: ExtensionEncoder>(
    encoder: Option<En>,
    payload: Seq<u8>,
    flags: HeaderFlags,
    opcode: DataCode,
) -> Option<En> {
    match encoder {
        None => None,
        Some(e) => Some(e.spec_after_encode(payload, flags, opcode)),
    }
}

/// The decoder, if there is one, after an incoming data payload went through it.
pub open spec fn spec_decoder_after<De: ExtensionDecoder>(
    decoder: Option<De>,
    payload: Seq<u8>,
    flags: HeaderFlags,
    opcode: DataCode,
) -> Option<De> {
    match decoder {
        None => None,
        Some(d) => Some(d.spec_after_decode(payload, flags, opcode)),
    }
}

pub fn encoder_reserved<En: ExtensionEncoder>(encoder: &Option<En>) -> (r: HeaderFlags)
    ensures
        r == spec_encoder_reserved(*encoder),
{
    match encoder {
        Some(e) => {
            let claimed = e.reserved();
            HeaderFlags { fin: false, rsv1: claimed.rsv1, rsv2: claimed.rsv2, rsv3: claimed.rsv3 }
        },
        None => HeaderFlags::empty(),
    }
}

pub fn decoder_reserved<De: ExtensionDecoder>(decoder: &Option<De>) -> (r: HeaderFlags)
    ensures
        r == spec_decoder_reserved(*decoder),
{
    match decoder {
        Some(d) => {
            let claimed = d.reserved();
            HeaderFlags { fin: false, rsv1: claimed.rsv1, rsv2: claimed.rsv2, rsv3: claimed.rsv3 }
        },
        None => HeaderFlags::empty(),
    }
}

/// Runs an outgoing data payload through the encoder, if there is one, and holds the encoder
/// to its claims: a result with another final flag or with a reserved bit that the encoder does
/// not claim is an error.
pub fn extension_encode<En: ExtensionEncoder>(
    encoder: &mut Option<En>,
    payload: &mut Vec<u8>,
    flags: &mut HeaderFlags,
    opcode: DataCode,
) -> (r: Result<(), Error>)
    ensures
        *final(encoder) == spec_encoder_after(*old(encoder), old(payload)@, *old(flags), opcode),
        spec_encoder_reserved(*final(encoder)) == spec_encoder_reserved(*old(encoder)),
        match spec_extension_encode(*old(encoder), old(payload)@, *old(flags), opcode) {
            Some(made) => r == Ok::<(), Error>(()) && final(payload)@ == made.0 && *final(flags)
                == made.1,
            None => r == Err::<(), Error>(Error::Extension),
        },
{
    let fin: bool = flags.fin;
    match encoder {
        None => Ok(()),
        Some(e) => {
            match e.encode(payload, flags, opcode) {
                Err(_) => Err(Error::Extension),
                Ok(_) => {
                    let claimed = e.reserved();
                    if flags.fin == fin && flags.reserved_within(claimed) {
                        Ok(())
                    } else {
                        Err(Error::Extension)
                    }
                },
            }
        },
    }
}

/// Runs an incoming data payload through the decoder, if there is one.
pub fn extension_decode<De: ExtensionDecoder>(
    decoder: &mut Option<De>,
    payload: &mut Vec<u8>,
    flags: HeaderFlags,
    opcode: DataCode,
) -> (r: Result<(), Error>)
    ensures
        *final(decoder) == spec_decoder_after(*old(decoder), old(payload)@, flags, opcode),
        spec_decoder_reserved(*final(decoder)) == spec_decoder_reserved(*old(decoder)),
        match spec_extension_decode(*old(decoder), old(payload)@, flags, opcode) {
            Some(made) => r == Ok::<(), Error>(()) && final(payload)@ == made,
            None => r == Err::<(), Error>(Error::Extension),
        },
{
    match decoder {
        None => Ok(()),
        Some(d) => {
            match d.decode(payload, flags, opcode) {
                Err(_) => Err(Error::Extension),
                Ok(_) => Ok(()),
            }
        },
    }
}

/// The extension that a handshake agreed on: its two halves, or nothing.
#[derive(Debug)]
pub struct NegotiatedExtension<En, De> {
    pub encoder: Option<En>,
    pub decoder: Option<De>,
}

impl<En: ExtensionEncoder, De: ExtensionDecoder> NegotiatedExtension<En, De> {
    /// No extension: payloads pass unchanged.
    pub fn identity() -> (r: Self)
        ensures
            r.encoder is None,
            r.decoder is None,
    {
        NegotiatedExtension { encoder: None, decoder: None }
    }

    /// The extension with these two halves.
    pub fn active(encoder: En, decoder: De) -> (r: Self)
        ensures
            r.encoder == Some(encoder),
            r.decoder == Some(decoder),
    {
        NegotiatedExtension { encoder: Some(encoder), decoder: Some(decoder) }
    }

    /// Whether payloads pass unchanged because nothing was agreed on.
    pub fn is_identity(&self) -> (r: bool)
        ensures
            r == (self.encoder is None && self.decoder is None),
    {
        self.encoder.is_none() && self.decoder.is_none()
    }
}

/// Whether a handshake may go on without the extension.
#[derive(Clone, Copy, Debug, PartialEq, Eq, Structural)]
pub enum Requirement {
    /// Without it the handshake fails.
    Required,
    /// Without it payloads pass unchanged.
    Optional,
}

/// Ends a negotiation. What was agreed on is used; where nothing was, an optional extension
/// gives way to none at all, and a required one fails the handshake.
pub fn settle<En: ExtensionEncoder, De: ExtensionDecoder>(
    requirement: Requirement,
    agreed: Option<(En, De)>,
) -> (r: Result<NegotiatedExtension<En, De>, Error>)
    ensures
        match agreed {
            Some(halves) => r matches Ok(ext) && ext.encoder == Some(halves.0) && ext.decoder
                == Some(halves.1),
            None => match requirement {
                Requirement::Optional => r matches Ok(ext) && ext.encoder is None && ext.decoder
                    is None,
                Requirement::Required => r matches Err(e) && e == Error::Extension,
            },
        },
{
    match agreed {
        Some(halves) => Ok(NegotiatedExtension::active(halves.0, halves.1)),
        None => match requirement {
            Requirement::Optional => Ok(NegotiatedExtension::identity()),
            Requirement::Required => Err(Error::Extension),
        },
    }
}

} // verus!
