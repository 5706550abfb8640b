//! Notify messages.

use vstd::prelude::*;
use vstd::string::StringSliceAdditionalSpecFns;

use crate::error::SSDPError;
use crate::header::{values_view, Header};
use crate::message::{same_name, FromRawSSDP, Headers, SSDPMessage};
use crate::wire::{message_text, parse_message, MessageType};

verus! {

/// A notify message, sent by multicast to announce a device or service.
#[derive(Clone, Debug)]
pub struct NotifyMessage {
    headers: Headers,
}

impl NotifyMessage {
    /// The kind of the message, fixed by its type.
    pub open spec fn spec_kind(&self) -> MessageType {
        MessageType::Notify
    }

    pub closed spec fn spec_headers(&self) -> Headers {
        self.headers
    }

    /// The header lines, in order.
    pub open spec fn spec_fields(&self) -> Seq<(Seq<u8>, Seq<u8>)> {
        self.spec_headers().spec_fields()
    }

    /// A message with no headers.
    pub fn new() -> (r: NotifyMessage)
        ensures
            r.spec_fields() == Seq::<(Seq<u8>, Seq<u8>)>::empty(),
            r.spec_headers().spec_empty_names() == Seq::<Seq<u8>>::empty(),
    {
        NotifyMessage { headers: Headers::new() }
    }

    /// Reads a message from bytes; a message of another kind is refused.
    pub fn raw_ssdp(bytes: &[u8]) -> (r: Result<NotifyMessage, SSDPError>)
        ensures
            r is Ok <==> parse_message(bytes@) is Ok && parse_message(bytes@)->Ok_0.0
                == MessageType::Notify,
            r is Ok ==> r->Ok_0.spec_fields() == parse_message(bytes@)->Ok_0.1,
            r is Ok ==> r->Ok_0.spec_headers().spec_empty_names() == Seq::<Seq<u8>>::empty(),
            r is Err && parse_message(bytes@) is Err ==> r->Err_0 == parse_message(bytes@)->Err_0,
            r is Err && parse_message(bytes@) is Ok ==> r->Err_0 == SSDPError::WrongMessageType,
    {
        let message = SSDPMessage::decode(bytes)?;
        if message.message_type() != MessageType::Notify {
            Err(SSDPError::WrongMessageType)
        } else {
            Ok(NotifyMessage { headers: message.into_headers() })
        }
    }

    /// The typed value of the header `H`; `None` when the header is not set or
    /// its values do not read as `H`.
    pub fn get<H: Header>(&self) -> (r: Option<H>)
        ensures
            r is Some <==> self.spec_headers().spec_present(H::spec_name()) && H::spec_accepts(
                self.spec_headers().spec_values(H::spec_name()),
            ),
            r is Some ==> H::spec_denotes(self.spec_headers().spec_values(H::spec_name()), r->Some_0),
    {
        self.headers.get::<H>()
    }

    /// The values of the header `name`, in order; `None` when it is not set.
    /// A header that was set with no values gives an empty list.
    pub fn get_raw(&self, name: &str) -> (r: Option<Vec<Vec<u8>>>)
        ensures
            r is Some <==> self.spec_headers().spec_present(name.spec_bytes()),
            r is Some ==> values_view(r->Some_0@) == self.spec_headers().spec_values(
                name.spec_bytes(),
            ),
    {
        self.headers.get_raw(name)
    }

    /// Sets the header `H` to `value`, in place of any earlier values.
    pub fn set<H: Header>(&mut self, value: H)
        ensures
            forall|n: Seq<u8>|
                #[trigger] final(self).spec_headers().spec_present(n) == (same_name(
                    n,
                    H::spec_name(),
                ) || old(self).spec_headers().spec_present(n)),
            forall|n: Seq<u8>|
                #[trigger] final(self).spec_headers().spec_values(n) == if same_name(
                    n,
                    H::spec_name(),
                ) {
                    seq![value.spec_format()]
                } else {
                    old(self).spec_headers().spec_values(n)
                },
    {
        self.headers.set(value)
    }

    /// Sets the header `name` to `values`, in order, in place of any earlier
    /// values; with no values it stays set, with none.
    pub fn set_raw(&mut self, name: &str, values: Vec<Vec<u8>>)
        ensures
            forall|n: Seq<u8>|
                #[trigger] final(self).spec_headers().spec_present(n) == (same_name(
                    n,
                    name.spec_bytes(),
                ) || old(self).spec_headers().spec_present(n)),
            forall|n: Seq<u8>|
                #[trigger] final(self).spec_headers().spec_values(n) == if same_name(
                    n,
                    name.spec_bytes(),
                ) {
                    values_view(values@)
                } else {
                    old(self).spec_headers().spec_values(n)
                },
    {
        self.headers.set_raw(name, values)
    }

    /// The bytes that the message is written as, under its own start line.
    pub fn encode(&self) -> (r: Vec<u8>)
        ensures
            r@ == message_text(self.spec_kind(), self.spec_fields()),
    {
        self.headers.encode(MessageType::Notify)
    }
}

impl Default for NotifyMessage {
    fn default() -> (r: NotifyMessage)
        ensures
            r.spec_kind() == MessageType::Notify,
            r.spec_fields() == Seq::<(Seq<u8>, Seq<u8>)>::empty(),
            r.spec_headers().spec_empty_names() == Seq::<Seq<u8>>::empty(),
    {
        NotifyMessage::new()
    }
}

impl FromRawSSDP for NotifyMessage {
    fn raw_ssdp(bytes: &[u8]) -> (r: Result<NotifyMessage, SSDPError>) {
        NotifyMessage::raw_ssdp(bytes)
    }
}

/// Listens for notify messages.
pub struct NotifyListener;

} // verus!
