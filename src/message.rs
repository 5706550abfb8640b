//! The message model: a kind and a set of headers, and its wire encoding.

use vstd::prelude::*;
use vstd::string::{StrSliceExecFns, StringExecFns, StringSliceAdditionalSpecFns};

use crate::error::SSDPError;
use crate::header::{values_view, Header};
use crate::net::IpVersionMode;
use crate::wire::{
    copy_range, decode_message, encode_message, fields_view, message_text, parse_message, RawField,
};

pub use crate::wire::MessageType;

verus! {

/// The IPv4 multicast address of the protocol.
pub const UPNP_MULTICAST_IPV4_ADDR: &'static str = "239.255.255.250";

/// The IPv6 link-local multicast address of the protocol.
pub const UPNP_MULTICAST_IPV6_LINK_LOCAL_ADDR: &'static str = "FF02::C";

/// The multicast port of the protocol.
pub const UPNP_MULTICAST_PORT: u16 = 1900;

/// The default time-to-live of multicast datagrams.
pub const UPNP_MULTICAST_TTL: u32 = 2;

/// Where and how messages are multicast.
#[derive(Clone)]
pub struct Config {
    pub ipv4_addr: String,
    pub ipv6_addr: String,
    pub port: u16,
    pub ttl: u32,
    pub mode: IpVersionMode,
}

impl Config {
    /// The protocol's standard addresses and port, a TTL of 2, both IP families.
    pub fn new() -> (r: Config)
        ensures
            r.ipv4_addr@ == UPNP_MULTICAST_IPV4_ADDR@,
            r.ipv6_addr@ == UPNP_MULTICAST_IPV6_LINK_LOCAL_ADDR@,
            r.port == UPNP_MULTICAST_PORT,
            r.ttl == UPNP_MULTICAST_TTL,
            r.mode == IpVersionMode::Any,
    {
        Config {
            ipv4_addr: String::from_str(UPNP_MULTICAST_IPV4_ADDR),
            ipv6_addr: String::from_str(UPNP_MULTICAST_IPV6_LINK_LOCAL_ADDR),
            port: UPNP_MULTICAST_PORT,
            ttl: UPNP_MULTICAST_TTL,
            mode: IpVersionMode::Any,
        }
    }

    /// The IPv4 multicast address.
    pub fn set_ipv4_addr(self, value: &str) -> (r: Config)
        ensures
            r.ipv4_addr@ == value@,
            r.ipv6_addr == self.ipv6_addr,
            r.port == self.port,
            r.ttl == self.ttl,
            r.mode == self.mode,
    {
        Config { ipv4_addr: String::from_str(value), ..self }
    }

    /// The IPv6 multicast address.
    pub fn set_ipv6_addr(self, value: &str) -> (r: Config)
        ensures
            r.ipv6_addr@ == value@,
            r.ipv4_addr == self.ipv4_addr,
            r.port == self.port,
            r.ttl == self.ttl,
            r.mode == self.mode,
    {
        Config { ipv6_addr: String::from_str(value), ..self }
    }

    /// The multicast port.
    pub fn set_port(self, value: u16) -> (r: Config)
        ensures
            r.port == value,
            r.ipv4_addr == self.ipv4_addr,
            r.ipv6_addr == self.ipv6_addr,
            r.ttl == self.ttl,
            r.mode == self.mode,
    {
        Config { port: value, ..self }
    }

    /// The time-to-live of multicast datagrams.
    pub fn set_ttl(self, value: u32) -> (r: Config)
        ensures
            r.ttl == value,
            r.ipv4_addr == self.ipv4_addr,
            r.ipv6_addr == self.ipv6_addr,
            r.port == self.port,
            r.mode == self.mode,
    {
        Config { ttl: value, ..self }
    }

    /// The IP families used.
    pub fn set_mode(self, value: IpVersionMode) -> (r: Config)
        ensures
            r.mode == value,
            r.ipv4_addr == self.ipv4_addr,
            r.ipv6_addr == self.ipv6_addr,
            r.port == self.port,
            r.ttl == self.ttl,
    {
        Config { mode: value, ..self }
    }
}

impl Default for Config {
    fn default() -> (r: Config)
        ensures
            r.ipv4_addr@ == UPNP_MULTICAST_IPV4_ADDR@,
            r.ipv6_addr@ == UPNP_MULTICAST_IPV6_LINK_LOCAL_ADDR@,
            r.port == UPNP_MULTICAST_PORT,
            r.ttl == UPNP_MULTICAST_TTL,
            r.mode == IpVersionMode::Any,
    {
        Config::new()
    }
}

/// Builds a value from the bytes of one datagram.
pub trait FromRawSSDP: Sized {
    fn raw_ssdp(bytes: &[u8]) -> Result<Self, SSDPError>;
}

/// ASCII letters folded to lower case.
pub open spec fn lower(b: u8) -> u8 {
    if 65 <= b <= 90 {
        (b + 32) as u8
    } else {
        b
    }
}

/// Two header names are the same but for the case of ASCII letters.
pub open spec fn same_name(a: Seq<u8>, b: Seq<u8>) -> bool {
    a.len() == b.len() && forall|i: int| 0 <= i < a.len() ==> lower(#[trigger] a[i]) == lower(b[i])
}

/// The values of the header `name` among the header lines `fs`, in order.
pub open spec fn values_of(fs: Seq<(Seq<u8>, Seq<u8>)>, name: Seq<u8>) -> Seq<Seq<u8>>
    decreases fs.len(),
{
    if fs.len() == 0 {
        Seq::empty()
    } else {
        let prev = values_of(fs.drop_last(), name);
        if same_name(fs.last().0, name) {
            prev.push(fs.last().1)
        } else {
            prev
        }
    }
}

proof fn lemma_values_of_push(fs: Seq<(Seq<u8>, Seq<u8>)>, f: (Seq<u8>, Seq<u8>), name: Seq<u8>)
    ensures
        values_of(fs.push(f), name) == if same_name(f.0, name) {
            values_of(fs, name).push(f.1)
        } else {
            values_of(fs, name)
        },
{
    assert(fs.push(f).drop_last() =~= fs);
}

proof fn lemma_same_name_trans(a: Seq<u8>, b: Seq<u8>, c: Seq<u8>)
    ensures
        same_name(a, b) ==> same_name(b, a),
        same_name(a, b) && same_name(b, c) ==> same_name(a, c),
{
    if same_name(a, b) {
        assert forall|i: int| 0 <= i < b.len() implies lower(#[trigger] b[i]) == lower(a[i]) by {
            assert(lower(a[i]) == lower(b[i]));
        }
        if same_name(b, c) {
            assert forall|i: int| 0 <= i < a.len() implies lower(#[trigger] a[i]) == lower(c[i]) by {
                assert(lower(a[i]) == lower(b[i]));
                assert(lower(b[i]) == lower(c[i]));
            }
        }
    }
}

fn lower_byte(b: u8) -> (r: u8)
    ensures
        r == lower(b),
{
    if b >= 65 && b <= 90 {
        b + 32
    } else {
        b
    }
}

/// Whether two header names are the same but for case.
fn names_match(a: &[u8], b: &[u8]) -> (r: bool)
    ensures
        r == same_name(a@, b@),
{
    if a.len() != b.len() {
        return false;
    }
    let mut i: usize = 0;
    while i < a.len()
        invariant
            a@.len() == b@.len(),
            i <= a@.len(),
            forall|j: int| 0 <= j < i ==> lower(#[trigger] a@[j]) == lower(b@[j]),
        decreases a@.len() - i,
    {
        if lower_byte(a[i]) != lower_byte(b[i]) {
            return false;
        }
        i = i + 1;
    }
    true
}

/// The headers of a message: its header lines, in order, and the names that
/// were set with no values. Names are matched without regard to case; the
/// values of a name are kept in order. A header with no values is written as
/// no line at all.
#[derive(Clone, Debug)]
pub struct Headers {
    fields: Vec<RawField>,
    empty_names: Vec<Vec<u8>>,
}

/// Some name of `names` is the same as `n` but for case.
pub open spec fn listed(names: Seq<Seq<u8>>, n: Seq<u8>) -> bool
    decreases names.len(),
{
    names.len() > 0 && (listed(names.drop_last(), n) || same_name(names.last(), n))
}

proof fn lemma_listed_push(names: Seq<Seq<u8>>, x: Seq<u8>, n: Seq<u8>)
    ensures
        listed(names.push(x), n) == (listed(names, n) || same_name(x, n)),
{
    assert(names.push(x).drop_last() =~= names);
}

/// Whether some name of `names` is the same as `key` but for case.
fn names_listed(names: &Vec<Vec<u8>>, key: &[u8]) -> (r: bool)
    ensures
        r == listed(values_view(names@), key@),
{
    let ghost nv = values_view(names@);
    let mut found = false;
    let mut i: usize = 0;
    while i < names.len()
        invariant
            i <= names@.len(),
            nv == values_view(names@),
            found == listed(nv.subrange(0, i as int), key@),
        decreases names@.len() - i,
    {
        proof {
            assert(nv.subrange(0, i + 1).drop_last() =~= nv.subrange(0, i as int));
            assert(nv[i as int] == names@[i as int]@);
        }
        if names_match(names[i].as_slice(), key) {
            found = true;
        }
        i = i + 1;
    }
    proof {
        assert(nv.subrange(0, names@.len() as int) =~= nv);
    }
    found
}

impl Headers {
    /// The header lines, in order.
    pub closed spec fn spec_fields(&self) -> Seq<(Seq<u8>, Seq<u8>)> {
        fields_view(self.fields@)
    }

    /// The names that were set with no values.
    pub closed spec fn spec_empty_names(&self) -> Seq<Seq<u8>> {
        values_view(self.empty_names@)
    }

    /// The values of the header `name`, in order.
    pub open spec fn spec_values(&self, name: Seq<u8>) -> Seq<Seq<u8>> {
        values_of(self.spec_fields(), name)
    }

    /// The header `name` is set: it has values, or was set with none.
    pub open spec fn spec_present(&self, name: Seq<u8>) -> bool {
        self.spec_values(name).len() > 0 || listed(self.spec_empty_names(), name)
    }

    /// No headers.
    pub fn new() -> (r: Headers)
        ensures
            r.spec_fields() == Seq::<(Seq<u8>, Seq<u8>)>::empty(),
            r.spec_empty_names() == Seq::<Seq<u8>>::empty(),
    {
        let r = Headers { fields: Vec::new(), empty_names: Vec::new() };
        proof {
            assert(fields_view(r.fields@) =~= Seq::<(Seq<u8>, Seq<u8>)>::empty());
            assert(values_view(r.empty_names@) =~= Seq::<Seq<u8>>::empty());
        }
        r
    }

    /// The headers that these lines hold.
    pub fn from_fields(fields: Vec<RawField>) -> (r: Headers)
        ensures
            r.spec_fields() == fields_view(fields@),
            r.spec_empty_names() == Seq::<Seq<u8>>::empty(),
    {
        let r = Headers { fields, empty_names: Vec::new() };
        proof {
            assert(values_view(r.empty_names@) =~= Seq::<Seq<u8>>::empty());
        }
        r
    }

    /// The values of the header `name`, in order; `None` when it is not set.
    /// A header that was set with no values gives an empty list.
    pub fn get_raw(&self, name: &str) -> (r: Option<Vec<Vec<u8>>>)
        ensures
            r is Some <==> self.spec_present(name.spec_bytes()),
            r is Some ==> values_view(r->Some_0@) == self.spec_values(name.spec_bytes()),
    {
        let key = name.as_bytes();
        let mut out: Vec<Vec<u8>> = Vec::new();
        let ghost fv = fields_view(self.fields@);
        let mut i: usize = 0;
        while i < self.fields.len()
            invariant
                i <= self.fields@.len(),
                fv == fields_view(self.fields@),
                key@ == name.spec_bytes(),
                values_view(out@) == values_of(fv.subrange(0, i as int), key@),
            decreases self.fields@.len() - i,
        {
            let f = &self.fields[i];
            proof {
                assert(fv[i as int] == f@);
                assert(fv.subrange(0, i + 1) =~= fv.subrange(0, i as int).push(f@));
                lemma_values_of_push(fv.subrange(0, i as int), f@, key@);
            }
            if names_match(f.name.as_slice(), key) {
                let v = copy_range(f.value.as_slice(), 0, f.value.len());
                proof {
                    assert(f.value@.subrange(0, f.value@.len() as int) =~= f.value@);
                }
                out.push(v);
                proof {
                    assert(values_view(out@) =~= values_of(fv.subrange(0, i + 1), key@));
                }
            }
            i = i + 1;
        }
        proof {
            assert(fv.subrange(0, self.fields@.len() as int) =~= fv);
        }
        if out.len() > 0 || names_listed(&self.empty_names, key) {
            Some(out)
        } else {
            None
        }
    }

    /// Sets the header `name` to `values`, in order, in place of any earlier
    /// values; with no values it stays set, with none. Other headers keep
    /// their values.
    pub fn set_raw(&mut self, name: &str, values: Vec<Vec<u8>>)
        ensures
            forall|n: Seq<u8>|
                #[trigger] final(self).spec_present(n) == (same_name(n, name.spec_bytes())
                    || old(self).spec_present(n)),
            forall|n: Seq<u8>|
                #[trigger] final(self).spec_values(n) == if same_name(n, name.spec_bytes()) {
                    values_view(values@)
                } else {
                    old(self).spec_values(n)
                },
    {
        let key = name.as_bytes();
        let ghost pre = *self;
        let ghost old_fv = fields_view(self.fields@);
        let mut kept: Vec<RawField> = Vec::new();
        let mut i: usize = 0;
        while i < self.fields.len()
            invariant
                i <= self.fields@.len(),
                old_fv == fields_view(self.fields@),
                key@ == name.spec_bytes(),
                forall|n: Seq<u8>|
                    #[trigger] values_of(fields_view(kept@), n) == if same_name(n, key@) {
                        Seq::<Seq<u8>>::empty()
                    } else {
                        values_of(old_fv.subrange(0, i as int), n)
                    },
            decreases self.fields@.len() - i,
        {
            let f = &self.fields[i];
            let ghost before = kept@;
            proof {
                assert(old_fv[i as int] == f@);
                assert(old_fv.subrange(0, i + 1) =~= old_fv.subrange(0, i as int).push(f@));
            }
            if !names_match(f.name.as_slice(), key) {
                kept.push(f.clone_field());
                proof {
                    assert(fields_view(kept@) =~= fields_view(before).push(f@));
                }
            }
            proof {
                assert forall|n: Seq<u8>|
                    #[trigger] values_of(fields_view(kept@), n) == if same_name(n, key@) {
                        Seq::<Seq<u8>>::empty()
                    } else {
                        values_of(old_fv.subrange(0, i + 1), n)
                    } by {
                    lemma_values_of_push(old_fv.subrange(0, i as int), f@, n);
                    lemma_values_of_push(fields_view(before), f@, n);
                    lemma_same_name_trans(f@.0, n, key@);
                    lemma_same_name_trans(n, f@.0, key@);
                    lemma_same_name_trans(f@.0, key@, n);
                }
            }
            i = i + 1;
        }
        proof {
            assert(old_fv.subrange(0, self.fields@.len() as int) =~= old_fv);
        }
        let mut j: usize = 0;
        while j < values.len()
            invariant
                j <= values@.len(),
                key@ == name.spec_bytes(),
                forall|n: Seq<u8>|
                    #[trigger] values_of(fields_view(kept@), n) == if same_name(n, key@) {
                        values_view(values@).subrange(0, j as int)
                    } else {
                        values_of(old_fv, n)
                    },
            decreases values@.len() - j,
        {
            let ghost before = kept@;
            let v = &values[j];
            let f = RawField { name: copy_range(key, 0, key.len()), value: copy_range(v.as_slice(), 0, v.len()) };
            proof {
                assert(key@.subrange(0, key@.len() as int) =~= key@);
                assert(v@.subrange(0, v@.len() as int) =~= v@);
                assert(values_view(values@)[j as int] == v@);
                assert(values_view(values@).subrange(0, j + 1) =~= values_view(values@).subrange(0, j as int).push(v@));
            }
            kept.push(f);
            proof {
                assert(fields_view(kept@) =~= fields_view(before).push(f@));
                assert forall|n: Seq<u8>|
                    #[trigger] values_of(fields_view(kept@), n) == if same_name(n, key@) {
                        values_view(values@).subrange(0, j + 1)
                    } else {
                        values_of(old_fv, n)
                    } by {
                    lemma_values_of_push(fields_view(before), f@, n);
                }
            }
            j = j + 1;
        }
        proof {
            assert(values_view(values@).subrange(0, values@.len() as int) =~= values_view(values@));
        }
        let ghost old_names = values_view(self.empty_names@);
        let mut names: Vec<Vec<u8>> = Vec::new();
        let mut k: usize = 0;
        while k < self.empty_names.len()
            invariant
                k <= self.empty_names@.len(),
                old_names == values_view(self.empty_names@),
                key@ == name.spec_bytes(),
                forall|n: Seq<u8>|
                    #[trigger] listed(values_view(names@), n) == (!same_name(n, key@) && listed(
                        old_names.subrange(0, k as int),
                        n,
                    )),
            decreases self.empty_names@.len() - k,
        {
            let e = &self.empty_names[k];
            let ghost before = names@;
            proof {
                assert(old_names[k as int] == e@);
                assert(old_names.subrange(0, k + 1) =~= old_names.subrange(0, k as int).push(e@));
            }
            if !names_match(e.as_slice(), key) {
                names.push(copy_range(e.as_slice(), 0, e.len()));
                proof {
                    assert(e@.subrange(0, e@.len() as int) =~= e@);
                    assert(values_view(names@) =~= values_view(before).push(e@));
                }
            }
            proof {
                assert forall|n: Seq<u8>|
                    #[trigger] listed(values_view(names@), n) == (!same_name(n, key@) && listed(
                        old_names.subrange(0, k + 1),
                        n,
                    )) by {
                    lemma_listed_push(old_names.subrange(0, k as int), e@, n);
                    lemma_listed_push(values_view(before), e@, n);
                    lemma_same_name_trans(e@, n, key@);
                    lemma_same_name_trans(n, e@, key@);
                    lemma_same_name_trans(e@, key@, n);
                }
            }
            k = k + 1;
        }
        proof {
            assert(old_names.subrange(0, self.empty_names@.len() as int) =~= old_names);
        }
        let ghost mid = values_view(names@);
        if values.len() == 0 {
            names.push(copy_range(key, 0, key.len()));
            proof {
                assert(key@.subrange(0, key@.len() as int) =~= key@);
                assert(values_view(names@) =~= mid.push(key@));
            }
        }
        self.fields = kept;
        self.empty_names = names;
        proof {
            assert forall|n: Seq<u8>|
                #[trigger] self.spec_present(n) == (same_name(n, name.spec_bytes())
                    || pre.spec_present(n)) by {
                lemma_listed_push(mid, key@, n);
                lemma_same_name_trans(key@, n, key@);
                lemma_same_name_trans(n, key@, n);
                if values@.len() > 0 && same_name(n, key@) {
                    assert(values_view(values@).len() > 0);
                }
            }
        }
    }

    /// The typed value of the header `H`; `None` when the header is not set or
    /// its values do not read as `H`.
    pub fn get<H: Header>(&self) -> (r: Option<H>)
        ensures
            r is Some <==> self.spec_present(H::spec_name()) && H::spec_accepts(
                self.spec_values(H::spec_name()),
            ),
            r is Some ==> H::spec_denotes(self.spec_values(H::spec_name()), r->Some_0),
    {
        match self.get_raw(H::header_name()) {
            None => None,
            Some(vals) => match H::parse_header(&vals) {
                Ok(h) => Some(h),
                Err(_) => None,
            },
        }
    }

    /// Sets the header `H` to `value`, in place of any earlier values.
    pub fn set<H: Header>(&mut self, value: H)
        ensures
            forall|n: Seq<u8>|
                #[trigger] final(self).spec_present(n) == (same_name(n, H::spec_name())
                    || old(self).spec_present(n)),
            forall|n: Seq<u8>|
                #[trigger] final(self).spec_values(n) == if same_name(n, H::spec_name()) {
                    seq![value.spec_format()]
                } else {
                    old(self).spec_values(n)
                },
    {
        let v = value.fmt_header();
        let ghost vv = v@;
        let mut values: Vec<Vec<u8>> = Vec::new();
        values.push(v);
        proof {
            assert(values_view(values@) =~= seq![vv]);
        }
        self.set_raw(H::header_name(), values);
    }

    /// The bytes that a message of kind `kind` with these headers is written as.
    pub fn encode(&self, kind: MessageType) -> (r: Vec<u8>)
        ensures
            r@ == message_text(kind, self.spec_fields()),
    {
        encode_message(kind, &self.fields)
    }
}

/// A message: its kind and its headers.
#[derive(Clone, Debug)]
pub struct SSDPMessage {
    kind: MessageType,
    headers: Headers,
}

impl SSDPMessage {
    pub closed spec fn spec_kind(&self) -> MessageType {
        self.kind
    }

    pub closed spec fn spec_headers(&self) -> Headers {
        self.headers
    }

    /// The header lines, in order.
    pub open spec fn spec_fields(&self) -> Seq<(Seq<u8>, Seq<u8>)> {
        self.spec_headers().spec_fields()
    }

    /// An empty message of the given kind.
    pub fn new(kind: MessageType) -> (r: SSDPMessage)
        ensures
            r.spec_kind() == kind,
            r.spec_fields() == Seq::<(Seq<u8>, Seq<u8>)>::empty(),
            r.spec_headers().spec_empty_names() == Seq::<Seq<u8>>::empty(),
    {
        SSDPMessage { kind, headers: Headers::new() }
    }

    pub fn message_type(&self) -> (r: MessageType)
        ensures
            r == self.spec_kind(),
    {
        self.kind
    }

    /// The headers of the message.
    pub fn headers(&self) -> (r: &Headers)
        ensures
            *r == self.spec_headers(),
    {
        &self.headers
    }

    /// The headers of the message, for a caller of its own.
    pub fn into_headers(self) -> (r: Headers)
        ensures
            r == self.spec_headers(),
    {
        self.headers
    }

    /// The values of the header `name`, in order; `None` when it is not set.
    pub fn get_raw(&self, name: &str) -> (r: Option<Vec<Vec<u8>>>)
        ensures
            r is Some <==> self.spec_headers().spec_present(name.spec_bytes()),
            r is Some ==> values_view(r->Some_0@) == self.spec_headers().spec_values(
                name.spec_bytes(),
            ),
    {
        self.headers.get_raw(name)
    }

    /// Sets the header `name` to `values`, in place of any earlier values.
    pub fn set_raw(&mut self, name: &str, values: Vec<Vec<u8>>)
        ensures
            final(self).spec_kind() == old(self).spec_kind(),
            forall|n: Seq<u8>|
                #[trigger] final(self).spec_headers().spec_present(n) == (same_name(
                    n,
                    name.spec_bytes(),
                ) || old(self).spec_headers().spec_present(n)),
            forall|n: Seq<u8>|
                #[trigger] final(self).spec_headers().spec_values(n) == if same_name(
                    n,
                    name.spec_bytes(),
                ) {
                    values_view(values@)
                } else {
                    old(self).spec_headers().spec_values(n)
                },
    {
        self.headers.set_raw(name, values)
    }

    /// The typed value of the header `H`.
    pub fn get<H: Header>(&self) -> (r: Option<H>)
        ensures
            r is Some <==> self.spec_headers().spec_present(H::spec_name()) && H::spec_accepts(
                self.spec_headers().spec_values(H::spec_name()),
            ),
            r is Some ==> H::spec_denotes(self.spec_headers().spec_values(H::spec_name()), r->Some_0),
    {
        self.headers.get::<H>()
    }

    /// Sets the header `H` to `value`, in place of any earlier values.
    pub fn set<H: Header>(&mut self, value: H)
        ensures
            final(self).spec_kind() == old(self).spec_kind(),
            forall|n: Seq<u8>|
                #[trigger] final(self).spec_headers().spec_present(n) == (same_name(
                    n,
                    H::spec_name(),
                ) || old(self).spec_headers().spec_present(n)),
            forall|n: Seq<u8>|
                #[trigger] final(self).spec_headers().spec_values(n) == if same_name(
                    n,
                    H::spec_name(),
                ) {
                    seq![value.spec_format()]
                } else {
                    old(self).spec_headers().spec_values(n)
                },
    {
        self.headers.set(value)
    }

    /// The bytes that the message is written as.
    pub fn encode(&self) -> (r: Vec<u8>)
        ensures
            r@ == message_text(self.spec_kind(), self.spec_fields()),
    {
        self.headers.encode(self.kind)
    }

    /// Reads a message from bytes.
    pub fn decode(bytes: &[u8]) -> (r: Result<SSDPMessage, SSDPError>)
        ensures
            match r {
                Ok(m) => parse_message(bytes@) == Ok::<_, SSDPError>(
                    (m.spec_kind(), m.spec_fields()),
                ) && m.spec_headers().spec_empty_names() == Seq::<Seq<u8>>::empty(),
                Err(e) => parse_message(bytes@) == Err::<(MessageType, Seq<(Seq<u8>, Seq<u8>)>), _>(
                    e,
                ),
            },
    {
        match decode_message(bytes) {
            Ok((kind, fields)) => Ok(SSDPMessage { kind, headers: Headers::from_fields(fields) }),
            Err(e) => Err(e),
        }
    }
}

impl RawField {
    pub fn clone_field(&self) -> (r: RawField)
        ensures
            r@ == self@,
    {
        let r = RawField {
            name: copy_range(self.name.as_slice(), 0, self.name.len()),
            value: copy_range(self.value.as_slice(), 0, self.value.len()),
        };
        proof {
            assert(self.name@.subrange(0, self.name@.len() as int) =~= self.name@);
            assert(self.value@.subrange(0, self.value@.len() as int) =~= self.value@);
        }
        r
    }
}

} // verus!
