//! Typed headers and their textual forms.

use vstd::prelude::*;

use vstd::string::StringSliceAdditionalSpecFns;

use vstd::utf8::{decode_utf8, encode_utf8, valid_utf8};

use crate::error::SSDPError;
use crate::wire::{copy_range, range_equals};

verus! {

/// Minimum wait time of the MX header.
pub const MX_HEADER_MIN: u8 = 1;

/// Maximum wait time of the MX header.
pub const MX_HEADER_MAX: u8 = 120;

/// An ASCII decimal digit.
pub open spec fn is_digit(b: u8) -> bool {
    48 <= b <= 57
}

/// Every byte of `s` is a decimal digit.
pub open spec fn all_digits(s: Seq<u8>) -> bool {
    forall|i: int| 0 <= i < s.len() ==> is_digit(#[trigger] s[i])
}

/// The number that the decimal digits `s` denote (most significant first).
pub open spec fn decimal_value(s: Seq<u8>) -> nat
    decreases s.len(),
{
    if s.len() == 0 {
        0
    } else {
        decimal_value(s.drop_last()) * 10 + (s.last() - 48) as nat
    }
}

/// The decimal text of `n`, without sign or padding.
pub open spec fn decimal_text(n: nat) -> Seq<u8>
    decreases n,
{
    if n < 10 {
        seq![(48 + n) as u8]
    } else {
        decimal_text(n / 10).push((48 + n % 10) as u8)
    }
}

/// The raw values of a header, as byte sequences.
pub open spec fn values_view(vs: Seq<Vec<u8>>) -> Seq<Seq<u8>> {
    vs.map_values(|v: Vec<u8>| v@)
}

/// A header with a typed value: its name, how raw values read as it and how it
/// is written out.
pub trait Header: Sized {
    /// The header's name, as bytes.
    spec fn spec_name() -> Seq<u8>;

    /// The raw values read as a value of this header.
    spec fn spec_accepts(raw: Seq<Seq<u8>>) -> bool;

    /// The raw values read as `h`.
    spec fn spec_denotes(raw: Seq<Seq<u8>>, h: Self) -> bool;

    /// The single raw value that this header is written as.
    spec fn spec_format(&self) -> Seq<u8>;

    fn header_name() -> (r: &'static str)
        ensures
            r.spec_bytes() == Self::spec_name(),
    ;

    fn parse_header(raw: &Vec<Vec<u8>>) -> (r: Result<Self, SSDPError>)
        ensures
            r is Ok <==> Self::spec_accepts(values_view(raw@)),
            r is Ok ==> Self::spec_denotes(values_view(raw@), r->Ok_0),
            r is Err ==> r->Err_0 == SSDPError::InvalidHeader,
    ;

    fn fmt_header(&self) -> (r: Vec<u8>)
        ensures
            r@ == self.spec_format(),
    ;
}

/// The maximum time, in seconds, that devices should wait before they respond
/// to a search.
#[derive(Copy, Clone, PartialEq, Eq, Structural, Hash, Debug)]
pub struct MX(pub u8);

impl MX {
    /// The wait bound lies within the protocol's range.
    pub open spec fn valid(self) -> bool {
        MX_HEADER_MIN <= self.0 <= MX_HEADER_MAX
    }

    /// Builds a wait bound; values outside `[1, 120]` are refused.
    pub fn new(wait_bound: u8) -> (r: Result<MX, SSDPError>)
        ensures
            r is Ok <==> MX_HEADER_MIN <= wait_bound <= MX_HEADER_MAX,
            r is Ok ==> r->Ok_0 == MX(wait_bound),
            r is Err ==> r->Err_0 == SSDPError::InvalidHeader,
    {
        if wait_bound < MX_HEADER_MIN || wait_bound > MX_HEADER_MAX {
            Err(SSDPError::InvalidHeader)
        } else {
            Ok(MX(wait_bound))
        }
    }
}

/// The wait bound that a single MX value denotes: one or more decimal digits
/// whose value lies in `[1, 120]`.
pub open spec fn mx_of_value(v: Seq<u8>) -> Option<MX> {
    if v.len() > 0 && all_digits(v) && MX_HEADER_MIN <= decimal_value(v) <= MX_HEADER_MAX {
        Some(MX(decimal_value(v) as u8))
    } else {
        None
    }
}

impl Header for MX {
    open spec fn spec_name() -> Seq<u8> {
        seq![77u8, 88u8]
    }

    open spec fn spec_accepts(raw: Seq<Seq<u8>>) -> bool {
        raw.len() == 1 && mx_of_value(raw[0]) is Some
    }

    open spec fn spec_denotes(raw: Seq<Seq<u8>>, h: MX) -> bool {
        raw.len() == 1 && mx_of_value(raw[0]) == Some(h)
    }

    open spec fn spec_format(&self) -> Seq<u8> {
        decimal_text(self.0 as nat)
    }

    fn header_name() -> (r: &'static str) {
        let r = "MX";
        proof {
            reveal_strlit("MX");
            vstd::string::is_ascii_spec_bytes(r);
            assert(vstd::string::is_ascii(r));
            assert(r.spec_bytes() =~= seq![77u8, 88u8]);
        }
        r
    }

    fn parse_header(raw: &Vec<Vec<u8>>) -> (r: Result<MX, SSDPError>) {
        if raw.len() != 1 {
            return Err(SSDPError::InvalidHeader);
        }
        proof {
            assert(values_view(raw@)[0] == raw@[0]@);
        }
        match parse_wait_bound(raw[0].as_slice()) {
            Some(n) => Ok(MX(n)),
            None => Err(SSDPError::InvalidHeader),
        }
    }

    fn fmt_header(&self) -> (r: Vec<u8>) {
        decimal_bytes(self.0)
    }
}

/// The decimal text of a number is made of digits and denotes that number.
pub proof fn lemma_decimal_text(n: nat)
    ensures
        decimal_text(n).len() > 0,
        all_digits(decimal_text(n)),
        decimal_value(decimal_text(n)) == n,
    decreases n,
{
    let t = decimal_text(n);
    if n < 10 {
        assert(t.drop_last() =~= Seq::<u8>::empty());
        assert(decimal_value(Seq::<u8>::empty()) == 0);
        assert(t.last() == (48 + n) as u8);
        assert(decimal_value(t) == decimal_value(t.drop_last()) * 10 + (t.last() - 48) as nat);
    } else {
        lemma_decimal_text(n / 10);
        let p = decimal_text(n / 10);
        assert(t.drop_last() =~= p);
        assert forall|i: int| 0 <= i < t.len() implies is_digit(#[trigger] t[i]) by {
            if i < p.len() {
                assert(t[i] == p[i]);
            }
        }
        assert(t.last() == (48 + n % 10) as u8);
        assert(decimal_value(t) == decimal_value(p) * 10 + (t.last() - 48) as nat);
        assert((n / 10) * 10 + n % 10 == n);
    }
}

/// The decimal text of any number reads as a wait bound exactly when the
/// number lies in `[1, 120]`, and then as that number.
pub proof fn law_wait_bound_text(n: nat)
    ensures
        MX::spec_accepts(seq![decimal_text(n)]) <==> MX_HEADER_MIN <= n <= MX_HEADER_MAX,
        MX_HEADER_MIN <= n <= MX_HEADER_MAX ==> MX::spec_denotes(seq![decimal_text(n)], MX(n as u8)),
{
    lemma_decimal_text(n);
}

/// A wait bound, written out, reads back as itself.
pub proof fn law_wait_bound_round_trip(m: MX)
    requires
        m.valid(),
    ensures
        MX::spec_denotes(seq![m.spec_format()], m),
{
    lemma_decimal_text(m.0 as nat);
}

/// Reads a wait bound from its decimal text.
fn parse_wait_bound(v: &[u8]) -> (r: Option<u8>)
    ensures
        r is Some <==> mx_of_value(v@) is Some,
        r is Some ==> mx_of_value(v@) == Some(MX(r->Some_0)),
{
    if v.len() == 0 {
        return None;
    }
    // The value read so far, capped just above the range.
    let mut acc: u32 = 0;
    let mut i: usize = 0;
    while i < v.len()
        invariant
            i <= v@.len(),
            all_digits(v@.subrange(0, i as int)),
            acc as nat == if decimal_value(v@.subrange(0, i as int)) > 121 {
                121
            } else {
                decimal_value(v@.subrange(0, i as int))
            },
        decreases v@.len() - i,
    {
        let b = v[i];
        if b < 48 || b > 57 {
            proof {
                assert(v@[i as int] == b);
            }
            return None;
        }
        let ghost prev = v@.subrange(0, i as int);
        let ghost next = v@.subrange(0, i + 1);
        proof {
            assert(next.drop_last() =~= prev);
            assert(next.last() == b);
            assert forall|j: int| 0 <= j < next.len() implies is_digit(#[trigger] next[j]) by {
                if j < i {
                    assert(next[j] == prev[j]);
                }
            }
        }
        let step = acc * 10 + (b - 48) as u32;
        acc = if step > 121 { 121 } else { step };
        i = i + 1;
    }
    proof {
        assert(v@.subrange(0, v@.len() as int) =~= v@);
    }
    if acc < 1 || acc > 120 {
        None
    } else {
        Some(acc as u8)
    }
}

/// Writes `n` in decimal, without sign or padding.
pub fn decimal_bytes(n: u8) -> (r: Vec<u8>)
    ensures
        r@ == decimal_text(n as nat),
{
    let mut out: Vec<u8> = Vec::new();
    if n >= 100 {
        out.push(48 + n / 100);
    }
    if n >= 10 {
        out.push(48 + (n / 10) % 10);
    }
    out.push(48 + n % 10);
    proof {
        let k = n as nat;
        if k >= 100 {
            assert(decimal_text(k / 100) == seq![(48 + k / 100) as u8]);
            assert(decimal_text(k / 10) == decimal_text(k / 100).push((48 + (k / 10) % 10) as u8));
        } else if k >= 10 {
            assert(decimal_text(k / 10) == seq![(48 + k / 10) as u8]);
        }
        assert(out@ =~= decimal_text(k));
    }
    out
}

/// `ssdp:all`
pub open spec fn all_token() -> Seq<u8> {
    seq![115u8, 115, 100, 112, 58, 97, 108, 108]
}

/// `upnp:rootdevice`
pub open spec fn root_device_token() -> Seq<u8> {
    seq![117u8, 112, 110, 112, 58, 114, 111, 111, 116, 100, 101, 118, 105, 99, 101]
}

/// `"ssdp:discover"`, quotes included.
pub open spec fn discover_token() -> Seq<u8> {
    seq![34u8, 115, 115, 100, 112, 58, 100, 105, 115, 99, 111, 118, 101, 114, 34]
}

fn all_bytes() -> (r: &'static [u8])
    ensures
        r@ == all_token(),
{
    let s = "ssdp:all";
    proof {
        reveal_strlit("ssdp:all");
        vstd::string::is_ascii_spec_bytes(s);
        assert(vstd::string::is_ascii(s));
        assert(s.spec_bytes() =~= all_token());
    }
    s.as_bytes()
}

fn root_device_bytes() -> (r: &'static [u8])
    ensures
        r@ == root_device_token(),
{
    let s = "upnp:rootdevice";
    proof {
        reveal_strlit("upnp:rootdevice");
        vstd::string::is_ascii_spec_bytes(s);
        assert(vstd::string::is_ascii(s));
        assert(s.spec_bytes() =~= root_device_token());
    }
    s.as_bytes()
}

fn discover_bytes() -> (r: &'static [u8])
    ensures
        r@ == discover_token(),
{
    let s = "\"ssdp:discover\"";
    proof {
        reveal_strlit("\"ssdp:discover\"");
        vstd::string::is_ascii_spec_bytes(s);
        assert(vstd::string::is_ascii(s));
        assert(s.spec_bytes() =~= discover_token());
    }
    s.as_bytes()
}

/// Relies on `String::from_utf8`: it succeeds exactly on valid UTF-8, and the
/// string then holds the characters that the bytes encode.
#[verifier::external_body]
fn string_from_utf8(v: Vec<u8>) -> (r: Option<String>)
    ensures
        r is Some <==> valid_utf8(v@),
        r is Some ==> r->Some_0@ == decode_utf8(v@),
{
    String::from_utf8(v).ok()
}

/// The UTF-8 bytes of `s`.
fn string_bytes(s: &String) -> (r: Vec<u8>)
    ensures
        r@ == encode_utf8(s@),
{
    let b = s.as_str().as_bytes();
    copy_range(b, 0, b.len())
}

/// Whether two byte strings are equal.
fn bytes_equal(a: &[u8], b: &[u8]) -> (r: bool)
    ensures
        r == (a@ == b@),
{
    let r = range_equals(a, 0, a.len(), b);
    proof {
        assert(a@.subrange(0, a@.len() as int) =~= a@);
    }
    r
}

/// The search target (ST) header: what a search looks for.
#[derive(Clone, Debug, PartialEq, Eq, Hash)]
pub enum ST {
    /// Every device and service (`ssdp:all`).
    All,
    /// Root devices only (`upnp:rootdevice`).
    RootDevice,
    /// One device or service type, by its URN or URI.
    Target(String),
}

impl Header for ST {
    open spec fn spec_name() -> Seq<u8> {
        seq![83u8, 84u8]
    }

    open spec fn spec_accepts(raw: Seq<Seq<u8>>) -> bool {
        raw.len() == 1 && (raw[0] == all_token() || raw[0] == root_device_token() || valid_utf8(
            raw[0],
        ))
    }

    open spec fn spec_denotes(raw: Seq<Seq<u8>>, h: ST) -> bool {
        raw.len() == 1 && match h {
            ST::All => raw[0] == all_token(),
            ST::RootDevice => raw[0] == root_device_token(),
            ST::Target(s) => raw[0] != all_token() && raw[0] != root_device_token() && valid_utf8(
                raw[0],
            ) && s@ == decode_utf8(raw[0]),
        }
    }

    open spec fn spec_format(&self) -> Seq<u8> {
        match self {
            ST::All => all_token(),
            ST::RootDevice => root_device_token(),
            ST::Target(s) => encode_utf8(s@),
        }
    }

    fn header_name() -> (r: &'static str) {
        let r = "ST";
        proof {
            reveal_strlit("ST");
            vstd::string::is_ascii_spec_bytes(r);
            assert(vstd::string::is_ascii(r));
            assert(r.spec_bytes() =~= seq![83u8, 84u8]);
        }
        r
    }

    fn parse_header(raw: &Vec<Vec<u8>>) -> (r: Result<ST, SSDPError>) {
        if raw.len() != 1 {
            return Err(SSDPError::InvalidHeader);
        }
        let v = raw[0].as_slice();
        proof {
            assert(values_view(raw@)[0] == v@);
        }
        if bytes_equal(v, all_bytes()) {
            return Ok(ST::All);
        }
        if bytes_equal(v, root_device_bytes()) {
            return Ok(ST::RootDevice);
        }
        match string_from_utf8(copy_range(v, 0, v.len())) {
            Some(s) => {
                proof {
                    assert(v@.subrange(0, v@.len() as int) =~= v@);
                }
                Ok(ST::Target(s))
            },
            None => {
                proof {
                    assert(v@.subrange(0, v@.len() as int) =~= v@);
                }
                Err(SSDPError::InvalidHeader)
            },
        }
    }

    fn fmt_header(&self) -> (r: Vec<u8>) {
        match self {
            ST::All => copy_range(all_bytes(), 0, 8),
            ST::RootDevice => copy_range(root_device_bytes(), 0, 15),
            ST::Target(s) => string_bytes(s),
        }
    }
}

/// The LOCATION header: the URL of a device's description.
#[derive(Clone, Debug, PartialEq, Eq, Hash)]
pub struct Location(pub String);

impl Header for Location {
    open spec fn spec_name() -> Seq<u8> {
        seq![76u8, 79, 67, 65, 84, 73, 79, 78]
    }

    open spec fn spec_accepts(raw: Seq<Seq<u8>>) -> bool {
        raw.len() == 1 && valid_utf8(raw[0])
    }

    open spec fn spec_denotes(raw: Seq<Seq<u8>>, h: Location) -> bool {
        raw.len() == 1 && valid_utf8(raw[0]) && h.0@ == decode_utf8(raw[0])
    }

    open spec fn spec_format(&self) -> Seq<u8> {
        encode_utf8(self.0@)
    }

    fn header_name() -> (r: &'static str) {
        let r = "LOCATION";
        proof {
            reveal_strlit("LOCATION");
            vstd::string::is_ascii_spec_bytes(r);
            assert(vstd::string::is_ascii(r));
            assert(r.spec_bytes() =~= seq![76u8, 79, 67, 65, 84, 73, 79, 78]);
        }
        r
    }

    fn parse_header(raw: &Vec<Vec<u8>>) -> (r: Result<Location, SSDPError>) {
        if raw.len() != 1 {
            return Err(SSDPError::InvalidHeader);
        }
        let v = raw[0].as_slice();
        proof {
            assert(values_view(raw@)[0] == v@);
            assert(v@.subrange(0, v@.len() as int) =~= v@);
        }
        match string_from_utf8(copy_range(v, 0, v.len())) {
            Some(s) => Ok(Location(s)),
            None => Err(SSDPError::InvalidHeader),
        }
    }

    fn fmt_header(&self) -> (r: Vec<u8>) {
        string_bytes(&self.0)
    }
}

/// The MAN header of a search, which must read `"ssdp:discover"`.
#[derive(Copy, Clone, Debug, PartialEq, Eq, Structural, Hash)]
pub struct Man;

impl Header for Man {
    open spec fn spec_name() -> Seq<u8> {
        seq![77u8, 65, 78]
    }

    open spec fn spec_accepts(raw: Seq<Seq<u8>>) -> bool {
        raw.len() == 1 && raw[0] == discover_token()
    }

    open spec fn spec_denotes(raw: Seq<Seq<u8>>, h: Man) -> bool {
        raw.len() == 1 && raw[0] == discover_token()
    }

    open spec fn spec_format(&self) -> Seq<u8> {
        discover_token()
    }

    fn header_name() -> (r: &'static str) {
        let r = "MAN";
        proof {
            reveal_strlit("MAN");
            vstd::string::is_ascii_spec_bytes(r);
            assert(vstd::string::is_ascii(r));
            assert(r.spec_bytes() =~= seq![77u8, 65, 78]);
        }
        r
    }

    fn parse_header(raw: &Vec<Vec<u8>>) -> (r: Result<Man, SSDPError>) {
        if raw.len() != 1 {
            return Err(SSDPError::InvalidHeader);
        }
        proof {
            assert(values_view(raw@)[0] == raw@[0]@);
        }
        if bytes_equal(raw[0].as_slice(), discover_bytes()) {
            Ok(Man)
        } else {
            Err(SSDPError::InvalidHeader)
        }
    }

    fn fmt_header(&self) -> (r: Vec<u8>) {
        let b = discover_bytes();
        copy_range(b, 0, b.len())
    }
}

} // verus!
