//! The wire format: a start line, one `Name: value` line per header value and a
//! blank line, each line ended by CR LF. Messages carry no body.
//!
//! The grammar is written out here rather than taken from a general HTTP
//! parser: it is the protocol's own, a fixed start line for each message kind,
//! header lines and a blank line, with no body, chunking or folded lines. As
//! spec functions it gives decoding an exact contract, error by error, and it
//! lets the library prove that a decoded message, written out again, reads
//! back the same (`law_reencode`). A parser behind a trusted call would leave
//! its result unnamed and that law out of reach.

use vstd::prelude::*;

use vstd::string::StringSliceAdditionalSpecFns;

use crate::error::SSDPError;

verus! {

pub const CR: u8 = 13;

pub const LF: u8 = 10;

pub const COLON: u8 = 58;

pub const SPACE: u8 = 32;

pub const TAB: u8 = 9;

/// The kinds of SSDP messages.
#[derive(Copy, Clone, Hash, Eq, PartialEq, Structural, Debug)]
pub enum MessageType {
    /// A notify message.
    Notify,
    /// A search message.
    Search,
    /// A response to a search message.
    Response,
}

/// One header line as it stands on the wire: a name and one value.
#[derive(Clone, Debug)]
pub struct RawField {
    pub name: Vec<u8>,
    pub value: Vec<u8>,
}

impl View for RawField {
    type V = (Seq<u8>, Seq<u8>);

    open spec fn view(&self) -> (Seq<u8>, Seq<u8>) {
        (self.name@, self.value@)
    }
}

/// The views of a list of header lines.
pub open spec fn fields_view(fs: Seq<RawField>) -> Seq<(Seq<u8>, Seq<u8>)> {
    fs.map_values(|f: RawField| f@)
}

pub open spec fn crlf() -> Seq<u8> {
    seq![CR, LF]
}

/// `NOTIFY * HTTP/1.1`
pub open spec fn notify_line() -> Seq<u8> {
    seq![78u8, 79, 84, 73, 70, 89, 32, 42, 32, 72, 84, 84, 80, 47, 49, 46, 49]
}

/// `M-SEARCH * HTTP/1.1`
pub open spec fn search_line() -> Seq<u8> {
    seq![77u8, 45, 83, 69, 65, 82, 67, 72, 32, 42, 32, 72, 84, 84, 80, 47, 49, 46, 49]
}

/// `HTTP/1.1 `, the start of a status line.
pub open spec fn status_prefix() -> Seq<u8> {
    seq![72u8, 84, 84, 80, 47, 49, 46, 49, 32]
}

/// `HTTP/1.1 200 OK`, the status line that responses are written with.
pub open spec fn response_line() -> Seq<u8> {
    status_prefix() + seq![50u8, 48, 48, 32, 79, 75]
}

/// The start line that a message of kind `k` is written with.
pub open spec fn start_line(k: MessageType) -> Seq<u8> {
    match k {
        MessageType::Notify => notify_line(),
        MessageType::Search => search_line(),
        MessageType::Response => response_line(),
    }
}

/// A status line: `HTTP/1.1 `, a three-digit code, and then either the end of
/// the line or a space and a reason phrase.
pub open spec fn is_status_line(l: Seq<u8>) -> bool {
    &&& l.len() >= 12
    &&& l.subrange(0, 9) == status_prefix()
    &&& forall|i: int| 9 <= i < 12 ==> 48 <= #[trigger] l[i] <= 57
    &&& (l.len() == 12 || l[12] == SPACE)
}

/// The kind of message that a start line introduces.
pub open spec fn start_kind(l: Seq<u8>) -> Option<MessageType> {
    if l == notify_line() {
        Some(MessageType::Notify)
    } else if l == search_line() {
        Some(MessageType::Search)
    } else if is_status_line(l) {
        Some(MessageType::Response)
    } else {
        None
    }
}

/// A line break (CR LF) starts at `i`.
pub open spec fn crlf_at(b: Seq<u8>, i: int) -> bool {
    0 <= i && i + 1 < b.len() && b[i] == CR && b[i + 1] == LF
}

/// The position of the first line break at or after `i`, or -1 if there is none.
pub open spec fn line_end(b: Seq<u8>, i: int) -> int
    decreases b.len() - i,
{
    if i < 0 || i + 1 >= b.len() {
        -1
    } else if crlf_at(b, i) {
        i
    } else {
        line_end(b, i + 1)
    }
}

/// No line break starts inside `l`.
pub open spec fn no_crlf(l: Seq<u8>) -> bool {
    forall|j: int| 0 <= j < l.len() ==> !crlf_at(l, j)
}

/// A byte that may stand in a header name: visible ASCII other than `:`.
pub open spec fn is_name_byte(b: u8) -> bool {
    33 <= b <= 126 && b != COLON
}

pub open spec fn is_name(s: Seq<u8>) -> bool {
    s.len() > 0 && forall|i: int| 0 <= i < s.len() ==> is_name_byte(#[trigger] s[i])
}

/// Optional white space around a header value.
pub open spec fn is_ows(b: u8) -> bool {
    b == SPACE || b == TAB
}

pub open spec fn trim_start(s: Seq<u8>) -> Seq<u8>
    decreases s.len(),
{
    if s.len() > 0 && is_ows(s[0]) {
        trim_start(s.drop_first())
    } else {
        s
    }
}

pub open spec fn trim_end(s: Seq<u8>) -> Seq<u8>
    decreases s.len(),
{
    if s.len() > 0 && is_ows(s.last()) {
        trim_end(s.drop_last())
    } else {
        s
    }
}

/// The position of the first colon at or after `i`, or -1 if there is none.
pub open spec fn colon_at(l: Seq<u8>, i: int) -> int
    decreases l.len() - i,
{
    if i < 0 || i >= l.len() {
        -1
    } else if l[i] == COLON {
        i
    } else {
        colon_at(l, i + 1)
    }
}

/// The name and value of a header line: the name runs up to the first colon,
/// the value is the rest without surrounding white space.
pub open spec fn field_of_line(l: Seq<u8>) -> Option<(Seq<u8>, Seq<u8>)> {
    let c = colon_at(l, 0);
    if c < 0 || !is_name(l.subrange(0, c)) {
        None
    } else {
        Some((l.subrange(0, c), trim_end(trim_start(l.subrange(c + 1, l.len() as int)))))
    }
}

/// The header lines of `b` from position `pos` up to the blank line.
pub open spec fn parse_fields(b: Seq<u8>, pos: int) -> Result<Seq<(Seq<u8>, Seq<u8>)>, SSDPError>
    decreases b.len() - pos via parse_fields_decreases
{
    let e = line_end(b, pos);
    if pos < 0 || e < pos {
        Err(SSDPError::Truncated)
    } else if e == pos {
        Ok(Seq::empty())
    } else {
        match field_of_line(b.subrange(pos, e)) {
            None => Err(SSDPError::InvalidHeaderLine),
            Some(f) => match parse_fields(b, e + 2) {
                Ok(rest) => Ok(seq![f] + rest),
                Err(x) => Err(x),
            },
        }
    }
}

#[via_fn]
proof fn parse_fields_decreases(b: Seq<u8>, pos: int) {
    if pos >= 0 {
        lemma_line_end(b, pos);
    }
}

/// `line_end` finds a line break, and the first one.
pub proof fn lemma_line_end(b: Seq<u8>, i: int)
    requires
        0 <= i,
    ensures
        line_end(b, i) == -1 || (i <= line_end(b, i) && crlf_at(b, line_end(b, i))),
        forall|j: int|
            i <= j && (line_end(b, i) == -1 || j < line_end(b, i)) ==> !#[trigger] crlf_at(b, j),
    decreases b.len() - i,
{
    if i + 1 >= b.len() {
    } else if crlf_at(b, i) {
    } else {
        lemma_line_end(b, i + 1);
    }
}

/// What the bytes `b` decode to: the message kind and its header lines.
pub open spec fn parse_message(b: Seq<u8>) -> Result<
    (MessageType, Seq<(Seq<u8>, Seq<u8>)>),
    SSDPError,
> {
    let e = line_end(b, 0);
    if e < 0 {
        Err(SSDPError::Truncated)
    } else {
        match start_kind(b.subrange(0, e)) {
            None => Err(SSDPError::InvalidStartLine),
            Some(k) => match parse_fields(b, e + 2) {
                Ok(fs) => Ok((k, fs)),
                Err(x) => Err(x),
            },
        }
    }
}

/// One header line as written: `Name: value`.
pub open spec fn field_line(f: (Seq<u8>, Seq<u8>)) -> Seq<u8> {
    f.0 + seq![COLON, SPACE] + f.1
}

/// The header lines, each followed by CR LF.
pub open spec fn fields_text(fs: Seq<(Seq<u8>, Seq<u8>)>) -> Seq<u8>
    decreases fs.len(),
{
    if fs.len() == 0 {
        Seq::empty()
    } else {
        field_line(fs[0]) + crlf() + fields_text(fs.drop_first())
    }
}

/// The bytes that a message of kind `k` with header lines `fs` is written as.
pub open spec fn message_text(k: MessageType, fs: Seq<(Seq<u8>, Seq<u8>)>) -> Seq<u8> {
    start_line(k) + crlf() + fields_text(fs) + crlf()
}

fn notify_bytes() -> (r: &'static [u8])
    ensures
        r@ == notify_line(),
{
    let s = "NOTIFY * HTTP/1.1";
    proof {
        reveal_strlit("NOTIFY * HTTP/1.1");
        vstd::string::is_ascii_spec_bytes(s);
        assert(vstd::string::is_ascii(s));
        assert(s.spec_bytes() =~= notify_line());
    }
    s.as_bytes()
}

fn search_bytes() -> (r: &'static [u8])
    ensures
        r@ == search_line(),
{
    let s = "M-SEARCH * HTTP/1.1";
    proof {
        reveal_strlit("M-SEARCH * HTTP/1.1");
        vstd::string::is_ascii_spec_bytes(s);
        assert(vstd::string::is_ascii(s));
        assert(s.spec_bytes() =~= search_line());
    }
    s.as_bytes()
}

fn response_bytes() -> (r: &'static [u8])
    ensures
        r@ == response_line(),
{
    let s = "HTTP/1.1 200 OK";
    proof {
        reveal_strlit("HTTP/1.1 200 OK");
        vstd::string::is_ascii_spec_bytes(s);
        assert(vstd::string::is_ascii(s));
        assert(s.spec_bytes() =~= response_line());
    }
    s.as_bytes()
}

/// Whether `b[from..to]` equals `expected`.
pub(crate) fn range_equals(b: &[u8], from: usize, to: usize, expected: &[u8]) -> (r: bool)
    requires
        from <= to <= b@.len(),
    ensures
        r == (b@.subrange(from as int, to as int) == expected@),
{
    if to - from != expected.len() {
        return false;
    }
    let mut i: usize = 0;
    while i < expected.len()
        invariant
            to - from == expected@.len(),
            from <= to <= b@.len(),
            i <= expected@.len(),
            forall|j: int| 0 <= j < i ==> b@[from + j] == expected@[j],
        decreases expected@.len() - i,
    {
        if b[from + i] != expected[i] {
            proof {
                assert(b@.subrange(from as int, to as int)[i as int] != expected@[i as int]);
            }
            return false;
        }
        i = i + 1;
    }
    proof {
        assert(b@.subrange(from as int, to as int) =~= expected@);
    }
    true
}

/// Copies `b[from..to]` into a vector of its own.
pub fn copy_range(b: &[u8], from: usize, to: usize) -> (r: Vec<u8>)
    requires
        from <= to <= b@.len(),
    ensures
        r@ == b@.subrange(from as int, to as int),
{
    let mut out: Vec<u8> = Vec::new();
    let mut i: usize = from;
    while i < to
        invariant
            from <= i <= to <= b@.len(),
            out@ == b@.subrange(from as int, i as int),
        decreases to - i,
    {
        out.push(b[i]);
        proof {
            assert(out@ =~= b@.subrange(from as int, i + 1));
        }
        i = i + 1;
    }
    out
}

/// The kind of message that the start line `b[0..end]` introduces.
fn classify_start_line(b: &[u8], end: usize) -> (r: Option<MessageType>)
    requires
        end <= b@.len(),
    ensures
        r == start_kind(b@.subrange(0, end as int)),
{
    let ghost l = b@.subrange(0, end as int);
    if range_equals(b, 0, end, notify_bytes()) {
        return Some(MessageType::Notify);
    }
    if range_equals(b, 0, end, search_bytes()) {
        return Some(MessageType::Search);
    }
    if end < 12 {
        return None;
    }
    let prefix = response_bytes();
    if !range_equals(b, 0, 9, &prefix[0..9]) {
        proof {
            assert(prefix@.subrange(0, 9) =~= status_prefix());
            assert(l.subrange(0, 9) =~= b@.subrange(0, 9));
        }
        return None;
    }
    proof {
        assert(prefix@.subrange(0, 9) =~= status_prefix());
        assert(l.subrange(0, 9) =~= b@.subrange(0, 9));
    }
    let mut i: usize = 9;
    while i < 12
        invariant
            9 <= i <= 12,
            12 <= end <= b@.len(),
            l == b@.subrange(0, end as int),
            l != notify_line(),
            l != search_line(),
            l.subrange(0, 9) == status_prefix(),
            forall|j: int| 9 <= j < i ==> 48 <= #[trigger] l[j] <= 57,
        decreases 12 - i,
    {
        if b[i] < 48 || b[i] > 57 {
            proof {
                assert(l[i as int] == b@[i as int]);
                assert(!is_status_line(l));
            }
            return None;
        }
        proof {
            assert(l[i as int] == b@[i as int]);
        }
        i = i + 1;
    }
    if end == 12 || b[12] == SPACE {
        Some(MessageType::Response)
    } else {
        None
    }
}

/// The position of the first line break at or after `from`.
fn find_line_end(b: &[u8], from: usize) -> (r: Option<usize>)
    ensures
        match r {
            Some(e) => line_end(b@, from as int) == e as int,
            None => line_end(b@, from as int) == -1,
        },
{
    let mut i: usize = from;
    while i < b.len() && i + 1 < b.len()
        invariant
            from <= i,
            line_end(b@, from as int) == line_end(b@, i as int),
        decreases b@.len() - i,
    {
        if b[i] == CR && b[i + 1] == LF {
            return Some(i);
        }
        i = i + 1;
    }
    None
}

/// The position of the first colon in `b[from..to]`.
fn find_colon(b: &[u8], from: usize, to: usize) -> (r: Option<usize>)
    requires
        from <= to <= b@.len(),
    ensures
        match r {
            Some(c) => from <= c < to && colon_at(b@.subrange(from as int, to as int), 0) == c - from,
            None => colon_at(b@.subrange(from as int, to as int), 0) == -1,
        },
{
    let ghost l = b@.subrange(from as int, to as int);
    let mut i: usize = from;
    while i < to
        invariant
            from <= i <= to <= b@.len(),
            l == b@.subrange(from as int, to as int),
            colon_at(l, 0) == colon_at(l, i - from),
        decreases to - i,
    {
        proof {
            assert(l[i - from] == b@[i as int]);
        }
        if b[i] == COLON {
            return Some(i);
        }
        i = i + 1;
    }
    None
}

/// Every byte of `b[from..to]` may stand in a header name, and there is one.
fn check_name(b: &[u8], from: usize, to: usize) -> (r: bool)
    requires
        from <= to <= b@.len(),
    ensures
        r == is_name(b@.subrange(from as int, to as int)),
{
    let ghost l = b@.subrange(from as int, to as int);
    if from == to {
        return false;
    }
    let mut i: usize = from;
    while i < to
        invariant
            from <= i <= to <= b@.len(),
            l == b@.subrange(from as int, to as int),
            forall|j: int| 0 <= j < i - from ==> is_name_byte(#[trigger] l[j]),
        decreases to - i,
    {
        proof {
            assert(l[i - from] == b@[i as int]);
        }
        if b[i] < 33 || b[i] > 126 || b[i] == COLON {
            return false;
        }
        i = i + 1;
    }
    true
}

/// The bounds of `b[from..to]` without surrounding white space.
fn trim_bounds(b: &[u8], from: usize, to: usize) -> (r: (usize, usize))
    requires
        from <= to <= b@.len(),
    ensures
        from <= r.0 <= r.1 <= to,
        b@.subrange(r.0 as int, r.1 as int) == trim_end(trim_start(b@.subrange(from as int, to as int))),
{
    let mut s: usize = from;
    while s < to && (b[s] == SPACE || b[s] == TAB)
        invariant
            from <= s <= to <= b@.len(),
            trim_start(b@.subrange(from as int, to as int)) == trim_start(b@.subrange(s as int, to as int)),
        decreases to - s,
    {
        proof {
            assert(b@.subrange(s as int, to as int).drop_first() =~= b@.subrange(s + 1, to as int));
        }
        s = s + 1;
    }
    proof {
        assert(trim_start(b@.subrange(s as int, to as int)) == b@.subrange(s as int, to as int));
    }
    let mut e: usize = to;
    while e > s && (b[e - 1] == SPACE || b[e - 1] == TAB)
        invariant
            from <= s <= e <= to <= b@.len(),
            trim_end(b@.subrange(s as int, to as int)) == trim_end(b@.subrange(s as int, e as int)),
        decreases e - s,
    {
        proof {
            assert(b@.subrange(s as int, e as int).drop_last() =~= b@.subrange(s as int, e - 1));
        }
        e = e - 1;
    }
    (s, e)
}

/// Reads the header line `b[from..to]`.
fn parse_field(b: &[u8], from: usize, to: usize) -> (r: Option<RawField>)
    requires
        from <= to <= b@.len(),
    ensures
        match r {
            Some(f) => field_of_line(b@.subrange(from as int, to as int)) == Some(f@),
            None => field_of_line(b@.subrange(from as int, to as int)) is None,
        },
{
    let ghost l = b@.subrange(from as int, to as int);
    match find_colon(b, from, to) {
        None => None,
        Some(c) => {
            proof {
                assert(l.subrange(0, c - from) =~= b@.subrange(from as int, c as int));
                assert(l.subrange(c - from + 1, l.len() as int) =~= b@.subrange(c + 1, to as int));
            }
            if !check_name(b, from, c) {
                return None;
            }
            let (s, e) = trim_bounds(b, c + 1, to);
            Some(RawField { name: copy_range(b, from, c), value: copy_range(b, s, e) })
        },
    }
}

/// Decodes a message: its kind and its header lines, in order.
pub fn decode_message(b: &[u8]) -> (r: Result<(MessageType, Vec<RawField>), SSDPError>)
    ensures
        match r {
            Ok((k, fs)) => parse_message(b@) == Ok::<_, SSDPError>((k, fields_view(fs@))),
            Err(x) => parse_message(b@) == Err::<(MessageType, Seq<(Seq<u8>, Seq<u8>)>), _>(x),
        },
{
    let end = match find_line_end(b, 0) {
        None => return Err(SSDPError::Truncated),
        Some(e) => e,
    };
    proof {
        lemma_line_end(b@, 0);
        assert(crlf_at(b@, end as int));
    }
    let kind = match classify_start_line(b, end) {
        None => return Err(SSDPError::InvalidStartLine),
        Some(k) => k,
    };
    let mut fields: Vec<RawField> = Vec::new();
    let n = b.len();
    proof {
        assert(end + 2 <= n);
    }
    let mut pos: usize = end + 2;
    loop
        invariant
            pos <= b@.len(),
            n == b@.len(),
            parse_message(b@) == match parse_fields(b@, pos as int) {
                Ok(rest) => Ok((kind, fields_view(fields@) + rest)),
                Err(x) => Err(x),
            },
        decreases b@.len() - pos,
    {
        proof {
            lemma_line_end(b@, pos as int);
        }
        let e = match find_line_end(b, pos) {
            None => return Err(SSDPError::Truncated),
            Some(e) => e,
        };
        if e == pos {
            proof {
                assert(fields_view(fields@) + Seq::empty() =~= fields_view(fields@));
            }
            return Ok((kind, fields));
        }
        match parse_field(b, pos, e) {
            None => return Err(SSDPError::InvalidHeaderLine),
            Some(f) => {
                proof {
                    assert(crlf_at(b@, e as int));
                    assert(e + 2 <= n);
                    let ghost before = fields_view(fields@);
                    assert(fields_view(fields@.push(f)) =~= before.push(f@));
                    match parse_fields(b@, e + 2) {
                        Ok(rest) => {
                            assert(before + (seq![f@] + rest) =~= before.push(f@) + rest);
                        },
                        Err(_) => {},
                    }
                }
                fields.push(f);
                pos = e + 2;
            },
        }
    }
}

/// Appends the bytes `b` to `out`.
pub fn append_bytes(out: &mut Vec<u8>, b: &[u8])
    ensures
        final(out)@ == old(out)@ + b@,
{
    let ghost start = out@;
    let mut i: usize = 0;
    while i < b.len()
        invariant
            i <= b@.len(),
            out@ == start + b@.subrange(0, i as int),
        decreases b@.len() - i,
    {
        out.push(b[i]);
        proof {
            assert(out@ =~= start + b@.subrange(0, i + 1));
        }
        i = i + 1;
    }
    proof {
        assert(b@.subrange(0, b@.len() as int) =~= b@);
    }
}

/// Writing one more header line appends it to the text.
pub proof fn lemma_fields_text_push(fs: Seq<(Seq<u8>, Seq<u8>)>, f: (Seq<u8>, Seq<u8>))
    ensures
        fields_text(fs.push(f)) == fields_text(fs) + field_line(f) + crlf(),
    decreases fs.len(),
{
    if fs.len() == 0 {
        assert(fs.push(f).drop_first() =~= Seq::<(Seq<u8>, Seq<u8>)>::empty());
        assert(fs.push(f)[0] == f);
        assert(fields_text(Seq::<(Seq<u8>, Seq<u8>)>::empty()) == Seq::<u8>::empty());
        assert(fields_text(fs) == Seq::<u8>::empty());
        assert(fields_text(fs.push(f)) =~= field_line(f) + crlf());
    } else {
        assert(fs.push(f).drop_first() =~= fs.drop_first().push(f));
        lemma_fields_text_push(fs.drop_first(), f);
        assert(fs.push(f)[0] == fs[0]);
        assert(fields_text(fs.push(f)) =~= fields_text(fs) + field_line(f) + crlf());
    }
}

/// Encodes a message of kind `k` with the header lines `fields`, in order.
pub fn encode_message(k: MessageType, fields: &Vec<RawField>) -> (r: Vec<u8>)
    ensures
        r@ == message_text(k, fields_view(fields@)),
{
    let mut out: Vec<u8> = Vec::new();
    let start = match k {
        MessageType::Notify => notify_bytes(),
        MessageType::Search => search_bytes(),
        MessageType::Response => response_bytes(),
    };
    append_bytes(&mut out, start);
    out.push(CR);
    out.push(LF);
    let ghost fv = fields_view(fields@);
    proof {
        assert(fv.subrange(0, 0) =~= Seq::<(Seq<u8>, Seq<u8>)>::empty());
        assert(out@ =~= start_line(k) + crlf() + fields_text(fv.subrange(0, 0)));
    }
    let mut i: usize = 0;
    while i < fields.len()
        invariant
            i <= fields@.len(),
            fv == fields_view(fields@),
            out@ == start_line(k) + crlf() + fields_text(fv.subrange(0, i as int)),
        decreases fields@.len() - i,
    {
        let f = &fields[i];
        let ghost before = out@;
        append_bytes(&mut out, f.name.as_slice());
        out.push(COLON);
        out.push(SPACE);
        append_bytes(&mut out, f.value.as_slice());
        out.push(CR);
        out.push(LF);
        proof {
            assert(fv[i as int] == f@);
            assert(fv.subrange(0, i + 1) =~= fv.subrange(0, i as int).push(f@));
            lemma_fields_text_push(fv.subrange(0, i as int), f@);
            assert(out@ =~= before + field_line(f@) + crlf());
        }
        i = i + 1;
    }
    out.push(CR);
    out.push(LF);
    proof {
        assert(fv.subrange(0, fields@.len() as int) =~= fv);
    }
    out
}

/// A header line that reads back as itself: a name, and a value without line
/// breaks and without white space at either end.
pub open spec fn field_wf(f: (Seq<u8>, Seq<u8>)) -> bool {
    &&& is_name(f.0)
    &&& no_crlf(f.1)
    &&& (f.1.len() == 0 || (!is_ows(f.1[0]) && !is_ows(f.1.last())))
}

pub open spec fn fields_wf(fs: Seq<(Seq<u8>, Seq<u8>)>) -> bool {
    forall|i: int| 0 <= i < fs.len() ==> field_wf(#[trigger] fs[i])
}

proof fn lemma_line_end_at(b: Seq<u8>, i: int, e: int)
    requires
        0 <= i <= e,
        crlf_at(b, e),
        forall|j: int| i <= j < e ==> !#[trigger] crlf_at(b, j),
    ensures
        line_end(b, i) == e,
    decreases e - i,
{
    if i < e {
        lemma_line_end_at(b, i + 1, e);
    }
}

proof fn lemma_colon_at(l: Seq<u8>, i: int, c: int)
    requires
        0 <= i <= c < l.len(),
        l[c] == COLON,
        forall|j: int| i <= j < c ==> #[trigger] l[j] != COLON,
    ensures
        colon_at(l, i) == c,
    decreases c - i,
{
    if i < c {
        lemma_colon_at(l, i + 1, c);
    }
}

/// A header line as written reads back as the same name and value.
proof fn lemma_field_line(f: (Seq<u8>, Seq<u8>))
    requires
        field_wf(f),
    ensures
        field_of_line(field_line(f)) == Some(f),
        no_crlf(field_line(f)),
        field_line(f).len() > 0,
{
    let l = field_line(f);
    let n = f.0.len() as int;
    assert forall|j: int| 0 <= j < n implies #[trigger] l[j] != COLON by {
        assert(l[j] == f.0[j]);
        assert(is_name_byte(f.0[j]));
    }
    lemma_colon_at(l, 0, n);
    assert(l.subrange(0, n) =~= f.0);
    let rest = l.subrange(n + 1, l.len() as int);
    assert(rest =~= seq![SPACE] + f.1);
    assert(rest.drop_first() =~= f.1);
    assert(trim_start(f.1) == f.1);
    assert(trim_end(f.1) == f.1);
    assert forall|j: int| 0 <= j < l.len() implies !#[trigger] crlf_at(l, j) by {
        if j < n {
            assert(is_name_byte(f.0[j]));
        } else if j > n + 1 && j + 1 < l.len() {
            assert(l[j] == f.1[j - n - 2]);
            assert(l[j + 1] == f.1[j - n - 1]);
            assert(!crlf_at(f.1, j - n - 2));
        }
    }
}

/// Header lines as written, and a blank line, read back as the same lines.
proof fn lemma_parse_fields_text(b: Seq<u8>, pos: int, fs: Seq<(Seq<u8>, Seq<u8>)>)
    requires
        0 <= pos <= b.len(),
        b.subrange(pos, b.len() as int) == fields_text(fs) + crlf(),
        fields_wf(fs),
    ensures
        parse_fields(b, pos) == Ok::<_, SSDPError>(fs),
    decreases fs.len(),
{
    let t = b.subrange(pos, b.len() as int);
    if fs.len() == 0 {
        assert(t =~= crlf());
        assert(t[0] == b[pos]);
        assert(t[1] == b[pos + 1]);
        lemma_line_end_at(b, pos, pos);
        assert(fs =~= Seq::<(Seq<u8>, Seq<u8>)>::empty());
    } else {
        let f = fs[0];
        let rest = fs.drop_first();
        assert(field_wf(f));
        assert forall|i: int| 0 <= i < rest.len() implies field_wf(#[trigger] rest[i]) by {
            assert(rest[i] == fs[i + 1]);
        }
        lemma_field_line(f);
        let l = field_line(f);
        let len = l.len() as int;
        assert(t =~= l + (crlf() + (fields_text(rest) + crlf())));
        assert forall|k: int| 0 <= k < len implies b[pos + k] == #[trigger] l[k] by {
            assert(t[k] == b[pos + k]);
        }
        assert(t[len] == b[pos + len]);
        assert(t[len + 1] == b[pos + len + 1]);
        assert forall|j: int| pos <= j < pos + len implies !#[trigger] crlf_at(b, j) by {
            if j + 1 < pos + len {
                assert(b[j] == l[j - pos]);
                assert(b[j + 1] == l[j - pos + 1]);
                assert(!crlf_at(l, j - pos));
            }
        }
        lemma_line_end_at(b, pos, pos + len);
        assert(b.subrange(pos, pos + len) =~= l);
        assert(t.subrange(len + 2, t.len() as int) =~= fields_text(rest) + crlf());
        assert(b.subrange(pos + len + 2, b.len() as int) =~= t.subrange(len + 2, t.len() as int));
        lemma_parse_fields_text(b, pos + len + 2, rest);
        assert(seq![f] + rest =~= fs);
    }
}

/// The start lines hold no line break.
proof fn lemma_start_line(k: MessageType)
    ensures
        start_kind(start_line(k)) == Some(k),
        forall|j: int| 0 <= j < start_line(k).len() ==> #[trigger] start_line(k)[j] != CR,
{
    let s = start_line(k);
    assert(response_line().subrange(0, 9) =~= status_prefix());
    assert(response_line().len() == 15);
    assert forall|j: int| 0 <= j < s.len() implies #[trigger] s[j] != CR by {
        match k {
            MessageType::Notify => {},
            MessageType::Search => {},
            MessageType::Response => {
                if j >= 9 {
                    assert(s[j] == seq![50u8, 48, 48, 32, 79, 75][j - 9]);
                }
            },
        }
    }
}

/// Decoding what a message is written as gives back its kind and header lines.
pub proof fn lemma_decode_encode(k: MessageType, fs: Seq<(Seq<u8>, Seq<u8>)>)
    requires
        fields_wf(fs),
    ensures
        parse_message(message_text(k, fs)) == Ok::<_, SSDPError>((k, fs)),
{
    let b = message_text(k, fs);
    let s = start_line(k);
    let n = s.len() as int;
    lemma_start_line(k);
    assert(b =~= s + (crlf() + (fields_text(fs) + crlf())));
    assert forall|j: int| 0 <= j < n implies !#[trigger] crlf_at(b, j) by {
        assert(b[j] == s[j]);
    }
    assert(b[n] == CR);
    assert(b[n + 1] == LF);
    lemma_line_end_at(b, 0, n);
    assert(b.subrange(0, n) =~= s);
    assert(b.subrange(n + 2, b.len() as int) =~= fields_text(fs) + crlf());
    lemma_parse_fields_text(b, n + 2, fs);
}

proof fn lemma_trim_start(s: Seq<u8>) -> (k: int)
    ensures
        0 <= k <= s.len(),
        trim_start(s) == s.subrange(k, s.len() as int),
        trim_start(s).len() == 0 || !is_ows(trim_start(s)[0]),
    decreases s.len(),
{
    if s.len() > 0 && is_ows(s[0]) {
        let k = lemma_trim_start(s.drop_first());
        assert(s.drop_first().subrange(k, s.drop_first().len() as int) =~= s.subrange(k + 1, s.len() as int));
        k + 1
    } else {
        assert(s.subrange(0, s.len() as int) =~= s);
        0
    }
}

proof fn lemma_trim_end(s: Seq<u8>) -> (k: int)
    ensures
        0 <= k <= s.len(),
        trim_end(s) == s.subrange(0, k),
        trim_end(s).len() == 0 || !is_ows(trim_end(s).last()),
    decreases s.len(),
{
    if s.len() > 0 && is_ows(s.last()) {
        let k = lemma_trim_end(s.drop_last());
        assert(s.drop_last().subrange(0, k) =~= s.subrange(0, k));
        k
    } else {
        assert(s.subrange(0, s.len() as int) =~= s);
        s.len() as int
    }
}

proof fn lemma_colon_bounds(l: Seq<u8>, i: int)
    requires
        0 <= i,
    ensures
        colon_at(l, i) == -1 || i <= colon_at(l, i) < l.len(),
    decreases l.len() - i,
{
    if i < l.len() && l[i] != COLON {
        lemma_colon_bounds(l, i + 1);
    }
}

/// A line without line breaks reads as a well-formed header line, if at all.
proof fn lemma_field_of_line_wf(l: Seq<u8>)
    requires
        no_crlf(l),
        field_of_line(l) is Some,
    ensures
        field_wf(field_of_line(l)->Some_0),
{
    let c = colon_at(l, 0);
    lemma_colon_bounds(l, 0);
    let r = l.subrange(c + 1, l.len() as int);
    let k1 = lemma_trim_start(r);
    let ts = trim_start(r);
    let k2 = lemma_trim_end(ts);
    let v = trim_end(ts);
    assert(v.len() > 0 ==> v[0] == ts[0]);
    assert forall|j: int| 0 <= j < v.len() implies !#[trigger] crlf_at(v, j) by {
        if j + 1 < v.len() {
            assert(v[j] == l[c + 1 + k1 + j]);
            assert(v[j + 1] == l[c + 1 + k1 + j + 1]);
            assert(!crlf_at(l, c + 1 + k1 + j));
        }
    }
}

/// Every header line that decodes is well formed.
proof fn lemma_parse_fields_wf(b: Seq<u8>, pos: int)
    requires
        parse_fields(b, pos) is Ok,
    ensures
        fields_wf(parse_fields(b, pos)->Ok_0),
    decreases b.len() - pos,
{
    let e = line_end(b, pos);
    lemma_line_end(b, pos);
    if e > pos {
        let l = b.subrange(pos, e);
        assert forall|j: int| 0 <= j < l.len() implies !#[trigger] crlf_at(l, j) by {
            if j + 1 < l.len() {
                assert(l[j] == b[pos + j]);
                assert(l[j + 1] == b[pos + j + 1]);
                assert(!crlf_at(b, pos + j));
            }
        }
        lemma_field_of_line_wf(l);
        lemma_parse_fields_wf(b, e + 2);
        let f = field_of_line(l)->Some_0;
        let rest = parse_fields(b, e + 2)->Ok_0;
        let fs = seq![f] + rest;
        assert forall|i: int| 0 <= i < fs.len() implies field_wf(#[trigger] fs[i]) by {
            if i > 0 {
                assert(fs[i] == rest[i - 1]);
            }
        }
    }
}

/// Re-encoding a decoded message and decoding it again gives the same kind and
/// the same header lines, in the same order.
pub proof fn law_reencode(b: Seq<u8>)
    requires
        parse_message(b) is Ok,
    ensures
        parse_message(message_text(parse_message(b)->Ok_0.0, parse_message(b)->Ok_0.1)) == parse_message(b),
{
    let e = line_end(b, 0);
    lemma_line_end(b, 0);
    lemma_parse_fields_wf(b, e + 2);
    let (k, fs) = parse_message(b)->Ok_0;
    lemma_decode_encode(k, fs);
}

} // verus!
