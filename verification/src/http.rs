//! The head of an HTTP request.

use crate::addr::{address_named, address_view, parse_address, IpAddr, IpAddrView};
use crate::buffers::buffered;
use bytes::BytesMut;
use vstd::prelude::*;
use vstd::slice::slice_to_vec;
use vstd::utf8::{decode_utf8, encode_utf8, encode_utf8_decode_utf8, valid_utf8};

verus! {

/// The request method that was recognised, or another purpose of a connection.
#[derive(Clone, Copy, Debug, PartialEq, Eq, Structural)]
pub enum PrimaryProtocol {
    HttpConnect,
    HttpGet,
    HttpPost,
    HttpPut,
    HttpOptions,
    Shutdown,
    Ping,
    Status,
    LogRotate,
}

/// What the bytes received so far tell of the protocol.
#[derive(Clone, Copy, Debug, PartialEq, Eq, Structural)]
pub enum Detection {
    /// More bytes are needed.
    Incomplete,
    /// A request with this method.
    Found(PrimaryProtocol),
    /// Too many bytes without the end of a request's head.
    NotHttp,
}

/// From this length on, bytes that hold no request's head are given up.
pub const HEAD_LIMIT: usize = 4096;

/// The end of the head, an empty line, starts at `i`.
pub open spec fn head_ends_at(received: Seq<u8>, i: int) -> bool {
    &&& received[i] == 13
    &&& received[i + 1] == 10
    &&& received[i + 2] == 13
    &&& received[i + 3] == 10
}

/// The bytes hold the end of a request's head, and more than ten bytes in all.
pub open spec fn has_head(received: Seq<u8>) -> bool {
    received.len() > 10 && exists|i: int| 0 <= i <= received.len() - 4 && head_ends_at(received, i)
}

/// The bytes start with the text.
pub open spec fn starts_with(received: Seq<u8>, text: Seq<char>) -> bool {
    encode_utf8(text).is_prefix_of(received)
}

/// The bytes start with an empty line.
pub open spec fn starts_blank(received: Seq<u8>) -> bool {
    received.len() >= 2 && received[0] == 13 && received[1] == 10
}

/// The bytes without the empty line that they start with. It is dropped once the end of a head
/// has come.
pub open spec fn without_blank(received: Seq<u8>) -> Seq<u8> {
    if has_head(received) && starts_blank(received) {
        received.skip(2)
    } else {
        received
    }
}

/// What the bytes received so far tell of the protocol. An empty line before the request is
/// ignored. A head with another method than these is never given up.
pub open spec fn detect(received: Seq<u8>) -> Detection {
    let request = without_blank(received);
    if has_head(received) {
        if starts_with(request, "GET "@) {
            Detection::Found(PrimaryProtocol::HttpGet)
        } else if starts_with(request, "POST "@) {
            Detection::Found(PrimaryProtocol::HttpPost)
        } else if starts_with(request, "PUT "@) {
            Detection::Found(PrimaryProtocol::HttpPut)
        } else if starts_with(request, "CONNECT "@) {
            Detection::Found(PrimaryProtocol::HttpConnect)
        } else if starts_with(request, "OPTIONS "@) {
            Detection::Found(PrimaryProtocol::HttpOptions)
        } else {
            Detection::Incomplete
        }
    } else if received.len() >= HEAD_LIMIT {
        Detection::NotHttp
    } else {
        Detection::Incomplete
    }
}

/// Whether the bytes hold the end of a request's head.
pub fn is_http(received: &[u8]) -> (http: bool)
    ensures
        http == has_head(received@),
{
    let len = received.len();
    if len <= 10 {
        return false;
    }
    let mut pos: usize = 0;
    while pos < len - 3
        invariant
            len == received@.len(),
            len > 10,
            pos <= len - 3,
            forall|i: int| 0 <= i < pos ==> !head_ends_at(received@, i),
        decreases len - pos,
    {
        if received[pos] == 13 && received[pos + 3] == 10 && received[pos + 2] == 13
            && received[pos + 1] == 10 {
            assert(head_ends_at(received@, pos as int));
            return true;
        }
        pos += 1;
    }
    false
}

/// Whether the bytes start with the text.
fn begins(received: &[u8], text: &str) -> (yes: bool)
    ensures
        yes == starts_with(received@, text@),
{
    let wanted = text.as_bytes();
    if received.len() < wanted.len() {
        return false;
    }
    for i in 0..wanted.len()
        invariant
            wanted@ == encode_utf8(text@),
            wanted@.len() <= received@.len(),
            forall|j: int| 0 <= j < i ==> wanted@[j] == received@[j],
    {
        if received[i] != wanted[i] {
            return false;
        }
    }
    assert(wanted@ =~= received@.subrange(0, wanted@.len() as int));
    true
}

/// What the bytes received so far tell of the protocol. An empty line before the request leaves
/// the buffer.
pub fn detect_protocol(read_buf: &mut BytesMut) -> (detection: Detection)
    ensures
        detection == detect(buffered(*old(read_buf))),
        buffered(*final(read_buf)) == without_blank(buffered(*old(read_buf))),
{
    if is_http(read_buf) {
        if read_buf[0] == 13 && read_buf[1] == 10 {
            let _blank = read_buf.split_to(2);
        }
        if begins(read_buf, "GET ") {
            Detection::Found(PrimaryProtocol::HttpGet)
        } else if begins(read_buf, "POST ") {
            Detection::Found(PrimaryProtocol::HttpPost)
        } else if begins(read_buf, "PUT ") {
            Detection::Found(PrimaryProtocol::HttpPut)
        } else if begins(read_buf, "CONNECT ") {
            Detection::Found(PrimaryProtocol::HttpConnect)
        } else if begins(read_buf, "OPTIONS ") {
            Detection::Found(PrimaryProtocol::HttpOptions)
        } else {
            Detection::Incomplete
        }
    } else if read_buf.len() >= HEAD_LIMIT {
        Detection::NotHttp
    } else {
        Detection::Incomplete
    }
}

/// How many line feeds there are.
pub open spec fn line_feeds(received: Seq<u8>) -> nat
    decreases received.len(),
{
    if received.len() == 0 {
        0
    } else {
        line_feeds(received.drop_last()) + if received.last() == 10 {
            1nat
        } else {
            0
        }
    }
}

/// How many line feeds there are.
pub fn count_line_feeds(received: &[u8]) -> (count: usize)
    ensures
        count == line_feeds(received@),
{
    let mut count: usize = 0;
    for i in 0..received.len()
        invariant
            count <= i,
            count == line_feeds(received@.take(i as int)),
    {
        assert(received@.take(i + 1).drop_last() =~= received@.take(i as int));
        if received[i] == 10 {
            count += 1;
        }
    }
    assert(received@.take(received@.len() as int) =~= received@);
    count
}

/// A header field.
#[derive(Debug)]
pub struct HeaderField {
    /// The name, as it was spelled.
    pub name: String,
    /// The value, without the white space around it.
    pub value: Vec<u8>,
}

impl View for HeaderField {
    type V = (Seq<char>, Seq<u8>);

    open spec fn view(&self) -> (Seq<char>, Seq<u8>) {
        (self.name@, self.value@)
    }
}

/// The names and values of a list of fields.
pub open spec fn field_views(fields: Seq<HeaderField>) -> Seq<(Seq<char>, Seq<u8>)> {
    Seq::new(fields.len(), |i: int| fields[i]@)
}

/// The error of the request parser.
#[verifier::external_type_specification]
#[verifier::external_body]
pub struct ExParseError(httparse::Error);

/// The header fields of the request at the start of `head`, as the parser leaves them in
/// `slots` slots; none where it reports an error.
pub uninterp spec fn request_fields(head: Seq<u8>, slots: nat) -> Option<
    Seq<(Seq<char>, Seq<u8>)>,
>;

/// `httparse::Request::parse` with `slots` empty headers: what the header slots hold afterwards,
/// an unused one an empty name and value. An incomplete request is no error. Nothing is said of
/// the fields but that they are a function of the bytes and of the number of slots, and that a
/// value, being a part of the bytes, is no longer than they are. The slots, of at most 32 bytes
/// each, panic where they do not fit in a vector.
#[verifier::external_body]
fn parse_request(head: &[u8], slots: usize) -> (fields: Result<Vec<HeaderField>, httparse::Error>)
    requires
        slots * 32 <= isize::MAX,
    ensures
        fields is Ok <==> request_fields(head@, slots as nat) is Some,
        fields matches Ok(list) ==> request_fields(head@, slots as nat) == Some(
            field_views(list@),
        ),
        fields matches Ok(list) ==> forall|i: int|
            0 <= i < list@.len() ==> (#[trigger] list@[i]).value@.len() <= head@.len(),
{
    let mut headers = vec![httparse::EMPTY_HEADER; slots];
    httparse::Request::new(&mut headers).parse(head)?;
    Ok(headers.iter().map(|h| HeaderField { name: h.name.to_string(), value: h.value.to_vec() }).collect())
}

/// The error of `core::str::from_utf8`.
#[verifier::external_type_specification]
#[verifier::external_body]
pub struct ExUtf8Error(core::str::Utf8Error);

/// `core::str::from_utf8`: the text that the bytes encode, and an error exactly where they are
/// not UTF-8.
pub assume_specification[ core::str::from_utf8 ](v: &[u8]) -> (r: Result<
    &str,
    core::str::Utf8Error,
>)
    ensures
        r is Ok <==> valid_utf8(v@),
        r matches Ok(text) ==> encode_utf8(text@) == v@,
;

/// What the fields of an upgrade request say.
#[derive(Debug)]
pub struct UpgradeFields {
    /// The text of the address for which a proxy forwards the request.
    pub forwarded_for: Option<String>,
    /// The client's key; empty where there is none.
    pub sec_websocket_key: Vec<u8>,
}

impl View for UpgradeFields {
    type V = (Option<Seq<char>>, Seq<u8>);

    open spec fn view(&self) -> (Option<Seq<char>>, Seq<u8>) {
        (
            match self.forwarded_for {
                Some(text) => Some(text@),
                None => None,
            },
            self.sec_websocket_key@,
        )
    }
}

/// What an upgrade request asks with.
#[derive(Debug)]
pub struct ParseResult {
    /// The address for which a proxy forwards the request.
    pub proxy_ip: Option<IpAddr>,
    /// The client's key; empty where there is none.
    pub sec_websocket_key: Vec<u8>,
}

impl View for ParseResult {
    type V = (Option<IpAddrView>, Seq<u8>);

    open spec fn view(&self) -> (Option<IpAddrView>, Seq<u8>) {
        (address_view(self.proxy_ip), self.sec_websocket_key@)
    }
}

/// There is a field of this name, spelled just so.
pub open spec fn has_field(fields: Seq<(Seq<char>, Seq<u8>)>, name: Seq<char>) -> bool {
    exists|i: int| 0 <= i < fields.len() && (#[trigger] fields[i]).0 == name
}

/// There is a key and there is a forwarded address.
pub open spec fn has_both(fields: Seq<(Seq<char>, Seq<u8>)>) -> bool {
    has_field(fields, "Sec-WebSocket-Key"@) && has_field(fields, "x-forwarded-for"@)
}

/// The fields that are looked at: all up to the first at which both a key and a forwarded
/// address have been seen.
pub open spec fn considered(fields: Seq<(Seq<char>, Seq<u8>)>) -> Seq<(Seq<char>, Seq<u8>)>
    decreases fields.len(),
{
    if fields.len() > 0 && has_both(fields.drop_last()) {
        considered(fields.drop_last())
    } else {
        fields
    }
}

/// The value of the last key; empty where there is none.
pub open spec fn last_key(fields: Seq<(Seq<char>, Seq<u8>)>) -> Seq<u8>
    decreases fields.len(),
{
    if fields.len() == 0 {
        Seq::empty()
    } else if fields.last().0 == "Sec-WebSocket-Key"@ {
        fields.last().1
    } else {
        last_key(fields.drop_last())
    }
}

/// The text of the last forwarded address that is UTF-8.
pub open spec fn last_proxy(fields: Seq<(Seq<char>, Seq<u8>)>) -> Option<Seq<char>>
    decreases fields.len(),
{
    if fields.len() == 0 {
        None
    } else if fields.last().0 == "x-forwarded-for"@ && valid_utf8(fields.last().1) {
        Some(decode_utf8(fields.last().1))
    } else {
        last_proxy(fields.drop_last())
    }
}

/// What the fields of an upgrade request say: none where there is neither a key nor a
/// forwarded address.
pub open spec fn scan(fields: Seq<(Seq<char>, Seq<u8>)>) -> Option<(Option<Seq<char>>, Seq<u8>)> {
    if has_field(fields, "Sec-WebSocket-Key"@) || has_field(fields, "x-forwarded-for"@) {
        Some((last_proxy(considered(fields)), last_key(considered(fields))))
    } else {
        None
    }
}

/// A field of a part is a field of the whole.
proof fn lemma_has_field_prefix(fields: Seq<(Seq<char>, Seq<u8>)>, n: int, name: Seq<char>)
    requires
        0 <= n <= fields.len(),
        has_field(fields.take(n), name),
    ensures
        has_field(fields, name),
{
    let i = choose|i: int| 0 <= i < n && (#[trigger] fields.take(n)[i]).0 == name;
    assert(fields[i].0 == name);
}

/// The fields looked at end where both kinds have been seen for the first time.
pub(crate) proof fn lemma_considered(fields: Seq<(Seq<char>, Seq<u8>)>, n: int)
    requires
        0 < n <= fields.len(),
        has_both(fields.take(n)),
        !has_both(fields.take(n - 1)),
    ensures
        considered(fields) == fields.take(n),
    decreases fields.len(),
{
    if n == fields.len() {
        assert(fields.take(n) =~= fields);
        assert(fields.take(n - 1) =~= fields.drop_last());
    } else {
        let shorter = fields.drop_last();
        assert(shorter.take(n) =~= fields.take(n));
        assert(shorter.take(n - 1) =~= fields.take(n - 1));
        lemma_has_field_prefix(shorter, n, "Sec-WebSocket-Key"@);
        lemma_has_field_prefix(shorter, n, "x-forwarded-for"@);
        lemma_considered(shorter, n);
    }
}

/// Whether the first `n + 1` fields hold a name is settled by the first `n` and the next.
proof fn lemma_has_field_step(fields: Seq<(Seq<char>, Seq<u8>)>, n: int, name: Seq<char>)
    requires
        0 <= n < fields.len(),
    ensures
        has_field(fields.take(n + 1), name) <==> has_field(fields.take(n), name)
            || fields[n].0 == name,
{
    let longer = fields.take(n + 1);
    assert(longer.take(n) =~= fields.take(n));
    if has_field(fields.take(n), name) {
        lemma_has_field_prefix(longer, n, name);
    }
    if fields[n].0 == name {
        assert(longer[n].0 == name);
    }
    if has_field(longer, name) && fields[n].0 != name {
        let i = choose|i: int| 0 <= i < longer.len() && (#[trigger] longer[i]).0 == name;
        assert(fields.take(n)[i].0 == name);
    }
}

/// What the fields of an upgrade request say.
pub fn scan_headers(fields: &[HeaderField]) -> (result: Result<UpgradeFields, ()>)
    ensures
        result is Ok <==> scan(field_views(fields@)) is Some,
        result matches Ok(r) ==> scan(field_views(fields@)) == Some(r@),
        result matches Ok(r) ==> r.sec_websocket_key@.len() == 0 || exists|i: int|
            0 <= i < fields@.len() && r.sec_websocket_key@ == (#[trigger] fields@[i]).value@,
{
    let ghost views = field_views(fields@);
    let key_name: String = "Sec-WebSocket-Key".to_owned();
    let proxy_name: String = "x-forwarded-for".to_owned();
    let mut forwarded_for: Option<String> = None;
    let mut sec_websocket_key: Vec<u8> = Vec::new();
    let mut key_found: bool = false;
    let mut proxy_found: bool = false;
    proof {
        reveal_strlit("Sec-WebSocket-Key");
        reveal_strlit("x-forwarded-for");
        assert("Sec-WebSocket-Key"@.len() != "x-forwarded-for"@.len());
        assert(views.take(0) =~= Seq::empty());
    }
    for i in 0..fields.len()
        invariant
            views == field_views(fields@),
            key_name@ == "Sec-WebSocket-Key"@,
            proxy_name@ == "x-forwarded-for"@,
            "Sec-WebSocket-Key"@ != "x-forwarded-for"@,
            key_found == has_field(views.take(i as int), "Sec-WebSocket-Key"@),
            proxy_found == has_field(views.take(i as int), "x-forwarded-for"@),
            !(key_found && proxy_found),
            sec_websocket_key@ == last_key(views.take(i as int)),
            (match forwarded_for {
                Some(text) => Some(text@),
                None => None,
            }) == last_proxy(views.take(i as int)),
            sec_websocket_key@.len() == 0 || exists|j: int|
                0 <= j < fields@.len() && sec_websocket_key@ == (#[trigger] fields@[j]).value@,
    {
        let field = &fields[i];
        proof {
            lemma_has_field_step(views, i as int, "Sec-WebSocket-Key"@);
            lemma_has_field_step(views, i as int, "x-forwarded-for"@);
            assert(views.take(i + 1).drop_last() =~= views.take(i as int));
            assert(views.take(i + 1).last() == field@);
        }
        if field.name == key_name {
            key_found = true;
            sec_websocket_key = slice_to_vec(&field.value);
        } else if field.name == proxy_name {
            proxy_found = true;
            if let Ok(text) = core::str::from_utf8(&field.value) {
                proof {
                    encode_utf8_decode_utf8(text@);
                }
                forwarded_for = Some(text.to_owned());
            }
        }
        if key_found && proxy_found {
            proof {
                lemma_considered(views, i + 1);
                lemma_has_field_prefix(views, i + 1, "Sec-WebSocket-Key"@);
            }
            return Ok(UpgradeFields { forwarded_for, sec_websocket_key });
        }
    }
    assert(views.take(views.len() as int) =~= views);
    proof {
        if views.len() > 0 {
            let last = views.len() - 1;
            lemma_has_field_step(views, last, "Sec-WebSocket-Key"@);
            lemma_has_field_step(views, last, "x-forwarded-for"@);
            assert(views.drop_last() =~= views.take(last));
        }
        assert(considered(views) == views);
    }
    if key_found || proxy_found {
        Ok(UpgradeFields { forwarded_for, sec_websocket_key })
    } else {
        Err(())
    }
}

/// What is asked for with these fields: the address is the one that the text stands for, if
/// there is a text and it does for one.
pub open spec fn resolved(found: (Option<Seq<char>>, Seq<u8>)) -> (Option<IpAddrView>, Seq<u8>) {
    (
        match found.0 {
            Some(text) => address_named(text),
            None => None,
        },
        found.1,
    )
}

/// What the request in `head` asks with, where the parser has `slots` slots for its fields.
pub open spec fn request_scan(head: Seq<u8>, slots: nat) -> Option<
    (Option<IpAddrView>, Seq<u8>),
> {
    match request_fields(head, slots) {
        Some(fields) => match scan(fields) {
            Some(found) => Some(resolved(found)),
            None => None,
        },
        None => None,
    }
}

/// What is asked for with these fields.
pub fn resolve(found: UpgradeFields) -> (result: ParseResult)
    ensures
        result@ == resolved(found@),
        result.sec_websocket_key == found.sec_websocket_key,
{
    let proxy_ip = match &found.forwarded_for {
        Some(text) => parse_address(text.as_str()),
        None => None,
    };
    ParseResult { proxy_ip, sec_websocket_key: found.sec_websocket_key }
}

/// What the request in `head` asks with; an error where the parser reports one, or where there
/// is neither a key nor a forwarded address.
pub fn parse_with_httparse(head: &[u8], header_length: usize) -> (result: Result<ParseResult, ()>)
    requires
        header_length * 32 <= isize::MAX,
    ensures
        result is Ok <==> request_scan(head@, header_length as nat) is Some,
        result matches Ok(r) ==> request_scan(head@, header_length as nat) == Some(r@),
        result matches Ok(r) ==> r.sec_websocket_key@.len() <= head@.len(),
{
    match parse_request(head, header_length) {
        Ok(fields) => match scan_headers(&fields) {
            Ok(found) => Ok(resolve(found)),
            Err(_) => Err(()),
        },
        Err(_) => Err(()),
    }
}

/// What an upgrade request asks with: none where the head has under three or over ninety-nine
/// lines, or where it cannot be parsed as one.
pub open spec fn upgrade_request(head: Seq<u8>) -> Option<(Option<IpAddrView>, Seq<u8>)> {
    if 2 < line_feeds(head) < 100 {
        request_scan(head, line_feeds(head))
    } else {
        None
    }
}

/// What an upgrade request asks with.
pub fn read_upgrade(head: &[u8]) -> (result: Option<ParseResult>)
    ensures
        result is Some <==> upgrade_request(head@) is Some,
        result matches Some(r) ==> upgrade_request(head@) == Some(r@),
        result matches Some(r) ==> r.sec_websocket_key@.len() <= head@.len(),
{
    let header_length = count_line_feeds(head);
    if header_length > 2 && header_length < 100 {
        match parse_with_httparse(head, header_length) {
            Ok(r) => Some(r),
            Err(_) => None,
        }
    } else {
        None
    }
}

} // verus!
