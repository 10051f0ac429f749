//! A browser's request: when it has come, what it asks for, and how it is answered.

use crate::addr::{address_named, IpAddrView};
use crate::buffers::buffered;
use crate::digest::{accept_value, base64_char, base64_text, sha1, ACCEPT_GUID, MAX_HASHED};
use crate::http::{
    considered, detect, field_views, has_field, has_head, head_ends_at, lemma_considered, last_key,
    last_proxy, line_feeds, request_fields, request_scan, resolved, scan, starts_with,
    upgrade_request, without_blank,
};
use crate::http::{Detection, HeaderField, ParseResult, PrimaryProtocol, UpgradeFields};
use crate::ws_handshake::{answer, awaits, refusal_answer, step, upgrade_answer};
use crate::ws_handshake::{Action, Event, Handshake, HandshakeRes, Phase};
use crate::ws_handshake::{ActionView, EventView, HandshakeView, PhaseView};
use vstd::prelude::*;
use vstd::utf8::{
    decode_utf8_encode_utf8, encode_utf8, is_ascii_chars, is_ascii_chars_encode_utf8, valid_utf8,
};

verus! {

/// There are more than ten bytes, and carriage return, line feed, carriage return and line feed
/// follow one another somewhere among them.
pub open spec fn head_has_come(received: Seq<u8>) -> bool {
    received.len() > 10 && exists|i: int|
        0 <= i <= received.len() - 4 && #[trigger] received.subrange(i, i + 4) == seq![
            13u8,
            10u8,
            13u8,
            10u8,
        ]
}

/// The received bytes start with these.
pub open spec fn begins_with(received: Seq<u8>, bytes: Seq<u8>) -> bool {
    received.len() >= bytes.len() && received.take(bytes.len() as int) == bytes
}

/// The request: what was received, without one carriage return and line feed at the start.
pub open spec fn request_of(received: Seq<u8>) -> Seq<u8> {
    if begins_with(received, seq![13u8, 10u8]) {
        received.skip(2)
    } else {
        received
    }
}

/// When the head of a request has come.
pub proof fn when_a_head_has_come(received: Seq<u8>)
    ensures
        has_head(received) <==> head_has_come(received),
{
    if has_head(received) {
        let i = choose|i: int| 0 <= i <= received.len() - 4 && head_ends_at(received, i);
        assert(received.subrange(i, i + 4) =~= seq![13u8, 10u8, 13u8, 10u8]);
    }
    if head_has_come(received) {
        let i = choose|i: int|
            0 <= i <= received.len() - 4 && #[trigger] received.subrange(i, i + 4) == seq![
                13u8,
                10u8,
                13u8,
                10u8,
            ];
        let end = received.subrange(i, i + 4);
        assert(end[0] == received[i] && end[1] == received[i + 1] && end[2] == received[i + 2]
            && end[3] == received[i + 3]);
        assert(head_ends_at(received, i));
    }
}

/// The first bytes are those that the received bytes begin with.
proof fn lemma_begins_with(received: Seq<u8>, bytes: Seq<u8>)
    requires
        bytes.len() >= 2,
    ensures
        begins_with(received, bytes) ==> received[0] == bytes[0] && received[1] == bytes[1],
{
    if begins_with(received, bytes) {
        let start = received.take(bytes.len() as int);
        assert(start[0] == received[0] && start[1] == received[1]);
    }
}

/// The bytes of a text of ASCII characters are looked for one by one.
proof fn lemma_starts_with_bytes(received: Seq<u8>, text: Seq<char>, bytes: Seq<u8>)
    requires
        is_ascii_chars(text),
        text.len() == bytes.len(),
        forall|i: int| 0 <= i < text.len() ==> #[trigger] text[i] as u8 == bytes[i],
    ensures
        starts_with(received, text) <==> begins_with(received, bytes),
{
    is_ascii_chars_encode_utf8(text);
    assert(encode_utf8(text) =~= bytes);
    if received.len() >= bytes.len() {
        assert(received.take(bytes.len() as int) =~= received.subrange(0, bytes.len() as int));
    }
}

/// A request is recognised exactly where its head has come and it begins with one of five methods
/// and a space, after one carriage return and line feed at most.
pub proof fn when_a_method_is_found(received: Seq<u8>)
    ensures
        detect(received) == Detection::Found(PrimaryProtocol::HttpGet) <==> head_has_come(received)
            && begins_with(request_of(received), seq![71u8, 69u8, 84u8, 32u8]),
        detect(received) == Detection::Found(PrimaryProtocol::HttpPost) <==> head_has_come(received)
            && begins_with(request_of(received), seq![80u8, 79u8, 83u8, 84u8, 32u8]),
        detect(received) == Detection::Found(PrimaryProtocol::HttpPut) <==> head_has_come(received)
            && begins_with(request_of(received), seq![80u8, 85u8, 84u8, 32u8]),
        detect(received) == Detection::Found(PrimaryProtocol::HttpConnect) <==> head_has_come(
            received,
        ) && begins_with(
            request_of(received),
            seq![67u8, 79u8, 78u8, 78u8, 69u8, 67u8, 84u8, 32u8],
        ),
        detect(received) == Detection::Found(PrimaryProtocol::HttpOptions) <==> head_has_come(
            received,
        ) && begins_with(
            request_of(received),
            seq![79u8, 80u8, 84u8, 73u8, 79u8, 78u8, 83u8, 32u8],
        ),
        detect(received) matches Detection::Found(primary) ==> primary == PrimaryProtocol::HttpGet
            || primary == PrimaryProtocol::HttpPost || primary == PrimaryProtocol::HttpPut
            || primary == PrimaryProtocol::HttpConnect || primary == PrimaryProtocol::HttpOptions,
{
    let get = seq![71u8, 69u8, 84u8, 32u8];
    let post = seq![80u8, 79u8, 83u8, 84u8, 32u8];
    let put = seq![80u8, 85u8, 84u8, 32u8];
    let connect = seq![67u8, 79u8, 78u8, 78u8, 69u8, 67u8, 84u8, 32u8];
    let options = seq![79u8, 80u8, 84u8, 73u8, 79u8, 78u8, 83u8, 32u8];
    let request = request_of(received);
    when_a_head_has_come(received);
    what_is_dropped(received);
    reveal_strlit("GET ");
    reveal_strlit("POST ");
    reveal_strlit("PUT ");
    reveal_strlit("CONNECT ");
    reveal_strlit("OPTIONS ");
    lemma_starts_with_bytes(request, "GET "@, get);
    lemma_starts_with_bytes(request, "POST "@, post);
    lemma_starts_with_bytes(request, "PUT "@, put);
    lemma_starts_with_bytes(request, "CONNECT "@, connect);
    lemma_starts_with_bytes(request, "OPTIONS "@, options);
    lemma_begins_with(request, get);
    lemma_begins_with(request, post);
    lemma_begins_with(request, put);
    lemma_begins_with(request, connect);
    lemma_begins_with(request, options);
}

/// Bytes are given up exactly where there are at least 4096 and no head has come. So fewer are
/// never given up, however they are divided into lines.
pub proof fn when_bytes_are_given_up(received: Seq<u8>)
    ensures
        detect(received) == Detection::NotHttp <==> received.len() >= 4096 && !head_has_come(
            received,
        ),
        received.len() < 4096 && !head_has_come(received) ==> detect(received)
            == Detection::Incomplete,
{
    when_a_head_has_come(received);
}

/// Until a head has come nothing is dropped; then one carriage return and line feed at the start
/// are, and nothing else.
pub proof fn what_is_dropped(received: Seq<u8>)
    ensures
        head_has_come(received) ==> without_blank(received) == request_of(received),
        !head_has_come(received) ==> without_blank(received) == received,
{
    when_a_head_has_come(received);
    if received.len() >= 2 {
        assert(received.take(2)[0] == received[0] && received.take(2)[1] == received[1]);
        if received[0] == 13 && received[1] == 10 {
            assert(received.take(2) =~= seq![13u8, 10u8]);
        }
    }
}

/// Line feeds add up, and every byte 10 is one.
pub proof fn line_feeds_add_up(first: Seq<u8>, second: Seq<u8>, byte: u8)
    ensures
        line_feeds(Seq::empty()) == 0,
        line_feeds(seq![byte]) == (if byte == 10 {
            1nat
        } else {
            0
        }),
        line_feeds(first + second) == line_feeds(first) + line_feeds(second),
    decreases second.len(),
{
    assert(seq![byte].drop_last() =~= Seq::empty());
    reveal_with_fuel(line_feeds, 2);
    if second.len() == 0 {
        assert(first + second =~= first);
    } else {
        line_feeds_add_up(first, second.drop_last(), byte);
        assert((first + second).drop_last() =~= first + second.drop_last());
        assert((first + second).last() == second.last());
    }
}

/// One of the first `n` fields has this name.
pub open spec fn named_among(fields: Seq<(Seq<char>, Seq<u8>)>, n: int, name: Seq<char>) -> bool {
    exists|i: int| 0 <= i < n && (#[trigger] fields[i]).0 == name
}

/// The first `n` fields are those that are looked at: it ends at the field with which a key and a
/// forwarded address have both been seen, or with the last field.
pub open spec fn looked_at(fields: Seq<(Seq<char>, Seq<u8>)>, n: int) -> bool {
    &&& 0 <= n <= fields.len()
    &&& n < fields.len() ==> named_among(fields, n, "Sec-WebSocket-Key"@) && named_among(
        fields,
        n,
        "x-forwarded-for"@,
    )
    &&& n > 0 ==> !(named_among(fields, n - 1, "Sec-WebSocket-Key"@) && named_among(
        fields,
        n - 1,
        "x-forwarded-for"@,
    ))
}

/// To be among the first fields is to be a field of them.
proof fn lemma_named_among(fields: Seq<(Seq<char>, Seq<u8>)>, n: int, name: Seq<char>)
    requires
        0 <= n <= fields.len(),
    ensures
        has_field(fields.take(n), name) <==> named_among(fields, n, name),
{
    let part = fields.take(n);
    if named_among(fields, n, name) {
        let i = choose|i: int| 0 <= i < n && (#[trigger] fields[i]).0 == name;
        assert(part[i].0 == name);
    }
    if has_field(part, name) {
        let i = choose|i: int| 0 <= i < part.len() && (#[trigger] part[i]).0 == name;
        assert(fields[i].0 == name);
    }
}

/// The fields looked at are the considered ones.
proof fn lemma_looked_at(fields: Seq<(Seq<char>, Seq<u8>)>, n: int)
    requires
        looked_at(fields, n),
    ensures
        considered(fields) == fields.take(n),
{
    lemma_named_among(fields, n, "Sec-WebSocket-Key"@);
    lemma_named_among(fields, n, "x-forwarded-for"@);
    if n > 0 {
        lemma_named_among(fields, n - 1, "Sec-WebSocket-Key"@);
        lemma_named_among(fields, n - 1, "x-forwarded-for"@);
    }
    if n == fields.len() {
        assert(fields.take(n) =~= fields);
        if n > 0 {
            assert(fields.drop_last() =~= fields.take(n - 1));
        }
    } else {
        lemma_considered(fields, n);
    }
}

/// Of every list of fields there is a number that is looked at.
pub proof fn some_fields_are_looked_at(fields: Seq<(Seq<char>, Seq<u8>)>)
    ensures
        exists|n: int| looked_at(fields, n),
    decreases fields.len(),
{
    let len = fields.len() as int;
    if looked_at(fields, len) {
    } else {
        let shorter = fields.drop_last();
        some_fields_are_looked_at(shorter);
        let n = choose|n: int| looked_at(shorter, n);
        assert(fields.take(len - 1) =~= shorter);
        assert forall|m: int, name: Seq<char>|
            0 <= m < len implies #[trigger] named_among(shorter, m, name) == named_among(
            fields,
            m,
            name,
        ) by {
            lemma_named_among(shorter, m, name);
            lemma_named_among(fields, m, name);
            assert(shorter.take(m) =~= fields.take(m));
        }
        assert(looked_at(fields, n));
    }
}

/// The last key of a list is at the last place that has its name.
proof fn lemma_last_key(fields: Seq<(Seq<char>, Seq<u8>)>, i: int)
    requires
        0 <= i < fields.len(),
        fields[i].0 == "Sec-WebSocket-Key"@,
        forall|j: int| i < j < fields.len() ==> (#[trigger] fields[j]).0 != "Sec-WebSocket-Key"@,
    ensures
        last_key(fields) == fields[i].1,
    decreases fields.len(),
{
    if i < fields.len() - 1 {
        assert(fields[fields.len() - 1].0 != "Sec-WebSocket-Key"@);
        lemma_last_key(fields.drop_last(), i);
    }
}

/// A list without a key has an empty one.
proof fn lemma_no_key(fields: Seq<(Seq<char>, Seq<u8>)>)
    requires
        forall|j: int| 0 <= j < fields.len() ==> (#[trigger] fields[j]).0 != "Sec-WebSocket-Key"@,
    ensures
        last_key(fields) == Seq::<u8>::empty(),
    decreases fields.len(),
{
    if fields.len() > 0 {
        assert(fields[fields.len() - 1].0 != "Sec-WebSocket-Key"@);
        lemma_no_key(fields.drop_last());
    }
}

/// The last forwarded address of a list is at the last place that has its name and is UTF-8.
proof fn lemma_last_proxy(fields: Seq<(Seq<char>, Seq<u8>)>, i: int)
    requires
        0 <= i < fields.len(),
        fields[i].0 == "x-forwarded-for"@,
        valid_utf8(fields[i].1),
        forall|j: int|
            i < j < fields.len() ==> (#[trigger] fields[j]).0 != "x-forwarded-for"@ || !valid_utf8(
                fields[j].1,
            ),
    ensures
        last_proxy(fields) matches Some(text) && encode_utf8(text) == fields[i].1,
    decreases fields.len(),
{
    if i < fields.len() - 1 {
        let last = fields[fields.len() - 1];
        assert(last.0 != "x-forwarded-for"@ || !valid_utf8(last.1));
        lemma_last_proxy(fields.drop_last(), i);
    } else {
        decode_utf8_encode_utf8(fields[i].1);
    }
}

/// A list without a forwarded address that is UTF-8 has no text of one.
proof fn lemma_no_proxy(fields: Seq<(Seq<char>, Seq<u8>)>)
    requires
        forall|j: int|
            0 <= j < fields.len() ==> (#[trigger] fields[j]).0 != "x-forwarded-for"@ || !valid_utf8(
                fields[j].1,
            ),
    ensures
        last_proxy(fields) is None,
    decreases fields.len(),
{
    if fields.len() > 0 {
        let last = fields[fields.len() - 1];
        assert(last.0 != "x-forwarded-for"@ || !valid_utf8(last.1));
        lemma_no_proxy(fields.drop_last());
    }
}

/// A request is an upgrade exactly where it has a key or a forwarded address.
pub proof fn when_fields_ask_for_an_upgrade(fields: Seq<(Seq<char>, Seq<u8>)>)
    ensures
        scan(fields) is Some <==> named_among(
            fields,
            fields.len() as int,
            "Sec-WebSocket-Key"@,
        ) || named_among(fields, fields.len() as int, "x-forwarded-for"@),
{
    let n = fields.len() as int;
    lemma_named_among(fields, n, "Sec-WebSocket-Key"@);
    lemma_named_among(fields, n, "x-forwarded-for"@);
    assert(fields.take(n) =~= fields);
}

/// The key is the value of the last field named `Sec-WebSocket-Key` among those looked at, and of
/// no other field.
pub proof fn the_key_is_the_last_one(fields: Seq<(Seq<char>, Seq<u8>)>, n: int, i: int)
    requires
        looked_at(fields, n),
        0 <= i < n,
        fields[i].0 == "Sec-WebSocket-Key"@,
        forall|j: int| i < j < n ==> (#[trigger] fields[j]).0 != "Sec-WebSocket-Key"@,
    ensures
        scan(fields) matches Some(found) && found.1 == fields[i].1,
{
    lemma_looked_at(fields, n);
    when_fields_ask_for_an_upgrade(fields);
    let part = fields.take(n);
    assert(part[i] == fields[i]);
    assert(forall|j: int| i < j < n ==> part[j] == fields[j]);
    lemma_last_key(part, i);
}

/// Where no field looked at is named `Sec-WebSocket-Key`, the key is empty.
pub proof fn there_may_be_no_key(fields: Seq<(Seq<char>, Seq<u8>)>, n: int)
    requires
        looked_at(fields, n),
        forall|j: int| 0 <= j < n ==> (#[trigger] fields[j]).0 != "Sec-WebSocket-Key"@,
    ensures
        scan(fields) matches Some(found) ==> found.1.len() == 0,
{
    lemma_looked_at(fields, n);
    let part = fields.take(n);
    assert(forall|j: int| 0 <= j < n ==> part[j] == fields[j]);
    lemma_no_key(part);
}

/// The text of the forwarded address is what the last field named `x-forwarded-for` among those
/// looked at, of those that are UTF-8, encodes.
pub proof fn the_forwarded_text_is_the_last_one(
    fields: Seq<(Seq<char>, Seq<u8>)>,
    n: int,
    i: int,
)
    requires
        looked_at(fields, n),
        0 <= i < n,
        fields[i].0 == "x-forwarded-for"@,
        valid_utf8(fields[i].1),
        forall|j: int|
            i < j < n ==> (#[trigger] fields[j]).0 != "x-forwarded-for"@ || !valid_utf8(
                fields[j].1,
            ),
    ensures
        scan(fields) matches Some(found) && found.0 matches Some(text) && encode_utf8(text)
            == fields[i].1,
{
    lemma_looked_at(fields, n);
    when_fields_ask_for_an_upgrade(fields);
    let part = fields.take(n);
    assert(part[i] == fields[i]);
    assert(forall|j: int| i < j < n ==> part[j] == fields[j]);
    lemma_last_proxy(part, i);
}

/// Where no field looked at is named `x-forwarded-for` and is UTF-8, there is no text.
pub proof fn there_may_be_no_forwarded_text(fields: Seq<(Seq<char>, Seq<u8>)>, n: int)
    requires
        looked_at(fields, n),
        forall|j: int|
            0 <= j < n ==> (#[trigger] fields[j]).0 != "x-forwarded-for"@ || !valid_utf8(
                fields[j].1,
            ),
    ensures
        scan(fields) matches Some(found) ==> found.0 is None,
{
    lemma_looked_at(fields, n);
    let part = fields.take(n);
    assert(forall|j: int| 0 <= j < n ==> part[j] == fields[j]);
    lemma_no_proxy(part);
}

/// A list of fields shows each name and value, in its place.
pub proof fn fields_look_like_what_they_are(fields: Seq<HeaderField>, i: int)
    requires
        0 <= i < fields.len(),
    ensures
        field_views(fields).len() == fields.len(),
        field_views(fields)[i].0 == fields[i].name@,
        field_views(fields)[i].1 == fields[i].value@,
{
}

/// What a request asks with is what its fields say, where it has from three to ninety-nine lines
/// and the parser, with a slot for each line, finds fields; otherwise it is no upgrade. The
/// address is what the forwarded text stands for.
pub proof fn what_a_request_asks_with(head: Seq<u8>)
    ensures
        line_feeds(head) < 3 || line_feeds(head) > 99 ==> upgrade_request(head) is None,
        request_fields(head, line_feeds(head)) is None ==> upgrade_request(head) is None,
        3 <= line_feeds(head) <= 99 ==> (request_fields(head, line_feeds(head)) matches Some(fields)
            ==> {
            &&& scan(fields) is None ==> upgrade_request(head) is None
            &&& scan(fields) matches Some((text, key)) ==> {
                &&& upgrade_request(head) matches Some(asked) && asked.1 == key
                &&& text is None ==> (upgrade_request(head)->0).0 is None
                &&& text matches Some(named) ==> (upgrade_request(head)->0).0 == address_named(
                    named,
                )
            }
        }),
{
}

/// The address asked with is what the forwarded text stands for, and none where there is no text;
/// the key is kept as it is.
pub proof fn what_a_forwarded_text_becomes(text: Seq<char>, key: Seq<u8>)
    ensures
        resolved((Some(text), key)) == (address_named(text), key),
        resolved((None, key)) == (None::<IpAddrView>, key),
{
}

/// Whatever the number of slots, a request asks with what the fields say that the parser finds.
pub proof fn what_parsed_fields_ask_with(head: Seq<u8>, slots: nat)
    ensures
        request_fields(head, slots) is None ==> request_scan(head, slots) is None,
        request_fields(head, slots) matches Some(fields) ==> {
            &&& scan(fields) is None ==> request_scan(head, slots) is None
            &&& scan(fields) matches Some((text, key)) ==> {
                &&& request_scan(head, slots) matches Some(asked) && asked.1 == key
                &&& text is None ==> (request_scan(head, slots)->0).0 is None
                &&& text matches Some(named) ==> (request_scan(head, slots)->0).0
                    == address_named(named)
            }
        },
{
}

/// What was found in a request shows all that it holds.
pub proof fn findings_look_like_what_they_are(found: UpgradeFields, asked: ParseResult)
    ensures
        found@.1 == found.sec_websocket_key@,
        found.forwarded_for is None <==> found@.0 is None,
        found.forwarded_for matches Some(text) ==> found@.0 == Some(text@),
        asked@.1 == asked.sec_websocket_key@,
        asked.proxy_ip is None <==> asked@.0 is None,
        asked.proxy_ip matches Some(ip) ==> asked@.0 == Some(ip@),
{
}

/// As many bytes can be hashed as have a number of bits that fits in 64.
pub proof fn how_much_can_be_hashed()
    ensures
        MAX_HASHED * 8 <= u64::MAX,
        (MAX_HASHED + 1) * 8 > u64::MAX,
{
}

/// What is hashed to accept an upgrade is the key, byte for byte, and then the thirty-six
/// characters of the constant.
pub proof fn what_is_hashed(key: Seq<u8>, hashed: Seq<u8>)
    requires
        hashed.len() == key.len() + 36,
        forall|i: int| 0 <= i < key.len() ==> hashed[i] == #[trigger] key[i],
        forall|i: int|
            0 <= i < 36 ==> hashed[key.len() + i]
                == #[trigger] "258EAFA5-E914-47DA-95CA-C5AB0DC85B11"@[i] as u8,
    ensures
        accept_value(key) == base64_text(sha1(hashed)),
        upgrade_answer(key)
            == "HTTP/1.1 101 Switching Protocols\r\nUpgrade: websocket\r\nConnection: Upgrade\r\nSec-WebSocket-Accept: "@
            + base64_text(sha1(hashed)) + "\r\n\r\n"@,
{
    reveal_strlit("258EAFA5-E914-47DA-95CA-C5AB0DC85B11");
    let guid = ACCEPT_GUID@;
    assert(is_ascii_chars(guid));
    is_ascii_chars_encode_utf8(guid);
    let all = key + encode_utf8(guid);
    assert(all.len() == hashed.len());
    assert forall|i: int| 0 <= i < all.len() implies all[i] == hashed[i] by {
        if i < key.len() {
            assert(all[i] == key[i]);
        } else {
            let j = i - key.len();
            assert(hashed[key.len() + j] == guid[j] as u8);
        }
    }
    assert(all =~= hashed);
}

/// Encodings add up, as long as the first part is whole groups of three bytes.
pub proof fn encodings_add_up(first: Seq<u8>, second: Seq<u8>)
    requires
        first.len() % 3 == 0,
    ensures
        base64_text(first + second) == base64_text(first) + base64_text(second),
    decreases first.len(),
{
    if first.len() == 0 {
        assert(first + second =~= second);
        assert(base64_text(first) + base64_text(second) =~= base64_text(second));
    } else {
        let all = first + second;
        encodings_add_up(first.skip(3), second);
        assert(all.skip(3) =~= first.skip(3) + second);
        assert(all[0] == first[0] && all[1] == first[1] && all[2] == first[2]);
        assert(base64_text(all) =~= base64_text(first) + base64_text(second));
    }
}

/// Three bytes are twenty-four bits, six at a time.
proof fn lemma_sextets(a: int, b: int, c: int)
    requires
        0 <= a < 256,
        0 <= b < 256,
        0 <= c < 256,
    ensures
        ({
            let n = a * 0x1_0000 + b * 0x100 + c;
            &&& n / 0x4_0000 == a / 4
            &&& n / 0x1000 % 64 == a % 4 * 16 + b / 16
            &&& n / 64 % 64 == b % 16 * 4 + c / 64
            &&& n % 64 == c % 64
        }),
{
    let n = a * 0x1_0000 + b * 0x100 + c;
    let (a1, a2) = (a / 4, a % 4);
    let (b1, b2) = (b / 16, b % 16);
    let (c1, c2) = (c / 64, c % 64);
    assert(n == a1 * 0x4_0000 + (a2 * 16 + b1) * 0x1000 + (b2 * 4 + c1) * 64 + c2);
    assert(n / 0x4_0000 == a1);
    assert(n / 0x1000 == a1 * 64 + (a2 * 16 + b1));
    assert(n / 64 == (a1 * 64 + (a2 * 16 + b1)) * 64 + (b2 * 4 + c1));
}

/// Three bytes are four characters of the alphabet, six bits each; of one or two bytes the rest
/// is filled up.
pub proof fn encoding_of_a_group(a: u8, b: u8, c: u8)
    ensures
        ({
            let n = a * 0x1_0000 + b * 0x100 + c;
            base64_text(seq![a, b, c]) == seq![
                base64_char(n / 0x4_0000),
                base64_char(n / 0x1000 % 64),
                base64_char(n / 64 % 64),
                base64_char(n % 64),
            ]
        }),
        ({
            let n = a * 0x1_0000 + b * 0x100;
            base64_text(seq![a, b]) == seq![
                base64_char(n / 0x4_0000),
                base64_char(n / 0x1000 % 64),
                base64_char(n / 64 % 64),
                '=',
            ]
        }),
        base64_text(seq![a]) == seq![
            base64_char(a * 0x1_0000 / 0x4_0000),
            base64_char(a * 0x1_0000 / 0x1000 % 64),
            '=',
            '=',
        ],
{
    lemma_sextets(a as int, b as int, c as int);
    lemma_sextets(a as int, b as int, 0);
    lemma_sextets(a as int, 0, 0);
    assert(seq![a, b, c].skip(3) =~= Seq::empty());
    reveal_with_fuel(base64_text, 2);
    assert(base64_text(seq![a, b, c]) =~= seq![
        base64_char(a as int / 4),
        base64_char(a % 4 * 16 + b / 16),
        base64_char(b % 16 * 4 + c / 64),
        base64_char(c as int % 64),
    ]);
}

/// The alphabet of the encoding.
pub proof fn alphabet_of_the_encoding(bits: int)
    requires
        0 <= bits < 64,
    ensures
        base64_char(bits)
            == "ABCDEFGHIJKLMNOPQRSTUVWXYZabcdefghijklmnopqrstuvwxyz0123456789+/"@[bits],
{
    reveal_strlit("ABCDEFGHIJKLMNOPQRSTUVWXYZabcdefghijklmnopqrstuvwxyz0123456789+/");
}

/// A handshake begins with an empty buffer and a read, and forgets nothing else.
pub proof fn a_handshake_begins_afresh(hs: HandshakeView)
    requires
        hs.phase == PhaseView::Idle,
    ensures
        awaits(hs.phase, EventView::Start),
        step(hs, EventView::Start).1 == ActionView::Read,
        step(hs, EventView::Start).0 == (HandshakeView {
            received: Seq::empty(),
            ip_header: hs.ip_header,
            hs_result: hs.hs_result,
            version: hs.version,
            phase: PhaseView::Reading,
        }),
{
}

/// A read that fails ends the handshake for that reason, and a connection that is closed with an
/// error of its own; neither changes anything else.
pub proof fn failed_reads_end_a_handshake(hs: HandshakeView, reason: Seq<char>)
    requires
        hs.phase == PhaseView::Reading,
    ensures
        step(hs, EventView::Failed(reason)) == (
            (HandshakeView { phase: PhaseView::Idle, ..hs }),
            ActionView::Done(Err(reason)),
        ),
        step(hs, EventView::Read(0)) == (
            (HandshakeView { phase: PhaseView::Idle, ..hs }),
            ActionView::Done(Err("detect_protocl : 연결이 종료되었습니다."@)),
        ),
{
}

/// As long as no head has come, under 4096 bytes are kept and read on from, and from there on the
/// handshake ends with an error; nothing else changes.
pub proof fn bytes_without_a_head_are_read_on(hs: HandshakeView, n: nat)
    requires
        hs.phase == PhaseView::Reading,
        n > 0,
        !head_has_come(hs.received),
    ensures
        hs.received.len() < 4096 ==> step(hs, EventView::Read(n)) == (hs, ActionView::Read),
        hs.received.len() >= 4096 ==> step(hs, EventView::Read(n)) == (
            (HandshakeView { phase: PhaseView::Idle, ..hs }),
            ActionView::Done(Err("HTTP 요청이 아닙니다"@)),
        ),
{
    when_bytes_are_given_up(hs.received);
    what_is_dropped(hs.received);
}

/// A head with a method that is not known is kept, without a carriage return and line feed at the
/// start, and read on from; nothing else changes.
pub proof fn other_methods_are_read_on(hs: HandshakeView, n: nat)
    requires
        hs.phase == PhaseView::Reading,
        n > 0,
        head_has_come(hs.received),
        detect(hs.received) !is Found,
    ensures
        step(hs, EventView::Read(n)) == (
            (HandshakeView { received: request_of(hs.received), ..hs }),
            ActionView::Read,
        ),
{
    when_bytes_are_given_up(hs.received);
    what_is_dropped(hs.received);
}

/// A refusal is this text, and the version at its end.
pub proof fn text_of_a_refusal(version: Seq<char>)
    ensures
        refusal_answer(version)
            == "HTTP/1.1 404 Not Found\r\nServer: rs/streaming\r\nAccess-Control-Allow-Origin: *\r\nAccess-Control-Allow-Credentials: true\r\nContent-Length: 0\r\nConnection: close\r\n\r\n"@
            + version,
{
}

/// How a request is answered in whatever state, and what becomes of the state: only an upgrade
/// changes the forwarded address, and only for an upgrade it matters that the answer is written.
pub proof fn how_a_request_is_answered(
    hs: HandshakeView,
    primary: PrimaryProtocol,
    upgrade: Option<(Option<IpAddrView>, Seq<u8>)>,
)
    ensures
        primary == PrimaryProtocol::HttpOptions ==> answer(hs, primary, upgrade) == (
            (HandshakeView { phase: PhaseView::Sending(HandshakeRes::Close, false), ..hs }),
            ActionView::Write(
                "HTTP/1.1 204 No Content\r\nAllow: GET\r\nCache-Control: max-age=604800\r\nAccess-Control-Allow-Origin: *\r\nAccess-Control-Allow-Methods: GET\r\nAccess-Control-Max-Age: 86400\r\nContent-Length: 0\r\nConnection: close\r\n\r\n"@,
            ),
        ),
        primary != PrimaryProtocol::HttpOptions ==> {
            &&& upgrade is None ==> answer(hs, primary, upgrade) == (
                (HandshakeView { phase: PhaseView::Sending(HandshakeRes::Close, false), ..hs }),
                ActionView::Write(refusal_answer(hs.version)),
            )
            &&& upgrade matches Some((ip, key)) ==> answer(hs, primary, upgrade) == (
                (HandshakeView {
                    ip_header: ip,
                    phase: PhaseView::Sending(HandshakeRes::Ws, true),
                    ..hs
                }),
                ActionView::Write(upgrade_answer(key)),
            )
        },
{
}

/// How a handshake ends after its answer. Where it does not matter that the answer is written,
/// both ends are alike; where it does, a failure is an error and nothing is known.
pub proof fn how_a_handshake_ends(
    hs: HandshakeView,
    result: HandshakeRes,
    strict: bool,
    reason: Seq<char>,
)
    requires
        hs.phase == PhaseView::Sending(result, strict),
    ensures
        step(hs, EventView::Written) == (
            (HandshakeView { hs_result: Some(result), phase: PhaseView::Idle, ..hs }),
            ActionView::Done(Ok(())),
        ),
        !strict ==> step(hs, EventView::Failed(reason)) == step(hs, EventView::Written),
        strict ==> step(hs, EventView::Failed(reason)) == (
            (HandshakeView { phase: PhaseView::Idle, ..hs }),
            ActionView::Done(Err("ws handshake 전송오류 "@ + reason)),
        ),
{
}

/// Events, actions and phases show all that they hold.
pub proof fn events_and_actions_look_like_what_they_are(
    event: Event,
    action: Action,
    phase: Phase,
)
    ensures
        match (event, event@) {
            (Event::Start, EventView::Start) => true,
            (Event::Read(a), EventView::Read(b)) => a == b,
            (Event::Failed(a), EventView::Failed(b)) => a@ == b,
            (Event::Written, EventView::Written) => true,
            _ => false,
        },
        match (action, action@) {
            (Action::Read, ActionView::Read) => true,
            (Action::Write(a), ActionView::Write(b)) => a@ == b,
            (Action::Done(Ok(_)), ActionView::Done(Ok(_))) => true,
            (Action::Done(Err(a)), ActionView::Done(Err(b))) => a@ == b,
            _ => false,
        },
        match (phase, phase@) {
            (Phase::Idle, PhaseView::Idle) => true,
            (Phase::Reading, PhaseView::Reading) => true,
            (Phase::Sending(a, c), PhaseView::Sending(b, d)) => a == b && c == d,
            _ => false,
        },
{
}

/// A handshake shows all that it holds.
pub proof fn handshakes_look_like_what_they_are(hs: Handshake)
    ensures
        hs@.received == buffered(hs.read_buf),
        hs.ip_header is None <==> hs@.ip_header is None,
        hs.ip_header matches Some(ip) ==> hs@.ip_header == Some(ip@),
        hs@.hs_result == hs.hs_result,
        hs@.version == hs.version@,
        hs@.phase == hs.phase@,
{
}

/// A handshake waits for all that can come of what it asked for: a start where it rests, any
/// number of bytes or a failure where it reads, and success or failure where it writes.
pub proof fn what_a_handshake_waits_for(phase: PhaseView, n: nat, reason: Seq<char>)
    ensures
        phase is Idle ==> awaits(phase, EventView::Start),
        phase is Reading ==> awaits(phase, EventView::Read(n)) && awaits(
            phase,
            EventView::Failed(reason),
        ),
        phase is Sending ==> awaits(phase, EventView::Written) && awaits(
            phase,
            EventView::Failed(reason),
        ),
{
}

} // verus!
