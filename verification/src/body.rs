//! Message bodies: serializing a message to its JSON text, and classifying
//! a parsed body as a request, response or notification.
//!
//! The envelope (object members, string escaping, numeric identifiers) is
//! built by verified code; the opaque parameter and result values inside it
//! pass through the trusted `serde_json` boundary in `crate::json`.

use vstd::prelude::*;

use crate::codec::{dec_u64, frame_bytes};
use crate::json::{
    json_as_i64, json_as_text, json_as_u64, json_bytes, json_field, json_parsed,
};
use crate::msg::{ErrorInfo, Message, Outcome, RequestId};
use vstd::string::StrSliceExecFns;
use vstd::utf8::encode_utf8;

verus! {

// ---------------------------------------------------------------------------
// JSON string escaping, over UTF-8 bytes
// ---------------------------------------------------------------------------

/// The lower-case hex digit for `n` (`n` below 16).
pub open spec fn hex_digit(n: u8) -> u8 {
    if n < 10 {
        (48 + n) as u8
    } else {
        (87 + n) as u8
    }
}

/// How one body byte appears inside a JSON string literal: quote and
/// backslash are escaped, control bytes become `\u00XX`, all else is
/// carried as is (UTF-8 continuation bytes are legal in JSON strings).
pub open spec fn esc(b: u8) -> Seq<u8> {
    if b == 34 {
        seq![92u8, 34u8]
    } else if b == 92 {
        seq![92u8, 92u8]
    } else if b < 32 {
        seq![92u8, 117u8, 48u8, 48u8, hex_digit(b / 16), hex_digit(b % 16)]
    } else {
        seq![b]
    }
}

pub open spec fn esc_bytes(s: Seq<u8>) -> Seq<u8>
    decreases s.len(),
{
    if s.len() == 0 {
        Seq::empty()
    } else {
        esc(s[0]) + esc_bytes(s.drop_first())
    }
}

pub proof fn lemma_esc_bytes_push(s: Seq<u8>, x: u8)
    ensures
        esc_bytes(s.push(x)) == esc_bytes(s) + esc(x),
    decreases s.len(),
{
    if s.len() == 0 {
        assert(s.push(x).drop_first() =~= Seq::<u8>::empty());
        assert(s.push(x)[0] == x);
        assert(esc_bytes(Seq::<u8>::empty()) =~= Seq::<u8>::empty());
        assert(esc_bytes(s.push(x)) == esc(x) + esc_bytes(Seq::<u8>::empty()));
        assert(esc_bytes(s.push(x)) =~= esc_bytes(s) + esc(x));
    } else {
        assert(s.push(x).drop_first() =~= s.drop_first().push(x));
        assert(s.push(x)[0] == s[0]);
        lemma_esc_bytes_push(s.drop_first(), x);
        assert(esc(s[0]) + (esc_bytes(s.drop_first()) + esc(x)) =~= (esc(s[0]) + esc_bytes(
            s.drop_first(),
        )) + esc(x));
    }
}

/// A JSON string literal holding the characters `s`.
pub open spec fn json_string_bytes(s: Seq<char>) -> Seq<u8> {
    seq![34u8] + esc_bytes(encode_utf8(s)) + seq![34u8]
}

fn esc_into(s: &Vec<u8>, out: &mut Vec<u8>)
    ensures
        final(out)@ == old(out)@ + esc_bytes(s@),
{
    let mut k: usize = 0;
    while k < s.len()
        invariant
            k <= s@.len(),
            out@ == old(out)@ + esc_bytes(s@.take(k as int)),
        decreases s@.len() - k,
    {
        let b = s[k];
        if b == 34 {
            out.push(92);
            out.push(34);
        } else if b == 92 {
            out.push(92);
            out.push(92);
        } else if b < 32 {
            out.push(92);
            out.push(117);
            out.push(48);
            out.push(48);
            let hi = b / 16;
            let lo = b % 16;
            out.push(if hi < 10 { 48 + hi } else { 87 + hi });
            out.push(if lo < 10 { 48 + lo } else { 87 + lo });
        } else {
            out.push(b);
        }
        proof {
            assert(s@.take(k + 1) =~= s@.take(k as int).push(s@[k as int]));
            lemma_esc_bytes_push(s@.take(k as int), s@[k as int]);
            assert(out@ =~= old(out)@ + esc_bytes(s@.take(k + 1)));
        }
        k += 1;
    }
    proof {
        assert(s@.take(k as int) =~= s@);
    }
}

fn push_json_string(s: &str, out: &mut Vec<u8>)
    ensures
        final(out)@ == old(out)@ + json_string_bytes(s@),
{
    out.push(34);
    let bs = s.as_bytes_vec();
    esc_into(&bs, out);
    out.push(34);
    proof {
        assert(out@ =~= old(out)@ + json_string_bytes(s@));
    }
}

// ---------------------------------------------------------------------------
// Body serialization
// ---------------------------------------------------------------------------

/// The decimal text of a signed number.
pub open spec fn dec_i64(n: int) -> Seq<u8> {
    if n < 0 {
        seq![45u8] + dec_u64((-n) as nat)
    } else {
        dec_u64(n as nat)
    }
}

fn fmt_i64_into(n: i64, out: &mut Vec<u8>)
    ensures
        final(out)@ == old(out)@ + dec_i64(n as int),
{
    if n < 0 {
        out.push(45);
        let m: u64 = if n == i64::MIN {
            9223372036854775808u64
        } else {
            (-n) as u64
        };
        proof {
            assert(m as nat == (-(n as int)) as nat);
        }
        crate::codec::fmt_u64_into(m, out);
        proof {
            assert(out@ =~= old(out)@ + dec_i64(n as int));
        }
    } else {
        crate::codec::fmt_u64_into(n as u64, out);
    }
}

/// The wire form of an identifier: a number or a JSON string.
pub open spec fn id_bytes(id: RequestId) -> Seq<u8> {
    match id {
        RequestId::Num(n) => dec_u64(n as nat),
        RequestId::Text(s) => json_string_bytes(s@),
    }
}

pub open spec fn lit_request_open() -> Seq<u8> {
    seq![
        123u8,
        34u8,
        106u8,
        115u8,
        111u8,
        110u8,
        114u8,
        112u8,
        99u8,
        34u8,
        58u8,
        34u8,
        50u8,
        46u8,
        48u8,
        34u8,
        44u8,
        34u8,
        105u8,
        100u8,
        34u8,
        58u8,
    ]
}

pub open spec fn lit_notification_open() -> Seq<u8> {
    seq![
        123u8,
        34u8,
        106u8,
        115u8,
        111u8,
        110u8,
        114u8,
        112u8,
        99u8,
        34u8,
        58u8,
        34u8,
        50u8,
        46u8,
        48u8,
        34u8,
        44u8,
        34u8,
        109u8,
        101u8,
        116u8,
        104u8,
        111u8,
        100u8,
        34u8,
        58u8,
    ]
}

pub open spec fn lit_method() -> Seq<u8> {
    seq![44u8, 34u8, 109u8, 101u8, 116u8, 104u8, 111u8, 100u8, 34u8, 58u8]
}

pub open spec fn lit_params() -> Seq<u8> {
    seq![44u8, 34u8, 112u8, 97u8, 114u8, 97u8, 109u8, 115u8, 34u8, 58u8]
}

pub open spec fn lit_result() -> Seq<u8> {
    seq![44u8, 34u8, 114u8, 101u8, 115u8, 117u8, 108u8, 116u8, 34u8, 58u8]
}

pub open spec fn lit_error_open() -> Seq<u8> {
    seq![
        44u8,
        34u8,
        101u8,
        114u8,
        114u8,
        111u8,
        114u8,
        34u8,
        58u8,
        123u8,
        34u8,
        99u8,
        111u8,
        100u8,
        101u8,
        34u8,
        58u8,
    ]
}

pub open spec fn lit_message() -> Seq<u8> {
    seq![44u8, 34u8, 109u8, 101u8, 115u8, 115u8, 97u8, 103u8, 101u8, 34u8, 58u8]
}

pub open spec fn lit_data() -> Seq<u8> {
    seq![44u8, 34u8, 100u8, 97u8, 116u8, 97u8, 34u8, 58u8]
}

/// The `,"params":<value>` member, or nothing when the parameters are absent.
pub open spec fn params_suffix(params: Option<serde_json::Value>) -> Seq<u8> {
    match params {
        None => Seq::empty(),
        Some(v) => lit_params() + json_bytes(v),
    }
}

/// The `,"data":<value>` member of an error, or nothing.
pub open spec fn data_suffix(d: Option<serde_json::Value>) -> Seq<u8> {
    match d {
        None => Seq::empty(),
        Some(v) => lit_data() + json_bytes(v),
    }
}

/// The tail of a response body after the identifier.
pub open spec fn outcome_bytes(o: Outcome) -> Seq<u8> {
    match o {
        Outcome::Success(v) => lit_result() + json_bytes(v) + seq![125u8],
        Outcome::Failure(e) => lit_error_open() + dec_i64(e.code as int) + lit_message()
            + json_string_bytes(e.message@) + data_suffix(e.data) + seq![125u8, 125u8],
    }
}

/// The JSON text of a whole message.
pub open spec fn body_bytes(m: Message) -> Seq<u8> {
    match m {
        Message::Request { id, method, params } => lit_request_open() + id_bytes(id) + lit_method()
            + json_string_bytes(method@) + params_suffix(params) + seq![125u8],
        Message::Notification { method, params } => lit_notification_open() + json_string_bytes(
            method@,
        ) + params_suffix(params) + seq![125u8],
        Message::Response { id, outcome } => lit_request_open() + id_bytes(id) + outcome_bytes(
            outcome,
        ),
    }
}

fn push_id(id: &RequestId, out: &mut Vec<u8>)
    ensures
        final(out)@ == old(out)@ + id_bytes(*id),
{
    match id {
        RequestId::Num(n) => crate::codec::fmt_u64_into(*n, out),
        RequestId::Text(s) => push_json_string(s.as_str(), out),
    }
}

fn push_params(params: &Option<serde_json::Value>, out: &mut Vec<u8>)
    ensures
        final(out)@ == old(out)@ + params_suffix(*params),
{
    match params {
        None => {
            proof {
                assert(out@ =~= old(out)@ + params_suffix(*params));
            }
        },
        Some(v) => {
            let l: Vec<u8> = vec![44u8, 34u8, 112u8, 97u8, 114u8, 97u8, 109u8, 115u8, 34u8, 58u8];
            proof {
                assert(l@ =~= lit_params());
            }
            out.extend_from_slice(l.as_slice());
            let b = crate::json::value_to_bytes(v);
            out.extend_from_slice(b.as_slice());
            proof {
                assert(out@ =~= old(out)@ + params_suffix(*params));
            }
        },
    }
}

/// Serializes `m` to its JSON text.
pub fn encode_message(m: &Message) -> (r: Vec<u8>)
    ensures
        r@ == body_bytes(*m),
{
    let mut out: Vec<u8> = Vec::new();
    proof {
        assert(out@ =~= Seq::<u8>::empty());
    }
    match m {
        Message::Request { id, method, params } => {
            let l: Vec<u8> = vec![
                123u8,
                34u8,
                106u8,
                115u8,
                111u8,
                110u8,
                114u8,
                112u8,
                99u8,
                34u8,
                58u8,
                34u8,
                50u8,
                46u8,
                48u8,
                34u8,
                44u8,
                34u8,
                105u8,
                100u8,
                34u8,
                58u8,
            ];
            proof {
                assert(l@ =~= lit_request_open());
            }
            out.extend_from_slice(l.as_slice());
            push_id(id, &mut out);
            let lm: Vec<u8> = vec![
                44u8,
                34u8,
                109u8,
                101u8,
                116u8,
                104u8,
                111u8,
                100u8,
                34u8,
                58u8,
            ];
            proof {
                assert(lm@ =~= lit_method());
            }
            out.extend_from_slice(lm.as_slice());
            push_json_string(method.as_str(), &mut out);
            push_params(params, &mut out);
            out.push(125);
            proof {
                assert(out@ =~= body_bytes(*m));
            }
        },
        Message::Notification { method, params } => {
            let l: Vec<u8> = vec![
                123u8,
                34u8,
                106u8,
                115u8,
                111u8,
                110u8,
                114u8,
                112u8,
                99u8,
                34u8,
                58u8,
                34u8,
                50u8,
                46u8,
                48u8,
                34u8,
                44u8,
                34u8,
                109u8,
                101u8,
                116u8,
                104u8,
                111u8,
                100u8,
                34u8,
                58u8,
            ];
            proof {
                assert(l@ =~= lit_notification_open());
            }
            out.extend_from_slice(l.as_slice());
            push_json_string(method.as_str(), &mut out);
            push_params(params, &mut out);
            out.push(125);
            proof {
                assert(out@ =~= body_bytes(*m));
            }
        },
        Message::Response { id, outcome } => {
            let l: Vec<u8> = vec![
                123u8,
                34u8,
                106u8,
                115u8,
                111u8,
                110u8,
                114u8,
                112u8,
                99u8,
                34u8,
                58u8,
                34u8,
                50u8,
                46u8,
                48u8,
                34u8,
                44u8,
                34u8,
                105u8,
                100u8,
                34u8,
                58u8,
            ];
            proof {
                assert(l@ =~= lit_request_open());
            }
            out.extend_from_slice(l.as_slice());
            push_id(id, &mut out);
            match outcome {
                Outcome::Success(v) => {
                    let lr: Vec<u8> = vec![
                        44u8,
                        34u8,
                        114u8,
                        101u8,
                        115u8,
                        117u8,
                        108u8,
                        116u8,
                        34u8,
                        58u8,
                    ];
                    proof {
                        assert(lr@ =~= lit_result());
                    }
                    out.extend_from_slice(lr.as_slice());
                    let b = crate::json::value_to_bytes(v);
                    out.extend_from_slice(b.as_slice());
                    out.push(125);
                },
                Outcome::Failure(e) => {
                    let le: Vec<u8> = vec![
                        44u8,
                        34u8,
                        101u8,
                        114u8,
                        114u8,
                        111u8,
                        114u8,
                        34u8,
                        58u8,
                        123u8,
                        34u8,
                        99u8,
                        111u8,
                        100u8,
                        101u8,
                        34u8,
                        58u8,
                    ];
                    proof {
                        assert(le@ =~= lit_error_open());
                    }
                    out.extend_from_slice(le.as_slice());
                    fmt_i64_into(e.code, &mut out);
                    let lg: Vec<u8> = vec![
                        44u8,
                        34u8,
                        109u8,
                        101u8,
                        115u8,
                        115u8,
                        97u8,
                        103u8,
                        101u8,
                        34u8,
                        58u8,
                    ];
                    proof {
                        assert(lg@ =~= lit_message());
                    }
                    out.extend_from_slice(lg.as_slice());
                    push_json_string(e.message.as_str(), &mut out);
                    match &e.data {
                        None => {},
                        Some(dv) => {
                            let ld: Vec<u8> = vec![
                                44u8,
                                34u8,
                                100u8,
                                97u8,
                                116u8,
                                97u8,
                                34u8,
                                58u8,
                            ];
                            proof {
                                assert(ld@ =~= lit_data());
                            }
                            out.extend_from_slice(ld.as_slice());
                            let b = crate::json::value_to_bytes(dv);
                            out.extend_from_slice(b.as_slice());
                        },
                    }
                    out.push(125);
                    out.push(125);
                },
            }
            proof {
                assert(out@ =~= body_bytes(*m));
            }
        },
    }
    out
}

/// Serializes `m` and wraps it into one frame.
pub fn encode_message_frame(m: &Message) -> (r: Vec<u8>)
    ensures
        r@ == frame_bytes(body_bytes(*m)),
{
    let b = encode_message(m);
    crate::codec::encode_frame(&b)
}

// ---------------------------------------------------------------------------
// Body classification
// ---------------------------------------------------------------------------

/// Why a body could not be decoded.
#[derive(Clone, Copy, PartialEq, Eq, Structural, Debug)]
pub enum DecodeError {
    /// The body bytes are not valid JSON.
    BodyNotJson,
    /// The body is JSON but matches none of the three message shapes.
    UnrecognizedShape,
}

/// `iv` (the wire `id` member) denotes the identifier `id`.
pub open spec fn id_decodes(iv: serde_json::Value, id: RequestId) -> bool {
    match id {
        RequestId::Num(n) => json_as_u64(iv) == Some(n),
        RequestId::Text(s) => json_as_u64(iv) is None && json_as_text(iv) == Some(s@),
    }
}

pub open spec fn id_ok(iv: serde_json::Value) -> bool {
    json_as_u64(iv) is Some || json_as_text(iv) is Some
}

pub open spec fn error_info_decodes(ev: serde_json::Value, e: ErrorInfo) -> bool {
    &&& json_field(ev, "code"@) matches Some(cv) && json_as_i64(cv) == Some(e.code)
    &&& json_field(ev, "message"@) matches Some(mv) && json_as_text(mv) == Some(e.message@)
    &&& e.data == json_field(ev, "data"@)
}

pub open spec fn error_ok(ev: serde_json::Value) -> bool {
    &&& json_field(ev, "code"@) matches Some(cv) && json_as_i64(cv) is Some
    &&& json_field(ev, "message"@) matches Some(mv) && json_as_text(mv) is Some
}

pub open spec fn outcome_decodes(v: serde_json::Value, o: Outcome) -> bool {
    match o {
        Outcome::Success(r) => json_field(v, "result"@) == Some(r) && json_field(v, "error"@)
            is None,
        Outcome::Failure(e) => json_field(v, "result"@) is None && (json_field(v, "error"@)
            matches Some(ev) && error_info_decodes(ev, e)),
    }
}

pub open spec fn outcome_ok(v: serde_json::Value) -> bool {
    ||| (json_field(v, "result"@) is Some && json_field(v, "error"@) is None)
    ||| (json_field(v, "error"@) matches Some(ev) && json_field(v, "result"@) is None && error_ok(
        ev,
    ))
}

/// The parsed body `v` reads as the message `m`.  A body with an `id` and a
/// `method` is a server-initiated request; one with an `id` and no `method`
/// is a response carrying exactly one of `result` and `error`; one without
/// an `id` is a notification.
pub open spec fn decodes_to(v: serde_json::Value, m: Message) -> bool {
    match m {
        Message::Notification { method, params } => {
            &&& json_field(v, "id"@) is None
            &&& json_field(v, "method"@) matches Some(mv) && json_as_text(mv) == Some(method@)
            &&& params == json_field(v, "params"@)
        },
        Message::Request { id, method, params } => {
            &&& json_field(v, "id"@) matches Some(iv) && id_decodes(iv, id)
            &&& json_field(v, "method"@) matches Some(mv) && json_as_text(mv) == Some(method@)
            &&& params == json_field(v, "params"@)
        },
        Message::Response { id, outcome } => {
            &&& json_field(v, "id"@) matches Some(iv) && id_decodes(iv, id)
            &&& json_field(v, "method"@) is None
            &&& outcome_decodes(v, outcome)
        },
    }
}

/// The parsed body `v` has one of the three recognized shapes.
pub open spec fn shape_ok(v: serde_json::Value) -> bool {
    match json_field(v, "id"@) {
        None => json_field(v, "method"@) matches Some(mv) && json_as_text(mv) is Some,
        Some(iv) => id_ok(iv) && match json_field(v, "method"@) {
            Some(mv) => json_as_text(mv) is Some,
            None => outcome_ok(v),
        },
    }
}

/// Parses a body and classifies it: every well-shaped body decodes to the
/// message it denotes, and every other body is rejected with the reason.
pub fn decode_message(body: &Vec<u8>) -> (r: Result<Message, DecodeError>)
    ensures
        json_parsed(body@) is None ==> r == Err::<Message, DecodeError>(DecodeError::BodyNotJson),
        json_parsed(body@) matches Some(v) ==> if shape_ok(v) {
            r matches Ok(m) && decodes_to(v, m)
        } else {
            r == Err::<Message, DecodeError>(DecodeError::UnrecognizedShape)
        },
{
    let v = match crate::json::bytes_to_value(body) {
        None => {
            return Err(DecodeError::BodyNotJson);
        },
        Some(v) => v,
    };
    let methodf = crate::json::value_field(&v, "method");
    match crate::json::value_field(&v, "id") {
        None => {
            match methodf {
                Some(mv) => match crate::json::value_as_text(&mv) {
                    Some(name) => Ok(
                        Message::Notification {
                            method: name,
                            params: crate::json::value_field(&v, "params"),
                        },
                    ),
                    None => Err(DecodeError::UnrecognizedShape),
                },
                None => Err(DecodeError::UnrecognizedShape),
            }
        },
        Some(iv) => {
            let id = match crate::json::value_as_u64(&iv) {
                Some(n) => RequestId::Num(n),
                None => match crate::json::value_as_text(&iv) {
                    Some(s) => RequestId::Text(s),
                    None => {
                        return Err(DecodeError::UnrecognizedShape);
                    },
                },
            };
            match methodf {
                Some(mv) => match crate::json::value_as_text(&mv) {
                    Some(name) => Ok(
                        Message::Request {
                            id,
                            method: name,
                            params: crate::json::value_field(&v, "params"),
                        },
                    ),
                    None => Err(DecodeError::UnrecognizedShape),
                },
                None => {
                    let resultf = crate::json::value_field(&v, "result");
                    let errorf = crate::json::value_field(&v, "error");
                    match (resultf, errorf) {
                        (Some(rv), None) => Ok(
                            Message::Response { id, outcome: Outcome::Success(rv) },
                        ),
                        (None, Some(ev)) => {
                            let code = match crate::json::value_field(&ev, "code") {
                                Some(cv) => match crate::json::value_as_i64(&cv) {
                                    Some(c) => c,
                                    None => {
                                        return Err(DecodeError::UnrecognizedShape);
                                    },
                                },
                                None => {
                                    return Err(DecodeError::UnrecognizedShape);
                                },
                            };
                            let message = match crate::json::value_field(&ev, "message") {
                                Some(sv) => match crate::json::value_as_text(&sv) {
                                    Some(s) => s,
                                    None => {
                                        return Err(DecodeError::UnrecognizedShape);
                                    },
                                },
                                None => {
                                    return Err(DecodeError::UnrecognizedShape);
                                },
                            };
                            let data = crate::json::value_field(&ev, "data");
                            Ok(
                                Message::Response {
                                    id,
                                    outcome: Outcome::Failure(ErrorInfo { code, message, data }),
                                },
                            )
                        },
                        _ => Err(DecodeError::UnrecognizedShape),
                    }
                },
            }
        },
    }
}

} // verus!
