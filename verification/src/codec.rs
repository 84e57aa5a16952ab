//! The control-protocol codec: the four message variants to and from their
//! text-frame representation, a structured field-named notation carried as
//! UTF-8 bytes.
//!
//! A frame is one object whose single key names the variant, for instance
//! `{"Request":{"file_hash":"abc","file_size":9,"file_name":"f","file_dir":"/"}}`.
//! String fields are escaped: `"` and `\` by a backslash, control bytes as
//! `\u00` and two hex digits.  Numbers are decimal without leading zeros.
//! Encoding is canonical, and decoding accepts exactly the canonical form:
//! [`lemma_codec_round_trip`] proves decoding inverts encoding, so the
//! representation is lossless and field-preserving.

use vstd::prelude::*;
use vstd::string::StringSliceAdditionalSpecFns;
use vstd::utf8::{decode_utf8, encode_utf8, valid_utf8};

use crate::errors::SessionError;
use crate::protocol::{
    TransferControlMessage, TransferControlMessageView, TransferRequest, TransferRequestView,
    TransferResponse, TransferResponseView,
};

verus! {

/// The lowercase hex digit of a nibble.
pub open spec fn hex_digit(n: u8) -> u8 {
    if n < 10 {
        (0x30 + n) as u8
    } else {
        (0x57 + n) as u8
    }
}

pub open spec fn is_hex_digit(b: u8) -> bool {
    (0x30 <= b && b <= 0x39) || (0x61 <= b && b <= 0x66) || (0x41 <= b && b <= 0x46)
}

/// The nibble a hex digit stands for.
pub open spec fn hex_val(b: u8) -> u8 {
    if b <= 0x39 {
        (b - 0x30) as u8
    } else if b >= 0x61 {
        (b - 0x57) as u8
    } else {
        (b - 0x37) as u8
    }
}

/// How one byte of string content is written: `"` and `\` behind a
/// backslash, control bytes as `\u00` and two hex digits, anything else as
/// itself.
pub open spec fn esc_byte(b: u8) -> Seq<u8> {
    if b == 0x22 {
        seq![0x5c, 0x22]
    } else if b == 0x5c {
        seq![0x5c, 0x5c]
    } else if b < 0x20 {
        seq![0x5c, 0x75, 0x30, 0x30, hex_digit(b / 16), hex_digit((b % 16) as u8)]
    } else {
        seq![b]
    }
}

/// The escaped form of string content.
pub open spec fn escape(s: Seq<u8>) -> Seq<u8>
    decreases s.len(),
{
    if s.len() == 0 {
        Seq::empty()
    } else {
        escape(s.drop_last()) + esc_byte(s.last())
    }
}

/// Escaping distributes over concatenation.
pub proof fn lemma_escape_concat(a: Seq<u8>, b: Seq<u8>)
    ensures
        escape(a + b) == escape(a) + escape(b),
    decreases b.len(),
{
    if b.len() == 0 {
        assert(a + b =~= a);
        assert(escape(a) + escape(b) =~= escape(a));
    } else {
        assert((a + b).drop_last() =~= a + b.drop_last());
        assert((a + b).last() == b.last());
        lemma_escape_concat(a, b.drop_last());
        assert(escape(a) + (escape(b.drop_last()) + esc_byte(b.last())) =~= (escape(a) + escape(
            b.drop_last(),
        )) + esc_byte(b.last()));
    }
}

/// Escaping one leading byte: the other unfolding direction.
pub proof fn lemma_escape_first(s: Seq<u8>)
    requires
        s.len() > 0,
    ensures
        escape(s) == esc_byte(s[0]) + escape(s.drop_first()),
{
    assert(s =~= seq![s[0]] + s.drop_first());
    lemma_escape_concat(seq![s[0]], s.drop_first());
    assert(seq![s[0]].drop_last() =~= Seq::<u8>::empty());
    assert(seq![s[0]].last() == s[0]);
    assert(escape(Seq::<u8>::empty()) =~= Seq::<u8>::empty());
    assert(escape(seq![s[0]]) =~= Seq::<u8>::empty() + esc_byte(s[0]));
    assert(escape(seq![s[0]]) =~= esc_byte(s[0]));
}

/// The decimal digits of `n`, most significant first, without leading
/// zeros.
pub open spec fn dec_digits(n: nat) -> Seq<u8>
    decreases n,
{
    if n < 10 {
        seq![(0x30 + n) as u8]
    } else {
        dec_digits(n / 10) + seq![(0x30 + n % 10) as u8]
    }
}

pub open spec fn is_dec_byte(b: u8) -> bool {
    0x30 <= b && b <= 0x39
}

/// The value a digit string spells.
pub open spec fn dec_value(s: Seq<u8>) -> nat
    decreases s.len(),
{
    if s.len() == 0 {
        0
    } else {
        dec_value(s.drop_last()) * 10 + ((s.last() - 0x30) as nat)
    }
}

/// How many leading bytes of `s` are decimal digits.
pub open spec fn digits_len(s: Seq<u8>) -> nat
    decreases s.len(),
{
    if s.len() > 0 && is_dec_byte(s[0]) {
        1 + digits_len(s.drop_first())
    } else {
        0
    }
}

pub proof fn lemma_dec_digits_len(n: nat)
    ensures
        dec_digits(n).len() >= 1,
        forall|i: int| 0 <= i < dec_digits(n).len() ==> is_dec_byte(#[trigger] dec_digits(n)[i]),
        n > 0 ==> dec_digits(n)[0] != 0x30,
        n == 0 ==> dec_digits(n) == seq![0x30u8],
    decreases n,
{
    if n < 10 {
        assert(dec_digits(n) =~= seq![(0x30 + n) as u8]);
    } else {
        lemma_dec_digits_len(n / 10);
        assert(dec_digits(n)[0] == dec_digits(n / 10)[0]);
    }
}

/// Reading back the digits of `n` gives `n`.
pub proof fn lemma_dec_value_digits(n: nat)
    ensures
        dec_value(dec_digits(n)) == n,
    decreases n,
{
    if n < 10 {
        assert(dec_digits(n).drop_last() =~= Seq::<u8>::empty());
        assert(dec_digits(n).last() == (0x30 + n) as u8);
        assert(dec_value(Seq::<u8>::empty()) == 0);
    } else {
        lemma_dec_value_digits(n / 10);
        assert(dec_digits(n).drop_last() =~= dec_digits(n / 10));
        assert(dec_digits(n).last() == (0x30 + n % 10) as u8);
        assert(n == (n / 10) * 10 + n % 10) by (nonlinear_arith);
    }
}

/// A digit prefix never spells more than the whole digit string.
pub proof fn lemma_dec_prefix_le(s: Seq<u8>, k: int)
    requires
        0 <= k <= s.len(),
    ensures
        dec_value(s.subrange(0, k)) <= dec_value(s),
    decreases s.len() - k,
{
    if k == s.len() {
        assert(s.subrange(0, k) =~= s);
    } else {
        assert(s.subrange(0, k + 1).drop_last() =~= s.subrange(0, k));
        lemma_dec_prefix_le(s, k + 1);
    }
}

/// A parsed number and what follows it: the leading digit run read as a
/// decimal value, refused when empty, when padded with a leading zero, or
/// when it does not fit in `usize`.
pub open spec fn parse_dec(s: Seq<u8>) -> Option<(nat, Seq<u8>)> {
    let k = digits_len(s) as int;
    if k == 0 {
        None
    } else if s[0] == 0x30 && k > 1 {
        None
    } else {
        let v = dec_value(s.subrange(0, k));
        if v > usize::MAX {
            None
        } else {
            Some((v, s.skip(k)))
        }
    }
}

/// At most the whole string is a digit run.
pub proof fn lemma_digits_len_le(s: Seq<u8>)
    ensures
        digits_len(s) <= s.len(),
    decreases s.len(),
{
    if s.len() > 0 && is_dec_byte(s[0]) {
        lemma_digits_len_le(s.drop_first());
    }
}

/// The digit run of digits-then-rest is exactly the digits.
pub proof fn lemma_digits_len_concat(ds: Seq<u8>, rest: Seq<u8>)
    requires
        forall|i: int| 0 <= i < ds.len() ==> is_dec_byte(#[trigger] ds[i]),
        rest.len() == 0 || !is_dec_byte(rest[0]),
    ensures
        digits_len(ds + rest) == ds.len(),
    decreases ds.len(),
{
    if ds.len() == 0 {
        assert(ds + rest =~= rest);
    } else {
        assert((ds + rest)[0] == ds[0]);
        assert((ds + rest).drop_first() =~= ds.drop_first() + rest);
        lemma_digits_len_concat(ds.drop_first(), rest);
    }
}

/// Parsing the encoding of `n` gives back `n` and the rest.
pub proof fn lemma_parse_dec_digits(n: nat, rest: Seq<u8>)
    requires
        n <= usize::MAX,
        rest.len() == 0 || !is_dec_byte(rest[0]),
    ensures
        parse_dec(dec_digits(n) + rest) == Some((n, rest)),
{
    let s = dec_digits(n) + rest;
    lemma_dec_digits_len(n);
    lemma_digits_len_concat(dec_digits(n), rest);
    let k = digits_len(s) as int;
    assert(k == dec_digits(n).len());
    assert(s.subrange(0, k) =~= dec_digits(n));
    lemma_dec_value_digits(n);
    assert(s.skip(k) =~= rest);
    if n == 0 {
        assert(s[0] == 0x30 && k == 1);
    } else {
        assert(s[0] == dec_digits(n)[0]);
    }
}

/// What remains of `s` after a required literal prefix.
pub open spec fn strip_prefix(s: Seq<u8>, lit: Seq<u8>) -> Option<Seq<u8>> {
    if s.len() >= lit.len() && s.subrange(0, lit.len() as int) == lit {
        Some(s.skip(lit.len() as int))
    } else {
        None
    }
}

pub proof fn lemma_strip_prefix_concat(lit: Seq<u8>, t: Seq<u8>)
    ensures
        strip_prefix(lit + t, lit) == Some(t),
{
    assert((lit + t).subrange(0, lit.len() as int) =~= lit);
    assert((lit + t).skip(lit.len() as int) =~= t);
}

/// Parsed string content and what follows its closing quote.  The input
/// starts just after the opening quote; exactly the canonical escapes are
/// accepted, and a raw control byte or a truncated escape is refused.
pub open spec fn parse_str_bytes(s: Seq<u8>) -> Option<(Seq<u8>, Seq<u8>)>
    decreases s.len(),
{
    if s.len() == 0 {
        None
    } else if s[0] == 0x22 {
        Some((Seq::empty(), s.drop_first()))
    } else if s[0] == 0x5c {
        if s.len() >= 2 && (s[1] == 0x22 || s[1] == 0x5c) {
            match parse_str_bytes(s.skip(2)) {
                Some((c, r)) => Some((seq![s[1]] + c, r)),
                None => None,
            }
        } else if s.len() >= 6 && s[1] == 0x75 && s[2] == 0x30 && s[3] == 0x30 && is_hex_digit(
            s[4],
        ) && is_hex_digit(s[5]) && (hex_val(s[4]) * 16 + hex_val(s[5])) < 0x20 {
            match parse_str_bytes(s.skip(6)) {
                Some((c, r)) => Some((seq![(hex_val(s[4]) * 16 + hex_val(s[5])) as u8] + c, r)),
                None => None,
            }
        } else {
            None
        }
    } else if s[0] < 0x20 {
        None
    } else {
        match parse_str_bytes(s.drop_first()) {
            Some((c, r)) => Some((seq![s[0]] + c, r)),
            None => None,
        }
    }
}

/// Parsing an escaped string gives back its content and the rest.
pub proof fn lemma_parse_escape(u: Seq<u8>, rest: Seq<u8>)
    ensures
        parse_str_bytes(escape(u) + seq![0x22u8] + rest) == Some((u, rest)),
    decreases u.len(),
{
    let s = escape(u) + seq![0x22u8] + rest;
    if u.len() == 0 {
        assert(escape(u) =~= Seq::<u8>::empty());
        assert(s[0] == 0x22);
        assert(s.drop_first() =~= rest);
    } else {
        lemma_escape_first(u);
        let b = u[0];
        let tail = escape(u.drop_first()) + seq![0x22u8] + rest;
        assert(s =~= esc_byte(b) + tail);
        lemma_parse_escape(u.drop_first(), rest);
        if b == 0x22 || b == 0x5c {
            assert(s[0] == 0x5c && s[1] == b);
            assert(s.skip(2) =~= tail);
            assert(seq![b] + u.drop_first() =~= u);
        } else if b < 0x20 {
            assert(s[0] == 0x5c && s[1] == 0x75 && s[2] == 0x30 && s[3] == 0x30);
            assert(s[4] == hex_digit(b / 16) && s[5] == hex_digit((b % 16) as u8));
            assert(b / 16 < 2 && b % 16 < 16);
            assert(is_hex_digit(hex_digit(b / 16)));
            assert(is_hex_digit(hex_digit((b % 16) as u8)));
            assert(hex_val(hex_digit(b / 16)) == b / 16);
            assert(hex_val(hex_digit((b % 16) as u8)) == b % 16);
            assert(hex_val(s[4]) * 16 + hex_val(s[5]) == b);
            assert(s.skip(6) =~= tail);
            assert(seq![b] + u.drop_first() =~= u);
        } else {
            assert(s[0] == b);
            assert(b != 0x22 && b != 0x5c && b >= 0x20);
            assert(s.drop_first() =~= tail);
            assert(seq![b] + u.drop_first() =~= u);
        }
    }
}

/// `{"Request":{"file_hash":"`
pub open spec fn req_open() -> Seq<u8> {
    seq![
        0x7bu8, 0x22u8, 0x52u8, 0x65u8, 0x71u8, 0x75u8, 0x65u8, 0x73u8, 0x74u8, 0x22u8, 0x3au8, 0x7bu8, 0x22u8, 0x66u8, 0x69u8,
        0x6cu8, 0x65u8, 0x5fu8, 0x68u8, 0x61u8, 0x73u8, 0x68u8, 0x22u8, 0x3au8, 0x22u8,
    ]
}

/// `{"Response":{"file_hash":"`
pub open spec fn resp_open() -> Seq<u8> {
    seq![
        0x7bu8, 0x22u8, 0x52u8, 0x65u8, 0x73u8, 0x70u8, 0x6fu8, 0x6eu8, 0x73u8, 0x65u8, 0x22u8, 0x3au8, 0x7bu8, 0x22u8, 0x66u8,
        0x69u8, 0x6cu8, 0x65u8, 0x5fu8, 0x68u8, 0x61u8, 0x73u8, 0x68u8, 0x22u8, 0x3au8, 0x22u8,
    ]
}

/// `{"Delete":{"file_hash":"`
pub open spec fn del_open() -> Seq<u8> {
    seq![
        0x7bu8, 0x22u8, 0x44u8, 0x65u8, 0x6cu8, 0x65u8, 0x74u8, 0x65u8, 0x22u8, 0x3au8, 0x7bu8, 0x22u8, 0x66u8, 0x69u8, 0x6cu8,
        0x65u8, 0x5fu8, 0x68u8, 0x61u8, 0x73u8, 0x68u8, 0x22u8, 0x3au8, 0x22u8,
    ]
}

/// `{"Error":"`
pub open spec fn err_open() -> Seq<u8> {
    seq![0x7bu8, 0x22u8, 0x45u8, 0x72u8, 0x72u8, 0x6fu8, 0x72u8, 0x22u8, 0x3au8, 0x22u8]
}

/// `,"file_size":`
pub open spec fn size_key() -> Seq<u8> {
    seq![0x2cu8, 0x22u8, 0x66u8, 0x69u8, 0x6cu8, 0x65u8, 0x5fu8, 0x73u8, 0x69u8, 0x7au8, 0x65u8, 0x22u8, 0x3au8]
}

/// `,"file_name":"`
pub open spec fn name_key() -> Seq<u8> {
    seq![0x2cu8, 0x22u8, 0x66u8, 0x69u8, 0x6cu8, 0x65u8, 0x5fu8, 0x6eu8, 0x61u8, 0x6du8, 0x65u8, 0x22u8, 0x3au8, 0x22u8]
}

/// `,"file_dir":"`
pub open spec fn dir_key() -> Seq<u8> {
    seq![0x2cu8, 0x22u8, 0x66u8, 0x69u8, 0x6cu8, 0x65u8, 0x5fu8, 0x64u8, 0x69u8, 0x72u8, 0x22u8, 0x3au8, 0x22u8]
}

/// `,"sync_size":`
pub open spec fn sync_key() -> Seq<u8> {
    seq![0x2cu8, 0x22u8, 0x73u8, 0x79u8, 0x6eu8, 0x63u8, 0x5fu8, 0x73u8, 0x69u8, 0x7au8, 0x65u8, 0x22u8, 0x3au8]
}

pub open spec fn quote_s() -> Seq<u8> {
    seq![0x22u8]
}

/// `}}`
pub open spec fn close2() -> Seq<u8> {
    seq![0x7du8, 0x7du8]
}

/// `}`
pub open spec fn close1() -> Seq<u8> {
    seq![0x7du8]
}

/// The canonical frame of a message.
pub open spec fn encode_spec(m: TransferControlMessageView) -> Seq<u8> {
    match m {
        TransferControlMessageView::Request(r) => req_open() + escape(encode_utf8(r.file_hash))
            + quote_s() + size_key() + dec_digits(r.file_size as nat) + name_key() + escape(
            encode_utf8(r.file_name),
        ) + quote_s() + dir_key() + escape(encode_utf8(r.file_dir)) + quote_s() + close2(),
        TransferControlMessageView::Response(r) => resp_open() + escape(encode_utf8(r.file_hash))
            + quote_s() + sync_key() + dec_digits(r.sync_size as nat) + close2(),
        TransferControlMessageView::Delete(r) => del_open() + escape(encode_utf8(r.file_hash))
            + quote_s() + sync_key() + dec_digits(r.sync_size as nat) + close2(),
        TransferControlMessageView::Error(msg) => err_open() + escape(encode_utf8(msg)) + quote_s()
            + close1(),
    }
}

/// A parsed `Request` body, after its opening literal.
pub open spec fn decode_request_spec(t: Seq<u8>) -> Option<TransferControlMessageView> {
    match parse_str_bytes(t) {
        None => None,
        Some((hb, t1)) => if !valid_utf8(hb) {
            None
        } else {
            match strip_prefix(t1, size_key()) {
                None => None,
                Some(t2) => match parse_dec(t2) {
                    None => None,
                    Some((n, t3)) => match strip_prefix(t3, name_key()) {
                        None => None,
                        Some(t4) => match parse_str_bytes(t4) {
                            None => None,
                            Some((nb, t5)) => if !valid_utf8(nb) {
                                None
                            } else {
                                match strip_prefix(t5, dir_key()) {
                                    None => None,
                                    Some(t6) => match parse_str_bytes(t6) {
                                        None => None,
                                        Some((db, t7)) => if !valid_utf8(db) {
                                            None
                                        } else if t7 == close2() {
                                            Some(
                                                TransferControlMessageView::Request(
                                                    TransferRequestView {
                                                        file_hash: decode_utf8(hb),
                                                        file_size: n as usize,
                                                        file_name: decode_utf8(nb),
                                                        file_dir: decode_utf8(db),
                                                    },
                                                ),
                                            )
                                        } else {
                                            None
                                        },
                                    },
                                }
                            },
                        },
                    },
                },
            }
        },
    }
}

/// A parsed `Response` or `Delete` body, after its opening literal.
pub open spec fn decode_sized_spec(t: Seq<u8>) -> Option<(Seq<char>, usize)> {
    match parse_str_bytes(t) {
        None => None,
        Some((hb, t1)) => if !valid_utf8(hb) {
            None
        } else {
            match strip_prefix(t1, sync_key()) {
                None => None,
                Some(t2) => match parse_dec(t2) {
                    None => None,
                    Some((n, t3)) => if t3 == close2() {
                        Some((decode_utf8(hb), n as usize))
                    } else {
                        None
                    },
                },
            }
        },
    }
}

/// A parsed `Error` body, after its opening literal.
pub open spec fn decode_error_spec(t: Seq<u8>) -> Option<TransferControlMessageView> {
    match parse_str_bytes(t) {
        None => None,
        Some((mb, t1)) => if valid_utf8(mb) && t1 == close1() {
            Some(TransferControlMessageView::Error(decode_utf8(mb)))
        } else {
            None
        },
    }
}

/// What a frame decodes to: the unique message whose canonical frame it is.
pub open spec fn decode_spec(s: Seq<u8>) -> Option<TransferControlMessageView> {
    if strip_prefix(s, req_open()) is Some {
        decode_request_spec(strip_prefix(s, req_open()).unwrap())
    } else if strip_prefix(s, resp_open()) is Some {
        match decode_sized_spec(strip_prefix(s, resp_open()).unwrap()) {
            Some((h, n)) => Some(
                TransferControlMessageView::Response(
                    TransferResponseView { file_hash: h, sync_size: n },
                ),
            ),
            None => None,
        }
    } else if strip_prefix(s, del_open()) is Some {
        match decode_sized_spec(strip_prefix(s, del_open()).unwrap()) {
            Some((h, n)) => Some(
                TransferControlMessageView::Delete(
                    TransferResponseView { file_hash: h, sync_size: n },
                ),
            ),
            None => None,
        }
    } else if strip_prefix(s, err_open()) is Some {
        decode_error_spec(strip_prefix(s, err_open()).unwrap())
    } else {
        None
    }
}

/// A string field round-trips: its escaped bytes parse back to its UTF-8
/// encoding, which decodes to the field.
proof fn lemma_field_round_trip(f: Seq<char>, rest: Seq<u8>)
    ensures
        parse_str_bytes(escape(encode_utf8(f)) + quote_s() + rest) == Some((encode_utf8(f), rest)),
        valid_utf8(encode_utf8(f)),
        decode_utf8(encode_utf8(f)) == f,
{
    lemma_parse_escape(encode_utf8(f), rest);
    assert(escape(encode_utf8(f)) + seq![0x22u8] + rest =~= escape(encode_utf8(f)) + quote_s()
        + rest);
    vstd::utf8::encode_utf8_valid_utf8(f);
    vstd::utf8::encode_utf8_decode_utf8(f);
}

/// Losslessness: decoding a canonical frame gives back exactly the message
/// it was encoded from.
pub proof fn lemma_codec_round_trip(m: TransferControlMessageView)
    ensures
        decode_spec(encode_spec(m)) == Some(m),
{
    match m {
        TransferControlMessageView::Request(r) => lemma_request_round_trip(r),
        TransferControlMessageView::Response(r) => lemma_response_round_trip(r),
        TransferControlMessageView::Delete(r) => lemma_delete_round_trip(r),
        TransferControlMessageView::Error(msg) => lemma_error_round_trip(msg),
    }
}

#[verifier::rlimit(100)]
proof fn lemma_request_round_trip(r: TransferRequestView)
    ensures
        decode_spec(encode_spec(TransferControlMessageView::Request(r))) == Some(
            TransferControlMessageView::Request(r),
        ),
{
    let s = encode_spec(TransferControlMessageView::Request(r));
    let eh = escape(encode_utf8(r.file_hash));
    let en = escape(encode_utf8(r.file_name));
    let ed = escape(encode_utf8(r.file_dir));
    let dg = dec_digits(r.file_size as nat);
    let t0 = eh + quote_s() + (size_key() + dg + name_key() + en + quote_s() + dir_key() + ed
        + quote_s() + close2());
    assert(s =~= req_open() + t0);
    lemma_strip_prefix_concat(req_open(), t0);
    lemma_field_round_trip(
        r.file_hash,
        size_key() + dg + name_key() + en + quote_s() + dir_key() + ed + quote_s() + close2(),
    );
    let t1 = size_key() + dg + name_key() + en + quote_s() + dir_key() + ed + quote_s() + close2();
    assert(t1 =~= size_key() + (dg + name_key() + en + quote_s() + dir_key() + ed + quote_s()
        + close2()));
    lemma_strip_prefix_concat(
        size_key(),
        dg + name_key() + en + quote_s() + dir_key() + ed + quote_s() + close2(),
    );
    let t2 = dg + name_key() + en + quote_s() + dir_key() + ed + quote_s() + close2();
    assert(t2 =~= dg + (name_key() + en + quote_s() + dir_key() + ed + quote_s() + close2()));
    lemma_parse_dec_digits(
        r.file_size as nat,
        name_key() + en + quote_s() + dir_key() + ed + quote_s() + close2(),
    );
    let t3 = name_key() + en + quote_s() + dir_key() + ed + quote_s() + close2();
    assert(t3 =~= name_key() + (en + quote_s() + dir_key() + ed + quote_s() + close2()));
    lemma_strip_prefix_concat(name_key(), en + quote_s() + dir_key() + ed + quote_s() + close2());
    let t4 = en + quote_s() + dir_key() + ed + quote_s() + close2();
    assert(t4 =~= escape(encode_utf8(r.file_name)) + quote_s() + (dir_key() + ed + quote_s()
        + close2()));
    lemma_field_round_trip(r.file_name, dir_key() + ed + quote_s() + close2());
    let t5 = dir_key() + ed + quote_s() + close2();
    assert(t5 =~= dir_key() + (ed + quote_s() + close2()));
    lemma_strip_prefix_concat(dir_key(), ed + quote_s() + close2());
    let t6 = ed + quote_s() + close2();
    assert(t6 =~= escape(encode_utf8(r.file_dir)) + quote_s() + close2());
    lemma_field_round_trip(r.file_dir, close2());
}

#[verifier::rlimit(100)]
proof fn lemma_response_round_trip(r: TransferResponseView)
    ensures
        decode_spec(encode_spec(TransferControlMessageView::Response(r))) == Some(
            TransferControlMessageView::Response(r),
        ),
{
    let s = encode_spec(TransferControlMessageView::Response(r));
    lemma_sized_round_trip(r.file_hash, r.sync_size);
    let t0 = escape(encode_utf8(r.file_hash)) + quote_s() + sync_key() + dec_digits(
        r.sync_size as nat,
    ) + close2();
    assert(s =~= resp_open() + t0);
    lemma_strip_prefix_concat(resp_open(), t0);
    assert(s[4] == 0x73u8);
    if strip_prefix(s, req_open()) is Some {
        assert(s.subrange(0, req_open().len() as int)[4] == req_open()[4]);
        assert(false);
    }
}

#[verifier::rlimit(100)]
proof fn lemma_delete_round_trip(r: TransferResponseView)
    ensures
        decode_spec(encode_spec(TransferControlMessageView::Delete(r))) == Some(
            TransferControlMessageView::Delete(r),
        ),
{
    let s = encode_spec(TransferControlMessageView::Delete(r));
    lemma_sized_round_trip(r.file_hash, r.sync_size);
    let t0 = escape(encode_utf8(r.file_hash)) + quote_s() + sync_key() + dec_digits(
        r.sync_size as nat,
    ) + close2();
    assert(s =~= del_open() + t0);
    lemma_strip_prefix_concat(del_open(), t0);
    assert(s[2] == 0x44u8);
    if strip_prefix(s, req_open()) is Some {
        assert(s.subrange(0, req_open().len() as int)[2] == req_open()[2]);
        assert(false);
    }
    if strip_prefix(s, resp_open()) is Some {
        assert(s.subrange(0, resp_open().len() as int)[2] == resp_open()[2]);
        assert(false);
    }
}

#[verifier::rlimit(100)]
proof fn lemma_error_round_trip(msg: Seq<char>)
    ensures
        decode_spec(encode_spec(TransferControlMessageView::Error(msg))) == Some(
            TransferControlMessageView::Error(msg),
        ),
{
    let s = encode_spec(TransferControlMessageView::Error(msg));
    let em = escape(encode_utf8(msg));
    let t0 = em + quote_s() + close1();
    assert(s =~= err_open() + t0);
    assert(s[2] == 0x45u8);
    if strip_prefix(s, req_open()) is Some {
        assert(s.subrange(0, req_open().len() as int)[2] == req_open()[2]);
        assert(false);
    }
    if strip_prefix(s, resp_open()) is Some {
        assert(s.subrange(0, resp_open().len() as int)[2] == resp_open()[2]);
        assert(false);
    }
    if strip_prefix(s, del_open()) is Some {
        assert(s.subrange(0, del_open().len() as int)[2] == del_open()[2]);
        assert(false);
    }
    lemma_strip_prefix_concat(err_open(), t0);
    assert(t0 =~= escape(encode_utf8(msg)) + quote_s() + close1());
    lemma_field_round_trip(msg, close1());
}

/// The shared body of `Response` and `Delete` round-trips.
proof fn lemma_sized_round_trip(h: Seq<char>, n: usize)
    ensures
        ({
            let t0 = escape(encode_utf8(h)) + quote_s() + sync_key() + dec_digits(n as nat)
                + close2();
            decode_sized_spec(t0) == Some((h, n))
        }),
{
    let eh = escape(encode_utf8(h));
    let dg = dec_digits(n as nat);
    let t0 = eh + quote_s() + sync_key() + dg + close2();
    assert(t0 =~= escape(encode_utf8(h)) + quote_s() + (sync_key() + dg + close2()));
    lemma_field_round_trip(h, sync_key() + dg + close2());
    let t1 = sync_key() + dg + close2();
    assert(t1 =~= sync_key() + (dg + close2()));
    lemma_strip_prefix_concat(sync_key(), dg + close2());
    lemma_parse_dec_digits(n as nat, close2());
}


/// Relies on `String::from_utf8`: it returns `Ok` exactly on valid UTF-8
/// input, and the returned string holds those very bytes.
#[verifier::external_body]
fn bytes_to_string(v: Vec<u8>) -> (r: Option<String>)
    ensures
        r is Some <==> valid_utf8(v@),
        r matches Some(s) ==> encode_utf8(s@) == v@,
{
    String::from_utf8(v).ok()
}

/// Appends the bytes of [`req_open`].
fn push_req_open(out: &mut Vec<u8>)
    ensures
        final(out)@ == old(out)@ + req_open(),
{
    out.push(0x7b);
    out.push(0x22);
    out.push(0x52);
    out.push(0x65);
    out.push(0x71);
    out.push(0x75);
    out.push(0x65);
    out.push(0x73);
    out.push(0x74);
    out.push(0x22);
    out.push(0x3a);
    out.push(0x7b);
    out.push(0x22);
    out.push(0x66);
    out.push(0x69);
    out.push(0x6c);
    out.push(0x65);
    out.push(0x5f);
    out.push(0x68);
    out.push(0x61);
    out.push(0x73);
    out.push(0x68);
    out.push(0x22);
    out.push(0x3a);
    out.push(0x22);
    proof {
        assert(out@ =~= old(out)@ + req_open());
    }
}

/// The bytes of [`req_open`] as a vector.
fn vec_req_open() -> (v: Vec<u8>)
    ensures
        v@ == req_open(),
{
    let mut out: Vec<u8> = Vec::new();
    push_req_open(&mut out);
    proof {
        assert(out@ =~= req_open());
    }
    out
}

/// Appends the bytes of [`resp_open`].
fn push_resp_open(out: &mut Vec<u8>)
    ensures
        final(out)@ == old(out)@ + resp_open(),
{
    out.push(0x7b);
    out.push(0x22);
    out.push(0x52);
    out.push(0x65);
    out.push(0x73);
    out.push(0x70);
    out.push(0x6f);
    out.push(0x6e);
    out.push(0x73);
    out.push(0x65);
    out.push(0x22);
    out.push(0x3a);
    out.push(0x7b);
    out.push(0x22);
    out.push(0x66);
    out.push(0x69);
    out.push(0x6c);
    out.push(0x65);
    out.push(0x5f);
    out.push(0x68);
    out.push(0x61);
    out.push(0x73);
    out.push(0x68);
    out.push(0x22);
    out.push(0x3a);
    out.push(0x22);
    proof {
        assert(out@ =~= old(out)@ + resp_open());
    }
}

/// The bytes of [`resp_open`] as a vector.
fn vec_resp_open() -> (v: Vec<u8>)
    ensures
        v@ == resp_open(),
{
    let mut out: Vec<u8> = Vec::new();
    push_resp_open(&mut out);
    proof {
        assert(out@ =~= resp_open());
    }
    out
}

/// Appends the bytes of [`del_open`].
fn push_del_open(out: &mut Vec<u8>)
    ensures
        final(out)@ == old(out)@ + del_open(),
{
    out.push(0x7b);
    out.push(0x22);
    out.push(0x44);
    out.push(0x65);
    out.push(0x6c);
    out.push(0x65);
    out.push(0x74);
    out.push(0x65);
    out.push(0x22);
    out.push(0x3a);
    out.push(0x7b);
    out.push(0x22);
    out.push(0x66);
    out.push(0x69);
    out.push(0x6c);
    out.push(0x65);
    out.push(0x5f);
    out.push(0x68);
    out.push(0x61);
    out.push(0x73);
    out.push(0x68);
    out.push(0x22);
    out.push(0x3a);
    out.push(0x22);
    proof {
        assert(out@ =~= old(out)@ + del_open());
    }
}

/// The bytes of [`del_open`] as a vector.
fn vec_del_open() -> (v: Vec<u8>)
    ensures
        v@ == del_open(),
{
    let mut out: Vec<u8> = Vec::new();
    push_del_open(&mut out);
    proof {
        assert(out@ =~= del_open());
    }
    out
}

/// Appends the bytes of [`err_open`].
fn push_err_open(out: &mut Vec<u8>)
    ensures
        final(out)@ == old(out)@ + err_open(),
{
    out.push(0x7b);
    out.push(0x22);
    out.push(0x45);
    out.push(0x72);
    out.push(0x72);
    out.push(0x6f);
    out.push(0x72);
    out.push(0x22);
    out.push(0x3a);
    out.push(0x22);
    proof {
        assert(out@ =~= old(out)@ + err_open());
    }
}

/// The bytes of [`err_open`] as a vector.
fn vec_err_open() -> (v: Vec<u8>)
    ensures
        v@ == err_open(),
{
    let mut out: Vec<u8> = Vec::new();
    push_err_open(&mut out);
    proof {
        assert(out@ =~= err_open());
    }
    out
}

/// Appends the bytes of [`size_key`].
fn push_size_key(out: &mut Vec<u8>)
    ensures
        final(out)@ == old(out)@ + size_key(),
{
    out.push(0x2c);
    out.push(0x22);
    out.push(0x66);
    out.push(0x69);
    out.push(0x6c);
    out.push(0x65);
    out.push(0x5f);
    out.push(0x73);
    out.push(0x69);
    out.push(0x7a);
    out.push(0x65);
    out.push(0x22);
    out.push(0x3a);
    proof {
        assert(out@ =~= old(out)@ + size_key());
    }
}

/// The bytes of [`size_key`] as a vector.
fn vec_size_key() -> (v: Vec<u8>)
    ensures
        v@ == size_key(),
{
    let mut out: Vec<u8> = Vec::new();
    push_size_key(&mut out);
    proof {
        assert(out@ =~= size_key());
    }
    out
}

/// Appends the bytes of [`name_key`].
fn push_name_key(out: &mut Vec<u8>)
    ensures
        final(out)@ == old(out)@ + name_key(),
{
    out.push(0x2c);
    out.push(0x22);
    out.push(0x66);
    out.push(0x69);
    out.push(0x6c);
    out.push(0x65);
    out.push(0x5f);
    out.push(0x6e);
    out.push(0x61);
    out.push(0x6d);
    out.push(0x65);
    out.push(0x22);
    out.push(0x3a);
    out.push(0x22);
    proof {
        assert(out@ =~= old(out)@ + name_key());
    }
}

/// The bytes of [`name_key`] as a vector.
fn vec_name_key() -> (v: Vec<u8>)
    ensures
        v@ == name_key(),
{
    let mut out: Vec<u8> = Vec::new();
    push_name_key(&mut out);
    proof {
        assert(out@ =~= name_key());
    }
    out
}

/// Appends the bytes of [`dir_key`].
fn push_dir_key(out: &mut Vec<u8>)
    ensures
        final(out)@ == old(out)@ + dir_key(),
{
    out.push(0x2c);
    out.push(0x22);
    out.push(0x66);
    out.push(0x69);
    out.push(0x6c);
    out.push(0x65);
    out.push(0x5f);
    out.push(0x64);
    out.push(0x69);
    out.push(0x72);
    out.push(0x22);
    out.push(0x3a);
    out.push(0x22);
    proof {
        assert(out@ =~= old(out)@ + dir_key());
    }
}

/// The bytes of [`dir_key`] as a vector.
fn vec_dir_key() -> (v: Vec<u8>)
    ensures
        v@ == dir_key(),
{
    let mut out: Vec<u8> = Vec::new();
    push_dir_key(&mut out);
    proof {
        assert(out@ =~= dir_key());
    }
    out
}

/// Appends the bytes of [`sync_key`].
fn push_sync_key(out: &mut Vec<u8>)
    ensures
        final(out)@ == old(out)@ + sync_key(),
{
    out.push(0x2c);
    out.push(0x22);
    out.push(0x73);
    out.push(0x79);
    out.push(0x6e);
    out.push(0x63);
    out.push(0x5f);
    out.push(0x73);
    out.push(0x69);
    out.push(0x7a);
    out.push(0x65);
    out.push(0x22);
    out.push(0x3a);
    proof {
        assert(out@ =~= old(out)@ + sync_key());
    }
}

/// The bytes of [`sync_key`] as a vector.
fn vec_sync_key() -> (v: Vec<u8>)
    ensures
        v@ == sync_key(),
{
    let mut out: Vec<u8> = Vec::new();
    push_sync_key(&mut out);
    proof {
        assert(out@ =~= sync_key());
    }
    out
}

/// Appends the bytes of [`close2`].
fn push_close2(out: &mut Vec<u8>)
    ensures
        final(out)@ == old(out)@ + close2(),
{
    out.push(0x7d);
    out.push(0x7d);
    proof {
        assert(out@ =~= old(out)@ + close2());
    }
}

/// The bytes of [`close2`] as a vector.
fn vec_close2() -> (v: Vec<u8>)
    ensures
        v@ == close2(),
{
    let mut out: Vec<u8> = Vec::new();
    push_close2(&mut out);
    proof {
        assert(out@ =~= close2());
    }
    out
}

/// Appends the bytes of [`close1`].
fn push_close1(out: &mut Vec<u8>)
    ensures
        final(out)@ == old(out)@ + close1(),
{
    out.push(0x7d);
    proof {
        assert(out@ =~= old(out)@ + close1());
    }
}

/// The bytes of [`close1`] as a vector.
fn vec_close1() -> (v: Vec<u8>)
    ensures
        v@ == close1(),
{
    let mut out: Vec<u8> = Vec::new();
    push_close1(&mut out);
    proof {
        assert(out@ =~= close1());
    }
    out
}


fn is_hex_digit_b(b: u8) -> (r: bool)
    ensures
        r == is_hex_digit(b),
{
    (0x30 <= b && b <= 0x39) || (0x61 <= b && b <= 0x66) || (0x41 <= b && b <= 0x46)
}

fn hex_val_b(b: u8) -> (r: u8)
    requires
        is_hex_digit(b),
    ensures
        r == hex_val(b),
{
    if b <= 0x39 {
        b - 0x30
    } else if b >= 0x61 {
        b - 0x57
    } else {
        b - 0x37
    }
}

fn hex_digit_b(n: u8) -> (r: u8)
    requires
        n < 16,
    ensures
        r == hex_digit(n),
{
    if n < 10 {
        0x30 + n
    } else {
        0x57 + n
    }
}

/// Appends the escaped form of `s`'s UTF-8 bytes.
fn push_escaped(out: &mut Vec<u8>, s: &str)
    ensures
        final(out)@ == old(out)@ + escape(encode_utf8(s@)),
{
    let bytes = s.as_bytes();
    let ghost base = out@;
    let mut i: usize = 0;
    while i < bytes.len()
        invariant
            i <= bytes@.len(),
            bytes@ == s.spec_bytes(),
            out@ == base + escape(bytes@.subrange(0, i as int)),
        decreases bytes@.len() - i,
    {
        let b = bytes[i];
        proof {
            assert(bytes@.subrange(0, i + 1 as int).drop_last() =~= bytes@.subrange(0, i as int));
            assert(bytes@.subrange(0, i + 1 as int).last() == bytes@[i as int]);
        }
        if b == 0x22 {
            out.push(0x5c);
            out.push(0x22);
        } else if b == 0x5c {
            out.push(0x5c);
            out.push(0x5c);
        } else if b < 0x20 {
            out.push(0x5c);
            out.push(0x75);
            out.push(0x30);
            out.push(0x30);
            out.push(hex_digit_b(b / 16));
            out.push(hex_digit_b(b % 16));
        } else {
            out.push(b);
        }
        proof {
            assert(out@ =~= base + escape(bytes@.subrange(0, i as int)) + esc_byte(b));
            assert(out@ =~= base + escape(bytes@.subrange(0, i + 1 as int)));
        }
        i += 1;
    }
    proof {
        assert(bytes@.subrange(0, bytes@.len() as int) =~= bytes@);
    }
}

/// Appends the decimal digits of `n`.
fn push_decimal(out: &mut Vec<u8>, n: usize)
    ensures
        final(out)@ == old(out)@ + dec_digits(n as nat),
    decreases n,
{
    if n < 10 {
        out.push(0x30 + (n as u8));
        proof {
            assert(out@ =~= old(out)@ + dec_digits(n as nat));
        }
    } else {
        push_decimal(out, n / 10);
        out.push(0x30 + ((n % 10) as u8));
        proof {
            assert(out@ =~= old(out)@ + dec_digits(n as nat));
        }
    }
}

/// The canonical frame of `m`, as UTF-8 bytes.
pub fn encode_message(m: &TransferControlMessage) -> (r: Vec<u8>)
    ensures
        r@ == encode_spec(m@),
{
    let mut out: Vec<u8> = Vec::new();
    match m {
        TransferControlMessage::Request(q) => {
            push_req_open(&mut out);
            push_escaped(&mut out, q.file_hash.as_str());
            out.push(0x22);
            push_size_key(&mut out);
            push_decimal(&mut out, q.file_size);
            push_name_key(&mut out);
            push_escaped(&mut out, q.file_name.as_str());
            out.push(0x22);
            push_dir_key(&mut out);
            push_escaped(&mut out, q.file_dir.as_str());
            out.push(0x22);
            push_close2(&mut out);
            proof {
                assert(out@ =~= encode_spec(m@));
            }
        },
        TransferControlMessage::Response(q) => {
            push_resp_open(&mut out);
            push_escaped(&mut out, q.file_hash.as_str());
            out.push(0x22);
            push_sync_key(&mut out);
            push_decimal(&mut out, q.sync_size);
            push_close2(&mut out);
            proof {
                assert(out@ =~= encode_spec(m@));
            }
        },
        TransferControlMessage::Delete(q) => {
            push_del_open(&mut out);
            push_escaped(&mut out, q.file_hash.as_str());
            out.push(0x22);
            push_sync_key(&mut out);
            push_decimal(&mut out, q.sync_size);
            push_close2(&mut out);
            proof {
                assert(out@ =~= encode_spec(m@));
            }
        },
        TransferControlMessage::Error(msg) => {
            push_err_open(&mut out);
            push_escaped(&mut out, msg.as_str());
            out.push(0x22);
            push_close1(&mut out);
            proof {
                assert(out@ =~= encode_spec(m@));
            }
        },
    }
    out
}

/// Consumes a required literal at `pos`; the new position on a match.
fn strip_lit(s: &[u8], pos: usize, lit: &Vec<u8>) -> (r: Option<usize>)
    requires
        pos <= s@.len(),
    ensures
        r matches Some(p) ==> p == pos + lit@.len() && p <= s@.len() && strip_prefix(
            s@.skip(pos as int),
            lit@,
        ) == Some(s@.skip(p as int)),
        r is None ==> strip_prefix(s@.skip(pos as int), lit@) is None,
{
    let slen = s.len();
    if slen - pos < lit.len() {
        return None;
    }
    let mut i: usize = 0;
    while i < lit.len()
        invariant
            s@.len() <= usize::MAX,
            pos + lit@.len() <= s@.len(),
            i <= lit@.len(),
            forall|j: int| 0 <= j < i ==> s@[pos + j] == lit@[j],
        decreases lit@.len() - i,
    {
        if s[pos + i] != lit[i] {
            proof {
                if strip_prefix(s@.skip(pos as int), lit@) is Some {
                    assert(s@.skip(pos as int).subrange(0, lit@.len() as int)[i as int] == lit@[
                        i as int]);
                    assert(false);
                }
            }
            return None;
        }
        i += 1;
    }
    proof {
        assert(s@.skip(pos as int).subrange(0, lit@.len() as int) =~= lit@);
        assert(s@.skip(pos as int).skip(lit@.len() as int) =~= s@.skip(pos + lit@.len()));
    }
    Some(pos + lit.len())
}

/// Parses escaped string content at `pos`, through its closing quote.
fn parse_string(s: &[u8], pos: usize) -> (r: Option<(Vec<u8>, usize)>)
    requires
        pos <= s@.len(),
    ensures
        r matches Some(vp) ==> pos <= vp.1 <= s@.len() && parse_str_bytes(s@.skip(pos as int))
            == Some((vp.0@, s@.skip(vp.1 as int))),
        r is None ==> parse_str_bytes(s@.skip(pos as int)) is None,
{
    let _slen: usize = s.len();
    let mut out: Vec<u8> = Vec::new();
    let mut p = pos;
    loop
        invariant
            s@.len() <= usize::MAX,
            pos <= p <= s@.len(),
            (match parse_str_bytes(s@.skip(p as int)) {
                Some(cr) => parse_str_bytes(s@.skip(pos as int)) == Some((out@ + cr.0, cr.1)),
                None => parse_str_bytes(s@.skip(pos as int)) is None,
            }),
        decreases s@.len() - p,
    {
        if p >= s.len() {
            return None;
        }
        let b = s[p];
        proof {
            assert(s@.skip(p as int)[0] == s@[p as int]);
        }
        if b == 0x22 {
            proof {
                assert(s@.skip(p as int).drop_first() =~= s@.skip(p + 1));
                assert(out@ + Seq::<u8>::empty() =~= out@);
            }
            return Some((out, p + 1));
        } else if b == 0x5c {
            if s.len() - p > 1 && (s[p + 1] == 0x22 || s[p + 1] == 0x5c) {
                let ghost out0 = out@;
                let c = s[p + 1];
                proof {
                    assert(s@.skip(p as int)[1] == s@[p + 1]);
                    assert(s@.skip(p as int).skip(2) =~= s@.skip(p + 2));
                }
                out.push(c);
                p = p + 2;
                proof {
                    match parse_str_bytes(s@.skip(p as int)) {
                        Some(cr) => {
                            assert(out0 + (seq![c] + cr.0) =~= (out0 + seq![c]) + cr.0);
                        },
                        None => {},
                    }
                }
            } else if s.len() - p > 5 && s[p + 1] == 0x75 && s[p + 2] == 0x30 && s[p + 3] == 0x30
                && is_hex_digit_b(s[p + 4]) && is_hex_digit_b(s[p + 5]) && hex_val_b(s[p + 4]) * 16
                + hex_val_b(s[p + 5]) < 0x20 {
                let ghost out0 = out@;
                let c = hex_val_b(s[p + 4]) * 16 + hex_val_b(s[p + 5]);
                proof {
                    assert(s@.skip(p as int)[1] == s@[p + 1]);
                    assert(s@.skip(p as int)[2] == s@[p + 2]);
                    assert(s@.skip(p as int)[3] == s@[p + 3]);
                    assert(s@.skip(p as int)[4] == s@[p + 4]);
                    assert(s@.skip(p as int)[5] == s@[p + 5]);
                    assert(s@.skip(p as int).skip(6) =~= s@.skip(p + 6));
                }
                out.push(c);
                p = p + 6;
                proof {
                    match parse_str_bytes(s@.skip(p as int)) {
                        Some(cr) => {
                            assert(out0 + (seq![c] + cr.0) =~= (out0 + seq![c]) + cr.0);
                        },
                        None => {},
                    }
                }
            } else {
                proof {
                    assert(s@.skip(p as int).len() >= 2 ==> s@.skip(p as int)[1] == s@[p + 1]);
                    assert(s@.skip(p as int).len() >= 6 ==> s@.skip(p as int)[4] == s@[p + 4]
                        && s@.skip(p as int)[5] == s@[p + 5] && s@.skip(p as int)[2] == s@[p + 2]
                        && s@.skip(p as int)[3] == s@[p + 3]);
                }
                return None;
            }
        } else if b < 0x20 {
            return None;
        } else {
            let ghost out0 = out@;
            proof {
                assert(s@.skip(p as int).drop_first() =~= s@.skip(p + 1));
            }
            out.push(b);
            p = p + 1;
            proof {
                match parse_str_bytes(s@.skip(p as int)) {
                    Some(cr) => {
                        assert(out0 + (seq![b] + cr.0) =~= (out0 + seq![b]) + cr.0);
                    },
                    None => {},
                }
            }
        }
    }
}

/// Parses a decimal number at `pos`.
fn parse_decimal(s: &[u8], pos: usize) -> (r: Option<(usize, usize)>)
    requires
        pos <= s@.len(),
    ensures
        r matches Some(vp) ==> pos < vp.1 <= s@.len() && parse_dec(s@.skip(pos as int)) == Some(
            (vp.0 as nat, s@.skip(vp.1 as int)),
        ),
        r is None ==> parse_dec(s@.skip(pos as int)) is None,
{
    let ghost whole = s@.skip(pos as int);
    let _slen: usize = s.len();
    let mut acc: usize = 0;
    let mut p = pos;
    proof {
        assert(s@.subrange(pos as int, pos as int) =~= Seq::<u8>::empty());
    }
    while p < s.len() && 0x30 <= s[p] && s[p] <= 0x39
        invariant
            s@.len() <= usize::MAX,
            pos <= p <= s@.len(),
            whole == s@.skip(pos as int),
            forall|j: int| pos <= j < p ==> is_dec_byte(#[trigger] s@[j]),
            digits_len(whole) == (p - pos) + digits_len(s@.skip(p as int)),
            acc == dec_value(s@.subrange(pos as int, p as int)),
            acc <= usize::MAX,
        decreases s@.len() - p,
    {
        let d = s[p] - 0x30;
        proof {
            assert(s@.skip(p as int)[0] == s@[p as int]);
            assert(s@.skip(p as int).drop_first() =~= s@.skip(p + 1));
            assert(s@.subrange(pos as int, p + 1 as int).drop_last() =~= s@.subrange(
                pos as int,
                p as int,
            ));
            assert(s@.subrange(pos as int, p + 1 as int).last() == s@[p as int]);
        }
        acc = match acc.checked_mul(10) {
            Some(x) => match x.checked_add(d as usize) {
                Some(y) => y,
                None => {
                    proof {
                        lemma_parse_dec_overflow(s@, pos as int, p as int);
                    }
                    return None;
                },
            },
            None => {
                proof {
                    lemma_parse_dec_overflow(s@, pos as int, p as int);
                }
                return None;
            },
        };
        p += 1;
    }
    proof {
        if p < s@.len() {
            assert(s@.skip(p as int)[0] == s@[p as int]);
        }
        assert(digits_len(s@.skip(p as int)) == 0);
    }
    let k = p - pos;
    if k == 0 {
        return None;
    }
    if s[pos] == 0x30 && k > 1 {
        proof {
            assert(whole[0] == s@[pos as int]);
        }
        return None;
    }
    proof {
        assert(whole[0] == s@[pos as int]);
        assert(whole.subrange(0, k as int) =~= s@.subrange(pos as int, p as int));
        assert(whole.skip(k as int) =~= s@.skip(p as int));
    }
    Some((acc, p))
}

/// A digit that overflows the accumulator rules the whole run out.
proof fn lemma_parse_dec_overflow(s: Seq<u8>, pos: int, p: int)
    requires
        0 <= pos <= p < s.len(),
        forall|j: int| pos <= j < p ==> is_dec_byte(#[trigger] s[j]),
        is_dec_byte(s[p]),
        digits_len(s.skip(pos)) == (p - pos) + digits_len(s.skip(p)),
        dec_value(s.subrange(pos, p + 1)) > usize::MAX,
    ensures
        parse_dec(s.skip(pos)) is None,
{
    let whole = s.skip(pos);
    assert(s.skip(p)[0] == s[p]);
    assert(s.skip(p).drop_first() =~= s.skip(p + 1));
    assert(digits_len(s.skip(p)) >= 1);
    let k = digits_len(whole) as int;
    assert(k >= p + 1 - pos);
    lemma_digits_len_le(whole);
    let run = whole.subrange(0, k);
    assert forall|j: int| 0 <= j < p + 1 - pos implies #[trigger] run.subrange(0, p + 1 - pos)[j]
        == s.subrange(pos, p + 1)[j] by {
        assert(run[j] == whole[j]);
        assert(whole[j] == s[pos + j]);
    }
    assert(run.subrange(0, p + 1 - pos) =~= s.subrange(pos, p + 1));
    lemma_dec_prefix_le(run, p + 1 - pos);
}

/// Decoded `Response` or `Delete` body fields at `pos`, checking the frame
/// ends there.
fn decode_sized(s: &[u8], pos: usize, lit_close: &Vec<u8>) -> (r: Option<(String, usize)>)
    requires
        pos <= s@.len(),
        lit_close@ == close2(),
    ensures
        r matches Some(hn) ==> decode_sized_spec(s@.skip(pos as int)) == Some((hn.0@, hn.1)),
        r is None ==> decode_sized_spec(s@.skip(pos as int)) is None,
{
    let lit_sync = vec_sync_key();
    let (hb, p1) = match parse_string(s, pos) {
        Some(x) => x,
        None => {
            return None;
        },
    };
    let ghost hbv = hb@;
    let h = match bytes_to_string(hb) {
        Some(h) => h,
        None => {
            return None;
        },
    };
    let p2 = match strip_lit(s, p1, &lit_sync) {
        Some(p) => p,
        None => {
            return None;
        },
    };
    let (n, p3) = match parse_decimal(s, p2) {
        Some(x) => x,
        None => {
            return None;
        },
    };
    match strip_lit(s, p3, lit_close) {
        Some(p4) => {
            if p4 == s.len() {
                proof {
                    assert(s@.skip(p3 as int) =~= close2());
                    vstd::utf8::encode_utf8_decode_utf8(h@);
                }
                Some((h, n))
            } else {
                proof {
                    assert(s@.skip(p3 as int).len() > close2().len());
                }
                None
            }
        },
        None => {
            proof {
                if s@.skip(p3 as int) == close2() {
                    lemma_strip_prefix_concat(close2(), Seq::<u8>::empty());
                    assert(close2() + Seq::<u8>::empty() =~= close2());
                }
            }
            None
        },
    }
}

/// The message a frame holds; `MalformedMessage` when it is not a canonical
/// frame.
pub fn decode_message(s: &[u8]) -> (r: Result<TransferControlMessage, SessionError>)
    ensures
        r matches Ok(m) ==> decode_spec(s@) == Some(m@),
        r is Err ==> decode_spec(s@) is None && r == Err::<TransferControlMessage, SessionError>(
            SessionError::MalformedMessage,
        ),
{
    proof {
        assert(s@.skip(0) =~= s@);
    }
    let lit_req = vec_req_open();
    let lit_resp = vec_resp_open();
    let lit_del = vec_del_open();
    let lit_err = vec_err_open();
    let lit_close2 = vec_close2();
    if let Some(p0) = strip_lit(s, 0, &lit_req) {
        let lit_size = vec_size_key();
        let lit_name = vec_name_key();
        let lit_dir = vec_dir_key();
        let (hb, p1) = match parse_string(s, p0) {
            Some(x) => x,
            None => {
                return Err(SessionError::MalformedMessage);
            },
        };
        let h = match bytes_to_string(hb) {
            Some(h) => h,
            None => {
                return Err(SessionError::MalformedMessage);
            },
        };
        let p2 = match strip_lit(s, p1, &lit_size) {
            Some(p) => p,
            None => {
                return Err(SessionError::MalformedMessage);
            },
        };
        let (n, p3) = match parse_decimal(s, p2) {
            Some(x) => x,
            None => {
                return Err(SessionError::MalformedMessage);
            },
        };
        let p4 = match strip_lit(s, p3, &lit_name) {
            Some(p) => p,
            None => {
                return Err(SessionError::MalformedMessage);
            },
        };
        let (nb, p5) = match parse_string(s, p4) {
            Some(x) => x,
            None => {
                return Err(SessionError::MalformedMessage);
            },
        };
        let nm = match bytes_to_string(nb) {
            Some(h) => h,
            None => {
                return Err(SessionError::MalformedMessage);
            },
        };
        let p6 = match strip_lit(s, p5, &lit_dir) {
            Some(p) => p,
            None => {
                return Err(SessionError::MalformedMessage);
            },
        };
        let (db, p7) = match parse_string(s, p6) {
            Some(x) => x,
            None => {
                return Err(SessionError::MalformedMessage);
            },
        };
        let dr = match bytes_to_string(db) {
            Some(h) => h,
            None => {
                return Err(SessionError::MalformedMessage);
            },
        };
        match strip_lit(s, p7, &lit_close2) {
            Some(p8) => {
                if p8 == s.len() {
                    proof {
                        assert(s@.skip(p7 as int) =~= close2());
                        vstd::utf8::encode_utf8_decode_utf8(h@);
                        vstd::utf8::encode_utf8_decode_utf8(nm@);
                        vstd::utf8::encode_utf8_decode_utf8(dr@);
                    }
                    Ok(
                        TransferControlMessage::Request(
                            TransferRequest {
                                file_hash: h,
                                file_size: n,
                                file_name: nm,
                                file_dir: dr,
                            },
                        ),
                    )
                } else {
                    proof {
                        assert(s@.skip(p7 as int).len() > close2().len());
                    }
                    Err(SessionError::MalformedMessage)
                }
            },
            None => {
                proof {
                    if s@.skip(p7 as int) == close2() {
                        lemma_strip_prefix_concat(close2(), Seq::<u8>::empty());
                        assert(close2() + Seq::<u8>::empty() =~= close2());
                    }
                }
                Err(SessionError::MalformedMessage)
            },
        }
    } else if let Some(p0) = strip_lit(s, 0, &lit_resp) {
        match decode_sized(s, p0, &lit_close2) {
            Some((h, n)) => Ok(
                TransferControlMessage::Response(TransferResponse { file_hash: h, sync_size: n }),
            ),
            None => Err(SessionError::MalformedMessage),
        }
    } else if let Some(p0) = strip_lit(s, 0, &lit_del) {
        match decode_sized(s, p0, &lit_close2) {
            Some((h, n)) => Ok(
                TransferControlMessage::Delete(TransferResponse { file_hash: h, sync_size: n }),
            ),
            None => Err(SessionError::MalformedMessage),
        }
    } else if let Some(p0) = strip_lit(s, 0, &lit_err) {
        let lit_close1 = vec_close1();
        let (mb, p1) = match parse_string(s, p0) {
            Some(x) => x,
            None => {
                return Err(SessionError::MalformedMessage);
            },
        };
        let msg = match bytes_to_string(mb) {
            Some(h) => h,
            None => {
                return Err(SessionError::MalformedMessage);
            },
        };
        match strip_lit(s, p1, &lit_close1) {
            Some(p2) => {
                if p2 == s.len() {
                    proof {
                        assert(s@.skip(p1 as int) =~= close1());
                        vstd::utf8::encode_utf8_decode_utf8(msg@);
                    }
                    Ok(TransferControlMessage::Error(msg))
                } else {
                    proof {
                        assert(s@.skip(p1 as int).len() > close1().len());
                    }
                    Err(SessionError::MalformedMessage)
                }
            },
            None => {
                proof {
                    if s@.skip(p1 as int) == close1() {
                        lemma_strip_prefix_concat(close1(), Seq::<u8>::empty());
                        assert(close1() + Seq::<u8>::empty() =~= close1());
                    }
                }
                Err(SessionError::MalformedMessage)
            },
        }
    } else {
        Err(SessionError::MalformedMessage)
    }
}

} // verus!
