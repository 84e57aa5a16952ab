use rsdrive::codec::{decode_message, encode_message};
use rsdrive::errors::SessionError;
use rsdrive::protocol::{TransferControlMessage, TransferRequest, TransferResponse};

fn request(hash: &str, size: usize, name: &str, dir: &str) -> TransferControlMessage {
    TransferControlMessage::Request(TransferRequest {
        file_hash: hash.to_string(),
        file_size: size,
        file_name: name.to_string(),
        file_dir: dir.to_string(),
    })
}

#[test]
fn encode_request_exact_frame() {
    let bytes = encode_message(&request("abc", 1000, "f", "/"));
    assert_eq!(
        String::from_utf8(bytes).unwrap(),
        "{\"Request\":{\"file_hash\":\"abc\",\"file_size\":1000,\"file_name\":\"f\",\"file_dir\":\"/\"}}"
    );
}

#[test]
fn encode_response_exact_frame() {
    let msg = TransferControlMessage::Response(TransferResponse {
        file_hash: "abc".to_string(),
        sync_size: 42,
    });
    let bytes = encode_message(&msg);
    assert_eq!(
        String::from_utf8(bytes).unwrap(),
        "{\"Response\":{\"file_hash\":\"abc\",\"sync_size\":42}}"
    );
}

#[test]
fn encode_error_escapes_content() {
    let msg = TransferControlMessage::Error("a\"b\\c\nd".to_string());
    let bytes = encode_message(&msg);
    assert_eq!(
        String::from_utf8(bytes).unwrap(),
        "{\"Error\":\"a\\\"b\\\\c\\u000ad\"}"
    );
}

#[test]
fn round_trip_request() {
    let msg = request("deadbeef", 123456, "notes.txt", "/docs/personal");
    let decoded = decode_message(&encode_message(&msg)).unwrap();
    assert_eq!(decoded, msg);
}

#[test]
fn round_trip_all_variants() {
    let msgs = vec![
        request("", 0, "", ""),
        request("h\"x\\y", usize::MAX, "na\tme", "/a/b"),
        TransferControlMessage::Response(TransferResponse {
            file_hash: "zz".to_string(),
            sync_size: 0,
        }),
        TransferControlMessage::Delete(TransferResponse {
            file_hash: "abc".to_string(),
            sync_size: 7,
        }),
        TransferControlMessage::Error("boom \u{1}!".to_string()),
        TransferControlMessage::Error("snowman \u{2603} stays".to_string()),
    ];
    for msg in msgs {
        let decoded = decode_message(&encode_message(&msg)).unwrap();
        assert_eq!(decoded, msg);
    }
}

#[test]
fn decode_plain_response_frame() {
    let decoded = decode_message(b"{\"Response\":{\"file_hash\":\"abc\",\"sync_size\":42}}");
    assert_eq!(
        decoded.unwrap(),
        TransferControlMessage::Response(TransferResponse {
            file_hash: "abc".to_string(),
            sync_size: 42,
        })
    );
}

#[test]
fn decode_rejects_malformed_frames() {
    let bad: Vec<&[u8]> = vec![
        b"",
        b"{",
        b"{\"Unknown\":{}}",
        b"{\"Request\":{\"file_hash\":\"abc\"}}",
        b"{\"Response\":{\"file_hash\":\"abc\",\"sync_size\":}}",
        b"{\"Response\":{\"file_hash\":\"abc\",\"sync_size\":007}}",
        b"{\"Response\":{\"file_hash\":\"abc\",\"sync_size\":42}}trailing",
        b"{\"Response\":{\"file_hash\":\"abc\",\"sync_size\":42}",
        b"{\"Error\":\"unterminated}",
        b"{\"Error\":\"bad escape \\x\"}",
        b"{\"Error\":\"\x01 raw control\"}",
    ];
    for frame in bad {
        assert_eq!(decode_message(frame), Err(SessionError::MalformedMessage));
    }
}

#[test]
fn decode_rejects_invalid_utf8_content() {
    // The escaped content survives parsing but is not UTF-8.
    let mut frame = b"{\"Error\":\"".to_vec();
    frame.push(0xff);
    frame.extend_from_slice(b"\"}");
    assert_eq!(
        decode_message(&frame),
        Err(SessionError::MalformedMessage)
    );
}

#[test]
fn decode_rejects_oversized_number() {
    let frame = format!(
        "{{\"Response\":{{\"file_hash\":\"abc\",\"sync_size\":{}0}}}}",
        usize::MAX
    );
    assert_eq!(
        decode_message(frame.as_bytes()),
        Err(SessionError::MalformedMessage)
    );
}
