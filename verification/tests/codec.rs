use mqtt_discord_bridge::codec::{decode, encode};
use mqtt_discord_bridge::envelope::{DecodeError, Envelope};

fn message(channel_id: u64, content: &str) -> Envelope {
    Envelope::Message { channel_id, content: content.to_string() }
}

fn value_of(e: &Envelope) -> serde_json::Value {
    let mut outer = serde_json::Map::new();
    match e {
        Envelope::KeepAlive => {
            outer.insert("KeepAlive".to_string(), serde_json::Value::Null);
        }
        Envelope::Message { channel_id, content } => {
            let mut inner = serde_json::Map::new();
            inner.insert("channel_id".to_string(), serde_json::Value::from(*channel_id));
            inner.insert("content".to_string(), serde_json::Value::from(content.as_str()));
            outer.insert("Message".to_string(), serde_json::Value::Object(inner));
        }
    }
    serde_json::Value::Object(outer)
}

fn samples() -> Vec<Envelope> {
    let mut control = String::new();
    for c in 0u8..0x20 {
        control.push(c as char);
    }
    vec![
        Envelope::KeepAlive,
        message(0, ""),
        message(1, "hi"),
        message(663862252629393421, "hello, world"),
        message(u64::MAX, "max"),
        message(10, "say \"hi\" \\ and / too"),
        message(7, "line\nbreak\ttab\rreturn\u{8}\u{c}"),
        message(8, &control),
        message(9, "\u{7f}"),
        message(11, "caf\u{e9} \u{4e2d}\u{6587} \u{1f600}"),
        message(12, "{\"KeepAlive\":null}"),
        message(13, "\u{0}\u{1f}\u{20}\u{7ff}\u{800}\u{ffff}\u{10000}\u{10ffff}"),
    ]
}

#[test]
fn encode_message_writes_the_compact_object() {
    assert_eq!(
        encode(&message(1, "hi")),
        b"{\"Message\":{\"channel_id\":1,\"content\":\"hi\"}}".to_vec()
    );
}

#[test]
fn encode_keepalive_writes_null_member() {
    assert_eq!(encode(&Envelope::KeepAlive), b"{\"KeepAlive\":null}".to_vec());
}

#[test]
fn encode_escapes_quote_backslash_and_control_bytes() {
    assert_eq!(
        encode(&message(5, "a\"b\\c\nd\u{1}e\u{1f}")),
        b"{\"Message\":{\"channel_id\":5,\"content\":\"a\\\"b\\\\c\\nd\\u0001e\\u001f\"}}".to_vec()
    );
}

#[test]
fn encode_writes_largest_channel_in_full() {
    assert_eq!(
        encode(&message(u64::MAX, "")),
        b"{\"Message\":{\"channel_id\":18446744073709551615,\"content\":\"\"}}".to_vec()
    );
}

#[test]
fn decode_undoes_encode() {
    for e in samples() {
        assert_eq!(decode(&encode(&e)), Ok(e));
    }
}

#[test]
fn encode_agrees_with_serde_json() {
    for e in samples() {
        assert_eq!(encode(&e), serde_json::to_vec(&value_of(&e)).unwrap());
    }
}

#[test]
fn encode_is_read_by_serde_json() {
    for e in samples() {
        let read: serde_json::Value = serde_json::from_slice(&encode(&e)).unwrap();
        assert_eq!(read, value_of(&e));
    }
}

#[test]
fn decode_reads_pretty_serde_json() {
    for e in samples() {
        let pretty = serde_json::to_vec_pretty(&value_of(&e)).unwrap();
        assert_eq!(decode(&pretty), Ok(e));
    }
}

#[test]
fn decode_reads_spaced_message() {
    assert_eq!(
        decode(b"{\"Message\": {\"channel_id\": 42, \"content\": \"hello\"}}"),
        Ok(message(42, "hello"))
    );
}

#[test]
fn decode_reads_spaced_keepalive() {
    assert_eq!(decode(b"{\"KeepAlive\": null}"), Ok(Envelope::KeepAlive));
}

#[test]
fn decode_reads_whitespace_around_every_token() {
    assert_eq!(
        decode(b" \t\r\n{ \"Message\" : { \"channel_id\" : 3 , \"content\" : \"x\" } } \n"),
        Ok(message(3, "x"))
    );
    assert_eq!(decode(b"\n{\n\"KeepAlive\"\n:\nnull\n}\n"), Ok(Envelope::KeepAlive));
}

#[test]
fn decode_reads_members_in_either_order() {
    assert_eq!(
        decode(b"{\"Message\":{\"content\":\"first\",\"channel_id\":9}}"),
        Ok(message(9, "first"))
    );
}

#[test]
fn decode_resolves_escapes() {
    assert_eq!(
        decode(b"{\"Message\":{\"channel_id\":1,\"content\":\"\\\"\\\\\\/\\b\\f\\n\\r\\t\"}}"),
        Ok(message(1, "\"\\/\u{8}\u{c}\n\r\t"))
    );
}

#[test]
fn decode_resolves_hexadecimal_escapes() {
    assert_eq!(
        decode(b"{\"Message\":{\"channel_id\":1,\"content\":\"\\u0041\\u00e9\\u00E9\\u4e2d\\uFFFF\"}}"),
        Ok(message(1, "A\u{e9}\u{e9}\u{4e2d}\u{ffff}"))
    );
}

#[test]
fn decode_resolves_surrogate_pairs() {
    assert_eq!(
        decode(b"{\"Message\":{\"channel_id\":1,\"content\":\"\\ud83d\\ude00\\uD800\\uDC00\\udbff\\udfff\"}}"),
        Ok(message(1, "\u{1f600}\u{10000}\u{10ffff}"))
    );
}

#[test]
fn decode_resolves_escapes_in_names() {
    assert_eq!(
        decode(b"{\"\\u004dessage\":{\"channel\\u005fid\":1,\"c\\u006fntent\":\"x\"}}"),
        Ok(message(1, "x"))
    );
    assert_eq!(decode(b"{\"Keep\\u0041live\":null}"), Ok(Envelope::KeepAlive));
}

#[test]
fn decode_keeps_raw_multibyte_text() {
    assert_eq!(
        decode("{\"Message\":{\"channel_id\":1,\"content\":\"caf\u{e9} \u{1f600}\"}}".as_bytes()),
        Ok(message(1, "caf\u{e9} \u{1f600}"))
    );
}

#[test]
fn decode_reads_zero_and_largest_channel() {
    assert_eq!(decode(b"{\"Message\":{\"channel_id\":0,\"content\":\"\"}}"), Ok(message(0, "")));
    assert_eq!(
        decode(b"{\"Message\":{\"channel_id\":18446744073709551615,\"content\":\"\"}}"),
        Ok(message(u64::MAX, ""))
    );
}

fn rejected(bytes: &[u8]) {
    assert_eq!(decode(bytes), Err(DecodeError), "{:?}", String::from_utf8_lossy(bytes));
}

#[test]
fn decode_rejects_empty_and_blank_input() {
    rejected(b"");
    rejected(b"   ");
    rejected(b"\n");
}

#[test]
fn decode_rejects_truncated_input() {
    let whole = encode(&message(12, "some \"text\" \u{1} here"));
    for cut in 0..whole.len() {
        rejected(&whole[..cut]);
    }
    let whole = encode(&Envelope::KeepAlive);
    for cut in 0..whole.len() {
        rejected(&whole[..cut]);
    }
}

#[test]
fn decode_rejects_trailing_bytes() {
    rejected(b"{\"KeepAlive\":null}x");
    rejected(b"{\"KeepAlive\":null}{\"KeepAlive\":null}");
    rejected(b"{\"KeepAlive\":null},");
    rejected(b"{\"Message\":{\"channel_id\":1,\"content\":\"x\"}}}");
}

#[test]
fn decode_rejects_other_json() {
    rejected(b"null");
    rejected(b"1");
    rejected(b"\"KeepAlive\"");
    rejected(b"[]");
    rejected(b"{}");
    rejected(b"{\"Unknown\":null}");
    rejected(b"{\"keepalive\":null}");
    rejected(b"{\"KeepAlive\":0}");
    rejected(b"{\"KeepAlive\":nul}");
    rejected(b"{\"KeepAlive\":NULL}");
    rejected(b"{\"KeepAlive\":{}}");
    rejected(b"{\"Message\":null}");
    rejected(b"{\"Message\":[1,\"x\"]}");
    rejected(b"{\"KeepAlive\":null,\"KeepAlive\":null}");
}

#[test]
fn decode_rejects_wrong_members() {
    rejected(b"{\"Message\":{}}");
    rejected(b"{\"Message\":{\"channel_id\":1}}");
    rejected(b"{\"Message\":{\"content\":\"x\"}}");
    rejected(b"{\"Message\":{\"channel_id\":1,\"channel_id\":1}}");
    rejected(b"{\"Message\":{\"content\":\"x\",\"content\":\"x\"}}");
    rejected(b"{\"Message\":{\"channel_id\":1,\"content\":\"x\",\"extra\":1}}");
    rejected(b"{\"Message\":{\"channel_id\":1,\"content\":\"x\",}}");
    rejected(b"{\"Message\":{\"channel_id\":1 \"content\":\"x\"}}");
    rejected(b"{\"Message\":{\"channel_id\":\"1\",\"content\":\"x\"}}");
    rejected(b"{\"Message\":{\"channel_id\":1,\"content\":2}}");
    rejected(b"{\"Message\":{\"channel_id\":1,\"content\":null}}");
    rejected(b"{\"Message\":{\"Channel_id\":1,\"content\":\"x\"}}");
}

#[test]
fn decode_rejects_numbers_that_are_no_channel() {
    rejected(b"{\"Message\":{\"channel_id\":-1,\"content\":\"x\"}}");
    rejected(b"{\"Message\":{\"channel_id\":+1,\"content\":\"x\"}}");
    rejected(b"{\"Message\":{\"channel_id\":01,\"content\":\"x\"}}");
    rejected(b"{\"Message\":{\"channel_id\":00,\"content\":\"x\"}}");
    rejected(b"{\"Message\":{\"channel_id\":1.0,\"content\":\"x\"}}");
    rejected(b"{\"Message\":{\"channel_id\":1e3,\"content\":\"x\"}}");
    rejected(b"{\"Message\":{\"channel_id\":0x10,\"content\":\"x\"}}");
    rejected(b"{\"Message\":{\"channel_id\":,\"content\":\"x\"}}");
    rejected(b"{\"Message\":{\"channel_id\":18446744073709551616,\"content\":\"x\"}}");
    rejected(b"{\"Message\":{\"channel_id\":184467440737095516150,\"content\":\"x\"}}");
    rejected(b"{\"Message\":{\"channel_id\":99999999999999999999999999,\"content\":\"x\"}}");
}

#[test]
fn decode_rejects_bad_strings() {
    rejected(b"{\"Message\":{\"channel_id\":1,\"content\":\"a\nb\"}}");
    rejected(b"{\"Message\":{\"channel_id\":1,\"content\":\"a\x00b\"}}");
    rejected(b"{\"Message\":{\"channel_id\":1,\"content\":\"a\x1fb\"}}");
    rejected(b"{\"Message\":{\"channel_id\":1,\"content\":\"\\x\"}}");
    rejected(b"{\"Message\":{\"channel_id\":1,\"content\":\"\\U0041\"}}");
    rejected(b"{\"Message\":{\"channel_id\":1,\"content\":\"\\u004\"}}");
    rejected(b"{\"Message\":{\"channel_id\":1,\"content\":\"\\u00g1\"}}");
    rejected(b"{\"Message\":{\"channel_id\":1,\"content\":\"\\\"}}");
    rejected(b"{\"Message\":{\"channel_id\":1,\"content\":'x'}}");
    rejected(b"{\"Message\":{\"channel_id\":1,\"content\":\"x}}");
}

#[test]
fn decode_rejects_lone_surrogates() {
    rejected(b"{\"Message\":{\"channel_id\":1,\"content\":\"\\ud83d\"}}");
    rejected(b"{\"Message\":{\"channel_id\":1,\"content\":\"\\ud83dx\"}}");
    rejected(b"{\"Message\":{\"channel_id\":1,\"content\":\"\\ude00\"}}");
    rejected(b"{\"Message\":{\"channel_id\":1,\"content\":\"\\ud83d\\u0041\"}}");
    rejected(b"{\"Message\":{\"channel_id\":1,\"content\":\"\\ud83d\\ud83d\"}}");
    rejected(b"{\"Message\":{\"channel_id\":1,\"content\":\"\\ud83d\\n\"}}");
}

#[test]
fn decode_rejects_text_that_is_not_utf8() {
    rejected(b"{\"Message\":{\"channel_id\":1,\"content\":\"\xff\"}}");
    rejected(b"{\"Message\":{\"channel_id\":1,\"content\":\"\xc3\"}}");
    rejected(b"{\"Message\":{\"channel_id\":1,\"content\":\"\xc3\\u00a9\"}}");
    rejected(b"{\"Message\":{\"channel_id\":1,\"content\":\"\xed\xa0\x80\"}}");
    rejected(b"{\"Message\":{\"channel_id\":1,\"content\":\"\xc0\x80\"}}");
    rejected(b"\xff{\"KeepAlive\":null}");
}

#[test]
fn decode_agrees_with_serde_json_on_what_is_json() {
    let inputs: Vec<&[u8]> = vec![
        b"{\"KeepAlive\":null}",
        b"{\"KeepAlive\":null}x",
        b"{\"Message\":{\"channel_id\":01,\"content\":\"x\"}}",
        b"{\"Message\":{\"channel_id\":1,\"content\":\"\\ud83d\"}}",
        b"{\"Message\":{\"channel_id\":1,\"content\":\"\\ud83d\\ude00\"}}",
        b"{\"Message\":{\"channel_id\":1,\"content\":\"a\nb\"}}",
        b"{\"Message\":{\"channel_id\":1,\"content\":\"\xff\"}}",
        b"{\"Message\":{\"channel_id\":1,\"content\":\"\\/\"}}",
        b" {\"Message\" :{\"content\":\"\",\"channel_id\":0 } }",
    ];
    for input in inputs {
        let ours = decode(input);
        let theirs: Result<serde_json::Value, serde_json::Error> = serde_json::from_slice(input);
        match ours {
            Ok(e) => assert_eq!(theirs.unwrap(), value_of(&e)),
            Err(_) => assert!(theirs.is_err(), "{:?}", String::from_utf8_lossy(input)),
        }
    }
}
