use echo_node::codec::{decode_echo, decode_init, encode_echo, encode_init};
use echo_node::protocol::{EchoData, Error, InitData, Message, Payload};

fn chars(s: &str) -> Vec<char> {
    s.chars().collect()
}

fn init_msg(
    src: &str,
    dest: &str,
    msg_id: Option<usize>,
    in_reply_to: Option<usize>,
    typed_data: InitData,
) -> Message<InitData> {
    Message {
        src: src.to_string(),
        dest: dest.to_string(),
        body: Payload { msg_id, in_reply_to, typed_data },
    }
}

fn echo_msg(
    src: &str,
    dest: &str,
    msg_id: Option<usize>,
    in_reply_to: Option<usize>,
    typed_data: EchoData,
) -> Message<EchoData> {
    Message {
        src: src.to_string(),
        dest: dest.to_string(),
        body: Payload { msg_id, in_reply_to, typed_data },
    }
}

#[test]
fn decode_init_request_line() {
    let line = chars(
        r#"{"src":"c1","dest":"n1","body":{"type":"init","msg_id":1,"node_id":"n1","node_ids":["n1"]}}"#,
    );
    let m = decode_init(&line).unwrap();
    assert_eq!(m.src, "c1");
    assert_eq!(m.dest, "n1");
    assert_eq!(m.body.msg_id, Some(1));
    assert_eq!(m.body.in_reply_to, None);
    match m.body.typed_data {
        InitData::Init { node_id, node_ids } => {
            assert_eq!(node_id, "n1");
            assert_eq!(node_ids, vec!["n1".to_string()]);
        }
        _ => panic!("expected an init request"),
    }
}

#[test]
fn encode_init_ok_exact_line() {
    let m = init_msg("n1", "c1", Some(0), Some(1), InitData::InitOk);
    let out = encode_init(&m);
    assert_eq!(
        out,
        chars(r#"{"src":"n1","dest":"c1","body":{"type":"init_ok","msg_id":0,"in_reply_to":1}}"#)
    );
}

#[test]
fn encode_echo_ok_exact_line() {
    let m = echo_msg("n1", "c1", Some(1), Some(2), EchoData::EchoOk { echo: "hello".to_string() });
    let out = encode_echo(&m);
    assert_eq!(
        out,
        chars(
            r#"{"src":"n1","dest":"c1","body":{"type":"echo_ok","msg_id":1,"in_reply_to":2,"echo":"hello"}}"#
        )
    );
}

#[test]
fn round_trip_init_request() {
    let m = init_msg(
        "c0",
        "n3",
        Some(7),
        None,
        InitData::Init {
            node_id: "n3".to_string(),
            node_ids: vec!["n1".to_string(), "n2".to_string(), "n3".to_string()],
        },
    );
    assert_eq!(decode_init(&encode_init(&m)).unwrap(), m);
}

#[test]
fn round_trip_init_ok() {
    let m = init_msg("n1", "c1", Some(0), Some(1), InitData::InitOk);
    assert_eq!(decode_init(&encode_init(&m)).unwrap(), m);
}

#[test]
fn round_trip_echo_both_variants() {
    let a = echo_msg("c1", "n1", Some(2), None, EchoData::Echo { echo: "hello".to_string() });
    assert_eq!(decode_echo(&encode_echo(&a)).unwrap(), a);
    let b = echo_msg("n1", "c1", Some(1), Some(2), EchoData::EchoOk { echo: "hello".to_string() });
    assert_eq!(decode_echo(&encode_echo(&b)).unwrap(), b);
}

#[test]
fn round_trip_none_fields_and_empty_strings() {
    let m = echo_msg("", "", None, None, EchoData::Echo { echo: "".to_string() });
    assert_eq!(decode_echo(&encode_echo(&m)).unwrap(), m);
}

#[test]
fn round_trip_empty_node_ids() {
    let m = init_msg(
        "c1",
        "n1",
        Some(1),
        None,
        InitData::Init { node_id: "n1".to_string(), node_ids: Vec::new() },
    );
    assert_eq!(decode_init(&encode_init(&m)).unwrap(), m);
}

#[test]
fn round_trip_unicode_and_escapes() {
    let text = "h\u{e9}llo \u{2713} a\"b\\c\nd\te\r\u{0008}\u{000c}";
    let m = echo_msg("c1", "n1", Some(3), None, EchoData::Echo { echo: text.to_string() });
    assert_eq!(decode_echo(&encode_echo(&m)).unwrap(), m);
}

#[test]
fn escapes_are_written_on_the_wire() {
    let m = echo_msg("n1", "c1", Some(1), Some(2), EchoData::EchoOk { echo: "a\"b\n".to_string() });
    let out = encode_echo(&m);
    let line: String = out.iter().collect();
    assert!(line.contains(r#""echo":"a\"b\n""#));
    assert!(!line.contains('\n'));
}

#[test]
fn round_trip_large_msg_id() {
    let m = echo_msg("c1", "n1", Some(usize::MAX), None, EchoData::Echo { echo: "x".to_string() });
    assert_eq!(decode_echo(&encode_echo(&m)).unwrap(), m);
}

#[test]
fn decode_accepts_whitespace_between_tokens() {
    let line = chars(
        "  { \"src\" : \"c1\" ,\t\"dest\" : \"n1\" , \"body\" : { \"type\" : \"echo\" , \"msg_id\" : 2 , \"echo\" : \"hi\" } }  ",
    );
    let m = decode_echo(&line).unwrap();
    assert_eq!(m.body.msg_id, Some(2));
    assert_eq!(m.body.typed_data, EchoData::Echo { echo: "hi".to_string() });
}

#[test]
fn decode_accepts_any_field_order() {
    let line = chars(
        r#"{"body":{"echo":"hi","msg_id":2,"type":"echo"},"dest":"n1","src":"c1"}"#,
    );
    let m = decode_echo(&line).unwrap();
    assert_eq!(m.src, "c1");
    assert_eq!(m.dest, "n1");
    assert_eq!(m.body.typed_data, EchoData::Echo { echo: "hi".to_string() });
}

#[test]
fn decode_null_and_absent_optional_fields() {
    let with_null = chars(
        r#"{"src":"c1","dest":"n1","body":{"type":"echo","msg_id":null,"in_reply_to":null,"echo":"x"}}"#,
    );
    let m = decode_echo(&with_null).unwrap();
    assert_eq!(m.body.msg_id, None);
    assert_eq!(m.body.in_reply_to, None);
    let absent = chars(r#"{"src":"c1","dest":"n1","body":{"type":"echo","echo":"x"}}"#);
    let m2 = decode_echo(&absent).unwrap();
    assert_eq!(m2.body.msg_id, None);
    assert_eq!(m2.body.in_reply_to, None);
}

#[test]
fn decode_rejects_malformed_lines() {
    let cases = [
        "",
        "hi",
        "{",
        r#"{"src":"c1"}"#,
        r#"{"src":"c1","dest":"n1"}"#,
        r#"{"src":"c1","dest":"n1","body":{}}"#,
        r#"{"src":"c1","dest":"n1","body":{"type":"add","msg_id":1}}"#,
        r#"{"src":"c1","dest":"n1","body":{"type":"echo","msg_id":"x","echo":"y"}}"#,
        r#"{"src":"c1","dest":"n1","body":{"type":"echo","msg_id":-1,"echo":"y"}}"#,
        r#"{"src":"c1","dest":"n1","body":{"type":"echo","msg_id":99999999999999999999999,"echo":"y"}}"#,
        r#"{"src":"c1","dest":"n1","body":{"type":"echo","msg_id":2,"echo":"bad \q"}}"#,
        r#"{"src":"c1","dest":"n1","body":{"type":"echo","msg_id":2,"echo":"y"}} extra"#,
        r#"{"src":"c1","dest":"n1","body":{"type":"echo","msg_id":2,"echo":"unterminated}}"#,
        r#"{"src":7,"dest":"n1","body":{"type":"echo","msg_id":2,"echo":"y"}}"#,
        r#"{"src":"c1","dest":"n1","body":"flat"}"#,
    ];
    for case in cases {
        let line = chars(case);
        assert_eq!(decode_echo(&line).unwrap_err(), Error::MalformedMessage, "case: {case}");
    }
}

#[test]
fn decode_init_rejects_missing_variant_fields() {
    let no_node_id =
        chars(r#"{"src":"c1","dest":"n1","body":{"type":"init","msg_id":1,"node_ids":["n1"]}}"#);
    assert_eq!(decode_init(&no_node_id).unwrap_err(), Error::MalformedMessage);
    let no_node_ids =
        chars(r#"{"src":"c1","dest":"n1","body":{"type":"init","msg_id":1,"node_id":"n1"}}"#);
    assert_eq!(decode_init(&no_node_ids).unwrap_err(), Error::MalformedMessage);
    let bad_array =
        chars(r#"{"src":"c1","dest":"n1","body":{"type":"init","msg_id":1,"node_id":"n1","node_ids":[1]}}"#);
    assert_eq!(decode_init(&bad_array).unwrap_err(), Error::MalformedMessage);
}

#[test]
fn error_descriptions() {
    assert_eq!(Error::MalformedMessage.describe(), "malformed message");
    assert_eq!(Error::ProtocolViolation.describe(), "protocol violation");
}
