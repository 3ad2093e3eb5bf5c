use echo_node::node::{process_echo_line, process_init_line, EchoNode, Node};
use echo_node::protocol::{EchoData, Error, InitData, Message, Payload};

fn chars(s: &str) -> Vec<char> {
    s.chars().collect()
}

fn text(v: &[char]) -> String {
    v.iter().collect()
}

fn init_request(msg_id: Option<usize>) -> Message<InitData> {
    Message {
        src: "c1".to_string(),
        dest: "n1".to_string(),
        body: Payload {
            msg_id,
            in_reply_to: None,
            typed_data: InitData::Init {
                node_id: "n1".to_string(),
                node_ids: vec!["n1".to_string()],
            },
        },
    }
}

fn echo_request(msg_id: Option<usize>, echo: &str) -> Message<EchoData> {
    Message {
        src: "c1".to_string(),
        dest: "n1".to_string(),
        body: Payload {
            msg_id,
            in_reply_to: None,
            typed_data: EchoData::Echo { echo: echo.to_string() },
        },
    }
}

#[test]
fn init_builds_correlated_reply() {
    let (node, reply) = EchoNode::init(init_request(Some(1))).unwrap();
    assert_eq!(node.id, 0);
    assert_eq!(reply.src, "n1");
    assert_eq!(reply.dest, "c1");
    assert_eq!(reply.body.msg_id, Some(0));
    assert_eq!(reply.body.in_reply_to, Some(1));
    assert_eq!(reply.body.typed_data, InitData::InitOk);
}

#[test]
fn init_rejects_init_ok() {
    let msg = Message {
        src: "c1".to_string(),
        dest: "n1".to_string(),
        body: Payload { msg_id: Some(1), in_reply_to: None, typed_data: InitData::InitOk },
    };
    assert_eq!(EchoNode::init(msg).unwrap_err(), Error::ProtocolViolation);
}

#[test]
fn handle_preserves_content_and_correlates() {
    let (mut node, _) = EchoNode::init(init_request(Some(1))).unwrap();
    let reply = node.handle(echo_request(Some(5), "some text")).unwrap();
    assert_eq!(reply.src, "n1");
    assert_eq!(reply.dest, "c1");
    assert_eq!(reply.body.in_reply_to, Some(5));
    assert_eq!(reply.body.msg_id, Some(1));
    assert_eq!(reply.body.typed_data, EchoData::EchoOk { echo: "some text".to_string() });
}

#[test]
fn handle_ids_strictly_increase() {
    let (mut node, _) = EchoNode::init(init_request(Some(1))).unwrap();
    let mut seen: Vec<usize> = Vec::new();
    for k in 0..5usize {
        let reply = node.handle(echo_request(Some(k + 2), "x")).unwrap();
        seen.push(reply.body.msg_id.unwrap());
    }
    assert_eq!(seen, vec![1, 2, 3, 4, 5]);
    assert_eq!(node.id, 5);
}

#[test]
fn handle_rejects_echo_ok_and_keeps_counter() {
    let (mut node, _) = EchoNode::init(init_request(Some(1))).unwrap();
    node.handle(echo_request(Some(2), "x")).unwrap();
    let bad = Message {
        src: "c1".to_string(),
        dest: "n1".to_string(),
        body: Payload {
            msg_id: Some(3),
            in_reply_to: None,
            typed_data: EchoData::EchoOk { echo: "x".to_string() },
        },
    };
    assert_eq!(node.handle(bad).unwrap_err(), Error::ProtocolViolation);
    assert_eq!(node.id, 1);
}

#[test]
fn trait_dispatch_matches_inherent_behaviour() {
    let (mut node, reply) = <EchoNode as Node<EchoData>>::init(init_request(Some(9))).unwrap();
    assert_eq!(reply.body.in_reply_to, Some(9));
    let rep = Node::<EchoData>::handle(&mut node, echo_request(Some(10), "t")).unwrap();
    assert_eq!(rep.body.in_reply_to, Some(10));
    assert_eq!(rep.body.msg_id, Some(1));
}

#[test]
fn end_to_end_scenario() {
    let init_line = chars(
        r#"{"src":"c1","dest":"n1","body":{"type":"init","msg_id":1,"node_id":"n1","node_ids":["n1"]}}"#,
    );
    let (mut node, first_out) = process_init_line(&init_line).unwrap();
    assert_eq!(
        text(&first_out),
        r#"{"src":"n1","dest":"c1","body":{"type":"init_ok","msg_id":0,"in_reply_to":1}}"#
    );
    let echo_line = chars(r#"{"src":"c1","dest":"n1","body":{"type":"echo","msg_id":2,"echo":"hello"}}"#);
    let second_out = process_echo_line(&mut node, &echo_line).unwrap();
    assert_eq!(
        text(&second_out),
        r#"{"src":"n1","dest":"c1","body":{"type":"echo_ok","msg_id":1,"in_reply_to":2,"echo":"hello"}}"#
    );
}

#[test]
fn response_kind_input_is_fatal_and_produces_no_output() {
    let init_line = chars(
        r#"{"src":"c1","dest":"n1","body":{"type":"init","msg_id":1,"node_id":"n1","node_ids":["n1"]}}"#,
    );
    let (mut node, _) = process_init_line(&init_line).unwrap();
    let bad_line = chars(
        r#"{"src":"c1","dest":"n1","body":{"type":"echo_ok","msg_id":9,"in_reply_to":2,"echo":"hello"}}"#,
    );
    assert_eq!(process_echo_line(&mut node, &bad_line).unwrap_err(), Error::ProtocolViolation);
    assert_eq!(node.id, 0);
}

#[test]
fn process_init_line_rejects_bad_input() {
    assert_eq!(process_init_line(&chars("nonsense")).unwrap_err(), Error::MalformedMessage);
    let init_ok_line =
        chars(r#"{"src":"c1","dest":"n1","body":{"type":"init_ok","msg_id":1}}"#);
    assert_eq!(process_init_line(&init_ok_line).unwrap_err(), Error::ProtocolViolation);
}

#[test]
fn process_echo_line_rejects_malformed_input() {
    let init_line = chars(
        r#"{"src":"c1","dest":"n1","body":{"type":"init","msg_id":1,"node_id":"n1","node_ids":["n1"]}}"#,
    );
    let (mut node, _) = process_init_line(&init_line).unwrap();
    assert_eq!(
        process_echo_line(&mut node, &chars("{broken")).unwrap_err(),
        Error::MalformedMessage
    );
    assert_eq!(node.id, 0);
}
