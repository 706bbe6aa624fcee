use mjollnir::{answer_init, Body, BroadcastNode, Event, Init, InitPayload, Message, Payload};
use serde_json::Value;
use std::collections::HashSet;

fn text(record: &Value, key: &str) -> String {
    record[key].as_str().unwrap().to_string()
}

fn id(record: &Value, key: &str) -> Option<usize> {
    record.get(key).and_then(Value::as_u64).map(|n| n as usize)
}

fn record(src: &str, dst: &str, msg_id: Option<usize>, in_reply_to: Option<usize>, tag: &str) -> Value {
    let mut body = serde_json::Map::new();
    body.insert("type".to_string(), Value::from(tag));
    if let Some(n) = msg_id {
        body.insert("msg_id".to_string(), Value::from(n));
    }
    if let Some(n) = in_reply_to {
        body.insert("in_reply_to".to_string(), Value::from(n));
    }
    let mut whole = serde_json::Map::new();
    whole.insert("src".to_string(), Value::from(src));
    whole.insert("dest".to_string(), Value::from(dst));
    whole.insert("body".to_string(), Value::Object(body));
    Value::Object(whole)
}

#[test]
fn init_record_is_answered_with_init_ok_record() {
    let input: Value = serde_json::from_str(
        r#"{"src":"c1","dest":"n1","body":{"type":"init","msg_id":1,"node_id":"n1","node_ids":["n1","n2"]}}"#,
    )
    .unwrap();
    let body = &input["body"];
    assert_eq!(text(body, "type"), "init");
    let first = Message {
        src: text(&input, "src"),
        dst: text(&input, "dest"),
        body: Body {
            id: id(body, "msg_id"),
            in_reply_to: id(body, "in_reply_to"),
            payload: InitPayload::Init(Init {
                node_id: text(body, "node_id"),
                node_ids: body["node_ids"]
                    .as_array()
                    .unwrap()
                    .iter()
                    .map(|n| n.as_str().unwrap().to_string())
                    .collect(),
            }),
        },
    };
    let (_, reply) = answer_init(first).unwrap();
    assert_eq!(reply.body.payload, InitPayload::InitOk);
    let output = record(&reply.src, &reply.dst, reply.body.id, reply.body.in_reply_to, "init_ok");
    let expected: Value = serde_json::from_str(
        r#"{"src":"n1","dest":"c1","body":{"type":"init_ok","in_reply_to":1,"msg_id":0}}"#,
    )
    .unwrap();
    assert_eq!(output, expected);
}

#[test]
fn broadcast_and_read_records() {
    let mut node = BroadcastNode::new(Init {
        node_id: "n1".to_string(),
        node_ids: vec!["n1".to_string()],
    });
    let input: Value = serde_json::from_str(
        r#"{"src":"c1","dest":"n1","body":{"type":"broadcast","msg_id":3,"message":5}}"#,
    )
    .unwrap();
    let body = &input["body"];
    let request = Message {
        src: text(&input, "src"),
        dst: text(&input, "dest"),
        body: Body {
            id: id(body, "msg_id"),
            in_reply_to: None,
            payload: Payload::Broadcast { message: id(body, "message").unwrap() },
        },
    };
    let sent = node.react(Event::Message(request)).unwrap();
    assert_eq!(sent.len(), 1);
    assert!(matches!(sent[0].body.payload, Payload::BroadcastOk));
    let output =
        record(&sent[0].src, &sent[0].dst, sent[0].body.id, sent[0].body.in_reply_to, "broadcast_ok");
    let expected: Value = serde_json::from_str(
        r#"{"src":"n1","dest":"c1","body":{"type":"broadcast_ok","msg_id":1,"in_reply_to":3}}"#,
    )
    .unwrap();
    assert_eq!(output, expected);

    let read = Message {
        src: "c1".to_string(),
        dst: "n1".to_string(),
        body: Body { id: Some(4), in_reply_to: None, payload: Payload::Read },
    };
    let sent = node.react(Event::Message(read)).unwrap();
    let messages: HashSet<usize> = match &sent[0].body.payload {
        Payload::ReadOk { messages } => messages.clone(),
        other => panic!("not read_ok: {:?}", other),
    };
    let mut output = record(&sent[0].src, &sent[0].dst, sent[0].body.id, sent[0].body.in_reply_to, "read_ok");
    let listed: Vec<Value> = messages.iter().map(|m| Value::from(*m)).collect();
    output["body"]["messages"] = Value::Array(listed);
    let expected: Value = serde_json::from_str(
        r#"{"src":"n1","dest":"c1","body":{"type":"read_ok","msg_id":2,"in_reply_to":4,"messages":[5]}}"#,
    )
    .unwrap();
    assert_eq!(output, expected);
}
