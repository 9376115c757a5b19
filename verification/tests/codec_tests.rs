use tasklist::codec::{decode_tasks, encode_tasks, load_tasks};
use tasklist::tasks::{TaskItem, TaskList};

fn sample(names_closed: &[(&str, bool)]) -> Vec<TaskItem> {
    let mut tasks: Vec<TaskItem> = Vec::new();
    for (name, closed) in names_closed {
        tasks.add(name);
        if *closed {
            let last = tasks.len() - 1;
            tasks.close(last);
        }
    }
    tasks
}

#[test]
fn encode_empty_collection() {
    let tasks: Vec<TaskItem> = Vec::new();
    assert_eq!(encode_tasks(&tasks), "[]");
}

#[test]
fn encode_single_task_exact_text() {
    let tasks = sample(&[("buy", false)]);
    assert_eq!(encode_tasks(&tasks), "[{\"name\":\"buy\",\"closed\":false}]");
}

#[test]
fn encode_closed_flag() {
    let tasks = sample(&[("done", true)]);
    assert_eq!(encode_tasks(&tasks), "[{\"name\":\"done\",\"closed\":true}]");
}

#[test]
fn round_trip_empty() {
    let tasks: Vec<TaskItem> = Vec::new();
    let text = encode_tasks(&tasks);
    let back = decode_tasks(&text).expect("canonical text must decode");
    assert_eq!(back.len(), 0);
}

#[test]
fn round_trip_many_tasks() {
    let tasks = sample(&[("buy milk", false), ("call home", true), ("", false), ("x", true)]);
    let text = encode_tasks(&tasks);
    let back = decode_tasks(&text).expect("canonical text must decode");
    assert_eq!(back.len(), tasks.len());
    for (orig, got) in tasks.iter().zip(back.iter()) {
        assert_eq!(orig.name, got.name);
        assert_eq!(orig.closed, got.closed);
    }
}

#[test]
fn round_trip_names_needing_escapes() {
    let tasks = sample(&[("say \"hi\"", false), ("back\\slash", true), ("\\\"", false)]);
    let text = encode_tasks(&tasks);
    let back = decode_tasks(&text).expect("canonical text must decode");
    assert_eq!(back.len(), 3);
    assert_eq!(back[0].name, "say \"hi\"");
    assert_eq!(back[1].name, "back\\slash");
    assert!(back[1].closed);
    assert_eq!(back[2].name, "\\\"");
}

#[test]
fn round_trip_non_ascii_name() {
    let tasks = sample(&[("café ☕", false)]);
    let text = encode_tasks(&tasks);
    let back = decode_tasks(&text).expect("canonical text must decode");
    assert_eq!(back[0].name, "café ☕");
}

#[test]
fn decode_escaped_name_directly() {
    let back = decode_tasks("[{\"name\":\"a\\\"b\",\"closed\":true}]").expect("valid");
    assert_eq!(back.len(), 1);
    assert_eq!(back[0].name, "a\"b");
    assert!(back[0].closed);
}

#[test]
fn decode_rejects_malformed_text() {
    for text in [
        "",
        "not json",
        "[",
        "]",
        "{}",
        "[{]",
        "[{\"name\":\"a\"}]",
        "[{\"name\":\"a\",\"closed\":maybe}]",
        "[{\"name\":\"a\",\"closed\":false}",
        "[{\"name\":\"a\",\"closed\":false}]trailing",
        "[{\"name\":\"a\",\"closed\":false},]",
        "[ ]",
        "[{\"name\": \"a\",\"closed\":false}]",
        "[{\"name\":\"a\\x\",\"closed\":false}]",
    ] {
        assert!(decode_tasks(text).is_none(), "should reject: {}", text);
    }
}

#[test]
fn load_starts_empty_on_missing_or_malformed() {
    assert_eq!(load_tasks(None).len(), 0);
    assert_eq!(load_tasks(Some("{broken")).len(), 0);
    assert_eq!(load_tasks(Some("")).len(), 0);
}

#[test]
fn load_returns_decoded_tasks() {
    let loaded = load_tasks(Some("[{\"name\":\"keep\",\"closed\":false}]"));
    assert_eq!(loaded.len(), 1);
    assert_eq!(loaded[0].name, "keep");
    assert!(!loaded[0].closed);
}

#[test]
fn encoded_text_is_json_serde_can_read() {
    let tasks = sample(&[("say \"hi\"", false), ("plain", true)]);
    let text = encode_tasks(&tasks);
    let value: serde_json::Value = serde_json::from_str(&text).expect("well-formed JSON");
    let arr = value.as_array().expect("an array");
    assert_eq!(arr.len(), 2);
    assert_eq!(arr[0]["name"].as_str().unwrap(), "say \"hi\"");
    assert_eq!(arr[0]["closed"].as_bool().unwrap(), false);
    assert_eq!(arr[1]["name"].as_str().unwrap(), "plain");
    assert_eq!(arr[1]["closed"].as_bool().unwrap(), true);
}
