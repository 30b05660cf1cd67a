use todo_list::store::{decode, encode, load_from_text};
use todo_list::Task;

fn task(title: &str, completed: bool) -> Task {
    Task { title: title.to_string(), completed }
}

fn titles(v: &[Task]) -> Vec<String> {
    v.iter().map(|t| t.title.clone()).collect()
}

#[test]
fn encode_empty_list() {
    assert_eq!(encode(&Vec::new()), "[]");
}

#[test]
fn encode_one_task() {
    let v = vec![task("Buy milk", false)];
    assert_eq!(encode(&v), "[{\"title\":\"Buy milk\",\"completed\":false}]");
}

#[test]
fn encode_two_tasks() {
    let v = vec![task("a", true), task("b", false)];
    assert_eq!(
        encode(&v),
        "[{\"title\":\"a\",\"completed\":true},{\"title\":\"b\",\"completed\":false}]"
    );
}

#[test]
fn encode_escapes_quote_and_backslash() {
    let v = vec![task("a\"b\\c", false)];
    assert_eq!(encode(&v), "[{\"title\":\"a\\\"b\\\\c\",\"completed\":false}]");
}

#[test]
fn encode_escapes_control_characters() {
    let v = vec![task("a\nb\u{1f}", false)];
    assert_eq!(encode(&v), "[{\"title\":\"a\\u000ab\\u001f\",\"completed\":false}]");
}

#[test]
fn decode_empty_list() {
    let v = decode("[]").unwrap();
    assert_eq!(v.len(), 0);
}

#[test]
fn decode_one_task() {
    let v = decode("[{\"title\":\"Buy milk\",\"completed\":true}]").unwrap();
    assert_eq!(v.len(), 1);
    assert_eq!(v[0].title, "Buy milk");
    assert!(v[0].completed);
}

#[test]
fn decode_accepts_letter_escapes() {
    let v = decode("[{\"title\":\"a\\\"b\\\\c\\nd\\te\\rf\",\"completed\":false}]").unwrap();
    assert_eq!(v[0].title, "a\"b\\c\nd\te\rf");
}

#[test]
fn decode_accepts_hex_escapes() {
    let v = decode("[{\"title\":\"x\\u0007y\",\"completed\":false}]").unwrap();
    assert_eq!(v[0].title, "x\u{7}y");
}

#[test]
fn decode_rejects_malformed_text() {
    assert!(decode("").is_none());
    assert!(decode("{}").is_none());
    assert!(decode("[").is_none());
    assert!(decode("[]x").is_none());
    assert!(decode("[{\"title\":\"a\",\"completed\":false}").is_none());
    assert!(decode("[{\"title\":\"a\",\"completed\":false}]x").is_none());
    assert!(decode("[{\"completed\":false,\"title\":\"a\"}]").is_none());
    assert!(decode("[{\"title\":\"a\",\"completed\":maybe}]").is_none());
    assert!(decode("[{\"title\":\"a\nb\",\"completed\":false}]").is_none());
    assert!(decode("[{\"title\":\"a\\q\",\"completed\":false}]").is_none());
    assert!(decode("[,]").is_none());
}

#[test]
fn load_recovers_empty_list_from_malformed_text() {
    assert_eq!(load_from_text("not a list").len(), 0);
    assert_eq!(load_from_text("").len(), 0);
}

#[test]
fn load_reads_well_formed_text() {
    let v = load_from_text("[{\"title\":\"a\",\"completed\":false},{\"title\":\"b\",\"completed\":true}]");
    assert_eq!(titles(&v), vec!["a".to_string(), "b".to_string()]);
    assert!(!v[0].completed);
    assert!(v[1].completed);
}

#[test]
fn round_trip_preserves_every_field() {
    let v = vec![
        task("plain", false),
        task("with \"quotes\" and \\slashes\\", true),
        task("control\u{1}chars\ttoo\n", false),
        task("", true),
        task("unicode: äöü 日本語", false),
    ];
    let text = encode(&v);
    let back = decode(&text).unwrap();
    assert_eq!(back.len(), v.len());
    for (a, b) in v.iter().zip(back.iter()) {
        assert_eq!(a.title, b.title);
        assert_eq!(a.completed, b.completed);
    }
}

#[test]
fn round_trip_of_empty_title_and_empty_list() {
    let v = vec![task("", false)];
    assert_eq!(decode(&encode(&v)).unwrap()[0].title, "");
    assert_eq!(decode(&encode(&Vec::new())).unwrap().len(), 0);
}
