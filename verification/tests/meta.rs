use gitclub::meta::{meta_description, meta_json, new_meta_json};

/// The metadata document as `serde_json` pretty-prints it.
fn reference(description: Option<&str>, created_at: &str) -> String {
    let mut m = serde_json::Map::new();
    m.insert(
        "description".to_string(),
        match description {
            Some(d) => serde_json::Value::String(d.to_string()),
            None => serde_json::Value::Null,
        },
    );
    m.insert("created_at".to_string(), serde_json::Value::String(created_at.to_string()));
    serde_json::to_string_pretty(&serde_json::Value::Object(m)).unwrap()
}

#[test]
fn metadata_text_matches_serde_json() {
    let t = "2024-05-01T10:00:00+00:00";
    for d in [None, Some(""), Some("A group"), Some("quote \" and \\ slash\nnew line\ttab"), Some("描述 ✓")] {
        assert_eq!(meta_json(d, t), reference(d, t), "description {:?}", d);
    }
}

#[test]
fn metadata_description_read_back() {
    let text = meta_json(Some("Team \"core\""), "now");
    assert_eq!(meta_description(Some(&text)), Some("Team \"core\"".to_string()));
    let text = meta_json(None, "now");
    assert_eq!(meta_description(Some(&text)), None);
    assert_eq!(meta_description(Some("not json")), None);
    assert_eq!(meta_description(Some("{\"description\": 5}")), None);
    assert_eq!(meta_description(Some("[1, 2]")), None);
    assert_eq!(meta_description(None), None);
}

#[test]
fn new_metadata_is_dated() {
    let text = new_meta_json(Some("x"));
    let v: serde_json::Value = serde_json::from_str(&text).unwrap();
    assert_eq!(v.get("description").and_then(|d| d.as_str()), Some("x"));
    assert!(v.get("created_at").and_then(|d| d.as_str()).unwrap().contains('T'));
}
