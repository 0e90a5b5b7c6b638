use asset_describer::request::{
    attempt_wait, bearer, compose_body, compose_data_url, data_url, endpoint_url, request_body,
};

#[test]
fn endpoint_url_appends_the_chat_path() {
    assert_eq!(endpoint_url("http://gpu-1:8080"), "http://gpu-1:8080/v1/chat/completions");
}

#[test]
fn endpoint_url_drops_trailing_slashes_first() {
    assert_eq!(endpoint_url("http://gpu-1:8080/"), "http://gpu-1:8080/v1/chat/completions");
    assert_eq!(endpoint_url("http://gpu-1:8080//"), "http://gpu-1:8080/v1/chat/completions");
}

#[test]
fn bearer_prefixes_the_key() {
    assert_eq!(bearer("s3cr3t"), "Bearer s3cr3t");
    assert_eq!(bearer(""), "Bearer ");
}

#[test]
fn data_url_carries_the_image_in_base64() {
    assert_eq!(data_url(b"hello"), "data:image/jpeg;base64,aGVsbG8=");
    assert_eq!(data_url(b"hi"), "data:image/jpeg;base64,aGk=");
    assert_eq!(data_url(&[0xfb, 0xff, 0xfe]), "data:image/jpeg;base64,+//+");
    assert_eq!(data_url(b""), "data:image/jpeg;base64,");
}

#[test]
fn attempt_wait_adds_one_unit() {
    assert_eq!(attempt_wait(0), 1);
    assert_eq!(attempt_wait(30), 31);
}

#[test]
fn attempt_wait_saturates() {
    assert_eq!(attempt_wait(u64::MAX), u64::MAX);
    assert_eq!(attempt_wait(u64::MAX - 1), u64::MAX);
}

#[test]
fn request_body_has_the_documented_shape() {
    let body = request_body("llava", "Describe it", b"hi");
    assert_eq!(
        body,
        "{\"messages\":[{\"content\":[{\"text\":\"Describe it\",\"type\":\"text\"},\
         {\"image_url\":{\"url\":\"data:image/jpeg;base64,aGk=\"},\"type\":\"image_url\"}],\
         \"role\":\"user\"}],\"model\":\"llava\",\"stream\":false}"
    );
}

#[test]
fn request_body_escapes_prompt_and_model() {
    let body = request_body("mo\"del", "line one\nsay \"hi\" \\ \u{1}", b"hi");
    assert_eq!(
        body,
        "{\"messages\":[{\"content\":[{\"text\":\"line one\\nsay \\\"hi\\\" \\\\ \\u0001\",\"type\":\"text\"},\
         {\"image_url\":{\"url\":\"data:image/jpeg;base64,aGk=\"},\"type\":\"image_url\"}],\
         \"role\":\"user\"}],\"model\":\"mo\\\"del\",\"stream\":false}"
    );
}

#[test]
fn request_body_is_the_serialized_document() {
    let prompt = "What is in this picture? \u{1f600} \"quoted\"";
    let body = request_body("vision-7b", prompt, &[1, 2, 3, 4]);

    let mut text_part = serde_json::Map::new();
    text_part.insert("type".to_string(), serde_json::Value::String("text".to_string()));
    text_part.insert("text".to_string(), serde_json::Value::String(prompt.to_string()));
    let mut image_url = serde_json::Map::new();
    image_url.insert(
        "url".to_string(),
        serde_json::Value::String("data:image/jpeg;base64,AQIDBA==".to_string()),
    );
    let mut image_part = serde_json::Map::new();
    image_part.insert("type".to_string(), serde_json::Value::String("image_url".to_string()));
    image_part.insert("image_url".to_string(), serde_json::Value::Object(image_url));
    let mut message = serde_json::Map::new();
    message.insert("role".to_string(), serde_json::Value::String("user".to_string()));
    message.insert(
        "content".to_string(),
        serde_json::Value::Array(vec![
            serde_json::Value::Object(text_part),
            serde_json::Value::Object(image_part),
        ]),
    );
    let mut root = serde_json::Map::new();
    root.insert("model".to_string(), serde_json::Value::String("vision-7b".to_string()));
    root.insert(
        "messages".to_string(),
        serde_json::Value::Array(vec![serde_json::Value::Object(message)]),
    );
    root.insert("stream".to_string(), serde_json::Value::Bool(false));
    let expected = serde_json::Value::Object(root);

    assert_eq!(body, serde_json::to_string(&expected).unwrap());
    assert_eq!(serde_json::from_str::<serde_json::Value>(&body).unwrap(), expected);
}

#[test]
fn compose_data_url_prefixes_the_encoding() {
    assert_eq!(compose_data_url("QUJD"), "data:image/jpeg;base64,QUJD");
    assert_eq!(compose_data_url(""), "data:image/jpeg;base64,");
}

#[test]
fn compose_body_places_the_three_literals() {
    assert_eq!(
        compose_body("\"M\"", "\"P\"", "\"U\""),
        "{\"messages\":[{\"content\":[{\"text\":\"P\",\"type\":\"text\"},\
         {\"image_url\":{\"url\":\"U\"},\"type\":\"image_url\"}],\
         \"role\":\"user\"}],\"model\":\"M\",\"stream\":false}"
    );
}
