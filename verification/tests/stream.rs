use serde_json::Value;
use vim_miner::miner::huggingface::{
    build_prompt, HuggingFaceClient, Message, Method, CHANNEL_CAPACITY, MAX_TOKENS,
};
use vim_miner::miner::response::{describe_failure, failure_message, is_success};
use vim_miner::miner::stream::{
    chunk_payloads, forwarded_texts, line_payload, split_lines, StreamOutput, Token,
};

fn message(role: &str, content: &str) -> Message {
    Message { role: role.to_string(), content: content.to_string() }
}

fn output(text: &str, special: bool) -> Option<StreamOutput> {
    Some(StreamOutput { token: Token { text: text.to_string(), special } })
}

fn chunk(text: &str) -> Option<Vec<u8>> {
    Some(text.as_bytes().to_vec())
}

#[test]
fn a_prompt_opens_the_answer() {
    assert_eq!(build_prompt(&vec![]), "<|im_end|><|im_start|>assistant\n");
    let one = vec![message("user", "hi")];
    assert_eq!(
        build_prompt(&one),
        "<|im_start|>user\nhi<|im_end|><|im_end|><|im_start|>assistant\n"
    );
    let two = vec![message("system", "be brief"), message("user", "hi")];
    assert_eq!(
        build_prompt(&two),
        "<|im_start|>system\nbe brief<|im_end|>\n<|im_start|>user\nhi<|im_end|>\
         <|im_end|><|im_start|>assistant\n"
    );
}

#[test]
fn a_request_carries_the_key_and_the_prompt() {
    let client = HuggingFaceClient::new("https://host/generate".to_string(), "key".to_string());
    let request = client.stream_completion(&vec![message("user", "say \"hi\"")]);
    assert_eq!(request.method, Method::Post);
    assert_eq!(request.url, "https://host/generate");
    assert_eq!(
        request.headers,
        vec![
            ("Authorization".to_string(), "Bearer key".to_string()),
            ("Content-Type".to_string(), "application/json".to_string()),
        ]
    );
    assert_eq!(request.body.len(), 3);
    let inputs = "<|im_start|>user\nsay \"hi\"<|im_end|><|im_end|><|im_start|>assistant\n";
    assert_eq!(request.body["inputs"], Value::String(inputs.to_string()));
    assert_eq!(request.body["stream"], Value::Bool(true));
    assert_eq!(request.body["max_tokens"], Value::from(2048));
    assert_eq!(MAX_TOKENS, 2048);
    assert_eq!(CHANNEL_CAPACITY, 100);
}

#[test]
fn success_is_a_status_in_the_two_hundreds() {
    assert!(!is_success(199));
    assert!(is_success(200));
    assert!(is_success(299));
    assert!(!is_success(300));
    assert!(!is_success(404));
}

#[test]
fn a_failure_quotes_the_body() {
    assert_eq!(failure_message("\"x\""), "error streaming completion: \"x\"");
    assert_eq!(
        describe_failure("{\"error\":\"busy\"}\n"),
        "error streaming completion: \"{\\\"error\\\":\\\"busy\\\"}\\n\""
    );
    assert_eq!(describe_failure(""), "error streaming completion: \"\"");
}

#[test]
fn lines_end_with_a_line_break() {
    for text in vec!["", "a", "a\n", "a\n\nb", "\n", "a\r\nb\r", "\r\n", "a\rb\n", "\r\r\n", "ä\n€"] {
        let expected: Vec<String> = text.lines().map(|line| line.to_string()).collect();
        assert_eq!(split_lines(text), expected);
    }
    assert_eq!(split_lines("a\r\nb\r"), vec!["a".to_string(), "b\r".to_string()]);
}

#[test]
fn a_data_line_loses_its_marks() {
    assert_eq!(line_payload("data:{}"), Some("{}".to_string()));
    assert_eq!(line_payload("data: {}"), Some(" {}".to_string()));
    assert_eq!(line_payload("data:"), Some("".to_string()));
    assert_eq!(line_payload("data:data:x"), Some("x".to_string()));
    assert_eq!(line_payload("data:data"), Some("data".to_string()));
    assert_eq!(line_payload(" data:x"), None);
    assert_eq!(line_payload("data"), None);
    assert_eq!(line_payload("event: ping"), None);
    assert_eq!(line_payload(""), None);
}

#[test]
fn a_chunk_brings_the_payloads_of_its_data_lines() {
    let text = "event: token\ndata:{\"a\":1}\r\n\ndata:{\"b\":\"ä\"}\n:comment\ndata:";
    assert_eq!(
        chunk_payloads(chunk(text)),
        vec!["{\"a\":1}".to_string(), "{\"b\":\"ä\"}".to_string(), "".to_string()]
    );
}

#[test]
fn a_chunk_that_is_no_text_brings_nothing() {
    assert!(chunk_payloads(None).is_empty());
    assert!(chunk_payloads(Some(vec![])).is_empty());
    let mut bytes = b"data:x\n".to_vec();
    bytes.push(0xff);
    assert!(chunk_payloads(Some(bytes)).is_empty());
}

#[test]
fn chunks_cut_at_a_line_break_bring_the_same() {
    let first = "data:1\n\ndata:2\n";
    let second = "data:3\ndata:4";
    let mut apart = chunk_payloads(chunk(first));
    apart.extend(chunk_payloads(chunk(second)));
    assert_eq!(chunk_payloads(chunk(&format!("{}{}", first, second))), apart);
    assert_eq!(apart.len(), 4);
}

#[test]
fn a_line_cut_in_two_is_two_lines() {
    assert_eq!(chunk_payloads(chunk("data:{\"a\"")), vec!["{\"a\"".to_string()]);
    assert!(chunk_payloads(chunk(":1}\n")).is_empty());
}

#[test]
fn events_are_read_back() {
    let sent = vec!["{\"x\":1}".to_string(), "".to_string(), " y".to_string()];
    let mut text = String::new();
    for payload in &sent {
        text.push_str(&format!("data:{}\n\n", payload));
    }
    assert_eq!(chunk_payloads(chunk(&text)), sent);
}

#[test]
fn special_tokens_and_unreadable_events_are_left_out() {
    let outputs = vec![
        output("Hel", false),
        None,
        output("</s>", true),
        output("lo", false),
        output("", false),
    ];
    assert_eq!(
        forwarded_texts(outputs),
        vec!["Hel".to_string(), "lo".to_string(), "".to_string()]
    );
    assert!(forwarded_texts(vec![]).is_empty());
}

/// Reads `+text` as a token, `-text` as a special one, and nothing else.
fn read(payload: &str) -> Option<StreamOutput> {
    match payload.chars().next() {
        Some('+') => output(&payload[1..], false),
        Some('-') => output(&payload[1..], true),
        _ => None,
    }
}

fn texts_of(chunks: Vec<Option<Vec<u8>>>) -> Vec<String> {
    let mut texts = Vec::new();
    for chunk in chunks {
        let outputs = chunk_payloads(chunk).iter().map(|payload| read(payload)).collect();
        texts.extend(forwarded_texts(outputs));
    }
    texts
}

#[test]
fn a_stream_adds_up_the_texts_of_its_chunks() {
    let xs = || vec![chunk("data:+Hel\n\ndata:-</s>\n"), None, chunk("ping\ndata:?\ndata:+lo")];
    let ys = || vec![Some(vec![0xff]), chunk("data:+ world\r\n\r\n")];
    let mut all = xs();
    all.extend(ys());
    let mut apart = texts_of(xs());
    apart.extend(texts_of(ys()));
    assert_eq!(texts_of(all), apart);
    assert_eq!(apart, vec!["Hel".to_string(), "lo".to_string(), " world".to_string()]);
    assert!(texts_of(vec![]).is_empty());
}

#[test]
fn a_token_cut_in_two_is_not_put_together() {
    assert_eq!(texts_of(vec![chunk("data:+ab\n")]), vec!["ab".to_string()]);
    assert_eq!(texts_of(vec![chunk("data:+a"), chunk("b\n")]), vec!["a".to_string()]);
    assert!(texts_of(vec![chunk("dat"), chunk("a:+ab\n")]).is_empty());
}
