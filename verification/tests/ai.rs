use storage_cleaner::ai::{
    answer_text, ask_about_file, chat_request, file_lines, file_question, read_reply, status_line,
    suggest_deletions, ApiError, ChatChoice, ChatMessage, ChatResponse, SUGGESTION_LIMIT,
};

const SYSTEM: &str = "You are a helpful assistant that advises on file safety for disk cleanup.";
const NO_KEY: &str = "OpenAI API key not set. Add it in Settings.";

fn reply(choices: Option<Vec<&str>>, error: Option<&str>) -> ChatResponse {
    ChatResponse {
        choices: choices.map(|v| {
            v.into_iter()
                .map(|c| ChatChoice { message: ChatMessage { role: "assistant".to_string(), content: c.to_string() } })
                .collect()
        }),
        error: error.map(|m| ApiError { message: m.to_string() }),
    }
}

#[test]
fn request_needs_a_key() {
    match chat_request("", "gpt-5-nano", "hi") {
        Err(e) => assert_eq!(e, NO_KEY),
        Ok(_) => panic!("a request without a key"),
    }
}

#[test]
fn request_carries_model_and_messages() {
    let r = chat_request("sk-1", "gpt-x", "hello").unwrap();
    assert_eq!(r.model, "gpt-x");
    assert_eq!(r.messages.len(), 2);
    assert_eq!(r.messages[0].role, "system");
    assert_eq!(r.messages[0].content, SYSTEM);
    assert_eq!(r.messages[1].role, "user");
    assert_eq!(r.messages[1].content, "hello");
}

#[test]
fn question_about_one_file() {
    let q = file_question("C:\\dl\\big.iso", 3 * 1024 * 1024 / 2);
    assert!(q.starts_with("A user is considering deleting this file to free up disk space."));
    assert!(q.ends_with("\n\nFile: C:\\dl\\big.iso\nSize: 1.5 MB"));
    let r = ask_about_file("k", "m", "C:\\dl\\big.iso", 3 * 1024 * 1024 / 2).unwrap();
    assert_eq!(r.messages[1].content, q);
    assert!(ask_about_file("", "m", "x", 1).is_err());
}

#[test]
fn file_list_lines() {
    let entries = vec![("a.bin".to_string(), 1048576u64), ("b.bin".to_string(), 0u64)];
    assert_eq!(file_lines(&entries), "a.bin (1.0 MB)\nb.bin (0.0 MB)");
    assert_eq!(file_lines(&[]), "");
}

#[test]
fn suggestions_list_at_most_fifty() {
    let entries: Vec<(String, u64)> = (0..60).map(|i| (format!("f{}", i), 1048576 * i)).collect();
    let r = suggest_deletions("k", "m", &entries).unwrap();
    let content = &r.messages[1].content;
    assert!(content.starts_with("A user scanned their drive for large files."));
    let list = content.split("Files:\n").nth(1).unwrap();
    assert_eq!(list.lines().count(), SUGGESTION_LIMIT);
    assert_eq!(list.lines().next(), Some("f0 (0.0 MB)"));
    assert_eq!(list.lines().last(), Some("f49 (49.0 MB)"));
    match suggest_deletions("", "m", &entries) {
        Err(e) => assert_eq!(e, NO_KEY),
        Ok(_) => panic!("a request without a key"),
    }
}

#[test]
fn status_lines() {
    assert_eq!(status_line(200), "200 OK");
    assert_eq!(status_line(404), "404 Not Found");
    assert_eq!(status_line(429), "429 Too Many Requests");
    assert_eq!(status_line(599), "599 <unknown status code>");
}

#[test]
fn reply_error_wins() {
    let r = read_reply(401, reply(Some(vec!["x"]), Some("Invalid API key")));
    assert_eq!(r, Err("Invalid API key".to_string()));
}

#[test]
fn reply_first_choice() {
    let r = read_reply(200, reply(Some(vec!["first", "second"]), None));
    assert_eq!(r, Ok("first".to_string()));
}

#[test]
fn reply_unexpected_shapes() {
    assert_eq!(read_reply(500, reply(None, None)), Err("Unexpected API response: 500 Internal Server Error".to_string()));
    assert_eq!(read_reply(200, reply(Some(vec![]), None)), Err("Unexpected API response: 200 OK".to_string()));
}

#[test]
fn answers_are_trimmed() {
    let r = answer_text(200, reply(Some(vec!["  \n Safe to delete.\t\n"]), None));
    assert_eq!(r, Ok("Safe to delete.".to_string()));
    assert_eq!(answer_text(200, reply(None, Some("quota"))), Err("quota".to_string()));
}
