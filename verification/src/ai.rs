//! Questions to a chat model about which files are safe to delete.
//!
//! The library writes the request (or refuses when no API key is set) and
//! reads the reply; sending it over HTTPS is the application's part.
use vstd::prelude::*;
use crate::sizes::{quotient_one_decimal, quotient_text, MB};
use crate::text::{chars_of, decimal, decimal_text, push_char, push_decimal, string_of};

verus! {

/// One message of a chat exchange.
pub struct ChatMessage {
    pub role: String,
    pub content: String,
}

/// A chat completion request.
pub struct ChatRequest {
    pub model: String,
    pub messages: Vec<ChatMessage>,
}

/// One choice of a chat completion reply.
pub struct ChatChoice {
    pub message: ChatMessage,
}

/// The error a chat service reports.
pub struct ApiError {
    pub message: String,
}

/// A chat completion reply.
pub struct ChatResponse {
    pub choices: Option<Vec<ChatChoice>>,
    pub error: Option<ApiError>,
}

/// How many files a deletion suggestion lists at most.
pub const SUGGESTION_LIMIT: usize = 50;

/// The instruction that opens every exchange.
pub open spec fn system_text() -> Seq<char> {
    "You are a helpful assistant that advises on file safety for disk cleanup."@
}

/// The refusal when no API key is configured.
pub open spec fn missing_key_text() -> Seq<char> {
    "OpenAI API key not set. Add it in Settings."@
}

/// The question about one file.
pub open spec fn file_prompt(path: Seq<char>, size_bytes: nat) -> Seq<char> {
    "A user is considering deleting this file to free up disk space. Based only on the path and size, is this file likely important (system, app data, user documents) or safe to delete (cache, temp, downloads, etc)? Reply in 2-3 sentences. Be concise.\n\nFile: "@
        + path + "\nSize: "@ + quotient_text(size_bytes, MB as nat) + " MB"@
}

/// One line of the file list: the path and its size in MB.
pub open spec fn file_line(path: Seq<char>, size_bytes: nat) -> Seq<char> {
    path + " ("@ + quotient_text(size_bytes, MB as nat) + " MB)"@
}

/// The lines of the first `n` entries, joined by newlines.
pub open spec fn file_list(entries: Seq<(String, u64)>) -> Seq<char>
    decreases entries.len(),
{
    if entries.len() == 0 {
        Seq::empty()
    } else if entries.len() == 1 {
        file_line(entries[0].0@, entries[0].1 as nat)
    } else {
        file_list(entries.drop_last()) + "\n"@ + file_line(
            entries.last().0@,
            entries.last().1 as nat,
        )
    }
}

/// The question that asks which of the listed files to delete first.
pub open spec fn suggestion_prompt(entries: Seq<(String, u64)>) -> Seq<char> {
    "A user scanned their drive for large files. Suggest which of these are SAFEST to delete first (caches, temp, old downloads) vs which to KEEP (system, app data, documents). List 5-10 files that are safe to delete, with brief reason. Be concise.\n\nFiles:\n"@
        + file_list(
        if entries.len() <= SUGGESTION_LIMIT {
            entries
        } else {
            entries.take(SUGGESTION_LIMIT as int)
        },
    )
}

/// The request is for `model` and holds the system instruction followed by
/// the user's `content`.
pub open spec fn is_request(r: ChatRequest, model: Seq<char>, content: Seq<char>) -> bool {
    &&& r.model@ == model
    &&& r.messages@.len() == 2
    &&& r.messages@[0].role@ == "system"@
    &&& r.messages@[0].content@ == system_text()
    &&& r.messages@[1].role@ == "user"@
    &&& r.messages@[1].content@ == content
}

/// The request carrying `content`, or the refusal when no API key is set.
pub open spec fn request_outcome(
    r: Result<ChatRequest, String>,
    api_key: Seq<char>,
    model: Seq<char>,
    content: Seq<char>,
) -> bool {
    if api_key.len() == 0 {
        r matches Err(e) && e@ == missing_key_text()
    } else {
        r matches Ok(req) && is_request(req, model, content)
    }
}

/// The chat request for `content`; refused when no API key is set.
pub fn chat_request(api_key: &str, model: &str, content: &str) -> (r: Result<ChatRequest, String>)
    ensures
        request_outcome(r, api_key@, model@, content@),
{
    if api_key.is_empty() {
        return Err(string_of(chars_of("OpenAI API key not set. Add it in Settings.").as_slice()));
    }
    let system = ChatMessage {
        role: string_of(chars_of("system").as_slice()),
        content: string_of(
            chars_of(
                "You are a helpful assistant that advises on file safety for disk cleanup.",
            ).as_slice(),
        ),
    };
    let user = ChatMessage {
        role: string_of(chars_of("user").as_slice()),
        content: string_of(chars_of(content).as_slice()),
    };
    let mut messages: Vec<ChatMessage> = Vec::new();
    messages.push(system);
    messages.push(user);
    Ok(ChatRequest { model: string_of(chars_of(model).as_slice()), messages })
}

/// The question about one file, with its size in MB to one decimal.
pub fn file_question(path: &str, size_bytes: u64) -> (s: String)
    ensures
        s@ == file_prompt(path@, size_bytes as nat),
{
    let mut s = string_of(
        chars_of(
            "A user is considering deleting this file to free up disk space. Based only on the path and size, is this file likely important (system, app data, user documents) or safe to delete (cache, temp, downloads, etc)? Reply in 2-3 sentences. Be concise.\n\nFile: ",
        ).as_slice(),
    );
    s.append(path);
    s.append("\nSize: ");
    let mb = quotient_one_decimal(size_bytes, MB);
    s.append(mb.as_str());
    s.append(" MB");
    s
}

/// The request that asks the model about one file; refused when no API key
/// is set.
pub fn ask_about_file(api_key: &str, model: &str, path: &str, size_bytes: u64) -> (r: Result<
    ChatRequest,
    String,
>)
    ensures
        request_outcome(r, api_key@, model@, file_prompt(path@, size_bytes as nat)),
{
    let q = file_question(path, size_bytes);
    chat_request(api_key, model, q.as_str())
}

/// The list of the first 50 entries, one "path (size MB)" per line.
pub fn file_lines(entries: &[(String, u64)]) -> (s: String)
    ensures
        s@ == file_list(
            if entries@.len() <= SUGGESTION_LIMIT {
                entries@
            } else {
                entries@.take(SUGGESTION_LIMIT as int)
            },
        ),
{
    let n = if entries.len() <= SUGGESTION_LIMIT {
        entries.len()
    } else {
        SUGGESTION_LIMIT
    };
    let ghost shown = entries@.take(n as int);
    proof {
        assert(shown == if entries@.len() <= SUGGESTION_LIMIT {
            entries@
        } else {
            entries@.take(SUGGESTION_LIMIT as int)
        });
    }
    let mut s = String::new();
    let mut i: usize = 0;
    proof {
        assert(shown.take(0) == Seq::<(String, u64)>::empty());
    }
    while i < n
        invariant
            i <= n,
            n <= entries@.len(),
            shown == entries@.take(n as int),
            s@ == file_list(shown.take(i as int)),
        decreases n - i,
    {
        proof {
            assert(shown.take(i + 1).drop_last() == shown.take(i as int));
            assert(shown.take(i + 1).last() == entries@[i as int]);
            if i == 0 {
                assert(shown.take(1)[0] == entries@[0]);
            }
        }
        if i > 0 {
            s.append("\n");
        }
        let (ref path, size) = entries[i];
        s.append(path.as_str());
        s.append(" (");
        let mb = quotient_one_decimal(size, MB);
        s.append(mb.as_str());
        s.append(" MB)");
        i = i + 1;
    }
    proof {
        assert(shown.take(n as int) == shown);
    }
    s
}

/// The request that asks which of the files (the first 50 of them) are
/// safest to delete; refused when no API key is set.
pub fn suggest_deletions(api_key: &str, model: &str, entries: &[(String, u64)]) -> (r: Result<
    ChatRequest,
    String,
>)
    ensures
        request_outcome(r, api_key@, model@, suggestion_prompt(entries@)),
{
    let list = file_lines(entries);
    let mut q = string_of(
        chars_of(
            "A user scanned their drive for large files. Suggest which of these are SAFEST to delete first (caches, temp, old downloads) vs which to KEEP (system, app data, documents). List 5-10 files that are safe to delete, with brief reason. Be concise.\n\nFiles:\n",
        ).as_slice(),
    );
    q.append(list.as_str());
    chat_request(api_key, model, q.as_str())
}

// ---------------------------------------------------------------------------
// reading the reply

/// The standard reason phrase of an HTTP status code (from the `http` crate
/// that reqwest re-exports), if it has one.
pub uninterp spec fn canonical_reason(code: u16) -> Option<Seq<char>>;

/// Calls reqwest's `StatusCode::from_u16` and `canonical_reason`: the
/// standard reason phrase of a status code from 100 to 999, which depends on
/// the code alone.
#[verifier::external_body]
fn reason_phrase(code: u16) -> (r: Option<String>)
    requires
        100 <= code <= 999,
    ensures
        match r {
            Some(s) => canonical_reason(code) == Some(s@),
            None => canonical_reason(code) is None,
        },
{
    match reqwest::StatusCode::from_u16(code) {
        Ok(status) => status.canonical_reason().map(|t| t.to_string()),
        Err(_) => None,
    }
}

/// How a status code is written: the number, a space, and the reason
/// phrase (or "<unknown status code>").
pub open spec fn status_text(code: u16) -> Seq<char> {
    decimal(code as nat) + " "@ + match canonical_reason(code) {
        Some(t) => t,
        None => "<unknown status code>"@,
    }
}

/// The status code as the reply reports it, e.g. "200 OK".
pub fn status_line(code: u16) -> (s: String)
    requires
        100 <= code <= 999,
    ensures
        s@ == status_text(code),
{
    let mut s = decimal_text(code as u128);
    s.append(" ");
    match reason_phrase(code) {
        Some(t) => s.append(t.as_str()),
        None => s.append("<unknown status code>"),
    }
    s
}

/// What a reply means: the service's error, else the first choice's text,
/// else a report of the unexpected reply with its status.
pub open spec fn reply_outcome(code: u16, body: ChatResponse) -> Result<Seq<char>, Seq<char>> {
    match body.error {
        Some(e) => Err(e.message@),
        None => match body.choices {
            Some(c) => if c@.len() > 0 {
                Ok(c@[0].message.content@)
            } else {
                Err("Unexpected API response: "@ + status_text(code))
            },
            None => Err("Unexpected API response: "@ + status_text(code)),
        },
    }
}

/// The text of a reply, or the error it stands for.
pub fn read_reply(code: u16, body: ChatResponse) -> (r: Result<String, String>)
    requires
        100 <= code <= 999,
    ensures
        match (r, reply_outcome(code, body)) {
            (Ok(s), Ok(t)) => s@ == t,
            (Err(s), Err(t)) => s@ == t,
            _ => false,
        },
{
    if let Some(e) = body.error {
        return Err(e.message);
    }
    let unexpected = {
        let mut m = string_of(chars_of("Unexpected API response: ").as_slice());
        let st = status_line(code);
        m.append(st.as_str());
        m
    };
    match body.choices {
        Some(c) => {
            let mut c = c;
            if c.len() > 0 {
                let first = c.swap_remove(0);
                Ok(first.message.content)
            } else {
                Err(unexpected)
            }
        },
        None => Err(unexpected),
    }
}

/// The answer to a question: the reply's text with surrounding whitespace
/// removed, or the error the reply stands for.
pub fn answer_text(code: u16, body: ChatResponse) -> (r: Result<String, String>)
    requires
        100 <= code <= 999,
    ensures
        match (r, reply_outcome(code, body)) {
            (Ok(s), Ok(t)) => s@ == crate::text::trimmed(t),
            (Err(s), Err(t)) => s@ == t,
            _ => false,
        },
{
    match read_reply(code, body) {
        Ok(text) => Ok(crate::text::trim(text.as_str())),
        Err(e) => Err(e),
    }
}

} // verus!
