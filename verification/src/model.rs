//! The data model of the chat-completion exchange: requests, messages,
//! responses, and the error taxonomy of a single call.

use vstd::prelude::*;
use vstd::string::StringExecFns;
use crate::json::{hex_char, is_json_number};
use crate::chars::string_from_chars;

verus! {

/// Model of a chat message: a role and a content string.
pub struct MessageV {
    pub role: Seq<char>,
    pub content: Seq<char>,
}

/// One role-tagged message of a conversation.
pub struct ChatMessage {
    pub role: String,
    pub content: String,
}

impl View for ChatMessage {
    type V = MessageV;

    open spec fn view(&self) -> MessageV {
        MessageV { role: self.role@, content: self.content@ }
    }
}

/// Model of one returned choice.
pub struct ChoiceV {
    pub message: MessageV,
}

/// One choice of a chat-completion response.
pub struct ChatChoice {
    pub message: ChatMessage,
}

impl View for ChatChoice {
    type V = ChoiceV;

    open spec fn view(&self) -> ChoiceV {
        ChoiceV { message: self.message@ }
    }
}

/// The models of a sequence of choices, in order.
pub open spec fn choices_view(s: Seq<ChatChoice>) -> Seq<ChoiceV>
    decreases s.len(),
{
    if s.len() == 0 {
        Seq::empty()
    } else {
        choices_view(s.drop_last()).push(s.last()@)
    }
}

/// `choices_view` maps the sequence pointwise.
pub proof fn choices_view_props(s: Seq<ChatChoice>)
    ensures
        choices_view(s).len() == s.len(),
        forall|k: int| 0 <= k < s.len() ==> choices_view(s)[k] == #[trigger] s[k]@,
    decreases s.len(),
{
    if s.len() > 0 {
        choices_view_props(s.drop_last());
        assert forall|k: int| 0 <= k < s.len() implies choices_view(s)[k] == #[trigger] s[k]@ by {
            if k < s.len() - 1 {
                assert(s.drop_last()[k] == s[k]);
                assert(choices_view(s.drop_last())[k] == s.drop_last()[k]@);
            }
        }
    }
}

/// Model of a response: its choices, in order.
pub struct ResponseV {
    pub choices: Seq<ChoiceV>,
}

/// A chat-completion response: the returned choices, in order.
pub struct ChatResponse {
    pub choices: Vec<ChatChoice>,
}

impl View for ChatResponse {
    type V = ResponseV;

    open spec fn view(&self) -> ResponseV {
        ResponseV { choices: choices_view(self.choices@) }
    }
}

/// The literal text of a JSON number, held as written.
pub struct JsonNumber {
    text: String,
}

impl View for JsonNumber {
    type V = Seq<char>;

    closed spec fn view(&self) -> Seq<char> {
        self.text@
    }
}

impl JsonNumber {
    /// The held text is one well-formed JSON number.
    #[verifier::type_invariant]
    pub closed spec fn inv(&self) -> bool {
        is_json_number(self.text@)
    }

    /// Accepts `s` exactly when it is a well-formed JSON number; rejecting
    /// anything else is the serialization error of the request builder.
    pub fn from_text(s: &str) -> (r: Result<JsonNumber, ChatError>)
        ensures
            match r {
                Ok(n) => is_json_number(s@) && n@ == s@,
                Err(e) => !is_json_number(s@) && e is Serialization,
            },
    {
        if crate::json::check_json_number(s) {
            Ok(JsonNumber { text: s.to_owned() })
        } else {
            Err(ChatError::Serialization)
        }
    }

    /// The number's text.
    pub fn text(&self) -> (r: &str)
        ensures
            r@ == self@,
    {
        self.text.as_str()
    }
}

/// A chat-completion request to be forwarded.
pub struct ChatRequest {
    /// Base URL of the endpoint, without a trailing slash.
    pub base_url: String,
    /// Bearer token; `None` and the empty string both mean "absent".
    pub api_key: Option<String>,
    pub model: String,
    pub messages: Vec<ChatMessage>,
    /// The temperature as JSON number text (a non-finite value has none).
    pub temperature: JsonNumber,
    pub max_tokens: u32,
}

/// Model of a request.
pub struct RequestV {
    pub base_url: Seq<char>,
    pub api_key: Option<Seq<char>>,
    pub model: Seq<char>,
    pub messages: Seq<MessageV>,
    pub temperature: Seq<char>,
    pub max_tokens: u32,
}

/// The models of a sequence of messages, in order.
pub open spec fn messages_view(s: Seq<ChatMessage>) -> Seq<MessageV>
    decreases s.len(),
{
    if s.len() == 0 {
        Seq::empty()
    } else {
        messages_view(s.drop_last()).push(s.last()@)
    }
}

/// `messages_view` maps the sequence pointwise.
pub proof fn messages_view_props(s: Seq<ChatMessage>)
    ensures
        messages_view(s).len() == s.len(),
        forall|k: int| 0 <= k < s.len() ==> messages_view(s)[k] == #[trigger] s[k]@,
    decreases s.len(),
{
    if s.len() > 0 {
        messages_view_props(s.drop_last());
        assert forall|k: int| 0 <= k < s.len() implies messages_view(s)[k] == #[trigger] s[k]@ by {
            if k < s.len() - 1 {
                assert(s.drop_last()[k] == s[k]);
                assert(messages_view(s.drop_last())[k] == s.drop_last()[k]@);
            }
        }
    }
}

/// The model of an optional key.
pub open spec fn key_view(k: Option<String>) -> Option<Seq<char>> {
    match k {
        Some(s) => Some(s@),
        None => None,
    }
}

impl View for ChatRequest {
    type V = RequestV;

    open spec fn view(&self) -> RequestV {
        RequestV {
            base_url: self.base_url@,
            api_key: key_view(self.api_key),
            model: self.model@,
            messages: messages_view(self.messages@),
            temperature: self.temperature@,
            max_tokens: self.max_tokens,
        }
    }
}

/// What went wrong with one call.  Every error is terminal for the call;
/// nothing is retried.
#[derive(Debug)]
pub enum ChatError {
    /// The authorization token holds a character that cannot stand in an
    /// HTTP header value.
    Header,
    /// A request field cannot be written as JSON (a temperature that is
    /// not a finite number).
    Serialization,
    /// The endpoint could not be reached; the transport's own description.
    /// Built by the surrounding I/O code, never by the library.
    Transport(String),
    /// The endpoint answered with a non-success status: the status and the
    /// response body text.
    Upstream(u16, String),
    /// The endpoint answered with a success status but the body was not a
    /// well-formed response.
    Parse,
}

/// Decimal representation of `n`, most significant digit first.
pub open spec fn dec_rep(n: nat) -> Seq<char>
    decreases n,
{
    if n < 10 {
        seq![hex_char(n as int)]
    } else {
        dec_rep(n / 10).push(hex_char((n % 10) as int))
    }
}

/// Appends the decimal representation of `n`.
pub fn push_dec(out: &mut Vec<char>, n: u32)
    ensures
        final(out)@ == old(out)@ + dec_rep(n as nat),
    decreases n,
{
    if n < 10 {
        let c = if n == 0 { '0' } else if n == 1 { '1' } else if n == 2 { '2' }
            else if n == 3 { '3' } else if n == 4 { '4' } else if n == 5 { '5' }
            else if n == 6 { '6' } else if n == 7 { '7' } else if n == 8 { '8' }
            else { '9' };
        out.push(c);
    } else {
        push_dec(out, n / 10);
        let d = n % 10;
        let c = if d == 0 { '0' } else if d == 1 { '1' } else if d == 2 { '2' }
            else if d == 3 { '3' } else if d == 4 { '4' } else if d == 5 { '5' }
            else if d == 6 { '6' } else if d == 7 { '7' } else if d == 8 { '8' }
            else { '9' };
        out.push(c);
        proof {
            assert(out@ =~= old(out)@ + dec_rep(n as nat));
        }
    }
}

/// The decimal digits of `n` as a string.
pub fn dec_string(n: u32) -> (r: String)
    ensures
        r@ == dec_rep(n as nat),
{
    let mut out: Vec<char> = Vec::new();
    push_dec(&mut out, n);
    string_from_chars(&out)
}

impl ChatError {
    /// The descriptive text of the error.
    pub open spec fn spec_message(&self) -> Seq<char> {
        match self {
            ChatError::Header => "Invalid authorization header value"@,
            ChatError::Serialization => "Temperature is not a finite JSON number"@,
            ChatError::Transport(m) => "HTTP request failed: "@ + m@,
            ChatError::Upstream(st, b) => "LLM API error "@ + dec_rep(*st as nat) + ": "@ + b@,
            ChatError::Parse => "Failed to parse response"@,
        }
    }

    /// Renders the error as descriptive text.
    pub fn message(&self) -> (r: String)
        ensures
            r@ == self.spec_message(),
    {
        match self {
            ChatError::Header => "Invalid authorization header value".to_owned(),
            ChatError::Serialization => "Temperature is not a finite JSON number".to_owned(),
            ChatError::Transport(m) => {
                let mut r = "HTTP request failed: ".to_owned();
                r.append(m.as_str());
                r
            }
            ChatError::Upstream(st, b) => {
                let mut r = "LLM API error ".to_owned();
                let digits = dec_string(*st as u32);
                r.append(digits.as_str());
                r.append(": ");
                r.append(b.as_str());
                r
            }
            ChatError::Parse => "Failed to parse response".to_owned(),
        }
    }
}

} // verus!
