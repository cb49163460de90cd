//! The request that asks a Hugging Face endpoint to go on with a conversation.

use vstd::prelude::*;
use vstd::string::*;

use crate::miner::json::{
    insert_flag, insert_number, insert_text, members, new_object, Member,
};

verus! {

/// The most tokens that an answer may have.
pub const MAX_TOKENS: u64 = 2048;

/// How many texts of an answer may wait to be read.
pub const CHANNEL_CAPACITY: usize = 100;

/// One message of a conversation.
#[derive(Debug)]
pub struct Message {
    pub role: String,
    pub content: String,
}

/// A message as it stands in a prompt.
pub open spec fn turn(message: Message) -> Seq<char> {
    "<|im_start|>"@ + message.role@ + "\n"@ + message.content@ + "<|im_end|>"@
}

/// The messages of a conversation, each on lines of its own.
pub open spec fn turns(messages: Seq<Message>) -> Seq<char>
    decreases messages.len(),
{
    if messages.len() == 0 {
        Seq::empty()
    } else if messages.len() == 1 {
        turn(messages[0])
    } else {
        turns(messages.drop_last()) + "\n"@ + turn(messages.last())
    }
}

/// The prompt for a conversation: its messages, and the opening of the assistant's.
pub open spec fn prompt(messages: Seq<Message>) -> Seq<char> {
    turns(messages) + "<|im_end|>"@ + "<|im_start|>assistant\n"@
}

/// The members of the body of a request.
pub open spec fn request_members(inputs: Seq<char>) -> Map<Seq<char>, Member> {
    map![
        "inputs"@ => Member::Text(inputs),
        "stream"@ => Member::Flag(true),
        "max_tokens"@ => Member::Number(MAX_TOKENS),
    ]
}

/// The prompt for a conversation.
pub fn build_prompt(messages: &Vec<Message>) -> (r: String)
    ensures
        r@ == prompt(messages@),
{
    let mut r = String::new();
    for i in 0..messages.len()
        invariant
            r@ == turns(messages@.take(i as int)),
    {
        proof {
            let seen = messages@.take(i + 1);
            assert(seen.drop_last() == messages@.take(i as int));
            assert(seen.last() == messages@[i as int]);
        }
        if i > 0 {
            r.append("\n");
        }
        r.append("<|im_start|>");
        r.append(messages[i].role.as_str());
        r.append("\n");
        r.append(messages[i].content.as_str());
        r.append("<|im_end|>");
        assert(r@ == turns(messages@.take(i + 1)));
    }
    assert(messages@.take(messages@.len() as int) == messages@);
    r.append("<|im_end|>");
    r.append("<|im_start|>assistant\n");
    r
}

/// What a request asks of the endpoint.
#[derive(Clone, Copy, Debug, PartialEq, Eq, Structural)]
pub enum Method {
    Get,
    Post,
}

/// A request to the endpoint.
#[derive(Debug)]
pub struct CompletionRequest {
    pub method: Method,
    pub url: String,
    /// The headers, as pairs of name and value.
    pub headers: Vec<(String, String)>,
    /// The members of the JSON object in the body.
    pub body: serde_json::Map<String, serde_json::Value>,
}

/// An endpoint, and the key that it is used with.
pub struct HuggingFaceClient {
    endpoint: String,
    api_key: String,
}

impl HuggingFaceClient {
    /// The address of the endpoint.
    pub closed spec fn spec_endpoint(&self) -> Seq<char> {
        self.endpoint@
    }

    /// The key that requests carry.
    pub closed spec fn spec_api_key(&self) -> Seq<char> {
        self.api_key@
    }

    /// A client of the endpoint at `endpoint`.
    pub fn new(endpoint: String, api_key: String) -> (r: Self)
        ensures
            r.spec_endpoint() == endpoint@,
            r.spec_api_key() == api_key@,
    {
        HuggingFaceClient { endpoint, api_key }
    }

    /// The request that has the endpoint go on with the conversation, streaming its answer.
    pub fn stream_completion(&self, messages: &Vec<Message>) -> (r: CompletionRequest)
        ensures
            r.method == Method::Post,
            r.url@ == self.spec_endpoint(),
            r.headers@.len() == 2,
            r.headers@[0].0@ == "Authorization"@,
            r.headers@[0].1@ == "Bearer "@ + self.spec_api_key(),
            r.headers@[1].0@ == "Content-Type"@,
            r.headers@[1].1@ == "application/json"@,
            members(r.body) == request_members(prompt(messages@)),
    {
        let inputs = build_prompt(messages);
        let mut body = new_object();
        insert_text(&mut body, "inputs", inputs.as_str());
        insert_flag(&mut body, "stream", true);
        insert_number(&mut body, "max_tokens", MAX_TOKENS);

        let mut authorization = String::from_str("Bearer ");
        authorization.append(self.api_key.as_str());
        let mut headers: Vec<(String, String)> = Vec::new();
        headers.push((String::from_str("Authorization"), authorization));
        headers.push((String::from_str("Content-Type"), String::from_str("application/json")));

        CompletionRequest { method: Method::Post, url: self.endpoint.clone(), headers, body }
    }
}

} // verus!
