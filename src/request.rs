//! Requests to the service: the records that each endpoint takes, and the descriptor of one
//! call (where it goes, what it sends, and whether its answer streams).

use vstd::prelude::*;

use crate::json::{
    array_of, array_text, json_quoted, object_text, string_array_of, string_array_text,
    ObjectWriter,
};
use crate::message::{message_text, texts, ChatMessage, MessageModel};

verus! {

/// The address of the service where none is given.
pub const DEFAULT_URL: &'static str = "http://localhost:11434";

/// The text of a JSON boolean.
pub open spec fn bool_text(b: bool) -> Seq<char> {
    if b {
        "true"@
    } else {
        "false"@
    }
}

/// `ms` with the string member `key` added where `value` is present.
pub open spec fn with_string(
    ms: Seq<(Seq<char>, Seq<char>)>,
    key: Seq<char>,
    value: Option<String>,
) -> Seq<(Seq<char>, Seq<char>)> {
    match value {
        Some(v) => ms.push((key, json_quoted(v@))),
        None => ms,
    }
}

/// `ms` with the boolean member `key` added where `value` is present.
pub open spec fn with_bool(
    ms: Seq<(Seq<char>, Seq<char>)>,
    key: Seq<char>,
    value: Option<bool>,
) -> Seq<(Seq<char>, Seq<char>)> {
    match value {
        Some(v) => ms.push((key, bool_text(v))),
        None => ms,
    }
}

/// `ms` with the member `key`, an array of strings, added where `value` is present.
pub open spec fn with_strings(
    ms: Seq<(Seq<char>, Seq<char>)>,
    key: Seq<char>,
    value: Option<Vec<String>>,
) -> Seq<(Seq<char>, Seq<char>)> {
    match value {
        Some(v) => ms.push((key, string_array_text(texts(v@)))),
        None => ms,
    }
}

/// `ms` with the member `key`, written `value`, added where `value` is present.
pub open spec fn with_raw(
    ms: Seq<(Seq<char>, Seq<char>)>,
    key: Seq<char>,
    value: Option<String>,
) -> Seq<(Seq<char>, Seq<char>)> {
    match value {
        Some(v) => ms.push((key, v@)),
        None => ms,
    }
}

impl ObjectWriter {
    /// Adds the string member `key` where `value` is present.
    pub fn add_optional_string(&mut self, key: &str, value: &Option<String>)
        requires
            old(self).wf(),
        ensures
            final(self).wf(),
            final(self).members() == with_string(old(self).members(), key@, *value),
    {
        match value {
            Some(v) => self.add_string(key, v.as_str()),
            None => {},
        }
    }

    /// Adds the boolean member `key` where `value` is present.
    pub fn add_optional_bool(&mut self, key: &str, value: Option<bool>)
        requires
            old(self).wf(),
        ensures
            final(self).wf(),
            final(self).members() == with_bool(old(self).members(), key@, value),
    {
        match value {
            Some(true) => {
                self.add(key, "true");
            },
            Some(false) => {
                self.add(key, "false");
            },
            None => {},
        }
    }

    /// Adds the member `key`, an array of strings, where `value` is present.
    pub fn add_optional_strings(&mut self, key: &str, value: &Option<Vec<String>>)
        requires
            old(self).wf(),
        ensures
            final(self).wf(),
            final(self).members() == with_strings(old(self).members(), key@, *value),
    {
        match value {
            Some(v) => {
                let a = string_array_of(v);
                self.add(key, a.as_str());
            },
            None => {},
        }
    }

    /// Adds the member `key`, written `value`, where `value` is present.
    pub fn add_optional_raw(&mut self, key: &str, value: &Option<String>)
        requires
            old(self).wf(),
        ensures
            final(self).wf(),
            final(self).members() == with_raw(old(self).members(), key@, *value),
    {
        match value {
            Some(v) => self.add(key, v.as_str()),
            None => {},
        }
    }
}

/// A request to pull a model from the library.
#[derive(Clone, Debug)]
pub struct PullRequest {
    /// The name of the model.
    pub model: String,
}

impl PullRequest {
    pub fn new(model: &str) -> (r: PullRequest)
        ensures
            r.model@ == model@,
    {
        PullRequest { model: model.to_owned() }
    }
}

/// The members of a pull request's payload.
pub open spec fn pull_members(p: PullRequest) -> Seq<(Seq<char>, Seq<char>)> {
    seq![("model"@, json_quoted(p.model@))]
}

/// A request to create a model from a modelfile.
#[derive(Clone, Debug)]
pub struct CreateRequest {
    /// The name of the model to create.
    pub name: String,
    /// The contents of the modelfile.
    pub modelfile: String,
    /// Whether to stream the results.
    pub stream: Option<bool>,
    /// A quantization to apply.
    pub quantize: Option<String>,
}

impl CreateRequest {
    pub fn new(name: &str, modelfile: &str) -> (r: CreateRequest)
        ensures
            r.name@ == name@,
            r.modelfile@ == modelfile@,
            r.stream is None,
            r.quantize is None,
    {
        CreateRequest {
            name: name.to_owned(),
            modelfile: modelfile.to_owned(),
            stream: None,
            quantize: None,
        }
    }
}

/// The members of a create request's payload.
pub open spec fn create_members(c: CreateRequest) -> Seq<(Seq<char>, Seq<char>)> {
    let ms = seq![("name"@, json_quoted(c.name@)), ("modelfile"@, json_quoted(c.modelfile@))];
    with_string(with_bool(ms, "stream"@, c.stream), "quantize"@, c.quantize)
}

/// A request to generate a response to a prompt.
#[derive(Clone, Debug)]
pub struct GenerateRequest {
    /// The name of the model.
    pub model: String,
    /// The prompt that the model responds to.
    pub prompt: String,
    /// Text that is to follow the response.
    pub suffix: String,
    /// Images, each encoded in base64.
    pub images: Option<Vec<String>>,
    /// The format of the response; "json" where given.
    pub format: Option<String>,
    /// The system prompt.
    pub system: Option<String>,
    /// The prompt template.
    pub template: Option<String>,
    /// Whether the response streams.
    pub stream: Option<bool>,
    /// Whether the prompt is passed without formatting.
    pub raw: Option<bool>,
    /// How long the model stays loaded after the request.
    pub keep_alive: Option<String>,
}

impl Default for GenerateRequest {
    fn default() -> (r: GenerateRequest)
        ensures
            r.model@ == "mistral-nemo"@,
            r.prompt@ == "42"@,
            r.suffix@ == ""@,
            r.images is None && r.format is None && r.system is None && r.template is None,
            r.stream is None && r.raw is None && r.keep_alive is None,
    {
        GenerateRequest {
            model: String::from_str("mistral-nemo"),
            prompt: String::from_str("42"),
            suffix: String::from_str(""),
            images: None,
            format: None,
            system: None,
            template: None,
            stream: None,
            raw: None,
            keep_alive: None,
        }
    }
}

/// The members of a generate request's payload.
pub open spec fn generate_members(g: GenerateRequest) -> Seq<(Seq<char>, Seq<char>)> {
    let ms = seq![
        ("model"@, json_quoted(g.model@)),
        ("prompt"@, json_quoted(g.prompt@)),
        ("suffix"@, json_quoted(g.suffix@)),
    ];
    let ms = with_strings(ms, "images"@, g.images);
    let ms = with_string(ms, "format"@, g.format);
    let ms = with_string(ms, "system"@, g.system);
    let ms = with_string(ms, "template"@, g.template);
    let ms = with_bool(ms, "stream"@, g.stream);
    let ms = with_bool(ms, "raw"@, g.raw);
    with_string(ms, "keep_alive"@, g.keep_alive)
}

/// A request to embed texts.
#[derive(Clone, Debug)]
pub struct EmbedRequest {
    /// The name of the model.
    pub model: String,
    /// The texts to embed.
    pub input: Vec<String>,
    /// Whether inputs that are too long are cut.
    pub truncate: Option<bool>,
    /// How long the model stays loaded after the request.
    pub keep_alive: Option<String>,
}

impl Default for EmbedRequest {
    fn default() -> (r: EmbedRequest)
        ensures
            r.model@ == "mistral-nemo"@,
            r.input@.len() == 0,
            r.truncate is None && r.keep_alive is None,
    {
        EmbedRequest {
            model: String::from_str("mistral-nemo"),
            input: Vec::new(),
            truncate: None,
            keep_alive: None,
        }
    }
}

/// The members of an embed request's payload: the model and the texts to embed.
pub open spec fn embed_members(
    model: Seq<char>,
    input: Seq<Seq<char>>,
) -> Seq<(Seq<char>, Seq<char>)> {
    seq![("model"@, json_quoted(model)), ("input"@, string_array_text(input))]
}

/// A request to show a model's details.
#[derive(Clone, Debug)]
pub struct ShowRequest {
    /// The name of the model.
    pub model: String,
}

impl ShowRequest {
    pub fn new(model: &str) -> (r: ShowRequest)
        ensures
            r.model@ == model@,
    {
        ShowRequest { model: model.to_owned() }
    }
}

/// A request to continue a chat.
#[derive(Clone, Debug)]
pub struct ChatRequest {
    /// The name of the model.
    pub model: String,
    /// The conversation so far.
    pub messages: Vec<ChatMessage>,
    /// The tools offered, as the compact text of a JSON value.
    pub tools: Option<String>,
    /// The format of the response; "json" where given.
    pub format: Option<String>,
    /// Whether the response streams.
    pub stream: Option<bool>,
    /// How long the model stays loaded after the request.
    pub keep_alive: Option<String>,
}

/// The models of a list of messages.
pub open spec fn message_models(ms: Seq<ChatMessage>) -> Seq<MessageModel> {
    ms.map_values(|m: ChatMessage| m@)
}

/// The JSON texts of a list of messages.
pub open spec fn message_texts(ms: Seq<MessageModel>) -> Seq<Seq<char>> {
    ms.map_values(|m: MessageModel| message_text(m))
}

/// The members of a chat request's payload.
pub open spec fn chat_members(c: ChatRequest) -> Seq<(Seq<char>, Seq<char>)> {
    let ms = seq![
        ("model"@, json_quoted(c.model@)),
        ("messages"@, array_text(message_texts(message_models(c.messages@)))),
    ];
    let ms = with_raw(ms, "tools"@, c.tools);
    let ms = with_string(ms, "format"@, c.format);
    let ms = with_bool(ms, "stream"@, c.stream);
    with_string(ms, "keep_alive"@, c.keep_alive)
}

/// The JSON texts of `messages`, in order.
fn messages_json(messages: &Vec<ChatMessage>) -> (r: Vec<String>)
    ensures
        texts(r@) == message_texts(message_models(messages@)),
{
    let mut out: Vec<String> = Vec::new();
    let mut i: usize = 0;
    while i < messages.len()
        invariant
            0 <= i <= messages.len(),
            texts(out@) == message_texts(message_models(messages@)).take(i as int),
        decreases messages.len() - i,
    {
        let ghost prev = out@;
        out.push(messages[i].to_json());
        proof {
            assert(texts(out@) == texts(prev).push(out@.last()@));
            assert(message_texts(message_models(messages@)).take(i + 1) == message_texts(
                message_models(messages@),
            ).take(i as int).push(message_text(messages@[i as int]@)));
        }
        i = i + 1;
    }
    proof {
        assert(message_texts(message_models(messages@)).take(messages.len() as int)
            == message_texts(message_models(messages@)));
    }
    out
}

/// Options common to every request.
#[derive(Clone, Debug, Default)]
pub struct RequestOptions {
    /// The address of the service; where absent, the caller's environment or `DEFAULT_URL`
    /// decides.
    pub url: Option<String>,
}

/// The address that `options` send to.
pub open spec fn base_url(options: RequestOptions) -> Seq<char> {
    match options.url {
        Some(u) => u@,
        None => DEFAULT_URL@,
    }
}

impl RequestOptions {
    /// The options with `host`, the address that the environment names, in place of an absent
    /// address.
    pub fn with_host(self, host: Option<String>) -> (r: RequestOptions)
        ensures
            r.url == match self.url {
                Some(u) => Some(u),
                None => host,
            },
    {
        match self.url {
            Some(u) => RequestOptions { url: Some(u) },
            None => RequestOptions { url: host },
        }
    }

    /// The address of the service.
    pub fn url(&self) -> (r: String)
        ensures
            r@ == base_url(*self),
    {
        match &self.url {
            Some(u) => u.clone(),
            None => String::from_str(DEFAULT_URL),
        }
    }
}

/// How a request is sent.
#[derive(Clone, Copy, Debug, PartialEq, Eq, Structural)]
pub enum Method {
    Get,
    Post,
}

/// The method for endpoint `api`: the list of models is fetched, the other endpoints are
/// posted to, and an unknown endpoint has none.
pub open spec fn method_for(api: Seq<char>) -> Option<Method> {
    if api == "tags"@ {
        Some(Method::Get)
    } else if api == "pull"@ || api == "create"@ || api == "generate"@ || api == "embed"@ || api
        == "chat"@ || api == "show"@ {
        Some(Method::Post)
    } else {
        None
    }
}

/// One call to the service: where it goes, what it sends, and whether its answer streams.
#[derive(Debug)]
pub struct Request {
    /// The address of the service.
    pub url: String,
    /// The endpoint's name.
    pub api: String,
    /// The body sent, JSON text.
    pub payload: String,
    /// Whether the answer is a stream of values.
    pub streaming: bool,
}

impl Request {
    /// A request that pulls a model; its answer streams.
    pub fn pull(options: RequestOptions, pull: PullRequest) -> (r: Request)
        ensures
            r.url@ == base_url(options),
            r.api@ == "pull"@,
            r.payload@ == object_text(pull_members(pull)),
            r.streaming,
    {
        let mut w = ObjectWriter::new();
        w.add_string("model", pull.model.as_str());
        proof {
            assert(w.members() =~= pull_members(pull));
        }
        Request {
            url: options.url(),
            api: String::from_str("pull"),
            payload: w.close(),
            streaming: true,
        }
    }

    /// A request that creates a model; its answer streams.
    pub fn create(options: RequestOptions, create: CreateRequest) -> (r: Request)
        ensures
            r.url@ == base_url(options),
            r.api@ == "create"@,
            r.payload@ == object_text(create_members(create)),
            r.streaming,
    {
        let mut w = ObjectWriter::new();
        w.add_string("name", create.name.as_str());
        w.add_string("modelfile", create.modelfile.as_str());
        proof {
            assert(w.members() =~= seq![
                ("name"@, json_quoted(create.name@)),
                ("modelfile"@, json_quoted(create.modelfile@)),
            ]);
        }
        w.add_optional_bool("stream", create.stream);
        w.add_optional_string("quantize", &create.quantize);
        Request {
            url: options.url(),
            api: String::from_str("create"),
            payload: w.close(),
            streaming: true,
        }
    }

    /// A request that generates a response to a prompt; its answer streams.
    pub fn generate(options: RequestOptions, generate: GenerateRequest) -> (r: Request)
        ensures
            r.url@ == base_url(options),
            r.api@ == "generate"@,
            r.payload@ == object_text(generate_members(generate)),
            r.streaming,
    {
        let mut w = ObjectWriter::new();
        w.add_string("model", generate.model.as_str());
        w.add_string("prompt", generate.prompt.as_str());
        w.add_string("suffix", generate.suffix.as_str());
        proof {
            assert(w.members() =~= seq![
                ("model"@, json_quoted(generate.model@)),
                ("prompt"@, json_quoted(generate.prompt@)),
                ("suffix"@, json_quoted(generate.suffix@)),
            ]);
        }
        w.add_optional_strings("images", &generate.images);
        w.add_optional_string("format", &generate.format);
        w.add_optional_string("system", &generate.system);
        w.add_optional_string("template", &generate.template);
        w.add_optional_bool("stream", generate.stream);
        w.add_optional_bool("raw", generate.raw);
        w.add_optional_string("keep_alive", &generate.keep_alive);
        Request {
            url: options.url(),
            api: String::from_str("generate"),
            payload: w.close(),
            streaming: true,
        }
    }

    /// A request that embeds `inputs` with the model of `embed`; its answer is one value.
    pub fn embed(options: RequestOptions, embed: EmbedRequest, inputs: Vec<String>) -> (r: Request)
        ensures
            r.url@ == base_url(options),
            r.api@ == "embed"@,
            r.payload@ == object_text(embed_members(embed.model@, texts(inputs@))),
            !r.streaming,
    {
        let mut w = ObjectWriter::new();
        w.add_string("model", embed.model.as_str());
        let a = string_array_of(&inputs);
        w.add("input", a.as_str());
        proof {
            assert(w.members() =~= embed_members(embed.model@, texts(inputs@)));
        }
        Request {
            url: options.url(),
            api: String::from_str("embed"),
            payload: w.close(),
            streaming: false,
        }
    }

    /// A request that continues a chat; its answer streams.
    pub fn chat(options: RequestOptions, chat: ChatRequest) -> (r: Request)
        ensures
            r.url@ == base_url(options),
            r.api@ == "chat"@,
            r.payload@ == object_text(chat_members(chat)),
            r.streaming,
    {
        let mut w = ObjectWriter::new();
        w.add_string("model", chat.model.as_str());
        let messages = messages_json(&chat.messages);
        let a = array_of(&messages);
        w.add("messages", a.as_str());
        proof {
            assert(w.members() =~= seq![
                ("model"@, json_quoted(chat.model@)),
                ("messages"@, array_text(message_texts(message_models(chat.messages@)))),
            ]);
        }
        w.add_optional_raw("tools", &chat.tools);
        w.add_optional_string("format", &chat.format);
        w.add_optional_bool("stream", chat.stream);
        w.add_optional_string("keep_alive", &chat.keep_alive);
        Request {
            url: options.url(),
            api: String::from_str("chat"),
            payload: w.close(),
            streaming: true,
        }
    }

    /// A request that lists the models; its answer is one value.
    pub fn tags(options: RequestOptions) -> (r: Request)
        ensures
            r.url@ == base_url(options),
            r.api@ == "tags"@,
            r.payload@ == "{}"@,
            !r.streaming,
    {
        Request {
            url: options.url(),
            api: String::from_str("tags"),
            payload: String::from_str("{}"),
            streaming: false,
        }
    }

    /// A request that shows a model's details; its answer is one value.
    pub fn show(options: RequestOptions, show: ShowRequest) -> (r: Request)
        ensures
            r.url@ == base_url(options),
            r.api@ == "show"@,
            r.payload@ == object_text(seq![("model"@, json_quoted(show.model@))]),
            !r.streaming,
    {
        let mut w = ObjectWriter::new();
        w.add_string("model", show.model.as_str());
        Request {
            url: options.url(),
            api: String::from_str("show"),
            payload: w.close(),
            streaming: false,
        }
    }

    /// The address of the request's endpoint: `{url}/api/{api}`.
    pub fn endpoint(&self) -> (r: String)
        ensures
            r@ == self.url@ + "/api/"@ + self.api@,
    {
        let mut r = self.url.clone();
        r.append("/api/");
        r.append(self.api.as_str());
        r
    }

    /// How the request is sent; `None` for an endpoint that the service does not have.
    pub fn method(&self) -> (r: Option<Method>)
        ensures
            r == method_for(self.api@),
    {
        let api = self.api.as_str();
        if crate::text::same_text(api, "tags") {
            Some(Method::Get)
        } else if crate::text::same_text(api, "pull") || crate::text::same_text(api, "create")
            || crate::text::same_text(api, "generate") || crate::text::same_text(api, "embed")
            || crate::text::same_text(api, "chat") || crate::text::same_text(api, "show") {
            Some(Method::Post)
        } else {
            None
        }
    }
}

} // verus!
