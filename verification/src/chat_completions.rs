//! The request builder and the typed request/response payloads.
//!
//! A builder accumulates model name, sampling temperature and the
//! ordered message list; `request_body` turns that state into the
//! API's JSON request schema, with the field names `model`,
//! `temperature` and `messages`, message fields `role` (lower-case
//! tag) and `content`, in exactly that order and with no extra
//! whitespace. The decode side is tolerant the way JSON readers are:
//! whitespace between tokens, object members in any order, unknown
//! members ignored.

use crate::error::OpenAiError;
use crate::json;
use vstd::prelude::*;
use vstd::string::*;

verus! {

/// The speaker of one conversational turn.
#[derive(Debug, Clone, Copy, PartialEq, Eq, Structural)]
pub enum CompletionRoles {
    Assistant,
    System,
    User,
}

/// The lower-case wire tag of a role.
pub open spec fn spec_role_tag(r: CompletionRoles) -> Seq<char> {
    match r {
        CompletionRoles::Assistant => "assistant"@,
        CompletionRoles::System => "system"@,
        CompletionRoles::User => "user"@,
    }
}

/// Returns the lower-case wire tag of a role.
pub fn role_tag(r: CompletionRoles) -> (t: &'static str)
    ensures
        t@ == spec_role_tag(r),
{
    match r {
        CompletionRoles::Assistant => "assistant",
        CompletionRoles::System => "system",
        CompletionRoles::User => "user",
    }
}

/// One conversational turn: who spoke, and what was said.
#[derive(Debug, Clone)]
pub struct CompletionMessage {
    pub role: CompletionRoles,
    pub content: String,
}

/// Mathematical image of [`CompletionMessage`].
pub ghost struct CompletionMessageView {
    pub role: CompletionRoles,
    pub content: Seq<char>,
}

impl View for CompletionMessage {
    type V = CompletionMessageView;

    open spec fn view(&self) -> CompletionMessageView {
        CompletionMessageView { role: self.role, content: self.content@ }
    }
}

impl CompletionMessage {
    /// Builds one immutable message from a role and its text.
    pub fn new(role: CompletionRoles, content: String) -> (m: CompletionMessage)
        ensures
            m@ == (CompletionMessageView { role, content: content@ }),
    {
        CompletionMessage { role, content }
    }
}

/// The JSON rendering of one message:
/// `{"role":"<tag>","content":<string>}`.
pub open spec fn spec_message_json(m: CompletionMessageView) -> Seq<char> {
    "{\"role\":\""@ + spec_role_tag(m.role) + "\",\"content\":"@ + json::spec_json_string(
        m.content,
    ) + "}"@
}

/// The comma-separated JSON renderings of a message sequence, in
/// sequence order.
pub open spec fn spec_messages_json(ms: Seq<CompletionMessageView>) -> Seq<char>
    decreases ms.len(),
{
    if ms.len() == 0 {
        Seq::empty()
    } else if ms.len() == 1 {
        spec_message_json(ms[0])
    } else {
        spec_messages_json(ms.drop_last()) + ","@ + spec_message_json(ms.last())
    }
}

/// The complete JSON request body for a model, a temperature numeral
/// and a message sequence.
pub open spec fn spec_payload_json(
    model: Seq<char>,
    temperature: Seq<char>,
    ms: Seq<CompletionMessageView>,
) -> Seq<char> {
    "{\"model\":"@ + json::spec_json_string(model) + ",\"temperature\":"@ + temperature
        + ",\"messages\":["@ + spec_messages_json(ms) + "]}"@
}

/// The temperature numeral a fresh builder starts from.
pub open spec fn default_temperature() -> Seq<char> {
    "0.0"@
}

/// The accumulated request state, ready for serialization: model
/// identifier, temperature numeral and ordered message list.
#[derive(Debug)]
pub struct ChatCompletionsPayload {
    pub model: String,
    pub temperature: String,
    pub messages: Vec<CompletionMessage>,
}

/// Appends the JSON rendering of one message to `out`.
fn append_message_json(out: &mut String, m: &CompletionMessage)
    ensures
        final(out)@ == old(out)@ + spec_message_json(m@),
{
    out.append("{\"role\":\"");
    out.append(role_tag(m.role));
    out.append("\",\"content\":");
    json::append_json_string(out, m.content.as_str());
    out.append("}");
    proof {
        assert(out@ =~= old(out)@ + spec_message_json(m@));
    }
}

impl ChatCompletionsPayload {
    /// Serializes this payload into the documented JSON request
    /// schema: field names `model`, `temperature`, `messages`, message
    /// fields `role` and `content`, message order preserved verbatim.
    pub fn to_json(&self) -> (r: String)
        ensures
            r@ == spec_payload_json(
                self.model@,
                self.temperature@,
                self.messages@.map_values(|m: CompletionMessage| m@),
            ),
    {
        let ghost vs = self.messages@.map_values(|m: CompletionMessage| m@);
        let mut out = String::new();
        out.append("{\"model\":");
        json::append_json_string(&mut out, self.model.as_str());
        out.append(",\"temperature\":");
        out.append(self.temperature.as_str());
        out.append(",\"messages\":[");
        let ghost base = out@;
        let mut k: usize = 0;
        while k < self.messages.len()
            invariant
                k <= self.messages.len(),
                vs == self.messages@.map_values(|m: CompletionMessage| m@),
                vs.len() == self.messages@.len(),
                out@ == base + spec_messages_json(vs.take(k as int)),
            decreases self.messages.len() - k,
        {
            if k > 0 {
                out.append(",");
            }
            append_message_json(&mut out, &self.messages[k]);
            proof {
                assert(vs.take(k + 1).drop_last() =~= vs.take(k as int));
                assert(vs.take(k + 1).last() == vs[k as int]);
                if k == 0 {
                    assert(vs.take(1)[0] == vs[0]);
                    assert(out@ =~= base + spec_messages_json(vs.take(1)));
                } else {
                    assert(out@ =~= base + spec_messages_json(vs.take(k + 1)));
                }
            }
            k = k + 1;
        }
        proof {
            assert(vs.take(self.messages@.len() as int) =~= vs);
        }
        out.append("]}");
        proof {
            assert(out@ =~= spec_payload_json(self.model@, self.temperature@, vs));
        }
        out
    }
}

/// Appending a message appends its rendering at the end of the
/// serialized list and moves nothing else: for any sequence of
/// `message` calls, the order on the wire is the call order.
pub proof fn lemma_messages_json_append(ms: Seq<CompletionMessageView>, m: CompletionMessageView)
    ensures
        ms.len() == 0 ==> spec_messages_json(ms.push(m)) == spec_message_json(m),
        ms.len() > 0 ==> spec_messages_json(ms.push(m)) == spec_messages_json(ms) + ","@
            + spec_message_json(m),
{
    let ps = ms.push(m);
    assert(ps.drop_last() =~= ms);
    assert(ps.last() == m);
    if ms.len() == 0 {
        assert(ps[0] == m);
    }
}

/// Setting the temperature twice leaves exactly the state of setting
/// it once to the later value: the overwrite is last-write-wins, and
/// only the last value reaches the serialized request.
pub proof fn lemma_temperature_overwrite(b: BuilderView, t1: Seq<char>, t2: Seq<char>)
    ensures
        spec_set_temperature(spec_set_temperature(b, t1), t2) == spec_set_temperature(b, t2),
{
}

/// A builder that serializes with zero messages renders
/// `"messages":[]` — the empty ordered sequence, not an omitted
/// field.
pub proof fn lemma_empty_messages_payload(model: Seq<char>, temperature: Seq<char>)
    ensures
        spec_payload_json(model, temperature, Seq::<CompletionMessageView>::empty()) == "{\"model\":"@
            + json::spec_json_string(model) + ",\"temperature\":"@ + temperature
            + ",\"messages\":[]}"@,
{
    reveal_strlit(",\"messages\":[");
    reveal_strlit("]}");
    reveal_strlit(",\"messages\":[]}");
    assert(",\"messages\":["@ + spec_messages_json(Seq::<CompletionMessageView>::empty()) + "]}"@
        =~= ",\"messages\":[]}"@);
    assert(spec_payload_json(model, temperature, Seq::<CompletionMessageView>::empty()) =~= "{\"model\":"@
        + json::spec_json_string(model) + ",\"temperature\":"@ + temperature
        + ",\"messages\":[]}"@);
}

/// Token usage counters echoed back by the server. The remote system
/// asserts `total_tokens == prompt_tokens + completion_tokens`; the
/// decoder trusts and does not re-validate it.
#[derive(Debug, Clone, Copy, PartialEq, Eq, Structural)]
pub struct Usage {
    pub prompt_tokens: u32,
    pub completion_tokens: u32,
    pub total_tokens: u32,
}

/// One candidate completion returned by the server.
#[derive(Debug, Clone)]
pub struct Choice {
    pub message: CompletionMessage,
    pub finish_reason: String,
    pub index: u32,
}

/// Mathematical image of [`Choice`].
pub ghost struct ChoiceView {
    pub message: CompletionMessageView,
    pub finish_reason: Seq<char>,
    pub index: u32,
}

impl View for Choice {
    type V = ChoiceView;

    open spec fn view(&self) -> ChoiceView {
        ChoiceView {
            message: self.message@,
            finish_reason: self.finish_reason@,
            index: self.index,
        }
    }
}

/// The decoded success payload, constructed solely from a server
/// reply.
#[derive(Debug)]
pub struct ChatCompletionsSuccessResponse {
    pub id: String,
    pub object: String,
    pub model: String,
    pub usage: Usage,
    pub choices: Vec<Choice>,
}

/// Mathematical image of [`ChatCompletionsSuccessResponse`].
pub ghost struct SuccessResponseView {
    pub id: Seq<char>,
    pub object: Seq<char>,
    pub model: Seq<char>,
    pub usage: Usage,
    pub choices: Seq<ChoiceView>,
}

impl View for ChatCompletionsSuccessResponse {
    type V = SuccessResponseView;

    open spec fn view(&self) -> SuccessResponseView {
        SuccessResponseView {
            id: self.id@,
            object: self.object@,
            model: self.model@,
            usage: self.usage,
            choices: self.choices@.map_values(|c: Choice| c@),
        }
    }
}

/// The wire tag of a role, read back: one of the three known tags.
pub open spec fn spec_role_of_tag(s: Seq<char>) -> Option<CompletionRoles> {
    if s == "assistant"@ {
        Some(CompletionRoles::Assistant)
    } else if s == "system"@ {
        Some(CompletionRoles::System)
    } else if s == "user"@ {
        Some(CompletionRoles::User)
    } else {
        None
    }
}

/// A message out of its decoded JSON object: a `role` member holding
/// one of the three tags and a string `content` member, each exactly
/// once; other members are ignored.
pub open spec fn spec_message_of_value(val: json::JsonValueView) -> Option<
    CompletionMessageView,
> {
    match val {
        json::JsonValueView::Obj(ms) => match (
            json::spec_get_unique(ms, "role"@),
            json::spec_get_unique(ms, "content"@),
        ) {
            (
                Some(json::JsonValueView::Str(tag)),
                Some(json::JsonValueView::Str(content)),
            ) => match spec_role_of_tag(tag) {
                Some(role) => Some(CompletionMessageView { role, content }),
                None => None,
            },
            _ => None,
        },
        _ => None,
    }
}

/// Reads a message out of a decoded JSON value.
fn message_of_value(val: &json::JsonValue) -> (r: Option<CompletionMessage>)
    ensures
        r matches Some(m) ==> spec_message_of_value(json::spec_value_view(*val)) == Some(m@),
        r is None ==> spec_message_of_value(json::spec_value_view(*val)) is None,
{
    let ms = match val {
        json::JsonValue::Obj(ms) => ms,
        _ => {
            return None;
        },
    };
    let ti = match json::get_unique(ms, "role") {
        Some(t) => t,
        None => {
            return None;
        },
    };
    let tag = match &ms[ti].1 {
        json::JsonValue::Str(s) => s,
        _ => {
            return None;
        },
    };
    let ci = match json::get_unique(ms, "content") {
        Some(t) => t,
        None => {
            return None;
        },
    };
    let content = match &ms[ci].1 {
        json::JsonValue::Str(s) => s,
        _ => {
            return None;
        },
    };
    let role = if json::str_eq(tag.as_str(), "assistant") {
        CompletionRoles::Assistant
    } else if json::str_eq(tag.as_str(), "system") {
        CompletionRoles::System
    } else if json::str_eq(tag.as_str(), "user") {
        CompletionRoles::User
    } else {
        return None;
    };
    Some(CompletionMessage { role, content: content.clone() })
}

/// The usage counters out of their decoded JSON object: the three
/// token counters, each exactly once, each a plain unsigned 32-bit
/// integer; other members are ignored.
pub open spec fn spec_usage_of_value(val: json::JsonValueView) -> Option<Usage> {
    match val {
        json::JsonValueView::Obj(ms) => match (
            json::spec_get_unique(ms, "prompt_tokens"@),
            json::spec_get_unique(ms, "completion_tokens"@),
            json::spec_get_unique(ms, "total_tokens"@),
        ) {
            (
                Some(json::JsonValueView::NumU32(prompt_tokens)),
                Some(json::JsonValueView::NumU32(completion_tokens)),
                Some(json::JsonValueView::NumU32(total_tokens)),
            ) => Some(Usage { prompt_tokens, completion_tokens, total_tokens }),
            _ => None,
        },
        _ => None,
    }
}

/// Reads the usage counters out of a decoded JSON value.
fn usage_of_value(val: &json::JsonValue) -> (r: Option<Usage>)
    ensures
        r matches Some(u) ==> spec_usage_of_value(json::spec_value_view(*val)) == Some(u),
        r is None ==> spec_usage_of_value(json::spec_value_view(*val)) is None,
{
    let ms = match val {
        json::JsonValue::Obj(ms) => ms,
        _ => {
            return None;
        },
    };
    let pi = match json::get_unique(ms, "prompt_tokens") {
        Some(t) => t,
        None => {
            return None;
        },
    };
    let prompt_tokens = match &ms[pi].1 {
        json::JsonValue::NumU32(x) => *x,
        _ => {
            return None;
        },
    };
    let ci = match json::get_unique(ms, "completion_tokens") {
        Some(t) => t,
        None => {
            return None;
        },
    };
    let completion_tokens = match &ms[ci].1 {
        json::JsonValue::NumU32(x) => *x,
        _ => {
            return None;
        },
    };
    let ti = match json::get_unique(ms, "total_tokens") {
        Some(t) => t,
        None => {
            return None;
        },
    };
    let total_tokens = match &ms[ti].1 {
        json::JsonValue::NumU32(x) => *x,
        _ => {
            return None;
        },
    };
    Some(Usage { prompt_tokens, completion_tokens, total_tokens })
}

/// One choice out of its decoded JSON object: a `message`, a string
/// `finish_reason` and an unsigned 32-bit `index`, each exactly once;
/// other members are ignored.
pub open spec fn spec_choice_of_value(val: json::JsonValueView) -> Option<ChoiceView> {
    match val {
        json::JsonValueView::Obj(ms) => match (
            json::spec_get_unique(ms, "message"@),
            json::spec_get_unique(ms, "finish_reason"@),
            json::spec_get_unique(ms, "index"@),
        ) {
            (
                Some(mval),
                Some(json::JsonValueView::Str(finish_reason)),
                Some(json::JsonValueView::NumU32(index)),
            ) => match spec_message_of_value(mval) {
                Some(message) => Some(ChoiceView { message, finish_reason, index }),
                None => None,
            },
            _ => None,
        },
        _ => None,
    }
}

/// Reads one choice out of a decoded JSON value.
fn choice_of_value(val: &json::JsonValue) -> (r: Option<Choice>)
    ensures
        r matches Some(c) ==> spec_choice_of_value(json::spec_value_view(*val)) == Some(c@),
        r is None ==> spec_choice_of_value(json::spec_value_view(*val)) is None,
{
    let ms = match val {
        json::JsonValue::Obj(ms) => ms,
        _ => {
            return None;
        },
    };
    let mi = match json::get_unique(ms, "message") {
        Some(t) => t,
        None => {
            return None;
        },
    };
    let message = match message_of_value(&ms[mi].1) {
        Some(m) => m,
        None => {
            return None;
        },
    };
    let fi = match json::get_unique(ms, "finish_reason") {
        Some(t) => t,
        None => {
            return None;
        },
    };
    let finish_reason = match &ms[fi].1 {
        json::JsonValue::Str(s) => s.clone(),
        _ => {
            return None;
        },
    };
    let ii = match json::get_unique(ms, "index") {
        Some(t) => t,
        None => {
            return None;
        },
    };
    let index = match &ms[ii].1 {
        json::JsonValue::NumU32(x) => *x,
        _ => {
            return None;
        },
    };
    Some(Choice { message, finish_reason, index })
}

/// The choices out of the decoded array, in array order.
pub open spec fn spec_choices_of(es: Seq<json::JsonValueView>) -> Option<Seq<ChoiceView>>
    decreases es.len(),
{
    if es.len() == 0 {
        Some(Seq::empty())
    } else {
        match (spec_choices_of(es.drop_last()), spec_choice_of_value(es.last())) {
            (Some(cs), Some(c)) => Some(cs.push(c)),
            _ => None,
        }
    }
}

proof fn lemma_choices_of_none(es: Seq<json::JsonValueView>, k: int)
    requires
        0 <= k < es.len(),
        spec_choice_of_value(es[k]) is None,
    ensures
        spec_choices_of(es) is None,
    decreases es.len(),
{
    if k == es.len() - 1 {
    } else {
        assert(es.drop_last()[k] == es[k]);
        lemma_choices_of_none(es.drop_last(), k);
    }
}

/// Reads every choice out of the decoded array.
fn choices_of_values(es: &Vec<json::JsonValue>) -> (r: Option<Vec<Choice>>)
    ensures
        r matches Some(cs) ==> spec_choices_of(json::spec_values_view(es@)) == Some(
            cs@.map_values(|c: Choice| c@),
        ),
        r is None ==> spec_choices_of(json::spec_values_view(es@)) is None,
{
    let ghost vs = json::spec_values_view(es@);
    proof {
        json::lemma_values_view_len_index(es@);
    }
    let n = es.len();
    let mut acc: Vec<Choice> = Vec::new();
    let mut k: usize = 0;
    proof {
        assert(acc@.map_values(|c: Choice| c@) =~= Seq::<ChoiceView>::empty());
        assert(vs.take(0) =~= Seq::<json::JsonValueView>::empty());
    }
    while k < n
        invariant
            k <= n,
            n == es@.len(),
            vs == json::spec_values_view(es@),
            vs.len() == n,
            forall|t: int|
                0 <= t < n ==> #[trigger] vs[t] == json::spec_value_view(es@[t]),
            spec_choices_of(vs.take(k as int)) == Some(acc@.map_values(|c: Choice| c@)),
        decreases n - k,
    {
        let c = match choice_of_value(&es[k]) {
            Some(c) => c,
            None => {
                proof {
                    lemma_choices_of_none(vs, k as int);
                }
                return None;
            },
        };
        let ghost acc0 = acc@;
        acc.push(c);
        proof {
            assert(vs.take(k + 1).drop_last() =~= vs.take(k as int));
            assert(vs.take(k + 1).last() == vs[k as int]);
            assert(acc@.map_values(|x: Choice| x@) =~= acc0.map_values(|x: Choice| x@).push(c@));
        }
        k = k + 1;
    }
    proof {
        assert(vs.take(n as int) =~= vs);
    }
    Some(acc)
}

/// The success payload out of its decoded JSON object: string `id`,
/// `object` and `model`, the usage counters and the choice list, each
/// member exactly once; unknown members are ignored, as the remote
/// system adds fields over time.
pub open spec fn spec_success_of_value(val: json::JsonValueView) -> Option<SuccessResponseView> {
    match val {
        json::JsonValueView::Obj(ms) => match (
            json::spec_get_unique(ms, "id"@),
            json::spec_get_unique(ms, "object"@),
            json::spec_get_unique(ms, "model"@),
            json::spec_get_unique(ms, "usage"@),
            json::spec_get_unique(ms, "choices"@),
        ) {
            (
                Some(json::JsonValueView::Str(id)),
                Some(json::JsonValueView::Str(object)),
                Some(json::JsonValueView::Str(model)),
                Some(uval),
                Some(json::JsonValueView::Arr(es)),
            ) => match (spec_usage_of_value(uval), spec_choices_of(es)) {
                (Some(usage), Some(choices)) => Some(
                    SuccessResponseView { id, object, model, usage, choices },
                ),
                _ => None,
            },
            _ => None,
        },
        _ => None,
    }
}

/// The whole success decode path: a JSON document holding the
/// success schema.
pub open spec fn spec_decode_success(s: Seq<char>) -> Option<SuccessResponseView> {
    match json::spec_parse_document(s) {
        None => None,
        Some(val) => spec_success_of_value(val),
    }
}

/// Reads the success payload out of a decoded JSON value.
fn success_of_value(val: &json::JsonValue) -> (r: Option<ChatCompletionsSuccessResponse>)
    ensures
        r matches Some(resp) ==> spec_success_of_value(json::spec_value_view(*val)) == Some(
            resp@,
        ),
        r is None ==> spec_success_of_value(json::spec_value_view(*val)) is None,
{
    let ms = match val {
        json::JsonValue::Obj(ms) => ms,
        _ => {
            return None;
        },
    };
    let idi = match json::get_unique(ms, "id") {
        Some(t) => t,
        None => {
            return None;
        },
    };
    let id = match &ms[idi].1 {
        json::JsonValue::Str(s) => s.clone(),
        _ => {
            return None;
        },
    };
    let obi = match json::get_unique(ms, "object") {
        Some(t) => t,
        None => {
            return None;
        },
    };
    let object = match &ms[obi].1 {
        json::JsonValue::Str(s) => s.clone(),
        _ => {
            return None;
        },
    };
    let moi = match json::get_unique(ms, "model") {
        Some(t) => t,
        None => {
            return None;
        },
    };
    let model = match &ms[moi].1 {
        json::JsonValue::Str(s) => s.clone(),
        _ => {
            return None;
        },
    };
    let usi = match json::get_unique(ms, "usage") {
        Some(t) => t,
        None => {
            return None;
        },
    };
    let usage = match usage_of_value(&ms[usi].1) {
        Some(u) => u,
        None => {
            return None;
        },
    };
    let chi = match json::get_unique(ms, "choices") {
        Some(t) => t,
        None => {
            return None;
        },
    };
    let choices = match &ms[chi].1 {
        json::JsonValue::Arr(es) => match choices_of_values(es) {
            Some(cs) => cs,
            None => {
                return None;
            },
        },
        _ => {
            return None;
        },
    };
    Some(ChatCompletionsSuccessResponse { id, object, model, usage, choices })
}

/// Decodes a whole success payload.
pub fn parse_success(v: &Vec<char>) -> (r: Option<ChatCompletionsSuccessResponse>)
    ensures
        r matches Some(resp) ==> spec_decode_success(v@) == Some(resp@),
        r is None ==> spec_decode_success(v@) is None,
{
    let doc = match json::parse_document(v) {
        Some(d) => d,
        None => {
            return None;
        },
    };
    success_of_value(&doc)
}

/// The HTTP status class that routes to the success decode path.
pub open spec fn spec_status_ok(status: u16) -> bool {
    200 <= status < 300
}

/// Routes a server reply by its HTTP status and decodes it: a
/// success-class status with a well-formed success body yields the
/// typed success payload; a non-success status with a well-formed
/// error body yields the API-error variant with message and type
/// preserved verbatim; a body the schema does not cover yields the
/// internal-error variant — never a crash.
pub fn decode_response(status: u16, body: &str) -> (r: Result<
    ChatCompletionsSuccessResponse,
    OpenAiError,
>)
    ensures
        spec_status_ok(status) ==> match spec_decode_success(body@) {
            Some(view) => r matches Ok(resp) && resp@ == view,
            None => r matches Err(OpenAiError::InternalError(c)) && c.top@
                == crate::error::spec_decode_failure_note() && c.causes@ == Seq::<String>::empty(),
        },
        !spec_status_ok(status) ==> match crate::error::spec_decode_error(body@) {
            Some(view) => r matches Err(OpenAiError::HttpError(resp)) && resp@ == view,
            None => r matches Err(OpenAiError::InternalError(c)) && c.top@
                == crate::error::spec_decode_failure_note() && c.causes@ == Seq::<String>::empty(),
        },
{
    let v = json::to_chars(body);
    if 200 <= status && status < 300 {
        match parse_success(&v) {
            Some(resp) => Ok(resp),
            None => Err(crate::error::decode_failure_error()),
        }
    } else {
        match crate::error::parse_error_body(&v) {
            Some(resp) => Err(OpenAiError::from(resp)),
            None => Err(crate::error::decode_failure_error()),
        }
    }
}

/// The serialized body is a function of model, temperature and
/// message sequence alone: two builders in the same state serialize
/// to the same bytes.
pub proof fn lemma_body_deterministic(b1: BuilderView, b2: BuilderView)
    requires
        b1.model == b2.model,
        b1.temperature == b2.temperature,
        b1.messages == b2.messages,
    ensures
        spec_payload_json(b1.model, b1.temperature, b1.messages) == spec_payload_json(
            b2.model,
            b2.temperature,
            b2.messages,
        ),
{
}

/// The fluent request builder: each configuration call consumes the
/// builder and returns the next one; `request_body` consumes it for
/// good, so a sent builder cannot be reused.
#[derive(Debug)]
pub struct ChatCompletionsBuilder {
    pub model: String,
    pub temperature: String,
    pub messages: Vec<CompletionMessage>,
}

/// Mathematical image of [`ChatCompletionsBuilder`].
pub ghost struct BuilderView {
    pub model: Seq<char>,
    pub temperature: Seq<char>,
    pub messages: Seq<CompletionMessageView>,
}

impl View for ChatCompletionsBuilder {
    type V = BuilderView;

    open spec fn view(&self) -> BuilderView {
        BuilderView {
            model: self.model@,
            temperature: self.temperature@,
            messages: self.messages@.map_values(|m: CompletionMessage| m@),
        }
    }
}

/// The builder state after a `temperature` call: the stored numeral is
/// overwritten, nothing else moves.
pub open spec fn spec_set_temperature(b: BuilderView, t: Seq<char>) -> BuilderView {
    BuilderView { model: b.model, temperature: t, messages: b.messages }
}

/// The builder state after a `message` call: the message is appended
/// at the end, nothing else moves.
pub open spec fn spec_add_message(b: BuilderView, m: CompletionMessageView) -> BuilderView {
    BuilderView { model: b.model, temperature: b.temperature, messages: b.messages.push(m) }
}

impl ChatCompletionsBuilder {
    /// The builder's temperature always holds a JSON-renderable
    /// numeral, so the serialized body stays schema-valid.
    pub open spec fn wf(&self) -> bool {
        json::spec_valid_temperature(self.temperature@)
    }

    /// A fresh builder for the given model: temperature at its
    /// default, no messages yet.
    pub fn new(model: &str) -> (b: ChatCompletionsBuilder)
        ensures
            b@.model == model@,
            b@.temperature == default_temperature(),
            b@.messages == Seq::<CompletionMessageView>::empty(),
            b.wf(),
    {
        let b = ChatCompletionsBuilder {
            model: model.to_owned(),
            temperature: String::from_str("0.0"),
            messages: Vec::new(),
        };
        proof {
            json::lemma_default_temperature_valid();
            assert(b@.messages =~= Seq::<CompletionMessageView>::empty());
        }
        b
    }

    /// Overwrites the stored sampling temperature: last write wins,
    /// nothing accumulates. The numeral is transmitted as supplied;
    /// its range is the remote system's concern.
    pub fn temperature(self, value: String) -> (r: ChatCompletionsBuilder)
        requires
            json::spec_valid_temperature(value@),
        ensures
            r@ == spec_set_temperature(self@, value@),
            r.wf(),
    {
        let r = ChatCompletionsBuilder { model: self.model, temperature: value, messages: self.messages };
        proof {
            assert(r@ =~= spec_set_temperature(self@, r.temperature@));
        }
        r
    }

    /// Appends one message to the ordered sequence: no deduplication,
    /// no reordering, no local bound on the history length.
    pub fn message(self, value: CompletionMessage) -> (r: ChatCompletionsBuilder)
        ensures
            r@ == spec_add_message(self@, value@),
            self.wf() ==> r.wf(),
    {
        let ghost pre = self@;
        let ghost mv = value@;
        let mut messages = self.messages;
        messages.push(value);
        let r = ChatCompletionsBuilder { model: self.model, temperature: self.temperature, messages };
        proof {
            assert(r@.messages =~= pre.messages.push(mv));
            assert(r@ =~= spec_add_message(pre, mv));
        }
        r
    }

    /// Serializes the accumulated state into the JSON request body,
    /// consuming the builder: the terminal step of the fluent chain.
    pub fn request_body(self) -> (r: String)
        ensures
            r@ == spec_payload_json(self@.model, self@.temperature, self@.messages),
    {
        let payload = ChatCompletionsPayload {
            model: self.model,
            temperature: self.temperature,
            messages: self.messages,
        };
        payload.to_json()
    }
}

} // verus!
