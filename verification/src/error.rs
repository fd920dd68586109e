//! The closed error taxonomy: a request either failed at the remote
//! system (an API error, decoded from the error payload) or somewhere
//! else (an internal error carrying a cause chain).

use crate::json;
use vstd::prelude::*;
use vstd::string::*;

verus! {

/// The fields of the API's error payload.
#[derive(Debug, Clone)]
pub struct ErrorResponseFields {
    pub message: String,
    pub type_: String,
    pub param: Option<String>,
    pub code: Option<String>,
}

/// The API's error payload: one `error` object.
#[derive(Debug, Clone)]
pub struct OpenAiErrorResponse {
    pub error: ErrorResponseFields,
}

/// Mathematical image of [`ErrorResponseFields`].
pub ghost struct ErrorFieldsView {
    pub message: Seq<char>,
    pub type_: Seq<char>,
    pub param: Option<Seq<char>>,
    pub code: Option<Seq<char>>,
}

/// Mathematical image of [`OpenAiErrorResponse`].
pub ghost struct ErrorResponseView {
    pub error: ErrorFieldsView,
}

impl View for ErrorResponseFields {
    type V = ErrorFieldsView;

    open spec fn view(&self) -> ErrorFieldsView {
        ErrorFieldsView {
            message: self.message@,
            type_: self.type_@,
            param: match self.param {
                Some(p) => Some(p@),
                None => None,
            },
            code: match self.code {
                Some(c) => Some(c@),
                None => None,
            },
        }
    }
}

impl View for OpenAiErrorResponse {
    type V = ErrorResponseView;

    open spec fn view(&self) -> ErrorResponseView {
        ErrorResponseView { error: self.error@ }
    }
}

/// An opaque cause chain: the outermost description first, then each
/// underlying cause, innermost last.
#[derive(Debug, Clone)]
pub struct ErrorChain {
    pub top: String,
    pub causes: Vec<String>,
}

/// The unified error type: either the remote system rejected the
/// request, or something else went wrong on the way.
#[derive(Debug)]
pub enum OpenAiError {
    HttpError(OpenAiErrorResponse),
    InternalError(ErrorChain),
}

/// Human-readable rendering of the API error payload: one
/// "`type`: `message`" line.
pub open spec fn spec_error_display(r: ErrorResponseView) -> Seq<char> {
    r.error.type_ + ": "@ + r.error.message
}

/// The "Caused by:" lines for a cause chain, one per cause, innermost
/// last.
pub open spec fn spec_caused_by_block(causes: Seq<Seq<char>>) -> Seq<char>
    decreases causes.len(),
{
    if causes.len() == 0 {
        Seq::empty()
    } else {
        spec_caused_by_block(causes.drop_last()) + "Caused by:\n\t"@ + causes.last() + "\n"@
    }
}

/// Full diagnostic rendering of an error: the outermost description,
/// a blank line, then the whole cause chain.
pub open spec fn spec_error_chain(top: Seq<char>, causes: Seq<Seq<char>>) -> Seq<char> {
    top + "\n\n"@ + spec_caused_by_block(causes)
}

/// Renders an error and its cause chain, one "Caused by:" line per
/// cause, innermost last.
pub fn error_chain_fmt(top: &str, causes: &Vec<String>) -> (r: String)
    ensures
        r@ == spec_error_chain(top@, causes@.map_values(|c: String| c@)),
{
    let ghost cs = causes@.map_values(|c: String| c@);
    let mut out = String::new();
    out.append(top);
    out.append("\n\n");
    let mut k: usize = 0;
    while k < causes.len()
        invariant
            k <= causes.len(),
            cs == causes@.map_values(|c: String| c@),
            cs.len() == causes@.len(),
            out@ == top@ + "\n\n"@ + spec_caused_by_block(cs.take(k as int)),
        decreases causes.len() - k,
    {
        out.append("Caused by:\n\t");
        out.append(causes[k].as_str());
        out.append("\n");
        proof {
            assert(cs.take(k + 1).drop_last() =~= cs.take(k as int));
            assert(cs.take(k + 1).last() == cs[k as int]);
            assert(out@ =~= top@ + "\n\n"@ + spec_caused_by_block(cs.take(k + 1)));
        }
        k = k + 1;
    }
    proof {
        assert(cs.take(causes@.len() as int) =~= cs);
    }
    out
}

impl OpenAiErrorResponse {
    /// The human-readable "`type`: `message`" line of this API error.
    pub fn to_message(&self) -> (r: String)
        ensures
            r@ == spec_error_display(self@),
    {
        let mut out = String::new();
        out.append(self.error.type_.as_str());
        out.append(": ");
        out.append(self.error.message.as_str());
        out
    }
}

impl OpenAiError {
    /// What this error reads as: the API error renders its
    /// "`type`: `message`" line, the internal error its outermost
    /// description.
    pub open spec fn spec_display(&self) -> Seq<char> {
        match self {
            OpenAiError::HttpError(r) => spec_error_display(r@),
            OpenAiError::InternalError(c) => c.top@,
        }
    }

    /// The causes behind this error; the API error carries none.
    pub open spec fn spec_causes(&self) -> Seq<Seq<char>> {
        match self {
            OpenAiError::HttpError(r) => Seq::empty(),
            OpenAiError::InternalError(c) => c.causes@.map_values(|s: String| s@),
        }
    }

    /// Renders this error for display.
    pub fn render(&self) -> (r: String)
        ensures
            r@ == self.spec_display(),
    {
        match self {
            OpenAiError::HttpError(resp) => resp.to_message(),
            OpenAiError::InternalError(chain) => {
                let mut out = String::new();
                out.append(chain.top.as_str());
                out
            },
        }
    }

    /// Renders this error with its full cause chain, as a diagnostic.
    pub fn render_chain(&self) -> (r: String)
        ensures
            r@ == spec_error_chain(self.spec_display(), self.spec_causes()),
    {
        match self {
            OpenAiError::HttpError(resp) => {
                let top = resp.to_message();
                let causes: Vec<String> = Vec::new();
                proof {
                    assert(causes@.map_values(|s: String| s@) =~= Seq::<Seq<char>>::empty());
                }
                error_chain_fmt(top.as_str(), &causes)
            },
            OpenAiError::InternalError(chain) => error_chain_fmt(chain.top.as_str(), &chain.causes),
        }
    }
}

/// An optional string member: absent entirely, present once with
/// `null`, or present once with a string; anything else refuses the
/// payload.
pub open spec fn spec_opt_str_member(
    ms: Seq<(Seq<char>, json::JsonValueView)>,
    key: Seq<char>,
) -> Option<Option<Seq<char>>> {
    if json::spec_count_key(ms, key) == 0 {
        Some(None)
    } else {
        match json::spec_get_unique(ms, key) {
            Some(json::JsonValueView::Null) => Some(None),
            Some(json::JsonValueView::Str(x)) => Some(Some(x)),
            _ => None,
        }
    }
}

/// Reads an optional string member.
fn opt_str_member(ms: &Vec<(String, json::JsonValue)>, key: &str) -> (r: Option<Option<String>>)
    ensures
        r matches Some(p) ==> ({
            let sp = spec_opt_str_member(json::spec_members_view(ms@), key@);
            sp matches Some(q) && (match p {
                Some(st) => q == Some(st@),
                None => q is None,
            })
        }),
        r is None ==> spec_opt_str_member(json::spec_members_view(ms@), key@) is None,
{
    if !json::has_key(ms, key) {
        return Some(None);
    }
    let t = match json::get_unique(ms, key) {
        Some(t) => t,
        None => {
            return None;
        },
    };
    match &ms[t].1 {
        json::JsonValue::Null => Some(None),
        json::JsonValue::Str(s) => Some(Some(s.clone())),
        _ => None,
    }
}

/// The error fields out of the decoded `error` object: a string
/// `message` and a string `type`, each exactly once, and the optional
/// `param` and `code`; other members are ignored.
pub open spec fn spec_error_fields_of(val: json::JsonValueView) -> Option<ErrorFieldsView> {
    match val {
        json::JsonValueView::Obj(fs) => match (
            json::spec_get_unique(fs, "message"@),
            json::spec_get_unique(fs, "type"@),
        ) {
            (
                Some(json::JsonValueView::Str(message)),
                Some(json::JsonValueView::Str(type_)),
            ) => match (spec_opt_str_member(fs, "param"@), spec_opt_str_member(fs, "code"@)) {
                (Some(param), Some(code)) => Some(
                    ErrorFieldsView { message, type_, param, code },
                ),
                _ => None,
            },
            _ => None,
        },
        _ => None,
    }
}

/// The whole error payload out of its decoded JSON value: one
/// `error` member holding the error fields.
pub open spec fn spec_error_of_value(val: json::JsonValueView) -> Option<ErrorResponseView> {
    match val {
        json::JsonValueView::Obj(top) => match json::spec_get_unique(top, "error"@) {
            Some(inner) => match spec_error_fields_of(inner) {
                Some(error) => Some(ErrorResponseView { error }),
                None => None,
            },
            None => None,
        },
        _ => None,
    }
}

/// The whole error decode path: a JSON document holding the error
/// schema.
pub open spec fn spec_decode_error(s: Seq<char>) -> Option<ErrorResponseView> {
    match json::spec_parse_document(s) {
        None => None,
        Some(val) => spec_error_of_value(val),
    }
}

/// Reads the error fields out of a decoded JSON value.
fn error_fields_of(val: &json::JsonValue) -> (r: Option<ErrorResponseFields>)
    ensures
        r matches Some(f) ==> spec_error_fields_of(json::spec_value_view(*val)) == Some(f@),
        r is None ==> spec_error_fields_of(json::spec_value_view(*val)) is None,
{
    let fs = match val {
        json::JsonValue::Obj(fs) => fs,
        _ => {
            return None;
        },
    };
    let mi = match json::get_unique(fs, "message") {
        Some(t) => t,
        None => {
            return None;
        },
    };
    let message = match &fs[mi].1 {
        json::JsonValue::Str(s) => s.clone(),
        _ => {
            return None;
        },
    };
    let ti = match json::get_unique(fs, "type") {
        Some(t) => t,
        None => {
            return None;
        },
    };
    let type_ = match &fs[ti].1 {
        json::JsonValue::Str(s) => s.clone(),
        _ => {
            return None;
        },
    };
    let param = match opt_str_member(fs, "param") {
        Some(p) => p,
        None => {
            return None;
        },
    };
    let code = match opt_str_member(fs, "code") {
        Some(p) => p,
        None => {
            return None;
        },
    };
    Some(ErrorResponseFields { message, type_, param, code })
}

/// Decodes a whole error payload.
pub fn parse_error_body(v: &Vec<char>) -> (r: Option<OpenAiErrorResponse>)
    ensures
        r matches Some(resp) ==> spec_decode_error(v@) == Some(resp@),
        r is None ==> spec_decode_error(v@) is None,
{
    let doc = match json::parse_document(v) {
        Some(d) => d,
        None => {
            return None;
        },
    };
    let top = match &doc {
        json::JsonValue::Obj(top) => top,
        _ => {
            return None;
        },
    };
    let ei = match json::get_unique(top, "error") {
        Some(t) => t,
        None => {
            return None;
        },
    };
    let error = match error_fields_of(&top[ei].1) {
        Some(f) => f,
        None => {
            return None;
        },
    };
    Some(OpenAiErrorResponse { error })
}

/// What an internal error reads as when a response body could not be
/// decoded.
pub open spec fn spec_decode_failure_note() -> Seq<char> {
    "error decoding response body"@
}

/// The internal error that stands for an undecodable response body.
pub fn decode_failure_error() -> (e: OpenAiError)
    ensures
        e matches OpenAiError::InternalError(c) && c.top@ == spec_decode_failure_note()
            && c.causes@ == Seq::<String>::empty(),
{
    OpenAiError::InternalError(
        ErrorChain { top: String::from_str("error decoding response body"), causes: Vec::new() },
    )
}

impl From<OpenAiErrorResponse> for OpenAiError {
    fn from(r: OpenAiErrorResponse) -> (e: OpenAiError) {
        OpenAiError::HttpError(r)
    }
}

impl vstd::std_specs::convert::FromSpecImpl<OpenAiErrorResponse> for OpenAiError {
    open spec fn obeys_from_spec() -> bool {
        true
    }

    open spec fn from_spec(r: OpenAiErrorResponse) -> OpenAiError {
        OpenAiError::HttpError(r)
    }
}

} // verus!
