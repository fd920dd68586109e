use openai_client::chat_completions::decode_response;
use openai_client::chat_completions::ChatCompletionsPayload;
use openai_client::error::error_chain_fmt;
use openai_client::error::OpenAiError;
use openai_client::json::is_valid_temperature;
use openai_client::Client;
use openai_client::CompletionMessage;
use openai_client::CompletionRoles;

fn msg(role: CompletionRoles, content: &str) -> CompletionMessage {
    CompletionMessage::new(role, content.to_string())
}

#[test]
fn example_request_body() {
    let client = Client::new("sk-test".to_string()).unwrap();
    let body = client
        .chat_completions("gpt-test")
        .temperature("0.7".to_string())
        .message(msg(CompletionRoles::User, "hello"))
        .request_body();
    assert_eq!(
        body,
        "{\"model\":\"gpt-test\",\"temperature\":0.7,\"messages\":[{\"role\":\"user\",\"content\":\"hello\"}]}"
    );
}

#[test]
fn message_order_is_call_order() {
    let client = Client::new("sk-test".to_string()).unwrap();
    let body = client
        .chat_completions("gpt-test")
        .message(msg(CompletionRoles::System, "one"))
        .message(msg(CompletionRoles::User, "two"))
        .message(msg(CompletionRoles::Assistant, "three"))
        .request_body();
    assert_eq!(
        body,
        "{\"model\":\"gpt-test\",\"temperature\":0.0,\"messages\":[\
         {\"role\":\"system\",\"content\":\"one\"},\
         {\"role\":\"user\",\"content\":\"two\"},\
         {\"role\":\"assistant\",\"content\":\"three\"}]}"
    );
}

#[test]
fn temperature_last_write_wins() {
    let client = Client::new("sk-test".to_string()).unwrap();
    let body = client
        .chat_completions("gpt-test")
        .temperature("0.2".to_string())
        .temperature("1.5".to_string())
        .request_body();
    assert!(body.contains("\"temperature\":1.5"));
    assert!(!body.contains("0.2"));
}

#[test]
fn default_temperature_serialized() {
    let client = Client::new("sk-test".to_string()).unwrap();
    let body = client.chat_completions("gpt-test").request_body();
    assert!(body.contains("\"temperature\":0.0"));
}

#[test]
fn zero_messages_serialize_empty_array() {
    let client = Client::new("sk-test".to_string()).unwrap();
    let body = client.chat_completions("gpt-test").request_body();
    assert_eq!(body, "{\"model\":\"gpt-test\",\"temperature\":0.0,\"messages\":[]}");
}

#[test]
fn body_is_deterministic() {
    let build = || {
        Client::new("sk-test".to_string())
            .unwrap()
            .chat_completions("gpt-test")
            .temperature("0.7".to_string())
            .message(msg(CompletionRoles::User, "hello"))
            .request_body()
    };
    assert_eq!(build(), build());
}

#[test]
fn content_is_escaped() {
    let client = Client::new("sk-test".to_string()).unwrap();
    let body = client
        .chat_completions("gpt-test")
        .message(msg(CompletionRoles::User, "a\"b\\c\nd\te\r\u{8}\u{c}\u{1}"))
        .request_body();
    assert!(body.contains("a\\\"b\\\\c\\nd\\te\\r\\b\\f\\u0001"));
}

#[test]
fn body_matches_schema_through_oracle() {
    let client = Client::new("sk-test".to_string()).unwrap();
    let content = "quote \" backslash \\ newline \n tab \t unicode é";
    let body = client
        .chat_completions("gpt-test")
        .temperature("0.7".to_string())
        .message(msg(CompletionRoles::User, content))
        .request_body();
    let value: serde_json::Value = serde_json::from_str(&body).unwrap();
    assert_eq!(value["model"].as_str().unwrap(), "gpt-test");
    assert!((value["temperature"].as_f64().unwrap() - 0.7).abs() < 1e-9);
    let messages = value["messages"].as_array().unwrap();
    assert_eq!(messages.len(), 1);
    assert_eq!(messages[0]["role"].as_str().unwrap(), "user");
    assert_eq!(messages[0]["content"].as_str().unwrap(), content);
}

#[test]
fn payload_to_json_direct() {
    let payload = ChatCompletionsPayload {
        model: "m".to_string(),
        temperature: "1".to_string(),
        messages: vec![msg(CompletionRoles::System, "s")],
    };
    assert_eq!(
        payload.to_json(),
        "{\"model\":\"m\",\"temperature\":1,\"messages\":[{\"role\":\"system\",\"content\":\"s\"}]}"
    );
}

const SUCCESS_BODY: &str = "{\"id\":\"chatcmpl-1\",\"object\":\"chat.completion\",\
    \"model\":\"gpt-test\",\"usage\":{\"prompt_tokens\":9,\"completion_tokens\":12,\
    \"total_tokens\":21},\"choices\":[{\"message\":{\"role\":\"assistant\",\
    \"content\":\"Hi there\"},\"finish_reason\":\"stop\",\"index\":0}]}";

#[test]
fn success_body_decodes() {
    let resp = decode_response(200, SUCCESS_BODY).unwrap();
    assert_eq!(resp.id, "chatcmpl-1");
    assert_eq!(resp.object, "chat.completion");
    assert_eq!(resp.model, "gpt-test");
    assert_eq!(resp.usage.prompt_tokens, 9);
    assert_eq!(resp.usage.completion_tokens, 12);
    assert_eq!(resp.usage.total_tokens, 21);
    assert_eq!(
        resp.usage.total_tokens,
        resp.usage.prompt_tokens + resp.usage.completion_tokens
    );
    assert_eq!(resp.choices.len(), 1);
    assert_eq!(resp.choices[0].finish_reason, "stop");
    assert_eq!(resp.choices[0].index, 0);
    assert!(matches!(resp.choices[0].message.role, CompletionRoles::Assistant));
    assert_eq!(resp.choices[0].message.content, "Hi there");
}

#[test]
fn success_status_class_is_2xx() {
    assert!(decode_response(299, SUCCESS_BODY).is_ok());
    assert!(decode_response(300, SUCCESS_BODY).is_err());
    assert!(decode_response(199, SUCCESS_BODY).is_err());
}

#[test]
fn success_body_with_escapes_decodes() {
    let body = "{\"id\":\"i\",\"object\":\"o\",\"model\":\"m\",\
        \"usage\":{\"prompt_tokens\":1,\"completion_tokens\":2,\"total_tokens\":3},\
        \"choices\":[{\"message\":{\"role\":\"user\",\"content\":\"a\\n\\\"b\\\\c\\/\"},\
        \"finish_reason\":\"stop\",\"index\":4}]}";
    let resp = decode_response(200, body).unwrap();
    assert_eq!(resp.choices[0].message.content, "a\n\"b\\c/");
    assert_eq!(resp.choices[0].index, 4);
}

#[test]
fn success_body_with_empty_choices_decodes() {
    let body = "{\"id\":\"i\",\"object\":\"o\",\"model\":\"m\",\
        \"usage\":{\"prompt_tokens\":0,\"completion_tokens\":0,\"total_tokens\":0},\
        \"choices\":[]}";
    let resp = decode_response(200, body).unwrap();
    assert!(resp.choices.is_empty());
}

#[test]
fn success_body_with_many_choices_decodes() {
    let body = "{\"id\":\"i\",\"object\":\"o\",\"model\":\"m\",\
        \"usage\":{\"prompt_tokens\":1,\"completion_tokens\":2,\"total_tokens\":3},\
        \"choices\":[{\"message\":{\"role\":\"assistant\",\"content\":\"a\"},\
        \"finish_reason\":\"stop\",\"index\":0},{\"message\":{\"role\":\"assistant\",\
        \"content\":\"b\"},\"finish_reason\":\"length\",\"index\":1}]}";
    let resp = decode_response(200, body).unwrap();
    assert_eq!(resp.choices.len(), 2);
    assert_eq!(resp.choices[0].message.content, "a");
    assert_eq!(resp.choices[1].message.content, "b");
    assert_eq!(resp.choices[1].finish_reason, "length");
}

#[test]
fn malformed_success_body_is_internal_error() {
    let err = decode_response(200, "{\"id\":oops").unwrap_err();
    match err {
        OpenAiError::InternalError(chain) => {
            assert_eq!(chain.top, "error decoding response body");
            assert!(chain.causes.is_empty());
        }
        OpenAiError::HttpError(_) => panic!("expected the internal-error variant"),
    }
}

#[test]
fn token_count_bounds() {
    let body_over = "{\"id\":\"i\",\"object\":\"o\",\"model\":\"m\",\
        \"usage\":{\"prompt_tokens\":4294967296,\"completion_tokens\":0,\"total_tokens\":0},\
        \"choices\":[]}";
    assert!(decode_response(200, body_over).is_err());
    let body_max = "{\"id\":\"i\",\"object\":\"o\",\"model\":\"m\",\
        \"usage\":{\"prompt_tokens\":4294967295,\"completion_tokens\":0,\"total_tokens\":0},\
        \"choices\":[]}";
    let resp = decode_response(200, body_max).unwrap();
    assert_eq!(resp.usage.prompt_tokens, u32::MAX);
}

const ERROR_BODY: &str = "{\"error\":{\"message\":\"Incorrect API key provided\",\
    \"type\":\"invalid_request_error\",\"param\":null,\"code\":\"invalid_api_key\"}}";

#[test]
fn error_body_decodes_verbatim() {
    let err = decode_response(401, ERROR_BODY).unwrap_err();
    match err {
        OpenAiError::HttpError(resp) => {
            assert_eq!(resp.error.message, "Incorrect API key provided");
            assert_eq!(resp.error.type_, "invalid_request_error");
            assert!(resp.error.param.is_none());
            assert_eq!(resp.error.code.as_deref(), Some("invalid_api_key"));
            assert_eq!(
                resp.to_message(),
                "invalid_request_error: Incorrect API key provided"
            );
        }
        OpenAiError::InternalError(_) => panic!("expected the API-error variant"),
    }
}

#[test]
fn error_body_without_optional_fields_decodes() {
    let body = "{\"error\":{\"message\":\"m\",\"type\":\"t\"}}";
    let err = decode_response(500, body).unwrap_err();
    match err {
        OpenAiError::HttpError(resp) => {
            assert!(resp.error.param.is_none());
            assert!(resp.error.code.is_none());
        }
        OpenAiError::InternalError(_) => panic!("expected the API-error variant"),
    }
}

#[test]
fn error_body_with_param_decodes() {
    let body = "{\"error\":{\"message\":\"m\",\"type\":\"t\",\
        \"param\":\"temperature\",\"code\":null}}";
    let err = decode_response(400, body).unwrap_err();
    match err {
        OpenAiError::HttpError(resp) => {
            assert_eq!(resp.error.param.as_deref(), Some("temperature"));
            assert!(resp.error.code.is_none());
        }
        OpenAiError::InternalError(_) => panic!("expected the API-error variant"),
    }
}

#[test]
fn malformed_error_body_is_internal_error_not_crash() {
    let err = decode_response(503, "upstream exploded (not json)").unwrap_err();
    match err {
        OpenAiError::InternalError(chain) => {
            assert_eq!(chain.top, "error decoding response body");
        }
        OpenAiError::HttpError(_) => panic!("expected the internal-error variant"),
    }
}

#[test]
fn error_chain_renders_innermost_last() {
    let causes = vec!["middle failure".to_string(), "root failure".to_string()];
    let rendered = error_chain_fmt("top failure", &causes);
    assert_eq!(
        rendered,
        "top failure\n\nCaused by:\n\tmiddle failure\nCaused by:\n\troot failure\n"
    );
}

#[test]
fn error_render_walks_both_variants() {
    let api = decode_response(404, ERROR_BODY).unwrap_err();
    assert_eq!(api.render(), "invalid_request_error: Incorrect API key provided");
    assert_eq!(
        api.render_chain(),
        "invalid_request_error: Incorrect API key provided\n\n"
    );
    let internal = decode_response(200, "nope").unwrap_err();
    assert_eq!(internal.render(), "error decoding response body");
    assert_eq!(internal.render_chain(), "error decoding response body\n\n");
}

#[test]
fn exposed_key_round_trips() {
    let client = Client::new("sk-test".to_string()).unwrap();
    assert_eq!(client.expose_api_key(), "sk-test");
}

#[test]
fn temperature_numerals_follow_json_grammar() {
    assert!(is_valid_temperature("0.7"));
    assert!(is_valid_temperature("0"));
    assert!(is_valid_temperature("-0.5"));
    assert!(is_valid_temperature("2"));
    assert!(is_valid_temperature("1e-3"));
    assert!(is_valid_temperature("1.25E+2"));
    assert!(is_valid_temperature("null"));
    assert!(!is_valid_temperature(""));
    assert!(!is_valid_temperature("01"));
    assert!(!is_valid_temperature("1."));
    assert!(!is_valid_temperature(".5"));
    assert!(!is_valid_temperature("abc"));
    assert!(!is_valid_temperature("1e"));
    assert!(!is_valid_temperature("--1"));
}

#[test]
fn message_schema_round_trips() {
    let content = "mix \" of \\ specials \n\t\u{1} and slashes /";
    let client = Client::new("sk".to_string()).unwrap();
    let body = client
        .chat_completions("m")
        .message(msg(CompletionRoles::User, content))
        .request_body();
    let start = body.find('[').unwrap() + 1;
    let end = body.rfind(']').unwrap();
    let message_json = &body[start..end];
    let response = format!(
        "{{\"id\":\"i\",\"object\":\"o\",\"model\":\"m\",\
         \"usage\":{{\"prompt_tokens\":1,\"completion_tokens\":1,\"total_tokens\":2}},\
         \"choices\":[{{\"message\":{},\"finish_reason\":\"stop\",\"index\":0}}]}}",
        message_json
    );
    let resp = decode_response(200, &response).unwrap();
    assert_eq!(resp.choices[0].message.content, content);
    assert!(matches!(resp.choices[0].message.role, CompletionRoles::User));
}

#[test]
fn response_fixture_agrees_with_oracle() {
    let value: serde_json::Value = serde_json::from_str(SUCCESS_BODY).unwrap();
    let resp = decode_response(200, SUCCESS_BODY).unwrap();
    assert_eq!(resp.id, value["id"].as_str().unwrap());
    assert_eq!(resp.model, value["model"].as_str().unwrap());
    assert_eq!(
        resp.usage.total_tokens as u64,
        value["usage"]["total_tokens"].as_u64().unwrap()
    );
    assert_eq!(
        resp.choices[0].message.content,
        value["choices"][0]["message"]["content"].as_str().unwrap()
    );
}

#[test]
fn leading_whitespace_bodies_decode() {
    let body = format!(" {}\n", SUCCESS_BODY);
    assert!(decode_response(200, &body).is_ok());
    let err_body = format!("\t{}", ERROR_BODY);
    assert!(matches!(
        decode_response(401, &err_body).unwrap_err(),
        OpenAiError::HttpError(_)
    ));
}

#[test]
fn pretty_printed_success_body_decodes() {
    let body = "{\n  \"id\": \"i\",\n  \"object\": \"o\",\n  \"model\": \"m\",\n  \"usage\": {\"prompt_tokens\": 1, \"completion_tokens\": 2, \"total_tokens\": 3},\n  \"choices\": [\n    {\"message\": {\"role\": \"user\", \"content\": \"hi\"}, \"finish_reason\": \"stop\", \"index\": 0}\n  ]\n}";
    let resp = decode_response(200, body).unwrap();
    assert_eq!(resp.usage.total_tokens, 3);
    assert_eq!(resp.choices[0].message.content, "hi");
}

#[test]
fn reordered_and_unknown_members_decode() {
    let body = "{\"created\":1694268190,\"model\":\"m\",\"choices\":[{\"index\":0,\"finish_reason\":\"stop\",\"message\":{\"content\":\"hi\",\"role\":\"assistant\",\"refusal\":null}}],\"system_fingerprint\":\"fp\",\"usage\":{\"total_tokens\":3,\"prompt_tokens\":1,\"completion_tokens\":2,\"details\":{\"x\":[1,2,-3.5e2,true]}},\"object\":\"o\",\"id\":\"i\"}";
    let resp = decode_response(200, body).unwrap();
    assert_eq!(resp.id, "i");
    assert_eq!(resp.usage.prompt_tokens, 1);
    assert_eq!(resp.choices[0].message.content, "hi");
    assert!(matches!(resp.choices[0].message.role, CompletionRoles::Assistant));
}

#[test]
fn unicode_escapes_decode() {
    let body = "{\"id\":\"\\u0041\\u00e9\\ud83d\\ude00\",\"object\":\"o\",\"model\":\"m\",\"usage\":{\"prompt_tokens\":0,\"completion_tokens\":0,\"total_tokens\":0},\"choices\":[]}";
    let resp = decode_response(200, body).unwrap();
    assert_eq!(resp.id, "A\u{e9}\u{1F600}");
}

#[test]
fn lone_surrogate_is_refused() {
    let lone = "{\"error\":{\"message\":\"\\ud83d\",\"type\":\"t\"}}";
    assert!(matches!(
        decode_response(500, lone).unwrap_err(),
        OpenAiError::InternalError(_)
    ));
}

#[test]
fn optional_fields_in_either_order_decode() {
    let body = "{\"error\": {\"code\": \"c\", \"type\": \"t\", \"message\": \"m\", \"param\": null}}";
    let err = decode_response(429, body).unwrap_err();
    match err {
        OpenAiError::HttpError(resp) => {
            assert_eq!(resp.error.code.as_deref(), Some("c"));
            assert!(resp.error.param.is_none());
        }
        OpenAiError::InternalError(_) => panic!("expected the API-error variant"),
    }
}

#[test]
fn duplicate_known_member_is_refused() {
    let body = "{\"id\":\"a\",\"id\":\"b\",\"object\":\"o\",\"model\":\"m\",\"usage\":{\"prompt_tokens\":0,\"completion_tokens\":0,\"total_tokens\":0},\"choices\":[]}";
    assert!(decode_response(200, body).is_err());
}
