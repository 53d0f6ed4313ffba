use cake::provider::{ProviderConfig, Role};
use cake::responses::{extract_instructions, ConversationItem};

#[test]
fn extract_instructions_with_system_message() {
    let history = vec![
        ConversationItem::Message {
            role: Role::System,
            content: "You are cake.".to_string(),
            id: None,
            status: None,
            timestamp: None,
        },
        ConversationItem::Message {
            role: Role::User,
            content: "Hello".to_string(),
            id: None,
            status: None,
            timestamp: None,
        },
    ];
    let (instructions, remaining) = extract_instructions(&history).unwrap();
    assert_eq!(instructions, Some("You are cake."));
    assert_eq!(remaining.len(), 1);
    assert!(matches!(
        &remaining[0],
        ConversationItem::Message {
            role: Role::User,
            ..
        }
    ));
}

#[test]
fn extract_instructions_without_system_message() {
    let history = vec![ConversationItem::Message {
        role: Role::User,
        content: "Hello".to_string(),
        id: None,
        status: None,
        timestamp: None,
    }];
    let (instructions, remaining) = extract_instructions(&history).unwrap();
    assert!(instructions.is_none());
    assert_eq!(remaining.len(), 1);
}

#[test]
fn extract_instructions_empty_history() {
    let history: Vec<ConversationItem> = vec![];
    let (instructions, remaining) = extract_instructions(&history).unwrap();
    assert!(instructions.is_none());
    assert!(remaining.is_empty());
}

#[test]
fn extract_instructions_system_message_non_first_position_errors() {
    let history = vec![
        ConversationItem::Message {
            role: Role::User,
            content: "Hello".to_string(),
            id: None,
            status: None,
            timestamp: None,
        },
        ConversationItem::Message {
            role: Role::System,
            content: "You are cake.".to_string(),
            id: None,
            status: None,
            timestamp: None,
        },
        ConversationItem::Message {
            role: Role::Assistant,
            content: "Later history must not be silently dropped.".to_string(),
            id: Some("msg-1".to_string()),
            status: Some("completed".to_string()),
            timestamp: None,
        },
    ];
    let err = extract_instructions(&history).unwrap_err();
    assert_eq!(
        err.to_string(),
        "invalid Responses API conversation history: system message found at index 1; \
             system messages are only valid as the first history item"
    );
}

#[test]
fn provider_config_with_all_returns_none() {
    let providers = vec!["all".to_string()];
    let config = if providers.is_empty() || (providers.len() == 1 && providers[0] == "all") {
        None
    } else {
        Some(ProviderConfig { only: providers })
    };
    assert!(config.is_none());
}

// -----------------------------------------------------------------------------
// Output parsing, termination, usage, input items and streams
// -----------------------------------------------------------------------------

use cake::responses::{
    build_input, classify_response_termination, parse_json_response, looks_like_sse_body, map_usage,
    parse_output_items, response_contains_refusal, responses_termination, sse_data_events,
    parse_streaming_response, ApiInputTokensDetails, ApiResponse, ApiResponseEnvelope, ApiUsage,
    IncompleteDetails, OutputContent, OutputMessage, ReasoningSummary, ResponsesApiInputItem,
    StreamEvent, TerminationClassification,
};

fn output(msg_type: &str) -> OutputMessage {
    OutputMessage {
        msg_type: msg_type.to_string(),
        id: None,
        call_id: None,
        name: None,
        arguments: None,
        status: None,
        content: None,
        encrypted_content: None,
        summary: None,
    }
}

fn text_part(kind: &str, text: Option<&str>) -> OutputContent {
    OutputContent {
        content_type: kind.to_string(),
        text: text.map(str::to_string),
    }
}

fn response(id: Option<&str>, output: Vec<OutputMessage>) -> ApiResponse {
    ApiResponse {
        id: id.map(str::to_string),
        output,
        usage: None,
    }
}

#[test]
fn message_output_takes_first_output_text() {
    let mut msg = output("message");
    msg.id = Some("msg-1".to_string());
    msg.status = Some("completed".to_string());
    msg.content = Some(vec![
        text_part("refusal", Some("no")),
        text_part("output_text", Some("Hello")),
        text_part("output_text", Some("World")),
    ]);
    let items = parse_output_items(&response(Some("r"), vec![msg])).unwrap();
    assert_eq!(items.len(), 1);
    match &items[0] {
        ConversationItem::Message { role, content, id, status, timestamp } => {
            assert_eq!(*role, Role::Assistant);
            assert_eq!(content, "Hello");
            assert_eq!(id.as_deref(), Some("msg-1"));
            assert_eq!(status.as_deref(), Some("completed"));
            assert!(timestamp.is_some());
        },
        other => panic!("unexpected {other:?}"),
    }
}

#[test]
fn message_without_output_text_is_empty() {
    let items = parse_output_items(&response(Some("r"), vec![output("message")])).unwrap();
    assert!(matches!(&items[0], ConversationItem::Message { content, .. } if content.is_empty()));
}

#[test]
fn function_call_arguments_are_normalized() {
    let mut call = output("function_call");
    call.id = Some("fc-1".to_string());
    call.call_id = Some("call-1".to_string());
    call.name = Some("Bash".to_string());
    call.arguments = Some("   ".to_string());
    let items = parse_output_items(&response(Some("r"), vec![call])).unwrap();
    match &items[0] {
        ConversationItem::FunctionCall { id, call_id, name, arguments, .. } => {
            assert_eq!(id, "fc-1");
            assert_eq!(call_id, "call-1");
            assert_eq!(name, "Bash");
            assert_eq!(arguments, "{}");
        },
        other => panic!("unexpected {other:?}"),
    }
}

#[test]
fn malformed_function_call_names_missing_fields() {
    let mut call = output("message");
    call.msg_type = "function_call".to_string();
    call.call_id = Some(String::new());
    call.name = Some("Bash".to_string());
    let err = parse_output_items(&response(Some("resp-9"), vec![output("message"), call])).unwrap_err();
    assert_eq!(
        err,
        "malformed Responses API function_call at output[1] in response resp-9: missing or empty required field(s): id, call_id, arguments"
    );
}

#[test]
fn reasoning_summary_falls_back_to_reasoning_text() {
    let mut reasoning = output("reasoning");
    reasoning.id = Some("rs-1".to_string());
    reasoning.summary = Some(Vec::new());
    reasoning.content = Some(vec![
        text_part("reasoning_text", Some("step one")),
        text_part("other", Some("skip")),
        text_part("reasoning_text", None),
    ]);
    let items = parse_output_items(&response(Some("r"), vec![reasoning])).unwrap();
    match &items[0] {
        ConversationItem::Reasoning { id, summary, content, .. } => {
            assert_eq!(id, "rs-1");
            let summary = summary.as_ref().unwrap();
            assert_eq!(summary.len(), 1);
            assert_eq!(summary[0].summary_type, "summary_text");
            assert_eq!(summary[0].text, "step one");
            assert_eq!(content.as_ref().unwrap().len(), 3);
        },
        other => panic!("unexpected {other:?}"),
    }
}

#[test]
fn reasoning_keeps_its_own_summary_and_needs_an_id() {
    let mut reasoning = output("reasoning");
    reasoning.id = Some("rs-2".to_string());
    reasoning.summary = Some(vec![ReasoningSummary {
        summary_type: "summary_text".to_string(),
        text: "thought".to_string(),
    }]);
    let no_id = output("reasoning");
    let items = parse_output_items(&response(Some("r"), vec![no_id, reasoning])).unwrap();
    assert_eq!(items.len(), 1);
    match &items[0] {
        ConversationItem::Reasoning { summary, .. } => {
            assert_eq!(summary.as_ref().unwrap()[0].text, "thought");
        },
        other => panic!("unexpected {other:?}"),
    }
}

#[test]
fn only_unknown_output_types_is_an_error() {
    let err = parse_output_items(&response(None, vec![output("web_search"), output("audio")])).unwrap_err();
    assert_eq!(
        err,
        "Responses API response <missing id> contained only unknown output type(s): output[0] type 'web_search', output[1] type 'audio'"
    );
    let items = parse_output_items(&response(None, vec![output("web_search"), output("message")])).unwrap();
    assert_eq!(items.len(), 1);
    assert!(parse_output_items(&response(None, vec![])).unwrap().is_empty());
}

#[test]
fn termination_classification_order() {
    assert_eq!(
        classify_response_termination(&["completed"], Some("content_filter"), true),
        TerminationClassification::ContentFilter
    );
    assert_eq!(classify_response_termination(&["completed"], None, true), TerminationClassification::Failed);
    assert_eq!(classify_response_termination(&["cancelled"], None, false), TerminationClassification::Failed);
    assert_eq!(
        classify_response_termination(&["incomplete"], Some("max_output_tokens"), false),
        TerminationClassification::TokenLimit
    );
    assert_eq!(classify_response_termination(&["queued"], None, false), TerminationClassification::Incomplete);
    assert_eq!(classify_response_termination(&["completed"], None, false), TerminationClassification::Completed);
    assert_eq!(classify_response_termination(&[], Some("other"), false), TerminationClassification::Unknown);
}

#[test]
fn termination_record() {
    assert!(responses_termination(None, Vec::new(), None, false).is_none());
    let t = responses_termination(None, vec!["incomplete", "completed"], Some("length"), false).unwrap();
    assert_eq!(t.classification, TerminationClassification::TokenLimit);
    assert_eq!(t.provider_status.as_deref(), Some("incomplete"));
    assert_eq!(t.provider_reason.as_deref(), Some("length"));
    let t = responses_termination(Some("completed"), vec!["incomplete"], None, false).unwrap();
    assert_eq!(t.classification, TerminationClassification::Incomplete);
    assert_eq!(t.provider_status.as_deref(), Some("completed"));
}

#[test]
fn refusal_detection() {
    let mut msg = output("message");
    msg.content = Some(vec![text_part("refusal", Some("no"))]);
    assert!(response_contains_refusal(&response(None, vec![msg])));
    assert!(response_contains_refusal(&response(None, vec![output("refusal")])));
    assert!(!response_contains_refusal(&response(None, vec![output("message")])));
}

#[test]
fn usage_defaults_missing_counts_to_zero() {
    let usage = ApiUsage {
        input_tokens: Some(10),
        input_tokens_details: Some(ApiInputTokensDetails {
            cached_tokens: Some(4),
            cache_write_tokens: None,
        }),
        output_tokens: None,
        output_tokens_details: None,
        total_tokens: Some(12),
    };
    let mapped = map_usage(&usage, &response(None, vec![]));
    assert_eq!(mapped.input_tokens, 10);
    assert_eq!(mapped.output_tokens, 0);
    assert_eq!(mapped.total_tokens, 12);
    assert_eq!(mapped.input_tokens_details.cached_tokens, 4);
    assert_eq!(mapped.input_tokens_details.cache_write_tokens, 0);
    assert_eq!(mapped.output_tokens_details.reasoning_tokens, 0);
}

#[test]
fn input_items_mirror_history() {
    let history = vec![
        ConversationItem::Message {
            role: Role::User,
            content: "hi".to_string(),
            id: None,
            status: None,
            timestamp: None,
        },
        ConversationItem::Message {
            role: Role::Assistant,
            content: "hello".to_string(),
            id: Some("m".to_string()),
            status: Some("completed".to_string()),
            timestamp: None,
        },
        ConversationItem::FunctionCallOutput {
            call_id: "c".to_string(),
            output: "ok".to_string(),
            timestamp: None,
        },
        ConversationItem::Reasoning {
            id: "r".to_string(),
            summary: None,
            encrypted_content: Some("enc".to_string()),
            content: None,
            timestamp: None,
        },
    ];
    let input = build_input(&history);
    match &input[0] {
        ResponsesApiInputItem::Message { role, content, id, status } => {
            assert_eq!(*role, "user");
            assert_eq!(content[0].content_type, "input_text");
            assert_eq!(content[0].text, "hi");
            assert!(!content[0].empty_annotations);
            assert!(id.is_none() && status.is_none());
        },
        other => panic!("unexpected {other:?}"),
    }
    match &input[1] {
        ResponsesApiInputItem::Message { role, content, id, status } => {
            assert_eq!(*role, "assistant");
            assert_eq!(content[0].content_type, "output_text");
            assert!(content[0].empty_annotations);
            assert_eq!(*id, Some("m"));
            assert_eq!(*status, Some("completed"));
        },
        other => panic!("unexpected {other:?}"),
    }
    assert!(matches!(&input[2], ResponsesApiInputItem::FunctionCallOutput { call_id: "c", output: "ok" }));
    match &input[3] {
        ResponsesApiInputItem::Reasoning { id, summary, encrypted_content, content } => {
            assert_eq!(*id, "r");
            assert!(summary.is_empty());
            assert_eq!(*encrypted_content, Some("enc"));
            assert!(content.is_none());
        },
        other => panic!("unexpected {other:?}"),
    }
}

#[test]
fn sse_events_are_split_on_blank_lines() {
    let body = "event: x\ndata: {\"a\":1}\n\ndata:one\r\ndata: two\n\n: comment\ndata: [DONE]";
    assert_eq!(
        sse_data_events(body),
        vec!["{\"a\":1}".to_string(), "one\ntwo".to_string(), "[DONE]".to_string()]
    );
    assert!(sse_data_events("").is_empty());
    assert!(sse_data_events("\n\n").is_empty());
}

#[test]
fn sse_body_detection() {
    assert!(looks_like_sse_body(b"  \n event: response.created"));
    assert!(looks_like_sse_body(b"data: {}"));
    assert!(!looks_like_sse_body(b"{\"id\":\"r\"}"));
}

#[test]
fn stream_without_completion_fails() {
    let err = parse_streaming_response(vec![Ok(StreamEvent::OutputTextDelta {
        delta: Some("hi".to_string()),
    })])
    .unwrap_err();
    assert_eq!(err, "Responses API stream ended before response.completed");
}

#[test]
fn stream_text_becomes_a_message() {
    let result = parse_streaming_response(vec![
        Ok(StreamEvent::OutputTextDelta { delta: Some("Hel".to_string()) }),
        Ok(StreamEvent::Other),
        Ok(StreamEvent::OutputTextDelta { delta: Some("lo".to_string()) }),
        Ok(StreamEvent::Completed {
            id: Some("resp-1".to_string()),
            status: Some("completed".to_string()),
            usage: None,
            output: Some(Vec::new()),
        }),
    ])
    .unwrap();
    assert_eq!(result.provider_request_id.as_deref(), Some("resp-1"));
    assert_eq!(result.items.len(), 1);
    assert!(matches!(&result.items[0], ConversationItem::Message { content, id, .. } if content == "Hello" && id.as_deref() == Some("resp-1")));
    assert_eq!(
        result.termination.unwrap().classification,
        TerminationClassification::Completed
    );
}

#[test]
fn stream_failures_and_bad_events_stop_the_stream() {
    let err = parse_streaming_response(vec![Ok(StreamEvent::Failed { message: None })]).unwrap_err();
    assert_eq!(err, "Responses API stream failed: unknown error");
    let err = parse_streaming_response(vec![
        Err("expected value".to_string()),
        Ok(StreamEvent::Failed { message: Some("boom".to_string()) }),
    ])
    .unwrap_err();
    assert_eq!(err, "failed to parse Responses API SSE event: expected value");
}

#[test]
fn stream_incomplete_reason_is_reported() {
    let mut item = output("message");
    item.content = Some(vec![text_part("output_text", Some("partial"))]);
    let result = parse_streaming_response(vec![
        Ok(StreamEvent::OutputItemDone { item: Some(item) }),
        Ok(StreamEvent::Incomplete { reason: Some("max_output_tokens".to_string()) }),
        Ok(StreamEvent::Completed {
            id: None,
            status: Some("incomplete".to_string()),
            usage: None,
            output: None,
        }),
    ])
    .unwrap();
    assert_eq!(result.items.len(), 1);
    let t = result.termination.unwrap();
    assert_eq!(t.classification, TerminationClassification::TokenLimit);
    assert_eq!(t.provider_reason.as_deref(), Some("max_output_tokens"));
}

#[test]
fn json_response_reads_the_envelope() {
    let mut msg = output("message");
    msg.content = Some(vec![text_part("output_text", Some("done"))]);
    let envelope = ApiResponseEnvelope {
        response: ApiResponse {
            id: Some("resp-2".to_string()),
            output: vec![msg],
            usage: Some(ApiUsage::default()),
        },
        status: Some("completed".to_string()),
        incomplete_details: Some(IncompleteDetails { reason: None }),
    };
    let result = parse_json_response(envelope).unwrap();
    assert_eq!(result.items.len(), 1);
    assert_eq!(result.usage.unwrap().total_tokens, 0);
    assert_eq!(result.provider_request_id.as_deref(), Some("resp-2"));
    assert_eq!(result.termination.unwrap().classification, TerminationClassification::Completed);
}

use cake::responses::looks_like_sse_text;

#[test]
fn sse_text_detection() {
    assert!(looks_like_sse_text("  \nevent: x"));
    assert!(looks_like_sse_text("data: {}"));
    assert!(!looks_like_sse_text("{\"data\": 1}"));
}

#[test]
fn malformed_call_with_arguments_lists_only_the_identifying_fields() {
    let mut call = output("function_call");
    call.id = Some("fc".to_string());
    call.call_id = Some("c".to_string());
    call.arguments = Some(String::new());
    let err = parse_output_items(&response(None, vec![call])).unwrap_err();
    assert_eq!(
        err,
        "malformed Responses API function_call at output[0] in response <missing id>: missing or empty required field(s): name"
    );
}
