//! Conversation history as the Responses API sees it.
use vstd::prelude::*;
use vstd::string::*;
use vstd::utf8::*;

use crate::provider::{role_name, routing_of, texts_of, ModelProvider, ProviderConfig, ProviderStrategy, Role};
use crate::retry::RequestOverrides;
use crate::retry::current_time_ms;
use crate::bash_output::{utf8_lossy, utf8_lossy_text};
use crate::text::{
    ascii_cut, decimal_chars, decimal_string, lemma_encode_concat, lines_from, slice_eq,
    starts_with_bytes, strip_cr, starts_with_slice, str_trim, str_trim_start, trim_chars,
    trim_start_chars,
};

verus! {

broadcast use vstd::seq::group_seq_axioms;

/// A reasoning summary part.
#[derive(Debug, Clone)]
pub struct ReasoningSummary {
    pub summary_type: String,
    pub text: String,
}

/// A reasoning content part.
#[derive(Debug, Clone)]
pub struct ReasoningContent {
    pub content_type: String,
    pub text: Option<String>,
}

/// One item of a conversation.  Timestamps are milliseconds since the Unix
/// epoch.
#[derive(Debug, Clone)]
pub enum ConversationItem {
    Message {
        role: Role,
        content: String,
        id: Option<String>,
        status: Option<String>,
        timestamp: Option<i64>,
    },
    FunctionCall {
        id: String,
        call_id: String,
        name: String,
        arguments: String,
        timestamp: Option<i64>,
    },
    FunctionCallOutput { call_id: String, output: String, timestamp: Option<i64> },
    Reasoning {
        id: String,
        summary: Option<Vec<ReasoningSummary>>,
        encrypted_content: Option<String>,
        content: Option<Vec<ReasoningContent>>,
        timestamp: Option<i64>,
    },
}

/// The item is a system message.
pub open spec fn is_system_message(item: ConversationItem) -> bool {
    item matches ConversationItem::Message { role, .. } && role == Role::System
}

/// The position of the first system message in `history` from `i` on.
pub open spec fn system_index_from(history: Seq<ConversationItem>, i: int) -> Option<int>
    decreases history.len() - i,
{
    if i < 0 || i >= history.len() {
        None
    } else if is_system_message(history[i]) {
        Some(i)
    } else {
        system_index_from(history, i + 1)
    }
}

/// The error for a system message that is not the first history item.
pub open spec fn misplaced_system_text(idx: nat) -> Seq<char> {
    "invalid Responses API conversation history: system message found at index "@ + decimal_chars(idx)
        + "; system messages are only valid as the first history item"@
}

/// Split the Responses API instructions (a leading system message) off the
/// history.  A system message anywhere else is an error, which protects
/// callers from sending truncated or malformed history.
pub fn extract_instructions(history: &[ConversationItem]) -> (r: Result<(Option<&str>, &[ConversationItem]), String>)
    ensures
        match system_index_from(history@, 0) {
            None => r matches Ok((None, rest)) && rest@ == history@,
            Some(idx) => if idx == 0 {
                r matches Ok((Some(instructions), rest)) && (history@[0] matches ConversationItem::Message {
                content,
                ..
            } && instructions@ == content@) && rest@ == history@.subrange(1, history@.len() as int)
            } else {
                r matches Err(m) && m@ == misplaced_system_text(idx as nat)
            },
        },
{
    let mut i: usize = 0;
    while i < history.len()
        invariant
            i <= history@.len(),
            system_index_from(history@, 0) == system_index_from(history@, i as int),
        decreases history@.len() - i,
    {
        let is_system = match &history[i] {
            ConversationItem::Message { role, .. } => *role == Role::System,
            _ => false,
        };
        if is_system {
            if i == 0 {
                return match &history[0] {
                    ConversationItem::Message { content, .. } => Ok(
                        (Some(content.as_str()), &history[1..history.len()]),
                    ),
                    _ => Ok((None, history)),
                };
            }
            let mut m = <String as StringExecFns>::from_str(
                "invalid Responses API conversation history: system message found at index ",
            );
            let idx = decimal_string(i as u128);
            m.append(idx.as_str());
            m.append("; system messages are only valid as the first history item");
            return Err(m);
        }
        i += 1;
    }
    Ok((None, history))
}


// =============================================================================
// Responses API output
// =============================================================================

/// One content part of an output item.
#[derive(Debug, Clone)]
pub struct OutputContent {
    pub content_type: String,
    pub text: Option<String>,
}

/// One output item of a Responses API response.
#[derive(Debug, Clone)]
pub struct OutputMessage {
    pub msg_type: String,
    pub id: Option<String>,
    pub call_id: Option<String>,
    pub name: Option<String>,
    pub arguments: Option<String>,
    pub status: Option<String>,
    pub content: Option<Vec<OutputContent>>,
    pub encrypted_content: Option<String>,
    pub summary: Option<Vec<ReasoningSummary>>,
}

#[derive(Debug, Clone, Default)]
pub struct ApiInputTokensDetails {
    pub cached_tokens: Option<u64>,
    pub cache_write_tokens: Option<u64>,
}

#[derive(Debug, Clone, Default)]
pub struct ApiOutputTokensDetails {
    pub reasoning_tokens: Option<u64>,
}

/// Token usage as the Responses API reports it.
#[derive(Debug, Clone, Default)]
pub struct ApiUsage {
    pub input_tokens: Option<u64>,
    pub input_tokens_details: Option<ApiInputTokensDetails>,
    pub output_tokens: Option<u64>,
    pub output_tokens_details: Option<ApiOutputTokensDetails>,
    pub total_tokens: Option<u64>,
}

/// A Responses API response.
#[derive(Debug, Clone)]
pub struct ApiResponse {
    pub id: Option<String>,
    pub output: Vec<OutputMessage>,
    pub usage: Option<ApiUsage>,
}

/// The content of a conversation item, without its timestamp.
pub enum ItemModel {
    Message { role: Role, content: Seq<char>, id: Option<Seq<char>>, status: Option<Seq<char>> },
    FunctionCall { id: Seq<char>, call_id: Seq<char>, name: Seq<char>, arguments: Seq<char> },
    FunctionCallOutput { call_id: Seq<char>, output: Seq<char> },
    Reasoning {
        id: Seq<char>,
        summary: Option<Seq<(Seq<char>, Seq<char>)>>,
        encrypted_content: Option<Seq<char>>,
        content: Option<Seq<(Seq<char>, Option<Seq<char>>)>>,
    },
}

/// The character view of an optional string.
pub open spec fn opt_view(v: Option<String>) -> Option<Seq<char>> {
    match v {
        Some(s) => Some(s@),
        None => None,
    }
}

/// The `(type, text)` views of summary parts.
pub open spec fn summary_views(v: Seq<ReasoningSummary>) -> Seq<(Seq<char>, Seq<char>)> {
    v.map_values(|p: ReasoningSummary| (p.summary_type@, p.text@))
}

/// The `(type, text)` views of reasoning content parts.
pub open spec fn reasoning_content_views(v: Seq<ReasoningContent>) -> Seq<(Seq<char>, Option<Seq<char>>)> {
    v.map_values(|p: ReasoningContent| (p.content_type@, opt_view(p.text)))
}

/// The `(type, text)` views of output content parts.
pub open spec fn content_views(v: Seq<OutputContent>) -> Seq<(Seq<char>, Option<Seq<char>>)> {
    v.map_values(|p: OutputContent| (p.content_type@, opt_view(p.text)))
}

impl ConversationItem {
    /// The item without its timestamp, by views.
    pub open spec fn model(&self) -> ItemModel {
        match self {
            ConversationItem::Message { role, content, id, status, .. } => ItemModel::Message {
                role: *role,
                content: content@,
                id: opt_view(*id),
                status: opt_view(*status),
            },
            ConversationItem::FunctionCall { id, call_id, name, arguments, .. } => ItemModel::FunctionCall {
                id: id@,
                call_id: call_id@,
                name: name@,
                arguments: arguments@,
            },
            ConversationItem::FunctionCallOutput { call_id, output, .. } => ItemModel::FunctionCallOutput {
                call_id: call_id@,
                output: output@,
            },
            ConversationItem::Reasoning { id, summary, encrypted_content, content, .. } => ItemModel::Reasoning {
                id: id@,
                summary: match summary {
                    Some(v) => Some(summary_views(v@)),
                    None => None,
                },
                encrypted_content: opt_view(*encrypted_content),
                content: match content {
                    Some(v) => Some(reasoning_content_views(v@)),
                    None => None,
                },
            },
        }
    }

    /// The item's timestamp.
    pub open spec fn time(&self) -> Option<i64> {
        match self {
            ConversationItem::Message { timestamp, .. } => *timestamp,
            ConversationItem::FunctionCall { timestamp, .. } => *timestamp,
            ConversationItem::FunctionCallOutput { timestamp, .. } => *timestamp,
            ConversationItem::Reasoning { timestamp, .. } => *timestamp,
        }
    }
}

/// The summaries taken from reasoning content when the item has none: one
/// `summary_text` part per `reasoning_text` part that has text.
pub open spec fn summaries_from_content(c: Seq<(Seq<char>, Option<Seq<char>>)>) -> Seq<(Seq<char>, Seq<char>)>
    decreases c.len(),
{
    if c.len() == 0 {
        seq![]
    } else {
        let rest = summaries_from_content(c.drop_last());
        let last = c.last();
        if last.0 == "reasoning_text"@ && last.1 is Some {
            rest.push(("summary_text"@, last.1->0))
        } else {
            rest
        }
    }
}

/// The summary of a reasoning output item: its own summary when non-empty,
/// else one derived from its reasoning text, else none.
pub open spec fn reasoning_summary_of(o: OutputMessage) -> Seq<(Seq<char>, Seq<char>)> {
    match o.summary {
        Some(v) if v@.len() > 0 => summary_views(v@),
        _ => match o.content {
            Some(c) => summaries_from_content(content_views(c@)),
            None => seq![],
        },
    }
}

/// The text of the first `output_text` part, if there is one and it has text.
pub open spec fn first_output_text(c: Seq<(Seq<char>, Option<Seq<char>>)>) -> Option<Seq<char>>
    decreases c.len(),
{
    if c.len() == 0 {
        None
    } else if c[0].0 == "output_text"@ {
        c[0].1
    } else {
        first_output_text(c.drop_first())
    }
}

/// A required field is present and non-empty.
pub open spec fn filled(v: Option<Seq<char>>) -> bool {
    v matches Some(x) && x.len() > 0
}

/// The response id as shown in errors.
pub open spec fn response_label(id: Option<Seq<char>>) -> Seq<char> {
    match id {
        Some(i) => i,
        None => "<missing id>"@,
    }
}

/// The names of the fields of a function call that are missing (or, for
/// the identifying fields, empty), in the order `id`, `call_id`, `name`,
/// `arguments`.
pub open spec fn missing_fields(o: OutputMessage) -> Seq<Seq<char>> {
    (if filled(opt_view(o.id)) { seq![] } else { seq!["id"@] }) + (if filled(opt_view(o.call_id)) {
        seq![]
    } else {
        seq!["call_id"@]
    }) + (if filled(opt_view(o.name)) {
        seq![]
    } else {
        seq!["name"@]
    }) + (if o.arguments is Some {
        seq![]
    } else {
        seq!["arguments"@]
    })
}

/// The strings joined with `, `.
pub open spec fn comma_joined(parts: Seq<Seq<char>>) -> Seq<char>
    decreases parts.len(),
{
    if parts.len() == 0 {
        seq![]
    } else if parts.len() == 1 {
        parts[0]
    } else {
        comma_joined(parts.drop_last()) + ", "@ + parts.last()
    }
}

/// The error for a malformed function call at `index`.
pub open spec fn malformed_call_text(resp_id: Option<Seq<char>>, o: OutputMessage, index: nat) -> Seq<char> {
    "malformed Responses API function_call at output["@ + decimal_chars(index) + "] in response "@
        + response_label(resp_id) + ": missing or empty required field(s): "@ + comma_joined(
        missing_fields(o),
    )
}

/// The description of unknown output types.
pub open spec fn unknown_list(unknown: Seq<(nat, Seq<char>)>) -> Seq<Seq<char>> {
    unknown.map_values(|u: (nat, Seq<char>)| "output["@ + decimal_chars(u.0) + "] type '"@ + u.1 + "'"@)
}

/// The error for a response holding only unknown output types.
pub open spec fn unknown_types_text(resp_id: Option<Seq<char>>, unknown: Seq<(nat, Seq<char>)>) -> Seq<char> {
    "Responses API response "@ + response_label(resp_id) + " contained only unknown output type(s): "@
        + comma_joined(unknown_list(unknown))
}

/// The arguments of a function call: missing or blank arguments become `{}`.
pub open spec fn call_arguments(a: Option<Seq<char>>) -> Seq<char> {
    match a {
        Some(x) if trim_chars(x).len() > 0 => x,
        _ => "{}"@,
    }
}

/// The conversation items and unknown output types of the first `n` output
/// items, or the error of the first malformed function call among them.
pub open spec fn outputs_parsed(resp_id: Option<Seq<char>>, outs: Seq<OutputMessage>, n: int) -> Result<
    (Seq<ItemModel>, Seq<(nat, Seq<char>)>),
    Seq<char>,
>
    decreases n,
{
    if n <= 0 || n > outs.len() {
        Ok((seq![], seq![]))
    } else {
        match outputs_parsed(resp_id, outs, n - 1) {
            Err(e) => Err(e),
            Ok((items, unknown)) => {
                let o = outs[n - 1];
                let t = o.msg_type@;
                if t == "reasoning"@ {
                    match o.id {
                        Some(id) => Ok(
                            (
                                items.push(
                                    ItemModel::Reasoning {
                                        id: id@,
                                        summary: Some(reasoning_summary_of(o)),
                                        encrypted_content: opt_view(o.encrypted_content),
                                        content: match o.content {
                                            Some(c) => Some(content_views(c@)),
                                            None => None,
                                        },
                                    },
                                ),
                                unknown,
                            ),
                        ),
                        None => Ok((items, unknown)),
                    }
                } else if t == "function_call"@ {
                    if filled(opt_view(o.id)) && filled(opt_view(o.call_id)) && filled(opt_view(o.name)) {
                        Ok(
                            (
                                items.push(
                                    ItemModel::FunctionCall {
                                        id: o.id->0@,
                                        call_id: o.call_id->0@,
                                        name: o.name->0@,
                                        arguments: call_arguments(opt_view(o.arguments)),
                                    },
                                ),
                                unknown,
                            ),
                        )
                    } else {
                        Err(malformed_call_text(resp_id, o, (n - 1) as nat))
                    }
                } else if t == "message"@ {
                    Ok(
                        (
                            items.push(
                                ItemModel::Message {
                                    role: Role::Assistant,
                                    content: match o.content {
                                        Some(c) => match first_output_text(content_views(c@)) {
                                            Some(x) => x,
                                            None => seq![],
                                        },
                                        None => seq![],
                                    },
                                    id: opt_view(o.id),
                                    status: opt_view(o.status),
                                },
                            ),
                            unknown,
                        ),
                    )
                } else {
                    Ok((items, unknown.push(((n - 1) as nat, t))))
                }
            },
        }
    }
}

/// The conversation items of a response: every reasoning item with an id,
/// every function call (which must carry an id, call id and name), every
/// message, in order; output types cake does not know are skipped, unless
/// nothing else is there.
pub open spec fn parsed_output(resp: ApiResponse) -> Result<Seq<ItemModel>, Seq<char>> {
    let rid = opt_view(resp.id);
    match outputs_parsed(rid, resp.output@, resp.output@.len() as int) {
        Err(e) => Err(e),
        Ok((items, unknown)) => if items.len() == 0 && unknown.len() > 0 {
            Err(unknown_types_text(rid, unknown))
        } else {
            Ok(items)
        },
    }
}

/// Whether an output of a response becomes a conversation item: a
/// reasoning output with an id, a function call or a message.
pub open spec fn yields_item(o: OutputMessage) -> bool {
    if o.msg_type@ == "reasoning"@ {
        o.id is Some
    } else {
        o.msg_type@ == "function_call"@ || o.msg_type@ == "message"@
    }
}

/// The positions, in order, of the first `n` outputs that become items.
pub open spec fn item_sources(outs: Seq<OutputMessage>, n: int) -> Seq<int>
    decreases n,
{
    if n <= 0 || n > outs.len() {
        seq![]
    } else if yields_item(outs[n - 1]) {
        item_sources(outs, n - 1).push(n - 1)
    } else {
        item_sources(outs, n - 1)
    }
}

/// The item is the one made from the output `o`: a reasoning item with its
/// id, a function call with its id, call id and name, or an assistant
/// message with its id and status.
pub open spec fn item_comes_from(item: ItemModel, o: OutputMessage) -> bool {
    if o.msg_type@ == "reasoning"@ {
        item matches ItemModel::Reasoning { id, .. } && Some(id) == opt_view(o.id)
    } else if o.msg_type@ == "function_call"@ {
        item matches ItemModel::FunctionCall { id, call_id, name, .. } && Some(id) == opt_view(o.id) && Some(
            call_id,
        ) == opt_view(o.call_id) && Some(name) == opt_view(o.name)
    } else {
        item matches ItemModel::Message { role, id, status, .. } && role == Role::Assistant && id == opt_view(o.id)
            && status == opt_view(o.status)
    }
}

proof fn lemma_item_sources(rid: Option<Seq<char>>, outs: Seq<OutputMessage>, n: int)
    requires
        0 <= n <= outs.len(),
    ensures
        forall|j: int, k: int|
            0 <= j < k < item_sources(outs, n).len() ==> item_sources(outs, n)[j] < item_sources(outs, n)[k],
        forall|k: int|
            0 <= k < item_sources(outs, n).len() ==> 0 <= #[trigger] item_sources(outs, n)[k] < n,
        outputs_parsed(rid, outs, n) matches Ok((items, _)) ==> {
            &&& items.len() == item_sources(outs, n).len()
            &&& forall|k: int|
                0 <= k < items.len() ==> item_comes_from(#[trigger] items[k], outs[item_sources(outs, n)[k]])
        },
    decreases n,
{
    if n > 0 {
        lemma_item_sources(rid, outs, n - 1);
        let prev = item_sources(outs, n - 1);
        let cur = item_sources(outs, n);
        if yields_item(outs[n - 1]) {
            assert(cur == prev.push(n - 1));
            assert forall|k: int| 0 <= k < cur.len() implies 0 <= #[trigger] cur[k] < n by {
                if k < prev.len() {
                    assert(cur[k] == prev[k]);
                }
            }
            assert forall|j: int, k: int| 0 <= j < k < cur.len() implies cur[j] < cur[k] by {
                assert(cur[j] == prev[j]);
                if k < prev.len() {
                    assert(cur[k] == prev[k]);
                }
            }
        } else {
            assert(cur == prev);
        }
        match outputs_parsed(rid, outs, n) {
            Ok((items, _)) => {
                let (items0, unknown0) = outputs_parsed(rid, outs, n - 1)->Ok_0;
                assert(outputs_parsed(rid, outs, n - 1) is Ok);
                if yields_item(outs[n - 1]) {
                    assert(items.len() == items0.len() + 1);
                    assert(items.drop_last() =~= items0);
                    assert forall|k: int| 0 <= k < items.len() implies item_comes_from(
                        #[trigger] items[k],
                        outs[cur[k]],
                    ) by {
                        if k < items0.len() {
                            assert(items[k] == items0[k]);
                            assert(cur[k] == prev[k]);
                        } else {
                            assert(cur[k] == n - 1);
                        }
                    }
                } else {
                    assert(items == items0);
                }
            },
            Err(_) => {},
        }
    }
}

/// Parsing a response gives one item per output that becomes an item, in
/// the order of the outputs: the `k`-th item is made from the `k`-th such
/// output (a message, a function call, or a reasoning output with an id).
pub proof fn lemma_one_item_per_output(resp: ApiResponse)
    ensures
        parsed_output(resp) matches Ok(items) ==> {
            let src = item_sources(resp.output@, resp.output@.len() as int);
            &&& items.len() == src.len()
            &&& forall|j: int, k: int| 0 <= j < k < src.len() ==> src[j] < src[k]
            &&& forall|k: int|
                0 <= k < items.len() ==> 0 <= src[k] < resp.output@.len() && yields_item(resp.output@[src[k]])
                    && item_comes_from(#[trigger] items[k], resp.output@[src[k]])
        },
{
    let outs = resp.output@;
    lemma_item_sources(opt_view(resp.id), outs, outs.len() as int);
    lemma_sources_yield(outs, outs.len() as int);
}

proof fn lemma_sources_yield(outs: Seq<OutputMessage>, n: int)
    requires
        0 <= n <= outs.len(),
    ensures
        forall|k: int|
            0 <= k < item_sources(outs, n).len() ==> 0 <= item_sources(outs, n)[k] < outs.len() && yields_item(
                outs[#[trigger] item_sources(outs, n)[k]],
            ),
    decreases n,
{
    if n > 0 {
        lemma_sources_yield(outs, n - 1);
        let prev = item_sources(outs, n - 1);
        let cur = item_sources(outs, n);
        if yields_item(outs[n - 1]) {
            assert forall|k: int| 0 <= k < cur.len() implies yields_item(outs[#[trigger] cur[k]]) by {
                if k < prev.len() {
                    assert(cur[k] == prev[k]);
                }
            }
        }
    }
}

/// The models of conversation items.
pub open spec fn item_models(v: Seq<ConversationItem>) -> Seq<ItemModel> {
    v.map_values(|i: ConversationItem| i.model())
}

fn clone_opt(v: &Option<String>) -> (r: Option<String>)
    ensures
        opt_view(r) == opt_view(*v),
{
    match v {
        Some(s) => Some(s.clone()),
        None => None,
    }
}

fn response_label_string(id: &Option<String>) -> (r: String)
    ensures
        r@ == response_label(opt_view(*id)),
{
    match id {
        Some(i) => i.clone(),
        None => <String as StringExecFns>::from_str("<missing id>"),
    }
}

fn join_comma(parts: &Vec<String>) -> (r: String)
    ensures
        r@ == comma_joined(parts@.map_values(|s: String| s@)),
{
    let ghost views = parts@.map_values(|s: String| s@);
    let mut out = String::new();
    let mut i: usize = 0;
    while i < parts.len()
        invariant
            i <= parts@.len(),
            views == parts@.map_values(|s: String| s@),
            out@ == comma_joined(views.subrange(0, i as int)),
        decreases parts@.len() - i,
    {
        if i > 0 {
            out.append(", ");
        }
        out.append(parts[i].as_str());
        proof {
            let pre = views.subrange(0, i + 1);
            assert(pre.drop_last() =~= views.subrange(0, i as int));
            assert(pre.last() == parts@[i as int]@);
        }
        i += 1;
    }
    assert(views.subrange(0, parts@.len() as int) =~= views);
    out
}

fn is_filled(v: &Option<String>) -> (r: bool)
    ensures
        r == filled(opt_view(*v)),
{
    match v {
        Some(x) => {
            proof {
                crate::bash_safety::parse::lemma_encode_empty(x@);
            }
            !x.as_str().is_empty()
        },
        None => false,
    }
}

fn malformed_function_call_error(resp_id: &Option<String>, output: &OutputMessage, index: usize) -> (r: String)
    ensures
        r@ == malformed_call_text(opt_view(*resp_id), *output, index as nat),
{
    let mut missing: Vec<String> = Vec::new();
    if !is_filled(&output.id) {
        missing.push(<String as StringExecFns>::from_str("id"));
    }
    if !is_filled(&output.call_id) {
        missing.push(<String as StringExecFns>::from_str("call_id"));
    }
    if !is_filled(&output.name) {
        missing.push(<String as StringExecFns>::from_str("name"));
    }
    if output.arguments.is_none() {
        missing.push(<String as StringExecFns>::from_str("arguments"));
    }
    assert(missing@.map_values(|s: String| s@) =~= missing_fields(*output));
    let mut m = <String as StringExecFns>::from_str("malformed Responses API function_call at output[");
    let idx = decimal_string(index as u128);
    m.append(idx.as_str());
    m.append("] in response ");
    let label = response_label_string(resp_id);
    m.append(label.as_str());
    m.append(": missing or empty required field(s): ");
    let fields = join_comma(&missing);
    m.append(fields.as_str());
    m
}

fn unknown_output_type_error(resp_id: &Option<String>, unknown: &Vec<(usize, String)>, Ghost(model): Ghost<
    Seq<(nat, Seq<char>)>,
>) -> (r: String)
    requires
        unknown@.len() == model.len(),
        forall|k: int|
            0 <= k < model.len() ==> (#[trigger] model[k]).0 == unknown@[k].0 && model[k].1 == unknown@[k].1@,
    ensures
        r@ == unknown_types_text(opt_view(*resp_id), model),
{
    let mut descriptions: Vec<String> = Vec::new();
    let mut k: usize = 0;
    while k < unknown.len()
        invariant
            k <= unknown@.len(),
            unknown@.len() == model.len(),
            forall|q: int|
                0 <= q < model.len() ==> (#[trigger] model[q]).0 == unknown@[q].0 && model[q].1 == unknown@[q].1@,
            descriptions@.map_values(|s: String| s@) == unknown_list(model.subrange(0, k as int)),
        decreases unknown@.len() - k,
    {
        let mut d = <String as StringExecFns>::from_str("output[");
        let idx = decimal_string(unknown[k].0 as u128);
        d.append(idx.as_str());
        d.append("] type '");
        d.append(unknown[k].1.as_str());
        d.append("'");
        let ghost before = descriptions@;
        descriptions.push(d);
        proof {
            assert(descriptions@.map_values(|s: String| s@) =~= before.map_values(|s: String| s@).push(d@));
            assert(unknown_list(model.subrange(0, k + 1)) =~= unknown_list(model.subrange(0, k as int)).push(
                "output["@ + decimal_chars(model[k as int].0) + "] type '"@ + model[k as int].1 + "'"@,
            ));
        }
        k += 1;
    }
    assert(model.subrange(0, model.len() as int) =~= model);
    let mut m = <String as StringExecFns>::from_str("Responses API response ");
    let label = response_label_string(resp_id);
    m.append(label.as_str());
    m.append(" contained only unknown output type(s): ");
    let list = join_comma(&descriptions);
    m.append(list.as_str());
    m
}

fn clone_summaries(v: &Vec<ReasoningSummary>) -> (r: Vec<ReasoningSummary>)
    ensures
        summary_views(r@) == summary_views(v@),
{
    let mut out: Vec<ReasoningSummary> = Vec::new();
    let mut i: usize = 0;
    while i < v.len()
        invariant
            i <= v@.len(),
            summary_views(out@) == summary_views(v@.subrange(0, i as int)),
        decreases v@.len() - i,
    {
        let part = ReasoningSummary { summary_type: v[i].summary_type.clone(), text: v[i].text.clone() };
        let ghost before = out@;
        out.push(part);
        assert(summary_views(out@) =~= summary_views(before).push((part.summary_type@, part.text@)));
        assert(v@.subrange(0, i + 1) =~= v@.subrange(0, i as int).push(v@[i as int]));
        assert(summary_views(v@.subrange(0, i + 1)) =~= summary_views(v@.subrange(0, i as int)).push(
            (v@[i as int].summary_type@, v@[i as int].text@),
        ));
        i += 1;
    }
    assert(v@.subrange(0, v@.len() as int) =~= v@);
    out
}

fn summaries_from(c: &Vec<OutputContent>) -> (r: Vec<ReasoningSummary>)
    ensures
        summary_views(r@) == summaries_from_content(content_views(c@)),
{
    let ghost cv = content_views(c@);
    let mut out: Vec<ReasoningSummary> = Vec::new();
    let mut i: usize = 0;
    while i < c.len()
        invariant
            i <= c@.len(),
            cv == content_views(c@),
            summary_views(out@) == summaries_from_content(cv.subrange(0, i as int)),
        decreases c@.len() - i,
    {
        proof {
            let pre = cv.subrange(0, i + 1);
            assert(pre.drop_last() =~= cv.subrange(0, i as int));
            assert(pre.last() == cv[i as int]);
            encode_utf8_decode_utf8(c@[i as int].content_type@);
            encode_utf8_decode_utf8("reasoning_text"@);
        }
        if slice_eq(c[i].content_type.as_str().as_bytes(), "reasoning_text".as_bytes()) {
            if let Some(t) = &c[i].text {
                let ghost before = out@;
                out.push(
                    ReasoningSummary {
                        summary_type: <String as StringExecFns>::from_str("summary_text"),
                        text: t.clone(),
                    },
                );
                assert(summary_views(out@) =~= summary_views(before).push(("summary_text"@, t@)));
            }
        }
        i += 1;
    }
    assert(cv.subrange(0, c@.len() as int) =~= cv);
    out
}

fn clone_reasoning_content(c: &Vec<OutputContent>) -> (r: Vec<ReasoningContent>)
    ensures
        reasoning_content_views(r@) == content_views(c@),
{
    let mut out: Vec<ReasoningContent> = Vec::new();
    let mut i: usize = 0;
    while i < c.len()
        invariant
            i <= c@.len(),
            reasoning_content_views(out@) == content_views(c@.subrange(0, i as int)),
        decreases c@.len() - i,
    {
        let part = ReasoningContent { content_type: c[i].content_type.clone(), text: clone_opt(&c[i].text) };
        let ghost before = out@;
        out.push(part);
        assert(reasoning_content_views(out@) =~= reasoning_content_views(before).push(
            (part.content_type@, opt_view(part.text)),
        ));
        assert(c@.subrange(0, i + 1) =~= c@.subrange(0, i as int).push(c@[i as int]));
        assert(content_views(c@.subrange(0, i + 1)) =~= content_views(c@.subrange(0, i as int)).push(
            (c@[i as int].content_type@, opt_view(c@[i as int].text)),
        ));
        i += 1;
    }
    assert(c@.subrange(0, c@.len() as int) =~= c@);
    out
}

#[verifier::loop_isolation(false)]
fn message_text(content: &Option<Vec<OutputContent>>) -> (r: String)
    ensures
        r@ == match *content {
            Some(c) => match first_output_text(content_views(c@)) {
                Some(x) => x,
                None => seq![],
            },
            None => seq![],
        },
{
    let c = match content {
        Some(c) => c,
        None => {
            return String::new();
        },
    };
    let ghost cv = content_views(c@);
    let mut i: usize = 0;
    assert(cv.subrange(0, cv.len() as int) =~= cv);
    while i < c.len()
        invariant
            i <= c@.len(),
            cv == content_views(c@),
            first_output_text(cv) == first_output_text(cv.subrange(i as int, cv.len() as int)),
        decreases c@.len() - i,
    {
        proof {
            let rest = cv.subrange(i as int, cv.len() as int);
            assert(rest[0] == cv[i as int]);
            assert(rest.drop_first() =~= cv.subrange(i + 1, cv.len() as int));
            encode_utf8_decode_utf8(c@[i as int].content_type@);
            encode_utf8_decode_utf8("output_text"@);
        }
        if slice_eq(c[i].content_type.as_str().as_bytes(), "output_text".as_bytes()) {
            return match &c[i].text {
                Some(t) => t.clone(),
                None => String::new(),
            };
        }
        i += 1;
    }
    String::new()
}

fn parse_function_call_output(resp_id: &Option<String>, output: &OutputMessage, index: usize) -> (r: Result<
    ConversationItem,
    String,
>)
    ensures
        match r {
            Ok(item) => filled(opt_view(output.id)) && filled(opt_view(output.call_id)) && filled(
                opt_view(output.name),
            ) && item.model() == (ItemModel::FunctionCall {
                id: output.id->0@,
                call_id: output.call_id->0@,
                name: output.name->0@,
                arguments: call_arguments(opt_view(output.arguments)),
            }) && item.time() is Some,
            Err(m) => !(filled(opt_view(output.id)) && filled(opt_view(output.call_id)) && filled(
                opt_view(output.name),
            )) && m@ == malformed_call_text(opt_view(*resp_id), *output, index as nat),
        },
{
    if !(is_filled(&output.id) && is_filled(&output.call_id) && is_filled(&output.name)) {
        return Err(malformed_function_call_error(resp_id, output, index));
    }
    let arguments = match &output.arguments {
        Some(a) => {
            let t = str_trim(a.as_str());
            proof {
                crate::bash_safety::parse::lemma_encode_empty(t@);
            }
            if t.is_empty() {
                <String as StringExecFns>::from_str("{}")
            } else {
                a.clone()
            }
        },
        None => <String as StringExecFns>::from_str("{}"),
    };
    let timestamp = current_time_ms();
    Ok(
        ConversationItem::FunctionCall {
            id: clone_opt(&output.id).unwrap(),
            call_id: clone_opt(&output.call_id).unwrap(),
            name: clone_opt(&output.name).unwrap(),
            arguments,
            timestamp: Some(timestamp),
        },
    )
}

proof fn lemma_parse_error_sticks(rid: Option<Seq<char>>, outs: Seq<OutputMessage>, k: int, n: int)
    requires
        0 < k <= n <= outs.len(),
        outputs_parsed(rid, outs, k) is Err,
    ensures
        outputs_parsed(rid, outs, n) == outputs_parsed(rid, outs, k),
    decreases n - k,
{
    if n > k {
        lemma_parse_error_sticks(rid, outs, k, n - 1);
    }
}

/// Parse the output items of a response into conversation items; each item
/// is stamped with the time it was parsed.
pub fn parse_output_items(api_response: &ApiResponse) -> (r: Result<Vec<ConversationItem>, String>)
    ensures
        match r {
            Ok(items) => parsed_output(*api_response) == Ok::<Seq<ItemModel>, Seq<char>>(item_models(items@))
                && forall|k: int| 0 <= k < items@.len() ==> (#[trigger] items@[k]).time() is Some,
            Err(m) => parsed_output(*api_response) == Err::<Seq<ItemModel>, Seq<char>>(m@),
        },
{
    let ghost rid = opt_view(api_response.id);
    let outs = &api_response.output;
    let mut items: Vec<ConversationItem> = Vec::new();
    let mut unknown: Vec<(usize, String)> = Vec::new();
    let ghost mut unknown_model: Seq<(nat, Seq<char>)> = seq![];
    let mut i: usize = 0;
    assert(item_models(items@) =~= Seq::<ItemModel>::empty());
    while i < outs.len()
        invariant
            i <= outs@.len(),
            outs@ == api_response.output@,
            rid == opt_view(api_response.id),
            outputs_parsed(rid, outs@, i as int) == Ok::<(Seq<ItemModel>, Seq<(nat, Seq<char>)>), Seq<char>>(
                (item_models(items@), unknown_model),
            ),
            forall|k: int| 0 <= k < items@.len() ==> (#[trigger] items@[k]).time() is Some,
            unknown@.len() == unknown_model.len(),
            forall|k: int|
                0 <= k < unknown_model.len() ==> (#[trigger] unknown_model[k]).0 == unknown@[k].0 && unknown_model[k].1
                    == unknown@[k].1@,
        decreases outs@.len() - i,
    {
        let output = &outs[i];
        let ghost before_items = items@;
        proof {
            encode_utf8_decode_utf8(output.msg_type@);
            encode_utf8_decode_utf8("reasoning"@);
            encode_utf8_decode_utf8("function_call"@);
            encode_utf8_decode_utf8("message"@);
        }
        let t = output.msg_type.as_str().as_bytes();
        if slice_eq(t, "reasoning".as_bytes()) {
            if let Some(id) = &output.id {
                let summary = match &output.summary {
                    Some(v) if v.len() > 0 => clone_summaries(v),
                    _ => match &output.content {
                        Some(c) => summaries_from(c),
                        None => Vec::new(),
                    },
                };
                let content = match &output.content {
                    Some(c) => Some(clone_reasoning_content(c)),
                    None => None,
                };
                assert(summary_views(summary@) == reasoning_summary_of(*output));
                let timestamp = current_time_ms();
                let item = ConversationItem::Reasoning {
                    id: id.clone(),
                    summary: Some(summary),
                    encrypted_content: clone_opt(&output.encrypted_content),
                    content,
                    timestamp: Some(timestamp),
                };
                items.push(item);
                assert(item_models(items@) =~= item_models(before_items).push(item.model()));
            }
        } else if slice_eq(t, "function_call".as_bytes()) {
            match parse_function_call_output(&api_response.id, output, i) {
                Ok(item) => {
                    items.push(item);
                    assert(item_models(items@) =~= item_models(before_items).push(item.model()));
                },
                Err(e) => {
                    proof {
                        lemma_parse_error_sticks(rid, outs@, i + 1, outs@.len() as int);
                    }
                    return Err(e);
                },
            }
        } else if slice_eq(t, "message".as_bytes()) {
            let text = message_text(&output.content);
            let timestamp = current_time_ms();
            let item = ConversationItem::Message {
                role: Role::Assistant,
                content: text,
                id: clone_opt(&output.id),
                status: clone_opt(&output.status),
                timestamp: Some(timestamp),
            };
            items.push(item);
            assert(item_models(items@) =~= item_models(before_items).push(item.model()));
        } else {
            unknown.push((i, output.msg_type.clone()));
            proof {
                unknown_model = unknown_model.push((i as nat, output.msg_type@));
            }
        }
        i += 1;
    }
    if items.len() == 0 && unknown.len() > 0 {
        return Err(unknown_output_type_error(&api_response.id, &unknown, Ghost(unknown_model)));
    }
    Ok(items)
}


// =============================================================================
// Termination and usage
// =============================================================================

/// How a response ended.
#[derive(Debug, Clone, Copy, PartialEq, Eq, Structural)]
pub enum TerminationClassification {
    ContentFilter,
    Failed,
    TokenLimit,
    Incomplete,
    Completed,
    Unknown,
}

/// What the provider said about how a response ended.
#[derive(Debug, Clone)]
pub struct ProviderTermination {
    pub classification: TerminationClassification,
    pub provider_status: Option<String>,
    pub provider_reason: Option<String>,
}

/// The output item is a refusal or holds refusal content.
pub open spec fn is_refusal_item(o: OutputMessage) -> bool {
    o.msg_type@ == "refusal"@ || (o.content matches Some(c) && exists|j: int|
        0 <= j < c@.len() && (#[trigger] c@[j]).content_type@ == "refusal"@)
}

/// Some output item is a refusal or holds refusal content.
pub open spec fn contains_refusal(outs: Seq<OutputMessage>) -> bool {
    exists|k: int| 0 <= k < outs.len() && #[trigger] is_refusal_item(outs[k])
}

fn str_is(s: &str, lit: &str) -> (r: bool)
    ensures
        r == (s@ == lit@),
{
    proof {
        encode_utf8_decode_utf8(s@);
        encode_utf8_decode_utf8(lit@);
    }
    slice_eq(s.as_bytes(), lit.as_bytes())
}

/// Whether any output item is a refusal or carries refusal content.
pub fn response_contains_refusal(api_response: &ApiResponse) -> (r: bool)
    ensures
        r == contains_refusal(api_response.output@),
{
    let outs = &api_response.output;
    let mut k: usize = 0;
    while k < outs.len()
        invariant
            k <= outs@.len(),
            outs@ == api_response.output@,
            forall|q: int| 0 <= q < k ==> !#[trigger] is_refusal_item(outs@[q]),
        decreases outs@.len() - k,
    {
        if str_is(outs[k].msg_type.as_str(), "refusal") {
            assert(is_refusal_item(outs@[k as int]));
            return true;
        }
        if let Some(c) = &outs[k].content {
            let mut j: usize = 0;
            while j < c.len()
                invariant
                    j <= c@.len(),
                    k < outs@.len(),
                    outs@ == api_response.output@,
                    outs@[k as int].content matches Some(cc) && cc@ == c@,
                    forall|q: int| 0 <= q < j ==> (#[trigger] c@[q]).content_type@ != "refusal"@,
                decreases c@.len() - j,
            {
                if str_is(c[j].content_type.as_str(), "refusal") {
                    assert(is_refusal_item(outs@[k as int]));
                    return true;
                }
                j += 1;
            }
        }
        assert(!is_refusal_item(outs@[k as int]));
        k += 1;
    }
    false
}

/// Some status is one of `names`.
pub open spec fn has_status(statuses: Seq<Seq<char>>, names: Seq<Seq<char>>) -> bool {
    exists|k: int| 0 <= k < statuses.len() && names.contains(#[trigger] statuses[k])
}

/// The reason is one of `names`.
pub open spec fn reason_in(reason: Option<Seq<char>>, names: Seq<Seq<char>>) -> bool {
    reason matches Some(r) && names.contains(r)
}

/// How a response ended, from its statuses, its incomplete reason and
/// whether it refused: content filtering first, then failures and refusals,
/// then token limits, then unfinished work, then completion.
pub open spec fn termination_of(statuses: Seq<Seq<char>>, reason: Option<Seq<char>>, refusal: bool) -> TerminationClassification {
    if reason_in(reason, seq!["content_filter"@]) || has_status(statuses, seq!["content_filter"@]) {
        TerminationClassification::ContentFilter
    } else if refusal || reason_in(reason, seq!["refusal"@, "refused"@, "failed"@, "cancelled"@]) || has_status(
        statuses,
        seq!["refusal"@, "refused"@, "failed"@, "cancelled"@],
    ) {
        TerminationClassification::Failed
    } else if reason_in(reason, seq!["max_output_tokens"@, "max_tokens"@, "length"@]) || has_status(
        statuses,
        seq!["max_output_tokens"@, "max_tokens"@, "length"@],
    ) {
        TerminationClassification::TokenLimit
    } else if has_status(statuses, seq!["incomplete"@, "in_progress"@, "queued"@]) {
        TerminationClassification::Incomplete
    } else if has_status(statuses, seq!["completed"@]) {
        TerminationClassification::Completed
    } else {
        TerminationClassification::Unknown
    }
}

/// Some status is one of the names.
pub open spec fn some_status_named(statuses: Seq<Seq<char>>, a: Seq<char>, b: Seq<char>, c: Seq<char>, d: Seq<char>) -> bool {
    exists|k: int| 0 <= k < statuses.len() && (statuses[k] == a || statuses[k] == b || statuses[k] == c || statuses[k] == d)
}

/// The reason is one of the names.
pub open spec fn reason_named(reason: Option<Seq<char>>, a: Seq<char>, b: Seq<char>, c: Seq<char>, d: Seq<char>) -> bool {
    reason matches Some(r) && (r == a || r == b || r == c || r == d)
}

proof fn lemma_list_membership(x: Seq<char>, a: Seq<char>, b: Seq<char>, c: Seq<char>, d: Seq<char>)
    ensures
        seq![a].contains(x) <==> x == a,
        seq![a, b, c].contains(x) <==> (x == a || x == b || x == c),
        seq![a, b, c, d].contains(x) <==> (x == a || x == b || x == c || x == d),
{
    if x == a {
        assert(seq![a][0] == x);
        assert(seq![a, b, c][0] == x);
        assert(seq![a, b, c, d][0] == x);
    }
    if x == b {
        assert(seq![a, b, c][1] == x);
        assert(seq![a, b, c, d][1] == x);
    }
    if x == c {
        assert(seq![a, b, c][2] == x);
        assert(seq![a, b, c, d][2] == x);
    }
    if x == d {
        assert(seq![a, b, c, d][3] == x);
    }
}

proof fn lemma_status_lists(statuses: Seq<Seq<char>>, reason: Option<Seq<char>>, a: Seq<char>, b: Seq<char>, c: Seq<char>, d: Seq<char>)
    ensures
        has_status(statuses, seq![a]) <==> some_status_named(statuses, a, a, a, a),
        has_status(statuses, seq![a, b, c]) <==> some_status_named(statuses, a, b, c, c),
        has_status(statuses, seq![a, b, c, d]) <==> some_status_named(statuses, a, b, c, d),
        reason_in(reason, seq![a]) <==> reason_named(reason, a, a, a, a),
        reason_in(reason, seq![a, b, c]) <==> reason_named(reason, a, b, c, c),
        reason_in(reason, seq![a, b, c, d]) <==> reason_named(reason, a, b, c, d),
{
    assert forall|k: int| 0 <= k < statuses.len() implies (seq![a].contains(#[trigger] statuses[k]) <==> statuses[k]
        == a) && (seq![a, b, c].contains(statuses[k]) <==> (statuses[k] == a || statuses[k] == b || statuses[k]
        == c)) && (seq![a, b, c, d].contains(statuses[k]) <==> (statuses[k] == a || statuses[k] == b
        || statuses[k] == c || statuses[k] == d)) by {
        lemma_list_membership(statuses[k], a, b, c, d);
    }
    if let Some(r) = reason {
        lemma_list_membership(r, a, b, c, d);
    }
}

/// How a response ended, in order of precedence: a `content_filter` reason or
/// status means content filtering; otherwise a refusal, or a reason or status
/// among `refusal`, `refused`, `failed` and `cancelled`, means failure;
/// otherwise `max_output_tokens`, `max_tokens` or `length` means the token
/// limit; otherwise a status `incomplete`, `in_progress` or `queued` means
/// unfinished; otherwise a status `completed` means completed; and nothing
/// else is known.
pub proof fn lemma_termination_precedence(statuses: Seq<Seq<char>>, reason: Option<Seq<char>>, refusal: bool)
    ensures
        ({
            let filtered = reason == Some("content_filter"@) || exists|k: int|
                0 <= k < statuses.len() && statuses[k] == "content_filter"@;
            let failed = refusal || reason_named(reason, "refusal"@, "refused"@, "failed"@, "cancelled"@)
                || some_status_named(statuses, "refusal"@, "refused"@, "failed"@, "cancelled"@);
            let limited = reason_named(reason, "max_output_tokens"@, "max_tokens"@, "length"@, "length"@)
                || some_status_named(statuses, "max_output_tokens"@, "max_tokens"@, "length"@, "length"@);
            let unfinished = some_status_named(statuses, "incomplete"@, "in_progress"@, "queued"@, "queued"@);
            let completed = exists|k: int| 0 <= k < statuses.len() && statuses[k] == "completed"@;
            let r = termination_of(statuses, reason, refusal);
            &&& filtered ==> r == TerminationClassification::ContentFilter
            &&& !filtered && failed ==> r == TerminationClassification::Failed
            &&& !filtered && !failed && limited ==> r == TerminationClassification::TokenLimit
            &&& !filtered && !failed && !limited && unfinished ==> r == TerminationClassification::Incomplete
            &&& !filtered && !failed && !limited && !unfinished && completed ==> r
                == TerminationClassification::Completed
            &&& !filtered && !failed && !limited && !unfinished && !completed ==> r
                == TerminationClassification::Unknown
        }),
{
    lemma_status_lists(statuses, reason, "content_filter"@, "content_filter"@, "content_filter"@, "content_filter"@);
    lemma_status_lists(statuses, reason, "refusal"@, "refused"@, "failed"@, "cancelled"@);
    lemma_status_lists(statuses, reason, "max_output_tokens"@, "max_tokens"@, "length"@, "length"@);
    lemma_status_lists(statuses, reason, "incomplete"@, "in_progress"@, "queued"@, "queued"@);
    lemma_status_lists(statuses, reason, "completed"@, "completed"@, "completed"@, "completed"@);
}

/// The views of string slices.
pub open spec fn str_views(v: Seq<&str>) -> Seq<Seq<char>> {
    v.map_values(|s: &str| s@)
}

fn one_of(s: &str, names: &[&str]) -> (r: bool)
    ensures
        r == str_views(names@).contains(s@),
{
    let mut k: usize = 0;
    while k < names.len()
        invariant
            k <= names@.len(),
            forall|q: int| 0 <= q < k ==> (#[trigger] names@[q])@ != s@,
        decreases names@.len() - k,
    {
        if str_is(s, names[k]) {
            assert(str_views(names@)[k as int] == s@);
            return true;
        }
        k += 1;
    }
    assert forall|q: int| 0 <= q < str_views(names@).len() implies str_views(names@)[q] != s@ by {
        assert(str_views(names@)[q] == names@[q]@);
    }
    false
}

fn any_status(statuses: &[&str], names: &[&str]) -> (r: bool)
    ensures
        r == has_status(str_views(statuses@), str_views(names@)),
{
    let mut k: usize = 0;
    while k < statuses.len()
        invariant
            k <= statuses@.len(),
            forall|q: int| 0 <= q < k ==> !str_views(names@).contains(#[trigger] str_views(statuses@)[q]),
        decreases statuses@.len() - k,
    {
        if one_of(statuses[k], names) {
            assert(str_views(statuses@)[k as int] == statuses@[k as int]@);
            return true;
        }
        assert(str_views(statuses@)[k as int] == statuses@[k as int]@);
        k += 1;
    }
    false
}

fn reason_one_of(reason: Option<&str>, names: &[&str]) -> (r: bool)
    ensures
        r == reason_in(
            match reason {
                Some(x) => Some(x@),
                None => None,
            },
            str_views(names@),
        ),
{
    match reason {
        Some(x) => one_of(x, names),
        None => false,
    }
}

/// Classify how a response ended.
pub fn classify_response_termination(statuses: &[&str], reason: Option<&str>, contains_refusal: bool) -> (r:
    TerminationClassification)
    ensures
        r == termination_of(
            str_views(statuses@),
            match reason {
                Some(x) => Some(x@),
                None => None,
            },
            contains_refusal,
        ),
{
    let content_filter: [&str; 1] = ["content_filter"];
    let failed: [&str; 4] = ["refusal", "refused", "failed", "cancelled"];
    let token_limit: [&str; 3] = ["max_output_tokens", "max_tokens", "length"];
    let unfinished: [&str; 3] = ["incomplete", "in_progress", "queued"];
    let completed: [&str; 1] = ["completed"];
    assert(str_views(content_filter@) =~= seq!["content_filter"@]);
    assert(str_views(failed@) =~= seq!["refusal"@, "refused"@, "failed"@, "cancelled"@]);
    assert(str_views(token_limit@) =~= seq!["max_output_tokens"@, "max_tokens"@, "length"@]);
    assert(str_views(unfinished@) =~= seq!["incomplete"@, "in_progress"@, "queued"@]);
    assert(str_views(completed@) =~= seq!["completed"@]);
    if reason_one_of(reason, &content_filter) || any_status(statuses, &content_filter) {
        TerminationClassification::ContentFilter
    } else if contains_refusal || reason_one_of(reason, &failed) || any_status(statuses, &failed) {
        TerminationClassification::Failed
    } else if reason_one_of(reason, &token_limit) || any_status(statuses, &token_limit) {
        TerminationClassification::TokenLimit
    } else if any_status(statuses, &unfinished) {
        TerminationClassification::Incomplete
    } else if any_status(statuses, &completed) {
        TerminationClassification::Completed
    } else {
        TerminationClassification::Unknown
    }
}

/// The termination record of a response, if the provider said anything
/// about how it ended: the classification over the envelope status and the
/// item statuses, the envelope status (else the first item status) and the
/// reason.
pub fn responses_termination(
    envelope_status: Option<&str>,
    item_statuses: Vec<&str>,
    reason: Option<&str>,
    contains_refusal: bool,
) -> (r: Option<ProviderTermination>)
    ensures
        (envelope_status is None && item_statuses@.len() == 0 && reason is None && !contains_refusal) <==> r is None,
        r matches Some(t) ==> {
            &&& t.classification == termination_of(
                match envelope_status {
                    Some(e) => seq![e@] + str_views(item_statuses@),
                    None => str_views(item_statuses@),
                },
                match reason {
                    Some(x) => Some(x@),
                    None => None,
                },
                contains_refusal,
            )
            &&& opt_view(t.provider_status) == match envelope_status {
                Some(e) => Some(e@),
                None => if item_statuses@.len() > 0 {
                    Some(item_statuses@[0]@)
                } else {
                    None
                },
            }
            &&& opt_view(t.provider_reason) == match reason {
                Some(x) => Some(x@),
                None => None,
            }
        },
{
    if envelope_status.is_none() && item_statuses.len() == 0 && reason.is_none() && !contains_refusal {
        return None;
    }
    let mut statuses: Vec<&str> = Vec::new();
    if let Some(e) = envelope_status {
        statuses.push(e);
    }
    let mut k: usize = 0;
    let ghost head = statuses@;
    while k < item_statuses.len()
        invariant
            k <= item_statuses@.len(),
            statuses@ == head + item_statuses@.subrange(0, k as int),
        decreases item_statuses@.len() - k,
    {
        statuses.push(item_statuses[k]);
        k += 1;
        assert(statuses@ =~= head + item_statuses@.subrange(0, k as int));
    }
    assert(item_statuses@.subrange(0, item_statuses@.len() as int) =~= item_statuses@);
    assert(str_views(statuses@) =~= match envelope_status {
        Some(e) => seq![e@] + str_views(item_statuses@),
        None => str_views(item_statuses@),
    });
    let classification = classify_response_termination(statuses.as_slice(), reason, contains_refusal);
    let provider_status = match envelope_status {
        Some(e) => Some(e.to_owned()),
        None => if item_statuses.len() > 0 {
            Some(item_statuses[0].to_owned())
        } else {
            None
        },
    };
    let provider_reason = match reason {
        Some(x) => Some(x.to_owned()),
        None => None,
    };
    Some(ProviderTermination { classification, provider_status, provider_reason })
}

#[derive(Debug, Clone, Copy, PartialEq, Eq)]
pub struct InputTokensDetails {
    pub cached_tokens: u64,
    pub cache_write_tokens: u64,
}

#[derive(Debug, Clone, Copy, PartialEq, Eq)]
pub struct OutputTokensDetails {
    pub reasoning_tokens: u64,
}

/// Token usage of a turn.
#[derive(Debug, Clone, Copy, PartialEq, Eq)]
pub struct Usage {
    pub input_tokens: u64,
    pub output_tokens: u64,
    pub total_tokens: u64,
    pub input_tokens_details: InputTokensDetails,
    pub output_tokens_details: OutputTokensDetails,
}

/// `v.unwrap_or(0)`.
pub open spec fn or_zero(v: Option<u64>) -> u64 {
    match v {
        Some(x) => x,
        None => 0,
    }
}

/// The canonical usage of API-level usage: missing counts are zero.
pub open spec fn usage_of(u: ApiUsage) -> Usage {
    Usage {
        input_tokens: or_zero(u.input_tokens),
        output_tokens: or_zero(u.output_tokens),
        total_tokens: or_zero(u.total_tokens),
        input_tokens_details: InputTokensDetails {
            cached_tokens: match u.input_tokens_details {
                Some(d) => or_zero(d.cached_tokens),
                None => 0,
            },
            cache_write_tokens: match u.input_tokens_details {
                Some(d) => or_zero(d.cache_write_tokens),
                None => 0,
            },
        },
        output_tokens_details: OutputTokensDetails {
            reasoning_tokens: match u.output_tokens_details {
                Some(d) => or_zero(d.reasoning_tokens),
                None => 0,
            },
        },
    }
}

/// Map API-level usage to the canonical usage; missing counts are zero.
pub fn map_usage(api_usage: &ApiUsage, _api_response: &ApiResponse) -> (r: Usage)
    ensures
        r.input_tokens == or_zero(api_usage.input_tokens),
        r.output_tokens == or_zero(api_usage.output_tokens),
        r.total_tokens == or_zero(api_usage.total_tokens),
        r.input_tokens_details.cached_tokens == match api_usage.input_tokens_details {
            Some(d) => or_zero(d.cached_tokens),
            None => 0,
        },
        r.input_tokens_details.cache_write_tokens == match api_usage.input_tokens_details {
            Some(d) => or_zero(d.cache_write_tokens),
            None => 0,
        },
        r.output_tokens_details.reasoning_tokens == match api_usage.output_tokens_details {
            Some(d) => or_zero(d.reasoning_tokens),
            None => 0,
        },
{
    let zero = |v: Option<u64>| -> (r: u64)
        ensures
            r == or_zero(v),
        {
            match v {
                Some(x) => x,
                None => 0,
            }
        };
    Usage {
        input_tokens: zero(api_usage.input_tokens),
        output_tokens: zero(api_usage.output_tokens),
        total_tokens: zero(api_usage.total_tokens),
        input_tokens_details: InputTokensDetails {
            cached_tokens: match &api_usage.input_tokens_details {
                Some(d) => zero(d.cached_tokens),
                None => 0,
            },
            cache_write_tokens: match &api_usage.input_tokens_details {
                Some(d) => zero(d.cache_write_tokens),
                None => 0,
            },
        },
        output_tokens_details: OutputTokensDetails {
            reasoning_tokens: match &api_usage.output_tokens_details {
                Some(d) => zero(d.reasoning_tokens),
                None => 0,
            },
        },
    }
}


// =============================================================================
// Request input
// =============================================================================

/// A text part of an input message; assistant parts carry an empty
/// `annotations` array, which the Responses API requires on `output_text`.
#[derive(Debug)]
pub struct InputMessageContent<'a> {
    pub content_type: &'static str,
    pub text: &'a str,
    pub empty_annotations: bool,
}

/// A reasoning summary part echoed back to the API.
#[derive(Debug)]
pub struct InputReasoningSummary<'a> {
    pub summary_type: &'a str,
    pub text: &'a str,
}

/// One item of the Responses API `input` array.
#[derive(Debug)]
pub enum ResponsesApiInputItem<'a> {
    Message {
        role: &'static str,
        content: Vec<InputMessageContent<'a>>,
        id: Option<&'a str>,
        status: Option<&'a str>,
    },
    FunctionCall { id: &'a str, call_id: &'a str, name: &'a str, arguments: &'a str },
    FunctionCallOutput { call_id: &'a str, output: &'a str },
    Reasoning {
        id: &'a str,
        summary: Vec<InputReasoningSummary<'a>>,
        encrypted_content: Option<&'a str>,
        content: Option<&'a [ReasoningContent]>,
    },
}

/// The view of an optional string slice.
pub open spec fn opt_str_view(v: Option<&str>) -> Option<Seq<char>> {
    match v {
        Some(s) => Some(s@),
        None => None,
    }
}

/// `input` carries the conversation item `item`: messages keep role, text,
/// id and status (assistant text as `output_text` with empty annotations,
/// other text as `input_text`); calls and outputs keep their fields;
/// reasoning keeps id, encrypted content, content, and its summary (empty
/// when it has none).
pub open spec fn input_of(input: ResponsesApiInputItem, item: ConversationItem) -> bool {
    match item {
        ConversationItem::Message { role, content, id, status, .. } => {
            &&& input matches ResponsesApiInputItem::Message { role: r, content: parts, id: i, status: st }
            &&& r@ == role_name(role)
            &&& parts@.len() == 1
            &&& parts@[0].content_type@ == (if role == Role::Assistant {
                "output_text"@
            } else {
                "input_text"@
            })
            &&& parts@[0].text@ == content@
            &&& parts@[0].empty_annotations == (role == Role::Assistant)
            &&& opt_str_view(i) == opt_view(id)
            &&& opt_str_view(st) == opt_view(status)
        },
        ConversationItem::FunctionCall { id, call_id, name, arguments, .. } => {
            &&& input matches ResponsesApiInputItem::FunctionCall { id: i, call_id: c, name: n, arguments: a }
            &&& i@ == id@ && c@ == call_id@ && n@ == name@ && a@ == arguments@
        },
        ConversationItem::FunctionCallOutput { call_id, output, .. } => {
            &&& input matches ResponsesApiInputItem::FunctionCallOutput { call_id: c, output: o }
            &&& c@ == call_id@ && o@ == output@
        },
        ConversationItem::Reasoning { id, summary, encrypted_content, content, .. } => {
            &&& input matches ResponsesApiInputItem::Reasoning {
                id: i,
                summary: s,
                encrypted_content: e,
                content: c,
            }
            &&& i@ == id@
            &&& s@.map_values(|p: InputReasoningSummary| (p.summary_type@, p.text@)) == match summary {
                Some(v) => summary_views(v@),
                None => seq![],
            }
            &&& opt_str_view(e) == opt_view(encrypted_content)
            &&& match content {
                Some(v) => c matches Some(x) && x@ == v@,
                None => c is None,
            }
        },
    }
}

impl<'a> ResponsesApiInputItem<'a> {
    /// The input item for a conversation item.
    pub fn from_item(item: &'a ConversationItem) -> (r: Self)
        ensures
            input_of(r, *item),
    {
        match item {
            ConversationItem::Message { role, content, id, status, .. } => {
                let assistant = *role == Role::Assistant;
                let content_type: &'static str = if assistant {
                    "output_text"
                } else {
                    "input_text"
                };
                let mut parts: Vec<InputMessageContent<'a>> = Vec::new();
                parts.push(
                    InputMessageContent { content_type, text: content.as_str(), empty_annotations: assistant },
                );
                ResponsesApiInputItem::Message {
                    role: role.as_str(),
                    content: parts,
                    id: match id {
                        Some(x) => Some(x.as_str()),
                        None => None,
                    },
                    status: match status {
                        Some(x) => Some(x.as_str()),
                        None => None,
                    },
                }
            },
            ConversationItem::FunctionCall { id, call_id, name, arguments, .. } => {
                ResponsesApiInputItem::FunctionCall {
                    id: id.as_str(),
                    call_id: call_id.as_str(),
                    name: name.as_str(),
                    arguments: arguments.as_str(),
                }
            },
            ConversationItem::FunctionCallOutput { call_id, output, .. } => {
                ResponsesApiInputItem::FunctionCallOutput { call_id: call_id.as_str(), output: output.as_str() }
            },
            ConversationItem::Reasoning { id, summary, encrypted_content, content, .. } => {
                let mut parts: Vec<InputReasoningSummary<'a>> = Vec::new();
                if let Some(v) = summary {
                    let mut k: usize = 0;
                    while k < v.len()
                        invariant
                            k <= v@.len(),
                            parts@.map_values(|p: InputReasoningSummary| (p.summary_type@, p.text@))
                                == summary_views(v@.subrange(0, k as int)),
                        decreases v@.len() - k,
                    {
                        let ghost before = parts@;
                        let part = InputReasoningSummary {
                            summary_type: v[k].summary_type.as_str(),
                            text: v[k].text.as_str(),
                        };
                        parts.push(part);
                        proof {
                            assert(parts@.map_values(|p: InputReasoningSummary| (p.summary_type@, p.text@))
                                =~= before.map_values(|p: InputReasoningSummary| (p.summary_type@, p.text@)).push(
                                (part.summary_type@, part.text@),
                            ));
                            assert(v@.subrange(0, k + 1) =~= v@.subrange(0, k as int).push(v@[k as int]));
                            assert(summary_views(v@.subrange(0, k + 1)) =~= summary_views(
                                v@.subrange(0, k as int),
                            ).push((v@[k as int].summary_type@, v@[k as int].text@)));
                        }
                        k += 1;
                    }
                    assert(v@.subrange(0, v@.len() as int) =~= v@);
                } else {
                    assert(parts@.map_values(|p: InputReasoningSummary| (p.summary_type@, p.text@)) =~= Seq::<
                        (Seq<char>, Seq<char>),
                    >::empty());
                }
                ResponsesApiInputItem::Reasoning {
                    id: id.as_str(),
                    summary: parts,
                    encrypted_content: match encrypted_content {
                        Some(x) => Some(x.as_str()),
                        None => None,
                    },
                    content: match content {
                        Some(v) => Some(v.as_slice()),
                        None => None,
                    },
                }
            },
        }
    }
}

/// What a reasoning output held goes back to the provider unchanged: when
/// the item parsed from a reasoning output is sent as input, the input
/// carries the output's id, encrypted content, and content parts (whatever
/// their kind) as they came.
pub proof fn lemma_reasoning_output_round_trip(o: OutputMessage, item: ConversationItem, input: ResponsesApiInputItem)
    requires
        o.id is Some,
        item.model() == (ItemModel::Reasoning {
            id: o.id->0@,
            summary: Some(reasoning_summary_of(o)),
            encrypted_content: opt_view(o.encrypted_content),
            content: match o.content {
                Some(c) => Some(content_views(c@)),
                None => None,
            },
        }),
        input_of(input, item),
    ensures
        input matches ResponsesApiInputItem::Reasoning { id, encrypted_content, content, .. } && id@ == o.id->0@
            && opt_str_view(encrypted_content) == opt_view(o.encrypted_content) && match o.content {
            Some(c) => content matches Some(x) && reasoning_content_views(x@) == content_views(c@),
            None => content is None,
        },
{
}

/// Build the input array for the Responses API from conversation history.
pub fn build_input(history: &[ConversationItem]) -> (r: Vec<ResponsesApiInputItem<'_>>)
    ensures
        r@.len() == history@.len(),
        forall|k: int| 0 <= k < r@.len() ==> input_of(#[trigger] r@[k], history@[k]),
{
    let mut out: Vec<ResponsesApiInputItem<'_>> = Vec::new();
    let mut k: usize = 0;
    while k < history.len()
        invariant
            k <= history@.len(),
            out@.len() == k,
            forall|q: int| 0 <= q < k ==> input_of(#[trigger] out@[q], history@[q]),
        decreases history@.len() - k,
    {
        out.push(ResponsesApiInputItem::from_item(&history[k]));
        k += 1;
    }
    out
}


// =============================================================================
// Requests
// =============================================================================

/// The model settings a request is built from.  Sampling parameters
/// (temperature, top-p) are floating point and are added by the caller when
/// the request says they are sent.
#[derive(Debug, Clone)]
pub struct RequestSettings<'a, E> {
    pub model: &'a str,
    pub max_output_tokens: Option<u32>,
    pub reasoning_max_tokens: Option<u32>,
    pub reasoning_effort: Option<E>,
    pub reasoning_summary: Option<String>,
    /// The base URL is the ChatGPT Codex backend, which stores nothing,
    /// always streams and takes no sampling or output-budget fields.
    pub is_codex_backend: bool,
}

/// Reasoning options of a request.
#[derive(Debug, Clone)]
pub struct ReasoningConfig<E> {
    pub effort: Option<E>,
    pub summary: Option<String>,
    pub max_tokens: Option<u32>,
}

/// A JSON schema the final answer must follow.
#[derive(Debug)]
pub struct FinalOutputConstraint<'a, S> {
    pub name: &'a str,
    pub schema: &'a S,
}

/// The `json_schema` text format of a constrained request.
#[derive(Debug)]
pub struct TextFormat<'a, S> {
    pub format_type: &'static str,
    pub name: &'a str,
    pub strict: bool,
    pub schema: &'a S,
}

/// A Responses API request body.
#[derive(Debug)]
pub struct ResponsesRequest<'a, T, E, S> {
    pub model: &'a str,
    pub store: Option<bool>,
    pub stream: Option<bool>,
    pub input: Vec<ResponsesApiInputItem<'a>>,
    pub instructions: Option<&'a str>,
    /// Temperature and top-p are sent.
    pub sampling: bool,
    pub max_output_tokens: Option<u32>,
    pub tools: Option<&'a [T]>,
    pub tool_choice: Option<String>,
    pub provider: Option<ProviderConfig>,
    pub reasoning: Option<ReasoningConfig<E>>,
    pub text: Option<TextFormat<'a, S>>,
}

/// The first of two optional values that is present.
pub open spec fn or_else<A>(first: Option<A>, second: Option<A>) -> Option<A> {
    match first {
        Some(x) => Some(x),
        None => second,
    }
}

/// The instructions of a history: the content of a leading system message.
pub open spec fn instructions_of(history: Seq<ConversationItem>) -> Option<Seq<char>> {
    if system_index_from(history, 0) == Some(0int) {
        match history[0] {
            ConversationItem::Message { content, .. } => Some(content@),
            _ => None,
        }
    } else {
        None
    }
}

/// The history sent as input: all of it but a leading system message.
pub open spec fn input_history(history: Seq<ConversationItem>) -> Seq<ConversationItem> {
    if system_index_from(history, 0) == Some(0int) {
        history.subrange(1, history.len() as int)
    } else {
        history
    }
}

/// `req` is the request for `history` with these settings, tools, budget
/// overrides, provider routing and output constraint.
pub open spec fn request_of<'a, T, E, S>(
    req: ResponsesRequest<'a, T, E, S>,
    settings: RequestSettings<'a, E>,
    provider: Option<ProviderConfig>,
    history: Seq<ConversationItem>,
    tools: &'a [T],
    overrides: RequestOverrides,
    constraint: Option<FinalOutputConstraint<'a, S>>,
) -> bool {
    let codex = settings.is_codex_backend;
    let reasoning_max = or_else(overrides.reasoning_max_tokens, settings.reasoning_max_tokens);
    &&& req.model == settings.model
    &&& req.store == (if codex { Some(false) } else { None })
    &&& req.stream == (if codex { Some(true) } else { None })
    &&& opt_str_view(req.instructions) == instructions_of(history)
    &&& req.input@.len() == input_history(history).len()
    &&& forall|k: int| 0 <= k < req.input@.len() ==> input_of(#[trigger] req.input@[k], input_history(history)[k])
    &&& req.sampling == !codex
    &&& req.max_output_tokens == (if codex {
        None
    } else {
        or_else(overrides.max_output_tokens, settings.max_output_tokens)
    })
    &&& req.tools == (if tools@.len() == 0 { None } else { Some(tools) })
    &&& (match req.tool_choice {
        Some(c) => tools@.len() > 0 && c@ == "auto"@,
        None => tools@.len() == 0,
    })
    &&& req.provider == provider
    &&& req.reasoning == (if settings.reasoning_effort is Some || settings.reasoning_summary is Some
        || reasoning_max is Some {
        Some(
            ReasoningConfig {
                effort: settings.reasoning_effort,
                summary: settings.reasoning_summary,
                max_tokens: reasoning_max,
            },
        )
    } else {
        None
    })
    &&& match constraint {
        Some(c) => req.text matches Some(t) && t.format_type@ == "json_schema"@ && t.name == c.name && t.strict
            && t.schema == c.schema,
        None => req.text is None,
    }
}

/// Build the Responses API request for `history`: the leading system message
/// becomes the instructions, the rest the input; the output budget override
/// wins over the configured one; reasoning options are sent when any is set;
/// tools are offered with automatic choice; OpenRouter routing comes from the
/// provider.  A system message anywhere but first is an error.
pub fn build_request<'a, T, E: Copy, S>(
    settings: &RequestSettings<'a, E>,
    strategy: &ProviderStrategy,
    history: &'a [ConversationItem],
    tools: &'a [T],
    overrides: &RequestOverrides,
    constraint: Option<FinalOutputConstraint<'a, S>>,
) -> (r: Result<ResponsesRequest<'a, T, E, S>, String>)
    ensures
        match system_index_from(history@, 0) {
            Some(idx) if idx != 0 => r matches Err(m) && m@ == misplaced_system_text(idx as nat),
            _ => r matches Ok(req) && exists|provider: Option<ProviderConfig>|
                #[trigger] request_of(req, *settings, provider, history@, tools, *overrides, constraint)
                    && match provider {
                    Some(c) => strategy.provider == Some(ModelProvider::OpenRouter) && routing_of(
                        texts_of(strategy.config.providers@),
                    ) == Some(texts_of(c.only@)),
                    None => strategy.provider != Some(ModelProvider::OpenRouter) || routing_of(
                        texts_of(strategy.config.providers@),
                    ) is None,
                },
        },
{
    let provider = strategy.responses_provider_config();
    let max_output_tokens = match overrides.max_output_tokens {
        Some(m) => Some(m),
        None => settings.max_output_tokens,
    };
    let reasoning_max_tokens = match overrides.reasoning_max_tokens {
        Some(m) => Some(m),
        None => settings.reasoning_max_tokens,
    };
    let reasoning = if settings.reasoning_effort.is_some() || settings.reasoning_summary.is_some()
        || reasoning_max_tokens.is_some() {
        Some(
            ReasoningConfig {
                effort: settings.reasoning_effort,
                summary: settings.reasoning_summary.clone(),
                max_tokens: reasoning_max_tokens,
            },
        )
    } else {
        None
    };
    let (instructions, non_system_history) = match extract_instructions(history) {
        Ok(split) => split,
        Err(e) => {
            return Err(e);
        },
    };
    let codex = settings.is_codex_backend;
    let text = match constraint {
        Some(c) => Some(TextFormat { format_type: "json_schema", name: c.name, strict: true, schema: c.schema }),
        None => None,
    };
    let request = ResponsesRequest {
        model: settings.model,
        store: if codex {
            Some(false)
        } else {
            None
        },
        stream: if codex {
            Some(true)
        } else {
            None
        },
        input: build_input(non_system_history),
        instructions,
        sampling: !codex,
        max_output_tokens: if codex {
            None
        } else {
            max_output_tokens
        },
        tools: if tools.len() == 0 {
            None
        } else {
            Some(tools)
        },
        tool_choice: if tools.len() == 0 {
            None
        } else {
            Some(<String as StringExecFns>::from_str("auto"))
        },
        provider,
        reasoning,
        text,
    };
    proof {
        reveal_strlit("json_schema");
        reveal_strlit("auto");
        assert(request_of(request, *settings, provider, history@, tools, *overrides, constraint));
    }
    Ok(request)
}

// =============================================================================
// Turn results
// =============================================================================

/// What one model turn produced.
#[derive(Debug, Clone)]
pub struct TurnResult {
    pub items: Vec<ConversationItem>,
    pub usage: Option<Usage>,
    pub termination: Option<ProviderTermination>,
    pub provider_request_id: Option<String>,
}

#[derive(Debug, Clone)]
pub struct IncompleteDetails {
    pub reason: Option<String>,
}

/// A non-streaming response body.
#[derive(Debug, Clone)]
pub struct ApiResponseEnvelope {
    pub response: ApiResponse,
    pub status: Option<String>,
    pub incomplete_details: Option<IncompleteDetails>,
}

/// The statuses of the output items that have one, in order.
pub open spec fn item_statuses(outs: Seq<OutputMessage>) -> Seq<Seq<char>>
    decreases outs.len(),
{
    if outs.len() == 0 {
        seq![]
    } else {
        let rest = item_statuses(outs.drop_last());
        match outs.last().status {
            Some(st) => rest.push(st@),
            None => rest,
        }
    }
}

fn collect_item_statuses(outs: &Vec<OutputMessage>) -> (r: Vec<&str>)
    ensures
        str_views(r@) == item_statuses(outs@),
{
    let mut out: Vec<&str> = Vec::new();
    let mut k: usize = 0;
    while k < outs.len()
        invariant
            k <= outs@.len(),
            str_views(out@) == item_statuses(outs@.subrange(0, k as int)),
        decreases outs@.len() - k,
    {
        proof {
            let pre = outs@.subrange(0, k + 1);
            assert(pre.drop_last() =~= outs@.subrange(0, k as int));
            assert(pre.last() == outs@[k as int]);
        }
        if let Some(st) = &outs[k].status {
            let ghost before = out@;
            out.push(st.as_str());
            assert(str_views(out@) =~= str_views(before).push(st@));
        }
        k += 1;
    }
    assert(outs@.subrange(0, outs@.len() as int) =~= outs@);
    out
}

/// The turn result of a response: items, usage, termination and request id
/// are read off the response; the error is the one of parsing its items.
pub open spec fn turn_of(
    r: Result<TurnResult, String>,
    resp: ApiResponse,
    status: Option<Seq<char>>,
    reason: Option<Seq<char>>,
) -> bool {
    match r {
        Ok(t) => {
            &&& parsed_output(resp) == Ok::<Seq<ItemModel>, Seq<char>>(item_models(t.items@))
            &&& t.provider_request_id == resp.id
            &&& t.usage == match resp.usage {
                Some(u) => Some(usage_of(u)),
                None => None,
            }
            &&& (t.termination is None <==> (status is None && item_statuses(resp.output@).len() == 0
                && reason is None && !contains_refusal(resp.output@)))
            &&& t.termination matches Some(term) ==> {
                &&& term.classification == termination_of(
                    match status {
                        Some(e) => seq![e] + item_statuses(resp.output@),
                        None => item_statuses(resp.output@),
                    },
                    reason,
                    contains_refusal(resp.output@),
                )
                &&& opt_view(term.provider_status) == match status {
                    Some(e) => Some(e),
                    None => if item_statuses(resp.output@).len() > 0 {
                        Some(item_statuses(resp.output@)[0])
                    } else {
                        None
                    },
                }
                &&& opt_view(term.provider_reason) == reason
            }
        },
        Err(m) => parsed_output(resp) == Err::<Seq<ItemModel>, Seq<char>>(m@),
    }
}

fn turn_result(api_response: ApiResponse, status: Option<&str>, reason: Option<&str>) -> (r: Result<
    TurnResult,
    String,
>)
    ensures
        turn_of(r, api_response, opt_str_view(status), opt_str_view(reason)),
{
    let refusal = response_contains_refusal(&api_response);
    let statuses = collect_item_statuses(&api_response.output);
    let termination = responses_termination(status, statuses, reason, refusal);
    let usage = match &api_response.usage {
        Some(u) => Some(map_usage(u, &api_response)),
        None => None,
    };
    let items = match parse_output_items(&api_response) {
        Ok(items) => items,
        Err(e) => {
            return Err(e);
        },
    };
    Ok(TurnResult { items, usage, termination, provider_request_id: api_response.id })
}

/// The turn result of a non-streaming response.
pub fn parse_json_response(envelope: ApiResponseEnvelope) -> (r: Result<TurnResult, String>)
    ensures
        turn_of(
            r,
            envelope.response,
            opt_view(envelope.status),
            match envelope.incomplete_details {
                Some(d) => opt_view(d.reason),
                None => None,
            },
        ),
{
    let ApiResponseEnvelope { response, status, incomplete_details } = envelope;
    let status_text: Option<&str> = match &status {
        Some(s) => Some(s.as_str()),
        None => None,
    };
    let reason_text: Option<&str> = match &incomplete_details {
        Some(d) => match &d.reason {
            Some(x) => Some(x.as_str()),
            None => None,
        },
        None => None,
    };
    turn_result(response, status_text, reason_text)
}


// =============================================================================
// Streaming responses
// =============================================================================

/// A server-sent event of a streaming response, as far as the turn reads
/// it.  `Completed` carries the `id`, `status`, `usage` and `output` of the
/// final response (each when present and well-formed).
#[derive(Debug, Clone)]
pub enum StreamEvent {
    OutputTextDelta { delta: Option<String> },
    OutputItemDone { item: Option<OutputMessage> },
    Completed {
        id: Option<String>,
        status: Option<String>,
        usage: Option<ApiUsage>,
        output: Option<Vec<OutputMessage>>,
    },
    Incomplete { reason: Option<String> },
    Failed { message: Option<String> },
    Other,
}

/// The state gathered while reading a streaming response.
#[derive(Debug)]
pub struct StreamAccumulator {
    pub response_id: Option<String>,
    pub status: Option<String>,
    pub incomplete_reason: Option<String>,
    pub usage: Option<ApiUsage>,
    pub output: Vec<OutputMessage>,
    pub output_text: String,
    pub completed: bool,
}

impl StreamAccumulator {
    /// The gathered state as values.
    pub open spec fn model(self) -> StreamModel {
        StreamModel {
            response_id: opt_view(self.response_id),
            status: opt_view(self.status),
            incomplete_reason: opt_view(self.incomplete_reason),
            usage: self.usage,
            output: self.output@,
            output_text: self.output_text@,
            completed: self.completed,
        }
    }

    pub fn new() -> (r: Self)
        ensures
            r.model() == stream_start(),
    {
        StreamAccumulator {
            response_id: None,
            status: None,
            incomplete_reason: None,
            usage: None,
            output: Vec::new(),
            output_text: String::new(),
            completed: false,
        }
    }
}

/// The state gathered from a stream, as values.
pub struct StreamModel {
    pub response_id: Option<Seq<char>>,
    pub status: Option<Seq<char>>,
    pub incomplete_reason: Option<Seq<char>>,
    pub usage: Option<ApiUsage>,
    pub output: Seq<OutputMessage>,
    pub output_text: Seq<char>,
    pub completed: bool,
}

/// The state before any event.
pub open spec fn stream_start() -> StreamModel {
    StreamModel {
        response_id: None,
        status: None,
        incomplete_reason: None,
        usage: None,
        output: seq![],
        output_text: seq![],
        completed: false,
    }
}

/// The state after an event that does not end the stream (see `applied`).
pub open spec fn apply_model(m: StreamModel, event: StreamEvent) -> StreamModel {
    match event {
        StreamEvent::OutputTextDelta { delta } => match delta {
            Some(d) => StreamModel { output_text: m.output_text + d@, ..m },
            None => m,
        },
        StreamEvent::OutputItemDone { item } => match item {
            Some(i) => StreamModel { output: m.output.push(i), ..m },
            None => m,
        },
        StreamEvent::Completed { id, status, usage, output } => StreamModel {
            response_id: opt_view(id),
            status: opt_view(status),
            usage,
            output: match output {
                Some(items) => if items@.len() > 0 {
                    items@
                } else {
                    m.output
                },
                None => m.output,
            },
            completed: true,
            ..m
        },
        StreamEvent::Incomplete { reason } => StreamModel { incomplete_reason: opt_view(reason), ..m },
        _ => m,
    }
}

/// The state after the first `n` events, all of which decoded.
pub open spec fn stream_fold(events: Seq<Result<StreamEvent, String>>, n: nat) -> StreamModel
    decreases n,
{
    if n == 0 {
        stream_start()
    } else {
        match events[n - 1] {
            Ok(e) => apply_model(stream_fold(events, (n - 1) as nat), e),
            Err(_) => stream_fold(events, (n - 1) as nat),
        }
    }
}

proof fn lemma_applied_model(after: StreamAccumulator, before: StreamAccumulator, event: StreamEvent)
    requires
        applied(after, before, event),
        !(event is Failed),
    ensures
        after.model() == apply_model(before.model(), event),
{
    match event {
        StreamEvent::Completed { output, .. } => {
            assert(after.model().output =~= apply_model(before.model(), event).output);
        },
        _ => {},
    }
}

/// The error for a failed stream.
pub open spec fn stream_failed_text(message: Option<Seq<char>>) -> Seq<char> {
    "Responses API stream failed: "@ + match message {
        Some(m) => m,
        None => "unknown error"@,
    }
}

/// `after` is `before` with the event applied: text deltas are appended,
/// finished items collected, the completion fixes id, status, usage and
/// (when it lists any) the output, and an incomplete event records its
/// reason.
pub open spec fn applied(after: StreamAccumulator, before: StreamAccumulator, event: StreamEvent) -> bool {
    match event {
        StreamEvent::OutputTextDelta { delta } => match delta {
            Some(d) => after == StreamAccumulator { output_text: after.output_text, ..before } && after.output_text@
                == before.output_text@ + d@,
            None => after == before,
        },
        StreamEvent::OutputItemDone { item } => match item {
            Some(i) => after == StreamAccumulator { output: after.output, ..before } && after.output@
                == before.output@.push(i),
            None => after == before,
        },
        StreamEvent::Completed { id, status, usage, output } => {
            &&& after.response_id == id
            &&& after.status == status
            &&& after.usage == usage
            &&& after.completed
            &&& after.incomplete_reason == before.incomplete_reason
            &&& after.output_text == before.output_text
            &&& after.output@ == match output {
                Some(items) => if items@.len() > 0 {
                    items@
                } else {
                    before.output@
                },
                None => before.output@,
            }
        },
        StreamEvent::Incomplete { reason } => after == StreamAccumulator { incomplete_reason: reason, ..before },
        StreamEvent::Failed { .. } => true,
        StreamEvent::Other => after == before,
    }
}

fn apply_output_text_delta(accumulator: &mut StreamAccumulator, delta: Option<String>)
    ensures
        applied(*final(accumulator), *old(accumulator), StreamEvent::OutputTextDelta { delta }),
{
    if let Some(d) = delta {
        accumulator.output_text.append(d.as_str());
    }
}

fn apply_output_item_done(accumulator: &mut StreamAccumulator, item: Option<OutputMessage>)
    ensures
        applied(*final(accumulator), *old(accumulator), StreamEvent::OutputItemDone { item }),
{
    if let Some(i) = item {
        accumulator.output.push(i);
    }
}

fn apply_response_completed(
    accumulator: &mut StreamAccumulator,
    id: Option<String>,
    status: Option<String>,
    usage: Option<ApiUsage>,
    output: Option<Vec<OutputMessage>>,
)
    ensures
        applied(*final(accumulator), *old(accumulator), StreamEvent::Completed { id, status, usage, output }),
{
    accumulator.response_id = id;
    accumulator.status = status;
    accumulator.usage = usage;
    if let Some(items) = output {
        if items.len() > 0 {
            accumulator.output = items;
        }
    }
    accumulator.completed = true;
}

fn apply_response_incomplete(accumulator: &mut StreamAccumulator, reason: Option<String>)
    ensures
        applied(*final(accumulator), *old(accumulator), StreamEvent::Incomplete { reason }),
{
    accumulator.incomplete_reason = reason;
}

fn apply_response_failed(message: Option<String>) -> (r: String)
    ensures
        r@ == stream_failed_text(opt_view(message)),
{
    let mut m = <String as StringExecFns>::from_str("Responses API stream failed: ");
    match &message {
        Some(x) => m.append(x.as_str()),
        None => m.append("unknown error"),
    }
    m
}

/// Apply one event of a streaming response to the gathered state; a failure
/// event ends the stream with its error message.
pub fn apply_stream_event(accumulator: &mut StreamAccumulator, event: StreamEvent) -> (r: Result<(), String>)
    ensures
        match event {
            StreamEvent::Failed { message } => r matches Err(m) && m@ == stream_failed_text(opt_view(message)),
            _ => r is Ok && applied(*final(accumulator), *old(accumulator), event),
        },
{
    match event {
        StreamEvent::OutputTextDelta { delta } => {
            apply_output_text_delta(accumulator, delta);
            Ok(())
        },
        StreamEvent::OutputItemDone { item } => {
            apply_output_item_done(accumulator, item);
            Ok(())
        },
        StreamEvent::Completed { id, status, usage, output } => {
            apply_response_completed(accumulator, id, status, usage, output);
            Ok(())
        },
        StreamEvent::Incomplete { reason } => {
            apply_response_incomplete(accumulator, reason);
            Ok(())
        },
        StreamEvent::Failed { message } => Err(apply_response_failed(message)),
        StreamEvent::Other => Ok(()),
    }
}

/// Some output item is a message.
pub open spec fn has_message_item(outs: Seq<OutputMessage>) -> bool {
    exists|k: int| 0 <= k < outs.len() && (#[trigger] outs[k]).msg_type@ == "message"@
}

/// `m` is the message item made from streamed text: the response id and
/// status, and the text as its only `output_text` part.
pub open spec fn synthesized_message(m: OutputMessage, acc: StreamAccumulator) -> bool {
    &&& m.msg_type@ == "message"@
    &&& m.id == acc.response_id
    &&& m.status == acc.status
    &&& m.call_id is None && m.name is None && m.arguments is None
    &&& m.encrypted_content is None && m.summary is None
    &&& m.content matches Some(c) && c@.len() == 1 && c@[0].content_type@ == "output_text"@ && c@[0].text == Some(
        acc.output_text,
    )
}

/// `resp` is the response assembled from the stream: its id, usage and
/// items, plus a message made from the streamed text when there is text and
/// no item is a message.
pub open spec fn assembled_response(resp: ApiResponse, acc: StreamAccumulator) -> bool {
    &&& resp.id == acc.response_id
    &&& resp.usage == acc.usage
    &&& if acc.output_text@.len() > 0 && !has_message_item(acc.output@) {
        resp.output@.len() == acc.output@.len() + 1 && resp.output@.subrange(0, acc.output@.len() as int)
            == acc.output@ && synthesized_message(resp.output@.last(), acc)
    } else {
        resp.output@ == acc.output@
    }
}

/// `resp` is the response assembled from the gathered state `m`: its id,
/// usage and items, plus a message made from the streamed text (with the
/// response id and status) when there is text and no item is a message.
pub open spec fn assembled_from(resp: ApiResponse, m: StreamModel) -> bool {
    &&& opt_view(resp.id) == m.response_id
    &&& resp.usage == m.usage
    &&& if m.output_text.len() > 0 && !has_message_item(m.output) {
        &&& resp.output@.len() == m.output.len() + 1
        &&& resp.output@.subrange(0, m.output.len() as int) == m.output
        &&& resp.output@.last().msg_type@ == "message"@
        &&& opt_view(resp.output@.last().id) == m.response_id
        &&& opt_view(resp.output@.last().status) == m.status
        &&& resp.output@.last().call_id is None && resp.output@.last().name is None
        &&& resp.output@.last().arguments is None && resp.output@.last().encrypted_content is None
        &&& resp.output@.last().summary is None
        &&& resp.output@.last().content matches Some(c) && c@.len() == 1 && c@[0].content_type@ == "output_text"@
            && opt_view(c@[0].text) == Some(m.output_text)
    } else {
        resp.output@ == m.output
    }
}

proof fn lemma_assembled_from(resp: ApiResponse, acc: StreamAccumulator)
    requires
        assembled_response(resp, acc),
    ensures
        assembled_from(resp, acc.model()),
{
}

fn any_message_item(outs: &Vec<OutputMessage>) -> (r: bool)
    ensures
        r == has_message_item(outs@),
{
    let mut k: usize = 0;
    while k < outs.len()
        invariant
            k <= outs@.len(),
            forall|q: int| 0 <= q < k ==> (#[trigger] outs@[q]).msg_type@ != "message"@,
        decreases outs@.len() - k,
    {
        if str_is(outs[k].msg_type.as_str(), "message") {
            return true;
        }
        k += 1;
    }
    false
}

/// Assemble the turn result of a finished stream; a stream that ended before
/// `response.completed` is an error.
pub fn finalize_stream(accumulator: StreamAccumulator) -> (r: Result<TurnResult, String>)
    ensures
        !accumulator.completed ==> (r matches Err(m) && m@ == "Responses API stream ended before response.completed"@),
        accumulator.completed ==> exists|resp: ApiResponse|
            assembled_response(resp, accumulator) && #[trigger] turn_of(
                r,
                resp,
                opt_view(accumulator.status),
                opt_view(accumulator.incomplete_reason),
            ),
        accumulator.completed ==> exists|resp: ApiResponse|
            assembled_from(resp, accumulator.model()) && #[trigger] turn_of(
                r,
                resp,
                accumulator.model().status,
                accumulator.model().incomplete_reason,
            ),
{
    if !accumulator.completed {
        return Err(<String as StringExecFns>::from_str("Responses API stream ended before response.completed"));
    }
    let ghost acc = accumulator;
    let StreamAccumulator { response_id, status, incomplete_reason, usage, mut output, output_text, completed } =
        accumulator;
    let text_nonempty = !output_text.as_str().is_empty();
    if text_nonempty && !any_message_item(&output) {
        let mut content: Vec<OutputContent> = Vec::new();
        content.push(
            OutputContent { content_type: <String as StringExecFns>::from_str("output_text"), text: Some(output_text) },
        );
        let ghost before = output@;
        output.push(
            OutputMessage {
                msg_type: <String as StringExecFns>::from_str("message"),
                id: clone_opt_exact(&response_id),
                call_id: None,
                name: None,
                arguments: None,
                status: clone_opt_exact(&status),
                content: Some(content),
                encrypted_content: None,
                summary: None,
            },
        );
        assert(output@.subrange(0, before.len() as int) =~= before);
    }
    let api_response = ApiResponse { id: response_id, output, usage };
    let ghost resp = api_response;
    let status_text: Option<&str> = match &status {
        Some(s) => Some(s.as_str()),
        None => None,
    };
    let reason_text: Option<&str> = match &incomplete_reason {
        Some(x) => Some(x.as_str()),
        None => None,
    };
    let r = turn_result(api_response, status_text, reason_text);
    assert(assembled_response(resp, acc));
    proof {
        lemma_assembled_from(resp, acc);
    }
    r
}

fn clone_opt_exact(v: &Option<String>) -> (r: Option<String>)
    ensures
        r == *v,
{
    match v {
        Some(s) => Some(s.clone()),
        None => None,
    }
}

/// The error for an event that could not be decoded.
pub open spec fn undecodable_event_text(e: Seq<char>) -> Seq<char> {
    "failed to parse Responses API SSE event: "@ + e
}

/// The error of the first event from `i` on that ends the stream: one that
/// could not be decoded, or a failure event.
pub open spec fn first_stream_error(events: Seq<Result<StreamEvent, String>>, i: int) -> Option<Seq<char>>
    decreases events.len() - i,
{
    if i < 0 || i >= events.len() {
        None
    } else {
        match events[i] {
            Err(e) => Some(undecodable_event_text(e@)),
            Ok(StreamEvent::Failed { message }) => Some(stream_failed_text(opt_view(message))),
            _ => first_stream_error(events, i + 1),
        }
    }
}

/// The turn result of a streaming response, given its events in order
/// (each decoded, or the decoding error): events are applied in order, the
/// first undecodable or failure event ends the stream with its error, and
/// the state is then finalized.
pub fn parse_streaming_response(events: Vec<Result<StreamEvent, String>>) -> (r: Result<TurnResult, String>)
    ensures
        first_stream_error(events@, 0) matches Some(m) ==> (r matches Err(x) && x@ == m),
        first_stream_error(events@, 0) is None && !stream_fold(events@, events@.len()).completed ==> (r matches Err(
            x,
        ) && x@ == "Responses API stream ended before response.completed"@),
        first_stream_error(events@, 0) is None && stream_fold(events@, events@.len()).completed ==> exists|
            resp: ApiResponse,
        |
            assembled_from(resp, stream_fold(events@, events@.len())) && #[trigger] turn_of(
                r,
                resp,
                stream_fold(events@, events@.len()).status,
                stream_fold(events@, events@.len()).incomplete_reason,
            ),
{
    let mut accumulator = StreamAccumulator::new();
    let ghost all = events@;
    let mut remaining = events;
    let n = remaining.len();
    let mut i: usize = 0;
    while i < n
        invariant
            n == all.len(),
            i <= n,
            remaining@ == all.subrange(i as int, n as int),
            all == events@,
            first_stream_error(all, 0) == first_stream_error(all, i as int),
            first_stream_error(all, 0) is None ==> accumulator.model() == stream_fold(all, i as nat),
        decreases n - i,
    {
        assert(remaining@[0] == all[i as int]);
        let event = remaining.remove(0);
        assert(remaining@ =~= all.subrange(i + 1, n as int));
        match event {
            Err(e) => {
                let mut m = <String as StringExecFns>::from_str("failed to parse Responses API SSE event: ");
                m.append(e.as_str());
                return Err(m);
            },
            Ok(ev) => {
                let ghost before = accumulator;
                let ghost e = ev;
                if let Err(m) = apply_stream_event(&mut accumulator, ev) {
                    return Err(m);
                }
                proof {
                    lemma_applied_model(accumulator, before, e);
                }
            },
        }
        i += 1;
    }
    assert(all.subrange(0, n as int) =~= all);
    finalize_stream(accumulator)
}


// =============================================================================
// Server-sent events
// =============================================================================

/// The pieces joined with `\n`.
pub open spec fn newline_joined(parts: Seq<Seq<u8>>) -> Seq<u8>
    decreases parts.len(),
{
    if parts.len() == 0 {
        seq![]
    } else if parts.len() == 1 {
        parts[0]
    } else {
        newline_joined(parts.drop_last()) + seq![0x0au8] + parts.last()
    }
}

/// The value of a `data:` line: the rest of the line, without one leading
/// space.
pub open spec fn data_value(l: Seq<u8>) -> Seq<u8> {
    let v = l.subrange(5, l.len() as int);
    if v.len() > 0 && v[0] == 0x20 {
        v.subrange(1, v.len() as int)
    } else {
        v
    }
}

/// The events of the lines from `i` on, with the `data` lines `data` of the
/// current event: a blank line ends an event that has data, `data:` lines
/// add to it, other lines are ignored.
pub open spec fn events_from(lines: Seq<Seq<u8>>, i: int, data: Seq<Seq<u8>>) -> Seq<Seq<u8>>
    decreases lines.len() - i,
{
    let done: Seq<Seq<u8>> = if data.len() > 0 {
        seq![newline_joined(data)]
    } else {
        seq![]
    };
    if i < 0 || i >= lines.len() {
        done
    } else if lines[i].len() == 0 {
        done + events_from(lines, i + 1, seq![])
    } else if starts_with_bytes(lines[i], "data:".spec_bytes()) {
        events_from(lines, i + 1, data.push(data_value(lines[i])))
    } else {
        events_from(lines, i + 1, data)
    }
}

/// The data of the server-sent events in the body whose bytes are `b`.
pub open spec fn sse_events(b: Seq<u8>) -> Seq<Seq<u8>> {
    events_from(lines_from(b, 0, 0), 0, seq![])
}

/// The bytes of string slices.
pub open spec fn slice_bytes(v: Seq<&str>) -> Seq<Seq<u8>> {
    v.map_values(|s: &str| s.spec_bytes())
}

#[verifier::spinoff_prover]
#[verifier::rlimit(30)]
fn join_newlines(parts: &Vec<&str>) -> (r: String)
    ensures
        encode_utf8(r@) == newline_joined(slice_bytes(parts@)),
{
    let ghost pb = slice_bytes(parts@);
    let mut out = String::new();
    let mut k: usize = 0;
    proof {
        reveal_strlit("\n");
        assert(is_ascii("\n"));
        crate::text::lemma_ascii_str_bytes("\n");
        assert("\n".spec_bytes() =~= seq![0x0au8]);
    }
    while k < parts.len()
        invariant
            k <= parts@.len(),
            pb == slice_bytes(parts@),
            encode_utf8(out@) == newline_joined(pb.subrange(0, k as int)),
            encode_utf8("\n"@) == seq![0x0au8],
        decreases parts@.len() - k,
    {
        let ghost before = out@;
        if k > 0 {
            out.append("\n");
            proof {
                lemma_encode_concat(before, "\n"@);
            }
        }
        let ghost mid = out@;
        out.append(parts[k]);
        proof {
            lemma_encode_concat(mid, parts@[k as int]@);
            let pre = pb.subrange(0, k + 1);
            assert(pre.drop_last() =~= pb.subrange(0, k as int));
            assert(pre.last() == parts@[k as int].spec_bytes());
            if k == 0 {
                assert(encode_utf8(Seq::<char>::empty()) =~= Seq::<u8>::empty());
                assert(before =~= Seq::<char>::empty()) by {
                    crate::bash_safety::parse::lemma_encode_empty(before);
                }
                assert(encode_utf8(out@) =~= newline_joined(pre));
            }
        }
        k += 1;
    }
    assert(pb.subrange(0, parts@.len() as int) =~= pb);
    out
}

/// Split a streaming body into the data of its server-sent events.
pub fn sse_data_events(body: &str) -> (r: Vec<String>)
    ensures
        r@.len() == sse_events(body.spec_bytes()).len(),
        forall|k: int| 0 <= k < r@.len() ==> encode_utf8((#[trigger] r@[k])@) == sse_events(body.spec_bytes())[k],
{
    let b = body.as_bytes();
    let len = b.len();
    let ghost bb = b@;
    // The lines, as byte ranges.
    let mut lines: Vec<&str> = Vec::new();
    let mut start: usize = 0;
    let mut i: usize = 0;
    assert(lines_from(bb, 0, 0) == lines_from(bb, 0, 0));
    while i < len
        invariant
            len == bb.len(),
            bb == body.spec_bytes(),
            b@ == bb,
            start <= i <= len,
            start == 0 || bb[start - 1] == 0x0a,
            slice_bytes(lines@) + lines_from(bb, start as int, i as int) == lines_from(bb, 0, 0),
        decreases len - i,
    {
        if b[i] == 0x0a {
            let end = if i > start && b[i - 1] == 0x0d {
                i - 1
            } else {
                i
            };
            let line = ascii_cut(body, start, end);
            let ghost before = lines@;
            lines.push(line);
            proof {
                assert(strip_cr(bb.subrange(start as int, i as int)) =~= bb.subrange(start as int, end as int));
                assert(slice_bytes(lines@) =~= slice_bytes(before).push(line.spec_bytes()));
                assert(lines_from(bb, start as int, i as int) == seq![strip_cr(bb.subrange(start as int, i as int))]
                    + lines_from(bb, i + 1, i + 1));
            }
            start = i + 1;
        }
        i += 1;
    }
    if start < len {
        let line = ascii_cut(body, start, len);
        let ghost before = lines@;
        lines.push(line);
        assert(slice_bytes(lines@) =~= slice_bytes(before).push(line.spec_bytes()));
    }
    assert(slice_bytes(lines@) =~= lines_from(bb, 0, 0));
    // The events.
    let ghost ls = slice_bytes(lines@);
    let mut events: Vec<String> = Vec::new();
    let mut data: Vec<&str> = Vec::new();
    let mut k: usize = 0;
    assert(events@.map_values(|e: String| encode_utf8(e@)) =~= Seq::<Seq<u8>>::empty());
    assert(slice_bytes(data@) =~= Seq::<Seq<u8>>::empty());
    proof {
        reveal_strlit("data:");
        assert(is_ascii("data:"));
        crate::text::lemma_ascii_str_bytes("data:");
    }
    while k < lines.len()
        invariant
            k <= lines@.len(),
            ls == slice_bytes(lines@),
            ls == lines_from(bb, 0, 0),
            bb == body.spec_bytes(),
            "data:".spec_bytes().len() == 5,
            forall|q: int| 0 <= q < "data:".spec_bytes().len() ==> "data:".spec_bytes()[q] < 0x80,
            events@.map_values(|e: String| encode_utf8(e@)) + events_from(ls, k as int, slice_bytes(data@))
                == sse_events(bb),
        decreases lines@.len() - k,
    {
        let line = lines[k];
        let lb = line.as_bytes();
        if lb.len() == 0 {
            if data.len() > 0 {
                let joined = join_newlines(&data);
                let ghost before = events@;
                events.push(joined);
                assert(events@.map_values(|e: String| encode_utf8(e@)) =~= before.map_values(
                    |e: String| encode_utf8(e@),
                ).push(newline_joined(slice_bytes(data@))));
            }
            data = Vec::new();
            assert(slice_bytes(data@) =~= Seq::<Seq<u8>>::empty());
        } else if starts_with_slice(lb, "data:".as_bytes()) {
            let vs: usize = if lb.len() > 5 && lb[5] == 0x20 {
                6
            } else {
                5
            };
            proof {
                assert(lb@.subrange(0, 5)[4] == lb@[4]);
                assert(lb@[4] < 0x80);
            }
            let value = ascii_cut(line, vs, lb.len());
            let ghost before = data@;
            data.push(value);
            proof {
                assert(value.spec_bytes() =~= data_value(lb@));
                assert(slice_bytes(data@) =~= slice_bytes(before).push(data_value(ls[k as int])));
            }
        }
        k += 1;
    }
    if data.len() > 0 {
        let joined = join_newlines(&data);
        let ghost before = events@;
        events.push(joined);
        assert(events@.map_values(|e: String| encode_utf8(e@)) =~= before.map_values(|e: String| encode_utf8(e@)).push(
            newline_joined(slice_bytes(data@)),
        ));
    }
    proof {
        assert(events@.map_values(|e: String| encode_utf8(e@)) =~= sse_events(bb));
        assert forall|q: int| 0 <= q < events@.len() implies encode_utf8((#[trigger] events@[q])@) == sse_events(bb)[q] by {
            assert(events@.map_values(|e: String| encode_utf8(e@))[q] == encode_utf8(events@[q]@));
        }
    }
    events
}

/// A body that starts (after leading whitespace) with an `event:` or
/// `data:` field is a server-sent event stream.
pub open spec fn looks_like_sse(body: Seq<u8>) -> bool {
    sse_text(utf8_lossy_text(body))
}

/// `b` without its trailing `/` bytes.
pub open spec fn without_trailing_slashes(b: Seq<u8>) -> Seq<u8>
    decreases b.len(),
{
    if b.len() > 0 && b.last() == 0x2f {
        without_trailing_slashes(b.drop_last())
    } else {
        b
    }
}

/// The Responses API endpoint of a base URL: the URL without trailing
/// slashes, then `/responses`.
pub fn responses_endpoint(base_url: &str) -> (r: String)
    ensures
        encode_utf8(r@) == without_trailing_slashes(base_url.spec_bytes()) + "/responses".spec_bytes(),
{
    let b = base_url.as_bytes();
    let mut end: usize = b.len();
    assert(b@.subrange(0, end as int) =~= b@);
    while end > 0 && b[end - 1] == 0x2f
        invariant
            end <= b@.len(),
            end < b@.len() ==> b@[end as int] == 0x2f,
            without_trailing_slashes(b@) == without_trailing_slashes(b@.subrange(0, end as int)),
        decreases end,
    {
        assert(b@.subrange(0, end as int).drop_last() =~= b@.subrange(0, end - 1));
        end -= 1;
    }
    proof {
        let t = b@.subrange(0, end as int);
        assert(without_trailing_slashes(t) == t);
    }
    let head = crate::text::ascii_cut(base_url, 0, end);
    let mut url = <String as StringExecFns>::from_str(head);
    url.append("/responses");
    proof {
        crate::text::lemma_encode_concat(head@, "/responses"@);
    }
    url
}

/// Whether a response's `Content-Type` (when it has a readable one)
/// announces a server-sent event stream.
pub fn is_event_stream_response(content_type: Option<&str>) -> (r: bool)
    ensures
        r == (content_type matches Some(v) && starts_with_bytes(v.spec_bytes(), "text/event-stream".spec_bytes())),
{
    match content_type {
        Some(v) => starts_with_slice(v.as_bytes(), "text/event-stream".as_bytes()),
        None => false,
    }
}

/// Whether text begins, after leading whitespace, with an SSE `event:` or
/// `data:` field.
pub open spec fn sse_text(text: Seq<char>) -> bool {
    let t = encode_utf8(trim_start_chars(text));
    starts_with_bytes(t, "event:".spec_bytes()) || starts_with_bytes(t, "data:".spec_bytes())
}

/// Whether the text of a body reads as a server-sent event stream.
pub fn looks_like_sse_text(text: &str) -> (r: bool)
    ensures
        r == sse_text(text@),
{
    let t = str_trim_start(text);
    starts_with_slice(t.as_bytes(), "event:".as_bytes()) || starts_with_slice(t.as_bytes(), "data:".as_bytes())
}

/// Whether a body not advertised as a stream is one anyway.
pub fn looks_like_sse_body(body: &[u8]) -> (r: bool)
    ensures
        r == looks_like_sse(body@),
{
    let text = utf8_lossy(body);
    looks_like_sse_text(text.as_str())
}

} // verus!
