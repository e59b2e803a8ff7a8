//! Codex notification payloads: decoding the hook or legacy `notify` JSON,
//! the visible message, the headline, sub-agent detection and the user input
//! recovered from a session transcript.

use vstd::prelude::*;

use crate::json::{get, json_parse, obj_get, parse_json, JsonValue};
use crate::text::{
    ascii_lower_chars, ascii_lower_seq, char_vec_views, chars_contain, chars_eq_ignore_ascii_case,
    chars_of, contains_seq, decimal, eq_ignore_ascii_case, extend_chars, join,
    join_chars, push_decimal, string_of, strip_end, strip_end_chars, strip_prefix_all,
    strip_prefix_all_chars, trim_chars, trim_str, trimmed, truncate_char_vec, truncate_chars,
};

verus! {

/// A notification as Codex hands it over, field by field, with the decoded
/// JSON object it came from.
pub struct NotifyPayload {
    pub client: String,
    pub task: String,
    pub status: String,
    pub message: String,
    pub event: String,
    pub hook_event_name: String,
    pub session_id: String,
    pub turn_id: String,
    pub cwd: String,
    pub transcript_path: String,
    pub model: String,
    pub permission_mode: String,
    pub last_assistant_message: String,
    pub input_messages: Vec<String>,
    pub tool_name: String,
    pub tool_use_id: String,
    pub raw: Option<Vec<(String, JsonValue)>>,
}

/// Every text field of `p` is empty, it has no input messages and no JSON object.
pub open spec fn is_empty_payload(p: NotifyPayload) -> bool {
    &&& p.client@.len() == 0
    &&& p.task@.len() == 0
    &&& p.status@.len() == 0
    &&& p.message@.len() == 0
    &&& p.event@.len() == 0
    &&& p.hook_event_name@.len() == 0
    &&& p.session_id@.len() == 0
    &&& p.turn_id@.len() == 0
    &&& p.cwd@.len() == 0
    &&& p.transcript_path@.len() == 0
    &&& p.model@.len() == 0
    &&& p.permission_mode@.len() == 0
    &&& p.last_assistant_message@.len() == 0
    &&& p.input_messages@.len() == 0
    &&& p.tool_name@.len() == 0
    &&& p.tool_use_id@.len() == 0
    &&& p.raw is None
}

impl Default for NotifyPayload {
    fn default() -> (p: NotifyPayload)
        ensures
            is_empty_payload(p),
    {
        NotifyPayload {
            client: String::new(),
            task: String::new(),
            status: String::new(),
            message: String::new(),
            event: String::new(),
            hook_event_name: String::new(),
            session_id: String::new(),
            turn_id: String::new(),
            cwd: String::new(),
            transcript_path: String::new(),
            model: String::new(),
            permission_mode: String::new(),
            last_assistant_message: String::new(),
            input_messages: Vec::new(),
            tool_name: String::new(),
            tool_use_id: String::new(),
            raw: None,
        }
    }
}

/// The texts of a list of strings.
pub open spec fn string_views(v: Seq<String>) -> Seq<Seq<char>> {
    v.map_values(|s: String| s@)
}

/// The keys of a list of string slices.
pub open spec fn key_views(keys: Seq<&str>) -> Seq<Seq<char>> {
    keys.map_values(|k: &str| k@)
}

// ---------------------------------------------------------------------------
// Reading fields of the JSON object
// ---------------------------------------------------------------------------

/// A scalar as text: a string trimmed, a number as serde_json displays it, a
/// boolean as `true`/`false`; anything else as nothing.
pub open spec fn scalar_text(v: JsonValue) -> Seq<char> {
    match v {
        JsonValue::Str(s) => trimmed(s@),
        JsonValue::Number(n) => n.text_view(),
        JsonValue::Bool(b) => if b {
            "true"@
        } else {
            "false"@
        },
        _ => Seq::empty(),
    }
}

/// The first non-empty scalar text found under `keys`, in order.
pub open spec fn first_string(fields: Seq<(String, JsonValue)>, keys: Seq<Seq<char>>) -> Seq<char>
    decreases keys.len(),
{
    if keys.len() == 0 {
        Seq::empty()
    } else {
        let here = match obj_get(fields, keys[0]) {
            Some(v) => scalar_text(v),
            None => Seq::empty(),
        };
        if here.len() > 0 {
            here
        } else {
            first_string(fields, keys.drop_first())
        }
    }
}

fn bool_text(b: bool) -> (res: String)
    ensures
        res@ == (if b {
            "true"@
        } else {
            "false"@
        }),
{
    if b {
        String::from_str("true")
    } else {
        String::from_str("false")
    }
}

fn scalar_text_exec(v: &JsonValue) -> (res: String)
    ensures
        res@ == scalar_text(*v),
{
    match v {
        JsonValue::Str(s) => trim_str(s.as_str()),
        JsonValue::Number(n) => n.text().clone(),
        JsonValue::Bool(b) => bool_text(*b),
        _ => String::new(),
    }
}

/// The first non-empty scalar text found under `keys`.
pub fn first_string_of(fields: &Vec<(String, JsonValue)>, keys: &[&str]) -> (res: String)
    ensures
        res@ == first_string(fields@, key_views(keys@)),
{
    let mut i: usize = 0;
    assert(key_views(keys@).subrange(0, keys@.len() as int) =~= key_views(keys@));
    while i < keys.len()
        invariant
            i <= keys@.len(),
            first_string(fields@, key_views(keys@)) == first_string(
                fields@,
                key_views(keys@).subrange(i as int, keys@.len() as int),
            ),
        decreases keys@.len() - i,
    {
        let ghost rest = key_views(keys@).subrange(i as int, keys@.len() as int);
        assert(rest[0] == keys@[i as int]@);
        assert(rest.drop_first() == key_views(keys@).subrange(i + 1, keys@.len() as int));
        match get(fields, keys[i]) {
            Some(v) => {
                let converted = scalar_text_exec(v);
                if converted.as_str().unicode_len() > 0 {
                    return converted;
                }
            },
            None => {},
        }
        i = i + 1;
    }
    assert(key_views(keys@).subrange(keys@.len() as int, keys@.len() as int).len() == 0);
    String::new()
}

/// A scalar as a string, untrimmed (`None` for null, arrays and objects).
pub open spec fn value_as_string(v: JsonValue) -> Option<Seq<char>> {
    match v {
        JsonValue::Str(s) => Some(s@),
        JsonValue::Number(n) => Some(n.text_view()),
        JsonValue::Bool(b) => Some(
            if b {
                "true"@
            } else {
                "false"@
            },
        ),
        _ => None,
    }
}

/// The scalar texts of `items`, in order, skipping the others.
pub open spec fn scalar_strings(items: Seq<JsonValue>) -> Seq<Seq<char>>
    decreases items.len(),
{
    if items.len() == 0 {
        Seq::empty()
    } else {
        scalar_strings(items.drop_last()) + match value_as_string(items.last()) {
            Some(s) => seq![s],
            None => Seq::empty(),
        }
    }
}

/// Each string trimmed, the empty ones dropped.
pub open spec fn clean_strings(values: Seq<Seq<char>>) -> Seq<Seq<char>>
    decreases values.len(),
{
    if values.len() == 0 {
        Seq::empty()
    } else {
        clean_strings(values.drop_last()) + if trimmed(values.last()).len() > 0 {
            seq![trimmed(values.last())]
        } else {
            Seq::empty()
        }
    }
}

/// The strings under the first key of `keys` that is present: the scalars of
/// an array, or the one scalar; trimmed, without empty ones.
pub open spec fn first_string_list(fields: Seq<(String, JsonValue)>, keys: Seq<Seq<char>>) -> Seq<
    Seq<char>,
>
    decreases keys.len(),
{
    if keys.len() == 0 {
        Seq::empty()
    } else {
        match obj_get(fields, keys[0]) {
            Some(JsonValue::Array(items)) => clean_strings(scalar_strings(items@)),
            Some(v) => clean_strings(
                match value_as_string(v) {
                    Some(s) => seq![s],
                    None => Seq::empty(),
                },
            ),
            None => first_string_list(fields, keys.drop_first()),
        }
    }
}

fn value_as_string_exec(v: &JsonValue) -> (res: Option<String>)
    ensures
        res matches Some(s) ==> value_as_string(*v) == Some(s@),
        res is None ==> value_as_string(*v) is None,
{
    match v {
        JsonValue::Str(s) => Some(s.clone()),
        JsonValue::Number(n) => Some(n.text().clone()),
        JsonValue::Bool(b) => Some(bool_text(*b)),
        _ => None,
    }
}

/// Pushes the trimmed scalar text of `v`, if it has one that is not empty.
fn push_clean(out: &mut Vec<String>, v: &JsonValue)
    ensures
        string_views(final(out)@) == string_views(old(out)@) + clean_strings(
            match value_as_string(*v) {
                Some(s) => seq![s],
                None => Seq::empty(),
            },
        ),
{
    let ghost before = out@;
    match value_as_string_exec(v) {
        Some(s) => {
            let t = trim_str(s.as_str());
            assert(seq![s@].drop_last() == Seq::<Seq<char>>::empty());
            assert(clean_strings(Seq::<Seq<char>>::empty()) == Seq::<Seq<char>>::empty());
            if t.as_str().unicode_len() > 0 {
                out.push(t);
                assert(string_views(out@) =~= string_views(before).push(t@));
            }
        },
        None => {},
    }
}

/// The cleaned strings under the first present key of `keys`.
pub fn first_string_list_of(fields: &Vec<(String, JsonValue)>, keys: &[&str]) -> (res: Vec<String>)
    ensures
        string_views(res@) == first_string_list(fields@, key_views(keys@)),
{
    let mut i: usize = 0;
    assert(key_views(keys@).subrange(0, keys@.len() as int) =~= key_views(keys@));
    while i < keys.len()
        invariant
            i <= keys@.len(),
            first_string_list(fields@, key_views(keys@)) == first_string_list(
                fields@,
                key_views(keys@).subrange(i as int, keys@.len() as int),
            ),
        decreases keys@.len() - i,
    {
        let ghost rest = key_views(keys@).subrange(i as int, keys@.len() as int);
        assert(rest[0] == keys@[i as int]@);
        assert(rest.drop_first() == key_views(keys@).subrange(i + 1, keys@.len() as int));
        match get(fields, keys[i]) {
            Some(JsonValue::Array(items)) => {
                let mut out: Vec<String> = Vec::new();
                let mut k: usize = 0;
                while k < items.len()
                    invariant
                        k <= items@.len(),
                        string_views(out@) == clean_strings(scalar_strings(items@.subrange(0, k as int))),
                    decreases items@.len() - k,
                {
                    proof {
                        let pre = items@.subrange(0, k + 1);
                        assert(pre.drop_last() == items@.subrange(0, k as int));
                        lemma_clean_append(
                            scalar_strings(items@.subrange(0, k as int)),
                            match value_as_string(items@[k as int]) {
                                Some(s) => seq![s],
                                None => Seq::empty(),
                            },
                        );
                    }
                    push_clean(&mut out, &items[k]);
                    k = k + 1;
                }
                assert(items@.subrange(0, items@.len() as int) == items@);
                return out;
            },
            Some(v) => {
                let mut out: Vec<String> = Vec::new();
                push_clean(&mut out, v);
                assert(string_views(Seq::<String>::empty()) =~= Seq::<Seq<char>>::empty());
                return out;
            },
            None => {},
        }
        i = i + 1;
    }
    let out: Vec<String> = Vec::new();
    assert(string_views(out@) =~= Seq::<Seq<char>>::empty());
    out
}

proof fn lemma_clean_append(a: Seq<Seq<char>>, b: Seq<Seq<char>>)
    ensures
        clean_strings(a + b) == clean_strings(a) + clean_strings(b),
    decreases b.len(),
{
    if b.len() == 0 {
        assert(a + b == a);
    } else {
        lemma_clean_append(a, b.drop_last());
        assert((a + b).drop_last() == a + b.drop_last());
    }
}

// ---------------------------------------------------------------------------
// Decoding
// ---------------------------------------------------------------------------

pub open spec fn task_keys() -> Seq<Seq<char>> {
    seq!["task"@, "title"@, "session"@, "thread"@, "objective"@]
}

pub open spec fn status_keys() -> Seq<Seq<char>> {
    seq!["status"@, "state"@, "result"@]
}

pub open spec fn message_keys() -> Seq<Seq<char>> {
    seq!["message"@, "summary"@, "text"@, "body"@, "reason"@]
}

pub open spec fn event_keys() -> Seq<Seq<char>> {
    seq!["event"@, "type"@, "kind"@, "hook_event_name"@, "hookEventName"@, "hook-event-name"@]
}

pub open spec fn hook_event_keys() -> Seq<Seq<char>> {
    seq!["hook_event_name"@, "hookEventName"@, "hook-event-name"@]
}

pub open spec fn session_keys() -> Seq<Seq<char>> {
    seq!["session_id"@, "sessionId"@, "session-id"@, "thread-id"@, "thread_id"@, "threadId"@]
}

pub open spec fn turn_keys() -> Seq<Seq<char>> {
    seq!["turn_id"@, "turnId"@, "turn-id"@]
}

pub open spec fn transcript_keys() -> Seq<Seq<char>> {
    seq!["transcript_path"@, "transcriptPath"@, "transcript-path"@]
}

pub open spec fn permission_keys() -> Seq<Seq<char>> {
    seq!["permission_mode"@, "permissionMode"@, "permission-mode"@]
}

pub open spec fn last_message_keys() -> Seq<Seq<char>> {
    seq!["last_assistant_message"@, "lastAssistantMessage"@, "last-assistant-message"@]
}

pub open spec fn input_keys() -> Seq<Seq<char>> {
    seq!["input_messages"@, "inputMessages"@, "input-messages"@]
}

pub open spec fn tool_name_keys() -> Seq<Seq<char>> {
    seq!["tool_name"@, "toolName"@, "tool-name"@]
}

pub open spec fn tool_use_keys() -> Seq<Seq<char>> {
    seq!["tool_use_id"@, "toolUseId"@, "tool-use-id"@]
}

/// `p` is what a JSON object `raw` decodes to: each field the first
/// non-empty scalar under its key aliases, the input messages the cleaned
/// strings under the first present alias, and `raw` kept.
pub open spec fn decoded_from(raw: Seq<(String, JsonValue)>, p: NotifyPayload) -> bool {
    &&& p.client@ == first_string(raw, seq!["client"@])
    &&& p.task@ == first_string(raw, task_keys())
    &&& p.status@ == first_string(raw, status_keys())
    &&& p.message@ == first_string(raw, message_keys())
    &&& p.event@ == first_string(raw, event_keys())
    &&& p.hook_event_name@ == first_string(raw, hook_event_keys())
    &&& p.session_id@ == first_string(raw, session_keys())
    &&& p.turn_id@ == first_string(raw, turn_keys())
    &&& p.cwd@ == first_string(raw, seq!["cwd"@])
    &&& p.transcript_path@ == first_string(raw, transcript_keys())
    &&& p.model@ == first_string(raw, seq!["model"@])
    &&& p.permission_mode@ == first_string(raw, permission_keys())
    &&& p.last_assistant_message@ == first_string(raw, last_message_keys())
    &&& string_views(p.input_messages@) == first_string_list(raw, input_keys())
    &&& p.tool_name@ == first_string(raw, tool_name_keys())
    &&& p.tool_use_id@ == first_string(raw, tool_use_keys())
    &&& p.raw matches Some(r) && r@ == raw
}

/// `p` carries `text` as its message and nothing else.
pub open spec fn plain_message(text: Seq<char>, p: NotifyPayload) -> bool {
    &&& p.message@ == text
    &&& {
        &&& p.client@.len() == 0
        &&& p.task@.len() == 0
        &&& p.status@.len() == 0
        &&& p.event@.len() == 0
        &&& p.hook_event_name@.len() == 0
        &&& p.session_id@.len() == 0
        &&& p.turn_id@.len() == 0
        &&& p.cwd@.len() == 0
        &&& p.transcript_path@.len() == 0
        &&& p.model@.len() == 0
        &&& p.permission_mode@.len() == 0
        &&& p.last_assistant_message@.len() == 0
        &&& p.input_messages@.len() == 0
        &&& p.tool_name@.len() == 0
        &&& p.tool_use_id@.len() == 0
        &&& p.raw is None
    }
}

/// How `String::from_utf8_lossy` decodes `bytes`.
pub uninterp spec fn utf8_lossy(bytes: Seq<u8>) -> Seq<char>;

/// Calls `String::from_utf8_lossy`. Claimed: the result is
/// `utf8_lossy(bytes@)`, which for valid UTF-8 is the decoded text.
#[verifier::external_body]
fn from_utf8_lossy(bytes: &[u8]) -> (res: String)
    ensures
        res@ == utf8_lossy(bytes@),
        vstd::utf8::valid_utf8(bytes@) ==> res@ == vstd::utf8::decode_utf8(bytes@),
{
    String::from_utf8_lossy(bytes).into_owned()
}

/// `res` is the decoding of `bytes`: the input as trimmed text, and the
/// payload read from the JSON object, or the text as a plain message.
pub open spec fn parsed_as(bytes: Seq<u8>, res: (NotifyPayload, String)) -> bool {
    &&& res.1@ == trimmed(utf8_lossy(bytes))
    &&& match json_parse(bytes) {
        Some(JsonValue::Object(raw)) => decoded_from(raw@, res.0),
        _ => plain_message(trimmed(utf8_lossy(bytes)), res.0),
    }
}

/// The payload that a decoded JSON object gives.
pub fn decode_object(raw: Vec<(String, JsonValue)>) -> (p: NotifyPayload)
    ensures
        decoded_from(raw@, p),
{
    let k_client = ["client"];
    assert(key_views(k_client@) =~= seq!["client"@]);
    let client = first_string_of(&raw, &k_client);
    let k_task = ["task", "title", "session", "thread", "objective"];
    assert(key_views(k_task@) =~= task_keys());
    let task = first_string_of(&raw, &k_task);
    let k_status = ["status", "state", "result"];
    assert(key_views(k_status@) =~= status_keys());
    let status = first_string_of(&raw, &k_status);
    let k_message = ["message", "summary", "text", "body", "reason"];
    assert(key_views(k_message@) =~= message_keys());
    let message = first_string_of(&raw, &k_message);
    let k_event = ["event", "type", "kind", "hook_event_name", "hookEventName", "hook-event-name"];
    assert(key_views(k_event@) =~= event_keys());
    let event = first_string_of(&raw, &k_event);
    let k_hook_event_name = ["hook_event_name", "hookEventName", "hook-event-name"];
    assert(key_views(k_hook_event_name@) =~= hook_event_keys());
    let hook_event_name = first_string_of(&raw, &k_hook_event_name);
    let k_session_id = ["session_id", "sessionId", "session-id", "thread-id", "thread_id", "threadId"];
    assert(key_views(k_session_id@) =~= session_keys());
    let session_id = first_string_of(&raw, &k_session_id);
    let k_turn_id = ["turn_id", "turnId", "turn-id"];
    assert(key_views(k_turn_id@) =~= turn_keys());
    let turn_id = first_string_of(&raw, &k_turn_id);
    let k_cwd = ["cwd"];
    assert(key_views(k_cwd@) =~= seq!["cwd"@]);
    let cwd = first_string_of(&raw, &k_cwd);
    let k_transcript_path = ["transcript_path", "transcriptPath", "transcript-path"];
    assert(key_views(k_transcript_path@) =~= transcript_keys());
    let transcript_path = first_string_of(&raw, &k_transcript_path);
    let k_model = ["model"];
    assert(key_views(k_model@) =~= seq!["model"@]);
    let model = first_string_of(&raw, &k_model);
    let k_permission_mode = ["permission_mode", "permissionMode", "permission-mode"];
    assert(key_views(k_permission_mode@) =~= permission_keys());
    let permission_mode = first_string_of(&raw, &k_permission_mode);
    let k_last_assistant_message = ["last_assistant_message", "lastAssistantMessage", "last-assistant-message"];
    assert(key_views(k_last_assistant_message@) =~= last_message_keys());
    let last_assistant_message = first_string_of(&raw, &k_last_assistant_message);
    let k_input_messages = ["input_messages", "inputMessages", "input-messages"];
    assert(key_views(k_input_messages@) =~= input_keys());
    let input_messages = first_string_list_of(&raw, &k_input_messages);
    let k_tool_name = ["tool_name", "toolName", "tool-name"];
    assert(key_views(k_tool_name@) =~= tool_name_keys());
    let tool_name = first_string_of(&raw, &k_tool_name);
    let k_tool_use_id = ["tool_use_id", "toolUseId", "tool-use-id"];
    assert(key_views(k_tool_use_id@) =~= tool_use_keys());
    let tool_use_id = first_string_of(&raw, &k_tool_use_id);
    NotifyPayload {
        client,
        task,
        status,
        message,
        event,
        hook_event_name,
        session_id,
        turn_id,
        cwd,
        transcript_path,
        model,
        permission_mode,
        last_assistant_message,
        input_messages,
        tool_name,
        tool_use_id,
        raw: Some(raw),
    }
}

/// Decodes a notification: a JSON object gives a payload read field by field
/// under its aliases; anything else (plain text, other JSON) becomes the
/// message. Also returns the input as text, trimmed.
/// The payload from what the JSON parser gave (`parsed`) and the trimmed
/// text (`text`): the decoded object, or else the text as a plain message.
pub fn decode_payload(parsed: Option<JsonValue>, text: String) -> (res: (NotifyPayload, String))
    ensures
        res.1@ == text@,
        match parsed {
            Some(JsonValue::Object(raw)) => decoded_from(raw@, res.0),
            _ => plain_message(text@, res.0),
        },
{
    match parsed {
        Some(JsonValue::Object(raw)) => (decode_object(raw), text),
        _ => {
            let mut p = NotifyPayload::default();
            p.message = text.clone();
            (p, text)
        },
    }
}

/// Decodes a payload's bytes (see [`parsed_as`]); valid UTF-8 is read as it
/// is.
pub fn parse_bytes(bytes: &[u8]) -> (res: (NotifyPayload, String))
    ensures
        parsed_as(bytes@, res),
        vstd::utf8::valid_utf8(bytes@) ==> res.1@ == trimmed(vstd::utf8::decode_utf8(bytes@)),
{
    let text = from_utf8_lossy(bytes);
    let raw_input = trim_str(text.as_str());
    decode_payload(parse_json(bytes), raw_input)
}

} // verus!

verus! {

// ---------------------------------------------------------------------------
// Where the payload comes from
// ---------------------------------------------------------------------------

/// The payload text given on the command line: the arguments joined with
/// spaces and trimmed, when the first one (trimmed) is not empty, does not
/// start with `-`, and either starts with `{` or `[` or is the only argument.
pub open spec fn args_payload(args: Seq<Seq<char>>) -> Option<Seq<char>> {
    if args.len() == 0 {
        None
    } else {
        let first = trimmed(args[0]);
        if first.len() == 0 || first[0] == '-' {
            None
        } else if first[0] == '{' || first[0] == '[' || args.len() == 1 {
            Some(trimmed(join(args, seq![' '])))
        } else {
            None
        }
    }
}

/// The payload text given as arguments, if any.
pub fn from_args(args: &[String]) -> (res: Option<String>)
    ensures
        res matches Some(s) ==> args_payload(string_views(args@)) == Some(s@),
        res is None ==> args_payload(string_views(args@)) is None,
{
    if args.len() == 0 {
        return None;
    }
    let first_chars = chars_of(args[0].as_str());
    let first = trim_chars(first_chars.as_slice());
    if first.len() == 0 || first[0] == '-' {
        return None;
    }
    if first[0] == '{' || first[0] == '[' || args.len() == 1 {
        let mut pieces: Vec<Vec<char>> = Vec::new();
        let mut i: usize = 0;
        while i < args.len()
            invariant
                i <= args@.len(),
                char_vec_views(pieces@) == string_views(args@).subrange(0, i as int),
            decreases args@.len() - i,
        {
            let ghost before = pieces@;
            let piece = chars_of(args[i].as_str());
            assert(piece@ == args@[i as int]@);
            pieces.push(piece);
            assert(char_vec_views(pieces@) =~= char_vec_views(before).push(piece@));
            assert(string_views(args@).subrange(0, i + 1) =~= string_views(args@).subrange(0, i as int).push(args@[i as int]@));
            i = i + 1;
        }
        assert(string_views(args@).subrange(0, args@.len() as int) =~= string_views(args@));
        let space = [' '];
        assert(space@ == seq![' ']);
        let joined = join_chars(pieces.as_slice(), &space);
        let t = trim_chars(joined.as_slice());
        return Some(string_of(t.as_slice()));
    }
    None
}

/// A byte that `u8::is_ascii_whitespace` accepts.
pub open spec fn is_ascii_space(b: u8) -> bool {
    b == 0x20 || b == 0x09 || b == 0x0a || b == 0x0c || b == 0x0d
}

/// Some byte is not ASCII whitespace.
pub fn has_visible_byte(bytes: &[u8]) -> (res: bool)
    ensures
        res == exists|i: int| 0 <= i < bytes@.len() && !is_ascii_space(#[trigger] bytes@[i]),
{
    let mut i: usize = 0;
    while i < bytes.len()
        invariant
            i <= bytes@.len(),
            forall|k: int| 0 <= k < i ==> is_ascii_space(#[trigger] bytes@[k]),
        decreases bytes@.len() - i,
    {
        let b = bytes[i];
        if !(b == 0x20 || b == 0x09 || b == 0x0a || b == 0x0c || b == 0x0d) {
            assert(!is_ascii_space(bytes@[i as int]));
            return true;
        }
        i = i + 1;
    }
    false
}

/// Chooses and decodes the payload: the command-line text if there is one,
/// else standard input when it holds a visible byte, else an empty payload.
/// `stdin` is `None` when standard input is a terminal.
pub fn read_from(args: &[String], stdin: Option<Vec<u8>>) -> (res: (NotifyPayload, String))
    ensures
        match args_payload(string_views(args@)) {
            Some(text) => parsed_as(vstd::utf8::encode_utf8(text), res),
            None => match stdin {
                Some(bytes) => if exists|i: int| 0 <= i < bytes@.len() && !is_ascii_space(#[trigger] bytes@[i]) {
                    parsed_as(bytes@, res)
                } else {
                    is_empty_payload(res.0) && res.1@.len() == 0
                },
                None => is_empty_payload(res.0) && res.1@.len() == 0,
            },
        },
{
    match from_args(args) {
        Some(value) => {
            let bytes = value.as_str().as_bytes();
            return parse_bytes(bytes);
        },
        None => {},
    }
    match stdin {
        Some(bytes) => {
            if has_visible_byte(bytes.as_slice()) {
                return parse_bytes(bytes.as_slice());
            }
        },
        None => {},
    }
    (NotifyPayload::default(), String::new())
}


} // verus!

verus! {

// ---------------------------------------------------------------------------
// The visible message
// ---------------------------------------------------------------------------

/// `name：value` as a one-line list, or nothing when `value` is empty.
pub open spec fn field_line(name: Seq<char>, value: Seq<char>) -> Seq<Seq<char>> {
    if value.len() > 0 {
        seq![name + "："@ + value]
    } else {
        Seq::empty()
    }
}

/// The answer shown: the last assistant message, else the message.
pub open spec fn response_text(p: NotifyPayload) -> Seq<char> {
    if p.last_assistant_message@.len() == 0 {
        p.message@
    } else {
        p.last_assistant_message@
    }
}

/// The first three inputs joined by ` / `, a count of the others when there
/// are more, all cut to 500 characters.
pub open spec fn format_inputs(messages: Seq<Seq<char>>) -> Seq<char> {
    let shown = join(messages.take(if messages.len() < 3 { messages.len() as int } else { 3 }), " / "@);
    let full = if messages.len() > 3 {
        shown + " / ...(+"@ + decimal((messages.len() - 3) as nat) + ")"@
    } else {
        shown
    };
    truncate_chars(full, 500)
}

pub open spec fn message_lines(p: NotifyPayload) -> Seq<Seq<char>> {
    (if p.input_messages@.len() > 0 {
        field_line("用户输入"@, format_inputs(string_views(p.input_messages@)))
    } else {
        Seq::empty()
    }) + field_line("Codex 回应"@, response_text(p))
}

/// The notification text: the user input and the answer, one line each, or
/// a fixed completion line when both are empty.
pub open spec fn built_message(p: NotifyPayload) -> Seq<char> {
    if message_lines(p).len() == 0 {
        "Codex 回应：任务已完成"@
    } else {
        join(message_lines(p), seq!['\n'])
    }
}

/// The notification shows only the user's input and the answer: payloads
/// that agree on those give the same message, whatever their event, session,
/// turn, working directory, model, permission mode or transcript path.
pub proof fn lemma_message_shows_only_input_and_answer(p: NotifyPayload, q: NotifyPayload)
    requires
        string_views(p.input_messages@) == string_views(q.input_messages@),
        p.last_assistant_message@ == q.last_assistant_message@,
        p.message@ == q.message@,
    ensures
        built_message(p) == built_message(q),
{
    assert(p.input_messages@.len() == string_views(p.input_messages@).len());
    assert(q.input_messages@.len() == string_views(q.input_messages@).len());
    assert(message_lines(p) == message_lines(q));
}

fn push_field(lines: &mut Vec<Vec<char>>, name: &str, value: &[char])
    ensures
        char_vec_views(final(lines)@) == char_vec_views(old(lines)@) + field_line(name@, value@),
{
    let ghost before = lines@;
    if value.len() > 0 {
        let mut line = chars_of(name);
        let colon = chars_of("：");
        extend_chars(&mut line, colon.as_slice());
        extend_chars(&mut line, value);
        lines.push(line);
        assert(char_vec_views(lines@) =~= char_vec_views(before) + field_line(name@, value@));
    } else {
        assert(char_vec_views(lines@) =~= char_vec_views(before) + field_line(name@, value@));
    }
}

fn format_input_messages(messages: &Vec<String>) -> (res: Vec<char>)
    ensures
        res@ == format_inputs(string_views(messages@)),
{
    let ghost views = string_views(messages@);
    let count: usize = if messages.len() < 3 {
        messages.len()
    } else {
        3
    };
    let mut shown: Vec<Vec<char>> = Vec::new();
    let mut i: usize = 0;
    while i < count
        invariant
            i <= count <= messages@.len(),
            views == string_views(messages@),
            char_vec_views(shown@) == views.take(i as int),
        decreases count - i,
    {
        let ghost before = shown@;
        let piece = chars_of(messages[i].as_str());
        shown.push(piece);
        assert(char_vec_views(shown@) =~= char_vec_views(before).push(piece@));
        assert(views.take(i + 1) =~= views.take(i as int).push(views[i as int]));
        i = i + 1;
    }
    let sep = chars_of(" / ");
    let mut full = join_chars(shown.as_slice(), sep.as_slice());
    if messages.len() > 3 {
        let more = chars_of(" / ...(+");
        extend_chars(&mut full, more.as_slice());
        push_decimal(&mut full, (messages.len() - 3) as u128);
        let close = chars_of(")");
        extend_chars(&mut full, close.as_slice());
    }
    truncate_char_vec(full.as_slice(), 500)
}

/// The message sent on every channel: `用户输入：…` when there is user input
/// and `Codex 回应：…` with the answer, one per line; `Codex 回应：任务已完成`
/// when there is neither.
pub fn build_message(payload: &NotifyPayload) -> (res: String)
    ensures
        res@ == built_message(*payload),
{
    let mut lines: Vec<Vec<char>> = Vec::new();
    assert(char_vec_views(lines@) =~= Seq::<Seq<char>>::empty());
    if payload.input_messages.len() > 0 {
        let formatted = format_input_messages(&payload.input_messages);
        push_field(&mut lines, "用户输入", formatted.as_slice());
    }
    let response = if payload.last_assistant_message.as_str().unicode_len() == 0 {
        chars_of(payload.message.as_str())
    } else {
        chars_of(payload.last_assistant_message.as_str())
    };
    push_field(&mut lines, "Codex 回应", response.as_slice());
    assert(char_vec_views(lines@) == message_lines(*payload));
    if lines.len() == 0 {
        return String::from_str("Codex 回应：任务已完成");
    }
    let newline = ['\n'];
    assert(newline@ == seq!['\n']);
    let joined = join_chars(lines.as_slice(), &newline);
    string_of(joined.as_slice())
}

// ---------------------------------------------------------------------------
// Headline and title
// ---------------------------------------------------------------------------

/// What `str::to_lowercase` returns for `s` (Unicode lowercase mapping).
pub uninterp spec fn unicode_lowercase(s: Seq<char>) -> Seq<char>;

/// Calls `str::to_lowercase`. Claimed: the result is `unicode_lowercase(s@)`.
#[verifier::external_body]
fn to_lowercase(s: &str) -> (res: String)
    ensures
        res@ == unicode_lowercase(s@),
{
    s.to_lowercase()
}

/// Some needle occurs in `value`.
pub open spec fn contains_any(value: Seq<char>, needles: Seq<Seq<char>>) -> bool {
    exists|i: int| 0 <= i < needles.len() && contains_seq(value, #[trigger] needles[i])
}

fn contains_any_exec(value: &[char], needles: &[&str]) -> (res: bool)
    ensures
        res == contains_any(value@, key_views(needles@)),
{
    let mut i: usize = 0;
    while i < needles.len()
        invariant
            i <= needles@.len(),
            forall|k: int| 0 <= k < i ==> !contains_seq(value@, #[trigger] key_views(needles@)[k]),
        decreases needles@.len() - i,
    {
        let needle = chars_of(needles[i]);
        if chars_contain(value, needle.as_slice()) {
            assert(contains_seq(value@, key_views(needles@)[i as int]));
            return true;
        }
        i = i + 1;
    }
    false
}

pub open spec fn done_words() -> Seq<Seq<char>> {
    seq!["turn-complete"@, "turn_complete"@, "completed"@, "finished"@, "done"@]
}

pub open spec fn approval_words() -> Seq<Seq<char>> {
    seq!["permission"@, "approval"@, "approve"@, "审批"@, "批准"@, "权限"@]
}

pub open spec fn attention_words() -> Seq<Seq<char>> {
    seq![
        "input"@,
        "interaction"@,
        "question"@,
        "prompt"@,
        "waiting"@,
        "resume"@,
        "continue"@,
        "继续"@,
        "对话"@,
        "处理"@,
    ]
}

/// Hook event, event, status and message, space-separated and lowercased.
pub open spec fn event_text(p: NotifyPayload) -> Seq<char> {
    unicode_lowercase(
        p.hook_event_name@ + seq![' '] + p.event@ + seq![' '] + p.status@ + seq![' '] + p.message@,
    )
}

/// The headline for a notification whose lowercased event text is `t`,
/// from the first rule that applies: a finished turn, an approval request, a
/// request for input, Plan Mode, any other event; with nothing to go on, a
/// finished task.
pub open spec fn headline_from(p: NotifyPayload, t: Seq<char>) -> Seq<char> {
    if eq_ignore_ascii_case(p.hook_event_name@, "stop"@) || eq_ignore_ascii_case(p.event@, "stop"@)
        || contains_any(t, done_words()) {
        "父亲，Codex 任务已完成。"@
    } else if contains_any(t, approval_words()) {
        "父亲，Codex 等待你审批。"@
    } else if contains_any(t, attention_words()) {
        "父亲，Codex 需要你继续处理。"@
    } else if eq_ignore_ascii_case(p.permission_mode@, "plan"@) && p.hook_event_name@.len() == 0 {
        "父亲，Codex Plan Mode 需要你处理。"@
    } else if p.event@.len() > 0 || p.status@.len() > 0 || p.message@.len() > 0 {
        "父亲，Codex 有新的通知。"@
    } else {
        "父亲，Codex 任务已完成。"@
    }
}

/// The headline for a notification (see [`headline_from`]).
pub open spec fn headline(p: NotifyPayload) -> Seq<char> {
    headline_from(p, event_text(p))
}

fn eq_ignore_case_str(a: &str, b: &str) -> (res: bool)
    ensures
        res == eq_ignore_ascii_case(a@, b@),
{
    let x = chars_of(a);
    let y = chars_of(b);
    chars_eq_ignore_ascii_case(x.as_slice(), y.as_slice())
}

/// The headline of the notification (see [`headline`]).
pub fn notification_headline(payload: &NotifyPayload) -> (res: String)
    ensures
        res@ == headline(*payload),
{
    let mut joined = chars_of(payload.hook_event_name.as_str());
    joined.push(' ');
    extend_chars(&mut joined, chars_of(payload.event.as_str()).as_slice());
    joined.push(' ');
    extend_chars(&mut joined, chars_of(payload.status.as_str()).as_slice());
    joined.push(' ');
    extend_chars(&mut joined, chars_of(payload.message.as_str()).as_slice());
    assert(joined@ =~= payload.hook_event_name@ + seq![' '] + payload.event@ + seq![' '] + payload.status@
        + seq![' '] + payload.message@);
    let joined_text = string_of(joined.as_slice());
    let lowered = to_lowercase(joined_text.as_str());
    headline_for(payload, lowered.as_str())
}

/// The headline for a notification whose lowercased event text (hook
/// event, event, status and message, space-separated) is `lowered`.
pub fn headline_for(payload: &NotifyPayload, lowered: &str) -> (res: String)
    ensures
        res@ == headline_from(*payload, lowered@),
{
    let event_text = chars_of(lowered);
    let done = ["turn-complete", "turn_complete", "completed", "finished", "done"];
    assert(key_views(done@) =~= done_words());
    let approval = ["permission", "approval", "approve", "审批", "批准", "权限"];
    assert(key_views(approval@) =~= approval_words());
    let attention = [
        "input",
        "interaction",
        "question",
        "prompt",
        "waiting",
        "resume",
        "continue",
        "继续",
        "对话",
        "处理",
    ];
    assert(key_views(attention@) =~= attention_words());
    if eq_ignore_case_str(payload.hook_event_name.as_str(), "stop") || eq_ignore_case_str(
        payload.event.as_str(),
        "stop",
    ) || contains_any_exec(event_text.as_slice(), &done) {
        return String::from_str("父亲，Codex 任务已完成。");
    }
    if contains_any_exec(event_text.as_slice(), &approval) {
        return String::from_str("父亲，Codex 等待你审批。");
    }
    if contains_any_exec(event_text.as_slice(), &attention) {
        return String::from_str("父亲，Codex 需要你继续处理。");
    }
    if eq_ignore_case_str(payload.permission_mode.as_str(), "plan")
        && payload.hook_event_name.as_str().unicode_len() == 0 {
        return String::from_str("父亲，Codex Plan Mode 需要你处理。");
    }
    if payload.event.as_str().unicode_len() > 0 || payload.status.as_str().unicode_len() > 0
        || payload.message.as_str().unicode_len() > 0 {
        return String::from_str("父亲，Codex 有新的通知。");
    }
    String::from_str("父亲，Codex 任务已完成。")
}

/// The title: the headline without its leading `父亲，` and trailing `。`.
pub open spec fn title(p: NotifyPayload) -> Seq<char> {
    strip_end(strip_prefix_all(headline(p), "父亲，"@), '。')
}

/// The notification title (see [`title`]).
pub fn notification_title(payload: &NotifyPayload) -> (res: String)
    ensures
        res@ == title(*payload),
{
    let h = notification_headline(payload);
    let chars = chars_of(h.as_str());
    let prefix = chars_of("父亲，");
    let without_prefix = strip_prefix_all_chars(chars.as_slice(), prefix.as_slice());
    let t = strip_end_chars(without_prefix.as_slice(), '。');
    string_of(t.as_slice())
}

} // verus!

verus! {

// ---------------------------------------------------------------------------
// Sub-agent detection
// ---------------------------------------------------------------------------

/// A value that says something: not null, not a blank string.
pub open spec fn value_is_present(v: JsonValue) -> bool {
    match v {
        JsonValue::Null => false,
        JsonValue::Str(s) => trimmed(s@).len() > 0,
        _ => true,
    }
}

/// A value that means yes: `true`, the string `true` in any ASCII case or
/// `1`, or a non-zero integer.
pub open spec fn value_is_true(v: JsonValue) -> bool {
    match v {
        JsonValue::Bool(b) => b,
        JsonValue::Str(s) => eq_ignore_ascii_case(s@, "true"@) || s@ == "1"@,
        JsonValue::Number(n) => n.int_view() matches Some(k) && k != 0,
        _ => false,
    }
}

pub open spec fn identity_keys() -> Seq<Seq<char>> {
    seq![
        "agent_id"@,
        "agentId"@,
        "agent-id"@,
        "agent_type"@,
        "agentType"@,
        "agent-type"@,
        "parent_thread_id"@,
        "parentThreadId"@,
        "parent-thread-id"@,
    ]
}

pub open spec fn flag_keys() -> Seq<Seq<char>> {
    seq!["is_subagent"@, "isSubagent"@, "is-subagent"@]
}

pub open spec fn source_keys() -> Seq<Seq<char>> {
    seq!["source"@, "thread_source"@, "threadSource"@]
}

/// Some key of `keys` holds a present value.
pub open spec fn some_present(raw: Seq<(String, JsonValue)>, keys: Seq<Seq<char>>) -> bool {
    exists|i: int|
        0 <= i < keys.len() && (#[trigger] obj_get(raw, keys[i]) matches Some(v) && value_is_present(v))
}

/// Some key of `keys` holds a true value.
pub open spec fn some_true(raw: Seq<(String, JsonValue)>, keys: Seq<Seq<char>>) -> bool {
    exists|i: int|
        0 <= i < keys.len() && (#[trigger] obj_get(raw, keys[i]) matches Some(v) && value_is_true(v))
}

/// The JSON object marks a sub-agent: an agent identity or parent thread, an
/// explicit flag, or a source that mentions `subagent`.
pub open spec fn raw_marks_subagent(raw: Seq<(String, JsonValue)>) -> bool {
    ||| some_present(raw, identity_keys())
    ||| some_true(raw, flag_keys())
    ||| contains_seq(ascii_lower_seq(first_string(raw, source_keys())), "subagent"@)
}

/// The notification comes from a sub-agent: a `SubagentStop` event, a client
/// naming a sub-agent, sub-agent markers in the JSON object, or a legacy
/// `agent-turn-complete` with a session but neither client nor user input.
pub open spec fn is_subagent_payload(p: NotifyPayload) -> bool {
    ||| eq_ignore_ascii_case(p.hook_event_name@, "SubagentStop"@)
    ||| eq_ignore_ascii_case(p.event@, "SubagentStop"@)
    ||| contains_seq(ascii_lower_seq(p.client@), "subagent"@)
    ||| (p.raw matches Some(raw) && raw_marks_subagent(raw@))
    ||| (eq_ignore_ascii_case(p.event@, "agent-turn-complete"@) && p.session_id@.len() > 0
        && p.client@.len() == 0 && p.input_messages@.len() == 0)
}

fn value_is_present_exec(v: &JsonValue) -> (res: bool)
    ensures
        res == value_is_present(*v),
{
    match v {
        JsonValue::Null => false,
        JsonValue::Str(s) => trim_str(s.as_str()).as_str().unicode_len() > 0,
        _ => true,
    }
}

fn value_is_true_exec(v: &JsonValue) -> (res: bool)
    ensures
        res == value_is_true(*v),
{
    match v {
        JsonValue::Bool(b) => *b,
        JsonValue::Str(s) => eq_ignore_case_str(s.as_str(), "true") || crate::json::str_eq(
            s.as_str(),
            "1",
        ),
        JsonValue::Number(n) => match n.as_i64() {
            Some(k) => k != 0,
            None => false,
        },
        _ => false,
    }
}

fn some_present_exec(raw: &Vec<(String, JsonValue)>, keys: &[&str]) -> (res: bool)
    ensures
        res == some_present(raw@, key_views(keys@)),
{
    let mut i: usize = 0;
    while i < keys.len()
        invariant
            i <= keys@.len(),
            forall|k: int|
                0 <= k < i ==> !(#[trigger] obj_get(raw@, key_views(keys@)[k]) matches Some(v)
                    && value_is_present(v)),
        decreases keys@.len() - i,
    {
        match get(raw, keys[i]) {
            Some(v) => {
                if value_is_present_exec(v) {
                    assert(obj_get(raw@, key_views(keys@)[i as int]) matches Some(w) && value_is_present(w));
                    return true;
                }
            },
            None => {},
        }
        i = i + 1;
    }
    false
}

fn some_true_exec(raw: &Vec<(String, JsonValue)>, keys: &[&str]) -> (res: bool)
    ensures
        res == some_true(raw@, key_views(keys@)),
{
    let mut i: usize = 0;
    while i < keys.len()
        invariant
            i <= keys@.len(),
            forall|k: int|
                0 <= k < i ==> !(#[trigger] obj_get(raw@, key_views(keys@)[k]) matches Some(v)
                    && value_is_true(v)),
        decreases keys@.len() - i,
    {
        match get(raw, keys[i]) {
            Some(v) => {
                if value_is_true_exec(v) {
                    assert(obj_get(raw@, key_views(keys@)[i as int]) matches Some(w) && value_is_true(w));
                    return true;
                }
            },
            None => {},
        }
        i = i + 1;
    }
    false
}

fn lower_contains(s: &str, needle: &str) -> (res: bool)
    ensures
        res == contains_seq(ascii_lower_seq(s@), needle@),
{
    let chars = chars_of(s);
    let lowered = ascii_lower_chars(chars.as_slice());
    let n = chars_of(needle);
    chars_contain(lowered.as_slice(), n.as_slice())
}

impl NotifyPayload {
    /// Whether the notification comes from a sub-agent (see [`is_subagent_payload`]).
    pub fn is_subagent(&self) -> (res: bool)
        ensures
            res == is_subagent_payload(*self),
    {
        if eq_ignore_case_str(self.hook_event_name.as_str(), "SubagentStop") || eq_ignore_case_str(
            self.event.as_str(),
            "SubagentStop",
        ) || lower_contains(self.client.as_str(), "subagent") {
            return true;
        }
        match &self.raw {
            Some(raw) => {
                let identity = [
                    "agent_id",
                    "agentId",
                    "agent-id",
                    "agent_type",
                    "agentType",
                    "agent-type",
                    "parent_thread_id",
                    "parentThreadId",
                    "parent-thread-id",
                ];
                assert(key_views(identity@) =~= identity_keys());
                let flags = ["is_subagent", "isSubagent", "is-subagent"];
                assert(key_views(flags@) =~= flag_keys());
                let sources = ["source", "thread_source", "threadSource"];
                assert(key_views(sources@) =~= source_keys());
                let has_identity = some_present_exec(raw, &identity);
                let explicit_flag = some_true_exec(raw, &flags);
                let source = first_string_of(raw, &sources);
                let subagent_source = lower_contains(source.as_str(), "subagent");
                if has_identity || explicit_flag || subagent_source {
                    return true;
                }
            },
            None => {},
        }
        eq_ignore_case_str(self.event.as_str(), "agent-turn-complete")
            && self.session_id.as_str().unicode_len() > 0 && self.client.as_str().unicode_len() == 0
            && self.input_messages.len() == 0
    }
}

} // verus!

verus! {

// ---------------------------------------------------------------------------
// User input from the session transcript
// ---------------------------------------------------------------------------

/// `s` cut at each `'\n'` (the last piece may be empty). After trimming and
/// dropping empty pieces this gives what `str::lines` followed by the same
/// trimming gives: the `'\r'` of a `"\r\n"` ending is whitespace.
pub open spec fn split_lines(s: Seq<char>) -> Seq<Seq<char>>
    decreases s.len(),
{
    if s.len() == 0 {
        seq![Seq::empty()]
    } else if s.last() == '\n' {
        split_lines(s.drop_last()).push(Seq::empty())
    } else {
        let ls = split_lines(s.drop_last());
        ls.update(ls.len() - 1, ls.last().push(s.last()))
    }
}

proof fn lemma_split_lines_nonempty(s: Seq<char>)
    ensures
        split_lines(s).len() > 0,
    decreases s.len(),
{
    if s.len() > 0 {
        lemma_split_lines_nonempty(s.drop_last());
    }
}

/// The `input_text` parts of a message's content, in order, without empty ones.
pub open spec fn input_texts(parts: Seq<JsonValue>) -> Seq<Seq<char>>
    decreases parts.len(),
{
    if parts.len() == 0 {
        Seq::empty()
    } else {
        input_texts(parts.drop_last()) + match parts.last() {
            JsonValue::Object(part) => if first_string(part@, seq!["type"@]) == "input_text"@
                && first_string(part@, seq!["text"@]).len() > 0 {
                seq![first_string(part@, seq!["text"@])]
            } else {
                Seq::empty()
            },
            _ => Seq::empty(),
        }
    }
}

/// The user's words in one transcript record: a `user_message` event's
/// message, or the `input_text` parts of a `message` whose role is `user`
/// (in any ASCII case), joined by line breaks. The record may wrap the entry
/// in a `payload` object.
pub open spec fn transcript_user_message(v: JsonValue) -> Option<Seq<char>> {
    match v {
        JsonValue::Object(raw) => {
            let entry = match obj_get(raw@, "payload"@) {
                Some(JsonValue::Object(e)) => e@,
                _ => raw@,
            };
            let kind = first_string(entry, seq!["type"@]);
            if kind == "user_message"@ {
                let m = first_string(entry, seq!["message"@, "text"@]);
                if m.len() > 0 {
                    Some(m)
                } else {
                    None
                }
            } else if kind != "message"@ || !eq_ignore_ascii_case(
                first_string(entry, seq!["role"@]),
                "user"@,
            ) {
                None
            } else {
                match obj_get(entry, "content"@) {
                    Some(JsonValue::Array(parts)) => {
                        let m = join(input_texts(parts@), seq!['\n']);
                        if m.len() > 0 {
                            Some(m)
                        } else {
                            None
                        }
                    },
                    _ => None,
                }
            }
        },
        _ => None,
    }
}

/// The user message of one transcript line, trimmed, if it is a JSON record
/// holding one.
pub open spec fn line_user_message(line: Seq<char>) -> Option<Seq<char>> {
    let t = trimmed(line);
    if t.len() == 0 {
        None
    } else {
        match json_parse(vstd::utf8::encode_utf8(t)) {
            Some(v) => transcript_user_message(v),
            None => None,
        }
    }
}

/// The user message of the last line that holds one.
pub open spec fn last_user_message(lines: Seq<Seq<char>>) -> Option<Seq<char>>
    decreases lines.len(),
{
    if lines.len() == 0 {
        None
    } else {
        match line_user_message(lines.last()) {
            Some(m) => Some(m),
            None => last_user_message(lines.drop_last()),
        }
    }
}

fn split_lines_exec(s: &[char]) -> (res: Vec<Vec<char>>)
    ensures
        char_vec_views(res@) == split_lines(s@),
{
    let mut lines: Vec<Vec<char>> = Vec::new();
    let mut current: Vec<char> = Vec::new();
    let mut i: usize = 0;
    assert(split_lines(s@.subrange(0, 0)) == seq![Seq::<char>::empty()]);
    while i < s.len()
        invariant
            i <= s@.len(),
            char_vec_views(lines@).push(current@) == split_lines(s@.subrange(0, i as int)),
        decreases s@.len() - i,
    {
        let ghost pre = s@.subrange(0, i + 1);
        assert(pre.drop_last() == s@.subrange(0, i as int));
        assert(pre.last() == s@[i as int]);
        let ghost old_lines = lines@;
        let ghost old_current = current@;
        if s[i] == '\n' {
            let done = current;
            lines.push(done);
            current = Vec::new();
            assert(char_vec_views(lines@) =~= char_vec_views(old_lines).push(old_current));
            assert(char_vec_views(lines@).push(current@) =~= split_lines(pre));
        } else {
            current.push(s[i]);
            let ghost ls = char_vec_views(old_lines).push(old_current);
            assert(char_vec_views(lines@).push(current@) =~= ls.update(ls.len() - 1, ls.last().push(s@[i as int])));
        }
        i = i + 1;
    }
    let ghost before = lines@;
    lines.push(current);
    assert(char_vec_views(lines@) =~= char_vec_views(before).push(current@));
    assert(s@.subrange(0, s@.len() as int) == s@);
    lines
}

fn input_texts_exec(parts: &Vec<JsonValue>) -> (res: Vec<Vec<char>>)
    ensures
        char_vec_views(res@) == input_texts(parts@),
{
    let mut out: Vec<Vec<char>> = Vec::new();
    let mut i: usize = 0;
    assert(char_vec_views(out@) =~= Seq::<Seq<char>>::empty());
    while i < parts.len()
        invariant
            i <= parts@.len(),
            char_vec_views(out@) == input_texts(parts@.subrange(0, i as int)),
        decreases parts@.len() - i,
    {
        let ghost pre = parts@.subrange(0, i + 1);
        assert(pre.drop_last() == parts@.subrange(0, i as int));
        assert(pre.last() == parts@[i as int]);
        let ghost before = out@;
        match &parts[i] {
            JsonValue::Object(part) => {
                let type_key = ["type"];
                assert(key_views(type_key@) =~= seq!["type"@]);
                let text_key = ["text"];
                assert(key_views(text_key@) =~= seq!["text"@]);
                let kind = first_string_of(part, &type_key);
                let text = first_string_of(part, &text_key);
                if crate::json::str_eq(kind.as_str(), "input_text") && text.as_str().unicode_len() > 0 {
                    let t = chars_of(text.as_str());
                    out.push(t);
                    assert(char_vec_views(out@) =~= char_vec_views(before).push(t@));
                }
            },
            _ => {},
        }
        i = i + 1;
    }
    assert(parts@.subrange(0, parts@.len() as int) == parts@);
    out
}

fn transcript_user_message_exec(v: &JsonValue) -> (res: Option<String>)
    ensures
        res matches Some(m) ==> transcript_user_message(*v) == Some(m@),
        res is None ==> transcript_user_message(*v) is None,
{
    match v {
        JsonValue::Object(raw) => {
            let entry: &Vec<(String, JsonValue)> = match get(raw, "payload") {
                Some(JsonValue::Object(e)) => e,
                _ => raw,
            };
            let type_key = ["type"];
            assert(key_views(type_key@) =~= seq!["type"@]);
            let kind = first_string_of(entry, &type_key);
            if crate::json::str_eq(kind.as_str(), "user_message") {
                let keys = ["message", "text"];
                assert(key_views(keys@) =~= seq!["message"@, "text"@]);
                let m = first_string_of(entry, &keys);
                if m.as_str().unicode_len() > 0 {
                    return Some(m);
                }
                return None;
            }
            let role_key = ["role"];
            assert(key_views(role_key@) =~= seq!["role"@]);
            let role = first_string_of(entry, &role_key);
            if !crate::json::str_eq(kind.as_str(), "message") || !eq_ignore_case_str(
                role.as_str(),
                "user",
            ) {
                return None;
            }
            match get(entry, "content") {
                Some(JsonValue::Array(parts)) => {
                    let texts = input_texts_exec(parts);
                    let newline = ['\n'];
                    assert(newline@ == seq!['\n']);
                    let joined = join_chars(texts.as_slice(), &newline);
                    if joined.len() > 0 {
                        Some(string_of(joined.as_slice()))
                    } else {
                        None
                    }
                },
                _ => None,
            }
        },
        _ => None,
    }
}

fn line_user_message_exec(line: &[char]) -> (res: Option<String>)
    ensures
        res matches Some(m) ==> line_user_message(line@) == Some(m@),
        res is None ==> line_user_message(line@) is None,
{
    let t = trim_chars(line);
    if t.len() == 0 {
        return None;
    }
    let text = string_of(t.as_slice());
    match parse_json(text.as_str().as_bytes()) {
        Some(v) => transcript_user_message_exec(&v),
        None => None,
    }
}

/// The user message of the last transcript line that holds one.
pub fn transcript_user_input(content: &str) -> (res: Option<String>)
    ensures
        res matches Some(m) ==> last_user_message(split_lines(content@)) == Some(m@),
        res is None ==> last_user_message(split_lines(content@)) is None,
{
    let chars = chars_of(content);
    let lines = split_lines_exec(chars.as_slice());
    let ghost all = char_vec_views(lines@);
    let mut j: usize = lines.len();
    assert(all.subrange(0, j as int) == all);
    while j > 0
        invariant
            j <= lines@.len(),
            all == char_vec_views(lines@),
            all == split_lines(content@),
            last_user_message(all) == last_user_message(all.subrange(0, j as int)),
        decreases j,
    {
        let ghost pre = all.subrange(0, j as int);
        assert(pre.last() == lines@[j - 1]@);
        assert(pre.drop_last() == all.subrange(0, j - 1));
        match line_user_message_exec(lines[j - 1].as_slice()) {
            Some(m) => {
                return Some(m);
            },
            None => {},
        }
        j = j - 1;
    }
    None
}

/// The transcript to read for the user's input: the trimmed transcript path,
/// when the payload has no input messages and the path is not blank.
pub open spec fn transcript_to_read(p: NotifyPayload) -> Option<Seq<char>> {
    if p.input_messages@.len() > 0 || trimmed(p.transcript_path@).len() == 0 {
        None
    } else {
        Some(trimmed(p.transcript_path@))
    }
}

/// The transcript path to read, if the user input has to come from there.
pub fn transcript_path_to_read(payload: &NotifyPayload) -> (res: Option<String>)
    ensures
        res matches Some(path) ==> transcript_to_read(*payload) == Some(path@),
        res is None ==> transcript_to_read(*payload) is None,
{
    if payload.input_messages.len() > 0 {
        return None;
    }
    let path = trim_str(payload.transcript_path.as_str());
    if path.as_str().unicode_len() == 0 {
        return None;
    }
    Some(path)
}

/// Adds the last user message of a transcript's `content` as the payload's
/// input, when the payload has none yet; every other field stays.
pub fn add_transcript_input(payload: &mut NotifyPayload, content: &str)
    ensures
        *final(payload) == (NotifyPayload { input_messages: final(payload).input_messages, ..*old(payload) }),
        old(payload).input_messages@.len() > 0 ==> final(payload).input_messages@ == old(payload).input_messages@,
        old(payload).input_messages@.len() == 0 ==> string_views(final(payload).input_messages@) == match last_user_message(
            split_lines(content@),
        ) {
            Some(m) => seq![m],
            None => Seq::<Seq<char>>::empty(),
        },
{
    if payload.input_messages.len() > 0 {
        return;
    }
    match transcript_user_input(content) {
        Some(m) => {
            payload.input_messages.push(m);
            assert(string_views(payload.input_messages@) =~= seq![m@]);
        },
        None => {
            assert(string_views(payload.input_messages@) =~= Seq::<Seq<char>>::empty());
        },
    }
}

} // verus!

verus! {

// ---------------------------------------------------------------------------
// Laws of the payload rules
// ---------------------------------------------------------------------------

/// A stop event means the task is finished: when the hook event or the event
/// is `stop` (in any ASCII case), the headline says the task is done and the
/// title is `Codex 任务已完成`, whatever the other fields hold.
pub proof fn lemma_stop_means_finished(p: NotifyPayload)
    requires
        eq_ignore_ascii_case(p.hook_event_name@, "stop"@) || eq_ignore_ascii_case(p.event@, "stop"@),
    ensures
        headline(p) == "父亲，Codex 任务已完成。"@,
        title(p) == "Codex 任务已完成"@,
{
    let h = "父亲，Codex 任务已完成。"@;
    let prefix = "父亲，"@;
    let body = "Codex 任务已完成。"@;
    let t = "Codex 任务已完成"@;
    reveal_strlit("父亲，Codex 任务已完成。");
    reveal_strlit("父亲，");
    reveal_strlit("Codex 任务已完成。");
    reveal_strlit("Codex 任务已完成");
    assert(headline(p) == h);
    assert(h.subrange(0, 3) =~= prefix);
    assert(crate::text::has_prefix(h, prefix));
    assert(h.subrange(3, h.len() as int) =~= body);
    assert(!crate::text::has_prefix(body, prefix)) by {
        assert(body.subrange(0, 3)[0] != prefix[0]);
    }
    assert(strip_prefix_all(body, prefix) == body);
    assert(strip_prefix_all(h, prefix) == body);
    assert(body.drop_last() =~= t);
    assert(strip_end(t, '。') == t);
    assert(strip_end(body, '。') == t);
}

/// A JSON boolean means yes exactly when it is `true`.
pub proof fn lemma_boolean_truth(b: bool)
    ensures
        value_is_true(JsonValue::Bool(b)) == b,
{
}

/// An explicit sub-agent flag that is the JSON boolean `true`, under any of
/// its spellings, makes the payload a sub-agent's.
pub proof fn lemma_true_flag_marks_subagent(p: NotifyPayload, k: int)
    requires
        0 <= k < flag_keys().len(),
        p.raw matches Some(raw) && obj_get(raw@, flag_keys()[k]) == Some(JsonValue::Bool(true)),
    ensures
        is_subagent_payload(p),
{
    let raw = p.raw->0@;
    assert(value_is_true(JsonValue::Bool(true)));
    assert(obj_get(raw, flag_keys()[k]) matches Some(v) && value_is_true(v));
    assert(some_true(raw, flag_keys()));
}

/// The entry of a transcript record: its `payload` object, or the record.
pub open spec fn transcript_entry(v: JsonValue) -> Option<Seq<(String, JsonValue)>> {
    match v {
        JsonValue::Object(raw) => Some(
            match obj_get(raw@, "payload"@) {
                Some(JsonValue::Object(e)) => e@,
                _ => raw@,
            },
        ),
        _ => None,
    }
}

/// The `type` of a transcript record's entry.
pub open spec fn entry_kind(v: JsonValue) -> Seq<char> {
    match transcript_entry(v) {
        Some(e) => first_string(e, seq!["type"@]),
        None => Seq::empty(),
    }
}

/// The `role` of a transcript record's entry.
pub open spec fn entry_role(v: JsonValue) -> Seq<char> {
    match transcript_entry(v) {
        Some(e) => first_string(e, seq!["role"@]),
        None => Seq::empty(),
    }
}

/// The `message` (or else `text`) of a transcript record's entry.
pub open spec fn entry_words(v: JsonValue) -> Seq<char> {
    match transcript_entry(v) {
        Some(e) => first_string(e, seq!["message"@, "text"@]),
        None => Seq::empty(),
    }
}

/// The record is the user speaking: a `user_message`, or a `message` whose
/// role is `user` (in any ASCII case).
pub open spec fn speaks_as_user(v: JsonValue) -> bool {
    ||| entry_kind(v) == "user_message"@
    ||| (entry_kind(v) == "message"@ && eq_ignore_ascii_case(entry_role(v), "user"@))
}

/// Only the user speaks in what is taken from a transcript: a record gives
/// a message only when it is the user speaking (so an agent's message or any
/// other entry gives none), and the message is never empty; a
/// `user_message` with words gives those words.
pub proof fn lemma_transcript_only_user(v: JsonValue)
    ensures
        transcript_user_message(v) is Some ==> transcript_entry(v) is Some && speaks_as_user(v)
            && transcript_user_message(v)->0.len() > 0,
        !speaks_as_user(v) ==> transcript_user_message(v) is None,
        transcript_entry(v) is Some && entry_kind(v) == "user_message"@ && entry_words(v).len() > 0
            ==> transcript_user_message(v) == Some(entry_words(v)),
{
}

/// The user input taken from a transcript is the message of its last line
/// that holds one; with no such line there is none.
pub proof fn lemma_last_user_message(lines: Seq<Seq<char>>)
    ensures
        last_user_message(lines) matches Some(m) ==> exists|i: int|
            0 <= i < lines.len() && line_user_message(#[trigger] lines[i]) == Some(m) && forall|j: int|
                i < j < lines.len() ==> line_user_message(#[trigger] lines[j]) is None,
        last_user_message(lines) is None ==> forall|i: int|
            0 <= i < lines.len() ==> line_user_message(#[trigger] lines[i]) is None,
    decreases lines.len(),
{
    if lines.len() > 0 {
        let before = lines.drop_last();
        lemma_last_user_message(before);
        let n = lines.len() - 1;
        assert(lines[n] == lines.last());
        match line_user_message(lines.last()) {
            Some(m) => {
                assert(line_user_message(lines[n]) == Some(m));
            },
            None => {
                assert forall|j: int| 0 <= j < before.len() implies lines[j] == before[j] by {}
                match last_user_message(before) {
                    Some(m) => {
                        let i = choose|i: int|
                            0 <= i < before.len() && line_user_message(#[trigger] before[i]) == Some(m)
                                && forall|j: int| i < j < before.len() ==> line_user_message(#[trigger] before[j]) is None;
                        assert(line_user_message(lines[i]) == Some(m));
                        assert forall|j: int| i < j < lines.len() implies line_user_message(#[trigger] lines[j]) is None by {
                            if j < n {
                                assert(lines[j] == before[j]);
                            }
                        }
                    },
                    None => {
                        assert forall|i: int| 0 <= i < lines.len() implies line_user_message(#[trigger] lines[i]) is None by {
                            if i < n {
                                assert(lines[i] == before[i]);
                            }
                        }
                    },
                }
            },
        }
    }
}

} // verus!
