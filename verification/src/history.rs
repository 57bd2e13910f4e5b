//! Codex conversation history: what a rollout file says about its thread, which
//! threads only hold internal transcripts or duplicate a longer one, and which recent
//! threads are brought forward in Codex Desktop's sidebar.
//!
//! Reading rollout files, the thread database and the session index is done by the
//! caller; rollout lines arrive here as parsed JSON values.
use vstd::prelude::*;
use chrono::TimeZone;
use crate::text::{
    after_first, after_first_chars, after_last, after_last_chars, chars_of, join, join_chars,
    char_upper, contains, contains_chars, lower, opt_view, owned, owned_opt, starts_with,
    starts_with_chars, str_eq, string_of, to_lower, trim, trim_chars, trim_start, trim_start_chars,
    trim_str, upper_char, words, words_chars,
};
use crate::json::{
    entries_lookup, get, get_path, has_key, jview, jviews, json_as_array, json_get, json_get_str,
    lemma_eviews_index, lemma_jviews_index, opt_array, opt_ref_view, opt_str, Json, JsonValue,
};

verus! {

// ---------------------------------------------------------------------------
// User messages in rollouts
// ---------------------------------------------------------------------------

/// The text that precedes the user's own words in an instruction-wrapped message.
pub open spec fn user_instructions_tag() -> Seq<char> {
    "<user_instructions>"@
}

/// The marker after which an attachment envelope carries the actual request.
pub open spec fn request_marker() -> Seq<char> {
    "My request for Codex:"@
}

/// A message with everything up to `<user_instructions>` removed, trimmed.
pub open spec fn stripped_user_message(s: Seq<char>) -> Seq<char> {
    match after_first(s, user_instructions_tag()) {
        Some(rest) => trim(rest),
        None => trim(s),
    }
}

/// Text that Codex writes into a user turn for its own bookkeeping: recovery
/// transcripts, environment context, developer and AGENTS.md instructions, tool state.
pub open spec fn internal_transcript(v: Seq<char>) -> bool {
    let t = trim_start(v);
    ||| starts_with(t, "The following is the Codex agent history whose request"@)
    ||| starts_with(t, "<environment_context>"@)
    ||| starts_with(t, "<developer"@)
    ||| starts_with(t, "# AGENTS.md instructions"@)
    ||| starts_with(t, "Another language model started to solve this problem"@)
    ||| starts_with(t, "You have access to the state of the tools"@)
}

/// An attachment list without a request.
pub open spec fn files_mention(t: Seq<char>) -> bool {
    starts_with(t, "Files mentioned by the user:"@) || starts_with(
        t,
        "# Files mentioned by the user:"@,
    )
}

/// What a user message shows in the history, if anything: internal transcripts and
/// bare attachment lists show nothing; an attachment envelope shows the request
/// after its last `My request for Codex:`.
pub open spec fn visible_user_message(s: Seq<char>) -> Option<Seq<char>> {
    let t = trim(stripped_user_message(s));
    if t.len() == 0 || internal_transcript(t) {
        None
    } else if after_last(t, request_marker()) is Some && trim(
        after_last(t, request_marker())->0,
    ).len() > 0 {
        Some(trim(after_last(t, request_marker())->0))
    } else if files_mention(t) {
        None
    } else {
        Some(t)
    }
}

fn starts_with_lit(v: &[char], lit: &str) -> (r: bool)
    ensures
        r == starts_with(v@, lit@),
{
    starts_with_chars(v, chars_of(lit).as_slice())
}

/// Whether a message is one of Codex's internal transcripts.
pub fn rollout_message_is_internal_transcript(value: &str) -> (r: bool)
    ensures
        r == internal_transcript(value@),
{
    let t = trim_start_chars(chars_of(value).as_slice());
    let t = t.as_slice();
    starts_with_lit(t, "The following is the Codex agent history whose request")
        || starts_with_lit(t, "<environment_context>") || starts_with_lit(t, "<developer")
        || starts_with_lit(t, "# AGENTS.md instructions") || starts_with_lit(
        t,
        "Another language model started to solve this problem",
    ) || starts_with_lit(t, "You have access to the state of the tools")
}

fn stripped_chars(v: &[char]) -> (r: Vec<char>)
    ensures
        r@ == stripped_user_message(v@),
{
    match after_first_chars(v, chars_of("<user_instructions>").as_slice()) {
        Some(rest) => trim_chars(rest.as_slice()),
        None => trim_chars(v),
    }
}

/// The message with any preamble up to `<user_instructions>` removed, trimmed.
pub fn strip_rollout_user_message_prefix(value: &str) -> (r: String)
    ensures
        r@ == stripped_user_message(value@),
{
    string_of(stripped_chars(chars_of(value).as_slice()).as_slice())
}

/// The text a user message shows in the history (see `visible_user_message`).
pub fn visible_rollout_user_message(value: &str) -> (r: Option<String>)
    ensures
        opt_view(r) == visible_user_message(value@),
{
    let message = stripped_chars(chars_of(value).as_slice());
    let trimmed = trim_chars(message.as_slice());
    let t = trimmed.as_slice();
    if t.len() == 0 || rollout_message_is_internal_transcript(string_of(t).as_str()) {
        return None;
    }
    match after_last_chars(t, chars_of("My request for Codex:").as_slice()) {
        Some(request) => {
            let request = trim_chars(request.as_slice());
            if request.len() > 0 {
                return Some(string_of(request.as_slice()));
            }
        },
        None => {},
    }
    if starts_with_lit(t, "Files mentioned by the user:") || starts_with_lit(
        t,
        "# Files mentioned by the user:",
    ) {
        return None;
    }
    Some(string_of(t))
}

/// `split_whitespace().join(" ")`.
pub open spec fn normalized_message(s: Seq<char>) -> Seq<char> {
    join(words(s), " "@)
}

/// Collapses every run of whitespace to one space and trims the ends.
pub fn normalize_visible_message(value: &str) -> (r: String)
    ensures
        r@ == normalized_message(value@),
{
    let ws = words_chars(chars_of(value).as_slice());
    string_of(join_chars(&ws, chars_of(" ").as_slice()).as_slice())
}

// ---------------------------------------------------------------------------
// Rollout events
// ---------------------------------------------------------------------------

/// A non-blank string member, trimmed.
pub open spec fn json_string_of(v: JsonValue, key: Seq<char>) -> Option<Seq<char>> {
    match opt_str(get(v, key)) {
        Some(s) => if trim(s).len() > 0 {
            Some(trim(s))
        } else {
            None
        },
        None => None,
    }
}

pub open spec fn nonempty_array(v: Option<JsonValue>) -> bool {
    match opt_array(v) {
        Some(a) => a.len() > 0,
        None => false,
    }
}

/// The visible text of a user turn, else `[Image]` or `[Audio]` for a turn that
/// carries only images or audio.
pub open spec fn text_or_placeholder(
    message: Option<Seq<char>>,
    images: Option<JsonValue>,
    audio: Option<JsonValue>,
) -> Option<Seq<char>> {
    let visible = match message {
        Some(m) => visible_user_message(m),
        None => None,
    };
    if visible is Some {
        visible
    } else if nonempty_array(images) {
        Some("[Image]"@)
    } else if nonempty_array(audio) {
        Some("[Audio]"@)
    } else {
        None
    }
}

/// The texts of the `text` and `input_text` parts of a message's content.
pub open spec fn content_texts(parts: Seq<JsonValue>) -> Seq<Seq<char>>
    decreases parts.len(),
{
    if parts.len() == 0 {
        Seq::empty()
    } else {
        let rest = content_texts(parts.drop_last());
        let p = parts.last();
        let ty = opt_str(get(p, "type"@));
        if (ty == Some("text"@) || ty == Some("input_text"@)) && opt_str(get(p, "text"@)) is Some {
            rest.push(opt_str(get(p, "text"@))->0)
        } else {
            rest
        }
    }
}

/// An event payload that records a user turn.
pub open spec fn is_user_event(payload: JsonValue) -> bool {
    let ty = opt_str(get(payload, "type"@));
    ||| ty == Some("user_message"@)
    ||| (ty == Some("item_completed"@) && opt_str(get_path(payload, seq!["item"@, "type"@]))
        == Some("user_message"@))
}

/// What a user-turn payload shows in the history.
pub open spec fn user_event_preview(payload: JsonValue) -> Option<Seq<char>> {
    let ty = opt_str(get(payload, "type"@));
    if ty == Some("user_message"@) {
        let message = match json_string_of(payload, "message"@) {
            Some(m) => Some(m),
            None => json_string_of(payload, "text"@),
        };
        text_or_placeholder(message, get(payload, "images"@), get(payload, "audio"@))
    } else if ty == Some("item_completed"@) && opt_str(get_path(payload, seq!["item"@, "type"@]))
        == Some("user_message"@) {
        let item = get(payload, "item"@)->0;
        let texts = match opt_array(get(item, "content"@)) {
            Some(parts) => content_texts(parts),
            None => Seq::empty(),
        };
        let message = join(texts, "\n"@);
        text_or_placeholder(
            if trim(message).len() > 0 {
                Some(message)
            } else {
                None
            },
            get(item, "images"@),
            get(item, "audio"@),
        )
    } else {
        None
    }
}

/// A string member, trimmed, when it is not blank.
pub fn json_string(value: &Json, key: &str) -> (r: Option<String>)
    ensures
        opt_view(r) == json_string_of(value@, key@),
{
    match json_get_str(value, key) {
        Some(s) => {
            let t = trim_chars(chars_of(s.as_str()).as_slice());
            if t.len() > 0 {
                Some(string_of(t.as_slice()))
            } else {
                None
            }
        },
        None => None,
    }
}

fn is_nonempty_array(v: Option<&Json>) -> (r: bool)
    ensures
        r == nonempty_array(opt_ref_view(v)),
{
    match v {
        Some(x) => match json_as_array(x) {
            Some(a) => {
                proof {
                    lemma_jviews_index(a@);
                }
                a.len() > 0
            },
            None => false,
        },
        None => false,
    }
}

/// The visible text of a user turn, else a placeholder for an image or audio turn.
pub fn visible_user_text_or_modality_placeholder(
    message: Option<&str>,
    images: Option<&Json>,
    audio: Option<&Json>,
) -> (r: Option<String>)
    ensures
        opt_view(r) == text_or_placeholder(
            match message {
                Some(m) => Some(m@),
                None => None,
            },
            opt_ref_view(images),
            opt_ref_view(audio),
        ),
{
    let visible = match message {
        Some(m) => visible_rollout_user_message(m),
        None => None,
    };
    if visible.is_some() {
        return visible;
    }
    if is_nonempty_array(images) {
        return Some(owned("[Image]"));
    }
    if is_nonempty_array(audio) {
        return Some(owned("[Audio]"));
    }
    None
}

fn content_text_parts(parts: &Vec<Json>) -> (r: Vec<Vec<char>>)
    ensures
        r@.map_values(|f: Vec<char>| f@) == content_texts(jviews(parts@)),
{
    let ghost ps = jviews(parts@);
    proof {
        lemma_jviews_index(parts@);
    }
    let mut out: Vec<Vec<char>> = Vec::new();
    let mut i: usize = 0;
    while i < parts.len()
        invariant
            i <= parts.len(),
            ps == jviews(parts@),
            ps.len() == parts@.len(),
            forall|k: int| 0 <= k < parts@.len() ==> #[trigger] ps[k] == jview(parts@[k]),
            out@.map_values(|f: Vec<char>| f@) == content_texts(ps.take(i as int)),
        decreases parts.len() - i,
    {
        let part = &parts[i];
        assert(ps.take(i + 1).drop_last() =~= ps.take(i as int));
        assert(ps.take(i + 1).last() == jview(*part));
        let ty = json_get_str(part, "type");
        let is_text = match ty {
            Some(t) => str_eq(t.as_str(), "text") || str_eq(t.as_str(), "input_text"),
            None => false,
        };
        if is_text {
            match json_get_str(part, "text") {
                Some(text) => {
                    out.push(chars_of(text.as_str()));
                    assert(out@.map_values(|f: Vec<char>| f@) =~= content_texts(ps.take(i as int)).push(text@));
                },
                None => {},
            }
        }
        i = i + 1;
    }
    assert(ps.take(parts.len() as int) =~= ps);
    out
}

/// What a user-turn payload shows in the history: the message (or the joined text
/// parts of a completed user item), else a modality placeholder; `None` for any other
/// payload.
pub fn rollout_user_event_preview(payload: &Json) -> (r: Option<String>)
    ensures
        opt_view(r) == user_event_preview(payload@),
{
    let ty = json_get_str(payload, "type");
    let is_user_message = match ty {
        Some(t) => str_eq(t.as_str(), "user_message"),
        None => false,
    };
    if is_user_message {
        let message = match json_string(payload, "message") {
            Some(m) => Some(m),
            None => json_string(payload, "text"),
        };
        let message_ref: Option<&str> = match &message {
            Some(m) => Some(m.as_str()),
            None => None,
        };
        return visible_user_text_or_modality_placeholder(
            message_ref,
            json_get(payload, "images"),
            json_get(payload, "audio"),
        );
    }
    let is_item_completed = match ty {
        Some(t) => str_eq(t.as_str(), "item_completed"),
        None => false,
    };
    if !is_item_completed {
        return None;
    }
    let item = match json_get(payload, "item") {
        Some(item) => item,
        None => return None,
    };
    let item_is_user = match json_get_str(item, "type") {
        Some(t) => str_eq(t.as_str(), "user_message"),
        None => false,
    };
    proof {
        reveal_with_fuel(get_path, 3);
    }
    if !item_is_user {
        return None;
    }
    let texts: Vec<Vec<char>> = match json_get(item, "content") {
        Some(content) => match json_as_array(content) {
            Some(parts) => content_text_parts(parts),
            None => Vec::new(),
        },
        None => Vec::new(),
    };
    proof {
        if texts@.len() == 0 {
            assert(texts@.map_values(|f: Vec<char>| f@) =~= Seq::<Seq<char>>::empty());
        }
    }
    let message = join_chars(&texts, chars_of("\n").as_slice());
    let nonblank = trim_chars(message.as_slice()).len() > 0;
    let message_string = string_of(message.as_slice());
    let message_ref: Option<&str> = if nonblank {
        Some(message_string.as_str())
    } else {
        None
    };
    visible_user_text_or_modality_placeholder(
        message_ref,
        json_get(item, "images"),
        json_get(item, "audio"),
    )
}

/// The source a session records, normalised: a string in lower case, `subagent` for
/// a sub-agent object, or the single key of any other one-entry object.
pub open spec fn source_kind(source: Option<JsonValue>) -> Option<Seq<char>> {
    match source {
        Some(JsonValue::Text(s)) => Some(lower(trim(s))),
        Some(JsonValue::Object(es)) => if has_key(es, "sub_agent"@) || has_key(es, "subagent"@) {
            Some("subagent"@)
        } else if es.len() == 1 {
            Some(lower(trim(es[0].0)))
        } else {
            None
        },
        _ => None,
    }
}

pub fn rollout_session_source_kind(source: Option<&Json>) -> (r: Option<String>)
    ensures
        opt_view(r) == source_kind(opt_ref_view(source)),
{
    match source {
        Some(Json::Text(s)) => Some(to_lower(trim_str(s.as_str()).as_str())),
        Some(Json::Object(es)) => {
            proof {
                lemma_eviews_index(es@);
            }
            if entries_lookup(es, "sub_agent").is_some() || entries_lookup(es, "subagent").is_some() {
                Some(owned("subagent"))
            } else if es.len() == 1 {
                Some(to_lower(trim_str(es[0].0.as_str()).as_str()))
            } else {
                None
            }
        },
        _ => None,
    }
}

// ---------------------------------------------------------------------------
// Rollout files
// ---------------------------------------------------------------------------

/// The payload of a rollout line, `null` when it has none.
pub open spec fn payload_of(line: JsonValue) -> JsonValue {
    match get(line, "payload"@) {
        Some(p) => p,
        None => JsonValue::Null,
    }
}

pub open spec fn is_event_msg(line: JsonValue) -> bool {
    opt_str(get(line, "type"@)) == Some("event_msg"@)
}

/// A rollout line that records a user turn.
pub open spec fn is_user_event_line(line: JsonValue) -> bool {
    is_event_msg(line) && is_user_event(payload_of(line))
}

/// The rollout records user turns, and none of them shows anything in the history.
pub open spec fn only_internal_user_events(lines: Seq<JsonValue>) -> bool {
    &&& exists|i: int| 0 <= i < lines.len() && #[trigger] is_user_event_line(lines[i])
    &&& forall|i: int|
        0 <= i < lines.len() && #[trigger] is_user_event_line(lines[i]) ==> user_event_preview(
            payload_of(lines[i]),
        ) is None
}

/// The user side of a conversation: the normalised visible text of each user turn.
pub open spec fn conversation(lines: Seq<JsonValue>) -> Seq<Seq<char>>
    decreases lines.len(),
{
    if lines.len() == 0 {
        Seq::empty()
    } else {
        let rest = conversation(lines.drop_last());
        let l = lines.last();
        let preview = user_event_preview(payload_of(l));
        if is_event_msg(l) && preview is Some && normalized_message(preview->0).len() > 0 {
            rest.push(normalized_message(preview->0))
        } else {
            rest
        }
    }
}

fn line_payload(line: &Json) -> (r: Option<&Json>)
    ensures
        match r {
            Some(p) => payload_of(line@) == p@,
            None => payload_of(line@) == JsonValue::Null,
        },
{
    json_get(line, "payload")
}

fn line_is_event_msg(line: &Json) -> (r: bool)
    ensures
        r == is_event_msg(line@),
{
    match json_get_str(line, "type") {
        Some(t) => str_eq(t.as_str(), "event_msg"),
        None => false,
    }
}

fn payload_is_user_event(payload: &Json) -> (r: bool)
    ensures
        r == is_user_event(payload@),
{
    proof {
        reveal_with_fuel(get_path, 3);
    }
    match json_get_str(payload, "type") {
        Some(t) => {
            if str_eq(t.as_str(), "user_message") {
                true
            } else if str_eq(t.as_str(), "item_completed") {
                match json_get(payload, "item") {
                    Some(item) => match json_get_str(item, "type") {
                        Some(it) => str_eq(it.as_str(), "user_message"),
                        None => false,
                    },
                    None => false,
                }
            } else {
                false
            }
        },
        None => false,
    }
}

/// Whether every user turn of a rollout is internal (and there is at least one):
/// such a thread is a recovery or tooling transcript, not a conversation.
pub fn rollout_contains_only_internal_user_events(lines: &[Json]) -> (r: bool)
    ensures
        r == only_internal_user_events(jviews(lines@)),
{
    let ghost ls = jviews(lines@);
    proof {
        lemma_jviews_index(lines@);
    }
    let mut saw_internal = false;
    let mut i: usize = 0;
    while i < lines.len()
        invariant
            i <= lines.len(),
            ls == jviews(lines@),
            ls.len() == lines@.len(),
            forall|k: int| 0 <= k < lines@.len() ==> #[trigger] ls[k] == jview(lines@[k]),
            saw_internal == exists|k: int| 0 <= k < i && #[trigger] is_user_event_line(ls[k]),
            forall|k: int|
                0 <= k < i && #[trigger] is_user_event_line(ls[k]) ==> user_event_preview(
                    payload_of(ls[k]),
                ) is None,
        decreases lines.len() - i,
    {
        let line = &lines[i];
        assert(ls[i as int] == line@);
        if !line_is_event_msg(line) {
            i = i + 1;
            continue;
        }
        let is_user = match line_payload(line) {
            Some(p) => payload_is_user_event(p),
            None => false,
        };
        if !is_user {
            i = i + 1;
            continue;
        }
        let preview = match line_payload(line) {
            Some(p) => rollout_user_event_preview(p),
            None => None,
        };
        if preview.is_some() {
            assert(is_user_event_line(ls[i as int]));
            return false;
        }
        saw_internal = true;
        assert(is_user_event_line(ls[i as int]));
        i = i + 1;
    }
    saw_internal
}

/// One visible message of a conversation.
#[derive(Debug, Clone)]
pub struct VisibleConversationMessage {
    pub role: &'static str,
    pub content: String,
}

pub open spec fn message_views(m: Seq<VisibleConversationMessage>) -> Seq<Seq<char>> {
    m.map_values(|x: VisibleConversationMessage| x.content@)
}

/// The user side of a rollout's conversation: the normalised visible text of each
/// user turn, in order. Assistant turns, compaction summaries and tool events are left
/// out: they may differ between recovery snapshots of one conversation.
pub fn rollout_visible_conversation(lines: &[Json]) -> (r: Vec<VisibleConversationMessage>)
    ensures
        message_views(r@) == conversation(jviews(lines@)),
        forall|k: int| 0 <= k < r@.len() ==> (#[trigger] r@[k]).role@ == "user"@,
{
    let ghost ls = jviews(lines@);
    proof {
        lemma_jviews_index(lines@);
    }
    let mut messages: Vec<VisibleConversationMessage> = Vec::new();
    let mut i: usize = 0;
    while i < lines.len()
        invariant
            i <= lines.len(),
            ls == jviews(lines@),
            ls.len() == lines@.len(),
            forall|k: int| 0 <= k < lines@.len() ==> #[trigger] ls[k] == jview(lines@[k]),
            message_views(messages@) == conversation(ls.take(i as int)),
            forall|k: int| 0 <= k < messages@.len() ==> (#[trigger] messages@[k]).role@ == "user"@,
        decreases lines.len() - i,
    {
        let line = &lines[i];
        assert(ls.take(i + 1).drop_last() =~= ls.take(i as int));
        assert(ls.take(i + 1).last() == line@);
        if line_is_event_msg(line) {
            let preview = match line_payload(line) {
                Some(p) => rollout_user_event_preview(p),
                None => None,
            };
            match preview {
                Some(text) => {
                    let content = normalize_visible_message(text.as_str());
                    if content.as_str().unicode_len() > 0 {
                        let user: &'static str = "user";
                        proof {
                            reveal_strlit("user");
                        }
                        messages.push(VisibleConversationMessage { role: user, content });
                        assert(message_views(messages@) =~= conversation(ls.take(i as int)).push(
                            content@,
                        ));
                    }
                },
                None => {},
            }
        }
        i = i + 1;
    }
    assert(ls.take(lines.len() as int) =~= ls);
    messages
}

/// `shorter` is a non-empty prefix of `longer`.
pub open spec fn is_conversation_prefix(shorter: Seq<Seq<char>>, longer: Seq<Seq<char>>) -> bool {
    &&& shorter.len() > 0
    &&& shorter.len() <= longer.len()
    &&& longer.take(shorter.len() as int) == shorter
}

pub fn conversation_is_prefix(
    shorter: &[VisibleConversationMessage],
    longer: &[VisibleConversationMessage],
) -> (r: bool)
    ensures
        r == is_conversation_prefix(message_views(shorter@), message_views(longer@)),
{
    if shorter.len() == 0 || shorter.len() > longer.len() {
        return false;
    }
    let mut i: usize = 0;
    while i < shorter.len()
        invariant
            0 < shorter.len() <= longer.len(),
            i <= shorter.len(),
            forall|k: int| 0 <= k < i ==> shorter@[k].content@ == longer@[k].content@,
        decreases shorter.len() - i,
    {
        if !str_eq(shorter[i].content.as_str(), longer[i].content.as_str()) {
            assert(message_views(longer@).take(shorter.len() as int)[i as int] != message_views(
                shorter@,
            )[i as int]);
            return false;
        }
        i = i + 1;
    }
    assert(message_views(longer@).take(shorter.len() as int) =~= message_views(shorter@));
    true
}

// ---------------------------------------------------------------------------
// Thread rows
// ---------------------------------------------------------------------------

/// The fields of a row of Codex's `threads` table that decide its visibility.
#[derive(Debug, Clone)]
pub struct ThreadHistoryRow {
    pub id: String,
    pub rollout_path: Option<String>,
    pub model_provider: Option<String>,
    pub cwd: Option<String>,
    pub has_user_event: Option<i64>,
    pub archived: Option<i64>,
    pub source: Option<String>,
    pub thread_source: Option<String>,
    pub title: Option<String>,
    pub preview: Option<String>,
    pub first_user_message: Option<String>,
    pub updated_at_ms: Option<i64>,
    pub updated_at: Option<i64>,
}

impl ThreadHistoryRow {
    pub open spec fn same_as(self, other: ThreadHistoryRow) -> bool {
        &&& self.id@ == other.id@
        &&& opt_view(self.rollout_path) == opt_view(other.rollout_path)
        &&& opt_view(self.model_provider) == opt_view(other.model_provider)
        &&& opt_view(self.cwd) == opt_view(other.cwd)
        &&& self.has_user_event == other.has_user_event
        &&& self.archived == other.archived
        &&& opt_view(self.source) == opt_view(other.source)
        &&& opt_view(self.thread_source) == opt_view(other.thread_source)
        &&& opt_view(self.title) == opt_view(other.title)
        &&& opt_view(self.preview) == opt_view(other.preview)
        &&& opt_view(self.first_user_message) == opt_view(other.first_user_message)
        &&& self.updated_at_ms == other.updated_at_ms
        &&& self.updated_at == other.updated_at
    }

    /// A field-by-field copy.
    pub fn duplicate(&self) -> (r: ThreadHistoryRow)
        ensures
            r.same_as(*self),
    {
        ThreadHistoryRow {
            id: owned(self.id.as_str()),
            rollout_path: owned_opt(&self.rollout_path),
            model_provider: owned_opt(&self.model_provider),
            cwd: owned_opt(&self.cwd),
            has_user_event: self.has_user_event,
            archived: self.archived,
            source: owned_opt(&self.source),
            thread_source: owned_opt(&self.thread_source),
            title: owned_opt(&self.title),
            preview: owned_opt(&self.preview),
            first_user_message: owned_opt(&self.first_user_message),
            updated_at_ms: self.updated_at_ms,
            updated_at: self.updated_at,
        }
    }
}

pub open spec fn sview(o: Option<&str>) -> Option<Seq<char>> {
    match o {
        Some(s) => Some(s@),
        None => None,
    }
}

/// Sources that Codex Desktop lists by default.
pub open spec fn interactive_source(source: Option<Seq<char>>) -> bool {
    source == Some("cli"@) || source == Some("vscode"@)
}

pub fn is_interactive_history_source(source: Option<&str>) -> (r: bool)
    ensures
        r == interactive_source(sview(source)),
{
    match source {
        Some(s) => str_eq(s, "cli") || str_eq(s, "vscode"),
        None => false,
    }
}

/// A source filter: `all` or `*` keeps everything, `interactive` (and no filter) keeps
/// the Desktop's usual sources, any other value keeps exactly that source.
pub open spec fn source_filter_matches(source: Option<Seq<char>>, filter: Option<Seq<char>>) -> bool {
    let f = match filter {
        Some(v) => if trim(v).len() > 0 {
            Some(trim(v))
        } else {
            None
        },
        None => None,
    };
    match f {
        Some(x) => if x == "all"@ || x == "*"@ {
            true
        } else if x == "interactive"@ {
            interactive_source(source)
        } else {
            source == Some(x)
        },
        None => interactive_source(source),
    }
}

pub fn source_matches_history_filter(source: Option<&str>, filter: Option<&str>) -> (r: bool)
    ensures
        r == source_filter_matches(sview(source), sview(filter)),
{
    let f = match filter {
        Some(v) => {
            let t = trim_str(v);
            if t.as_str().unicode_len() > 0 {
                Some(t)
            } else {
                None
            }
        },
        None => None,
    };
    match f {
        Some(x) => {
            if str_eq(x.as_str(), "all") || str_eq(x.as_str(), "*") {
                true
            } else if str_eq(x.as_str(), "interactive") {
                is_interactive_history_source(source)
            } else {
                match source {
                    Some(s) => str_eq(s, x.as_str()),
                    None => false,
                }
            }
        },
        None => is_interactive_history_source(source),
    }
}

/// A user's own thread rather than a sub-agent's: no thread source, an empty one, or
/// `user`.
pub fn is_user_thread_source(thread_source: Option<&str>) -> (r: bool)
    ensures
        r == (sview(thread_source) is None || sview(thread_source) == Some(Seq::<char>::empty())
            || sview(thread_source) == Some("user"@)),
{
    match thread_source {
        None => true,
        Some(s) => {
            let empty = s.unicode_len() == 0;
            proof {
                if empty {
                    assert(s@ =~= Seq::<char>::empty());
                }
            }
            empty || str_eq(s, "user")
        },
    }
}

/// A present, non-blank text.
pub open spec fn has_text(o: Option<String>) -> bool {
    o is Some && trim(o->0@).len() > 0
}

fn opt_has_text(o: &Option<String>) -> (r: bool)
    ensures
        r == has_text(*o),
{
    match o {
        Some(s) => trim_chars(chars_of(s.as_str()).as_slice()).len() > 0,
        None => false,
    }
}

/// The row has some text to show in the sidebar.
pub fn row_has_visible_text(row: &ThreadHistoryRow) -> (r: bool)
    ensures
        r == (has_text(row.preview) || has_text(row.first_user_message) || has_text(row.title)),
{
    opt_has_text(&row.preview) || opt_has_text(&row.first_user_message) || opt_has_text(
        &row.title,
    )
}

/// A text field that starts like an internal transcript or a bare attachment list.
pub open spec fn looks_internal(o: Option<String>) -> bool {
    o is Some && (internal_transcript(trim_start(o->0@)) || files_mention(trim_start(o->0@)))
}

fn opt_looks_internal(o: &Option<String>) -> (r: bool)
    ensures
        r == looks_internal(*o),
{
    match o {
        Some(s) => {
            let t = trim_start_chars(chars_of(s.as_str()).as_slice());
            rollout_message_is_internal_transcript(string_of(t.as_slice()).as_str())
                || starts_with_lit(t.as_slice(), "Files mentioned by the user:") || starts_with_lit(
                t.as_slice(),
                "# Files mentioned by the user:",
            )
        },
        None => false,
    }
}

/// The row's preview, first message or title starts like an internal transcript.
pub fn thread_row_looks_internal(row: &ThreadHistoryRow) -> (r: bool)
    ensures
        r == (looks_internal(row.preview) || looks_internal(row.first_user_message)
            || looks_internal(row.title)),
{
    opt_looks_internal(&row.preview) || opt_looks_internal(&row.first_user_message)
        || opt_looks_internal(&row.title)
}

/// `x` clamped to the range of `i64`.
pub open spec fn saturate(x: int) -> i64 {
    if x > i64::MAX {
        i64::MAX
    } else if x < i64::MIN {
        i64::MIN
    } else {
        x as i64
    }
}

/// Seconds to milliseconds, saturating (`i64::saturating_mul(1000)`).
pub fn seconds_to_millis(seconds: i64) -> (r: i64)
    ensures
        r == saturate(seconds * 1000),
{
    if seconds > 9223372036854775 {
        i64::MAX
    } else if seconds < -9223372036854775 {
        i64::MIN
    } else {
        seconds * 1000
    }
}

/// The row's update time in milliseconds, from the seconds field when the millisecond
/// one is missing, else 0.
pub open spec fn updated_ms(row: ThreadHistoryRow) -> i64 {
    match row.updated_at_ms {
        Some(ms) => ms,
        None => match row.updated_at {
            Some(sec) => saturate(sec * 1000),
            None => 0,
        },
    }
}

pub fn row_updated_ms(row: &ThreadHistoryRow) -> (r: i64)
    ensures
        r == updated_ms(*row),
{
    match row.updated_at_ms {
        Some(ms) => ms,
        None => match row.updated_at {
            Some(sec) => seconds_to_millis(sec),
            None => 0,
        },
    }
}

/// The row's title: the first non-blank of title, preview and first message, trimmed,
/// else `Untitled`.
pub open spec fn title_of(row: ThreadHistoryRow) -> Seq<char> {
    if has_text(row.title) {
        trim(row.title->0@)
    } else if has_text(row.preview) {
        trim(row.preview->0@)
    } else if has_text(row.first_user_message) {
        trim(row.first_user_message->0@)
    } else {
        "Untitled"@
    }
}

pub fn row_title(row: &ThreadHistoryRow) -> (r: String)
    ensures
        r@ == title_of(*row),
{
    if opt_has_text(&row.title) {
        trim_str(row.title.as_ref().unwrap().as_str())
    } else if opt_has_text(&row.preview) {
        trim_str(row.preview.as_ref().unwrap().as_str())
    } else if opt_has_text(&row.first_user_message) {
        trim_str(row.first_user_message.as_ref().unwrap().as_str())
    } else {
        owned("Untitled")
    }
}

/// A title worth keeping over the rollout's: non-blank and different from the first
/// user message (both trimmed).
pub open spec fn distinct_title(title: Option<Seq<char>>, first_user_message: Option<Seq<char>>) -> Option<
    Seq<char>,
> {
    match title {
        Some(t) => if trim(t).len() > 0 && trim(t) != match first_user_message {
            Some(m) => trim(m),
            None => Seq::<char>::empty(),
        } {
            Some(trim(t))
        } else {
            None
        },
        None => None,
    }
}

pub fn distinct_persisted_title(title: Option<&str>, first_user_message: Option<&str>) -> (r:
    Option<String>)
    ensures
        opt_view(r) == distinct_title(sview(title), sview(first_user_message)),
{
    let t = match title {
        Some(t) => trim_str(t),
        None => return None,
    };
    if t.as_str().unicode_len() == 0 {
        return None;
    }
    let m = match first_user_message {
        Some(m) => trim_str(m),
        None => String::new(),
    };
    if str_eq(t.as_str(), m.as_str()) {
        None
    } else {
        Some(t)
    }
}

/// Whether rollout text records a user turn.
pub fn rollout_contains_user_event(content: &str) -> (r: bool)
    ensures
        r == (contains(content@, "\"type\":\"user_message\""@) || contains(
            content@,
            "\"role\":\"user\""@,
        ) || contains(content@, "\"user_input\""@)),
{
    let v = chars_of(content);
    contains_chars(v.as_slice(), chars_of("\"type\":\"user_message\"").as_slice())
        || contains_chars(v.as_slice(), chars_of("\"role\":\"user\"").as_slice())
        || contains_chars(v.as_slice(), chars_of("\"user_input\"").as_slice())
}

// ---------------------------------------------------------------------------
// History paths
// ---------------------------------------------------------------------------

/// A path without Windows' long-path prefix: `\\?\UNC\server\share` becomes
/// `\\server\share` and `\\?\C:\dir` becomes `C:\dir`.
pub open spec fn without_long_path_prefix(v: Seq<char>) -> Seq<char> {
    if starts_with(v, r"\\?\UNC\"@) {
        r"\\"@ + v.skip(8)
    } else if starts_with(v, r"\\?\"@) {
        v.skip(4)
    } else {
        v
    }
}

pub fn strip_long_path_prefix(value: &str) -> (r: String)
    ensures
        r@ == without_long_path_prefix(value@),
{
    let v = chars_of(value);
    let unc = chars_of(r"\\?\UNC\");
    let long = chars_of(r"\\?\");
    proof {
        reveal_strlit(r"\\?\UNC\");
        reveal_strlit(r"\\?\");
    }
    if starts_with_chars(v.as_slice(), unc.as_slice()) {
        let mut out = chars_of(r"\\");
        let mut i: usize = 8;
        let ghost head = out@;
        while i < v.len()
            invariant
                8 <= i <= v.len(),
                out@ == head + v@.subrange(8, i as int),
            decreases v.len() - i,
        {
            out.push(v[i]);
            i = i + 1;
            assert(out@ =~= head + v@.subrange(8, i as int));
        }
        assert(v@.subrange(8, v.len() as int) =~= v@.skip(8));
        string_of(out.as_slice())
    } else if starts_with_chars(v.as_slice(), long.as_slice()) {
        string_of(crate::text::slice_chars(v.as_slice(), 4, v.len()).as_slice())
    } else {
        owned(value)
    }
}

/// The number of bytes of a character in UTF-8.
pub open spec fn utf8_width(c: char) -> nat {
    if (c as u32) < 0x80 {
        1
    } else if (c as u32) < 0x800 {
        2
    } else if (c as u32) < 0x10000 {
        3
    } else {
        4
    }
}

/// The number of bytes of a text in UTF-8 (`str::len`).
pub open spec fn utf8_len(s: Seq<char>) -> nat
    decreases s.len(),
{
    if s.len() == 0 {
        0
    } else {
        utf8_len(s.drop_last()) + utf8_width(s.last())
    }
}

/// `\` for every `/`.
pub open spec fn backslashed(s: Seq<char>) -> Seq<char> {
    s.map_values(|c: char| if c == '/' { '\\' } else { c })
}

/// Trailing backslashes removed while the text is longer than three bytes
/// (so `C:\` keeps its root).
pub open spec fn without_trailing_backslashes(s: Seq<char>) -> Seq<char>
    decreases s.len(),
{
    if utf8_len(s) > 3 && s.len() > 0 && s.last() == '\\' {
        without_trailing_backslashes(s.drop_last())
    } else {
        s
    }
}

/// A drive letter in upper case.
pub open spec fn drive_upper(s: Seq<char>) -> Seq<char> {
    if s.len() >= 2 && (s[0] as u32) < 0x80 && s[1] == ':' {
        s.update(0, upper_char(s[0]))
    } else {
        s
    }
}

/// A history cwd normalised for comparison: long-path prefix removed, trimmed,
/// backslashes only, no trailing backslash beyond a root, drive letter in upper case;
/// `None` when blank.
pub open spec fn normalized_history_path(value: Seq<char>) -> Option<Seq<char>> {
    let t = without_trailing_backslashes(backslashed(trim(without_long_path_prefix(value))));
    if t.len() == 0 {
        None
    } else {
        Some(drive_upper(t))
    }
}

fn longer_than_three_bytes(v: &[char], end: usize) -> (r: bool)
    requires
        end <= v.len(),
    ensures
        r == (utf8_len(v@.take(end as int)) > 3),
{
    let mut total: u64 = 0;
    let mut i: usize = 0;
    while i < end
        invariant
            i <= end <= v.len(),
            total == utf8_len(v@.take(i as int)),
            total <= 3,
        decreases end - i,
    {
        let c = v[i];
        let w: u64 = if (c as u32) < 0x80 {
            1
        } else if (c as u32) < 0x800 {
            2
        } else if (c as u32) < 0x10000 {
            3
        } else {
            4
        };
        assert(v@.take(i + 1).drop_last() =~= v@.take(i as int));
        total = total + w;
        i = i + 1;
        if total > 3 {
            proof {
                lemma_utf8_len_monotone(v@.take(end as int), i as int);
                assert(v@.take(end as int).take(i as int) =~= v@.take(i as int));
            }
            return true;
        }
    }
    false
}

proof fn lemma_utf8_len_monotone(s: Seq<char>, i: int)
    requires
        0 <= i <= s.len(),
    ensures
        utf8_len(s.take(i)) <= utf8_len(s),
    decreases s.len() - i,
{
    if i < s.len() {
        lemma_utf8_len_monotone(s, i + 1);
        assert(s.take(i + 1).drop_last() =~= s.take(i));
    } else {
        assert(s.take(i) =~= s);
    }
}

pub fn normalize_history_path(value: &str) -> (r: Option<String>)
    ensures
        opt_view(r) == normalized_history_path(value@),
{
    let stripped = strip_long_path_prefix(value);
    let trimmed = trim_chars(chars_of(stripped.as_str()).as_slice());
    let mut text: Vec<char> = Vec::new();
    let mut i: usize = 0;
    while i < trimmed.len()
        invariant
            i <= trimmed.len(),
            text@ == backslashed(trimmed@.take(i as int)),
        decreases trimmed.len() - i,
    {
        let c = trimmed[i];
        text.push(if c == '/' { '\\' } else { c });
        i = i + 1;
        assert(text@ =~= backslashed(trimmed@.take(i as int)));
    }
    assert(trimmed@.take(trimmed.len() as int) =~= trimmed@);
    let ghost full = text@;
    let mut end: usize = text.len();
    assert(text@.take(end as int) =~= full);
    while end > 0 && text[end - 1] == '\\' && longer_than_three_bytes(text.as_slice(), end)
        invariant
            end <= text.len(),
            text@ == full,
            without_trailing_backslashes(full) == without_trailing_backslashes(
                text@.take(end as int),
            ),
        decreases end,
    {
        assert(text@.take(end as int).drop_last() =~= text@.take(end - 1));
        end = end - 1;
    }
    let t = crate::text::slice_chars(text.as_slice(), 0, end);
    assert(t@ =~= text@.take(end as int));
    assert(without_trailing_backslashes(t@) == t@);
    if t.len() == 0 {
        return None;
    }
    let mut out = t;
    if out.len() >= 2 && (out[0] as u32) < 0x80 && out[1] == ':' {
        let first = char_upper(out[0]);
        out.set(0, first);
    }
    Some(string_of(out.as_slice()))
}

// ---------------------------------------------------------------------------
// Thread metadata recovered from a rollout
// ---------------------------------------------------------------------------

/// The milliseconds since the epoch of an RFC 3339 timestamp, `None` when the text is
/// not one (chrono's `DateTime::parse_from_rfc3339` then `timestamp_millis`).
pub uninterp spec fn rfc3339_millis(text: Seq<char>) -> Option<i64>;

/// Calls `chrono::DateTime::parse_from_rfc3339` and takes the result's
/// `timestamp_millis`; the contract names that result and says no more of it.
#[verifier::external_body]
fn parse_rfc3339_millis(value: &str) -> (r: Option<i64>)
    ensures
        r == rfc3339_millis(value@),
{
    chrono::DateTime::parse_from_rfc3339(value).ok().map(|time| time.timestamp_millis())
}

/// The thread metadata a rollout file carries, as the thread store keeps it: the
/// preview and first message come only from real user turns, and a goal update can
/// only supply a preview.
#[derive(Debug, Clone)]
pub struct RolloutThreadMetadata {
    pub id: String,
    pub rollout_path: String,
    pub model_provider: Option<String>,
    pub cwd: Option<String>,
    pub source: Option<String>,
    pub thread_source: Option<String>,
    pub title: Option<String>,
    pub preview: Option<String>,
    pub first_user_message: Option<String>,
    pub has_user_event: bool,
    pub archived: bool,
    pub created_at_ms: i64,
    pub updated_at_ms: i64,
}

/// What has been learned from the lines read so far.
pub struct MetaFold {
    pub id: Seq<char>,
    pub model_provider: Option<Seq<char>>,
    pub cwd: Option<Seq<char>>,
    pub source: Option<Seq<char>>,
    pub thread_source: Option<Seq<char>>,
    pub title: Option<Seq<char>>,
    pub preview: Option<Seq<char>>,
    pub first_user_message: Option<Seq<char>>,
    pub has_user_event: bool,
    pub created_at_ms: i64,
    pub updated_at_ms: i64,
    pub saw_timestamp: bool,
}

pub open spec fn initial_fold(fallback_ms: i64) -> MetaFold {
    MetaFold {
        id: Seq::empty(),
        model_provider: None,
        cwd: None,
        source: None,
        thread_source: None,
        title: None,
        preview: None,
        first_user_message: None,
        has_user_event: false,
        created_at_ms: fallback_ms,
        updated_at_ms: fallback_ms,
        saw_timestamp: false,
    }
}

pub open spec fn or_else(a: Option<Seq<char>>, b: Option<Seq<char>>) -> Option<Seq<char>> {
    if a is Some {
        a
    } else {
        b
    }
}

/// The first timestamp sets creation and update time; later ones can only move the
/// update time forward.
pub open spec fn with_timestamp(st: MetaFold, line: JsonValue) -> MetaFold {
    let ts = match opt_str(get(line, "timestamp"@)) {
        Some(t) => rfc3339_millis(t),
        None => None,
    };
    match ts {
        Some(t) => if !st.saw_timestamp {
            MetaFold { created_at_ms: t, updated_at_ms: t, saw_timestamp: true, ..st }
        } else {
            MetaFold { updated_at_ms: if t > st.updated_at_ms { t } else { st.updated_at_ms }, ..st }
        },
        None => st,
    }
}

/// A goal's objective, trimmed, when not blank.
pub open spec fn goal_objective(payload: JsonValue) -> Option<Seq<char>> {
    match opt_str(get_path(payload, seq!["goal"@, "objective"@])) {
        Some(o) => if trim(o).len() > 0 {
            Some(trim(o))
        } else {
            None
        },
        None => None,
    }
}

/// One rollout line read into the metadata.
pub open spec fn meta_step(st: MetaFold, line: JsonValue) -> MetaFold {
    let st1 = with_timestamp(st, line);
    let payload = payload_of(line);
    if opt_str(get(line, "type"@)) == Some("session_meta"@) {
        MetaFold {
            id: match json_string_of(payload, "id"@) {
                Some(id) => id,
                None => Seq::empty(),
            },
            model_provider: json_string_of(payload, "model_provider"@),
            cwd: json_string_of(payload, "cwd"@),
            source: source_kind(get(payload, "source"@)),
            thread_source: json_string_of(payload, "thread_source"@),
            ..st1
        }
    } else {
        let event_type = match opt_str(get(payload, "type"@)) {
            Some(t) => Some(t),
            None => opt_str(get(line, "type"@)),
        };
        let message = user_event_preview(payload);
        if is_event_msg(line) && message is Some {
            MetaFold {
                has_user_event: true,
                first_user_message: or_else(st1.first_user_message, message),
                preview: or_else(st1.preview, message),
                title: or_else(st1.title, message),
                ..st1
            }
        } else if event_type == Some("thread_goal_updated"@) && st1.preview is None {
            MetaFold { preview: goal_objective(payload), ..st1 }
        } else {
            st1
        }
    }
}

pub open spec fn meta_fold(lines: Seq<JsonValue>, fallback_ms: i64) -> MetaFold
    decreases lines.len(),
{
    if lines.len() == 0 {
        initial_fold(fallback_ms)
    } else {
        meta_step(meta_fold(lines.drop_last(), fallback_ms), lines.last())
    }
}

/// The metadata of a rollout, or `None` when it names no thread or has nothing to
/// preview. A blank title falls back to the preview.
pub open spec fn rollout_metadata_of(lines: Seq<JsonValue>, fallback_ms: i64) -> Option<MetaFold> {
    let st = meta_fold(lines, fallback_ms);
    if st.id.len() == 0 || !(st.preview is Some && trim(st.preview->0).len() > 0) {
        None
    } else if !(st.title is Some && trim(st.title->0).len() > 0) {
        Some(MetaFold { title: st.preview, ..st })
    } else {
        Some(st)
    }
}

/// The metadata record matches a fold result.
pub open spec fn metadata_is(m: RolloutThreadMetadata, st: MetaFold) -> bool {
    &&& m.id@ == st.id
    &&& opt_view(m.model_provider) == st.model_provider
    &&& opt_view(m.cwd) == st.cwd
    &&& opt_view(m.source) == st.source
    &&& opt_view(m.thread_source) == st.thread_source
    &&& opt_view(m.title) == st.title
    &&& opt_view(m.preview) == st.preview
    &&& opt_view(m.first_user_message) == st.first_user_message
    &&& m.has_user_event == st.has_user_event
    &&& m.created_at_ms == st.created_at_ms
    &&& m.updated_at_ms == st.updated_at_ms
}

struct MetaState {
    id: String,
    model_provider: Option<String>,
    cwd: Option<String>,
    source: Option<String>,
    thread_source: Option<String>,
    title: Option<String>,
    preview: Option<String>,
    first_user_message: Option<String>,
    has_user_event: bool,
    created_at_ms: i64,
    updated_at_ms: i64,
    saw_timestamp: bool,
}

impl MetaState {
    spec fn fold_view(&self) -> MetaFold {
        MetaFold {
            id: self.id@,
            model_provider: opt_view(self.model_provider),
            cwd: opt_view(self.cwd),
            source: opt_view(self.source),
            thread_source: opt_view(self.thread_source),
            title: opt_view(self.title),
            preview: opt_view(self.preview),
            first_user_message: opt_view(self.first_user_message),
            has_user_event: self.has_user_event,
            created_at_ms: self.created_at_ms,
            updated_at_ms: self.updated_at_ms,
            saw_timestamp: self.saw_timestamp,
        }
    }

    fn read_line(&mut self, line: &Json)
        ensures
            final(self).fold_view() == meta_step(old(self).fold_view(), line@),
    {
        let ts = match json_get_str(line, "timestamp") {
            Some(t) => parse_rfc3339_millis(t.as_str()),
            None => None,
        };
        match ts {
            Some(t) => {
                if !self.saw_timestamp {
                    self.created_at_ms = t;
                    self.updated_at_ms = t;
                    self.saw_timestamp = true;
                } else if t > self.updated_at_ms {
                    self.updated_at_ms = t;
                }
            },
            None => {},
        }
        let ghost st1 = self.fold_view();
        assert(st1 == with_timestamp(old(self).fold_view(), line@));
        let null = Json::Null;
        let payload: &Json = match json_get(line, "payload") {
            Some(p) => p,
            None => &null,
        };
        assert(payload@ == payload_of(line@));
        let line_type = json_get_str(line, "type");
        let is_session_meta = match line_type {
            Some(t) => str_eq(t.as_str(), "session_meta"),
            None => false,
        };
        if is_session_meta {
            self.id = match json_string(payload, "id") {
                Some(id) => id,
                None => String::new(),
            };
            self.model_provider = json_string(payload, "model_provider");
            self.cwd = json_string(payload, "cwd");
            self.source = rollout_session_source_kind(json_get(payload, "source"));
            self.thread_source = json_string(payload, "thread_source");
            return;
        }
        let payload_type = json_get_str(payload, "type");
        let is_goal = match payload_type {
            Some(t) => str_eq(t.as_str(), "thread_goal_updated"),
            None => match line_type {
                Some(t) => str_eq(t.as_str(), "thread_goal_updated"),
                None => false,
            },
        };
        if line_is_event_msg(line) {
            match rollout_user_event_preview(payload) {
                Some(message) => {
                    self.has_user_event = true;
                    if self.first_user_message.is_none() {
                        self.first_user_message = Some(owned(message.as_str()));
                    }
                    if self.preview.is_none() {
                        self.preview = Some(owned(message.as_str()));
                    }
                    if self.title.is_none() {
                        self.title = Some(message);
                    }
                    return;
                },
                None => {},
            }
        }
        if is_goal && self.preview.is_none() {
            proof {
                reveal_with_fuel(get_path, 3);
            }
            let objective = match json_get(payload, "goal") {
                Some(goal) => match json_get_str(goal, "objective") {
                    Some(o) => {
                        let t = trim_str(o.as_str());
                        if t.as_str().unicode_len() > 0 {
                            Some(t)
                        } else {
                            None
                        }
                    },
                    None => None,
                },
                None => None,
            };
            self.preview = objective;
        }
    }
}

/// Reads a rollout's parsed lines into thread metadata (see `rollout_metadata_of`);
/// `fallback_ms` stands for the creation and update time until a line carries a
/// timestamp.
pub fn parse_rollout_thread_metadata(
    lines: &[Json],
    rollout_path: &str,
    archived: bool,
    fallback_ms: i64,
) -> (r: Option<RolloutThreadMetadata>)
    ensures
        r is Some <==> rollout_metadata_of(jviews(lines@), fallback_ms) is Some,
        r is Some ==> {
            &&& metadata_is(r->0, rollout_metadata_of(jviews(lines@), fallback_ms)->0)
            &&& r->0.rollout_path@ == rollout_path@
            &&& r->0.archived == archived
        },
{
    let ghost ls = jviews(lines@);
    proof {
        lemma_jviews_index(lines@);
    }
    let mut st = MetaState {
        id: String::new(),
        model_provider: None,
        cwd: None,
        source: None,
        thread_source: None,
        title: None,
        preview: None,
        first_user_message: None,
        has_user_event: false,
        created_at_ms: fallback_ms,
        updated_at_ms: fallback_ms,
        saw_timestamp: false,
    };
    assert(st.fold_view() == initial_fold(fallback_ms));
    let mut i: usize = 0;
    while i < lines.len()
        invariant
            i <= lines.len(),
            ls == jviews(lines@),
            ls.len() == lines@.len(),
            forall|k: int| 0 <= k < lines@.len() ==> #[trigger] ls[k] == jview(lines@[k]),
            st.fold_view() == meta_fold(ls.take(i as int), fallback_ms),
        decreases lines.len() - i,
    {
        assert(ls.take(i + 1).drop_last() =~= ls.take(i as int));
        assert(ls.take(i + 1).last() == lines@[i as int]@);
        st.read_line(&lines[i]);
        i = i + 1;
    }
    assert(ls.take(lines.len() as int) =~= ls);
    let preview_blank = match &st.preview {
        Some(p) => trim_chars(chars_of(p.as_str()).as_slice()).len() == 0,
        None => true,
    };
    if st.id.as_str().unicode_len() == 0 || preview_blank {
        return None;
    }
    let title_blank = match &st.title {
        Some(t) => trim_chars(chars_of(t.as_str()).as_slice()).len() == 0,
        None => true,
    };
    let title = if title_blank {
        owned_opt(&st.preview)
    } else {
        st.title
    };
    Some(
        RolloutThreadMetadata {
            id: st.id,
            rollout_path: owned(rollout_path),
            model_provider: st.model_provider,
            cwd: st.cwd,
            source: st.source,
            thread_source: st.thread_source,
            title,
            preview: st.preview,
            first_user_message: st.first_user_message,
            has_user_event: st.has_user_event,
            archived,
            created_at_ms: st.created_at_ms,
            updated_at_ms: st.updated_at_ms,
        },
    )
}

// ---------------------------------------------------------------------------
// Rebuilding thread rows from rollouts
// ---------------------------------------------------------------------------

/// Integer division by 1000 rounding toward zero, as Rust's `/` on `i64`.
pub open spec fn millis_to_seconds(ms: i64) -> i64 {
    if ms >= 0 {
        (ms / 1000) as i64
    } else {
        -((-ms) / 1000) as i64
    }
}

pub fn seconds_of_millis(ms: i64) -> (r: i64)
    ensures
        r == millis_to_seconds(ms),
{
    if ms >= 0 {
        ms / 1000
    } else if ms == i64::MIN {
        -9223372036854775
    } else {
        let pos: i64 = -ms;
        -(pos / 1000)
    }
}

pub open spec fn flag(b: bool) -> i64 {
    if b {
        1
    } else {
        0
    }
}

impl RolloutThreadMetadata {
    pub open spec fn same_as(self, other: RolloutThreadMetadata) -> bool {
        &&& self.id@ == other.id@
        &&& self.rollout_path@ == other.rollout_path@
        &&& opt_view(self.model_provider) == opt_view(other.model_provider)
        &&& opt_view(self.cwd) == opt_view(other.cwd)
        &&& opt_view(self.source) == opt_view(other.source)
        &&& opt_view(self.thread_source) == opt_view(other.thread_source)
        &&& opt_view(self.title) == opt_view(other.title)
        &&& opt_view(self.preview) == opt_view(other.preview)
        &&& opt_view(self.first_user_message) == opt_view(other.first_user_message)
        &&& self.has_user_event == other.has_user_event
        &&& self.archived == other.archived
        &&& self.created_at_ms == other.created_at_ms
        &&& self.updated_at_ms == other.updated_at_ms
    }

    /// A field-by-field copy.
    pub fn duplicate(&self) -> (r: RolloutThreadMetadata)
        ensures
            r.same_as(*self),
    {
        RolloutThreadMetadata {
            id: owned(self.id.as_str()),
            rollout_path: owned(self.rollout_path.as_str()),
            model_provider: owned_opt(&self.model_provider),
            cwd: owned_opt(&self.cwd),
            source: owned_opt(&self.source),
            thread_source: owned_opt(&self.thread_source),
            title: owned_opt(&self.title),
            preview: owned_opt(&self.preview),
            first_user_message: owned_opt(&self.first_user_message),
            has_user_event: self.has_user_event,
            archived: self.archived,
            created_at_ms: self.created_at_ms,
            updated_at_ms: self.updated_at_ms,
        }
    }
}

/// The thread row a rollout's metadata stands for.
pub fn thread_history_row_from_rollout(metadata: &RolloutThreadMetadata) -> (r: ThreadHistoryRow)
    ensures
        r.id@ == metadata.id@,
        opt_view(r.rollout_path) == Some(metadata.rollout_path@),
        opt_view(r.model_provider) == opt_view(metadata.model_provider),
        opt_view(r.cwd) == opt_view(metadata.cwd),
        r.has_user_event == Some(flag(metadata.has_user_event)),
        r.archived == Some(flag(metadata.archived)),
        opt_view(r.source) == opt_view(metadata.source),
        opt_view(r.thread_source) == opt_view(metadata.thread_source),
        opt_view(r.title) == opt_view(metadata.title),
        opt_view(r.preview) == opt_view(metadata.preview),
        opt_view(r.first_user_message) == opt_view(metadata.first_user_message),
        r.updated_at_ms == Some(metadata.updated_at_ms),
        r.updated_at == Some(millis_to_seconds(metadata.updated_at_ms)),
{
    ThreadHistoryRow {
        id: owned(metadata.id.as_str()),
        rollout_path: Some(owned(metadata.rollout_path.as_str())),
        model_provider: owned_opt(&metadata.model_provider),
        cwd: owned_opt(&metadata.cwd),
        has_user_event: Some(if metadata.has_user_event { 1 } else { 0 }),
        archived: Some(if metadata.archived { 1 } else { 0 }),
        source: owned_opt(&metadata.source),
        thread_source: owned_opt(&metadata.thread_source),
        title: owned_opt(&metadata.title),
        preview: owned_opt(&metadata.preview),
        first_user_message: owned_opt(&metadata.first_user_message),
        updated_at_ms: Some(metadata.updated_at_ms),
        updated_at: Some(seconds_of_millis(metadata.updated_at_ms)),
    }
}

/// The fields a rollout can repair, as compared before and after.
pub open spec fn repaired_fields(
    row: ThreadHistoryRow,
) -> (Option<Seq<char>>, Option<Seq<char>>, Option<Seq<char>>, Option<Seq<char>>, Option<
    Seq<char>,
>, Option<Seq<char>>, Option<Seq<char>>, Option<i64>, Option<i64>, Option<i64>, Option<i64>) {
    (
        opt_view(row.rollout_path),
        opt_view(row.cwd),
        opt_view(row.source),
        opt_view(row.thread_source),
        opt_view(row.title),
        opt_view(row.preview),
        opt_view(row.first_user_message),
        row.has_user_event,
        row.updated_at_ms,
        row.updated_at,
        row.archived,
    )
}

/// Brings a thread row in line with its rollout: the rollout's values win where it has
/// them, the update time never moves backwards; returns whether anything changed.
pub fn apply_rollout_metadata_to_thread_row(
    row: &mut ThreadHistoryRow,
    metadata: &RolloutThreadMetadata,
) -> (changed: bool)
    ensures
        final(row).id@ == old(row).id@,
        opt_view(final(row).model_provider) == opt_view(old(row).model_provider),
        opt_view(final(row).rollout_path) == Some(metadata.rollout_path@),
        opt_view(final(row).cwd) == or_else(opt_view(metadata.cwd), opt_view(old(row).cwd)),
        opt_view(final(row).source) == or_else(opt_view(metadata.source), opt_view(old(row).source)),
        opt_view(final(row).thread_source) == or_else(
            opt_view(metadata.thread_source),
            opt_view(old(row).thread_source),
        ),
        opt_view(final(row).title) == or_else(opt_view(metadata.title), opt_view(old(row).title)),
        opt_view(final(row).preview) == or_else(
            opt_view(metadata.preview),
            opt_view(old(row).preview),
        ),
        opt_view(final(row).first_user_message) == or_else(
            opt_view(metadata.first_user_message),
            opt_view(old(row).first_user_message),
        ),
        final(row).has_user_event == Some(flag(metadata.has_user_event)),
        final(row).updated_at_ms == Some(
            if metadata.updated_at_ms > updated_ms(*old(row)) {
                metadata.updated_at_ms
            } else {
                updated_ms(*old(row))
            },
        ),
        final(row).updated_at == Some(millis_to_seconds(final(row).updated_at_ms->0)),
        final(row).archived == Some(flag(metadata.archived)),
        changed == (repaired_fields(*final(row)) != repaired_fields(*old(row))),
{
    let ghost before = repaired_fields(*row);
    let old_rollout_path = owned_opt(&row.rollout_path);
    let old_cwd = owned_opt(&row.cwd);
    let old_source = owned_opt(&row.source);
    let old_thread_source = owned_opt(&row.thread_source);
    let old_title = owned_opt(&row.title);
    let old_preview = owned_opt(&row.preview);
    let old_first = owned_opt(&row.first_user_message);
    let old_has_user_event = row.has_user_event;
    let old_updated_at_ms = row.updated_at_ms;
    let old_updated_at = row.updated_at;
    let old_archived = row.archived;
    let previous_ms = row_updated_ms(row);
    let derived = thread_history_row_from_rollout(metadata);
    row.rollout_path = derived.rollout_path;
    if derived.cwd.is_some() {
        row.cwd = derived.cwd;
    }
    if derived.source.is_some() {
        row.source = derived.source;
    }
    if derived.thread_source.is_some() {
        row.thread_source = derived.thread_source;
    }
    if derived.title.is_some() {
        row.title = derived.title;
    }
    if derived.preview.is_some() {
        row.preview = derived.preview;
    }
    if derived.first_user_message.is_some() {
        row.first_user_message = derived.first_user_message;
    }
    row.has_user_event = Some(if metadata.has_user_event { 1 } else { 0 });
    let ms = if metadata.updated_at_ms > previous_ms {
        metadata.updated_at_ms
    } else {
        previous_ms
    };
    row.updated_at_ms = Some(ms);
    row.updated_at = Some(seconds_of_millis(ms));
    row.archived = Some(if metadata.archived { 1 } else { 0 });
    let same = opt_str_eq(&old_rollout_path, &row.rollout_path) && opt_str_eq(&old_cwd, &row.cwd)
        && opt_str_eq(&old_source, &row.source) && opt_str_eq(
        &old_thread_source,
        &row.thread_source,
    ) && opt_str_eq(&old_title, &row.title) && opt_str_eq(&old_preview, &row.preview)
        && opt_str_eq(&old_first, &row.first_user_message) && old_has_user_event
        == row.has_user_event && old_updated_at_ms == row.updated_at_ms && old_updated_at
        == row.updated_at && old_archived == row.archived;
    proof {
        if same {
            assert(repaired_fields(*row) == before);
        }
    }
    !same
}

fn opt_str_eq(a: &Option<String>, b: &Option<String>) -> (r: bool)
    ensures
        r == (opt_view(*a) == opt_view(*b)),
{
    match (a, b) {
        (Some(x), Some(y)) => str_eq(x.as_str(), y.as_str()),
        (None, None) => true,
        _ => false,
    }
}

/// A rollout only keeps the user's first turn, not a later rename in the Desktop:
/// before the thread store is rebuilt, a persisted title (from the thread row, else
/// the session index) that differs from the first user message is kept.
pub fn rollout_metadata_preserving_persisted_title(
    metadata: &RolloutThreadMetadata,
    row: Option<&ThreadHistoryRow>,
    session_index_title: Option<&str>,
) -> (r: RolloutThreadMetadata)
    ensures
        ({
            let first = match row {
                Some(rw) => or_else(opt_view(rw.first_user_message), opt_view(metadata.first_user_message)),
                None => opt_view(metadata.first_user_message),
            };
            let from_row = match row {
                Some(rw) => distinct_title(opt_view(rw.title), first),
                None => None,
            };
            let persisted = or_else(from_row, distinct_title(sview(session_index_title), first));
            &&& opt_view(r.title) == or_else(persisted, opt_view(metadata.title))
            &&& RolloutThreadMetadata { title: metadata.title, ..r }.same_as(*metadata)
        }),
{
    let mut effective = metadata.duplicate();
    let first: Option<&str> = match row {
        Some(rw) => match &rw.first_user_message {
            Some(m) => Some(m.as_str()),
            None => match &metadata.first_user_message {
                Some(m) => Some(m.as_str()),
                None => None,
            },
        },
        None => match &metadata.first_user_message {
            Some(m) => Some(m.as_str()),
            None => None,
        },
    };
    let from_row = match row {
        Some(rw) => {
            let t: Option<&str> = match &rw.title {
                Some(t) => Some(t.as_str()),
                None => None,
            };
            distinct_persisted_title(t, first)
        },
        None => None,
    };
    let persisted = match from_row {
        Some(t) => Some(t),
        None => distinct_persisted_title(session_index_title, first),
    };
    match persisted {
        Some(t) => {
            effective.title = Some(t);
        },
        None => {},
    }
    effective
}

// ---------------------------------------------------------------------------
// Duplicate and internal threads
// ---------------------------------------------------------------------------

/// The normalised cwd of a row, the key its project is compared by.
pub open spec fn row_project(row: ThreadHistoryRow) -> Option<Seq<char>> {
    match row.cwd {
        Some(c) => normalized_history_path(c@),
        None => None,
    }
}

/// The normalised cwd of a row.
pub fn row_project_key(row: &ThreadHistoryRow) -> (r: Option<String>)
    ensures
        opt_view(r) == row_project(*row),
{
    match &row.cwd {
        Some(c) => normalize_history_path(c.as_str()),
        None => None,
    }
}

/// The conversation of row `i`, when its rollout could be read and shows any user turn.
pub open spec fn candidate_conversation(
    conversations: Seq<Option<Vec<VisibleConversationMessage>>>,
    i: int,
) -> Option<Seq<Seq<char>>> {
    match conversations[i] {
        Some(c) => if c@.len() > 0 {
            Some(message_views(c@))
        } else {
            None
        },
        None => None,
    }
}

/// `(ms, id)` is later than `(ms2, id2)`, comparing as a tuple.
pub open spec fn later(ms: i64, id: Seq<char>, ms2: i64, id2: Seq<char>) -> bool {
    ms > ms2 || (ms == ms2 && crate::text::lex_lt(id2, id))
}

/// Row `j` fully represents row `i`: same project and first message, and `i`'s
/// conversation is a prefix of `j`'s, which is longer, or as long and newer.
pub open spec fn represented_by(
    rows: Seq<ThreadHistoryRow>,
    conversations: Seq<Option<Vec<VisibleConversationMessage>>>,
    i: int,
    j: int,
) -> bool {
    let ci = candidate_conversation(conversations, i);
    let cj = candidate_conversation(conversations, j);
    &&& i != j
    &&& ci is Some
    &&& cj is Some
    &&& ci->0[0] == cj->0[0]
    &&& row_project(rows[i]) == row_project(rows[j])
    &&& is_conversation_prefix(ci->0, cj->0)
    &&& (cj->0.len() > ci->0.len() || (cj->0.len() == ci->0.len() && later(
        updated_ms(rows[j]),
        rows[j].id@,
        updated_ms(rows[i]),
        rows[i].id@,
    )))
}

pub open spec fn prefix_duplicate(
    rows: Seq<ThreadHistoryRow>,
    conversations: Seq<Option<Vec<VisibleConversationMessage>>>,
    i: int,
) -> bool {
    exists|j: int| 0 <= j < rows.len() && #[trigger] represented_by(rows, conversations, i, j)
}

/// Some row selected by `chosen` has the id `x`.
pub open spec fn id_of_chosen(rows: Seq<ThreadHistoryRow>, chosen: spec_fn(int) -> bool, x: Seq<char>) -> bool {
    exists|i: int| 0 <= i < rows.len() && chosen(i) && #[trigger] rows[i].id@ == x
}

/// The distinct ids of the rows selected by `chosen`.
pub open spec fn ids_chosen(ids: Seq<Seq<char>>, rows: Seq<ThreadHistoryRow>, chosen: spec_fn(int) -> bool) -> bool {
    &&& forall|a: int, b: int| 0 <= a < b < ids.len() ==> ids[a] != ids[b]
    &&& forall|k: int| 0 <= k < ids.len() ==> id_of_chosen(rows, chosen, #[trigger] ids[k])
    &&& forall|i: int| 0 <= i < rows.len() && chosen(i) ==> ids.contains(#[trigger] rows[i].id@)
}

fn push_unique(ids: &mut Vec<String>, id: &String)
    ensures
        crate::text::views(final(ids)@) == if crate::text::views(old(ids)@).contains(id@) {
            crate::text::views(old(ids)@)
        } else {
            crate::text::views(old(ids)@).push(id@)
        },
{
    if !crate::text::contains_str(ids, id.as_str()) {
        ids.push(owned(id.as_str()));
        assert(crate::text::views(ids@) =~= crate::text::views(old(ids)@).push(id@));
    }
}

proof fn lemma_push_unique_chosen(
    before: Seq<Seq<char>>,
    after: Seq<Seq<char>>,
    rows: Seq<ThreadHistoryRow>,
    chosen: spec_fn(int) -> bool,
    i: int,
    n: int,
)
    requires
        0 <= i < n <= rows.len(),
        chosen(i),
        after == if before.contains(rows[i].id@) {
            before
        } else {
            before.push(rows[i].id@)
        },
        forall|a: int, b: int| 0 <= a < b < before.len() ==> before[a] != before[b],
        forall|k: int| 0 <= k < before.len() ==> id_of_chosen(rows, chosen, #[trigger] before[k]),
    ensures
        forall|a: int, b: int| 0 <= a < b < after.len() ==> after[a] != after[b],
        forall|k: int| 0 <= k < after.len() ==> id_of_chosen(rows, chosen, #[trigger] after[k]),
        after.contains(rows[i].id@),
        forall|x: Seq<char>| before.contains(x) ==> after.contains(x),
{
    if !before.contains(rows[i].id@) {
        assert forall|k: int| 0 <= k < after.len() implies id_of_chosen(rows, chosen, #[trigger] after[k]) by {
            if k == before.len() {
                assert(rows[i].id@ == after[k]);
            } else {
                assert(after[k] == before[k]);
            }
        }
        assert(after[before.len() as int] == rows[i].id@);
        assert forall|x: Seq<char>| before.contains(x) implies after.contains(x) by {
            let k = choose|k: int| 0 <= k < before.len() && before[k] == x;
            assert(after[k] == x);
        }
    }
}

/// The ids of threads whose whole conversation is contained in a longer (or equally
/// long and newer) rollout of the same project: recovery snapshots of one
/// conversation. Rows whose conversations diverge are kept.
/// `conversations[i]` is row `i`'s conversation, `None` when its rollout is missing.
pub fn plan_prefix_duplicate_thread_removals(
    rows: &[ThreadHistoryRow],
    conversations: &[Option<Vec<VisibleConversationMessage>>],
) -> (r: Vec<String>)
    requires
        rows.len() == conversations.len(),
    ensures
        ids_chosen(
            crate::text::views(r@),
            rows@,
            |i: int| prefix_duplicate(rows@, conversations@, i),
        ),
{
    let ghost chosen = |i: int| prefix_duplicate(rows@, conversations@, i);
    let mut projects: Vec<Option<String>> = Vec::new();
    let mut p: usize = 0;
    while p < rows.len()
        invariant
            p <= rows.len(),
            projects@.len() == p,
            forall|k: int| 0 <= k < p ==> opt_view(#[trigger] projects@[k]) == row_project(rows@[k]),
        decreases rows.len() - p,
    {
        projects.push(row_project_key(&rows[p]));
        p = p + 1;
    }
    let mut removals: Vec<String> = Vec::new();
    let mut i: usize = 0;
    while i < rows.len()
        invariant
            i <= rows.len() == conversations.len() == projects@.len(),
            forall|k: int| 0 <= k < rows.len() ==> opt_view(#[trigger] projects@[k]) == row_project(rows@[k]),
            chosen == (|i: int| prefix_duplicate(rows@, conversations@, i)),
            forall|a: int, b: int| 0 <= a < b < removals@.len() ==> crate::text::views(removals@)[a] != crate::text::views(removals@)[b],
            forall|k: int| 0 <= k < removals@.len() ==> id_of_chosen(rows@, chosen, #[trigger] crate::text::views(removals@)[k]),
            forall|m: int| 0 <= m < i && chosen(m) ==> crate::text::views(removals@).contains(#[trigger] rows@[m].id@),
        decreases rows.len() - i,
    {
        let messages = match &conversations[i] {
            Some(c) => if c.len() > 0 {
                c
            } else {
                i = i + 1;
                continue;
            },
            None => {
                i = i + 1;
                proof {
                    assert(!chosen(i - 1)) by {
                        if prefix_duplicate(rows@, conversations@, i - 1) {
                            let j = choose|j: int| 0 <= j < rows@.len() && #[trigger] represented_by(rows@, conversations@, i - 1, j);
                        }
                    }
                }
                continue;
            },
        };
        let row_ms = row_updated_ms(&rows[i]);
        let mut found = false;
        let mut j: usize = 0;
        while j < rows.len() && !found
            invariant
                i < rows.len() == conversations.len() == projects@.len(),
                j <= rows.len(),
                forall|k: int| 0 <= k < rows.len() ==> opt_view(#[trigger] projects@[k]) == row_project(rows@[k]),
                conversations@[i as int] is Some,
                messages@ == conversations@[i as int]->0@,
                messages@.len() > 0,
                row_ms == updated_ms(rows@[i as int]),
                found ==> prefix_duplicate(rows@, conversations@, i as int),
                !found ==> forall|m: int| 0 <= m < j ==> !#[trigger] represented_by(rows@, conversations@, i as int, m),
            decreases rows.len() - j,
        {
            if j == i {
                j = j + 1;
                continue;
            }
            let other = match &conversations[j] {
                Some(c) => if c.len() > 0 {
                    c
                } else {
                    j = j + 1;
                    continue;
                },
                None => {
                    j = j + 1;
                    continue;
                },
            };
            let same_first = str_eq(messages[0].content.as_str(), other[0].content.as_str());
            let same_project = opt_str_eq(&projects[i], &projects[j]);
            let prefix = conversation_is_prefix(messages.as_slice(), other.as_slice());
            if same_first && same_project && prefix {
                let other_ms = row_updated_ms(&rows[j]);
                let strictly_better = other.len() > messages.len() || (other.len() == messages.len()
                    && (other_ms > row_ms || (other_ms == row_ms && crate::text::str_lt(
                    rows[i].id.as_str(),
                    rows[j].id.as_str(),
                ))));
                if strictly_better {
                    assert(represented_by(rows@, conversations@, i as int, j as int));
                    found = true;
                }
            }
            j = j + 1;
        }
        if found {
            let ghost before = crate::text::views(removals@);
            push_unique(&mut removals, &rows[i].id);
            proof {
                lemma_push_unique_chosen(before, crate::text::views(removals@), rows@, chosen, i as int, rows@.len() as int);
            }
        } else {
            proof {
                assert(!chosen(i as int)) by {
                    if prefix_duplicate(rows@, conversations@, i as int) {
                        let m = choose|m: int| 0 <= m < rows@.len() && #[trigger] represented_by(rows@, conversations@, i as int, m);
                    }
                }
            }
        }
        i = i + 1;
    }
    removals
}

/// The row's text looks like an internal transcript.
pub open spec fn row_looks_internal(row: ThreadHistoryRow) -> bool {
    looks_internal(row.preview) || looks_internal(row.first_user_message) || looks_internal(
        row.title,
    )
}

/// The ids of threads that look internal and whose rollout holds only internal user
/// turns. `rollout_only_internal[i]` says so of row `i`'s rollout (false when it is
/// missing).
pub fn plan_internal_transcript_thread_removals(
    rows: &[ThreadHistoryRow],
    rollout_only_internal: &[bool],
) -> (r: Vec<String>)
    requires
        rows.len() == rollout_only_internal.len(),
    ensures
        ids_chosen(
            crate::text::views(r@),
            rows@,
            |i: int| row_looks_internal(rows@[i]) && rollout_only_internal@[i],
        ),
{
    let ghost chosen = |i: int| row_looks_internal(rows@[i]) && rollout_only_internal@[i];
    let mut removals: Vec<String> = Vec::new();
    let mut i: usize = 0;
    while i < rows.len()
        invariant
            i <= rows.len() == rollout_only_internal.len(),
            chosen == (|i: int| row_looks_internal(rows@[i]) && rollout_only_internal@[i]),
            forall|a: int, b: int| 0 <= a < b < removals@.len() ==> crate::text::views(removals@)[a] != crate::text::views(removals@)[b],
            forall|k: int| 0 <= k < removals@.len() ==> id_of_chosen(rows@, chosen, #[trigger] crate::text::views(removals@)[k]),
            forall|m: int| 0 <= m < i && chosen(m) ==> crate::text::views(removals@).contains(#[trigger] rows@[m].id@),
        decreases rows.len() - i,
    {
        if thread_row_looks_internal(&rows[i]) && rollout_only_internal[i] {
            let ghost before = crate::text::views(removals@);
            push_unique(&mut removals, &rows[i].id);
            proof {
                lemma_push_unique_chosen(before, crate::text::views(removals@), rows@, chosen, i as int, rows@.len() as int);
            }
        }
        i = i + 1;
    }
    removals
}

// ---------------------------------------------------------------------------
// Bringing recent threads forward
// ---------------------------------------------------------------------------

/// The UTC RFC 3339 text, with milliseconds and `Z`, of a time in milliseconds since
/// the epoch; `None` when chrono cannot represent it.
pub uninterp spec fn utc_rfc3339_millis(ms: i64) -> Option<Seq<char>>;

/// Calls chrono's `Utc.timestamp_millis_opt(ms).single()` and formats the time with
/// `to_rfc3339_opts(SecondsFormat::Millis, true)`; the contract names that result.
#[verifier::external_body]
fn rfc3339_of_millis(ms: i64) -> (r: Option<String>)
    ensures
        opt_view(r) == utc_rfc3339_millis(ms),
{
    chrono::Utc.timestamp_millis_opt(ms).single().map(
        |time| time.to_rfc3339_opts(chrono::SecondsFormat::Millis, true),
    )
}

/// The session index's time text for `ms`, or `now_iso` when `ms` is out of range.
pub fn iso_from_epoch_millis(ms: i64, now_iso: &str) -> (r: String)
    ensures
        r@ == match utc_rfc3339_millis(ms) {
            Some(t) => t,
            None => now_iso@,
        },
{
    match rfc3339_of_millis(ms) {
        Some(t) => t,
        None => owned(now_iso),
    }
}

/// A thread chosen to be brought forward, with the time it will be given.
#[derive(Debug, Clone)]
pub struct FocusThreadRow {
    pub id: String,
    pub title: String,
    pub project_path: Option<String>,
    pub rollout_path: Option<String>,
    pub new_updated_at: i64,
    pub new_updated_at_ms: i64,
    pub updated_iso: String,
}

/// `f` is the focus row of `row`, still at the row's own time.
pub open spec fn focus_row_of(f: FocusThreadRow, row: ThreadHistoryRow, now_iso: Seq<char>) -> bool {
    &&& f.id@ == row.id@
    &&& f.title@ == title_of(row)
    &&& opt_view(f.project_path) == row_project(row)
    &&& opt_view(f.rollout_path) == opt_view(row.rollout_path)
    &&& f.new_updated_at == match row.updated_at {
        Some(s) => s,
        None => 0,
    }
    &&& f.new_updated_at_ms == updated_ms(row)
    &&& f.updated_iso@ == match utc_rfc3339_millis(updated_ms(row)) {
        Some(t) => t,
        None => now_iso,
    }
}

/// The focus row for a thread, keeping its current time for now.
pub fn focus_row_from_thread(row: &ThreadHistoryRow, now_iso: &str) -> (r: FocusThreadRow)
    ensures
        focus_row_of(r, *row, now_iso@),
{
    let ms = row_updated_ms(row);
    FocusThreadRow {
        id: owned(row.id.as_str()),
        title: row_title(row),
        project_path: row_project_key(row),
        rollout_path: owned_opt(&row.rollout_path),
        new_updated_at: match row.updated_at {
            Some(s) => s,
            None => 0,
        },
        new_updated_at_ms: ms,
        updated_iso: iso_from_epoch_millis(ms, now_iso),
    }
}

/// The time the `index`-th of `total` focus rows gets: 250 ms apart, the first the
/// newest, all at least ten seconds after `base`.
pub open spec fn focus_time(base: i64, total: int, index: int) -> i64 {
    saturate(saturate(base + 10_000) + (total - index) * 250)
}

/// The largest current time among the rows, at least `now_ms`.
pub open spec fn focus_base(rows: Seq<FocusThreadRow>, now_ms: i64) -> i64
    decreases rows.len(),
{
    if rows.len() == 0 {
        now_ms
    } else {
        let b = focus_base(rows.drop_last(), now_ms);
        if rows.last().new_updated_at_ms > b {
            rows.last().new_updated_at_ms
        } else {
            b
        }
    }
}

fn saturating_add_i64(a: i64, b: i64) -> (r: i64)
    ensures
        r == saturate(a + b),
{
    if b > 0 && a > i64::MAX - b {
        i64::MAX
    } else if b < 0 && a < i64::MIN - b {
        i64::MIN
    } else {
        a + b
    }
}

/// Gives the focus rows new, descending times after every current one and after
/// `now_ms`, so that they head Codex Desktop's recent window in this order.
pub fn assign_focus_times(rows: &mut Vec<FocusThreadRow>, now_ms: i64, now_iso: &str)
    requires
        old(rows)@.len() <= 36_893_488_147_419_103,
    ensures
        final(rows)@.len() == old(rows)@.len(),
        old(rows)@.len() > 0 ==> forall|k: int|
            0 <= k < final(rows)@.len() ==> {
                let t = focus_time(focus_base(old(rows)@, now_ms), old(rows)@.len() as int, k);
                &&& (#[trigger] final(rows)@[k]).new_updated_at_ms == t
                &&& final(rows)@[k].new_updated_at == millis_to_seconds(t)
                &&& final(rows)@[k].updated_iso@ == match utc_rfc3339_millis(t) {
                    Some(x) => x,
                    None => now_iso@,
                }
                &&& final(rows)@[k].id@ == old(rows)@[k].id@
                &&& final(rows)@[k].title@ == old(rows)@[k].title@
                &&& opt_view(final(rows)@[k].project_path) == opt_view(old(rows)@[k].project_path)
                &&& opt_view(final(rows)@[k].rollout_path) == opt_view(old(rows)@[k].rollout_path)
            },
        old(rows)@.len() == 0 ==> final(rows)@ == old(rows)@,
{
    if rows.len() == 0 {
        return;
    }
    let ghost original = rows@;
    let mut base: i64 = now_ms;
    let mut i: usize = 0;
    while i < rows.len()
        invariant
            i <= rows.len(),
            rows@ == original,
            base == focus_base(original.take(i as int), now_ms),
        decreases rows.len() - i,
    {
        assert(original.take(i + 1).drop_last() =~= original.take(i as int));
        if rows[i].new_updated_at_ms > base {
            base = rows[i].new_updated_at_ms;
        }
        i = i + 1;
    }
    assert(original.take(rows.len() as int) =~= original);
    let start = saturating_add_i64(base, 10_000);
    let total: usize = rows.len();
    let mut i: usize = 0;
    while i < total
        invariant
            i <= total == rows@.len() == original.len(),
            total <= 36_893_488_147_419_103,
            start == saturate(focus_base(original, now_ms) + 10_000),
            forall|k: int| i <= k < total ==> #[trigger] rows@[k] == original[k],
            forall|k: int|
                0 <= k < i ==> {
                    let t = focus_time(focus_base(original, now_ms), total as int, k);
                    &&& (#[trigger] rows@[k]).new_updated_at_ms == t
                    &&& rows@[k].new_updated_at == millis_to_seconds(t)
                    &&& rows@[k].updated_iso@ == match utc_rfc3339_millis(t) {
                        Some(x) => x,
                        None => now_iso@,
                    }
                    &&& rows@[k].id@ == original[k].id@
                    &&& rows@[k].title@ == original[k].title@
                    &&& opt_view(rows@[k].project_path) == opt_view(original[k].project_path)
                    &&& opt_view(rows@[k].rollout_path) == opt_view(original[k].rollout_path)
                },
        decreases total - i,
    {
        let offset: i64 = ((total - i) as i64) * 250;
        let next = saturating_add_i64(start, offset);
        let iso = iso_from_epoch_millis(next, now_iso);
        let seconds = seconds_of_millis(next);
        let mut row = rows[i].clone();
        row.id = owned(rows[i].id.as_str());
        row.title = owned(rows[i].title.as_str());
        row.project_path = owned_opt(&rows[i].project_path);
        row.rollout_path = owned_opt(&rows[i].rollout_path);
        row.new_updated_at_ms = next;
        row.new_updated_at = seconds;
        row.updated_iso = iso;
        rows.set(i, row);
        i = i + 1;
    }
}

} // verus!
