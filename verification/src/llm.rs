//! Prompt texts and request details for the OpenAI-compatible endpoint.
use vstd::prelude::*;
use vstd::string::*;
use crate::settings::{ElementType, Endpoint};
use crate::text::{chars_of, contains_seq, contains_text_of, push_str, replace_all, replaced, string_of};

verus! {

/// One palette line of a prompt: `- "kind": label — description`.
pub open spec fn palette_line(e: ElementType) -> Seq<char> {
    "- \""@ + e.kind@ + "\": "@ + e.label@ + " — "@ + e.description@ + "\n"@
}

/// The palette as the prompts describe it, one line per element type.
pub open spec fn palette_text(palette: Seq<ElementType>) -> Seq<char>
    decreases palette.len(),
{
    if palette.len() == 0 {
        seq![]
    } else {
        palette_text(palette.drop_last()) + palette_line(palette.last())
    }
}

/// Describes the palette for a prompt.
pub fn palette_description(palette: &Vec<ElementType>) -> (out: String)
    ensures
        out@ == palette_text(palette@),
{
    let mut out = String::new();
    let mut i: usize = 0;
    while i < palette.len()
        invariant
            0 <= i <= palette@.len(),
            out@ == palette_text(palette@.take(i as int)),
        decreases palette@.len() - i,
    {
        assert(palette@.take((i + 1) as int).drop_last() == palette@.take(i as int));
        let t = &palette[i];
        push_str(&mut out, "- \"");
        push_str(&mut out, t.kind.as_str());
        push_str(&mut out, "\": ");
        push_str(&mut out, t.label.as_str());
        push_str(&mut out, " — ");
        push_str(&mut out, t.description.as_str());
        push_str(&mut out, "\n");
        i = i + 1;
        assert(out@ =~= palette_text(palette@.take(i as int)));
    }
    assert(palette@.take(palette@.len() as int) == palette@);
    out
}

/// A prompt template with the palette and the DSL schema filled in.
pub open spec fn rendered_template(template: Seq<char>, palette: Seq<ElementType>, schema: Seq<char>) -> Seq<char> {
    replaced(replaced(template, "{{PALETTE}}"@, palette_text(palette)), "{{SCHEMA}}"@, schema)
}

/// Fills `{{PALETTE}}` and then `{{SCHEMA}}` into a prompt template.
pub fn render_template(template: &str, palette: &Vec<ElementType>, schema: &str) -> (out: String)
    ensures
        out@ == rendered_template(template@, palette@, schema@),
{
    let description = palette_description(palette);
    proof {
        reveal_strlit("{{PALETTE}}");
        reveal_strlit("{{SCHEMA}}");
    }
    let with_palette = replace_all(template, "{{PALETTE}}", description.as_str());
    replace_all(with_palette.as_str(), "{{SCHEMA}}", schema)
}

/// The project map prompt.
pub fn project_map_prompt(template: &str, palette: &Vec<ElementType>, schema: &str) -> (out: String)
    ensures
        out@ == rendered_template(template@, palette@, schema@),
{
    render_template(template, palette, schema)
}

/// The file map prompt.
pub fn file_map_prompt(template: &str, palette: &Vec<ElementType>, schema: &str) -> (out: String)
    ensures
        out@ == rendered_template(template@, palette@, schema@),
{
    render_template(template, palette, schema)
}

/// The function flow prompt.
pub fn function_flow_prompt(template: &str, palette: &Vec<ElementType>, schema: &str) -> (out: String)
    ensures
        out@ == rendered_template(template@, palette@, schema@),
{
    render_template(template, palette, schema)
}

/// The entity labeling prompt: the template with the window's node tree in
/// place of `__TREE__`, then its source excerpt in place of `__SOURCE__`, the
/// ids already done in place of `__DONE__` and the window's ids in place of
/// `__WINDOW__`.
pub open spec fn labels_prompt_text(template: Seq<char>, tree_json: Seq<char>, source_window: Seq<char>, done_text: Seq<char>, window_ids: Seq<char>) -> Seq<char> {
    replaced(replaced(replaced(replaced(template, "__TREE__"@, tree_json), "__SOURCE__"@, source_window), "__DONE__"@, done_text), "__WINDOW__"@, window_ids)
}

/// The entity labeling prompt for one window.
pub fn entity_labels_prompt(
    template: &str,
    _palette: &Vec<ElementType>,
    tree_json: &str,
    source_window: &str,
    done_text: &str,
    window_ids: &str,
) -> (out: String)
    ensures
        out@ == labels_prompt_text(template@, tree_json@, source_window@, done_text@, window_ids@),
{
    proof {
        reveal_strlit("__TREE__");
        reveal_strlit("__SOURCE__");
        reveal_strlit("__DONE__");
        reveal_strlit("__WINDOW__");
    }
    let a = replace_all(template, "__TREE__", tree_json);
    let b = replace_all(a.as_str(), "__SOURCE__", source_window);
    let c = replace_all(b.as_str(), "__DONE__", done_text);
    replace_all(c.as_str(), "__WINDOW__", window_ids)
}

/// `s` without its trailing slashes.
pub open spec fn without_trailing_slashes(s: Seq<char>) -> Seq<char>
    decreases s.len(),
{
    if s.len() > 0 && s.last() == '/' { without_trailing_slashes(s.drop_last()) } else { s }
}

/// The URL of an endpoint route: the base URL without trailing slashes, then the route.
pub fn endpoint_url(base_url: &str, route: &str) -> (out: String)
    ensures
        out@ == without_trailing_slashes(base_url@) + route@,
{
    let cs = chars_of(base_url);
    let mut end: usize = cs.len();
    assert(base_url@.take(end as int) =~= base_url@);
    while end > 0 && cs[end - 1] == '/'
        invariant
            end <= cs@.len(),
            cs@ == base_url@,
            without_trailing_slashes(base_url@) == without_trailing_slashes(base_url@.take(end as int)),
        decreases end,
    {
        assert(base_url@.take(end as int).drop_last() == base_url@.take((end - 1) as int));
        end = end - 1;
    }
    let kept = crate::text::slice_of(&cs, 0, end);
    assert(kept@ =~= base_url@.take(end as int));
    let mut out = string_of(kept.as_slice());
    push_str(&mut out, route);
    out
}

pub open spec fn context_overflow_message() -> Seq<char> {
    "LLM context is too large for this model; Graphloom sent a compact analysis context, but the selected project still exceeds the endpoint limit. Choose a larger-context model or analyze a smaller scope."@
}

/// The error reported for a failed completion request with HTTP status
/// `status` and response body `body`.
pub open spec fn completion_error(status: Seq<char>, body: Seq<char>) -> Seq<char> {
    if contains_seq(body, "exceeds the available context size"@) {
        context_overflow_message()
    } else {
        "LLM endpoint error "@ + status + ": "@ + body
    }
}

/// Explains a failed completion request.
pub fn completion_error_message(status: &str, body: &str) -> (out: String)
    ensures
        out@ == completion_error(status@, body@),
{
    if contains_text_of(body, "exceeds the available context size") {
        String::from_str("LLM context is too large for this model; Graphloom sent a compact analysis context, but the selected project still exceeds the endpoint limit. Choose a larger-context model or analyze a smaller scope.")
    } else {
        let mut out = String::from_str("LLM endpoint error ");
        push_str(&mut out, status);
        push_str(&mut out, ": ");
        push_str(&mut out, body);
        out
    }
}

// ---------------------------------------------------------------------------
// Reading the endpoint's answers.

/// What a `/models` answer lists: `None` when the text is not JSON,
/// `Some(None)` when it has no `data` array, else for each element of `data`
/// that element's `id` when it is a string.
pub uninterp spec fn models_listing(body: Seq<char>) -> Option<Option<Seq<Option<Seq<char>>>>>;

pub open spec fn listing_views(v: Seq<Option<String>>) -> Seq<Option<Seq<char>>> {
    v.map_values(|o: Option<String>| crate::text::opt_view(o))
}

/// Reads a `/models` answer with `serde_json::from_str` and, for each element
/// of `data` (`Value::as_array`), `Value::as_str` of its `id`. The contract
/// claims only that the outcome is a function of the text.
#[verifier::external_body]
fn read_models_listing(body: &str) -> (r: Option<Option<Vec<Option<String>>>>)
    ensures
        match r {
            Some(Some(v)) => models_listing(body@) == Some(Some(listing_views(v@))),
            Some(None) => models_listing(body@) == Some(None::<Seq<Option<Seq<char>>>>),
            None => models_listing(body@) is None,
        },
{
    let json = serde_json::from_str::<serde_json::Value>(body).ok()?;
    Some(json["data"].as_array().map(|items| items.iter().map(|m| m["id"].as_str().map(String::from)).collect()))
}

/// The texts present in a listing, in order.
pub open spec fn present(entries: Seq<Option<Seq<char>>>) -> Seq<Seq<char>>
    decreases entries.len(),
{
    if entries.len() == 0 {
        seq![]
    } else {
        present(entries.drop_last()) + match entries.last() {
            Some(id) => seq![id],
            None => Seq::<Seq<char>>::empty(),
        }
    }
}

/// The ids of the models an endpoint offers, from its `/models` answer: none
/// when it has no `data` array.
pub fn model_ids(body: &str) -> (r: Result<Vec<String>, String>)
    ensures
        match models_listing(body@) {
            None => r matches Err(m) && m@ == "invalid JSON from /models"@,
            Some(None) => r matches Ok(ids) && ids@.len() == 0,
            Some(Some(entries)) => r matches Ok(ids) && crate::validate::views(ids@) == present(entries),
        },
{
    let listing = match read_models_listing(body) {
        Some(Some(v)) => v,
        Some(None) => return Ok(Vec::new()),
        None => return Err(String::from_str("invalid JSON from /models")),
    };
    let ghost entries = listing_views(listing@);
    let mut ids: Vec<String> = Vec::new();
    let mut i: usize = 0;
    while i < listing.len()
        invariant
            0 <= i <= listing@.len(),
            entries == listing_views(listing@),
            crate::validate::views(ids@) == present(entries.take(i as int)),
        decreases listing@.len() - i,
    {
        assert(entries.take((i + 1) as int).drop_last() == entries.take(i as int));
        assert(entries.take((i + 1) as int).last() == crate::text::opt_view(listing@[i as int]));
        if let Some(id) = &listing[i] {
            ids.push(id.clone());
        }
        i = i + 1;
        assert(crate::validate::views(ids@) =~= present(entries.take(i as int)));
    }
    assert(entries.take(listing@.len() as int) == entries);
    Ok(ids)
}

/// What a completion answer holds: nothing when the text is not JSON, else
/// `choices[0].message.content` when it is a string.
pub uninterp spec fn completion_content(body: Seq<char>) -> Option<Option<Seq<char>>>;

/// Reads a completion answer with `serde_json::from_str` and takes
/// `Value::as_str` of `choices[0].message.content`. The contract claims only
/// that the outcome is a function of the text.
#[verifier::external_body]
fn read_completion_content(body: &str) -> (r: Option<Option<String>>)
    ensures
        match r {
            Some(c) => completion_content(body@) == Some(crate::text::opt_view(c)),
            None => completion_content(body@) is None,
        },
{
    let json = serde_json::from_str::<serde_json::Value>(body).ok()?;
    Some(json["choices"][0]["message"]["content"].as_str().map(String::from))
}

// ---------------------------------------------------------------------------
// Chat sessions.

/// One message of a chat: who speaks, and what.
pub struct ChatMessage {
    pub role: String,
    pub content: String,
}

/// A chat session with the endpoint. It keeps the history, so that the
/// errors found in a reply can be sent back to the model on a retry.
pub struct Chat<'a> {
    pub endpoint: &'a Endpoint,
    pub messages: Vec<ChatMessage>,
    pub max_tokens: u32,
}

/// A message as its role and content.
pub open spec fn message_view(m: ChatMessage) -> (Seq<char>, Seq<char>) {
    (m.role@, m.content@)
}

impl<'a> Chat<'a> {
    /// The history of the session, oldest first.
    pub open spec fn history(&self) -> Seq<(Seq<char>, Seq<char>)> {
        self.messages@.map_values(|m: ChatMessage| message_view(m))
    }

    /// A session that opens with a system message and a user message.
    pub fn new(endpoint: &'a Endpoint, system: String, user: String, max_tokens: u32) -> (c: Self)
        ensures
            c.endpoint == endpoint,
            c.max_tokens == max_tokens,
            c.history() == seq![("system"@, system@), ("user"@, user@)],
    {
        let mut messages: Vec<ChatMessage> = Vec::new();
        messages.push(ChatMessage { role: String::from_str("system"), content: system });
        messages.push(ChatMessage { role: String::from_str("user"), content: user });
        let c = Chat { endpoint, messages, max_tokens };
        assert(c.history() =~= seq![("system"@, system@), ("user"@, user@)]);
        c
    }

    /// Adds a user message to the history.
    pub fn push_user(&mut self, content: String)
        ensures
            final(self).endpoint == old(self).endpoint,
            final(self).max_tokens == old(self).max_tokens,
            final(self).history() == old(self).history().push(("user"@, content@)),
    {
        let ghost before = self.history();
        self.messages.push(ChatMessage { role: String::from_str("user"), content });
        assert(self.history() =~= before.push(("user"@, content@)));
    }

    /// Takes the reply out of a completion answer and records it in the
    /// history; an answer that is not JSON, or has no content, is refused.
    pub fn take_reply(&mut self, body: &str) -> (r: Result<String, String>)
        ensures
            final(self).endpoint == old(self).endpoint,
            final(self).max_tokens == old(self).max_tokens,
            match completion_content(body@) {
                None => r matches Err(m) && m@ == "invalid JSON from LLM endpoint"@
                    && final(self).history() == old(self).history(),
                Some(None) => r matches Err(m) && m@ == "no content in LLM response"@
                    && final(self).history() == old(self).history(),
                Some(Some(c)) => r matches Ok(t) && t@ == c
                    && final(self).history() == old(self).history().push(("assistant"@, c)),
            },
    {
        match read_completion_content(body) {
            None => Err(String::from_str("invalid JSON from LLM endpoint")),
            Some(None) => Err(String::from_str("no content in LLM response")),
            Some(Some(content)) => {
                let reply = content.clone();
                self.push_reply(content);
                Ok(reply)
            },
        }
    }

    /// Records the model's reply, which later requests send back as part of the history.
    pub fn push_reply(&mut self, content: String)
        ensures
            final(self).endpoint == old(self).endpoint,
            final(self).max_tokens == old(self).max_tokens,
            final(self).history() == old(self).history().push(("assistant"@, content@)),
    {
        let ghost before = self.history();
        self.messages.push(ChatMessage { role: String::from_str("assistant"), content });
        assert(self.history() =~= before.push(("assistant"@, content@)));
    }
}

} // verus!
