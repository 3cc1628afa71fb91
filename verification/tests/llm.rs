use graphloom::llm::{
    completion_error_message, endpoint_url, entity_labels_prompt, file_map_prompt, function_flow_prompt,
    palette_description, project_map_prompt, render_template, Chat,
};
use graphloom::settings::{default_palette, Endpoint, ElementType};

fn palette() -> Vec<ElementType> {
    vec![ElementType {
        kind: "service".to_string(),
        label: "Сервис".to_string(),
        color: "#3b82f6".to_string(),
        icon: "Settings2".to_string(),
        description: "Самостоятельный сервис".to_string(),
    }]
}

#[test]
fn palette_lines_name_kind_label_and_description() {
    assert_eq!(palette_description(&palette()), "- \"service\": Сервис — Самостоятельный сервис\n");
    assert_eq!(palette_description(&vec![]), "");
    assert_eq!(palette_description(&default_palette()).lines().count(), 5);
}

#[test]
fn templates_get_palette_then_schema() {
    let out = render_template("P={{PALETTE}} S={{SCHEMA}} again {{SCHEMA}}", &palette(), "{\"type\":\"object\"}");
    assert_eq!(out, "P=- \"service\": Сервис — Самостоятельный сервис\n S={\"type\":\"object\"} again {\"type\":\"object\"}");
    assert_eq!(project_map_prompt("{{SCHEMA}}", &palette(), "x"), "x");
    assert_eq!(file_map_prompt("a {{SCHEMA}}", &palette(), "s"), "a s");
    assert_eq!(function_flow_prompt("{{PALETTE}}", &vec![], "s"), "");
}

#[test]
fn labels_prompt_fills_all_four_places() {
    let out = entity_labels_prompt(
        "T:__TREE__ S:__SOURCE__ D:__DONE__ W:__WINDOW__",
        &palette(),
        "[{\"id\":\"a\"}]",
        "0001 | x",
        "нет",
        "a",
    );
    assert_eq!(out, "T:[{\"id\":\"a\"}] S:0001 | x D:нет W:a");
}

#[test]
fn endpoint_routes_drop_trailing_slashes() {
    assert_eq!(endpoint_url("http://localhost:8080/v1//", "/models"), "http://localhost:8080/v1/models");
    assert_eq!(endpoint_url("http://h/v1", "/chat/completions"), "http://h/v1/chat/completions");
}

#[test]
fn completion_errors_explain_context_overflow() {
    assert_eq!(completion_error_message("500 Internal Server Error", "boom"), "LLM endpoint error 500 Internal Server Error: boom");
    assert!(completion_error_message("400", "request exceeds the available context size of 4096").starts_with("LLM context is too large"));
}

#[test]
fn chat_keeps_history_for_retries() {
    let endpoint = Endpoint { base_url: "http://h/v1".to_string(), model: "m".to_string(), api_key: String::new() };
    let mut chat = Chat::new(&endpoint, "system".to_string(), "user".to_string(), 8192);
    chat.push_reply("{}".to_string());
    chat.push_user("fix it".to_string());
    let roles: Vec<&str> = chat.messages.iter().map(|m| m.role.as_str()).collect();
    assert_eq!(roles, vec!["system", "user", "assistant", "user"]);
    assert_eq!(chat.messages[3].content, "fix it");
    assert_eq!(chat.max_tokens, 8192);
    assert_eq!(chat.endpoint.model, "m");
}

#[test]
fn model_list_keeps_string_ids() {
    let body = r#"{"object":"list","data":[{"id":"qwen"},{"id":42},{"name":"x"},{"id":"llama"}]}"#;
    assert_eq!(graphloom::llm::model_ids(body), Ok(vec!["qwen".to_string(), "llama".to_string()]));
    assert_eq!(graphloom::llm::model_ids("{}"), Ok(vec![]));
    assert_eq!(graphloom::llm::model_ids("<html>"), Err("invalid JSON from /models".to_string()));
}

#[test]
fn replies_are_read_and_recorded() {
    let endpoint = Endpoint { base_url: "http://h/v1".to_string(), model: "m".to_string(), api_key: String::new() };
    let mut chat = Chat::new(&endpoint, "s".to_string(), "u".to_string(), 10);
    let body = r#"{"choices":[{"message":{"role":"assistant","content":"{\"labels\":{}}"}}]}"#;
    assert_eq!(chat.take_reply(body), Ok("{\"labels\":{}}".to_string()));
    assert_eq!(chat.messages.len(), 3);
    assert_eq!(chat.messages[2].role, "assistant");
    assert_eq!(chat.take_reply(r#"{"choices":[]}"#), Err("no content in LLM response".to_string()));
    assert_eq!(chat.take_reply("oops"), Err("invalid JSON from LLM endpoint".to_string()));
    assert_eq!(chat.messages.len(), 3);
}
