use scout::config::Config;
use scout::menu::{
    menu_line, model_menu_step, provider_entries, provider_menu_step, MenuKey, ModelStep,
    ProviderStep,
};
use scout::ui::{art_lines, prompt_line_count, prompt_string, truncate_to_width};

#[test]
fn config_defaults_apply_without_content() {
    let c = Config::from_content("");
    assert_eq!(c.model, "qwen2.5:7b-instruct");
    assert_eq!(c.ollama_host, "http://127.0.0.1:11434/api/generate");
}

#[test]
fn config_reads_keys_and_ignores_comments() {
    let c = Config::from_content(
        "# a comment\n  OLLAMA_MODEL = llama3:8b \nOLLAMA_API_BASE_URL=\"http://h:1/api/generate\"\nOTHER=x\n",
    );
    assert_eq!(c.model, "llama3:8b");
    assert_eq!(c.ollama_host, "http://h:1/api/generate");
}

#[test]
fn base_url_drops_the_generation_path() {
    let c = Config::from_content("");
    assert_eq!(c.ollama_base_url(), "http://127.0.0.1:11434");
    let d = Config::from_content("OLLAMA_API_BASE_URL=http://h:1/\n");
    assert_eq!(d.ollama_base_url(), "http://h:1");
}

#[test]
fn saving_replaces_or_appends_the_model_line() {
    let c = Config::from_content("");
    let updated = c.updated_config_content("OLLAMA_MODEL=old\nOTHER=1", "new");
    assert_eq!(
        updated,
        "OLLAMA_MODEL=new\nOTHER=1\nOLLAMA_API_BASE_URL=http://127.0.0.1:11434/api/generate"
    );
    let appended = c.updated_config_content("OLLAMA_API_BASE_URL=http://h:1", "m2");
    assert_eq!(appended, "OLLAMA_API_BASE_URL=http://h:1\nOLLAMA_MODEL=m2");
}

#[test]
fn provider_menu_wraps_and_gates_enter() {
    let entries = provider_entries();
    assert_eq!(entries.len(), 8);
    match provider_menu_step(0, 8, false, MenuKey::Up) {
        ProviderStep::Stay(s) => assert_eq!(s, 7),
        _ => panic!("expected to stay"),
    }
    match provider_menu_step(7, 8, false, MenuKey::Down) {
        ProviderStep::Stay(s) => assert_eq!(s, 0),
        _ => panic!("expected to stay"),
    }
    match provider_menu_step(2, 8, false, MenuKey::Enter) {
        ProviderStep::Stay(s) => assert_eq!(s, 2),
        _ => panic!("an unimplemented provider must not open the menu"),
    }
    assert!(matches!(
        provider_menu_step(7, 8, true, MenuKey::Enter),
        ProviderStep::OpenModelMenu
    ));
    assert!(matches!(provider_menu_step(3, 8, false, MenuKey::Esc), ProviderStep::Leave));
}

#[test]
fn model_menu_chooses_on_enter() {
    assert!(matches!(model_menu_step(1, 3, MenuKey::Enter), ModelStep::Choose(1)));
    assert!(matches!(model_menu_step(0, 3, MenuKey::Up), ModelStep::Stay(2)));
    assert!(matches!(model_menu_step(2, 3, MenuKey::Down), ModelStep::Stay(0)));
    assert!(matches!(model_menu_step(2, 3, MenuKey::Esc), ModelStep::Back));
}

#[test]
fn menu_lines_carry_marker_number_and_note() {
    assert_eq!(menu_line(7, "Ollama", true, true), "> 8. Ollama");
    assert_eq!(menu_line(0, "OpenAI", false, false), "  1. OpenAI (n/a)");
}

#[test]
fn banner_art_has_its_six_lines() {
    assert_eq!(art_lines().len(), 6);
}

#[test]
fn truncation_keeps_short_text_and_marks_long_text() {
    assert_eq!(truncate_to_width("short", 10), "short");
    assert_eq!(truncate_to_width("hello world", 8), "hello...");
}

#[test]
fn prompt_and_line_count() {
    assert_eq!(prompt_string("abc"), "SCOUT > abc");
    assert_eq!(prompt_line_count(0, 80), 1);
    assert_eq!(prompt_line_count(80, 80), 1);
    assert_eq!(prompt_line_count(81, 80), 2);
    assert_eq!(prompt_line_count(161, 80), 3);
    assert_eq!(prompt_line_count(5, 0), 5);
}

#[test]
fn tags_answer_yields_the_model_names() {
    let body = "{\"models\":[{\"name\":\"llama3:8b\"},{\"name\":\"qwen\"},{\"size\":1}]}";
    let names = scout::menu::model_names_of(body).unwrap();
    assert_eq!(names, vec!["llama3:8b".to_string(), "qwen".to_string()]);
    assert!(scout::menu::model_names_of("{\"x\":1}").is_none());
    assert!(scout::menu::model_names_of("not json").is_none());
}
