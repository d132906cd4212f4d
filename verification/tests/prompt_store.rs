//! The data layer: collection operations, searching, statistics, variables,
//! display strings, and configuration validation.

use promptheus::config::{Config, GeneralConfig, GistConfig, SortBy};
use promptheus::display::{format_prompt_for_selection, truncate_string, SearchEngine};
use promptheus::error::AppError;
use promptheus::manager::Manager;
use promptheus::prompts::{Prompt, PromptCollection};
use promptheus::storage::Storage;
use promptheus::vars::{
    parse_command_variables, parse_variables, prompt_for_variables, replace_command_variables,
};
use promptheus::clipboard::{clipboard_tools, DisplayServer};
use promptheus::sync::is_network_error_message;

fn test_config() -> Config {
    Config {
        general: GeneralConfig {
            prompt_file: "prompts.toml".to_string(),
            prompt_dirs: Vec::new(),
            editor: "vi".to_string(),
            select_cmd: "fzf".to_string(),
            default_tags: Vec::new(),
            auto_sync: false,
            sort_by: SortBy::Title,
            color: false,
            content_preview: true,
            search_case_sensitive: false,
            format: None,
        },
        gist: None,
        gitlab: None,
    }
}

fn prompt(id: &str, desc: &str, content: &str, tags: &[&str], category: Option<&str>, at: i64) -> Prompt {
    Prompt {
        id: Some(id.to_string()),
        description: desc.to_string(),
        content: content.to_string(),
        category: category.map(|c| c.to_string()),
        tag: if tags.is_empty() {
            None
        } else {
            Some(tags.iter().map(|t| t.to_string()).collect())
        },
        output: None,
        created_at: at,
        updated_at: at,
    }
}

#[test]
fn new_prompt_gets_a_fresh_identifier() {
    let p = Prompt::new("desc".to_string(), "content".to_string());
    let id = p.id.expect("a new prompt carries an identifier");
    assert_eq!(id.chars().count(), 36);
    assert_eq!(p.description, "desc");
    assert_eq!(p.content, "content");
    assert_eq!(p.created_at, p.updated_at);
}

#[test]
fn add_tag_skips_duplicates() {
    let mut p = Prompt::new("d".to_string(), "c".to_string());
    p.add_tag("work".to_string());
    p.add_tag("fun".to_string());
    p.add_tag("work".to_string());
    assert_eq!(p.tag, Some(vec!["work".to_string(), "fun".to_string()]));
}

#[test]
fn find_prompt_prefers_identifier_over_description() {
    let mut c = PromptCollection::new();
    c.add_prompt(prompt("id-a", "id-b", "x", &[], None, 1));
    c.add_prompt(prompt("id-b", "other", "y", &[], None, 2));
    let hit = c.find_prompt("id-b").expect("found");
    assert_eq!(hit.description, "other");
    let by_desc = c.find_prompt("id-b-nope");
    assert!(by_desc.is_none());
}

#[test]
fn collection_delete_removes_the_named_prompt() {
    let mut c = PromptCollection::new();
    c.add_prompt(prompt("one", "first", "x", &[], None, 1));
    c.add_prompt(prompt("two", "second", "y", &[], None, 2));
    let removed = c.delete_prompt("second").expect("removed");
    assert_eq!(removed.id, Some("two".to_string()));
    assert_eq!(c.prompts.len(), 1);
    assert!(c.delete_prompt("unknown").is_none());
    assert_eq!(c.prompts.len(), 1);
}

#[test]
fn search_filters_case_insensitively_and_sorts_by_title() {
    let mut c = PromptCollection::new();
    c.add_prompt(prompt("1", "zeta deploy", "DOCKER restart", &[], None, 1));
    c.add_prompt(prompt("2", "alpha deploy", "kubectl apply", &["ops"], None, 2));
    c.add_prompt(prompt("3", "unrelated", "notes", &[], None, 3));
    let cfg = test_config();
    let hits = c.search(Some("deploy"), None, &cfg);
    let descs: Vec<&str> = hits.iter().map(|p| p.description.as_str()).collect();
    assert_eq!(descs, vec!["alpha deploy", "zeta deploy"]);
    let by_content = c.search(Some("docker"), None, &cfg);
    assert_eq!(by_content.len(), 1);
    assert_eq!(by_content[0].description, "zeta deploy");
}

#[test]
fn search_by_tag_is_exact() {
    let mut c = PromptCollection::new();
    c.add_prompt(prompt("1", "a", "x", &["ops", "k8s"], None, 1));
    c.add_prompt(prompt("2", "b", "y", &["ops-extra"], None, 2));
    let cfg = test_config();
    let hits = c.search(None, Some("ops"), &cfg);
    assert_eq!(hits.len(), 1);
    assert_eq!(hits[0].description, "a");
}

#[test]
fn search_sorts_newest_first_under_recency() {
    let mut c = PromptCollection::new();
    c.add_prompt(prompt("1", "older", "x", &[], None, 100));
    c.add_prompt(prompt("2", "newer", "y", &[], None, 200));
    let mut cfg = test_config();
    cfg.general.sort_by = SortBy::Recency;
    let hits = c.search(None, None, &cfg);
    let descs: Vec<&str> = hits.iter().map(|p| p.description.as_str()).collect();
    assert_eq!(descs, vec!["newer", "older"]);
}

#[test]
fn tags_come_back_distinct_and_sorted() {
    let mut c = PromptCollection::new();
    c.add_prompt(prompt("1", "a", "x", &["zeta", "alpha"], None, 1));
    c.add_prompt(prompt("2", "b", "y", &["alpha", "mid"], None, 2));
    assert_eq!(
        c.get_all_tags(),
        vec!["alpha".to_string(), "mid".to_string(), "zeta".to_string()]
    );
}

#[test]
fn categories_drop_empties_and_duplicates() {
    let mut c = PromptCollection::new();
    c.add_prompt(prompt("1", "a", "x", &[], Some("work"), 1));
    c.add_prompt(prompt("2", "b", "y", &[], Some(""), 2));
    c.add_prompt(prompt("3", "c", "z", &[], Some("work"), 3));
    assert_eq!(c.get_categories(), vec!["work".to_string()]);
}

#[test]
fn stats_count_tags_and_categories() {
    let mut c = PromptCollection::new();
    c.add_prompt(prompt("1", "a", "x", &["ops", "k8s"], Some("infra"), 1));
    c.add_prompt(prompt("2", "b", "y", &["ops"], None, 2));
    c.add_prompt(prompt("3", "c", "z", &[], Some("infra"), 3));
    let stats = c.get_stats();
    assert_eq!(stats.total_prompts, 3);
    assert_eq!(stats.total_tags, 2);
    assert_eq!(stats.total_categories, 2);
    assert_eq!(
        stats.tag_counts,
        vec![("k8s".to_string(), 1), ("ops".to_string(), 2)]
    );
    assert_eq!(stats.category_counts, vec![("infra".to_string(), 2)]);
}

#[test]
fn stats_count_empty_string_categories_too() {
    // The category listing drops empty strings, but the statistics count
    // them: a prompt with an empty category still carries one.
    let mut c = PromptCollection::new();
    c.add_prompt(prompt("1", "a", "x", &[], Some(""), 1));
    c.add_prompt(prompt("2", "b", "y", &[], Some("work"), 2));
    let stats = c.get_stats();
    assert_eq!(stats.total_categories, 2);
    assert_eq!(
        stats.category_counts,
        vec![("".to_string(), 1), ("work".to_string(), 1)]
    );
    assert_eq!(c.get_categories(), vec!["work".to_string()]);
}

#[test]
fn manager_delete_drops_by_identifier() {
    let mut m = Manager::new(test_config());
    m.add_prompt(prompt("keep", "a", "x", &[], None, 1));
    m.add_prompt(prompt("drop", "b", "y", &[], None, 2));
    m.delete_prompt("drop");
    assert_eq!(m.collection.prompts.len(), 1);
    assert_eq!(m.collection.prompts[0].id, Some("keep".to_string()));
}

#[test]
fn manager_recovers_selection_index_by_equality() {
    let m = Manager::new(test_config());
    let display = vec!["[a]:".to_string(), "[b]:".to_string()];
    assert_eq!(m.select_interactive(&display, Some("[b]:")), Some(1));
    assert_eq!(m.select_interactive(&display, Some("[zz]:")), None);
    assert_eq!(m.select_interactive(&display, None), None);
}

#[test]
fn storage_update_replaces_by_identifier() {
    let mut s = Storage::new(test_config());
    s.add_prompt(prompt("u1", "old", "x", &[], None, 1));
    let newer = prompt("u1", "newer", "z", &[], None, 5);
    assert!(s.update_prompt(&newer).is_ok());
    assert_eq!(s.collection.prompts[0].description, "newer");

    let missing = prompt("u9", "none", "z", &[], None, 5);
    match s.update_prompt(&missing) {
        Err(AppError::System(m)) => assert_eq!(m, "Prompt not found: u9"),
        _ => panic!("expected a not-found error"),
    }
    let mut unidentified = prompt("u1", "x", "y", &[], None, 1);
    unidentified.id = None;
    match s.update_prompt(&unidentified) {
        Err(AppError::System(m)) => assert_eq!(m, "Prompt ID is missing"),
        _ => panic!("expected a missing-id error"),
    }
}

#[test]
fn storage_stats_count_every_tag_entry() {
    let mut s = Storage::new(test_config());
    s.add_prompt(prompt("1", "a", "x", &["ops", "k8s"], None, 1));
    s.add_prompt(prompt("2", "b", "y", &["ops"], None, 2));
    let stats = s.get_prompt_stats();
    assert_eq!(stats.total_tags, 3);
}

#[test]
fn storage_categories_keep_empty_strings() {
    let mut s = Storage::new(test_config());
    s.add_prompt(prompt("1", "a", "x", &[], Some(""), 1));
    s.add_prompt(prompt("2", "b", "y", &[], Some("work"), 2));
    assert_eq!(s.get_categories(), vec!["".to_string(), "work".to_string()]);
}

#[test]
fn display_line_carries_description_category_tags_and_preview() {
    let p = prompt("1", "deploy", "kubectl apply", &["ops"], Some("infra"), 1);
    let cfg = test_config();
    assert_eq!(
        format_prompt_for_selection(&p, &cfg),
        "[deploy]: [infra] #ops\nkubectl apply"
    );
}

#[test]
fn display_line_round_trips_to_the_prompt_index() {
    let cfg = test_config();
    let prompts = vec![
        prompt("1", "alpha", "x", &[], None, 1),
        prompt("2", "beta", "y", &["t"], Some("c"), 2),
    ];
    let line = format_prompt_for_selection(&prompts[1], &cfg);
    assert_eq!(SearchEngine::find_by_display_line(&prompts, &line), Some(1));
    assert_eq!(SearchEngine::find_by_display_line(&prompts, "no brackets"), None);
}

#[test]
fn truncation_marks_cut_content() {
    assert_eq!(truncate_string("short", 10), "short");
    assert_eq!(truncate_string("0123456789", 8), "01234...");
}

#[test]
fn command_variables_parse_names_and_defaults() {
    let vars = parse_command_variables("run <env=dev> in <region> now");
    assert_eq!(
        vars,
        vec![
            ("env".to_string(), Some("dev".to_string())),
            ("region".to_string(), None),
        ]
    );
    assert!(parse_command_variables("no placeholders <> here").is_empty());
}

#[test]
fn command_variables_replace_with_values_then_defaults() {
    let assignments = vec![("region".to_string(), "eu".to_string())];
    assert_eq!(
        replace_command_variables("run <env=dev> in <region>", &assignments),
        "run dev in eu"
    );
    let none: Vec<(String, String)> = Vec::new();
    assert_eq!(replace_command_variables("drop <gone>", &none), "drop ");
}

#[test]
fn prompted_variable_values_fall_back_to_defaults() {
    let variables = vec![
        ("env".to_string(), Some("dev".to_string())),
        ("region".to_string(), None),
    ];
    let inputs = vec!["".to_string(), "eu".to_string()];
    assert_eq!(
        prompt_for_variables(&variables, &inputs),
        vec![
            ("env".to_string(), "dev".to_string()),
            ("region".to_string(), "eu".to_string()),
        ]
    );
}

#[test]
fn a_later_duplicate_key_overwrites_the_earlier_one() {
    let assignments =
        parse_variables(&vec!["k=a".to_string(), "k=b".to_string()]).unwrap();
    assert_eq!(
        assignments,
        vec![("k".to_string(), "a".to_string()), ("k".to_string(), "b".to_string())]
    );
    assert_eq!(replace_command_variables("<k>", &assignments), "b");
}

#[test]
fn key_value_arguments_parse_or_name_the_offender() {
    let ok = parse_variables(&vec!["a = 1".to_string(), "b=2".to_string()]).unwrap();
    assert_eq!(
        ok,
        vec![("a".to_string(), "1".to_string()), ("b".to_string(), "2".to_string())]
    );
    match parse_variables(&vec!["a=1".to_string(), "broken".to_string()]) {
        Err(AppError::System(m)) => {
            assert_eq!(m, "Invalid variable format: broken. Expected key=value")
        },
        _ => panic!("expected a format error"),
    }
}

#[test]
fn validation_names_the_first_fault() {
    let mut cfg = test_config();
    assert!(cfg.validate(false).is_ok());
    cfg.general.editor = "".to_string();
    match cfg.validate(false) {
        Err(AppError::System(m)) => assert_eq!(m, "Editor cannot be empty"),
        _ => panic!("expected a fault"),
    }
    cfg.general.editor = "vi".to_string();
    cfg.gist = Some(GistConfig {
        file_name: "prompts.txt".to_string(),
        access_token: None,
        gist_id: None,
        public: false,
        auto_sync: false,
    });
    match cfg.validate(false) {
        Err(AppError::System(m)) => {
            assert_eq!(m, "Gist file name should have .toml extension for proper prompt storage")
        },
        _ => panic!("expected an extension fault"),
    }
    cfg.gist = Some(GistConfig {
        file_name: "prompts.TOML".to_string(),
        access_token: None,
        gist_id: None,
        public: false,
        auto_sync: false,
    });
    assert!(cfg.validate(false).is_ok());
}

#[test]
fn a_bare_dotfile_name_has_no_extension() {
    // ".toml" is a hidden file without an extension, so gist sync rejects
    // it just as a name without any dot.
    let mut cfg = test_config();
    cfg.gist = Some(GistConfig {
        file_name: ".toml".to_string(),
        access_token: None,
        gist_id: None,
        public: false,
        auto_sync: false,
    });
    match cfg.validate(false) {
        Err(AppError::System(m)) => {
            assert_eq!(m, "Gist file name should have .toml extension for proper prompt storage")
        },
        _ => panic!("expected an extension fault"),
    }
}

#[test]
fn selection_pairs_hold_the_category_matches_in_order() {
    let mut m = Manager::new(test_config());
    m.add_prompt(prompt("1", "zeta", "x", &[], Some("work"), 1));
    m.add_prompt(prompt("2", "alpha", "y", &[], Some("work"), 2));
    m.add_prompt(prompt("3", "mid", "z", &[], Some("play"), 3));
    let pairs = m.search_and_format_for_selection(None, None, Some("work"));
    let descs: Vec<&str> = pairs.iter().map(|(p, _)| p.description.as_str()).collect();
    assert_eq!(descs, vec!["alpha", "zeta"]);
    assert_eq!(pairs[0].1, "[alpha]: [work]
y");
}

#[test]
fn network_sounding_messages_are_classified() {
    assert!(is_network_error_message("Connection refused by host"));
    assert!(is_network_error_message("TLS: bad CERTIFICATE chain"));
    assert!(!is_network_error_message("file missing"));
}

#[test]
fn clipboard_tool_order_follows_the_display_server() {
    let wayland = clipboard_tools(&DisplayServer::Wayland);
    assert_eq!(wayland[0].0, "wl-copy");
    assert!(wayland[0].1.is_empty());
    let x11 = clipboard_tools(&DisplayServer::X11);
    assert_eq!(x11[0].0, "xclip");
    assert_eq!(x11[0].1, vec!["-selection".to_string(), "clipboard".to_string()]);
    let unknown = clipboard_tools(&DisplayServer::Unknown);
    assert_eq!(unknown[0].0, "wl-copy");
}

#[test]
fn error_messages_carry_their_kind() {
    assert_eq!(
        AppError::Network("down".to_string()).message(),
        "Network error: down"
    );
    assert_eq!(AppError::Io("denied".to_string()).message(), "IO error: denied");
}
