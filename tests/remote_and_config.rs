use kb_core::cli::{output_format, Cli, OutputFormat};
use kb_core::config::{choose_api_key, default_extensions, is_indexable, AppConfig};
use kb_core::remote::{
    collection, collection_op_url, collections_url, context_chunk, context_chunks, create_outcome,
    find_collection_id, is_success, search_hits, CollectionInfo, CreateOutcome, EmbeddingRequest,
    SearchHit,
};

#[test]
fn collection_addresses() {
    assert_eq!(
        collections_url("http://h:8000"),
        "http://h:8000/api/v2/tenants/default_tenant/databases/default_database/collections"
    );
    assert_eq!(
        collection_op_url("http://h", "abc", "add"),
        "http://h/api/v2/tenants/default_tenant/databases/default_database/collections/abc/add"
    );
    assert_eq!(collection(), "kb_index");
}

#[test]
fn create_collection_outcomes() {
    assert_eq!(create_outcome(409), CreateOutcome::AlreadyExists);
    assert_eq!(create_outcome(200), CreateOutcome::Created);
    assert_eq!(create_outcome(201), CreateOutcome::Created);
    assert_eq!(create_outcome(500), CreateOutcome::Failed);
    assert_eq!(create_outcome(404), CreateOutcome::Failed);
    assert!(is_success(204));
    assert!(!is_success(300));
}

#[test]
fn collection_id_by_name() {
    let list = vec![
        CollectionInfo { name: Some("other".into()), id: Some("1".into()) },
        CollectionInfo { name: Some("kb_index".into()), id: None },
        CollectionInfo { name: None, id: Some("2".into()) },
        CollectionInfo { name: Some("kb_index".into()), id: Some("3".into()) },
        CollectionInfo { name: Some("kb_index".into()), id: Some("4".into()) },
    ];
    assert_eq!(find_collection_id(&list, "kb_index"), Some("3".to_string()));
    assert_eq!(find_collection_id(&list, "missing"), None);
    assert_eq!(find_collection_id(&vec![], "kb_index"), None);
}

#[test]
fn search_hits_with_placeholders() {
    let docs = vec![Some("text a".to_string()), None, Some("text c".to_string())];
    let sources = vec![Some("a.rs".to_string()), None];
    let hits = search_hits(&docs, &sources);
    assert_eq!(
        hits,
        vec![
            SearchHit { index: 1, source: "a.rs".into(), content: "text a".into() },
            SearchHit { index: 2, source: "<unknown>".into(), content: "<invalid UTF-8>".into() },
            SearchHit { index: 3, source: "<unknown>".into(), content: "text c".into() },
        ]
    );
    let ctx = context_chunks(&hits);
    assert_eq!(ctx[0], "**File:** `a.rs`\n\n```rs\ntext a\n```");
    assert_eq!(ctx[1], "**File:** `<unknown>`\n\n```text\n<invalid UTF-8>\n```");
}

#[test]
fn context_chunk_language_from_extension() {
    assert_eq!(context_chunk("dir/x.tsx", "code"), "**File:** `dir/x.tsx`\n\n```tsx\ncode\n```");
    assert_eq!(context_chunk("Makefile", "all:"), "**File:** `Makefile`\n\n```text\nall:\n```");
    assert_eq!(context_chunk(".bashrc", "x"), "**File:** `.bashrc`\n\n```text\nx\n```");
}

#[test]
fn embedding_request_for_one_text() {
    let r = EmbeddingRequest::for_text("hi", "m");
    assert_eq!(r.input, vec!["hi".to_string()]);
    assert_eq!(r.model, "m");
}

#[test]
fn config_defaults_and_keys() {
    assert_eq!(default_extensions(), vec!["md", "rs", "tsx", "ts", "js", "jsx", "html"]);
    let mut c = AppConfig::with_defaults(None);
    assert_eq!(c.chroma_host, "http://localhost:8000");
    assert_eq!(c.openai_completion_model, "gpt-4");
    assert_eq!(c.openai_embedding_model, "text-embedding-3-large");
    assert_eq!(c.syntax_theme, Some("gruvbox-dark".to_string()));
    c.apply_env_key(None);
    assert_eq!(c.openai_api_key, None);
    c.apply_env_key(Some("k".into()));
    assert_eq!(c.openai_api_key, Some("k".to_string()));
    c.file_extensions = Some(vec!["txt".into()]);
    assert_eq!(c.allowed_extensions(), vec!["txt".to_string()]);
    c.file_extensions = None;
    assert_eq!(c.allowed_extensions(), default_extensions());
    assert_eq!(choose_api_key(Some("e".into()), Some("c".into())), Some("e".to_string()));
    assert_eq!(choose_api_key(Some("".into()), Some("c".into())), Some("c".to_string()));
    assert_eq!(choose_api_key(None, Some("".into())), None);
    assert_eq!(choose_api_key(None, None), None);
}

#[test]
fn indexable_files_by_extension() {
    let allowed = default_extensions();
    assert!(is_indexable("src/main.rs", &allowed));
    assert!(is_indexable("README.md", &allowed));
    assert!(!is_indexable("image.png", &allowed));
    assert!(!is_indexable("Makefile", &allowed));
    assert!(!is_indexable(".md", &allowed));
}

#[test]
fn output_formats_and_commands() {
    assert_eq!(output_format("json"), OutputFormat::Json);
    assert_eq!(output_format("markdown"), OutputFormat::Markdown);
    assert_eq!(output_format("smart"), OutputFormat::Smart);
    assert_eq!(output_format("pretty"), OutputFormat::Pretty);
    assert_eq!(output_format("other"), OutputFormat::Pretty);
    assert!(!Cli::Config { set_api_key: None, show: true }.needs_api_key());
    assert!(Cli::Index { path: ".".into() }.needs_api_key());
}
