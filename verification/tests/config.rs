use search_agent::config::{join_path, AppConfig};

#[test]
fn paths_under_home() {
    let c = AppConfig::for_home("/home/u");
    assert_eq!(c.data_dir, "/home/u/.search-agent");
    assert_eq!(c.sqlite_path, "/home/u/.search-agent/metadata.sqlite3");
    assert_eq!(c.vector_dir, "/home/u/.search-agent/vector_index");
    assert_eq!(c.keyword_dir, "/home/u/.search-agent/keyword_index");
    assert_eq!(c.log_dir, "/home/u/.search-agent/logs");
    assert_eq!(c.llama_endpoint, "http://127.0.0.1:11434");
    assert_eq!(c.llama_command, "ollama");
    assert_eq!(c.llama_args, vec!["serve"]);
    assert_eq!(c.embedding_endpoint, "http://127.0.0.1:11434/api/embeddings");
}

#[test]
fn joining_paths() {
    assert_eq!(join_path("/a/", "b"), "/a/b");
    assert_eq!(join_path("", "b"), "b");
    assert_eq!(join_path("/a", "b"), "/a/b");
}
