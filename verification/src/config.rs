//! Where the application keeps its data, and how it reaches the local model server.
use vstd::prelude::*;

verus! {

broadcast use vstd::string::group_string_axioms;

/// The application's paths and server settings.
#[derive(Debug, Clone)]
pub struct AppConfig {
    pub data_dir: String,
    pub sqlite_path: String,
    pub vector_dir: String,
    pub keyword_dir: String,
    pub log_dir: String,
    pub llama_endpoint: String,
    pub llama_command: String,
    pub llama_args: Vec<String>,
    pub embedding_endpoint: String,
}

/// `base` joined with the relative path `name` (`Path::join` on Unix): `name` alone after an
/// empty base, without a separator after a base that ends in one, else with a `/` between.
pub open spec fn path_join(base: Seq<char>, name: Seq<char>) -> Seq<char> {
    if base.len() == 0 {
        name
    } else if base.last() == '/' {
        base + name
    } else {
        base + "/"@ + name
    }
}

/// `base` joined with the relative path `name` (see `path_join`).
pub fn join_path(base: &str, name: &str) -> (r: String)
    ensures
        r@ == path_join(base@, name@),
{
    let b = crate::text::chars_of(base);
    if b.len() == 0 {
        String::from_str(name)
    } else if b[b.len() - 1] == '/' {
        String::from_str(base).concat(name)
    } else {
        String::from_str(base).concat("/").concat(name)
    }
}

/// The directory under the home directory that holds everything the application stores.
pub open spec fn data_dir_of(home: Seq<char>) -> Seq<char> {
    path_join(home, ".search-agent"@)
}

impl AppConfig {
    /// The configuration for the home directory `home`: the data directory `.search-agent` in it,
    /// holding `metadata.sqlite3`, `vector_index`, `keyword_index` and `logs`; the local Ollama
    /// server at port 11434, started with `ollama serve`.
    pub fn for_home(home: &str) -> (r: AppConfig)
        ensures
            r.data_dir@ == data_dir_of(home@),
            r.sqlite_path@ == path_join(data_dir_of(home@), "metadata.sqlite3"@),
            r.vector_dir@ == path_join(data_dir_of(home@), "vector_index"@),
            r.keyword_dir@ == path_join(data_dir_of(home@), "keyword_index"@),
            r.log_dir@ == path_join(data_dir_of(home@), "logs"@),
            r.llama_endpoint@ == "http://127.0.0.1:11434"@,
            r.llama_command@ == "ollama"@,
            r.llama_args@.len() == 1,
            r.llama_args@[0]@ == "serve"@,
            r.embedding_endpoint@ == "http://127.0.0.1:11434/api/embeddings"@,
    {
        let data_dir = join_path(home, ".search-agent");
        let sqlite_path = join_path(data_dir.as_str(), "metadata.sqlite3");
        let vector_dir = join_path(data_dir.as_str(), "vector_index");
        let keyword_dir = join_path(data_dir.as_str(), "keyword_index");
        let log_dir = join_path(data_dir.as_str(), "logs");
        let mut llama_args: Vec<String> = Vec::new();
        llama_args.push(String::from_str("serve"));
        AppConfig {
            data_dir,
            sqlite_path,
            vector_dir,
            keyword_dir,
            log_dir,
            llama_endpoint: String::from_str("http://127.0.0.1:11434"),
            llama_command: String::from_str("ollama"),
            llama_args,
            embedding_endpoint: String::from_str("http://127.0.0.1:11434/api/embeddings"),
        }
    }
}

} // verus!
