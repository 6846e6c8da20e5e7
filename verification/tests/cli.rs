use std::path::PathBuf;

use vsgrep::chunk::ChunkConfig;

use vsgrep::cli::{Action, Cli, Command, GlobalArgs, IndexArgs, ModelCmd, SearchArgs, StatusArgs};

fn search(query: Option<&str>) -> SearchArgs {
    SearchArgs {
        query: query.map(|q| q.to_string()),
        paths: vec![],
        top_k: 10,
        threshold_bits: None,
        types: vec![],
        globs: vec![],
        score: false,
        context: 0,
        heading: false,
        ef: None,
        chunk_size: 20,
        chunk_overlap: 5,
        hybrid: false,
    }
}

fn global() -> GlobalArgs {
    GlobalArgs {
        json: false,
        timings: None,
        trace: None,
        no_cache: false,
        model: None,
    }
}

fn cli(query: Option<&str>, command: Option<Command>) -> Cli {
    Cli {
        global: global(),
        search: search(query),
        command,
    }
}

#[test]
fn chunk_validates_overlap_lt_size() {
    let mut args = search(Some("q"));
    args.chunk_size = 5;
    args.chunk_overlap = 5;
    assert!(args.validate_chunk_args().is_err());
}

#[test]
fn chunk_validates_size_nonzero() {
    let mut args = search(Some("q"));
    args.chunk_size = 0;
    assert!(args.validate_chunk_args().is_err());
}

#[test]
fn chunk_args_messages() {
    let mut args = search(Some("q"));
    args.chunk_size = 0;
    assert_eq!(
        args.validate_chunk_args().unwrap_err(),
        "--chunk-size must be > 0"
    );
    args.chunk_size = 12;
    args.chunk_overlap = 130;
    assert_eq!(
        args.validate_chunk_args().unwrap_err(),
        "--chunk-overlap (130) must be less than --chunk-size (12)"
    );
    args.chunk_overlap = 11;
    assert!(args.validate_chunk_args().is_ok());
}

#[test]
fn chunk_args_agree_with_chunk_config() {
    for size in 0..8usize {
        for overlap in 0..10usize {
            let mut args = search(Some("q"));
            args.chunk_size = size;
            args.chunk_overlap = overlap;
            let cfg = ChunkConfig {
                size,
                overlap,
                ..ChunkConfig::default()
            };
            assert_eq!(args.validate_chunk_args().is_ok(), cfg.validate().is_ok());
        }
    }
}

#[test]
fn bare_query_is_a_search() {
    assert_eq!(cli(Some("retry logic"), None).action(), Some(Action::Search));
    assert_eq!(Action::Search.label(), "search");
}

#[test]
fn missing_query_has_no_action() {
    assert_eq!(cli(None, None).action(), None);
}

#[test]
fn subcommands_have_actions() {
    let index = Command::Index(IndexArgs {
        paths: vec![],
        watch: true,
        no_gitignore: false,
    });
    assert_eq!(cli(None, Some(index)).action(), Some(Action::Index));
    assert_eq!(
        cli(None, Some(Command::Status(StatusArgs {}))).action(),
        Some(Action::Status)
    );
    assert_eq!(cli(Some("q"), Some(Command::Clean)).action(), Some(Action::Clean));
    let add = Command::Model {
        action: ModelCmd::Add {
            onnx: PathBuf::from("./m.onnx"),
            tokenizer: Some(PathBuf::from("./tok.json")),
        },
    };
    assert_eq!(cli(None, Some(add)).action(), Some(Action::ModelAdd));
    let use_ = Command::Model {
        action: ModelCmd::Use {
            name: "e5-small".to_string(),
        },
    };
    assert_eq!(cli(None, Some(use_)).action(), Some(Action::ModelUse));
    let list = Command::Model {
        action: ModelCmd::List,
    };
    assert_eq!(cli(None, Some(list)).action(), Some(Action::ModelList));
    assert_eq!(Action::ModelList.label(), "model list");
    assert_eq!(Action::ModelUse.label(), "model use");
    assert_eq!(Action::ModelAdd.label(), "model add");
    assert_eq!(Action::Index.label(), "index");
    assert_eq!(Action::Status.label(), "status");
    assert_eq!(Action::Clean.label(), "clean");
}
