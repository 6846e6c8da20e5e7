//! The command-line model: what `vsgrep` accepts on its command line, and the
//! checks that the parser cannot express.

use crate::chunk::ChunkConfig;
use crate::text::{decimal, push_decimal};
use std::path::PathBuf;
use vstd::prelude::*;
use vstd::string::StringExecFns;

verus! {

/// The whole command line.
#[derive(Debug)]
pub struct Cli {
    pub global: GlobalArgs,
    pub search: SearchArgs,
    pub command: Option<Command>,
}

/// Options accepted before or after any subcommand.
#[derive(Debug)]
pub struct GlobalArgs {
    pub json: bool,
    pub timings: Option<Option<String>>,
    pub trace: Option<PathBuf>,
    pub no_cache: bool,
    pub model: Option<String>,
}

/// The search form: `vsgrep [OPTIONS] QUERY [PATH]...`.
#[derive(Debug)]
pub struct SearchArgs {
    pub query: Option<String>,
    pub paths: Vec<PathBuf>,
    pub top_k: usize,
    /// The `--threshold` score, as the bits of an IEEE 754 single-precision float.
    pub threshold_bits: Option<u32>,
    pub types: Vec<String>,
    pub globs: Vec<String>,
    pub score: bool,
    pub context: usize,
    pub heading: bool,
    pub ef: Option<usize>,
    pub chunk_size: usize,
    pub chunk_overlap: usize,
    pub hybrid: bool,
}

/// Subcommands.
#[derive(Debug)]
pub enum Command {
    /// Build or update the persistent index.
    Index(IndexArgs),
    /// Show statistics about the current index.
    Status(StatusArgs),
    /// Remove the `.vsgrep/` directory.
    Clean,
    /// Manage embedding models.
    Model { action: ModelCmd },
}

/// Arguments of `vsgrep index`.
#[derive(Debug)]
pub struct IndexArgs {
    pub paths: Vec<PathBuf>,
    pub watch: bool,
    pub no_gitignore: bool,
}

/// Arguments of `vsgrep status`.
#[derive(Debug)]
pub struct StatusArgs {}

/// Subcommands of `vsgrep model`.
#[derive(Debug)]
pub enum ModelCmd {
    /// List available embedding models.
    List,
    /// Switch the default embedding model (requires reindex).
    Use { name: String },
    /// Register a local ONNX model.
    Add { onnx: PathBuf, tokenizer: Option<PathBuf> },
}

/// The message for a rejected pair of chunk parameters, or `None` when the
/// pair is accepted.
pub open spec fn chunk_args_error(size: nat, overlap: nat) -> Option<Seq<char>> {
    if size == 0 {
        Some("--chunk-size must be > 0"@)
    } else if overlap >= size {
        Some(
            "--chunk-overlap ("@ + decimal(overlap) + ") must be less than --chunk-size ("@
                + decimal(size) + ")"@,
        )
    } else {
        None
    }
}

impl SearchArgs {
    /// Validate chunk parameters that the parser cannot express as type constraints.
    pub fn validate_chunk_args(&self) -> (r: Result<(), String>)
        ensures
            r is Ok <==> chunk_args_error(self.chunk_size as nat, self.chunk_overlap as nat) is None,
            r is Ok <==> self.chunk_size > 0 && self.chunk_overlap < self.chunk_size,
            r matches Err(msg) ==> Some(msg@) == chunk_args_error(
                self.chunk_size as nat,
                self.chunk_overlap as nat,
            ),
    {
        if self.chunk_size == 0 {
            return Err(String::from_str("--chunk-size must be > 0"));
        }
        if self.chunk_overlap >= self.chunk_size {
            let mut msg = String::from_str("--chunk-overlap (");
            push_decimal(&mut msg, self.chunk_overlap);
            msg.append(") must be less than --chunk-size (");
            push_decimal(&mut msg, self.chunk_size);
            msg.append(")");
            return Err(msg);
        }
        Ok(())
    }
}

/// The command line's chunk checks accept exactly the window sizes and
/// overlaps that `ChunkConfig::validate` accepts.
pub proof fn lemma_chunk_args_match_config(args: SearchArgs, cfg: ChunkConfig)
    requires
        args.chunk_size == cfg.size,
        args.chunk_overlap == cfg.overlap,
    ensures
        chunk_args_error(args.chunk_size as nat, args.chunk_overlap as nat) is None <==> cfg.is_valid(),
{
}

/// The chunk checks accept exactly a positive window size with an overlap
/// below it, no overlap at all included.
pub proof fn lemma_chunk_args_accepted(size: nat, overlap: nat)
    ensures
        chunk_args_error(size, overlap) is None <==> size > 0 && overlap < size,
{
}

/// What an invocation asks for.
#[derive(Debug, Clone, Copy, PartialEq, Eq)]
pub enum Action {
    Search,
    Index,
    Status,
    Clean,
    ModelList,
    ModelUse,
    ModelAdd,
}

/// The action of a command line, or `None` when it names no subcommand and no
/// query (the search form needs a query).
pub open spec fn spec_action(cli: Cli) -> Option<Action> {
    match cli.command {
        None => if cli.search.query is Some {
            Some(Action::Search)
        } else {
            None
        },
        Some(Command::Index(_)) => Some(Action::Index),
        Some(Command::Status(_)) => Some(Action::Status),
        Some(Command::Clean) => Some(Action::Clean),
        Some(Command::Model { action }) => match action {
            ModelCmd::List => Some(Action::ModelList),
            ModelCmd::Use { .. } => Some(Action::ModelUse),
            ModelCmd::Add { .. } => Some(Action::ModelAdd),
        },
    }
}

impl Cli {
    /// The action this command line asks for; `None` when a query is missing.
    pub fn action(&self) -> (r: Option<Action>)
        ensures
            r == spec_action(*self),
    {
        match &self.command {
            None => if self.search.query.is_some() {
                Some(Action::Search)
            } else {
                None
            },
            Some(Command::Index(_)) => Some(Action::Index),
            Some(Command::Status(_)) => Some(Action::Status),
            Some(Command::Clean) => Some(Action::Clean),
            Some(Command::Model { action }) => match action {
                ModelCmd::List => Some(Action::ModelList),
                ModelCmd::Use { .. } => Some(Action::ModelUse),
                ModelCmd::Add { .. } => Some(Action::ModelAdd),
            },
        }
    }
}

impl Action {
    /// The name under which an action is reported.
    pub open spec fn spec_label(self) -> Seq<char> {
        match self {
            Action::Search => "search"@,
            Action::Index => "index"@,
            Action::Status => "status"@,
            Action::Clean => "clean"@,
            Action::ModelList => "model list"@,
            Action::ModelUse => "model use"@,
            Action::ModelAdd => "model add"@,
        }
    }

    /// The name under which an action is reported.
    pub fn label(&self) -> (r: &'static str)
        ensures
            r@ == self.spec_label(),
    {
        match self {
            Action::Search => "search",
            Action::Index => "index",
            Action::Status => "status",
            Action::Clean => "clean",
            Action::ModelList => "model list",
            Action::ModelUse => "model use",
            Action::ModelAdd => "model add",
        }
    }
}

} // verus!
