//! The errors of the stages, each with a message and the messages of what caused it.

use crate::text;
use vstd::prelude::*;

verus! {

/// An error that can name what caused it.
pub trait ErrorChain {
    /// The text that describes the error.
    spec fn message_text(&self) -> Seq<char>;

    /// The texts that describe its cause, the cause of that, and so on.
    spec fn cause_texts(&self) -> Seq<Seq<char>>;

    /// The text that describes the error.
    fn message(&self) -> (res: String)
        ensures
            res@ == self.message_text(),
    ;

    /// The texts that describe its cause, the cause of that, and so on.
    fn causes(&self) -> (res: Vec<String>)
        ensures
            text::texts(res@) == self.cause_texts(),
    ;
}

/// The message of an error with those of its causes behind it.
pub open spec fn chain_of<E: ErrorChain>(e: E) -> Seq<Seq<char>> {
    seq![e.message_text()] + e.cause_texts()
}

/// The message of an error with those of its causes behind it.
pub fn flatten_error_chain<E: ErrorChain>(e: &E) -> (res: Vec<String>)
    ensures
        text::texts(res@) == chain_of(*e),
{
    let mut out: Vec<String> = Vec::new();
    let message = e.message();
    out.push(message);
    let mut rest = e.causes();
    let ghost tail = text::texts(rest@);
    assert(text::texts(out@) == seq![message@]);
    out.append(&mut rest);
    assert(text::texts(out@) == seq![message@] + tail);
    out
}

/// `a` with `b` behind it.
fn joined_pair(a: &str, b: &str) -> (res: String)
    ensures
        res@ == a@ + b@,
{
    let mut out = String::new();
    out.append(a);
    out.append(b);
    assert(out@ == a@ + b@);
    out
}

/// Why texts could not be embedded.
#[derive(Debug)]
pub enum EmbedError {
    Reqwest { op: &'static str, causes: Vec<String> },
}

impl ErrorChain for EmbedError {
    open spec fn message_text(&self) -> Seq<char> {
        match self {
            EmbedError::Reqwest { op, .. } => "embed request failed at "@ + op@,
        }
    }

    open spec fn cause_texts(&self) -> Seq<Seq<char>> {
        match self {
            EmbedError::Reqwest { causes, .. } => text::texts(causes@),
        }
    }

    fn message(&self) -> (res: String) {
        match self {
            EmbedError::Reqwest { op, .. } => joined_pair("embed request failed at ", op),
        }
    }

    fn causes(&self) -> (res: Vec<String>) {
        match self {
            EmbedError::Reqwest { causes, .. } => text::copy_texts(causes),
        }
    }
}

/// Why no answer could be generated.
#[derive(Debug)]
pub enum GenerateError {
    Reqwest { op: &'static str, causes: Vec<String> },
}

impl ErrorChain for GenerateError {
    open spec fn message_text(&self) -> Seq<char> {
        match self {
            GenerateError::Reqwest { op, .. } => "generate request failed at "@ + op@,
        }
    }

    open spec fn cause_texts(&self) -> Seq<Seq<char>> {
        match self {
            GenerateError::Reqwest { causes, .. } => text::texts(causes@),
        }
    }

    fn message(&self) -> (res: String) {
        match self {
            GenerateError::Reqwest { op, .. } => joined_pair("generate request failed at ", op),
        }
    }

    fn causes(&self) -> (res: Vec<String>) {
        match self {
            GenerateError::Reqwest { causes, .. } => text::copy_texts(causes),
        }
    }
}

/// Why a question could not be rewritten.
#[derive(Debug)]
pub enum RewriteError {
    Reqwest { op: &'static str, causes: Vec<String> },
    Serde { op: &'static str, causes: Vec<String> },
}

impl ErrorChain for RewriteError {
    open spec fn message_text(&self) -> Seq<char> {
        match self {
            RewriteError::Reqwest { op, .. } => "rewrite request failed at "@ + op@,
            RewriteError::Serde { op, .. } => "rewrite request failed at "@ + op@,
        }
    }

    open spec fn cause_texts(&self) -> Seq<Seq<char>> {
        match self {
            RewriteError::Reqwest { causes, .. } => text::texts(causes@),
            RewriteError::Serde { causes, .. } => text::texts(causes@),
        }
    }

    fn message(&self) -> (res: String) {
        match self {
            RewriteError::Reqwest { op, .. } => joined_pair("rewrite request failed at ", op),
            RewriteError::Serde { op, .. } => joined_pair("rewrite request failed at ", op),
        }
    }

    fn causes(&self) -> (res: Vec<String>) {
        match self {
            RewriteError::Reqwest { causes, .. } => text::copy_texts(causes),
            RewriteError::Serde { causes, .. } => text::copy_texts(causes),
        }
    }
}

/// Why a question could not be routed to a game.
#[derive(Debug)]
pub enum RouteError {
    Reqwest { op: &'static str, causes: Vec<String> },
    Serde { op: &'static str, causes: Vec<String> },
}

impl ErrorChain for RouteError {
    open spec fn message_text(&self) -> Seq<char> {
        match self {
            RouteError::Reqwest { op, .. } => "route request failed at "@ + op@,
            RouteError::Serde { op, .. } => "route request failed at "@ + op@,
        }
    }

    open spec fn cause_texts(&self) -> Seq<Seq<char>> {
        match self {
            RouteError::Reqwest { causes, .. } => text::texts(causes@),
            RouteError::Serde { causes, .. } => text::texts(causes@),
        }
    }

    fn message(&self) -> (res: String) {
        match self {
            RouteError::Reqwest { op, .. } => joined_pair("route request failed at ", op),
            RouteError::Serde { op, .. } => joined_pair("route request failed at ", op),
        }
    }

    fn causes(&self) -> (res: Vec<String>) {
        match self {
            RouteError::Reqwest { causes, .. } => text::copy_texts(causes),
            RouteError::Serde { causes, .. } => text::copy_texts(causes),
        }
    }
}

/// Why chunks could not be reranked.
#[derive(Debug)]
pub enum RerankError {
    Http { op: &'static str, causes: Vec<String> },
}

impl ErrorChain for RerankError {
    open spec fn message_text(&self) -> Seq<char> {
        match self {
            RerankError::Http { op, .. } => "reranker sidecar request failed at "@ + op@ + " — is it running? start it with `rerank-sidecar/run.sh`"@,
        }
    }

    open spec fn cause_texts(&self) -> Seq<Seq<char>> {
        match self {
            RerankError::Http { causes, .. } => text::texts(causes@),
        }
    }

    fn message(&self) -> (res: String) {
        match self {
            RerankError::Http { op, .. } => joined_pair(
                joined_pair("reranker sidecar request failed at ", op).as_str(),
                " — is it running? start it with `rerank-sidecar/run.sh`",
            ),
        }
    }

    fn causes(&self) -> (res: Vec<String>) {
        match self {
            RerankError::Http { causes, .. } => text::copy_texts(causes),
        }
    }
}

/// Why the store failed.
#[derive(Debug)]
pub enum StoreError {
    Lance { op: &'static str, causes: Vec<String> },
    SchemaMismatch { expected: String, actual: String },
}

impl ErrorChain for StoreError {
    open spec fn message_text(&self) -> Seq<char> {
        match self {
            StoreError::Lance { op, .. } => "LanceDB failure at "@ + op@,
            StoreError::SchemaMismatch { .. } => "schema in DB does not match expected schema"@,
        }
    }

    open spec fn cause_texts(&self) -> Seq<Seq<char>> {
        match self {
            StoreError::Lance { causes, .. } => text::texts(causes@),
            StoreError::SchemaMismatch { .. } => seq![],
        }
    }

    fn message(&self) -> (res: String) {
        match self {
            StoreError::Lance { op, .. } => joined_pair("LanceDB failure at ", op),
            StoreError::SchemaMismatch { .. } => text::owned("schema in DB does not match expected schema"),
        }
    }

    fn causes(&self) -> (res: Vec<String>) {
        match self {
            StoreError::Lance { causes, .. } => text::copy_texts(causes),
            StoreError::SchemaMismatch { .. } => Vec::new(),
        }
    }
}

/// Why nothing could be retrieved.
#[derive(Debug)]
pub enum RetrieveError {
    Embed(EmbedError),
    Store(StoreError),
    Rewrite(RewriteError),
}

impl ErrorChain for RetrieveError {
    open spec fn message_text(&self) -> Seq<char> {
        match self {
            RetrieveError::Embed(_) => "embedding failed"@,
            RetrieveError::Store(_) => "retrieval failed"@,
            RetrieveError::Rewrite(_) => "rewrite failed"@,
        }
    }

    open spec fn cause_texts(&self) -> Seq<Seq<char>> {
        match self {
            RetrieveError::Embed(e) => chain_of(*e),
            RetrieveError::Store(e) => chain_of(*e),
            RetrieveError::Rewrite(e) => chain_of(*e),
        }
    }

    fn message(&self) -> (res: String) {
        match self {
            RetrieveError::Embed(_) => text::owned("embedding failed"),
            RetrieveError::Store(_) => text::owned("retrieval failed"),
            RetrieveError::Rewrite(_) => text::owned("rewrite failed"),
        }
    }

    fn causes(&self) -> (res: Vec<String>) {
        match self {
            RetrieveError::Embed(e) => flatten_error_chain(e),
            RetrieveError::Store(e) => flatten_error_chain(e),
            RetrieveError::Rewrite(e) => flatten_error_chain(e),
        }
    }
}

/// Why a document could not be taken in.
#[derive(Debug)]
pub enum IngestError {
    ReadFile { path: String, causes: Vec<String> },
    ReadManifest { path: String, causes: Vec<String> },
    ParseManifest { path: String, causes: Vec<String> },
}

impl ErrorChain for IngestError {
    open spec fn message_text(&self) -> Seq<char> {
        match self {
            IngestError::ReadFile { path, .. } => "failed to read text file at "@ + path@,
            IngestError::ReadManifest { path, .. } => "failed to read manifest.toml file at "@ + path@,
            IngestError::ParseManifest { path, .. } => "failed to parse manifest.toml file at "@ + path@,
        }
    }

    open spec fn cause_texts(&self) -> Seq<Seq<char>> {
        match self {
            IngestError::ReadFile { causes, .. } => text::texts(causes@),
            IngestError::ReadManifest { causes, .. } => text::texts(causes@),
            IngestError::ParseManifest { causes, .. } => text::texts(causes@),
        }
    }

    fn message(&self) -> (res: String) {
        match self {
            IngestError::ReadFile { path, .. } => joined_pair("failed to read text file at ", path.as_str()),
            IngestError::ReadManifest { path, .. } => joined_pair("failed to read manifest.toml file at ", path.as_str()),
            IngestError::ParseManifest { path, .. } => joined_pair("failed to parse manifest.toml file at ", path.as_str()),
        }
    }

    fn causes(&self) -> (res: Vec<String>) {
        match self {
            IngestError::ReadFile { causes, .. } => text::copy_texts(causes),
            IngestError::ReadManifest { causes, .. } => text::copy_texts(causes),
            IngestError::ParseManifest { causes, .. } => text::copy_texts(causes),
        }
    }
}

/// Why a question could not be answered.
#[derive(Debug)]
pub enum PipelineError {
    Embed(RetrieveError),
    Generate(GenerateError),
    Manifest(IngestError),
    ReadFile { path: String, causes: Vec<String> },
}

impl ErrorChain for PipelineError {
    open spec fn message_text(&self) -> Seq<char> {
        match self {
            PipelineError::Embed(_) => "retrieval failed"@,
            PipelineError::Generate(_) => "generation failed"@,
            PipelineError::Manifest(_) => "loading manifest failed"@,
            PipelineError::ReadFile { path, .. } => "failed to read text file at "@ + path@,
        }
    }

    open spec fn cause_texts(&self) -> Seq<Seq<char>> {
        match self {
            PipelineError::Embed(e) => chain_of(*e),
            PipelineError::Generate(e) => chain_of(*e),
            PipelineError::Manifest(e) => chain_of(*e),
            PipelineError::ReadFile { causes, .. } => text::texts(causes@),
        }
    }

    fn message(&self) -> (res: String) {
        match self {
            PipelineError::Embed(_) => text::owned("retrieval failed"),
            PipelineError::Generate(_) => text::owned("generation failed"),
            PipelineError::Manifest(_) => text::owned("loading manifest failed"),
            PipelineError::ReadFile { path, .. } => joined_pair("failed to read text file at ", path.as_str()),
        }
    }

    fn causes(&self) -> (res: Vec<String>) {
        match self {
            PipelineError::Embed(e) => flatten_error_chain(e),
            PipelineError::Generate(e) => flatten_error_chain(e),
            PipelineError::Manifest(e) => flatten_error_chain(e),
            PipelineError::ReadFile { causes, .. } => text::copy_texts(causes),
        }
    }
}

/// Why the examples could not be loaded.
#[derive(Debug)]
pub enum EvalError {
    ReadFile { path: String, causes: Vec<String> },
    ParseFile { path: String, line: usize, causes: Vec<String> },
}

impl ErrorChain for EvalError {
    open spec fn message_text(&self) -> Seq<char> {
        match self {
            EvalError::ReadFile { path, .. } => "failed to read eval file at "@ + path@,
            EvalError::ParseFile { path, line, .. } => "failed to parse eval file at "@ + path@ + " on line "@
                + text::decimal(*line as nat),
        }
    }

    open spec fn cause_texts(&self) -> Seq<Seq<char>> {
        match self {
            EvalError::ReadFile { causes, .. } => text::texts(causes@),
            EvalError::ParseFile { causes, .. } => text::texts(causes@),
        }
    }

    fn message(&self) -> (res: String) {
        match self {
            EvalError::ReadFile { path, .. } => joined_pair("failed to read eval file at ", path.as_str()),
            EvalError::ParseFile { path, line, .. } => {
                let mut out = joined_pair(
                    joined_pair("failed to parse eval file at ", path.as_str()).as_str(),
                    " on line ",
                );
                text::push_decimal(&mut out, *line as u64);
                out
            },
        }
    }

    fn causes(&self) -> (res: Vec<String>) {
        match self {
            EvalError::ReadFile { causes, .. } => text::copy_texts(causes),
            EvalError::ParseFile { causes, .. } => text::copy_texts(causes),
        }
    }
}

} // verus!
