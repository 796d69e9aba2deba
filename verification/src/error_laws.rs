//! What each error says.

use crate::errors;
use crate::errors::{
    EmbedError, ErrorChain, EvalError, GenerateError, IngestError, PipelineError, RerankError,
    RetrieveError, RewriteError, RouteError, StoreError,
};
use crate::text;
use vstd::prelude::*;

verus! {

/// The chain of an error starts with its own message, and behind it come those of its causes.
pub proof fn law_chain<E: ErrorChain>(e: E)
    ensures
        errors::chain_of(e).len() == e.cause_texts().len() + 1,
        errors::chain_of(e)[0] == e.message_text(),
        forall|i: int|
            0 <= i < e.cause_texts().len() ==> #[trigger] errors::chain_of(e)[i + 1]
                == e.cause_texts()[i],
{
}

/// An error of a request names the step at which it failed, and has the causes it was given.
pub proof fn law_request_errors(op: &'static str, causes: Vec<String>)
    ensures
        (EmbedError::Reqwest { op, causes }).message_text() == "embed request failed at "@ + op@,
        (GenerateError::Reqwest { op, causes }).message_text() == "generate request failed at "@
            + op@,
        (RewriteError::Reqwest { op, causes }).message_text() == "rewrite request failed at "@ + op@,
        (RewriteError::Serde { op, causes }).message_text() == "rewrite request failed at "@ + op@,
        (RouteError::Reqwest { op, causes }).message_text() == "route request failed at "@ + op@,
        (RouteError::Serde { op, causes }).message_text() == "route request failed at "@ + op@,
        (RerankError::Http { op, causes }).message_text() == "reranker sidecar request failed at "@
            + op@ + " — is it running? start it with `rerank-sidecar/run.sh`"@,
        (StoreError::Lance { op, causes }).message_text() == "LanceDB failure at "@ + op@,
        (EmbedError::Reqwest { op, causes }).cause_texts() == text::texts(causes@),
        (GenerateError::Reqwest { op, causes }).cause_texts() == text::texts(causes@),
        (RewriteError::Reqwest { op, causes }).cause_texts() == text::texts(causes@),
        (RewriteError::Serde { op, causes }).cause_texts() == text::texts(causes@),
        (RouteError::Reqwest { op, causes }).cause_texts() == text::texts(causes@),
        (RouteError::Serde { op, causes }).cause_texts() == text::texts(causes@),
        (RerankError::Http { op, causes }).cause_texts() == text::texts(causes@),
        (StoreError::Lance { op, causes }).cause_texts() == text::texts(causes@),
{
}

/// An error of a file names the file, and where a line could not be read that line.
pub proof fn law_file_errors(path: String, line: usize, causes: Vec<String>)
    ensures
        (IngestError::ReadFile { path, causes }).message_text() == "failed to read text file at "@
            + path@,
        (IngestError::ReadManifest { path, causes }).message_text()
            == "failed to read manifest.toml file at "@ + path@,
        (IngestError::ParseManifest { path, causes }).message_text()
            == "failed to parse manifest.toml file at "@ + path@,
        (PipelineError::ReadFile { path, causes }).message_text() == "failed to read text file at "@
            + path@,
        (EvalError::ReadFile { path, causes }).message_text() == "failed to read eval file at "@
            + path@,
        (EvalError::ParseFile { path, line, causes }).message_text()
            == "failed to parse eval file at "@ + path@ + " on line "@ + text::decimal(line as nat),
        (IngestError::ReadFile { path, causes }).cause_texts() == text::texts(causes@),
        (IngestError::ReadManifest { path, causes }).cause_texts() == text::texts(causes@),
        (IngestError::ParseManifest { path, causes }).cause_texts() == text::texts(causes@),
        (PipelineError::ReadFile { path, causes }).cause_texts() == text::texts(causes@),
        (EvalError::ReadFile { path, causes }).cause_texts() == text::texts(causes@),
        (EvalError::ParseFile { path, line, causes }).cause_texts() == text::texts(causes@),
{
}

/// An error of a retrieval has the whole chain of what failed as its causes.
pub proof fn law_retrieve_errors(e: RetrieveError)
    ensures
        e is Embed ==> e.message_text() == "embedding failed"@ && e.cause_texts()
            == errors::chain_of(e->Embed_0),
        e is Store ==> e.message_text() == "retrieval failed"@ && e.cause_texts()
            == errors::chain_of(e->Store_0),
        e is Rewrite ==> e.message_text() == "rewrite failed"@ && e.cause_texts()
            == errors::chain_of(e->Rewrite_0),
{
}

/// An error of a pipeline has the whole chain of what failed as its causes.
pub proof fn law_pipeline_errors(e: PipelineError)
    ensures
        e is Embed ==> e.message_text() == "retrieval failed"@ && e.cause_texts()
            == errors::chain_of(e->Embed_0),
        e is Generate ==> e.message_text() == "generation failed"@ && e.cause_texts()
            == errors::chain_of(e->Generate_0),
        e is Manifest ==> e.message_text() == "loading manifest failed"@ && e.cause_texts()
            == errors::chain_of(e->Manifest_0),
{
}

/// A schema that differs has no cause.
pub proof fn law_schema_error(expected: String, actual: String)
    ensures
        (StoreError::SchemaMismatch { expected, actual }).message_text()
            == "schema in DB does not match expected schema"@,
        (StoreError::SchemaMismatch { expected, actual }).cause_texts().len() == 0,
{
}

} // verus!
