//! The failures the library reports.

use vstd::prelude::*;

use crate::strutil::{chars_to_string, dec_str, push_str_chars, usize_to_chars};

verus! {

/// Which step of persisting a batch failed.
#[derive(Clone, Copy, Debug, PartialEq, Eq, Structural)]
pub enum CommitStage {
    /// Requesting embeddings for the batch failed.
    Embedding,
    /// Committing the batch to storage failed.
    Storage,
}

/// A typed failure. Every error surfaces to the immediate caller; none is
/// swallowed.
#[derive(Clone, Copy, Debug, PartialEq, Eq, Structural)]
pub enum AppError {
    /// The configured overlap is not smaller than the chunk size; rejected
    /// before any splitting starts.
    SegmentationConfig,
    /// Two chunk identities collided; a fatal integrity error.
    IdentityCollision,
    /// Building a collection handle failed; the failure is not cached, so
    /// the next call retries.
    CacheConstruction,
    /// Persisting one batch failed: which batch, and in which step.
    BatchCommit { index: usize, stage: CommitStage },
    /// The embedding capability returned no vector for an input.
    EmbeddingFailure,
    /// The storage collaborator reported an error.
    Storage,
}

/// The description `message` returns for each failure; a batch failure
/// names the failing batch's index.
pub open spec fn message_of(e: AppError) -> Seq<char> {
    match e {
        AppError::SegmentationConfig => "segmentation config: overlap must be smaller than chunk size"@,
        AppError::IdentityCollision => "chunk identity collision"@,
        AppError::CacheConstruction => "collection handle construction failed"@,
        AppError::BatchCommit { index, stage: CommitStage::Embedding } => "batch "@ + dec_str(
            index as nat,
        ) + " failed at the embedding step"@,
        AppError::BatchCommit { index, stage: CommitStage::Storage } => "batch "@ + dec_str(
            index as nat,
        ) + " failed at the storage step"@,
        AppError::EmbeddingFailure => "embedding produced no vector"@,
        AppError::Storage => "storage error"@,
    }
}

impl AppError {
    /// A short description of the failure.
    pub fn message(&self) -> (r: String)
        ensures
            r@ == message_of(*self),
    {
        match self {
            AppError::SegmentationConfig => "segmentation config: overlap must be smaller than chunk size".to_owned(),
            AppError::IdentityCollision => "chunk identity collision".to_owned(),
            AppError::CacheConstruction => "collection handle construction failed".to_owned(),
            AppError::BatchCommit { index, stage } => {
                let mut out: Vec<char> = Vec::new();
                push_str_chars(&mut out, "batch ");
                let mut digits = usize_to_chars(*index);
                out.append(&mut digits);
                match stage {
                    CommitStage::Embedding => push_str_chars(
                        &mut out,
                        " failed at the embedding step",
                    ),
                    CommitStage::Storage => push_str_chars(&mut out, " failed at the storage step"),
                }
                proof {
                    assert(out@ =~= message_of(*self));
                }
                chars_to_string(&out)
            },
            AppError::EmbeddingFailure => "embedding produced no vector".to_owned(),
            AppError::Storage => "storage error".to_owned(),
        }
    }
}

/// The library's result type.
pub type AppResult<T> = Result<T, AppError>;

} // verus!
