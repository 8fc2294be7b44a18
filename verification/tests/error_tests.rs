use docvec::error::{AppError, CommitStage};

#[test]
fn test_error_messages() {
    assert_eq!(
        AppError::SegmentationConfig.message(),
        "segmentation config: overlap must be smaller than chunk size"
    );
    assert_eq!(AppError::IdentityCollision.message(), "chunk identity collision");
    assert_eq!(
        AppError::CacheConstruction.message(),
        "collection handle construction failed"
    );
    assert_eq!(
        AppError::BatchCommit { index: 2, stage: CommitStage::Embedding }.message(),
        "batch 2 failed at the embedding step"
    );
    assert_eq!(
        AppError::BatchCommit { index: 10, stage: CommitStage::Storage }.message(),
        "batch 10 failed at the storage step"
    );
    assert_eq!(AppError::EmbeddingFailure.message(), "embedding produced no vector");
    assert_eq!(AppError::Storage.message(), "storage error");
}

#[test]
fn test_batch_commit_carries_index_and_stage() {
    let e = AppError::BatchCommit { index: 4, stage: CommitStage::Storage };
    match e {
        AppError::BatchCommit { index, stage } => {
            assert_eq!(index, 4);
            assert_eq!(stage, CommitStage::Storage);
        }
        _ => unreachable!(),
    }
}
