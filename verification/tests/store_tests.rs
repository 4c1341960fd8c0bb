use rag_core::chunker::chunk_text;
use rag_core::embedding::EmbedError;
use rag_core::store::VectorStore;

const DELIM: &str = "\n\n---\n\n";

fn ok(v: Vec<i64>) -> Result<Vec<i64>, EmbedError> {
    Ok(v)
}

#[test]
fn index_then_retrieve_ranks_by_similarity() {
    let mut store = VectorStore::new();
    let chunks = chunk_text("abcdefghij", 4, 1);
    assert_eq!(chunks, vec!["abcd".to_string(), "defg".to_string(), "ghij".to_string()]);
    let outcomes = vec![ok(vec![10, 0, 0]), ok(vec![7, 7, 0]), ok(vec![0, 10, 0])];
    assert_eq!(store.index_document(chunks, outcomes), Ok(()));
    assert_eq!(store.len(), 3);
    let query: Vec<i64> = vec![10, 0, 0];
    let context = store.retrieve_context(&query);
    assert_eq!(context, format!("abcd{DELIM}defg{DELIM}ghij"));
}

#[test]
fn retrieval_returns_at_most_top_three() {
    let mut store = VectorStore::new();
    let contents = vec![
        "far".to_string(),
        "close".to_string(),
        "closest".to_string(),
        "farther".to_string(),
    ];
    let outcomes = vec![
        ok(vec![1, 9]),
        ok(vec![9, 2]),
        ok(vec![9, 1]),
        ok(vec![0, 9]),
    ];
    assert_eq!(store.index_document(contents, outcomes), Ok(()));
    let query: Vec<i64> = vec![10, 1];
    let context = store.retrieve_context(&query);
    assert_eq!(context, format!("closest{DELIM}close{DELIM}far"));
}

#[test]
fn retrieval_breaks_ties_by_insertion_order() {
    let mut store = VectorStore::new();
    let contents = vec!["first".to_string(), "second".to_string(), "third".to_string()];
    let outcomes = vec![ok(vec![5, 5]), ok(vec![5, 5]), ok(vec![5, 5])];
    assert_eq!(store.index_document(contents, outcomes), Ok(()));
    let query: Vec<i64> = vec![1, 0];
    let context = store.retrieve_context(&query);
    assert_eq!(context, format!("first{DELIM}second{DELIM}third"));
}

#[test]
fn retrieval_on_empty_store_is_empty_not_an_error() {
    let store = VectorStore::new();
    let query: Vec<i64> = vec![1, 2, 3];
    assert_eq!(store.retrieve_context(&query), "");
}

#[test]
fn retrieval_with_fewer_chunks_than_k() {
    let mut store = VectorStore::new();
    let contents = vec!["only".to_string()];
    let outcomes = vec![ok(vec![1])];
    assert_eq!(store.index_document(contents, outcomes), Ok(()));
    let query: Vec<i64> = vec![1];
    assert_eq!(store.retrieve_context(&query), "only");
}

#[test]
fn failed_embedding_commits_nothing() {
    let mut store = VectorStore::new();
    let contents = vec![
        "c1".to_string(),
        "c2".to_string(),
        "c3".to_string(),
        "c4".to_string(),
        "c5".to_string(),
    ];
    let outcomes = vec![
        ok(vec![1, 0]),
        ok(vec![0, 1]),
        Err(EmbedError::Transport("connection refused".to_string())),
        ok(vec![1, 1]),
        ok(vec![2, 1]),
    ];
    let r = store.index_document(contents, outcomes);
    assert_eq!(r, Err(EmbedError::Transport("connection refused".to_string())));
    assert_eq!(store.len(), 0);
    assert!(store.is_empty());
}

#[test]
fn failed_embedding_leaves_earlier_documents_alone() {
    let mut store = VectorStore::new();
    let first = store.index_document(vec!["kept".to_string()], vec![ok(vec![3, 4])]);
    assert_eq!(first, Ok(()));
    let r = store.index_document(
        vec!["a".to_string(), "b".to_string()],
        vec![ok(vec![1, 1]), Err(EmbedError::Status(500, "boom".to_string()))],
    );
    assert_eq!(r, Err(EmbedError::Status(500, "boom".to_string())));
    assert_eq!(store.len(), 1);
    let query: Vec<i64> = vec![3, 4];
    assert_eq!(store.retrieve_context(&query), "kept");
}

#[test]
fn empty_embedding_vector_blocks_the_commit() {
    let mut store = VectorStore::new();
    let r = store.index_document(
        vec!["a".to_string(), "b".to_string()],
        vec![ok(vec![1]), ok(vec![])],
    );
    assert_eq!(r, Err(EmbedError::EmptyVector));
    assert!(store.is_empty());
}

#[test]
fn out_of_range_embedding_blocks_the_commit() {
    let mut store = VectorStore::new();
    let r = store.index_document(vec!["a".to_string()], vec![ok(vec![2000])]);
    assert_eq!(r, Err(EmbedError::OutOfRange));
    assert!(store.is_empty());
}

#[test]
fn missing_outcomes_block_the_commit() {
    let mut store = VectorStore::new();
    let r = store.index_document(
        vec!["a".to_string(), "b".to_string()],
        vec![ok(vec![1])],
    );
    assert_eq!(r, Err(EmbedError::Incomplete));
    assert!(store.is_empty());
}

#[test]
fn clear_empties_the_store() {
    let mut store = VectorStore::new();
    let contents = vec!["x".to_string(), "y".to_string()];
    let outcomes = vec![ok(vec![1, 2]), ok(vec![2, 1])];
    assert_eq!(store.index_document(contents, outcomes), Ok(()));
    assert_eq!(store.len(), 2);
    store.clear();
    assert_eq!(store.len(), 0);
    let query: Vec<i64> = vec![1, 2];
    assert_eq!(store.retrieve_context(&query), "");
}

#[test]
fn negative_scores_rank_below_zero_scores() {
    let mut store = VectorStore::new();
    let contents = vec!["against".to_string(), "orthogonal".to_string(), "with".to_string()];
    let outcomes = vec![ok(vec![-1, 0]), ok(vec![0, 1]), ok(vec![1, 0])];
    assert_eq!(store.index_document(contents, outcomes), Ok(()));
    let query: Vec<i64> = vec![1, 0];
    let context = store.retrieve_context(&query);
    assert_eq!(context, format!("with{DELIM}orthogonal{DELIM}against"));
}
