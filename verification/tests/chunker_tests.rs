use rag_core::chunker::chunk_text;
use rag_core::CHUNK_OVERLAP;
use rag_core::CHUNK_SIZE;

#[test]
fn chunks_with_overlap_cover_the_text() {
    let chunks = chunk_text("abcdefghij", 4, 1);
    assert_eq!(chunks, vec!["abcd".to_string(), "defg".to_string(), "ghij".to_string()]);
}

#[test]
fn text_of_exactly_one_window_is_one_chunk() {
    let chunks = chunk_text("abcd", 4, 1);
    assert_eq!(chunks, vec!["abcd".to_string()]);
}

#[test]
fn short_text_is_one_chunk() {
    let chunks = chunk_text("ab", 4, 1);
    assert_eq!(chunks, vec!["ab".to_string()]);
}

#[test]
fn empty_text_is_one_empty_chunk() {
    let chunks = chunk_text("", 4, 1);
    assert_eq!(chunks, vec!["".to_string()]);
}

#[test]
fn chunking_counts_code_points_not_bytes() {
    let chunks = chunk_text("αβγδε", 2, 1);
    assert_eq!(
        chunks,
        vec!["αβ".to_string(), "βγ".to_string(), "γδ".to_string(), "δε".to_string()]
    );
}

#[test]
fn zero_overlap_tiles_the_text() {
    let chunks = chunk_text("abcdef", 2, 0);
    assert_eq!(chunks, vec!["ab".to_string(), "cd".to_string(), "ef".to_string()]);
}

#[test]
fn rejoining_with_overlap_removal_reconstructs_the_text() {
    let text = "the quick brown fox jumps over the lazy dog";
    let size = 8;
    let overlap = 3;
    let chunks = chunk_text(text, size, overlap);
    let mut rebuilt = chunks[0].clone();
    for c in chunks.iter().skip(1) {
        rebuilt.push_str(&c.chars().skip(overlap).collect::<String>());
    }
    assert_eq!(rebuilt, text);
    for (i, c) in chunks.iter().enumerate() {
        let len = c.chars().count();
        assert!(len <= size);
        assert!(len > 0);
        if i + 1 < chunks.len() {
            assert_eq!(len, size);
            let tail: String = c.chars().skip(size - overlap).collect();
            let head: String = chunks[i + 1].chars().take(overlap).collect();
            assert_eq!(tail, head);
        }
    }
}

#[test]
fn default_chunk_parameters() {
    assert_eq!(CHUNK_SIZE, 512);
    assert_eq!(CHUNK_OVERLAP, 50);
    let text: String = std::iter::repeat('x').take(512).collect();
    let chunks = chunk_text(&text, CHUNK_SIZE, CHUNK_OVERLAP);
    assert_eq!(chunks.len(), 1);
    let longer: String = std::iter::repeat('x').take(513).collect();
    let chunks = chunk_text(&longer, CHUNK_SIZE, CHUNK_OVERLAP);
    assert_eq!(chunks.len(), 2);
    assert_eq!(chunks[0].len(), 512);
    assert_eq!(chunks[1].len(), 51);
}
