use docvec::text_splitter::RecursiveCharacterTextSplitter;

#[test]
fn test_split_small_text() {
    let splitter = RecursiveCharacterTextSplitter::new()
        .with_chunk_size(100)
        .with_chunk_overlap(0);

    let text = "This is a small text that should not be split.";
    let chunks = splitter.split_text(text);

    assert_eq!(chunks.len(), 1);
    assert_eq!(chunks[0], text);
}

#[test]
fn test_split_by_newlines() {
    let splitter = RecursiveCharacterTextSplitter::new()
        .with_chunk_size(50)
        .with_chunk_overlap(0);

    let text =
        "First paragraph.\n\nSecond paragraph.\n\nThird paragraph that is longer than the others.";
    let chunks = splitter.split_text(text);

    assert_eq!(chunks.len(), 3);
    assert_eq!(chunks[0], "First paragraph.");
    assert_eq!(chunks[1], "\n\nSecond paragraph.");
    assert_eq!(chunks[2], "\n\nThird paragraph that is longer than the others.");
}

#[test]
fn test_split_with_overlap() {
    let splitter = RecursiveCharacterTextSplitter::new()
        .with_chunk_size(20)
        .with_chunk_overlap(5);

    let text = "This is a text that should be split into multiple chunks with overlap.";
    let chunks = splitter.split_text(text);

    // Check that each chunk respects the size limit
    for chunk in &chunks {
        assert!(chunk.len() <= 20);
    }

    // Check that there's overlap between consecutive chunks
    for i in 1..chunks.len() {
        let prev_chunk = &chunks[i - 1];
        let curr_chunk = &chunks[i];

        if prev_chunk.len() >= 5 {
            let overlap_text = &prev_chunk[prev_chunk.len() - 5..];
            assert!(curr_chunk.starts_with(overlap_text));
        }
    }
}

#[test]
fn test_empty_text_single_empty_chunk() {
    let splitter = RecursiveCharacterTextSplitter::new()
        .with_chunk_size(10)
        .with_chunk_overlap(0);
    let chunks = splitter.split_text("");
    assert_eq!(chunks, vec!["".to_string()]);
}

#[test]
fn test_character_fallback_windows() {
    // no separator occurs, so the character fallback cuts exact windows,
    // each seeded with the last character of its predecessor
    let splitter = RecursiveCharacterTextSplitter::new()
        .with_chunk_size(4)
        .with_chunk_overlap(1);
    let chunks = splitter.split_text("abcdefghij");
    assert_eq!(chunks, vec!["abcd", "defg", "ghij"]);
}

#[test]
fn test_no_overlap_chunks_concatenate_to_text() {
    // with separators kept and no overlap, the chunks reassemble the text
    let splitter = RecursiveCharacterTextSplitter::new()
        .with_chunk_size(12)
        .with_chunk_overlap(0);
    let text = "one two three four five six seven eight nine ten";
    let chunks = splitter.split_text(text);
    assert!(chunks.iter().all(|c| c.len() <= 12));
    assert_eq!(chunks.concat(), text);
}

#[test]
fn test_custom_separators() {
    let splitter = RecursiveCharacterTextSplitter::new()
        .with_separators(vec!["--".to_string()])
        .with_chunk_size(4)
        .with_chunk_overlap(0);
    let chunks = splitter.split_text("aa--bb--cc");
    assert_eq!(chunks, vec!["aa", "--bb", "--cc"]);
}

#[test]
fn test_separator_dropped_when_not_kept() {
    let splitter = RecursiveCharacterTextSplitter::new()
        .with_separators(vec![" ".to_string()])
        .with_chunk_size(6)
        .with_chunk_overlap(0)
        .with_keep_separator(false);
    let chunks = splitter.split_text("alpha beta gamma");
    assert_eq!(chunks, vec!["alpha", "beta", "gamma"]);
}

#[test]
fn test_config_ok() {
    let good = RecursiveCharacterTextSplitter::new()
        .with_chunk_size(10)
        .with_chunk_overlap(3);
    assert!(good.config_ok());
    let bad = RecursiveCharacterTextSplitter::new()
        .with_chunk_size(10)
        .with_chunk_overlap(10);
    assert!(!bad.config_ok());
}

#[test]
fn test_overlap_seeds_compound_through_fallback() {
    // one long word forces the fallback below the space separator
    let splitter = RecursiveCharacterTextSplitter::new()
        .with_chunk_size(5)
        .with_chunk_overlap(2);
    let chunks = splitter.split_text("abcdefghijklmno");
    assert_eq!(chunks, vec!["abcde", "defgh", "ghijk", "jklmn", "mno"]);
    for i in 1..chunks.len() {
        let prev = &chunks[i - 1];
        let curr = &chunks[i];
        assert!(curr.starts_with(&prev[prev.len() - 2..]));
    }
}
