use rag_core::text_splitter::{SplitStream, TextSplitter};
use rag_core::RagError;

#[test]
fn test_split_20_5() {
    let some_long_text: String = "A story about a boy".to_string();

    let text_slitter = TextSplitter::new();

    let splitted_text = text_slitter
        .with_chunk_size(20)
        .with_chunk_overlap(5)
        .split(&some_long_text);

    assert_eq!(splitted_text, vec!["A story about a boy"]);
}

#[test]
fn test_split_5_1() {
    let some_long_text: String = "I know that I know nothing, that say something about the author you know nothing, The guy who said this was a very knowledgeable person and his name was Socrates a great philosopher and Plato's teacher".to_string();

    let text_slitter = TextSplitter::new();

    assert_eq!(
        text_slitter
            .with_chunk_size(25)
            .with_chunk_overlap(3)
            .split(&some_long_text),
        vec![
            "I know that I know",
            "know nothing, that say",
            "say something about the",
            "the author you know",
            "know nothing, The guy",
            "guy who said this was a",
            "was a very knowledgeable",
            "knowledgeable person and",
            "and his name was",
            "was Socrates a great",
            "great philosopher and",
            "and Plato's teacher"
        ]
    );
}

#[test]
fn test_split_not_equal() {
    let some_long_text: String = "I know that I know nothing, that say something about the author you know nothing, The guy who said this was a very knowledgeable person and his name was Socrates a great philosopher and Plato's teacher".to_string();

    let text_slitter = TextSplitter::new();

    assert_ne!(
        text_slitter
            .with_chunk_size(25)
            .with_chunk_overlap(3)
            .split(&some_long_text),
        vec![
            "I know that I know",
            "know nothing, that say",
            "say something about the",
            "the author you know",
            "know nothing, The guy",
            "guy who said this was a",
            "was a very knowledgeable",
            "knowledgeable person and",
            "and his name was",
            "was Socrates a great",
            "great philosopher and",
        ]
    );
}

#[test]
fn test_split_no_infinite_loop() {
    let some_long_text: String = "I have nothing to say here.".to_string();

    let text_slitter = TextSplitter::new();

    assert!(!text_slitter
        .with_chunk_size(150)
        .with_chunk_overlap(5)
        .split(&some_long_text)
        .is_empty());
}

#[test]
fn test_split_deterministic() {
    let text = "I know that I know nothing, that say something about the author you know nothing, The guy who said this was a very knowledgeable person and his name was Socrates a great philosopher and Plato's teacher";
    let first = TextSplitter::new()
        .with_chunk_size(25)
        .with_chunk_overlap(3)
        .split(text);
    let second = TextSplitter::new()
        .with_chunk_size(25)
        .with_chunk_overlap(3)
        .split(text);
    assert_eq!(first, second);
    assert_eq!(first.len(), 12);
}

#[test]
fn test_split_whitespace_only_yields_nothing() {
    let splitter = TextSplitter::new().with_chunk_size(20).with_chunk_overlap(5);
    let chunks = splitter.split("   \t\n   ");
    assert!(chunks.is_empty());
}

#[test]
fn test_split_terminates_on_leading_space_word() {
    // A window whose only space sits at its first position gives the
    // splitter no boundary to back off to; it must still advance.
    let text = format!("a {}", "b".repeat(30));
    let chunks = TextSplitter::new()
        .with_chunk_size(20)
        .with_chunk_overlap(5)
        .split(&text);
    assert_eq!(chunks, vec!["a", "bbbbbbbbbbbbbbbbbbb", "bbbbbbbbbbbbbbbbbbbb", "bbbbbbbbbb"]);
}

#[test]
fn test_split_never_repeats_and_keeps_content() {
    let text = "one two three four five six seven eight nine ten eleven twelve";
    let chunks = TextSplitter::new()
        .with_chunk_size(20)
        .with_chunk_overlap(4)
        .split(text);
    // No chunk is empty and no chunk carries surrounding whitespace.
    for c in &chunks {
        assert!(!c.is_empty());
        assert_eq!(c.trim(), c);
    }
    // Every word of the text appears in some chunk.
    for word in text.split(' ') {
        assert!(chunks.iter().any(|c| c.contains(word)), "missing {word}");
    }
}

#[test]
fn test_split_stream_matches_whole_text_split() {
    let lines = [
        "I know that I know nothing, that say something",
        "about the author you know nothing, The guy who said",
        "this was a very knowledgeable person and his name was",
        "Socrates a great philosopher and Plato's teacher",
    ];
    let whole = format!("{}\n{}\n{}\n{}\n", lines[0], lines[1], lines[2], lines[3]);

    let splitter = TextSplitter::new().with_chunk_size(25).with_chunk_overlap(3);
    let expected = splitter.split(&whole);

    let mut stream = splitter.split_stream();
    for line in lines {
        stream.push_line(line);
    }
    assert_eq!(stream.finish(), expected);
}

#[test]
fn test_split_stream_large_buffer() {
    let mut whole = String::new();
    let mut stream = SplitStream::new(1000, 150);
    for i in 0..80 {
        let line = format!("line number {i} with a little bit of text to fill the buffer out");
        whole.push_str(&line);
        whole.push('\n');
        stream.push_line(&line);
    }
    let expected = TextSplitter::new().split(&whole);
    assert_eq!(stream.finish(), expected);
}

#[test]
fn test_configured_rejects_bad_parameters() {
    assert!(matches!(
        TextSplitter::configured(19, 5),
        Err(RagError::Configuration)
    ));
    assert!(matches!(
        TextSplitter::configured(25, 25),
        Err(RagError::Configuration)
    ));
    let ok = TextSplitter::configured(25, 3);
    assert!(ok.is_ok());
    assert_eq!(RagError::Configuration.message(), "configuration error");
}
