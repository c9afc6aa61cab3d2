use keiko_ingestion::parser::Page;
use keiko_ingestion::splitter::sentence::{retained_word_count, ChunkBuffer, ID_CHARS};
use keiko_ingestion::splitter::tokens::count_tokens;
use keiko_ingestion::splitter::{SentenceTextSplitter, SplitError, TextSplitter};

fn page(page_num: u32, text: &str) -> Page {
    Page { page_num, text: text.to_string(), images: vec![] }
}

fn tokens(text: &str) -> usize {
    count_tokens(text).unwrap()
}

#[test]
fn test_split_into_sentences() {
    let splitter = SentenceTextSplitter::new(100, 0).unwrap();
    let text = "Hello world. This is a test! Does it work? Yes.";
    let sentences = splitter.split_into_sentences(text);

    assert_eq!(sentences.len(), 4);
    assert_eq!(sentences[0], "Hello world.");
    assert_eq!(sentences[1], "This is a test!");
    assert_eq!(sentences[2], "Does it work?");
    assert_eq!(sentences[3], "Yes.");
}

#[test]
fn test_split_respects_max_tokens() {
    let splitter = SentenceTextSplitter::new(10, 0).unwrap();
    let text = "This is a very long sentence that should definitely be split into multiple chunks because it is too long.";

    let page = Page {
        page_num: 1,
        text: text.to_string(),
        images: vec![],
    };

    let chunks = splitter.split(&[page]).unwrap();
    assert!(!chunks.is_empty());
}

#[test]
fn zero_budget_is_refused_at_construction() {
    assert!(matches!(SentenceTextSplitter::new(0, 10), Err(SplitError::ZeroMaxTokens)));
    assert!(matches!(SentenceTextSplitter::new(0, 0), Err(SplitError::ZeroMaxTokens)));
    assert!(SentenceTextSplitter::new(1, 0).is_ok());
    assert!(SentenceTextSplitter::new(usize::MAX, usize::MAX).is_ok());
}

#[test]
fn split_error_messages() {
    assert_eq!(SplitError::ZeroMaxTokens.message(), "max_tokens must be positive");
    assert_eq!(
        SplitError::Tokenizer("bad".to_string()).message(),
        "Tokenizer error: bad"
    );
    assert_eq!(
        SplitError::TokenOverflow.message(),
        "Token total exceeds the machine word"
    );
}

#[test]
fn sentences_end_at_newlines_and_drop_blank_pieces() {
    let splitter = SentenceTextSplitter::new(100, 0).unwrap();
    let sentences = splitter.split_into_sentences("  First line\nSecond...  \n\n third without end  ");
    assert_eq!(
        sentences,
        vec!["First line", "Second.", ".", ".", "third without end"]
    );
}

#[test]
fn sentences_of_empty_and_blank_text() {
    let splitter = SentenceTextSplitter::new(100, 0).unwrap();
    assert!(splitter.split_into_sentences("").is_empty());
    assert!(splitter.split_into_sentences(" \t\n \u{a0}\u{3000} ").is_empty());
    assert_eq!(splitter.split_into_sentences("no end"), vec!["no end"]);
    assert_eq!(splitter.split_into_sentences("?"), vec!["?"]);
}

#[test]
fn sentences_keep_text_that_is_not_ascii() {
    let splitter = SentenceTextSplitter::new(100, 0).unwrap();
    let sentences = splitter.split_into_sentences("Grüße aus Köln! \u{2003}Ça va? 日本語。");
    assert_eq!(sentences, vec!["Grüße aus Köln!", "Ça va?", "日本語。"]);
}

#[test]
fn token_counter_counts_tokens() {
    assert_eq!(tokens(""), 0);
    assert_eq!(tokens("Hello world."), 3);
    assert_eq!(tokens("This is a test!"), 5);
    assert_eq!(tokens("Does it work?"), 4);
    assert_eq!(tokens("Yes."), 2);
    assert_eq!(tokens("<|endoftext|>"), 1);
}

#[test]
fn retained_words_formula() {
    assert_eq!(retained_word_count(7, 5, 10), 3);
    assert_eq!(retained_word_count(6, 5, 10), 3);
    assert_eq!(retained_word_count(6, 0, 10), 0);
    assert_eq!(retained_word_count(6, 10, 10), 6);
    assert_eq!(retained_word_count(6, 50, 10), 6);
    assert_eq!(retained_word_count(0, 5, 10), 0);
    assert_eq!(retained_word_count(1, 9, 10), 0);
    assert_eq!(retained_word_count(usize::MAX, u128::MAX, 1), usize::MAX);
    assert_eq!(
        retained_word_count(usize::MAX, usize::MAX as u128 - 1, usize::MAX),
        usize::MAX - 1
    );
}

#[test]
fn sentences_within_the_budget_fit_one_chunk() {
    let splitter = SentenceTextSplitter::new(100, 0).unwrap();
    let chunks = splitter
        .split(&[page(1, "Hello world. This is a test! Does it work? Yes.")])
        .unwrap();
    assert_eq!(chunks.len(), 1);
    assert_eq!(chunks[0].text, "Hello world. This is a test! Does it work? Yes.");
    assert_eq!(chunks[0].page_num, 1);
    assert_eq!(chunks[0].token_count, 14);
    assert_eq!(chunks[0].char_count, 47);
    assert!(!chunks[0].id.is_empty());
}

#[test]
fn unterminated_text_is_one_chunk_over_budget() {
    let splitter = SentenceTextSplitter::new(10, 0).unwrap();
    let text = "this text has no terminal punctuation at all and it goes on and on well past the budget of ten tokens";
    let chunks = splitter.split(&[page(3, text)]).unwrap();
    assert_eq!(chunks.len(), 1);
    assert_eq!(chunks[0].text, text);
    assert_eq!(chunks[0].page_num, 3);
    assert!(chunks[0].token_count > 10);
    assert_eq!(chunks[0].token_count, tokens(text));
    assert_eq!(chunks[0].char_count, text.chars().count());
}

#[test]
fn overlap_carries_the_last_words_over() {
    let splitter = SentenceTextSplitter::new(10, 50).unwrap();
    let chunks = splitter
        .split(&[page(1, "Hello world. This is a test! Does it work? Yes.")])
        .unwrap();
    assert_eq!(chunks.len(), 2);
    assert_eq!(chunks[0].text, "Hello world. This is a test!");
    assert_eq!(chunks[0].token_count, 8);
    assert_eq!(chunks[0].char_count, 28);
    assert_eq!(chunks[1].text, "is a test! Does it work? Yes.");
    assert_eq!(chunks[1].token_count, tokens("is a test!") + 4 + 2);
    assert_eq!(chunks[1].char_count, 29);
    assert_ne!(chunks[0].id, chunks[1].id);

    let first: Vec<&str> = chunks[0].text.split_whitespace().collect();
    let second: Vec<&str> = chunks[1].text.split_whitespace().collect();
    let kept = first.len() * 5 / 10;
    assert_eq!(kept, 3);
    assert_eq!(&second[..kept], &first[first.len() - kept..]);
}

#[test]
fn without_overlap_chunks_share_nothing() {
    let splitter = SentenceTextSplitter::new(8, 0).unwrap();
    let chunks = splitter
        .split(&[page(1, "Hello world. This is a test! Does it work? Yes.")])
        .unwrap();
    let texts: Vec<&str> = chunks.iter().map(|c| c.text.as_str()).collect();
    assert_eq!(texts, vec!["Hello world. This is a test!", "Does it work? Yes."]);
    assert_eq!(chunks[0].token_count, 8);
    assert_eq!(chunks[1].token_count, 6);
}

#[test]
fn overlap_above_a_hundred_percent_keeps_every_word() {
    let splitter = SentenceTextSplitter::new(5, 250).unwrap();
    let chunks = splitter.split(&[page(1, "Hello world. Does it work?")]).unwrap();
    assert_eq!(chunks.len(), 2);
    assert_eq!(chunks[0].text, "Hello world.");
    assert_eq!(chunks[1].text, "Hello world. Does it work?");
}

#[test]
fn pages_are_split_independently() {
    let splitter = SentenceTextSplitter::new(100, 50).unwrap();
    let chunks = splitter
        .split(&[page(1, "Hello world."), page(2, "   "), page(2, "Yes. Yes.")])
        .unwrap();
    assert_eq!(chunks.len(), 2);
    assert_eq!((chunks[0].page_num, chunks[0].text.as_str()), (1, "Hello world."));
    assert_eq!((chunks[1].page_num, chunks[1].text.as_str()), (2, "Yes. Yes."));
    assert!(splitter.split(&[]).unwrap().is_empty());
}

#[test]
fn char_count_is_the_length_of_the_text_in_characters() {
    let splitter = SentenceTextSplitter::new(6, 30).unwrap();
    let text = "Grüße aus Köln! Ça va très bien? 日本語のテキスト。 Ende gut, alles gut.";
    let chunks = splitter.split(&[page(1, text)]).unwrap();
    assert!(chunks.len() >= 2);
    for chunk in &chunks {
        assert_eq!(chunk.char_count, chunk.text.chars().count());
        assert_eq!(chunk.text, chunk.text.trim());
    }
}

#[test]
fn token_count_is_the_running_total() {
    let splitter = SentenceTextSplitter::new(100, 0).unwrap();
    let chunks = splitter.split(&[page(1, "1. 2.")]).unwrap();
    assert_eq!(chunks.len(), 1);
    assert_eq!(chunks[0].text, "1. 2.");
    assert_eq!(chunks[0].token_count, tokens("1.") + tokens("2."));
    assert_eq!(chunks[0].token_count, 4);
    assert_eq!(tokens("1. 2."), 5);

    let lone = splitter.split(&[page(1, "Hello world.")]).unwrap();
    assert_eq!(lone[0].token_count, tokens(&lone[0].text));
}

#[test]
fn splitting_twice_gives_the_same_chunks() {
    let splitter = SentenceTextSplitter::new(10, 50).unwrap();
    let pages = [
        page(1, "Hello world. This is a test! Does it work? Yes."),
        page(2, "Another page\nwith two lines"),
    ];
    let first = splitter.split(&pages).unwrap();
    let second = splitter.split(&pages).unwrap();
    assert_eq!(first.len(), second.len());
    for (a, b) in first.iter().zip(second.iter()) {
        assert_eq!(a.text, b.text);
        assert_eq!(a.token_count, b.token_count);
        assert_eq!(a.char_count, b.char_count);
        assert_eq!(a.page_num, b.page_num);
        assert_ne!(a.id, b.id);
    }
}

#[test]
fn chunk_identifiers_are_fresh_and_thirty_six_characters_long() {
    assert_eq!(ID_CHARS, 36);
    let splitter = SentenceTextSplitter::new(4, 0).unwrap();
    let chunks = splitter
        .split(&[page(1, "Hello world. This is a test! Does it work? Yes.")])
        .unwrap();
    assert_eq!(chunks.len(), 4);
    for (i, chunk) in chunks.iter().enumerate() {
        assert_eq!(chunk.id.chars().count(), 36);
        assert_eq!(chunk.id.matches('-').count(), 4);
        for other in &chunks[i + 1..] {
            assert_ne!(chunk.id, other.id);
        }
    }
}

#[test]
fn every_sentence_stays_whole() {
    let splitter = SentenceTextSplitter::new(7, 0).unwrap();
    let text = "Hello world. This is a test! Does it work? Yes.";
    let sentences = splitter.split_into_sentences(text);
    let chunks = splitter.split(&[page(1, text)]).unwrap();
    let joined: Vec<String> = chunks.iter().map(|c| c.text.clone()).collect();
    assert_eq!(joined.join(" "), sentences.join(" "));
    for sentence in &sentences {
        assert_eq!(chunks.iter().filter(|c| c.text.contains(sentence.as_str())).count(), 1);
    }
}

#[test]
fn chunk_buffer_steps() {
    let mut buffer = ChunkBuffer::new();
    assert!(!buffer.has_text());
    assert!(!buffer.must_close(1000, 10));
    buffer.push_sentence("Hello world.", 3).unwrap();
    buffer.push_sentence("Yes.", 2).unwrap();
    assert_eq!(buffer.text, "Hello world. Yes.");
    assert_eq!(buffer.tokens, 5);
    assert!(buffer.has_text());
    assert!(!buffer.must_close(5, 10));
    assert!(buffer.must_close(6, 10));
    assert!(buffer.must_close(usize::MAX, 10));
    assert_eq!(buffer.seed_text(10, 4), "Yes.");
    assert_eq!(buffer.seed_text(10, 0), "");
    assert_eq!(buffer.seed_text(10, 100), "Hello world. Yes.");

    let chunk = buffer.close("id-1".to_string(), 4);
    assert_eq!(chunk.id, "id-1");
    assert_eq!(chunk.page_num, 4);
    assert_eq!(chunk.text, "Hello world. Yes.");
    assert_eq!(chunk.token_count, 5);
    assert_eq!(chunk.char_count, 17);

    let mut padded = ChunkBuffer::seeded("  padded \n".to_string(), 1);
    assert_eq!(padded.close("x".to_string(), 1).text, "padded");
    assert_eq!(padded.close("x".to_string(), 1).char_count, 10);
    assert!(matches!(
        padded.push_sentence("more", usize::MAX),
        Err(SplitError::TokenOverflow)
    ));
    assert_eq!(padded.text, "  padded \n");
    assert_eq!(padded.tokens, 1);
}
