//! The sentence splitter: it cuts each page into sentences and packs whole
//! sentences into chunks under a token budget, carrying the last words of a
//! closed chunk over into the next one.

use super::chunk::{Chunk, ChunkContent, SplitError, SplitFault, TextSplitter, contents};
use super::laws::{is_measured, lemma_document_chunks_are_measured};
use super::tokens::{count_tokens, token_count};
use crate::parser::Page;
use crate::text::{
    is_clean, join, joined, lemma_trim_of_clean, lemma_trimmed_is_clean, split_whitespace,
    substring, texts, to_chars, trim, trim_range, trimmed, words,
};
use vstd::prelude::*;

verus! {

/// Number of characters of a chunk identifier.
pub const ID_CHARS: usize = 36;

/// `uuid::Uuid::new_v4` in its hyphenated text form: a random identifier
/// of 32 hexadecimal digits and 4 hyphens. Only its length is claimed.
#[verifier::external_body]
fn fresh_id() -> (id: String)
    ensures
        id@.len() == ID_CHARS,
{
    uuid::Uuid::new_v4().to_string()
}

/// The characters that end a sentence.
pub open spec fn is_terminal(c: char) -> bool {
    c == '.' || c == '!' || c == '?' || c == '\n'
}

/// Whether `c` ends a sentence.
pub fn is_sentence_end(c: char) -> (b: bool)
    ensures
        b == is_terminal(c),
{
    c == '.' || c == '!' || c == '?' || c == '\n'
}

/// Number of characters at the start of `s` before the first terminal one.
pub open spec fn run_length(s: Seq<char>) -> nat
    decreases s.len(),
{
    if s.len() > 0 && !is_terminal(s[0]) {
        1 + run_length(s.drop_first())
    } else {
        0
    }
}

/// The sentences of `s`: `s` is cut after each terminal character, each
/// piece is trimmed, and the pieces that are empty after trimming are left
/// out. What follows the last terminal character is the last piece.
pub open spec fn sentences_of(s: Seq<char>) -> Seq<Seq<char>>
    decreases s.len(),
{
    if s.len() == 0 {
        Seq::empty()
    } else {
        let k = run_length(s);
        let cut = if k < s.len() {
            k + 1
        } else {
            s.len()
        };
        let piece = trimmed(s.subrange(0, cut as int));
        let rest = sentences_of(s.subrange(cut as int, s.len() as int));
        if piece.len() > 0 {
            seq![piece] + rest
        } else {
            rest
        }
    }
}

/// The one sentence that a piece gives, or none where it is blank.
pub open spec fn sentence_of_piece(piece: Seq<char>) -> Seq<Seq<char>> {
    if trimmed(piece).len() > 0 {
        seq![trimmed(piece)]
    } else {
        Seq::empty()
    }
}

/// `run_length` is the index of the first terminal character.
pub proof fn lemma_run_length(s: Seq<char>, k: int)
    requires
        0 <= k <= s.len(),
        forall|j: int| 0 <= j < k ==> !is_terminal(#[trigger] s[j]),
        k < s.len() ==> is_terminal(s[k]),
    ensures
        run_length(s) == k,
    decreases s.len(),
{
    if k > 0 {
        let t = s.drop_first();
        assert forall|j: int| 0 <= j < k - 1 implies !is_terminal(#[trigger] t[j]) by {
            assert(t[j] == s[j + 1]);
        }
        lemma_run_length(t, k - 1);
    }
}

/// The first sentence ends at the first terminal character.
pub proof fn lemma_sentences_first(s: Seq<char>, k: int)
    requires
        0 <= k < s.len(),
        forall|j: int| 0 <= j < k ==> !is_terminal(#[trigger] s[j]),
        is_terminal(s[k]),
    ensures
        sentences_of(s) == sentence_of_piece(s.subrange(0, k + 1)) + sentences_of(
            s.subrange(k + 1, s.len() as int),
        ),
{
    lemma_run_length(s, k);
}

/// A text without terminal characters is one sentence at most.
pub proof fn lemma_sentences_last(s: Seq<char>)
    requires
        forall|j: int| 0 <= j < s.len() ==> !is_terminal(#[trigger] s[j]),
    ensures
        sentences_of(s) == sentence_of_piece(s),
{
    if s.len() > 0 {
        lemma_run_length(s, s.len() as int);
        assert(s.subrange(0, s.len() as int) =~= s);
        let rest = s.subrange(s.len() as int, s.len() as int);
        assert(rest.len() == 0);
        assert(sentences_of(rest) =~= Seq::<Seq<char>>::empty());
        assert(sentences_of(s) =~= sentence_of_piece(s));
    } else {
        assert(trimmed(s) =~= Seq::<char>::empty());
    }
}

/// Every sentence is clean: it is not empty, and neither starts nor ends
/// with whitespace.
pub proof fn lemma_sentences_are_clean(s: Seq<char>, i: int)
    requires
        0 <= i < sentences_of(s).len(),
    ensures
        is_clean(sentences_of(s)[i]),
    decreases s.len(),
{
    if s.len() > 0 {
        let k = run_length(s);
        lemma_run_length_bound(s);
        let cut = if k < s.len() {
            k + 1
        } else {
            s.len()
        };
        let piece = trimmed(s.subrange(0, cut as int));
        let rest = s.subrange(cut as int, s.len() as int);
        lemma_trimmed_is_clean(s.subrange(0, cut as int));
        if piece.len() > 0 {
            if i > 0 {
                lemma_sentences_are_clean(rest, i - 1);
                assert(sentences_of(s)[i] == sentences_of(rest)[i - 1]);
            }
        } else {
            lemma_sentences_are_clean(rest, i);
        }
    }
}

/// `run_length` stays within the text.
pub proof fn lemma_run_length_bound(s: Seq<char>)
    ensures
        run_length(s) <= s.len(),
    decreases s.len(),
{
    if s.len() > 0 && !is_terminal(s[0]) {
        lemma_run_length_bound(s.drop_first());
    }
}

/// Number of trailing words of a closed chunk that seed the next one:
/// `word_count * overlap_tokens / max_tokens`, rounded down, and no more
/// than there are words.
pub open spec fn retained_words(word_count: nat, overlap_tokens: nat, max_tokens: nat) -> nat {
    let k = (word_count * overlap_tokens) / max_tokens;
    if k > word_count {
        word_count
    } else {
        k
    }
}

/// The last words of `text` that are carried over: `retained_words` of
/// them.
pub open spec fn kept_words(text: Seq<char>, max_tokens: nat, overlap_tokens: nat) -> Seq<
    Seq<char>,
> {
    let w = words(text);
    w.subrange(w.len() - retained_words(w.len(), overlap_tokens, max_tokens), w.len() as int)
}

/// The seed of the chunk that follows one with this buffer text: its
/// `kept_words`, joined by single spaces.
pub open spec fn overlap_seed(text: Seq<char>, max_tokens: nat, overlap_tokens: nat) -> Seq<char> {
    joined(kept_words(text, max_tokens, overlap_tokens))
}

/// `text` with `sentence` appended, after a single space unless `text` is
/// empty.
pub open spec fn appended(text: Seq<char>, sentence: Seq<char>) -> Seq<char> {
    if text.len() == 0 {
        sentence
    } else {
        text + seq![' '] + sentence
    }
}

/// The text gathered for the chunk under construction, and its running
/// token total.
pub struct BufferState {
    pub text: Seq<char>,
    pub tokens: nat,
}

/// The chunk that closing a buffer emits.
pub open spec fn closed_chunk(buffer: BufferState, page_num: u32) -> ChunkContent {
    ChunkContent {
        page_num,
        text: trimmed(buffer.text),
        token_count: buffer.tokens,
        char_count: buffer.text.len(),
    }
}

/// The number of words retained of `word_count`.
pub fn retained_word_count(word_count: usize, overlap_tokens: u128, max_tokens: usize) -> (k: usize)
    requires
        max_tokens > 0,
    ensures
        k == retained_words(word_count as nat, overlap_tokens as nat, max_tokens as nat),
{
    if overlap_tokens >= max_tokens as u128 {
        assert((word_count * overlap_tokens) / (max_tokens as int) >= word_count)
            by (nonlinear_arith)
            requires
                overlap_tokens >= max_tokens > 0,
                word_count >= 0,
        ;
        if overlap_tokens == max_tokens as u128 {
            assert((word_count * overlap_tokens) / (max_tokens as int) == word_count)
                by (nonlinear_arith)
                requires
                    overlap_tokens == max_tokens > 0,
            ;
        }
        return word_count;
    }
    assert(word_count * overlap_tokens <= 0xFFFF_FFFF_FFFF_FFFF * 0xFFFF_FFFF_FFFF_FFFF)
        by (nonlinear_arith)
        requires
            0 <= word_count <= 0xFFFF_FFFF_FFFF_FFFF,
            0 <= overlap_tokens <= 0xFFFF_FFFF_FFFF_FFFF,
    ;
    let product: u128 = (word_count as u128) * overlap_tokens;
    let k: u128 = product / (max_tokens as u128);
    assert(k <= word_count) by (nonlinear_arith)
        requires
            k == (word_count * overlap_tokens) / (max_tokens as int),
            0 <= overlap_tokens < max_tokens,
            word_count >= 0,
    ;
    k as usize
}

/// The buffer in which a chunk is gathered.
pub struct ChunkBuffer {
    pub text: String,
    pub tokens: usize,
}

impl View for ChunkBuffer {
    type V = BufferState;

    open spec fn view(&self) -> BufferState {
        BufferState { text: self.text@, tokens: self.tokens as nat }
    }
}

impl ChunkBuffer {
    /// An empty buffer.
    pub fn new() -> (buffer: ChunkBuffer)
        ensures
            buffer@ == (BufferState { text: Seq::empty(), tokens: 0 }),
    {
        ChunkBuffer { text: String::new(), tokens: 0 }
    }

    /// A buffer that starts from the overlap seed `text`, counted as
    /// `tokens`.
    pub fn seeded(text: String, tokens: usize) -> (buffer: ChunkBuffer)
        ensures
            buffer@ == (BufferState { text: text@, tokens: tokens as nat }),
    {
        ChunkBuffer { text, tokens }
    }

    /// Whether the chunk must be closed before a sentence of
    /// `sentence_tokens` tokens goes in: the total would exceed
    /// `max_tokens`, and the buffer is not empty.
    pub fn must_close(&self, sentence_tokens: usize, max_tokens: usize) -> (close: bool)
        ensures
            close == (self@.tokens + sentence_tokens > max_tokens && self@.text.len() > 0),
    {
        let over = match self.tokens.checked_add(sentence_tokens) {
            Some(total) => total > max_tokens,
            None => true,
        };
        over && !self.text.as_str().is_empty()
    }

    /// Whether anything but whitespace has been gathered.
    pub fn has_text(&self) -> (b: bool)
        ensures
            b == (trimmed(self@.text).len() > 0),
    {
        !trim(self.text.as_str()).as_str().is_empty()
    }

    /// The chunk that holds what has been gathered.
    pub fn close(&self, id: String, page_num: u32) -> (chunk: Chunk)
        ensures
            chunk@ == closed_chunk(self@, page_num),
            chunk.id == id,
    {
        Chunk {
            id,
            page_num,
            text: trim(self.text.as_str()),
            token_count: self.tokens,
            char_count: self.text.as_str().unicode_len(),
        }
    }

    /// The text that seeds the next chunk.
    pub fn seed_text(&self, max_tokens: usize, overlap_tokens: u128) -> (seed: String)
        requires
            max_tokens > 0,
        ensures
            seed@ == overlap_seed(self@.text, max_tokens as nat, overlap_tokens as nat),
    {
        let all = split_whitespace(self.text.as_str());
        let k = retained_word_count(all.len(), overlap_tokens, max_tokens);
        join(&all, all.len() - k)
    }

    /// Appends `sentence`, counted as `sentence_tokens`, after a single
    /// space unless the buffer is empty. Fails, and leaves the buffer as it
    /// was, where the new total does not fit in `usize`.
    pub fn push_sentence(&mut self, sentence: &str, sentence_tokens: usize) -> (result: Result<
        (),
        SplitError,
    >)
        ensures
            result is Ok <==> old(self)@.tokens + sentence_tokens <= usize::MAX,
            result is Ok ==> final(self)@ == (BufferState {
                text: appended(old(self)@.text, sentence@),
                tokens: (old(self)@.tokens + sentence_tokens) as nat,
            }),
            result matches Err(e) ==> e is TokenOverflow && final(self)@ == old(self)@,
    {
        match self.tokens.checked_add(sentence_tokens) {
            None => Err(SplitError::TokenOverflow),
            Some(total) => {
                if !self.text.as_str().is_empty() {
                    self.text.push(' ');
                }
                self.text.append(sentence);
                self.tokens = total;
                proof {
                    let before = old(self)@.text;
                    assert(before.push(' ') + sentence@ =~= before + seq![' '] + sentence@);
                    assert(Seq::<char>::empty() + sentence@ =~= sentence@);
                }
                Ok(())
            },
        }
    }
}

/// The chunks emitted so far on a run, and the buffer of the chunk under
/// construction.
pub struct Assembly {
    pub chunks: Seq<ChunkContent>,
    pub buffer: BufferState,
}

/// The buffer of `a` with `sentence`, of `n` tokens, appended. Fails where
/// the new total does not fit in `usize`.
pub open spec fn extend(a: Assembly, sentence: Seq<char>, n: nat) -> Result<Assembly, SplitFault> {
    if a.buffer.tokens + n > usize::MAX {
        Err(SplitFault::TokenOverflow)
    } else {
        Ok(
            Assembly {
                chunks: a.chunks,
                buffer: BufferState {
                    text: appended(a.buffer.text, sentence),
                    tokens: a.buffer.tokens + n,
                },
            },
        )
    }
}

/// One sentence goes in. Where its tokens would take a non-empty buffer
/// over `max_tokens`, the buffer is first closed into a chunk and started
/// again from the overlap seed, whose tokens are counted afresh. Fails
/// where the tokenizer fails on the sentence or on the seed, or where the
/// total does not fit in `usize`.
pub open spec fn step(
    a: Assembly,
    sentence: Seq<char>,
    page_num: u32,
    max_tokens: nat,
    overlap_tokens: nat,
) -> Result<Assembly, SplitFault> {
    match token_count(sentence) {
        None => Err(SplitFault::Tokenizer),
        Some(n) => {
            if a.buffer.tokens + n > max_tokens && a.buffer.text.len() > 0 {
                let seed = overlap_seed(a.buffer.text, max_tokens, overlap_tokens);
                match token_count(seed) {
                    None => Err(SplitFault::Tokenizer),
                    Some(t) => extend(
                        Assembly {
                            chunks: a.chunks.push(closed_chunk(a.buffer, page_num)),
                            buffer: BufferState { text: seed, tokens: t },
                        },
                        sentence,
                        n,
                    ),
                }
            } else {
                extend(a, sentence, n)
            }
        },
    }
}

/// The chunks at the end of a page: what is left in the buffer is closed
/// into a last chunk, unless it is blank.
pub open spec fn finish(a: Assembly, page_num: u32) -> Seq<ChunkContent> {
    if trimmed(a.buffer.text).len() > 0 {
        a.chunks.push(closed_chunk(a.buffer, page_num))
    } else {
        a.chunks
    }
}

/// The chunks after the sentences from index `i` on have gone in, one by
/// one, and the page has ended.
pub open spec fn run(
    a: Assembly,
    sentences: Seq<Seq<char>>,
    i: int,
    page_num: u32,
    max_tokens: nat,
    overlap_tokens: nat,
) -> Result<Seq<ChunkContent>, SplitFault>
    decreases sentences.len() - i,
{
    if i < 0 || i >= sentences.len() {
        Ok(finish(a, page_num))
    } else {
        match step(a, sentences[i], page_num, max_tokens, overlap_tokens) {
            Err(fault) => Err(fault),
            Ok(next) => run(next, sentences, i + 1, page_num, max_tokens, overlap_tokens),
        }
    }
}

/// `earlier` followed by the chunks of a page with this text and number.
/// The buffer starts empty: nothing is carried over from another page.
pub open spec fn page_run(
    earlier: Seq<ChunkContent>,
    text: Seq<char>,
    page_num: u32,
    max_tokens: nat,
    overlap_tokens: nat,
) -> Result<Seq<ChunkContent>, SplitFault> {
    run(
        Assembly { chunks: earlier, buffer: BufferState { text: Seq::empty(), tokens: 0 } },
        sentences_of(text),
        0,
        page_num,
        max_tokens,
        overlap_tokens,
    )
}

/// The chunks of one page.
pub open spec fn page_chunks(
    text: Seq<char>,
    page_num: u32,
    max_tokens: nat,
    overlap_tokens: nat,
) -> Result<Seq<ChunkContent>, SplitFault> {
    page_run(Seq::empty(), text, page_num, max_tokens, overlap_tokens)
}

/// `earlier` followed by the chunks of the pages from index `i` on, page by
/// page. The first fault ends the run.
pub open spec fn document_run(
    pages: Seq<Page>,
    i: int,
    earlier: Seq<ChunkContent>,
    max_tokens: nat,
    overlap_tokens: nat,
) -> Result<Seq<ChunkContent>, SplitFault>
    decreases pages.len() - i,
{
    if i < 0 || i >= pages.len() {
        Ok(earlier)
    } else {
        match page_run(earlier, pages[i].text@, pages[i].page_num, max_tokens, overlap_tokens) {
            Err(fault) => Err(fault),
            Ok(chunks) => document_run(pages, i + 1, chunks, max_tokens, overlap_tokens),
        }
    }
}

/// The chunks of a document.
pub open spec fn document_chunks(pages: Seq<Page>, max_tokens: nat, overlap_tokens: nat) -> Result<
    Seq<ChunkContent>,
    SplitFault,
> {
    document_run(pages, 0, Seq::empty(), max_tokens, overlap_tokens)
}

/// Whether `result` is what a run that ends in `expected` returns: the
/// same chunks but for their identifiers, or an error of the same fault.
pub open spec fn agrees(
    result: Result<Vec<Chunk>, SplitError>,
    expected: Result<Seq<ChunkContent>, SplitFault>,
) -> bool {
    match result {
        Ok(chunks) => expected == Ok::<Seq<ChunkContent>, SplitFault>(contents(chunks@)),
        Err(error) => expected == Err::<Seq<ChunkContent>, SplitFault>(error.fault()),
    }
}

/// Splits pages into chunks of whole sentences under a token budget.
pub struct SentenceTextSplitter {
    max_tokens: usize,
    overlap_tokens: u128,
}

impl SentenceTextSplitter {
    #[verifier::type_invariant]
    spec fn well_formed(self) -> bool {
        self.max_tokens > 0
    }

    /// The token budget of a chunk.
    pub closed spec fn max_tokens(self) -> nat {
        self.max_tokens as nat
    }

    /// The share of the budget that is carried over between chunks.
    pub closed spec fn overlap_tokens(self) -> nat {
        self.overlap_tokens as nat
    }

    /// A splitter with a budget of `max_tokens` tokens per chunk, of which
    /// `overlap_percent` in a hundred, rounded down, are carried over
    /// between chunks. A budget of zero is refused.
    pub fn new(max_tokens: usize, overlap_percent: usize) -> (result: Result<Self, SplitError>)
        ensures
            result is Ok <==> max_tokens > 0,
            result matches Ok(splitter) ==> splitter.max_tokens() == max_tokens
                && splitter.overlap_tokens() == (max_tokens * overlap_percent) / 100,
            result matches Err(e) ==> e is ZeroMaxTokens,
    {
        if max_tokens == 0 {
            return Err(SplitError::ZeroMaxTokens);
        }
        assert(max_tokens * overlap_percent <= 0xFFFF_FFFF_FFFF_FFFF * 0xFFFF_FFFF_FFFF_FFFF)
            by (nonlinear_arith)
            requires
                0 <= max_tokens <= 0xFFFF_FFFF_FFFF_FFFF,
                0 <= overlap_percent <= 0xFFFF_FFFF_FFFF_FFFF,
        ;
        let product: u128 = (max_tokens as u128) * (overlap_percent as u128);
        Ok(SentenceTextSplitter { max_tokens, overlap_tokens: product / 100 })
    }

    /// The sentences of `text`, in order.
    pub fn split_into_sentences(&self, text: &str) -> (sentences: Vec<String>)
        ensures
            texts(sentences@) == sentences_of(text@),
    {
        let chars = to_chars(text);
        let n = chars.len();
        let mut sentences: Vec<String> = Vec::new();
        let mut start: usize = 0;
        let mut i: usize = 0;
        assert(chars@.subrange(0, n as int) =~= chars@);
        assert(texts(sentences@) =~= Seq::<Seq<char>>::empty());
        while i < n
            invariant
                start <= i <= n == chars.len(),
                forall|j: int| start <= j < i ==> !is_terminal(#[trigger] chars@[j]),
                sentences_of(chars@) == texts(sentences@) + sentences_of(
                    chars@.subrange(start as int, n as int),
                ),
            decreases n - i,
        {
            if is_sentence_end(chars[i]) {
                let ghost tail = chars@.subrange(start as int, n as int);
                let (a, b) = trim_range(&chars, start, i + 1);
                proof {
                    assert forall|j: int| 0 <= j < i - start implies !is_terminal(
                        #[trigger] tail[j],
                    ) by {
                        assert(tail[j] == chars@[start + j]);
                    }
                    lemma_sentences_first(tail, i - start);
                    assert(tail.subrange(0, i - start + 1) =~= chars@.subrange(
                        start as int,
                        i + 1,
                    ));
                    assert(tail.subrange(i - start + 1, tail.len() as int) =~= chars@.subrange(
                        i + 1,
                        n as int,
                    ));
                }
                if a < b {
                    let sentence = substring(&chars, a, b);
                    proof {
                        assert(texts(sentences@.push(sentence)) =~= texts(sentences@)
                            + seq![sentence@]);
                    }
                    sentences.push(sentence);
                }
                start = i + 1;
            }
            i += 1;
        }
        let ghost tail = chars@.subrange(start as int, n as int);
        let (a, b) = trim_range(&chars, start, n);
        proof {
            assert forall|j: int| 0 <= j < tail.len() implies !is_terminal(#[trigger] tail[j]) by {
                assert(tail[j] == chars@[start + j]);
            }
            lemma_sentences_last(tail);
        }
        if a < b {
            let sentence = substring(&chars, a, b);
            proof {
                assert(texts(sentences@.push(sentence)) =~= texts(sentences@) + seq![sentence@]);
            }
            sentences.push(sentence);
        }
        sentences
    }

    /// `earlier` followed by the chunks of `page`, each under a fresh
    /// identifier of `ID_CHARS` characters.
    pub fn split_page(&self, page: &Page, earlier: Vec<Chunk>) -> (result: Result<
        Vec<Chunk>,
        SplitError,
    >)
        ensures
            agrees(
                result,
                page_run(
                    contents(earlier@),
                    page.text@,
                    page.page_num,
                    self.max_tokens(),
                    self.overlap_tokens(),
                ),
            ),
            result matches Ok(chunks) ==> chunks@.len() >= earlier@.len() && forall|k: int|
                0 <= k < chunks@.len() ==> (#[trigger] chunks@[k]).page_num == (if k
                    < earlier@.len() {
                    earlier@[k].page_num
                } else {
                    page.page_num
                }),
            result matches Ok(chunks) ==> forall|k: int|
                0 <= k < chunks@.len() ==> if k < earlier@.len() {
                    #[trigger] chunks@[k] == earlier@[k]
                } else {
                    chunks@[k].id@.len() == ID_CHARS
                },
    {
        proof {
            use_type_invariant(self);
        }
        let sentences = self.split_into_sentences(page.text.as_str());
        let n = sentences.len();
        let mut buffer = ChunkBuffer::new();
        let mut chunks = earlier;
        let mut i: usize = 0;
        while i < n
            invariant
                i <= n == sentences.len(),
                self.max_tokens > 0,
                page_run(
                    contents(earlier@),
                    page.text@,
                    page.page_num,
                    self.max_tokens(),
                    self.overlap_tokens(),
                ) == run(
                    Assembly { chunks: contents(chunks@), buffer: buffer@ },
                    texts(sentences@),
                    i as int,
                    page.page_num,
                    self.max_tokens(),
                    self.overlap_tokens(),
                ),
                chunks@.len() >= earlier@.len(),
                forall|k: int|
                    0 <= k < chunks@.len() ==> (#[trigger] chunks@[k]).page_num == (if k
                        < earlier@.len() {
                        earlier@[k].page_num
                    } else {
                        page.page_num
                    }),
                forall|k: int|
                    0 <= k < chunks@.len() ==> if k < earlier@.len() {
                        #[trigger] chunks@[k] == earlier@[k]
                    } else {
                        chunks@[k].id@.len() == ID_CHARS
                    },
            decreases n - i,
        {
            let sentence = sentences[i].as_str();
            assert(texts(sentences@)[i as int] == sentence@);
            let sentence_tokens = match count_tokens(sentence) {
                Ok(count) => count,
                Err(error) => {
                    return Err(error);
                },
            };
            if buffer.must_close(sentence_tokens, self.max_tokens) {
                let seed = buffer.seed_text(self.max_tokens, self.overlap_tokens);
                let seed_tokens = match count_tokens(seed.as_str()) {
                    Ok(count) => count,
                    Err(error) => {
                        return Err(error);
                    },
                };
                let chunk = buffer.close(fresh_id(), page.page_num);
                proof {
                    assert(contents(chunks@.push(chunk)) =~= contents(chunks@).push(chunk@));
                }
                chunks.push(chunk);
                buffer = ChunkBuffer::seeded(seed, seed_tokens);
            }
            match buffer.push_sentence(sentence, sentence_tokens) {
                Ok(()) => {},
                Err(error) => {
                    return Err(error);
                },
            }
            i += 1;
        }
        if buffer.has_text() {
            let chunk = buffer.close(fresh_id(), page.page_num);
            proof {
                assert(contents(chunks@.push(chunk)) =~= contents(chunks@).push(chunk@));
            }
            chunks.push(chunk);
        }
        Ok(chunks)
    }
}

impl TextSplitter for SentenceTextSplitter {
    /// The chunks of `pages`: each page is cut into sentences, and the
    /// sentences are packed into chunks page by page. Each chunk has a
    /// fresh identifier of `ID_CHARS` characters. Fails where the tokenizer
    /// fails on a text, or a token total does not fit in `usize`.
    fn split(&self, pages: &[Page]) -> (result: Result<Vec<Chunk>, SplitError>)
        ensures
            agrees(result, document_chunks(pages@, self.max_tokens(), self.overlap_tokens())),
            result matches Ok(chunks) ==> forall|j: int|
                0 <= j < chunks@.len() ==> (#[trigger] chunks@[j]).char_count
                    == chunks@[j].text@.len(),
            result matches Ok(chunks) ==> forall|j: int|
                0 <= j < chunks@.len() ==> (#[trigger] chunks@[j]).id@.len() == ID_CHARS,
    {
        let n = pages.len();
        let mut chunks: Vec<Chunk> = Vec::new();
        let mut p: usize = 0;
        assert(contents(chunks@) =~= Seq::<ChunkContent>::empty());
        while p < n
            invariant
                p <= n == pages@.len(),
                document_chunks(pages@, self.max_tokens(), self.overlap_tokens()) == document_run(
                    pages@,
                    p as int,
                    contents(chunks@),
                    self.max_tokens(),
                    self.overlap_tokens(),
                ),
                forall|k: int|
                    0 <= k < chunks@.len() ==> exists|q: int|
                        0 <= q < pages@.len() && (#[trigger] pages@[q]).page_num == (
                        #[trigger] chunks@[k]).page_num,
                forall|k: int| 0 <= k < chunks@.len() ==> (#[trigger] chunks@[k]).id@.len() == ID_CHARS,
            decreases n - p,
        {
            let ghost before = chunks@;
            chunks = match self.split_page(&pages[p], chunks) {
                Ok(chunks) => chunks,
                Err(error) => {
                    return Err(error);
                },
            };
            proof {
                assert forall|k: int| 0 <= k < chunks@.len() implies exists|q: int|
                    0 <= q < pages@.len() && (#[trigger] pages@[q]).page_num == (
                    #[trigger] chunks@[k]).page_num by {
                    if k < before.len() {
                        let q = choose|q: int|
                            0 <= q < pages@.len() && (#[trigger] pages@[q]).page_num
                                == before[k].page_num;
                        assert(pages@[q].page_num == chunks@[k].page_num);
                    } else {
                        assert(pages@[p as int].page_num == chunks@[k].page_num);
                    }
                }
            }
            p += 1;
        }
        proof {
            lemma_document_chunks_are_measured(
                pages@,
                self.max_tokens(),
                self.overlap_tokens(),
            );
            assert forall|j: int| 0 <= j < chunks@.len() implies (#[trigger] chunks@[j]).char_count
                == chunks@[j].text@.len() by {
                let all = document_chunks(
                    pages@,
                    self.max_tokens(),
                    self.overlap_tokens(),
                )->Ok_0;
                assert(all == contents(chunks@));
                assert(is_measured(all[j]));
            }
        }
        Ok(chunks)
    }
}

/// Splitting the same input with the same parameters twice gives the same
/// chunks but for their identifiers, or fails in the same way.
pub proof fn lemma_split_is_repeatable(
    first: Result<Vec<Chunk>, SplitError>,
    second: Result<Vec<Chunk>, SplitError>,
    pages: Seq<Page>,
    max_tokens: nat,
    overlap_tokens: nat,
)
    requires
        agrees(first, document_chunks(pages, max_tokens, overlap_tokens)),
        agrees(second, document_chunks(pages, max_tokens, overlap_tokens)),
    ensures
        first is Ok <==> second is Ok,
        first matches Ok(a) ==> second matches Ok(b) && contents(a@) == contents(b@),
        first matches Err(e) ==> second matches Err(f) && e.fault() == f.fault(),
{
}

/// A page of one sentence gives one chunk that holds the sentence whole,
/// however many tokens it has: the budget never cuts a sentence.
pub proof fn lemma_lone_sentence_is_one_chunk(
    text: Seq<char>,
    page_num: u32,
    max_tokens: nat,
    overlap_tokens: nat,
)
    requires
        sentences_of(text).len() == 1,
        token_count(sentences_of(text)[0]) matches Some(n) && n <= usize::MAX,
    ensures
        page_chunks(text, page_num, max_tokens, overlap_tokens) matches Ok(chunks)
            && chunks.len() == 1 && chunks[0] == (ChunkContent {
            page_num,
            text: trimmed(sentences_of(text)[0]),
            token_count: token_count(sentences_of(text)[0])->Some_0,
            char_count: sentences_of(text)[0].len(),
        }),
{
    reveal_with_fuel(run, 3);
    let sentence = sentences_of(text)[0];
    lemma_sentences_are_clean(text, 0);
    lemma_trim_of_clean(sentence);
    assert(appended(Seq::<char>::empty(), sentence) == sentence);
}

} // verus!
