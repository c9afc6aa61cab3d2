//! What holds of the chunks of every page: each chunk is a run of whole
//! sentences after the words carried over from the chunk before it.

use super::chunk::{ChunkContent, SplitFault};
use super::sentence::{
    Assembly, BufferState, appended, closed_chunk, document_chunks, document_run, kept_words,
    lemma_sentences_are_clean, overlap_seed, page_chunks, run, sentences_of, step,
};
use super::tokens::token_count;
use crate::parser::Page;
use crate::text::{
    all_words, begins_with, is_clean, is_word, lemma_joined_is_clean, lemma_trim_of_clean,
    lemma_words_are_words, lemma_words_concat, lemma_words_of_joined, trimmed, words,
};
use vstd::prelude::*;

verus! {

/// The part of a page that one chunk holds: the sentences from `first` up
/// to `end`, after the seed carried over from the chunk before, which was
/// counted as `seed_tokens` tokens.
pub struct Span {
    pub seed: Seq<char>,
    pub seed_tokens: nat,
    pub first: int,
    pub end: int,
}

/// The tokens of a text, where the tokenizer counts them.
pub open spec fn tokens_of(text: Seq<char>) -> nat {
    match token_count(text) {
        Some(n) => n,
        None => 0,
    }
}

/// `seed` with the sentences from `first` up to `end` appended, each after
/// a single space.
pub open spec fn span_text(seed: Seq<char>, sentences: Seq<Seq<char>>, first: int, end: int) -> Seq<
    char,
>
    decreases end - first,
{
    if end <= first {
        seed
    } else {
        appended(span_text(seed, sentences, first, end - 1), sentences[end - 1])
    }
}

/// `seed_tokens` and the tokens of the sentences from `first` up to `end`,
/// each counted by itself.
pub open spec fn span_tokens(seed_tokens: nat, sentences: Seq<Seq<char>>, first: int, end: int) -> nat
    decreases end - first,
{
    if end <= first {
        seed_tokens
    } else {
        span_tokens(seed_tokens, sentences, first, end - 1) + tokens_of(sentences[end - 1])
    }
}

/// `chunk` holds what `span` says.
pub open spec fn chunk_holds(
    chunk: ChunkContent,
    span: Span,
    sentences: Seq<Seq<char>>,
    page_num: u32,
) -> bool {
    &&& 0 <= span.first < span.end <= sentences.len()
    &&& chunk.page_num == page_num
    &&& chunk.text == span_text(span.seed, sentences, span.first, span.end)
    &&& chunk.char_count == chunk.text.len()
    &&& chunk.token_count == span_tokens(span.seed_tokens, sentences, span.first, span.end)
    &&& is_clean(chunk.text)
}

/// The chunk after `before` starts from the words carried over from it, and
/// goes on with the sentence that follows its last one.
pub open spec fn follows(
    span: Span,
    before: Span,
    before_chunk: ChunkContent,
    max_tokens: nat,
    overlap_tokens: nat,
) -> bool {
    &&& span.first == before.end
    &&& span.seed == overlap_seed(before_chunk.text, max_tokens, overlap_tokens)
    &&& token_count(span.seed) == Some(span.seed_tokens)
}

/// `chunks` hold the sentences as `spans` say: chunk for chunk, one after
/// the other, the first without a seed.
pub open spec fn chained(
    chunks: Seq<ChunkContent>,
    spans: Seq<Span>,
    sentences: Seq<Seq<char>>,
    page_num: u32,
    max_tokens: nat,
    overlap_tokens: nat,
) -> bool {
    &&& spans.len() == chunks.len()
    &&& forall|j: int|
        0 <= j < spans.len() ==> chunk_holds(#[trigger] chunks[j], spans[j], sentences, page_num)
    &&& spans.len() > 0 ==> spans[0].first == 0 && spans[0].seed.len() == 0
        && spans[0].seed_tokens == 0
    &&& forall|j: int|
        0 <= j < spans.len() - 1 ==> follows(
            #[trigger] spans[j + 1],
            spans[j],
            chunks[j],
            max_tokens,
            overlap_tokens,
        )
}

/// `chunks` are the sentences of a page, whole and in order: `chained`, and
/// the last chunk ends with the last sentence.
pub open spec fn holds_whole_sentences(
    chunks: Seq<ChunkContent>,
    spans: Seq<Span>,
    sentences: Seq<Seq<char>>,
    page_num: u32,
    max_tokens: nat,
    overlap_tokens: nat,
) -> bool {
    &&& chained(chunks, spans, sentences, page_num, max_tokens, overlap_tokens)
    &&& if sentences.len() == 0 {
        spans.len() == 0
    } else {
        spans.len() > 0 && spans.last().end == sentences.len()
    }
    &&& forall|k: int| 0 <= k < sentences.len() ==> token_count(#[trigger] sentences[k]) is Some
}

/// All of `sentences` are clean.
pub open spec fn all_clean(sentences: Seq<Seq<char>>) -> bool {
    forall|k: int| 0 <= k < sentences.len() ==> is_clean(#[trigger] sentences[k])
}

/// What holds between the sentences on a run: the chunks emitted so far
/// are chained, and the buffer holds the span under construction.
pub open spec fn on_track(
    a: Assembly,
    spans: Seq<Span>,
    current: Span,
    sentences: Seq<Seq<char>>,
    i: int,
    page_num: u32,
    max_tokens: nat,
    overlap_tokens: nat,
) -> bool {
    &&& 0 <= i <= sentences.len()
    &&& chained(a.chunks, spans, sentences, page_num, max_tokens, overlap_tokens)
    &&& current.end == i
    &&& 0 <= current.first <= i
    &&& a.buffer.text == span_text(current.seed, sentences, current.first, i)
    &&& a.buffer.tokens == span_tokens(current.seed_tokens, sentences, current.first, i)
    &&& a.buffer.text.len() == 0 || is_clean(a.buffer.text)
    &&& current.first < i ==> a.buffer.text.len() > 0
    &&& current.first == i ==> i == 0 && a.buffer.text.len() == 0
    &&& if spans.len() == 0 {
        current.first == 0 && current.seed.len() == 0 && current.seed_tokens == 0
    } else {
        follows(current, spans.last(), a.chunks.last(), max_tokens, overlap_tokens)
    }
    &&& forall|k: int| 0 <= k < i ==> token_count(#[trigger] sentences[k]) is Some
}

/// A clean sentence appended to a clean or empty text gives a clean text.
pub proof fn lemma_appended_is_clean(text: Seq<char>, sentence: Seq<char>)
    requires
        text.len() == 0 || is_clean(text),
        is_clean(sentence),
    ensures
        is_clean(appended(text, sentence)),
{
    if text.len() > 0 {
        let joined_text = text + seq![' '] + sentence;
        assert(joined_text[0] == text[0]);
        assert(joined_text.last() == sentence.last());
    }
}

/// The seed carried over from a text is empty or clean.
pub proof fn lemma_seed_is_clean(text: Seq<char>, max_tokens: nat, overlap_tokens: nat)
    ensures
        overlap_seed(text, max_tokens, overlap_tokens).len() == 0 || is_clean(
            overlap_seed(text, max_tokens, overlap_tokens),
        ),
        all_words(kept_words(text, max_tokens, overlap_tokens)),
{
    lemma_words_are_words(text);
    let w = words(text);
    let kept = kept_words(text, max_tokens, overlap_tokens);
    assert forall|i: int| 0 <= i < kept.len() implies is_word(#[trigger] kept[i]) by {
        assert(kept[i] == w[w.len() - kept.len() + i]);
    }
    if kept.len() > 0 {
        lemma_joined_is_clean(kept);
    }
}

/// Closing the buffer of a run that is on track gives a chunk that holds
/// the span under construction.
pub proof fn lemma_closed_chunk_holds(
    a: Assembly,
    spans: Seq<Span>,
    current: Span,
    sentences: Seq<Seq<char>>,
    i: int,
    page_num: u32,
    max_tokens: nat,
    overlap_tokens: nat,
)
    requires
        on_track(a, spans, current, sentences, i, page_num, max_tokens, overlap_tokens),
        a.buffer.text.len() > 0,
    ensures
        chained(
            a.chunks.push(closed_chunk(a.buffer, page_num)),
            spans.push(current),
            sentences,
            page_num,
            max_tokens,
            overlap_tokens,
        ),
        closed_chunk(a.buffer, page_num).text == a.buffer.text,
{
    lemma_trim_of_clean(a.buffer.text);
    let chunk = closed_chunk(a.buffer, page_num);
    let chunks = a.chunks.push(chunk);
    let all = spans.push(current);
    assert(chunk_holds(chunk, current, sentences, page_num));
    assert forall|j: int| 0 <= j < all.len() implies chunk_holds(
        #[trigger] chunks[j],
        all[j],
        sentences,
        page_num,
    ) by {
        if j < spans.len() {
            assert(chunks[j] == a.chunks[j]);
            assert(all[j] == spans[j]);
        }
    }
    assert forall|j: int| 0 <= j < all.len() - 1 implies follows(
        #[trigger] all[j + 1],
        all[j],
        chunks[j],
        max_tokens,
        overlap_tokens,
    ) by {
        if j + 1 < spans.len() {
            assert(all[j + 1] == spans[j + 1]);
            assert(all[j] == spans[j]);
            assert(chunks[j] == a.chunks[j]);
        } else {
            assert(all[j + 1] == current);
            assert(all[j] == spans.last());
            assert(chunks[j] == a.chunks.last());
        }
    }
    if spans.len() > 0 {
        assert(all[0] == spans[0]);
    }
}

/// A run that is on track ends with chunks that hold the sentences whole.
pub proof fn lemma_run_holds_whole_sentences(
    a: Assembly,
    spans: Seq<Span>,
    current: Span,
    sentences: Seq<Seq<char>>,
    i: int,
    page_num: u32,
    max_tokens: nat,
    overlap_tokens: nat,
) -> (all: Seq<Span>)
    requires
        all_clean(sentences),
        on_track(a, spans, current, sentences, i, page_num, max_tokens, overlap_tokens),
        run(a, sentences, i, page_num, max_tokens, overlap_tokens) is Ok,
    ensures
        holds_whole_sentences(
            run(a, sentences, i, page_num, max_tokens, overlap_tokens)->Ok_0,
            all,
            sentences,
            page_num,
            max_tokens,
            overlap_tokens,
        ),
    decreases sentences.len() - i,
{
    if i >= sentences.len() {
        if a.buffer.text.len() > 0 {
            lemma_closed_chunk_holds(
                a,
                spans,
                current,
                sentences,
                i,
                page_num,
                max_tokens,
                overlap_tokens,
            );
            spans.push(current)
        } else {
            assert(trimmed(a.buffer.text) =~= Seq::<char>::empty());
            spans
        }
    } else {
        let sentence = sentences[i];
        assert(is_clean(sentence));
        let n = token_count(sentence)->Some_0;
        let next = step(a, sentence, page_num, max_tokens, overlap_tokens)->Ok_0;
        if a.buffer.tokens + n > max_tokens && a.buffer.text.len() > 0 {
            lemma_closed_chunk_holds(
                a,
                spans,
                current,
                sentences,
                i,
                page_num,
                max_tokens,
                overlap_tokens,
            );
            let seed = overlap_seed(a.buffer.text, max_tokens, overlap_tokens);
            lemma_seed_is_clean(a.buffer.text, max_tokens, overlap_tokens);
            let t = token_count(seed)->Some_0;
            let fresh = Span { seed, seed_tokens: t, first: i, end: i + 1 };
            lemma_appended_is_clean(seed, sentence);
            assert(span_text(seed, sentences, i, i) == seed);
            assert(span_tokens(t, sentences, i, i) == t);
            let closed = spans.push(current);
            assert(closed.last() == current);
            assert(next.chunks.last() == closed_chunk(a.buffer, page_num));
            lemma_run_holds_whole_sentences(
                next,
                closed,
                fresh,
                sentences,
                i + 1,
                page_num,
                max_tokens,
                overlap_tokens,
            )
        } else {
            let grown = Span { end: i + 1, ..current };
            lemma_appended_is_clean(a.buffer.text, sentence);
            lemma_run_holds_whole_sentences(
                next,
                spans,
                grown,
                sentences,
                i + 1,
                page_num,
                max_tokens,
                overlap_tokens,
            )
        }
    }
}

/// The chunks of a page hold its sentences whole: each chunk is the seed
/// carried over from the chunk before it, followed by one or more whole
/// sentences, each after a single space; the chunks take the sentences in
/// order and leave none out. Each chunk's `char_count` is the length of its
/// text, and its `token_count` is the token count of its seed and of each
/// of its sentences, added up.
pub proof fn lemma_chunks_hold_whole_sentences(
    text: Seq<char>,
    page_num: u32,
    max_tokens: nat,
    overlap_tokens: nat,
) -> (spans: Seq<Span>)
    requires
        page_chunks(text, page_num, max_tokens, overlap_tokens) is Ok,
    ensures
        holds_whole_sentences(
            page_chunks(text, page_num, max_tokens, overlap_tokens)->Ok_0,
            spans,
            sentences_of(text),
            page_num,
            max_tokens,
            overlap_tokens,
        ),
{
    let sentences = sentences_of(text);
    assert forall|k: int| 0 <= k < sentences.len() implies is_clean(#[trigger] sentences[k]) by {
        lemma_sentences_are_clean(text, k);
    }
    let start = Assembly {
        chunks: Seq::empty(),
        buffer: BufferState { text: Seq::empty(), tokens: 0 },
    };
    let current = Span { seed: Seq::empty(), seed_tokens: 0, first: 0, end: 0 };
    lemma_run_holds_whole_sentences(
        start,
        Seq::empty(),
        current,
        sentences,
        0,
        page_num,
        max_tokens,
        overlap_tokens,
    )
}

/// The words of a span's text begin with the words of its seed.
pub proof fn lemma_span_begins_with_seed(
    seed: Seq<char>,
    sentences: Seq<Seq<char>>,
    first: int,
    end: int,
)
    ensures
        begins_with(words(span_text(seed, sentences, first, end)), words(seed)),
    decreases end - first,
{
    if end <= first {
        let w = words(seed);
        assert(w.subrange(0, w.len() as int) =~= w);
    } else {
        let before = span_text(seed, sentences, first, end - 1);
        let sentence = sentences[end - 1];
        lemma_span_begins_with_seed(seed, sentences, first, end - 1);
        let w = words(seed);
        if before.len() == 0 {
            assert(words(before) =~= Seq::<Seq<char>>::empty());
            assert(w.len() == 0);
            assert(words(appended(before, sentence)).subrange(0, 0) =~= w);
        } else {
            lemma_words_concat(before, ' ', sentence);
            assert((words(before) + words(sentence)).subrange(0, w.len() as int) =~= words(
                before,
            ).subrange(0, w.len() as int));
        }
    }
}

/// Of two chunks of one page that follow each other, the second begins
/// with the last words of the first: as many as `retained_words` says, in
/// their order.
pub proof fn lemma_chunks_overlap(
    text: Seq<char>,
    page_num: u32,
    max_tokens: nat,
    overlap_tokens: nat,
    j: int,
)
    requires
        page_chunks(text, page_num, max_tokens, overlap_tokens) matches Ok(chunks) && 0 <= j < j
            + 1 < chunks.len(),
    ensures
        page_chunks(text, page_num, max_tokens, overlap_tokens) matches Ok(chunks) && begins_with(
            words(chunks[j + 1].text),
            kept_words(chunks[j].text, max_tokens, overlap_tokens),
        ),
{
    let chunks = page_chunks(text, page_num, max_tokens, overlap_tokens)->Ok_0;
    let sentences = sentences_of(text);
    let spans = lemma_chunks_hold_whole_sentences(text, page_num, max_tokens, overlap_tokens);
    let span = spans[j + 1];
    assert(chunk_holds(chunks[j + 1], span, sentences, page_num));
    assert(follows(span, spans[j], chunks[j], max_tokens, overlap_tokens));
    lemma_span_begins_with_seed(span.seed, sentences, span.first, span.end);
    lemma_seed_is_clean(chunks[j].text, max_tokens, overlap_tokens);
    lemma_words_of_joined(kept_words(chunks[j].text, max_tokens, overlap_tokens));
}

/// The `char_count` of every chunk of a page is the length of its text,
/// and its text has no whitespace at either end.
pub proof fn lemma_char_count_is_text_length(
    text: Seq<char>,
    page_num: u32,
    max_tokens: nat,
    overlap_tokens: nat,
    j: int,
)
    requires
        page_chunks(text, page_num, max_tokens, overlap_tokens) matches Ok(chunks) && 0 <= j
            < chunks.len(),
    ensures
        page_chunks(text, page_num, max_tokens, overlap_tokens) matches Ok(chunks)
            && chunks[j].char_count == chunks[j].text.len() && is_clean(chunks[j].text)
            && chunks[j].page_num == page_num,
{
    let chunks = page_chunks(text, page_num, max_tokens, overlap_tokens)->Ok_0;
    let spans = lemma_chunks_hold_whole_sentences(text, page_num, max_tokens, overlap_tokens);
    assert(chunk_holds(chunks[j], spans[j], sentences_of(text), page_num));
}

/// A chunk of one sentence and no seed has the token count that the
/// tokenizer gives its text. With a seed or more sentences the count is
/// the sum over the parts, which the tokenizer need not give the whole.
pub proof fn lemma_token_count_of_one_sentence(
    chunk: ChunkContent,
    span: Span,
    sentences: Seq<Seq<char>>,
    page_num: u32,
)
    requires
        chunk_holds(chunk, span, sentences, page_num),
        span.end == span.first + 1,
        span.seed.len() == 0,
        span.seed_tokens == 0,
        token_count(sentences[span.first]) is Some,
    ensures
        token_count(chunk.text) == Some(chunk.token_count),
{
    assert(span_text(span.seed, sentences, span.first, span.first) == span.seed);
    assert(span_tokens(span.seed_tokens, sentences, span.first, span.first) == span.seed_tokens);
}

/// Without overlap no chunk has a seed, and a chunk of one sentence has
/// the token count that the tokenizer gives its text.
pub proof fn lemma_chunks_without_overlap(text: Seq<char>, page_num: u32, max_tokens: nat) -> (spans:
    Seq<Span>)
    requires
        max_tokens > 0,
        page_chunks(text, page_num, max_tokens, 0) is Ok,
    ensures
        holds_whole_sentences(
            page_chunks(text, page_num, max_tokens, 0)->Ok_0,
            spans,
            sentences_of(text),
            page_num,
            max_tokens,
            0,
        ),
        forall|j: int|
            0 <= j < spans.len() ==> (#[trigger] spans[j]).seed.len() == 0 && spans[j].seed_tokens
                == 0,
        forall|j: int|
            0 <= j < spans.len() && (#[trigger] spans[j]).end == spans[j].first + 1
                ==> token_count(page_chunks(text, page_num, max_tokens, 0)->Ok_0[j].text) == Some(
                page_chunks(text, page_num, max_tokens, 0)->Ok_0[j].token_count,
            ),
{
    let chunks = page_chunks(text, page_num, max_tokens, 0)->Ok_0;
    let sentences = sentences_of(text);
    let spans = lemma_chunks_hold_whole_sentences(text, page_num, max_tokens, 0);
    assert forall|j: int| 0 <= j < spans.len() implies (#[trigger] spans[j]).seed.len() == 0
        && spans[j].seed_tokens == 0 by {
        if j > 0 {
            assert(follows(spans[j - 1 + 1], spans[j - 1], chunks[j - 1], max_tokens, 0));
            let w = words(chunks[j - 1].text);
            assert((w.len() * 0nat) / max_tokens == 0) by (nonlinear_arith)
                requires
                    max_tokens > 0,
            ;
            assert(kept_words(chunks[j - 1].text, max_tokens, 0).len() == 0);
        }
    }
    assert forall|j: int|
        0 <= j < spans.len() && (#[trigger] spans[j]).end == spans[j].first + 1 implies token_count(
        chunks[j].text,
    ) == Some(chunks[j].token_count) by {
        assert(chunk_holds(chunks[j], spans[j], sentences, page_num));
        lemma_token_count_of_one_sentence(chunks[j], spans[j], sentences, page_num);
    }
    spans
}

/// `earlier` before the chunks of a run.
pub open spec fn after(
    earlier: Seq<ChunkContent>,
    chunks: Result<Seq<ChunkContent>, SplitFault>,
) -> Result<Seq<ChunkContent>, SplitFault> {
    match chunks {
        Ok(chunks) => Ok(earlier + chunks),
        Err(fault) => Err(fault),
    }
}

/// The chunks emitted before a run do not change what the run emits.
pub proof fn lemma_run_after(
    earlier: Seq<ChunkContent>,
    a: Assembly,
    sentences: Seq<Seq<char>>,
    i: int,
    page_num: u32,
    max_tokens: nat,
    overlap_tokens: nat,
)
    ensures
        run(
            Assembly { chunks: earlier + a.chunks, buffer: a.buffer },
            sentences,
            i,
            page_num,
            max_tokens,
            overlap_tokens,
        ) == after(earlier, run(a, sentences, i, page_num, max_tokens, overlap_tokens)),
    decreases sentences.len() - i,
{
    let b = Assembly { chunks: earlier + a.chunks, buffer: a.buffer };
    let closed = closed_chunk(a.buffer, page_num);
    assert(earlier + a.chunks.push(closed) =~= (earlier + a.chunks).push(closed));
    if 0 <= i < sentences.len() {
        match step(a, sentences[i], page_num, max_tokens, overlap_tokens) {
            Err(_) => {},
            Ok(next) => {
                let shifted = step(b, sentences[i], page_num, max_tokens, overlap_tokens)->Ok_0;
                assert(shifted.chunks =~= earlier + next.chunks);
                assert(shifted == Assembly { chunks: earlier + next.chunks, buffer: next.buffer });
                lemma_run_after(
                    earlier,
                    next,
                    sentences,
                    i + 1,
                    page_num,
                    max_tokens,
                    overlap_tokens,
                );
            },
        }
    }
}

/// The chunks of the pages from index `i` on, each page by itself, one
/// after the other.
pub open spec fn chunks_by_page(pages: Seq<Page>, i: int, max_tokens: nat, overlap_tokens: nat) -> Result<
    Seq<ChunkContent>,
    SplitFault,
>
    decreases pages.len() - i,
{
    if i < 0 || i >= pages.len() {
        Ok(Seq::empty())
    } else {
        match page_chunks(pages[i].text@, pages[i].page_num, max_tokens, overlap_tokens) {
            Err(fault) => Err(fault),
            Ok(chunks) => after(chunks, chunks_by_page(pages, i + 1, max_tokens, overlap_tokens)),
        }
    }
}

/// The pages of a document are split one by one.
pub proof fn lemma_document_run_by_page(
    pages: Seq<Page>,
    i: int,
    earlier: Seq<ChunkContent>,
    max_tokens: nat,
    overlap_tokens: nat,
)
    ensures
        document_run(pages, i, earlier, max_tokens, overlap_tokens) == after(
            earlier,
            chunks_by_page(pages, i, max_tokens, overlap_tokens),
        ),
    decreases pages.len() - i,
{
    if 0 <= i < pages.len() {
        let text = pages[i].text@;
        let page_num = pages[i].page_num;
        let start = Assembly {
            chunks: Seq::empty(),
            buffer: BufferState { text: Seq::empty(), tokens: 0 },
        };
        assert(earlier + start.chunks =~= earlier);
        lemma_run_after(
            earlier,
            start,
            sentences_of(text),
            0,
            page_num,
            max_tokens,
            overlap_tokens,
        );
        match page_chunks(text, page_num, max_tokens, overlap_tokens) {
            Err(_) => {},
            Ok(chunks) => {
                lemma_document_run_by_page(
                    pages,
                    i + 1,
                    earlier + chunks,
                    max_tokens,
                    overlap_tokens,
                );
                match chunks_by_page(pages, i + 1, max_tokens, overlap_tokens) {
                    Err(_) => {},
                    Ok(rest) => {
                        assert((earlier + chunks) + rest =~= earlier + (chunks + rest));
                    },
                }
            },
        }
    } else {
        assert(earlier + Seq::<ChunkContent>::empty() =~= earlier);
    }
}

/// The chunks of a document are the chunks of its pages, each page split
/// by itself: no chunk and no carried-over word crosses from one page to
/// the next.
pub proof fn lemma_pages_are_split_independently(
    pages: Seq<Page>,
    max_tokens: nat,
    overlap_tokens: nat,
)
    ensures
        document_chunks(pages, max_tokens, overlap_tokens) == chunks_by_page(
            pages,
            0,
            max_tokens,
            overlap_tokens,
        ),
{
    lemma_document_run_by_page(pages, 0, Seq::empty(), max_tokens, overlap_tokens);
    match chunks_by_page(pages, 0, max_tokens, overlap_tokens) {
        Ok(chunks) => {
            assert(Seq::<ChunkContent>::empty() + chunks =~= chunks);
        },
        Err(_) => {},
    }
}

/// `char_count` is the length of the text, and the text has no whitespace
/// at either end.
pub open spec fn is_measured(chunk: ChunkContent) -> bool {
    chunk.char_count == chunk.text.len() && is_clean(chunk.text)
}

/// Every chunk of the pages from index `i` on is measured.
pub proof fn lemma_chunks_by_page_are_measured(
    pages: Seq<Page>,
    i: int,
    max_tokens: nat,
    overlap_tokens: nat,
)
    requires
        chunks_by_page(pages, i, max_tokens, overlap_tokens) is Ok,
    ensures
        forall|j: int|
            0 <= j < chunks_by_page(pages, i, max_tokens, overlap_tokens)->Ok_0.len()
                ==> is_measured(
                #[trigger] chunks_by_page(pages, i, max_tokens, overlap_tokens)->Ok_0[j],
            ),
    decreases pages.len() - i,
{
    if 0 <= i < pages.len() {
        let text = pages[i].text@;
        let page_num = pages[i].page_num;
        let head = page_chunks(text, page_num, max_tokens, overlap_tokens)->Ok_0;
        let tail = chunks_by_page(pages, i + 1, max_tokens, overlap_tokens)->Ok_0;
        lemma_chunks_by_page_are_measured(pages, i + 1, max_tokens, overlap_tokens);
        let all = chunks_by_page(pages, i, max_tokens, overlap_tokens)->Ok_0;
        assert forall|j: int| 0 <= j < all.len() implies is_measured(#[trigger] all[j]) by {
            if j < head.len() {
                lemma_char_count_is_text_length(text, page_num, max_tokens, overlap_tokens, j);
                assert(all[j] == head[j]);
            } else {
                assert(all[j] == tail[j - head.len()]);
            }
        }
    }
}

/// For every chunk of a document, `char_count` is the length of its text.
pub proof fn lemma_document_chunks_are_measured(
    pages: Seq<Page>,
    max_tokens: nat,
    overlap_tokens: nat,
)
    requires
        document_chunks(pages, max_tokens, overlap_tokens) is Ok,
    ensures
        forall|j: int|
            0 <= j < document_chunks(pages, max_tokens, overlap_tokens)->Ok_0.len()
                ==> is_measured(
                #[trigger] document_chunks(pages, max_tokens, overlap_tokens)->Ok_0[j],
            ),
{
    lemma_pages_are_split_independently(pages, max_tokens, overlap_tokens);
    lemma_chunks_by_page_are_measured(pages, 0, max_tokens, overlap_tokens);
}

} // verus!
