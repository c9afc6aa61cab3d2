//! Character classes and the string primitives the parsers and the splitter
//! are built from: trimming, whitespace-separated words, and joining.
//!
//! Every function states its result over the `Seq<char>` view of the text.

use vstd::prelude::*;

verus! {

/// `String::push` appends one character to the end of the string.
pub assume_specification[ String::push ](s: &mut String, c: char)
    ensures
        final(s)@ == old(s)@.push(c),
;

/// The characters that carry the Unicode `White_Space` property.
pub open spec fn is_space(c: char) -> bool {
    let n = c as u32;
    ||| 0x09 <= n <= 0x0D
    ||| n == 0x20
    ||| n == 0x85
    ||| n == 0xA0
    ||| n == 0x1680
    ||| 0x2000 <= n <= 0x200A
    ||| n == 0x2028
    ||| n == 0x2029
    ||| n == 0x202F
    ||| n == 0x205F
    ||| n == 0x3000
}

/// Whether `c` is a whitespace character.
pub fn is_whitespace(c: char) -> (b: bool)
    ensures
        b == is_space(c),
{
    let n: u32 = c as u32;
    (0x09 <= n && n <= 0x0D) || n == 0x20 || n == 0x85 || n == 0xA0 || n == 0x1680 || (0x2000 <= n
        && n <= 0x200A) || n == 0x2028 || n == 0x2029 || n == 0x202F || n == 0x205F || n == 0x3000
}

/// Number of whitespace characters at the start of `s`.
pub open spec fn leading_spaces(s: Seq<char>) -> nat
    decreases s.len(),
{
    if s.len() > 0 && is_space(s[0]) {
        1 + leading_spaces(s.drop_first())
    } else {
        0
    }
}

/// Number of whitespace characters at the end of `s`.
pub open spec fn trailing_spaces(s: Seq<char>) -> nat
    decreases s.len(),
{
    if s.len() > 0 && is_space(s.last()) {
        1 + trailing_spaces(s.drop_last())
    } else {
        0
    }
}

/// `s` without its leading and trailing whitespace.
pub open spec fn trimmed(s: Seq<char>) -> Seq<char> {
    let a = leading_spaces(s);
    if a >= s.len() {
        Seq::empty()
    } else {
        s.subrange(a as int, s.len() - trailing_spaces(s))
    }
}

/// `leading_spaces` is the index of the first non-whitespace character.
pub proof fn lemma_leading_spaces(s: Seq<char>, a: int)
    requires
        0 <= a <= s.len(),
        forall|j: int| 0 <= j < a ==> is_space(#[trigger] s[j]),
        a < s.len() ==> !is_space(s[a]),
    ensures
        leading_spaces(s) == a,
    decreases s.len(),
{
    if a > 0 {
        let t = s.drop_first();
        assert forall|j: int| 0 <= j < a - 1 implies is_space(#[trigger] t[j]) by {
            assert(t[j] == s[j + 1]);
        }
        lemma_leading_spaces(t, a - 1);
    }
}

/// `trailing_spaces` counts back to the last non-whitespace character.
pub proof fn lemma_trailing_spaces(s: Seq<char>, b: int)
    requires
        0 <= b <= s.len(),
        forall|j: int| b <= j < s.len() ==> is_space(#[trigger] s[j]),
        b > 0 ==> !is_space(s[b - 1]),
    ensures
        trailing_spaces(s) == s.len() - b,
    decreases s.len(),
{
    if b < s.len() {
        let t = s.drop_last();
        assert forall|j: int| b <= j < t.len() implies is_space(#[trigger] t[j]) by {
            assert(t[j] == s[j]);
        }
        lemma_trailing_spaces(t, b);
    }
}

/// The characters of `text`, in order.
pub fn to_chars(text: &str) -> (chars: Vec<char>)
    ensures
        chars@ == text@,
{
    let mut chars: Vec<char> = Vec::new();
    for c in it: text.chars()
        invariant
            chars@ == it.seq().take(it.index() as int),
            it.seq() == text@,
    {
        chars.push(c);
    }
    chars
}

/// The string made of `chars[from..to]`.
pub fn substring(chars: &Vec<char>, from: usize, to: usize) -> (s: String)
    requires
        from <= to <= chars.len(),
    ensures
        s@ == chars@.subrange(from as int, to as int),
{
    let mut s = String::new();
    let mut i: usize = from;
    while i < to
        invariant
            from <= i <= to <= chars.len(),
            s@ == chars@.subrange(from as int, i as int),
        decreases to - i,
    {
        s.push(chars[i]);
        i += 1;
    }
    s
}

/// Index range `[a, b)` that remains of `chars[from..to]` after trimming.
pub fn trim_range(chars: &Vec<char>, from: usize, to: usize) -> (bounds: (usize, usize))
    requires
        from <= to <= chars.len(),
    ensures
        from <= bounds.0 <= bounds.1 <= to,
        trimmed(chars@.subrange(from as int, to as int)) == chars@.subrange(
            bounds.0 as int,
            bounds.1 as int,
        ),
{
    let ghost piece = chars@.subrange(from as int, to as int);
    let mut a: usize = from;
    while a < to && is_whitespace(chars[a])
        invariant
            from <= a <= to <= chars.len(),
            forall|j: int| from <= j < a ==> is_space(#[trigger] chars@[j]),
        decreases to - a,
    {
        a += 1;
    }
    proof {
        assert forall|j: int| 0 <= j < a - from implies is_space(#[trigger] piece[j]) by {
            assert(piece[j] == chars@[from + j]);
        }
        lemma_leading_spaces(piece, a - from);
    }
    if a == to {
        assert(chars@.subrange(a as int, a as int) =~= Seq::<char>::empty());
        return (a, a);
    }
    let mut b: usize = to;
    while b > a && is_whitespace(chars[b - 1])
        invariant
            from <= a <= b <= to <= chars.len(),
            a < to,
            !is_space(chars@[a as int]),
            forall|j: int| b <= j < to ==> is_space(#[trigger] chars@[j]),
        decreases b,
    {
        b -= 1;
    }
    proof {
        assert forall|j: int| b - from <= j < piece.len() implies is_space(#[trigger] piece[j]) by {
            assert(piece[j] == chars@[from + j]);
        }
        assert(piece[b - from - 1] == chars@[b - 1]);
        lemma_trailing_spaces(piece, b - from);
        assert(piece.subrange(a - from, b - from) =~= chars@.subrange(a as int, b as int));
    }
    (a, b)
}

/// `text` without its leading and trailing whitespace.
pub fn trim(text: &str) -> (s: String)
    ensures
        s@ == trimmed(text@),
{
    let chars = to_chars(text);
    assert(chars@.subrange(0, chars.len() as int) =~= chars@);
    let (a, b) = trim_range(&chars, 0, chars.len());
    substring(&chars, a, b)
}

/// The views of a sequence of strings.
pub open spec fn texts(strings: Seq<String>) -> Seq<Seq<char>> {
    Seq::new(strings.len(), |i: int| strings[i]@)
}

/// Number of non-whitespace characters at the start of `s`.
pub open spec fn word_len(s: Seq<char>) -> nat
    decreases s.len(),
{
    if s.len() > 0 && !is_space(s[0]) {
        1 + word_len(s.drop_first())
    } else {
        0
    }
}

/// The maximal runs of non-whitespace characters of `s`, in order.
pub open spec fn words(s: Seq<char>) -> Seq<Seq<char>>
    decreases s.len(),
{
    let a = leading_spaces(s);
    if a >= s.len() {
        Seq::empty()
    } else {
        let rest = s.subrange(a as int, s.len() as int);
        let w = word_len(rest);
        if w == 0 || w > rest.len() {
            Seq::empty()
        } else {
            seq![rest.subrange(0, w as int)] + words(rest.subrange(w as int, rest.len() as int))
        }
    }
}

/// `words` joined by single spaces.
pub open spec fn joined(words: Seq<Seq<char>>) -> Seq<char>
    decreases words.len(),
{
    if words.len() == 0 {
        Seq::empty()
    } else if words.len() == 1 {
        words[0]
    } else {
        joined(words.drop_last()) + seq![' '] + words.last()
    }
}

/// `word_len` is the index of the first whitespace character.
pub proof fn lemma_word_len(s: Seq<char>, b: int)
    requires
        0 <= b <= s.len(),
        forall|j: int| 0 <= j < b ==> !is_space(#[trigger] s[j]),
        b < s.len() ==> is_space(s[b]),
    ensures
        word_len(s) == b,
    decreases s.len(),
{
    if b > 0 {
        let t = s.drop_first();
        assert forall|j: int| 0 <= j < b - 1 implies !is_space(#[trigger] t[j]) by {
            assert(t[j] == s[j + 1]);
        }
        lemma_word_len(t, b - 1);
    }
}

/// A text of whitespace only has no words.
pub proof fn lemma_words_blank(s: Seq<char>)
    requires
        forall|j: int| 0 <= j < s.len() ==> is_space(#[trigger] s[j]),
    ensures
        words(s) == Seq::<Seq<char>>::empty(),
{
    lemma_leading_spaces(s, s.len() as int);
}

/// The first word of `s` is `s[a..b)` when only whitespace precedes it and
/// it ends at the end of `s` or before a whitespace character.
pub proof fn lemma_words_first(s: Seq<char>, a: int, b: int)
    requires
        0 <= a < b <= s.len(),
        forall|j: int| 0 <= j < a ==> is_space(#[trigger] s[j]),
        forall|j: int| a <= j < b ==> !is_space(#[trigger] s[j]),
        b < s.len() ==> is_space(s[b]),
    ensures
        words(s) == seq![s.subrange(a, b)] + words(s.subrange(b, s.len() as int)),
{
    lemma_leading_spaces(s, a);
    let rest = s.subrange(a, s.len() as int);
    assert forall|j: int| 0 <= j < b - a implies !is_space(#[trigger] rest[j]) by {
        assert(rest[j] == s[a + j]);
    }
    lemma_word_len(rest, b - a);
    assert(rest.subrange(0, b - a) =~= s.subrange(a, b));
    assert(rest.subrange(b - a, rest.len() as int) =~= s.subrange(b, s.len() as int));
}

/// The whitespace-separated words of `text`, in order.
pub fn split_whitespace(text: &str) -> (out: Vec<String>)
    ensures
        texts(out@) == words(text@),
{
    let chars = to_chars(text);
    let n = chars.len();
    let mut out: Vec<String> = Vec::new();
    let mut i: usize = 0;
    assert(chars@.subrange(0, n as int) =~= chars@);
    assert(texts(out@) =~= Seq::<Seq<char>>::empty());
    while i < n
        invariant
            i <= n == chars.len(),
            words(chars@) == texts(out@) + words(chars@.subrange(i as int, n as int)),
        decreases n - i,
    {
        let ghost tail = chars@.subrange(i as int, n as int);
        let mut a: usize = i;
        while a < n && is_whitespace(chars[a])
            invariant
                i <= a <= n == chars.len(),
                forall|j: int| i <= j < a ==> is_space(#[trigger] chars@[j]),
            decreases n - a,
        {
            a += 1;
        }
        if a == n {
            proof {
                lemma_words_blank(tail);
            }
            i = n;
            assert(chars@.subrange(n as int, n as int) =~= Seq::<char>::empty());
        } else {
            let mut b: usize = a + 1;
            while b < n && !is_whitespace(chars[b])
                invariant
                    a < b <= n == chars.len(),
                    forall|j: int| a <= j < b ==> !is_space(#[trigger] chars@[j]),
                decreases n - b,
            {
                b += 1;
            }
            let word = substring(&chars, a, b);
            proof {
                assert forall|j: int| 0 <= j < a - i implies is_space(#[trigger] tail[j]) by {
                    assert(tail[j] == chars@[i + j]);
                }
                assert forall|j: int| a - i <= j < b - i implies !is_space(#[trigger] tail[j]) by {
                    assert(tail[j] == chars@[i + j]);
                }
                lemma_words_first(tail, a - i, b - i);
                assert(tail.subrange(a - i, b - i) =~= chars@.subrange(a as int, b as int));
                assert(tail.subrange(b - i, tail.len() as int) =~= chars@.subrange(
                    b as int,
                    n as int,
                ));
                assert(texts(out@.push(word)) =~= texts(out@) + seq![word@]);
            }
            out.push(word);
            i = b;
        }
    }
    proof {
        assert(chars@.subrange(n as int, n as int) =~= Seq::<char>::empty());
    }
    out
}

/// The strings of `words[from..]` joined by single spaces.
pub fn join(words: &Vec<String>, from: usize) -> (s: String)
    requires
        from <= words.len(),
    ensures
        s@ == joined(texts(words@).subrange(from as int, words.len() as int)),
{
    let n = words.len();
    let mut s = String::new();
    let mut i: usize = from;
    while i < n
        invariant
            from <= i <= n == words.len(),
            s@ == joined(texts(words@).subrange(from as int, i as int)),
        decreases n - i,
    {
        let ghost before = texts(words@).subrange(from as int, i as int);
        let ghost after = texts(words@).subrange(from as int, i + 1);
        proof {
            assert(after.drop_last() =~= before);
            assert(after.last() == words@[i as int]@);
        }
        if i > from {
            s.push(' ');
        }
        s.append(words[i].as_str());
        i += 1;
    }
    s
}

/// Whether two texts hold the same characters.
pub fn same_text(a: &str, b: &str) -> (same: bool)
    ensures
        same == (a@ == b@),
{
    let x = to_chars(a);
    let y = to_chars(b);
    if x.len() != y.len() {
        return false;
    }
    let n = x.len();
    let mut i: usize = 0;
    while i < n
        invariant
            i <= n == x.len() == y.len(),
            x@ == a@,
            y@ == b@,
            forall|j: int| 0 <= j < i ==> x@[j] == y@[j],
        decreases n - i,
    {
        if x[i] != y[i] {
            assert(a@[i as int] != b@[i as int]);
            return false;
        }
        i += 1;
    }
    assert(x@ =~= y@);
    true
}

/// A text that neither starts nor ends with whitespace, and is not empty.
pub open spec fn is_clean(s: Seq<char>) -> bool {
    s.len() > 0 && !is_space(s[0]) && !is_space(s.last())
}

/// What `leading_spaces` counts: whitespace up to its value, and none at
/// it.
pub proof fn lemma_leading_spaces_counts(s: Seq<char>)
    ensures
        leading_spaces(s) <= s.len(),
        forall|j: int| 0 <= j < leading_spaces(s) ==> is_space(#[trigger] s[j]),
        leading_spaces(s) < s.len() ==> !is_space(s[leading_spaces(s) as int]),
    decreases s.len(),
{
    if s.len() > 0 && is_space(s[0]) {
        let t = s.drop_first();
        lemma_leading_spaces_counts(t);
        assert forall|j: int| 0 <= j < leading_spaces(s) implies is_space(#[trigger] s[j]) by {
            if j > 0 {
                assert(s[j] == t[j - 1]);
            }
        }
        if leading_spaces(s) < s.len() {
            assert(s[leading_spaces(s) as int] == t[leading_spaces(t) as int]);
        }
    }
}

/// What `trailing_spaces` counts: whitespace from its value to the end, and
/// none before it.
pub proof fn lemma_trailing_spaces_counts(s: Seq<char>)
    ensures
        trailing_spaces(s) <= s.len(),
        forall|j: int| s.len() - trailing_spaces(s) <= j < s.len() ==> is_space(#[trigger] s[j]),
        trailing_spaces(s) < s.len() ==> !is_space(s[s.len() - trailing_spaces(s) - 1]),
    decreases s.len(),
{
    if s.len() > 0 && is_space(s.last()) {
        let t = s.drop_last();
        lemma_trailing_spaces_counts(t);
        assert forall|j: int| s.len() - trailing_spaces(s) <= j < s.len() implies is_space(
            #[trigger] s[j],
        ) by {
            if j < s.len() - 1 {
                assert(s[j] == t[j]);
            }
        }
        if trailing_spaces(s) < s.len() {
            assert(s[s.len() - trailing_spaces(s) - 1] == t[t.len() - trailing_spaces(t) - 1]);
        }
    }
}

/// What trimming leaves is clean, unless it is empty.
pub proof fn lemma_trimmed_is_clean(s: Seq<char>)
    ensures
        trimmed(s).len() > 0 ==> is_clean(trimmed(s)),
        trimmed(s).len() <= s.len(),
{
    lemma_leading_spaces_counts(s);
    lemma_trailing_spaces_counts(s);
    let a = leading_spaces(s) as int;
    let t = trailing_spaces(s) as int;
    if a < s.len() {
        if s.len() - t <= a {
            assert(is_space(s[a]));
        }
        assert(a < s.len() - t);
        assert(trimmed(s)[0] == s[a]);
        assert(trimmed(s).last() == s[s.len() - t - 1]);
    }
}

/// Trimming leaves a clean text as it is.
pub proof fn lemma_trim_of_clean(s: Seq<char>)
    requires
        is_clean(s),
    ensures
        trimmed(s) == s,
{
    lemma_leading_spaces(s, 0);
    lemma_trailing_spaces(s, s.len() as int);
    assert(s.subrange(0, s.len() as int) =~= s);
}

/// A word: not empty, and without whitespace.
pub open spec fn is_word(w: Seq<char>) -> bool {
    w.len() > 0 && forall|j: int| 0 <= j < w.len() ==> !is_space(#[trigger] w[j])
}

/// Every element of `ws` is a word.
pub open spec fn all_words(ws: Seq<Seq<char>>) -> bool {
    forall|i: int| 0 <= i < ws.len() ==> is_word(#[trigger] ws[i])
}

/// `prefix` is how `ws` begins.
pub open spec fn begins_with(ws: Seq<Seq<char>>, prefix: Seq<Seq<char>>) -> bool {
    prefix.len() <= ws.len() && ws.subrange(0, prefix.len() as int) == prefix
}

/// What `word_len` counts: no whitespace up to its value, and whitespace at
/// it.
pub proof fn lemma_word_len_counts(s: Seq<char>)
    ensures
        word_len(s) <= s.len(),
        forall|j: int| 0 <= j < word_len(s) ==> !is_space(#[trigger] s[j]),
        word_len(s) < s.len() ==> is_space(s[word_len(s) as int]),
    decreases s.len(),
{
    if s.len() > 0 && !is_space(s[0]) {
        let t = s.drop_first();
        lemma_word_len_counts(t);
        assert forall|j: int| 0 <= j < word_len(s) implies !is_space(#[trigger] s[j]) by {
            if j > 0 {
                assert(s[j] == t[j - 1]);
            }
        }
        if word_len(s) < s.len() {
            assert(s[word_len(s) as int] == t[word_len(t) as int]);
        }
    }
}

/// Where `s` has words, the first is `s[a..b)` for the `a` and `b` that this
/// lemma returns, and the others are the words of `s[b..]`.
pub proof fn lemma_first_word(s: Seq<char>) -> (bounds: (int, int))
    requires
        leading_spaces(s) < s.len(),
    ensures
        0 <= bounds.0 < bounds.1 <= s.len(),
        bounds.0 == leading_spaces(s),
        forall|j: int| 0 <= j < bounds.0 ==> is_space(#[trigger] s[j]),
        forall|j: int| bounds.0 <= j < bounds.1 ==> !is_space(#[trigger] s[j]),
        bounds.1 < s.len() ==> is_space(s[bounds.1]),
        words(s) == seq![s.subrange(bounds.0, bounds.1)] + words(
            s.subrange(bounds.1, s.len() as int),
        ),
{
    lemma_leading_spaces_counts(s);
    let a = leading_spaces(s) as int;
    let rest = s.subrange(a, s.len() as int);
    lemma_word_len_counts(rest);
    assert(rest[0] == s[a]);
    let w = word_len(rest) as int;
    let b = a + w;
    assert forall|j: int| a <= j < b implies !is_space(#[trigger] s[j]) by {
        assert(s[j] == rest[j - a]);
    }
    if b < s.len() {
        assert(s[b] == rest[w]);
    }
    lemma_words_first(s, a, b);
    (a, b)
}

/// Leading whitespace does not change the words.
pub proof fn lemma_words_skip(s: Seq<char>, j: int)
    requires
        0 <= j <= s.len(),
        forall|k: int| 0 <= k < j ==> is_space(#[trigger] s[k]),
    ensures
        words(s) == words(s.subrange(j, s.len() as int)),
{
    let t = s.subrange(j, s.len() as int);
    lemma_leading_spaces_counts(s);
    lemma_leading_spaces_counts(t);
    let a = leading_spaces(s) as int;
    if a < j {
        assert(is_space(s[a]));
    }
    assert forall|k: int| 0 <= k < a - j implies is_space(#[trigger] t[k]) by {
        assert(t[k] == s[k + j]);
    }
    if a < s.len() {
        assert(t[a - j] == s[a]);
    }
    lemma_leading_spaces(t, a - j);
    if a < s.len() {
        assert(t.subrange(a - j, t.len() as int) =~= s.subrange(a, s.len() as int));
    }
}

/// The words of two texts with a whitespace character between them are the
/// words of the first followed by the words of the second.
pub proof fn lemma_words_concat(x: Seq<char>, c: char, y: Seq<char>)
    requires
        is_space(c),
    ensures
        words(x + seq![c] + y) == words(x) + words(y),
    decreases x.len(),
{
    let s = x + seq![c] + y;
    lemma_leading_spaces_counts(x);
    if leading_spaces(x) >= x.len() {
        assert forall|k: int| 0 <= k < x.len() + 1 implies is_space(#[trigger] s[k]) by {
            if k < x.len() {
                assert(s[k] == x[k]);
            }
        }
        lemma_words_skip(s, (x.len() + 1) as int);
        assert(s.subrange((x.len() + 1) as int, s.len() as int) =~= y);
        assert(words(x) + words(y) =~= words(y));
    } else {
        let (a, b) = lemma_first_word(x);
        assert forall|j: int| 0 <= j < a implies is_space(#[trigger] s[j]) by {
            assert(s[j] == x[j]);
        }
        assert forall|j: int| a <= j < b implies !is_space(#[trigger] s[j]) by {
            assert(s[j] == x[j]);
        }
        if b < x.len() {
            assert(s[b] == x[b]);
        } else {
            assert(s[b] == c);
        }
        lemma_words_first(s, a, b);
        let x_rest = x.subrange(b, x.len() as int);
        assert(s.subrange(b, s.len() as int) =~= x_rest + seq![c] + y);
        assert(s.subrange(a, b) =~= x.subrange(a, b));
        lemma_words_concat(x_rest, c, y);
        assert(seq![x.subrange(a, b)] + (words(x_rest) + words(y)) =~= (seq![x.subrange(a, b)]
            + words(x_rest)) + words(y));
    }
}

/// Every word of a text is a word.
pub proof fn lemma_words_are_words(s: Seq<char>)
    ensures
        all_words(words(s)),
    decreases s.len(),
{
    lemma_leading_spaces_counts(s);
    if leading_spaces(s) < s.len() {
        let (a, b) = lemma_first_word(s);
        let rest = s.subrange(b, s.len() as int);
        lemma_words_are_words(rest);
        let first = s.subrange(a, b);
        assert forall|j: int| 0 <= j < first.len() implies !is_space(#[trigger] first[j]) by {
            assert(first[j] == s[a + j]);
        }
        assert forall|i: int| 0 <= i < words(s).len() implies is_word(#[trigger] words(s)[i]) by {
            if i > 0 {
                assert(words(s)[i] == words(rest)[i - 1]);
            }
        }
    }
}

/// A word is its own only word.
pub proof fn lemma_words_of_word(w: Seq<char>)
    requires
        is_word(w),
    ensures
        words(w) == seq![w],
{
    lemma_words_first(w, 0, w.len() as int);
    assert(w.subrange(0, w.len() as int) =~= w);
    let rest = w.subrange(w.len() as int, w.len() as int);
    assert(rest.len() == 0);
    assert(words(rest) =~= Seq::<Seq<char>>::empty());
    assert(seq![w] + words(rest) =~= seq![w]);
}

/// Joining words and splitting the result gives the words back.
pub proof fn lemma_words_of_joined(ws: Seq<Seq<char>>)
    requires
        all_words(ws),
    ensures
        words(joined(ws)) == ws,
    decreases ws.len(),
{
    if ws.len() == 0 {
        assert(words(Seq::<char>::empty()) =~= Seq::<Seq<char>>::empty());
        assert(ws =~= Seq::<Seq<char>>::empty());
    } else if ws.len() == 1 {
        lemma_words_of_word(ws[0]);
        assert(ws =~= seq![ws[0]]);
    } else {
        let init = ws.drop_last();
        assert forall|i: int| 0 <= i < init.len() implies is_word(#[trigger] init[i]) by {
            assert(init[i] == ws[i]);
        }
        lemma_words_of_joined(init);
        lemma_words_concat(joined(init), ' ', ws.last());
        lemma_words_of_word(ws.last());
        assert(init + seq![ws.last()] =~= ws);
    }
}

/// Words joined by single spaces make a clean text.
pub proof fn lemma_joined_is_clean(ws: Seq<Seq<char>>)
    requires
        all_words(ws),
        ws.len() > 0,
    ensures
        is_clean(joined(ws)),
        joined(ws)[0] == ws[0][0],
    decreases ws.len(),
{
    if ws.len() == 1 {
        assert(is_word(ws[0]));
        assert(!is_space(ws[0][0]));
        assert(!is_space(ws[0][ws[0].len() - 1]));
    } else {
        let init = ws.drop_last();
        assert forall|i: int| 0 <= i < init.len() implies is_word(#[trigger] init[i]) by {
            assert(init[i] == ws[i]);
        }
        lemma_joined_is_clean(init);
        let last = ws.last();
        assert(is_word(last));
        assert(!is_space(last[last.len() - 1]));
        let j = joined(ws);
        assert(j[0] == joined(init)[0]);
        assert(j.last() == last[last.len() - 1]);
        assert(init[0] == ws[0]);
    }
}

} // verus!
