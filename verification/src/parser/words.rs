//! The words of a line of text.
use vstd::prelude::*;

verus! {

/// Whether the byte is white space: a blank, a tab, a line feed, a
/// vertical tab, a form feed or a carriage return.
pub open spec fn is_space(b: u8) -> bool {
    b == 32 || (9 <= b && b <= 13)
}

/// Whether no byte of the word is white space, and the word is not empty.
pub open spec fn is_word(w: Seq<u8>) -> bool {
    w.len() > 0 && forall|i: int| 0 <= i < w.len() ==> !is_space(#[trigger] w[i])
}

/// The words of the text from place `i` on, where `cur` holds the bytes of
/// the word that is being read.
pub open spec fn words_from(s: Seq<u8>, i: int, cur: Seq<u8>) -> Seq<Seq<u8>>
    decreases s.len() - i,
{
    if i < 0 || i >= s.len() {
        if cur.len() > 0 {
            seq![cur]
        } else {
            Seq::empty()
        }
    } else if is_space(s[i]) {
        if cur.len() > 0 {
            seq![cur] + words_from(s, i + 1, Seq::empty())
        } else {
            words_from(s, i + 1, Seq::empty())
        }
    } else {
        words_from(s, i + 1, cur.push(s[i]))
    }
}

/// The words of the text: the longest runs of bytes that are no white
/// space, in the order in which they stand.
pub open spec fn words_of(s: Seq<u8>) -> Seq<Seq<u8>> {
    words_from(s, 0, Seq::empty())
}

/// The words, with one blank between each two.
pub open spec fn join(words: Seq<Seq<u8>>) -> Seq<u8>
    decreases words.len(),
{
    if words.len() == 0 {
        Seq::empty()
    } else if words.len() == 1 {
        words[0]
    } else {
        words[0] + seq![32u8] + join(words.skip(1))
    }
}

/// The views of a vector of words.
pub open spec fn words_view(words: Seq<Vec<u8>>) -> Seq<Seq<u8>> {
    Seq::new(words.len(), |i: int| words[i]@)
}

/// Reading on through a word collects its bytes.
proof fn lemma_words_through(s: Seq<u8>, i: int, cur: Seq<u8>, w: Seq<u8>, k: int)
    requires
        0 <= i,
        0 <= k <= w.len(),
        i + w.len() <= s.len(),
        forall|j: int| 0 <= j < w.len() ==> s[i + j] == w[j],
        forall|j: int| 0 <= j < w.len() ==> !is_space(#[trigger] w[j]),
    ensures
        words_from(s, i + k, cur + w.subrange(0, k)) == words_from(s, i + w.len(), cur + w),
    decreases w.len() - k,
{
    if k < w.len() {
        assert((cur + w.subrange(0, k)).push(s[i + k]) =~= cur + w.subrange(0, k + 1));
        assert(!is_space(w[k]));
        lemma_words_through(s, i, cur, w, k + 1);
    } else {
        assert(w.subrange(0, k) =~= w);
    }
}

/// The words of words that were joined are those words.
pub proof fn lemma_words_of_join(words: Seq<Seq<u8>>)
    requires
        forall|i: int| 0 <= i < words.len() ==> is_word(#[trigger] words[i]),
    ensures
        words_of(join(words)) == words,
    decreases words.len(),
{
    let s = join(words);
    if words.len() == 0 {
    } else {
        let w = words[0];
        lemma_words_through(s, 0, Seq::empty(), w, 0);
        if words.len() == 1 {
        } else {
            let rest = words.skip(1);
            let t = join(rest);
            lemma_words_of_join(rest);
            let at = w.len() as int + 1;
            assert(s.skip(at) =~= t);
            lemma_words_shift(s, at, t, 0, Seq::empty());
        }
    }
}

/// The words of a text from a place on are the words of the text that
/// begins at that place.
proof fn lemma_words_shift(s: Seq<u8>, at: int, t: Seq<u8>, i: int, cur: Seq<u8>)
    requires
        0 <= at <= s.len(),
        t == s.skip(at),
        0 <= i <= t.len(),
    ensures
        words_from(s, at + i, cur) == words_from(t, i, cur),
    decreases t.len() - i,
{
    if i < t.len() {
        if is_space(t[i]) {
            lemma_words_shift(s, at, t, i + 1, Seq::empty());
        } else {
            lemma_words_shift(s, at, t, i + 1, cur.push(t[i]));
        }
    }
}

/// Whether the byte is white space.
pub fn byte_is_space(b: u8) -> (r: bool)
    ensures
        r == is_space(b),
{
    b == 32 || (9 <= b && b <= 13)
}

/// The words of a line of text.
pub fn split_words(line: &[u8]) -> (r: Vec<Vec<u8>>)
    ensures
        words_view(r@) == words_of(line@),
{
    let mut out: Vec<Vec<u8>> = Vec::new();
    let mut cur: Vec<u8> = Vec::new();
    let mut i: usize = 0;
    while i < line.len()
        invariant
            i <= line.len(),
            words_view(out@) + words_from(line@, i as int, cur@) == words_of(line@),
        decreases line.len() - i,
    {
        let b: u8 = line[i];
        if byte_is_space(b) {
            if cur.len() > 0 {
                out.push(cur);
                cur = Vec::new();
            } else {
                assert(cur@ =~= Seq::<u8>::empty());
            }
        } else {
            cur.push(b);
        }
        i += 1;
    }
    if cur.len() > 0 {
        out.push(cur);
    }
    out
}

/// The words, with one blank between each two.
pub fn join_words(words: &Vec<Vec<u8>>) -> (r: Vec<u8>)
    ensures
        r@ == join(words_view(words@)),
{
    let ghost ws = words_view(words@);
    let mut out: Vec<u8> = Vec::new();
    let mut i: usize = words.len();
    while i > 0
        invariant
            i <= words.len(),
            ws == words_view(words@),
            out@ == join(ws.skip(i as int)),
        decreases i,
    {
        i -= 1;
        let ghost tail = ws.skip(i as int + 1);
        let ghost whole = ws.skip(i as int);
        proof {
            assert(whole.skip(1) =~= tail);
        }
        let mut next: Vec<u8> = Vec::new();
        let word = &words[i];
        let mut k: usize = 0;
        while k < word.len()
            invariant
                k <= word.len(),
                next@ == word@.subrange(0, k as int),
            decreases word.len() - k,
        {
            next.push(word[k]);
            k += 1;
        }
        if i + 1 < words.len() {
            next.push(32);
            let ghost head = next@;
            let mut m: usize = 0;
            while m < out.len()
                invariant
                    m <= out.len(),
                    next@ == head + out@.subrange(0, m as int),
                decreases out.len() - m,
            {
                next.push(out[m]);
                m += 1;
            }
        }
        out = next;
    }
    assert(ws.skip(0) =~= ws);
    out
}

} // verus!
