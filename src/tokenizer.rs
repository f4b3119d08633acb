//! Tokenization of Japanese text: words, then segments with byte offsets.
use vstd::prelude::*;

verus! {

broadcast use vstd::string::axiom_spec_iter;

/// A token of a text: its characters, and the position and length in bytes
/// of its UTF-8 encoding within the text.
#[derive(Debug, Clone, PartialEq, Eq)]
pub struct Token {
    pub word: String,
    pub offset: usize,
    pub len: usize,
}

/// Number of bytes of the UTF-8 encoding of `c`.
pub open spec fn utf8_len(c: char) -> nat {
    let v = c as u32;
    if v < 0x80 {
        1
    } else if v < 0x800 {
        2
    } else if v < 0x10000 {
        3
    } else {
        4
    }
}

/// Number of bytes of the UTF-8 encoding of `s`.
pub open spec fn utf8_size(s: Seq<char>) -> nat
    decreases s.len(),
{
    if s.len() == 0 {
        0
    } else {
        utf8_size(s.drop_last()) + utf8_len(s.last())
    }
}

/// Size of `s` in bytes, or `usize::MAX` when that does not fit.
pub open spec fn sat_size(s: Seq<char>) -> nat {
    if utf8_size(s) > usize::MAX {
        usize::MAX as nat
    } else {
        utf8_size(s)
    }
}

/// `a + b`, or `usize::MAX` when that does not fit.
pub open spec fn sat_add(a: nat, b: nat) -> nat {
    if a + b > usize::MAX {
        usize::MAX as nat
    } else {
        a + b
    }
}

/// Whether `c` is alphabetic or numeric in the Unicode sense.
pub uninterp spec fn alphanumeric(c: char) -> bool;

/// Relies on `char::is_alphanumeric`: Unicode Alphabetic or Numeric.
#[verifier::external_body]
fn is_alphanumeric(c: char) -> (r: bool)
    ensures
        r == alphanumeric(c),
{
    c.is_alphanumeric()
}

/// A word of a text: its characters with their byte offset and length.
pub type WordView = (Seq<char>, nat, nat);

/// The words of `text`: its maximal runs of alphanumeric characters.
pub open spec fn words_of(text: Seq<char>) -> Seq<WordView>
    decreases text.len(),
{
    if text.len() == 0 {
        Seq::empty()
    } else {
        let prefix = text.drop_last();
        let c = text.last();
        let ws = words_of(prefix);
        if !alphanumeric(c) {
            ws
        } else if prefix.len() > 0 && alphanumeric(prefix.last()) && ws.len() > 0 {
            let w = ws.last();
            ws.update(ws.len() - 1, (w.0.push(c), w.1, w.2 + utf8_len(c)))
        } else {
            ws.push((seq![c], utf8_size(prefix), utf8_len(c)))
        }
    }
}

/// The tokens of the segments `segs` of a word at byte offset `base`:
/// segments longer than `max` bytes are skipped but still advance the offset.
pub open spec fn segment_tokens(segs: Seq<Seq<char>>, base: nat, max: nat) -> Seq<WordView>
    decreases segs.len(),
{
    if segs.len() == 0 {
        Seq::empty()
    } else {
        let rest = segment_tokens(segs.drop_last(), base, max);
        let l = sat_size(segs.last());
        if l <= max {
            rest.push((segs.last(), segments_end(segs.drop_last(), base), l))
        } else {
            rest
        }
    }
}

/// Byte offset just after the segments `segs` placed at `base`, saturated.
pub open spec fn segments_end(segs: Seq<Seq<char>>, base: nat) -> nat
    decreases segs.len(),
{
    if segs.len() == 0 {
        if base > usize::MAX {
            usize::MAX as nat
        } else {
            base
        }
    } else {
        sat_add(segments_end(segs.drop_last(), base), sat_size(segs.last()))
    }
}

/// The tokens of the words `words`, in order, when word `k` is cut into the
/// segments `segs[k]`.
pub open spec fn tokens_of(words: Seq<WordView>, segs: Seq<Seq<Seq<char>>>, max: nat) -> Seq<WordView>
    decreases words.len(),
{
    if words.len() == 0 || segs.len() == 0 {
        Seq::empty()
    } else {
        tokens_of(words.drop_last(), segs.drop_last(), max) + segment_tokens(
            segs.last(),
            words.last().1,
            max,
        )
    }
}

pub open spec fn token_view(t: Token) -> WordView {
    (t.word@, t.offset as nat, t.len as nat)
}

/// Bytes of the UTF-8 encoding of `c`.
pub fn char_utf8_len(c: char) -> (r: usize)
    ensures
        r == utf8_len(c),
        1 <= r <= 4,
{
    let v = c as u32;
    if v < 0x80 {
        1
    } else if v < 0x800 {
        2
    } else if v < 0x10000 {
        3
    } else {
        4
    }
}

pub proof fn lemma_utf8_size_prefix(s: Seq<char>, i: int)
    requires
        0 <= i <= s.len(),
    ensures
        utf8_size(s.subrange(0, i)) <= utf8_size(s),
    decreases s.len() - i,
{
    if i < s.len() {
        lemma_utf8_size_prefix(s, i + 1);
        assert(s.subrange(0, i + 1).drop_last() =~= s.subrange(0, i));
    } else {
        assert(s.subrange(0, i) =~= s);
    }
}

/// A word found in a text, with its byte position and length.
#[derive(Debug, Clone, PartialEq, Eq)]
pub struct Word {
    pub chars: Vec<char>,
    pub offset: usize,
    pub len: usize,
}

pub open spec fn word_view(w: Word) -> WordView {
    (w.chars@, w.offset as nat, w.len as nat)
}

/// Splits `text` into its words: its maximal runs of alphanumeric
/// characters, with their byte offsets and lengths.
pub fn split_words(text: &str) -> (r: Vec<Word>)
    requires
        utf8_size(text@) <= usize::MAX,
    ensures
        r@.map_values(|w: Word| word_view(w)) == words_of(text@),
{
    let mut words: Vec<Word> = Vec::new();
    let mut cur: Vec<char> = Vec::new();
    let mut cur_offset: usize = 0;
    let mut cur_len: usize = 0;
    let mut in_word = false;
    let mut bytes: usize = 0;
    for c in it: text.chars()
        invariant
            it.seq() == text@,
            utf8_size(text@) <= usize::MAX,
            0 <= it.index() <= text@.len(),
            bytes == utf8_size(text@.subrange(0, it.index() as int)),
            in_word == (it.index() > 0 && alphanumeric(text@[it.index() - 1])),
            in_word ==> cur_offset + cur_len == bytes && cur@.len() > 0,
            in_word ==> words@.map_values(|w: Word| word_view(w)).push((cur@, cur_offset as nat, cur_len as nat))
                == words_of(text@.subrange(0, it.index() as int)),
            !in_word ==> words@.map_values(|w: Word| word_view(w)) == words_of(
                text@.subrange(0, it.index() as int),
            ),
    {
        let ghost i = it.index();
        let ghost pre = text@.subrange(0, i as int);
        let ghost next = text@.subrange(0, i + 1);
        let ghost flushed = words@.map_values(|w: Word| word_view(w));
        proof {
            assert(next.drop_last() =~= pre);
            assert(next.last() == c);
            lemma_utf8_size_prefix(text@, i + 1);
            if i > 0 {
                assert(pre.last() == text@[i - 1]);
            }
        }
        let l = char_utf8_len(c);
        if is_alphanumeric(c) {
            if in_word {
                let ghost old_cur = cur@;
                let ghost old_len = cur_len;
                cur.push(c);
                cur_len = cur_len + l;
                proof {
                    let ws = words_of(pre);
                    assert(ws == flushed.push((old_cur, cur_offset as nat, old_len as nat)));
                    assert(words_of(next) =~= flushed.push((cur@, cur_offset as nat, cur_len as nat)));
                }
            } else {
                cur = Vec::new();
                cur.push(c);
                cur_offset = bytes;
                cur_len = l;
                proof {
                    assert(cur@ =~= seq![c]);
                    assert(words_of(next) =~= flushed.push((cur@, cur_offset as nat, cur_len as nat)));
                }
                in_word = true;
            }
        } else if in_word {
            let ghost before = words@;
            words.push(Word { chars: cur, offset: cur_offset, len: cur_len });
            cur = Vec::new();
            in_word = false;
            proof {
                assert(words@.map_values(|w: Word| word_view(w)) =~= before.map_values(
                    |w: Word| word_view(w),
                ).push(word_view(words@.last())));
            }
        }
        bytes = bytes + l;
    }
    proof {
        assert(text@.subrange(0, text@.len() as int) =~= text@);
    }
    if in_word {
        let ghost before = words@;
        words.push(Word { chars: cur, offset: cur_offset, len: cur_len });
        proof {
            assert(words@.map_values(|w: Word| word_view(w)) =~= before.map_values(
                |w: Word| word_view(w),
            ).push(word_view(words@.last())));
        }
    }
    words
}

/// Size in bytes of `s`, saturated at `usize::MAX`.
fn segment_size(s: &String) -> (r: usize)
    ensures
        r == sat_size(s@),
{
    let mut size: usize = 0;
    let text = s.as_str();
    for c in it: text.chars()
        invariant
            it.seq() == s@,
            0 <= it.index() <= s@.len(),
            size == sat_size(s@.subrange(0, it.index() as int)),
    {
        let ghost i = it.index();
        proof {
            assert(s@.subrange(0, i + 1).drop_last() =~= s@.subrange(0, i as int));
            assert(s@.subrange(0, i + 1).last() == c);
        }
        size = size.saturating_add(char_utf8_len(c));
    }
    proof {
        assert(s@.subrange(0, s@.len() as int) =~= s@);
    }
    size
}

/// The tokens of the segments `segs` of a word at byte offset `base`, in
/// order: each segment's offset is `base` plus the sizes of the segments
/// before it, and segments longer than `max_token_length` bytes are left out.
pub fn segment_tokens_of(segs: &Vec<String>, base: usize, max_token_length: usize) -> (r: Vec<Token>)
    ensures
        r@.map_values(|t: Token| token_view(t)) == segment_tokens(
            segs@.map_values(|x: String| x@),
            base as nat,
            max_token_length as nat,
        ),
{
    let ghost sv = segs@.map_values(|x: String| x@);
    let max = max_token_length;
    let mut tokens: Vec<Token> = Vec::new();
    let mut end: usize = base;
    let mut j: usize = 0;
    while j < segs.len()
        invariant
            j <= segs@.len() == sv.len(),
            sv == segs@.map_values(|x: String| x@),
            end == segments_end(sv.subrange(0, j as int), base as nat),
            tokens@.map_values(|t: Token| token_view(t)) == segment_tokens(
                sv.subrange(0, j as int),
                base as nat,
                max as nat,
            ),
        decreases segs@.len() - j,
    {
        let l = segment_size(&segs[j]);
        let ghost prev = tokens@.map_values(|t: Token| token_view(t));
        proof {
            assert(sv.subrange(0, j + 1).drop_last() =~= sv.subrange(0, j as int));
            assert(sv.subrange(0, j + 1).last() == segs@[j as int]@);
        }
        if l <= max {
            tokens.push(Token { word: segs[j].clone(), offset: end, len: l });
            proof {
                assert(tokens@.map_values(|t: Token| token_view(t)) =~= prev.push(
                    token_view(tokens@.last()),
                ));
            }
        }
        end = end.saturating_add(l);
        j = j + 1;
    }
    proof {
        assert(sv.subrange(0, sv.len() as int) =~= sv);
    }
    tokens
}

/// The tokens of a Japanese text, handed out one by one: the text's words,
/// each cut into the segments a Japanese segmenter finds, with segments
/// longer than a maximum dropped.
#[derive(Debug)]
pub struct JapaneseTokenizer {
    pub tokens: Vec<Token>,
    pub pos: usize,
}

impl JapaneseTokenizer {
    pub open spec fn tokens_view(&self) -> Seq<WordView> {
        self.tokens@.map_values(|t: Token| token_view(t))
    }

    /// The tokens of the words `words`, when word `k` is cut into the
    /// segments `segments[k]`; segments longer than `max_token_length` bytes
    /// are left out.
    pub fn from_segments(words: &Vec<Word>, segments: &Vec<Vec<String>>, max_token_length: usize) -> (r:
        JapaneseTokenizer)
        requires
            segments@.len() == words@.len(),
        ensures
            r.tokens_view() == tokens_of(
                words@.map_values(|w: Word| word_view(w)),
                segments@.map_values(|v: Vec<String>| v@.map_values(|x: String| x@)),
                max_token_length as nat,
            ),
            r.pos == 0,
    {
        let ghost ws = words@.map_values(|w: Word| word_view(w));
        let ghost ss = segments@.map_values(|v: Vec<String>| v@.map_values(|x: String| x@));
        let max = max_token_length;
        let mut tokens: Vec<Token> = Vec::new();
        let mut k: usize = 0;
        while k < words.len()
            invariant
                k <= words@.len() == ws.len() == ss.len(),
                segments@.len() == words@.len(),
                ws == words@.map_values(|w: Word| word_view(w)),
                ss == segments@.map_values(|v: Vec<String>| v@.map_values(|x: String| x@)),
                tokens@.map_values(|t: Token| token_view(t)) == tokens_of(
                    ws.subrange(0, k as int),
                    ss.subrange(0, k as int),
                    max as nat,
                ),
            decreases words@.len() - k,
        {
            let ghost before = tokens@.map_values(|t: Token| token_view(t));
            let mut more = segment_tokens_of(&segments[k], words[k].offset, max);
            tokens.append(&mut more);
            proof {
                assert(ss[k as int] == segments@[k as int]@.map_values(|x: String| x@));
                assert(tokens@.map_values(|t: Token| token_view(t)) =~= before + segment_tokens(
                    ss[k as int],
                    ws[k as int].1,
                    max as nat,
                ));
                assert(ws.subrange(0, k + 1).drop_last() =~= ws.subrange(0, k as int));
                assert(ss.subrange(0, k + 1).drop_last() =~= ss.subrange(0, k as int));
            }
            k = k + 1;
        }
        proof {
            assert(ws.subrange(0, ws.len() as int) =~= ws);
            assert(ss.subrange(0, ss.len() as int) =~= ss);
        }
        JapaneseTokenizer { tokens, pos: 0 }
    }

    /// The next token, if any is left.
    pub fn next_token(&mut self) -> (r: Option<Token>)
        ensures
            final(self).tokens@ == old(self).tokens@,
            old(self).pos < old(self).tokens@.len() ==> final(self).pos == old(self).pos + 1 && (r matches Some(
                t,
            ) && token_view(t) == token_view(old(self).tokens@[old(self).pos as int])),
            old(self).pos >= old(self).tokens@.len() ==> r is None && final(self).pos == old(self).pos,
    {
        if self.pos < self.tokens.len() {
            let t = &self.tokens[self.pos];
            let r = Token { word: t.word.clone(), offset: t.offset, len: t.len };
            self.pos = self.pos + 1;
            Some(r)
        } else {
            None
        }
    }
}

} // verus!
