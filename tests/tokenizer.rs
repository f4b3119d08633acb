use jmap_cluster::tokenizer::{
    char_utf8_len, segment_tokens_of, split_words, JapaneseTokenizer, Token, Word,
};

fn all_tokens(mut t: JapaneseTokenizer) -> Vec<Token> {
    let mut out = Vec::new();
    while let Some(tok) = t.next_token() {
        out.push(tok);
    }
    out
}

fn tok(word: &str, offset: usize, len: usize) -> Token {
    Token { word: word.to_string(), offset, len }
}

fn segs(words: &[&str]) -> Vec<String> {
    words.iter().map(|w| w.to_string()).collect()
}

fn word(text: &str, offset: usize) -> Word {
    Word { chars: text.chars().collect(), offset, len: text.len() }
}

#[test]
fn words_are_alphanumeric_runs_with_byte_offsets() {
    let words = split_words("私の名前は中野です。 私, ok2!");
    assert_eq!(words, vec![word("私の名前は中野です", 0), word("私", 31), word("ok2", 36)]);
    assert!(split_words("").is_empty());
    assert!(split_words(" 。、!").is_empty());
    assert_eq!(split_words("é-x"), vec![word("é", 0), word("x", 3)]);
}

#[test]
fn segments_get_byte_offsets() {
    let tokens = segment_tokens_of(&segs(&["私", "の", "名前", "は", "中野", "です"]), 31, 100);
    assert_eq!(
        tokens,
        vec![
            tok("私", 31, 3),
            tok("の", 34, 3),
            tok("名前", 37, 6),
            tok("は", 43, 3),
            tok("中野", 46, 6),
            tok("です", 52, 6),
        ]
    );
}

#[test]
fn long_segments_are_skipped_but_advance_offsets() {
    let tokens = segment_tokens_of(&segs(&["私", "の", "名前", "は", "中野", "です"]), 0, 3);
    assert_eq!(tokens, vec![tok("私", 0, 3), tok("の", 3, 3), tok("は", 12, 3)]);
    let mixed = segment_tokens_of(&segs(&["TinySegmenter", "は", "2", "5", "kB"]), 4, 2);
    assert_eq!(mixed, vec![tok("2", 20, 1), tok("5", 21, 1), tok("kB", 22, 2)]);
    assert!(segment_tokens_of(&Vec::new(), 9, 9).is_empty());
}

#[test]
fn tokenizer_hands_out_tokens_of_every_word() {
    let words = split_words("私の名前は中野です。 私");
    let segments = vec![segs(&["私", "の", "名前", "は", "中野", "です"]), segs(&["私"])];
    let tokens = all_tokens(JapaneseTokenizer::from_segments(&words, &segments, 3));
    assert_eq!(tokens, vec![tok("私", 0, 3), tok("の", 3, 3), tok("は", 12, 3), tok("私", 31, 3)]);
    let empty = JapaneseTokenizer::from_segments(&Vec::new(), &Vec::new(), 10);
    assert!(all_tokens(empty).is_empty());
}

#[test]
fn utf8_lengths() {
    assert_eq!(char_utf8_len('a'), 1);
    assert_eq!(char_utf8_len('é'), 2);
    assert_eq!(char_utf8_len('私'), 3);
    assert_eq!(char_utf8_len('😀'), 4);
    for c in ['a', 'é', '私', '😀'] {
        assert_eq!(char_utf8_len(c), c.len_utf8());
    }
}
