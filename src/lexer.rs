//! Splits a statement into tokens.
use vstd::prelude::*;
use vstd::string::*;
use crate::text::{texts, lemma_texts_push};

verus! {

/// Where the scanner stands: between tokens, inside a quoted literal, or
/// inside a bare word.
#[derive(Clone, Copy, PartialEq, Eq, Structural)]
pub enum LexMode {
    Between,
    Quoted,
    Word,
}

pub open spec fn is_blank(c: char) -> bool {
    c == ' ' || c == '\t' || c == '\n' || c == '\r'
}

pub open spec fn is_punct(c: char) -> bool {
    c == '(' || c == ')' || c == ','
}

/// A character that ends a bare word.
pub open spec fn ends_word(c: char) -> bool {
    is_blank(c) || is_punct(c) || c == ';'
}

/// The tokens of `s` from position `i` on, given the tokens `acc` already
/// emitted, the scanner's mode, and where the pending token started.
pub open spec fn lex(s: Seq<char>, i: int, acc: Seq<Seq<char>>, mode: LexMode, start: int) -> Seq<Seq<char>>
    decreases s.len() - i,
{
    if i < 0 || i >= s.len() {
        match mode {
            LexMode::Between => acc,
            _ => acc.push(s.subrange(start, s.len() as int)),
        }
    } else {
        let c = s[i];
        match mode {
            LexMode::Between => lex_between(s, i, acc),
            LexMode::Quoted => if c == '\'' {
                lex(s, i + 1, acc.push(s.subrange(start, i)), LexMode::Between, 0)
            } else {
                lex(s, i + 1, acc, LexMode::Quoted, start)
            },
            LexMode::Word => if ends_word(c) {
                lex_between(s, i, acc.push(s.subrange(start, i)))
            } else {
                lex(s, i + 1, acc, LexMode::Word, start)
            },
        }
    }
}

/// One step of `lex` from between tokens, at a position inside `s`.
pub open spec fn lex_between(s: Seq<char>, i: int, acc: Seq<Seq<char>>) -> Seq<Seq<char>>
    decreases s.len() - i, 0int,
{
    if i < 0 || i >= s.len() {
        acc
    } else {
        let c = s[i];
        if is_blank(c) || c == ';' {
            lex(s, i + 1, acc, LexMode::Between, 0)
        } else if c == '\'' {
            lex(s, i + 1, acc, LexMode::Quoted, i + 1)
        } else if is_punct(c) {
            lex(s, i + 1, acc.push(seq![c]), LexMode::Between, 0)
        } else {
            lex(s, i + 1, acc, LexMode::Word, i)
        }
    }
}

/// The tokens of a statement: blanks separate, `'...'` is one literal
/// without its quotes (running to the end when unclosed), `(`, `)` and `,`
/// stand alone, `;` is dropped, and any other run of characters is a word.
pub open spec fn tokens_of(s: Seq<char>) -> Seq<Seq<char>> {
    lex(s, 0, Seq::empty(), LexMode::Between, 0)
}

/// Splits a statement into its tokens.
pub fn tokenize(input: &str) -> (r: Vec<String>)
    ensures
        texts(r@) == tokens_of(input@),
{
    let n = input.unicode_len();
    let mut tokens: Vec<String> = Vec::new();
    let mut mode = LexMode::Between;
    let mut start: usize = 0;
    let mut i: usize = 0;
    assert(texts(tokens@) =~= Seq::<Seq<char>>::empty());
    while i < n
        invariant
            n == input@.len(),
            i <= n,
            start <= i,
            lex(input@, i as int, texts(tokens@), mode, start as int) == tokens_of(input@),
        decreases n - i,
    {
        let c = input.get_char(i);
        let ghost s = input@;
        let ghost acc = texts(tokens@);
        let ghost m = mode;
        let ghost st = start as int;
        proof {
            if m == LexMode::Between {
                assert(lex(s, i as int, acc, m, st) == lex_between(s, i as int, acc));
            } else if m == LexMode::Word && ends_word(c) {
                assert(lex(s, i as int, acc, m, st)
                    == lex_between(s, i as int, acc.push(s.subrange(st, i as int))));
            }
        }
        match mode {
            LexMode::Quoted => {
                if c == '\'' {
                    let tok = input.substring_char(start, i).to_owned();
                    proof { lemma_texts_push(tokens@, tok); }
                    tokens.push(tok);
                    mode = LexMode::Between;
                    start = 0;
                }
            },
            LexMode::Word => {
                if c == ' ' || c == '\t' || c == '\n' || c == '\r' || c == '(' || c == ')'
                    || c == ',' || c == ';' {
                    let tok = input.substring_char(start, i).to_owned();
                    proof { lemma_texts_push(tokens@, tok); }
                    tokens.push(tok);
                    mode = LexMode::Between;
                    start = 0;
                    if c == '(' || c == ')' || c == ',' {
                        let p = input.substring_char(i, i + 1).to_owned();
                        proof {
                            lemma_texts_push(tokens@, p);
                            assert(p@ =~= seq![c]);
                        }
                        tokens.push(p);
                    }
                }
            },
            LexMode::Between => {
                if c == '\'' {
                    mode = LexMode::Quoted;
                    start = i + 1;
                } else if c == '(' || c == ')' || c == ',' {
                    let p = input.substring_char(i, i + 1).to_owned();
                    proof {
                        lemma_texts_push(tokens@, p);
                        assert(p@ =~= seq![c]);
                    }
                    tokens.push(p);
                } else if !(c == ' ' || c == '\t' || c == '\n' || c == '\r' || c == ';') {
                    mode = LexMode::Word;
                    start = i;
                }
            },
        }
        i = i + 1;
    }
    match mode {
        LexMode::Between => {},
        _ => {
            let tok = input.substring_char(start, n).to_owned();
            proof { lemma_texts_push(tokens@, tok); }
            tokens.push(tok);
        },
    }
    tokens
}

} // verus!
