//! Word-based RWX lexer: splits the text into whitespace-separated words
//! and classifies each as a keyword, a number or an identifier.

use vstd::prelude::*;

use crate::clump::{split_words, wsplit, wsv};
use crate::num::{num_value, valid_number};
use crate::strutil::str_eq_lit;

verus! {

broadcast use vstd::seq::group_seq_axioms;

/// A word-level token.
#[derive(Debug, Clone)]
pub enum Token {
    VertexExt,
    Vertex,
    Quad,
    Polygon,
    UV,
    /// A number in micro-units.
    Number(i64),
    /// A material or texture name, or any other word.
    Ident(String),
}

/// Model of a word-level token.
pub ghost enum TokWM {
    VertexExt,
    Vertex,
    Quad,
    Polygon,
    UV,
    Number(int),
    Ident(Seq<char>),
}

impl View for Token {
    type V = TokWM;

    open spec fn view(&self) -> TokWM {
        match self {
            Token::VertexExt => TokWM::VertexExt,
            Token::Vertex => TokWM::Vertex,
            Token::Quad => TokWM::Quad,
            Token::Polygon => TokWM::Polygon,
            Token::UV => TokWM::UV,
            Token::Number(n) => TokWM::Number(*n as int),
            Token::Ident(s) => TokWM::Ident(s@),
        }
    }
}

/// The token one word denotes: an exact keyword, a number, or an
/// identifier.
pub open spec fn word_tok(w: Seq<char>) -> TokWM {
    if w == "VertexExt"@ {
        TokWM::VertexExt
    } else if w == "Vertex"@ {
        TokWM::Vertex
    } else if w == "Quad"@ {
        TokWM::Quad
    } else if w == "Polygon"@ {
        TokWM::Polygon
    } else if w == "UV"@ {
        TokWM::UV
    } else if valid_number(w) {
        TokWM::Number(num_value(w))
    } else {
        TokWM::Ident(w)
    }
}

/// The token stream of a text: one token per whitespace-separated word.
pub open spec fn wordlex_spec(text: Seq<char>) -> Seq<TokWM> {
    wsplit(text, 0).map_values(|w: Seq<char>| word_tok(w))
}

/// Tokenize a text word by word. Lexing never fails.
pub fn lex(input: &str) -> (r: Vec<Token>)
    ensures
        r@.map_values(|t: Token| t@) == wordlex_spec(input@),
{
    let n = input.unicode_len();
    let words = split_words(input, 0, n);
    proof {
        assert(input@.subrange(0, n as int) =~= input@);
    }
    let mut out: Vec<Token> = Vec::new();
    let mut i: usize = 0;
    proof {
        assert(out@.map_values(|t: Token| t@) =~= wsv(words@).map_values(
            |w: Seq<char>| word_tok(w),
        ).take(0));
    }
    while i < words.len()
        invariant
            i <= words@.len(),
            wsv(words@) == wsplit(input@, 0),
            out@.map_values(|t: Token| t@) == wsv(words@).map_values(
                |w: Seq<char>| word_tok(w),
            ).take(i as int),
        decreases words@.len() - i,
    {
        proof {
            assert(wsv(words@)[i as int] == words@[i as int]@);
        }
        let w = &words[i];
        let t: Token = if str_eq_lit(w, "VertexExt") {
            Token::VertexExt
        } else if str_eq_lit(w, "Vertex") {
            Token::Vertex
        } else if str_eq_lit(w, "Quad") {
            Token::Quad
        } else if str_eq_lit(w, "Polygon") {
            Token::Polygon
        } else if str_eq_lit(w, "UV") {
            Token::UV
        } else {
            match crate::num::parse_number(w.as_str()) {
                Some(v) => Token::Number(v),
                None => Token::Ident(w.clone()),
            }
        };
        let ghost ob = out@;
        out.push(t);
        proof {
            assert(out@.map_values(|t2: Token| t2@) =~= ob.map_values(|t2: Token| t2@).push(t@));
            assert(wsv(words@).map_values(|w2: Seq<char>| word_tok(w2)).take(i + 1)
                =~= wsv(words@).map_values(|w2: Seq<char>| word_tok(w2)).take(i as int).push(
                word_tok(wsv(words@)[i as int]),
            ));
        }
        i = i + 1;
    }
    proof {
        assert(wsv(words@).map_values(|w2: Seq<char>| word_tok(w2)).take(words@.len() as int)
            =~= wordlex_spec(input@));
    }
    out
}

} // verus!
