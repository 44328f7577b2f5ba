//! What the interactive shell shows for a line of input.

use vstd::prelude::*;
use crate::lexer::{lemma_scan_consumes, tokens, Lexer};
use crate::token::{Token, TokenView};

verus! {

/// The labels of `ts`, in the same order.
pub open spec fn labels(ts: Seq<TokenView>) -> Seq<Seq<char>> {
    Seq::new(ts.len(), |i: int| ts[i].label())
}

/// The characters of each string of `lines`, in the same order.
pub open spec fn texts(lines: Seq<String>) -> Seq<Seq<char>> {
    Seq::new(lines.len(), |i: int| lines[i]@)
}

/// The label of every token of `line`, in order; the closing `EoF` is not
/// shown.
pub fn token_labels(line: &str) -> (shown: Vec<String>)
    ensures
        texts(shown@) == labels(tokens(line@)),
{
    let mut lxr = Lexer::new(line);
    let mut shown: Vec<String> = Vec::new();
    loop
        invariant
            labels(tokens(line@)) == texts(shown@) + labels(tokens(lxr.remaining())),
        ensures
            labels(tokens(line@)) == texts(shown@),
        decreases lxr.remaining().len(),
    {
        let ghost rest = lxr.remaining();
        let ghost before = shown@;
        proof {
            lemma_scan_consumes(rest);
        }
        let token = lxr.next_token();
        if token == Token::EoF {
            break ;
        }
        shown.push(token.label());
        assert(texts(before) + labels(tokens(rest)) =~= texts(shown@) + labels(
            tokens(lxr.remaining()),
        ));
    }
    shown
}

} // verus!
