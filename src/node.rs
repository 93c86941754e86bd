use vstd::prelude::*;

use crate::token::Token;

verus! {

/// What a syntax-tree type must offer to flow through the parser: a node that
/// wraps a raw token, and a way to get that token back.
pub trait ASTNode: Sized {
    /// The node that wraps `token`: the one `new_token` builds. Outside
    /// verified code it is an ordinary function returning that node.
    spec fn token_node(token: Token) -> Self;

    fn new_token(token: &Token) -> (r: Self)
        ensures
            r == Self::token_node(*token),
    ;

    fn is_token(&self) -> bool;

    fn token(&self) -> Result<&Token, String>;
}

} // verus!
