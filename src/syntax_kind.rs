//! The kinds of tokens and nodes that the conversions tell apart.
use vstd::prelude::*;

verus! {

/// The kind of a token or syntax node.
///
/// The conversions inspect only the kinds named here; any other kind, of a node
/// or of a composite token, is carried through as `Other`.
#[derive(Clone, Copy, Debug, PartialEq, Eq, Hash, Structural)]
pub enum SyntaxKind {
    Whitespace,
    Comment,
    Ident,
    Underscore,
    /// A keyword, `true` and `false` included.
    Keyword,
    IntNumber,
    FloatNumber,
    /// Any other literal: strings, characters, bytes.
    Literal,
    LifetimeIdent,
    /// One or more punctuation characters.
    Punct,
    Error,
    NameRef,
    Other(u16),
}

/// The punctuation characters that glue to a preceding punctuation character.
pub open spec fn is_single_op_char(c: char) -> bool {
    c == '=' || c == '<' || c == '>' || c == '!' || c == '&' || c == '|' || c == '~' || c
        == '@' || c == '.' || c == ',' || c == ';' || c == ':' || c == '#' || c == '$' || c
        == '?' || c == '+' || c == '-' || c == '*' || c == '/' || c == '%' || c == '^'
}

/// Whether a token of kind `kind` whose character is `c` makes the punctuation
/// before it `Joint`. A lifetime counts, since it starts with a quote character.
pub open spec fn spec_is_single_token_op(kind: SyntaxKind, c: char) -> bool {
    (kind == SyntaxKind::Punct && is_single_op_char(c)) || kind == SyntaxKind::LifetimeIdent
}

pub fn is_single_token_op(kind: SyntaxKind, c: char) -> (r: bool)
    ensures
        r == spec_is_single_token_op(kind, c),
{
    match kind {
        SyntaxKind::LifetimeIdent => true,
        SyntaxKind::Punct => c == '=' || c == '<' || c == '>' || c == '!' || c == '&' || c == '|'
            || c == '~' || c == '@' || c == '.' || c == ',' || c == ';' || c == ':' || c == '#'
            || c == '$' || c == '?' || c == '+' || c == '-' || c == '*' || c == '/' || c == '%'
            || c == '^',
        _ => false,
    }
}

} // verus!
