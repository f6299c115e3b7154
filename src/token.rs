use vstd::prelude::*;

verus! {

/// The kinds of token of the surface language.
#[derive(Clone, Copy, Debug, PartialEq, Eq, Structural)]
pub enum TokenKind {
    SpaceHorizontal,
    SpaceVertical,
    Eof,
    IdentifierIdentifier,
    IdentifierUnderscore,
    KeywordEnum,
    KeywordFn,
    KeywordLet,
    KeywordMatch,
    KeywordMut,
    KeywordStruct,
    PunctuationExclamationMark,
    PunctuationNumberSign,
    PunctuationDollarSign,
    PunctuationPercentSign,
    PunctuationAmpersand,
    PunctuationAsterisk,
    PunctuationPlusSign,
    PunctuationComma,
    PunctuationHyphenMinus,
    PunctuationFullStop,
    PunctuationSolidus,
    PunctuationColon,
    PunctuationSemicolon,
    PunctuationLessThanSign,
    PunctuationEqualsSign,
    PunctuationGreaterThanSign,
    PunctuationQuestionMark,
    PunctuationCommercialAt,
    PunctuationReverseSolidus,
    PunctuationCircumflexAccent,
    PunctuationVerticalLine,
    PunctuationTilde,
    PunctuationLeftParenthesis,
    PunctuationLeftSquareBracket,
    PunctuationLeftCurlyBracket,
    PunctuationRightParenthesis,
    PunctuationRightSquareBracket,
    PunctuationRightCurlyBracket,
    PunctuationsFatArrow,
}

/// A token: its kind and the text it was read from.
#[derive(Clone, Debug)]
pub struct Token {
    pub kind: TokenKind,
    pub content: String,
}

} // verus!
