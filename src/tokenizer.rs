use crate::span::{Offset, Span, Spanned};
use crate::token::{Token, TokenKind};
use vstd::prelude::*;
use vstd::std_specs::iter::IteratorSpec;

verus! {

// ---------------------------------------------------------------- outside facts

/// Whether a character has the Unicode property XID_Start.
pub uninterp spec fn xid_start(c: char) -> bool;

/// Whether a character has the Unicode property XID_Continue.
pub uninterp spec fn xid_continue(c: char) -> bool;

/// Relies on unicode_ident::is_xid_start: the XID_Start property of the character.
pub assume_specification[ unicode_ident::is_xid_start ](ch: char) -> (r: bool)
    ensures
        r == xid_start(ch),
;

/// Relies on unicode_ident::is_xid_continue: the XID_Continue property of the character.
pub assume_specification[ unicode_ident::is_xid_continue ](ch: char) -> (r: bool)
    ensures
        r == xid_continue(ch),
;

/// Relies on String::push: appends the character at the end.
#[verifier::external_body]
fn push_char(s: &mut String, c: char)
    ensures
        final(s)@ == old(s)@.push(c),
{
    s.push(c)
}

// ---------------------------------------------------------------- lexical classes

/// The number of bytes of a character in UTF-8.
pub open spec fn utf8_len(c: char) -> nat {
    if (c as u32) < 0x80 {
        1
    } else if (c as u32) < 0x800 {
        2
    } else if (c as u32) < 0x10000 {
        3
    } else {
        4
    }
}

/// The number of bytes of a text in UTF-8.
pub open spec fn utf8_length(cs: Seq<char>) -> nat
    decreases cs.len(),
{
    if cs.len() == 0 {
        0
    } else {
        utf8_length(cs.drop_last()) + utf8_len(cs.last())
    }
}

pub open spec fn horizontal_space(c: char) -> bool {
    ||| c == '\t'
    ||| c == ' '
    ||| c == '\u{00AD}'
    ||| c == '\u{00A0}'
    ||| c == '\u{1680}'
    ||| (0x2000 <= (c as u32) && (c as u32) <= 0x200B)
    ||| c == '\u{200E}'
    ||| c == '\u{200F}'
    ||| c == '\u{202F}'
    ||| c == '\u{205F}'
    ||| c == '\u{3000}'
    ||| c == '\u{FEFF}'
}

/// A line break of one character (`\r\n` is the one of two).
pub open spec fn vertical_space(c: char) -> bool {
    ||| c == '\n'
    ||| c == '\u{000B}'
    ||| c == '\u{000C}'
    ||| c == '\r'
    ||| c == '\u{0085}'
    ||| c == '\u{2028}'
    ||| c == '\u{2029}'
}

pub open spec fn punctuation(c: char) -> Option<TokenKind> {
    if c == '!' {
        Some(TokenKind::PunctuationExclamationMark)
    } else if c == '#' {
        Some(TokenKind::PunctuationNumberSign)
    } else if c == '$' {
        Some(TokenKind::PunctuationDollarSign)
    } else if c == '%' {
        Some(TokenKind::PunctuationPercentSign)
    } else if c == '&' {
        Some(TokenKind::PunctuationAmpersand)
    } else if c == '*' {
        Some(TokenKind::PunctuationAsterisk)
    } else if c == '+' {
        Some(TokenKind::PunctuationPlusSign)
    } else if c == ',' {
        Some(TokenKind::PunctuationComma)
    } else if c == '-' {
        Some(TokenKind::PunctuationHyphenMinus)
    } else if c == '.' {
        Some(TokenKind::PunctuationFullStop)
    } else if c == '/' {
        Some(TokenKind::PunctuationSolidus)
    } else if c == ':' {
        Some(TokenKind::PunctuationColon)
    } else if c == ';' {
        Some(TokenKind::PunctuationSemicolon)
    } else if c == '<' {
        Some(TokenKind::PunctuationLessThanSign)
    } else if c == '=' {
        Some(TokenKind::PunctuationEqualsSign)
    } else if c == '>' {
        Some(TokenKind::PunctuationGreaterThanSign)
    } else if c == '?' {
        Some(TokenKind::PunctuationQuestionMark)
    } else if c == '@' {
        Some(TokenKind::PunctuationCommercialAt)
    } else if c == '\\' {
        Some(TokenKind::PunctuationReverseSolidus)
    } else if c == '^' {
        Some(TokenKind::PunctuationCircumflexAccent)
    } else if c == '|' {
        Some(TokenKind::PunctuationVerticalLine)
    } else if c == '~' {
        Some(TokenKind::PunctuationTilde)
    } else if c == '(' {
        Some(TokenKind::PunctuationLeftParenthesis)
    } else if c == '[' {
        Some(TokenKind::PunctuationLeftSquareBracket)
    } else if c == '{' {
        Some(TokenKind::PunctuationLeftCurlyBracket)
    } else if c == ')' {
        Some(TokenKind::PunctuationRightParenthesis)
    } else if c == ']' {
        Some(TokenKind::PunctuationRightSquareBracket)
    } else if c == '}' {
        Some(TokenKind::PunctuationRightCurlyBracket)
    } else {
        None
    }
}

/// The kind of a word: a keyword, the discard `_`, or an identifier.
pub open spec fn word_kind(w: Seq<char>) -> TokenKind {
    if w == seq!['e', 'n', 'u', 'm'] {
        TokenKind::KeywordEnum
    } else if w == seq!['f', 'n'] {
        TokenKind::KeywordFn
    } else if w == seq!['l', 'e', 't'] {
        TokenKind::KeywordLet
    } else if w == seq!['m', 'a', 't', 'c', 'h'] {
        TokenKind::KeywordMatch
    } else if w == seq!['m', 'u', 't'] {
        TokenKind::KeywordMut
    } else if w == seq!['s', 't', 'r', 'u', 'c', 't'] {
        TokenKind::KeywordStruct
    } else if w == seq!['_'] {
        TokenKind::IdentifierUnderscore
    } else {
        TokenKind::IdentifierIdentifier
    }
}

/// The end of the run of horizontal spaces from `i`.
pub open spec fn horizontal_end(cs: Seq<char>, i: int) -> int
    decreases cs.len() - i,
{
    if 0 <= i < cs.len() && horizontal_space(cs[i]) {
        horizontal_end(cs, i + 1)
    } else {
        i
    }
}

/// The end of the run of identifier characters from `i`.
pub open spec fn word_end(cs: Seq<char>, i: int) -> int
    decreases cs.len() - i,
{
    if 0 <= i < cs.len() && xid_continue(cs[i]) {
        word_end(cs, i + 1)
    } else {
        i
    }
}

/// The longest token that starts at `i`, as its kind and end; `None` where no token starts there.
pub open spec fn next_token(cs: Seq<char>, i: int) -> Option<(TokenKind, int)> {
    let c = cs[i];
    if horizontal_space(c) {
        Some((TokenKind::SpaceHorizontal, horizontal_end(cs, i)))
    } else if c == '\r' && i + 1 < cs.len() && cs[i + 1] == '\n' {
        Some((TokenKind::SpaceVertical, i + 2))
    } else if vertical_space(c) {
        Some((TokenKind::SpaceVertical, i + 1))
    } else if c == '_' || xid_start(c) {
        let e = word_end(cs, i + 1);
        Some((word_kind(cs.subrange(i, e)), e))
    } else if c == '=' && i + 1 < cs.len() && cs[i + 1] == '>' {
        Some((TokenKind::PunctuationsFatArrow, i + 2))
    } else if punctuation(c) is Some {
        Some((punctuation(c)->Some_0, i + 1))
    } else {
        None
    }
}

pub proof fn lemma_run_ends(cs: Seq<char>, i: int)
    requires
        0 <= i <= cs.len(),
    ensures
        i <= horizontal_end(cs, i) <= cs.len(),
        i <= word_end(cs, i) <= cs.len(),
    decreases cs.len() - i,
{
    if i < cs.len() {
        lemma_run_ends(cs, i + 1);
    }
}

pub proof fn lemma_next_token_advances(cs: Seq<char>, i: int)
    requires
        0 <= i < cs.len(),
        next_token(cs, i) is Some,
    ensures
        i < next_token(cs, i)->Some_0.1 <= cs.len(),
{
    lemma_run_ends(cs, i);
    lemma_run_ends(cs, i + 1);
}

/// The tokens of `cs` from `i` on, as kind, start and end; `None` where some position
/// starts no token.
pub open spec fn tokens_model(cs: Seq<char>, i: int) -> Option<Seq<(TokenKind, int, int)>>
    decreases cs.len() - i,
{
    if i < 0 || i >= cs.len() {
        Some(Seq::empty())
    } else {
        match next_token(cs, i) {
            None => None,
            Some(t) => {
                proof {
                    lemma_next_token_advances(cs, i);
                }
                match tokens_model(cs, t.1) {
                    None => None,
                    Some(rest) => Some(seq![(t.0, i, t.1)] + rest),
                }
            },
        }
    }
}

/// The first position from `i` on where no token starts.
pub open spec fn failure_position(cs: Seq<char>, i: int) -> int
    decreases cs.len() - i,
{
    if i < 0 || i >= cs.len() {
        i
    } else {
        match next_token(cs, i) {
            None => i,
            Some(t) => {
                proof {
                    lemma_next_token_advances(cs, i);
                }
                failure_position(cs, t.1)
            },
        }
    }
}

/// The line and column after the tokens `d` of `cs`: a line break starts a new line, any
/// other token moves the column by its length in bytes.
pub open spec fn line_col(cs: Seq<char>, d: Seq<(TokenKind, int, int)>) -> (nat, nat)
    decreases d.len(),
{
    if d.len() == 0 {
        (1, 0)
    } else {
        let before = line_col(cs, d.drop_last());
        let t = d.last();
        if t.0 == TokenKind::SpaceVertical {
            (before.0 + 1, 0)
        } else {
            (before.0, before.1 + utf8_length(cs.subrange(t.1, t.2)))
        }
    }
}

/// The position in the source after the first `k` tokens `d` of `cs`.
pub open spec fn position_after(cs: Seq<char>, d: Seq<(TokenKind, int, int)>, k: int) -> Offset {
    let lc = line_col(cs, d.take(k));
    let end = if k == 0 {
        0
    } else {
        d[k - 1].2
    };
    Offset { offset: utf8_length(cs.subrange(0, end)) as usize, line: lc.0 as usize, col: lc.1 as usize }
}

/// Where tokenizing stopped: the byte offset of the first character that starts no token.
#[derive(Debug, Clone, Copy, PartialEq, Eq, Structural)]
pub struct TokenizeError {
    pub offset: usize,
}

// ---------------------------------------------------------------- lemmas on byte lengths

pub proof fn lemma_utf8_concat(a: Seq<char>, b: Seq<char>)
    ensures
        utf8_length(a + b) == utf8_length(a) + utf8_length(b),
    decreases b.len(),
{
    if b.len() > 0 {
        lemma_utf8_concat(a, b.drop_last());
        assert((a + b).drop_last() =~= a + b.drop_last());
        assert((a + b).last() == b.last());
    } else {
        assert(a + b =~= a);
    }
}

pub proof fn lemma_utf8_at_least_len(a: Seq<char>)
    ensures
        utf8_length(a) >= a.len(),
    decreases a.len(),
{
    if a.len() > 0 {
        lemma_utf8_at_least_len(a.drop_last());
    }
}

/// The bytes of `cs[0..j]` are those of `cs[0..i]` and `cs[i..j]`, and no more than those of `cs`.
proof fn lemma_utf8_split(cs: Seq<char>, i: int, j: int)
    requires
        0 <= i <= j <= cs.len(),
    ensures
        utf8_length(cs.subrange(0, j)) == utf8_length(cs.subrange(0, i)) + utf8_length(cs.subrange(i, j)),
        utf8_length(cs.subrange(0, j)) <= utf8_length(cs),
{
    assert(cs.subrange(0, j) =~= cs.subrange(0, i) + cs.subrange(i, j));
    lemma_utf8_concat(cs.subrange(0, i), cs.subrange(i, j));
    assert(cs =~= cs.subrange(0, j) + cs.subrange(j, cs.len() as int));
    lemma_utf8_concat(cs.subrange(0, j), cs.subrange(j, cs.len() as int));
}

// ---------------------------------------------------------------- scanning

fn chars_of(source: &str) -> (r: Vec<char>)
    ensures
        r@ == source@,
{
    let mut it = source.chars();
    let mut out: Vec<char> = Vec::new();
    loop
        invariant
            out@ + it.remaining() == source@,
            it.decrease() is Some,
            it.obeys_prophetic_iter_laws(),
        ensures
            out@ == source@,
        decreases it.decrease()->0,
    {
        match it.next() {
            Some(c) => {
                out.push(c);
            },
            None => {
                assert(out@ =~= source@);
                break;
            },
        }
    }
    out
}

fn char_len(c: char) -> (r: usize)
    ensures
        r == utf8_len(c),
{
    let v = c as u32;
    if v < 0x80 {
        1
    } else if v < 0x800 {
        2
    } else if v < 0x10000 {
        3
    } else {
        4
    }
}

fn is_horizontal(c: char) -> (r: bool)
    ensures
        r == horizontal_space(c),
{
    let v = c as u32;
    c == '\t' || c == ' ' || c == '\u{00AD}' || c == '\u{00A0}' || c == '\u{1680}' || (0x2000 <= v && v <= 0x200B)
        || c == '\u{200E}' || c == '\u{200F}' || c == '\u{202F}' || c == '\u{205F}' || c == '\u{3000}' || c
        == '\u{FEFF}'
}

fn is_vertical(c: char) -> (r: bool)
    ensures
        r == vertical_space(c),
{
    c == '\n' || c == '\u{000B}' || c == '\u{000C}' || c == '\r' || c == '\u{0085}' || c == '\u{2028}' || c
        == '\u{2029}'
}

fn punctuation_of(c: char) -> (r: Option<TokenKind>)
    ensures
        r == punctuation(c),
{
    if c == '!' {
        Some(TokenKind::PunctuationExclamationMark)
    } else if c == '#' {
        Some(TokenKind::PunctuationNumberSign)
    } else if c == '$' {
        Some(TokenKind::PunctuationDollarSign)
    } else if c == '%' {
        Some(TokenKind::PunctuationPercentSign)
    } else if c == '&' {
        Some(TokenKind::PunctuationAmpersand)
    } else if c == '*' {
        Some(TokenKind::PunctuationAsterisk)
    } else if c == '+' {
        Some(TokenKind::PunctuationPlusSign)
    } else if c == ',' {
        Some(TokenKind::PunctuationComma)
    } else if c == '-' {
        Some(TokenKind::PunctuationHyphenMinus)
    } else if c == '.' {
        Some(TokenKind::PunctuationFullStop)
    } else if c == '/' {
        Some(TokenKind::PunctuationSolidus)
    } else if c == ':' {
        Some(TokenKind::PunctuationColon)
    } else if c == ';' {
        Some(TokenKind::PunctuationSemicolon)
    } else if c == '<' {
        Some(TokenKind::PunctuationLessThanSign)
    } else if c == '=' {
        Some(TokenKind::PunctuationEqualsSign)
    } else if c == '>' {
        Some(TokenKind::PunctuationGreaterThanSign)
    } else if c == '?' {
        Some(TokenKind::PunctuationQuestionMark)
    } else if c == '@' {
        Some(TokenKind::PunctuationCommercialAt)
    } else if c == '\\' {
        Some(TokenKind::PunctuationReverseSolidus)
    } else if c == '^' {
        Some(TokenKind::PunctuationCircumflexAccent)
    } else if c == '|' {
        Some(TokenKind::PunctuationVerticalLine)
    } else if c == '~' {
        Some(TokenKind::PunctuationTilde)
    } else if c == '(' {
        Some(TokenKind::PunctuationLeftParenthesis)
    } else if c == '[' {
        Some(TokenKind::PunctuationLeftSquareBracket)
    } else if c == '{' {
        Some(TokenKind::PunctuationLeftCurlyBracket)
    } else if c == ')' {
        Some(TokenKind::PunctuationRightParenthesis)
    } else if c == ']' {
        Some(TokenKind::PunctuationRightSquareBracket)
    } else if c == '}' {
        Some(TokenKind::PunctuationRightCurlyBracket)
    } else {
        None
    }
}

fn horizontal_run(cs: &Vec<char>, i: usize) -> (r: usize)
    requires
        i <= cs@.len(),
    ensures
        r == horizontal_end(cs@, i as int),
{
    let mut j = i;
    while j < cs.len() && is_horizontal(cs[j])
        invariant
            i <= j <= cs@.len(),
            horizontal_end(cs@, i as int) == horizontal_end(cs@, j as int),
        decreases cs@.len() - j,
    {
        j = j + 1;
    }
    j
}

fn word_run(cs: &Vec<char>, i: usize) -> (r: usize)
    requires
        i <= cs@.len(),
    ensures
        r == word_end(cs@, i as int),
{
    let mut j = i;
    while j < cs.len() && unicode_ident::is_xid_continue(cs[j])
        invariant
            i <= j <= cs@.len(),
            word_end(cs@, i as int) == word_end(cs@, j as int),
        decreases cs@.len() - j,
    {
        j = j + 1;
    }
    j
}

fn same_chars(cs: &Vec<char>, i: usize, e: usize, w: &Vec<char>) -> (r: bool)
    requires
        i <= e <= cs@.len(),
    ensures
        r == (cs@.subrange(i as int, e as int) == w@),
{
    if e - i != w.len() {
        return false;
    }
    let mut k: usize = 0;
    while k < w.len()
        invariant
            e - i == w@.len(),
            i <= e <= cs@.len(),
            k <= w@.len(),
            forall|m: int| 0 <= m < k ==> cs@[i + m] == w@[m],
        decreases w@.len() - k,
    {
        if cs[i + k] != w[k] {
            assert(cs@.subrange(i as int, e as int)[k as int] != w@[k as int]);
            return false;
        }
        k = k + 1;
    }
    assert(cs@.subrange(i as int, e as int) =~= w@);
    true
}

fn word_kind_of(cs: &Vec<char>, i: usize, e: usize) -> (r: TokenKind)
    requires
        i <= e <= cs@.len(),
    ensures
        r == word_kind(cs@.subrange(i as int, e as int)),
{
    let ghost w = cs@.subrange(i as int, e as int);
    let kw_enum = vec!['e', 'n', 'u', 'm'];
    let kw_fn = vec!['f', 'n'];
    let kw_let = vec!['l', 'e', 't'];
    let kw_match = vec!['m', 'a', 't', 'c', 'h'];
    let kw_mut = vec!['m', 'u', 't'];
    let kw_struct = vec!['s', 't', 'r', 'u', 'c', 't'];
    let discard = vec!['_'];
    assert(kw_enum@ =~= seq!['e', 'n', 'u', 'm']);
    assert(kw_fn@ =~= seq!['f', 'n']);
    assert(kw_let@ =~= seq!['l', 'e', 't']);
    assert(kw_match@ =~= seq!['m', 'a', 't', 'c', 'h']);
    assert(kw_mut@ =~= seq!['m', 'u', 't']);
    assert(kw_struct@ =~= seq!['s', 't', 'r', 'u', 'c', 't']);
    assert(discard@ =~= seq!['_']);
    if same_chars(cs, i, e, &kw_enum) {
        TokenKind::KeywordEnum
    } else if same_chars(cs, i, e, &kw_fn) {
        TokenKind::KeywordFn
    } else if same_chars(cs, i, e, &kw_let) {
        TokenKind::KeywordLet
    } else if same_chars(cs, i, e, &kw_match) {
        TokenKind::KeywordMatch
    } else if same_chars(cs, i, e, &kw_mut) {
        TokenKind::KeywordMut
    } else if same_chars(cs, i, e, &kw_struct) {
        TokenKind::KeywordStruct
    } else if same_chars(cs, i, e, &discard) {
        TokenKind::IdentifierUnderscore
    } else {
        TokenKind::IdentifierIdentifier
    }
}

fn scan_token(cs: &Vec<char>, i: usize) -> (r: Option<(TokenKind, usize)>)
    requires
        i < cs@.len(),
    ensures
        match (r, next_token(cs@, i as int)) {
            (None, None) => true,
            (Some(a), Some(b)) => a.0 == b.0 && a.1 == b.1,
            _ => false,
        },
{
    // the number of characters fits in usize
    let _len = cs.len();
    let c = cs[i];
    proof {
        lemma_run_ends(cs@, i as int);
        lemma_run_ends(cs@, i + 1);
    }
    if is_horizontal(c) {
        Some((TokenKind::SpaceHorizontal, horizontal_run(cs, i)))
    } else if c == '\r' && i + 1 < cs.len() && cs[i + 1] == '\n' {
        Some((TokenKind::SpaceVertical, i + 2))
    } else if is_vertical(c) {
        Some((TokenKind::SpaceVertical, i + 1))
    } else if c == '_' || unicode_ident::is_xid_start(c) {
        let e = word_run(cs, i + 1);
        Some((word_kind_of(cs, i, e), e))
    } else if c == '=' && i + 1 < cs.len() && cs[i + 1] == '>' {
        Some((TokenKind::PunctuationsFatArrow, i + 2))
    } else {
        match punctuation_of(c) {
            Some(k) => Some((k, i + 1)),
            None => None,
        }
    }
}

pub open spec fn prepend(d: Seq<(TokenKind, int, int)>, o: Option<Seq<(TokenKind, int, int)>>) -> Option<Seq<(TokenKind, int, int)>> {
    match o {
        None => None,
        Some(rest) => Some(d + rest),
    }
}

/// The token whose text is `cs[i..e]`, from position `begin`, and the position after it.
fn make_token(cs: &Vec<char>, i: usize, e: usize, kind: TokenKind, begin: &Offset) -> (r: (Spanned<Token>, Offset))
    requires
        i < e <= cs@.len(),
        utf8_length(cs@) < usize::MAX,
        begin.offset == utf8_length(cs@.subrange(0, i as int)),
        begin.line <= 1 + begin.offset,
        begin.col <= begin.offset,
    ensures
        r.0.1.kind == kind,
        r.0.1.content@ == cs@.subrange(i as int, e as int),
        r.0.0.start == *begin,
        r.0.0.end == r.1,
        r.1.offset == utf8_length(cs@.subrange(0, e as int)),
        r.1.line == (if kind == TokenKind::SpaceVertical {
            begin.line + 1
        } else {
            begin.line as int
        }),
        r.1.col == (if kind == TokenKind::SpaceVertical {
            0
        } else {
            begin.col + utf8_length(cs@.subrange(i as int, e as int))
        }),
        r.1.line <= 1 + r.1.offset,
        r.1.col <= r.1.offset,
{
    let mut content = String::new();
    let mut bytes: usize = 0;
    let mut j = i;
    proof {
        lemma_utf8_split(cs@, i as int, e as int);
        lemma_utf8_split(cs@, 0, i as int);
    }
    while j < e
        invariant
            i <= j <= e <= cs@.len(),
            utf8_length(cs@) < usize::MAX,
            content@ == cs@.subrange(i as int, j as int),
            bytes == utf8_length(cs@.subrange(i as int, j as int)),
            utf8_length(cs@.subrange(i as int, e as int)) <= utf8_length(cs@),
        decreases e - j,
    {
        proof {
            let sub = cs@.subrange(i as int, j + 1);
            assert(sub.drop_last() =~= cs@.subrange(i as int, j as int));
            assert(sub.last() == cs@[j as int]);
            lemma_utf8_concat(sub, cs@.subrange(j + 1, e as int));
            assert(sub + cs@.subrange(j + 1, e as int) =~= cs@.subrange(i as int, e as int));
        }
        push_char(&mut content, cs[j]);
        bytes = bytes + char_len(cs[j]);
        j = j + 1;
        assert(content@ =~= cs@.subrange(i as int, j as int));
    }
    proof {
        lemma_utf8_split(cs@, i as int, e as int);
        lemma_utf8_at_least_len(cs@.subrange(i as int, e as int));
    }
    let offset = begin.offset + bytes;
    let (line, col) = if kind == TokenKind::SpaceVertical {
        (begin.line + 1, 0)
    } else {
        (begin.line, begin.col + bytes)
    };
    let end = Offset { offset, line, col };
    let span = Span::new(crate::span::copy_offset(begin), crate::span::copy_offset(&end));
    (Spanned(span, Token { kind, content }), end)
}

/// Splits source text into tokens, longest first at each position: runs of horizontal
/// space, line breaks (`\r\n` as one), words (`_` or an XID_Start character followed by
/// XID_Continue characters; keywords and `_` get their own kinds) and punctuation (`=>` as
/// one). Each token spans its bytes, with the line and column where it starts and ends; an
/// end-of-input token closes the list. Fails at the first character that starts no token.
pub fn tokenize(source: &str) -> (r: Result<Vec<Spanned<Token>>, TokenizeError>)
    requires
        utf8_length(source@) < usize::MAX,
    ensures
        match r {
            Ok(ts) => {
                &&& tokens_model(source@, 0) is Some
                &&& ts@.len() == tokens_model(source@, 0)->Some_0.len() + 1
                &&& forall|k: int| 0 <= k < tokens_model(source@, 0)->Some_0.len() ==> {
                    let m = tokens_model(source@, 0)->Some_0;
                    &&& (#[trigger] ts@[k]).1.kind == m[k].0
                    &&& ts@[k].1.content@ == source@.subrange(m[k].1, m[k].2)
                    &&& ts@[k].0.start == position_after(source@, m, k)
                    &&& ts@[k].0.end == position_after(source@, m, k + 1)
                }
                &&& ts@.last().1.kind == TokenKind::Eof
                &&& ts@.last().1.content@.len() == 0
                &&& ts@.last().0.start == position_after(source@, tokens_model(source@, 0)->Some_0, tokens_model(source@, 0)->Some_0.len() as int)
                &&& ts@.last().0.end == ts@.last().0.start
            },
            Err(e) => {
                &&& tokens_model(source@, 0) is None
                &&& e.offset == utf8_length(source@.subrange(0, failure_position(source@, 0)))
            },
        },
{
    let cs = chars_of(source);
    let ghost s = cs@;
    let mut tokens: Vec<Spanned<Token>> = Vec::new();
    let ghost mut done: Seq<(TokenKind, int, int)> = Seq::empty();
    let mut state = Offset { offset: 0, line: 1, col: 0 };
    let mut i: usize = 0;
    proof {
        assert(s.subrange(0, 0) =~= Seq::<char>::empty());
        assert(done.take(0) =~= done);
    }
    while i < cs.len()
        invariant
            s == cs@,
            s == source@,
            utf8_length(s) < usize::MAX,
            i <= s.len(),
            tokens_model(s, 0) == prepend(done, tokens_model(s, i as int)),
            failure_position(s, 0) == failure_position(s, i as int),
            done.len() == 0 ==> i == 0,
            done.len() > 0 ==> done.last().2 == i,
            tokens@.len() == done.len(),
            forall|k: int| 0 <= k < done.len() ==> {
                &&& (#[trigger] tokens@[k]).1.kind == done[k].0
                &&& tokens@[k].1.content@ == s.subrange(done[k].1, done[k].2)
                &&& tokens@[k].0.start == position_after(s, done, k)
                &&& tokens@[k].0.end == position_after(s, done, k + 1)
            },
            state == position_after(s, done, done.len() as int),
            state.offset == utf8_length(s.subrange(0, i as int)),
            state.line <= 1 + state.offset,
            state.col <= state.offset,
            line_col(s, done).0 <= 1 + utf8_length(s.subrange(0, i as int)),
            line_col(s, done).1 <= utf8_length(s.subrange(0, i as int)),
            forall|k: int| 0 <= k < done.len() ==> 0 <= (#[trigger] done[k]).1 < done[k].2 <= i,
        decreases s.len() - i,
    {
        match scan_token(&cs, i) {
            None => {
                proof {
                    assert(tokens_model(s, i as int) is None);
                    assert(failure_position(s, i as int) == i);
                }
                return Err(TokenizeError { offset: state.offset });
            },
            Some((kind, e)) => {
                proof {
                    lemma_next_token_advances(s, i as int);
                }
                let (token, next) = make_token(&cs, i, e, kind, &state);
                tokens.push(token);
                let ghost old_done = done;
                proof {
                    done = done.push((kind, i as int, e as int));
                    assert(tokens_model(s, i as int) == prepend(seq![(kind, i as int, e as int)], tokens_model(s, e as int)));
                    assert(seq![(kind, i as int, e as int)] + Seq::<(TokenKind, int, int)>::empty() =~= seq![(kind, i as int, e as int)]);
                    assert forall|rest: Seq<(TokenKind, int, int)>| old_done + (seq![(kind, i as int, e as int)] + rest) =~= done + rest by {}
                    assert(done.take(done.len() as int) =~= done);
                    assert(done.take(done.len() - 1) =~= old_done);
                    assert(old_done.take(old_done.len() as int) =~= old_done);
                    assert forall|k: int| 0 <= k <= old_done.len() implies #[trigger] position_after(s, done, k) == position_after(s, old_done, k) by {
                        assert(done.take(k) =~= old_done.take(k));
                    }
                    lemma_utf8_split(s, i as int, e as int);
                    lemma_utf8_split(s, 0, i as int);
                    lemma_utf8_at_least_len(s.subrange(i as int, e as int));
                    assert(done.drop_last() =~= old_done);
                    let before = line_col(s, old_done);
                    assert(line_col(s, done) == (if kind == TokenKind::SpaceVertical {
                        (before.0 + 1, 0nat)
                    } else {
                        (before.0, before.1 + utf8_length(s.subrange(i as int, e as int)))
                    }));
                    assert(next == position_after(s, done, done.len() as int));
                    assert forall|k: int| 0 <= k < done.len() implies {
                        &&& (#[trigger] tokens@[k]).1.kind == done[k].0
                        &&& tokens@[k].1.content@ == s.subrange(done[k].1, done[k].2)
                        &&& tokens@[k].0.start == position_after(s, done, k)
                        &&& tokens@[k].0.end == position_after(s, done, k + 1)
                    } by {
                        if k < old_done.len() {
                            assert(position_after(s, done, k + 1) == position_after(s, old_done, k + 1));
                        }
                    }
                }
                state = next;
                i = e;
            },
        }
    }
    let begin = crate::span::copy_offset(&state);
    let end = crate::span::copy_offset(&state);
    tokens.push(Spanned(Span::new(begin, end), Token { kind: TokenKind::Eof, content: String::new() }));
    proof {
        assert(tokens_model(s, i as int) == Some(Seq::<(TokenKind, int, int)>::empty()));
        assert(done + Seq::<(TokenKind, int, int)>::empty() =~= done);
    }
    Ok(tokens)
}

} // verus!
