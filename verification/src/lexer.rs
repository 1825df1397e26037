//! Tokens and the scanner that produces them.
//!
//! A source file is scanned line by line. Each line is cut into pieces at
//! white space and at punctuation, and each piece becomes one token with the
//! place where it starts.

use vstd::prelude::*;
use crate::error::{Expected, ParseError, ParseErrorView};
use crate::text::{
    all_digits, copy_bytes, copy_range, digits, digits_value, is_digit, lit, parse_i64, push_bytes,
    push_str, push_u128, same_as,
};

verus! {

/// The name of a source file, as bytes.
#[derive(Debug)]
pub struct FilePath {
    pub bytes: Vec<u8>,
}

impl View for FilePath {
    type V = Seq<u8>;

    open spec fn view(&self) -> Seq<u8> {
        self.bytes@
    }
}

impl FilePath {
    /// The file name `file_path`.
    pub fn new(file_path: &str) -> (r: FilePath)
        ensures
            r@ == lit(file_path),
    {
        FilePath { bytes: copy_bytes(file_path.as_bytes()) }
    }
}

impl Clone for FilePath {
    fn clone(&self) -> (r: Self)
        ensures
            r@ == self@,
    {
        FilePath { bytes: copy_bytes(self.bytes.as_slice()) }
    }
}

/// A place in a source file: zero-based row and column (a byte offset
/// within the line).
#[derive(Debug)]
pub struct Loc {
    pub row: usize,
    pub col: usize,
    pub file_path: FilePath,
}

/// The model of a [`Loc`].
pub struct LocView {
    pub row: usize,
    pub col: usize,
    pub file: Seq<u8>,
}

impl View for Loc {
    type V = LocView;

    open spec fn view(&self) -> LocView {
        LocView { row: self.row, col: self.col, file: self.file_path@ }
    }
}

/// A place as it is shown in a message: the file, the row and the
/// column, each followed by a colon. Rows and columns are shown counted
/// from one.
pub open spec fn loc_text(loc: LocView) -> Seq<u8> {
    loc.file + lit(":") + digits((loc.row + 1) as nat) + lit(":") + digits((loc.col + 1) as nat)
        + lit(":")
}

impl Loc {
    /// The place as it is shown in a message.
    pub fn to_text(&self) -> (r: Vec<u8>)
        ensures
            r@ == loc_text(self@),
    {
        let mut r: Vec<u8> = Vec::new();
        push_bytes(&mut r, self.file_path.bytes.as_slice());
        push_str(&mut r, ":");
        push_u128(&mut r, (self.row as u128) + 1);
        push_str(&mut r, ":");
        push_u128(&mut r, (self.col as u128) + 1);
        push_str(&mut r, ":");
        r
    }
}

impl Clone for Loc {
    fn clone(&self) -> (r: Self)
        ensures
            r@ == self@,
    {
        Loc { row: self.row, col: self.col, file_path: self.file_path.clone() }
    }
}

/// The kind of a token.
#[derive(Clone, Copy, Debug, PartialEq, Eq, Structural)]
pub enum TokenKind {
    /// An integer literal.
    Int,
    /// A floating-point literal.
    Flt,
    /// An identifier.
    Lit,
    /// A type keyword.
    Type,
    /// The keyword `fn`.
    Fn,
    Plus,
    Minus,
    Asterisk,
    Slash,
    LParen,
    RParen,
    LCurly,
    RCurly,
    Comma,
    Semicolon,
    Equal,
    /// The two characters `->`.
    Arrow,
}

/// A token: its kind, its text and the place where it starts.
#[derive(Debug)]
pub struct Token {
    pub loc: Loc,
    pub kind: TokenKind,
    pub string: Vec<u8>,
}

/// The model of a [`Token`].
pub struct TokenView {
    pub loc: LocView,
    pub kind: TokenKind,
    pub text: Seq<u8>,
}

impl View for Token {
    type V = TokenView;

    open spec fn view(&self) -> TokenView {
        TokenView { loc: self.loc@, kind: self.kind, text: self.string@ }
    }
}

/// The name of a kind of token.
pub open spec fn kind_name(kind: TokenKind) -> Seq<u8> {
    match kind {
        TokenKind::Int => lit("Int"),
        TokenKind::Flt => lit("Flt"),
        TokenKind::Lit => lit("Lit"),
        TokenKind::Type => lit("Type"),
        TokenKind::Fn => lit("Fn"),
        TokenKind::Plus => lit("Plus"),
        TokenKind::Minus => lit("Minus"),
        TokenKind::Asterisk => lit("Asterisk"),
        TokenKind::Slash => lit("Slash"),
        TokenKind::LParen => lit("LParen"),
        TokenKind::RParen => lit("RParen"),
        TokenKind::LCurly => lit("LCurly"),
        TokenKind::RCurly => lit("RCurly"),
        TokenKind::Comma => lit("Comma"),
        TokenKind::Semicolon => lit("Semicolon"),
        TokenKind::Equal => lit("Equal"),
        TokenKind::Arrow => lit("Arrow"),
    }
}

/// A token as it is shown in a message: its place, the name of its kind
/// and its text, with a space between two.
pub open spec fn token_text(t: TokenView) -> Seq<u8> {
    loc_text(t.loc) + lit(" ") + kind_name(t.kind) + lit(" ") + t.text
}

impl TokenKind {
    /// The name of the kind.
    pub fn name(&self) -> (r: &'static str)
        ensures
            lit(r) == kind_name(*self),
    {
        match self {
            TokenKind::Int => "Int",
            TokenKind::Flt => "Flt",
            TokenKind::Lit => "Lit",
            TokenKind::Type => "Type",
            TokenKind::Fn => "Fn",
            TokenKind::Plus => "Plus",
            TokenKind::Minus => "Minus",
            TokenKind::Asterisk => "Asterisk",
            TokenKind::Slash => "Slash",
            TokenKind::LParen => "LParen",
            TokenKind::RParen => "RParen",
            TokenKind::LCurly => "LCurly",
            TokenKind::RCurly => "RCurly",
            TokenKind::Comma => "Comma",
            TokenKind::Semicolon => "Semicolon",
            TokenKind::Equal => "Equal",
            TokenKind::Arrow => "Arrow",
        }
    }
}

impl Token {
    /// The token as it is shown in a message.
    pub fn to_text(&self) -> (r: Vec<u8>)
        ensures
            r@ == token_text(self@),
    {
        let mut r: Vec<u8> = self.loc.to_text();
        push_str(&mut r, " ");
        push_str(&mut r, self.kind.name());
        push_str(&mut r, " ");
        push_bytes(&mut r, self.string.as_slice());
        r
    }
}

impl Clone for Token {
    fn clone(&self) -> (r: Self)
        ensures
            r@ == self@,
    {
        Token { loc: self.loc.clone(), kind: self.kind, string: copy_bytes(self.string.as_slice()) }
    }
}

/// The tokens of one line.
pub type Tokens = Vec<Token>;

/// The tokens of a file, line by line.
pub type Tokens2D = Vec<Tokens>;

/// The models of the items of a sequence.
pub open spec fn views<T: View>(s: Seq<T>) -> Seq<T::V> {
    s.map_values(|t: T| t@)
}

/// The model of the tokens of a file: one sequence of token models a line.
pub open spec fn rows_view(rows: Seq<Tokens>) -> Seq<Seq<TokenView>> {
    rows.map_values(|r: Tokens| views(r@))
}

/// The model of a list of pieces: the offset and the bytes of each.
pub open spec fn pieces_view(pieces: Seq<(usize, Vec<u8>)>) -> Seq<(int, Seq<u8>)> {
    pieces.map_values(|p: (usize, Vec<u8>)| (p.0 as int, p.1@))
}

/// Whether three bytes are one of the white-space characters that take
/// three bytes in UTF-8: U+1680, U+2000 to U+200A, U+2028, U+2029, U+202F,
/// U+205F and U+3000.
pub open spec fn is_wide_space(a: u8, b: u8, c: u8) -> bool {
    ||| a == 0xE1 && b == 0x9A && c == 0x80
    ||| a == 0xE2 && b == 0x80 && ((0x80 <= c <= 0x8A) || c == 0xA8 || c == 0xA9 || c == 0xAF)
    ||| a == 0xE2 && b == 0x81 && c == 0x9F
    ||| a == 0xE3 && b == 0x80 && c == 0x80
}

/// The length in bytes of the white-space character that starts at offset
/// `i` of `s`, and zero if none starts there. White space is what Unicode
/// calls so: the space and the control characters from tab to carriage
/// return, one byte each; U+0085 and U+00A0, two bytes each; and the
/// characters of three bytes that [`is_wide_space`] names.
pub open spec fn space_len(s: Seq<u8>, i: int) -> int {
    if !(0 <= i < s.len()) {
        0
    } else if s[i] == 32 || (9 <= s[i] <= 13) {
        1
    } else if i + 1 < s.len() && s[i] == 0xC2 && (s[i + 1] == 0x85 || s[i + 1] == 0xA0) {
        2
    } else if i + 2 < s.len() && is_wide_space(s[i], s[i + 1], s[i + 2]) {
        3
    } else {
        0
    }
}

/// Whether the byte at offset `j` of `s` is part of a white-space
/// character: one starts there, or one or two bytes before and reaches it.
pub open spec fn in_space(s: Seq<u8>, j: int) -> bool {
    space_len(s, j) > 0 || space_len(s, j - 1) > 1 || space_len(s, j - 2) > 2
}

/// Punctuation, which always ends the piece before it:
/// `;` `=` `*` `/` `-` `+` `(` `)` `{` `}` `,` `>`.
pub open spec fn is_separator(b: u8) -> bool {
    b == 59 || b == 61 || b == 42 || b == 47 || b == 45 || b == 43 || b == 40 || b == 41 || b
        == 123 || b == 125 || b == 44 || b == 62
}

/// The end of the run of bytes from `i` that are neither white space nor
/// punctuation.
pub open spec fn word_end(s: Seq<u8>, i: int) -> int
    decreases s.len() - i,
{
    if 0 <= i < s.len() && space_len(s, i) == 0 && !is_separator(s[i]) {
        word_end(s, i + 1)
    } else {
        i
    }
}

/// The end of the piece that starts at `i`, where no white space starts:
/// the two bytes `->`, one byte of punctuation, or a whole word.
pub open spec fn piece_end(s: Seq<u8>, i: int) -> int {
    if s[i] == 45 && i + 1 < s.len() && s[i + 1] == 62 {
        i + 2
    } else if is_separator(s[i]) {
        i + 1
    } else {
        word_end(s, i)
    }
}

/// The pieces of `s` from offset `i` on, after the pieces `acc` found
/// before it.
pub open spec fn pieces_from(s: Seq<u8>, i: int, acc: Seq<(int, Seq<u8>)>) -> Seq<(int, Seq<u8>)>
    decreases s.len() - i,
{
    if !(0 <= i < s.len()) {
        acc
    } else if space_len(s, i) > 0 {
        pieces_from(s, i + space_len(s, i), acc)
    } else {
        let e = piece_end(s, i);
        if i < e <= s.len() {
            pieces_from(s, e, acc.push((i, s.subrange(i, e))))
        } else {
            acc
        }
    }
}

/// The pieces of a line: each with the offset at which it starts.
pub open spec fn pieces(s: Seq<u8>) -> Seq<(int, Seq<u8>)> {
    pieces_from(s, 0, Seq::empty())
}

/// The first offset from `i` on that holds no digit.
pub open spec fn digits_end(s: Seq<u8>, i: int) -> int
    decreases s.len() - i,
{
    if 0 <= i < s.len() && is_digit(s[i]) {
        digits_end(s, i + 1)
    } else {
        i
    }
}

/// Whether text that starts with a digit has the form of a floating-point
/// literal: digits, an optional `.` with optional digits, and an optional
/// exponent `e` or `E` with an optional sign and at least one digit.
pub open spec fn is_float_text(s: Seq<u8>) -> bool {
    let a = digits_end(s, 0);
    let b = if a < s.len() && s[a] == 46 {
        digits_end(s, a + 1)
    } else {
        a
    };
    let c = if b + 1 < s.len() && (s[b + 1] == 43 || s[b + 1] == 45) {
        b + 2
    } else {
        b + 1
    };
    &&& a > 0
    &&& (b == s.len() || ((s[b] == 101 || s[b] == 69) && digits_end(s, c) > c && digits_end(s, c)
        == s.len()))
}

/// The bytes of the keyword for the 64-bit floating-point type: the letter
/// `f` followed by `64`.
pub open spec fn float_keyword() -> Seq<u8> {
    seq![102u8, 54u8, 52u8]
}

/// Whether `text` is one of the two type keywords.
pub open spec fn is_type_keyword(text: Seq<u8>) -> bool {
    text == lit("i64") || text == float_keyword()
}

/// The kind of the token with the text `text`, found at `loc`.
///
/// Punctuation is told by its first byte. Text that starts with a digit is
/// an integer literal if it is a string of digits that fits in 64 bits with
/// sign, else a floating-point literal if it has that form, else malformed.
/// Text that starts with a letter is a keyword or an identifier. Anything
/// else begins no token.
pub open spec fn token_kind_of(text: Seq<u8>, loc: LocView) -> Result<TokenKind, ParseErrorView> {
    let unknown = Err(
        ParseErrorView::UnexpectedToken { expected: Expected::Lexeme, found: text, loc },
    );
    if text.len() == 0 {
        unknown
    } else if text == seq![45u8, 62u8] {
        Ok(TokenKind::Arrow)
    } else if text[0] == 43 {
        Ok(TokenKind::Plus)
    } else if text[0] == 61 {
        Ok(TokenKind::Equal)
    } else if text[0] == 42 {
        Ok(TokenKind::Asterisk)
    } else if text[0] == 40 {
        Ok(TokenKind::LParen)
    } else if text[0] == 41 {
        Ok(TokenKind::RParen)
    } else if text[0] == 45 {
        Ok(TokenKind::Minus)
    } else if text[0] == 47 {
        Ok(TokenKind::Slash)
    } else if text[0] == 59 {
        Ok(TokenKind::Semicolon)
    } else if text[0] == 123 {
        Ok(TokenKind::LCurly)
    } else if text[0] == 125 {
        Ok(TokenKind::RCurly)
    } else if text[0] == 44 {
        Ok(TokenKind::Comma)
    } else if is_digit(text[0]) {
        if all_digits(text) && digits_value(text) <= i64::MAX {
            Ok(TokenKind::Int)
        } else if is_float_text(text) {
            Ok(TokenKind::Flt)
        } else {
            Err(ParseErrorView::MalformedNumericLiteral { text, loc })
        }
    } else if (97 <= text[0] <= 122) || (65 <= text[0] <= 90) {
        if is_type_keyword(text) {
            Ok(TokenKind::Type)
        } else if text == lit("fn") {
            Ok(TokenKind::Fn)
        } else {
            Ok(TokenKind::Lit)
        }
    } else {
        unknown
    }
}

/// The tokens of the pieces from the `k`-th on, after the tokens `acc` of
/// the pieces before it; or the error of the first piece that is no token.
pub open spec fn tokens_from(
    ps: Seq<(int, Seq<u8>)>,
    file: Seq<u8>,
    row: usize,
    k: int,
    acc: Seq<TokenView>,
) -> Result<Seq<TokenView>, ParseErrorView>
    decreases ps.len() - k,
{
    if !(0 <= k < ps.len()) {
        Ok(acc)
    } else {
        let loc = LocView { row, col: ps[k].0 as usize, file };
        match token_kind_of(ps[k].1, loc) {
            Ok(kind) => tokens_from(
                ps,
                file,
                row,
                k + 1,
                acc.push(TokenView { loc, kind, text: ps[k].1 }),
            ),
            Err(e) => Err(e),
        }
    }
}

/// The tokens of the line `line`, which is row `row` of the file `file`.
pub open spec fn line_tokens(line: Seq<u8>, file: Seq<u8>, row: usize) -> Result<
    Seq<TokenView>,
    ParseErrorView,
> {
    tokens_from(pieces(line), file, row, 0, Seq::empty())
}

/// The end of the line that starts at `i`: the offset of the next line
/// feed, or the end of the text.
pub open spec fn line_end(s: Seq<u8>, i: int) -> int
    decreases s.len() - i,
{
    if 0 <= i < s.len() && s[i] != 10 {
        line_end(s, i + 1)
    } else {
        i
    }
}

/// The tokens of the lines of `content` from offset `pos` on, where row
/// `row` starts, after the rows `acc` of the lines before it; or the error
/// of the first piece that is no token. Lines end at a line feed; a last
/// line that is empty does not count.
pub open spec fn rows_from(
    content: Seq<u8>,
    file: Seq<u8>,
    pos: int,
    row: usize,
    acc: Seq<Seq<TokenView>>,
) -> Result<Seq<Seq<TokenView>>, ParseErrorView>
    decreases content.len() - pos,
{
    if !(0 <= pos < content.len()) {
        Ok(acc)
    } else {
        let e = line_end(content, pos);
        match line_tokens(content.subrange(pos, e), file, row) {
            Ok(toks) => if pos <= e < content.len() {
                rows_from(content, file, e + 1, (row + 1) as usize, acc.push(toks))
            } else {
                Ok(acc.push(toks))
            },
            Err(e) => Err(e),
        }
    }
}

/// The tokens of a whole file, line by line.
pub open spec fn file_tokens(content: Seq<u8>, file: Seq<u8>) -> Result<
    Seq<Seq<TokenView>>,
    ParseErrorView,
> {
    rows_from(content, file, 0, 0, Seq::empty())
}

/// Whether a piece is a stretch of the line `s`: it holds the bytes of
/// `s` from its offset on, at least one, and no byte of a white-space
/// character. It is the arrow `->`, or one byte of punctuation, or it holds
/// no punctuation at all.
pub open spec fn is_stretch(s: Seq<u8>, p: (int, Seq<u8>)) -> bool {
    &&& 0 <= p.0
    &&& p.1.len() > 0
    &&& p.0 + p.1.len() <= s.len()
    &&& p.1 == s.subrange(p.0, p.0 + p.1.len())
    &&& forall|j: int| p.0 <= j < p.0 + p.1.len() ==> !#[trigger] in_space(s, j)
    &&& {
        ||| p.1 == seq![45u8, 62u8]
        ||| p.1.len() == 1 && is_separator(p.1[0])
        ||| forall|j: int| p.0 <= j < p.0 + p.1.len() ==> !is_separator(#[trigger] s[j])
    }
}

/// Whether no white-space character lies across the offset `upto` of `s`.
pub open spec fn clean_cut(s: Seq<u8>, upto: int) -> bool {
    space_len(s, upto - 1) <= 1 && space_len(s, upto - 2) <= 2
}

/// Whether the pieces `ps` are the text of the line `s` before the offset
/// `upto` with the white space left out: every piece is a stretch of `s`
/// that ends at or before `upto`, the pieces follow one another without
/// overlap, and every byte before `upto` that is no part of a white-space
/// character lies in one of them.
pub open spec fn cut_up(s: Seq<u8>, ps: Seq<(int, Seq<u8>)>, upto: int) -> bool {
    &&& forall|k: int|
        0 <= k < ps.len() ==> is_stretch(s, #[trigger] ps[k]) && ps[k].0 + ps[k].1.len() <= upto
    &&& forall|k: int, m: int|
        0 <= k < m < ps.len() ==> (#[trigger] ps[k]).0 + ps[k].1.len() <= (#[trigger] ps[m]).0
    &&& forall|j: int|
        0 <= j < upto && !#[trigger] in_space(s, j) ==> exists|k: int|
            0 <= k < ps.len() && (#[trigger] ps[k]).0 <= j < ps[k].0 + ps[k].1.len()
}

proof fn lemma_pieces_from_cut_up(s: Seq<u8>, i: int, acc: Seq<(int, Seq<u8>)>)
    requires
        0 <= i <= s.len(),
        cut_up(s, acc, i),
        clean_cut(s, i),
    ensures
        cut_up(s, pieces_from(s, i, acc), s.len() as int),
    decreases s.len() - i,
{
    if i < s.len() {
        let w = space_len(s, i);
        if w > 0 {
            assert forall|j: int| 0 <= j < i + w && !#[trigger] in_space(s, j) implies exists|
                k: int,
            | 0 <= k < acc.len() && (#[trigger] acc[k]).0 <= j < acc[k].0 + acc[k].1.len() by {
                assert(j < i);
            }
            lemma_pieces_from_cut_up(s, i + w, acc);
        } else {
            lemma_word_end_bounds(s, i);
            let e = piece_end(s, i);
            let piece = (i, s.subrange(i, e));
            let next = acc.push(piece);
            assert forall|j: int| i <= j < e implies space_len(s, j) == 0 by {}
            assert forall|j: int| i <= j < e implies !#[trigger] in_space(s, j) by {
                assert(space_len(s, j) == 0);
                if j - 1 >= i {
                    assert(space_len(s, j - 1) == 0);
                }
                if j - 2 >= i {
                    assert(space_len(s, j - 2) == 0);
                }
            }
            if s[i] == 45 && i + 1 < s.len() && s[i + 1] == 62 {
                assert(piece.1 =~= seq![45u8, 62u8]);
            }
            assert(is_stretch(s, piece));
            assert forall|k: int| 0 <= k < next.len() implies is_stretch(s, #[trigger] next[k])
                && next[k].0 + next[k].1.len() <= e by {}
            assert forall|k: int, m: int| 0 <= k < m < next.len() implies (#[trigger] next[k]).0
                + next[k].1.len() <= (#[trigger] next[m]).0 by {}
            assert forall|j: int| 0 <= j < e && !#[trigger] in_space(s, j) implies exists|k: int|
                0 <= k < next.len() && (#[trigger] next[k]).0 <= j < next[k].0 + next[k].1.len() by {
                if j < i {
                    let k = choose|k: int|
                        0 <= k < acc.len() && (#[trigger] acc[k]).0 <= j < acc[k].0 + acc[k].1.len();
                    assert(next[k] == acc[k]);
                } else {
                    assert(next[acc.len() as int] == piece);
                }
            }
            assert(space_len(s, e - 1) == 0);
            if e - 2 >= i {
                assert(space_len(s, e - 2) == 0);
            }
            lemma_pieces_from_cut_up(s, e, next);
        }
    }
}

/// The pieces of a line are the line with the white space left out: each
/// piece is the text that stands at its offset and holds no white space,
/// the pieces come in the order of the line, and between them lies nothing
/// but white space.
pub proof fn lemma_pieces_cut_up(s: Seq<u8>)
    ensures
        cut_up(s, pieces(s), s.len() as int),
{
    lemma_pieces_from_cut_up(s, 0, Seq::empty());
}

/// Whether the token `t` is made of the piece `p` in row `row` of the
/// file `file`: its text is the text of the piece, its column is the offset
/// of the piece, and its kind is the kind of that text.
pub open spec fn made_of(t: TokenView, p: (int, Seq<u8>), file: Seq<u8>, row: usize) -> bool {
    &&& t.text == p.1
    &&& t.loc == (LocView { row, col: p.0 as usize, file })
    &&& token_kind_of(p.1, t.loc) == Ok::<TokenKind, ParseErrorView>(t.kind)
}

proof fn lemma_tokens_from_pieces(
    ps: Seq<(int, Seq<u8>)>,
    file: Seq<u8>,
    row: usize,
    k: int,
    acc: Seq<TokenView>,
)
    requires
        0 <= k <= ps.len(),
        acc.len() == k,
        forall|m: int| 0 <= m < k ==> made_of(#[trigger] acc[m], ps[m], file, row),
    ensures
        tokens_from(ps, file, row, k, acc) matches Ok(toks) ==> toks.len() == ps.len() && forall|
            m: int,
        | 0 <= m < ps.len() ==> made_of(#[trigger] toks[m], ps[m], file, row),
    decreases ps.len() - k,
{
    if k < ps.len() {
        let loc = LocView { row, col: ps[k].0 as usize, file };
        match token_kind_of(ps[k].1, loc) {
            Ok(kind) => {
                let next = acc.push(TokenView { loc, kind, text: ps[k].1 });
                assert forall|m: int| 0 <= m < k + 1 implies made_of(
                    #[trigger] next[m],
                    ps[m],
                    file,
                    row,
                ) by {
                    if m < k {
                        assert(next[m] == acc[m]);
                    }
                }
                lemma_tokens_from_pieces(ps, file, row, k + 1, next);
            },
            Err(_) => {},
        }
    }
}

/// The tokens of a line are its pieces, one token for each piece and in
/// the same order: a token has the text of its piece, stands in the row of
/// the line at the column where the piece starts, and so holds the text
/// that stands there in the line, without white space.
pub proof fn lemma_line_tokens(line: Seq<u8>, file: Seq<u8>, row: usize)
    ensures
        cut_up(line, pieces(line), line.len() as int),
        line_tokens(line, file, row) matches Ok(toks) ==> toks.len() == pieces(line).len()
            && forall|m: int|
            0 <= m < toks.len() ==> made_of(#[trigger] toks[m], pieces(line)[m], file, row),
{
    lemma_pieces_cut_up(line);
    lemma_tokens_from_pieces(pieces(line), file, row, 0, Seq::empty());
}

/// The number of lines of `s` from offset `pos` on. A last line that is
/// empty does not count.
pub open spec fn line_count(s: Seq<u8>, pos: int) -> nat
    decreases s.len() - pos,
{
    if !(0 <= pos < s.len()) {
        0
    } else if pos <= line_end(s, pos) < s.len() {
        1 + line_count(s, line_end(s, pos) + 1)
    } else {
        1
    }
}

/// Whether every token of the rows `rows` stands in the file `file` and
/// in the row that holds it.
pub open spec fn rows_in_place(rows: Seq<Seq<TokenView>>, file: Seq<u8>) -> bool {
    forall|r: int, m: int|
        0 <= r < rows.len() && 0 <= m < rows[r].len() ==> (#[trigger] rows[r][m]).loc.row == r
            && rows[r][m].loc.file == file
}

proof fn lemma_line_end_bounds(s: Seq<u8>, i: int)
    requires
        0 <= i <= s.len(),
    ensures
        i <= line_end(s, i) <= s.len(),
    decreases s.len() - i,
{
    if i < s.len() && s[i] != 10 {
        lemma_line_end_bounds(s, i + 1);
    }
}

proof fn lemma_rows_from(
    content: Seq<u8>,
    file: Seq<u8>,
    pos: int,
    row: usize,
    acc: Seq<Seq<TokenView>>,
)
    requires
        0 <= pos <= content.len() <= usize::MAX,
        row <= pos,
        acc.len() == row,
        rows_in_place(acc, file),
    ensures
        rows_from(content, file, pos, row, acc) matches Ok(rows) ==> rows.len() == row
            + line_count(content, pos) && rows_in_place(rows, file),
    decreases content.len() - pos,
{
    if pos < content.len() {
        lemma_line_end_bounds(content, pos);
        let e = line_end(content, pos);
        let line = content.subrange(pos, e);
        lemma_line_tokens(line, file, row);
        match line_tokens(line, file, row) {
            Ok(toks) => {
                let next = acc.push(toks);
                assert forall|r: int, m: int| 0 <= r < next.len() && 0 <= m < next[r].len() implies (
                #[trigger] next[r][m]).loc.row == r && next[r][m].loc.file == file by {
                    if r < acc.len() {
                        assert(next[r] == acc[r]);
                    } else {
                        assert(next[r] == toks);
                        assert(made_of(toks[m], pieces(line)[m], file, row));
                    }
                }
                if e < content.len() {
                    lemma_rows_from(content, file, e + 1, (row + 1) as usize, next);
                }
            },
            Err(_) => {},
        }
    }
}

/// A file whose every piece is a token scans to one row for each of its
/// lines, an empty row for a line without tokens, and every token stands in
/// the row of its line.
pub proof fn lemma_file_tokens(content: Seq<u8>, file: Seq<u8>)
    requires
        content.len() <= usize::MAX,
    ensures
        file_tokens(content, file) matches Ok(rows) ==> rows.len() == line_count(content, 0)
            && rows_in_place(rows, file),
{
    lemma_rows_from(content, file, 0, 0, Seq::empty());
}

proof fn lemma_word_end_bounds(s: Seq<u8>, i: int)
    requires
        0 <= i <= s.len(),
    ensures
        i <= word_end(s, i) <= s.len(),
        forall|j: int|
            i <= j < word_end(s, i) ==> space_len(s, j) == 0 && !is_separator(#[trigger] s[j]),
        word_end(s, i) < s.len() ==> space_len(s, word_end(s, i)) > 0 || is_separator(
            s[word_end(s, i)],
        ),
    decreases s.len() - i,
{
    if i < s.len() && space_len(s, i) == 0 && !is_separator(s[i]) {
        lemma_word_end_bounds(s, i + 1);
    }
}

/// The length of the white-space character that starts at offset `i`, and
/// zero if none starts there.
fn space_at(s: &[u8], i: usize) -> (r: usize)
    requires
        i < s.len(),
    ensures
        r == space_len(s@, i as int),
        i + r <= s.len(),
{
    let a: u8 = s[i];
    if a == 32 || (9 <= a && a <= 13) {
        return 1;
    }
    if i + 1 < s.len() && a == 0xC2 && (s[i + 1] == 0x85 || s[i + 1] == 0xA0) {
        return 2;
    }
    if s.len() - i > 2 {
        let b: u8 = s[i + 1];
        let c: u8 = s[i + 2];
        if (a == 0xE1 && b == 0x9A && c == 0x80) || (a == 0xE2 && b == 0x80 && ((0x80 <= c && c
            <= 0x8A) || c == 0xA8 || c == 0xA9 || c == 0xAF)) || (a == 0xE2 && b == 0x81 && c
            == 0x9F) || (a == 0xE3 && b == 0x80 && c == 0x80) {
            return 3;
        }
    }
    0
}

fn is_separator_byte(b: u8) -> (r: bool)
    ensures
        r == is_separator(b),
{
    b == 59 || b == 61 || b == 42 || b == 47 || b == 45 || b == 43 || b == 40 || b == 41 || b
        == 123 || b == 125 || b == 44 || b == 62
}

fn scan_digits(s: &[u8], from: usize) -> (r: usize)
    requires
        from <= s.len(),
    ensures
        r == digits_end(s@, from as int),
        from <= r <= s.len(),
{
    let mut i: usize = from;
    while i < s.len() && s[i] >= 48 && s[i] <= 57
        invariant
            from <= i <= s.len(),
            digits_end(s@, from as int) == digits_end(s@, i as int),
        decreases s.len() - i,
    {
        i += 1;
    }
    i
}

fn has_float_form(s: &[u8]) -> (r: bool)
    ensures
        r == is_float_text(s@),
{
    let a: usize = scan_digits(s, 0);
    if a == 0 {
        return false;
    }
    let b: usize = if a < s.len() && s[a] == 46 {
        scan_digits(s, a + 1)
    } else {
        a
    };
    if b == s.len() {
        return true;
    }
    if s[b] != 101 && s[b] != 69 {
        return false;
    }
    let c: usize = if b + 1 < s.len() && (s[b + 1] == 43 || s[b + 1] == 45) {
        b + 2
    } else {
        b + 1
    };
    let d: usize = scan_digits(s, c);
    d > c && d == s.len()
}

fn is_float_keyword(s: &[u8]) -> (r: bool)
    ensures
        r == (s@ == float_keyword()),
{
    if s.len() == 3 && s[0] == 102 && s[1] == 54 && s[2] == 52 {
        assert(s@ =~= float_keyword());
        true
    } else {
        false
    }
}

/// The scanner of one source file.
pub struct Lexer {
    /// The row of the next line to scan.
    pub row: usize,
    /// The offset in `content` at which that line starts.
    pub pos: usize,
    pub content: Vec<u8>,
    pub file_path: FilePath,
    /// The tokens of the lines scanned so far.
    pub tokens: Tokens2D,
}

impl Lexer {
    /// The scanner's position is within its text, and no more rows have
    /// been counted than bytes passed.
    pub open spec fn wf(&self) -> bool {
        self.row <= self.pos <= self.content@.len()
    }

    /// A scanner at the start of `content`, the text of the file
    /// `file_path`.
    pub fn new(file_path: &str, content: &str) -> (r: Lexer)
        ensures
            r.wf(),
            r.row == 0,
            r.pos == 0,
            r.content@ == lit(content),
            r.file_path@ == lit(file_path),
            r.tokens@.len() == 0,
    {
        Lexer {
            row: 0,
            pos: 0,
            content: copy_bytes(content.as_bytes()),
            file_path: FilePath::new(file_path),
            tokens: Vec::new(),
        }
    }

    /// Cuts a line into pieces at white space and punctuation. Each piece
    /// comes with the offset in bytes at which it starts. White space is
    /// every character that Unicode calls so, in its UTF-8 form.
    pub fn split_whitespace_preserve_indices(input: &[u8]) -> (r: Vec<(usize, Vec<u8>)>)
        ensures
            pieces_view(r@) == pieces(input@),
    {
        let mut ret: Vec<(usize, Vec<u8>)> = Vec::new();
        let mut i: usize = 0;
        assert(pieces_view(ret@) =~= Seq::empty());
        while i < input.len()
            invariant
                i <= input.len(),
                pieces_from(input@, i as int, pieces_view(ret@)) == pieces(input@),
            decreases input.len() - i,
        {
            let b: u8 = input[i];
            let w: usize = space_at(input, i);
            if w > 0 {
                i += w;
            } else {
                let e: usize = if b == 45 && i + 1 < input.len() && input[i + 1] == 62 {
                    i + 2
                } else if is_separator_byte(b) {
                    i + 1
                } else {
                    let mut j: usize = i;
                    while j < input.len() && space_at(input, j) == 0 && !is_separator_byte(input[j])
                        invariant
                            i <= j <= input.len(),
                            word_end(input@, i as int) == word_end(input@, j as int),
                        decreases input.len() - j,
                    {
                        j += 1;
                    }
                    j
                };
                proof {
                    lemma_word_end_bounds(input@, i as int);
                }
                let ghost before = pieces_view(ret@);
                ret.push((i, copy_range(input, i, e)));
                assert(pieces_view(ret@) =~= before.push(
                    (i as int, input@.subrange(i as int, e as int)),
                ));
                i = e;
            }
        }
        ret
    }

    /// The kind of the token with the text `string`, found at `err_loc`.
    pub fn token_kind(string: &[u8], err_loc: &Loc) -> (r: Result<TokenKind, ParseError>)
        ensures
            match token_kind_of(string@, err_loc@) {
                Ok(kind) => r == Ok::<TokenKind, ParseError>(kind),
                Err(e) => r is Err && r->Err_0@ == e,
            },
    {
        if string.len() == 0 {
            return Err(
                ParseError::UnexpectedToken {
                    expected: Expected::Lexeme,
                    found: copy_bytes(string),
                    loc: err_loc.clone(),
                },
            );
        }
        let first: u8 = string[0];
        if string.len() == 2 && first == 45 && string[1] == 62 {
            assert(string@ =~= seq![45u8, 62u8]);
            return Ok(TokenKind::Arrow);
        }
        assert(string@ != seq![45u8, 62u8]);
        if first == 43 {
            Ok(TokenKind::Plus)
        } else if first == 61 {
            Ok(TokenKind::Equal)
        } else if first == 42 {
            Ok(TokenKind::Asterisk)
        } else if first == 40 {
            Ok(TokenKind::LParen)
        } else if first == 41 {
            Ok(TokenKind::RParen)
        } else if first == 45 {
            Ok(TokenKind::Minus)
        } else if first == 47 {
            Ok(TokenKind::Slash)
        } else if first == 59 {
            Ok(TokenKind::Semicolon)
        } else if first == 123 {
            Ok(TokenKind::LCurly)
        } else if first == 125 {
            Ok(TokenKind::RCurly)
        } else if first == 44 {
            Ok(TokenKind::Comma)
        } else if 48 <= first && first <= 57 {
            if parse_i64(string).is_some() {
                Ok(TokenKind::Int)
            } else if has_float_form(string) {
                Ok(TokenKind::Flt)
            } else {
                Err(
                    ParseError::MalformedNumericLiteral {
                        text: copy_bytes(string),
                        loc: err_loc.clone(),
                    },
                )
            }
        } else if (97 <= first && first <= 122) || (65 <= first && first <= 90) {
            if same_as(string, "i64") || is_float_keyword(string) {
                Ok(TokenKind::Type)
            } else if same_as(string, "fn") {
                Ok(TokenKind::Fn)
            } else {
                Ok(TokenKind::Lit)
            }
        } else {
            Err(
                ParseError::UnexpectedToken {
                    expected: Expected::Lexeme,
                    found: copy_bytes(string),
                    loc: err_loc.clone(),
                },
            )
        }
    }

    /// Scans `line` as the line at row `self.row` and adds its tokens as a
    /// new row. Nothing changes when a piece of the line is no token.
    pub fn lex_line(&mut self, line: &[u8]) -> (r: Result<(), ParseError>)
        ensures
            final(self).row == old(self).row,
            final(self).pos == old(self).pos,
            final(self).content == old(self).content,
            final(self).file_path == old(self).file_path,
            match line_tokens(line@, old(self).file_path@, old(self).row) {
                Ok(toks) => r is Ok && rows_view(final(self).tokens@) == rows_view(
                    old(self).tokens@,
                ).push(toks),
                Err(e) => r is Err && r->Err_0@ == e && final(self).tokens == old(self).tokens,
            },
    {
        let strs = Self::split_whitespace_preserve_indices(line);
        let mut tokens: Vec<Token> = Vec::new();
        let mut k: usize = 0;
        assert(views(tokens@) =~= Seq::empty());
        while k < strs.len()
            invariant
                k <= strs.len(),
                pieces_view(strs@) == pieces(line@),
                *self == *old(self),
                tokens_from(pieces(line@), self.file_path@, self.row, k as int, views(tokens@))
                    == line_tokens(line@, self.file_path@, self.row),
            decreases strs.len() - k,
        {
            let col: usize = strs[k].0;
            let loc = Loc { row: self.row, col, file_path: self.file_path.clone() };
            match Self::token_kind(strs[k].1.as_slice(), &loc) {
                Ok(kind) => {
                    let ghost before = views(tokens@);
                    let token = Token { kind, string: copy_bytes(strs[k].1.as_slice()), loc };
                    tokens.push(token);
                    assert(views(tokens@) =~= before.push(token@));
                },
                Err(e) => {
                    return Err(e);
                },
            }
            k += 1;
        }
        self.tokens.push(tokens);
        Ok(())
    }

    /// Scans every line that is left and adds one row of tokens for each,
    /// or stops at the first piece that is no token.
    pub fn lex(&mut self) -> (r: Result<(), ParseError>)
        requires
            old(self).wf(),
        ensures
            final(self).wf(),
            final(self).content == old(self).content,
            final(self).file_path == old(self).file_path,
            match rows_from(
                old(self).content@,
                old(self).file_path@,
                old(self).pos as int,
                old(self).row,
                rows_view(old(self).tokens@),
            ) {
                Ok(rows) => r is Ok && rows_view(final(self).tokens@) == rows,
                Err(e) => r is Err && r->Err_0@ == e,
            },
    {
        while self.pos < self.content.len()
            invariant
                self.content == old(self).content,
                self.file_path == old(self).file_path,
                self.wf(),
                rows_from(
                    self.content@,
                    self.file_path@,
                    self.pos as int,
                    self.row,
                    rows_view(self.tokens@),
                ) == rows_from(
                    old(self).content@,
                    old(self).file_path@,
                    old(self).pos as int,
                    old(self).row,
                    rows_view(old(self).tokens@),
                ),
            decreases self.content@.len() - self.pos,
        {
            let start: usize = self.pos;
            let mut e: usize = start;
            while e < self.content.len() && self.content[e] != 10
                invariant
                    start <= e <= self.content@.len(),
                    line_end(self.content@, start as int) == line_end(self.content@, e as int),
                decreases self.content@.len() - e,
            {
                e += 1;
            }
            let line = copy_range(self.content.as_slice(), start, e);
            match self.lex_line(line.as_slice()) {
                Ok(()) => {},
                Err(err) => {
                    return Err(err);
                },
            }
            if e < self.content.len() {
                self.pos = e + 1;
                self.row += 1;
            } else {
                self.pos = e;
            }
        }
        Ok(())
    }
}

} // verus!
