//! The tokenizer: classifies raw source text into a small token alphabet.
//!
//! A call to [`Tokenizer::tokenize`] skips whitespace and comments, then
//! consumes exactly one lexical unit: a keyword, an identifier, a numeric
//! literal (kept as its text, with at most one decimal point), or a single
//! symbol character. At end of input it returns [`Token::Eof`]. A numeric
//! run holding two decimal points is reported as an error value, never a
//! panic.
//!
//! The whole behaviour is pinned by the spec function [`tok_step`], a
//! mathematical tokenizer over the input's character sequence.

use vstd::prelude::*;

use crate::error::ParseError;

verus! {

// ------------------------------------------------------------------
// Character classification
// ------------------------------------------------------------------

/// What `char::is_whitespace` returns on a character beyond ASCII.
pub uninterp spec fn nonascii_whitespace(c: char) -> bool;

/// What `char::is_alphabetic` returns on a character beyond ASCII.
pub uninterp spec fn nonascii_alphabetic(c: char) -> bool;

/// What `char::is_numeric` returns on a character beyond ASCII.
pub uninterp spec fn nonascii_numeric(c: char) -> bool;

/// Whether `c` is whitespace: inside ASCII the characters with the
/// `White_Space` property are U+0009 to U+000D and the space U+0020.
pub open spec fn is_ws_char(c: char) -> bool {
    if (c as u32) < 128 {
        c as u32 == 32 || (9 <= c as u32 && c as u32 <= 13)
    } else {
        nonascii_whitespace(c)
    }
}

/// Whether `c` is alphabetic: inside ASCII the characters with the
/// `Alphabetic` property are the letters `A` to `Z` and `a` to `z`.
pub open spec fn is_alpha_char(c: char) -> bool {
    if (c as u32) < 128 {
        (65 <= c as u32 && c as u32 <= 90) || (97 <= c as u32 && c as u32 <= 122)
    } else {
        nonascii_alphabetic(c)
    }
}

/// Whether `c` is numeric: inside ASCII the characters in the `Nd`, `Nl`,
/// `No` general categories are the digits `0` to `9`.
pub open spec fn is_digit_char(c: char) -> bool {
    if (c as u32) < 128 {
        48 <= c as u32 && c as u32 <= 57
    } else {
        nonascii_numeric(c)
    }
}

/// Whether `c` is alphanumeric, that is alphabetic or numeric.
pub open spec fn is_alnum_char(c: char) -> bool {
    is_alpha_char(c) || is_digit_char(c)
}

/// Relies on `char::is_whitespace`: true exactly for characters with the
/// Unicode `White_Space` property, whose ASCII members are U+0009..U+000D
/// and U+0020.
#[verifier::external_body]
fn ws_char(c: char) -> (r: bool)
    ensures
        r == is_ws_char(c),
        (c as u32) >= 128 ==> r == nonascii_whitespace(c),
{
    c.is_whitespace()
}

/// Relies on `char::is_alphabetic`: true exactly for characters with the
/// Unicode `Alphabetic` property, whose ASCII members are the letters.
#[verifier::external_body]
fn alpha_char(c: char) -> (r: bool)
    ensures
        r == is_alpha_char(c),
        (c as u32) >= 128 ==> r == nonascii_alphabetic(c),
{
    c.is_alphabetic()
}

/// Relies on `char::is_numeric`: true exactly for characters in the Unicode
/// `Nd`, `Nl` and `No` general categories, whose ASCII members are the digits.
#[verifier::external_body]
fn digit_char(c: char) -> (r: bool)
    ensures
        r == is_digit_char(c),
        (c as u32) >= 128 ==> r == nonascii_numeric(c),
{
    c.is_numeric()
}

/// Relies on `char::is_alphanumeric`, documented as true exactly when
/// `is_alphabetic` or `is_numeric` is.
#[verifier::external_body]
fn alnum_char(c: char) -> (r: bool)
    ensures
        r == is_alnum_char(c),
{
    c.is_alphanumeric()
}

// ------------------------------------------------------------------
// Tokens
// ------------------------------------------------------------------

/// The mathematical form of a token: what a [`Token`] holds, over `Seq<char>`.
pub enum Tok {
    /// End of input.
    Eof,
    /// The reserved word `def`.
    Def,
    /// The reserved word that declares an external prototype.
    Extern,
    /// An identifier: a maximal alphanumeric run starting with a letter.
    Ident(Seq<char>),
    /// A numeric literal, kept as its text: digits and at most one `.`.
    Num(Seq<char>),
    /// A single symbol character: not alphanumeric, not whitespace, not `#`.
    Sym(char),
}

/// One lexical unit of source text.
#[derive(Debug, Clone, PartialEq)]
pub enum Token {
    /// End of input.
    Eof,
    /// The reserved word `def`.
    Def,
    /// The reserved word that declares an external prototype.
    Extern,
    /// An identifier.
    Identifier(String),
    /// A numeric literal, kept as its text so that no panic can arise from
    /// conversion; the text holds digits and at most one decimal point.
    Number(String),
    /// A single symbol character.
    Other(char),
}

impl View for Token {
    type V = Tok;

    open spec fn view(&self) -> Tok {
        match self {
            Token::Eof => Tok::Eof,
            Token::Def => Tok::Def,
            Token::Extern => Tok::Extern,
            Token::Identifier(s) => Tok::Ident(s@),
            Token::Number(s) => Tok::Num(s@),
            Token::Other(c) => Tok::Sym(*c),
        }
    }
}

impl Token {
    /// An equal token, rebuilt field by field.
    pub fn duplicate(&self) -> (r: Token)
        ensures
            r == *self,
    {
        match self {
            Token::Eof => Token::Eof,
            Token::Def => Token::Def,
            Token::Extern => Token::Extern,
            Token::Identifier(s) => Token::Identifier(s.clone()),
            Token::Number(s) => Token::Number(s.clone()),
            Token::Other(c) => Token::Other(*c),
        }
    }
}

// ------------------------------------------------------------------
// The mathematical tokenizer
// ------------------------------------------------------------------

/// The end of the maximal alphanumeric run beginning at `i`.
pub open spec fn word_end(s: Seq<char>, i: int) -> int
    recommends
        0 <= i <= s.len(),
    decreases s.len() - i,
{
    if 0 <= i < s.len() && is_alnum_char(s[i]) {
        word_end(s, i + 1)
    } else {
        i
    }
}

/// Which token an alphanumeric run makes: a reserved word or an identifier.
pub open spec fn classify_word(w: Seq<char>) -> Tok {
    if w == "def"@ {
        Tok::Def
    } else if w == "extern"@ {
        Tok::Extern
    } else {
        Tok::Ident(w)
    }
}

/// The scan of a numeric run from `i`: digits and dots are consumed, and a
/// second dot is a malformed literal. `seen_dot` says whether a dot was
/// already consumed. On success, the position after the run.
pub open spec fn num_scan(s: Seq<char>, i: int, seen_dot: bool) -> Result<int, ParseError>
    recommends
        0 <= i <= s.len(),
    decreases s.len() - i,
{
    if !(0 <= i < s.len()) {
        Ok(i)
    } else if s[i] == '.' {
        if seen_dot {
            Err(ParseError::MalformedNumber)
        } else {
            num_scan(s, i + 1, true)
        }
    } else if is_digit_char(s[i]) {
        num_scan(s, i + 1, seen_dot)
    } else {
        Ok(i)
    }
}

/// The next token of `s` from position `i`, with the position after it:
/// whitespace is skipped, a `#` comment is skipped to its line break, a
/// letter starts a word, a digit starts a numeric literal, any other
/// character is a symbol of its own, and the end of the input is `Eof`.
pub open spec fn tok_step(s: Seq<char>, i: int) -> Result<(Tok, int), ParseError>
    recommends
        0 <= i <= s.len(),
    decreases s.len() - i, 0int,
{
    if !(0 <= i < s.len()) {
        Ok((Tok::Eof, i))
    } else {
        let c = s[i];
        if is_ws_char(c) {
            tok_step(s, i + 1)
        } else if is_alpha_char(c) {
            Ok((classify_word(s.subrange(i, word_end(s, i))), word_end(s, i)))
        } else if is_digit_char(c) {
            match num_scan(s, i, false) {
                Ok(j) => Ok((Tok::Num(s.subrange(i, j)), j)),
                Err(e) => Err(e),
            }
        } else if c == '#' {
            skip_comment(s, i + 1)
        } else {
            Ok((Tok::Sym(c), i + 1))
        }
    }
}

/// The rest of [`tok_step`] inside a comment: characters are skipped until a
/// line break, which the tokenizer then treats as ordinary whitespace.
pub open spec fn skip_comment(s: Seq<char>, i: int) -> Result<(Tok, int), ParseError>
    recommends
        0 <= i <= s.len(),
    decreases s.len() - i, 1int,
{
    if !(0 <= i < s.len()) {
        Ok((Tok::Eof, i))
    } else if s[i] == '\r' || s[i] == '\n' {
        tok_step(s, i)
    } else {
        skip_comment(s, i + 1)
    }
}

/// Where the next lexical unit begins: the first position at or after `i`
/// that holds neither whitespace nor a comment, or the end of the input.
pub open spec fn scan_start(s: Seq<char>, i: int) -> int
    recommends
        0 <= i <= s.len(),
    decreases s.len() - i, 0int,
{
    if !(0 <= i < s.len()) {
        i
    } else if is_ws_char(s[i]) {
        scan_start(s, i + 1)
    } else if s[i] == '#' {
        comment_scan_start(s, i + 1)
    } else {
        i
    }
}

/// The rest of [`scan_start`] inside a comment.
pub open spec fn comment_scan_start(s: Seq<char>, i: int) -> int
    recommends
        0 <= i <= s.len(),
    decreases s.len() - i, 1int,
{
    if !(0 <= i < s.len()) {
        i
    } else if s[i] == '\r' || s[i] == '\n' {
        scan_start(s, i)
    } else {
        comment_scan_start(s, i + 1)
    }
}

// ------------------------------------------------------------------
// Blank input
// ------------------------------------------------------------------

/// Whether the input from `i` on is nothing but whitespace and comments.
pub open spec fn blank_from(s: Seq<char>, i: int) -> bool
    recommends
        0 <= i <= s.len(),
    decreases s.len() - i, 0int,
{
    if !(0 <= i < s.len()) {
        true
    } else if is_ws_char(s[i]) {
        blank_from(s, i + 1)
    } else if s[i] == '#' {
        comment_blank(s, i + 1)
    } else {
        false
    }
}

/// The rest of [`blank_from`] inside a comment.
pub open spec fn comment_blank(s: Seq<char>, i: int) -> bool
    recommends
        0 <= i <= s.len(),
    decreases s.len() - i, 1int,
{
    if !(0 <= i < s.len()) {
        true
    } else if s[i] == '\r' || s[i] == '\n' {
        blank_from(s, i)
    } else {
        comment_blank(s, i + 1)
    }
}

/// Whether a whole input consists solely of whitespace and comments.
pub open spec fn blank_input(s: Seq<char>) -> bool {
    blank_from(s, 0)
}

/// On an input consisting solely of whitespace and comments, tokenization
/// from any position yields exactly end-of-input, and no other token.
pub proof fn lemma_blank_tokenizes_to_eof(s: Seq<char>, i: int)
    requires
        0 <= i <= s.len(),
        blank_from(s, i),
    ensures
        tok_step(s, i) == Ok::<(Tok, int), ParseError>((Tok::Eof, s.len() as int)),
    decreases s.len() - i, 0int,
{
    if i < s.len() {
        if is_ws_char(s[i]) {
            lemma_blank_tokenizes_to_eof(s, i + 1);
        } else {
            lemma_comment_blank_tokenizes_to_eof(s, i + 1);
        }
    }
}

/// The companion of [`lemma_blank_tokenizes_to_eof`] inside a comment.
pub proof fn lemma_comment_blank_tokenizes_to_eof(s: Seq<char>, i: int)
    requires
        0 <= i <= s.len(),
        comment_blank(s, i),
    ensures
        skip_comment(s, i) == Ok::<(Tok, int), ParseError>((Tok::Eof, s.len() as int)),
    decreases s.len() - i, 1int,
{
    if i < s.len() {
        if s[i] == '\r' || s[i] == '\n' {
            lemma_blank_tokenizes_to_eof(s, i);
        } else {
            lemma_comment_blank_tokenizes_to_eof(s, i + 1);
        }
    }
}

// ------------------------------------------------------------------
// The executable tokenizer
// ------------------------------------------------------------------

/// A cursor over the source text; each call to [`Tokenizer::tokenize`]
/// consumes zero or more whitespace and comment characters and then exactly
/// one lexical unit.
#[derive(Debug, Clone)]
pub struct Tokenizer {
    input: String,
    pos: usize,
}

impl Tokenizer {
    /// The source text, as a character sequence.
    pub closed spec fn src(self) -> Seq<char> {
        self.input@
    }

    /// The cursor: how many characters are consumed.
    pub closed spec fn at(self) -> int {
        self.pos as int
    }

    /// The cursor stands inside the input.
    pub open spec fn wf(self) -> bool {
        0 <= self.at() <= self.src().len()
    }

    /// How many characters are consumed so far: where the last token ended,
    /// and after a malformed literal, where that literal begins.
    pub fn position(&self) -> (r: usize)
        ensures
            r as int == self.at(),
    {
        self.pos
    }

    /// A tokenizer over `string`, at its start. The text is copied; the
    /// caller keeps ownership of its buffer.
    pub fn new(string: &str) -> (t: Tokenizer)
        ensures
            t.wf(),
            t.src() == string@,
            t.at() == 0,
    {
        Tokenizer { input: String::from_str(string), pos: 0 }
    }

    /// The next token, advancing the cursor: exactly [`tok_step`] on the
    /// source from the old position. On a malformed literal the cursor
    /// stands at the literal's first character.
    #[verifier::loop_isolation(false)]
    pub fn tokenize(&mut self) -> (r: Result<Token, ParseError>)
        requires
            old(self).wf(),
        ensures
            final(self).wf(),
            final(self).src() == old(self).src(),
            match r {
                Ok(t) => tok_step(old(self).src(), old(self).at()) == Ok::<(Tok, int),
                    ParseError>((t@, final(self).at())),
                Err(e) => tok_step(old(self).src(), old(self).at()) == Err::<(Tok, int),
                    ParseError>(e) && final(self).at() == scan_start(
                    old(self).src(),
                    old(self).at(),
                ),
            },
    {
        let ghost s = self.src();
        let ghost i0 = self.at();
        let n = self.input.as_str().unicode_len();
        loop
            invariant
                self.wf(),
                self.src() == s,
                n == s.len(),
                tok_step(s, self.at()) == tok_step(s, i0),
                scan_start(s, self.at()) == scan_start(s, i0),
            decreases n - self.at(),
        {
            if self.pos == n {
                return Ok(Token::Eof);
            }
            let ghost p_iter = self.at();
            let c = self.input.as_str().get_char(self.pos);
            if ws_char(c) {
                self.pos = self.pos + 1;
            } else if alpha_char(c) {
                let start = self.pos;
                let mut p = self.pos;
                loop
                    invariant
                        start <= p <= n,
                        n == s.len(),
                        self.wf(),
                        self.src() == s,
                        word_end(s, start as int) == word_end(s, p as int),
                    decreases n - p,
                {
                    if p == n {
                        break;
                    }
                    let d = self.input.as_str().get_char(p);
                    if alnum_char(d) {
                        p = p + 1;
                    } else {
                        break;
                    }
                }
                let word = self.input.as_str().substring_char(start, p).to_owned();
                self.pos = p;
                if word == String::from_str("def") {
                    return Ok(Token::Def);
                } else if word == String::from_str("extern") {
                    return Ok(Token::Extern);
                } else {
                    return Ok(Token::Identifier(word));
                }
            } else if digit_char(c) {
                let start = self.pos;
                let mut p = self.pos;
                let mut seen_dot = false;
                loop
                    invariant
                        start <= p <= n,
                        n == s.len(),
                        self.wf(),
                        self.src() == s,
                        num_scan(s, start as int, false) == num_scan(s, p as int, seen_dot),
                    decreases n - p,
                {
                    if p == n {
                        break;
                    }
                    let d = self.input.as_str().get_char(p);
                    if d == '.' {
                        if seen_dot {
                            return Err(ParseError::MalformedNumber);
                        }
                        seen_dot = true;
                        p = p + 1;
                    } else if digit_char(d) {
                        p = p + 1;
                    } else {
                        break;
                    }
                }
                let text = self.input.as_str().substring_char(start, p).to_owned();
                self.pos = p;
                return Ok(Token::Number(text));
            } else if c == '#' {
                self.pos = self.pos + 1;
                loop
                    invariant
                        self.wf(),
                        self.src() == s,
                        n == s.len(),
                        p_iter < self.at(),
                        skip_comment(s, self.at()) == tok_step(s, i0),
                        comment_scan_start(s, self.at()) == scan_start(s, i0),
                    decreases n - self.at(),
                {
                    if self.pos == n {
                        return Ok(Token::Eof);
                    }
                    let cc = self.input.as_str().get_char(self.pos);
                    if cc == '\r' || cc == '\n' {
                        break;
                    }
                    self.pos = self.pos + 1;
                }
            } else {
                self.pos = self.pos + 1;
                return Ok(Token::Other(c));
            }
        }
    }
}

} // verus!
