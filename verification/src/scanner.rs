use vstd::prelude::*;

use crate::error::ErrorV;
use crate::error_reporter::ErrorReporter;
use crate::error_stage::ErrorStage;
use crate::text::is_digit_char;
use crate::token::{Token, TokenV};
use crate::token_type::TokenType;
use vstd::string::StrSliceExecFns;

verus! {

/// Names what `char::is_alphanumeric` returns: membership in the Unicode
/// Alphabetic and Number categories, a function of the character alone.
pub uninterp spec fn unicode_alphanumeric(c: char) -> bool;

/// Relies on `char::is_alphanumeric` from std: a character test that
/// depends on the character alone, named by `unicode_alphanumeric`.
#[verifier::external_body]
fn is_alphanumeric_char(c: char) -> (r: bool)
    ensures
        r == unicode_alphanumeric(c),
{
    c.is_alphanumeric()
}

/// Whether a character may begin an identifier: an ASCII letter or `_`.
pub open spec fn is_ident_start(c: char) -> bool {
    ('a' as u32 <= c as u32 && c as u32 <= 'z' as u32) || ('A' as u32 <= c as u32 && c as u32
        <= 'Z' as u32) || c == '_'
}

/// Whether a character may continue an identifier.
pub open spec fn is_ident_part(c: char) -> bool {
    unicode_alphanumeric(c) || c == '_'
}

/// The first position at or after `i` that ends a line comment: the next
/// newline, or the end of the input.  The newline itself is not consumed.
pub open spec fn comment_end(s: Seq<char>, i: int) -> int
    decreases s.len() - i,
{
    if i < 0 || i >= s.len() {
        s.len() as int
    } else if s[i] == '\n' {
        i
    } else {
        comment_end(s, i + 1)
    }
}

/// The first position at or after `i` holding no decimal digit.
pub open spec fn digit_run_end(s: Seq<char>, i: int) -> int
    decreases s.len() - i,
{
    if i < 0 || i >= s.len() {
        s.len() as int
    } else if is_digit_char(s[i]) {
        digit_run_end(s, i + 1)
    } else {
        i
    }
}

/// The first position at or after `i` that cannot continue an identifier.
pub open spec fn ident_end(s: Seq<char>, i: int) -> int
    decreases s.len() - i,
{
    if i < 0 || i >= s.len() {
        s.len() as int
    } else if is_ident_part(s[i]) {
        ident_end(s, i + 1)
    } else {
        i
    }
}

/// The end of a number lexeme whose first character stands at `pos`:
/// a run of digits, then optionally a point followed by at least one
/// digit and the digits after it.
pub open spec fn number_end(s: Seq<char>, pos: int) -> int {
    let a = if pos + 1 < s.len() && s[pos + 1] == '.' {
        pos + 1
    } else {
        digit_run_end(s, pos + 1)
    };
    if a < s.len() && s[a] == '.' && a + 1 < s.len() && is_digit_char(s[a + 1]) {
        digit_run_end(s, a + 2)
    } else {
        a
    }
}

/// Where a string literal's body ends.  `pos` is the final position the
/// cursor reaches (the closing quote, or the end of the input when the
/// string is unterminated), `line` counts the newlines passed, and
/// `terminated` tells the two ends apart.  A doubled quote stays inside
/// the body.
#[verifier::ext_equal]
pub ghost struct StrScan {
    pub pos: int,
    pub line: int,
    pub terminated: bool,
}

pub open spec fn string_body(s: Seq<char>, i: int, line: int) -> StrScan
    decreases s.len() - i,
{
    if i < 0 || i >= s.len() {
        StrScan { pos: if i < 0 { s.len() as int } else { i }, line, terminated: false }
    } else if s[i] == '"' {
        if i + 1 < s.len() && s[i + 1] == '"' {
            string_body(s, i + 2, line)
        } else {
            StrScan { pos: i, line, terminated: true }
        }
    } else if s[i] == '\n' {
        string_body(s, i + 1, line + 1)
    } else {
        string_body(s, i + 1, line)
    }
}

/// The token kind of an identifier lexeme: a keyword's kind where the
/// lexeme matches the fixed, case-sensitive keyword table, else
/// `Identifier`.
pub open spec fn keyword_kind(lex: Seq<char>) -> TokenType {
    if lex == "and"@ {
        TokenType::And
    } else if lex == "class"@ {
        TokenType::Class
    } else if lex == "else"@ {
        TokenType::Else
    } else if lex == "false"@ {
        TokenType::False
    } else if lex == "for"@ {
        TokenType::For
    } else if lex == "fun"@ {
        TokenType::Fun
    } else if lex == "if"@ {
        TokenType::If
    } else if lex == "null"@ {
        TokenType::Null
    } else if lex == "not"@ {
        TokenType::Not
    } else if lex == "or"@ {
        TokenType::Or
    } else if lex == "print"@ {
        TokenType::Print
    } else if lex == "return"@ {
        TokenType::Return
    } else if lex == "super"@ {
        TokenType::Super
    } else if lex == "this"@ {
        TokenType::This
    } else if lex == "true"@ {
        TokenType::True
    } else if lex == "var"@ {
        TokenType::Var
    } else if lex == "while"@ {
        TokenType::While
    } else {
        TokenType::Identifier
    }
}

/// A token with the given kind, scanned from `s` between `from` and `to`,
/// carrying line `line`.
pub open spec fn tok(s: Seq<char>, kind: TokenType, from: int, to: int, line: int) -> TokenV {
    TokenV { kind, lexeme: s.subrange(from, to), line }
}

/// A compile diagnostic with an empty location.
pub open spec fn scan_error(line: int, message: Seq<char>) -> ErrorV {
    ErrorV { line, location: Seq::empty(), message, stage: ErrorStage::Compile }
}

/// What one scanning step starting at `pos` produces: zero or one token,
/// zero or one diagnostic, and the cursor and line counter after it.
#[verifier::ext_equal]
pub ghost struct ScanStep {
    pub toks: Seq<TokenV>,
    pub errs: Seq<ErrorV>,
    pub pos: int,
    pub line: int,
}

/// One token and no diagnostic.
pub open spec fn step_tok(t: TokenV, pos: int, line: int) -> ScanStep {
    ScanStep { toks: seq![t], errs: Seq::empty(), pos, line }
}

/// No token and no diagnostic.
pub open spec fn step_skip(pos: int, line: int) -> ScanStep {
    ScanStep { toks: Seq::empty(), errs: Seq::empty(), pos, line }
}

/// No token, one diagnostic.
pub open spec fn step_err(e: ErrorV, pos: int, line: int) -> ScanStep {
    ScanStep { toks: Seq::empty(), errs: seq![e], pos, line }
}

/// One scanning step of the lexical grammar, at position `pos` on line
/// `line`, for `0 <= pos < s.len()`.
pub open spec fn scan_step(s: Seq<char>, pos: int, line: int) -> ScanStep {
    let c = s[pos];
    if c == '(' {
        step_tok(tok(s, TokenType::LeftParen, pos, pos + 1, line), pos + 1, line)
    } else if c == ')' {
        step_tok(tok(s, TokenType::RightParen, pos, pos + 1, line), pos + 1, line)
    } else if c == '{' {
        step_tok(tok(s, TokenType::LeftBrace, pos, pos + 1, line), pos + 1, line)
    } else if c == '}' {
        step_tok(tok(s, TokenType::RightBrace, pos, pos + 1, line), pos + 1, line)
    } else if c == ',' {
        step_tok(tok(s, TokenType::Comma, pos, pos + 1, line), pos + 1, line)
    } else if c == '-' {
        step_tok(tok(s, TokenType::Minus, pos, pos + 1, line), pos + 1, line)
    } else if c == '+' {
        step_tok(tok(s, TokenType::Plus, pos, pos + 1, line), pos + 1, line)
    } else if c == ';' {
        step_tok(tok(s, TokenType::SemiColon, pos, pos + 1, line), pos + 1, line)
    } else if c == '*' {
        step_tok(tok(s, TokenType::Star, pos, pos + 1, line), pos + 1, line)
    } else if c == '=' {
        if pos + 1 < s.len() && s[pos + 1] == '=' {
            step_tok(tok(s, TokenType::EqualEqual, pos, pos + 2, line), pos + 2, line)
        } else {
            step_tok(tok(s, TokenType::Equal, pos, pos + 1, line), pos + 1, line)
        }
    } else if c == '<' {
        if pos + 1 < s.len() && s[pos + 1] == '=' {
            step_tok(tok(s, TokenType::LessEqual, pos, pos + 2, line), pos + 2, line)
        } else {
            step_tok(tok(s, TokenType::Less, pos, pos + 1, line), pos + 1, line)
        }
    } else if c == '>' {
        if pos + 1 < s.len() && s[pos + 1] == '=' {
            step_tok(tok(s, TokenType::GreaterEqual, pos, pos + 2, line), pos + 2, line)
        } else {
            step_tok(tok(s, TokenType::Greater, pos, pos + 1, line), pos + 1, line)
        }
    } else if c == '/' {
        if pos + 1 < s.len() && s[pos + 1] == '/' {
            step_skip(comment_end(s, pos + 2), line)
        } else {
            step_tok(tok(s, TokenType::Slash, pos, pos + 1, line), pos + 1, line)
        }
    } else if c == '"' {
        let b = string_body(s, pos + 1, line);
        if b.terminated {
            step_tok(tok(s, TokenType::String, pos, b.pos + 1, b.line), b.pos + 1, b.line)
        } else {
            step_err(scan_error(line, "Unterminated string."@), b.pos, b.line)
        }
    } else if is_digit_char(c) {
        let e = number_end(s, pos);
        step_tok(tok(s, TokenType::Number, pos, e, line), e, line)
    } else if c == '.' {
        if pos + 1 < s.len() && is_digit_char(s[pos + 1]) {
            let e = number_end(s, pos);
            step_tok(tok(s, TokenType::Number, pos, e, line), e, line)
        } else {
            step_tok(tok(s, TokenType::Dot, pos, pos + 1, line), pos + 1, line)
        }
    } else if c == '!' {
        if pos + 1 < s.len() && s[pos + 1] == '=' {
            step_tok(tok(s, TokenType::BangEqual, pos, pos + 2, line), pos + 2, line)
        } else {
            step_err(scan_error(line, "Unexpected character: "@ + seq![c]), pos + 1, line)
        }
    } else if is_ident_start(c) {
        let e = ident_end(s, pos + 1);
        step_tok(tok(s, keyword_kind(s.subrange(pos, e)), pos, e, line), e, line)
    } else if c == ' ' || c == '\r' || c == '\t' {
        step_skip(pos + 1, line)
    } else if c == '\n' {
        step_skip(pos + 1, line + 1)
    } else {
        step_err(scan_error(line, "Unexpected character: "@ + seq![c]), pos + 1, line)
    }
}

/// What scanning the rest of `s` from `pos` on line `line` produces:
/// steps until the input ends, then one `EOF` token carrying the final
/// line number.
#[verifier::ext_equal]
pub ghost struct ScanOut {
    pub toks: Seq<TokenV>,
    pub errs: Seq<ErrorV>,
}

pub open spec fn scan_spec(s: Seq<char>, pos: int, line: int) -> ScanOut
    decreases s.len() - pos,
{
    if pos < 0 || pos >= s.len() {
        ScanOut {
            toks: seq![TokenV { kind: TokenType::EOF, lexeme: Seq::empty(), line }],
            errs: Seq::empty(),
        }
    } else {
        let st = scan_step(s, pos, line);
        let np = if pos < st.pos <= s.len() {
            st.pos
        } else {
            s.len() as int
        };
        let rest = scan_spec(s, np, st.line);
        ScanOut { toks: st.toks + rest.toks, errs: st.errs + rest.errs }
    }
}

/// Helper-by-helper progress bounds for the scanning step.
pub proof fn lemma_comment_end(s: Seq<char>, i: int)
    requires
        0 <= i <= s.len(),
    ensures
        i <= comment_end(s, i) <= s.len(),
    decreases s.len() - i,
{
    if i < s.len() && s[i] != '\n' {
        lemma_comment_end(s, i + 1);
    }
}

pub proof fn lemma_digit_run_end(s: Seq<char>, i: int)
    requires
        0 <= i <= s.len(),
    ensures
        i <= digit_run_end(s, i) <= s.len(),
    decreases s.len() - i,
{
    if i < s.len() && is_digit_char(s[i]) {
        lemma_digit_run_end(s, i + 1);
    }
}

pub proof fn lemma_ident_end(s: Seq<char>, i: int)
    requires
        0 <= i <= s.len(),
    ensures
        i <= ident_end(s, i) <= s.len(),
    decreases s.len() - i,
{
    if i < s.len() && is_ident_part(s[i]) {
        lemma_ident_end(s, i + 1);
    }
}

pub proof fn lemma_string_body(s: Seq<char>, i: int, line: int)
    requires
        0 <= i <= s.len(),
    ensures
        i <= string_body(s, i, line).pos <= s.len(),
        string_body(s, i, line).line >= line,
        string_body(s, i, line).line - line <= string_body(s, i, line).pos - i,
        string_body(s, i, line).terminated ==> string_body(s, i, line).pos < s.len(),
    decreases s.len() - i,
{
    if i < s.len() {
        if s[i] == '"' {
            if i + 1 < s.len() && s[i + 1] == '"' {
                lemma_string_body(s, i + 2, line);
            }
        } else if s[i] == '\n' {
            lemma_string_body(s, i + 1, line + 1);
        } else {
            lemma_string_body(s, i + 1, line);
        }
    }
}

/// A scan always produces at least one token, and its last token is the
/// `EOF` sentinel, so the parser's input is always well formed.
pub proof fn lemma_scan_spec_ends_eof(s: Seq<char>, pos: int, line: int)
    ensures
        scan_spec(s, pos, line).toks.len() >= 1,
        scan_spec(s, pos, line).toks.last().kind == TokenType::EOF,
    decreases s.len() - pos,
{
    if !(pos < 0 || pos >= s.len()) {
        let st = scan_step(s, pos, line);
        let np = if pos < st.pos <= s.len() {
            st.pos
        } else {
            s.len() as int
        };
        lemma_scan_spec_ends_eof(s, np, st.line);
    }
}

/// Every scanning step moves the cursor strictly forward and never past
/// the end, and advances the line counter by at most the distance moved.
pub proof fn lemma_scan_step_progress(s: Seq<char>, pos: int, line: int)
    requires
        0 <= pos < s.len(),
    ensures
        pos < scan_step(s, pos, line).pos <= s.len(),
        line <= scan_step(s, pos, line).line,
        scan_step(s, pos, line).line - line <= scan_step(s, pos, line).pos - pos,
{
    let c = s[pos];
    if c == '/' && pos + 1 < s.len() && s[pos + 1] == '/' {
        lemma_comment_end(s, pos + 2);
    } else if c == '"' {
        lemma_string_body(s, pos + 1, line);
    } else if is_digit_char(c) || (c == '.' && pos + 1 < s.len() && is_digit_char(s[pos + 1])) {
        lemma_digit_run_end(s, pos + 1);
        let a = if pos + 1 < s.len() && s[pos + 1] == '.' {
            pos + 1
        } else {
            digit_run_end(s, pos + 1)
        };
        if a < s.len() && s[a] == '.' && a + 1 < s.len() && is_digit_char(s[a + 1]) {
            lemma_digit_run_end(s, a + 2);
        }
    } else if is_ident_start(c) {
        lemma_ident_end(s, pos + 1);
    }
}

/// Converts raw source text into a sequence of tokens in a single
/// left-to-right pass, reporting lexical diagnostics as it goes.
pub struct Scanner {
    pub source: String,
    pub tokens: Vec<Token>,
    pub start: usize,
    pub current: usize,
    pub line: i64,
}

/// The scanner's cursor invariant: the cursor is inside the source, the
/// line counter is at least one, and enough room remains below `i64::MAX`
/// that one line increment per remaining character cannot overflow.
pub open spec fn scanner_wf(s: Scanner) -> bool {
    &&& s.current <= s.source@.len()
    &&& s.source@.len() <= usize::MAX
    &&& 1 <= s.line
    &&& s.line + (s.source@.len() - s.current) < 0x7fff_ffff_ffff_ffff
}

/// How one call of `scan_token` changes the scanner and the reporter:
/// exactly as one `scan_step` of the lexical grammar says.
pub open spec fn scan_token_rel(
    pre: Scanner,
    post: Scanner,
    errs_pre: Seq<ErrorV>,
    errs_post: Seq<ErrorV>,
) -> bool {
    let st = scan_step(pre.source@, pre.current as int, pre.line as int);
    &&& post.tokens.deep_view() == pre.tokens.deep_view() + st.toks
    &&& errs_post == errs_pre + st.errs
    &&& post.current as int == st.pos
    &&& post.line as int == st.line
    &&& post.source == pre.source
}

/// Whether a character is an ASCII decimal digit.
fn is_digit_exec(c: char) -> (r: bool)
    ensures
        r == is_digit_char(c),
{
    let v = c as u32;
    v >= 48 && v <= 57
}

/// Whether a character may begin an identifier.
fn is_ident_start_exec(c: char) -> (r: bool)
    ensures
        r == is_ident_start(c),
{
    let v = c as u32;
    (v >= 97 && v <= 122) || (v >= 65 && v <= 90) || c == '_'
}

/// The kind of an identifier lexeme, resolved against the keyword table.
fn keyword_type(text: &str) -> (r: TokenType)
    ensures
        r == keyword_kind(text@),
{
    if crate::text::str_eq(text, "and") {
        TokenType::And
    } else if crate::text::str_eq(text, "class") {
        TokenType::Class
    } else if crate::text::str_eq(text, "else") {
        TokenType::Else
    } else if crate::text::str_eq(text, "false") {
        TokenType::False
    } else if crate::text::str_eq(text, "for") {
        TokenType::For
    } else if crate::text::str_eq(text, "fun") {
        TokenType::Fun
    } else if crate::text::str_eq(text, "if") {
        TokenType::If
    } else if crate::text::str_eq(text, "null") {
        TokenType::Null
    } else if crate::text::str_eq(text, "not") {
        TokenType::Not
    } else if crate::text::str_eq(text, "or") {
        TokenType::Or
    } else if crate::text::str_eq(text, "print") {
        TokenType::Print
    } else if crate::text::str_eq(text, "return") {
        TokenType::Return
    } else if crate::text::str_eq(text, "super") {
        TokenType::Super
    } else if crate::text::str_eq(text, "this") {
        TokenType::This
    } else if crate::text::str_eq(text, "true") {
        TokenType::True
    } else if crate::text::str_eq(text, "var") {
        TokenType::Var
    } else if crate::text::str_eq(text, "while") {
        TokenType::While
    } else {
        TokenType::Identifier
    }
}

impl Scanner {
    /// A fresh scanner over `source`, with an empty token list, the
    /// cursor at the start, and the line counter at one.
    pub fn new(source: &str) -> (r: Scanner)
        requires
            source@.len() < 0x7fff_ffff_ffff_fffe,
        ensures
            r.source@ == source@,
            r.tokens.deep_view() == Seq::<TokenV>::empty(),
            r.start == 0,
            r.current == 0,
            r.line == 1,
            scanner_wf(r),
    {
        let owned = source.to_owned();
        let n: usize = owned.as_str().unicode_len();
        assert(owned@.len() <= usize::MAX);
        let r = Scanner { source: owned, tokens: Vec::new(), start: 0, current: 0, line: 1 };
        proof {
            assert(r.tokens.deep_view() =~= Seq::<TokenV>::empty());
        }
        r
    }

    /// Whether the cursor has passed the last character.
    fn is_at_end(&self) -> (r: bool)
        ensures
            r == (self.current >= self.source@.len()),
    {
        self.current >= self.source.as_str().unicode_len()
    }

    /// The character under the cursor, or `'\0'` past the end.
    fn peek(&self) -> (c: char)
        ensures
            c == if self.current < self.source@.len() {
                self.source@[self.current as int]
            } else {
                '\0'
            },
    {
        if self.is_at_end() {
            return '\0';
        }
        self.source.as_str().get_char(self.current)
    }

    /// The character after the cursor, or `'\0'` past the end.
    fn peek_next(&self) -> (c: char)
        ensures
            c == if self.current + 1 < self.source@.len() {
                self.source@[self.current + 1]
            } else {
                '\0'
            },
    {
        let len = self.source.as_str().unicode_len();
        if self.current < len && self.current + 1 < len {
            self.source.as_str().get_char(self.current + 1)
        } else {
            '\0'
        }
    }

    /// Returns the character under the cursor and moves past it.
    fn advance(&mut self) -> (c: char)
        requires
            old(self).current < old(self).source@.len(),
            old(self).source@.len() <= usize::MAX,
        ensures
            c == old(self).source@[old(self).current as int],
            *final(self) == (Scanner { current: (old(self).current + 1) as usize, ..*old(self) }),
    {
        let c = self.source.as_str().get_char(self.current);
        self.current += 1;
        c
    }

    /// Consumes the character under the cursor when it equals `expected`.
    fn match_char(&mut self, expected: char) -> (r: bool)
        requires
            old(self).source@.len() <= usize::MAX,
        ensures
            r == (old(self).current < old(self).source@.len() && old(self).source@[old(
                self,
            ).current as int] == expected),
            *final(self) == (Scanner {
                current: if r {
                    (old(self).current + 1) as usize
                } else {
                    old(self).current
                },
                ..*old(self)
            }),
    {
        if self.is_at_end() {
            return false;
        }
        if self.source.as_str().get_char(self.current) != expected {
            return false;
        }
        self.current += 1;
        true
    }

    /// Appends a token of kind `token_type` for the lexeme between
    /// `start` and `current`, carrying the current line.
    fn add_token(&mut self, token_type: TokenType)
        requires
            old(self).start <= old(self).current <= old(self).source@.len(),
        ensures
            *final(self) == (Scanner { tokens: final(self).tokens, ..*old(self) }),
            final(self).tokens.deep_view() == old(self).tokens.deep_view().push(
                tok(
                    old(self).source@,
                    token_type,
                    old(self).start as int,
                    old(self).current as int,
                    old(self).line as int,
                ),
            ),
    {
        let text = self.source.as_str().substring_char(self.start, self.current);
        let t = Token::new(token_type, text, self.line);
        self.tokens.push(t);
        proof {
            assert(self.tokens.deep_view() =~= old(self).tokens.deep_view().push(t@));
        }
    }

    /// Scans the body of a string literal; the opening quote is already
    /// consumed.  A doubled quote stays in the lexeme; an unterminated
    /// string is reported at the line where it began.
    fn scan_string(&mut self, reporter: &mut ErrorReporter)
        requires
            scanner_wf(*old(self)),
            old(self).start + 1 == old(self).current,
            old(self).start < old(self).source@.len(),
        ensures
            scan_token_body_string(*old(self), *final(self), old(reporter)@, final(reporter)@),
            scanner_wf(*final(self)),
    {
        let ghost src = self.source@;
        let ghost cur0 = self.current as int;
        let ghost line0v = self.line as int;
        let line0 = self.line;
        while !self.is_at_end() && !(self.peek() == '"' && self.peek_next() != '"')
            invariant
                scanner_wf(*self),
                self.source@ == src,
                self.source == old(self).source,
                self.start == old(self).start,
                self.tokens == old(self).tokens,
                cur0 <= self.current as int,
                line0v <= self.line as int,
                self.line - line0v <= self.current - cur0,
                string_body(src, cur0, line0v) == string_body(
                    src,
                    self.current as int,
                    self.line as int,
                ),
            decreases src.len() - self.current,
        {
            let p = self.peek();
            if p == '\n' {
                self.line = self.line + 1;
                self.advance();
            } else if p == '"' {
                self.advance();
                self.advance();
            } else {
                self.advance();
            }
        }
        if self.is_at_end() {
            let mut msg = String::new();
            msg.append("Unterminated string.");
            reporter.error_line(line0, msg.as_str());
            proof {
                assert(Seq::<char>::empty() + "Unterminated string."@ =~= "Unterminated string."@);
                assert(reporter@ =~= old(reporter)@ + seq![
                    scan_error(line0v, "Unterminated string."@),
                ]);
            }
        } else {
            self.advance();
            self.add_token(TokenType::String);
            proof {
                assert(reporter@ =~= old(reporter)@);
            }
        }
    }

    /// Scans the rest of a number lexeme; its first character is already
    /// consumed.
    fn scan_number(&mut self)
        requires
            scanner_wf(*old(self)),
            old(self).start + 1 == old(self).current,
            old(self).start < old(self).source@.len(),
        ensures
            *final(self) == (Scanner {
                tokens: final(self).tokens,
                current: final(self).current,
                ..*old(self)
            }),
            final(self).current as int == number_end(old(self).source@, old(self).start as int),
            old(self).current <= final(self).current <= old(self).source@.len(),
            final(self).tokens.deep_view() == old(self).tokens.deep_view().push(
                tok(
                    old(self).source@,
                    TokenType::Number,
                    old(self).start as int,
                    number_end(old(self).source@, old(self).start as int),
                    old(self).line as int,
                ),
            ),
    {
        let ghost src = self.source@;
        if self.peek() != '.' {
            while is_digit_exec(self.peek())
                invariant
                    self.current <= src.len(),
                    src.len() <= usize::MAX,
                    self.source@ == src,
                    self.source == old(self).source,
                    self.start == old(self).start,
                    self.tokens == old(self).tokens,
                    self.line == old(self).line,
                    old(self).current <= self.current,
                    digit_run_end(src, old(self).current as int) == digit_run_end(
                        src,
                        self.current as int,
                    ),
                decreases src.len() - self.current,
            {
                self.advance();
            }
            assert(self.current as int == digit_run_end(src, old(self).current as int));
        }
        if self.peek() == '.' && is_digit_exec(self.peek_next()) {
            let ghost a = self.current as int;
            self.advance();
            self.advance();
            while is_digit_exec(self.peek())
                invariant
                    self.current <= src.len(),
                    src.len() <= usize::MAX,
                    self.source@ == src,
                    self.source == old(self).source,
                    self.start == old(self).start,
                    self.tokens == old(self).tokens,
                    self.line == old(self).line,
                    a + 2 <= self.current,
                    digit_run_end(src, a + 2) == digit_run_end(src, self.current as int),
                decreases src.len() - self.current,
            {
                self.advance();
            }
            assert(self.current as int == digit_run_end(src, a + 2));
        }
        self.add_token(TokenType::Number);
    }

    /// Scans the rest of an identifier or keyword; its first character is
    /// already consumed.
    fn scan_identifier(&mut self)
        requires
            scanner_wf(*old(self)),
            old(self).start + 1 == old(self).current,
            old(self).start < old(self).source@.len(),
        ensures
            *final(self) == (Scanner {
                tokens: final(self).tokens,
                current: final(self).current,
                ..*old(self)
            }),
            final(self).current as int == ident_end(old(self).source@, old(self).current as int),
            old(self).current <= final(self).current <= old(self).source@.len(),
            final(self).tokens.deep_view() == old(self).tokens.deep_view().push(
                tok(
                    old(self).source@,
                    keyword_kind(
                        old(self).source@.subrange(
                            old(self).start as int,
                            ident_end(old(self).source@, old(self).current as int),
                        ),
                    ),
                    old(self).start as int,
                    ident_end(old(self).source@, old(self).current as int),
                    old(self).line as int,
                ),
            ),
    {
        let ghost src = self.source@;
        while !self.is_at_end() && (is_alphanumeric_char(self.peek()) || self.peek() == '_')
            invariant
                self.current <= src.len(),
                src.len() <= usize::MAX,
                self.source@ == src,
                self.source == old(self).source,
                self.start == old(self).start,
                self.tokens == old(self).tokens,
                self.line == old(self).line,
                old(self).current <= self.current,
                ident_end(src, old(self).current as int) == ident_end(src, self.current as int),
            decreases src.len() - self.current,
        {
            self.advance();
        }
        assert(self.current as int == ident_end(src, old(self).current as int));
        let text = self.source.as_str().substring_char(self.start, self.current);
        let tt = keyword_type(text);
        self.add_token(tt);
    }

    /// Scans one lexeme (or skips one piece of whitespace or a comment),
    /// as one `scan_step` of the lexical grammar says.
    fn scan_token(&mut self, reporter: &mut ErrorReporter)
        requires
            scanner_wf(*old(self)),
            old(self).start == old(self).current,
            old(self).current < old(self).source@.len(),
        ensures
            scan_token_rel(*old(self), *final(self), old(reporter)@, final(reporter)@),
            old(self).current < final(self).current,
            scanner_wf(*final(self)),
    {
        let ghost src = self.source@;
        let ghost pos0 = self.current as int;
        let ghost l0 = self.line as int;
        proof {
            lemma_scan_step_progress(src, pos0, l0);
        }
        let c = self.advance();
        if c == '(' {
            self.add_token(TokenType::LeftParen);
        } else if c == ')' {
            self.add_token(TokenType::RightParen);
        } else if c == '{' {
            self.add_token(TokenType::LeftBrace);
        } else if c == '}' {
            self.add_token(TokenType::RightBrace);
        } else if c == ',' {
            self.add_token(TokenType::Comma);
        } else if c == '-' {
            self.add_token(TokenType::Minus);
        } else if c == '+' {
            self.add_token(TokenType::Plus);
        } else if c == ';' {
            self.add_token(TokenType::SemiColon);
        } else if c == '*' {
            self.add_token(TokenType::Star);
        } else if c == '=' {
            if self.match_char('=') {
                self.add_token(TokenType::EqualEqual);
            } else {
                self.add_token(TokenType::Equal);
            }
        } else if c == '<' {
            if self.match_char('=') {
                self.add_token(TokenType::LessEqual);
            } else {
                self.add_token(TokenType::Less);
            }
        } else if c == '>' {
            if self.match_char('=') {
                self.add_token(TokenType::GreaterEqual);
            } else {
                self.add_token(TokenType::Greater);
            }
        } else if c == '/' {
            if self.match_char('/') {
                while self.peek() != '\n' && !self.is_at_end()
                    invariant
                        self.current <= src.len(),
                        src.len() <= usize::MAX,
                        self.source@ == src,
                        self.source == old(self).source,
                        self.start == old(self).start,
                        self.tokens == old(self).tokens,
                        self.line == old(self).line,
                        pos0 < self.current as int,
                        comment_end(src, pos0 + 2) == comment_end(src, self.current as int),
                    decreases src.len() - self.current,
                {
                    self.advance();
                }
                assert(self.current as int == comment_end(src, pos0 + 2));
            } else {
                self.add_token(TokenType::Slash);
            }
        } else if c == '"' {
            self.scan_string(reporter);
        } else if is_digit_exec(c) {
            self.scan_number();
        } else if c == '.' {
            if is_digit_exec(self.peek()) {
                self.scan_number();
            } else {
                self.add_token(TokenType::Dot);
            }
        } else if c == '!' {
            if self.peek() == '=' {
                self.advance();
                self.add_token(TokenType::BangEqual);
            } else {
                let mut msg = String::new();
                msg.append("Unexpected character: ");
                crate::text::push_char(&mut msg, c);
                reporter.error_line(self.line, msg.as_str());
                proof {
                    assert(Seq::<char>::empty() + "Unexpected character: "@ + seq![c]
                        =~= "Unexpected character: "@ + seq![c]);
                    assert(reporter@ =~~= old(reporter)@ + seq![
                        scan_error(l0, "Unexpected character: "@ + seq![c]),
                    ]);
                }
            }
        } else if is_ident_start_exec(c) {
            self.scan_identifier();
        } else if c == ' ' || c == '\r' || c == '\t' {
            // Whitespace is skipped.
        } else if c == '\n' {
            self.line = self.line + 1;
        } else {
            let mut msg = String::new();
            msg.append("Unexpected character: ");
            crate::text::push_char(&mut msg, c);
            reporter.error_line(self.line, msg.as_str());
            proof {
                assert(Seq::<char>::empty() + "Unexpected character: "@ + seq![c]
                    =~= "Unexpected character: "@ + seq![c]);
                assert(reporter@ =~~= old(reporter)@ + seq![
                    scan_error(l0, "Unexpected character: "@ + seq![c]),
                ]);
            }
        }
        proof {
            let st = scan_step(src, pos0, l0);
            assert(self.tokens.deep_view() =~= old(self).tokens.deep_view() + st.toks);
            assert(reporter@ =~= old(reporter)@ + st.errs);
        }
    }

    /// Scans the whole remaining source: tokens and diagnostics exactly as
    /// `scan_spec` says of the source text, ending with an `EOF` token.
    pub fn scan_tokens(&mut self, reporter: &mut ErrorReporter)
        requires
            scanner_wf(*old(self)),
        ensures
            final(self).tokens.deep_view() == old(self).tokens.deep_view() + scan_spec(
                old(self).source@,
                old(self).current as int,
                old(self).line as int,
            ).toks,
            final(reporter)@ == old(reporter)@ + scan_spec(
                old(self).source@,
                old(self).current as int,
                old(self).line as int,
            ).errs,
            final(self).source == old(self).source,
            scanner_wf(*final(self)),
    {
        let ghost src = self.source@;
        let ghost c0 = self.current as int;
        let ghost l0 = self.line as int;
        let ghost toks0 = self.tokens.deep_view();
        let ghost errs0 = reporter@;
        while !self.is_at_end()
            invariant
                scanner_wf(*self),
                self.source@ == src,
                self.source == old(self).source,
                toks0 + scan_spec(src, c0, l0).toks =~= self.tokens.deep_view() + scan_spec(
                    src,
                    self.current as int,
                    self.line as int,
                ).toks,
                errs0 + scan_spec(src, c0, l0).errs =~= reporter@ + scan_spec(
                    src,
                    self.current as int,
                    self.line as int,
                ).errs,
            decreases src.len() - self.current,
        {
            let ghost pre = *self;
            let ghost errs_pre = reporter@;
            self.start = self.current;
            self.scan_token(reporter);
            proof {
                lemma_scan_step_progress(src, pre.current as int, pre.line as int);
                let st = scan_step(src, pre.current as int, pre.line as int);
                assert(scan_spec(src, pre.current as int, pre.line as int).toks == st.toks
                    + scan_spec(src, st.pos, st.line).toks);
                assert(scan_spec(src, pre.current as int, pre.line as int).errs == st.errs
                    + scan_spec(src, st.pos, st.line).errs);
                assert(toks0 + scan_spec(src, c0, l0).toks =~= self.tokens.deep_view() + scan_spec(
                    src,
                    self.current as int,
                    self.line as int,
                ).toks);
                assert(errs0 + scan_spec(src, c0, l0).errs =~= reporter@ + scan_spec(
                    src,
                    self.current as int,
                    self.line as int,
                ).errs);
            }
        }
        let t = Token::new(TokenType::EOF, "", self.line);
        self.tokens.push(t);
        proof {
            reveal_strlit("");
            assert(""@ =~= Seq::<char>::empty());
            assert(scan_spec(src, self.current as int, self.line as int).toks =~= seq![t@]);
            assert(scan_spec(src, self.current as int, self.line as int).errs
                =~= Seq::<ErrorV>::empty());
            assert(self.tokens.deep_view() =~= old(self).tokens.deep_view() + scan_spec(
                src,
                c0,
                l0,
            ).toks);
            assert(reporter@ =~= old(reporter)@ + scan_spec(src, c0, l0).errs);
        }
    }
}

/// How `scan_string` changes the scanner and the reporter: the string
/// case of `scan_step`, with the opening quote at `pre.start`.
pub open spec fn scan_token_body_string(
    pre: Scanner,
    post: Scanner,
    errs_pre: Seq<ErrorV>,
    errs_post: Seq<ErrorV>,
) -> bool {
    let b = string_body(pre.source@, pre.current as int, pre.line as int);
    &&& post.source == pre.source
    &&& post.start == pre.start
    &&& if b.terminated {
        &&& post.tokens.deep_view() == pre.tokens.deep_view().push(
            tok(pre.source@, TokenType::String, pre.start as int, b.pos + 1, b.line),
        )
        &&& errs_post == errs_pre
        &&& post.current as int == b.pos + 1
        &&& post.line as int == b.line
    } else {
        &&& post.tokens.deep_view() == pre.tokens.deep_view()
        &&& errs_post == errs_pre + seq![scan_error(pre.line as int, "Unterminated string."@)]
        &&& post.current as int == b.pos
        &&& post.line as int == b.line
    }
}

/// Law: scanning is a pure function of the source text alone, so
/// re-scanning the same source yields the identical token sequence and
/// the identical diagnostics.
pub proof fn lemma_scan_pure(a: Seq<char>, b: Seq<char>)
    requires
        a == b,
    ensures
        scan_spec(a, 0, 1) == scan_spec(b, 0, 1),
{
}

} // verus!
