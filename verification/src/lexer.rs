//! The tokenizer: source text to a flat sequence of positioned tokens.

use crate::text::{
    chars_of, int_text, nat_text, parse_int, parse_int_chars, push_int, push_nat, text_of,
};
use vstd::prelude::*;
use vstd::std_specs::cmp::PartialEqSpec;
use vstd::std_specs::cmp::PartialEqSpecImpl;
use vstd::string::StringExecFns;

verus! {

/// A payload together with the place of its first character: the column, counted
/// in characters from one, and the line, counted from zero.
#[derive(Debug, Clone)]
pub struct Content<T> {
    pub content: T,
    pub ch: usize,
    pub line: usize,
}

impl<T> Content<T> {
    /// A payload at the given column and line.
    pub fn new(content: T, ch: usize, line: usize) -> (c: Self)
        ensures
            c.content == content,
            c.ch == ch,
            c.line == line,
    {
        Content { content, ch, line }
    }
}

/// Two contents are equal when their payloads are: the place is not compared.
impl<T: PartialEq> PartialEq for Content<T> {
    fn eq(&self, other: &Self) -> (r: bool) {
        self.content == other.content
    }
}

impl<T: PartialEq> PartialEqSpecImpl for Content<T> {
    open spec fn obeys_eq_spec() -> bool {
        T::obeys_eq_spec()
    }

    open spec fn eq_spec(&self, other: &Self) -> bool {
        self.content.eq_spec(&other.content)
    }
}

/// A lexical unit of the source text.
#[derive(Debug, Clone)]
pub enum Token {
    Integer(Content<i64>),
    Symbol(Content<String>),
    LParen(Content<()>),
    RParen(Content<()>),
}

/// What a token is, apart from where it stands.
pub enum Lexeme {
    Integer(i64),
    Symbol(Seq<char>),
    LParen,
    RParen,
}

/// The mathematical model of a token.
pub struct TokenView {
    pub lexeme: Lexeme,
    pub ch: nat,
    pub line: nat,
}

impl View for Token {
    type V = TokenView;

    open spec fn view(&self) -> TokenView {
        match self {
            Token::Integer(c) => TokenView {
                lexeme: Lexeme::Integer(c.content),
                ch: c.ch as nat,
                line: c.line as nat,
            },
            Token::Symbol(c) => TokenView {
                lexeme: Lexeme::Symbol(c.content@),
                ch: c.ch as nat,
                line: c.line as nat,
            },
            Token::LParen(c) => TokenView {
                lexeme: Lexeme::LParen,
                ch: c.ch as nat,
                line: c.line as nat,
            },
            Token::RParen(c) => TokenView {
                lexeme: Lexeme::RParen,
                ch: c.ch as nat,
                line: c.line as nat,
            },
        }
    }
}

/// Two tokens are equal when they are of the same kind and hold the same payload:
/// the place is not compared.
impl PartialEq for Token {
    fn eq(&self, other: &Self) -> (r: bool) {
        match (self, other) {
            (Token::Integer(a), Token::Integer(b)) => a.content == b.content,
            (Token::Symbol(a), Token::Symbol(b)) => a.content == b.content,
            (Token::LParen(_), Token::LParen(_)) => true,
            (Token::RParen(_), Token::RParen(_)) => true,
            _ => false,
        }
    }
}

impl PartialEqSpecImpl for Token {
    open spec fn obeys_eq_spec() -> bool {
        true
    }

    open spec fn eq_spec(&self, other: &Self) -> bool {
        self@.lexeme == other@.lexeme
    }
}

/// The printable form of a token: line, colon, column, a space, then the kind, with
/// the payload of an integer or a symbol in parentheses.
pub open spec fn token_text(t: TokenView) -> Seq<char> {
    nat_text(t.line) + seq![':'] + nat_text(t.ch) + match t.lexeme {
        Lexeme::Integer(n) => " Int("@ + int_text(n as int) + seq![')'],
        Lexeme::Symbol(s) => " Symbol("@ + s + seq![')'],
        Lexeme::LParen => " LParen"@,
        Lexeme::RParen => " RParen"@,
    }
}

/// The models of a sequence of tokens.
pub open spec fn tokens_view(ts: Seq<Token>) -> Seq<TokenView> {
    ts.map_values(|t: Token| t@)
}

/// The token that a non-empty word gives: an integer where the word denotes one,
/// else a symbol holding the word as it stands.
pub open spec fn word_view(word: Seq<char>, ch: nat, line: nat) -> TokenView {
    TokenView {
        lexeme: match parse_int(word) {
            Some(n) => Lexeme::Integer(n),
            None => Lexeme::Symbol(word),
        },
        ch,
        line,
    }
}

/// The tokens of the word `text[start..end]`: none if it is empty, else one, placed
/// at the column of its first character.
pub open spec fn word_tokens(text: Seq<char>, start: int, end: int, row: nat) -> Seq<TokenView> {
    if 0 <= start < end <= text.len() {
        seq![word_view(text.subrange(start, end), (start + 1) as nat, row)]
    } else {
        Seq::empty()
    }
}

/// The tokens of one line from index `i` on, where the word being read began at `start`.
/// A parenthesis or a space ends the word; a parenthesis is a token of its own, at its
/// column; any other character extends the word.
pub open spec fn scan_line(text: Seq<char>, row: nat, i: int, start: int) -> Seq<TokenView>
    decreases text.len() - i,
{
    if i < 0 || i >= text.len() {
        word_tokens(text, start, text.len() as int, row)
    } else if text[i] == '(' {
        word_tokens(text, start, i, row) + seq![
            TokenView { lexeme: Lexeme::LParen, ch: (i + 1) as nat, line: row },
        ] + scan_line(text, row, i + 1, i + 1)
    } else if text[i] == ')' {
        word_tokens(text, start, i, row) + seq![
            TokenView { lexeme: Lexeme::RParen, ch: (i + 1) as nat, line: row },
        ] + scan_line(text, row, i + 1, i + 1)
    } else if text[i] == ' ' {
        word_tokens(text, start, i, row) + scan_line(text, row, i + 1, i + 1)
    } else {
        scan_line(text, row, i + 1, start)
    }
}

/// The tokens of one line of text.
pub open spec fn line_tokens(text: Seq<char>, row: nat) -> Seq<TokenView> {
    scan_line(text, row, 0, 0)
}

/// The index of the first line feed at or after `from`, or the length of the text.
pub open spec fn line_end(s: Seq<char>, from: int) -> int
    decreases s.len() - from,
{
    if from < 0 || from >= s.len() {
        s.len() as int
    } else if s[from] == '\n' {
        from
    } else {
        line_end(s, from + 1)
    }
}

/// The tokens of the text from index `from` on, which begins line `row`. A line ends
/// at a line feed; a carriage return just before the line feed belongs to the line
/// ending. The last line needs no line feed.
pub open spec fn tokens_from(s: Seq<char>, from: int, row: nat) -> Seq<TokenView>
    decreases s.len() - from,
{
    if from < 0 || from >= s.len() {
        Seq::empty()
    } else {
        let e = line_end(s, from);
        if from <= e < s.len() {
            let stop = if from < e && s[e - 1] == '\r' {
                e - 1
            } else {
                e
            };
            line_tokens(s.subrange(from, stop), row) + tokens_from(s, e + 1, row + 1)
        } else {
            line_tokens(s.subrange(from, s.len() as int), row)
        }
    }
}

/// The tokens of a source text.
pub open spec fn tokenize_spec(s: Seq<char>) -> Seq<TokenView> {
    tokens_from(s, 0, 0)
}

/// The first line feed at or after `from` lies within the text, and no line feed
/// stands before it.
pub proof fn lemma_line_end(s: Seq<char>, from: int)
    requires
        0 <= from <= s.len(),
    ensures
        from <= line_end(s, from) <= s.len(),
        line_end(s, from) < s.len() ==> s[line_end(s, from)] == '\n',
        forall|k: int| from <= k < line_end(s, from) ==> s[k] != '\n',
    decreases s.len() - from,
{
    if from < s.len() && s[from] != '\n' {
        lemma_line_end(s, from + 1);
    }
}

impl Token {
    /// The printable form of the token.
    pub fn to_string(&self) -> (s: String)
        ensures
            s@ == token_text(self@),
    {
        let mut s = String::new();
        match self {
            Token::Integer(c) => {
                push_nat(c.line as u64, &mut s);
                s.push(':');
                push_nat(c.ch as u64, &mut s);
                s.append(" Int(");
                push_int(c.content, &mut s);
                s.push(')');
            },
            Token::Symbol(c) => {
                push_nat(c.line as u64, &mut s);
                s.push(':');
                push_nat(c.ch as u64, &mut s);
                s.append(" Symbol(");
                s.append(c.content.as_str());
                s.push(')');
            },
            Token::LParen(c) => {
                push_nat(c.line as u64, &mut s);
                s.push(':');
                push_nat(c.ch as u64, &mut s);
                s.append(" LParen");
            },
            Token::RParen(c) => {
                push_nat(c.line as u64, &mut s);
                s.push(':');
                push_nat(c.ch as u64, &mut s);
                s.append(" RParen");
            },
        }
        s
    }

    /// Turns a source text into its tokens. Never fails: whether the parentheses
    /// match is the parser's concern.
    pub fn tokenize(program: &str) -> (tokens: Vec<Token>)
        ensures
            tokens_view(tokens@) == tokenize_spec(program@),
    {
        let chars = chars_of(program);
        let mut tokens: Vec<Token> = Vec::new();
        let mut line: usize = 0;
        let mut from: usize = 0;
        while from < chars.len()
            invariant
                from <= chars.len(),
                line <= from,
                chars@ == program@,
                tokens_view(tokens@) + tokens_from(chars@, from as int, line as nat)
                    == tokenize_spec(program@),
            decreases chars.len() - from,
        {
            let mut end: usize = from;
            while end < chars.len() && chars[end] != '\n'
                invariant
                    from <= end <= chars.len(),
                    line_end(chars@, end as int) == line_end(chars@, from as int),
                decreases chars.len() - end,
            {
                end += 1;
            }
            let stop: usize = if end < chars.len() && from < end && chars[end - 1] == '\r' {
                end - 1
            } else {
                end
            };
            let mut new_tokens = Self::parse_line(&chars, from, stop, line);
            tokens.append(&mut new_tokens);
            if end < chars.len() {
                from = end + 1;
                line += 1;
            } else {
                from = end;
            }
        }
        tokens
    }

    /// The tokens of the line `chars[from..to]`, which is line `line` of the text.
    pub fn parse_line(chars: &Vec<char>, from: usize, to: usize, line: usize) -> (tokens: Vec<Token>)
        requires
            from <= to <= chars.len(),
        ensures
            tokens_view(tokens@) == line_tokens(chars@.subrange(from as int, to as int), line as nat),
    {
        let ghost text = chars@.subrange(from as int, to as int);
        let mut tokens: Vec<Token> = Vec::new();
        let mut start: usize = from;
        let mut i: usize = from;
        while i < to
            invariant
                from <= start <= i <= to <= chars.len(),
                text == chars@.subrange(from as int, to as int),
                tokens_view(tokens@) + scan_line(text, line as nat, i - from, start - from)
                    == line_tokens(text, line as nat),
            decreases to - i,
        {
            let current = chars[i];
            if current == '(' || current == ')' {
                let ghost before = tokens_view(tokens@);
                let ghost word = word_tokens(text, start - from, i - from, line as nat);
                let ghost rest = scan_line(text, line as nat, i - from + 1, i - from + 1);
                Self::parse_buffer(chars, from, start, i, line, &mut tokens);
                let ch: usize = i - from + 1;
                let token = if current == '(' {
                    Token::LParen(Content::new((), ch, line))
                } else {
                    Token::RParen(Content::new((), ch, line))
                };
                tokens.push(token);
                assert(before + word + seq![token@] + rest =~= before + (word + seq![token@]
                    + rest));
                start = i + 1;
            } else if current == ' ' {
                Self::parse_buffer(chars, from, start, i, line, &mut tokens);
                start = i + 1;
            }
            i += 1;
        }
        Self::parse_buffer(chars, from, start, to, line, &mut tokens);
        tokens
    }

    /// Closes the word `chars[start..end]` of the line that begins at `origin`: an
    /// empty word gives nothing, another one an integer or a symbol token.
    pub fn parse_buffer(
        chars: &Vec<char>,
        origin: usize,
        start: usize,
        end: usize,
        line: usize,
        tokens: &mut Vec<Token>,
    )
        requires
            origin <= start <= end <= chars.len(),
        ensures
            forall|to: int|
                end <= to <= chars.len() ==> tokens_view(final(tokens)@) == tokens_view(
                    old(tokens)@,
                ) + #[trigger] word_tokens(
                    chars@.subrange(origin as int, to),
                    start - origin,
                    end - origin,
                    line as nat,
                ),
    {
        if start < end {
            let ch: usize = start - origin + 1;
            let token = match parse_int_chars(chars, start, end) {
                Some(value) => Token::Integer(Content::new(value, ch, line)),
                None => Token::Symbol(Content::new(text_of(chars, start, end), ch, line)),
            };
            tokens.push(token);
            assert forall|to: int| end <= to <= chars.len() implies tokens_view(final(tokens)@)
                == tokens_view(old(tokens)@) + #[trigger] word_tokens(
                chars@.subrange(origin as int, to),
                start - origin,
                end - origin,
                line as nat,
            ) by {
                assert(chars@.subrange(origin as int, to).subrange(start - origin, end - origin)
                    =~= chars@.subrange(start as int, end as int));
            }
        }
    }
}

} // verus!
