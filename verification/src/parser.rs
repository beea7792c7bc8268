//! Values, and the parser that builds them from tokens.

use crate::lexer::{Lexeme, Token, TokenView, tokens_view};
use crate::syscall::{Native, SysCallWrapper, syscall_text};
use crate::text::{debug_quoted, debug_string, int_text, nat_text, push_int, push_nat};
use vstd::prelude::*;
use vstd::string::StringExecFns;

verus! {

/// The evaluator's universal value. A list built by the parser is syntax that has
/// not been evaluated; a list built by the evaluator is a sequence of results.
#[derive(Debug, PartialEq)]
pub enum Object {
    Void,
    Integer(i64),
    Bool(bool),
    Symbol(String),
    String(String),
    Lambda(Vec<String>, Vec<Object>),
    Function(Vec<String>, Vec<Object>),
    SysCall(SysCallWrapper),
    List(Vec<Object>),
}

/// The mathematical model of a value.
pub enum Value {
    Void,
    Integer(i64),
    Bool(bool),
    Symbol(Seq<char>),
    Str(Seq<char>),
    Lambda(Seq<Seq<char>>, Seq<Value>),
    Function(Seq<Seq<char>>, Seq<Value>),
    SysCall(Seq<char>, Native),
    List(Seq<Value>),
}

/// The models of a vector of names.
pub open spec fn names_view(names: Vec<String>) -> Seq<Seq<char>> {
    Seq::new(names.len() as nat, |i: int| names[i]@)
}

/// The models of a vector of values.
pub open spec fn objects_view(objects: Vec<Object>) -> Seq<Value>
    decreases objects,
{
    Seq::new(
        objects.len() as nat,
        |i: int|
            if 0 <= i < objects.len() {
                objects[i]@
            } else {
                Value::Void
            },
    )
}

impl View for Object {
    type V = Value;

    open spec fn view(&self) -> Value
        decreases self,
    {
        match self {
            Object::Void => Value::Void,
            Object::Integer(n) => Value::Integer(*n),
            Object::Bool(b) => Value::Bool(*b),
            Object::Symbol(s) => Value::Symbol(s@),
            Object::String(s) => Value::Str(s@),
            Object::Lambda(params, body) => Value::Lambda(names_view(*params), objects_view(*body)),
            Object::Function(params, body) => Value::Function(
                names_view(*params),
                objects_view(*body),
            ),
            Object::SysCall(w) => Value::SysCall(w.name@, w.func),
            Object::List(items) => Value::List(objects_view(*items)),
        }
    }
}

/// The model of a vector of values holds, place by place, the models of its values.
pub proof fn lemma_objects_view(objects: Vec<Object>)
    ensures
        objects_view(objects).len() == objects.len(),
        forall|i: int| 0 <= i < objects.len() ==> objects_view(objects)[i] == (#[trigger] objects[i])@,
{
}

/// Appending a value to a vector appends its model to the vector's model.
pub proof fn lemma_objects_view_push(before: Vec<Object>, after: Vec<Object>, v: Object)
    requires
        after@ == before@.push(v),
    ensures
        objects_view(after) == objects_view(before).push(v@),
{
}

/// A vector without values has the empty model.
pub proof fn lemma_objects_view_empty(objects: Vec<Object>)
    requires
        objects@.len() == 0,
    ensures
        objects_view(objects) == Seq::<Value>::empty(),
{
}

/// A copy of a vector of names.
pub fn clone_names(names: &Vec<String>) -> (r: Vec<String>)
    ensures
        names_view(r) == names_view(*names),
{
    let mut out: Vec<String> = Vec::new();
    let mut i: usize = 0;
    while i < names.len()
        invariant
            i <= names.len(),
            out.len() == i,
            forall|j: int| 0 <= j < i ==> out[j]@ == names[j]@,
        decreases names.len() - i,
    {
        out.push(names[i].clone());
        i += 1;
    }
    out
}

/// A copy of a vector of values.
pub fn clone_objects(objects: &Vec<Object>) -> (r: Vec<Object>)
    ensures
        objects_view(r) == objects_view(*objects),
    decreases objects,
{
    let mut out: Vec<Object> = Vec::new();
    let mut i: usize = 0;
    while i < objects.len()
        invariant
            i <= objects.len(),
            out.len() == i,
            forall|j: int| 0 <= j < i ==> out[j]@ == objects[j]@,
        decreases objects.len() - i,
    {
        let item = objects[i].clone();
        out.push(item);
        i += 1;
    }
    out
}

/// A copy of a value is the same value.
impl Clone for Object {
    fn clone(&self) -> (r: Self)
        ensures
            r@ == self@,
        decreases self,
    {
        match self {
            Object::Void => Object::Void,
            Object::Integer(n) => Object::Integer(*n),
            Object::Bool(b) => Object::Bool(*b),
            Object::Symbol(s) => Object::Symbol(s.clone()),
            Object::String(s) => Object::String(s.clone()),
            Object::Lambda(params, body) => Object::Lambda(clone_names(params), clone_objects(body)),
            Object::Function(params, body) => Object::Function(
                clone_names(params),
                clone_objects(body),
            ),
            Object::SysCall(w) => Object::SysCall(w.clone()),
            Object::List(items) => Object::List(clone_objects(items)),
        }
    }
}

/// Why and where parsing failed: the message, and the column and line of the
/// parenthesis at fault.
#[derive(Debug)]
pub struct ParserError {
    pub err: String,
    pub ch: usize,
    pub line: usize,
}

/// The mathematical model of a parse error.
pub struct ParserErrorView {
    pub err: Seq<char>,
    pub ch: nat,
    pub line: nat,
}

impl View for ParserError {
    type V = ParserErrorView;

    open spec fn view(&self) -> ParserErrorView {
        ParserErrorView { err: self.err@, ch: self.ch as nat, line: self.line as nat }
    }
}

/// The error for a closing parenthesis that closes nothing.
pub open spec fn unmatched_closing(ch: nat, line: nat) -> ParserErrorView {
    ParserErrorView { err: "Unmatched closing parenthesis"@, ch, line }
}

/// The error for an opening parenthesis that is never closed.
pub open spec fn unmatched_opening(ch: nat, line: nat) -> ParserErrorView {
    ParserErrorView { err: "Unmatched opening parenthesis"@, ch, line }
}

/// The printable form of a parse error: line, colon, column, a space, the message.
pub open spec fn parser_error_text(e: ParserErrorView) -> Seq<char> {
    nat_text(e.line) + seq![':'] + nat_text(e.ch) + seq![' '] + e.err
}

impl ParserError {
    /// The printable form of the error.
    pub fn to_string(&self) -> (s: String)
        ensures
            s@ == parser_error_text(self@),
    {
        let mut s = String::new();
        push_nat(self.line as u64, &mut s);
        s.push(':');
        push_nat(self.ch as u64, &mut s);
        s.push(' ');
        s.append(self.err.as_str());
        s
    }
}

/// The printable form of a value: the decimal digits of an integer, `true` or
/// `false`, the text of a symbol, a string between double quotes, a list between
/// parentheses with one space between its elements; nothing for any other value.
pub open spec fn render(v: Value) -> Seq<char>
    decreases v, 0nat,
{
    match v {
        Value::Integer(n) => int_text(n as int),
        Value::Bool(b) => if b {
            "true"@
        } else {
            "false"@
        },
        Value::Symbol(s) => s,
        Value::Str(s) => seq!['"'] + s + seq!['"'],
        Value::List(items) => seq!['('] + render_from(items, 0) + seq![')'],
        _ => Seq::empty(),
    }
}

/// The printable forms of the items from index `k` on, with one space between
/// neighbours.
pub open spec fn render_from(items: Seq<Value>, k: nat) -> Seq<char>
    decreases items, items.len() - k,
{
    if k >= items.len() {
        Seq::empty()
    } else if k + 1 == items.len() {
        render(items[k as int])
    } else {
        render(items[k as int]) + seq![' '] + render_from(items, k + 1)
    }
}

/// Appends the printable forms of the items to `out`, with one space between
/// neighbours.
pub fn push_items_text(items: &Vec<Object>, out: &mut String)
    ensures
        final(out)@ == old(out)@ + render_from(objects_view(*items), 0),
    decreases items,
{
    let ghost models = objects_view(*items);
    let mut i: usize = 0;
    while i < items.len()
        invariant
            i <= items.len(),
            models == objects_view(*items),
            models.len() == items.len(),
            forall|j: int| 0 <= j < items.len() ==> models[j] == (#[trigger] items[j])@,
            out@ + render_from(models, i as nat) == old(out)@ + render_from(models, 0),
        decreases items.len() - i,
    {
        items[i].push_text(out);
        if i + 1 < items.len() {
            out.push(' ');
        }
        i += 1;
    }
}

impl Object {
    /// Appends the printable form of the value to `out`.
    pub fn push_text(&self, out: &mut String)
        ensures
            final(out)@ == old(out)@ + render(self@),
        decreases self,
    {
        match self {
            Object::Integer(n) => {
                push_int(*n, out);
            },
            Object::Bool(b) => {
                if *b {
                    out.append("true");
                } else {
                    out.append("false");
                }
            },
            Object::Symbol(s) => {
                out.append(s.as_str());
            },
            Object::String(s) => {
                out.push('"');
                out.append(s.as_str());
                out.push('"');
            },
            Object::List(items) => {
                out.push('(');
                push_items_text(items, out);
                out.push(')');
            },
            _ => {},
        }
    }

    /// The printable form of the value.
    pub fn to_string(&self) -> (s: String)
        ensures
            s@ == render(self@),
    {
        let mut s = String::new();
        self.push_text(&mut s);
        s
    }
}

/// The form of a value that shows how it is built: the name of its kind, then
/// its parts in parentheses, strings quoted and lists in square brackets.
pub open spec fn debug_text(v: Value) -> Seq<char>
    decreases v, 0nat,
{
    match v {
        Value::Void => "Void"@,
        Value::Integer(n) => "Integer("@ + int_text(n as int) + seq![')'],
        Value::Bool(b) => if b {
            "Bool(true)"@
        } else {
            "Bool(false)"@
        },
        Value::Symbol(s) => "Symbol("@ + debug_quoted(s) + seq![')'],
        Value::Str(s) => "String("@ + debug_quoted(s) + seq![')'],
        Value::Lambda(params, body) => "Lambda(["@ + debug_names(params, 0) + "], ["@
            + debug_from(body, 0) + "])"@,
        Value::Function(params, body) => "Function(["@ + debug_names(params, 0) + "], ["@
            + debug_from(body, 0) + "])"@,
        Value::SysCall(name, _) => "SysCall("@ + syscall_text(name) + seq![')'],
        Value::List(items) => "List(["@ + debug_from(items, 0) + "])"@,
    }
}

/// The forms of the items from index `k` on, with a comma and a space between
/// neighbours.
pub open spec fn debug_from(items: Seq<Value>, k: nat) -> Seq<char>
    decreases items, items.len() - k,
{
    if k >= items.len() {
        Seq::empty()
    } else if k + 1 == items.len() {
        debug_text(items[k as int])
    } else {
        debug_text(items[k as int]) + ", "@ + debug_from(items, k + 1)
    }
}

/// The quoted forms of the names from index `k` on, with a comma and a space
/// between neighbours.
pub open spec fn debug_names(names: Seq<Seq<char>>, k: nat) -> Seq<char>
    decreases names.len() - k,
{
    if k >= names.len() {
        Seq::empty()
    } else if k + 1 == names.len() {
        debug_quoted(names[k as int])
    } else {
        debug_quoted(names[k as int]) + ", "@ + debug_names(names, k + 1)
    }
}

/// Appends the quoted forms of the names to `out`, with a comma and a space
/// between neighbours.
pub fn push_names_debug(names: &Vec<String>, out: &mut String)
    ensures
        final(out)@ == old(out)@ + debug_names(names_view(*names), 0),
{
    let ghost models = names_view(*names);
    let mut i: usize = 0;
    while i < names.len()
        invariant
            i <= names.len(),
            models == names_view(*names),
            out@ + debug_names(models, i as nat) == old(out)@ + debug_names(models, 0),
        decreases names.len() - i,
    {
        let quoted = debug_string(names[i].as_str());
        out.append(quoted.as_str());
        if i + 1 < names.len() {
            out.append(", ");
        }
        i += 1;
    }
}

/// Appends the forms of the items to `out`, with a comma and a space between
/// neighbours.
pub fn push_items_debug(items: &Vec<Object>, out: &mut String)
    ensures
        final(out)@ == old(out)@ + debug_from(objects_view(*items), 0),
    decreases items,
{
    let ghost models = objects_view(*items);
    let mut i: usize = 0;
    while i < items.len()
        invariant
            i <= items.len(),
            models == objects_view(*items),
            models.len() == items.len(),
            forall|j: int| 0 <= j < items.len() ==> models[j] == (#[trigger] items[j])@,
            out@ + debug_from(models, i as nat) == old(out)@ + debug_from(models, 0),
        decreases items.len() - i,
    {
        items[i].push_debug(out);
        if i + 1 < items.len() {
            out.append(", ");
        }
        i += 1;
    }
}

impl Object {
    /// Appends to `out` the form of the value that shows how it is built.
    pub fn push_debug(&self, out: &mut String)
        ensures
            final(out)@ == old(out)@ + debug_text(self@),
        decreases self,
    {
        match self {
            Object::Void => {
                out.append("Void");
            },
            Object::Integer(n) => {
                out.append("Integer(");
                push_int(*n, out);
                out.push(')');
            },
            Object::Bool(b) => {
                if *b {
                    out.append("Bool(true)");
                } else {
                    out.append("Bool(false)");
                }
            },
            Object::Symbol(s) => {
                out.append("Symbol(");
                let quoted = debug_string(s.as_str());
                out.append(quoted.as_str());
                out.push(')');
            },
            Object::String(s) => {
                out.append("String(");
                let quoted = debug_string(s.as_str());
                out.append(quoted.as_str());
                out.push(')');
            },
            Object::Lambda(params, body) => {
                out.append("Lambda([");
                push_names_debug(params, out);
                out.append("], [");
                push_items_debug(body, out);
                out.append("])");
            },
            Object::Function(params, body) => {
                out.append("Function([");
                push_names_debug(params, out);
                out.append("], [");
                push_items_debug(body, out);
                out.append("])");
            },
            Object::SysCall(w) => {
                out.append("SysCall(");
                let shown = w.to_string();
                out.append(shown.as_str());
                out.push(')');
            },
            Object::List(items) => {
                out.append("List([");
                push_items_debug(items, out);
                out.append("])");
            },
        }
    }
}

/// Where a parenthesis stands.
pub struct Place {
    pub ch: nat,
    pub line: nat,
}

/// The opening parentheses that are still waiting for their closing one, the
/// earliest first.
pub struct ParenthesisCounter {
    pub parens: Vec<Token>,
}

impl ParenthesisCounter {
    /// The places of the parentheses that are still open, the earliest first.
    pub open spec fn open_places(&self) -> Seq<Place> {
        Seq::new(
            self.parens.len() as nat,
            |i: int| Place { ch: self.parens[i]@.ch, line: self.parens[i]@.line },
        )
    }

    /// A counter that has seen no parenthesis.
    pub fn new() -> (c: Self)
        ensures
            c.open_places() == Seq::<Place>::empty(),
    {
        let c = ParenthesisCounter { parens: Vec::new() };
        c
    }

    /// Takes note of one token: an opening parenthesis is remembered, a closing one
    /// releases the latest that is still open, and fails where none is.
    pub fn compute(&mut self, token: &Token) -> (r: Result<(), ParserError>)
        ensures
            match r {
                Ok(_) => Ok::<Seq<Place>, ParserErrorView>(final(self).open_places())
                    == count_step(old(self).open_places(), token@),
                Err(e) => Err::<Seq<Place>, ParserErrorView>(e@) == count_step(
                    old(self).open_places(),
                    token@,
                ) && final(self).open_places() == old(self).open_places(),
            },
    {
        match token {
            Token::LParen(c) => {
                self.parens.push(Token::LParen(crate::lexer::Content::new((), c.ch, c.line)));
                assert(final(self).open_places() =~= old(self).open_places().push(
                    Place { ch: token@.ch, line: token@.line },
                ));
            },
            Token::RParen(c) => {
                if self.parens.len() == 0 {
                    return Err(
                        ParserError {
                            err: String::from_str("Unmatched closing parenthesis"),
                            ch: c.ch,
                            line: c.line,
                        },
                    );
                }
                self.parens.pop();
                assert(final(self).open_places() =~= old(self).open_places().drop_last());
            },
            _ => {},
        }
        Ok(())
    }

    /// The column and line of the latest parenthesis that is still open, or zeros
    /// where none is.
    pub fn last_ch_and_line(&self) -> (r: (usize, usize))
        ensures
            self.open_places().len() == 0 ==> r == (0usize, 0usize),
            self.open_places().len() > 0 ==> r.0 == self.open_places().last().ch && r.1
                == self.open_places().last().line,
    {
        if self.parens.len() == 0 {
            (0, 0)
        } else {
            Self::place_of(&self.parens[self.parens.len() - 1])
        }
    }

    /// The column and line of the earliest parenthesis that is still open, or zeros
    /// where none is.
    pub fn first_ch_and_line(&self) -> (r: (usize, usize))
        ensures
            self.open_places().len() == 0 ==> r == (0usize, 0usize),
            self.open_places().len() > 0 ==> r.0 == self.open_places()[0].ch && r.1
                == self.open_places()[0].line,
    {
        if self.parens.len() == 0 {
            (0, 0)
        } else {
            Self::place_of(&self.parens[0])
        }
    }

    /// Whether every opening parenthesis seen so far has been closed.
    pub fn is_balanced(&self) -> (r: bool)
        ensures
            r == (self.open_places().len() == 0),
    {
        self.parens.len() == 0
    }

    /// The column and line of a token.
    fn place_of(token: &Token) -> (r: (usize, usize))
        ensures
            r.0 == token@.ch,
            r.1 == token@.line,
    {
        match token {
            Token::Integer(c) => (c.ch, c.line),
            Token::Symbol(c) => (c.ch, c.line),
            Token::LParen(c) => (c.ch, c.line),
            Token::RParen(c) => (c.ch, c.line),
        }
    }
}

/// What one token does to the opening parentheses that are still open.
pub open spec fn count_step(open: Seq<Place>, t: TokenView) -> Result<Seq<Place>, ParserErrorView> {
    match t.lexeme {
        Lexeme::LParen => Ok(open.push(Place { ch: t.ch, line: t.line })),
        Lexeme::RParen => if open.len() == 0 {
            Err(unmatched_closing(t.ch, t.line))
        } else {
            Ok(open.drop_last())
        },
        _ => Ok(open),
    }
}

/// Whether a word is enclosed in a pair of double quotes or in a pair of apostrophes.
pub open spec fn is_quoted(word: Seq<char>) -> bool {
    word.len() >= 2 && ((word[0] == '"' && word.last() == '"') || (word[0] == '\''
        && word.last() == '\''))
}

/// The value of a symbol token: a string without its quotes where the word is
/// quoted, else a symbol.
pub open spec fn atom_value(word: Seq<char>) -> Value {
    if is_quoted(word) {
        Value::Str(word.subrange(1, word.len() - 1))
    } else {
        Value::Symbol(word)
    }
}

/// The parser between two tokens: the lists under construction, the outermost
/// first (the first one is the top level), and the parentheses still open.
pub struct ParseState {
    pub frames: Seq<Seq<Value>>,
    pub open: Seq<Place>,
}

/// The parser before the first token.
pub open spec fn parse_start() -> ParseState {
    ParseState { frames: seq![Seq::<Value>::empty()], open: Seq::empty() }
}

/// The lists under construction after `v` was appended to the innermost one.
pub open spec fn append_value(frames: Seq<Seq<Value>>, v: Value) -> Seq<Seq<Value>> {
    frames.update(frames.len() - 1, frames.last().push(v))
}

/// What one token does to the parser.
pub open spec fn parse_step(st: ParseState, t: TokenView) -> Result<ParseState, ParserErrorView> {
    match count_step(st.open, t) {
        Err(e) => Err(e),
        Ok(open) => Ok(
            ParseState {
                frames: match t.lexeme {
                    Lexeme::LParen => st.frames.push(Seq::empty()),
                    Lexeme::RParen => append_value(
                        st.frames.drop_last(),
                        Value::List(st.frames.last()),
                    ),
                    Lexeme::Integer(n) => append_value(st.frames, Value::Integer(n)),
                    Lexeme::Symbol(word) => append_value(st.frames, atom_value(word)),
                },
                open,
            },
        ),
    }
}

/// The parser after the tokens from index `i` on, or the first error among them.
pub open spec fn parse_run(st: ParseState, tokens: Seq<TokenView>, i: int) -> Result<
    ParseState,
    ParserErrorView,
>
    decreases tokens.len() - i,
{
    if i < 0 || i >= tokens.len() {
        Ok(st)
    } else {
        match parse_step(st, tokens[i]) {
            Err(e) => Err(e),
            Ok(next) => parse_run(next, tokens, i + 1),
        }
    }
}

/// What the top level of a program stands for: nothing where it is empty, its one
/// form where it holds one, else the list of its forms.
pub open spec fn top_level(forms: Seq<Value>) -> Value {
    if forms.len() == 0 {
        Value::Void
    } else if forms.len() == 1 {
        forms[0]
    } else {
        Value::List(forms)
    }
}

/// The value of a token sequence, or the error for its first closing parenthesis
/// that closes nothing, else for its earliest opening parenthesis left open.
pub open spec fn parse_spec(tokens: Seq<TokenView>) -> Result<Value, ParserErrorView> {
    match parse_run(parse_start(), tokens, 0) {
        Err(e) => Err(e),
        Ok(st) => if st.open.len() > 0 {
            Err(unmatched_opening(st.open[0].ch, st.open[0].line))
        } else {
            Ok(top_level(st.frames[0]))
        },
    }
}

/// The models of the lists under construction: those in `stack`, then `current`.
pub open spec fn frames_view(stack: Vec<Vec<Object>>, current: Vec<Object>) -> Seq<Seq<Value>> {
    Seq::new(stack.len() as nat, |i: int| objects_view(stack[i])).push(objects_view(current))
}

/// Whether a word is enclosed in a pair of quotes.
pub fn word_is_quoted(word: &Vec<char>) -> (r: bool)
    ensures
        r == is_quoted(word@),
{
    let n = word.len();
    n >= 2 && ((word[0] == '"' && word[n - 1] == '"') || (word[0] == '\'' && word[n - 1]
        == '\''))
}

impl Object {
    /// Builds the value that a token sequence stands for.
    pub fn from_tokens(tokens: Vec<Token>) -> (r: Result<Object, ParserError>)
        ensures
            match r {
                Ok(v) => Ok::<Value, ParserErrorView>(v@) == parse_spec(tokens_view(tokens@)),
                Err(e) => Err::<Value, ParserErrorView>(e@) == parse_spec(tokens_view(tokens@)),
            },
    {
        Self::parse_list(&tokens)
    }

    /// Reads the tokens in order, keeping the lists under construction on a stack.
    pub fn parse_list(tokens: &Vec<Token>) -> (r: Result<Object, ParserError>)
        ensures
            match r {
                Ok(v) => Ok::<Value, ParserErrorView>(v@) == parse_spec(tokens_view(tokens@)),
                Err(e) => Err::<Value, ParserErrorView>(e@) == parse_spec(tokens_view(tokens@)),
            },
    {
        let ghost views = tokens_view(tokens@);
        let mut parenthesis_counter = ParenthesisCounter::new();
        let mut stack: Vec<Vec<Object>> = Vec::new();
        let mut current: Vec<Object> = Vec::new();
        let mut i: usize = 0;
        proof {
            lemma_objects_view_empty(current);
            assert(frames_view(stack, current) =~= parse_start().frames);
        }
        while i < tokens.len()
            invariant
                i <= tokens.len(),
                views == tokens_view(tokens@),
                stack.len() == parenthesis_counter.open_places().len(),
                parse_run(
                    ParseState {
                        frames: frames_view(stack, current),
                        open: parenthesis_counter.open_places(),
                    },
                    views,
                    i as int,
                ) == parse_run(parse_start(), views, 0),
            decreases tokens.len() - i,
        {
            let token = &tokens[i];
            let ghost frames = frames_view(stack, current);
            match parenthesis_counter.compute(token) {
                Err(e) => {
                    return Err(e);
                },
                Ok(_) => {},
            }
            match token {
                Token::LParen(_) => {
                    stack.push(current);
                    current = Vec::new();
                    proof {
                        lemma_objects_view_empty(current);
                        assert(frames_view(stack, current) =~= frames.push(Seq::empty()));
                    }
                },
                Token::RParen(_) => {
                    let completed = current;
                    let ghost beneath = stack[stack.len() - 1];
                    current = stack.pop().unwrap();
                    let item = Object::List(completed);
                    current.push(item);
                    proof {
                        lemma_objects_view_push(beneath, current, item);
                        assert(frames_view(stack, current) =~= append_value(
                            frames.drop_last(),
                            Value::List(frames.last()),
                        ));
                    }
                },
                Token::Integer(n) => {
                    let ghost before = current;
                    let item = Object::Integer(n.content);
                    current.push(item);
                    proof {
                        lemma_objects_view_push(before, current, item);
                        assert(frames_view(stack, current) =~= append_value(frames, item@));
                    }
                },
                Token::Symbol(s) => {
                    let ghost before = current;
                    let word = crate::text::chars_of(s.content.as_str());
                    let item = if word_is_quoted(&word) {
                        Object::String(crate::text::text_of(&word, 1, word.len() - 1))
                    } else {
                        Object::Symbol(s.content.clone())
                    };
                    current.push(item);
                    proof {
                        lemma_objects_view_push(before, current, item);
                        assert(frames_view(stack, current) =~= append_value(frames, item@));
                    }
                },
            }
            i += 1;
        }
        if !parenthesis_counter.is_balanced() {
            let (ch, line) = parenthesis_counter.first_ch_and_line();
            return Err(
                ParserError { err: String::from_str("Unmatched opening parenthesis"), ch, line },
            );
        }
        if current.len() == 1 {
            Ok(current.pop().unwrap())
        } else if current.len() == 0 {
            Ok(Object::Void)
        } else {
            Ok(Object::List(current))
        }
    }
}

} // verus!
