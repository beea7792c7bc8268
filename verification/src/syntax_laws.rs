//! Laws of the syntax: printing and reading back, and where parsing fails.

use crate::lexer::{
    Lexeme, TokenView, lemma_line_end, line_end, scan_line, tokenize_spec, tokens_from,
};
use crate::parser::{
    ParseState, ParserErrorView, Place, Value, append_value, atom_value, is_quoted, parse_run,
    parse_spec, parse_start, parse_step, render, render_from, unmatched_closing,
    unmatched_opening,
};
use crate::text::{int_text, law_parse_int_text, lemma_nat_text, parse_int};
use vstd::prelude::*;

verus! {

/// Whether a character ends a word within a line.
pub open spec fn is_delimiter(c: char) -> bool {
    c == '(' || c == ')' || c == ' '
}

/// Whether a text holds neither a delimiter nor a line feed.
pub open spec fn is_plain(s: Seq<char>) -> bool {
    forall|i: int| 0 <= i < s.len() ==> !is_delimiter(#[trigger] s[i]) && s[i] != '\n'
}

/// Whether a value is syntax as the parser builds it: an integer, a symbol that
/// is a word but neither a number nor quoted, a string without delimiters, or a
/// list of such values.
pub open spec fn is_syntax(v: Value) -> bool
    decreases v,
{
    match v {
        Value::Integer(_) => true,
        Value::Symbol(s) => s.len() > 0 && is_plain(s) && parse_int(s) is None && !is_quoted(s),
        Value::Str(s) => is_plain(s),
        Value::List(items) => forall|i: int|
            0 <= i < items.len() ==> is_syntax(#[trigger] items[i]),
        _ => false,
    }
}

/// What the tokens are, apart from where they stand.
pub open spec fn kinds_of(tokens: Seq<TokenView>) -> Seq<Lexeme> {
    tokens.map_values(|t: TokenView| t.lexeme)
}

/// A string as the word that denotes it: between double quotes.
pub open spec fn quoted(s: Seq<char>) -> Seq<char> {
    seq!['"'] + s + seq!['"']
}

/// The tokens that denote a value, apart from where they stand.
pub open spec fn lexemes(v: Value) -> Seq<Lexeme>
    decreases v, 0nat,
{
    match v {
        Value::Integer(n) => seq![Lexeme::Integer(n)],
        Value::Symbol(s) => seq![Lexeme::Symbol(s)],
        Value::Str(s) => seq![Lexeme::Symbol(quoted(s))],
        Value::List(items) => seq![Lexeme::LParen] + lexemes_from(items, 0) + seq![Lexeme::RParen],
        _ => Seq::empty(),
    }
}

/// The tokens that denote the items from index `k` on.
pub open spec fn lexemes_from(items: Seq<Value>, k: nat) -> Seq<Lexeme>
    decreases items, items.len() - k,
{
    if k >= items.len() {
        Seq::empty()
    } else {
        lexemes(items[k as int]) + lexemes_from(items, k + 1)
    }
}

/// What a word is as a token: an integer where it denotes one, else a symbol.
pub open spec fn word_lexeme(word: Seq<char>) -> Lexeme {
    match parse_int(word) {
        Some(n) => Lexeme::Integer(n),
        None => Lexeme::Symbol(word),
    }
}

/// The token of the word read so far, if there is any.
pub open spec fn flush(pending: Seq<char>) -> Seq<Lexeme> {
    if pending.len() > 0 {
        seq![word_lexeme(pending)]
    } else {
        Seq::empty()
    }
}

/// The kinds of the tokens of the rest `t` of a line, where `pending` is the word
/// read so far.
pub open spec fn words(t: Seq<char>, pending: Seq<char>) -> Seq<Lexeme>
    decreases t.len(),
{
    if t.len() == 0 {
        flush(pending)
    } else if t[0] == '(' {
        flush(pending) + seq![Lexeme::LParen] + words(t.drop_first(), Seq::empty())
    } else if t[0] == ')' {
        flush(pending) + seq![Lexeme::RParen] + words(t.drop_first(), Seq::empty())
    } else if t[0] == ' ' {
        flush(pending) + words(t.drop_first(), Seq::empty())
    } else {
        words(t.drop_first(), pending.push(t[0]))
    }
}

/// The lists under construction after the given kinds of tokens, or `None` where
/// a closing parenthesis closes nothing.
pub open spec fn parse_kinds(frames: Seq<Seq<Value>>, kinds: Seq<Lexeme>) -> Option<
    Seq<Seq<Value>>,
>
    decreases kinds.len(),
{
    if kinds.len() == 0 {
        Some(frames)
    } else {
        match kinds[0] {
            Lexeme::LParen => parse_kinds(frames.push(Seq::empty()), kinds.drop_first()),
            Lexeme::RParen => if frames.len() <= 1 {
                None
            } else {
                parse_kinds(
                    append_value(frames.drop_last(), Value::List(frames.last())),
                    kinds.drop_first(),
                )
            },
            Lexeme::Integer(n) => parse_kinds(
                append_value(frames, Value::Integer(n)),
                kinds.drop_first(),
            ),
            Lexeme::Symbol(word) => parse_kinds(
                append_value(frames, atom_value(word)),
                kinds.drop_first(),
            ),
        }
    }
}

/// The scanner of a line, apart from places, is `words` on the rest of the line
/// and the word read so far.
pub proof fn lemma_scan_words(text: Seq<char>, row: nat, i: int, start: int)
    requires
        0 <= start <= i <= text.len(),
    ensures
        kinds_of(scan_line(text, row, i, start)) == words(text.skip(i), text.subrange(start, i)),
    decreases text.len() - i,
{
    let pending = text.subrange(start, i);
    let rest = text.skip(i);
    if i < text.len() {
        assert(rest.drop_first() =~= text.skip(i + 1));
        assert(text.subrange(i + 1, i + 1) =~= Seq::<char>::empty());
        assert(pending.push(text[i]) =~= text.subrange(start, i + 1));
        if is_delimiter(text[i]) {
            lemma_scan_words(text, row, i + 1, i + 1);
        } else {
            lemma_scan_words(text, row, i + 1, start);
        }
    }
}

/// The tokens of a text without a line feed are, apart from places, its words.
pub proof fn lemma_tokenize_one_line(text: Seq<char>)
    requires
        forall|i: int| 0 <= i < text.len() ==> text[i] != '\n',
    ensures
        kinds_of(tokenize_spec(text)) == words(text, Seq::empty()),
{
    if text.len() > 0 {
        lemma_line_end(text, 0);
        lemma_scan_words(text, 0, 0, 0);
        assert(text.skip(0) =~= text);
        assert(text.subrange(0, 0) =~= Seq::<char>::empty());
    }
}

/// Characters that are no delimiters join the word being read.
pub proof fn lemma_words_skip(w: Seq<char>, t: Seq<char>, pending: Seq<char>)
    requires
        forall|i: int| 0 <= i < w.len() ==> !is_delimiter(#[trigger] w[i]),
    ensures
        words(w + t, pending) == words(t, pending + w),
    decreases w.len(),
{
    if w.len() > 0 {
        assert((w + t).drop_first() =~= w.drop_first() + t);
        lemma_words_skip(w.drop_first(), t, pending.push(w[0]));
        assert(pending.push(w[0]) + w.drop_first() =~= pending + w);
    }
}

/// A word that stands before the end of the line or a delimiter gives its token.
pub proof fn lemma_words_word(w: Seq<char>, t: Seq<char>)
    requires
        w.len() > 0,
        forall|i: int| 0 <= i < w.len() ==> !is_delimiter(#[trigger] w[i]),
        t.len() == 0 || is_delimiter(t[0]),
    ensures
        words(w + t, Seq::empty()) == seq![word_lexeme(w)] + words(t, Seq::empty()),
{
    lemma_words_skip(w, t, Seq::empty());
}

/// The decimal text of an integer is a word without delimiters or line feeds.
pub proof fn lemma_int_text_plain(n: i64)
    ensures
        int_text(n as int).len() > 0,
        is_plain(int_text(n as int)),
{
    if n < 0 {
        lemma_nat_text((-n) as nat);
    } else {
        lemma_nat_text(n as nat);
    }
}

/// A string between quotes is a word without delimiters that denotes no number
/// and, read as an atom, gives the string back.
pub proof fn lemma_quoted(s: Seq<char>)
    requires
        is_plain(s),
    ensures
        quoted(s).len() > 0,
        is_plain(quoted(s)),
        parse_int(quoted(s)) is None,
        atom_value(quoted(s)) == Value::Str(s),
{
    let q = quoted(s);
    assert(q.subrange(1, q.len() - 1) =~= s);
}

/// Scanning the printable form of a syntax value that stands before the end of
/// the line or a delimiter gives the tokens that denote the value.
pub proof fn lemma_words_render(v: Value, t: Seq<char>)
    requires
        is_syntax(v),
        t.len() == 0 || is_delimiter(t[0]),
    ensures
        words(render(v) + t, Seq::empty()) == lexemes(v) + words(t, Seq::empty()),
    decreases v, 0nat,
{
    match v {
        Value::Integer(n) => {
            lemma_int_text_plain(n);
            law_parse_int_text(n);
            lemma_words_word(int_text(n as int), t);
        },
        Value::Symbol(s) => {
            lemma_words_word(s, t);
        },
        Value::Str(s) => {
            lemma_words_word(quoted(s), t);
        },
        Value::List(items) => {
            let inner = render_from(items, 0) + seq![')'] + t;
            let text = render(v) + t;
            assert(text[0] == '(');
            assert(text.drop_first() =~= inner);
            lemma_words_items(items, 0, t);
            assert(flush(Seq::<char>::empty()) =~= Seq::<Lexeme>::empty());
            let tail = words(t, Seq::empty());
            assert(Seq::<Lexeme>::empty() + seq![Lexeme::LParen] + (lexemes_from(items, 0)
                + seq![Lexeme::RParen] + tail) =~= lexemes(v) + tail);
        },
        _ => {},
    }
}

/// Scanning the printable forms of the items from index `k` on, and the closing
/// parenthesis after them, gives the tokens that denote them, then the
/// parenthesis.
pub proof fn lemma_words_items(items: Seq<Value>, k: nat, t: Seq<char>)
    requires
        forall|i: int| 0 <= i < items.len() ==> is_syntax(#[trigger] items[i]),
        k <= items.len(),
    ensures
        words(render_from(items, k) + seq![')'] + t, Seq::empty()) == lexemes_from(items, k)
            + seq![Lexeme::RParen] + words(t, Seq::empty()),
    decreases items, items.len() - k,
{
    let close = seq![')'] + t;
    assert(close.drop_first() =~= t);
    if k < items.len() {
        let item = items[k as int];
        lemma_words_items(items, k + 1, t);
        if k + 1 == items.len() {
            lemma_words_render(item, close);
            assert(render_from(items, k) + seq![')'] + t =~= render(item) + close);
        } else {
            let next = render_from(items, k + 1) + seq![')'] + t;
            let spaced = seq![' '] + next;
            assert(spaced.drop_first() =~= next);
            lemma_words_render(item, spaced);
            assert(render_from(items, k) + seq![')'] + t =~= render(item) + spaced);
        }
    }
}

/// The parser, apart from places, is `parse_kinds` on the kinds of the tokens
/// that are left: it fails exactly where `parse_kinds` gives nothing, and else
/// ends with the same lists under construction, of which all but the top level
/// have an opening parenthesis still open.
pub proof fn lemma_parse_kinds(st: ParseState, tokens: Seq<TokenView>, i: int)
    requires
        0 <= i <= tokens.len(),
        st.frames.len() == st.open.len() + 1,
    ensures
        match parse_kinds(st.frames, kinds_of(tokens).skip(i)) {
            Some(frames) => parse_run(st, tokens, i) is Ok && parse_run(
                st,
                tokens,
                i,
            )->Ok_0.frames == frames && frames.len() == parse_run(st, tokens, i)->Ok_0.open.len()
                + 1,
            None => parse_run(st, tokens, i) is Err,
        },
    decreases tokens.len() - i,
{
    let kinds = kinds_of(tokens).skip(i);
    if i < tokens.len() {
        assert(kinds.drop_first() =~= kinds_of(tokens).skip(i + 1));
        match parse_step(st, tokens[i]) {
            Ok(next) => {
                lemma_parse_kinds(next, tokens, i + 1);
            },
            Err(_) => {},
        }
    }
}

/// Appending a value to the innermost of the lists under construction, where a
/// list `acc` has just been opened above `frames`.
pub proof fn lemma_append_opened(frames: Seq<Seq<Value>>, acc: Seq<Value>, v: Value)
    ensures
        append_value(frames.push(acc), v) == frames.push(acc.push(v)),
{
}

/// Parsing the tokens that denote a syntax value appends the value to the
/// innermost list under construction.
pub proof fn lemma_parse_lexemes(v: Value, frames: Seq<Seq<Value>>, rest: Seq<Lexeme>)
    requires
        is_syntax(v),
        frames.len() >= 1,
    ensures
        parse_kinds(frames, lexemes(v) + rest) == parse_kinds(append_value(frames, v), rest),
    decreases v, 0nat,
{
    let kinds = lexemes(v) + rest;
    match v {
        Value::Integer(n) => {
            assert(kinds.drop_first() =~= rest);
        },
        Value::Symbol(s) => {
            assert(kinds.drop_first() =~= rest);
        },
        Value::Str(s) => {
            lemma_quoted(s);
            assert(kinds.drop_first() =~= rest);
        },
        Value::List(items) => {
            let close = seq![Lexeme::RParen] + rest;
            assert(kinds.drop_first() =~= lexemes_from(items, 0) + close);
            lemma_parse_items(items, 0, frames, Seq::empty(), close);
            assert(Seq::<Value>::empty() + items.skip(0) =~= items);
            let opened = frames.push(items);
            assert(close.drop_first() =~= rest);
            assert(opened.drop_last() =~= frames);
        },
        _ => {},
    }
}

/// Parsing the tokens that denote the items from index `k` on appends the items
/// to the list that was opened last.
pub proof fn lemma_parse_items(
    items: Seq<Value>,
    k: nat,
    frames: Seq<Seq<Value>>,
    acc: Seq<Value>,
    rest: Seq<Lexeme>,
)
    requires
        forall|i: int| 0 <= i < items.len() ==> is_syntax(#[trigger] items[i]),
        k <= items.len(),
    ensures
        parse_kinds(frames.push(acc), lexemes_from(items, k) + rest) == parse_kinds(
            frames.push(acc + items.skip(k as int)),
            rest,
        ),
    decreases items, items.len() - k,
{
    if k < items.len() {
        let item = items[k as int];
        let after = lexemes_from(items, k + 1) + rest;
        assert(lexemes_from(items, k) + rest =~= lexemes(item) + after);
        lemma_parse_lexemes(item, frames.push(acc), after);
        lemma_append_opened(frames, acc, item);
        lemma_parse_items(items, k + 1, frames, acc.push(item), rest);
        assert(acc.push(item) + items.skip(k as int + 1) =~= acc + items.skip(k as int));
    }
}

/// The printable form of a syntax value holds no line feed.
pub proof fn lemma_render_one_line(v: Value, i: int)
    requires
        is_syntax(v),
        0 <= i < render(v).len(),
    ensures
        render(v)[i] != '\n',
    decreases v, 0nat,
{
    match v {
        Value::Integer(n) => {
            lemma_int_text_plain(n);
        },
        Value::List(items) => {
            let inner = render_from(items, 0);
            if 0 < i <= inner.len() {
                lemma_render_from_one_line(items, 0, i - 1);
            }
        },
        _ => {},
    }
}

/// The printable forms of syntax values hold no line feed.
pub proof fn lemma_render_from_one_line(items: Seq<Value>, k: nat, i: int)
    requires
        forall|j: int| 0 <= j < items.len() ==> is_syntax(#[trigger] items[j]),
        0 <= i < render_from(items, k).len(),
    ensures
        render_from(items, k)[i] != '\n',
    decreases items, items.len() - k,
{
    if k < items.len() {
        let item = items[k as int];
        let first = render(item);
        if i < first.len() {
            lemma_render_one_line(item, i);
        } else if k + 1 < items.len() {
            if i > first.len() {
                lemma_render_from_one_line(items, k + 1, i - first.len() - 1);
            }
        }
    }
}

/// Round trip. The printable form of a syntax value, tokenized and parsed, gives
/// the value back.
pub proof fn law_round_trip(v: Value)
    requires
        is_syntax(v),
    ensures
        parse_spec(tokenize_spec(render(v))) == Ok::<Value, ParserErrorView>(v),
{
    let text = render(v);
    let tokens = tokenize_spec(text);
    assert forall|i: int| 0 <= i < text.len() implies text[i] != '\n' by {
        lemma_render_one_line(v, i);
    }
    lemma_tokenize_one_line(text);
    let none = Seq::<char>::empty();
    lemma_words_render(v, none);
    let start = parse_start();
    lemma_parse_kinds(start, tokens, 0);
    assert(kinds_of(tokens).skip(0) =~= lexemes(v) + Seq::<Lexeme>::empty());
    lemma_parse_lexemes(v, start.frames, Seq::empty());
}

/// Whether a token is as the tokenizer makes it: a symbol holds a word, without
/// delimiters or line feeds, that denotes no integer.
pub open spec fn is_clean(t: TokenView) -> bool {
    match t.lexeme {
        Lexeme::Symbol(w) => w.len() > 0 && is_plain(w) && parse_int(w) is None,
        _ => true,
    }
}

/// Whether each token is as the tokenizer makes it.
pub open spec fn all_clean(tokens: Seq<TokenView>) -> bool {
    forall|k: int| 0 <= k < tokens.len() ==> is_clean(#[trigger] tokens[k])
}

/// The tokens of a line are as the tokenizer makes them.
pub proof fn lemma_scan_clean(text: Seq<char>, row: nat, i: int, start: int)
    requires
        0 <= start <= i <= text.len(),
        forall|j: int| 0 <= j < text.len() ==> text[j] != '\n',
        forall|j: int| start <= j < i ==> !is_delimiter(text[j]),
    ensures
        all_clean(scan_line(text, row, i, start)),
    decreases text.len() - i,
{
    if i < text.len() {
        if is_delimiter(text[i]) {
            lemma_scan_clean(text, row, i + 1, i + 1);
        } else {
            lemma_scan_clean(text, row, i + 1, start);
        }
    }
}

/// The tokens of a text are as the tokenizer makes them.
pub proof fn lemma_tokens_clean(s: Seq<char>, from: int, row: nat)
    requires
        0 <= from <= s.len(),
    ensures
        all_clean(tokens_from(s, from, row)),
    decreases s.len() - from,
{
    if from < s.len() {
        lemma_line_end(s, from);
        let e = line_end(s, from);
        if e < s.len() {
            let stop = if from < e && s[e - 1] == '\r' {
                e - 1
            } else {
                e
            };
            let line = s.subrange(from, stop);
            lemma_scan_clean(line, row, 0, 0);
            lemma_tokens_clean(s, e + 1, row + 1);
        } else {
            let line = s.subrange(from, s.len() as int);
            lemma_scan_clean(line, row, 0, 0);
        }
    }
}

/// Whether every value in the lists under construction is syntax.
pub open spec fn frames_are_syntax(frames: Seq<Seq<Value>>) -> bool {
    forall|i: int, j: int|
        0 <= i < frames.len() && 0 <= j < frames[i].len() ==> is_syntax(#[trigger] frames[i][j])
}

/// Fed with tokens that the tokenizer made, the parser builds syntax values only.
pub proof fn lemma_run_syntax(st: ParseState, tokens: Seq<TokenView>, i: int)
    requires
        0 <= i <= tokens.len(),
        all_clean(tokens),
        st.frames.len() == st.open.len() + 1,
        frames_are_syntax(st.frames),
        parse_run(st, tokens, i) is Ok,
    ensures
        frames_are_syntax(parse_run(st, tokens, i)->Ok_0.frames),
        parse_run(st, tokens, i)->Ok_0.frames.len() == parse_run(st, tokens, i)->Ok_0.open.len()
            + 1,
    decreases tokens.len() - i,
{
    if i < tokens.len() {
        let t = tokens[i];
        let next = parse_step(st, t)->Ok_0;
        lemma_run_syntax(next, tokens, i + 1);
    }
}

/// What the parser makes of a source text is nothing, for a text without
/// tokens, or a syntax value.
pub proof fn law_parsed_is_syntax(text: Seq<char>)
    ensures
        match parse_spec(tokenize_spec(text)) {
            Ok(v) => v == Value::Void || is_syntax(v),
            Err(_) => true,
        },
{
    let tokens = tokenize_spec(text);
    lemma_tokens_clean(text, 0, 0);
    let start = parse_start();
    if parse_run(start, tokens, 0) is Ok {
        lemma_run_syntax(start, tokens, 0);
    }
}

/// Round trip of programs. Where a source text parses to a value, the printable
/// form of that value parses to the same value.
pub proof fn law_reparse(text: Seq<char>)
    ensures
        match parse_spec(tokenize_spec(text)) {
            Ok(v) => parse_spec(tokenize_spec(render(v))) == Ok::<Value, ParserErrorView>(v),
            Err(_) => true,
        },
{
    law_parsed_is_syntax(text);
    match parse_spec(tokenize_spec(text)) {
        Ok(v) => {
            if v != Value::Void {
                law_round_trip(v);
            }
        },
        Err(_) => {},
    }
}

/// Parsing may stop after the first `k` tokens and go on from the state reached.
pub proof fn lemma_parse_cut(st: ParseState, tokens: Seq<TokenView>, i: int, k: int)
    requires
        0 <= i <= k <= tokens.len(),
    ensures
        parse_run(st, tokens, i) == match parse_run(st, tokens.take(k), i) {
            Err(e) => Err(e),
            Ok(mid) => parse_run(mid, tokens, k),
        },
    decreases k - i,
{
    if i < k {
        match parse_step(st, tokens[i]) {
            Ok(next) => {
                lemma_parse_cut(next, tokens, i + 1, k);
            },
            Err(_) => {},
        }
    }
}

/// The parser after the first `j + 1` tokens is the parser after the first `j`
/// tokens, moved on by one token.
pub proof fn lemma_parse_one_more(tokens: Seq<TokenView>, j: int)
    requires
        0 <= j < tokens.len(),
    ensures
        parse_run(parse_start(), tokens.take(j + 1), 0) == match parse_run(
            parse_start(),
            tokens.take(j),
            0,
        ) {
            Err(e) => Err(e),
            Ok(mid) => parse_step(mid, tokens[j]),
        },
{
    let longer = tokens.take(j + 1);
    lemma_parse_cut(parse_start(), longer, 0, j);
    assert(longer.take(j) =~= tokens.take(j));
    match parse_run(parse_start(), tokens.take(j), 0) {
        Ok(mid) => {
            match parse_step(mid, tokens[j]) {
                Ok(next) => {
                    assert(parse_run(next, longer, j + 1) == Ok::<ParseState, ParserErrorView>(
                        next,
                    ));
                },
                Err(_) => {},
            }
        },
        Err(_) => {},
    }
}

/// An extra closing parenthesis. Where the tokens before a closing parenthesis
/// parse with every parenthesis matched, parsing fails with an unmatched closing
/// parenthesis at the place of that token, whatever follows it.
pub proof fn law_unmatched_closing(tokens: Seq<TokenView>, k: int)
    requires
        0 <= k < tokens.len(),
        tokens[k].lexeme is RParen,
        parse_run(parse_start(), tokens.take(k), 0) is Ok,
        parse_run(parse_start(), tokens.take(k), 0)->Ok_0.open.len() == 0,
    ensures
        parse_spec(tokens) == Err::<Value, ParserErrorView>(
            unmatched_closing(tokens[k].ch, tokens[k].line),
        ),
{
    lemma_parse_cut(parse_start(), tokens, 0, k);
}

/// A missing closing parenthesis. Where the tokens before an opening parenthesis
/// parse with every parenthesis matched, and that parenthesis is not closed by
/// any later token, parsing fails with an unmatched opening parenthesis at the
/// place of that token.
pub proof fn law_unmatched_opening(tokens: Seq<TokenView>, k: int)
    requires
        0 <= k < tokens.len(),
        tokens[k].lexeme is LParen,
        parse_run(parse_start(), tokens.take(k), 0) is Ok,
        parse_run(parse_start(), tokens.take(k), 0)->Ok_0.open.len() == 0,
        forall|j: int|
            k < j <= tokens.len() ==> (#[trigger] parse_run(parse_start(), tokens.take(j), 0)) is Ok
                && parse_run(parse_start(), tokens.take(j), 0)->Ok_0.open.len() >= 1,
    ensures
        parse_spec(tokens) == Err::<Value, ParserErrorView>(
            unmatched_opening(tokens[k].ch, tokens[k].line),
        ),
{
    lemma_still_open(tokens, k, tokens.len() as int);
    assert(tokens.take(tokens.len() as int) =~= tokens);
}

/// While an opening parenthesis stays open, it is the earliest open one.
pub proof fn lemma_still_open(tokens: Seq<TokenView>, k: int, j: int)
    requires
        0 <= k < j <= tokens.len(),
        tokens[k].lexeme is LParen,
        parse_run(parse_start(), tokens.take(k), 0) is Ok,
        parse_run(parse_start(), tokens.take(k), 0)->Ok_0.open.len() == 0,
        forall|m: int|
            k < m <= tokens.len() ==> (#[trigger] parse_run(parse_start(), tokens.take(m), 0)) is Ok
                && parse_run(parse_start(), tokens.take(m), 0)->Ok_0.open.len() >= 1,
    ensures
        parse_run(parse_start(), tokens.take(j), 0) is Ok,
        parse_run(parse_start(), tokens.take(j), 0)->Ok_0.open.len() >= 1,
        parse_run(parse_start(), tokens.take(j), 0)->Ok_0.open[0] == (Place {
            ch: tokens[k].ch,
            line: tokens[k].line,
        }),
    decreases j - k,
{
    lemma_parse_one_more(tokens, j - 1);
    if j > k + 1 {
        lemma_still_open(tokens, k, j - 1);
    }
}

/// The last token of a line that ends with a closing parenthesis is that
/// parenthesis, at the column that is the length of the line.
pub proof fn lemma_scan_last_closing(text: Seq<char>, row: nat, i: int, start: int)
    requires
        0 <= start <= i < text.len(),
        text.last() == ')',
    ensures
        scan_line(text, row, i, start).len() > 0,
        scan_line(text, row, i, start).last() == (TokenView {
            lexeme: Lexeme::RParen,
            ch: text.len(),
            line: row,
        }),
    decreases text.len() - i,
{
    if i == text.len() - 1 {
        assert(scan_line(text, row, i + 1, i + 1) =~= Seq::<TokenView>::empty());
    } else if text[i] == '(' || text[i] == ')' || text[i] == ' ' {
        lemma_scan_last_closing(text, row, i + 1, i + 1);
    } else {
        lemma_scan_last_closing(text, row, i + 1, start);
    }
}

/// An extra closing parenthesis in a program. The printable form of a syntax
/// value with one more closing parenthesis after it fails to parse, with an
/// unmatched closing parenthesis at the column of that parenthesis, on the
/// first line.
pub proof fn law_extra_closing_program(v: Value)
    requires
        is_syntax(v),
    ensures
        parse_spec(tokenize_spec(render(v) + seq![')'])) == Err::<Value, ParserErrorView>(
            unmatched_closing(render(v).len() + 1, 0),
        ),
{
    let close = seq![')'];
    let text = render(v) + close;
    let tokens = tokenize_spec(text);
    let none = Seq::<char>::empty();
    assert forall|i: int| 0 <= i < text.len() implies text[i] != '\n' by {
        if i < render(v).len() {
            lemma_render_one_line(v, i);
        }
    }
    lemma_tokenize_one_line(text);
    lemma_words_render(v, close);
    assert(close.drop_first() =~= none);
    assert(words(none, none) =~= Seq::<Lexeme>::empty());
    lemma_line_end(text, 0);
    assert(text.subrange(0, text.len() as int) =~= text);
    lemma_scan_last_closing(text, 0, 0, 0);
    let k = tokens.len() - 1;
    let before = tokens.take(k);
    assert(kinds_of(tokens).len() == tokens.len());
    assert forall|j: int| 0 <= j < k implies kinds_of(before)[j] == lexemes(v)[j] by {
        assert(kinds_of(before)[j] == kinds_of(tokens)[j]);
    }
    let start = parse_start();
    lemma_parse_kinds(start, before, 0);
    assert(kinds_of(before).skip(0) =~= lexemes(v) + Seq::<Lexeme>::empty());
    lemma_parse_lexemes(v, start.frames, Seq::empty());
    lemma_parse_cut(start, tokens, 0, k);
}

/// The top level only grows while parsing; and as long as it has not grown, the
/// earliest open parenthesis is still the same one.
pub proof fn lemma_earliest_open(st: ParseState, tokens: Seq<TokenView>, i: int)
    requires
        0 <= i <= tokens.len(),
        st.frames.len() == st.open.len() + 1,
        parse_run(st, tokens, i) is Ok,
    ensures
        parse_run(st, tokens, i)->Ok_0.frames.len() == parse_run(st, tokens, i)->Ok_0.open.len()
            + 1,
        parse_run(st, tokens, i)->Ok_0.frames[0].len() >= st.frames[0].len(),
        st.open.len() >= 1 && parse_run(st, tokens, i)->Ok_0.frames[0].len()
            == st.frames[0].len() ==> parse_run(st, tokens, i)->Ok_0.open.len() >= 1
            && parse_run(st, tokens, i)->Ok_0.open[0] == st.open[0],
    decreases tokens.len() - i,
{
    if i < tokens.len() {
        let next = parse_step(st, tokens[i])->Ok_0;
        lemma_earliest_open(next, tokens, i + 1);
    }
}

/// A missing closing parenthesis in a program. The printable form of a list of
/// syntax values without its closing parenthesis fails to parse, with an
/// unmatched opening parenthesis at the first column of the first line, where
/// the list opens.
pub proof fn law_missing_closing_program(items: Seq<Value>)
    requires
        is_syntax(Value::List(items)),
    ensures
        parse_spec(tokenize_spec(seq!['('] + render_from(items, 0))) == Err::<
            Value,
            ParserErrorView,
        >(unmatched_opening(1, 0)),
{
    let v = Value::List(items);
    let text = seq!['('] + render_from(items, 0);
    let tokens = tokenize_spec(text);
    let none = Seq::<char>::empty();
    assert forall|i: int| 0 <= i < text.len() implies text[i] != '\n' by {
        lemma_render_one_line(v, i);
    }
    lemma_tokenize_one_line(text);
    // The kinds of the tokens: those of the whole list, without the last.
    lemma_words_render(v, none);
    lemma_words_open(items, 0);
    assert(text[0] == '(');
    assert(text.drop_first() =~= render_from(items, 0));
    let inner = lexemes_from(items, 0);
    assert(words(text, none) =~= seq![Lexeme::LParen] + inner);
    // The first token is the opening parenthesis, at the first column.
    lemma_line_end(text, 0);
    assert(text.subrange(0, text.len() as int) =~= text);
    let first = TokenView { lexeme: Lexeme::LParen, ch: 1, line: 0 };
    assert(scan_line(text, 0, 0, 0) =~= seq![first] + scan_line(text, 0, 1, 1));
    assert(tokens[0] == first);
    // After it, the items fill the list that it opened, and nothing closes it.
    let start = parse_start();
    let opened = parse_step(start, tokens[0])->Ok_0;
    assert(opened.frames =~= seq![Seq::<Value>::empty(), Seq::<Value>::empty()]);
    assert(opened.open =~= seq![Place { ch: 1, line: 0 }]);
    lemma_parse_kinds(opened, tokens, 1);
    assert(kinds_of(tokens).skip(1) =~= inner + Seq::<Lexeme>::empty());
    lemma_parse_items(items, 0, start.frames, Seq::empty(), Seq::empty());
    assert(start.frames.push(Seq::<Value>::empty()) =~= opened.frames);
    lemma_earliest_open(opened, tokens, 1);
    assert(Seq::<Value>::empty() + items.skip(0) =~= items);
    let end = parse_run(opened, tokens, 1)->Ok_0;
    assert(end.frames == start.frames.push(items));
    assert(end.frames[0] =~= opened.frames[0]);
}

/// Scanning the printable forms of the items from index `k` on, with nothing
/// after them, gives the tokens that denote them.
pub proof fn lemma_words_open(items: Seq<Value>, k: nat)
    requires
        forall|i: int| 0 <= i < items.len() ==> is_syntax(#[trigger] items[i]),
        k <= items.len(),
    ensures
        words(render_from(items, k), Seq::empty()) == lexemes_from(items, k),
    decreases items.len() - k,
{
    let none = Seq::<char>::empty();
    assert(flush(none) =~= Seq::<Lexeme>::empty());
    if k < items.len() {
        let item = items[k as int];
        assert(is_syntax(item));
        lemma_words_open(items, k + 1);
        if k + 1 == items.len() {
            lemma_words_render(item, none);
            assert(render(item) + none =~= render_from(items, k));
            assert(lexemes(item) + Seq::<Lexeme>::empty() =~= lexemes_from(items, k));
        } else {
            let next = render_from(items, k + 1);
            let spaced = seq![' '] + next;
            assert(spaced[0] == ' ');
            assert(spaced.drop_first() =~= next);
            assert(words(spaced, none) =~= words(next, none));
            lemma_words_render(item, spaced);
            assert(render(item) + spaced =~= render_from(items, k));
        }
    }
}

} // verus!
