use vstd::prelude::*;
use crate::parser::token::{DataType, DataTypeStruct, Token, TokenView, lemma_tokens_view_push};
use crate::parser::compiler::{Compiler, CompilerView, initial_view};
use crate::parser::classify::{
    spec_is_digit,
    spec_is_alphabetic,
    spec_is_keyword,
    spec_is_datatype,
    spec_type_from_name,
    is_ascii_digit,
    is_ascii_alphabetic,
    is_keyword,
    is_datatype,
    get_type_from_name,
    string_from_chars,
    str_eq,
    lemma_word_literals,
    KEYWORD_PUB,
};

verus! {

/// The single-character token that `c` stands for, if any.
pub open spec fn punctuation(c: char) -> Option<TokenView> {
    if c == '(' {
        Some(TokenView::OpenParen)
    } else if c == ')' {
        Some(TokenView::CloseParen)
    } else if c == '{' {
        Some(TokenView::OpenCurly)
    } else if c == '}' {
        Some(TokenView::CloseCurly)
    } else if c == '[' {
        Some(TokenView::OpenBracket)
    } else if c == ']' {
        Some(TokenView::CloseBracket)
    } else if c == '<' {
        Some(TokenView::OpenAngle)
    } else if c == '>' {
        Some(TokenView::CloseAngle)
    } else if c == '!' {
        Some(TokenView::ExclamationMark)
    } else if c == '?' {
        Some(TokenView::QuestionMark)
    } else if c == '=' {
        Some(TokenView::Equals)
    } else if c == ':' {
        Some(TokenView::Colon)
    } else if c == ';' {
        Some(TokenView::SemiColon)
    } else if c == '.' {
        Some(TokenView::Period)
    } else if c == ',' {
        Some(TokenView::Comma)
    } else if c == '+' {
        Some(TokenView::Plus)
    } else if c == '-' {
        Some(TokenView::Minus)
    } else if c == '*' {
        Some(TokenView::Asterisk)
    } else if c == '/' {
        Some(TokenView::Slash)
    } else if c == '%' {
        Some(TokenView::Percent)
    } else if c == '_' {
        Some(TokenView::Underscore)
    } else if c == '&' {
        Some(TokenView::Ampersand)
    } else if c == '|' {
        Some(TokenView::Pipe)
    } else if c == '\n' {
        Some(TokenView::NewLine)
    } else {
        None
    }
}

/// The kinds of token that the lexer can be in the middle of reading
/// (`Bogus` meaning between tokens).
pub open spec fn is_lexing_mode(m: TokenView) -> bool {
    ||| m is Bogus
    ||| m is NumericLiteral
    ||| m is Identifier
    ||| m is StringLiteral
    ||| m is CharLiteral
}

/// The token that a finished word stands for: `pub`, another reserved word,
/// a data type name, or an identifier.
pub open spec fn word_token(w: Seq<char>) -> TokenView {
    if spec_is_keyword(w) {
        if w == seq!['p', 'u', 'b'] {
            TokenView::PubModifier
        } else {
            TokenView::Keyword { name: w }
        }
    } else if spec_is_datatype(w) {
        TokenView::DataType { data_type: spec_type_from_name(w) }
    } else {
        TokenView::Identifier { name: w }
    }
}

/// Reading `c` between tokens: a digit starts a numeric literal, a letter
/// or `_` starts a word, a quote starts a literal, punctuation becomes its
/// token, and any other character is dropped.
pub open spec fn step_default(v: CompilerView, c: char) -> CompilerView {
    if spec_is_digit(c) {
        CompilerView {
            mode: TokenView::NumericLiteral { value: Seq::empty() },
            buffer: v.buffer.push(c),
            ..v
        }
    } else if spec_is_alphabetic(c) || c == '_' {
        CompilerView {
            mode: TokenView::Identifier { name: Seq::empty() },
            buffer: v.buffer.push(c),
            ..v
        }
    } else if c == '"' {
        CompilerView { mode: TokenView::StringLiteral { value: Seq::empty() }, ..v }
    } else if c == '\'' {
        CompilerView { mode: TokenView::CharLiteral { value: Seq::empty() }, ..v }
    } else {
        match punctuation(c) {
            Some(t) => CompilerView { tokens: v.tokens.push(t), ..v },
            None => v,
        }
    }
}

/// Ends the token being read with `t` and returns between tokens.
pub open spec fn finish_token(v: CompilerView, t: TokenView) -> CompilerView {
    CompilerView {
        tokens: v.tokens.push(t),
        buffer: Seq::empty(),
        mode: TokenView::Bogus,
        ..v
    }
}

/// The state after reading `c`. Inside a numeric literal, further digits,
/// `_` and `,` are skipped and one `.` is kept; inside a word, letters,
/// digits and `_` are kept; inside a literal, a backslash escapes the next
/// character and the closing quote ends it (a character literal also
/// becomes a string literal). Any other character ends a number or word,
/// and is then read as between tokens.
pub open spec fn lex_step(v: CompilerView, c: char) -> CompilerView {
    match v.mode {
        TokenView::Bogus => step_default(v, c),
        TokenView::NumericLiteral { .. } => {
            if spec_is_digit(c) || c == '_' || c == ',' {
                v
            } else if c == '.' {
                CompilerView {
                    period_count: (v.period_count + 1) as u64,
                    buffer: v.buffer.push(c),
                    ..v
                }
            } else {
                step_default(finish_token(v, TokenView::NumericLiteral { value: v.buffer }), c)
            }
        },
        TokenView::Identifier { .. } => {
            if spec_is_alphabetic(c) || spec_is_digit(c) || c == '_' {
                CompilerView { buffer: v.buffer.push(c), ..v }
            } else {
                step_default(finish_token(v, word_token(v.buffer)), c)
            }
        },
        TokenView::StringLiteral { .. } => {
            if v.escaped {
                CompilerView { escaped: false, buffer: v.buffer.push(c), ..v }
            } else if c == '\\' {
                CompilerView { escaped: true, ..v }
            } else if c == '"' {
                finish_token(v, TokenView::StringLiteral { value: v.buffer })
            } else {
                CompilerView { buffer: v.buffer.push(c), ..v }
            }
        },
        TokenView::CharLiteral { .. } => {
            if v.escaped {
                CompilerView { escaped: false, buffer: v.buffer.push(c), ..v }
            } else if c == '\\' {
                CompilerView { escaped: true, ..v }
            } else if c == '\'' {
                finish_token(v, TokenView::StringLiteral { value: v.buffer })
            } else {
                CompilerView { buffer: v.buffer.push(c), ..v }
            }
        },
        _ => v,
    }
}

/// Reading `c` is defined: the lexer is in one of its reading modes, a
/// numeric literal meets a `.` only while no period has been seen, and a
/// character literal is closed only while it is empty.
pub open spec fn lex_step_ok(v: CompilerView, c: char) -> bool {
    &&& is_lexing_mode(v.mode)
    &&& (v.mode is NumericLiteral && c == '.' ==> v.period_count == 0)
    &&& (v.mode is CharLiteral && !v.escaped && c == '\'' ==> v.buffer.len() == 0)
}

/// The state after reading every character of `s`, in order, from `v`.
pub open spec fn lex_all(v: CompilerView, s: Seq<char>) -> CompilerView
    decreases s.len(),
{
    if s.len() == 0 {
        v
    } else {
        lex_step(lex_all(v, s.drop_last()), s.last())
    }
}

/// Reading every character of `s`, in order, from `v` is defined.
pub open spec fn lex_all_ok(v: CompilerView, s: Seq<char>) -> bool
    decreases s.len(),
{
    if s.len() == 0 {
        true
    } else {
        lex_all_ok(v, s.drop_last()) && lex_step_ok(lex_all(v, s.drop_last()), s.last())
    }
}

/// Reads `token` between tokens.
fn process_default(token: char, compiler: &mut Compiler)
    requires
        old(compiler).current_token is Bogus,
    ensures
        final(compiler)@ == step_default(old(compiler)@, token),
{
    if is_ascii_digit(token) {
        compiler.current_token = Token::NumericLiteral { value: String::new() };
        compiler.current_buffer.push(token);
    } else if is_ascii_alphabetic(token) || token == '_' {
        compiler.current_token = Token::Identifier { name: String::new() };
        compiler.current_buffer.push(token);
    } else if token == '"' {
        compiler.current_token = Token::StringLiteral { value: String::new() };
    } else if token == '\'' {
        compiler.current_token = Token::CharLiteral { value: String::new() };
    } else {
        let p_token: Token = match token {
            '(' => Token::OpenParen,
            ')' => Token::CloseParen,
            '{' => Token::OpenCurly,
            '}' => Token::CloseCurly,
            '[' => Token::OpenBracket,
            ']' => Token::CloseBracket,
            '<' => Token::OpenAngle,
            '>' => Token::CloseAngle,
            '!' => Token::ExclamationMark,
            '?' => Token::QuestionMark,
            '=' => Token::Equals,
            ':' => Token::Colon,
            ';' => Token::SemiColon,
            '.' => Token::Period,
            ',' => Token::Comma,
            '+' => Token::Plus,
            '-' => Token::Minus,
            '*' => Token::Asterisk,
            '/' => Token::Slash,
            '%' => Token::Percent,
            '_' => Token::Underscore,
            '&' => Token::Ampersand,
            '|' => Token::Pipe,
            '\n' => Token::NewLine,
            _ => Token::Bogus,
        };
        match p_token {
            Token::Bogus => {},
            _ => {
                proof {
                    lemma_tokens_view_push(compiler.tokens@, p_token);
                }
                compiler.tokens.push(p_token);
            },
        }
    }
}

/// Ends the token being read with `t` and returns between tokens.
fn finish_current(compiler: &mut Compiler, t: Token)
    ensures
        final(compiler)@ == finish_token(old(compiler)@, t@),
{
    proof {
        lemma_tokens_view_push(compiler.tokens@, t);
    }
    compiler.current_buffer.clear();
    compiler.current_token = Token::Bogus;
    compiler.tokens.push(t);
}

/// Reads one character of the source text.
pub fn process_token(token: char, compiler: &mut Compiler)
    requires
        lex_step_ok(old(compiler)@, token),
    ensures
        final(compiler)@ == lex_step(old(compiler)@, token),
{
    match compiler.current_token {
        Token::Bogus => {
            process_default(token, compiler);
        },
        Token::NumericLiteral { .. } => {
            if is_ascii_digit(token) || token == '_' || token == ',' {
                return ;
            } else if token == '.' {
                // no period has been seen yet: the precondition rules out a second one
                compiler.period_count = compiler.period_count + 1;
                compiler.current_buffer.push(token);
            } else {
                let value: String = string_from_chars(&compiler.current_buffer);
                let new_token: Token = Token::NumericLiteral { value: value };
                finish_current(compiler, new_token);
                process_default(token, compiler);
            }
        },
        Token::Identifier { .. } => {
            if is_ascii_alphabetic(token) || is_ascii_digit(token) || token == '_' {
                compiler.current_buffer.push(token);
            } else {
                let value: String = string_from_chars(&compiler.current_buffer);
                let new_token: Token = if is_keyword(&value) {
                    proof {
                        lemma_word_literals();
                    }
                    if str_eq(value.as_str(), KEYWORD_PUB) {
                        Token::PubModifier
                    } else {
                        Token::Keyword { name: value }
                    }
                } else if is_datatype(&value) {
                    Token::DataType { data_type: get_type_from_name(&value) }
                } else {
                    Token::Identifier { name: value }
                };
                finish_current(compiler, new_token);
                process_default(token, compiler);
            }
        },
        Token::StringLiteral { .. } => {
            if !compiler.next_char_escaped {
                if token == '\\' {
                    compiler.next_char_escaped = true;
                    return ;
                } else if token == '"' {
                    let value: String = string_from_chars(&compiler.current_buffer);
                    let new_token: Token = Token::StringLiteral { value: value };
                    finish_current(compiler, new_token);
                    return ;
                }
            } else {
                compiler.next_char_escaped = false;
            }
            compiler.current_buffer.push(token);
        },
        Token::CharLiteral { .. } => {
            if !compiler.next_char_escaped {
                if token == '\\' {
                    compiler.next_char_escaped = true;
                    return ;
                } else if token == '\'' {
                    // the literal is empty here: the precondition rules out any other
                    let value: String = string_from_chars(&compiler.current_buffer);
                    let new_token: Token = Token::StringLiteral { value: value };
                    finish_current(compiler, new_token);
                    return ;
                }
            } else {
                compiler.next_char_escaped = false;
            }
            compiler.current_buffer.push(token);
        },
        _ => {},
    }
}

/// Reading a prefix of `s` is defined wherever reading `s` is.
pub proof fn lemma_lex_prefix(v: CompilerView, s: Seq<char>, k: int)
    requires
        0 <= k <= s.len(),
        lex_all_ok(v, s),
    ensures
        lex_all_ok(v, s.take(k)),
    decreases s.len() - k,
{
    if k == s.len() {
        assert(s.take(k) =~= s);
    } else {
        lemma_lex_prefix(v, s, k + 1);
        assert(s.take(k + 1).drop_last() =~= s.take(k));
    }
}

impl Compiler {
    /// Whether reading `c` next is defined.
    pub fn can_process(&self, c: char) -> (r: bool)
        ensures
            r == lex_step_ok(self@, c),
    {
        let mode_ok = match self.current_token {
            Token::Bogus => true,
            Token::NumericLiteral { .. } => !(c == '.' && self.period_count > 0),
            Token::Identifier { .. } => true,
            Token::StringLiteral { .. } => true,
            Token::CharLiteral { .. } => !(!self.next_char_escaped && c == '\'' && self.current_buffer.len() > 0),
            _ => false,
        };
        mode_ok
    }

    /// Whether reading all of `chars`, in order, is defined.
    pub fn can_process_all(&self, chars: &Vec<char>) -> (r: bool)
        ensures
            r == lex_all_ok(self@, chars@),
    {
        let mut probe = Compiler {
            tokens: Vec::new(),
            current_buffer: self.current_buffer.clone(),
            current_token: self.current_token.duplicate(),
            period_count: self.period_count,
            next_char_escaped: self.next_char_escaped,
            functions: Vec::new(),
        };
        assert(probe.current_buffer@ =~= self.current_buffer@);
        let mut i: usize = 0;
        while i < chars.len()
            invariant
                i <= chars.len(),
                same_reading_state(probe@, lex_all(self@, chars@.take(i as int))),
                lex_all_ok(self@, chars@.take(i as int)),
            decreases chars.len() - i,
        {
            let ghost v = lex_all(self@, chars@.take(i as int));
            proof {
                assert(chars@.take(i + 1).drop_last() =~= chars@.take(i as int));
                lemma_same_reading_state_step(probe@, v, chars@[i as int]);
            }
            if !probe.can_process(chars[i]) {
                proof {
                    if lex_all_ok(self@, chars@) {
                        lemma_lex_prefix(self@, chars@, i + 1);
                    }
                }
                return false;
            }
            process_token(chars[i], &mut probe);
            i = i + 1;
        }
        assert(chars@.take(chars.len() as int) =~= chars@);
        true
    }
}

/// Two states that read alike: the same kind of token being read, the same
/// buffered characters, period count and escape flag (the tokens and
/// functions found may differ).
pub open spec fn same_reading_state(a: CompilerView, b: CompilerView) -> bool {
    &&& a.mode == b.mode
    &&& a.buffer == b.buffer
    &&& a.period_count == b.period_count
    &&& a.escaped == b.escaped
}

/// Whether a character can be read, and how the reading state changes,
/// does not depend on the tokens and functions found.
pub proof fn lemma_same_reading_state_step(a: CompilerView, b: CompilerView, c: char)
    requires
        same_reading_state(a, b),
    ensures
        lex_step_ok(a, c) == lex_step_ok(b, c),
        same_reading_state(lex_step(a, c), lex_step(b, c)),
{
}

/// Reads the characters of `chars`, one by one, in order.
pub fn process_chars(chars: &Vec<char>, compiler: &mut Compiler)
    requires
        lex_all_ok(old(compiler)@, chars@),
    ensures
        final(compiler)@ == lex_all(old(compiler)@, chars@),
{
    let ghost v = compiler@;
    let mut i: usize = 0;
    while i < chars.len()
        invariant
            i <= chars.len(),
            lex_all_ok(v, chars@),
            compiler@ == lex_all(v, chars@.take(i as int)),
        decreases chars.len() - i,
    {
        proof {
            lemma_lex_prefix(v, chars@, i + 1);
            assert(chars@.take(i + 1).drop_last() =~= chars@.take(i as int));
        }
        process_token(chars[i], compiler);
        i = i + 1;
    }
    assert(chars@.take(chars.len() as int) =~= chars@);
}

/// Reading characters never changes the functions found.
pub proof fn lemma_lex_all_keeps_functions(v: CompilerView, s: Seq<char>)
    ensures
        lex_all(v, s).functions == v.functions,
    decreases s.len(),
{
    if s.len() > 0 {
        lemma_lex_all_keeps_functions(v, s.drop_last());
    }
}

/// A character that may continue a word.
pub open spec fn is_word_char(c: char) -> bool {
    spec_is_alphabetic(c) || spec_is_digit(c) || c == '_'
}

/// The text of a word: not empty, not starting with a digit, made of
/// letters, digits and `_`.
pub open spec fn is_word(w: Seq<char>) -> bool {
    &&& w.len() > 0
    &&& !spec_is_digit(w[0])
    &&& forall|i: int| 0 <= i < w.len() ==> is_word_char(#[trigger] w[i])
}

/// The text kept of a numeric literal: its first digit, followed by `.`
/// where the literal held a period (further digits are not kept).
pub open spec fn is_number_text(w: Seq<char>) -> bool {
    ||| (w.len() == 1 && spec_is_digit(w[0]))
    ||| (w.len() == 2 && spec_is_digit(w[0]) && w[1] == '.')
}

/// What a token produced by the lexer looks like: never `Bogus`; a name is
/// a word that is no reserved word or type name; a reserved word other
/// than `pub` is a keyword; a data type is a type, not a reference; a
/// number is as `is_number_text` says.
pub open spec fn lexed_token_ok(tok: TokenView) -> bool {
    match tok {
        TokenView::Bogus => false,
        TokenView::Identifier { name } => is_word(name) && !spec_is_keyword(name) && !spec_is_datatype(name),
        TokenView::Keyword { name } => spec_is_keyword(name) && name != seq!['p', 'u', 'b'],
        TokenView::DataType { data_type } => !data_type.is_ref && data_type.data_type != DataType::NoType,
        TokenView::NumericLiteral { value } => is_number_text(value),
        _ => true,
    }
}

/// The states that the lexer can reach: it is in one of its reading modes;
/// between tokens nothing is buffered; a word or number being read is
/// buffered as it will be kept; only literals escape characters; at most
/// one period is ever counted, and one is counted whenever a number being
/// read holds one; and every token found is as `lexed_token_ok` says.
pub open spec fn lexer_wf(v: CompilerView) -> bool {
    &&& is_lexing_mode(v.mode)
    &&& (v.mode is Bogus ==> v.buffer.len() == 0)
    &&& (v.mode is Identifier ==> is_word(v.buffer))
    &&& (v.mode is NumericLiteral ==> is_number_text(v.buffer))
    &&& (v.mode is NumericLiteral && v.buffer.len() == 2 ==> v.period_count == 1)
    &&& (v.escaped ==> v.mode is StringLiteral || v.mode is CharLiteral)
    &&& v.period_count <= 1
    &&& forall|i: int| 0 <= i < v.tokens.len() ==> lexed_token_ok(#[trigger] v.tokens[i])
}

/// The state before any character is read is well formed.
pub proof fn lemma_initial_wf()
    ensures
        lexer_wf(initial_view()),
{
}

proof fn lemma_step_default_wf(v: CompilerView, c: char)
    requires
        lexer_wf(v),
        v.mode is Bogus,
    ensures
        lexer_wf(step_default(v, c)),
{
    let w = step_default(v, c);
    assert forall|i: int| 0 <= i < w.tokens.len() implies lexed_token_ok(#[trigger] w.tokens[i]) by {
        if i < v.tokens.len() {
            assert(w.tokens[i] == v.tokens[i]);
        }
    }
    if spec_is_alphabetic(c) || c == '_' {
        assert(w.buffer =~= seq![c]);
    }
    if spec_is_digit(c) {
        assert(w.buffer =~= seq![c]);
    }
}

/// Every step that is defined keeps the lexer's state well formed.
pub proof fn lemma_lex_step_wf(v: CompilerView, c: char)
    requires
        lexer_wf(v),
        lex_step_ok(v, c),
    ensures
        lexer_wf(lex_step(v, c)),
{
    match v.mode {
        TokenView::Bogus => lemma_step_default_wf(v, c),
        TokenView::NumericLiteral { .. } => {
            if !(spec_is_digit(c) || c == '_' || c == ',') && c != '.' {
                let f = finish_token(v, TokenView::NumericLiteral { value: v.buffer });
                assert forall|i: int| 0 <= i < f.tokens.len() implies lexed_token_ok(#[trigger] f.tokens[i]) by {
                    if i < v.tokens.len() {
                        assert(f.tokens[i] == v.tokens[i]);
                    }
                }
                lemma_step_default_wf(f, c);
            } else if c == '.' {
                let w = lex_step(v, c);
                assert(w.buffer[1] == '.');
            }
        },
        TokenView::Identifier { .. } => {
            if is_word_char(c) {
                let w = lex_step(v, c);
                assert forall|i: int| 0 <= i < w.buffer.len() implies is_word_char(#[trigger] w.buffer[i]) by {
                    if i < v.buffer.len() {
                        assert(w.buffer[i] == v.buffer[i]);
                    }
                }
            } else {
                let f = finish_token(v, word_token(v.buffer));
                assert forall|i: int| 0 <= i < f.tokens.len() implies lexed_token_ok(#[trigger] f.tokens[i]) by {
                    if i < v.tokens.len() {
                        assert(f.tokens[i] == v.tokens[i]);
                    }
                }
                lemma_step_default_wf(f, c);
            }
        },
        _ => {
            let w = lex_step(v, c);
            assert forall|i: int| 0 <= i < w.tokens.len() implies lexed_token_ok(#[trigger] w.tokens[i]) by {
                if i < v.tokens.len() {
                    assert(w.tokens[i] == v.tokens[i]);
                }
            }
        },
    }
}

/// Reading any text whose reading is defined keeps the state well formed.
pub proof fn lemma_lex_all_wf(v: CompilerView, s: Seq<char>)
    requires
        lexer_wf(v),
        lex_all_ok(v, s),
    ensures
        lexer_wf(lex_all(v, s)),
    decreases s.len(),
{
    if s.len() > 0 {
        lemma_lex_all_wf(v, s.drop_last());
        lemma_lex_step_wf(lex_all(v, s.drop_last()), s.last());
    }
}

/// Reading a character only appends tokens, at most two, and leaves the
/// tokens found before and the functions as they were.
pub proof fn lemma_lex_step_appends(v: CompilerView, c: char)
    ensures
        v.tokens.len() <= lex_step(v, c).tokens.len() <= v.tokens.len() + 2,
        lex_step(v, c).tokens.subrange(0, v.tokens.len() as int) == v.tokens,
        lex_step(v, c).functions == v.functions,
{
    let w = lex_step(v, c);
    assert(w.tokens.subrange(0, v.tokens.len() as int) =~= v.tokens);
}

/// Reading `a` and then `b` is reading `a + b`: the lexer can be fed a
/// text in pieces.
pub proof fn lemma_lex_all_concat(v: CompilerView, a: Seq<char>, b: Seq<char>)
    ensures
        lex_all(v, a + b) == lex_all(lex_all(v, a), b),
        lex_all_ok(v, a + b) == (lex_all_ok(v, a) && lex_all_ok(lex_all(v, a), b)),
    decreases b.len(),
{
    if b.len() == 0 {
        assert(a + b =~= a);
    } else {
        lemma_lex_all_concat(v, a, b.drop_last());
        assert((a + b).drop_last() =~= a + b.drop_last());
        assert((a + b).last() == b.last());
    }
}

/// Between tokens, a character that is no digit, letter, `_`, quote or
/// punctuation (a space, for one) is dropped: the state stays as it was.
pub proof fn lemma_unknown_char_dropped(v: CompilerView, c: char)
    requires
        v.mode is Bogus,
        !spec_is_digit(c),
        !spec_is_alphabetic(c),
        c != '_',
        c != '"',
        c != '\'',
        punctuation(c) is None,
    ensures
        lex_step(v, c) == v,
{
}

proof fn lemma_read_word_prefix(v: CompilerView, w: Seq<char>, k: int)
    requires
        v.mode is Bogus,
        v.buffer.len() == 0,
        is_word(w),
        1 <= k <= w.len(),
    ensures
        lex_all(v, w.take(k)) == (CompilerView {
            mode: TokenView::Identifier { name: Seq::empty() },
            buffer: w.take(k),
            ..v
        }),
    decreases k,
{
    assert(w.take(k).drop_last() =~= w.take(k - 1));
    assert(w.take(k).last() == w[k - 1]);
    assert(is_word_char(w[k - 1]));
    if k == 1 {
        assert(w.take(0) =~= Seq::<char>::empty());
        assert(v.buffer.push(w[0]) =~= w.take(1));
    } else {
        lemma_read_word_prefix(v, w, k - 1);
        assert(w.take(k - 1).push(w[k - 1]) =~= w.take(k));
    }
}

/// A word read from between tokens and ended by a character that cannot
/// continue it becomes one token, appended after the tokens found before:
/// `i64`, `u64` and `f64` give their 8-byte types and `bool` its 1-byte
/// type, none a reference; `pub` gives the public modifier; another
/// reserved word gives a keyword of that name; any other word gives a name.
/// The ending character is then read as between tokens.
pub proof fn lemma_word_becomes_token(v: CompilerView, w: Seq<char>, c: char)
    requires
        v.mode is Bogus,
        v.buffer.len() == 0,
        is_word(w),
        !is_word_char(c),
    ensures
        ({
            let r = lex_all(v, w.push(c));
            let n = v.tokens.len() as int;
            let tok = r.tokens[n];
            &&& r.tokens.len() > n
            &&& r.tokens.subrange(0, n) == v.tokens
            &&& r == lex_step(CompilerView { tokens: v.tokens.push(tok), ..v }, c)
            &&& (w == seq!['i', '6', '4'] ==> tok == TokenView::DataType {
                data_type: DataTypeStruct { data_type: DataType::I64 { size: 8 }, is_ref: false },
            })
            &&& (w == seq!['u', '6', '4'] ==> tok == TokenView::DataType {
                data_type: DataTypeStruct { data_type: DataType::U64 { size: 8 }, is_ref: false },
            })
            &&& (w == seq!['f', '6', '4'] ==> tok == TokenView::DataType {
                data_type: DataTypeStruct { data_type: DataType::F64 { size: 8 }, is_ref: false },
            })
            &&& (w == seq!['b', 'o', 'o', 'l'] ==> tok == TokenView::DataType {
                data_type: DataTypeStruct { data_type: DataType::Bool { size: 1 }, is_ref: false },
            })
            &&& (w == seq!['p', 'u', 'b'] ==> tok == TokenView::PubModifier)
            &&& (spec_is_keyword(w) && w != seq!['p', 'u', 'b'] ==> tok == TokenView::Keyword { name: w })
            &&& (!spec_is_keyword(w) && !spec_is_datatype(w) ==> tok == TokenView::Identifier { name: w })
        }),
{
    let n = v.tokens.len() as int;
    lemma_read_word_prefix(v, w, w.len() as int);
    assert(w.take(w.len() as int) =~= w);
    assert(w.push(c).drop_last() =~= w);
    let mid = lex_all(v, w);
    let f = finish_token(mid, word_token(w));
    assert(v.buffer =~= Seq::<char>::empty());
    assert(f == CompilerView { tokens: v.tokens.push(word_token(w)), ..v });
    let r = lex_all(v, w.push(c));
    assert(r == step_default(f, c));
    assert(r.tokens[n] == word_token(w));
    assert(r.tokens.subrange(0, n) =~= v.tokens);
    assert(seq!['i', '6', '4'] != seq!['p', 'u', 'b']);
}

proof fn lemma_read_string_prefix(v: CompilerView, s: Seq<char>, k: int)
    requires
        v.mode is Bogus,
        v.buffer.len() == 0,
        !v.escaped,
        forall|i: int| 0 <= i < s.len() ==> #[trigger] s[i] != '"' && s[i] != '\\',
        0 <= k <= s.len(),
    ensures
        lex_all(v, seq!['"'] + s.take(k)) == (CompilerView {
            mode: TokenView::StringLiteral { value: Seq::empty() },
            buffer: s.take(k),
            ..v
        }),
    decreases k,
{
    if k == 0 {
        let q = seq!['"'] + s.take(0);
        assert(q =~= seq!['"']);
        assert(q.drop_last() =~= Seq::<char>::empty());
        assert(q.last() == '"');
        assert(lex_all(v, q.drop_last()) == v);
        assert(lex_all(v, q) == lex_step(v, '"'));
        assert(s.take(0) =~= v.buffer);
    } else {
        lemma_read_string_prefix(v, s, k - 1);
        assert((seq!['"'] + s.take(k)).drop_last() =~= seq!['"'] + s.take(k - 1));
        assert((seq!['"'] + s.take(k)).last() == s[k - 1]);
        assert(s.take(k - 1).push(s[k - 1]) =~= s.take(k));
    }
}

/// A string literal read from between tokens, whose text holds no quote
/// and no backslash, appends exactly one string-literal token holding that
/// text and leaves the lexer between tokens as before: only the closing
/// `"` ends it.
pub proof fn lemma_string_literal(v: CompilerView, s: Seq<char>)
    requires
        v.mode is Bogus,
        v.buffer.len() == 0,
        !v.escaped,
        forall|i: int| 0 <= i < s.len() ==> #[trigger] s[i] != '"' && s[i] != '\\',
    ensures
        lex_all(v, seq!['"'] + s + seq!['"']) == (CompilerView {
            tokens: v.tokens.push(TokenView::StringLiteral { value: s }),
            ..v
        }),
{
    lemma_read_string_prefix(v, s, s.len() as int);
    assert(s.take(s.len() as int) =~= s);
    let q = seq!['"'] + s + seq!['"'];
    assert(q.drop_last() =~= seq!['"'] + s);
    assert(q.last() == '"');
    assert(v.buffer =~= Seq::<char>::empty());
    let mid = lex_all(v, seq!['"'] + s);
    assert(lex_all(v, q) == lex_step(mid, '"'));
    assert(lex_step(mid, '"') == finish_token(mid, TokenView::StringLiteral { value: s }));
}

} // verus!
