use vstd::prelude::*;
use crate::parser::token::{DataTypeStruct, Token, TokenView, tokens_view, lemma_tokens_view_index, lemma_tokens_view_push};
use crate::parser::compiler::{Compiler, CompilerView};
use crate::parser::classify::{str_eq, lemma_word_literals, KEYWORD_FUNCTION};

verus! {

/// The model of an optional token.
pub open spec fn opt_view(r: Option<Token>) -> Option<TokenView> {
    match r {
        Some(t) => Some(t@),
        None => None,
    }
}

/// The first position `k` with `start <= k < n` that holds `target`.
pub open spec fn first_index_of(t: Seq<TokenView>, n: int, start: int, target: TokenView) -> Option<int>
    decreases n - start,
{
    if start >= n {
        None
    } else if t[start] == target {
        Some(start)
    } else {
        first_index_of(t, n, start + 1, target)
    }
}

/// The search for `target` from `start` reads only positions inside `t`,
/// and, where `need_next`, the position after the one found as well.
pub open spec fn search_ok(t: Seq<TokenView>, n: int, start: int, target: TokenView, need_next: bool) -> bool {
    match first_index_of(t, n, start, target) {
        Some(k) => k < t.len() && (need_next ==> k + 1 < t.len()),
        None => n <= t.len() || n <= start,
    }
}

/// The code of the merged token at position `idx` of the first `n` tokens of
/// `t`, and the number of tokens to skip after it (`skip` where that count is
/// left as it was). Comments (`//` to the end of the line, `/*` to `*/`) and
/// line breaks give no token; `->`, `&&` and `||` become one token; `&` before
/// a data type makes it a reference; `pub fn name` and `fn name` become a
/// function definition; `: type` becomes the type; a name followed by a type
/// becomes a typed variable; every other token stands for itself.
pub open spec fn jti_spec(t: Seq<TokenView>, n: int, idx: int, skip: int) -> (Option<TokenView>, int)
    decreases n - idx,
{
    if idx < 0 || idx >= n {
        (None, skip)
    } else {
        match t[idx] {
            TokenView::Slash => match t[idx + 1] {
                TokenView::Slash => match first_index_of(t, n, idx + 2, TokenView::NewLine) {
                    Some(k) => (None, k - idx),
                    None => (None, skip),
                },
                TokenView::Asterisk => match first_index_of(t, n, idx + 2, TokenView::Asterisk) {
                    Some(k) => if t[k + 1] is Slash {
                        (None, k + 1 - idx)
                    } else {
                        (None, skip)
                    },
                    None => (None, skip),
                },
                _ => (None, skip),
            },
            TokenView::NewLine => (None, skip),
            TokenView::Minus => (Some(TokenView::ArrowRight), 1),
            TokenView::Ampersand => match t[idx + 1] {
                TokenView::DataType { data_type } => (
                    Some(TokenView::DataType { data_type: DataTypeStruct { is_ref: true, ..data_type } }),
                    1,
                ),
                TokenView::Ampersand => (Some(TokenView::LogicalAnd), 1),
                _ => (None, skip),
            },
            TokenView::Pipe => (Some(TokenView::LogicalOr), 1),
            TokenView::PubModifier => {
                let (r, s) = jti_spec(t, n, idx + 1, skip);
                match r {
                    Some(TokenView::FunctionDefinition { name, .. }) => (
                        Some(TokenView::FunctionDefinition { name, public: true }),
                        s + 1,
                    ),
                    _ => (None, s),
                }
            },
            TokenView::Keyword { name } => if name == seq!['f', 'n'] {
                let (r, s) = jti_spec(t, n, idx + 1, skip);
                match r {
                    Some(TokenView::Identifier { name: id }) => (
                        Some(TokenView::FunctionDefinition { name: id, public: false }),
                        1,
                    ),
                    _ => (None, s),
                }
            } else {
                (Some(t[idx]), skip)
            },
            TokenView::Colon => {
                let (r, s) = jti_spec(t, n, idx + 1, skip);
                match r {
                    Some(TokenView::DataType { .. }) => (r, 1),
                    _ => (None, s),
                }
            },
            TokenView::DataType { .. } => (Some(t[idx]), 0),
            TokenView::Identifier { name } => {
                let (r, s) = jti_spec(t, n, idx + 1, skip);
                match r {
                    Some(TokenView::DataType { data_type }) => (
                        Some(TokenView::TypedVariable { name, data_type }),
                        s + 1,
                    ),
                    Some(_) => (Some(TokenView::Identifier { name }), 0),
                    None => (None, s),
                }
            },
            _ => (Some(t[idx]), skip),
        }
    }
}

/// Merging at position `idx` of the first `n` tokens of `t` is defined: it
/// reads only positions inside `t`; a `/` starts a comment and is not the
/// last token, a `-` is followed by `>`, a `|` by another `|`; and the same
/// holds where a `pub`, `fn`, `:` or name looks at the token after it.
pub open spec fn jti_ok(t: Seq<TokenView>, n: int, idx: int) -> bool
    decreases n - idx,
{
    if idx < 0 || idx >= n {
        true
    } else if idx >= t.len() {
        false
    } else {
        match t[idx] {
            TokenView::Slash => idx + 1 < n && idx + 1 < t.len() && match t[idx + 1] {
                TokenView::Slash => search_ok(t, n, idx + 2, TokenView::NewLine, false),
                TokenView::Asterisk => search_ok(t, n, idx + 2, TokenView::Asterisk, true),
                _ => false,
            },
            TokenView::Minus => idx + 1 < n && idx + 1 < t.len() && t[idx + 1] is CloseAngle,
            TokenView::Ampersand => idx + 1 < t.len(),
            TokenView::Pipe => idx + 1 < n && idx + 1 < t.len() && t[idx + 1] is Pipe,
            TokenView::PubModifier => jti_ok(t, n, idx + 1),
            TokenView::Keyword { name } => name == seq!['f', 'n'] ==> jti_ok(t, n, idx + 1),
            TokenView::Colon => jti_ok(t, n, idx + 1),
            TokenView::Identifier { .. } => jti_ok(t, n, idx + 1),
            _ => true,
        }
    }
}

/// The tokens that a merge result contributes: none for no token or
/// `Bogus`, else the token.
pub open spec fn emitted(r: Option<TokenView>) -> Seq<TokenView> {
    match r {
        Some(tok) => if tok is Bogus {
            Seq::empty()
        } else {
            seq![tok]
        },
        None => Seq::empty(),
    }
}

/// The merged tokens from position `idx` on, with `skip` tokens still to skip.
pub open spec fn merge_from(t: Seq<TokenView>, idx: int, skip: int) -> Seq<TokenView>
    decreases t.len() - idx,
{
    if idx < 0 || idx >= t.len() {
        Seq::empty()
    } else if skip > 0 {
        merge_from(t, idx + 1, skip - 1)
    } else {
        let (r, s) = jti_spec(t, t.len() as int, idx, 0);
        emitted(r) + merge_from(t, idx + 1, s)
    }
}

/// Merging from position `idx` on, with `skip` tokens still to skip, is defined.
pub open spec fn merge_ok_from(t: Seq<TokenView>, idx: int, skip: int) -> bool
    decreases t.len() - idx,
{
    if idx < 0 || idx >= t.len() {
        true
    } else if skip > 0 {
        merge_ok_from(t, idx + 1, skip - 1)
    } else {
        jti_ok(t, t.len() as int, idx) && merge_ok_from(t, idx + 1, jti_spec(t, t.len() as int, idx, 0).1)
    }
}

/// The token list after the merging pass.
pub open spec fn merged(t: Seq<TokenView>) -> Seq<TokenView> {
    merge_from(t, 0, 0)
}

/// The merging pass is defined on `t`.
pub open spec fn merge_ok(t: Seq<TokenView>) -> bool {
    merge_ok_from(t, 0, 0)
}

proof fn lemma_first_index_of_range(t: Seq<TokenView>, n: int, start: int, target: TokenView)
    ensures
        first_index_of(t, n, start, target) matches Some(k) ==> start <= k < n && t[k] == target,
    decreases n - start,
{
    if start < n && t[start] != target {
        lemma_first_index_of_range(t, n, start + 1, target);
    }
}

/// The skip count that merging leaves is at least zero and at most the
/// skip count before plus the number of tokens left.
pub proof fn lemma_jti_skip_bound(t: Seq<TokenView>, n: int, idx: int, skip: int)
    requires
        0 <= idx,
        0 <= skip,
        jti_ok(t, n, idx),
    ensures
        0 <= jti_spec(t, n, idx, skip).1,
        idx < n ==> jti_spec(t, n, idx, skip).1 <= skip + (n - idx),
        idx >= n ==> jti_spec(t, n, idx, skip).1 == skip,
    decreases n - idx,
{
    if idx < n {
        match t[idx] {
            TokenView::Slash => {
                lemma_first_index_of_range(t, n, idx + 2, TokenView::NewLine);
                lemma_first_index_of_range(t, n, idx + 2, TokenView::Asterisk);
            },
            TokenView::PubModifier | TokenView::Colon | TokenView::Identifier { .. } => {
                lemma_jti_skip_bound(t, n, idx + 1, skip);
            },
            TokenView::Keyword { name } => {
                if name == seq!['f', 'n'] {
                    lemma_jti_skip_bound(t, n, idx + 1, skip);
                }
            },
            _ => {},
        }
    }
}

/// No skip count that merging at position `idx` increments is already at
/// the largest `usize`: a `pub` before a function definition, or a name
/// before a type, adds one to the count that the token after it left.
pub open spec fn jti_fits(t: Seq<TokenView>, n: int, idx: int, skip: int) -> bool
    decreases n - idx,
{
    if idx < 0 || idx >= n {
        true
    } else {
        match t[idx] {
            TokenView::PubModifier => {
                let (r, s) = jti_spec(t, n, idx + 1, skip);
                jti_fits(t, n, idx + 1, skip) && (r matches Some(TokenView::FunctionDefinition { .. })
                    ==> s < usize::MAX)
            },
            TokenView::Keyword { name } => name == seq!['f', 'n'] ==> jti_fits(t, n, idx + 1, skip),
            TokenView::Colon => jti_fits(t, n, idx + 1, skip),
            TokenView::Identifier { .. } => {
                let (r, s) = jti_spec(t, n, idx + 1, skip);
                jti_fits(t, n, idx + 1, skip) && (r matches Some(TokenView::DataType { .. }) ==> s
                    < usize::MAX)
            },
            _ => true,
        }
    }
}

/// Where the skip count plus the tokens left stay within `usize`, no
/// increment overflows.
pub proof fn lemma_jti_fits(t: Seq<TokenView>, n: int, idx: int, skip: int)
    requires
        0 <= idx,
        0 <= skip,
        skip + n <= usize::MAX,
        jti_ok(t, n, idx),
    ensures
        jti_fits(t, n, idx, skip),
    decreases n - idx,
{
    if idx < n {
        match t[idx] {
            TokenView::PubModifier | TokenView::Colon | TokenView::Identifier { .. } => {
                lemma_jti_fits(t, n, idx + 1, skip);
                lemma_jti_skip_bound(t, n, idx + 1, skip);
            },
            TokenView::Keyword { name } => {
                if name == seq!['f', 'n'] {
                    lemma_jti_fits(t, n, idx + 1, skip);
                }
            },
            _ => {},
        }
    }
}

proof fn lemma_search_position(t: Seq<TokenView>, n: int, start: int, k: int, target: TokenView)
    requires
        start <= k < n,
        first_index_of(t, n, start, target) == first_index_of(t, n, k, target),
        search_ok(t, n, start, target, false),
    ensures
        k < t.len(),
{
    lemma_first_index_of_range(t, n, k, target);
}

/// Merges the token at position `idx` of the first `old_token_count` tokens
/// with those after it, as `jti_spec` says; `skip_count` receives the number
/// of tokens that the result covers beyond the first.
fn jti(compiler: &Compiler, skip_count: &mut usize, idx: usize, old_token_count: usize) -> (r: Option<Token>)
    requires
        jti_ok(compiler@.tokens, old_token_count as int, idx as int),
        jti_fits(compiler@.tokens, old_token_count as int, idx as int, *old(skip_count) as int),
    ensures
        (opt_view(r), *final(skip_count) as int) == jti_spec(
            compiler@.tokens,
            old_token_count as int,
            idx as int,
            *old(skip_count) as int,
        ),
    decreases old_token_count - idx,
{
    let ghost t = compiler@.tokens;
    let ghost n = old_token_count as int;
    if idx >= old_token_count {
        return None;
    }
    proof {
        lemma_tokens_view_index(compiler.tokens@);
    }
    let token = &compiler.tokens[idx];
    match token {
        Token::Slash => {
            match &compiler.tokens[idx + 1] {
                Token::Slash => {
                    let mut look_ahead_count: usize = idx + 2;
                    while look_ahead_count < old_token_count
                        invariant
                            idx + 2 <= look_ahead_count <= old_token_count,
                            t == compiler@.tokens,
                            n == old_token_count,
                            t.len() == compiler.tokens@.len(),
                            forall|i: int| 0 <= i < compiler.tokens@.len() ==> #[trigger] t[i] == compiler.tokens@[i]@,
                            first_index_of(t, n, idx + 2, TokenView::NewLine) == first_index_of(t, n, look_ahead_count as int, TokenView::NewLine),
                            search_ok(t, n, idx + 2, TokenView::NewLine, false),
                            idx < n,
                            t[idx as int] is Slash,
                            t[idx + 1] is Slash,
                            *skip_count == *old(skip_count),
                        decreases old_token_count - look_ahead_count,
                    {
                        proof {
                            lemma_search_position(t, n, idx + 2, look_ahead_count as int, TokenView::NewLine);
                        }
                        match &compiler.tokens[look_ahead_count] {
                            Token::NewLine => {
                                assert(first_index_of(t, n, look_ahead_count as int, TokenView::NewLine)
                                    == Some(look_ahead_count as int));
                                *skip_count = look_ahead_count - idx;
                                return None;
                            },
                            _ => {},
                        }
                        look_ahead_count = look_ahead_count + 1;
                    }
                    return None;
                },
                Token::Asterisk => {
                    let mut look_ahead_count: usize = idx + 2;
                    while look_ahead_count < old_token_count
                        invariant
                            idx + 2 <= look_ahead_count <= old_token_count,
                            t == compiler@.tokens,
                            n == old_token_count,
                            t.len() == compiler.tokens@.len(),
                            forall|i: int| 0 <= i < compiler.tokens@.len() ==> #[trigger] t[i] == compiler.tokens@[i]@,
                            first_index_of(t, n, idx + 2, TokenView::Asterisk) == first_index_of(t, n, look_ahead_count as int, TokenView::Asterisk),
                            search_ok(t, n, idx + 2, TokenView::Asterisk, true),
                            idx < n,
                            t[idx as int] is Slash,
                            t[idx + 1] is Asterisk,
                            *skip_count == *old(skip_count),
                        decreases old_token_count - look_ahead_count,
                    {
                        proof {
                            lemma_search_position(t, n, idx + 2, look_ahead_count as int, TokenView::Asterisk);
                        }
                        match &compiler.tokens[look_ahead_count] {
                            Token::Asterisk => {
                                assert(first_index_of(t, n, look_ahead_count as int, TokenView::Asterisk)
                                    == Some(look_ahead_count as int));
                                match &compiler.tokens[look_ahead_count + 1] {
                                    Token::Slash => {
                                        *skip_count = look_ahead_count + 1 - idx;
                                        return None;
                                    },
                                    _ => {},
                                }
                                return None;
                            },
                            _ => {},
                        }
                        look_ahead_count = look_ahead_count + 1;
                    }
                    return None;
                },
                _ => {},
            }
        },
        Token::NewLine => return None,
        Token::Minus => {
            match &compiler.tokens[idx + 1] {
                Token::CloseAngle => {
                    *skip_count = 1;
                    return Some(Token::ArrowRight);
                },
                _ => {},
            }
        },
        Token::Ampersand => match &compiler.tokens[idx + 1] {
            Token::DataType { data_type } => {
                *skip_count = 1;
                let mut data_type = *data_type;
                data_type.is_ref = true;
                return Some(Token::DataType { data_type: data_type });
            },
            Token::Ampersand => {
                *skip_count = 1;
                return Some(Token::LogicalAnd);
            },
            _ => return None,
        },
        Token::Pipe => {
            match &compiler.tokens[idx + 1] {
                Token::Pipe => {
                    *skip_count = 1;
                    return Some(Token::LogicalOr);
                },
                _ => {},
            }
        },
        Token::PubModifier => {
            match jti(compiler, skip_count, idx + 1, old_token_count) {
                Some(token) => {
                    match token {
                        Token::FunctionDefinition { name, .. } => {
                            *skip_count = *skip_count + 1;
                            return Some(Token::FunctionDefinition { name, public: true });
                        },
                        _ => {
                            return None;
                        },
                    }
                },
                None => {
                    return None;
                },
            }
        },
        Token::Keyword { name } => {
            proof {
                lemma_word_literals();
            }
            if str_eq(name.as_str(), KEYWORD_FUNCTION) {
                match jti(compiler, skip_count, idx + 1, old_token_count) {
                    Some(token) => {
                        match token {
                            Token::Identifier { name } => {
                                *skip_count = 1;
                                return Some(Token::FunctionDefinition { name, public: false });
                            },
                            _ => {
                                return None;
                            },
                        }
                    },
                    None => {
                        return None;
                    },
                }
            } else {
                return Some(token.duplicate());
            }
        },
        Token::Colon => match jti(compiler, skip_count, idx + 1, old_token_count) {
            Some(token) => {
                match token {
                    Token::DataType { .. } => {
                        *skip_count = 1;
                        return Some(token);
                    },
                    _ => {
                        return None;
                    },
                }
            },
            None => {
                return None;
            },
        },
        Token::DataType { .. } => {
            *skip_count = 0;
            return Some(token.duplicate());
        },
        Token::Identifier { name } => {
            match jti(compiler, skip_count, idx + 1, old_token_count) {
                Some(token) => match token {
                    Token::DataType { data_type } => {
                        *skip_count = *skip_count + 1;
                        return Some(Token::TypedVariable { name: name.clone(), data_type });
                    },
                    _ => {
                        *skip_count = 0;
                        return Some(Token::Identifier { name: name.clone() });
                    },
                },
                None => {
                    return None;
                },
            }
        },
        _ => {
            return Some(token.duplicate());
        },
    };
    // a `/` that starts no comment, a `-` not before `>` and a `|` not
    // before `|` end here; the precondition rules all three out
    proof {
        assert(false);
    }
    None
}

/// The merging pass: rewrites the token list as `merged` says, leaving the
/// rest of the state as it was.
pub fn merge_tokens_round_one(compiler: &mut Compiler)
    requires
        merge_ok(old(compiler)@.tokens),
    ensures
        final(compiler)@ == (CompilerView { tokens: merged(old(compiler)@.tokens), ..old(compiler)@ }),
{
    let ghost t = compiler@.tokens;
    let mut tokens: Vec<Token> = Vec::new();
    let mut skip_count: usize = 0;
    let token_count: usize = compiler.tokens.len();
    proof {
        lemma_tokens_view_index(compiler.tokens@);
    }
    let mut idx: usize = 0;
    while idx < token_count
        invariant
            idx <= token_count,
            token_count == compiler.tokens@.len(),
            t == compiler@.tokens,
            t.len() == token_count,
            skip_count <= token_count,
            merge_ok_from(t, idx as int, skip_count as int),
            tokens_view(tokens@) + merge_from(t, idx as int, skip_count as int) == merged(t),
        decreases token_count - idx,
    {
        if skip_count > 0 {
            skip_count = skip_count - 1;
            idx = idx + 1;
            continue;
        }
        let ghost before = tokens_view(tokens@);
        proof {
            lemma_jti_skip_bound(t, t.len() as int, idx as int, 0);
            lemma_jti_fits(t, t.len() as int, idx as int, 0);
        }
        match jti(compiler, &mut skip_count, idx, token_count) {
            Some(token) => match token {
                Token::Bogus => {},
                _ => {
                    proof {
                        lemma_tokens_view_push(tokens@, token);
                    }
                    tokens.push(token);
                },
            },
            None => {},
        }
        proof {
            let (r, s) = jti_spec(t, t.len() as int, idx as int, 0);
            assert(tokens_view(tokens@) == before + emitted(r));
            assert(before + (emitted(r) + merge_from(t, idx + 1, s)) =~= before + emitted(r) + merge_from(t, idx + 1, s));
        }
        idx = idx + 1;
    }
    assert(tokens_view(tokens@) =~= merged(t));
    compiler.tokens = tokens;
}

/// Whether the search for a comment's end from `start` reads only
/// positions inside the token list.
fn search_defined(compiler: &Compiler, n: usize, start: usize, block: bool) -> (r: bool)
    ensures
        r == search_ok(
            compiler@.tokens,
            n as int,
            start as int,
            if block { TokenView::Asterisk } else { TokenView::NewLine },
            block,
        ),
{
    let ghost t = compiler@.tokens;
    let ghost target = if block { TokenView::Asterisk } else { TokenView::NewLine };
    proof {
        lemma_tokens_view_index(compiler.tokens@);
    }
    let len = compiler.tokens.len();
    let mut k: usize = start;
    while k < n
        invariant
            start <= k,
            k <= n || k == start,
            len == compiler.tokens@.len(),
            t == compiler@.tokens,
            t.len() == len,
            forall|i: int| 0 <= i < len ==> #[trigger] t[i] == compiler.tokens@[i]@,
            k <= len || k == start,
            target == (if block { TokenView::Asterisk } else { TokenView::NewLine }),
            first_index_of(t, n as int, start as int, target) == first_index_of(t, n as int, k as int, target),
        decreases n - k,
    {
        if k >= len {
            proof {
                lemma_first_index_of_range(t, n as int, k as int, target);
            }
            return false;
        }
        let hit = match &compiler.tokens[k] {
            Token::Asterisk => block,
            Token::NewLine => !block,
            _ => false,
        };
        if hit {
            assert(first_index_of(t, n as int, k as int, target) == Some(k as int));
            return !block || k + 1 < len;
        }
        k = k + 1;
    }
    true
}

/// Whether merging at position `idx` of the first `n` tokens is defined.
fn jti_defined(compiler: &Compiler, idx: usize, n: usize) -> (r: bool)
    ensures
        r == jti_ok(compiler@.tokens, n as int, idx as int),
    decreases n - idx,
{
    if idx >= n {
        return true;
    }
    let len = compiler.tokens.len();
    proof {
        lemma_tokens_view_index(compiler.tokens@);
    }
    if idx >= len {
        return false;
    }
    proof {
        lemma_word_literals();
    }
    match &compiler.tokens[idx] {
        Token::Slash => {
            if !(idx + 1 < n && idx + 1 < len) {
                return false;
            }
            match &compiler.tokens[idx + 1] {
                Token::Slash => search_defined(compiler, n, idx + 2, false),
                Token::Asterisk => search_defined(compiler, n, idx + 2, true),
                _ => false,
            }
        },
        Token::Minus => idx + 1 < n && idx + 1 < len && match &compiler.tokens[idx + 1] {
            Token::CloseAngle => true,
            _ => false,
        },
        Token::Ampersand => idx + 1 < len,
        Token::Pipe => idx + 1 < n && idx + 1 < len && match &compiler.tokens[idx + 1] {
            Token::Pipe => true,
            _ => false,
        },
        Token::PubModifier => jti_defined(compiler, idx + 1, n),
        Token::Keyword { name } => {
            if str_eq(name.as_str(), KEYWORD_FUNCTION) {
                jti_defined(compiler, idx + 1, n)
            } else {
                true
            }
        },
        Token::Colon => jti_defined(compiler, idx + 1, n),
        Token::Identifier { .. } => jti_defined(compiler, idx + 1, n),
        _ => true,
    }
}

/// Whether the merging pass is defined on the current tokens.
pub fn merge_is_defined(compiler: &Compiler) -> (r: bool)
    ensures
        r == merge_ok(compiler@.tokens),
{
    let ghost t = compiler@.tokens;
    let mut skip_count: usize = 0;
    let token_count: usize = compiler.tokens.len();
    proof {
        lemma_tokens_view_index(compiler.tokens@);
    }
    let mut idx: usize = 0;
    while idx < token_count
        invariant
            idx <= token_count,
            token_count == compiler.tokens@.len(),
            t == compiler@.tokens,
            t.len() == token_count,
            skip_count <= token_count,
            merge_ok(t) == merge_ok_from(t, idx as int, skip_count as int),
        decreases token_count - idx,
    {
        if skip_count > 0 {
            skip_count = skip_count - 1;
            idx = idx + 1;
            continue;
        }
        if !jti_defined(compiler, idx, token_count) {
            return false;
        }
        proof {
            lemma_jti_skip_bound(t, t.len() as int, idx as int, 0);
            lemma_jti_fits(t, t.len() as int, idx as int, 0);
        }
        let _ = jti(compiler, &mut skip_count, idx, token_count);
        idx = idx + 1;
    }
    true
}

/// A token that merging leaves only in resolved form: no comment start, line
/// break, `-`, `|`, `&`, `:`, `pub` or `fn` is left on its own, and no `Bogus`.
pub open spec fn is_resolved(tok: TokenView) -> bool {
    &&& !(tok is Bogus)
    &&& !(tok is NewLine)
    &&& !(tok is Slash)
    &&& !(tok is Minus)
    &&& !(tok is Pipe)
    &&& !(tok is Ampersand)
    &&& !(tok is Colon)
    &&& !(tok is PubModifier)
    &&& !(tok matches TokenView::Keyword { name } && name == seq!['f', 'n'])
}

proof fn lemma_jti_resolved(t: Seq<TokenView>, n: int, idx: int, skip: int)
    ensures
        jti_spec(t, n, idx, skip).0 matches Some(tok) ==> tok is Bogus || is_resolved(tok),
    decreases n - idx,
{
    if 0 <= idx < n {
        lemma_jti_resolved(t, n, idx + 1, skip);
    }
}

proof fn lemma_merge_from_resolved(t: Seq<TokenView>, idx: int, skip: int)
    requires
        0 <= idx,
    ensures
        merge_from(t, idx, skip).len() <= if idx <= t.len() { t.len() - idx } else { 0 },
        forall|i: int| 0 <= i < merge_from(t, idx, skip).len() ==> is_resolved(#[trigger] merge_from(t, idx, skip)[i]),
    decreases t.len() - idx,
{
    if idx < t.len() {
        if skip > 0 {
            lemma_merge_from_resolved(t, idx + 1, skip - 1);
        } else {
            let (r, s) = jti_spec(t, t.len() as int, idx, 0);
            lemma_jti_resolved(t, t.len() as int, idx, 0);
            lemma_merge_from_resolved(t, idx + 1, s);
            let rest = merge_from(t, idx + 1, s);
            assert forall|i: int| 0 <= i < merge_from(t, idx, skip).len() implies is_resolved(#[trigger] merge_from(t, idx, skip)[i]) by {
                if i >= emitted(r).len() {
                    assert(merge_from(t, idx, skip)[i] == rest[i - emitted(r).len()]);
                }
            }
        }
    }
}

/// Merging never makes the token list longer, and leaves every token in
/// resolved form: comments and line breaks are gone, and no `-`, `|`, `&`,
/// `:`, `pub`, `fn` or `Bogus` token stands on its own.
pub proof fn lemma_merged_resolved(t: Seq<TokenView>)
    ensures
        merged(t).len() <= t.len(),
        forall|i: int| 0 <= i < merged(t).len() ==> is_resolved(#[trigger] merged(t)[i]),
{
    lemma_merge_from_resolved(t, 0, 0);
}

/// No token of `t` is `Bogus`.
pub open spec fn no_bogus(t: Seq<TokenView>) -> bool {
    forall|i: int| 0 <= i < t.len() ==> !(#[trigger] t[i] is Bogus)
}

/// Every name in `u` is followed by a token, and that token is no data type.
pub open spec fn names_followed(u: Seq<TokenView>) -> bool {
    forall|i: int|
        0 <= i < u.len() && (#[trigger] u[i]) is Identifier ==> i + 1 < u.len() && !(u[i + 1] is DataType)
}

proof fn lemma_jti_not_bogus(t: Seq<TokenView>, n: int, idx: int, skip: int)
    requires
        n <= t.len(),
        no_bogus(t),
    ensures
        jti_spec(t, n, idx, skip).0 matches Some(tok) ==> !(tok is Bogus),
    decreases n - idx,
{
    if 0 <= idx < n {
        lemma_jti_not_bogus(t, n, idx + 1, skip);
    }
}

proof fn lemma_merge_from_names_followed(t: Seq<TokenView>, idx: int, skip: int)
    requires
        0 <= idx,
        no_bogus(t),
    ensures
        names_followed(merge_from(t, idx, skip)),
    decreases t.len() - idx,
{
    if idx < t.len() {
        if skip > 0 {
            lemma_merge_from_names_followed(t, idx + 1, skip - 1);
        } else {
            let n = t.len() as int;
            let (r, s) = jti_spec(t, n, idx, 0);
            lemma_merge_from_names_followed(t, idx + 1, s);
            let rest = merge_from(t, idx + 1, s);
            let all = merge_from(t, idx, skip);
            assert(all == emitted(r) + rest);
            if r matches Some(TokenView::Identifier { .. }) {
                let (r2, s2) = jti_spec(t, n, idx + 1, 0);
                lemma_jti_not_bogus(t, n, idx + 1, 0);
                assert(t[idx] is Identifier);
                assert(s == 0);
                assert(r2 is Some && !(r2->0 is DataType));
                assert(rest == emitted(r2) + merge_from(t, idx + 2, s2));
                assert(rest[0] == r2->0);
            }
            assert forall|i: int| 0 <= i < all.len() && (#[trigger] all[i]) is Identifier implies i + 1 < all.len()
                && !(all[i + 1] is DataType) by {
                if i >= emitted(r).len() {
                    assert(all[i] == rest[i - emitted(r).len()]);
                    assert(all[i + 1] == rest[i + 1 - emitted(r).len()]);
                }
            }
        }
    }
}

proof fn lemma_jti_on_merged(u: Seq<TokenView>, idx: int, skip: int)
    requires
        0 <= idx < u.len(),
        forall|i: int| 0 <= i < u.len() ==> is_resolved(#[trigger] u[i]),
        names_followed(u),
    ensures
        jti_ok(u, u.len() as int, idx),
        jti_spec(u, u.len() as int, idx, skip) == (
            Some(u[idx]),
            if u[idx] is DataType || u[idx] is Identifier { 0 } else { skip },
        ),
    decreases u.len() - idx,
{
    assert(is_resolved(u[idx]));
    if u[idx] is Identifier {
        lemma_jti_on_merged(u, idx + 1, skip);
    }
}

proof fn lemma_merge_from_on_merged(u: Seq<TokenView>, idx: int)
    requires
        0 <= idx <= u.len(),
        forall|i: int| 0 <= i < u.len() ==> is_resolved(#[trigger] u[i]),
        names_followed(u),
    ensures
        merge_ok_from(u, idx, 0),
        merge_from(u, idx, 0) == u.subrange(idx, u.len() as int),
    decreases u.len() - idx,
{
    if idx < u.len() {
        lemma_jti_on_merged(u, idx, 0);
        lemma_merge_from_on_merged(u, idx + 1);
        assert(is_resolved(u[idx]));
        assert(seq![u[idx]] + u.subrange(idx + 1, u.len() as int) =~= u.subrange(idx, u.len() as int));
    } else {
        assert(u.subrange(idx, u.len() as int) =~= Seq::<TokenView>::empty());
    }
}

/// Merging a token list with no `Bogus` token gives a list that merging is
/// defined on and leaves as it is: merging twice is merging once.
pub proof fn lemma_merge_idempotent(t: Seq<TokenView>)
    requires
        no_bogus(t),
    ensures
        merge_ok(merged(t)),
        merged(merged(t)) == merged(t),
{
    let u = merged(t);
    lemma_merged_resolved(t);
    lemma_merge_from_names_followed(t, 0, 0);
    lemma_merge_from_on_merged(u, 0);
    assert(u.subrange(0, u.len() as int) =~= u);
}

/// An `&` followed by neither a data type nor another `&` gives no token and
/// covers only itself: merging from it is merging from the token after it,
/// and is defined exactly when that is.
pub proof fn lemma_lone_ampersand(t: Seq<TokenView>, idx: int)
    requires
        0 <= idx,
        idx + 1 < t.len(),
        t[idx] is Ampersand,
        !(t[idx + 1] is DataType),
        !(t[idx + 1] is Ampersand),
    ensures
        merge_from(t, idx, 0) == merge_from(t, idx + 1, 0),
        merge_ok_from(t, idx, 0) == merge_ok_from(t, idx + 1, 0),
{
    assert(jti_spec(t, t.len() as int, idx, 0) == (None::<TokenView>, 0int));
    assert(emitted(None) + merge_from(t, idx + 1, 0) =~= merge_from(t, idx + 1, 0));
}

proof fn lemma_first_index_of_shift(p: Seq<TokenView>, u: Seq<TokenView>, n: int, k: int, target: TokenView)
    requires
        0 <= k,
        n <= u.len(),
    ensures
        first_index_of(p + u, p.len() + n, p.len() + k, target) == (match first_index_of(u, n, k, target) {
            Some(j) => Some(j + p.len()),
            None => None,
        }),
    decreases n - k,
{
    if k < n {
        assert((p + u)[p.len() + k] == u[k]);
        lemma_first_index_of_shift(p, u, n, k + 1, target);
    }
}

/// Merging at a position reads only that position and the ones after it.
proof fn lemma_jti_shift(p: Seq<TokenView>, u: Seq<TokenView>, idx: int, skip: int)
    requires
        0 <= idx,
        jti_ok(u, u.len() as int, idx),
    ensures
        jti_ok(p + u, (p + u).len() as int, p.len() + idx),
        ({
            let (r, s) = jti_spec(u, u.len() as int, idx, skip);
            let (r2, s2) = jti_spec(p + u, (p + u).len() as int, p.len() + idx, skip);
            r2 == r && s2 == s
        }),
    decreases u.len() - idx,
{
    let t = p + u;
    let m = p.len() as int;
    let n = u.len() as int;
    assert(t.len() == m + n);
    if idx < n {
        assert(t[m + idx] == u[idx]);
        if idx + 1 < n {
            assert(t[m + idx + 1] == u[idx + 1]);
        }
        match u[idx] {
            TokenView::Slash => {
                lemma_first_index_of_shift(p, u, n, idx + 2, TokenView::NewLine);
                lemma_first_index_of_shift(p, u, n, idx + 2, TokenView::Asterisk);
                lemma_first_index_of_range(u, n, idx + 2, TokenView::Asterisk);
                match first_index_of(u, n, idx + 2, TokenView::Asterisk) {
                    Some(k) => {
                        if k + 1 < n {
                            assert(t[m + k + 1] == u[k + 1]);
                        }
                    },
                    None => {},
                }
            },
            TokenView::PubModifier | TokenView::Colon | TokenView::Identifier { .. } => {
                lemma_jti_shift(p, u, idx + 1, skip);
            },
            TokenView::Keyword { name } => {
                if name == seq!['f', 'n'] {
                    lemma_jti_shift(p, u, idx + 1, skip);
                }
            },
            _ => {},
        }
    }
}

/// Merging from a position depends only on the tokens from there on.
proof fn lemma_merge_from_shift(p: Seq<TokenView>, u: Seq<TokenView>, idx: int, skip: int)
    requires
        0 <= idx,
        merge_ok_from(u, idx, skip),
    ensures
        merge_ok_from(p + u, p.len() + idx, skip),
        merge_from(p + u, p.len() + idx, skip) == merge_from(u, idx, skip),
    decreases u.len() - idx,
{
    let t = p + u;
    assert(t.len() == p.len() + u.len());
    if idx < u.len() {
        if skip > 0 {
            lemma_merge_from_shift(p, u, idx + 1, skip - 1);
        } else {
            lemma_jti_shift(p, u, idx, 0);
            let (r, s) = jti_spec(u, u.len() as int, idx, 0);
            lemma_merge_from_shift(p, u, idx + 1, s);
        }
    }
}

/// A leading `&` followed by neither a data type nor another `&` is simply
/// dropped: the rest of the list is merged as if it were not there.
pub proof fn lemma_leading_lone_ampersand(u: Seq<TokenView>)
    requires
        u.len() > 0,
        !(u[0] is DataType),
        !(u[0] is Ampersand),
        merge_ok(u),
    ensures
        merge_ok(seq![TokenView::Ampersand] + u),
        merged(seq![TokenView::Ampersand] + u) == merged(u),
{
    let p = seq![TokenView::Ampersand];
    let t = p + u;
    assert(t[0] == TokenView::Ampersand);
    assert(t[1] == u[0]);
    lemma_lone_ampersand(t, 0);
    lemma_merge_from_shift(p, u, 0, 0);
}

} // verus!
