//! The front end proper: tokens, the lexer, the merging pass and the
//! function splitter, and `compile`, which runs all three.
pub mod token;
pub mod classify;
pub mod compiler;
pub mod lexing;
pub mod merging;
pub mod splitting;

use vstd::prelude::*;
use crate::parser::compiler::{Compiler, CompilerView, initial_view};
use crate::parser::lexing::{
    lex_all,
    lex_all_ok,
    lexer_wf,
    process_chars,
    lemma_initial_wf,
    lemma_lex_all_wf,
    lemma_lex_all_keeps_functions,
};
use crate::parser::merging::{is_resolved, merged, merge_ok, merge_tokens_round_one, lemma_merged_resolved};
use crate::parser::splitting::{
    body_is_slice,
    function_closed_at,
    outer_closes,
    split_all,
    split_ok,
    split_functions,
    lemma_split_bodies_are_slices,
    lemma_split_functions_characterized,
};

verus! {

/// The state after reading all of `source`.
pub open spec fn lexed(source: Seq<char>) -> CompilerView {
    lex_all(initial_view(), source)
}

/// The state after reading `source`, merging its tokens and splitting them
/// into functions.
pub open spec fn compiled(source: Seq<char>) -> CompilerView {
    let l = lexed(source);
    let m = merged(l.tokens);
    CompilerView { tokens: m, functions: split_all(m), ..l }
}

/// Every pass is defined on `source`.
pub open spec fn compile_ok(source: Seq<char>) -> bool {
    &&& lex_all_ok(initial_view(), source)
    &&& merge_ok(lexed(source).tokens)
    &&& split_ok(merged(lexed(source).tokens))
}

/// Runs the front end on the characters of a source text: reads them one by
/// one, merges the tokens and splits them into functions.
pub fn compile(source: &Vec<char>) -> (compiler: Compiler)
    requires
        compile_ok(source@),
    ensures
        compiler@ == compiled(source@),
{
    let mut compiler = Compiler::new();
    process_chars(source, &mut compiler);
    merge_tokens_round_one(&mut compiler);
    split_functions(&mut compiler);
    proof {
        lemma_lex_all_keeps_functions(initial_view(), source@);
    }
    assert(Seq::empty() + split_all(merged(lexed(source@).tokens)) =~= split_all(merged(lexed(source@).tokens)));
    compiler
}

/// After compiling, the lexer's remaining state is well formed, the token
/// list is no longer than the lexed one and holds only resolved tokens, and
/// every function found has no parameters and as its body the tokens
/// strictly between a `{` and a later `}` of that list.
pub proof fn lemma_compiled_properties(source: Seq<char>)
    requires
        compile_ok(source),
    ensures
        lexer_wf(lexed(source)),
        compiled(source).tokens.len() <= lexed(source).tokens.len(),
        forall|i: int| 0 <= i < compiled(source).tokens.len() ==> is_resolved(#[trigger] compiled(source).tokens[i]),
        forall|i: int| 0 <= i < compiled(source).functions.len() ==> {
            &&& (#[trigger] compiled(source).functions[i]).parameters.len() == 0
            &&& body_is_slice(compiled(source).tokens, compiled(source).functions[i])
        },
{
    lemma_initial_wf();
    lemma_lex_all_wf(initial_view(), source);
    lemma_merged_resolved(lexed(source).tokens);
    lemma_split_bodies_are_slices(merged(lexed(source).tokens));
}

/// Compiling reports every function whose body is closed, in order: one
/// function for each `}` of the resulting tokens that closes an outermost
/// `{`, each named after the last function definition before that `}` and
/// holding the tokens of its body, as `function_closed_at` says.
pub proof fn lemma_compile_functions(source: Seq<char>)
    requires
        compile_ok(source),
    ensures
        ({
            let c = compiled(source);
            let closes = outer_closes(c.tokens, c.tokens.len() as int);
            &&& c.functions.len() == closes.len()
            &&& forall|i: int|
                0 <= i < c.functions.len() ==> #[trigger] c.functions[i] == function_closed_at(c.tokens, closes[i])
        }),
{
    lemma_split_functions_characterized(merged(lexed(source).tokens));
}

} // verus!
