use vstd::prelude::*;

verus! {

/// Token type of the string-based tokenizer.
#[derive(Debug)]
pub enum Token {
    Bogus,
}

/// Tokenizer over whole words. No word is recognized yet: every input
/// yields an empty token list.
pub fn parse_tokens(token_strings: &Vec<String>) -> (tokens: Vec<Token>)
    ensures
        tokens@.len() == 0,
{
    let mut skip_iteration_count: u64 = 0;
    let count: usize = token_strings.len();
    let mut idx: usize = 0;
    while idx < count
        invariant
            idx <= count,
            count == token_strings.len(),
            skip_iteration_count == 0,
        decreases count - idx,
    {
        idx = idx + 1;
        if skip_iteration_count > 0 {
            skip_iteration_count = skip_iteration_count - 1;
            continue;
        }
    }
    Vec::new()
}

} // verus!
