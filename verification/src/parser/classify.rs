use vstd::prelude::*;
use vstd::string::*;
use crate::parser::token::{DataType, DataTypeStruct};

verus! {

pub const KEYWORD_FUNCTION: &'static str = "fn";
pub const KEYWORD_RETURN: &'static str = "return";
pub const KEYWORD_LET: &'static str = "let";
pub const KEYWORD_MUT: &'static str = "mut";
pub const KEYWORD_PUB: &'static str = "pub";
pub const KEYWORD_IF: &'static str = "if";
pub const KEYWORD_ELSE: &'static str = "else";

/// An ASCII decimal digit.
pub open spec fn spec_is_digit(c: char) -> bool {
    '0' <= c && c <= '9'
}

/// An ASCII letter.
pub open spec fn spec_is_alphabetic(c: char) -> bool {
    ('a' <= c && c <= 'z') || ('A' <= c && c <= 'Z')
}

/// Whether `c` is an ASCII decimal digit.
pub fn is_ascii_digit(c: char) -> (r: bool)
    ensures
        r == spec_is_digit(c),
{
    '0' <= c && c <= '9'
}

/// Whether `c` is an ASCII letter.
pub fn is_ascii_alphabetic(c: char) -> (r: bool)
    ensures
        r == spec_is_alphabetic(c),
{
    ('a' <= c && c <= 'z') || ('A' <= c && c <= 'Z')
}

/// The reserved words of the language.
pub open spec fn spec_is_keyword(s: Seq<char>) -> bool {
    ||| s == seq!['f', 'n']
    ||| s == seq!['p', 'u', 'b']
    ||| s == seq!['m', 'u', 't']
    ||| s == seq!['r', 'e', 't', 'u', 'r', 'n']
    ||| s == seq!['l', 'e', 't']
    ||| s == seq!['i', 'f']
    ||| s == seq!['e', 'l', 's', 'e']
}

/// The names of the primitive data types.
pub open spec fn spec_is_datatype(s: Seq<char>) -> bool {
    ||| s == seq!['i', '6', '4']
    ||| s == seq!['u', '6', '4']
    ||| s == seq!['f', '6', '4']
    ||| s == seq!['b', 'o', 'o', 'l']
}

/// The data type that a type name denotes, not taken by reference.
pub open spec fn spec_type_from_name(s: Seq<char>) -> DataTypeStruct {
    DataTypeStruct {
        data_type: if s == seq!['i', '6', '4'] {
            DataType::I64 { size: 8 }
        } else if s == seq!['u', '6', '4'] {
            DataType::U64 { size: 8 }
        } else if s == seq!['f', '6', '4'] {
            DataType::F64 { size: 8 }
        } else if s == seq!['b', 'o', 'o', 'l'] {
            DataType::Bool { size: 1 }
        } else {
            DataType::NoType
        },
        is_ref: false,
    }
}

/// The characters of the reserved words and the type names as they are
/// written in the code.
pub proof fn lemma_word_literals()
    ensures
        KEYWORD_FUNCTION@ == seq!['f', 'n'],
        KEYWORD_PUB@ == seq!['p', 'u', 'b'],
        KEYWORD_MUT@ == seq!['m', 'u', 't'],
        KEYWORD_RETURN@ == seq!['r', 'e', 't', 'u', 'r', 'n'],
        KEYWORD_LET@ == seq!['l', 'e', 't'],
        KEYWORD_IF@ == seq!['i', 'f'],
        KEYWORD_ELSE@ == seq!['e', 'l', 's', 'e'],
        "i64"@ == seq!['i', '6', '4'],
        "u64"@ == seq!['u', '6', '4'],
        "f64"@ == seq!['f', '6', '4'],
        "bool"@ == seq!['b', 'o', 'o', 'l'],
{
    reveal_strlit("fn");
    reveal_strlit("pub");
    reveal_strlit("mut");
    reveal_strlit("return");
    reveal_strlit("let");
    reveal_strlit("if");
    reveal_strlit("else");
    reveal_strlit("i64");
    reveal_strlit("u64");
    reveal_strlit("f64");
    reveal_strlit("bool");
    assert(KEYWORD_FUNCTION@ =~= seq!['f', 'n']);
    assert(KEYWORD_PUB@ =~= seq!['p', 'u', 'b']);
    assert(KEYWORD_MUT@ =~= seq!['m', 'u', 't']);
    assert(KEYWORD_RETURN@ =~= seq!['r', 'e', 't', 'u', 'r', 'n']);
    assert(KEYWORD_LET@ =~= seq!['l', 'e', 't']);
    assert(KEYWORD_IF@ =~= seq!['i', 'f']);
    assert(KEYWORD_ELSE@ =~= seq!['e', 'l', 's', 'e']);
    assert("i64"@ =~= seq!['i', '6', '4']);
    assert("u64"@ =~= seq!['u', '6', '4']);
    assert("f64"@ =~= seq!['f', '6', '4']);
    assert("bool"@ =~= seq!['b', 'o', 'o', 'l']);
}

/// Whether two string slices hold the same characters.
pub fn str_eq(a: &str, b: &str) -> (r: bool)
    ensures
        r == (a@ == b@),
{
    let n = a.unicode_len();
    if n != b.unicode_len() {
        return false;
    }
    let mut i: usize = 0;
    while i < n
        invariant
            n == a@.len(),
            n == b@.len(),
            i <= n,
            forall|j: int| 0 <= j < i ==> a@[j] == b@[j],
        decreases n - i,
    {
        if a.get_char(i) != b.get_char(i) {
            return false;
        }
        i = i + 1;
    }
    assert(a@ =~= b@);
    true
}

/// Whether `token` is one of the reserved words.
pub fn is_keyword(token: &String) -> (r: bool)
    ensures
        r == spec_is_keyword(token@),
{
    proof {
        lemma_word_literals();
    }
    let s = token.as_str();
    str_eq(s, KEYWORD_FUNCTION) || str_eq(s, KEYWORD_PUB) || str_eq(s, KEYWORD_MUT) || str_eq(
        s,
        KEYWORD_RETURN,
    ) || str_eq(s, KEYWORD_LET) || str_eq(s, KEYWORD_IF) || str_eq(s, KEYWORD_ELSE)
}

/// Whether `token` names one of the primitive data types.
pub fn is_datatype(token: &String) -> (r: bool)
    ensures
        r == spec_is_datatype(token@),
{
    proof {
        lemma_word_literals();
    }
    let s = token.as_str();
    str_eq(s, "i64") || str_eq(s, "u64") || str_eq(s, "f64") || str_eq(s, "bool")
}

/// The data type named by `name`, not taken by reference; a name that is
/// no type name gives `DataType::NoType`.
pub fn get_type_from_name(name: &String) -> (r: DataTypeStruct)
    ensures
        r == spec_type_from_name(name@),
{
    proof {
        lemma_word_literals();
    }
    let s = name.as_str();
    let inner_type = if str_eq(s, "i64") {
        DataType::I64 { size: 8 }
    } else if str_eq(s, "u64") {
        DataType::U64 { size: 8 }
    } else if str_eq(s, "f64") {
        DataType::F64 { size: 8 }
    } else if str_eq(s, "bool") {
        DataType::Bool { size: 1 }
    } else {
        DataType::NoType
    };
    DataTypeStruct { data_type: inner_type, is_ref: false }
}

/// `String::push` appends one character at the end of the string.
#[verifier::external_body]
fn push_char(s: &mut String, c: char)
    ensures
        final(s)@ == old(s)@.push(c),
{
    s.push(c);
}

/// The string made of the characters of `chars`, in order.
pub fn string_from_chars(chars: &Vec<char>) -> (s: String)
    ensures
        s@ == chars@,
{
    let mut s = String::new();
    let mut i: usize = 0;
    while i < chars.len()
        invariant
            i <= chars.len(),
            s@ == chars@.subrange(0, i as int),
        decreases chars.len() - i,
    {
        push_char(&mut s, chars[i]);
        assert(chars@.subrange(0, i as int).push(chars@[i as int]) =~= chars@.subrange(0, i + 1));
        i = i + 1;
    }
    assert(chars@.subrange(0, chars.len() as int) =~= chars@);
    s
}

} // verus!
