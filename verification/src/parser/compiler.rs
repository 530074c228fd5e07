use vstd::prelude::*;
use crate::parser::token::{DataTypeStruct, Token, TokenView, tokens_view, duplicate_all};

verus! {

/// A function found in the token stream: its name, the tokens of its body,
/// its parameters, its return type and whether it is public.
#[derive(Debug)]
pub struct Function {
    pub name: String,
    pub body: Vec<Token>,
    pub parameters: Vec<Token>,
    pub return_type: DataTypeStruct,
    pub public: bool,
}

/// The model of a function.
pub struct FunctionView {
    pub name: Seq<char>,
    pub body: Seq<TokenView>,
    pub parameters: Seq<TokenView>,
    pub return_type: DataTypeStruct,
    pub public: bool,
}

impl View for Function {
    type V = FunctionView;

    open spec fn view(&self) -> FunctionView {
        FunctionView {
            name: self.name@,
            body: tokens_view(self.body@),
            parameters: tokens_view(self.parameters@),
            return_type: self.return_type,
            public: self.public,
        }
    }
}

impl Clone for Function {
    /// A copy with the same model.
    fn clone(&self) -> (res: Function)
        ensures
            res@ == self@,
    {
        Function {
            name: self.name.clone(),
            body: duplicate_all(&self.body),
            parameters: duplicate_all(&self.parameters),
            return_type: self.return_type,
            public: self.public,
        }
    }
}

/// The models of a list of functions, element by element.
pub open spec fn functions_view(s: Seq<Function>) -> Seq<FunctionView> {
    s.map_values(|f: Function| f@)
}

/// The state of the front end: the tokens found so far, the characters of
/// the token being read, the kind of that token (`Token::Bogus` between
/// tokens), how many periods numeric literals have held, whether the next
/// character of a literal is escaped, and the functions found.
#[derive(Debug)]
pub struct Compiler {
    pub tokens: Vec<Token>,
    pub current_buffer: Vec<char>,
    pub current_token: Token,
    pub period_count: u64,
    pub next_char_escaped: bool,
    pub functions: Vec<Function>,
}

/// The model of the front end's state.
pub struct CompilerView {
    pub tokens: Seq<TokenView>,
    pub buffer: Seq<char>,
    pub mode: TokenView,
    pub period_count: u64,
    pub escaped: bool,
    pub functions: Seq<FunctionView>,
}

impl View for Compiler {
    type V = CompilerView;

    open spec fn view(&self) -> CompilerView {
        CompilerView {
            tokens: tokens_view(self.tokens@),
            buffer: self.current_buffer@,
            mode: self.current_token@,
            period_count: self.period_count,
            escaped: self.next_char_escaped,
            functions: functions_view(self.functions@),
        }
    }
}

/// The state before any character is read.
pub open spec fn initial_view() -> CompilerView {
    CompilerView {
        tokens: Seq::empty(),
        buffer: Seq::empty(),
        mode: TokenView::Bogus,
        period_count: 0,
        escaped: false,
        functions: Seq::empty(),
    }
}

impl Compiler {
    /// A front end that has read nothing yet.
    pub fn new() -> (c: Compiler)
        ensures
            c@ == initial_view(),
    {
        let c = Compiler {
            tokens: Vec::new(),
            current_buffer: Vec::new(),
            current_token: Token::Bogus,
            period_count: 0,
            next_char_escaped: false,
            functions: Vec::new(),
        };
        assert(tokens_view(c.tokens@) =~= Seq::empty());
        assert(functions_view(c.functions@) =~= Seq::empty());
        c
    }
}

} // verus!
