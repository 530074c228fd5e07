use vstd::prelude::*;

verus! {

/// Primitive types of the language, each with its size in bytes.
#[derive(Debug, Clone, Copy, PartialEq, Eq, Structural)]
pub enum DataType {
    NoType,
    I64 { size: usize },
    U64 { size: usize },
    F64 { size: usize },
    Bool { size: usize },
}

/// A data type together with whether it is taken by reference.
#[derive(Debug, Clone, Copy, PartialEq, Eq, Structural)]
pub struct DataTypeStruct {
    pub data_type: DataType,
    pub is_ref: bool,
}

/// Tokens produced by the lexer and rewritten by the later passes.
#[derive(Debug)]
pub enum Token {
    Bogus,
    OpenParen,
    CloseParen,
    OpenCurly,
    CloseCurly,
    OpenBracket,
    CloseBracket,
    OpenAngle,
    CloseAngle,
    ExclamationMark,
    QuestionMark,
    Equals,
    Colon,
    SemiColon,
    Period,
    Comma,
    Plus,
    Minus,
    Asterisk,
    Slash,
    Percent,
    Underscore,
    SingleQuote,
    DoubleQuote,
    Ampersand,
    Pipe,
    NewLine,
    PubModifier,
    LogicalAnd,
    LogicalOr,
    TypedVariable { name: String, data_type: DataTypeStruct },
    ArrowRight,
    ReturnTypeSpecifier { data_type: DataType, is_reference: bool },
    Identifier { name: String },
    Keyword { name: String },
    DataType { data_type: DataTypeStruct },
    CharLiteral { value: String },
    StringLiteral { value: String },
    NumericLiteral { value: String },
    Function {
        name: String,
        public: bool,
        return_type: DataType,
        params: Vec<Token>,
        body: Vec<Token>,
    },
    FunctionDefinition { name: String, public: bool },
    ParamToken { name: String, data_type: DataType },
    VariableToken { name: String, data_type: DataType, declared_with_let: bool },
}

/// The mathematical model of a token: strings become character sequences
/// and nested token lists become sequences of models.
pub enum TokenView {
    Bogus,
    OpenParen,
    CloseParen,
    OpenCurly,
    CloseCurly,
    OpenBracket,
    CloseBracket,
    OpenAngle,
    CloseAngle,
    ExclamationMark,
    QuestionMark,
    Equals,
    Colon,
    SemiColon,
    Period,
    Comma,
    Plus,
    Minus,
    Asterisk,
    Slash,
    Percent,
    Underscore,
    SingleQuote,
    DoubleQuote,
    Ampersand,
    Pipe,
    NewLine,
    PubModifier,
    LogicalAnd,
    LogicalOr,
    TypedVariable { name: Seq<char>, data_type: DataTypeStruct },
    ArrowRight,
    ReturnTypeSpecifier { data_type: DataType, is_reference: bool },
    Identifier { name: Seq<char> },
    Keyword { name: Seq<char> },
    DataType { data_type: DataTypeStruct },
    CharLiteral { value: Seq<char> },
    StringLiteral { value: Seq<char> },
    NumericLiteral { value: Seq<char> },
    Function {
        name: Seq<char>,
        public: bool,
        return_type: DataType,
        params: Seq<TokenView>,
        body: Seq<TokenView>,
    },
    FunctionDefinition { name: Seq<char>, public: bool },
    ParamToken { name: Seq<char>, data_type: DataType },
    VariableToken { name: Seq<char>, data_type: DataType, declared_with_let: bool },
}

/// The model of a token.
pub open spec fn token_view(t: Token) -> TokenView
    decreases t, 0nat,
{
    match t {
        Token::Bogus => TokenView::Bogus,
        Token::OpenParen => TokenView::OpenParen,
        Token::CloseParen => TokenView::CloseParen,
        Token::OpenCurly => TokenView::OpenCurly,
        Token::CloseCurly => TokenView::CloseCurly,
        Token::OpenBracket => TokenView::OpenBracket,
        Token::CloseBracket => TokenView::CloseBracket,
        Token::OpenAngle => TokenView::OpenAngle,
        Token::CloseAngle => TokenView::CloseAngle,
        Token::ExclamationMark => TokenView::ExclamationMark,
        Token::QuestionMark => TokenView::QuestionMark,
        Token::Equals => TokenView::Equals,
        Token::Colon => TokenView::Colon,
        Token::SemiColon => TokenView::SemiColon,
        Token::Period => TokenView::Period,
        Token::Comma => TokenView::Comma,
        Token::Plus => TokenView::Plus,
        Token::Minus => TokenView::Minus,
        Token::Asterisk => TokenView::Asterisk,
        Token::Slash => TokenView::Slash,
        Token::Percent => TokenView::Percent,
        Token::Underscore => TokenView::Underscore,
        Token::SingleQuote => TokenView::SingleQuote,
        Token::DoubleQuote => TokenView::DoubleQuote,
        Token::Ampersand => TokenView::Ampersand,
        Token::Pipe => TokenView::Pipe,
        Token::NewLine => TokenView::NewLine,
        Token::PubModifier => TokenView::PubModifier,
        Token::LogicalAnd => TokenView::LogicalAnd,
        Token::LogicalOr => TokenView::LogicalOr,
        Token::TypedVariable { name, data_type } => TokenView::TypedVariable {
            name: name@,
            data_type,
        },
        Token::ArrowRight => TokenView::ArrowRight,
        Token::ReturnTypeSpecifier { data_type, is_reference } => TokenView::ReturnTypeSpecifier {
            data_type,
            is_reference,
        },
        Token::Identifier { name } => TokenView::Identifier { name: name@ },
        Token::Keyword { name } => TokenView::Keyword { name: name@ },
        Token::DataType { data_type } => TokenView::DataType { data_type },
        Token::CharLiteral { value } => TokenView::CharLiteral { value: value@ },
        Token::StringLiteral { value } => TokenView::StringLiteral { value: value@ },
        Token::NumericLiteral { value } => TokenView::NumericLiteral { value: value@ },
        Token::Function { name, public, return_type, params, body } => TokenView::Function {
            name: name@,
            public,
            return_type,
            params: tokens_view(params@),
            body: tokens_view(body@),
        },
        Token::FunctionDefinition { name, public } => TokenView::FunctionDefinition {
            name: name@,
            public,
        },
        Token::ParamToken { name, data_type } => TokenView::ParamToken { name: name@, data_type },
        Token::VariableToken { name, data_type, declared_with_let } => TokenView::VariableToken {
            name: name@,
            data_type,
            declared_with_let,
        },
    }
}

/// The models of a sequence of tokens, element by element.
pub open spec fn tokens_view(s: Seq<Token>) -> Seq<TokenView>
    decreases s, 1nat,
{
    if s.len() == 0 {
        Seq::empty()
    } else {
        tokens_view(s.drop_last()).push(token_view(s.last()))
    }
}

impl View for Token {
    type V = TokenView;

    open spec fn view(&self) -> TokenView {
        token_view(*self)
    }
}

/// The model of a token list has one entry per token, each the model of
/// the token at the same position.
pub proof fn lemma_tokens_view_index(s: Seq<Token>)
    ensures
        tokens_view(s).len() == s.len(),
        forall|i: int| 0 <= i < s.len() ==> #[trigger] tokens_view(s)[i] == token_view(s[i]),
    decreases s.len(),
{
    if s.len() > 0 {
        lemma_tokens_view_index(s.drop_last());
    }
}

/// Two token lists whose tokens have the same models have the same model.
pub proof fn lemma_tokens_view_pointwise(a: Seq<Token>, b: Seq<Token>)
    requires
        a.len() == b.len(),
        forall|i: int| 0 <= i < a.len() ==> token_view(#[trigger] a[i]) == token_view(b[i]),
    ensures
        tokens_view(a) == tokens_view(b),
{
    lemma_tokens_view_index(a);
    lemma_tokens_view_index(b);
    assert(tokens_view(a) =~= tokens_view(b));
}

/// Appending a token appends its model.
pub proof fn lemma_tokens_view_push(s: Seq<Token>, t: Token)
    ensures
        tokens_view(s.push(t)) == tokens_view(s).push(token_view(t)),
{
    assert(s.push(t).drop_last() =~= s);
}

impl Token {
    /// Duplicates a token, nested token lists included; the copy has the
    /// same model as the token it copies.
    pub fn duplicate(&self) -> (res: Token)
        ensures
            res@ == self@,
        decreases self, 0nat,
    {
        match self {
            Token::Bogus => Token::Bogus,
            Token::OpenParen => Token::OpenParen,
            Token::CloseParen => Token::CloseParen,
            Token::OpenCurly => Token::OpenCurly,
            Token::CloseCurly => Token::CloseCurly,
            Token::OpenBracket => Token::OpenBracket,
            Token::CloseBracket => Token::CloseBracket,
            Token::OpenAngle => Token::OpenAngle,
            Token::CloseAngle => Token::CloseAngle,
            Token::ExclamationMark => Token::ExclamationMark,
            Token::QuestionMark => Token::QuestionMark,
            Token::Equals => Token::Equals,
            Token::Colon => Token::Colon,
            Token::SemiColon => Token::SemiColon,
            Token::Period => Token::Period,
            Token::Comma => Token::Comma,
            Token::Plus => Token::Plus,
            Token::Minus => Token::Minus,
            Token::Asterisk => Token::Asterisk,
            Token::Slash => Token::Slash,
            Token::Percent => Token::Percent,
            Token::Underscore => Token::Underscore,
            Token::SingleQuote => Token::SingleQuote,
            Token::DoubleQuote => Token::DoubleQuote,
            Token::Ampersand => Token::Ampersand,
            Token::Pipe => Token::Pipe,
            Token::NewLine => Token::NewLine,
            Token::PubModifier => Token::PubModifier,
            Token::LogicalAnd => Token::LogicalAnd,
            Token::LogicalOr => Token::LogicalOr,
            Token::TypedVariable { name, data_type } => Token::TypedVariable {
                name: name.clone(),
                data_type: *data_type,
            },
            Token::ArrowRight => Token::ArrowRight,
            Token::ReturnTypeSpecifier { data_type, is_reference } => Token::ReturnTypeSpecifier {
                data_type: *data_type,
                is_reference: *is_reference,
            },
            Token::Identifier { name } => Token::Identifier { name: name.clone() },
            Token::Keyword { name } => Token::Keyword { name: name.clone() },
            Token::DataType { data_type } => Token::DataType { data_type: *data_type },
            Token::CharLiteral { value } => Token::CharLiteral { value: value.clone() },
            Token::StringLiteral { value } => Token::StringLiteral { value: value.clone() },
            Token::NumericLiteral { value } => Token::NumericLiteral { value: value.clone() },
            Token::Function { name, public, return_type, params, body } => {
                let new_params = duplicate_all(params);
                let new_body = duplicate_all(body);
                Token::Function {
                    name: name.clone(),
                    public: *public,
                    return_type: *return_type,
                    params: new_params,
                    body: new_body,
                }
            },
            Token::FunctionDefinition { name, public } => Token::FunctionDefinition {
                name: name.clone(),
                public: *public,
            },
            Token::ParamToken { name, data_type } => Token::ParamToken {
                name: name.clone(),
                data_type: *data_type,
            },
            Token::VariableToken { name, data_type, declared_with_let } => Token::VariableToken {
                name: name.clone(),
                data_type: *data_type,
                declared_with_let: *declared_with_let,
            },
        }
    }
}

/// Duplicates every token of a list; the copy has the same model.
pub fn duplicate_all(v: &Vec<Token>) -> (res: Vec<Token>)
    ensures
        tokens_view(res@) == tokens_view(v@),
    decreases v, 1nat,
{
    let mut res: Vec<Token> = Vec::new();
    let mut i: usize = 0;
    while i < v.len()
        invariant
            i <= v.len(),
            res@.len() == i,
            forall|j: int| 0 <= j < i ==> token_view(#[trigger] res@[j]) == token_view(v@[j]),
        decreases v.len() - i,
    {
        proof {
            vstd::std_specs::vec::axiom_vec_index_decreases(*v, i as int);
        }
        let t = v[i].duplicate();
        res.push(t);
        i = i + 1;
    }
    proof {
        lemma_tokens_view_pointwise(v@, res@);
    }
    res
}

impl Clone for Token {
    /// A copy with the same model, nested token lists included.
    fn clone(&self) -> (res: Token)
        ensures
            res@ == self@,
    {
        self.duplicate()
    }
}

} // verus!
