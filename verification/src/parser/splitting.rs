use vstd::prelude::*;
use crate::parser::token::{DataType, DataTypeStruct, Token, TokenView, tokens_view, lemma_tokens_view_index, lemma_tokens_view_push};
use crate::parser::compiler::{Compiler, CompilerView, Function, FunctionView, functions_view};

verus! {

/// The state of the function splitter: where the body of the current
/// function starts, how deep inside braces it is, the function whose body
/// is being read, and the functions completed so far.
pub struct SplitState {
    pub start: int,
    pub indent: int,
    pub current: Option<FunctionView>,
    pub functions: Seq<FunctionView>,
}

/// The splitter before any token.
pub open spec fn split_init() -> SplitState {
    SplitState { start: 0, indent: 0, current: None, functions: Seq::empty() }
}

/// A function just defined: no body, no parameters, no return type yet.
pub open spec fn new_function(name: Seq<char>, public: bool) -> FunctionView {
    FunctionView {
        name,
        body: Seq::empty(),
        parameters: Seq::empty(),
        return_type: DataTypeStruct { data_type: DataType::NoType, is_ref: false },
        public,
    }
}

/// The splitter after the token at position `idx`: a function definition
/// starts a function; an outermost `{` marks where a body starts; the `}`
/// that closes it completes the current function with the tokens between
/// them as its body; `->` before a data type outside braces sets the
/// current function's return type.
pub open spec fn split_step(t: Seq<TokenView>, idx: int, st: SplitState) -> SplitState {
    match t[idx] {
        TokenView::FunctionDefinition { name, public } => SplitState {
            current: Some(new_function(name, public)),
            ..st
        },
        TokenView::OpenCurly => SplitState {
            start: if st.indent == 0 { idx + 1 } else { st.start },
            indent: st.indent + 1,
            ..st
        },
        TokenView::CloseCurly => if st.indent == 1 {
            let f = st.current->0;
            SplitState {
                indent: 0,
                current: None,
                functions: st.functions.push(FunctionView { body: f.body + t.subrange(st.start, idx), ..f }),
                ..st
            }
        } else {
            SplitState { indent: st.indent - 1, ..st }
        },
        TokenView::ArrowRight => if st.indent == 0 && st.current is Some {
            match t[idx + 1] {
                TokenView::DataType { data_type } => SplitState {
                    current: Some(FunctionView { return_type: data_type, ..st.current->0 }),
                    ..st
                },
                _ => st,
            }
        } else {
            st
        },
        _ => st,
    }
}

/// The token at position `idx` can be read: a `}` closes a brace opened
/// before it, and closes a function's body only while a function is
/// defined; a `->` is not the last token.
pub open spec fn split_step_ok(t: Seq<TokenView>, idx: int, st: SplitState) -> bool {
    match t[idx] {
        TokenView::CloseCurly => st.start != 0 && st.indent > 0 && (st.indent == 1 ==> st.current is Some),
        TokenView::ArrowRight => idx + 1 < t.len(),
        _ => true,
    }
}

/// The splitter after the first `k` tokens.
pub open spec fn split_upto(t: Seq<TokenView>, k: int) -> SplitState
    decreases k,
{
    if k <= 0 {
        split_init()
    } else {
        split_step(t, k - 1, split_upto(t, k - 1))
    }
}

/// Reading the first `k` tokens is defined.
pub open spec fn split_ok_upto(t: Seq<TokenView>, k: int) -> bool
    decreases k,
{
    if k <= 0 {
        true
    } else {
        split_ok_upto(t, k - 1) && split_step_ok(t, k - 1, split_upto(t, k - 1))
    }
}

/// The functions found in `t`.
pub open spec fn split_all(t: Seq<TokenView>) -> Seq<FunctionView> {
    split_upto(t, t.len() as int).functions
}

/// Splitting `t` into functions is defined.
pub open spec fn split_ok(t: Seq<TokenView>) -> bool {
    split_ok_upto(t, t.len() as int)
}

/// The model of an optional function.
pub open spec fn opt_function_view(f: Option<Function>) -> Option<FunctionView> {
    match f {
        Some(f) => Some(f@),
        None => None,
    }
}

/// After `k` tokens, the body starts at most at `k` and the depth is at most `k`.
proof fn lemma_split_bounds(t: Seq<TokenView>, k: int)
    requires
        0 <= k <= t.len(),
        split_ok_upto(t, k),
    ensures
        0 <= split_upto(t, k).start <= k,
        0 <= split_upto(t, k).indent <= k,
    decreases k,
{
    if k > 0 {
        lemma_split_bounds(t, k - 1);
    }
}

/// Finds the functions of the token list and appends them to the
/// compiler's functions, as `split_all` says; the rest is left as it was.
pub fn split_functions(compiler: &mut Compiler)
    requires
        split_ok(old(compiler)@.tokens),
    ensures
        final(compiler)@ == (CompilerView {
            functions: old(compiler)@.functions + split_all(old(compiler)@.tokens),
            ..old(compiler)@
        }),
{
    let ghost t = compiler@.tokens;
    let ghost old_functions = compiler@.functions;
    let mut function_body_start_index: usize = 0;
    let mut indent_count: u64 = 0;
    let mut current_function: Option<Function> = None;
    let len = compiler.tokens.len();
    proof {
        lemma_tokens_view_index(compiler.tokens@);
    }
    let mut idx: usize = 0;
    while idx < len
        invariant
            idx <= len,
            len == compiler.tokens@.len(),
            t == compiler@.tokens,
            t.len() == len,
            forall|i: int| 0 <= i < len ==> #[trigger] t[i] == compiler.tokens@[i]@,
            split_ok(t),
            split_ok_upto(t, idx as int),
            function_body_start_index == split_upto(t, idx as int).start,
            indent_count == split_upto(t, idx as int).indent,
            opt_function_view(current_function) == split_upto(t, idx as int).current,
            compiler@ == (CompilerView {
                functions: old_functions + split_upto(t, idx as int).functions,
                ..old(compiler)@
            }),
        decreases len - idx,
    {
        proof {
            lemma_split_bounds(t, idx as int);
            assert(split_ok_upto(t, idx + 1)) by {
                if idx + 1 < len {
                    lemma_split_ok_prefix(t, idx + 1, len as int);
                }
            }
        }
        let ghost st = split_upto(t, idx as int);
        match &compiler.tokens[idx] {
            Token::FunctionDefinition { name, public } => {
                current_function = Some(Function {
                    name: name.clone(),
                    body: Vec::new(),
                    parameters: Vec::new(),
                    return_type: DataTypeStruct { data_type: DataType::NoType, is_ref: false },
                    public: *public,
                });
                assert(tokens_view(Seq::<Token>::empty()) =~= Seq::empty());
            },
            Token::OpenCurly => {
                if indent_count == 0 {
                    function_body_start_index = idx + 1;
                }
                indent_count = indent_count + 1;
            },
            Token::CloseCurly => {
                indent_count = indent_count - 1;
                if indent_count == 0 {
                    match current_function {
                        Some(func) => {
                            let mut func = func;
                            let ghost cur = st.current->0;
                            let ghost body_before = tokens_view(func.body@);
                            let mut j: usize = function_body_start_index;
                            while j < idx
                                invariant
                                    function_body_start_index <= j <= idx,
                                    idx < len,
                                    len == compiler.tokens@.len(),
                                    forall|i: int| 0 <= i < len ==> #[trigger] t[i] == compiler.tokens@[i]@,
                                    t.len() == len,
                                    func@ == (FunctionView {
                                        body: body_before + t.subrange(function_body_start_index as int, j as int),
                                        ..cur
                                    }),
                                decreases idx - j,
                            {
                                let ghost before = func@;
                                let tok = compiler.tokens[j].duplicate();
                                proof {
                                    lemma_tokens_view_push(func.body@, tok);
                                }
                                func.body.push(tok);
                                assert(before.body.push(t[j as int]) =~= body_before + t.subrange(
                                    function_body_start_index as int,
                                    j + 1,
                                ));
                                j = j + 1;
                            }
                            let ghost fv = func@;
                            let ghost fs_before = compiler.functions@;
                            compiler.functions.push(func);
                            assert(functions_view(compiler.functions@) =~= functions_view(fs_before).push(fv));
                            assert(functions_view(compiler.functions@) =~= old_functions + split_upto(t, idx + 1).functions);
                            current_function = None;
                        },
                        None => {},
                    }
                }
            },
            Token::ArrowRight => {
                if indent_count == 0 {
                    match &compiler.tokens[idx + 1] {
                        Token::DataType { data_type, .. } => match &mut current_function {
                            Some(func) => {
                                func.return_type = *data_type;
                            },
                            None => {},
                        },
                        _ => {},
                    }
                }
            },
            _ => {},
        }
        idx = idx + 1;
    }
}

/// Reading a longer prefix is defined only where reading a shorter one is.
proof fn lemma_split_ok_prefix(t: Seq<TokenView>, j: int, k: int)
    requires
        0 <= j <= k,
        split_ok_upto(t, k),
    ensures
        split_ok_upto(t, j),
    decreases k - j,
{
    if j < k {
        lemma_split_ok_prefix(t, j, k - 1);
    }
}

/// Whether splitting the current tokens into functions is defined.
pub fn split_is_defined(compiler: &Compiler) -> (r: bool)
    ensures
        r == split_ok(compiler@.tokens),
{
    let ghost t = compiler@.tokens;
    let mut start: usize = 0;
    let mut indent: usize = 0;
    let mut has_current: bool = false;
    let len = compiler.tokens.len();
    proof {
        lemma_tokens_view_index(compiler.tokens@);
    }
    let mut idx: usize = 0;
    while idx < len
        invariant
            idx <= len,
            len == compiler.tokens@.len(),
            t == compiler@.tokens,
            t.len() == len,
            forall|i: int| 0 <= i < len ==> #[trigger] t[i] == compiler.tokens@[i]@,
            split_ok_upto(t, idx as int),
            start == split_upto(t, idx as int).start,
            indent == split_upto(t, idx as int).indent,
            has_current == split_upto(t, idx as int).current is Some,
        decreases len - idx,
    {
        proof {
            lemma_split_bounds(t, idx as int);
        }
        match &compiler.tokens[idx] {
            Token::FunctionDefinition { .. } => {
                has_current = true;
            },
            Token::OpenCurly => {
                if indent == 0 {
                    start = idx + 1;
                }
                indent = indent + 1;
            },
            Token::CloseCurly => {
                if !(start != 0 && indent > 0 && (indent != 1 || has_current)) {
                    proof {
                        if split_ok_upto(t, len as int) {
                            lemma_split_ok_prefix(t, idx + 1, len as int);
                        }
                    }
                    return false;
                }
                indent = indent - 1;
                if indent == 0 {
                    has_current = false;
                }
            },
            Token::ArrowRight => {
                if idx + 1 >= len {
                    proof {
                        if split_ok_upto(t, len as int) {
                            lemma_split_ok_prefix(t, idx + 1, len as int);
                        }
                    }
                    return false;
                }
            },
            _ => {},
        }
        idx = idx + 1;
    }
    true
}

/// A function's body is the run of tokens strictly between a `{` at some
/// position and a `}` at a later position of `t`.
pub open spec fn body_is_slice(t: Seq<TokenView>, f: FunctionView) -> bool {
    exists|s: int, e: int|
        #![trigger t.subrange(s, e)]
        1 <= s <= e < t.len() && t[s - 1] is OpenCurly && t[e] is CloseCurly && f.body == t.subrange(s, e)
}

/// What holds of the splitter after the first `k` tokens.
spec fn split_inv(t: Seq<TokenView>, k: int, st: SplitState) -> bool {
    &&& 0 <= st.start <= k
    &&& 0 <= st.indent <= k
    &&& (st.indent > 0 ==> 1 <= st.start && t[st.start - 1] is OpenCurly)
    &&& (st.current matches Some(f) ==> f.body.len() == 0 && f.parameters.len() == 0)
    &&& forall|i: int| 0 <= i < st.functions.len() ==> {
        &&& (#[trigger] st.functions[i]).parameters.len() == 0
        &&& body_is_slice(t, st.functions[i])
    }
}

proof fn lemma_split_inv(t: Seq<TokenView>, k: int)
    requires
        0 <= k <= t.len(),
        split_ok_upto(t, k),
    ensures
        split_inv(t, k, split_upto(t, k)),
    decreases k,
{
    if k > 0 {
        lemma_split_inv(t, k - 1);
        let st = split_upto(t, k - 1);
        let nx = split_upto(t, k);
        let idx = k - 1;
        if t[idx] is CloseCurly && st.indent == 1 {
            let f = st.current->0;
            assert(f.body + t.subrange(st.start, idx) =~= t.subrange(st.start, idx));
            assert forall|i: int| 0 <= i < nx.functions.len() implies {
                &&& (#[trigger] nx.functions[i]).parameters.len() == 0
                &&& body_is_slice(t, nx.functions[i])
            } by {
                if i < st.functions.len() {
                    assert(nx.functions[i] == st.functions[i]);
                } else {
                    assert(nx.functions[i].body == t.subrange(st.start, idx));
                }
            }
        }
    }
}

/// Every function found has no parameters, and as its body the tokens
/// strictly between a `{` and a later `}` of the token list.
pub proof fn lemma_split_bodies_are_slices(t: Seq<TokenView>)
    requires
        split_ok(t),
    ensures
        forall|i: int| 0 <= i < split_all(t).len() ==> {
            &&& (#[trigger] split_all(t)[i]).parameters.len() == 0
            &&& body_is_slice(t, split_all(t)[i])
        },
{
    lemma_split_inv(t, t.len() as int);
}

/// How deep inside braces the first `k` tokens end: each `{` opens one
/// level and each `}` closes one.
pub open spec fn depth(t: Seq<TokenView>, k: int) -> int
    decreases k,
{
    if k <= 0 {
        0
    } else {
        depth(t, k - 1) + if t[k - 1] is OpenCurly {
            1int
        } else if t[k - 1] is CloseCurly {
            -1int
        } else {
            0int
        }
    }
}

/// The positions before `k` of the `}` that close an outermost `{`, in order.
pub open spec fn outer_closes(t: Seq<TokenView>, k: int) -> Seq<int>
    decreases k,
{
    if k <= 0 {
        Seq::empty()
    } else if t[k - 1] is CloseCurly && depth(t, k - 1) == 1 {
        outer_closes(t, k - 1).push(k - 1)
    } else {
        outer_closes(t, k - 1)
    }
}

/// The position of the last function definition before `k`, or -1.
pub open spec fn last_definition(t: Seq<TokenView>, k: int) -> int
    decreases k,
{
    if k <= 0 {
        -1
    } else if t[k - 1] is FunctionDefinition {
        k - 1
    } else {
        last_definition(t, k - 1)
    }
}

/// The position of the last outermost `{` before `k`, or -1.
pub open spec fn last_outer_open(t: Seq<TokenView>, k: int) -> int
    decreases k,
{
    if k <= 0 {
        -1
    } else if t[k - 1] is OpenCurly && depth(t, k - 1) == 0 {
        k - 1
    } else {
        last_outer_open(t, k - 1)
    }
}

/// The position of the last `->` outside braces and followed by a data type,
/// after position `d` and before `k`, or -1.
pub open spec fn last_return_arrow(t: Seq<TokenView>, d: int, k: int) -> int
    decreases k,
{
    if k <= 0 || k - 1 <= d {
        -1
    } else if t[k - 1] is ArrowRight && depth(t, k - 1) == 0 && t[k] is DataType {
        k - 1
    } else {
        last_return_arrow(t, d, k - 1)
    }
}

/// The return type declared after the definition at `d` and before `k`:
/// the data type after the last such `->`, or no type.
pub open spec fn declared_return_type(t: Seq<TokenView>, d: int, k: int) -> DataTypeStruct {
    let j = last_return_arrow(t, d, k);
    if j < 0 {
        DataTypeStruct { data_type: DataType::NoType, is_ref: false }
    } else {
        match t[j + 1] {
            TokenView::DataType { data_type } => data_type,
            _ => DataTypeStruct { data_type: DataType::NoType, is_ref: false },
        }
    }
}

/// The function whose definition is the last one before `k`: its name and
/// visibility from that definition, its declared return type, no body and
/// no parameters yet.
pub open spec fn function_defined_before(t: Seq<TokenView>, k: int) -> FunctionView {
    let d = last_definition(t, k);
    match t[d] {
        TokenView::FunctionDefinition { name, public } => FunctionView {
            name,
            body: Seq::empty(),
            parameters: Seq::empty(),
            return_type: declared_return_type(t, d, k),
            public,
        },
        _ => new_function(Seq::empty(), false),
    }
}

/// The function completed by the `}` at `e`: the function defined last
/// before it, with the tokens strictly between the outermost `{` before `e`
/// and `e` as its body.
pub open spec fn function_closed_at(t: Seq<TokenView>, e: int) -> FunctionView {
    FunctionView { body: t.subrange(last_outer_open(t, e) + 1, e), ..function_defined_before(t, e) }
}

spec fn split_char_inv(t: Seq<TokenView>, k: int, st: SplitState) -> bool {
    &&& st.indent == depth(t, k)
    &&& (st.indent > 0 ==> st.start == last_outer_open(t, k) + 1)
    &&& st.functions.len() == outer_closes(t, k).len()
    &&& forall|i: int|
        0 <= i < st.functions.len() ==> #[trigger] st.functions[i] == function_closed_at(t, outer_closes(t, k)[i])
    &&& forall|i: int| 0 <= i < outer_closes(t, k).len() ==> 0 <= #[trigger] last_definition(t, outer_closes(t, k)[i])
    &&& (st.current matches Some(f) ==> {
        &&& 0 <= last_definition(t, k) < k
        &&& f == function_defined_before(t, k)
    })
}

proof fn lemma_last_definition_range(t: Seq<TokenView>, k: int)
    requires
        0 <= k,
    ensures
        last_definition(t, k) < k,
        last_definition(t, k) >= 0 ==> t[last_definition(t, k)] is FunctionDefinition,
    decreases k,
{
    if k > 0 {
        lemma_last_definition_range(t, k - 1);
    }
}

proof fn lemma_split_char(t: Seq<TokenView>, k: int)
    requires
        0 <= k <= t.len(),
        split_ok_upto(t, k),
    ensures
        split_char_inv(t, k, split_upto(t, k)),
    decreases k,
{
    if k > 0 {
        let idx = k - 1;
        lemma_split_char(t, idx);
        lemma_last_definition_range(t, k);
        lemma_last_definition_range(t, idx);
        let st = split_upto(t, idx);
        let nx = split_upto(t, k);
        assert(nx == split_step(t, idx, st));
        let d = last_definition(t, k);
        if !(t[idx] is FunctionDefinition) {
            assert(d == last_definition(t, idx));
        }
        if !(t[idx] is FunctionDefinition) && !(t[idx] is ArrowRight) && st.current is Some {
            assert(last_return_arrow(t, d, k) == last_return_arrow(t, d, idx));
        }
        if t[idx] is ArrowRight && st.current is Some {
            if st.indent == 0 && t[k] is DataType {
                assert(last_return_arrow(t, d, k) == idx);
            } else {
                assert(last_return_arrow(t, d, k) == last_return_arrow(t, d, idx));
            }
        }
        if t[idx] is CloseCurly && st.indent == 1 {
            assert(outer_closes(t, k) == outer_closes(t, idx).push(idx));
            assert forall|i: int| 0 <= i < nx.functions.len() implies #[trigger] nx.functions[i]
                == function_closed_at(t, outer_closes(t, k)[i]) by {
                if i < st.functions.len() {
                    assert(nx.functions[i] == st.functions[i]);
                    assert(outer_closes(t, k)[i] == outer_closes(t, idx)[i]);
                } else {
                    assert(st.current->0.body + t.subrange(st.start, idx) =~= t.subrange(st.start, idx));
                }
            }
            assert forall|i: int| 0 <= i < outer_closes(t, k).len() implies 0 <= #[trigger] last_definition(
                t,
                outer_closes(t, k)[i],
            ) by {
                if i < outer_closes(t, idx).len() {
                    assert(outer_closes(t, k)[i] == outer_closes(t, idx)[i]);
                }
            }
        } else {
            assert(outer_closes(t, k) == outer_closes(t, idx));
        }
    }
}

/// The functions found are exactly those completed by a `}` that closes an
/// outermost `{`, one for each such `}` and in their order. Each has the
/// name and visibility of the last function definition before that `}`,
/// the tokens strictly between the outermost `{` and that `}` as its body,
/// no parameters, and as return type the data type after the last `->`
/// outside braces between its definition and that `}` (no type where there
/// is none), whatever the functions found before it.
pub proof fn lemma_split_functions_characterized(t: Seq<TokenView>)
    requires
        split_ok(t),
    ensures
        split_all(t).len() == outer_closes(t, t.len() as int).len(),
        forall|i: int|
            0 <= i < split_all(t).len() ==> #[trigger] split_all(t)[i] == function_closed_at(
                t,
                outer_closes(t, t.len() as int)[i],
            ),
        forall|i: int|
            0 <= i < outer_closes(t, t.len() as int).len() ==> 0 <= #[trigger] last_definition(
                t,
                outer_closes(t, t.len() as int)[i],
            ),
{
    lemma_split_char(t, t.len() as int);
}

} // verus!
