//! The call descriptor: the declared types and the values of one call, built
//! afresh for every call and checked before anything is handed to the call
//! machinery.
//!
//! What a callee really expects cannot be known here. The descriptor only
//! vouches for itself: every value is of the type declared for it, and no
//! argument is declared `Void`. A caller that declares types the callee does
//! not have gets wrong numbers, corrupted memory or a crash, and no error.

use crate::error::{BridgeError, CallFailure};
use crate::scan::{copy_range, SPACE};
use crate::token::{
    tokenize_from, tokens_from, tokens_view, Token, TokenView, TokenizeErrorView,
};
use crate::types::{ArgumentValue, ArgumentView, TypeDescriptor};
use vstd::prelude::*;

verus! {

/// The argument that a token stands for: a string is passed as a pointer
/// to its bytes, a decimal number with fraction or exponent as a 64-bit
/// float, a plain decimal number as a signed and a hex literal as an
/// unsigned 32-bit integer.
pub open spec fn argument_of(token: TokenView) -> ArgumentView {
    match token {
        TokenView::String(content) => ArgumentView::Pointer(content),
        TokenView::Float(text) => ArgumentView::Float64(text),
        TokenView::Integer(value) => ArgumentView::Int32(value),
        TokenView::Hex(value) => ArgumentView::UInt32(value),
    }
}

/// A value together with the type it is passed as.
pub open spec fn typed(value: ArgumentView) -> (TypeDescriptor, ArgumentView) {
    (value.descriptor(), value)
}

/// A declared type and a value as mathematical values.
pub open spec fn pair_view(pair: (TypeDescriptor, ArgumentValue)) -> (
    TypeDescriptor,
    ArgumentView,
) {
    (pair.0, pair.1@)
}

/// An argument list as a mathematical value.
pub open spec fn args_view(args: Seq<(TypeDescriptor, ArgumentValue)>) -> Seq<
    (TypeDescriptor, ArgumentView),
> {
    args.map_values(|pair: (TypeDescriptor, ArgumentValue)| pair_view(pair))
}

/// The typed arguments that a sequence of tokens stands for.
pub open spec fn arguments_of(tokens: Seq<TokenView>) -> Seq<(TypeDescriptor, ArgumentView)> {
    tokens.map_values(|token: TokenView| typed(argument_of(token)))
}

/// Whether a value is not of the type declared for it. An argument that is
/// declared `Void` always is at fault, as no value is of that type.
pub open spec fn is_faulty(pair: (TypeDescriptor, ArgumentView)) -> bool {
    pair.0 != pair.1.descriptor()
}

/// The index of the first faulty argument at or after `from`.
pub open spec fn first_faulty(args: Seq<(TypeDescriptor, ArgumentView)>, from: int) -> Option<int>
    decreases args.len() - from,
{
    if from < 0 || from >= args.len() {
        None
    } else if is_faulty(args[from]) {
        Some(from)
    } else {
        first_faulty(args, from + 1)
    }
}

/// The failure that a faulty argument at `index` is reported as.
pub open spec fn fault_of(pair: (TypeDescriptor, ArgumentView), index: int) -> CallFailure {
    if pair.0 == TypeDescriptor::Void {
        CallFailure::VoidArgument { index: index as usize }
    } else {
        CallFailure::Mismatch { index: index as usize }
    }
}

/// Why no descriptor can be built from `args`, or nothing where one can:
/// too many arguments count first, then the first faulty argument.
pub open spec fn check_call(args: Seq<(TypeDescriptor, ArgumentView)>) -> Option<CallFailure> {
    if args.len() > u32::MAX {
        Some(CallFailure::TooManyArguments)
    } else {
        match first_faulty(args, 0) {
            Some(index) => Some(fault_of(args[index], index)),
            None => None,
        }
    }
}

/// The first faulty argument is faulty, and none before it is; where there
/// is none, no argument is faulty.
pub proof fn lemma_first_faulty(args: Seq<(TypeDescriptor, ArgumentView)>, from: int)
    requires
        0 <= from <= args.len(),
    ensures
        match first_faulty(args, from) {
            Some(index) => {
                &&& from <= index < args.len()
                &&& is_faulty(args[index])
                &&& forall|j: int| from <= j < index ==> !is_faulty(#[trigger] args[j])
            },
            None => forall|j: int| from <= j < args.len() ==> !is_faulty(#[trigger] args[j]),
        },
    decreases args.len() - from,
{
    if from < args.len() && !is_faulty(args[from]) {
        lemma_first_faulty(args, from + 1);
    }
}

/// A descriptor as a mathematical value.
pub struct CallDescriptorView {
    pub args: Seq<(TypeDescriptor, ArgumentView)>,
    pub ret: TypeDescriptor,
}

/// The declared types and the values of one call, and its declared return
/// type. The values own the buffers of their pointer arguments, so those
/// live for as long as the descriptor does.
#[derive(Debug)]
pub struct CallDescriptor {
    args: Vec<(TypeDescriptor, ArgumentValue)>,
    ret: TypeDescriptor,
}

impl View for CallDescriptor {
    type V = CallDescriptorView;

    closed spec fn view(&self) -> CallDescriptorView {
        CallDescriptorView { args: args_view(self.args@), ret: self.ret }
    }
}

impl CallDescriptor {
    #[verifier::type_invariant]
    spec fn inv(self) -> bool {
        check_call(args_view(self.args@)) is None
    }

    /// Builds the descriptor of a call with the arguments `args` and the
    /// return type `ret`, or says why none can be built.
    pub fn new(args: Vec<(TypeDescriptor, ArgumentValue)>, ret: TypeDescriptor) -> (r: Result<
        CallDescriptor,
        BridgeError,
    >)
        ensures
            match check_call(args_view(args@)) {
                None => r matches Ok(d) && d@ == (CallDescriptorView {
                    args: args_view(args@),
                    ret,
                }),
                Some(failure) => r == Err::<CallDescriptor, BridgeError>(
                    BridgeError::CallFailed(failure),
                ),
            },
    {
        let ghost view = args_view(args@);
        if args.len() as u64 > 0xFFFF_FFFF {
            return Err(BridgeError::CallFailed(CallFailure::TooManyArguments));
        }
        let mut i: usize = 0;
        while i < args.len()
            invariant
                i <= args.len() <= u32::MAX,
                view == args_view(args@),
                first_faulty(view, 0) == first_faulty(view, i as int),
            decreases args.len() - i,
        {
            let declared = args[i].0;
            let actual = args[i].1.descriptor();
            assert(view[i as int] == pair_view(args@[i as int]));
            if declared != actual {
                if declared == TypeDescriptor::Void {
                    return Err(BridgeError::CallFailed(CallFailure::VoidArgument { index: i }));
                } else {
                    return Err(BridgeError::CallFailed(CallFailure::Mismatch { index: i }));
                }
            }
            i += 1;
        }
        Ok(CallDescriptor { args, ret })
    }

    /// The number of arguments.
    pub fn arity(&self) -> (n: usize)
        ensures
            n == self@.args.len(),
            n <= u32::MAX,
    {
        proof {
            use_type_invariant(self);
        }
        self.args.len()
    }

    /// The declared type of the argument at `index`, which is the type of
    /// its value and never `Void`.
    pub fn arg_type(&self, index: usize) -> (t: TypeDescriptor)
        requires
            index < self@.args.len(),
        ensures
            t == self@.args[index as int].0,
            t == self@.args[index as int].1.descriptor(),
            t.spec_is_argument(),
    {
        proof {
            use_type_invariant(self);
            lemma_first_faulty(args_view(self.args@), 0);
            assert(!is_faulty(args_view(self.args@)[index as int]));
        }
        self.args[index].0
    }

    /// The value of the argument at `index`.
    pub fn value(&self, index: usize) -> (v: &ArgumentValue)
        requires
            index < self@.args.len(),
        ensures
            v@ == self@.args[index as int].1,
    {
        &self.args[index].1
    }

    /// The declared return type.
    pub fn return_type(&self) -> (t: TypeDescriptor)
        ensures
            t == self@.ret,
    {
        self.ret
    }
}

/// Every argument of a descriptor is of the type declared for it, so none is
/// declared `Void`, and the arguments can be counted in 32 bits.
pub proof fn lemma_descriptor_is_sound(args: Seq<(TypeDescriptor, ArgumentView)>)
    requires
        check_call(args) is None,
    ensures
        args.len() <= u32::MAX,
        forall|i: int|
            0 <= i < args.len() ==> (#[trigger] args[i]).0 == args[i].1.descriptor()
                && args[i].0.spec_is_argument(),
{
    lemma_first_faulty(args, 0);
    assert forall|i: int| 0 <= i < args.len() implies (#[trigger] args[i]).0
        == args[i].1.descriptor() && args[i].0.spec_is_argument() by {
        assert(!is_faulty(args[i]));
    }
}

/// The arguments that tokens stand for always make a descriptor, unless
/// there are too many of them.
pub proof fn lemma_tokens_make_a_call(tokens: Seq<TokenView>)
    requires
        tokens.len() <= u32::MAX,
    ensures
        check_call(arguments_of(tokens)) is None,
{
    let args = arguments_of(tokens);
    lemma_first_faulty(args, 0);
    if let Some(index) = first_faulty(args, 0) {
        assert(args[index] == typed(argument_of(tokens[index])));
    }
}

/// Turns a token into a typed argument. The argument owns a copy of the
/// token's buffer.
pub fn parse_args(arg: &Token) -> (r: (TypeDescriptor, ArgumentValue))
    ensures
        pair_view(r) == typed(argument_of(arg@)),
{
    match arg {
        Token::String(content) => (TypeDescriptor::Pointer, ArgumentValue::Pointer(content.clone())),
        Token::Float(text) => (TypeDescriptor::Float64, ArgumentValue::Float64(text.clone())),
        Token::Integer(value) => (TypeDescriptor::Int32, ArgumentValue::Int32(*value)),
        Token::Hex(value) => (TypeDescriptor::UInt32, ArgumentValue::UInt32(*value)),
    }
}

/// Turns the tokens of a line into typed arguments, in order.
pub fn arguments(tokens: &Vec<Token>) -> (args: Vec<(TypeDescriptor, ArgumentValue)>)
    ensures
        args_view(args@) == arguments_of(tokens_view(tokens@)),
{
    let mut args: Vec<(TypeDescriptor, ArgumentValue)> = Vec::new();
    let mut i: usize = 0;
    while i < tokens.len()
        invariant
            i <= tokens.len(),
            args@.len() == i,
            forall|k: int| 0 <= k < i ==> pair_view(#[trigger] args@[k]) == typed(argument_of(tokens@[k]@)),
        decreases tokens.len() - i,
    {
        args.push(parse_args(&tokens[i]));
        i += 1;
    }
    assert(args_view(args@) =~= arguments_of(tokens_view(tokens@)));
    args
}

/// The index of the first space at or after `from`, or the length of `s`
/// where none follows.
pub open spec fn name_end(s: Seq<u8>, from: int) -> int
    decreases s.len() - from,
{
    if 0 <= from < s.len() && s[from] != SPACE {
        name_end(s, from + 1)
    } else {
        from
    }
}

/// The name of a line ends inside the line, at a space or at the end, and
/// holds no space.
pub proof fn lemma_name_end(s: Seq<u8>, from: int)
    requires
        0 <= from <= s.len(),
    ensures
        from <= name_end(s, from) <= s.len(),
        name_end(s, from) < s.len() ==> s[name_end(s, from)] == SPACE,
        forall|k: int| from <= k < name_end(s, from) ==> #[trigger] s[k] != SPACE,
    decreases s.len() - from,
{
    if from < s.len() && s[from] != SPACE {
        lemma_name_end(s, from + 1);
    }
}

/// Finds where the function name at the start of a line ends.
pub fn function_name_end(line: &[u8]) -> (end: usize)
    ensures
        end == name_end(line@, 0),
        end <= line.len(),
{
    let mut j: usize = 0;
    while j < line.len() && line[j] != SPACE
        invariant
            j <= line.len(),
            name_end(line@, 0) == name_end(line@, j as int),
        decreases line.len() - j,
    {
        j += 1;
    }
    j
}

/// One line of input, taken apart: the name of the function to call and
/// the arguments to call it with.
#[derive(Debug)]
pub struct Invocation {
    pub name: Vec<u8>,
    pub args: Vec<(TypeDescriptor, ArgumentValue)>,
}

/// What a line asks for, as a mathematical value: the name and the
/// arguments, or the error of the tokenizer. The name is what stands before
/// the first space; the arguments are the tokens of the rest. An error
/// counts its offset from the start of the line.
pub open spec fn spec_parse_line(line: Seq<u8>) -> Result<
    (Seq<u8>, Seq<(TypeDescriptor, ArgumentView)>),
    TokenizeErrorView,
> {
    match tokens_from(line, name_end(line, 0)) {
        Ok(tokens) => Ok((line.subrange(0, name_end(line, 0)), arguments_of(tokens))),
        Err(e) => Err(e),
    }
}

/// Takes a line of input apart.
pub fn parse_line(line: &[u8]) -> (r: Result<Invocation, BridgeError>)
    ensures
        match spec_parse_line(line@) {
            Ok((name, args)) => r matches Ok(call) && call.name@ == name && args_view(call.args@)
                == args,
            Err(e) => r matches Err(BridgeError::TokenizeError(te)) && te@ == e,
        },
{
    let end = function_name_end(line);
    match tokenize_from(line, end) {
        Ok(tokens) => {
            let name = copy_range(line, 0, end);
            Ok(Invocation { name, args: arguments(&tokens) })
        },
        Err(e) => Err(BridgeError::TokenizeError(e)),
    }
}

} // verus!
