use vstd::prelude::*;
use vstd::utf8::is_ascii_chars;
use crate::ast::{Callable, Constant, ParseError, PrintFunction, Scope};
use crate::executor::{EvalError, Runtime, VVA, execute_scope};
use crate::parser::stops_scope;
use crate::semantics::scope_rel;
use std::rc::Rc;

verus! {

/// The tokens that the tokenizer makes of a source text under a list of
/// operator lexemes.
pub uninterp spec fn tokens_of(input: Seq<char>, operators: Seq<Seq<char>>) -> Seq<Seq<char>>;

pub open spec fn lexemes(v: Seq<String>) -> Seq<Seq<char>> {
    v.map_values(|s: String| s@)
}

/// Relies on code_tokenizer::get_tokens, which splits the text at whitespace
/// and at the longest operator lexeme that matches; its result depends on the
/// text and the lexemes alone. It reads the text by character index up to its
/// byte length, so the text must be ASCII.
#[verifier::external_body]
fn tokenize(input: &String, operators: &Vec<String>) -> (r: Vec<String>)
    requires
        is_ascii_chars(input@),
    ensures
        lexemes(r@) == tokens_of(input@, lexemes(operators@)),
{
    code_tokenizer::get_tokens(input.clone(), operators.clone())
}

/// The lexemes of the language's operator table.
pub open spec fn standard_lexemes() -> Seq<Seq<char>> {
    seq!["+"@, "-"@, "*"@, "/"@, "+="@, "-="@, "*="@, "/="@, "="@, "=="@, "!="@, "<"@, ">"@, "("@, ")"@, "{"@, "}"@, "."@, ","@, ";"@]
}

/// Their precedences, in the same order (higher binds tighter).
pub open spec fn standard_priorities() -> Seq<i32> {
    seq![0i32, 0i32, 1i32, 1i32, -1i32, -1i32, -1i32, -1i32, -3i32, -2i32, -2i32, -2i32, -2i32, 2i32, 0i32, 0i32, 0i32, 2i32, 0i32, 0i32]
}

/// The operator table of the language: lexemes and, in the same order, their
/// precedences.
pub fn standard_operators() -> (r: (Vec<String>, Vec<i32>))
    ensures
        lexemes(r.0@) == standard_lexemes(),
        r.1@ == standard_priorities(),
{
    let words = ["+", "-", "*", "/", "+=", "-=", "*=", "/=", "=", "==", "!=", "<", ">", "(", ")", "{", "}", ".", ",", ";"];
    let priorities: [i32; 20] = [0, 0, 1, 1, -1, -1, -1, -1, -3, -2, -2, -2, -2, 2, 0, 0, 0, 2, 0, 0];
    proof {
        assert(words@.map_values(|t: &str| t@) =~= standard_lexemes());
        assert(priorities@ =~= standard_priorities());
    }
    let mut ops: Vec<String> = Vec::new();
    let mut prios: Vec<i32> = Vec::new();
    let mut i: usize = 0;
    while i < 20
        invariant
            ops@.len() == i,
            prios@.len() == i,
            i <= 20,
            words@.len() == 20,
            priorities@.len() == 20,
            forall|k: int| 0 <= k < i ==> (#[trigger] ops@[k])@ == words@[k]@,
            prios@ == priorities@.take(i as int),
            priorities@ == standard_priorities(),
            words@.map_values(|t: &str| t@) == standard_lexemes(),
        decreases 20 - i,
    {
        ops.push(words[i].to_owned());
        prios.push(priorities[i]);
        proof {
            assert(priorities@.take(i + 1) =~= priorities@.take(i as int).push(priorities@[i as int]));
        }
        i += 1;
    }
    proof {
        assert(lexemes(ops@) =~= standard_lexemes()) by {
            assert forall|k: int| 0 <= k < 20 implies lexemes(ops@)[k] == standard_lexemes()[k] by {
                assert(words@.map_values(|t: &str| t@)[k] == words@[k]@);
            }
        }
        assert(prios@ =~= standard_priorities());
    }
    (ops, prios)
}

/// Parses a whole program: the text is tokenized and the tokens must form one
/// statement sequence.
pub fn parse_program(source: &String, operators: &Vec<String>, operator_priorities: &Vec<i32>) -> (r: Result<Scope, ParseError>)
    requires
        operators@.len() == operator_priorities@.len(),
    ensures
        !is_ascii_chars(source@) ==> r == Err::<Scope, ParseError>(ParseError::UnsupportedCharacter),
        is_ascii_chars(source@) && tokens_of(source@, lexemes(operators@)).len() == 0
            ==> r is Ok && r->Ok_0.statements@.len() == 0,
        is_ascii_chars(source@) ==> exists|toks: Seq<String>, sr: Result<(Scope, int), ParseError>|
            #[trigger] crate::grammar::step(toks, sr) && lexemes(toks) == tokens_of(source@, lexemes(operators@))
            && crate::grammar::scope_parse_rel(toks, operators@, operator_priorities@, 0, toks.len() as int, sr)
            && r == match sr {
                Ok((s, q)) => if q < toks.len() { Err(ParseError::UnexpectedToken) } else { Ok::<Scope, ParseError>(s) },
                Err(x) => Err(x),
            },
        r matches Ok(s) ==> s.parent.is_none() && s.accessible_variables@.len() == 0 && s.return_value.is_none(),
{
    if !source.is_ascii() {
        return Err(ParseError::UnsupportedCharacter);
    }
    let tokens = tokenize(source, operators);
    let mut iterator: usize = 0;
    let parsed = Scope::parse(&tokens, operators, operator_priorities, &mut iterator, tokens.len());
    let scope = match parsed {
        Ok(s) => s,
        Err(e) => {
            proof {
                assert(crate::grammar::step(tokens@, Err::<(Scope, int), ParseError>(e)));
            }
            return Err(e);
        },
    };
    proof {
        assert(crate::grammar::step(tokens@, Ok::<(Scope, int), ParseError>((scope, iterator as int))));
    }
    if iterator < tokens.len() {
        return Err(ParseError::UnexpectedToken);
    }
    Ok(scope)
}

/// `rt` is a runtime whose only scope is `root`, where the one variable is
/// `print`, bound to the builtin.
pub open spec fn prepared(rt: Runtime, root: Scope) -> bool {
    &&& rt.wf()
    &&& rt.scopes@.len() == 1
    &&& rt.scopes@[0].statements == root.statements
    &&& rt.scopes@[0].parent.is_none()
    &&& rt.scopes@[0].return_value.is_none()
    &&& rt.scopes@[0].accessible_variables@ == seq![0usize]
    &&& rt.cells@.len() == 1
    &&& rt.cells@[0].name matches Some(n) && n@ == "print"@
    &&& rt.cells@[0].constant is Function
    &&& *rt.cells@[0].constant->Function_0 is Print
    &&& rt.output@.len() == 0
}

/// A runtime with `root` as its only scope and `print` bound in it.
pub fn prepare_program(root: Scope) -> (r: Runtime)
    requires
        root.parent.is_none(),
        root.accessible_variables@.len() == 0,
        root.return_value.is_none(),
    ensures
        prepared(r, root),
{
    let mut runtime = Runtime::new(root);
    let print = Constant::Function(Rc::new(Callable::Print(PrintFunction)));
    runtime.bind_host_value(0, "print".to_owned(), print);
    proof {
        assert(runtime.scopes@[0].accessible_variables@ =~= seq![0usize]);
        assert(runtime.cells@[0].constant == print);
    }
    runtime
}

/// Runs a parsed program: its statements are executed on the prepared
/// runtime, with at most `depth` nested calls.
pub fn execute_program(root: Scope, depth: u64) -> (r: (Runtime, Result<Option<VVA>, EvalError>))
    requires
        root.parent.is_none(),
        root.accessible_variables@.len() == 0,
        root.return_value.is_none(),
    ensures
        exists|start: Runtime| #[trigger] prepared(start, root) && r.0.extends(&start)
            && scope_rel(start, 0, depth, r.0, r.1),
        root.statements@.len() == 0 ==> r.1 == Ok::<Option<VVA>, EvalError>(None) && prepared(r.0, root),
{
    let mut runtime = prepare_program(root);
    let ghost start = runtime;
    let result = execute_scope(&mut runtime, 0, depth);
    proof {
        assert(prepared(start, root));
    }
    (runtime, result)
}

} // verus!
