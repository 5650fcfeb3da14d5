//! The static checker: a suite of independent traversals over the
//! syntax tree, each enforcing one family of rules. Every pass is
//! fail-fast: it reports the first offence it meets.

use vstd::prelude::*;
use vstd::string::{StrSliceExecFns, StringExecFns};

use crate::ast::{Location, MacroBody, NessaError, NessaExpr, Pattern};
use crate::context::{spec_interface_name_taken, NessaContext};
use crate::types::{string_eq, type_view, views, spec_has_templates, spec_has_self, Type, TypeS};

verus! {

/// The expression is in compiled form: none of the unresolved
/// variants appears anywhere in it.
pub open spec fn spec_checkable(e: NessaExpr) -> bool
    decreases e,
{
    match e {
        NessaExpr::Lambda(_, _, _, _, _) => false,
        NessaExpr::NameReference(_, _) => false,
        NessaExpr::VariableDefinition(_, _, _, _) => false,
        NessaExpr::VariableAssignment(_, _, _) => false,
        NessaExpr::For(_, _, _, _) => false,
        NessaExpr::QualifiedName(_, _, _) => false,
        NessaExpr::Tuple(_, args) => forall|k: int|
            0 <= k < args@.len() ==> spec_checkable(#[trigger] args@[k]),
        NessaExpr::CompiledVariableDefinition(_, _, _, _, inner) => spec_checkable(*inner),
        NessaExpr::CompiledVariableAssignment(_, _, _, _, inner) => spec_checkable(*inner),
        NessaExpr::AttributeAccess(_, inner, _) => spec_checkable(*inner),
        NessaExpr::AttributeAssignment(_, a, b, _) => spec_checkable(*a) && spec_checkable(*b),
        NessaExpr::FunctionCall(_, _, _, args) => forall|k: int|
            0 <= k < args@.len() ==> spec_checkable(#[trigger] args@[k]),
        NessaExpr::UnaryOperation(_, _, _, a) => spec_checkable(*a),
        NessaExpr::BinaryOperation(_, _, _, a, b) => spec_checkable(*a) && spec_checkable(*b),
        NessaExpr::NaryOperation(_, _, _, a, args) => spec_checkable(*a) && forall|k: int|
            0 <= k < args@.len() ==> spec_checkable(#[trigger] args@[k]),
        NessaExpr::If(_, c, ib, ei, eb) => spec_checkable(*c) && (forall|k: int|
            0 <= k < ib@.len() ==> spec_checkable(#[trigger] ib@[k])) && (forall|k: int|
            0 <= k < ei@.len() ==> spec_checkable((#[trigger] ei@[k]).0) && spec_all_checkable(
                ei@[k].1@,
            )) && (match eb {
            Some(lines) => spec_all_checkable(lines@),
            None => true,
        }),
        NessaExpr::While(_, c, b) => spec_checkable(*c) && spec_all_checkable(b@),
        NessaExpr::CompiledFor(_, _, _, _, c, b) => spec_checkable(*c) && spec_all_checkable(b@),
        NessaExpr::DoBlock(_, b, _) => spec_all_checkable(b@),
        NessaExpr::Return(_, inner) => spec_checkable(*inner),
        NessaExpr::CompiledLambda(_, _, c, _, _, b) => (forall|k: int|
            0 <= k < c@.len() ==> spec_checkable((#[trigger] c@[k]).1)) && spec_all_checkable(b@),
        NessaExpr::FunctionDefinition(_, _, _, _, _, _, b) => spec_all_checkable(b@),
        NessaExpr::PrefixOperationDefinition(_, _, _, _, _, _, _, b) => spec_all_checkable(b@),
        NessaExpr::PostfixOperationDefinition(_, _, _, _, _, _, _, b) => spec_all_checkable(b@),
        NessaExpr::BinaryOperationDefinition(_, _, _, _, _, _, _, b) => spec_all_checkable(b@),
        NessaExpr::NaryOperationDefinition(_, _, _, _, _, _, _, b) => spec_all_checkable(b@),
        _ => true,
    }
}

pub open spec fn spec_all_checkable(lines: Seq<NessaExpr>) -> bool
    decreases lines,
{
    forall|k: int| 0 <= k < lines.len() ==> spec_checkable(#[trigger] lines[k])
}

/// One line of a body guarantees a return: it is a `return`, or an
/// `if` with an `else` whose every branch guarantees one.
pub open spec fn spec_line_returns(e: NessaExpr) -> bool
    decreases e,
{
    match e {
        NessaExpr::Return(_, _) => true,
        NessaExpr::If(_, _, ib, ei, eb) => match eb {
            Some(eb_lines) => spec_definitely_returns(ib@) && spec_definitely_returns(eb_lines@)
                && forall|k: int|
                0 <= k < ei@.len() ==> spec_definitely_returns((#[trigger] ei@[k]).1@),
            None => false,
        },
        _ => false,
    }
}

/// A body definitely returns iff one of its lines guarantees a
/// return. An `if` without an `else` never counts, whatever its
/// branches do.
pub open spec fn spec_definitely_returns(lines: Seq<NessaExpr>) -> bool
    decreases lines,
{
    exists|k: int| 0 <= k < lines.len() && spec_line_returns(#[trigger] lines[k])
}

/// Whether the declaration's body must guarantee a return, and does:
/// operation, function, lambda and do-block bodies are checked;
/// everything else passes.
pub open spec fn spec_ensured_return_ok(e: NessaExpr) -> bool {
    match e {
        NessaExpr::PrefixOperationDefinition(_, _, _, _, _, _, _, b) => spec_definitely_returns(b@),
        NessaExpr::PostfixOperationDefinition(_, _, _, _, _, _, _, b) => spec_definitely_returns(
            b@,
        ),
        NessaExpr::BinaryOperationDefinition(_, _, _, _, _, _, _, b) => spec_definitely_returns(b@),
        NessaExpr::NaryOperationDefinition(_, _, _, _, _, _, _, b) => spec_definitely_returns(b@),
        NessaExpr::CompiledLambda(_, _, _, _, _, b) => spec_definitely_returns(b@),
        NessaExpr::FunctionDefinition(_, _, _, _, _, _, b) => spec_definitely_returns(b@),
        NessaExpr::DoBlock(_, b, _) => spec_definitely_returns(b@),
        _ => true,
    }
}

impl NessaContext {
    /// Check that a declaration body guarantees a value on every path.
    pub fn ensured_return_check(expr: &NessaExpr) -> (r: Result<(), NessaError>)
        ensures
            (r is Ok) == spec_ensured_return_ok(*expr),
    {
        match expr {
            NessaExpr::PrefixOperationDefinition(l, _, _, _, _, _, _, body) => {
                NessaContext::ensured_return_check_body(body, l, "Operation")
            },
            NessaExpr::PostfixOperationDefinition(l, _, _, _, _, _, _, body) => {
                NessaContext::ensured_return_check_body(body, l, "Operation")
            },
            NessaExpr::BinaryOperationDefinition(l, _, _, _, _, _, _, body) => {
                NessaContext::ensured_return_check_body(body, l, "Operation")
            },
            NessaExpr::NaryOperationDefinition(l, _, _, _, _, _, _, body) => {
                NessaContext::ensured_return_check_body(body, l, "Operation")
            },
            NessaExpr::CompiledLambda(l, _, _, _, _, body) => {
                NessaContext::ensured_return_check_body(body, l, "Function")
            },
            NessaExpr::FunctionDefinition(l, _, _, _, _, _, body) => {
                NessaContext::ensured_return_check_body(body, l, "Function")
            },
            NessaExpr::DoBlock(l, body, _) => {
                NessaContext::ensured_return_check_body(body, l, "Do block")
            },
            _ => Ok(()),
        }
    }

    /// Check that a body definitely returns a value.
    #[verifier::loop_isolation(false)]
    pub fn ensured_return_check_body(
        lines: &Vec<NessaExpr>,
        l: &Location,
        instance: &str,
    ) -> (r: Result<(), NessaError>)
        ensures
            (r is Ok) == spec_definitely_returns(lines@),
        decreases lines,
    {
        let mut j: usize = 0;
        while j < lines.len()
            invariant
                j <= lines@.len(),
                forall|k: int| 0 <= k < j ==> !spec_line_returns(#[trigger] lines@[k]),
            decreases lines@.len() - j,
        {
            match &lines[j] {
                NessaExpr::Return(_, _) => {
                    return Ok(());
                },
                NessaExpr::If(_, _, ib, ei, eb_opt) => {
                    match eb_opt {
                        Some(eb) => {
                            let mut all_return = NessaContext::ensured_return_check_body(
                                ib,
                                l,
                                instance,
                            ).is_ok() && NessaContext::ensured_return_check_body(
                                eb,
                                l,
                                instance,
                            ).is_ok();
                            if all_return {
                                let mut i: usize = 0;
                                while i < ei.len()
                                    invariant
                                        i <= ei@.len(),
                                        all_return,
                                        spec_definitely_returns(ib@),
                                        spec_definitely_returns(eb@),
                                        forall|k: int|
                                            0 <= k < i ==> spec_definitely_returns(
                                                (#[trigger] ei@[k]).1@,
                                            ),
                                    decreases ei@.len() - i,
                                {
                                    if NessaContext::ensured_return_check_body(
                                        &ei[i].1,
                                        l,
                                        instance,
                                    ).is_err() {
                                        all_return = false;
                                        break ;
                                    }
                                    i = i + 1;
                                }
                                if all_return {
                                    return Ok(());
                                }
                            }
                        },
                        None => {},
                    }
                },
                _ => {},
            }
            proof {
                assert(!spec_line_returns(lines@[j as int]));
            }
            j = j + 1;
        }
        let mut msg = String::new();
        msg.append(instance);
        msg.append(" may not always return a value");
        Err(NessaError::compiler_error(msg, l, Vec::new()))
    }

    /// Break and continue statements are only allowed inside loops;
    /// lambdas and non-generic operation bodies shadow the loop they
    /// sit in.
    #[verifier::loop_isolation(false)]
    pub fn break_continue_check(expr: &NessaExpr, allowed: bool) -> (r: Result<(), NessaError>)
        requires
            spec_checkable(*expr),
        ensures
            (r is Ok) == spec_break_ok(*expr, allowed),
        decreases *expr,
    {
        match expr {
            NessaExpr::Break(l) => {
                if allowed {
                    Ok(())
                } else {
                    Err(
                        NessaError::compiler_error(
                            String::from_str("Break statement is not allowed in this context"),
                            l,
                            Vec::new(),
                        ),
                    )
                }
            },
            NessaExpr::Continue(l) => {
                if allowed {
                    Ok(())
                } else {
                    Err(
                        NessaError::compiler_error(
                            String::from_str("Continue statement is not allowed in this context"),
                            l,
                            Vec::new(),
                        ),
                    )
                }
            },
            NessaExpr::CompiledVariableAssignment(_, _, _, _, e) => {
                NessaContext::break_continue_check(e, allowed)
            },
            NessaExpr::CompiledVariableDefinition(_, _, _, _, e) => {
                NessaContext::break_continue_check(e, allowed)
            },
            NessaExpr::Tuple(_, args) => break_continue_lines(args, allowed),
            NessaExpr::If(_, c, ib, ei, eb) => {
                let rc = NessaContext::break_continue_check(c, allowed);
                if rc.is_err() {
                    return rc;
                }
                let rb = break_continue_lines(ib, allowed);
                if rb.is_err() {
                    return rb;
                }
                let mut i: usize = 0;
                while i < ei.len()
                    invariant
                        i <= ei@.len(),
                        forall|k: int|
                            0 <= k < i ==> spec_break_ok((#[trigger] ei@[k]).0, allowed)
                                && spec_break_lines_ok(ei@[k].1@, allowed),
                    decreases ei@.len() - i,
                {
                    let rh = NessaContext::break_continue_check(&ei[i].0, allowed);
                    if rh.is_err() {
                        return rh;
                    }
                    let rl = break_continue_lines(&ei[i].1, allowed);
                    if rl.is_err() {
                        return rl;
                    }
                    i = i + 1;
                }
                match eb {
                    Some(eb_lines) => break_continue_lines(eb_lines, allowed),
                    None => Ok(()),
                }
            },
            NessaExpr::DoBlock(_, b, _) => break_continue_lines(b, allowed),
            NessaExpr::CompiledFor(_, _, _, _, c, b) => {
                let rc = NessaContext::break_continue_check(c, true);
                if rc.is_err() {
                    return rc;
                }
                break_continue_lines(b, true)
            },
            NessaExpr::While(_, c, b) => {
                let rc = NessaContext::break_continue_check(c, true);
                if rc.is_err() {
                    return rc;
                }
                break_continue_lines(b, true)
            },
            NessaExpr::UnaryOperation(_, _, _, e) => NessaContext::break_continue_check(e, allowed),
            NessaExpr::AttributeAssignment(_, a, b, _) => {
                let ra = NessaContext::break_continue_check(a, allowed);
                if ra.is_err() {
                    return ra;
                }
                NessaContext::break_continue_check(b, allowed)
            },
            NessaExpr::BinaryOperation(_, _, _, a, b) => {
                let ra = NessaContext::break_continue_check(a, allowed);
                if ra.is_err() {
                    return ra;
                }
                NessaContext::break_continue_check(b, allowed)
            },
            NessaExpr::NaryOperation(_, _, _, a, args) => {
                let ra = NessaContext::break_continue_check(a, allowed);
                if ra.is_err() {
                    return ra;
                }
                break_continue_lines(args, allowed)
            },
            NessaExpr::FunctionCall(_, _, _, args) => break_continue_lines(args, allowed),
            NessaExpr::AttributeAccess(_, e, _) => NessaContext::break_continue_check(e, allowed),
            NessaExpr::Return(_, e) => NessaContext::break_continue_check(e, allowed),
            NessaExpr::CompiledLambda(_, _, _, _, _, b) => break_continue_lines(b, false),
            NessaExpr::PrefixOperationDefinition(_, _, _, tm, _, _, _, b) => {
                if tm.len() == 0 {
                    break_continue_lines(b, false)
                } else {
                    Ok(())
                }
            },
            NessaExpr::PostfixOperationDefinition(_, _, _, tm, _, _, _, b) => {
                if tm.len() == 0 {
                    break_continue_lines(b, false)
                } else {
                    Ok(())
                }
            },
            NessaExpr::BinaryOperationDefinition(_, _, _, tm, _, _, _, b) => {
                if tm.len() == 0 {
                    break_continue_lines(b, false)
                } else {
                    Ok(())
                }
            },
            NessaExpr::NaryOperationDefinition(_, _, _, tm, _, _, _, b) => {
                if tm.len() == 0 {
                    break_continue_lines(b, false)
                } else {
                    Ok(())
                }
            },
            NessaExpr::FunctionDefinition(_, _, _, tm, _, _, b) => {
                if tm.len() == 0 {
                    break_continue_lines(b, false)
                } else {
                    Ok(())
                }
            },
            _ => Ok(()),
        }
    }
}

/// Break and continue are legal exactly inside a loop body or
/// condition; a lambda or a non-generic declaration body shadows the
/// enclosing loop.
pub open spec fn spec_break_ok(e: NessaExpr, allowed: bool) -> bool
    decreases e,
{
    match e {
        NessaExpr::Break(_) => allowed,
        NessaExpr::Continue(_) => allowed,
        NessaExpr::CompiledVariableAssignment(_, _, _, _, inner) => spec_break_ok(*inner, allowed),
        NessaExpr::CompiledVariableDefinition(_, _, _, _, inner) => spec_break_ok(*inner, allowed),
        NessaExpr::Tuple(_, args) => spec_break_lines_ok(args@, allowed),
        NessaExpr::If(_, c, ib, ei, eb) => spec_break_ok(*c, allowed) && spec_break_lines_ok(
            ib@,
            allowed,
        ) && (forall|k: int|
            0 <= k < ei@.len() ==> spec_break_ok((#[trigger] ei@[k]).0, allowed)
                && spec_break_lines_ok(ei@[k].1@, allowed)) && (match eb {
            Some(lines) => spec_break_lines_ok(lines@, allowed),
            None => true,
        }),
        NessaExpr::DoBlock(_, b, _) => spec_break_lines_ok(b@, allowed),
        NessaExpr::CompiledFor(_, _, _, _, c, b) => spec_break_ok(*c, true) && spec_break_lines_ok(
            b@,
            true,
        ),
        NessaExpr::While(_, c, b) => spec_break_ok(*c, true) && spec_break_lines_ok(b@, true),
        NessaExpr::UnaryOperation(_, _, _, inner) => spec_break_ok(*inner, allowed),
        NessaExpr::AttributeAssignment(_, a, b, _) => spec_break_ok(*a, allowed) && spec_break_ok(
            *b,
            allowed,
        ),
        NessaExpr::BinaryOperation(_, _, _, a, b) => spec_break_ok(*a, allowed) && spec_break_ok(
            *b,
            allowed,
        ),
        NessaExpr::NaryOperation(_, _, _, a, args) => spec_break_ok(*a, allowed)
            && spec_break_lines_ok(args@, allowed),
        NessaExpr::FunctionCall(_, _, _, args) => spec_break_lines_ok(args@, allowed),
        NessaExpr::AttributeAccess(_, inner, _) => spec_break_ok(*inner, allowed),
        NessaExpr::Return(_, inner) => spec_break_ok(*inner, allowed),
        NessaExpr::CompiledLambda(_, _, _, _, _, b) => spec_break_lines_ok(b@, false),
        NessaExpr::PrefixOperationDefinition(_, _, _, tm, _, _, _, b) => tm@.len() != 0
            || spec_break_lines_ok(b@, false),
        NessaExpr::PostfixOperationDefinition(_, _, _, tm, _, _, _, b) => tm@.len() != 0
            || spec_break_lines_ok(b@, false),
        NessaExpr::BinaryOperationDefinition(_, _, _, tm, _, _, _, b) => tm@.len() != 0
            || spec_break_lines_ok(b@, false),
        NessaExpr::NaryOperationDefinition(_, _, _, tm, _, _, _, b) => tm@.len() != 0
            || spec_break_lines_ok(b@, false),
        NessaExpr::FunctionDefinition(_, _, _, tm, _, _, b) => tm@.len() != 0
            || spec_break_lines_ok(b@, false),
        _ => true,
    }
}

pub open spec fn spec_break_lines_ok(lines: Seq<NessaExpr>, allowed: bool) -> bool
    decreases lines,
{
    forall|k: int| 0 <= k < lines.len() ==> spec_break_ok(#[trigger] lines[k], allowed)
}

/// No name occurs twice.
pub open spec fn spec_unique(names: Seq<Seq<char>>) -> bool {
    forall|i: int, j: int| 0 <= i < j < names.len() ==> #[trigger] names[i] != #[trigger] names[j]
}

/// The names of a string list.
pub open spec fn spec_names(s: Seq<String>) -> Seq<Seq<char>> {
    Seq::new(s.len(), |i: int| s[i]@)
}

/// The names of a named list.
pub open spec fn spec_fst_names<T>(s: Seq<(String, T)>) -> Seq<Seq<char>> {
    Seq::new(s.len(), |i: int| s[i].0@)
}

/// Two name lists share no element.
pub open spec fn spec_disjoint(a: Seq<Seq<char>>, b: Seq<Seq<char>>) -> bool {
    forall|i: int, j: int|
        0 <= i < a.len() && 0 <= j < b.len() ==> #[trigger] a[i] != #[trigger] b[j]
}

/// The name occurs in the list.
pub open spec fn spec_name_in(names: Seq<Seq<char>>, x: Seq<char>) -> bool {
    exists|k: int| 0 <= k < names.len() && #[trigger] names[k] == x
}

/// The declaration introduces no repeated parameter, template
/// parameter or capture name, and captures do not shadow parameters.
pub open spec fn spec_repeated_args_ok(e: NessaExpr) -> bool {
    match e {
        NessaExpr::PrefixOperationDefinition(_, _, _, t, _, _, _, _) => spec_unique(spec_names(t@)),
        NessaExpr::PostfixOperationDefinition(_, _, _, t, _, _, _, _) => spec_unique(
            spec_names(t@),
        ),
        NessaExpr::BinaryOperationDefinition(_, _, _, t, a, b, _, _) => a.0@ != b.0@ && spec_unique(
            spec_names(t@),
        ),
        NessaExpr::NaryOperationDefinition(_, _, _, t, a, args, _, _) => spec_unique(
            seq![a.0@] + spec_fst_names(args@),
        ) && spec_unique(spec_names(t@)),
        NessaExpr::FunctionDefinition(_, _, _, t, a, _, _) => spec_unique(spec_fst_names(a@))
            && spec_unique(spec_names(t@)),
        NessaExpr::CompiledLambda(_, _, c, a, _, _) => spec_unique(spec_fst_names(a@))
            && spec_unique(spec_fst_names(c@)) && spec_disjoint(
            spec_fst_names(c@),
            spec_fst_names(a@),
        ),
        _ => true,
    }
}

impl NessaContext {
    /// No name may be defined twice in one list.
    #[verifier::loop_isolation(false)]
    pub fn repeated_args(&self, args: &Vec<String>, item: &str) -> (r: Result<(), String>)
        ensures
            (r is Ok) == spec_unique(spec_names(args@)),
    {
        let mut i: usize = 0;
        while i < args.len()
            invariant
                i <= args@.len(),
                forall|x: int, y: int| 0 <= x < y < i ==> spec_names(args@)[x] != spec_names(
                    args@,
                )[y],
            decreases args@.len() - i,
        {
            let mut j: usize = 0;
            while j < i
                invariant
                    j <= i,
                    i < args@.len(),
                    forall|x: int, y: int| 0 <= x < y < i ==> spec_names(args@)[x] != spec_names(
                        args@,
                    )[y],
                    forall|x: int| 0 <= x < j ==> spec_names(args@)[x] != spec_names(args@)[i as int],
                decreases i - j,
            {
                if string_eq(&args[j], &args[i]) {
                    let mut msg = String::new();
                    msg.append(item);
                    msg.append(" \"");
                    msg.append(args[i].as_str());
                    msg.append("\" is defined multiple times");
                    proof {
                        assert(spec_names(args@)[j as int] == spec_names(args@)[i as int]);
                    }
                    return Err(msg);
                }
                j = j + 1;
            }
            i = i + 1;
        }
        Ok(())
    }

    /// Parameter, template-parameter and capture names within one
    /// declaration must be unique, and lambda captures must not shadow
    /// lambda parameters.
    #[verifier::loop_isolation(false)]
    pub fn repeated_arguments_check(&self, expr: &NessaExpr) -> (r: Result<(), NessaError>)
        ensures
            (r is Ok) == spec_repeated_args_ok(*expr),
    {
        match expr {
            NessaExpr::PrefixOperationDefinition(l, _, _, t, _, _, _, _) => {
                let names = clone_names(t);
                match self.repeated_args(&names, "Parameter") {
                    Ok(()) => Ok(()),
                    Err(msg) => Err(NessaError::compiler_error(msg, l, Vec::new())),
                }
            },
            NessaExpr::PostfixOperationDefinition(l, _, _, t, _, _, _, _) => {
                let names = clone_names(t);
                match self.repeated_args(&names, "Parameter") {
                    Ok(()) => Ok(()),
                    Err(msg) => Err(NessaError::compiler_error(msg, l, Vec::new())),
                }
            },
            NessaExpr::BinaryOperationDefinition(l, _, _, t, a, b, _, _) => {
                if string_eq(&a.0, &b.0) {
                    let mut msg = String::new();
                    msg.append("Parameter \"");
                    msg.append(a.0.as_str());
                    msg.append("\" is defined multiple times");
                    return Err(NessaError::compiler_error(msg, l, Vec::new()));
                }
                let names = clone_names(t);
                match self.repeated_args(&names, "Parameter") {
                    Ok(()) => Ok(()),
                    Err(msg) => Err(NessaError::compiler_error(msg, l, Vec::new())),
                }
            },
            NessaExpr::NaryOperationDefinition(l, _, _, t, a, args, _, _) => {
                let mut all: Vec<String> = Vec::new();
                all.push(crate::types::clone_string(&a.0));
                let mut i: usize = 0;
                while i < args.len()
                    invariant
                        i <= args@.len(),
                        all@.len() == i + 1,
                        all@[0]@ == a.0@,
                        forall|k: int| 0 <= k < i ==> #[trigger] all@[k + 1]@ == args@[k].0@,
                    decreases args@.len() - i,
                {
                    all.push(crate::types::clone_string(&args[i].0));
                    i = i + 1;
                }
                proof {
                    assert forall|k: int|
                        0 <= k < all@.len() implies spec_names(all@)[k] == (seq![a.0@]
                        + spec_fst_names(args@))[k] by {
                        if k > 0 {
                            let k0 = k - 1;
                            assert(all@[k0 + 1]@ == args@[k0].0@);
                        }
                    }
                    assert(spec_names(all@) =~= seq![a.0@] + spec_fst_names(args@));
                }
                match self.repeated_args(&all, "Parameter") {
                    Ok(()) => {},
                    Err(msg) => {
                        return Err(NessaError::compiler_error(msg, l, Vec::new()));
                    },
                }
                let names = clone_names(t);
                match self.repeated_args(&names, "Parameter") {
                    Ok(()) => Ok(()),
                    Err(msg) => Err(NessaError::compiler_error(msg, l, Vec::new())),
                }
            },
            NessaExpr::FunctionDefinition(l, _, _, t, a, _, _) => {
                let arg_names = clone_fst_names(a);
                match self.repeated_args(&arg_names, "Parameter") {
                    Ok(()) => {},
                    Err(msg) => {
                        return Err(NessaError::compiler_error(msg, l, Vec::new()));
                    },
                }
                let names = clone_names(t);
                match self.repeated_args(&names, "Parameter") {
                    Ok(()) => Ok(()),
                    Err(msg) => Err(NessaError::compiler_error(msg, l, Vec::new())),
                }
            },
            NessaExpr::CompiledLambda(l, _, c, a, _, _) => {
                let arg_names = clone_pair_names(a);
                match self.repeated_args(&arg_names, "Parameter") {
                    Ok(()) => {},
                    Err(msg) => {
                        return Err(NessaError::compiler_error(msg, l, Vec::new()));
                    },
                }
                let cap_names = clone_expr_pair_names(c);
                match self.repeated_args(&cap_names, "Capture") {
                    Ok(()) => {},
                    Err(msg) => {
                        return Err(NessaError::compiler_error(msg, l, Vec::new()));
                    },
                }
                let mut i: usize = 0;
                while i < cap_names.len()
                    invariant
                        i <= cap_names@.len(),
                        spec_names(cap_names@) == spec_fst_names(c@),
                        spec_names(arg_names@) == spec_fst_names(a@),
                        forall|x: int, y: int|
                            0 <= x < i && 0 <= y < arg_names@.len() ==> spec_names(
                                cap_names@,
                            )[x] != spec_names(arg_names@)[y],
                    decreases cap_names@.len() - i,
                {
                    let mut j: usize = 0;
                    while j < arg_names.len()
                        invariant
                            j <= arg_names@.len(),
                            i < cap_names@.len(),
                            spec_names(cap_names@) == spec_fst_names(c@),
                            spec_names(arg_names@) == spec_fst_names(a@),
                            forall|y: int|
                                0 <= y < j ==> spec_names(cap_names@)[i as int] != spec_names(
                                    arg_names@,
                                )[y],
                        decreases arg_names@.len() - j,
                    {
                        if string_eq(&cap_names[i], &arg_names[j]) {
                            let mut msg = String::new();
                            msg.append("Capture \"");
                            msg.append(cap_names[i].as_str());
                            msg.append("\" is also defined as a parameter");
                            proof {
                                assert(spec_names(cap_names@)[i as int] == spec_names(
                                    arg_names@,
                                )[j as int]);
                            }
                            return Err(NessaError::compiler_error(msg, l, Vec::new()));
                        }
                        j = j + 1;
                    }
                    i = i + 1;
                }
                Ok(())
            },
            _ => Ok(()),
        }
    }
}

/// Copy a name list.
#[verifier::loop_isolation(false)]
fn clone_names(v: &Vec<String>) -> (r: Vec<String>)
    ensures
        spec_names(r@) == spec_names(v@),
{
    let mut out: Vec<String> = Vec::new();
    let mut j: usize = 0;
    while j < v.len()
        invariant
            j <= v@.len(),
            out@.len() == j,
            forall|k: int| 0 <= k < j ==> #[trigger] out@[k]@ == v@[k]@,
        decreases v@.len() - j,
    {
        out.push(crate::types::clone_string(&v[j]));
        j = j + 1;
    }
    proof {
        assert(spec_names(out@) =~= spec_names(v@));
    }
    out
}

/// Copy the names of a typed-parameter list.
#[verifier::loop_isolation(false)]
fn clone_fst_names(v: &Vec<(String, Type)>) -> (r: Vec<String>)
    ensures
        spec_names(r@) == spec_fst_names(v@),
{
    let mut out: Vec<String> = Vec::new();
    let mut j: usize = 0;
    while j < v.len()
        invariant
            j <= v@.len(),
            out@.len() == j,
            forall|k: int| 0 <= k < j ==> #[trigger] out@[k]@ == v@[k].0@,
        decreases v@.len() - j,
    {
        out.push(crate::types::clone_string(&v[j].0));
        j = j + 1;
    }
    proof {
        assert(spec_names(out@) =~= spec_fst_names(v@));
    }
    out
}

/// Copy the names of a typed-parameter list.
#[verifier::loop_isolation(false)]
fn clone_pair_names(v: &Vec<(String, Type)>) -> (r: Vec<String>)
    ensures
        spec_names(r@) == spec_fst_names(v@),
{
    clone_fst_names(v)
}

/// Copy the names of a capture list.
#[verifier::loop_isolation(false)]
fn clone_expr_pair_names(v: &Vec<(String, NessaExpr)>) -> (r: Vec<String>)
    ensures
        spec_names(r@) == spec_fst_names(v@),
{
    let mut out: Vec<String> = Vec::new();
    let mut j: usize = 0;
    while j < v.len()
        invariant
            j <= v@.len(),
            out@.len() == j,
            forall|k: int| 0 <= k < j ==> #[trigger] out@[k]@ == v@[k].0@,
        decreases v@.len() - j,
    {
        out.push(crate::types::clone_string(&v[j].0));
        j = j + 1;
    }
    proof {
        assert(spec_names(out@) =~= spec_fst_names(v@));
    }
    out
}

/// The expression is one a lambda body may hold, recursively: no
/// nested declarations.
pub open spec fn spec_lambda_stmt(e: NessaExpr) -> bool
    decreases e,
{
    match e {
        NessaExpr::Literal(_, _) => true,
        NessaExpr::CompiledLambda(_, _, _, _, _, _) => true,
        NessaExpr::Variable(_, _, _, _) => true,
        NessaExpr::AttributeAssignment(_, a, b, _) => spec_lambda_stmt(*a) && spec_lambda_stmt(*b),
        NessaExpr::AttributeAccess(_, inner, _) => spec_lambda_stmt(*inner),
        NessaExpr::CompiledVariableAssignment(_, _, _, _, inner) => spec_lambda_stmt(*inner),
        NessaExpr::CompiledVariableDefinition(_, _, _, _, inner) => spec_lambda_stmt(*inner),
        NessaExpr::DoBlock(_, b, _) => spec_lambda_stmts(b@),
        NessaExpr::Tuple(_, b) => spec_lambda_stmts(b@),
        NessaExpr::UnaryOperation(_, _, _, inner) => spec_lambda_stmt(*inner),
        NessaExpr::BinaryOperation(_, _, _, a, b) => spec_lambda_stmt(*a) && spec_lambda_stmt(*b),
        NessaExpr::NaryOperation(_, _, _, a, b) => spec_lambda_stmt(*a) && spec_lambda_stmts(b@),
        NessaExpr::FunctionCall(_, _, _, b) => spec_lambda_stmts(b@),
        NessaExpr::CompiledFor(_, _, _, _, c, b) => spec_lambda_stmt(*c) && spec_lambda_stmts(b@),
        NessaExpr::While(_, c, b) => spec_lambda_stmt(*c) && spec_lambda_stmts(b@),
        NessaExpr::If(_, c, ib, ei, eb) => spec_lambda_stmt(*c) && spec_lambda_stmts(ib@) && (forall|
            k: int,
        |
            0 <= k < ei@.len() ==> spec_lambda_stmt((#[trigger] ei@[k]).0) && spec_lambda_stmts(
                ei@[k].1@,
            )) && (match eb {
            Some(lines) => spec_lambda_stmts(lines@),
            None => true,
        }),
        NessaExpr::Return(_, inner) => spec_lambda_stmt(*inner),
        _ => false,
    }
}

pub open spec fn spec_lambda_stmts(lines: Seq<NessaExpr>) -> bool
    decreases lines,
{
    forall|k: int| 0 <= k < lines.len() ==> spec_lambda_stmt(#[trigger] lines[k])
}

/// No parametric type is written anywhere in the expression: not on a
/// variable, a binding, or as an explicit template argument.
pub open spec fn spec_no_template_ok(e: NessaExpr) -> bool
    decreases e,
{
    match e {
        NessaExpr::Literal(_, _) => true,
        NessaExpr::CompiledLambda(_, _, _, _, _, _) => true,
        NessaExpr::Variable(_, _, _, t) => !spec_has_templates(t@),
        NessaExpr::AttributeAssignment(_, a, b, _) => spec_no_template_ok(*a)
            && spec_no_template_ok(*b),
        NessaExpr::AttributeAccess(_, inner, _) => spec_no_template_ok(*inner),
        NessaExpr::CompiledVariableAssignment(_, _, _, t, inner) => !spec_has_templates(t@)
            && spec_no_template_ok(*inner),
        NessaExpr::CompiledVariableDefinition(_, _, _, t, inner) => !spec_has_templates(t@)
            && spec_no_template_ok(*inner),
        NessaExpr::DoBlock(_, b, _) => spec_no_template_lines(b@),
        NessaExpr::Tuple(_, b) => spec_no_template_lines(b@),
        NessaExpr::UnaryOperation(_, _, tm, inner) => spec_no_template_types(tm@)
            && spec_no_template_ok(*inner),
        NessaExpr::BinaryOperation(_, _, tm, a, b) => spec_no_template_types(tm@)
            && spec_no_template_ok(*a) && spec_no_template_ok(*b),
        NessaExpr::NaryOperation(_, _, tm, a, b) => spec_no_template_types(tm@)
            && spec_no_template_ok(*a) && spec_no_template_lines(b@),
        NessaExpr::FunctionCall(_, _, tm, b) => spec_no_template_types(tm@)
            && spec_no_template_lines(b@),
        NessaExpr::CompiledFor(_, _, _, _, c, b) => spec_no_template_ok(*c)
            && spec_no_template_lines(b@),
        NessaExpr::While(_, c, b) => spec_no_template_ok(*c) && spec_no_template_lines(b@),
        NessaExpr::If(_, c, ib, ei, eb) => spec_no_template_ok(*c) && spec_no_template_lines(ib@)
            && (forall|k: int|
            0 <= k < ei@.len() ==> spec_no_template_ok((#[trigger] ei@[k]).0)
                && spec_no_template_lines(ei@[k].1@)) && (match eb {
            Some(lines) => spec_no_template_lines(lines@),
            None => true,
        }),
        NessaExpr::Return(_, inner) => spec_no_template_ok(*inner),
        _ => true,
    }
}

pub open spec fn spec_no_template_lines(lines: Seq<NessaExpr>) -> bool
    decreases lines,
{
    forall|k: int| 0 <= k < lines.len() ==> spec_no_template_ok(#[trigger] lines[k])
}

pub open spec fn spec_no_template_types(ts: Seq<Type>) -> bool {
    forall|k: int| 0 <= k < ts.len() ==> !spec_has_templates(type_view(#[trigger] ts[k]))
}

/// A lambda may not mention template parameters: not in captures,
/// parameters, return type or body.
pub open spec fn spec_lambda_ok(e: NessaExpr) -> bool {
    match e {
        NessaExpr::CompiledLambda(_, _, c, a, ret, b) => (forall|k: int|
            0 <= k < c@.len() ==> spec_no_template_ok((#[trigger] c@[k]).1)) && !spec_has_templates(
            ret@,
        ) && (forall|k: int|
            0 <= k < a@.len() ==> !spec_has_templates(type_view((#[trigger] a@[k]).1)))
            && spec_no_template_lines(b@),
        _ => true,
    }
}

/// Attribute names within one class are unique.
pub open spec fn spec_class_ok(e: NessaExpr) -> bool {
    match e {
        NessaExpr::ClassDefinition(_, _, _, _, attributes, _, _) => spec_unique(
            spec_fst_names(attributes@),
        ),
        _ => true,
    }
}

/// The markers of a pattern, as character sequences.
pub open spec fn spec_markers(p: Pattern) -> Seq<Seq<char>> {
    Seq::new(p.markers@.len(), |i: int| p.markers@[i]@)
}

/// Some non-generated marker of the body carries this name.
pub open spec fn spec_body_uses(b: MacroBody, m: Seq<char>) -> bool {
    exists|j: int|
        0 <= j < b.markers@.len() && !(#[trigger] b.markers@[j]).0 && b.markers@[j].1@ == m
}

/// Every marker of the macro's pattern is consumed by its body, and
/// every non-generated marker of the body comes from the pattern.
pub open spec fn spec_macro_ok(e: NessaExpr) -> bool {
    match e {
        NessaExpr::Macro(_, _, _, _, p, b) => (forall|i: int|
            0 <= i < p.markers@.len() ==> spec_body_uses(b, (#[trigger] p.markers@[i])@)) && (forall|
            j: int,
        |
            0 <= j < b.markers@.len() ==> ((#[trigger] b.markers@[j]).0 || spec_name_in(
                spec_markers(p),
                b.markers@[j].1@,
            ))),
        _ => true,
    }
}

/// A syntax's markers are exactly the attribute names.
pub open spec fn spec_syntax_matches(p: Pattern, attrs: Seq<(String, Type)>) -> bool {
    (forall|i: int|
        0 <= i < p.markers@.len() ==> spec_name_in(
            spec_fst_names(attrs),
            (#[trigger] p.markers@[i])@,
        )) && (forall|i: int|
        0 <= i < attrs.len() ==> spec_name_in(spec_markers(p), (#[trigger] attrs[i]).0@))
}

impl NessaContext {
    /// Parametric types are not allowed on this annotated type.
    pub fn no_template_check_type(&self, t: &Type, l: &Location) -> (r: Result<(), NessaError>)
        ensures
            (r is Ok) == !spec_has_templates(t@),
    {
        if t.has_templates() {
            Err(
                NessaError::compiler_error(
                    String::from_str("Template types are not allowed in this context"),
                    l,
                    Vec::new(),
                ),
            )
        } else {
            Ok(())
        }
    }

    /// Parametric types are not allowed in this type list.
    #[verifier::loop_isolation(false)]
    pub fn no_template_check_types(&self, t: &Vec<Type>, l: &Location) -> (r: Result<
        (),
        NessaError,
    >)
        ensures
            (r is Ok) == spec_no_template_types(t@),
    {
        let mut j: usize = 0;
        while j < t.len()
            invariant
                j <= t@.len(),
                forall|k: int| 0 <= k < j ==> !spec_has_templates(type_view(#[trigger] t@[k])),
            decreases t@.len() - j,
        {
            if t[j].has_templates() {
                return Err(
                    NessaError::compiler_error(
                        String::from_str("Template types are not allowed in this context"),
                        l,
                        Vec::new(),
                    ),
                );
            }
            j = j + 1;
        }
        Ok(())
    }

    /// Parametric types are not allowed anywhere inside a lambda body.
    #[verifier::loop_isolation(false)]
    pub fn no_template_check(&self, expr: &NessaExpr) -> (r: Result<(), NessaError>)
        requires
            spec_lambda_stmt(*expr),
        ensures
            (r is Ok) == spec_no_template_ok(*expr),
        decreases *expr,
    {
        match expr {
            NessaExpr::Literal(_, _) => Ok(()),
            NessaExpr::CompiledLambda(_, _, _, _, _, _) => Ok(()),
            NessaExpr::Variable(l, _, _, t) => self.no_template_check_type(t, l),
            NessaExpr::AttributeAssignment(_, a, b, _) => {
                let ra = self.no_template_check(a);
                if ra.is_err() {
                    return ra;
                }
                self.no_template_check(b)
            },
            NessaExpr::AttributeAccess(_, e, _) => self.no_template_check(e),
            NessaExpr::CompiledVariableAssignment(l, _, _, t, e) => {
                let rt = self.no_template_check_type(t, l);
                if rt.is_err() {
                    return rt;
                }
                self.no_template_check(e)
            },
            NessaExpr::CompiledVariableDefinition(l, _, _, t, e) => {
                let rt = self.no_template_check_type(t, l);
                if rt.is_err() {
                    return rt;
                }
                self.no_template_check(e)
            },
            NessaExpr::DoBlock(_, b, _) => self.no_template_lines(b),
            NessaExpr::Tuple(_, b) => self.no_template_lines(b),
            NessaExpr::UnaryOperation(l, _, tm, e) => {
                let rt = self.no_template_check_types(tm, l);
                if rt.is_err() {
                    return rt;
                }
                self.no_template_check(e)
            },
            NessaExpr::BinaryOperation(l, _, tm, a, b) => {
                let rt = self.no_template_check_types(tm, l);
                if rt.is_err() {
                    return rt;
                }
                let ra = self.no_template_check(a);
                if ra.is_err() {
                    return ra;
                }
                self.no_template_check(b)
            },
            NessaExpr::NaryOperation(l, _, tm, a, b) => {
                let rt = self.no_template_check_types(tm, l);
                if rt.is_err() {
                    return rt;
                }
                let ra = self.no_template_check(a);
                if ra.is_err() {
                    return ra;
                }
                self.no_template_lines(b)
            },
            NessaExpr::FunctionCall(l, _, tm, b) => {
                let rt = self.no_template_check_types(tm, l);
                if rt.is_err() {
                    return rt;
                }
                self.no_template_lines(b)
            },
            NessaExpr::CompiledFor(_, _, _, _, c, b) => {
                let rc = self.no_template_check(c);
                if rc.is_err() {
                    return rc;
                }
                self.no_template_lines(b)
            },
            NessaExpr::While(_, c, b) => {
                let rc = self.no_template_check(c);
                if rc.is_err() {
                    return rc;
                }
                self.no_template_lines(b)
            },
            NessaExpr::If(_, c, ib, ei, eb) => {
                let rc = self.no_template_check(c);
                if rc.is_err() {
                    return rc;
                }
                let rb = self.no_template_lines(ib);
                if rb.is_err() {
                    return rb;
                }
                let mut i: usize = 0;
                while i < ei.len()
                    invariant
                        i <= ei@.len(),
                        forall|k: int|
                            0 <= k < i ==> spec_no_template_ok((#[trigger] ei@[k]).0)
                                && spec_no_template_lines(ei@[k].1@),
                    decreases ei@.len() - i,
                {
                    let rh = self.no_template_check(&ei[i].0);
                    if rh.is_err() {
                        return rh;
                    }
                    let rl = self.no_template_lines(&ei[i].1);
                    if rl.is_err() {
                        return rl;
                    }
                    i = i + 1;
                }
                match eb {
                    Some(eb_lines) => self.no_template_lines(eb_lines),
                    None => Ok(()),
                }
            },
            NessaExpr::Return(_, e) => self.no_template_check(e),
            _ => vstd::pervasive::unreached(),
        }
    }

    /// Check each line of a lambda body for parametric types.
    #[verifier::loop_isolation(false)]
    fn no_template_lines(&self, lines: &Vec<NessaExpr>) -> (r: Result<(), NessaError>)
        requires
            spec_lambda_stmts(lines@),
        ensures
            (r is Ok) == spec_no_template_lines(lines@),
        decreases lines,
    {
        let mut j: usize = 0;
        while j < lines.len()
            invariant
                j <= lines@.len(),
                forall|k: int| 0 <= k < j ==> spec_no_template_ok(#[trigger] lines@[k]),
            decreases lines@.len() - j,
        {
            let rl = self.no_template_check(&lines[j]);
            if rl.is_err() {
                return rl;
            }
            j = j + 1;
        }
        Ok(())
    }

    /// A lambda may not mention template parameters anywhere.
    #[verifier::loop_isolation(false)]
    pub fn lambda_check(&self, expr: &NessaExpr) -> (r: Result<(), NessaError>)
        requires
            expr matches NessaExpr::CompiledLambda(_, _, c, _, _, b) ==> (forall|k: int|
                0 <= k < c@.len() ==> spec_lambda_stmt((#[trigger] c@[k]).1)) && spec_lambda_stmts(
                b@,
            ),
        ensures
            (r is Ok) == spec_lambda_ok(*expr),
    {
        match expr {
            NessaExpr::CompiledLambda(l, _, c, a, ret, b) => {
                let mut i: usize = 0;
                while i < c.len()
                    invariant
                        i <= c@.len(),
                        forall|k: int| 0 <= k < i ==> spec_no_template_ok((#[trigger] c@[k]).1),
                    decreases c@.len() - i,
                {
                    let rc = self.no_template_check(&c[i].1);
                    if rc.is_err() {
                        return rc;
                    }
                    i = i + 1;
                }
                if ret.has_templates() {
                    return Err(
                        NessaError::compiler_error(
                            String::from_str(
                                "Parametric types are not allowed in lambda return types",
                            ),
                            l,
                            Vec::new(),
                        ),
                    );
                }
                let mut i2: usize = 0;
                while i2 < a.len()
                    invariant
                        i2 <= a@.len(),
                        forall|k: int|
                            0 <= k < i2 ==> !spec_has_templates(type_view((#[trigger] a@[k]).1)),
                    decreases a@.len() - i2,
                {
                    if a[i2].1.has_templates() {
                        return Err(
                            NessaError::compiler_error(
                                String::from_str(
                                    "Parametric types are not allowed in lambda parameters",
                                ),
                                l,
                                Vec::new(),
                            ),
                        );
                    }
                    i2 = i2 + 1;
                }
                self.no_template_lines(b)
            },
            _ => Ok(()),
        }
    }

    /// Attribute names within one class must be unique.
    pub fn class_check(&self, expr: &NessaExpr) -> (r: Result<(), NessaError>)
        ensures
            (r is Ok) == spec_class_ok(*expr),
    {
        match expr {
            NessaExpr::ClassDefinition(l, _, n, _, attributes, _, _) => {
                let names = clone_fst_names(attributes);
                match self.repeated_args(&names, "Attribute") {
                    Ok(()) => Ok(()),
                    Err(_) => {
                        let mut msg = String::new();
                        msg.append("Repeated attribute in class ");
                        msg.append(n.as_str());
                        Err(NessaError::compiler_error(msg, l, Vec::new()))
                    },
                }
            },
            _ => Ok(()),
        }
    }

    /// Every marker of a macro's pattern must be used by its body, and
    /// every non-generated marker of the body must come from the
    /// pattern.
    #[verifier::loop_isolation(false)]
    pub fn macro_check(&self, expr: &NessaExpr) -> (r: Result<(), NessaError>)
        ensures
            (r is Ok) == spec_macro_ok(*expr),
    {
        match expr {
            NessaExpr::Macro(l, _, n, _, p, b) => {
                let mut i: usize = 0;
                while i < p.markers.len()
                    invariant
                        i <= p.markers@.len(),
                        forall|x: int|
                            0 <= x < i ==> spec_body_uses(*b, (#[trigger] p.markers@[x])@),
                    decreases p.markers@.len() - i,
                {
                    let mut found = false;
                    let mut j: usize = 0;
                    while j < b.markers.len()
                        invariant
                            j <= b.markers@.len(),
                            i < p.markers@.len(),
                            found <==> exists|y: int|
                                0 <= y < j && !(#[trigger] b.markers@[y]).0 && b.markers@[y].1@
                                    == p.markers@[i as int]@,
                        decreases b.markers@.len() - j,
                    {
                        if !found && !b.markers[j].0 && string_eq(&b.markers[j].1, &p.markers[i]) {
                            found = true;
                            proof {
                                assert(!(b.markers@[j as int]).0 && b.markers@[j as int].1@
                                    == p.markers@[i as int]@);
                            }
                        }
                        j = j + 1;
                    }
                    if !found {
                        let mut msg = String::new();
                        msg.append("Argument ");
                        msg.append(p.markers[i].as_str());
                        msg.append(" is not used inside ");
                        msg.append(n.as_str());
                        msg.append(" syntax");
                        proof {
                            assert(!spec_body_uses(*b, p.markers@[i as int]@)) by {
                                if spec_body_uses(*b, p.markers@[i as int]@) {
                                    let y = choose|y: int|
                                        0 <= y < b.markers@.len() && !(#[trigger] b.markers@[y]).0
                                            && b.markers@[y].1@ == p.markers@[i as int]@;
                                    assert(false);
                                }
                            }
                        }
                        return Err(NessaError::compiler_error(msg, l, Vec::new()));
                    }
                    proof {
                        assert(spec_body_uses(*b, p.markers@[i as int]@)) by {
                            let y = choose|y: int|
                                0 <= y < b.markers@.len() && !(#[trigger] b.markers@[y]).0
                                    && b.markers@[y].1@ == p.markers@[i as int]@;
                        }
                    }
                    i = i + 1;
                }
                let mut j2: usize = 0;
                while j2 < b.markers.len()
                    invariant
                        j2 <= b.markers@.len(),
                        forall|x: int|
                            0 <= x < j2 ==> ((#[trigger] b.markers@[x]).0 || spec_name_in(
                                spec_markers(*p),
                                b.markers@[x].1@,
                            )),
                    decreases b.markers@.len() - j2,
                {
                    if !b.markers[j2].0 {
                        let mut found = false;
                        let mut i2: usize = 0;
                        while i2 < p.markers.len()
                            invariant
                                i2 <= p.markers@.len(),
                                j2 < b.markers@.len(),
                                found <==> exists|y: int|
                                    0 <= y < i2 && #[trigger] p.markers@[y]@ == b.markers@[j2 as int].1@,
                            decreases p.markers@.len() - i2,
                        {
                            if !found && string_eq(&p.markers[i2], &b.markers[j2].1) {
                                found = true;
                                proof {
                                    assert(p.markers@[i2 as int]@ == b.markers@[j2 as int].1@);
                                }
                            }
                            i2 = i2 + 1;
                        }
                        if !found {
                            let mut msg = String::new();
                            msg.append("Argument ");
                            msg.append(b.markers[j2].1.as_str());
                            msg.append(" is referenced inside ");
                            msg.append(n.as_str());
                            msg.append(" syntax, but is not present in its pattern");
                            proof {
                                assert(!spec_name_in(spec_markers(*p), b.markers@[j2 as int].1@))
                                    by {
                                    if spec_name_in(spec_markers(*p), b.markers@[j2 as int].1@) {
                                        let y = choose|y: int|
                                            0 <= y < spec_markers(*p).len() && #[trigger] spec_markers(
                                                *p,
                                            )[y] == b.markers@[j2 as int].1@;
                                        assert(p.markers@[y]@ == b.markers@[j2 as int].1@);
                                        assert(false);
                                    }
                                }
                            }
                            return Err(NessaError::compiler_error(msg, l, Vec::new()));
                        }
                        proof {
                            let y = choose|y: int|
                                0 <= y < p.markers@.len() && #[trigger] p.markers@[y]@
                                    == b.markers@[j2 as int].1@;
                            assert(spec_markers(*p)[y] == b.markers@[j2 as int].1@);
                            assert(spec_name_in(spec_markers(*p), b.markers@[j2 as int].1@));
                        }
                    }
                    j2 = j2 + 1;
                }
                Ok(())
            },
            _ => Ok(()),
        }
    }

    /// Implicit syntaxes are forbidden on generic classes, and each
    /// syntax's markers must be exactly the class's attribute names.
    #[verifier::loop_isolation(false)]
    pub fn implicit_syntax_check(
        &self,
        name: &String,
        templates: &Vec<String>,
        attributes: &Vec<(String, Type)>,
        syntaxes: &Vec<Pattern>,
    ) -> (r: Result<(), String>)
        ensures
            (r is Ok) == ((syntaxes@.len() == 0 || templates@.len() == 0) && forall|s: int|
                0 <= s < syntaxes@.len() ==> spec_syntax_matches(
                    #[trigger] syntaxes@[s],
                    attributes@,
                )),
    {
        if syntaxes.len() > 0 && templates.len() > 0 {
            let mut msg = String::new();
            msg.append("Implicit syntaxes are not allowed when classes have type parameters");
            return Err(msg);
        }
        let mut s: usize = 0;
        while s < syntaxes.len()
            invariant
                s <= syntaxes@.len(),
                forall|x: int|
                    0 <= x < s ==> spec_syntax_matches(#[trigger] syntaxes@[x], attributes@),
            decreases syntaxes@.len() - s,
        {
            let p = &syntaxes[s];
            let mut i: usize = 0;
            while i < p.markers.len()
                invariant
                    i <= p.markers@.len(),
                    s < syntaxes@.len(),
                    p == &syntaxes@[s as int],
                    forall|x: int|
                        0 <= x < i ==> spec_name_in(
                            spec_fst_names(attributes@),
                            (#[trigger] p.markers@[x])@,
                        ),
                decreases p.markers@.len() - i,
            {
                let mut found = false;
                let mut j: usize = 0;
                while j < attributes.len()
                    invariant
                        j <= attributes@.len(),
                        i < p.markers@.len(),
                        found <==> exists|y: int|
                            0 <= y < j && (#[trigger] attributes@[y]).0@ == p.markers@[i as int]@,
                    decreases attributes@.len() - j,
                {
                    if !found && string_eq(&attributes[j].0, &p.markers[i]) {
                        found = true;
                        proof {
                            assert((attributes@[j as int]).0@ == p.markers@[i as int]@);
                        }
                    }
                    j = j + 1;
                }
                if !found {
                    let mut msg = String::new();
                    msg.append("Syntax argument with name \"");
                    msg.append(p.markers[i].as_str());
                    msg.append("\" is not an attribute of ");
                    msg.append(name.as_str());
                    proof {
                        assert(!spec_name_in(spec_fst_names(attributes@), p.markers@[i as int]@))
                            by {
                            if spec_name_in(spec_fst_names(attributes@), p.markers@[i as int]@) {
                                let y = choose|y: int|
                                    0 <= y < spec_fst_names(attributes@).len()
                                        && #[trigger] spec_fst_names(attributes@)[y]
                                        == p.markers@[i as int]@;
                                assert(attributes@[y].0@ == p.markers@[i as int]@);
                                assert(false);
                            }
                        }
                    }
                    return Err(msg);
                }
                proof {
                    let y = choose|y: int|
                        0 <= y < attributes@.len() && (#[trigger] attributes@[y]).0@
                            == p.markers@[i as int]@;
                    assert(spec_fst_names(attributes@)[y] == p.markers@[i as int]@);
                    assert(spec_name_in(spec_fst_names(attributes@), p.markers@[i as int]@));
                }
                i = i + 1;
            }
            let mut i2: usize = 0;
            while i2 < attributes.len()
                invariant
                    i2 <= attributes@.len(),
                    s < syntaxes@.len(),
                    p == &syntaxes@[s as int],
                    forall|x: int|
                        0 <= x < p.markers@.len() ==> spec_name_in(
                            spec_fst_names(attributes@),
                            (#[trigger] p.markers@[x])@,
                        ),
                    forall|x: int|
                        0 <= x < i2 ==> spec_name_in(
                            spec_markers(syntaxes@[s as int]),
                            (#[trigger] attributes@[x]).0@,
                        ),
                decreases attributes@.len() - i2,
            {
                let mut found = false;
                let mut j: usize = 0;
                while j < p.markers.len()
                    invariant
                        j <= p.markers@.len(),
                        i2 < attributes@.len(),
                        s < syntaxes@.len(),
                        p == &syntaxes@[s as int],
                        found <==> exists|y: int|
                            0 <= y < j && #[trigger] p.markers@[y]@ == attributes@[i2 as int].0@,
                    decreases p.markers@.len() - j,
                {
                    if !found && string_eq(&p.markers[j], &attributes[i2].0) {
                        found = true;
                        proof {
                            assert(p.markers@[j as int]@ == attributes@[i2 as int].0@);
                        }
                    }
                    j = j + 1;
                }
                if !found {
                    let mut msg = String::new();
                    msg.append("Attribute \"");
                    msg.append(attributes[i2].0.as_str());
                    msg.append("\" does not appear in syntax definition for ");
                    msg.append(name.as_str());
                    proof {
                        assert(!spec_name_in(
                            spec_markers(syntaxes@[s as int]),
                            attributes@[i2 as int].0@,
                        )) by {
                            if spec_name_in(
                                spec_markers(syntaxes@[s as int]),
                                attributes@[i2 as int].0@,
                            ) {
                                let y = choose|y: int|
                                    0 <= y < spec_markers(syntaxes@[s as int]).len()
                                        && #[trigger] spec_markers(syntaxes@[s as int])[y]
                                        == attributes@[i2 as int].0@;
                                assert(syntaxes@[s as int].markers@[y]@ == attributes@[i2 as int].0@);
                                assert(false);
                            }
                        }
                    }
                    return Err(msg);
                }
                proof {
                    let y = choose|y: int|
                        0 <= y < p.markers@.len() && #[trigger] p.markers@[y]@
                            == attributes@[i2 as int].0@;
                    assert(spec_markers(syntaxes@[s as int])[y] == attributes@[i2 as int].0@);
                    assert(spec_name_in(
                        spec_markers(syntaxes@[s as int]),
                        attributes@[i2 as int].0@,
                    ));
                }
                i2 = i2 + 1;
            }
            s = s + 1;
        }
        Ok(())
    }
}

/// Registry indices written in the type are in range: named types and
/// constraint interfaces exist. Unresolved parameter placeholders are
/// not reached, since the well-formedness check fails on them first.
pub open spec fn spec_type_ids_ok(ctx: NessaContext, t: TypeS) -> bool
    decreases t,
{
    match t {
        TypeS::TemplateParam(_, cs) => spec_cs_ids_ok(ctx, cs),
        TypeS::Template(id, args) => 0 <= id < ctx.type_templates@.len() && spec_type_ids_ok_seq(
            ctx,
            args,
        ),
        TypeS::Ref(i) => spec_type_ids_ok(ctx, *i),
        TypeS::MutRef(i) => spec_type_ids_ok(ctx, *i),
        TypeS::Or(v) => spec_type_ids_ok_seq(ctx, v),
        TypeS::And(v) => spec_type_ids_ok_seq(ctx, v),
        TypeS::Function(a, b) => spec_type_ids_ok(ctx, *a) && spec_type_ids_ok(ctx, *b),
        _ => true,
    }
}

pub open spec fn spec_type_ids_ok_seq(ctx: NessaContext, s: Seq<TypeS>) -> bool
    decreases s,
{
    forall|k: int| 0 <= k < s.len() ==> spec_type_ids_ok(ctx, #[trigger] s[k])
}

pub open spec fn spec_cs_ids_ok(ctx: NessaContext, cs: Seq<crate::types::ConstraintS>) -> bool
    decreases cs,
{
    forall|k: int|
        0 <= k < cs.len() ==> 0 <= (#[trigger] cs[k]).id < ctx.interfaces@.len()
            && spec_type_ids_ok_seq(ctx, cs[k].args)
}

/// The type is well formed: no unresolved parameter placeholder, and
/// every instantiation and constraint carries as many arguments as its
/// declaration has parameters.
pub open spec fn spec_type_wf(ctx: NessaContext, t: TypeS) -> bool
    decreases t,
{
    match t {
        TypeS::TemplateParamStr(_, _) => false,
        TypeS::TemplateParam(_, cs) => spec_cs_wf(ctx, cs),
        TypeS::Template(id, args) => args.len() == ctx.type_templates@[id].params@.len()
            && spec_type_wf_seq(ctx, args),
        TypeS::Ref(i) => spec_type_wf(ctx, *i),
        TypeS::MutRef(i) => spec_type_wf(ctx, *i),
        TypeS::Or(v) => spec_type_wf_seq(ctx, v),
        TypeS::And(v) => spec_type_wf_seq(ctx, v),
        TypeS::Function(a, b) => spec_type_wf(ctx, *a) && spec_type_wf(ctx, *b),
        _ => true,
    }
}

pub open spec fn spec_type_wf_seq(ctx: NessaContext, s: Seq<TypeS>) -> bool
    decreases s,
{
    forall|k: int| 0 <= k < s.len() ==> spec_type_wf(ctx, #[trigger] s[k])
}

pub open spec fn spec_cs_wf(ctx: NessaContext, cs: Seq<crate::types::ConstraintS>) -> bool
    decreases cs,
{
    forall|k: int|
        0 <= k < cs.len() ==> (#[trigger] cs[k]).args.len()
            == ctx.interfaces@[cs[k].id].params@.len() && spec_type_wf_seq(ctx, cs[k].args)
}

impl NessaContext {
    /// A written type must be well formed: instantiation arities must
    /// match, and unresolved parameter placeholders are errors.
    #[verifier::loop_isolation(false)]
    pub fn check_type_well_formed(&self, t: &Type, l: &Location) -> (r: Result<(), NessaError>)
        requires
            spec_type_ids_ok(*self, t@),
        ensures
            (r is Ok) == spec_type_wf(*self, t@),
        decreases *t,
    {
        match t {
            Type::TemplateParamStr(n, _) => {
                let mut msg = String::new();
                msg.append("Template ");
                msg.append(n.as_str());
                msg.append(" is not defined");
                Err(NessaError::compiler_error(msg, l, Vec::new()))
            },
            Type::TemplateParam(_, cs) => {
                proof {
                    crate::types::lemma_views_cs_index(cs@);
                }
                let ghost cspec = crate::types::views_cs(cs@);
                proof {
                    assert(spec_cs_ids_ok(*self, cspec));
                }
                let mut k: usize = 0;
                while k < cs.len()
                    invariant
                        k <= cs@.len(),
                        cspec == crate::types::views_cs(cs@),
                        forall|x: int|
                            0 <= x < k ==> (#[trigger] cspec[x]).args.len()
                                == self.interfaces@[cspec[x].id].params@.len() && spec_type_wf_seq(
                                *self,
                                cspec[x].args,
                            ),
                    decreases cs@.len() - k,
                {
                    let c = &cs[k];
                    proof {
                        assert(cspec[k as int] == crate::types::constraint_view(cs@[k as int]));
                        assert(0 <= cspec[k as int].id < self.interfaces@.len());
                    }
                    let interface_args = self.interfaces[c.id].params.len();
                    proof {
                        crate::types::lemma_views_index(c.args@);
                        assert(cspec[k as int].args == views(c.args@));
                    }
                    if c.args.len() != interface_args {
                        let mut msg = String::new();
                        msg.append("Interface ");
                        msg.append(self.interfaces[c.id].name.as_str());
                        msg.append(" got the wrong number of arguments");
                        proof {
                            assert(!spec_cs_wf(*self, cspec)) by {
                                if spec_cs_wf(*self, cspec) {
                                    assert((#[trigger] cspec[k as int]).args.len()
                                        == self.interfaces@[cspec[k as int].id].params@.len());
                                    assert(false);
                                }
                            }
                        }
                        return Err(NessaError::compiler_error(msg, l, Vec::new()));
                    }
                    let rc = self.check_types_well_formed(&c.args, l);
                    if rc.is_err() {
                        proof {
                            assert(!spec_cs_wf(*self, cspec)) by {
                                if spec_cs_wf(*self, cspec) {
                                    assert(spec_type_wf_seq(
                                        *self,
                                        (#[trigger] cspec[k as int]).args,
                                    ));
                                    assert(false);
                                }
                            }
                        }
                        return rc;
                    }
                    k = k + 1;
                }
                proof {
                    assert(spec_cs_wf(*self, cspec));
                }
                Ok(())
            },
            Type::Template(id, args) => {
                let num_params = self.type_templates[*id].params.len();
                if num_params != args.len() {
                    let mut msg = String::new();
                    msg.append("Type ");
                    msg.append(self.type_templates[*id].name.as_str());
                    msg.append(" got the wrong number of arguments");
                    proof {
                        crate::types::lemma_views_index(args@);
                    }
                    return Err(NessaError::compiler_error(msg, l, Vec::new()));
                }
                proof {
                    crate::types::lemma_views_index(args@);
                }
                self.check_types_well_formed(args, l)
            },
            Type::Ref(i) => self.check_type_well_formed(i, l),
            Type::MutRef(i) => self.check_type_well_formed(i, l),
            Type::Or(v) => {
                proof {
                    crate::types::lemma_views_index(v@);
                }
                self.check_types_well_formed(v, l)
            },
            Type::And(v) => {
                proof {
                    crate::types::lemma_views_index(v@);
                }
                self.check_types_well_formed(v, l)
            },
            Type::Function(a, b) => {
                let ra = self.check_type_well_formed(a, l);
                if ra.is_err() {
                    return ra;
                }
                self.check_type_well_formed(b, l)
            },
            _ => Ok(()),
        }
    }

    /// Check a list of written types for well-formedness.
    #[verifier::loop_isolation(false)]
    pub fn check_types_well_formed(&self, ts: &Vec<Type>, l: &Location) -> (r: Result<
        (),
        NessaError,
    >)
        requires
            spec_type_ids_ok_seq(*self, views(ts@)),
        ensures
            (r is Ok) == spec_type_wf_seq(*self, views(ts@)),
        decreases ts,
    {
        proof {
            crate::types::lemma_views_index(ts@);
        }
        let mut j: usize = 0;
        while j < ts.len()
            invariant
                j <= ts@.len(),
                forall|k: int| 0 <= k < j ==> spec_type_wf(*self, #[trigger] views(ts@)[k]),
            decreases ts@.len() - j,
        {
            let rt = self.check_type_well_formed(&ts[j], l);
            if rt.is_err() {
                return rt;
            }
            j = j + 1;
        }
        Ok(())
    }
}

/// No `SelfType` is written outside an interface: not on bindings, not
/// on explicit template arguments, not in non-generic declaration
/// signatures, not in class attributes or implementation headers.
pub open spec fn spec_no_self_ok(e: NessaExpr) -> bool
    decreases e,
{
    match e {
        NessaExpr::CompiledVariableAssignment(_, _, _, t, inner) => !spec_has_self(t@)
            && spec_no_self_ok(*inner),
        NessaExpr::CompiledVariableDefinition(_, _, _, t, inner) => !spec_has_self(t@)
            && spec_no_self_ok(*inner),
        NessaExpr::AttributeAssignment(_, a, b, _) => spec_no_self_ok(*a) && spec_no_self_ok(*b),
        NessaExpr::AttributeAccess(_, inner, _) => spec_no_self_ok(*inner),
        NessaExpr::Tuple(_, args) => spec_no_self_lines(args@),
        NessaExpr::If(_, c, ib, ei, eb) => spec_no_self_ok(*c) && spec_no_self_lines(ib@) && (forall|
            k: int,
        |
            0 <= k < ei@.len() ==> spec_no_self_ok((#[trigger] ei@[k]).0) && spec_no_self_lines(
                ei@[k].1@,
            )) && (match eb {
            Some(lines) => spec_no_self_lines(lines@),
            None => true,
        }),
        NessaExpr::DoBlock(_, b, t) => !spec_has_self(t@) && spec_no_self_lines(b@),
        NessaExpr::CompiledFor(_, _, _, _, c, b) => spec_no_self_ok(*c) && spec_no_self_lines(b@),
        NessaExpr::While(_, c, b) => spec_no_self_ok(*c) && spec_no_self_lines(b@),
        NessaExpr::UnaryOperation(_, _, tm, inner) => spec_no_self_ok(*inner)
            && spec_no_self_types(tm@),
        NessaExpr::BinaryOperation(_, _, tm, a, b) => spec_no_self_ok(*a) && spec_no_self_ok(*b)
            && spec_no_self_types(tm@),
        NessaExpr::NaryOperation(_, _, tm, a, args) => spec_no_self_ok(*a) && spec_no_self_lines(
            args@,
        ) && spec_no_self_types(tm@),
        NessaExpr::FunctionCall(_, _, tm, args) => spec_no_self_lines(args@) && spec_no_self_types(
            tm@,
        ),
        NessaExpr::Return(_, inner) => spec_no_self_ok(*inner),
        NessaExpr::CompiledLambda(_, _, c, args, ret, b) => (forall|k: int|
            0 <= k < c@.len() ==> spec_no_self_ok((#[trigger] c@[k]).1)) && spec_no_self_lines(b@)
            && (forall|k: int| 0 <= k < args@.len() ==> !spec_has_self(type_view((#[trigger] args@[k]).1)))
            && !spec_has_self(ret@),
        NessaExpr::PrefixOperationDefinition(_, _, _, tm, _, a, ret, b) => tm@.len() != 0 || (
        spec_no_self_lines(b@) && !spec_has_self(type_view(a)) && !spec_has_self(ret@)),
        NessaExpr::PostfixOperationDefinition(_, _, _, tm, _, a, ret, b) => tm@.len() != 0 || (
        spec_no_self_lines(b@) && !spec_has_self(type_view(a)) && !spec_has_self(ret@)),
        NessaExpr::BinaryOperationDefinition(_, _, _, tm, a1, a2, ret, b) => tm@.len() != 0 || (
        spec_no_self_lines(b@) && !spec_has_self(type_view(a1.1)) && !spec_has_self(
            type_view(a2.1),
        ) && !spec_has_self(ret@)),
        NessaExpr::NaryOperationDefinition(_, _, _, tm, a, args, ret, b) => tm@.len() != 0 || (
        spec_no_self_lines(b@) && !spec_has_self(type_view(a.1)) && (forall|k: int|
            0 <= k < args@.len() ==> !spec_has_self(type_view((#[trigger] args@[k]).1)))
            && !spec_has_self(ret@)),
        NessaExpr::FunctionDefinition(_, _, _, tm, args, ret, b) => tm@.len() != 0 || (
        spec_no_self_lines(b@) && (forall|k: int|
            0 <= k < args@.len() ==> !spec_has_self(type_view((#[trigger] args@[k]).1)))
            && !spec_has_self(ret@)),
        NessaExpr::ClassDefinition(_, _, _, _, args, alias, _) => match alias {
            Some(t) => !spec_has_self(t@),
            None => forall|k: int|
                0 <= k < args@.len() ==> !spec_has_self(type_view((#[trigger] args@[k]).1)),
        },
        NessaExpr::InterfaceImplementation(_, _, tp, _, args) => !spec_has_self(tp@) && forall|
            k: int,
        | 0 <= k < args@.len() ==> !spec_has_self(type_view(#[trigger] args@[k])),
        _ => true,
    }
}

pub open spec fn spec_no_self_lines(lines: Seq<NessaExpr>) -> bool
    decreases lines,
{
    forall|k: int| 0 <= k < lines.len() ==> spec_no_self_ok(#[trigger] lines[k])
}

pub open spec fn spec_no_self_types(ts: Seq<Type>) -> bool {
    forall|k: int| 0 <= k < ts.len() ==> !spec_has_self(type_view(#[trigger] ts[k]))
}

impl NessaContext {
    /// `SelfType` may not be written outside an interface.
    #[verifier::loop_isolation(false)]
    pub fn invalid_type_check(&self, expr: &NessaExpr) -> (r: Result<(), NessaError>)
        requires
            spec_checkable(*expr),
        ensures
            (r is Ok) == spec_no_self_ok(*expr),
        decreases *expr,
    {
        match expr {
            NessaExpr::CompiledVariableAssignment(l, _, _, t, e) => {
                if t.has_self() {
                    return Err(self_error(l));
                }
                self.invalid_type_check(e)
            },
            NessaExpr::CompiledVariableDefinition(l, _, _, t, e) => {
                if t.has_self() {
                    return Err(self_error(l));
                }
                self.invalid_type_check(e)
            },
            NessaExpr::AttributeAssignment(_, a, b, _) => {
                let ra = self.invalid_type_check(a);
                if ra.is_err() {
                    return ra;
                }
                self.invalid_type_check(b)
            },
            NessaExpr::AttributeAccess(_, e, _) => self.invalid_type_check(e),
            NessaExpr::Tuple(_, args) => self.invalid_type_lines(args),
            NessaExpr::If(_, c, ib, ei, eb) => {
                let rc = self.invalid_type_check(c);
                if rc.is_err() {
                    return rc;
                }
                let rb = self.invalid_type_lines(ib);
                if rb.is_err() {
                    return rb;
                }
                let mut i: usize = 0;
                while i < ei.len()
                    invariant
                        i <= ei@.len(),
                        forall|k: int|
                            0 <= k < i ==> spec_no_self_ok((#[trigger] ei@[k]).0)
                                && spec_no_self_lines(ei@[k].1@),
                    decreases ei@.len() - i,
                {
                    let rh = self.invalid_type_check(&ei[i].0);
                    if rh.is_err() {
                        return rh;
                    }
                    let rl = self.invalid_type_lines(&ei[i].1);
                    if rl.is_err() {
                        return rl;
                    }
                    i = i + 1;
                }
                match eb {
                    Some(eb_lines) => self.invalid_type_lines(eb_lines),
                    None => Ok(()),
                }
            },
            NessaExpr::DoBlock(l, b, t) => {
                if t.has_self() {
                    return Err(self_error(l));
                }
                self.invalid_type_lines(b)
            },
            NessaExpr::CompiledFor(_, _, _, _, c, b) => {
                let rc = self.invalid_type_check(c);
                if rc.is_err() {
                    return rc;
                }
                self.invalid_type_lines(b)
            },
            NessaExpr::While(_, c, b) => {
                let rc = self.invalid_type_check(c);
                if rc.is_err() {
                    return rc;
                }
                self.invalid_type_lines(b)
            },
            NessaExpr::UnaryOperation(l, _, tm, e) => {
                let re = self.invalid_type_check(e);
                if re.is_err() {
                    return re;
                }
                self.no_self_types(tm, l)
            },
            NessaExpr::BinaryOperation(l, _, tm, a, b) => {
                let ra = self.invalid_type_check(a);
                if ra.is_err() {
                    return ra;
                }
                let rb = self.invalid_type_check(b);
                if rb.is_err() {
                    return rb;
                }
                self.no_self_types(tm, l)
            },
            NessaExpr::NaryOperation(l, _, tm, a, args) => {
                let ra = self.invalid_type_check(a);
                if ra.is_err() {
                    return ra;
                }
                let rb = self.invalid_type_lines(args);
                if rb.is_err() {
                    return rb;
                }
                self.no_self_types(tm, l)
            },
            NessaExpr::FunctionCall(l, _, tm, args) => {
                let rb = self.invalid_type_lines(args);
                if rb.is_err() {
                    return rb;
                }
                self.no_self_types(tm, l)
            },
            NessaExpr::Return(_, e) => self.invalid_type_check(e),
            NessaExpr::CompiledLambda(l, _, c, args, ret, b) => {
                let mut i: usize = 0;
                while i < c.len()
                    invariant
                        i <= c@.len(),
                        forall|k: int| 0 <= k < i ==> spec_no_self_ok((#[trigger] c@[k]).1),
                    decreases c@.len() - i,
                {
                    let rc = self.invalid_type_check(&c[i].1);
                    if rc.is_err() {
                        return rc;
                    }
                    i = i + 1;
                }
                let rb = self.invalid_type_lines(b);
                if rb.is_err() {
                    return rb;
                }
                let mut i2: usize = 0;
                while i2 < args.len()
                    invariant
                        i2 <= args@.len(),
                        forall|k: int|
                            0 <= k < i2 ==> !spec_has_self(type_view((#[trigger] args@[k]).1)),
                    decreases args@.len() - i2,
                {
                    if args[i2].1.has_self() {
                        return Err(self_error(l));
                    }
                    i2 = i2 + 1;
                }
                if ret.has_self() {
                    return Err(self_error(l));
                }
                Ok(())
            },
            NessaExpr::PrefixOperationDefinition(l, _, _, tm, _, a, ret, b) => {
                if tm.len() != 0 {
                    return Ok(());
                }
                let rb = self.invalid_type_lines(b);
                if rb.is_err() {
                    return rb;
                }
                if a.has_self() {
                    return Err(self_error(l));
                }
                if ret.has_self() {
                    return Err(self_error(l));
                }
                Ok(())
            },
            NessaExpr::PostfixOperationDefinition(l, _, _, tm, _, a, ret, b) => {
                if tm.len() != 0 {
                    return Ok(());
                }
                let rb = self.invalid_type_lines(b);
                if rb.is_err() {
                    return rb;
                }
                if a.has_self() {
                    return Err(self_error(l));
                }
                if ret.has_self() {
                    return Err(self_error(l));
                }
                Ok(())
            },
            NessaExpr::BinaryOperationDefinition(l, _, _, tm, a1, a2, ret, b) => {
                if tm.len() != 0 {
                    return Ok(());
                }
                let rb = self.invalid_type_lines(b);
                if rb.is_err() {
                    return rb;
                }
                if a1.1.has_self() {
                    return Err(self_error(l));
                }
                if a2.1.has_self() {
                    return Err(self_error(l));
                }
                if ret.has_self() {
                    return Err(self_error(l));
                }
                Ok(())
            },
            NessaExpr::NaryOperationDefinition(l, _, _, tm, a, args, ret, b) => {
                if tm.len() != 0 {
                    return Ok(());
                }
                let rb = self.invalid_type_lines(b);
                if rb.is_err() {
                    return rb;
                }
                if a.1.has_self() {
                    return Err(self_error(l));
                }
                let mut i: usize = 0;
                while i < args.len()
                    invariant
                        i <= args@.len(),
                        forall|k: int|
                            0 <= k < i ==> !spec_has_self(type_view((#[trigger] args@[k]).1)),
                    decreases args@.len() - i,
                {
                    if args[i].1.has_self() {
                        return Err(self_error(l));
                    }
                    i = i + 1;
                }
                if ret.has_self() {
                    return Err(self_error(l));
                }
                Ok(())
            },
            NessaExpr::FunctionDefinition(l, _, _, tm, args, ret, b) => {
                if tm.len() != 0 {
                    return Ok(());
                }
                let rb = self.invalid_type_lines(b);
                if rb.is_err() {
                    return rb;
                }
                let mut i: usize = 0;
                while i < args.len()
                    invariant
                        i <= args@.len(),
                        forall|k: int|
                            0 <= k < i ==> !spec_has_self(type_view((#[trigger] args@[k]).1)),
                    decreases args@.len() - i,
                {
                    if args[i].1.has_self() {
                        return Err(self_error(l));
                    }
                    i = i + 1;
                }
                if ret.has_self() {
                    return Err(self_error(l));
                }
                Ok(())
            },
            NessaExpr::ClassDefinition(l, _, _, _, args, alias, _) => {
                match alias {
                    Some(t) => {
                        if t.has_self() {
                            return Err(self_error(l));
                        }
                        Ok(())
                    },
                    None => {
                        let mut i: usize = 0;
                        while i < args.len()
                            invariant
                                i <= args@.len(),
                                forall|k: int|
                                    0 <= k < i ==> !spec_has_self(
                                        type_view((#[trigger] args@[k]).1),
                                    ),
                            decreases args@.len() - i,
                        {
                            if args[i].1.has_self() {
                                return Err(self_error(l));
                            }
                            i = i + 1;
                        }
                        Ok(())
                    },
                }
            },
            NessaExpr::InterfaceImplementation(l, _, tp, _, args) => {
                if tp.has_self() {
                    return Err(self_error(l));
                }
                let mut i: usize = 0;
                while i < args.len()
                    invariant
                        i <= args@.len(),
                        forall|k: int| 0 <= k < i ==> !spec_has_self(type_view(#[trigger] args@[k])),
                    decreases args@.len() - i,
                {
                    if args[i].has_self() {
                        return Err(self_error(l));
                    }
                    i = i + 1;
                }
                Ok(())
            },
            _ => Ok(()),
        }
    }

    /// Check a list of lines for written `SelfType`.
    #[verifier::loop_isolation(false)]
    fn invalid_type_lines(&self, lines: &Vec<NessaExpr>) -> (r: Result<(), NessaError>)
        requires
            spec_all_checkable(lines@),
        ensures
            (r is Ok) == spec_no_self_lines(lines@),
        decreases lines,
    {
        let mut j: usize = 0;
        while j < lines.len()
            invariant
                j <= lines@.len(),
                forall|k: int| 0 <= k < j ==> spec_no_self_ok(#[trigger] lines@[k]),
            decreases lines@.len() - j,
        {
            let rl = self.invalid_type_check(&lines[j]);
            if rl.is_err() {
                return rl;
            }
            j = j + 1;
        }
        Ok(())
    }

    /// Check a list of explicit template arguments for `SelfType`.
    #[verifier::loop_isolation(false)]
    fn no_self_types(&self, ts: &Vec<Type>, l: &Location) -> (r: Result<(), NessaError>)
        ensures
            (r is Ok) == spec_no_self_types(ts@),
    {
        let mut j: usize = 0;
        while j < ts.len()
            invariant
                j <= ts@.len(),
                forall|k: int| 0 <= k < j ==> !spec_has_self(type_view(#[trigger] ts@[k])),
            decreases ts@.len() - j,
        {
            if ts[j].has_self() {
                return Err(self_error(l));
            }
            j = j + 1;
        }
        Ok(())
    }
}

/// The error for a written `SelfType` outside an interface.
fn self_error(l: &Location) -> (r: NessaError) {
    NessaError::compiler_error(
        String::from_str("Self type found outside an interface"),
        l,
        Vec::new(),
    )
}

/// A `test` annotation is allowed: it takes no arguments, and the
/// annotated declaration is non-generic, takes no parameters, and
/// returns a boolean, possibly through a reference.
pub open spec fn spec_test_ann_ok(
    a: crate::annotations::Annotation,
    t: Seq<String>,
    args: Seq<(String, Type)>,
    ret: TypeS,
) -> bool {
    &&& crate::annotations::spec_args_allowed(a.spec_keys(), Seq::empty(), Seq::empty())
    &&& t.len() == 0
    &&& args.len() == 0
    &&& crate::types::spec_deref(ret) == TypeS::Basic(0)
}

/// A `doc` annotation on a declaration with parameters: its keys are
/// the positional markers or the parameter names.
pub open spec fn spec_doc_ann_ok(
    a: crate::annotations::Annotation,
    names: Seq<Seq<char>>,
) -> bool {
    crate::annotations::spec_args_allowed(a.spec_keys(), seq!["0"@, "1"@], names)
}

/// A `doc` annotation on a declaration whose only named markers are
/// the given names (attribute names for a class, none for a macro or
/// an interface).
pub open spec fn spec_noret_doc_ann_ok(
    a: crate::annotations::Annotation,
    names: Seq<Seq<char>>,
) -> bool {
    crate::annotations::spec_args_allowed(a.spec_keys(), seq!["0"@], names)
}

/// The annotations of a function-like declaration are recognized and
/// well placed: `test` under its conditions, `doc` with known keys.
pub open spec fn spec_fn_anns_ok(
    an: Seq<crate::annotations::Annotation>,
    t: Seq<String>,
    args: Seq<(String, Type)>,
    ret: TypeS,
) -> bool {
    forall|k: int|
        0 <= k < an.len() ==> ((#[trigger] an[k]).name@ == "test"@ && spec_test_ann_ok(
            an[k],
            t,
            args,
            ret,
        )) || (an[k].name@ == "doc"@ && spec_doc_ann_ok(an[k], spec_fst_names(args)))
}

/// The annotations of a declaration that rejects `test` and takes a
/// single positional `doc` marker beside the given named markers.
pub open spec fn spec_noret_anns_ok(
    an: Seq<crate::annotations::Annotation>,
    names: Seq<Seq<char>>,
) -> bool {
    forall|k: int|
        0 <= k < an.len() ==> (#[trigger] an[k]).name@ == "doc"@ && spec_noret_doc_ann_ok(
            an[k],
            names,
        )
}

/// The annotations on an interface member header: `doc` only, with the
/// member's parameter names as keys.
pub open spec fn spec_member_anns_ok(
    an: Seq<crate::annotations::Annotation>,
    args: Seq<(String, Type)>,
) -> bool {
    forall|k: int|
        0 <= k < an.len() ==> (#[trigger] an[k]).name@ == "doc"@ && spec_doc_ann_ok(
            an[k],
            spec_fst_names(args),
        )
}

/// Member-annotation validity reads only the number and names of the
/// parameters.
pub proof fn lemma_member_anns_congruent(
    an: Seq<crate::annotations::Annotation>,
    a1: Seq<(String, Type)>,
    a2: Seq<(String, Type)>,
)
    requires
        a1.len() == a2.len(),
        forall|k: int| 0 <= k < a1.len() ==> (#[trigger] a1[k]).0@ == (#[trigger] a2[k]).0@,
    ensures
        spec_member_anns_ok(an, a1) == spec_member_anns_ok(an, a2),
{
    assert(spec_fst_names(a1) =~= spec_fst_names(a2));
}

/// Every member annotation of every member list of an interface is
/// legal.
pub open spec fn spec_iface_member_anns_ok(
    fns: Seq<crate::interfaces::InterfaceFn>,
    uns: Seq<crate::interfaces::InterfaceUnaryOp>,
    bin: Seq<crate::interfaces::InterfaceBinaryOp>,
    nary: Seq<crate::interfaces::InterfaceNaryOp>,
) -> bool {
    &&& forall|k: int|
        0 <= k < fns.len() ==> spec_member_anns_ok(
            (#[trigger] fns[k]).annotations@,
            fns[k].args@,
        )
    &&& forall|k: int|
        0 <= k < uns.len() ==> spec_member_anns_ok(
            (#[trigger] uns[k]).annotations@,
            seq![(uns[k].arg_name, uns[k].arg_type)],
        )
    &&& forall|k: int|
        0 <= k < bin.len() ==> spec_member_anns_ok(
            (#[trigger] bin[k]).annotations@,
            seq![bin[k].arg_a, bin[k].arg_b],
        )
    &&& forall|k: int|
        0 <= k < nary.len() ==> spec_member_anns_ok(
            (#[trigger] nary[k]).annotations@,
            seq![nary[k].arg_a] + nary[k].args@,
        )
}

/// Annotation validity for a whole declaration.
pub open spec fn spec_annotations_ok(e: NessaExpr) -> bool {
    match e {
        NessaExpr::Macro(_, an, _, _, _, _) => spec_noret_anns_ok(an@, Seq::empty()),
        NessaExpr::ClassDefinition(_, an, _, _, attrs, _, _) => spec_noret_anns_ok(
            an@,
            spec_fst_names(attrs@),
        ),
        NessaExpr::InterfaceDefinition(_, an, _, _, fns, uns, bin, nary) => spec_noret_anns_ok(
            an@,
            Seq::empty(),
        ) && spec_iface_member_anns_ok(fns@, uns@, bin@, nary@),
        NessaExpr::FunctionDefinition(_, an, _, t, args, ret, _) => spec_fn_anns_ok(
            an@,
            t@,
            args@,
            ret@,
        ),
        NessaExpr::PrefixOperationDefinition(_, an, _, t, n, at, ret, _) => spec_fn_anns_ok(
            an@,
            t@,
            seq![(n, at)],
            ret@,
        ),
        NessaExpr::PostfixOperationDefinition(_, an, _, t, n, at, ret, _) => spec_fn_anns_ok(
            an@,
            t@,
            seq![(n, at)],
            ret@,
        ),
        NessaExpr::BinaryOperationDefinition(_, an, _, t, a1, a2, ret, _) => spec_fn_anns_ok(
            an@,
            t@,
            seq![a1, a2],
            ret@,
        ),
        NessaExpr::NaryOperationDefinition(_, an, _, t, a, args, ret, _) => spec_fn_anns_ok(
            an@,
            t@,
            seq![a] + args@,
            ret@,
        ),
        _ => true,
    }
}

impl NessaContext {
    /// `test` annotations take no arguments, and mark only
    /// non-generic, zero-parameter declarations returning a boolean.
    pub fn check_test_annotation(
        &self,
        annot: &crate::annotations::Annotation,
        t: &Vec<String>,
        args: &Vec<(String, Type)>,
        ret: &Type,
    ) -> (r: Result<(), String>)
        ensures
            (r is Ok) == spec_test_ann_ok(*annot, t@, args@, ret@),
    {
        let empty: Vec<String> = Vec::new();
        let rc = annot.check_args(&empty, &empty);
        proof {
            assert(Seq::new(empty@.len(), |i: int| empty@[i]@) =~= Seq::<Seq<char>>::empty());
        }
        if rc.is_err() {
            let mut msg = String::new();
            msg.append("Test annotations cannot take arguments");
            return Err(msg);
        }
        if t.len() > 0 {
            let mut msg = String::new();
            msg.append("Declarations annotated with test cannot be generic");
            return Err(msg);
        }
        if args.len() > 0 {
            let mut msg = String::new();
            msg.append("Declarations annotated with test cannot take any parameters");
            return Err(msg);
        }
        let d = ret.deref_type();
        match d {
            Type::Basic(id) => {
                if *id == 0 {
                    Ok(())
                } else {
                    let mut msg = String::new();
                    msg.append("Declarations annotated with test must return a boolean");
                    Err(msg)
                }
            },
            _ => {
                let mut msg = String::new();
                msg.append("Declarations annotated with test must return a boolean");
                proof {
                    crate::bindable::lemma_view_shape(*d);
                }
                Err(msg)
            },
        }
    }

    /// `doc` annotations on declarations with parameters take the two
    /// positional markers or the parameter names as keys.
    pub fn check_fn_doc_annotation(
        &self,
        annot: &crate::annotations::Annotation,
        arg_names: &Vec<String>,
    ) -> (r: Result<(), String>)
        ensures
            (r is Ok) == spec_doc_ann_ok(*annot, spec_names(arg_names@)),
    {
        let mut pos: Vec<String> = Vec::new();
        pos.push(String::from_str("0"));
        pos.push(String::from_str("1"));
        proof {
            assert(Seq::new(pos@.len(), |i: int| pos@[i]@) =~= seq!["0"@, "1"@]);
            assert(Seq::new(arg_names@.len(), |i: int| arg_names@[i]@) =~= spec_names(arg_names@));
        }
        annot.check_args(&pos, arg_names)
    }

    /// `doc` annotations on macros, classes and interfaces take the
    /// positional marker, and for a class the attribute names.
    pub fn check_noret_doc_annotation(
        &self,
        annot: &crate::annotations::Annotation,
        args: &Vec<(String, Type)>,
    ) -> (r: Result<(), String>)
        ensures
            (r is Ok) == spec_noret_doc_ann_ok(*annot, spec_fst_names(args@)),
    {
        let mut pos: Vec<String> = Vec::new();
        pos.push(String::from_str("0"));
        let names = clone_fst_names(args);
        proof {
            assert(Seq::new(pos@.len(), |i: int| pos@[i]@) =~= seq!["0"@]);
            assert(Seq::new(names@.len(), |i: int| names@[i]@) =~= spec_fst_names(args@));
        }
        annot.check_args(&pos, &names)
    }

    /// Every annotation must be recognized and legal for the
    /// declaration it sits on.
    #[verifier::loop_isolation(false)]
    pub fn annotation_checks(&self, expr: &NessaExpr) -> (r: Result<(), NessaError>)
        ensures
            (r is Ok) == spec_annotations_ok(*expr),
    {
        match expr {
            NessaExpr::Macro(l, an, _, _, _, _) => {
                let empty_args: Vec<(String, Type)> = Vec::new();
                proof {
                    assert(spec_fst_names(empty_args@) =~= Seq::<Seq<char>>::empty());
                }
                self.noret_annotations(an, &empty_args, l)
            },
            NessaExpr::ClassDefinition(l, an, _, _, attrs, _, _) => self.noret_annotations(
                an,
                attrs,
                l,
            ),
            NessaExpr::InterfaceDefinition(l, an, _, _, fns, uns, bin, nary) => {
                let empty_args: Vec<(String, Type)> = Vec::new();
                proof {
                    assert(spec_fst_names(empty_args@) =~= Seq::<Seq<char>>::empty());
                }
                let own = self.noret_annotations(an, &empty_args, l);
                if own.is_err() {
                    return own;
                }
                let mut k: usize = 0;
                while k < fns.len()
                    invariant
                        k <= fns@.len(),
                        forall|x: int|
                            0 <= x < k ==> spec_member_anns_ok(
                                (#[trigger] fns@[x]).annotations@,
                                fns@[x].args@,
                            ),
                    decreases fns@.len() - k,
                {
                    let rm = self.member_annotations(&fns[k].annotations, &fns[k].args, l);
                    if rm.is_err() {
                        return rm;
                    }
                    k = k + 1;
                }
                let mut k2: usize = 0;
                while k2 < uns.len()
                    invariant
                        k2 <= uns@.len(),
                        forall|x: int|
                            0 <= x < k2 ==> spec_member_anns_ok(
                                (#[trigger] uns@[x]).annotations@,
                                seq![(uns@[x].arg_name, uns@[x].arg_type)],
                            ),
                    decreases uns@.len() - k2,
                {
                    let m = &uns[k2];
                    let mut pairs: Vec<(String, Type)> = Vec::new();
                    pairs.push((crate::types::clone_string(&m.arg_name), m.arg_type.clone_type()));
                    let rm = self.member_annotations(&m.annotations, &pairs, l);
                    proof {
                        lemma_member_anns_congruent(
                            m.annotations@,
                            pairs@,
                            seq![(m.arg_name, m.arg_type)],
                        );
                    }
                    if rm.is_err() {
                        return rm;
                    }
                    k2 = k2 + 1;
                }
                let mut k3: usize = 0;
                while k3 < bin.len()
                    invariant
                        k3 <= bin@.len(),
                        forall|x: int|
                            0 <= x < k3 ==> spec_member_anns_ok(
                                (#[trigger] bin@[x]).annotations@,
                                seq![bin@[x].arg_a, bin@[x].arg_b],
                            ),
                    decreases bin@.len() - k3,
                {
                    let m = &bin[k3];
                    let mut pairs: Vec<(String, Type)> = Vec::new();
                    pairs.push((crate::types::clone_string(&m.arg_a.0), m.arg_a.1.clone_type()));
                    pairs.push((crate::types::clone_string(&m.arg_b.0), m.arg_b.1.clone_type()));
                    let rm = self.member_annotations(&m.annotations, &pairs, l);
                    proof {
                        lemma_member_anns_congruent(
                            m.annotations@,
                            pairs@,
                            seq![m.arg_a, m.arg_b],
                        );
                    }
                    if rm.is_err() {
                        return rm;
                    }
                    k3 = k3 + 1;
                }
                let mut k4: usize = 0;
                while k4 < nary.len()
                    invariant
                        k4 <= nary@.len(),
                        forall|x: int|
                            0 <= x < k4 ==> spec_member_anns_ok(
                                (#[trigger] nary@[x]).annotations@,
                                seq![nary@[x].arg_a] + nary@[x].args@,
                            ),
                    decreases nary@.len() - k4,
                {
                    let m = &nary[k4];
                    let mut pairs: Vec<(String, Type)> = Vec::new();
                    pairs.push((crate::types::clone_string(&m.arg_a.0), m.arg_a.1.clone_type()));
                    let mut i: usize = 0;
                    while i < m.args.len()
                        invariant
                            i <= m.args@.len(),
                            pairs@.len() == i + 1,
                            pairs@[0].0@ == m.arg_a.0@,
                            forall|x: int|
                                0 <= x < i ==> (#[trigger] pairs@[x + 1]).0@ == m.args@[x].0@,
                        decreases m.args@.len() - i,
                    {
                        pairs.push(
                            (crate::types::clone_string(&m.args[i].0), m.args[i].1.clone_type()),
                        );
                        i = i + 1;
                    }
                    let rm = self.member_annotations(&m.annotations, &pairs, l);
                    proof {
                        assert forall|x: int|
                            0 <= x < pairs@.len() implies (#[trigger] pairs@[x]).0@ == ((seq![
                            m.arg_a,
                        ] + m.args@)[x]).0@ by {
                            if x > 0 {
                                let x0 = x - 1;
                                assert(pairs@[x0 + 1].0@ == m.args@[x0].0@);
                            }
                        }
                        lemma_member_anns_congruent(
                            m.annotations@,
                            pairs@,
                            seq![m.arg_a] + m.args@,
                        );
                    }
                    if rm.is_err() {
                        return rm;
                    }
                    k4 = k4 + 1;
                }
                Ok(())
            },
            NessaExpr::FunctionDefinition(l, an, _, t, args, ret, _) => {
                self.fn_annotations(an, t, args, ret, l)
            },
            NessaExpr::PrefixOperationDefinition(l, an, _, t, n, at, ret, _) => {
                let mut pairs: Vec<(String, Type)> = Vec::new();
                pairs.push((crate::types::clone_string(n), at.clone_type()));
                let rr = self.fn_annotations(an, t, &pairs, ret, l);
                proof {
                    lemma_fn_anns_congruent(an@, t@, pairs@, seq![(*n, *at)], ret@);
                }
                rr
            },
            NessaExpr::PostfixOperationDefinition(l, an, _, t, n, at, ret, _) => {
                let mut pairs: Vec<(String, Type)> = Vec::new();
                pairs.push((crate::types::clone_string(n), at.clone_type()));
                let rr = self.fn_annotations(an, t, &pairs, ret, l);
                proof {
                    lemma_fn_anns_congruent(an@, t@, pairs@, seq![(*n, *at)], ret@);
                }
                rr
            },
            NessaExpr::BinaryOperationDefinition(l, an, _, t, a1, a2, ret, _) => {
                let mut pairs: Vec<(String, Type)> = Vec::new();
                pairs.push((crate::types::clone_string(&a1.0), a1.1.clone_type()));
                pairs.push((crate::types::clone_string(&a2.0), a2.1.clone_type()));
                let rr = self.fn_annotations(an, t, &pairs, ret, l);
                proof {
                    lemma_fn_anns_congruent(an@, t@, pairs@, seq![*a1, *a2], ret@);
                }
                rr
            },
            NessaExpr::NaryOperationDefinition(l, an, _, t, a, args, ret, _) => {
                let mut pairs: Vec<(String, Type)> = Vec::new();
                pairs.push((crate::types::clone_string(&a.0), a.1.clone_type()));
                let mut i: usize = 0;
                while i < args.len()
                    invariant
                        i <= args@.len(),
                        pairs@.len() == i + 1,
                        pairs@[0].0@ == a.0@,
                        pairs@[0].1@ == a.1@,
                        forall|k: int|
                            0 <= k < i ==> (#[trigger] pairs@[k + 1]).0@ == args@[k].0@
                                && pairs@[k + 1].1@ == args@[k].1@,
                    decreases args@.len() - i,
                {
                    pairs.push((crate::types::clone_string(&args[i].0), args[i].1.clone_type()));
                    i = i + 1;
                }
                let rr = self.fn_annotations(an, t, &pairs, ret, l);
                proof {
                    assert forall|k: int|
                        0 <= k < pairs@.len() implies (#[trigger] pairs@[k]).0@ == ((seq![*a]
                        + args@)[k]).0@ by {
                        if k > 0 {
                            let k0 = k - 1;
                            assert(pairs@[k0 + 1].0@ == args@[k0].0@);
                        }
                    }
                    lemma_fn_anns_congruent(an@, t@, pairs@, seq![*a] + args@, ret@);
                }
                rr
            },
            _ => Ok(()),
        }
    }

    /// Check the annotations of a declaration that takes a positional
    /// `doc` with the given named markers and rejects everything else.
    #[verifier::loop_isolation(false)]
    fn noret_annotations(
        &self,
        an: &Vec<crate::annotations::Annotation>,
        args: &Vec<(String, Type)>,
        l: &Location,
    ) -> (r: Result<(), NessaError>)
        ensures
            (r is Ok) == spec_noret_anns_ok(an@, spec_fst_names(args@)),
    {
        let doc_name = String::from_str("doc");
        let mut k: usize = 0;
        while k < an.len()
            invariant
                k <= an@.len(),
                doc_name@ == "doc"@,
                forall|x: int|
                    0 <= x < k ==> (#[trigger] an@[x]).name@ == "doc"@ && spec_noret_doc_ann_ok(
                        an@[x],
                        spec_fst_names(args@),
                    ),
            decreases an@.len() - k,
        {
            let a = &an[k];
            if string_eq(&a.name, &doc_name) {
                match self.check_noret_doc_annotation(a, args) {
                    Ok(()) => {},
                    Err(msg) => {
                        return Err(NessaError::compiler_error(msg, l, Vec::new()));
                    },
                }
            } else {
                let mut msg = String::new();
                msg.append("Annotation with name ");
                msg.append(a.name.as_str());
                msg.append(" is not allowed here");
                return Err(NessaError::compiler_error(msg, l, Vec::new()));
            }
            k = k + 1;
        }
        Ok(())
    }

    /// Check the annotations of an interface member header: `doc`
    /// only, with the member's parameter names as keys.
    #[verifier::loop_isolation(false)]
    fn member_annotations(
        &self,
        an: &Vec<crate::annotations::Annotation>,
        args: &Vec<(String, Type)>,
        l: &Location,
    ) -> (r: Result<(), NessaError>)
        ensures
            (r is Ok) == spec_member_anns_ok(an@, args@),
    {
        let doc_name = String::from_str("doc");
        let arg_names = clone_fst_names(args);
        let mut k: usize = 0;
        while k < an.len()
            invariant
                k <= an@.len(),
                doc_name@ == "doc"@,
                spec_names(arg_names@) == spec_fst_names(args@),
                forall|x: int|
                    0 <= x < k ==> (#[trigger] an@[x]).name@ == "doc"@ && spec_doc_ann_ok(
                        an@[x],
                        spec_fst_names(args@),
                    ),
            decreases an@.len() - k,
        {
            let a = &an[k];
            if string_eq(&a.name, &doc_name) {
                match self.check_fn_doc_annotation(a, &arg_names) {
                    Ok(()) => {},
                    Err(msg) => {
                        return Err(NessaError::compiler_error(msg, l, Vec::new()));
                    },
                }
            } else {
                let mut msg = String::new();
                msg.append("Annotation with name ");
                msg.append(a.name.as_str());
                msg.append(" is not allowed here");
                return Err(NessaError::compiler_error(msg, l, Vec::new()));
            }
            k = k + 1;
        }
        Ok(())
    }

    /// Check the annotations of a function-like declaration.
    #[verifier::loop_isolation(false)]
    fn fn_annotations(
        &self,
        an: &Vec<crate::annotations::Annotation>,
        t: &Vec<String>,
        args: &Vec<(String, Type)>,
        ret: &Type,
        l: &Location,
    ) -> (r: Result<(), NessaError>)
        ensures
            (r is Ok) == spec_fn_anns_ok(an@, t@, args@, ret@),
    {
        let arg_names = clone_fst_names(args);
        let test_name = String::from_str("test");
        let doc_name = String::from_str("doc");
        let mut k: usize = 0;
        while k < an.len()
            invariant
                k <= an@.len(),
                test_name@ == "test"@,
                doc_name@ == "doc"@,
                spec_names(arg_names@) == spec_fst_names(args@),
                forall|x: int|
                    0 <= x < k ==> ((#[trigger] an@[x]).name@ == "test"@ && spec_test_ann_ok(
                        an@[x],
                        t@,
                        args@,
                        ret@,
                    )) || (an@[x].name@ == "doc"@ && spec_doc_ann_ok(
                        an@[x],
                        spec_fst_names(args@),
                    )),
            decreases an@.len() - k,
        {
            let a = &an[k];
            if string_eq(&a.name, &test_name) {
                match self.check_test_annotation(a, t, args, ret) {
                    Ok(()) => {},
                    Err(msg) => {
                        proof {
                            reveal_strlit("test");
                            reveal_strlit("doc");
                            assert("test"@.len() == 4 && "doc"@.len() == 3);
                            assert(!spec_fn_anns_ok(an@, t@, args@, ret@)) by {
                                if spec_fn_anns_ok(an@, t@, args@, ret@) {
                                    assert(((#[trigger] an@[k as int]).name@ == "test"@
                                        && spec_test_ann_ok(an@[k as int], t@, args@, ret@)) || (
                                    an@[k as int].name@ == "doc"@ && spec_doc_ann_ok(
                                        an@[k as int],
                                        spec_fst_names(args@),
                                    )));
                                    assert(false);
                                }
                            }
                        }
                        return Err(NessaError::compiler_error(msg, l, Vec::new()));
                    },
                }
            } else if string_eq(&a.name, &doc_name) {
                match self.check_fn_doc_annotation(a, &arg_names) {
                    Ok(()) => {},
                    Err(msg) => {
                        proof {
                            reveal_strlit("test");
                            reveal_strlit("doc");
                            assert("test"@.len() == 4 && "doc"@.len() == 3);
                            assert(!spec_fn_anns_ok(an@, t@, args@, ret@)) by {
                                if spec_fn_anns_ok(an@, t@, args@, ret@) {
                                    assert(((#[trigger] an@[k as int]).name@ == "test"@
                                        && spec_test_ann_ok(an@[k as int], t@, args@, ret@)) || (
                                    an@[k as int].name@ == "doc"@ && spec_doc_ann_ok(
                                        an@[k as int],
                                        spec_fst_names(args@),
                                    )));
                                    assert(false);
                                }
                            }
                        }
                        return Err(NessaError::compiler_error(msg, l, Vec::new()));
                    },
                }
            } else {
                let mut msg = String::new();
                msg.append("Annotation with name ");
                msg.append(a.name.as_str());
                msg.append(" does not exist");
                proof {
                    assert(!spec_fn_anns_ok(an@, t@, args@, ret@)) by {
                        if spec_fn_anns_ok(an@, t@, args@, ret@) {
                            assert(((#[trigger] an@[k as int]).name@ == "test"@ && spec_test_ann_ok(
                                an@[k as int],
                                t@,
                                args@,
                                ret@,
                            )) || (an@[k as int].name@ == "doc"@ && spec_doc_ann_ok(
                                an@[k as int],
                                spec_fst_names(args@),
                            )));
                            assert(false);
                        }
                    }
                }
                return Err(NessaError::compiler_error(msg, l, Vec::new()));
            }
            k = k + 1;
        }
        Ok(())
    }
}

/// Annotation validity reads of the parameters only their number and
/// their names: lists that agree on both are interchangeable.
pub proof fn lemma_fn_anns_congruent(
    an: Seq<crate::annotations::Annotation>,
    t: Seq<String>,
    a1: Seq<(String, Type)>,
    a2: Seq<(String, Type)>,
    ret: TypeS,
)
    requires
        a1.len() == a2.len(),
        forall|k: int| 0 <= k < a1.len() ==> (#[trigger] a1[k]).0@ == (#[trigger] a2[k]).0@,
    ensures
        spec_fn_anns_ok(an, t, a1, ret) == spec_fn_anns_ok(an, t, a2, ret),
{
    assert(spec_fst_names(a1) =~= spec_fst_names(a2));
    if spec_fn_anns_ok(an, t, a1, ret) {
        assert forall|k: int|
            0 <= k < an.len() implies ((#[trigger] an[k]).name@ == "test"@ && spec_test_ann_ok(
            an[k],
            t,
            a2,
            ret,
        )) || (an[k].name@ == "doc"@ && spec_doc_ann_ok(an[k], spec_fst_names(a2))) by {
            assert(((an[k]).name@ == "test"@ && spec_test_ann_ok(an[k], t, a1, ret)) || (
            an[k].name@ == "doc"@ && spec_doc_ann_ok(an[k], spec_fst_names(a1))));
        }
    }
    if spec_fn_anns_ok(an, t, a2, ret) {
        assert forall|k: int|
            0 <= k < an.len() implies ((#[trigger] an[k]).name@ == "test"@ && spec_test_ann_ok(
            an[k],
            t,
            a1,
            ret,
        )) || (an[k].name@ == "doc"@ && spec_doc_ann_ok(an[k], spec_fst_names(a1))) by {
            assert(((an[k]).name@ == "test"@ && spec_test_ann_ok(an[k], t, a2, ret)) || (
            an[k].name@ == "doc"@ && spec_doc_ann_ok(an[k], spec_fst_names(a2))));
        }
    }
}

/// The expression is fit for the deeper checker passes: it is in
/// compiled form, every registry reference in it is in range,
/// inference inside it never reads out of bounds, attribute positions
/// denote real attributes, and declaration forms do not occur nested
/// inside bodies.
pub open spec fn spec_check_wf(ctx: NessaContext, e: NessaExpr) -> bool
    decreases e,
{
    crate::inference::spec_infer_wf(ctx, e) && match e {
        NessaExpr::Literal(_, _) => true,
        NessaExpr::Variable(_, _, _, t) => spec_type_ids_ok(ctx, t@),
        NessaExpr::Tuple(_, args) => spec_check_wf_lines(ctx, args@),
        NessaExpr::CompiledVariableDefinition(_, _, _, t, inner) => spec_type_ids_ok(ctx, t@)
            && spec_check_wf(ctx, *inner),
        NessaExpr::CompiledVariableAssignment(_, _, _, t, inner) => spec_type_ids_ok(ctx, t@)
            && spec_check_wf(ctx, *inner),
        NessaExpr::AttributeAccess(_, inner, _) => spec_check_wf(ctx, *inner),
        NessaExpr::AttributeAssignment(_, a, b, idx) => spec_check_wf(ctx, *a) && spec_check_wf(
            ctx,
            *b,
        ) && (match crate::inference::spec_infer(ctx, *a) {
            Some(at) => crate::inference::spec_attr_ok(ctx, at, idx as int),
            None => true,
        }),
        NessaExpr::FunctionCall(_, _, tm, args) => spec_types_ids_ok(ctx, tm@)
            && spec_check_wf_lines(ctx, args@),
        NessaExpr::UnaryOperation(_, _, tm, a) => spec_types_ids_ok(ctx, tm@) && spec_check_wf(
            ctx,
            *a,
        ),
        NessaExpr::BinaryOperation(_, _, tm, a, b) => spec_types_ids_ok(ctx, tm@) && spec_check_wf(
            ctx,
            *a,
        ) && spec_check_wf(ctx, *b),
        NessaExpr::NaryOperation(_, _, tm, a, args) => spec_types_ids_ok(ctx, tm@)
            && spec_check_wf(ctx, *a) && spec_check_wf_lines(ctx, args@),
        NessaExpr::If(_, c, ib, ei, eb) => spec_check_wf(ctx, *c) && spec_check_wf_lines(ctx, ib@)
            && (forall|k: int|
            0 <= k < ei@.len() ==> spec_check_wf(ctx, (#[trigger] ei@[k]).0)
                && spec_check_wf_lines(ctx, ei@[k].1@)) && (match eb {
            Some(lines) => spec_check_wf_lines(ctx, lines@),
            None => true,
        }),
        NessaExpr::While(_, c, b) => spec_check_wf(ctx, *c) && spec_check_wf_lines(ctx, b@),
        NessaExpr::CompiledFor(_, _, _, _, c, b) => spec_check_wf(ctx, *c) && spec_check_wf_lines(
            ctx,
            b@,
        ),
        NessaExpr::DoBlock(_, b, t) => spec_type_ids_ok(ctx, t@) && spec_body_wf_lines(ctx, b@),
        NessaExpr::Return(_, inner) => spec_check_wf(ctx, *inner),
        NessaExpr::Break(_) => true,
        NessaExpr::Continue(_) => true,
        NessaExpr::CompiledLambda(_, _, c, args, ret, b) => (forall|k: int|
            0 <= k < c@.len() ==> spec_lambda_stmt((#[trigger] c@[k]).1) && spec_check_wf(
                ctx,
                c@[k].1,
            )) && (forall|k: int|
            0 <= k < args@.len() ==> spec_type_ids_ok(ctx, type_view((#[trigger] args@[k]).1)))
            && spec_type_ids_ok(ctx, ret@) && spec_body_wf_lines(ctx, b@) && spec_lambda_stmts(b@),
        NessaExpr::FunctionDefinition(_, _, id, _, args, ret, b) => id < ctx.functions@.len() && (
        forall|k: int|
            0 <= k < args@.len() ==> spec_type_ids_ok(ctx, type_view((#[trigger] args@[k]).1)))
            && spec_type_ids_ok(ctx, ret@) && spec_body_wf_lines(ctx, b@),
        NessaExpr::PrefixOperationDefinition(_, _, _, _, _, a, ret, b) => spec_type_ids_ok(
            ctx,
            type_view(a),
        ) && spec_type_ids_ok(ctx, ret@) && spec_body_wf_lines(ctx, b@),
        NessaExpr::PostfixOperationDefinition(_, _, _, _, _, a, ret, b) => spec_type_ids_ok(
            ctx,
            type_view(a),
        ) && spec_type_ids_ok(ctx, ret@) && spec_body_wf_lines(ctx, b@),
        NessaExpr::BinaryOperationDefinition(_, _, _, _, a1, a2, ret, b) => spec_type_ids_ok(
            ctx,
            type_view(a1.1),
        ) && spec_type_ids_ok(ctx, type_view(a2.1)) && spec_type_ids_ok(ctx, ret@)
            && spec_body_wf_lines(ctx, b@),
        NessaExpr::NaryOperationDefinition(_, _, _, _, a, args, ret, b) => spec_type_ids_ok(
            ctx,
            type_view(a.1),
        ) && (forall|k: int|
            0 <= k < args@.len() ==> spec_type_ids_ok(ctx, type_view((#[trigger] args@[k]).1)))
            && spec_type_ids_ok(ctx, ret@) && spec_body_wf_lines(ctx, b@),
        NessaExpr::PrefixOperatorDefinition(_, _, _) => true,
        NessaExpr::PostfixOperatorDefinition(_, _, _) => true,
        NessaExpr::BinaryOperatorDefinition(_, _, _, _) => true,
        NessaExpr::NaryOperatorDefinition(_, _, _, _) => true,
        NessaExpr::ClassDefinition(_, _, _, _, attrs, alias, _) => (forall|k: int|
            0 <= k < attrs@.len() ==> spec_type_ids_ok(ctx, type_view((#[trigger] attrs@[k]).1)))
            && (match alias {
            Some(t) => spec_type_ids_ok(ctx, t@),
            None => true,
        }),
        NessaExpr::InterfaceDefinition(_, _, _, t, fns, uns, bin, nary) => spec_iface_members_ids_ok(
            ctx,
            fns@,
            uns@,
            bin@,
            nary@,
        ) && spec_iface_tm_fits(t@, fns@, uns@, bin@, nary@),
        NessaExpr::InterfaceImplementation(_, _, tp, _, ts) => spec_type_ids_ok(ctx, tp@)
            && spec_types_ids_ok(ctx, ts@) && spec_iface_impl_wf(ctx, e),
        NessaExpr::Macro(_, _, _, _, _, _) => true,
        _ => false,
    }
}

pub open spec fn spec_check_wf_lines(ctx: NessaContext, lines: Seq<NessaExpr>) -> bool
    decreases lines,
{
    forall|k: int| 0 <= k < lines.len() ==> spec_check_wf(ctx, #[trigger] lines[k])
}

/// Lines of a declaration body: well formed, and not themselves
/// declarations.
pub open spec fn spec_body_wf_lines(ctx: NessaContext, lines: Seq<NessaExpr>) -> bool
    decreases lines,
{
    forall|k: int|
        0 <= k < lines.len() ==> spec_check_wf(ctx, #[trigger] lines[k]) && spec_body_stmt(
            lines[k],
        )
}

/// Not a function or operation definition, nor a statement that leads
/// the return pass back into one while a return type is expected.
pub open spec fn spec_body_stmt(e: NessaExpr) -> bool
    decreases e,
{
    match e {
        NessaExpr::FunctionDefinition(_, _, _, _, _, _, _) => false,
        NessaExpr::PrefixOperationDefinition(_, _, _, _, _, _, _, _) => false,
        NessaExpr::PostfixOperationDefinition(_, _, _, _, _, _, _, _) => false,
        NessaExpr::BinaryOperationDefinition(_, _, _, _, _, _, _, _) => false,
        NessaExpr::NaryOperationDefinition(_, _, _, _, _, _, _, _) => false,
        NessaExpr::While(_, c, b) => spec_body_stmt(*c) && spec_body_stmts(b@),
        NessaExpr::CompiledFor(_, _, _, _, c, b) => spec_body_stmt(*c) && spec_body_stmts(b@),
        NessaExpr::If(_, c, ib, ei, eb) => spec_body_stmt(*c) && spec_body_stmts(ib@) && (forall|
            k: int,
        |
            0 <= k < ei@.len() ==> spec_body_stmt((#[trigger] ei@[k]).0) && spec_body_stmts(
                ei@[k].1@,
            )) && (match eb {
            Some(lines) => spec_body_stmts(lines@),
            None => true,
        }),
        NessaExpr::Return(_, inner) => spec_body_stmt(*inner),
        _ => true,
    }
}

pub open spec fn spec_body_stmts(lines: Seq<NessaExpr>) -> bool
    decreases lines,
{
    forall|k: int| 0 <= k < lines.len() ==> spec_body_stmt(#[trigger] lines[k])
}

/// A body's lines satisfy both halves of `spec_body_wf_lines`.
pub proof fn lemma_body_wf_split(ctx: NessaContext, lines: Seq<NessaExpr>)
    requires
        spec_body_wf_lines(ctx, lines),
    ensures
        spec_check_wf_lines(ctx, lines),
        forall|k: int| 0 <= k < lines.len() ==> spec_body_stmt(#[trigger] lines[k]),
{
    assert forall|k: int| 0 <= k < lines.len() implies spec_check_wf(ctx, #[trigger] lines[k])
        && spec_body_stmt(lines[k]) by {
        assert(spec_check_wf(ctx, lines[k]) && spec_body_stmt(lines[k]));
    }
}

pub open spec fn spec_types_ids_ok(ctx: NessaContext, ts: Seq<Type>) -> bool {
    forall|k: int| 0 <= k < ts.len() ==> spec_type_ids_ok(ctx, type_view(#[trigger] ts[k]))
}

/// Registry indices in the member signatures of an interface are in
/// range.
pub open spec fn spec_iface_members_ids_ok(
    ctx: NessaContext,
    fns: Seq<crate::interfaces::InterfaceFn>,
    uns: Seq<crate::interfaces::InterfaceUnaryOp>,
    bin: Seq<crate::interfaces::InterfaceBinaryOp>,
    nary: Seq<crate::interfaces::InterfaceNaryOp>,
) -> bool {
    &&& forall|k: int|
        0 <= k < fns.len() ==> spec_type_ids_ok(ctx, type_view((#[trigger] fns[k]).ret)) && forall|
            j: int,
        |
            0 <= j < fns[k].args@.len() ==> spec_type_ids_ok(
                ctx,
                type_view((#[trigger] fns[k].args@[j]).1),
            )
    &&& forall|k: int|
        0 <= k < uns.len() ==> spec_type_ids_ok(ctx, type_view((#[trigger] uns[k]).arg_type))
            && spec_type_ids_ok(ctx, type_view(uns[k].ret))
    &&& forall|k: int|
        0 <= k < bin.len() ==> spec_type_ids_ok(ctx, type_view((#[trigger] bin[k]).arg_a.1))
            && spec_type_ids_ok(ctx, type_view(bin[k].arg_b.1)) && spec_type_ids_ok(
            ctx,
            type_view(bin[k].ret),
        )
    &&& forall|k: int|
        0 <= k < nary.len() ==> spec_type_ids_ok(ctx, type_view((#[trigger] nary[k]).arg_a.1))
            && spec_type_ids_ok(ctx, type_view(nary[k].ret)) && forall|j: int|
            0 <= j < nary[k].args@.len() ==> spec_type_ids_ok(
                ctx,
                type_view((#[trigger] nary[k].args@[j]).1),
            )
}

/// The implementation record is checkable: the named interface, when
/// it exists, has members whose operator ids are in range, and every
/// template index written in the header or the members stays within
/// the machine's range when offset past the members' template frames.
pub open spec fn spec_iface_impl_wf(ctx: NessaContext, e: NessaExpr) -> bool {
    match e {
        NessaExpr::InterfaceImplementation(_, _, tp, n, ts) => {
            spec_interface_name_taken(ctx.interfaces@, n@) ==> {
                let id = spec_interface_id_of(ctx, n@);
                let iface = ctx.interfaces@[id];
                let m = spec_max_tms(iface);
                &&& m + iface.params@.len() <= usize::MAX
                &&& crate::types::spec_offset_fits(tp@, m + iface.params@.len())
                &&& forall|k: int|
                    0 <= k < ts.len() ==> crate::types::spec_offset_fits(
                        type_view(#[trigger] ts[k]),
                        m + iface.params@.len(),
                    )
                &&& forall|k: int|
                    0 <= k < iface.uns@.len() ==> (#[trigger] iface.uns@[k]).op_id
                        < ctx.unary_ops@.len()
                &&& forall|k: int|
                    0 <= k < iface.bin@.len() ==> (#[trigger] iface.bin@[k]).op_id
                        < ctx.binary_ops@.len()
                &&& forall|k: int|
                    0 <= k < iface.nary@.len() ==> (#[trigger] iface.nary@[k]).op_id
                        < ctx.nary_ops@.len()
            }
        },
        _ => true,
    }
}

/// The id of the interface carrying the name, when one does: the
/// first, in declaration order.
pub open spec fn spec_interface_id_of(ctx: NessaContext, n: Seq<char>) -> int {
    crate::context::spec_first_iface_id(ctx.interfaces@, n)
}

/// The first interface carrying a taken name is a real index with that
/// name.
pub proof fn lemma_first_iface_id_bounds(is: Seq<crate::interfaces::Interface>, n: Seq<char>)
    requires
        crate::context::spec_interface_name_taken(is, n),
    ensures
        0 <= crate::context::spec_first_iface_id(is, n) < is.len(),
        is[crate::context::spec_first_iface_id(is, n)].name@ == n,
    decreases is.len(),
{
    if is.len() > 0 && is[0].name@ != n {
        assert(crate::context::spec_interface_name_taken(is.skip(1), n)) by {
            let j = choose|j: int| 0 <= j < is.len() && (#[trigger] is[j]).name@ == n;
            assert(is.skip(1)[j - 1] == is[j]);
        }
        lemma_first_iface_id_bounds(is.skip(1), n);
    }
}

/// The template frame width of an interface: the sum of the largest
/// member template counts of each member kind.
pub open spec fn spec_max_tms(iface: crate::interfaces::Interface) -> int {
    spec_max_fn_tms(iface.fns@) + spec_max_un_tms(iface.uns@) + spec_max_bin_tms(iface.bin@)
        + spec_max_nary_tms(iface.nary@)
}

pub open spec fn spec_max_fn_tms(fns: Seq<crate::interfaces::InterfaceFn>) -> int
    decreases fns,
{
    if fns.len() == 0 {
        0
    } else {
        let rest = spec_max_fn_tms(fns.drop_last());
        let own = match fns.last().templates {
            Some(v) => v@.len() as int,
            None => 0,
        };
        if own > rest {
            own
        } else {
            rest
        }
    }
}

pub open spec fn spec_max_un_tms(uns: Seq<crate::interfaces::InterfaceUnaryOp>) -> int
    decreases uns,
{
    if uns.len() == 0 {
        0
    } else {
        let rest = spec_max_un_tms(uns.drop_last());
        let own = uns.last().templates@.len() as int;
        if own > rest {
            own
        } else {
            rest
        }
    }
}

pub open spec fn spec_max_bin_tms(bin: Seq<crate::interfaces::InterfaceBinaryOp>) -> int
    decreases bin,
{
    if bin.len() == 0 {
        0
    } else {
        let rest = spec_max_bin_tms(bin.drop_last());
        let own = bin.last().templates@.len() as int;
        if own > rest {
            own
        } else {
            rest
        }
    }
}

pub open spec fn spec_max_nary_tms(nary: Seq<crate::interfaces::InterfaceNaryOp>) -> int
    decreases nary,
{
    if nary.len() == 0 {
        0
    } else {
        let rest = spec_max_nary_tms(nary.drop_last());
        let own = nary.last().templates@.len() as int;
        if own > rest {
            own
        } else {
            rest
        }
    }
}

/// Return legality and typing: a `return` is only allowed inside a
/// body with an expected type, its value must bind to that type, and
/// bodies that owe a value must guarantee one.
pub open spec fn spec_return_ok(ctx: NessaContext, e: NessaExpr, ret: Option<TypeS>) -> bool
    decreases e,
{
    match e {
        NessaExpr::CompiledVariableDefinition(_, _, _, _, inner) => spec_return_ok(
            ctx,
            *inner,
            None,
        ),
        NessaExpr::CompiledVariableAssignment(_, _, _, _, inner) => spec_return_ok(
            ctx,
            *inner,
            None,
        ),
        NessaExpr::Return(_, inner) => match ret {
            None => false,
            Some(expected) => spec_return_ok(ctx, *inner, ret) && (
            match crate::inference::spec_infer(ctx, *inner) {
                Some(t) => crate::bindable::spec_bindable(
                    t,
                    expected,
                    crate::context::spec_impls(ctx),
                ),
                None => false,
            }),
        },
        NessaExpr::FunctionDefinition(_, _, _, t, _, retT, b) => (ret is None) && ((t@.len() == 0
            ==> spec_return_lines(ctx, b@, Some(retT@))) && spec_ensured_return_ok(e)),
        NessaExpr::PrefixOperationDefinition(_, _, _, t, _, _, retT, b) => (ret is None) && ((
        t@.len() == 0 ==> spec_return_lines(ctx, b@, Some(retT@))) && spec_ensured_return_ok(e)),
        NessaExpr::PostfixOperationDefinition(_, _, _, t, _, _, retT, b) => (ret is None) && ((
        t@.len() == 0 ==> spec_return_lines(ctx, b@, Some(retT@))) && spec_ensured_return_ok(e)),
        NessaExpr::BinaryOperationDefinition(_, _, _, t, _, _, retT, b) => (ret is None) && ((
        t@.len() == 0 ==> spec_return_lines(ctx, b@, Some(retT@))) && spec_ensured_return_ok(e)),
        NessaExpr::NaryOperationDefinition(_, _, _, t, _, _, retT, b) => (ret is None) && ((
        t@.len() == 0 ==> spec_return_lines(ctx, b@, Some(retT@))) && spec_ensured_return_ok(e)),
        NessaExpr::CompiledLambda(_, _, _, _, retT, b) => spec_return_lines(ctx, b@, Some(retT@))
            && spec_repeated_args_ok(e) && spec_lambda_ok(e) && spec_ensured_return_ok(e),
        NessaExpr::DoBlock(_, b, retT) => spec_return_lines(ctx, b@, Some(retT@))
            && spec_ensured_return_ok(e),
        NessaExpr::While(_, c, b) => spec_return_ok(ctx, *c, ret) && spec_return_lines(
            ctx,
            b@,
            ret,
        ),
        NessaExpr::CompiledFor(_, _, _, _, c, b) => spec_return_ok(ctx, *c, ret)
            && spec_return_lines(ctx, b@, ret),
        NessaExpr::If(_, c, ib, ei, eb) => spec_return_ok(ctx, *c, ret) && spec_return_lines(
            ctx,
            ib@,
            ret,
        ) && (forall|k: int|
            0 <= k < ei@.len() ==> spec_return_ok(ctx, (#[trigger] ei@[k]).0, ret)
                && spec_return_lines(ctx, ei@[k].1@, ret)) && (match eb {
            Some(lines) => spec_return_lines(ctx, lines@, ret),
            None => true,
        }),
        _ => true,
    }
}

pub open spec fn spec_return_lines(ctx: NessaContext, lines: Seq<NessaExpr>, ret: Option<
    TypeS,
>) -> bool
    decreases lines,
{
    forall|k: int| 0 <= k < lines.len() ==> spec_return_ok(ctx, #[trigger] lines[k], ret)
}

/// No call in the expression is ambiguous, and everything inference is
/// asked about has a type.
pub open spec fn spec_ambiguity_ok(ctx: NessaContext, e: NessaExpr) -> bool
    decreases e,
{
    match e {
        NessaExpr::DoBlock(_, b, _) => spec_ambiguity_lines(ctx, b@),
        NessaExpr::CompiledLambda(_, _, _, _, _, b) => spec_ambiguity_lines(ctx, b@),
        NessaExpr::Tuple(_, b) => spec_ambiguity_lines(ctx, b@),
        NessaExpr::FunctionCall(_, id, _, args) => spec_ambiguity_lines(ctx, args@) && (
        match crate::inference::spec_infer_seq(ctx, args@) {
            Some(ats) => crate::inference::spec_accept_count(
                ctx.functions@[id as int].overloads@,
                TypeS::And(ats),
                crate::context::spec_impls(ctx),
            ) < 2,
            None => false,
        }),
        NessaExpr::UnaryOperation(_, id, _, a) => spec_ambiguity_ok(ctx, *a) && (
        match crate::inference::spec_infer(ctx, *a) {
            Some(t) => crate::inference::spec_accept_count(
                ctx.unary_ops@[id as int].operations@,
                t,
                crate::context::spec_impls(ctx),
            ) < 2,
            None => false,
        }),
        NessaExpr::BinaryOperation(_, id, _, a, b) => spec_ambiguity_ok(ctx, *a)
            && spec_ambiguity_ok(ctx, *b) && (match (
            crate::inference::spec_infer(ctx, *a),
            crate::inference::spec_infer(ctx, *b),
        ) {
            (Some(t1), Some(t2)) => crate::inference::spec_accept_count(
                ctx.binary_ops@[id as int].operations@,
                TypeS::And(seq![t1, t2]),
                crate::context::spec_impls(ctx),
            ) < 2,
            _ => false,
        }),
        NessaExpr::NaryOperation(_, id, _, first, args) => spec_ambiguity_ok(ctx, *first)
            && spec_ambiguity_lines(ctx, args@) && (match (
            crate::inference::spec_infer(ctx, *first),
            crate::inference::spec_infer_seq(ctx, args@),
        ) {
            (Some(t), Some(ats)) => crate::inference::spec_accept_count(
                ctx.nary_ops@[id as int].operations@,
                TypeS::And(seq![t] + ats),
                crate::context::spec_impls(ctx),
            ) < 2,
            _ => false,
        }),
        NessaExpr::If(_, c, ib, ei, eb) => spec_ambiguity_ok(ctx, *c) && spec_ambiguity_lines(
            ctx,
            ib@,
        ) && (forall|k: int|
            0 <= k < ei@.len() ==> spec_ambiguity_ok(ctx, (#[trigger] ei@[k]).0)
                && spec_ambiguity_lines(ctx, ei@[k].1@)) && (match eb {
            Some(lines) => spec_ambiguity_lines(ctx, lines@),
            None => true,
        }),
        NessaExpr::While(_, c, b) => spec_ambiguity_ok(ctx, *c) && spec_ambiguity_lines(ctx, b@),
        NessaExpr::AttributeAssignment(_, a, b, _) => spec_ambiguity_ok(ctx, *a)
            && spec_ambiguity_ok(ctx, *b),
        NessaExpr::CompiledVariableDefinition(_, _, _, _, inner) => spec_ambiguity_ok(ctx, *inner)
            && (crate::inference::spec_infer(ctx, *inner) is Some),
        NessaExpr::CompiledVariableAssignment(_, _, _, _, inner) => spec_ambiguity_ok(ctx, *inner)
            && (crate::inference::spec_infer(ctx, *inner) is Some),
        NessaExpr::AttributeAccess(_, inner, _) => spec_ambiguity_ok(ctx, *inner) && (
        crate::inference::spec_infer(ctx, *inner) is Some),
        NessaExpr::Return(_, inner) => spec_ambiguity_ok(ctx, *inner) && (
        crate::inference::spec_infer(ctx, *inner) is Some),
        NessaExpr::PrefixOperationDefinition(_, _, _, t, _, _, _, b) => t@.len() == 0
            ==> spec_ambiguity_lines(ctx, b@),
        NessaExpr::PostfixOperationDefinition(_, _, _, t, _, _, _, b) => t@.len() == 0
            ==> spec_ambiguity_lines(ctx, b@),
        NessaExpr::BinaryOperationDefinition(_, _, _, t, _, _, _, b) => t@.len() == 0
            ==> spec_ambiguity_lines(ctx, b@),
        NessaExpr::NaryOperationDefinition(_, _, _, t, _, _, _, b) => t@.len() == 0
            ==> spec_ambiguity_lines(ctx, b@),
        NessaExpr::FunctionDefinition(_, _, _, t, _, _, b) => t@.len() == 0
            ==> spec_ambiguity_lines(ctx, b@),
        NessaExpr::CompiledFor(_, _, _, _, _, b) => spec_ambiguity_lines(ctx, b@),
        _ => true,
    }
}

pub open spec fn spec_ambiguity_lines(ctx: NessaContext, lines: Seq<NessaExpr>) -> bool
    decreases lines,
{
    forall|k: int| 0 <= k < lines.len() ==> spec_ambiguity_ok(ctx, #[trigger] lines[k])
}

impl NessaContext {
    /// Check `return` statements: legality, and that the returned
    /// value binds to the enclosing return type; bodies that owe a
    /// value must guarantee one on every path.
    #[verifier::loop_isolation(false)]
    #[verifier::rlimit(20)]
    pub fn return_check(&self, expr: &NessaExpr, ret_type: &Option<Type>) -> (r: Result<
        (),
        NessaError,
    >)
        requires
            spec_check_wf(*self, *expr),
            ret_type is Some ==> spec_body_stmt(*expr),
        ensures
            (r is Ok) == spec_return_ok(
                *self,
                *expr,
                match ret_type {
                    Some(t) => Some(t@),
                    None => None,
                },
            ),
        decreases *expr,
    {
        match expr {
            NessaExpr::CompiledVariableDefinition(_, _, _, _, e) => self.return_check(e, &None),
            NessaExpr::CompiledVariableAssignment(_, _, _, _, e) => self.return_check(e, &None),
            NessaExpr::Return(l, e) => {
                match ret_type {
                    None => Err(
                        NessaError::compiler_error(
                            String::from_str(
                                "Return statements are only allowed inside function and operation definition bodies",
                            ),
                            l,
                            Vec::new(),
                        ),
                    ),
                    Some(expected) => {
                        let rr = self.return_check(e, ret_type);
                        if rr.is_err() {
                            return rr;
                        }
                        proof {
                            assert(spec_check_wf(*self, **e));
                        }
                        let t = match self.infer_type(e) {
                            Ok(t) => t,
                            Err(err) => {
                                return Err(err);
                            },
                        };
                        if t.bindable_to(expected, self) {
                            Ok(())
                        } else {
                            Err(
                                NessaError::compiler_error(
                                    String::from_str(
                                        "Value is not bindable to the expected return type",
                                    ),
                                    l,
                                    Vec::new(),
                                ),
                            )
                        }
                    },
                }
            },
            NessaExpr::FunctionDefinition(_, _, _, t, _, retT, body) => {
                if t.len() == 0 {
                    let expected = Some(retT.clone_type());
                    proof {
                        lemma_body_wf_split(*self, body@);
                    }
                    let rb = self.return_lines(body, &expected);
                    if rb.is_err() {
                        return rb;
                    }
                }
                NessaContext::ensured_return_check(expr)
            },
            NessaExpr::PrefixOperationDefinition(_, _, _, t, _, _, retT, body) => {
                if t.len() == 0 {
                    let expected = Some(retT.clone_type());
                    proof {
                        lemma_body_wf_split(*self, body@);
                    }
                    let rb = self.return_lines(body, &expected);
                    if rb.is_err() {
                        return rb;
                    }
                }
                NessaContext::ensured_return_check(expr)
            },
            NessaExpr::PostfixOperationDefinition(_, _, _, t, _, _, retT, body) => {
                if t.len() == 0 {
                    let expected = Some(retT.clone_type());
                    proof {
                        lemma_body_wf_split(*self, body@);
                    }
                    let rb = self.return_lines(body, &expected);
                    if rb.is_err() {
                        return rb;
                    }
                }
                NessaContext::ensured_return_check(expr)
            },
            NessaExpr::BinaryOperationDefinition(_, _, _, t, _, _, retT, body) => {
                if t.len() == 0 {
                    let expected = Some(retT.clone_type());
                    proof {
                        lemma_body_wf_split(*self, body@);
                    }
                    let rb = self.return_lines(body, &expected);
                    if rb.is_err() {
                        return rb;
                    }
                }
                NessaContext::ensured_return_check(expr)
            },
            NessaExpr::NaryOperationDefinition(_, _, _, t, _, _, retT, body) => {
                if t.len() == 0 {
                    let expected = Some(retT.clone_type());
                    proof {
                        lemma_body_wf_split(*self, body@);
                    }
                    let rb = self.return_lines(body, &expected);
                    if rb.is_err() {
                        return rb;
                    }
                }
                NessaContext::ensured_return_check(expr)
            },
            NessaExpr::CompiledLambda(_, _, _, _, retT, body) => {
                let expected = Some(retT.clone_type());
                proof {
                    lemma_body_wf_split(*self, body@);
                }
                let rb = self.return_lines(body, &expected);
                if rb.is_err() {
                    return rb;
                }
                let ra = self.repeated_arguments_check(expr);
                if ra.is_err() {
                    return ra;
                }
                let rl = self.lambda_check(expr);
                if rl.is_err() {
                    return rl;
                }
                NessaContext::ensured_return_check(expr)
            },
            NessaExpr::DoBlock(_, body, retT) => {
                let expected = Some(retT.clone_type());
                proof {
                    lemma_body_wf_split(*self, body@);
                }
                let rb = self.return_lines(body, &expected);
                if rb.is_err() {
                    return rb;
                }
                NessaContext::ensured_return_check(expr)
            },
            NessaExpr::While(_, c, body) => {
                proof {
                    if ret_type is Some {
                        assert(spec_body_stmts(body@));
                    }
                }
                let rc = self.return_check(c, ret_type);
                if rc.is_err() {
                    return rc;
                }
                self.return_lines(body, ret_type)
            },
            NessaExpr::CompiledFor(_, _, _, _, c, body) => {
                proof {
                    if ret_type is Some {
                        assert(spec_body_stmts(body@));
                    }
                }
                let rc = self.return_check(c, ret_type);
                if rc.is_err() {
                    return rc;
                }
                self.return_lines(body, ret_type)
            },
            NessaExpr::If(_, c, ib, ei, eb) => {
                proof {
                    if ret_type is Some {
                        assert(spec_body_stmts(ib@));
                        assert(match eb {
                            Some(lines) => spec_body_stmts(lines@),
                            None => true,
                        });
                    }
                }
                let rc = self.return_check(c, ret_type);
                if rc.is_err() {
                    return rc;
                }
                let rb = self.return_lines(ib, ret_type);
                if rb.is_err() {
                    return rb;
                }
                let ghost retv: Option<TypeS> = match ret_type {
                    Some(t) => Some(t@),
                    None => None,
                };
                let mut i: usize = 0;
                while i < ei.len()
                    invariant
                        i <= ei@.len(),
                        retv == (match ret_type {
                            Some(t) => Some(t@),
                            None => None,
                        }),
                        forall|k: int|
                            0 <= k < i ==> spec_return_ok(*self, (#[trigger] ei@[k]).0, retv)
                                && spec_return_lines(*self, ei@[k].1@, retv),
                    decreases ei@.len() - i,
                {
                    proof {
                        if ret_type is Some {
                            assert(spec_body_stmt((ei@[i as int]).0) && spec_body_stmts(
                                ei@[i as int].1@,
                            ));
                        }
                    }
                    let rh = self.return_check(&ei[i].0, ret_type);
                    if rh.is_err() {
                        return rh;
                    }
                    let rl = self.return_lines(&ei[i].1, ret_type);
                    if rl.is_err() {
                        return rl;
                    }
                    i = i + 1;
                }
                match eb {
                    Some(eb_lines) => self.return_lines(eb_lines, ret_type),
                    None => Ok(()),
                }
            },
            _ => Ok(()),
        }
    }

    /// Check the lines of a body against an expected return type.
    #[verifier::loop_isolation(false)]
    #[verifier::rlimit(20)]
    fn return_lines(&self, lines: &Vec<NessaExpr>, ret_type: &Option<Type>) -> (r: Result<
        (),
        NessaError,
    >)
        requires
            spec_check_wf_lines(*self, lines@),
            ret_type is Some ==> forall|k: int|
                0 <= k < lines@.len() ==> spec_body_stmt(#[trigger] lines@[k]),
        ensures
            (r is Ok) == spec_return_lines(
                *self,
                lines@,
                match ret_type {
                    Some(t) => Some(t@),
                    None => None,
                },
            ),
        decreases lines,
    {
        let mut j: usize = 0;
        let ghost retv: Option<TypeS> = match ret_type {
            Some(t) => Some(t@),
            None => None,
        };
        while j < lines.len()
            invariant
                j <= lines@.len(),
                retv == (match ret_type {
                    Some(t) => Some(t@),
                    None => None,
                }),
                forall|k: int| 0 <= k < j ==> spec_return_ok(*self, #[trigger] lines@[k], retv),
            decreases lines@.len() - j,
        {
            let rl = self.return_check(&lines[j], ret_type);
            if rl.is_err() {
                return rl;
            }
            j = j + 1;
        }
        Ok(())
    }

}

/// One hint line for each candidate overload of an ambiguous
/// application.
#[verifier::loop_isolation(false)]
fn candidate_hints(candidates: &Vec<(Type, Type)>) -> (r: Vec<String>)
    ensures
        r@.len() == candidates@.len(),
{
    let mut out: Vec<String> = Vec::new();
    let mut k: usize = 0;
    while k < candidates.len()
        invariant
            k <= candidates@.len(),
            out@.len() == k,
        decreases candidates@.len() - k,
    {
        out.push(String::from_str("Possible overload accepts these argument types"));
        k = k + 1;
    }
    out
}

impl NessaContext {
    /// A function call is unambiguous: at most one overload accepts
    /// the inferred argument types.
    #[verifier::loop_isolation(false)]
    fn function_call_ambiguity(
        &self,
        l: &Location,
        id: usize,
        args: &Vec<NessaExpr>,
    ) -> (r: Result<(), NessaError>)
        requires
            id < self.functions@.len(),
            forall|k: int|
                0 <= k < args@.len() ==> crate::inference::spec_infer_wf(
                    *self,
                    #[trigger] args@[k],
                ),
        ensures
            (r is Ok) == (match crate::inference::spec_infer_seq(*self, args@) {
                Some(ats) => crate::inference::spec_accept_count(
                    self.functions@[id as int].overloads@,
                    TypeS::And(ats),
                    crate::context::spec_impls(*self),
                ) < 2,
                None => false,
            }),
            r matches Err(e) ==> (crate::inference::spec_infer_seq(*self, args@) matches Some(
                ats,
            ) ==> e.hints@.len() == crate::inference::spec_accept_count(
                self.functions@[id as int].overloads@,
                TypeS::And(ats),
                crate::context::spec_impls(*self),
            )),
    {
        let arg_types = match self.infer_types(args) {
            Ok(ts) => ts,
            Err(err) => {
                return Err(err);
            },
        };
        match self.is_function_overload_ambiguous(id, arg_types) {
            Some(candidates) => Err(
                NessaError::compiler_error(
                    String::from_str("Function call is ambiguous"),
                    l,
                    candidate_hints(&candidates),
                ),
            ),
            None => Ok(()),
        }
    }

    /// A unary application is unambiguous.
    fn unary_ambiguity(&self, l: &Location, id: usize, a: &NessaExpr) -> (r: Result<
        (),
        NessaError,
    >)
        requires
            id < self.unary_ops@.len(),
            crate::inference::spec_infer_wf(*self, *a),
        ensures
            (r is Ok) == (match crate::inference::spec_infer(*self, *a) {
                Some(t) => crate::inference::spec_accept_count(
                    self.unary_ops@[id as int].operations@,
                    t,
                    crate::context::spec_impls(*self),
                ) < 2,
                None => false,
            }),
            r matches Err(e) ==> (crate::inference::spec_infer(*self, *a) matches Some(t)
                ==> e.hints@.len() == crate::inference::spec_accept_count(
                self.unary_ops@[id as int].operations@,
                t,
                crate::context::spec_impls(*self),
            )),
    {
        let t = match self.infer_type(a) {
            Ok(t) => t,
            Err(err) => {
                return Err(err);
            },
        };
        match self.is_unary_op_ambiguous(id, t) {
            Some(candidates) => Err(
                NessaError::compiler_error(
                    String::from_str("Unary operation is ambiguous"),
                    l,
                    candidate_hints(&candidates),
                ),
            ),
            None => Ok(()),
        }
    }

    /// A binary application is unambiguous.
    fn binary_ambiguity(
        &self,
        l: &Location,
        id: usize,
        a: &NessaExpr,
        b: &NessaExpr,
    ) -> (r: Result<(), NessaError>)
        requires
            id < self.binary_ops@.len(),
            crate::inference::spec_infer_wf(*self, *a),
            crate::inference::spec_infer_wf(*self, *b),
        ensures
            (r is Ok) == (match (
                crate::inference::spec_infer(*self, *a),
                crate::inference::spec_infer(*self, *b),
            ) {
                (Some(t1), Some(t2)) => crate::inference::spec_accept_count(
                    self.binary_ops@[id as int].operations@,
                    TypeS::And(seq![t1, t2]),
                    crate::context::spec_impls(*self),
                ) < 2,
                _ => false,
            }),
            r matches Err(e) ==> (crate::inference::spec_infer(*self, *a) matches Some(t1)
                ==> (crate::inference::spec_infer(*self, *b) matches Some(t2) ==> e.hints@.len()
                == crate::inference::spec_accept_count(
                self.binary_ops@[id as int].operations@,
                TypeS::And(seq![t1, t2]),
                crate::context::spec_impls(*self),
            ))),
    {
        let t1 = match self.infer_type(a) {
            Ok(t) => t,
            Err(err) => {
                return Err(err);
            },
        };
        let t2 = match self.infer_type(b) {
            Ok(t) => t,
            Err(err) => {
                return Err(err);
            },
        };
        match self.is_binary_op_ambiguous(id, t1, t2) {
            Some(candidates) => Err(
                NessaError::compiler_error(
                    String::from_str("Binary operation is ambiguous"),
                    l,
                    candidate_hints(&candidates),
                ),
            ),
            None => Ok(()),
        }
    }

    /// An n-ary application is unambiguous.
    #[verifier::loop_isolation(false)]
    fn nary_ambiguity(
        &self,
        l: &Location,
        id: usize,
        first: &NessaExpr,
        args: &Vec<NessaExpr>,
    ) -> (r: Result<(), NessaError>)
        requires
            id < self.nary_ops@.len(),
            crate::inference::spec_infer_wf(*self, *first),
            forall|k: int|
                0 <= k < args@.len() ==> crate::inference::spec_infer_wf(
                    *self,
                    #[trigger] args@[k],
                ),
        ensures
            (r is Ok) == (match (
                crate::inference::spec_infer(*self, *first),
                crate::inference::spec_infer_seq(*self, args@),
            ) {
                (Some(t), Some(ats)) => crate::inference::spec_accept_count(
                    self.nary_ops@[id as int].operations@,
                    TypeS::And(seq![t] + ats),
                    crate::context::spec_impls(*self),
                ) < 2,
                _ => false,
            }),
            r matches Err(e) ==> (crate::inference::spec_infer(*self, *first) matches Some(t)
                ==> (crate::inference::spec_infer_seq(*self, args@) matches Some(ats)
                ==> e.hints@.len() == crate::inference::spec_accept_count(
                self.nary_ops@[id as int].operations@,
                TypeS::And(seq![t] + ats),
                crate::context::spec_impls(*self),
            ))),
    {
        let t = match self.infer_type(first) {
            Ok(t) => t,
            Err(err) => {
                return Err(err);
            },
        };
        let arg_types = match self.infer_types(args) {
            Ok(ts) => ts,
            Err(err) => {
                return Err(err);
            },
        };
        match self.is_nary_op_ambiguous(id, t, arg_types) {
            Some(candidates) => Err(
                NessaError::compiler_error(
                    String::from_str("N-ary operation is ambiguous"),
                    l,
                    candidate_hints(&candidates),
                ),
            ),
            None => Ok(()),
        }
    }

    /// No call site may be ambiguous: at every application at most one
    /// overload may accept the actual argument types.
    #[verifier::loop_isolation(false)]
    #[verifier::rlimit(20)]
    #[verifier::spinoff_prover]
    pub fn ambiguity_check(&self, expr: &NessaExpr) -> (r: Result<(), NessaError>)
        requires
            spec_check_wf(*self, *expr),
        ensures
            (r is Ok) == spec_ambiguity_ok(*self, *expr),
        decreases *expr,
    {
        match expr {
            NessaExpr::DoBlock(_, b, _) => {
                proof {
                    lemma_body_wf_split(*self, b@);
                }
                self.ambiguity_lines(b)
            },
            NessaExpr::CompiledLambda(_, _, _, _, _, b) => {
                proof {
                    lemma_body_wf_split(*self, b@);
                }
                self.ambiguity_lines(b)
            },
            NessaExpr::Tuple(_, b) => self.ambiguity_lines(b),
            NessaExpr::FunctionCall(l, id, _, args) => {
                let ra = self.ambiguity_lines(args);
                if ra.is_err() {
                    return ra;
                }
                proof {
                    crate::inference::lemma_infer_wf_seq_index(*self, args@);
                }
                self.function_call_ambiguity(l, *id, args)
            },
            NessaExpr::UnaryOperation(l, id, _, a) => {
                let ra = self.ambiguity_check(a);
                if ra.is_err() {
                    return ra;
                }
                self.unary_ambiguity(l, *id, a)
            },
            NessaExpr::BinaryOperation(l, id, _, a, b) => {
                let ra = self.ambiguity_check(a);
                if ra.is_err() {
                    return ra;
                }
                let rb = self.ambiguity_check(b);
                if rb.is_err() {
                    return rb;
                }
                self.binary_ambiguity(l, *id, a, b)
            },
            NessaExpr::NaryOperation(l, id, _, first, args) => {
                let rf = self.ambiguity_check(first);
                if rf.is_err() {
                    return rf;
                }
                let ra = self.ambiguity_lines(args);
                if ra.is_err() {
                    return ra;
                }
                proof {
                    crate::inference::lemma_infer_wf_seq_index(*self, args@);
                }
                self.nary_ambiguity(l, *id, first, args)
            },
            NessaExpr::If(_, c, ib, ei, eb) => {
                let rc = self.ambiguity_check(c);
                if rc.is_err() {
                    return rc;
                }
                let rb = self.ambiguity_lines(ib);
                if rb.is_err() {
                    return rb;
                }
                let mut i: usize = 0;
                while i < ei.len()
                    invariant
                        i <= ei@.len(),
                        forall|k: int|
                            0 <= k < i ==> spec_ambiguity_ok(*self, (#[trigger] ei@[k]).0)
                                && spec_ambiguity_lines(*self, ei@[k].1@),
                    decreases ei@.len() - i,
                {
                    let rh = self.ambiguity_check(&ei[i].0);
                    if rh.is_err() {
                        return rh;
                    }
                    let rl = self.ambiguity_lines(&ei[i].1);
                    if rl.is_err() {
                        return rl;
                    }
                    i = i + 1;
                }
                match eb {
                    Some(eb_lines) => self.ambiguity_lines(eb_lines),
                    None => Ok(()),
                }
            },
            NessaExpr::While(_, c, b) => {
                let rc = self.ambiguity_check(c);
                if rc.is_err() {
                    return rc;
                }
                self.ambiguity_lines(b)
            },
            NessaExpr::AttributeAssignment(_, a, b, _) => {
                let ra = self.ambiguity_check(a);
                if ra.is_err() {
                    return ra;
                }
                self.ambiguity_check(b)
            },
            NessaExpr::CompiledVariableDefinition(_, _, _, _, e) => {
                let ra = self.ambiguity_check(e);
                if ra.is_err() {
                    return ra;
                }
                proof {
                    assert(spec_check_wf(*self, **e));
                }
                match self.infer_type(e) {
                    Ok(_) => Ok(()),
                    Err(err) => Err(err),
                }
            },
            NessaExpr::CompiledVariableAssignment(_, _, _, _, e) => {
                let ra = self.ambiguity_check(e);
                if ra.is_err() {
                    return ra;
                }
                proof {
                    assert(spec_check_wf(*self, **e));
                }
                match self.infer_type(e) {
                    Ok(_) => Ok(()),
                    Err(err) => Err(err),
                }
            },
            NessaExpr::AttributeAccess(_, e, _) => {
                let ra = self.ambiguity_check(e);
                if ra.is_err() {
                    return ra;
                }
                proof {
                    assert(spec_check_wf(*self, **e));
                }
                match self.infer_type(e) {
                    Ok(_) => Ok(()),
                    Err(err) => Err(err),
                }
            },
            NessaExpr::Return(_, e) => {
                let ra = self.ambiguity_check(e);
                if ra.is_err() {
                    return ra;
                }
                proof {
                    assert(spec_check_wf(*self, **e));
                }
                match self.infer_type(e) {
                    Ok(_) => Ok(()),
                    Err(err) => Err(err),
                }
            },
            NessaExpr::PrefixOperationDefinition(_, _, _, t, _, _, _, b) => {
                if t.len() == 0 {
                    proof {
                        lemma_body_wf_split(*self, b@);
                    }
                    self.ambiguity_lines(b)
                } else {
                    Ok(())
                }
            },
            NessaExpr::PostfixOperationDefinition(_, _, _, t, _, _, _, b) => {
                if t.len() == 0 {
                    proof {
                        lemma_body_wf_split(*self, b@);
                    }
                    self.ambiguity_lines(b)
                } else {
                    Ok(())
                }
            },
            NessaExpr::BinaryOperationDefinition(_, _, _, t, _, _, _, b) => {
                if t.len() == 0 {
                    proof {
                        lemma_body_wf_split(*self, b@);
                    }
                    self.ambiguity_lines(b)
                } else {
                    Ok(())
                }
            },
            NessaExpr::NaryOperationDefinition(_, _, _, t, _, _, _, b) => {
                if t.len() == 0 {
                    proof {
                        lemma_body_wf_split(*self, b@);
                    }
                    self.ambiguity_lines(b)
                } else {
                    Ok(())
                }
            },
            NessaExpr::FunctionDefinition(_, _, _, t, _, _, b) => {
                if t.len() == 0 {
                    proof {
                        lemma_body_wf_split(*self, b@);
                    }
                    self.ambiguity_lines(b)
                } else {
                    Ok(())
                }
            },
            NessaExpr::CompiledFor(_, _, _, _, _, b) => self.ambiguity_lines(b),
            _ => Ok(()),
        }
    }

    /// Check each line of a body for ambiguity.
    #[verifier::loop_isolation(false)]
    fn ambiguity_lines(&self, lines: &Vec<NessaExpr>) -> (r: Result<(), NessaError>)
        requires
            spec_check_wf_lines(*self, lines@),
        ensures
            (r is Ok) == spec_ambiguity_lines(*self, lines@),
        decreases lines,
    {
        let mut j: usize = 0;
        while j < lines.len()
            invariant
                j <= lines@.len(),
                forall|k: int| 0 <= k < j ==> spec_ambiguity_ok(*self, #[trigger] lines@[k]),
            decreases lines@.len() - j,
        {
            let rl = self.ambiguity_check(&lines[j]);
            if rl.is_err() {
                return rl;
            }
            j = j + 1;
        }
        Ok(())
    }
}

/// The declared type of the attribute at `idx` of the container's
/// underlying aggregate, template arguments substituted for an
/// instantiated container; the reference qualifier is not propagated.
pub open spec fn spec_attr_decl(ctx: NessaContext, at: TypeS, idx: int) -> TypeS {
    match crate::types::spec_deref(at) {
        TypeS::Basic(id) => ctx.type_templates@[id].attributes@[idx].1@,
        TypeS::Template(id, ts) => crate::types::spec_sub_templates(
            ctx.type_templates@[id].attributes@[idx].1@,
            crate::inference::spec_enum_map(ts),
        ),
        _ => TypeS::Empty,
    }
}

/// The union of the template indices the types of a named-parameter
/// list mention.
pub open spec fn spec_named_deps(s: Seq<(String, Type)>) -> Set<int>
    decreases s,
{
    if s.len() == 0 {
        Set::empty()
    } else {
        crate::types::spec_deps(s[0].1@).union(spec_named_deps(s.skip(1)))
    }
}

pub proof fn lemma_named_deps_iff(s: Seq<(String, Type)>, x: int)
    ensures
        spec_named_deps(s).contains(x) <==> exists|i: int|
            0 <= i < s.len() && crate::types::spec_deps((#[trigger] s[i]).1@).contains(x),
    decreases s,
{
    if s.len() > 0 {
        lemma_named_deps_iff(s.skip(1), x);
        if spec_named_deps(s.skip(1)).contains(x) {
            let i = choose|i: int|
                0 <= i < s.skip(1).len() && crate::types::spec_deps(
                    (#[trigger] s.skip(1)[i]).1@,
                ).contains(x);
            assert(s[i + 1] == s.skip(1)[i]);
        }
        if exists|i: int| 0 <= i < s.len() && crate::types::spec_deps((#[trigger] s[i]).1@).contains(
            x,
        ) {
            let i = choose|i: int|
                0 <= i < s.len() && crate::types::spec_deps((#[trigger] s[i]).1@).contains(x);
            if i > 0 {
                assert(s.skip(1)[i - 1] == s[i]);
            }
        }
    }
}

/// Every index below `n` is mentioned by the dependency set.
pub open spec fn spec_all_used(deps: Set<int>, n: int) -> bool {
    forall|i: int| 0 <= i < n ==> #[trigger] deps.contains(i)
}

/// Every index in `[off, off + n)` is mentioned by the dependency set.
pub open spec fn spec_range_used(deps: Set<int>, off: int, n: int) -> bool {
    forall|m: int| off <= m < off + n ==> #[trigger] deps.contains(m)
}

/// Resolution of a call with explicit template arguments succeeds
/// with an overload whose declared template count equals the number of
/// explicit arguments; `t2` is the tuple of actual argument types with
/// the call-site substitution already applied.
pub open spec fn spec_call_ok(
    ops: Seq<crate::operations::Operation>,
    t2: TypeS,
    tm: Seq<Type>,
    impls: Seq<crate::interfaces::ImplS>,
) -> bool {
    match crate::inference::spec_resolve(ops, t2, Some(views(tm)), impls) {
        Some((i, _)) => ops[i].templates == tm.len(),
        None => false,
    }
}

/// The call-site substitution of explicit template arguments.
pub open spec fn spec_tsc(tm: Seq<Type>) -> Map<int, TypeS> {
    crate::inference::spec_enum_map(views(tm))
}

/// The typing pass accepts the expression: annotated types are well
/// formed, bound values bind to their declared types, attribute
/// assignment goes through a mutable reference, applications resolve
/// with the declared number of template arguments, conditions are
/// boolean, and generic declarations use every template parameter.
pub open spec fn spec_type_ok(ctx: NessaContext, e: NessaExpr) -> bool
    decreases e,
{
    match e {
        NessaExpr::DoBlock(_, b, _) => spec_type_lines(ctx, b@),
        NessaExpr::Tuple(_, b) => spec_type_lines(ctx, b@),
        NessaExpr::CompiledVariableDefinition(_, _, _, t, inner) => spec_type_wf(ctx, t@)
            && spec_type_ok(ctx, *inner) && (match crate::inference::spec_infer(ctx, *inner) {
            Some(it) => crate::bindable::spec_bindable(it, t@, crate::context::spec_impls(ctx)),
            None => false,
        }),
        NessaExpr::CompiledVariableAssignment(_, _, _, t, inner) => spec_type_wf(ctx, t@)
            && spec_type_ok(ctx, *inner) && (match crate::inference::spec_infer(ctx, *inner) {
            Some(it) => crate::bindable::spec_bindable(it, t@, crate::context::spec_impls(ctx)),
            None => false,
        }),
        NessaExpr::AttributeAssignment(_, a, b, idx) => spec_type_ok(ctx, *a) && spec_type_ok(
            ctx,
            *b,
        ) && (match crate::inference::spec_infer(ctx, *a) {
            Some(at) => (at is MutRef) && (match crate::inference::spec_infer(ctx, *b) {
                Some(bt) => crate::bindable::spec_bindable(
                    bt,
                    spec_attr_decl(ctx, at, idx as int),
                    crate::context::spec_impls(ctx),
                ),
                None => false,
            }),
            None => false,
        }),
        NessaExpr::FunctionCall(_, id, tm, args) => spec_type_wf_seq(ctx, views(tm@))
            && spec_type_lines(ctx, args@) && (match crate::inference::spec_infer_seq(ctx, args@) {
            Some(ats) => spec_call_ok(
                ctx.functions@[id as int].overloads@,
                TypeS::And(crate::types::spec_sub_templates_seq(ats, spec_tsc(tm@))),
                tm@,
                crate::context::spec_impls(ctx),
            ),
            None => false,
        }),
        NessaExpr::UnaryOperation(_, id, tm, a) => spec_type_wf_seq(ctx, views(tm@))
            && spec_type_ok(ctx, *a) && (match crate::inference::spec_infer(ctx, *a) {
            Some(at) => spec_call_ok(
                ctx.unary_ops@[id as int].operations@,
                crate::types::spec_sub_templates(at, spec_tsc(tm@)),
                tm@,
                crate::context::spec_impls(ctx),
            ),
            None => false,
        }),
        NessaExpr::BinaryOperation(_, id, tm, a, b) => spec_type_wf_seq(ctx, views(tm@))
            && spec_type_ok(ctx, *a) && spec_type_ok(ctx, *b) && (match (
            crate::inference::spec_infer(ctx, *a),
            crate::inference::spec_infer(ctx, *b),
        ) {
            (Some(t1), Some(t2)) => spec_call_ok(
                ctx.binary_ops@[id as int].operations@,
                TypeS::And(
                    seq![
                        crate::types::spec_sub_templates(t1, spec_tsc(tm@)),
                        crate::types::spec_sub_templates(t2, spec_tsc(tm@)),
                    ],
                ),
                tm@,
                crate::context::spec_impls(ctx),
            ),
            _ => false,
        }),
        NessaExpr::NaryOperation(_, id, tm, first, args) => spec_type_wf_seq(ctx, views(tm@))
            && spec_type_ok(ctx, *first) && spec_type_lines(ctx, args@) && (match (
            crate::inference::spec_infer(ctx, *first),
            crate::inference::spec_infer_seq(ctx, args@),
        ) {
            (Some(ft), Some(ats)) => spec_call_ok(
                ctx.nary_ops@[id as int].operations@,
                TypeS::And(
                    seq![crate::types::spec_sub_templates(ft, spec_tsc(tm@))]
                        + crate::types::spec_sub_templates_seq(ats, spec_tsc(tm@)),
                ),
                tm@,
                crate::context::spec_impls(ctx),
            ),
            _ => false,
        }),
        NessaExpr::If(_, c, ib, ei, eb) => spec_type_ok(ctx, *c) && spec_bool_cond(ctx, *c)
            && spec_type_lines(ctx, ib@) && (forall|k: int|
            0 <= k < ei@.len() ==> spec_type_ok(ctx, (#[trigger] ei@[k]).0) && spec_bool_cond(
                ctx,
                ei@[k].0,
            ) && spec_type_lines(ctx, ei@[k].1@)) && (match eb {
            Some(lines) => spec_type_lines(ctx, lines@),
            None => true,
        }),
        NessaExpr::While(_, c, b) => spec_type_ok(ctx, *c) && spec_bool_cond(ctx, *c)
            && spec_type_lines(ctx, b@),
        NessaExpr::CompiledFor(_, _, _, _, c, b) => spec_type_ok(ctx, *c) && spec_type_lines(
            ctx,
            b@,
        ),
        NessaExpr::AttributeAccess(_, inner, _) => spec_type_ok(ctx, *inner) && (
        crate::inference::spec_infer(ctx, *inner) is Some),
        NessaExpr::Return(_, inner) => spec_type_ok(ctx, *inner) && (crate::inference::spec_infer(
            ctx,
            *inner,
        ) is Some),
        NessaExpr::CompiledLambda(_, _, c, args, _, b) => (forall|k: int|
            0 <= k < c@.len() ==> spec_type_ok(ctx, (#[trigger] c@[k]).1)) && (forall|k: int|
            0 <= k < args@.len() ==> spec_type_wf(ctx, type_view((#[trigger] args@[k]).1)))
            && spec_type_lines(ctx, b@),
        NessaExpr::PrefixOperationDefinition(_, _, _, t, _, a, ret, b) => spec_type_wf(
            ctx,
            type_view(a),
        ) && spec_type_wf(ctx, ret@) && (if t@.len() == 0 {
            spec_type_lines(ctx, b@)
        } else {
            spec_all_used(
                crate::types::spec_deps(type_view(a)).union(crate::types::spec_deps(ret@)),
                t@.len() as int,
            )
        }),
        NessaExpr::PostfixOperationDefinition(_, _, _, t, _, a, ret, b) => spec_type_wf(
            ctx,
            type_view(a),
        ) && spec_type_wf(ctx, ret@) && (if t@.len() == 0 {
            spec_type_lines(ctx, b@)
        } else {
            spec_all_used(
                crate::types::spec_deps(type_view(a)).union(crate::types::spec_deps(ret@)),
                t@.len() as int,
            )
        }),
        NessaExpr::BinaryOperationDefinition(_, _, _, t, a1, a2, ret, b) => spec_type_wf(
            ctx,
            type_view(a1.1),
        ) && spec_type_wf(ctx, type_view(a2.1)) && spec_type_wf(ctx, ret@) && (if t@.len() == 0 {
            spec_type_lines(ctx, b@)
        } else {
            spec_all_used(
                crate::types::spec_deps(type_view(a1.1)).union(
                    crate::types::spec_deps(type_view(a2.1)),
                ).union(crate::types::spec_deps(ret@)),
                t@.len() as int,
            )
        }),
        NessaExpr::NaryOperationDefinition(_, _, _, t, a, args, ret, b) => spec_type_wf(
            ctx,
            type_view(a.1),
        ) && spec_type_wf(ctx, ret@) && (forall|k: int|
            0 <= k < args@.len() ==> spec_type_wf(ctx, type_view((#[trigger] args@[k]).1))) && (
        if t@.len() == 0 {
            spec_type_lines(ctx, b@)
        } else {
            spec_all_used(
                crate::types::spec_deps(type_view(a.1)).union(crate::types::spec_deps(ret@)).union(
                    spec_named_deps(args@),
                ),
                t@.len() as int,
            )
        }),
        NessaExpr::FunctionDefinition(_, _, _, t, args, ret, b) => spec_type_wf(ctx, ret@) && (
        forall|k: int|
            0 <= k < args@.len() ==> spec_type_wf(ctx, type_view((#[trigger] args@[k]).1))) && (
        if t@.len() == 0 {
            spec_type_lines(ctx, b@)
        } else {
            spec_all_used(
                crate::types::spec_deps(ret@).union(spec_named_deps(args@)),
                t@.len() as int,
            )
        }),
        NessaExpr::ClassDefinition(_, _, _, t, attrs, alias, _) => (match alias {
            Some(al) => spec_type_wf(ctx, al@) && spec_all_used(
                crate::types::spec_deps(al@),
                t@.len() as int,
            ),
            None => (forall|k: int|
                0 <= k < attrs@.len() ==> spec_type_wf(ctx, type_view((#[trigger] attrs@[k]).1)))
                && spec_all_used(spec_named_deps(attrs@), t@.len() as int),
        }),
        NessaExpr::InterfaceImplementation(_, t, tp, _, ts) => spec_type_wf(ctx, tp@)
            && spec_type_wf_seq(ctx, views(ts@)) && spec_all_used(
            crate::types::spec_deps(tp@).union(crate::types::spec_deps_seq(views(ts@))),
            t@.len() as int,
        ),
        NessaExpr::InterfaceDefinition(_, _, _, t, fns, uns, bin, nary) => spec_iface_def_ok(
            ctx,
            t@,
            fns@,
            uns@,
            bin@,
            nary@,
        ),
        _ => true,
    }
}

pub open spec fn spec_type_lines(ctx: NessaContext, lines: Seq<NessaExpr>) -> bool
    decreases lines,
{
    forall|k: int| 0 <= k < lines.len() ==> spec_type_ok(ctx, #[trigger] lines[k])
}

/// The condition's inferred type strips to the boolean type.
pub open spec fn spec_bool_cond(ctx: NessaContext, c: NessaExpr) -> bool {
    match crate::inference::spec_infer(ctx, c) {
        Some(t) => crate::types::spec_deref(t) == TypeS::Basic(0),
        None => false,
    }
}

/// The cumulative dependency set of the first `upto` function members
/// of an interface.
pub open spec fn spec_fns_deps(fns: Seq<crate::interfaces::InterfaceFn>, upto: int) -> Set<int>
    decreases upto,
{
    if upto <= 0 {
        Set::empty()
    } else {
        spec_fns_deps(fns, upto - 1).union(
            crate::types::spec_deps(fns[upto - 1].ret@),
        ).union(spec_named_deps(fns[upto - 1].args@))
    }
}

pub open spec fn spec_uns_deps(uns: Seq<crate::interfaces::InterfaceUnaryOp>, upto: int) -> Set<
    int,
>
    decreases upto,
{
    if upto <= 0 {
        Set::empty()
    } else {
        spec_uns_deps(uns, upto - 1).union(
            crate::types::spec_deps(uns[upto - 1].arg_type@),
        ).union(crate::types::spec_deps(uns[upto - 1].ret@))
    }
}

pub open spec fn spec_bin_deps(bin: Seq<crate::interfaces::InterfaceBinaryOp>, upto: int) -> Set<
    int,
>
    decreases upto,
{
    if upto <= 0 {
        Set::empty()
    } else {
        spec_bin_deps(bin, upto - 1).union(
            crate::types::spec_deps(bin[upto - 1].arg_a.1@),
        ).union(crate::types::spec_deps(bin[upto - 1].arg_b.1@)).union(
            crate::types::spec_deps(bin[upto - 1].ret@),
        )
    }
}

pub open spec fn spec_nary_deps(nary: Seq<crate::interfaces::InterfaceNaryOp>, upto: int) -> Set<
    int,
>
    decreases upto,
{
    if upto <= 0 {
        Set::empty()
    } else {
        spec_nary_deps(nary, upto - 1).union(
            crate::types::spec_deps(nary[upto - 1].arg_a.1@),
        ).union(crate::types::spec_deps(nary[upto - 1].ret@)).union(
            spec_named_deps(nary[upto - 1].args@),
        )
    }
}

/// An interface definition type-checks: every member type is well
/// formed; each member's own template parameters, offset past the
/// interface's, appear in the dependencies accumulated up to and
/// including that member, the member kinds taken in order; and every
/// interface parameter appears in the full accumulated set.
pub open spec fn spec_iface_def_ok(
    ctx: NessaContext,
    t: Seq<String>,
    fns: Seq<crate::interfaces::InterfaceFn>,
    uns: Seq<crate::interfaces::InterfaceUnaryOp>,
    bin: Seq<crate::interfaces::InterfaceBinaryOp>,
    nary: Seq<crate::interfaces::InterfaceNaryOp>,
) -> bool {
    let base_f = spec_fns_deps(fns, fns.len() as int);
    let base_u = base_f.union(spec_uns_deps(uns, uns.len() as int));
    let base_b = base_u.union(spec_bin_deps(bin, bin.len() as int));
    let base_n = base_b.union(spec_nary_deps(nary, nary.len() as int));
    &&& forall|k: int|
        0 <= k < fns.len() ==> spec_type_wf(ctx, (#[trigger] fns[k]).ret@) && (forall|j: int|
            0 <= j < fns[k].args@.len() ==> spec_type_wf(
                ctx,
                type_view((#[trigger] fns[k].args@[j]).1),
            )) && (match fns[k].templates {
            Some(inner) => spec_range_used(
                spec_fns_deps(fns, k + 1),
                t.len() as int,
                inner@.len() as int,
            ),
            None => true,
        })
    &&& forall|k: int|
        0 <= k < uns.len() ==> spec_type_wf(ctx, (#[trigger] uns[k]).arg_type@) && spec_type_wf(
            ctx,
            uns[k].ret@,
        ) && spec_range_used(
            base_f.union(spec_uns_deps(uns, k + 1)),
            t.len() as int,
            uns[k].templates@.len() as int,
        )
    &&& forall|k: int|
        0 <= k < bin.len() ==> spec_type_wf(ctx, (#[trigger] bin[k]).arg_a.1@) && spec_type_wf(
            ctx,
            bin[k].arg_b.1@,
        ) && spec_type_wf(ctx, bin[k].ret@) && spec_range_used(
            base_u.union(spec_bin_deps(bin, k + 1)),
            t.len() as int,
            bin[k].templates@.len() as int,
        )
    &&& forall|k: int|
        0 <= k < nary.len() ==> spec_type_wf(ctx, (#[trigger] nary[k]).arg_a.1@) && spec_type_wf(
            ctx,
            nary[k].ret@,
        ) && (forall|j: int|
            0 <= j < nary[k].args@.len() ==> spec_type_wf(
                ctx,
                type_view((#[trigger] nary[k].args@[j]).1),
            )) && spec_range_used(
            base_b.union(spec_nary_deps(nary, k + 1)),
            t.len() as int,
            nary[k].templates@.len() as int,
        )
    &&& spec_all_used(base_n, t.len() as int)
}

/// The interface's template frame plus each member's template count
/// stays within the machine's index range.
pub open spec fn spec_iface_tm_fits(
    t: Seq<String>,
    fns: Seq<crate::interfaces::InterfaceFn>,
    uns: Seq<crate::interfaces::InterfaceUnaryOp>,
    bin: Seq<crate::interfaces::InterfaceBinaryOp>,
    nary: Seq<crate::interfaces::InterfaceNaryOp>,
) -> bool {
    &&& forall|k: int|
        0 <= k < fns.len() ==> (match (#[trigger] fns[k]).templates {
            Some(inner) => t.len() + inner@.len() <= usize::MAX,
            None => true,
        })
    &&& forall|k: int|
        0 <= k < uns.len() ==> t.len() + (#[trigger] uns[k]).templates@.len() <= usize::MAX
    &&& forall|k: int|
        0 <= k < bin.len() ==> t.len() + (#[trigger] bin[k]).templates@.len() <= usize::MAX
    &&& forall|k: int|
        0 <= k < nary.len() ==> t.len() + (#[trigger] nary[k]).templates@.len() <= usize::MAX
}

/// Accumulate the dependencies of a named-parameter list.
#[verifier::loop_isolation(false)]
fn named_deps_into(v: &Vec<(String, Type)>, deps: &mut Vec<usize>)
    ensures
        crate::types::spec_elems(final(deps)@) == crate::types::spec_elems(old(deps)@).union(
            spec_named_deps(v@),
        ),
{
    let mut j: usize = 0;
    while j < v.len()
        invariant
            j <= v@.len(),
            forall|x: int|
                crate::types::spec_elems(deps@).contains(x) <==> crate::types::spec_elems(
                    old(deps)@,
                ).contains(x) || exists|k: int|
                    0 <= k < j && crate::types::spec_deps((#[trigger] v@[k]).1@).contains(x),
        decreases v@.len() - j,
    {
        v[j].1.template_dependencies(deps);
        j = j + 1;
    }
    proof {
        assert forall|x: int|
            crate::types::spec_elems(deps@).contains(x) == crate::types::spec_elems(
            old(deps)@,
        ).union(spec_named_deps(v@)).contains(x) by {
            lemma_named_deps_iff(v@, x);
        }
        assert(crate::types::spec_elems(deps@) =~= crate::types::spec_elems(old(deps)@).union(
            spec_named_deps(v@),
        ));
    }
}

/// Whether the index is among the collected dependencies.
#[verifier::loop_isolation(false)]
fn deps_contain(deps: &Vec<usize>, i: usize) -> (r: bool)
    ensures
        r == crate::types::spec_elems(deps@).contains(i as int),
{
    let mut j: usize = 0;
    while j < deps.len()
        invariant
            j <= deps@.len(),
            forall|k: int| 0 <= k < j ==> #[trigger] deps@[k] != i,
        decreases deps@.len() - j,
    {
        if deps[j] == i {
            proof {
                assert(deps@[j as int] as int == i as int);
            }
            return true;
        }
        j = j + 1;
    }
    proof {
        assert(!crate::types::spec_elems(deps@).contains(i as int)) by {
            if crate::types::spec_elems(deps@).contains(i as int) {
                let k = choose|k: int|
                    0 <= k < deps@.len() && #[trigger] deps@[k] as int == i as int;
                assert(false);
            }
        }
    }
    false
}

/// Every template parameter index below `n` must be among the
/// collected dependencies.
#[verifier::loop_isolation(false)]
fn check_all_used(deps: &Vec<usize>, n: usize, l: &Location) -> (r: Result<(), NessaError>)
    ensures
        (r is Ok) == spec_all_used(crate::types::spec_elems(deps@), n as int),
{
    let mut i: usize = 0;
    while i < n
        invariant
            i <= n,
            forall|k: int| 0 <= k < i ==> crate::types::spec_elems(deps@).contains(k),
        decreases n - i,
    {
        if !deps_contain(deps, i) {
            return Err(
                NessaError::compiler_error(
                    String::from_str("Template parameter is not used anywhere"),
                    l,
                    Vec::new(),
                ),
            );
        }
        i = i + 1;
    }
    Ok(())
}

/// Every index in `[off, off + n)` must be among the collected
/// dependencies.
#[verifier::loop_isolation(false)]
fn check_range_used(deps: &Vec<usize>, off: usize, n: usize, l: &Location) -> (r: Result<
    (),
    NessaError,
>)
    requires
        off + n <= usize::MAX,
    ensures
        (r is Ok) == spec_range_used(crate::types::spec_elems(deps@), off as int, n as int),
{
    let mut i: usize = 0;
    while i < n
        invariant
            i <= n,
            off + n <= usize::MAX,
            forall|m: int| off <= m < off + i ==> crate::types::spec_elems(deps@).contains(m),
        decreases n - i,
    {
        if !deps_contain(deps, off + i) {
            return Err(
                NessaError::compiler_error(
                    String::from_str("Template parameter is not used anywhere"),
                    l,
                    Vec::new(),
                ),
            );
        }
        i = i + 1;
    }
    Ok(())
}

impl NessaContext {
    /// The condition's type must strip to the boolean type.
    fn check_condition(&self, l: &Location, c: &NessaExpr) -> (r: Result<(), NessaError>)
        requires
            crate::inference::spec_infer_wf(*self, *c),
        ensures
            (r is Ok) == spec_bool_cond(*self, *c),
    {
        let t = match self.infer_type(c) {
            Ok(t) => t,
            Err(err) => {
                return Err(err);
            },
        };
        let d = t.deref_type();
        match d {
            Type::Basic(id) => {
                if *id == 0 {
                    Ok(())
                } else {
                    Err(
                        NessaError::compiler_error(
                            String::from_str("Condition must be boolean"),
                            l,
                            Vec::new(),
                        ),
                    )
                }
            },
            _ => {
                proof {
                    crate::bindable::lemma_view_shape(*d);
                }
                Err(
                    NessaError::compiler_error(
                        String::from_str("Condition must be boolean"),
                        l,
                        Vec::new(),
                    ),
                )
            },
        }
    }

    /// Attribute assignment: the container must be held through a
    /// mutable reference, and the value must bind to the attribute's
    /// declared type.
    fn attr_assignment_types(
        &self,
        l: &Location,
        a: &NessaExpr,
        b: &NessaExpr,
        idx: usize,
    ) -> (r: Result<(), NessaError>)
        requires
            crate::inference::spec_infer_wf(*self, *a),
            crate::inference::spec_infer_wf(*self, *b),
            match crate::inference::spec_infer(*self, *a) {
                Some(at) => crate::inference::spec_attr_ok(*self, at, idx as int),
                None => true,
            },
        ensures
            (r is Ok) == (match crate::inference::spec_infer(*self, *a) {
                Some(at) => (at is MutRef) && (match crate::inference::spec_infer(*self, *b) {
                    Some(bt) => crate::bindable::spec_bindable(
                        bt,
                        spec_attr_decl(*self, at, idx as int),
                        crate::context::spec_impls(*self),
                    ),
                    None => false,
                }),
                None => false,
            }),
    {
        let lhs = match self.infer_type(a) {
            Ok(t) => t,
            Err(err) => {
                return Err(err);
            },
        };
        let d = lhs.deref_type();
        let attr_t = match d {
            Type::Basic(id) => self.type_templates[*id].attributes[idx].1.clone_type(),
            Type::Template(id, ts) => {
                let subs = crate::inference::subs_from_vec(ts);
                self.type_templates[*id].attributes[idx].1.sub_templates(&subs)
            },
            _ => {
                proof {
                    assert(false);
                }
                return Err(
                    NessaError::compiler_error(
                        String::from_str("Attribute access on a non-aggregate type"),
                        l,
                        Vec::new(),
                    ),
                );
            },
        };
        proof {
            crate::bindable::lemma_view_shape(lhs);
        }
        match &lhs {
            Type::Ref(_) => {
                return Err(
                    NessaError::compiler_error(
                        String::from_str(
                            "Unable to assign value to attribute because it is accessed from a constant reference",
                        ),
                        l,
                        Vec::new(),
                    ),
                );
            },
            Type::MutRef(_) => {},
            _ => {
                return Err(
                    NessaError::compiler_error(
                        String::from_str(
                            "Unable to assign value to attribute because it is not accessed from a mutable reference",
                        ),
                        l,
                        Vec::new(),
                    ),
                );
            },
        }
        let rhs = match self.infer_type(b) {
            Ok(t) => t,
            Err(err) => {
                return Err(err);
            },
        };
        if rhs.bindable_to(&attr_t, self) {
            Ok(())
        } else {
            Err(
                NessaError::compiler_error(
                    String::from_str("Unable to bind value to the attribute's type"),
                    l,
                    Vec::new(),
                ),
            )
        }
    }

    /// A function call resolves, and the overload takes as many
    /// template arguments as the call writes.
    #[verifier::loop_isolation(false)]
    fn function_call_resolves(
        &self,
        l: &Location,
        id: usize,
        tm: &Vec<Type>,
        args: &Vec<NessaExpr>,
    ) -> (r: Result<(), NessaError>)
        requires
            id < self.functions@.len(),
            forall|k: int|
                0 <= k < args@.len() ==> crate::inference::spec_infer_wf(
                    *self,
                    #[trigger] args@[k],
                ),
        ensures
            (r is Ok) == (match crate::inference::spec_infer_seq(*self, args@) {
                Some(ats) => spec_call_ok(
                    self.functions@[id as int].overloads@,
                    TypeS::And(crate::types::spec_sub_templates_seq(ats, spec_tsc(tm@))),
                    tm@,
                    crate::context::spec_impls(*self),
                ),
                None => false,
            }),
    {
        let ats = match self.infer_types(args) {
            Ok(ts) => ts,
            Err(err) => {
                return Err(err);
            },
        };
        let tsubs = crate::inference::subs_from_vec(tm);
        let ats2 = crate::types::sub_templates_vec(&ats, &tsubs);
        let tm2 = crate::types::clone_type_vec(tm);
        proof {
            crate::types::lemma_views_index(tm@);
            crate::types::lemma_views_index(tm2@);
            assert(views(tm2@) =~= views(tm@));
        }
        let res = self.get_first_function_overload(id, ats2, Some(tm2), false, l);
        match res {
            Ok((ov, _, _, _)) => {
                proof {
                    crate::inference::lemma_resolve_bounds(
                        self.functions@[id as int].overloads@,
                        TypeS::And(
                            crate::types::spec_sub_templates_seq(
                                crate::inference::spec_infer_seq(*self, args@).unwrap(),
                                spec_tsc(tm@),
                            ),
                        ),
                        Some(views(tm@)),
                        crate::context::spec_impls(*self),
                    );
                }
                if self.functions[id].overloads[ov].templates != tm.len() {
                    Err(
                        NessaError::compiler_error(
                            String::from_str(
                                "Function overload expected another number of type arguments",
                            ),
                            l,
                            Vec::new(),
                        ),
                    )
                } else {
                    Ok(())
                }
            },
            Err(err) => Err(err),
        }
    }

    /// A unary application resolves with the declared template count.
    fn unary_call_resolves(
        &self,
        l: &Location,
        id: usize,
        tm: &Vec<Type>,
        a: &NessaExpr,
    ) -> (r: Result<(), NessaError>)
        requires
            id < self.unary_ops@.len(),
            crate::inference::spec_infer_wf(*self, *a),
        ensures
            (r is Ok) == (match crate::inference::spec_infer(*self, *a) {
                Some(at) => spec_call_ok(
                    self.unary_ops@[id as int].operations@,
                    crate::types::spec_sub_templates(at, spec_tsc(tm@)),
                    tm@,
                    crate::context::spec_impls(*self),
                ),
                None => false,
            }),
    {
        let at = match self.infer_type(a) {
            Ok(t) => t,
            Err(err) => {
                return Err(err);
            },
        };
        let tsubs = crate::inference::subs_from_vec(tm);
        let at2 = at.sub_templates(&tsubs);
        let tm2 = crate::types::clone_type_vec(tm);
        proof {
            crate::types::lemma_views_index(tm@);
            crate::types::lemma_views_index(tm2@);
            assert(views(tm2@) =~= views(tm@));
        }
        let res = self.get_first_unary_op(id, at2, Some(tm2), false, l);
        match res {
            Ok((ov, _, _, _)) => {
                proof {
                    crate::inference::lemma_resolve_bounds(
                        self.unary_ops@[id as int].operations@,
                        crate::types::spec_sub_templates(
                            crate::inference::spec_infer(*self, *a).unwrap(),
                            spec_tsc(tm@),
                        ),
                        Some(views(tm@)),
                        crate::context::spec_impls(*self),
                    );
                }
                if self.unary_ops[id].operations[ov].templates != tm.len() {
                    Err(
                        NessaError::compiler_error(
                            String::from_str(
                                "Unary operator overload expected another number of type arguments",
                            ),
                            l,
                            Vec::new(),
                        ),
                    )
                } else {
                    Ok(())
                }
            },
            Err(err) => Err(err),
        }
    }

    /// A binary application resolves with the declared template count.
    fn binary_call_resolves(
        &self,
        l: &Location,
        id: usize,
        tm: &Vec<Type>,
        a: &NessaExpr,
        b: &NessaExpr,
    ) -> (r: Result<(), NessaError>)
        requires
            id < self.binary_ops@.len(),
            crate::inference::spec_infer_wf(*self, *a),
            crate::inference::spec_infer_wf(*self, *b),
        ensures
            (r is Ok) == (match (
                crate::inference::spec_infer(*self, *a),
                crate::inference::spec_infer(*self, *b),
            ) {
                (Some(t1), Some(t2)) => spec_call_ok(
                    self.binary_ops@[id as int].operations@,
                    TypeS::And(
                        seq![
                            crate::types::spec_sub_templates(t1, spec_tsc(tm@)),
                            crate::types::spec_sub_templates(t2, spec_tsc(tm@)),
                        ],
                    ),
                    tm@,
                    crate::context::spec_impls(*self),
                ),
                _ => false,
            }),
    {
        let t1 = match self.infer_type(a) {
            Ok(t) => t,
            Err(err) => {
                return Err(err);
            },
        };
        let t2 = match self.infer_type(b) {
            Ok(t) => t,
            Err(err) => {
                return Err(err);
            },
        };
        let tsubs = crate::inference::subs_from_vec(tm);
        let t1s = t1.sub_templates(&tsubs);
        let t2s = t2.sub_templates(&tsubs);
        let tm2 = crate::types::clone_type_vec(tm);
        proof {
            crate::types::lemma_views_index(tm@);
            crate::types::lemma_views_index(tm2@);
            assert(views(tm2@) =~= views(tm@));
        }
        let ghost t2spec = TypeS::And(
            seq![
                crate::types::spec_sub_templates(
                    crate::inference::spec_infer(*self, *a).unwrap(),
                    spec_tsc(tm@),
                ),
                crate::types::spec_sub_templates(
                    crate::inference::spec_infer(*self, *b).unwrap(),
                    spec_tsc(tm@),
                ),
            ],
        );
        let res = self.get_first_binary_op(id, t1s, t2s, Some(tm2), false, l);
        match res {
            Ok((ov, _, _, _)) => {
                proof {
                    crate::inference::lemma_resolve_bounds(
                        self.binary_ops@[id as int].operations@,
                        t2spec,
                        Some(views(tm@)),
                        crate::context::spec_impls(*self),
                    );
                }
                if self.binary_ops[id].operations[ov].templates != tm.len() {
                    Err(
                        NessaError::compiler_error(
                            String::from_str(
                                "Binary operator overload expected another number of type arguments",
                            ),
                            l,
                            Vec::new(),
                        ),
                    )
                } else {
                    Ok(())
                }
            },
            Err(err) => Err(err),
        }
    }

    /// An n-ary application resolves with the declared template count.
    #[verifier::loop_isolation(false)]
    fn nary_call_resolves(
        &self,
        l: &Location,
        id: usize,
        tm: &Vec<Type>,
        first: &NessaExpr,
        args: &Vec<NessaExpr>,
    ) -> (r: Result<(), NessaError>)
        requires
            id < self.nary_ops@.len(),
            crate::inference::spec_infer_wf(*self, *first),
            forall|k: int|
                0 <= k < args@.len() ==> crate::inference::spec_infer_wf(
                    *self,
                    #[trigger] args@[k],
                ),
        ensures
            (r is Ok) == (match (
                crate::inference::spec_infer(*self, *first),
                crate::inference::spec_infer_seq(*self, args@),
            ) {
                (Some(ft), Some(ats)) => spec_call_ok(
                    self.nary_ops@[id as int].operations@,
                    TypeS::And(
                        seq![crate::types::spec_sub_templates(ft, spec_tsc(tm@))]
                            + crate::types::spec_sub_templates_seq(ats, spec_tsc(tm@)),
                    ),
                    tm@,
                    crate::context::spec_impls(*self),
                ),
                _ => false,
            }),
    {
        let ft = match self.infer_type(first) {
            Ok(t) => t,
            Err(err) => {
                return Err(err);
            },
        };
        let ats = match self.infer_types(args) {
            Ok(ts) => ts,
            Err(err) => {
                return Err(err);
            },
        };
        let tsubs = crate::inference::subs_from_vec(tm);
        let fts = ft.sub_templates(&tsubs);
        let ats2 = crate::types::sub_templates_vec(&ats, &tsubs);
        let tm2 = crate::types::clone_type_vec(tm);
        proof {
            crate::types::lemma_views_index(tm@);
            crate::types::lemma_views_index(tm2@);
            assert(views(tm2@) =~= views(tm@));
        }
        let ghost t2spec = TypeS::And(
            seq![
                crate::types::spec_sub_templates(
                    crate::inference::spec_infer(*self, *first).unwrap(),
                    spec_tsc(tm@),
                ),
            ] + crate::types::spec_sub_templates_seq(
                crate::inference::spec_infer_seq(*self, args@).unwrap(),
                spec_tsc(tm@),
            ),
        );
        let res = self.get_first_nary_op(id, fts, ats2, Some(tm2), false, l);
        match res {
            Ok((ov, _, _, _)) => {
                proof {
                    crate::inference::lemma_resolve_bounds(
                        self.nary_ops@[id as int].operations@,
                        t2spec,
                        Some(views(tm@)),
                        crate::context::spec_impls(*self),
                    );
                }
                if self.nary_ops[id].operations[ov].templates != tm.len() {
                    Err(
                        NessaError::compiler_error(
                            String::from_str(
                                "N-ary operator overload expected another number of type arguments",
                            ),
                            l,
                            Vec::new(),
                        ),
                    )
                } else {
                    Ok(())
                }
            },
            Err(err) => Err(err),
        }
    }
}

impl NessaContext {
    /// Type-check an interface definition: member types are well
    /// formed and every template parameter, member or interface-level,
    /// is used by the accumulated member signatures.
    #[verifier::loop_isolation(false)]
    #[verifier::rlimit(20)]
    fn interface_def_types(
        &self,
        l: &Location,
        t: &Vec<String>,
        fns: &Vec<crate::interfaces::InterfaceFn>,
        uns: &Vec<crate::interfaces::InterfaceUnaryOp>,
        bin: &Vec<crate::interfaces::InterfaceBinaryOp>,
        nary: &Vec<crate::interfaces::InterfaceNaryOp>,
    ) -> (r: Result<(), NessaError>)
        requires
            spec_iface_members_ids_ok(*self, fns@, uns@, bin@, nary@),
            spec_iface_tm_fits(t@, fns@, uns@, bin@, nary@),
        ensures
            (r is Ok) == spec_iface_def_ok(*self, t@, fns@, uns@, bin@, nary@),
    {
        let ghost okspec = spec_iface_def_ok(*self, t@, fns@, uns@, bin@, nary@);
        let mut deps: Vec<usize> = Vec::new();
        proof {
            assert(crate::types::spec_elems(deps@) =~= spec_fns_deps(fns@, 0));
        }
        let mut k: usize = 0;
        while k < fns.len()
            invariant
                k <= fns@.len(),
                crate::types::spec_elems(deps@) == spec_fns_deps(fns@, k as int),
                forall|x: int|
                    0 <= x < k ==> spec_type_wf(*self, (#[trigger] fns@[x]).ret@) && (forall|
                        j: int,
                    |
                        0 <= j < fns@[x].args@.len() ==> spec_type_wf(
                            *self,
                            type_view((#[trigger] fns@[x].args@[j]).1),
                        )) && (match fns@[x].templates {
                        Some(inner) => spec_range_used(
                            spec_fns_deps(fns@, x + 1),
                            t@.len() as int,
                            inner@.len() as int,
                        ),
                        None => true,
                    }),
            decreases fns@.len() - k,
        {
            let m = &fns[k];
            let rw = self.check_type_well_formed(&m.ret, l);
            if rw.is_err() {
                proof {
                    assert(!okspec) by {
                        if okspec {
                            assert(spec_type_wf(*self, (#[trigger] fns@[k as int]).ret@));
                            assert(false);
                        }
                    }
                }
                return rw;
            }
            let mut j: usize = 0;
            while j < m.args.len()
                invariant
                    j <= m.args@.len(),
                    k < fns@.len(),
                    m == &fns@[k as int],
                    forall|x: int|
                        0 <= x < j ==> spec_type_wf(
                            *self,
                            type_view((#[trigger] m.args@[x]).1),
                        ),
                decreases m.args@.len() - j,
            {
                let ra = self.check_type_well_formed(&m.args[j].1, l);
                if ra.is_err() {
                    proof {
                        assert(!okspec) by {
                            if okspec {
                                assert(spec_type_wf(*self, (#[trigger] fns@[k as int]).ret@) && (
                                forall|j2: int|
                                    0 <= j2 < fns@[k as int].args@.len() ==> spec_type_wf(
                                        *self,
                                        type_view((#[trigger] fns@[k as int].args@[j2]).1),
                                    )));
                                assert(false);
                            }
                        }
                    }
                    return ra;
                }
                j = j + 1;
            }
            m.ret.template_dependencies(&mut deps);
            named_deps_into(&m.args, &mut deps);
            proof {
                assert(crate::types::spec_elems(deps@) =~= spec_fns_deps(fns@, k as int + 1));
            }
            match &m.templates {
                Some(inner) => {
                    let rr = check_range_used(&deps, t.len(), inner.len(), l);
                    if rr.is_err() {
                        proof {
                            assert(!okspec) by {
                                if okspec {
                                    assert(match (#[trigger] fns@[k as int]).templates {
                                        Some(inner2) => spec_range_used(
                                            spec_fns_deps(fns@, k as int + 1),
                                            t@.len() as int,
                                            inner2@.len() as int,
                                        ),
                                        None => true,
                                    });
                                    assert(false);
                                }
                            }
                        }
                        return rr;
                    }
                },
                None => {},
            }
            k = k + 1;
        }
        let ghost base_f = spec_fns_deps(fns@, fns@.len() as int);
        let mut k2: usize = 0;
        while k2 < uns.len()
            invariant
                k2 <= uns@.len(),
                base_f == spec_fns_deps(fns@, fns@.len() as int),
                crate::types::spec_elems(deps@) == base_f.union(spec_uns_deps(uns@, k2 as int)),
                forall|x: int|
                    0 <= x < k2 ==> spec_type_wf(*self, (#[trigger] uns@[x]).arg_type@)
                        && spec_type_wf(*self, uns@[x].ret@) && spec_range_used(
                        base_f.union(spec_uns_deps(uns@, x + 1)),
                        t@.len() as int,
                        uns@[x].templates@.len() as int,
                    ),
            decreases uns@.len() - k2,
        {
            let m = &uns[k2];
            let ra = self.check_type_well_formed(&m.arg_type, l);
            let rb = if ra.is_err() {
                ra
            } else {
                self.check_type_well_formed(&m.ret, l)
            };
            if rb.is_err() {
                proof {
                    assert(!okspec) by {
                        if okspec {
                            assert(spec_type_wf(*self, (#[trigger] uns@[k2 as int]).arg_type@)
                                && spec_type_wf(*self, uns@[k2 as int].ret@));
                            assert(false);
                        }
                    }
                }
                return rb;
            }
            m.arg_type.template_dependencies(&mut deps);
            m.ret.template_dependencies(&mut deps);
            proof {
                assert(crate::types::spec_elems(deps@) =~= base_f.union(
                    spec_uns_deps(uns@, k2 as int + 1),
                ));
            }
            let rr = check_range_used(&deps, t.len(), m.templates.len(), l);
            if rr.is_err() {
                proof {
                    assert(!okspec) by {
                        if okspec {
                            assert(spec_range_used(
                                base_f.union(spec_uns_deps(uns@, k2 as int + 1)),
                                t@.len() as int,
                                (#[trigger] uns@[k2 as int]).templates@.len() as int,
                            ));
                            assert(false);
                        }
                    }
                }
                return rr;
            }
            k2 = k2 + 1;
        }
        let ghost base_u = base_f.union(spec_uns_deps(uns@, uns@.len() as int));
        let mut k3: usize = 0;
        while k3 < bin.len()
            invariant
                k3 <= bin@.len(),
                base_f == spec_fns_deps(fns@, fns@.len() as int),
                base_u == base_f.union(spec_uns_deps(uns@, uns@.len() as int)),
                crate::types::spec_elems(deps@) == base_u.union(spec_bin_deps(bin@, k3 as int)),
                forall|x: int|
                    0 <= x < k3 ==> spec_type_wf(*self, (#[trigger] bin@[x]).arg_a.1@)
                        && spec_type_wf(*self, bin@[x].arg_b.1@) && spec_type_wf(
                        *self,
                        bin@[x].ret@,
                    ) && spec_range_used(
                        base_u.union(spec_bin_deps(bin@, x + 1)),
                        t@.len() as int,
                        bin@[x].templates@.len() as int,
                    ),
            decreases bin@.len() - k3,
        {
            let m = &bin[k3];
            let ra = self.check_type_well_formed(&m.arg_a.1, l);
            let rb = if ra.is_err() {
                ra
            } else {
                self.check_type_well_formed(&m.arg_b.1, l)
            };
            let rc = if rb.is_err() {
                rb
            } else {
                self.check_type_well_formed(&m.ret, l)
            };
            if rc.is_err() {
                proof {
                    assert(!okspec) by {
                        if okspec {
                            assert(spec_type_wf(*self, (#[trigger] bin@[k3 as int]).arg_a.1@)
                                && spec_type_wf(*self, bin@[k3 as int].arg_b.1@) && spec_type_wf(
                                *self,
                                bin@[k3 as int].ret@,
                            ));
                            assert(false);
                        }
                    }
                }
                return rc;
            }
            m.arg_a.1.template_dependencies(&mut deps);
            m.arg_b.1.template_dependencies(&mut deps);
            m.ret.template_dependencies(&mut deps);
            proof {
                assert(crate::types::spec_elems(deps@) =~= base_u.union(
                    spec_bin_deps(bin@, k3 as int + 1),
                ));
            }
            let rr = check_range_used(&deps, t.len(), m.templates.len(), l);
            if rr.is_err() {
                proof {
                    assert(!okspec) by {
                        if okspec {
                            assert(spec_range_used(
                                base_u.union(spec_bin_deps(bin@, k3 as int + 1)),
                                t@.len() as int,
                                (#[trigger] bin@[k3 as int]).templates@.len() as int,
                            ));
                            assert(false);
                        }
                    }
                }
                return rr;
            }
            k3 = k3 + 1;
        }
        let ghost base_b = base_u.union(spec_bin_deps(bin@, bin@.len() as int));
        let mut k4: usize = 0;
        while k4 < nary.len()
            invariant
                k4 <= nary@.len(),
                base_f == spec_fns_deps(fns@, fns@.len() as int),
                base_u == base_f.union(spec_uns_deps(uns@, uns@.len() as int)),
                base_b == base_u.union(spec_bin_deps(bin@, bin@.len() as int)),
                crate::types::spec_elems(deps@) == base_b.union(spec_nary_deps(nary@, k4 as int)),
                forall|x: int|
                    0 <= x < k4 ==> spec_type_wf(*self, (#[trigger] nary@[x]).arg_a.1@)
                        && spec_type_wf(*self, nary@[x].ret@) && (forall|j2: int|
                        0 <= j2 < nary@[x].args@.len() ==> spec_type_wf(
                            *self,
                            type_view((#[trigger] nary@[x].args@[j2]).1),
                        )) && spec_range_used(
                        base_b.union(spec_nary_deps(nary@, x + 1)),
                        t@.len() as int,
                        nary@[x].templates@.len() as int,
                    ),
            decreases nary@.len() - k4,
        {
            let m = &nary[k4];
            let ra = self.check_type_well_formed(&m.arg_a.1, l);
            let rb = if ra.is_err() {
                ra
            } else {
                self.check_type_well_formed(&m.ret, l)
            };
            if rb.is_err() {
                proof {
                    assert(!okspec) by {
                        if okspec {
                            assert(spec_type_wf(*self, (#[trigger] nary@[k4 as int]).arg_a.1@)
                                && spec_type_wf(*self, nary@[k4 as int].ret@));
                            assert(false);
                        }
                    }
                }
                return rb;
            }
            let mut j: usize = 0;
            while j < m.args.len()
                invariant
                    j <= m.args@.len(),
                    k4 < nary@.len(),
                    m == &nary@[k4 as int],
                    forall|x: int|
                        0 <= x < j ==> spec_type_wf(
                            *self,
                            type_view((#[trigger] m.args@[x]).1),
                        ),
                decreases m.args@.len() - j,
            {
                let ra2 = self.check_type_well_formed(&m.args[j].1, l);
                if ra2.is_err() {
                    proof {
                        assert(!okspec) by {
                            if okspec {
                                assert(spec_type_wf(
                                    *self,
                                    (#[trigger] nary@[k4 as int]).arg_a.1@,
                                ) && (forall|j2: int|
                                    0 <= j2 < nary@[k4 as int].args@.len() ==> spec_type_wf(
                                        *self,
                                        type_view((#[trigger] nary@[k4 as int].args@[j2]).1),
                                    )));
                                assert(false);
                            }
                        }
                    }
                    return ra2;
                }
                j = j + 1;
            }
            m.arg_a.1.template_dependencies(&mut deps);
            m.ret.template_dependencies(&mut deps);
            named_deps_into(&m.args, &mut deps);
            proof {
                assert(crate::types::spec_elems(deps@) =~= base_b.union(
                    spec_nary_deps(nary@, k4 as int + 1),
                ));
            }
            let rr = check_range_used(&deps, t.len(), m.templates.len(), l);
            if rr.is_err() {
                proof {
                    assert(!okspec) by {
                        if okspec {
                            assert(spec_range_used(
                                base_b.union(spec_nary_deps(nary@, k4 as int + 1)),
                                t@.len() as int,
                                (#[trigger] nary@[k4 as int]).templates@.len() as int,
                            ));
                            assert(false);
                        }
                    }
                }
                return rr;
            }
            k4 = k4 + 1;
        }
        check_all_used(&deps, t.len(), l)
    }
}

/// Elementwise registry-index validity carries over to the viewed
/// sequence.
pub proof fn lemma_types_ids_bridge(ctx: NessaContext, ts: Seq<Type>)
    requires
        spec_types_ids_ok(ctx, ts),
    ensures
        spec_type_ids_ok_seq(ctx, views(ts)),
{
    crate::types::lemma_views_index(ts);
    assert forall|k: int| 0 <= k < views(ts).len() implies spec_type_ids_ok(
        ctx,
        #[trigger] views(ts)[k],
    ) by {
        assert(views(ts)[k] == type_view(ts[k]));
        assert(spec_type_ids_ok(ctx, type_view(ts[k])));
    }
}

/// The expression forms the typing pass handles directly; the rest
/// are declarations or atoms.
pub open spec fn spec_value_form(e: NessaExpr) -> bool {
    match e {
        NessaExpr::DoBlock(_, _, _) => true,
        NessaExpr::Tuple(_, _) => true,
        NessaExpr::CompiledVariableDefinition(_, _, _, _, _) => true,
        NessaExpr::CompiledVariableAssignment(_, _, _, _, _) => true,
        NessaExpr::AttributeAssignment(_, _, _, _) => true,
        NessaExpr::FunctionCall(_, _, _, _) => true,
        NessaExpr::UnaryOperation(_, _, _, _) => true,
        NessaExpr::BinaryOperation(_, _, _, _, _) => true,
        NessaExpr::NaryOperation(_, _, _, _, _) => true,
        NessaExpr::If(_, _, _, _, _) => true,
        NessaExpr::While(_, _, _) => true,
        NessaExpr::CompiledFor(_, _, _, _, _, _) => true,
        NessaExpr::AttributeAccess(_, _, _) => true,
        NessaExpr::Return(_, _) => true,
        NessaExpr::CompiledLambda(_, _, _, _, _, _) => true,
        _ => false,
    }
}

impl NessaContext {
    /// The typing pass: annotated types must be well formed, bound
    /// values must bind to their declared types, attribute assignment
    /// must go through a mutable reference, applications must resolve
    /// with the declared number of template arguments, conditions must
    /// be boolean, and generic declarations must use every template
    /// parameter; generic bodies are skipped.
    #[verifier::loop_isolation(false)]
    #[verifier::rlimit(50)]
    #[verifier::spinoff_prover]
    pub fn type_check(&self, expr: &NessaExpr) -> (r: Result<(), NessaError>)
        requires
            spec_check_wf(*self, *expr),
        ensures
            (r is Ok) == spec_type_ok(*self, *expr),
        decreases *expr, 1nat,
    {
        match expr {
            NessaExpr::DoBlock(_, b, _) => {
                proof {
                    lemma_body_wf_split(*self, b@);
                }
                self.type_lines(b)
            },
            NessaExpr::Tuple(_, b) => self.type_lines(b),
            NessaExpr::CompiledVariableDefinition(l, _, _, t, e) => {
                let rw = self.check_type_well_formed(t, l);
                if rw.is_err() {
                    return rw;
                }
                let re = self.type_check(e);
                if re.is_err() {
                    return re;
                }
                proof {
                    assert(spec_check_wf(*self, **e));
                }
                let it = match self.infer_type(e) {
                    Ok(it) => it,
                    Err(err) => {
                        return Err(err);
                    },
                };
                if it.bindable_to(t, self) {
                    Ok(())
                } else {
                    Err(
                        NessaError::compiler_error(
                            String::from_str(
                                "Unable to bind value to the variable's declared type",
                            ),
                            l,
                            Vec::new(),
                        ),
                    )
                }
            },
            NessaExpr::CompiledVariableAssignment(l, _, _, t, e) => {
                let rw = self.check_type_well_formed(t, l);
                if rw.is_err() {
                    return rw;
                }
                let re = self.type_check(e);
                if re.is_err() {
                    return re;
                }
                proof {
                    assert(spec_check_wf(*self, **e));
                }
                let it = match self.infer_type(e) {
                    Ok(it) => it,
                    Err(err) => {
                        return Err(err);
                    },
                };
                if it.bindable_to(t, self) {
                    Ok(())
                } else {
                    Err(
                        NessaError::compiler_error(
                            String::from_str(
                                "Unable to bind value to the variable's declared type",
                            ),
                            l,
                            Vec::new(),
                        ),
                    )
                }
            },
            NessaExpr::AttributeAssignment(l, a, b, idx) => {
                let ra = self.type_check(a);
                if ra.is_err() {
                    return ra;
                }
                let rb = self.type_check(b);
                if rb.is_err() {
                    return rb;
                }
                proof {
                    assert(spec_check_wf(*self, **a));
                    assert(spec_check_wf(*self, **b));
                }
                self.attr_assignment_types(l, a, b, *idx)
            },
            NessaExpr::FunctionCall(l, id, tm, args) => {
                proof {
                    lemma_types_ids_bridge(*self, tm@);
                }
                let rw = self.check_types_well_formed(tm, l);
                if rw.is_err() {
                    return rw;
                }
                let ra = self.type_lines(args);
                if ra.is_err() {
                    return ra;
                }
                proof {
                    crate::inference::lemma_infer_wf_seq_index(*self, args@);
                }
                self.function_call_resolves(l, *id, tm, args)
            },
            NessaExpr::UnaryOperation(l, id, tm, a) => {
                proof {
                    lemma_types_ids_bridge(*self, tm@);
                }
                let rw = self.check_types_well_formed(tm, l);
                if rw.is_err() {
                    return rw;
                }
                let ra = self.type_check(a);
                if ra.is_err() {
                    return ra;
                }
                self.unary_call_resolves(l, *id, tm, a)
            },
            NessaExpr::BinaryOperation(l, id, tm, a, b) => {
                proof {
                    lemma_types_ids_bridge(*self, tm@);
                }
                let rw = self.check_types_well_formed(tm, l);
                if rw.is_err() {
                    return rw;
                }
                let ra = self.type_check(a);
                if ra.is_err() {
                    return ra;
                }
                let rb = self.type_check(b);
                if rb.is_err() {
                    return rb;
                }
                self.binary_call_resolves(l, *id, tm, a, b)
            },
            NessaExpr::NaryOperation(l, id, tm, first, args) => {
                proof {
                    lemma_types_ids_bridge(*self, tm@);
                }
                let rw = self.check_types_well_formed(tm, l);
                if rw.is_err() {
                    return rw;
                }
                let rf = self.type_check(first);
                if rf.is_err() {
                    return rf;
                }
                let ra = self.type_lines(args);
                if ra.is_err() {
                    return ra;
                }
                proof {
                    crate::inference::lemma_infer_wf_seq_index(*self, args@);
                }
                self.nary_call_resolves(l, *id, tm, first, args)
            },
            NessaExpr::If(l, c, ib, ei, eb) => {
                let rc = self.type_check(c);
                if rc.is_err() {
                    return rc;
                }
                proof {
                    assert(spec_check_wf(*self, **c));
                }
                let rcc = self.check_condition(l, c);
                if rcc.is_err() {
                    return rcc;
                }
                let rb = self.type_lines(ib);
                if rb.is_err() {
                    return rb;
                }
                let mut i: usize = 0;
                while i < ei.len()
                    invariant
                        i <= ei@.len(),
                        forall|k: int|
                            0 <= k < i ==> spec_type_ok(*self, (#[trigger] ei@[k]).0)
                                && spec_bool_cond(*self, ei@[k].0) && spec_type_lines(
                                *self,
                                ei@[k].1@,
                            ),
                    decreases ei@.len() - i,
                {
                    let rh = self.type_check(&ei[i].0);
                    if rh.is_err() {
                        return rh;
                    }
                    proof {
                        assert(spec_check_wf(*self, (ei@[i as int]).0));
                    }
                    let rhc = self.check_condition(l, &ei[i].0);
                    if rhc.is_err() {
                        return rhc;
                    }
                    let rl = self.type_lines(&ei[i].1);
                    if rl.is_err() {
                        return rl;
                    }
                    i = i + 1;
                }
                match eb {
                    Some(eb_lines) => self.type_lines(eb_lines),
                    None => Ok(()),
                }
            },
            NessaExpr::While(l, c, b) => {
                let rc = self.type_check(c);
                if rc.is_err() {
                    return rc;
                }
                proof {
                    assert(spec_check_wf(*self, **c));
                }
                let rcc = self.check_condition(l, c);
                if rcc.is_err() {
                    return rcc;
                }
                self.type_lines(b)
            },
            NessaExpr::CompiledFor(_, _, _, _, c, b) => {
                let rc = self.type_check(c);
                if rc.is_err() {
                    return rc;
                }
                self.type_lines(b)
            },
            NessaExpr::AttributeAccess(_, e, _) => {
                let ra = self.type_check(e);
                if ra.is_err() {
                    return ra;
                }
                proof {
                    assert(spec_check_wf(*self, **e));
                }
                match self.infer_type(e) {
                    Ok(_) => Ok(()),
                    Err(err) => Err(err),
                }
            },
            NessaExpr::Return(_, e) => {
                let ra = self.type_check(e);
                if ra.is_err() {
                    return ra;
                }
                proof {
                    assert(spec_check_wf(*self, **e));
                }
                match self.infer_type(e) {
                    Ok(_) => Ok(()),
                    Err(err) => Err(err),
                }
            },
            NessaExpr::CompiledLambda(l, _, c, args, _, b) => {
                let mut i: usize = 0;
                while i < c.len()
                    invariant
                        i <= c@.len(),
                        forall|k: int| 0 <= k < i ==> spec_type_ok(*self, (#[trigger] c@[k]).1),
                    decreases c@.len() - i,
                {
                    let rc = self.type_check(&c[i].1);
                    if rc.is_err() {
                        return rc;
                    }
                    i = i + 1;
                }
                let mut i2: usize = 0;
                while i2 < args.len()
                    invariant
                        i2 <= args@.len(),
                        forall|k: int|
                            0 <= k < i2 ==> spec_type_wf(
                                *self,
                                type_view((#[trigger] args@[k]).1),
                            ),
                    decreases args@.len() - i2,
                {
                    let rw = self.check_type_well_formed(&args[i2].1, l);
                    if rw.is_err() {
                        return rw;
                    }
                    i2 = i2 + 1;
                }
                proof {
                    lemma_body_wf_split(*self, b@);
                }
                self.type_lines(b)
            },
            _ => self.type_check_decl(expr),
        }
    }

    /// The typing pass on declarations: signature types must be well
    /// formed and generic declarations must use every template
    /// parameter; non-generic bodies are checked line by line.
    #[verifier::loop_isolation(false)]
    #[verifier::rlimit(50)]
    #[verifier::spinoff_prover]
    fn type_check_decl(&self, expr: &NessaExpr) -> (r: Result<(), NessaError>)
        requires
            spec_check_wf(*self, *expr),
            !spec_value_form(*expr),
        ensures
            (r is Ok) == spec_type_ok(*self, *expr),
        decreases *expr, 0nat,
    {
        match expr {
            NessaExpr::PrefixOperationDefinition(l, _, _, t, _, a, ret, b) => {
                let rw = self.check_type_well_formed(a, l);
                if rw.is_err() {
                    return rw;
                }
                let rr = self.check_type_well_formed(ret, l);
                if rr.is_err() {
                    return rr;
                }
                if t.len() == 0 {
                    proof {
                        lemma_body_wf_split(*self, b@);
                    }
                    self.type_lines(b)
                } else {
                    let mut deps: Vec<usize> = Vec::new();
                    a.template_dependencies(&mut deps);
                    ret.template_dependencies(&mut deps);
                    proof {
                        assert(crate::types::spec_elems(deps@) =~= crate::types::spec_deps(
                            type_view(*a),
                        ).union(crate::types::spec_deps(ret@)));
                    }
                    check_all_used(&deps, t.len(), l)
                }
            },
            NessaExpr::PostfixOperationDefinition(l, _, _, t, _, a, ret, b) => {
                let rw = self.check_type_well_formed(a, l);
                if rw.is_err() {
                    return rw;
                }
                let rr = self.check_type_well_formed(ret, l);
                if rr.is_err() {
                    return rr;
                }
                if t.len() == 0 {
                    proof {
                        lemma_body_wf_split(*self, b@);
                    }
                    self.type_lines(b)
                } else {
                    let mut deps: Vec<usize> = Vec::new();
                    a.template_dependencies(&mut deps);
                    ret.template_dependencies(&mut deps);
                    proof {
                        assert(crate::types::spec_elems(deps@) =~= crate::types::spec_deps(
                            type_view(*a),
                        ).union(crate::types::spec_deps(ret@)));
                    }
                    check_all_used(&deps, t.len(), l)
                }
            },
            NessaExpr::BinaryOperationDefinition(l, _, _, t, a1, a2, ret, b) => {
                let rw = self.check_type_well_formed(&a1.1, l);
                if rw.is_err() {
                    return rw;
                }
                let rw2 = self.check_type_well_formed(&a2.1, l);
                if rw2.is_err() {
                    return rw2;
                }
                let rr = self.check_type_well_formed(ret, l);
                if rr.is_err() {
                    return rr;
                }
                if t.len() == 0 {
                    proof {
                        lemma_body_wf_split(*self, b@);
                    }
                    self.type_lines(b)
                } else {
                    let mut deps: Vec<usize> = Vec::new();
                    a1.1.template_dependencies(&mut deps);
                    a2.1.template_dependencies(&mut deps);
                    ret.template_dependencies(&mut deps);
                    proof {
                        assert(crate::types::spec_elems(deps@) =~= crate::types::spec_deps(
                            type_view(a1.1),
                        ).union(crate::types::spec_deps(type_view(a2.1))).union(
                            crate::types::spec_deps(ret@),
                        ));
                    }
                    check_all_used(&deps, t.len(), l)
                }
            },
            NessaExpr::NaryOperationDefinition(l, _, _, t, a, args, ret, b) => {
                let rw = self.check_type_well_formed(&a.1, l);
                if rw.is_err() {
                    return rw;
                }
                let rr = self.check_type_well_formed(ret, l);
                if rr.is_err() {
                    return rr;
                }
                let mut i: usize = 0;
                while i < args.len()
                    invariant
                        i <= args@.len(),
                        forall|k: int|
                            0 <= k < i ==> spec_type_wf(
                                *self,
                                type_view((#[trigger] args@[k]).1),
                            ),
                    decreases args@.len() - i,
                {
                    let rw2 = self.check_type_well_formed(&args[i].1, l);
                    if rw2.is_err() {
                        return rw2;
                    }
                    i = i + 1;
                }
                if t.len() == 0 {
                    proof {
                        lemma_body_wf_split(*self, b@);
                    }
                    self.type_lines(b)
                } else {
                    let mut deps: Vec<usize> = Vec::new();
                    a.1.template_dependencies(&mut deps);
                    ret.template_dependencies(&mut deps);
                    named_deps_into(args, &mut deps);
                    proof {
                        assert(crate::types::spec_elems(deps@) =~= crate::types::spec_deps(
                            type_view(a.1),
                        ).union(crate::types::spec_deps(ret@)).union(spec_named_deps(args@)));
                    }
                    check_all_used(&deps, t.len(), l)
                }
            },
            NessaExpr::FunctionDefinition(l, _, _, t, args, ret, b) => {
                let rr = self.check_type_well_formed(ret, l);
                if rr.is_err() {
                    return rr;
                }
                let mut i: usize = 0;
                while i < args.len()
                    invariant
                        i <= args@.len(),
                        forall|k: int|
                            0 <= k < i ==> spec_type_wf(
                                *self,
                                type_view((#[trigger] args@[k]).1),
                            ),
                    decreases args@.len() - i,
                {
                    let rw = self.check_type_well_formed(&args[i].1, l);
                    if rw.is_err() {
                        return rw;
                    }
                    i = i + 1;
                }
                if t.len() == 0 {
                    proof {
                        lemma_body_wf_split(*self, b@);
                    }
                    self.type_lines(b)
                } else {
                    let mut deps: Vec<usize> = Vec::new();
                    ret.template_dependencies(&mut deps);
                    named_deps_into(args, &mut deps);
                    proof {
                        assert(crate::types::spec_elems(deps@) =~= crate::types::spec_deps(
                            ret@,
                        ).union(spec_named_deps(args@)));
                    }
                    check_all_used(&deps, t.len(), l)
                }
            },
            NessaExpr::ClassDefinition(l, _, _, t, attrs, alias, _) => {
                match alias {
                    Some(al) => {
                        let rw = self.check_type_well_formed(al, l);
                        if rw.is_err() {
                            return rw;
                        }
                        let mut deps: Vec<usize> = Vec::new();
                        al.template_dependencies(&mut deps);
                        proof {
                            assert(crate::types::spec_elems(deps@) =~= crate::types::spec_deps(
                                al@,
                            ));
                        }
                        check_all_used(&deps, t.len(), l)
                    },
                    None => {
                        let mut i: usize = 0;
                        while i < attrs.len()
                            invariant
                                i <= attrs@.len(),
                                forall|k: int|
                                    0 <= k < i ==> spec_type_wf(
                                        *self,
                                        type_view((#[trigger] attrs@[k]).1),
                                    ),
                            decreases attrs@.len() - i,
                        {
                            let rw = self.check_type_well_formed(&attrs[i].1, l);
                            if rw.is_err() {
                                return rw;
                            }
                            i = i + 1;
                        }
                        let mut deps: Vec<usize> = Vec::new();
                        named_deps_into(attrs, &mut deps);
                        proof {
                            assert(crate::types::spec_elems(deps@) =~= spec_named_deps(attrs@));
                        }
                        check_all_used(&deps, t.len(), l)
                    },
                }
            },
            NessaExpr::InterfaceImplementation(l, t, tp, _, ts) => {
                let rw = self.check_type_well_formed(tp, l);
                if rw.is_err() {
                    return rw;
                }
                proof {
                    lemma_types_ids_bridge(*self, ts@);
                }
                let rws = self.check_types_well_formed(ts, l);
                if rws.is_err() {
                    return rws;
                }
                let mut deps: Vec<usize> = Vec::new();
                tp.template_dependencies(&mut deps);
                let mut i: usize = 0;
                while i < ts.len()
                    invariant
                        i <= ts@.len(),
                        forall|x: int|
                            crate::types::spec_elems(deps@).contains(x)
                                <==> crate::types::spec_deps(tp@).contains(x) || exists|k: int|
                                0 <= k < i && crate::types::spec_deps(
                                    type_view(#[trigger] ts@[k]),
                                ).contains(x),
                    decreases ts@.len() - i,
                {
                    ts[i].template_dependencies(&mut deps);
                    i = i + 1;
                }
                proof {
                    crate::types::lemma_views_index(ts@);
                    assert forall|x: int|
                        crate::types::spec_elems(deps@).contains(x) == crate::types::spec_deps(
                        tp@,
                    ).union(crate::types::spec_deps_seq(views(ts@))).contains(x) by {
                        crate::types::lemma_deps_seq_iff(views(ts@), x);
                        if exists|k: int|
                            0 <= k < ts@.len() && crate::types::spec_deps(
                                type_view(#[trigger] ts@[k]),
                            ).contains(x) {
                            let k0 = choose|k: int|
                                0 <= k < ts@.len() && crate::types::spec_deps(
                                    type_view(#[trigger] ts@[k]),
                                ).contains(x);
                            assert(crate::types::spec_deps(views(ts@)[k0]).contains(x));
                        }
                        if crate::types::spec_deps_seq(views(ts@)).contains(x) {
                            let k1 = choose|k: int|
                                0 <= k < views(ts@).len() && crate::types::spec_deps(
                                    #[trigger] views(ts@)[k],
                                ).contains(x);
                            assert(crate::types::spec_deps(type_view(ts@[k1])).contains(x));
                        }
                    }
                    assert(crate::types::spec_elems(deps@) =~= crate::types::spec_deps(tp@).union(
                        crate::types::spec_deps_seq(views(ts@)),
                    ));
                }
                check_all_used(&deps, t.len(), l)
            },
            NessaExpr::InterfaceDefinition(l, _, _, t, fns, uns, bin, nary) => {
                self.interface_def_types(l, t, fns, uns, bin, nary)
            },
            _ => Ok(()),
        }
    }

    /// Type-check each line of a body.
    #[verifier::loop_isolation(false)]
    fn type_lines(&self, lines: &Vec<NessaExpr>) -> (r: Result<(), NessaError>)
        requires
            spec_check_wf_lines(*self, lines@),
        ensures
            (r is Ok) == spec_type_lines(*self, lines@),
        decreases lines, 0nat,
    {
        let mut j: usize = 0;
        while j < lines.len()
            invariant
                j <= lines@.len(),
                forall|k: int| 0 <= k < j ==> spec_type_ok(*self, #[trigger] lines@[k]),
            decreases lines@.len() - j,
        {
            let rl = self.type_check(&lines[j]);
            if rl.is_err() {
                return rl;
            }
            j = j + 1;
        }
        Ok(())
    }
}

/// The outcome of checking one member kind of an interface
/// implementation, in order: failure, passing on to the next member,
/// or deferral of the whole check because the implementing type is
/// generic and a member is still ambiguous.
pub open spec fn spec_impl_fns_check(
    ctx: NessaContext,
    fns: Seq<crate::interfaces::InterfaceFn>,
    off_t: TypeS,
    subs: Map<int, TypeS>,
    templated: bool,
) -> int
    decreases fns.len(),
{
    if fns.len() == 0 {
        1
    } else {
        let m = fns[0];
        if !crate::context::spec_fn_name_taken(ctx.functions@, m.name@) {
            0
        } else {
            let fid = crate::context::spec_first_fn_id(ctx.functions@, m.name@);
            let ret_sub = crate::types::spec_sub_templates(
                crate::types::spec_sub_self(m.ret@, off_t),
                subs,
            );
            let args_sub = crate::types::spec_sub_templates_seq(
                crate::types::spec_sub_self_seq(
                    crate::inference::spec_named_types(m.args@),
                    off_t,
                ),
                subs,
            );
            let ops = ctx.functions@[fid].overloads@;
            let cnt = crate::inference::spec_accept_count(
                ops,
                TypeS::And(args_sub),
                crate::context::spec_impls(ctx),
            );
            if cnt >= 2 {
                if templated {
                    2
                } else {
                    0
                }
            } else {
                match crate::inference::spec_resolve(
                    ops,
                    TypeS::And(args_sub),
                    None,
                    crate::context::spec_impls(ctx),
                ) {
                    Some((i, s)) => if crate::bindable::spec_bindable(
                        crate::types::spec_sub_templates(ops[i].ret@, s),
                        ret_sub,
                        crate::context::spec_impls(ctx),
                    ) {
                        spec_impl_fns_check(ctx, fns.skip(1), off_t, subs, templated)
                    } else {
                        0
                    },
                    None => 0,
                }
            }
        }
    }
}

pub open spec fn spec_impl_uns_check(
    ctx: NessaContext,
    uns: Seq<crate::interfaces::InterfaceUnaryOp>,
    off_t: TypeS,
    subs: Map<int, TypeS>,
    templated: bool,
) -> int
    decreases uns.len(),
{
    if uns.len() == 0 {
        1
    } else {
        let m = uns[0];
        let ret_sub = crate::types::spec_sub_templates(
            crate::types::spec_sub_self(m.ret@, off_t),
            subs,
        );
        let arg_sub = crate::types::spec_sub_templates(
            crate::types::spec_sub_self(m.arg_type@, off_t),
            subs,
        );
        let ops = ctx.unary_ops@[m.op_id as int].operations@;
        let cnt = crate::inference::spec_accept_count(
            ops,
            arg_sub,
            crate::context::spec_impls(ctx),
        );
        if cnt >= 2 {
            if templated {
                2
            } else {
                0
            }
        } else {
            match crate::inference::spec_resolve(
                ops,
                arg_sub,
                None,
                crate::context::spec_impls(ctx),
            ) {
                Some((i, s)) => if crate::bindable::spec_bindable(
                    crate::types::spec_sub_templates(ops[i].ret@, s),
                    ret_sub,
                    crate::context::spec_impls(ctx),
                ) {
                    spec_impl_uns_check(ctx, uns.skip(1), off_t, subs, templated)
                } else {
                    0
                },
                None => 0,
            }
        }
    }
}

pub open spec fn spec_impl_bin_check(
    ctx: NessaContext,
    bin: Seq<crate::interfaces::InterfaceBinaryOp>,
    off_t: TypeS,
    subs: Map<int, TypeS>,
    templated: bool,
) -> int
    decreases bin.len(),
{
    if bin.len() == 0 {
        1
    } else {
        let m = bin[0];
        let ret_sub = crate::types::spec_sub_templates(
            crate::types::spec_sub_self(m.ret@, off_t),
            subs,
        );
        let a0 = crate::types::spec_sub_templates(
            crate::types::spec_sub_self(m.arg_a.1@, off_t),
            subs,
        );
        let a1 = crate::types::spec_sub_templates(
            crate::types::spec_sub_self(m.arg_b.1@, off_t),
            subs,
        );
        let ops = ctx.binary_ops@[m.op_id as int].operations@;
        let cnt = crate::inference::spec_accept_count(
            ops,
            TypeS::And(seq![a0, a1]),
            crate::context::spec_impls(ctx),
        );
        if cnt >= 2 {
            if templated {
                2
            } else {
                0
            }
        } else {
            match crate::inference::spec_resolve(
                ops,
                TypeS::And(seq![a0, a1]),
                None,
                crate::context::spec_impls(ctx),
            ) {
                Some((i, s)) => if crate::bindable::spec_bindable(
                    crate::types::spec_sub_templates(ops[i].ret@, s),
                    ret_sub,
                    crate::context::spec_impls(ctx),
                ) {
                    spec_impl_bin_check(ctx, bin.skip(1), off_t, subs, templated)
                } else {
                    0
                },
                None => 0,
            }
        }
    }
}

pub open spec fn spec_impl_nary_check(
    ctx: NessaContext,
    nary: Seq<crate::interfaces::InterfaceNaryOp>,
    off_t: TypeS,
    subs: Map<int, TypeS>,
    templated: bool,
) -> int
    decreases nary.len(),
{
    if nary.len() == 0 {
        1
    } else {
        let m = nary[0];
        let ret_sub = crate::types::spec_sub_templates(
            crate::types::spec_sub_self(m.ret@, off_t),
            subs,
        );
        let a0 = crate::types::spec_sub_templates(
            crate::types::spec_sub_self(m.arg_a.1@, off_t),
            subs,
        );
        let rest = crate::types::spec_sub_templates_seq(
            crate::types::spec_sub_self_seq(
                crate::inference::spec_named_types(m.args@),
                off_t,
            ),
            subs,
        );
        let ops = ctx.nary_ops@[m.op_id as int].operations@;
        let cnt = crate::inference::spec_accept_count(
            ops,
            TypeS::And(seq![a0] + rest),
            crate::context::spec_impls(ctx),
        );
        if cnt >= 2 {
            if templated {
                2
            } else {
                0
            }
        } else {
            match crate::inference::spec_resolve(
                ops,
                TypeS::And(seq![a0] + rest),
                None,
                crate::context::spec_impls(ctx),
            ) {
                Some((i, s)) => if crate::bindable::spec_bindable(
                    crate::types::spec_sub_templates(ops[i].ret@, s),
                    ret_sub,
                    crate::context::spec_impls(ctx),
                ) {
                    spec_impl_nary_check(ctx, nary.skip(1), off_t, subs, templated)
                } else {
                    0
                },
                None => 0,
            }
        }
    }
}

/// An interface implementation checks: the named interface exists, and
/// for each required member, with `SelfType` replaced by the
/// implementing type and interface parameters substituted by the
/// implementation arguments (their indices offset past the members'
/// template frames), some overload resolves whose substituted return
/// type binds to the required one; while a member application is still
/// ambiguous, the check is deferred when the implementing type is
/// generic and fails otherwise.
pub open spec fn spec_iface_impl_checked(ctx: NessaContext, e: NessaExpr) -> bool {
    match e {
        NessaExpr::InterfaceImplementation(_, _, tp, n, ts) => {
            if !crate::context::spec_interface_name_taken(ctx.interfaces@, n@) {
                false
            } else {
                let id = spec_interface_id_of(ctx, n@);
                let iface = ctx.interfaces@[id];
                let m = spec_max_tms(iface) + iface.params@.len();
                let off_t = crate::types::spec_offset(tp@, m);
                let off_ts = crate::types::spec_offset_seq(views(ts@), m);
                let subs = crate::inference::spec_enum_map(off_ts);
                let templated = spec_has_templates(tp@) || crate::types::spec_any_has_templates(
                    views(ts@),
                );
                let f = spec_impl_fns_check(ctx, iface.fns@, off_t, subs, templated);
                if f == 0 {
                    false
                } else if f == 2 {
                    true
                } else {
                    let u = spec_impl_uns_check(ctx, iface.uns@, off_t, subs, templated);
                    if u == 0 {
                        false
                    } else if u == 2 {
                        true
                    } else {
                        let bb = spec_impl_bin_check(ctx, iface.bin@, off_t, subs, templated);
                        if bb == 0 {
                            false
                        } else if bb == 2 {
                            true
                        } else {
                            let nn = spec_impl_nary_check(
                                ctx,
                                iface.nary@,
                                off_t,
                                subs,
                                templated,
                            );
                            nn != 0
                        }
                    }
                }
            }
        },
        _ => true,
    }
}

pub proof fn lemma_max_fn_tms_nonneg(fns: Seq<crate::interfaces::InterfaceFn>)
    ensures
        spec_max_fn_tms(fns) >= 0,
    decreases fns,
{
    if fns.len() > 0 {
        lemma_max_fn_tms_nonneg(fns.drop_last());
    }
}

pub proof fn lemma_max_un_tms_nonneg(uns: Seq<crate::interfaces::InterfaceUnaryOp>)
    ensures
        spec_max_un_tms(uns) >= 0,
    decreases uns,
{
    if uns.len() > 0 {
        lemma_max_un_tms_nonneg(uns.drop_last());
    }
}

pub proof fn lemma_max_bin_tms_nonneg(bin: Seq<crate::interfaces::InterfaceBinaryOp>)
    ensures
        spec_max_bin_tms(bin) >= 0,
    decreases bin,
{
    if bin.len() > 0 {
        lemma_max_bin_tms_nonneg(bin.drop_last());
    }
}

pub proof fn lemma_max_nary_tms_nonneg(nary: Seq<crate::interfaces::InterfaceNaryOp>)
    ensures
        spec_max_nary_tms(nary) >= 0,
    decreases nary,
{
    if nary.len() > 0 {
        lemma_max_nary_tms_nonneg(nary.drop_last());
    }
}

/// Substitute `SelfType` by the implementing type, then the interface
/// parameters by the implementation arguments, in every member
/// parameter type.
#[verifier::loop_isolation(false)]
fn member_args_sub(
    args: &Vec<(String, Type)>,
    off_t: &Type,
    subs: &crate::types::TypeSubs,
) -> (r: Vec<Type>)
    ensures
        views(r@) == crate::types::spec_sub_templates_seq(
            crate::types::spec_sub_self_seq(
                crate::inference::spec_named_types(args@),
                off_t@,
            ),
            subs@,
        ),
{
    let ghost target = crate::types::spec_sub_templates_seq(
        crate::types::spec_sub_self_seq(crate::inference::spec_named_types(args@), off_t@),
        subs@,
    );
    proof {
        crate::types::lemma_sub_self_seq_index(
            crate::inference::spec_named_types(args@),
            off_t@,
        );
        crate::types::lemma_sub_templates_seq_index(
            crate::types::spec_sub_self_seq(
                crate::inference::spec_named_types(args@),
                off_t@,
            ),
            subs@,
        );
        assert forall|k: int|
            0 <= k < args@.len() implies target[k] == crate::types::spec_sub_templates(
            crate::types::spec_sub_self(type_view((#[trigger] args@[k]).1), off_t@),
            subs@,
        ) by {
            let named = crate::inference::spec_named_types(args@);
            assert(named[k] == type_view(args@[k].1));
            assert(crate::types::spec_sub_self_seq(named, off_t@)[k]
                == crate::types::spec_sub_self(named[k], off_t@));
            assert(target[k] == crate::types::spec_sub_templates(
                crate::types::spec_sub_self_seq(named, off_t@)[k],
                subs@,
            ));
        }
    }
    let mut out: Vec<Type> = Vec::new();
    let mut j: usize = 0;
    while j < args.len()
        invariant
            j <= args@.len(),
            out@.len() == j,
            target == crate::types::spec_sub_templates_seq(
                crate::types::spec_sub_self_seq(
                    crate::inference::spec_named_types(args@),
                    off_t@,
                ),
                subs@,
            ),
            target.len() == args@.len(),
            forall|k: int|
                0 <= k < args@.len() ==> target[k] == crate::types::spec_sub_templates(
                    crate::types::spec_sub_self(
                        type_view((#[trigger] args@[k]).1),
                        off_t@,
                    ),
                    subs@,
                ),
            forall|k: int| 0 <= k < j ==> type_view(#[trigger] out@[k]) == target[k],
        decreases args@.len() - j,
    {
        let e = args[j].1.sub_self(off_t).sub_templates(subs);
        out.push(e);
        j = j + 1;
    }
    proof {
        crate::types::lemma_views_index(out@);
        assert forall|k: int| 0 <= k < out@.len() implies views(out@)[k] == target[k] by {
            assert(views(out@)[k] == type_view(out@[k]));
        }
        assert(views(out@) =~= target);
    }
    out
}

impl NessaContext {
    /// Check an interface implementation: every required member must
    /// resolve, after substituting the implementing type for
    /// `SelfType` and the implementation arguments for the interface
    /// parameters (offset past the members' template frames), to an
    /// overload whose return type binds to the required one. While a
    /// member application is still ambiguous the check is deferred for
    /// a generic implementing type, and fails otherwise.
    #[verifier::loop_isolation(false)]
    #[verifier::rlimit(50)]
    #[verifier::spinoff_prover]
    pub fn interface_impl_check(&self, expr: &NessaExpr) -> (r: Result<(), NessaError>)
        requires
            spec_check_wf(*self, *expr),
        ensures
            (r is Ok) == spec_iface_impl_checked(*self, *expr),
        decreases *expr,
    {
        match expr {
            NessaExpr::InterfaceImplementation(l, _, tp, n, ts) => {
                let id = match self.get_interface_id(n) {
                    Ok(id) => id,
                    Err(msg) => {
                        return Err(NessaError::compiler_error(msg, l, Vec::new()));
                    },
                };
                let iface = &self.interfaces[id];
                proof {
                    lemma_max_fn_tms_nonneg(iface.fns@);
                    lemma_max_un_tms_nonneg(iface.uns@);
                    lemma_max_bin_tms_nonneg(iface.bin@);
                    lemma_max_nary_tms_nonneg(iface.nary@);
                }
                let max_f = max_fn_templates(&iface.fns);
                let max_u = max_un_templates(&iface.uns);
                let max_b = max_bin_templates(&iface.bin);
                let max_n = max_nary_templates(&iface.nary);
                let m = max_f + max_u + max_b + max_n + iface.params.len();
                proof {
                    assert(m as int == spec_max_tms(*iface) + iface.params@.len());
                }
                let mut off_t = tp.clone_type();
                off_t.offset_templates(m);
                let mut off_ts: Vec<Type> = Vec::new();
                proof {
                    crate::types::lemma_views_index(ts@);
                    crate::types::lemma_offset_seq_index(views(ts@), m as int);
                }
                let mut i: usize = 0;
                while i < ts.len()
                    invariant
                        i <= ts@.len(),
                        off_ts@.len() == i,
                        forall|k: int|
                            0 <= k < i ==> type_view(#[trigger] off_ts@[k]) == crate::types::spec_offset(
                                type_view(ts@[k]),
                                m as int,
                            ),
                    decreases ts@.len() - i,
                {
                    let mut e = ts[i].clone_type();
                    e.offset_templates(m);
                    off_ts.push(e);
                    i = i + 1;
                }
                proof {
                    crate::types::lemma_views_index(off_ts@);
                    assert forall|k: int|
                        0 <= k < off_ts@.len() implies views(off_ts@)[k] == crate::types::spec_offset_seq(
                        views(ts@),
                        m as int,
                    )[k] by {
                        assert(views(off_ts@)[k] == type_view(off_ts@[k]));
                    }
                    assert(views(off_ts@) =~= crate::types::spec_offset_seq(views(ts@), m as int));
                }
                let subs = crate::inference::subs_from_vec(&off_ts);
                let templated = tp.has_templates() || crate::types::any_has_templates(ts);
                let ghost off_tv = off_t@;
                let ghost subsv = subs@;

                // Required function members.
                let ghost ftot = spec_impl_fns_check(*self, iface.fns@, off_tv, subsv, templated);
                proof {
                    assert(iface.fns@.skip(0) =~= iface.fns@);
                }
                let mut k: usize = 0;
                while k < iface.fns.len()
                    invariant
                        k <= iface.fns@.len(),
                        spec_impl_fns_check(
                            *self,
                            iface.fns@.skip(k as int),
                            off_tv,
                            subsv,
                            templated,
                        ) == ftot,
                        off_tv == off_t@,
                        subsv == subs@,
                    decreases iface.fns@.len() - k,
                {
                    proof {
                        assert(iface.fns@.skip(k as int)[0] == iface.fns@[k as int]);
                        assert(iface.fns@.skip(k as int).skip(1) =~= iface.fns@.skip(k as int + 1));
                    }
                    let mem = &iface.fns[k];
                    let fid = match self.get_function_id(&mem.name) {
                        Ok(f) => f,
                        Err(msg) => {
                            return Err(NessaError::compiler_error(msg, l, Vec::new()));
                        },
                    };
                    let ret_sub = mem.ret.sub_self(&off_t).sub_templates(&subs);
                    let args_sub = member_args_sub(&mem.args, &off_t, &subs);
                    let args_sub2 = crate::types::clone_type_vec(&args_sub);
                    proof {
                        assert(views(args_sub2@) =~= views(args_sub@));
                    }
                    match self.is_function_overload_ambiguous(fid, args_sub) {
                        Some(_candidates) => {
                            if templated {
                                return Ok(());
                            } else {
                                return Err(
                                    NessaError::compiler_error(
                                        String::from_str(
                                            "Function call needed by the interface is ambiguous",
                                        ),
                                        l,
                                        Vec::new(),
                                    ),
                                );
                            }
                        },
                        None => {},
                    }
                    match self.get_first_function_overload(fid, args_sub2, None, true, l) {
                        Ok((_ov, rt, _has, _targs)) => {
                            if !rt.bindable_to(&ret_sub, self) {
                                return Err(
                                    NessaError::compiler_error(
                                        String::from_str(
                                            "Function overload needed by the interface returns a type that is not bindable to the required one",
                                        ),
                                        l,
                                        Vec::new(),
                                    ),
                                );
                            }
                        },
                        Err(_e) => {
                            return Err(
                                NessaError::compiler_error(
                                    String::from_str(
                                        "Unable to find the function overload needed by the interface",
                                    ),
                                    l,
                                    Vec::new(),
                                ),
                            );
                        },
                    }
                    k = k + 1;
                }
                proof {
                    assert(iface.fns@.skip(iface.fns@.len() as int)
                        =~= Seq::<crate::interfaces::InterfaceFn>::empty());
                }

                // Required unary-operator members.
                let ghost utot = spec_impl_uns_check(*self, iface.uns@, off_tv, subsv, templated);
                proof {
                    assert(iface.uns@.skip(0) =~= iface.uns@);
                }
                let mut k2: usize = 0;
                while k2 < iface.uns.len()
                    invariant
                        k2 <= iface.uns@.len(),
                        spec_impl_uns_check(
                            *self,
                            iface.uns@.skip(k2 as int),
                            off_tv,
                            subsv,
                            templated,
                        ) == utot,
                        off_tv == off_t@,
                        subsv == subs@,
                    decreases iface.uns@.len() - k2,
                {
                    proof {
                        assert(iface.uns@.skip(k2 as int)[0] == iface.uns@[k2 as int]);
                        assert(iface.uns@.skip(k2 as int).skip(1) =~= iface.uns@.skip(
                            k2 as int + 1,
                        ));
                    }
                    let mem = &iface.uns[k2];
                    let ret_sub = mem.ret.sub_self(&off_t).sub_templates(&subs);
                    let arg_sub = mem.arg_type.sub_self(&off_t).sub_templates(&subs);
                    let arg_sub2 = arg_sub.clone_type();
                    match self.is_unary_op_ambiguous(mem.op_id, arg_sub) {
                        Some(_candidates) => {
                            if templated {
                                return Ok(());
                            } else {
                                return Err(
                                    NessaError::compiler_error(
                                        String::from_str(
                                            "Unary operation needed by the interface is ambiguous",
                                        ),
                                        l,
                                        Vec::new(),
                                    ),
                                );
                            }
                        },
                        None => {},
                    }
                    match self.get_first_unary_op(mem.op_id, arg_sub2, None, true, l) {
                        Ok((_ov, rt, _has, _targs)) => {
                            if !rt.bindable_to(&ret_sub, self) {
                                return Err(
                                    NessaError::compiler_error(
                                        String::from_str(
                                            "Unary operation needed by the interface returns a type that is not bindable to the required one",
                                        ),
                                        l,
                                        Vec::new(),
                                    ),
                                );
                            }
                        },
                        Err(_e) => {
                            return Err(
                                NessaError::compiler_error(
                                    String::from_str(
                                        "Unable to find the unary operation overload needed by the interface",
                                    ),
                                    l,
                                    Vec::new(),
                                ),
                            );
                        },
                    }
                    k2 = k2 + 1;
                }
                proof {
                    assert(iface.uns@.skip(iface.uns@.len() as int)
                        =~= Seq::<crate::interfaces::InterfaceUnaryOp>::empty());
                }

                // Required binary-operator members.
                let ghost btot = spec_impl_bin_check(*self, iface.bin@, off_tv, subsv, templated);
                proof {
                    assert(iface.bin@.skip(0) =~= iface.bin@);
                }
                let mut k3: usize = 0;
                while k3 < iface.bin.len()
                    invariant
                        k3 <= iface.bin@.len(),
                        spec_impl_bin_check(
                            *self,
                            iface.bin@.skip(k3 as int),
                            off_tv,
                            subsv,
                            templated,
                        ) == btot,
                        off_tv == off_t@,
                        subsv == subs@,
                    decreases iface.bin@.len() - k3,
                {
                    proof {
                        assert(iface.bin@.skip(k3 as int)[0] == iface.bin@[k3 as int]);
                        assert(iface.bin@.skip(k3 as int).skip(1) =~= iface.bin@.skip(
                            k3 as int + 1,
                        ));
                    }
                    let mem = &iface.bin[k3];
                    let ret_sub = mem.ret.sub_self(&off_t).sub_templates(&subs);
                    let a0 = mem.arg_a.1.sub_self(&off_t).sub_templates(&subs);
                    let a1 = mem.arg_b.1.sub_self(&off_t).sub_templates(&subs);
                    let a0c = a0.clone_type();
                    let a1c = a1.clone_type();
                    match self.is_binary_op_ambiguous(mem.op_id, a0, a1) {
                        Some(_candidates) => {
                            if templated {
                                return Ok(());
                            } else {
                                return Err(
                                    NessaError::compiler_error(
                                        String::from_str(
                                            "Binary operation needed by the interface is ambiguous",
                                        ),
                                        l,
                                        Vec::new(),
                                    ),
                                );
                            }
                        },
                        None => {},
                    }
                    match self.get_first_binary_op(mem.op_id, a0c, a1c, None, true, l) {
                        Ok((_ov, rt, _has, _targs)) => {
                            if !rt.bindable_to(&ret_sub, self) {
                                return Err(
                                    NessaError::compiler_error(
                                        String::from_str(
                                            "Binary operation needed by the interface returns a type that is not bindable to the required one",
                                        ),
                                        l,
                                        Vec::new(),
                                    ),
                                );
                            }
                        },
                        Err(_e) => {
                            return Err(
                                NessaError::compiler_error(
                                    String::from_str(
                                        "Unable to find the binary operation overload needed by the interface",
                                    ),
                                    l,
                                    Vec::new(),
                                ),
                            );
                        },
                    }
                    k3 = k3 + 1;
                }
                proof {
                    assert(iface.bin@.skip(iface.bin@.len() as int)
                        =~= Seq::<crate::interfaces::InterfaceBinaryOp>::empty());
                }

                // Required n-ary-operator members.
                let ghost ntot = spec_impl_nary_check(*self, iface.nary@, off_tv, subsv, templated);
                proof {
                    assert(iface.nary@.skip(0) =~= iface.nary@);
                }
                let mut k4: usize = 0;
                while k4 < iface.nary.len()
                    invariant
                        k4 <= iface.nary@.len(),
                        spec_impl_nary_check(
                            *self,
                            iface.nary@.skip(k4 as int),
                            off_tv,
                            subsv,
                            templated,
                        ) == ntot,
                        off_tv == off_t@,
                        subsv == subs@,
                    decreases iface.nary@.len() - k4,
                {
                    proof {
                        assert(iface.nary@.skip(k4 as int)[0] == iface.nary@[k4 as int]);
                        assert(iface.nary@.skip(k4 as int).skip(1) =~= iface.nary@.skip(
                            k4 as int + 1,
                        ));
                    }
                    let mem = &iface.nary[k4];
                    let ret_sub = mem.ret.sub_self(&off_t).sub_templates(&subs);
                    let a0 = mem.arg_a.1.sub_self(&off_t).sub_templates(&subs);
                    let rest = member_args_sub(&mem.args, &off_t, &subs);
                    let a0c = a0.clone_type();
                    let restc = crate::types::clone_type_vec(&rest);
                    proof {
                        assert(views(restc@) =~= views(rest@));
                    }
                    match self.is_nary_op_ambiguous(mem.op_id, a0, rest) {
                        Some(_candidates) => {
                            if templated {
                                return Ok(());
                            } else {
                                return Err(
                                    NessaError::compiler_error(
                                        String::from_str(
                                            "N-ary operation needed by the interface is ambiguous",
                                        ),
                                        l,
                                        Vec::new(),
                                    ),
                                );
                            }
                        },
                        None => {},
                    }
                    match self.get_first_nary_op(mem.op_id, a0c, restc, None, true, l) {
                        Ok((_ov, rt, _has, _targs)) => {
                            if !rt.bindable_to(&ret_sub, self) {
                                return Err(
                                    NessaError::compiler_error(
                                        String::from_str(
                                            "N-ary operation needed by the interface returns a type that is not bindable to the required one",
                                        ),
                                        l,
                                        Vec::new(),
                                    ),
                                );
                            }
                        },
                        Err(_e) => {
                            return Err(
                                NessaError::compiler_error(
                                    String::from_str(
                                        "Unable to find the n-ary operation overload needed by the interface",
                                    ),
                                    l,
                                    Vec::new(),
                                ),
                            );
                        },
                    }
                    k4 = k4 + 1;
                }
                proof {
                    assert(iface.nary@.skip(iface.nary@.len() as int)
                        =~= Seq::<crate::interfaces::InterfaceNaryOp>::empty());
                }
                Ok(())
            },
            _ => Ok(()),
        }
    }
}

/// The largest template count among an interface's function members.
#[verifier::loop_isolation(false)]
fn max_fn_templates(fns: &Vec<crate::interfaces::InterfaceFn>) -> (r: usize)
    ensures
        r as int == spec_max_fn_tms(fns@),
{
    proof {
        assert(fns@.take(0) =~= Seq::<crate::interfaces::InterfaceFn>::empty());
    }
    let mut best: usize = 0;
    let mut k: usize = 0;
    while k < fns.len()
        invariant
            k <= fns@.len(),
            best as int == spec_max_fn_tms(fns@.take(k as int)),
        decreases fns@.len() - k,
    {
        let own: usize = match &fns[k].templates {
            Some(v) => v.len(),
            None => 0,
        };
        if own > best {
            best = own;
        }
        proof {
            assert(fns@.take(k as int + 1).drop_last() =~= fns@.take(k as int));
            assert(fns@.take(k as int + 1).last() == fns@[k as int]);
        }
        k = k + 1;
    }
    proof {
        assert(fns@.take(fns@.len() as int) =~= fns@);
    }
    best
}

/// The largest template count among an interface's unary members.
#[verifier::loop_isolation(false)]
fn max_un_templates(uns: &Vec<crate::interfaces::InterfaceUnaryOp>) -> (r: usize)
    ensures
        r as int == spec_max_un_tms(uns@),
{
    proof {
        assert(uns@.take(0) =~= Seq::<crate::interfaces::InterfaceUnaryOp>::empty());
    }
    let mut best: usize = 0;
    let mut k: usize = 0;
    while k < uns.len()
        invariant
            k <= uns@.len(),
            best as int == spec_max_un_tms(uns@.take(k as int)),
        decreases uns@.len() - k,
    {
        let own: usize = uns[k].templates.len();
        if own > best {
            best = own;
        }
        proof {
            assert(uns@.take(k as int + 1).drop_last() =~= uns@.take(k as int));
            assert(uns@.take(k as int + 1).last() == uns@[k as int]);
        }
        k = k + 1;
    }
    proof {
        assert(uns@.take(uns@.len() as int) =~= uns@);
    }
    best
}

/// The largest template count among an interface's binary members.
#[verifier::loop_isolation(false)]
fn max_bin_templates(bin: &Vec<crate::interfaces::InterfaceBinaryOp>) -> (r: usize)
    ensures
        r as int == spec_max_bin_tms(bin@),
{
    proof {
        assert(bin@.take(0) =~= Seq::<crate::interfaces::InterfaceBinaryOp>::empty());
    }
    let mut best: usize = 0;
    let mut k: usize = 0;
    while k < bin.len()
        invariant
            k <= bin@.len(),
            best as int == spec_max_bin_tms(bin@.take(k as int)),
        decreases bin@.len() - k,
    {
        let own: usize = bin[k].templates.len();
        if own > best {
            best = own;
        }
        proof {
            assert(bin@.take(k as int + 1).drop_last() =~= bin@.take(k as int));
            assert(bin@.take(k as int + 1).last() == bin@[k as int]);
        }
        k = k + 1;
    }
    proof {
        assert(bin@.take(bin@.len() as int) =~= bin@);
    }
    best
}

/// The largest template count among an interface's n-ary members.
#[verifier::loop_isolation(false)]
fn max_nary_templates(nary: &Vec<crate::interfaces::InterfaceNaryOp>) -> (r: usize)
    ensures
        r as int == spec_max_nary_tms(nary@),
{
    proof {
        assert(nary@.take(0) =~= Seq::<crate::interfaces::InterfaceNaryOp>::empty());
    }
    let mut best: usize = 0;
    let mut k: usize = 0;
    while k < nary.len()
        invariant
            k <= nary@.len(),
            best as int == spec_max_nary_tms(nary@.take(k as int)),
        decreases nary@.len() - k,
    {
        let own: usize = nary[k].templates.len();
        if own > best {
            best = own;
        }
        proof {
            assert(nary@.take(k as int + 1).drop_last() =~= nary@.take(k as int));
            assert(nary@.take(k as int + 1).last() == nary@[k as int]);
        }
        k = k + 1;
    }
    proof {
        assert(nary@.take(nary@.len() as int) =~= nary@);
    }
    best
}

/// The name begins with an upper-case letter of the basic alphabet.
pub open spec fn spec_upper_start(s: Seq<char>) -> bool {
    s.len() > 0 && 'A' <= s[0] && s[0] <= 'Z'
}

/// The name begins with a lower-case letter of the basic alphabet.
pub open spec fn spec_lower_start(s: Seq<char>) -> bool {
    s.len() > 0 && 'a' <= s[0] && s[0] <= 'z'
}

pub open spec fn spec_names_upper(ts: Seq<String>) -> bool {
    forall|k: int| 0 <= k < ts.len() ==> spec_upper_start((#[trigger] ts[k])@)
}

/// The naming conventions the format pass warns about: class,
/// interface and template-parameter names begin upper-case, function
/// names begin lower-case.
pub open spec fn spec_formats_ok(ctx: NessaContext, e: NessaExpr) -> bool {
    match e {
        NessaExpr::ClassDefinition(_, _, n, ts, _, _, _) => spec_upper_start(n@)
            && spec_names_upper(ts@),
        NessaExpr::FunctionDefinition(_, _, id, ts, _, _, _) => spec_lower_start(
            ctx.functions@[id as int].name@,
        ) && spec_names_upper(ts@),
        NessaExpr::InterfaceDefinition(_, _, n, ts, fns, _, _, _) => spec_upper_start(n@)
            && spec_names_upper(ts@) && (forall|k: int|
            0 <= k < fns@.len() ==> spec_lower_start((#[trigger] fns@[k]).name@) && (
            match fns@[k].templates {
                Some(inner) => spec_names_upper(inner@),
                None => true,
            })),
        _ => true,
    }
}

/// Whether the name starts with an upper-case letter.
fn upper_start(s: &String) -> (r: bool)
    ensures
        r == spec_upper_start(s@),
{
    let st = s.as_str();
    if st.unicode_len() == 0 {
        return false;
    }
    let c = st.get_char(0);
    'A' <= c && c <= 'Z'
}

/// Whether the name starts with a lower-case letter.
fn lower_start(s: &String) -> (r: bool)
    ensures
        r == spec_lower_start(s@),
{
    let st = s.as_str();
    if st.unicode_len() == 0 {
        return false;
    }
    let c = st.get_char(0);
    'a' <= c && c <= 'z'
}

/// A warning value at a location.
fn format_warning(l: &Location, text: &str) -> (r: (Location, String)) {
    (
        Location {
            module: crate::types::clone_string(&l.module),
            row: l.row,
            column: l.column,
            span: l.span,
        },
        String::from_str(text),
    )
}

/// Append a warning for every template-parameter name that does not
/// start upper-case.
#[verifier::loop_isolation(false)]
fn warn_templates(ts: &Vec<String>, l: &Location, out: &mut Vec<(Location, String)>)
    ensures
        final(out)@.len() >= old(out)@.len(),
        (final(out)@.len() == old(out)@.len()) == spec_names_upper(ts@),
{
    let mut k: usize = 0;
    while k < ts.len()
        invariant
            k <= ts@.len(),
            out@.len() >= old(out)@.len(),
            (out@.len() == old(out)@.len()) == (forall|x: int|
                0 <= x < k ==> spec_upper_start((#[trigger] ts@[x])@)),
        decreases ts@.len() - k,
    {
        if !upper_start(&ts[k]) {
            out.push(format_warning(l, "Template parameter names should start upper-case"));
        }
        k = k + 1;
    }
}

impl NessaContext {
    /// The format pass: it never fails, and yields one warning for
    /// each name that breaks the naming conventions; an empty result
    /// means every name conforms.
    #[verifier::loop_isolation(false)]
    pub fn check_formats(&self, expr: &NessaExpr) -> (warnings: Vec<(Location, String)>)
        requires
            spec_check_wf(*self, *expr),
        ensures
            (warnings@.len() == 0) == spec_formats_ok(*self, *expr),
    {
        let mut out: Vec<(Location, String)> = Vec::new();
        match expr {
            NessaExpr::ClassDefinition(l, _, n, ts, _, _, _) => {
                if !upper_start(n) {
                    out.push(format_warning(l, "Class names should start upper-case"));
                }
                warn_templates(ts, l, &mut out);
                out
            },
            NessaExpr::FunctionDefinition(l, _, id, ts, _, _, _) => {
                if !lower_start(&self.functions[*id].name) {
                    out.push(format_warning(l, "Function names should start lower-case"));
                }
                warn_templates(ts, l, &mut out);
                out
            },
            NessaExpr::InterfaceDefinition(l, _, n, ts, fns, _, _, _) => {
                if !upper_start(n) {
                    out.push(format_warning(l, "Interface names should start upper-case"));
                }
                warn_templates(ts, l, &mut out);
                let ghost base = out@.len();
                let mut k: usize = 0;
                while k < fns.len()
                    invariant
                        k <= fns@.len(),
                        out@.len() >= base,
                        (out@.len() == base) == (forall|x: int|
                            0 <= x < k ==> spec_lower_start((#[trigger] fns@[x]).name@) && (
                            match fns@[x].templates {
                                Some(inner) => spec_names_upper(inner@),
                                None => true,
                            })),
                    decreases fns@.len() - k,
                {
                    if !lower_start(&fns[k].name) {
                        out.push(format_warning(l, "Function names should start lower-case"));
                    }
                    match &fns[k].templates {
                        Some(inner) => {
                            warn_templates(inner, l, &mut out);
                        },
                        None => {},
                    }
                    k = k + 1;
                }
                out
            },
            _ => out,
        }
    }
}

impl NessaContext {
    /// Run every checker pass on the expression, in order: repeated
    /// arguments, written `SelfType`, typing, ambiguity, returns
    /// against the expected type, break and continue legality, class
    /// attributes, macro markers, interface implementations and
    /// annotations; naming-convention warnings are computed last and
    /// are not fatal. The result is the conjunction of the passes.
    pub fn static_check_expected(&self, expr: &NessaExpr, expected: &Option<Type>) -> (r: Result<
        (),
        NessaError,
    >)
        requires
            spec_checkable(*expr),
            spec_check_wf(*self, *expr),
            expected is Some ==> spec_body_stmt(*expr),
        ensures
            (r is Ok) == ({
                &&& spec_repeated_args_ok(*expr)
                &&& spec_no_self_ok(*expr)
                &&& spec_type_ok(*self, *expr)
                &&& spec_ambiguity_ok(*self, *expr)
                &&& spec_return_ok(
                    *self,
                    *expr,
                    match expected {
                        Some(t) => Some(t@),
                        None => None,
                    },
                )
                &&& spec_break_ok(*expr, false)
                &&& spec_class_ok(*expr)
                &&& spec_macro_ok(*expr)
                &&& spec_iface_impl_checked(*self, *expr)
                &&& spec_annotations_ok(*expr)
            }),
    {
        let r1 = self.repeated_arguments_check(expr);
        if r1.is_err() {
            return r1;
        }
        let r2 = self.invalid_type_check(expr);
        if r2.is_err() {
            return r2;
        }
        let r3 = self.type_check(expr);
        if r3.is_err() {
            return r3;
        }
        let r4 = self.ambiguity_check(expr);
        if r4.is_err() {
            return r4;
        }
        let r5 = self.return_check(expr, expected);
        if r5.is_err() {
            return r5;
        }
        let r6 = NessaContext::break_continue_check(expr, false);
        if r6.is_err() {
            return r6;
        }
        let r7 = self.class_check(expr);
        if r7.is_err() {
            return r7;
        }
        let r8 = self.macro_check(expr);
        if r8.is_err() {
            return r8;
        }
        let r9 = self.interface_impl_check(expr);
        if r9.is_err() {
            return r9;
        }
        let r10 = self.annotation_checks(expr);
        if r10.is_err() {
            return r10;
        }
        let _warnings = self.check_formats(expr);
        Ok(())
    }

    /// Run every checker pass with no expected return type: the entry
    /// point for top-level declarations and statements.
    pub fn static_check(&self, expr: &NessaExpr) -> (r: Result<(), NessaError>)
        requires
            spec_checkable(*expr),
            spec_check_wf(*self, *expr),
        ensures
            (r is Ok) == ({
                &&& spec_repeated_args_ok(*expr)
                &&& spec_no_self_ok(*expr)
                &&& spec_type_ok(*self, *expr)
                &&& spec_ambiguity_ok(*self, *expr)
                &&& spec_return_ok(*self, *expr, None)
                &&& spec_break_ok(*expr, false)
                &&& spec_class_ok(*expr)
                &&& spec_macro_ok(*expr)
                &&& spec_iface_impl_checked(*self, *expr)
                &&& spec_annotations_ok(*expr)
            }),
    {
        self.static_check_expected(expr, &None)
    }
}

/// A generic declaration the typing pass accepts uses every declared
/// template parameter: each index below the template-list length is
/// mentioned by the argument or return types.
pub proof fn lemma_generic_declaration_uses_templates(
    ctx: NessaContext,
    e: NessaExpr,
    t: Seq<String>,
    args: Seq<(String, Type)>,
    ret: Type,
)
    requires
        spec_type_ok(ctx, e),
        e matches NessaExpr::FunctionDefinition(_, _, _, t2, args2, ret2, _) && t2@ == t && args2@
            == args && ret2 == ret,
        t.len() > 0,
    ensures
        forall|i: int|
            0 <= i < t.len() ==> crate::types::spec_deps(ret@).union(
                spec_named_deps(args),
            ).contains(i),
{
}

/// Check a list of lines for break and continue legality.
#[verifier::loop_isolation(false)]
fn break_continue_lines(lines: &Vec<NessaExpr>, allowed: bool) -> (r: Result<(), NessaError>)
    requires
        spec_all_checkable(lines@),
    ensures
        (r is Ok) == spec_break_lines_ok(lines@, allowed),
    decreases lines,
{
    let mut j: usize = 0;
    while j < lines.len()
        invariant
            j <= lines@.len(),
            forall|k: int| 0 <= k < j ==> spec_break_ok(#[trigger] lines@[k], allowed),
        decreases lines@.len() - j,
    {
        let rl = NessaContext::break_continue_check(&lines[j], allowed);
        if rl.is_err() {
            return rl;
        }
        j = j + 1;
    }
    Ok(())
}

} // verus!
