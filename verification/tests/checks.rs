use nessa_core::standard_ctx;
use nessa_core::Location;
use nessa_core::NessaExpr;
use nessa_core::Type;

fn int_t() -> Type {
    Type::Basic(1)
}

fn bool_t() -> Type {
    Type::Basic(0)
}

fn string_t() -> Type {
    Type::Basic(2)
}

fn array_of(t: Type) -> Type {
    Type::Template(5, vec![t])
}

fn mut_of(t: Type) -> Type {
    Type::MutRef(Box::new(t))
}

fn or2(a: Type, b: Type) -> Type {
    Type::Or(vec![a, b])
}

fn lit(t: Type) -> NessaExpr {
    NessaExpr::Literal(Location::none(), t)
}

fn let_def(name: &str, t: Type, value: NessaExpr) -> NessaExpr {
    NessaExpr::CompiledVariableDefinition(Location::none(), 0, name.to_string(), t, Box::new(value))
}

fn assign(name: &str, t: Type, value: NessaExpr) -> NessaExpr {
    NessaExpr::CompiledVariableAssignment(Location::none(), 0, name.to_string(), t, Box::new(value))
}

#[test]
fn type_checks() {
    let ctx = standard_ctx();

    // let n: Int = 10; let a: Int = 5 + n; a = 3; all check.
    let n_var = NessaExpr::Variable(Location::none(), 0, "n".to_string(), int_t());
    let sum = NessaExpr::BinaryOperation(
        Location::none(),
        0,
        vec![],
        Box::new(lit(int_t())),
        Box::new(n_var),
    );
    assert!(ctx.type_check(&let_def("n", int_t(), lit(int_t()))).is_ok());
    assert!(ctx.type_check(&let_def("a", int_t(), sum)).is_ok());
    assert!(ctx.type_check(&assign("a", int_t(), lit(int_t()))).is_ok());

    // let a: String = 5; must fail.
    assert!(ctx.type_check(&let_def("a", string_t(), lit(int_t()))).is_err());

    // a = "Test"; where a: Int must fail.
    assert!(ctx.type_check(&assign("a", int_t(), lit(string_t()))).is_err());

    // let c: Array<Int> = 5; must fail.
    assert!(ctx.type_check(&let_def("c", array_of(int_t()), lit(int_t()))).is_err());

    // let c: Array<Int> = arr<Int>(); checks, and c = arr<String>();
    // must fail.
    let arr_int = NessaExpr::FunctionCall(Location::none(), 1, vec![int_t()], vec![]);
    assert!(ctx.type_check(&let_def("c", array_of(int_t()), arr_int)).is_ok());
    let arr_str = NessaExpr::FunctionCall(Location::none(), 1, vec![string_t()], vec![]);
    assert!(ctx.type_check(&assign("c", array_of(int_t()), arr_str)).is_err());
}

#[test]
fn function_ambiguity_check() {
    let mut ctx = standard_ctx();

    // fn inc(a: String) -> @String beside the standard inc(@Int) is
    // fine, and neither call is ambiguous.
    assert!(ctx
        .def_function_overload(0, 0, vec![string_t()], mut_of(string_t()), None)
        .is_ok());
    assert!(ctx.is_function_overload_ambiguous(0, vec![mut_of(int_t())]).is_none());
    assert!(ctx.is_function_overload_ambiguous(0, vec![string_t()]).is_none());

    // fn test(Bool | String) -> String and fn test(Bool | Int) ->
    // String make test(true) ambiguous.
    assert!(ctx.define_function("test".to_string()).is_ok());
    let id = ctx.functions.len() - 1;
    assert!(ctx
        .def_function_overload(id, 0, vec![or2(bool_t(), string_t())], string_t(), None)
        .is_ok());
    assert!(ctx
        .def_function_overload(id, 0, vec![or2(bool_t(), int_t())], string_t(), None)
        .is_ok());
    assert!(ctx.is_function_overload_ambiguous(id, vec![bool_t()]).is_some());
    let call = NessaExpr::FunctionCall(Location::none(), id, vec![], vec![lit(bool_t())]);
    assert!(ctx.ambiguity_check(&call).is_err());
    let fine = NessaExpr::FunctionCall(Location::none(), 0, vec![], vec![lit(string_t())]);
    assert!(ctx.ambiguity_check(&fine).is_ok());
}

#[test]
fn unary_ambiguity_check() {
    let mut ctx = standard_ctx();

    // op !(a: String) -> @String beside the standard overload; !"Test"
    // is unambiguous.
    assert!(ctx.def_unary_operation(0, 0, string_t(), mut_of(string_t()), None).is_ok());
    assert!(ctx.is_unary_op_ambiguous(0, string_t()).is_none());

    // op !(Int | String) and op !(Int | Array<*>) make !5 ambiguous.
    let mut ctx = standard_ctx();
    assert!(ctx
        .def_unary_operation(0, 0, or2(int_t(), string_t()), string_t(), None)
        .is_ok());
    assert!(ctx
        .def_unary_operation(0, 0, or2(int_t(), array_of(Type::Wildcard)), string_t(), None)
        .is_ok());
    assert!(ctx.is_unary_op_ambiguous(0, int_t()).is_some());
    let bang = NessaExpr::UnaryOperation(Location::none(), 0, vec![], Box::new(lit(int_t())));
    assert!(ctx.ambiguity_check(&bang).is_err());
}

#[test]
fn binary_ambiguity_check() {
    let mut ctx = standard_ctx();

    // op (String) + (Bool) -> @String; "Test" + true is unambiguous.
    assert!(ctx
        .def_binary_operation(0, 0, string_t(), bool_t(), mut_of(string_t()), None)
        .is_ok());
    assert!(ctx.is_binary_op_ambiguous(0, string_t(), bool_t()).is_none());

    // (String) + (Int | Bool) and (String) + (Int | Array<*>) make
    // "Test" + 5 ambiguous.
    let mut ctx = standard_ctx();
    assert!(ctx
        .def_binary_operation(0, 0, string_t(), or2(int_t(), bool_t()), string_t(), None)
        .is_ok());
    assert!(ctx
        .def_binary_operation(
            0,
            0,
            string_t(),
            or2(int_t(), array_of(Type::Wildcard)),
            string_t(),
            None
        )
        .is_ok());
    assert!(ctx.is_binary_op_ambiguous(0, string_t(), int_t()).is_some());
    let plus = NessaExpr::BinaryOperation(
        Location::none(),
        0,
        vec![],
        Box::new(lit(string_t())),
        Box::new(lit(int_t())),
    );
    assert!(ctx.ambiguity_check(&plus).is_err());
}

#[test]
fn nary_ambiguity_check() {
    let mut ctx = standard_ctx();

    // A fresh indexing operator with (String)[Bool] -> @String;
    // "Test"[true] is unambiguous.
    assert!(ctx.define_nary_operator("[".to_string(), "]".to_string()).is_ok());
    let id = ctx.nary_ops.len() - 1;
    assert!(ctx
        .def_nary_operation(id, 0, string_t(), vec![bool_t()], mut_of(string_t()), None)
        .is_ok());
    assert!(ctx.is_nary_op_ambiguous(id, string_t(), vec![bool_t()]).is_none());

    // (String)[Bool | String] and (String)[Bool | Array<*>] make
    // "Test"[true] ambiguous.
    let mut ctx = standard_ctx();
    assert!(ctx.define_nary_operator("[".to_string(), "]".to_string()).is_ok());
    let id = ctx.nary_ops.len() - 1;
    assert!(ctx
        .def_nary_operation(id, 0, string_t(), vec![or2(bool_t(), string_t())], string_t(), None)
        .is_ok());
    assert!(ctx
        .def_nary_operation(
            id,
            0,
            string_t(),
            vec![or2(bool_t(), array_of(Type::Wildcard))],
            string_t(),
            None
        )
        .is_ok());
    assert!(ctx.is_nary_op_ambiguous(id, string_t(), vec![bool_t()]).is_some());
    let index = NessaExpr::NaryOperation(
        Location::none(),
        id,
        vec![],
        Box::new(lit(string_t())),
        vec![lit(bool_t())],
    );
    assert!(ctx.ambiguity_check(&index).is_err());
}

fn fn_def(id: usize, arg_t: Type, ret: Type, body: Vec<NessaExpr>) -> NessaExpr {
    NessaExpr::FunctionDefinition(
        Location::none(),
        vec![],
        id,
        vec![],
        vec![("a".to_string(), arg_t)],
        ret,
        body,
    )
}

#[test]
fn return_type_check() {
    let ctx = standard_ctx();

    // fn test(a: String) -> @String { return a; } checks.
    let ret_a = NessaExpr::Return(
        Location::none(),
        Box::new(NessaExpr::Variable(Location::none(), 0, "a".to_string(), string_t())),
    );
    let ok_def = fn_def(0, string_t(), mut_of(string_t()), vec![ret_a]);
    assert!(ctx.return_check(&ok_def, &None).is_ok());

    // fn test(a: String) -> Int { return a; } must fail.
    let ret_a2 = NessaExpr::Return(
        Location::none(),
        Box::new(NessaExpr::Variable(Location::none(), 0, "a".to_string(), string_t())),
    );
    let bad_def = fn_def(0, string_t(), int_t(), vec![ret_a2]);
    assert!(ctx.return_check(&bad_def, &None).is_err());
}

#[test]
fn ensured_return_check() {
    let ctx = standard_ctx();
    let ret0 = || NessaExpr::Return(Location::none(), Box::new(lit(int_t())));
    let let_a = || {
        NessaExpr::CompiledVariableDefinition(
            Location::none(),
            0,
            "a".to_string(),
            int_t(),
            Box::new(lit(int_t())),
        )
    };

    // if true { return 0; } else { return 1; } passes.
    let if_both = NessaExpr::If(
        Location::none(),
        Box::new(lit(bool_t())),
        vec![ret0()],
        vec![],
        Some(vec![ret0()]),
    );
    let def_both = fn_def(0, int_t(), int_t(), vec![if_both]);
    assert!(nessa_core::NessaContext::ensured_return_check(&def_both).is_ok());

    // if true { let a = 0; } else { return 1; } return 0; passes, and
    // without the trailing return it fails.
    let if_half = |tail: Vec<NessaExpr>| {
        let mut body = vec![NessaExpr::If(
            Location::none(),
            Box::new(lit(bool_t())),
            vec![let_a()],
            vec![],
            Some(vec![ret0()]),
        )];
        body.extend(tail);
        fn_def(0, bool_t(), int_t(), body)
    };
    assert!(nessa_core::NessaContext::ensured_return_check(&if_half(vec![ret0()])).is_ok());
    assert!(nessa_core::NessaContext::ensured_return_check(&if_half(vec![])).is_err());
}

#[test]
fn class_check() {
    let ctx = standard_ctx();
    let class = |attrs: Vec<(String, Type)>| {
        NessaExpr::ClassDefinition(
            Location::none(),
            vec![],
            "Test".to_string(),
            vec![],
            attrs,
            None,
            vec![],
        )
    };

    // Distinct attribute names pass; a repeated one fails.
    let ok = class(vec![
        ("att_1".to_string(), int_t()),
        ("att_2".to_string(), Type::And(vec![string_t(), int_t()])),
        ("att_3".to_string(), or2(int_t(), array_of(int_t()))),
    ]);
    assert!(ctx.class_check(&ok).is_ok());
    let bad = class(vec![
        ("att_1".to_string(), int_t()),
        ("att_1".to_string(), Type::And(vec![string_t(), int_t()])),
        ("att_3".to_string(), or2(int_t(), array_of(int_t()))),
    ]);
    assert!(ctx.class_check(&bad).is_err());

    // A syntax naming every attribute passes; one missing an
    // attribute fails.
    let attrs = vec![("att_1".to_string(), int_t()), ("att_2".to_string(), bool_t())];
    let full = nessa_core::Pattern {
        markers: vec!["att_1".to_string(), "att_2".to_string()],
    };
    assert!(ctx
        .implicit_syntax_check(&"Test".to_string(), &vec![], &attrs, &vec![full])
        .is_ok());
    let partial = nessa_core::Pattern { markers: vec!["att_1".to_string()] };
    assert!(ctx
        .implicit_syntax_check(&"Test".to_string(), &vec![], &attrs, &vec![partial])
        .is_err());
}

#[test]
fn operation_subsumption() {
    let mut ctx = standard_ctx();

    let def_1 = ctx.def_unary_operation(0, 0, Type::Basic(1), Type::Empty, None);
    let def_2 = ctx.def_unary_operation(0, 0, Type::Basic(0), Type::Empty, None);
    let def_3 = ctx.def_unary_operation(0, 0, Type::Wildcard, Type::Empty, None);

    assert!(def_1.is_ok());
    assert!(def_2.is_err());
    assert!(def_3.is_err());

    let def_1 = ctx.def_binary_operation(0, 0, Type::Basic(0), Type::Basic(1), Type::Empty, None);
    let def_2 = ctx.def_binary_operation(0, 0, Type::Basic(1), Type::Basic(1), Type::Empty, None);
    let def_3 = ctx.def_binary_operation(0, 0, Type::Wildcard, Type::Wildcard, Type::Empty, None);

    assert!(def_1.is_ok());
    assert!(def_2.is_err());
    assert!(def_3.is_err());

    let def_1 = ctx.def_nary_operation(0, 0, Type::Basic(0), vec![Type::Basic(0)], Type::Empty, None);
    let def_2 = ctx.def_nary_operation(
        0,
        0,
        Type::Basic(1),
        vec![Type::Ref(Box::new(Type::Basic(1)))],
        Type::Empty,
        None,
    );
    let def_3 = ctx.def_nary_operation(0, 0, Type::Basic(1), vec![Type::Basic(1)], Type::Empty, None);
    let def_4 = ctx.def_nary_operation(0, 0, Type::Wildcard, vec![Type::Wildcard], Type::Empty, None);

    assert!(def_1.is_ok());
    assert!(def_2.is_ok());
    assert!(def_3.is_err());
    assert!(def_4.is_err());
}

#[test]
fn operator_redefinition() {
    let mut ctx = standard_ctx();

    let def_1 = ctx.define_unary_operator("~".to_string());
    let def_2 = ctx.define_unary_operator("-".to_string());

    assert!(def_1.is_ok());
    assert!(def_2.is_err());

    let def_1 = ctx.define_binary_operator("-".to_string());
    let def_2 = ctx.define_binary_operator("+".to_string());

    assert!(def_1.is_ok());
    assert!(def_2.is_err());

    let def_1 = ctx.define_nary_operator("[".to_string(), "]".to_string());
    let def_2 = ctx.define_nary_operator("(".to_string(), ")".to_string());
    let def_3 = ctx.define_nary_operator("{".to_string(), ")".to_string());
    let def_4 = ctx.define_nary_operator("(".to_string(), "}".to_string());

    assert!(def_1.is_ok());
    assert!(def_2.is_err());
    assert!(def_3.is_err());
    assert!(def_4.is_err());
}

#[test]
fn type_redefinition() {
    let mut ctx = standard_ctx();

    let def_1 = ctx.define_type("Matrix".to_string(), vec![]);
    let def_2 = ctx.define_type("Number".to_string(), vec![]);

    assert!(def_1.is_ok());
    assert!(def_2.is_err());
}

#[test]
fn deref_is_idempotent() {
    // Stripping reference qualifiers twice equals stripping them once.
    let t = mut_of(Type::Ref(Box::new(array_of(int_t()))));
    let once = t.deref_type();
    let twice = once.deref_type();
    assert!(once.type_eq(twice));
    assert!(once.type_eq(&array_of(int_t())));
}

#[test]
fn offset_zero_and_sum() {
    // Offsetting template indices by zero is the identity, and two
    // offsets add up.
    let t = || {
        Type::Function(
            Box::new(Type::TemplateParam(2, vec![])),
            Box::new(array_of(Type::TemplateParam(0, vec![]))),
        )
    };
    let mut a = t();
    a.offset_templates(0);
    assert!(a.type_eq(&t()));

    let mut b = t();
    b.offset_templates(3);
    b.offset_templates(4);
    let mut c = t();
    c.offset_templates(7);
    assert!(b.type_eq(&c));
}

#[test]
fn zero_parameter_function_args() {
    // A zero-parameter overload stores an empty product and accepts
    // the empty call.
    let mut ctx = standard_ctx();
    assert!(ctx.define_function("answer".to_string()).is_ok());
    let id = ctx.functions.len() - 1;
    assert!(ctx.def_function_overload(id, 0, vec![], int_t(), None).is_ok());
    assert!(ctx
        .get_first_function_overload(id, vec![], None, false, &Location::none())
        .is_ok());
    assert!(ctx
        .get_first_function_overload(id, vec![int_t()], None, false, &Location::none())
        .is_err());
}

#[test]
fn self_assignment_of_mutable_place() {
    // `a = a` where `a` holds a mutable reference: the right-hand
    // side's inferred type binds to the declared one.
    let ctx = standard_ctx();
    let a = NessaExpr::Variable(Location::none(), 0, "a".to_string(), mut_of(int_t()));
    let t = ctx.infer_type(&a).ok().unwrap();
    assert!(t.bindable_to(&mut_of(int_t()), &ctx));
}

#[test]
fn if_without_else_never_returns() {
    // An `if` whose then-branch returns still does not guarantee a
    // return without an `else`.
    let ret0 = NessaExpr::Return(Location::none(), Box::new(lit(int_t())));
    let body = vec![NessaExpr::If(
        Location::none(),
        Box::new(lit(bool_t())),
        vec![ret0],
        vec![],
        None,
    )];
    let lines = body;
    assert!(nessa_core::NessaContext::ensured_return_check_body(
        &lines,
        &Location::none(),
        "Function"
    )
    .is_err());
}

#[test]
fn break_outside_loop() {
    // A bare break fails; inside a while it passes; inside a lambda
    // nested in a while it fails again.
    let brk = || NessaExpr::Break(Location::none());
    assert!(nessa_core::NessaContext::break_continue_check(&brk(), false).is_err());

    let in_while = NessaExpr::While(Location::none(), Box::new(lit(bool_t())), vec![brk()]);
    assert!(nessa_core::NessaContext::break_continue_check(&in_while, false).is_ok());

    let lambda = NessaExpr::CompiledLambda(
        Location::none(),
        0,
        vec![],
        vec![("x".to_string(), int_t())],
        int_t(),
        vec![brk()],
    );
    let in_lambda = NessaExpr::While(Location::none(), Box::new(lit(bool_t())), vec![lambda]);
    assert!(nessa_core::NessaContext::break_continue_check(&in_lambda, false).is_err());
}

#[test]
fn bindability_of_sums_and_references() {
    // A mutable reference binds where a shared one is expected; every
    // member of a sum must bind on the value side; one member
    // suffices on the pattern side.
    let ctx = standard_ctx();
    assert!(mut_of(int_t()).bindable_to(&Type::Ref(Box::new(int_t())), &ctx));
    assert!(!Type::Ref(Box::new(int_t())).bindable_to(&mut_of(int_t()), &ctx));
    assert!(int_t().bindable_to(&or2(bool_t(), int_t()), &ctx));
    assert!(!or2(bool_t(), int_t()).bindable_to(&int_t(), &ctx));
    assert!(or2(bool_t(), int_t()).bindable_to(&or2(int_t(), bool_t()), &ctx));
}

#[test]
fn template_substitution_composes() {
    // Substituting a bound parameter, then substituting again, equals
    // substituting by the composed map; on an unbound index the
    // parameter stays.
    let ctx = standard_ctx();
    let t = array_of(Type::TemplateParam(0, vec![]));
    let (ok, subs) = t.bindable_to_substitutions(&array_of(Type::TemplateParam(1, vec![])), &ctx);
    assert!(ok);
    // Template parameter 1 is now bound to parameter 0's argument.
    let r = array_of(Type::TemplateParam(1, vec![])).sub_templates(&subs);
    assert!(r.type_eq(&t));
}

#[test]
fn attribute_assignment_mutability() {
    // class C { a: Int; }: assigning through a mutable reference
    // checks; through a shared reference or from a bare value it
    // fails.
    let mut ctx = standard_ctx();
    assert!(ctx.define_type("C".to_string(), vec![]).is_ok());
    let cid = ctx.type_templates.len() - 1;
    ctx.type_templates[cid].attributes.push(("a".to_string(), int_t()));
    let c_t = Type::Basic(cid);

    let assign_via = |container: Type| {
        NessaExpr::AttributeAssignment(
            Location::none(),
            Box::new(lit(container)),
            Box::new(lit(int_t())),
            0,
        )
    };
    assert!(ctx.type_check(&assign_via(mut_of(c_t.clone_type()))).is_ok());
    assert!(ctx.type_check(&assign_via(Type::Ref(Box::new(c_t.clone_type())))).is_err());
    assert!(ctx.type_check(&assign_via(c_t)).is_err());
}

#[test]
fn template_parameter_unused() {
    // fn f<T>(x: Int) -> Int { return x; } must fail; with x: T it
    // checks.
    let ctx = standard_ctx();
    let body = vec![NessaExpr::Return(
        Location::none(),
        Box::new(NessaExpr::Variable(Location::none(), 0, "x".to_string(), int_t())),
    )];
    let unused = NessaExpr::FunctionDefinition(
        Location::none(),
        vec![],
        0,
        vec!["T".to_string()],
        vec![("x".to_string(), int_t())],
        int_t(),
        body,
    );
    assert!(ctx.type_check(&unused).is_err());
    let used = NessaExpr::FunctionDefinition(
        Location::none(),
        vec![],
        0,
        vec!["T".to_string()],
        vec![("x".to_string(), Type::TemplateParam(0, vec![]))],
        int_t(),
        vec![],
    );
    assert!(ctx.type_check(&used).is_ok());
}

#[test]
fn interface_impl_members_checked() {
    // Implementing Printable requires a print overload on the
    // implementing type.
    let mut ctx = standard_ctx();
    let impl_bool = NessaExpr::InterfaceImplementation(
        Location::none(),
        vec![],
        bool_t(),
        "Printable".to_string(),
        vec![],
    );
    assert!(ctx.interface_impl_check(&impl_bool).is_err());

    assert!(ctx.define_function("print".to_string()).is_ok());
    let pid = ctx.functions.len() - 1;
    assert!(ctx.def_function_overload(pid, 0, vec![bool_t()], Type::Empty, None).is_ok());
    assert!(ctx.interface_impl_check(&impl_bool).is_ok());

    // The same implementation for Int still fails: print takes Bool.
    let impl_int = NessaExpr::InterfaceImplementation(
        Location::none(),
        vec![],
        int_t(),
        "Printable".to_string(),
        vec![],
    );
    assert!(ctx.interface_impl_check(&impl_int).is_err());
}

#[test]
fn static_check_runs_all_passes() {
    // A sound definition passes the whole suite; a stray break inside
    // its body fails it.
    let ctx = standard_ctx();
    let ret_x = NessaExpr::Return(
        Location::none(),
        Box::new(NessaExpr::Variable(Location::none(), 0, "x".to_string(), int_t())),
    );
    let good = NessaExpr::FunctionDefinition(
        Location::none(),
        vec![],
        0,
        vec![],
        vec![("x".to_string(), int_t())],
        mut_of(int_t()),
        vec![ret_x],
    );
    assert!(ctx.static_check(&good).is_ok());

    let bad = NessaExpr::FunctionDefinition(
        Location::none(),
        vec![],
        0,
        vec![],
        vec![("x".to_string(), int_t())],
        mut_of(int_t()),
        vec![NessaExpr::Break(Location::none())],
    );
    assert!(ctx.static_check(&bad).is_err());

    // Naming warnings are not fatal but are reported.
    assert!(ctx.check_formats(&good).is_empty());
    let odd_class = NessaExpr::ClassDefinition(
        Location::none(),
        vec![],
        "test".to_string(),
        vec![],
        vec![("a".to_string(), int_t())],
        None,
        vec![],
    );
    assert!(ctx.check_formats(&odd_class).len() == 1);
}
