//! Overload resolution and type inference: pick the first overload the
//! actual argument types bind into, honouring explicit call-site
//! template arguments, and map each expression to its type.

use vstd::prelude::*;
use vstd::string::StringExecFns;

use crate::ast::{Location, NessaError, NessaExpr};
use crate::bindable::{spec_bind, spec_bindable};
use crate::context::{spec_impls, NessaContext};
use crate::operations::Operation;
use crate::types::{
    lemma_views_index, spec_deref, type_view, views, Type, TypeS, TypeSubs,
};

verus! {

/// The id of the standard `iterator` function.
pub const ITERATOR_FUNC_ID: usize = 2;

/// The id of the standard `next` function.
pub const NEXT_FUNC_ID: usize = 3;

/// The substitutions an overload produced agree with the explicit
/// call-site template arguments: wherever both bind an index, they bind
/// it to the same type.
pub open spec fn spec_agree_seq(subs: Map<int, TypeS>, cs: Seq<TypeS>) -> bool {
    forall|i: int| 0 <= i < cs.len() && subs.dom().contains(i) ==> subs[i] == #[trigger] cs[i]
}

pub open spec fn spec_templates_agree(subs: Map<int, TypeS>, call_t: Option<Seq<TypeS>>) -> bool {
    match call_t {
        None => true,
        Some(cs) => spec_agree_seq(subs, cs),
    }
}

/// First-match resolution: the first overload, in declaration order,
/// that the tuple type binds into and whose substitutions agree with
/// the explicit template arguments; overloads that disagree are
/// rejected and the scan continues.
pub open spec fn spec_resolve(
    ops: Seq<Operation>,
    t: TypeS,
    call_t: Option<Seq<TypeS>>,
    impls: Seq<crate::interfaces::ImplS>,
) -> Option<(int, Map<int, TypeS>)>
    decreases ops.len(),
{
    if ops.len() == 0 {
        None
    } else {
        match spec_bind(t, ops[0].args@, impls, Map::empty(), 2) {
            Some(subs) => if spec_templates_agree(subs, call_t) {
                Some((0, subs))
            } else {
                match spec_resolve(ops.skip(1), t, call_t, impls) {
                    Some((i, s)) => Some((i + 1, s)),
                    None => None,
                }
            },
            None => match spec_resolve(ops.skip(1), t, call_t, impls) {
                Some((i, s)) => Some((i + 1, s)),
                None => None,
            },
        }
    }
}

/// A successful resolution yields an overload index in range.
pub proof fn lemma_resolve_bounds(
    ops: Seq<Operation>,
    t: TypeS,
    call_t: Option<Seq<TypeS>>,
    impls: Seq<crate::interfaces::ImplS>,
)
    ensures
        spec_resolve(ops, t, call_t, impls) matches Some(p) ==> 0 <= p.0 < ops.len(),
    decreases ops.len(),
{
    if ops.len() > 0 {
        lemma_resolve_bounds(ops.skip(1), t, call_t, impls);
    }
}

/// The full substitution vector of an overload with `n` template
/// parameters: bound indices from the substitution, unbound ones left
/// as bare parameters.
pub open spec fn spec_t_args(subs: Map<int, TypeS>, n: int) -> Seq<TypeS> {
    Seq::new(
        n as nat,
        |i: int|
            if subs.dom().contains(i) {
                subs[i]
            } else {
                TypeS::TemplateParam(i, Seq::empty())
            },
    )
}

/// What a successful resolution returns: overload index, return type
/// (substituted or not), whether the overload has an implementation,
/// and the substitution vector.
pub open spec fn spec_resolution_ok(
    ops: Seq<Operation>,
    t: TypeS,
    call_t: Option<Seq<TypeS>>,
    impls: Seq<crate::interfaces::ImplS>,
    sub_t: bool,
    r: (usize, Type, bool, Vec<Type>),
) -> bool {
    match spec_resolve(ops, t, call_t, impls) {
        Some((i, subs)) => {
            &&& r.0 == i
            &&& r.1@ == if sub_t {
                crate::types::spec_sub_templates(ops[i].ret@, subs)
            } else {
                ops[i].ret@
            }
            &&& r.2 == (ops[i].operation is Some)
            &&& views(r.3@) == spec_t_args(subs, ops[i].templates as int)
        },
        None => false,
    }
}

/// The first overload the tuple type binds into, honouring explicit
/// template arguments; shared by the four resolver entry points.
#[verifier::loop_isolation(false)]
fn first_overload(
    ctx: &NessaContext,
    ops: &Vec<Operation>,
    t: &Type,
    call_templates: &Option<Vec<Type>>,
    sub_t: bool,
) -> (r: Option<(usize, Type, bool, Vec<Type>)>)
    ensures
        ({
            let ct = match call_templates {
                Some(v) => Some(views(v@)),
                None => None,
            };
            match r {
                Some(res) => spec_resolution_ok(ops@, t@, ct, spec_impls(*ctx), sub_t, res),
                None => spec_resolve(ops@, t@, ct, spec_impls(*ctx)) is None,
            }
        }),
{
    let ghost ct: Option<Seq<TypeS>> = match call_templates {
        Some(v) => Some(views(v@)),
        None => None,
    };
    proof {
        if call_templates is Some {
            lemma_views_index(call_templates->0@);
        }
        assert(ops@.skip(0) =~= ops@);
    }
    let mut j: usize = 0;
    while j < ops.len()
        invariant
            j <= ops@.len(),
            ({
                let rem = spec_resolve(ops@.skip(j as int), t@, ct, spec_impls(*ctx));
                let full = spec_resolve(ops@, t@, ct, spec_impls(*ctx));
                match rem {
                    Some((i, s)) => full == Some((i + j, s)),
                    None => full is None,
                }
            }),
        decreases ops@.len() - j,
    {
        let (ok, subs) = t.bindable_to_substitutions(&ops[j].args, ctx);
        if ok {
            let ghost subs_map = spec_bind(t@, ops@[j as int].args@, spec_impls(*ctx), Map::empty(), 2).unwrap();
            let mut agree = true;
            let ghost mut bad_k: int = 0;
            match call_templates {
                Some(cts) => {
                    let mut i: usize = 0;
                    while i < cts.len()
                        invariant
                            i <= cts@.len(),
                            subs@ == subs_map,
                            ct == Some(views(cts@)),
                            views(cts@).len() == cts@.len(),
                            forall|k: int|
                                0 <= k < cts@.len() ==> views(cts@)[k] == type_view(
                                    #[trigger] cts@[k],
                                ),
                            agree ==> forall|k: int|
                                0 <= k < i && subs_map.dom().contains(k) ==> subs_map[k]
                                    == #[trigger] views(cts@)[k],
                            !agree ==> 0 <= bad_k < cts@.len() && subs_map.dom().contains(bad_k)
                                && subs_map[bad_k] != views(cts@)[bad_k],
                        decreases cts@.len() - i,
                    {
                        match subs.get(i) {
                            Some(bound) => {
                                if !bound.type_eq(&cts[i]) {
                                    if agree {
                                        agree = false;
                                        proof {
                                            bad_k = i as int;
                                        }
                                    }
                                }
                            },
                            None => {},
                        }
                        i = i + 1;
                    }
                    proof {
                        if !agree {
                            assert(!spec_templates_agree(subs_map, ct)) by {
                                let trig = views(cts@)[bad_k];
                                if spec_agree_seq(subs_map, views(cts@)) {
                                    assert(subs_map[bad_k] == trig);
                                    assert(false);
                                }
                            }
                        } else {
                            assert(spec_templates_agree(subs_map, ct));
                        }
                    }
                },
                None => {},
            }
            if agree {
                proof {
                    assert(spec_templates_agree(subs_map, ct));
                    assert(ops@.skip(j as int)[0] == ops@[j as int]);
                }
                // Recover the substitution vector of the overload.
                let n = ops[j].templates;
                let mut t_args: Vec<Type> = Vec::new();
                let mut i2: usize = 0;
                while i2 < n
                    invariant
                        i2 <= n,
                        subs@ == subs_map,
                        t_args@.len() == i2,
                        forall|k: int|
                            0 <= k < i2 ==> type_view(#[trigger] t_args@[k]) == spec_t_args(
                                subs_map,
                                n as int,
                            )[k],
                    decreases n - i2,
                {
                    match subs.get(i2) {
                        Some(bound) => {
                            let c = bound.clone_type();
                            t_args.push(c);
                        },
                        None => {
                            t_args.push(Type::TemplateParam(i2, Vec::new()));
                            proof {
                                assert(crate::types::views_cs(
                                    Seq::<crate::types::InterfaceConstraint>::empty(),
                                ) =~= Seq::<crate::types::ConstraintS>::empty());
                            }
                        },
                    }
                    i2 = i2 + 1;
                }
                proof {
                    lemma_views_index(t_args@);
                    assert forall|k: int| 0 <= k < n implies views(t_args@)[k] == spec_t_args(
                        subs_map,
                        n as int,
                    )[k] by {
                        assert(views(t_args@)[k] == type_view(t_args@[k]));
                    }
                    assert(views(t_args@) =~= spec_t_args(subs_map, n as int));
                }
                let ret = if sub_t {
                    ops[j].ret.sub_templates(&subs)
                } else {
                    ops[j].ret.clone_type()
                };
                let has_impl = ops[j].operation.is_some();
                return Some((j, ret, has_impl, t_args));
            } else {
                proof {
                    assert(ops@.skip(j as int)[0] == ops@[j as int]);
                    assert(ops@.skip(j as int).len() == ops@.len() - j);
                    assert(!spec_templates_agree(subs_map, ct));
                    assert(ops@.skip(j as int).skip(1) =~= ops@.skip(j as int + 1));
                    let rem1 = spec_resolve(ops@.skip(j as int + 1), t@, ct, spec_impls(*ctx));
                    if rem1 is Some {
                        assert(spec_resolve(ops@.skip(j as int), t@, ct, spec_impls(*ctx))
                            == Some((rem1.unwrap().0 + 1, rem1.unwrap().1)));
                    } else {
                        assert(spec_resolve(ops@.skip(j as int), t@, ct, spec_impls(*ctx)) is None);
                    }
                }
            }
        } else {
            proof {
                assert(ops@.skip(j as int)[0] == ops@[j as int]);
                assert(ops@.skip(j as int).len() == ops@.len() - j);
                assert(ops@.skip(j as int).skip(1) =~= ops@.skip(j as int + 1));
                let rem1 = spec_resolve(ops@.skip(j as int + 1), t@, ct, spec_impls(*ctx));
                if rem1 is Some {
                    assert(spec_resolve(ops@.skip(j as int), t@, ct, spec_impls(*ctx)) == Some(
                        (rem1.unwrap().0 + 1, rem1.unwrap().1),
                    ));
                } else {
                    assert(spec_resolve(ops@.skip(j as int), t@, ct, spec_impls(*ctx)) is None);
                }
            }
        }
        j = j + 1;
    }
    proof {
        assert(ops@.skip(ops@.len() as int) =~= Seq::<Operation>::empty());
    }
    None
}

/// An overload accepts the tuple type.
pub open spec fn spec_accepts(
    op: Operation,
    t: TypeS,
    impls: Seq<crate::interfaces::ImplS>,
) -> bool {
    spec_bindable(t, op.args@, impls)
}

/// How many overloads accept the tuple type.
pub open spec fn spec_accept_count(
    ops: Seq<Operation>,
    t: TypeS,
    impls: Seq<crate::interfaces::ImplS>,
) -> int
    decreases ops.len(),
{
    if ops.len() == 0 {
        0
    } else {
        (if spec_accepts(ops[0], t, impls) {
            1int
        } else {
            0int
        }) + spec_accept_count(ops.skip(1), t, impls)
    }
}

pub proof fn lemma_accept_count_nonneg(
    ops: Seq<Operation>,
    t: TypeS,
    impls: Seq<crate::interfaces::ImplS>,
)
    ensures
        spec_accept_count(ops, t, impls) >= 0,
    decreases ops.len(),
{
    if ops.len() > 0 {
        lemma_accept_count_nonneg(ops.skip(1), t, impls);
    }
}

/// The map that sends each position of the sequence to its element,
/// used for call-site template substitution.
pub open spec fn spec_enum_map(s: Seq<TypeS>) -> Map<int, TypeS> {
    Map::new(|i: int| 0 <= i < s.len(), |i: int| s[i])
}

/// The types of a named-parameter list.
pub open spec fn spec_named_types(s: Seq<(String, Type)>) -> Seq<TypeS> {
    Seq::new(s.len(), |i: int| type_view(s[i].1))
}

/// The reference-propagation table for attribute access: an attribute
/// reached through a mutable reference keeps its own reference
/// qualifier or gains a mutable one; one reached through a shared
/// reference is demoted to shared; one reached from a value is
/// unchanged.
pub open spec fn spec_propagate(container: TypeS, att: TypeS) -> TypeS {
    match container {
        TypeS::MutRef(_) => match att {
            TypeS::Ref(_) => att,
            TypeS::MutRef(_) => att,
            _ => TypeS::MutRef(Box::new(att)),
        },
        TypeS::Ref(_) => match att {
            TypeS::MutRef(i) => TypeS::Ref(i),
            TypeS::Ref(_) => att,
            _ => TypeS::Ref(Box::new(att)),
        },
        _ => att,
    }
}

/// The attribute index denotes a real attribute of the container's
/// underlying aggregate type.
pub open spec fn spec_attr_ok(ctx: NessaContext, at: TypeS, idx: int) -> bool {
    match spec_deref(at) {
        TypeS::Basic(id) => 0 <= id < ctx.type_templates@.len() && 0 <= idx
            < ctx.type_templates@[id].attributes@.len(),
        TypeS::Template(id, _) => 0 <= id < ctx.type_templates@.len() && 0 <= idx
            < ctx.type_templates@[id].attributes@.len(),
        _ => false,
    }
}

/// The type of an attribute access: the declared attribute type,
/// template arguments substituted for an instantiated container, with
/// the reference qualifier propagated.
pub open spec fn spec_attr_result(ctx: NessaContext, at: TypeS, idx: int) -> TypeS {
    match spec_deref(at) {
        TypeS::Basic(id) => spec_propagate(at, ctx.type_templates@[id].attributes@[idx].1@),
        TypeS::Template(id, ts) => spec_propagate(
            at,
            crate::types::spec_sub_templates(
                ctx.type_templates@[id].attributes@[idx].1@,
                spec_enum_map(ts),
            ),
        ),
        _ => TypeS::Empty,
    }
}

/// The type an operator or function application yields: resolve, then
/// substitute the overload's template bindings and the call-site
/// template arguments into the return type.
pub open spec fn spec_call_result(
    ops: Seq<Operation>,
    t2: TypeS,
    tsc: Map<int, TypeS>,
    impls: Seq<crate::interfaces::ImplS>,
    sub_ret: bool,
) -> Option<TypeS> {
    match spec_resolve(ops, t2, None, impls) {
        Some((i, subs)) => {
            let base = if sub_ret {
                crate::types::spec_sub_templates(ops[i].ret@, subs)
            } else {
                ops[i].ret@
            };
            Some(
                crate::types::spec_sub_templates(
                    crate::types::spec_sub_templates(
                        base,
                        spec_enum_map(spec_t_args(subs, ops[i].templates as int)),
                    ),
                    tsc,
                ),
            )
        },
        None => None,
    }
}

/// The type of an expression, or nothing when it has none: literals,
/// blocks and lambdas carry their type; a variable of a non-reference
/// type is a mutable place; applications resolve against the registry;
/// statements and declarations have no type.
pub open spec fn spec_infer(ctx: NessaContext, e: NessaExpr) -> Option<TypeS>
    decreases e,
{
    match e {
        NessaExpr::Literal(_, t) => Some(t@),
        NessaExpr::DoBlock(_, _, t) => Some(t@),
        NessaExpr::Variable(_, _, _, t) => match t {
            Type::Ref(_) => Some(t@),
            Type::MutRef(_) => Some(t@),
            _ => Some(TypeS::MutRef(Box::new(t@))),
        },
        NessaExpr::Tuple(_, es) => match spec_infer_seq(ctx, es@) {
            Some(ts) => Some(TypeS::And(ts)),
            None => None,
        },
        NessaExpr::AttributeAccess(_, inner, idx) => match spec_infer(ctx, *inner) {
            Some(at) => if spec_attr_ok(ctx, at, idx as int) {
                Some(spec_attr_result(ctx, at, idx as int))
            } else {
                None
            },
            None => None,
        },
        NessaExpr::CompiledLambda(_, _, _, a, ret, _) => Some(
            TypeS::Function(
                Box::new(
                    if a@.len() == 1 {
                        type_view(a@[0].1)
                    } else {
                        TypeS::And(spec_named_types(a@))
                    },
                ),
                Box::new(ret@),
            ),
        ),
        NessaExpr::UnaryOperation(_, id, tv, a) => {
            if id < ctx.unary_ops@.len() {
                let tsc = spec_enum_map(views(tv@));
                match spec_infer(ctx, *a) {
                    Some(at) => spec_call_result(
                        ctx.unary_ops@[id as int].operations@,
                        crate::types::spec_sub_templates(at, tsc),
                        tsc,
                        spec_impls(ctx),
                        false,
                    ),
                    None => None,
                }
            } else {
                None
            }
        },
        NessaExpr::BinaryOperation(_, id, tv, a, b) => {
            if id < ctx.binary_ops@.len() {
                let tsc = spec_enum_map(views(tv@));
                match (spec_infer(ctx, *a), spec_infer(ctx, *b)) {
                    (Some(at), Some(bt)) => spec_call_result(
                        ctx.binary_ops@[id as int].operations@,
                        TypeS::And(
                            seq![
                                crate::types::spec_sub_templates(at, tsc),
                                crate::types::spec_sub_templates(bt, tsc),
                            ],
                        ),
                        tsc,
                        spec_impls(ctx),
                        false,
                    ),
                    _ => None,
                }
            } else {
                None
            }
        },
        NessaExpr::NaryOperation(_, id, tv, first, args) => {
            if id < ctx.nary_ops@.len() {
                let tsc = spec_enum_map(views(tv@));
                match (spec_infer(ctx, *first), spec_infer_seq(ctx, args@)) {
                    (Some(ft), Some(ats)) => spec_call_result(
                        ctx.nary_ops@[id as int].operations@,
                        TypeS::And(
                            seq![crate::types::spec_sub_templates(ft, tsc)]
                                + crate::types::spec_sub_templates_seq(ats, tsc),
                        ),
                        tsc,
                        spec_impls(ctx),
                        false,
                    ),
                    _ => None,
                }
            } else {
                None
            }
        },
        NessaExpr::FunctionCall(_, id, tv, args) => {
            if id < ctx.functions@.len() {
                let tsc = spec_enum_map(views(tv@));
                match spec_infer_seq(ctx, args@) {
                    Some(ats) => spec_call_result(
                        ctx.functions@[id as int].overloads@,
                        TypeS::And(crate::types::spec_sub_templates_seq(ats, tsc)),
                        tsc,
                        spec_impls(ctx),
                        true,
                    ),
                    None => None,
                }
            } else {
                None
            }
        },
        NessaExpr::QualifiedName(_, _, id_opt) => match id_opt {
            Some(id) => {
                if id < ctx.functions@.len() && ctx.functions@[id as int].overloads@.len() == 1 {
                    let ov = ctx.functions@[id as int].overloads@[0];
                    if ov.templates != 0 {
                        None
                    } else {
                        match ov.args {
                            Type::And(a) => if a@.len() == 1 {
                                Some(
                                    TypeS::Function(
                                        Box::new(type_view(a@[0])),
                                        Box::new(ov.ret@),
                                    ),
                                )
                            } else {
                                Some(TypeS::Function(Box::new(ov.args@), Box::new(ov.ret@)))
                            },
                            _ => Some(TypeS::Function(Box::new(ov.args@), Box::new(ov.ret@))),
                        }
                    }
                } else {
                    None
                }
            },
            None => None,
        },
        _ => None,
    }
}

/// The types of a list of expressions, or nothing if any has none.
pub open spec fn spec_infer_seq(ctx: NessaContext, es: Seq<NessaExpr>) -> Option<Seq<TypeS>>
    decreases es,
{
    if es.len() == 0 {
        Some(Seq::empty())
    } else {
        match (spec_infer(ctx, es[0]), spec_infer_seq(ctx, es.skip(1))) {
            (Some(t), Some(ts)) => Some(seq![t] + ts),
            _ => None,
        }
    }
}

/// The registry references of the expression are in range, and
/// attribute accesses denote real attributes; inference never reads
/// out of the registry's bounds on such an expression.
pub open spec fn spec_infer_wf(ctx: NessaContext, e: NessaExpr) -> bool
    decreases e,
{
    match e {
        NessaExpr::Tuple(_, es) => spec_infer_wf_seq(ctx, es@),
        NessaExpr::AttributeAccess(_, inner, idx) => spec_infer_wf(ctx, *inner) && (match spec_infer(
            ctx,
            *inner,
        ) {
            Some(at) => spec_attr_ok(ctx, at, idx as int),
            None => true,
        }),
        NessaExpr::UnaryOperation(_, id, _, a) => id < ctx.unary_ops@.len() && spec_infer_wf(
            ctx,
            *a,
        ),
        NessaExpr::BinaryOperation(_, id, _, a, b) => id < ctx.binary_ops@.len() && spec_infer_wf(
            ctx,
            *a,
        ) && spec_infer_wf(ctx, *b),
        NessaExpr::NaryOperation(_, id, _, first, args) => id < ctx.nary_ops@.len()
            && spec_infer_wf(ctx, *first) && spec_infer_wf_seq(ctx, args@),
        NessaExpr::FunctionCall(_, id, _, args) => id < ctx.functions@.len() && spec_infer_wf_seq(
            ctx,
            args@,
        ),
        NessaExpr::QualifiedName(_, _, id_opt) => match id_opt {
            Some(id) => id < ctx.functions@.len(),
            None => true,
        },
        _ => true,
    }
}

pub open spec fn spec_infer_wf_seq(ctx: NessaContext, es: Seq<NessaExpr>) -> bool
    decreases es,
{
    if es.len() == 0 {
        true
    } else {
        spec_infer_wf(ctx, es[0]) && spec_infer_wf_seq(ctx, es.skip(1))
    }
}

pub proof fn lemma_infer_wf_seq_index(ctx: NessaContext, es: Seq<NessaExpr>)
    ensures
        spec_infer_wf_seq(ctx, es) <==> forall|i: int|
            0 <= i < es.len() ==> spec_infer_wf(ctx, #[trigger] es[i]),
    decreases es,
{
    if es.len() > 0 {
        lemma_infer_wf_seq_index(ctx, es.skip(1));
        if spec_infer_wf_seq(ctx, es) {
            assert forall|i: int| 0 <= i < es.len() implies spec_infer_wf(ctx, #[trigger] es[i]) by {
                if i > 0 {
                    assert(es.skip(1)[i - 1] == es[i]);
                }
            }
        }
        if forall|i: int| 0 <= i < es.len() ==> spec_infer_wf(ctx, #[trigger] es[i]) {
            assert forall|i: int| 0 <= i < es.skip(1).len() implies spec_infer_wf(
                ctx,
                #[trigger] es.skip(1)[i],
            ) by {
                assert(es.skip(1)[i] == es[i + 1]);
            }
        }
    }
}

/// Build the positional substitution a call's explicit template
/// arguments induce.
#[verifier::loop_isolation(false)]
pub(crate) fn subs_from_vec(v: &Vec<Type>) -> (r: TypeSubs)
    ensures
        r@ == spec_enum_map(views(v@)),
{
    proof {
        lemma_views_index(v@);
    }
    let mut m = TypeSubs::new();
    let mut j: usize = 0;
    while j < v.len()
        invariant
            j <= v@.len(),
            forall|i: int| m@.dom().contains(i) <==> 0 <= i < j,
            forall|i: int| 0 <= i < j ==> m@[i] == #[trigger] views(v@)[i],
        decreases v@.len() - j,
    {
        let c = v[j].clone_type();
        m.insert(j, c);
        j = j + 1;
    }
    proof {
        assert(m@ =~= spec_enum_map(views(v@)));
    }
    m
}

/// Substitute template parameters in every element.
fn sub_templates_all(v: &Vec<Type>, m: &TypeSubs) -> (r: Vec<Type>)
    ensures
        views(r@) == crate::types::spec_sub_templates_seq(views(v@), m@),
{
    crate::types::sub_templates_vec(v, m)
}

/// Apply the reference-propagation table.
fn propagate_reference(container: &Type, att: Type) -> (r: Type)
    ensures
        r@ == spec_propagate(container@, att@),
{
    proof {
        crate::bindable::lemma_view_shape(*container);
        crate::bindable::lemma_view_shape(att);
    }
    match container {
        Type::MutRef(_) => match att {
            Type::Ref(_) => att,
            Type::MutRef(_) => att,
            _ => Type::MutRef(Box::new(att)),
        },
        Type::Ref(_) => match att {
            Type::MutRef(i) => Type::Ref(i),
            Type::Ref(_) => att,
            _ => Type::Ref(Box::new(att)),
        },
        _ => att,
    }
}

/// The pair is the argument and return type of some overload that
/// accepts the tuple type.
pub open spec fn spec_is_candidate(
    ops: Seq<Operation>,
    t: TypeS,
    impls: Seq<crate::interfaces::ImplS>,
    e: (Type, Type),
) -> bool {
    exists|idx: int|
        0 <= idx < ops.len() && spec_accepts(#[trigger] ops[idx], t, impls) && e.0@
            == ops[idx].args@ && e.1@ == ops[idx].ret@
}

/// Every element of `v` is such a pair.
pub open spec fn spec_candidates_of(
    ops: Seq<Operation>,
    t: TypeS,
    impls: Seq<crate::interfaces::ImplS>,
    v: Seq<(Type, Type)>,
) -> bool {
    forall|k: int| 0 <= k < v.len() ==> spec_is_candidate(ops, t, impls, #[trigger] v[k])
}

/// The argument and return types of every overload that accepts the
/// tuple type; `Some` iff two or more do.
#[verifier::loop_isolation(false)]
#[verifier::rlimit(30)]
fn ambiguous_overloads(
    ctx: &NessaContext,
    ops: &Vec<Operation>,
    t: &Type,
) -> (r: Option<Vec<(Type, Type)>>)
    ensures
        (r is Some) <==> spec_accept_count(ops@, t@, spec_impls(*ctx)) >= 2,
        r matches Some(v) ==> v@.len() == spec_accept_count(ops@, t@, spec_impls(*ctx))
            && spec_candidates_of(ops@, t@, spec_impls(*ctx), v@),
{
    let mut out: Vec<(Type, Type)> = Vec::new();
    let ghost mut idxs: Seq<int> = Seq::empty();
    proof {
        assert(ops@.skip(0) =~= ops@);
        lemma_accept_count_nonneg(ops@, t@, spec_impls(*ctx));
    }
    let mut j: usize = 0;
    while j < ops.len()
        invariant
            j <= ops@.len(),
            spec_accept_count(ops@, t@, spec_impls(*ctx)) == out@.len() + spec_accept_count(
                ops@.skip(j as int),
                t@,
                spec_impls(*ctx),
            ),
            idxs.len() == out@.len(),
            forall|k: int|
                0 <= k < out@.len() ==> 0 <= #[trigger] idxs[k] < ops@.len() && spec_accepts(
                    ops@[idxs[k]],
                    t@,
                    spec_impls(*ctx),
                ) && out@[k].0@ == ops@[idxs[k]].args@ && out@[k].1@ == ops@[idxs[k]].ret@,
        decreases ops@.len() - j,
    {
        proof {
            assert(ops@.skip(j as int)[0] == ops@[j as int]);
            assert(ops@.skip(j as int).skip(1) =~= ops@.skip(j as int + 1));
        }
        if t.bindable_to(&ops[j].args, ctx) {
            let pa = ops[j].args.clone_type();
            let pr = ops[j].ret.clone_type();
            out.push((pa, pr));
            proof {
                idxs = idxs.push(j as int);
            }
        }
        j = j + 1;
    }
    proof {
        assert(ops@.skip(ops@.len() as int) =~= Seq::<Operation>::empty());
    }
    if out.len() > 1 {
        proof {
            assert forall|k: int| 0 <= k < out@.len() implies spec_is_candidate(
                ops@,
                t@,
                spec_impls(*ctx),
                #[trigger] out@[k],
            ) by {
                let w = idxs[k];
                assert(0 <= w < ops@.len() && spec_accepts(ops@[w], t@, spec_impls(*ctx)) && out@[k].0@
                    == ops@[w].args@ && out@[k].1@ == ops@[w].ret@);
            }
        }
        Some(out)
    } else {
        None
    }
}

fn no_overload_error(kind: &str) -> (r: NessaError) {
    let mut msg = String::new();
    msg.append("Unable to get ");
    msg.append(kind);
    msg.append(" overload for the given argument types");
    NessaError::compiler_error(msg, &Location::none(), Vec::new())
}

impl NessaContext {
    /// The first overload of a unary operator that accepts the
    /// argument type, with its return type (substituted on request),
    /// implementation flag and substitution vector.
    pub fn get_first_unary_op(
        &self,
        id: usize,
        arg_type: Type,
        call_templates: Option<Vec<Type>>,
        sub_t: bool,
        l: &Location,
    ) -> (r: Result<(usize, Type, bool, Vec<Type>), NessaError>)
        requires
            id < self.unary_ops@.len(),
        ensures
            ({
                let ct = match call_templates {
                    Some(v) => Some(views(v@)),
                    None => None,
                };
                let ops = self.unary_ops@[id as int].operations@;
                match r {
                    Ok(res) => spec_resolution_ok(ops, arg_type@, ct, spec_impls(*self), sub_t, res),
                    Err(e) => spec_resolve(ops, arg_type@, ct, spec_impls(*self)) is None
                        && e.message@ == "Unable to get unary operator overload for "@
                        + self.unary_ops@[id as int].representation@,
                }
            }),
    {
        match first_overload(self, &self.unary_ops[id].operations, &arg_type, &call_templates, sub_t) {
            Some(res) => Ok(res),
            None => {
                let mut msg = String::new();
                msg.append("Unable to get unary operator overload for ");
                msg.append(self.unary_ops[id].representation.as_str());
                proof {
                    assert(msg@ =~= "Unable to get unary operator overload for "@
                        + self.unary_ops@[id as int].representation@);
                }
                Err(NessaError::compiler_error(msg, l, Vec::new()))
            },
        }
    }

    /// The first overload of a binary operator that accepts the pair
    /// of argument types.
    pub fn get_first_binary_op(
        &self,
        id: usize,
        a_type: Type,
        b_type: Type,
        call_templates: Option<Vec<Type>>,
        sub_t: bool,
        l: &Location,
    ) -> (r: Result<(usize, Type, bool, Vec<Type>), NessaError>)
        requires
            id < self.binary_ops@.len(),
        ensures
            ({
                let ct = match call_templates {
                    Some(v) => Some(views(v@)),
                    None => None,
                };
                let t = TypeS::And(seq![a_type@, b_type@]);
                let ops = self.binary_ops@[id as int].operations@;
                match r {
                    Ok(res) => spec_resolution_ok(ops, t, ct, spec_impls(*self), sub_t, res),
                    Err(e) => spec_resolve(ops, t, ct, spec_impls(*self)) is None && e.message@
                        == "Unable to get binary operator overload for "@
                        + self.binary_ops@[id as int].representation@,
                }
            }),
    {
        let ghost av = a_type@;
        let ghost bv = b_type@;
        let mut pair: Vec<Type> = Vec::new();
        pair.push(a_type);
        pair.push(b_type);
        let ghost pairv = pair@;
        let and = Type::And(pair);
        proof {
            lemma_views_index(pairv);
            assert(type_view(pairv[0]) == av);
            assert(type_view(pairv[1]) == bv);
            assert(views(pairv) =~= seq![av, bv]);
        }
        match first_overload(self, &self.binary_ops[id].operations, &and, &call_templates, sub_t) {
            Some(res) => Ok(res),
            None => {
                let mut msg = String::new();
                msg.append("Unable to get binary operator overload for ");
                msg.append(self.binary_ops[id].representation.as_str());
                proof {
                    assert(msg@ =~= "Unable to get binary operator overload for "@
                        + self.binary_ops@[id as int].representation@);
                }
                Err(NessaError::compiler_error(msg, l, Vec::new()))
            },
        }
    }

    /// The first overload of an n-ary operator that accepts the first
    /// argument's type followed by the bracketed ones.
    #[verifier::loop_isolation(false)]
    pub fn get_first_nary_op(
        &self,
        id: usize,
        a_type: Type,
        b_type: Vec<Type>,
        call_templates: Option<Vec<Type>>,
        sub_t: bool,
        l: &Location,
    ) -> (r: Result<(usize, Type, bool, Vec<Type>), NessaError>)
        requires
            id < self.nary_ops@.len(),
        ensures
            ({
                let ct = match call_templates {
                    Some(v) => Some(views(v@)),
                    None => None,
                };
                let t = TypeS::And(seq![a_type@] + views(b_type@));
                let ops = self.nary_ops@[id as int].operations@;
                match r {
                    Ok(res) => spec_resolution_ok(ops, t, ct, spec_impls(*self), sub_t, res),
                    Err(e) => spec_resolve(ops, t, ct, spec_impls(*self)) is None && e.message@
                        == "Unable to get n-ary operator overload for "@
                        + self.nary_ops@[id as int].open_rep@
                        + self.nary_ops@[id as int].close_rep@,
                }
            }),
    {
        let ghost av = a_type@;
        let ghost argsv = b_type@;
        let mut subtypes: Vec<Type> = Vec::new();
        subtypes.push(a_type);
        proof {
            lemma_views_index(argsv);
        }
        let mut i: usize = 0;
        while i < b_type.len()
            invariant
                i <= argsv.len(),
                b_type@ == argsv,
                subtypes@.len() == i + 1,
                type_view(subtypes@[0]) == av,
                forall|k: int|
                    0 <= k < i ==> type_view(#[trigger] subtypes@[k + 1]) == type_view(argsv[k]),
            decreases argsv.len() - i,
        {
            let e = b_type[i].clone_type();
            subtypes.push(e);
            i = i + 1;
        }
        let ghost subv = subtypes@;
        let and = Type::And(subtypes);
        proof {
            lemma_views_index(subv);
            assert forall|k: int|
                0 <= k < subv.len() implies views(subv)[k] == (seq![av] + views(argsv))[k] by {
                if k > 0 {
                    let k0 = k - 1;
                    assert(type_view(subv[k0 + 1]) == type_view(argsv[k0]));
                }
            }
            assert(views(subv) =~= seq![av] + views(argsv));
        }
        match first_overload(self, &self.nary_ops[id].operations, &and, &call_templates, sub_t) {
            Some(res) => Ok(res),
            None => {
                let mut msg = String::new();
                msg.append("Unable to get n-ary operator overload for ");
                msg.append(self.nary_ops[id].open_rep.as_str());
                msg.append(self.nary_ops[id].close_rep.as_str());
                proof {
                    assert(msg@ =~= "Unable to get n-ary operator overload for "@
                        + self.nary_ops@[id as int].open_rep@
                        + self.nary_ops@[id as int].close_rep@);
                }
                Err(NessaError::compiler_error(msg, l, Vec::new()))
            },
        }
    }

    /// The first overload of a function that accepts the tuple of
    /// argument types.
    pub fn get_first_function_overload(
        &self,
        id: usize,
        arg_type: Vec<Type>,
        call_templates: Option<Vec<Type>>,
        sub_t: bool,
        l: &Location,
    ) -> (r: Result<(usize, Type, bool, Vec<Type>), NessaError>)
        requires
            id < self.functions@.len(),
        ensures
            ({
                let ct = match call_templates {
                    Some(v) => Some(views(v@)),
                    None => None,
                };
                let t = TypeS::And(views(arg_type@));
                let ops = self.functions@[id as int].overloads@;
                match r {
                    Ok(res) => spec_resolution_ok(ops, t, ct, spec_impls(*self), sub_t, res),
                    Err(e) => spec_resolve(ops, t, ct, spec_impls(*self)) is None && e.message@
                        == "Unable to get function overload for "@
                        + self.functions@[id as int].name@,
                }
            }),
    {
        let ghost argsv = arg_type@;
        let and = Type::And(arg_type);
        proof {
            assert(and@ == TypeS::And(views(argsv)));
        }
        match first_overload(self, &self.functions[id].overloads, &and, &call_templates, sub_t) {
            Some(res) => Ok(res),
            None => {
                let mut msg = String::new();
                msg.append("Unable to get function overload for ");
                msg.append(self.functions[id].name.as_str());
                proof {
                    assert(msg@ =~= "Unable to get function overload for "@
                        + self.functions@[id as int].name@);
                }
                Err(NessaError::compiler_error(msg, l, Vec::new()))
            },
        }
    }

    /// The unary overloads that accept the argument type; `Some` iff
    /// the application is ambiguous, that is, two or more accept.
    pub fn is_unary_op_ambiguous(&self, id: usize, arg_type: Type) -> (r: Option<
        Vec<(Type, Type)>,
    >)
        requires
            id < self.unary_ops@.len(),
        ensures
            (r is Some) <==> spec_accept_count(
                self.unary_ops@[id as int].operations@,
                arg_type@,
                spec_impls(*self),
            ) >= 2,
            r matches Some(v) ==> v@.len() == spec_accept_count(
                self.unary_ops@[id as int].operations@,
                arg_type@,
                spec_impls(*self),
            ) && spec_candidates_of(self.unary_ops@[id as int].operations@, arg_type@, spec_impls(*self), v@),
    {
        ambiguous_overloads(self, &self.unary_ops[id].operations, &arg_type)
    }

    /// The binary overloads that accept the argument pair; `Some` iff
    /// two or more accept.
    pub fn is_binary_op_ambiguous(&self, id: usize, a_type: Type, b_type: Type) -> (r: Option<
        Vec<(Type, Type)>,
    >)
        requires
            id < self.binary_ops@.len(),
        ensures
            (r is Some) <==> spec_accept_count(
                self.binary_ops@[id as int].operations@,
                TypeS::And(seq![a_type@, b_type@]),
                spec_impls(*self),
            ) >= 2,
            r matches Some(v) ==> v@.len() == spec_accept_count(
                self.binary_ops@[id as int].operations@,
                TypeS::And(seq![a_type@, b_type@]),
                spec_impls(*self),
            ) && spec_candidates_of(self.binary_ops@[id as int].operations@, TypeS::And(seq![a_type@, b_type@]), spec_impls(*self), v@),
    {
        let ghost av = a_type@;
        let ghost bv = b_type@;
        let mut pair: Vec<Type> = Vec::new();
        pair.push(a_type);
        pair.push(b_type);
        let ghost pairv = pair@;
        let and = Type::And(pair);
        proof {
            lemma_views_index(pairv);
            assert(type_view(pairv[0]) == av);
            assert(type_view(pairv[1]) == bv);
            assert(views(pairv) =~= seq![av, bv]);
        }
        ambiguous_overloads(self, &self.binary_ops[id].operations, &and)
    }

    /// The n-ary overloads that accept the argument tuple; `Some` iff
    /// two or more accept.
    #[verifier::loop_isolation(false)]
    pub fn is_nary_op_ambiguous(&self, id: usize, a_type: Type, b_type: Vec<Type>) -> (r: Option<
        Vec<(Type, Type)>,
    >)
        requires
            id < self.nary_ops@.len(),
        ensures
            (r is Some) <==> spec_accept_count(
                self.nary_ops@[id as int].operations@,
                TypeS::And(seq![a_type@] + views(b_type@)),
                spec_impls(*self),
            ) >= 2,
            r matches Some(v) ==> v@.len() == spec_accept_count(
                self.nary_ops@[id as int].operations@,
                TypeS::And(seq![a_type@] + views(b_type@)),
                spec_impls(*self),
            ) && spec_candidates_of(self.nary_ops@[id as int].operations@, TypeS::And(seq![a_type@] + views(b_type@)), spec_impls(*self), v@),
    {
        let ghost av = a_type@;
        let ghost argsv = b_type@;
        let mut subtypes: Vec<Type> = Vec::new();
        subtypes.push(a_type);
        proof {
            lemma_views_index(argsv);
        }
        let mut i: usize = 0;
        while i < b_type.len()
            invariant
                i <= argsv.len(),
                b_type@ == argsv,
                subtypes@.len() == i + 1,
                type_view(subtypes@[0]) == av,
                forall|k: int|
                    0 <= k < i ==> type_view(#[trigger] subtypes@[k + 1]) == type_view(argsv[k]),
            decreases argsv.len() - i,
        {
            let e = b_type[i].clone_type();
            subtypes.push(e);
            i = i + 1;
        }
        let ghost subv = subtypes@;
        let and = Type::And(subtypes);
        proof {
            lemma_views_index(subv);
            assert forall|k: int|
                0 <= k < subv.len() implies views(subv)[k] == (seq![av] + views(argsv))[k] by {
                if k > 0 {
                    let k0 = k - 1;
                    assert(type_view(subv[k0 + 1]) == type_view(argsv[k0]));
                }
            }
            assert(views(subv) =~= seq![av] + views(argsv));
        }
        ambiguous_overloads(self, &self.nary_ops[id].operations, &and)
    }

    /// The function overloads that accept the argument tuple; `Some`
    /// iff two or more accept.
    pub fn is_function_overload_ambiguous(&self, id: usize, arg_type: Vec<Type>) -> (r: Option<
        Vec<(Type, Type)>,
    >)
        requires
            id < self.functions@.len(),
        ensures
            (r is Some) <==> spec_accept_count(
                self.functions@[id as int].overloads@,
                TypeS::And(views(arg_type@)),
                spec_impls(*self),
            ) >= 2,
            r matches Some(v) ==> v@.len() == spec_accept_count(
                self.functions@[id as int].overloads@,
                TypeS::And(views(arg_type@)),
                spec_impls(*self),
            ) && spec_candidates_of(self.functions@[id as int].overloads@, TypeS::And(views(arg_type@)), spec_impls(*self), v@),
    {
        let ghost argsv = arg_type@;
        let and = Type::And(arg_type);
        proof {
            assert(and@ == TypeS::And(views(argsv)));
        }
        ambiguous_overloads(self, &self.functions[id].overloads, &and)
    }

    /// Whether some recorded implementation of the iteration interface
    /// accepts the container type.
    #[verifier::loop_isolation(false)]
    pub fn implements_iterable(&self, container_type: &Type) -> (r: bool)
        ensures
            r <==> exists|j: int|
                0 <= j < self.interface_impls@.len() && (#[trigger] self.interface_impls@[j]).interface_id
                    == crate::interfaces::ITERABLE_ID && spec_bindable(
                    container_type@,
                    self.interface_impls@[j].interface_type@,
                    spec_impls(*self),
                ),
    {
        let mut j: usize = 0;
        while j < self.interface_impls.len()
            invariant
                j <= self.interface_impls@.len(),
                forall|k: int|
                    0 <= k < j ==> !((#[trigger] self.interface_impls@[k]).interface_id
                        == crate::interfaces::ITERABLE_ID && spec_bindable(
                        container_type@,
                        self.interface_impls@[k].interface_type@,
                        spec_impls(*self),
                    )),
            decreases self.interface_impls@.len() - j,
        {
            if self.interface_impls[j].interface_id == crate::interfaces::ITERABLE_ID {
                if container_type.bindable_to(&self.interface_impls[j].interface_type, self) {
                    return true;
                }
            }
            j = j + 1;
        }
        false
    }

    /// Infer the type of an expression. Statements and declarations
    /// have no type and are rejected.
    #[verifier::loop_isolation(false)]
    #[verifier::rlimit(60)]
    pub fn infer_type(&self, expr: &NessaExpr) -> (r: Result<Type, NessaError>)
        requires
            spec_infer_wf(*self, *expr),
        ensures
            (r is Ok) == (spec_infer(*self, *expr) is Some),
            r matches Ok(t) ==> Some(t@) == spec_infer(*self, *expr),
        decreases *expr,
    {
        match expr {
            NessaExpr::Literal(_, t) => {
                let r = t.clone_type();
                proof {
                    assert(Some(r@) == spec_infer(*self, *expr));
                }
                Ok(r)
            },
            NessaExpr::DoBlock(_, _, t) => {
                let r = t.clone_type();
                proof {
                    assert(Some(r@) == spec_infer(*self, *expr));
                }
                Ok(r)
            },
            NessaExpr::Variable(_, _, _, t) => {
                match t {
                    Type::Ref(_) => {
                        let r = t.clone_type();
                        proof {
                            assert(Some(r@) == spec_infer(*self, *expr));
                        }
                        Ok(r)
                    },
                    Type::MutRef(_) => {
                        let r = t.clone_type();
                        proof {
                            assert(Some(r@) == spec_infer(*self, *expr));
                        }
                        Ok(r)
                    },
                    _ => {
                        let r = Type::MutRef(Box::new(t.clone_type()));
                        proof {
                            assert(Some(r@) == spec_infer(*self, *expr));
                        }
                        Ok(r)
                    },
                }
            },
            NessaExpr::Tuple(_, es) => {
                proof {
                    lemma_infer_wf_seq_index(*self, es@);
                }
                match self.infer_types(es) {
                    Ok(ts) => {
                        let ghost tsv = ts@;
                        let r = Type::And(ts);
                        proof {
                            assert(r@ == TypeS::And(views(tsv)));
                            assert(Some(r@) == spec_infer(*self, *expr));
                        }
                        Ok(r)
                    },
                    Err(e) => Err(e),
                }
            },
            NessaExpr::AttributeAccess(l, inner, att_idx) => {
                let arg_type = match self.infer_type(inner) {
                    Ok(t) => t,
                    Err(e) => {
                        return Err(e);
                    },
                };
                let d = arg_type.deref_type();
                match d {
                    Type::Basic(id) => {
                        let att_type = self.type_templates[*id].attributes[*att_idx].1.clone_type();
                        let r = propagate_reference(&arg_type, att_type);
                        proof {
                            assert(Some(r@) == spec_infer(*self, *expr));
                        }
                        Ok(r)
                    },
                    Type::Template(id, ts) => {
                        let subs = subs_from_vec(ts);
                        let att_type = self.type_templates[*id].attributes[*att_idx].1.sub_templates(
                            &subs,
                        );
                        let r = propagate_reference(&arg_type, att_type);
                        proof {
                            assert(Some(r@) == spec_infer(*self, *expr));
                        }
                        Ok(r)
                    },
                    _ => {
                        proof {
                            assert(false);
                        }
                        Err(
                            NessaError::compiler_error(
                                String::from_str("Attribute access on a non-aggregate type"),
                                l,
                                Vec::new(),
                            ),
                        )
                    },
                }
            },
            NessaExpr::CompiledLambda(_, _, _, a, ret, _) => {
                if a.len() == 1 {
                    let dom = a[0].1.clone_type();
                    let r = Type::Function(Box::new(dom), Box::new(ret.clone_type()));
                    proof {
                        assert(Some(r@) == spec_infer(*self, *expr));
                    }
                    Ok(r)
                } else {
                    let mut doms: Vec<Type> = Vec::new();
                    let mut j: usize = 0;
                    while j < a.len()
                        invariant
                            j <= a@.len(),
                            doms@.len() == j,
                            forall|k: int|
                                0 <= k < j ==> type_view(#[trigger] doms@[k]) == type_view(
                                    a@[k].1,
                                ),
                        decreases a@.len() - j,
                    {
                        let e = a[j].1.clone_type();
                        doms.push(e);
                        j = j + 1;
                    }
                    let ghost domsv = doms@;
                    let dom = Type::And(doms);
                    proof {
                        lemma_views_index(domsv);
                        assert forall|k: int|
                            0 <= k < domsv.len() implies views(domsv)[k] == spec_named_types(
                            a@,
                        )[k] by {
                            assert(views(domsv)[k] == type_view(domsv[k]));
                        }
                        assert(views(domsv) =~= spec_named_types(a@));
                    }
                    let r = Type::Function(Box::new(dom), Box::new(ret.clone_type()));
                    proof {
                        assert(views(domsv) == spec_named_types(a@));
                        assert(type_view(dom) == TypeS::And(spec_named_types(a@)));
                        assert(r@ == TypeS::Function(
                            Box::new(TypeS::And(spec_named_types(a@))),
                            Box::new(type_view(*ret)),
                        ));
                        assert(Some(r@) == spec_infer(*self, *expr));
                    }
                    Ok(r)
                }
            },
            NessaExpr::UnaryOperation(l, id, tv, a) => {
                let tsubs = subs_from_vec(tv);
                let at = match self.infer_type(a) {
                    Ok(t) => t,
                    Err(e) => {
                        return Err(e);
                    },
                };
                let at2 = at.sub_templates(&tsubs);
                match first_overload(self, &self.unary_ops[*id].operations, &at2, &None, false) {
                    Some((_ov, ret, _has, t_args)) => {
                        let ov_subs = subs_from_vec(&t_args);
                        let r1 = ret.sub_templates(&ov_subs);
                        let r2 = r1.sub_templates(&tsubs);
                        proof {
                            assert(Some(r2@) == spec_infer(*self, *expr));
                        }
                        Ok(r2)
                    },
                    None => Err(no_overload_error("unary operator")),
                }
            },
            NessaExpr::BinaryOperation(l, id, tv, a, b) => {
                let tsubs = subs_from_vec(tv);
                let at = match self.infer_type(a) {
                    Ok(t) => t,
                    Err(e) => {
                        return Err(e);
                    },
                };
                let bt = match self.infer_type(b) {
                    Ok(t) => t,
                    Err(e) => {
                        return Err(e);
                    },
                };
                let at2 = at.sub_templates(&tsubs);
                let bt2 = bt.sub_templates(&tsubs);
                let ghost av2 = at2@;
                let ghost bv2 = bt2@;
                let mut pair: Vec<Type> = Vec::new();
                pair.push(at2);
                pair.push(bt2);
                let ghost pairv = pair@;
                let and = Type::And(pair);
                proof {
                    lemma_views_index(pairv);
                    assert(type_view(pairv[0]) == av2);
                    assert(type_view(pairv[1]) == bv2);
                    assert(views(pairv) =~= seq![av2, bv2]);
                }
                match first_overload(self, &self.binary_ops[*id].operations, &and, &None, false) {
                    Some((_ov, ret, _has, t_args)) => {
                        let ov_subs = subs_from_vec(&t_args);
                        let r1 = ret.sub_templates(&ov_subs);
                        let r2 = r1.sub_templates(&tsubs);
                        proof {
                            assert(Some(r2@) == spec_infer(*self, *expr));
                        }
                        Ok(r2)
                    },
                    None => Err(no_overload_error("binary operator")),
                }
            },
            NessaExpr::NaryOperation(l, id, tv, first, args) => {
                let tsubs = subs_from_vec(tv);
                let ft = match self.infer_type(first) {
                    Ok(t) => t,
                    Err(e) => {
                        return Err(e);
                    },
                };
                let ats = match ({
                    proof {
                        lemma_infer_wf_seq_index(*self, args@);
                    }
                    self.infer_types(args)
                }) {
                    Ok(ts) => ts,
                    Err(e) => {
                        return Err(e);
                    },
                };
                let ft2 = ft.sub_templates(&tsubs);
                let ats2 = sub_templates_all(&ats, &tsubs);
                let ghost fv2 = ft2@;
                let ghost av2 = views(ats2@);
                let mut subtypes: Vec<Type> = Vec::new();
                subtypes.push(ft2);
                let ghost ats2v = ats2@;
                proof {
                    lemma_views_index(ats2v);
                }
                let mut i: usize = 0;
                while i < ats2.len()
                    invariant
                        i <= ats2v.len(),
                        ats2@ == ats2v,
                        subtypes@.len() == i + 1,
                        type_view(subtypes@[0]) == fv2,
                        forall|k: int|
                            0 <= k < i ==> type_view(#[trigger] subtypes@[k + 1]) == type_view(
                                ats2v[k],
                            ),
                    decreases ats2v.len() - i,
                {
                    let e = ats2[i].clone_type();
                    subtypes.push(e);
                    i = i + 1;
                }
                let ghost subv = subtypes@;
                let and = Type::And(subtypes);
                proof {
                    lemma_views_index(subv);
                    assert forall|k: int|
                        0 <= k < subv.len() implies views(subv)[k] == (seq![fv2] + views(
                        ats2v,
                    ))[k] by {
                        if k > 0 {
                            let k0 = k - 1;
                            assert(type_view(subv[k0 + 1]) == type_view(ats2v[k0]));
                        }
                    }
                    assert(views(subv) =~= seq![fv2] + views(ats2v));
                }
                match first_overload(self, &self.nary_ops[*id].operations, &and, &None, false) {
                    Some((_ov, ret, _has, t_args)) => {
                        let ov_subs = subs_from_vec(&t_args);
                        let r1 = ret.sub_templates(&ov_subs);
                        let r2 = r1.sub_templates(&tsubs);
                        proof {
                            assert(Some(r2@) == spec_infer(*self, *expr));
                        }
                        Ok(r2)
                    },
                    None => Err(no_overload_error("n-ary operator")),
                }
            },
            NessaExpr::FunctionCall(l, id, tv, args) => {
                let tsubs = subs_from_vec(tv);
                let ats = match ({
                    proof {
                        lemma_infer_wf_seq_index(*self, args@);
                    }
                    self.infer_types(args)
                }) {
                    Ok(ts) => ts,
                    Err(e) => {
                        return Err(e);
                    },
                };
                let ats2 = sub_templates_all(&ats, &tsubs);
                let ghost ats2v = ats2@;
                let and = Type::And(ats2);
                proof {
                    assert(and@ == TypeS::And(views(ats2v)));
                }
                match first_overload(self, &self.functions[*id].overloads, &and, &None, true) {
                    Some((_ov, ret, _has, t_args)) => {
                        let ov_subs = subs_from_vec(&t_args);
                        let r1 = ret.sub_templates(&ov_subs);
                        let r2 = r1.sub_templates(&tsubs);
                        proof {
                            assert(Some(r2@) == spec_infer(*self, *expr));
                        }
                        Ok(r2)
                    },
                    None => Err(no_overload_error("function")),
                }
            },
            NessaExpr::QualifiedName(l, _, id_opt) => {
                match id_opt {
                    Some(id) => {
                        if self.functions[*id].overloads.len() == 1 {
                            let ov = &self.functions[*id].overloads[0];
                            if ov.templates != 0 {
                                return Err(
                                    NessaError::compiler_error(
                                        String::from_str(
                                            "Implicit lambda cannot be formed from a generic overload",
                                        ),
                                        l,
                                        Vec::new(),
                                    ),
                                );
                            }
                            match &ov.args {
                                Type::And(a) => {
                                    if a.len() == 1 {
                                        let dom = a[0].clone_type();
                                        proof {
                                            lemma_views_index(a@);
                                        }
                                        let r = Type::Function(
                                            Box::new(dom),
                                            Box::new(ov.ret.clone_type()),
                                        );
                                        proof {
                                            assert(Some(r@) == spec_infer(*self, *expr));
                                        }
                                        Ok(r)
                                    } else {
                                        let dom = ov.args.clone_type();
                                        let r = Type::Function(
                                            Box::new(dom),
                                            Box::new(ov.ret.clone_type()),
                                        );
                                        proof {
                                            assert(Some(r@) == spec_infer(*self, *expr));
                                        }
                                        Ok(r)
                                    }
                                },
                                _ => {
                                    let dom = ov.args.clone_type();
                                    let r = Type::Function(
                                        Box::new(dom),
                                        Box::new(ov.ret.clone_type()),
                                    );
                                    proof {
                                        assert(Some(r@) == spec_infer(*self, *expr));
                                    }
                                    Ok(r)
                                },
                            }
                        } else {
                            Err(
                                NessaError::compiler_error(
                                    String::from_str("Implicit lambda for the function is ambiguous"),
                                    l,
                                    Vec::new(),
                                ),
                            )
                        }
                    },
                    None => Err(
                        NessaError::compiler_error(
                            String::from_str("Expression cannot be evaluated to a type"),
                            l,
                            Vec::new(),
                        ),
                    ),
                }
            },
            _ => Err(
                NessaError::compiler_error(
                    String::from_str("Expression cannot be evaluated to a type"),
                    &Location::none(),
                    Vec::new(),
                ),
            ),
        }
    }

    /// Infer the types of a list of expressions, failing on the first
    /// that has none.
    #[verifier::loop_isolation(false)]
    pub(crate) fn infer_types(&self, es: &Vec<NessaExpr>) -> (r: Result<Vec<Type>, NessaError>)
        requires
            forall|k: int| 0 <= k < es@.len() ==> spec_infer_wf(*self, #[trigger] es@[k]),
        ensures
            (r is Ok) == (spec_infer_seq(*self, es@) is Some),
            r matches Ok(ts) ==> Some(views(ts@)) == spec_infer_seq(*self, es@),
        decreases es,
    {
        let mut out: Vec<Type> = Vec::new();
        proof {
            assert(es@.skip(0) =~= es@);
        }
        let mut j: usize = 0;
        while j < es.len()
            invariant
                j <= es@.len(),
                out@.len() == j,
                ({
                    let rem = spec_infer_seq(*self, es@.skip(j as int));
                    let full = spec_infer_seq(*self, es@);
                    match rem {
                        Some(ts) => full == Some(views(out@) + ts),
                        None => full is None,
                    }
                }),
            decreases es@.len() - j,
        {
            proof {
                assert(es@.skip(j as int)[0] == es@[j as int]);
                assert(es@.skip(j as int).skip(1) =~= es@.skip(j as int + 1));
            }
            let ghost out0 = out@;
            match self.infer_type(&es[j]) {
                Ok(t) => {
                    out.push(t);
                    proof {
                        crate::types::lemma_views_push(out0, out@, t@);
                    }
                },
                Err(e) => {
                    return Err(e);
                },
            }
            j = j + 1;
        }
        proof {
            assert(es@.skip(es@.len() as int) =~= Seq::<NessaExpr>::empty());
            assert(views(out@) + Seq::<TypeS>::empty() =~= views(out@));
        }
        Ok(out)
    }

    /// Resolve the `iterator` function on the container type.
    pub fn get_iterator_type(&self, container_type: &Type, l: &Location) -> (r: Result<
        (usize, Type, bool, Vec<Type>),
        NessaError,
    >)
        requires
            ITERATOR_FUNC_ID < self.functions@.len(),
        ensures
            ({
                let t = TypeS::And(seq![container_type@]);
                let ops = self.functions@[ITERATOR_FUNC_ID as int].overloads@;
                match r {
                    Ok(res) => spec_resolution_ok(ops, t, None, spec_impls(*self), true, res),
                    Err(_) => spec_resolve(ops, t, None, spec_impls(*self)) is None,
                }
            }),
    {
        let mut args: Vec<Type> = Vec::new();
        args.push(container_type.clone_type());
        let ghost argsv = args@;
        proof {
            lemma_views_index(argsv);
            assert(views(argsv) =~= seq![container_type@]);
        }
        self.get_first_function_overload(ITERATOR_FUNC_ID, args, None, true, l)
    }

    /// Resolve the `next` function on a mutable reference to the
    /// iterator type.
    pub fn get_iterator_output_type(&self, iterator_type: &Type, l: &Location) -> (r: Result<
        (usize, Type, bool, Vec<Type>),
        NessaError,
    >)
        requires
            NEXT_FUNC_ID < self.functions@.len(),
        ensures
            ({
                let t = TypeS::And(seq![TypeS::MutRef(Box::new(iterator_type@))]);
                let ops = self.functions@[NEXT_FUNC_ID as int].overloads@;
                match r {
                    Ok(res) => spec_resolution_ok(ops, t, None, spec_impls(*self), true, res),
                    Err(_) => spec_resolve(ops, t, None, spec_impls(*self)) is None,
                }
            }),
    {
        let it_mut = Type::MutRef(Box::new(iterator_type.clone_type()));
        let mut args: Vec<Type> = Vec::new();
        args.push(it_mut);
        let ghost argsv = args@;
        proof {
            lemma_views_index(argsv);
            assert(views(argsv) =~= seq![TypeS::MutRef(Box::new(iterator_type@))]);
        }
        self.get_first_function_overload(NEXT_FUNC_ID, args, None, true, l)
    }
}

} // verus!
