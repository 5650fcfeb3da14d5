//! Interfaces: requirement records, their implementations, and the
//! constraint type attached to template parameters.

use vstd::prelude::*;

use vstd::string::StringExecFns;

use crate::annotations::Annotation;
use crate::types::{constraint_view, views, ConstraintS, InterfaceConstraint, Type, TypeS};

verus! {

/// A function member an interface requires.
pub struct InterfaceFn {
    pub annotations: Vec<Annotation>,
    pub name: String,
    pub templates: Option<Vec<String>>,
    pub args: Vec<(String, Type)>,
    pub ret: Type,
}

/// A unary-operator member an interface requires.
pub struct InterfaceUnaryOp {
    pub annotations: Vec<Annotation>,
    pub op_id: usize,
    pub templates: Vec<String>,
    pub arg_name: String,
    pub arg_type: Type,
    pub ret: Type,
}

/// A binary-operator member an interface requires.
pub struct InterfaceBinaryOp {
    pub annotations: Vec<Annotation>,
    pub op_id: usize,
    pub templates: Vec<String>,
    pub arg_a: (String, Type),
    pub arg_b: (String, Type),
    pub ret: Type,
}

/// An n-ary-operator member an interface requires.
pub struct InterfaceNaryOp {
    pub annotations: Vec<Annotation>,
    pub op_id: usize,
    pub templates: Vec<String>,
    pub arg_a: (String, Type),
    pub args: Vec<(String, Type)>,
    pub ret: Type,
}

/// An interface: a named bundle of required members.
pub struct Interface {
    pub id: usize,
    pub name: String,
    pub params: Vec<String>,
    pub fns: Vec<InterfaceFn>,
    pub uns: Vec<InterfaceUnaryOp>,
    pub bin: Vec<InterfaceBinaryOp>,
    pub nary: Vec<InterfaceNaryOp>,
}

/// A recorded implementation of an interface by a type.
pub struct InterfaceImpl {
    pub interface_id: usize,
    pub args: Vec<Type>,
    pub interface_type: Type,
}

/// Mathematical model of an `InterfaceImpl`.
pub ghost struct ImplS {
    pub interface_id: int,
    pub args: Seq<TypeS>,
    pub interface_type: TypeS,
}

/// Model of an implementation record.
pub open spec fn impl_view(i: InterfaceImpl) -> ImplS {
    ImplS {
        interface_id: i.interface_id as int,
        args: views(i.args@),
        interface_type: i.interface_type@,
    }
}

impl View for InterfaceImpl {
    type V = ImplS;

    open spec fn view(&self) -> ImplS {
        impl_view(*self)
    }
}

/// View of a sequence of implementation records, elementwise.
pub open spec fn views_impls(s: Seq<InterfaceImpl>) -> Seq<ImplS>
    decreases s,
{
    if s.len() == 0 {
        Seq::empty()
    } else {
        seq![impl_view(s[0])] + views_impls(s.skip(1))
    }
}

pub broadcast proof fn lemma_views_impls_index(s: Seq<InterfaceImpl>)
    ensures
        (#[trigger] views_impls(s)).len() == s.len(),
        forall|i: int| 0 <= i < s.len() ==> views_impls(s)[i] == impl_view(#[trigger] s[i]),
    decreases s,
{
    if s.len() > 0 {
        lemma_views_impls_index(s.skip(1));
        assert forall|i: int| 0 <= i < s.len() implies views_impls(s)[i] == impl_view(
            #[trigger] s[i],
        ) by {
            if i > 0 {
                assert(s.skip(1)[i - 1] == s[i]);
            }
        }
    }
}

impl InterfaceConstraint {
    /// Build a constraint on the interface with the given id and
    /// arguments.
    pub fn new(id: usize, args: Vec<Type>) -> (r: InterfaceConstraint)
        ensures
            r@ == (ConstraintS { id: id as int, args: views(args@) }),
    {
        InterfaceConstraint { id, args }
    }
}

/// The id of the standard iteration interface.
pub const ITERABLE_ID: usize = 0;

/// The id of the standard printing interface.
pub const PRINTABLE_ID: usize = 1;

/// Record the standard interfaces and their implementations: iteration
/// over arrays, and printing for the basic types. Everything else in
/// the registry is left untouched.
pub fn standard_interfaces(ctx: &mut crate::context::NessaContext)
    ensures
        final(ctx).type_templates == old(ctx).type_templates,
        final(ctx).unary_ops == old(ctx).unary_ops,
        final(ctx).binary_ops == old(ctx).binary_ops,
        final(ctx).nary_ops == old(ctx).nary_ops,
        final(ctx).functions == old(ctx).functions,
        final(ctx).interfaces@.len() == old(ctx).interfaces@.len() + 2,
        forall|k: int|
            0 <= k < old(ctx).interfaces@.len() ==> final(ctx).interfaces@[k] == old(
                ctx,
            ).interfaces@[k],
        ({
            let it = final(ctx).interfaces@[old(ctx).interfaces@.len() as int];
            &&& it.id == old(ctx).interfaces@.len()
            &&& it.name@ == "Iterable"@
            &&& it.params@.len() == 2
            &&& it.params@[0]@ == "Iter"@
            &&& it.params@[1]@ == "Elem"@
            &&& it.fns@.len() == 3
            &&& it.fns@[0].name@ == "iterator"@
            &&& it.fns@[0].args@.len() == 1
            &&& it.fns@[0].args@[0].1@ == TypeS::SelfType
            &&& it.fns@[0].ret@ == TypeS::TemplateParam(0, Seq::empty())
            &&& it.fns@[1].name@ == "next"@
            &&& it.fns@[1].args@.len() == 1
            &&& it.fns@[1].args@[0].1@ == TypeS::MutRef(
                Box::new(TypeS::TemplateParam(0, Seq::empty())),
            )
            &&& it.fns@[1].ret@ == TypeS::TemplateParam(1, Seq::empty())
            &&& it.fns@[2].name@ == "is_consumed"@
            &&& it.fns@[2].ret@ == TypeS::Basic(0)
            &&& it.uns@.len() == 0
            &&& it.bin@.len() == 0
            &&& it.nary@.len() == 0
        }),
        ({
            let pr = final(ctx).interfaces@[old(ctx).interfaces@.len() as int + 1];
            &&& pr.id == old(ctx).interfaces@.len() + 1
            &&& pr.name@ == "Printable"@
            &&& pr.params@.len() == 0
            &&& pr.fns@.len() == 1
            &&& pr.fns@[0].name@ == "print"@
            &&& pr.fns@[0].args@.len() == 1
            &&& pr.fns@[0].args@[0].1@ == TypeS::SelfType
            &&& pr.fns@[0].ret@ == TypeS::Empty
            &&& pr.uns@.len() == 0
            &&& pr.bin@.len() == 0
            &&& pr.nary@.len() == 0
        }),
        final(ctx).interface_impls@.len() == old(ctx).interface_impls@.len() + 6,
        forall|k: int|
            0 <= k < old(ctx).interface_impls@.len() ==> final(ctx).interface_impls@[k] == old(
                ctx,
            ).interface_impls@[k],
        ({
            let base = old(ctx).interface_impls@.len() as int;
            let iid = old(ctx).interfaces@.len() as int;
            let arr_t = TypeS::Template(5, seq![TypeS::TemplateParam(0, Seq::empty())]);
            let im = final(ctx).interface_impls@;
            &&& im[base].interface_id == iid
            &&& im[base].interface_type@ == arr_t
            &&& im[base].args@.len() == 2
            &&& im[base + 1].interface_id == iid
            &&& im[base + 1].interface_type@ == TypeS::MutRef(Box::new(arr_t))
            &&& im[base + 1].args@.len() == 2
            &&& im[base + 2].interface_id == iid + 1
            &&& im[base + 2].interface_type@ == TypeS::Basic(0)
            &&& im[base + 3].interface_id == iid + 1
            &&& im[base + 3].interface_type@ == TypeS::Basic(1)
            &&& im[base + 4].interface_id == iid + 1
            &&& im[base + 4].interface_type@ == TypeS::Basic(2)
            &&& im[base + 5].interface_id == iid + 1
            &&& im[base + 5].interface_type@ == TypeS::Basic(4)
            &&& forall|k: int|
                base + 2 <= k < base + 6 ==> (#[trigger] im[k]).args@.len() == 0
        }),
{
    proof {
        assert(crate::types::views_cs(Seq::<InterfaceConstraint>::empty())
            =~= Seq::<ConstraintS>::empty());
    }
    let iter_id = ctx.interfaces.len();
    let mut iter_fns: Vec<InterfaceFn> = Vec::new();
    let mut it_args: Vec<(String, Type)> = Vec::new();
    it_args.push((String::new(), Type::SelfType));
    iter_fns.push(
        InterfaceFn {
            annotations: Vec::new(),
            name: String::from_str("iterator"),
            templates: None,
            args: it_args,
            ret: Type::TemplateParam(0, Vec::new()),
        },
    );
    let mut next_args: Vec<(String, Type)> = Vec::new();
    let next_inner_t = Type::TemplateParam(0, Vec::new());
    proof {
        assert(next_inner_t@ == TypeS::TemplateParam(0, Seq::empty()));
    }
    let next_arg_t = Type::MutRef(Box::new(next_inner_t));
    proof {
        assert(next_arg_t@ == TypeS::MutRef(Box::new(TypeS::TemplateParam(0, Seq::empty()))));
    }
    next_args.push((String::new(), next_arg_t));
    iter_fns.push(
        InterfaceFn {
            annotations: Vec::new(),
            name: String::from_str("next"),
            templates: None,
            args: next_args,
            ret: Type::TemplateParam(1, Vec::new()),
        },
    );
    let mut cons_args: Vec<(String, Type)> = Vec::new();
    cons_args.push(
        (String::new(), Type::MutRef(Box::new(Type::TemplateParam(0, Vec::new())))),
    );
    iter_fns.push(
        InterfaceFn {
            annotations: Vec::new(),
            name: String::from_str("is_consumed"),
            templates: None,
            args: cons_args,
            ret: Type::Basic(0),
        },
    );
    let mut iter_params: Vec<String> = Vec::new();
    iter_params.push(String::from_str("Iter"));
    iter_params.push(String::from_str("Elem"));
    ctx.interfaces.push(
        crate::interfaces::Interface {
            id: iter_id,
            name: String::from_str("Iterable"),
            params: iter_params,
            fns: iter_fns,
            uns: Vec::new(),
            bin: Vec::new(),
            nary: Vec::new(),
        },
    );

    let print_id = ctx.interfaces.len();
    let mut print_fns: Vec<InterfaceFn> = Vec::new();
    let mut pr_args: Vec<(String, Type)> = Vec::new();
    pr_args.push((String::new(), Type::SelfType));
    print_fns.push(
        InterfaceFn {
            annotations: Vec::new(),
            name: String::from_str("print"),
            templates: None,
            args: pr_args,
            ret: Type::Empty,
        },
    );
    ctx.interfaces.push(
        crate::interfaces::Interface {
            id: print_id,
            name: String::from_str("Printable"),
            params: Vec::new(),
            fns: print_fns,
            uns: Vec::new(),
            bin: Vec::new(),
            nary: Vec::new(),
        },
    );

    // Iterable for arrays, by value and through a mutable reference.
    let mut arr_args1: Vec<Type> = Vec::new();
    arr_args1.push(array_iterator_of(Type::MutRef(Box::new(Type::TemplateParam(0, Vec::new())))));
    arr_args1.push(Type::TemplateParam(0, Vec::new()));
    ctx.interface_impls.push(
        InterfaceImpl {
            interface_id: iter_id,
            args: arr_args1,
            interface_type: array_of(Type::TemplateParam(0, Vec::new())),
        },
    );
    let mut arr_args2: Vec<Type> = Vec::new();
    arr_args2.push(array_iterator_of(Type::MutRef(Box::new(Type::TemplateParam(0, Vec::new())))));
    arr_args2.push(Type::TemplateParam(0, Vec::new()));
    ctx.interface_impls.push(
        InterfaceImpl {
            interface_id: iter_id,
            args: arr_args2,
            interface_type: Type::MutRef(
                Box::new(array_of(Type::TemplateParam(0, Vec::new()))),
            ),
        },
    );

    // Printable for the basic types.
    ctx.interface_impls.push(
        InterfaceImpl { interface_id: print_id, args: Vec::new(), interface_type: Type::Basic(0) },
    );
    ctx.interface_impls.push(
        InterfaceImpl { interface_id: print_id, args: Vec::new(), interface_type: Type::Basic(1) },
    );
    ctx.interface_impls.push(
        InterfaceImpl { interface_id: print_id, args: Vec::new(), interface_type: Type::Basic(2) },
    );
    ctx.interface_impls.push(
        InterfaceImpl { interface_id: print_id, args: Vec::new(), interface_type: Type::Basic(4) },
    );
}

/// An array type instantiated at the given element type.
fn array_of(elem: Type) -> (r: Type)
    ensures
        r@ == TypeS::Template(5, seq![elem@]),
{
    let ghost ev = elem@;
    let mut args: Vec<Type> = Vec::new();
    args.push(elem);
    let ghost argsv = args@;
    let r = Type::Template(5, args);
    proof {
        crate::types::lemma_views_index(argsv);
        assert(views(argsv) =~= seq![ev]);
    }
    r
}

/// An array iterator type instantiated at the given element type.
fn array_iterator_of(elem: Type) -> (r: Type)
    ensures
        r@ == TypeS::Template(6, seq![elem@]),
{
    let ghost ev = elem@;
    let mut args: Vec<Type> = Vec::new();
    args.push(elem);
    let ghost argsv = args@;
    let r = Type::Template(6, args);
    proof {
        crate::types::lemma_views_index(argsv);
        assert(views(argsv) =~= seq![ev]);
    }
    r
}

} // verus!
