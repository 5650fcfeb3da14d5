//! The registry: the world in which types, operators, functions,
//! interfaces and their implementations are declared. Overload sets are
//! kept antichains under bindability: a definition whose argument
//! pattern binds into an existing overload's pattern, or the reverse,
//! is rejected, which keeps first-match resolution order-insensitive.

use vstd::prelude::*;
use vstd::string::StringExecFns;

use crate::bindable::{bind_exec, spec_bind, spec_bindable, spec_lvl};
use crate::interfaces::{views_impls, ImplS, Interface, InterfaceImpl};
use crate::operations::{BinaryOperator, Function, NaryOperator, Operation, UnaryOperator};
use crate::types::{string_eq, type_view, views, Type, TypeS, TypeSubs};

verus! {

/// A named type of the registry, with its template parameter names and
/// its attributes.
pub struct TypeTemplate {
    pub id: usize,
    pub name: String,
    pub params: Vec<String>,
    pub attributes: Vec<(String, Type)>,
}

/// The registry itself.
pub struct NessaContext {
    pub type_templates: Vec<TypeTemplate>,
    pub unary_ops: Vec<UnaryOperator>,
    pub binary_ops: Vec<BinaryOperator>,
    pub nary_ops: Vec<NaryOperator>,
    pub functions: Vec<Function>,
    pub interfaces: Vec<Interface>,
    pub interface_impls: Vec<InterfaceImpl>,
}

/// The models of the recorded interface implementations.
pub open spec fn spec_impls(ctx: NessaContext) -> Seq<ImplS> {
    views_impls(ctx.interface_impls@)
}

/// An overload set is an antichain: no overload's argument pattern
/// binds into another's.
pub open spec fn spec_antichain(ops: Seq<Operation>, impls: Seq<ImplS>) -> bool {
    forall|i: int, j: int|
        0 <= i < ops.len() && 0 <= j < ops.len() && i != j ==> !spec_bindable(
            (#[trigger] ops[i]).args@,
            (#[trigger] ops[j]).args@,
            impls,
        )
}

/// Every overload set of the registry is an antichain.
pub open spec fn spec_ctx_antichain(ctx: NessaContext) -> bool {
    &&& forall|o: int|
        0 <= o < ctx.unary_ops@.len() ==> spec_antichain(
            (#[trigger] ctx.unary_ops@[o]).operations@,
            spec_impls(ctx),
        )
    &&& forall|o: int|
        0 <= o < ctx.binary_ops@.len() ==> spec_antichain(
            (#[trigger] ctx.binary_ops@[o]).operations@,
            spec_impls(ctx),
        )
    &&& forall|o: int|
        0 <= o < ctx.nary_ops@.len() ==> spec_antichain(
            (#[trigger] ctx.nary_ops@[o]).operations@,
            spec_impls(ctx),
        )
    &&& forall|f: int|
        0 <= f < ctx.functions@.len() ==> spec_antichain(
            (#[trigger] ctx.functions@[f]).overloads@,
            spec_impls(ctx),
        )
}

/// The new pattern conflicts with an existing overload: one of the two
/// binds into the other.
pub open spec fn spec_conflicts(ops: Seq<Operation>, a: TypeS, impls: Seq<ImplS>) -> bool {
    exists|k: int|
        0 <= k < ops.len() && (spec_bindable(a, (#[trigger] ops[k]).args@, impls) || spec_bindable(
            ops[k].args@,
            a,
            impls,
        ))
}

/// The direction of the first conflict in declaration order: `true`
/// when the new pattern is subsumed by an existing overload, `false`
/// when it subsumes one. Per overload, subsumption of the new pattern
/// is noticed first.
pub open spec fn spec_first_conflict(ops: Seq<Operation>, a: TypeS, impls: Seq<ImplS>) -> Option<
    bool,
>
    decreases ops.len(),
{
    if ops.len() == 0 {
        None
    } else if spec_bindable(a, ops[0].args@, impls) {
        Some(true)
    } else if spec_bindable(ops[0].args@, a, impls) {
        Some(false)
    } else {
        spec_first_conflict(ops.skip(1), a, impls)
    }
}

/// There is a first conflict exactly when there is a conflict at all.
pub proof fn lemma_first_conflict_iff(ops: Seq<Operation>, a: TypeS, impls: Seq<ImplS>)
    ensures
        (spec_first_conflict(ops, a, impls) is Some) == spec_conflicts(ops, a, impls),
    decreases ops.len(),
{
    if ops.len() > 0 {
        lemma_first_conflict_iff(ops.skip(1), a, impls);
        if spec_bindable(a, ops[0].args@, impls) || spec_bindable(ops[0].args@, a, impls) {
            assert(spec_conflicts(ops, a, impls));
        } else {
            if spec_conflicts(ops.skip(1), a, impls) {
                let k = choose|k: int|
                    0 <= k < ops.skip(1).len() && (spec_bindable(
                        a,
                        (#[trigger] ops.skip(1)[k]).args@,
                        impls,
                    ) || spec_bindable(ops.skip(1)[k].args@, a, impls));
                assert(ops[k + 1] == ops.skip(1)[k]);
            }
            if spec_conflicts(ops, a, impls) {
                let k = choose|k: int|
                    0 <= k < ops.len() && (spec_bindable(a, (#[trigger] ops[k]).args@, impls)
                        || spec_bindable(ops[k].args@, a, impls));
                assert(k > 0);
                assert(ops.skip(1)[k - 1] == ops[k]);
                assert(spec_conflicts(ops.skip(1), a, impls));
            }
        }
    }
}

/// For every registered operator and any two distinct overloads of it,
/// neither argument pattern binds into the other. The same holds of
/// binary and n-ary operators through the other clauses of
/// `spec_ctx_antichain`.
pub proof fn lemma_operator_overloads_antichain(ctx: NessaContext, o: int, i: int, j: int)
    requires
        spec_ctx_antichain(ctx),
        0 <= o < ctx.unary_ops@.len(),
        0 <= i < ctx.unary_ops@[o].operations@.len(),
        0 <= j < ctx.unary_ops@[o].operations@.len(),
        i != j,
    ensures
        !spec_bindable(
            ctx.unary_ops@[o].operations@[i].args@,
            ctx.unary_ops@[o].operations@[j].args@,
            spec_impls(ctx),
        ),
        !spec_bindable(
            ctx.unary_ops@[o].operations@[j].args@,
            ctx.unary_ops@[o].operations@[i].args@,
            spec_impls(ctx),
        ),
{
}

/// For every registered function and any two distinct overloads of it,
/// neither argument pattern binds into the other.
pub proof fn lemma_function_overloads_antichain(ctx: NessaContext, f: int, i: int, j: int)
    requires
        spec_ctx_antichain(ctx),
        0 <= f < ctx.functions@.len(),
        0 <= i < ctx.functions@[f].overloads@.len(),
        0 <= j < ctx.functions@[f].overloads@.len(),
        i != j,
    ensures
        !spec_bindable(
            ctx.functions@[f].overloads@[i].args@,
            ctx.functions@[f].overloads@[j].args@,
            spec_impls(ctx),
        ),
        !spec_bindable(
            ctx.functions@[f].overloads@[j].args@,
            ctx.functions@[f].overloads@[i].args@,
            spec_impls(ctx),
        ),
{
}

impl Type {
    /// Whether a value of this type is acceptable where `other` is
    /// expected, against the registry's interface implementations.
    pub fn bindable_to(&self, other: &Type, ctx: &NessaContext) -> (r: bool)
        ensures
            r == spec_bindable(self@, other@, spec_impls(*ctx)),
    {
        let (ok, _subs) = bind_exec(self, other, &ctx.interface_impls, TypeSubs::new(), true);
        ok
    }

    /// The same relation, also yielding the substitution of template
    /// parameters that makes the binding work.
    pub fn bindable_to_substitutions(&self, other: &Type, ctx: &NessaContext) -> (r: (
        bool,
        TypeSubs,
    ))
        ensures
            r.0 == spec_bindable(self@, other@, spec_impls(*ctx)),
            r.0 ==> r.1@ == spec_bind(self@, other@, spec_impls(*ctx), Map::empty(), 2).unwrap(),
    {
        bind_exec(self, other, &ctx.interface_impls, TypeSubs::new(), true)
    }
}

/// Some registered type already carries this name.
pub open spec fn spec_type_name_taken(ts: Seq<TypeTemplate>, name: Seq<char>) -> bool {
    exists|j: int| 0 <= j < ts.len() && (#[trigger] ts[j]).name@ == name
}

/// Some registered unary operator already carries this representation.
pub open spec fn spec_unary_rep_taken(ops: Seq<UnaryOperator>, rep: Seq<char>) -> bool {
    exists|j: int| 0 <= j < ops.len() && (#[trigger] ops[j]).representation@ == rep
}

/// Some registered binary operator already carries this representation.
pub open spec fn spec_binary_rep_taken(ops: Seq<BinaryOperator>, rep: Seq<char>) -> bool {
    exists|j: int| 0 <= j < ops.len() && (#[trigger] ops[j]).representation@ == rep
}

/// Some registered n-ary operator overlaps one of the two
/// representations: either string equals any existing opener or
/// closer.
pub open spec fn spec_nary_rep_taken(ops: Seq<NaryOperator>, open: Seq<char>, close: Seq<
    char,
>) -> bool {
    exists|j: int|
        0 <= j < ops.len() && ((#[trigger] ops[j]).open_rep@ == open || ops[j].close_rep@ == close
            || ops[j].open_rep@ == close || ops[j].close_rep@ == open)
}

/// Some registered function already carries this name.
pub open spec fn spec_fn_name_taken(fs: Seq<Function>, name: Seq<char>) -> bool {
    exists|j: int| 0 <= j < fs.len() && (#[trigger] fs[j]).name@ == name
}

/// The first function carrying the name, in declaration order.
pub open spec fn spec_first_fn_id(fs: Seq<Function>, name: Seq<char>) -> int
    decreases fs.len(),
{
    if fs.len() == 0 {
        0
    } else if fs[0].name@ == name {
        0
    } else {
        1 + spec_first_fn_id(fs.skip(1), name)
    }
}

/// The first interface carrying the name, in declaration order.
pub open spec fn spec_first_iface_id(is: Seq<Interface>, name: Seq<char>) -> int
    decreases is.len(),
{
    if is.len() == 0 {
        0
    } else if is[0].name@ == name {
        0
    } else {
        1 + spec_first_iface_id(is.skip(1), name)
    }
}

/// Some registered interface already carries this name.
pub open spec fn spec_interface_name_taken(is: Seq<Interface>, name: Seq<char>) -> bool {
    exists|j: int| 0 <= j < is.len() && (#[trigger] is[j]).name@ == name
}

impl NessaContext {
    /// An empty registry.
    pub fn new() -> (r: NessaContext)
        ensures
            r.type_templates@.len() == 0,
            r.unary_ops@.len() == 0,
            r.binary_ops@.len() == 0,
            r.nary_ops@.len() == 0,
            r.functions@.len() == 0,
            r.interfaces@.len() == 0,
            r.interface_impls@.len() == 0,
            spec_ctx_antichain(r),
    {
        NessaContext {
            type_templates: Vec::new(),
            unary_ops: Vec::new(),
            binary_ops: Vec::new(),
            nary_ops: Vec::new(),
            functions: Vec::new(),
            interfaces: Vec::new(),
            interface_impls: Vec::new(),
        }
    }

    /// Define a named type; fails iff the name is already defined. The
    /// new type's id is the previous count, and the rest of the
    /// registry is untouched.
    #[verifier::loop_isolation(false)]
    pub fn define_type(&mut self, representation: String, params: Vec<String>) -> (r: Result<
        (),
        String,
    >)
        ensures
            (r is Ok) == !spec_type_name_taken(old(self).type_templates@, representation@),
            r is Ok ==> ({
                let ts = final(self).type_templates@;
                &&& ts.len() == old(self).type_templates@.len() + 1
                &&& forall|k: int|
                    0 <= k < old(self).type_templates@.len() ==> ts[k] == old(
                        self,
                    ).type_templates@[k]
                &&& ts.last().id == old(self).type_templates@.len()
                &&& ts.last().name == representation
                &&& ts.last().params == params
                &&& ts.last().attributes@.len() == 0
            }),
            r is Err ==> final(self).type_templates == old(self).type_templates,
            final(self).unary_ops == old(self).unary_ops,
            final(self).binary_ops == old(self).binary_ops,
            final(self).nary_ops == old(self).nary_ops,
            final(self).functions == old(self).functions,
            final(self).interfaces == old(self).interfaces,
            final(self).interface_impls == old(self).interface_impls,
            spec_ctx_antichain(*old(self)) ==> spec_ctx_antichain(*final(self)),
    {
        let mut j: usize = 0;
        while j < self.type_templates.len()
            invariant
                j <= self.type_templates@.len(),
                forall|k: int|
                    0 <= k < j ==> (#[trigger] self.type_templates@[k]).name@ != representation@,
            decreases self.type_templates@.len() - j,
        {
            if string_eq(&self.type_templates[j].name, &representation) {
                let mut msg = String::new();
                msg.append("Type \"");
                msg.append(representation.as_str());
                msg.append("\" is already defined");
                return Err(msg);
            }
            j = j + 1;
        }
        let id = self.type_templates.len();
        self.type_templates.push(
            TypeTemplate { id, name: representation, params, attributes: Vec::new() },
        );
        Ok(())
    }

    /// Define a unary operator; fails iff the representation is
    /// already in use.
    #[verifier::loop_isolation(false)]
    pub fn define_unary_operator(&mut self, representation: String) -> (r: Result<(), String>)
        ensures
            (r is Ok) == !spec_unary_rep_taken(old(self).unary_ops@, representation@),
            r is Ok ==> ({
                let ops = final(self).unary_ops@;
                &&& ops.len() == old(self).unary_ops@.len() + 1
                &&& forall|k: int|
                    0 <= k < old(self).unary_ops@.len() ==> ops[k] == old(self).unary_ops@[k]
                &&& ops.last().id == old(self).unary_ops@.len()
                &&& ops.last().representation == representation
                &&& ops.last().operations@.len() == 0
            }),
            r is Err ==> final(self).unary_ops == old(self).unary_ops,
            final(self).type_templates == old(self).type_templates,
            final(self).binary_ops == old(self).binary_ops,
            final(self).nary_ops == old(self).nary_ops,
            final(self).functions == old(self).functions,
            final(self).interfaces == old(self).interfaces,
            final(self).interface_impls == old(self).interface_impls,
            spec_ctx_antichain(*old(self)) ==> spec_ctx_antichain(*final(self)),
    {
        let mut j: usize = 0;
        while j < self.unary_ops.len()
            invariant
                j <= self.unary_ops@.len(),
                forall|k: int|
                    0 <= k < j ==> (#[trigger] self.unary_ops@[k]).representation@
                        != representation@,
            decreases self.unary_ops@.len() - j,
        {
            if string_eq(&self.unary_ops[j].representation, &representation) {
                let mut msg = String::new();
                msg.append("Unary operator \"");
                msg.append(representation.as_str());
                msg.append("\" is already defined");
                return Err(msg);
            }
            j = j + 1;
        }
        let id = self.unary_ops.len();
        self.unary_ops.push(
            UnaryOperator { id, representation, prefix: true, operations: Vec::new() },
        );
        Ok(())
    }

    /// Define a binary operator; fails iff the representation is
    /// already in use.
    #[verifier::loop_isolation(false)]
    pub fn define_binary_operator(&mut self, representation: String) -> (r: Result<(), String>)
        ensures
            (r is Ok) == !spec_binary_rep_taken(old(self).binary_ops@, representation@),
            r is Ok ==> ({
                let ops = final(self).binary_ops@;
                &&& ops.len() == old(self).binary_ops@.len() + 1
                &&& forall|k: int|
                    0 <= k < old(self).binary_ops@.len() ==> ops[k] == old(self).binary_ops@[k]
                &&& ops.last().id == old(self).binary_ops@.len()
                &&& ops.last().representation == representation
                &&& ops.last().operations@.len() == 0
            }),
            r is Err ==> final(self).binary_ops == old(self).binary_ops,
            final(self).type_templates == old(self).type_templates,
            final(self).unary_ops == old(self).unary_ops,
            final(self).nary_ops == old(self).nary_ops,
            final(self).functions == old(self).functions,
            final(self).interfaces == old(self).interfaces,
            final(self).interface_impls == old(self).interface_impls,
            spec_ctx_antichain(*old(self)) ==> spec_ctx_antichain(*final(self)),
    {
        let mut j: usize = 0;
        while j < self.binary_ops.len()
            invariant
                j <= self.binary_ops@.len(),
                forall|k: int|
                    0 <= k < j ==> (#[trigger] self.binary_ops@[k]).representation@
                        != representation@,
            decreases self.binary_ops@.len() - j,
        {
            if string_eq(&self.binary_ops[j].representation, &representation) {
                let mut msg = String::new();
                msg.append("Binary operator \"");
                msg.append(representation.as_str());
                msg.append("\" is already defined");
                return Err(msg);
            }
            j = j + 1;
        }
        let id = self.binary_ops.len();
        self.binary_ops.push(BinaryOperator { id, representation, operations: Vec::new() });
        Ok(())
    }

    /// Define an n-ary operator; fails iff the opening or the closing
    /// representation overlaps an existing one.
    #[verifier::loop_isolation(false)]
    pub fn define_nary_operator(&mut self, open_rep: String, close_rep: String) -> (r: Result<
        (),
        String,
    >)
        ensures
            (r is Ok) == !spec_nary_rep_taken(old(self).nary_ops@, open_rep@, close_rep@),
            r is Ok ==> ({
                let ops = final(self).nary_ops@;
                &&& ops.len() == old(self).nary_ops@.len() + 1
                &&& forall|k: int|
                    0 <= k < old(self).nary_ops@.len() ==> ops[k] == old(self).nary_ops@[k]
                &&& ops.last().id == old(self).nary_ops@.len()
                &&& ops.last().open_rep == open_rep
                &&& ops.last().close_rep == close_rep
                &&& ops.last().operations@.len() == 0
            }),
            r is Err ==> final(self).nary_ops == old(self).nary_ops,
            final(self).type_templates == old(self).type_templates,
            final(self).unary_ops == old(self).unary_ops,
            final(self).binary_ops == old(self).binary_ops,
            final(self).functions == old(self).functions,
            final(self).interfaces == old(self).interfaces,
            final(self).interface_impls == old(self).interface_impls,
            spec_ctx_antichain(*old(self)) ==> spec_ctx_antichain(*final(self)),
    {
        let mut j: usize = 0;
        while j < self.nary_ops.len()
            invariant
                j <= self.nary_ops@.len(),
                forall|k: int|
                    0 <= k < j ==> (#[trigger] self.nary_ops@[k]).open_rep@ != open_rep@
                        && self.nary_ops@[k].close_rep@ != close_rep@
                        && self.nary_ops@[k].open_rep@ != close_rep@
                        && self.nary_ops@[k].close_rep@ != open_rep@,
            decreases self.nary_ops@.len() - j,
        {
            if string_eq(&self.nary_ops[j].open_rep, &open_rep) || string_eq(
                &self.nary_ops[j].close_rep,
                &close_rep,
            ) || string_eq(&self.nary_ops[j].open_rep, &close_rep) || string_eq(
                &self.nary_ops[j].close_rep,
                &open_rep,
            ) {
                let mut msg = String::new();
                msg.append("N-ary operator \"");
                msg.append(open_rep.as_str());
                msg.append(close_rep.as_str());
                msg.append("\" has a syntax overlap with an existing operator");
                return Err(msg);
            }
            j = j + 1;
        }
        let id = self.nary_ops.len();
        self.nary_ops.push(NaryOperator { id, open_rep, close_rep, operations: Vec::new() });
        Ok(())
    }

    /// Define a function name; fails iff the name is already in use.
    #[verifier::loop_isolation(false)]
    pub fn define_function(&mut self, name: String) -> (r: Result<(), String>)
        ensures
            (r is Ok) == !spec_fn_name_taken(old(self).functions@, name@),
            r is Ok ==> ({
                let fs = final(self).functions@;
                &&& fs.len() == old(self).functions@.len() + 1
                &&& forall|k: int|
                    0 <= k < old(self).functions@.len() ==> fs[k] == old(self).functions@[k]
                &&& fs.last().id == old(self).functions@.len()
                &&& fs.last().name == name
                &&& fs.last().overloads@.len() == 0
            }),
            r is Err ==> final(self).functions == old(self).functions,
            final(self).type_templates == old(self).type_templates,
            final(self).unary_ops == old(self).unary_ops,
            final(self).binary_ops == old(self).binary_ops,
            final(self).nary_ops == old(self).nary_ops,
            final(self).interfaces == old(self).interfaces,
            final(self).interface_impls == old(self).interface_impls,
            spec_ctx_antichain(*old(self)) ==> spec_ctx_antichain(*final(self)),
    {
        let mut j: usize = 0;
        while j < self.functions.len()
            invariant
                j <= self.functions@.len(),
                forall|k: int| 0 <= k < j ==> (#[trigger] self.functions@[k]).name@ != name@,
            decreases self.functions@.len() - j,
        {
            if string_eq(&self.functions[j].name, &name) {
                let mut msg = String::new();
                msg.append("Function \"");
                msg.append(name.as_str());
                msg.append("\" is already defined");
                return Err(msg);
            }
            j = j + 1;
        }
        let id = self.functions.len();
        self.functions.push(Function { id, name, overloads: Vec::new() });
        Ok(())
    }

    /// The id of the function with this name.
    #[verifier::loop_isolation(false)]
    pub fn get_function_id(&self, name: &String) -> (r: Result<usize, String>)
        ensures
            (r is Ok) == spec_fn_name_taken(self.functions@, name@),
            r matches Ok(id) ==> id < self.functions@.len() && self.functions@[id as int].name@
                == name@ && id == spec_first_fn_id(self.functions@, name@),
    {
        proof {
            assert(self.functions@.skip(0) =~= self.functions@);
        }
        let mut j: usize = 0;
        while j < self.functions.len()
            invariant
                j <= self.functions@.len(),
                forall|k: int| 0 <= k < j ==> (#[trigger] self.functions@[k]).name@ != name@,
                spec_first_fn_id(self.functions@, name@) == j + spec_first_fn_id(
                    self.functions@.skip(j as int),
                    name@,
                ),
            decreases self.functions@.len() - j,
        {
            proof {
                assert(self.functions@.skip(j as int)[0] == self.functions@[j as int]);
                assert(self.functions@.skip(j as int).skip(1) =~= self.functions@.skip(
                    j as int + 1,
                ));
            }
            if string_eq(&self.functions[j].name, name) {
                return Ok(j);
            }
            j = j + 1;
        }
        let mut msg = String::new();
        msg.append("Function \"");
        msg.append(name.as_str());
        msg.append("\" is not defined");
        Err(msg)
    }

    /// Scan an overload set for a subsumption conflict with `a`: an
    /// existing overload whose pattern `a` binds into, or that binds
    /// into `a`. Returns the direction of the first conflict.
    #[verifier::loop_isolation(false)]
    fn find_conflict(&self, ops_of: &Vec<Operation>, a: &Type) -> (r: Option<bool>)
        ensures
            (r is Some) == spec_conflicts(ops_of@, a@, spec_impls(*self)),
            r == spec_first_conflict(ops_of@, a@, spec_impls(*self)),
            r is None ==> forall|k: int|
                0 <= k < ops_of@.len() ==> !spec_bindable(a@, (#[trigger] ops_of@[k]).args@, spec_impls(*self))
                    && !spec_bindable(ops_of@[k].args@, a@, spec_impls(*self)),
    {
        proof {
            lemma_first_conflict_iff(ops_of@, a@, spec_impls(*self));
            assert(ops_of@.skip(0) =~= ops_of@);
        }
        let mut k: usize = 0;
        while k < ops_of.len()
            invariant
                k <= ops_of@.len(),
                spec_first_conflict(ops_of@.skip(k as int), a@, spec_impls(*self))
                    == spec_first_conflict(ops_of@, a@, spec_impls(*self)),
                forall|j: int|
                    0 <= j < k ==> !spec_bindable(a@, (#[trigger] ops_of@[j]).args@, spec_impls(*self))
                        && !spec_bindable(ops_of@[j].args@, a@, spec_impls(*self)),
            decreases ops_of@.len() - k,
        {
            proof {
                assert(ops_of@.skip(k as int)[0] == ops_of@[k as int]);
                assert(ops_of@.skip(k as int).skip(1) =~= ops_of@.skip(k as int + 1));
            }
            if a.bindable_to(&ops_of[k].args, self) {
                return Some(true);
            }
            if ops_of[k].args.bindable_to(a, self) {
                return Some(false);
            }
            k = k + 1;
        }
        proof {
            assert(ops_of@.skip(ops_of@.len() as int) =~= Seq::<Operation>::empty());
        }
        None
    }

    /// Add an overload to a unary operator; fails iff its argument
    /// pattern subsumes, or is subsumed by, an existing overload's.
    /// Success keeps every overload set an antichain.
    pub fn def_unary_operation(
        &mut self,
        id: usize,
        templates: usize,
        arg: Type,
        ret: Type,
        f: Option<usize>,
    ) -> (r: Result<(), String>)
        requires
            id < old(self).unary_ops@.len(),
        ensures
            (r is Ok) == !spec_conflicts(
                old(self).unary_ops@[id as int].operations@,
                arg@,
                spec_impls(*old(self)),
            ),
            r matches Err(m) ==> ({
                let d = spec_first_conflict(
                    old(self).unary_ops@[id as int].operations@,
                    arg@,
                    spec_impls(*old(self)),
                );
                &&& d is Some
                &&& (d == Some(true) ==> m@
                    == "Unary operation is subsumed by an existing one, so it cannot be defined"@)
                &&& (d == Some(false) ==> m@
                    == "Unary operation subsumes an existing one, so it cannot be defined"@)
            }),
            r is Ok ==> ({
                let ops = final(self).unary_ops@;
                &&& ops.len() == old(self).unary_ops@.len()
                &&& forall|k: int|
                    0 <= k < ops.len() && k != id ==> ops[k] == old(self).unary_ops@[k]
                &&& ops[id as int].operations@ == old(self).unary_ops@[id as int].operations@.push(
                    Operation { templates, args: arg, ret, operation: f },
                )
                &&& ops[id as int].id == old(self).unary_ops@[id as int].id
                &&& ops[id as int].representation == old(self).unary_ops@[id as int].representation
                &&& ops[id as int].prefix == old(self).unary_ops@[id as int].prefix
            }),
            r is Err ==> final(self).unary_ops == old(self).unary_ops,
            final(self).type_templates == old(self).type_templates,
            final(self).binary_ops == old(self).binary_ops,
            final(self).nary_ops == old(self).nary_ops,
            final(self).functions == old(self).functions,
            final(self).interfaces == old(self).interfaces,
            final(self).interface_impls == old(self).interface_impls,
            spec_ctx_antichain(*old(self)) ==> spec_ctx_antichain(*final(self)),
    {
        let conflict = self.find_conflict(&self.unary_ops[id].operations, &arg);
        match conflict {
            Some(true) => {
                let mut msg = String::new();
                msg.append("Unary operation is subsumed by an existing one, so it cannot be defined");
                proof {
                    assert(msg@ =~= "Unary operation is subsumed by an existing one, so it cannot be defined"@);
                }
                Err(msg)
            },
            Some(false) => {
                let mut msg = String::new();
                msg.append("Unary operation subsumes an existing one, so it cannot be defined");
                proof {
                    assert(msg@ =~= "Unary operation subsumes an existing one, so it cannot be defined"@);
                }
                Err(msg)
            },
            None => {
                self.unary_ops[id].operations.push(
                    Operation { templates, args: arg, ret, operation: f },
                );
                proof {
                    let old_ops = old(self).unary_ops@[id as int].operations@;
                    let new_ops = self.unary_ops@[id as int].operations@;
                    if spec_ctx_antichain(*old(self)) {
                        assert forall|i: int, j: int|
                            0 <= i < new_ops.len() && 0 <= j < new_ops.len() && i != j
                                implies !spec_bindable(
                                (#[trigger] new_ops[i]).args@,
                                (#[trigger] new_ops[j]).args@,
                                spec_impls(*self),
                            ) by {
                            if i < old_ops.len() && j < old_ops.len() {
                                assert(spec_antichain(old_ops, spec_impls(*old(self))));
                            }
                        }
                    }
                }
                Ok(())
            },
        }
    }

    /// Add an overload to a binary operator, stored as the two-element
    /// product of its argument types; same subsumption rule.
    pub fn def_binary_operation(
        &mut self,
        id: usize,
        templates: usize,
        a: Type,
        b: Type,
        ret: Type,
        f: Option<usize>,
    ) -> (r: Result<(), String>)
        requires
            id < old(self).binary_ops@.len(),
        ensures
            (r is Ok) == !spec_conflicts(
                old(self).binary_ops@[id as int].operations@,
                TypeS::And(seq![a@, b@]),
                spec_impls(*old(self)),
            ),
            r matches Err(m) ==> ({
                let d = spec_first_conflict(
                    old(self).binary_ops@[id as int].operations@,
                    TypeS::And(seq![a@, b@]),
                    spec_impls(*old(self)),
                );
                &&& d is Some
                &&& (d == Some(true) ==> m@
                    == "Binary operation is subsumed by an existing one, so it cannot be defined"@)
                &&& (d == Some(false) ==> m@
                    == "Binary operation subsumes an existing one, so it cannot be defined"@)
            }),
            r is Ok ==> ({
                let ops = final(self).binary_ops@;
                &&& ops.len() == old(self).binary_ops@.len()
                &&& forall|k: int|
                    0 <= k < ops.len() && k != id ==> ops[k] == old(self).binary_ops@[k]
                &&& ops[id as int].operations@.len() == old(
                    self,
                ).binary_ops@[id as int].operations@.len() + 1
                &&& forall|k: int|
                    0 <= k < old(self).binary_ops@[id as int].operations@.len() ==> ops[id as int].operations@[k]
                        == old(self).binary_ops@[id as int].operations@[k]
                &&& ops[id as int].operations@.last().templates == templates
                &&& ops[id as int].operations@.last().args@ == TypeS::And(seq![a@, b@])
                &&& ops[id as int].operations@.last().ret == ret
                &&& ops[id as int].operations@.last().operation == f
                &&& ops[id as int].id == old(self).binary_ops@[id as int].id
                &&& ops[id as int].representation == old(self).binary_ops@[id as int].representation
            }),
            r is Err ==> final(self).binary_ops == old(self).binary_ops,
            final(self).type_templates == old(self).type_templates,
            final(self).unary_ops == old(self).unary_ops,
            final(self).nary_ops == old(self).nary_ops,
            final(self).functions == old(self).functions,
            final(self).interfaces == old(self).interfaces,
            final(self).interface_impls == old(self).interface_impls,
            spec_ctx_antichain(*old(self)) ==> spec_ctx_antichain(*final(self)),
    {
        let ghost av = a@;
        let ghost bv = b@;
        let mut pair: Vec<Type> = Vec::new();
        pair.push(a);
        pair.push(b);
        let ghost pairv = pair@;
        let and = Type::And(pair);
        proof {
            crate::types::lemma_views_index(pairv);
            assert(type_view(pairv[0]) == av);
            assert(type_view(pairv[1]) == bv);
            assert(views(pairv) =~= seq![av, bv]);
            assert(and@ == TypeS::And(views(pairv)));
        }
        let conflict = self.find_conflict(&self.binary_ops[id].operations, &and);
        match conflict {
            Some(true) => {
                let mut msg = String::new();
                msg.append("Binary operation is subsumed by an existing one, so it cannot be defined");
                proof {
                    assert(msg@ =~= "Binary operation is subsumed by an existing one, so it cannot be defined"@);
                }
                Err(msg)
            },
            Some(false) => {
                let mut msg = String::new();
                msg.append("Binary operation subsumes an existing one, so it cannot be defined");
                proof {
                    assert(msg@ =~= "Binary operation subsumes an existing one, so it cannot be defined"@);
                }
                Err(msg)
            },
            None => {
                self.binary_ops[id].operations.push(
                    Operation { templates, args: and, ret, operation: f },
                );
                proof {
                    let old_ops = old(self).binary_ops@[id as int].operations@;
                    let new_ops = self.binary_ops@[id as int].operations@;
                    if spec_ctx_antichain(*old(self)) {
                        assert forall|i: int, j: int|
                            0 <= i < new_ops.len() && 0 <= j < new_ops.len() && i != j
                                implies !spec_bindable(
                                (#[trigger] new_ops[i]).args@,
                                (#[trigger] new_ops[j]).args@,
                                spec_impls(*self),
                            ) by {
                            if i < old_ops.len() && j < old_ops.len() {
                                assert(spec_antichain(old_ops, spec_impls(*old(self))));
                            }
                        }
                    }
                }
                Ok(())
            },
        }
    }

    /// Add an overload to an n-ary operator, stored as the product of
    /// the first argument's type and the bracketed ones; same
    /// subsumption rule.
    #[verifier::loop_isolation(false)]
    pub fn def_nary_operation(
        &mut self,
        id: usize,
        templates: usize,
        from: Type,
        args: Vec<Type>,
        ret: Type,
        f: Option<usize>,
    ) -> (r: Result<(), String>)
        requires
            id < old(self).nary_ops@.len(),
        ensures
            (r is Ok) == !spec_conflicts(
                old(self).nary_ops@[id as int].operations@,
                TypeS::And(seq![from@] + views(args@)),
                spec_impls(*old(self)),
            ),
            r matches Err(m) ==> ({
                let d = spec_first_conflict(
                    old(self).nary_ops@[id as int].operations@,
                    TypeS::And(seq![from@] + views(args@)),
                    spec_impls(*old(self)),
                );
                &&& d is Some
                &&& (d == Some(true) ==> m@
                    == "N-ary operation is subsumed by an existing one, so it cannot be defined"@)
                &&& (d == Some(false) ==> m@
                    == "N-ary operation subsumes an existing one, so it cannot be defined"@)
            }),
            r is Ok ==> ({
                let ops = final(self).nary_ops@;
                &&& ops.len() == old(self).nary_ops@.len()
                &&& forall|k: int|
                    0 <= k < ops.len() && k != id ==> ops[k] == old(self).nary_ops@[k]
                &&& ops[id as int].operations@.len() == old(
                    self,
                ).nary_ops@[id as int].operations@.len() + 1
                &&& forall|k: int|
                    0 <= k < old(self).nary_ops@[id as int].operations@.len() ==> ops[id as int].operations@[k]
                        == old(self).nary_ops@[id as int].operations@[k]
                &&& ops[id as int].operations@.last().templates == templates
                &&& ops[id as int].operations@.last().args@ == TypeS::And(
                    seq![from@] + views(args@),
                )
                &&& ops[id as int].operations@.last().ret == ret
                &&& ops[id as int].operations@.last().operation == f
                &&& ops[id as int].id == old(self).nary_ops@[id as int].id
                &&& ops[id as int].open_rep == old(self).nary_ops@[id as int].open_rep
                &&& ops[id as int].close_rep == old(self).nary_ops@[id as int].close_rep
            }),
            r is Err ==> final(self).nary_ops == old(self).nary_ops,
            final(self).type_templates == old(self).type_templates,
            final(self).unary_ops == old(self).unary_ops,
            final(self).binary_ops == old(self).binary_ops,
            final(self).functions == old(self).functions,
            final(self).interfaces == old(self).interfaces,
            final(self).interface_impls == old(self).interface_impls,
            spec_ctx_antichain(*old(self)) ==> spec_ctx_antichain(*final(self)),
    {
        let ghost fromv = from@;
        let ghost argsv = args@;
        let mut subtypes: Vec<Type> = Vec::new();
        subtypes.push(from);
        proof {
            crate::types::lemma_views_index(argsv);
        }
        let mut i: usize = 0;
        while i < args.len()
            invariant
                i <= argsv.len(),
                args@ == argsv,
                subtypes@.len() == i + 1,
                type_view(subtypes@[0]) == fromv,
                forall|k: int| 0 <= k < i ==> type_view(#[trigger] subtypes@[k + 1]) == type_view(argsv[k]),
            decreases argsv.len() - i,
        {
            let e = args[i].clone_type();
            subtypes.push(e);
            i = i + 1;
        }
        let ghost subv = subtypes@;
        let and = Type::And(subtypes);
        proof {
            crate::types::lemma_views_index(subv);
            assert forall|k: int| 0 <= k < subv.len() implies views(subv)[k] == (seq![fromv]
                + views(argsv))[k] by {
                if k > 0 {
                    let k0 = k - 1;
                    assert(type_view(subv[k0 + 1]) == type_view(argsv[k0]));
                }
            }
            assert(views(subv) =~= seq![fromv] + views(argsv));
            assert(and@ == TypeS::And(seq![from@] + views(args@)));
        }
        let conflict = self.find_conflict(&self.nary_ops[id].operations, &and);
        match conflict {
            Some(true) => {
                let mut msg = String::new();
                msg.append("N-ary operation is subsumed by an existing one, so it cannot be defined");
                proof {
                    assert(msg@ =~= "N-ary operation is subsumed by an existing one, so it cannot be defined"@);
                }
                Err(msg)
            },
            Some(false) => {
                let mut msg = String::new();
                msg.append("N-ary operation subsumes an existing one, so it cannot be defined");
                proof {
                    assert(msg@ =~= "N-ary operation subsumes an existing one, so it cannot be defined"@);
                }
                Err(msg)
            },
            None => {
                self.nary_ops[id].operations.push(
                    Operation { templates, args: and, ret, operation: f },
                );
                proof {
                    let old_ops = old(self).nary_ops@[id as int].operations@;
                    let new_ops = self.nary_ops@[id as int].operations@;
                    if spec_ctx_antichain(*old(self)) {
                        assert forall|i2: int, j2: int|
                            0 <= i2 < new_ops.len() && 0 <= j2 < new_ops.len() && i2 != j2
                                implies !spec_bindable(
                                (#[trigger] new_ops[i2]).args@,
                                (#[trigger] new_ops[j2]).args@,
                                spec_impls(*self),
                            ) by {
                            if i2 < old_ops.len() && j2 < old_ops.len() {
                                assert(spec_antichain(old_ops, spec_impls(*old(self))));
                            }
                        }
                    }
                }
                Ok(())
            },
        }
    }

    /// Add an overload to a function, stored as the product of its
    /// parameter types (`And` of nothing for a zero-parameter
    /// function); same subsumption rule as operators.
    #[verifier::loop_isolation(false)]
    pub fn def_function_overload(
        &mut self,
        id: usize,
        templates: usize,
        args: Vec<Type>,
        ret: Type,
        f: Option<usize>,
    ) -> (r: Result<(), String>)
        requires
            id < old(self).functions@.len(),
        ensures
            (r is Ok) == !spec_conflicts(
                old(self).functions@[id as int].overloads@,
                TypeS::And(views(args@)),
                spec_impls(*old(self)),
            ),
            r matches Err(m) ==> ({
                let d = spec_first_conflict(
                    old(self).functions@[id as int].overloads@,
                    TypeS::And(views(args@)),
                    spec_impls(*old(self)),
                );
                &&& d is Some
                &&& (d == Some(true) ==> m@
                    == "Function overload is subsumed by an existing one, so it cannot be defined"@)
                &&& (d == Some(false) ==> m@
                    == "Function overload subsumes an existing one, so it cannot be defined"@)
            }),
            r is Ok ==> ({
                let fs = final(self).functions@;
                &&& fs.len() == old(self).functions@.len()
                &&& forall|k: int| 0 <= k < fs.len() && k != id ==> fs[k] == old(self).functions@[k]
                &&& fs[id as int].overloads@.len() == old(
                    self,
                ).functions@[id as int].overloads@.len() + 1
                &&& forall|k: int|
                    0 <= k < old(self).functions@[id as int].overloads@.len() ==> fs[id as int].overloads@[k]
                        == old(self).functions@[id as int].overloads@[k]
                &&& fs[id as int].overloads@.last().templates == templates
                &&& fs[id as int].overloads@.last().args@ == TypeS::And(views(args@))
                &&& fs[id as int].overloads@.last().ret == ret
                &&& fs[id as int].overloads@.last().operation == f
                &&& fs[id as int].id == old(self).functions@[id as int].id
                &&& fs[id as int].name == old(self).functions@[id as int].name
            }),
            r is Err ==> final(self).functions == old(self).functions,
            final(self).type_templates == old(self).type_templates,
            final(self).unary_ops == old(self).unary_ops,
            final(self).binary_ops == old(self).binary_ops,
            final(self).nary_ops == old(self).nary_ops,
            final(self).interfaces == old(self).interfaces,
            final(self).interface_impls == old(self).interface_impls,
            spec_ctx_antichain(*old(self)) ==> spec_ctx_antichain(*final(self)),
    {
        let ghost argsv = args@;
        let and = Type::And(args);
        proof {
            assert(and@ == TypeS::And(views(argsv)));
        }
        let conflict = self.find_conflict(&self.functions[id].overloads, &and);
        match conflict {
            Some(true) => {
                let mut msg = String::new();
                msg.append("Function overload is subsumed by an existing one, so it cannot be defined");
                proof {
                    assert(msg@ =~= "Function overload is subsumed by an existing one, so it cannot be defined"@);
                }
                Err(msg)
            },
            Some(false) => {
                let mut msg = String::new();
                msg.append("Function overload subsumes an existing one, so it cannot be defined");
                proof {
                    assert(msg@ =~= "Function overload subsumes an existing one, so it cannot be defined"@);
                }
                Err(msg)
            },
            None => {
                self.functions[id].overloads.push(
                    Operation { templates, args: and, ret, operation: f },
                );
                proof {
                    let old_ops = old(self).functions@[id as int].overloads@;
                    let new_ops = self.functions@[id as int].overloads@;
                    if spec_ctx_antichain(*old(self)) {
                        assert forall|i2: int, j2: int|
                            0 <= i2 < new_ops.len() && 0 <= j2 < new_ops.len() && i2 != j2
                                implies !spec_bindable(
                                (#[trigger] new_ops[i2]).args@,
                                (#[trigger] new_ops[j2]).args@,
                                spec_impls(*self),
                            ) by {
                            if i2 < old_ops.len() && j2 < old_ops.len() {
                                assert(spec_antichain(old_ops, spec_impls(*old(self))));
                            }
                        }
                    }
                }
                Ok(())
            },
        }
    }

    /// The indices of the unary operator's overloads that accept an
    /// argument of type `a`, in declaration order.
    #[verifier::loop_isolation(false)]
    pub fn get_unary_operations(&self, id: usize, a: &Type) -> (r: Vec<usize>)
        requires
            id < self.unary_ops@.len(),
        ensures
            forall|j: int|
                0 <= j < self.unary_ops@[id as int].operations@.len() ==> (spec_bindable(
                    a@,
                    (#[trigger] self.unary_ops@[id as int].operations@[j]).args@,
                    spec_impls(*self),
                ) <==> r@.contains(j as usize)),
            forall|k: int|
                0 <= k < r@.len() ==> (#[trigger] r@[k]) < self.unary_ops@[id as int].operations@.len(),
            forall|k1: int, k2: int| 0 <= k1 < k2 < r@.len() ==> r@[k1] < r@[k2],
    {
        let ops = &self.unary_ops[id].operations;
        let mut out: Vec<usize> = Vec::new();
        let mut j: usize = 0;
        while j < ops.len()
            invariant
                j <= ops@.len(),
                forall|k: int|
                    0 <= k < j ==> (spec_bindable(
                        a@,
                        (#[trigger] ops@[k]).args@,
                        spec_impls(*self),
                    ) <==> out@.contains(k as usize)),
                forall|k: int| 0 <= k < out@.len() ==> (#[trigger] out@[k]) < j,
                forall|k1: int, k2: int| 0 <= k1 < k2 < out@.len() ==> out@[k1] < out@[k2],
            decreases ops@.len() - j,
        {
            let ghost out0 = out@;
            let accepted = a.bindable_to(&ops[j].args, self);
            if accepted {
                out.push(j);
            }
            proof {
                assert forall|k: int|
                    0 <= k < j + 1 implies (spec_bindable(
                    a@,
                    (#[trigger] ops@[k]).args@,
                    spec_impls(*self),
                ) <==> out@.contains(k as usize)) by {
                    if accepted {
                        assert(out@ == out0.push(j));
                        if k < j {
                            if spec_bindable(a@, ops@[k].args@, spec_impls(*self)) {
                                let idx = choose|idx: int|
                                    0 <= idx < out0.len() && out0[idx] == k as usize;
                                assert(out@[idx] == k as usize);
                            }
                            if out@.contains(k as usize) {
                                let idx = choose|idx: int|
                                    0 <= idx < out@.len() && out@[idx] == k as usize;
                                if idx < out0.len() {
                                    assert(out0[idx] == k as usize);
                                }
                            }
                        } else {
                            assert(out@[out0.len() as int] == j);
                        }
                    } else {
                        if k == j && out@.contains(k as usize) {
                            let idx = choose|idx: int|
                                0 <= idx < out@.len() && out@[idx] == k as usize;
                        }
                    }
                }
            }
            j = j + 1;
        }
        out
    }

    /// The indices of the binary operator's overloads that accept the
    /// argument pair, in declaration order.
    #[verifier::loop_isolation(false)]
    pub fn get_binary_operations(&self, id: usize, a: &Type, b: &Type) -> (r: Vec<usize>)
        requires
            id < self.binary_ops@.len(),
        ensures
            forall|j: int|
                0 <= j < self.binary_ops@[id as int].operations@.len() ==> (spec_bindable(
                    TypeS::And(seq![a@, b@]),
                    (#[trigger] self.binary_ops@[id as int].operations@[j]).args@,
                    spec_impls(*self),
                ) <==> r@.contains(j as usize)),
            forall|k: int|
                0 <= k < r@.len() ==> (#[trigger] r@[k])
                    < self.binary_ops@[id as int].operations@.len(),
            forall|k1: int, k2: int| 0 <= k1 < k2 < r@.len() ==> r@[k1] < r@[k2],
    {
        let ghost av = a@;
        let ghost bv = b@;
        let mut pair: Vec<Type> = Vec::new();
        let ca = a.clone_type();
        pair.push(ca);
        let cb = b.clone_type();
        pair.push(cb);
        let ghost pairv = pair@;
        let and = Type::And(pair);
        proof {
            crate::types::lemma_views_index(pairv);
            assert(type_view(pairv[0]) == av);
            assert(type_view(pairv[1]) == bv);
            assert(views(pairv) =~= seq![av, bv]);
            assert(and@ == TypeS::And(seq![av, bv]));
        }
        let ops = &self.binary_ops[id].operations;
        let mut out: Vec<usize> = Vec::new();
        let mut j: usize = 0;
        while j < ops.len()
            invariant
                j <= ops@.len(),
                and@ == TypeS::And(seq![av, bv]),
                forall|k: int|
                    0 <= k < j ==> (spec_bindable(
                        TypeS::And(seq![av, bv]),
                        (#[trigger] ops@[k]).args@,
                        spec_impls(*self),
                    ) <==> out@.contains(k as usize)),
                forall|k: int| 0 <= k < out@.len() ==> (#[trigger] out@[k]) < j,
                forall|k1: int, k2: int| 0 <= k1 < k2 < out@.len() ==> out@[k1] < out@[k2],
            decreases ops@.len() - j,
        {
            let ghost out0 = out@;
            let accepted = and.bindable_to(&ops[j].args, self);
            if accepted {
                out.push(j);
            }
            proof {
                assert forall|k: int|
                    0 <= k < j + 1 implies (spec_bindable(
                    TypeS::And(seq![av, bv]),
                    (#[trigger] ops@[k]).args@,
                    spec_impls(*self),
                ) <==> out@.contains(k as usize)) by {
                    if accepted {
                        assert(out@ == out0.push(j));
                        if k < j {
                            if spec_bindable(TypeS::And(seq![av, bv]), ops@[k].args@, spec_impls(*self)) {
                                let idx = choose|idx: int|
                                    0 <= idx < out0.len() && out0[idx] == k as usize;
                                assert(out@[idx] == k as usize);
                            }
                            if out@.contains(k as usize) {
                                let idx = choose|idx: int|
                                    0 <= idx < out@.len() && out@[idx] == k as usize;
                                if idx < out0.len() {
                                    assert(out0[idx] == k as usize);
                                }
                            }
                        } else {
                            assert(out@[out0.len() as int] == j);
                        }
                    } else {
                        if k == j && out@.contains(k as usize) {
                            let idx = choose|idx: int|
                                0 <= idx < out@.len() && out@[idx] == k as usize;
                        }
                    }
                }
            }
            j = j + 1;
        }
        out
    }

    /// The first overload of the n-ary operator that accepts the
    /// argument tuple, in declaration order.
    #[verifier::loop_isolation(false)]
    pub fn get_nary_operation(&self, id: usize, from: &Type, args: &Vec<Type>) -> (r: Option<usize>)
        requires
            id < self.nary_ops@.len(),
        ensures
            ({
                let t = TypeS::And(seq![from@] + views(args@));
                let ops = self.nary_ops@[id as int].operations@;
                match r {
                    Some(k) => (k as int) < ops.len() && spec_bindable(
                        t,
                        ops[k as int].args@,
                        spec_impls(*self),
                    ) && forall|j: int|
                        0 <= j < k ==> !spec_bindable(
                            t,
                            (#[trigger] ops[j]).args@,
                            spec_impls(*self),
                        ),
                    None => forall|j: int|
                        0 <= j < ops.len() ==> !spec_bindable(
                            t,
                            (#[trigger] ops[j]).args@,
                            spec_impls(*self),
                        ),
                }
            }),
    {
        let ghost fromv = from@;
        let ghost argsv = args@;
        let mut subtypes: Vec<Type> = Vec::new();
        subtypes.push(from.clone_type());
        proof {
            crate::types::lemma_views_index(argsv);
        }
        let mut i: usize = 0;
        while i < args.len()
            invariant
                i <= argsv.len(),
                args@ == argsv,
                subtypes@.len() == i + 1,
                type_view(subtypes@[0]) == fromv,
                forall|k: int|
                    0 <= k < i ==> type_view(#[trigger] subtypes@[k + 1]) == type_view(argsv[k]),
            decreases argsv.len() - i,
        {
            let e = args[i].clone_type();
            subtypes.push(e);
            i = i + 1;
        }
        let ghost subv = subtypes@;
        let and = Type::And(subtypes);
        proof {
            crate::types::lemma_views_index(subv);
            assert forall|k: int|
                0 <= k < subv.len() implies views(subv)[k] == (seq![fromv] + views(argsv))[k] by {
                if k > 0 {
                    let k0 = k - 1;
                    assert(type_view(subv[k0 + 1]) == type_view(argsv[k0]));
                }
            }
            assert(views(subv) =~= seq![fromv] + views(argsv));
            assert(and@ == TypeS::And(seq![fromv] + views(argsv)));
        }
        let ops = &self.nary_ops[id].operations;
        let mut j: usize = 0;
        while j < ops.len()
            invariant
                j <= ops@.len(),
                and@ == TypeS::And(seq![fromv] + views(argsv)),
                forall|k: int|
                    0 <= k < j ==> !spec_bindable(
                        and@,
                        (#[trigger] ops@[k]).args@,
                        spec_impls(*self),
                    ),
            decreases ops@.len() - j,
        {
            if and.bindable_to(&ops[j].args, self) {
                return Some(j);
            }
            j = j + 1;
        }
        None
    }

    /// Record an interface; fails iff the name is already in use.
    #[verifier::loop_isolation(false)]
    pub fn define_interface(
        &mut self,
        name: String,
        params: Vec<String>,
        fns: Vec<crate::interfaces::InterfaceFn>,
        uns: Vec<crate::interfaces::InterfaceUnaryOp>,
        bin: Vec<crate::interfaces::InterfaceBinaryOp>,
        nary: Vec<crate::interfaces::InterfaceNaryOp>,
    ) -> (r: Result<(), String>)
        ensures
            (r is Ok) == !spec_interface_name_taken(old(self).interfaces@, name@),
            r is Ok ==> ({
                let is = final(self).interfaces@;
                &&& is.len() == old(self).interfaces@.len() + 1
                &&& forall|k: int|
                    0 <= k < old(self).interfaces@.len() ==> is[k] == old(self).interfaces@[k]
                &&& is.last().id == old(self).interfaces@.len()
                &&& is.last().name == name
                &&& is.last().params == params
                &&& is.last().fns == fns
                &&& is.last().uns == uns
                &&& is.last().bin == bin
                &&& is.last().nary == nary
            }),
            r is Err ==> final(self).interfaces == old(self).interfaces,
            final(self).type_templates == old(self).type_templates,
            final(self).unary_ops == old(self).unary_ops,
            final(self).binary_ops == old(self).binary_ops,
            final(self).nary_ops == old(self).nary_ops,
            final(self).functions == old(self).functions,
            final(self).interface_impls == old(self).interface_impls,
            spec_ctx_antichain(*old(self)) ==> spec_ctx_antichain(*final(self)),
    {
        let mut j: usize = 0;
        while j < self.interfaces.len()
            invariant
                j <= self.interfaces@.len(),
                forall|k: int| 0 <= k < j ==> (#[trigger] self.interfaces@[k]).name@ != name@,
            decreases self.interfaces@.len() - j,
        {
            if string_eq(&self.interfaces[j].name, &name) {
                let mut msg = String::new();
                msg.append("Interface \"");
                msg.append(name.as_str());
                msg.append("\" is already defined");
                return Err(msg);
            }
            j = j + 1;
        }
        let id = self.interfaces.len();
        self.interfaces.push(Interface { id, name, params, fns, uns, bin, nary });
        Ok(())
    }

    /// Record that a type implements an interface, looked up by name;
    /// fails iff no interface carries the name. Adding an
    /// implementation can enlarge the bindability relation, so the
    /// antichain property is re-established by later definitions, not
    /// preserved here; implementations are recorded before operations
    /// in a well-formed declaration pass.
    pub fn define_interface_impl(
        &mut self,
        name: String,
        _templates: Vec<String>,
        interface_type: Type,
        args: Vec<Type>,
    ) -> (r: Result<(), String>)
        ensures
            (r is Ok) == spec_interface_name_taken(old(self).interfaces@, name@),
            r is Ok ==> ({
                let is = final(self).interface_impls@;
                &&& is.len() == old(self).interface_impls@.len() + 1
                &&& forall|k: int|
                    0 <= k < old(self).interface_impls@.len() ==> is[k] == old(
                        self,
                    ).interface_impls@[k]
                &&& is.last().interface_id < final(self).interfaces@.len()
                &&& final(self).interfaces@[is.last().interface_id as int].name@ == name@
                &&& is.last().interface_type == interface_type
                &&& is.last().args == args
            }),
            r is Err ==> final(self).interface_impls == old(self).interface_impls,
            final(self).type_templates == old(self).type_templates,
            final(self).unary_ops == old(self).unary_ops,
            final(self).binary_ops == old(self).binary_ops,
            final(self).nary_ops == old(self).nary_ops,
            final(self).functions == old(self).functions,
            final(self).interfaces == old(self).interfaces,
    {
        let id = match self.get_interface_id(&name) {
            Ok(id) => id,
            Err(e) => {
                return Err(e);
            },
        };
        self.interface_impls.push(InterfaceImpl { interface_id: id, args, interface_type });
        Ok(())
    }

    /// The id of the interface with this name.
    #[verifier::loop_isolation(false)]
    pub fn get_interface_id(&self, name: &String) -> (r: Result<usize, String>)
        ensures
            (r is Ok) == spec_interface_name_taken(self.interfaces@, name@),
            r matches Ok(id) ==> id < self.interfaces@.len() && self.interfaces@[id as int].name@
                == name@ && id == spec_first_iface_id(self.interfaces@, name@),
    {
        proof {
            assert(self.interfaces@.skip(0) =~= self.interfaces@);
        }
        let mut j: usize = 0;
        while j < self.interfaces.len()
            invariant
                j <= self.interfaces@.len(),
                forall|k: int| 0 <= k < j ==> (#[trigger] self.interfaces@[k]).name@ != name@,
                spec_first_iface_id(self.interfaces@, name@) == j + spec_first_iface_id(
                    self.interfaces@.skip(j as int),
                    name@,
                ),
            decreases self.interfaces@.len() - j,
        {
            proof {
                assert(self.interfaces@.skip(j as int)[0] == self.interfaces@[j as int]);
                assert(self.interfaces@.skip(j as int).skip(1) =~= self.interfaces@.skip(
                    j as int + 1,
                ));
            }
            if string_eq(&self.interfaces[j].name, name) {
                return Ok(j);
            }
            j = j + 1;
        }
        let mut msg = String::new();
        msg.append("Interface \"");
        msg.append(name.as_str());
        msg.append("\" is not defined");
        Err(msg)
    }
}

/// Every overload set of the registry has at most one overload; such a
/// registry is an antichain whatever the implementations say.
pub open spec fn spec_all_sets_singleton(ctx: NessaContext) -> bool {
    &&& forall|o: int|
        0 <= o < ctx.unary_ops@.len() ==> (#[trigger] ctx.unary_ops@[o]).operations@.len() <= 1
    &&& forall|o: int|
        0 <= o < ctx.binary_ops@.len() ==> (#[trigger] ctx.binary_ops@[o]).operations@.len() <= 1
    &&& forall|o: int|
        0 <= o < ctx.nary_ops@.len() ==> (#[trigger] ctx.nary_ops@[o]).operations@.len() <= 1
    &&& forall|f: int|
        0 <= f < ctx.functions@.len() ==> (#[trigger] ctx.functions@[f]).overloads@.len() <= 1
}

pub proof fn lemma_singleton_antichain(ctx: NessaContext)
    requires
        spec_all_sets_singleton(ctx),
    ensures
        spec_ctx_antichain(ctx),
{
}

/// The standard registry: the basic types, the seed operators and
/// functions (one overload each), and the standard interfaces.
pub fn standard_ctx() -> (r: NessaContext)
    ensures
        spec_ctx_antichain(r),
        r.type_templates@.len() == 7,
        r.type_templates@[0].name@ == "Bool"@ && r.type_templates@[0].params@.len() == 0,
        r.type_templates@[1].name@ == "Int"@ && r.type_templates@[1].params@.len() == 0,
        r.type_templates@[2].name@ == "String"@ && r.type_templates@[2].params@.len() == 0,
        r.type_templates@[3].name@ == "Number"@ && r.type_templates@[3].params@.len() == 0,
        r.type_templates@[4].name@ == "Float"@ && r.type_templates@[4].params@.len() == 0,
        r.type_templates@[5].name@ == "Array"@ && r.type_templates@[5].params@.len() == 1,
        r.type_templates@[6].name@ == "ArrayIterator"@ && r.type_templates@[6].params@.len() == 1,
        forall|k: int| 0 <= k < 7 ==> (#[trigger] r.type_templates@[k]).id == k
            && r.type_templates@[k].attributes@.len() == 0,
        r.unary_ops@.len() == 2,
        r.unary_ops@[0].representation@ == "!"@ && r.unary_ops@[0].operations@.len() == 1
            && r.unary_ops@[0].operations@[0].args@ == TypeS::Basic(0)
            && r.unary_ops@[0].operations@[0].ret@ == TypeS::Basic(0),
        r.unary_ops@[1].representation@ == "-"@ && r.unary_ops@[1].operations@.len() == 1
            && r.unary_ops@[1].operations@[0].args@ == spec_int_union()
            && r.unary_ops@[1].operations@[0].ret@ == TypeS::Basic(1),
        r.binary_ops@.len() == 1,
        r.binary_ops@[0].representation@ == "+"@ && r.binary_ops@[0].operations@.len() == 1
            && r.binary_ops@[0].operations@[0].args@ == TypeS::And(
            seq![spec_int_union(), spec_int_union()],
        ) && r.binary_ops@[0].operations@[0].ret@ == TypeS::Basic(1),
        r.nary_ops@.len() == 1,
        r.nary_ops@[0].open_rep@ == "("@ && r.nary_ops@[0].close_rep@ == ")"@
            && r.nary_ops@[0].operations@.len() == 1 && r.nary_ops@[0].operations@[0].args@
            == TypeS::And(seq![TypeS::Basic(1), TypeS::Basic(1)])
            && r.nary_ops@[0].operations@[0].ret@ == TypeS::Basic(1),
        r.functions@.len() == 4,
        r.functions@[0].name@ == "inc"@ && r.functions@[0].overloads@.len() == 1
            && r.functions@[0].overloads@[0].args@ == TypeS::And(
            seq![TypeS::MutRef(Box::new(TypeS::Basic(1)))],
        ) && r.functions@[0].overloads@[0].ret@ == TypeS::Empty,
        r.functions@[1].name@ == "arr"@ && r.functions@[1].overloads@.len() == 1
            && r.functions@[1].overloads@[0].templates == 1
            && r.functions@[1].overloads@[0].args@ == TypeS::And(Seq::empty())
            && r.functions@[1].overloads@[0].ret@ == TypeS::Template(
            5,
            seq![TypeS::TemplateParam(0, Seq::empty())],
        ),
        r.functions@[2].name@ == "iterator"@ && r.functions@[2].overloads@.len() == 1,
        r.functions@[3].name@ == "next"@ && r.functions@[3].overloads@.len() == 1,
        r.interfaces@.len() == 2,
        r.interfaces@[0].name@ == "Iterable"@,
        r.interfaces@[1].name@ == "Printable"@,
        r.interface_impls@.len() == 6,
{
    let mut ctx = NessaContext::new();

    // Types.
    push_basic_type(&mut ctx, "Bool");
    push_basic_type(&mut ctx, "Int");
    push_basic_type(&mut ctx, "String");
    push_basic_type(&mut ctx, "Number");
    push_basic_type(&mut ctx, "Float");
    push_param_type(&mut ctx, "Array");
    push_param_type(&mut ctx, "ArrayIterator");

    // Unary operators: logical negation on booleans, arithmetic
    // negation on integers.
    let mut not_ops: Vec<Operation> = Vec::new();
    not_ops.push(
        Operation { templates: 0, args: Type::Basic(0), ret: Type::Basic(0), operation: Some(0) },
    );
    let not_id = ctx.unary_ops.len();
    ctx.unary_ops.push(
        UnaryOperator {
            id: not_id,
            representation: String::from_str("!"),
            prefix: true,
            operations: not_ops,
        },
    );
    let mut neg_ops: Vec<Operation> = Vec::new();
    neg_ops.push(
        Operation { templates: 0, args: int_union(), ret: Type::Basic(1), operation: Some(1) },
    );
    let neg_id = ctx.unary_ops.len();
    ctx.unary_ops.push(
        UnaryOperator {
            id: neg_id,
            representation: String::from_str("-"),
            prefix: true,
            operations: neg_ops,
        },
    );

    // The binary addition operator on integers, whether held by value
    // or through a reference.
    let mut add_pair: Vec<Type> = Vec::new();
    add_pair.push(int_union());
    add_pair.push(int_union());
    let ghost apv = add_pair@;
    let add_and = Type::And(add_pair);
    proof {
        crate::types::lemma_views_index(apv);
        assert(type_view(apv[0]) == spec_int_union());
        assert(type_view(apv[1]) == spec_int_union());
        assert(views(apv) =~= seq![spec_int_union(), spec_int_union()]);
        assert(add_and@ == TypeS::And(seq![spec_int_union(), spec_int_union()]));
    }
    let mut add_ops: Vec<Operation> = Vec::new();
    add_ops.push(
        Operation { templates: 0, args: add_and, ret: Type::Basic(1), operation: Some(2) },
    );
    let add_id = ctx.binary_ops.len();
    ctx.binary_ops.push(
        BinaryOperator { id: add_id, representation: String::from_str("+"), operations: add_ops },
    );

    // The call operator, seeded with integer application.
    let mut call_pair: Vec<Type> = Vec::new();
    call_pair.push(Type::Basic(1));
    call_pair.push(Type::Basic(1));
    let ghost cpv = call_pair@;
    let call_and = Type::And(call_pair);
    proof {
        crate::types::lemma_views_index(cpv);
        assert(type_view(cpv[0]) == TypeS::Basic(1));
        assert(type_view(cpv[1]) == TypeS::Basic(1));
        assert(views(cpv) =~= seq![TypeS::Basic(1), TypeS::Basic(1)]);
        assert(call_and@ == TypeS::And(seq![TypeS::Basic(1), TypeS::Basic(1)]));
    }
    let mut call_ops: Vec<Operation> = Vec::new();
    call_ops.push(
        Operation { templates: 0, args: call_and, ret: Type::Basic(1), operation: Some(3) },
    );
    let call_id = ctx.nary_ops.len();
    ctx.nary_ops.push(
        NaryOperator {
            id: call_id,
            open_rep: String::from_str("("),
            close_rep: String::from_str(")"),
            operations: call_ops,
        },
    );

    // Standard functions: incrementing an integer in place, building
    // an empty array, and the iteration pair.
    let mut inc_args: Vec<Type> = Vec::new();
    inc_args.push(Type::MutRef(Box::new(Type::Basic(1))));
    let ghost iav = inc_args@;
    let inc_and = Type::And(inc_args);
    proof {
        crate::types::lemma_views_index(iav);
        assert(views(iav) =~= seq![TypeS::MutRef(Box::new(TypeS::Basic(1)))]);
        assert(inc_and@ == TypeS::And(seq![TypeS::MutRef(Box::new(TypeS::Basic(1)))]));
    }
    let mut inc_ovs: Vec<Operation> = Vec::new();
    inc_ovs.push(
        Operation { templates: 0, args: inc_and, ret: Type::Empty, operation: Some(4) },
    );
    let inc_id = ctx.functions.len();
    ctx.functions.push(
        Function { id: inc_id, name: String::from_str("inc"), overloads: inc_ovs },
    );

    let mut arr_ovs: Vec<Operation> = Vec::new();
    let mut arr_ret_args: Vec<Type> = Vec::new();
    arr_ret_args.push(Type::TemplateParam(0, Vec::new()));
    let ghost arv = arr_ret_args@;
    let arr_ret = Type::Template(5, arr_ret_args);
    let empty_args: Vec<Type> = Vec::new();
    let ghost eav = empty_args@;
    let arr_and = Type::And(empty_args);
    proof {
        crate::types::lemma_views_index(arv);
        assert(crate::types::views_cs(Seq::<crate::types::InterfaceConstraint>::empty())
            =~= Seq::<crate::types::ConstraintS>::empty());
        assert(views(arv) =~= seq![TypeS::TemplateParam(0, Seq::empty())]);
        assert(arr_ret@ == TypeS::Template(5, seq![TypeS::TemplateParam(0, Seq::empty())]));
        assert(views(eav) =~= Seq::<TypeS>::empty());
        assert(arr_and@ == TypeS::And(Seq::empty()));
    }
    arr_ovs.push(
        Operation { templates: 1, args: arr_and, ret: arr_ret, operation: Some(5) },
    );
    let arr_id = ctx.functions.len();
    ctx.functions.push(
        Function { id: arr_id, name: String::from_str("arr"), overloads: arr_ovs },
    );

    let mut it_args: Vec<Type> = Vec::new();
    let mut it_arg_inner: Vec<Type> = Vec::new();
    it_arg_inner.push(Type::TemplateParam(0, Vec::new()));
    it_args.push(Type::Template(5, it_arg_inner));
    let mut it_ret_inner: Vec<Type> = Vec::new();
    it_ret_inner.push(Type::TemplateParam(0, Vec::new()));
    let mut it_ovs: Vec<Operation> = Vec::new();
    it_ovs.push(
        Operation {
            templates: 1,
            args: Type::And(it_args),
            ret: Type::Template(6, it_ret_inner),
            operation: Some(6),
        },
    );
    let it_id = ctx.functions.len();
    ctx.functions.push(
        Function { id: it_id, name: String::from_str("iterator"), overloads: it_ovs },
    );

    let mut nx_arg_inner: Vec<Type> = Vec::new();
    nx_arg_inner.push(Type::TemplateParam(0, Vec::new()));
    let mut nx_args: Vec<Type> = Vec::new();
    nx_args.push(Type::MutRef(Box::new(Type::Template(6, nx_arg_inner))));
    let mut nx_ovs: Vec<Operation> = Vec::new();
    nx_ovs.push(
        Operation {
            templates: 1,
            args: Type::And(nx_args),
            ret: Type::TemplateParam(0, Vec::new()),
            operation: Some(7),
        },
    );
    let nx_id = ctx.functions.len();
    ctx.functions.push(
        Function { id: nx_id, name: String::from_str("next"), overloads: nx_ovs },
    );

    crate::interfaces::standard_interfaces(&mut ctx);
    proof {
        lemma_singleton_antichain(ctx);
    }
    ctx
}

/// The union of an integer held by value, through a shared reference,
/// or through a mutable reference.
pub open spec fn spec_int_union() -> TypeS {
    TypeS::Or(
        seq![
            TypeS::Basic(1),
            TypeS::Ref(Box::new(TypeS::Basic(1))),
            TypeS::MutRef(Box::new(TypeS::Basic(1))),
        ],
    )
}

/// The union of an integer held by value, through a shared reference,
/// or through a mutable reference; the standard arithmetic overloads
/// accept all three.
fn int_union() -> (r: Type)
    ensures
        r@ == TypeS::Or(
            seq![
                TypeS::Basic(1),
                TypeS::Ref(Box::new(TypeS::Basic(1))),
                TypeS::MutRef(Box::new(TypeS::Basic(1))),
            ],
        ),
{
    let mut members: Vec<Type> = Vec::new();
    members.push(Type::Basic(1));
    members.push(Type::Ref(Box::new(Type::Basic(1))));
    members.push(Type::MutRef(Box::new(Type::Basic(1))));
    let ghost mv = members@;
    let r = Type::Or(members);
    proof {
        crate::types::lemma_views_index(mv);
        assert(views(mv).len() == 3);
        assert(views(mv)[0] == type_view(mv[0]));
        assert(views(mv)[1] == type_view(mv[1]));
        assert(views(mv)[2] == type_view(mv[2]));
        assert(type_view(mv[0]) == TypeS::Basic(1));
        assert(type_view(mv[1]) == TypeS::Ref(Box::new(TypeS::Basic(1))));
        assert(type_view(mv[2]) == TypeS::MutRef(Box::new(TypeS::Basic(1))));
        assert(views(mv) =~= seq![
            TypeS::Basic(1),
            TypeS::Ref(Box::new(TypeS::Basic(1))),
            TypeS::MutRef(Box::new(TypeS::Basic(1))),
        ]);
    }
    r
}

fn push_basic_type(ctx: &mut NessaContext, name: &str)
    ensures
        final(ctx).type_templates@.len() == old(ctx).type_templates@.len() + 1,
        final(ctx).unary_ops == old(ctx).unary_ops,
        final(ctx).binary_ops == old(ctx).binary_ops,
        final(ctx).nary_ops == old(ctx).nary_ops,
        final(ctx).functions == old(ctx).functions,
        final(ctx).interfaces == old(ctx).interfaces,
        final(ctx).interface_impls == old(ctx).interface_impls,
        final(ctx).type_templates@.last().name@ == name@,
        final(ctx).type_templates@.last().params@.len() == 0,
        final(ctx).type_templates@.last().id == old(ctx).type_templates@.len(),
        final(ctx).type_templates@.last().attributes@.len() == 0,
        forall|k: int|
            0 <= k < old(ctx).type_templates@.len() ==> final(ctx).type_templates@[k] == old(
                ctx,
            ).type_templates@[k],
{
    let id = ctx.type_templates.len();
    ctx.type_templates.push(
        TypeTemplate {
            id,
            name: String::from_str(name),
            params: Vec::new(),
            attributes: Vec::new(),
        },
    );
}

fn push_param_type(ctx: &mut NessaContext, name: &str)
    ensures
        final(ctx).type_templates@.len() == old(ctx).type_templates@.len() + 1,
        final(ctx).unary_ops == old(ctx).unary_ops,
        final(ctx).binary_ops == old(ctx).binary_ops,
        final(ctx).nary_ops == old(ctx).nary_ops,
        final(ctx).functions == old(ctx).functions,
        final(ctx).interfaces == old(ctx).interfaces,
        final(ctx).interface_impls == old(ctx).interface_impls,
        final(ctx).type_templates@.last().name@ == name@,
        final(ctx).type_templates@.last().params@.len() == 1,
        final(ctx).type_templates@.last().id == old(ctx).type_templates@.len(),
        final(ctx).type_templates@.last().attributes@.len() == 0,
        forall|k: int|
            0 <= k < old(ctx).type_templates@.len() ==> final(ctx).type_templates@[k] == old(
                ctx,
            ).type_templates@[k],
{
    let id = ctx.type_templates.len();
    let mut params: Vec<String> = Vec::new();
    params.push(String::from_str("Inner"));
    ctx.type_templates.push(
        TypeTemplate { id, name: String::from_str(name), params, attributes: Vec::new() },
    );
}

} // verus!
