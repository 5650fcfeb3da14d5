//! The type algebra: type representation, bindability, template
//! substitution and the predicates the registry and checker depend on.

use vstd::prelude::*;

verus! {

/// A constraint attached to a template parameter: the binding type must
/// implement the interface `id` with the given arguments.
pub struct InterfaceConstraint {
    pub id: usize,
    pub args: Vec<Type>,
}

/// The types of the object language.
pub enum Type {
    /// Unit / no value.
    Empty,
    /// Stand-in for the implementing type inside interface bodies.
    SelfType,
    /// Matches anything on the pattern side of bindability.
    Wildcard,
    /// Placeholder produced before inference fills it.
    InferenceMarker,
    /// Concrete non-generic named type, by registry index.
    Basic(usize),
    /// Instantiation of a parametric named type.
    Template(usize, Vec<Type>),
    /// The i-th template parameter of the enclosing declaration.
    TemplateParam(usize, Vec<InterfaceConstraint>),
    /// Unresolved parameter placeholder (a name-resolution error).
    TemplateParamStr(String, Vec<InterfaceConstraint>),
    /// Shared reference.
    Ref(Box<Type>),
    /// Mutable reference.
    MutRef(Box<Type>),
    /// Sum type.
    Or(Vec<Type>),
    /// Product type.
    And(Vec<Type>),
    /// Function type.
    Function(Box<Type>, Box<Type>),
}

/// Mathematical model of an `InterfaceConstraint`.
pub ghost struct ConstraintS {
    pub id: int,
    pub args: Seq<TypeS>,
}

/// Mathematical model of a `Type`.
pub ghost enum TypeS {
    Empty,
    SelfType,
    Wildcard,
    InferenceMarker,
    Basic(int),
    Template(int, Seq<TypeS>),
    TemplateParam(int, Seq<ConstraintS>),
    TemplateParamStr(Seq<char>, Seq<ConstraintS>),
    Ref(Box<TypeS>),
    MutRef(Box<TypeS>),
    Or(Seq<TypeS>),
    And(Seq<TypeS>),
    Function(Box<TypeS>, Box<TypeS>),
}

/// Model of a `Type`, as a value of the ghost mirror.
pub open spec fn type_view(t: Type) -> TypeS
    decreases t,
{
    match t {
        Type::Empty => TypeS::Empty,
        Type::SelfType => TypeS::SelfType,
        Type::Wildcard => TypeS::Wildcard,
        Type::InferenceMarker => TypeS::InferenceMarker,
        Type::Basic(id) => TypeS::Basic(id as int),
        Type::Template(id, args) => TypeS::Template(id as int, views(args@)),
        Type::TemplateParam(i, cs) => TypeS::TemplateParam(i as int, views_cs(cs@)),
        Type::TemplateParamStr(n, cs) => TypeS::TemplateParamStr(n@, views_cs(cs@)),
        Type::Ref(i) => TypeS::Ref(Box::new(type_view(*i))),
        Type::MutRef(i) => TypeS::MutRef(Box::new(type_view(*i))),
        Type::Or(v) => TypeS::Or(views(v@)),
        Type::And(v) => TypeS::And(views(v@)),
        Type::Function(a, b) => TypeS::Function(Box::new(type_view(*a)), Box::new(type_view(*b))),
    }
}

/// View of a sequence of types, elementwise.
pub open spec fn views(s: Seq<Type>) -> Seq<TypeS>
    decreases s,
{
    if s.len() == 0 {
        Seq::empty()
    } else {
        seq![type_view(s[0])] + views(s.skip(1))
    }
}

/// Model of an `InterfaceConstraint`.
pub open spec fn constraint_view(c: InterfaceConstraint) -> ConstraintS
    decreases c,
{
    ConstraintS { id: c.id as int, args: views(c.args@) }
}

/// View of a sequence of constraints, elementwise.
pub open spec fn views_cs(s: Seq<InterfaceConstraint>) -> Seq<ConstraintS>
    decreases s,
{
    if s.len() == 0 {
        Seq::empty()
    } else {
        seq![constraint_view(s[0])] + views_cs(s.skip(1))
    }
}

impl View for Type {
    type V = TypeS;

    open spec fn view(&self) -> TypeS {
        type_view(*self)
    }
}

impl View for InterfaceConstraint {
    type V = ConstraintS;

    open spec fn view(&self) -> ConstraintS {
        constraint_view(*self)
    }
}

pub broadcast proof fn lemma_views_index(s: Seq<Type>)
    ensures
        (#[trigger] views(s)).len() == s.len(),
        forall|i: int| 0 <= i < s.len() ==> views(s)[i] == type_view(#[trigger] s[i]),
    decreases s,
{
    if s.len() > 0 {
        lemma_views_index(s.skip(1));
        assert forall|i: int| 0 <= i < s.len() implies views(s)[i] == type_view(#[trigger] s[i]) by {
            if i > 0 {
                assert(s.skip(1)[i - 1] == s[i]);
            }
        }
    }
}

pub broadcast proof fn lemma_views_cs_index(s: Seq<InterfaceConstraint>)
    ensures
        (#[trigger] views_cs(s)).len() == s.len(),
        forall|i: int| 0 <= i < s.len() ==> views_cs(s)[i] == constraint_view(#[trigger] s[i]),
    decreases s,
{
    if s.len() > 0 {
        lemma_views_cs_index(s.skip(1));
        assert forall|i: int| 0 <= i < s.len() implies views_cs(s)[i] == constraint_view(
            #[trigger] s[i],
        ) by {
            if i > 0 {
                assert(s.skip(1)[i - 1] == s[i]);
            }
        }
    }
}

/// Structural size of a type model; a termination measure for the
/// relations defined over it.
pub open spec fn spec_size(t: TypeS) -> nat
    decreases t,
{
    match t {
        TypeS::Template(_, args) => 1 + spec_size_seq(args),
        TypeS::Or(v) => 1 + spec_size_seq(v),
        TypeS::And(v) => 1 + spec_size_seq(v),
        TypeS::Ref(i) => 1 + spec_size(*i),
        TypeS::MutRef(i) => 1 + spec_size(*i),
        TypeS::Function(a, b) => 1 + spec_size(*a) + spec_size(*b),
        _ => 1,
    }
}

pub open spec fn spec_size_seq(s: Seq<TypeS>) -> nat
    decreases s,
{
    if s.len() == 0 {
        0
    } else {
        spec_size(s[0]) + spec_size_seq(s.skip(1))
    }
}

pub proof fn lemma_size_seq_index(s: Seq<TypeS>, i: int)
    requires
        0 <= i < s.len(),
    ensures
        spec_size(s[i]) <= spec_size_seq(s),
    decreases s.len(),
{
    if i > 0 {
        assert(s.skip(1)[i - 1] == s[i]);
        lemma_size_seq_index(s.skip(1), i - 1);
    }
}

/// Whether the model mentions `SelfType` anywhere, constraint arguments
/// included.
pub open spec fn spec_has_self(t: TypeS) -> bool
    decreases t,
{
    match t {
        TypeS::SelfType => true,
        TypeS::Template(_, args) => spec_any_has_self(args),
        TypeS::TemplateParam(_, cs) => spec_any_cs_has_self(cs),
        TypeS::TemplateParamStr(_, cs) => spec_any_cs_has_self(cs),
        TypeS::Ref(i) => spec_has_self(*i),
        TypeS::MutRef(i) => spec_has_self(*i),
        TypeS::Or(v) => spec_any_has_self(v),
        TypeS::And(v) => spec_any_has_self(v),
        TypeS::Function(a, b) => spec_has_self(*a) || spec_has_self(*b),
        _ => false,
    }
}

pub open spec fn spec_any_has_self(s: Seq<TypeS>) -> bool
    decreases s,
{
    if s.len() == 0 {
        false
    } else {
        spec_has_self(s[0]) || spec_any_has_self(s.skip(1))
    }
}

pub open spec fn spec_any_cs_has_self(s: Seq<ConstraintS>) -> bool
    decreases s,
{
    if s.len() == 0 {
        false
    } else {
        spec_any_has_self(s[0].args) || spec_any_cs_has_self(s.skip(1))
    }
}

/// Whether the model mentions a template parameter anywhere; unresolved
/// parameter placeholders count as well.
pub open spec fn spec_has_templates(t: TypeS) -> bool
    decreases t,
{
    match t {
        TypeS::TemplateParam(_, _) => true,
        TypeS::TemplateParamStr(_, _) => true,
        TypeS::Template(_, args) => spec_any_has_templates(args),
        TypeS::Ref(i) => spec_has_templates(*i),
        TypeS::MutRef(i) => spec_has_templates(*i),
        TypeS::Or(v) => spec_any_has_templates(v),
        TypeS::And(v) => spec_any_has_templates(v),
        TypeS::Function(a, b) => spec_has_templates(*a) || spec_has_templates(*b),
        _ => false,
    }
}

pub open spec fn spec_any_has_templates(s: Seq<TypeS>) -> bool
    decreases s,
{
    if s.len() == 0 {
        false
    } else {
        spec_has_templates(s[0]) || spec_any_has_templates(s.skip(1))
    }
}

/// Strip every outermost reference qualifier.
pub open spec fn spec_deref(t: TypeS) -> TypeS
    decreases t,
{
    match t {
        TypeS::Ref(i) => spec_deref(*i),
        TypeS::MutRef(i) => spec_deref(*i),
        _ => t,
    }
}

/// Stripping reference qualifiers is idempotent.
pub proof fn lemma_deref_idempotent(t: TypeS)
    ensures
        spec_deref(spec_deref(t)) == spec_deref(t),
    decreases t,
{
    match t {
        TypeS::Ref(i) => lemma_deref_idempotent(*i),
        TypeS::MutRef(i) => lemma_deref_idempotent(*i),
        _ => {},
    }
}

/// Substitution of template parameters: every `TemplateParam(i, _)` with
/// `i` in the map's domain is replaced by the mapped type; other forms
/// recurse, constraint arguments included.
pub open spec fn spec_sub_templates(t: TypeS, m: Map<int, TypeS>) -> TypeS
    decreases t, 1nat,
{
    match t {
        TypeS::TemplateParam(i, cs) => if m.dom().contains(i) {
            m[i]
        } else {
            TypeS::TemplateParam(i, spec_sub_templates_cs(cs, m))
        },
        TypeS::TemplateParamStr(n, cs) => TypeS::TemplateParamStr(n, spec_sub_templates_cs(cs, m)),
        TypeS::Template(id, args) => TypeS::Template(id, spec_sub_templates_seq(args, m)),
        TypeS::Ref(i) => TypeS::Ref(Box::new(spec_sub_templates(*i, m))),
        TypeS::MutRef(i) => TypeS::MutRef(Box::new(spec_sub_templates(*i, m))),
        TypeS::Or(v) => TypeS::Or(spec_sub_templates_seq(v, m)),
        TypeS::And(v) => TypeS::And(spec_sub_templates_seq(v, m)),
        TypeS::Function(a, b) => TypeS::Function(
            Box::new(spec_sub_templates(*a, m)),
            Box::new(spec_sub_templates(*b, m)),
        ),
        _ => t,
    }
}

pub open spec fn spec_sub_templates_seq(s: Seq<TypeS>, m: Map<int, TypeS>) -> Seq<TypeS>
    decreases s, 0nat,
{
    if s.len() == 0 {
        Seq::empty()
    } else {
        seq![spec_sub_templates(s[0], m)] + spec_sub_templates_seq(s.skip(1), m)
    }
}

pub open spec fn spec_sub_templates_cs(s: Seq<ConstraintS>, m: Map<int, TypeS>) -> Seq<ConstraintS>
    decreases s, 2nat,
{
    if s.len() == 0 {
        Seq::empty()
    } else {
        seq![ConstraintS { id: s[0].id, args: spec_sub_templates_seq(s[0].args, m) }]
            + spec_sub_templates_cs(s.skip(1), m)
    }
}

/// Substitution of `SelfType` by a concrete type; other forms recurse.
pub open spec fn spec_sub_self(t: TypeS, c: TypeS) -> TypeS
    decreases t, 1nat,
{
    match t {
        TypeS::SelfType => c,
        TypeS::TemplateParam(i, cs) => TypeS::TemplateParam(i, spec_sub_self_cs(cs, c)),
        TypeS::TemplateParamStr(n, cs) => TypeS::TemplateParamStr(n, spec_sub_self_cs(cs, c)),
        TypeS::Template(id, args) => TypeS::Template(id, spec_sub_self_seq(args, c)),
        TypeS::Ref(i) => TypeS::Ref(Box::new(spec_sub_self(*i, c))),
        TypeS::MutRef(i) => TypeS::MutRef(Box::new(spec_sub_self(*i, c))),
        TypeS::Or(v) => TypeS::Or(spec_sub_self_seq(v, c)),
        TypeS::And(v) => TypeS::And(spec_sub_self_seq(v, c)),
        TypeS::Function(a, b) => TypeS::Function(
            Box::new(spec_sub_self(*a, c)),
            Box::new(spec_sub_self(*b, c)),
        ),
        _ => t,
    }
}

pub open spec fn spec_sub_self_seq(s: Seq<TypeS>, c: TypeS) -> Seq<TypeS>
    decreases s, 0nat,
{
    if s.len() == 0 {
        Seq::empty()
    } else {
        seq![spec_sub_self(s[0], c)] + spec_sub_self_seq(s.skip(1), c)
    }
}

pub open spec fn spec_sub_self_cs(s: Seq<ConstraintS>, c: TypeS) -> Seq<ConstraintS>
    decreases s, 2nat,
{
    if s.len() == 0 {
        Seq::empty()
    } else {
        seq![ConstraintS { id: s[0].id, args: spec_sub_self_seq(s[0].args, c) }]
            + spec_sub_self_cs(s.skip(1), c)
    }
}

/// Shift every template parameter index by `d`.
pub open spec fn spec_offset(t: TypeS, d: int) -> TypeS
    decreases t, 1nat,
{
    match t {
        TypeS::TemplateParam(i, cs) => TypeS::TemplateParam(i + d, spec_offset_cs(cs, d)),
        TypeS::TemplateParamStr(n, cs) => TypeS::TemplateParamStr(n, spec_offset_cs(cs, d)),
        TypeS::Template(id, args) => TypeS::Template(id, spec_offset_seq(args, d)),
        TypeS::Ref(i) => TypeS::Ref(Box::new(spec_offset(*i, d))),
        TypeS::MutRef(i) => TypeS::MutRef(Box::new(spec_offset(*i, d))),
        TypeS::Or(v) => TypeS::Or(spec_offset_seq(v, d)),
        TypeS::And(v) => TypeS::And(spec_offset_seq(v, d)),
        TypeS::Function(a, b) => TypeS::Function(
            Box::new(spec_offset(*a, d)),
            Box::new(spec_offset(*b, d)),
        ),
        _ => t,
    }
}

pub open spec fn spec_offset_seq(s: Seq<TypeS>, d: int) -> Seq<TypeS>
    decreases s, 0nat,
{
    if s.len() == 0 {
        Seq::empty()
    } else {
        seq![spec_offset(s[0], d)] + spec_offset_seq(s.skip(1), d)
    }
}

pub open spec fn spec_offset_cs(s: Seq<ConstraintS>, d: int) -> Seq<ConstraintS>
    decreases s, 2nat,
{
    if s.len() == 0 {
        Seq::empty()
    } else {
        seq![ConstraintS { id: s[0].id, args: spec_offset_seq(s[0].args, d) }]
            + spec_offset_cs(s.skip(1), d)
    }
}

/// The set of template parameter indices a type mentions, constraint
/// arguments included.
pub open spec fn spec_deps(t: TypeS) -> Set<int>
    decreases t, 1nat,
{
    match t {
        TypeS::TemplateParam(i, cs) => spec_deps_cs(cs).insert(i),
        TypeS::TemplateParamStr(_, cs) => spec_deps_cs(cs),
        TypeS::Template(_, args) => spec_deps_seq(args),
        TypeS::Ref(i) => spec_deps(*i),
        TypeS::MutRef(i) => spec_deps(*i),
        TypeS::Or(v) => spec_deps_seq(v),
        TypeS::And(v) => spec_deps_seq(v),
        TypeS::Function(a, b) => spec_deps(*a).union(spec_deps(*b)),
        _ => Set::empty(),
    }
}

pub open spec fn spec_deps_seq(s: Seq<TypeS>) -> Set<int>
    decreases s, 0nat,
{
    if s.len() == 0 {
        Set::empty()
    } else {
        spec_deps(s[0]).union(spec_deps_seq(s.skip(1)))
    }
}

pub open spec fn spec_deps_cs(s: Seq<ConstraintS>) -> Set<int>
    decreases s, 2nat,
{
    if s.len() == 0 {
        Set::empty()
    } else {
        spec_deps_seq(s[0].args).union(spec_deps_cs(s.skip(1)))
    }
}

/// Composition of two substitutions: applying `m1` and then `m2` in
/// sequence equals applying this single map.
pub open spec fn spec_compose_subs(m1: Map<int, TypeS>, m2: Map<int, TypeS>) -> Map<int, TypeS> {
    Map::new(
        |i: int| m1.dom().contains(i) || m2.dom().contains(i),
        |i: int|
            if m1.dom().contains(i) {
                spec_sub_templates(m1[i], m2)
            } else {
                m2[i]
            },
    )
}

/// Substituting twice is substituting once by the composed map.
pub proof fn lemma_sub_templates_compose(t: TypeS, m1: Map<int, TypeS>, m2: Map<int, TypeS>)
    ensures
        spec_sub_templates(spec_sub_templates(t, m1), m2) == spec_sub_templates(
            t,
            spec_compose_subs(m1, m2),
        ),
    decreases t, 1nat,
{
    match t {
        TypeS::TemplateParam(i, cs) => {
            if !m1.dom().contains(i) && !m2.dom().contains(i) {
                lemma_sub_templates_compose_cs(cs, m1, m2);
            } else if !m1.dom().contains(i) {
                lemma_sub_templates_compose_cs(cs, m1, m2);
            }
        },
        TypeS::TemplateParamStr(_, cs) => lemma_sub_templates_compose_cs(cs, m1, m2),
        TypeS::Template(_, args) => lemma_sub_templates_compose_seq(args, m1, m2),
        TypeS::Ref(i) => lemma_sub_templates_compose(*i, m1, m2),
        TypeS::MutRef(i) => lemma_sub_templates_compose(*i, m1, m2),
        TypeS::Or(v) => lemma_sub_templates_compose_seq(v, m1, m2),
        TypeS::And(v) => lemma_sub_templates_compose_seq(v, m1, m2),
        TypeS::Function(a, b) => {
            lemma_sub_templates_compose(*a, m1, m2);
            lemma_sub_templates_compose(*b, m1, m2);
        },
        _ => {},
    }
}

pub proof fn lemma_sub_templates_compose_seq(s: Seq<TypeS>, m1: Map<int, TypeS>, m2: Map<
    int,
    TypeS,
>)
    ensures
        spec_sub_templates_seq(spec_sub_templates_seq(s, m1), m2) == spec_sub_templates_seq(
            s,
            spec_compose_subs(m1, m2),
        ),
    decreases s, 0nat,
{
    if s.len() > 0 {
        lemma_sub_templates_compose(s[0], m1, m2);
        lemma_sub_templates_compose_seq(s.skip(1), m1, m2);
        assert(spec_sub_templates_seq(s, m1).skip(1) =~= spec_sub_templates_seq(s.skip(1), m1));
        assert(spec_sub_templates_seq(spec_sub_templates_seq(s, m1), m2) =~= spec_sub_templates_seq(
            s,
            spec_compose_subs(m1, m2),
        ));
    }
}

pub proof fn lemma_sub_templates_compose_cs(s: Seq<ConstraintS>, m1: Map<int, TypeS>, m2: Map<
    int,
    TypeS,
>)
    ensures
        spec_sub_templates_cs(spec_sub_templates_cs(s, m1), m2) == spec_sub_templates_cs(
            s,
            spec_compose_subs(m1, m2),
        ),
    decreases s, 2nat,
{
    if s.len() > 0 {
        lemma_sub_templates_compose_seq(s[0].args, m1, m2);
        lemma_sub_templates_compose_cs(s.skip(1), m1, m2);
        assert(spec_sub_templates_cs(s, m1).skip(1) =~= spec_sub_templates_cs(s.skip(1), m1));
        assert(spec_sub_templates_cs(spec_sub_templates_cs(s, m1), m2) =~= spec_sub_templates_cs(
            s,
            spec_compose_subs(m1, m2),
        ));
    }
}

/// Offsetting by zero is the identity.
pub proof fn lemma_offset_zero(t: TypeS)
    ensures
        spec_offset(t, 0) == t,
    decreases t, 1nat,
{
    match t {
        TypeS::TemplateParam(_, cs) => lemma_offset_zero_cs(cs),
        TypeS::TemplateParamStr(_, cs) => lemma_offset_zero_cs(cs),
        TypeS::Template(_, args) => lemma_offset_zero_seq(args),
        TypeS::Ref(i) => lemma_offset_zero(*i),
        TypeS::MutRef(i) => lemma_offset_zero(*i),
        TypeS::Or(v) => lemma_offset_zero_seq(v),
        TypeS::And(v) => lemma_offset_zero_seq(v),
        TypeS::Function(a, b) => {
            lemma_offset_zero(*a);
            lemma_offset_zero(*b);
        },
        _ => {},
    }
}

pub proof fn lemma_offset_zero_seq(s: Seq<TypeS>)
    ensures
        spec_offset_seq(s, 0) == s,
    decreases s, 0nat,
{
    if s.len() > 0 {
        lemma_offset_zero(s[0]);
        lemma_offset_zero_seq(s.skip(1));
        assert(spec_offset_seq(s, 0) =~= s);
    }
}

pub proof fn lemma_offset_zero_cs(s: Seq<ConstraintS>)
    ensures
        spec_offset_cs(s, 0) == s,
    decreases s, 2nat,
{
    if s.len() > 0 {
        lemma_offset_zero_seq(s[0].args);
        lemma_offset_zero_cs(s.skip(1));
        assert(spec_offset_cs(s, 0) =~= s);
    }
}

/// Offsetting twice is offsetting by the sum.
pub proof fn lemma_offset_add(t: TypeS, a: int, b: int)
    ensures
        spec_offset(spec_offset(t, a), b) == spec_offset(t, a + b),
    decreases t, 1nat,
{
    match t {
        TypeS::TemplateParam(_, cs) => lemma_offset_add_cs(cs, a, b),
        TypeS::TemplateParamStr(_, cs) => lemma_offset_add_cs(cs, a, b),
        TypeS::Template(_, args) => lemma_offset_add_seq(args, a, b),
        TypeS::Ref(i) => lemma_offset_add(*i, a, b),
        TypeS::MutRef(i) => lemma_offset_add(*i, a, b),
        TypeS::Or(v) => lemma_offset_add_seq(v, a, b),
        TypeS::And(v) => lemma_offset_add_seq(v, a, b),
        TypeS::Function(x, y) => {
            lemma_offset_add(*x, a, b);
            lemma_offset_add(*y, a, b);
        },
        _ => {},
    }
}

pub proof fn lemma_offset_add_seq(s: Seq<TypeS>, a: int, b: int)
    ensures
        spec_offset_seq(spec_offset_seq(s, a), b) == spec_offset_seq(s, a + b),
    decreases s, 0nat,
{
    if s.len() > 0 {
        lemma_offset_add(s[0], a, b);
        lemma_offset_add_seq(s.skip(1), a, b);
        assert(spec_offset_seq(s, a).skip(1) =~= spec_offset_seq(s.skip(1), a));
        assert(spec_offset_seq(spec_offset_seq(s, a), b) =~= spec_offset_seq(s, a + b));
    }
}

pub proof fn lemma_offset_add_cs(s: Seq<ConstraintS>, a: int, b: int)
    ensures
        spec_offset_cs(spec_offset_cs(s, a), b) == spec_offset_cs(s, a + b),
    decreases s, 2nat,
{
    if s.len() > 0 {
        lemma_offset_add_seq(s[0].args, a, b);
        lemma_offset_add_cs(s.skip(1), a, b);
        assert(spec_offset_cs(s, a).skip(1) =~= spec_offset_cs(s.skip(1), a));
        assert(spec_offset_cs(spec_offset_cs(s, a), b) =~= spec_offset_cs(s, a + b));
    }
}

pub proof fn lemma_views_push(s0: Seq<Type>, s1: Seq<Type>, tv: TypeS)
    requires
        s1.len() == s0.len() + 1,
        forall|k: int| 0 <= k < s0.len() ==> s1[k] == s0[k],
        type_view(s1.last()) == tv,
    ensures
        views(s1) == views(s0).push(tv),
{
    lemma_views_index(s0);
    lemma_views_index(s1);
    assert forall|k: int| 0 <= k < s1.len() implies views(s1)[k] == views(s0).push(tv)[k] by {
        assert(views(s1)[k] == type_view(s1[k]));
        if k < s0.len() {
            assert(views(s0)[k] == type_view(s0[k]));
        }
    }
    assert(views(s1) =~= views(s0).push(tv));
}

pub proof fn lemma_any_has_self_iff(s: Seq<TypeS>)
    ensures
        spec_any_has_self(s) <==> exists|i: int| 0 <= i < s.len() && spec_has_self(#[trigger] s[i]),
    decreases s,
{
    if s.len() > 0 {
        lemma_any_has_self_iff(s.skip(1));
        if spec_any_has_self(s.skip(1)) {
            let i = choose|i: int| 0 <= i < s.skip(1).len() && spec_has_self(#[trigger] s.skip(1)[i]);
            assert(s[i + 1] == s.skip(1)[i]);
        }
        if exists|i: int| 0 <= i < s.len() && spec_has_self(#[trigger] s[i]) {
            let i = choose|i: int| 0 <= i < s.len() && spec_has_self(#[trigger] s[i]);
            if i > 0 {
                assert(s.skip(1)[i - 1] == s[i]);
            }
        }
    }
}

pub proof fn lemma_any_cs_has_self_iff(s: Seq<ConstraintS>)
    ensures
        spec_any_cs_has_self(s) <==> exists|i: int|
            0 <= i < s.len() && spec_any_has_self(#[trigger] s[i].args),
    decreases s,
{
    if s.len() > 0 {
        lemma_any_cs_has_self_iff(s.skip(1));
        if spec_any_cs_has_self(s.skip(1)) {
            let i = choose|i: int|
                0 <= i < s.skip(1).len() && spec_any_has_self(#[trigger] s.skip(1)[i].args);
            assert(s[i + 1] == s.skip(1)[i]);
        }
        if exists|i: int| 0 <= i < s.len() && spec_any_has_self(#[trigger] s[i].args) {
            let i = choose|i: int| 0 <= i < s.len() && spec_any_has_self(#[trigger] s[i].args);
            if i > 0 {
                assert(s.skip(1)[i - 1] == s[i]);
            }
        }
    }
}

pub proof fn lemma_any_has_templates_iff(s: Seq<TypeS>)
    ensures
        spec_any_has_templates(s) <==> exists|i: int|
            0 <= i < s.len() && spec_has_templates(#[trigger] s[i]),
    decreases s,
{
    if s.len() > 0 {
        lemma_any_has_templates_iff(s.skip(1));
        if spec_any_has_templates(s.skip(1)) {
            let i = choose|i: int|
                0 <= i < s.skip(1).len() && spec_has_templates(#[trigger] s.skip(1)[i]);
            assert(s[i + 1] == s.skip(1)[i]);
        }
        if exists|i: int| 0 <= i < s.len() && spec_has_templates(#[trigger] s[i]) {
            let i = choose|i: int| 0 <= i < s.len() && spec_has_templates(#[trigger] s[i]);
            if i > 0 {
                assert(s.skip(1)[i - 1] == s[i]);
            }
        }
    }
}

pub proof fn lemma_sub_templates_seq_index(s: Seq<TypeS>, m: Map<int, TypeS>)
    ensures
        spec_sub_templates_seq(s, m).len() == s.len(),
        forall|i: int|
            0 <= i < s.len() ==> spec_sub_templates_seq(s, m)[i] == spec_sub_templates(
                #[trigger] s[i],
                m,
            ),
    decreases s,
{
    if s.len() > 0 {
        lemma_sub_templates_seq_index(s.skip(1), m);
        assert forall|i: int|
            0 <= i < s.len() implies spec_sub_templates_seq(s, m)[i] == spec_sub_templates(
            #[trigger] s[i],
            m,
        ) by {
            if i > 0 {
                assert(s.skip(1)[i - 1] == s[i]);
            }
        }
    }
}

pub proof fn lemma_sub_templates_cs_index(s: Seq<ConstraintS>, m: Map<int, TypeS>)
    ensures
        spec_sub_templates_cs(s, m).len() == s.len(),
        forall|i: int|
            0 <= i < s.len() ==> spec_sub_templates_cs(s, m)[i] == (ConstraintS {
                id: (#[trigger] s[i]).id,
                args: spec_sub_templates_seq(s[i].args, m),
            }),
    decreases s,
{
    if s.len() > 0 {
        lemma_sub_templates_cs_index(s.skip(1), m);
        assert forall|i: int|
            0 <= i < s.len() implies spec_sub_templates_cs(s, m)[i] == (ConstraintS {
            id: (#[trigger] s[i]).id,
            args: spec_sub_templates_seq(s[i].args, m),
        }) by {
            if i > 0 {
                assert(s.skip(1)[i - 1] == s[i]);
            }
        }
    }
}

pub proof fn lemma_sub_self_seq_index(s: Seq<TypeS>, c: TypeS)
    ensures
        spec_sub_self_seq(s, c).len() == s.len(),
        forall|i: int|
            0 <= i < s.len() ==> spec_sub_self_seq(s, c)[i] == spec_sub_self(#[trigger] s[i], c),
    decreases s,
{
    if s.len() > 0 {
        lemma_sub_self_seq_index(s.skip(1), c);
        assert forall|i: int|
            0 <= i < s.len() implies spec_sub_self_seq(s, c)[i] == spec_sub_self(
            #[trigger] s[i],
            c,
        ) by {
            if i > 0 {
                assert(s.skip(1)[i - 1] == s[i]);
            }
        }
    }
}

pub proof fn lemma_sub_self_cs_index(s: Seq<ConstraintS>, c: TypeS)
    ensures
        spec_sub_self_cs(s, c).len() == s.len(),
        forall|i: int|
            0 <= i < s.len() ==> spec_sub_self_cs(s, c)[i] == (ConstraintS {
                id: (#[trigger] s[i]).id,
                args: spec_sub_self_seq(s[i].args, c),
            }),
    decreases s,
{
    if s.len() > 0 {
        lemma_sub_self_cs_index(s.skip(1), c);
        assert forall|i: int|
            0 <= i < s.len() implies spec_sub_self_cs(s, c)[i] == (ConstraintS {
            id: (#[trigger] s[i]).id,
            args: spec_sub_self_seq(s[i].args, c),
        }) by {
            if i > 0 {
                assert(s.skip(1)[i - 1] == s[i]);
            }
        }
    }
}

pub proof fn lemma_offset_seq_index(s: Seq<TypeS>, d: int)
    ensures
        spec_offset_seq(s, d).len() == s.len(),
        forall|i: int|
            0 <= i < s.len() ==> spec_offset_seq(s, d)[i] == spec_offset(#[trigger] s[i], d),
    decreases s,
{
    if s.len() > 0 {
        lemma_offset_seq_index(s.skip(1), d);
        assert forall|i: int|
            0 <= i < s.len() implies spec_offset_seq(s, d)[i] == spec_offset(
            #[trigger] s[i],
            d,
        ) by {
            if i > 0 {
                assert(s.skip(1)[i - 1] == s[i]);
            }
        }
    }
}

pub proof fn lemma_offset_cs_index(s: Seq<ConstraintS>, d: int)
    ensures
        spec_offset_cs(s, d).len() == s.len(),
        forall|i: int|
            0 <= i < s.len() ==> spec_offset_cs(s, d)[i] == (ConstraintS {
                id: (#[trigger] s[i]).id,
                args: spec_offset_seq(s[i].args, d),
            }),
    decreases s,
{
    if s.len() > 0 {
        lemma_offset_cs_index(s.skip(1), d);
        assert forall|i: int|
            0 <= i < s.len() implies spec_offset_cs(s, d)[i] == (ConstraintS {
            id: (#[trigger] s[i]).id,
            args: spec_offset_seq(s[i].args, d),
        }) by {
            if i > 0 {
                assert(s.skip(1)[i - 1] == s[i]);
            }
        }
    }
}

pub proof fn lemma_deps_seq_iff(s: Seq<TypeS>, x: int)
    ensures
        spec_deps_seq(s).contains(x) <==> exists|i: int|
            0 <= i < s.len() && spec_deps(#[trigger] s[i]).contains(x),
    decreases s,
{
    if s.len() > 0 {
        lemma_deps_seq_iff(s.skip(1), x);
        if spec_deps_seq(s.skip(1)).contains(x) {
            let i = choose|i: int|
                0 <= i < s.skip(1).len() && spec_deps(#[trigger] s.skip(1)[i]).contains(x);
            assert(s[i + 1] == s.skip(1)[i]);
        }
        if exists|i: int| 0 <= i < s.len() && spec_deps(#[trigger] s[i]).contains(x) {
            let i = choose|i: int| 0 <= i < s.len() && spec_deps(#[trigger] s[i]).contains(x);
            if i > 0 {
                assert(s.skip(1)[i - 1] == s[i]);
            }
        }
    }
}

pub proof fn lemma_deps_cs_iff(s: Seq<ConstraintS>, x: int)
    ensures
        spec_deps_cs(s).contains(x) <==> exists|i: int|
            0 <= i < s.len() && spec_deps_seq((#[trigger] s[i]).args).contains(x),
    decreases s,
{
    if s.len() > 0 {
        lemma_deps_cs_iff(s.skip(1), x);
        if spec_deps_cs(s.skip(1)).contains(x) {
            let i = choose|i: int|
                0 <= i < s.skip(1).len() && spec_deps_seq(
                    (#[trigger] s.skip(1)[i]).args,
                ).contains(x);
            assert(s[i + 1] == s.skip(1)[i]);
        }
        if exists|i: int| 0 <= i < s.len() && spec_deps_seq((#[trigger] s[i]).args).contains(x) {
            let i = choose|i: int|
                0 <= i < s.len() && spec_deps_seq((#[trigger] s[i]).args).contains(x);
            if i > 0 {
                assert(s.skip(1)[i - 1] == s[i]);
            }
        }
    }
}

/// The set of elements of a sequence of indices.
pub open spec fn spec_elems(s: Seq<usize>) -> Set<int> {
    Set::new(|x: int| exists|i: int| 0 <= i < s.len() && #[trigger] s[i] as int == x)
}

pub proof fn lemma_elems_push(s: Seq<usize>, u: usize)
    ensures
        spec_elems(s.push(u)) == spec_elems(s).insert(u as int),
{
    assert forall|x: int|
        spec_elems(s.push(u)).contains(x) == spec_elems(s).insert(u as int).contains(x) by {
        if spec_elems(s).contains(x) {
            let i = choose|i: int| 0 <= i < s.len() && #[trigger] s[i] as int == x;
            assert(s.push(u)[i] as int == x);
        }
        assert(s.push(u)[s.len() as int] as int == u as int);
        if spec_elems(s.push(u)).contains(x) {
            let i = choose|i: int| 0 <= i < s.push(u).len() && #[trigger] s.push(u)[i] as int == x;
            if i < s.len() {
                assert(s[i] as int == x);
            }
        }
    }
    assert(spec_elems(s.push(u)) =~= spec_elems(s).insert(u as int));
}

/// A substitution from template parameter indices to types, modelled as
/// a map; later entries take precedence, and entries are only added for
/// indices not yet bound.
pub struct TypeSubs {
    pub entries: Vec<(usize, Type)>,
}

/// Model of a substitution: the association list folded into a map.
pub open spec fn spec_subs_map(s: Seq<(usize, Type)>) -> Map<int, TypeS>
    decreases s,
{
    if s.len() == 0 {
        Map::empty()
    } else {
        spec_subs_map(s.drop_last()).insert(s.last().0 as int, type_view(s.last().1))
    }
}

impl View for TypeSubs {
    type V = Map<int, TypeS>;

    open spec fn view(&self) -> Map<int, TypeS> {
        spec_subs_map(self.entries@)
    }
}

impl TypeSubs {
    pub fn new() -> (r: TypeSubs)
        ensures
            r@ == Map::<int, TypeS>::empty(),
    {
        TypeSubs { entries: Vec::new() }
    }

    /// Bind one more index; a binding for an index already bound shadows
    /// the earlier one.
    pub fn insert(&mut self, i: usize, t: Type)
        ensures
            final(self)@ == old(self)@.insert(i as int, t@),
    {
        self.entries.push((i, t));
        proof {
            assert(self.entries@.drop_last() == old(self).entries@);
        }
    }

    /// Look the index up.
    pub fn get(&self, i: usize) -> (r: Option<&Type>)
        ensures
            match r {
                Some(t) => self@.dom().contains(i as int) && t@ == self@[i as int],
                None => !self@.dom().contains(i as int),
            },
    {
        let mut j: usize = self.entries.len();
        proof {
            assert(self.entries@.take(j as int) =~= self.entries@);
        }
        while j > 0
            invariant
                j <= self.entries@.len(),
                spec_subs_map(self.entries@.take(j as int)).dom().contains(i as int)
                    == self@.dom().contains(i as int),
                spec_subs_map(self.entries@.take(j as int)).dom().contains(i as int)
                    ==> spec_subs_map(self.entries@.take(j as int))[i as int] == self@[i as int],
            decreases j,
        {
            j = j - 1;
            proof {
                assert(self.entries@.take(j as int + 1).drop_last() =~= self.entries@.take(j as int));
                assert(self.entries@.take(j as int + 1).last() == self.entries@[j as int]);
            }
            if self.entries[j].0 == i {
                return Some(&self.entries[j].1);
            }
        }
        proof {
            assert(self.entries@.take(0) =~= Seq::<(usize, Type)>::empty());
        }
        None
    }
}

impl Type {
    /// Whether the type mentions `SelfType` anywhere.
    pub fn has_self(&self) -> (r: bool)
        ensures
            r == spec_has_self(self@),
        decreases self,
    {
        match self {
            Type::SelfType => true,
            Type::Template(_, args) => any_has_self(args),
            Type::TemplateParam(_, cs) => any_cs_has_self(cs),
            Type::TemplateParamStr(_, cs) => any_cs_has_self(cs),
            Type::Ref(i) => i.has_self(),
            Type::MutRef(i) => i.has_self(),
            Type::Or(v) => any_has_self(v),
            Type::And(v) => any_has_self(v),
            Type::Function(a, b) => a.has_self() || b.has_self(),
            _ => false,
        }
    }

    /// Whether the type mentions a template parameter anywhere.
    pub fn has_templates(&self) -> (r: bool)
        ensures
            r == spec_has_templates(self@),
        decreases self,
    {
        match self {
            Type::TemplateParam(_, _) => true,
            Type::TemplateParamStr(_, _) => true,
            Type::Template(_, args) => any_has_templates(args),
            Type::Ref(i) => i.has_templates(),
            Type::MutRef(i) => i.has_templates(),
            Type::Or(v) => any_has_templates(v),
            Type::And(v) => any_has_templates(v),
            Type::Function(a, b) => a.has_templates() || b.has_templates(),
            _ => false,
        }
    }

    /// Strip every outermost reference qualifier.
    pub fn deref_type(&self) -> (r: &Type)
        ensures
            r@ == spec_deref(self@),
        decreases self,
    {
        match self {
            Type::Ref(i) => i.deref_type(),
            Type::MutRef(i) => i.deref_type(),
            _ => self,
        }
    }

    /// Apply a substitution of template parameters.
    pub fn sub_templates(&self, m: &TypeSubs) -> (r: Type)
        ensures
            r@ == spec_sub_templates(self@, m@),
        decreases self,
    {
        match self {
            Type::TemplateParam(i, cs) => {
                match m.get(*i) {
                    Some(t) => t.clone_type(),
                    None => Type::TemplateParam(*i, sub_templates_cs_vec(cs, m)),
                }
            },
            Type::TemplateParamStr(n, cs) => Type::TemplateParamStr(
                clone_string(n),
                sub_templates_cs_vec(cs, m),
            ),
            Type::Template(id, args) => Type::Template(*id, sub_templates_vec(args, m)),
            Type::Ref(i) => Type::Ref(Box::new(i.sub_templates(m))),
            Type::MutRef(i) => Type::MutRef(Box::new(i.sub_templates(m))),
            Type::Or(v) => Type::Or(sub_templates_vec(v, m)),
            Type::And(v) => Type::And(sub_templates_vec(v, m)),
            Type::Function(a, b) => Type::Function(
                Box::new(a.sub_templates(m)),
                Box::new(b.sub_templates(m)),
            ),
            Type::Empty => Type::Empty,
            Type::SelfType => Type::SelfType,
            Type::Wildcard => Type::Wildcard,
            Type::InferenceMarker => Type::InferenceMarker,
            Type::Basic(id) => Type::Basic(*id),
        }
    }

    /// Replace every `SelfType` by a concrete type.
    pub fn sub_self(&self, c: &Type) -> (r: Type)
        ensures
            r@ == spec_sub_self(self@, c@),
        decreases self,
    {
        match self {
            Type::SelfType => c.clone_type(),
            Type::TemplateParam(i, cs) => Type::TemplateParam(*i, sub_self_cs_vec(cs, c)),
            Type::TemplateParamStr(n, cs) => Type::TemplateParamStr(
                clone_string(n),
                sub_self_cs_vec(cs, c),
            ),
            Type::Template(id, args) => Type::Template(*id, sub_self_vec(args, c)),
            Type::Ref(i) => Type::Ref(Box::new(i.sub_self(c))),
            Type::MutRef(i) => Type::MutRef(Box::new(i.sub_self(c))),
            Type::Or(v) => Type::Or(sub_self_vec(v, c)),
            Type::And(v) => Type::And(sub_self_vec(v, c)),
            Type::Function(a, b) => Type::Function(Box::new(a.sub_self(c)), Box::new(b.sub_self(c))),
            Type::Empty => Type::Empty,
            Type::Wildcard => Type::Wildcard,
            Type::InferenceMarker => Type::InferenceMarker,
            Type::Basic(id) => Type::Basic(*id),
        }
    }

    /// An explicit structural clone; the result has the same model.
    pub fn clone_type(&self) -> (r: Type)
        ensures
            r@ == self@,
        decreases self,
    {
        match self {
            Type::Empty => Type::Empty,
            Type::SelfType => Type::SelfType,
            Type::Wildcard => Type::Wildcard,
            Type::InferenceMarker => Type::InferenceMarker,
            Type::Basic(id) => Type::Basic(*id),
            Type::Template(id, args) => Type::Template(*id, clone_type_vec(args)),
            Type::TemplateParam(i, cs) => Type::TemplateParam(*i, clone_cs_vec(cs)),
            Type::TemplateParamStr(n, cs) => Type::TemplateParamStr(clone_string(n), clone_cs_vec(cs)),
            Type::Ref(i) => Type::Ref(Box::new(i.clone_type())),
            Type::MutRef(i) => Type::MutRef(Box::new(i.clone_type())),
            Type::Or(v) => Type::Or(clone_type_vec(v)),
            Type::And(v) => Type::And(clone_type_vec(v)),
            Type::Function(a, b) => Type::Function(Box::new(a.clone_type()), Box::new(b.clone_type())),
        }
    }

    /// Shift every template parameter index upward by `delta`.
    pub fn offset_templates(&mut self, delta: usize)
        requires
            spec_offset_fits(old(self)@, delta as int),
        ensures
            final(self)@ == spec_offset(old(self)@, delta as int),
    {
        let r = self.offset_applied(delta);
        *self = r;
    }

    fn offset_applied(&self, delta: usize) -> (r: Type)
        requires
            spec_offset_fits(self@, delta as int),
        ensures
            r@ == spec_offset(self@, delta as int),
        decreases self,
    {
        match self {
            Type::TemplateParam(i, cs) => {
                proof {
                    assert(spec_deps(self@).contains(*i as int));
                    assert forall|x: int|
                        spec_deps_cs(views_cs(cs@)).contains(x) implies x + delta
                        <= usize::MAX by {
                        assert(spec_deps(self@).contains(x));
                    }
                }
                Type::TemplateParam(*i + delta, offset_cs_vec(cs, delta))
            },
            Type::TemplateParamStr(n, cs) => {
                proof {
                    assert forall|x: int|
                        spec_deps_cs(views_cs(cs@)).contains(x) implies x + delta
                        <= usize::MAX by {
                        assert(spec_deps(self@).contains(x));
                    }
                }
                Type::TemplateParamStr(clone_string(n), offset_cs_vec(cs, delta))
            },
            Type::Template(id, args) => {
                proof {
                    assert forall|x: int|
                        spec_deps_seq(views(args@)).contains(x) implies x + delta <= usize::MAX by {
                        assert(spec_deps(self@).contains(x));
                    }
                }
                Type::Template(*id, offset_vec(args, delta))
            },
            Type::Ref(i) => {
                proof {
                    assert forall|x: int|
                        spec_deps(type_view(**i)).contains(x) implies x + delta <= usize::MAX by {
                        assert(spec_deps(self@).contains(x));
                    }
                }
                Type::Ref(Box::new(i.offset_applied(delta)))
            },
            Type::MutRef(i) => {
                proof {
                    assert forall|x: int|
                        spec_deps(type_view(**i)).contains(x) implies x + delta <= usize::MAX by {
                        assert(spec_deps(self@).contains(x));
                    }
                }
                Type::MutRef(Box::new(i.offset_applied(delta)))
            },
            Type::Or(v) => {
                proof {
                    assert forall|x: int|
                        spec_deps_seq(views(v@)).contains(x) implies x + delta <= usize::MAX by {
                        assert(spec_deps(self@).contains(x));
                    }
                }
                Type::Or(offset_vec(v, delta))
            },
            Type::And(v) => {
                proof {
                    assert forall|x: int|
                        spec_deps_seq(views(v@)).contains(x) implies x + delta <= usize::MAX by {
                        assert(spec_deps(self@).contains(x));
                    }
                }
                Type::And(offset_vec(v, delta))
            },
            Type::Function(a, b) => {
                proof {
                    assert forall|x: int| spec_deps(type_view(**a)).contains(x) implies x + delta
                        <= usize::MAX by {
                        assert(spec_deps(self@).contains(x));
                    }
                    assert forall|x: int| spec_deps(type_view(**b)).contains(x) implies x + delta
                        <= usize::MAX by {
                        assert(spec_deps(self@).contains(x));
                    }
                }
                Type::Function(
                    Box::new(a.offset_applied(delta)),
                    Box::new(b.offset_applied(delta)),
                )
            },
            Type::Empty => Type::Empty,
            Type::SelfType => Type::SelfType,
            Type::Wildcard => Type::Wildcard,
            Type::InferenceMarker => Type::InferenceMarker,
            Type::Basic(id) => Type::Basic(*id),
        }
    }

    /// Accumulate every template parameter index the type mentions.
    pub fn template_dependencies(&self, deps: &mut Vec<usize>)
        ensures
            spec_elems(final(deps)@) == spec_elems(old(deps)@).union(spec_deps(self@)),
        decreases self,
    {
        match self {
            Type::TemplateParam(i, cs) => {
                proof {
                    lemma_elems_push(deps@, *i);
                }
                deps.push(*i);
                cs_deps_vec(cs, deps);
                proof {
                    assert(spec_elems(deps@) =~= spec_elems(old(deps)@).union(spec_deps(self@)));
                }
            },
            Type::TemplateParamStr(_, cs) => {
                cs_deps_vec(cs, deps);
            },
            Type::Template(_, args) => {
                type_deps_vec(args, deps);
            },
            Type::Ref(i) => i.template_dependencies(deps),
            Type::MutRef(i) => i.template_dependencies(deps),
            Type::Or(v) => {
                type_deps_vec(v, deps);
            },
            Type::And(v) => {
                type_deps_vec(v, deps);
            },
            Type::Function(a, b) => {
                a.template_dependencies(deps);
                b.template_dependencies(deps);
                proof {
                    assert(spec_elems(deps@) =~= spec_elems(old(deps)@).union(spec_deps(self@)));
                }
            },
            _ => {
                proof {
                    assert(spec_elems(deps@) =~= spec_elems(old(deps)@).union(spec_deps(self@)));
                }
            },
        }
    }

    /// Structural equality of the models.
    pub fn type_eq(&self, other: &Type) -> (r: bool)
        ensures
            r == (self@ == other@),
        decreases self,
    {
        match (self, other) {
            (Type::Empty, Type::Empty) => true,
            (Type::SelfType, Type::SelfType) => true,
            (Type::Wildcard, Type::Wildcard) => true,
            (Type::InferenceMarker, Type::InferenceMarker) => true,
            (Type::Basic(a), Type::Basic(b)) => *a == *b,
            (Type::Template(a, va), Type::Template(b, vb)) => *a == *b && type_vec_eq(va, vb),
            (Type::TemplateParam(a, ca), Type::TemplateParam(b, cb)) => *a == *b && cs_vec_eq(
                ca,
                cb,
            ),
            (Type::TemplateParamStr(na, ca), Type::TemplateParamStr(nb, cb)) => *na == *nb
                && cs_vec_eq(ca, cb),
            (Type::Ref(a), Type::Ref(b)) => a.type_eq(b),
            (Type::MutRef(a), Type::MutRef(b)) => a.type_eq(b),
            (Type::Or(va), Type::Or(vb)) => type_vec_eq(va, vb),
            (Type::And(va), Type::And(vb)) => type_vec_eq(va, vb),
            (Type::Function(a1, b1), Type::Function(a2, b2)) => a1.type_eq(a2) && b1.type_eq(b2),
            _ => false,
        }
    }
}

/// Whether shifting every parameter index of the type by `d` stays within
/// the machine's index range.
pub open spec fn spec_offset_fits(t: TypeS, d: int) -> bool {
    forall|x: int| spec_deps(t).contains(x) ==> x + d <= usize::MAX
}

/// Equality of two strings, by contents.
pub fn string_eq(a: &String, b: &String) -> (r: bool)
    ensures
        r == (a@ == b@),
{
    *a == *b
}

pub(crate) fn clone_string(s: &String) -> (r: String)
    ensures
        r@ == s@,
{
    s.clone()
}

fn any_has_self(v: &Vec<Type>) -> (r: bool)
    ensures
        r == spec_any_has_self(views(v@)),
    decreases v,
{
    proof {
        lemma_views_index(v@);
        lemma_any_has_self_iff(views(v@));
    }
    let mut j: usize = 0;
    while j < v.len()
        invariant
            j <= v@.len(),
            views(v@).len() == v@.len(),
            forall|k: int| 0 <= k < v@.len() ==> views(v@)[k] == type_view(#[trigger] v@[k]),
            spec_any_has_self(views(v@)) <==> exists|i: int|
                0 <= i < views(v@).len() && spec_has_self(#[trigger] views(v@)[i]),
            forall|k: int| 0 <= k < j ==> !spec_has_self(#[trigger] views(v@)[k]),
        decreases v@.len() - j,
    {
        if v[j].has_self() {
            return true;
        }
        j = j + 1;
    }
    false
}

fn any_cs_has_self(v: &Vec<InterfaceConstraint>) -> (r: bool)
    ensures
        r == spec_any_cs_has_self(views_cs(v@)),
    decreases v,
{
    proof {
        lemma_views_cs_index(v@);
        lemma_any_cs_has_self_iff(views_cs(v@));
    }
    let mut j: usize = 0;
    while j < v.len()
        invariant
            j <= v@.len(),
            views_cs(v@).len() == v@.len(),
            forall|k: int|
                0 <= k < v@.len() ==> views_cs(v@)[k] == constraint_view(#[trigger] v@[k]),
            spec_any_cs_has_self(views_cs(v@)) <==> exists|i: int|
                0 <= i < views_cs(v@).len() && spec_any_has_self(#[trigger] views_cs(v@)[i].args),
            forall|k: int| 0 <= k < j ==> !spec_any_has_self(#[trigger] views_cs(v@)[k].args),
        decreases v@.len() - j,
    {
        proof {
            assert(views_cs(v@)[j as int].args == views(v@[j as int].args@));
        }
        if any_has_self(&v[j].args) {
            return true;
        }
        j = j + 1;
    }
    false
}

pub(crate) fn any_has_templates(v: &Vec<Type>) -> (r: bool)
    ensures
        r == spec_any_has_templates(views(v@)),
    decreases v,
{
    proof {
        lemma_views_index(v@);
        lemma_any_has_templates_iff(views(v@));
    }
    let mut j: usize = 0;
    while j < v.len()
        invariant
            j <= v@.len(),
            views(v@).len() == v@.len(),
            forall|k: int| 0 <= k < v@.len() ==> views(v@)[k] == type_view(#[trigger] v@[k]),
            spec_any_has_templates(views(v@)) <==> exists|i: int|
                0 <= i < views(v@).len() && spec_has_templates(#[trigger] views(v@)[i]),
            forall|k: int| 0 <= k < j ==> !spec_has_templates(#[trigger] views(v@)[k]),
        decreases v@.len() - j,
    {
        if v[j].has_templates() {
            return true;
        }
        j = j + 1;
    }
    false
}

pub(crate) fn clone_type_vec(v: &Vec<Type>) -> (r: Vec<Type>)
    ensures
        views(r@) == views(v@),
        r@.len() == v@.len(),
    decreases v,
{
    let mut out: Vec<Type> = Vec::new();
    proof {
        lemma_views_index(v@);
    }
    let mut j: usize = 0;
    while j < v.len()
        invariant
            j <= v@.len(),
            out@.len() == j,
            views(v@).len() == v@.len(),
            forall|k: int| 0 <= k < v@.len() ==> views(v@)[k] == type_view(#[trigger] v@[k]),
            forall|k: int| 0 <= k < j ==> type_view(#[trigger] out@[k]) == views(v@)[k],
        decreases v@.len() - j,
    {
        let c = v[j].clone_type();
        out.push(c);
        j = j + 1;
    }
    proof {
        lemma_views_index(out@);
        assert forall|k: int| 0 <= k < out@.len() implies views(out@)[k] == views(v@)[k] by {
            assert(views(out@)[k] == type_view(out@[k]));
        }
        assert(views(out@) =~= views(v@));
    }
    out
}

fn clone_cs_vec(v: &Vec<InterfaceConstraint>) -> (r: Vec<InterfaceConstraint>)
    ensures
        views_cs(r@) == views_cs(v@),
        r@.len() == v@.len(),
    decreases v,
{
    let mut out: Vec<InterfaceConstraint> = Vec::new();
    proof {
        lemma_views_cs_index(v@);
    }
    let mut j: usize = 0;
    while j < v.len()
        invariant
            j <= v@.len(),
            out@.len() == j,
            views_cs(v@).len() == v@.len(),
            forall|k: int|
                0 <= k < v@.len() ==> views_cs(v@)[k] == constraint_view(#[trigger] v@[k]),
            forall|k: int| 0 <= k < j ==> constraint_view(#[trigger] out@[k]) == views_cs(v@)[k],
        decreases v@.len() - j,
    {
        let c = InterfaceConstraint { id: v[j].id, args: clone_type_vec(&v[j].args) };
        out.push(c);
        proof {
            assert(constraint_view(out@[j as int]) == views_cs(v@)[j as int]);
        }
        j = j + 1;
    }
    proof {
        lemma_views_cs_index(out@);
        assert forall|k: int| 0 <= k < out@.len() implies views_cs(out@)[k] == views_cs(v@)[k] by {
            assert(views_cs(out@)[k] == constraint_view(out@[k]));
        }
        assert(views_cs(out@) =~= views_cs(v@));
    }
    out
}

pub(crate) fn sub_templates_vec(v: &Vec<Type>, m: &TypeSubs) -> (r: Vec<Type>)
    ensures
        views(r@) == spec_sub_templates_seq(views(v@), m@),
    decreases v,
{
    let mut out: Vec<Type> = Vec::new();
    proof {
        lemma_views_index(v@);
        lemma_sub_templates_seq_index(views(v@), m@);
    }
    let mut j: usize = 0;
    while j < v.len()
        invariant
            j <= v@.len(),
            out@.len() == j,
            views(v@).len() == v@.len(),
            forall|k: int| 0 <= k < v@.len() ==> views(v@)[k] == type_view(#[trigger] v@[k]),
            spec_sub_templates_seq(views(v@), m@).len() == v@.len(),
            forall|k: int|
                0 <= k < v@.len() ==> spec_sub_templates_seq(views(v@), m@)[k]
                    == spec_sub_templates(#[trigger] views(v@)[k], m@),
            forall|k: int|
                0 <= k < j ==> type_view(#[trigger] out@[k]) == spec_sub_templates_seq(
                    views(v@),
                    m@,
                )[k],
        decreases v@.len() - j,
    {
        let c = v[j].sub_templates(m);
        out.push(c);
        j = j + 1;
    }
    proof {
        lemma_views_index(out@);
        assert forall|k: int| 0 <= k < out@.len() implies views(out@)[k] == spec_sub_templates_seq(views(v@), m@)[k] by {
            assert(views(out@)[k] == type_view(out@[k]));
        }
        assert(views(out@) =~= spec_sub_templates_seq(views(v@), m@));
    }
    out
}

fn sub_templates_cs_vec(v: &Vec<InterfaceConstraint>, m: &TypeSubs) -> (r: Vec<InterfaceConstraint>)
    ensures
        views_cs(r@) == spec_sub_templates_cs(views_cs(v@), m@),
    decreases v,
{
    let mut out: Vec<InterfaceConstraint> = Vec::new();
    proof {
        lemma_views_cs_index(v@);
        lemma_sub_templates_cs_index(views_cs(v@), m@);
    }
    let mut j: usize = 0;
    while j < v.len()
        invariant
            j <= v@.len(),
            out@.len() == j,
            views_cs(v@).len() == v@.len(),
            forall|k: int|
                0 <= k < v@.len() ==> views_cs(v@)[k] == constraint_view(#[trigger] v@[k]),
            spec_sub_templates_cs(views_cs(v@), m@).len() == v@.len(),
            forall|k: int|
                0 <= k < v@.len() ==> spec_sub_templates_cs(views_cs(v@), m@)[k] == (ConstraintS {
                    id: (#[trigger] views_cs(v@)[k]).id,
                    args: spec_sub_templates_seq(views_cs(v@)[k].args, m@),
                }),
            forall|k: int|
                0 <= k < j ==> constraint_view(#[trigger] out@[k]) == spec_sub_templates_cs(
                    views_cs(v@),
                    m@,
                )[k],
        decreases v@.len() - j,
    {
        proof {
            assert(views_cs(v@)[j as int].args == views(v@[j as int].args@));
        }
        let c = InterfaceConstraint { id: v[j].id, args: sub_templates_vec(&v[j].args, m) };
        out.push(c);
        proof {
            assert(constraint_view(out@[j as int]) == spec_sub_templates_cs(views_cs(v@), m@)[j as int]);
        }
        j = j + 1;
    }
    proof {
        lemma_views_cs_index(out@);
        assert forall|k: int| 0 <= k < out@.len() implies views_cs(out@)[k] == spec_sub_templates_cs(views_cs(v@), m@)[k] by {
            assert(views_cs(out@)[k] == constraint_view(out@[k]));
        }
        assert(views_cs(out@) =~= spec_sub_templates_cs(views_cs(v@), m@));
    }
    out
}

fn sub_self_vec(v: &Vec<Type>, c: &Type) -> (r: Vec<Type>)
    ensures
        views(r@) == spec_sub_self_seq(views(v@), c@),
    decreases v,
{
    let mut out: Vec<Type> = Vec::new();
    proof {
        lemma_views_index(v@);
        lemma_sub_self_seq_index(views(v@), c@);
    }
    let mut j: usize = 0;
    while j < v.len()
        invariant
            j <= v@.len(),
            out@.len() == j,
            views(v@).len() == v@.len(),
            forall|k: int| 0 <= k < v@.len() ==> views(v@)[k] == type_view(#[trigger] v@[k]),
            spec_sub_self_seq(views(v@), c@).len() == v@.len(),
            forall|k: int|
                0 <= k < v@.len() ==> spec_sub_self_seq(views(v@), c@)[k] == spec_sub_self(
                    #[trigger] views(v@)[k],
                    c@,
                ),
            forall|k: int|
                0 <= k < j ==> type_view(#[trigger] out@[k]) == spec_sub_self_seq(
                    views(v@),
                    c@,
                )[k],
        decreases v@.len() - j,
    {
        let e = v[j].sub_self(c);
        out.push(e);
        j = j + 1;
    }
    proof {
        lemma_views_index(out@);
        assert forall|k: int| 0 <= k < out@.len() implies views(out@)[k] == spec_sub_self_seq(views(v@), c@)[k] by {
            assert(views(out@)[k] == type_view(out@[k]));
        }
        assert(views(out@) =~= spec_sub_self_seq(views(v@), c@));
    }
    out
}

fn sub_self_cs_vec(v: &Vec<InterfaceConstraint>, c: &Type) -> (r: Vec<InterfaceConstraint>)
    ensures
        views_cs(r@) == spec_sub_self_cs(views_cs(v@), c@),
    decreases v,
{
    let mut out: Vec<InterfaceConstraint> = Vec::new();
    proof {
        lemma_views_cs_index(v@);
        lemma_sub_self_cs_index(views_cs(v@), c@);
    }
    let mut j: usize = 0;
    while j < v.len()
        invariant
            j <= v@.len(),
            out@.len() == j,
            views_cs(v@).len() == v@.len(),
            forall|k: int|
                0 <= k < v@.len() ==> views_cs(v@)[k] == constraint_view(#[trigger] v@[k]),
            spec_sub_self_cs(views_cs(v@), c@).len() == v@.len(),
            forall|k: int|
                0 <= k < v@.len() ==> spec_sub_self_cs(views_cs(v@), c@)[k] == (ConstraintS {
                    id: (#[trigger] views_cs(v@)[k]).id,
                    args: spec_sub_self_seq(views_cs(v@)[k].args, c@),
                }),
            forall|k: int|
                0 <= k < j ==> constraint_view(#[trigger] out@[k]) == spec_sub_self_cs(
                    views_cs(v@),
                    c@,
                )[k],
        decreases v@.len() - j,
    {
        proof {
            assert(views_cs(v@)[j as int].args == views(v@[j as int].args@));
        }
        let e = InterfaceConstraint { id: v[j].id, args: sub_self_vec(&v[j].args, c) };
        out.push(e);
        proof {
            assert(constraint_view(out@[j as int]) == spec_sub_self_cs(views_cs(v@), c@)[j as int]);
        }
        j = j + 1;
    }
    proof {
        lemma_views_cs_index(out@);
        assert forall|k: int| 0 <= k < out@.len() implies views_cs(out@)[k] == spec_sub_self_cs(views_cs(v@), c@)[k] by {
            assert(views_cs(out@)[k] == constraint_view(out@[k]));
        }
        assert(views_cs(out@) =~= spec_sub_self_cs(views_cs(v@), c@));
    }
    out
}

fn offset_vec(v: &Vec<Type>, delta: usize) -> (r: Vec<Type>)
    requires
        forall|x: int| spec_deps_seq(views(v@)).contains(x) ==> x + delta <= usize::MAX,
    ensures
        views(r@) == spec_offset_seq(views(v@), delta as int),
    decreases v,
{
    let mut out: Vec<Type> = Vec::new();
    proof {
        lemma_views_index(v@);
        lemma_offset_seq_index(views(v@), delta as int);
    }
    let mut j: usize = 0;
    while j < v.len()
        invariant
            j <= v@.len(),
            out@.len() == j,
            views(v@).len() == v@.len(),
            forall|k: int| 0 <= k < v@.len() ==> views(v@)[k] == type_view(#[trigger] v@[k]),
            forall|x: int| spec_deps_seq(views(v@)).contains(x) ==> x + delta <= usize::MAX,
            spec_offset_seq(views(v@), delta as int).len() == v@.len(),
            forall|k: int|
                0 <= k < v@.len() ==> spec_offset_seq(views(v@), delta as int)[k] == spec_offset(
                    #[trigger] views(v@)[k],
                    delta as int,
                ),
            forall|k: int|
                0 <= k < j ==> type_view(#[trigger] out@[k]) == spec_offset_seq(
                    views(v@),
                    delta as int,
                )[k],
        decreases v@.len() - j,
    {
        proof {
            assert forall|x: int| spec_deps(type_view(v@[j as int])).contains(x) implies x + delta
                <= usize::MAX by {
                lemma_deps_seq_iff(views(v@), x);
                assert(spec_deps_seq(views(v@)).contains(x));
            }
        }
        let e = v[j].offset_applied(delta);
        out.push(e);
        j = j + 1;
    }
    proof {
        lemma_views_index(out@);
        assert forall|k: int| 0 <= k < out@.len() implies views(out@)[k] == spec_offset_seq(views(v@), delta as int)[k] by {
            assert(views(out@)[k] == type_view(out@[k]));
        }
        assert(views(out@) =~= spec_offset_seq(views(v@), delta as int));
    }
    out
}

fn offset_cs_vec(v: &Vec<InterfaceConstraint>, delta: usize) -> (r: Vec<InterfaceConstraint>)
    requires
        forall|x: int| spec_deps_cs(views_cs(v@)).contains(x) ==> x + delta <= usize::MAX,
    ensures
        views_cs(r@) == spec_offset_cs(views_cs(v@), delta as int),
    decreases v,
{
    let mut out: Vec<InterfaceConstraint> = Vec::new();
    proof {
        lemma_views_cs_index(v@);
        lemma_offset_cs_index(views_cs(v@), delta as int);
    }
    let mut j: usize = 0;
    while j < v.len()
        invariant
            j <= v@.len(),
            out@.len() == j,
            views_cs(v@).len() == v@.len(),
            forall|k: int|
                0 <= k < v@.len() ==> views_cs(v@)[k] == constraint_view(#[trigger] v@[k]),
            forall|x: int| spec_deps_cs(views_cs(v@)).contains(x) ==> x + delta <= usize::MAX,
            spec_offset_cs(views_cs(v@), delta as int).len() == v@.len(),
            forall|k: int|
                0 <= k < v@.len() ==> spec_offset_cs(views_cs(v@), delta as int)[k]
                    == (ConstraintS {
                    id: (#[trigger] views_cs(v@)[k]).id,
                    args: spec_offset_seq(views_cs(v@)[k].args, delta as int),
                }),
            forall|k: int|
                0 <= k < j ==> constraint_view(#[trigger] out@[k]) == spec_offset_cs(
                    views_cs(v@),
                    delta as int,
                )[k],
        decreases v@.len() - j,
    {
        proof {
            assert(views_cs(v@)[j as int].args == views(v@[j as int].args@));
            assert forall|x: int|
                spec_deps_seq(views(v@[j as int].args@)).contains(x) implies x + delta
                <= usize::MAX by {
                lemma_deps_cs_iff(views_cs(v@), x);
                assert(spec_deps_cs(views_cs(v@)).contains(x));
            }
        }
        let e = InterfaceConstraint { id: v[j].id, args: offset_vec(&v[j].args, delta) };
        out.push(e);
        proof {
            assert(constraint_view(out@[j as int]) == spec_offset_cs(views_cs(v@), delta as int)[j as int]);
        }
        j = j + 1;
    }
    proof {
        lemma_views_cs_index(out@);
        assert forall|k: int| 0 <= k < out@.len() implies views_cs(out@)[k] == spec_offset_cs(views_cs(v@), delta as int)[k] by {
            assert(views_cs(out@)[k] == constraint_view(out@[k]));
        }
        assert(views_cs(out@) =~= spec_offset_cs(views_cs(v@), delta as int));
    }
    out
}

fn type_deps_vec(v: &Vec<Type>, deps: &mut Vec<usize>)
    ensures
        spec_elems(final(deps)@) == spec_elems(old(deps)@).union(spec_deps_seq(views(v@))),
    decreases v,
{
    proof {
        lemma_views_index(v@);
    }
    let mut j: usize = 0;
    while j < v.len()
        invariant
            j <= v@.len(),
            views(v@).len() == v@.len(),
            forall|k: int| 0 <= k < v@.len() ==> views(v@)[k] == type_view(#[trigger] v@[k]),
            forall|x: int|
                spec_elems(deps@).contains(x) <==> spec_elems(old(deps)@).contains(x) || exists|
                    k: int,
                |
                    0 <= k < j && spec_deps(#[trigger] views(v@)[k]).contains(x),
        decreases v@.len() - j,
    {
        v[j].template_dependencies(deps);
        j = j + 1;
    }
    proof {
        assert forall|x: int|
            spec_elems(deps@).contains(x) == spec_elems(old(deps)@).union(
                spec_deps_seq(views(v@)),
            ).contains(x) by {
            lemma_deps_seq_iff(views(v@), x);
        }
        assert(spec_elems(deps@) =~= spec_elems(old(deps)@).union(spec_deps_seq(views(v@))));
    }
}

fn cs_deps_vec(v: &Vec<InterfaceConstraint>, deps: &mut Vec<usize>)
    ensures
        spec_elems(final(deps)@) == spec_elems(old(deps)@).union(spec_deps_cs(views_cs(v@))),
    decreases v,
{
    proof {
        lemma_views_cs_index(v@);
    }
    let mut j: usize = 0;
    while j < v.len()
        invariant
            j <= v@.len(),
            views_cs(v@).len() == v@.len(),
            forall|k: int|
                0 <= k < v@.len() ==> views_cs(v@)[k] == constraint_view(#[trigger] v@[k]),
            forall|x: int|
                spec_elems(deps@).contains(x) <==> spec_elems(old(deps)@).contains(x) || exists|
                    k: int,
                |
                    0 <= k < j && spec_deps_seq((#[trigger] views_cs(v@)[k]).args).contains(x),
        decreases v@.len() - j,
    {
        proof {
            assert(views_cs(v@)[j as int].args == views(v@[j as int].args@));
        }
        type_deps_vec(&v[j].args, deps);
        j = j + 1;
    }
    proof {
        assert forall|x: int|
            spec_elems(deps@).contains(x) == spec_elems(old(deps)@).union(
                spec_deps_cs(views_cs(v@)),
            ).contains(x) by {
            lemma_deps_cs_iff(views_cs(v@), x);
        }
        assert(spec_elems(deps@) =~= spec_elems(old(deps)@).union(spec_deps_cs(views_cs(v@))));
    }
}

pub(crate) fn type_vec_eq(a: &Vec<Type>, b: &Vec<Type>) -> (r: bool)
    ensures
        r == (views(a@) == views(b@)),
    decreases a,
{
    proof {
        lemma_views_index(a@);
        lemma_views_index(b@);
    }
    if a.len() != b.len() {
        proof {
            assert(views(a@).len() != views(b@).len());
        }
        return false;
    }
    let mut j: usize = 0;
    while j < a.len()
        invariant
            j <= a@.len(),
            a@.len() == b@.len(),
            views(a@).len() == a@.len(),
            views(b@).len() == b@.len(),
            forall|k: int| 0 <= k < a@.len() ==> views(a@)[k] == type_view(#[trigger] a@[k]),
            forall|k: int| 0 <= k < b@.len() ==> views(b@)[k] == type_view(#[trigger] b@[k]),
            forall|k: int| 0 <= k < j ==> views(a@)[k] == views(b@)[k],
        decreases a@.len() - j,
    {
        if !a[j].type_eq(&b[j]) {
            proof {
                assert(views(a@)[j as int] != views(b@)[j as int]);
            }
            return false;
        }
        j = j + 1;
    }
    proof {
        assert(views(a@) =~= views(b@));
    }
    true
}

pub(crate) fn cs_vec_eq(a: &Vec<InterfaceConstraint>, b: &Vec<InterfaceConstraint>) -> (r: bool)
    ensures
        r == (views_cs(a@) == views_cs(b@)),
    decreases a,
{
    proof {
        lemma_views_cs_index(a@);
        lemma_views_cs_index(b@);
    }
    if a.len() != b.len() {
        proof {
            assert(views_cs(a@).len() != views_cs(b@).len());
        }
        return false;
    }
    let mut j: usize = 0;
    while j < a.len()
        invariant
            j <= a@.len(),
            a@.len() == b@.len(),
            views_cs(a@).len() == a@.len(),
            views_cs(b@).len() == b@.len(),
            forall|k: int|
                0 <= k < a@.len() ==> views_cs(a@)[k] == constraint_view(#[trigger] a@[k]),
            forall|k: int|
                0 <= k < b@.len() ==> views_cs(b@)[k] == constraint_view(#[trigger] b@[k]),
            forall|k: int| 0 <= k < j ==> views_cs(a@)[k] == views_cs(b@)[k],
        decreases a@.len() - j,
    {
        proof {
            assert(views_cs(a@)[j as int].args == views(a@[j as int].args@));
            assert(views_cs(b@)[j as int].args == views(b@[j as int].args@));
        }
        if a[j].id != b[j].id {
            proof {
                assert(views_cs(a@)[j as int] != views_cs(b@)[j as int]);
            }
            return false;
        }
        if !type_vec_eq(&a[j].args, &b[j].args) {
            proof {
                assert(views_cs(a@)[j as int] != views_cs(b@)[j as int]);
            }
            return false;
        }
        j = j + 1;
    }
    proof {
        assert(views_cs(a@) =~= views_cs(b@));
    }
    true
}

} // verus!
