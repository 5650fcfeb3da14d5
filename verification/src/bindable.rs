//! Bindability: the directional relation "a value of type `v` is
//! acceptable where pattern `p` is expected", together with the
//! substitution of template parameters it produces.
//!
//! The rules, tried in order:
//! 1. the pattern `Wildcard` accepts anything;
//! 2. a pattern `TemplateParam(i, cs)` accepts `v`, binding `i` to `v`;
//!    if `i` is already bound the earlier binding must equal `v`, and
//!    every constraint in `cs` must be implemented by `v`;
//! 3. a sum on the value side is acceptable iff every member is;
//! 4. a sum on the pattern side accepts iff some member accepts;
//! 5. references are structural, and a mutable reference is also
//!    acceptable where a shared one is expected;
//! 6. named types match by id, instantiations also pairwise;
//! 7. products match pairwise; 8. functions componentwise;
//! 9. the remaining atoms match only their structural equals.
//!
//! Constraint satisfaction is itself decided by bindability against the
//! recorded implementations, at a level that does not check constraints
//! again, so that the relation is well-founded.

use vstd::prelude::*;

use crate::interfaces::{lemma_views_impls_index, views_impls, ImplS, InterfaceImpl};
use crate::types::{
    lemma_size_seq_index, lemma_views_cs_index, lemma_views_index, spec_size, spec_size_seq,
    type_view, views, views_cs, ConstraintS, InterfaceConstraint, Type, TypeS, TypeSubs,
};

verus! {

/// The level at which constraints are checked: `2` checks them, `0`
/// does not; satisfaction itself sits at level `1` between the two.
pub open spec fn spec_lvl(check_cs: bool) -> nat {
    if check_cs {
        2
    } else {
        0
    }
}

/// The bindability relation, producing the updated substitution on
/// success.
pub open spec fn spec_bind(
    v: TypeS,
    p: TypeS,
    impls: Seq<ImplS>,
    m: Map<int, TypeS>,
    lvl: nat,
) -> Option<Map<int, TypeS>>
    decreases lvl, spec_size(v) + spec_size(p), 0nat,
{
    match p {
        TypeS::Wildcard => Some(m),
        TypeS::TemplateParam(i, cs) => {
            if lvl >= 2 && !spec_sat_cs(v, cs, impls) {
                None
            } else if m.dom().contains(i) {
                if m[i] == v {
                    Some(m)
                } else {
                    None
                }
            } else {
                Some(m.insert(i, v))
            }
        },
        _ => match v {
            TypeS::Or(vs) => spec_bind_all(vs, p, impls, m, lvl),
            _ => match p {
                TypeS::Or(ps) => spec_bind_first(v, ps, impls, m, lvl),
                _ => match (v, p) {
            (TypeS::Ref(a), TypeS::Ref(b)) => spec_bind(*a, *b, impls, m, lvl),
            (TypeS::MutRef(a), TypeS::MutRef(b)) => spec_bind(*a, *b, impls, m, lvl),
            (TypeS::MutRef(a), TypeS::Ref(b)) => spec_bind(*a, *b, impls, m, lvl),
            (TypeS::Basic(i), TypeS::Basic(j)) => if i == j {
                Some(m)
            } else {
                None
            },
            (TypeS::Template(i, va), TypeS::Template(j, pa)) => if i == j && va.len() == pa.len() {
                spec_bind_zip(va, pa, impls, m, lvl)
            } else {
                None
            },
            (TypeS::And(vs), TypeS::And(ps)) => if vs.len() == ps.len() {
                spec_bind_zip(vs, ps, impls, m, lvl)
            } else {
                None
            },
            (TypeS::Function(va, vr), TypeS::Function(pa, pr)) => match spec_bind(
                *va,
                *pa,
                impls,
                m,
                lvl,
            ) {
                Some(m2) => spec_bind(*vr, *pr, impls, m2, lvl),
                None => None,
            },
            (TypeS::Empty, TypeS::Empty) => Some(m),
            (TypeS::SelfType, TypeS::SelfType) => Some(m),
            (TypeS::InferenceMarker, TypeS::InferenceMarker) => Some(m),
            (TypeS::TemplateParamStr(n1, c1), TypeS::TemplateParamStr(n2, c2)) => if n1 == n2 && c1
                == c2 {
                Some(m)
            } else {
                None
            },
                    _ => None,
                },
            },
        },
    }
}

/// Every member of the sum `vs` binds, the substitution threaded left
/// to right.
pub open spec fn spec_bind_all(
    vs: Seq<TypeS>,
    p: TypeS,
    impls: Seq<ImplS>,
    m: Map<int, TypeS>,
    lvl: nat,
) -> Option<Map<int, TypeS>>
    decreases lvl, spec_size_seq(vs) + spec_size(p), vs.len() + 1,
{
    if vs.len() == 0 {
        Some(m)
    } else {
        match spec_bind(vs[0], p, impls, m, lvl) {
            Some(m2) => spec_bind_all(vs.skip(1), p, impls, m2, lvl),
            None => None,
        }
    }
}

/// The first member of the sum `ps` that accepts `v`; each alternative
/// starts from the same substitution.
pub open spec fn spec_bind_first(
    v: TypeS,
    ps: Seq<TypeS>,
    impls: Seq<ImplS>,
    m: Map<int, TypeS>,
    lvl: nat,
) -> Option<Map<int, TypeS>>
    decreases lvl, spec_size(v) + spec_size_seq(ps), ps.len() + 1,
{
    if ps.len() == 0 {
        None
    } else {
        match spec_bind(v, ps[0], impls, m, lvl) {
            Some(m2) => Some(m2),
            None => spec_bind_first(v, ps.skip(1), impls, m, lvl),
        }
    }
}

/// Pairwise bindability of two equally long tuples, the substitution
/// threaded left to right.
pub open spec fn spec_bind_zip(
    vs: Seq<TypeS>,
    ps: Seq<TypeS>,
    impls: Seq<ImplS>,
    m: Map<int, TypeS>,
    lvl: nat,
) -> Option<Map<int, TypeS>>
    decreases lvl, spec_size_seq(vs) + spec_size_seq(ps), vs.len() + 1,
{
    if vs.len() == 0 && ps.len() == 0 {
        Some(m)
    } else if vs.len() == 0 || ps.len() == 0 {
        None
    } else {
        match spec_bind(vs[0], ps[0], impls, m, lvl) {
            Some(m2) => spec_bind_zip(vs.skip(1), ps.skip(1), impls, m2, lvl),
            None => None,
        }
    }
}

/// `v` satisfies every constraint: for each, some recorded
/// implementation of that interface accepts `v`.
pub open spec fn spec_sat_cs(v: TypeS, cs: Seq<ConstraintS>, impls: Seq<ImplS>) -> bool
    decreases 1nat, spec_size(v), 0nat,
{
    forall|k: int|
        0 <= k < cs.len() ==> exists|j: int|
            0 <= j < impls.len() && (#[trigger] impls[j]).interface_id == (#[trigger] cs[k]).id
                && spec_bind(v, impls[j].interface_type, impls, Map::empty(), 0) is Some
}

/// The relation itself, from an empty substitution, constraints
/// checked.
pub open spec fn spec_bindable(v: TypeS, p: TypeS, impls: Seq<ImplS>) -> bool {
    spec_bind(v, p, impls, Map::empty(), 2) is Some
}

/// No `Wildcard` and no `TemplateParam` anywhere in the type.
pub open spec fn spec_plain(t: TypeS) -> bool
    decreases t,
{
    match t {
        TypeS::Wildcard => false,
        TypeS::TemplateParam(_, _) => false,
        TypeS::Template(_, args) => spec_plain_seq(args),
        TypeS::Ref(i) => spec_plain(*i),
        TypeS::MutRef(i) => spec_plain(*i),
        TypeS::Or(v) => spec_plain_seq(v),
        TypeS::And(v) => spec_plain_seq(v),
        TypeS::Function(a, b) => spec_plain(*a) && spec_plain(*b),
        _ => true,
    }
}

pub open spec fn spec_plain_seq(s: Seq<TypeS>) -> bool
    decreases s,
{
    if s.len() == 0 {
        true
    } else {
        spec_plain(s[0]) && spec_plain_seq(s.skip(1))
    }
}

pub proof fn lemma_plain_seq_index(s: Seq<TypeS>)
    ensures
        spec_plain_seq(s) <==> forall|i: int| 0 <= i < s.len() ==> spec_plain(#[trigger] s[i]),
    decreases s,
{
    if s.len() > 0 {
        lemma_plain_seq_index(s.skip(1));
        if spec_plain_seq(s) {
            assert forall|i: int| 0 <= i < s.len() implies spec_plain(#[trigger] s[i]) by {
                if i > 0 {
                    assert(s.skip(1)[i - 1] == s[i]);
                }
            }
        }
        if forall|i: int| 0 <= i < s.len() ==> spec_plain(#[trigger] s[i]) {
            assert forall|i: int| 0 <= i < s.skip(1).len() implies spec_plain(
                #[trigger] s.skip(1)[i],
            ) by {
                assert(s.skip(1)[i] == s[i + 1]);
            }
        }
    }
}

/// `x` is the pattern itself, or a member of it through nested sums.
pub open spec fn spec_or_reach(x: TypeS, p: TypeS) -> bool
    decreases p,
{
    x == p || (match p {
        TypeS::Or(ps) => exists|k: int| 0 <= k < ps.len() && spec_or_reach(x, #[trigger] ps[k]),
        _ => false,
    })
}

pub proof fn lemma_or_members(ws: Seq<TypeS>, p: TypeS)
    requires
        spec_or_reach(TypeS::Or(ws), p),
    ensures
        forall|k: int| 0 <= k < ws.len() ==> spec_or_reach(#[trigger] ws[k], p),
    decreases p,
{
    if p == TypeS::Or(ws) {
        assert forall|k: int| 0 <= k < ws.len() implies spec_or_reach(#[trigger] ws[k], p) by {
            assert(spec_or_reach(ws[k], ws[k]));
        }
    } else {
        match p {
            TypeS::Or(ps) => {
                let k0 = choose|k: int|
                    0 <= k < ps.len() && spec_or_reach(TypeS::Or(ws), #[trigger] ps[k]);
                lemma_or_members(ws, ps[k0]);
                assert forall|k: int| 0 <= k < ws.len() implies spec_or_reach(
                    #[trigger] ws[k],
                    p,
                ) by {
                    assert(spec_or_reach(ws[k], ps[k0]));
                }
            },
            _ => {},
        }
    }
}

pub proof fn lemma_first_sound(
    x: TypeS,
    ps: Seq<TypeS>,
    impls: Seq<ImplS>,
    m: Map<int, TypeS>,
    lvl: nat,
    k: int,
)
    requires
        0 <= k < ps.len(),
        spec_bind(x, ps[k], impls, m, lvl) is Some,
    ensures
        spec_bind_first(x, ps, impls, m, lvl) is Some,
    decreases ps.len(),
{
    if spec_bind(x, ps[0], impls, m, lvl) is Some {
    } else {
        assert(k != 0);
        assert(ps.skip(1)[k - 1] == ps[k]);
        lemma_first_sound(x, ps.skip(1), impls, m, lvl, k - 1);
    }
}

/// Reflexivity, generalized: a plain type binds to itself, and to any
/// pattern that reaches it through sums of plain members.
pub proof fn lemma_refl_reach(x: TypeS, p: TypeS, impls: Seq<ImplS>, m: Map<int, TypeS>, lvl: nat)
    requires
        spec_plain(x),
        spec_plain(p),
        spec_or_reach(x, p),
    ensures
        spec_bind(x, p, impls, m, lvl) is Some,
    decreases spec_size(x) + spec_size(p), 0nat,
{
    match x {
        TypeS::Or(ws) => {
            lemma_or_members(ws, p);
            lemma_plain_seq_index(ws);
            lemma_refl_all(ws, p, impls, m, lvl);
        },
        _ => {
            if x == p {
                match x {
                    TypeS::Ref(a) => {
                        lemma_refl_reach(*a, *a, impls, m, lvl);
                    },
                    TypeS::MutRef(a) => {
                        lemma_refl_reach(*a, *a, impls, m, lvl);
                    },
                    TypeS::Function(a, b) => {
                        lemma_refl_reach(*a, *a, impls, m, lvl);
                        let m2 = spec_bind(*a, *a, impls, m, lvl).unwrap();
                        lemma_refl_reach(*b, *b, impls, m2, lvl);
                    },
                    TypeS::Template(_, args) => {
                        lemma_plain_seq_index(args);
                        lemma_refl_zip(args, impls, m, lvl);
                    },
                    TypeS::And(args) => {
                        lemma_plain_seq_index(args);
                        lemma_refl_zip(args, impls, m, lvl);
                    },
                    _ => {},
                }
            } else {
                match p {
                    TypeS::Or(ps) => {
                        let k = choose|k: int|
                            0 <= k < ps.len() && spec_or_reach(x, #[trigger] ps[k]);
                        lemma_plain_seq_index(ps);
                        lemma_size_seq_index(ps, k);
                        lemma_refl_reach(x, ps[k], impls, m, lvl);
                        lemma_first_sound(x, ps, impls, m, lvl, k);
                    },
                    _ => {},
                }
            }
        },
    }
}

pub proof fn lemma_refl_all(
    ws: Seq<TypeS>,
    p: TypeS,
    impls: Seq<ImplS>,
    m: Map<int, TypeS>,
    lvl: nat,
)
    requires
        forall|k: int| 0 <= k < ws.len() ==> spec_plain(#[trigger] ws[k]),
        forall|k: int| 0 <= k < ws.len() ==> spec_or_reach(#[trigger] ws[k], p),
        spec_plain(p),
    ensures
        spec_bind_all(ws, p, impls, m, lvl) is Some,
    decreases spec_size_seq(ws) + spec_size(p), ws.len() + 1,
{
    if ws.len() > 0 {
        lemma_size_seq_index(ws, 0);
        lemma_refl_reach(ws[0], p, impls, m, lvl);
        let m2 = spec_bind(ws[0], p, impls, m, lvl).unwrap();
        assert forall|k: int| 0 <= k < ws.skip(1).len() implies spec_plain(#[trigger] ws.skip(1)[k])
            && spec_or_reach(ws.skip(1)[k], p) by {
            assert(ws.skip(1)[k] == ws[k + 1]);
        }
        lemma_refl_all(ws.skip(1), p, impls, m2, lvl);
    }
}

pub proof fn lemma_refl_zip(s: Seq<TypeS>, impls: Seq<ImplS>, m: Map<int, TypeS>, lvl: nat)
    requires
        forall|k: int| 0 <= k < s.len() ==> spec_plain(#[trigger] s[k]),
    ensures
        spec_bind_zip(s, s, impls, m, lvl) is Some,
    decreases spec_size_seq(s) + spec_size_seq(s), s.len() + 1,
{
    if s.len() > 0 {
        lemma_size_seq_index(s, 0);
        assert(spec_or_reach(s[0], s[0]));
        lemma_refl_reach(s[0], s[0], impls, m, lvl);
        let m2 = spec_bind(s[0], s[0], impls, m, lvl).unwrap();
        assert forall|k: int| 0 <= k < s.skip(1).len() implies spec_plain(
            #[trigger] s.skip(1)[k],
        ) by {
            assert(s.skip(1)[k] == s[k + 1]);
        }
        lemma_refl_zip(s.skip(1), impls, m2, lvl);
    }
}

/// Bindability is reflexive on types free of `Wildcard` and
/// `TemplateParam`.
pub proof fn lemma_bindable_reflexive(t: TypeS, impls: Seq<ImplS>)
    requires
        spec_plain(t),
    ensures
        spec_bindable(t, t, impls),
{
    assert(spec_or_reach(t, t));
    lemma_refl_reach(t, t, impls, Map::empty(), 2);
}

/// No sum type anywhere in the type.
pub open spec fn spec_no_or(t: TypeS) -> bool
    decreases t,
{
    match t {
        TypeS::Or(_) => false,
        TypeS::Template(_, args) => spec_no_or_seq(args),
        TypeS::Ref(i) => spec_no_or(*i),
        TypeS::MutRef(i) => spec_no_or(*i),
        TypeS::And(v) => spec_no_or_seq(v),
        TypeS::Function(a, b) => spec_no_or(*a) && spec_no_or(*b),
        _ => true,
    }
}

pub open spec fn spec_no_or_seq(s: Seq<TypeS>) -> bool
    decreases s,
{
    if s.len() == 0 {
        true
    } else {
        spec_no_or(s[0]) && spec_no_or_seq(s.skip(1))
    }
}

pub proof fn lemma_no_or_seq_index(s: Seq<TypeS>)
    ensures
        spec_no_or_seq(s) <==> forall|i: int| 0 <= i < s.len() ==> spec_no_or(#[trigger] s[i]),
    decreases s,
{
    if s.len() > 0 {
        lemma_no_or_seq_index(s.skip(1));
        if spec_no_or_seq(s) {
            assert forall|i: int| 0 <= i < s.len() implies spec_no_or(#[trigger] s[i]) by {
                if i > 0 {
                    assert(s.skip(1)[i - 1] == s[i]);
                }
            }
        }
        if forall|i: int| 0 <= i < s.len() ==> spec_no_or(#[trigger] s[i]) {
            assert forall|i: int| 0 <= i < s.skip(1).len() implies spec_no_or(
                #[trigger] s.skip(1)[i],
            ) by {
                assert(s.skip(1)[i] == s[i + 1]);
            }
        }
    }
}

/// Antisymmetry: on types free of `Wildcard`, `TemplateParam` and sums,
/// mutual bindability forces structural equality.
pub proof fn lemma_antisym(
    a: TypeS,
    b: TypeS,
    impls: Seq<ImplS>,
    m1: Map<int, TypeS>,
    m2: Map<int, TypeS>,
    lvl1: nat,
    lvl2: nat,
)
    requires
        spec_plain(a),
        spec_plain(b),
        spec_no_or(a),
        spec_no_or(b),
        spec_bind(a, b, impls, m1, lvl1) is Some,
        spec_bind(b, a, impls, m2, lvl2) is Some,
    ensures
        a == b,
    decreases spec_size(a) + spec_size(b), 0nat,
{
    match (a, b) {
        (TypeS::Ref(x), TypeS::Ref(y)) => {
            lemma_antisym(*x, *y, impls, m1, m2, lvl1, lvl2);
        },
        (TypeS::MutRef(x), TypeS::MutRef(y)) => {
            lemma_antisym(*x, *y, impls, m1, m2, lvl1, lvl2);
        },
        (TypeS::Template(i, sa), TypeS::Template(j, sb)) => {
            lemma_no_or_seq_index(sa);
            lemma_no_or_seq_index(sb);
            lemma_plain_seq_index(sa);
            lemma_plain_seq_index(sb);
            lemma_antisym_zip(sa, sb, impls, m1, m2, lvl1, lvl2);
        },
        (TypeS::And(sa), TypeS::And(sb)) => {
            lemma_no_or_seq_index(sa);
            lemma_no_or_seq_index(sb);
            lemma_plain_seq_index(sa);
            lemma_plain_seq_index(sb);
            lemma_antisym_zip(sa, sb, impls, m1, m2, lvl1, lvl2);
        },
        (TypeS::Function(xa, xr), TypeS::Function(ya, yr)) => {
            let m1b = spec_bind(*xa, *ya, impls, m1, lvl1).unwrap();
            let m2b = spec_bind(*ya, *xa, impls, m2, lvl2).unwrap();
            lemma_antisym(*xa, *ya, impls, m1, m2, lvl1, lvl2);
            lemma_antisym(*xr, *yr, impls, m1b, m2b, lvl1, lvl2);
        },
        _ => {},
    }
}

pub proof fn lemma_antisym_zip(
    sa: Seq<TypeS>,
    sb: Seq<TypeS>,
    impls: Seq<ImplS>,
    m1: Map<int, TypeS>,
    m2: Map<int, TypeS>,
    lvl1: nat,
    lvl2: nat,
)
    requires
        forall|k: int| 0 <= k < sa.len() ==> spec_plain(#[trigger] sa[k]) && spec_no_or(sa[k]),
        forall|k: int| 0 <= k < sb.len() ==> spec_plain(#[trigger] sb[k]) && spec_no_or(sb[k]),
        spec_bind_zip(sa, sb, impls, m1, lvl1) is Some,
        spec_bind_zip(sb, sa, impls, m2, lvl2) is Some,
    ensures
        sa == sb,
    decreases spec_size_seq(sa) + spec_size_seq(sb), sa.len() + 1,
{
    if sa.len() == 0 {
        assert(sa =~= sb);
    } else {
        lemma_size_seq_index(sa, 0);
        lemma_size_seq_index(sb, 0);
        let m1b = spec_bind(sa[0], sb[0], impls, m1, lvl1).unwrap();
        let m2b = spec_bind(sb[0], sa[0], impls, m2, lvl2).unwrap();
        lemma_antisym(sa[0], sb[0], impls, m1, m2, lvl1, lvl2);
        assert forall|k: int| 0 <= k < sa.skip(1).len() implies spec_plain(#[trigger] sa.skip(1)[k])
            && spec_no_or(sa.skip(1)[k]) by {
            assert(sa.skip(1)[k] == sa[k + 1]);
        }
        assert forall|k: int| 0 <= k < sb.skip(1).len() implies spec_plain(#[trigger] sb.skip(1)[k])
            && spec_no_or(sb.skip(1)[k]) by {
            assert(sb.skip(1)[k] == sb[k + 1]);
        }
        lemma_antisym_zip(sa.skip(1), sb.skip(1), impls, m1b, m2b, lvl1, lvl2);
        assert(sa.skip(1).len() == sb.skip(1).len());
        assert(sa.len() == sb.len());
        assert forall|i: int| 0 <= i < sa.len() implies sa[i] == sb[i] by {
            if i > 0 {
                assert(sa[i] == sa.skip(1)[i - 1]);
                assert(sb[i] == sb.skip(1)[i - 1]);
            }
        }
        assert(sa =~= sb);
    }
}

/// Mutual bindability of plain, sum-free types is structural equality.
pub proof fn lemma_bindable_antisymmetric(a: TypeS, b: TypeS, impls: Seq<ImplS>)
    requires
        spec_plain(a),
        spec_plain(b),
        spec_no_or(a),
        spec_no_or(b),
        spec_bindable(a, b, impls),
        spec_bindable(b, a, impls),
    ensures
        a == b,
{
    lemma_antisym(a, b, impls, Map::empty(), Map::empty(), 2, 2);
}

pub proof fn lemma_subs_map_congruent(a: Seq<(usize, Type)>, b: Seq<(usize, Type)>)
    requires
        a.len() == b.len(),
        forall|k: int|
            0 <= k < a.len() ==> (#[trigger] a[k]).0 == (#[trigger] b[k]).0 && type_view(a[k].1)
                == type_view(b[k].1),
    ensures
        crate::types::spec_subs_map(a) == crate::types::spec_subs_map(b),
    decreases a.len(),
{
    if a.len() > 0 {
        lemma_subs_map_congruent(a.drop_last(), b.drop_last());
    }
}

/// The model keeps the head constructor of the value.
pub proof fn lemma_view_shape(t: Type)
    ensures
        t@ is Empty <==> t is Empty,
        t@ is SelfType <==> t is SelfType,
        t@ is Wildcard <==> t is Wildcard,
        t@ is InferenceMarker <==> t is InferenceMarker,
        t@ is Basic <==> t is Basic,
        t@ is Template <==> t is Template,
        t@ is TemplateParam <==> t is TemplateParam,
        t@ is TemplateParamStr <==> t is TemplateParamStr,
        t@ is Ref <==> t is Ref,
        t@ is MutRef <==> t is MutRef,
        t@ is Or <==> t is Or,
        t@ is And <==> t is And,
        t@ is Function <==> t is Function,
{
    match t {
        Type::Empty => {},
        Type::SelfType => {},
        Type::Wildcard => {},
        Type::InferenceMarker => {},
        Type::Basic(_) => {},
        Type::Template(_, _) => {},
        Type::TemplateParam(_, _) => {},
        Type::TemplateParamStr(_, _) => {},
        Type::Ref(_) => {},
        Type::MutRef(_) => {},
        Type::Or(_) => {},
        Type::And(_) => {},
        Type::Function(_, _) => {},
    }
}

/// A structural copy of a substitution, with the same model.
pub(crate) fn clone_subs(m: &TypeSubs) -> (r: TypeSubs)
    ensures
        r@ == m@,
{
    let mut out: Vec<(usize, Type)> = Vec::new();
    let mut j: usize = 0;
    while j < m.entries.len()
        invariant
            j <= m.entries@.len(),
            out@.len() == j,
            forall|k: int|
                0 <= k < j ==> (#[trigger] out@[k]).0 == (#[trigger] m.entries@[k]).0 && type_view(
                    out@[k].1,
                ) == type_view(m.entries@[k].1),
        decreases m.entries@.len() - j,
    {
        let key = m.entries[j].0;
        let t = m.entries[j].1.clone_type();
        out.push((key, t));
        j = j + 1;
    }
    proof {
        lemma_subs_map_congruent(out@, m.entries@);
    }
    TypeSubs { entries: out }
}

/// `v` satisfies every constraint against the recorded
/// implementations.
#[verifier::loop_isolation(false)]
pub(crate) fn sat_cs_exec(
    v: &Type,
    cs: &Vec<InterfaceConstraint>,
    impls: &Vec<InterfaceImpl>,
) -> (r: bool)
    ensures
        r == spec_sat_cs(v@, views_cs(cs@), views_impls(impls@)),
    decreases 1nat, spec_size(v@), 0nat,
{
    proof {
        lemma_views_cs_index(cs@);
        lemma_views_impls_index(impls@);
    }
    let ghost csv = views_cs(cs@);
    let ghost impv = views_impls(impls@);
    let mut k: usize = 0;
    while k < cs.len()
        invariant
            k <= cs@.len(),
            csv == views_cs(cs@),
            impv == views_impls(impls@),
            csv.len() == cs@.len(),
            impv.len() == impls@.len(),
            forall|i: int| 0 <= i < cs@.len() ==> csv[i] == crate::types::constraint_view(#[trigger] cs@[i]),
            forall|i: int| 0 <= i < impls@.len() ==> impv[i] == crate::interfaces::impl_view(#[trigger] impls@[i]),
            forall|kk: int|
                0 <= kk < k ==> exists|j: int|
                    0 <= j < impv.len() && (#[trigger] impv[j]).interface_id == (#[trigger] csv[kk]).id
                        && spec_bind(v@, impv[j].interface_type, impv, Map::empty(), 0) is Some,
        decreases cs@.len() - k,
    {
        let mut found = false;
        let mut j: usize = 0;
        while j < impls.len()
            invariant
                j <= impls@.len(),
                csv == views_cs(cs@),
                impv == views_impls(impls@),
                csv.len() == cs@.len(),
                impv.len() == impls@.len(),
                k < cs@.len(),
                forall|i: int|
                    0 <= i < cs@.len() ==> csv[i] == crate::types::constraint_view(#[trigger] cs@[i]),
                forall|i: int|
                    0 <= i < impls@.len() ==> impv[i] == crate::interfaces::impl_view(#[trigger] impls@[i]),
                found <==> exists|jj: int|
                    0 <= jj < j && (#[trigger] impv[jj]).interface_id == csv[k as int].id
                        && spec_bind(v@, impv[jj].interface_type, impv, Map::empty(), 0) is Some,
            decreases impls@.len() - j,
        {
            if !found && impls[j].interface_id == cs[k].id {
                let (ok, _m) = bind_exec(v, &impls[j].interface_type, impls, TypeSubs::new(), false);
                if ok {
                    found = true;
                    proof {
                        assert((#[trigger] impv[j as int]).interface_id == csv[k as int].id
                            && spec_bind(v@, impv[j as int].interface_type, impv, Map::empty(), 0)
                            is Some);
                    }
                }
            }
            j = j + 1;
        }
        if !found {
            proof {
                assert(!(exists|jj: int|
                    0 <= jj < impv.len() && (#[trigger] impv[jj]).interface_id == csv[k as int].id
                        && spec_bind(v@, impv[jj].interface_type, impv, Map::empty(), 0) is Some));
            }
            return false;
        }
        k = k + 1;
    }
    true
}

/// The executable relation: mirrors `spec_bind`, rule for rule.
#[verifier::loop_isolation(false)]
pub(crate) fn bind_exec(
    v: &Type,
    p: &Type,
    impls: &Vec<InterfaceImpl>,
    m: TypeSubs,
    check_cs: bool,
) -> (r: (bool, TypeSubs))
    ensures
        ({
            let res = spec_bind(v@, p@, views_impls(impls@), m@, spec_lvl(check_cs));
            &&& r.0 == (res is Some)
            &&& r.0 ==> r.1@ == res.unwrap()
        }),
    decreases spec_lvl(check_cs), spec_size(v@) + spec_size(p@), 2nat,
{
    let ghost impv = views_impls(impls@);
    let ghost lvl = spec_lvl(check_cs);
    proof {
        lemma_view_shape(*v);
        lemma_view_shape(*p);
    }
    match p {
        Type::Wildcard => (true, m),
        Type::TemplateParam(i, cs) => {
            if check_cs && !sat_cs_exec(v, cs, impls) {
                return (false, m);
            }
            let decision: Option<bool> = match m.get(*i) {
                Some(w) => Some(v.type_eq(w)),
                None => None,
            };
            match decision {
                Some(true) => (true, m),
                Some(false) => (false, m),
                None => {
                    let mut m2 = m;
                    m2.insert(*i, v.clone_type());
                    (true, m2)
                },
            }
        },
        _ => match v {
            Type::Or(vs) => {
                let ghost m0 = m@;
                let mut cur = m;
                proof {
                    lemma_views_index(vs@);
                    assert(views(vs@).skip(0) =~= views(vs@));
                }
                let mut j: usize = 0;
                while j < vs.len()
                    invariant
                        j <= vs@.len(),
                        impv == views_impls(impls@),
                        views(vs@).len() == vs@.len(),
                        forall|k: int|
                            0 <= k < vs@.len() ==> views(vs@)[k] == type_view(#[trigger] vs@[k]),
                        spec_bind_all(views(vs@).skip(j as int), p@, impv, cur@, lvl)
                            == spec_bind_all(views(vs@), p@, impv, m0, lvl),
                        spec_size_seq(views(vs@)) < spec_size(v@),
                        v@ == TypeS::Or(views(vs@)),
                        !(p@ is Wildcard),
                        !(p@ is TemplateParam),
                    decreases vs@.len() - j,
                {
                    proof {
                        lemma_size_seq_index(views(vs@), j as int);
                        assert(views(vs@).skip(j as int)[0] == views(vs@)[j as int]);
                        assert(views(vs@).skip(j as int).len() == vs@.len() - j);
                    }
                    let ghost cur0 = cur@;
                    let (ok, next) = bind_exec(&vs[j], p, impls, cur, check_cs);
                    if !ok {
                        proof {
                            assert(spec_bind(views(vs@).skip(j as int)[0], p@, impv, cur0, lvl)
                                is None);
                            assert(spec_bind_all(views(vs@).skip(j as int), p@, impv, cur0, lvl)
                                is None);
                        }
                        return (false, next);
                    }
                    cur = next;
                    proof {
                        assert(spec_bind(views(vs@).skip(j as int)[0], p@, impv, cur0, lvl)
                            == Some(cur@));
                        assert(views(vs@).skip(j as int).skip(1) =~= views(vs@).skip(j as int + 1));
                        assert(spec_bind_all(views(vs@).skip(j as int), p@, impv, cur0, lvl)
                            == spec_bind_all(views(vs@).skip(j as int + 1), p@, impv, cur@, lvl));
                    }
                    j = j + 1;
                }
                proof {
                    assert(views(vs@).skip(vs@.len() as int) =~= Seq::<TypeS>::empty());
                }
                (true, cur)
            },
            _ => match p {
                Type::Or(ps) => {
                    let ghost m0 = m@;
                    proof {
                        lemma_views_index(ps@);
                        assert(views(ps@).skip(0) =~= views(ps@));
                    }
                    let mut j: usize = 0;
                    while j < ps.len()
                        invariant
                            j <= ps@.len(),
                            impv == views_impls(impls@),
                            m@ == m0,
                            views(ps@).len() == ps@.len(),
                            forall|k: int|
                                0 <= k < ps@.len() ==> views(ps@)[k] == type_view(
                                    #[trigger] ps@[k],
                                ),
                            spec_bind_first(v@, views(ps@).skip(j as int), impv, m0, lvl)
                                == spec_bind_first(v@, views(ps@), impv, m0, lvl),
                            spec_size_seq(views(ps@)) < spec_size(p@),
                            p@ == TypeS::Or(views(ps@)),
                            !(v@ is Or),
                        decreases ps@.len() - j,
                    {
                        proof {
                            lemma_size_seq_index(views(ps@), j as int);
                            assert(views(ps@).skip(j as int)[0] == views(ps@)[j as int]);
                            assert(views(ps@).skip(j as int).len() == ps@.len() - j);
                        }
                        let trial = clone_subs(&m);
                        let (ok, m2) = bind_exec(v, &ps[j], impls, trial, check_cs);
                        if ok {
                            proof {
                                assert(spec_bind(v@, views(ps@).skip(j as int)[0], impv, m0, lvl)
                                    == Some(m2@));
                                assert(spec_bind_first(v@, views(ps@).skip(j as int), impv, m0, lvl)
                                    == Some(m2@));
                            }
                            return (true, m2);
                        }
                        proof {
                            assert(spec_bind(v@, views(ps@).skip(j as int)[0], impv, m0, lvl)
                                is None);
                            assert(views(ps@).skip(j as int).skip(1) =~= views(ps@).skip(
                                j as int + 1,
                            ));
                            assert(spec_bind_first(v@, views(ps@).skip(j as int), impv, m0, lvl)
                                == spec_bind_first(v@, views(ps@).skip(j as int + 1), impv, m0, lvl));
                        }
                        j = j + 1;
                    }
                    proof {
                        assert(views(ps@).skip(ps@.len() as int) =~= Seq::<TypeS>::empty());
                    }
                    (false, m)
                },
                _ => match (v, p) {
                    (Type::Ref(a), Type::Ref(b)) => bind_exec(a, b, impls, m, check_cs),
                    (Type::MutRef(a), Type::MutRef(b)) => bind_exec(a, b, impls, m, check_cs),
                    (Type::MutRef(a), Type::Ref(b)) => bind_exec(a, b, impls, m, check_cs),
                    (Type::Basic(i), Type::Basic(j)) => (*i == *j, m),
                    (Type::Template(i, va), Type::Template(j, pa)) => {
                        if *i != *j {
                            return (false, m);
                        }
                        proof {
                            lemma_views_index(va@);
                            lemma_views_index(pa@);
                        }
                        if va.len() != pa.len() {
                            return (false, m);
                        }
                        bind_zip_exec(va, pa, impls, m, check_cs, Ghost(v@), Ghost(p@))
                    },
                    (Type::And(vs), Type::And(ps)) => {
                        proof {
                            lemma_views_index(vs@);
                            lemma_views_index(ps@);
                        }
                        if vs.len() != ps.len() {
                            return (false, m);
                        }
                        bind_zip_exec(vs, ps, impls, m, check_cs, Ghost(v@), Ghost(p@))
                    },
                    (Type::Function(va, vr), Type::Function(pa, pr)) => {
                        let (ok, m2) = bind_exec(va, pa, impls, m, check_cs);
                        if !ok {
                            return (false, m2);
                        }
                        bind_exec(vr, pr, impls, m2, check_cs)
                    },
                    (Type::Empty, Type::Empty) => (true, m),
                    (Type::SelfType, Type::SelfType) => (true, m),
                    (Type::InferenceMarker, Type::InferenceMarker) => (true, m),
                    (Type::TemplateParamStr(n1, c1), Type::TemplateParamStr(n2, c2)) => {
                        let same = crate::types::string_eq(n1, n2) && crate::types::cs_vec_eq(
                            c1,
                            c2,
                        );
                        (same, m)
                    },
                    _ => {
                        proof {
                            lemma_view_shape(*v);
                            lemma_view_shape(*p);
                        }
                        (false, m)
                    },
                },
            },
        },
    }
}

/// Pairwise bindability of two equally long argument tuples.
#[verifier::loop_isolation(false)]
fn bind_zip_exec(
    vs: &Vec<Type>,
    ps: &Vec<Type>,
    impls: &Vec<InterfaceImpl>,
    m: TypeSubs,
    check_cs: bool,
    parent_v: Ghost<TypeS>,
    parent_p: Ghost<TypeS>,
) -> (r: (bool, TypeSubs))
    requires
        vs@.len() == ps@.len(),
        spec_size_seq(views(vs@)) < spec_size(parent_v@),
        spec_size_seq(views(ps@)) < spec_size(parent_p@),
    ensures
        ({
            let res = spec_bind_zip(
                views(vs@),
                views(ps@),
                views_impls(impls@),
                m@,
                spec_lvl(check_cs),
            );
            &&& r.0 == (res is Some)
            &&& r.0 ==> r.1@ == res.unwrap()
        }),
    decreases spec_lvl(check_cs), spec_size(parent_v@) + spec_size(parent_p@), 1nat,
{
    let ghost impv = views_impls(impls@);
    let ghost lvl = spec_lvl(check_cs);
    let ghost m0 = m@;
    let mut cur = m;
    proof {
        lemma_views_index(vs@);
        lemma_views_index(ps@);
        assert(views(vs@).skip(0) =~= views(vs@));
        assert(views(ps@).skip(0) =~= views(ps@));
    }
    let mut j: usize = 0;
    while j < vs.len()
        invariant
            j <= vs@.len(),
            vs@.len() == ps@.len(),
            impv == views_impls(impls@),
            views(vs@).len() == vs@.len(),
            views(ps@).len() == ps@.len(),
            forall|k: int| 0 <= k < vs@.len() ==> views(vs@)[k] == type_view(#[trigger] vs@[k]),
            forall|k: int| 0 <= k < ps@.len() ==> views(ps@)[k] == type_view(#[trigger] ps@[k]),
            spec_bind_zip(
                views(vs@).skip(j as int),
                views(ps@).skip(j as int),
                impv,
                cur@,
                lvl,
            ) == spec_bind_zip(views(vs@), views(ps@), impv, m0, lvl),
            spec_size_seq(views(vs@)) < spec_size(parent_v@),
            spec_size_seq(views(ps@)) < spec_size(parent_p@),
        decreases vs@.len() - j,
    {
        proof {
            lemma_size_seq_index(views(vs@), j as int);
            lemma_size_seq_index(views(ps@), j as int);
            assert(views(vs@).skip(j as int)[0] == views(vs@)[j as int]);
            assert(views(ps@).skip(j as int)[0] == views(ps@)[j as int]);
            assert(views(vs@).skip(j as int).len() == vs@.len() - j);
            assert(views(ps@).skip(j as int).len() == ps@.len() - j);
        }
        let ghost cur0 = cur@;
        let (ok, next) = bind_exec(&vs[j], &ps[j], impls, cur, check_cs);
        if !ok {
            proof {
                assert(spec_bind(
                    views(vs@).skip(j as int)[0],
                    views(ps@).skip(j as int)[0],
                    impv,
                    cur0,
                    lvl,
                ) is None);
                assert(spec_bind_zip(
                    views(vs@).skip(j as int),
                    views(ps@).skip(j as int),
                    impv,
                    cur0,
                    lvl,
                ) is None);
            }
            return (false, next);
        }
        cur = next;
        proof {
            assert(spec_bind(
                views(vs@).skip(j as int)[0],
                views(ps@).skip(j as int)[0],
                impv,
                cur0,
                lvl,
            ) == Some(cur@));
            assert(views(vs@).skip(j as int).skip(1) =~= views(vs@).skip(j as int + 1));
            assert(views(ps@).skip(j as int).skip(1) =~= views(ps@).skip(j as int + 1));
            assert(spec_bind_zip(views(vs@).skip(j as int), views(ps@).skip(j as int), impv, cur0, lvl)
                == spec_bind_zip(
                views(vs@).skip(j as int + 1),
                views(ps@).skip(j as int + 1),
                impv,
                cur@,
                lvl,
            ));
        }
        j = j + 1;
    }
    proof {
        assert(views(vs@).skip(vs@.len() as int) =~= Seq::<TypeS>::empty());
        assert(views(ps@).skip(ps@.len() as int) =~= Seq::<TypeS>::empty());
    }
    (true, cur)
}

} // verus!
