//! Removing and filling in the lifetimes of a handler's argument types.
use vstd::prelude::*;

use crate::ast::{
    clone_bindings, clone_name, clone_names, clone_qself, clone_ty, lemma_segments_view,
    lemma_tys_view, parameters_view, segment_view, segments_view, ty_view, tys_view,
    AngleBracketedParameterData, ParametersV, ParenthesizedParameterData, Path, PathParameters,
    PathSegment, SegmentV, Ty, TyV,
};
use crate::lifetime_pool::{names_of, pop_names, LifetimePool};

verus! {

/// A type with the lifetime of its outermost reference removed.
pub open spec fn strip_outer(t: TyV) -> TyV {
    match t {
        TyV::Rptr { lifetime, mutable, ty } => TyV::Rptr { lifetime: None, mutable, ty },
        _ => t,
    }
}

/// A type with every lifetime removed that stands in a reference at its top or
/// in the parameters of its path, at any depth of path parameters.
pub open spec fn strip_ty(t: TyV) -> TyV
    decreases t,
{
    match t {
        TyV::Rptr { lifetime, mutable, ty } => TyV::Rptr { lifetime: None, mutable, ty },
        TyV::Path { qself, global, segments } => TyV::Path {
            qself,
            global,
            segments: strip_segments(segments),
        },
        TyV::Other(s) => TyV::Other(s),
    }
}

pub open spec fn strip_tys(s: Seq<TyV>) -> Seq<TyV>
    decreases s,
{
    if s.len() == 0 {
        Seq::empty()
    } else {
        strip_tys(s.subrange(0, s.len() - 1)).push(strip_ty(s[s.len() - 1]))
    }
}

pub open spec fn strip_segments(s: Seq<SegmentV>) -> Seq<SegmentV>
    decreases s,
{
    if s.len() == 0 {
        Seq::empty()
    } else {
        strip_segments(s.subrange(0, s.len() - 1)).push(strip_segment(s[s.len() - 1]))
    }
}

pub open spec fn strip_segment(g: SegmentV) -> SegmentV
    decreases g,
{
    SegmentV { ident: g.ident, parameters: strip_parameters(g.parameters) }
}

pub open spec fn strip_parameters(p: ParametersV) -> ParametersV
    decreases p,
{
    match p {
        ParametersV::Angle { lifetimes, types, bindings } => ParametersV::Angle {
            lifetimes: Seq::empty(),
            types: strip_tys(types),
            bindings,
        },
        ParametersV::Paren { inputs, output } => ParametersV::Paren {
            inputs: strip_tys(inputs),
            output: match output {
                Some(o) => Some(Box::new(strip_ty(*o))),
                None => None,
            },
        },
    }
}

/// The lifetimes that [`strip_ty`] removes.
pub open spec fn lifetimes_ty(t: TyV) -> Set<Seq<char>>
    decreases t,
{
    match t {
        TyV::Rptr { lifetime, mutable, ty } => match lifetime {
            Some(l) => set![l],
            None => Set::empty(),
        },
        TyV::Path { qself, global, segments } => lifetimes_segments(segments),
        TyV::Other(s) => Set::empty(),
    }
}

pub open spec fn lifetimes_tys(s: Seq<TyV>) -> Set<Seq<char>>
    decreases s,
{
    if s.len() == 0 {
        Set::empty()
    } else {
        lifetimes_tys(s.subrange(0, s.len() - 1)) + lifetimes_ty(s[s.len() - 1])
    }
}

pub open spec fn lifetimes_segments(s: Seq<SegmentV>) -> Set<Seq<char>>
    decreases s,
{
    if s.len() == 0 {
        Set::empty()
    } else {
        lifetimes_segments(s.subrange(0, s.len() - 1)) + lifetimes_parameters(
            s[s.len() - 1].parameters,
        )
    }
}

pub open spec fn lifetimes_parameters(p: ParametersV) -> Set<Seq<char>>
    decreases p,
{
    match p {
        ParametersV::Angle { lifetimes, types, bindings } => lifetimes.to_set() + lifetimes_tys(
            types,
        ),
        ParametersV::Paren { inputs, output } => lifetimes_tys(inputs) + match output {
            Some(o) => lifetimes_ty(*o),
            None => Set::empty(),
        },
    }
}

/// How many references without a lifetime [`coalesce_ty`] meets.
pub open spec fn elided_ty(t: TyV) -> nat
    decreases t,
{
    match t {
        TyV::Rptr { lifetime, mutable, ty } => if lifetime is None {
            1
        } else {
            0
        },
        TyV::Path { qself, global, segments } => elided_segments(segments),
        TyV::Other(s) => 0,
    }
}

pub open spec fn elided_tys(s: Seq<TyV>) -> nat
    decreases s,
{
    if s.len() == 0 {
        0
    } else {
        elided_tys(s.subrange(0, s.len() - 1)) + elided_ty(s[s.len() - 1])
    }
}

pub open spec fn elided_segments(s: Seq<SegmentV>) -> nat
    decreases s,
{
    if s.len() == 0 {
        0
    } else {
        elided_segments(s.subrange(0, s.len() - 1)) + elided_parameters(s[s.len() - 1].parameters)
    }
}

pub open spec fn elided_parameters(p: ParametersV) -> nat
    decreases p,
{
    match p {
        ParametersV::Angle { lifetimes, types, bindings } => elided_tys(types),
        ParametersV::Paren { inputs, output } => elided_tys(inputs) + match output {
            Some(o) => elided_ty(*o),
            None => 0,
        },
    }
}

/// The result of filling in lifetimes: the new type, the pool's unused names
/// afterwards, and the names taken from the pool, in order.
pub type Coalesced<T> = (T, Seq<Seq<char>>, Seq<Seq<char>>);

/// A type with every reference that [`strip_ty`] would touch given a
/// lifetime: the one it has, or else the next name of the pool.
pub open spec fn coalesce_ty(t: TyV, unused: Seq<Seq<char>>, occupied: Set<Seq<char>>) -> Coalesced<
    TyV,
>
    decreases t,
{
    match t {
        TyV::Rptr { lifetime, mutable, ty } => match lifetime {
            Some(l) => (t, unused, Seq::empty()),
            None => {
                let (name, rest) = pop_names(unused, occupied);
                (TyV::Rptr { lifetime: Some(name), mutable, ty }, rest, seq![name])
            },
        },
        TyV::Path { qself, global, segments } => {
            let r = coalesce_segments(segments, unused, occupied);
            (TyV::Path { qself, global, segments: r.0 }, r.1, r.2)
        },
        TyV::Other(s) => (t, unused, Seq::empty()),
    }
}

pub open spec fn coalesce_tys(
    s: Seq<TyV>,
    unused: Seq<Seq<char>>,
    occupied: Set<Seq<char>>,
) -> Coalesced<Seq<TyV>>
    decreases s,
{
    if s.len() == 0 {
        (Seq::empty(), unused, Seq::empty())
    } else {
        let a = coalesce_tys(s.subrange(0, s.len() - 1), unused, occupied);
        let b = coalesce_ty(s[s.len() - 1], a.1, occupied);
        (a.0.push(b.0), b.1, a.2 + b.2)
    }
}

pub open spec fn coalesce_segments(
    s: Seq<SegmentV>,
    unused: Seq<Seq<char>>,
    occupied: Set<Seq<char>>,
) -> Coalesced<Seq<SegmentV>>
    decreases s,
{
    if s.len() == 0 {
        (Seq::empty(), unused, Seq::empty())
    } else {
        let a = coalesce_segments(s.subrange(0, s.len() - 1), unused, occupied);
        let g = s[s.len() - 1];
        let b = coalesce_parameters(g.parameters, a.1, occupied);
        (a.0.push(SegmentV { ident: g.ident, parameters: b.0 }), b.1, a.2 + b.2)
    }
}

pub open spec fn coalesce_parameters(
    p: ParametersV,
    unused: Seq<Seq<char>>,
    occupied: Set<Seq<char>>,
) -> Coalesced<ParametersV>
    decreases p,
{
    match p {
        ParametersV::Angle { lifetimes, types, bindings } => {
            let r = coalesce_tys(types, unused, occupied);
            (ParametersV::Angle { lifetimes, types: r.0, bindings }, r.1, r.2)
        },
        ParametersV::Paren { inputs, output } => {
            let a = coalesce_tys(inputs, unused, occupied);
            match output {
                Some(o) => {
                    let b = coalesce_ty(*o, a.1, occupied);
                    (
                        ParametersV::Paren { inputs: a.0, output: Some(Box::new(b.0)) },
                        b.1,
                        a.2 + b.2,
                    )
                },
                None => (ParametersV::Paren { inputs: a.0, output: None }, a.1, a.2),
            }
        },
    }
}


pub proof fn lemma_strip_tys(s: Seq<TyV>)
    ensures
        strip_tys(s).len() == s.len(),
        forall|i: int| 0 <= i < s.len() ==> #[trigger] strip_tys(s)[i] == strip_ty(s[i]),
    decreases s.len(),
{
    if s.len() > 0 {
        lemma_strip_tys(s.subrange(0, s.len() - 1));
    }
}

pub proof fn lemma_strip_segments(s: Seq<SegmentV>)
    ensures
        strip_segments(s).len() == s.len(),
        forall|i: int| 0 <= i < s.len() ==> #[trigger] strip_segments(s)[i] == strip_segment(s[i]),
    decreases s.len(),
{
    if s.len() > 0 {
        lemma_strip_segments(s.subrange(0, s.len() - 1));
    }
}

/// The set of names held by `acc`.
pub open spec fn name_set(acc: Seq<String>) -> Set<Seq<char>> {
    names_of(acc).to_set()
}

/// Adds `name` to the names of `acc` unless it is there already.
fn add_name(acc: &mut Vec<String>, name: &String)
    requires
        names_of(old(acc)@).no_duplicates(),
    ensures
        name_set(final(acc)@) == name_set(old(acc)@).insert(name@),
        names_of(final(acc)@).no_duplicates(),
{
    let mut i: usize = 0;
    while i < acc.len()
        invariant
            0 <= i <= acc@.len(),
            acc@ == old(acc)@,
            names_of(acc@).no_duplicates(),
            forall|j: int| 0 <= j < i ==> acc@[j]@ != name@,
        decreases acc@.len() - i,
    {
        if acc[i] == *name {
            proof {
                assert(names_of(acc@)[i as int] == name@);
                assert(name_set(acc@) =~= name_set(acc@).insert(name@));
            }
            return;
        }
        i = i + 1;
    }
    let ghost before = acc@;
    acc.push(clone_name(name));
    proof {
        assert(names_of(acc@) =~= names_of(before).push(name@));
        assert(name_set(acc@) =~= name_set(before).insert(name@)) by {
            assert forall|x: Seq<char>| name_set(acc@).contains(x) implies name_set(before).insert(
                name@,
            ).contains(x) by {
                let j = choose|j: int| 0 <= j < names_of(acc@).len() && names_of(acc@)[j] == x;
                if j < before.len() {
                    assert(names_of(before)[j] == x);
                }
            }
            assert forall|x: Seq<char>| name_set(before).insert(name@).contains(x) implies name_set(
                acc@,
            ).contains(x) by {
                if x == name@ {
                    assert(names_of(acc@)[before.len() as int] == x);
                } else {
                    let j = choose|j: int| 0 <= j < names_of(before).len() && names_of(before)[j] == x;
                    assert(names_of(acc@)[j] == x);
                }
            }
        }
    }
}

/// Adds each of `names` to `acc`.
fn add_names(acc: &mut Vec<String>, names: &Vec<String>)
    requires
        names_of(old(acc)@).no_duplicates(),
    ensures
        name_set(final(acc)@) == name_set(old(acc)@) + names_of(names@).to_set(),
        names_of(final(acc)@).no_duplicates(),
{
    let ghost start = name_set(acc@);
    let mut i: usize = 0;
    while i < names.len()
        invariant
            0 <= i <= names@.len(),
            names_of(acc@).no_duplicates(),
            name_set(acc@) == start + names_of(names@.subrange(0, i as int)).to_set(),
        decreases names@.len() - i,
    {
        add_name(acc, &names[i]);
        proof {
            assert(names_of(names@.subrange(0, i + 1)) =~= names_of(names@.subrange(0, i as int)).push(
                names@[i as int]@,
            ));
            names_of(names@.subrange(0, i as int)).lemma_push_to_set_commute(names@[i as int]@);
            assert(names_of(names@.subrange(0, i + 1)).to_set() =~= names_of(
                names@.subrange(0, i as int),
            ).to_set().insert(names@[i as int]@));
        }
        i = i + 1;
    }
    proof {
        assert(names@.subrange(0, i as int) =~= names@);
        assert(name_set(acc@) =~= start + names_of(names@).to_set());
    }
}

fn strip_ty_into(t: &Ty, acc: &mut Vec<String>) -> (r: Ty)
    requires
        names_of(old(acc)@).no_duplicates(),
    ensures
        ty_view(r) == strip_ty(ty_view(*t)),
        name_set(final(acc)@) == name_set(old(acc)@) + lifetimes_ty(ty_view(*t)),
        names_of(final(acc)@).no_duplicates(),
    decreases t,
{
    match t {
        Ty::Rptr { lifetime, mutable, ty } => {
            match lifetime {
                Some(l) => {
                    add_name(acc, l);
                    proof {
                        assert(name_set(acc@) =~= name_set(old(acc)@) + set![l@]);
                    }
                },
                None => {
                    proof {
                        assert(name_set(acc@) =~= name_set(old(acc)@) + Set::empty());
                    }
                },
            }
            Ty::Rptr { lifetime: None, mutable: *mutable, ty: Box::new(clone_ty(ty)) }
        },
        Ty::Path { qself, path } => {
            let segments = strip_segments_into(&path.segments, acc);
            Ty::Path { qself: clone_qself(qself), path: Path { global: path.global, segments } }
        },
        Ty::Other(s) => {
            proof {
                assert(name_set(acc@) =~= name_set(old(acc)@) + Set::empty());
            }
            Ty::Other(clone_name(s))
        },
    }
}

fn strip_tys_into(v: &Vec<Ty>, acc: &mut Vec<String>) -> (r: Vec<Ty>)
    requires
        names_of(old(acc)@).no_duplicates(),
    ensures
        tys_view(r@) == strip_tys(tys_view(v@)),
        name_set(final(acc)@) == name_set(old(acc)@) + lifetimes_tys(tys_view(v@)),
        names_of(final(acc)@).no_duplicates(),
    decreases v,
{
    let ghost sv = tys_view(v@);
    proof {
        lemma_tys_view(v@);
    }
    let mut r: Vec<Ty> = Vec::new();
    let mut i: usize = 0;
    while i < v.len()
        invariant
            0 <= i <= v@.len(),
            sv == tys_view(v@),
            sv.len() == v@.len(),
            forall|j: int| 0 <= j < v@.len() ==> #[trigger] sv[j] == ty_view(v@[j]),
            r@.len() == i,
            forall|j: int| 0 <= j < i ==> ty_view(#[trigger] r@[j]) == strip_ty(sv[j]),
            names_of(acc@).no_duplicates(),
            name_set(acc@) == name_set(old(acc)@) + lifetimes_tys(sv.subrange(0, i as int)),
        decreases v@.len() - i,
    {
        let x = strip_ty_into(&v[i], acc);
        r.push(x);
        proof {
            assert(sv.subrange(0, i + 1).subrange(0, i as int) =~= sv.subrange(0, i as int));
            assert(name_set(acc@) =~= name_set(old(acc)@) + lifetimes_tys(sv.subrange(0, i + 1)));
        }
        i = i + 1;
    }
    proof {
        assert(sv.subrange(0, i as int) =~= sv);
        lemma_tys_view(r@);
        lemma_strip_tys(sv);
        assert(tys_view(r@) =~= strip_tys(sv));
    }
    r
}

fn strip_parameters_into(p: &PathParameters, acc: &mut Vec<String>) -> (r: PathParameters)
    requires
        names_of(old(acc)@).no_duplicates(),
    ensures
        parameters_view(r) == strip_parameters(parameters_view(*p)),
        name_set(final(acc)@) == name_set(old(acc)@) + lifetimes_parameters(parameters_view(*p)),
        names_of(final(acc)@).no_duplicates(),
    decreases p,
{
    match p {
        PathParameters::AngleBracketed(a) => {
            add_names(acc, &a.lifetimes);
            let types = strip_tys_into(&a.types, acc);
            let r = PathParameters::AngleBracketed(
                AngleBracketedParameterData {
                    lifetimes: Vec::new(),
                    types,
                    bindings: clone_bindings(&a.bindings),
                },
            );
            proof {
                assert(names_of(Seq::<String>::empty()) =~= Seq::<Seq<char>>::empty());
                assert(name_set(acc@) =~= name_set(old(acc)@) + lifetimes_parameters(
                    parameters_view(*p),
                ));
            }
            r
        },
        PathParameters::Parenthesized(q) => {
            let inputs = strip_tys_into(&q.inputs, acc);
            let output = match &q.output {
                Some(o) => Some(strip_ty_into(o, acc)),
                None => None,
            };
            proof {
                assert(name_set(acc@) =~= name_set(old(acc)@) + lifetimes_parameters(
                    parameters_view(*p),
                ));
            }
            PathParameters::Parenthesized(ParenthesizedParameterData { inputs, output })
        },
    }
}

fn strip_segments_into(v: &Vec<PathSegment>, acc: &mut Vec<String>) -> (r: Vec<PathSegment>)
    requires
        names_of(old(acc)@).no_duplicates(),
    ensures
        segments_view(r@) == strip_segments(segments_view(v@)),
        name_set(final(acc)@) == name_set(old(acc)@) + lifetimes_segments(segments_view(v@)),
        names_of(final(acc)@).no_duplicates(),
    decreases v,
{
    let ghost sv = segments_view(v@);
    proof {
        lemma_segments_view(v@);
    }
    let mut r: Vec<PathSegment> = Vec::new();
    let mut i: usize = 0;
    while i < v.len()
        invariant
            0 <= i <= v@.len(),
            sv == segments_view(v@),
            sv.len() == v@.len(),
            forall|j: int| 0 <= j < v@.len() ==> #[trigger] sv[j] == segment_view(v@[j]),
            r@.len() == i,
            forall|j: int| 0 <= j < i ==> segment_view(#[trigger] r@[j]) == strip_segment(sv[j]),
            names_of(acc@).no_duplicates(),
            name_set(acc@) == name_set(old(acc)@) + lifetimes_segments(sv.subrange(0, i as int)),
        decreases v@.len() - i,
    {
        let parameters = strip_parameters_into(&v[i].parameters, acc);
        r.push(PathSegment { ident: clone_name(&v[i].ident), parameters });
        proof {
            assert(sv.subrange(0, i + 1).subrange(0, i as int) =~= sv.subrange(0, i as int));
            assert(name_set(acc@) =~= name_set(old(acc)@) + lifetimes_segments(
                sv.subrange(0, i + 1),
            ));
        }
        i = i + 1;
    }
    proof {
        assert(sv.subrange(0, i as int) =~= sv);
        lemma_segments_view(r@);
        lemma_strip_segments(sv);
        assert(segments_view(r@) =~= strip_segments(sv));
    }
    r
}

impl Ty {
    /// This type with the lifetime of its outermost reference removed.
    pub fn strip_lifetime(&self) -> (r: Ty)
        ensures
            ty_view(r) == strip_outer(ty_view(*self)),
    {
        match self {
            Ty::Rptr { lifetime, mutable, ty } => Ty::Rptr {
                lifetime: None,
                mutable: *mutable,
                ty: Box::new(clone_ty(ty)),
            },
            _ => clone_ty(self),
        }
    }

    /// This type with the lifetimes of its references and path parameters
    /// removed, and the distinct names of the lifetimes removed.
    pub fn strip_lifetime_recursive(&self) -> (r: (Ty, Vec<String>))
        ensures
            ty_view(r.0) == strip_ty(ty_view(*self)),
            name_set(r.1@) == lifetimes_ty(ty_view(*self)),
            names_of(r.1@).no_duplicates(),
    {
        let mut stripped: Vec<String> = Vec::new();
        proof {
            assert(names_of(stripped@) =~= Seq::<Seq<char>>::empty());
        }
        let ty = strip_ty_into(self, &mut stripped);
        proof {
            assert(name_set(Seq::<String>::empty()) =~= Set::empty());
            assert(name_set(stripped@) =~= lifetimes_ty(ty_view(*self)));
        }
        (ty, stripped)
    }
}


/// Filling in lifetimes for at most `j` items of a sequence needs no more
/// names than filling them in for all of it.
pub proof fn lemma_elided_tys_prefix(s: Seq<TyV>, j: int)
    requires
        0 <= j <= s.len(),
    ensures
        elided_tys(s.subrange(0, j)) <= elided_tys(s),
    decreases s.len(),
{
    if j < s.len() {
        let s1 = s.subrange(0, s.len() - 1);
        lemma_elided_tys_prefix(s1, j);
        assert(s1.subrange(0, j) =~= s.subrange(0, j));
    } else {
        assert(s.subrange(0, j) =~= s);
    }
}

pub proof fn lemma_elided_segments_prefix(s: Seq<SegmentV>, j: int)
    requires
        0 <= j <= s.len(),
    ensures
        elided_segments(s.subrange(0, j)) <= elided_segments(s),
    decreases s.len(),
{
    if j < s.len() {
        let s1 = s.subrange(0, s.len() - 1);
        lemma_elided_segments_prefix(s1, j);
        assert(s1.subrange(0, j) =~= s.subrange(0, j));
    } else {
        assert(s.subrange(0, j) =~= s);
    }
}

/// How a pool changes when it fills in lifetimes: `unused` is what
/// the fill-in leaves unused, `taken` the names it takes, and `elided` how
/// many it takes.
pub open spec fn pool_step<'a>(
    before: LifetimePool<'a>,
    after: LifetimePool<'a>,
    unused: Seq<Seq<char>>,
    taken: Seq<Seq<char>>,
    elided: nat,
) -> bool {
    &&& after.unused_names() == unused
    &&& after.used_names() == before.used_names() + taken
    &&& after.occupied_names() == before.occupied_names()
    &&& after.free_count() + elided == before.free_count()
    &&& before.wf() ==> after.wf()
}

pub(crate) fn coalesce_tys_from<'a>(v: &Vec<Ty>, pool: &mut LifetimePool<'a>) -> (r: Vec<Ty>)
    requires
        elided_tys(tys_view(v@)) <= old(pool).free_count(),
    ensures
        ({
            let c = coalesce_tys(
                tys_view(v@),
                old(pool).unused_names(),
                old(pool).occupied_names(),
            );
            &&& tys_view(r@) == c.0
            &&& pool_step(*old(pool), *final(pool), c.1, c.2, elided_tys(tys_view(v@)))
        }),
    decreases v,
{
    let ghost sv = tys_view(v@);
    let ghost u0 = pool.unused_names();
    let ghost occ = pool.occupied_names();
    let ghost p0 = *pool;
    proof {
        lemma_tys_view(v@);
        assert(sv.subrange(0, 0) =~= Seq::<TyV>::empty());
        assert(pool.used_names() + Seq::<Seq<char>>::empty() =~= pool.used_names());
    }
    let mut r: Vec<Ty> = Vec::new();
    let mut i: usize = 0;
    while i < v.len()
        invariant
            0 <= i <= v@.len(),
            sv == tys_view(v@),
            sv.len() == v@.len(),
            forall|j: int| 0 <= j < v@.len() ==> #[trigger] sv[j] == ty_view(v@[j]),
            elided_tys(sv) <= p0.free_count(),
            r@.len() == i,
            u0 == p0.unused_names(),
            occ == p0.occupied_names(),
            ({
                let c = coalesce_tys(sv.subrange(0, i as int), u0, occ);
                &&& tys_view(r@) == c.0
                &&& pool_step(p0, *pool, c.1, c.2, elided_tys(sv.subrange(0, i as int)))
            }),
        decreases v@.len() - i,
    {
        proof {
            lemma_elided_tys_prefix(sv, i + 1);
            assert(sv.subrange(0, i + 1).subrange(0, i as int) =~= sv.subrange(0, i as int));
        }
        let ghost r0 = r@;
        let ghost pre = *pool;
        let x = v[i].coalesce_lifetime_recursive(pool);
        r.push(x);
        proof {
            let a = coalesce_tys(sv.subrange(0, i as int), u0, occ);
            let b = coalesce_ty(sv[i as int], a.1, occ);
            assert(r@.subrange(0, i as int) =~= r0);
            assert(p0.used_names() + a.2 + b.2 =~= p0.used_names() + (a.2 + b.2));
        }
        i = i + 1;
    }
    proof {
        assert(sv.subrange(0, i as int) =~= sv);
    }
    r
}

fn coalesce_parameters_from<'a>(p: &PathParameters, pool: &mut LifetimePool<'a>) -> (r: PathParameters)
    requires
        elided_parameters(parameters_view(*p)) <= old(pool).free_count(),
    ensures
        ({
            let c = coalesce_parameters(
                parameters_view(*p),
                old(pool).unused_names(),
                old(pool).occupied_names(),
            );
            &&& parameters_view(r) == c.0
            &&& pool_step(*old(pool), *final(pool), c.1, c.2, elided_parameters(parameters_view(*p)))
        }),
    decreases p,
{
    let ghost p0 = *pool;
    match p {
        PathParameters::AngleBracketed(a) => {
            let types = coalesce_tys_from(&a.types, pool);
            PathParameters::AngleBracketed(
                AngleBracketedParameterData {
                    lifetimes: clone_names(&a.lifetimes),
                    types,
                    bindings: clone_bindings(&a.bindings),
                },
            )
        },
        PathParameters::Parenthesized(q) => {
            let inputs = coalesce_tys_from(&q.inputs, pool);
            let ghost p1 = *pool;
            let output = match &q.output {
                Some(o) => {
                    let x = o.coalesce_lifetime_recursive(pool);
                    proof {
                        let a = coalesce_tys(tys_view(q.inputs@), p0.unused_names(), p0.occupied_names());
                        let b = coalesce_ty(ty_view(*o), a.1, p0.occupied_names());
                        assert(p0.used_names() + a.2 + b.2 =~= p0.used_names() + (a.2 + b.2));
                    }
                    Some(x)
                },
                None => None,
            };
            PathParameters::Parenthesized(ParenthesizedParameterData { inputs, output })
        },
    }
}

fn coalesce_segments_from<'a>(v: &Vec<PathSegment>, pool: &mut LifetimePool<'a>) -> (r: Vec<PathSegment>)
    requires
        elided_segments(segments_view(v@)) <= old(pool).free_count(),
    ensures
        ({
            let c = coalesce_segments(
                segments_view(v@),
                old(pool).unused_names(),
                old(pool).occupied_names(),
            );
            &&& segments_view(r@) == c.0
            &&& pool_step(*old(pool), *final(pool), c.1, c.2, elided_segments(segments_view(v@)))
        }),
    decreases v,
{
    let ghost sv = segments_view(v@);
    let ghost u0 = pool.unused_names();
    let ghost occ = pool.occupied_names();
    let ghost p0 = *pool;
    proof {
        lemma_segments_view(v@);
        assert(sv.subrange(0, 0) =~= Seq::<SegmentV>::empty());
        assert(pool.used_names() + Seq::<Seq<char>>::empty() =~= pool.used_names());
    }
    let mut r: Vec<PathSegment> = Vec::new();
    let mut i: usize = 0;
    while i < v.len()
        invariant
            0 <= i <= v@.len(),
            sv == segments_view(v@),
            sv.len() == v@.len(),
            forall|j: int| 0 <= j < v@.len() ==> #[trigger] sv[j] == segment_view(v@[j]),
            elided_segments(sv) <= p0.free_count(),
            r@.len() == i,
            u0 == p0.unused_names(),
            occ == p0.occupied_names(),
            ({
                let c = coalesce_segments(sv.subrange(0, i as int), u0, occ);
                &&& segments_view(r@) == c.0
                &&& pool_step(p0, *pool, c.1, c.2, elided_segments(sv.subrange(0, i as int)))
            }),
        decreases v@.len() - i,
    {
        proof {
            lemma_elided_segments_prefix(sv, i + 1);
            assert(sv.subrange(0, i + 1).subrange(0, i as int) =~= sv.subrange(0, i as int));
        }
        let ghost r0 = r@;
        let parameters = coalesce_parameters_from(&v[i].parameters, pool);
        r.push(PathSegment { ident: clone_name(&v[i].ident), parameters });
        proof {
            let a = coalesce_segments(sv.subrange(0, i as int), u0, occ);
            let b = coalesce_parameters(sv[i as int].parameters, a.1, occ);
            assert(r@.subrange(0, i as int) =~= r0);
            assert(sv[i as int].parameters == parameters_view(v@[i as int].parameters));
            assert(segment_view(r@[i as int]) == SegmentV { ident: sv[i as int].ident, parameters: b.0 });
            assert(segments_view(r@) == segments_view(r0).push(segment_view(r@[i as int])));
            assert(segments_view(r@) == coalesce_segments(sv.subrange(0, i + 1), u0, occ).0);
            assert(pool.unused_names() == coalesce_segments(sv.subrange(0, i + 1), u0, occ).1);
            assert(elided_segments(sv.subrange(0, i + 1)) == elided_segments(sv.subrange(0, i as int)) + elided_parameters(sv[i as int].parameters));
            assert(p0.used_names() + a.2 + b.2 =~= p0.used_names() + (a.2 + b.2));
        }
        i = i + 1;
    }
    proof {
        assert(sv.subrange(0, i as int) =~= sv);
    }
    r
}

impl Ty {
    /// This type with a lifetime given to each reference that
    /// [`Ty::strip_lifetime_recursive`] would strip and that has none: the
    /// next name of `lifetimes`, in the order the references are written.
    pub fn coalesce_lifetime_recursive<'a>(&self, lifetimes: &mut LifetimePool<'a>) -> (r: Ty)
        requires
            elided_ty(ty_view(*self)) <= old(lifetimes).free_count(),
        ensures
            ({
                let c = coalesce_ty(
                    ty_view(*self),
                    old(lifetimes).unused_names(),
                    old(lifetimes).occupied_names(),
                );
                &&& ty_view(r) == c.0
                &&& pool_step(*old(lifetimes), *final(lifetimes), c.1, c.2, elided_ty(ty_view(*self)))
            }),
        decreases self,
    {
        match self {
            Ty::Rptr { lifetime, mutable, ty } => {
                let l = match lifetime {
                    Some(l) => {
                        proof {
                            assert(lifetimes.used_names() + Seq::<Seq<char>>::empty() =~= lifetimes.used_names());
                        }
                        clone_name(l)
                    },
                    None => {
                        let ghost before = lifetimes.used_names();
                        let l = lifetimes.pop();
                        proof {
                            assert(before.push(l@) =~= before + seq![l@]);
                        }
                        l
                    },
                };
                Ty::Rptr { lifetime: Some(l), mutable: *mutable, ty: Box::new(clone_ty(ty)) }
            },
            Ty::Path { qself, path } => {
                let segments = coalesce_segments_from(&path.segments, lifetimes);
                Ty::Path { qself: clone_qself(qself), path: Path { global: path.global, segments } }
            },
            Ty::Other(s) => {
                proof {
                    assert(lifetimes.used_names() + Seq::<Seq<char>>::empty() =~= lifetimes.used_names());
                }
                Ty::Other(clone_name(s))
            },
        }
    }
}


proof fn lemma_coalesce_ty(t: TyV, u: Seq<Seq<char>>, occ: Set<Seq<char>>)
    ensures
        ({
            let c = coalesce_ty(t, u, occ);
            &&& strip_ty(c.0) == strip_ty(t)
            &&& elided_ty(c.0) == 0
            &&& c.2.len() == elided_ty(t)
            &&& lifetimes_ty(c.0) == lifetimes_ty(t) + c.2.to_set()
            &&& elided_ty(t) == 0 ==> c == (t, u, Seq::<Seq<char>>::empty())
        }),
    decreases t,
{
    match t {
        TyV::Rptr { lifetime, mutable, ty } => {
            let c = coalesce_ty(t, u, occ);
            assert(Seq::<Seq<char>>::empty().to_set() =~= Set::empty());
            if lifetime is None {
                assert(c.2.to_set() =~= set![c.2[0]]);
                assert(lifetimes_ty(c.0) =~= lifetimes_ty(t) + c.2.to_set());
            } else {
                assert(lifetimes_ty(c.0) =~= lifetimes_ty(t) + c.2.to_set());
            }
        },
        TyV::Path { qself, global, segments } => {
            lemma_coalesce_segments(segments, u, occ);
        },
        TyV::Other(s) => {
            assert(Seq::<Seq<char>>::empty().to_set() =~= Set::empty());
            assert(lifetimes_ty(t) =~= lifetimes_ty(t) + Set::empty());
        },
    }
}

proof fn lemma_coalesce_tys(s: Seq<TyV>, u: Seq<Seq<char>>, occ: Set<Seq<char>>)
    ensures
        ({
            let c = coalesce_tys(s, u, occ);
            &&& c.0.len() == s.len()
            &&& strip_tys(c.0) == strip_tys(s)
            &&& elided_tys(c.0) == 0
            &&& c.2.len() == elided_tys(s)
            &&& lifetimes_tys(c.0) == lifetimes_tys(s) + c.2.to_set()
            &&& elided_tys(s) == 0 ==> c == (s, u, Seq::<Seq<char>>::empty())
        }),
    decreases s,
{
    let c = coalesce_tys(s, u, occ);
    if s.len() == 0 {
        assert(Seq::<Seq<char>>::empty().to_set() =~= Set::empty());
        assert(lifetimes_tys(c.0) =~= lifetimes_tys(s) + c.2.to_set());
        assert(c.0 =~= s);
    } else {
        let init = s.subrange(0, s.len() - 1);
        let a = coalesce_tys(init, u, occ);
        let b = coalesce_ty(s[s.len() - 1], a.1, occ);
        lemma_coalesce_tys(init, u, occ);
        lemma_coalesce_ty(s[s.len() - 1], a.1, occ);
        assert(c.0.subrange(0, c.0.len() - 1) =~= a.0);
        vstd::seq_lib::seq_to_set_distributes_over_add(a.2, b.2);
        assert(strip_tys(c.0) =~= strip_tys(s));
        assert(lifetimes_tys(c.0) =~= lifetimes_tys(s) + c.2.to_set());
        if elided_tys(s) == 0 {
            assert(a.2 + b.2 =~= Seq::<Seq<char>>::empty());
            assert(c.0 =~= s);
        }
    }
}

proof fn lemma_coalesce_segments(s: Seq<SegmentV>, u: Seq<Seq<char>>, occ: Set<Seq<char>>)
    ensures
        ({
            let c = coalesce_segments(s, u, occ);
            &&& c.0.len() == s.len()
            &&& strip_segments(c.0) == strip_segments(s)
            &&& elided_segments(c.0) == 0
            &&& c.2.len() == elided_segments(s)
            &&& lifetimes_segments(c.0) == lifetimes_segments(s) + c.2.to_set()
            &&& elided_segments(s) == 0 ==> c == (s, u, Seq::<Seq<char>>::empty())
        }),
    decreases s,
{
    let c = coalesce_segments(s, u, occ);
    if s.len() == 0 {
        assert(Seq::<Seq<char>>::empty().to_set() =~= Set::empty());
        assert(lifetimes_segments(c.0) =~= lifetimes_segments(s) + c.2.to_set());
        assert(c.0 =~= s);
    } else {
        let init = s.subrange(0, s.len() - 1);
        let g = s[s.len() - 1];
        let a = coalesce_segments(init, u, occ);
        let b = coalesce_parameters(g.parameters, a.1, occ);
        lemma_coalesce_segments(init, u, occ);
        lemma_coalesce_parameters(g.parameters, a.1, occ);
        assert(c.0.subrange(0, c.0.len() - 1) =~= a.0);
        vstd::seq_lib::seq_to_set_distributes_over_add(a.2, b.2);
        let last = c.0[c.0.len() - 1];
        assert(last == SegmentV { ident: g.ident, parameters: b.0 });
        assert(strip_segment(last) == strip_segment(g));
        assert(strip_segments(c.0) == strip_segments(a.0).push(strip_segment(last)));
        assert(strip_segments(c.0) =~= strip_segments(s));
        assert(lifetimes_segments(c.0) =~= lifetimes_segments(s) + c.2.to_set());
        if elided_segments(s) == 0 {
            assert(a.2 + b.2 =~= Seq::<Seq<char>>::empty());
            assert(c.0 =~= s);
        }
    }
}

proof fn lemma_coalesce_parameters(p: ParametersV, u: Seq<Seq<char>>, occ: Set<Seq<char>>)
    ensures
        ({
            let c = coalesce_parameters(p, u, occ);
            &&& strip_parameters(c.0) == strip_parameters(p)
            &&& elided_parameters(c.0) == 0
            &&& c.2.len() == elided_parameters(p)
            &&& lifetimes_parameters(c.0) == lifetimes_parameters(p) + c.2.to_set()
            &&& elided_parameters(p) == 0 ==> c == (p, u, Seq::<Seq<char>>::empty())
        }),
    decreases p,
{
    let c = coalesce_parameters(p, u, occ);
    match p {
        ParametersV::Angle { lifetimes, types, bindings } => {
            lemma_coalesce_tys(types, u, occ);
            assert(lifetimes_parameters(c.0) =~= lifetimes_parameters(p) + c.2.to_set());
        },
        ParametersV::Paren { inputs, output } => {
            let a = coalesce_tys(inputs, u, occ);
            lemma_coalesce_tys(inputs, u, occ);
            match output {
                Some(o) => {
                    let b = coalesce_ty(*o, a.1, occ);
                    lemma_coalesce_ty(*o, a.1, occ);
                    vstd::seq_lib::seq_to_set_distributes_over_add(a.2, b.2);
                    assert(lifetimes_parameters(c.0) =~= lifetimes_parameters(p) + c.2.to_set());
                    if elided_parameters(p) == 0 {
                        assert(a.2 + b.2 =~= Seq::<Seq<char>>::empty());
                    }
                },
                None => {
                    assert(lifetimes_parameters(c.0) =~= lifetimes_parameters(p) + c.2.to_set());
                },
            }
        },
    }
}

proof fn lemma_strip_ty_twice(t: TyV)
    ensures
        strip_ty(strip_ty(t)) == strip_ty(t),
        lifetimes_ty(strip_ty(t)) == Set::<Seq<char>>::empty(),
    decreases t,
{
    match t {
        TyV::Path { qself, global, segments } => lemma_strip_segments_twice(segments),
        _ => {
            assert(lifetimes_ty(strip_ty(t)) =~= Set::<Seq<char>>::empty());
        },
    }
}

proof fn lemma_strip_tys_twice(s: Seq<TyV>)
    ensures
        strip_tys(s).len() == s.len(),
        strip_tys(strip_tys(s)) == strip_tys(s),
        lifetimes_tys(strip_tys(s)) == Set::<Seq<char>>::empty(),
    decreases s,
{
    if s.len() == 0 {
        assert(strip_tys(strip_tys(s)) =~= strip_tys(s));
    } else {
        let init = s.subrange(0, s.len() - 1);
        lemma_strip_tys_twice(init);
        lemma_strip_ty_twice(s[s.len() - 1]);
        let r = strip_tys(s);
        assert(r.subrange(0, r.len() - 1) =~= strip_tys(init));
        assert(strip_tys(r) =~= r);
        assert(lifetimes_tys(r) =~= Set::<Seq<char>>::empty());
    }
}

proof fn lemma_strip_segments_twice(s: Seq<SegmentV>)
    ensures
        strip_segments(s).len() == s.len(),
        strip_segments(strip_segments(s)) == strip_segments(s),
        lifetimes_segments(strip_segments(s)) == Set::<Seq<char>>::empty(),
    decreases s,
{
    if s.len() == 0 {
        assert(strip_segments(strip_segments(s)) =~= strip_segments(s));
    } else {
        let init = s.subrange(0, s.len() - 1);
        lemma_strip_segments_twice(init);
        lemma_strip_parameters_twice(s[s.len() - 1].parameters);
        let r = strip_segments(s);
        let g = s[s.len() - 1];
        assert(r.subrange(0, r.len() - 1) =~= strip_segments(init));
        assert(r[r.len() - 1] == strip_segment(g));
        assert(strip_segment(strip_segment(g)) == strip_segment(g));
        assert(strip_segments(r) == strip_segments(strip_segments(init)).push(strip_segment(strip_segment(g))));
        assert(strip_segments(r) =~= r);
        assert(lifetimes_segments(r) =~= Set::<Seq<char>>::empty());
    }
}

proof fn lemma_strip_parameters_twice(p: ParametersV)
    ensures
        strip_parameters(strip_parameters(p)) == strip_parameters(p),
        lifetimes_parameters(strip_parameters(p)) == Set::<Seq<char>>::empty(),
    decreases p,
{
    match p {
        ParametersV::Angle { lifetimes, types, bindings } => {
            lemma_strip_tys_twice(types);
            assert(Seq::<Seq<char>>::empty().to_set() =~= Set::<Seq<char>>::empty());
            assert(lifetimes_parameters(strip_parameters(p)) =~= Set::<Seq<char>>::empty());
        },
        ParametersV::Paren { inputs, output } => {
            lemma_strip_tys_twice(inputs);
            match output {
                Some(o) => lemma_strip_ty_twice(*o),
                None => {},
            }
            assert(lifetimes_parameters(strip_parameters(p)) =~= Set::<Seq<char>>::empty());
        },
    }
}

/// Stripping lifetimes twice strips nothing more: the stripped type has no
/// lifetime left to strip.
pub proof fn law_strip_idempotent(t: TyV)
    ensures
        strip_ty(strip_ty(t)) == strip_ty(t),
        lifetimes_ty(strip_ty(t)) == Set::<Seq<char>>::empty(),
{
    lemma_strip_ty_twice(t);
}

/// Whether `a` and `b` are the same type but for the lifetimes that stripping
/// removes: that of a reference at the top, and those written in the
/// angle-bracketed parameters of its path, at any depth of path parameters.
/// Everything else (mutability, referent, qualified self, path, identifiers,
/// bindings, other types) is the same.
pub open spec fn same_but_lifetimes(a: TyV, b: TyV) -> bool
    decreases a,
{
    match a {
        TyV::Rptr { lifetime: _, mutable: m1, ty: t1 } => match b {
            TyV::Rptr { lifetime: _, mutable: m2, ty: t2 } => m1 == m2 && t1 == t2,
            _ => false,
        },
        TyV::Path { qself: q1, global: g1, segments: s1 } => match b {
            TyV::Path { qself: q2, global: g2, segments: s2 } => q1 == q2 && g1 == g2
                && same_segments_but_lifetimes(s1, s2),
            _ => false,
        },
        TyV::Other(x) => b == TyV::Other(x),
    }
}

pub open spec fn same_tys_but_lifetimes(a: Seq<TyV>, b: Seq<TyV>) -> bool
    decreases a,
{
    if a.len() != b.len() {
        false
    } else if a.len() == 0 {
        true
    } else {
        same_tys_but_lifetimes(a.subrange(0, a.len() - 1), b.subrange(0, b.len() - 1))
            && same_but_lifetimes(a[a.len() - 1], b[b.len() - 1])
    }
}

pub open spec fn same_segments_but_lifetimes(a: Seq<SegmentV>, b: Seq<SegmentV>) -> bool
    decreases a,
{
    if a.len() != b.len() {
        false
    } else if a.len() == 0 {
        true
    } else {
        same_segments_but_lifetimes(a.subrange(0, a.len() - 1), b.subrange(0, b.len() - 1))
            && a[a.len() - 1].ident == b[b.len() - 1].ident
            && same_parameters_but_lifetimes(a[a.len() - 1].parameters, b[b.len() - 1].parameters)
    }
}

pub open spec fn same_parameters_but_lifetimes(a: ParametersV, b: ParametersV) -> bool
    decreases a,
{
    match a {
        ParametersV::Angle { lifetimes: _, types: t1, bindings: b1 } => match b {
            ParametersV::Angle { lifetimes: _, types: t2, bindings: b2 } => same_tys_but_lifetimes(t1, t2)
                && b1 == b2,
            _ => false,
        },
        ParametersV::Paren { inputs: i1, output: o1 } => match b {
            ParametersV::Paren { inputs: i2, output: o2 } => same_tys_but_lifetimes(i1, i2) && match o1 {
                Some(x) => o2 matches Some(y) && same_but_lifetimes(*x, *y),
                None => o2 is None,
            },
            _ => false,
        },
    }
}

proof fn lemma_strip_same_ty(t: TyV)
    ensures
        same_but_lifetimes(strip_ty(t), t),
    decreases t,
{
    match t {
        TyV::Path { qself, global, segments } => lemma_strip_same_segments(segments),
        _ => {},
    }
}

proof fn lemma_strip_same_tys(s: Seq<TyV>)
    ensures
        same_tys_but_lifetimes(strip_tys(s), s),
    decreases s,
{
    lemma_strip_tys_twice(s);
    if s.len() > 0 {
        let init = s.subrange(0, s.len() - 1);
        lemma_strip_same_tys(init);
        lemma_strip_same_ty(s[s.len() - 1]);
        let r = strip_tys(s);
        assert(r.subrange(0, r.len() - 1) =~= strip_tys(init));
    }
}

proof fn lemma_strip_same_segments(s: Seq<SegmentV>)
    ensures
        same_segments_but_lifetimes(strip_segments(s), s),
    decreases s,
{
    lemma_strip_segments_twice(s);
    if s.len() > 0 {
        let init = s.subrange(0, s.len() - 1);
        lemma_strip_same_segments(init);
        lemma_strip_same_parameters(s[s.len() - 1].parameters);
        let r = strip_segments(s);
        assert(r.subrange(0, r.len() - 1) =~= strip_segments(init));
        assert(r[r.len() - 1] == strip_segment(s[s.len() - 1]));
    }
}

proof fn lemma_strip_same_parameters(p: ParametersV)
    ensures
        same_parameters_but_lifetimes(strip_parameters(p), p),
    decreases p,
{
    match p {
        ParametersV::Angle { lifetimes, types, bindings } => lemma_strip_same_tys(types),
        ParametersV::Paren { inputs, output } => {
            lemma_strip_same_tys(inputs);
            match output {
                Some(o) => lemma_strip_same_ty(*o),
                None => {},
            }
        },
    }
}

/// Stripping changes a type only in its lifetimes: the result is the same
/// type but for the lifetimes that stripping removes, and has none of them
/// left. In particular a reference keeps its mutability and its referent.
pub proof fn law_strip_changes_only_lifetimes(t: TyV)
    ensures
        same_but_lifetimes(strip_ty(t), t),
        lifetimes_ty(strip_ty(t)) == Set::<Seq<char>>::empty(),
        t matches TyV::Rptr { lifetime, mutable, ty } ==> strip_ty(t) == (TyV::Rptr {
            lifetime: None,
            mutable,
            ty,
        }),
{
    lemma_strip_same_ty(t);
    lemma_strip_ty_twice(t);
}

/// Filling in lifetimes changes a type only in its lifetimes: stripping the
/// lifetimes of the result gives what stripping them from the type gives.
pub proof fn law_coalesce_then_strip(t: TyV, unused: Seq<Seq<char>>, occupied: Set<Seq<char>>)
    ensures
        strip_ty(coalesce_ty(t, unused, occupied).0) == strip_ty(t),
{
    lemma_coalesce_ty(t, unused, occupied);
}

/// After filling in, no reference is left without a lifetime; one name is
/// taken per reference that had none; the lifetimes of the result are those
/// the type had and the names taken.
pub proof fn law_coalesce_complete(t: TyV, unused: Seq<Seq<char>>, occupied: Set<Seq<char>>)
    ensures
        elided_ty(coalesce_ty(t, unused, occupied).0) == 0,
        coalesce_ty(t, unused, occupied).2.len() == elided_ty(t),
        lifetimes_ty(coalesce_ty(t, unused, occupied).0) == lifetimes_ty(t) + coalesce_ty(
            t,
            unused,
            occupied,
        ).2.to_set(),
{
    lemma_coalesce_ty(t, unused, occupied);
}

/// A type with no reference left without a lifetime is left as it is by
/// filling in, whatever names are on offer, and takes no name.
pub proof fn law_coalesce_complete_type_unchanged(t: TyV, unused: Seq<Seq<char>>, occupied: Set<Seq<char>>)
    requires
        elided_ty(t) == 0,
    ensures
        coalesce_ty(t, unused, occupied) == (t, unused, Seq::<Seq<char>>::empty()),
{
    lemma_coalesce_ty(t, unused, occupied);
}

/// Filling in lifetimes a second time changes nothing and takes no name.
pub proof fn law_coalesce_idempotent(t: TyV, unused: Seq<Seq<char>>, occupied: Set<Seq<char>>)
    ensures
        ({
            let c = coalesce_ty(t, unused, occupied);
            coalesce_ty(c.0, c.1, occupied) == (c.0, c.1, Seq::<Seq<char>>::empty())
        }),
{
    let c = coalesce_ty(t, unused, occupied);
    lemma_coalesce_ty(t, unused, occupied);
    lemma_coalesce_ty(c.0, c.1, occupied);
}


/// What is left of `budget` after `needed`, if it is enough.
pub open spec fn budget_after(budget: nat, needed: nat) -> Option<usize> {
    if needed <= budget {
        Some((budget - needed) as usize)
    } else {
        None
    }
}

pub(crate) fn ty_budget(t: &Ty, budget: usize) -> (r: Option<usize>)
    ensures
        r == budget_after(budget as nat, elided_ty(ty_view(*t))),
    decreases t,
{
    match t {
        Ty::Rptr { lifetime, .. } => {
            if lifetime.is_some() {
                Some(budget)
            } else if budget >= 1 {
                Some(budget - 1)
            } else {
                None
            }
        },
        Ty::Path { path, .. } => segments_budget(&path.segments, budget),
        Ty::Other(_) => Some(budget),
    }
}

pub(crate) fn tys_budget(v: &Vec<Ty>, budget: usize) -> (r: Option<usize>)
    ensures
        r == budget_after(budget as nat, elided_tys(tys_view(v@))),
    decreases v,
{
    let ghost sv = tys_view(v@);
    proof {
        lemma_tys_view(v@);
        assert(sv.subrange(0, 0) =~= Seq::<TyV>::empty());
    }
    let mut left = budget;
    let mut i: usize = 0;
    while i < v.len()
        invariant
            0 <= i <= v@.len(),
            sv == tys_view(v@),
            sv.len() == v@.len(),
            forall|j: int| 0 <= j < v@.len() ==> #[trigger] sv[j] == ty_view(v@[j]),
            elided_tys(sv.subrange(0, i as int)) <= budget,
            left == budget - elided_tys(sv.subrange(0, i as int)),
        decreases v@.len() - i,
    {
        proof {
            assert(sv.subrange(0, i + 1).subrange(0, i as int) =~= sv.subrange(0, i as int));
        }
        match ty_budget(&v[i], left) {
            Some(l) => {
                left = l;
            },
            None => {
                proof {
                    lemma_elided_tys_prefix(sv, i + 1);
                }
                return None;
            },
        }
        i = i + 1;
    }
    proof {
        assert(sv.subrange(0, i as int) =~= sv);
    }
    Some(left)
}

pub(crate) fn parameters_budget(p: &PathParameters, budget: usize) -> (r: Option<usize>)
    ensures
        r == budget_after(budget as nat, elided_parameters(parameters_view(*p))),
    decreases p,
{
    match p {
        PathParameters::AngleBracketed(a) => tys_budget(&a.types, budget),
        PathParameters::Parenthesized(q) => {
            match tys_budget(&q.inputs, budget) {
                Some(left) => match &q.output {
                    Some(o) => ty_budget(o, left),
                    None => Some(left),
                },
                None => None,
            }
        },
    }
}

pub(crate) fn segments_budget(v: &Vec<PathSegment>, budget: usize) -> (r: Option<usize>)
    ensures
        r == budget_after(budget as nat, elided_segments(segments_view(v@))),
    decreases v,
{
    let ghost sv = segments_view(v@);
    proof {
        lemma_segments_view(v@);
        assert(sv.subrange(0, 0) =~= Seq::<SegmentV>::empty());
    }
    let mut left = budget;
    let mut i: usize = 0;
    while i < v.len()
        invariant
            0 <= i <= v@.len(),
            sv == segments_view(v@),
            sv.len() == v@.len(),
            forall|j: int| 0 <= j < v@.len() ==> #[trigger] sv[j] == segment_view(v@[j]),
            elided_segments(sv.subrange(0, i as int)) <= budget,
            left == budget - elided_segments(sv.subrange(0, i as int)),
        decreases v@.len() - i,
    {
        proof {
            assert(sv.subrange(0, i + 1).subrange(0, i as int) =~= sv.subrange(0, i as int));
        }
        match parameters_budget(&v[i].parameters, left) {
            Some(l) => {
                left = l;
            },
            None => {
                proof {
                    lemma_elided_segments_prefix(sv, i + 1);
                }
                return None;
            },
        }
        i = i + 1;
    }
    proof {
        assert(sv.subrange(0, i as int) =~= sv);
    }
    Some(left)
}

} // verus!
