//! The parts of a handler's syntax that the code generator reads, as plain
//! data, with their mathematical views.
use vstd::prelude::*;

use crate::lifetime_pool::names_of;

verus! {

/// A type as it is written in a handler's signature.
#[derive(Debug, PartialEq, Eq)]
pub enum Ty {
    /// A reference `&'a T` or `&'a mut T`; the lifetime may be left out.
    Rptr { lifetime: Option<String>, mutable: bool, ty: Box<Ty> },
    /// A path type `a::b::C<..>`, possibly qualified as in `<Q as T>::C`.
    Path { qself: Option<QSelf>, path: Path },
    /// Any other type (tuple, slice, array, pointer, function, ...), by its source text.
    Other(String),
}

/// The `<Q as T>` of a qualified path: the self type and the index of the
/// segment that it qualifies.
#[derive(Debug, PartialEq, Eq)]
pub struct QSelf {
    pub ty: Box<Ty>,
    pub position: usize,
}

/// A path `a::b::C`; `global` tells whether it starts with `::`.
#[derive(Debug, PartialEq, Eq)]
pub struct Path {
    pub global: bool,
    pub segments: Vec<PathSegment>,
}

/// One segment of a path, with its parameters.
#[derive(Debug, PartialEq, Eq)]
pub struct PathSegment {
    pub ident: String,
    pub parameters: PathParameters,
}

/// The parameters of a path segment: `<'a, T, A = U>` or `(A, B) -> C`.
#[derive(Debug, PartialEq, Eq)]
pub enum PathParameters {
    AngleBracketed(AngleBracketedParameterData),
    Parenthesized(ParenthesizedParameterData),
}

/// The `<'a, T, A = U>` of a path segment.
#[derive(Debug, PartialEq, Eq)]
pub struct AngleBracketedParameterData {
    pub lifetimes: Vec<String>,
    pub types: Vec<Ty>,
    pub bindings: Vec<TypeBinding>,
}

/// An associated type binding `A = U`.
#[derive(Debug, PartialEq, Eq)]
pub struct TypeBinding {
    pub ident: String,
    pub ty: Ty,
}

/// The `(A, B) -> C` of a path segment.
#[derive(Debug, PartialEq, Eq)]
pub struct ParenthesizedParameterData {
    pub inputs: Vec<Ty>,
    pub output: Option<Ty>,
}

/// A literal.
#[derive(Debug, PartialEq, Eq)]
pub enum Lit {
    /// A string literal, by its value.
    Str(String),
    /// An integer literal, by its value.
    Int(u64),
    /// Any other literal, by its source text.
    Other(String),
}

/// An expression, as far as attribute arguments are read.
#[derive(Debug, PartialEq, Eq)]
pub enum Expr {
    /// A path `a::b::c`, by the names of its segments.
    Path(Vec<String>),
    /// A literal.
    Lit(Lit),
    /// An assignment `key = value`.
    Assign(Box<Expr>, Box<Expr>),
    /// A tuple `(a, b, ..)`.
    Tup(Vec<Expr>),
    /// A parenthesized expression `(a)`.
    Paren(Box<Expr>),
    /// Any other expression, by its source text.
    Other(String),
}

/// A pattern of a function argument.
#[derive(Debug, PartialEq, Eq)]
pub enum Pat {
    /// A binding `name` (possibly `mut name` or `ref name`).
    Ident(String),
    /// A path pattern, by the names of its segments.
    Path(Vec<String>),
    /// Any other pattern, by its source text.
    Other(String),
}

/// An argument of a function.
#[derive(Debug, PartialEq, Eq)]
pub enum FnArg {
    /// `&self` or `&mut self`.
    SelfRef,
    /// `self` or `mut self`.
    SelfValue,
    /// `pattern: type`.
    Captured(Pat, Ty),
    /// An argument with a type only.
    Ignored(Ty),
}

/// The signature of a function: its arguments and its return type, if one is
/// written.
#[derive(Debug, PartialEq, Eq)]
pub struct FnDecl {
    pub inputs: Vec<FnArg>,
    pub output: Option<Ty>,
}

/// The generics of a function, as far as they are read: the names of the
/// lifetimes it declares.
#[derive(Debug, PartialEq, Eq)]
pub struct Generics {
    pub lifetimes: Vec<String>,
}

/// What an item is.
#[derive(Debug, PartialEq, Eq)]
pub enum ItemKind {
    /// A function with its signature and generics.
    Fn(FnDecl, Generics),
    /// Anything else.
    Other,
}

/// A decorated item: its name and what it is.
#[derive(Debug, PartialEq, Eq)]
pub struct Item {
    pub ident: String,
    pub node: ItemKind,
}

/// The mathematical view of a [`Ty`].
pub enum TyV {
    Rptr { lifetime: Option<Seq<char>>, mutable: bool, ty: Box<TyV> },
    Path { qself: Option<(Box<TyV>, usize)>, global: bool, segments: Seq<SegmentV> },
    Other(Seq<char>),
}

/// The mathematical view of a [`PathSegment`].
pub struct SegmentV {
    pub ident: Seq<char>,
    pub parameters: ParametersV,
}

/// The mathematical view of [`PathParameters`].
pub enum ParametersV {
    Angle { lifetimes: Seq<Seq<char>>, types: Seq<TyV>, bindings: Seq<(Seq<char>, TyV)> },
    Paren { inputs: Seq<TyV>, output: Option<Box<TyV>> },
}

pub open spec fn opt_name_view(o: Option<String>) -> Option<Seq<char>> {
    match o {
        Some(s) => Some(s@),
        None => None,
    }
}

pub open spec fn ty_view(t: Ty) -> TyV
    decreases t,
{
    match t {
        Ty::Rptr { lifetime, mutable, ty } => TyV::Rptr {
            lifetime: opt_name_view(lifetime),
            mutable,
            ty: Box::new(ty_view(*ty)),
        },
        Ty::Path { qself, path } => TyV::Path {
            qself: qself_view(qself),
            global: path.global,
            segments: segments_view(path.segments@),
        },
        Ty::Other(s) => TyV::Other(s@),
    }
}

pub open spec fn qself_view(o: Option<QSelf>) -> Option<(Box<TyV>, usize)>
    decreases o,
{
    match o {
        Some(q) => Some((Box::new(ty_view(*q.ty)), q.position)),
        None => None,
    }
}

pub open spec fn tys_view(s: Seq<Ty>) -> Seq<TyV>
    decreases s,
{
    if s.len() == 0 {
        Seq::empty()
    } else {
        tys_view(s.subrange(0, s.len() - 1)).push(ty_view(s[s.len() - 1]))
    }
}

pub open spec fn bindings_view(s: Seq<TypeBinding>) -> Seq<(Seq<char>, TyV)>
    decreases s,
{
    if s.len() == 0 {
        Seq::empty()
    } else {
        bindings_view(s.subrange(0, s.len() - 1)).push(
            (s[s.len() - 1].ident@, ty_view(s[s.len() - 1].ty)),
        )
    }
}

pub open spec fn segments_view(s: Seq<PathSegment>) -> Seq<SegmentV>
    decreases s,
{
    if s.len() == 0 {
        Seq::empty()
    } else {
        segments_view(s.subrange(0, s.len() - 1)).push(segment_view(s[s.len() - 1]))
    }
}

pub open spec fn segment_view(g: PathSegment) -> SegmentV
    decreases g,
{
    SegmentV { ident: g.ident@, parameters: parameters_view(g.parameters) }
}

pub open spec fn parameters_view(p: PathParameters) -> ParametersV
    decreases p,
{
    match p {
        PathParameters::AngleBracketed(a) => ParametersV::Angle {
            lifetimes: names_of(a.lifetimes@),
            types: tys_view(a.types@),
            bindings: bindings_view(a.bindings@),
        },
        PathParameters::Parenthesized(q) => ParametersV::Paren {
            inputs: tys_view(q.inputs@),
            output: match q.output {
                Some(o) => Some(Box::new(ty_view(o))),
                None => None,
            },
        },
    }
}


/// The view of a sequence of types is the sequence of their views.
pub proof fn lemma_tys_view(s: Seq<Ty>)
    ensures
        tys_view(s).len() == s.len(),
        forall|i: int| 0 <= i < s.len() ==> #[trigger] tys_view(s)[i] == ty_view(s[i]),
    decreases s.len(),
{
    if s.len() > 0 {
        lemma_tys_view(s.subrange(0, s.len() - 1));
    }
}

/// The view of a sequence of bindings is the sequence of their views.
pub proof fn lemma_bindings_view(s: Seq<TypeBinding>)
    ensures
        bindings_view(s).len() == s.len(),
        forall|i: int|
            0 <= i < s.len() ==> #[trigger] bindings_view(s)[i] == (s[i].ident@, ty_view(s[i].ty)),
    decreases s.len(),
{
    if s.len() > 0 {
        lemma_bindings_view(s.subrange(0, s.len() - 1));
    }
}

/// The view of a sequence of segments is the sequence of their views.
pub proof fn lemma_segments_view(s: Seq<PathSegment>)
    ensures
        segments_view(s).len() == s.len(),
        forall|i: int| 0 <= i < s.len() ==> #[trigger] segments_view(s)[i] == segment_view(s[i]),
    decreases s.len(),
{
    if s.len() > 0 {
        lemma_segments_view(s.subrange(0, s.len() - 1));
    }
}

pub(crate) fn clone_name(s: &String) -> (r: String)
    ensures
        r@ == s@,
{
    s.clone()
}

pub(crate) fn clone_names(v: &Vec<String>) -> (r: Vec<String>)
    ensures
        names_of(r@) == names_of(v@),
{
    let mut r: Vec<String> = Vec::new();
    let mut i: usize = 0;
    while i < v.len()
        invariant
            0 <= i <= v@.len(),
            r@.len() == i,
            forall|j: int| 0 <= j < i ==> r@[j]@ == v@[j]@,
        decreases v@.len() - i,
    {
        r.push(clone_name(&v[i]));
        i = i + 1;
    }
    assert(names_of(r@) =~= names_of(v@));
    r
}

pub(crate) fn clone_opt_name(o: &Option<String>) -> (r: Option<String>)
    ensures
        opt_name_view(r) == opt_name_view(*o),
{
    match o {
        Some(s) => Some(clone_name(s)),
        None => None,
    }
}

/// A copy of a type, with the same view.
pub(crate) fn clone_ty(t: &Ty) -> (r: Ty)
    ensures
        ty_view(r) == ty_view(*t),
    decreases t,
{
    match t {
        Ty::Rptr { lifetime, mutable, ty } => Ty::Rptr {
            lifetime: clone_opt_name(lifetime),
            mutable: *mutable,
            ty: Box::new(clone_ty(ty)),
        },
        Ty::Path { qself, path } => {
            Ty::Path { qself: clone_qself(qself), path: Path { global: path.global, segments: clone_segments(&path.segments) } }
        },
        Ty::Other(s) => Ty::Other(clone_name(s)),
    }
}

pub(crate) fn clone_qself(o: &Option<QSelf>) -> (r: Option<QSelf>)
    ensures
        qself_view(r) == qself_view(*o),
    decreases o,
{
    match o {
        Some(q) => Some(QSelf { ty: Box::new(clone_ty(&q.ty)), position: q.position }),
        None => None,
    }
}

pub(crate) fn clone_tys(v: &Vec<Ty>) -> (r: Vec<Ty>)
    ensures
        tys_view(r@) == tys_view(v@),
    decreases v,
{
    let mut r: Vec<Ty> = Vec::new();
    let mut i: usize = 0;
    while i < v.len()
        invariant
            0 <= i <= v@.len(),
            r@.len() == i,
            forall|j: int| 0 <= j < i ==> ty_view(r@[j]) == ty_view(v@[j]),
        decreases v@.len() - i,
    {
        r.push(clone_ty(&v[i]));
        i = i + 1;
    }
    proof {
        lemma_tys_view(r@);
        lemma_tys_view(v@);
        assert(tys_view(r@) =~= tys_view(v@));
    }
    r
}

pub(crate) fn clone_bindings(v: &Vec<TypeBinding>) -> (r: Vec<TypeBinding>)
    ensures
        bindings_view(r@) == bindings_view(v@),
    decreases v,
{
    let mut r: Vec<TypeBinding> = Vec::new();
    let mut i: usize = 0;
    while i < v.len()
        invariant
            0 <= i <= v@.len(),
            r@.len() == i,
            forall|j: int|
                0 <= j < i ==> r@[j].ident@ == v@[j].ident@ && ty_view(r@[j].ty) == ty_view(
                    v@[j].ty,
                ),
        decreases v@.len() - i,
    {
        r.push(TypeBinding { ident: clone_name(&v[i].ident), ty: clone_ty(&v[i].ty) });
        i = i + 1;
    }
    proof {
        lemma_bindings_view(r@);
        lemma_bindings_view(v@);
        assert(bindings_view(r@) =~= bindings_view(v@));
    }
    r
}

pub(crate) fn clone_parameters(p: &PathParameters) -> (r: PathParameters)
    ensures
        parameters_view(r) == parameters_view(*p),
    decreases p,
{
    match p {
        PathParameters::AngleBracketed(a) => PathParameters::AngleBracketed(
            AngleBracketedParameterData {
                lifetimes: clone_names(&a.lifetimes),
                types: clone_tys(&a.types),
                bindings: clone_bindings(&a.bindings),
            },
        ),
        PathParameters::Parenthesized(q) => {
            let output = match &q.output {
                Some(o) => Some(clone_ty(o)),
                None => None,
            };
            PathParameters::Parenthesized(
                ParenthesizedParameterData { inputs: clone_tys(&q.inputs), output },
            )
        },
    }
}

pub(crate) fn clone_segments(v: &Vec<PathSegment>) -> (r: Vec<PathSegment>)
    ensures
        segments_view(r@) == segments_view(v@),
    decreases v,
{
    let mut r: Vec<PathSegment> = Vec::new();
    let mut i: usize = 0;
    while i < v.len()
        invariant
            0 <= i <= v@.len(),
            r@.len() == i,
            forall|j: int| 0 <= j < i ==> segment_view(r@[j]) == segment_view(v@[j]),
        decreases v@.len() - i,
    {
        r.push(
            PathSegment {
                ident: clone_name(&v[i].ident),
                parameters: clone_parameters(&v[i].parameters),
            },
        );
        i = i + 1;
    }
    proof {
        lemma_segments_view(r@);
        lemma_segments_view(v@);
        assert(segments_view(r@) =~= segments_view(v@));
    }
    r
}

} // verus!
