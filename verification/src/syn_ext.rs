//! Reading names, literals and argument lists out of a handler's syntax.
use vstd::prelude::*;

use crate::ast::{clone_name, clone_ty, ty_view, Expr, FnArg, FnDecl, Generics, Item, ItemKind, Lit, Pat, Ty};
use crate::errors::ErrorKind;
use crate::lifetime_pool::names_of;

verus! {

/// A result carrying a string, by the string's view.
pub open spec fn ok_view(r: Result<String, ErrorKind>) -> Result<Seq<char>, ErrorKind> {
    match r {
        Ok(s) => Ok(s@),
        Err(e) => Err(e),
    }
}

/// The decimal digit `d`.
pub open spec fn digit_char(d: nat) -> char {
    "0123456789"@[d as int]
}

/// The decimal numeral of `n`, without leading zeros.
pub open spec fn decimal(n: nat) -> Seq<char>
    decreases n,
{
    if n < 10 {
        seq![digit_char(n)]
    } else {
        decimal(n / 10).push(digit_char(n % 10))
    }
}

fn digit_str(d: usize) -> (r: &'static str)
    requires
        d < 10,
    ensures
        r@ == seq![digit_char(d as nat)],
{
    let digits = "0123456789";
    proof {
        reveal_strlit("0123456789");
    }
    let r = digits.substring_char(d, d + 1);
    assert(r@ =~= seq![digit_char(d as nat)]);
    r
}

/// The decimal numeral of `n`.
pub fn decimal_string(n: usize) -> (r: String)
    ensures
        r@ == decimal(n as nat),
    decreases n,
{
    if n < 10 {
        String::from_str(digit_str(n))
    } else {
        let mut s = decimal_string(n / 10);
        s.append(digit_str(n % 10));
        s
    }
}

/// The name a path of exactly one segment is made of.
pub open spec fn spec_expr_path_string(e: Expr) -> Result<Seq<char>, ErrorKind> {
    match e {
        Expr::Path(segments) => if segments@.len() != 1 {
            Err(ErrorKind::PathMultipleSegments)
        } else {
            Ok(segments@[0]@)
        },
        _ => Err(ErrorKind::ExprNotAPath),
    }
}

/// The name a one-segment path pattern is made of; any other pattern,
/// an identifier pattern included, is not a path.
pub open spec fn spec_pat_path_string(p: Pat) -> Result<Seq<char>, ErrorKind> {
    match p {
        Pat::Path(segments) => if segments@.len() != 1 {
            Err(ErrorKind::PathMultipleSegments)
        } else {
            Ok(segments@[0]@)
        },
        _ => Err(ErrorKind::PatNotAPath),
    }
}

pub open spec fn spec_pat_ident_string(p: Pat) -> Result<Seq<char>, ErrorKind> {
    match p {
        Pat::Ident(name) => Ok(name@),
        _ => Err(ErrorKind::PatNotAPath),
    }
}

pub open spec fn spec_lit_string(e: Expr) -> Result<Seq<char>, ErrorKind> {
    match e {
        Expr::Lit(Lit::Str(value)) => Ok(value@),
        _ => Err(ErrorKind::ExprNotALit),
    }
}

/// The key and the literal value of a `key = value` expression.
pub open spec fn spec_kv(e: Expr) -> Result<(Seq<char>, Lit), ErrorKind> {
    match e {
        Expr::Assign(key, value) => match *value {
            Expr::Lit(lit) => match spec_expr_path_string(*key) {
                Ok(k) => Ok((k, lit)),
                Err(err) => Err(err),
            },
            _ => Err(ErrorKind::AssignValueInvalid),
        },
        _ => Err(ErrorKind::ExprNotAAssign),
    }
}

/// The items of a tuple, or the one item of a parenthesized expression.
pub open spec fn spec_tup_items(e: Expr) -> Result<Seq<Expr>, ErrorKind> {
    match e {
        Expr::Tup(exprs) => Ok(exprs@),
        Expr::Paren(inner) => Ok(seq![*inner]),
        _ => Err(ErrorKind::ExprNotATupOrParen),
    }
}

/// Whether argument `arg` is a named argument called `name`.
pub open spec fn is_input_named(arg: FnArg, name: Seq<char>) -> bool {
    arg matches FnArg::Captured(Pat::Ident(id), _) && id@ == name
}

/// The name an argument is given in generated code: the prefix, then the
/// argument's name, or its position if it has none.
pub open spec fn spec_arg_name(arg: FnArg, prefix: Seq<char>, idx: nat) -> Result<Seq<char>, ErrorKind> {
    match arg {
        FnArg::Captured(pat, _) => match spec_pat_ident_string(pat) {
            Ok(name) => Ok(prefix + name),
            Err(e) => Err(e),
        },
        FnArg::Ignored(_) => Ok(prefix + decimal(idx)),
        _ => Err(ErrorKind::FnParamContainSelf),
    }
}

/// The names of the arguments in generated code, or the error of the first
/// argument that has none.
pub open spec fn spec_arg_names(inputs: Seq<FnArg>, prefix: Seq<char>) -> Result<Seq<Seq<char>>, ErrorKind>
    decreases inputs.len(),
{
    if inputs.len() == 0 {
        Ok(Seq::empty())
    } else {
        match spec_arg_names(inputs.drop_last(), prefix) {
            Err(e) => Err(e),
            Ok(names) => match spec_arg_name(inputs.last(), prefix, (inputs.len() - 1) as nat) {
                Err(e) => Err(e),
                Ok(name) => Ok(names.push(name)),
            },
        }
    }
}

/// The type of an argument that has one.
pub open spec fn arg_ty(arg: FnArg) -> Ty {
    match arg {
        FnArg::Captured(_, ty) => ty,
        FnArg::Ignored(ty) => ty,
        _ => arbitrary(),
    }
}

/// Once the names of a prefix of the arguments are refused, so are the names
/// of all of them, with the same error.
pub proof fn lemma_arg_names_err_prefix(inputs: Seq<FnArg>, prefix: Seq<char>, k: int)
    requires
        0 <= k <= inputs.len(),
        spec_arg_names(inputs.take(k), prefix) is Err,
    ensures
        spec_arg_names(inputs, prefix) == spec_arg_names(inputs.take(k), prefix),
    decreases inputs.len(),
{
    if k < inputs.len() {
        assert(inputs.drop_last().take(k) =~= inputs.take(k));
        lemma_arg_names_err_prefix(inputs.drop_last(), prefix, k);
    } else {
        assert(inputs.take(k) =~= inputs);
    }
}

/// When the arguments have names, there is one name per argument.
pub proof fn lemma_arg_names_len(inputs: Seq<FnArg>, prefix: Seq<char>)
    requires
        spec_arg_names(inputs, prefix) is Ok,
    ensures
        spec_arg_names(inputs, prefix)->Ok_0.len() == inputs.len(),
    decreases inputs.len(),
{
    if inputs.len() > 0 {
        lemma_arg_names_len(inputs.drop_last(), prefix);
    }
}

impl FnDecl {
    /// The type of the first argument that binds `name`.
    pub fn find_input_ty(&self, name: &str) -> (r: Option<&Ty>)
        ensures
            match r {
                Some(t) => exists|i: int|
                    0 <= i < self.inputs@.len() && is_input_named(self.inputs@[i], name@) && (forall|j: int|
                        0 <= j < i ==> !is_input_named(self.inputs@[j], name@)) && *t == arg_ty(
                        self.inputs@[i],
                    ),
                None => forall|i: int|
                    0 <= i < self.inputs@.len() ==> !is_input_named(self.inputs@[i], name@),
            },
    {
        let target = name.to_owned();
        let mut i: usize = 0;
        while i < self.inputs.len()
            invariant
                0 <= i <= self.inputs@.len(),
                target@ == name@,
                forall|j: int| 0 <= j < i ==> !is_input_named(self.inputs@[j], name@),
            decreases self.inputs@.len() - i,
        {
            match &self.inputs[i] {
                FnArg::Captured(Pat::Ident(ident), ty) => {
                    if *ident == target {
                        return Some(ty);
                    }
                },
                _ => {},
            }
            i = i + 1;
        }
        None
    }

    /// The names of the arguments; every argument must be a plain named one.
    pub fn arg_names(&self) -> (r: Vec<String>)
        requires
            forall|i: int|
                0 <= i < self.inputs@.len() ==> #[trigger] self.inputs@[i] matches FnArg::Captured(
                    Pat::Ident(_),
                    _,
                ),
        ensures
            r@.len() == self.inputs@.len(),
            forall|i: int|
                0 <= i < r@.len() ==> is_input_named(self.inputs@[i], #[trigger] r@[i]@),
    {
        let mut r: Vec<String> = Vec::new();
        let mut i: usize = 0;
        while i < self.inputs.len()
            invariant
                0 <= i <= self.inputs@.len(),
                r@.len() == i,
                forall|j: int|
                    0 <= j < self.inputs@.len() ==> #[trigger] self.inputs@[j] matches FnArg::Captured(
                        Pat::Ident(_),
                        _,
                    ),
                forall|j: int| 0 <= j < i ==> is_input_named(self.inputs@[j], #[trigger] r@[j]@),
            decreases self.inputs@.len() - i,
        {
            match &self.inputs[i] {
                FnArg::Captured(Pat::Ident(ident), _) => {
                    r.push(clone_name(ident));
                },
                _ => {
                    proof {
                        assert(false);
                    }
                },
            }
            i = i + 1;
        }
        r
    }

    /// The names the arguments are given in generated code (`prefix` and the
    /// argument's name, or its position if it has none), their types, and
    /// their positions.
    pub fn arg_triple(&self, prefix: &str) -> (r: Result<(Vec<String>, Vec<Ty>, Vec<usize>), ErrorKind>)
        ensures
            match r {
                Ok((names, tys, idx)) => {
                    &&& spec_arg_names(self.inputs@, prefix@) == Ok::<Seq<Seq<char>>, ErrorKind>(
                        names_of(names@),
                    )
                    &&& tys@.len() == self.inputs@.len()
                    &&& forall|i: int|
                        0 <= i < tys@.len() ==> ty_view(#[trigger] tys@[i]) == ty_view(
                            arg_ty(self.inputs@[i]),
                        )
                    &&& idx@.len() == self.inputs@.len()
                    &&& forall|i: int| 0 <= i < idx@.len() ==> #[trigger] idx@[i] == i
                },
                Err(e) => spec_arg_names(self.inputs@, prefix@) == Err::<Seq<Seq<char>>, ErrorKind>(e),
            },
    {
        let ghost inputs = self.inputs@;
        let mut names: Vec<String> = Vec::new();
        let mut tys: Vec<Ty> = Vec::new();
        let mut idx: Vec<usize> = Vec::new();
        let mut i: usize = 0;
        proof {
            assert(inputs.take(0) =~= Seq::<FnArg>::empty());
            assert(names_of(names@) =~= Seq::<Seq<char>>::empty());
        }
        while i < self.inputs.len()
            invariant
                0 <= i <= inputs.len(),
                inputs == self.inputs@,
                spec_arg_names(inputs.take(i as int), prefix@) == Ok::<Seq<Seq<char>>, ErrorKind>(
                    names_of(names@),
                ),
                tys@.len() == i,
                idx@.len() == i,
                forall|j: int| 0 <= j < i ==> ty_view(#[trigger] tys@[j]) == ty_view(arg_ty(inputs[j])),
                forall|j: int| 0 <= j < i ==> #[trigger] idx@[j] == j,
            decreases inputs.len() - i,
        {
            proof {
                assert(inputs.take(i + 1).drop_last() =~= inputs.take(i as int));
                assert(inputs.take(i + 1).last() == inputs[i as int]);
            }
            let (name, ty) = match &self.inputs[i] {
                FnArg::Captured(pat, ty) => {
                    match pat.ident_string() {
                        Ok(n) => (prefix.to_owned().concat(n.as_str()), clone_ty(ty)),
                        Err(e) => {
                            proof {
                                lemma_arg_names_err_prefix(inputs, prefix@, i + 1);
                            }
                            return Err(e);
                        },
                    }
                },
                FnArg::Ignored(ty) => {
                    let n = decimal_string(i);
                    (prefix.to_owned().concat(n.as_str()), clone_ty(ty))
                },
                _ => {
                    proof {
                        lemma_arg_names_err_prefix(inputs, prefix@, i + 1);
                    }
                    return Err(ErrorKind::FnParamContainSelf);
                },
            };
            let ghost before = names@;
            names.push(name);
            tys.push(ty);
            idx.push(i);
            proof {
                assert(names_of(names@) =~= names_of(before).push(name@));
            }
            i = i + 1;
        }
        proof {
            assert(inputs.take(i as int) =~= inputs);
        }
        Ok((names, tys, idx))
    }
}

impl Expr {
    /// The name this expression is made of, if it is a path of one segment.
    pub fn path_string(&self) -> (r: Result<String, ErrorKind>)
        ensures
            ok_view(r) == spec_expr_path_string(*self),
    {
        match self {
            Expr::Path(segments) => {
                if segments.len() != 1 {
                    Err(ErrorKind::PathMultipleSegments)
                } else {
                    Ok(clone_name(&segments[0]))
                }
            },
            _ => Err(ErrorKind::ExprNotAPath),
        }
    }

    /// The value of this expression, if it is a string literal.
    pub fn lit_string(&self) -> (r: Result<String, ErrorKind>)
        ensures
            ok_view(r) == spec_lit_string(*self),
    {
        match self {
            Expr::Lit(Lit::Str(value)) => Ok(clone_name(value)),
            _ => Err(ErrorKind::ExprNotALit),
        }
    }

    /// The key and the literal value of this expression, if it is `key = value`.
    pub fn kv(&self) -> (r: Result<(String, &Lit), ErrorKind>)
        ensures
            match r {
                Ok((k, lit)) => spec_kv(*self) == Ok::<(Seq<char>, Lit), ErrorKind>((k@, *lit)),
                Err(e) => spec_kv(*self) == Err::<(Seq<char>, Lit), ErrorKind>(e),
            },
    {
        match self {
            Expr::Assign(key, value) => {
                let lit = match &**value {
                    Expr::Lit(lit) => lit,
                    _ => {
                        return Err(ErrorKind::AssignValueInvalid);
                    },
                };
                match key.path_string() {
                    Ok(k) => Ok((k, lit)),
                    Err(e) => Err(e),
                }
            },
            _ => Err(ErrorKind::ExprNotAAssign),
        }
    }

    /// The items of this expression, if it is a tuple or parenthesized.
    pub fn tup_items(&self) -> (r: Result<Vec<&Expr>, ErrorKind>)
        ensures
            match r {
                Ok(items) => spec_tup_items(*self) matches Ok(s) && s.len() == items@.len()
                    && forall|i: int| 0 <= i < s.len() ==> *items@[i] == s[i],
                Err(e) => spec_tup_items(*self) == Err::<Seq<Expr>, ErrorKind>(e),
            },
    {
        match self {
            Expr::Tup(exprs) => {
                let mut items: Vec<&Expr> = Vec::new();
                let mut i: usize = 0;
                while i < exprs.len()
                    invariant
                        0 <= i <= exprs@.len(),
                        items@.len() == i,
                        forall|j: int| 0 <= j < i ==> *items@[j] == exprs@[j],
                    decreases exprs@.len() - i,
                {
                    items.push(&exprs[i]);
                    i = i + 1;
                }
                Ok(items)
            },
            Expr::Paren(inner) => {
                let mut items: Vec<&Expr> = Vec::new();
                items.push(&**inner);
                Ok(items)
            },
            _ => Err(ErrorKind::ExprNotATupOrParen),
        }
    }

    /// How many items this expression has, if it is a tuple or parenthesized.
    pub fn tup_len(&self) -> (r: Result<usize, ErrorKind>)
        ensures
            match r {
                Ok(n) => spec_tup_items(*self) matches Ok(s) && s.len() == n,
                Err(e) => spec_tup_items(*self) == Err::<Seq<Expr>, ErrorKind>(e),
            },
    {
        match self {
            Expr::Tup(exprs) => Ok(exprs.len()),
            Expr::Paren(_) => Ok(1),
            _ => Err(ErrorKind::ExprNotATupOrParen),
        }
    }
}

impl Pat {
    /// The name this pattern is made of, if it is a path of one segment.
    pub fn path_string(&self) -> (r: Result<String, ErrorKind>)
        ensures
            ok_view(r) == spec_pat_path_string(*self),
    {
        match self {
            Pat::Path(segments) => {
                if segments.len() != 1 {
                    return Err(ErrorKind::PathMultipleSegments);
                }
                Ok(clone_name(&segments[0]))
            },
            _ => Err(ErrorKind::PatNotAPath),
        }
    }

    /// The name this pattern binds, if it is a plain binding.
    pub fn ident_string(&self) -> (r: Result<String, ErrorKind>)
        ensures
            ok_view(r) == spec_pat_ident_string(*self),
    {
        match self {
            Pat::Ident(name) => Ok(clone_name(name)),
            _ => Err(ErrorKind::PatNotAPath),
        }
    }
}

impl Lit {
    /// The value of an integer literal, as an `isize` (wrapping as `as` does).
    pub fn as_isize(&self) -> (r: Result<isize, ErrorKind>)
        ensures
            match *self {
                Lit::Int(i) => r == Ok::<isize, ErrorKind>(i as isize),
                _ => r == Err::<isize, ErrorKind>(ErrorKind::LitNotAnISize),
            },
    {
        match self {
            Lit::Int(i) => Ok(*i as isize),
            _ => Err(ErrorKind::LitNotAnISize),
        }
    }

    /// The value of a string literal.
    pub fn as_string(&self) -> (r: Result<String, ErrorKind>)
        ensures
            match *self {
                Lit::Str(s) => ok_view(r) == Ok::<Seq<char>, ErrorKind>(s@),
                _ => r == Err::<String, ErrorKind>(ErrorKind::LitNotAString),
            },
    {
        match self {
            Lit::Str(s) => Ok(clone_name(s)),
            _ => Err(ErrorKind::LitNotAString),
        }
    }
}

impl FnArg {
    /// The name of a named argument.
    pub fn name(&self) -> (r: Result<String, ErrorKind>)
        ensures
            ok_view(r) == match *self {
                FnArg::Captured(pat, _) => spec_pat_ident_string(pat),
                _ => Err(ErrorKind::FnArgHasNoName),
            },
    {
        match self {
            FnArg::Captured(pat, _) => pat.ident_string(),
            _ => Err(ErrorKind::FnArgHasNoName),
        }
    }

    /// The type of an argument other than `self`.
    pub fn ty(&self) -> (r: Result<&Ty, ErrorKind>)
        ensures
            match *self {
                FnArg::Captured(_, ty) => r == Ok::<&Ty, ErrorKind>(&ty),
                FnArg::Ignored(ty) => r == Ok::<&Ty, ErrorKind>(&ty),
                _ => r == Err::<&Ty, ErrorKind>(ErrorKind::FnArgHasNoTy),
            },
    {
        match self {
            FnArg::Captured(_, ty) => Ok(ty),
            FnArg::Ignored(ty) => Ok(ty),
            _ => Err(ErrorKind::FnArgHasNoTy),
        }
    }
}

impl Item {
    /// The signature of this item, if it is a function.
    pub fn fn_decl(&self) -> (r: Result<&FnDecl, ErrorKind>)
        ensures
            match self.node {
                ItemKind::Fn(decl, _) => r == Ok::<&FnDecl, ErrorKind>(&decl),
                _ => r == Err::<&FnDecl, ErrorKind>(ErrorKind::ItemNotAFn),
            },
    {
        match &self.node {
            ItemKind::Fn(decl, _) => Ok(decl),
            _ => Err(ErrorKind::ItemNotAFn),
        }
    }

    /// The generics of this item, if it is a function.
    pub fn fn_generics(&self) -> (r: Result<&Generics, ErrorKind>)
        ensures
            match self.node {
                ItemKind::Fn(_, generics) => r == Ok::<&Generics, ErrorKind>(&generics),
                _ => r == Err::<&Generics, ErrorKind>(ErrorKind::ItemNotAFn),
            },
    {
        match &self.node {
            ItemKind::Fn(_, generics) => Ok(generics),
            _ => Err(ErrorKind::ItemNotAFn),
        }
    }
}

} // verus!
