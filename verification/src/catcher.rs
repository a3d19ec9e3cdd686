//! What an error catcher's generated code is made of: its status code, and
//! how the error and the request are handed to its handler.
use vstd::prelude::*;

use crate::ast::{clone_name, clone_ty, lemma_tys_view, ty_view, tys_view, Expr, FnArg, Item, ItemKind, Lit, Ty};
use crate::errors::ErrorKind;
use crate::lifetime_pool::names_of;
use crate::route::{arg_tys_view, opt_ty_view};
use crate::syn_ext::arg_ty;

verus! {

/// The status code of a catcher attribute `(code)`, truncated to 16 bits
/// after reading it as an `isize`.
pub open spec fn spec_catcher_code(args: Option<Expr>) -> Result<u16, ErrorKind> {
    match args {
        Some(Expr::Paren(inner)) => match *inner {
            Expr::Lit(Lit::Int(i)) => Ok((i as isize) as u16),
            Expr::Lit(_) => Err(ErrorKind::LitNotAnISize),
            _ => Err(ErrorKind::ErrorCodeNotInteger),
        },
        _ => Err(ErrorKind::ErrorParamNumNotCorrect),
    }
}

/// The name under which a catcher argument is passed: a reference gets the
/// request, a path type the error.
pub open spec fn spec_catcher_arg(arg: FnArg) -> Result<Seq<char>, ErrorKind> {
    match arg {
        FnArg::Captured(_, ty) => catcher_arg_for(ty),
        FnArg::Ignored(ty) => catcher_arg_for(ty),
        _ => Err(ErrorKind::ErrorHandleContainSelf),
    }
}

pub open spec fn catcher_arg_for(ty: Ty) -> Result<Seq<char>, ErrorKind> {
    match ty {
        Ty::Rptr { .. } => Ok("_request"@),
        Ty::Path { .. } => Ok("_error"@),
        _ => Err(ErrorKind::ErrorHandleUnexpectedParam),
    }
}

/// The names under which the arguments are passed, or the error of the
/// first argument that cannot be passed.
pub open spec fn spec_catcher_args(inputs: Seq<FnArg>) -> Result<Seq<Seq<char>>, ErrorKind>
    decreases inputs.len(),
{
    if inputs.len() == 0 {
        Ok(Seq::empty())
    } else {
        match spec_catcher_args(inputs.drop_last()) {
            Err(e) => Err(e),
            Ok(names) => match spec_catcher_arg(inputs.last()) {
                Err(e) => Err(e),
                Ok(n) => Ok(names.push(n)),
            },
        }
    }
}

/// Why decorating a catcher fails, in the order of the checks: the
/// attribute, the item, the number of arguments, then each argument.
pub open spec fn catcher_error(args: Option<Expr>, item: Item, e: ErrorKind) -> bool {
    match spec_catcher_code(args) {
        Err(e2) => e == e2,
        Ok(_) => match item.node {
            ItemKind::Fn(decl, _) => if decl.inputs@.len() > 2 {
                e == ErrorKind::ErrorHandleTooMuchParam
            } else {
                spec_catcher_args(decl.inputs@) == Err::<Seq<Seq<char>>, ErrorKind>(e)
            },
            _ => e == ErrorKind::ItemNotAFn,
        },
    }
}

/// The generated parts of a catcher: its status code, the handler's name and
/// the name its body is renamed to, the names under which its arguments are
/// passed, their types, and its return type if one is written.
#[derive(Debug, PartialEq, Eq)]
pub struct CatcherPlan {
    pub code: u16,
    pub fn_name: String,
    pub user_fn_name: String,
    pub arg_names: Vec<String>,
    pub input_tys: Vec<Ty>,
    pub output: Option<Ty>,
}

/// What decorating a catcher gives.
pub open spec fn catcher_plan(args: Option<Expr>, item: Item, user_prefix: Seq<char>, plan: CatcherPlan) -> bool {
    match item.node {
        ItemKind::Fn(decl, _) => {
            &&& spec_catcher_code(args) == Ok::<u16, ErrorKind>(plan.code)
            &&& decl.inputs@.len() <= 2
            &&& spec_catcher_args(decl.inputs@) == Ok::<Seq<Seq<char>>, ErrorKind>(names_of(plan.arg_names@))
            &&& tys_view(plan.input_tys@) == arg_tys_view(decl.inputs@)
            &&& plan.fn_name@ == item.ident@
            &&& plan.user_fn_name@ == user_prefix + item.ident@
            &&& opt_ty_view(plan.output) == opt_ty_view(decl.output)
        },
        _ => false,
    }
}

/// The integer literal of a catcher attribute `(code)`.
pub open spec fn catcher_literal(args: Option<Expr>) -> Option<u64> {
    match args {
        Some(Expr::Paren(inner)) => match *inner {
            Expr::Lit(Lit::Int(i)) => Some(i),
            _ => None,
        },
        _ => None,
    }
}

/// A catcher's status code is its literal modulo 2^16, and there is a code
/// exactly when the attribute is one integer literal in parentheses.
pub proof fn law_catcher_code_modulo(args: Option<Expr>)
    ensures
        spec_catcher_code(args) is Ok <==> catcher_literal(args) is Some,
        catcher_literal(args) matches Some(i) ==> spec_catcher_code(args)->Ok_0 as int == i as int % 65536,
{
    if let Some(i) = catcher_literal(args) {
        assert(((i as isize) as u16) == ((i % 65536) as u16)) by (bit_vector);
    }
}

fn catcher_code(args: &Option<Expr>) -> (r: Result<u16, ErrorKind>)
    ensures
        r == spec_catcher_code(*args),
{
    match args {
        Some(Expr::Paren(inner)) => match &**inner {
            Expr::Lit(lit) => {
                let v = lit.as_isize()?;
                Ok(v as u16)
            },
            _ => Err(ErrorKind::ErrorCodeNotInteger),
        },
        _ => Err(ErrorKind::ErrorParamNumNotCorrect),
    }
}

fn catcher_arg(arg: &FnArg) -> (r: Result<(String, Ty), ErrorKind>)
    ensures
        match r {
            Ok((name, ty)) => spec_catcher_arg(*arg) == Ok::<Seq<char>, ErrorKind>(name@) && ty_view(ty)
                == ty_view(arg_ty(*arg)),
            Err(e) => spec_catcher_arg(*arg) == Err::<Seq<char>, ErrorKind>(e),
        },
{
    let ty = match arg {
        FnArg::Captured(_, ty) => ty,
        FnArg::Ignored(ty) => ty,
        _ => {
            return Err(ErrorKind::ErrorHandleContainSelf);
        },
    };
    let name = match ty {
        Ty::Rptr { .. } => "_request".to_owned(),
        Ty::Path { .. } => "_error".to_owned(),
        _ => {
            return Err(ErrorKind::ErrorHandleUnexpectedParam);
        },
    };
    Ok((name, clone_ty(ty)))
}

fn catcher_from_item(args: &Option<Expr>, item: &Item, user_fn_prefix: &str) -> (r: Result<CatcherPlan, ErrorKind>)
    ensures
        match r {
            Ok(plan) => catcher_plan(*args, *item, user_fn_prefix@, plan),
            Err(e) => catcher_error(*args, *item, e),
        },
{
    let code = catcher_code(args)?;
    let _fn_generics = item.fn_generics()?;
    let fn_decl = item.fn_decl()?;
    if fn_decl.inputs.len() > 2 {
        return Err(ErrorKind::ErrorHandleTooMuchParam);
    }
    let output = match &fn_decl.output {
        Some(t) => Some(clone_ty(t)),
        None => None,
    };
    let ghost inputs = fn_decl.inputs@;
    let mut arg_names: Vec<String> = Vec::new();
    let mut input_tys: Vec<Ty> = Vec::new();
    let mut i: usize = 0;
    proof {
        assert(inputs.take(0) =~= Seq::<FnArg>::empty());
        assert(names_of(arg_names@) =~= Seq::<Seq<char>>::empty());
    }
    while i < fn_decl.inputs.len()
        invariant
            0 <= i <= inputs.len(),
            inputs == fn_decl.inputs@,
            inputs.len() <= 2,
            spec_catcher_code(*args) == Ok::<u16, ErrorKind>(code),
            item.node matches ItemKind::Fn(d, _) && d == *fn_decl,
            spec_catcher_args(inputs.take(i as int)) == Ok::<Seq<Seq<char>>, ErrorKind>(names_of(arg_names@)),
            input_tys@.len() == i,
            forall|j: int| 0 <= j < i ==> ty_view(#[trigger] input_tys@[j]) == ty_view(arg_ty(inputs[j])),
        decreases inputs.len() - i,
    {
        proof {
            assert(inputs.take(i + 1).drop_last() =~= inputs.take(i as int));
            assert(inputs.take(i + 1).last() == inputs[i as int]);
        }
        match catcher_arg(&fn_decl.inputs[i]) {
            Ok((name, ty)) => {
                let ghost before = arg_names@;
                arg_names.push(name);
                input_tys.push(ty);
                proof {
                    assert(names_of(arg_names@) =~= names_of(before).push(arg_names@.last()@));
                }
            },
            Err(e) => {
                proof {
                    lemma_catcher_args_err_prefix(inputs, i + 1);
                }
                return Err(e);
            },
        }
        i = i + 1;
    }
    proof {
        assert(inputs.take(i as int) =~= inputs);
        lemma_tys_view(input_tys@);
        assert(tys_view(input_tys@) =~= arg_tys_view(inputs));
    }
    let fn_name = clone_name(&item.ident);
    let user_fn_name = user_fn_prefix.to_owned().concat(fn_name.as_str());
    Ok(CatcherPlan { code, fn_name, user_fn_name, arg_names, input_tys, output })
}

/// Decides the generated parts of a catcher. `args` is the attribute's
/// argument and `item` the decorated item, each `None` if it could not be
/// read; the handler is renamed to `user_fn_prefix` and its name. The
/// attribute is checked first; when it is right but the item could not be
/// read, there is no answer (`None`): decorating cannot go on.
pub fn error_decorator(args: &Option<Expr>, item: &Option<Item>, user_fn_prefix: &str) -> (r: Option<
    Result<CatcherPlan, ErrorKind>,
>)
    ensures
        match *item {
            Some(i) => r matches Some(res) && match res {
                Ok(plan) => catcher_plan(*args, i, user_fn_prefix@, plan),
                Err(e) => catcher_error(*args, i, e),
            },
            None => match spec_catcher_code(*args) {
                Err(x) => r == Some(Err::<CatcherPlan, ErrorKind>(x)),
                Ok(_) => r is None,
            },
        },
{
    match item {
        Some(i) => Some(catcher_from_item(args, i, user_fn_prefix)),
        None => match catcher_code(args) {
            Err(x) => Some(Err(x)),
            Ok(_) => None,
        },
    }
}

/// Once a prefix of the arguments fails, all of them fail the same way.
pub proof fn lemma_catcher_args_err_prefix(inputs: Seq<FnArg>, k: int)
    requires
        0 <= k <= inputs.len(),
        spec_catcher_args(inputs.take(k)) is Err,
    ensures
        spec_catcher_args(inputs) == spec_catcher_args(inputs.take(k)),
    decreases inputs.len(),
{
    if k < inputs.len() {
        assert(inputs.drop_last().take(k) =~= inputs.take(k));
        lemma_catcher_args_err_prefix(inputs.drop_last(), k);
    } else {
        assert(inputs.take(k) =~= inputs);
    }
}

} // verus!
