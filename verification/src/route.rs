//! What a route handler's generated code is made of: where each argument
//! comes from, under which name and type, and which lifetimes its
//! `Fn` impls declare.
use vstd::prelude::*;

use crate::ast::{
    clone_name, clone_ty, lemma_tys_view, opt_name_view, ty_view, tys_view, FnArg, Item, ItemKind, Ty, TyV,
};
use crate::errors::ErrorKind;
use crate::lifetime_pool::{count_free, law_pool_names_fresh, names_of, pool_names, LifetimePool};
use crate::param_stack::{distinct_keys, entries_map, has_key, lemma_key_index, ParamStack};
use crate::syn_ext::{arg_ty, lemma_arg_names_len, spec_arg_names};
use crate::ty_ext::{
    coalesce_tys, coalesce_tys_from, elided_ty, elided_tys, law_strip_changes_only_lifetimes, lifetimes_ty,
    same_but_lifetimes, strip_ty, ty_budget,
};

verus! {

/// A dynamic parameter of a route path: `<name>` for one segment, or
/// `<name..>` for all the remaining segments.
#[derive(Debug, PartialEq, Eq)]
pub enum Param {
    Single(String),
    Many(String),
}

pub open spec fn param_name(p: Param) -> Seq<char> {
    match p {
        Param::Single(n) => n@,
        Param::Many(n) => n@,
    }
}

impl Param {
    /// The name of the parameter.
    pub fn name(&self) -> (r: &String)
        ensures
            r@ == param_name(*self),
    {
        match self {
            Param::Single(n) => n,
            Param::Many(n) => n,
        }
    }
}

/// One `let` of a generated handler: the variable it binds, its type, and
/// where its value comes from.
#[derive(Debug, PartialEq, Eq)]
pub enum Statement {
    /// From the path segment of dynamic parameter `index`, by `FromParam`.
    FromParam { index: usize, ident: String, name: String, ty: Ty },
    /// From the path segments of dynamic parameter `index` on, by `FromSegments`.
    FromSegments { index: usize, ident: String, name: String, ty: Ty },
    /// From the query string, by `FromForm`.
    FromForm { ident: String, ty: Ty },
    /// From the request body, by `FromData`.
    FromData { ident: String, ty: Ty },
    /// From the request, by `FromRequest`.
    FromRequest { ident: String, ty: Ty },
}

/// The mathematical view of a [`Statement`].
pub enum StatementV {
    FromParam { index: usize, ident: Seq<char>, name: Seq<char>, ty: TyV },
    FromSegments { index: usize, ident: Seq<char>, name: Seq<char>, ty: TyV },
    FromForm { ident: Seq<char>, ty: TyV },
    FromData { ident: Seq<char>, ty: TyV },
    FromRequest { ident: Seq<char>, ty: TyV },
}

pub open spec fn statement_view(s: Statement) -> StatementV {
    match s {
        Statement::FromParam { index, ident, name, ty } => StatementV::FromParam {
            index,
            ident: ident@,
            name: name@,
            ty: ty_view(ty),
        },
        Statement::FromSegments { index, ident, name, ty } => StatementV::FromSegments {
            index,
            ident: ident@,
            name: name@,
            ty: ty_view(ty),
        },
        Statement::FromForm { ident, ty } => StatementV::FromForm { ident: ident@, ty: ty_view(ty) },
        Statement::FromData { ident, ty } => StatementV::FromData { ident: ident@, ty: ty_view(ty) },
        Statement::FromRequest { ident, ty } => StatementV::FromRequest {
            ident: ident@,
            ty: ty_view(ty),
        },
    }
}

pub open spec fn opt_statement_view(s: Option<Statement>) -> Option<StatementV> {
    match s {
        Some(s) => Some(statement_view(s)),
        None => None,
    }
}

/// What a route declares besides its method, path, format and rank: the
/// handler, the dynamic parameters of its path in order, and the names of
/// its query and data parameters.
#[derive(Debug, PartialEq, Eq)]
pub struct RouteDef {
    pub item: Item,
    pub params: Vec<Param>,
    pub query_param: Option<String>,
    pub data_param: Option<String>,
}

/// The statement for a query (`data` false) or data (`data` true)
/// parameter, taken out of `stack`; or the name of the parameter, alone, if
/// the handler has no such argument. Also the stack afterwards.
pub open spec fn spec_source_statement(
    stack: Map<Seq<char>, TyV>,
    param: Option<Seq<char>>,
    prefix: Seq<char>,
    data: bool,
) -> (Result<Option<StatementV>, Seq<Seq<char>>>, Map<Seq<char>, TyV>) {
    match param {
        None => (Ok(None), stack),
        Some(name) => {
            let key = prefix + name;
            if stack.contains_key(key) {
                let ty = strip_ty(stack[key]);
                (
                    Ok(
                        Some(
                            if data {
                                StatementV::FromData { ident: key, ty }
                            } else {
                                StatementV::FromForm { ident: key, ty }
                            },
                        ),
                    ),
                    stack.remove(key),
                )
            } else {
                (Err(seq![name]), stack)
            }
        },
    }
}

/// Going through the dynamic parameters of the path in order: the
/// statements for those whose argument is on `stack` (each taken out of it),
/// the names of those whose argument is not (in path order), and the stack
/// afterwards. A parameter named twice finds its argument taken the second
/// time.
pub open spec fn spec_param_scan(
    stack: Map<Seq<char>, TyV>,
    params: Seq<Param>,
    prefix: Seq<char>,
) -> (Seq<StatementV>, Seq<Seq<char>>, Map<Seq<char>, TyV>)
    decreases params.len(),
{
    if params.len() == 0 {
        (Seq::empty(), Seq::empty(), stack)
    } else {
        let (ss, missing, m) = spec_param_scan(stack, params.drop_last(), prefix);
        let p = params.last();
        let index = (params.len() - 1) as usize;
        let key = prefix + param_name(p);
        if m.contains_key(key) {
            let ty = strip_ty(m[key]);
            let s = match p {
                Param::Single(_) => StatementV::FromParam { index, ident: key, name: param_name(p), ty },
                Param::Many(_) => StatementV::FromSegments { index, ident: key, name: param_name(p), ty },
            };
            (ss.push(s), missing, m.remove(key))
        } else {
            (ss, missing.push(param_name(p)), m)
        }
    }
}

/// The statements for the dynamic parameters of the path, in order, each
/// taken out of `stack`; or, if the handler lacks the argument of some of
/// them, the names of all those, in path order. Also the stack afterwards.
pub open spec fn spec_param_statements(
    stack: Map<Seq<char>, TyV>,
    params: Seq<Param>,
    prefix: Seq<char>,
) -> (Result<Seq<StatementV>, Seq<Seq<char>>>, Map<Seq<char>, TyV>) {
    let (ss, missing, m) = spec_param_scan(stack, params, prefix);
    (if missing.len() == 0 { Ok(ss) } else { Err(missing) }, m)
}

pub open spec fn statement_ident(s: Statement) -> Seq<char> {
    match s {
        Statement::FromParam { ident, .. } => ident@,
        Statement::FromSegments { ident, .. } => ident@,
        Statement::FromForm { ident, .. } => ident@,
        Statement::FromData { ident, .. } => ident@,
        Statement::FromRequest { ident, .. } => ident@,
    }
}

/// Whether `s` holds one `FromRequest` statement for each entry of `m`,
/// with the entry's type stripped of lifetimes, in some order.
pub open spec fn requests_cover(s: Seq<Statement>, m: Map<Seq<char>, TyV>) -> bool {
    &&& forall|j: int| 0 <= j < s.len() ==> #[trigger] s[j] is FromRequest
    &&& forall|i: int, j: int|
        0 <= i < s.len() && 0 <= j < s.len() && i != j ==> statement_ident(s[i]) != statement_ident(
            s[j],
        )
    &&& forall|j: int|
        0 <= j < s.len() ==> m.contains_key(statement_ident(#[trigger] s[j])) && ty_view(
            s[j]->FromRequest_ty,
        ) == strip_ty(m[statement_ident(s[j])])
    &&& forall|k: Seq<char>|
        #[trigger] m.contains_key(k) ==> exists|j: int|
            0 <= j < s.len() && statement_ident(#[trigger] s[j]) == k
}

/// Whether `e` says that the route parameters `names` are not arguments of
/// the handler.
pub open spec fn missing_param(e: ErrorKind, names: Seq<Seq<char>>) -> bool {
    e matches ErrorKind::RouteParamNotFoundInFnInput(n) && names_of(n@) == names
}

fn param_key(prefix: &str, name: &String) -> (r: String)
    ensures
        r@ == prefix@ + name@,
{
    prefix.to_owned().concat(name.as_str())
}

fn source_statement(
    param_stack: &mut ParamStack,
    param: &Option<String>,
    prefix: &str,
    data: bool,
) -> (r: Result<Option<Statement>, ErrorKind>)
    ensures
        ({
            let (s, m) = spec_source_statement(
                old(param_stack).view(),
                match *param {
                    Some(n) => Some(n@),
                    None => None,
                },
                prefix@,
                data,
            );
            &&& final(param_stack).view() == m
            &&& match r {
                Ok(st) => s == Ok::<Option<StatementV>, Seq<Seq<char>>>(opt_statement_view(st)),
                Err(e) => s is Err && missing_param(e, s->Err_0),
            }
        }),
{
    match param {
        Some(name) => {
            let key = param_key(prefix, name);
            match param_stack.remove(&key) {
                Some(ty) => {
                    let ty = ty.strip_lifetime_recursive().0;
                    if data {
                        Ok(Some(Statement::FromData { ident: key, ty }))
                    } else {
                        Ok(Some(Statement::FromForm { ident: key, ty }))
                    }
                },
                None => {
                    proof {
                        assert(old(param_stack).view().remove(key@) =~= old(param_stack).view());
                    }
                    let mut names: Vec<String> = Vec::new();
                    names.push(clone_name(name));
                    proof {
                        assert(names_of(names@) =~= seq![name@]);
                    }
                    Err(ErrorKind::RouteParamNotFoundInFnInput(names))
                },
            }
        },
        None => Ok(None),
    }
}

/// The statement that reads the query string into the query parameter, if
/// the route has one; the parameter's argument leaves the stack.
pub fn generate_query_statement(param_stack: &mut ParamStack, router_def: &RouteDef, prefix: &str) -> (r:
    Result<Option<Statement>, ErrorKind>)
    ensures
        ({
            let (s, m) = spec_source_statement(
                old(param_stack).view(),
                match router_def.query_param {
                    Some(n) => Some(n@),
                    None => None,
                },
                prefix@,
                false,
            );
            &&& final(param_stack).view() == m
            &&& match r {
                Ok(st) => s == Ok::<Option<StatementV>, Seq<Seq<char>>>(opt_statement_view(st)),
                Err(e) => s is Err && missing_param(e, s->Err_0),
            }
        }),
        r matches Ok(Some(st)) ==> statement_view(st) matches StatementV::FromForm { ident, ty } && router_def.query_param
            matches Some(n) && ident == prefix@ + n@ && old(param_stack).view().contains_key(ident) && stripped_of(
            ty,
            old(param_stack).view()[ident],
        ),
{
    proof {
        if router_def.query_param is Some {
            law_source_statement_strips(param_stack.view(), router_def.query_param->Some_0@, prefix@, false);
        }
    }
    source_statement(param_stack, &router_def.query_param, prefix, false)
}

/// The statement that reads the request body into the data parameter, if
/// the route has one; the parameter's argument leaves the stack.
pub fn generate_data_statement(param_stack: &mut ParamStack, router_def: &RouteDef, prefix: &str) -> (r:
    Result<Option<Statement>, ErrorKind>)
    ensures
        ({
            let (s, m) = spec_source_statement(
                old(param_stack).view(),
                match router_def.data_param {
                    Some(n) => Some(n@),
                    None => None,
                },
                prefix@,
                true,
            );
            &&& final(param_stack).view() == m
            &&& match r {
                Ok(st) => s == Ok::<Option<StatementV>, Seq<Seq<char>>>(opt_statement_view(st)),
                Err(e) => s is Err && missing_param(e, s->Err_0),
            }
        }),
        r matches Ok(Some(st)) ==> statement_view(st) matches StatementV::FromData { ident, ty } && router_def.data_param
            matches Some(n) && ident == prefix@ + n@ && old(param_stack).view().contains_key(ident) && stripped_of(
            ty,
            old(param_stack).view()[ident],
        ),
{
    proof {
        if router_def.data_param is Some {
            law_source_statement_strips(param_stack.view(), router_def.data_param->Some_0@, prefix@, true);
        }
    }
    source_statement(param_stack, &router_def.data_param, prefix, true)
}

/// The statements for the dynamic parameters of the path, in order, then one
/// `FromRequest` statement for each argument left on the stack, which ends
/// up empty. If the handler lacks the argument of some path parameters, the
/// error names all of them, in path order, and the stack keeps the arguments
/// the other parameters did not take.
pub fn generate_param_statements(param_stack: &mut ParamStack, router_def: &RouteDef, prefix: &str) -> (r:
    Result<Vec<Statement>, ErrorKind>)
    ensures
        ({
            let (s, m) = spec_param_statements(old(param_stack).view(), router_def.params@, prefix@);
            match r {
                Ok(stmts) => {
                    &&& s is Ok
                    &&& stmts@.len() >= router_def.params@.len()
                    &&& forall|i: int|
                        0 <= i < router_def.params@.len() ==> statement_view(#[trigger] stmts@[i])
                            == s->Ok_0[i]
                    &&& requests_cover(stmts@.skip(router_def.params@.len() as int), m)
                    &&& final(param_stack).view() == Map::<Seq<char>, TyV>::empty()
                },
                Err(e) => {
                    &&& s is Err
                    &&& missing_param(e, s->Err_0)
                    &&& final(param_stack).view() == m
                },
            }
        }),
        r matches Ok(stmts) ==> forall|i: int|
            0 <= i < router_def.params@.len() ==> binds_param(
                old(param_stack).view(),
                router_def.params@[i],
                i,
                prefix@,
                statement_view(#[trigger] stmts@[i]),
            ),
{
    let ghost params = router_def.params@;
    let ghost m0 = param_stack.view();
    let mut stmts: Vec<Statement> = Vec::new();
    let mut missing: Vec<String> = Vec::new();
    let mut i: usize = 0;
    proof {
        assert(names_of(missing@) =~= Seq::<Seq<char>>::empty());
    }
    while i < router_def.params.len()
        invariant
            0 <= i <= params.len(),
            params == router_def.params@,
            m0 == old(param_stack).view(),
            ({
                let (ss, miss, m) = spec_param_scan(m0, params.take(i as int), prefix@);
                &&& stmts@.len() == ss.len()
                &&& forall|j: int| 0 <= j < ss.len() ==> statement_view(#[trigger] stmts@[j]) == ss[j]
                &&& names_of(missing@) == miss
                &&& param_stack.view() == m
            }),
        decreases params.len() - i,
    {
        proof {
            assert(params.take(i + 1).drop_last() =~= params.take(i as int));
            assert(params.take(i + 1).last() == params[i as int]);
        }
        let param = &router_def.params[i];
        let name = param.name();
        let key = param_key(prefix, name);
        match param_stack.remove(&key) {
            Some(ty) => {
                let ty = ty.strip_lifetime_recursive().0;
                let st = match param {
                    Param::Single(_) => Statement::FromParam { index: i, ident: key, name: clone_name(name), ty },
                    Param::Many(_) => Statement::FromSegments { index: i, ident: key, name: clone_name(name), ty },
                };
                stmts.push(st);
            },
            None => {
                let ghost prev = spec_param_scan(m0, params.take(i as int), prefix@);
                proof {
                    assert(param_stack.view() =~= prev.2);
                }
                let ghost before = missing@;
                missing.push(clone_name(name));
                proof {
                    assert(names_of(missing@) =~= names_of(before).push(name@));
                }
            },
        }
        i = i + 1;
    }
    proof {
        assert(params.take(i as int) =~= params);
        law_param_statements_strip(m0, params, prefix@);
    }
    if missing.len() > 0 {
        return Err(ErrorKind::RouteParamNotFoundInFnInput(missing));
    }
    proof {
        lemma_param_scan_len(m0, params, prefix@);
    }
    let ghost m = param_stack.view();
    let ghost s_ok = spec_param_statements(m0, params, prefix@).0->Ok_0;
    let rest = param_stack.drain();
    let ghost n = stmts@.len();
    let mut j: usize = 0;
    while j < rest.len()
        invariant
            0 <= j <= rest@.len(),
            stmts@.len() == n + j,
            distinct_keys(rest@),
            entries_map(rest@) == m,
            n == params.len(),
            params == router_def.params@,
            m0 == old(param_stack).view(),
            m == spec_param_statements(m0, params, prefix@).1,
            spec_param_statements(m0, params, prefix@).0 is Ok,
            s_ok == spec_param_statements(m0, params, prefix@).0->Ok_0,
            param_stack.view() == Map::<Seq<char>, TyV>::empty(),
            forall|k: int| 0 <= k < n ==> statement_view(#[trigger] stmts@[k]) == s_ok[k],
            forall|k: int|
                0 <= k < j ==> #[trigger] stmts@[n + k] is FromRequest && stmts@[n + k]->FromRequest_ident@ == rest@[k].0@ && ty_view(
                    stmts@[n + k]->FromRequest_ty,
                ) == strip_ty(ty_view(rest@[k].1)),
        decreases rest@.len() - j,
    {
        let ty = rest[j].1.strip_lifetime_recursive().0;
        stmts.push(Statement::FromRequest { ident: clone_name(&rest[j].0), ty });
        j = j + 1;
    }
    proof {
        let reqs = stmts@.skip(n as int);
        assert forall|k: int| 0 <= k < reqs.len() implies #[trigger] reqs[k] is FromRequest && statement_ident(reqs[k]) == rest@[k].0@ by {
            assert(reqs[k] == stmts@[n + k]);
        }
        assert forall|k: int| 0 <= k < reqs.len() implies m.contains_key(statement_ident(#[trigger] reqs[k])) && ty_view(
            reqs[k]->FromRequest_ty,
        ) == strip_ty(m[statement_ident(reqs[k])]) by {
            assert(reqs[k] == stmts@[n + k]);
            lemma_key_index(rest@, k);
        }
        assert forall|x: Seq<char>| #[trigger] m.contains_key(x) implies exists|k: int|
            0 <= k < reqs.len() && statement_ident(#[trigger] reqs[k]) == x by {
            assert(has_key(rest@, x));
            let k = choose|k: int| 0 <= k < rest@.len() && rest@[k].0@ == x;
            assert(reqs[k] == stmts@[n + k]);
        }
        assert forall|a: int, b: int|
            0 <= a < reqs.len() && 0 <= b < reqs.len() && a != b implies statement_ident(reqs[a])
            != statement_ident(reqs[b]) by {
            assert(reqs[a] == stmts@[n + a]);
            assert(reqs[b] == stmts@[n + b]);
        }
    }
    Ok(stmts)
}

/// Going through the parameters gives one statement or one missing name per
/// parameter.
pub proof fn lemma_param_scan_len(stack: Map<Seq<char>, TyV>, params: Seq<Param>, prefix: Seq<char>)
    ensures
        spec_param_scan(stack, params, prefix).0.len() + spec_param_scan(stack, params, prefix).1.len()
            == params.len(),
    decreases params.len(),
{
    if params.len() > 0 {
        lemma_param_scan_len(stack, params.drop_last(), prefix);
    }
}

/// When the statements for the parameters are made, there is one per parameter.
pub proof fn lemma_param_statements_len(stack: Map<Seq<char>, TyV>, params: Seq<Param>, prefix: Seq<char>)
    requires
        spec_param_statements(stack, params, prefix).0 is Ok,
    ensures
        spec_param_statements(stack, params, prefix).0->Ok_0.len() == params.len(),
{
    lemma_param_scan_len(stack, params, prefix);
}

/// Whether `ty` is what a generated `let` gives the argument of type `orig`:
/// the same type with the lifetimes that stripping removes taken out, so that
/// it names no lifetime the generated handler does not declare.
pub open spec fn stripped_of(ty: TyV, orig: TyV) -> bool {
    &&& ty == strip_ty(orig)
    &&& same_but_lifetimes(ty, orig)
    &&& lifetimes_ty(ty) == Set::<Seq<char>>::empty()
}

/// Whether `s` is the statement for dynamic parameter `i`, `p`, of a route
/// whose handler's arguments (by name in generated code) are `stack`: a
/// `FromParam` for `<name>`, a `FromSegments` for `<name..>`, with the
/// parameter's index and name, binding the argument named after it with that
/// argument's type stripped of lifetimes.
pub open spec fn binds_param(stack: Map<Seq<char>, TyV>, p: Param, i: int, prefix: Seq<char>, s: StatementV) -> bool {
    let key = prefix + param_name(p);
    &&& stack.contains_key(key)
    &&& match s {
        StatementV::FromParam { index, ident, name, ty } => p is Single && index == i && ident == key && name
            == param_name(p) && stripped_of(ty, stack[key]),
        StatementV::FromSegments { index, ident, name, ty } => p is Many && index == i && ident == key
            && name == param_name(p) && stripped_of(ty, stack[key]),
        _ => false,
    }
}

proof fn lemma_scan_binds(stack: Map<Seq<char>, TyV>, params: Seq<Param>, prefix: Seq<char>)
    requires
        params.len() <= usize::MAX,
    ensures
        ({
            let (ss, miss, m) = spec_param_scan(stack, params, prefix);
            &&& forall|k: Seq<char>| #[trigger] m.contains_key(k) ==> stack.contains_key(k) && m[k] == stack[k]
            &&& miss.len() == 0 ==> ss.len() == params.len() && forall|i: int|
                0 <= i < params.len() ==> binds_param(stack, params[i], i, prefix, #[trigger] ss[i])
        }),
    decreases params.len(),
{
    if params.len() > 0 {
        let init = params.drop_last();
        lemma_scan_binds(stack, init, prefix);
        let (ss0, miss0, m0) = spec_param_scan(stack, init, prefix);
        let p = params.last();
        let key = prefix + param_name(p);
        let (ss, miss, m) = spec_param_scan(stack, params, prefix);
        if m0.contains_key(key) {
            law_strip_changes_only_lifetimes(stack[key]);
            assert(miss == miss0);
            assert(ss == ss0.push(ss.last()));
            if miss.len() == 0 {
                assert forall|i: int| 0 <= i < params.len() implies binds_param(stack, params[i], i, prefix, #[trigger] ss[i]) by {
                    if i < params.len() - 1 {
                        assert(init[i] == params[i]);
                        assert(ss[i] == ss0[i]);
                        assert(binds_param(stack, init[i], i, prefix, ss0[i]));
                    } else {
                        assert(i == params.len() - 1);
                        assert(params[i] == p);
                        assert(m0[key] == stack[key]);
                        assert(ss[i] == ss.last());
                    }
                }
            }
        }
    }
}

/// When the statements for the dynamic parameters are made, there is one per
/// parameter, in path order; each is a `FromParam` or `FromSegments` as the
/// parameter is `<name>` or `<name..>`, and binds the handler argument named
/// after the parameter with that argument's type stripped of lifetimes. (The
/// parameters are those of a vector, so their count fits in a `usize`.)
pub proof fn law_param_statements_strip(stack: Map<Seq<char>, TyV>, params: Seq<Param>, prefix: Seq<char>)
    requires
        params.len() <= usize::MAX,
    ensures
        spec_param_statements(stack, params, prefix).0 matches Ok(ss) ==> ss.len() == params.len() && forall|i: int|
            0 <= i < params.len() ==> binds_param(stack, params[i], i, prefix, #[trigger] ss[i]),
{
    lemma_scan_binds(stack, params, prefix);
}

/// The statement for a query or data parameter is a `FromForm` or a
/// `FromData` as the parameter is the query's or the body's, and binds the
/// handler argument named after the parameter with that argument's type
/// stripped of lifetimes; a parameter without such an argument is reported by
/// its name alone.
pub proof fn law_source_statement_strips(stack: Map<Seq<char>, TyV>, name: Seq<char>, prefix: Seq<char>, data: bool)
    ensures
        match spec_source_statement(stack, Some(name), prefix, data).0 {
            Ok(Some(st)) => stack.contains_key(prefix + name) && match st {
                StatementV::FromData { ident, ty } => data && ident == prefix + name && stripped_of(
                    ty,
                    stack[prefix + name],
                ),
                StatementV::FromForm { ident, ty } => !data && ident == prefix + name && stripped_of(
                    ty,
                    stack[prefix + name],
                ),
                _ => false,
            },
            Ok(None) => false,
            Err(names) => !stack.contains_key(prefix + name) && names == seq![name],
        },
{
    if stack.contains_key(prefix + name) {
        law_strip_changes_only_lifetimes(stack[prefix + name]);
    }
}

/// The views of the types of arguments.
pub open spec fn arg_tys_view(inputs: Seq<FnArg>) -> Seq<TyV> {
    inputs.map_values(|a: FnArg| ty_view(arg_ty(a)))
}

/// How many lifetimes the type of an argument leaves out (none for `self`).
pub open spec fn arg_elided(a: FnArg) -> nat {
    match a {
        FnArg::Captured(_, ty) => elided_ty(ty_view(ty)),
        FnArg::Ignored(ty) => elided_ty(ty_view(ty)),
        _ => 0,
    }
}

/// How many lifetimes the types of the arguments leave out.
pub open spec fn args_elided(inputs: Seq<FnArg>) -> nat
    decreases inputs.len(),
{
    if inputs.len() == 0 {
        0
    } else {
        args_elided(inputs.drop_last()) + arg_elided(inputs.last())
    }
}

/// The map that inserting the pairs `(names[i], tys[i])` in order into an
/// empty map makes: for a name given twice, the last type wins.
pub open spec fn pairs_map(names: Seq<Seq<char>>, tys: Seq<TyV>) -> Map<Seq<char>, TyV>
    decreases names.len(),
{
    if names.len() == 0 {
        Map::empty()
    } else {
        pairs_map(names.drop_last(), tys.drop_last()).insert(names.last(), tys.last())
    }
}

/// The data statement, the query statement and the path parameter
/// statements, each taking its argument out of `stack` in that order, with
/// the stack left afterwards; or the name of the first parameter that has no
/// argument.
pub open spec fn spec_route_statements(
    stack: Map<Seq<char>, TyV>,
    def: RouteDef,
    prefix: Seq<char>,
) -> Result<
    (Option<StatementV>, Option<StatementV>, Seq<StatementV>, Map<Seq<char>, TyV>),
    Seq<Seq<char>>,
> {
    let (d, m1) = spec_source_statement(stack, opt_name_view(def.data_param), prefix, true);
    match d {
        Err(n) => Err(n),
        Ok(dv) => {
            let (q, m2) = spec_source_statement(m1, opt_name_view(def.query_param), prefix, false);
            match q {
                Err(n) => Err(n),
                Ok(qv) => {
                    let (p, m3) = spec_param_statements(m2, def.params@, prefix);
                    match p {
                        Err(n) => Err(n),
                        Ok(pv) => Ok((dv, qv, pv, m3)),
                    }
                },
            }
        },
    }
}

/// The names of the handler's arguments, with their types, as a map.
pub open spec fn arg_map(inputs: Seq<FnArg>, prefix: Seq<char>) -> Map<Seq<char>, TyV> {
    pairs_map(spec_arg_names(inputs, prefix)->Ok_0, arg_tys_view(inputs))
}

/// Whether the lifetime pool of the handler has a name for each reference
/// that its argument types leave without a lifetime.
pub open spec fn enough_lifetimes(def: RouteDef) -> bool {
    match def.item.node {
        ItemKind::Fn(decl, generics) => args_elided(decl.inputs@) <= count_free(
            pool_names(),
            names_of(generics.lifetimes@).to_set(),
        ),
        _ => true,
    }
}

/// Whether decorating gets as far as filling in the lifetimes of the
/// argument types.
pub open spec fn reaches_lifetimes(def: RouteDef, prefix: Seq<char>) -> bool {
    match def.item.node {
        ItemKind::Fn(decl, generics) => spec_arg_names(decl.inputs@, prefix) is Ok
            && spec_route_statements(arg_map(decl.inputs@, prefix), def, prefix) is Ok,
        _ => false,
    }
}

/// Why decorating `def` fails: it is not a function; an argument has no
/// name; or a route parameter has no argument.
pub open spec fn route_error(def: RouteDef, prefix: Seq<char>, e: ErrorKind) -> bool {
    match def.item.node {
        ItemKind::Fn(decl, generics) => match spec_arg_names(decl.inputs@, prefix) {
            Err(e2) => e == e2,
            Ok(names) => {
                let st = spec_route_statements(arg_map(decl.inputs@, prefix), def, prefix);
                st is Err && missing_param(e, st->Err_0)
            },
        },
        _ => e == ErrorKind::ItemNotAFn,
    }
}

pub open spec fn opt_ty_view(o: Option<Ty>) -> Option<TyV> {
    match o {
        Some(t) => Some(ty_view(t)),
        None => None,
    }
}

/// The generated parts of a route besides the lifetimes: the handler's name
/// and the name its body is renamed to; its arguments by generated name and
/// type; the statements that produce the arguments; and the return type, if
/// one is written.
#[derive(Debug, PartialEq, Eq)]
pub struct RouteParts {
    pub fn_name: String,
    pub user_fn_name: String,
    pub input_names: Vec<String>,
    pub input_tys: Vec<Ty>,
    pub data_statement: Option<Statement>,
    pub query_statement: Option<Statement>,
    pub param_statements: Vec<Statement>,
    pub output: Option<Ty>,
}

/// The generated parts of a route: the parts above, the argument types with
/// every lifetime filled in, and the lifetimes added for that.
#[derive(Debug, PartialEq, Eq)]
pub struct RoutePlan {
    pub parts: RouteParts,
    pub impl_tys: Vec<Ty>,
    pub lifetimes: Vec<String>,
}

/// What decorating `def` gives besides the lifetimes.
pub open spec fn route_parts_spec(def: RouteDef, user_prefix: Seq<char>, prefix: Seq<char>, parts: RouteParts) -> bool {
    match def.item.node {
        ItemKind::Fn(decl, generics) => {
            let inputs = decl.inputs@;
            let st = spec_route_statements(arg_map(inputs, prefix), def, prefix);
            let (dv, qv, pv, rest) = st->Ok_0;
            &&& parts.fn_name@ == def.item.ident@
            &&& parts.user_fn_name@ == user_prefix + def.item.ident@
            &&& spec_arg_names(inputs, prefix) == Ok::<Seq<Seq<char>>, ErrorKind>(names_of(parts.input_names@))
            &&& tys_view(parts.input_tys@) == arg_tys_view(inputs)
            &&& st is Ok
            &&& opt_statement_view(parts.data_statement) == dv
            &&& opt_statement_view(parts.query_statement) == qv
            &&& parts.param_statements@.len() >= pv.len()
            &&& forall|i: int| 0 <= i < pv.len() ==> statement_view(#[trigger] parts.param_statements@[i]) == pv[i]
            &&& requests_cover(parts.param_statements@.skip(pv.len() as int), rest)
            &&& opt_ty_view(parts.output) == opt_ty_view(decl.output)
        },
        _ => false,
    }
}

/// What decorating `def` gives.
pub open spec fn route_plan(def: RouteDef, user_prefix: Seq<char>, prefix: Seq<char>, plan: RoutePlan) -> bool {
    match def.item.node {
        ItemKind::Fn(decl, generics) => {
            let c = coalesce_tys(arg_tys_view(decl.inputs@), pool_names(), names_of(generics.lifetimes@).to_set());
            &&& route_parts_spec(def, user_prefix, prefix, plan.parts)
            &&& tys_view(plan.impl_tys@) == c.0
            &&& names_of(plan.lifetimes@) == c.2
        },
        _ => false,
    }
}

/// When the names of the arguments are given, every argument has a type,
/// and the lifetimes those types leave out are counted by [`args_elided`].
pub proof fn lemma_args_elided(inputs: Seq<FnArg>, prefix: Seq<char>)
    requires
        spec_arg_names(inputs, prefix) is Ok,
    ensures
        args_elided(inputs) == elided_tys(arg_tys_view(inputs)),
    decreases inputs.len(),
{
    if inputs.len() > 0 {
        lemma_args_elided(inputs.drop_last(), prefix);
        let v = arg_tys_view(inputs);
        assert(v.subrange(0, v.len() - 1) =~= arg_tys_view(inputs.drop_last()));
    }
}

/// Whether the lifetime pool of `def`'s handler can fill in every lifetime
/// its argument types leave out.
pub fn lifetime_pool_suffices(def: &RouteDef) -> (b: bool)
    ensures
        b == enough_lifetimes(*def),
{
    match &def.item.node {
        ItemKind::Fn(decl, generics) => {
            let pool = LifetimePool::new(&generics.lifetimes);
            let budget = pool.available();
            let ghost inputs = decl.inputs@;
            let mut left = budget;
            let mut i: usize = 0;
            while i < decl.inputs.len()
                invariant
                    0 <= i <= inputs.len(),
                    inputs == decl.inputs@,
                    def.item.node == ItemKind::Fn(*decl, *generics),
                    budget == count_free(pool_names(), names_of(generics.lifetimes@).to_set()),
                    args_elided(inputs.take(i as int)) <= budget,
                    left == budget - args_elided(inputs.take(i as int)),
                decreases inputs.len() - i,
            {
                proof {
                    assert(inputs.take(i + 1).drop_last() =~= inputs.take(i as int));
                    assert(inputs.take(i + 1).last() == inputs[i as int]);
                }
                let step = match &decl.inputs[i] {
                    FnArg::Captured(_, ty) => ty_budget(ty, left),
                    FnArg::Ignored(ty) => ty_budget(ty, left),
                    _ => Some(left),
                };
                match step {
                    Some(l) => {
                        left = l;
                    },
                    None => {
                        proof {
                            assert(args_elided(inputs.take(i + 1)) == args_elided(inputs.take(i as int))
                                + arg_elided(inputs[i as int]));
                            assert(arg_elided(inputs[i as int]) > left);
                            lemma_args_elided_prefix(inputs, i + 1);
                        }
                        return false;
                    },
                }
                i = i + 1;
            }
            proof {
                assert(inputs.take(i as int) =~= inputs);
            }
            true
        },
        _ => true,
    }
}

pub proof fn lemma_args_elided_prefix(inputs: Seq<FnArg>, k: int)
    requires
        0 <= k <= inputs.len(),
    ensures
        args_elided(inputs.take(k)) <= args_elided(inputs),
    decreases inputs.len(),
{
    if k < inputs.len() {
        assert(inputs.drop_last().take(k) =~= inputs.take(k));
        lemma_args_elided_prefix(inputs.drop_last(), k);
    } else {
        assert(inputs.take(k) =~= inputs);
    }
}

fn clone_opt_ty(o: &Option<Ty>) -> (r: Option<Ty>)
    ensures
        opt_ty_view(r) == opt_ty_view(*o),
{
    match o {
        Some(t) => Some(clone_ty(t)),
        None => None,
    }
}

/// Decides the generated parts of the route `router_def` other than the
/// lifetimes: its handler is renamed to `user_fn_prefix` and its name; its
/// arguments are named `param_prefix` and their names (or positions); and
/// each gets a statement that produces it.
pub fn route_parts(router_def: &RouteDef, user_fn_prefix: &str, param_prefix: &str) -> (r: Result<RouteParts, ErrorKind>)
    ensures
        r is Ok <==> reaches_lifetimes(*router_def, param_prefix@),
        match r {
            Ok(parts) => route_parts_spec(*router_def, user_fn_prefix@, param_prefix@, parts),
            Err(e) => route_error(*router_def, param_prefix@, e),
        },
{
    let _generics = router_def.item.fn_generics()?;
    let fn_decl = router_def.item.fn_decl()?;
    let ghost inputs = fn_decl.inputs@;
    let output = clone_opt_ty(&fn_decl.output);
    let (input_names, input_tys, _input_idx) = fn_decl.arg_triple(param_prefix)?;
    proof {
        lemma_tys_view(input_tys@);
        assert(tys_view(input_tys@) =~= arg_tys_view(inputs));
        lemma_arg_names_len(inputs, param_prefix@);
    }
    let mut param_stack = ParamStack::new();
    let mut i: usize = 0;
    proof {
        assert(names_of(input_names@).take(0) =~= Seq::<Seq<char>>::empty());
    }
    while i < input_names.len()
        invariant
            0 <= i <= input_names@.len(),
            input_tys@.len() == input_names@.len(),
            param_stack.view() == pairs_map(
                names_of(input_names@).take(i as int),
                tys_view(input_tys@).take(i as int),
            ),
            tys_view(input_tys@).len() == input_tys@.len(),
            forall|j: int| 0 <= j < input_tys@.len() ==> #[trigger] tys_view(input_tys@)[j] == ty_view(input_tys@[j]),
        decreases input_names@.len() - i,
    {
        proof {
            assert(names_of(input_names@).take(i + 1).drop_last() =~= names_of(input_names@).take(i as int));
            assert(tys_view(input_tys@).take(i + 1).drop_last() =~= tys_view(input_tys@).take(i as int));
        }
        param_stack.insert(clone_name(&input_names[i]), clone_ty(&input_tys[i]));
        i = i + 1;
    }
    proof {
        assert(names_of(input_names@).take(i as int) =~= names_of(input_names@));
        assert(tys_view(input_tys@).take(i as int) =~= tys_view(input_tys@));
    }
    let data_statement = generate_data_statement(&mut param_stack, router_def, param_prefix)?;
    let query_statement = generate_query_statement(&mut param_stack, router_def, param_prefix)?;
    let param_statements = generate_param_statements(&mut param_stack, router_def, param_prefix)?;
    let fn_name = clone_name(&router_def.item.ident);
    let user_fn_name = user_fn_prefix.to_owned().concat(fn_name.as_str());
    proof {
        let m0 = arg_map(inputs, param_prefix@);
        assert(m0 == pairs_map(names_of(input_names@), tys_view(input_tys@)));
        let st = spec_route_statements(m0, *router_def, param_prefix@);
        assert(st is Ok);
        let m1 = spec_source_statement(m0, opt_name_view(router_def.data_param), param_prefix@, true).1;
        let m2 = spec_source_statement(m1, opt_name_view(router_def.query_param), param_prefix@, false).1;
        lemma_param_statements_len(m2, router_def.params@, param_prefix@);
        assert(param_statements@.len() >= st->Ok_0.2.len());
        assert(requests_cover(param_statements@.skip(st->Ok_0.2.len() as int), st->Ok_0.3));
    }
    Ok(RouteParts {
        fn_name,
        user_fn_name,
        input_names,
        input_tys,
        data_statement,
        query_statement,
        param_statements,
        output,
    })
}

/// Decides the generated parts of the route `router_def`, as
/// [`route_parts`] does, and fills in the lifetimes left out of the argument
/// types from the handler's lifetime pool, which must hold enough names.
pub fn generic_route_decorator(router_def: &RouteDef, user_fn_prefix: &str, param_prefix: &str) -> (r: Result<RoutePlan, ErrorKind>)
    requires
        reaches_lifetimes(*router_def, param_prefix@) ==> enough_lifetimes(*router_def),
    ensures
        match r {
            Ok(plan) => route_plan(*router_def, user_fn_prefix@, param_prefix@, plan),
            Err(e) => route_error(*router_def, param_prefix@, e),
        },
        r matches Ok(plan) ==> {
            &&& names_of(plan.lifetimes@).no_duplicates()
            &&& router_def.item.node matches ItemKind::Fn(_, generics) && forall|i: int|
                0 <= i < plan.lifetimes@.len() ==> !names_of(generics.lifetimes@).contains(
                    #[trigger] plan.lifetimes@[i]@,
                )
        },
{
    let parts = route_parts(router_def, user_fn_prefix, param_prefix)?;
    let generics = router_def.item.fn_generics()?;
    let fn_decl = router_def.item.fn_decl()?;
    let ghost inputs = fn_decl.inputs@;
    let mut lifetime_pool = LifetimePool::new(&generics.lifetimes);
    proof {
        lemma_args_elided(inputs, param_prefix@);
    }
    let impl_tys = coalesce_tys_from(&parts.input_tys, &mut lifetime_pool);
    proof {
        law_pool_names_fresh(lifetime_pool);
    }
    let ghost occupied = lifetime_pool.occupied_names();
    let lifetimes = lifetime_pool.into_used();
    proof {
        assert forall|i: int| 0 <= i < lifetimes@.len() implies !names_of(generics.lifetimes@).contains(
            #[trigger] lifetimes@[i]@) by {
            assert(names_of(lifetimes@)[i] == lifetimes@[i]@);
            assert(!occupied.contains(names_of(lifetimes@)[i]));
            if names_of(generics.lifetimes@).contains(lifetimes@[i]@) {
                assert(names_of(generics.lifetimes@).to_set().contains(lifetimes@[i]@));
            }
        }
        assert(names_of(lifetimes@) =~= Seq::<Seq<char>>::empty() + coalesce_tys(
            arg_tys_view(inputs), pool_names(), names_of(generics.lifetimes@).to_set()).2);
    }
    Ok(RoutePlan { parts, impl_tys, lifetimes })
}

pub open spec fn sv_ident(s: StatementV) -> Seq<char> {
    match s {
        StatementV::FromParam { ident, .. } => ident,
        StatementV::FromSegments { ident, .. } => ident,
        StatementV::FromForm { ident, .. } => ident,
        StatementV::FromData { ident, .. } => ident,
        StatementV::FromRequest { ident, .. } => ident,
    }
}

/// All the statements of a route, in the order they are generated: the
/// path parameters and request arguments, then the query, then the data.
pub open spec fn plan_statements(plan: RouteParts) -> Seq<Statement> {
    plan.param_statements@ + match plan.query_statement {
        Some(q) => seq![q],
        None => Seq::empty(),
    } + match plan.data_statement {
        Some(d) => seq![d],
        None => Seq::empty(),
    }
}

proof fn lemma_pairs_map_dom(names: Seq<Seq<char>>, tys: Seq<TyV>)
    requires
        names.len() == tys.len(),
    ensures
        forall|k: Seq<char>| #[trigger] pairs_map(names, tys).contains_key(k) <==> names.contains(k),
    decreases names.len(),
{
    if names.len() > 0 {
        lemma_pairs_map_dom(names.drop_last(), tys.drop_last());
        assert forall|k: Seq<char>| #[trigger] pairs_map(names, tys).contains_key(k) <==> names.contains(k) by {
            assert(pairs_map(names.drop_last(), tys.drop_last()).contains_key(k) <==> names.drop_last().contains(k));
            if names.drop_last().contains(k) {
                let i = choose|i: int| 0 <= i < names.drop_last().len() && names.drop_last()[i] == k;
                assert(names[i] == k);
            }
            if names.contains(k) && k != names.last() {
                let i = choose|i: int| 0 <= i < names.len() && names[i] == k;
                assert(names.drop_last()[i] == k);
            }
            if k == names.last() {
                assert(names[names.len() - 1] == k);
            }
        }
    }
}

proof fn lemma_param_scan_keys(stack: Map<Seq<char>, TyV>, params: Seq<Param>, prefix: Seq<char>)
    ensures
        ({
            let (ss, missing, m) = spec_param_scan(stack, params, prefix);
            &&& forall|i: int| 0 <= i < ss.len() ==> !m.contains_key(sv_ident(#[trigger] ss[i]))
            &&& forall|i: int| 0 <= i < ss.len() ==> stack.contains_key(sv_ident(#[trigger] ss[i]))
            &&& forall|i: int, j: int| 0 <= i < j < ss.len() ==> sv_ident(ss[i]) != sv_ident(ss[j])
            &&& forall|k: Seq<char>| #[trigger] stack.contains_key(k) <==> (m.contains_key(k) || exists|i: int|
                0 <= i < ss.len() && sv_ident(ss[i]) == k)
        }),
    decreases params.len(),
{
    if params.len() > 0 {
        lemma_param_scan_keys(stack, params.drop_last(), prefix);
        let (ss0, miss0, m0) = spec_param_scan(stack, params.drop_last(), prefix);
        let (ss, miss, m) = spec_param_scan(stack, params, prefix);
        let key = prefix + param_name(params.last());
        if m0.contains_key(key) {
            assert(ss.len() == ss0.len() + 1);
            assert(forall|i: int| 0 <= i < ss0.len() ==> ss[i] == ss0[i]);
            assert(sv_ident(ss[ss0.len() as int]) == key);
            assert forall|k: Seq<char>| #[trigger] stack.contains_key(k) <==> (m.contains_key(k) || exists|i: int|
                0 <= i < ss.len() && sv_ident(ss[i]) == k) by {
                if stack.contains_key(k) && !m.contains_key(k) {
                    if k == key {
                        assert(sv_ident(ss[ss0.len() as int]) == k);
                    } else {
                        let i = choose|i: int| 0 <= i < ss0.len() && sv_ident(ss0[i]) == k;
                        assert(sv_ident(ss[i]) == k);
                    }
                }
                if exists|i: int| 0 <= i < ss.len() && sv_ident(ss[i]) == k {
                    let i = choose|i: int| 0 <= i < ss.len() && sv_ident(ss[i]) == k;
                    if i < ss0.len() {
                        assert(sv_ident(ss0[i]) == k);
                    }
                }
            }
        }
    }
}

/// Every argument of a route's handler is bound by exactly one generated
/// statement: no two statements bind the same name, and the names bound are
/// the names of the arguments.
pub proof fn law_route_binds_each_argument_once(
    def: RouteDef,
    user_prefix: Seq<char>,
    prefix: Seq<char>,
    plan: RouteParts,
)
    requires
        route_parts_spec(def, user_prefix, prefix, plan),
    ensures
        forall|i: int, j: int|
            0 <= i < j < plan_statements(plan).len() ==> statement_ident(plan_statements(plan)[i])
                != statement_ident(plan_statements(plan)[j]),
        forall|k: Seq<char>|
            names_of(plan.input_names@).contains(k) <==> exists|i: int|
                0 <= i < plan_statements(plan).len() && statement_ident(plan_statements(plan)[i]) == k,
{
    let (decl, generics) = match def.item.node {
        ItemKind::Fn(decl, generics) => (decl, generics),
        _ => arbitrary(),
    };
    let inputs = decl.inputs@;
    let names = names_of(plan.input_names@);
    lemma_arg_names_len(inputs, prefix);
    let m0 = arg_map(inputs, prefix);
    lemma_pairs_map_dom(names, arg_tys_view(inputs));
    let (d, m1) = spec_source_statement(m0, opt_name_view(def.data_param), prefix, true);
    let (q, m2) = spec_source_statement(m1, opt_name_view(def.query_param), prefix, false);
    let (p, m3) = spec_param_statements(m2, def.params@, prefix);
    lemma_param_scan_keys(m2, def.params@, prefix);
    lemma_param_statements_len(m2, def.params@, prefix);
    let pv = p->Ok_0;
    let ps = plan.param_statements@;
    let reqs = ps.skip(pv.len() as int);
    let all = plan_statements(plan);
    let nq: int = if plan.query_statement is Some { 1 } else { 0 };
    assert forall|i: int| 0 <= i < ps.len() implies all[i] == ps[i] by {}
    assert forall|i: int| 0 <= i < pv.len() implies statement_ident(#[trigger] ps[i]) == sv_ident(pv[i]) by {
        assert(statement_view(ps[i]) == pv[i]);
    }
    assert forall|i: int| 0 <= i < reqs.len() implies #[trigger] ps[pv.len() + i] == reqs[i] by {}
    // the layers of the stack: m0 holds m1 holds m2 holds m3
    let dname = if plan.data_statement is Some { statement_ident(plan.data_statement->Some_0) } else { arbitrary() };
    let qname = if plan.query_statement is Some { statement_ident(plan.query_statement->Some_0) } else { arbitrary() };
    assert(plan.data_statement is Some ==> m0.contains_key(dname) && !m1.contains_key(dname));
    assert(plan.data_statement is None ==> m1 == m0);
    assert(forall|x: Seq<char>| #[trigger] m1.contains_key(x) ==> m0.contains_key(x));
    assert(forall|x: Seq<char>| #[trigger] m0.contains_key(x) ==> m1.contains_key(x) || (plan.data_statement is Some && x == dname));
    assert(plan.query_statement is Some ==> m1.contains_key(qname) && !m2.contains_key(qname));
    assert(forall|x: Seq<char>| #[trigger] m2.contains_key(x) ==> m1.contains_key(x));
    assert(forall|x: Seq<char>| #[trigger] m1.contains_key(x) ==> m2.contains_key(x) || (plan.query_statement is Some && x == qname));
    assert(forall|x: Seq<char>| #[trigger] m3.contains_key(x) ==> m2.contains_key(x));
    assert(forall|b: int| 0 <= b < reqs.len() ==> m3.contains_key(statement_ident(#[trigger] reqs[b])));
    assert forall|i: int, j: int|
        0 <= i < j < all.len() implies statement_ident(all[i]) != statement_ident(all[j]) by {
        if j < pv.len() {
        } else if j < ps.len() {
            let b = j - pv.len();
            assert(reqs[b] == ps[j]);
            assert(m3.contains_key(statement_ident(reqs[b])));
            if i >= pv.len() {
                assert(reqs[i - pv.len()] == ps[i]);
            }
        } else if j == ps.len() && nq == 1 {
            let qs = plan.query_statement->Some_0;
            assert(all[j] == qs);
            assert(statement_ident(qs) == sv_ident(q->Ok_0->Some_0));
            assert(!m2.contains_key(statement_ident(qs)));
            if i >= pv.len() {
                assert(reqs[i - pv.len()] == ps[i]);
                assert(m3.contains_key(statement_ident(reqs[i - pv.len()])));
            } else {
                assert(m2.contains_key(sv_ident(pv[i])));
            }
        } else {
            let ds = plan.data_statement->Some_0;
            assert(all[j] == ds);
            assert(statement_ident(ds) == sv_ident(d->Ok_0->Some_0));
            assert(!m1.contains_key(statement_ident(ds)));
            if i < pv.len() {
                assert(m2.contains_key(sv_ident(pv[i])));
            } else if i < ps.len() {
                assert(reqs[i - pv.len()] == ps[i]);
                assert(m3.contains_key(statement_ident(reqs[i - pv.len()])));
            } else {
                assert(all[i] == plan.query_statement->Some_0);
            }
        }
    }
    assert forall|k: Seq<char>|
        names.contains(k) <==> exists|i: int| 0 <= i < all.len() && statement_ident(all[i]) == k by {
        if names.contains(k) {
            assert(m0.contains_key(k));
            if plan.data_statement is Some && statement_ident(plan.data_statement->Some_0) == k {
                assert(all[all.len() - 1] == plan.data_statement->Some_0);
            } else if plan.query_statement is Some && statement_ident(plan.query_statement->Some_0) == k {
                assert(all[ps.len() as int] == plan.query_statement->Some_0);
            } else {
                assert(m2.contains_key(k));
                if m3.contains_key(k) {
                    let b = choose|b: int| 0 <= b < reqs.len() && statement_ident(#[trigger] reqs[b]) == k;
                    assert(all[pv.len() + b] == reqs[b]);
                } else {
                    let i = choose|i: int| 0 <= i < pv.len() && sv_ident(pv[i]) == k;
                    assert(all[i] == ps[i]);
                }
            }
        }
        if exists|i: int| 0 <= i < all.len() && statement_ident(all[i]) == k {
            let i = choose|i: int| 0 <= i < all.len() && statement_ident(all[i]) == k;
            if i < pv.len() {
                assert(m2.contains_key(sv_ident(pv[i])));
            } else if i < ps.len() {
                assert(reqs[i - pv.len()] == ps[i]);
                assert(m3.contains_key(statement_ident(reqs[i - pv.len()])));
            } else if i == ps.len() && nq == 1 {
                assert(all[i] == plan.query_statement->Some_0);
            } else {
                assert(all[i] == plan.data_statement->Some_0);
            }
            assert(m0.contains_key(k));
        }
    }
}

} // verus!
