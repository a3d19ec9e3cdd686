use rocket_macro::ast::{
    AngleBracketedParameterData, FnArg, FnDecl, Generics, Item, ItemKind, Pat, Path, PathParameters,
    PathSegment, Ty,
};
use rocket_macro::errors::ErrorKind;
use rocket_macro::param_stack::ParamStack;
use rocket_macro::route::{
    generate_data_statement, generate_param_statements, generate_query_statement,
    generic_route_decorator, lifetime_pool_suffices, route_parts, Param, RouteDef, Statement,
};

const USER: &str = "rocket_user_fn_";
const PARAM: &str = "rocket_param_";

fn s(x: &str) -> String {
    x.to_string()
}

fn simple(name: &str) -> Ty {
    Ty::Path {
        qself: None,
        path: Path {
            global: false,
            segments: vec![PathSegment {
                ident: s(name),
                parameters: PathParameters::AngleBracketed(AngleBracketedParameterData {
                    lifetimes: vec![],
                    types: vec![],
                    bindings: vec![],
                }),
            }],
        },
    }
}

fn rptr(lt: Option<&str>, ty: Ty) -> Ty {
    Ty::Rptr { lifetime: lt.map(s), mutable: false, ty: Box::new(ty) }
}

fn arg(name: &str, ty: Ty) -> FnArg {
    FnArg::Captured(Pat::Ident(s(name)), ty)
}

fn item(name: &str, lifetimes: &[&str], inputs: Vec<FnArg>, output: Option<Ty>) -> Item {
    Item {
        ident: s(name),
        node: ItemKind::Fn(
            FnDecl { inputs, output },
            Generics { lifetimes: lifetimes.iter().map(|l| s(l)).collect() },
        ),
    }
}

fn def(item: Item, params: Vec<Param>, query: Option<&str>, data: Option<&str>) -> RouteDef {
    RouteDef { item, params, query_param: query.map(s), data_param: data.map(s) }
}

fn single(n: &str) -> Param {
    Param::Single(s(n))
}

#[test]
fn dynamic_paths() {
    // #[get("/test/<one>/<two>/<three>")] fn get(one: &str, two: usize, three: isize) -> &'static str
    let d = def(
        item(
            "get",
            &[],
            vec![arg("one", rptr(None, simple("str"))), arg("two", simple("usize")), arg("three", simple("isize"))],
            Some(rptr(Some("'static"), simple("str"))),
        ),
        vec![single("one"), single("two"), single("three")],
        None,
        None,
    );
    assert!(lifetime_pool_suffices(&d));
    let plan = generic_route_decorator(&d, USER, PARAM).unwrap();
    assert_eq!(plan.parts.fn_name, "get");
    assert_eq!(plan.parts.user_fn_name, "rocket_user_fn_get");
    assert_eq!(plan.parts.input_names, vec![s("rocket_param_one"), s("rocket_param_two"), s("rocket_param_three")]);
    assert_eq!(
        plan.parts.param_statements,
        vec![
            Statement::FromParam { index: 0, ident: s("rocket_param_one"), name: s("one"), ty: rptr(None, simple("str")) },
            Statement::FromParam { index: 1, ident: s("rocket_param_two"), name: s("two"), ty: simple("usize") },
            Statement::FromParam { index: 2, ident: s("rocket_param_three"), name: s("three"), ty: simple("isize") },
        ]
    );
    assert_eq!(plan.parts.query_statement, None);
    assert_eq!(plan.parts.data_statement, None);
    assert_eq!(plan.impl_tys, vec![rptr(Some("'_z"), simple("str")), simple("usize"), simple("isize")]);
    assert_eq!(plan.lifetimes, vec![s("'_z")]);
    assert_eq!(plan.parts.output, Some(rptr(Some("'static"), simple("str"))));
}

#[test]
fn colliding_names() {
    // #[get("/<todo>")] fn todo(todo: &str) -> &str
    let d = def(
        item("todo", &[], vec![arg("todo", rptr(None, simple("str")))], Some(rptr(None, simple("str")))),
        vec![single("todo")],
        None,
        None,
    );
    let plan = generic_route_decorator(&d, USER, PARAM).unwrap();
    assert_eq!(plan.parts.user_fn_name, "rocket_user_fn_todo");
    assert_eq!(plan.parts.input_names, vec![s("rocket_param_todo")]);
    assert_eq!(
        plan.parts.param_statements,
        vec![Statement::FromParam { index: 0, ident: s("rocket_param_todo"), name: s("todo"), ty: rptr(None, simple("str")) }]
    );
}

#[test]
fn segments() {
    // #[post("/<a>/<b..>")] fn get(a: String, b: PathBuf) -> String
    let d = def(
        item("get", &[], vec![arg("a", simple("String")), arg("b", simple("PathBuf"))], Some(simple("String"))),
        vec![single("a"), Param::Many(s("b"))],
        None,
        None,
    );
    let plan = generic_route_decorator(&d, USER, PARAM).unwrap();
    assert_eq!(
        plan.parts.param_statements,
        vec![
            Statement::FromParam { index: 0, ident: s("rocket_param_a"), name: s("a"), ty: simple("String") },
            Statement::FromSegments { index: 1, ident: s("rocket_param_b"), name: s("b"), ty: simple("PathBuf") },
        ]
    );
    assert!(plan.lifetimes.is_empty());
}

#[test]
fn empty_fn() {
    // #[get("/")] fn get_empty() {}
    let d = def(item("get_empty", &[], vec![], None), vec![], None, None);
    let plan = generic_route_decorator(&d, USER, PARAM).unwrap();
    assert!(plan.parts.input_names.is_empty());
    assert!(plan.parts.param_statements.is_empty());
    assert_eq!(plan.parts.output, None);
}

#[test]
fn request_guards_query_and_data() {
    // #[post("/<id>?<q>", data = "<body>")] fn f<'a>(id: usize, cookies: &'a Cookies, q: Form, body: Data)
    let d = def(
        item(
            "f",
            &["'a"],
            vec![
                arg("id", simple("usize")),
                arg("cookies", rptr(Some("'a"), simple("Cookies"))),
                arg("q", simple("Form")),
                arg("body", simple("Data")),
            ],
            None,
        ),
        vec![single("id")],
        Some("q"),
        Some("body"),
    );
    let plan = generic_route_decorator(&d, USER, PARAM).unwrap();
    assert_eq!(
        plan.parts.param_statements,
        vec![
            Statement::FromParam { index: 0, ident: s("rocket_param_id"), name: s("id"), ty: simple("usize") },
            Statement::FromRequest { ident: s("rocket_param_cookies"), ty: rptr(None, simple("Cookies")) },
        ]
    );
    assert_eq!(plan.parts.query_statement, Some(Statement::FromForm { ident: s("rocket_param_q"), ty: simple("Form") }));
    assert_eq!(plan.parts.data_statement, Some(Statement::FromData { ident: s("rocket_param_body"), ty: simple("Data") }));
    assert_eq!(plan.impl_tys[1], rptr(Some("'a"), simple("Cookies")));
    assert!(plan.lifetimes.is_empty());
}

#[test]
fn unnamed_argument_is_named_by_position() {
    // fn f(_: &str) with no path parameters
    let d = def(
        item("f", &[], vec![FnArg::Ignored(rptr(None, simple("str")))], None),
        vec![],
        None,
        None,
    );
    let plan = generic_route_decorator(&d, USER, PARAM).unwrap();
    assert_eq!(plan.parts.input_names, vec![s("rocket_param_0")]);
    assert_eq!(plan.parts.param_statements, vec![Statement::FromRequest { ident: s("rocket_param_0"), ty: rptr(None, simple("str")) }]);
}

#[test]
fn ignored_params() {
    // #[get("/<name>")] fn get(other: &str)
    let d = def(item("get", &[], vec![arg("other", rptr(None, simple("str")))], None), vec![single("name")], None, None);
    assert_eq!(generic_route_decorator(&d, USER, PARAM).err(), Some(ErrorKind::RouteParamNotFoundInFnInput(vec![s("name")])));
    // #[get("/a?<r>")] fn get1()
    let d = def(item("get1", &[], vec![], None), vec![], Some("r"), None);
    assert_eq!(generic_route_decorator(&d, USER, PARAM).err(), Some(ErrorKind::RouteParamNotFoundInFnInput(vec![s("r")])));
    // #[post("/a", data = "<test>")] fn post()
    let d = def(item("post", &[], vec![], None), vec![], None, Some("test"));
    assert_eq!(generic_route_decorator(&d, USER, PARAM).err(), Some(ErrorKind::RouteParamNotFoundInFnInput(vec![s("test")])));
}

#[test]
fn phantom_declared_param() {
    // #[get("/a/b/c/<a>/<b>")] fn get32() {}
    let d = def(item("get32", &[], vec![], None), vec![single("a"), single("b")], None, None);
    assert_eq!(
        generic_route_decorator(&d, USER, PARAM).err(),
        Some(ErrorKind::RouteParamNotFoundInFnInput(vec![s("a"), s("b")]))
    );
    // #[get("/<param>")] fn get() {}
    let d = def(item("get", &[], vec![], None), vec![single("param")], None, None);
    assert_eq!(generic_route_decorator(&d, USER, PARAM).err(), Some(ErrorKind::RouteParamNotFoundInFnInput(vec![s("param")])));
}

#[test]
fn data_is_taken_before_the_path() {
    // the data parameter and a path parameter name the same argument
    let d = def(item("f", &[], vec![arg("x", simple("Data"))], None), vec![single("x")], None, Some("x"));
    assert_eq!(generic_route_decorator(&d, USER, PARAM).err(), Some(ErrorKind::RouteParamNotFoundInFnInput(vec![s("x")])));
}

#[test]
fn bad_ident_argument() {
    // #[get("/")] fn get(_: &str)
    let d = def(item("get", &[], vec![FnArg::Captured(Pat::Other(s("_")), rptr(None, simple("str")))], None), vec![], None, None);
    assert_eq!(generic_route_decorator(&d, USER, PARAM).err(), Some(ErrorKind::PatNotAPath));
}

#[test]
fn decorate_impl_or_trait() {
    let d = def(Item { ident: s("C"), node: ItemKind::Other }, vec![], None, None);
    assert_eq!(generic_route_decorator(&d, USER, PARAM).err(), Some(ErrorKind::ItemNotAFn));
}

#[test]
fn self_argument_is_refused() {
    let d = def(item("m", &[], vec![FnArg::SelfRef], None), vec![], None, None);
    assert_eq!(generic_route_decorator(&d, USER, PARAM).err(), Some(ErrorKind::FnParamContainSelf));
}

#[test]
fn too_many_elided_lifetimes() {
    let inputs: Vec<FnArg> = (0..27).map(|i| arg(&format!("a{}", i), rptr(None, simple("str")))).collect();
    let d = def(item("f", &[], inputs, None), vec![], None, None);
    assert!(!lifetime_pool_suffices(&d));
    let inputs: Vec<FnArg> = (0..26).map(|i| arg(&format!("a{}", i), rptr(None, simple("str")))).collect();
    let d = def(item("f", &[], inputs, None), vec![], None, None);
    assert!(lifetime_pool_suffices(&d));
    let plan = generic_route_decorator(&d, USER, PARAM).unwrap();
    assert_eq!(plan.lifetimes.len(), 26);
    assert_eq!(plan.lifetimes[25], "'_a");
}

#[test]
fn statements_one_by_one() {
    let mut stack = ParamStack::new();
    stack.insert(s("p_id"), simple("usize"));
    stack.insert(s("p_q"), rptr(Some("'r"), simple("str")));
    stack.insert(s("p_d"), simple("Data"));
    stack.insert(s("p_id"), simple("u8"));
    let d = def(item("f", &[], vec![], None), vec![single("id")], Some("q"), Some("d"));
    assert_eq!(generate_data_statement(&mut stack, &d, "p_"), Ok(Some(Statement::FromData { ident: s("p_d"), ty: simple("Data") })));
    assert_eq!(generate_query_statement(&mut stack, &d, "p_"), Ok(Some(Statement::FromForm { ident: s("p_q"), ty: rptr(None, simple("str")) })));
    assert_eq!(
        generate_param_statements(&mut stack, &d, "p_"),
        Ok(vec![Statement::FromParam { index: 0, ident: s("p_id"), name: s("id"), ty: simple("u8") }])
    );
    assert!(stack.drain().is_empty());
    let none = def(item("f", &[], vec![], None), vec![], None, None);
    assert_eq!(generate_query_statement(&mut stack, &none, "p_"), Ok(None));
    assert_eq!(generate_data_statement(&mut stack, &none, "p_"), Ok(None));
}

#[test]
fn param_stack_keeps_one_entry_per_name() {
    let mut stack = ParamStack::new();
    stack.insert(s("a"), simple("A"));
    stack.insert(s("b"), simple("B"));
    stack.insert(s("a"), simple("C"));
    assert_eq!(stack.remove(&s("a")), Some(simple("C")));
    assert_eq!(stack.remove(&s("a")), None);
    assert_eq!(stack.drain(), vec![(s("b"), simple("B"))]);
}

#[test]
fn parts_without_lifetimes() {
    let d = def(item("f", &[], vec![arg("x", rptr(None, simple("T")))], None), vec![single("x")], None, None);
    let parts = route_parts(&d, USER, PARAM).unwrap();
    assert_eq!(parts.param_statements, vec![Statement::FromParam { index: 0, ident: s("rocket_param_x"), name: s("x"), ty: rptr(None, simple("T")) }]);
    assert_eq!(parts.input_tys, vec![rptr(None, simple("T"))]);
    let bad = def(item("f", &[], vec![], None), vec![single("x")], None, None);
    assert_eq!(route_parts(&bad, USER, PARAM).err(), Some(ErrorKind::RouteParamNotFoundInFnInput(vec![s("x")])));
}

fn ident_of(s: &Statement) -> &String {
    match s {
        Statement::FromParam { ident, .. }
        | Statement::FromSegments { ident, .. }
        | Statement::FromForm { ident, .. }
        | Statement::FromData { ident, .. }
        | Statement::FromRequest { ident, .. } => ident,
    }
}

#[test]
fn every_argument_is_bound_once() {
    let d = def(
        item(
            "f",
            &[],
            vec![
                arg("a", simple("A")),
                arg("b", simple("B")),
                FnArg::Ignored(simple("C")),
                arg("d", simple("D")),
                arg("e", simple("E")),
                arg("g", simple("G")),
            ],
            None,
        ),
        vec![Param::Many(s("b")), single("a")],
        Some("d"),
        Some("e"),
    );
    let parts = route_parts(&d, USER, PARAM).unwrap();
    let mut bound: Vec<String> = parts.param_statements.iter().map(|s| ident_of(s).clone()).collect();
    bound.extend(parts.query_statement.iter().map(|s| ident_of(s).clone()));
    bound.extend(parts.data_statement.iter().map(|s| ident_of(s).clone()));
    let mut sorted = bound.clone();
    sorted.sort();
    sorted.dedup();
    assert_eq!(sorted.len(), bound.len());
    let mut names = parts.input_names.clone();
    names.sort();
    assert_eq!(sorted, names);
    assert_eq!(
        parts.param_statements[0],
        Statement::FromSegments { index: 0, ident: s("rocket_param_b"), name: s("b"), ty: simple("B") }
    );
    assert_eq!(parts.param_statements.len(), 4);
}

#[test]
fn added_lifetimes_avoid_the_handlers_own() {
    // fn f<'_z>(a: &str, b: &'_z str, c: Option<&u8>)
    let d = def(
        item(
            "f",
            &["'_z"],
            vec![
                arg("a", rptr(None, simple("str"))),
                arg("b", rptr(Some("'_z"), simple("str"))),
                arg("c", Ty::Path {
                    qself: None,
                    path: Path {
                        global: false,
                        segments: vec![PathSegment {
                            ident: s("Option"),
                            parameters: PathParameters::AngleBracketed(AngleBracketedParameterData {
                                lifetimes: vec![],
                                types: vec![rptr(None, simple("u8"))],
                                bindings: vec![],
                            }),
                        }],
                    },
                }),
            ],
            None,
        ),
        vec![],
        None,
        None,
    );
    let plan = generic_route_decorator(&d, USER, PARAM).unwrap();
    assert_eq!(plan.lifetimes, vec![s("'_y"), s("'_x")]);
    assert_eq!(plan.impl_tys[0], rptr(Some("'_y"), simple("str")));
    assert_eq!(plan.impl_tys[1], rptr(Some("'_z"), simple("str")));
}

#[test]
fn missing_and_repeated_path_params_are_all_reported() {
    // "/<x>/<a>/<x>/<b>" with fn f(x: T, b: U): 'a' is missing, the second 'x' finds its argument taken
    let mut stack = ParamStack::new();
    stack.insert(s("p_x"), simple("T"));
    stack.insert(s("p_b"), simple("U"));
    stack.insert(s("p_c"), simple("V"));
    let d = def(item("f", &[], vec![], None), vec![single("x"), single("a"), single("x"), single("b")], None, None);
    assert_eq!(
        generate_param_statements(&mut stack, &d, "p_"),
        Err(ErrorKind::RouteParamNotFoundInFnInput(vec![s("a"), s("x")]))
    );
    // the arguments the path did not take stay on the stack
    assert_eq!(stack.drain(), vec![(s("p_c"), simple("V"))]);
}
