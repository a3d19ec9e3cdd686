use rocket_macro::ast::{
    AngleBracketedParameterData, Expr, FnArg, FnDecl, Generics, Item, ItemKind, Lit, Pat, Path,
    PathParameters, PathSegment, Ty,
};
use rocket_macro::errors::ErrorKind;
use rocket_macro::syn_ext::decimal_string;

fn s(x: &str) -> String {
    x.to_string()
}

fn simple(name: &str) -> Ty {
    Ty::Path {
        qself: None,
        path: Path {
            global: false,
            segments: vec![PathSegment {
                ident: s(name),
                parameters: PathParameters::AngleBracketed(AngleBracketedParameterData {
                    lifetimes: vec![],
                    types: vec![],
                    bindings: vec![],
                }),
            }],
        },
    }
}

fn ident_expr(name: &str) -> Expr {
    Expr::Path(vec![s(name)])
}

#[test]
fn decimal_numerals() {
    assert_eq!(decimal_string(0), "0");
    assert_eq!(decimal_string(7), "7");
    assert_eq!(decimal_string(10), "10");
    assert_eq!(decimal_string(4096), "4096");
    assert_eq!(decimal_string(usize::MAX), usize::MAX.to_string());
}

#[test]
fn expr_path_string() {
    assert_eq!(ident_expr("rank").path_string(), Ok(s("rank")));
    assert_eq!(Expr::Path(vec![s("a"), s("b")]).path_string(), Err(ErrorKind::PathMultipleSegments));
    assert_eq!(Expr::Lit(Lit::Int(1)).path_string(), Err(ErrorKind::ExprNotAPath));
}

#[test]
fn pat_strings() {
    assert_eq!(Pat::Ident(s("todo")).ident_string(), Ok(s("todo")));
    assert_eq!(Pat::Other(s("_")).ident_string(), Err(ErrorKind::PatNotAPath));
    assert_eq!(Pat::Path(vec![s("None")]).path_string(), Ok(s("None")));
    assert_eq!(Pat::Path(vec![s("a"), s("B")]).path_string(), Err(ErrorKind::PathMultipleSegments));
    assert_eq!(Pat::Ident(s("x")).path_string(), Err(ErrorKind::PatNotAPath));
}

#[test]
fn expr_lit_string() {
    assert_eq!(Expr::Lit(Lit::Str(s("/hello"))).lit_string(), Ok(s("/hello")));
    assert_eq!(Expr::Lit(Lit::Int(1)).lit_string(), Err(ErrorKind::ExprNotALit));
}

#[test]
fn expr_kv() {
    let e = Expr::Assign(Box::new(ident_expr("rank")), Box::new(Expr::Lit(Lit::Int(2))));
    let (k, v) = e.kv().unwrap();
    assert_eq!(k, "rank");
    assert_eq!(*v, Lit::Int(2));
    let bad_value = Expr::Assign(Box::new(ident_expr("rank")), Box::new(ident_expr("x")));
    assert_eq!(bad_value.kv().err(), Some(ErrorKind::AssignValueInvalid));
    let bad_key = Expr::Assign(Box::new(Expr::Lit(Lit::Int(1))), Box::new(Expr::Lit(Lit::Int(2))));
    assert_eq!(bad_key.kv().err(), Some(ErrorKind::ExprNotAPath));
    assert_eq!(ident_expr("x").kv().err(), Some(ErrorKind::ExprNotAAssign));
}

#[test]
fn expr_tuple_items() {
    let t = Expr::Tup(vec![ident_expr("GET"), Expr::Lit(Lit::Str(s("/")))]);
    let items = t.tup_items().unwrap();
    assert_eq!(items.len(), 2);
    assert_eq!(*items[0], ident_expr("GET"));
    assert_eq!(t.tup_len(), Ok(2));
    let p = Expr::Paren(Box::new(Expr::Lit(Lit::Int(404))));
    assert_eq!(p.tup_len(), Ok(1));
    assert_eq!(*p.tup_items().unwrap()[0], Expr::Lit(Lit::Int(404)));
    assert_eq!(ident_expr("x").tup_len(), Err(ErrorKind::ExprNotATupOrParen));
    assert_eq!(ident_expr("x").tup_items().err(), Some(ErrorKind::ExprNotATupOrParen));
}

#[test]
fn lit_conversions() {
    assert_eq!(Lit::Int(404).as_isize(), Ok(404));
    assert_eq!(Lit::Int(u64::MAX).as_isize(), Ok(-1));
    assert_eq!(Lit::Str(s("a")).as_isize(), Err(ErrorKind::LitNotAnISize));
    assert_eq!(Lit::Str(s("text/html")).as_string(), Ok(s("text/html")));
    assert_eq!(Lit::Int(1).as_string(), Err(ErrorKind::LitNotAString));
}

#[test]
fn fn_arg_name_and_type() {
    let a = FnArg::Captured(Pat::Ident(s("one")), simple("usize"));
    assert_eq!(a.name(), Ok(s("one")));
    assert_eq!(a.ty(), Ok(&simple("usize")));
    let b = FnArg::Ignored(simple("u8"));
    assert_eq!(b.name(), Err(ErrorKind::FnArgHasNoName));
    assert_eq!(b.ty(), Ok(&simple("u8")));
    assert_eq!(FnArg::SelfRef.ty(), Err(ErrorKind::FnArgHasNoTy));
    assert_eq!(FnArg::SelfValue.name(), Err(ErrorKind::FnArgHasNoName));
}

fn decl(inputs: Vec<FnArg>) -> FnDecl {
    FnDecl { inputs, output: None }
}

#[test]
fn find_input_type_by_name() {
    let d = decl(vec![
        FnArg::Ignored(simple("A")),
        FnArg::Captured(Pat::Ident(s("x")), simple("B")),
        FnArg::Captured(Pat::Ident(s("x")), simple("C")),
    ]);
    assert_eq!(d.find_input_ty("x"), Some(&simple("B")));
    assert_eq!(d.find_input_ty("y"), None);
}

#[test]
fn argument_names() {
    let d = decl(vec![
        FnArg::Captured(Pat::Ident(s("a")), simple("A")),
        FnArg::Captured(Pat::Ident(s("b")), simple("B")),
    ]);
    assert_eq!(d.arg_names(), vec![s("a"), s("b")]);
}

#[test]
fn argument_triple_names_positions_and_types() {
    let d = decl(vec![
        FnArg::Captured(Pat::Ident(s("one")), simple("A")),
        FnArg::Ignored(simple("B")),
        FnArg::Captured(Pat::Ident(s("three")), simple("C")),
    ]);
    let (names, tys, idx) = d.arg_triple("p_").unwrap();
    assert_eq!(names, vec![s("p_one"), s("p_1"), s("p_three")]);
    assert_eq!(tys, vec![simple("A"), simple("B"), simple("C")]);
    assert_eq!(idx, vec![0, 1, 2]);
}

#[test]
fn argument_triple_refusals() {
    let wild = decl(vec![FnArg::Captured(Pat::Other(s("_")), simple("A"))]);
    assert_eq!(wild.arg_triple("p_").err(), Some(ErrorKind::PatNotAPath));
    let with_self = decl(vec![FnArg::Ignored(simple("A")), FnArg::SelfRef]);
    assert_eq!(with_self.arg_triple("p_").err(), Some(ErrorKind::FnParamContainSelf));
}

#[test]
fn item_parts() {
    let f = Item {
        ident: s("get"),
        node: ItemKind::Fn(decl(vec![]), Generics { lifetimes: vec![s("'a")] }),
    };
    assert_eq!(f.fn_decl(), Ok(&decl(vec![])));
    assert_eq!(f.fn_generics(), Ok(&Generics { lifetimes: vec![s("'a")] }));
    let t = Item { ident: s("C"), node: ItemKind::Other };
    assert_eq!(t.fn_decl().err(), Some(ErrorKind::ItemNotAFn));
    assert_eq!(t.fn_generics().err(), Some(ErrorKind::ItemNotAFn));
}
