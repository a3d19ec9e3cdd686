use rocket_macro::ast::{
    AngleBracketedParameterData, Expr, FnArg, FnDecl, Generics, Item, ItemKind, Lit, Pat, Path,
    PathParameters, PathSegment, Ty,
};
use rocket_macro::catcher::{error_decorator, CatcherPlan};
use rocket_macro::errors::ErrorKind;

const USER: &str = "rocket_user_fn_";

fn s(x: &str) -> String {
    x.to_string()
}

fn simple(name: &str) -> Ty {
    Ty::Path {
        qself: None,
        path: Path {
            global: false,
            segments: vec![PathSegment {
                ident: s(name),
                parameters: PathParameters::AngleBracketed(AngleBracketedParameterData {
                    lifetimes: vec![],
                    types: vec![],
                    bindings: vec![],
                }),
            }],
        },
    }
}

fn rptr(lt: Option<&str>, ty: Ty) -> Ty {
    Ty::Rptr { lifetime: lt.map(s), mutable: false, ty: Box::new(ty) }
}

fn arg(name: &str, ty: Ty) -> FnArg {
    FnArg::Captured(Pat::Ident(s(name)), ty)
}

fn catcher(name: &str, inputs: Vec<FnArg>, output: Option<Ty>) -> Item {
    Item { ident: s(name), node: ItemKind::Fn(FnDecl { inputs, output }, Generics { lifetimes: vec![s("'a")] }) }
}

fn decorate(args: &Option<Expr>, item: Item) -> Result<CatcherPlan, ErrorKind> {
    error_decorator(args, &Some(item), USER).unwrap()
}

fn code(c: u64) -> Option<Expr> {
    Some(Expr::Paren(Box::new(Expr::Lit(Lit::Int(c)))))
}

#[test]
fn error_handlers() {
    let out = Some(rptr(Some("'static"), simple("str")));
    let err0 = decorate(&code(404), catcher("err0", vec![], Some(rptr(Some("'static"), simple("str"))))).unwrap();
    assert_eq!(err0.output, out);
    assert_eq!(err0.code, 404);
    assert_eq!(err0.fn_name, "err0");
    assert_eq!(err0.user_fn_name, "rocket_user_fn_err0");
    assert!(err0.arg_names.is_empty());

    let err1a = decorate(&code(404), catcher("err1a", vec![arg("_err", simple("Error"))], None)).unwrap();
    assert_eq!(err1a.arg_names, vec![s("_error")]);
    assert_eq!(err1a.input_tys, vec![simple("Error")]);

    let req = rptr(None, simple("Request"));
    let err1b = decorate(&code(404), catcher("err1b", vec![arg("_req", rptr(None, simple("Request")))], None)).unwrap();
    assert_eq!(err1b.arg_names, vec![s("_request")]);
    assert_eq!(err1b.input_tys, vec![req]);

    let err2b = decorate(&code(404), catcher(
            "err2b",
            vec![arg("_err", simple("Error")), FnArg::Ignored(rptr(Some("'a"), simple("Request")))],
            Some(rptr(Some("'a"), simple("str"))),
        ))
    .unwrap();
    assert_eq!(err2b.arg_names, vec![s("_error"), s("_request")]);
    assert_eq!(err2b.output, Some(rptr(Some("'a"), simple("str"))));
}

#[test]
fn bad_error_fn() {
    let three = catcher(
        "err_a",
        vec![arg("_a", simple("Error")), arg("_b", simple("Request")), arg("_c", simple("Error"))],
        None,
    );
    assert_eq!(decorate(&code(404), three).err(), Some(ErrorKind::ErrorHandleTooMuchParam));
    let tuple = catcher("err_b", vec![arg("_a", Ty::Other(s("(isize, usize)")))], None);
    assert_eq!(decorate(&code(404), tuple).err(), Some(ErrorKind::ErrorHandleUnexpectedParam));
    let with_self = catcher("err_c", vec![FnArg::SelfValue], None);
    assert_eq!(decorate(&code(404), with_self).err(), Some(ErrorKind::ErrorHandleContainSelf));
}

#[test]
fn bad_catcher_attributes() {
    let f = || catcher("e", vec![], None);
    assert_eq!(decorate(&None, f()).err(), Some(ErrorKind::ErrorParamNumNotCorrect));
    let two = Some(Expr::Tup(vec![Expr::Lit(Lit::Int(1)), Expr::Lit(Lit::Int(2))]));
    assert_eq!(decorate(&two, f()).err(), Some(ErrorKind::ErrorParamNumNotCorrect));
    let name = Some(Expr::Paren(Box::new(Expr::Path(vec![s("NOT_FOUND")]))));
    assert_eq!(decorate(&name, f()).err(), Some(ErrorKind::ErrorCodeNotInteger));
    let text = Some(Expr::Paren(Box::new(Expr::Lit(Lit::Str(s("404"))))));
    assert_eq!(decorate(&text, f()).err(), Some(ErrorKind::LitNotAnISize));
    let not_fn = Item { ident: s("C"), node: ItemKind::Other };
    assert_eq!(decorate(&code(404), not_fn).err(), Some(ErrorKind::ItemNotAFn));
    // the attribute is checked before the item
    let not_fn = Item { ident: s("C"), node: ItemKind::Other };
    assert_eq!(decorate(&None, not_fn).err(), Some(ErrorKind::ErrorParamNumNotCorrect));
}

#[test]
fn status_code_wraps_to_sixteen_bits() {
    let f = || catcher("e", vec![], None);
    assert_eq!(decorate(&code(70000), f()).unwrap().code, 4464);
    assert_eq!(decorate(&code(u64::MAX), f()).unwrap().code, 65535);
    assert_eq!(decorate(&code(500), f()).unwrap().code, 500);
}

#[test]
fn unreadable_item() {
    // the attribute's error comes first; with a right attribute there is no answer
    assert_eq!(error_decorator(&None, &None, USER), Some(Err(ErrorKind::ErrorParamNumNotCorrect)));
    let name = Some(Expr::Paren(Box::new(Expr::Path(vec![s("NOT_FOUND")]))));
    assert_eq!(error_decorator(&name, &None, USER), Some(Err(ErrorKind::ErrorCodeNotInteger)));
    assert_eq!(error_decorator(&code(404), &None, USER), None);
}
