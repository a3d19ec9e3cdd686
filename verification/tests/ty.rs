use rocket_macro::ast::{
    AngleBracketedParameterData, ParenthesizedParameterData, Path, PathParameters, PathSegment, Ty,
};
use rocket_macro::lifetime_pool::LifetimePool;

fn s(x: &str) -> String {
    x.to_string()
}

fn rptr(lt: Option<&str>, ty: Ty) -> Ty {
    Ty::Rptr { lifetime: lt.map(s), mutable: false, ty: Box::new(ty) }
}

fn angle(name: &str, lifetimes: &[&str], types: Vec<Ty>) -> PathSegment {
    PathSegment {
        ident: s(name),
        parameters: PathParameters::AngleBracketed(AngleBracketedParameterData {
            lifetimes: lifetimes.iter().map(|l| s(l)).collect(),
            types,
            bindings: vec![],
        }),
    }
}

fn path(segments: Vec<PathSegment>) -> Ty {
    Ty::Path { qself: None, path: Path { global: false, segments } }
}

fn simple(name: &str) -> Ty {
    path(vec![angle(name, &[], vec![])])
}

#[test]
fn strip_lifetime_only_touches_the_outer_reference() {
    let t = rptr(Some("'a"), rptr(Some("'b"), simple("str")));
    assert_eq!(t.strip_lifetime(), rptr(None, rptr(Some("'b"), simple("str"))));
    let p = path(vec![angle("Foo", &["'a"], vec![])]);
    assert_eq!(p.strip_lifetime(), path(vec![angle("Foo", &["'a"], vec![])]));
}

#[test]
fn strip_lifetime_recursive_removes_path_and_reference_lifetimes() {
    // Request<'a, &'b str, Vec<&'a T>>
    let t = path(vec![angle(
        "Request",
        &["'a"],
        vec![rptr(Some("'b"), simple("str")), path(vec![angle("Vec", &[], vec![rptr(Some("'a"), simple("T"))])])],
    )]);
    let (stripped, lifetimes) = t.strip_lifetime_recursive();
    assert_eq!(
        stripped,
        path(vec![angle(
            "Request",
            &[],
            vec![rptr(None, simple("str")), path(vec![angle("Vec", &[], vec![rptr(None, simple("T"))])])],
        )])
    );
    assert_eq!(lifetimes, vec![s("'a"), s("'b")]);
}

#[test]
fn strip_lifetime_recursive_does_not_enter_references() {
    let t = rptr(Some("'a"), path(vec![angle("Foo", &["'b"], vec![])]));
    let (stripped, lifetimes) = t.strip_lifetime_recursive();
    assert_eq!(stripped, rptr(None, path(vec![angle("Foo", &["'b"], vec![])])));
    assert_eq!(lifetimes, vec![s("'a")]);
}

#[test]
fn strip_lifetime_recursive_enters_parenthesized_parameters() {
    let seg = PathSegment {
        ident: s("Fn"),
        parameters: PathParameters::Parenthesized(ParenthesizedParameterData {
            inputs: vec![rptr(Some("'x"), simple("u8"))],
            output: Some(rptr(Some("'y"), simple("u8"))),
        }),
    };
    let (stripped, lifetimes) = path(vec![seg]).strip_lifetime_recursive();
    let expected = PathSegment {
        ident: s("Fn"),
        parameters: PathParameters::Parenthesized(ParenthesizedParameterData {
            inputs: vec![rptr(None, simple("u8"))],
            output: Some(rptr(None, simple("u8"))),
        }),
    };
    assert_eq!(stripped, path(vec![expected]));
    assert_eq!(lifetimes, vec![s("'x"), s("'y")]);
}

#[test]
fn stripping_twice_strips_nothing_more() {
    let t = path(vec![angle("A", &["'a"], vec![rptr(Some("'b"), simple("B"))])]);
    let (once, _) = t.strip_lifetime_recursive();
    let (twice, lifetimes) = once.strip_lifetime_recursive();
    assert_eq!(once, twice);
    assert!(lifetimes.is_empty());
}

#[test]
fn other_types_are_left_alone() {
    let t = Ty::Other(s("(&'a str, u8)"));
    let (stripped, lifetimes) = t.strip_lifetime_recursive();
    assert_eq!(stripped, Ty::Other(s("(&'a str, u8)")));
    assert!(lifetimes.is_empty());
}

#[test]
fn coalesce_fills_in_missing_lifetimes_in_order() {
    let occupied = vec![s("'a")];
    let mut pool = LifetimePool::new(&occupied);
    // Foo<&T, &'a U, Bar<&V>>
    let t = path(vec![angle(
        "Foo",
        &["'a"],
        vec![rptr(None, simple("T")), rptr(Some("'a"), simple("U")), path(vec![angle("Bar", &[], vec![rptr(None, simple("V"))])])],
    )]);
    let c = t.coalesce_lifetime_recursive(&mut pool);
    assert_eq!(
        c,
        path(vec![angle(
            "Foo",
            &["'a"],
            vec![
                rptr(Some("'_z"), simple("T")),
                rptr(Some("'a"), simple("U")),
                path(vec![angle("Bar", &[], vec![rptr(Some("'_y"), simple("V"))])]),
            ],
        )])
    );
    assert_eq!(pool.used, vec![s("'_z"), s("'_y")]);
    // filling in again takes nothing more
    let again = c.coalesce_lifetime_recursive(&mut pool);
    assert_eq!(again, c);
    assert_eq!(pool.used.len(), 2);
    // and the stripped forms agree
    assert_eq!(c.strip_lifetime_recursive().0, t.strip_lifetime_recursive().0);
}

#[test]
fn coalesce_gives_a_bare_reference_the_next_name() {
    let occupied = vec![s("'_z")];
    let mut pool = LifetimePool::new(&occupied);
    let c = rptr(None, simple("str")).coalesce_lifetime_recursive(&mut pool);
    assert_eq!(c, rptr(Some("'_y"), simple("str")));
}

#[test]
fn coalesce_leaves_a_fully_named_type_alone_with_a_fresh_pool() {
    let occupied: Vec<String> = vec![];
    let mut pool = LifetimePool::new(&occupied);
    let t = path(vec![angle("Foo", &["'b"], vec![rptr(Some("'a"), simple("T"))])]);
    let c = t.coalesce_lifetime_recursive(&mut pool);
    assert_eq!(c, t);
    assert!(pool.used.is_empty());
    assert_eq!(pool.available(), 26);
}
