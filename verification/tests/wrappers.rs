use rocket_macro::wrappers::{Method, MethodWrapper};

#[test]
fn method_paths() {
    assert_eq!(MethodWrapper(Method::Get).path(), "::rocket::http::Method::Get");
    assert_eq!(MethodWrapper(Method::Put).path(), "::rocket::http::Method::Put");
    assert_eq!(MethodWrapper(Method::Post).path(), "::rocket::http::Method::Post");
    assert_eq!(MethodWrapper(Method::Delete).path(), "::rocket::http::Method::Delete");
    assert_eq!(MethodWrapper(Method::Head).path(), "::rocket::http::Method::Head");
    assert_eq!(MethodWrapper(Method::Patch).path(), "::rocket::http::Method::Patch");
    assert_eq!(MethodWrapper(Method::Options).path(), "::rocket::http::Method::Options");
    assert_eq!(MethodWrapper(Method::Trace).path(), "::rocket::http::Method::Trace");
    assert_eq!(MethodWrapper(Method::Connect).path(), "::rocket::http::Method::Connect");
}
