//! What can go wrong when a handler is decorated.
use vstd::prelude::*;

verus! {

/// The reasons for refusing a route or catcher decoration.
#[derive(Debug, PartialEq, Eq)]
pub enum ErrorKind {
    /// The catcher attribute is not a single parenthesized status code.
    ErrorParamNumNotCorrect,
    /// The catcher's status code is not an integer literal.
    ErrorCodeNotInteger,
    /// A catcher takes more than two arguments.
    ErrorHandleTooMuchParam,
    /// A catcher argument is neither a reference nor a path type.
    ErrorHandleUnexpectedParam,
    /// A catcher takes `self`.
    ErrorHandleContainSelf,
    /// The route attribute could not be read; the number is how many
    /// parameters were read.
    RouteTooLessParam(usize),
    /// Parameters declared in the route, in order, that are not arguments of
    /// the handler.
    RouteParamNotFoundInFnInput(Vec<String>),
    /// A path has more than one segment.
    PathMultipleSegments,
    /// An expression is not a path.
    ExprNotAPath,
    /// A pattern is not a plain name.
    PatNotAPath,
    /// An expression is not a string literal.
    ExprNotALit,
    /// The value of a `key = value` pair is not a literal.
    AssignValueInvalid,
    /// An expression is not a `key = value` pair.
    ExprNotAAssign,
    /// A route handler takes `self`.
    FnParamContainSelf,
    /// An expression is neither a tuple nor a parenthesized expression.
    ExprNotATupOrParen,
    /// An argument has no name.
    FnArgHasNoName,
    /// An argument has no type.
    FnArgHasNoTy,
    /// A literal is not an integer.
    LitNotAnISize,
    /// A literal is not a string.
    LitNotAString,
    /// The decorated item is not a function.
    ItemNotAFn,
}

} // verus!
