# rocket_macro

The decisions behind Rocket's `#[get]`/`#[post]`/`#[route]` and `#[error]`
decorators, verified with Verus.

A decorator reads a handler function and writes code around it. The library
(`src/`) takes the parts of the handler's syntax that matter, as plain data
(`ast`), and decides what the generated code is made of:

- `syn_ext`: names, literals and argument lists read out of the syntax;
- `ty_ext`: removing the lifetimes of an argument type, and filling in the
  ones left out from a `lifetime_pool::LifetimePool` of names `'_a` to `'_z`
  that avoids the handler's own lifetimes;
- `param_stack`, `route`: which statement produces each argument of a route
  handler (path segment, path segments, query string, body or request), and
  the types and lifetimes of its `Fn` impls;
- `catcher`: the status code of a catcher and how the error and the request
  are passed to it;
- `wrappers`: the paths that name HTTP methods in generated code.

Each function states its result exactly over mathematical views of the data;
the laws (`law_*` proof functions) state what holds across calls, such as that
filling in lifetimes twice changes nothing and that every handler argument is
bound by exactly one generated statement.

`app/` is the procedural-macro side: it parses the compiler's tokens with
`syn`, converts them to the library's data, and writes the generated code
with `quote`. The conversion walks `syn`'s trees recursively; the library
sees those types only as opaque values, so the walk stays on that side.
