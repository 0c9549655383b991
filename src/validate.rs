//! Structural checks on call sites, parameter lists and loop control
//! statements, run before a syntax tree is compiled.
use vstd::prelude::*;
use crate::syntax::{
    Argument, AstArgument, AstExpr, AstParameter, AstStmt, AstString, Expr, Parameter, Span,
    Spanned, Stmt,
};

verus! {

/// A validation failure, located at the offending node.
#[derive(Clone, Copy, Debug, PartialEq, Eq, Structural)]
pub struct Diagnostic<E> {
    pub error: E,
    pub span: Span,
}

/// `break` or `continue` where no loop encloses it.
#[derive(Clone, Copy, Debug, PartialEq, Eq, Structural)]
pub enum ValidateError {
    BreakOutsideLoop,
    ContinueOutsideLoop,
}

/// A call site whose arguments come in an illegal order.
#[derive(Clone, Copy, Debug, PartialEq, Eq, Structural)]
pub enum ArgumentDefinitionOrderError {
    PositionalThenNonPositional,
    NamedArgumentAfterStars,
    RepeatedNamed,
    ArgsArrayAfterArgsOrKwargs,
    MultipleKwargs,
}

/// A parameter list that repeats a name or orders its kinds illegally.
#[derive(Clone, Copy, Debug, PartialEq, Eq, Structural)]
pub enum ArgumentUseOrderError {
    DuplicateParameterName,
    PositionalThenNonPositional,
    DefaultParameterAfterStars,
    ArgsParameterAfterStars,
    MultipleKwargs,
}

impl ValidateError {
    /// The text shown to the user.
    pub fn message(&self) -> &'static str {
        match self {
            ValidateError::BreakOutsideLoop => "`break` cannot be used outside of a `for` loop",
            ValidateError::ContinueOutsideLoop => "`continue` cannot be used outside of a `for` loop",
        }
    }
}

impl ArgumentDefinitionOrderError {
    /// The text shown to the user.
    pub fn message(&self) -> &'static str {
        match self {
            ArgumentDefinitionOrderError::PositionalThenNonPositional => "positional argument after non positional",
            ArgumentDefinitionOrderError::NamedArgumentAfterStars => "named argument after *args or **kwargs",
            ArgumentDefinitionOrderError::RepeatedNamed => "repeated named argument",
            ArgumentDefinitionOrderError::ArgsArrayAfterArgsOrKwargs => "Args array after another args or kwargs",
            ArgumentDefinitionOrderError::MultipleKwargs => "Multiple kwargs dictionary in arguments",
        }
    }
}

impl ArgumentUseOrderError {
    /// The text shown to the user.
    pub fn message(&self) -> &'static str {
        match self {
            ArgumentUseOrderError::DuplicateParameterName => "duplicated parameter name",
            ArgumentUseOrderError::PositionalThenNonPositional => "positional parameter after non positional",
            ArgumentUseOrderError::DefaultParameterAfterStars => "Default parameter after args array or kwargs dictionary",
            ArgumentUseOrderError::ArgsParameterAfterStars => "Args parameter after another args or kwargs parameter",
            ArgumentUseOrderError::MultipleKwargs => "Multiple kwargs dictionary in parameters",
        }
    }
}

// ---------------------------------------------------------------------------
// Call sites
// ---------------------------------------------------------------------------

/// The stage of an argument: positional 0, named 1, `*args` 2, `**kwargs` 3.
pub open spec fn arg_stage(a: Argument) -> int {
    match a {
        Argument::Positional(_) => 0,
        Argument::Named(_, _) => 1,
        Argument::ArgsArray(_) => 2,
        Argument::KWArgsDict(_) => 3,
    }
}

/// Some argument before position `i` has stage at least `k`.
pub open spec fn stage_reached(args: Seq<AstArgument>, i: int, k: int) -> bool {
    exists|j: int| 0 <= j < i && arg_stage(#[trigger] args[j].node) >= k
}

/// Some argument before position `i` is named `n`.
pub open spec fn name_used(args: Seq<AstArgument>, i: int, n: Seq<char>) -> bool {
    exists|j: int|
        0 <= j < i && (#[trigger] args[j].node matches Argument::Named(m, _) && m.node@ == n)
}

/// The diagnostic that argument `i` raises, given the arguments before it.
pub open spec fn call_error_at(args: Seq<AstArgument>, i: int) -> Option<
    Diagnostic<ArgumentDefinitionOrderError>,
> {
    let a = args[i];
    match a.node {
        Argument::Positional(_) => if stage_reached(args, i, 1) {
            Some(
                Diagnostic {
                    error: ArgumentDefinitionOrderError::PositionalThenNonPositional,
                    span: a.span,
                },
            )
        } else {
            None
        },
        Argument::Named(n, _) => if stage_reached(args, i, 2) {
            Some(
                Diagnostic {
                    error: ArgumentDefinitionOrderError::NamedArgumentAfterStars,
                    span: a.span,
                },
            )
        } else if name_used(args, i, n.node@) {
            Some(Diagnostic { error: ArgumentDefinitionOrderError::RepeatedNamed, span: n.span })
        } else {
            None
        },
        Argument::ArgsArray(_) => if stage_reached(args, i, 2) {
            Some(
                Diagnostic {
                    error: ArgumentDefinitionOrderError::ArgsArrayAfterArgsOrKwargs,
                    span: a.span,
                },
            )
        } else {
            None
        },
        Argument::KWArgsDict(_) => if stage_reached(args, i, 3) {
            Some(
                Diagnostic { error: ArgumentDefinitionOrderError::MultipleKwargs, span: a.span },
            )
        } else {
            None
        },
    }
}

/// The first diagnostic among the first `n` arguments.
pub open spec fn first_call_error(args: Seq<AstArgument>, n: int) -> Option<
    Diagnostic<ArgumentDefinitionOrderError>,
>
    decreases n,
{
    if n <= 0 {
        None
    } else {
        match first_call_error(args, n - 1) {
            Some(d) => Some(d),
            None => call_error_at(args, n - 1),
        }
    }
}

/// Arguments in stage order, each of `*args` and `**kwargs` at most once,
/// and no name given twice.
pub open spec fn well_ordered_call(args: Seq<AstArgument>) -> bool {
    forall|i: int, j: int|
        0 <= i < j < args.len() ==> {
            &&& arg_stage(#[trigger] args[i].node) <= arg_stage(#[trigger] args[j].node)
            &&& !(arg_stage(args[i].node) == arg_stage(args[j].node) && arg_stage(args[i].node)
                >= 2)
            &&& !(args[i].node matches Argument::Named(m, _) && args[j].node matches Argument::Named(
                n,
                _,
            ) && m.node@ == n.node@)
        }
}

proof fn lemma_first_call_error_stays(args: Seq<AstArgument>, n: int, m: int)
    requires
        n <= m,
        first_call_error(args, n) is Some,
    ensures
        first_call_error(args, m) == first_call_error(args, n),
    decreases m - n,
{
    if n < m {
        lemma_first_call_error_stays(args, n, m - 1);
    }
}

proof fn lemma_first_call_error_none(args: Seq<AstArgument>, n: int)
    requires
        0 <= n <= args.len(),
    ensures
        first_call_error(args, n) is None <==> forall|j: int|
            0 <= j < n ==> (#[trigger] call_error_at(args, j)) is None,
    decreases n,
{
    if n > 0 {
        lemma_first_call_error_none(args, n - 1);
    }
}

/// A call site is accepted exactly when its arguments are in stage order
/// (positional, named, `*args`, `**kwargs`), `*args` and `**kwargs` each
/// appear at most once, and no name is given twice.
pub proof fn lemma_check_call_accepts(args: Seq<AstArgument>)
    ensures
        first_call_error(args, args.len() as int) is None <==> well_ordered_call(args),
{
    lemma_first_call_error_none(args, args.len() as int);
    if first_call_error(args, args.len() as int) is None {
        assert forall|i: int, j: int| 0 <= i < j < args.len() implies {
            &&& arg_stage(#[trigger] args[i].node) <= arg_stage(#[trigger] args[j].node)
            &&& !(arg_stage(args[i].node) == arg_stage(args[j].node) && arg_stage(args[i].node)
                >= 2)
            &&& !(args[i].node matches Argument::Named(m, _) && args[j].node matches Argument::Named(
                n,
                _,
            ) && m.node@ == n.node@)
        } by {
            assert(call_error_at(args, j) is None);
            if arg_stage(args[i].node) >= 1 {
                assert(stage_reached(args, j, 1));
            }
            if arg_stage(args[i].node) >= 2 {
                assert(stage_reached(args, j, 2));
            }
            if arg_stage(args[i].node) >= 3 {
                assert(stage_reached(args, j, 3));
            }
            if let Argument::Named(m, _) = args[i].node {
                if let Argument::Named(n, _) = args[j].node {
                    if m.node@ == n.node@ {
                        assert(name_used(args, j, n.node@));
                    }
                }
            }
        }
    }
    if well_ordered_call(args) {
        assert forall|j: int| 0 <= j < args.len() implies (#[trigger] call_error_at(
            args,
            j,
        )) is None by {
            if stage_reached(args, j, 1) && args[j].node is Positional {
                let i = choose|i: int| 0 <= i < j && arg_stage(#[trigger] args[i].node) >= 1;
                assert(arg_stage(args[i].node) <= arg_stage(args[j].node));
            }
            if stage_reached(args, j, 2) && arg_stage(args[j].node) <= 2 {
                let i = choose|i: int| 0 <= i < j && arg_stage(#[trigger] args[i].node) >= 2;
                assert(arg_stage(args[i].node) <= arg_stage(args[j].node));
            }
            if stage_reached(args, j, 3) {
                let i = choose|i: int| 0 <= i < j && arg_stage(#[trigger] args[i].node) >= 3;
                assert(arg_stage(args[i].node) <= arg_stage(args[j].node));
            }
            if let Argument::Named(n, _) = args[j].node {
                if name_used(args, j, n.node@) {
                    let i = choose|i: int|
                        0 <= i < j && (#[trigger] args[i].node matches Argument::Named(m, _)
                            && m.node@ == n.node@);
                    assert(0 <= i < j < args.len());
                }
            }
        }
    }
}

fn name_seen(args: &Vec<AstArgument>, i: usize, n: &String) -> (r: bool)
    requires
        i <= args@.len(),
    ensures
        r == name_used(args@, i as int, n@),
{
    let mut j: usize = 0;
    while j < i
        invariant
            i <= args@.len(),
            j <= i,
            !name_used(args@, j as int, n@),
        decreases i - j,
    {
        if let Argument::Named(m, _) = &args[j].node {
            if m.node == *n {
                return true;
            }
        }
        j += 1;
    }
    false
}

impl Expr {
    /// Checks that a call's arguments are well ordered and builds the call.
    /// Fails on the first argument that breaks the order, without looking
    /// further.
    pub fn check_call(f: AstExpr, args: Vec<AstArgument>) -> (r: Result<
        Expr,
        Diagnostic<ArgumentDefinitionOrderError>,
    >)
        ensures
            match first_call_error(args@, args@.len() as int) {
                None => r == Ok::<Expr, Diagnostic<ArgumentDefinitionOrderError>>(
                    Expr::Call(Box::new(f), args),
                ),
                Some(d) => r == Err::<Expr, Diagnostic<ArgumentDefinitionOrderError>>(d),
            },
    {
        // 0: positional, 1: named, 2: *args, 3: **kwargs
        let mut stage: u8 = 0;
        let mut i: usize = 0;
        while i < args.len()
            invariant
                i <= args@.len(),
                stage <= 3,
                first_call_error(args@, i as int) is None,
                forall|k: int| 1 <= k <= 3 ==> (#[trigger] stage_reached(args@, i as int, k) <==> stage >= k),
            decreases args@.len() - i,
        {
            let arg = &args[i];
            assert(args@[i as int] == *arg);
            let err: Option<ArgumentDefinitionOrderError> = match &arg.node {
                Argument::Positional(_) => {
                    if stage != 0 {
                        Some(ArgumentDefinitionOrderError::PositionalThenNonPositional)
                    } else {
                        None
                    }
                },
                Argument::Named(n, _) => {
                    if stage > 1 {
                        Some(ArgumentDefinitionOrderError::NamedArgumentAfterStars)
                    } else if name_seen(&args, i, &n.node) {
                        proof {
                            assert(first_call_error(args@, i + 1) == call_error_at(args@, i as int));
                            lemma_first_call_error_stays(args@, i + 1, args@.len() as int);
                        }
                        return Err(
                            Diagnostic {
                                error: ArgumentDefinitionOrderError::RepeatedNamed,
                                span: n.span,
                            },
                        );
                    } else {
                        stage = 1;
                        None
                    }
                },
                Argument::ArgsArray(_) => {
                    if stage > 1 {
                        Some(ArgumentDefinitionOrderError::ArgsArrayAfterArgsOrKwargs)
                    } else {
                        stage = 2;
                        None
                    }
                },
                Argument::KWArgsDict(_) => {
                    if stage == 3 {
                        Some(ArgumentDefinitionOrderError::MultipleKwargs)
                    } else {
                        stage = 3;
                        None
                    }
                },
            };
            if let Some(e) = err {
                proof {
                    assert(first_call_error(args@, i + 1) == call_error_at(args@, i as int));
                    lemma_first_call_error_stays(args@, i + 1, args@.len() as int);
                }
                return Err(Diagnostic { error: e, span: arg.span });
            }
            assert forall|k: int| 1 <= k <= 3 implies (#[trigger] stage_reached(args@, i + 1, k) <==> stage
                >= k) by {
                if stage_reached(args@, i as int, k) {
                    let j = choose|j: int| 0 <= j < i && arg_stage(#[trigger] args@[j].node) >= k;
                    assert(0 <= j < i + 1 && arg_stage(args@[j].node) >= k);
                }
                if arg_stage(args@[i as int].node) >= k {
                    assert(0 <= i < i + 1 && arg_stage(args@[i as int].node) >= k);
                }
            }
            i += 1;
        }
        Ok(Expr::Call(Box::new(f), args))
    }
}


// ---------------------------------------------------------------------------
// Parameter lists
// ---------------------------------------------------------------------------

/// The ordering class of a parameter: plain 0, with a default 1, `*` or
/// `*args` 2, `**kwargs` 3.
pub open spec fn param_class(p: Parameter) -> int {
    match p {
        Parameter::Normal(_) => 0,
        Parameter::WithDefaultValue(_, _) => 1,
        Parameter::NoArgs => 2,
        Parameter::Args(_) => 2,
        Parameter::KWArgs(_) => 3,
    }
}

/// The name a parameter binds, if any.
pub open spec fn param_name(p: Parameter) -> Option<Seq<char>> {
    match p {
        Parameter::Normal(n) => Some(n.node@),
        Parameter::WithDefaultValue(n, _) => Some(n.node@),
        Parameter::NoArgs => None,
        Parameter::Args(n) => Some(n.node@),
        Parameter::KWArgs(n) => Some(n.node@),
    }
}

/// The names bound by the first `i` parameters, in order.
pub open spec fn bound_names(params: Seq<AstParameter>, i: int) -> Seq<Seq<char>>
    decreases i,
{
    if i <= 0 {
        Seq::empty()
    } else {
        match param_name(params[i - 1].node) {
            Some(n) => bound_names(params, i - 1).push(n),
            None => bound_names(params, i - 1),
        }
    }
}

/// Some parameter before position `i` has class at least `k`.
pub open spec fn class_reached(params: Seq<AstParameter>, i: int, k: int) -> bool {
    exists|j: int| 0 <= j < i && param_class(#[trigger] params[j].node) >= k
}

/// The ordering diagnostic of parameter `i`, given the parameters before it.
pub open spec fn param_order_error(params: Seq<AstParameter>, i: int) -> Option<
    ArgumentUseOrderError,
> {
    match params[i].node {
        Parameter::Normal(_) => if class_reached(params, i, 1) {
            Some(ArgumentUseOrderError::PositionalThenNonPositional)
        } else {
            None
        },
        Parameter::WithDefaultValue(_, _) => if class_reached(params, i, 3) {
            Some(ArgumentUseOrderError::DefaultParameterAfterStars)
        } else {
            None
        },
        Parameter::NoArgs => if class_reached(params, i, 2) {
            Some(ArgumentUseOrderError::ArgsParameterAfterStars)
        } else {
            None
        },
        Parameter::Args(_) => if class_reached(params, i, 2) {
            Some(ArgumentUseOrderError::ArgsParameterAfterStars)
        } else {
            None
        },
        Parameter::KWArgs(_) => if class_reached(params, i, 3) {
            Some(ArgumentUseOrderError::MultipleKwargs)
        } else {
            None
        },
    }
}

/// The diagnostic of parameter `i`: a repeated name first, then its order.
pub open spec fn param_error_at(params: Seq<AstParameter>, i: int) -> Option<
    Diagnostic<ArgumentUseOrderError>,
> {
    let p = params[i];
    match param_name(p.node) {
        Some(n) if bound_names(params, i).contains(n) => Some(
            Diagnostic { error: ArgumentUseOrderError::DuplicateParameterName, span: p.span },
        ),
        _ => match param_order_error(params, i) {
            Some(e) => Some(Diagnostic { error: e, span: p.span }),
            None => None,
        },
    }
}

/// The first diagnostic among the first `n` parameters.
pub open spec fn first_param_error(params: Seq<AstParameter>, n: int) -> Option<
    Diagnostic<ArgumentUseOrderError>,
>
    decreases n,
{
    if n <= 0 {
        None
    } else {
        match first_param_error(params, n - 1) {
            Some(d) => Some(d),
            None => param_error_at(params, n - 1),
        }
    }
}

/// Parameter names are distinct, and every parameter may follow every
/// earlier one: a plain one only plain ones, one with a default anything but
/// `**kwargs`, `*` or `*args` only plain ones and ones with defaults,
/// `**kwargs` anything but `**kwargs`.
pub open spec fn well_ordered_params(params: Seq<AstParameter>) -> bool {
    forall|i: int, j: int|
        0 <= i < j < params.len() ==> {
            let ci = param_class(#[trigger] params[i].node);
            let cj = param_class(#[trigger] params[j].node);
            &&& (cj == 0 ==> ci == 0)
            &&& (cj == 1 ==> ci <= 2)
            &&& (cj == 2 ==> ci <= 1)
            &&& (cj == 3 ==> ci <= 2)
            &&& (param_name(params[i].node) is Some ==> param_name(params[i].node) != param_name(
                params[j].node,
            ))
        }
}

pub open spec fn names_of(v: Seq<String>) -> Seq<Seq<char>> {
    v.map_values(|s: String| s@)
}

proof fn lemma_first_param_error_stays(params: Seq<AstParameter>, n: int, m: int)
    requires
        n <= m,
        first_param_error(params, n) is Some,
    ensures
        first_param_error(params, m) == first_param_error(params, n),
    decreases m - n,
{
    if n < m {
        lemma_first_param_error_stays(params, n, m - 1);
    }
}

proof fn lemma_bound_names(params: Seq<AstParameter>, i: int, n: Seq<char>)
    requires
        0 <= i <= params.len(),
    ensures
        bound_names(params, i).contains(n) <==> exists|j: int|
            0 <= j < i && param_name(#[trigger] params[j].node) == Some(n),
    decreases i,
{
    if i > 0 {
        lemma_bound_names(params, i - 1, n);
        let prev = bound_names(params, i - 1);
        if let Some(m) = param_name(params[i - 1].node) {
            assert(bound_names(params, i) == prev.push(m));
            if m == n {
                assert(prev.push(m)[prev.len() as int] == n);
            }
            if prev.push(m).contains(n) && m != n {
                let k = choose|k: int| 0 <= k < prev.len() + 1 && prev.push(m)[k] == n;
                assert(prev[k] == n);
            }
            if prev.contains(n) {
                let k = choose|k: int| 0 <= k < prev.len() && prev[k] == n;
                assert(prev.push(m)[k] == n);
            }
        }
        if exists|j: int| 0 <= j < i && param_name(#[trigger] params[j].node) == Some(n) {
            let j = choose|j: int| 0 <= j < i && param_name(#[trigger] params[j].node) == Some(n);
            if j < i - 1 {
                assert(0 <= j < i - 1 && param_name(params[j].node) == Some(n));
            }
        }
    }
}

proof fn lemma_first_param_error_none(params: Seq<AstParameter>, n: int)
    requires
        0 <= n <= params.len(),
    ensures
        first_param_error(params, n) is None <==> forall|j: int|
            0 <= j < n ==> (#[trigger] param_error_at(params, j)) is None,
    decreases n,
{
    if n > 0 {
        lemma_first_param_error_none(params, n - 1);
    }
}

/// A parameter list is accepted exactly when its names are distinct and its
/// parameters come in an order that the language allows.
pub proof fn lemma_check_def_accepts(params: Seq<AstParameter>)
    ensures
        first_param_error(params, params.len() as int) is None <==> well_ordered_params(params),
{
    lemma_first_param_error_none(params, params.len() as int);
    if first_param_error(params, params.len() as int) is None {
        assert forall|i: int, j: int| 0 <= i < j < params.len() implies {
            let ci = param_class(#[trigger] params[i].node);
            let cj = param_class(#[trigger] params[j].node);
            &&& (cj == 0 ==> ci == 0)
            &&& (cj == 1 ==> ci <= 2)
            &&& (cj == 2 ==> ci <= 1)
            &&& (cj == 3 ==> ci <= 2)
            &&& (param_name(params[i].node) is Some ==> param_name(params[i].node) != param_name(
                params[j].node,
            ))
        } by {
            assert(param_error_at(params, j) is None);
            let ci = param_class(params[i].node);
            if ci >= 1 {
                assert(class_reached(params, j, 1));
            }
            if ci >= 2 {
                assert(class_reached(params, j, 2));
            }
            if ci >= 3 {
                assert(class_reached(params, j, 3));
            }
            if let Some(n) = param_name(params[i].node) {
                lemma_bound_names(params, j, n);
                if param_name(params[j].node) == Some(n) {
                    assert(0 <= i < j && param_name(params[i].node) == Some(n));
                }
            }
        }
    }
    if well_ordered_params(params) {
        assert forall|j: int| 0 <= j < params.len() implies (#[trigger] param_error_at(
            params,
            j,
        )) is None by {
            if let Some(n) = param_name(params[j].node) {
                lemma_bound_names(params, j, n);
                if bound_names(params, j).contains(n) {
                    let i = choose|i: int| 0 <= i < j && param_name(#[trigger] params[i].node) == Some(n);
                    assert(0 <= i < j < params.len());
                }
            }
            let cj = param_class(params[j].node);
            if class_reached(params, j, 1) && cj == 0 {
                let i = choose|i: int| 0 <= i < j && param_class(#[trigger] params[i].node) >= 1;
                assert(0 <= i < j < params.len());
            }
            if class_reached(params, j, 2) && cj == 2 {
                let i = choose|i: int| 0 <= i < j && param_class(#[trigger] params[i].node) >= 2;
                assert(0 <= i < j < params.len());
            }
            if class_reached(params, j, 3) {
                let i = choose|i: int| 0 <= i < j && param_class(#[trigger] params[i].node) >= 3;
                assert(0 <= i < j < params.len());
            }
        }
    }
}

/// Records the name `n` of parameter `arg` in `argset`, or fails if it is
/// already there.
fn test_param_name<T>(argset: &mut Vec<String>, n: &AstString, arg: &Spanned<T>) -> (r: Result<
    (),
    Diagnostic<ArgumentUseOrderError>,
>)
    ensures
        names_of(old(argset)@).contains(n.node@) ==> r == Err::<
            (),
            Diagnostic<ArgumentUseOrderError>,
        >(Diagnostic { error: ArgumentUseOrderError::DuplicateParameterName, span: arg.span })
            && final(argset)@ == old(argset)@,
        !names_of(old(argset)@).contains(n.node@) ==> r is Ok && names_of(final(argset)@)
            == names_of(old(argset)@).push(n.node@),
{
    let mut k: usize = 0;
    while k < argset.len()
        invariant
            k <= argset@.len(),
            forall|j: int| 0 <= j < k ==> argset@[j]@ != n.node@,
        decreases argset@.len() - k,
    {
        if argset[k] == n.node {
            proof {
                assert(names_of(argset@)[k as int] == n.node@);
            }
            return Err(
                Diagnostic { error: ArgumentUseOrderError::DuplicateParameterName, span: arg.span },
            );
        }
        k += 1;
    }
    proof {
        if names_of(argset@).contains(n.node@) {
            let j = choose|j: int| 0 <= j < names_of(argset@).len() && names_of(argset@)[j] == n.node@;
            assert(argset@[j]@ == n.node@);
        }
    }
    argset.push(n.node.clone());
    proof {
        assert(names_of(argset@) =~= names_of(old(argset)@).push(n.node@));
    }
    Ok(())
}

impl Stmt {
    /// Checks that a definition's parameters bind distinct names and are
    /// well ordered, and builds the definition. Fails on the first parameter
    /// at fault, checking its name before its position.
    pub fn check_def(
        name: AstString,
        parameters: Vec<AstParameter>,
        return_type: Option<Box<AstExpr>>,
        stmts: AstStmt,
    ) -> (r: Result<Stmt, Diagnostic<ArgumentUseOrderError>>)
        ensures
            match first_param_error(parameters@, parameters@.len() as int) {
                None => r == Ok::<Stmt, Diagnostic<ArgumentUseOrderError>>(
                    Stmt::Def(name, parameters, return_type, Box::new(stmts)),
                ),
                Some(d) => r == Err::<Stmt, Diagnostic<ArgumentUseOrderError>>(d),
            },
    {
        let mut argset: Vec<String> = Vec::new();
        let mut seen_optional = false;
        let mut seen_args = false;
        let mut seen_kwargs = false;
        let mut i: usize = 0;
        while i < parameters.len()
            invariant
                i <= parameters@.len(),
                first_param_error(parameters@, i as int) is None,
                names_of(argset@) == bound_names(parameters@, i as int),
                class_reached(parameters@, i as int, 1) <==> (seen_optional || seen_args
                    || seen_kwargs),
                class_reached(parameters@, i as int, 2) <==> (seen_args || seen_kwargs),
                class_reached(parameters@, i as int, 3) <==> seen_kwargs,
            decreases parameters@.len() - i,
        {
            let arg = &parameters[i];
            assert(parameters@[i as int] == *arg);
            let named: Option<&AstString> = match &arg.node {
                Parameter::Normal(n) => Some(n),
                Parameter::WithDefaultValue(n, _) => Some(n),
                Parameter::NoArgs => None,
                Parameter::Args(n) => Some(n),
                Parameter::KWArgs(n) => Some(n),
            };
            if let Some(n) = named {
                if let Err(d) = test_param_name(&mut argset, n, arg) {
                    proof {
                        assert(first_param_error(parameters@, i + 1) == param_error_at(
                            parameters@,
                            i as int,
                        ));
                        lemma_first_param_error_stays(
                            parameters@,
                            i + 1,
                            parameters@.len() as int,
                        );
                    }
                    return Err(d);
                }
            }
            let order: Option<ArgumentUseOrderError> = match &arg.node {
                Parameter::Normal(_) => {
                    if seen_optional || seen_args || seen_kwargs {
                        Some(ArgumentUseOrderError::PositionalThenNonPositional)
                    } else {
                        None
                    }
                },
                Parameter::WithDefaultValue(_, _) => {
                    if seen_kwargs {
                        Some(ArgumentUseOrderError::DefaultParameterAfterStars)
                    } else {
                        seen_optional = true;
                        None
                    }
                },
                Parameter::NoArgs => {
                    if seen_args || seen_kwargs {
                        Some(ArgumentUseOrderError::ArgsParameterAfterStars)
                    } else {
                        seen_args = true;
                        None
                    }
                },
                Parameter::Args(_) => {
                    if seen_args || seen_kwargs {
                        Some(ArgumentUseOrderError::ArgsParameterAfterStars)
                    } else {
                        seen_args = true;
                        None
                    }
                },
                Parameter::KWArgs(_) => {
                    if seen_kwargs {
                        Some(ArgumentUseOrderError::MultipleKwargs)
                    } else {
                        seen_kwargs = true;
                        None
                    }
                },
            };
            if let Some(e) = order {
                proof {
                    assert(first_param_error(parameters@, i + 1) == param_error_at(
                        parameters@,
                        i as int,
                    ));
                    lemma_first_param_error_stays(parameters@, i + 1, parameters@.len() as int);
                }
                return Err(Diagnostic { error: e, span: arg.span });
            }
            assert forall|k: int| 1 <= k <= 3 && #[trigger] class_reached(parameters@, i + 1, k)
                implies class_reached(parameters@, i as int, k) || param_class(
                parameters@[i as int].node,
            ) >= k by {
                let j = choose|j: int| 0 <= j < i + 1 && param_class(#[trigger] parameters@[j].node) >= k;
                if j < i {
                    assert(0 <= j < i && param_class(parameters@[j].node) >= k);
                }
            }
            assert forall|k: int| 1 <= k <= 3 && (class_reached(parameters@, i as int, k) || param_class(
                parameters@[i as int].node,
            ) >= k) implies #[trigger] class_reached(parameters@, i + 1, k) by {
                if class_reached(parameters@, i as int, k) {
                    let j = choose|j: int| 0 <= j < i && param_class(#[trigger] parameters@[j].node) >= k;
                    assert(0 <= j < i + 1 && param_class(parameters@[j].node) >= k);
                } else {
                    assert(0 <= i < i + 1 && param_class(parameters@[i as int].node) >= k);
                }
            }
            i += 1;
        }
        Ok(Stmt::Def(name, parameters, return_type, Box::new(stmts)))
    }
}

// ---------------------------------------------------------------------------
// Loop control
// ---------------------------------------------------------------------------

/// Whether a statement stands inside a loop of its own function.
#[derive(Clone, Copy, Debug, PartialEq, Eq, Structural)]
pub enum LoopContext {
    InsideLoop,
    OutsideLoop,
}

/// The first misplaced `break` or `continue` in `s`, in depth-first order,
/// when `s` stands in context `ctx`. A loop body is inside a loop; a nested
/// function body is outside any, wherever the definition stands.
pub open spec fn loop_error(s: AstStmt, ctx: LoopContext) -> Option<Diagnostic<ValidateError>>
    decreases s, 0int,
{
    match s.node {
        Stmt::Break => if ctx == LoopContext::InsideLoop {
            None
        } else {
            Some(Diagnostic { error: ValidateError::BreakOutsideLoop, span: s.span })
        },
        Stmt::Continue => if ctx == LoopContext::InsideLoop {
            None
        } else {
            Some(Diagnostic { error: ValidateError::ContinueOutsideLoop, span: s.span })
        },
        Stmt::For(_, _, body) => loop_error(*body, LoopContext::InsideLoop),
        Stmt::Def(_, _, _, body) => loop_error(*body, LoopContext::OutsideLoop),
        Stmt::If(_, t) => loop_error(*t, ctx),
        Stmt::IfElse(_, t, f) => match loop_error(*t, ctx) {
            Some(d) => Some(d),
            None => loop_error(*f, ctx),
        },
        Stmt::Statements(v) => stmts_loop_error(v@, 0, ctx),
        _ => None,
    }
}

/// The first misplaced `break` or `continue` in `ss[i..]`.
pub open spec fn stmts_loop_error(ss: Seq<AstStmt>, i: int, ctx: LoopContext) -> Option<
    Diagnostic<ValidateError>,
>
    decreases ss, ss.len() - i,
{
    if i < 0 || i >= ss.len() {
        None
    } else {
        match loop_error(ss[i], ctx) {
            Some(d) => Some(d),
            None => stmts_loop_error(ss, i + 1, ctx),
        }
    }
}

/// Whether `s` holds a function definition anywhere within it.
pub open spec fn holds_def(s: AstStmt) -> bool
    decreases s, 0int,
{
    match s.node {
        Stmt::Def(_, _, _, _) => true,
        Stmt::For(_, _, body) => holds_def(*body),
        Stmt::If(_, t) => holds_def(*t),
        Stmt::IfElse(_, t, f) => holds_def(*t) || holds_def(*f),
        Stmt::Statements(v) => stmts_hold_def(v@, 0),
        _ => false,
    }
}

/// Whether one of `ss[i..]` holds a function definition.
pub open spec fn stmts_hold_def(ss: Seq<AstStmt>, i: int) -> bool
    decreases ss, ss.len() - i,
{
    if i < 0 || i >= ss.len() {
        false
    } else {
        holds_def(ss[i]) || stmts_hold_def(ss, i + 1)
    }
}

/// Inside a loop, with no function definition in between, every `break`
/// and `continue` is accepted.
pub proof fn lemma_inside_loop_accepts(s: AstStmt)
    requires
        !holds_def(s),
    ensures
        loop_error(s, LoopContext::InsideLoop) is None,
    decreases s, 0int,
{
    match s.node {
        Stmt::For(_, _, body) => lemma_inside_loop_accepts(*body),
        Stmt::If(_, t) => lemma_inside_loop_accepts(*t),
        Stmt::IfElse(_, t, f) => {
            lemma_inside_loop_accepts(*t);
            lemma_inside_loop_accepts(*f);
        },
        Stmt::Statements(v) => lemma_inside_loop_stmts_accept(v@, 0),
        _ => {},
    }
}

proof fn lemma_inside_loop_stmts_accept(ss: Seq<AstStmt>, i: int)
    requires
        !stmts_hold_def(ss, i),
    ensures
        stmts_loop_error(ss, i, LoopContext::InsideLoop) is None,
    decreases ss, ss.len() - i,
{
    if 0 <= i < ss.len() {
        lemma_inside_loop_accepts(ss[i]);
        lemma_inside_loop_stmts_accept(ss, i + 1);
    }
}

/// A `break` or `continue` is rejected outside a loop, and a loop does not
/// reach into a function defined in its body: the body of a definition is
/// checked as outside any loop, wherever the definition stands.
pub proof fn lemma_outside_loop_rejects(s: AstStmt, ctx: LoopContext)
    ensures
        s.node is Break ==> loop_error(s, LoopContext::OutsideLoop) == Some(
            Diagnostic { error: ValidateError::BreakOutsideLoop, span: s.span },
        ),
        s.node is Continue ==> loop_error(s, LoopContext::OutsideLoop) == Some(
            Diagnostic { error: ValidateError::ContinueOutsideLoop, span: s.span },
        ),
        s.node matches Stmt::Def(_, _, _, body) ==> loop_error(s, ctx) == loop_error(
            *body,
            LoopContext::OutsideLoop,
        ),
        s.node matches Stmt::For(_, _, body) ==> loop_error(s, ctx) == loop_error(
            *body,
            LoopContext::InsideLoop,
        ),
{
}

/// Every `break` and `continue` in `s` that stands outside a loop of its
/// own function, in depth-first order, each with the diagnostic it raises.
/// A loop body is inside a loop; a function body is outside any, wherever
/// the definition stands.
pub open spec fn misplaced(s: AstStmt, ctx: LoopContext) -> Seq<Diagnostic<ValidateError>>
    decreases s, 0int,
{
    match s.node {
        Stmt::Break => if ctx == LoopContext::InsideLoop {
            Seq::empty()
        } else {
            seq![Diagnostic { error: ValidateError::BreakOutsideLoop, span: s.span }]
        },
        Stmt::Continue => if ctx == LoopContext::InsideLoop {
            Seq::empty()
        } else {
            seq![Diagnostic { error: ValidateError::ContinueOutsideLoop, span: s.span }]
        },
        Stmt::For(_, _, body) => misplaced(*body, LoopContext::InsideLoop),
        Stmt::Def(_, _, _, body) => misplaced(*body, LoopContext::OutsideLoop),
        Stmt::If(_, t) => misplaced(*t, ctx),
        Stmt::IfElse(_, t, f) => misplaced(*t, ctx) + misplaced(*f, ctx),
        Stmt::Statements(v) => stmts_misplaced(v@, 0, ctx),
        _ => Seq::empty(),
    }
}

/// The misplaced `break` and `continue` statements of `ss[i..]`.
pub open spec fn stmts_misplaced(ss: Seq<AstStmt>, i: int, ctx: LoopContext) -> Seq<
    Diagnostic<ValidateError>,
>
    decreases ss, ss.len() - i,
{
    if i < 0 || i >= ss.len() {
        Seq::empty()
    } else {
        misplaced(ss[i], ctx) + stmts_misplaced(ss, i + 1, ctx)
    }
}

/// The first element of `q`, if any.
pub open spec fn first_of<T>(q: Seq<T>) -> Option<T> {
    if q.len() == 0 {
        None
    } else {
        Some(q[0])
    }
}

proof fn lemma_first_of_concat<T>(a: Seq<T>, b: Seq<T>)
    ensures
        first_of(a + b) == if a.len() > 0 {
            first_of(a)
        } else {
            first_of(b)
        },
{
    if a.len() == 0 {
        assert(a + b =~= b);
    } else {
        assert((a + b)[0] == a[0]);
    }
}

/// A statement is accepted exactly when every `break` and `continue` in it
/// lies in the body of a `for` with no function definition in between; and
/// otherwise the error is that of the first one, in depth-first order, that
/// does not, located at it.
pub proof fn lemma_loop_error_is_first_misplaced(s: AstStmt, ctx: LoopContext)
    ensures
        loop_error(s, ctx) == first_of(misplaced(s, ctx)),
    decreases s, 0int,
{
    match s.node {
        Stmt::For(_, _, body) => lemma_loop_error_is_first_misplaced(*body, LoopContext::InsideLoop),
        Stmt::Def(_, _, _, body) => lemma_loop_error_is_first_misplaced(
            *body,
            LoopContext::OutsideLoop,
        ),
        Stmt::If(_, t) => lemma_loop_error_is_first_misplaced(*t, ctx),
        Stmt::IfElse(_, t, f) => {
            lemma_loop_error_is_first_misplaced(*t, ctx);
            lemma_loop_error_is_first_misplaced(*f, ctx);
            lemma_first_of_concat(misplaced(*t, ctx), misplaced(*f, ctx));
        },
        Stmt::Statements(v) => lemma_stmts_error_is_first_misplaced(v@, 0, ctx),
        _ => {},
    }
}

proof fn lemma_stmts_error_is_first_misplaced(ss: Seq<AstStmt>, i: int, ctx: LoopContext)
    ensures
        stmts_loop_error(ss, i, ctx) == first_of(stmts_misplaced(ss, i, ctx)),
    decreases ss, ss.len() - i,
{
    if 0 <= i < ss.len() {
        lemma_loop_error_is_first_misplaced(ss[i], ctx);
        lemma_stmts_error_is_first_misplaced(ss, i + 1, ctx);
        lemma_first_of_concat(misplaced(ss[i], ctx), stmts_misplaced(ss, i + 1, ctx));
    }
}

fn check_loop_context(stmt: &AstStmt, ctx: LoopContext) -> (r: Result<
    (),
    Diagnostic<ValidateError>,
>)
    ensures
        r == match loop_error(*stmt, ctx) {
            None => Ok::<(), Diagnostic<ValidateError>>(()),
            Some(d) => Err(d),
        },
    decreases *stmt,
{
    match &stmt.node {
        Stmt::Break => {
            if ctx == LoopContext::InsideLoop {
                Ok(())
            } else {
                Err(Diagnostic { error: ValidateError::BreakOutsideLoop, span: stmt.span })
            }
        },
        Stmt::Continue => {
            if ctx == LoopContext::InsideLoop {
                Ok(())
            } else {
                Err(Diagnostic { error: ValidateError::ContinueOutsideLoop, span: stmt.span })
            }
        },
        Stmt::For(_, _, body) => check_loop_context(body, LoopContext::InsideLoop),
        Stmt::Def(_, _, _, body) => check_loop_context(body, LoopContext::OutsideLoop),
        Stmt::If(_, t) => check_loop_context(t, ctx),
        Stmt::IfElse(_, t, f) => {
            match check_loop_context(t, ctx) {
                Err(d) => Err(d),
                Ok(()) => check_loop_context(f, ctx),
            }
        },
        Stmt::Statements(v) => {
            let mut i: usize = 0;
            while i < v.len()
                invariant
                    stmt.node == Stmt::Statements(*v),
                    i <= v@.len(),
                    stmts_loop_error(v@, 0, ctx) == stmts_loop_error(v@, i as int, ctx),
                decreases v@.len() - i,
            {
                if let Err(d) = check_loop_context(&v[i], ctx) {
                    return Err(d);
                }
                i += 1;
            }
            Ok(())
        },
        _ => Ok(()),
    }
}

impl Stmt {
    /// Checks that `break` and `continue` appear only inside a `for` loop of
    /// their own function, reporting the first that does not.
    pub fn validate_break_continue(stmt: &AstStmt) -> (r: Result<(), Diagnostic<ValidateError>>)
        ensures
            r == match loop_error(*stmt, LoopContext::OutsideLoop) {
                None => Ok::<(), Diagnostic<ValidateError>>(()),
                Some(d) => Err(d),
            },
            r == match first_of(misplaced(*stmt, LoopContext::OutsideLoop)) {
                None => Ok::<(), Diagnostic<ValidateError>>(()),
                Some(d) => Err(d),
            },
    {
        proof {
            lemma_loop_error_is_first_misplaced(*stmt, LoopContext::OutsideLoop);
        }
        check_loop_context(stmt, LoopContext::OutsideLoop)
    }
}

} // verus!
