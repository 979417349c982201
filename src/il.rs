//! Scope resolution: every variable of the syntax tree becomes a local slot,
//! an upvalue of the enclosing closure, or a global looked up by name, and
//! every lambda records the captures its construction has to create.
use vstd::prelude::*;

use crate::ast::{
    self, Ast, BinaryArithmeticOperator, ComparisonOperator, Constant, IsTypeParameter, Parameters,
    Quoted, Variable,
};
use crate::sexpr::Source;
use crate::vm::{Arity, UpValue};

verus! {

/// A resolved variable reference.
#[derive(Debug)]
pub enum VarRef {
    Local { source: Source, index: usize },
    UpValue { source: Source, index: usize },
    Global { source: Source, name: String },
}

/// A lambda after resolution: its arity, the captures its construction
/// creates, in order, and its body.
#[derive(Debug)]
pub struct Lambda {
    pub source: Source,
    pub arity: Arity,
    pub upvalues: Vec<UpValue>,
    pub body: Vec<Il>,
}

/// The intermediate form.
#[derive(Debug)]
pub enum Il {
    Lambda(Lambda),
    Def { source: Source, name: String, body: Box<Il> },
    Assign { source: Source, target: VarRef, body: Box<Il> },
    If { source: Source, predicate: Box<Il>, consequent: Box<Il>, alternative: Box<Il> },
    VarRef(VarRef),
    Constant(Constant),
    Quote { source: Source, body: Quoted },
    List { source: Source, exprs: Vec<Il> },
    Cons { source: Source, lhs: Box<Il>, rhs: Box<Il> },
    Car { source: Source, body: Box<Il> },
    Cdr { source: Source, body: Box<Il> },
    FnCall { source: Source, function: Box<Il>, args: Vec<Il> },
    Arithmetic { source: Source, operator: BinaryArithmeticOperator, lhs: Box<Il>, rhs: Box<Il> },
    Comparison { source: Source, operator: ComparisonOperator, lhs: Box<Il>, rhs: Box<Il> },
    IsType { source: Source, parameter: IsTypeParameter, body: Box<Il> },
    Assert { source: Source, body: Box<Il> },
}

/// A failure to resolve a tree.
#[derive(Debug)]
pub struct Error {
    pub source: Source,
    pub message: String,
}

impl VarRef {
    pub open spec fn spec_source(&self) -> Source {
        match self {
            VarRef::Local { source, .. } => *source,
            VarRef::UpValue { source, .. } => *source,
            VarRef::Global { source, .. } => *source,
        }
    }
}

impl Il {
    /// The provenance of the S-expression this node stems from.
    pub open spec fn spec_source(&self) -> Source {
        match self {
            Il::Lambda(l) => l.source,
            Il::Def { source, .. } => *source,
            Il::Assign { source, .. } => *source,
            Il::If { source, .. } => *source,
            Il::VarRef(r) => r.spec_source(),
            Il::Constant(c) => Ast::Constant(*c).spec_source_sexpr(),
            Il::Quote { source, .. } => *source,
            Il::List { source, .. } => *source,
            Il::Cons { source, .. } => *source,
            Il::Car { source, .. } => *source,
            Il::Cdr { source, .. } => *source,
            Il::FnCall { source, .. } => *source,
            Il::Arithmetic { source, .. } => *source,
            Il::Comparison { source, .. } => *source,
            Il::IsType { source, .. } => *source,
            Il::Assert { source, .. } => *source,
        }
    }
}

/// The names a parameter list binds, in slot order; a rest parameter takes
/// the last slot.
pub open spec fn parameter_names(ps: Parameters) -> Seq<Seq<char>> {
    match ps {
        Parameters::Normal(v) => Seq::new(v@.len(), |i: int| v@[i].name@),
        Parameters::Rest(v, r) => Seq::new(v@.len(), |i: int| v@[i].name@).push(r.name@),
    }
}

/// Nullary without parameters, variadic with a rest parameter, else n-ary.
pub open spec fn arity_of(ps: Parameters) -> Arity {
    match ps {
        Parameters::Normal(v) => if v@.len() == 0 { Arity::Nullary } else { Arity::Nary(v@.len() as usize) },
        Parameters::Rest(..) => Arity::Variadic,
    }
}

/// `r` is how a reference to `x` resolves in the frames `names`, outermost
/// first, where the innermost lambda's captures are `ups`: a parameter of the
/// innermost frame (its first slot of that name) is local; a name bound in an
/// enclosing frame is an upvalue whose capture names the nearest such frame and
/// the slot there; any other name is global.
pub open spec fn var_resolves(names: Seq<Seq<Seq<char>>>, ups: Seq<UpValue>, x: Seq<char>, r: VarRef) -> bool {
    let d = names.len() - 1;
    match r {
        VarRef::Local { index, .. } => {
            &&& names.len() > 0
            &&& index < names[d].len()
            &&& names[d][index as int] == x
            &&& forall|j: int| 0 <= j < index ==> #[trigger] names[d][j] != x
        },
        VarRef::UpValue { index, .. } => {
            &&& names.len() > 0
            &&& !names[d].contains(x)
            &&& index < ups.len()
            &&& ups[index as int].frame < d
            &&& ups[index as int].index < names[d - 1 - ups[index as int].frame].len()
            &&& names[d - 1 - ups[index as int].frame][ups[index as int].index as int] == x
            &&& forall|e: int| d - 1 - ups[index as int].frame < e <= d ==> !(#[trigger] names[e]).contains(x)
        },
        VarRef::Global { name, .. } => name@ == x && forall|e: int| 0 <= e < names.len() ==> !(#[trigger] names[e]).contains(x),
    }
}

/// `i` is what `a` resolves to in the frames `names`, with `ups` the captures
/// of the innermost lambda, node for node; each node keeps its source, each
/// variable resolves as `var_resolves` says, and a lambda's body resolves in
/// a new frame of its parameters against the lambda's own captures.
pub open spec fn resolved_from(names: Seq<Seq<Seq<char>>>, ups: Seq<UpValue>, a: Ast, i: Il) -> bool
    decreases a,
{
    &&& i.spec_source() == a.spec_source_sexpr()
    &&& match a {
        Ast::Lambda(x) => i matches Il::Lambda(l) && l.arity == arity_of(x.parameters) && l.body@.len() == x.body@.len()
            && forall|k: int| 0 <= k < x.body@.len() ==> resolved_from(names.push(parameter_names(x.parameters)), l.upvalues@, #[trigger] x.body@[k], l.body@[k]),
        Ast::Def(x) => i matches Il::Def { name, body, .. } && name@ == x.parameter.name@ && resolved_from(names, ups, *x.body, *body),
        Ast::Decl(x) => i matches Il::Def { name, body, .. } && name@ == x.parameter.name@ && resolved_from(names, ups, *x.body, *body),
        Ast::Assign(x) => match (x.variable, i) {
            (Variable::WithoutModule { name, .. }, Il::Assign { target, body, .. }) =>
                var_resolves(names, ups, name@, target) && resolved_from(names, ups, *x.body, *body),
            _ => false,
        },
        Ast::If(x) => i matches Il::If { predicate, consequent, alternative, .. } && resolved_from(names, ups, *x.predicate, *predicate)
            && resolved_from(names, ups, *x.consequent, *consequent) && resolved_from(names, ups, *x.alternative, *alternative),
        Ast::Variable(v) => match (v, i) {
            (Variable::WithoutModule { name, .. }, Il::VarRef(r)) => var_resolves(names, ups, name@, r),
            _ => false,
        },
        Ast::Constant(c) => i == Il::Constant(c),
        Ast::Quote(x) => i == (Il::Quote { source: x.source, body: x.body }),
        Ast::List(x) => i matches Il::List { exprs, .. } && exprs@.len() == x.exprs@.len()
            && forall|k: int| 0 <= k < x.exprs@.len() ==> resolved_from(names, ups, #[trigger] x.exprs@[k], exprs@[k]),
        Ast::Cons(x) => i matches Il::Cons { lhs, rhs, .. } && resolved_from(names, ups, *x.lhs, *lhs) && resolved_from(names, ups, *x.rhs, *rhs),
        Ast::Car(x) => i matches Il::Car { body, .. } && resolved_from(names, ups, *x.body, *body),
        Ast::Cdr(x) => i matches Il::Cdr { body, .. } && resolved_from(names, ups, *x.body, *body),
        Ast::FnCall(x) => i matches Il::FnCall { function, args, .. } && resolved_from(names, ups, *x.function, *function)
            && args@.len() == x.exprs@.len()
            && forall|k: int| 0 <= k < x.exprs@.len() ==> resolved_from(names, ups, #[trigger] x.exprs@[k], args@[k]),
        Ast::BinaryArithmeticOperation(x) => i matches Il::Arithmetic { operator, lhs, rhs, .. } && operator == x.operator
            && resolved_from(names, ups, *x.lhs, *lhs) && resolved_from(names, ups, *x.rhs, *rhs),
        Ast::ComparisonOperation(x) => i matches Il::Comparison { operator, lhs, rhs, .. } && operator == x.operator
            && resolved_from(names, ups, *x.lhs, *lhs) && resolved_from(names, ups, *x.rhs, *rhs),
        Ast::IsType(x) => i matches Il::IsType { parameter, body, .. } && parameter == x.parameter && resolved_from(names, ups, *x.body, *body),
        Ast::Assert(x) => i matches Il::Assert { body, .. } && resolved_from(names, ups, *x.body, *body),
        _ => false,
    }
}

/// `i` is what the top-level tree `a` resolves to, outside any lambda.
pub open spec fn il_from(a: Ast, i: Il) -> bool {
    resolved_from(Seq::empty(), Seq::empty(), a, i)
}

proof fn lemma_var_grow(names: Seq<Seq<Seq<char>>>, ups: Seq<UpValue>, ups2: Seq<UpValue>, x: Seq<char>, r: VarRef)
    requires
        var_resolves(names, ups, x, r),
        ups.len() <= ups2.len(),
        ups2.subrange(0, ups.len() as int) == ups,
    ensures
        var_resolves(names, ups2, x, r),
{
    if r is UpValue {
        let k = r->UpValue_index as int;
        assert(ups2[k] == ups2.subrange(0, ups.len() as int)[k]);
    }
}

proof fn lemma_resolved_grow(names: Seq<Seq<Seq<char>>>, ups: Seq<UpValue>, ups2: Seq<UpValue>, a: Ast, i: Il)
    requires
        resolved_from(names, ups, a, i),
        ups.len() <= ups2.len(),
        ups2.subrange(0, ups.len() as int) == ups,
    ensures
        resolved_from(names, ups2, a, i),
    decreases a,
{
    match a {
        Ast::Def(x) => {
            if let Il::Def { body, .. } = i {
                lemma_resolved_grow(names, ups, ups2, *x.body, *body);
            }
        },
        Ast::Decl(x) => {
            if let Il::Def { body, .. } = i {
                lemma_resolved_grow(names, ups, ups2, *x.body, *body);
            }
        },
        Ast::Assign(x) => {
            if let (Variable::WithoutModule { name, .. }, Il::Assign { target, body, .. }) = (x.variable, i) {
                lemma_var_grow(names, ups, ups2, name@, target);
                lemma_resolved_grow(names, ups, ups2, *x.body, *body);
            }
        },
        Ast::If(x) => {
            if let Il::If { predicate, consequent, alternative, .. } = i {
                lemma_resolved_grow(names, ups, ups2, *x.predicate, *predicate);
                lemma_resolved_grow(names, ups, ups2, *x.consequent, *consequent);
                lemma_resolved_grow(names, ups, ups2, *x.alternative, *alternative);
            }
        },
        Ast::Variable(v) => {
            if let (Variable::WithoutModule { name, .. }, Il::VarRef(r)) = (v, i) {
                lemma_var_grow(names, ups, ups2, name@, r);
            }
        },
        Ast::List(x) => {
            if let Il::List { exprs, .. } = i {
                assert forall|k: int| 0 <= k < x.exprs@.len() implies resolved_from(names, ups2, #[trigger] x.exprs@[k], exprs@[k]) by {
                    lemma_resolved_grow(names, ups, ups2, x.exprs@[k], exprs@[k]);
                }
            }
        },
        Ast::Cons(x) => {
            if let Il::Cons { lhs, rhs, .. } = i {
                lemma_resolved_grow(names, ups, ups2, *x.lhs, *lhs);
                lemma_resolved_grow(names, ups, ups2, *x.rhs, *rhs);
            }
        },
        Ast::Car(x) => {
            if let Il::Car { body, .. } = i {
                lemma_resolved_grow(names, ups, ups2, *x.body, *body);
            }
        },
        Ast::Cdr(x) => {
            if let Il::Cdr { body, .. } = i {
                lemma_resolved_grow(names, ups, ups2, *x.body, *body);
            }
        },
        Ast::FnCall(x) => {
            if let Il::FnCall { function, args, .. } = i {
                lemma_resolved_grow(names, ups, ups2, *x.function, *function);
                assert forall|k: int| 0 <= k < x.exprs@.len() implies resolved_from(names, ups2, #[trigger] x.exprs@[k], args@[k]) by {
                    lemma_resolved_grow(names, ups, ups2, x.exprs@[k], args@[k]);
                }
            }
        },
        Ast::BinaryArithmeticOperation(x) => {
            if let Il::Arithmetic { lhs, rhs, .. } = i {
                lemma_resolved_grow(names, ups, ups2, *x.lhs, *lhs);
                lemma_resolved_grow(names, ups, ups2, *x.rhs, *rhs);
            }
        },
        Ast::ComparisonOperation(x) => {
            if let Il::Comparison { lhs, rhs, .. } = i {
                lemma_resolved_grow(names, ups, ups2, *x.lhs, *lhs);
                lemma_resolved_grow(names, ups, ups2, *x.rhs, *rhs);
            }
        },
        Ast::IsType(x) => {
            if let Il::IsType { body, .. } = i {
                lemma_resolved_grow(names, ups, ups2, *x.body, *body);
            }
        },
        Ast::Assert(x) => {
            if let Il::Assert { body, .. } = i {
                lemma_resolved_grow(names, ups, ups2, *x.body, *body);
            }
        },
        _ => {},
    }
}

/// The nodes the resolver and the emitter handle: everything but modules,
/// macros, `apply` and the map operations.
pub open spec fn supported(a: Ast) -> bool
    decreases a,
{
    match a {
        Ast::Lambda(x) => forall|k: int| 0 <= k < x.body@.len() ==> supported(#[trigger] x.body@[k]),
        Ast::Def(x) => supported(*x.body),
        Ast::Decl(x) => supported(*x.body),
        Ast::Assign(x) => x.variable is WithoutModule && supported(*x.body),
        Ast::If(x) => supported(*x.predicate) && supported(*x.consequent) && supported(*x.alternative),
        Ast::Variable(v) => v is WithoutModule,
        Ast::Constant(_) | Ast::Quote(_) => true,
        Ast::List(x) => forall|k: int| 0 <= k < x.exprs@.len() ==> supported(#[trigger] x.exprs@[k]),
        Ast::Cons(x) => supported(*x.lhs) && supported(*x.rhs),
        Ast::Car(x) => supported(*x.body),
        Ast::Cdr(x) => supported(*x.body),
        Ast::FnCall(x) => supported(*x.function) && forall|k: int| 0 <= k < x.exprs@.len() ==> supported(#[trigger] x.exprs@[k]),
        Ast::BinaryArithmeticOperation(x) => supported(*x.lhs) && supported(*x.rhs),
        Ast::ComparisonOperation(x) => supported(*x.lhs) && supported(*x.rhs),
        Ast::IsType(x) => supported(*x.body),
        Ast::Assert(x) => supported(*x.body),
        _ => false,
    }
}

/// One lexical frame: the parameters of a lambda and the captures found so far.
#[derive(Debug)]
pub struct Scope {
    params: Vec<String>,
    upvalues: Vec<UpValue>,
}

/// The lexical frames from the outermost lambda to the innermost.
#[derive(Debug)]
pub struct Compiler {
    scopes: Vec<Scope>,
}

impl Compiler {
    /// The parameter names of frame `d`.
    pub closed spec fn names(&self, d: int) -> Seq<Seq<char>> {
        Seq::new(self.scopes@[d].params@.len(), |i: int| self.scopes@[d].params@[i]@)
    }

    pub closed spec fn depth(&self) -> int {
        self.scopes@.len() as int
    }

    /// The captures recorded for frame `d`.
    pub closed spec fn captures(&self, d: int) -> Seq<UpValue> {
        self.scopes@[d].upvalues@
    }

    /// Every capture of frame `e` names a slot of a frame that encloses it:
    /// `frame` counts the frames out from its parent.
    pub open spec fn captures_ok(&self) -> bool {
        forall|e: int, k: int| 0 <= e < self.depth() && 0 <= k < self.captures(e).len() ==> {
            let uv = #[trigger] self.captures(e)[k];
            &&& uv.frame < e
            &&& uv.index < self.names(e - 1 - uv.frame).len()
        }
    }

    /// Whether the frames and their names agree with `other`.
    pub open spec fn same_frames(&self, other: &Compiler) -> bool {
        &&& self.depth() == other.depth()
        &&& forall|d: int| 0 <= d < self.depth() ==> #[trigger] self.names(d) == other.names(d)
        &&& forall|d: int| 0 <= d < self.depth() ==> other.captures(d).len() <= #[trigger] self.captures(d).len()
            && self.captures(d).subrange(0, other.captures(d).len() as int) == other.captures(d)
    }

    /// A resolver outside any lambda.
    pub fn new() -> (r: Compiler)
        ensures
            r.depth() == 0,
            r.captures_ok(),
    {
        Compiler { scopes: Vec::new() }
    }
}


proof fn lemma_same_frames_refl(c: &Compiler)
    ensures
        c.same_frames(c),
{
    assert forall|d: int| 0 <= d < c.depth() implies c.captures(d).subrange(0, c.captures(d).len() as int) == c.captures(d) by {
        assert(c.captures(d).subrange(0, c.captures(d).len() as int) =~= c.captures(d));
    }
}

fn position(names: &Vec<String>, name: &String) -> (r: Option<usize>)
    ensures
        match r {
            Some(i) => i < names@.len() && names@[i as int]@ == name@
                && forall|j: int| 0 <= j < i ==> #[trigger] names@[j]@ != name@,
            None => forall|j: int| 0 <= j < names@.len() ==> #[trigger] names@[j]@ != name@,
        },
{
    let mut i: usize = 0;
    while i < names.len()
        invariant
            i <= names@.len(),
            forall|j: int| 0 <= j < i ==> #[trigger] names@[j]@ != name@,
        decreases names@.len() - i,
    {
        if names[i] == *name {
            return Some(i);
        }
        i = i + 1;
    }
    None
}

fn resolve_error(source: Source, message: &str) -> (e: Error)
    ensures
        e.source == source,
{
    Error { source, message: message.to_owned() }
}

impl Compiler {
    /// The innermost frame binding `name`, and its slot there.
    fn find_binding(&self, name: &String) -> (r: Option<(usize, usize)>)
        ensures
            match r {
                Some((d, i)) => d < self.depth() && i < self.names(d as int).len()
                    && self.names(d as int)[i as int] == name@
                    && (forall|j: int| 0 <= j < i ==> #[trigger] self.names(d as int)[j] != name@)
                    && forall|e: int| d < e < self.depth() ==> !(#[trigger] self.names(e)).contains(name@),
                None => forall|e: int| 0 <= e < self.depth() ==> !(#[trigger] self.names(e)).contains(name@),
            },
    {
        let mut d = self.scopes.len();
        while d > 0
            invariant
                d <= self.depth(),
                forall|e: int| d <= e < self.depth() ==> !(#[trigger] self.names(e)).contains(name@),
            decreases d,
        {
            d = d - 1;
            match position(&self.scopes[d].params, name) {
                Some(i) => {
                    assert(self.names(d as int)[i as int] == self.scopes@[d as int].params@[i as int]@);
                    return Some((d, i));
                },
                None => {
                    assert forall|j: int| 0 <= j < self.names(d as int).len() implies self.names(d as int)[j] != name@ by {
                        assert(self.names(d as int)[j] == self.scopes@[d as int].params@[j]@);
                    }
                },
            }
        }
        None
    }

    /// Records `uv` among the captures of frame `e`, once, and gives its place.
    fn add_capture(&mut self, e: usize, uv: UpValue) -> (k: usize)
        requires
            old(self).captures_ok(),
            e < old(self).depth(),
            uv.frame < e,
            uv.index < old(self).names(e - 1 - uv.frame).len(),
        ensures
            final(self).captures_ok(),
            final(self).same_frames(&*old(self)),
            k < final(self).captures(e as int).len(),
            final(self).captures(e as int)[k as int] == uv,
            forall|d: int| 0 <= d < final(self).depth() && d != e ==> #[trigger] final(self).captures(d) == old(self).captures(d),
    {
        let mut k: usize = 0;
        while k < self.scopes[e].upvalues.len()
            invariant
                e < self.depth(),
                k <= self.captures(e as int).len(),
                *self == *old(self),
                self.captures_ok(),
            decreases self.captures(e as int).len() - k,
        {
            if self.scopes[e].upvalues[k] == uv {
                assert(self.same_frames(&*old(self))) by {
                    assert forall|d: int| 0 <= d < self.depth() implies self.captures(d).subrange(0, old(self).captures(d).len() as int) == old(self).captures(d) by {
                        assert(self.captures(d).subrange(0, old(self).captures(d).len() as int) =~= old(self).captures(d));
                    }
                }
                return k;
            }
            k = k + 1;
        }
        let ghost before = *self;
        self.scopes[e].upvalues.push(uv);
        proof {
            assert forall|d: int| 0 <= d < self.depth() implies #[trigger] self.names(d) == before.names(d) by {
                assert(self.names(d) =~= before.names(d));
            }
            assert forall|d: int| 0 <= d < self.depth() implies before.captures(d).len() <= #[trigger] self.captures(d).len()
                && self.captures(d).subrange(0, before.captures(d).len() as int) == before.captures(d) by {
                assert(self.captures(d).subrange(0, before.captures(d).len() as int) =~= before.captures(d));
            }
            assert forall|d: int, j: int| 0 <= d < self.depth() && 0 <= j < self.captures(d).len() implies {
                let w = #[trigger] self.captures(d)[j];
                &&& w.frame < d
                &&& w.index < self.names(d - 1 - w.frame).len()
            } by {
                if d != e || j < before.captures(d).len() {
                    assert(self.captures(d)[j] == before.captures(d)[j]);
                    assert(self.names(d - 1 - self.captures(d)[j].frame) == before.names(d - 1 - before.captures(d)[j].frame));
                } else {
                    assert(self.names(d - 1 - uv.frame) == before.names(d - 1 - uv.frame));
                }
            }
        }
        k
    }

    /// Resolves a variable name: a parameter of the innermost frame is a local;
    /// one of an enclosing frame becomes an upvalue, captured by every frame in
    /// between; any other name is a global.
    pub fn resolve(&mut self, source: Source, name: String) -> (r: VarRef)
        requires
            old(self).captures_ok(),
        ensures
            final(self).captures_ok(),
            final(self).same_frames(&*old(self)),
            r.spec_source() == source,
            match r {
                VarRef::Local { index, .. } => old(self).depth() > 0
                    && index < old(self).names(old(self).depth() - 1).len()
                    && old(self).names(old(self).depth() - 1)[index as int] == name@
                    && forall|j: int| 0 <= j < index ==> #[trigger] old(self).names(old(self).depth() - 1)[j] != name@,
                VarRef::UpValue { index, .. } => {
                    let d = old(self).depth() - 1;
                    &&& d >= 0
                    &&& !old(self).names(d).contains(name@)
                    &&& index < final(self).captures(d).len()
                    &&& old(self).names(d - 1 - final(self).captures(d)[index as int].frame)[final(self).captures(d)[index as int].index as int] == name@
                    &&& forall|e: int| d - 1 - final(self).captures(d)[index as int].frame < e <= d
                        ==> !(#[trigger] old(self).names(e)).contains(name@)
                },
                VarRef::Global { name: global, .. } => global@ == name@
                    && forall|e: int| 0 <= e < old(self).depth() ==> !(#[trigger] old(self).names(e)).contains(name@),
            },
    {
        let n = self.scopes.len();
        proof {
            lemma_same_frames_refl(self);
        }
        match self.find_binding(&name) {
            None => VarRef::Global { source, name },
            Some((d, i)) => {
                if d + 1 == n {
                    VarRef::Local { source, index: i }
                } else {
                    let ghost start = *self;
                    let mut e = d + 1;
                    let mut k: usize = 0;
                    while e < n
                        invariant
                            d + 1 <= e <= n,
                            d + 1 < n,
                            n == self.depth(),
                            self.captures_ok(),
                            self.same_frames(&start),
                            i < start.names(d as int).len(),
                            e > d + 1 ==> k < self.captures(e - 1).len() && self.captures(e - 1)[k as int] == (UpValue { frame: (e - 2 - d) as usize, index: i }),
                        decreases n - e,
                    {
                        let ghost prev = *self;
                        assert(self.names(d as int) == start.names(d as int));
                        k = self.add_capture(e, UpValue { frame: e - 1 - d, index: i });
                        proof {
                            assert forall|x: int| 0 <= x < self.depth() implies #[trigger] self.names(x) == start.names(x) by {
                                assert(self.names(x) == prev.names(x));
                            }
                            assert forall|x: int| 0 <= x < self.depth() implies start.captures(x).len() <= #[trigger] self.captures(x).len()
                                && self.captures(x).subrange(0, start.captures(x).len() as int) == start.captures(x) by {
                                assert(prev.captures(x).subrange(0, start.captures(x).len() as int) == start.captures(x));
                                assert(self.captures(x).subrange(0, prev.captures(x).len() as int) == prev.captures(x));
                                assert(self.captures(x).subrange(0, start.captures(x).len() as int) =~= start.captures(x));
                            }
                        }
                        e = e + 1;
                    }
                    proof {
                        assert(self.names(d as int) == old(self).names(d as int));
                    }
                    VarRef::UpValue { source, index: k }
                }
            },
        }
    }
}


proof fn lemma_same_frames_trans(a: &Compiler, b: &Compiler, c: &Compiler)
    requires
        a.same_frames(b),
        b.same_frames(c),
    ensures
        a.same_frames(c),
{
    assert forall|d: int| 0 <= d < a.depth() implies c.captures(d).len() <= #[trigger] a.captures(d).len()
        && a.captures(d).subrange(0, c.captures(d).len() as int) == c.captures(d) by {
        assert(b.captures(d).subrange(0, c.captures(d).len() as int) == c.captures(d));
        assert(a.captures(d).subrange(0, b.captures(d).len() as int) == b.captures(d));
        assert(a.captures(d).subrange(0, c.captures(d).len() as int) =~= c.captures(d));
    }
}

impl Compiler {
    /// The parameter names of the frames in scope, outermost first.
    pub open spec fn env(&self) -> Seq<Seq<Seq<char>>> {
        Seq::new(self.depth() as nat, |d: int| self.names(d))
    }

    /// The captures recorded so far for the innermost frame, if any.
    pub open spec fn innermost(&self) -> Seq<UpValue> {
        if self.depth() > 0 { self.captures(self.depth() - 1) } else { Seq::empty() }
    }
}

proof fn lemma_frames_env(a: &Compiler, b: &Compiler)
    requires
        a.same_frames(b),
    ensures
        a.env() == b.env(),
        b.innermost().len() <= a.innermost().len(),
        a.innermost().subrange(0, b.innermost().len() as int) == b.innermost(),
{
    assert(a.env() =~= b.env());
    if a.depth() == 0 {
        assert(a.innermost().subrange(0, 0) =~= b.innermost());
    }
}

proof fn lemma_lift(later: &Compiler, earlier: &Compiler, names: Seq<Seq<Seq<char>>>, a: Ast, i: Il)
    requires
        later.same_frames(earlier),
        resolved_from(names, earlier.innermost(), a, i),
    ensures
        resolved_from(names, later.innermost(), a, i),
{
    lemma_frames_env(later, earlier);
    lemma_resolved_grow(names, earlier.innermost(), later.innermost(), a, i);
}

/// Every capture of a lambda names a slot of a frame that encloses it when
/// the lambda is built, in the frames of `c`.
pub open spec fn captures_in(il: Il, c: &Compiler) -> bool {
    il matches Il::Lambda(l) ==> forall|k: int| 0 <= k < l.upvalues@.len() ==> {
        let uv = #[trigger] l.upvalues@[k];
        &&& uv.frame < c.depth()
        &&& uv.index < c.names(c.depth() - 1 - uv.frame).len()
    }
}

impl Compiler {
    /// Resolves a sequence of trees, one after the other.
    fn compile_all(&mut self, asts: Vec<Ast>) -> (r: Result<Vec<Il>, Error>)
        requires
            old(self).captures_ok(),
        ensures
            final(self).captures_ok(),
            final(self).same_frames(&*old(self)),
            r is Ok <==> forall|k: int| 0 <= k < asts@.len() ==> supported(#[trigger] asts@[k]),
            r matches Ok(v) ==> v@.len() == asts@.len()
                && forall|k: int| 0 <= k < asts@.len() ==> resolved_from(old(self).env(), final(self).innermost(), #[trigger] asts@[k], v@[k]),
        decreases asts, 0int,
    {
        let ghost orig = asts@;
        let ghost start = *self;
        proof {
            lemma_same_frames_refl(self);
        }
        let total = asts.len();
        let mut rest = asts;
        let mut out: Vec<Il> = Vec::new();
        let mut k: usize = 0;
        while rest.len() > 0
            invariant
                k <= orig.len(),
                orig.len() == total,
                rest@ == orig.subrange(k as int, orig.len() as int),
                out@.len() == k,
                forall|j: int| 0 <= j < k ==> supported(#[trigger] orig[j]),
                forall|j: int| 0 <= j < k ==> resolved_from(start.env(), self.innermost(), #[trigger] orig[j], out@[j]),
                self.captures_ok(),
                self.same_frames(&start),
                start == *old(self),
                orig == asts@,
            decreases rest@.len(),
        {
            let a = rest.remove(0);
            assert(a == orig[k as int]);
            proof {
                assert(decreases_to!(asts => asts@[k as int]));
            }
            let ghost before = *self;
            match self.compile(a) {
                Ok(il) => out.push(il),
                Err(e) => {
                    proof {
                        lemma_same_frames_trans(self, &before, &start);
                    }
                    return Err(e);
                },
            }
            proof {
                lemma_same_frames_trans(self, &before, &start);
                lemma_frames_env(&before, &start);
                assert forall|j: int| 0 <= j < k + 1 implies resolved_from(start.env(), self.innermost(), #[trigger] orig[j], out@[j]) by {
                    if j < k {
                        lemma_lift(self, &before, start.env(), orig[j], out@[j]);
                    }
                }
            }
            k = k + 1;
        }
        Ok(out)
    }

    fn compile_lambda(&mut self, x: ast::Lambda) -> (r: Result<Il, Error>)
        requires
            old(self).captures_ok(),
        ensures
            final(self).captures_ok(),
            final(self).same_frames(&*old(self)),
            r is Ok <==> supported(Ast::Lambda(x)),
            r matches Ok(il) ==> resolved_from(old(self).env(), final(self).innermost(), Ast::Lambda(x), il) && captures_in(il, &*old(self)),
        decreases x, 1int,
    {
        let ghost whole = Ast::Lambda(x);
        let ghost ps = x.parameters;
        let ghost pn = parameter_names(x.parameters);
        let (names, arity) = match x.parameters {
            Parameters::Normal(v) => {
                let mut names: Vec<String> = Vec::new();
                let mut i: usize = 0;
                while i < v.len()
                    invariant
                        i <= v@.len(),
                        names@.len() == i,
                        forall|j: int| 0 <= j < i ==> #[trigger] names@[j]@ == v@[j].name@,
                    decreases v@.len() - i,
                {
                    names.push(v[i].name.clone());
                    i = i + 1;
                }
                let arity = if v.len() == 0 { Arity::Nullary } else { Arity::Nary(v.len()) };
                assert(Seq::new(names@.len(), |j: int| names@[j]@) =~= pn);
                (names, arity)
            },
            Parameters::Rest(v, rest) => {
                let mut names: Vec<String> = Vec::new();
                let mut i: usize = 0;
                while i < v.len()
                    invariant
                        i <= v@.len(),
                        names@.len() == i,
                        forall|j: int| 0 <= j < i ==> #[trigger] names@[j]@ == v@[j].name@,
                    decreases v@.len() - i,
                {
                    names.push(v[i].name.clone());
                    i = i + 1;
                }
                names.push(rest.name);
                assert(Seq::new(names@.len(), |j: int| names@[j]@) =~= pn);
                (names, Arity::Variadic)
            },
        };
        let ghost outer = *self;
        self.scopes.push(Scope { params: names, upvalues: Vec::new() });
        let ghost inner = *self;
        proof {
            assert(inner.names(outer.depth()) =~= pn);
            assert(inner.env() =~= outer.env().push(pn));
            assert forall|d: int| 0 <= d < outer.depth() implies #[trigger] inner.names(d) == outer.names(d) by {
                assert(inner.names(d) =~= outer.names(d));
            }
            assert forall|e: int, k: int| 0 <= e < inner.depth() && 0 <= k < inner.captures(e).len() implies {
                let uv = #[trigger] inner.captures(e)[k];
                &&& uv.frame < e
                &&& uv.index < inner.names(e - 1 - uv.frame).len()
            } by {
                assert(e < outer.depth());
                assert(inner.captures(e) == outer.captures(e));
                assert(inner.names(e - 1 - inner.captures(e)[k].frame) == outer.names(e - 1 - outer.captures(e)[k].frame));
            }
        }
        let source = x.source;
        let body = self.compile_all(x.body);
        let ghost after = *self;
        let scope = self.scopes.pop().unwrap();
        proof {
            assert(self.depth() == outer.depth());
            assert forall|d: int| 0 <= d < self.depth() implies #[trigger] self.names(d) == outer.names(d) by {
                assert(self.names(d) =~= after.names(d));
                assert(after.names(d) == inner.names(d));
            }
            assert forall|d: int| 0 <= d < self.depth() implies outer.captures(d).len() <= #[trigger] self.captures(d).len()
                && self.captures(d).subrange(0, outer.captures(d).len() as int) == outer.captures(d) by {
                assert(self.captures(d) == after.captures(d));
                assert(after.captures(d).subrange(0, inner.captures(d).len() as int) == inner.captures(d));
                assert(inner.captures(d) == outer.captures(d));
            }
            assert forall|e: int, k: int| 0 <= e < self.depth() && 0 <= k < self.captures(e).len() implies {
                let uv = #[trigger] self.captures(e)[k];
                &&& uv.frame < e
                &&& uv.index < self.names(e - 1 - uv.frame).len()
            } by {
                assert(self.captures(e) == after.captures(e));
                let uv = after.captures(e)[k];
                assert(uv.frame < e && uv.index < after.names(e - 1 - uv.frame).len());
                assert(self.names(e - 1 - uv.frame) == after.names(e - 1 - uv.frame));
            }
            let e = outer.depth();
            assert(scope.upvalues@ == after.captures(e));
            assert forall|k: int| 0 <= k < scope.upvalues@.len() implies {
                let uv = #[trigger] scope.upvalues@[k];
                &&& uv.frame < outer.depth()
                &&& uv.index < outer.names(outer.depth() - 1 - uv.frame).len()
            } by {
                let uv = after.captures(e)[k];
                assert(uv.frame < e && uv.index < after.names(e - 1 - uv.frame).len());
                assert(after.names(e - 1 - uv.frame) == outer.names(e - 1 - uv.frame));
            }
        }
        match body {
            Ok(body) => {
                let r = Il::Lambda(Lambda { source, arity, upvalues: scope.upvalues, body });
                proof {
                    assert(after.innermost() == scope.upvalues@);
                    assert(outer == *old(self));
                }
                Ok(r)
            },
            Err(e) => Err(e),
        }
    }

    /// Resolves every variable of a tree against the frames in scope.
    pub fn compile(&mut self, ast: Ast) -> (r: Result<Il, Error>)
        requires
            old(self).captures_ok(),
        ensures
            final(self).captures_ok(),
            final(self).same_frames(&*old(self)),
            r is Ok <==> supported(ast),
            r matches Ok(il) ==> resolved_from(old(self).env(), final(self).innermost(), ast, il) && captures_in(il, &*old(self)),
            old(self).depth() == 0 ==> (r matches Ok(il) ==> il_from(ast, il)),
        decreases ast, 2int,
    {
        let ghost whole = ast;
        let ghost s0 = *self;
        let whole_source = ast.source_sexpr();
        proof {
            lemma_same_frames_refl(self);
        }
        let r = match ast {
            Ast::Lambda(x) => self.compile_lambda(x),
            Ast::Def(x) => {
                let body = self.compile(*x.body)?;
                Ok(Il::Def { source: x.source, name: x.parameter.name, body: Box::new(body) })
            },
            Ast::Decl(x) => {
                let body = self.compile(*x.body)?;
                Ok(Il::Def { source: x.source, name: x.parameter.name, body: Box::new(body) })
            },
            Ast::Assign(x) => {
                let (target, tname) = match x.variable {
                    Variable::WithoutModule { source, name } => {
                        let ghost n = name@;
                        let t = self.resolve(source, name);
                        (t, Ghost(n))
                    },
                    Variable::WithModule { .. } => return Err(resolve_error(x.source, "module-qualified variables are not supported")),
                };
                let ghost mid = *self;
                proof {
                    self.lemma_var_from_resolve(&s0, tname@, target);
                }
                let body = self.compile(*x.body);
                proof {
                    lemma_same_frames_trans(self, &mid, &*old(self));
                    lemma_frames_env(&mid, &s0);
                    lemma_frames_env(self, &mid);
                    lemma_var_grow(s0.env(), mid.innermost(), self.innermost(), tname@, target);
                }
                let body = body?;
                Ok(Il::Assign { source: x.source, target, body: Box::new(body) })
            },
            Ast::If(x) => {
                let p = self.compile(*x.predicate);
                let ghost s1 = *self;
                let p = p?;
                let c = self.compile(*x.consequent);
                proof {
                    lemma_same_frames_trans(self, &s1, &s0);
                    lemma_frames_env(&s1, &s0);
                }
                let ghost s2 = *self;
                let c = c?;
                let a = self.compile(*x.alternative);
                proof {
                    lemma_same_frames_trans(self, &s2, &s0);
                    lemma_frames_env(&s2, &s0);
                    lemma_same_frames_trans(self, &s2, &s1);
                }
                let a = a?;
                proof {
                    lemma_lift(self, &s1, s0.env(), *x.predicate, p);
                    lemma_lift(self, &s2, s0.env(), *x.consequent, c);
                }
                Ok(Il::If { source: x.source, predicate: Box::new(p), consequent: Box::new(c), alternative: Box::new(a) })
            },
            Ast::Variable(v) => match v {
                Variable::WithoutModule { source, name } => {
                    let ghost n = name@;
                    let t = self.resolve(source, name);
                    proof {
                        self.lemma_var_from_resolve(&s0, n, t);
                    }
                    Ok(Il::VarRef(t))
                },
                Variable::WithModule { source, .. } => Err(resolve_error(source, "module-qualified variables are not supported")),
            },
            Ast::Constant(c) => Ok(Il::Constant(c)),
            Ast::Quote(x) => Ok(Il::Quote { source: x.source, body: x.body }),
            Ast::List(x) => {
                proof {
                    assert(decreases_to!(whole => x.exprs));
                }
                let exprs = self.compile_all(x.exprs)?;
                Ok(Il::List { source: x.source, exprs })
            },
            Ast::Cons(x) => {
                let l = self.compile(*x.lhs);
                let ghost s1 = *self;
                let l = l?;
                let r = self.compile(*x.rhs);
                proof {
                    lemma_same_frames_trans(self, &s1, &s0);
                    lemma_frames_env(&s1, &s0);
                }
                let r = r?;
                proof {
                    lemma_lift(self, &s1, s0.env(), *x.lhs, l);
                }
                Ok(Il::Cons { source: x.source, lhs: Box::new(l), rhs: Box::new(r) })
            },
            Ast::Car(x) => {
                let body = self.compile(*x.body)?;
                Ok(Il::Car { source: x.source, body: Box::new(body) })
            },
            Ast::Cdr(x) => {
                let body = self.compile(*x.body)?;
                Ok(Il::Cdr { source: x.source, body: Box::new(body) })
            },
            Ast::FnCall(x) => {
                let f = self.compile(*x.function);
                let ghost s1 = *self;
                let f = f?;
                proof {
                    assert(decreases_to!(whole => x.exprs));
                }
                let args = self.compile_all(x.exprs);
                proof {
                    lemma_same_frames_trans(self, &s1, &s0);
                    lemma_frames_env(&s1, &s0);
                }
                let args = args?;
                proof {
                    lemma_lift(self, &s1, s0.env(), *x.function, f);
                }
                Ok(Il::FnCall { source: x.source, function: Box::new(f), args })
            },
            Ast::BinaryArithmeticOperation(x) => {
                let l = self.compile(*x.lhs);
                let ghost s1 = *self;
                let l = l?;
                let r = self.compile(*x.rhs);
                proof {
                    lemma_same_frames_trans(self, &s1, &s0);
                    lemma_frames_env(&s1, &s0);
                }
                let r = r?;
                proof {
                    lemma_lift(self, &s1, s0.env(), *x.lhs, l);
                }
                Ok(Il::Arithmetic { source: x.source, operator: x.operator, lhs: Box::new(l), rhs: Box::new(r) })
            },
            Ast::ComparisonOperation(x) => {
                let l = self.compile(*x.lhs);
                let ghost s1 = *self;
                let l = l?;
                let r = self.compile(*x.rhs);
                proof {
                    lemma_same_frames_trans(self, &s1, &s0);
                    lemma_frames_env(&s1, &s0);
                }
                let r = r?;
                proof {
                    lemma_lift(self, &s1, s0.env(), *x.lhs, l);
                }
                Ok(Il::Comparison { source: x.source, operator: x.operator, lhs: Box::new(l), rhs: Box::new(r) })
            },
            Ast::IsType(x) => {
                let body = self.compile(*x.body)?;
                Ok(Il::IsType { source: x.source, parameter: x.parameter, body: Box::new(body) })
            },
            Ast::Assert(x) => {
                let body = self.compile(*x.body)?;
                Ok(Il::Assert { source: x.source, body: Box::new(body) })
            },
            _ => Err(resolve_error(whole_source, "form not supported by the compiler")),
        };
        proof {
            if r is Ok && old(self).depth() == 0 {
                lemma_frames_env(self, &s0);
                assert(s0.env() =~= Seq::<Seq<Seq<char>>>::empty());
            }
        }
        r
    }

    proof fn lemma_var_from_resolve(&self, old_self: &Compiler, name: Seq<char>, r: VarRef)
        requires
            self.captures_ok(),
            self.same_frames(old_self),
            match r {
                VarRef::Local { index, .. } => old_self.depth() > 0
                    && index < old_self.names(old_self.depth() - 1).len()
                    && old_self.names(old_self.depth() - 1)[index as int] == name
                    && forall|j: int| 0 <= j < index ==> #[trigger] old_self.names(old_self.depth() - 1)[j] != name,
                VarRef::UpValue { index, .. } => {
                    let d = old_self.depth() - 1;
                    &&& d >= 0
                    &&& !old_self.names(d).contains(name)
                    &&& index < self.captures(d).len()
                    &&& old_self.names(d - 1 - self.captures(d)[index as int].frame)[self.captures(d)[index as int].index as int] == name
                    &&& forall|e: int| d - 1 - self.captures(d)[index as int].frame < e <= d
                        ==> !(#[trigger] old_self.names(e)).contains(name)
                },
                VarRef::Global { name: global, .. } => global@ == name
                    && forall|e: int| 0 <= e < old_self.depth() ==> !(#[trigger] old_self.names(e)).contains(name),
            },
        ensures
            var_resolves(old_self.env(), self.innermost(), name, r),
    {
        if let VarRef::UpValue { index, .. } = r {
            let d = old_self.depth() - 1;
            let uv = self.captures(d)[index as int];
            assert(uv.frame < d && uv.index < self.names(d - 1 - uv.frame).len());
            assert(self.names(d - 1 - uv.frame) == old_self.names(d - 1 - uv.frame));
        }
    }
}


/// Resolution keeps provenance: each node cites the source of the tree node
/// it was resolved from.
pub proof fn lemma_resolution_keeps_source(names: Seq<Seq<Seq<char>>>, ups: Seq<UpValue>, a: Ast, i: Il)
    requires
        resolved_from(names, ups, a, i),
    ensures
        i.spec_source() == a.spec_source_sexpr(),
{
}

} // verus!
