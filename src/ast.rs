//! Lowering of S-expressions to a typed syntax tree in which every special
//! form has its own node and every node keeps the provenance of its source.
use vstd::prelude::*;

use crate::sexpr::{Sexpr, Source};
use crate::text::{substring, text_eq};
use vstd::string::StrSliceExecFns;

verus! {

/// A failure to lower an S-expression: where it happened, and why.
#[derive(Debug)]
pub struct Error {
    pub source: Source,
    pub message: String,
}

/// Lowers S-expressions and remembers the names that `defmacro` introduced.
#[derive(Debug)]
pub struct Compiler {
    macros: Vec<String>,
}

/// A type annotation: a symbol, or a sequence of types.
#[derive(Debug)]
pub enum Type {
    Scalar(String),
    Composite(Vec<Type>),
}

/// A reference to a variable, bare or qualified by a module.
#[derive(Debug)]
pub enum Variable {
    WithoutModule { source: Source, name: String },
    WithModule { source: Source, name: String, module: String },
}

/// A parameter name with an optional type.
#[derive(Debug)]
pub struct Parameter {
    pub name: String,
    pub ty: Option<Type>,
}

/// A parameter list, with or without a trailing rest parameter.
#[derive(Debug)]
pub enum Parameters {
    Normal(Vec<Parameter>),
    Rest(Vec<Parameter>, Parameter),
}

#[derive(Debug, Clone, Copy, PartialEq, Eq, Structural)]
pub enum BinaryArithmeticOperator {
    Add,
    Sub,
    Mul,
    Div,
}

#[derive(Debug, Clone, Copy, PartialEq, Eq, Structural)]
pub enum ComparisonOperator {
    Lt,
    Gt,
    Eq,
}

#[derive(Debug, Clone, Copy, PartialEq, Eq, Structural)]
pub enum IsTypeParameter {
    Function,
    Cons,
    Symbol,
    String,
    Int,
    Char,
    Bool,
    Nil,
}

/// A literal carried into the tree unchanged.
#[derive(Debug)]
pub enum Constant {
    String { source: Source, string: String },
    Char { source: Source, value: char },
    Int { source: Source, value: i64 },
    Bool { source: Source, value: bool },
    Nil { source: Source },
}

/// Quoted data: the S-expression shape, kept apart from the tree so that it
/// survives being handed to a macro and read back.
#[derive(Debug)]
pub enum Quoted {
    List { source: Source, list: Vec<Quoted> },
    Symbol { source: Source, symbol: String },
    String { source: Source, string: String },
    Char { source: Source, value: char },
    Int { source: Source, value: i64 },
    Bool { source: Source, value: bool },
    Nil { source: Source },
}

/// The special forms that a list headed by a reserved symbol may be.
#[derive(Debug, Clone, Copy, PartialEq, Eq, Structural)]
pub enum Form {
    Module,
    Require,
    EvalWhenCompile,
    DefMacro,
    Lambda,
    Def,
    Decl,
    Assign,
    If,
    Apply,
    Arithmetic(BinaryArithmeticOperator),
    Comparison(ComparisonOperator),
    List,
    Cons,
    Car,
    Cdr,
    IsType(IsTypeParameter),
    Quote,
    Assert,
    MapCreate,
    MapInsert,
    MapRetrieve,
    MapItems,
    Export,
}

/// The special form that a reserved symbol names, if it names one.
pub open spec fn spec_form_of(s: Seq<char>) -> Option<Form> {
    if s == "+"@ { Some(Form::Arithmetic(BinaryArithmeticOperator::Add)) }
    else if s == "-"@ { Some(Form::Arithmetic(BinaryArithmeticOperator::Sub)) }
    else if s == "*"@ { Some(Form::Arithmetic(BinaryArithmeticOperator::Mul)) }
    else if s == "/"@ { Some(Form::Arithmetic(BinaryArithmeticOperator::Div)) }
    else if s == "="@ { Some(Form::Comparison(ComparisonOperator::Eq)) }
    else if s == "<"@ { Some(Form::Comparison(ComparisonOperator::Lt)) }
    else if s == ">"@ { Some(Form::Comparison(ComparisonOperator::Gt)) }
    else if s == "cons"@ { Some(Form::Cons) }
    else if s == "car"@ { Some(Form::Car) }
    else if s == "cdr"@ { Some(Form::Cdr) }
    else if s == "list"@ { Some(Form::List) }
    else if s == "apply"@ { Some(Form::Apply) }
    else if s == "function?"@ { Some(Form::IsType(IsTypeParameter::Function)) }
    else if s == "cons?"@ { Some(Form::IsType(IsTypeParameter::Cons)) }
    else if s == "symbol?"@ { Some(Form::IsType(IsTypeParameter::Symbol)) }
    else if s == "string?"@ { Some(Form::IsType(IsTypeParameter::String)) }
    else if s == "int?"@ { Some(Form::IsType(IsTypeParameter::Int)) }
    else if s == "char?"@ { Some(Form::IsType(IsTypeParameter::Char)) }
    else if s == "bool?"@ { Some(Form::IsType(IsTypeParameter::Bool)) }
    else if s == "nil?"@ { Some(Form::IsType(IsTypeParameter::Nil)) }
    else if s == "lambda"@ { Some(Form::Lambda) }
    else if s == "defmacro"@ { Some(Form::DefMacro) }
    else if s == "def"@ { Some(Form::Def) }
    else if s == "decl"@ { Some(Form::Decl) }
    else if s == "set!"@ { Some(Form::Assign) }
    else if s == "eval-when-compile"@ { Some(Form::EvalWhenCompile) }
    else if s == "quote"@ { Some(Form::Quote) }
    else if s == "if"@ { Some(Form::If) }
    else if s == "assert"@ { Some(Form::Assert) }
    else if s == "map-create"@ { Some(Form::MapCreate) }
    else if s == "map-insert!"@ { Some(Form::MapInsert) }
    else if s == "map-retrieve"@ { Some(Form::MapRetrieve) }
    else if s == "map-items"@ { Some(Form::MapItems) }
    else if s == "module"@ { Some(Form::Module) }
    else if s == "export"@ { Some(Form::Export) }
    else if s == "require"@ { Some(Form::Require) }
    else { None }
}

/// The special form that a reserved symbol names, if it names one.
pub fn form_of(s: &str) -> (r: Option<Form>)
    ensures
        r == spec_form_of(s@),
{
    if text_eq(s, "+") { Some(Form::Arithmetic(BinaryArithmeticOperator::Add)) }
    else if text_eq(s, "-") { Some(Form::Arithmetic(BinaryArithmeticOperator::Sub)) }
    else if text_eq(s, "*") { Some(Form::Arithmetic(BinaryArithmeticOperator::Mul)) }
    else if text_eq(s, "/") { Some(Form::Arithmetic(BinaryArithmeticOperator::Div)) }
    else if text_eq(s, "=") { Some(Form::Comparison(ComparisonOperator::Eq)) }
    else if text_eq(s, "<") { Some(Form::Comparison(ComparisonOperator::Lt)) }
    else if text_eq(s, ">") { Some(Form::Comparison(ComparisonOperator::Gt)) }
    else if text_eq(s, "cons") { Some(Form::Cons) }
    else if text_eq(s, "car") { Some(Form::Car) }
    else if text_eq(s, "cdr") { Some(Form::Cdr) }
    else if text_eq(s, "list") { Some(Form::List) }
    else if text_eq(s, "apply") { Some(Form::Apply) }
    else if text_eq(s, "function?") { Some(Form::IsType(IsTypeParameter::Function)) }
    else if text_eq(s, "cons?") { Some(Form::IsType(IsTypeParameter::Cons)) }
    else if text_eq(s, "symbol?") { Some(Form::IsType(IsTypeParameter::Symbol)) }
    else if text_eq(s, "string?") { Some(Form::IsType(IsTypeParameter::String)) }
    else if text_eq(s, "int?") { Some(Form::IsType(IsTypeParameter::Int)) }
    else if text_eq(s, "char?") { Some(Form::IsType(IsTypeParameter::Char)) }
    else if text_eq(s, "bool?") { Some(Form::IsType(IsTypeParameter::Bool)) }
    else if text_eq(s, "nil?") { Some(Form::IsType(IsTypeParameter::Nil)) }
    else if text_eq(s, "lambda") { Some(Form::Lambda) }
    else if text_eq(s, "defmacro") { Some(Form::DefMacro) }
    else if text_eq(s, "def") { Some(Form::Def) }
    else if text_eq(s, "decl") { Some(Form::Decl) }
    else if text_eq(s, "set!") { Some(Form::Assign) }
    else if text_eq(s, "eval-when-compile") { Some(Form::EvalWhenCompile) }
    else if text_eq(s, "quote") { Some(Form::Quote) }
    else if text_eq(s, "if") { Some(Form::If) }
    else if text_eq(s, "assert") { Some(Form::Assert) }
    else if text_eq(s, "map-create") { Some(Form::MapCreate) }
    else if text_eq(s, "map-insert!") { Some(Form::MapInsert) }
    else if text_eq(s, "map-retrieve") { Some(Form::MapRetrieve) }
    else if text_eq(s, "map-items") { Some(Form::MapItems) }
    else if text_eq(s, "module") { Some(Form::Module) }
    else if text_eq(s, "export") { Some(Form::Export) }
    else if text_eq(s, "require") { Some(Form::Require) }
    else { None }
}

/// Whether `s` reads as a type annotation.
pub open spec fn type_ok(s: Sexpr) -> bool
    decreases s,
{
    match s {
        Sexpr::List { list, .. } => forall|i: int| 0 <= i < list@.len() ==> type_ok(#[trigger] list@[i]),
        Sexpr::Symbol { .. } => true,
        _ => false,
    }
}

/// `t` is the type annotation that `s` reads as.
pub open spec fn type_from(s: Sexpr, t: Type) -> bool
    decreases s,
{
    match s {
        Sexpr::List { list, .. } => t matches Type::Composite(ts) && ts@.len() == list@.len()
            && forall|i: int| 0 <= i < list@.len() ==> type_from(#[trigger] list@[i], ts@[i]),
        Sexpr::Symbol { symbol, .. } => t matches Type::Scalar(name) && name@ == symbol@,
        _ => false,
    }
}

impl Type {
    /// Reads a type annotation: a symbol is a scalar type, a list of types a
    /// composite one; anything else is refused.
    #[verifier::loop_isolation(false)]
    pub fn from_sexpr(sexpr: &Sexpr) -> (r: Result<Type, ()>)
        ensures
            r is Ok <==> type_ok(*sexpr),
            r matches Ok(t) ==> type_from(*sexpr, t),
        decreases sexpr,
    {
        match sexpr {
            Sexpr::List { list, .. } => {
                let mut types: Vec<Type> = Vec::new();
                let mut i: usize = 0;
                while i < list.len()
                    invariant
                        i <= list@.len(),
                        types@.len() == i,
                        forall|j: int| 0 <= j < i ==> type_ok(#[trigger] list@[j]),
                        forall|j: int| 0 <= j < i ==> type_from(#[trigger] list@[j], types@[j]),
                    decreases list@.len() - i,
                {
                    match Type::from_sexpr(&list[i]) {
                        Ok(t) => types.push(t),
                        Err(()) => return Err(()),
                    }
                    i = i + 1;
                }
                Ok(Type::Composite(types))
            },
            Sexpr::Symbol { symbol, .. } => Ok(Type::Scalar(symbol.clone())),
            _ => Err(()),
        }
    }
}

/// The name a parameter S-expression declares.
pub open spec fn param_name(s: Sexpr) -> Seq<char> {
    match s {
        Sexpr::Symbol { symbol, .. } => symbol@,
        Sexpr::List { list, .. } => if list@.len() > 0 && list@[0] is Symbol {
            list@[0]->symbol@
        } else {
            Seq::empty()
        },
        _ => Seq::empty(),
    }
}

/// Whether `s` reads as a parameter: a symbol, or a list of a symbol and a type.
pub open spec fn param_ok(s: Sexpr) -> bool {
    match s {
        Sexpr::Symbol { .. } => true,
        Sexpr::List { list, .. } => list@.len() == 2 && list@[0] is Symbol && type_ok(list@[1]),
        _ => false,
    }
}

/// `p` is the parameter that `s` reads as.
pub open spec fn param_from(s: Sexpr, p: Parameter) -> bool {
    &&& p.name@ == param_name(s)
    &&& match s {
        Sexpr::Symbol { .. } => p.ty is None,
        Sexpr::List { list, .. } => {
            &&& list@.len() == 2
            &&& list@[0] is Symbol
            &&& p.ty matches Some(t) && type_from(list@[1], t)
        },
        _ => false,
    }
}

impl Parameter {
    /// Reads a parameter: a bare symbol is untyped, `(name type)` is typed.
    pub fn from_sexpr(sexpr: &Sexpr) -> (r: Result<Parameter, ()>)
        ensures
            r is Ok <==> param_ok(*sexpr),
            r matches Ok(p) ==> param_from(*sexpr, p),
    {
        match sexpr {
            Sexpr::List { list, .. } => {
                if list.len() != 2 {
                    return Err(());
                }
                let name = match &list[0] {
                    Sexpr::Symbol { symbol, .. } => symbol.clone(),
                    _ => return Err(()),
                };
                let ty = Type::from_sexpr(&list[1])?;
                Ok(Parameter { name, ty: Some(ty) })
            },
            Sexpr::Symbol { symbol, .. } => Ok(Parameter { name: symbol.clone(), ty: None }),
            _ => Err(()),
        }
    }
}

impl Parameters {
    /// The number of parameters, a rest parameter counting as one.
    pub open spec fn spec_len(&self) -> int {
        match self {
            Parameters::Normal(ps) => ps@.len() as int,
            Parameters::Rest(ps, _) => ps@.len() as int + 1,
        }
    }

    /// The number of parameters, a rest parameter counting as one.
    pub fn len(&self) -> (r: usize)
        requires
            self.spec_len() <= usize::MAX,
        ensures
            r == self.spec_len(),
    {
        match self {
            Parameters::Normal(ps) => ps.len(),
            Parameters::Rest(ps, _) => ps.len() + 1,
        }
    }
}

/// Whether a parameter list ends in `&rest` followed by exactly one parameter.
pub open spec fn has_rest(ss: Seq<Sexpr>) -> bool {
    ss.len() >= 2 && param_name(ss[ss.len() - 2]) == "&rest"@
}

/// Whether every element of a parameter list reads as a parameter.
pub open spec fn params_ok(ss: Seq<Sexpr>) -> bool {
    forall|i: int| 0 <= i < ss.len() ==> param_ok(#[trigger] ss[i])
}

/// `ps` is what the parameter list `ss` reads as.
pub open spec fn params_from(ss: Seq<Sexpr>, ps: Parameters) -> bool {
    if has_rest(ss) {
        ps matches Parameters::Rest(leading, rest) && leading@.len() == ss.len() - 2
            && (forall|i: int| 0 <= i < ss.len() - 2 ==> param_from(#[trigger] ss[i], leading@[i]))
            && param_from(ss[ss.len() - 1], rest)
    } else {
        ps matches Parameters::Normal(all) && all@.len() == ss.len()
            && forall|i: int| 0 <= i < ss.len() ==> param_from(#[trigger] ss[i], all@[i])
    }
}

/// Reads a parameter list. It is `Rest(leading, r)` when the next to last
/// parameter is named `&rest`, and `Normal` otherwise.
pub fn parse_parameters(source: Source, list: &Vec<Sexpr>) -> (r: Result<Parameters, Error>)
    ensures
        r is Ok <==> params_ok(list@),
        r matches Ok(ps) ==> params_from(list@, ps),
        r matches Err(e) ==> e.source == source,
{
    let mut all: Vec<Parameter> = Vec::new();
    let mut i: usize = 0;
    while i < list.len()
        invariant
            i <= list@.len(),
            all@.len() == i,
            forall|j: int| 0 <= j < i ==> param_ok(#[trigger] list@[j]),
            forall|j: int| 0 <= j < i ==> param_from(#[trigger] list@[j], all@[j]),
        decreases list@.len() - i,
    {
        match Parameter::from_sexpr(&list[i]) {
            Ok(p) => all.push(p),
            Err(()) => {
                return Err(Error { source, message: String::from_str("failed to parse parameter") });
            },
        }
        i = i + 1;
    }
    let n = all.len();
    if n >= 2 && text_eq(all[n - 2].name.as_str(), "&rest") {
        let ghost before = all@;
        let rest = all.pop().unwrap();
        let _marker = all.pop().unwrap();
        assert(all@ =~= before.subrange(0, n - 2));
        Ok(Parameters::Rest(all, rest))
    } else {
        Ok(Parameters::Normal(all))
    }
}

/// Whether `::` stands at position `i` of `s`.
pub open spec fn separator_at(s: Seq<char>, i: int) -> bool {
    0 <= i && i + 1 < s.len() && s[i] == ':' && s[i + 1] == ':'
}

/// Whether position `i` holds the first `::` of `s`.
pub open spec fn first_separator(s: Seq<char>, i: int) -> bool {
    separator_at(s, i) && forall|j: int| 0 <= j < i ==> !separator_at(s, j)
}

/// Where the first `::` of `s` stands, or -1.
pub open spec fn split_point(s: Seq<char>) -> int {
    if exists|i: int| first_separator(s, i) {
        choose|i: int| first_separator(s, i)
    } else {
        -1
    }
}

/// Whether `s` names a variable of a module: its first `::` has characters on
/// both sides.
pub open spec fn is_qualified(s: Seq<char>) -> bool {
    split_point(s) > 0 && split_point(s) + 2 < s.len()
}

/// `v` is the variable that the symbol `s` names.
pub open spec fn variable_from(source: Source, s: Seq<char>, v: Variable) -> bool {
    if is_qualified(s) {
        v matches Variable::WithModule { source: src, name, module } && src == source
            && module@ == s.subrange(0, split_point(s)) && name@ == s.subrange(split_point(s) + 2, s.len() as int)
    } else {
        v matches Variable::WithoutModule { source: src, name } && src == source && name@ == s
    }
}

proof fn lemma_first_separator_unique(s: Seq<char>, i: int)
    requires
        first_separator(s, i),
    ensures
        split_point(s) == i,
{
    let k = choose|k: int| first_separator(s, k);
    assert(first_separator(s, k));
    if k < i {
        assert(!separator_at(s, k));
    } else if i < k {
        assert(!separator_at(s, i));
    }
}

/// Reads a variable name: split on the first `::`; when both halves are
/// non-empty the variable is qualified by the first half. The empty name is
/// refused.
pub fn parse_variable(source: Source, variable: &str) -> (r: Result<Variable, ()>)
    ensures
        r is Ok <==> variable@.len() > 0,
        r matches Ok(v) ==> variable_from(source, variable@, v),
{
    let n = variable.unicode_len();
    if n == 0 {
        return Err(());
    }
    let mut i: usize = 0;
    while i + 1 < n
        invariant
            n == variable@.len(),
            n > 0,
            i < n,
            forall|j: int| 0 <= j < i ==> !separator_at(variable@, j),
        decreases n - i,
    {
        if variable.get_char(i) == ':' && variable.get_char(i + 1) == ':' {
            proof {
                assert(first_separator(variable@, i as int));
                lemma_first_separator_unique(variable@, i as int);
            }
            if i > 0 && i + 2 < n {
                let module = substring(variable, 0, i);
                let name = substring(variable, i + 2, n);
                return Ok(Variable::WithModule { source, name, module });
            } else {
                return Ok(Variable::WithoutModule { source, name: variable.to_owned() });
            }
        }
        i = i + 1;
    }
    assert forall|k: int| !first_separator(variable@, k) by {
        if first_separator(variable@, k) {
            assert(separator_at(variable@, k));
            assert(k < i);
        }
    }
    Ok(Variable::WithoutModule { source, name: variable.to_owned() })
}

/// `q` is `s` quoted, each node citing `source`.
pub open spec fn quoted_from(source: Source, s: Sexpr, q: Quoted) -> bool
    decreases s,
{
    match s {
        Sexpr::List { list, .. } => q matches Quoted::List { source: src, list: qs } && src == source
            && qs@.len() == list@.len()
            && forall|i: int| 0 <= i < list@.len() ==> quoted_from(source, #[trigger] list@[i], qs@[i]),
        Sexpr::Symbol { symbol, .. } => q matches Quoted::Symbol { source: src, symbol: x } && src == source && x@ == symbol@,
        Sexpr::String { string, .. } => q matches Quoted::String { source: src, string: x } && src == source && x@ == string@,
        Sexpr::Char { value, .. } => q == Quoted::Char { source, value },
        Sexpr::Int { value, .. } => q == Quoted::Int { source, value },
        Sexpr::Bool { value, .. } => q == Quoted::Bool { source, value },
        Sexpr::Nil { .. } => q == Quoted::Nil { source },
    }
}

/// Quotes an S-expression, keeping its structure, every node citing `source`.
#[verifier::loop_isolation(false)]
pub fn quote(source: Source, sexpr: &Sexpr) -> (r: Quoted)
    ensures
        quoted_from(source, *sexpr, r),
    decreases sexpr,
{
    match sexpr {
        Sexpr::List { list, .. } => {
            let mut qs: Vec<Quoted> = Vec::new();
            let mut i: usize = 0;
            while i < list.len()
                invariant
                    i <= list@.len(),
                    qs@.len() == i,
                    forall|j: int| 0 <= j < i ==> quoted_from(source, #[trigger] list@[j], qs@[j]),
                decreases list@.len() - i,
            {
                qs.push(quote(source, &list[i]));
                i = i + 1;
            }
            Quoted::List { source, list: qs }
        },
        Sexpr::Symbol { symbol, .. } => Quoted::Symbol { source, symbol: symbol.clone() },
        Sexpr::String { string, .. } => Quoted::String { source, string: string.clone() },
        Sexpr::Char { value, .. } => Quoted::Char { source, value: *value },
        Sexpr::Int { value, .. } => Quoted::Int { source, value: *value },
        Sexpr::Bool { value, .. } => Quoted::Bool { source, value: *value },
        Sexpr::Nil { .. } => Quoted::Nil { source },
    }
}


/// A lowered expression: one node for each special form.
#[derive(Debug)]
pub enum Ast {
    Require(Require),
    Module(Module),
    EvalWhenCompile(EvalWhenCompile),
    DefMacro(DefMacro),
    Lambda(Lambda),
    Def(Def),
    Decl(Decl),
    Assign(Assign),
    If(If),
    Apply(Apply),
    BinaryArithmeticOperation(BinaryArithmeticOperation),
    ComparisonOperation(ComparisonOperation),
    List(List),
    Cons(Cons),
    Car(Car),
    Cdr(Cdr),
    FnCall(FnCall),
    MacroCall(MacroCall),
    Quote(Quote),
    IsType(IsType),
    MapCreate(MapCreate),
    MapInsert(MapInsert),
    MapRetrieve(MapRetrieve),
    MapItems(MapItems),
    Variable(Variable),
    Constant(Constant),
    Assert(Assert),
    Export(Export),
}

#[derive(Debug)]
pub struct Require {
    pub source: Source,
    pub module: String,
}

#[derive(Debug)]
pub struct Module {
    pub source: Source,
    pub name: String,
}

#[derive(Debug)]
pub struct EvalWhenCompile {
    pub source: Source,
    pub exprs: Vec<Ast>,
}

#[derive(Debug)]
pub struct DefMacro {
    pub source: Source,
    pub name: String,
    pub parameters: Parameters,
    pub body: Vec<Ast>,
}

#[derive(Debug)]
pub struct Lambda {
    pub source: Source,
    pub ty: Option<Type>,
    pub parameters: Parameters,
    pub body: Vec<Ast>,
}

#[derive(Debug)]
pub struct Def {
    pub source: Source,
    pub parameter: Parameter,
    pub body: Box<Ast>,
}

/// A forward declaration; it is emitted as a definition.
#[derive(Debug)]
pub struct Decl {
    pub source: Source,
    pub parameter: Parameter,
    pub body: Box<Ast>,
}

/// `(set! name body)`.
#[derive(Debug)]
pub struct Assign {
    pub source: Source,
    pub variable: Variable,
    pub body: Box<Ast>,
}

#[derive(Debug)]
pub struct If {
    pub source: Source,
    pub predicate: Box<Ast>,
    pub consequent: Box<Ast>,
    pub alternative: Box<Ast>,
}

#[derive(Debug)]
pub struct Apply {
    pub source: Source,
    pub function: Box<Ast>,
    pub list: Box<Ast>,
}

#[derive(Debug)]
pub struct BinaryArithmeticOperation {
    pub source: Source,
    pub operator: BinaryArithmeticOperator,
    pub lhs: Box<Ast>,
    pub rhs: Box<Ast>,
}

#[derive(Debug)]
pub struct ComparisonOperation {
    pub source: Source,
    pub operator: ComparisonOperator,
    pub lhs: Box<Ast>,
    pub rhs: Box<Ast>,
}

#[derive(Debug)]
pub struct List {
    pub source: Source,
    pub exprs: Vec<Ast>,
}

#[derive(Debug)]
pub struct Cons {
    pub source: Source,
    pub lhs: Box<Ast>,
    pub rhs: Box<Ast>,
}

#[derive(Debug)]
pub struct Car {
    pub source: Source,
    pub body: Box<Ast>,
}

#[derive(Debug)]
pub struct Cdr {
    pub source: Source,
    pub body: Box<Ast>,
}

#[derive(Debug)]
pub struct FnCall {
    pub source: Source,
    pub function: Box<Ast>,
    pub exprs: Vec<Ast>,
}

/// A call of a macro; its arguments are quoted, not lowered.
#[derive(Debug)]
pub struct MacroCall {
    pub source: Source,
    pub name: String,
    pub args: Vec<Quoted>,
}

#[derive(Debug)]
pub struct Quote {
    pub source: Source,
    pub body: Quoted,
}

#[derive(Debug)]
pub struct IsType {
    pub source: Source,
    pub parameter: IsTypeParameter,
    pub body: Box<Ast>,
}

#[derive(Debug)]
pub struct Assert {
    pub source: Source,
    pub body: Box<Ast>,
}

#[derive(Debug)]
pub struct MapCreate {
    pub source: Source,
}

#[derive(Debug)]
pub struct MapInsert {
    pub source: Source,
    pub map: Box<Ast>,
    pub key: Box<Ast>,
    pub value: Box<Ast>,
}

#[derive(Debug)]
pub struct MapRetrieve {
    pub source: Source,
    pub map: Box<Ast>,
    pub key: Box<Ast>,
}

#[derive(Debug)]
pub struct MapItems {
    pub source: Source,
    pub map: Box<Ast>,
}

/// `(export name)`; the name is never qualified.
#[derive(Debug)]
pub struct Export {
    pub source: Source,
    pub symbol: String,
}

impl Ast {
    pub open spec fn spec_source_sexpr(&self) -> Source {
        match self {
            Ast::Require(x) => x.source,
            Ast::Module(x) => x.source,
            Ast::EvalWhenCompile(x) => x.source,
            Ast::DefMacro(x) => x.source,
            Ast::Lambda(x) => x.source,
            Ast::Def(x) => x.source,
            Ast::Decl(x) => x.source,
            Ast::Assign(x) => x.source,
            Ast::If(x) => x.source,
            Ast::Apply(x) => x.source,
            Ast::BinaryArithmeticOperation(x) => x.source,
            Ast::ComparisonOperation(x) => x.source,
            Ast::List(x) => x.source,
            Ast::Cons(x) => x.source,
            Ast::Car(x) => x.source,
            Ast::Cdr(x) => x.source,
            Ast::FnCall(x) => x.source,
            Ast::MacroCall(x) => x.source,
            Ast::Quote(x) => x.source,
            Ast::IsType(x) => x.source,
            Ast::MapCreate(x) => x.source,
            Ast::MapInsert(x) => x.source,
            Ast::MapRetrieve(x) => x.source,
            Ast::MapItems(x) => x.source,
            Ast::Variable(Variable::WithoutModule { source, .. }) => *source,
            Ast::Variable(Variable::WithModule { source, .. }) => *source,
            Ast::Constant(Constant::String { source, .. }) => *source,
            Ast::Constant(Constant::Char { source, .. }) => *source,
            Ast::Constant(Constant::Int { source, .. }) => *source,
            Ast::Constant(Constant::Bool { source, .. }) => *source,
            Ast::Constant(Constant::Nil { source }) => *source,
            Ast::Assert(x) => x.source,
            Ast::Export(x) => x.source,
        }
    }

    /// The provenance of the S-expression this node was lowered from.
    #[verifier::when_used_as_spec(spec_source_sexpr)]
    pub fn source_sexpr(&self) -> (r: Source)
        ensures
            r == self.spec_source_sexpr(),
    {
        match self {
            Ast::Require(x) => x.source,
            Ast::Module(x) => x.source,
            Ast::EvalWhenCompile(x) => x.source,
            Ast::DefMacro(x) => x.source,
            Ast::Lambda(x) => x.source,
            Ast::Def(x) => x.source,
            Ast::Decl(x) => x.source,
            Ast::Assign(x) => x.source,
            Ast::If(x) => x.source,
            Ast::Apply(x) => x.source,
            Ast::BinaryArithmeticOperation(x) => x.source,
            Ast::ComparisonOperation(x) => x.source,
            Ast::List(x) => x.source,
            Ast::Cons(x) => x.source,
            Ast::Car(x) => x.source,
            Ast::Cdr(x) => x.source,
            Ast::FnCall(x) => x.source,
            Ast::MacroCall(x) => x.source,
            Ast::Quote(x) => x.source,
            Ast::IsType(x) => x.source,
            Ast::MapCreate(x) => x.source,
            Ast::MapInsert(x) => x.source,
            Ast::MapRetrieve(x) => x.source,
            Ast::MapItems(x) => x.source,
            Ast::Variable(Variable::WithoutModule { source, .. }) => *source,
            Ast::Variable(Variable::WithModule { source, .. }) => *source,
            Ast::Constant(Constant::String { source, .. }) => *source,
            Ast::Constant(Constant::Char { source, .. }) => *source,
            Ast::Constant(Constant::Int { source, .. }) => *source,
            Ast::Constant(Constant::Bool { source, .. }) => *source,
            Ast::Constant(Constant::Nil { source }) => *source,
            Ast::Assert(x) => x.source,
            Ast::Export(x) => x.source,
        }
    }
}

/// The lowered children of a node, in the order they were lowered.
pub open spec fn ast_children(a: Ast) -> Seq<Ast> {
    match a {
        Ast::EvalWhenCompile(x) => x.exprs@,
        Ast::DefMacro(x) => x.body@,
        Ast::Lambda(x) => x.body@,
        Ast::Def(x) => seq![*x.body],
        Ast::Decl(x) => seq![*x.body],
        Ast::Assign(x) => seq![*x.body],
        Ast::If(x) => seq![*x.predicate, *x.consequent, *x.alternative],
        Ast::Apply(x) => seq![*x.function, *x.list],
        Ast::BinaryArithmeticOperation(x) => seq![*x.lhs, *x.rhs],
        Ast::ComparisonOperation(x) => seq![*x.lhs, *x.rhs],
        Ast::List(x) => x.exprs@,
        Ast::Cons(x) => seq![*x.lhs, *x.rhs],
        Ast::Car(x) => seq![*x.body],
        Ast::Cdr(x) => seq![*x.body],
        Ast::FnCall(x) => seq![*x.function] + x.exprs@,
        Ast::IsType(x) => seq![*x.body],
        Ast::Assert(x) => seq![*x.body],
        Ast::MapInsert(x) => seq![*x.map, *x.key, *x.value],
        Ast::MapRetrieve(x) => seq![*x.map, *x.key],
        Ast::MapItems(x) => seq![*x.map],
        _ => Seq::empty(),
    }
}

/// The special form a list names by its head symbol, if any.
pub open spec fn head_form(s: Sexpr) -> Option<Form> {
    match s {
        Sexpr::List { list, .. } => if list@.len() > 0 && list@[0] is Symbol {
            spec_form_of(list@[0]->symbol@)
        } else {
            None
        },
        _ => None,
    }
}

/// Whether a list is headed by the name of a macro in `m`.
pub open spec fn is_macro_head(m: Set<Seq<char>>, s: Sexpr) -> bool {
    &&& s matches Sexpr::List { list, .. }
    &&& s->list@.len() > 0
    &&& s->list@[0] is Symbol
    &&& m.contains(s->list@[0]->symbol@)
}

/// Whether a lambda form carries a return type: `(lambda PARAMS -> TYPE ...)`.
pub open spec fn has_arrow(l: Seq<Sexpr>) -> bool {
    l.len() >= 4 && l[2] is Symbol && l[2]->symbol@ == "->"@
}

/// Whether the elements of a special form have the shape the form asks for.
pub open spec fn shape_ok(f: Form, l: Seq<Sexpr>) -> bool {
    match f {
        Form::Module | Form::Require | Form::Export => l.len() == 2 && l[1] is Symbol,
        Form::EvalWhenCompile | Form::List => true,
        Form::DefMacro => l.len() >= 3 && l[1] is Symbol,
        Form::Lambda => l.len() >= 2,
        Form::Def | Form::Decl | Form::Assign | Form::Apply | Form::Cons | Form::MapRetrieve => l.len() == 3,
        Form::Arithmetic(_) | Form::Comparison(_) => l.len() == 3,
        Form::If | Form::MapInsert => l.len() == 4,
        Form::Car | Form::Cdr | Form::IsType(_) | Form::Quote | Form::Assert | Form::MapItems => l.len() == 2,
        Form::MapCreate => l.len() == 1,
    }
}

/// Which elements of a special form are lowered as its children.
pub open spec fn form_range(f: Form, l: Seq<Sexpr>) -> (int, int) {
    let n = l.len() as int;
    match f {
        Form::EvalWhenCompile | Form::List => (1, n),
        Form::DefMacro => (3, n),
        Form::Lambda => if has_arrow(l) { (4, n) } else { (2, n) },
        Form::Def | Form::Decl | Form::Assign => (2, 3),
        Form::If | Form::MapInsert => (1, 4),
        Form::Apply | Form::Arithmetic(_) | Form::Comparison(_) | Form::Cons | Form::MapRetrieve => (1, 3),
        Form::Car | Form::Cdr | Form::IsType(_) | Form::Assert | Form::MapItems => (1, 2),
        _ => (1, 1),
    }
}

/// The elements of `s` that are lowered as its children, as a range.
pub open spec fn child_range(m: Set<Seq<char>>, s: Sexpr) -> (int, int) {
    match s {
        Sexpr::List { list, .. } => {
            let n = list@.len() as int;
            let r = match head_form(s) {
                Some(f) => if shape_ok(f, list@) { form_range(f, list@) } else { (0, 0) },
                None => if is_macro_head(m, s) { (0, 0) } else { (0, n) },
            };
            if 0 <= r.0 <= r.1 <= n { r } else { (0, 0) }
        },
        _ => (0, 0),
    }
}

/// The macro names in force when the children of `s` are lowered.
pub open spec fn entry_macros(m: Set<Seq<char>>, s: Sexpr) -> Set<Seq<char>> {
    if head_form(s) == Some(Form::DefMacro) && shape_ok(Form::DefMacro, s->list@) {
        m.insert(s->list@[1]->symbol@)
    } else {
        m
    }
}

/// Whether a parameter list S-expression (a list, or nil) reads as parameters.
pub open spec fn param_list_ok(s: Sexpr) -> bool {
    match s {
        Sexpr::List { list, .. } => params_ok(list@),
        Sexpr::Nil { .. } => true,
        _ => false,
    }
}

/// `ps` is what a parameter list S-expression reads as.
pub open spec fn param_list_from(s: Sexpr, ps: Parameters) -> bool {
    match s {
        Sexpr::List { list, .. } => params_from(list@, ps),
        Sexpr::Nil { .. } => ps matches Parameters::Normal(v) && v@.len() == 0,
        _ => false,
    }
}

/// What a special form asks of its elements besides its shape and children.
pub open spec fn form_local_ok(f: Form, l: Seq<Sexpr>) -> bool {
    match f {
        Form::Lambda => (has_arrow(l) ==> type_ok(l[3])) && param_list_ok(l[1]),
        Form::DefMacro => param_list_ok(l[2]),
        Form::Def | Form::Decl => param_ok(l[1]),
        Form::Assign => l[1] is Symbol && l[1]->symbol@.len() > 0,
        Form::Export => l[1]->symbol@.len() > 0 && !is_qualified(l[1]->symbol@),
        _ => true,
    }
}

/// Whether `s` itself, leaving its children aside, can be lowered.
pub open spec fn local_ok(s: Sexpr) -> bool {
    match s {
        Sexpr::List { list, .. } => list@.len() > 0 && match head_form(s) {
            Some(f) => shape_ok(f, list@) && form_local_ok(f, list@),
            None => true,
        },
        Sexpr::Symbol { symbol, .. } => symbol@.len() > 0,
        _ => true,
    }
}

/// Whether the node `a` is what `s` lowers to, leaving its children aside.
pub open spec fn node_from(m: Set<Seq<char>>, s: Sexpr, a: Ast) -> bool {
    &&& a.spec_source_sexpr() == s.spec_source()
    &&& match s {
        Sexpr::List { list, .. } => {
            let l = list@;
            match head_form(s) {
                Some(Form::Module) => a matches Ast::Module(x) && x.name@ == l[1]->symbol@,
                Some(Form::Require) => a matches Ast::Require(x) && x.module@ == l[1]->symbol@,
                Some(Form::EvalWhenCompile) => a is EvalWhenCompile,
                Some(Form::DefMacro) => a matches Ast::DefMacro(x) && x.name@ == l[1]->symbol@
                    && param_list_from(l[2], x.parameters),
                Some(Form::Lambda) => a matches Ast::Lambda(x) && param_list_from(l[1], x.parameters)
                    && (if has_arrow(l) { x.ty matches Some(t) && type_from(l[3], t) } else { x.ty is None }),
                Some(Form::Def) => a matches Ast::Def(x) && param_from(l[1], x.parameter),
                Some(Form::Decl) => a matches Ast::Decl(x) && param_from(l[1], x.parameter),
                Some(Form::Assign) => a matches Ast::Assign(x)
                    && variable_from(s.spec_source(), l[1]->symbol@, x.variable),
                Some(Form::If) => a is If,
                Some(Form::Apply) => a is Apply,
                Some(Form::Arithmetic(op)) => a matches Ast::BinaryArithmeticOperation(x) && x.operator == op,
                Some(Form::Comparison(op)) => a matches Ast::ComparisonOperation(x) && x.operator == op,
                Some(Form::List) => a is List,
                Some(Form::Cons) => a is Cons,
                Some(Form::Car) => a is Car,
                Some(Form::Cdr) => a is Cdr,
                Some(Form::IsType(k)) => a matches Ast::IsType(x) && x.parameter == k,
                Some(Form::Quote) => a matches Ast::Quote(x) && quoted_from(s.spec_source(), l[1], x.body),
                Some(Form::Assert) => a is Assert,
                Some(Form::MapCreate) => a is MapCreate,
                Some(Form::MapInsert) => a is MapInsert,
                Some(Form::MapRetrieve) => a is MapRetrieve,
                Some(Form::MapItems) => a is MapItems,
                Some(Form::Export) => a matches Ast::Export(x) && x.symbol@ == l[1]->symbol@,
                None => if is_macro_head(m, s) {
                    a matches Ast::MacroCall(x) && x.name@ == l[0]->symbol@ && x.args@.len() == l.len() - 1
                        && forall|i: int| 0 <= i < x.args@.len() ==> quoted_from(s.spec_source(), l[i + 1], #[trigger] x.args@[i])
                } else {
                    a is FnCall
                },
            }
        },
        Sexpr::Symbol { symbol, .. } => a matches Ast::Variable(v) && variable_from(s.spec_source(), symbol@, v),
        Sexpr::String { string, .. } => a matches Ast::Constant(Constant::String { string: x, .. }) && x@ == string@,
        Sexpr::Char { value, .. } => a == Ast::Constant(Constant::Char { source: s.spec_source(), value }),
        Sexpr::Int { value, .. } => a == Ast::Constant(Constant::Int { source: s.spec_source(), value }),
        Sexpr::Bool { value, .. } => a == Ast::Constant(Constant::Bool { source: s.spec_source(), value }),
        Sexpr::Nil { .. } => a == Ast::Constant(Constant::Nil { source: s.spec_source() }),
    }
}

/// The macro names in force after `s` has been lowered, starting from `m`.
pub open spec fn macros_after(m: Set<Seq<char>>, s: Sexpr) -> Set<Seq<char>>
    decreases s, 2int,
{
    macros_fold(entry_macros(m, s), s, child_range(m, s).0, child_range(m, s).1)
}

/// The macro names in force after the elements `lo..hi` of `s` have been
/// lowered, starting from `m`.
pub open spec fn macros_fold(m: Set<Seq<char>>, s: Sexpr, lo: int, hi: int) -> Set<Seq<char>>
    decreases s, 1int, hi - lo,
{
    match s {
        Sexpr::List { list, .. } => if 0 <= lo < hi <= list@.len() {
            macros_after(macros_fold(m, s, lo, hi - 1), list@[hi - 1])
        } else {
            m
        },
        _ => m,
    }
}

/// Whether `s` can be lowered when the macros `m` are defined.
pub open spec fn accepts(m: Set<Seq<char>>, s: Sexpr) -> bool
    decreases s, 2int,
{
    local_ok(s) && accepts_fold(entry_macros(m, s), s, child_range(m, s).0, child_range(m, s).1)
}

/// Whether the elements `lo..hi` of `s` can be lowered one after the other.
pub open spec fn accepts_fold(m: Set<Seq<char>>, s: Sexpr, lo: int, hi: int) -> bool
    decreases s, 1int, hi - lo,
{
    match s {
        Sexpr::List { list, .. } => if 0 <= lo < hi <= list@.len() {
            accepts_fold(m, s, lo, hi - 1) && accepts(macros_fold(m, s, lo, hi - 1), list@[hi - 1])
        } else {
            true
        },
        _ => true,
    }
}

/// `a` is what `s` lowers to when the macros `m` are defined.
pub open spec fn lowers(m: Set<Seq<char>>, s: Sexpr, a: Ast) -> bool
    decreases s, 2int,
{
    node_from(m, s, a) && lowers_fold(entry_macros(m, s), s, child_range(m, s).0, child_range(m, s).1, ast_children(a))
}

/// `asts` are what the elements `lo..hi` of `s` lower to, one after the other.
pub open spec fn lowers_fold(m: Set<Seq<char>>, s: Sexpr, lo: int, hi: int, asts: Seq<Ast>) -> bool
    decreases s, 1int, hi - lo,
{
    match s {
        Sexpr::List { list, .. } => if 0 <= lo < hi <= list@.len() {
            &&& asts.len() == hi - lo
            &&& lowers_fold(m, s, lo, hi - 1, asts.drop_last())
            &&& lowers(macros_fold(m, s, lo, hi - 1), list@[hi - 1], asts.last())
        } else {
            asts.len() == 0
        },
        _ => asts.len() == 0,
    }
}


/// The source a failed lowering of `s` cites: `s` itself when the form is
/// malformed, else that of the first child that fails.
pub open spec fn error_source(m: Set<Seq<char>>, s: Sexpr) -> Source
    decreases s, 2int,
{
    if !local_ok(s) {
        s.spec_source()
    } else {
        fold_error_source(entry_macros(m, s), s, child_range(m, s).0, child_range(m, s).1)
    }
}

/// The source cited by the first failing element among `lo..hi` of `s`.
pub open spec fn fold_error_source(m: Set<Seq<char>>, s: Sexpr, lo: int, hi: int) -> Source
    decreases s, 1int, hi - lo,
{
    match s {
        Sexpr::List { list, .. } => if 0 <= lo < hi <= list@.len() {
            if !accepts_fold(m, s, lo, hi - 1) {
                fold_error_source(m, s, lo, hi - 1)
            } else {
                error_source(macros_fold(m, s, lo, hi - 1), list@[hi - 1])
            }
        } else {
            s.spec_source()
        },
        _ => s.spec_source(),
    }
}

/// The macro names in force after a lowering of `s` that failed: those
/// defined up to the point of failure, a `defmacro` counting from the moment
/// its name is read.
pub open spec fn macros_failed(m: Set<Seq<char>>, s: Sexpr) -> Set<Seq<char>>
    decreases s, 2int,
{
    if !local_ok(s) {
        entry_macros(m, s)
    } else {
        fold_macros_failed(entry_macros(m, s), s, child_range(m, s).0, child_range(m, s).1)
    }
}

/// The macro names in force after the first failing element among `lo..hi`.
pub open spec fn fold_macros_failed(m: Set<Seq<char>>, s: Sexpr, lo: int, hi: int) -> Set<Seq<char>>
    decreases s, 1int, hi - lo,
{
    match s {
        Sexpr::List { list, .. } => if 0 <= lo < hi <= list@.len() {
            if !accepts_fold(m, s, lo, hi - 1) {
                fold_macros_failed(m, s, lo, hi - 1)
            } else {
                macros_failed(macros_fold(m, s, lo, hi - 1), list@[hi - 1])
            }
        } else {
            m
        },
        _ => m,
    }
}

/// `r` is what lowering `s` gives when the macros `m0` are defined, and `m1`
/// the macros defined afterwards. A failure cites the malformed form and
/// says why.
pub open spec fn compiled(m0: Set<Seq<char>>, m1: Set<Seq<char>>, s: Sexpr, r: Result<Ast, Error>) -> bool {
    &&& (r is Ok <==> accepts(m0, s))
    &&& (r matches Ok(a) ==> lowers(m0, s, a) && m1 == macros_after(m0, s))
    &&& (r matches Err(e) ==> e.source == error_source(m0, s) && e.message@.len() > 0 && m1 == macros_failed(m0, s))
}

proof fn lemma_fold_failure(m: Set<Seq<char>>, s: Sexpr, lo: int, i: int, hi: int)
    requires
        s is List,
        0 <= lo <= i < hi <= s->list@.len(),
        accepts_fold(m, s, lo, i),
        !accepts(macros_fold(m, s, lo, i), s->list@[i]),
    ensures
        !accepts_fold(m, s, lo, hi),
        fold_error_source(m, s, lo, hi) == error_source(macros_fold(m, s, lo, i), s->list@[i]),
        fold_macros_failed(m, s, lo, hi) == macros_failed(macros_fold(m, s, lo, i), s->list@[i]),
    decreases hi - i,
{
    if hi > i + 1 {
        lemma_fold_failure(m, s, lo, i, hi - 1);
    }
}

proof fn lemma_accepts_fold_prefix(m: Set<Seq<char>>, s: Sexpr, lo: int, k: int, hi: int)
    requires
        accepts_fold(m, s, lo, hi),
        s is List,
        0 <= lo <= k <= hi <= s->list@.len(),
    ensures
        accepts_fold(m, s, lo, k),
    decreases hi - k,
{
    if k < hi {
        lemma_accepts_fold_prefix(m, s, lo, k, hi - 1);
    }
}

/// An error citing `source`; an empty message reads as "error".
fn error(source: Source, message: &str) -> (e: Error)
    ensures
        e.source == source,
        e.message@.len() > 0,
{
    if message.is_empty() {
        proof {
            reveal_strlit("error");
        }
        return Error { source, message: "error".to_owned() };
    }
    Error { source, message: message.to_owned() }
}

fn take1(v: Vec<Ast>) -> (r: Box<Ast>)
    requires
        v@.len() == 1,
    ensures
        seq![*r] == v@,
{
    let mut v = v;
    let a = v.pop().unwrap();
    Box::new(a)
}

fn take2(v: Vec<Ast>) -> (r: (Box<Ast>, Box<Ast>))
    requires
        v@.len() == 2,
    ensures
        seq![*r.0, *r.1] == v@,
{
    let mut v = v;
    let b = v.pop().unwrap();
    let a = v.pop().unwrap();
    (Box::new(a), Box::new(b))
}

fn take3(v: Vec<Ast>) -> (r: (Box<Ast>, Box<Ast>, Box<Ast>))
    requires
        v@.len() == 3,
    ensures
        seq![*r.0, *r.1, *r.2] == v@,
{
    let mut v = v;
    let c = v.pop().unwrap();
    let b = v.pop().unwrap();
    let a = v.pop().unwrap();
    (Box::new(a), Box::new(b), Box::new(c))
}

/// Reads the parameter list of a lambda or macro: a list of parameters, or nil
/// for none.
fn parse_parameter_list(source: Source, sexpr: &Sexpr) -> (r: Result<Parameters, Error>)
    ensures
        r is Ok <==> param_list_ok(*sexpr),
        r matches Ok(ps) ==> param_list_from(*sexpr, ps),
{
    match sexpr {
        Sexpr::List { list, .. } => parse_parameters(source, list),
        Sexpr::Nil { .. } => Ok(Parameters::Normal(Vec::new())),
        _ => Err(error(source, "expected list for parameters")),
    }
}

impl Compiler {
    /// The names that `defmacro` has introduced so far.
    pub closed spec fn macros(&self) -> Set<Seq<char>> {
        Set::new(|x: Seq<char>| exists|j: int| 0 <= j < self.macros@.len() && #[trigger] self.macros@[j]@ == x)
    }

    /// A compiler that knows no macros yet.
    pub fn new() -> (r: Compiler)
        ensures
            r.macros() == Set::<Seq<char>>::empty(),
    {
        let r = Compiler { macros: Vec::new() };
        assert(r.macros() =~= Set::<Seq<char>>::empty());
        r
    }

    /// Whether `name` was introduced by `defmacro`.
    pub fn is_macro(&self, name: &String) -> (r: bool)
        ensures
            r == self.macros().contains(name@),
    {
        let mut i: usize = 0;
        while i < self.macros.len()
            invariant
                i <= self.macros@.len(),
                forall|j: int| 0 <= j < i ==> #[trigger] self.macros@[j]@ != name@,
            decreases self.macros@.len() - i,
        {
            if self.macros[i] == *name {
                assert(self.macros().contains(name@));
                return true;
            }
            i = i + 1;
        }
        false
    }

    fn register_macro(&mut self, name: &String)
        ensures
            final(self).macros() == old(self).macros().insert(name@),
    {
        if !self.is_macro(name) {
            let ghost before = self.macros@;
            self.macros.push(name.clone());
            assert forall|x: Seq<char>| #[trigger] self.macros().contains(x) == old(self).macros().insert(name@).contains(x) by {
                if x == name@ {
                    assert(self.macros@[before.len() as int]@ == x);
                }
                if old(self).macros().contains(x) {
                    let j = choose|j: int| 0 <= j < before.len() && #[trigger] before[j]@ == x;
                    assert(self.macros@[j]@ == x);
                }
                if self.macros().contains(x) && x != name@ {
                    let j = choose|j: int| 0 <= j < self.macros@.len() && #[trigger] self.macros@[j]@ == x;
                    assert(before[j]@ == x);
                }
            }
            assert(self.macros() =~= old(self).macros().insert(name@));
        } else {
            assert(self.macros() =~= old(self).macros().insert(name@));
        }
    }

    /// Lowers the elements `lo..hi` of a list, one after the other.
    fn compile_range(&mut self, sexpr: &Sexpr, list: &Vec<Sexpr>, lo: usize, hi: usize) -> (r: Result<Vec<Ast>, Error>)
        requires
            sexpr is List,
            sexpr->list@ == list@,
            lo <= hi <= list@.len(),
        ensures
            r is Ok <==> accepts_fold(old(self).macros(), *sexpr, lo as int, hi as int),
            r matches Ok(v) ==> lowers_fold(old(self).macros(), *sexpr, lo as int, hi as int, v@)
                && final(self).macros() == macros_fold(old(self).macros(), *sexpr, lo as int, hi as int),
            r matches Err(e) ==> e.source == fold_error_source(old(self).macros(), *sexpr, lo as int, hi as int)
                && e.message@.len() > 0
                && final(self).macros() == fold_macros_failed(old(self).macros(), *sexpr, lo as int, hi as int),
        decreases sexpr, 0int,
    {
        let ghost m0 = self.macros();
        let mut v: Vec<Ast> = Vec::new();
        let mut i: usize = lo;
        while i < hi
            invariant
                lo <= i <= hi <= list@.len(),
                m0 == old(self).macros(),
                sexpr is List,
                sexpr->list@ == list@,
                accepts_fold(m0, *sexpr, lo as int, i as int),
                lowers_fold(m0, *sexpr, lo as int, i as int, v@),
                self.macros() == macros_fold(m0, *sexpr, lo as int, i as int),
            decreases hi - i,
        {
            proof {
                assert(decreases_to!(*sexpr => sexpr->list));
            }
            match self.compile(&list[i]) {
                Ok(a) => {
                    let ghost before = v@;
                    v.push(a);
                    assert(v@.drop_last() =~= before);
                },
                Err(e) => {
                    proof {
                        assert(list@[i as int] == sexpr->list@[i as int]);
                        assert(!accepts(macros_fold(m0, *sexpr, lo as int, i as int), sexpr->list@[i as int]));
                        assert(!accepts_fold(m0, *sexpr, lo as int, i + 1));
                        lemma_fold_failure(m0, *sexpr, lo as int, i as int, hi as int);
                    }
                    return Err(e);
                },
            }
            i = i + 1;
        }
        Ok(v)
    }

    /// Lowers one S-expression. A list headed by a special form's name becomes
    /// that form's node, one headed by a macro's name a macro call with its
    /// arguments quoted, any other non-empty list a function call; a symbol
    /// becomes a variable and a literal a constant.
    pub fn compile(&mut self, sexpr: &Sexpr) -> (r: Result<Ast, Error>)
        ensures
            compiled(old(self).macros(), final(self).macros(), *sexpr, r),
        decreases sexpr, 3int,
    {
        match sexpr {
            Sexpr::List { source, list } => {
                if list.len() == 0 {
                    return Err(error(*source, "invalid expression"));
                }
                let form = match &list[0] {
                    Sexpr::Symbol { symbol, .. } => form_of(symbol.as_str()),
                    _ => None,
                };
                match form {
                    Some(f) => self.compile_form(sexpr, list, *source, f),
                    None => {
                        let is_macro = match &list[0] {
                            Sexpr::Symbol { symbol, .. } => self.is_macro(symbol),
                            _ => false,
                        };
                        if is_macro {
                            self.compile_macro_call(sexpr, list, *source)
                        } else {
                            self.compile_fncall(sexpr, list, *source)
                        }
                    },
                }
            },
            Sexpr::Symbol { source, symbol } => match parse_variable(*source, symbol.as_str()) {
                Ok(v) => Ok(Ast::Variable(v)),
                Err(()) => Err(error(*source, "failed to parse variable")),
            },
            Sexpr::String { source, string } => Ok(Ast::Constant(Constant::String { source: *source, string: string.clone() })),
            Sexpr::Char { source, value } => Ok(Ast::Constant(Constant::Char { source: *source, value: *value })),
            Sexpr::Int { source, value } => Ok(Ast::Constant(Constant::Int { source: *source, value: *value })),
            Sexpr::Bool { source, value } => Ok(Ast::Constant(Constant::Bool { source: *source, value: *value })),
            Sexpr::Nil { source } => Ok(Ast::Constant(Constant::Nil { source: *source })),
        }
    }

    fn compile_macro_call(&mut self, sexpr: &Sexpr, list: &Vec<Sexpr>, source: Source) -> (r: Result<Ast, Error>)
        requires
            sexpr is List,
            sexpr->list@ == list@,
            sexpr.spec_source() == source,
            head_form(*sexpr) is None,
            is_macro_head(old(self).macros(), *sexpr),
        ensures
            compiled(old(self).macros(), final(self).macros(), *sexpr, r),
        decreases sexpr, 1int,
    {
        let name = match &list[0] {
            Sexpr::Symbol { symbol, .. } => symbol.clone(),
            _ => return Err(error(source, "invalid expression")),
        };
        let mut args: Vec<Quoted> = Vec::new();
        let mut i: usize = 1;
        while i < list.len()
            invariant
                1 <= i <= list@.len(),
                args@.len() == i - 1,
                forall|j: int| 0 <= j < i - 1 ==> quoted_from(source, list@[j + 1], #[trigger] args@[j]),
            decreases list@.len() - i,
        {
            args.push(quote(source, &list[i]));
            i = i + 1;
        }
        let r = Ast::MacroCall(MacroCall { source, name, args });
        assert(ast_children(r) =~= Seq::<Ast>::empty());
        Ok(r)
    }

    fn compile_fncall(&mut self, sexpr: &Sexpr, list: &Vec<Sexpr>, source: Source) -> (r: Result<Ast, Error>)
        requires
            sexpr is List,
            sexpr->list@ == list@,
            list@.len() > 0,
            sexpr.spec_source() == source,
            head_form(*sexpr) is None,
            !is_macro_head(old(self).macros(), *sexpr),
        ensures
            compiled(old(self).macros(), final(self).macros(), *sexpr, r),
        decreases sexpr, 1int,
    {
        let mut v = match self.compile_range(sexpr, list, 0, list.len()) {
            Ok(v) => v,
            Err(e) => return Err(e),
        };
        let ghost all = v@;
        let function = v.remove(0);
        let r = Ast::FnCall(FnCall { source, function: Box::new(function), exprs: v });
        assert(ast_children(r) =~= all);
        Ok(r)
    }

    /// Lowers a list headed by the name of a special form.
    fn compile_form(&mut self, sexpr: &Sexpr, list: &Vec<Sexpr>, source: Source, form: Form) -> (r: Result<Ast, Error>)
        requires
            sexpr is List,
            sexpr->list@ == list@,
            list@.len() > 0,
            sexpr.spec_source() == source,
            head_form(*sexpr) == Some(form),
        ensures
            compiled(old(self).macros(), final(self).macros(), *sexpr, r),
        decreases sexpr, 2int,
    {
        match form {
            Form::Lambda | Form::DefMacro | Form::EvalWhenCompile | Form::List => self.compile_sequence_form(sexpr, list, source, form),
            Form::Def | Form::Decl | Form::Assign => self.compile_binding_form(sexpr, list, source, form),
            Form::Module | Form::Require | Form::Export | Form::Quote | Form::MapCreate => self.compile_leaf_form(sexpr, list, source, form),
            _ => self.compile_operator_form(sexpr, list, source, form),
        }
    }
}


impl Compiler {
    /// Lowers the forms whose trailing elements are a body: `lambda`,
    /// `defmacro`, `eval-when-compile` and `list`.
    fn compile_sequence_form(&mut self, sexpr: &Sexpr, list: &Vec<Sexpr>, source: Source, form: Form) -> (r: Result<Ast, Error>)
        requires
            sexpr is List,
            sexpr->list@ == list@,
            list@.len() > 0,
            sexpr.spec_source() == source,
            head_form(*sexpr) == Some(form),
            form is Lambda || form is DefMacro || form is EvalWhenCompile || form is List,
        ensures
            compiled(old(self).macros(), final(self).macros(), *sexpr, r),
        decreases sexpr, 1int,
    {
        let n = list.len();
        match form {
            Form::Lambda => {
                if n < 2 {
                    return Err(error(source, "invalid expression"));
                }
                let arrow = n >= 4 && match &list[2] {
                    Sexpr::Symbol { symbol, .. } => text_eq(symbol.as_str(), "->"),
                    _ => false,
                };
                let ty = if arrow {
                    match Type::from_sexpr(&list[3]) {
                        Ok(t) => Some(t),
                        Err(()) => return Err(error(source, "failed to parse type")),
                    }
                } else {
                    None
                };
                let parameters = match parse_parameter_list(source, &list[1]) {
                    Ok(ps) => ps,
                    Err(_) => return Err(error(source, "failed to parse parameters")),
                };
                let lo: usize = if arrow { 4 } else { 2 };
                let body = match self.compile_range(sexpr, list, lo, n) {
                    Ok(v) => v,
                    Err(e) => return Err(e),
                };
                Ok(Ast::Lambda(Lambda { source, ty, parameters, body }))
            },
            Form::DefMacro => {
                if n < 3 {
                    return Err(error(source, "invalid expression"));
                }
                let name = match &list[1] {
                    Sexpr::Symbol { symbol, .. } => symbol,
                    _ => return Err(error(source, "invalid expression")),
                };
                self.register_macro(name);
                let parameters = match parse_parameter_list(source, &list[2]) {
                    Ok(ps) => ps,
                    Err(_) => return Err(error(source, "failed to parse parameters")),
                };
                let body = match self.compile_range(sexpr, list, 3, n) {
                    Ok(v) => v,
                    Err(e) => return Err(e),
                };
                Ok(Ast::DefMacro(DefMacro { source, name: name.clone(), parameters, body }))
            },
            Form::EvalWhenCompile => {
                let exprs = match self.compile_range(sexpr, list, 1, n) {
                    Ok(v) => v,
                    Err(e) => return Err(e),
                };
                Ok(Ast::EvalWhenCompile(EvalWhenCompile { source, exprs }))
            },
            _ => {
                let exprs = match self.compile_range(sexpr, list, 1, n) {
                    Ok(v) => v,
                    Err(e) => return Err(e),
                };
                Ok(Ast::List(List { source, exprs }))
            },
        }
    }

    /// Lowers `def`, `decl` and `set!`.
    fn compile_binding_form(&mut self, sexpr: &Sexpr, list: &Vec<Sexpr>, source: Source, form: Form) -> (r: Result<Ast, Error>)
        requires
            sexpr is List,
            sexpr->list@ == list@,
            list@.len() > 0,
            sexpr.spec_source() == source,
            head_form(*sexpr) == Some(form),
            form is Def || form is Decl || form is Assign,
        ensures
            compiled(old(self).macros(), final(self).macros(), *sexpr, r),
        decreases sexpr, 1int,
    {
        if list.len() != 3 {
            return Err(error(source, "invalid expression"));
        }
        match form {
            Form::Assign => {
                let variable = match &list[1] {
                    Sexpr::Symbol { symbol, .. } => match parse_variable(source, symbol.as_str()) {
                        Ok(v) => v,
                        Err(()) => return Err(error(source, "failed to parse variable")),
                    },
                    _ => return Err(error(source, "expected symbol")),
                };
                let v = match self.compile_range(sexpr, list, 2, 3) {
                    Ok(v) => v,
                    Err(e) => return Err(e),
                };
                let body = take1(v);
                Ok(Ast::Assign(Assign { source, variable, body }))
            },
            _ => {
                let parameter = match Parameter::from_sexpr(&list[1]) {
                    Ok(p) => p,
                    Err(()) => return Err(error(source, "failed to parse parameter")),
                };
                let v = match self.compile_range(sexpr, list, 2, 3) {
                    Ok(v) => v,
                    Err(e) => return Err(e),
                };
                let body = take1(v);
                if form == Form::Def {
                    Ok(Ast::Def(Def { source, parameter, body }))
                } else {
                    Ok(Ast::Decl(Decl { source, parameter, body }))
                }
            },
        }
    }

    /// Lowers the forms without lowered children: `module`, `require`,
    /// `export`, `quote` and `map-create`.
    fn compile_leaf_form(&mut self, sexpr: &Sexpr, list: &Vec<Sexpr>, source: Source, form: Form) -> (r: Result<Ast, Error>)
        requires
            sexpr is List,
            sexpr->list@ == list@,
            list@.len() > 0,
            sexpr.spec_source() == source,
            head_form(*sexpr) == Some(form),
            form is Module || form is Require || form is Export || form is Quote || form is MapCreate,
        ensures
            compiled(old(self).macros(), final(self).macros(), *sexpr, r),
        decreases sexpr, 1int,
    {
        let r = match form {
            Form::MapCreate => {
                if list.len() != 1 {
                    return Err(error(source, "invalid expression"));
                }
                Ast::MapCreate(MapCreate { source })
            },
            Form::Quote => {
                if list.len() != 2 {
                    return Err(error(source, "invalid expression"));
                }
                Ast::Quote(Quote { source, body: quote(source, &list[1]) })
            },
            _ => {
                if list.len() != 2 {
                    return Err(error(source, "invalid expression"));
                }
                let symbol = match &list[1] {
                    Sexpr::Symbol { symbol, .. } => symbol,
                    _ => return Err(error(source, "invalid expression")),
                };
                if form == Form::Module {
                    Ast::Module(Module { source, name: symbol.clone() })
                } else if form == Form::Require {
                    Ast::Require(Require { source, module: symbol.clone() })
                } else {
                    match parse_variable(source, symbol.as_str()) {
                        Ok(Variable::WithoutModule { name, .. }) => Ast::Export(Export { source, symbol: name }),
                        Ok(_) => return Err(error(source, "expected non-module variable")),
                        Err(()) => return Err(error(source, "failed to parse variable")),
                    }
                }
            },
        };
        assert(ast_children(r) =~= Seq::<Ast>::empty());
        Ok(r)
    }

    /// Lowers the operators, whose elements after the head are all lowered.
    fn compile_operator_form(&mut self, sexpr: &Sexpr, list: &Vec<Sexpr>, source: Source, form: Form) -> (r: Result<Ast, Error>)
        requires
            sexpr is List,
            sexpr->list@ == list@,
            list@.len() > 0,
            sexpr.spec_source() == source,
            head_form(*sexpr) == Some(form),
            !(form is Lambda || form is DefMacro || form is EvalWhenCompile || form is List || form is Def || form is Decl || form is Assign || form is Module || form is Require || form is Export || form is Quote || form is MapCreate),
        ensures
            compiled(old(self).macros(), final(self).macros(), *sexpr, r),
        decreases sexpr, 1int,
    {
        let n = list.len();
        let arity: usize = match form {
            Form::If | Form::MapInsert => 3,
            Form::Apply | Form::Arithmetic(_) | Form::Comparison(_) | Form::Cons | Form::MapRetrieve => 2,
            _ => 1,
        };
        if n != arity + 1 {
            return Err(error(source, "invalid expression"));
        }
        let v = match self.compile_range(sexpr, list, 1, n) {
            Ok(v) => v,
            Err(e) => return Err(e),
        };
        match form {
            Form::If => {
                let (predicate, consequent, alternative) = take3(v);
                Ok(Ast::If(If { source, predicate, consequent, alternative }))
            },
            Form::MapInsert => {
                let (map, key, value) = take3(v);
                Ok(Ast::MapInsert(MapInsert { source, map, key, value }))
            },
            Form::Apply => {
                let (function, list) = take2(v);
                Ok(Ast::Apply(Apply { source, function, list }))
            },
            Form::Arithmetic(operator) => {
                let (lhs, rhs) = take2(v);
                Ok(Ast::BinaryArithmeticOperation(BinaryArithmeticOperation { source, operator, lhs, rhs }))
            },
            Form::Comparison(operator) => {
                let (lhs, rhs) = take2(v);
                Ok(Ast::ComparisonOperation(ComparisonOperation { source, operator, lhs, rhs }))
            },
            Form::Cons => {
                let (lhs, rhs) = take2(v);
                Ok(Ast::Cons(Cons { source, lhs, rhs }))
            },
            Form::MapRetrieve => {
                let (map, key) = take2(v);
                Ok(Ast::MapRetrieve(MapRetrieve { source, map, key }))
            },
            Form::Car => Ok(Ast::Car(Car { source, body: take1(v) })),
            Form::Cdr => Ok(Ast::Cdr(Cdr { source, body: take1(v) })),
            Form::IsType(parameter) => Ok(Ast::IsType(IsType { source, parameter, body: take1(v) })),
            Form::Assert => Ok(Ast::Assert(Assert { source, body: take1(v) })),
            _ => Ok(Ast::MapItems(MapItems { source, map: take1(v) })),
        }
    }
}


/// Lowering keeps provenance: the node a form lowers to cites the form's own
/// source.
pub proof fn lemma_lowering_keeps_source(m: Set<Seq<char>>, s: Sexpr, a: Ast)
    requires
        lowers(m, s, a),
    ensures
        a.spec_source_sexpr() == s.spec_source(),
{
}

/// Reading `M::N` gives the variable `N` of module `M`, for non-empty `M`
/// and `N`, when `M` holds no `::` and does not end in `:`.
pub proof fn lemma_qualified_variable(source: Source, module: Seq<char>, name: Seq<char>, v: Variable)
    requires
        module.len() > 0,
        name.len() > 0,
        forall|i: int| !separator_at(module, i),
        module.last() != ':',
        variable_from(source, module + seq![':', ':'] + name, v),
    ensures
        v matches Variable::WithModule { source: src, module: m, name: n } && src == source && m@ == module && n@ == name,
{
    let s = module + seq![':', ':'] + name;
    let k = module.len() as int;
    assert(separator_at(s, k));
    assert forall|j: int| 0 <= j < k implies !separator_at(s, j) by {
        if j < k - 1 {
            assert(!separator_at(module, j));
            assert(s[j] == module[j] && s[j + 1] == module[j + 1]);
        } else {
            assert(s[j] == module.last());
        }
    }
    assert(first_separator(s, k));
    lemma_first_separator_unique(s, k);
    assert(s.subrange(0, k) =~= module);
    assert(s.subrange(k + 2, s.len() as int) =~= name);
}

/// Reading a non-empty name without `::` gives that name, bare.
pub proof fn lemma_bare_variable(source: Source, name: Seq<char>, v: Variable)
    requires
        name.len() > 0,
        forall|i: int| !separator_at(name, i),
        variable_from(source, name, v),
    ensures
        v matches Variable::WithoutModule { source: src, name: n } && src == source && n@ == name,
{
    assert(!(exists|i: int| first_separator(name, i)));
}

} // verus!
