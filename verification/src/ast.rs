//! The syntax tree of a Xeres program.
use vstd::prelude::*;

use crate::text::same;

verus! {

/// Binary operators.
#[derive(Debug, Clone, Copy, PartialEq, Eq, Structural)]
pub enum BinOp {
    Add,
    Sub,
    Mul,
    Div,
    Eq,
    NotEq,
    Lt,
    Gt,
    LtEq,
    GtEq,
    And,
    Or,
}

/// Prefix operators.
#[derive(Debug, Clone, Copy, PartialEq, Eq, Structural)]
pub enum UnOp {
    Neg,
    Not,
}

/// Where a function runs: `server`, `ui`, or on either tier.
#[derive(Debug, Clone, Copy, PartialEq, Eq, Structural)]
pub enum EnvModifier {
    Server,
    Ui,
    Shared,
}

/// Expressions. A `Float` literal is held as its decimal text.
#[derive(Debug)]
#[allow(inconsistent_fields)]
pub enum Expr {
    Int(i64),
    Float(String),
    Str(String),
    Bool(bool),
    Ident(String),
    NoneLit,
    Field { base: Box<Expr>, field: String },
    Unary { op: UnOp, expr: Box<Expr> },
    Binary { op: BinOp, left: Box<Expr>, right: Box<Expr> },
    Call { callee: String, args: Vec<Expr> },
    MethodCall { receiver: Box<Expr>, method: String, args: Vec<Expr> },
    Declassify(Box<Expr>),
    Raw(Box<Expr>),
    Await(Box<Expr>),
    Record { name: String, fields: Vec<(String, Expr)> },
    ListLit(Vec<Expr>),
    Ternary { cond: Box<Expr>, yes: Box<Expr>, otherwise: Box<Expr> },
    Range { start: Box<Expr>, end: Box<Expr> },
    Index { base: Box<Expr>, index: Box<Expr> },
    Closure { params: Vec<String>, body: Box<Expr> },
}

/// The pattern of a `match` arm.
#[derive(Debug)]
pub enum MatchPat {
    Wildcard,
    Variant(String),
}

/// One arm of a `match`.
#[derive(Debug)]
pub struct MatchArm {
    pub pattern: MatchPat,
    pub body: Vec<Stmt>,
}

/// Statements.
#[derive(Debug)]
pub enum Stmt {
    Let { name: String, type_ann: Option<String>, value: Expr },
    Assign { name: String, value: Expr },
    Return(Expr),
    Expr(Expr),
    Try { body: Vec<Stmt>, handler: Vec<Stmt> },
    If { cond: Expr, then_body: Vec<Stmt>, else_body: Vec<Stmt> },
    For { var: String, iter: Expr, body: Vec<Stmt> },
    While { cond: Expr, body: Vec<Stmt> },
    Match { scrutinee: Expr, arms: Vec<MatchArm> },
    Transaction(Vec<Stmt>),
    Break,
    Continue,
}

/// What an element's `->` slot holds: a call, or an inline block.
#[derive(Debug)]
pub enum Handler {
    Call(Expr),
    Block(Vec<Stmt>),
}

/// A node of a screen's view.
#[derive(Debug)]
pub enum ViewNode {
    Element {
        tag: String,
        arg: Option<Expr>,
        style: Option<Expr>,
        bind: Option<String>,
        event: Option<Handler>,
        children: Vec<ViewNode>,
    },
    For { var: String, iter: Expr, body: Vec<ViewNode> },
    If { cond: Expr, then_body: Vec<ViewNode>, else_body: Vec<ViewNode> },
    Component { name: String, args: Vec<(String, Expr)>, line: usize },
}

/// A named, typed parameter.
#[derive(Debug)]
pub struct Param {
    pub name: String,
    pub ty: String,
}

/// One field of a model.
#[derive(Debug)]
pub struct PropertyNode {
    pub name: String,
    pub data_type: String,
    pub is_secret: bool,
    pub line: usize,
}

/// A `model` declaration.
#[derive(Debug)]
pub struct ModelNode {
    pub name: String,
    pub properties: Vec<PropertyNode>,
    pub line: usize,
    pub module: String,
}

/// An `enum` declaration.
#[derive(Debug)]
pub struct EnumNode {
    pub name: String,
    pub variants: Vec<String>,
    pub line: usize,
    pub module: String,
}

/// A function declaration.
#[derive(Debug)]
pub struct FunctionNode {
    pub env: EnvModifier,
    pub is_auth: bool,
    pub is_pub: bool,
    pub name: String,
    pub params: Vec<Param>,
    pub return_type: Option<String>,
    pub body: Vec<Stmt>,
    pub line: usize,
    pub module: String,
}

/// A `synced state` collection.
#[derive(Debug)]
pub struct SyncedStateNode {
    pub name: String,
    pub collection_type: String,
    pub line: usize,
    pub module: String,
}

/// A `state` cell of a screen.
#[derive(Debug)]
pub struct StateNode {
    pub name: String,
    pub ty: String,
    pub init: Expr,
    pub line: usize,
}

/// A screen or component.
#[derive(Debug)]
pub struct ScreenNode {
    pub name: String,
    pub params: Vec<Param>,
    pub states: Vec<StateNode>,
    pub load: Vec<Stmt>,
    pub body: Vec<ViewNode>,
    pub is_component: bool,
    pub is_auth: bool,
    pub route: Option<String>,
    pub line: usize,
    pub module: String,
}

/// An outbound `endpoint`: a fixed host and the names of its secrets.
#[derive(Debug)]
pub struct EndpointNode {
    pub name: String,
    pub base: String,
    pub secrets: Vec<(String, String)>,
    pub line: usize,
    pub module: String,
}

/// One route of an inbound `api`.
#[derive(Debug)]
pub struct ApiRoute {
    pub method: String,
    pub path: String,
    pub body: Option<Param>,
    pub return_type: Option<String>,
    pub body_stmts: Vec<Stmt>,
    pub line: usize,
}

/// An inbound `api` block.
#[derive(Debug)]
pub struct ApiNode {
    pub base: String,
    pub routes: Vec<ApiRoute>,
    pub line: usize,
    pub module: String,
}

/// An `import` with the capabilities it grants.
#[derive(Debug)]
pub struct ImportNode {
    pub path: String,
    pub grants: Vec<String>,
    pub line: usize,
}

/// One design token of a theme.
#[derive(Debug)]
pub struct ThemeToken {
    pub category: String,
    pub name: String,
    pub value: String,
    pub line: usize,
}

/// A `theme` (or `theme dark`) block.
#[derive(Debug)]
pub struct ThemeNode {
    pub is_dark: bool,
    pub tokens: Vec<ThemeToken>,
}

/// A named `style`.
#[derive(Debug)]
pub struct StyleNode {
    pub name: String,
    pub css: String,
    pub line: usize,
}

/// A whole program.
#[derive(Debug)]
pub struct XeresProgram {
    pub models: Vec<ModelNode>,
    pub enums: Vec<EnumNode>,
    pub functions: Vec<FunctionNode>,
    pub states: Vec<SyncedStateNode>,
    pub screens: Vec<ScreenNode>,
    pub endpoints: Vec<EndpointNode>,
    pub apis: Vec<ApiNode>,
    pub imports: Vec<ImportNode>,
    pub requires_caps: Vec<String>,
    pub themes: Vec<ThemeNode>,
    pub styles: Vec<StyleNode>,
}

/// The index of the first of the first `n` fields with this name, or `None`.
pub open spec fn prop_index(props: Seq<PropertyNode>, name: Seq<char>) -> Option<int>
    decreases props.len(),
{
    if props.len() == 0 {
        None
    } else {
        match prop_index(props.drop_last(), name) {
            Some(i) => Some(i),
            None => if props.last().name@ == name {
                Some(props.len() - 1)
            } else {
                None
            },
        }
    }
}

/// The index of the first model with this name, or `None`.
pub open spec fn model_index(models: Seq<ModelNode>, name: Seq<char>) -> Option<int>
    decreases models.len(),
{
    if models.len() == 0 {
        None
    } else {
        match model_index(models.drop_last(), name) {
            Some(i) => Some(i),
            None => if models.last().name@ == name {
                Some(models.len() - 1)
            } else {
                None
            },
        }
    }
}

pub proof fn lemma_prop_index(props: Seq<PropertyNode>, name: Seq<char>)
    ensures
        match prop_index(props, name) {
            Some(i) => 0 <= i < props.len() && props[i].name@ == name && (forall|j: int|
                0 <= j < i ==> props[j].name@ != name),
            None => forall|j: int| 0 <= j < props.len() ==> props[j].name@ != name,
        },
    decreases props.len(),
{
    if props.len() > 0 {
        lemma_prop_index(props.drop_last(), name);
        assert(forall|j: int| 0 <= j < props.len() - 1 ==> props[j] == props.drop_last()[j]);
    }
}

pub proof fn lemma_model_index(models: Seq<ModelNode>, name: Seq<char>)
    ensures
        match model_index(models, name) {
            Some(i) => 0 <= i < models.len() && models[i].name@ == name && (forall|j: int|
                0 <= j < i ==> models[j].name@ != name),
            None => forall|j: int| 0 <= j < models.len() ==> models[j].name@ != name,
        },
    decreases models.len(),
{
    if models.len() > 0 {
        lemma_model_index(models.drop_last(), name);
        assert(forall|j: int| 0 <= j < models.len() - 1 ==> models[j] == models.drop_last()[j]);
    }
}

impl ModelNode {
    /// The field of this name, if the model has one.
    pub fn field(&self, name: &str) -> (r: Option<&PropertyNode>)
        ensures
            match r {
                Some(p) => prop_index(self.properties@, name@) is Some && *p
                    == self.properties@[prop_index(self.properties@, name@)->0],
                None => prop_index(self.properties@, name@) is None,
            },
    {
        proof {
            lemma_prop_index(self.properties@, name@);
        }
        let mut i: usize = 0;
        while i < self.properties.len()
            invariant
                i <= self.properties.len(),
                forall|j: int| 0 <= j < i ==> self.properties@[j].name@ != name@,
            decreases self.properties.len() - i,
        {
            if same(&self.properties[i].name, name) {
                proof {
                    lemma_prop_index(self.properties@, name@);
                }
                return Some(&self.properties[i]);
            }
            i = i + 1;
        }
        None
    }
}

/// The first model of this name.
pub fn find_model<'a>(models: &'a Vec<ModelNode>, name: &str) -> (r: Option<&'a ModelNode>)
    ensures
        match r {
            Some(m) => model_index(models@, name@) is Some && *m == models@[model_index(
                models@,
                name@,
            )->0],
            None => model_index(models@, name@) is None,
        },
{
    proof {
        lemma_model_index(models@, name@);
    }
    let mut i: usize = 0;
    while i < models.len()
        invariant
            i <= models.len(),
            forall|j: int| 0 <= j < i ==> models@[j].name@ != name@,
        decreases models.len() - i,
    {
        if same(&models[i].name, name) {
            proof {
                lemma_model_index(models@, name@);
            }
            return Some(&models[i]);
        }
        i = i + 1;
    }
    None
}

} // verus!
