//! Types to represent the HCL expression sub-language.
use vstd::prelude::*;
use crate::ident::Identifier;
use crate::number::{Number, NumberV};

verus! {

/// A type representing the expression sub-language that is used within attribute definitions
/// to specify values.
#[derive(Debug, PartialEq, Eq)]
pub enum Expression {
    /// Represents a null value.
    Null,
    /// Represents a boolean.
    Bool(bool),
    /// Represents a number, either integer or float.
    Number(Number),
    /// Represents a string that does not contain any template interpolations or template
    /// directives.
    String(String),
    /// Represents an array.
    Array(Vec<Expression>),
    /// Represents an object: key-value pairs in order.
    Object(Vec<(ObjectKey, Expression)>),
    /// A quoted string or heredoc that embeds a program written in the template sub-language.
    TemplateExpr(Box<TemplateExpr>),
    /// Represents a variable name identifier.
    Variable(Identifier),
    /// Represents an attribute or element traversal.
    Traversal(Box<Traversal>),
    /// Represents a function call.
    FuncCall(Box<FuncCall>),
    /// Represents a sub-expression that is wrapped in parenthesis.
    Parenthesis(Box<Expression>),
    /// A conditional operator which selects one of two expressions based on the outcome of a
    /// boolean expression.
    Conditional(Box<Conditional>),
    /// An operation which applies a particular operator to either one or two expression terms.
    Operation(Box<Operation>),
    /// A construct for constructing a collection by projecting the items from another
    /// collection.
    ForExpr(Box<ForExpr>),
    /// Represents a raw HCL expression. This variant is never emitted by the parser.
    Raw(RawExpression),
}

/// Represents an object key.
#[derive(Debug, PartialEq, Eq)]
pub enum ObjectKey {
    /// Represents an unquoted identifier used as object key.
    Identifier(Identifier),
    /// Any valid HCL expression can be an object key.
    Expression(Expression),
}

/// A type that holds the value of a raw expression. It can be used to serialize arbitrary HCL
/// expressions; raw expressions are not validated.
#[derive(Debug, Clone, PartialEq, Eq, Hash)]
pub struct RawExpression(String);

/// A template expression embeds a program written in the template sub-language as an
/// expression.
#[derive(Debug, PartialEq, Eq)]
pub enum TemplateExpr {
    /// A quoted template expression: the template text between the quotes, with string escape
    /// sequences already resolved.
    QuotedString(String),
    /// A heredoc template expression.
    Heredoc(Heredoc),
}

/// A heredoc template expression is introduced by a `<<` sequence and defines a template via a
/// multi-line sequence terminated by a user-chosen delimiter.
#[derive(Debug, PartialEq, Eq)]
pub struct Heredoc {
    /// The delimiter identifier that denotes the heredoc start and end.
    pub delimiter: Identifier,
    /// The raw template contained in the heredoc.
    pub template: String,
    /// The heredoc strip mode.
    pub strip: HeredocStripMode,
}

/// The strip behaviour for the template contained in the heredoc.
#[derive(Debug, Clone, Copy, PartialEq, Eq, Structural)]
pub enum HeredocStripMode {
    /// Do not strip leading whitespace (`<<`).
    NoStrip,
    /// The minimum leading whitespace of the lines is removed from all lines.
    Indent,
}

/// Traverse an expression to access attributes, object keys or element indices.
#[derive(Debug, PartialEq, Eq)]
pub struct Traversal {
    /// The expression that the access operators are applied to.
    pub expr: Expression,
    /// The traversal operators to apply to `expr` one of the other.
    pub operators: Vec<TraversalOperator>,
}

/// The expressions that can be used to traverse an expression.
#[derive(Debug, PartialEq, Eq)]
pub enum TraversalOperator {
    /// The attribute-only splat operator `.*`.
    AttrSplat,
    /// The full splat operator `[*]`.
    FullSplat,
    /// The attribute access operator `.attr`.
    GetAttr(Identifier),
    /// The index operator `[expr]`.
    Index(Expression),
    /// The legacy index operator `.42`.
    LegacyIndex(u64),
}

/// Represents a function call expression with zero or more arguments.
#[derive(Debug, PartialEq, Eq)]
pub struct FuncCall {
    /// The name of the function.
    pub name: Identifier,
    /// The function arguments.
    pub args: Vec<Expression>,
    /// If `true`, the final argument is an array that is expanded into separate arguments.
    pub expand_final: bool,
}

/// The conditional operator selects one of two expressions based on the outcome of a boolean
/// expression.
#[derive(Debug, PartialEq, Eq)]
pub struct Conditional {
    /// A condition expression that evaluates to a boolean value.
    pub cond_expr: Expression,
    /// The expression returned by the conditional if the condition evaluates to `true`.
    pub true_expr: Expression,
    /// The expression returned by the conditional if the condition evaluates to `false`.
    pub false_expr: Expression,
}

/// Operations apply a particular operator to either one or two expression terms.
#[derive(Debug, PartialEq, Eq)]
pub enum Operation {
    /// Represents an operation that applies an operator to a single expression.
    Unary(UnaryOp),
    /// Represents an operation that applies an operator to two expressions.
    Binary(BinaryOp),
}

/// An operation that applies an operator to one expression.
#[derive(Debug, PartialEq, Eq)]
pub struct UnaryOp {
    /// The unary operator to use on the expression.
    pub operator: UnaryOperator,
    /// An expression that supports evaluation with the unary operator.
    pub expr: Expression,
}

/// An operator that can be applied to an expression.
#[derive(Debug, Clone, Copy, PartialEq, Eq, Structural)]
pub enum UnaryOperator {
    /// Negate operator (`-`).
    Neg,
    /// Not operator (`!`).
    Not,
}

/// An operation that applies an operator to two expressions.
#[derive(Debug, PartialEq, Eq)]
pub struct BinaryOp {
    /// The expression on the left-hand-side of the operation.
    pub lhs_expr: Expression,
    /// The binary operator to use on the expressions.
    pub operator: BinaryOperator,
    /// The expression on the right-hand-side of the operation.
    pub rhs_expr: Expression,
}

/// An operator that can be applied to two expressions.
#[derive(Debug, Clone, Copy, PartialEq, Eq, Structural)]
pub enum BinaryOperator {
    /// Equal operator (`==`).
    Eq,
    /// Not-equal operator (`!=`).
    NotEq,
    /// Less-equal operator (`<=`).
    LessEq,
    /// Greater-equal operator (`>=`).
    GreaterEq,
    /// Less operator (`<`).
    Less,
    /// Greater operator (`>`).
    Greater,
    /// Plus operator (`+`).
    Plus,
    /// Minus operator (`-`).
    Minus,
    /// Multiply operator (`*`).
    Mul,
    /// Division operator (`/`).
    Div,
    /// Modulo operator (`%`).
    Mod,
    /// And operator (`&&`).
    And,
    /// Or operator (`||`).
    Or,
}

/// A for expression is a construct for constructing a collection by projecting the items from
/// another collection.
#[derive(Debug, PartialEq, Eq)]
pub struct ForExpr {
    /// Optional name of the variable that will be temporarily assigned the key of each element
    /// during iteration.
    pub key_var: Option<Identifier>,
    /// The name of the variable that will be temporarily assigned the value of each element
    /// during iteration.
    pub value_var: Identifier,
    /// An expression that must evaluate to a value that can be iterated.
    pub collection_expr: Expression,
    /// An expression that is evaluated once for each key in the source collection. If set, the
    /// result of the for expression is an object, otherwise a list.
    pub key_expr: Option<Expression>,
    /// An expression that is evaluated once for each value in the source collection.
    pub value_expr: Expression,
    /// Indicates whether grouping mode is enabled. Only meaningful with a `key_expr`.
    pub grouping: bool,
    /// An optional filter expression.
    pub cond_expr: Option<Expression>,
}

// ---------------------------------------------------------------------------------------------
// Mathematical content
// ---------------------------------------------------------------------------------------------

/// The content of an [`Expression`].
pub enum ExprV {
    Null,
    Bool(bool),
    Number(NumberV),
    String(Seq<char>),
    Array(Seq<ExprV>),
    Object(Seq<(KeyV, ExprV)>),
    Template(TemplateV),
    Variable(Seq<char>),
    Traversal(Box<ExprV>, Seq<TraversalOpV>),
    FuncCall(Seq<char>, Seq<ExprV>, bool),
    Parenthesis(Box<ExprV>),
    Conditional(Box<ExprV>, Box<ExprV>, Box<ExprV>),
    Unary(UnaryOperator, Box<ExprV>),
    Binary(Box<ExprV>, BinaryOperator, Box<ExprV>),
    For(ForV),
    Raw(Seq<char>),
}

/// The content of an [`ObjectKey`].
pub enum KeyV {
    Ident(Seq<char>),
    Expr(ExprV),
}

/// The content of a [`TemplateExpr`].
pub enum TemplateV {
    Quoted(Seq<char>),
    Heredoc(Seq<char>, Seq<char>, HeredocStripMode),
}

/// The content of a [`TraversalOperator`].
pub enum TraversalOpV {
    AttrSplat,
    FullSplat,
    GetAttr(Seq<char>),
    Index(ExprV),
    LegacyIndex(u64),
}

/// The content of a [`ForExpr`].
pub struct ForV {
    pub key_var: Option<Seq<char>>,
    pub value_var: Seq<char>,
    pub collection: Box<ExprV>,
    pub key_expr: Option<Box<ExprV>>,
    pub value_expr: Box<ExprV>,
    pub grouping: bool,
    pub cond: Option<Box<ExprV>>,
}

/// The content of an expression.
pub open spec fn expr_view(e: Expression) -> ExprV
    decreases e,
{
    match e {
        Expression::Null => ExprV::Null,
        Expression::Bool(b) => ExprV::Bool(b),
        Expression::Number(n) => ExprV::Number(n@),
        Expression::String(s) => ExprV::String(s@),
        Expression::Array(v) => ExprV::Array(exprs_view(v@)),
        Expression::Object(v) => ExprV::Object(pairs_view(v@)),
        Expression::TemplateExpr(t) => ExprV::Template(template_expr_view(*t)),
        Expression::Variable(i) => ExprV::Variable(i@),
        Expression::Traversal(t) => ExprV::Traversal(
            Box::new(expr_view(t.expr)),
            ops_view(t.operators@),
        ),
        Expression::FuncCall(f) => ExprV::FuncCall(f.name@, exprs_view(f.args@), f.expand_final),
        Expression::Parenthesis(inner) => ExprV::Parenthesis(Box::new(expr_view(*inner))),
        Expression::Conditional(c) => ExprV::Conditional(
            Box::new(expr_view(c.cond_expr)),
            Box::new(expr_view(c.true_expr)),
            Box::new(expr_view(c.false_expr)),
        ),
        Expression::Operation(op) => match *op {
            Operation::Unary(u) => ExprV::Unary(u.operator, Box::new(expr_view(u.expr))),
            Operation::Binary(b) => ExprV::Binary(
                Box::new(expr_view(b.lhs_expr)),
                b.operator,
                Box::new(expr_view(b.rhs_expr)),
            ),
        },
        Expression::ForExpr(f) => ExprV::For(for_view(*f)),
        Expression::Raw(r) => ExprV::Raw(r@),
    }
}

/// The content of a for expression.
pub open spec fn for_view(f: ForExpr) -> ForV
    decreases f,
{
    ForV {
        key_var: match f.key_var {
            Some(k) => Some(k@),
            None => None,
        },
        value_var: f.value_var@,
        collection: Box::new(expr_view(f.collection_expr)),
        key_expr: match f.key_expr {
            Some(k) => Some(Box::new(expr_view(k))),
            None => None,
        },
        value_expr: Box::new(expr_view(f.value_expr)),
        grouping: f.grouping,
        cond: match f.cond_expr {
            Some(c) => Some(Box::new(expr_view(c))),
            None => None,
        },
    }
}

/// The contents of a sequence of expressions.
pub open spec fn exprs_view(s: Seq<Expression>) -> Seq<ExprV>
    decreases s,
{
    if s.len() == 0 {
        seq![]
    } else {
        exprs_view(s.drop_last()).push(expr_view(s.last()))
    }
}

/// The contents of a sequence of object key-value pairs.
pub open spec fn pairs_view(s: Seq<(ObjectKey, Expression)>) -> Seq<(KeyV, ExprV)>
    decreases s,
{
    if s.len() == 0 {
        seq![]
    } else {
        pairs_view(s.drop_last()).push((key_view(s.last().0), expr_view(s.last().1)))
    }
}

/// The content of an object key.
pub open spec fn key_view(k: ObjectKey) -> KeyV
    decreases k,
{
    match k {
        ObjectKey::Identifier(i) => KeyV::Ident(i@),
        ObjectKey::Expression(e) => KeyV::Expr(expr_view(e)),
    }
}

/// The contents of a sequence of traversal operators.
pub open spec fn ops_view(s: Seq<TraversalOperator>) -> Seq<TraversalOpV>
    decreases s,
{
    if s.len() == 0 {
        seq![]
    } else {
        ops_view(s.drop_last()).push(op_view(s.last()))
    }
}

/// The content of a traversal operator.
pub open spec fn op_view(o: TraversalOperator) -> TraversalOpV
    decreases o,
{
    match o {
        TraversalOperator::AttrSplat => TraversalOpV::AttrSplat,
        TraversalOperator::FullSplat => TraversalOpV::FullSplat,
        TraversalOperator::GetAttr(i) => TraversalOpV::GetAttr(i@),
        TraversalOperator::Index(e) => TraversalOpV::Index(expr_view(e)),
        TraversalOperator::LegacyIndex(n) => TraversalOpV::LegacyIndex(n),
    }
}

/// The content of a template expression.
pub open spec fn template_expr_view(t: TemplateExpr) -> TemplateV {
    match t {
        TemplateExpr::QuotedString(s) => TemplateV::Quoted(s@),
        TemplateExpr::Heredoc(h) => TemplateV::Heredoc(h.delimiter@, h.template@, h.strip),
    }
}

impl View for RawExpression {
    type V = Seq<char>;

    closed spec fn view(&self) -> Seq<char> {
        self.0@
    }
}

impl View for Expression {
    type V = ExprV;

    open spec fn view(&self) -> ExprV {
        expr_view(*self)
    }
}

impl View for ObjectKey {
    type V = KeyV;

    open spec fn view(&self) -> KeyV {
        key_view(*self)
    }
}

impl View for TraversalOperator {
    type V = TraversalOpV;

    open spec fn view(&self) -> TraversalOpV {
        op_view(*self)
    }
}

impl View for TemplateExpr {
    type V = TemplateV;

    open spec fn view(&self) -> TemplateV {
        template_expr_view(*self)
    }
}

} // verus!

verus! {

// ---------------------------------------------------------------------------------------------
// Operators
// ---------------------------------------------------------------------------------------------

/// The text of a unary operator.
pub open spec fn unary_op_text(op: UnaryOperator) -> Seq<char> {
    match op {
        UnaryOperator::Neg => seq!['-'],
        UnaryOperator::Not => seq!['!'],
    }
}

/// The text of a binary operator.
pub open spec fn binary_op_text(op: BinaryOperator) -> Seq<char> {
    match op {
        BinaryOperator::Eq => seq!['=', '='],
        BinaryOperator::NotEq => seq!['!', '='],
        BinaryOperator::LessEq => seq!['<', '='],
        BinaryOperator::GreaterEq => seq!['>', '='],
        BinaryOperator::Less => seq!['<'],
        BinaryOperator::Greater => seq!['>'],
        BinaryOperator::Plus => seq!['+'],
        BinaryOperator::Minus => seq!['-'],
        BinaryOperator::Mul => seq!['*'],
        BinaryOperator::Div => seq!['/'],
        BinaryOperator::Mod => seq!['%'],
        BinaryOperator::And => seq!['&', '&'],
        BinaryOperator::Or => seq!['|', '|'],
    }
}

/// The precedence level of a binary operator; higher numbers bind tighter.
pub open spec fn precedence_of(op: BinaryOperator) -> u8 {
    match op {
        BinaryOperator::Mul | BinaryOperator::Div | BinaryOperator::Mod => 6,
        BinaryOperator::Plus | BinaryOperator::Minus => 5,
        BinaryOperator::LessEq | BinaryOperator::GreaterEq | BinaryOperator::Less
        | BinaryOperator::Greater => 4,
        BinaryOperator::Eq | BinaryOperator::NotEq => 3,
        BinaryOperator::And => 2,
        BinaryOperator::Or => 1,
    }
}

/// Whether two character sequences are equal.
pub fn chars_eq(a: &[char], b: &[char]) -> (r: bool)
    ensures
        r == (a@ == b@),
{
    if a.len() != b.len() {
        return false;
    }
    let mut i: usize = 0;
    while i < a.len()
        invariant
            a@.len() == b@.len(),
            i <= a@.len(),
            forall|k: int| 0 <= k < i ==> a@[k] == b@[k],
        decreases a@.len() - i,
    {
        if a[i] != b[i] {
            return false;
        }
        i += 1;
    }
    assert(a@ =~= b@);
    true
}

impl UnaryOperator {
    /// Returns the `UnaryOperator` as a static `&str`.
    pub fn as_str(&self) -> (r: &'static str)
        ensures
            r@ == unary_op_text(*self),
    {
        match self {
            UnaryOperator::Neg => {
                proof {
                    reveal_strlit("-");
                }
                "-"
            },
            UnaryOperator::Not => {
                proof {
                    reveal_strlit("!");
                }
                "!"
            },
        }
    }

    /// Parses a unary operator from its text.
    pub fn from_str(s: &str) -> (r: Result<UnaryOperator, crate::error::Error>)
        ensures
            r matches Ok(op) ==> unary_op_text(op) == s@,
            r is Err ==> forall|op: UnaryOperator| unary_op_text(op) != s@,
            r is Err ==> (r matches Err(crate::error::Error::Message(m)) && m@ == s@),
    {
        let v = crate::text::chars_of(s);
        if v.len() == 1 && v[0] == '-' {
            assert(v@ =~= seq!['-']);
            Ok(UnaryOperator::Neg)
        } else if v.len() == 1 && v[0] == '!' {
            assert(v@ =~= seq!['!']);
            Ok(UnaryOperator::Not)
        } else {
            assert forall|op: UnaryOperator| unary_op_text(op) != s@ by {
                if unary_op_text(op) == s@ {
                    assert(v@[0] == unary_op_text(op)[0]);
                }
            }
            Err(crate::error::Error::Message(crate::text::string_of(v.as_slice())))
        }
    }
}

impl BinaryOperator {
    /// Returns the `BinaryOperator` as a static `&str`.
    pub fn as_str(&self) -> (r: &'static str)
        ensures
            r@ == binary_op_text(*self),
    {
        match self {
            BinaryOperator::Eq => {
                proof {
                    reveal_strlit("==");
                }
                "=="
            },
            BinaryOperator::NotEq => {
                proof {
                    reveal_strlit("!=");
                }
                "!="
            },
            BinaryOperator::LessEq => {
                proof {
                    reveal_strlit("<=");
                }
                "<="
            },
            BinaryOperator::GreaterEq => {
                proof {
                    reveal_strlit(">=");
                }
                ">="
            },
            BinaryOperator::Less => {
                proof {
                    reveal_strlit("<");
                }
                "<"
            },
            BinaryOperator::Greater => {
                proof {
                    reveal_strlit(">");
                }
                ">"
            },
            BinaryOperator::Plus => {
                proof {
                    reveal_strlit("+");
                }
                "+"
            },
            BinaryOperator::Minus => {
                proof {
                    reveal_strlit("-");
                }
                "-"
            },
            BinaryOperator::Mul => {
                proof {
                    reveal_strlit("*");
                }
                "*"
            },
            BinaryOperator::Div => {
                proof {
                    reveal_strlit("/");
                }
                "/"
            },
            BinaryOperator::Mod => {
                proof {
                    reveal_strlit("%");
                }
                "%"
            },
            BinaryOperator::And => {
                proof {
                    reveal_strlit("&&");
                }
                "&&"
            },
            BinaryOperator::Or => {
                proof {
                    reveal_strlit("||");
                }
                "||"
            },
        }
    }

    /// Returns the operator precedence level. Higher numbers mean higher precedence.
    pub fn precedence(&self) -> (r: u8)
        ensures
            r == precedence_of(*self),
    {
        match self {
            BinaryOperator::Mul | BinaryOperator::Div | BinaryOperator::Mod => 6,
            BinaryOperator::Plus | BinaryOperator::Minus => 5,
            BinaryOperator::LessEq | BinaryOperator::GreaterEq | BinaryOperator::Less
            | BinaryOperator::Greater => 4,
            BinaryOperator::Eq | BinaryOperator::NotEq => 3,
            BinaryOperator::And => 2,
            BinaryOperator::Or => 1,
        }
    }

    /// The operator whose text is `s`, if any.
    pub fn from_chars(s: &[char]) -> (r: Option<BinaryOperator>)
        ensures
            r matches Some(op) ==> binary_op_text(op) == s@,
            r is None ==> forall|op: BinaryOperator| binary_op_text(op) != s@,
    {
        let ops = [
            BinaryOperator::Eq,
            BinaryOperator::NotEq,
            BinaryOperator::LessEq,
            BinaryOperator::GreaterEq,
            BinaryOperator::Less,
            BinaryOperator::Greater,
            BinaryOperator::Plus,
            BinaryOperator::Minus,
            BinaryOperator::Mul,
            BinaryOperator::Div,
            BinaryOperator::Mod,
            BinaryOperator::And,
            BinaryOperator::Or,
        ];
        let mut i: usize = 0;
        while i < 13
            invariant
                i <= 13,
                ops@.len() == 13,
                forall|k: int| 0 <= k < i ==> binary_op_text(#[trigger] ops@[k]) != s@,
                ops@[0] == BinaryOperator::Eq && ops@[1] == BinaryOperator::NotEq && ops@[2]
                    == BinaryOperator::LessEq && ops@[3] == BinaryOperator::GreaterEq && ops@[4]
                    == BinaryOperator::Less && ops@[5] == BinaryOperator::Greater && ops@[6]
                    == BinaryOperator::Plus && ops@[7] == BinaryOperator::Minus && ops@[8]
                    == BinaryOperator::Mul && ops@[9] == BinaryOperator::Div && ops@[10]
                    == BinaryOperator::Mod && ops@[11] == BinaryOperator::And && ops@[12]
                    == BinaryOperator::Or,
            decreases 13 - i,
        {
            let op = ops[i];
            let t = crate::text::chars_of(op.as_str());
            if chars_eq(t.as_slice(), s) {
                return Some(op);
            }
            i += 1;
        }
        assert forall|op: BinaryOperator| binary_op_text(op) != s@ by {
            match op {
                BinaryOperator::Eq => assert(binary_op_text(ops@[0]) != s@),
                BinaryOperator::NotEq => assert(binary_op_text(ops@[1]) != s@),
                BinaryOperator::LessEq => assert(binary_op_text(ops@[2]) != s@),
                BinaryOperator::GreaterEq => assert(binary_op_text(ops@[3]) != s@),
                BinaryOperator::Less => assert(binary_op_text(ops@[4]) != s@),
                BinaryOperator::Greater => assert(binary_op_text(ops@[5]) != s@),
                BinaryOperator::Plus => assert(binary_op_text(ops@[6]) != s@),
                BinaryOperator::Minus => assert(binary_op_text(ops@[7]) != s@),
                BinaryOperator::Mul => assert(binary_op_text(ops@[8]) != s@),
                BinaryOperator::Div => assert(binary_op_text(ops@[9]) != s@),
                BinaryOperator::Mod => assert(binary_op_text(ops@[10]) != s@),
                BinaryOperator::And => assert(binary_op_text(ops@[11]) != s@),
                BinaryOperator::Or => assert(binary_op_text(ops@[12]) != s@),
            }
        }
        None
    }

    /// Parses a binary operator from its text.
    pub fn from_str(s: &str) -> (r: Result<BinaryOperator, crate::error::Error>)
        ensures
            r matches Ok(op) ==> binary_op_text(op) == s@,
            r is Err ==> forall|op: BinaryOperator| binary_op_text(op) != s@,
            r is Err ==> (r matches Err(crate::error::Error::Message(m)) && m@ == s@),
    {
        let v = crate::text::chars_of(s);
        match BinaryOperator::from_chars(v.as_slice()) {
            Some(op) => Ok(op),
            None => Err(crate::error::Error::Message(crate::text::string_of(v.as_slice()))),
        }
    }
}

} // verus!

verus! {

// ---------------------------------------------------------------------------------------------
// Constructors
// ---------------------------------------------------------------------------------------------

impl RawExpression {
    /// Creates a new `RawExpression` from a string.
    pub fn new(expr: String) -> (r: RawExpression)
        ensures
            r@ == expr@,
    {
        RawExpression(expr)
    }

    /// Consumes `self` and returns the `RawExpression` as a `String`.
    pub fn into_inner(self) -> (r: String)
        ensures
            r@ == self@,
    {
        self.0
    }

    /// Returns the `RawExpression` as a `&str`.
    pub fn as_str(&self) -> (r: &str)
        ensures
            r@ == self@,
    {
        self.0.as_str()
    }

    /// The raw expression as an interpolation: `${`, the expression and `}`.
    pub fn to_text(&self) -> (r: String)
        ensures
            r@ == seq!['$', '{'] + self@ + seq!['}'],
    {
        let mut out: Vec<char> = Vec::new();
        out.push('$');
        out.push('{');
        let v = crate::text::chars_of(self.0.as_str());
        crate::text::push_chars(&mut out, v.as_slice());
        out.push('}');
        assert(out@ =~= seq!['$', '{'] + self@ + seq!['}']);
        crate::text::string_of(out.as_slice())
    }
}

/// The text that introduces a heredoc with the given strip mode.
pub open spec fn heredoc_intro_text(mode: HeredocStripMode) -> Seq<char> {
    match mode {
        HeredocStripMode::NoStrip => seq!['<', '<'],
        HeredocStripMode::Indent => seq!['<', '<', '-'],
    }
}

/// The strip mode that a text names: `None`, `none` or `<<` for no stripping, `Indent`, `indent`
/// or `<<-` for indentation stripping.
pub open spec fn strip_mode_named(t: Seq<char>) -> Option<HeredocStripMode> {
    if t == seq!['N', 'o', 'n', 'e'] || t == seq!['n', 'o', 'n', 'e'] || t == seq!['<', '<'] {
        Some(HeredocStripMode::NoStrip)
    } else if t == seq!['I', 'n', 'd', 'e', 'n', 't'] || t == seq!['i', 'n', 'd', 'e', 'n', 't']
        || t == seq!['<', '<', '-'] {
        Some(HeredocStripMode::Indent)
    } else {
        None
    }
}

/// The message for a text that names no strip mode.
pub open spec fn strip_mode_error(t: Seq<char>) -> Seq<char> {
    seq![
        'i', 'n', 'v', 'a', 'l', 'i', 'd', ' ', 'h', 'e', 'r', 'e', 'd', 'o', 'c', ' ', 's', 't',
        'r', 'i', 'p', ' ', 'm', 'o', 'd', 'e', ':', ' ', '`'
    ] + t + seq!['`']
}

impl HeredocStripMode {
    /// Parses a heredoc strip mode from its name or from the text before the delimiter.
    pub fn from_str(s: &str) -> (r: Result<HeredocStripMode, crate::error::Error>)
        ensures
            match strip_mode_named(s@) {
                Some(m) => r == Ok::<HeredocStripMode, crate::error::Error>(m),
                None => r matches Err(crate::error::Error::Message(msg)) && msg@
                    == strip_mode_error(s@),
            },
    {
        let v = crate::text::chars_of(s);
        let t = v.as_slice();
        let none_a = ['N', 'o', 'n', 'e'];
        let none_b = ['n', 'o', 'n', 'e'];
        let none_c = ['<', '<'];
        let ind_a = ['I', 'n', 'd', 'e', 'n', 't'];
        let ind_b = ['i', 'n', 'd', 'e', 'n', 't'];
        let ind_c = ['<', '<', '-'];
        assert(none_a@ =~= seq!['N', 'o', 'n', 'e']);
        assert(none_b@ =~= seq!['n', 'o', 'n', 'e']);
        assert(none_c@ =~= seq!['<', '<']);
        assert(ind_a@ =~= seq!['I', 'n', 'd', 'e', 'n', 't']);
        assert(ind_b@ =~= seq!['i', 'n', 'd', 'e', 'n', 't']);
        assert(ind_c@ =~= seq!['<', '<', '-']);
        if chars_eq(t, none_a.as_slice()) || chars_eq(t, none_b.as_slice()) || chars_eq(
            t,
            none_c.as_slice(),
        ) {
            Ok(HeredocStripMode::NoStrip)
        } else if chars_eq(t, ind_a.as_slice()) || chars_eq(t, ind_b.as_slice()) || chars_eq(
            t,
            ind_c.as_slice(),
        ) {
            Ok(HeredocStripMode::Indent)
        } else {
            let head = [
                'i', 'n', 'v', 'a', 'l', 'i', 'd', ' ', 'h', 'e', 'r', 'e', 'd', 'o', 'c', ' ', 's',
                't', 'r', 'i', 'p', ' ', 'm', 'o', 'd', 'e', ':', ' ', '`',
            ];
            let mut out: Vec<char> = Vec::new();
            crate::text::push_chars(&mut out, head.as_slice());
            crate::text::push_chars(&mut out, t);
            out.push('`');
            assert(out@ =~= strip_mode_error(s@));
            Err(crate::error::Error::Message(crate::text::string_of(out.as_slice())))
        }
    }

    /// Returns the string representation of the heredoc strip mode. This is the part before the
    /// delimiter identifier.
    pub fn as_str(&self) -> (r: &'static str)
        ensures
            r@ == heredoc_intro_text(*self),
    {
        match self {
            HeredocStripMode::NoStrip => {
                proof {
                    reveal_strlit("<<");
                }
                "<<"
            },
            HeredocStripMode::Indent => {
                proof {
                    reveal_strlit("<<-");
                }
                "<<-"
            },
        }
    }
}

impl Heredoc {
    /// Creates a new `Heredoc` with the provided delimiter and template body; no whitespace is
    /// stripped.
    pub fn new(delimiter: Identifier, template: String) -> (r: Heredoc)
        ensures
            r.delimiter@ == delimiter@,
            r.template@ == template@,
            r.strip == HeredocStripMode::NoStrip,
    {
        Heredoc { delimiter, template, strip: HeredocStripMode::NoStrip }
    }

    /// Sets the heredoc strip mode to use on the template and returns the modified `Heredoc`.
    pub fn with_strip_mode(self, strip: HeredocStripMode) -> (r: Heredoc)
        ensures
            r.delimiter == self.delimiter,
            r.template == self.template,
            r.strip == strip,
    {
        Heredoc { strip, ..self }
    }

    /// Returns the template with the strip mode applied: unchanged for `<<`, dedented for `<<-`.
    pub fn to_cow_str(&self) -> (r: String)
        ensures
            r@ == match self.strip {
                HeredocStripMode::NoStrip => self.template@,
                HeredocStripMode::Indent => crate::util::dedent_seq(self.template@, false),
            },
    {
        match self.strip {
            HeredocStripMode::NoStrip => self.template.clone(),
            HeredocStripMode::Indent => crate::util::dedent(self.template.as_str(), false),
        }
    }
}

impl TemplateExpr {
    /// Returns the template text: the quoted string, or the heredoc with its strip mode applied.
    pub fn to_cow_str(&self) -> (r: String)
        ensures
            r@ == match self {
                TemplateExpr::QuotedString(s) => s@,
                TemplateExpr::Heredoc(h) => match h.strip {
                    HeredocStripMode::NoStrip => h.template@,
                    HeredocStripMode::Indent => crate::util::dedent_seq(h.template@, false),
                },
            },
    {
        match self {
            TemplateExpr::QuotedString(s) => s.clone(),
            TemplateExpr::Heredoc(h) => h.to_cow_str(),
        }
    }
}

impl ObjectKey {
    /// Creates an unquoted identifier `ObjectKey`.
    pub fn identifier(identifier: Identifier) -> (r: ObjectKey)
        ensures
            r@ == KeyV::Ident(identifier@),
    {
        ObjectKey::Identifier(identifier)
    }
}

impl Traversal {
    /// Creates a new `Traversal` structure from an initial expression and traversal operators.
    pub fn new(expr: Expression, operators: Vec<TraversalOperator>) -> (r: Traversal)
        ensures
            r.expr == expr,
            r.operators == operators,
    {
        Traversal { expr, operators }
    }

    /// Chains another traversal operator after the existing ones.
    pub fn chain(self, operator: TraversalOperator) -> (r: Traversal)
        ensures
            r.expr == self.expr,
            r.operators@ == self.operators@.push(operator),
    {
        let mut operators = self.operators;
        operators.push(operator);
        Traversal { expr: self.expr, operators }
    }
}

impl FuncCall {
    /// Creates a new `FuncCall` for the function with the given name and no arguments.
    pub fn new(name: Identifier) -> (r: FuncCall)
        ensures
            r.name == name,
            r.args@.len() == 0,
            !r.expand_final,
    {
        FuncCall { name, args: Vec::new(), expand_final: false }
    }

    /// Creates a new `FuncCallBuilder` for the function with the given name.
    pub fn builder(name: Identifier) -> (r: FuncCallBuilder)
        ensures
            r.f.name == name,
            r.f.args@.len() == 0,
            !r.f.expand_final,
    {
        FuncCallBuilder { f: FuncCall::new(name) }
    }
}

/// A builder for function calls.
#[derive(Debug)]
pub struct FuncCallBuilder {
    /// The function call under construction.
    pub f: FuncCall,
}

impl FuncCallBuilder {
    /// Adds an argument to the function call.
    pub fn arg(self, arg: Expression) -> (r: FuncCallBuilder)
        ensures
            r.f.name == self.f.name,
            r.f.args@ == self.f.args@.push(arg),
            r.f.expand_final == self.f.expand_final,
    {
        let mut f = self.f;
        f.args.push(arg);
        FuncCallBuilder { f }
    }

    /// If `true`, the final argument should be an array which will expand to be one argument
    /// per element.
    pub fn expand_final(self, yes: bool) -> (r: FuncCallBuilder)
        ensures
            r.f.name == self.f.name,
            r.f.args == self.f.args,
            r.f.expand_final == yes,
    {
        let mut f = self.f;
        f.expand_final = yes;
        FuncCallBuilder { f }
    }

    /// Marks the function call as variadic or not: the same as
    /// [`FuncCallBuilder::expand_final`].
    pub fn variadic(self, yes: bool) -> (r: FuncCallBuilder)
        ensures
            r.f.name == self.f.name,
            r.f.args == self.f.args,
            r.f.expand_final == yes,
    {
        self.expand_final(yes)
    }

    /// Consumes the builder and returns the function call.
    pub fn build(self) -> (r: FuncCall)
        ensures
            r == self.f,
    {
        self.f
    }
}

impl Conditional {
    /// Creates a new `Conditional` from a condition and two expressions for the branches.
    pub fn new(cond_expr: Expression, true_expr: Expression, false_expr: Expression) -> (r:
        Conditional)
        ensures
            r.cond_expr == cond_expr,
            r.true_expr == true_expr,
            r.false_expr == false_expr,
    {
        Conditional { cond_expr, true_expr, false_expr }
    }
}

impl UnaryOp {
    /// Creates a new `UnaryOp` from an operator and an expression.
    pub fn new(operator: UnaryOperator, expr: Expression) -> (r: UnaryOp)
        ensures
            r.operator == operator,
            r.expr == expr,
    {
        UnaryOp { operator, expr }
    }
}

impl BinaryOp {
    /// Creates a new `BinaryOp` from two expressions and an operator.
    pub fn new(lhs_expr: Expression, operator: BinaryOperator, rhs_expr: Expression) -> (r:
        BinaryOp)
        ensures
            r.lhs_expr == lhs_expr,
            r.operator == operator,
            r.rhs_expr == rhs_expr,
    {
        BinaryOp { lhs_expr, operator, rhs_expr }
    }
}

impl ForExpr {
    /// Creates a new `ForExpr` from the value variable, the collection and the value
    /// expression; the result is a list.
    pub fn new(value_var: Identifier, collection_expr: Expression, value_expr: Expression) -> (r:
        ForExpr)
        ensures
            r.key_var is None,
            r.value_var == value_var,
            r.collection_expr == collection_expr,
            r.key_expr is None,
            r.value_expr == value_expr,
            !r.grouping,
            r.cond_expr is None,
    {
        ForExpr {
            key_var: None,
            value_var,
            collection_expr,
            key_expr: None,
            value_expr,
            grouping: false,
            cond_expr: None,
        }
    }

    /// Adds the key variable and returns the modified `ForExpr`.
    pub fn with_key_var(self, key_var: Identifier) -> (r: ForExpr)
        ensures
            r == (ForExpr { key_var: Some(key_var), ..self }),
    {
        ForExpr { key_var: Some(key_var), ..self }
    }

    /// Adds the key expression, which turns the result into an object, and returns the
    /// modified `ForExpr`.
    pub fn with_key_expr(self, key_expr: Expression) -> (r: ForExpr)
        ensures
            r == (ForExpr { key_expr: Some(key_expr), ..self }),
    {
        ForExpr { key_expr: Some(key_expr), ..self }
    }

    /// Adds the filter condition and returns the modified `ForExpr`.
    pub fn with_cond_expr(self, cond_expr: Expression) -> (r: ForExpr)
        ensures
            r == (ForExpr { cond_expr: Some(cond_expr), ..self }),
    {
        ForExpr { cond_expr: Some(cond_expr), ..self }
    }

    /// Sets the grouping mode and returns the modified `ForExpr`.
    pub fn with_grouping(self, yes: bool) -> (r: ForExpr)
        ensures
            r == (ForExpr { grouping: yes, ..self }),
    {
        ForExpr { grouping: yes, ..self }
    }
}

impl Expression {
    /// Wraps a unary operation.
    pub fn unary(op: UnaryOp) -> (r: Expression)
        ensures
            r == Expression::Operation(Box::new(Operation::Unary(op))),
    {
        Expression::Operation(Box::new(Operation::Unary(op)))
    }

    /// Wraps a binary operation.
    pub fn binary(op: BinaryOp) -> (r: Expression)
        ensures
            r == Expression::Operation(Box::new(Operation::Binary(op))),
    {
        Expression::Operation(Box::new(Operation::Binary(op)))
    }
}

} // verus!

verus! {

/// The content of a sequence of expressions has one element per expression.
pub proof fn lemma_exprs_view(s: Seq<Expression>)
    ensures
        exprs_view(s).len() == s.len(),
        forall|i: int| 0 <= i < s.len() ==> exprs_view(s)[i] == (#[trigger] s[i])@,
    decreases s.len(),
{
    if s.len() > 0 {
        lemma_exprs_view(s.drop_last());
        assert forall|i: int| 0 <= i < s.len() implies exprs_view(s)[i] == (#[trigger] s[i])@ by {
            if i < s.len() - 1 {
                assert(s.drop_last()[i] == s[i]);
            }
        }
    }
}

/// The content of a sequence of key-value pairs has one element per pair.
pub proof fn lemma_pairs_view(s: Seq<(ObjectKey, Expression)>)
    ensures
        pairs_view(s).len() == s.len(),
        forall|i: int|
            0 <= i < s.len() ==> pairs_view(s)[i] == (
            key_view((#[trigger] s[i]).0),
            expr_view(s[i].1),
        ),
    decreases s.len(),
{
    if s.len() > 0 {
        lemma_pairs_view(s.drop_last());
        assert forall|i: int| 0 <= i < s.len() implies pairs_view(s)[i] == (
            key_view((#[trigger] s[i]).0),
            expr_view(s[i].1),
        ) by {
            if i < s.len() - 1 {
                assert(s.drop_last()[i] == s[i]);
            }
        }
    }
}

/// The content of a sequence of traversal operators has one element per operator.
pub proof fn lemma_ops_view(s: Seq<TraversalOperator>)
    ensures
        ops_view(s).len() == s.len(),
        forall|i: int| 0 <= i < s.len() ==> ops_view(s)[i] == op_view(#[trigger] s[i]),
    decreases s.len(),
{
    if s.len() > 0 {
        lemma_ops_view(s.drop_last());
        assert forall|i: int| 0 <= i < s.len() implies ops_view(s)[i] == op_view(#[trigger] s[i]) by {
            if i < s.len() - 1 {
                assert(s.drop_last()[i] == s[i]);
            }
        }
    }
}

} // verus!
