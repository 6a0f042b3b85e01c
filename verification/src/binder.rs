use vstd::prelude::*;
use vstd::string::StringExecFns;
use crate::datavalues::DataTypeImpl;
use crate::exception::ErrorCode;

verus! {

/// A name as it was written in a query.
#[derive(Debug, Clone, PartialEq, Eq)]
pub struct Identifier {
    pub name: String,
}

/// The operators that can stand between two expressions.
#[derive(Debug, Clone, Copy, PartialEq, Eq, Structural)]
pub enum BinaryOperator {
    Plus,
    Minus,
    Multiply,
    Divide,
    Gt,
    Lt,
    Gte,
    Lte,
    Eq,
    NotEq,
    And,
    Or,
}

/// A scalar expression as the parser hands it over.
#[derive(Debug, PartialEq, Eq)]
pub enum Expr {
    /// A column, with the table it was qualified with, if any.
    ColumnRef { table: Option<Identifier>, column: Identifier },
    /// Two expressions joined by an operator.
    BinaryOp { op: BinaryOperator, left: Box<Expr>, right: Box<Expr> },
    /// `expr IS NULL`, or `expr IS NOT NULL` when `not` is set.
    IsNull { expr: Box<Expr>, not: bool },
    /// An unsigned integer literal.
    Literal(u64),
}

/// One column that a name in a query can refer to.
#[derive(Debug, Clone, PartialEq, Eq)]
pub struct ColumnBinding {
    pub table_name: Option<String>,
    pub column_name: String,
    pub index: usize,
    pub data_type: DataTypeImpl,
    pub nullable: bool,
}

/// The columns visible at one place of a query, in the order in which names
/// are looked up.
pub struct BindContext {
    pub columns: Vec<ColumnBinding>,
}

/// A bound scalar expression: every name is replaced by the column it
/// refers to.
#[derive(Debug, PartialEq, Eq)]
pub enum Scalar {
    ColumnRef { index: usize, data_type: DataTypeImpl, nullable: bool },
    Equal { left: Box<Scalar>, right: Box<Scalar> },
}

/// What every bound scalar expression can say of itself.
pub trait ScalarExpr {
    /// Get return type and nullability
    fn data_type(&self) -> (DataTypeImpl, bool);

    fn contains_aggregate(&self) -> bool;

    fn contains_subquery(&self) -> bool;
}

impl Scalar {
    /// The type of the value of the expression, and whether the value may
    /// be null. A column has the type it was declared with. An equality is
    /// a boolean, and it is null when one of its sides is.
    pub open spec fn spec_data_type(&self) -> (DataTypeImpl, bool)
        decreases self,
    {
        match *self {
            Scalar::ColumnRef { data_type, nullable, .. } => (data_type, nullable),
            Scalar::Equal { left, right } => (
                DataTypeImpl::Boolean,
                left.spec_data_type().1 || right.spec_data_type().1,
            ),
        }
    }
}

impl ScalarExpr for Scalar {
    fn data_type(&self) -> (r: (DataTypeImpl, bool))
        ensures
            r == self.spec_data_type(),
        decreases self,
    {
        match self {
            Scalar::ColumnRef { data_type, nullable, .. } => (*data_type, *nullable),
            Scalar::Equal { left, right } => {
                let left_nullable = left.data_type().1;
                let right_nullable = right.data_type().1;
                (DataTypeImpl::Boolean, left_nullable || right_nullable)
            },
        }
    }

    /// No form of bound expression holds an aggregate.
    fn contains_aggregate(&self) -> (b: bool)
        ensures
            !b,
    {
        false
    }

    /// No form of bound expression holds a subquery.
    fn contains_subquery(&self) -> (b: bool)
        ensures
            !b,
    {
        false
    }
}

/// Why an expression cannot be bound.
pub enum BindFailure {
    /// No visible column has this name.
    UnknownColumn(Seq<char>),
    /// The expression, given in full, is of a form that cannot be bound yet.
    UnsupportedExpr(Expr),
    /// The operator cannot be bound yet.
    UnsupportedOperator(BinaryOperator),
}

/// A name that may be missing, as the characters it is made of.
pub open spec fn name_view(name: Option<String>) -> Option<Seq<char>> {
    match name {
        Some(text) => Some(text@),
        None => None,
    }
}

impl BinaryOperator {
    /// The operator as it is written in a query.
    pub open spec fn spec_symbol(self) -> &'static str {
        match self {
            BinaryOperator::Plus => "+",
            BinaryOperator::Minus => "-",
            BinaryOperator::Multiply => "*",
            BinaryOperator::Divide => "/",
            BinaryOperator::Gt => ">",
            BinaryOperator::Lt => "<",
            BinaryOperator::Gte => ">=",
            BinaryOperator::Lte => "<=",
            BinaryOperator::Eq => "=",
            BinaryOperator::NotEq => "<>",
            BinaryOperator::And => "AND",
            BinaryOperator::Or => "OR",
        }
    }

    pub fn symbol(&self) -> (s: &'static str)
        ensures
            s == self.spec_symbol(),
    {
        match self {
            BinaryOperator::Plus => "+",
            BinaryOperator::Minus => "-",
            BinaryOperator::Multiply => "*",
            BinaryOperator::Divide => "/",
            BinaryOperator::Gt => ">",
            BinaryOperator::Lt => "<",
            BinaryOperator::Gte => ">=",
            BinaryOperator::Lte => "<=",
            BinaryOperator::Eq => "=",
            BinaryOperator::NotEq => "<>",
            BinaryOperator::And => "AND",
            BinaryOperator::Or => "OR",
        }
    }
}

/// The figure that stands for a number below ten.
pub open spec fn spec_digit(d: nat) -> &'static str {
    if d == 0 {
        "0"
    } else if d == 1 {
        "1"
    } else if d == 2 {
        "2"
    } else if d == 3 {
        "3"
    } else if d == 4 {
        "4"
    } else if d == 5 {
        "5"
    } else if d == 6 {
        "6"
    } else if d == 7 {
        "7"
    } else if d == 8 {
        "8"
    } else {
        "9"
    }
}

/// A number written in decimal figures, without leading zeros.
pub open spec fn spec_decimal(n: nat) -> Seq<char>
    decreases n,
{
    if n < 10 {
        spec_digit(n)@
    } else {
        spec_decimal(n / 10) + spec_digit(n % 10)@
    }
}

fn digit(d: u64) -> (s: &'static str)
    requires
        d < 10,
    ensures
        s == spec_digit(d as nat),
{
    if d == 0 {
        "0"
    } else if d == 1 {
        "1"
    } else if d == 2 {
        "2"
    } else if d == 3 {
        "3"
    } else if d == 4 {
        "4"
    } else if d == 5 {
        "5"
    } else if d == 6 {
        "6"
    } else if d == 7 {
        "7"
    } else if d == 8 {
        "8"
    } else {
        "9"
    }
}

/// Writes a number in decimal figures at the end of `out`.
pub fn write_decimal(n: u64, out: &mut String)
    ensures
        final(out)@ == old(out)@ + spec_decimal(n as nat),
    decreases n,
{
    if n >= 10 {
        write_decimal(n / 10, out);
    }
    out.append(digit(n % 10));
    assert(out@ =~= old(out)@ + spec_decimal(n as nat));
}

impl BinaryOperator {
    /// The name of the operator.
    pub open spec fn spec_name(self) -> &'static str {
        match self {
            BinaryOperator::Plus => "Plus",
            BinaryOperator::Minus => "Minus",
            BinaryOperator::Multiply => "Multiply",
            BinaryOperator::Divide => "Divide",
            BinaryOperator::Gt => "Gt",
            BinaryOperator::Lt => "Lt",
            BinaryOperator::Gte => "Gte",
            BinaryOperator::Lte => "Lte",
            BinaryOperator::Eq => "Eq",
            BinaryOperator::NotEq => "NotEq",
            BinaryOperator::And => "And",
            BinaryOperator::Or => "Or",
        }
    }

    pub fn name(&self) -> (s: &'static str)
        ensures
            s == self.spec_name(),
    {
        match self {
            BinaryOperator::Plus => "Plus",
            BinaryOperator::Minus => "Minus",
            BinaryOperator::Multiply => "Multiply",
            BinaryOperator::Divide => "Divide",
            BinaryOperator::Gt => "Gt",
            BinaryOperator::Lt => "Lt",
            BinaryOperator::Gte => "Gte",
            BinaryOperator::Lte => "Lte",
            BinaryOperator::Eq => "Eq",
            BinaryOperator::NotEq => "NotEq",
            BinaryOperator::And => "And",
            BinaryOperator::Or => "Or",
        }
    }
}

impl Identifier {
    /// The identifier written out: its name between quotes, as it is.
    pub open spec fn spec_text(&self) -> Seq<char> {
        "Identifier { name: \""@ + self.name@ + "\" }"@
    }

    /// Writes the identifier at the end of `out`.
    pub fn write_text(&self, out: &mut String)
        ensures
            final(out)@ == old(out)@ + self.spec_text(),
    {
        out.append("Identifier { name: \"");
        out.append(self.name.as_str());
        out.append("\" }");
        assert(out@ =~= old(out)@ + self.spec_text());
    }
}

/// A table name that may be missing, written out.
pub open spec fn spec_table_text(table: Option<Identifier>) -> Seq<char> {
    match table {
        Some(ident) => "Some("@ + ident.spec_text() + ")"@,
        None => "None"@,
    }
}

impl Expr {
    /// The expression written out in full: the name of its form, and in
    /// braces or brackets every part of it, written out in turn.
    pub open spec fn spec_text(&self) -> Seq<char>
        decreases self,
    {
        match *self {
            Expr::ColumnRef { table, column } => "ColumnRef { table: "@ + spec_table_text(table)
                + ", column: "@ + column.spec_text() + " }"@,
            Expr::BinaryOp { op, left, right } => "BinaryOp { op: "@ + op.spec_name()@
                + ", left: "@ + left.spec_text() + ", right: "@ + right.spec_text() + " }"@,
            Expr::IsNull { expr, not } => "IsNull { expr: "@ + expr.spec_text() + ", not: "@ + (if not {
                "true"@
            } else {
                "false"@
            }) + " }"@,
            Expr::Literal(n) => "Literal("@ + spec_decimal(n as nat) + ")"@,
        }
    }

    /// Writes the expression in full at the end of `out`.
    pub fn write_text(&self, out: &mut String)
        ensures
            final(out)@ == old(out)@ + self.spec_text(),
        decreases self,
    {
        match self {
            Expr::ColumnRef { table, column } => {
                out.append("ColumnRef { table: ");
                match table {
                    Some(ident) => {
                        out.append("Some(");
                        ident.write_text(out);
                        out.append(")");
                        assert(out@ =~= old(out)@ + "ColumnRef { table: "@ + spec_table_text(*table));
                    },
                    None => {
                        out.append("None");
                    },
                }
                out.append(", column: ");
                column.write_text(out);
                out.append(" }");
                assert(out@ =~= old(out)@ + self.spec_text());
            },
            Expr::BinaryOp { op, left, right } => {
                out.append("BinaryOp { op: ");
                out.append(op.name());
                out.append(", left: ");
                left.write_text(out);
                out.append(", right: ");
                right.write_text(out);
                out.append(" }");
                assert(out@ =~= old(out)@ + self.spec_text());
            },
            Expr::IsNull { expr, not } => {
                out.append("IsNull { expr: ");
                expr.write_text(out);
                out.append(", not: ");
                if *not {
                    out.append("true");
                } else {
                    out.append("false");
                }
                out.append(" }");
                assert(out@ =~= old(out)@ + self.spec_text());
            },
            Expr::Literal(n) => {
                out.append("Literal(");
                write_decimal(*n, out);
                out.append(")");
                assert(out@ =~= old(out)@ + self.spec_text());
            },
        }
    }

    /// The expression written out in full.
    pub fn text(&self) -> (s: String)
        ensures
            s@ == self.spec_text(),
    {
        let mut out = String::new();
        self.write_text(&mut out);
        assert(out@ =~= self.spec_text());
        out
    }
}

impl ColumnBinding {
    /// The binding answers to `column`, qualified with `table` if one is given.
    pub open spec fn answers(&self, table: Option<Seq<char>>, column: Seq<char>) -> bool {
        &&& self.column_name@ == column
        &&& match table {
            Some(name) => self.table_name is Some && self.table_name->Some_0@ == name,
            None => true,
        }
    }

    pub fn matches_name(&self, table: &Option<String>, column: &String) -> (b: bool)
        ensures
            b == self.answers(name_view(*table), column@),
    {
        if !(self.column_name == *column) {
            return false;
        }
        match table {
            None => true,
            Some(name) => match &self.table_name {
                Some(own) => *own == *name,
                None => false,
            },
        }
    }
}

impl BindFailure {
    /// The message of the error that reports this failure.
    pub open spec fn message(self) -> Seq<char> {
        match self {
            BindFailure::UnknownColumn(name) => "column \""@ + name + "\" doesn't exist"@,
            BindFailure::UnsupportedExpr(expr) => "Unsupported expr: "@ + expr.spec_text(),
            BindFailure::UnsupportedOperator(op) => "Unsupported binary operator: "@
                + op.spec_symbol()@,
        }
    }

    /// The error `e` reports this failure: an unknown name is a semantic
    /// error, an unsupported form or operator is not implemented.
    pub open spec fn reported_as(self, e: ErrorCode) -> bool {
        &&& e.spec_message()@ == self.message()
        &&& match self {
            BindFailure::UnknownColumn(_) => e is SemanticError,
            BindFailure::UnsupportedExpr(_) => e is UnImplement,
            BindFailure::UnsupportedOperator(_) => e is UnImplement,
        }
    }
}

impl BindContext {
    /// Position of the first visible column that answers to the name, or
    /// the number of columns if none does.
    pub open spec fn first_match(
        columns: Seq<ColumnBinding>,
        table: Option<Seq<char>>,
        column: Seq<char>,
    ) -> int
        decreases columns.len(),
    {
        if columns.len() == 0 {
            0
        } else if columns[0].answers(table, column) {
            0
        } else {
            1 + Self::first_match(columns.skip(1), table, column)
        }
    }

    /// The column a name refers to: the first visible one that answers.
    pub open spec fn spec_resolve_column(
        &self,
        table: Option<Seq<char>>,
        column: Seq<char>,
    ) -> Result<ColumnBinding, BindFailure> {
        let at = Self::first_match(self.columns@, table, column);
        if at < self.columns@.len() {
            Ok(self.columns@[at])
        } else {
            Err(BindFailure::UnknownColumn(column))
        }
    }

    pub fn create(columns: Vec<ColumnBinding>) -> (context: BindContext)
        ensures
            context.columns == columns,
    {
        BindContext { columns }
    }

    /// `first_match` is the least position that answers.
    pub proof fn lemma_first_match(
        columns: Seq<ColumnBinding>,
        table: Option<Seq<char>>,
        column: Seq<char>,
    )
        ensures
            0 <= Self::first_match(columns, table, column) <= columns.len(),
            Self::first_match(columns, table, column) < columns.len() ==> columns[Self::first_match(
                columns,
                table,
                column,
            )].answers(table, column),
            forall|i: int|
                0 <= i < Self::first_match(columns, table, column) ==> !(#[trigger] columns[i]).answers(
                    table,
                    column,
                ),
        decreases columns.len(),
    {
        if columns.len() > 0 && !columns[0].answers(table, column) {
            Self::lemma_first_match(columns.skip(1), table, column);
            let rest = Self::first_match(columns.skip(1), table, column);
            assert forall|i: int| 0 <= i < 1 + rest implies !(#[trigger] columns[i]).answers(
                table,
                column,
            ) by {
                if i > 0 {
                    assert(columns.skip(1)[i - 1] == columns[i]);
                }
            }
            if rest < columns.skip(1).len() {
                assert(columns.skip(1)[rest] == columns[1 + rest]);
            }
        }
    }

    /// A position that answers, with none before it that does, is the
    /// first match.
    pub proof fn lemma_first_match_unique(
        columns: Seq<ColumnBinding>,
        table: Option<Seq<char>>,
        column: Seq<char>,
        at: int,
    )
        requires
            0 <= at <= columns.len(),
            at < columns.len() ==> columns[at].answers(table, column),
            forall|i: int| 0 <= i < at ==> !(#[trigger] columns[i]).answers(table, column),
        ensures
            Self::first_match(columns, table, column) == at,
    {
        Self::lemma_first_match(columns, table, column);
    }

    /// Looks a name up among the visible columns. The first column that
    /// answers wins; a name that no column answers to is a semantic error.
    pub fn resolve_column(&self, table: Option<String>, column: String) -> (r: Result<
        ColumnBinding,
        ErrorCode,
    >)
        ensures
            match r {
                Ok(binding) => self.spec_resolve_column(name_view(table), column@) == Ok::<
                    ColumnBinding,
                    BindFailure,
                >(binding),
                Err(e) => {
                    &&& self.spec_resolve_column(name_view(table), column@) is Err
                    &&& BindFailure::UnknownColumn(column@).reported_as(e)
                },
            },
    {
        let ghost wanted_table = name_view(table);
        let n: usize = self.columns.len();
        let mut i: usize = 0;
        while i < n
            invariant
                i <= n,
                n == self.columns@.len(),
                wanted_table == name_view(table),
                forall|j: int| 0 <= j < i ==> !(#[trigger] self.columns@[j]).answers(
                    wanted_table,
                    column@,
                ),
            decreases n - i,
        {
            if self.columns[i].matches_name(&table, &column) {
                proof {
                    Self::lemma_first_match_unique(self.columns@, wanted_table, column@, i as int);
                }
                let found = &self.columns[i];
                return Ok(
                    ColumnBinding {
                        table_name: found.table_name.clone(),
                        column_name: found.column_name.clone(),
                        index: found.index,
                        data_type: found.data_type,
                        nullable: found.nullable,
                    },
                );
            }
            i = i + 1;
        }
        proof {
            Self::lemma_first_match_unique(self.columns@, wanted_table, column@, n as int);
        }
        let mut message = String::from_str("column \"");
        message.append(column.as_str());
        message.append("\" doesn't exist");
        Err(ErrorCode::SemanticError(message))
    }
}

/// Helper for binding scalar expression with `BindContext`.
pub struct ScalarBinder;

impl ScalarBinder {
    pub fn new() -> (binder: ScalarBinder)
        ensures
            binder == ScalarBinder,
    {
        ScalarBinder {  }
    }

    /// What binding an expression gives. A column reference becomes the
    /// column it resolves to. Of a binary operation both sides are bound,
    /// left first, and only then the operator is looked at: equality is the
    /// one that can be bound. Every other form is unsupported.
    pub open spec fn spec_bind_expr(expr: Expr, context: BindContext) -> Result<Scalar, BindFailure>
        decreases expr,
    {
        match expr {
            Expr::ColumnRef { table, column } => {
                match context.spec_resolve_column(
                    match table {
                        Some(ident) => Some(ident.name@),
                        None => None,
                    },
                    column.name@,
                ) {
                    Ok(binding) => Ok(
                        Scalar::ColumnRef {
                            index: binding.index,
                            data_type: binding.data_type,
                            nullable: binding.nullable,
                        },
                    ),
                    Err(failure) => Err(failure),
                }
            },
            Expr::BinaryOp { op, left, right } => {
                match Self::spec_bind_expr(*left, context) {
                    Err(failure) => Err(failure),
                    Ok(left_scalar) => match Self::spec_bind_expr(*right, context) {
                        Err(failure) => Err(failure),
                        Ok(right_scalar) => match op {
                            BinaryOperator::Eq => Ok(
                                Scalar::Equal {
                                    left: Box::new(left_scalar),
                                    right: Box::new(right_scalar),
                                },
                            ),
                            _ => Err(BindFailure::UnsupportedOperator(op)),
                        },
                    },
                }
            },
            _ => Err(BindFailure::UnsupportedExpr(expr)),
        }
    }

    /// Binds an expression against the columns of `bind_context`.
    pub fn bind_expr(&self, expr: &Expr, bind_context: &BindContext) -> (r: Result<
        Scalar,
        ErrorCode,
    >)
        ensures
            match r {
                Ok(scalar) => Self::spec_bind_expr(*expr, *bind_context) == Ok::<
                    Scalar,
                    BindFailure,
                >(scalar),
                Err(e) => {
                    &&& Self::spec_bind_expr(*expr, *bind_context) is Err
                    &&& Self::spec_bind_expr(*expr, *bind_context)->Err_0.reported_as(e)
                },
            },
        decreases *expr, 1int,
    {
        match expr {
            Expr::ColumnRef { table, column } => {
                let table_name: Option<String> = match table {
                    Some(ident) => Some(ident.name.clone()),
                    None => None,
                };
                let column_name = column.name.clone();
                match bind_context.resolve_column(table_name, column_name) {
                    Err(e) => Err(e),
                    Ok(column_binding) => Ok(
                        Scalar::ColumnRef {
                            index: column_binding.index,
                            data_type: column_binding.data_type,
                            nullable: column_binding.nullable,
                        },
                    ),
                }
            },
            Expr::BinaryOp { op, left, right } => self.bind_binary_op(
                op,
                left,
                right,
                bind_context,
            ),
            _ => {
                let mut message = String::from_str("Unsupported expr: ");
                expr.write_text(&mut message);
                Err(ErrorCode::UnImplement(message))
            },
        }
    }

    fn bind_binary_op(
        &self,
        op: &BinaryOperator,
        left_child: &Expr,
        right_child: &Expr,
        bind_context: &BindContext,
    ) -> (r: Result<Scalar, ErrorCode>)
        ensures
            match r {
                Ok(scalar) => Self::spec_bind_expr(
                    Expr::BinaryOp {
                        op: *op,
                        left: Box::new(*left_child),
                        right: Box::new(*right_child),
                    },
                    *bind_context,
                ) == Ok::<Scalar, BindFailure>(scalar),
                Err(e) => {
                    &&& Self::spec_bind_expr(
                        Expr::BinaryOp {
                            op: *op,
                            left: Box::new(*left_child),
                            right: Box::new(*right_child),
                        },
                        *bind_context,
                    ) is Err
                    &&& Self::spec_bind_expr(
                        Expr::BinaryOp {
                            op: *op,
                            left: Box::new(*left_child),
                            right: Box::new(*right_child),
                        },
                        *bind_context,
                    )->Err_0.reported_as(e)
                },
            },
        decreases
            (Expr::BinaryOp {
                op: *op,
                left: Box::new(*left_child),
                right: Box::new(*right_child),
            }),
            0int,
    {
        let left_scalar = match self.bind_expr(left_child, bind_context) {
            Ok(scalar) => scalar,
            Err(e) => {
                return Err(e);
            },
        };
        let right_scalar = match self.bind_expr(right_child, bind_context) {
            Ok(scalar) => scalar,
            Err(e) => {
                return Err(e);
            },
        };
        match op {
            BinaryOperator::Eq => Ok(
                Scalar::Equal { left: Box::new(left_scalar), right: Box::new(right_scalar) },
            ),
            _ => {
                let mut message = String::from_str("Unsupported binary operator: ");
                message.append(op.symbol());
                Err(ErrorCode::UnImplement(message))
            },
        }
    }
}

} // verus!
