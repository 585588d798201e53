//! One classified, normalized SQL statement, and the literal normalizer that
//! rewrites every literal of a parsed statement into one placeholder.
//!
//! Parsing and printing SQL is sqlparser's (PostgreSQL dialect); which
//! expressions count as literals, how statements map to query types and what
//! happens when parsing fails are decided here.

use vstd::prelude::*;
use crate::text::{collapse_whitespace, collapse_ws};
use crate::PgLoggrepError;
use sqlparser::ast::{Expr, Statement, Value};
use sqlparser::dialect::PostgreSqlDialect;
use sqlparser::parser::Parser;

verus! {

/// The token that every literal becomes.
pub const PLACEHOLDER: &'static str = "?";

/// Query type classification.
#[derive(Clone, Copy, Debug, PartialEq, Eq, Hash, Structural)]
pub enum QueryType {
    Select,
    Insert,
    Update,
    Delete,
    /// Data definition (CREATE, DROP, ALTER, TRUNCATE, GRANT, REVOKE).
    DDL,
    /// Anything else (BEGIN, COMMIT, ROLLBACK, EXPLAIN, VACUUM, ...).
    Other,
}

impl QueryType {
    /// The type's display name.
    pub fn to_string(&self) -> (r: String)
        ensures
            r@ == query_type_name(*self),
    {
        match self {
            QueryType::Select => String::from_str("SELECT"),
            QueryType::Insert => String::from_str("INSERT"),
            QueryType::Update => String::from_str("UPDATE"),
            QueryType::Delete => String::from_str("DELETE"),
            QueryType::DDL => String::from_str("DDL"),
            QueryType::Other => String::from_str("OTHER"),
        }
    }
}

pub open spec fn query_type_name(t: QueryType) -> Seq<char> {
    match t {
        QueryType::Select => "SELECT"@,
        QueryType::Insert => "INSERT"@,
        QueryType::Update => "UPDATE"@,
        QueryType::Delete => "DELETE"@,
        QueryType::DDL => "DDL"@,
        QueryType::Other => "OTHER"@,
    }
}

/// The statement variants of sqlparser's AST that classification tells apart.
#[derive(Clone, Copy, Debug, PartialEq, Eq, Structural)]
pub enum StatementKind {
    Query,
    Insert,
    Update,
    Delete,
    CreateTable,
    CreateView,
    CreateIndex,
    CreateSchema,
    CreateDatabase,
    Drop,
    AlterTable,
    Truncate,
    Other,
}

/// The kinds of value expression that sqlparser's AST tells apart, as far as
/// normalization cares.
#[derive(Clone, Copy, Debug, PartialEq, Eq, Structural)]
pub enum ValueKind {
    Number,
    SingleQuotedString,
    DoubleQuotedString,
    Boolean,
    Null,
    Placeholder,
    OtherValue,
    NotAValue,
}

/// The query type of a parsed statement of the given kind.
pub open spec fn statement_query_type(k: StatementKind) -> QueryType {
    match k {
        StatementKind::Query => QueryType::Select,
        StatementKind::Insert => QueryType::Insert,
        StatementKind::Update => QueryType::Update,
        StatementKind::Delete => QueryType::Delete,
        StatementKind::Other => QueryType::Other,
        _ => QueryType::DDL,
    }
}

/// Whether an expression of the given kind is a literal that normalization
/// replaces: numbers, quoted strings, booleans, NULL and existing placeholders.
pub open spec fn is_literal(k: ValueKind) -> bool {
    !(k is OtherValue || k is NotAValue)
}

/// sqlparser's parsed statement, carried through unread.
#[verifier::external_type_specification]
#[verifier::external_body]
pub struct ExStatement(Statement);

/// sqlparser's expression, carried through unread.
#[verifier::external_type_specification]
#[verifier::external_body]
pub struct ExExpr(Expr);

/// What sqlparser (PostgreSQL dialect) makes of the text: for each statement
/// in order, its kind, the statement printed as SQL, and the statement printed
/// after `rewrite_literal` was applied to each of its expressions; `None`
/// where the text does not parse.
pub uninterp spec fn parsed_statements(sql: Seq<char>) -> Option<Seq<(StatementKind, Seq<char>, Seq<char>)>>;

/// Whether sqlparser accepts the text as a sequence of PostgreSQL statements.
pub open spec fn sql_accepted(sql: Seq<char>) -> bool {
    parsed_statements(sql) is Some
}

pub open spec fn statements_view(v: Seq<(StatementKind, String, String)>) -> Seq<(StatementKind, Seq<char>, Seq<char>)> {
    v.map_values(|p: (StatementKind, String, String)| (p.0, p.1@, p.2@))
}

/// Relies on `sqlparser::parser::Parser::parse_sql` with `PostgreSqlDialect`,
/// `Display` for `Statement` and `sqlparser::ast::visit_expressions_mut`
/// (which calls `rewrite_literal` on every expression, nested ones included,
/// children first): each statement's kind, its SQL, and its SQL after the rewrite.
#[verifier::external_body]
fn parse_statements(sql: &str) -> (r: Option<Vec<(StatementKind, String, String)>>)
    ensures
        match r {
            Some(v) => parsed_statements(sql@) == Some(statements_view(v@)),
            None => parsed_statements(sql@) is None,
        },
{
    let mut ast = Parser::parse_sql(&PostgreSqlDialect {}, sql).ok()?;
    let kinds: Vec<StatementKind> = ast.iter().map(statement_kind).collect();
    let printed: Vec<String> = ast.iter().map(|s| s.to_string()).collect();
    let _ = sqlparser::ast::visit_expressions_mut(&mut ast, |e| {
        rewrite_literal(e);
        std::ops::ControlFlow::<()>::Continue(())
    });
    let rewritten = ast.iter().map(|s| s.to_string());
    Some(kinds.into_iter().zip(printed).zip(rewritten).map(|((k, p), n)| (k, p, n)).collect())
}

/// Relies on the variants of sqlparser's `Statement`, told apart one by one.
#[verifier::external_body]
fn statement_kind(s: &Statement) -> (r: StatementKind) {
    match s {
        Statement::Query(_) => StatementKind::Query,
        Statement::Insert(_) => StatementKind::Insert,
        Statement::Update { .. } => StatementKind::Update,
        Statement::Delete(_) => StatementKind::Delete,
        Statement::CreateTable(_) => StatementKind::CreateTable,
        Statement::CreateView { .. } => StatementKind::CreateView,
        Statement::CreateIndex(_) => StatementKind::CreateIndex,
        Statement::CreateSchema { .. } => StatementKind::CreateSchema,
        Statement::CreateDatabase { .. } => StatementKind::CreateDatabase,
        Statement::Drop { .. } => StatementKind::Drop,
        Statement::AlterTable { .. } => StatementKind::AlterTable,
        Statement::Truncate { .. } => StatementKind::Truncate,
        _ => StatementKind::Other,
    }
}

/// Relies on the variants of sqlparser's `Expr::Value` and `Value`, told apart one by one.
#[verifier::external_body]
fn value_kind(e: &Expr) -> (r: ValueKind) {
    match e {
        Expr::Value(Value::Number(..)) => ValueKind::Number,
        Expr::Value(Value::SingleQuotedString(_)) => ValueKind::SingleQuotedString,
        Expr::Value(Value::DoubleQuotedString(_)) => ValueKind::DoubleQuotedString,
        Expr::Value(Value::Boolean(_)) => ValueKind::Boolean,
        Expr::Value(Value::Null) => ValueKind::Null,
        Expr::Value(Value::Placeholder(_)) => ValueKind::Placeholder,
        Expr::Value(_) => ValueKind::OtherValue,
        _ => ValueKind::NotAValue,
    }
}

/// Relies on sqlparser's `Expr::Value(Value::Placeholder(..))`: makes `e` the
/// placeholder expression `token`.
#[verifier::external_body]
fn set_placeholder(e: &mut Expr, token: &str) {
    *e = Expr::Value(Value::Placeholder(token.to_string()));
}

/// Whether an expression of the given kind is a literal that normalization replaces.
pub fn literal_kind(k: ValueKind) -> (r: bool)
    ensures
        r == is_literal(k),
{
    match k {
        ValueKind::OtherValue | ValueKind::NotAValue => false,
        _ => true,
    }
}

/// The query type of a parsed statement of the given kind.
pub fn query_type_from_statement(k: StatementKind) -> (r: QueryType)
    ensures
        r == statement_query_type(k),
{
    match k {
        StatementKind::Query => QueryType::Select,
        StatementKind::Insert => QueryType::Insert,
        StatementKind::Update => QueryType::Update,
        StatementKind::Delete => QueryType::Delete,
        StatementKind::Other => QueryType::Other,
        _ => QueryType::DDL,
    }
}

/// Replaces `e` with the placeholder where it is a literal.
fn rewrite_literal(e: &mut Expr) {
    if literal_kind(value_kind(e)) {
        set_placeholder(e, PLACEHOLDER);
    }
}

/// A query in plain values: its type, its SQL and its normalized SQL.
pub open spec fn query_view(q: Query) -> (QueryType, Seq<char>, Seq<char>) {
    (q.query_type, q.sql@, q.normalized_query@)
}

pub open spec fn queries_view(qs: Seq<Query>) -> Seq<(QueryType, Seq<char>, Seq<char>)> {
    qs.map_values(|q: Query| query_view(q))
}

/// The query that a parsed statement gives.
pub open spec fn statement_query(p: (StatementKind, Seq<char>, Seq<char>)) -> (QueryType, Seq<char>, Seq<char>) {
    (statement_query_type(p.0), p.1, p.2)
}

/// The queries that parsed statements give, one per statement.
pub open spec fn statement_queries_of(ps: Seq<(StatementKind, Seq<char>, Seq<char>)>) -> Seq<(QueryType, Seq<char>, Seq<char>)> {
    ps.map_values(|p: (StatementKind, Seq<char>, Seq<char>)| statement_query(p))
}

/// The queries of SQL text that sqlparser accepts, one per statement.
pub open spec fn parsed_queries(sql: Seq<char>) -> Seq<(QueryType, Seq<char>, Seq<char>)> {
    statement_queries_of(parsed_statements(sql)->0)
}

/// One classified, normalized SQL statement.
#[derive(Clone, Debug)]
pub struct Query {
    /// The statement as sqlparser prints it.
    pub sql: String,
    pub query_type: QueryType,
    /// The statement with every literal replaced by the placeholder.
    pub normalized_query: String,
}

impl Query {
    /// Parses `sql` and returns one `Query` per statement, in order; an
    /// error where the text does not parse.
    pub fn from_sql(sql: &str) -> (r: Result<Vec<Query>, PgLoggrepError>)
        ensures
            r is Ok <==> sql_accepted(sql@),
            r is Ok ==> queries_view(r->Ok_0@) == parsed_queries(sql@),
            r is Err ==> r->Err_0 is Parse,
    {
        match parse_statements(sql) {
            Some(statements) => {
                let ghost ps = statements_view(statements@);
                let mut queries: Vec<Query> = Vec::new();
                let mut i: usize = 0;
                while i < statements.len()
                    invariant
                        ps == statements_view(statements@),
                        i <= statements@.len(),
                        queries@.len() == i,
                        queries_view(queries@) == statement_queries_of(ps.take(i as int)),
                    decreases statements@.len() - i,
                {
                    let (kind, printed, normalized) = (
                        statements[i].0,
                        statements[i].1.clone(),
                        statements[i].2.clone(),
                    );
                    assert(ps[i as int] == (kind, printed@, normalized@));
                    let ghost before = queries@;
                    queries.push(
                        Query {
                            sql: printed,
                            query_type: query_type_from_statement(kind),
                            normalized_query: normalized,
                        },
                    );
                    i = i + 1;
                    assert forall|k: int| 0 <= k < i implies #[trigger] queries_view(queries@)[k]
                        == statement_queries_of(ps.take(i as int))[k] by {
                        if k < i - 1 {
                            assert(queries@[k] == before[k]);
                            assert(queries_view(before)[k] == statement_queries_of(ps.take(i - 1))[k]);
                        }
                    }
                    assert(queries_view(queries@) =~= statement_queries_of(ps.take(i as int)));
                }
                assert(ps.take(ps.len() as int) =~= ps);
                Ok(queries)
            },
            None => Err(
                PgLoggrepError::Parse {
                    message: String::from_str("Failed to parse SQL"),
                    line_number: None,
                    line_content: Some(String::from_str(sql)),
                },
            ),
        }
    }

    /// The single query that stands for text that sqlparser does not accept:
    /// the text with its whitespace collapsed, classified by its leading keyword.
    pub fn unparsed(sql: &str) -> (r: Query)
        ensures
            r.sql@ == collapse_ws(sql@),
            r.normalized_query@ == collapse_ws(sql@),
            r.query_type == crate::analytics::queries::classify(sql@),
    {
        let text = collapse_whitespace(sql);
        Query {
            sql: text.clone(),
            query_type: crate::analytics::queries::classify_sql(sql),
            normalized_query: text,
        }
    }
}

} // verus!
