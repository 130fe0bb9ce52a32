use vstd::prelude::*;
use vstd::string::StringExecFns;
use vstd::string::StringSliceAdditionalSpecFns;

use crate::error::Error;
use crate::hash::{hash_str, key_hash, Hasher};
use crate::operation;
use crate::statement;
use crate::value;
use crate::value::{Params, PodId};

verus! {

/// The kind of an ancestor pod.
#[derive(Clone, Copy, Debug, PartialEq, Eq, Structural)]
pub enum PodClass {
    Signed,
    Main,
}

/// A reference to an ancestor pod: its kind and id.
#[derive(Clone, Copy, Debug, PartialEq, Eq, Structural)]
pub struct Origin(pub PodClass, pub PodId);

/// A user-level value. Containers are carried by their commitment.
#[derive(Clone, Debug, PartialEq, Eq)]
pub enum Value {
    String(String),
    Int(i64),
    Bool(bool),
    Dictionary(value::Hash),
    ValueSet(value::Hash),
    Array(value::Hash),
    Raw(value::Value),
}

/// The value that a user-level value lowers to.
pub open spec fn lower_value<H: Hasher>(v: Value) -> value::Value {
    match v {
        Value::String(s) => {
            let h = key_hash::<H>(s@);
            value::Value(h.0, h.1, h.2, h.3)
        },
        Value::Int(i) => value::i64_embedding(i),
        Value::Bool(b) => value::i64_embedding(if b { 1 } else { 0 }),
        Value::Dictionary(h) => value::Value(h.0, h.1, h.2, h.3),
        Value::ValueSet(h) => value::Value(h.0, h.1, h.2, h.3),
        Value::Array(h) => value::Value(h.0, h.1, h.2, h.3),
        Value::Raw(r) => r,
    }
}

impl Value {
    /// Lowers the value to its four field elements.
    pub fn to_middleware<H: Hasher>(&self) -> (r: value::Value)
        ensures
            r == lower_value::<H>(*self),
    {
        match self {
            Value::String(s) => value::Value::from_hash(hash_str::<H>(s.as_str())),
            Value::Int(i) => value::Value::from_i64(*i),
            Value::Bool(b) => value::Value::from_i64(if *b { 1 } else { 0 }),
            Value::Dictionary(h) => value::Value::from_hash(*h),
            Value::ValueSet(h) => value::Value::from_hash(*h),
            Value::Array(h) => value::Value::from_hash(*h),
            Value::Raw(r) => *r,
        }
    }
}

/// A user-level anchored key: the origin pod and the key as a string.
#[derive(Clone, Debug, PartialEq, Eq)]
pub struct AnchoredKey(pub Origin, pub String);

/// The anchored key that a user-level one lowers to: the origin's id and the key's hash.
pub open spec fn lower_key<H: Hasher>(ak: AnchoredKey) -> statement::AnchoredKey {
    statement::AnchoredKey(ak.0.1, key_hash::<H>(ak.1@))
}

impl AnchoredKey {
    /// The middleware anchored key: the origin's id and the key's hash.
    pub fn to_middleware<H: Hasher>(&self) -> (r: statement::AnchoredKey)
        ensures
            r == lower_key::<H>(*self),
    {
        statement::AnchoredKey(self.0.1, hash_str::<H>(self.1.as_str()))
    }
}

/// A user-level statement argument.
#[derive(Clone, Debug, PartialEq, Eq)]
pub enum StatementArg {
    Literal(Value),
    Key(AnchoredKey),
}

/// A user-level statement.
#[derive(Clone, Debug, PartialEq, Eq)]
pub enum Statement {
    Empty,
    ValueOf(AnchoredKey, Value),
    Equal(AnchoredKey, AnchoredKey),
    NotEqual(AnchoredKey, AnchoredKey),
    Gt(AnchoredKey, AnchoredKey),
    Lt(AnchoredKey, AnchoredKey),
    Contains(AnchoredKey, AnchoredKey),
    NotContains(AnchoredKey, AnchoredKey),
    SumOf(AnchoredKey, AnchoredKey, AnchoredKey),
    ProductOf(AnchoredKey, AnchoredKey, AnchoredKey),
    MaxOf(AnchoredKey, AnchoredKey, AnchoredKey),
}

/// The statement that a user-level statement lowers to.
pub open spec fn lower_statement<H: Hasher>(st: Statement) -> statement::Statement {
    match st {
        Statement::Empty => statement::Statement::Empty,
        Statement::ValueOf(a, v) => statement::Statement::ValueOf(
            lower_key::<H>(a),
            lower_value::<H>(v),
        ),
        Statement::Equal(a, b) => statement::Statement::Equal(lower_key::<H>(a), lower_key::<H>(b)),
        Statement::NotEqual(a, b) => statement::Statement::NotEqual(
            lower_key::<H>(a),
            lower_key::<H>(b),
        ),
        Statement::Gt(a, b) => statement::Statement::Gt(lower_key::<H>(a), lower_key::<H>(b)),
        Statement::Lt(a, b) => statement::Statement::Lt(lower_key::<H>(a), lower_key::<H>(b)),
        Statement::Contains(a, b) => statement::Statement::Contains(
            lower_key::<H>(a),
            lower_key::<H>(b),
        ),
        Statement::NotContains(a, b) => statement::Statement::NotContains(
            lower_key::<H>(a),
            lower_key::<H>(b),
        ),
        Statement::SumOf(a, b, c) => statement::Statement::SumOf(
            lower_key::<H>(a),
            lower_key::<H>(b),
            lower_key::<H>(c),
        ),
        Statement::ProductOf(a, b, c) => statement::Statement::ProductOf(
            lower_key::<H>(a),
            lower_key::<H>(b),
            lower_key::<H>(c),
        ),
        Statement::MaxOf(a, b, c) => statement::Statement::MaxOf(
            lower_key::<H>(a),
            lower_key::<H>(b),
            lower_key::<H>(c),
        ),
    }
}

/// The predicate of a user-level statement.
pub open spec fn predicate_of(st: Statement) -> statement::NativePredicate {
    match st {
        Statement::Empty => statement::NativePredicate::Empty,
        Statement::ValueOf(..) => statement::NativePredicate::ValueOf,
        Statement::Equal(..) => statement::NativePredicate::Equal,
        Statement::NotEqual(..) => statement::NativePredicate::NotEqual,
        Statement::Gt(..) => statement::NativePredicate::Gt,
        Statement::Lt(..) => statement::NativePredicate::Lt,
        Statement::Contains(..) => statement::NativePredicate::Contains,
        Statement::NotContains(..) => statement::NativePredicate::NotContains,
        Statement::SumOf(..) => statement::NativePredicate::SumOf,
        Statement::ProductOf(..) => statement::NativePredicate::ProductOf,
        Statement::MaxOf(..) => statement::NativePredicate::MaxOf,
    }
}

impl Statement {
    /// The middleware statement: keys hashed, values lowered.
    pub fn to_middleware<H: Hasher>(&self) -> (r: statement::Statement)
        ensures
            r == lower_statement::<H>(*self),
    {
        match self {
            Statement::Empty => statement::Statement::Empty,
            Statement::ValueOf(a, v) => statement::Statement::ValueOf(
                a.to_middleware::<H>(),
                v.to_middleware::<H>(),
            ),
            Statement::Equal(a, b) => statement::Statement::Equal(
                a.to_middleware::<H>(),
                b.to_middleware::<H>(),
            ),
            Statement::NotEqual(a, b) => statement::Statement::NotEqual(
                a.to_middleware::<H>(),
                b.to_middleware::<H>(),
            ),
            Statement::Gt(a, b) => statement::Statement::Gt(
                a.to_middleware::<H>(),
                b.to_middleware::<H>(),
            ),
            Statement::Lt(a, b) => statement::Statement::Lt(
                a.to_middleware::<H>(),
                b.to_middleware::<H>(),
            ),
            Statement::Contains(a, b) => statement::Statement::Contains(
                a.to_middleware::<H>(),
                b.to_middleware::<H>(),
            ),
            Statement::NotContains(a, b) => statement::Statement::NotContains(
                a.to_middleware::<H>(),
                b.to_middleware::<H>(),
            ),
            Statement::SumOf(a, b, c) => statement::Statement::SumOf(
                a.to_middleware::<H>(),
                b.to_middleware::<H>(),
                c.to_middleware::<H>(),
            ),
            Statement::ProductOf(a, b, c) => statement::Statement::ProductOf(
                a.to_middleware::<H>(),
                b.to_middleware::<H>(),
                c.to_middleware::<H>(),
            ),
            Statement::MaxOf(a, b, c) => statement::Statement::MaxOf(
                a.to_middleware::<H>(),
                b.to_middleware::<H>(),
                c.to_middleware::<H>(),
            ),
        }
    }

    /// The statement's predicate.
    pub fn code(&self) -> (r: statement::NativePredicate)
        ensures
            r == predicate_of(*self),
    {
        match self {
            Statement::Empty => statement::NativePredicate::Empty,
            Statement::ValueOf(..) => statement::NativePredicate::ValueOf,
            Statement::Equal(..) => statement::NativePredicate::Equal,
            Statement::NotEqual(..) => statement::NativePredicate::NotEqual,
            Statement::Gt(..) => statement::NativePredicate::Gt,
            Statement::Lt(..) => statement::NativePredicate::Lt,
            Statement::Contains(..) => statement::NativePredicate::Contains,
            Statement::NotContains(..) => statement::NativePredicate::NotContains,
            Statement::SumOf(..) => statement::NativePredicate::SumOf,
            Statement::ProductOf(..) => statement::NativePredicate::ProductOf,
            Statement::MaxOf(..) => statement::NativePredicate::MaxOf,
        }
    }
}

/// A user-level operation argument: an entry to create, a statement, or a literal to hoist.
#[derive(Clone, Debug, PartialEq, Eq)]
pub enum OperationArg {
    Entry(String, Value),
    Statement(Statement),
    Literal(Value),
}

/// A user-level operation.
#[derive(Clone, Debug, PartialEq, Eq)]
pub enum Operation {
    Empty,
    NewEntry(String, Value),
    CopyStatement(Statement),
    EqualFromEntries(OperationArg, OperationArg),
    NotEqualFromEntries(OperationArg, OperationArg),
    GtFromEntries(OperationArg, OperationArg),
    LtFromEntries(OperationArg, OperationArg),
    TransitiveEqualFromStatements(Statement, Statement),
    GtToNotEqual(Statement),
    LtToNotEqual(Statement),
    ContainsFromEntries(OperationArg, OperationArg),
    NotContainsFromEntries(OperationArg, OperationArg),
    RenameContainedBy(Statement, Statement),
    SumOf(OperationArg, OperationArg, OperationArg),
    ProductOf(OperationArg, OperationArg, OperationArg),
    MaxOf(OperationArg, OperationArg, OperationArg),
}

/// The lowered statement of an entry-argument, where it is a statement.
pub open spec fn lower_arg<H: Hasher>(a: OperationArg) -> Option<statement::Statement> {
    match a {
        OperationArg::Statement(s) => Some(lower_statement::<H>(s)),
        _ => None,
    }
}

/// The operation that a user-level operation lowers to; `None` where an entry-argument is
/// not a statement.
pub open spec fn lower_operation<H: Hasher>(op: Operation) -> Option<operation::Operation> {
    let l = |s: Statement| lower_statement::<H>(s);
    match op {
        Operation::Empty => Some(operation::Operation::Empty),
        Operation::NewEntry(_, _) => Some(operation::Operation::NewEntry),
        Operation::CopyStatement(s) => Some(operation::Operation::CopyStatement(l(s))),
        Operation::EqualFromEntries(a, b) => match (lower_arg::<H>(a), lower_arg::<H>(b)) {
            (Some(x), Some(y)) => Some(operation::Operation::EqualFromEntries(x, y)),
            _ => None,
        },
        Operation::NotEqualFromEntries(a, b) => match (lower_arg::<H>(a), lower_arg::<H>(b)) {
            (Some(x), Some(y)) => Some(operation::Operation::NotEqualFromEntries(x, y)),
            _ => None,
        },
        Operation::GtFromEntries(a, b) => match (lower_arg::<H>(a), lower_arg::<H>(b)) {
            (Some(x), Some(y)) => Some(operation::Operation::GtFromEntries(x, y)),
            _ => None,
        },
        Operation::LtFromEntries(a, b) => match (lower_arg::<H>(a), lower_arg::<H>(b)) {
            (Some(x), Some(y)) => Some(operation::Operation::LtFromEntries(x, y)),
            _ => None,
        },
        Operation::TransitiveEqualFromStatements(a, b) => Some(
            operation::Operation::TransitiveEqualFromStatements(l(a), l(b)),
        ),
        Operation::GtToNotEqual(a) => Some(operation::Operation::GtToNotEqual(l(a))),
        Operation::LtToNotEqual(a) => Some(operation::Operation::LtToNotEqual(l(a))),
        Operation::ContainsFromEntries(a, b) => match (lower_arg::<H>(a), lower_arg::<H>(b)) {
            (Some(x), Some(y)) => Some(operation::Operation::ContainsFromEntries(x, y)),
            _ => None,
        },
        Operation::NotContainsFromEntries(a, b) => match (lower_arg::<H>(a), lower_arg::<H>(b)) {
            (Some(x), Some(y)) => Some(operation::Operation::NotContainsFromEntries(x, y)),
            _ => None,
        },
        Operation::RenameContainedBy(a, b) => Some(
            operation::Operation::RenameContainedBy(l(a), l(b)),
        ),
        Operation::SumOf(a, b, c) => match (lower_arg::<H>(a), lower_arg::<H>(b), lower_arg::<H>(c)) {
            (Some(x), Some(y), Some(z)) => Some(operation::Operation::SumOf(x, y, z)),
            _ => None,
        },
        Operation::ProductOf(a, b, c) => match (lower_arg::<H>(a), lower_arg::<H>(b), lower_arg::<H>(c)) {
            (Some(x), Some(y), Some(z)) => Some(operation::Operation::ProductOf(x, y, z)),
            _ => None,
        },
        Operation::MaxOf(a, b, c) => match (lower_arg::<H>(a), lower_arg::<H>(b), lower_arg::<H>(c)) {
            (Some(x), Some(y), Some(z)) => Some(operation::Operation::MaxOf(x, y, z)),
            _ => None,
        },
    }
}

/// The lowered statements of a list.
pub open spec fn lowered_statements<H: Hasher>(s: Seq<Statement>) -> Seq<statement::Statement> {
    s.map_values(|x: Statement| lower_statement::<H>(x))
}

/// The lowered operation, or the empty operation where it cannot be lowered.
#[verifier::opaque]
pub open spec fn lowered_op<H: Hasher>(o: Operation) -> operation::Operation {
    match lower_operation::<H>(o) {
        Some(x) => x,
        None => operation::Operation::Empty,
    }
}

/// The lowered operations of a list.
pub open spec fn lowered_operations<H: Hasher>(s: Seq<Operation>) -> Seq<operation::Operation> {
    s.map_values(|x: Operation| lowered_op::<H>(x))
}

/// A statement has no more arguments than the configured bound.
#[verifier::opaque]
pub open spec fn st_fits<H: Hasher>(params: Params, st: Statement) -> bool {
    lower_statement::<H>(st).spec_args().len() <= params.max_statement_args
}

/// An operation lowers, with no more arguments than the configured bound.
#[verifier::opaque]
pub open spec fn op_fits<H: Hasher>(params: Params, op: Operation) -> bool {
    &&& lower_operation::<H>(op).is_some()
    &&& lowered_op::<H>(op).spec_args().len() <= params.max_operation_args
}

/// The builder's lists can be compiled: statements and operations pair up within
/// `max_statements`, every operation lowers, and argument counts stay within bounds.
pub open spec fn compilable<H: Hasher>(
    params: Params,
    statements: Seq<Statement>,
    operations: Seq<Operation>,
    public_statements: Seq<Statement>,
) -> bool {
    &&& statements.len() == operations.len()
    &&& statements.len() <= params.max_statements
    &&& forall|i: int| 0 <= i < operations.len() ==> op_fits::<H>(params, #[trigger] operations[i])
    &&& forall|i: int| 0 <= i < statements.len() ==> st_fits::<H>(params, #[trigger] statements[i])
    &&& forall|i: int|
        0 <= i < public_statements.len() ==> st_fits::<H>(params, #[trigger] public_statements[i])
}

/// Lowers user-level statements and operations to the middleware's.
pub struct MainPodCompiler {
    pub params: Params,
    pub statements: Vec<statement::Statement>,
    pub operations: Vec<operation::Operation>,
}

impl MainPodCompiler {
    pub fn new(params: &Params) -> (r: MainPodCompiler)
        ensures
            r.params == *params,
            r.statements@.len() == 0,
            r.operations@.len() == 0,
    {
        MainPodCompiler { params: *params, statements: Vec::new(), operations: Vec::new() }
    }

    pub fn push_st_op(&mut self, st: statement::Statement, op: operation::Operation)
        ensures
            final(self).params == old(self).params,
            final(self).statements@ == old(self).statements@.push(st),
            final(self).operations@ == old(self).operations@.push(op),
    {
        self.statements.push(st);
        self.operations.push(op);
    }

    pub fn compile_anchored_key<H: Hasher>(key: &AnchoredKey) -> (r: statement::AnchoredKey)
        ensures
            r == lower_key::<H>(*key),
    {
        key.to_middleware::<H>()
    }

    pub fn compile_st<H: Hasher>(&self, st: &Statement) -> (r: statement::Statement)
        ensures
            r == lower_statement::<H>(*st),
    {
        st.to_middleware::<H>()
    }

    fn compile_arg<H: Hasher>(&self, a: &OperationArg) -> (r: Result<statement::Statement, Error>)
        ensures
            match lower_arg::<H>(*a) {
                Some(s) => r == Ok::<statement::Statement, Error>(s),
                None => r == Err::<statement::Statement, Error>(Error::IllFormedOperation),
            },
    {
        match a {
            OperationArg::Statement(s) => Ok(self.compile_st::<H>(s)),
            _ => Err(Error::IllFormedOperation),
        }
    }

    /// Lowers an operation. Fails with `IllFormedOperation` where an entry-argument is not a
    /// statement (a literal not hoisted, or an entry).
    pub fn compile_op<H: Hasher>(&self, op: &Operation) -> (r: Result<operation::Operation, Error>)
        ensures
            match lower_operation::<H>(*op) {
                Some(o) => r == Ok::<operation::Operation, Error>(o),
                None => r == Err::<operation::Operation, Error>(Error::IllFormedOperation),
            },
    {
        match op {
            Operation::Empty => Ok(operation::Operation::Empty),
            Operation::NewEntry(_, _) => Ok(operation::Operation::NewEntry),
            Operation::CopyStatement(s) => Ok(
                operation::Operation::CopyStatement(self.compile_st::<H>(s)),
            ),
            Operation::EqualFromEntries(a, b) => {
                let x = self.compile_arg::<H>(a);
                let y = self.compile_arg::<H>(b);
                match (x, y) {
                    (Ok(x), Ok(y)) => Ok(operation::Operation::EqualFromEntries(x, y)),
                    _ => Err(Error::IllFormedOperation),
                }
            },
            Operation::NotEqualFromEntries(a, b) => {
                let x = self.compile_arg::<H>(a);
                let y = self.compile_arg::<H>(b);
                match (x, y) {
                    (Ok(x), Ok(y)) => Ok(operation::Operation::NotEqualFromEntries(x, y)),
                    _ => Err(Error::IllFormedOperation),
                }
            },
            Operation::GtFromEntries(a, b) => {
                let x = self.compile_arg::<H>(a);
                let y = self.compile_arg::<H>(b);
                match (x, y) {
                    (Ok(x), Ok(y)) => Ok(operation::Operation::GtFromEntries(x, y)),
                    _ => Err(Error::IllFormedOperation),
                }
            },
            Operation::LtFromEntries(a, b) => {
                let x = self.compile_arg::<H>(a);
                let y = self.compile_arg::<H>(b);
                match (x, y) {
                    (Ok(x), Ok(y)) => Ok(operation::Operation::LtFromEntries(x, y)),
                    _ => Err(Error::IllFormedOperation),
                }
            },
            Operation::TransitiveEqualFromStatements(a, b) => Ok(
                operation::Operation::TransitiveEqualFromStatements(
                    self.compile_st::<H>(a),
                    self.compile_st::<H>(b),
                ),
            ),
            Operation::GtToNotEqual(a) => Ok(
                operation::Operation::GtToNotEqual(self.compile_st::<H>(a)),
            ),
            Operation::LtToNotEqual(a) => Ok(
                operation::Operation::LtToNotEqual(self.compile_st::<H>(a)),
            ),
            Operation::ContainsFromEntries(a, b) => {
                let x = self.compile_arg::<H>(a);
                let y = self.compile_arg::<H>(b);
                match (x, y) {
                    (Ok(x), Ok(y)) => Ok(operation::Operation::ContainsFromEntries(x, y)),
                    _ => Err(Error::IllFormedOperation),
                }
            },
            Operation::NotContainsFromEntries(a, b) => {
                let x = self.compile_arg::<H>(a);
                let y = self.compile_arg::<H>(b);
                match (x, y) {
                    (Ok(x), Ok(y)) => Ok(operation::Operation::NotContainsFromEntries(x, y)),
                    _ => Err(Error::IllFormedOperation),
                }
            },
            Operation::RenameContainedBy(a, b) => Ok(
                operation::Operation::RenameContainedBy(
                    self.compile_st::<H>(a),
                    self.compile_st::<H>(b),
                ),
            ),
            Operation::SumOf(a, b, c) => {
                let x = self.compile_arg::<H>(a);
                let y = self.compile_arg::<H>(b);
                let z = self.compile_arg::<H>(c);
                match (x, y, z) {
                    (Ok(x), Ok(y), Ok(z)) => Ok(operation::Operation::SumOf(x, y, z)),
                    _ => Err(Error::IllFormedOperation),
                }
            },
            Operation::ProductOf(a, b, c) => {
                let x = self.compile_arg::<H>(a);
                let y = self.compile_arg::<H>(b);
                let z = self.compile_arg::<H>(c);
                match (x, y, z) {
                    (Ok(x), Ok(y), Ok(z)) => Ok(operation::Operation::ProductOf(x, y, z)),
                    _ => Err(Error::IllFormedOperation),
                }
            },
            Operation::MaxOf(a, b, c) => {
                let x = self.compile_arg::<H>(a);
                let y = self.compile_arg::<H>(b);
                let z = self.compile_arg::<H>(c);
                match (x, y, z) {
                    (Ok(x), Ok(y), Ok(z)) => Ok(operation::Operation::MaxOf(x, y, z)),
                    _ => Err(Error::IllFormedOperation),
                }
            },
        }
    }

    /// Lowers one statement with its operation and appends both.
    pub fn compile_st_op<H: Hasher>(&mut self, st: &Statement, op: &Operation) -> (r: Result<(), Error>)
        ensures
            final(self).params == old(self).params,
            r.is_ok() <==> op_fits::<H>(old(self).params, *op) && st_fits::<H>(old(self).params, *st),
            r matches Err(e) ==> (e == Error::IllFormedOperation || e == Error::BoundExceeded)
                && *final(self) == *old(self),
            r is Ok ==> final(self).statements@ == old(self).statements@.push(lower_statement::<H>(*st))
                && final(self).operations@ == old(self).operations@.push(lowered_op::<H>(*op)),
    {
        proof {
            reveal(lowered_op);
            reveal(op_fits);
            reveal(st_fits);
        }
        let middle_op = match self.compile_op::<H>(op) {
            Ok(o) => o,
            Err(e) => return Err(e),
        };
        let middle_st = self.compile_st::<H>(st);
        if middle_st.args().len() > self.params.max_statement_args || middle_op.args().len()
            > self.params.max_operation_args {
            return Err(Error::BoundExceeded);
        }
        self.push_st_op(middle_st, middle_op);
        Ok(())
    }

    /// Lowers the builder's statements, operations and public statements. Fails with
    /// `IllFormedOperation` where the two lists differ in length or an operation cannot be
    /// lowered, and with `BoundExceeded` beyond `max_statements` local statements or where a
    /// statement or an operation has more arguments than the configured bounds.
    pub fn compile<H: Hasher>(
        self,
        statements: &Vec<Statement>,
        operations: &Vec<Operation>,
        public_statements: &Vec<Statement>,
    ) -> (r: Result<
        (Vec<statement::Statement>, Vec<operation::Operation>, Vec<statement::Statement>),
        Error,
    >)
        requires
            self.statements@.len() == 0,
            self.operations@.len() == 0,
        ensures
            r.is_ok() <==> compilable::<H>(self.params, statements@, operations@, public_statements@),
            r matches Err(e) ==> e == Error::IllFormedOperation || e == Error::BoundExceeded,
            r matches Ok((sts, ops, pubs)) ==> {
                &&& sts@ == lowered_statements::<H>(statements@)
                &&& ops@ == lowered_operations::<H>(operations@)
                &&& pubs@ == lowered_statements::<H>(public_statements@)
            },
    {
        let mut this = self;
        if statements.len() != operations.len() {
            return Err(Error::IllFormedOperation);
        }
        if statements.len() > this.params.max_statements {
            return Err(Error::BoundExceeded);
        }
        let ghost params = this.params;
        let mut i: usize = 0;
        while i < statements.len()
            invariant
                i <= statements@.len() == operations@.len(),
                statements@.len() <= params.max_statements,
                params == self.params,
                this.params == params,
                this.statements@ == lowered_statements::<H>(statements@.take(i as int)),
                this.operations@ == lowered_operations::<H>(operations@.take(i as int)),
                forall|k: int| 0 <= k < i ==> op_fits::<H>(params, #[trigger] operations@[k]),
                forall|k: int| 0 <= k < i ==> st_fits::<H>(params, #[trigger] statements@[k]),
            decreases statements.len() - i,
        {
            match this.compile_st_op::<H>(&statements[i], &operations[i]) {
                Ok(()) => {},
                Err(e) => {
                    proof {
                        assert(!op_fits::<H>(params, operations@[i as int]) || !st_fits::<H>(
                            params,
                            statements@[i as int],
                        ));
                    }
                    return Err(e);
                },
            }
            i = i + 1;
            proof {
                assert(this.statements@ =~= lowered_statements::<H>(statements@.take(i as int)));
                assert(this.operations@ =~= lowered_operations::<H>(operations@.take(i as int)));
            }
        }
        proof {
            assert(statements@.take(statements@.len() as int) =~= statements@);
            assert(operations@.take(operations@.len() as int) =~= operations@);
        }
        let mut pubs: Vec<statement::Statement> = Vec::new();
        let mut j: usize = 0;
        while j < public_statements.len()
            invariant
                j <= public_statements@.len(),
                params == self.params,
                this.params == params,
                pubs@ == lowered_statements::<H>(public_statements@.take(j as int)),
                forall|k: int| 0 <= k < j ==> st_fits::<H>(params, #[trigger] public_statements@[k]),
            decreases public_statements.len() - j,
        {
            let st = this.compile_st::<H>(&public_statements[j]);
            if st.args().len() > this.params.max_statement_args {
                proof {
                    reveal(st_fits);
                    assert(!st_fits::<H>(params, public_statements@[j as int]));
                }
                return Err(Error::BoundExceeded);
            }
            pubs.push(st);
            proof {
                reveal(st_fits);
            }
            j = j + 1;
            proof {
                assert(pubs@ =~= lowered_statements::<H>(public_statements@.take(j as int)));
            }
        }
        proof {
            assert(public_statements@.take(public_statements@.len() as int) =~= public_statements@);
        }
        let MainPodCompiler { params: _, statements: sts, operations: ops } = this;
        Ok((sts, ops, pubs))
    }
}

/// The character of a decimal digit.
pub open spec fn digit_char(d: nat) -> char {
    if d == 0 {
        '0'
    } else if d == 1 {
        '1'
    } else if d == 2 {
        '2'
    } else if d == 3 {
        '3'
    } else if d == 4 {
        '4'
    } else if d == 5 {
        '5'
    } else if d == 6 {
        '6'
    } else if d == 7 {
        '7'
    } else if d == 8 {
        '8'
    } else {
        '9'
    }
}

/// The decimal digits of `n`, most significant first.
pub open spec fn decimal(n: nat) -> Seq<char>
    decreases n,
{
    if n < 10 {
        seq![digit_char(n)]
    } else {
        decimal(n / 10) + seq![digit_char(n % 10)]
    }
}

/// The one-character string of a decimal digit.
fn digit_str(d: usize) -> (r: &'static str)
    requires
        d < 10,
    ensures
        r@ == seq![digit_char(d as nat)],
{
    proof {
        reveal_strlit("0");
        reveal_strlit("1");
        reveal_strlit("2");
        reveal_strlit("3");
        reveal_strlit("4");
        reveal_strlit("5");
        reveal_strlit("6");
        reveal_strlit("7");
        reveal_strlit("8");
        reveal_strlit("9");
    }
    if d == 0 {
        "0"
    } else if d == 1 {
        "1"
    } else if d == 2 {
        "2"
    } else if d == 3 {
        "3"
    } else if d == 4 {
        "4"
    } else if d == 5 {
        "5"
    } else if d == 6 {
        "6"
    } else if d == 7 {
        "7"
    } else if d == 8 {
        "8"
    } else {
        "9"
    }
}

/// Appends the decimal digits of `n` to `s`.
fn push_decimal(s: &mut String, n: usize)
    ensures
        final(s)@ == old(s)@ + decimal(n as nat),
    decreases n,
{
    if n >= 10 {
        push_decimal(s, n / 10);
    }
    s.append(digit_str(n % 10));
    proof {
        assert(final(s)@ =~= old(s)@ + decimal(n as nat));
    }
}

/// The name of the `n`-th hoisted literal: `c` followed by `n` in decimal.
pub open spec fn const_name(n: nat) -> Seq<char> {
    seq!['c'] + decimal(n)
}

/// The key name for the `n`-th hoisted literal.
pub fn const_key(n: usize) -> (r: String)
    ensures
        r@ == const_name(n as nat),
{
    proof {
        reveal_strlit("c");
    }
    let mut r = String::from_str("c");
    push_decimal(&mut r, n);
    assert(r@ =~= const_name(n as nat));
    r
}

proof fn lemma_decimal_len(n: nat)
    ensures
        decimal(n).len() >= 1,
        n >= 10 ==> decimal(n).len() >= 2,
    decreases n,
{
    if n >= 10 {
        lemma_decimal_len(n / 10);
    }
}

proof fn lemma_digit_injective(x: nat, y: nat)
    requires
        x < 10,
        y < 10,
        digit_char(x) == digit_char(y),
    ensures
        x == y,
{
    assert(x == 0 || x == 1 || x == 2 || x == 3 || x == 4 || x == 5 || x == 6 || x == 7 || x == 8
        || x == 9);
    assert(y == 0 || y == 1 || y == 2 || y == 3 || y == 4 || y == 5 || y == 6 || y == 7 || y == 8
        || y == 9);
}

proof fn lemma_decimal_injective(a: nat, b: nat)
    requires
        decimal(a) == decimal(b),
    ensures
        a == b,
    decreases a,
{
    lemma_decimal_len(a);
    lemma_decimal_len(b);
    if a < 10 && b < 10 {
        assert(decimal(a) == seq![digit_char(a)]);
        assert(decimal(b) == seq![digit_char(b)]);
        assert(decimal(a)[0] == digit_char(a));
        assert(decimal(b)[0] == digit_char(b));
        lemma_digit_injective(a, b);
    } else if a >= 10 && b >= 10 {
        let da = decimal(a);
        let db = decimal(b);
        assert(da.last() == db.last());
        assert(da.drop_last() =~= decimal(a / 10));
        assert(db.drop_last() =~= decimal(b / 10));
        lemma_decimal_injective(a / 10, b / 10);
        assert(da.last() == digit_char(a % 10));
        assert(db.last() == digit_char(b % 10));
        lemma_digit_injective(a % 10, b % 10);
        assert(a == 10 * (a / 10) + a % 10) by (nonlinear_arith);
        assert(b == 10 * (b / 10) + b % 10) by (nonlinear_arith);
    } else {
        assert(decimal(a).len() != decimal(b).len());
    }
}

/// Hoisted-literal names are fresh: different counters give different names.
pub proof fn lemma_const_names_unique(a: nat, b: nat)
    requires
        a != b,
    ensures
        const_name(a) != const_name(b),
{
    if const_name(a) == const_name(b) {
        assert(const_name(a).drop_first() =~= decimal(a));
        assert(const_name(b).drop_first() =~= decimal(b));
        lemma_decimal_injective(a, b);
    }
}

impl Value {
    /// A copy of the value.
    pub fn duplicate(&self) -> (r: Value)
        ensures
            r == *self,
    {
        match self {
            Value::String(s) => Value::String(s.clone()),
            Value::Int(i) => Value::Int(*i),
            Value::Bool(b) => Value::Bool(*b),
            Value::Dictionary(h) => Value::Dictionary(*h),
            Value::ValueSet(h) => Value::ValueSet(*h),
            Value::Array(h) => Value::Array(*h),
            Value::Raw(r) => Value::Raw(*r),
        }
    }
}

impl AnchoredKey {
    /// A copy of the key.
    pub fn duplicate(&self) -> (r: AnchoredKey)
        ensures
            r == *self,
    {
        AnchoredKey(self.0, self.1.clone())
    }
}

impl Statement {
    /// A copy of the statement.
    pub fn duplicate(&self) -> (r: Statement)
        ensures
            r == *self,
    {
        match self {
            Statement::Empty => Statement::Empty,
            Statement::ValueOf(a, v) => Statement::ValueOf(a.duplicate(), v.duplicate()),
            Statement::Equal(a, b) => Statement::Equal(a.duplicate(), b.duplicate()),
            Statement::NotEqual(a, b) => Statement::NotEqual(a.duplicate(), b.duplicate()),
            Statement::Gt(a, b) => Statement::Gt(a.duplicate(), b.duplicate()),
            Statement::Lt(a, b) => Statement::Lt(a.duplicate(), b.duplicate()),
            Statement::Contains(a, b) => Statement::Contains(a.duplicate(), b.duplicate()),
            Statement::NotContains(a, b) => Statement::NotContains(a.duplicate(), b.duplicate()),
            Statement::SumOf(a, b, c) => Statement::SumOf(
                a.duplicate(),
                b.duplicate(),
                c.duplicate(),
            ),
            Statement::ProductOf(a, b, c) => Statement::ProductOf(
                a.duplicate(),
                b.duplicate(),
                c.duplicate(),
            ),
            Statement::MaxOf(a, b, c) => Statement::MaxOf(
                a.duplicate(),
                b.duplicate(),
                c.duplicate(),
            ),
        }
    }
}

/// An argument of an operation on entries is a `ValueOf` statement or a literal.
pub open spec fn entry_arg_ok(a: OperationArg) -> bool {
    match a {
        OperationArg::Statement(Statement::ValueOf(_, _)) => true,
        OperationArg::Literal(_) => true,
        _ => false,
    }
}

pub open spec fn is_literal(a: OperationArg) -> bool {
    a is Literal
}

/// The number of literals among the first `n` arguments.
pub open spec fn literals_before(args: Seq<OperationArg>, n: int) -> nat
    decreases n,
{
    if n <= 0 {
        0
    } else {
        literals_before(args, n - 1) + if is_literal(args[n - 1]) {
            1nat
        } else {
            0nat
        }
    }
}

/// The key that an entry-argument stands for: the key of its `ValueOf`, or for the `n`-th
/// hoisted literal the key `cN` of the pod being built.
pub open spec fn key_for(a: OperationArg, k: AnchoredKey, n: nat) -> bool {
    match a {
        OperationArg::Statement(Statement::ValueOf(k2, _)) => k == k2,
        OperationArg::Literal(_) => k.0 == self_origin() && k.1@ == const_name(n),
        _ => false,
    }
}

/// The origin of the pod being built.
pub open spec fn self_origin() -> Origin {
    Origin(PodClass::Main, PodId(value::Hash(1, 0, 0, 0)))
}

/// `st` is the `ValueOf` of the `n`-th hoisted literal.
pub open spec fn hoisted(st: Statement, n: nat) -> bool {
    st matches Statement::ValueOf(k, _) && k.0 == self_origin() && k.1@ == const_name(n)
}

/// `a` is a `ValueOf` statement argument for the key `k`.
pub open spec fn arg_of_key(a: OperationArg, k: AnchoredKey) -> bool {
    a matches OperationArg::Statement(Statement::ValueOf(k2, _)) && k2 == k
}

/// An entry-argument with a literal replaced by the `ValueOf` of the entry `k` it was hoisted
/// into; other arguments stay.
pub open spec fn replaced(a: OperationArg, k: AnchoredKey) -> OperationArg {
    match a {
        OperationArg::Literal(v) => OperationArg::Statement(Statement::ValueOf(k, v)),
        _ => a,
    }
}

/// Where `a` is a literal, slot `idx` records its hoisted entry: the statement `ValueOf(k, v)`
/// justified by `NewEntry` of the entry's name and the literal's value.
pub open spec fn hoisted_entry(
    sts: Seq<Statement>,
    ops: Seq<Operation>,
    idx: int,
    a: OperationArg,
    k: AnchoredKey,
) -> bool {
    match a {
        OperationArg::Literal(v) => sts[idx] == Statement::ValueOf(k, v) && ops[idx]
            == Operation::NewEntry(k.1, v),
        _ => true,
    }
}

/// Builds a main pod from signed and main input pods and a sequence of operations.
pub struct MainPodBuilder {
    pub params: Params,
    pub input_signed_pods: Vec<SignedPod>,
    pub input_main_pods: Vec<MainPod>,
    pub statements: Vec<Statement>,
    pub operations: Vec<Operation>,
    pub public_statements: Vec<Statement>,
    pub const_cnt: usize,
}

/// A signed pod with the key strings of its entries.
pub struct SignedPod {
    pub pod: crate::pod::Pod,
    pub key_string_map: Vec<(value::Hash, String)>,
}

/// A main pod produced by a prover.
pub struct MainPod {
    pub pod: crate::pod::Pod,
}

impl SignedPod {
    pub fn id(&self) -> (r: PodId)
        ensures
            r == self.pod.spec_id(),
    {
        self.pod.id()
    }

    pub fn origin(&self) -> (r: Origin)
        ensures
            r == Origin(PodClass::Signed, self.pod.spec_id()),
    {
        Origin(PodClass::Signed, self.id())
    }

    /// The pod's entries by key hash.
    pub fn kvs(&self) -> (r: Vec<(value::Hash, value::Value)>)
        ensures
            r@ == signed_pod_entries(self.pod),
    {
        let kv = self.pod.kvs();
        let mut r: Vec<(value::Hash, value::Value)> = Vec::new();
        let mut i: usize = 0;
        while i < kv.len()
            invariant
                i <= kv@.len(),
                r@ == kv@.take(i as int).map_values(
                    |e: (statement::AnchoredKey, value::Value)| (e.0.1, e.1),
                ),
            decreases kv.len() - i,
        {
            let (ak, v) = kv[i];
            r.push((ak.1, v));
            i = i + 1;
            proof {
                assert(r@ =~= kv@.take(i as int).map_values(
                    |e: (statement::AnchoredKey, value::Value)| (e.0.1, e.1),
                ));
            }
        }
        proof {
            assert(kv@.take(kv@.len() as int) =~= kv@);
        }
        r
    }
}

/// The entries that a pod's public `ValueOf` statements state, by key hash.
pub open spec fn signed_pod_entries(pod: crate::pod::Pod) -> Seq<(value::Hash, value::Value)> {
    crate::pod::value_entries(pod.spec_pub_statements()).map_values(
        |e: (statement::AnchoredKey, value::Value)| (e.0.1, e.1),
    )
}

impl MainPod {
    pub fn id(&self) -> (r: PodId)
        ensures
            r == self.pod.spec_id(),
    {
        self.pod.id()
    }

    pub fn origin(&self) -> (r: Origin)
        ensures
            r == Origin(PodClass::Main, self.pod.spec_id()),
    {
        Origin(PodClass::Main, self.id())
    }
}

impl MainPodBuilder {
    pub fn new(params: &Params) -> (r: MainPodBuilder)
        ensures
            r.params == *params,
            r.input_signed_pods@.len() == 0,
            r.input_main_pods@.len() == 0,
            r.statements@.len() == 0,
            r.operations@.len() == 0,
            r.public_statements@.len() == 0,
            r.const_cnt == 0,
    {
        MainPodBuilder {
            params: *params,
            input_signed_pods: Vec::new(),
            input_main_pods: Vec::new(),
            statements: Vec::new(),
            operations: Vec::new(),
            public_statements: Vec::new(),
            const_cnt: 0,
        }
    }

    pub fn add_signed_pod(&mut self, pod: SignedPod)
        ensures
            final(self).input_signed_pods@ == old(self).input_signed_pods@.push(pod),
            final(self).statements@ == old(self).statements@,
            final(self).operations@ == old(self).operations@,
            final(self).public_statements@ == old(self).public_statements@,
            final(self).const_cnt == old(self).const_cnt,
            final(self).params == old(self).params,
    {
        self.input_signed_pods.push(pod);
    }

    pub fn add_main_pod(&mut self, pod: MainPod)
        ensures
            final(self).input_main_pods@ == old(self).input_main_pods@.push(pod),
            final(self).statements@ == old(self).statements@,
            final(self).operations@ == old(self).operations@,
            final(self).public_statements@ == old(self).public_statements@,
            final(self).const_cnt == old(self).const_cnt,
            final(self).params == old(self).params,
    {
        self.input_main_pods.push(pod);
    }

    /// Appends a statement with the operation that justifies it.
    pub fn insert(&mut self, st_op: (Statement, Operation))
        ensures
            final(self).statements@ == old(self).statements@.push(st_op.0),
            final(self).operations@ == old(self).operations@.push(st_op.1),
            final(self).public_statements@ == old(self).public_statements@,
            final(self).const_cnt == old(self).const_cnt,
            final(self).params == old(self).params,
    {
        let (st, op) = st_op;
        self.statements.push(st);
        self.operations.push(op);
    }

    /// Makes a statement public.
    pub fn make_public(&mut self, st: &Statement)
        ensures
            final(self).public_statements@ == old(self).public_statements@.push(*st),
            final(self).statements@ == old(self).statements@,
            final(self).operations@ == old(self).operations@,
            final(self).const_cnt == old(self).const_cnt,
            final(self).params == old(self).params,
    {
        self.public_statements.push(st.duplicate());
    }

    /// Turns the arguments of an operation on entries into anchored keys: a `ValueOf`
    /// statement gives its key, and each literal is hoisted into a fresh private entry `cN`
    /// of this pod (`N` the next counter value), recorded with a `NewEntry` operation. Returns
    /// the keys and the arguments with each literal replaced by its entry's `ValueOf`. Fails
    /// with `IllFormedOperation`, leaving the builder as it was, where an argument is neither.
    fn op_args_entries(&mut self, args: &Vec<OperationArg>) -> (r: Result<
        (Vec<AnchoredKey>, Vec<OperationArg>),
        Error,
    >)
        requires
            old(self).statements@.len() == old(self).operations@.len(),
            args@.len() <= 3,
        ensures
            final(self).params == old(self).params,
            final(self).public_statements@ == old(self).public_statements@,
            final(self).input_signed_pods@ == old(self).input_signed_pods@,
            final(self).input_main_pods@ == old(self).input_main_pods@,
            final(self).statements@.len() == final(self).operations@.len(),
            r.is_err() <==> (exists|i: int| 0 <= i < args@.len() && !entry_arg_ok(#[trigger] args@[i]))
                || old(self).const_cnt + literals_before(args@, args@.len() as int) > usize::MAX,
            r.is_err() ==> *final(self) == *old(self),
            (exists|i: int| 0 <= i < args@.len() && !entry_arg_ok(#[trigger] args@[i])) ==> r
                == Err::<(Vec<AnchoredKey>, Vec<OperationArg>), Error>(Error::IllFormedOperation),
            r matches Ok((keys, nargs)) ==> {
                let n0 = old(self).statements@.len();
                let lits = literals_before(args@, args@.len() as int);
                &&& keys@.len() == args@.len() && nargs@.len() == args@.len()
                &&& final(self).const_cnt == old(self).const_cnt + lits
                &&& final(self).statements@.len() == n0 + lits
                &&& final(self).statements@.take(n0 as int) == old(self).statements@
                &&& final(self).operations@.take(n0 as int) == old(self).operations@
                &&& forall|i: int|
                    0 <= i < args@.len() ==> key_for(
                        #[trigger] args@[i],
                        keys@[i],
                        (old(self).const_cnt + literals_before(args@, i)) as nat,
                    ) && arg_of_key(nargs@[i], keys@[i]) && nargs@[i] == replaced(args@[i], keys@[i])
                        && hoisted_entry(
                        final(self).statements@,
                        final(self).operations@,
                        (n0 + literals_before(args@, i)) as int,
                        args@[i],
                        keys@[i],
                    )
                &&& forall|j: int|
                    0 <= j < lits ==> hoisted(
                        #[trigger] final(self).statements@[n0 + j],
                        (old(self).const_cnt + j) as nat,
                    )
            },
    {
        let mut lits: usize = 0;
        let mut i: usize = 0;
        while i < args.len()
            invariant
                i <= args@.len() <= 3,
                lits == literals_before(args@, i as int),
                lits <= i,
                *self == *old(self),
                self.statements@.len() == self.operations@.len(),
                forall|l: int| 0 <= l < i ==> entry_arg_ok(#[trigger] args@[l]),
            decreases args.len() - i,
        {
            match &args[i] {
                OperationArg::Statement(Statement::ValueOf(_, _)) => {},
                OperationArg::Literal(_) => {
                    lits = lits + 1;
                },
                _ => {
                    assert(!entry_arg_ok(args@[i as int]));
                    assert(self.statements@.len() == self.operations@.len());
                    return Err(Error::IllFormedOperation);
                },
            }
            i = i + 1;
        }
        if self.const_cnt > usize::MAX - lits {
            return Err(Error::BoundExceeded);
        }
        let ghost old_self_cnt = self.const_cnt;
        let ghost n0 = self.statements@.len();
        let ghost old_sts = self.statements@;
        let ghost old_ops = self.operations@;
        let mut keys: Vec<AnchoredKey> = Vec::new();
        let mut nargs: Vec<OperationArg> = Vec::new();
        let mut i: usize = 0;
        while i < args.len()
            invariant
                i <= args@.len() <= 3,
                forall|l: int| 0 <= l < args@.len() ==> entry_arg_ok(#[trigger] args@[l]),
                old_self_cnt + literals_before(args@, args@.len() as int) <= usize::MAX,
                self.const_cnt == old_self_cnt + literals_before(args@, i as int),
                self.statements@.len() == self.operations@.len(),
                self.statements@.len() == n0 + literals_before(args@, i as int),
                self.statements@.take(n0 as int) == old_sts,
                self.operations@.take(n0 as int) == old_ops,
                self.params == old(self).params,
                self.public_statements@ == old(self).public_statements@,
                self.input_signed_pods@ == old(self).input_signed_pods@,
                self.input_main_pods@ == old(self).input_main_pods@,
                keys@.len() == i,
                nargs@.len() == i,
                forall|l: int|
                    0 <= l < i ==> key_for(
                        #[trigger] args@[l],
                        keys@[l],
                        (old_self_cnt + literals_before(args@, l)) as nat,
                    ) && arg_of_key(nargs@[l], keys@[l]) && nargs@[l] == replaced(args@[l], keys@[l])
                        && hoisted_entry(
                        self.statements@,
                        self.operations@,
                        (n0 + literals_before(args@, l)) as int,
                        args@[l],
                        keys@[l],
                    ),
                forall|j: int|
                    0 <= j < literals_before(args@, i as int) ==> hoisted(
                        #[trigger] self.statements@[n0 + j],
                        (old_self_cnt + j) as nat,
                    ),
            decreases args.len() - i,
        {
            proof {
                lemma_literals_monotone(args@, i as int + 1, args@.len() as int);
                assert forall|l: int| 0 <= l < i && is_literal(#[trigger] args@[l]) implies literals_before(
                    args@,
                    l,
                ) < literals_before(args@, i as int) by {
                    lemma_literals_monotone(args@, l + 1, i as int);
                }
            }
            match &args[i] {
                OperationArg::Statement(Statement::ValueOf(k, v)) => {
                    keys.push(k.duplicate());
                    nargs.push(OperationArg::Statement(Statement::ValueOf(k.duplicate(), v.duplicate())));
                },
                OperationArg::Literal(v) => {
                    let name = const_key(self.const_cnt);
                    self.const_cnt = self.const_cnt + 1;
                    let key = AnchoredKey(Origin(PodClass::Main, PodId::self_pod()), name.clone());
                    let ghost before = self.statements@;
                    self.statements.push(Statement::ValueOf(key.duplicate(), v.duplicate()));
                    self.operations.push(Operation::NewEntry(name, v.duplicate()));
                    proof {
                        assert(self.statements@.take(n0 as int) =~= before.take(n0 as int));
                        assert(self.operations@.take(n0 as int) =~= old_ops);
                    }
                    keys.push(key.duplicate());
                    nargs.push(OperationArg::Statement(Statement::ValueOf(key, v.duplicate())));
                },
                _ => {},
            }
            i = i + 1;
        }
        Ok((keys, nargs))
    }
}

proof fn lemma_literals_bound(args: Seq<OperationArg>, n: int)
    requires
        n >= 0,
    ensures
        literals_before(args, n) <= n,
    decreases n,
{
    if n > 0 {
        lemma_literals_bound(args, n - 1);
    }
}

proof fn lemma_literals_monotone(args: Seq<OperationArg>, a: int, b: int)
    requires
        a <= b,
    ensures
        literals_before(args, a) <= literals_before(args, b),
    decreases b - a,
{
    if a < b {
        lemma_literals_monotone(args, a, b - 1);
    }
}

/// The code of a user-level operation.
pub open spec fn op_code(op: Operation) -> operation::NativeOperation {
    match op {
        Operation::Empty => operation::NativeOperation::Empty,
        Operation::NewEntry(..) => operation::NativeOperation::NewEntry,
        Operation::CopyStatement(..) => operation::NativeOperation::CopyStatement,
        Operation::EqualFromEntries(..) => operation::NativeOperation::EqualFromEntries,
        Operation::NotEqualFromEntries(..) => operation::NativeOperation::NotEqualFromEntries,
        Operation::GtFromEntries(..) => operation::NativeOperation::GtFromEntries,
        Operation::LtFromEntries(..) => operation::NativeOperation::LtFromEntries,
        Operation::TransitiveEqualFromStatements(..) => operation::NativeOperation::TransitiveEqualFromStatements,
        Operation::GtToNotEqual(..) => operation::NativeOperation::GtToNotEqual,
        Operation::LtToNotEqual(..) => operation::NativeOperation::LtToNotEqual,
        Operation::ContainsFromEntries(..) => operation::NativeOperation::ContainsFromEntries,
        Operation::NotContainsFromEntries(..) => operation::NativeOperation::NotContainsFromEntries,
        Operation::RenameContainedBy(..) => operation::NativeOperation::RenameContainedBy,
        Operation::SumOf(..) => operation::NativeOperation::SumOf,
        Operation::ProductOf(..) => operation::NativeOperation::ProductOf,
        Operation::MaxOf(..) => operation::NativeOperation::MaxOf,
    }
}

impl Operation {
    /// The operation's code.
    pub fn code(&self) -> (r: operation::NativeOperation)
        ensures
            r == op_code(*self),
    {
        match self {
            Operation::Empty => operation::NativeOperation::Empty,
            Operation::NewEntry(..) => operation::NativeOperation::NewEntry,
            Operation::CopyStatement(..) => operation::NativeOperation::CopyStatement,
            Operation::EqualFromEntries(..) => operation::NativeOperation::EqualFromEntries,
            Operation::NotEqualFromEntries(..) => operation::NativeOperation::NotEqualFromEntries,
            Operation::GtFromEntries(..) => operation::NativeOperation::GtFromEntries,
            Operation::LtFromEntries(..) => operation::NativeOperation::LtFromEntries,
            Operation::TransitiveEqualFromStatements(..) => operation::NativeOperation::TransitiveEqualFromStatements,
            Operation::GtToNotEqual(..) => operation::NativeOperation::GtToNotEqual,
            Operation::LtToNotEqual(..) => operation::NativeOperation::LtToNotEqual,
            Operation::ContainsFromEntries(..) => operation::NativeOperation::ContainsFromEntries,
            Operation::NotContainsFromEntries(..) => operation::NativeOperation::NotContainsFromEntries,
            Operation::RenameContainedBy(..) => operation::NativeOperation::RenameContainedBy,
            Operation::SumOf(..) => operation::NativeOperation::SumOf,
            Operation::ProductOf(..) => operation::NativeOperation::ProductOf,
            Operation::MaxOf(..) => operation::NativeOperation::MaxOf,
        }
    }
}

impl OperationArg {
    /// A copy of the argument.
    pub fn duplicate(&self) -> (r: OperationArg)
        ensures
            r == *self,
    {
        match self {
            OperationArg::Entry(k, v) => OperationArg::Entry(k.clone(), v.duplicate()),
            OperationArg::Statement(s) => OperationArg::Statement(s.duplicate()),
            OperationArg::Literal(v) => OperationArg::Literal(v.duplicate()),
        }
    }
}

/// The entry-arguments of an operation on entries, in order; none for other operations.
pub open spec fn entry_args(op: Operation) -> Seq<OperationArg> {
    match op {
        Operation::EqualFromEntries(a, b) => seq![a, b],
        Operation::NotEqualFromEntries(a, b) => seq![a, b],
        Operation::GtFromEntries(a, b) => seq![a, b],
        Operation::LtFromEntries(a, b) => seq![a, b],
        Operation::ContainsFromEntries(a, b) => seq![a, b],
        Operation::NotContainsFromEntries(a, b) => seq![a, b],
        Operation::SumOf(a, b, c) => seq![a, b, c],
        Operation::ProductOf(a, b, c) => seq![a, b, c],
        Operation::MaxOf(a, b, c) => seq![a, b, c],
        _ => seq![],
    }
}

/// The statement that an operation not on entries derives; `None` where its inputs have the
/// wrong predicates.
pub open spec fn derived_statement(op: Operation) -> Option<Statement> {
    match op {
        Operation::Empty => Some(Statement::Empty),
        Operation::NewEntry(k, v) => Some(Statement::ValueOf(AnchoredKey(self_origin(), k), v)),
        Operation::CopyStatement(s) => Some(s),
        Operation::TransitiveEqualFromStatements(Statement::Equal(a, _), Statement::Equal(_, d)) => Some(
            Statement::Equal(a, d),
        ),
        Operation::GtToNotEqual(Statement::Gt(a, b)) => Some(Statement::NotEqual(a, b)),
        Operation::LtToNotEqual(Statement::Lt(a, b)) => Some(Statement::NotEqual(a, b)),
        Operation::RenameContainedBy(Statement::Contains(_, b), Statement::Equal(_, d)) => Some(
            Statement::Contains(d, b),
        ),
        _ => None,
    }
}

/// The statement that an operation on entries derives from the keys of its arguments.
pub open spec fn entries_statement(op: Operation, keys: Seq<AnchoredKey>) -> Statement {
    match op {
        Operation::EqualFromEntries(_, _) => Statement::Equal(keys[0], keys[1]),
        Operation::NotEqualFromEntries(_, _) => Statement::NotEqual(keys[0], keys[1]),
        Operation::GtFromEntries(_, _) => Statement::Gt(keys[0], keys[1]),
        Operation::LtFromEntries(_, _) => Statement::Lt(keys[0], keys[1]),
        Operation::ContainsFromEntries(_, _) => Statement::Contains(keys[0], keys[1]),
        Operation::NotContainsFromEntries(_, _) => Statement::NotContains(keys[0], keys[1]),
        Operation::SumOf(_, _, _) => Statement::SumOf(keys[0], keys[1], keys[2]),
        Operation::ProductOf(_, _, _) => Statement::ProductOf(keys[0], keys[1], keys[2]),
        _ => Statement::MaxOf(keys[0], keys[1], keys[2]),
    }
}

/// An operation on entries with each argument replaced by `replaced` with its key; any other
/// operation stays as it is.
pub open spec fn with_entry_args(op: Operation, keys: Seq<AnchoredKey>) -> Operation {
    match op {
        Operation::EqualFromEntries(a, b) => Operation::EqualFromEntries(
            replaced(a, keys[0]),
            replaced(b, keys[1]),
        ),
        Operation::NotEqualFromEntries(a, b) => Operation::NotEqualFromEntries(
            replaced(a, keys[0]),
            replaced(b, keys[1]),
        ),
        Operation::GtFromEntries(a, b) => Operation::GtFromEntries(
            replaced(a, keys[0]),
            replaced(b, keys[1]),
        ),
        Operation::LtFromEntries(a, b) => Operation::LtFromEntries(
            replaced(a, keys[0]),
            replaced(b, keys[1]),
        ),
        Operation::ContainsFromEntries(a, b) => Operation::ContainsFromEntries(
            replaced(a, keys[0]),
            replaced(b, keys[1]),
        ),
        Operation::NotContainsFromEntries(a, b) => Operation::NotContainsFromEntries(
            replaced(a, keys[0]),
            replaced(b, keys[1]),
        ),
        Operation::SumOf(a, b, c) => Operation::SumOf(
            replaced(a, keys[0]),
            replaced(b, keys[1]),
            replaced(c, keys[2]),
        ),
        Operation::ProductOf(a, b, c) => Operation::ProductOf(
            replaced(a, keys[0]),
            replaced(b, keys[1]),
            replaced(c, keys[2]),
        ),
        Operation::MaxOf(a, b, c) => Operation::MaxOf(
            replaced(a, keys[0]),
            replaced(b, keys[1]),
            replaced(c, keys[2]),
        ),
        _ => op,
    }
}

/// Whether the builder can apply the operation: the inputs of an operation on statements have
/// the right predicates, and each argument of an operation on entries is a `ValueOf`
/// statement or a literal.
pub open spec fn op_well_formed(op: Operation) -> bool {
    if entry_args(op).len() > 0 {
        forall|i: int| 0 <= i < entry_args(op).len() ==> entry_arg_ok(#[trigger] entry_args(op)[i])
    } else {
        derived_statement(op).is_some()
    }
}

impl MainPodBuilder {
    /// Applies an operation and records the statement it derives, publicly or not. Literals
    /// among the arguments of an operation on entries are first hoisted into private entries
    /// `cN` of this pod, and the recorded operation refers to those entries.
    #[verifier::spinoff_prover]
    #[verifier::rlimit(100)]
    pub fn op(&mut self, public: bool, op: Operation) -> (r: Result<Statement, Error>)
        requires
            old(self).statements@.len() == old(self).operations@.len(),
        ensures
            !op_well_formed(op) ==> r == Err::<Statement, Error>(Error::IllFormedOperation),
            op_well_formed(op) && old(self).const_cnt + 3 <= usize::MAX ==> r.is_ok(),
            r.is_err() ==> *final(self) == *old(self),
            r matches Ok(st) ==> {
                let n0 = old(self).statements@.len();
                let lits = literals_before(entry_args(op), entry_args(op).len() as int);
                &&& op_well_formed(op)
                &&& final(self).const_cnt == old(self).const_cnt + lits
                &&& final(self).statements@.len() == n0 + lits + 1
                &&& final(self).operations@.len() == final(self).statements@.len()
                &&& final(self).statements@.take(n0 as int) == old(self).statements@
                &&& final(self).operations@.take(n0 as int) == old(self).operations@
                &&& final(self).statements@.last() == st
                &&& forall|j: int|
                    0 <= j < lits ==> hoisted(
                        #[trigger] final(self).statements@[n0 + j],
                        (old(self).const_cnt + j) as nat,
                    )
                &&& final(self).public_statements@ == if public {
                    old(self).public_statements@.push(st)
                } else {
                    old(self).public_statements@
                }
                &&& final(self).params == old(self).params
                &&& entry_args(op).len() == 0 ==> derived_statement(op) == Some(st)
                    && final(self).operations@ == old(self).operations@.push(op)
                    && final(self).statements@ == old(self).statements@.push(st)
                &&& entry_args(op).len() > 0 ==> exists|keys: Seq<AnchoredKey>|
                    keys.len() == entry_args(op).len() && st == entries_statement(op, keys)
                        && final(self).operations@.last() == with_entry_args(op, keys)
                        && forall|i: int|
                        0 <= i < keys.len() ==> key_for(
                            #[trigger] entry_args(op)[i],
                            keys[i],
                            (old(self).const_cnt + literals_before(entry_args(op), i)) as nat,
                        ) && hoisted_entry(
                            final(self).statements@,
                            final(self).operations@,
                            (n0 + literals_before(entry_args(op), i)) as int,
                            entry_args(op)[i],
                            keys[i],
                        )
            },
    {
        let ghost op0 = op;
        let ghost mut kw: Seq<AnchoredKey> = Seq::empty();
        let code = op.code();
        let (st, mop) = match op {
            Operation::Empty => (Statement::Empty, Operation::Empty),
            Operation::NewEntry(k, v) => (
                Statement::ValueOf(
                    AnchoredKey(Origin(PodClass::Main, PodId::self_pod()), k.clone()),
                    v.duplicate(),
                ),
                Operation::NewEntry(k, v),
            ),
            Operation::CopyStatement(s) => (s.duplicate(), Operation::CopyStatement(s)),
            Operation::TransitiveEqualFromStatements(s1, s2) => match (&s1, &s2) {
                (Statement::Equal(a, _), Statement::Equal(_, d)) => (
                    Statement::Equal(a.duplicate(), d.duplicate()),
                    Operation::TransitiveEqualFromStatements(s1.duplicate(), s2.duplicate()),
                ),
                _ => return Err(Error::IllFormedOperation),
            },
            Operation::GtToNotEqual(s1) => match &s1 {
                Statement::Gt(a, b) => (
                    Statement::NotEqual(a.duplicate(), b.duplicate()),
                    Operation::GtToNotEqual(s1.duplicate()),
                ),
                _ => return Err(Error::IllFormedOperation),
            },
            Operation::LtToNotEqual(s1) => match &s1 {
                Statement::Lt(a, b) => (
                    Statement::NotEqual(a.duplicate(), b.duplicate()),
                    Operation::LtToNotEqual(s1.duplicate()),
                ),
                _ => return Err(Error::IllFormedOperation),
            },
            Operation::RenameContainedBy(s1, s2) => match (&s1, &s2) {
                (Statement::Contains(_, b), Statement::Equal(_, d)) => (
                    Statement::Contains(d.duplicate(), b.duplicate()),
                    Operation::RenameContainedBy(s1.duplicate(), s2.duplicate()),
                ),
                _ => return Err(Error::IllFormedOperation),
            },
            Operation::EqualFromEntries(a, b) | Operation::NotEqualFromEntries(a, b)
            | Operation::GtFromEntries(a, b) | Operation::LtFromEntries(a, b)
            | Operation::ContainsFromEntries(a, b) | Operation::NotContainsFromEntries(a, b) => {
                let args = vec![a, b];
                proof {
                    assert(args@ =~= entry_args(op0));
                }
                proof {
                    lemma_literals_bound(args@, args@.len() as int);
                }
                let (keys, nargs) = match self.op_args_entries(&args) {
                    Ok(x) => x,
                    Err(e) => return Err(e),
                };
                let k0 = keys[0].duplicate();
                let k1 = keys[1].duplicate();
                let a0 = nargs[0].duplicate();
                let a1 = nargs[1].duplicate();
                proof {
                    kw = keys@;
                }
                match code {
                    operation::NativeOperation::EqualFromEntries => (
                        Statement::Equal(k0, k1),
                        Operation::EqualFromEntries(a0, a1),
                    ),
                    operation::NativeOperation::NotEqualFromEntries => (
                        Statement::NotEqual(k0, k1),
                        Operation::NotEqualFromEntries(a0, a1),
                    ),
                    operation::NativeOperation::GtFromEntries => (
                        Statement::Gt(k0, k1),
                        Operation::GtFromEntries(a0, a1),
                    ),
                    operation::NativeOperation::LtFromEntries => (
                        Statement::Lt(k0, k1),
                        Operation::LtFromEntries(a0, a1),
                    ),
                    operation::NativeOperation::ContainsFromEntries => (
                        Statement::Contains(k0, k1),
                        Operation::ContainsFromEntries(a0, a1),
                    ),
                    _ => (
                        Statement::NotContains(k0, k1),
                        Operation::NotContainsFromEntries(a0, a1),
                    ),
                }
            },
            Operation::SumOf(a, b, c) | Operation::ProductOf(a, b, c) | Operation::MaxOf(a, b, c) => {
                let args = vec![a, b, c];
                proof {
                    assert(args@ =~= entry_args(op0));
                }
                proof {
                    lemma_literals_bound(args@, args@.len() as int);
                }
                let (keys, nargs) = match self.op_args_entries(&args) {
                    Ok(x) => x,
                    Err(e) => return Err(e),
                };
                let k0 = keys[0].duplicate();
                let k1 = keys[1].duplicate();
                let k2 = keys[2].duplicate();
                proof {
                    kw = keys@;
                }
                let a0 = nargs[0].duplicate();
                let a1 = nargs[1].duplicate();
                let a2 = nargs[2].duplicate();
                match code {
                    operation::NativeOperation::SumOf => (
                        Statement::SumOf(k0, k1, k2),
                        Operation::SumOf(a0, a1, a2),
                    ),
                    operation::NativeOperation::ProductOf => (
                        Statement::ProductOf(k0, k1, k2),
                        Operation::ProductOf(a0, a1, a2),
                    ),
                    _ => (Statement::MaxOf(k0, k1, k2), Operation::MaxOf(a0, a1, a2)),
                }
            },
        };
        let ghost mid = self.statements@;
        let ghost mid_ops = self.operations@;
        proof {
            if entry_args(op0).len() > 0 {
                assert(st == entries_statement(op0, kw));
            } else {
                assert(derived_statement(op0) == Some(st));
            }
        }
        self.statements.push(st.duplicate());
        self.operations.push(mop);
        if public {
            self.public_statements.push(st.duplicate());
        }
        proof {
            assert(self.statements@.take(old(self).statements@.len() as int) =~= mid.take(
                old(self).statements@.len() as int,
            ));
            assert(self.operations@.take(old(self).statements@.len() as int) =~= mid_ops.take(
                old(self).statements@.len() as int,
            ));
            if entry_args(op0).len() > 0 {
                assert(mop == with_entry_args(op0, kw));
                assert forall|i: int| 0 <= i < kw.len() implies hoisted_entry(
                    self.statements@,
                    self.operations@,
                    (old(self).statements@.len() + literals_before(entry_args(op0), i)) as int,
                    entry_args(op0)[i],
                    kw[i],
                ) by {
                    lemma_literals_monotone(entry_args(op0), i + 1, entry_args(op0).len() as int);
                    assert(hoisted_entry(
                        mid,
                        mid_ops,
                        (old(self).statements@.len() + literals_before(entry_args(op0), i)) as int,
                        entry_args(op0)[i],
                        kw[i],
                    ));
                }
            } else {
                assert(mop == op0);
                assert(mid =~= old(self).statements@);
                assert(mid_ops =~= old(self).operations@);
            }
        }
        Ok(st)
    }

    /// Applies an operation and makes the derived statement public.
    pub fn pub_op(&mut self, op: Operation) -> (r: Result<Statement, Error>)
        requires
            old(self).statements@.len() == old(self).operations@.len(),
        ensures
            !op_well_formed(op) ==> r == Err::<Statement, Error>(Error::IllFormedOperation),
            op_well_formed(op) && old(self).const_cnt + 3 <= usize::MAX ==> r.is_ok(),
            r.is_err() ==> *final(self) == *old(self),
            r matches Ok(st) ==> {
                let n0 = old(self).statements@.len();
                let lits = literals_before(entry_args(op), entry_args(op).len() as int);
                &&& final(self).public_statements@ == old(self).public_statements@.push(st)
                &&& final(self).const_cnt == old(self).const_cnt + lits
                &&& final(self).statements@.len() == n0 + lits + 1
                &&& final(self).operations@.len() == final(self).statements@.len()
                &&& final(self).statements@.take(n0 as int) == old(self).statements@
                &&& final(self).operations@.take(n0 as int) == old(self).operations@
                &&& final(self).statements@.last() == st
                &&& entry_args(op).len() == 0 ==> derived_statement(op) == Some(st)
                    && final(self).operations@ == old(self).operations@.push(op)
                &&& entry_args(op).len() > 0 ==> exists|keys: Seq<AnchoredKey>|
                    keys.len() == entry_args(op).len() && st == entries_statement(op, keys)
                        && final(self).operations@.last() == with_entry_args(op, keys)
                        && forall|i: int|
                        0 <= i < keys.len() ==> key_for(
                            #[trigger] entry_args(op)[i],
                            keys[i],
                            (old(self).const_cnt + literals_before(entry_args(op), i)) as nat,
                        ) && hoisted_entry(
                            final(self).statements@,
                            final(self).operations@,
                            (n0 + literals_before(entry_args(op), i)) as int,
                            entry_args(op)[i],
                            keys[i],
                        )
            },
    {
        self.op(true, op)
    }
}

/// The value stored under key `k` in a list of string-keyed entries, if any.
pub open spec fn lookup(s: Seq<(String, Value)>, k: Seq<char>) -> Option<Value> {
    if exists|i: int| 0 <= i < s.len() && s[i].0@ == k {
        let i = choose|i: int| 0 <= i < s.len() && s[i].0@ == k;
        Some(s[i].1)
    } else {
        None
    }
}

/// No key occurs twice.
pub open spec fn unique_keys(s: Seq<(String, Value)>) -> bool {
    forall|i: int, j: int| 0 <= i < j < s.len() ==> s[i].0@ != s[j].0@
}

/// Collects the entries of a signed pod before signing.
pub struct SignedPodBuilder {
    pub params: Params,
    pub kvs: Vec<(String, Value)>,
}

/// The entries handed to the signer: each key hashed, each value lowered.
pub open spec fn lowered_entries<H: Hasher>(s: Seq<(String, Value)>) -> Seq<(value::Hash, value::Value)> {
    s.map_values(|e: (String, Value)| (key_hash::<H>(e.0@), lower_value::<H>(e.1)))
}

/// Each key's hash with the key itself.
pub open spec fn key_strings<H: Hasher>(s: Seq<(String, Value)>) -> Seq<(value::Hash, String)> {
    s.map_values(|e: (String, Value)| (key_hash::<H>(e.0@), e.0))
}

impl SignedPodBuilder {
    pub open spec fn wf(&self) -> bool {
        unique_keys(self.kvs@)
    }

    pub fn new(params: &Params) -> (r: SignedPodBuilder)
        ensures
            r.params == *params,
            r.kvs@.len() == 0,
            r.wf(),
    {
        SignedPodBuilder { params: *params, kvs: Vec::new() }
    }

    /// Sets the value of `key`, replacing an earlier one.
    pub fn insert(&mut self, key: String, value: Value)
        requires
            old(self).wf(),
        ensures
            final(self).wf(),
            final(self).params == old(self).params,
            lookup(final(self).kvs@, key@) == Some(value),
            forall|k: Seq<char>| k != key@ ==> lookup(final(self).kvs@, k) == lookup(old(self).kvs@, k),
    {
        let mut i: usize = 0;
        while i < self.kvs.len()
            invariant
                i <= self.kvs@.len(),
                *self == *old(self),
                unique_keys(self.kvs@),
                forall|l: int| 0 <= l < i ==> (#[trigger] self.kvs@[l]).0@ != key@,
            decreases self.kvs.len() - i,
        {
            if self.kvs[i].0 == key {
                let ghost before = self.kvs@;
                self.kvs.set(i, (key, value));
                proof {
                    assert(unique_keys(before));
                    assert(before[i as int].0@ == key@);
                    assert forall|k: Seq<char>| k != key@ implies lookup(self.kvs@, k) == lookup(
                        before,
                        k,
                    ) by {
                        if exists|l: int| 0 <= l < before.len() && before[l].0@ == k {
                            let l = choose|l: int| 0 <= l < before.len() && before[l].0@ == k;
                            assert(self.kvs@[l] == before[l]);
                            let l2 = choose|l2: int|
                                0 <= l2 < self.kvs@.len() && self.kvs@[l2].0@ == k;
                            assert(l2 != i);
                            assert(self.kvs@[l2] == before[l2]);
                            if l < l2 {
                                assert(before[l].0@ != before[l2].0@);
                            } else if l2 < l {
                                assert(before[l2].0@ != before[l].0@);
                            }
                        } else {
                            if exists|l: int| 0 <= l < self.kvs@.len() && self.kvs@[l].0@ == k {
                                let l = choose|l: int|
                                    0 <= l < self.kvs@.len() && self.kvs@[l].0@ == k;
                                assert(self.kvs@[l] == before[l]);
                            }
                        }
                    }
                    assert(self.kvs@[i as int].0@ == key@);
                    assert forall|a: int, b: int| 0 <= a < b < self.kvs@.len() implies self.kvs@[a].0@
                        != self.kvs@[b].0@ by {
                        if a != i && b != i {
                            assert(self.kvs@[a] == before[a] && self.kvs@[b] == before[b]);
                            assert(before[a].0@ != before[b].0@);
                        } else if a == i {
                            assert(self.kvs@[b] == before[b]);
                            assert(before[a].0@ != before[b].0@);
                        } else {
                            assert(self.kvs@[a] == before[a]);
                            assert(before[a].0@ != before[b].0@);
                        }
                    }
                }
                return;
            }
            i = i + 1;
        }
        let ghost before = self.kvs@;
        self.kvs.push((key, value));
        proof {
            assert forall|k: Seq<char>| k != key@ implies lookup(self.kvs@, k) == lookup(before, k) by {
                if exists|l: int| 0 <= l < before.len() && before[l].0@ == k {
                    let l = choose|l: int| 0 <= l < before.len() && before[l].0@ == k;
                    assert(self.kvs@[l] == before[l]);
                }
                if exists|l: int| 0 <= l < self.kvs@.len() && self.kvs@[l].0@ == k {
                    let l = choose|l: int| 0 <= l < self.kvs@.len() && self.kvs@[l].0@ == k;
                    assert(self.kvs@[l] == before[l]);
                }
            }
            assert(self.kvs@[before.len() as int].0@ == key@);
        }
    }

    /// Signs the entries with the mock signer: keys are hashed and values lowered first.
    pub fn sign<H: Hasher>(&self, signer: &crate::pod::MockSigner) -> (r: Result<SignedPod, Error>)
        ensures
            ({
                let all = crate::pod::signed_entries::<H>(signer.pk@, lowered_entries::<H>(self.kvs@));
                let items = crate::containers::dict_entries(all);
                &&& r.is_ok() <==> crate::merkle::distinct_keys(items) && crate::merkle::fits(
                    crate::merkle::entries(items),
                    0,
                    crate::containers::MAX_DEPTH as nat,
                )
                &&& r matches Ok(sp) ==> (sp.pod matches crate::pod::Pod::Signed(p) && p.kvs@ == all
                    && sp.key_string_map@ == key_strings::<H>(self.kvs@))
            }),
    {
        let mut kvs: Vec<(value::Hash, value::Value)> = Vec::new();
        let mut key_string_map: Vec<(value::Hash, String)> = Vec::new();
        let mut i: usize = 0;
        while i < self.kvs.len()
            invariant
                i <= self.kvs@.len(),
                kvs@ == lowered_entries::<H>(self.kvs@.take(i as int)),
                key_string_map@ == key_strings::<H>(self.kvs@.take(i as int)),
            decreases self.kvs.len() - i,
        {
            let k_hash = hash_str::<H>(self.kvs[i].0.as_str());
            kvs.push((k_hash, self.kvs[i].1.to_middleware::<H>()));
            key_string_map.push((k_hash, self.kvs[i].0.clone()));
            i = i + 1;
            proof {
                assert(kvs@ =~= lowered_entries::<H>(self.kvs@.take(i as int)));
                assert(key_string_map@ =~= key_strings::<H>(self.kvs@.take(i as int)));
            }
        }
        proof {
            assert(self.kvs@.take(self.kvs@.len() as int) =~= self.kvs@);
        }
        match signer.sign::<H>(&self.params, &kvs) {
            Ok(pod) => Ok(SignedPod { pod, key_string_map }),
            Err(e) => Err(e),
        }
    }
}

/// The pods of a list of signed pods, in order.
/// The pods of a list of signed pods.
pub open spec fn signed_pods_seq(v: Seq<SignedPod>) -> Seq<crate::pod::Pod> {
    v.map_values(|p: SignedPod| p.pod)
}

/// The pods of a list of main pods.
pub open spec fn main_pods_seq(v: Seq<MainPod>) -> Seq<crate::pod::Pod> {
    v.map_values(|p: MainPod| p.pod)
}

fn signed_pods_of(v: Vec<SignedPod>) -> (r: Vec<crate::pod::Pod>)
    ensures
        r@ == signed_pods_seq(v@),
{
    let mut v = v;
    let ghost orig = v@;
    let mut r: Vec<crate::pod::Pod> = Vec::new();
    while v.len() > 0
        invariant
            r@.len() + v@.len() == orig.len(),
            r@ == orig.take(r@.len() as int).map_values(|p: SignedPod| p.pod),
            v@ == orig.skip(r@.len() as int),
        decreases v.len(),
    {
        let p = v.remove(0);
        let ghost n = r@.len();
        r.push(p.pod);
        proof {
            assert(r@ =~= orig.take(r@.len() as int).map_values(|p: SignedPod| p.pod));
            assert(v@ =~= orig.skip(r@.len() as int));
        }
    }
    assert(orig.take(orig.len() as int) =~= orig);
    r
}

/// The pods of a list of main pods, in order.
fn main_pods_of(v: Vec<MainPod>) -> (r: Vec<crate::pod::Pod>)
    ensures
        r@ == main_pods_seq(v@),
{
    let mut v = v;
    let ghost orig = v@;
    let mut r: Vec<crate::pod::Pod> = Vec::new();
    while v.len() > 0
        invariant
            r@.len() + v@.len() == orig.len(),
            r@ == orig.take(r@.len() as int).map_values(|p: MainPod| p.pod),
            v@ == orig.skip(r@.len() as int),
        decreases v.len(),
    {
        let p = v.remove(0);
        r.push(p.pod);
        proof {
            assert(r@ =~= orig.take(r@.len() as int).map_values(|p: MainPod| p.pod));
            assert(v@ =~= orig.skip(r@.len() as int));
        }
    }
    assert(orig.take(orig.len() as int) =~= orig);
    r
}

impl MainPodBuilder {
    /// Compiles the builder and hands the result to the prover. Succeeds exactly when the
    /// builder's lists compile, the inputs fit the bounds, and every operation's arguments are
    /// found in the table.
    pub fn prove<H: Hasher>(self, prover: &mut crate::pod::MockProver) -> (r: Result<MainPod, Error>)
        ensures
            ({
                let signed = signed_pods_seq(self.input_signed_pods@);
                let main = main_pods_seq(self.input_main_pods@);
                let sts = lowered_statements::<H>(self.statements@);
                let ops = lowered_operations::<H>(self.operations@);
                let pubs = lowered_statements::<H>(self.public_statements@);
                &&& r.is_ok() <==> compilable::<H>(
                    self.params,
                    self.statements@,
                    self.operations@,
                    self.public_statements@,
                ) && crate::pod::bounds_ok(
                    self.params,
                    signed,
                    main,
                    sts.len(),
                    ops.len(),
                    pubs.len(),
                ) && crate::pod::all_resolvable(
                    self.params,
                    crate::pod::layout(
                        self.params,
                        crate::pod::pods_statements(signed),
                        crate::pod::pods_statements(main),
                        sts,
                    ),
                    ops,
                )
                &&& r matches Ok(m) ==> (m.pod matches crate::pod::Pod::Main(mp)
                    && crate::pod::compiled_from_parts(
                    self.params,
                    crate::pod::pods_statements(signed),
                    crate::pod::pods_statements(main),
                    sts,
                    ops,
                    pubs,
                    mp,
                ))
            }),
    {
        let compiler = MainPodCompiler::new(&self.params);
        let (statements, operations, public_statements) = match compiler.compile::<H>(
            &self.statements,
            &self.operations,
            &self.public_statements,
        ) {
            Ok(x) => x,
            Err(e) => return Err(e),
        };
        let params = self.params;
        let MainPodBuilder { params: _, input_signed_pods, input_main_pods, statements: _, operations: _, public_statements: _, const_cnt: _ } =
            self;
        let inputs = crate::pod::MainPodInputs {
            signed_pods: signed_pods_of(input_signed_pods),
            main_pods: main_pods_of(input_main_pods),
            statements,
            operations,
            public_statements,
        };
        match prover.prove(&params, inputs) {
            Ok(pod) => Ok(MainPod { pod }),
            Err(e) => Err(e),
        }
    }
}

/// The value that a list of entries holds under a key hash, if any (the first one).
pub open spec fn entry_value(
    kvs: Seq<(value::Hash, value::Value)>,
    k: value::Hash,
) -> Option<value::Value> {
    if exists|i: int| 0 <= i < kvs.len() && kvs[i].0 == k {
        let i = choose|i: int|
            0 <= i < kvs.len() && kvs[i].0 == k && forall|j: int| 0 <= j < i ==> kvs[j].0 != k;
        Some(kvs[i].1)
    } else {
        None
    }
}

impl OperationArg {
    /// The `ValueOf` statement of a signed pod's entry, as an operation argument. Fails with
    /// `KeyNotFound` where the pod has no entry under the key.
    pub fn from_signed_pod<H: Hasher>(pod: &SignedPod, key: &str) -> (r: Result<OperationArg, Error>)
        ensures
            ({
                let kvs = signed_pod_entries(pod.pod);
                let k = crate::hash::str_hash::<H>(key.spec_bytes());
                &&& r.is_ok() <==> entry_value(kvs, k).is_some()
                &&& r matches Ok(a) ==> (a matches OperationArg::Statement(
                    Statement::ValueOf(ak, Value::Raw(v)),
                ) && ak.0 == Origin(PodClass::Signed, pod.pod.spec_id()) && ak.1@ == key@ && Some(v)
                    == entry_value(kvs, k))
                &&& r.is_err() ==> r == Err::<OperationArg, Error>(Error::KeyNotFound)
            }),
    {
        let kvs = pod.kvs();
        let k = hash_str::<H>(key);
        let mut i: usize = 0;
        while i < kvs.len()
            invariant
                i <= kvs@.len(),
                kvs@ == signed_pod_entries(pod.pod),
                k == crate::hash::str_hash::<H>(key.spec_bytes()),
                forall|j: int| 0 <= j < i ==> (#[trigger] kvs@[j]).0 != k,
            decreases kvs.len() - i,
        {
            if kvs[i].0 == k {
                let v = kvs[i].1;
                proof {
                    assert(kvs@[i as int].0 == k);
                    assert(forall|j: int| 0 <= j < i ==> kvs@[j].0 != k);
                    let c = choose|c: int|
                        0 <= c < kvs@.len() && kvs@[c].0 == k && forall|j: int|
                            0 <= j < c ==> kvs@[j].0 != k;
                    assert(c == i as int) by {
                        if c < i {
                        } else if c > i {
                            assert(kvs@[i as int].0 == k);
                        }
                    }
                }
                let name = String::from_str(key);
                let ak = AnchoredKey(pod.origin(), name);
                proof {
                    assert(entry_value(kvs@, k) == Some(v));
                    assert(ak.1@ == key@);
                    assert(ak.0 == Origin(PodClass::Signed, pod.pod.spec_id()));
                }
                let r: Result<OperationArg, Error> = Ok(
                    OperationArg::Statement(Statement::ValueOf(ak, Value::Raw(v))),
                );
                proof {
                    assert(kvs@ == signed_pod_entries(pod.pod));
                    assert(k == crate::hash::str_hash::<H>(key.spec_bytes()));
                    assert(entry_value(signed_pod_entries(pod.pod), k).is_some());
                }
                return r;
            }
            i = i + 1;
        }
        Err(Error::KeyNotFound)
    }
}

/// The arguments of a user-level statement in order.
pub open spec fn statement_args(st: Statement) -> Seq<StatementArg> {
    match st {
        Statement::Empty => seq![],
        Statement::ValueOf(a, v) => seq![StatementArg::Key(a), StatementArg::Literal(v)],
        Statement::Equal(a, b) => seq![StatementArg::Key(a), StatementArg::Key(b)],
        Statement::NotEqual(a, b) => seq![StatementArg::Key(a), StatementArg::Key(b)],
        Statement::Gt(a, b) => seq![StatementArg::Key(a), StatementArg::Key(b)],
        Statement::Lt(a, b) => seq![StatementArg::Key(a), StatementArg::Key(b)],
        Statement::Contains(a, b) => seq![StatementArg::Key(a), StatementArg::Key(b)],
        Statement::NotContains(a, b) => seq![StatementArg::Key(a), StatementArg::Key(b)],
        Statement::SumOf(a, b, c) => seq![
            StatementArg::Key(a),
            StatementArg::Key(b),
            StatementArg::Key(c),
        ],
        Statement::ProductOf(a, b, c) => seq![
            StatementArg::Key(a),
            StatementArg::Key(b),
            StatementArg::Key(c),
        ],
        Statement::MaxOf(a, b, c) => seq![
            StatementArg::Key(a),
            StatementArg::Key(b),
            StatementArg::Key(c),
        ],
    }
}

impl Statement {
    /// The statement's arguments in order.
    pub fn args(&self) -> (r: Vec<StatementArg>)
        ensures
            r@ == statement_args(*self),
    {
        let r = match self {
            Statement::Empty => vec![],
            Statement::ValueOf(a, v) => vec![
                StatementArg::Key(a.duplicate()),
                StatementArg::Literal(v.duplicate()),
            ],
            Statement::Equal(a, b) | Statement::NotEqual(a, b) | Statement::Gt(a, b)
            | Statement::Lt(a, b) | Statement::Contains(a, b) | Statement::NotContains(a, b) => vec![
                StatementArg::Key(a.duplicate()),
                StatementArg::Key(b.duplicate()),
            ],
            Statement::SumOf(a, b, c) | Statement::ProductOf(a, b, c) | Statement::MaxOf(a, b, c) => vec![
                StatementArg::Key(a.duplicate()),
                StatementArg::Key(b.duplicate()),
                StatementArg::Key(c.duplicate()),
            ],
        };
        proof {
            assert(r@ =~= statement_args(*self));
        }
        r
    }
}

/// The arguments of a user-level operation in order.
pub open spec fn operation_args(op: Operation) -> Seq<OperationArg> {
    match op {
        Operation::Empty => seq![],
        Operation::NewEntry(k, v) => seq![OperationArg::Entry(k, v)],
        Operation::CopyStatement(s) => seq![OperationArg::Statement(s)],
        Operation::TransitiveEqualFromStatements(s1, s2) => seq![
            OperationArg::Statement(s1),
            OperationArg::Statement(s2),
        ],
        Operation::GtToNotEqual(s) => seq![OperationArg::Statement(s)],
        Operation::LtToNotEqual(s) => seq![OperationArg::Statement(s)],
        Operation::RenameContainedBy(s1, s2) => seq![
            OperationArg::Statement(s1),
            OperationArg::Statement(s2),
        ],
        _ => entry_args(op),
    }
}

impl Operation {
    /// The operation's arguments in order.
    pub fn args(&self) -> (r: Vec<OperationArg>)
        ensures
            r@ == operation_args(*self),
    {
        let r = match self {
            Operation::Empty => vec![],
            Operation::NewEntry(k, v) => vec![OperationArg::Entry(k.clone(), v.duplicate())],
            Operation::CopyStatement(s) | Operation::GtToNotEqual(s) | Operation::LtToNotEqual(s) => vec![
                OperationArg::Statement(s.duplicate()),
            ],
            Operation::TransitiveEqualFromStatements(s1, s2) | Operation::RenameContainedBy(s1, s2) => vec![
                OperationArg::Statement(s1.duplicate()),
                OperationArg::Statement(s2.duplicate()),
            ],
            Operation::EqualFromEntries(a, b) | Operation::NotEqualFromEntries(a, b)
            | Operation::GtFromEntries(a, b) | Operation::LtFromEntries(a, b)
            | Operation::ContainsFromEntries(a, b) | Operation::NotContainsFromEntries(a, b) => vec![
                a.duplicate(),
                b.duplicate(),
            ],
            Operation::SumOf(a, b, c) | Operation::ProductOf(a, b, c) | Operation::MaxOf(a, b, c) => vec![
                a.duplicate(),
                b.duplicate(),
                c.duplicate(),
            ],
        };
        proof {
            assert(r@ =~= operation_args(*self));
        }
        r
    }
}

impl SignedPod {
    /// Whether the underlying pod verifies.
    pub fn verify<H: Hasher>(&self) -> (r: bool)
        ensures
            self.pod matches crate::pod::Pod::Main(m) ==> r == crate::pod::pod_valid(m),
            self.pod matches crate::pod::Pod::Signed(p) ==> r == crate::pod::signed_valid::<H>(p),
            self.pod is Empty ==> r,
    {
        self.pod.verify::<H>()
    }
}

impl Value {
    /// A string value.
    pub fn from_str(s: &str) -> (r: Value)
        ensures
            r matches Value::String(t) && t@ == s@,
    {
        Value::String(String::from_str(s))
    }

    /// An integer value.
    pub fn from_i64(v: i64) -> (r: Value)
        ensures
            r == Value::Int(v),
    {
        Value::Int(v)
    }

    /// A boolean value.
    pub fn from_bool(b: bool) -> (r: Value)
        ensures
            r == Value::Bool(b),
    {
        Value::Bool(b)
    }
}

impl SignedPodBuilder {
    /// Signs the entries with any signer: keys are hashed and values lowered first, and the
    /// key strings are kept by hash.
    pub fn sign_with<H: Hasher, S: crate::pod::PodSigner>(&self, signer: &S) -> (r: Result<SignedPod, Error>)
        ensures
            r matches Ok(sp) ==> sp.key_string_map@ == key_strings::<H>(self.kvs@),
    {
        let mut kvs: Vec<(value::Hash, value::Value)> = Vec::new();
        let mut key_string_map: Vec<(value::Hash, String)> = Vec::new();
        let mut i: usize = 0;
        while i < self.kvs.len()
            invariant
                i <= self.kvs@.len(),
                kvs@ == lowered_entries::<H>(self.kvs@.take(i as int)),
                key_string_map@ == key_strings::<H>(self.kvs@.take(i as int)),
            decreases self.kvs.len() - i,
        {
            let k_hash = hash_str::<H>(self.kvs[i].0.as_str());
            kvs.push((k_hash, self.kvs[i].1.to_middleware::<H>()));
            key_string_map.push((k_hash, self.kvs[i].0.clone()));
            i = i + 1;
            proof {
                assert(kvs@ =~= lowered_entries::<H>(self.kvs@.take(i as int)));
                assert(key_string_map@ =~= key_strings::<H>(self.kvs@.take(i as int)));
            }
        }
        proof {
            assert(self.kvs@.take(self.kvs@.len() as int) =~= self.kvs@);
        }
        match signer.sign_pod::<H>(&self.params, &kvs) {
            Ok(pod) => Ok(SignedPod { pod, key_string_map }),
            Err(e) => Err(e),
        }
    }
}

impl MainPodBuilder {
    /// Compiles the builder and hands the result to any prover. Fails, without calling the
    /// prover, where the builder's lists do not compile.
    pub fn prove_with<H: Hasher, P: crate::pod::PodProver>(self, prover: &mut P) -> (r: Result<MainPod, Error>)
        ensures
            !compilable::<H>(self.params, self.statements@, self.operations@, self.public_statements@)
                ==> r.is_err(),
    {
        let compiler = MainPodCompiler::new(&self.params);
        let (statements, operations, public_statements) = match compiler.compile::<H>(
            &self.statements,
            &self.operations,
            &self.public_statements,
        ) {
            Ok(x) => x,
            Err(e) => return Err(e),
        };
        let params = self.params;
        let MainPodBuilder { params: _, input_signed_pods, input_main_pods, statements: _, operations: _, public_statements: _, const_cnt: _ } =
            self;
        let inputs = crate::pod::MainPodInputs {
            signed_pods: signed_pods_of(input_signed_pods),
            main_pods: main_pods_of(input_main_pods),
            statements,
            operations,
            public_statements,
        };
        match prover.prove_pod(&params, inputs) {
            Ok(pod) => Ok(MainPod { pod }),
            Err(e) => Err(e),
        }
    }
}

} // verus!
