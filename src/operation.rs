use vstd::prelude::*;

use crate::error::Error;
use crate::statement::{AnchoredKey, NativePredicate, Statement};
use crate::value::{i64_of, is_i64_embedding, self_id, PodId, Value};

verus! {

/// The native operations, with stable numeric codes 0 to 15.
#[derive(Clone, Copy, Debug, PartialEq, Eq, Structural)]
pub enum NativeOperation {
    Empty,
    NewEntry,
    CopyStatement,
    EqualFromEntries,
    NotEqualFromEntries,
    GtFromEntries,
    LtFromEntries,
    TransitiveEqualFromStatements,
    GtToNotEqual,
    LtToNotEqual,
    ContainsFromEntries,
    NotContainsFromEntries,
    RenameContainedBy,
    SumOf,
    ProductOf,
    MaxOf,
}

impl NativeOperation {
    pub open spec fn spec_code(&self) -> u64 {
        match self {
            NativeOperation::Empty => 0,
            NativeOperation::NewEntry => 1,
            NativeOperation::CopyStatement => 2,
            NativeOperation::EqualFromEntries => 3,
            NativeOperation::NotEqualFromEntries => 4,
            NativeOperation::GtFromEntries => 5,
            NativeOperation::LtFromEntries => 6,
            NativeOperation::TransitiveEqualFromStatements => 7,
            NativeOperation::GtToNotEqual => 8,
            NativeOperation::LtToNotEqual => 9,
            NativeOperation::ContainsFromEntries => 10,
            NativeOperation::NotContainsFromEntries => 11,
            NativeOperation::RenameContainedBy => 12,
            NativeOperation::SumOf => 13,
            NativeOperation::ProductOf => 14,
            NativeOperation::MaxOf => 15,
        }
    }

    /// The operation's numeric code.
    pub fn code(&self) -> (r: u64)
        ensures
            r == self.spec_code(),
    {
        match self {
            NativeOperation::Empty => 0,
            NativeOperation::NewEntry => 1,
            NativeOperation::CopyStatement => 2,
            NativeOperation::EqualFromEntries => 3,
            NativeOperation::NotEqualFromEntries => 4,
            NativeOperation::GtFromEntries => 5,
            NativeOperation::LtFromEntries => 6,
            NativeOperation::TransitiveEqualFromStatements => 7,
            NativeOperation::GtToNotEqual => 8,
            NativeOperation::LtToNotEqual => 9,
            NativeOperation::ContainsFromEntries => 10,
            NativeOperation::NotContainsFromEntries => 11,
            NativeOperation::RenameContainedBy => 12,
            NativeOperation::SumOf => 13,
            NativeOperation::ProductOf => 14,
            NativeOperation::MaxOf => 15,
        }
    }

    /// The predicates that the operation's input statements must have, in order; `None`
    /// admits a statement of any predicate.
    pub open spec fn input_shape(&self) -> Seq<Option<NativePredicate>> {
        let v = Some(NativePredicate::ValueOf);
        match self {
            NativeOperation::Empty => seq![],
            NativeOperation::NewEntry => seq![],
            NativeOperation::CopyStatement => seq![None],
            NativeOperation::EqualFromEntries => seq![v, v],
            NativeOperation::NotEqualFromEntries => seq![v, v],
            NativeOperation::GtFromEntries => seq![v, v],
            NativeOperation::LtFromEntries => seq![v, v],
            NativeOperation::TransitiveEqualFromStatements => seq![
                Some(NativePredicate::Equal),
                Some(NativePredicate::Equal),
            ],
            NativeOperation::GtToNotEqual => seq![Some(NativePredicate::Gt)],
            NativeOperation::LtToNotEqual => seq![Some(NativePredicate::Lt)],
            NativeOperation::ContainsFromEntries => seq![v, v],
            NativeOperation::NotContainsFromEntries => seq![v, v],
            NativeOperation::RenameContainedBy => seq![
                Some(NativePredicate::Contains),
                Some(NativePredicate::Equal),
            ],
            NativeOperation::SumOf => seq![v, v, v],
            NativeOperation::ProductOf => seq![v, v, v],
            NativeOperation::MaxOf => seq![v, v, v],
        }
    }
}

/// Whether a list of statements fits an input shape.
pub open spec fn fits_shape(args: Seq<Statement>, shape: Seq<Option<NativePredicate>>) -> bool {
    &&& args.len() == shape.len()
    &&& forall|i: int|
        0 <= i < args.len() ==> match #[trigger] shape[i] {
            Some(p) => args[i].spec_code() == p,
            None => true,
        }
}

/// A native operation together with the statements it takes as input.
#[derive(Clone, Copy, Debug, PartialEq, Eq, Structural)]
pub enum Operation {
    Empty,
    NewEntry,
    CopyStatement(Statement),
    EqualFromEntries(Statement, Statement),
    NotEqualFromEntries(Statement, Statement),
    GtFromEntries(Statement, Statement),
    LtFromEntries(Statement, Statement),
    TransitiveEqualFromStatements(Statement, Statement),
    GtToNotEqual(Statement),
    LtToNotEqual(Statement),
    ContainsFromEntries(Statement, Statement),
    NotContainsFromEntries(Statement, Statement),
    RenameContainedBy(Statement, Statement),
    SumOf(Statement, Statement, Statement),
    ProductOf(Statement, Statement, Statement),
    MaxOf(Statement, Statement, Statement),
}

/// The integer relation of three embedded integers that a `SumOf`, `ProductOf` or `MaxOf`
/// deduction asserts, computed over unbounded integers.
pub open spec fn arith_holds(code: NativeOperation, a: int, b: int, c: int) -> bool {
    match code {
        NativeOperation::SumOf => a == b + c,
        NativeOperation::ProductOf => a == b * c,
        _ => a == if b >= c {
            b
        } else {
            c
        },
    }
}

/// The outcome of checking an operation against the statement it claims to derive: `Ok(true)`
/// for a valid deduction, `Ok(false)` for a well-shaped but false one, and an error where the
/// output does not match the operation's pattern or a value is not an integer.
pub open spec fn check_outcome(op: Operation, out: Statement) -> Result<bool, Error> {
    match (op, out) {
        (Operation::Empty, Statement::Empty) => Ok(true),
        (Operation::NewEntry, Statement::ValueOf(ak, _)) => Ok(ak.0 == self_id()),
        (Operation::CopyStatement(s), _) => Ok(s == out),
        (
            Operation::EqualFromEntries(Statement::ValueOf(a1, v1), Statement::ValueOf(a2, v2)),
            Statement::Equal(a3, a4),
        ) => Ok(v1 == v2 && a3 == a1 && a4 == a2),
        (
            Operation::NotEqualFromEntries(Statement::ValueOf(a1, v1), Statement::ValueOf(a2, v2)),
            Statement::NotEqual(a3, a4),
        ) => Ok(v1 != v2 && a3 == a1 && a4 == a2),
        (
            Operation::GtFromEntries(Statement::ValueOf(a1, v1), Statement::ValueOf(a2, v2)),
            Statement::Gt(a3, a4),
        ) => Ok(v2.lt(&v1) && a3 == a1 && a4 == a2),
        (
            Operation::LtFromEntries(Statement::ValueOf(a1, v1), Statement::ValueOf(a2, v2)),
            Statement::Lt(a3, a4),
        ) => Ok(v1.lt(&v2) && a3 == a1 && a4 == a2),
        (Operation::ContainsFromEntries(_, _), Statement::Contains(_, _)) => Ok(true),
        (Operation::NotContainsFromEntries(_, _), Statement::NotContains(_, _)) => Ok(true),
        (
            Operation::TransitiveEqualFromStatements(Statement::Equal(a1, a2), Statement::Equal(a3, a4)),
            Statement::Equal(a5, a6),
        ) => Ok(a2 == a3 && a5 == a1 && a6 == a4),
        (Operation::GtToNotEqual(Statement::Gt(a1, a2)), Statement::NotEqual(a3, a4)) => Ok(
            a1 == a3 && a2 == a4,
        ),
        (Operation::LtToNotEqual(Statement::Lt(a1, a2)), Statement::NotEqual(a3, a4)) => Ok(
            a1 == a3 && a2 == a4,
        ),
        (
            Operation::RenameContainedBy(Statement::Contains(a1, a2), Statement::Equal(a3, a4)),
            Statement::Contains(a5, a6),
        ) => Ok(a1 == a3 && a4 == a5 && a2 == a6),
        (
            Operation::SumOf(Statement::ValueOf(a1, v1), Statement::ValueOf(a2, v2), Statement::ValueOf(a3, v3)),
            Statement::SumOf(a4, a5, a6),
        ) => arith_outcome(NativeOperation::SumOf, a1, v1, a2, v2, a3, v3, a4, a5, a6),
        (
            Operation::ProductOf(Statement::ValueOf(a1, v1), Statement::ValueOf(a2, v2), Statement::ValueOf(a3, v3)),
            Statement::ProductOf(a4, a5, a6),
        ) => arith_outcome(NativeOperation::ProductOf, a1, v1, a2, v2, a3, v3, a4, a5, a6),
        (
            Operation::MaxOf(Statement::ValueOf(a1, v1), Statement::ValueOf(a2, v2), Statement::ValueOf(a3, v3)),
            Statement::MaxOf(a4, a5, a6),
        ) => arith_outcome(NativeOperation::MaxOf, a1, v1, a2, v2, a3, v3, a4, a5, a6),
        _ => Err(Error::InvalidDeduction),
    }
}

pub open spec fn arith_outcome(
    code: NativeOperation,
    a1: AnchoredKey,
    v1: Value,
    a2: AnchoredKey,
    v2: Value,
    a3: AnchoredKey,
    v3: Value,
    a4: AnchoredKey,
    a5: AnchoredKey,
    a6: AnchoredKey,
) -> Result<bool, Error> {
    if is_i64_embedding(v1) && is_i64_embedding(v2) && is_i64_embedding(v3) {
        Ok(
            arith_holds(code, i64_of(v1) as int, i64_of(v2) as int, i64_of(v3) as int) && a4 == a1
                && a5 == a2 && a6 == a3,
        )
    } else {
        Err(Error::ValueNotInI64Embedding)
    }
}

impl Operation {
    pub open spec fn spec_code(&self) -> NativeOperation {
        match self {
            Operation::Empty => NativeOperation::Empty,
            Operation::NewEntry => NativeOperation::NewEntry,
            Operation::CopyStatement(..) => NativeOperation::CopyStatement,
            Operation::EqualFromEntries(..) => NativeOperation::EqualFromEntries,
            Operation::NotEqualFromEntries(..) => NativeOperation::NotEqualFromEntries,
            Operation::GtFromEntries(..) => NativeOperation::GtFromEntries,
            Operation::LtFromEntries(..) => NativeOperation::LtFromEntries,
            Operation::TransitiveEqualFromStatements(..) => NativeOperation::TransitiveEqualFromStatements,
            Operation::GtToNotEqual(..) => NativeOperation::GtToNotEqual,
            Operation::LtToNotEqual(..) => NativeOperation::LtToNotEqual,
            Operation::ContainsFromEntries(..) => NativeOperation::ContainsFromEntries,
            Operation::NotContainsFromEntries(..) => NativeOperation::NotContainsFromEntries,
            Operation::RenameContainedBy(..) => NativeOperation::RenameContainedBy,
            Operation::SumOf(..) => NativeOperation::SumOf,
            Operation::ProductOf(..) => NativeOperation::ProductOf,
            Operation::MaxOf(..) => NativeOperation::MaxOf,
        }
    }

    pub open spec fn spec_args(&self) -> Seq<Statement> {
        match *self {
            Operation::Empty => seq![],
            Operation::NewEntry => seq![],
            Operation::CopyStatement(s) => seq![s],
            Operation::EqualFromEntries(s1, s2) => seq![s1, s2],
            Operation::NotEqualFromEntries(s1, s2) => seq![s1, s2],
            Operation::GtFromEntries(s1, s2) => seq![s1, s2],
            Operation::LtFromEntries(s1, s2) => seq![s1, s2],
            Operation::TransitiveEqualFromStatements(s1, s2) => seq![s1, s2],
            Operation::GtToNotEqual(s) => seq![s],
            Operation::LtToNotEqual(s) => seq![s],
            Operation::ContainsFromEntries(s1, s2) => seq![s1, s2],
            Operation::NotContainsFromEntries(s1, s2) => seq![s1, s2],
            Operation::RenameContainedBy(s1, s2) => seq![s1, s2],
            Operation::SumOf(s1, s2, s3) => seq![s1, s2, s3],
            Operation::ProductOf(s1, s2, s3) => seq![s1, s2, s3],
            Operation::MaxOf(s1, s2, s3) => seq![s1, s2, s3],
        }
    }

    /// The operation's code.
    pub fn code(&self) -> (r: NativeOperation)
        ensures
            r == self.spec_code(),
    {
        match self {
            Operation::Empty => NativeOperation::Empty,
            Operation::NewEntry => NativeOperation::NewEntry,
            Operation::CopyStatement(..) => NativeOperation::CopyStatement,
            Operation::EqualFromEntries(..) => NativeOperation::EqualFromEntries,
            Operation::NotEqualFromEntries(..) => NativeOperation::NotEqualFromEntries,
            Operation::GtFromEntries(..) => NativeOperation::GtFromEntries,
            Operation::LtFromEntries(..) => NativeOperation::LtFromEntries,
            Operation::TransitiveEqualFromStatements(..) => NativeOperation::TransitiveEqualFromStatements,
            Operation::GtToNotEqual(..) => NativeOperation::GtToNotEqual,
            Operation::LtToNotEqual(..) => NativeOperation::LtToNotEqual,
            Operation::ContainsFromEntries(..) => NativeOperation::ContainsFromEntries,
            Operation::NotContainsFromEntries(..) => NativeOperation::NotContainsFromEntries,
            Operation::RenameContainedBy(..) => NativeOperation::RenameContainedBy,
            Operation::SumOf(..) => NativeOperation::SumOf,
            Operation::ProductOf(..) => NativeOperation::ProductOf,
            Operation::MaxOf(..) => NativeOperation::MaxOf,
        }
    }

    /// The operation's input statements in order.
    pub fn args(&self) -> (r: Vec<Statement>)
        ensures
            r@ == self.spec_args(),
    {
        let r = match *self {
            Operation::Empty => vec![],
            Operation::NewEntry => vec![],
            Operation::CopyStatement(s) => vec![s],
            Operation::EqualFromEntries(s1, s2) => vec![s1, s2],
            Operation::NotEqualFromEntries(s1, s2) => vec![s1, s2],
            Operation::GtFromEntries(s1, s2) => vec![s1, s2],
            Operation::LtFromEntries(s1, s2) => vec![s1, s2],
            Operation::TransitiveEqualFromStatements(s1, s2) => vec![s1, s2],
            Operation::GtToNotEqual(s) => vec![s],
            Operation::LtToNotEqual(s) => vec![s],
            Operation::ContainsFromEntries(s1, s2) => vec![s1, s2],
            Operation::NotContainsFromEntries(s1, s2) => vec![s1, s2],
            Operation::RenameContainedBy(s1, s2) => vec![s1, s2],
            Operation::SumOf(s1, s2, s3) => vec![s1, s2, s3],
            Operation::ProductOf(s1, s2, s3) => vec![s1, s2, s3],
            Operation::MaxOf(s1, s2, s3) => vec![s1, s2, s3],
        };
        proof {
            assert(r@ =~= self.spec_args());
        }
        r
    }

    /// Forms an operation from its code and input statements. Fails with
    /// `IllFormedOperation` where the number of inputs or the predicate of an input does not
    /// fit the code.
    pub fn op(code: NativeOperation, args: &[Statement]) -> (r: Result<Operation, Error>)
        ensures
            r.is_ok() <==> fits_shape(args@, code.input_shape()),
            r matches Ok(o) ==> o.spec_code() == code && o.spec_args() == args@,
            r.is_err() ==> r == Err::<Operation, Error>(Error::IllFormedOperation),
    {
        let n = args.len();
        let shape_ok = match code {
            NativeOperation::Empty | NativeOperation::NewEntry => n == 0,
            NativeOperation::CopyStatement => n == 1,
            NativeOperation::GtToNotEqual => n == 1 && args[0].is_gt(),
            NativeOperation::LtToNotEqual => n == 1 && args[0].is_lt(),
            NativeOperation::TransitiveEqualFromStatements => n == 2 && args[0].is_equal()
                && args[1].is_equal(),
            NativeOperation::RenameContainedBy => n == 2 && args[0].is_contains()
                && args[1].is_equal(),
            NativeOperation::EqualFromEntries
            | NativeOperation::NotEqualFromEntries
            | NativeOperation::GtFromEntries
            | NativeOperation::LtFromEntries
            | NativeOperation::ContainsFromEntries
            | NativeOperation::NotContainsFromEntries => n == 2 && args[0].is_value_of()
                && args[1].is_value_of(),
            NativeOperation::SumOf | NativeOperation::ProductOf | NativeOperation::MaxOf => n == 3
                && args[0].is_value_of() && args[1].is_value_of() && args[2].is_value_of(),
        };
        proof {
            let shape = code.input_shape();
            if shape_ok {
                assert(fits_shape(args@, shape));
            } else if fits_shape(args@, shape) {
                if n >= 1 {
                    assert(shape[0] matches Some(p) ==> args@[0].spec_code() == p);
                }
                if n >= 2 {
                    assert(shape[1] matches Some(p) ==> args@[1].spec_code() == p);
                }
                if n >= 3 {
                    assert(shape[2] matches Some(p) ==> args@[2].spec_code() == p);
                }
            }
        }
        if !shape_ok {
            return Err(Error::IllFormedOperation);
        }
        let o = match code {
            NativeOperation::Empty => Operation::Empty,
            NativeOperation::NewEntry => Operation::NewEntry,
            NativeOperation::CopyStatement => Operation::CopyStatement(args[0]),
            NativeOperation::EqualFromEntries => Operation::EqualFromEntries(args[0], args[1]),
            NativeOperation::NotEqualFromEntries => Operation::NotEqualFromEntries(
                args[0],
                args[1],
            ),
            NativeOperation::GtFromEntries => Operation::GtFromEntries(args[0], args[1]),
            NativeOperation::LtFromEntries => Operation::LtFromEntries(args[0], args[1]),
            NativeOperation::TransitiveEqualFromStatements => {
                Operation::TransitiveEqualFromStatements(args[0], args[1])
            },
            NativeOperation::GtToNotEqual => Operation::GtToNotEqual(args[0]),
            NativeOperation::LtToNotEqual => Operation::LtToNotEqual(args[0]),
            NativeOperation::ContainsFromEntries => Operation::ContainsFromEntries(
                args[0],
                args[1],
            ),
            NativeOperation::NotContainsFromEntries => Operation::NotContainsFromEntries(
                args[0],
                args[1],
            ),
            NativeOperation::RenameContainedBy => Operation::RenameContainedBy(args[0], args[1]),
            NativeOperation::SumOf => Operation::SumOf(args[0], args[1], args[2]),
            NativeOperation::ProductOf => Operation::ProductOf(args[0], args[1], args[2]),
            NativeOperation::MaxOf => Operation::MaxOf(args[0], args[1], args[2]),
        };
        proof {
            assert(o.spec_args() =~= args@);
        }
        Ok(o)
    }

    /// Checks the operation against the statement it claims to derive.
    pub fn check(&self, out: &Statement) -> (r: Result<bool, Error>)
        ensures
            r == check_outcome(*self, *out),
    {
        match (*self, *out) {
            (Operation::Empty, Statement::Empty) => Ok(true),
            (Operation::NewEntry, Statement::ValueOf(ak, _)) => Ok(ak.0 == PodId::self_pod()),
            (Operation::CopyStatement(s), _) => Ok(s == *out),
            (
                Operation::EqualFromEntries(Statement::ValueOf(a1, v1), Statement::ValueOf(a2, v2)),
                Statement::Equal(a3, a4),
            ) => Ok(v1 == v2 && a3 == a1 && a4 == a2),
            (
                Operation::NotEqualFromEntries(
                    Statement::ValueOf(a1, v1),
                    Statement::ValueOf(a2, v2),
                ),
                Statement::NotEqual(a3, a4),
            ) => Ok(v1 != v2 && a3 == a1 && a4 == a2),
            (
                Operation::GtFromEntries(Statement::ValueOf(a1, v1), Statement::ValueOf(a2, v2)),
                Statement::Gt(a3, a4),
            ) => Ok(v2.less_than(&v1) && a3 == a1 && a4 == a2),
            (
                Operation::LtFromEntries(Statement::ValueOf(a1, v1), Statement::ValueOf(a2, v2)),
                Statement::Lt(a3, a4),
            ) => Ok(v1.less_than(&v2) && a3 == a1 && a4 == a2),
            (Operation::ContainsFromEntries(_, _), Statement::Contains(_, _)) => Ok(true),
            (Operation::NotContainsFromEntries(_, _), Statement::NotContains(_, _)) => Ok(true),
            (
                Operation::TransitiveEqualFromStatements(
                    Statement::Equal(a1, a2),
                    Statement::Equal(a3, a4),
                ),
                Statement::Equal(a5, a6),
            ) => Ok(a2 == a3 && a5 == a1 && a6 == a4),
            (Operation::GtToNotEqual(Statement::Gt(a1, a2)), Statement::NotEqual(a3, a4)) => Ok(
                a1 == a3 && a2 == a4,
            ),
            (Operation::LtToNotEqual(Statement::Lt(a1, a2)), Statement::NotEqual(a3, a4)) => Ok(
                a1 == a3 && a2 == a4,
            ),
            (
                Operation::RenameContainedBy(Statement::Contains(a1, a2), Statement::Equal(a3, a4)),
                Statement::Contains(a5, a6),
            ) => Ok(a1 == a3 && a4 == a5 && a2 == a6),
            (
                Operation::SumOf(
                    Statement::ValueOf(a1, v1),
                    Statement::ValueOf(a2, v2),
                    Statement::ValueOf(a3, v3),
                ),
                Statement::SumOf(a4, a5, a6),
            ) => check_arith(NativeOperation::SumOf, a1, v1, a2, v2, a3, v3, a4, a5, a6),
            (
                Operation::ProductOf(
                    Statement::ValueOf(a1, v1),
                    Statement::ValueOf(a2, v2),
                    Statement::ValueOf(a3, v3),
                ),
                Statement::ProductOf(a4, a5, a6),
            ) => check_arith(NativeOperation::ProductOf, a1, v1, a2, v2, a3, v3, a4, a5, a6),
            (
                Operation::MaxOf(
                    Statement::ValueOf(a1, v1),
                    Statement::ValueOf(a2, v2),
                    Statement::ValueOf(a3, v3),
                ),
                Statement::MaxOf(a4, a5, a6),
            ) => check_arith(NativeOperation::MaxOf, a1, v1, a2, v2, a3, v3, a4, a5, a6),
            _ => Err(Error::InvalidDeduction),
        }
    }
}

/// Checks an arithmetic deduction over three embedded integers.
fn check_arith(
    code: NativeOperation,
    a1: AnchoredKey,
    v1: Value,
    a2: AnchoredKey,
    v2: Value,
    a3: AnchoredKey,
    v3: Value,
    a4: AnchoredKey,
    a5: AnchoredKey,
    a6: AnchoredKey,
) -> (r: Result<bool, Error>)
    requires
        code is SumOf || code is ProductOf || code is MaxOf,
    ensures
        r == arith_outcome(code, a1, v1, a2, v2, a3, v3, a4, a5, a6),
{
    let x1 = match v1.to_i64() {
        Ok(x) => x,
        Err(e) => return Err(e),
    };
    let x2 = match v2.to_i64() {
        Ok(x) => x,
        Err(e) => return Err(e),
    };
    let x3 = match v3.to_i64() {
        Ok(x) => x,
        Err(e) => return Err(e),
    };
    let holds = match code {
        NativeOperation::SumOf => match x2.checked_add(x3) {
            Some(s) => x1 == s,
            None => false,
        },
        NativeOperation::ProductOf => match x2.checked_mul(x3) {
            Some(p) => x1 == p,
            None => false,
        },
        _ => x1 == if x2 >= x3 {
            x2
        } else {
            x3
        },
    };
    Ok(holds && a4 == a1 && a5 == a2 && a6 == a3)
}

impl Statement {
    pub fn is_value_of(&self) -> (r: bool)
        ensures
            r == (*self is ValueOf),
    {
        matches!(self, Statement::ValueOf(..))
    }

    pub fn is_equal(&self) -> (r: bool)
        ensures
            r == (*self is Equal),
    {
        matches!(self, Statement::Equal(..))
    }

    pub fn is_gt(&self) -> (r: bool)
        ensures
            r == (*self is Gt),
    {
        matches!(self, Statement::Gt(..))
    }

    pub fn is_lt(&self) -> (r: bool)
        ensures
            r == (*self is Lt),
    {
        matches!(self, Statement::Lt(..))
    }

    pub fn is_contains(&self) -> (r: bool)
        ensures
            r == (*self is Contains),
    {
        matches!(self, Statement::Contains(..))
    }
}

/// What a valid deduction means: the relation that the output statement asserts holds of the
/// values and keys that the input statements bind.
pub open spec fn deduction_sound(op: Operation, out: Statement) -> bool {
    match op {
        Operation::Empty => out is Empty,
        Operation::NewEntry => out matches Statement::ValueOf(ak, _) && ak.0 == self_id(),
        Operation::CopyStatement(s) => out == s,
        Operation::EqualFromEntries(Statement::ValueOf(a1, v1), Statement::ValueOf(a2, v2)) => {
            out == Statement::Equal(a1, a2) && v1 == v2
        },
        Operation::NotEqualFromEntries(Statement::ValueOf(a1, v1), Statement::ValueOf(a2, v2)) => {
            out == Statement::NotEqual(a1, a2) && v1 != v2
        },
        Operation::GtFromEntries(Statement::ValueOf(a1, v1), Statement::ValueOf(a2, v2)) => {
            out == Statement::Gt(a1, a2) && v2.lt(&v1)
        },
        Operation::LtFromEntries(Statement::ValueOf(a1, v1), Statement::ValueOf(a2, v2)) => {
            out == Statement::Lt(a1, a2) && v1.lt(&v2)
        },
        Operation::TransitiveEqualFromStatements(Statement::Equal(a1, a2), Statement::Equal(a3, a4)) => {
            a2 == a3 && out == Statement::Equal(a1, a4)
        },
        Operation::GtToNotEqual(Statement::Gt(a1, a2)) => out == Statement::NotEqual(a1, a2),
        Operation::LtToNotEqual(Statement::Lt(a1, a2)) => out == Statement::NotEqual(a1, a2),
        Operation::ContainsFromEntries(_, _) => out is Contains,
        Operation::NotContainsFromEntries(_, _) => out is NotContains,
        Operation::RenameContainedBy(Statement::Contains(a1, a2), Statement::Equal(a3, a4)) => {
            a1 == a3 && out == Statement::Contains(a4, a2)
        },
        Operation::SumOf(Statement::ValueOf(a1, v1), Statement::ValueOf(a2, v2), Statement::ValueOf(a3, v3)) => {
            &&& out == Statement::SumOf(a1, a2, a3)
            &&& is_i64_embedding(v1) && is_i64_embedding(v2) && is_i64_embedding(v3)
            &&& i64_of(v1) == i64_of(v2) + i64_of(v3)
        },
        Operation::ProductOf(Statement::ValueOf(a1, v1), Statement::ValueOf(a2, v2), Statement::ValueOf(a3, v3)) => {
            &&& out == Statement::ProductOf(a1, a2, a3)
            &&& is_i64_embedding(v1) && is_i64_embedding(v2) && is_i64_embedding(v3)
            &&& i64_of(v1) == i64_of(v2) * i64_of(v3)
        },
        Operation::MaxOf(Statement::ValueOf(a1, v1), Statement::ValueOf(a2, v2), Statement::ValueOf(a3, v3)) => {
            &&& out == Statement::MaxOf(a1, a2, a3)
            &&& is_i64_embedding(v1) && is_i64_embedding(v2) && is_i64_embedding(v3)
            &&& i64_of(v1) == if i64_of(v2) >= i64_of(v3) { i64_of(v2) } else { i64_of(v3) }
        },
        _ => false,
    }
}

/// Soundness of the checker: an operation accepted against a statement implies the relation
/// that the statement asserts over the values its inputs bind.
pub proof fn lemma_check_sound(op: Operation, out: Statement)
    requires
        check_outcome(op, out) == Ok::<bool, Error>(true),
    ensures
        deduction_sound(op, out),
{
}

} // verus!
