use vstd::prelude::*;

use crate::error::Error;
use crate::value::{Params, PodId, Value};

verus! {

/// The number of field elements that one statement argument serialises to.
pub const STATEMENT_ARG_F_LEN: usize = 8;

/// The native predicates, with stable numeric codes 0 to 10.
#[derive(Clone, Copy, Debug, PartialEq, Eq, Structural)]
pub enum NativePredicate {
    Empty,
    ValueOf,
    Equal,
    NotEqual,
    Gt,
    Lt,
    Contains,
    NotContains,
    SumOf,
    ProductOf,
    MaxOf,
}

/// The head of a native statement.
pub type NativeStatement = NativePredicate;

impl NativePredicate {
    pub open spec fn spec_code(&self) -> u64 {
        match self {
            NativePredicate::Empty => 0,
            NativePredicate::ValueOf => 1,
            NativePredicate::Equal => 2,
            NativePredicate::NotEqual => 3,
            NativePredicate::Gt => 4,
            NativePredicate::Lt => 5,
            NativePredicate::Contains => 6,
            NativePredicate::NotContains => 7,
            NativePredicate::SumOf => 8,
            NativePredicate::ProductOf => 9,
            NativePredicate::MaxOf => 10,
        }
    }

    /// The predicate's numeric code.
    pub fn code(&self) -> (r: u64)
        ensures
            r == self.spec_code(),
    {
        match self {
            NativePredicate::Empty => 0,
            NativePredicate::ValueOf => 1,
            NativePredicate::Equal => 2,
            NativePredicate::NotEqual => 3,
            NativePredicate::Gt => 4,
            NativePredicate::Lt => 5,
            NativePredicate::Contains => 6,
            NativePredicate::NotContains => 7,
            NativePredicate::SumOf => 8,
            NativePredicate::ProductOf => 9,
            NativePredicate::MaxOf => 10,
        }
    }

    /// The predicate with the given code, if there is one.
    pub fn from_repr(code: u64) -> (r: Option<NativePredicate>)
        ensures
            r.is_some() <==> code <= 10,
            r matches Some(p) ==> p.spec_code() == code,
    {
        match code {
            0 => Some(NativePredicate::Empty),
            1 => Some(NativePredicate::ValueOf),
            2 => Some(NativePredicate::Equal),
            3 => Some(NativePredicate::NotEqual),
            4 => Some(NativePredicate::Gt),
            5 => Some(NativePredicate::Lt),
            6 => Some(NativePredicate::Contains),
            7 => Some(NativePredicate::NotContains),
            8 => Some(NativePredicate::SumOf),
            9 => Some(NativePredicate::ProductOf),
            10 => Some(NativePredicate::MaxOf),
            _ => None,
        }
    }
}

/// An entry as it exists in a specific pod: the pod's id and the hash of the key.
#[derive(Clone, Copy, Debug, PartialEq, Eq, Hash, Structural)]
pub struct AnchoredKey(pub PodId, pub crate::value::Hash);

impl AnchoredKey {
    pub fn origin(&self) -> (r: PodId)
        ensures
            r == self.0,
    {
        self.0
    }

    pub fn key(&self) -> (r: crate::value::Hash)
        ensures
            r == self.1,
    {
        self.1
    }
}

/// A native statement with its arguments.
#[derive(Clone, Copy, Debug, PartialEq, Eq, Hash, Structural)]
pub enum Statement {
    Empty,
    ValueOf(AnchoredKey, Value),
    Equal(AnchoredKey, AnchoredKey),
    NotEqual(AnchoredKey, AnchoredKey),
    Gt(AnchoredKey, AnchoredKey),
    Lt(AnchoredKey, AnchoredKey),
    Contains(AnchoredKey, AnchoredKey),
    NotContains(AnchoredKey, AnchoredKey),
    SumOf(AnchoredKey, AnchoredKey, AnchoredKey),
    ProductOf(AnchoredKey, AnchoredKey, AnchoredKey),
    MaxOf(AnchoredKey, AnchoredKey, AnchoredKey),
}

/// A statement argument.
#[derive(Clone, Copy, Debug, PartialEq, Eq, Structural)]
pub enum StatementArg {
    Empty,
    Literal(Value),
    Key(AnchoredKey),
}

impl Statement {
    pub open spec fn spec_code(&self) -> NativePredicate {
        match self {
            Statement::Empty => NativePredicate::Empty,
            Statement::ValueOf(..) => NativePredicate::ValueOf,
            Statement::Equal(..) => NativePredicate::Equal,
            Statement::NotEqual(..) => NativePredicate::NotEqual,
            Statement::Gt(..) => NativePredicate::Gt,
            Statement::Lt(..) => NativePredicate::Lt,
            Statement::Contains(..) => NativePredicate::Contains,
            Statement::NotContains(..) => NativePredicate::NotContains,
            Statement::SumOf(..) => NativePredicate::SumOf,
            Statement::ProductOf(..) => NativePredicate::ProductOf,
            Statement::MaxOf(..) => NativePredicate::MaxOf,
        }
    }

    /// The statement's arguments in order.
    pub open spec fn spec_args(&self) -> Seq<StatementArg> {
        match *self {
            Statement::Empty => seq![],
            Statement::ValueOf(a, v) => seq![StatementArg::Key(a), StatementArg::Literal(v)],
            Statement::Equal(a, b) => seq![StatementArg::Key(a), StatementArg::Key(b)],
            Statement::NotEqual(a, b) => seq![StatementArg::Key(a), StatementArg::Key(b)],
            Statement::Gt(a, b) => seq![StatementArg::Key(a), StatementArg::Key(b)],
            Statement::Lt(a, b) => seq![StatementArg::Key(a), StatementArg::Key(b)],
            Statement::Contains(a, b) => seq![StatementArg::Key(a), StatementArg::Key(b)],
            Statement::NotContains(a, b) => seq![StatementArg::Key(a), StatementArg::Key(b)],
            Statement::SumOf(a, b, c) => seq![
                StatementArg::Key(a),
                StatementArg::Key(b),
                StatementArg::Key(c),
            ],
            Statement::ProductOf(a, b, c) => seq![
                StatementArg::Key(a),
                StatementArg::Key(b),
                StatementArg::Key(c),
            ],
            Statement::MaxOf(a, b, c) => seq![
                StatementArg::Key(a),
                StatementArg::Key(b),
                StatementArg::Key(c),
            ],
        }
    }

    pub fn is_none(&self) -> (r: bool)
        ensures
            r == (*self is Empty),
    {
        matches!(self, Statement::Empty)
    }

    /// The statement's predicate.
    pub fn code(&self) -> (r: NativePredicate)
        ensures
            r == self.spec_code(),
    {
        match self {
            Statement::Empty => NativePredicate::Empty,
            Statement::ValueOf(..) => NativePredicate::ValueOf,
            Statement::Equal(..) => NativePredicate::Equal,
            Statement::NotEqual(..) => NativePredicate::NotEqual,
            Statement::Gt(..) => NativePredicate::Gt,
            Statement::Lt(..) => NativePredicate::Lt,
            Statement::Contains(..) => NativePredicate::Contains,
            Statement::NotContains(..) => NativePredicate::NotContains,
            Statement::SumOf(..) => NativePredicate::SumOf,
            Statement::ProductOf(..) => NativePredicate::ProductOf,
            Statement::MaxOf(..) => NativePredicate::MaxOf,
        }
    }

    /// The statement's arguments in order.
    pub fn args(&self) -> (r: Vec<StatementArg>)
        ensures
            r@ == self.spec_args(),
    {
        let r = match *self {
            Statement::Empty => vec![],
            Statement::ValueOf(a, v) => vec![StatementArg::Key(a), StatementArg::Literal(v)],
            Statement::Equal(a, b) => vec![StatementArg::Key(a), StatementArg::Key(b)],
            Statement::NotEqual(a, b) => vec![StatementArg::Key(a), StatementArg::Key(b)],
            Statement::Gt(a, b) => vec![StatementArg::Key(a), StatementArg::Key(b)],
            Statement::Lt(a, b) => vec![StatementArg::Key(a), StatementArg::Key(b)],
            Statement::Contains(a, b) => vec![StatementArg::Key(a), StatementArg::Key(b)],
            Statement::NotContains(a, b) => vec![StatementArg::Key(a), StatementArg::Key(b)],
            Statement::SumOf(a, b, c) => vec![
                StatementArg::Key(a),
                StatementArg::Key(b),
                StatementArg::Key(c),
            ],
            Statement::ProductOf(a, b, c) => vec![
                StatementArg::Key(a),
                StatementArg::Key(b),
                StatementArg::Key(c),
            ],
            Statement::MaxOf(a, b, c) => vec![
                StatementArg::Key(a),
                StatementArg::Key(b),
                StatementArg::Key(c),
            ],
        };
        proof {
            assert(r@ =~= self.spec_args());
        }
        r
    }

    /// The canonical field-element encoding: the predicate code, then each argument's eight
    /// elements, then eight zeros for every argument slot left unused.
    pub open spec fn spec_fields(&self, max_args: nat) -> Seq<u64> {
        seq![self.spec_code().spec_code()] + args_fields(self.spec_args()) + Seq::new(
            ((max_args - self.spec_args().len()) * 8) as nat,
            |i: int| 0u64,
        )
    }

    /// Serialises the statement to exactly `1 + max_statement_args * 8` field elements.
    pub fn to_fields(&self, params: &Params) -> (r: Vec<u64>)
        requires
            self.spec_args().len() <= params.max_statement_args,
            params.max_statement_args <= (usize::MAX - 1) / 8,
        ensures
            r@ == self.spec_fields(params.max_statement_args as nat),
            r@.len() == 1 + params.max_statement_args * 8,
    {
        let args = self.args();
        let mut r: Vec<u64> = Vec::new();
        r.push(self.code().code());
        let mut i: usize = 0;
        while i < args.len()
            invariant
                args@ == self.spec_args(),
                i <= args@.len(),
                r@ == seq![self.spec_code().spec_code()] + args_fields(args@.take(i as int)),
            decreases args.len() - i,
        {
            let mut f = args[i].to_fields();
            proof {
                lemma_args_fields_push(args@.take(i as int), args@[i as int]);
                assert(args@.take(i as int).push(args@[i as int]) =~= args@.take(i + 1));
            }
            r.append(&mut f);
            i = i + 1;
        }
        assert(args@.take(args@.len() as int) =~= args@);
        let pad = (params.max_statement_args - args.len()) * STATEMENT_ARG_F_LEN;
        let ghost before = r@;
        let mut j: usize = 0;
        while j < pad
            invariant
                j <= pad,
                r@ == before + Seq::new(j as nat, |k: int| 0u64),
            decreases pad - j,
        {
            r.push(0);
            j = j + 1;
            proof {
                assert(r@ =~= before + Seq::new(j as nat, |k: int| 0u64));
            }
        }
        proof {
            lemma_args_fields_len(self.spec_args());
            assert(r@ =~= self.spec_fields(params.max_statement_args as nat));
        }
        r
    }
}

/// The eight field elements of one argument.
pub open spec fn arg_fields(a: StatementArg) -> Seq<u64> {
    match a {
        StatementArg::Empty => Seq::new(8, |i: int| 0u64),
        StatementArg::Literal(v) => v.limbs() + seq![0u64, 0u64, 0u64, 0u64],
        StatementArg::Key(ak) => ak.0.0.limbs() + ak.1.limbs(),
    }
}

/// The concatenated field elements of a list of arguments.
pub open spec fn args_fields(args: Seq<StatementArg>) -> Seq<u64>
    decreases args.len(),
{
    if args.len() == 0 {
        seq![]
    } else {
        args_fields(args.drop_last()) + arg_fields(args.last())
    }
}

proof fn lemma_args_fields_push(args: Seq<StatementArg>, a: StatementArg)
    ensures
        args_fields(args.push(a)) == args_fields(args) + arg_fields(a),
{
    assert(args.push(a).drop_last() =~= args);
}

proof fn lemma_args_fields_len(args: Seq<StatementArg>)
    ensures
        args_fields(args).len() == 8 * args.len(),
    decreases args.len(),
{
    if args.len() > 0 {
        lemma_args_fields_len(args.drop_last());
    }
}

impl StatementArg {
    pub fn is_none(&self) -> (r: bool)
        ensures
            r == (*self is Empty),
    {
        matches!(self, StatementArg::Empty)
    }

    /// The literal value of the argument.
    pub fn literal(&self) -> (r: Result<Value, Error>)
        ensures
            match *self {
                StatementArg::Literal(v) => r == Ok::<Value, Error>(v),
                _ => r == Err::<Value, Error>(Error::ArgumentNotLiteral),
            },
    {
        match *self {
            StatementArg::Literal(v) => Ok(v),
            _ => Err(Error::ArgumentNotLiteral),
        }
    }

    /// The anchored key of the argument.
    pub fn key(&self) -> (r: Result<AnchoredKey, Error>)
        ensures
            match *self {
                StatementArg::Key(ak) => r == Ok::<AnchoredKey, Error>(ak),
                _ => r == Err::<AnchoredKey, Error>(Error::ArgumentNotKey),
            },
    {
        match *self {
            StatementArg::Key(ak) => Ok(ak),
            _ => Err(Error::ArgumentNotKey),
        }
    }

    /// The argument's eight field elements.
    pub fn to_fields(&self) -> (r: Vec<u64>)
        ensures
            r@ == arg_fields(*self),
            r@.len() == STATEMENT_ARG_F_LEN,
    {
        let r = match *self {
            StatementArg::Empty => vec![0, 0, 0, 0, 0, 0, 0, 0],
            StatementArg::Literal(v) => vec![v.0, v.1, v.2, v.3, 0, 0, 0, 0],
            StatementArg::Key(ak) => {
                let p = ak.0.0;
                let k = ak.1;
                vec![p.0, p.1, p.2, p.3, k.0, k.1, k.2, k.3]
            },
        };
        proof {
            assert(r@ =~= arg_fields(*self));
        }
        r
    }
}

} // verus!
