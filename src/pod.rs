use vstd::prelude::*;

use crate::error::Error;
use crate::operation::{check_outcome, fits_shape, NativeOperation, Operation};
use crate::statement::{AnchoredKey, Statement};
use crate::value::{Params, PodId, Value};

verus! {

/// Fills `v` with copies of `pad_value` up to length `len`.
pub fn fill_pad<T: Copy>(v: &mut Vec<T>, pad_value: T, len: usize)
    requires
        old(v)@.len() <= len,
    ensures
        final(v)@ == old(v)@ + Seq::new((len - old(v)@.len()) as nat, |i: int| pad_value),
{
    let ghost start = v@;
    while v.len() < len
        invariant
            start.len() <= v@.len() <= len,
            v@ == start + Seq::new((v@.len() - start.len()) as nat, |i: int| pad_value),
        decreases len - v.len(),
    {
        v.push(pad_value);
        assert(v@ =~= start + Seq::new((v@.len() - start.len()) as nat, |i: int| pad_value));
    }
}

/// The padding pod: no statements, id `NULL`, always valid.
#[derive(Clone, Copy, Debug)]
pub struct NonePod {}

impl NonePod {
    pub fn verify(&self) -> (r: bool)
        ensures
            r,
    {
        true
    }

    pub fn id(&self) -> (r: PodId)
        ensures
            r == PodId(crate::value::null_hash()),
    {
        PodId::null()
    }

    pub fn pub_statements(&self) -> (r: Vec<Statement>)
        ensures
            r@.len() == 0,
    {
        Vec::new()
    }
}

/// The public statements of a signed pod: one `ValueOf` per entry, anchored at the pod.
pub open spec fn signed_statements(id: PodId, kvs: Seq<(crate::value::Hash, Value)>) -> Seq<Statement> {
    kvs.map_values(|p: (crate::value::Hash, Value)| Statement::ValueOf(AnchoredKey(id, p.0), p.1))
}

/// A signed pod of the mock signer: its entries and the id that commits to them.
#[derive(Clone, Debug)]
pub struct MockSignedPod {
    pub id: PodId,
    pub kvs: Vec<(crate::value::Hash, Value)>,
}

impl MockSignedPod {
    pub fn pub_statements(&self) -> (r: Vec<Statement>)
        ensures
            r@ == signed_statements(self.id, self.kvs@),
    {
        let mut r: Vec<Statement> = Vec::new();
        let mut i: usize = 0;
        while i < self.kvs.len()
            invariant
                i <= self.kvs@.len(),
                r@ == signed_statements(self.id, self.kvs@.take(i as int)),
            decreases self.kvs.len() - i,
        {
            let (k, v) = self.kvs[i];
            r.push(Statement::ValueOf(AnchoredKey(self.id, k), v));
            i = i + 1;
            proof {
                assert(r@ =~= signed_statements(self.id, self.kvs@.take(i as int)));
            }
        }
        proof {
            assert(self.kvs@.take(self.kvs@.len() as int) =~= self.kvs@);
        }
        r
    }
}

/// A reference from an operation to a statement of the flat table, before resolution.
#[derive(Clone, Copy, Debug, PartialEq, Eq, Structural)]
pub enum OperationArg {
    Empty,
    Key(AnchoredKey),
    Statement(Statement),
}

/// A resolved reference: the index of a slot of the flat statement table.
#[derive(Clone, Copy, Debug, PartialEq, Eq, Structural)]
pub enum OperationRef {
    Empty,
    Index(usize),
}

/// An operation of the compiled table: its code and one reference per argument slot.
#[derive(Clone, Debug)]
pub struct FlatOperation(pub NativeOperation, pub Vec<OperationRef>);

/// A main pod built by the mock prover: the fixed-shape statement table and the resolved
/// operations of its local statements.
pub struct MockMainPod {
    pub params: Params,
    pub id: PodId,
    pub input_signed_pods: Vec<Pod>,
    pub input_main_pods: Vec<Pod>,
    pub public_statements: Vec<Statement>,
    pub statements: Vec<Statement>,
    pub operations: Vec<FlatOperation>,
}

/// A pod: the closed set of kinds the library knows.
pub enum Pod {
    Empty(NonePod),
    Signed(MockSignedPod),
    Main(MockMainPod),
}

impl Pod {
    pub open spec fn spec_id(&self) -> PodId {
        match self {
            Pod::Empty(_) => PodId(crate::value::null_hash()),
            Pod::Signed(p) => p.id,
            Pod::Main(p) => p.id,
        }
    }

    pub open spec fn spec_pub_statements(&self) -> Seq<Statement> {
        match self {
            Pod::Empty(_) => seq![],
            Pod::Signed(p) => signed_statements(p.id, p.kvs@),
            Pod::Main(p) => p.public_statements@,
        }
    }

    pub fn id(&self) -> (r: PodId)
        ensures
            r == self.spec_id(),
    {
        match self {
            Pod::Empty(p) => p.id(),
            Pod::Signed(p) => p.id,
            Pod::Main(p) => p.id,
        }
    }

    pub fn pub_statements(&self) -> (r: Vec<Statement>)
        ensures
            r@ == self.spec_pub_statements(),
    {
        match self {
            Pod::Empty(p) => p.pub_statements(),
            Pod::Signed(p) => p.pub_statements(),
            Pod::Main(p) => {
                let mut r: Vec<Statement> = Vec::new();
                let mut i: usize = 0;
                while i < p.public_statements.len()
                    invariant
                        i <= p.public_statements@.len(),
                        r@ == p.public_statements@.take(i as int),
                    decreases p.public_statements.len() - i,
                {
                    r.push(p.public_statements[i]);
                    i = i + 1;
                    assert(r@ =~= p.public_statements@.take(i as int));
                }
                assert(p.public_statements@.take(p.public_statements@.len() as int)
                    =~= p.public_statements@);
                r
            },
        }
    }

    /// The entries that the pod's public `ValueOf` statements state, in order.
    pub fn kvs(&self) -> (r: Vec<(AnchoredKey, Value)>)
        ensures
            r@ == value_entries(self.spec_pub_statements()),
    {
        let sts = self.pub_statements();
        let mut r: Vec<(AnchoredKey, Value)> = Vec::new();
        let mut i: usize = 0;
        while i < sts.len()
            invariant
                i <= sts@.len(),
                r@ == value_entries(sts@.take(i as int)),
            decreases sts.len() - i,
        {
            proof {
                assert(sts@.take(i + 1).drop_last() =~= sts@.take(i as int));
            }
            match sts[i] {
                Statement::ValueOf(ak, v) => r.push((ak, v)),
                _ => {},
            }
            i = i + 1;
        }
        proof {
            assert(sts@.take(sts@.len() as int) =~= sts@);
        }
        r
    }
}

/// The entries stated by the `ValueOf` statements of a list, in order.
pub open spec fn value_entries(s: Seq<Statement>) -> Seq<(AnchoredKey, Value)>
    decreases s.len(),
{
    if s.len() == 0 {
        seq![]
    } else {
        let rest = value_entries(s.drop_last());
        match s.last() {
            Statement::ValueOf(ak, v) => rest.push((ak, v)),
            _ => rest,
        }
    }
}

/// A row of the table: the first `n` statements of `s`, padded with empty statements.
pub open spec fn padded_row(s: Seq<Statement>, n: nat) -> Seq<Statement> {
    Seq::new(n, |j: int| if j < s.len() { s[j] } else { Statement::Empty })
}

/// A region of the table: one padded row of width `width` for each of `count` pods; a pod
/// missing from `pods` gives an empty row.
pub open spec fn region(pods: Seq<Seq<Statement>>, count: nat, width: nat) -> Seq<Statement>
    decreases count,
{
    if count == 0 {
        seq![]
    } else {
        region(pods, (count - 1) as nat, width) + padded_row(
            if count - 1 < pods.len() {
                pods[count - 1]
            } else {
                seq![]
            },
            width,
        )
    }
}

/// The flat statement table: the signed-pod region, the main-pod region, then the local
/// statements.
pub open spec fn layout(
    params: Params,
    signed: Seq<Seq<Statement>>,
    main: Seq<Seq<Statement>>,
    local: Seq<Statement>,
) -> Seq<Statement> {
    region(signed, params.max_input_signed_pods as nat, params.max_signed_pod_values as nat)
        + region(main, params.max_input_main_pods as nat, params.max_public_statements as nat)
        + padded_row(local, params.max_statements as nat)
}

/// The public statements of each pod of a list.
pub open spec fn pods_statements(pods: Seq<Pod>) -> Seq<Seq<Statement>> {
    pods.map_values(|p: Pod| p.spec_pub_statements())
}

/// Appends one region of padded rows to `out`.
fn push_region(out: &mut Vec<Statement>, pods: &Vec<Pod>, count: usize, width: usize)
    ensures
        final(out)@ == old(out)@ + region(pods_statements(pods@), count as nat, width as nat),
{
    let ghost start = out@;
    let ghost ps = pods_statements(pods@);
    let mut i: usize = 0;
    while i < count
        invariant
            i <= count,
            ps == pods_statements(pods@),
            out@ == start + region(ps, i as nat, width as nat),
        decreases count - i,
    {
        let sts = if i < pods.len() {
            pods[i].pub_statements()
        } else {
            Vec::new()
        };
        let ghost row_src = if i < ps.len() {
            ps[i as int]
        } else {
            seq![]
        };
        assert(sts@ == row_src);
        let ghost before = out@;
        let mut j: usize = 0;
        while j < width
            invariant
                j <= width,
                sts@ == row_src,
                out@ == before + padded_row(row_src, width as nat).take(j as int),
            decreases width - j,
        {
            let st = if j < sts.len() {
                sts[j]
            } else {
                Statement::Empty
            };
            out.push(st);
            j = j + 1;
            assert(out@ =~= before + padded_row(row_src, width as nat).take(j as int));
        }
        assert(padded_row(row_src, width as nat).take(width as int) =~= padded_row(
            row_src,
            width as nat,
        ));
        i = i + 1;
        assert(out@ =~= start + region(ps, i as nat, width as nat));
    }
}

/// Lays out the flat statement table of a main pod.
pub fn layout_statements(
    params: &Params,
    signed_pods: &Vec<Pod>,
    main_pods: &Vec<Pod>,
    statements: &Vec<Statement>,
) -> (r: Vec<Statement>)
    ensures
        r@ == layout(
            *params,
            pods_statements(signed_pods@),
            pods_statements(main_pods@),
            statements@,
        ),
{
    let mut out: Vec<Statement> = Vec::new();
    push_region(&mut out, signed_pods, params.max_input_signed_pods, params.max_signed_pod_values);
    push_region(&mut out, main_pods, params.max_input_main_pods, params.max_public_statements);
    let ghost before = out@;
    let mut j: usize = 0;
    while j < params.max_statements
        invariant
            j <= params.max_statements,
            out@ == before + padded_row(statements@, params.max_statements as nat).take(j as int),
        decreases params.max_statements - j,
    {
        let st = if j < statements.len() {
            statements[j]
        } else {
            Statement::Empty
        };
        out.push(st);
        j = j + 1;
        assert(out@ =~= before + padded_row(statements@, params.max_statements as nat).take(
            j as int,
        ));
    }
    assert(padded_row(statements@, params.max_statements as nat).take(
        params.max_statements as int,
    ) =~= padded_row(statements@, params.max_statements as nat));
    assert(out@ =~= layout(
        *params,
        pods_statements(signed_pods@),
        pods_statements(main_pods@),
        statements@,
    ));
    out
}

/// Whether a slot's statement is what an operation argument refers to: the `ValueOf` of an
/// anchored key, or a statement equal to the given one.
pub open spec fn refers_to(arg: OperationArg, st: Statement) -> bool {
    match arg {
        OperationArg::Empty => false,
        OperationArg::Key(k) => st matches Statement::ValueOf(k2, _) && k2 == k,
        OperationArg::Statement(s) => st == s,
    }
}

/// `i` is the first slot that `arg` refers to.
pub open spec fn first_slot(statements: Seq<Statement>, arg: OperationArg, i: int) -> bool {
    &&& 0 <= i < statements.len()
    &&& refers_to(arg, statements[i])
    &&& forall|j: int| 0 <= j < i ==> !refers_to(arg, #[trigger] statements[j])
}

/// Resolves an operation argument to the first slot that it refers to.
pub fn find_op_arg(statements: &Vec<Statement>, op_arg: &OperationArg) -> (r: Option<OperationRef>)
    ensures
        *op_arg is Empty ==> r == Some(OperationRef::Empty),
        !(*op_arg is Empty) ==> match r {
            Some(OperationRef::Index(i)) => first_slot(statements@, *op_arg, i as int),
            Some(OperationRef::Empty) => false,
            None => forall|j: int| 0 <= j < statements@.len() ==> !refers_to(*op_arg, #[trigger] statements@[j]),
        },
{
    if let OperationArg::Empty = op_arg {
        return Some(OperationRef::Empty);
    }
    let mut i: usize = 0;
    while i < statements.len()
        invariant
            i <= statements@.len(),
            !(*op_arg is Empty),
            forall|j: int| 0 <= j < i ==> !refers_to(*op_arg, #[trigger] statements@[j]),
        decreases statements.len() - i,
    {
        let hit = match (op_arg, &statements[i]) {
            (OperationArg::Key(k), Statement::ValueOf(k2, _)) => *k2 == *k,
            (OperationArg::Statement(s), st) => *s == *st,
            _ => false,
        };
        if hit {
            return Some(OperationRef::Index(i));
        }
        i = i + 1;
    }
    None
}

/// The operation in local slot `i`: the given one, or the empty operation as padding.
pub open spec fn slot_op(ops: Seq<Operation>, i: int) -> Operation {
    if 0 <= i < ops.len() {
        ops[i]
    } else {
        Operation::Empty
    }
}

/// Some slot holds a statement equal to `st`.
pub open spec fn has_slot(statements: Seq<Statement>, st: Statement) -> bool {
    exists|x: int| 0 <= x < statements.len() && statements[x] == st
}

/// Every argument of an operation refers to some slot, and the operation has no more
/// arguments than the configured bound.
pub open spec fn resolvable(params: Params, statements: Seq<Statement>, op: Operation) -> bool {
    &&& op.spec_args().len() <= params.max_operation_args
    &&& forall|j: int|
        0 <= j < op.spec_args().len() ==> has_slot(statements, #[trigger] op.spec_args()[j])
}

/// The resolved references of an operation: the first slot of each argument, then empty
/// references up to `width`.
pub open spec fn refs_resolved(
    statements: Seq<Statement>,
    op: Operation,
    refs: Seq<OperationRef>,
    width: nat,
) -> bool {
    &&& refs.len() == width
    &&& forall|j: int|
        0 <= j < width ==> if j < op.spec_args().len() {
            (#[trigger] refs[j] matches OperationRef::Index(x) && first_slot(
                statements,
                OperationArg::Statement(op.spec_args()[j]),
                x as int,
            ))
        } else {
            refs[j] == OperationRef::Empty
        }
}

/// Resolves the operations of the local slots against the flat statement table.
pub fn process_operations(
    params: &Params,
    statements: &Vec<Statement>,
    input_operations: &Vec<Operation>,
) -> (r: Result<Vec<FlatOperation>, Error>)
    ensures
        r.is_ok() <==> forall|i: int|
            0 <= i < params.max_statements ==> resolvable(
                *params,
                statements@,
                #[trigger] slot_op(input_operations@, i),
            ),
        r matches Ok(v) ==> v@.len() == params.max_statements && forall|i: int|
            0 <= i < params.max_statements ==> (#[trigger] v@[i]).0 == slot_op(
                input_operations@,
                i,
            ).spec_code() && refs_resolved(
                statements@,
                slot_op(input_operations@, i),
                v@[i].1@,
                params.max_operation_args as nat,
            ),
        r matches Err(e) ==> e == Error::BoundExceeded || e == Error::KeyNotFound,
{
    let mut out: Vec<FlatOperation> = Vec::new();
    let mut i: usize = 0;
    while i < params.max_statements
        invariant
            i <= params.max_statements,
            out@.len() == i,
            forall|k: int| 0 <= k < i ==> resolvable(*params, statements@, #[trigger] slot_op(input_operations@, k)),
            forall|k: int|
                0 <= k < i ==> (#[trigger] out@[k]).0 == slot_op(input_operations@, k).spec_code()
                    && refs_resolved(
                    statements@,
                    slot_op(input_operations@, k),
                    out@[k].1@,
                    params.max_operation_args as nat,
                ),
        decreases params.max_statements - i,
    {
        let op = if i < input_operations.len() {
            input_operations[i]
        } else {
            Operation::Empty
        };
        assert(op == slot_op(input_operations@, i as int));
        let args = op.args();
        if args.len() > params.max_operation_args {
            proof {
                assert(!resolvable(*params, statements@, slot_op(input_operations@, i as int)));
            }
            return Err(Error::BoundExceeded);
        }
        let mut refs: Vec<OperationRef> = Vec::new();
        let mut j: usize = 0;
        while j < params.max_operation_args
            invariant
                j <= params.max_operation_args,
                op == slot_op(input_operations@, i as int),
                i < params.max_statements,
                args@ == op.spec_args(),
                args@.len() <= params.max_operation_args,
                refs@.len() == j,
                forall|l: int|
                    0 <= l < j ==> if l < op.spec_args().len() {
                        (#[trigger] refs@[l] matches OperationRef::Index(x) && first_slot(
                            statements@,
                            OperationArg::Statement(op.spec_args()[l]),
                            x as int,
                        ))
                    } else {
                        refs@[l] == OperationRef::Empty
                    },
                forall|l: int|
                    0 <= l < j && l < op.spec_args().len() ==> has_slot(
                        statements@,
                        #[trigger] op.spec_args()[l],
                    ),
            decreases params.max_operation_args - j,
        {
            if j < args.len() {
                match find_op_arg(statements, &OperationArg::Statement(args[j])) {
                    Some(r) => {
                        refs.push(r);
                        proof {
                            if let OperationRef::Index(x) = r {
                                assert(statements@[x as int] == op.spec_args()[j as int]);
                            }
                        }
                    },
                    None => {
                        proof {
                            assert(!has_slot(statements@, op.spec_args()[j as int]));
                            assert(!resolvable(*params, statements@, op));
                            assert(!resolvable(
                                *params,
                                statements@,
                                slot_op(input_operations@, i as int),
                            ));
                        }
                        return Err(Error::KeyNotFound);
                    },
                }
            } else {
                refs.push(OperationRef::Empty);
            }
            j = j + 1;
        }
        proof {
            assert(resolvable(*params, statements@, op));
        }
        out.push(FlatOperation(op.code(), refs));
        i = i + 1;
    }
    Ok(out)
}

/// What a main pod is built from: its input pods, its local statements with their
/// operations, and the statements it makes public.
pub struct MainPodInputs {
    pub signed_pods: Vec<Pod>,
    pub main_pods: Vec<Pod>,
    pub statements: Vec<Statement>,
    pub operations: Vec<Operation>,
    pub public_statements: Vec<Statement>,
}

/// Pods, local statements, operations and public statements fit the configured bounds.
pub open spec fn bounds_ok(
    params: Params,
    signed: Seq<Pod>,
    main: Seq<Pod>,
    n_statements: nat,
    n_operations: nat,
    n_public: nat,
) -> bool {
    &&& signed.len() <= params.max_input_signed_pods
    &&& main.len() <= params.max_input_main_pods
    &&& forall|i: int|
        0 <= i < signed.len() ==> (#[trigger] signed[i]).spec_pub_statements().len()
            <= params.max_signed_pod_values
    &&& forall|i: int|
        0 <= i < main.len() ==> (#[trigger] main[i]).spec_pub_statements().len()
            <= params.max_public_statements
    &&& n_statements <= params.max_statements
    &&& n_operations == n_statements
    &&& n_public <= params.max_public_statements
}

/// The inputs fit the configured bounds.
pub open spec fn inputs_within_bounds(params: Params, inputs: MainPodInputs) -> bool {
    bounds_ok(
        params,
        inputs.signed_pods@,
        inputs.main_pods@,
        inputs.statements@.len(),
        inputs.operations@.len(),
        inputs.public_statements@.len(),
    )
}

/// Every local slot's operation can be resolved against the table.
pub open spec fn all_resolvable(params: Params, table: Seq<Statement>, ops: Seq<Operation>) -> bool {
    forall|i: int| 0 <= i < params.max_statements ==> resolvable(params, table, #[trigger] slot_op(ops, i))
}

fn pods_within(pods: &Vec<Pod>, width: usize) -> (r: bool)
    ensures
        r == forall|i: int| 0 <= i < pods@.len() ==> (#[trigger] pods@[i]).spec_pub_statements().len() <= width,
{
    let mut i: usize = 0;
    while i < pods.len()
        invariant
            i <= pods@.len(),
            forall|k: int| 0 <= k < i ==> (#[trigger] pods@[k]).spec_pub_statements().len() <= width,
        decreases pods.len() - i,
    {
        if pods[i].pub_statements().len() > width {
            return false;
        }
        i = i + 1;
    }
    true
}

/// `p` is the main pod compiled from the pods' public statements, the local statements, their
/// operations and the public statements: its table is their layout, and each local slot holds
/// the code of its operation with every argument resolved to the first slot that holds it.
pub open spec fn compiled_from_parts(
    params: Params,
    signed: Seq<Seq<Statement>>,
    main: Seq<Seq<Statement>>,
    statements: Seq<Statement>,
    operations: Seq<Operation>,
    public_statements: Seq<Statement>,
    p: MockMainPod,
) -> bool {
    &&& p.params == params
    &&& p.statements@ == layout(params, signed, main, statements)
    &&& p.operations@.len() == params.max_statements
    &&& forall|i: int|
        0 <= i < params.max_statements ==> (#[trigger] p.operations@[i]).0 == slot_op(
            operations,
            i,
        ).spec_code() && refs_resolved(
            p.statements@,
            slot_op(operations, i),
            p.operations@[i].1@,
            params.max_operation_args as nat,
        )
    &&& p.public_statements@ == public_statements
}

/// `p` is the main pod compiled from `inputs`, which fit the bounds.
pub open spec fn compiled_from(params: Params, inputs: MainPodInputs, p: MockMainPod) -> bool {
    &&& inputs_within_bounds(params, inputs)
    &&& compiled_from_parts(
        params,
        pods_statements(inputs.signed_pods@),
        pods_statements(inputs.main_pods@),
        inputs.statements@,
        inputs.operations@,
        inputs.public_statements@,
        p,
    )
}

proof fn lemma_first_slot_unique(statements: Seq<Statement>, arg: OperationArg, x: int, y: int)
    requires
        first_slot(statements, arg, x),
        first_slot(statements, arg, y),
    ensures
        x == y,
{
    if x < y {
        assert(!refers_to(arg, statements[x]));
    } else if y < x {
        assert(!refers_to(arg, statements[y]));
    }
}

/// Compiling is deterministic: two main pods compiled from the same inputs have the same
/// statement table and the same operations with the same resolved slot indices.
pub proof fn lemma_compile_deterministic(
    params: Params,
    inputs: MainPodInputs,
    p1: MockMainPod,
    p2: MockMainPod,
)
    requires
        compiled_from(params, inputs, p1),
        compiled_from(params, inputs, p2),
    ensures
        p1.statements@ == p2.statements@,
        p1.operations@.len() == p2.operations@.len(),
        forall|i: int|
            0 <= i < p1.operations@.len() ==> (#[trigger] p1.operations@[i]).0 == p2.operations@[i].0
                && p1.operations@[i].1@ == p2.operations@[i].1@,
{
    assert forall|i: int| 0 <= i < p1.operations@.len() implies (#[trigger] p1.operations@[i]).0
        == p2.operations@[i].0 && p1.operations@[i].1@ == p2.operations@[i].1@ by {
        let op = slot_op(inputs.operations@, i);
        let r1 = p1.operations@[i].1@;
        let r2 = p2.operations@[i].1@;
        assert(p2.operations@[i].0 == op.spec_code());
        assert forall|j: int| 0 <= j < r1.len() implies r1[j] == r2[j] by {
            if j < op.spec_args().len() {
                let x = r1[j]->Index_0;
                let y = r2[j]->Index_0;
                lemma_first_slot_unique(
                    p1.statements@,
                    OperationArg::Statement(op.spec_args()[j]),
                    x as int,
                    y as int,
                );
            }
        }
        assert(r1 =~= r2);
    }
}

impl MockMainPod {
    /// Compiles the inputs to the fixed-shape table: lays out the statements and resolves
    /// each operation's arguments to slot indices. Fails with `BoundExceeded` where the
    /// inputs exceed the configured bounds, and where an argument refers to no slot.
    pub fn new(params: &Params, inputs: MainPodInputs) -> (r: Result<MockMainPod, Error>)
        ensures
            !inputs_within_bounds(*params, inputs) ==> r == Err::<MockMainPod, Error>(
                Error::BoundExceeded,
            ),
            r matches Ok(p) ==> compiled_from(*params, inputs, p),
            inputs_within_bounds(*params, inputs) ==> (r.is_ok() <==> all_resolvable(
                *params,
                layout(
                    *params,
                    pods_statements(inputs.signed_pods@),
                    pods_statements(inputs.main_pods@),
                    inputs.statements@,
                ),
                inputs.operations@,
            )),
    {
        if inputs.signed_pods.len() > params.max_input_signed_pods || inputs.main_pods.len()
            > params.max_input_main_pods || !pods_within(
            &inputs.signed_pods,
            params.max_signed_pod_values,
        ) || !pods_within(&inputs.main_pods, params.max_public_statements)
            || inputs.statements.len() > params.max_statements || inputs.operations.len()
            != inputs.statements.len() || inputs.public_statements.len()
            > params.max_public_statements {
            return Err(Error::BoundExceeded);
        }
        let statements = layout_statements(
            params,
            &inputs.signed_pods,
            &inputs.main_pods,
            &inputs.statements,
        );
        let operations = match process_operations(params, &statements, &inputs.operations) {
            Ok(v) => v,
            Err(e) => return Err(e),
        };
        let MainPodInputs { signed_pods, main_pods, statements: _, operations: _, public_statements } =
            inputs;
        Ok(MockMainPod {
            params: *params,
            id: PodId::null(),
            input_signed_pods: signed_pods,
            input_main_pods: main_pods,
            public_statements,
            statements,
            operations,
        })
    }
}

/// The mock prover: builds a `MockMainPod` from the inputs.
pub struct MockProver {}

impl MockProver {
    /// Builds the main pod of the inputs; see `MockMainPod::new`.
    pub fn prove(&mut self, params: &Params, inputs: MainPodInputs) -> (r: Result<Pod, Error>)
        ensures
            !inputs_within_bounds(*params, inputs) ==> r == Err::<Pod, Error>(Error::BoundExceeded),
            inputs_within_bounds(*params, inputs) ==> (r.is_ok() <==> all_resolvable(
                *params,
                layout(
                    *params,
                    pods_statements(inputs.signed_pods@),
                    pods_statements(inputs.main_pods@),
                    inputs.statements@,
                ),
                inputs.operations@,
            )),
            r matches Ok(p) ==> (p matches Pod::Main(m) && compiled_from(*params, inputs, m)),
    {
        match MockMainPod::new(params, inputs) {
            Ok(p) => Ok(Pod::Main(p)),
            Err(e) => Err(e),
        }
    }
}

/// The entries a mock signer signs: the given ones, then its public key under `_signer` and
/// the pod type under `_type`.
pub open spec fn signed_entries<H: crate::hash::Hasher>(
    pk: Seq<char>,
    kvs: Seq<(crate::value::Hash, Value)>,
) -> Seq<(crate::value::Hash, Value)> {
    let signer = crate::hash::key_hash::<H>(pk);
    kvs.push(
        (
            crate::hash::key_hash::<H>(seq!['_', 's', 'i', 'g', 'n', 'e', 'r']),
            Value(signer.0, signer.1, signer.2, signer.3),
        ),
    ).push(
        (
            crate::hash::key_hash::<H>(seq!['_', 't', 'y', 'p', 'e']),
            crate::value::i64_embedding(crate::value::PodType::MockSigned.spec_code()),
        ),
    )
}

/// The signer of mock signed pods: the pod's id is the commitment of its entries.
pub struct MockSigner {
    pub pk: String,
}

impl MockSigner {
    /// Signs the entries: adds the signer and type entries and commits to all of them in a
    /// dictionary, whose root is the pod's id.
    pub fn sign<H: crate::hash::Hasher>(&self, params: &Params, kvs: &Vec<(crate::value::Hash, Value)>) -> (r: Result<Pod, Error>)
        ensures
            ({
                let all = signed_entries::<H>(self.pk@, kvs@);
                let items = crate::containers::dict_entries(all);
                &&& r.is_ok() <==> crate::merkle::distinct_keys(items) && crate::merkle::fits(
                    crate::merkle::entries(items),
                    0,
                    crate::containers::MAX_DEPTH as nat,
                )
                &&& r matches Ok(p) ==> (p matches Pod::Signed(sp) && sp.kvs@ == all && sp.id
                    == PodId(
                    crate::merkle::canon::<H>(
                        crate::merkle::entries(items),
                        0,
                        crate::containers::MAX_DEPTH as nat,
                    ).spec_hash(),
                ))
            }),
    {
        let mut all: Vec<(crate::value::Hash, Value)> = Vec::new();
        let mut i: usize = 0;
        while i < kvs.len()
            invariant
                i <= kvs@.len(),
                all@ == kvs@.take(i as int),
            decreases kvs.len() - i,
        {
            all.push(kvs[i]);
            i = i + 1;
            assert(all@ =~= kvs@.take(i as int));
        }
        proof {
            assert(kvs@.take(kvs@.len() as int) =~= kvs@);
            reveal_strlit("_signer");
            reveal_strlit("_type");
            assert("_signer"@ =~= seq!['_', 's', 'i', 'g', 'n', 'e', 'r']);
            assert("_type"@ =~= seq!['_', 't', 'y', 'p', 'e']);
        }
        let signer = crate::hash::hash_str::<H>(self.pk.as_str());
        all.push((crate::hash::hash_str::<H>("_signer"), Value::from_hash(signer)));
        all.push((crate::hash::hash_str::<H>("_type"), crate::value::PodType::MockSigned.to_value()));
        proof {
            assert(all@ =~= signed_entries::<H>(self.pk@, kvs@));
        }
        let dict = match crate::containers::Dictionary::<H>::new(&all) {
            Ok(d) => d,
            Err(e) => return Err(e),
        };
        let id = PodId(dict.commitment());
        Ok(Pod::Signed(MockSignedPod { id, kvs: all }))
    }
}

/// A signed pod is valid when its entries form a dictionary whose root is its id.
pub open spec fn signed_valid<H: crate::hash::Hasher>(p: MockSignedPod) -> bool {
    let items = crate::containers::dict_entries(p.kvs@);
    &&& crate::merkle::distinct_keys(items)
    &&& crate::merkle::fits(crate::merkle::entries(items), 0, crate::containers::MAX_DEPTH as nat)
    &&& p.id == PodId(
        crate::merkle::canon::<H>(
            crate::merkle::entries(items),
            0,
            crate::containers::MAX_DEPTH as nat,
        ).spec_hash(),
    )
}

impl MockSignedPod {
    /// Whether the id is the commitment of the pod's entries.
    pub fn verify<H: crate::hash::Hasher>(&self) -> (r: bool)
        ensures
            r == signed_valid::<H>(*self),
    {
        match crate::containers::Dictionary::<H>::new(&self.kvs) {
            Ok(d) => d.commitment() == self.id.0,
            Err(_) => false,
        }
    }
}

/// The statements that a slot's references point to, in order, skipping empty references;
/// `None` where an index lies outside the table.
pub open spec fn ref_statements(statements: Seq<Statement>, refs: Seq<OperationRef>) -> Option<Seq<Statement>>
    decreases refs.len(),
{
    if refs.len() == 0 {
        Some(seq![])
    } else {
        match ref_statements(statements, refs.drop_last()) {
            None => None,
            Some(prev) => match refs.last() {
                OperationRef::Empty => Some(prev),
                OperationRef::Index(x) => if x < statements.len() {
                    Some(prev.push(statements[x as int]))
                } else {
                    None
                },
            },
        }
    }
}

/// Local slot `i` is justified: its references point into the table, and the operation that
/// its code forms over the referenced statements derives the statement in the slot.
pub open spec fn slot_valid(p: MockMainPod, i: int) -> bool {
    let offset = p.statements@.len() - p.params.max_statements;
    let fo = p.operations@[i];
    match ref_statements(p.statements@, fo.1@) {
        None => false,
        Some(args) => fits_shape(args, fo.0.input_shape()) && exists|o: Operation|
            o.spec_code() == fo.0 && o.spec_args() == args && check_outcome(
                o,
                p.statements@[offset + i],
            ) == Ok::<bool, Error>(true),
    }
}

/// Every local slot of the pod is justified.
pub open spec fn pod_valid(p: MockMainPod) -> bool {
    &&& p.statements@.len() >= p.params.max_statements
    &&& p.operations@.len() == p.params.max_statements
    &&& forall|i: int| 0 <= i < p.params.max_statements ==> #[trigger] slot_valid(p, i)
}

proof fn lemma_op_injective(a: Operation, b: Operation)
    requires
        a.spec_code() == b.spec_code(),
        a.spec_args() == b.spec_args(),
    ensures
        a == b,
{
    let s = a.spec_args();
    if s.len() >= 1 {
        assert(a.spec_args()[0] == b.spec_args()[0]);
    }
    if s.len() >= 2 {
        assert(a.spec_args()[1] == b.spec_args()[1]);
    }
    if s.len() >= 3 {
        assert(a.spec_args()[2] == b.spec_args()[2]);
    }
}

impl MockMainPod {
    fn slot_ok(&self, i: usize) -> (r: bool)
        requires
            self.statements@.len() >= self.params.max_statements,
            self.operations@.len() == self.params.max_statements,
            i < self.params.max_statements,
        ensures
            r == slot_valid(*self, i as int),
    {
        let fo = &self.operations[i];
        let mut args: Vec<Statement> = Vec::new();
        let mut j: usize = 0;
        while j < fo.1.len()
            invariant
                j <= fo.1@.len(),
                i < self.params.max_statements,
                self.statements@.len() >= self.params.max_statements,
                self.operations@.len() == self.params.max_statements,
                *fo == self.operations@[i as int],
                ref_statements(self.statements@, fo.1@.take(j as int)) == Some(args@),
            decreases fo.1.len() - j,
        {
            proof {
                assert(fo.1@.take(j + 1).drop_last() =~= fo.1@.take(j as int));
            }
            match fo.1[j] {
                OperationRef::Empty => {},
                OperationRef::Index(x) => {
                    if x >= self.statements.len() {
                        proof {
                            lemma_ref_none(self.statements@, fo.1@, j as int + 1);
                            assert(fo.1@.take(fo.1@.len() as int) =~= fo.1@);
                            assert(ref_statements(self.statements@, fo.1@.take(fo.1@.len() as int))
                                == None::<Seq<Statement>>);
                        }
                        return false;
                    }
                    args.push(self.statements[x]);
                },
            }
            j = j + 1;
        }
        proof {
            assert(fo.1@.take(fo.1@.len() as int) =~= fo.1@);
        }
        let offset = self.statements.len() - self.params.max_statements;
        match Operation::op(fo.0, args.as_slice()) {
            Ok(o) => {
                let r = match o.check(&self.statements[offset + i]) {
                    Ok(b) => b,
                    Err(_) => false,
                };
                proof {
                    if !r {
                        assert forall|o2: Operation|
                            o2.spec_code() == fo.0 && o2.spec_args() == args@ implies check_outcome(
                            o2,
                            self.statements@[offset + i],
                        ) != Ok::<bool, Error>(true) by {
                            lemma_op_injective(o, o2);
                        }
                    }
                }
                r
            },
            Err(_) => false,
        }
    }

    /// Whether every local slot's operation derives the slot's statement from the statements
    /// its references point to.
    pub fn verify(&self) -> (r: bool)
        ensures
            r == pod_valid(*self),
    {
        if self.statements.len() < self.params.max_statements || self.operations.len()
            != self.params.max_statements {
            return false;
        }
        let mut i: usize = 0;
        while i < self.params.max_statements
            invariant
                i <= self.params.max_statements,
                self.statements@.len() >= self.params.max_statements,
                self.operations@.len() == self.params.max_statements,
                forall|k: int| 0 <= k < i ==> #[trigger] slot_valid(*self, k),
            decreases self.params.max_statements - i,
        {
            if !self.slot_ok(i) {
                return false;
            }
            i = i + 1;
        }
        true
    }
}

/// Once an index falls outside the table, the references do not resolve.
proof fn lemma_ref_none(statements: Seq<Statement>, refs: Seq<OperationRef>, n: int)
    requires
        0 < n <= refs.len(),
        refs[n - 1] matches OperationRef::Index(x) && x >= statements.len(),
    ensures
        forall|m: int| n <= m <= refs.len() ==> #[trigger] ref_statements(statements, refs.take(m)) == None::<Seq<Statement>>,
    decreases refs.len() - n,
{
    assert forall|m: int| n <= m <= refs.len() implies #[trigger] ref_statements(statements, refs.take(m)) == None::<Seq<Statement>> by {
        lemma_ref_none_at(statements, refs, n, m);
    }
}

proof fn lemma_ref_none_at(statements: Seq<Statement>, refs: Seq<OperationRef>, n: int, m: int)
    requires
        0 < n <= m <= refs.len(),
        refs[n - 1] matches OperationRef::Index(x) && x >= statements.len(),
    ensures
        ref_statements(statements, refs.take(m)) == None::<Seq<Statement>>,
    decreases m - n,
{
    if m > n {
        lemma_ref_none_at(statements, refs, n, m - 1);
        assert(refs.take(m).drop_last() =~= refs.take(m - 1));
    } else {
        assert(refs.take(m).drop_last() =~= refs.take(m - 1));
        assert(refs.take(m).last() == refs[n - 1]);
    }
}

impl Pod {
    /// Whether the pod verifies: the padding pod always does, a signed pod when its id commits
    /// to its entries, a main pod when every local slot is justified.
    pub fn verify<H: crate::hash::Hasher>(&self) -> (r: bool)
        ensures
            self matches Pod::Main(m) ==> r == pod_valid(*m),
            self matches Pod::Signed(p) ==> r == signed_valid::<H>(*p),
            self is Empty ==> r,
    {
        match self {
            Pod::Empty(p) => p.verify(),
            Pod::Signed(p) => p.verify::<H>(),
            Pod::Main(p) => p.verify(),
        }
    }
}

/// A signer of pods: commits to a map from key hashes to values and returns the signed pod.
/// The library assumes nothing of what an implementation returns.
pub trait PodSigner {
    fn sign_pod<H: crate::hash::Hasher>(
        &self,
        params: &Params,
        kvs: &Vec<(crate::value::Hash, Value)>,
    ) -> Result<Pod, Error>;
}

/// A prover of main pods: builds a pod from the compiled inputs. The library assumes nothing
/// of what an implementation returns.
pub trait PodProver {
    fn prove_pod(&mut self, params: &Params, inputs: MainPodInputs) -> Result<Pod, Error>;
}

impl PodSigner for MockSigner {
    fn sign_pod<H: crate::hash::Hasher>(
        &self,
        params: &Params,
        kvs: &Vec<(crate::value::Hash, Value)>,
    ) -> Result<Pod, Error> {
        self.sign::<H>(params, kvs)
    }
}

impl PodProver for MockProver {
    fn prove_pod(&mut self, params: &Params, inputs: MainPodInputs) -> Result<Pod, Error> {
        self.prove(params, inputs)
    }
}

} // verus!
