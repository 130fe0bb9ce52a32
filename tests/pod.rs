use pod2::error::Error;
use pod2::operation::{NativeOperation, Operation};
use pod2::pod::{
    fill_pad, find_op_arg, MainPodInputs, MockMainPod, MockSignedPod, NonePod, OperationArg,
    OperationRef, Pod,
};
use pod2::statement::{AnchoredKey, Statement};
use pod2::value::{Params, PodId, Value};

fn key(n: u64) -> AnchoredKey {
    AnchoredKey(PodId(pod2::value::Hash(9, 0, 0, 0)), pod2::value::Hash(n, 0, 0, 0))
}

fn signed(n: u64) -> Pod {
    Pod::Signed(MockSignedPod {
        id: PodId(pod2::value::Hash(9, 0, 0, 0)),
        kvs: vec![(pod2::value::Hash(n, 0, 0, 0), Value::from_i64(n as i64))],
    })
}

fn inputs(signed_pods: Vec<Pod>, statements: Vec<Statement>, operations: Vec<Operation>) -> MainPodInputs {
    MainPodInputs {
        signed_pods,
        main_pods: vec![],
        statements,
        operations,
        public_statements: vec![],
    }
}

#[test]
fn padding_fills_to_length() {
    let mut v = vec![1u8, 2];
    fill_pad(&mut v, 0, 5);
    assert_eq!(v, vec![1, 2, 0, 0, 0]);
    let mut w: Vec<u8> = vec![];
    fill_pad(&mut w, 7, 0);
    assert!(w.is_empty());
}

#[test]
fn table_layout_and_references() {
    let params = Params::default();
    let st = Statement::Equal(key(1), key(1));
    let op = Operation::EqualFromEntries(
        Statement::ValueOf(key(1), Value::from_i64(1)),
        Statement::ValueOf(key(1), Value::from_i64(1)),
    );
    let pod = MockMainPod::new(&params, inputs(vec![signed(1)], vec![st], vec![op])).unwrap();
    assert_eq!(pod.statements.len(), 3 * 8 + 3 * 10 + 20);
    assert_eq!(pod.statements[0], Statement::ValueOf(key(1), Value::from_i64(1)));
    assert_eq!(pod.statements[1], Statement::Empty);
    assert_eq!(pod.statements[54], st);
    assert_eq!(pod.operations[0].0, NativeOperation::EqualFromEntries);
    assert_eq!(
        pod.operations[0].1,
        vec![
            OperationRef::Index(0),
            OperationRef::Index(0),
            OperationRef::Empty,
            OperationRef::Empty,
            OperationRef::Empty
        ]
    );
    assert_eq!(pod.operations[1].0, NativeOperation::Empty);
    assert!(pod.verify());
    assert_eq!(
        find_op_arg(&pod.statements, &OperationArg::Key(key(1))),
        Some(OperationRef::Index(0))
    );
    assert_eq!(find_op_arg(&pod.statements, &OperationArg::Key(key(2))), None);
    assert_eq!(find_op_arg(&pod.statements, &OperationArg::Empty), Some(OperationRef::Empty));
}

#[test]
fn main_pod_bounds() {
    let params = Params::default();
    let four = vec![signed(1), signed(2), signed(3), signed(4)];
    assert_eq!(
        MockMainPod::new(&params, inputs(four, vec![], vec![])).err(),
        Some(Error::BoundExceeded)
    );
    let unresolved = Operation::CopyStatement(Statement::Equal(key(5), key(6)));
    assert_eq!(
        MockMainPod::new(&params, inputs(vec![], vec![Statement::Empty], vec![unresolved])).err(),
        Some(Error::KeyNotFound)
    );
    assert_eq!(
        MockMainPod::new(&params, inputs(vec![], vec![Statement::Empty], vec![])).err(),
        Some(Error::BoundExceeded)
    );
}

#[test]
fn none_pod_is_padding() {
    let p = Pod::Empty(NonePod {});
    assert!(p.verify::<NoHash>());
    assert_eq!(p.id(), PodId::null());
    assert!(p.pub_statements().is_empty());
    assert!(p.kvs().is_empty());
}

struct NoHash;

impl pod2::hash::Hasher for NoHash {
    // placeholder for a ghost item that only verification reads; never called
    fn spec_hash(input: pod2::hash::FieldElements) -> pod2::hash::FieldElements {
        input
    }

    fn hash_no_pad(input: &[u64]) -> [u64; 4] {
        let mut s = [0u64; 4];
        for (i, x) in input.iter().enumerate() {
            s[i % 4] = s[i % 4].wrapping_mul(31).wrapping_add(*x) % 0xffff_ffff_0000_0001;
        }
        s
    }
}
