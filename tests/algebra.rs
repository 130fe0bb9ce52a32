use pod2::error::Error;
use pod2::operation::{NativeOperation, Operation};
use pod2::statement::{AnchoredKey, NativePredicate, Statement, StatementArg};
use pod2::value::{Params, PodId, PodType, Value};

fn pod(n: u64) -> PodId {
    PodId(pod2::value::Hash(n, 0, 0, 0))
}

fn ak(p: u64, k: u64) -> AnchoredKey {
    AnchoredKey(pod(p), pod2::value::Hash(k, 7, 7, 7))
}

fn vo(p: u64, k: u64, v: Value) -> Statement {
    Statement::ValueOf(ak(p, k), v)
}

#[test]
fn equal_from_entries_checks_values() {
    let a = vo(2, 1, Value::from_i64(7));
    let b = vo(3, 2, Value::from_i64(7));
    let out = Statement::Equal(ak(2, 1), ak(3, 2));
    assert_eq!(Operation::EqualFromEntries(a, b).check(&out), Ok(true));
    let b8 = vo(3, 2, Value::from_i64(8));
    assert_eq!(Operation::EqualFromEntries(a, b8).check(&out), Ok(false));
    let a8 = vo(2, 1, Value::from_i64(8));
    assert_eq!(Operation::EqualFromEntries(a8, b).check(&out), Ok(false));
    assert_eq!(Operation::NotEqualFromEntries(a, b8).check(&Statement::NotEqual(ak(2, 1), ak(3, 2))), Ok(true));
}

#[test]
fn gt_uses_most_significant_limb_first() {
    let v1 = Value(0, 0, 0, 1);
    let v2 = Value(0, 0, 0, 0);
    assert!(v2.less_than(&v1));
    assert!(!v1.less_than(&v2));
    assert!(Value(5, 0, 0, 0).less_than(&Value(0, 1, 0, 0)));
    let op = Operation::GtFromEntries(vo(2, 1, v1), vo(3, 2, v2));
    assert_eq!(op.check(&Statement::Gt(ak(2, 1), ak(3, 2))), Ok(true));
    let op = Operation::LtFromEntries(vo(2, 1, v1), vo(3, 2, v2));
    assert_eq!(op.check(&Statement::Lt(ak(2, 1), ak(3, 2))), Ok(false));
}

#[test]
fn checker_rules() {
    let self_key = AnchoredKey(PodId::self_pod(), pod2::value::Hash(4, 0, 0, 0));
    assert_eq!(Operation::Empty.check(&Statement::Empty), Ok(true));
    assert_eq!(Operation::NewEntry.check(&Statement::ValueOf(self_key, Value::from_i64(1))), Ok(true));
    assert_eq!(Operation::NewEntry.check(&vo(2, 1, Value::from_i64(1))), Ok(false));
    let eq1 = Statement::Equal(ak(1, 1), ak(2, 2));
    let eq2 = Statement::Equal(ak(2, 2), ak(3, 3));
    let op = Operation::TransitiveEqualFromStatements(eq1, eq2);
    assert_eq!(op.check(&Statement::Equal(ak(1, 1), ak(3, 3))), Ok(true));
    assert_eq!(op.check(&Statement::Equal(ak(1, 1), ak(2, 2))), Ok(false));
    let gt = Statement::Gt(ak(1, 1), ak(2, 2));
    assert_eq!(Operation::GtToNotEqual(gt).check(&Statement::NotEqual(ak(1, 1), ak(2, 2))), Ok(true));
    let lt = Statement::Lt(ak(1, 1), ak(2, 2));
    assert_eq!(Operation::LtToNotEqual(lt).check(&Statement::NotEqual(ak(2, 2), ak(1, 1))), Ok(false));
    let c = Statement::Contains(ak(1, 1), ak(2, 2));
    let e = Statement::Equal(ak(1, 1), ak(5, 5));
    assert_eq!(
        Operation::RenameContainedBy(c, e).check(&Statement::Contains(ak(5, 5), ak(2, 2))),
        Ok(true)
    );
    assert_eq!(Operation::CopyStatement(c).check(&c), Ok(true));
    assert_eq!(Operation::CopyStatement(c).check(&e), Ok(false));
    assert_eq!(
        Operation::ContainsFromEntries(Statement::Empty, Statement::Empty)
            .check(&Statement::Contains(ak(1, 1), ak(2, 2))),
        Ok(true)
    );
}

#[test]
fn arithmetic_rules() {
    let out = Statement::SumOf(ak(1, 1), ak(2, 2), ak(3, 3));
    let op = Operation::SumOf(
        vo(1, 1, Value::from_i64(10)),
        vo(2, 2, Value::from_i64(-3)),
        vo(3, 3, Value::from_i64(13)),
    );
    assert_eq!(op.check(&out), Ok(true));
    let op = Operation::SumOf(
        vo(1, 1, Value::from_i64(11)),
        vo(2, 2, Value::from_i64(-3)),
        vo(3, 3, Value::from_i64(13)),
    );
    assert_eq!(op.check(&out), Ok(false));
    let overflow = Operation::SumOf(
        vo(1, 1, Value::from_i64(i64::MIN)),
        vo(2, 2, Value::from_i64(i64::MAX)),
        vo(3, 3, Value::from_i64(1)),
    );
    assert_eq!(overflow.check(&out), Ok(false));
    let prod = Operation::ProductOf(
        vo(1, 1, Value::from_i64(-12)),
        vo(2, 2, Value::from_i64(3)),
        vo(3, 3, Value::from_i64(-4)),
    );
    assert_eq!(prod.check(&Statement::ProductOf(ak(1, 1), ak(2, 2), ak(3, 3))), Ok(true));
    let max = Operation::MaxOf(
        vo(1, 1, Value::from_i64(5)),
        vo(2, 2, Value::from_i64(-9)),
        vo(3, 3, Value::from_i64(5)),
    );
    assert_eq!(max.check(&Statement::MaxOf(ak(1, 1), ak(2, 2), ak(3, 3))), Ok(true));
    let not_int = Operation::SumOf(
        vo(1, 1, Value(1, 2, 3, 4)),
        vo(2, 2, Value::from_i64(1)),
        vo(3, 3, Value::from_i64(1)),
    );
    assert_eq!(not_int.check(&out), Err(Error::ValueNotInI64Embedding));
}

#[test]
fn mismatched_deduction_is_an_error() {
    let op = Operation::EqualFromEntries(vo(1, 1, Value::from_i64(1)), vo(2, 2, Value::from_i64(1)));
    assert_eq!(op.check(&Statement::NotEqual(ak(1, 1), ak(2, 2))), Err(Error::InvalidDeduction));
    assert_eq!(Operation::Empty.check(&vo(1, 1, Value::from_i64(1))), Err(Error::InvalidDeduction));
}

#[test]
fn op_forms_operations_by_shape() {
    let a = vo(1, 1, Value::from_i64(1));
    let b = vo(2, 2, Value::from_i64(2));
    assert_eq!(
        Operation::op(NativeOperation::EqualFromEntries, &[a, b]),
        Ok(Operation::EqualFromEntries(a, b))
    );
    assert_eq!(Operation::op(NativeOperation::EqualFromEntries, &[a]), Err(Error::IllFormedOperation));
    let eq = Statement::Equal(ak(1, 1), ak(2, 2));
    assert_eq!(Operation::op(NativeOperation::EqualFromEntries, &[a, eq]), Err(Error::IllFormedOperation));
    assert_eq!(Operation::op(NativeOperation::Empty, &[]), Ok(Operation::Empty));
    assert_eq!(Operation::op(NativeOperation::CopyStatement, &[eq]), Ok(Operation::CopyStatement(eq)));
    assert_eq!(Operation::op(NativeOperation::SumOf, &[a, b, a]), Ok(Operation::SumOf(a, b, a)));
    let op = Operation::op(NativeOperation::MaxOf, &[a, b, a]).unwrap();
    assert_eq!(op.code(), NativeOperation::MaxOf);
    assert_eq!(op.code().code(), 15);
    assert_eq!(op.args(), vec![a, b, a]);
}

#[test]
fn statements_serialise_to_fixed_length() {
    let params = Params::default();
    let sts = vec![
        Statement::Empty,
        vo(1, 2, Value::from_i64(3)),
        Statement::Equal(ak(1, 1), ak(2, 2)),
        Statement::SumOf(ak(1, 1), ak(2, 2), ak(3, 3)),
    ];
    for st in sts.iter() {
        assert_eq!(st.to_fields(&params).len(), 1 + params.max_statement_args * 8);
    }
    let f = vo(1, 2, Value::from_i64(3)).to_fields(&params);
    assert_eq!(&f[..17], &[1, 1, 0, 0, 0, 2, 7, 7, 7, 3, 0, 0, 0, 0, 0, 0, 0]);
    assert!(f[17..].iter().all(|x| *x == 0));
}

#[test]
fn statement_accessors() {
    let st = vo(1, 2, Value::from_i64(3));
    assert_eq!(st.code(), NativePredicate::ValueOf);
    let args = st.args();
    assert_eq!(args.len(), 2);
    assert_eq!(args[0].key(), Ok(ak(1, 2)));
    assert_eq!(args[0].literal(), Err(Error::ArgumentNotLiteral));
    assert_eq!(args[1].literal(), Ok(Value::from_i64(3)));
    assert_eq!(args[1].key(), Err(Error::ArgumentNotKey));
    assert!(Statement::Empty.is_none());
    assert!(StatementArg::Empty.is_none());
    assert_eq!(NativePredicate::from_repr(10), Some(NativePredicate::MaxOf));
    assert_eq!(NativePredicate::from_repr(11), None);
    assert_eq!(ak(1, 2).origin(), pod(1));
}

#[test]
fn integer_embedding() {
    assert_eq!(Value::from_i64(-1), Value(0xffff_ffff, 0xffff_ffff, 0, 0));
    assert_eq!(Value::from_i64(0x1_0000_0005), Value(5, 1, 0, 0));
    for x in [0i64, 1, -1, 42, -42, i64::MIN, i64::MAX, 1 << 33] {
        assert_eq!(Value::from_i64(x).to_i64(), Ok(x));
    }
    assert_eq!(Value(0, 0, 1, 0).to_i64(), Err(Error::ValueNotInI64Embedding));
    assert_eq!(Value(0x1_0000_0000, 0, 0, 0).to_i64(), Err(Error::ValueNotInI64Embedding));
    assert_eq!(PodType::Signed.to_value(), Value::from_i64(3));
    assert_eq!(PodType::MockMain.code(), 2);
}

#[test]
fn params_defaults() {
    let p = Params::default();
    assert_eq!(p.max_input_signed_pods, 3);
    assert_eq!(p.max_input_main_pods, 3);
    assert_eq!(p.max_statements, 20);
    assert_eq!(p.max_signed_pod_values, 8);
    assert_eq!(p.max_public_statements, 10);
    assert_eq!(p.max_statement_args, 5);
    assert_eq!(p.max_operation_args, 5);
    assert_eq!(p.max_priv_statements(), 10);
}

#[test]
fn hash_from_hex() {
    let mut s = String::from("0100000000000000");
    s.push_str("ff00000000000000");
    s.push_str("0000000000000000");
    s.push_str("0000000000000001");
    let h = pod2::value::Hash::from_hex(&s).unwrap();
    assert_eq!(h, pod2::value::Hash(1, 255, 0, 1 << 56));
    assert_eq!(pod2::value::Hash::from_hex("abc"), Err(Error::InvalidHex));
    let bad = "zz".repeat(32);
    assert_eq!(pod2::value::Hash::from_hex(&bad), Err(Error::InvalidHex));
    let big = "ff".repeat(32);
    assert_eq!(pod2::value::Hash::from_hex(&big), Err(Error::InvalidHex));
}

#[test]
fn string_packing() {
    assert_eq!(pod2::hash::str_to_fields(""), vec![1]);
    assert_eq!(pod2::hash::str_to_fields("a"), vec![0x6101]);
    assert_eq!(pod2::hash::str_to_fields("ab"), vec![0x61_6201]);
    // seven bytes fill one element, first byte most significant; the pad byte starts the next
    assert_eq!(
        pod2::hash::str_to_fields("abcdefg"),
        vec![0x0061_6263_6465_6667, 1]
    );
}
