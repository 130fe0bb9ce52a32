use pod2::containers::ValueSet;
use pod2::error::Error;
use pod2::frontend::{
    const_key, AnchoredKey, MainPodBuilder, MainPodCompiler, Operation, OperationArg, Origin,
    PodClass, SignedPod, SignedPodBuilder, Statement, Value,
};
use pod2::hash::{FieldElements, Hasher};
use pod2::pod::{MockProver, MockSigner, Pod};
use pod2::frontend::StatementArg;
use pod2::value::{Params, PodId};

struct ToyHasher;

impl Hasher for ToyHasher {
    // placeholder for a ghost item that only verification reads; never called
    fn spec_hash(input: FieldElements) -> FieldElements {
        input
    }

    fn hash_no_pad(input: &[u64]) -> [u64; 4] {
        const P: u64 = 0xffff_ffff_0000_0001;
        let mut s: [u64; 4] = [
            0x243f_6a88_85a3_08d3,
            0x1319_8a2e_0370_7344,
            0xa409_3822_299f_31d0,
            0x082e_fa98_ec4e_6c89,
        ];
        for (i, x) in input.iter().enumerate() {
            for l in 0..4 {
                s[l] = (s[l] ^ x.wrapping_add(i as u64 + 1))
                    .wrapping_mul(0x0000_0100_0000_01b3)
                    .rotate_left(17 + l as u32);
                s[(l + 1) % 4] ^= s[l];
            }
        }
        for l in 0..4 {
            s[l] = (s[l] ^ (input.len() as u64)).wrapping_mul(0x9e37_79b9_7f4a_7c15);
        }
        [s[0] % P, s[1] % P, s[2] % P, s[3] % P]
    }
}

fn sign(pk: &str, kvs: &[(&str, Value)]) -> SignedPod {
    let params = Params::default();
    let mut b = SignedPodBuilder::new(&params);
    for (k, v) in kvs {
        b.insert(k.to_string(), v.clone());
    }
    let signer = MockSigner { pk: pk.to_string() };
    b.sign::<ToyHasher>(&signer).unwrap()
}

fn entry(pod: &SignedPod, key: &str) -> OperationArg {
    OperationArg::from_signed_pod::<ToyHasher>(pod, key).unwrap()
}

fn zu_kyc() -> (MainPodBuilder, SignedPod, SignedPod) {
    let params = Params::default();
    let gov_id = sign(
        "ZooGov",
        &[
            ("idNumber", Value::String("4242424242".to_string())),
            ("dateOfBirth", Value::Int(1169909384)),
            ("socialSecurityNumber", Value::String("G2121210".to_string())),
        ],
    );
    let pay_stub = sign(
        "ZooDeel",
        &[
            ("socialSecurityNumber", Value::String("G2121210".to_string())),
            ("startDate", Value::Int(1706367566)),
        ],
    );
    let sanctions = ValueSet::<ToyHasher>::new(&vec![
        Value::String("A343434340".to_string()).to_middleware::<ToyHasher>(),
    ])
    .unwrap();
    let sanction_list = Value::ValueSet(sanctions.commitment());
    let now_minus_18y: i64 = 1169909388;
    let now_minus_1y: i64 = 1706367566;

    let mut kyc = MainPodBuilder::new(&params);
    kyc.pub_op(Operation::NotContainsFromEntries(
        OperationArg::Literal(sanction_list),
        entry(&gov_id, "idNumber"),
    ))
    .unwrap();
    kyc.pub_op(Operation::LtFromEntries(
        entry(&gov_id, "dateOfBirth"),
        OperationArg::Literal(Value::Int(now_minus_18y)),
    ))
    .unwrap();
    kyc.pub_op(Operation::EqualFromEntries(
        entry(&gov_id, "socialSecurityNumber"),
        entry(&pay_stub, "socialSecurityNumber"),
    ))
    .unwrap();
    kyc.pub_op(Operation::EqualFromEntries(
        entry(&pay_stub, "startDate"),
        OperationArg::Literal(Value::Int(now_minus_1y)),
    ))
    .unwrap();
    (kyc, gov_id, pay_stub)
}

fn self_key(name: &str) -> AnchoredKey {
    AnchoredKey(Origin(PodClass::Main, PodId::self_pod()), name.to_string())
}

#[test]
fn test_front_zu_kyc() {
    let (mut kyc, gov_id, pay_stub) = zu_kyc();
    assert_eq!(kyc.public_statements.len(), 4);
    assert_eq!(kyc.statements.len(), 7);
    assert_eq!(kyc.const_cnt, 3);
    let hoisted: Vec<&Statement> = kyc
        .statements
        .iter()
        .filter(|s| matches!(s, Statement::ValueOf(k, _) if k.0 == Origin(PodClass::Main, PodId::self_pod())))
        .collect();
    assert_eq!(hoisted.len(), 3);
    assert!(matches!(&kyc.public_statements[0], Statement::NotContains(k, _) if *k == self_key("c0")));
    assert!(matches!(&kyc.public_statements[1], Statement::Lt(_, k) if *k == self_key("c1")));
    assert!(matches!(&kyc.public_statements[2], Statement::Equal(a, b)
        if a.1 == "socialSecurityNumber" && b.1 == "socialSecurityNumber"));
    assert!(matches!(&kyc.public_statements[3], Statement::Equal(a, k)
        if a.1 == "startDate" && *k == self_key("c2")));
    kyc.add_signed_pod(gov_id);
    kyc.add_signed_pod(pay_stub);
    let mut prover = MockProver {};
    let main = kyc.prove::<ToyHasher>(&mut prover).unwrap();
    assert!(main.pod.verify::<ToyHasher>());
    match main.pod {
        Pod::Main(mut p) => {
            let params = Params::default();
            assert_eq!(p.statements.len(), 3 * 8 + 3 * 10 + 20);
            assert_eq!(p.operations.len(), params.max_statements);
            assert_eq!(p.public_statements.len(), 4);
            assert!(p.verify());
            // the Lt statement sits in local slot 3; swapping its keys breaks its justification
            let slot = 3 * 8 + 3 * 10 + 3;
            if let pod2::statement::Statement::Lt(a, b) = p.statements[slot] {
                p.statements[slot] = pod2::statement::Statement::Lt(b, a);
            } else {
                panic!("expected the Lt statement");
            }
            assert!(!p.verify());
        }
        _ => panic!("expected a main pod"),
    }
}

#[test]
fn test_front_great_boy() {
    let params = Params::default();
    let good_boy_issuers = ["Giggles", "Macrosoft"];
    let mut attestations = Vec::new();
    for issuer in good_boy_issuers.iter() {
        attestations.push(sign(
            issuer,
            &[
                ("user", Value::String("Alice".to_string())),
                ("attestation", Value::String("great boy".to_string())),
            ],
        ));
    }
    let mut great_boy = MainPodBuilder::new(&params);
    great_boy
        .pub_op(Operation::EqualFromEntries(
            entry(&attestations[0], "user"),
            entry(&attestations[1], "user"),
        ))
        .unwrap();
    great_boy
        .pub_op(Operation::NotEqualFromEntries(
            entry(&attestations[0], "_signer"),
            entry(&attestations[1], "_signer"),
        ))
        .unwrap();
    great_boy
        .pub_op(Operation::EqualFromEntries(
            entry(&attestations[0], "attestation"),
            OperationArg::Literal(Value::String("great boy".to_string())),
        ))
        .unwrap();
    assert_eq!(great_boy.public_statements.len(), 3);
    assert_eq!(great_boy.const_cnt, 1);
    for a in attestations {
        great_boy.add_signed_pod(a);
    }
    let mut prover = MockProver {};
    let pod = great_boy.prove::<ToyHasher>(&mut prover).unwrap();
    assert_eq!(pod.origin().0, PodClass::Main);
}

#[test]
fn test_front_tickets() {
    let params = Params::default();
    let ticket = sign(
        "TicketIssuer",
        &[
            ("eventId", Value::Int(123)),
            ("productId", Value::Int(456)),
            ("attendeeName", Value::String("John Doe".to_string())),
            ("isConsumed", Value::Bool(true)),
            ("isRevoked", Value::Bool(false)),
        ],
    );
    let blacklist = ValueSet::<ToyHasher>::new(&vec![]).unwrap();
    let mut builder = MainPodBuilder::new(&params);
    builder
        .pub_op(Operation::EqualFromEntries(entry(&ticket, "eventId"), OperationArg::Literal(Value::Int(123))))
        .unwrap();
    builder
        .pub_op(Operation::EqualFromEntries(entry(&ticket, "isConsumed"), OperationArg::Literal(Value::Bool(true))))
        .unwrap();
    builder
        .pub_op(Operation::EqualFromEntries(entry(&ticket, "isRevoked"), OperationArg::Literal(Value::Bool(false))))
        .unwrap();
    builder
        .pub_op(Operation::NotContainsFromEntries(
            OperationArg::Literal(Value::ValueSet(blacklist.commitment())),
            entry(&ticket, "attendeeName"),
        ))
        .unwrap();
    assert_eq!(builder.const_cnt, 4);
    assert_eq!(builder.public_statements.len(), 4);
    builder.add_signed_pod(ticket);
    let mut prover = MockProver {};
    assert!(builder.prove::<ToyHasher>(&mut prover).is_ok());
}

#[test]
fn hoisted_names_increase() {
    assert_eq!(const_key(0), "c0");
    assert_eq!(const_key(12), "c12");
    let (kyc, _, _) = zu_kyc();
    let names: Vec<String> = kyc
        .statements
        .iter()
        .filter_map(|s| match s {
            Statement::ValueOf(k, _) if k.0 == Origin(PodClass::Main, PodId::self_pod()) => Some(k.1.clone()),
            _ => None,
        })
        .collect();
    assert_eq!(names, vec!["c0".to_string(), "c1".to_string(), "c2".to_string()]);
}

#[test]
fn compiling_twice_gives_the_same_table() {
    let params = Params::default();
    let (a, ga, pa) = zu_kyc();
    let (b, _, _) = zu_kyc();
    let ca = MainPodCompiler::new(&params)
        .compile::<ToyHasher>(&a.statements, &a.operations, &a.public_statements)
        .unwrap();
    let cb = MainPodCompiler::new(&params)
        .compile::<ToyHasher>(&b.statements, &b.operations, &b.public_statements)
        .unwrap();
    assert_eq!(ca.0, cb.0);
    assert_eq!(ca.1, cb.1);
    assert_eq!(ca.2, cb.2);
    let mut a = a;
    a.add_signed_pod(ga);
    a.add_signed_pod(pa);
    let mut b = b;
    let (_, gb, pb) = zu_kyc();
    b.add_signed_pod(gb);
    b.add_signed_pod(pb);
    let ma = a.prove::<ToyHasher>(&mut MockProver {}).unwrap();
    let mb = b.prove::<ToyHasher>(&mut MockProver {}).unwrap();
    match (&ma.pod, &mb.pod) {
        (Pod::Main(x), Pod::Main(y)) => {
            assert_eq!(x.statements, y.statements);
            assert_eq!(x.operations.len(), y.operations.len());
            for (p, q) in x.operations.iter().zip(y.operations.iter()) {
                assert_eq!(p.0, q.0);
                assert_eq!(p.1, q.1);
            }
        }
        _ => panic!("expected main pods"),
    }
}

#[test]
fn builder_rejects_ill_formed_operations() {
    let params = Params::default();
    let mut b = MainPodBuilder::new(&params);
    let bad = Operation::EqualFromEntries(
        OperationArg::Entry("k".to_string(), Value::Int(1)),
        OperationArg::Literal(Value::Int(1)),
    );
    assert_eq!(b.op(false, bad), Err(Error::IllFormedOperation));
    assert_eq!(b.statements.len(), 0);
    assert_eq!(b.const_cnt, 0);
    assert_eq!(b.op(false, Operation::GtToNotEqual(Statement::Empty)), Err(Error::IllFormedOperation));
    let st = b.op(false, Operation::NewEntry("x".to_string(), Value::Int(5))).unwrap();
    assert_eq!(st, Statement::ValueOf(self_key("x"), Value::Int(5)));
    assert_eq!(b.public_statements.len(), 0);
    b.make_public(&st);
    assert_eq!(b.public_statements.len(), 1);
}

#[test]
fn compiler_reports_bounds() {
    let mut params = Params::default();
    params.max_statements = 1;
    let mut b = MainPodBuilder::new(&params);
    b.op(false, Operation::NewEntry("x".to_string(), Value::Int(1))).unwrap();
    b.op(false, Operation::NewEntry("y".to_string(), Value::Int(2))).unwrap();
    let r = MainPodCompiler::new(&params).compile::<ToyHasher>(&b.statements, &b.operations, &b.public_statements);
    assert_eq!(r.err(), Some(Error::BoundExceeded));
    let r = MainPodCompiler::new(&params).compile::<ToyHasher>(
        &vec![Statement::Empty],
        &vec![Operation::EqualFromEntries(
            OperationArg::Literal(Value::Int(1)),
            OperationArg::Literal(Value::Int(1)),
        )],
        &vec![],
    );
    assert_eq!(r.err(), Some(Error::IllFormedOperation));
    let missing = OperationArg::from_signed_pod::<ToyHasher>(&sign("S", &[("a", Value::Int(1))]), "b");
    assert_eq!(missing.err(), Some(Error::KeyNotFound));
}

#[test]
fn signed_pod_entries_and_id() {
    let pod = sign("ZooGov", &[("a", Value::Int(1)), ("b", Value::Bool(true))]);
    let kvs = pod.kvs();
    assert_eq!(kvs.len(), 4);
    let a = pod2::hash::hash_str::<ToyHasher>("a");
    assert!(kvs.contains(&(a, pod2::value::Value::from_i64(1))));
    match &pod.pod {
        Pod::Signed(p) => {
            assert!(p.verify::<ToyHasher>());
            assert_eq!(p.id, pod.id());
        }
        _ => panic!("expected a signed pod"),
    }
    let mut b = SignedPodBuilder::new(&Params::default());
    b.insert("a".to_string(), Value::Int(1));
    b.insert("a".to_string(), Value::Int(2));
    assert_eq!(b.kvs.len(), 1);
    assert_eq!(b.kvs[0].1, Value::Int(2));
}

#[test]
fn frontend_arguments_in_order() {
    let a = self_key("a");
    let b = self_key("b");
    let st = Statement::Lt(a.clone(), b.clone());
    assert_eq!(
        st.args(),
        vec![pod2::frontend::StatementArg::Key(a.clone()), pod2::frontend::StatementArg::Key(b.clone())]
    );
    let op = Operation::GtToNotEqual(Statement::Gt(a.clone(), b.clone()));
    assert_eq!(op.args(), vec![OperationArg::Statement(Statement::Gt(a.clone(), b.clone()))]);
    assert_eq!(op.code(), pod2::operation::NativeOperation::GtToNotEqual);
    let ne = Operation::NewEntry("k".to_string(), Value::Int(3));
    assert_eq!(ne.args(), vec![OperationArg::Entry("k".to_string(), Value::Int(3))]);
    assert_eq!(st.code(), pod2::statement::NativePredicate::Lt);
    let m = st.to_middleware::<ToyHasher>();
    let ka = pod2::hash::hash_str::<ToyHasher>("a");
    assert_eq!(
        m,
        pod2::statement::Statement::Lt(
            pod2::statement::AnchoredKey(PodId::self_pod(), ka),
            pod2::statement::AnchoredKey(PodId::self_pod(), pod2::hash::hash_str::<ToyHasher>("b")),
        )
    );
    assert_eq!(Value::Bool(true).to_middleware::<ToyHasher>(), pod2::value::Value::from_i64(1));
}

#[test]
fn derived_statements_of_builder_ops() {
    let params = Params::default();
    let mut b = MainPodBuilder::new(&params);
    let x = self_key("x");
    let y = self_key("y");
    let z = self_key("z");
    let st = b
        .op(false, Operation::TransitiveEqualFromStatements(
            Statement::Equal(x.clone(), y.clone()),
            Statement::Equal(y.clone(), z.clone()),
        ))
        .unwrap();
    assert_eq!(st, Statement::Equal(x.clone(), z.clone()));
    let st = b
        .op(false, Operation::RenameContainedBy(
            Statement::Contains(x.clone(), y.clone()),
            Statement::Equal(x.clone(), z.clone()),
        ))
        .unwrap();
    assert_eq!(st, Statement::Contains(z.clone(), y.clone()));
    let vx = OperationArg::Statement(Statement::ValueOf(x.clone(), Value::Int(5)));
    let st = b
        .op(true, Operation::SumOf(vx, OperationArg::Literal(Value::Int(2)), OperationArg::Literal(Value::Int(3))))
        .unwrap();
    assert_eq!(st, Statement::SumOf(x.clone(), self_key("c0"), self_key("c1")));
    assert_eq!(b.const_cnt, 2);
    assert_eq!(b.public_statements, vec![st]);
}

#[test]
fn builder_records_operations() {
    let params = Params::default();
    let mut b = MainPodBuilder::new(&params);
    let ne = Operation::NewEntry("x".to_string(), Value::Int(5));
    b.op(false, ne.clone()).unwrap();
    assert_eq!(b.operations, vec![ne]);
    let ak = self_key("x");
    let vx = OperationArg::Statement(Statement::ValueOf(ak.clone(), Value::Int(5)));
    let st = b
        .op(false, Operation::EqualFromEntries(OperationArg::Literal(Value::Int(5)), vx.clone()))
        .unwrap();
    assert_eq!(st, Statement::Equal(self_key("c0"), ak.clone()));
    assert_eq!(b.statements[1], Statement::ValueOf(self_key("c0"), Value::Int(5)));
    assert_eq!(b.operations[1], Operation::NewEntry("c0".to_string(), Value::Int(5)));
    assert_eq!(
        b.operations[2],
        Operation::EqualFromEntries(
            OperationArg::Statement(Statement::ValueOf(self_key("c0"), Value::Int(5))),
            vx
        )
    );
}

#[test]
fn compiler_rejects_too_many_arguments() {
    let mut params = Params::default();
    params.max_statement_args = 2;
    let k = self_key("x");
    let r = MainPodCompiler::new(&params).compile::<ToyHasher>(
        &vec![Statement::SumOf(k.clone(), k.clone(), k.clone())],
        &vec![Operation::Empty],
        &vec![],
    );
    assert_eq!(r.err(), Some(Error::BoundExceeded));
    let mut params = Params::default();
    params.max_operation_args = 1;
    let v = OperationArg::Statement(Statement::ValueOf(k.clone(), Value::Int(1)));
    let r = MainPodCompiler::new(&params).compile::<ToyHasher>(
        &vec![Statement::Equal(k.clone(), k.clone())],
        &vec![Operation::EqualFromEntries(v.clone(), v)],
        &vec![],
    );
    assert_eq!(r.err(), Some(Error::BoundExceeded));
    let _ = StatementArg::Literal(Value::Int(0));
}

#[test]
fn generic_signer_and_prover() {
    let params = Params::default();
    let mut b = SignedPodBuilder::new(&params);
    b.insert("a".to_string(), Value::Int(1));
    let signer = MockSigner { pk: "S".to_string() };
    let sp = b.sign_with::<ToyHasher, MockSigner>(&signer).unwrap();
    assert_eq!(sp.key_string_map, vec![(pod2::hash::hash_str::<ToyHasher>("a"), "a".to_string())]);
    let direct = b.sign::<ToyHasher>(&signer).unwrap();
    assert_eq!(sp.id(), direct.id());
    let mut main = MainPodBuilder::new(&params);
    main.pub_op(Operation::EqualFromEntries(entry(&sp, "a"), OperationArg::Literal(Value::Int(1)))).unwrap();
    main.add_signed_pod(sp);
    let mut prover = MockProver {};
    let pod = main.prove_with::<ToyHasher, MockProver>(&mut prover).unwrap();
    assert!(pod.pod.verify::<ToyHasher>());
}
