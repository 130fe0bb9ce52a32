use pod2::custom::{
    BuilderArg, CustomPredicateBatchBuilder, HashOrWildcard, HashOrWildcardStr, Predicate,
    StatementTmplArg, StatementTmplBuilder,
};
use pod2::error::Error;
use pod2::hash::{FieldElements, Hasher};
use pod2::statement::NativePredicate;
use pod2::value::PodType;

struct ToyHasher;

impl Hasher for ToyHasher {
    // placeholder for a ghost item that only verification reads; never called
    fn spec_hash(input: FieldElements) -> FieldElements {
        input
    }

    fn hash_no_pad(input: &[u64]) -> [u64; 4] {
        const P: u64 = 0xffff_ffff_0000_0001;
        let mut s: [u64; 4] = [
            0x243f_6a88_85a3_08d3,
            0x1319_8a2e_0370_7344,
            0xa409_3822_299f_31d0,
            0x082e_fa98_ec4e_6c89,
        ];
        for (i, x) in input.iter().enumerate() {
            for l in 0..4 {
                s[l] = (s[l] ^ x.wrapping_add(i as u64 + 1))
                    .wrapping_mul(0x0000_0100_0000_01b3)
                    .rotate_left(17 + l as u32);
                s[(l + 1) % 4] ^= s[l];
            }
        }
        for l in 0..4 {
            s[l] = (s[l] ^ (input.len() as u64)).wrapping_mul(0x9e37_79b9_7f4a_7c15);
        }
        [s[0] % P, s[1] % P, s[2] % P, s[3] % P]
    }
}

fn l(s: &str) -> HashOrWildcardStr {
    HashOrWildcardStr::Hash(pod2::hash::hash_str::<ToyHasher>(s))
}

fn w(s: &str) -> HashOrWildcardStr {
    HashOrWildcardStr::Wildcard(s.to_string())
}

fn key(a: HashOrWildcardStr, b: HashOrWildcardStr) -> BuilderArg {
    BuilderArg::Key(a, b)
}

fn names(v: &[&str]) -> Vec<String> {
    v.iter().map(|s| s.to_string()).collect()
}

fn st_tmpl(p: Predicate) -> StatementTmplBuilder {
    StatementTmplBuilder::new(p)
}

fn eth_friend_batch() -> (CustomPredicateBatchBuilder, Predicate) {
    let mut builder = CustomPredicateBatchBuilder::new();
    let eth_friend = builder
        .predicate_and(
            &names(&["src_or", "src_key", "dst_or", "dst_key"]),
            &names(&["attestation_pod"]),
            &vec![
                st_tmpl(Predicate::Native(NativePredicate::ValueOf))
                    .arg(key(w("attestation_pod"), l("type")))
                    .arg(BuilderArg::Literal(PodType::Signed.to_value())),
                st_tmpl(Predicate::Native(NativePredicate::Equal))
                    .arg(key(w("attestation_pod"), l("signer")))
                    .arg(key(w("src_or"), w("src_key"))),
                st_tmpl(Predicate::Native(NativePredicate::Equal))
                    .arg(key(w("attestation_pod"), l("attestation")))
                    .arg(key(w("dst_or"), w("dst_key"))),
            ],
        )
        .unwrap();
    (builder, eth_friend)
}

#[test]
fn test_custom_pred() {
    let (builder, eth_friend) = eth_friend_batch();
    assert_eq!(eth_friend, Predicate::BatchSelf(0));
    let p = &builder.predicates[0];
    assert!(p.conjunction);
    assert_eq!(p.args_len, 4);
    assert_eq!(p.statements.len(), 3);
    assert_eq!(
        p.statements[1].1[1],
        StatementTmplArg::Key(HashOrWildcard::Wildcard(0), HashOrWildcard::Wildcard(1))
    );
    assert_eq!(
        p.statements[0].1[0],
        StatementTmplArg::Key(
            HashOrWildcard::Wildcard(4),
            HashOrWildcard::Hash(pod2::hash::hash_str::<ToyHasher>("type"))
        )
    );
    let eth_friend = builder.finish();
    let eth_friend = Predicate::Custom(eth_friend.hash::<ToyHasher>(), 0);

    let mut builder = CustomPredicateBatchBuilder::new();
    let eth_dos_distance_base = builder
        .predicate_and(
            &names(&["src_or", "src_key", "dst_or", "dst_key", "distance_or", "distance_key"]),
            &names(&[]),
            &vec![
                st_tmpl(Predicate::Native(NativePredicate::Equal))
                    .arg(key(w("src_or"), l("src_key")))
                    .arg(key(w("dst_or"), w("dst_key"))),
                st_tmpl(Predicate::Native(NativePredicate::ValueOf))
                    .arg(key(w("distance_or"), w("distance_key")))
                    .arg(BuilderArg::Literal(pod2::value::Value::from_i64(0))),
            ],
        )
        .unwrap();
    let eth_dos_distance = Predicate::BatchSelf(3);
    let eth_dos_distance_ind = builder
        .predicate_and(
            &names(&["src_or", "src_key", "dst_or", "dst_key", "distance_or", "distance_key"]),
            &names(&[
                "one_or",
                "one_key",
                "shorter_distance_or",
                "shorter_distance_key",
                "intermed_or",
                "intermed_key",
            ]),
            &vec![
                st_tmpl(eth_dos_distance)
                    .arg(key(w("src_or"), w("src_key")))
                    .arg(key(w("intermed_or"), w("intermed_key")))
                    .arg(key(w("shorter_distance_or"), w("shorter_distance_key"))),
                st_tmpl(Predicate::Native(NativePredicate::ValueOf))
                    .arg(key(w("one_or"), w("one_key")))
                    .arg(BuilderArg::Literal(pod2::value::Value::from_i64(1))),
                st_tmpl(Predicate::Native(NativePredicate::SumOf))
                    .arg(key(w("distance_or"), w("distance_key")))
                    .arg(key(w("shorter_distance_or"), w("shorter_distance_key")))
                    .arg(key(w("one_or"), w("one_key"))),
                st_tmpl(eth_friend)
                    .arg(key(w("intermed_or"), w("intermed_key")))
                    .arg(key(w("dst_or"), w("dst_key"))),
            ],
        )
        .unwrap();
    let eth_dos_distance = builder
        .predicate_or(
            &names(&["src_or", "src_key", "dst_or", "dst_key", "distance_or", "distance_key"]),
            &names(&[]),
            &vec![
                st_tmpl(eth_dos_distance_base)
                    .arg(key(w("src_or"), w("src_key")))
                    .arg(key(w("dst_or"), w("dst_key")))
                    .arg(key(w("distance_or"), w("distance_key"))),
                st_tmpl(eth_dos_distance_ind)
                    .arg(key(w("src_or"), w("src_key")))
                    .arg(key(w("dst_or"), w("dst_key")))
                    .arg(key(w("distance_or"), w("distance_key"))),
            ],
        )
        .unwrap();
    assert_eq!(eth_dos_distance_base, Predicate::BatchSelf(0));
    assert_eq!(eth_dos_distance_ind, Predicate::BatchSelf(1));
    assert_eq!(eth_dos_distance, Predicate::BatchSelf(2));
    assert!(!builder.predicates[2].conjunction);
    assert_eq!(
        builder.predicates[1].statements[0].1[1],
        StatementTmplArg::Key(HashOrWildcard::Wildcard(10), HashOrWildcard::Wildcard(11))
    );
}

#[test]
fn batch_hash_is_stable_and_content_addressed() {
    let (a, _) = eth_friend_batch();
    let (b, _) = eth_friend_batch();
    let ha = a.finish().hash::<ToyHasher>();
    let hb = b.finish().hash::<ToyHasher>();
    assert_eq!(ha, hb);
    let mut c = CustomPredicateBatchBuilder::new();
    c.predicate_or(&names(&["x"]), &names(&[]), &vec![]).unwrap();
    assert_ne!(c.finish().hash::<ToyHasher>(), ha);
}

#[test]
fn unknown_wildcard_is_rejected() {
    let mut b = CustomPredicateBatchBuilder::new();
    let r = b.predicate_and(
        &names(&["a"]),
        &names(&[]),
        &vec![st_tmpl(Predicate::Native(NativePredicate::Equal)).arg(key(w("a"), w("nope")))],
    );
    assert_eq!(r, Err(Error::KeyNotFound));
    assert!(b.predicates.is_empty());
}
