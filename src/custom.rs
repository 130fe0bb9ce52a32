use vstd::prelude::*;

use crate::error::Error;
use crate::hash::Hasher;
use crate::statement::NativePredicate;
use crate::value::Value;

verus! {

/// A key position of a template: a fixed hash or a wildcard, by index.
#[derive(Clone, Copy, Debug, PartialEq, Eq, Structural)]
pub enum HashOrWildcard {
    Hash(crate::value::Hash),
    Wildcard(usize),
}

/// An argument of a statement template.
#[derive(Clone, Copy, Debug, PartialEq, Eq, Structural)]
pub enum StatementTmplArg {
    Empty,
    Literal(Value),
    Key(HashOrWildcard, HashOrWildcard),
}

/// The predicate of a template: native, a predicate of the batch being built (by index), or
/// a predicate of another batch (by the batch's content hash and index).
#[derive(Clone, Copy, Debug, PartialEq, Eq, Structural)]
pub enum Predicate {
    Native(NativePredicate),
    BatchSelf(usize),
    Custom(crate::value::Hash, usize),
}

/// A statement template: a predicate and its arguments.
#[derive(Clone, Debug)]
pub struct StatementTmpl(pub Predicate, pub Vec<StatementTmplArg>);

/// A custom predicate: a conjunction or disjunction of templates; the first `args_len`
/// wildcards are its arguments, the others are private.
#[derive(Clone, Debug)]
pub struct CustomPredicate {
    pub conjunction: bool,
    pub statements: Vec<StatementTmpl>,
    pub args_len: usize,
}

/// An ordered list of custom predicates, identified by its content hash.
#[derive(Clone, Debug)]
pub struct CustomPredicateBatch {
    pub predicates: Vec<CustomPredicate>,
}

/// The five elements of a key position: a tag, then the hash or the wildcard index.
pub open spec fn how_fields(h: HashOrWildcard) -> Seq<u64> {
    match h {
        HashOrWildcard::Hash(x) => seq![1u64] + x.limbs(),
        HashOrWildcard::Wildcard(i) => seq![2u64, i as u64, 0u64, 0u64, 0u64],
    }
}

/// The eleven elements of a template argument: a tag, then its payload padded with zeros.
pub open spec fn tmpl_arg_fields(a: StatementTmplArg) -> Seq<u64> {
    match a {
        StatementTmplArg::Empty => Seq::new(11, |i: int| 0u64),
        StatementTmplArg::Literal(v) => seq![1u64] + v.limbs() + Seq::new(6, |i: int| 0u64),
        StatementTmplArg::Key(x, y) => seq![2u64] + how_fields(x) + how_fields(y),
    }
}

/// The six elements of a template's predicate: a tag, an index or code, then a batch hash.
pub open spec fn predicate_fields(p: Predicate) -> Seq<u64> {
    match p {
        Predicate::Native(n) => seq![1u64, n.spec_code(), 0u64, 0u64, 0u64, 0u64],
        Predicate::BatchSelf(i) => seq![2u64, i as u64, 0u64, 0u64, 0u64, 0u64],
        Predicate::Custom(h, i) => seq![3u64, i as u64] + h.limbs(),
    }
}

pub open spec fn args_fields(args: Seq<StatementTmplArg>) -> Seq<u64>
    decreases args.len(),
{
    if args.len() == 0 {
        seq![]
    } else {
        args_fields(args.drop_last()) + tmpl_arg_fields(args.last())
    }
}

/// A template's elements: its predicate, its number of arguments, then the arguments.
pub open spec fn tmpl_fields(t: StatementTmpl) -> Seq<u64> {
    predicate_fields(t.0) + seq![t.1@.len() as u64] + args_fields(t.1@)
}

pub open spec fn tmpls_fields(ts: Seq<StatementTmpl>) -> Seq<u64>
    decreases ts.len(),
{
    if ts.len() == 0 {
        seq![]
    } else {
        tmpls_fields(ts.drop_last()) + tmpl_fields(ts.last())
    }
}

/// A predicate's elements: the conjunction flag, the number of arguments and of templates,
/// then the templates.
pub open spec fn custom_fields(p: CustomPredicate) -> Seq<u64> {
    seq![if p.conjunction { 1u64 } else { 0u64 }, p.args_len as u64, p.statements@.len() as u64]
        + tmpls_fields(p.statements@)
}

pub open spec fn batch_fields(ps: Seq<CustomPredicate>) -> Seq<u64>
    decreases ps.len(),
{
    if ps.len() == 0 {
        seq![]
    } else {
        batch_fields(ps.drop_last()) + custom_fields(ps.last())
    }
}

fn push_how(out: &mut Vec<u64>, h: &HashOrWildcard)
    ensures
        final(out)@ == old(out)@ + how_fields(*h),
{
    match h {
        HashOrWildcard::Hash(x) => {
            out.push(1);
            out.push(x.0);
            out.push(x.1);
            out.push(x.2);
            out.push(x.3);
        },
        HashOrWildcard::Wildcard(i) => {
            out.push(2);
            out.push(*i as u64);
            out.push(0);
            out.push(0);
            out.push(0);
        },
    }
    assert(final(out)@ =~= old(out)@ + how_fields(*h));
}

fn push_tmpl_arg(out: &mut Vec<u64>, a: &StatementTmplArg)
    ensures
        final(out)@ == old(out)@ + tmpl_arg_fields(*a),
{
    match a {
        StatementTmplArg::Empty => {
            let mut i: usize = 0;
            while i < 11
                invariant
                    i <= 11,
                    out@ == old(out)@ + Seq::new(i as nat, |k: int| 0u64),
                decreases 11 - i,
            {
                out.push(0);
                i = i + 1;
                assert(out@ =~= old(out)@ + Seq::new(i as nat, |k: int| 0u64));
            }
        },
        StatementTmplArg::Literal(v) => {
            out.push(1);
            out.push(v.0);
            out.push(v.1);
            out.push(v.2);
            out.push(v.3);
            let mut i: usize = 0;
            let ghost mid = out@;
            while i < 6
                invariant
                    i <= 6,
                    out@ == mid + Seq::new(i as nat, |k: int| 0u64),
                decreases 6 - i,
            {
                out.push(0);
                i = i + 1;
                assert(out@ =~= mid + Seq::new(i as nat, |k: int| 0u64));
            }
        },
        StatementTmplArg::Key(x, y) => {
            out.push(2);
            push_how(out, x);
            push_how(out, y);
        },
    }
    assert(final(out)@ =~= old(out)@ + tmpl_arg_fields(*a));
}

fn push_predicate(out: &mut Vec<u64>, p: &Predicate)
    ensures
        final(out)@ == old(out)@ + predicate_fields(*p),
{
    match p {
        Predicate::Native(n) => {
            out.push(1);
            out.push(n.code());
            out.push(0);
            out.push(0);
            out.push(0);
            out.push(0);
        },
        Predicate::BatchSelf(i) => {
            out.push(2);
            out.push(*i as u64);
            out.push(0);
            out.push(0);
            out.push(0);
            out.push(0);
        },
        Predicate::Custom(h, i) => {
            out.push(3);
            out.push(*i as u64);
            out.push(h.0);
            out.push(h.1);
            out.push(h.2);
            out.push(h.3);
        },
    }
    assert(final(out)@ =~= old(out)@ + predicate_fields(*p));
}

fn push_tmpl(out: &mut Vec<u64>, t: &StatementTmpl)
    ensures
        final(out)@ == old(out)@ + tmpl_fields(*t),
{
    push_predicate(out, &t.0);
    out.push(t.1.len() as u64);
    let ghost mid = out@;
    let mut i: usize = 0;
    while i < t.1.len()
        invariant
            i <= t.1@.len(),
            out@ == mid + args_fields(t.1@.take(i as int)),
        decreases t.1.len() - i,
    {
        push_tmpl_arg(out, &t.1[i]);
        i = i + 1;
        assert(t.1@.take(i as int).drop_last() =~= t.1@.take(i - 1));
        assert(out@ =~= mid + args_fields(t.1@.take(i as int)));
    }
    assert(t.1@.take(t.1@.len() as int) =~= t.1@);
    assert(final(out)@ =~= old(out)@ + tmpl_fields(*t));
}

fn push_custom(out: &mut Vec<u64>, p: &CustomPredicate)
    ensures
        final(out)@ == old(out)@ + custom_fields(*p),
{
    out.push(if p.conjunction {
        1
    } else {
        0
    });
    out.push(p.args_len as u64);
    out.push(p.statements.len() as u64);
    let ghost mid = out@;
    let mut i: usize = 0;
    while i < p.statements.len()
        invariant
            i <= p.statements@.len(),
            out@ == mid + tmpls_fields(p.statements@.take(i as int)),
        decreases p.statements.len() - i,
    {
        push_tmpl(out, &p.statements[i]);
        i = i + 1;
        assert(p.statements@.take(i as int).drop_last() =~= p.statements@.take(i - 1));
        assert(out@ =~= mid + tmpls_fields(p.statements@.take(i as int)));
    }
    assert(p.statements@.take(p.statements@.len() as int) =~= p.statements@);
    assert(final(out)@ =~= old(out)@ + custom_fields(*p));
}

impl CustomPredicateBatch {
    /// The batch's serialisation to field elements.
    pub fn to_fields(&self) -> (r: Vec<u64>)
        ensures
            r@ == batch_fields(self.predicates@),
    {
        let mut out: Vec<u64> = Vec::new();
        let mut i: usize = 0;
        while i < self.predicates.len()
            invariant
                i <= self.predicates@.len(),
                out@ == batch_fields(self.predicates@.take(i as int)),
            decreases self.predicates.len() - i,
        {
            push_custom(&mut out, &self.predicates[i]);
            i = i + 1;
            assert(self.predicates@.take(i as int).drop_last() =~= self.predicates@.take(i - 1));
        }
        assert(self.predicates@.take(self.predicates@.len() as int) =~= self.predicates@);
        out
    }

    /// The batch's content hash: the hash of its serialisation.
    pub fn hash<H: Hasher>(&self) -> (r: crate::value::Hash)
        ensures
            r == crate::hash::hash_of_limbs(H::spec_hash(batch_fields(self.predicates@))),
    {
        let f = self.to_fields();
        let d = H::hash_no_pad(f.as_slice());
        crate::value::Hash(d[0], d[1], d[2], d[3])
    }
}

/// A key position as the user writes it: a fixed hash or a wildcard by name.
#[derive(Clone, Debug)]
pub enum HashOrWildcardStr {
    Hash(crate::value::Hash),
    Wildcard(String),
}

/// A template argument as the user writes it.
#[derive(Clone, Debug)]
pub enum BuilderArg {
    Literal(Value),
    Key(HashOrWildcardStr, HashOrWildcardStr),
}

/// A template under construction: a predicate and its arguments.
#[derive(Clone, Debug)]
pub struct StatementTmplBuilder {
    pub predicate: Predicate,
    pub args: Vec<BuilderArg>,
}

impl StatementTmplBuilder {
    pub fn new(predicate: Predicate) -> (r: StatementTmplBuilder)
        ensures
            r.predicate == predicate,
            r.args@.len() == 0,
    {
        StatementTmplBuilder { predicate, args: Vec::new() }
    }

    /// Appends an argument.
    pub fn arg(self, a: BuilderArg) -> (r: StatementTmplBuilder)
        ensures
            r.predicate == self.predicate,
            r.args@ == self.args@.push(a),
    {
        let mut s = self;
        s.args.push(a);
        s
    }
}

/// `i` is the position of the first name equal to `s`.
pub open spec fn first_name(names: Seq<String>, s: Seq<char>, i: int) -> bool {
    &&& 0 <= i < names.len()
    &&& names[i]@ == s
    &&& forall|j: int| 0 <= j < i ==> (#[trigger] names[j])@ != s
}

/// A resolved key position: a hash stays, a wildcard name becomes the index of its first
/// occurrence among the arguments followed by the private arguments.
pub open spec fn resolved_how(names: Seq<String>, h: HashOrWildcardStr, r: HashOrWildcard) -> bool {
    match h {
        HashOrWildcardStr::Hash(x) => r == HashOrWildcard::Hash(x),
        HashOrWildcardStr::Wildcard(s) => r matches HashOrWildcard::Wildcard(i) && first_name(
            names,
            s@,
            i as int,
        ),
    }
}

pub open spec fn resolved_arg(names: Seq<String>, a: BuilderArg, r: StatementTmplArg) -> bool {
    match a {
        BuilderArg::Literal(v) => r == StatementTmplArg::Literal(v),
        BuilderArg::Key(x, y) => r matches StatementTmplArg::Key(rx, ry) && resolved_how(
            names,
            x,
            rx,
        ) && resolved_how(names, y, ry),
    }
}

/// Every wildcard name used in a template is declared.
pub open spec fn how_known(names: Seq<String>, h: HashOrWildcardStr) -> bool {
    match h {
        HashOrWildcardStr::Hash(_) => true,
        HashOrWildcardStr::Wildcard(s) => exists|i: int| 0 <= i < names.len() && names[i]@ == s@,
    }
}

pub open spec fn arg_known(names: Seq<String>, a: BuilderArg) -> bool {
    match a {
        BuilderArg::Literal(_) => true,
        BuilderArg::Key(x, y) => how_known(names, x) && how_known(names, y),
    }
}

/// Resolves a key position against the names of the arguments and private arguments.
pub fn resolve_wildcard(names: &Vec<String>, v: &HashOrWildcardStr) -> (r: Result<HashOrWildcard, Error>)
    ensures
        r.is_ok() <==> how_known(names@, *v),
        r matches Ok(x) ==> resolved_how(names@, *v, x),
        r.is_err() ==> r == Err::<HashOrWildcard, Error>(Error::KeyNotFound),
{
    match v {
        HashOrWildcardStr::Hash(h) => Ok(HashOrWildcard::Hash(*h)),
        HashOrWildcardStr::Wildcard(s) => {
            let mut i: usize = 0;
            while i < names.len()
                invariant
                    i <= names@.len(),
                    *v == HashOrWildcardStr::Wildcard(*s),
                    forall|j: int| 0 <= j < i ==> (#[trigger] names@[j])@ != s@,
                decreases names.len() - i,
            {
                if names[i] == *s {
                    assert(names@[i as int]@ == s@);
                    return Ok(HashOrWildcard::Wildcard(i));
                }
                i = i + 1;
            }
            Err(Error::KeyNotFound)
        },
    }
}

fn resolve_arg(names: &Vec<String>, a: &BuilderArg) -> (r: Result<StatementTmplArg, Error>)
    ensures
        r.is_ok() <==> arg_known(names@, *a),
        r matches Ok(x) ==> resolved_arg(names@, *a, x),
{
    match a {
        BuilderArg::Literal(v) => Ok(StatementTmplArg::Literal(*v)),
        BuilderArg::Key(x, y) => {
            let rx = match resolve_wildcard(names, x) {
                Ok(h) => h,
                Err(e) => return Err(e),
            };
            let ry = match resolve_wildcard(names, y) {
                Ok(h) => h,
                Err(e) => return Err(e),
            };
            Ok(StatementTmplArg::Key(rx, ry))
        },
    }
}

/// The template built from a template builder, with every wildcard resolved.
pub open spec fn built_tmpl(names: Seq<String>, b: StatementTmplBuilder, t: StatementTmpl) -> bool {
    &&& t.0 == b.predicate
    &&& t.1@.len() == b.args@.len()
    &&& forall|j: int| 0 <= j < b.args@.len() ==> resolved_arg(names, #[trigger] b.args@[j], t.1@[j])
}

/// Builds a batch of custom predicates.
pub struct CustomPredicateBatchBuilder {
    pub predicates: Vec<CustomPredicate>,
}

impl CustomPredicateBatchBuilder {
    pub fn new() -> (r: CustomPredicateBatchBuilder)
        ensures
            r.predicates@.len() == 0,
    {
        CustomPredicateBatchBuilder { predicates: Vec::new() }
    }

    /// Adds a conjunction of templates over the given argument and private names.
    pub fn predicate_and(
        &mut self,
        args: &Vec<String>,
        priv_args: &Vec<String>,
        sts: &Vec<StatementTmplBuilder>,
    ) -> (r: Result<Predicate, Error>)
        ensures
            r.is_ok() <==> forall|i: int, j: int|
                0 <= i < sts@.len() && 0 <= j < sts@[i].args@.len() ==> arg_known(
                    args@ + priv_args@,
                    #[trigger] sts@[i].args@[j],
                ),
            r.is_err() ==> final(self).predicates@ == old(self).predicates@,
            r matches Ok(p) ==> {
                let cp = final(self).predicates@.last();
                &&& p == Predicate::BatchSelf(old(self).predicates@.len() as usize)
                &&& final(self).predicates@ == old(self).predicates@.push(cp)
                &&& cp.conjunction == true
                &&& cp.args_len == args@.len()
                &&& cp.statements@.len() == sts@.len()
                &&& forall|i: int|
                    0 <= i < sts@.len() ==> built_tmpl(
                        args@ + priv_args@,
                        #[trigger] sts@[i],
                        cp.statements@[i],
                    )
            },
    {
        self.predicate(true, args, priv_args, sts)
    }

    /// Adds a disjunction of templates over the given argument and private names.
    pub fn predicate_or(
        &mut self,
        args: &Vec<String>,
        priv_args: &Vec<String>,
        sts: &Vec<StatementTmplBuilder>,
    ) -> (r: Result<Predicate, Error>)
        ensures
            r.is_ok() <==> forall|i: int, j: int|
                0 <= i < sts@.len() && 0 <= j < sts@[i].args@.len() ==> arg_known(
                    args@ + priv_args@,
                    #[trigger] sts@[i].args@[j],
                ),
            r.is_err() ==> final(self).predicates@ == old(self).predicates@,
            r matches Ok(p) ==> {
                let cp = final(self).predicates@.last();
                &&& p == Predicate::BatchSelf(old(self).predicates@.len() as usize)
                &&& final(self).predicates@ == old(self).predicates@.push(cp)
                &&& cp.conjunction == false
                &&& cp.args_len == args@.len()
                &&& cp.statements@.len() == sts@.len()
                &&& forall|i: int|
                    0 <= i < sts@.len() ==> built_tmpl(
                        args@ + priv_args@,
                        #[trigger] sts@[i],
                        cp.statements@[i],
                    )
            },
    {
        self.predicate(false, args, priv_args, sts)
    }

    /// Adds a predicate: each template's wildcard names are resolved to their indices among
    /// `args` followed by `priv_args`, and the predicate's reference within the batch is
    /// returned. Fails with `KeyNotFound` where a wildcard name is not declared.
    pub fn predicate(
        &mut self,
        conjunction: bool,
        args: &Vec<String>,
        priv_args: &Vec<String>,
        sts: &Vec<StatementTmplBuilder>,
    ) -> (r: Result<Predicate, Error>)
        ensures
            r.is_ok() <==> forall|i: int, j: int|
                0 <= i < sts@.len() && 0 <= j < sts@[i].args@.len() ==> arg_known(
                    args@ + priv_args@,
                    #[trigger] sts@[i].args@[j],
                ),
            r.is_err() ==> final(self).predicates@ == old(self).predicates@,
            r matches Ok(p) ==> {
                let cp = final(self).predicates@.last();
                &&& p == Predicate::BatchSelf(old(self).predicates@.len() as usize)
                &&& final(self).predicates@ == old(self).predicates@.push(cp)
                &&& cp.conjunction == conjunction
                &&& cp.args_len == args@.len()
                &&& cp.statements@.len() == sts@.len()
                &&& forall|i: int|
                    0 <= i < sts@.len() ==> built_tmpl(
                        args@ + priv_args@,
                        #[trigger] sts@[i],
                        cp.statements@[i],
                    )
            },
    {
        let mut names: Vec<String> = Vec::new();
        let mut k: usize = 0;
        while k < args.len()
            invariant
                k <= args@.len(),
                names@ == args@.take(k as int),
            decreases args.len() - k,
        {
            names.push(args[k].clone());
            k = k + 1;
            assert(names@ =~= args@.take(k as int));
        }
        let mut k: usize = 0;
        while k < priv_args.len()
            invariant
                k <= priv_args@.len(),
                names@ == args@ + priv_args@.take(k as int),
            decreases priv_args.len() - k,
        {
            names.push(priv_args[k].clone());
            k = k + 1;
            assert(names@ =~= args@ + priv_args@.take(k as int));
        }
        assert(args@.take(args@.len() as int) =~= args@);
        assert(priv_args@.take(priv_args@.len() as int) =~= priv_args@);
        let mut statements: Vec<StatementTmpl> = Vec::new();
        let mut i: usize = 0;
        while i < sts.len()
            invariant
                i <= sts@.len(),
                names@ == args@ + priv_args@,
                statements@.len() == i,
                forall|l: int| 0 <= l < i ==> built_tmpl(names@, #[trigger] sts@[l], statements@[l]),
                forall|l: int, j: int|
                    0 <= l < i && 0 <= j < sts@[l].args@.len() ==> arg_known(
                        names@,
                        #[trigger] sts@[l].args@[j],
                    ),
            decreases sts.len() - i,
        {
            let b = &sts[i];
            let mut targs: Vec<StatementTmplArg> = Vec::new();
            let mut j: usize = 0;
            while j < b.args.len()
                invariant
                    j <= b.args@.len(),
                    b == sts@[i as int],
                    i < sts@.len(),
                    names@ == args@ + priv_args@,
                    targs@.len() == j,
                    forall|l: int| 0 <= l < j ==> resolved_arg(names@, #[trigger] b.args@[l], targs@[l]),
                    forall|l: int| 0 <= l < j ==> arg_known(names@, #[trigger] b.args@[l]),
                decreases b.args.len() - j,
            {
                match resolve_arg(&names, &b.args[j]) {
                    Ok(a) => targs.push(a),
                    Err(e) => {
                        proof {
                            assert(!arg_known(names@, sts@[i as int].args@[j as int]));
                        }
                        return Err(e);
                    },
                }
                j = j + 1;
            }
            statements.push(StatementTmpl(b.predicate, targs));
            i = i + 1;
        }
        let ghost before = self.predicates@;
        self.predicates.push(CustomPredicate { conjunction, statements, args_len: args.len() });
        Ok(Predicate::BatchSelf(self.predicates.len() - 1))
    }

    /// The finished batch.
    pub fn finish(self) -> (r: CustomPredicateBatch)
        ensures
            r.predicates@ == self.predicates@,
    {
        CustomPredicateBatch { predicates: self.predicates }
    }
}

} // verus!
