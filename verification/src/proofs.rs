//! The proof object and its parts.
//!
//! A proof owns the commitments to the wire polynomials, the permutation
//! accumulator and the quotient, the evaluations of every committed
//! polynomial at the two challenge points, the opening proof of those
//! evaluations, the public input, and the accumulator state of earlier
//! proofs for recursive composition.  The field and curve elements
//! themselves are opaque to this layer; everything here is bookkeeping
//! whose layout the prover and verifier must agree on exactly.

use vstd::prelude::*;
use vstd::arithmetic::div_mod::{lemma_fundamental_div_mod, lemma_mod_bound};

verus! {

/// A polynomial commitment: one curve point per SRS-sized chunk, plus an
/// optional degree-shifted point when a degree bound is enforced.
pub struct PolyComm<G> {
    pub unshifted: Vec<G>,
    pub shifted: Option<G>,
}

/// The logarithmic-size opening proof: one cross-term pair per folding
/// round, the two final scalars, the blinding point and the folded basis
/// point.
pub struct OpeningProof<G, F> {
    pub lr: Vec<(G, G)>,
    pub z1: F,
    pub z2: F,
    pub delta: G,
    pub sg: G,
}

/// Evaluations of the committed polynomials at one challenge point, in the
/// protocol's fixed order.
pub struct ProofEvaluations<E> {
    pub l: E,
    pub r: E,
    pub o: E,
    pub z: E,
    pub t: E,
    pub f: E,
    pub sigma1: E,
    pub sigma2: E,
}

/// A complete proof.
pub struct ProverProof<G, F> {
    pub l_comm: PolyComm<G>,
    pub r_comm: PolyComm<G>,
    pub o_comm: PolyComm<G>,
    pub z_comm: PolyComm<G>,
    pub t_comm: PolyComm<G>,
    pub opening: OpeningProof<G, F>,
    pub public: Vec<F>,
    pub evals: [ProofEvaluations<Vec<F>>; 2],
    pub prev_challenges: Vec<(Vec<F>, PolyComm<G>)>,
}

/// Assembles evaluation vectors into the protocol's fixed order.
pub fn proof_evaluations_make<E>(
    l: E,
    r: E,
    o: E,
    z: E,
    t: E,
    f: E,
    sigma1: E,
    sigma2: E,
) -> (res: ProofEvaluations<E>)
    ensures
        res == (ProofEvaluations { l, r, o, z, t, f, sigma1, sigma2 }),
{
    ProofEvaluations { l, r, o, z, t, f, sigma1, sigma2 }
}

/// How the flat list of accumulator challenges is distributed over the
/// folded basis points of the earlier proofs: point `i` takes the `i`-th
/// block of `len / points` consecutive challenges, as the commitment of a
/// one-point polynomial with no degree bound.
pub open spec fn prev_challenges_chunked<G, F>(
    ch: Seq<F>,
    sgs: Seq<G>,
    out: Seq<(Vec<F>, PolyComm<G>)>,
) -> bool {
    if ch.len() == 0 {
        out.len() == 0
    } else {
        let k = ch.len() as int / sgs.len() as int;
        &&& out.len() == sgs.len()
        &&& forall|i: int| 0 <= i < out.len() ==> {
            &&& (#[trigger] out[i]).1.shifted is None
            &&& out[i].1.unshifted@ == seq![sgs[i]]
            &&& out[i].0@ == ch.subrange(i * k, (i + 1) * k)
        }
    }
}

/// Groups the flat accumulator-challenge list of the earlier proofs with
/// their folded basis points: `len / points` consecutive challenges per
/// point.
pub fn chunk_prev_challenges<G: Copy, F: Copy>(
    prev_challenges: &Vec<F>,
    prev_sgs: &Vec<G>,
) -> (r: Vec<(Vec<F>, PolyComm<G>)>)
    requires
        prev_challenges@.len() > 0 ==> prev_sgs@.len() > 0,
    ensures
        prev_challenges_chunked(prev_challenges@, prev_sgs@, r@),
{
    let mut out: Vec<(Vec<F>, PolyComm<G>)> = Vec::new();
    if prev_challenges.len() == 0 {
        return out;
    }
    let ghost chs = prev_challenges@;
    let ghost gsgs = prev_sgs@;
    let m: usize = prev_sgs.len();
    let k: usize = prev_challenges.len() / m;
    proof {
        lemma_fundamental_div_mod(chs.len() as int, m as int);
        lemma_mod_bound(chs.len() as int, m as int);
        assert(m * k <= chs.len());
    }
    let mut i: usize = 0;
    #[verifier::loop_isolation(false)]
    while i < m
        invariant
            out@.len() == i,
            i <= m,
            forall|p: int| 0 <= p < i ==> {
                &&& (#[trigger] out@[p]).1.shifted is None
                &&& out@[p].1.unshifted@ == seq![gsgs[p]]
                &&& out@[p].0@ == chs.subrange(p * (k as int), (p + 1) * (k as int))
            },
        decreases m - i,
    {
        proof {
            assert((i + 1) * k <= m * k) by (nonlinear_arith)
                requires i + 1 <= m && k >= 0;
            assert(i * k <= (i + 1) * k) by (nonlinear_arith)
                requires k >= 0 && i >= 0;
            assert((i + 1) * k == i * k + k) by (nonlinear_arith);
        }
        let start: usize = i * k;
        let stop: usize = start + k;
        let mut block: Vec<F> = Vec::new();
        let mut j: usize = start;
        #[verifier::loop_isolation(false)]
        while j < stop
            invariant
                start <= j <= stop,
                stop <= chs.len(),
                block@.len() == j - start,
                forall|q: int| 0 <= q < block@.len() ==> block@[q] == chs[start + q],
            decreases stop - j,
        {
            block.push(prev_challenges[j]);
            j = j + 1;
        }
        proof {
            assert(block@ =~= chs.subrange(start as int, stop as int));
            assert(stop == (i + 1) * k) by (nonlinear_arith)
                requires stop == i * k + k;
        }
        let comm = PolyComm::<G> { unshifted: vec_of_one(prev_sgs[i]), shifted: None };
        out.push((block, comm));
        i = i + 1;
    }
    out
}

/// A one-element vector.
fn vec_of_one<T: Copy>(x: T) -> (r: Vec<T>)
    ensures
        r@ == seq![x],
{
    let mut v: Vec<T> = Vec::new();
    v.push(x);
    proof {
        assert(v@ =~= seq![x]);
    }
    v
}

/// A copy of a vector of plain values.
pub fn copy_vec<T: Copy>(v: &Vec<T>) -> (r: Vec<T>)
    ensures
        r@ == v@,
{
    let mut out: Vec<T> = Vec::new();
    let mut i: usize = 0;
    while i < v.len()
        invariant
            i <= v@.len(),
            out@.len() == i,
            forall|q: int| 0 <= q < i ==> out@[q] == v@[q],
        decreases v@.len() - i,
    {
        out.push(v[i]);
        i = i + 1;
    }
    proof {
        assert(out@ =~= v@);
    }
    out
}

/// Assembles a proof from its parts, as read back from a caller that holds
/// them individually: the five commitments, the opening proof, the public
/// input, the two evaluation vectors, and the accumulator state of earlier
/// proofs given as a flat challenge list with one folded basis point per
/// proof.
pub fn proof_make<G: Copy, F: Copy>(
    primary_input: &Vec<F>,
    l_comm: PolyComm<G>,
    r_comm: PolyComm<G>,
    o_comm: PolyComm<G>,
    z_comm: PolyComm<G>,
    t_comm: PolyComm<G>,
    lr: Vec<(G, G)>,
    z1: F,
    z2: F,
    delta: G,
    sg: G,
    evals0: ProofEvaluations<Vec<F>>,
    evals1: ProofEvaluations<Vec<F>>,
    prev_challenges: &Vec<F>,
    prev_sgs: &Vec<G>,
) -> (res: ProverProof<G, F>)
    requires
        prev_challenges@.len() > 0 ==> prev_sgs@.len() > 0,
    ensures
        res.l_comm == l_comm,
        res.r_comm == r_comm,
        res.o_comm == o_comm,
        res.z_comm == z_comm,
        res.t_comm == t_comm,
        res.opening.lr == lr,
        res.opening.z1 == z1,
        res.opening.z2 == z2,
        res.opening.delta == delta,
        res.opening.sg == sg,
        res.public@ == primary_input@,
        res.evals[0] == evals0,
        res.evals[1] == evals1,
        prev_challenges_chunked(prev_challenges@, prev_sgs@, res.prev_challenges@),
{
    let prev = chunk_prev_challenges(prev_challenges, prev_sgs);
    ProverProof {
        l_comm,
        r_comm,
        o_comm,
        z_comm,
        t_comm,
        opening: OpeningProof { lr, z1, z2, delta, sg },
        public: copy_vec(primary_input),
        evals: [evals0, evals1],
        prev_challenges: prev,
    }
}

} // verus!
