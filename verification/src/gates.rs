//! Gates, wires, and the flattening of copy constraints.
//!
//! A circuit is an ordered list of typed gates.  Each gate row has three
//! wire slots (left, right, output); a wire records the row and column of
//! the slot it is connected to under the circuit's copy-constraint
//! permutation.  Compilation flattens a `(row, column)` wire into a single
//! slot id in `[0, 3n)`, with `n` the evaluation-domain size: column L maps
//! to `row`, R to `row + n`, O to `row + 2n`.

use vstd::prelude::*;
use crate::ProtocolError;
use crate::domain::{compute_size_of_domain, is_domain_size};
use vstd::arithmetic::power2::pow2;

verus! {

/// The column of a wire slot.
#[derive(Clone, Copy, Debug, PartialEq, Eq, Structural)]
pub enum Col {
    L,
    R,
    O,
}

/// A wire: the `(row, column)` slot this slot is connected to.
#[derive(Clone, Copy, Debug, PartialEq, Eq, Structural)]
pub struct Wire {
    pub row: usize,
    pub col: Col,
}

/// The three wires of a gate row, together with the row index.
#[derive(Clone, Copy, Debug, PartialEq, Eq, Structural)]
pub struct Wires {
    pub row: usize,
    pub l: Wire,
    pub r: Wire,
    pub o: Wire,
}

/// The closed enumeration of gate kinds.
#[derive(Clone, Copy, Debug, PartialEq, Eq, Structural)]
pub enum GateType {
    /// Padding row enforcing nothing.
    Zero,
    /// Generic linear/multiplicative gate.
    Generic,
    /// One round of the Poseidon permutation.
    Poseidon,
    /// First row of an addition chain step.
    Add1,
    /// Second row of an addition chain step.
    Add2,
    /// Rows of a variable-base scalar-multiplication step.
    Vbmul1,
    Vbmul2,
    Vbmul3,
    /// Rows of an endomorphism-based scalar-multiplication step.
    Endomul1,
    Endomul2,
    Endomul3,
    Endomul4,
}

/// A gate as a circuit builder describes it: a kind, the three wires, and
/// the kind-specific coefficients.
pub struct Gate<F> {
    pub typ: GateType,
    pub wires: Wires,
    pub c: Vec<F>,
}

/// A gate after compilation: each wire slot is the pair of its own flat
/// slot id and the flat slot id it is connected to.
pub struct CircuitGate<F> {
    pub typ: GateType,
    pub wires: GateWires,
    pub c: Vec<F>,
}

/// The three compiled wire slots of a row: `(own slot id, connected slot id)`.
#[derive(Clone, Copy, Debug, PartialEq, Eq)]
pub struct GateWires {
    pub l: (usize, usize),
    pub r: (usize, usize),
    pub o: (usize, usize),
}

/// Offset of a column in the flattened slot space.
pub open spec fn col_offset(c: Col) -> nat {
    match c {
        Col::L => 0,
        Col::R => 1,
        Col::O => 2,
    }
}

/// Flat slot id of a wire over a domain of `n` rows.
pub open spec fn flat_index(n: nat, w: Wire) -> nat {
    (w.row + n * col_offset(w.col)) as nat
}

/// Appends a gate built from its parts to a gate vector.
pub fn gate_vector_add<F>(
    v: &mut Vec<Gate<F>>,
    typ: GateType,
    row: usize,
    lrow: usize,
    lcol: Col,
    rrow: usize,
    rcol: Col,
    orow: usize,
    ocol: Col,
    c: Vec<F>,
)
    ensures
        final(v)@ == old(v)@.push(Gate {
            typ,
            wires: Wires {
                row,
                l: Wire { row: lrow, col: lcol },
                r: Wire { row: rrow, col: rcol },
                o: Wire { row: orow, col: ocol },
            },
            c,
        }),
{
    v.push(Gate {
        typ,
        wires: Wires {
            row,
            l: Wire { row: lrow, col: lcol },
            r: Wire { row: rrow, col: rcol },
            o: Wire { row: orow, col: ocol },
        },
        c,
    });
}


/// Appends a `Zero` gate built from its parts.
pub fn gate_vector_add_zero<F>(
    v: &mut Vec<Gate<F>>,
    row: usize,
    lrow: usize,
    lcol: Col,
    rrow: usize,
    rcol: Col,
    orow: usize,
    ocol: Col,
    c: Vec<F>,
)
    ensures
        final(v)@ == old(v)@.push(Gate {
            typ: GateType::Zero,
            wires: Wires {
                row,
                l: Wire { row: lrow, col: lcol },
                r: Wire { row: rrow, col: rcol },
                o: Wire { row: orow, col: ocol },
            },
            c,
        }),
{
    gate_vector_add(v, GateType::Zero, row, lrow, lcol, rrow, rcol, orow, ocol, c);
}

/// Appends a `Generic` gate built from its parts.
pub fn gate_vector_add_generic<F>(
    v: &mut Vec<Gate<F>>,
    row: usize,
    lrow: usize,
    lcol: Col,
    rrow: usize,
    rcol: Col,
    orow: usize,
    ocol: Col,
    c: Vec<F>,
)
    ensures
        final(v)@ == old(v)@.push(Gate {
            typ: GateType::Generic,
            wires: Wires {
                row,
                l: Wire { row: lrow, col: lcol },
                r: Wire { row: rrow, col: rcol },
                o: Wire { row: orow, col: ocol },
            },
            c,
        }),
{
    gate_vector_add(v, GateType::Generic, row, lrow, lcol, rrow, rcol, orow, ocol, c);
}

/// Appends a `Poseidon` gate built from its parts.
pub fn gate_vector_add_poseidon<F>(
    v: &mut Vec<Gate<F>>,
    row: usize,
    lrow: usize,
    lcol: Col,
    rrow: usize,
    rcol: Col,
    orow: usize,
    ocol: Col,
    c: Vec<F>,
)
    ensures
        final(v)@ == old(v)@.push(Gate {
            typ: GateType::Poseidon,
            wires: Wires {
                row,
                l: Wire { row: lrow, col: lcol },
                r: Wire { row: rrow, col: rcol },
                o: Wire { row: orow, col: ocol },
            },
            c,
        }),
{
    gate_vector_add(v, GateType::Poseidon, row, lrow, lcol, rrow, rcol, orow, ocol, c);
}

/// Appends a `Add1` gate built from its parts.
pub fn gate_vector_add_add1<F>(
    v: &mut Vec<Gate<F>>,
    row: usize,
    lrow: usize,
    lcol: Col,
    rrow: usize,
    rcol: Col,
    orow: usize,
    ocol: Col,
    c: Vec<F>,
)
    ensures
        final(v)@ == old(v)@.push(Gate {
            typ: GateType::Add1,
            wires: Wires {
                row,
                l: Wire { row: lrow, col: lcol },
                r: Wire { row: rrow, col: rcol },
                o: Wire { row: orow, col: ocol },
            },
            c,
        }),
{
    gate_vector_add(v, GateType::Add1, row, lrow, lcol, rrow, rcol, orow, ocol, c);
}

/// Appends a `Add2` gate built from its parts.
pub fn gate_vector_add_add2<F>(
    v: &mut Vec<Gate<F>>,
    row: usize,
    lrow: usize,
    lcol: Col,
    rrow: usize,
    rcol: Col,
    orow: usize,
    ocol: Col,
    c: Vec<F>,
)
    ensures
        final(v)@ == old(v)@.push(Gate {
            typ: GateType::Add2,
            wires: Wires {
                row,
                l: Wire { row: lrow, col: lcol },
                r: Wire { row: rrow, col: rcol },
                o: Wire { row: orow, col: ocol },
            },
            c,
        }),
{
    gate_vector_add(v, GateType::Add2, row, lrow, lcol, rrow, rcol, orow, ocol, c);
}

/// Appends a `Vbmul1` gate built from its parts.
pub fn gate_vector_add_vbmul1<F>(
    v: &mut Vec<Gate<F>>,
    row: usize,
    lrow: usize,
    lcol: Col,
    rrow: usize,
    rcol: Col,
    orow: usize,
    ocol: Col,
    c: Vec<F>,
)
    ensures
        final(v)@ == old(v)@.push(Gate {
            typ: GateType::Vbmul1,
            wires: Wires {
                row,
                l: Wire { row: lrow, col: lcol },
                r: Wire { row: rrow, col: rcol },
                o: Wire { row: orow, col: ocol },
            },
            c,
        }),
{
    gate_vector_add(v, GateType::Vbmul1, row, lrow, lcol, rrow, rcol, orow, ocol, c);
}

/// Appends a `Vbmul2` gate built from its parts.
pub fn gate_vector_add_vbmul2<F>(
    v: &mut Vec<Gate<F>>,
    row: usize,
    lrow: usize,
    lcol: Col,
    rrow: usize,
    rcol: Col,
    orow: usize,
    ocol: Col,
    c: Vec<F>,
)
    ensures
        final(v)@ == old(v)@.push(Gate {
            typ: GateType::Vbmul2,
            wires: Wires {
                row,
                l: Wire { row: lrow, col: lcol },
                r: Wire { row: rrow, col: rcol },
                o: Wire { row: orow, col: ocol },
            },
            c,
        }),
{
    gate_vector_add(v, GateType::Vbmul2, row, lrow, lcol, rrow, rcol, orow, ocol, c);
}

/// Appends a `Vbmul3` gate built from its parts.
pub fn gate_vector_add_vbmul3<F>(
    v: &mut Vec<Gate<F>>,
    row: usize,
    lrow: usize,
    lcol: Col,
    rrow: usize,
    rcol: Col,
    orow: usize,
    ocol: Col,
    c: Vec<F>,
)
    ensures
        final(v)@ == old(v)@.push(Gate {
            typ: GateType::Vbmul3,
            wires: Wires {
                row,
                l: Wire { row: lrow, col: lcol },
                r: Wire { row: rrow, col: rcol },
                o: Wire { row: orow, col: ocol },
            },
            c,
        }),
{
    gate_vector_add(v, GateType::Vbmul3, row, lrow, lcol, rrow, rcol, orow, ocol, c);
}

/// Appends a `Endomul1` gate built from its parts.
pub fn gate_vector_add_endomul1<F>(
    v: &mut Vec<Gate<F>>,
    row: usize,
    lrow: usize,
    lcol: Col,
    rrow: usize,
    rcol: Col,
    orow: usize,
    ocol: Col,
    c: Vec<F>,
)
    ensures
        final(v)@ == old(v)@.push(Gate {
            typ: GateType::Endomul1,
            wires: Wires {
                row,
                l: Wire { row: lrow, col: lcol },
                r: Wire { row: rrow, col: rcol },
                o: Wire { row: orow, col: ocol },
            },
            c,
        }),
{
    gate_vector_add(v, GateType::Endomul1, row, lrow, lcol, rrow, rcol, orow, ocol, c);
}

/// Appends a `Endomul2` gate built from its parts.
pub fn gate_vector_add_endomul2<F>(
    v: &mut Vec<Gate<F>>,
    row: usize,
    lrow: usize,
    lcol: Col,
    rrow: usize,
    rcol: Col,
    orow: usize,
    ocol: Col,
    c: Vec<F>,
)
    ensures
        final(v)@ == old(v)@.push(Gate {
            typ: GateType::Endomul2,
            wires: Wires {
                row,
                l: Wire { row: lrow, col: lcol },
                r: Wire { row: rrow, col: rcol },
                o: Wire { row: orow, col: ocol },
            },
            c,
        }),
{
    gate_vector_add(v, GateType::Endomul2, row, lrow, lcol, rrow, rcol, orow, ocol, c);
}

/// Appends a `Endomul3` gate built from its parts.
pub fn gate_vector_add_endomul3<F>(
    v: &mut Vec<Gate<F>>,
    row: usize,
    lrow: usize,
    lcol: Col,
    rrow: usize,
    rcol: Col,
    orow: usize,
    ocol: Col,
    c: Vec<F>,
)
    ensures
        final(v)@ == old(v)@.push(Gate {
            typ: GateType::Endomul3,
            wires: Wires {
                row,
                l: Wire { row: lrow, col: lcol },
                r: Wire { row: rrow, col: rcol },
                o: Wire { row: orow, col: ocol },
            },
            c,
        }),
{
    gate_vector_add(v, GateType::Endomul3, row, lrow, lcol, rrow, rcol, orow, ocol, c);
}

/// Appends a `Endomul4` gate built from its parts.
pub fn gate_vector_add_endomul4<F>(
    v: &mut Vec<Gate<F>>,
    row: usize,
    lrow: usize,
    lcol: Col,
    rrow: usize,
    rcol: Col,
    orow: usize,
    ocol: Col,
    c: Vec<F>,
)
    ensures
        final(v)@ == old(v)@.push(Gate {
            typ: GateType::Endomul4,
            wires: Wires {
                row,
                l: Wire { row: lrow, col: lcol },
                r: Wire { row: rrow, col: rcol },
                o: Wire { row: orow, col: ocol },
            },
            c,
        }),
{
    gate_vector_add(v, GateType::Endomul4, row, lrow, lcol, rrow, rcol, orow, ocol, c);
}

/// Patches a wire.
pub fn gate_vector_wrap<F>(v: &mut Vec<Gate<F>>, trow: usize, tcol: Col, hrow: usize, hcol: Col)
    requires
        trow < old(v)@.len(),
    ensures
        final(v)@.len() == old(v)@.len(),
        forall|i: int| 0 <= i < old(v)@.len() && i != trow ==> final(v)@[i] == old(v)@[i],
        final(v)@[trow as int].typ == old(v)@[trow as int].typ,
        final(v)@[trow as int].c == old(v)@[trow as int].c,
        final(v)@[trow as int].wires.row == old(v)@[trow as int].wires.row,
        final(v)@[trow as int].wires.l == (if tcol == Col::L {
            Wire { row: hrow, col: hcol }
        } else {
            old(v)@[trow as int].wires.l
        }),
        final(v)@[trow as int].wires.r == (if tcol == Col::R {
            Wire { row: hrow, col: hcol }
        } else {
            old(v)@[trow as int].wires.r
        }),
        final(v)@[trow as int].wires.o == (if tcol == Col::O {
            Wire { row: hrow, col: hcol }
        } else {
            old(v)@[trow as int].wires.o
        }),
{
    let g = &mut v[trow];
    match tcol {
        Col::L => {
            g.wires.l = Wire { row: hrow, col: hcol };
        },
        Col::R => {
            g.wires.r = Wire { row: hrow, col: hcol };
        },
        Col::O => {
            g.wires.o = Wire { row: hrow, col: hcol };
        },
    }
}

/// What compilation makes of one gate: the slot ids of its own row and the
/// flat targets of its three wires.
pub open spec fn gate_flattened<F>(g: Gate<F>, cg: CircuitGate<F>, n: nat) -> bool {
    &&& cg.typ == g.typ
    &&& cg.c == g.c
    &&& cg.wires.l.0 == g.wires.row
    &&& cg.wires.r.0 == g.wires.row + n
    &&& cg.wires.o.0 == g.wires.row + 2 * n
    &&& cg.wires.l.1 == flat_index(n, g.wires.l)
    &&& cg.wires.r.1 == flat_index(n, g.wires.r)
    &&& cg.wires.o.1 == flat_index(n, g.wires.o)
}

/// All rows named by a gate lie inside the domain.
pub open spec fn gate_rows_in_bounds<F>(g: Gate<F>, n: nat) -> bool {
    &&& g.wires.row < n
    &&& g.wires.l.row < n
    &&& g.wires.r.row < n
    &&& g.wires.o.row < n
}

/// Compiles a gate list: sizes the evaluation domain to the public inputs
/// plus the gates, checks every referenced row against the domain, and
/// flattens each gate's wires into slot ids.  Rejects with a configuration
/// error a circuit with no public inputs, one whose domain would exceed the
/// field's 2-adicity or the machine word, and one whose gates reference
/// rows outside the domain.
pub fn circuit_compile<F>(
    gates: Vec<Gate<F>>,
    public: usize,
    two_adicity: u32,
) -> (r: Result<(Vec<CircuitGate<F>>, usize), ProtocolError>)
    requires
        public + gates@.len() <= usize::MAX / 2 + 1,
    ensures
        match r {
            Ok(out) => {
                let n = out.1 as nat;
                &&& public >= 1
                &&& is_domain_size((public + gates@.len()) as nat, two_adicity as nat, n)
                &&& 3 * n <= usize::MAX
                &&& out.0@.len() == gates@.len()
                &&& forall|i: int| 0 <= i < gates@.len()
                    ==> #[trigger] gate_rows_in_bounds(gates@[i], n)
                &&& forall|i: int| 0 <= i < gates@.len()
                    ==> #[trigger] gate_flattened(gates@[i], out.0@[i], n)
            },
            Err(e) => {
                &&& e == ProtocolError::ConfigurationError
                &&& public == 0
                    || (forall|k: nat| k <= two_adicity
                        ==> #[trigger] pow2(k) < public + gates@.len())
                    || (exists|s: nat|
                        #[trigger] is_domain_size((public + gates@.len()) as nat,
                            two_adicity as nat, s)
                        && (3 * s > usize::MAX
                            || exists|i: int| 0 <= i < gates@.len()
                                && !gate_rows_in_bounds(#[trigger] gates@[i], s)))
            },
        },
{
    if public == 0 {
        return Err(ProtocolError::ConfigurationError);
    }
    let n = match compute_size_of_domain(public + gates.len(), two_adicity) {
        Some(s) => s,
        None => {
            return Err(ProtocolError::ConfigurationError);
        },
    };
    if n as u128 * 3 > usize::MAX as u128 {
        proof {
            let total = (public + gates@.len()) as nat;
            assert(is_domain_size(total, two_adicity as nat, n as nat)
                && 3 * (n as nat) > usize::MAX);
        }
        return Err(ProtocolError::ConfigurationError);
    }
    let mut out: Vec<CircuitGate<F>> = Vec::new();
    let mut gates = gates;
    let ghost gseq = gates@;
    let mut i: usize = 0;
    #[verifier::loop_isolation(false)]
    while gates.len() > 0
        invariant
            public >= 1,
            is_domain_size((public + gseq.len()) as nat, two_adicity as nat, n as nat),
            3 * n <= usize::MAX,
            i + gates@.len() == gseq.len(),
            gates@ == gseq.skip(i as int),
            out@.len() == i,
            forall|k: int| 0 <= k < i ==> #[trigger] gate_rows_in_bounds(gseq[k], n as nat),
            forall|k: int| 0 <= k < i ==> #[trigger] gate_flattened(gseq[k], out@[k], n as nat),
        decreases gates@.len(),
    {
        let g = gates.remove(0);
        proof {
            assert(g == gseq[i as int]);
            assert(gates@ =~= gseq.skip(i as int + 1));
        }
        if g.wires.row >= n || g.wires.l.row >= n || g.wires.r.row >= n || g.wires.o.row >= n {
            proof {
                let total = (public + gseq.len()) as nat;
                assert(0 <= i < gseq.len());
                assert(!gate_rows_in_bounds(gseq[i as int], n as nat));
                assert(is_domain_size(total, two_adicity as nat, n as nat)
                    && (exists|ix: int| 0 <= ix < gseq.len()
                        && !gate_rows_in_bounds(#[trigger] gseq[ix], n as nat)));
            }
            return Err(ProtocolError::ConfigurationError);
        }
        let row = g.wires.row;
        let lt = flat_index_exec(n, g.wires.l);
        let rt = flat_index_exec(n, g.wires.r);
        let ot = flat_index_exec(n, g.wires.o);
        let cg = CircuitGate {
            typ: g.typ,
            wires: GateWires { l: (row, lt), r: (row + n, rt), o: (row + 2 * n, ot) },
            c: g.c,
        };
        proof {
            assert(gate_flattened(gseq[i as int], cg, n as nat));
        }
        out.push(cg);
        i = i + 1;
    }
    proof {
        assert(gseq.skip(gseq.len() as int) =~= Seq::<Gate<F>>::empty());
    }
    Ok((out, n))
}

/// Flat slot id of a wire over a domain of `n` rows.
pub fn flat_index_exec(n: usize, w: Wire) -> (r: usize)
    requires
        w.row < n,
        3 * n <= usize::MAX,
    ensures
        r == flat_index(n as nat, w),
{
    match w.col {
        Col::L => w.row,
        Col::R => w.row + n,
        Col::O => w.row + 2 * n,
    }
}

/// A wire inside the domain flattens to a slot id below `3 * n`.
pub proof fn lemma_flat_index_range(n: nat, w: Wire)
    requires
        w.row < n,
    ensures
        flat_index(n, w) < 3 * n,
{
}

/// Two wires inside the domain with the same flat slot id are the same
/// wire: flattening never merges distinct wires.
pub proof fn lemma_flat_index_injective(n: nat, w1: Wire, w2: Wire)
    requires
        w1.row < n,
        w2.row < n,
        flat_index(n, w1) == flat_index(n, w2),
    ensures
        w1 == w2,
{
}

/// Every slot id below `3 * n` is the flat id of exactly one wire inside
/// the domain: flattening leaves no slot out.
pub proof fn lemma_flat_index_surjective(n: usize, j: nat)
    requires
        j < 3 * (n as nat),
        3 * (n as nat) <= usize::MAX,
    ensures
        exists|w: Wire| w.row < n && flat_index(n as nat, w) == j,
{
    if j < n as nat {
        let w = Wire { row: j as usize, col: Col::L };
        assert(n * col_offset(w.col) == 0);
        assert(w.row < n && flat_index(n as nat, w) == j);
    } else if j < 2 * (n as nat) {
        let w = Wire { row: (j - n) as usize, col: Col::R };
        assert(w.row as nat == j - n);
        assert(n * col_offset(w.col) == n * 1);
        assert(w.row < n && flat_index(n as nat, w) == j);
    } else {
        let w = Wire { row: (j - 2 * (n as nat)) as usize, col: Col::O };
        assert(w.row as nat == j - 2 * (n as nat));
        assert(n * col_offset(w.col) == n * 2);
        assert(w.row < n && flat_index(n as nat, w) == j);
    }
}

} // verus!
