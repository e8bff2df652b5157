//! Structural synthesis of a circuit into sparse R1CS constraint matrices.
//!
//! The assembler collects, for every public-input wire and every auxiliary
//! wire, the sparse `(coefficient, constraint index)` entries that the wire
//! contributes to the A, B and C matrices.  No witness values are involved:
//! allocation only counts wires, and `enforce` only records coefficients.

use vstd::pervasive::VecAdditionalExecFns;
use vstd::prelude::*;

use crate::curve::{fr_from_u64, fr_u64_repr, fr_valid, FrElem};
use crate::SynthesisError;

verus! {

/// The kind and position of an allocated wire: a public input or an
/// auxiliary (witness) wire, each numbered from zero.
#[derive(Clone, Copy, PartialEq, Eq, Structural)]
pub enum Index {
    Input(usize),
    Aux(usize),
}

/// An opaque handle to an allocated wire.
#[derive(Clone, Copy, PartialEq, Eq, Structural)]
pub struct Variable(pub Index);

/// A linear combination of wires: a list of `(coefficient, wire)` terms.
pub struct LinearCombination {
    pub terms: Vec<(FrElem, Variable)>,
}

/// The view of a term list: coefficient encodings paired with wire indices.
pub open spec fn lc_views(s: Seq<(FrElem, Variable)>) -> Seq<(Seq<u8>, Index)> {
    Seq::new(s.len(), |i: int| (s[i].0@, s[i].1.0))
}

impl LinearCombination {
    /// The empty combination.
    pub fn new() -> (r: LinearCombination)
        ensures
            lc_views(r.terms@) == Seq::<(Seq<u8>, Index)>::empty(),
            r.terms@.len() == 0,
    {
        let r = LinearCombination { terms: Vec::new() };
        proof {
            assert(lc_views(r.terms@) =~= Seq::<(Seq<u8>, Index)>::empty());
        }
        r
    }

    /// Appends one `(coefficient, wire)` term.
    pub fn push_term(&mut self, coeff: FrElem, var: Variable)
        ensures
            lc_views(final(self).terms@) == lc_views(old(self).terms@).push((coeff@, var.0)),
            final(self).terms@.len() == old(self).terms@.len() + 1,
    {
        let ghost prev = lc_views(self.terms@);
        self.terms.push((coeff, var));
        proof {
            assert(lc_views(self.terms@) =~= prev.push((coeff@, var.0)));
        }
    }
}

/// One sparse matrix row entry seen abstractly: the coefficient's canonical
/// encoding and the constraint index it belongs to.
pub open spec fn row_views(s: Seq<(FrElem, usize)>) -> Seq<(Seq<u8>, int)> {
    Seq::new(s.len(), |i: int| (s[i].0@, s[i].1 as int))
}

/// The rows of one wire class of one matrix, seen abstractly.
pub open spec fn matrix_views(m: Seq<Vec<(FrElem, usize)>>) -> Seq<Seq<(Seq<u8>, int)>> {
    Seq::new(m.len(), |i: int| row_views(m[i]@))
}

/// The transient constraint-system assembly used during structural
/// synthesis: per-wire sparse rows of the three matrices, split between
/// public-input wires and auxiliary wires, plus the running counts.
pub struct KeypairAssembly {
    pub num_inputs: usize,
    pub num_aux: usize,
    pub num_constraints: usize,
    pub at_inputs: Vec<Vec<(FrElem, usize)>>,
    pub bt_inputs: Vec<Vec<(FrElem, usize)>>,
    pub ct_inputs: Vec<Vec<(FrElem, usize)>>,
    pub at_aux: Vec<Vec<(FrElem, usize)>>,
    pub bt_aux: Vec<Vec<(FrElem, usize)>>,
    pub ct_aux: Vec<Vec<(FrElem, usize)>>,
}

/// The view of an assembly.
#[verifier::ext_equal]
pub ghost struct AssemblyView {
    pub num_inputs: int,
    pub num_aux: int,
    pub num_constraints: int,
    pub at_inputs: Seq<Seq<(Seq<u8>, int)>>,
    pub bt_inputs: Seq<Seq<(Seq<u8>, int)>>,
    pub ct_inputs: Seq<Seq<(Seq<u8>, int)>>,
    pub at_aux: Seq<Seq<(Seq<u8>, int)>>,
    pub bt_aux: Seq<Seq<(Seq<u8>, int)>>,
    pub ct_aux: Seq<Seq<(Seq<u8>, int)>>,
}

impl View for KeypairAssembly {
    type V = AssemblyView;

    open spec fn view(&self) -> AssemblyView {
        AssemblyView {
            num_inputs: self.num_inputs as int,
            num_aux: self.num_aux as int,
            num_constraints: self.num_constraints as int,
            at_inputs: matrix_views(self.at_inputs@),
            bt_inputs: matrix_views(self.bt_inputs@),
            ct_inputs: matrix_views(self.ct_inputs@),
            at_aux: matrix_views(self.at_aux@),
            bt_aux: matrix_views(self.bt_aux@),
            ct_aux: matrix_views(self.ct_aux@),
        }
    }
}

/// One recorded matrix entry is well-formed: a valid scalar encoding tagged
/// with a constraint index below the count.
pub open spec fn term_wf(t: (Seq<u8>, int), nc: int) -> bool {
    0 <= t.1 < nc && t.0.len() == 32 && fr_valid(t.0)
}

/// All entries of one wire class of one matrix are well-formed.
pub open spec fn rows_wf(m: Seq<Seq<(Seq<u8>, int)>>, nc: int) -> bool {
    forall|i: int, j: int|
        0 <= i < m.len() && 0 <= j < m[i].len() ==> term_wf(#[trigger] m[i][j], nc)
}

impl AssemblyView {
    /// Row counts match the wire counts.
    pub open spec fn counts_ok(self) -> bool {
        &&& self.at_inputs.len() == self.num_inputs
        &&& self.bt_inputs.len() == self.num_inputs
        &&& self.ct_inputs.len() == self.num_inputs
        &&& self.at_aux.len() == self.num_aux
        &&& self.bt_aux.len() == self.num_aux
        &&& self.ct_aux.len() == self.num_aux
    }

    /// A well-formed assembly: counts match, every entry holds a valid
    /// scalar encoding and a constraint index below the count.
    pub open spec fn wf(self) -> bool {
        &&& self.counts_ok()
        &&& 0 <= self.num_constraints
        &&& rows_wf(self.at_inputs, self.num_constraints)
        &&& rows_wf(self.bt_inputs, self.num_constraints)
        &&& rows_wf(self.ct_inputs, self.num_constraints)
        &&& rows_wf(self.at_aux, self.num_constraints)
        &&& rows_wf(self.bt_aux, self.num_constraints)
        &&& rows_wf(self.ct_aux, self.num_constraints)
    }
}

/// Every wire of a term list exists in an assembly with `ni` inputs and
/// `na` auxiliary wires.
pub open spec fn lc_in_range(terms: Seq<(Seq<u8>, Index)>, ni: int, na: int) -> bool {
    forall|i: int|
        0 <= i < terms.len() ==> match (#[trigger] terms[i]).1 {
            Index::Input(id) => id < ni,
            Index::Aux(id) => id < na,
        }
}

/// Distributes a term list into the per-wire rows: each `(coefficient,
/// wire)` term is appended, tagged with constraint index `c`, to the wire's
/// row in the input or auxiliary class.
pub open spec fn distribute(
    inp: Seq<Seq<(Seq<u8>, int)>>,
    aux: Seq<Seq<(Seq<u8>, int)>>,
    terms: Seq<(Seq<u8>, Index)>,
    c: int,
) -> (Seq<Seq<(Seq<u8>, int)>>, Seq<Seq<(Seq<u8>, int)>>)
    decreases terms.len(),
{
    if terms.len() == 0 {
        (inp, aux)
    } else {
        let (inp1, aux1) = distribute(inp, aux, terms.drop_last(), c);
        let t = terms.last();
        match t.1 {
            Index::Input(id) => (
                inp1.update(id as int, inp1[id as int].push((t.0, c))),
                aux1,
            ),
            Index::Aux(id) => (
                inp1,
                aux1.update(id as int, aux1[id as int].push((t.0, c))),
            ),
        }
    }
}

/// Distribution keeps the row counts.
pub proof fn lemma_distribute_lens(
    inp: Seq<Seq<(Seq<u8>, int)>>,
    aux: Seq<Seq<(Seq<u8>, int)>>,
    terms: Seq<(Seq<u8>, Index)>,
    c: int,
)
    requires
        lc_in_range(terms, inp.len() as int, aux.len() as int),
    ensures
        distribute(inp, aux, terms, c).0.len() == inp.len(),
        distribute(inp, aux, terms, c).1.len() == aux.len(),
    decreases terms.len(),
{
    if terms.len() == 0 {
    } else {
        assert(lc_in_range(terms.drop_last(), inp.len() as int, aux.len() as int)) by {
            assert(forall|i: int|
                0 <= i < terms.drop_last().len() ==> terms.drop_last()[i] == #[trigger] terms[i]);
        }
        lemma_distribute_lens(inp, aux, terms.drop_last(), c);
        let (inp1, aux1) = distribute(inp, aux, terms.drop_last(), c);
        let t = terms.last();
        assert(terms[terms.len() - 1] == terms.last());
        match t.1 {
            Index::Input(id) => {
                assert(distribute(inp, aux, terms, c).0 == inp1.update(
                    id as int,
                    inp1[id as int].push((t.0, c)),
                ));
                assert(distribute(inp, aux, terms, c).1 == aux1);
            },
            Index::Aux(id) => {
                assert(distribute(inp, aux, terms, c).0 == inp1);
                assert(distribute(inp, aux, terms, c).1 == aux1.update(
                    id as int,
                    aux1[id as int].push((t.0, c)),
                ));
            },
        }
    }
}

/// A circuit, described by the constraints it synthesizes into an assembly.
/// Implementors call `alloc`, `alloc_input` and `enforce`; nothing further
/// is assumed of them.
pub trait Circuit {
    /// Writes the circuit's wires and constraints into `cs`.
    fn synthesize(&self, cs: &mut KeypairAssembly) -> Result<(), SynthesisError>;
}

impl KeypairAssembly {
    /// A fresh, empty assembly.
    pub fn new() -> (r: KeypairAssembly)
        ensures
            r@.num_inputs == 0,
            r@.num_aux == 0,
            r@.num_constraints == 0,
            r@.at_inputs.len() == 0,
            r@.bt_inputs.len() == 0,
            r@.ct_inputs.len() == 0,
            r@.at_aux.len() == 0,
            r@.bt_aux.len() == 0,
            r@.ct_aux.len() == 0,
            r@.wf(),
    {
        KeypairAssembly {
            num_inputs: 0,
            num_aux: 0,
            num_constraints: 0,
            at_inputs: Vec::new(),
            bt_inputs: Vec::new(),
            ct_inputs: Vec::new(),
            at_aux: Vec::new(),
            bt_aux: Vec::new(),
            ct_aux: Vec::new(),
        }
    }

    /// Allocates one auxiliary wire.  No value is assigned: structural
    /// synthesis needs none.
    pub fn alloc_aux(&mut self) -> (r: Variable)
        requires
            old(self).num_aux < usize::MAX,
        ensures
            r == Variable(Index::Aux(old(self).num_aux)),
            final(self)@.num_aux == old(self)@.num_aux + 1,
            final(self)@.at_aux == old(self)@.at_aux.push(Seq::<(Seq<u8>, int)>::empty()),
            final(self)@.bt_aux == old(self)@.bt_aux.push(Seq::<(Seq<u8>, int)>::empty()),
            final(self)@.ct_aux == old(self)@.ct_aux.push(Seq::<(Seq<u8>, int)>::empty()),
            final(self)@.num_inputs == old(self)@.num_inputs,
            final(self)@.num_constraints == old(self)@.num_constraints,
            final(self)@.at_inputs == old(self)@.at_inputs,
            final(self)@.bt_inputs == old(self)@.bt_inputs,
            final(self)@.ct_inputs == old(self)@.ct_inputs,
    {
        let index = self.num_aux;
        self.num_aux = self.num_aux + 1;
        self.at_aux.push(Vec::new());
        self.bt_aux.push(Vec::new());
        self.ct_aux.push(Vec::new());
        proof {
            assert(matrix_views(self.at_aux@) =~~= matrix_views(old(self).at_aux@).push(
                Seq::<(Seq<u8>, int)>::empty(),
            ));
            assert(matrix_views(self.bt_aux@) =~~= matrix_views(old(self).bt_aux@).push(
                Seq::<(Seq<u8>, int)>::empty(),
            ));
            assert(matrix_views(self.ct_aux@) =~~= matrix_views(old(self).ct_aux@).push(
                Seq::<(Seq<u8>, int)>::empty(),
            ));
        }
        Variable(Index::Aux(index))
    }

    /// Allocates one public-input wire.  No value is assigned.
    pub fn alloc_input(&mut self) -> (r: Variable)
        requires
            old(self).num_inputs < usize::MAX,
        ensures
            r == Variable(Index::Input(old(self).num_inputs)),
            final(self)@.num_inputs == old(self)@.num_inputs + 1,
            final(self)@.at_inputs == old(self)@.at_inputs.push(Seq::<(Seq<u8>, int)>::empty()),
            final(self)@.bt_inputs == old(self)@.bt_inputs.push(Seq::<(Seq<u8>, int)>::empty()),
            final(self)@.ct_inputs == old(self)@.ct_inputs.push(Seq::<(Seq<u8>, int)>::empty()),
            final(self)@.num_aux == old(self)@.num_aux,
            final(self)@.num_constraints == old(self)@.num_constraints,
            final(self)@.at_aux == old(self)@.at_aux,
            final(self)@.bt_aux == old(self)@.bt_aux,
            final(self)@.ct_aux == old(self)@.ct_aux,
    {
        let index = self.num_inputs;
        self.num_inputs = self.num_inputs + 1;
        self.at_inputs.push(Vec::new());
        self.bt_inputs.push(Vec::new());
        self.ct_inputs.push(Vec::new());
        proof {
            assert(matrix_views(self.at_inputs@) =~~= matrix_views(old(self).at_inputs@).push(
                Seq::<(Seq<u8>, int)>::empty(),
            ));
            assert(matrix_views(self.bt_inputs@) =~~= matrix_views(old(self).bt_inputs@).push(
                Seq::<(Seq<u8>, int)>::empty(),
            ));
            assert(matrix_views(self.ct_inputs@) =~~= matrix_views(old(self).ct_inputs@).push(
                Seq::<(Seq<u8>, int)>::empty(),
            ));
        }
        Variable(Index::Input(index))
    }

    /// Records one constraint `a * b = c`: each combination's terms are
    /// distributed into the per-wire rows of the matching matrix, tagged
    /// with the current constraint index, which is then advanced.  Nothing
    /// is evaluated.
    pub fn enforce(&mut self, a: &LinearCombination, b: &LinearCombination, c: &LinearCombination)
        requires
            old(self)@.counts_ok(),
            old(self).num_constraints < usize::MAX,
            lc_in_range(lc_views(a.terms@), old(self)@.num_inputs, old(self)@.num_aux),
            lc_in_range(lc_views(b.terms@), old(self)@.num_inputs, old(self)@.num_aux),
            lc_in_range(lc_views(c.terms@), old(self)@.num_inputs, old(self)@.num_aux),
        ensures
            final(self)@.num_inputs == old(self)@.num_inputs,
            final(self)@.num_aux == old(self)@.num_aux,
            final(self)@.num_constraints == old(self)@.num_constraints + 1,
            (final(self)@.at_inputs, final(self)@.at_aux) == distribute(
                old(self)@.at_inputs,
                old(self)@.at_aux,
                lc_views(a.terms@),
                old(self)@.num_constraints,
            ),
            (final(self)@.bt_inputs, final(self)@.bt_aux) == distribute(
                old(self)@.bt_inputs,
                old(self)@.bt_aux,
                lc_views(b.terms@),
                old(self)@.num_constraints,
            ),
            (final(self)@.ct_inputs, final(self)@.ct_aux) == distribute(
                old(self)@.ct_inputs,
                old(self)@.ct_aux,
                lc_views(c.terms@),
                old(self)@.num_constraints,
            ),
    {
        let this_constraint = self.num_constraints;
        apply_lc(&mut self.at_inputs, &mut self.at_aux, a, this_constraint);
        apply_lc(&mut self.bt_inputs, &mut self.bt_aux, b, this_constraint);
        apply_lc(&mut self.ct_inputs, &mut self.ct_aux, c, this_constraint);
        self.num_constraints = self.num_constraints + 1;
    }

    /// Accepts a namespace push; names only serve diagnostics elsewhere and
    /// structural synthesis ignores them.
    pub fn push_namespace(&mut self)
        ensures
            *final(self) == *old(self),
    {
    }

    /// Accepts a namespace pop; a no-op, as `push_namespace` is.
    pub fn pop_namespace(&mut self)
        ensures
            *final(self) == *old(self),
    {
    }

    /// The root constraint system: this assembly itself.
    pub fn get_root(&mut self) -> (r: &mut Self)
        ensures
            *r == *old(self),
            *final(self) == *final(r),
    {
        self
    }

    /// Appends one constraint `input_i * 0 = 0` per public-input wire, so
    /// that every public input contributes a nonzero row to the A matrix
    /// (the full-density shape of the IC query that the CRS generator
    /// guarantees).
    pub fn append_input_constraints(&mut self)
        requires
            old(self)@.counts_ok(),
            old(self).num_constraints + old(self).num_inputs <= usize::MAX,
        ensures
            final(self)@.num_inputs == old(self)@.num_inputs,
            final(self)@.num_aux == old(self)@.num_aux,
            final(self)@.num_constraints == old(self)@.num_constraints + old(self)@.num_inputs,
            final(self)@.at_inputs == Seq::new(
                old(self)@.at_inputs.len(),
                |i: int|
                    old(self)@.at_inputs[i].push(
                        (fr_u64_repr(1), old(self)@.num_constraints + i),
                    ),
            ),
            final(self)@.bt_inputs == old(self)@.bt_inputs,
            final(self)@.ct_inputs == old(self)@.ct_inputs,
            final(self)@.at_aux == old(self)@.at_aux,
            final(self)@.bt_aux == old(self)@.bt_aux,
            final(self)@.ct_aux == old(self)@.ct_aux,
    {
        let ghost base = self@;
        let ni = self.num_inputs;
        let mut i: usize = 0;
        while i < ni
            invariant
                0 <= i <= ni,
                self@.num_inputs == ni,
                self@.num_aux == base.num_aux,
                base.num_constraints + ni <= usize::MAX,
                self@.counts_ok(),
                self.num_constraints == base.num_constraints + i,
                self@.at_inputs == Seq::new(
                    base.at_inputs.len(),
                    |k: int|
                        if k < i {
                            base.at_inputs[k].push((fr_u64_repr(1), base.num_constraints + k))
                        } else {
                            base.at_inputs[k]
                        },
                ),
                self@.bt_inputs == base.bt_inputs,
                self@.ct_inputs == base.ct_inputs,
                self@.at_aux == base.at_aux,
                self@.bt_aux == base.bt_aux,
                self@.ct_aux == base.ct_aux,
            decreases ni - i,
        {
            let one = fr_from_u64(1);
            let mut lc_a = LinearCombination::new();
            lc_a.push_term(one, Variable(Index::Input(i)));
            let lc_b = LinearCombination::new();
            let lc_c = LinearCombination::new();
            let ghost before = self@;
            self.enforce(&lc_a, &lc_b, &lc_c);
            proof {
                let terms = lc_views(lc_a.terms@);
                assert(terms.len() == 1);
                assert(terms.drop_last() =~= Seq::<(Seq<u8>, Index)>::empty());
                assert(terms.last() == (fr_u64_repr(1), Index::Input(i)));
                assert(distribute(
                    before.at_inputs,
                    before.at_aux,
                    Seq::<(Seq<u8>, Index)>::empty(),
                    before.num_constraints,
                ) == (before.at_inputs, before.at_aux));
                assert(distribute(
                    before.bt_inputs,
                    before.bt_aux,
                    Seq::<(Seq<u8>, Index)>::empty(),
                    before.num_constraints,
                ) == (before.bt_inputs, before.bt_aux));
                assert(distribute(
                    before.ct_inputs,
                    before.ct_aux,
                    Seq::<(Seq<u8>, Index)>::empty(),
                    before.num_constraints,
                ) == (before.ct_inputs, before.ct_aux));
                assert(self@.at_inputs == before.at_inputs.update(
                    i as int,
                    before.at_inputs[i as int].push((fr_u64_repr(1), before.num_constraints)),
                ));
                assert(self@.at_inputs =~= Seq::new(
                    base.at_inputs.len(),
                    |k: int|
                        if k < i + 1 {
                            base.at_inputs[k].push((fr_u64_repr(1), base.num_constraints + k))
                        } else {
                            base.at_inputs[k]
                        },
                ));
            }
            i += 1;
        }
        proof {
            assert(self@.at_inputs =~= Seq::new(
                base.at_inputs.len(),
                |k: int| base.at_inputs[k].push((fr_u64_repr(1), base.num_constraints + k)),
            ));
        }
    }
}

/// Distributes one combination's terms into the input and auxiliary rows of
/// one matrix, tagged with constraint index `c`.
fn apply_lc(
    inp: &mut Vec<Vec<(FrElem, usize)>>,
    aux: &mut Vec<Vec<(FrElem, usize)>>,
    lc: &LinearCombination,
    c: usize,
)
    requires
        lc_in_range(lc_views(lc.terms@), old(inp)@.len() as int, old(aux)@.len() as int),
    ensures
        (matrix_views(final(inp)@), matrix_views(final(aux)@)) == distribute(
            matrix_views(old(inp)@),
            matrix_views(old(aux)@),
            lc_views(lc.terms@),
            c as int,
        ),
        final(inp)@.len() == old(inp)@.len(),
        final(aux)@.len() == old(aux)@.len(),
{
    let ghost base_inp = matrix_views(inp@);
    let ghost base_aux = matrix_views(aux@);
    let ghost terms = lc_views(lc.terms@);
    let mut i: usize = 0;
    while i < lc.terms.len()
        invariant
            0 <= i <= lc.terms@.len(),
            terms == lc_views(lc.terms@),
            lc_in_range(terms, base_inp.len() as int, base_aux.len() as int),
            inp@.len() == base_inp.len(),
            aux@.len() == base_aux.len(),
            (matrix_views(inp@), matrix_views(aux@)) == distribute(
                base_inp,
                base_aux,
                terms.take(i as int),
                c as int,
            ),
        decreases lc.terms@.len() - i,
    {
        proof {
            lemma_distribute_lens(base_inp, base_aux, terms.take(i as int), c as int);
            assert(terms.take(i + 1).drop_last() =~= terms.take(i as int));
            assert(terms.take(i + 1).last() == terms[i as int]);
        }
        let ghost prev_inp = matrix_views(inp@);
        let ghost prev_aux = matrix_views(aux@);
        let coeff = lc.terms[i].0.dup();
        let var = lc.terms[i].1;
        match var.0 {
            Index::Input(id) => {
                proof {
                    assert(terms[i as int].1 == Index::Input(id));
                    assert(id < inp@.len());
                }
                let mut tmp: Vec<(FrElem, usize)> = Vec::new();
                inp.set_and_swap(id, &mut tmp);
                tmp.push((coeff, c));
                let ghost pushed = tmp@;
                inp.set_and_swap(id, &mut tmp);
                proof {
                    assert(row_views(pushed) =~= prev_inp[id as int].push(
                        (terms[i as int].0, c as int),
                    ));
                    assert(matrix_views(inp@) =~= prev_inp.update(
                        id as int,
                        prev_inp[id as int].push((terms[i as int].0, c as int)),
                    ));
                }
            },
            Index::Aux(id) => {
                proof {
                    assert(terms[i as int].1 == Index::Aux(id));
                    assert(id < aux@.len());
                }
                let mut tmp: Vec<(FrElem, usize)> = Vec::new();
                aux.set_and_swap(id, &mut tmp);
                tmp.push((coeff, c));
                let ghost pushed = tmp@;
                aux.set_and_swap(id, &mut tmp);
                proof {
                    assert(row_views(pushed) =~= prev_aux[id as int].push(
                        (terms[i as int].0, c as int),
                    ));
                    assert(matrix_views(aux@) =~= prev_aux.update(
                        id as int,
                        prev_aux[id as int].push((terms[i as int].0, c as int)),
                    ));
                }
            },
        }
        i += 1;
    }
    proof {
        assert(terms.take(lc.terms@.len() as int) =~= terms);
    }
}

} // verus!
