use crate::input::{shape_accepted, value_converts, value_integers, InputError, JsonValue, R1CSInputs};
use num_bigint::BigInt;
use vstd::prelude::*;

verus! {

/// Relies on `BigInt::clone`: the copy equals the original.
pub assume_specification[ <num_bigint::BigInt as Clone>::clone ](b: &num_bigint::BigInt) -> (r: num_bigint::BigInt)
    ensures
        r == *b,
;

/// The shape of a constraint system: wire 0 is the constant one, wires
/// `1..num_inputs` are public, and `wire_mapping`, when present, gives the
/// witness position of each wire.
pub struct R1CS {
    pub num_inputs: usize,
    pub num_variables: usize,
    pub wire_mapping: Option<Vec<usize>>,
}

impl R1CS {
    /// Whether the shape is consistent: the constant wire exists, the public
    /// wires are among all wires, and a mapping sends each wire inside them.
    pub open spec fn valid(&self) -> bool {
        &&& 1 <= self.num_inputs <= self.num_variables
        &&& match self.wire_mapping {
            Some(m) => m.len() == self.num_variables
                && forall|k: int| 0 <= k < m.len() ==> (#[trigger] m@[k]) < self.num_variables,
            None => true,
        }
    }
}

/// A constraint system with the flag that the witness engine is handed with
/// the inputs. The library itself re-evaluates no constraint after a build.
pub struct CircomConfig {
    pub r1cs: R1CS,
    pub sanity_check: bool,
}

/// A circuit instance: its shape and, once populated, the value of every wire.
pub struct CircomCircuit {
    pub r1cs: R1CS,
    pub witness: Option<Vec<BigInt>>,
}

/// Why a build failed.
#[derive(Debug, PartialEq, Eq, Structural)]
pub enum BuildError {
    /// The witness engine rejected the inputs.
    WitnessComputation,
    /// The witness does not assign one value to each wire.
    WitnessLength,
}

/// What the witness engine is handed: every accumulated name with its values,
/// and the configuration's check flag.
pub struct WitnessRequest {
    pub names: Vec<String>,
    pub values: Vec<Vec<BigInt>>,
    pub sanity_check: bool,
}

/// Accumulates named inputs against a configuration.
pub struct CircomBuilder {
    pub cfg: CircomConfig,
    pub names: Vec<String>,
    pub values: Vec<Vec<BigInt>>,
}

/// The witness position of public wire `k`.
pub open spec fn public_position(r1cs: R1CS, k: int) -> int {
    match r1cs.wire_mapping {
        Some(m) => m@[k] as int,
        None => k,
    }
}

/// Whether every public wire has a position inside a witness of `n` values.
pub open spec fn public_wires_fit(r1cs: R1CS, n: nat) -> bool {
    &&& r1cs.num_inputs >= 1
    &&& match r1cs.wire_mapping {
        Some(m) => r1cs.num_inputs <= m.len()
            && forall|k: int| 1 <= k < r1cs.num_inputs ==> (#[trigger] m@[k]) < n,
        None => r1cs.num_inputs <= n,
    }
}

impl CircomConfig {
    /// A configuration over the given constraint system, with the check off.
    pub fn new(r1cs: R1CS) -> (r: Self)
        ensures
            r.r1cs == r1cs,
            !r.sanity_check,
    {
        CircomConfig { r1cs, sanity_check: false }
    }
}

impl CircomCircuit {
    /// The witness values of the public wires `1..num_inputs`, in order;
    /// `None` for a circuit without a witness or whose wires do not fit it.
    pub fn get_public_inputs(&self) -> (r: Option<Vec<BigInt>>)
        ensures
            r is Some <==> (self.witness is Some && public_wires_fit(
                self.r1cs,
                self.witness->Some_0.len() as nat,
            )),
            r is Some ==> r->Some_0.len() == self.r1cs.num_inputs - 1,
            r is Some ==> forall|k: int| 0 <= k < r->Some_0.len() ==> #[trigger] r->Some_0@[k]
                == self.witness->Some_0@[public_position(self.r1cs, k + 1)],
    {
        match &self.witness {
            None => None,
            Some(w) => {
                let n = self.r1cs.num_inputs;
                if n < 1 {
                    return None;
                }
                match &self.r1cs.wire_mapping {
                    None => {
                        if n > w.len() {
                            return None;
                        }
                    },
                    Some(m) => {
                        if n > m.len() {
                            return None;
                        }
                        let mut k: usize = 1;
                        while k < n
                            invariant
                                self.r1cs.wire_mapping == Some(*m),
                                self.witness == Some(*w),
                                self.r1cs.num_inputs == n,
                                1 <= k <= n <= m.len(),
                                forall|j: int| 1 <= j < k ==> (#[trigger] m@[j]) < w.len(),
                            decreases n - k,
                        {
                            if m[k] >= w.len() {
                                assert(!(m@[k as int] < w.len()));
                                assert(self.r1cs.wire_mapping == Some(*m));
                                assert(!public_wires_fit(self.r1cs, w.len() as nat));
                                return None;
                            }
                            k = k + 1;
                        }
                    },
                }
                let mut out: Vec<BigInt> = Vec::new();
                let mut k: usize = 1;
                while k < n
                    invariant
                        1 <= k <= n,
                        self.witness == Some(*w),
                        self.r1cs.num_inputs == n,
                        public_wires_fit(self.r1cs, w.len() as nat),
                        out.len() == k - 1,
                        forall|j: int| 0 <= j < out.len() ==> #[trigger] out@[j]
                            == w@[public_position(self.r1cs, j + 1)],
                    decreases n - k,
                {
                    let pos = match &self.r1cs.wire_mapping {
                        Some(m) => m[k],
                        None => k,
                    };
                    out.push(w[pos].clone());
                    k = k + 1;
                }
                Some(out)
            },
        }
    }
}

impl CircomBuilder {
    /// Whether each name has one entry, holding at least one value.
    pub open spec fn wf(&self) -> bool {
        &&& self.names.len() == self.values.len()
        &&& forall|i: int| 0 <= i < self.values.len() ==> (#[trigger] self.values@[i]).len() > 0
        &&& forall|i: int, j: int|
            0 <= i < j < self.names.len() ==> (#[trigger] self.names@[i])@ != (#[trigger] self.names@[j])@
    }

    /// Whether some value has been pushed under `name`.
    pub open spec fn has_input(&self, name: Seq<char>) -> bool {
        exists|i: int| 0 <= i < self.names.len() && (#[trigger] self.names@[i])@ == name
    }

    /// The values pushed under `name`, in push order.
    pub open spec fn input_values(&self, name: Seq<char>) -> Seq<BigInt> {
        if exists|i: int| 0 <= i < self.names.len() && (#[trigger] self.names@[i])@ == name {
            let i = choose|i: int| 0 <= i < self.names.len() && (#[trigger] self.names@[i])@ == name;
            self.values@[i]@
        } else {
            Seq::empty()
        }
    }

    /// A builder with no inputs yet.
    pub fn new(cfg: CircomConfig) -> (r: Self)
        ensures
            r.wf(),
            r.cfg == cfg,
            r.names.len() == 0,
            forall|name: Seq<char>| (#[trigger] r.input_values(name)) == Seq::<BigInt>::empty(),
    {
        CircomBuilder { cfg, names: Vec::new(), values: Vec::new() }
    }

    fn find(&self, name: &String) -> (r: Option<usize>)
        requires
            self.wf(),
        ensures
            r is Some ==> r->Some_0 < self.names.len() && self.names@[r->Some_0 as int]@ == name@,
            r is None ==> forall|i: int| 0 <= i < self.names.len() ==> (#[trigger] self.names@[i])@ != name@,
    {
        let mut i: usize = 0;
        while i < self.names.len()
            invariant
                i <= self.names.len(),
                forall|j: int| 0 <= j < i ==> (#[trigger] self.names@[j])@ != name@,
            decreases self.names.len() - i,
        {
            if self.names[i] == *name {
                return Some(i);
            }
            i = i + 1;
        }
        None
    }

    /// Appends `val` to the values under `name`.
    pub fn push_input(&mut self, name: String, val: BigInt)
        requires
            old(self).wf(),
        ensures
            final(self).wf(),
            final(self).cfg == old(self).cfg,
            final(self).input_values(name@) == old(self).input_values(name@).push(val),
            forall|other: Seq<char>| other != name@ ==> #[trigger] final(self).input_values(other)
                == old(self).input_values(other),
            old(self).has_input(name@) ==> final(self).names == old(self).names,
            !old(self).has_input(name@) ==> final(self).names@ == old(self).names@.push(name),
    {
        match self.find(&name) {
            Some(i) => {
                let mut vs: Vec<BigInt> = Vec::new();
                self.values.set_and_swap(i, &mut vs);
                vs.push(val);
                self.values.set_and_swap(i, &mut vs);
                proof { self.lemma_values_at(old(self), i as int); }
                assert(old(self).has_input(name@));
            },
            None => {
                self.names.push(name);
                self.values.push(vec![val]);
                proof { self.lemma_values_appended(old(self)); }
            },
        }
    }

    proof fn lemma_values_at(&self, prev: &Self, i: int)
        requires
            prev.wf(),
            0 <= i < prev.names.len(),
            self.names == prev.names,
            self.values.len() == prev.values.len(),
            forall|j: int| 0 <= j < prev.values.len() && j != i ==> self.values@[j] == prev.values@[j],
            self.values@[i]@ == prev.values@[i]@.push(self.values@[i]@.last()),
        ensures
            self.wf(),
            self.input_values(prev.names@[i]@) == prev.input_values(prev.names@[i]@).push(self.values@[i]@.last()),
            forall|other: Seq<char>| other != prev.names@[i]@ ==> #[trigger] self.input_values(other)
                == prev.input_values(other),
    {
        let name = prev.names@[i]@;
        assert(self.names@[i]@ == name);
        let c = choose|c: int| 0 <= c < self.names.len() && (#[trigger] self.names@[c])@ == name;
        assert(c == i);
        assert forall|other: Seq<char>| other != name implies #[trigger] self.input_values(other)
            == prev.input_values(other) by {
            if exists|j: int| 0 <= j < self.names.len() && (#[trigger] self.names@[j])@ == other {
                let j = choose|j: int| 0 <= j < self.names.len() && (#[trigger] self.names@[j])@ == other;
                assert(j != i);
            }
        }
    }

    proof fn lemma_values_appended(&self, prev: &Self)
        requires
            prev.wf(),
            self.names@ == prev.names@.push(self.names@.last()),
            self.values@ == prev.values@.push(self.values@.last()),
            self.values@.last().len() > 0,
            forall|i: int| 0 <= i < prev.names.len() ==> (#[trigger] prev.names@[i])@ != self.names@.last()@,
        ensures
            self.wf(),
            self.input_values(self.names@.last()@) == self.values@.last()@,
            forall|other: Seq<char>| other != self.names@.last()@ ==> #[trigger] self.input_values(other)
                == prev.input_values(other),
    {
        let n = prev.names.len() as int;
        let name = self.names@.last()@;
        assert(self.names@[n]@ == name);
        assert(prev.input_values(name) == Seq::<BigInt>::empty());
        assert forall|i: int, j: int|
            0 <= i < j < self.names.len() implies (#[trigger] self.names@[i])@ != (#[trigger] self.names@[j])@ by {
            if j < n {
                assert(self.names@[i] == prev.names@[i]);
                assert(self.names@[j] == prev.names@[j]);
            } else {
                assert(self.names@[i] == prev.names@[i]);
            }
        }
        assert forall|other: Seq<char>| other != name implies #[trigger] self.input_values(other)
            == prev.input_values(other) by {
            if exists|j: int| 0 <= j < self.names.len() && (#[trigger] self.names@[j])@ == other {
                let j = choose|j: int| 0 <= j < self.names.len() && (#[trigger] self.names@[j])@ == other;
                assert(j != n);
                assert(prev.names@[j]@ == other);
            }
            if exists|j: int| 0 <= j < prev.names.len() && (#[trigger] prev.names@[j])@ == other {
                let j = choose|j: int| 0 <= j < prev.names.len() && (#[trigger] prev.names@[j])@ == other;
                assert(self.names@[j]@ == other);
            }
        }
    }

    /// Converts a document and appends each of its values, key by key, in
    /// document order, as single pushes would. On failure the builder is left
    /// as it was.
    pub fn push_inputs(&mut self, doc: Vec<(String, JsonValue)>) -> (r: Result<(), InputError>)
        requires
            old(self).wf(),
        ensures
            final(self).wf(),
            final(self).cfg == old(self).cfg,
            (r is Err && r->Err_0 == InputError::DocumentParse) <==> exists|i: int|
                0 <= i < doc.len() && !shape_accepted(#[trigger] doc@[i].1),
            r is Ok <==> forall|i: int| 0 <= i < doc.len() ==> value_converts(#[trigger] doc@[i].1),
            r is Err ==> *final(self) == *old(self),
            r is Ok ==> forall|n: Seq<char>| #[trigger] final(self).input_values(n)
                == old(self).input_values(n) + document_values(doc@, n),
            forall|n: Seq<char>| #[trigger] final(self).has_input(n) <==> final(self).input_values(n).len() > 0,
    {
        let ghost d = doc@;
        let ghost start = *self;
        let parsed = match R1CSInputs::new(doc) {
            Ok(p) => p,
            Err(e) => {
                proof { self.lemma_has_input_iff_values(); }
                return Err(e);
            },
        };
        let mut i: usize = 0;
        while i < parsed.inputs.len()
            invariant
                self.wf(),
                self.cfg == start.cfg,
                i <= parsed.inputs.len(),
                parsed.inputs.len() == d.len(),
                forall|k: int| 0 <= k < d.len() ==> {
                    &&& (#[trigger] parsed.inputs@[k]).0@ == d[k].0@
                    &&& parsed.inputs@[k].1@ == value_integers(d[k].1)
                },
                forall|n: Seq<char>| #[trigger] self.input_values(n)
                    == start.input_values(n) + document_values(d.take(i as int), n),
            decreases parsed.inputs.len() - i,
        {
            let entry = &parsed.inputs[i];
            let ghost nm = entry.0@;
            let ghost snap = *self;
            let mut j: usize = 0;
            while j < entry.1.len()
                invariant
                    self.wf(),
                    self.cfg == start.cfg,
                    entry.0@ == nm,
                    j <= entry.1.len(),
                    self.input_values(nm) == snap.input_values(nm) + entry.1@.take(j as int),
                    forall|n: Seq<char>| n != nm ==> #[trigger] self.input_values(n)
                        == snap.input_values(n),
                decreases entry.1.len() - j,
            {
                let v = entry.1[j].clone();
                self.push_input(entry.0.clone(), v);
                assert(entry.1@.take(j + 1) =~= entry.1@.take(j as int).push(entry.1@[j as int]));
                j = j + 1;
            }
            proof {
                assert(entry.1@.take(entry.1.len() as int) =~= entry.1@);
                assert(d.take(i + 1).drop_last() =~= d.take(i as int));
                assert(d.take(i + 1).last() == d[i as int]);
                assert forall|n: Seq<char>| #[trigger] self.input_values(n)
                    == start.input_values(n) + document_values(d.take(i + 1), n) by {
                    if n == nm {
                        assert(self.input_values(n) =~= start.input_values(n) + document_values(
                            d.take(i + 1),
                            n,
                        ));
                    }
                }
            }
            i = i + 1;
        }
        assert(d.take(d.len() as int) =~= d);
        proof { self.lemma_has_input_iff_values(); }
        Ok(())
    }

    /// What the witness engine is to be handed: copies of the accumulated
    /// names and values, in order, with the configuration's check flag.
    pub fn witness_request(&self) -> (r: WitnessRequest)
        requires
            self.wf(),
        ensures
            r.names@ == self.names@,
            r.values.len() == self.values.len(),
            forall|i: int| 0 <= i < self.values.len() ==> (#[trigger] r.values@[i])@ == self.values@[i]@,
            r.sanity_check == self.cfg.sanity_check,
    {
        let mut names: Vec<String> = Vec::new();
        let mut values: Vec<Vec<BigInt>> = Vec::new();
        let mut i: usize = 0;
        while i < self.values.len()
            invariant
                i <= self.values.len(),
                names.len() == i,
                values.len() == i,
                self.names.len() == self.values.len(),
                forall|k: int| 0 <= k < i ==> #[trigger] names@[k] == self.names@[k],
                forall|k: int| 0 <= k < i ==> (#[trigger] values@[k])@ == self.values@[k]@,
            decreases self.values.len() - i,
        {
            names.push(self.names[i].clone());
            let src = &self.values[i];
            let mut copy: Vec<BigInt> = Vec::new();
            let mut j: usize = 0;
            while j < src.len()
                invariant
                    j <= src.len(),
                    copy.len() == j,
                    forall|k: int| 0 <= k < j ==> #[trigger] copy@[k] == src@[k],
                decreases src.len() - j,
            {
                copy.push(src[j].clone());
                j = j + 1;
            }
            assert(copy@ =~= src@);
            values.push(copy);
            i = i + 1;
        }
        assert(names@ =~= self.names@);
        WitnessRequest { names, values, sanity_check: self.cfg.sanity_check }
    }

    /// A name is present exactly when it holds values.
    pub proof fn lemma_has_input_iff_values(&self)
        requires
            self.wf(),
        ensures
            forall|n: Seq<char>| #[trigger] self.has_input(n) <==> self.input_values(n).len() > 0,
    {
        assert forall|n: Seq<char>| #[trigger] self.has_input(n) implies self.input_values(n).len() > 0 by {
            let i = choose|i: int| 0 <= i < self.names.len() && (#[trigger] self.names@[i])@ == n;
            assert(self.values@[i].len() > 0);
        }
    }

    /// An instance with the configuration's shape, no wire mapping and no
    /// witness, for parameter generation. The builder is left as it is.
    pub fn setup(&self) -> (r: CircomCircuit)
        ensures
            r.r1cs.num_inputs == self.cfg.r1cs.num_inputs,
            r.r1cs.num_variables == self.cfg.r1cs.num_variables,
            r.r1cs.wire_mapping is None,
            r.witness is None,
    {
        CircomCircuit {
            r1cs: R1CS {
                num_inputs: self.cfg.r1cs.num_inputs,
                num_variables: self.cfg.r1cs.num_variables,
                wire_mapping: None,
            },
            witness: None,
        }
    }

    /// The populated instance for the witness that the engine computed from
    /// this builder's inputs.
    pub fn build(self, computed: Result<Vec<BigInt>, BuildError>) -> (r: Result<CircomCircuit, BuildError>)
        ensures
            computed is Err ==> r == Err::<CircomCircuit, BuildError>(computed->Err_0),
            computed is Ok ==> (r is Ok <==> computed->Ok_0.len() == self.cfg.r1cs.num_variables),
            computed is Ok && r is Err ==> r->Err_0 == BuildError::WitnessLength,
            r is Ok ==> {
                &&& r->Ok_0.witness == Some(computed->Ok_0)
                &&& r->Ok_0.r1cs.num_inputs == self.cfg.r1cs.num_inputs
                &&& r->Ok_0.r1cs.num_variables == self.cfg.r1cs.num_variables
                &&& r->Ok_0.r1cs.wire_mapping is None
            },
            r is Ok && self.cfg.r1cs.valid() ==> public_wires_fit(
                r->Ok_0.r1cs,
                r->Ok_0.witness->Some_0.len() as nat,
            ),
    {
        let mut circom = self.setup();
        match computed {
            Err(e) => Err(e),
            Ok(w) => {
                if w.len() != self.cfg.r1cs.num_variables {
                    return Err(BuildError::WitnessLength);
                }
                circom.witness = Some(w);
                Ok(circom)
            },
        }
    }
}

/// The integers a document adds under `name`: those of each entry with that
/// key, in document order.
pub open spec fn document_values(doc: Seq<(String, JsonValue)>, name: Seq<char>) -> Seq<BigInt>
    decreases doc.len(),
{
    if doc.len() == 0 {
        Seq::empty()
    } else {
        let prev = document_values(doc.drop_last(), name);
        if doc.last().0@ == name {
            prev + value_integers(doc.last().1)
        } else {
            prev
        }
    }
}

/// Two pushes under one name keep both values, in push order, after those
/// already there.
pub proof fn lemma_push_twice_accumulates(
    b0: CircomBuilder,
    b1: CircomBuilder,
    b2: CircomBuilder,
    name: Seq<char>,
    v1: BigInt,
    v2: BigInt,
)
    requires
        b1.input_values(name) == b0.input_values(name).push(v1),
        b2.input_values(name) == b1.input_values(name).push(v2),
    ensures
        b2.input_values(name) == b0.input_values(name) + seq![v1, v2],
        b2.input_values(name).len() == b0.input_values(name).len() + 2,
        b2.input_values(name)[b0.input_values(name).len() as int] == v1,
        b2.input_values(name).last() == v2,
{
    assert(b2.input_values(name) =~= b0.input_values(name) + seq![v1, v2]);
}

} // verus!
