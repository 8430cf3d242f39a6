//! Binary circuits: typed inputs and outputs bound to feeds, and a sequence of
//! XOR, AND and INV gates over them.

use vstd::prelude::*;
use vstd::arithmetic::power2::{pow2, lemma2_to64, lemma_pow2_unfold, lemma_pow2_strictly_increases};
use itybity::IntoBits;

verus! {

/// A primitive type that a circuit's input or output can have.
#[derive(Clone, Copy, Debug, PartialEq, Eq, Structural)]
pub enum ValueType {
    Bit,
    U8,
    U16,
    U32,
    U64,
}

impl ValueType {
    /// The number of bits of the type.
    pub open spec fn width_spec(self) -> nat {
        match self {
            ValueType::Bit => 1,
            ValueType::U8 => 8,
            ValueType::U16 => 16,
            ValueType::U32 => 32,
            ValueType::U64 => 64,
        }
    }

    /// The number of bits of the type.
    pub fn width(&self) -> (r: usize)
        ensures
            r == self.width_spec(),
    {
        match self {
            ValueType::Bit => 1,
            ValueType::U8 => 8,
            ValueType::U16 => 16,
            ValueType::U32 => 32,
            ValueType::U64 => 64,
        }
    }
}

/// The type of an input or output: a primitive, or an array of primitives of
/// the given length.
#[derive(Clone, Copy, Debug, PartialEq, Eq, Structural)]
pub enum ValueKind {
    Primitive(ValueType),
    Array(ValueType, usize),
}

/// A value that a circuit takes or gives; an array holds its elements as
/// integers below `2^width`.
#[derive(Clone, Debug, PartialEq, Eq)]
pub enum Value {
    Bit(bool),
    U8(u8),
    U16(u16),
    U32(u32),
    U64(u64),
    Array(ValueType, Vec<u64>),
}

/// How an input or output is laid out on the circuit's feeds, least
/// significant bit first: the feed ids of a primitive, or of each element of
/// an array.
#[derive(Clone, Debug, PartialEq, Eq)]
pub enum BinaryRepr {
    Primitive(ValueType, Vec<usize>),
    Array(ValueType, Vec<Vec<usize>>),
}

/// A gate, over feed ids: `z = x ^ y`, `z = x & y`, or `z = !x`.
#[derive(Clone, Copy, Debug, PartialEq, Eq, Structural)]
pub enum Gate {
    Xor { x: usize, y: usize, z: usize },
    And { x: usize, y: usize, z: usize },
    Inv { x: usize, z: usize },
}

/// An error that can occur when performing operations with a circuit.
#[derive(Clone, Debug, PartialEq, Eq)]
pub enum CircuitError {
    /// Invalid number of inputs: expected, got.
    InvalidInputCount(usize, usize),
    /// Invalid number of outputs: expected, got.
    InvalidOutputCount(usize, usize),
    /// A value of another type than the input's.
    UnexpectedType { expected: ValueKind, actual: ValueKind },
}

/// A binary circuit.
#[derive(Clone, Debug)]
pub struct Circuit {
    inputs: Vec<BinaryRepr>,
    outputs: Vec<BinaryRepr>,
    gates: Vec<Gate>,
    feed_count: usize,
    and_count: usize,
    xor_count: usize,
}

/// `v` in reverse order.
pub fn reversed<T>(v: Vec<T>) -> (r: Vec<T>)
    ensures
        r@ == v@.reverse(),
{
    let ghost orig = v@;
    let n: usize = v.len();
    let mut v = v;
    let mut r: Vec<T> = Vec::new();
    while v.len() > 0
        invariant
            n == orig.len(),
            v.len() + r.len() == n,
            v@ == orig.take(v.len() as int),
            forall|k: int| 0 <= k < r.len() ==> #[trigger] r@[k] == orig[n - 1 - k],
        decreases v.len(),
    {
        let ghost before = v@;
        let last: T = v.pop().unwrap();
        assert(before.take(before.len() - 1) == orig.take(v.len() as int));
        r.push(last);
    }
    assert(r@ =~= orig.reverse());
    r
}

/// The feed ids are each below `feed_count`.
pub open spec fn nodes_below(nodes: Seq<usize>, feed_count: nat) -> bool {
    forall|k: int| 0 <= k < nodes.len() ==> #[trigger] nodes[k] < feed_count
}

/// The layout has a feed id for each bit of its type, each below `feed_count`.
pub open spec fn repr_wf(r: BinaryRepr, feed_count: nat) -> bool {
    match r {
        BinaryRepr::Primitive(ty, nodes) => nodes@.len() == ty.width_spec() && nodes_below(nodes@, feed_count),
        BinaryRepr::Array(ty, elems) => forall|k: int| 0 <= k < elems@.len() ==>
            (#[trigger] elems@[k])@.len() == ty.width_spec() && nodes_below(elems@[k]@, feed_count),
    }
}

/// `g` reads and writes feeds below `feed_count` only.
pub open spec fn gate_wf(g: Gate, feed_count: nat) -> bool {
    match g {
        Gate::Xor { x, y, z } => x < feed_count && y < feed_count && z < feed_count,
        Gate::And { x, y, z } => x < feed_count && y < feed_count && z < feed_count,
        Gate::Inv { x, z } => x < feed_count && z < feed_count,
    }
}

/// The number of AND gates in `gates`.
pub open spec fn count_and(gates: Seq<Gate>) -> nat
    decreases gates.len(),
{
    if gates.len() == 0 {
        0
    } else {
        count_and(gates.drop_last()) + if gates.last() is And { 1nat } else { 0nat }
    }
}

/// The number of XOR gates in `gates`.
pub open spec fn count_xor(gates: Seq<Gate>) -> nat
    decreases gates.len(),
{
    if gates.len() == 0 {
        0
    } else {
        count_xor(gates.drop_last()) + if gates.last() is Xor { 1nat } else { 0nat }
    }
}

/// Checks that feed ids are below `feed_count`.
fn check_nodes(nodes: &Vec<usize>, feed_count: usize) -> (ok: bool)
    ensures
        ok == nodes_below(nodes@, feed_count as nat),
{
    let mut k: usize = 0;
    while k < nodes.len()
        invariant
            k <= nodes.len(),
            forall|j: int| 0 <= j < k ==> #[trigger] nodes@[j] < feed_count,
        decreases nodes.len() - k,
    {
        if nodes[k] >= feed_count {
            return false;
        }
        k = k + 1;
    }
    true
}

/// Checks that a layout fits the feeds.
fn check_repr(r: &BinaryRepr, feed_count: usize) -> (ok: bool)
    ensures
        ok == repr_wf(*r, feed_count as nat),
{
    match r {
        BinaryRepr::Primitive(ty, nodes) => nodes.len() == ty.width() && check_nodes(nodes, feed_count),
        BinaryRepr::Array(ty, elems) => {
            let mut k: usize = 0;
            while k < elems.len()
                invariant
                    *r == BinaryRepr::Array(*ty, *elems),
                    k <= elems.len(),
                    forall|j: int| 0 <= j < k ==> (#[trigger] elems@[j])@.len() == ty.width_spec() && nodes_below(elems@[j]@, feed_count as nat),
                decreases elems.len() - k,
            {
                if elems[k].len() != ty.width() || !check_nodes(&elems[k], feed_count) {
                    // `elems[k]` is the element that breaks the layout.
                    assert(!(((r->Array_1)@[k as int])@.len() == (r->Array_0).width_spec()
                        && nodes_below((r->Array_1)@[k as int]@, feed_count as nat)));
                    return false;
                }
                k = k + 1;
            }
            true
        },
    }
}

/// The bits of `w`, least significant first, `width` of them.
pub open spec fn word_bits(w: nat, width: nat) -> Seq<bool> {
    Seq::new(width, |i: int| (w / pow2(i as nat)) % 2 == 1)
}

/// The integer that `bits` spell, least significant first.
pub open spec fn word_of(bits: Seq<bool>) -> nat
    decreases bits.len(),
{
    if bits.len() == 0 {
        0
    } else {
        (if bits[0] { 1nat } else { 0nat }) + 2 * word_of(bits.drop_first())
    }
}

/// Relies on itybity's `IntoBits::into_lsb0_vec` for `u64`: sixty-four bits,
/// bit `i` being `v & (1 << i) != 0`.
#[verifier::external_body]
fn bits_lsb0(v: u64) -> (r: Vec<bool>)
    ensures
        r@ == word_bits(v as nat, 64),
{
    v.into_lsb0_vec()
}

/// The type of a value.
pub open spec fn value_kind(v: Value) -> ValueKind {
    match v {
        Value::Bit(_) => ValueKind::Primitive(ValueType::Bit),
        Value::U8(_) => ValueKind::Primitive(ValueType::U8),
        Value::U16(_) => ValueKind::Primitive(ValueType::U16),
        Value::U32(_) => ValueKind::Primitive(ValueType::U32),
        Value::U64(_) => ValueKind::Primitive(ValueType::U64),
        Value::Array(ty, words) => ValueKind::Array(ty, words.len()),
    }
}

/// The elements of a value as integers: one for a primitive.
pub open spec fn value_words(v: Value) -> Seq<nat> {
    match v {
        Value::Bit(b) => seq![if b { 1nat } else { 0nat }],
        Value::U8(x) => seq![x as nat],
        Value::U16(x) => seq![x as nat],
        Value::U32(x) => seq![x as nat],
        Value::U64(x) => seq![x as nat],
        Value::Array(_, words) => words@.map_values(|w: u64| w as nat),
    }
}

/// The type that a layout stands for.
pub open spec fn repr_kind(r: BinaryRepr) -> ValueKind {
    match r {
        BinaryRepr::Primitive(ty, _) => ValueKind::Primitive(ty),
        BinaryRepr::Array(ty, elems) => ValueKind::Array(ty, elems.len()),
    }
}

/// The primitive type of a layout's elements.
pub open spec fn repr_type(r: BinaryRepr) -> ValueType {
    match r {
        BinaryRepr::Primitive(ty, _) => ty,
        BinaryRepr::Array(ty, _) => ty,
    }
}

/// The feed ids of each element of a layout: one element for a primitive.
pub open spec fn repr_elems(r: BinaryRepr) -> Seq<Seq<usize>> {
    match r {
        BinaryRepr::Primitive(_, nodes) => seq![nodes@],
        BinaryRepr::Array(_, elems) => elems@.map_values(|e: Vec<usize>| e@),
    }
}

/// Feeds `f` after setting feed `nodes[j]` to `bits[j]`, in order.
pub open spec fn assign(f: Seq<bool>, nodes: Seq<usize>, bits: Seq<bool>) -> Seq<bool>
    decreases nodes.len(),
{
    if nodes.len() == 0 {
        f
    } else {
        assign(f, nodes.drop_last(), bits).update(nodes.last() as int, bits[nodes.len() - 1])
    }
}

/// Feeds `f` after setting the bits of each word on the feeds of its element.
pub open spec fn load_words(f: Seq<bool>, elems: Seq<Seq<usize>>, words: Seq<nat>, width: nat) -> Seq<bool>
    decreases elems.len(),
{
    if elems.len() == 0 {
        f
    } else {
        assign(load_words(f, elems.drop_last(), words, width), elems.last(), word_bits(words[elems.len() - 1], width))
    }
}

/// Feeds `f` after setting each input to its value, in order.
pub open spec fn load_inputs(f: Seq<bool>, inputs: Seq<BinaryRepr>, values: Seq<Value>) -> Seq<bool>
    decreases inputs.len(),
{
    if inputs.len() == 0 {
        f
    } else {
        let k = inputs.len() - 1;
        load_words(load_inputs(f, inputs.drop_last(), values), repr_elems(inputs[k]), value_words(values[k]), repr_type(inputs[k]).width_spec())
    }
}

/// The feeds before any input is set: all 0 but feed 1, the constant 1.
pub open spec fn initial_feeds(feed_count: nat) -> Seq<bool> {
    Seq::new(feed_count, |i: int| i == 1)
}

/// Feeds `f` after applying `g`.
pub open spec fn apply_gate(f: Seq<bool>, g: Gate) -> Seq<bool> {
    match g {
        Gate::Xor { x, y, z } => f.update(z as int, f[x as int] != f[y as int]),
        Gate::And { x, y, z } => f.update(z as int, f[x as int] && f[y as int]),
        Gate::Inv { x, z } => f.update(z as int, !f[x as int]),
    }
}

/// Feeds `f` after applying `g`., in order.
pub open spec fn run_gates(f: Seq<bool>, gates: Seq<Gate>) -> Seq<bool>
    decreases gates.len(),
{
    if gates.len() == 0 {
        f
    } else {
        apply_gate(run_gates(f, gates.drop_last()), gates.last())
    }
}

/// The words that the feeds `f` hold on the elements `elems`.
pub open spec fn read_words(f: Seq<bool>, elems: Seq<Seq<usize>>) -> Seq<nat> {
    elems.map_values(|e: Seq<usize>| word_of(e.map_values(|n: usize| f[n as int])))
}

/// Sets feed `nodes[j]` to `bits[j]`, in order.
fn assign_bits(feeds: &mut Vec<bool>, nodes: &Vec<usize>, bits: &Vec<bool>)
    requires
        nodes_below(nodes@, old(feeds)@.len() as nat),
        bits@.len() >= nodes@.len(),
    ensures
        final(feeds)@ == assign(old(feeds)@, nodes@, bits@),
{
    let ghost f0 = feeds@;
    let mut j: usize = 0;
    while j < nodes.len()
        invariant
            j <= nodes.len(),
            bits@.len() >= nodes@.len(),
            nodes_below(nodes@, f0.len() as nat),
            feeds@.len() == f0.len(),
            feeds@ == assign(f0, nodes@.take(j as int), bits@),
        decreases nodes.len() - j,
    {
        assert(nodes@.take(j + 1).drop_last() == nodes@.take(j as int));
        let n: usize = nodes[j];
        feeds.set(n, bits[j]);
        j = j + 1;
    }
    assert(nodes@.take(nodes.len() as int) == nodes@);
}

/// The bits of `w`, least significant first, `width` of them.
fn bits_of_word(w: u64, width: usize) -> (r: Vec<bool>)
    requires
        width <= 64,
    ensures
        r@ == word_bits(w as nat, width as nat),
{
    let all: Vec<bool> = bits_lsb0(w);
    let mut r: Vec<bool> = Vec::new();
    let mut i: usize = 0;
    while i < width
        invariant
            width <= 64,
            i <= width,
            all@ == word_bits(w as nat, 64),
            r@ == word_bits(w as nat, i as nat),
        decreases width - i,
    {
        r.push(all[i]);
        i = i + 1;
        assert(r@ =~= word_bits(w as nat, i as nat));
    }
    r
}

/// The integer that the feeds `nodes` hold, least significant first.
fn read_word(feeds: &Vec<bool>, nodes: &Vec<usize>) -> (w: u64)
    requires
        nodes@.len() <= 64,
        nodes_below(nodes@, feeds@.len() as nat),
    ensures
        w as nat == word_of(nodes@.map_values(|n: usize| feeds@[n as int])),
        (w as nat) < pow2(nodes@.len()),
{
    let ghost bits = nodes@.map_values(|n: usize| feeds@[n as int]);
    let len: usize = nodes.len();
    let mut acc: u64 = 0;
    let mut k: usize = len;
    proof {
        lemma2_to64();
        assert(bits.subrange(len as int, len as int) =~= Seq::<bool>::empty());
    }
    while k > 0
        invariant
            len == nodes@.len(),
            len <= 64,
            k <= len,
            bits == nodes@.map_values(|n: usize| feeds@[n as int]),
            nodes_below(nodes@, feeds@.len() as nat),
            acc as nat == word_of(bits.subrange(k as int, len as int)),
            (acc as nat) < pow2((len - k) as nat),
        decreases k,
    {
        k = k - 1;
        let bit: u64 = if feeds[nodes[k]] { 1 } else { 0 };
        proof {
            let s = bits.subrange(k as int, len as int);
            assert(s.drop_first() =~= bits.subrange(k + 1, len as int));
            lemma_pow2_unfold((len - k) as nat);
            if len - k < 64 {
                lemma_pow2_strictly_increases((len - k) as nat, 64);
            }
            lemma2_to64();
        }
        acc = acc * 2 + bit;
    }
    assert(bits.subrange(0, len as int) =~= bits);
    acc
}

/// The type of a value.
fn kind_of_value(v: &Value) -> (r: ValueKind)
    ensures
        r == value_kind(*v),
{
    match v {
        Value::Bit(_) => ValueKind::Primitive(ValueType::Bit),
        Value::U8(_) => ValueKind::Primitive(ValueType::U8),
        Value::U16(_) => ValueKind::Primitive(ValueType::U16),
        Value::U32(_) => ValueKind::Primitive(ValueType::U32),
        Value::U64(_) => ValueKind::Primitive(ValueType::U64),
        Value::Array(ty, words) => ValueKind::Array(*ty, words.len()),
    }
}

/// The type that a layout stands for.
fn kind_of_repr(r: &BinaryRepr) -> (k: ValueKind)
    ensures
        k == repr_kind(*r),
{
    match r {
        BinaryRepr::Primitive(ty, _) => ValueKind::Primitive(*ty),
        BinaryRepr::Array(ty, elems) => ValueKind::Array(*ty, elems.len()),
    }
}

/// The single word of a primitive value.
fn primitive_word(v: &Value) -> (w: u64)
    requires
        value_kind(*v) is Primitive,
    ensures
        value_words(*v) == seq![w as nat],
{
    match v {
        Value::Bit(b) => if *b { 1 } else { 0 },
        Value::U8(x) => *x as u64,
        Value::U16(x) => *x as u64,
        Value::U32(x) => *x as u64,
        Value::U64(x) => *x,
        Value::Array(_, _) => 0,
    }
}

/// Sets the feeds of an input to the bits of its value.
fn load_value(feeds: &mut Vec<bool>, r: &BinaryRepr, v: &Value)
    requires
        repr_wf(*r, old(feeds)@.len() as nat),
        repr_kind(*r) == value_kind(*v),
    ensures
        final(feeds)@ == load_words(old(feeds)@, repr_elems(*r), value_words(*v), repr_type(*r).width_spec()),
        final(feeds)@.len() == old(feeds)@.len(),
{
    let ghost f0 = feeds@;
    match r {
        BinaryRepr::Primitive(ty, nodes) => {
            let w: u64 = primitive_word(v);
            let bits: Vec<bool> = bits_of_word(w, ty.width());
            assign_bits(feeds, nodes, &bits);
            proof {
                let es = repr_elems(*r);
                assert(es.drop_last() =~= Seq::<Seq<usize>>::empty());
                assert(load_words(f0, es.drop_last(), value_words(*v), ty.width_spec()) == f0);
                assert(es.last() == nodes@);
                lemma_assign_len(f0, nodes@, bits@);
            }
        },
        BinaryRepr::Array(ty, elems) => {
            let words: &Vec<u64> = match v {
                Value::Array(_, words) => words,
                _ => {
                    return;
                },
            };
            let width: usize = ty.width();
            let ghost es = repr_elems(*r);
            let mut k: usize = 0;
            while k < elems.len()
                invariant
                    *r == BinaryRepr::Array(*ty, *elems),
                    es == repr_elems(*r),
                    repr_wf(*r, f0.len() as nat),
                    width == ty.width_spec(),
                    words@.len() == elems@.len(),
                    value_words(*v) == words@.map_values(|w: u64| w as nat),
                    k <= elems.len(),
                    feeds@.len() == f0.len(),
                    feeds@ == load_words(f0, es.take(k as int), value_words(*v), width as nat),
                decreases elems.len() - k,
            {
                assert(es.take(k + 1).drop_last() =~= es.take(k as int));
                assert((elems@[k as int])@.len() == ty.width_spec() && nodes_below(elems@[k as int]@, f0.len() as nat));
                let bits: Vec<bool> = bits_of_word(words[k], width);
                let ghost before = feeds@;
                assign_bits(feeds, &elems[k], &bits);
                proof {
                    lemma_assign_len(before, elems@[k as int]@, bits@);
                }
                k = k + 1;
            }
            assert(es.take(elems.len() as int) =~= es);
        },
    }
}

/// Setting feeds keeps their number.
proof fn lemma_assign_len(f: Seq<bool>, nodes: Seq<usize>, bits: Seq<bool>)
    requires
        nodes_below(nodes, f.len() as nat),
    ensures
        assign(f, nodes, bits).len() == f.len(),
    decreases nodes.len(),
{
    if nodes.len() > 0 {
        lemma_assign_len(f, nodes.drop_last(), bits);
    }
}

/// The value of an output, read from the feeds.
fn read_value(feeds: &Vec<bool>, r: &BinaryRepr) -> (v: Value)
    requires
        repr_wf(*r, feeds@.len() as nat),
    ensures
        value_kind(v) == repr_kind(*r),
        value_words(v) == read_words(feeds@, repr_elems(*r)),
{
    match r {
        BinaryRepr::Primitive(ty, nodes) => {
            let w: u64 = read_word(feeds, nodes);
            proof {
                lemma2_to64();
                assert(read_words(feeds@, repr_elems(*r)) =~= seq![w as nat]);
            }
            match ty {
                ValueType::Bit => Value::Bit(w == 1),
                ValueType::U8 => Value::U8(w as u8),
                ValueType::U16 => Value::U16(w as u16),
                ValueType::U32 => Value::U32(w as u32),
                ValueType::U64 => Value::U64(w),
            }
        },
        BinaryRepr::Array(ty, elems) => {
            let ghost es = repr_elems(*r);
            let mut words: Vec<u64> = Vec::new();
            let mut k: usize = 0;
            while k < elems.len()
                invariant
                    *r == BinaryRepr::Array(*ty, *elems),
                    es == repr_elems(*r),
                    repr_wf(*r, feeds@.len() as nat),
                    k <= elems.len(),
                    words@.len() == k,
                    forall|j: int| 0 <= j < k ==> #[trigger] words@[j] as nat == read_words(feeds@, es)[j],
                decreases elems.len() - k,
            {
                assert((elems@[k as int])@.len() == ty.width_spec() && nodes_below(elems@[k as int]@, feeds@.len() as nat));
                let w: u64 = read_word(feeds, &elems[k]);
                words.push(w);
                k = k + 1;
            }
            assert(words@.map_values(|w: u64| w as nat) =~= read_words(feeds@, es));
            Value::Array(*ty, words)
        },
    }
}

impl Circuit {
    /// The layouts of the inputs.
    pub closed spec fn inputs_spec(&self) -> Seq<BinaryRepr> {
        self.inputs@
    }

    /// The layouts of the outputs.
    pub closed spec fn outputs_spec(&self) -> Seq<BinaryRepr> {
        self.outputs@
    }

    /// The gates, in the order they are evaluated.
    pub closed spec fn gates_spec(&self) -> Seq<Gate> {
        self.gates@
    }

    /// The number of feeds.
    pub closed spec fn feed_count_spec(&self) -> nat {
        self.feed_count as nat
    }

    /// The counts of AND and XOR gates that the circuit records.
    pub closed spec fn counts_spec(&self) -> (nat, nat) {
        (self.and_count as nat, self.xor_count as nat)
    }

    /// Feeds 0 and 1 exist, every layout and gate fits the feeds, and the
    /// recorded gate counts are right.
    pub open spec fn wf(&self) -> bool {
        &&& self.feed_count_spec() >= 2
        &&& forall|k: int| 0 <= k < self.inputs_spec().len() ==> repr_wf(#[trigger] self.inputs_spec()[k], self.feed_count_spec())
        &&& forall|k: int| 0 <= k < self.outputs_spec().len() ==> repr_wf(#[trigger] self.outputs_spec()[k], self.feed_count_spec())
        &&& forall|k: int| 0 <= k < self.gates_spec().len() ==> gate_wf(#[trigger] self.gates_spec()[k], self.feed_count_spec())
        &&& self.counts_spec() == (count_and(self.gates_spec()), count_xor(self.gates_spec()))
    }

    /// The feeds after evaluating the circuit on `values`.
    pub open spec fn final_feeds(&self, values: Seq<Value>) -> Seq<bool> {
        run_gates(load_inputs(initial_feeds(self.feed_count_spec()), self.inputs_spec(), values), self.gates_spec())
    }
}

/// The first input, if any, whose value has another type.
pub open spec fn first_mismatch(inputs: Seq<BinaryRepr>, values: Seq<Value>, k: int) -> bool {
    &&& 0 <= k < inputs.len()
    &&& repr_kind(inputs[k]) != value_kind(values[k])
    &&& forall|j: int| 0 <= j < k ==> #[trigger] repr_kind(inputs[j]) == value_kind(values[j])
}

impl Circuit {
    /// A circuit over `feed_count` feeds, or `None` where a layout or a gate
    /// does not fit them, or there are fewer than two feeds for the
    /// constants 0 and 1.
    pub fn new(inputs: Vec<BinaryRepr>, outputs: Vec<BinaryRepr>, gates: Vec<Gate>, feed_count: usize) -> (r: Option<Circuit>)
        ensures
            r matches Some(c) ==> {
                &&& c.wf()
                &&& c.inputs_spec() == inputs@
                &&& c.outputs_spec() == outputs@
                &&& c.gates_spec() == gates@
                &&& c.feed_count_spec() == feed_count
            },
            r is None ==> !{
                &&& feed_count >= 2
                &&& forall|k: int| 0 <= k < inputs@.len() ==> repr_wf(#[trigger] inputs@[k], feed_count as nat)
                &&& forall|k: int| 0 <= k < outputs@.len() ==> repr_wf(#[trigger] outputs@[k], feed_count as nat)
                &&& forall|k: int| 0 <= k < gates@.len() ==> gate_wf(#[trigger] gates@[k], feed_count as nat)
            },
    {
        if feed_count < 2 {
            return None;
        }
        let mut k: usize = 0;
        while k < inputs.len()
            invariant
                k <= inputs.len(),
                forall|j: int| 0 <= j < k ==> repr_wf(#[trigger] inputs@[j], feed_count as nat),
            decreases inputs.len() - k,
        {
            if !check_repr(&inputs[k], feed_count) {
                return None;
            }
            k = k + 1;
        }
        let mut k: usize = 0;
        while k < outputs.len()
            invariant
                k <= outputs.len(),
                forall|j: int| 0 <= j < k ==> repr_wf(#[trigger] outputs@[j], feed_count as nat),
            decreases outputs.len() - k,
        {
            if !check_repr(&outputs[k], feed_count) {
                return None;
            }
            k = k + 1;
        }
        let mut and_count: usize = 0;
        let mut xor_count: usize = 0;
        let mut k: usize = 0;
        while k < gates.len()
            invariant
                k <= gates.len(),
                forall|j: int| 0 <= j < k ==> gate_wf(#[trigger] gates@[j], feed_count as nat),
                and_count == count_and(gates@.take(k as int)),
                xor_count == count_xor(gates@.take(k as int)),
                and_count <= k,
                xor_count <= k,
            decreases gates.len() - k,
        {
            assert(gates@.take(k + 1).drop_last() =~= gates@.take(k as int));
            let fits: bool = match gates[k] {
                Gate::Xor { x, y, z } => x < feed_count && y < feed_count && z < feed_count,
                Gate::And { x, y, z } => x < feed_count && y < feed_count && z < feed_count,
                Gate::Inv { x, z } => x < feed_count && z < feed_count,
            };
            if !fits {
                return None;
            }
            match gates[k] {
                Gate::And { .. } => {
                    and_count = and_count + 1;
                },
                Gate::Xor { .. } => {
                    xor_count = xor_count + 1;
                },
                Gate::Inv { .. } => {},
            }
            k = k + 1;
        }
        assert(gates@.take(gates.len() as int) =~= gates@);
        Some(Circuit { inputs, outputs, gates, feed_count, and_count, xor_count })
    }

    /// Returns a reference to the inputs of the circuit.
    pub fn inputs(&self) -> (r: &[BinaryRepr])
        ensures
            r@ == self.inputs_spec(),
    {
        self.inputs.as_slice()
    }

    /// Returns a reference to the outputs of the circuit.
    pub fn outputs(&self) -> (r: &[BinaryRepr])
        ensures
            r@ == self.outputs_spec(),
    {
        self.outputs.as_slice()
    }

    /// Returns an iterator over the gates of the circuit.
    pub fn gates(&self) -> (r: CircuitIterator<'_>)
        ensures
            *r.circuit_spec() == *self,
            r.position() == 0,
    {
        CircuitIterator { circuit: self, pos: 0 }
    }

    /// Returns the number of feeds in the circuit.
    pub fn feed_count(&self) -> (r: usize)
        ensures
            r == self.feed_count_spec(),
    {
        self.feed_count
    }

    /// Returns the number of gates.
    pub fn gates_count(&self) -> (r: usize)
        ensures
            r == self.gates_spec().len(),
    {
        self.gates.len()
    }

    /// Returns the number of AND gates in the circuit.
    pub fn and_count(&self) -> (r: usize)
        requires
            self.wf(),
        ensures
            r == count_and(self.gates_spec()),
    {
        self.and_count
    }

    /// Returns the number of XOR gates in the circuit.
    pub fn xor_count(&self) -> (r: usize)
        requires
            self.wf(),
        ensures
            r == count_xor(self.gates_spec()),
    {
        self.xor_count
    }

    /// Reverses the order of the inputs.
    pub fn reverse_inputs(self) -> (r: Self)
        ensures
            r.inputs_spec() == self.inputs_spec().reverse(),
            r.outputs_spec() == self.outputs_spec(),
            r.gates_spec() == self.gates_spec(),
            r.feed_count_spec() == self.feed_count_spec(),
            r.counts_spec() == self.counts_spec(),
            self.wf() ==> r.wf(),
    {
        let Circuit { inputs, outputs, gates, feed_count, and_count, xor_count } = self;
        let inputs: Vec<BinaryRepr> = reversed(inputs);
        let r = Circuit { inputs, outputs, gates, feed_count, and_count, xor_count };
        proof {
            if self.wf() {
                assert forall|k: int| 0 <= k < r.inputs_spec().len() implies repr_wf(#[trigger] r.inputs_spec()[k], r.feed_count_spec()) by {
                    assert(r.inputs_spec()[k] == self.inputs_spec()[self.inputs_spec().len() - 1 - k]);
                }
                assert(r.feed_count_spec() >= 2);
                assert(r.outputs_spec() == self.outputs_spec());
                assert(r.gates_spec() == self.gates_spec());
                assert(r.counts_spec() == self.counts_spec());
            }
        }
        r
    }

    /// Reverses the order of the outputs.
    pub fn reverse_outputs(self) -> (r: Self)
        ensures
            r.outputs_spec() == self.outputs_spec().reverse(),
            r.inputs_spec() == self.inputs_spec(),
            r.gates_spec() == self.gates_spec(),
            r.feed_count_spec() == self.feed_count_spec(),
            r.counts_spec() == self.counts_spec(),
            self.wf() ==> r.wf(),
    {
        let Circuit { inputs, outputs, gates, feed_count, and_count, xor_count } = self;
        let outputs: Vec<BinaryRepr> = reversed(outputs);
        let r = Circuit { inputs, outputs, gates, feed_count, and_count, xor_count };
        proof {
            if self.wf() {
                assert forall|k: int| 0 <= k < r.outputs_spec().len() implies repr_wf(#[trigger] r.outputs_spec()[k], r.feed_count_spec()) by {
                    assert(r.outputs_spec()[k] == self.outputs_spec()[self.outputs_spec().len() - 1 - k]);
                }
                assert(r.feed_count_spec() >= 2);
                assert(r.inputs_spec() == self.inputs_spec());
                assert(r.gates_spec() == self.gates_spec());
                assert(r.counts_spec() == self.counts_spec());
            }
        }
        r
    }
}

/// `r` is `s` with the array at `idx`, if there is one, in reverse order.
pub open spec fn reversed_at(s: Seq<BinaryRepr>, idx: int, r: Seq<BinaryRepr>) -> bool {
    &&& r.len() == s.len()
    &&& forall|j: int| 0 <= j < s.len() && j != idx ==> #[trigger] r[j] == s[j]
    &&& 0 <= idx < s.len() ==> match s[idx] {
        BinaryRepr::Array(ty, elems) => r[idx] matches BinaryRepr::Array(t2, e2) && t2 == ty && e2@ == elems@.reverse(),
        BinaryRepr::Primitive(_, _) => r[idx] == s[idx],
    }
}

/// Reverses the array at `idx`, if there is one.
fn reverse_array_at(v: Vec<BinaryRepr>, idx: usize, feed_count: Ghost<nat>) -> (r: Vec<BinaryRepr>)
    ensures
        reversed_at(v@, idx as int, r@),
        (forall|k: int| 0 <= k < v@.len() ==> repr_wf(#[trigger] v@[k], feed_count@))
            ==> (forall|k: int| 0 <= k < r@.len() ==> repr_wf(#[trigger] r@[k], feed_count@)),
{
    if idx >= v.len() {
        return v;
    }
    let mut v = v;
    let ghost v0 = v@;
    let item: BinaryRepr = v.remove(idx);
    match item {
        BinaryRepr::Array(ty, elems) => {
            let ghost e0 = elems@;
            let rev: Vec<Vec<usize>> = reversed(elems);
            let new_item = BinaryRepr::Array(ty, rev);
            proof {
                if repr_wf(v0[idx as int], feed_count@) {
                    assert forall|k: int| 0 <= k < rev@.len() implies
                        (#[trigger] rev@[k])@.len() == ty.width_spec() && nodes_below(rev@[k]@, feed_count@) by {
                        assert(rev@[k] == e0[e0.len() - 1 - k]);
                    }
                }
            }
            v.insert(idx, new_item);
            assert(v@ =~= v0.update(idx as int, new_item));
            v
        },
        BinaryRepr::Primitive(ty, nodes) => {
            v.insert(idx, BinaryRepr::Primitive(ty, nodes));
            assert(v@ =~= v0);
            v
        },
    }
}

impl Circuit {
    /// Reverses endianness of the input at the given index: the order of
    /// the elements of an array input. Other inputs are kept.
    pub fn reverse_input(self, idx: usize) -> (r: Self)
        ensures
            reversed_at(self.inputs_spec(), idx as int, r.inputs_spec()),
            r.outputs_spec() == self.outputs_spec(),
            r.gates_spec() == self.gates_spec(),
            r.feed_count_spec() == self.feed_count_spec(),
            r.counts_spec() == self.counts_spec(),
            self.wf() ==> r.wf(),
    {
        let Circuit { inputs, outputs, gates, feed_count, and_count, xor_count } = self;
        proof {
            if self.wf() {
                assert forall|k: int| 0 <= k < inputs@.len() implies repr_wf(#[trigger] inputs@[k], feed_count as nat) by {
                    assert(self.inputs_spec()[k] == inputs@[k]);
                }
            }
        }
        let inputs: Vec<BinaryRepr> = reverse_array_at(inputs, idx, Ghost(feed_count as nat));
        let r = Circuit { inputs, outputs, gates, feed_count, and_count, xor_count };
        proof {
            if self.wf() {
                assert(r.feed_count_spec() >= 2);
                assert(r.outputs_spec() == self.outputs_spec());
                assert(r.gates_spec() == self.gates_spec());
                assert(r.counts_spec() == self.counts_spec());
            }
        }
        r
    }

    /// Reverses endianness of the output at the given index: the order of
    /// the elements of an array output. Other outputs are kept.
    pub fn reverse_output(self, idx: usize) -> (r: Self)
        ensures
            reversed_at(self.outputs_spec(), idx as int, r.outputs_spec()),
            r.inputs_spec() == self.inputs_spec(),
            r.gates_spec() == self.gates_spec(),
            r.feed_count_spec() == self.feed_count_spec(),
            r.counts_spec() == self.counts_spec(),
            self.wf() ==> r.wf(),
    {
        let Circuit { inputs, outputs, gates, feed_count, and_count, xor_count } = self;
        proof {
            if self.wf() {
                assert forall|k: int| 0 <= k < outputs@.len() implies repr_wf(#[trigger] outputs@[k], feed_count as nat) by {
                    assert(self.outputs_spec()[k] == outputs@[k]);
                }
            }
        }
        let outputs: Vec<BinaryRepr> = reverse_array_at(outputs, idx, Ghost(feed_count as nat));
        let r = Circuit { inputs, outputs, gates, feed_count, and_count, xor_count };
        proof {
            if self.wf() {
                assert(r.feed_count_spec() >= 2);
                assert(r.inputs_spec() == self.inputs_spec());
                assert(r.gates_spec() == self.gates_spec());
                assert(r.counts_spec() == self.counts_spec());
            }
        }
        r
    }

    /// Evaluates the circuit on the given inputs: sets each input's feeds to
    /// its value's bits, runs the gates in order, and reads the outputs.
    pub fn evaluate(&self, values: &[Value]) -> (r: Result<Vec<Value>, CircuitError>)
        requires
            self.wf(),
        ensures
            values@.len() != self.inputs_spec().len() ==> r == Err::<Vec<Value>, CircuitError>(
                CircuitError::InvalidInputCount(self.inputs_spec().len() as usize, values@.len() as usize)),
            values@.len() == self.inputs_spec().len() ==> (forall|k: int| first_mismatch(self.inputs_spec(), values@, k) ==>
                r == Err::<Vec<Value>, CircuitError>(CircuitError::UnexpectedType {
                    expected: repr_kind(self.inputs_spec()[k]),
                    actual: value_kind(values@[k]),
                })),
            values@.len() == self.inputs_spec().len()
                && (forall|k: int| 0 <= k < values@.len() ==> #[trigger] repr_kind(self.inputs_spec()[k]) == value_kind(values@[k]))
                ==> (r matches Ok(out) && {
                    &&& out@.len() == self.outputs_spec().len()
                    &&& forall|i: int| 0 <= i < out@.len() ==> {
                        &&& value_kind(#[trigger] out@[i]) == repr_kind(self.outputs_spec()[i])
                        &&& value_words(out@[i]) == read_words(self.final_feeds(values@), repr_elems(self.outputs_spec()[i]))
                    }
                }),
    {
        let n: usize = self.inputs.len();
        if values.len() != n {
            return Err(CircuitError::InvalidInputCount(n, values.len()));
        }
        let mut k: usize = 0;
        while k < n
            invariant
                n == self.inputs@.len(),
                values@.len() == n,
                k <= n,
                forall|j: int| 0 <= j < k ==> #[trigger] repr_kind(self.inputs@[j]) == value_kind(values@[j]),
            decreases n - k,
        {
            let expected: ValueKind = kind_of_repr(&self.inputs[k]);
            let actual: ValueKind = kind_of_value(&values[k]);
            if expected != actual {
                proof {
                    assert forall|j: int| first_mismatch(self.inputs_spec(), values@, j) implies j == k by {
                        if j < k {
                        } else if j > k {
                            assert(repr_kind(self.inputs@[k as int]) == value_kind(values@[k as int]));
                        }
                    }
                }
                return Err(CircuitError::UnexpectedType { expected, actual });
            }
            k = k + 1;
        }
        let fc: usize = self.feed_count;
        let mut feeds: Vec<bool> = Vec::new();
        let mut i: usize = 0;
        while i < fc
            invariant
                i <= fc,
                feeds@ == initial_feeds(i as nat),
            decreases fc - i,
        {
            feeds.push(i == 1);
            i = i + 1;
            assert(feeds@ =~= initial_feeds(i as nat));
        }
        let ghost f0 = feeds@;
        let mut k: usize = 0;
        while k < n
            invariant
                self.wf(),
                n == self.inputs@.len(),
                values@.len() == n,
                k <= n,
                f0 == initial_feeds(self.feed_count_spec()),
                forall|j: int| 0 <= j < n ==> #[trigger] repr_kind(self.inputs@[j]) == value_kind(values@[j]),
                feeds@.len() == self.feed_count_spec(),
                feeds@ == load_inputs(f0, self.inputs@.take(k as int), values@),
            decreases n - k,
        {
            assert(self.inputs@.take(k + 1).drop_last() =~= self.inputs@.take(k as int));
            assert(repr_wf(self.inputs_spec()[k as int], self.feed_count_spec()));
            load_value(&mut feeds, &self.inputs[k], &values[k]);
            k = k + 1;
        }
        assert(self.inputs@.take(n as int) =~= self.inputs@);
        let ghost loaded = feeds@;
        let mut g: usize = 0;
        while g < self.gates.len()
            invariant
                self.wf(),
                g <= self.gates@.len(),
                feeds@.len() == self.feed_count_spec(),
                feeds@ == run_gates(loaded, self.gates@.take(g as int)),
            decreases self.gates@.len() - g,
        {
            assert(self.gates@.take(g + 1).drop_last() =~= self.gates@.take(g as int));
            assert(gate_wf(self.gates_spec()[g as int], self.feed_count_spec()));
            match self.gates[g] {
                Gate::Xor { x, y, z } => {
                    let v: bool = feeds[x] != feeds[y];
                    feeds.set(z, v);
                },
                Gate::And { x, y, z } => {
                    let v: bool = feeds[x] && feeds[y];
                    feeds.set(z, v);
                },
                Gate::Inv { x, z } => {
                    let v: bool = !feeds[x];
                    feeds.set(z, v);
                },
            }
            g = g + 1;
        }
        assert(self.gates@.take(self.gates@.len() as int) =~= self.gates@);
        let mut out: Vec<Value> = Vec::new();
        let mut o: usize = 0;
        while o < self.outputs.len()
            invariant
                self.wf(),
                o <= self.outputs@.len(),
                feeds@ == self.final_feeds(values@),
                feeds@.len() == self.feed_count_spec(),
                out@.len() == o,
                forall|i: int| 0 <= i < o ==> {
                    &&& value_kind(#[trigger] out@[i]) == repr_kind(self.outputs_spec()[i])
                    &&& value_words(out@[i]) == read_words(self.final_feeds(values@), repr_elems(self.outputs_spec()[i]))
                },
            decreases self.outputs@.len() - o,
        {
            assert(repr_wf(self.outputs_spec()[o as int], self.feed_count_spec()));
            let v: Value = read_value(&feeds, &self.outputs[o]);
            out.push(v);
            o = o + 1;
        }
        Ok(out)
    }
}

/// An iterator over the gates of a circuit.
pub struct CircuitIterator<'a> {
    circuit: &'a Circuit,
    pos: usize,
}

impl<'a> CircuitIterator<'a> {
    /// The circuit iterated over.
    pub closed spec fn circuit_spec(&self) -> &'a Circuit {
        self.circuit
    }

    /// The number of gates already handed out.
    pub closed spec fn position(&self) -> nat {
        self.pos as nat
    }

    /// Returns a reference to the underlying circuit.
    pub fn circuit(&self) -> (r: &'a Circuit)
        ensures
            r == self.circuit_spec(),
    {
        self.circuit
    }

    /// Returns a reference to the next gate without advancing the iterator.
    pub fn peek(&mut self) -> (r: Option<&Gate>)
        ensures
            *final(self) == *old(self),
            old(self).position() < old(self).circuit_spec().gates_spec().len() ==> (r matches Some(g)
                && *g == old(self).circuit_spec().gates_spec()[old(self).position() as int]),
            old(self).position() >= old(self).circuit_spec().gates_spec().len() ==> r is None,
    {
        if self.pos < self.circuit.gates.len() {
            Some(&self.circuit.gates[self.pos])
        } else {
            None
        }
    }

    /// Returns the next gate and advances past it.
    pub fn next(&mut self) -> (r: Option<Gate>)
        ensures
            final(self).circuit_spec() == old(self).circuit_spec(),
            old(self).position() < old(self).circuit_spec().gates_spec().len() ==> {
                &&& r == Some(old(self).circuit_spec().gates_spec()[old(self).position() as int])
                &&& final(self).position() == old(self).position() + 1
            },
            old(self).position() >= old(self).circuit_spec().gates_spec().len() ==> {
                &&& r is None
                &&& final(self).position() == old(self).position()
            },
    {
        if self.pos < self.circuit.gates.len() {
            let g: Gate = self.circuit.gates[self.pos];
            self.pos = self.pos + 1;
            Some(g)
        } else {
            None
        }
    }
}

} // verus!
