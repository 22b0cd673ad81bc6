//! The values a pickle stream builds, in two forms: `PickleValue`, which
//! borrows its strings and byte strings from the input buffer, and `Value`,
//! its mathematical model, in which every string is its UTF-8 bytes.
use vstd::prelude::*;
use vstd::string::StringSliceAdditionalSpecFns;

verus! {

/// A value built by the pickle machine.
///
/// `Float` holds the IEEE-754 bit pattern of the `f64` that the stream
/// encodes (`f64::from_bits` gives the number back).
#[derive(Debug, PartialEq)]
pub enum PickleValue<'a> {
    NoneValue,
    Bool(bool),
    Int(i64),
    BigInt(&'a [u8]),
    Float(u64),
    String(&'a str),
    Bytes(&'a [u8]),
    List(Vec<PickleValue<'a>>),
    Tuple(Vec<PickleValue<'a>>),
    Dict(Vec<(PickleValue<'a>, PickleValue<'a>)>),
    MutableSet(Vec<PickleValue<'a>>),
    FrozenSet(Vec<PickleValue<'a>>),
    Object { module: &'a str, attr: &'a str, args: Vec<PickleValue<'a>>, state: Box<PickleValue<'a>> },
    Global { module: &'a str, attr: &'a str },
}

/// What a whole stream yields: the protocol number, the last frame header
/// and the value left on top of the stack at `STOP`.
#[derive(Debug, PartialEq)]
pub struct PickleData<'a> {
    pub proto: u8,
    pub frame: [u8; 8],
    pub root: PickleValue<'a>,
}

/// The model of a `PickleValue`: strings are given by their UTF-8 bytes.
pub enum Value {
    NoneValue,
    Bool(bool),
    Int(i64),
    BigInt(Seq<u8>),
    Float(u64),
    String(Seq<u8>),
    Bytes(Seq<u8>),
    List(Seq<Value>),
    Tuple(Seq<Value>),
    Dict(Seq<(Value, Value)>),
    MutableSet(Seq<Value>),
    FrozenSet(Seq<Value>),
    Object { module: Seq<u8>, attr: Seq<u8>, args: Seq<Value>, state: Box<Value> },
    Global { module: Seq<u8>, attr: Seq<u8> },
}

/// The model of a `PickleData`.
pub struct Unpickled {
    pub proto: u8,
    pub frame: Seq<u8>,
    pub root: Value,
}

/// The UTF-8 bytes of a string slice.
pub open spec fn str_bytes(s: &str) -> Seq<u8> {
    s.spec_bytes()
}

/// The model of a value.
pub open spec fn model_of(v: PickleValue) -> Value
    decreases v,
{
    match v {
        PickleValue::NoneValue => Value::NoneValue,
        PickleValue::Bool(b) => Value::Bool(b),
        PickleValue::Int(i) => Value::Int(i),
        PickleValue::BigInt(b) => Value::BigInt(b@),
        PickleValue::Float(f) => Value::Float(f),
        PickleValue::String(s) => Value::String(str_bytes(s)),
        PickleValue::Bytes(b) => Value::Bytes(b@),
        PickleValue::List(items) => Value::List(models_of(items@)),
        PickleValue::Tuple(items) => Value::Tuple(models_of(items@)),
        PickleValue::Dict(entries) => Value::Dict(pair_models_of(entries@)),
        PickleValue::MutableSet(items) => Value::MutableSet(models_of(items@)),
        PickleValue::FrozenSet(items) => Value::FrozenSet(models_of(items@)),
        PickleValue::Object { module, attr, args, state } => Value::Object {
            module: str_bytes(module),
            attr: str_bytes(attr),
            args: models_of(args@),
            state: Box::new(model_of(*state)),
        },
        PickleValue::Global { module, attr } => Value::Global {
            module: str_bytes(module),
            attr: str_bytes(attr),
        },
    }
}

/// The models of a sequence of values (the form `model_of` recurses through).
pub open spec fn models_of(vs: Seq<PickleValue>) -> Seq<Value>
    decreases vs,
{
    if vs.len() == 0 {
        Seq::empty()
    } else {
        models_of(vs.drop_last()).push(model_of(vs.last()))
    }
}

/// The models of a sequence of pairs (the form `model_of` recurses through).
pub open spec fn pair_models_of(ps: Seq<(PickleValue, PickleValue)>) -> Seq<(Value, Value)>
    decreases ps,
{
    if ps.len() == 0 {
        Seq::empty()
    } else {
        pair_models_of(ps.drop_last()).push((model_of(ps.last().0), model_of(ps.last().1)))
    }
}

impl<'a> View for PickleValue<'a> {
    type V = Value;

    open spec fn view(&self) -> Value {
        model_of(*self)
    }
}

impl<'a> View for PickleData<'a> {
    type V = Unpickled;

    open spec fn view(&self) -> Unpickled {
        Unpickled { proto: self.proto, frame: self.frame@, root: self.root@ }
    }
}

/// The models of a sequence of values, element by element.
pub open spec fn view_all(vs: Seq<PickleValue>) -> Seq<Value> {
    vs.map_values(|v: PickleValue| v@)
}

/// The models of a sequence of pairs of values, element by element.
pub open spec fn view_pairs(ps: Seq<(PickleValue, PickleValue)>) -> Seq<(Value, Value)> {
    ps.map_values(|p: (PickleValue, PickleValue)| (p.0@, p.1@))
}

pub proof fn lemma_models_of(vs: Seq<PickleValue>)
    ensures
        models_of(vs) == view_all(vs),
    decreases vs.len(),
{
    if vs.len() > 0 {
        lemma_models_of(vs.drop_last());
    }
    assert(models_of(vs) =~= view_all(vs));
}

pub proof fn lemma_pair_models_of(ps: Seq<(PickleValue, PickleValue)>)
    ensures
        pair_models_of(ps) == view_pairs(ps),
    decreases ps.len(),
{
    if ps.len() > 0 {
        lemma_pair_models_of(ps.drop_last());
    }
    assert(pair_models_of(ps) =~= view_pairs(ps));
}

/// A copy of a value, with the same model.
pub fn copy_value<'a>(v: &PickleValue<'a>) -> (r: PickleValue<'a>)
    ensures
        r@ == v@,
    decreases v,
{
    match v {
        PickleValue::NoneValue => PickleValue::NoneValue,
        PickleValue::Bool(b) => PickleValue::Bool(*b),
        PickleValue::Int(i) => PickleValue::Int(*i),
        PickleValue::BigInt(b) => PickleValue::BigInt(*b),
        PickleValue::Float(f) => PickleValue::Float(*f),
        PickleValue::String(s) => PickleValue::String(*s),
        PickleValue::Bytes(b) => PickleValue::Bytes(*b),
        PickleValue::List(items) => PickleValue::List(copy_values(items)),
        PickleValue::Tuple(items) => PickleValue::Tuple(copy_values(items)),
        PickleValue::Dict(entries) => PickleValue::Dict(copy_pairs(entries)),
        PickleValue::MutableSet(items) => PickleValue::MutableSet(copy_values(items)),
        PickleValue::FrozenSet(items) => PickleValue::FrozenSet(copy_values(items)),
        PickleValue::Object { module, attr, args, state } => PickleValue::Object {
            module: *module,
            attr: *attr,
            args: copy_values(args),
            state: Box::new(copy_value(state)),
        },
        PickleValue::Global { module, attr } => PickleValue::Global { module: *module, attr: *attr },
    }
}

/// A copy of a vector of values, with the same models.
pub fn copy_values<'a>(vs: &Vec<PickleValue<'a>>) -> (r: Vec<PickleValue<'a>>)
    ensures
        view_all(r@) == view_all(vs@),
        models_of(r@) == models_of(vs@),
    decreases vs,
{
    let mut r: Vec<PickleValue<'a>> = Vec::new();
    let mut i: usize = 0;
    while i < vs.len()
        invariant
            i <= vs.len(),
            r.len() == i,
            forall|j: int| 0 <= j < i ==> r@[j]@ == vs@[j]@,
        decreases vs.len() - i,
    {
        proof {
            vstd::std_specs::vec::axiom_vec_index_decreases(*vs, i as int);
        }
        r.push(copy_value(&vs[i]));
        i = i + 1;
    }
    proof {
        assert(view_all(r@) =~= view_all(vs@));
        lemma_models_of(r@);
        lemma_models_of(vs@);
    }
    r
}

/// A copy of a vector of pairs of values, with the same models.
pub fn copy_pairs<'a>(ps: &Vec<(PickleValue<'a>, PickleValue<'a>)>) -> (r: Vec<(PickleValue<'a>, PickleValue<'a>)>)
    ensures
        view_pairs(r@) == view_pairs(ps@),
        pair_models_of(r@) == pair_models_of(ps@),
    decreases ps,
{
    let mut r: Vec<(PickleValue<'a>, PickleValue<'a>)> = Vec::new();
    let mut i: usize = 0;
    while i < ps.len()
        invariant
            i <= ps.len(),
            r.len() == i,
            forall|j: int| 0 <= j < i ==> r@[j].0@ == ps@[j].0@ && r@[j].1@ == ps@[j].1@,
        decreases ps.len() - i,
    {
        proof {
            vstd::std_specs::vec::axiom_vec_index_decreases(*ps, i as int);
        }
        let k = copy_value(&ps[i].0);
        let v = copy_value(&ps[i].1);
        r.push((k, v));
        i = i + 1;
    }
    proof {
        assert(view_pairs(r@) =~= view_pairs(ps@));
        lemma_pair_models_of(r@);
        lemma_pair_models_of(ps@);
    }
    r
}

impl<'a> Clone for PickleValue<'a> {
    fn clone(&self) -> (r: Self)
        ensures
            r@ == self@,
    {
        copy_value(self)
    }
}

impl<'a> Clone for PickleData<'a> {
    fn clone(&self) -> (r: Self)
        ensures
            r@ == self@,
    {
        PickleData { proto: self.proto, frame: self.frame, root: copy_value(&self.root) }
    }
}

pub broadcast proof fn lemma_view_all_push(s: Seq<PickleValue>, x: PickleValue)
    ensures
        #[trigger] view_all(s.push(x)) == view_all(s).push(x@),
{
    assert(view_all(s.push(x)) =~= view_all(s).push(x@));
}

pub broadcast proof fn lemma_view_all_subrange(s: Seq<PickleValue>, i: int, j: int)
    requires
        0 <= i <= j <= s.len(),
    ensures
        #[trigger] view_all(s.subrange(i, j)) == view_all(s).subrange(i, j),
{
    assert(view_all(s.subrange(i, j)) =~= view_all(s).subrange(i, j));
}

pub broadcast proof fn lemma_view_all_concat(a: Seq<PickleValue>, b: Seq<PickleValue>)
    ensures
        #[trigger] view_all(a + b) == view_all(a) + view_all(b),
{
    assert(view_all(a + b) =~= view_all(a) + view_all(b));
}

pub broadcast proof fn lemma_view_all_update(s: Seq<PickleValue>, i: int, x: PickleValue)
    requires
        0 <= i < s.len(),
    ensures
        #[trigger] view_all(s.update(i, x)) == view_all(s).update(i, x@),
{
    assert(view_all(s.update(i, x)) =~= view_all(s).update(i, x@));
}

pub broadcast proof fn lemma_view_pairs_push(s: Seq<(PickleValue, PickleValue)>, x: (PickleValue, PickleValue))
    ensures
        #[trigger] view_pairs(s.push(x)) == view_pairs(s).push((x.0@, x.1@)),
{
    assert(view_pairs(s.push(x)) =~= view_pairs(s).push((x.0@, x.1@)));
}

pub broadcast proof fn lemma_view_pairs_concat(a: Seq<(PickleValue, PickleValue)>, b: Seq<(PickleValue, PickleValue)>)
    ensures
        #[trigger] view_pairs(a + b) == view_pairs(a) + view_pairs(b),
{
    assert(view_pairs(a + b) =~= view_pairs(a) + view_pairs(b));
}

pub broadcast group group_view_lemmas {
    lemma_view_all_push,
    lemma_view_all_subrange,
    lemma_view_all_concat,
    lemma_view_all_update,
    lemma_view_pairs_push,
    lemma_view_pairs_concat,
}

} // verus!
