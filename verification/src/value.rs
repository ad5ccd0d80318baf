//! The runtime value model.
//!
//! A [`Value`] is a tagged datum: nil, boolean, number, text, or an ordered
//! array of further values. Values are always stored and passed by copy, so
//! no reference cycles are representable. Numbers are held as signed
//! integers; their textual form is the plain decimal expansion.

use vstd::prelude::*;

verus! {

/// A runtime-typed datum stored in a context and manipulated during
/// rendering.
#[derive(Debug)]
pub enum Value {
    Nil,
    Bool(bool),
    Num(i64),
    Str(String),
    Array(Vec<Value>),
}

/// The mathematical shape of a [`Value`]: text as a sequence of characters,
/// numbers as unbounded integers.
pub enum ValueModel {
    Nil,
    Bool(bool),
    Num(int),
    Str(Seq<char>),
    Array(Seq<ValueModel>),
}

/// The model of a value.
pub open spec fn value_model(v: Value) -> ValueModel
    decreases v,
{
    match v {
        Value::Nil => ValueModel::Nil,
        Value::Bool(b) => ValueModel::Bool(b),
        Value::Num(n) => ValueModel::Num(n as int),
        Value::Str(s) => ValueModel::Str(s@),
        Value::Array(a) => ValueModel::Array(models_of(a@)),
    }
}

/// The models of a sequence of values, in order.
pub open spec fn models_of(vs: Seq<Value>) -> Seq<ValueModel>
    decreases vs,
{
    if vs.len() == 0 {
        Seq::empty()
    } else {
        seq![value_model(vs[0])] + models_of(vs.drop_first())
    }
}

/// `models_of` maps each element to its model.
pub proof fn lemma_models_of(vs: Seq<Value>)
    ensures
        models_of(vs).len() == vs.len(),
        forall|i: int| 0 <= i < vs.len() ==> #[trigger] models_of(vs)[i] == value_model(vs[i]),
    decreases vs,
{
    if vs.len() > 0 {
        lemma_models_of(vs.drop_first());
        assert forall|i: int| 0 <= i < vs.len() implies #[trigger] models_of(vs)[i]
            == value_model(vs[i]) by {
            if i > 0 {
                assert(models_of(vs)[i] == models_of(vs.drop_first())[i - 1]);
                assert(vs.drop_first()[i - 1] == vs[i]);
            }
        }
    }
}

/// The decimal digit character for `d`, which must lie in `0 ..= 9`.
pub open spec fn digit_char(d: int) -> char {
    if d == 0 { '0' }
    else if d == 1 { '1' }
    else if d == 2 { '2' }
    else if d == 3 { '3' }
    else if d == 4 { '4' }
    else if d == 5 { '5' }
    else if d == 6 { '6' }
    else if d == 7 { '7' }
    else if d == 8 { '8' }
    else { '9' }
}

/// The decimal expansion of a non-negative integer.
pub open spec fn nat_text(n: int) -> Seq<char>
    decreases n,
{
    if n < 10 {
        seq![digit_char(n)]
    } else {
        nat_text(n / 10).push(digit_char(n % 10))
    }
}

/// The decimal expansion of an integer, with a leading minus sign when
/// negative.
pub open spec fn num_text(n: int) -> Seq<char> {
    if n < 0 {
        seq!['-'] + nat_text(-n)
    } else {
        nat_text(n)
    }
}

/// The text a value turns into when interpolated into the output:
/// nil is empty, booleans spell `true` or `false`, numbers use their
/// decimal expansion, text is taken verbatim, and an array concatenates
/// the texts of its elements.
pub open spec fn model_text(v: ValueModel) -> Seq<char>
    decreases v,
{
    match v {
        ValueModel::Nil => Seq::empty(),
        ValueModel::Bool(b) => if b { "true"@ } else { "false"@ },
        ValueModel::Num(n) => num_text(n),
        ValueModel::Str(s) => s,
        ValueModel::Array(a) => models_text(a),
    }
}

/// The concatenated texts of a sequence of value models.
pub open spec fn models_text(vs: Seq<ValueModel>) -> Seq<char>
    decreases vs,
{
    if vs.len() == 0 {
        Seq::empty()
    } else {
        model_text(vs[0]) + models_text(vs.drop_first())
    }
}

/// The description of a value used in error messages: like `model_text`,
/// except that nil reads `nil`, text is quoted, and an array is summarized.
pub open spec fn model_describe(v: ValueModel) -> Seq<char> {
    match v {
        ValueModel::Nil => "nil"@,
        ValueModel::Bool(b) => if b { "true"@ } else { "false"@ },
        ValueModel::Num(n) => num_text(n),
        ValueModel::Str(s) => seq!['"'] + s + seq!['"'],
        ValueModel::Array(a) => "an array"@,
    }
}

/// Whether a value counts as true in a condition: nil and `false` do not,
/// everything else does.
pub open spec fn model_truthy(v: ValueModel) -> bool {
    match v {
        ValueModel::Nil => false,
        ValueModel::Bool(b) => b,
        _ => true,
    }
}

/// The decimal digit for `d`, which must lie in `0 ..= 9`.
fn digit_str(d: u64) -> (r: &'static str)
    requires
        d < 10,
    ensures
        r@ == seq![digit_char(d as int)],
{
    proof {
        reveal_strlit("0");
        reveal_strlit("1");
        reveal_strlit("2");
        reveal_strlit("3");
        reveal_strlit("4");
        reveal_strlit("5");
        reveal_strlit("6");
        reveal_strlit("7");
        reveal_strlit("8");
        reveal_strlit("9");
    }
    match d {
        0 => "0",
        1 => "1",
        2 => "2",
        3 => "3",
        4 => "4",
        5 => "5",
        6 => "6",
        7 => "7",
        8 => "8",
        _ => "9",
    }
}

/// The decimal expansion of a non-negative number.
fn nat_to_string(n: u64) -> (r: String)
    ensures
        r@ == nat_text(n as int),
    decreases n,
{
    if n < 10 {
        digit_str(n).to_owned()
    } else {
        let rest = nat_to_string(n / 10);
        let r = rest.concat(digit_str(n % 10));
        proof {
            assert(nat_text((n / 10) as int).push(digit_char((n % 10) as int)) =~= nat_text(
                (n / 10) as int,
            ) + seq![digit_char((n % 10) as int)]);
        }
        r
    }
}

/// The decimal expansion of a number, with a leading minus sign when
/// negative.
pub fn num_to_string(n: i64) -> (r: String)
    ensures
        r@ == num_text(n as int),
{
    if n >= 0 {
        nat_to_string(n as u64)
    } else {
        let wide: i128 = n as i128;
        let magnitude: u64 = (-wide) as u64;
        proof {
            reveal_strlit("-");
        }
        let digits = nat_to_string(magnitude);
        String::from_str("-").concat(digits.as_str())
    }
}

impl Value {
    /// An independent copy of this value with the same model.
    pub fn duplicate(&self) -> (r: Value)
        ensures
            value_model(r) == value_model(*self),
        decreases *self,
    {
        match self {
            Value::Nil => Value::Nil,
            Value::Bool(b) => Value::Bool(*b),
            Value::Num(n) => Value::Num(*n),
            Value::Str(s) => Value::Str(s.clone()),
            Value::Array(a) => {
                let mut out: Vec<Value> = Vec::new();
                let mut i: usize = 0;
                proof {
                    lemma_models_of(a@);
                }
                #[verifier::loop_isolation(false)]
                while i < a.len()
                    invariant
                        i <= a@.len(),
                        out@.len() == i,
                        models_of(a@).len() == a@.len(),
                        forall|j: int|
                            0 <= j < a@.len() ==> models_of(a@)[j] == value_model(
                                #[trigger] a@[j],
                            ),
                        forall|j: int|
                            0 <= j < i ==> value_model(#[trigger] out@[j]) == value_model(a@[j]),
                    decreases a@.len() - i,
                {
                    proof {
                        broadcast use vstd::std_specs::vec::axiom_vec_decreases_to_view;
                        broadcast use vstd::seq::axiom_seq_index_decreases;

                        assert(*self == Value::Array(*a));
                        assert(decreases_to!(Value::Array(*a) => *a));
                        assert(decreases_to!(*a => a@));
                        assert(decreases_to!(a@ => a@[i as int]));
                    }
                    let e = a[i].duplicate();
                    out.push(e);
                    i = i + 1;
                }
                proof {
                    lemma_models_of(out@);
                    assert(models_of(out@) =~= models_of(a@));
                }
                Value::Array(out)
            },
        }
    }

    /// The text this value turns into when interpolated into the output.
    pub fn to_text(&self) -> (r: String)
        ensures
            r@ == model_text(value_model(*self)),
        decreases *self,
    {
        match self {
            Value::Nil => String::new(),
            Value::Bool(b) => {
                if *b {
                    String::from_str("true")
                } else {
                    String::from_str("false")
                }
            },
            Value::Num(n) => num_to_string(*n),
            Value::Str(s) => s.clone(),
            Value::Array(a) => {
                let ghost ms = models_of(a@);
                let mut acc = String::new();
                let mut i: usize = 0;
                proof {
                    lemma_models_of(a@);
                    assert(ms.skip(0) =~= ms);
                    assert(Seq::<char>::empty() + models_text(ms) =~= models_text(ms));
                }
                #[verifier::loop_isolation(false)]
                while i < a.len()
                    invariant
                        i <= a@.len(),
                        acc@ + models_text(ms.skip(i as int)) == models_text(ms),
                    decreases a@.len() - i,
                {
                    proof {
                        broadcast use vstd::std_specs::vec::axiom_vec_decreases_to_view;
                        broadcast use vstd::seq::axiom_seq_index_decreases;

                        assert(*self == Value::Array(*a));
                        assert(decreases_to!(Value::Array(*a) => *a));
                        assert(decreases_to!(*a => a@));
                        assert(decreases_to!(a@ => a@[i as int]));
                    }
                    let piece = a[i].to_text();
                    proof {
                        assert(ms.skip(i as int)[0] == ms[i as int]);
                        assert(ms.skip(i as int).drop_first() =~= ms.skip(i as int + 1));
                        assert(acc@ + piece@ + models_text(ms.skip(i as int + 1)) =~= acc@
                            + models_text(ms.skip(i as int)));
                    }
                    acc.append(piece.as_str());
                    i = i + 1;
                }
                proof {
                    assert(ms.skip(a@.len() as int) =~= Seq::empty());
                    assert(acc@ =~= models_text(ms));
                }
                acc
            },
        }
    }

    /// The description of this value used in error messages.
    pub fn describe(&self) -> (r: String)
        ensures
            r@ == model_describe(value_model(*self)),
    {
        match self {
            Value::Nil => String::from_str("nil"),
            Value::Bool(b) => {
                if *b {
                    String::from_str("true")
                } else {
                    String::from_str("false")
                }
            },
            Value::Num(n) => num_to_string(*n),
            Value::Str(s) => {
                proof {
                    reveal_strlit("\"");
                }
                let r = String::from_str("\"").concat(s.as_str()).concat("\"");
                proof {
                    assert(r@ =~= seq!['"'] + s@ + seq!['"']);
                }
                r
            },
            Value::Array(_) => String::from_str("an array"),
        }
    }

    /// Whether this value and `other` have the same model: the same shape,
    /// text and numbers, compared deeply through arrays.
    pub fn deep_eq(&self, other: &Value) -> (r: bool)
        ensures
            r == (value_model(*self) == value_model(*other)),
        decreases *self,
    {
        match (self, other) {
            (Value::Nil, Value::Nil) => true,
            (Value::Bool(x), Value::Bool(y)) => *x == *y,
            (Value::Num(x), Value::Num(y)) => *x == *y,
            (Value::Str(x), Value::Str(y)) => x.eq(y),
            (Value::Array(x), Value::Array(y)) => {
                proof {
                    lemma_models_of(x@);
                    lemma_models_of(y@);
                }
                if x.len() != y.len() {
                    proof {
                        assert(models_of(x@).len() != models_of(y@).len());
                    }
                    return false;
                }
                let mut i: usize = 0;
                #[verifier::loop_isolation(false)]
                while i < x.len()
                    invariant
                        i <= x@.len(),
                        forall|j: int|
                            0 <= j < i ==> value_model(#[trigger] x@[j]) == value_model(y@[j]),
                    decreases x@.len() - i,
                {
                    proof {
                        broadcast use vstd::std_specs::vec::axiom_vec_decreases_to_view;
                        broadcast use vstd::seq::axiom_seq_index_decreases;

                        assert(*self == Value::Array(*x));
                        assert(decreases_to!(Value::Array(*x) => *x));
                        assert(decreases_to!(*x => x@));
                        assert(decreases_to!(x@ => x@[i as int]));
                    }
                    if !x[i].deep_eq(&y[i]) {
                        proof {
                            assert(models_of(x@)[i as int] != models_of(y@)[i as int]);
                        }
                        return false;
                    }
                    i = i + 1;
                }
                proof {
                    assert(models_of(x@) =~= models_of(y@));
                }
                true
            },
            _ => false,
        }
    }
}

} // verus!
