//! The JSON value model.
use vstd::prelude::*;
use crate::parser::push_char;

verus! {

broadcast use vstd::std_specs::vec::group_vec_axioms;

/// A number as written: a sign, the digits of its integer part, and the optional fraction and
/// exponent, each kept digit by digit so that no precision is lost.
#[derive(Debug, Clone, PartialEq)]
pub struct Number {
    pub negative: bool,
    pub integer: Vec<u8>,
    pub fraction: Option<Vec<u8>>,
    pub exponent: Option<(bool, Vec<u8>)>,
}

/// The mathematical content of a `Number`.
pub struct NumberV {
    pub negative: bool,
    pub integer: Seq<u8>,
    pub fraction: Option<Seq<u8>>,
    pub exponent: Option<(bool, Seq<u8>)>,
}

impl DeepView for Number {
    type V = NumberV;

    open spec fn deep_view(&self) -> NumberV {
        NumberV {
            negative: self.negative,
            integer: self.integer.deep_view(),
            fraction: self.fraction.deep_view(),
            exponent: self.exponent.deep_view(),
        }
    }
}

/// The characters of the decimal digits `ds`.
pub open spec fn digits_text(ds: Seq<u8>) -> Seq<char> {
    Seq::new(ds.len(), |i: int| (ds[i] + 48) as char)
}

/// `-` where `negative` holds, nothing otherwise.
pub open spec fn sign_text(negative: bool) -> Seq<char> {
    if negative {
        seq!['-']
    } else {
        seq![]
    }
}

/// Whether every digit is below ten.
pub open spec fn digits_ok(ds: Seq<u8>) -> bool {
    forall|i: int| 0 <= i < ds.len() ==> #[trigger] ds[i] < 10
}

impl NumberV {
    pub open spec fn wf(self) -> bool {
        &&& digits_ok(self.integer)
        &&& (self.fraction matches Some(f) ==> digits_ok(f))
        &&& (self.exponent matches Some((_, e)) ==> digits_ok(e))
    }

    /// The number as decimal text: sign, integer digits, then `.` and the fraction digits
    /// where there is a fraction, then `E`, the exponent's sign and digits where there is an
    /// exponent.
    pub open spec fn text(self) -> Seq<char> {
        sign_text(self.negative) + digits_text(self.integer) + match self.fraction {
            Some(f) => seq!['.'] + digits_text(f),
            None => seq![],
        } + match self.exponent {
            Some((neg, e)) => seq!['E'] + sign_text(neg) + digits_text(e),
            None => seq![],
        }
    }
}

/// Appends the characters of the digits `ds` to `out`.
fn push_digits(out: &mut String, ds: &Vec<u8>)
    requires
        digits_ok(ds.deep_view()),
    ensures
        final(out)@ == old(out)@ + digits_text(ds.deep_view()),
{
    let mut i: usize = 0;
    while i < ds.len()
        invariant
            i <= ds@.len(),
            digits_ok(ds.deep_view()),
            out@ == old(out)@ + digits_text(ds.deep_view()).take(i as int),
        decreases ds@.len() - i,
    {
        assert(ds.deep_view()[i as int] == ds@[i as int]);
        let c = (ds[i] + 48) as char;
        push_char(out, c);
        i = i + 1;
        assert(out@ =~= old(out)@ + digits_text(ds.deep_view()).take(i as int));
    }
    assert(digits_text(ds.deep_view()).take(i as int) =~= digits_text(ds.deep_view()));
}

impl Number {
    /// Whether every digit of the number is below ten, as a parsed number's are.
    pub fn is_well_formed(&self) -> (r: bool)
        ensures
            r == self.deep_view().wf(),
    {
        digits_below_ten(&self.integer) && match &self.fraction {
            Some(f) => digits_below_ten(f),
            None => true,
        } && match &self.exponent {
            Some((_, e)) => digits_below_ten(e),
            None => true,
        }
    }

    /// The number as decimal text, ready for a floating-point reader.
    pub fn to_text(&self) -> (r: String)
        requires
            self.deep_view().wf(),
        ensures
            r@ == self.deep_view().text(),
    {
        let mut out = String::new();
        if self.negative {
            push_char(&mut out, '-');
        }
        push_digits(&mut out, &self.integer);
        let ghost a = out@;
        match &self.fraction {
            Some(f) => {
                push_char(&mut out, '.');
                push_digits(&mut out, f);
                assert(out@ =~= a + (seq!['.'] + digits_text(f.deep_view())));
            },
            None => {
                assert(out@ =~= a + Seq::<char>::empty());
            },
        }
        let ghost b = out@;
        match &self.exponent {
            Some((neg, e)) => {
                push_char(&mut out, 'E');
                if *neg {
                    push_char(&mut out, '-');
                }
                push_digits(&mut out, e);
                assert(out@ =~= b + (seq!['E'] + sign_text(*neg) + digits_text(e.deep_view())));
            },
            None => {
                assert(out@ =~= b + Seq::<char>::empty());
            },
        }
        out
    }
}

/// Whether every value in `ds` is below ten.
fn digits_below_ten(ds: &Vec<u8>) -> (r: bool)
    ensures
        r == digits_ok(ds.deep_view()),
{
    let mut i: usize = 0;
    while i < ds.len()
        invariant
            i <= ds@.len(),
            forall|k: int| 0 <= k < i ==> #[trigger] ds.deep_view()[k] < 10,
        decreases ds@.len() - i,
    {
        if ds[i] >= 10 {
            assert(ds.deep_view()[i as int] >= 10);
            return false;
        }
        i = i + 1;
    }
    true
}

/// A JSON value. An object holds its members in the order in which their keys first appeared,
/// each key once.
#[derive(Debug, PartialEq)]
pub enum Json {
    Null,
    Bool(bool),
    Number(Number),
    String(String),
    Array(Vec<Json>),
    Object(Vec<(String, Json)>),
}

/// The mathematical content of a `Json`.
pub enum JsonV {
    Null,
    Bool(bool),
    Number(NumberV),
    String(Seq<char>),
    Array(Seq<JsonV>),
    Object(Seq<(Seq<char>, JsonV)>),
}

pub open spec fn json_view(j: Json) -> JsonV
    decreases j,
{
    match j {
        Json::Null => JsonV::Null,
        Json::Bool(b) => JsonV::Bool(b),
        Json::Number(n) => JsonV::Number(n.deep_view()),
        Json::String(t) => JsonV::String(t@),
        Json::Array(v) => JsonV::Array(
            Seq::new(v.len() as nat, |i: int| if 0 <= i < v.len() { json_view(v[i]) } else { JsonV::Null }),
        ),
        Json::Object(m) => JsonV::Object(
            Seq::new(m.len() as nat, |i: int| if 0 <= i < m.len() { (m[i].0@, json_view(m[i].1)) } else { (Seq::empty(), JsonV::Null) }),
        ),
    }
}

impl DeepView for Json {
    type V = JsonV;

    open spec fn deep_view(&self) -> JsonV {
        json_view(*self)
    }
}

/// The view of an array is the deep view of its elements.
pub proof fn lemma_array_view(vs: Vec<Json>)
    ensures
        Json::Array(vs).deep_view() == JsonV::Array(vs.deep_view()),
{
    if let JsonV::Array(x) = json_view(Json::Array(vs)) {
        assert(x =~= vs.deep_view());
    }
}

/// The view of an object is the deep view of its members.
pub proof fn lemma_object_view(m: Vec<(String, Json)>)
    ensures
        Json::Object(m).deep_view() == JsonV::Object(m.deep_view()),
{
    if let JsonV::Object(x) = json_view(Json::Object(m)) {
        assert(x =~= m.deep_view());
    }
}

} // verus!
