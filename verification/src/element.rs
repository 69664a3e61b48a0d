//! The value model: a closed tagged union describing an arbitrary JSON
//! element for unmarshaling JSON whose layout is not known ahead of time,
//! together with the exact-decimal number type that stands for JSON's
//! fractional and exponent numbers, and the string-keyed mapping type.
use crate::json_map::keys_unique;
use vstd::prelude::*;

verus! {

broadcast use vstd::seq::group_seq_axioms, vstd::std_specs::vec::group_vec_axioms;

/// The ghost value of a [`Decimal`]: the number `m * 10^exp`, negated when
/// `neg` is set, where `m` is the integer written by `digits` in base 10.
pub ghost struct DecV {
    pub neg: bool,
    pub digits: Seq<u8>,
    pub exp: int,
}

impl DecV {
    /// Digits are decimal, with no leading or trailing zero, so that equal
    /// numbers have equal representations; zero is the empty digit string
    /// with exponent zero (its sign is kept, as for the float it models).
    pub open spec fn wf(self) -> bool {
        &&& forall|k: int| 0 <= k < self.digits.len() ==> self.digits[k] <= 9
        &&& self.digits.len() > 0 ==> self.digits[0] != 0 && self.digits.last() != 0
        &&& self.digits.len() == 0 ==> self.exp == 0
    }
}

/// A decimal floating-point number: a sign, a run of significant decimal
/// digits, and a power of ten to scale them by. It stands for the number
/// grammar's fraction and exponent forms exactly, with no rounding.
#[derive(Debug, PartialEq)]
pub struct Decimal {
    neg: bool,
    digits: Vec<u8>,
    exp: i64,
}

impl View for Decimal {
    type V = DecV;

    closed spec fn view(&self) -> DecV {
        DecV { neg: self.neg, digits: self.digits@, exp: self.exp as int }
    }
}

impl DeepView for Decimal {
    type V = DecV;

    open spec fn deep_view(&self) -> DecV {
        self.view()
    }
}

impl Decimal {
    pub open spec fn wf(self) -> bool {
        self@.wf()
    }

    /// Builds the decimal `m * 10^exp` (negated when `neg` is set), where
    /// `m` is written by `digits` in base 10, normalizing away leading and
    /// trailing zeros. Digit values above 9 are rejected.
    pub fn new(neg: bool, digits: Vec<u8>, exp: i64) -> (r: Option<Decimal>)
        ensures
            r matches Some(d) ==> d.wf() && d@ == norm_dec(neg, digits@, exp as int),
            r is Some <==> (forall|k: int| 0 <= k < digits@.len() ==> digits@[k] <= 9)
                && -0x4000_0000_0000_0000 < exp < 0x4000_0000_0000_0000 && digits@.len()
                < 0xFFFF_FFFF,
    {
        if exp <= -0x4000_0000_0000_0000 || exp >= 0x4000_0000_0000_0000 {
            return None;
        }
        if digits.len() >= 0xFFFF_FFFF {
            return None;
        }
        let mut k: usize = 0;
        while k < digits.len()
            invariant
                0 <= k <= digits@.len(),
                forall|j: int| 0 <= j < k ==> digits@[j] <= 9,
            decreases digits@.len() - k,
        {
            if digits[k] > 9 {
                return None;
            }
            k = k + 1;
        }
        Some(dec_from_digits(neg, digits, exp))
    }

    /// Whether this decimal is negative (true also for a negative zero).
    pub fn is_neg(&self) -> (r: bool)
        ensures
            r == self@.neg,
    {
        self.neg
    }

    /// The significant digits, most significant first.
    pub fn significant_digits(&self) -> (r: &Vec<u8>)
        ensures
            r@ == self@.digits,
    {
        &self.digits
    }

    /// The power of ten scaling the significant digits.
    pub fn power_of_ten(&self) -> (r: i64)
        ensures
            r == self@.exp,
    {
        self.exp
    }
}

/// The normal form of the decimal `m * 10^exp`: leading zeros dropped,
/// trailing zeros dropped while raising the exponent, and zero itself
/// written as the empty digit string with exponent zero.
pub open spec fn norm_dec(neg: bool, digits: Seq<u8>, exp: int) -> DecV
    decreases digits.len(),
{
    if digits.len() == 0 {
        DecV { neg, digits, exp: 0 }
    } else if digits[0] == 0 {
        norm_dec(neg, digits.drop_first(), exp)
    } else if digits.last() == 0 {
        norm_dec(neg, digits.drop_last(), exp + 1)
    } else {
        DecV { neg, digits, exp }
    }
}

/// Builds a [`Decimal`] in normal form from decimal digits.
pub(crate) fn dec_from_digits(neg: bool, digits: Vec<u8>, exp: i64) -> (r: Decimal)
    requires
        forall|k: int| 0 <= k < digits@.len() ==> digits@[k] <= 9,
        -0x4000_0000_0000_0000 < exp < 0x4000_0000_0000_0000,
        digits@.len() < 0xFFFF_FFFF,
    ensures
        r.wf(),
        r@ == norm_dec(neg, digits@, exp as int),
{
    let mut digits = digits;
    let mut exp = exp;
    let mut start: usize = 0;
    // Count leading zeros without shifting the vector.
    while start < digits.len() && digits[start as usize] == 0
        invariant
            0 <= start <= digits@.len(),
            forall|j: int| 0 <= j < start ==> digits@[j] == 0,
        decreases digits@.len() - start,
    {
        start = start + 1;
    }
    let mut end: usize = digits.len();
    while end > start && digits[end - 1] == 0
        invariant
            start <= end <= digits@.len(),
            forall|j: int| end <= j < digits@.len() ==> digits@[j] == 0,
        decreases end,
    {
        end = end - 1;
    }
    let ghost orig = digits@;
    let ghost orig_exp = exp as int;
    let mut out: Vec<u8> = Vec::new();
    let mut k: usize = start;
    while k < end
        invariant
            start <= k <= end,
            end <= digits@.len(),
            digits@ == orig,
            out@ == orig.subrange(start as int, k as int),
        decreases end - k,
    {
        out.push(digits[k]);
        k = k + 1;
    }
    if start == end {
        exp = 0;
    } else if end < digits.len() {
        exp = exp + ((digits.len() - end) as i64);
    }
    proof {
        lemma_norm_dec_range(neg, orig, orig_exp, start as int, end as int);
        assert(out@ =~= orig.subrange(start as int, end as int));
    }
    Decimal { neg, digits: out, exp }
}

/// Dropping the counted leading zeros, and the counted trailing zeros
/// while raising the exponent accordingly, is exactly normalization.
proof fn lemma_norm_dec_range(neg: bool, digits: Seq<u8>, exp: int, start: int, end: int)
    requires
        forall|k: int| 0 <= k < digits.len() ==> digits[k] <= 9,
        0 <= start <= end <= digits.len(),
        forall|j: int| 0 <= j < start ==> digits[j] == 0,
        forall|j: int| end <= j < digits.len() ==> digits[j] == 0,
        start < end ==> digits[start] != 0 && digits[end - 1] != 0,
    ensures
        norm_dec(neg, digits, exp) == (DecV {
            neg,
            digits: digits.subrange(start, end),
            exp: if start == end {
                0
            } else {
                exp + (digits.len() - end)
            },
        }),
    decreases digits.len(),
{
    if digits.len() == 0 {
        assert(digits.subrange(start, end) =~= digits);
    } else if digits[0] == 0 {
        assert(start > 0 || start == end) by {
            if start < end && start == 0 {
                assert(digits[start] != 0);
            }
        }
        if start == end {
            if start == 0 {
                // every digit is zero
                lemma_norm_dec_range(neg, digits.drop_first(), exp, 0, 0);
                assert(digits.drop_first().subrange(0, 0) =~= digits.subrange(start, end));
            } else {
                lemma_norm_dec_range(neg, digits.drop_first(), exp, start - 1, end - 1);
                assert(digits.drop_first().subrange(start - 1, end - 1) =~= digits.subrange(
                    start,
                    end,
                ));
            }
        } else {
            lemma_norm_dec_range(neg, digits.drop_first(), exp, start - 1, end - 1);
            assert(digits.drop_first().subrange(start - 1, end - 1) =~= digits.subrange(
                start,
                end,
            ));
        }
    } else if digits.last() == 0 {
        assert(end < digits.len() || start == end);
        if start == end {
            // digits[0] != 0 and start == end forces start == end == 0 to be
            // impossible unless everything is zero; digits[0] != 0 with
            // start == 0 means start < end, so here start > 0, yet digits
            // before start are zero, contradicting digits[0] != 0 unless
            // start == 0. Hence this case cannot happen.
            assert(start == 0 ==> digits[0] == 0);
            assert(false);
        } else {
            lemma_norm_dec_range(neg, digits.drop_last(), exp + 1, start, end);
            assert(digits.drop_last().subrange(start, end) =~= digits.subrange(start, end));
        }
    } else {
        assert(start == 0 && end == digits.len()) by {
            if start > 0 {
                assert(digits[0] == 0);
            }
            if end < digits.len() {
                assert(digits.last() == 0);
            }
        }
        assert(digits.subrange(start, end) =~= digits);
    }
}

/// An enum describing an unknown JSON element for unmarshaling JSON where
/// the layout is not known ahead of time. An object is a sequence of
/// key-value pairs with pairwise distinct keys, kept in insertion order.
#[derive(Debug, PartialEq)]
pub enum Element {
    JsonObject(Vec<(String, Element)>),
    JsonList(Vec<Element>),
    JsonString(String),
    JsonInt(i64),
    JsonFloat(Decimal),
    JsonBool(bool),
    JsonNull,
}

/// The ghost value of an [`Element`]: the same tree over mathematical
/// sequences.
pub enum ValV {
    Object(Seq<(Seq<char>, ValV)>),
    List(Seq<ValV>),
    Str(Seq<char>),
    Int(i64),
    Float(DecV),
    Bool(bool),
    Null,
}

/// The views of a sequence of key-value pairs.
pub open spec fn view_pairs(ps: Seq<(String, Element)>) -> Seq<(Seq<char>, ValV)>
    decreases ps,
{
    if ps.len() == 0 {
        Seq::empty()
    } else {
        view_pairs(ps.drop_last()).push((ps.last().0@, ps.last().1@))
    }
}

/// The views of a sequence of elements.
pub open spec fn view_list(es: Seq<Element>) -> Seq<ValV>
    decreases es,
{
    if es.len() == 0 {
        Seq::empty()
    } else {
        view_list(es.drop_last()).push(es.last()@)
    }
}

impl View for Element {
    type V = ValV;

    open spec fn view(&self) -> ValV
        decreases self,
    {
        match self {
            Element::JsonObject(ps) => ValV::Object(view_pairs(ps@)),
            Element::JsonList(es) => ValV::List(view_list(es@)),
            Element::JsonString(s) => ValV::Str(s@),
            Element::JsonInt(i) => ValV::Int(*i),
            Element::JsonFloat(d) => ValV::Float(d@),
            Element::JsonBool(b) => ValV::Bool(*b),
            Element::JsonNull => ValV::Null,
        }
    }
}

impl DeepView for Element {
    type V = ValV;

    open spec fn deep_view(&self) -> ValV {
        self.view()
    }
}

/// Key-value pair views indexed directly.
pub proof fn lemma_view_pairs(ps: Seq<(String, Element)>)
    ensures
        view_pairs(ps).len() == ps.len(),
        forall|k: int|
            0 <= k < ps.len() ==> #[trigger] view_pairs(ps)[k] == (ps[k].0@, ps[k].1@),
    decreases ps,
{
    if ps.len() > 0 {
        lemma_view_pairs(ps.drop_last());
        assert(view_pairs(ps) == view_pairs(ps.drop_last()).push((ps.last().0@, ps.last().1@)));
        assert(view_pairs(ps).len() == ps.len());
        assert forall|k: int| 0 <= k < ps.len() implies #[trigger] view_pairs(ps)[k] == (
        ps[k].0@,
        ps[k].1@,
        ) by {
            if k < ps.len() - 1 {
                assert(ps.drop_last()[k] == ps[k]);
                assert(view_pairs(ps)[k] == view_pairs(ps.drop_last())[k]);
            } else {
                assert(view_pairs(ps)[k] == (ps.last().0@, ps.last().1@));
            }
        }
    }
}

/// Element list views indexed directly.
pub proof fn lemma_view_list(es: Seq<Element>)
    ensures
        view_list(es).len() == es.len(),
        forall|k: int| 0 <= k < es.len() ==> #[trigger] view_list(es)[k] == es[k]@,
    decreases es,
{
    if es.len() > 0 {
        lemma_view_list(es.drop_last());
        assert(view_list(es) == view_list(es.drop_last()).push(es.last()@));
        assert(view_list(es).len() == es.len());
        assert forall|k: int| 0 <= k < es.len() implies #[trigger] view_list(es)[k] == es[k]@ by {
            if k < es.len() - 1 {
                assert(es.drop_last()[k] == es[k]);
                assert(view_list(es)[k] == view_list(es.drop_last())[k]);
            } else {
                assert(view_list(es)[k] == es.last()@);
            }
        }
    }
}

/// Object member well-formedness: distinct keys and well-formed values.
pub open spec fn wf_pairs(ps: Seq<(Seq<char>, ValV)>) -> bool
    decreases ps,
{
    &&& keys_unique(ps)
    &&& (ps.len() == 0 || (wf_pairs(ps.drop_last()) && ps.last().1.wf()))
}

/// List element well-formedness.
pub open spec fn wf_list(es: Seq<ValV>) -> bool
    decreases es,
{
    es.len() == 0 || (wf_list(es.drop_last()) && es.last().wf())
}

impl ValV {
    /// Every object in the tree has pairwise distinct keys and every
    /// number is in normal form.
    pub open spec fn wf(self) -> bool
        decreases self,
    {
        match self {
            ValV::Object(ps) => wf_pairs(ps),
            ValV::List(es) => wf_list(es),
            ValV::Float(d) => d.wf(),
            _ => true,
        }
    }
}

impl Element {
    pub open spec fn wf(self) -> bool {
        self@.wf()
    }
}

} // verus!
