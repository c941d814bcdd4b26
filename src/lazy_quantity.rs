use vstd::prelude::*;
use vstd::slice::slice_to_vec;

use crate::buffer::Buffer;
use crate::record::{push_field, record_fields};

verus! {

/// Whether `b` is an ASCII decimal digit.
pub open spec fn is_digit(b: u8) -> bool {
    48 <= b <= 57
}

/// Number of ASCII digits at the start of `s`.
pub open spec fn digit_run(s: Seq<u8>) -> nat
    decreases s.len(),
{
    if s.len() > 0 && is_digit(s[0]) {
        1 + digit_run(s.drop_first())
    } else {
        0
    }
}

/// Value of a string of decimal digits, most significant first.
pub open spec fn digits_value(s: Seq<u8>) -> nat
    decreases s.len(),
{
    if s.len() == 0 {
        0
    } else {
        digits_value(s.drop_last()) * 10 + (s.last() - 48) as nat
    }
}

/// The leading decimal digits of `s` (anything after them is ignored), or
/// nothing when `s` does not start with a digit or their value does not fit
/// in a `u64`.
pub open spec fn leading_decimal(s: Seq<u8>) -> Option<u64> {
    let v = digits_value(s.take(digit_run(s) as int));
    if digit_run(s) == 0 || v > u64::MAX {
        None
    } else {
        Some(v as u64)
    }
}

/// Every byte of `s` is an ASCII decimal digit.
pub open spec fn all_digits(s: Seq<u8>) -> bool {
    forall|i: int| 0 <= i < s.len() ==> is_digit(#[trigger] s[i])
}

/// Checked decimal decode: the value of `s` when it is a non-empty string of
/// ASCII digits whose value fits in a `u64`; nothing otherwise.
pub open spec fn parse_decimal(s: Seq<u8>) -> Option<u64> {
    if s.len() > 0 && all_digits(s) && digits_value(s) <= u64::MAX {
        Some(digits_value(s) as u64)
    } else {
        None
    }
}

proof fn lemma_digit_run_all(s: Seq<u8>)
    requires
        all_digits(s),
    ensures
        digit_run(s) == s.len(),
    decreases s.len(),
{
    if s.len() > 0 {
        assert(is_digit(s[0]));
        assert forall|i: int| 0 <= i < s.drop_first().len() implies is_digit(
            #[trigger] s.drop_first()[i],
        ) by {
            assert(s.drop_first()[i] == s[i + 1]);
        }
        lemma_digit_run_all(s.drop_first());
    }
}

/// Canonical decimal text of `n`: no sign, no leading zeros.
pub open spec fn decimal_text(n: nat) -> Seq<u8>
    decreases n,
{
    if n < 10 {
        seq![(48 + n) as u8]
    } else {
        decimal_text(n / 10).push((48 + n % 10) as u8)
    }
}

/// `a + b`, clamped to `u64::MAX`.
pub open spec fn saturating_sum(a: u64, b: u64) -> u64 {
    if a + b > u64::MAX {
        u64::MAX
    } else {
        (a + b) as u64
    }
}

/// Relies on atoi::atoi for `u64`: parses the leading decimal digits,
/// returning `None` when there are none or when the value overflows.
#[verifier::external_body]
fn parse_u64(text: &[u8]) -> (r: Option<u64>)
    ensures
        r == leading_decimal(text@),
{
    atoi::atoi::<u64>(text)
}

/// Whether every byte of `text` is an ASCII decimal digit.
fn is_all_digits(text: &[u8]) -> (r: bool)
    ensures
        r == all_digits(text@),
{
    let mut i: usize = 0;
    while i < text.len()
        invariant
            i <= text@.len(),
            forall|j: int| 0 <= j < i ==> is_digit(#[trigger] text@[j]),
        decreases text@.len() - i,
    {
        if text[i] < 48u8 || text[i] > 57u8 {
            return false;
        }
        i = i + 1;
    }
    true
}

/// Checked decimal decode of a whole field: text with anything but digits
/// is rejected rather than truncated.
fn parse_field(text: &[u8]) -> (r: Option<u64>)
    ensures
        r == parse_decimal(text@),
{
    if text.len() == 0 || !is_all_digits(text) {
        return None;
    }
    proof {
        lemma_digit_run_all(text@);
        assert(text@.take(text@.len() as int) =~= text@);
    }
    parse_u64(text)
}

/// Relies on num_traits::ops::saturating::SaturatingAdd::saturating_add for
/// `u64`: the sum, clamped at the type's maximum.
#[verifier::external_body]
fn add_saturating(a: u64, b: u64) -> (r: u64)
    ensures
        r == saturating_sum(a, b),
{
    num_traits::ops::saturating::SaturatingAdd::saturating_add(&a, &b)
}

/// Relies on itoa::Buffer::format for `u64`: the canonical decimal text.
#[verifier::external_body]
fn format_u64(n: u64) -> (r: Vec<u8>)
    ensures
        r@ == decimal_text(n as nat),
{
    let mut digits = itoa::Buffer::new();
    digits.format(n).as_bytes().to_vec()
}

/// Abstract state of a [`LazyQuantity`].
pub enum QuantityView {
    Zero,
    Single(Seq<u8>),
    Aggregate(u64),
}

/// Adds one textual value to an aggregated number: a value that does not
/// parse leaves the number as it was.
pub open spec fn aggregate_plus(a: u64, text: Seq<u8>) -> QuantityView {
    match parse_decimal(text) {
        None => QuantityView::Aggregate(a),
        Some(v) => QuantityView::Aggregate(saturating_sum(a, v)),
    }
}

/// State after adding one textual value.
pub open spec fn plus_spec(q: QuantityView, text: Seq<u8>) -> QuantityView {
    match q {
        QuantityView::Zero => QuantityView::Single(text),
        QuantityView::Single(current) => match parse_decimal(current) {
            None => QuantityView::Single(text),
            Some(v) => aggregate_plus(v, text),
        },
        QuantityView::Aggregate(a) => aggregate_plus(a, text),
    }
}

/// State after adding each of `texts` in order, starting from `q`.
pub open spec fn plus_all(q: QuantityView, texts: Seq<Seq<u8>>) -> QuantityView
    decreases texts.len(),
{
    if texts.len() == 0 {
        q
    } else {
        plus_spec(plus_all(q, texts.drop_last()), texts.last())
    }
}

/// Text a quantity renders to.
pub open spec fn rendered(q: QuantityView) -> Seq<u8> {
    match q {
        QuantityView::Zero => seq![48u8],
        QuantityView::Single(text) => text,
        QuantityView::Aggregate(n) => decimal_text(n as nat),
    }
}

/// Record fields after `write_to_record` of a quantity in state `q` on a
/// record holding `before`.
pub open spec fn record_after_write(before: Seq<Seq<u8>>, q: QuantityView) -> Seq<Seq<u8>> {
    before.push(rendered(q))
}

/// A quantity that combines textual numeric fields, parsing them only once a
/// second field arrives.
pub enum LazyQuantity {
    /// No field seen yet.
    Zero,
    /// Exactly one field seen, kept in its textual form.
    Single(Vec<u8>),
    /// Two or more fields combined numerically.
    Aggregate(u64),
}

impl View for LazyQuantity {
    type V = QuantityView;

    open spec fn view(&self) -> QuantityView {
        match self {
            LazyQuantity::Zero => QuantityView::Zero,
            LazyQuantity::Single(text) => QuantityView::Single(text@),
            LazyQuantity::Aggregate(n) => QuantityView::Aggregate(*n),
        }
    }
}

impl LazyQuantity {
    /// Adds the given textual quantity to this one.
    pub fn plus(self, quantity: &[u8]) -> (r: LazyQuantity)
        ensures
            r@ == plus_spec(self@, quantity@),
        decreases (if self is Single { 1int } else { 0int }),
    {
        match self {
            LazyQuantity::Zero => LazyQuantity::Single(slice_to_vec(quantity)),
            LazyQuantity::Single(current) => match parse_field(current.as_slice()) {
                None => LazyQuantity::Single(slice_to_vec(quantity)),
                Some(as_int) => LazyQuantity::Aggregate(as_int).plus(quantity),
            },
            LazyQuantity::Aggregate(current_int) => match parse_field(quantity) {
                None => LazyQuantity::Aggregate(current_int),
                Some(as_int) => LazyQuantity::Aggregate(add_saturating(current_int, as_int)),
            },
        }
    }

    /// Appends the rendered quantity to `dest`, returning the number of bytes
    /// written.
    pub fn write_to(self, dest: &mut Buffer) -> (r: usize)
        ensures
            final(dest)@ == old(dest)@ + rendered(self@),
            r == rendered(self@).len(),
    {
        match self {
            LazyQuantity::Zero => {
                let zero: [u8; 1] = [48u8];
                let r = dest.write(zero.as_slice());
                assert(zero@ == seq![48u8]);
                r
            },
            LazyQuantity::Single(current) => dest.write(current.as_slice()),
            LazyQuantity::Aggregate(current_int) => {
                let text = format_u64(current_int);
                dest.write(text.as_slice())
            },
        }
    }

    /// Appends the rendered quantity to `record` as one field, using
    /// `working` as scratch space; `working` is left empty.
    pub fn write_to_record(self, working: &mut Buffer, record: &mut csv::ByteRecord)
        ensures
            record_fields(*final(record)) == record_after_write(record_fields(*old(record)), self@),
            final(working)@ == Seq::<u8>::empty(),
    {
        working.clear();
        self.write_to(working);
        push_field(record, working.content());
        working.clear();
    }
}

impl Default for LazyQuantity {
    fn default() -> (r: LazyQuantity)
        ensures
            r@ == QuantityView::Zero,
    {
        LazyQuantity::Zero
    }
}

/// Sum of the values that `texts` parse to, each assumed to parse.
pub open spec fn parsed_total(texts: Seq<Seq<u8>>) -> nat
    decreases texts.len(),
{
    if texts.len() == 0 {
        0
    } else {
        parsed_total(texts.drop_last()) + parse_decimal(texts.last()).unwrap() as nat
    }
}

/// `n`, clamped to `u64::MAX`.
pub open spec fn clamp_u64(n: nat) -> u64 {
    if n > u64::MAX {
        u64::MAX
    } else {
        n as u64
    }
}

/// With no value added a quantity renders as `0`; with a single value added
/// it renders as exactly that value's bytes.
pub proof fn lemma_lone_value_verbatim(text: Seq<u8>)
    ensures
        rendered(plus_all(QuantityView::Zero, Seq::empty())) == seq![48u8],
        rendered(plus_all(QuantityView::Zero, seq![text])) == text,
{
    assert(seq![text].drop_last() =~= Seq::<Seq<u8>>::empty());
}

/// Adding two or more values that all parse yields their sum, clamped to
/// `u64::MAX`, rendered as canonical decimal text.
pub proof fn lemma_saturating_total(texts: Seq<Seq<u8>>)
    requires
        texts.len() >= 2,
        forall|i: int| 0 <= i < texts.len() ==> parse_decimal(#[trigger] texts[i]) is Some,
    ensures
        plus_all(QuantityView::Zero, texts) == QuantityView::Aggregate(clamp_u64(parsed_total(texts))),
        rendered(plus_all(QuantityView::Zero, texts)) == decimal_text(clamp_u64(parsed_total(texts)) as nat),
    decreases texts.len(),
{
    let prefix = texts.drop_last();
    assert(parse_decimal(texts[texts.len() - 1]) is Some);
    if texts.len() == 2 {
        assert(prefix.drop_last() =~= Seq::<Seq<u8>>::empty());
        assert(prefix.last() == texts[0]);
        assert(parse_decimal(texts[0]) is Some);
        assert(parsed_total(prefix.drop_last()) == 0);
        assert(plus_all(QuantityView::Zero, prefix.drop_last()) == QuantityView::Zero);
        assert(plus_all(QuantityView::Zero, prefix) == QuantityView::Single(texts[0]));
        assert(parsed_total(prefix) == parse_decimal(texts[0]).unwrap() as nat);
    } else {
        assert forall|i: int| 0 <= i < prefix.len() implies parse_decimal(#[trigger] prefix[i]) is Some by {
            assert(prefix[i] == texts[i]);
        }
        lemma_saturating_total(prefix);
    }
    assert(plus_all(QuantityView::Zero, texts) == plus_spec(
        plus_all(QuantityView::Zero, prefix),
        texts.last(),
    ));
}

/// Rendering into a record is idempotent: successive `write_to_record`
/// calls with quantities in equal states append byte-identical fields, and
/// the field appended does not depend on what the record held before.
pub proof fn lemma_record_field_stable(q1: QuantityView, q2: QuantityView, before: Seq<Seq<u8>>, other: Seq<Seq<u8>>)
    requires
        q1 == q2,
    ensures
        ({
            let once = record_after_write(before, q1);
            let twice = record_after_write(once, q2);
            &&& twice.len() == before.len() + 2
            &&& twice.take(before.len() as int) == before
            &&& twice[before.len() as int] == twice[before.len() as int + 1]
        }),
        record_after_write(before, q1).last() == record_after_write(other, q2).last(),
{
    let once = record_after_write(before, q1);
    let twice = record_after_write(once, q2);
    assert(twice.take(before.len() as int) =~= before);
}

} // verus!
