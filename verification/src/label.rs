//! The generation label formatter: renders a generation count as the text
//! `Gen:` followed by exactly four zero-padded decimal digits, and writes it
//! into the fixed-capacity text buffer that the display driver consumes.

use vstd::prelude::*;

verus! {

#[verifier::external_type_specification]
#[verifier::external_body]
pub struct ExArrayString<const CAP: usize>(arrayvec::ArrayString<CAP>);

/// The text that a label buffer holds, as its bytes.
pub uninterp spec fn text_bytes(buf: arrayvec::ArrayString<8>) -> Seq<u8>;

/// The ASCII byte of the decimal digit `d`.
pub open spec fn digit_byte(d: int) -> u8 {
    (48 + d) as u8
}

/// The bytes of the label for generation `gen`: the prefix `Gen:` followed by
/// the four decimal digits of `gen` taken modulo 10000, zero-padded.
/// The ASCII bytes of `G`, `e`, `n` and `:`.
pub open spec fn prefix_bytes() -> Seq<u8> {
    seq![71u8, 101u8, 110u8, 58u8]
}

/// The bytes of the label for generation `gen`: the prefix followed by the
/// four decimal digits of `gen` taken modulo 10000, zero-padded.
pub open spec fn label_bytes(gen: int) -> Seq<u8> {
    prefix_bytes() + seq![
        digit_byte(gen / 1000 % 10),
        digit_byte(gen / 100 % 10),
        digit_byte(gen / 10 % 10),
        digit_byte(gen % 10),
    ]
}

/// Relies on arrayvec's `ArrayString::new`: a fresh buffer holds no text.
#[verifier::external_body]
pub fn label_buffer() -> (buf: arrayvec::ArrayString<8>)
    ensures
        text_bytes(buf) == Seq::<u8>::empty(),
{
    arrayvec::ArrayString::new()
}

/// Relies on arrayvec's `ArrayString::push_str`: it appends the bytes of the
/// given text to the buffer, and panics only when they do not fit in the
/// remaining capacity, which the precondition rules out.
#[verifier::external_body]
fn push_ascii(buf: &mut arrayvec::ArrayString<8>, text: &Vec<u8>)
    requires
        text_bytes(*old(buf)).len() + text@.len() <= 8,
        forall|i: int| 0 <= i < text@.len() ==> text@[i] < 128,
    ensures
        text_bytes(*final(buf)) == text_bytes(*old(buf)) + text@,
{
    buf.push_str(core::str::from_utf8(text.as_slice()).unwrap());
}

/// Renders the label for generation `gen` as ASCII bytes: `Gen:` and the four
/// zero-padded decimal digits of `gen` modulo 10000.
pub fn format_label(gen: u16) -> (label: Vec<u8>)
    ensures
        label@ == label_bytes(gen as int),
        label@.len() == 8,
        forall|i: int| 0 <= i < label@.len() ==> label@[i] < 128,
{
    let singles = gen % 10;
    let tens = (gen / 10) % 10;
    let hundreds = (gen / 100) % 10;
    let thousands = (gen / 1000) % 10;
    let mut label: Vec<u8> = Vec::new();
    label.push(71u8);
    label.push(101u8);
    label.push(110u8);
    label.push(58u8);
    label.push(48 + thousands as u8);
    label.push(48 + hundreds as u8);
    label.push(48 + tens as u8);
    label.push(48 + singles as u8);
    proof {
        assert(label@ =~= label_bytes(gen as int));
    }
    label
}

/// Writes the generation label into an empty label buffer: afterwards the
/// buffer holds exactly `Gen:` and the four zero-padded digits of `gen`
/// modulo 10000.
pub fn counter(buf: &mut arrayvec::ArrayString<8>, gen: u16)
    requires
        text_bytes(*old(buf)).len() == 0,
    ensures
        text_bytes(*final(buf)) == label_bytes(gen as int),
{
    let label = format_label(gen);
    push_ascii(buf, &label);
    proof {
        assert(text_bytes(*buf) =~= label_bytes(gen as int));
    }
}

} // verus!
