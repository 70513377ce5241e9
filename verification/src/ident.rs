//! Ids of polls and votes: where new ones come from, and how one is written as text.

use vstd::prelude::*;

verus! {

/// A new random id: the 128 bits of `uuid::Uuid::new_v4()`, as `Uuid::as_u128` packs them.
/// Nothing is claimed of the number, not even that it differs from the ids made before.
/// uuid stops the program where the machine gives it no random bytes.
#[verifier::external_body]
pub(crate) fn fresh_id() -> (id: u128) {
    uuid::Uuid::new_v4().as_u128()
}

/// The sixteen digits of base sixteen, in order.
pub open spec fn hex_digits() -> Seq<char> {
    seq!['0', '1', '2', '3', '4', '5', '6', '7', '8', '9', 'a', 'b', 'c', 'd', 'e', 'f']
}

/// Digit `k` of `id` in base sixteen, counted from the most significant of its 32.
pub open spec fn nibble(id: u128, k: u32) -> u128 {
    (id >> (4 * (31 - k)) as u128) & 0xf
}

/// How many of the 32 digits stand before place `i` of the 36 of an id's text: where a
/// digit stands at place `i`, it is this one, counted from zero.
pub open spec fn digit_at(i: int) -> int {
    if i <= 8 {
        i
    } else if i <= 13 {
        i - 1
    } else if i <= 18 {
        i - 2
    } else if i <= 23 {
        i - 3
    } else {
        i - 4
    }
}

/// Whether a hyphen stands at place `i` of an id's text.
pub open spec fn is_hyphen_place(i: int) -> bool {
    i == 8 || i == 13 || i == 18 || i == 23
}

/// An id as text, in the hyphenated form of a UUID: its 32 digits in base sixteen, most
/// significant first, in lower case, in groups of 8, 4, 4, 4 and 12 with a hyphen between
/// them.
pub open spec fn id_text(id: u128) -> Seq<char> {
    Seq::new(
        36,
        |i: int|
            if is_hyphen_place(i) {
                '-'
            } else {
                hex_digits()[nibble(id, digit_at(i) as u32) as int]
            },
    )
}

/// Digit `k` of `id`.
fn nibble_of(id: u128, k: u32) -> (r: usize)
    requires
        k < 32,
    ensures
        r == nibble(id, k),
        r < 16,
{
    let shift: u32 = 4 * (31 - k);
    let digit: u128 = (id >> shift) & 0xf;
    assert(digit < 16) by (bit_vector)
        requires
            digit == (id >> shift) & 0xf,
    ;
    digit as usize
}

/// Writes an id as text.
pub fn write_id(id: u128) -> (r: String)
    ensures
        r@ == id_text(id),
{
    let digits: &'static str = "0123456789abcdef";
    proof {
        reveal_strlit("0123456789abcdef");
        reveal_strlit("-");
        assert(digits@ =~= hex_digits());
        assert("-"@ =~= seq!['-']);
    }
    let mut text = String::new();
    let mut i: usize = 0;
    let mut k: u32 = 0;
    while i < 36
        invariant
            i <= 36,
            k == digit_at(i as int),
            digits@ == hex_digits(),
            digits.is_ascii(),
            "-"@ == seq!['-'],
            text@ == id_text(id).take(i as int),
        decreases 36 - i,
    {
        let ghost before = text@;
        if i == 8 || i == 13 || i == 18 || i == 23 {
            text.append("-");
        } else {
            let n = nibble_of(id, k);
            let digit = digits.substring_ascii(n, n + 1);
            assert(digit@ =~= seq![hex_digits()[n as int]]);
            text.append(digit);
            k += 1;
        }
        assert(text@ =~= id_text(id).take(i + 1));
        i += 1;
    }
    assert(id_text(id).take(36) =~= id_text(id));
    text
}

/// The id that a text stands for, as `uuid::Uuid::parse_str` reads it and `Uuid::as_u128`
/// packs it; none where `parse_str` refuses the text.
pub uninterp spec fn id_read(text: Seq<char>) -> Option<u128>;

/// Reads an id with `uuid::Uuid::parse_str`.
///
/// Two things are taken on trust of that function: that the same text always gives the same
/// answer, and that it reads the text `id_text` writes for an id back as that id, as its
/// documentation says of the hyphenated form.
#[verifier::external_body]
pub(crate) fn read_id(text: &str) -> (r: Option<u128>)
    ensures
        r == id_read(text@),
        forall|id: u128| text@ == id_text(id) ==> r == Some(id),
{
    match uuid::Uuid::parse_str(text) {
        Ok(id) => Some(id.as_u128()),
        Err(_) => None,
    }
}

} // verus!
