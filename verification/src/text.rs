//! Reading the answers a user typed: surrounding blanks, words and numbers.

use vstd::prelude::*;

verus! {

/// Whether `c` is one of the blank characters that are cut from both ends of an answer.
pub open spec fn is_blank(c: char) -> bool {
    ||| '\u{0009}' <= c <= '\u{000D}'
    ||| c == '\u{0020}'
    ||| c == '\u{0085}'
    ||| c == '\u{00A0}'
    ||| c == '\u{1680}'
    ||| '\u{2000}' <= c <= '\u{200A}'
    ||| c == '\u{2028}'
    ||| c == '\u{2029}'
    ||| c == '\u{202F}'
    ||| c == '\u{205F}'
    ||| c == '\u{3000}'
}

/// `s` without its leading blanks.
pub open spec fn without_leading_blanks(s: Seq<char>) -> Seq<char>
    decreases s.len(),
{
    if s.len() > 0 && is_blank(s.first()) {
        without_leading_blanks(s.drop_first())
    } else {
        s
    }
}

/// `s` without its trailing blanks.
pub open spec fn without_trailing_blanks(s: Seq<char>) -> Seq<char>
    decreases s.len(),
{
    if s.len() > 0 && is_blank(s.last()) {
        without_trailing_blanks(s.drop_last())
    } else {
        s
    }
}

/// `s` with the blanks at both ends removed.
pub open spec fn trimmed(s: Seq<char>) -> Seq<char> {
    without_trailing_blanks(without_leading_blanks(s))
}

/// Decides whether a character is blank.
pub fn blank(c: char) -> (r: bool)
    ensures
        r == is_blank(c),
{
    ('\u{0009}' <= c && c <= '\u{000D}') || c == '\u{0020}' || c == '\u{0085}' || c == '\u{00A0}'
        || c == '\u{1680}' || ('\u{2000}' <= c && c <= '\u{200A}') || c == '\u{2028}' || c
        == '\u{2029}' || c == '\u{202F}' || c == '\u{205F}' || c == '\u{3000}'
}

/// The characters of `s`, in order.
pub fn chars_of(s: &str) -> (v: Vec<char>)
    ensures
        v@ == s@,
{
    let mut v: Vec<char> = Vec::new();
    for c in it: s.chars()
        invariant
            it.seq() == s@,
            v@ == it.seq().take(it.index()),
    {
        v.push(c);
    }
    v
}

/// Finds where the text of `v` begins and ends once the blanks at both ends are left out.
pub fn trim_bounds(v: &Vec<char>) -> (r: (usize, usize))
    ensures
        r.0 <= r.1 <= v.len(),
        v@.subrange(r.0 as int, r.1 as int) == trimmed(v@),
{
    let len: usize = v.len();
    let mut start: usize = 0;
    assert(v@.subrange(0, len as int) =~= v@);
    while start < len && blank(v[start])
        invariant
            len == v.len(),
            start <= len,
            without_leading_blanks(v@) == without_leading_blanks(
                v@.subrange(start as int, len as int),
            ),
        decreases len - start,
    {
        proof {
            let rest = v@.subrange(start as int, len as int);
            assert(rest.first() == v@[start as int]);
            assert(rest.drop_first() =~= v@.subrange(start + 1, len as int));
        }
        start += 1;
    }
    let ghost body = v@.subrange(start as int, len as int);
    assert(without_leading_blanks(v@) == body) by {
        if start < len {
            assert(body.first() == v@[start as int]);
        }
    }
    let mut end: usize = len;
    while end > start && blank(v[end - 1])
        invariant
            start <= end <= len,
            len == v.len(),
            without_trailing_blanks(v@.subrange(start as int, len as int))
                == without_trailing_blanks(v@.subrange(start as int, end as int)),
        decreases end - start,
    {
        proof {
            let rest = v@.subrange(start as int, end as int);
            assert(rest.last() == v@[end - 1]);
            assert(rest.drop_last() =~= v@.subrange(start as int, end - 1));
        }
        end -= 1;
    }
    proof {
        let kept = v@.subrange(start as int, end as int);
        if end > start {
            assert(kept.last() == v@[end - 1]);
        }
        assert(without_trailing_blanks(kept) == kept);
    }
    (start, end)
}

/// Cutting blanks off never makes a text longer.
pub proof fn lemma_trimmed_is_no_longer(s: Seq<char>)
    ensures
        trimmed(s).len() <= s.len(),
{
    lemma_leading_is_no_longer(s);
    lemma_trailing_is_no_longer(without_leading_blanks(s));
}

proof fn lemma_leading_is_no_longer(s: Seq<char>)
    ensures
        without_leading_blanks(s).len() <= s.len(),
    decreases s.len(),
{
    if s.len() > 0 && is_blank(s.first()) {
        lemma_leading_is_no_longer(s.drop_first());
    }
}

proof fn lemma_trailing_is_no_longer(s: Seq<char>)
    ensures
        without_trailing_blanks(s).len() <= s.len(),
    decreases s.len(),
{
    if s.len() > 0 && is_blank(s.last()) {
        lemma_trailing_is_no_longer(s.drop_last());
    }
}

/// Copies `s` without the blanks at its ends.
pub fn trim(s: &str) -> (r: String)
    ensures
        r@ == trimmed(s@),
{
    let v = chars_of(s);
    let (start, end) = trim_bounds(&v);
    s.substring_char(start, end).to_owned()
}

/// Whether `s` is exactly `word`, character by character.
pub fn same_text(s: &str, word: &str) -> (r: bool)
    ensures
        r == (s@ == word@),
{
    let v = chars_of(s);
    let w = chars_of(word);
    if v.len() != w.len() {
        return false;
    }
    let mut i: usize = 0;
    while i < w.len()
        invariant
            v.len() == w.len(),
            i <= w.len(),
            v@ == s@,
            w@ == word@,
            forall|k: int| 0 <= k < i ==> v@[k] == w@[k],
        decreases w.len() - i,
    {
        if v[i] != w[i] {
            assert(v@[i as int] != w@[i as int]);
            return false;
        }
        i += 1;
    }
    assert(v@ =~= w@);
    true
}

/// What an answer to a yes-or-no question says: the single letter `y` is yes and the single
/// letter `n` is no; anything else, a letter with a blank beside it too, is no answer.
pub open spec fn affirms(s: Seq<char>) -> Option<bool> {
    if s == seq!['y'] {
        Some(true)
    } else if s == seq!['n'] {
        Some(false)
    } else {
        None
    }
}

/// Reads the answer to a yes-or-no question.
pub fn parse_yes_no(s: &str) -> (r: Option<bool>)
    ensures
        r == affirms(s@),
{
    proof {
        reveal_strlit("y");
        reveal_strlit("n");
        assert("y"@ =~= seq!['y']);
        assert("n"@ =~= seq!['n']);
    }
    if same_text(s, "y") {
        Some(true)
    } else if same_text(s, "n") {
        Some(false)
    } else {
        None
    }
}

/// Whether `c` is a decimal digit.
pub open spec fn is_digit(c: char) -> bool {
    '0' <= c <= '9'
}

/// The number a decimal digit stands for.
pub open spec fn digit_value(c: char) -> nat {
    if is_digit(c) {
        (c as u32 - '0' as u32) as nat
    } else {
        0
    }
}

/// Whether `s` holds decimal digits only.
pub open spec fn all_digits(s: Seq<char>) -> bool {
    forall|i: int| 0 <= i < s.len() ==> is_digit(#[trigger] s[i])
}

/// The number that the digits of `s` write in base ten.
pub open spec fn decimal_value(s: Seq<char>) -> nat
    decreases s.len(),
{
    if s.len() == 0 {
        0
    } else {
        decimal_value(s.drop_last()) * 10 + digit_value(s.last())
    }
}

/// The number that `s` writes: one or more decimal digits, which a single `+` may precede.
pub open spec fn number(s: Seq<char>) -> Option<nat> {
    let digits = if s.len() > 0 && s.first() == '+' {
        s.drop_first()
    } else {
        s
    };
    if digits.len() > 0 && all_digits(digits) {
        Some(decimal_value(digits))
    } else {
        None
    }
}

/// The place in a list of `count` entries that the answer `s` picks, counted from zero.
/// The answer counts from one; blanks around it are ignored.
pub open spec fn position(s: Seq<char>, count: nat) -> Option<nat> {
    match number(trimmed(s)) {
        Some(n) => if 1 <= n <= count {
            Some((n - 1) as nat)
        } else {
            None
        },
        None => None,
    }
}

/// Reading more digits never makes the number smaller.
pub proof fn lemma_decimal_value_grows(s: Seq<char>, k: int)
    requires
        0 <= k <= s.len(),
    ensures
        decimal_value(s.take(k)) <= decimal_value(s),
    decreases s.len() - k,
{
    if k < s.len() {
        lemma_decimal_value_grows(s, k + 1);
        assert(s.take(k + 1).drop_last() =~= s.take(k));
    } else {
        assert(s.take(k) =~= s);
    }
}

/// Reads the answer to "which of these `count` entries?".
pub fn parse_position(s: &str, count: usize) -> (r: Option<usize>)
    ensures
        position(s@, count as nat) == match r {
            Some(k) => Some(k as nat),
            None => None,
        },
{
    let v = chars_of(s);
    let (start, end) = trim_bounds(&v);
    let first: usize = if start < end && v[start] == '+' {
        start + 1
    } else {
        start
    };
    let ghost kept = v@.subrange(start as int, end as int);
    let ghost digits = v@.subrange(first as int, end as int);
    proof {
        if first > start {
            assert(kept.first() == '+');
            assert(kept.drop_first() =~= digits);
        } else if start < end {
            assert(kept.first() == v@[start as int]);
        }
    }
    if first == end {
        return None;
    }
    let mut acc: usize = 0;
    let mut i: usize = first;
    assert(digits.take(0) =~= Seq::<char>::empty());
    assert(number(trimmed(s@)) == if all_digits(digits) {
        Some(decimal_value(digits))
    } else {
        None
    });
    while i < end
        invariant
            first <= i <= end <= v.len(),
            digits == v@.subrange(first as int, end as int),
            number(trimmed(s@)) == if all_digits(digits) {
                Some(decimal_value(digits))
            } else {
                None
            },
            all_digits(digits.take(i - first)),
            acc == decimal_value(digits.take(i - first)),
            acc <= count,
        decreases end - i,
    {
        let c: char = v[i];
        proof {
            assert(digits[i - first] == c);
            assert(digits.take(i - first + 1).drop_last() =~= digits.take(i - first));
            assert(digits.take(i - first + 1).last() == c);
        }
        if !('0' <= c && c <= '9') {
            return None;
        }
        let d: u32 = c as u32 - '0' as u32;
        let next: u128 = acc as u128 * 10 + d as u128;
        if next > count as u128 {
            proof {
                lemma_decimal_value_grows(digits, i - first + 1);
            }
            return None;
        }
        acc = next as usize;
        i += 1;
    }
    assert(digits.take(end - first) =~= digits);
    if acc >= 1 {
        Some(acc - 1)
    } else {
        None
    }
}

} // verus!
