//! Reading numbers from the text of form controls: whole numbers for counts, and
//! decimal numbers for fixed-point settings. Text that is not a number gives
//! nothing, so that it can leave a setting as it was.

use crate::fixed::Fixed;
use vstd::prelude::*;

verus! {

/// The character `0`.
pub const ZERO: u8 = 48;

/// The character `9`.
pub const NINE: u8 = 57;

/// The character `+`.
pub const PLUS: u8 = 43;

/// The character `-`.
pub const MINUS: u8 = 45;

/// The character `.`.
pub const POINT: u8 = 46;

/// Whether a byte is a decimal digit.
pub open spec fn is_digit(b: u8) -> bool {
    48 <= b <= 57
}

/// Whether every byte is a decimal digit.
pub open spec fn all_digits(s: Seq<u8>) -> bool {
    forall|i: int| 0 <= i < s.len() ==> is_digit(#[trigger] s[i])
}

/// The number that a sequence of digits writes in base ten; nothing writes zero.
pub open spec fn digits_value(s: Seq<u8>) -> nat
    decreases s.len(),
{
    if s.len() == 0 {
        0
    } else {
        digits_value(s.drop_last()) * 10 + (s.last() - 48) as nat
    }
}

/// Whether the text starts with a minus sign.
pub open spec fn is_negative(s: Seq<u8>) -> bool {
    s.len() > 0 && s[0] == 45
}

/// The text after its sign, if it starts with one.
pub open spec fn unsigned_part(s: Seq<u8>) -> Seq<u8> {
    if s.len() > 0 && (s[0] == 43 || s[0] == 45) {
        s.skip(1)
    } else {
        s
    }
}

/// The whole number that the text writes: an optional sign and at least one digit,
/// nothing else, and a value that an `i32` can hold.
pub open spec fn count_value(s: Seq<u8>) -> Option<int> {
    let body = unsigned_part(s);
    let v = if is_negative(s) {
        -digits_value(body)
    } else {
        digits_value(body) as int
    };
    if body.len() > 0 && all_digits(body) && i32::MIN <= v <= i32::MAX {
        Some(v)
    } else {
        None
    }
}

/// Whether `k` is where the first point of the text stands, or the length of a text
/// without a point.
pub open spec fn is_point_index(s: Seq<u8>, k: int) -> bool {
    &&& 0 <= k <= s.len()
    &&& forall|i: int| 0 <= i < k ==> #[trigger] s[i] != 46
    &&& k < s.len() ==> s[k] == 46
}

/// Where the first point of the text stands, or the length of a text without one.
pub open spec fn point_index(s: Seq<u8>) -> int {
    choose|k: int| is_point_index(s, k)
}

/// The first nine decimal places, a missing place counting as zero.
pub open spec fn nine_places(frac: Seq<u8>) -> Seq<u8> {
    Seq::new(
        9,
        |p: int|
            if p < frac.len() {
                frac[p]
            } else {
                48u8
            },
    )
}

/// The raw fixed-point magnitude and sign that the text writes: an optional sign,
/// then digits with at most one point among them and at least one digit in all.
/// Places beyond the ninth are dropped. Nothing when the text is not of this form
/// or the value does not fit.
pub open spec fn decimal_value(s: Seq<u8>) -> Option<int> {
    let body = unsigned_part(s);
    let k = point_index(body);
    let whole = body.take(k);
    let frac = if k < body.len() {
        body.skip(k + 1)
    } else {
        Seq::empty()
    };
    let magnitude = digits_value(whole) * 1_000_000_000 + digits_value(nine_places(frac));
    if all_digits(whole) && all_digits(frac) && whole.len() + frac.len() > 0 && magnitude
        <= i64::MAX {
        Some(
            if is_negative(s) {
                -magnitude
            } else {
                magnitude as int
            },
        )
    } else {
        None
    }
}

/// Reading on cannot make a number smaller: the value of a run of digits is at
/// least the value of any of its beginnings.
pub proof fn lemma_digits_grow(s: Seq<u8>, i: int)
    requires
        all_digits(s),
        0 <= i <= s.len(),
    ensures
        digits_value(s.take(i)) <= digits_value(s),
    decreases s.len(),
{
    if i < s.len() {
        let shorter = s.drop_last();
        assert(shorter.take(i) =~= s.take(i));
        lemma_digits_grow(shorter, i);
        assert(is_digit(s[s.len() - 1]));
    } else {
        assert(s.take(i) =~= s);
    }
}

/// One digit more: the value of the first `i + 1` digits from the value of the
/// first `i`.
pub proof fn lemma_digits_step(s: Seq<u8>, i: int)
    requires
        0 <= i < s.len(),
    ensures
        digits_value(s.take(i + 1)) == digits_value(s.take(i)) * 10 + (s[i] - 48) as nat,
{
    assert(s.take(i + 1).drop_last() =~= s.take(i));
}

/// A text has one point index.
pub proof fn lemma_point_index_is(s: Seq<u8>, k: int)
    requires
        is_point_index(s, k),
    ensures
        point_index(s) == k,
{
    let c = point_index(s);
    assert(is_point_index(s, c));
    if c < k {
        assert(s[c] != 46);
    } else if k < c {
        assert(s[k] != 46);
    }
}

/// Reads a whole number as `i32` does: an optional sign, then digits only.
pub fn parse_count(text: &[u8]) -> (r: Option<i32>)
    ensures
        r is Some <==> count_value(text@) is Some,
        r matches Some(n) ==> count_value(text@) == Some(n as int),
{
    let n: usize = text.len();
    if n == 0 {
        return None;
    }
    let negative: bool = text[0] == MINUS;
    let start: usize = if text[0] == MINUS || text[0] == PLUS {
        1
    } else {
        0
    };
    if start == n {
        return None;
    }
    let ghost body = unsigned_part(text@);
    assert(body =~= text@.skip(start as int));
    let mut acc: i64 = 0;
    let mut i: usize = start;
    assert(body.take(0) =~= Seq::<u8>::empty());
    while i < n
        invariant
            start <= i <= n,
            n == text@.len(),
            body == unsigned_part(text@),
            body == text@.skip(start as int),
            body.len() == n - start,
            negative == is_negative(text@),
            all_digits(body.take(i - start)),
            acc == digits_value(body.take(i - start)),
            0 <= acc <= 2_147_483_648,
        decreases n - i,
    {
        let b: u8 = text[i];
        if b < ZERO || b > NINE {
            assert(!is_digit(body[i - start]));
            return None;
        }
        proof {
            lemma_digits_step(body, i - start);
            assert(all_digits(body.take(i - start + 1))) by {
                assert forall|j: int| 0 <= j < i - start + 1 implies is_digit(
                    #[trigger] body.take(i - start + 1)[j],
                ) by {
                    if j < i - start {
                        assert(body.take(i - start)[j] == body[j]);
                    }
                }
            }
        }
        let next: i64 = acc * 10 + (b - ZERO) as i64;
        if next > 2_147_483_648 {
            proof {
                if all_digits(body) {
                    lemma_digits_grow(body, i - start + 1);
                }
            }
            return None;
        }
        acc = next;
        i = i + 1;
    }
    assert(body.take(n - start) =~= body);
    if negative {
        Some((-acc) as i32)
    } else if acc <= 2_147_483_647 {
        Some(acc as i32)
    } else {
        None
    }
}

/// Ten to the power `e`.
pub open spec fn pow10(e: nat) -> nat
    decreases e,
{
    if e == 0 {
        1
    } else {
        10 * pow10((e - 1) as nat)
    }
}

/// Ten to the ninth is a billion, and no smaller power of ten is more.
pub proof fn lemma_pow10_nine(e: nat)
    requires
        e <= 9,
    ensures
        pow10(e) <= 1_000_000_000,
        pow10(9) == 1_000_000_000,
{
    reveal_with_fuel(pow10, 10);
}

/// Searches the text for its first point from `from` on.
pub proof fn lemma_find_point(s: Seq<u8>, from: int) -> (k: int)
    requires
        0 <= from <= s.len(),
        forall|i: int| 0 <= i < from ==> #[trigger] s[i] != 46,
    ensures
        is_point_index(s, k),
    decreases s.len() - from,
{
    if from == s.len() || s[from] == 46 {
        from
    } else {
        lemma_find_point(s, from + 1)
    }
}

/// Every text has a point index.
pub proof fn lemma_point_index_exists(s: Seq<u8>)
    ensures
        is_point_index(s, point_index(s)),
{
    let k = lemma_find_point(s, 0);
}

/// Reads a decimal number: an optional sign, then digits with at most one point
/// among them. Places beyond the ninth are dropped.
pub fn parse_decimal(text: &[u8]) -> (r: Option<Fixed>)
    ensures
        r is Some <==> decimal_value(text@) is Some,
        r matches Some(v) ==> decimal_value(text@) == Some(v@),
{
    let n: usize = text.len();
    let negative: bool = n > 0 && text[0] == MINUS;
    let start: usize = if n > 0 && (text[0] == MINUS || text[0] == PLUS) {
        1
    } else {
        0
    };
    let ghost body = unsigned_part(text@);
    assert(body =~= text@.skip(start as int));
    proof {
        lemma_point_index_exists(body);
    }
    let mut whole: u64 = 0;
    let mut i: usize = start;
    assert(body.take(0) =~= Seq::<u8>::empty());
    while i < n && text[i] != POINT
        invariant
            start <= i <= n,
            n == text@.len(),
            body == unsigned_part(text@),
            body == text@.skip(start as int),
            body.len() == n - start,
            is_point_index(body, point_index(body)),
            all_digits(body.take(i - start)),
            whole == digits_value(body.take(i - start)),
            whole <= 9_223_372_036,
        decreases n - i,
    {
        let b: u8 = text[i];
        let ghost k = point_index(body);
        proof {
            // The first point comes after every digit read so far, and after this byte.
            if k <= i - start {
                if k < i - start {
                    assert(is_digit(body.take(i - start)[k]));
                }
                assert(body[k] == 46);
            }
            assert(body.take(k).take(i - start + 1) =~= body.take(i - start + 1));
        }
        if b < ZERO || b > NINE {
            assert(!is_digit(body.take(k)[i - start]));
            return None;
        }
        proof {
            lemma_digits_step(body, i - start);
            assert(all_digits(body.take(i - start + 1))) by {
                assert forall|j: int| 0 <= j < i - start + 1 implies is_digit(
                    #[trigger] body.take(i - start + 1)[j],
                ) by {
                    if j < i - start {
                        assert(body.take(i - start)[j] == body[j]);
                    }
                }
            }
        }
        let next: u64 = whole * 10 + (b - ZERO) as u64;
        if next > 9_223_372_036 {
            proof {
                if all_digits(body.take(k)) {
                    lemma_digits_grow(body.take(k), i - start + 1);
                }
            }
            return None;
        }
        whole = next;
        i = i + 1;
    }
    let ghost k: int = i - start;
    proof {
        assert forall|j: int| 0 <= j < k implies #[trigger] body[j] != 46 by {
            assert(is_digit(body.take(k)[j]));
        }
        lemma_point_index_is(body, k);
    }
    let first: usize = if i < n {
        i + 1
    } else {
        n
    };
    let ghost frac = if k < body.len() {
        body.skip(k + 1)
    } else {
        Seq::<u8>::empty()
    };
    assert(frac =~= text@.skip(first as int));
    let mut j: usize = first;
    while j < n
        invariant
            first <= j <= n,
            n == text@.len(),
            body == unsigned_part(text@),
            point_index(body) == k,
            frac == (if k < body.len() {
                body.skip(k + 1)
            } else {
                Seq::<u8>::empty()
            }),
            frac == text@.skip(first as int),
            forall|q: int| 0 <= q < j - first ==> is_digit(#[trigger] frac[q]),
        decreases n - j,
    {
        if text[j] < ZERO || text[j] > NINE {
            assert(!is_digit(frac[j - first]));
            return None;
        }
        j = j + 1;
    }
    assert(all_digits(frac));
    if i - start + (n - first) == 0 {
        return None;
    }
    let ghost places = nine_places(frac);
    let mut part: u64 = 0;
    let mut p: usize = 0;
    assert(places.take(0) =~= Seq::<u8>::empty());
    while p < 9
        invariant
            p <= 9,
            first <= n,
            n == text@.len(),
            frac == text@.skip(first as int),
            all_digits(frac),
            places == nine_places(frac),
            part == digits_value(places.take(p as int)),
            part < pow10(p as nat),
        decreases 9 - p,
    {
        proof {
            if p < n - first {
                assert(is_digit(frac[p as int]));
            }
        }
        let digit: u8 = if p < n - first {
            text[first + p] - ZERO
        } else {
            0
        };
        proof {
            lemma_digits_step(places, p as int);
            lemma_pow10_nine(p as nat);
            assert(is_digit(places[p as int])) by {
                if p < frac.len() {
                    assert(is_digit(frac[p as int]));
                }
            }
        }
        part = part * 10 + digit as u64;
        p = p + 1;
    }
    proof {
        assert(places.take(9) =~= places);
        lemma_pow10_nine(9);
    }
    let magnitude: u128 = whole as u128 * 1_000_000_000 + part as u128;
    if magnitude > i64::MAX as u128 {
        return None;
    }
    if negative {
        Some(Fixed::from_raw(-(magnitude as i64)))
    } else {
        Some(Fixed::from_raw(magnitude as i64))
    }
}

} // verus!
