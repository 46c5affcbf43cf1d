use crate::valuation::{lemma_pow10_positive, pow10};
use vstd::prelude::*;
use vstd::string::StringSliceAdditionalSpecFns;

verus! {

/// A span of time: whole seconds and the nanoseconds beyond them.
#[derive(Clone, Copy, Debug, PartialEq, Eq, Structural)]
pub struct Seconds {
    pub secs: u64,
    /// Less than a thousand million.
    pub nanos: u32,
}

/// Why a text gives no span of seconds.
#[derive(Clone, Copy, Debug, PartialEq, Eq, Structural)]
pub enum ParseSecondsError {
    /// The text is no number.
    Invalid,
    /// The text names infinity or no number at all.
    NotFinite,
    /// The number is below zero.
    Negative,
    /// The whole seconds do not fit a `u64`.
    TooLarge,
}

/// From this magnitude on an exponent is only known to be huge.
pub const EXPONENT_CAP: u128 = 1_000_000_000_000_000_000_000_000_000_000;

/// Whether a byte is an ASCII decimal digit.
pub open spec fn is_digit(b: u8) -> bool {
    48 <= b <= 57
}

/// Whether every byte is an ASCII decimal digit.
pub open spec fn all_digits(bytes: Seq<u8>) -> bool {
    forall|i: int| 0 <= i < bytes.len() ==> is_digit(#[trigger] bytes[i])
}

/// Whether every byte is the digit zero.
pub open spec fn all_zeros(bytes: Seq<u8>) -> bool {
    forall|i: int| 0 <= i < bytes.len() ==> #[trigger] bytes[i] == 48
}

/// The number that a sequence of decimal digits writes.
pub open spec fn digits_value(bytes: Seq<u8>) -> nat
    decreases bytes.len(),
{
    if bytes.len() == 0 {
        0
    } else {
        (digits_value(bytes.drop_last()) * 10 + (bytes.last() - 48)) as nat
    }
}

/// Whether `p` is where the first byte `a` or `b` of the text stands, or the
/// length of a text without either.
pub open spec fn is_first_of(bytes: Seq<u8>, p: int, a: u8, b: u8) -> bool {
    &&& 0 <= p <= bytes.len()
    &&& forall|j: int| 0 <= j < p ==> (#[trigger] bytes[j]) != a && bytes[j] != b
    &&& p < bytes.len() ==> bytes[p] == a || bytes[p] == b
}

/// Where the first byte `a` or `b` of the text stands, or the length of a
/// text without either.
pub open spec fn first_of(bytes: Seq<u8>, a: u8, b: u8) -> int {
    choose|p: int| is_first_of(bytes, p, a, b)
}

/// Whether the text begins with a plus or a minus.
pub open spec fn has_sign(bytes: Seq<u8>) -> bool {
    bytes.len() > 0 && (bytes[0] == 43 || bytes[0] == 45)
}

/// Whether the text begins with a minus.
pub open spec fn has_minus(bytes: Seq<u8>) -> bool {
    bytes.len() > 0 && bytes[0] == 45
}

/// The text after its sign, if it has one.
pub open spec fn unsigned_part(bytes: Seq<u8>) -> Seq<u8> {
    if has_sign(bytes) {
        bytes.skip(1)
    } else {
        bytes
    }
}

/// Whether an unsigned text holds an exponent mark, `e` or `E`.
pub open spec fn has_exponent(text: Seq<u8>) -> bool {
    first_of(text, 101, 69) < text.len()
}

/// The part of an unsigned text before its exponent mark.
pub open spec fn mantissa(text: Seq<u8>) -> Seq<u8> {
    text.take(first_of(text, 101, 69))
}

/// The part of an unsigned text after its exponent mark.
pub open spec fn exponent_part(text: Seq<u8>) -> Seq<u8> {
    text.skip(first_of(text, 101, 69) + 1)
}

/// The part of a mantissa before its point.
pub open spec fn whole_part(mantissa: Seq<u8>) -> Seq<u8> {
    mantissa.take(first_of(mantissa, 46, 46))
}

/// The part of a mantissa after its point; empty without a point.
pub open spec fn fraction_part(mantissa: Seq<u8>) -> Seq<u8> {
    if first_of(mantissa, 46, 46) < mantissa.len() {
        mantissa.skip(first_of(mantissa, 46, 46) + 1)
    } else {
        Seq::empty()
    }
}

/// The exponent of an unsigned text; zero without an exponent mark.
pub open spec fn exponent_of(text: Seq<u8>) -> int {
    if has_exponent(text) {
        let magnitude = digits_value(unsigned_part(exponent_part(text)));
        if has_minus(exponent_part(text)) {
            -magnitude
        } else {
            magnitude as int
        }
    } else {
        0
    }
}

/// Whether a byte is the small letter `lower` or its capital.
pub open spec fn is_letter(b: u8, lower: u8) -> bool {
    b == lower || b == lower - 32
}

/// Whether the text, after its sign, is `inf`, `infinity` or `nan`, in small
/// or capital letters.
pub open spec fn is_not_finite(bytes: Seq<u8>) -> bool {
    let t = unsigned_part(bytes);
    ||| t.len() == 3 && is_letter(t[0], 105) && is_letter(t[1], 110) && is_letter(t[2], 102)
    ||| t.len() == 3 && is_letter(t[0], 110) && is_letter(t[1], 97) && is_letter(t[2], 110)
    ||| t.len() == 8 && is_letter(t[0], 105) && is_letter(t[1], 110) && is_letter(t[2], 102)
        && is_letter(t[3], 105) && is_letter(t[4], 110) && is_letter(t[5], 105) && is_letter(
        t[6],
        116,
    ) && is_letter(t[7], 121)
}

/// Whether the text is a decimal number: an optional sign; digits with an
/// optional point among them, at least one digit in all; and optionally an
/// exponent mark, an optional sign and at least one digit.
pub open spec fn is_number(bytes: Seq<u8>) -> bool {
    let text = unsigned_part(bytes);
    let whole = whole_part(mantissa(text));
    let fraction = fraction_part(mantissa(text));
    &&& all_digits(whole)
    &&& all_digits(fraction)
    &&& whole.len() + fraction.len() > 0
    &&& has_exponent(text) ==> {
        let digits = unsigned_part(exponent_part(text));
        digits.len() > 0 && all_digits(digits)
    }
}

/// The digit at place `i` of a digit sequence, zero beyond either end.
pub open spec fn digit_at(digits: Seq<u8>, i: int) -> u8 {
    if 0 <= i < digits.len() {
        digits[i]
    } else {
        48
    }
}

/// The digits before the point, once it stands `point` places into the
/// sequence.
pub open spec fn digits_before(digits: Seq<u8>, point: int) -> Seq<u8> {
    Seq::new(
        if point > 0 {
            point as nat
        } else {
            0
        },
        |i: int| digit_at(digits, i),
    )
}

/// The nine digits after the point, once it stands `point` places into the
/// sequence.
pub open spec fn nine_after(digits: Seq<u8>, point: int) -> Seq<u8> {
    Seq::new(9, |j: int| digit_at(digits, point + j))
}

/// What a text, given by its bytes, says as a span of seconds. The digits of
/// a decimal number are those of its whole part and its fraction; its point
/// stands after the whole part, moved right by the exponent. The seconds are
/// the digits before the point and the nanoseconds the nine digits after it:
/// what follows those is dropped. A text that names infinity or no number,
/// which is a number in form only, gives no span.
pub open spec fn seconds_of(bytes: Seq<u8>) -> Result<Seconds, ParseSecondsError> {
    let text = unsigned_part(bytes);
    let whole = whole_part(mantissa(text));
    let digits = whole + fraction_part(mantissa(text));
    let point = whole.len() + exponent_of(text);
    if is_not_finite(bytes) {
        Err(ParseSecondsError::NotFinite)
    } else if !is_number(bytes) {
        Err(ParseSecondsError::Invalid)
    } else {
        span_of(digits, point, has_minus(bytes))
    }
}

/// The span that digits give with the point `point` places into them, below
/// zero where `minus` holds: a number below zero gives none, nor does one
/// whose seconds do not fit.
pub open spec fn span_of(digits: Seq<u8>, point: int, minus: bool) -> Result<
    Seconds,
    ParseSecondsError,
> {
    if minus && !all_zeros(digits) {
        Err(ParseSecondsError::Negative)
    } else if digits_value(digits_before(digits, point)) > u64::MAX {
        Err(ParseSecondsError::TooLarge)
    } else {
        Ok(
            Seconds {
                secs: digits_value(digits_before(digits, point)) as u64,
                nanos: digits_value(nine_after(digits, point)) as u32,
            },
        )
    }
}

/// What the places found in a text say of its parts.
pub proof fn lemma_parts(bytes: Seq<u8>, start: int, mark: int, point_at: int)
    requires
        0 <= start <= point_at <= mark <= bytes.len(),
        start == (if has_sign(bytes) {
            1int
        } else {
            0int
        }),
        is_first_of(bytes.subrange(start, bytes.len() as int), mark - start, 101, 69),
        is_first_of(bytes.subrange(start, mark), point_at - start, 46, 46),
    ensures
        unsigned_part(bytes) == bytes.subrange(start, bytes.len() as int),
        has_exponent(unsigned_part(bytes)) == (mark < bytes.len()),
        mantissa(unsigned_part(bytes)) == bytes.subrange(start, mark),
        whole_part(mantissa(unsigned_part(bytes))) == bytes.subrange(start, point_at),
        fraction_part(mantissa(unsigned_part(bytes))) == bytes.subrange(
            if point_at < mark {
                point_at + 1
            } else {
                mark
            },
            mark,
        ),
        mark < bytes.len() ==> exponent_part(unsigned_part(bytes)) == bytes.subrange(
            mark + 1,
            bytes.len() as int,
        ),
{
    let text = unsigned_part(bytes);
    assert(text =~= bytes.subrange(start, bytes.len() as int));
    lemma_first_of(text, mark - start, 101, 69);
    assert(mantissa(text) =~= bytes.subrange(start, mark));
    lemma_first_of(mantissa(text), point_at - start, 46, 46);
    assert(whole_part(mantissa(text)) =~= bytes.subrange(start, point_at));
    if point_at < mark {
        assert(fraction_part(mantissa(text)) =~= bytes.subrange(point_at + 1, mark));
    } else {
        assert(fraction_part(mantissa(text)) =~= bytes.subrange(mark, mark));
    }
    if mark < bytes.len() {
        assert(exponent_part(text) =~= bytes.subrange(mark + 1, bytes.len() as int));
    }
}

/// What the sign found in an exponent says of its parts.
pub proof fn lemma_exponent_parts(bytes: Seq<u8>, after: int, digits_at: int)
    requires
        0 <= after <= digits_at <= bytes.len(),
        digits_at == (if after < bytes.len() && (bytes[after] == 43 || bytes[after] == 45) {
            after + 1
        } else {
            after
        }),
    ensures
        unsigned_part(bytes.subrange(after, bytes.len() as int)) == bytes.subrange(
            digits_at,
            bytes.len() as int,
        ),
        has_minus(bytes.subrange(after, bytes.len() as int)) == (after < bytes.len()
            && bytes[after] == 45),
{
    let part = bytes.subrange(after, bytes.len() as int);
    if after < bytes.len() {
        assert(part[0] == bytes[after]);
    }
    assert(unsigned_part(part) =~= bytes.subrange(digits_at, bytes.len() as int));
}

/// A text has one first place of `a` or `b` only.
pub proof fn lemma_first_of(bytes: Seq<u8>, p: int, a: u8, b: u8)
    requires
        is_first_of(bytes, p, a, b),
    ensures
        first_of(bytes, a, b) == p,
{
    let q = first_of(bytes, a, b);
    assert(is_first_of(bytes, q, a, b));
    if q < p {
        assert(bytes[q] != a && bytes[q] != b);
    } else if p < q {
        assert(bytes[p] != a && bytes[p] != b);
    }
}

/// A number written in decimal digits is at least the number that any of its
/// prefixes writes.
pub proof fn lemma_prefix_value(bytes: Seq<u8>, n: int)
    requires
        0 <= n <= bytes.len(),
        all_digits(bytes),
    ensures
        digits_value(bytes.take(n)) <= digits_value(bytes),
    decreases bytes.len() - n,
{
    if n == bytes.len() {
        assert(bytes.take(n) =~= bytes);
    } else {
        lemma_prefix_value(bytes, n + 1);
        assert(bytes.take(n + 1).drop_last() =~= bytes.take(n));
        assert(is_digit(bytes[n]));
        assert(bytes.take(n + 1).last() == bytes[n]);
    }
}

/// Zeros write the number zero.
pub proof fn lemma_zeros_value(bytes: Seq<u8>)
    requires
        all_zeros(bytes),
    ensures
        digits_value(bytes) == 0,
    decreases bytes.len(),
{
    if bytes.len() > 0 {
        let front = bytes.drop_last();
        assert forall|i: int| 0 <= i < front.len() implies #[trigger] front[i] == 48 by {
            assert(front[i] == bytes[i]);
        }
        lemma_zeros_value(front);
        assert(bytes[bytes.len() - 1] == 48);
    }
}

/// A number with a digit other than zero at place `k` is at least ten to the
/// power of the places after it.
pub proof fn lemma_leading_digit(bytes: Seq<u8>, k: int)
    requires
        all_digits(bytes),
        0 <= k < bytes.len(),
        bytes[k] != 48,
    ensures
        digits_value(bytes) >= pow10((bytes.len() - 1 - k) as nat),
    decreases bytes.len(),
{
    let front = bytes.drop_last();
    assert(is_digit(bytes[bytes.len() - 1]));
    if k == bytes.len() - 1 {
        assert(is_digit(bytes[k]));
    } else {
        assert forall|i: int| 0 <= i < front.len() implies is_digit(#[trigger] front[i]) by {
            assert(front[i] == bytes[i]);
        }
        assert(front[k] == bytes[k]);
        lemma_leading_digit(front, k);
        assert(pow10((bytes.len() - 1 - k) as nat) == 10 * pow10((bytes.len() - 2 - k) as nat));
    }
}

/// A power of ten is at most any later one.
pub proof fn lemma_pow10_monotonic(a: nat, b: nat)
    requires
        a <= b,
    ensures
        pow10(a) <= pow10(b),
    decreases b - a,
{
    if a < b {
        lemma_pow10_monotonic(a, (b - 1) as nat);
        lemma_pow10_positive((b - 1) as nat);
    }
}

/// Finds the first byte `a` or `b` between `from` and `to`.
fn scan(bytes: &[u8], from: usize, to: usize, a: u8, b: u8) -> (r: usize)
    requires
        from <= to <= bytes@.len(),
    ensures
        from <= r <= to,
        is_first_of(bytes@.subrange(from as int, to as int), r - from, a, b),
{
    let mut i: usize = from;
    while i < to && bytes[i] != a && bytes[i] != b
        invariant
            from <= i <= to <= bytes@.len(),
            forall|j: int| from <= j < i ==> (#[trigger] bytes@[j]) != a && bytes@[j] != b,
        decreases to - i,
    {
        i = i + 1;
    }
    proof {
        let part = bytes@.subrange(from as int, to as int);
        assert forall|j: int| 0 <= j < i - from implies (#[trigger] part[j]) != a && part[j]
            != b by {
            assert(part[j] == bytes@[from + j]);
        }
    }
    i
}

/// Tells whether the bytes between `from` and `to` are all digits.
fn digits_only(bytes: &[u8], from: usize, to: usize) -> (r: bool)
    requires
        from <= to <= bytes@.len(),
    ensures
        r == all_digits(bytes@.subrange(from as int, to as int)),
{
    let ghost part = bytes@.subrange(from as int, to as int);
    let mut i: usize = from;
    while i < to
        invariant
            from <= i <= to <= bytes@.len(),
            part == bytes@.subrange(from as int, to as int),
            forall|j: int| 0 <= j < i - from ==> is_digit(#[trigger] part[j]),
        decreases to - i,
    {
        if bytes[i] < 48 || bytes[i] > 57 {
            assert(!is_digit(part[i - from]));
            return false;
        }
        assert(part[i - from] == bytes@[i as int]);
        i = i + 1;
    }
    true
}

/// Copies the digits of a mantissa: those between `a` and `b`, then those
/// between `c` and `d`.
fn mantissa_digits(bytes: &[u8], a: usize, b: usize, c: usize, d: usize) -> (r: Vec<u8>)
    requires
        a <= b <= bytes@.len(),
        c <= d <= bytes@.len(),
    ensures
        r@ == bytes@.subrange(a as int, b as int) + bytes@.subrange(c as int, d as int),
{
    let mut digits: Vec<u8> = Vec::new();
    let mut i: usize = a;
    while i < b
        invariant
            a <= i <= b <= bytes@.len(),
            digits@ == bytes@.subrange(a as int, i as int),
        decreases b - i,
    {
        digits.push(bytes[i]);
        assert(digits@ =~= bytes@.subrange(a as int, i + 1));
        i = i + 1;
    }
    let mut j: usize = c;
    while j < d
        invariant
            c <= j <= d <= bytes@.len(),
            digits@ == bytes@.subrange(a as int, b as int) + bytes@.subrange(c as int, j as int),
        decreases d - j,
    {
        digits.push(bytes[j]);
        assert(digits@ =~= bytes@.subrange(a as int, b as int) + bytes@.subrange(
            c as int,
            j + 1,
        ));
        j = j + 1;
    }
    digits
}

/// Reads the digits between `from` and `to` as a number, exactly while it
/// stays below ten times `EXPONENT_CAP`; beyond that it only reports that the
/// number is at least `EXPONENT_CAP`.
fn magnitude(bytes: &[u8], from: usize, to: usize) -> (r: (u128, bool))
    requires
        from <= to <= bytes@.len(),
        all_digits(bytes@.subrange(from as int, to as int)),
    ensures
        !r.1 ==> r.0 == digits_value(bytes@.subrange(from as int, to as int)) && r.0 < 10
            * EXPONENT_CAP,
        r.1 ==> digits_value(bytes@.subrange(from as int, to as int)) >= EXPONENT_CAP,
{
    let ghost part = bytes@.subrange(from as int, to as int);
    let mut value: u128 = 0;
    let mut i: usize = from;
    while i < to
        invariant
            from <= i <= to <= bytes@.len(),
            part == bytes@.subrange(from as int, to as int),
            all_digits(part),
            value == digits_value(part.take(i - from)),
            value < 10 * EXPONENT_CAP,
        decreases to - i,
    {
        if value >= EXPONENT_CAP {
            proof {
                lemma_prefix_value(part, i - from);
            }
            return (value, true);
        }
        proof {
            assert(is_digit(part[i - from]));
            assert(part[i - from] == bytes@[i as int]);
            assert(part.take(i - from + 1).drop_last() =~= part.take(i - from));
            assert(part.take(i - from + 1).last() == part[i - from]);
        }
        value = value * 10 + (bytes[i] - 48) as u128;
        i = i + 1;
    }
    proof {
        assert(part.take(i - from) =~= part);
    }
    (value, false)
}

/// Finds the first digit that is not zero.
fn first_nonzero(digits: &Vec<u8>) -> (r: usize)
    ensures
        r <= digits@.len(),
        forall|j: int| 0 <= j < r ==> #[trigger] digits@[j] == 48,
        r < digits@.len() ==> digits@[r as int] != 48,
{
    let mut i: usize = 0;
    while i < digits.len() && digits[i] == 48
        invariant
            i <= digits@.len(),
            forall|j: int| 0 <= j < i ==> #[trigger] digits@[j] == 48,
        decreases digits@.len() - i,
    {
        i = i + 1;
    }
    i
}

/// The number that the digits before the point write, or `None` where it does
/// not fit a `u64`.
fn seconds_before(digits: &Vec<u8>, point: i128) -> (r: Option<u64>)
    requires
        all_digits(digits@),
    ensures
        r == (if digits_value(digits_before(digits@, point as int)) <= u64::MAX {
            Some(digits_value(digits_before(digits@, point as int)) as u64)
        } else {
            None
        }),
{
    let ghost before = digits_before(digits@, point as int);
    proof {
        assert forall|i: int| 0 <= i < before.len() implies is_digit(#[trigger] before[i]) by {
            if i < digits@.len() {
                assert(is_digit(digits@[i]));
            }
        }
    }
    let mut secs: u64 = 0;
    let mut i: i128 = 0;
    while i < point
        invariant
            0 <= i,
            i <= before.len(),
            point > 0 ==> before.len() == point,
            before == digits_before(digits@, point as int),
            all_digits(before),
            all_digits(digits@),
            secs == digits_value(before.take(i as int)),
        decreases point - i,
    {
        let digit: u64 = if i < digits.len() as i128 {
            proof {
                assert(is_digit(digits@[i as int]));
            }
            (digits[i as usize] - 48) as u64
        } else {
            0
        };
        proof {
            assert(is_digit(before[i as int]));
            assert(before[i as int] - 48 == digit);
            assert(before.take(i + 1).drop_last() =~= before.take(i as int));
            assert(before.take(i + 1).last() == before[i as int]);
            lemma_prefix_value(before, i + 1);
        }
        if secs > (u64::MAX - digit) / 10 {
            return None;
        }
        secs = secs * 10 + digit;
        i = i + 1;
    }
    proof {
        assert(before.take(i as int) =~= before);
    }
    Some(secs)
}

/// The number that the nine digits after the point write.
fn nanos_after(digits: &Vec<u8>, point: i128) -> (r: u32)
    requires
        all_digits(digits@),
        -0x1_0000_0000_0000_0000_0000_0000_0000 <= point <= 0x1_0000_0000_0000_0000_0000_0000_0000,
    ensures
        r == digits_value(nine_after(digits@, point as int)),
        r < 1_000_000_000,
{
    let ghost nine = nine_after(digits@, point as int);
    let mut nanos: u32 = 0;
    let mut j: i128 = 0;
    while j < 9
        invariant
            0 <= j <= 9,
            all_digits(digits@),
            -0x1_0000_0000_0000_0000_0000_0000_0000 <= point
                <= 0x1_0000_0000_0000_0000_0000_0000_0000,
            nine == nine_after(digits@, point as int),
            nanos == digits_value(nine.take(j as int)),
            nanos < pow10(j as nat),
        decreases 9 - j,
    {
        let place: i128 = point + j;
        let digit: u32 = if 0 <= place && place < digits.len() as i128 {
            proof {
                assert(is_digit(digits@[place as int]));
            }
            (digits[place as usize] - 48) as u32
        } else {
            0
        };
        proof {
            assert(nine.take(j + 1).drop_last() =~= nine.take(j as int));
            assert(nine.take(j + 1).last() == nine[j as int]);
            assert(nine[j as int] - 48 == digit);
            lemma_pow10_monotonic(j as nat, 8);
            reveal_with_fuel(pow10, 10);
            assert(pow10(8) == 100_000_000);
            assert(pow10((j + 1) as nat) == 10 * pow10(j as nat));
        }
        nanos = nanos * 10 + digit;
        j = j + 1;
    }
    proof {
        assert(nine.take(9) =~= nine);
        reveal_with_fuel(pow10, 10);
        assert(pow10(9) == 1_000_000_000);
    }
    nanos
}

/// Tells whether a byte is the small letter `lower` or its capital.
fn letter(b: u8, lower: u8) -> (r: bool)
    requires
        lower >= 32,
    ensures
        r == is_letter(b, lower),
{
    b == lower || b == lower - 32
}

/// Tells whether the text from `start` on is `inf`, `infinity` or `nan`.
fn names_no_number(bytes: &[u8], start: usize) -> (r: bool)
    requires
        start <= bytes@.len(),
        start == (if has_sign(bytes@) {
            1int
        } else {
            0int
        }),
    ensures
        r == is_not_finite(bytes@),
{
    let n: usize = bytes.len();
    proof {
        assert(unsigned_part(bytes@) =~= bytes@.subrange(start as int, n as int));
    }
    if n - start == 3 {
        (letter(bytes[start], 105) && letter(bytes[start + 1], 110) && letter(
            bytes[start + 2],
            102,
        )) || (letter(bytes[start], 110) && letter(bytes[start + 1], 97) && letter(
            bytes[start + 2],
            110,
        ))
    } else if n - start == 8 {
        letter(bytes[start], 105) && letter(bytes[start + 1], 110) && letter(bytes[start + 2], 102)
            && letter(bytes[start + 3], 105) && letter(bytes[start + 4], 110) && letter(
            bytes[start + 5],
            105,
        ) && letter(bytes[start + 6], 116) && letter(bytes[start + 7], 121)
    } else {
        false
    }
}

/// Gives the span of digits whose point stands `whole_len` places into them,
/// moved by an exponent: to the left where `down` holds, and by `exponent`
/// places unless it is `huge`, that is at least `EXPONENT_CAP`.
fn span(
    digits: &Vec<u8>,
    whole_len: usize,
    exponent: u128,
    huge: bool,
    down: bool,
    minus: bool,
    Ghost(shift): Ghost<int>,
) -> (r: Result<Seconds, ParseSecondsError>)
    requires
        all_digits(digits@),
        whole_len <= digits@.len(),
        !huge ==> exponent < 10 * EXPONENT_CAP && shift == (if down {
            -(exponent as int)
        } else {
            exponent as int
        }),
        huge && down ==> shift <= -(EXPONENT_CAP as int),
        huge && !down ==> shift >= EXPONENT_CAP,
    ensures
        r == span_of(digits@, whole_len + shift, minus),
        r.is_ok() ==> r.unwrap().nanos < 1_000_000_000,
{
    let ghost point = whole_len + shift;
    let ghost before = digits_before(digits@, point);
    let ghost nine = nine_after(digits@, point);
    let lead = first_nonzero(digits);
    if lead == digits.len() {
        proof {
            assert(all_zeros(digits@));
            assert(all_zeros(before));
            assert(all_zeros(nine));
            lemma_zeros_value(before);
            lemma_zeros_value(nine);
        }
        return Ok(Seconds { secs: 0, nanos: 0 });
    }
    assert(!all_zeros(digits@));
    if minus {
        return Err(ParseSecondsError::Negative);
    }
    if huge {
        if down {
            proof {
                assert(before.len() == 0);
                assert(all_zeros(nine));
                lemma_zeros_value(nine);
            }
            return Ok(Seconds { secs: 0, nanos: 0 });
        } else {
            proof {
                assert forall|i: int| 0 <= i < before.len() implies is_digit(
                    #[trigger] before[i],
                ) by {
                    if i < digits@.len() {
                        assert(is_digit(digits@[i]));
                    }
                }
                assert(before[lead as int] == digits@[lead as int]);
                lemma_leading_digit(before, lead as int);
                lemma_pow10_monotonic(20, (before.len() - 1 - lead) as nat);
                reveal_with_fuel(pow10, 21);
                assert(pow10(20) == 100_000_000_000_000_000_000);
            }
            return Err(ParseSecondsError::TooLarge);
        }
    }
    let moved: i128 = if down {
        -(exponent as i128)
    } else {
        exponent as i128
    };
    let place: i128 = whole_len as i128 + moved;
    let secs = match seconds_before(digits, place) {
        Some(secs) => secs,
        None => {
            return Err(ParseSecondsError::TooLarge);
        },
    };
    let nanos = nanos_after(digits, place);
    Ok(Seconds { secs, nanos })
}

/// Reads a span of seconds written as a decimal number: an optional sign,
/// digits with an optional point, and optionally an exponent. The span is
/// exact to the nanosecond, with what lies beyond dropped. A text that is no
/// number is `Invalid`; a number that has no span is `NotFinite`, `Negative`
/// or `TooLarge`.
pub fn parse_seconds(s: &str) -> (r: Result<Seconds, ParseSecondsError>)
    ensures
        r == seconds_of(s.spec_bytes()),
        r.is_ok() ==> r.unwrap().nanos < 1_000_000_000,
{
    let bytes = s.as_bytes();
    let n: usize = bytes.len();
    let minus = n > 0 && bytes[0] == 45;
    let start: usize = if n > 0 && (bytes[0] == 43 || bytes[0] == 45) {
        1
    } else {
        0
    };
    if names_no_number(bytes, start) {
        return Err(ParseSecondsError::NotFinite);
    }
    let mark = scan(bytes, start, n, 101, 69);
    let point_at = scan(bytes, start, mark, 46, 46);
    let fraction_at: usize = if point_at < mark {
        point_at + 1
    } else {
        mark
    };
    proof {
        lemma_parts(bytes@, start as int, mark as int, point_at as int);
    }
    if !digits_only(bytes, start, point_at) || !digits_only(bytes, fraction_at, mark) || (point_at
        - start) + (mark - fraction_at) == 0 {
        return Err(ParseSecondsError::Invalid);
    }
    let mut exponent: u128 = 0;
    let mut huge = false;
    let mut down = false;
    if mark < n {
        let after: usize = mark + 1;
        down = after < n && bytes[after] == 45;
        let digits_at: usize = if after < n && (bytes[after] == 43 || bytes[after] == 45) {
            after + 1
        } else {
            after
        };
        proof {
            lemma_exponent_parts(bytes@, after as int, digits_at as int);
        }
        if digits_at == n || !digits_only(bytes, digits_at, n) {
            return Err(ParseSecondsError::Invalid);
        }
        let (value, saturated) = magnitude(bytes, digits_at, n);
        exponent = value;
        huge = saturated;
    }
    let digits = mantissa_digits(bytes, start, point_at, fraction_at, mark);
    proof {
        let whole = bytes@.subrange(start as int, point_at as int);
        let fraction = bytes@.subrange(fraction_at as int, mark as int);
        assert forall|i: int| 0 <= i < digits@.len() implies is_digit(#[trigger] digits@[i]) by {
            if i < whole.len() {
                assert(is_digit(whole[i]));
            } else {
                assert(is_digit(fraction[i - whole.len()]));
            }
        }
    }
    span(
        &digits,
        point_at - start,
        exponent,
        huge,
        down,
        minus,
        Ghost(exponent_of(unsigned_part(bytes@))),
    )
}

} // verus!
