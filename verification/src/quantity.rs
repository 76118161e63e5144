//! Counts and sizes as they are written in a configuration: `2_097_152`, `16 GiB`.
use vstd::prelude::*;

verus! {

/// `0`
pub const ZERO: u8 = 48;

/// `9`
pub const NINE: u8 = 57;

/// `_`
pub const UNDERSCORE: u8 = 95;

/// A space
pub const SPACE: u8 = 32;

/// The byte is a decimal digit.
pub open spec fn is_digit(b: u8) -> bool {
    ZERO <= b <= NINE
}

/// The byte can stand in a number: a decimal digit, or the `_` that groups digits.
pub open spec fn is_numeral(b: u8) -> bool {
    is_digit(b) || b == UNDERSCORE
}

/// The text is a number: digits, at least one of them, grouped by `_` in any way.
pub open spec fn is_number(s: Seq<u8>) -> bool {
    &&& forall|i: int| 0 <= i < s.len() ==> is_numeral(#[trigger] s[i])
    &&& exists|i: int| 0 <= i < s.len() && is_digit(#[trigger] s[i])
}

/// The value of a number.
pub open spec fn decimal(s: Seq<u8>) -> nat
    decreases s.len(),
{
    if s.len() == 0 {
        0
    } else if is_digit(s.last()) {
        10 * decimal(s.drop_last()) + (s.last() - ZERO) as nat
    } else {
        decimal(s.drop_last())
    }
}

/// A number is not less than the one that its first bytes make.
proof fn lemma_decimal_grows(s: Seq<u8>, n: int)
    requires
        0 <= n <= s.len(),
    ensures
        decimal(s.take(n)) <= decimal(s),
    decreases s.len() - n,
{
    if n < s.len() {
        lemma_decimal_grows(s, n + 1);
        assert(s.take(n + 1).drop_last() =~= s.take(n));
    } else {
        assert(s.take(n) =~= s);
    }
}

/// Reads a number that is written in decimal.
pub fn parse_count(text: &[u8]) -> (r: Option<usize>)
    ensures
        match r {
            Some(n) => is_number(text@) && n == decimal(text@),
            None => !is_number(text@) || decimal(text@) > usize::MAX,
        },
{
    let mut value: usize = 0;
    let mut any = false;
    let mut i: usize = 0;
    while i < text.len()
        invariant
            i <= text.len(),
            value == decimal(text@.take(i as int)),
            forall|j: int| 0 <= j < i ==> is_numeral(#[trigger] text@[j]),
            any <==> exists|j: int| 0 <= j < i && is_digit(#[trigger] text@[j]),
        decreases text.len() - i,
    {
        let b: u8 = text[i];
        proof {
            assert(text@.take(i + 1).drop_last() =~= text@.take(i as int));
            lemma_decimal_grows(text@, i + 1);
        }
        if b >= ZERO && b <= NINE {
            let digit: usize = (b - ZERO) as usize;
            if value > (usize::MAX - digit) / 10 {
                return None;
            }
            value = 10 * value + digit;
            any = true;
        } else if b != UNDERSCORE {
            return None;
        }
        i += 1;
    }
    assert(text@.take(i as int) =~= text@);
    if any {
        Some(value)
    } else {
        None
    }
}

/// How many bytes a unit stands for: `B`, or nothing, for one; `kB`, `MB`, `GB`, `TB` for powers
/// of 1000; `KiB`, `MiB`, `GiB`, `TiB` for powers of 1024. The `k` may be large or small.
pub open spec fn unit_bytes(unit: Seq<u8>) -> Option<u64> {
    if unit == Seq::<u8>::empty() || unit == seq![66u8] {
        // B
        Some(1)
    } else if unit == seq![107u8, 66u8] || unit == seq![75u8, 66u8] {
        // kB or KB
        Some(1_000)
    } else if unit == seq![77u8, 66u8] {
        // MB
        Some(1_000_000)
    } else if unit == seq![71u8, 66u8] {
        // GB
        Some(1_000_000_000)
    } else if unit == seq![84u8, 66u8] {
        // TB
        Some(1_000_000_000_000)
    } else if unit == seq![107u8, 105u8, 66u8] || unit == seq![75u8, 105u8, 66u8] {
        // kiB or KiB
        Some(0x400)
    } else if unit == seq![77u8, 105u8, 66u8] {
        // MiB
        Some(0x10_0000)
    } else if unit == seq![71u8, 105u8, 66u8] {
        // GiB
        Some(0x4000_0000)
    } else if unit == seq![84u8, 105u8, 66u8] {
        // TiB
        Some(0x100_0000_0000)
    } else {
        None
    }
}

/// Reads a unit.
fn parse_unit(unit: &[u8]) -> (r: Option<u64>)
    ensures
        r == unit_bytes(unit@),
{
    if unit.len() == 0 {
        assert(unit@ =~= Seq::<u8>::empty());
        return Some(1);
    }
    // all others end in B
    if unit.len() > 3 || unit[unit.len() - 1] != 66 {
        return None;
    }
    if unit.len() == 1 {
        assert(unit@ =~= seq![66u8]);
        return Some(1);
    }
    let binary = unit.len() == 3;
    // i
    if binary && unit[1] != 105 {
        return None;
    }
    let ghost letter = unit@[0];
    assert(unit@ =~= if binary {
        seq![letter, 105u8, 66u8]
    } else {
        seq![letter, 66u8]
    });
    assert(seq![letter, 66u8][0] == letter && seq![letter, 105u8, 66u8][0] == letter);
    match unit[0] {
        // k or K
        107 | 75 => Some(if binary { 0x400 } else { 1_000 }),
        // M
        77 => Some(if binary { 0x10_0000 } else { 1_000_000 }),
        // G
        71 => Some(if binary { 0x4000_0000 } else { 1_000_000_000 }),
        // T
        84 => Some(if binary { 0x100_0000_0000 } else { 1_000_000_000_000 }),
        _ => None,
    }
}

/// How many bytes of the text are the number that it begins with.
pub open spec fn number_len(s: Seq<u8>) -> int
    decreases s.len(),
{
    if s.len() == 0 || !is_numeral(s[0]) {
        0
    } else {
        1 + number_len(s.drop_first())
    }
}

/// The text without one space at its beginning, if there is one.
pub open spec fn after_space(s: Seq<u8>) -> Seq<u8> {
    if s.len() > 0 && s[0] == SPACE {
        s.drop_first()
    } else {
        s
    }
}

/// The size that the text says: a number, then perhaps a space, then perhaps a unit.
pub open spec fn size_said(s: Seq<u8>) -> Option<int> {
    let n = number_len(s);
    match unit_bytes(after_space(s.skip(n))) {
        Some(bytes) => if is_number(s.take(n)) {
            Some(decimal(s.take(n)) * bytes)
        } else {
            None
        },
        None => None,
    }
}

/// The number at the beginning of a text ends where it ends.
proof fn lemma_number_len(s: Seq<u8>, n: int)
    requires
        0 <= n <= s.len(),
        forall|i: int| 0 <= i < n ==> is_numeral(#[trigger] s[i]),
        n < s.len() ==> !is_numeral(s[n]),
    ensures
        number_len(s) == n,
    decreases n,
{
    if n > 0 {
        assert forall|i: int| 0 <= i < n - 1 implies is_numeral(#[trigger] s.drop_first()[i]) by {
            assert(s.drop_first()[i] == s[i + 1]);
        }
        assert(is_numeral(s[0]));
        lemma_number_len(s.drop_first(), n - 1);
    }
}

/// Reads a size in bytes, with or without a unit.
pub fn parse_size(text: &[u8]) -> (r: Option<usize>)
    ensures
        match r {
            Some(n) => size_said(text@) == Some(n as int),
            None => size_said(text@) is None || size_said(text@)->0 > usize::MAX,
        },
{
    let mut end: usize = 0;
    while end < text.len() && (text[end] >= ZERO && text[end] <= NINE || text[end] == UNDERSCORE)
        invariant
            end <= text.len(),
            forall|i: int| 0 <= i < end ==> is_numeral(#[trigger] text@[i]),
        decreases text.len() - end,
    {
        end += 1;
    }
    proof {
        lemma_number_len(text@, end as int);
    }
    let number = vstd::slice::slice_subrange(text, 0, end);
    assert(number@ =~= text@.take(end as int));
    let start: usize = if end < text.len() && text[end] == SPACE {
        end + 1
    } else {
        end
    };
    let unit = vstd::slice::slice_subrange(text, start, text.len());
    assert(unit@ =~= after_space(text@.skip(end as int)));
    let bytes: u64 = match parse_unit(unit) {
        Some(bytes) => bytes,
        None => {
            return None;
        },
    };
    match parse_count(number) {
        Some(count) => {
            assert(count as u128 * bytes as u128 <= u128::MAX) by (nonlinear_arith)
                requires
                    count <= u64::MAX,
                    bytes <= u64::MAX,
            ;
            let size: u128 = count as u128 * bytes as u128;
            if size <= usize::MAX as u128 {
                Some(size as usize)
            } else {
                None
            }
        },
        None => {
            proof {
                let value = decimal(number@) as int;
                assert(value > usize::MAX ==> value * bytes > usize::MAX) by (nonlinear_arith)
                    requires
                        bytes >= 1,
                        value >= 0,
                ;
            }
            None
        },
    }
}

// --- Laws ---

/// A digit behind a number makes it ten times as large and adds the digit; a `_` behind it changes
/// nothing.
pub proof fn lemma_count_grows_by_digits(
    text: &[u8],
    longer: &[u8],
    n: usize,
    r: Option<usize>,
    b: u8,
)
    requires
        call_ensures(parse_count, (text,), Some(n)),
        longer@ == text@.push(b),
        call_ensures(parse_count, (longer,), r),
    ensures
        48 <= b <= 57 && 10 * n + (b - 48) <= usize::MAX ==> r == Some((10 * n + (b - 48)) as usize),
        48 <= b <= 57 && 10 * n + (b - 48) > usize::MAX ==> r is None,
        b == 95 ==> r == Some(n),
        !(48 <= b <= 57) && b != 95 ==> r is None,
{
    let s = text@;
    let t = longer@;
    assert(t.drop_last() =~= s);
    let d = choose|i: int| 0 <= i < s.len() && is_digit(#[trigger] s[i]);
    assert(t[d] == s[d]);
    if is_numeral(b) {
        assert forall|i: int| 0 <= i < t.len() implies is_numeral(#[trigger] t[i]) by {
            if i < s.len() {
                assert(t[i] == s[i]);
            }
        }
    } else {
        assert(!is_numeral(t[s.len() as int]));
    }
}

/// A single digit is its value, and text without a digit is no number.
pub proof fn lemma_count_of_one_digit(text: &[u8], r: Option<usize>)
    requires
        call_ensures(parse_count, (text,), r),
    ensures
        text@.len() == 1 && 48 <= text@[0] <= 57 ==> r == Some((text@[0] - 48) as usize),
        (forall|i: int| 0 <= i < text@.len() ==> !(48 <= #[trigger] text@[i] <= 57)) ==> r is None,
        (exists|i: int|
            0 <= i < text@.len() && !(48 <= #[trigger] text@[i] <= 57) && text@[i] != 95)
            ==> r is None,
{
    if text@.len() == 1 && 48 <= text@[0] <= 57 {
        assert(is_digit(text@[0]));
        assert(text@.drop_last() =~= Seq::<u8>::empty());
        assert(decimal(text@.drop_last()) == 0);
        assert(decimal(text@) == text@[0] - 48);
    }
    if exists|i: int|
        0 <= i < text@.len() && !(48 <= #[trigger] text@[i] <= 57) && text@[i] != 95 {
        let i = choose|i: int|
            0 <= i < text@.len() && !(48 <= #[trigger] text@[i] <= 57) && text@[i] != 95;
        assert(!is_numeral(text@[i]));
    }
}

/// A size is a count times what its unit stands for: without a unit, or with `B`, the count itself;
/// a thousand to the first, second, third or fourth for `kB`, `MB`, `GB` and `TB`; 1024 to the
/// same powers for `KiB`, `MiB`, `GiB` and `TiB`; the `k` may be large or small. A space between the two makes no difference.
pub proof fn lemma_size_is_count_times_unit(
    text: &[u8],
    number: &[u8],
    n: usize,
    unit: Seq<u8>,
    r: Option<usize>,
    factor: int,
)
    requires
        call_ensures(parse_count, (number,), Some(n)),
        text@ == number@ + unit || text@ == number@ + seq![32u8] + unit,
        call_ensures(parse_size, (text,), r),
        ({
            ||| unit == Seq::<u8>::empty() && factor == 1
            ||| unit == seq![66u8] && factor == 1
            ||| unit == seq![107u8, 66u8] && factor == 1_000
            ||| unit == seq![75u8, 66u8] && factor == 1_000
            ||| unit == seq![77u8, 66u8] && factor == 1_000 * 1_000
            ||| unit == seq![71u8, 66u8] && factor == 1_000 * 1_000 * 1_000
            ||| unit == seq![84u8, 66u8] && factor == 1_000 * 1_000 * 1_000 * 1_000
            ||| unit == seq![107u8, 105u8, 66u8] && factor == 1024
            ||| unit == seq![75u8, 105u8, 66u8] && factor == 1024
            ||| unit == seq![77u8, 105u8, 66u8] && factor == 1024 * 1024
            ||| unit == seq![71u8, 105u8, 66u8] && factor == 1024 * 1024 * 1024
            ||| unit == seq![84u8, 105u8, 66u8] && factor == 1024 * 1024 * 1024 * 1024
        }),
    ensures
        n * factor <= usize::MAX ==> r == Some((n * factor) as usize),
        n * factor > usize::MAX ==> r is None,
{
    let s = text@;
    let k = number@.len() as int;
    assert(unit.len() > 0 ==> !is_numeral(unit[0]) && unit[0] != SPACE);
    assert forall|i: int| 0 <= i < k implies is_numeral(#[trigger] s[i]) by {
        assert(s[i] == number@[i]);
    }
    if s.len() > k {
        if s == number@ + unit {
            assert(s[k] == unit[0]);
        } else {
            assert(s[k] == 32);
        }
    }
    lemma_number_len(s, k);
    assert(s.take(k) =~= number@);
    assert(after_space(s.skip(k)) =~= unit);
    lemma_unit_factors(unit, factor);
}

/// Text that says a size is a count, perhaps a space, and a unit that is known; anything else is
/// refused.
pub proof fn lemma_size_has_known_unit(text: &[u8], n: usize)
    requires
        call_ensures(parse_size, (text,), Some(n)),
    ensures
        exists|k: int|
            0 < k <= text@.len() && is_known_unit(#[trigger] after_number(text@, k)) && forall|i: int|
                0 <= i < k ==> 48 <= #[trigger] text@[i] <= 57 || text@[i] == 95,
{
    let s = text@;
    let k = number_len(s);
    lemma_number_ends(s);
    let number = s.take(k);
    let d = choose|i: int| 0 <= i < number.len() && is_digit(#[trigger] number[i]);
    assert forall|i: int| 0 <= i < k implies 48 <= #[trigger] s[i] <= 57 || s[i] == 95 by {
        assert(is_numeral(number[i]));
    }
    assert(after_number(s, k) =~= after_space(s.skip(k)));
    assert(is_known_unit(after_number(s, k)));
}

/// What follows the first `k` bytes of a text, without one space if it begins with one.
pub open spec fn after_number(s: Seq<u8>, k: int) -> Seq<u8> {
    if k < s.len() && s[k] == 32 {
        s.skip(k + 1)
    } else {
        s.skip(k)
    }
}

/// The text is empty or one of `B`, `kB`, `KB`, `MB`, `GB`, `TB`, `kiB`, `KiB`, `MiB`, `GiB` and
/// `TiB`.
pub open spec fn is_known_unit(s: Seq<u8>) -> bool {
    ||| s.len() == 0
    ||| s.len() == 1 && s[0] == 66
    ||| s.len() == 2 && s[1] == 66 && (s[0] == 107 || s[0] == 75 || s[0] == 77 || s[0] == 71 || s[0]
        == 84)
    ||| s.len() == 3 && s[2] == 66 && s[1] == 105 && (s[0] == 107 || s[0] == 75 || s[0] == 77
        || s[0] == 71 || s[0] == 84)
}

/// The number at the beginning of a text is not longer than the text.
proof fn lemma_number_ends(s: Seq<u8>)
    ensures
        0 <= number_len(s) <= s.len(),
    decreases s.len(),
{
    if s.len() > 0 && is_numeral(s[0]) {
        lemma_number_ends(s.drop_first());
    }
}

/// What each unit stands for.
proof fn lemma_unit_factors(unit: Seq<u8>, factor: int)
    requires
        ({
            ||| unit == Seq::<u8>::empty() && factor == 1
            ||| unit == seq![66u8] && factor == 1
            ||| unit == seq![107u8, 66u8] && factor == 1_000
            ||| unit == seq![75u8, 66u8] && factor == 1_000
            ||| unit == seq![77u8, 66u8] && factor == 1_000 * 1_000
            ||| unit == seq![71u8, 66u8] && factor == 1_000 * 1_000 * 1_000
            ||| unit == seq![84u8, 66u8] && factor == 1_000 * 1_000 * 1_000 * 1_000
            ||| unit == seq![107u8, 105u8, 66u8] && factor == 1024
            ||| unit == seq![75u8, 105u8, 66u8] && factor == 1024
            ||| unit == seq![77u8, 105u8, 66u8] && factor == 1024 * 1024
            ||| unit == seq![71u8, 105u8, 66u8] && factor == 1024 * 1024 * 1024
            ||| unit == seq![84u8, 105u8, 66u8] && factor == 1024 * 1024 * 1024 * 1024
        }),
    ensures
        unit_bytes(unit) matches Some(bytes) && bytes == factor,
{
    assert(seq![66u8].len() == 1 && seq![107u8, 66u8].len() == 2);
    assert(seq![107u8, 66u8][0] == 107 && seq![75u8, 66u8][0] == 75 && seq![77u8, 66u8][0] == 77);
    assert(seq![71u8, 66u8][0] == 71 && seq![84u8, 66u8][0] == 84);
    assert(seq![107u8, 105u8, 66u8][0] == 107 && seq![75u8, 105u8, 66u8][0] == 75);
    assert(seq![77u8, 105u8, 66u8][0] == 77 && seq![71u8, 105u8, 66u8][0] == 71);
    assert(seq![84u8, 105u8, 66u8][0] == 84 && seq![84u8, 105u8, 66u8].len() == 3);
}

} // verus!
