use vstd::prelude::*;
use vstd::string::StringExecFns;

verus! {

/// The digit alphabet of the canonical textual form: base 32 with the
/// easily confused letters I, L, O and U left out, ordered so that digit
/// order matches character order.
pub open spec fn b32_digit(d: u64) -> char {
    if d == 0 {
        '0'
    } else if d == 1 {
        '1'
    } else if d == 2 {
        '2'
    } else if d == 3 {
        '3'
    } else if d == 4 {
        '4'
    } else if d == 5 {
        '5'
    } else if d == 6 {
        '6'
    } else if d == 7 {
        '7'
    } else if d == 8 {
        '8'
    } else if d == 9 {
        '9'
    } else if d == 10 {
        'A'
    } else if d == 11 {
        'B'
    } else if d == 12 {
        'C'
    } else if d == 13 {
        'D'
    } else if d == 14 {
        'E'
    } else if d == 15 {
        'F'
    } else if d == 16 {
        'G'
    } else if d == 17 {
        'H'
    } else if d == 18 {
        'J'
    } else if d == 19 {
        'K'
    } else if d == 20 {
        'M'
    } else if d == 21 {
        'N'
    } else if d == 22 {
        'P'
    } else if d == 23 {
        'Q'
    } else if d == 24 {
        'R'
    } else if d == 25 {
        'S'
    } else if d == 26 {
        'T'
    } else if d == 27 {
        'V'
    } else if d == 28 {
        'W'
    } else if d == 29 {
        'X'
    } else if d == 30 {
        'Y'
    } else {
        'Z'
    }
}

/// The five-bit digit at position `i` (position zero is the most
/// significant) of a 64-bit value read as thirteen five-bit digits: a 65-bit
/// word whose top bit is zero.
pub open spec fn digit_at(n: u64, i: int) -> u64
    recommends
        0 <= i < 13,
{
    (n >> ((60 - 5 * i) as u64)) & 0x1F
}

/// The canonical textual form of a 64-bit identifier value: thirteen digits
/// of the base-32 alphabet, most significant first. Equal-length strings of
/// an ordered alphabet sort as the underlying integers do.
pub open spec fn spec_encoded(n: u64) -> Seq<char> {
    Seq::new(13, |i: int| b32_digit(digit_at(n, i)))
}

/// A time-sorted identifier: an opaque 64-bit value whose high 42 bits carry
/// a millisecond timestamp, so that raw integer comparison orders identifiers
/// by creation time.
#[derive(Clone, Copy, Debug, PartialEq, Eq, Structural)]
pub struct TSID {
    number: u64,
}

impl View for TSID {
    type V = u64;

    closed spec fn view(&self) -> u64 {
        self.number
    }
}

impl TSID {
    /// Wrap a raw 64-bit identifier value.
    pub fn new(number: u64) -> (t: TSID)
        ensures
            t@ == number,
    {
        TSID { number }
    }

    /// The raw 64-bit value of this identifier.
    pub fn number(&self) -> (n: u64)
        ensures
            n == self@,
    {
        self.number
    }

    /// The canonical fixed-length textual form: thirteen base-32 digits,
    /// most significant first, which sort as strings in the same order as
    /// the raw values sort as integers.
    pub fn to_string(&self) -> (s: String)
        ensures
            s@ == spec_encoded(self@),
            s@.len() == 13,
    {
        let mut s = String::new();
        let mut i: usize = 0;
        while i < 13
            invariant
                i <= 13,
                s@ == spec_encoded(self.number).take(i as int),
            decreases 13 - i,
        {
            let shift: u64 = 60 - 5 * (i as u64);
            let d: u64 = (self.number >> shift) & 0x1F;
            proof {
                lemma_digit_in_range(self.number, shift);
                assert(d == digit_at(self.number, i as int));
            }
            push_digit(&mut s, d);
            i += 1;
            proof {
                assert(s@ =~= spec_encoded(self.number).take(i as int));
            }
        }
        proof {
            assert(spec_encoded(self.number).take(13) =~= spec_encoded(self.number));
        }
        s
    }
}

/// The digit alphabet is ordered: a larger five-bit digit maps to a larger
/// character.
proof fn lemma_alphabet_ordered(d1: u64, d2: u64)
    requires
        d1 < d2 < 32,
    ensures
        b32_digit(d1) < b32_digit(d2),
{
}

/// Walking the digits from position `k` on: with the digits before `k` known
/// to agree (stated as equal high bits), two distinct values differ first at
/// some position where the smaller value has the smaller digit.
proof fn lemma_first_digit_smaller(n1: u64, n2: u64, k: u64)
    requires
        k < 13,
        n1 < n2,
        k == 0 || n1 >> ((65 - 5 * k) as u64) == n2 >> ((65 - 5 * k) as u64),
    ensures
        exists|m: int|
            (k <= m < 13 && (forall|j: int| k <= j < m ==> digit_at(n1, j) == digit_at(n2, j))
                && digit_at(n1, m) < digit_at(n2, m)),
    decreases 13 - k,
{
    let s: u64 = (60 - 5 * k) as u64;
    assert(digit_at(n1, k as int) == (n1 >> s) & 0x1F);
    assert(digit_at(n2, k as int) == (n2 >> s) & 0x1F);
    if (n1 >> s) & 0x1F == (n2 >> s) & 0x1F {
        assert(k < 12) by {
            if k == 12 {
                assert(false) by (bit_vector)
                    requires
                        n1 < n2,
                        n1 >> 5u64 == n2 >> 5u64,
                        (n1 >> 0u64) & 0x1F == (n2 >> 0u64) & 0x1F,
                ;
            }
        }
        assert(n1 >> ((65 - 5 * (k + 1)) as u64) == n2 >> ((65 - 5 * (k + 1)) as u64))
            by (bit_vector)
            requires
                k < 12,
                (n1 >> ((60 - 5 * k) as u64)) & 0x1F == (n2 >> ((60 - 5 * k) as u64)) & 0x1F,
                k == 0 || n1 >> ((65 - 5 * k) as u64) == n2 >> ((65 - 5 * k) as u64),
        ;
        lemma_first_digit_smaller(n1, n2, (k + 1) as u64);
        let m = choose|m: int|
            ((k + 1) <= m < 13 && (forall|j: int|
                (k + 1) <= j < m ==> digit_at(n1, j) == digit_at(n2, j)) && digit_at(n1, m)
                < digit_at(n2, m));
        assert(forall|j: int| k <= j < m ==> digit_at(n1, j) == digit_at(n2, j));
    } else {
        assert((n1 >> s) & 0x1F < (n2 >> s) & 0x1F) by (bit_vector)
            requires
                k < 13,
                s == 60 - 5 * k,
                n1 < n2,
                (n1 >> s) & 0x1F != (n2 >> s) & 0x1F,
                k == 0 || n1 >> ((65 - 5 * k) as u64) == n2 >> ((65 - 5 * k) as u64),
        ;
        let ki: int = k as int;
        assert(digit_at(n1, ki) < digit_at(n2, ki));
        assert((k <= ki < 13 && (forall|j: int| k <= j < ki ==> digit_at(n1, j) == digit_at(n2, j))
            && digit_at(n1, ki) < digit_at(n2, ki)));
    }
}

/// The canonical textual forms sort as the raw values do: when one value is
/// smaller, the two encodings agree up to some position at which the smaller
/// value's digit character is the smaller — the definition of lexicographic
/// order on equal-length strings.
pub proof fn lemma_encoding_sorts(n1: u64, n2: u64)
    requires
        n1 < n2,
    ensures
        exists|k: int|
            (0 <= k < 13 && (forall|j: int|
                0 <= j < k ==> spec_encoded(n1)[j] == spec_encoded(n2)[j]) && spec_encoded(n1)[k]
                < spec_encoded(n2)[k]),
{
    lemma_first_digit_smaller(n1, n2, 0);
    let m = choose|m: int|
        (0 <= m < 13 && (forall|j: int| 0 <= j < m ==> digit_at(n1, j) == digit_at(n2, j))
            && digit_at(n1, m) < digit_at(n2, m));
    lemma_digit_in_range(n1, (60 - 5 * m) as u64);
    lemma_digit_in_range(n2, (60 - 5 * m) as u64);
    lemma_alphabet_ordered(digit_at(n1, m), digit_at(n2, m));
    assert(0 <= m < 13 && (forall|j: int|
        0 <= j < m ==> spec_encoded(n1)[j] == spec_encoded(n2)[j]) && spec_encoded(n1)[m]
        < spec_encoded(n2)[m]);
}

/// A five-bit digit is below 32.
proof fn lemma_digit_in_range(n: u64, shift: u64)
    by (bit_vector)
    requires
        shift < 64,
    ensures
        (n >> shift) & 0x1F < 32,
{
}

/// Append one digit of the base-32 alphabet to the string being built.
fn push_digit(s: &mut String, d: u64)
    requires
        d < 32,
    ensures
        final(s)@ == old(s)@.push(b32_digit(d)),
{
    match d {
        0 => s.append("0"),
        1 => s.append("1"),
        2 => s.append("2"),
        3 => s.append("3"),
        4 => s.append("4"),
        5 => s.append("5"),
        6 => s.append("6"),
        7 => s.append("7"),
        8 => s.append("8"),
        9 => s.append("9"),
        10 => s.append("A"),
        11 => s.append("B"),
        12 => s.append("C"),
        13 => s.append("D"),
        14 => s.append("E"),
        15 => s.append("F"),
        16 => s.append("G"),
        17 => s.append("H"),
        18 => s.append("J"),
        19 => s.append("K"),
        20 => s.append("M"),
        21 => s.append("N"),
        22 => s.append("P"),
        23 => s.append("Q"),
        24 => s.append("R"),
        25 => s.append("S"),
        26 => s.append("T"),
        27 => s.append("V"),
        28 => s.append("W"),
        29 => s.append("X"),
        30 => s.append("Y"),
        _ => s.append("Z"),
    }
    proof {
        reveal_strlit("0");
        reveal_strlit("1");
        reveal_strlit("2");
        reveal_strlit("3");
        reveal_strlit("4");
        reveal_strlit("5");
        reveal_strlit("6");
        reveal_strlit("7");
        reveal_strlit("8");
        reveal_strlit("9");
        reveal_strlit("A");
        reveal_strlit("B");
        reveal_strlit("C");
        reveal_strlit("D");
        reveal_strlit("E");
        reveal_strlit("F");
        reveal_strlit("G");
        reveal_strlit("H");
        reveal_strlit("J");
        reveal_strlit("K");
        reveal_strlit("M");
        reveal_strlit("N");
        reveal_strlit("P");
        reveal_strlit("Q");
        reveal_strlit("R");
        reveal_strlit("S");
        reveal_strlit("T");
        reveal_strlit("V");
        reveal_strlit("W");
        reveal_strlit("X");
        reveal_strlit("Y");
        reveal_strlit("Z");
        assert(s@ =~= old(s)@.push(b32_digit(d)));
    }
}

} // verus!
