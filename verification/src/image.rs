use vstd::prelude::*;

verus! {

/// An ASCII space, tab, line feed, form feed or carriage return.
pub open spec fn is_space(b: u8) -> bool {
    b == 32 || b == 9 || b == 10 || b == 12 || b == 13
}

/// An ASCII decimal digit.
pub open spec fn is_digit(b: u8) -> bool {
    48 <= b <= 57
}

/// The first position from `i` on that does not hold a space.
pub open spec fn skip_spaces(s: Seq<u8>, i: int) -> int
    decreases s.len() - i,
{
    if 0 <= i < s.len() && is_space(s[i]) {
        skip_spaces(s, i + 1)
    } else {
        i
    }
}

/// The first position from `i` on that does not hold a digit.
pub open spec fn digits_end(s: Seq<u8>, i: int) -> int
    decreases s.len() - i,
{
    if 0 <= i < s.len() && is_digit(s[i]) {
        digits_end(s, i + 1)
    } else {
        i
    }
}

/// The number that the decimal digits `s[i..j]` write.
pub open spec fn decimal_value(s: Seq<u8>, i: int, j: int) -> int
    decreases j - i,
{
    if j <= i {
        0
    } else {
        10 * decimal_value(s, i, j - 1) + (s[j - 1] - 48)
    }
}

/// The header number that starts at `i`: one or more spaces, then one or more
/// digits. Its value and the position just after its last digit.
pub open spec fn header_number(s: Seq<u8>, i: int) -> Option<(int, int)> {
    let a = skip_spaces(s, i);
    let e = digits_end(s, a);
    if a > i && e > a {
        Some((decimal_value(s, a, e), e))
    } else {
        None
    }
}

/// The header of a binary PPM image in `s`: the magic `P6`, then width, height
/// and largest sample value as header numbers, then one space. Width and height
/// must fit `u32` and the largest sample value lie in `1..=255`. Gives width,
/// height, largest sample value and the position where the samples begin.
pub open spec fn ppm_header(s: Seq<u8>) -> Option<(int, int, int, int)> {
    if s.len() >= 2 && s[0] == 80 && s[1] == 54 {
        match header_number(s, 2) {
            Some((w, p1)) => match header_number(s, p1) {
                Some((h, p2)) => match header_number(s, p2) {
                    Some((m, p3)) => if w <= u32::MAX && h <= u32::MAX && 1 <= m <= 255 && p3
                        < s.len() && is_space(s[p3]) {
                        Some((w, h, m, p3 + 1))
                    } else {
                        None
                    },
                    None => None,
                },
                None => None,
            },
            None => None,
        }
    } else {
        None
    }
}

/// A decoded image: its width, its height, the sample value that stands for
/// full intensity, and three samples (red, green, blue) per pixel, row after row.
pub struct PpmImage {
    pub width: u32,
    pub height: u32,
    pub max_value: u8,
    pub samples: Vec<u8>,
}

/// Appending a digit to a number never makes it smaller.
proof fn lemma_decimal_value_grows(s: Seq<u8>, i: int, k: int, j: int)
    requires
        i <= k <= j,
        forall|m: int| i <= m < j ==> is_digit(#[trigger] s[m]),
    ensures
        decimal_value(s, i, k) <= decimal_value(s, i, j),
    decreases j - k,
{
    if k < j {
        lemma_decimal_value_grows(s, i, k, j - 1);
        assert(0 <= decimal_value(s, i, j - 1)) by {
            lemma_decimal_value_nonnegative(s, i, j - 1);
        }
    }
}

/// Digits write a number of at least zero.
proof fn lemma_decimal_value_nonnegative(s: Seq<u8>, i: int, j: int)
    requires
        forall|m: int| i <= m < j ==> is_digit(#[trigger] s[m]),
    ensures
        decimal_value(s, i, j) >= 0,
    decreases j - i,
{
    if j > i {
        lemma_decimal_value_nonnegative(s, i, j - 1);
    }
}

/// The positions from `i` up to `skip_spaces(s, i)` hold spaces.
proof fn lemma_skip_spaces(s: Seq<u8>, i: int)
    requires
        0 <= i <= s.len(),
    ensures
        i <= skip_spaces(s, i) <= s.len(),
        forall|m: int| i <= m < skip_spaces(s, i) ==> is_space(#[trigger] s[m]),
        skip_spaces(s, i) < s.len() ==> !is_space(s[skip_spaces(s, i)]),
    decreases s.len() - i,
{
    if i < s.len() && is_space(s[i]) {
        lemma_skip_spaces(s, i + 1);
    }
}

/// The positions from `i` up to `digits_end(s, i)` hold digits.
proof fn lemma_digits_end(s: Seq<u8>, i: int)
    requires
        0 <= i <= s.len(),
    ensures
        i <= digits_end(s, i) <= s.len(),
        forall|m: int| i <= m < digits_end(s, i) ==> is_digit(#[trigger] s[m]),
        digits_end(s, i) < s.len() ==> !is_digit(s[digits_end(s, i)]),
    decreases s.len() - i,
{
    if i < s.len() && is_digit(s[i]) {
        lemma_digits_end(s, i + 1);
    }
}

/// A header number found at `i` has at least one space before its digits and
/// ends just after a digit.
proof fn lemma_header_number_ends_in_digit(s: Seq<u8>, i: int)
    requires
        0 <= i <= s.len(),
    ensures
        header_number(s, i) matches Some((v, e)) ==> i < e <= s.len() && is_digit(s[e - 1]),
{
    lemma_skip_spaces(s, i);
    lemma_digits_end(s, skip_spaces(s, i));
}

/// The samples of a binary PPM image begin right after one single space byte
/// that follows the last digit of the largest sample value: the byte before
/// them is a space, the byte before that a digit. So a sample byte that happens
/// to be a space is read as a sample, not as part of the header.
pub proof fn lemma_samples_follow_one_space(s: Seq<u8>)
    ensures
        ppm_header(s) matches Some((w, h, m, start)) ==> {
            &&& 7 < start <= s.len()
            &&& is_space(s[start - 1])
            &&& is_digit(s[start - 2])
        },
{
    if s.len() >= 2 {
        lemma_header_number_ends_in_digit(s, 2);
        if let Some((w, p1)) = header_number(s, 2) {
            lemma_header_number_ends_in_digit(s, p1);
            if let Some((h, p2)) = header_number(s, p1) {
                lemma_header_number_ends_in_digit(s, p2);
            }
        }
    }
}

/// Reads the header number that starts at `i`, where it fits `u32`.
fn read_number(s: &[u8], i: usize) -> (r: Option<(u32, usize)>)
    requires
        i <= s@.len(),
    ensures
        match header_number(s@, i as int) {
            Some((v, e)) => if v <= u32::MAX {
                r matches Some((x, y)) && x == v && y == e
            } else {
                r is None
            },
            None => r is None,
        },
        r matches Some((x, y)) ==> y <= s@.len(),
{
    let ghost sq = s@;
    proof {
        lemma_skip_spaces(sq, i as int);
    }
    let mut a: usize = i;
    while a < s.len() && (s[a] == 32 || s[a] == 9 || s[a] == 10 || s[a] == 12 || s[a] == 13)
        invariant
            i <= a <= s@.len(),
            sq == s@,
            i <= skip_spaces(sq, i as int) <= sq.len(),
            forall|m: int| i <= m < skip_spaces(sq, i as int) ==> is_space(#[trigger] sq[m]),
            skip_spaces(sq, i as int) < sq.len() ==> !is_space(sq[skip_spaces(sq, i as int)]),
            a <= skip_spaces(sq, i as int),
        decreases s@.len() - a,
    {
        a = a + 1;
    }
    assert(a == skip_spaces(sq, i as int));
    if a == i {
        return None;
    }
    proof {
        lemma_digits_end(sq, a as int);
    }
    let ghost e = digits_end(sq, a as int);
    let mut k: usize = a;
    let mut v: u64 = 0;
    while k < s.len() && 48 <= s[k] && s[k] <= 57
        invariant
            a <= k <= e,
            sq == s@,
            a <= e <= sq.len(),
            forall|m: int| a <= m < e ==> is_digit(#[trigger] sq[m]),
            e < sq.len() ==> !is_digit(sq[e]),
            v == decimal_value(sq, a as int, k as int),
            v <= u32::MAX,
            i < a,
            a == skip_spaces(sq, i as int),
            e == digits_end(sq, a as int),
        decreases s@.len() - k,
    {
        let d: u64 = (s[k] - 48) as u64;
        let next: u64 = v * 10 + d;
        assert(next == decimal_value(sq, a as int, k + 1));
        if next > 4294967295u64 {
            proof {
                lemma_decimal_value_grows(sq, a as int, k + 1, e);
                assert(k < e);
            }
            return None;
        }
        v = next;
        k = k + 1;
    }
    assert(k == e);
    if k == a {
        return None;
    }
    assert(header_number(sq, i as int) == Some((v as int, k as int)));
    Some((v as u32, k))
}

/// Decodes a binary PPM image: `Some` exactly where `bytes` starts with a
/// header as `ppm_header` describes and holds at least three samples per
/// pixel after it; the image then has that width and height and the first
/// `3 * width * height` bytes after the header as its samples.
pub fn parse_ppm(bytes: &[u8]) -> (r: Option<PpmImage>)
    ensures
        match ppm_header(bytes@) {
            Some((w, h, m, start)) => if start + 3 * w * h <= bytes@.len() {
                &&& r is Some
                &&& r->0.width == w
                &&& r->0.height == h
                &&& r->0.max_value == m
                &&& r->0.samples@ == bytes@.subrange(start, start + 3 * w * h)
            } else {
                r is None
            },
            None => r is None,
        },
{
    let ghost s = bytes@;
    if bytes.len() < 2 || bytes[0] != 80 || bytes[1] != 54 {
        return None;
    }
    let (w, p1) = match read_number(bytes, 2) {
        Some(x) => x,
        None => return None,
    };
    let (h, p2) = match read_number(bytes, p1) {
        Some(x) => x,
        None => return None,
    };
    let (m, p3) = match read_number(bytes, p2) {
        Some(x) => x,
        None => return None,
    };
    if m < 1 || m > 255 || p3 >= bytes.len() {
        return None;
    }
    let c: u8 = bytes[p3];
    if !(c == 32 || c == 9 || c == 10 || c == 12 || c == 13) {
        return None;
    }
    let start: usize = p3 + 1;
    assert(3 * (w as u128) * (h as u128) <= 3 * 0xffff_ffffu128 * 0xffff_ffffu128) by (nonlinear_arith)
        requires
            w <= 0xffff_ffffu32,
            h <= 0xffff_ffffu32,
    ;
    let needed: u128 = 3 * (w as u128) * (h as u128);
    if needed > (bytes.len() - start) as u128 {
        return None;
    }
    let count: usize = needed as usize;
    assert(count == 3 * w * h);
    assert(start + count <= bytes@.len());
    let blen: usize = bytes.len();
    let mut samples: Vec<u8> = Vec::new();
    let mut k: usize = 0;
    while k < count
        invariant
            s == bytes@,
            blen == bytes@.len(),
            start + count <= blen,
            start + count <= bytes@.len(),
            k <= count,
            samples@ == bytes@.subrange(start as int, start + k),
        decreases count - k,
    {
        assert(start + k < bytes@.len());
        samples.push(bytes[start + k]);
        k = k + 1;
        assert(samples@ =~= bytes@.subrange(start as int, start + k));
    }
    Some(PpmImage { width: w, height: h, max_value: m as u8, samples })
}

} // verus!
