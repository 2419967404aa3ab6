//! Protocol text as bytes: ASCII literals, searching, case, decimal numbers
//! and hexadecimal digits.

use vstd::prelude::*;
use vstd::string::StrSliceExecFns;

verus! {

/// The bytes of a text of ASCII characters.
pub open spec fn ascii(s: Seq<char>) -> Seq<u8> {
    Seq::new(s.len(), |i: int| s[i] as u8)
}

/// The bytes of a text of ASCII characters.
pub fn ascii_bytes(s: &str) -> (r: Vec<u8>)
    requires
        s.is_ascii(),
    ensures
        r@ == ascii(s@),
{
    let n = s.unicode_len();
    let mut r: Vec<u8> = Vec::new();
    let mut i: usize = 0;
    while i < n
        invariant
            i <= n,
            n == s@.len(),
            s.is_ascii(),
            r@.len() == i,
            forall|j: int| 0 <= j < i ==> r@[j] == s@[j] as u8,
        decreases n - i,
    {
        r.push(s.get_ascii(i));
        i = i + 1;
    }
    assert(r@ =~= ascii(s@));
    r
}

/// The first index at or after `from` at which `s` holds the byte `b`; the
/// length of `s` where it holds none.
pub open spec fn find(s: Seq<u8>, b: u8, from: int) -> int
    decreases s.len() - from,
{
    if 0 <= from < s.len() && s[from] != b {
        find(s, b, from + 1)
    } else if from < s.len() {
        from
    } else {
        s.len() as int
    }
}

/// What `find` returns: no byte `b` stands from `from` up to it, and one
/// stands at it unless it is the length of `s`.
pub proof fn lemma_find(s: Seq<u8>, b: u8, from: int)
    requires
        0 <= from <= s.len(),
    ensures
        from <= find(s, b, from) <= s.len(),
        forall|i: int| from <= i < find(s, b, from) ==> s[i] != b,
        find(s, b, from) < s.len() ==> s[find(s, b, from)] == b,
    decreases s.len() - from,
{
    if from < s.len() && s[from] != b {
        lemma_find(s, b, from + 1);
    }
}

/// `find` returns the only index with the properties of `lemma_find`.
pub proof fn lemma_find_unique(s: Seq<u8>, b: u8, from: int, k: int)
    requires
        0 <= from <= k <= s.len(),
        forall|i: int| from <= i < k ==> s[i] != b,
        k < s.len() ==> s[k] == b,
    ensures
        find(s, b, from) == k,
    decreases k - from,
{
    if from < k {
        lemma_find_unique(s, b, from + 1, k);
    }
}

/// The first index at or after `from` at which `s` holds the byte `b`; the
/// length of `s` where it holds none.
pub fn position(s: &Vec<u8>, b: u8, from: usize) -> (k: usize)
    requires
        from <= s.len(),
    ensures
        k == find(s@, b, from as int),
        from <= k <= s.len(),
{
    let mut k: usize = from;
    while k < s.len() && s[k] != b
        invariant
            from <= k <= s.len(),
            forall|i: int| from <= i < k ==> s@[i] != b,
        decreases s.len() - k,
    {
        k = k + 1;
    }
    proof {
        lemma_find_unique(s@, b, from as int, k as int);
    }
    k
}

/// Whether `s` holds the byte `b`.
pub open spec fn holds(s: Seq<u8>, b: u8) -> bool {
    find(s, b, 0) < s.len()
}

/// `s` holds `b` exactly where `b` stands at some index of it.
pub proof fn lemma_holds(s: Seq<u8>, b: u8)
    ensures
        holds(s, b) <==> exists|i: int| 0 <= i < s.len() && s[i] == b,
{
    lemma_find(s, b, 0);
    if holds(s, b) {
        assert(s[find(s, b, 0)] == b);
    }
}

/// The lower-case form of a byte: upper-case ASCII letters change, all other
/// bytes stay.
pub open spec fn lower(b: u8) -> u8 {
    if 65 <= b <= 90 {
        (b + 32) as u8
    } else {
        b
    }
}

/// The lower-case form of a text.
pub open spec fn lowered(s: Seq<u8>) -> Seq<u8> {
    Seq::new(s.len(), |i: int| lower(s[i]))
}

/// The lower-case form of a text.
pub fn to_lower(s: &Vec<u8>) -> (r: Vec<u8>)
    ensures
        r@ == lowered(s@),
{
    let mut r: Vec<u8> = Vec::new();
    let mut i: usize = 0;
    while i < s.len()
        invariant
            i <= s.len(),
            r@.len() == i,
            forall|j: int| 0 <= j < i ==> r@[j] == lower(s@[j]),
        decreases s.len() - i,
    {
        let b: u8 = s[i];
        r.push(if 65 <= b && b <= 90 { b + 32 } else { b });
        i = i + 1;
    }
    assert(r@ =~= lowered(s@));
    r
}

/// Whether the byte is a hexadecimal digit, of either case.
pub open spec fn is_hex(b: u8) -> bool {
    (48 <= b <= 57) || (97 <= b <= 102) || (65 <= b <= 70)
}

/// Whether every byte of the text is a hexadecimal digit.
pub open spec fn all_hex(s: Seq<u8>) -> bool {
    forall|i: int| 0 <= i < s.len() ==> is_hex(#[trigger] s[i])
}

/// Whether every byte of the text is a hexadecimal digit.
pub fn is_all_hex(s: &Vec<u8>) -> (r: bool)
    ensures
        r == all_hex(s@),
{
    let mut i: usize = 0;
    while i < s.len()
        invariant
            i <= s.len(),
            forall|j: int| 0 <= j < i ==> is_hex(#[trigger] s@[j]),
        decreases s.len() - i,
    {
        let b: u8 = s[i];
        if !((48 <= b && b <= 57) || (97 <= b && b <= 102) || (65 <= b && b <= 70)) {
            return false;
        }
        i = i + 1;
    }
    true
}

/// The lower-case hexadecimal digit for a value below 16.
pub open spec fn hex_digit(n: u8) -> u8 {
    if n < 10 {
        (48 + n) as u8
    } else {
        (87 + n) as u8
    }
}

/// The text of `bytes` in lower-case hexadecimal digits, two for each byte,
/// the high half first.
pub open spec fn hex_of(bytes: Seq<u8>) -> Seq<u8> {
    Seq::new(
        2 * bytes.len(),
        |i: int|
            hex_digit(
                if i % 2 == 0 {
                    bytes[i / 2] / 16
                } else {
                    bytes[i / 2] % 16
                },
            ),
    )
}

/// The text of `bytes` in lower-case hexadecimal digits.
pub fn to_hex(bytes: &Vec<u8>) -> (r: Vec<u8>)
    ensures
        r@ == hex_of(bytes@),
{
    let mut r: Vec<u8> = Vec::new();
    let mut i: usize = 0;
    while i < bytes.len()
        invariant
            i <= bytes.len(),
            r@.len() == 2 * i,
            forall|j: int| 0 <= j < 2 * i ==> r@[j] == hex_of(bytes@)[j],
        decreases bytes.len() - i,
    {
        let b: u8 = bytes[i];
        let high: u8 = b / 16;
        let low: u8 = b % 16;
        r.push(if high < 10 { 48 + high } else { 87 + high });
        r.push(if low < 10 { 48 + low } else { 87 + low });
        i = i + 1;
    }
    assert(r@ =~= hex_of(bytes@));
    r
}

/// The decimal digits of a number, the most significant first.
pub open spec fn decimal(n: nat) -> Seq<u8>
    decreases n,
{
    if n < 10 {
        seq![(48 + n) as u8]
    } else {
        decimal(n / 10).push((48 + n % 10) as u8)
    }
}

/// The decimal digits of a number, the most significant first.
pub fn to_decimal(n: u32) -> (r: Vec<u8>)
    ensures
        r@ == decimal(n as nat),
{
    let mut rest: u32 = n;
    let mut tail: Vec<u8> = Vec::new();
    while rest >= 10
        invariant
            decimal(n as nat) == decimal(rest as nat) + tail@,
        decreases rest,
    {
        let digit: u8 = (48 + rest % 10) as u8;
        let ghost before = tail@;
        tail.insert(0, digit);
        proof {
            assert(tail@ =~= seq![digit] + before);
            assert(decimal(rest as nat) == decimal(rest as nat / 10).push(digit));
            assert(decimal(rest as nat / 10).push(digit) + before =~= decimal(rest as nat / 10)
                + tail@);
        }
        rest = rest / 10;
    }
    let mut r: Vec<u8> = Vec::new();
    r.push((48 + rest) as u8);
    assert(r@ =~= decimal(rest as nat));
    r.append(&mut tail);
    r
}

/// `a` followed by `b`.
pub fn join(a: &Vec<u8>, b: &Vec<u8>) -> (r: Vec<u8>)
    ensures
        r@ == a@ + b@,
{
    let mut r: Vec<u8> = a.clone();
    r.extend_from_slice(b.as_slice());
    r
}

} // verus!
