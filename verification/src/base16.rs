//! The base16 codec: an `Encoder` from bytes to hex text and a `Decoder`
//! from hex text back to bytes.
//!
//! The alphabet is the sixteen characters `0`-`9` followed by `a`-`f` (or
//! `A`-`F` in the uppercase variant); character *i* of the table encodes the
//! nibble value *i*, and the table is sorted by character code. Encoding
//! emits two characters per byte, high nibble first. Decoding
//! ASCII-lowercases its input and looks each character's code point up in
//! the lowercase table, so exactly the sixteen digits in either case are
//! accepted; any other character stops the decode with the index at which
//! the table lookup gave up (the table's insertion point for that code
//! point), and an odd-length input, whose last digit would pair with
//! nothing, is rejected with the index of that unpaired trailing digit.

use vstd::prelude::*;
use vstd::string::StringExecFns;

verus! {

/// The character that encodes nibble `n` in the uppercase alphabet
/// `0123456789ABCDEF`.
pub open spec fn upper_digit(n: u8) -> char
    recommends
        n < 16,
{
    if n < 10 {
        (0x30 + n) as char
    } else {
        (0x37 + n) as char
    }
}

/// The character that encodes nibble `n` in the lowercase alphabet
/// `0123456789abcdef`.
pub open spec fn lower_digit(n: u8) -> char
    recommends
        n < 16,
{
    if n < 10 {
        (0x30 + n) as char
    } else {
        (0x57 + n) as char
    }
}

/// The character that encodes nibble `n` in the selected case.
pub open spec fn nibble_char(n: u8, upper: bool) -> char
    recommends
        n < 16,
{
    if upper {
        upper_digit(n)
    } else {
        lower_digit(n)
    }
}

/// The nibble that position `i` of the encoding of `s` carries: the high
/// half of `s[i / 2]` at even positions, the low half at odd ones.
pub open spec fn nibble_at(s: Seq<u8>, i: int) -> u8
    recommends
        0 <= i < 2 * s.len(),
{
    if i % 2 == 0 {
        (s[i / 2] / 16) as u8
    } else {
        (s[i / 2] % 16) as u8
    }
}

/// The hexadecimal encoding of `s`: two characters per byte, high nibble
/// first, in the selected case.
pub open spec fn hex_encoding(s: Seq<u8>, upper: bool) -> Seq<char> {
    Seq::new(2 * s.len(), |i: int| nibble_char(nibble_at(s, i), upper))
}

/// One-character string for nibble `n` in the uppercase table.
fn upper_digit_str(n: u8) -> (r: &'static str)
    requires
        n < 16,
    ensures
        r@ == seq![upper_digit(n)],
{
    let r: &'static str = match n {
        0 => "0",
        1 => "1",
        2 => "2",
        3 => "3",
        4 => "4",
        5 => "5",
        6 => "6",
        7 => "7",
        8 => "8",
        9 => "9",
        10 => "A",
        11 => "B",
        12 => "C",
        13 => "D",
        14 => "E",
        _ => "F",
    };
    proof {
        reveal_strlit("0");
        reveal_strlit("1");
        reveal_strlit("2");
        reveal_strlit("3");
        reveal_strlit("4");
        reveal_strlit("5");
        reveal_strlit("6");
        reveal_strlit("7");
        reveal_strlit("8");
        reveal_strlit("9");
        reveal_strlit("A");
        reveal_strlit("B");
        reveal_strlit("C");
        reveal_strlit("D");
        reveal_strlit("E");
        reveal_strlit("F");
        assert(r@ =~= seq![upper_digit(n)]);
    }
    r
}

/// One-character string for nibble `n` in the lowercase table.
fn lower_digit_str(n: u8) -> (r: &'static str)
    requires
        n < 16,
    ensures
        r@ == seq![lower_digit(n)],
{
    let r: &'static str = match n {
        0 => "0",
        1 => "1",
        2 => "2",
        3 => "3",
        4 => "4",
        5 => "5",
        6 => "6",
        7 => "7",
        8 => "8",
        9 => "9",
        10 => "a",
        11 => "b",
        12 => "c",
        13 => "d",
        14 => "e",
        _ => "f",
    };
    proof {
        reveal_strlit("0");
        reveal_strlit("1");
        reveal_strlit("2");
        reveal_strlit("3");
        reveal_strlit("4");
        reveal_strlit("5");
        reveal_strlit("6");
        reveal_strlit("7");
        reveal_strlit("8");
        reveal_strlit("9");
        reveal_strlit("a");
        reveal_strlit("b");
        reveal_strlit("c");
        reveal_strlit("d");
        reveal_strlit("e");
        reveal_strlit("f");
        assert(r@ =~= seq![lower_digit(n)]);
    }
    r
}

/// The encoding variant an `Encoder` is built with. Only the standard
/// base16 encoding exists; the selector is kept as an extension point.
pub enum Type {
    StdEncoding,
}

/// Which of the two alphabet tables an encode operation consults.
#[derive(Clone, Copy)]
enum EncodeConfig {
    UPPER,
    LOWER,
}

/// Encodes byte buffers as hexadecimal text.
pub struct Encoder {
    typ: Type,
}

impl Encoder {
    /// A fresh encoder for the given encoding variant. The encoder carries
    /// no further state: every encode operation is pinned down by its own
    /// contract alone.
    pub fn new(typ: Type) -> Self {
        Encoder { typ }
    }

    /// Encodes `src` with the uppercase alphabet: two characters per byte,
    /// high nibble first, `2 * src.len()` characters in all.
    pub fn encode_upper_to_string(&self, src: &[u8]) -> (r: String)
        ensures
            r@ == hex_encoding(src@, true),
            r@.len() == 2 * src@.len(),
    {
        match self.typ {
            Type::StdEncoding => self.encode_std(src, EncodeConfig::UPPER),
        }
    }

    /// Encodes `src` with the lowercase alphabet: two characters per byte,
    /// high nibble first, `2 * src.len()` characters in all.
    pub fn encode_lower_to_string(&self, src: &[u8]) -> (r: String)
        ensures
            r@ == hex_encoding(src@, false),
            r@.len() == 2 * src@.len(),
    {
        match self.typ {
            Type::StdEncoding => self.encode_std(src, EncodeConfig::LOWER),
        }
    }

    /// Encodes `src` with the table that `cfg` selects.
    fn encode_std(&self, src: &[u8], cfg: EncodeConfig) -> (r: String)
        ensures
            r@ == hex_encoding(src@, cfg is UPPER),
    {
        let upper: bool = match cfg {
            EncodeConfig::UPPER => true,
            EncodeConfig::LOWER => false,
        };
        let mut dst = String::new();
        let mut k: usize = 0;
        while k < src.len()
            invariant
                k <= src.len(),
                dst@.len() == 2 * k,
                forall|j: int|
                    0 <= j < 2 * k ==> dst@[j] == hex_encoding(src@, upper)[j],
            decreases src.len() - k,
        {
            let byte = src[k];
            dst.append(if upper {
                upper_digit_str(byte / 16)
            } else {
                lower_digit_str(byte / 16)
            });
            dst.append(if upper {
                upper_digit_str(byte % 16)
            } else {
                lower_digit_str(byte % 16)
            });
            proof {
                assert(nibble_at(src@, 2 * k as int) == byte / 16);
                assert(nibble_at(src@, 2 * k + 1) == byte % 16);
            }
            k = k + 1;
        }
        proof {
            assert(dst@ =~= hex_encoding(src@, upper));
        }
        dst
    }
}

/// The code point of `c` after ASCII lowercasing: `A`-`Z` move down into
/// `a`-`z`, every other character keeps its code.
pub open spec fn lower_code(c: char) -> u32 {
    if 0x41 <= c as u32 && c as u32 <= 0x5A {
        (c as u32 + 0x20) as u32
    } else {
        c as u32
    }
}

/// Whether the code point `x` is one of the sixteen entries of the
/// lowercase table `0123456789abcdef`.
pub open spec fn is_hex_digit(x: u32) -> bool {
    (0x30 <= x && x <= 0x39) || (0x61 <= x && x <= 0x66)
}

/// The position of code point `x` in the lowercase table: the nibble value
/// it decodes to.
pub open spec fn digit_value(x: u32) -> u8
    recommends
        is_hex_digit(x),
{
    if x < 0x40 {
        (x - 0x30) as u8
    } else {
        (x - 0x57) as u8
    }
}

/// Where a table lookup for a code point outside the table gives up: the
/// number of table entries below `x`, the insertion point a binary search
/// over the sorted table reports.
pub open spec fn miss_point(x: u32) -> usize
    recommends
        !is_hex_digit(x),
{
    if x < 0x30 {
        0
    } else if x <= 0x60 {
        10
    } else {
        16
    }
}

/// Whether every character of `s` is a hex digit in either case: its
/// ASCII-lowercased code point stands in the lowercase table.
pub open spec fn all_hex(s: Seq<char>) -> bool {
    forall|i: int| 0 <= i < s.len() ==> is_hex_digit(lower_code(s[i]))
}

/// The index of the first character of `s` that decodes to no nibble
/// (`s.len()` if every character does).
pub open spec fn first_invalid(s: Seq<char>) -> int
    decreases s.len(),
{
    if s.len() == 0 {
        0
    } else if !is_hex_digit(lower_code(s[0])) {
        0
    } else {
        1 + first_invalid(s.drop_first())
    }
}

/// The value a decode stopped by a bad character reports: the table
/// insertion point of the first character that is no hex digit.
pub open spec fn decode_err(s: Seq<char>) -> usize
    recommends
        !all_hex(s),
{
    miss_point(lower_code(s[first_invalid(s)]))
}

/// The value any failed decode of `s` reports: the table insertion point
/// of the first bad character, or, when every character is a hex digit but
/// the length is odd, the index of the unpaired trailing digit.
pub open spec fn decode_failure(s: Seq<char>) -> usize
    recommends
        !all_hex(s) || s.len() % 2 == 1,
{
    if !all_hex(s) {
        decode_err(s)
    } else {
        (s.len() - 1) as usize
    }
}

/// The bytes a successful decode of `s` yields: consecutive nibbles merged
/// in pairs, high nibble first.
pub open spec fn decoded_bytes(s: Seq<char>) -> Seq<u8>
    recommends
        all_hex(s) && s.len() % 2 == 0,
{
    Seq::new(
        s.len() / 2,
        |i: int|
            (16 * digit_value(lower_code(s[2 * i])) + digit_value(
                lower_code(s[2 * i + 1]),
            )) as u8,
    )
}

/// A left-to-right scan that finds no bad character before `i` and a bad
/// one at `i` has found the first: `first_invalid(s) == i`. A scan that
/// ran through the whole of `s` shows `all_hex(s)`.
proof fn lemma_first_invalid_at(s: Seq<char>, i: int)
    requires
        0 <= i <= s.len(),
        forall|j: int| 0 <= j < i ==> is_hex_digit(lower_code(s[j])),
        i < s.len() ==> !is_hex_digit(lower_code(s[i])),
    ensures
        i < s.len() ==> first_invalid(s) == i,
        i == s.len() ==> all_hex(s),
    decreases i,
{
    if i == s.len() {
    } else if i == 0 {
    } else {
        let t = s.drop_first();
        assert forall|j: int| 0 <= j < i - 1 implies is_hex_digit(lower_code(t[j])) by {
            assert(t[j] == s[j + 1]);
        }
        assert(t[i - 1] == s[i]);
        lemma_first_invalid_at(t, i - 1);
    }
}

/// Decodes hexadecimal text back into byte buffers.
pub struct Decoder {}

impl Decoder {
    /// A fresh decoder. Decoding is stateless: every decode operation is
    /// pinned down by its own contract alone.
    pub fn new() -> Self {
        Decoder {}
    }

    /// Decodes `src`, accepting both letter cases. It succeeds exactly when
    /// every character of `src` is one of the sixteen hex digits and the
    /// length is even, and then yields the bytes the digit pairs spell.
    /// Otherwise it fails, with the table insertion point of the first
    /// character outside the alphabet, or, when only the length is at
    /// fault, with the index of the unpaired trailing digit.
    pub fn decode_std(&self, src: &str) -> (r: Result<Vec<u8>, usize>)
        ensures
            r is Ok <==> all_hex(src@) && src@.len() % 2 == 0,
            r matches Ok(v) ==> v@ == decoded_bytes(src@),
            r matches Err(e) ==> e == decode_failure(src@),
    {
        let n = src.unicode_len();
        let mut nibbles: Vec<u8> = Vec::new();
        let mut i: usize = 0;
        while i < n
            invariant
                n == src@.len(),
                i <= n,
                nibbles@.len() == i,
                forall|j: int| 0 <= j < i ==> is_hex_digit(lower_code(src@[j])),
                forall|j: int| 0 <= j < i ==> nibbles@[j] == digit_value(lower_code(src@[j])),
            decreases n - i,
        {
            let c = src.get_char(i);
            let code: u32 = c as u32;
            let lc: u32 = if 0x41 <= code && code <= 0x5A {
                code + 0x20
            } else {
                code
            };
            proof {
                assert(lc == lower_code(src@[i as int]));
            }
            if 0x30 <= lc && lc <= 0x39 {
                nibbles.push((lc - 0x30) as u8);
            } else if 0x61 <= lc && lc <= 0x66 {
                nibbles.push((lc - 0x57) as u8);
            } else {
                proof {
                    lemma_first_invalid_at(src@, i as int);
                }
                return Err(
                    if lc < 0x30 {
                        0
                    } else if lc <= 0x60 {
                        10
                    } else {
                        16
                    },
                );
            }
            i = i + 1;
        }
        proof {
            lemma_first_invalid_at(src@, n as int);
        }
        if n % 2 == 1 {
            return Err(n - 1);
        }
        let m = n / 2;
        let mut dst: Vec<u8> = Vec::new();
        let mut k: usize = 0;
        while k < m
            invariant
                n == src@.len(),
                m == n / 2,
                nibbles@.len() == n,
                forall|j: int| 0 <= j < n ==> is_hex_digit(lower_code(src@[j])),
                forall|j: int| 0 <= j < n ==> nibbles@[j] == digit_value(lower_code(src@[j])),
                k <= m,
                dst@.len() == k,
                forall|j: int| 0 <= j < k ==> dst@[j] == decoded_bytes(src@)[j],
            decreases m - k,
        {
            let b1 = nibbles[2 * k];
            let b2 = nibbles[2 * k + 1];
            dst.push(b1 * 16 + b2);
            k = k + 1;
        }
        proof {
            assert(dst@ =~= decoded_bytes(src@));
        }
        Ok(dst)
    }
}

/// `c` after ASCII uppercasing: `a`-`z` move up into `A`-`Z`, every other
/// character stays.
pub open spec fn ascii_upper(c: char) -> char {
    if 0x61 <= c as u32 && c as u32 <= 0x7A {
        (c as u32 - 0x20) as char
    } else {
        c
    }
}

/// `c` after ASCII lowercasing: `A`-`Z` move down into `a`-`z`, every
/// other character stays.
pub open spec fn ascii_lower(c: char) -> char {
    if 0x41 <= c as u32 && c as u32 <= 0x5A {
        (c as u32 + 0x20) as char
    } else {
        c
    }
}

/// `s` with every character ASCII-uppercased.
pub open spec fn to_upper_seq(s: Seq<char>) -> Seq<char> {
    s.map_values(|c: char| ascii_upper(c))
}

/// `s` with every character ASCII-lowercased.
pub open spec fn to_lower_seq(s: Seq<char>) -> Seq<char> {
    s.map_values(|c: char| ascii_lower(c))
}

/// Each nibble survives its trip through the table: the character that
/// encodes `n`, in either case, decodes back to `n`.
proof fn lemma_nibble_round_trip(n: u8, upper: bool)
    requires
        n < 16,
    ensures
        is_hex_digit(lower_code(nibble_char(n, upper))),
        digit_value(lower_code(nibble_char(n, upper))) == n,
{
}

/// Round trip: decoding the hexadecimal encoding of any byte sequence, in
/// either case, succeeds and yields the sequence itself.
pub proof fn lemma_round_trip(s: Seq<u8>, upper: bool)
    ensures
        all_hex(hex_encoding(s, upper)),
        hex_encoding(s, upper).len() % 2 == 0,
        decoded_bytes(hex_encoding(s, upper)) == s,
{
    let e = hex_encoding(s, upper);
    assert forall|i: int| 0 <= i < e.len() implies is_hex_digit(lower_code(e[i])) by {
        lemma_nibble_round_trip(nibble_at(s, i), upper);
    }
    assert forall|i: int| 0 <= i < s.len() implies decoded_bytes(e)[i] == s[i] by {
        lemma_nibble_round_trip(nibble_at(s, 2 * i), upper);
        lemma_nibble_round_trip(nibble_at(s, 2 * i + 1), upper);
        assert(nibble_at(s, 2 * i) == s[i] / 16);
        assert(nibble_at(s, 2 * i + 1) == s[i] % 16);
        assert(16 * (s[i] / 16) + s[i] % 16 == s[i]);
    }
    assert(decoded_bytes(e) =~= s);
}

/// Lowercasing or uppercasing a character never changes the code point
/// the decoder looks up.
proof fn lemma_lower_code_case(c: char)
    ensures
        lower_code(ascii_upper(c)) == lower_code(c),
        lower_code(ascii_lower(c)) == lower_code(c),
{
}

/// Case invariance: a string of hex digits decodes exactly as its
/// ASCII-uppercased and its ASCII-lowercased forms do — the case-mapped
/// forms are hex of the same length, so they succeed or fail together
/// with the original, and on success yield the same bytes.
pub proof fn lemma_decode_case_invariant(s: Seq<char>)
    requires
        all_hex(s),
    ensures
        all_hex(to_upper_seq(s)),
        all_hex(to_lower_seq(s)),
        to_upper_seq(s).len() == s.len(),
        to_lower_seq(s).len() == s.len(),
        decoded_bytes(to_upper_seq(s)) == decoded_bytes(s),
        decoded_bytes(to_lower_seq(s)) == decoded_bytes(s),
{
    let u = to_upper_seq(s);
    let l = to_lower_seq(s);
    assert forall|i: int| 0 <= i < s.len() implies lower_code(u[i]) == lower_code(s[i])
        && lower_code(l[i]) == lower_code(s[i]) by {
        lemma_lower_code_case(s[i]);
    }
    assert(decoded_bytes(u) =~= decoded_bytes(s));
    assert(decoded_bytes(l) =~= decoded_bytes(s));
}

/// Determinism of encoding: any two results that the encoding contract
/// admits for the same bytes and the same case are the same string.
pub proof fn lemma_encode_deterministic(s: Seq<u8>, upper: bool, r1: Seq<char>, r2: Seq<char>)
    requires
        r1 == hex_encoding(s, upper),
        r2 == hex_encoding(s, upper),
    ensures
        r1 == r2,
{
}

/// Determinism of decoding: any two results that the decoding contract
/// admits for the same text are the same.
pub proof fn lemma_decode_deterministic(
    s: Seq<char>,
    r1: Result<Seq<u8>, usize>,
    r2: Result<Seq<u8>, usize>,
)
    requires
        r1 == if all_hex(s) && s.len() % 2 == 0 {
            Result::<Seq<u8>, usize>::Ok(decoded_bytes(s))
        } else {
            Result::<Seq<u8>, usize>::Err(decode_failure(s))
        },
        r2 == if all_hex(s) && s.len() % 2 == 0 {
            Result::<Seq<u8>, usize>::Ok(decoded_bytes(s))
        } else {
            Result::<Seq<u8>, usize>::Err(decode_failure(s))
        },
    ensures
        r1 == r2,
{
}

} // verus!
