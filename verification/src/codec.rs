//! Reversible encoding of a 64-bit tenant identifier into an opaque, URL-safe
//! key string, and back.
//!
//! The identifier is serialized as its 8 little-endian bytes; the byte string
//! is then rendered with a 58-character alphabet that leaves out the visually
//! ambiguous characters `0`, `I`, `O` and `l`: every leading zero byte becomes
//! a leading `1` character, and the rest of the byte string, read as a
//! big-endian number, becomes that number's base-58 digits, most significant
//! first.  Decoding inverts this; it fails on a character outside the
//! alphabet, or when the decoded byte string is shorter than 8 bytes, and
//! never panics.

use vstd::prelude::*;
use vstd::string::StrSliceExecFns;

verus! {

/// Why a key string could not be decoded.
#[derive(Debug, Clone, Copy, PartialEq, Eq, Structural)]
pub enum DecodeError {
    /// The string holds a character outside the encoding alphabet.
    InvalidCharacter,
    /// The string decodes to fewer than 8 bytes.
    TooShort,
}

/// The 58 characters of the key alphabet, in digit order.
pub open spec fn alphabet() -> Seq<char> {
    "123456789ABCDEFGHJKLMNPQRSTUVWXYZabcdefghijkmnopqrstuvwxyz"@
}

/// First position at or after `i` where `s` holds `c`, as a digit value.
pub open spec fn spec_find_digit(s: Seq<char>, c: char, i: int) -> Option<u8>
    decreases s.len() - i,
{
    if i < 0 || i >= s.len() {
        None
    } else if s[i] == c {
        Some(i as u8)
    } else {
        spec_find_digit(s, c, i + 1)
    }
}

/// The digit value of a character, `None` outside the alphabet.
pub open spec fn digit_of(c: char) -> Option<u8> {
    spec_find_digit(alphabet(), c, 0)
}

/// 256 to the power `k`.
pub open spec fn p256(k: nat) -> nat
    decreases k,
{
    if k == 0 {
        1
    } else {
        256 * p256((k - 1) as nat)
    }
}

/// The `k` little-endian base-256 digits of `n`.
pub open spec fn le_bytes_of(n: nat, k: nat) -> Seq<u8>
    decreases k,
{
    if k == 0 {
        Seq::empty()
    } else {
        seq![(n % 256) as u8] + le_bytes_of(n / 256, (k - 1) as nat)
    }
}

/// The value of a byte string read as a little-endian number.
pub open spec fn le_val(s: Seq<u8>) -> nat
    decreases s.len(),
{
    if s.len() == 0 {
        0
    } else {
        (s[0] as nat) + 256 * le_val(s.skip(1))
    }
}

/// The value of a byte string read as a big-endian number.
pub open spec fn be_val(s: Seq<u8>) -> nat
    decreases s.len(),
{
    if s.len() == 0 {
        0
    } else {
        be_val(s.take(s.len() - 1)) * 256 + (s.last() as nat)
    }
}

/// How many zero entries `s` starts with.
pub open spec fn leading_zeros(s: Seq<u8>) -> nat
    decreases s.len(),
{
    if s.len() == 0 || s[0] != 0 {
        0
    } else {
        1 + leading_zeros(s.skip(1))
    }
}

/// The base-58 digits of `n`, most significant first; empty for zero.
pub open spec fn b58_digits(n: nat) -> Seq<u8>
    decreases n,
{
    if n == 0 {
        Seq::empty()
    } else {
        b58_digits(n / 58).push((n % 58) as u8)
    }
}

/// The value of a digit string read as a big-endian base-58 number.
pub open spec fn b58_val(ds: Seq<u8>) -> nat
    decreases ds.len(),
{
    if ds.len() == 0 {
        0
    } else {
        b58_val(ds.take(ds.len() - 1)) * 58 + (ds.last() as nat)
    }
}

/// The shortest little-endian byte string with value `n`.
pub open spec fn le_min_bytes(n: nat) -> Seq<u8>
    decreases n,
{
    if n == 0 {
        Seq::empty()
    } else {
        seq![(n % 256) as u8] + le_min_bytes(n / 256)
    }
}

/// `z` copies of the character `1`.
pub open spec fn ones(z: nat) -> Seq<char> {
    Seq::new(z, |i| '1')
}

/// `z` zero bytes.
pub open spec fn zero_bytes(z: nat) -> Seq<u8> {
    Seq::new(z, |i| 0u8)
}

/// Digits rendered as alphabet characters.
pub open spec fn digit_chars(ds: Seq<u8>) -> Seq<char> {
    ds.map_values(|d: u8| alphabet()[d as int])
}

/// The encoding of a byte string: one `1` per leading zero byte, then the
/// base-58 digits of the rest read as a big-endian number.
pub open spec fn encode_bytes(b: Seq<u8>) -> Seq<char> {
    ones(leading_zeros(b)) + digit_chars(b58_digits(be_val(b)))
}

/// The key string of a tenant identifier.
pub open spec fn encode_spec(x: i64) -> Seq<char> {
    encode_bytes(le_bytes_of((x as u64) as nat, 8))
}

/// Whether every character of `s` is in the alphabet.
pub open spec fn all_valid_chars(s: Seq<char>) -> bool {
    forall|i: int| 0 <= i < s.len() ==> (#[trigger] digit_of(s[i])) is Some
}

/// The digit values of a string of alphabet characters.
pub open spec fn digits_of_chars(s: Seq<char>) -> Seq<u8> {
    s.map_values(|c: char| digit_of(c).unwrap())
}

/// The byte string a digit string decodes to: one zero byte per leading zero
/// digit, then the big-endian bytes of the digits' base-58 value.
pub open spec fn decoded_bytes(ds: Seq<u8>) -> Seq<u8> {
    zero_bytes(leading_zeros(ds)) + le_min_bytes(b58_val(ds)).reverse()
}

/// What decoding a key string yields: the identifier held in the first 8
/// decoded bytes, or the error the string deserves.
pub open spec fn decode_spec(s: Seq<char>) -> Result<i64, DecodeError> {
    if !all_valid_chars(s) {
        Result::Err(DecodeError::InvalidCharacter)
    } else {
        let bytes = decoded_bytes(digits_of_chars(s));
        if bytes.len() < 8 {
            Result::Err(DecodeError::TooShort)
        } else {
            Result::Ok(le_val(bytes.take(8)) as u64 as i64)
        }
    }
}

proof fn lemma_le_bytes_len(n: nat, k: nat)
    ensures
        le_bytes_of(n, k).len() == k,
    decreases k,
{
    if k > 0 {
        lemma_le_bytes_len(n / 256, (k - 1) as nat);
    }
}

proof fn lemma_le_val_of_le_bytes(n: nat, k: nat)
    requires
        n < p256(k),
    ensures
        le_val(le_bytes_of(n, k)) == n,
    decreases k,
{
    if k == 0 {
    } else {
        let rest = le_bytes_of(n / 256, (k - 1) as nat);
        let s = seq![(n % 256) as u8] + rest;
        assert(s.skip(1) =~= rest);
        assert(n / 256 < p256((k - 1) as nat)) by {
            vstd::arithmetic::div_mod::lemma_multiply_divide_lt(
                n as int,
                256,
                p256((k - 1) as nat) as int,
            );
        }
        lemma_le_val_of_le_bytes(n / 256, (k - 1) as nat);
        assert(n % 256 + 256 * (n / 256) == n) by {
            vstd::arithmetic::div_mod::lemma_fundamental_div_mod(n as int, 256);
        }
    }
}

proof fn lemma_le_val_bound(s: Seq<u8>)
    ensures
        le_val(s) < p256(s.len()),
    decreases s.len(),
{
    if s.len() > 0 {
        lemma_le_val_bound(s.skip(1));
        let r = le_val(s.skip(1));
        let p = p256((s.len() - 1) as nat);
        assert((s[0] as nat) + 256 * r < 256 * p) by (nonlinear_arith)
            requires
                r < p,
                s[0] < 256,
        ;
    }
}

proof fn lemma_le_val_pos(s: Seq<u8>)
    requires
        s.len() > 0,
        s.last() != 0,
    ensures
        le_val(s) > 0,
    decreases s.len(),
{
    if s.len() == 1 {
    } else {
        let t = s.skip(1);
        assert(t.last() == s.last());
        lemma_le_val_pos(t);
    }
}

proof fn lemma_be_val_zero(s: Seq<u8>)
    requires
        be_val(s) == 0,
    ensures
        forall|i: int| 0 <= i < s.len() ==> s[i] == 0,
    decreases s.len(),
{
    if s.len() > 0 {
        let t = s.take(s.len() - 1);
        lemma_be_val_zero(t);
        assert(forall|i: int| 0 <= i < s.len() - 1 ==> s[i] == t[i]);
    }
}

/// Dropping one leading zero byte keeps the big-endian value.
proof fn lemma_be_val_skip_one(s: Seq<u8>)
    requires
        s.len() > 0,
        s[0] == 0,
    ensures
        be_val(s.skip(1)) == be_val(s),
    decreases s.len(),
{
    if s.len() == 1 {
        assert(s.skip(1) =~= Seq::<u8>::empty());
        assert(s.take(0) =~= Seq::<u8>::empty());
    } else {
        let t = s.take(s.len() - 1);
        lemma_be_val_skip_one(t);
        assert(s.skip(1).take(s.len() - 2) =~= t.skip(1));
        assert(s.skip(1).last() == s.last());
    }
}

proof fn lemma_be_val_skip_zeros(s: Seq<u8>, z: int)
    requires
        0 <= z <= s.len(),
        forall|i: int| 0 <= i < z ==> s[i] == 0,
    ensures
        be_val(s.skip(z)) == be_val(s),
    decreases z,
{
    if z > 0 {
        lemma_be_val_skip_one(s);
        assert(s.skip(1).skip(z - 1) =~= s.skip(z));
        lemma_be_val_skip_zeros(s.skip(1), z - 1);
    } else {
        assert(s.skip(0) =~= s);
    }
}

proof fn lemma_b58_digits_all_small(n: nat)
    ensures
        forall|i: int|
            0 <= i < b58_digits(n).len() ==> (#[trigger] b58_digits(n)[i]) < 58,
    decreases n,
{
    if n > 0 {
        lemma_b58_digits_all_small(n / 58);
        let d = b58_digits(n / 58);
        assert forall|i: int|
            0 <= i < b58_digits(n).len() implies (#[trigger] b58_digits(n)[i]) < 58 by {
            if i < d.len() {
                assert(b58_digits(n)[i] == d[i]);
            } else {
                assert(b58_digits(n)[i] == (n % 58) as u8);
            }
        }
    }
}

proof fn lemma_b58_digits_first_nonzero(n: nat)
    requires
        n > 0,
    ensures
        b58_digits(n).len() > 0,
        b58_digits(n)[0] != 0,
    decreases n,
{
    if n / 58 > 0 {
        lemma_b58_digits_first_nonzero(n / 58);
        assert(b58_digits(n)[0] == b58_digits(n / 58)[0]);
    } else {
        vstd::arithmetic::div_mod::lemma_fundamental_div_mod(n as int, 58);
        assert(b58_digits(0) == Seq::<u8>::empty());
        assert(b58_digits(n)[0] == (n % 58) as u8);
    }
}

proof fn lemma_b58_val_of_digits(n: nat)
    ensures
        b58_val(b58_digits(n)) == n,
    decreases n,
{
    if n > 0 {
        let d = b58_digits(n / 58);
        assert(d.push((n % 58) as u8).take(d.len() as int) =~= d);
        lemma_b58_val_of_digits(n / 58);
        vstd::arithmetic::div_mod::lemma_fundamental_div_mod(n as int, 58);
    }
}

proof fn lemma_b58_val_zero_prefix(z: nat, ds: Seq<u8>)
    ensures
        b58_val(zero_bytes(z) + ds) == b58_val(ds),
    decreases ds.len(),
{
    if ds.len() == 0 {
        assert(zero_bytes(z) + ds =~= zero_bytes(z));
        lemma_b58_val_zeros(z);
    } else {
        let whole = zero_bytes(z) + ds;
        let front = ds.take(ds.len() - 1);
        assert(whole.take(whole.len() - 1) =~= zero_bytes(z) + front);
        assert(whole.last() == ds.last());
        lemma_b58_val_zero_prefix(z, front);
    }
}

proof fn lemma_b58_val_zeros(z: nat)
    ensures
        b58_val(zero_bytes(z)) == 0,
    decreases z,
{
    if z > 0 {
        assert(zero_bytes(z).take(z - 1) =~= zero_bytes((z - 1) as nat));
        lemma_b58_val_zeros((z - 1) as nat);
    }
}

/// `leading_zeros` is pinned down by its two visible properties.
proof fn lemma_leading_zeros_char(s: Seq<u8>, z: int)
    requires
        0 <= z <= s.len(),
        forall|i: int| 0 <= i < z ==> s[i] == 0,
        z == s.len() || s[z] != 0,
    ensures
        leading_zeros(s) == z,
    decreases s.len(),
{
    if z == 0 {
    } else {
        lemma_leading_zeros_char(s.skip(1), z - 1);
    }
}

proof fn lemma_leading_zeros_props(s: Seq<u8>)
    ensures
        leading_zeros(s) <= s.len(),
        forall|i: int| 0 <= i < leading_zeros(s) ==> s[i] == 0,
        leading_zeros(s) < s.len() ==> s[leading_zeros(s) as int] != 0,
    decreases s.len(),
{
    if s.len() > 0 && s[0] == 0 {
        lemma_leading_zeros_props(s.skip(1));
        let t = s.skip(1);
        assert forall|i: int| 0 <= i < leading_zeros(s) implies s[i] == 0 by {
            if i > 0 {
                assert(t[i - 1] == s[i]);
            }
        }
        if leading_zeros(s) < s.len() {
            assert(t[leading_zeros(t) as int] == s[leading_zeros(s) as int]);
        }
    }
}

/// Reading a byte string backwards swaps the two ends' significance.
proof fn lemma_le_val_reverse(s: Seq<u8>)
    ensures
        le_val(s.reverse()) == be_val(s),
    decreases s.len(),
{
    if s.len() > 0 {
        let r = s.reverse();
        assert(r[0] == s.last());
        assert(r.skip(1) =~= s.take(s.len() - 1).reverse());
        lemma_le_val_reverse(s.take(s.len() - 1));
    }
}

/// A little-endian byte string without a trailing zero is the unique shortest
/// representation of its value.
proof fn lemma_le_min_unique(s: Seq<u8>)
    requires
        s.len() == 0 || s.last() != 0,
    ensures
        le_min_bytes(le_val(s)) == s,
    decreases s.len(),
{
    if s.len() > 0 {
        let v = le_val(s);
        let rest = s.skip(1);
        lemma_le_val_pos(s);
        assert(v > 0);
        vstd::arithmetic::div_mod::lemma_fundamental_div_mod_converse(
            v as int,
            256,
            le_val(rest) as int,
            s[0] as int,
        );
        assert(v % 256 == s[0] as int);
        assert(v / 256 == le_val(rest) as int);
        if rest.len() > 0 {
            assert(rest.last() == s.last());
        }
        lemma_le_min_unique(rest);
        assert(le_min_bytes(v) =~= s);
    }
}

proof fn lemma_p256_pos(k: nat)
    ensures
        p256(k) >= 1,
    decreases k,
{
    if k > 0 {
        lemma_p256_pos((k - 1) as nat);
    }
}

proof fn lemma_p256_mono(a: nat, c: nat)
    requires
        a <= c,
    ensures
        p256(a) <= p256(c),
    decreases c,
{
    if a < c {
        lemma_p256_mono(a, (c - 1) as nat);
        lemma_p256_pos((c - 1) as nat);
    }
}

proof fn lemma_p256_8()
    ensures
        p256(8) == 0x1_0000_0000_0000_0000,
{
    assert(p256(0) == 1);
    assert(p256(1) == 256);
    assert(p256(2) == 0x1_0000);
    assert(p256(3) == 0x100_0000);
    assert(p256(4) == 0x1_0000_0000);
    assert(p256(5) == 0x100_0000_0000);
    assert(p256(6) == 0x1_0000_0000_0000);
    assert(p256(7) == 0x100_0000_0000_0000);
    assert(p256(8) == 0x1_0000_0000_0000_0000);
}

/// The alphabet character of a digit.
fn alphabet_char(d: u8) -> (c: char)
    requires
        d < 58,
    ensures
        c == alphabet()[d as int],
{
    let s: &str = "123456789ABCDEFGHJKLMNPQRSTUVWXYZabcdefghijkmnopqrstuvwxyz";
    proof {
        reveal_strlit("123456789ABCDEFGHJKLMNPQRSTUVWXYZabcdefghijkmnopqrstuvwxyz");
    }
    s.get_char(d as usize)
}

/// The digit value of a character, `None` outside the alphabet.
fn digit_of_char(c: char) -> (r: Option<u8>)
    ensures
        r == digit_of(c),
{
    let s: &str = "123456789ABCDEFGHJKLMNPQRSTUVWXYZabcdefghijkmnopqrstuvwxyz";
    proof {
        reveal_strlit("123456789ABCDEFGHJKLMNPQRSTUVWXYZabcdefghijkmnopqrstuvwxyz");
    }
    let mut i: usize = 0;
    while i < 58
        invariant
            i <= 58,
            s@ == alphabet(),
            s@.len() == 58,
            digit_of(c) == spec_find_digit(alphabet(), c, i as int),
        decreases 58 - i,
    {
        if s.get_char(i) == c {
            return Some(i as u8);
        }
        i += 1;
    }
    None
}

/// Extending a little-endian prefix by one byte adds that byte at its weight.
proof fn lemma_le_val_take_plus(s: Seq<u8>, j: int)
    requires
        0 <= j < s.len(),
    ensures
        le_val(s.take(j + 1)) == le_val(s.take(j)) + p256(j as nat) * (s[j] as nat),
    decreases j,
{
    if j == 0 {
        assert(s.take(1) =~= seq![s[0]]);
        assert(s.take(1).skip(1) =~= Seq::<u8>::empty());
        assert(s.take(0) =~= Seq::<u8>::empty());
        assert(le_val(Seq::<u8>::empty()) == 0);
        assert(le_val(s.take(1)) == (s.take(1)[0] as nat) + 256 * le_val(s.take(1).skip(1)));
        assert(p256(j as nat) == 1);
        assert(p256(j as nat) * (s[j] as nat) == (s[j] as nat)) by (nonlinear_arith)
            requires
                p256(j as nat) == 1,
        ;
        assert(le_val(s.take(j + 1)) == le_val(s.take(j)) + p256(j as nat) * (s[j] as nat));
    } else {
        let t = s.skip(1);
        lemma_le_val_take_plus(t, j - 1);
        assert(s.take(j + 1).skip(1) =~= t.take(j));
        assert(s.take(j).skip(1) =~= t.take(j - 1));
        assert(s.take(j + 1)[0] == s[0]);
        assert(s.take(j)[0] == s[0]);
        assert(t[j - 1] == s[j]);
        let p = p256((j - 1) as nat);
        let a = le_val(t.take(j - 1));
        let y = s[j] as nat;
        assert(le_val(s.take(j + 1)) == (s[0] as nat) + 256 * le_val(t.take(j)));
        assert(le_val(s.take(j)) == (s[0] as nat) + 256 * a);
        assert(le_val(t.take(j)) == a + p * y);
        assert(p256(j as nat) == 256 * p);
        assert(256 * (a + p * y) == 256 * a + (256 * p) * y) by (nonlinear_arith);
        assert(le_val(s.take(j + 1)) == (s[0] as nat) + 256 * a + (256 * p) * y);
    }
}

proof fn lemma_le_val_push(s: Seq<u8>, c: u8)
    ensures
        le_val(s.push(c)) == le_val(s) + p256(s.len()) * (c as nat),
{
    let w = s.push(c);
    assert(w.take(s.len() as int) =~= s);
    assert(w.take(s.len() as int + 1) =~= w);
    lemma_le_val_take_plus(w, s.len() as int);
}

/// The inner multiply-and-carry step, as one algebraic identity.
proof fn lemma_mul_carry_step(p: nat, a: nat, c: nat, lo: nat, hi: nat, rest: nat, low: nat)
    requires
        58 * a + c == 256 * hi + lo,
    ensures
        low + p * c + p * 58 * (a + 256 * rest) == (low + p * lo) + (256 * p) * hi + (256 * p)
            * 58 * rest,
{
    assert(low + p * c + p * 58 * (a + 256 * rest) == (low + p * lo) + (256 * p) * hi + (256 * p)
        * 58 * rest) by (nonlinear_arith)
        requires
            58 * a + c == 256 * hi + lo,
    ;
}

proof fn lemma_find_digit_small(s: Seq<char>, c: char, i: int)
    requires
        0 <= i,
        s.len() <= 58,
    ensures
        spec_find_digit(s, c, i) is Some ==> (spec_find_digit(s, c, i).unwrap() as int)
            < s.len(),
    decreases s.len() - i,
{
    if i < s.len() && s[i] != c {
        lemma_find_digit_small(s, c, i + 1);
    }
}

proof fn lemma_digit_small(c: char)
    requires
        digit_of(c) is Some,
    ensures
        digit_of(c).unwrap() < 58,
{
    reveal_strlit("123456789ABCDEFGHJKLMNPQRSTUVWXYZabcdefghijkmnopqrstuvwxyz");
    lemma_find_digit_small(alphabet(), c, 0);
}

proof fn lemma_alphabet_distinct()
    ensures
        alphabet().len() == 58,
        forall|p: int, q: int| 0 <= p < q < 58 ==> alphabet()[p] != alphabet()[q],
{
    reveal_strlit("123456789ABCDEFGHJKLMNPQRSTUVWXYZabcdefghijkmnopqrstuvwxyz");
}

proof fn lemma_find_digit_finds(s: Seq<char>, c: char, i: int, d: int)
    requires
        0 <= i <= d < s.len(),
        s.len() <= 58,
        s[d] == c,
        forall|p: int, q: int| 0 <= p < q < s.len() ==> s[p] != s[q],
    ensures
        spec_find_digit(s, c, i) == Some(d as u8),
    decreases d - i,
{
    if s[i] == c {
        if i != d {
            assert(s[i] != s[d]);
        }
    } else {
        lemma_find_digit_finds(s, c, i + 1, d);
    }
}

proof fn lemma_digit_of_alphabet(d: u8)
    requires
        d < 58,
    ensures
        digit_of(alphabet()[d as int]) == Some(d),
{
    lemma_alphabet_distinct();
    lemma_find_digit_finds(alphabet(), alphabet()[d as int], 0, d as int);
}

/// Law: decoding any string that holds a character outside the alphabet fails
/// with `InvalidCharacter`.
pub proof fn lemma_decode_foreign_char(s: Seq<char>, i: int)
    requires
        0 <= i < s.len(),
        !alphabet().contains(s[i]),
    ensures
        decode_spec(s) == Result::<i64, DecodeError>::Err(DecodeError::InvalidCharacter),
{
    lemma_alphabet_distinct();
    if digit_of(s[i]) is Some {
        lemma_find_digit_small(alphabet(), s[i], 0);
        let d = digit_of(s[i]).unwrap();
        lemma_find_digit_props_some(alphabet(), s[i], 0);
        assert(alphabet()[d as int] == s[i]);
        assert(alphabet().contains(s[i]));
    }
    assert(!all_valid_chars(s));
}

proof fn lemma_find_digit_props_some(s: Seq<char>, c: char, i: int)
    requires
        0 <= i <= s.len(),
        s.len() <= 58,
        spec_find_digit(s, c, i) is Some,
    ensures
        s[spec_find_digit(s, c, i).unwrap() as int] == c,
    decreases s.len() - i,
{
    if i < s.len() && s[i] != c {
        lemma_find_digit_props_some(s, c, i + 1);
    }
}

/// Law: a key holds only characters of the 58-character alphabet, which is
/// what makes it URL-safe.
pub proof fn lemma_encode_uses_alphabet(x: i64)
    ensures
        forall|i: int|
            0 <= i < encode_spec(x).len() ==> alphabet().contains(#[trigger] encode_spec(x)[i]),
{
    let b = le_bytes_of((x as u64) as nat, 8);
    let z = leading_zeros(b);
    let dsn = b58_digits(be_val(b));
    lemma_b58_digits_all_small(be_val(b));
    lemma_alphabet_distinct();
    assert(alphabet()[0] == '1') by {
        reveal_strlit("123456789ABCDEFGHJKLMNPQRSTUVWXYZabcdefghijkmnopqrstuvwxyz");
    }
    let chars = encode_spec(x);
    assert forall|i: int|
        0 <= i < chars.len() implies alphabet().contains(#[trigger] chars[i]) by {
        if i < z {
            assert(chars[i] == alphabet()[0]);
        } else {
            assert(chars[i] == alphabet()[dsn[i - z] as int]);
        }
    }
}

/// Law: decoding inverts encoding, for every tenant identifier.
pub proof fn lemma_decode_encode(x: i64)
    ensures
        decode_spec(encode_spec(x)) == Result::<i64, DecodeError>::Ok(x),
{
    let n = (x as u64) as nat;
    let b = le_bytes_of(n, 8);
    lemma_le_bytes_len(n, 8);
    let z = leading_zeros(b);
    lemma_leading_zeros_props(b);
    let nv = be_val(b);
    let dsn = b58_digits(nv);
    lemma_b58_digits_all_small(nv);
    lemma_alphabet_distinct();
    let chars = encode_spec(x);
    assert(chars == ones(z) + digit_chars(dsn));
    assert(chars.len() == z + dsn.len());

    // every character parses back to the digit it was made from
    assert(alphabet()[0] == '1') by {
        reveal_strlit("123456789ABCDEFGHJKLMNPQRSTUVWXYZabcdefghijkmnopqrstuvwxyz");
    }
    lemma_digit_of_alphabet(0);
    assert forall|k: int| 0 <= k < chars.len() implies (#[trigger] digit_of(chars[k]))
        is Some by {
        if k < z {
            assert(chars[k] == '1');
        } else {
            assert(chars[k] == alphabet()[dsn[k - z] as int]);
            lemma_digit_of_alphabet(dsn[k - z]);
        }
    }
    assert(all_valid_chars(chars));
    let ds = digits_of_chars(chars);
    assert forall|k: int| 0 <= k < ds.len() implies ds[k] == (zero_bytes(z) + dsn)[k] by {
        if k < z {
            assert(chars[k] == '1');
            assert(digit_of(chars[k]) == Some(0u8));
        } else {
            assert(chars[k] == alphabet()[dsn[k - z] as int]);
            lemma_digit_of_alphabet(dsn[k - z]);
        }
    }
    assert(ds =~= zero_bytes(z) + dsn);

    // the decoded byte string is exactly the 8 bytes encoded
    if nv == 0 {
        lemma_be_val_zero(b);
        lemma_leading_zeros_char(ds, ds.len() as int);
        assert(dsn == Seq::<u8>::empty());
        assert(ds.len() == z);
        lemma_b58_val_zeros(z);
        assert(b58_val(zero_bytes(z)) == 0);
        assert(b58_val(ds) == 0);
        assert(le_min_bytes(0) == Seq::<u8>::empty());
        assert(leading_zeros(ds) == ds.len());
        assert(decoded_bytes(ds) =~= zero_bytes(z));
        assert(z == 8) by {
            lemma_leading_zeros_char(b, 8);
        }
        assert(decoded_bytes(ds) =~= b);
    } else {
        lemma_b58_digits_first_nonzero(nv);
        if z == 8 {
            lemma_be_val_skip_zeros(b, 8);
            assert(b.skip(8) =~= Seq::<u8>::empty());
            assert(be_val(b) == 0);
        }
        assert(z < 8);
        assert(ds[z as int] == dsn[0]);
        lemma_leading_zeros_char(ds, z as int);
        lemma_b58_val_zero_prefix(z, dsn);
        lemma_b58_val_of_digits(nv);
        assert(b58_val(ds) == nv);
        let tail = b.skip(z as int);
        let rev = tail.reverse();
        assert(rev.len() == 8 - z);
        assert(rev.last() == tail[0]);
        assert(tail[0] == b[z as int]);
        assert(b[z as int] != 0);
        lemma_le_val_reverse(tail);
        lemma_be_val_skip_zeros(b, z as int);
        assert(le_val(rev) == nv);
        lemma_le_min_unique(rev);
        assert(le_min_bytes(b58_val(ds)) == rev);
        assert(rev.reverse() =~= tail);
        assert(decoded_bytes(ds) =~= zero_bytes(z) + tail);
        assert(decoded_bytes(ds) =~= b);
    }
    let bytes = decoded_bytes(ds);
    assert(bytes == b);
    assert(bytes.len() == 8);
    assert(bytes.take(8) =~= b);
    lemma_p256_8();
    lemma_le_val_of_le_bytes(n, 8);
    assert(le_val(bytes.take(8)) == n);
    assert(le_val(bytes.take(8)) as u64 == x as u64);
    assert((x as u64) as i64 == x) by (bit_vector);
    assert(decode_spec(chars) == Result::<i64, DecodeError>::Ok(x));
}

/// Encode a tenant identifier as its opaque key string.
pub fn encode(x: i64) -> (r: String)
    ensures
        r@ == encode_spec(x),
{
    let n: u64 = x as u64;
    let ghost gn: nat = n as nat;

    // the 8 little-endian bytes of the identifier
    let mut bytes: Vec<u8> = Vec::new();
    let mut m: u64 = n;
    let mut i: usize = 0;
    proof {
        assert(bytes@ + le_bytes_of(gn, 8) =~= le_bytes_of(gn, 8));
    }
    while i < 8
        invariant
            i <= 8,
            bytes@.len() == i,
            bytes@ + le_bytes_of(m as nat, (8 - i) as nat) == le_bytes_of(gn, 8),
        decreases 8 - i,
    {
        proof {
            let whole = bytes@ + le_bytes_of(m as nat, (8 - i) as nat);
            assert(le_bytes_of(m as nat, (8 - i) as nat) == seq![(m as nat % 256) as u8]
                + le_bytes_of(m as nat / 256, (8 - i - 1) as nat));
            assert(bytes@.push((m % 256) as u8) + le_bytes_of(m as nat / 256, (8 - i - 1) as nat)
                =~= whole);
        }
        bytes.push((m % 256) as u8);
        m = m / 256;
        i += 1;
    }
    let ghost b = bytes@;
    proof {
        assert(le_bytes_of(m as nat, 0) == Seq::<u8>::empty());
        assert(b =~= b + Seq::<u8>::empty());
        assert(b == le_bytes_of(gn, 8));
        lemma_le_bytes_len(gn, 8);
    }

    // leading zero bytes become leading '1' characters
    let mut z: usize = 0;
    while z < 8 && bytes[z] == 0
        invariant
            z <= 8,
            bytes@ == b,
            b.len() == 8,
            forall|k: int| 0 <= k < z ==> b[k] == 0,
        decreases 8 - z,
    {
        z += 1;
    }
    proof {
        lemma_leading_zeros_char(b, z as int);
    }

    // the big-endian value of the byte string
    let mut nval: u64 = 0;
    let mut i: usize = 0;
    proof {
        assert(b.take(0) =~= Seq::<u8>::empty());
        lemma_p256_8();
    }
    while i < 8
        invariant
            i <= 8,
            bytes@ == b,
            b.len() == 8,
            nval as nat == be_val(b.take(i as int)),
            (nval as nat) < p256(i as nat),
            p256(8) == 0x1_0000_0000_0000_0000,
        decreases 8 - i,
    {
        proof {
            let t = b.take(i + 1);
            assert(t.take(i as int) =~= b.take(i as int));
            assert(t.last() == b[i as int]);
            assert((nval as nat) * 256 + (b[i as int] as nat) < p256((i + 1) as nat))
                by (nonlinear_arith)
                requires
                    (nval as nat) < p256(i as nat),
                    b[i as int] < 256,
                    p256((i + 1) as nat) == 256 * p256(i as nat),
            ;
            lemma_p256_mono((i + 1) as nat, 8);
        }
        nval = nval * 256 + (bytes[i] as u64);
        i += 1;
    }
    proof {
        assert(b.take(8) =~= b);
    }

    // the base-58 digits of that value, least significant first
    let mut rev_digits: Vec<u8> = Vec::new();
    let mut v: u64 = nval;
    proof {
        let s0 = Seq::new(0, |t: int| 0u8);
        assert(b58_digits(nval as nat) + s0 =~= b58_digits(nval as nat));
    }
    while v > 0
        invariant
            b58_digits(nval as nat) == b58_digits(v as nat) + Seq::new(
                rev_digits@.len(),
                |t: int| rev_digits@[rev_digits@.len() - 1 - t],
            ),
        decreases v,
    {
        proof {
            let old_rev = rev_digits@;
            let old_s = Seq::new(old_rev.len(), |t: int| old_rev[old_rev.len() - 1 - t]);
            let d = (v as nat % 58) as u8;
            let new_rev = old_rev.push(d);
            let new_s = Seq::new(new_rev.len(), |t: int| new_rev[new_rev.len() - 1 - t]);
            assert(new_s =~= seq![d] + old_s);
            assert(b58_digits(v as nat) == b58_digits(v as nat / 58).push(d));
            assert(b58_digits(v as nat) + old_s =~= b58_digits(v as nat / 58) + new_s);
        }
        rev_digits.push((v % 58) as u8);
        v = v / 58;
    }
    let ghost ds = b58_digits(nval as nat);
    proof {
        assert(b58_digits(0) == Seq::<u8>::empty());
        assert(ds =~= Seq::new(
            rev_digits@.len(),
            |t: int| rev_digits@[rev_digits@.len() - 1 - t],
        ));
        lemma_b58_digits_all_small(nval as nat);
    }

    // assemble the key characters
    let dcount: usize = rev_digits.len();
    let mut out: Vec<char> = Vec::new();
    let mut k: usize = 0;
    while k < z
        invariant
            k <= z,
            out@ == ones(k as nat),
        decreases z - k,
    {
        proof {
            assert(out@.push('1') =~= ones((k + 1) as nat));
        }
        out.push('1');
        k += 1;
    }
    let mut j: usize = dcount;
    proof {
        assert(digit_chars(ds.take(0)) =~= Seq::<char>::empty());
        assert(out@ =~= ones(z as nat) + digit_chars(ds.take(0)));
    }
    while j > 0
        invariant
            j <= dcount,
            dcount == rev_digits@.len(),
            ds.len() == dcount,
            ds =~= Seq::new(rev_digits@.len(), |t: int| rev_digits@[rev_digits@.len() - 1 - t]),
            forall|t: int| 0 <= t < ds.len() ==> (#[trigger] ds[t]) < 58,
            out@ == ones(z as nat) + digit_chars(ds.take(dcount - j)),
        decreases j,
    {
        let d = rev_digits[j - 1];
        proof {
            assert(ds[dcount - j] == d);
        }
        let c = alphabet_char(d);
        proof {
            let q = dcount - j;
            assert(digit_chars(ds.take(q + 1)) =~= digit_chars(ds.take(q as int)).push(
                alphabet()[ds[q as int] as int],
            ));
            assert(out@.push(c) =~= ones(z as nat) + digit_chars(ds.take(q + 1)));
        }
        out.push(c);
        j -= 1;
    }
    proof {
        assert(ds.take(dcount as int) =~= ds);
        assert(out@ == ones(leading_zeros(b)) + digit_chars(b58_digits(be_val(b))));
        assert(out@ == encode_spec(x));
    }
    crate::text::string_from_chars(&out)
}

/// Decode a key string back to the tenant identifier it encodes.
///
/// Fails with `InvalidCharacter` on a character outside the alphabet and with
/// `TooShort` when the string decodes to fewer than 8 bytes; extra decoded
/// bytes beyond the first 8 are ignored.
pub fn decode(key: &str) -> (r: Result<i64, DecodeError>)
    ensures
        r == decode_spec(key@),
{
    let chars: Vec<char> = crate::text::chars_of(key);
    let clen: usize = chars.len();

    // digit values; reject a character outside the alphabet
    let mut digits: Vec<u8> = Vec::new();
    let mut i: usize = 0;
    while i < clen
        invariant
            i <= clen,
            clen == chars@.len(),
            chars@ == key@,
            digits@.len() == i,
            forall|k: int| 0 <= k < i ==> (#[trigger] digit_of(key@[k])) is Some,
            forall|k: int| 0 <= k < i ==> digits@[k] == digit_of(key@[k]).unwrap(),
        decreases clen - i,
    {
        match digit_of_char(chars[i]) {
            Some(d) => {
                digits.push(d);
            },
            None => {
                proof {
                    assert(!all_valid_chars(key@));
                }
                return Err(DecodeError::InvalidCharacter);
            },
        }
        i += 1;
    }
    let ghost ds = digits_of_chars(key@);
    proof {
        assert(all_valid_chars(key@));
        assert(digits@ =~= ds);
        assert forall|k: int| 0 <= k < ds.len() implies (#[trigger] ds[k]) < 58 by {
            lemma_digit_small(key@[k]);
        }
    }

    // leading zero digits stand for leading zero bytes
    let mut z: usize = 0;
    while z < clen && digits[z] == 0
        invariant
            z <= clen,
            digits@ == ds,
            ds.len() == clen,
            forall|k: int| 0 <= k < z ==> ds[k] == 0,
        decreases clen - z,
    {
        z += 1;
    }
    proof {
        lemma_leading_zeros_char(ds, z as int);
    }

    // little-endian bytes of the digits' base-58 value
    let mut acc: Vec<u8> = Vec::new();
    let mut i: usize = 0;
    proof {
        assert(ds.take(0) =~= Seq::<u8>::empty());
    }
    while i < clen
        invariant
            i <= clen,
            digits@ == ds,
            ds.len() == clen,
            forall|k: int| 0 <= k < ds.len() ==> (#[trigger] ds[k]) < 58,
            le_val(acc@) == b58_val(ds.take(i as int)),
            acc@.len() == 0 || acc@.last() != 0,
        decreases clen - i,
    {
        let d = digits[i];
        let ghost acc0 = acc@;
        let alen: usize = acc.len();
        let mut carry: u32 = d as u32;
        let mut j: usize = 0;
        proof {
            assert(acc@.take(0) =~= Seq::<u8>::empty());
            assert(acc0.skip(0) =~= acc0);
            assert(le_val(Seq::<u8>::empty()) == 0);
            assert(p256(0) == 1);
            assert(le_val(acc@.take(0)) + p256(0) * (carry as nat) + p256(0) * 58 * le_val(
                acc0.skip(0),
            ) == 58 * le_val(acc0) + (d as nat));
        }
        while j < alen
            invariant
                j <= alen,
                alen == acc0.len(),
                acc@.len() == alen,
                carry <= 57,
                forall|t: int| j <= t < alen ==> acc@[t] == acc0[t],
                le_val(acc@.take(j as int)) + p256(j as nat) * (carry as nat) + p256(j as nat)
                    * 58 * le_val(acc0.skip(j as int)) == 58 * le_val(acc0) + (d as nat),
                acc0.len() == 0 || acc0.last() != 0,
                j == alen && alen > 0 ==> carry > 0 || acc@[alen - 1] != 0,
            decreases alen - j,
        {
            let t: u32 = (acc[j] as u32) * 58 + carry;
            let lo: u8 = (t % 256) as u8;
            let hi: u32 = t / 256;
            proof {
                let ghost_acc = acc@;
                let newacc = ghost_acc.update(j as int, lo);
                assert(newacc.take(j as int) =~= ghost_acc.take(j as int));
                // unfold the remaining suffix by one element
                assert(acc0.skip(j as int)[0] == acc0[j as int]);
                assert(acc0.skip(j as int).skip(1) =~= acc0.skip(j + 1));
                assert(le_val(acc0.skip(j as int)) == (acc0[j as int] as nat) + 256 * le_val(
                    acc0.skip(j + 1),
                ));
                vstd::arithmetic::div_mod::lemma_fundamental_div_mod(t as int, 256);
                lemma_mul_carry_step(
                    p256(j as nat),
                    acc0[j as int] as nat,
                    carry as nat,
                    lo as nat,
                    hi as nat,
                    le_val(acc0.skip(j + 1)),
                    le_val(ghost_acc.take(j as int)),
                );
                lemma_le_val_take_plus(newacc, j as int);
                assert(newacc[j as int] == lo);
                if j + 1 == alen && alen > 0 {
                    // last byte: the new digit cannot vanish entirely
                    assert(acc0[alen - 1] != 0);
                    assert(t >= 58);
                }
            }
            acc.set(j, lo);
            carry = hi;
            j += 1;
        }
        proof {
            assert(acc@.take(alen as int) =~= acc@);
            assert(acc0.skip(alen as int) =~= Seq::<u8>::empty());
            assert(le_val(Seq::<u8>::empty()) == 0);
            assert(le_val(acc0.skip(alen as int)) == 0);
            assert(p256(alen as nat) * 58 * le_val(acc0.skip(alen as int)) == 0)
                by (nonlinear_arith)
                requires
                    le_val(acc0.skip(alen as int)) == 0,
            ;
            assert(le_val(acc@.take(alen as int)) == le_val(acc@));
            assert(le_val(acc@) + p256(alen as nat) * (carry as nat) == 58 * le_val(acc0) + (
            d as nat));
        }
        if carry > 0 {
            proof {
                lemma_le_val_push(acc@, (carry % 256) as u8);
                assert((carry % 256) as u8 as nat == carry as nat);
            }
            acc.push((carry % 256) as u8);
            proof {
                assert(le_val(acc@) == 58 * le_val(acc0) + (d as nat));
                assert(acc@.last() == (carry % 256) as u8);
            }
        }
        proof {
            assert(le_val(acc@) == 58 * le_val(acc0) + (d as nat));
            assert(ds.take(i + 1).take(i as int) =~= ds.take(i as int));
            assert(ds.take(i + 1).last() == ds[i as int]);
            assert(b58_val(ds.take(i + 1)) == b58_val(ds.take(i as int)) * 58 + (ds[i as int]
                as nat));
        }
        i += 1;
    }
    proof {
        assert(ds.take(clen as int) =~= ds);
        lemma_le_min_unique(acc@);
    }
    let ghost whole = decoded_bytes(ds);
    let alen: usize = acc.len();
    proof {
        assert(le_min_bytes(b58_val(ds)) == acc@);
        assert(whole.len() == z + alen);
    }

    if z < 8 && alen < 8 - z {
        return Err(DecodeError::TooShort);
    }

    // the first 8 decoded bytes, little-endian
    let mut out8: Vec<u8> = Vec::new();
    let mut k: usize = 0;
    while k < 8
        invariant
            k <= 8,
            alen == acc@.len(),
            whole == zero_bytes(z as nat) + acc@.reverse(),
            whole.len() == z + alen,
            z + alen >= 8,
            out8@.len() == k,
            forall|t: int| 0 <= t < k ==> out8@[t] == whole[t],
        decreases 8 - k,
    {
        if k < z {
            proof {
                assert(whole[k as int] == 0);
            }
            out8.push(0);
        } else {
            proof {
                assert(whole[k as int] == acc@.reverse()[k - z]);
                assert(acc@.reverse()[k - z] == acc@[alen - 1 - (k - z)]);
            }
            out8.push(acc[alen - 1 - (k - z)]);
        }
        k += 1;
    }
    proof {
        assert(out8@ =~= whole.take(8));
        lemma_p256_8();
    }

    // read those bytes as the identifier
    let mut val: u64 = 0;
    let mut k: usize = 8;
    proof {
        assert(out8@.skip(8) =~= Seq::<u8>::empty());
    }
    while k > 0
        invariant
            k <= 8,
            out8@.len() == 8,
            out8@ == whole.take(8),
            val as nat == le_val(out8@.skip(k as int)),
            p256(8) == 0x1_0000_0000_0000_0000,
        decreases k,
    {
        k -= 1;
        proof {
            let s = out8@.skip(k as int);
            assert(s[0] == out8@[k as int]);
            assert(s.skip(1) =~= out8@.skip(k + 1));
            lemma_le_val_bound(s);
            lemma_p256_mono(s.len() as nat, 8);
        }
        val = val * 256 + (out8[k] as u64);
    }
    proof {
        assert(out8@.skip(0) =~= out8@);
        assert(le_val(whole.take(8)) as u64 == val);
    }
    Ok(val as i64)
}

} // verus!
