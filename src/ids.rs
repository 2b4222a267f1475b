//! Identifiers: twelve lowercase hexadecimal digits drawn at random.
use vstd::prelude::*;

verus! {

/// A lowercase hexadecimal digit.
pub open spec fn is_hex_char(c: char) -> bool {
    ('0' <= c && c <= '9') || ('a' <= c && c <= 'f')
}

/// A string of twelve lowercase hexadecimal digits.
pub open spec fn is_hex_id(s: Seq<char>) -> bool {
    s.len() == 12 && forall|i: int| 0 <= i < 12 ==> is_hex_char(#[trigger] s[i])
}

/// The lowercase hexadecimal digit of a value below sixteen.
pub open spec fn hex_digit_spec(v: u8) -> char {
    if v < 10 { (('0' as u8) + v) as char } else { (('a' as u8) + (v - 10)) as char }
}

fn hex_digit(v: u8) -> (c: char)
    requires
        v < 16,
    ensures
        c == hex_digit_spec(v),
        is_hex_char(c),
{
    if v < 10 { (('0' as u8) + v) as char } else { (('a' as u8) + (v - 10)) as char }
}

/// Relies on `rand::thread_rng` and `RngCore::fill_bytes`: six random bytes.
#[verifier::external_body]
fn random_bytes() -> (r: Vec<u8>)
    ensures
        r@.len() == 6,
{
    let mut bytes = [0u8; 6];
    rand::RngCore::fill_bytes(&mut rand::thread_rng(), &mut bytes);
    bytes.to_vec()
}

/// Relies on `String::push`: appends one character at the end.
#[verifier::external_body]
pub(crate) fn push_char(s: &mut String, c: char)
    ensures
        final(s)@ == old(s)@.push(c),
{
    s.push(c);
}

/// The two hexadecimal digits of each byte, in order.
pub open spec fn hex_of(b: Seq<u8>) -> Seq<char>
    decreases b.len(),
{
    if b.len() == 0 {
        Seq::empty()
    } else {
        hex_of(b.drop_last()).push(hex_digit_spec(b.last() / 16)).push(
            hex_digit_spec(b.last() % 16),
        )
    }
}

/// Lowercase hexadecimal text of some bytes: two digits per byte.
pub fn encode_hex(b: &Vec<u8>) -> (r: String)
    requires
        b@.len() < 1000,
    ensures
        r@ == hex_of(b@),
        r@.len() == 2 * b@.len(),
        forall|i: int| 0 <= i < r@.len() ==> is_hex_char(#[trigger] r@[i]),
{
    let mut s = String::new();
    let mut i: usize = 0;
    while i < b.len()
        invariant
            i <= b@.len(),
            b@.len() < 1000,
            s@ == hex_of(b@.take(i as int)),
            s@.len() == 2 * i,
            forall|k: int| 0 <= k < s@.len() ==> is_hex_char(#[trigger] s@[k]),
        decreases b@.len() - i,
    {
        let hi = hex_digit(b[i] / 16);
        let lo = hex_digit(b[i] % 16);
        push_char(&mut s, hi);
        push_char(&mut s, lo);
        assert(b@.take(i as int + 1).drop_last() =~= b@.take(i as int));
        i = i + 1;
    }
    assert(b@.take(b@.len() as int) =~= b@);
    s
}

/// A fresh random identifier of twelve lowercase hexadecimal digits.
pub fn fresh_id() -> (r: String)
    ensures
        is_hex_id(r@),
{
    let b = random_bytes();
    encode_hex(&b)
}

/// The identifier an entity keeps on load: the one it has, else the one under
/// the legacy key, else a fresh one.
pub fn choose_timeline_id(current: Option<String>, legacy: Option<String>) -> (r: String)
    ensures
        current is Some ==> r == current->Some_0,
        current is None && legacy is Some ==> r == legacy->Some_0,
        current is None && legacy is None ==> is_hex_id(r@),
{
    match current {
        Some(id) => id,
        None => match legacy {
            Some(id) => id,
            None => fresh_id(),
        },
    }
}

/// Sixteen to the power `n`.
pub open spec fn pow16(n: nat) -> nat
    decreases n,
{
    if n == 0 { 1 } else { 16 * pow16((n - 1) as nat) }
}

/// The last `len` hexadecimal digits of `k`, most significant first.
pub open spec fn hex_digits(k: nat, len: nat) -> Seq<char>
    decreases len,
{
    if len == 0 {
        Seq::empty()
    } else {
        hex_digits(k / 16, (len - 1) as nat).push(hex_digit_spec((k % 16) as u8))
    }
}

proof fn lemma_hex_digit_injective(a: u8, b: u8)
    requires
        a < 16,
        b < 16,
        hex_digit_spec(a) == hex_digit_spec(b),
    ensures
        a == b,
{
    assert((hex_digit_spec(a) as u32) == (hex_digit_spec(b) as u32));
}

/// Different numbers below `16^len` have different digits.
pub proof fn lemma_hex_digits_injective(a: nat, b: nat, len: nat)
    requires
        a < pow16(len),
        b < pow16(len),
        hex_digits(a, len) == hex_digits(b, len),
    ensures
        a == b,
    decreases len,
{
    if len > 0 {
        let l1 = (len - 1) as nat;
        assert(hex_digits(a, len).last() == hex_digit_spec((a % 16) as u8));
        assert(hex_digits(b, len).last() == hex_digit_spec((b % 16) as u8));
        lemma_hex_digit_injective((a % 16) as u8, (b % 16) as u8);
        assert(hex_digits(a, len).drop_last() =~= hex_digits(a / 16, l1));
        assert(hex_digits(b, len).drop_last() =~= hex_digits(b / 16, l1));
        assert(a / 16 < pow16(l1)) by (nonlinear_arith)
            requires
                a < 16 * pow16(l1),
        ;
        assert(b / 16 < pow16(l1)) by (nonlinear_arith)
            requires
                b < 16 * pow16(l1),
        ;
        lemma_hex_digits_injective(a / 16, b / 16, l1);
        assert(a == 16 * (a / 16) + a % 16) by (nonlinear_arith);
        assert(b == 16 * (b / 16) + b % 16) by (nonlinear_arith);
    }
}

proof fn lemma_hex_digits_shape(k: nat, len: nat)
    ensures
        hex_digits(k, len).len() == len,
        forall|i: int| 0 <= i < len ==> is_hex_char(#[trigger] hex_digits(k, len)[i]),
    decreases len,
{
    if len > 0 {
        lemma_hex_digits_shape(k / 16, (len - 1) as nat);
        let v = (k % 16) as u8;
        assert(is_hex_char(hex_digit_spec(v))) by {
            assert(v < 16);
        }
    }
}

/// The last `len` hexadecimal digits of `k`.
fn number_digits(k: u64, len: u64) -> (r: String)
    requires
        len <= 12,
    ensures
        r@ == hex_digits(k as nat, len as nat),
    decreases len,
{
    if len == 0 {
        String::new()
    } else {
        let mut s = number_digits(k / 16, len - 1);
        let c = hex_digit((k % 16) as u8);
        push_char(&mut s, c);
        s
    }
}

/// The identifier made of the twelve hexadecimal digits of `k`.
pub fn number_id(k: u64) -> (r: String)
    ensures
        r@ == hex_digits(k as nat, 12),
        is_hex_id(r@),
{
    let r = number_digits(k, 12);
    proof {
        lemma_hex_digits_shape(k as nat, 12);
    }
    r
}

} // verus!
