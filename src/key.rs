//! Slot keys: fixed-width lowercase hexadecimal, so that lexical key order
//! is numeric slot order.

use vstd::prelude::*;

verus! {

/// The sixteen lowercase hexadecimal digits, by value.
pub open spec fn hex_alphabet() -> Seq<char> {
    seq!['0', '1', '2', '3', '4', '5', '6', '7', '8', '9', 'a', 'b', 'c', 'd', 'e', 'f']
}

/// The last `n` hexadecimal digits of `v`, most significant first.
pub open spec fn hex_key(v: nat, n: nat) -> Seq<char>
    decreases n,
{
    if n == 0 {
        Seq::empty()
    } else {
        hex_key(v / 16, (n - 1) as nat).push(hex_alphabet()[(v % 16) as int])
    }
}

/// The key of a slot: sixteen zero-padded lowercase hexadecimal digits.
pub open spec fn spec_slot_to_key(slot: u64) -> Seq<char> {
    hex_key(slot as nat, 16)
}

/// The value of a hexadecimal digit in either case, or -1 for any other character.
pub open spec fn digit_value(c: char) -> int {
    let u = c as u32;
    if 48 <= u && u <= 57 {
        u - 48
    } else if 97 <= u && u <= 102 {
        u - 87
    } else if 65 <= u && u <= 70 {
        u - 55
    } else {
        -1
    }
}

pub open spec fn all_hex(s: Seq<char>) -> bool {
    forall|i: int| 0 <= i < s.len() ==> digit_value(#[trigger] s[i]) >= 0
}

/// The number that a string of hexadecimal digits denotes.
pub open spec fn hex_value(s: Seq<char>) -> nat
    decreases s.len(),
{
    if s.len() == 0 {
        0
    } else {
        hex_value(s.drop_last()) * 16 + digit_value(s.last()) as nat
    }
}

/// Sixteen to the power `n`.
pub open spec fn pow16(n: nat) -> nat
    decreases n,
{
    if n == 0 {
        1
    } else {
        16 * pow16((n - 1) as nat)
    }
}

/// The slot that a key denotes: the key is one or more hexadecimal digits,
/// of either case and nothing else, with a value that fits in 64 bits.
pub open spec fn spec_key_to_slot(s: Seq<char>) -> Option<u64> {
    if s.len() > 0 && all_hex(s) && hex_value(s) <= u64::MAX {
        Some(hex_value(s) as u64)
    } else {
        None
    }
}

/// Strict lexical order on strings.
pub open spec fn lex_less(a: Seq<char>, b: Seq<char>) -> bool {
    (exists|i: int|
        0 <= i < a.len() && i < b.len() && a.take(i) == b.take(i) && (a[i] as u32) < (b[i] as u32))
        || (a.len() < b.len() && b.take(a.len() as int) == a)
}

/// The last `n` hexadecimal digits of `v`, built as `hex_key` states them.
fn hex_key_exec(v: u64, n: usize) -> (r: String)
    ensures
        r@ == hex_key(v as nat, n as nat),
    decreases n,
{
    if n == 0 {
        let r = String::from_str("");
        proof {
            reveal_strlit("");
        }
        r
    } else {
        let mut r = hex_key_exec(v / 16, n - 1);
        let digits = String::from_str("0123456789abcdef");
        proof {
            reveal_strlit("0123456789abcdef");
            assert(digits@ =~= hex_alphabet());
        }
        let d: usize = (v % 16) as usize;
        let one = digits.as_str().substring_char(d, d + 1);
        r.append(one);
        proof {
            assert(one@ =~= seq![hex_alphabet()[d as int]]);
            assert(r@ =~= hex_key((v / 16) as nat, (n - 1) as nat).push(hex_alphabet()[(v % 16) as int]));
        }
        r
    }
}

/// Formats a slot as its key.
pub fn slot_to_key(slot: u64) -> (r: String)
    ensures
        r@ == spec_slot_to_key(slot),
{
    hex_key_exec(slot, 16)
}

/// The value of one hexadecimal digit of either case, if `c` is one.
fn char_digit(c: char) -> (r: Option<u64>)
    ensures
        r is Some <==> digit_value(c) >= 0,
        r matches Some(x) ==> x == digit_value(c),
{
    let u = c as u32;
    if 48 <= u && u <= 57 {
        Some((u - 48) as u64)
    } else if 97 <= u && u <= 102 {
        Some((u - 87) as u64)
    } else if 65 <= u && u <= 70 {
        Some((u - 55) as u64)
    } else {
        None
    }
}

/// Parses a key back into its slot; a key that is not hexadecimal, or too
/// large for a slot, is absent rather than an error.
pub fn key_to_slot(key: &str) -> (r: Option<u64>)
    ensures
        r == spec_key_to_slot(key@),
{
    let len = key.unicode_len();
    let ghost d = key@;
    assert(d =~= key@.subrange(0, len as int));
    if len == 0 {
        return None;
    }
    let mut i: usize = 0;
    let mut acc: u64 = 0;
    let mut over = false;
    while i < len
        invariant
            0 <= i <= len,
            0 < len,
            len == key@.len(),
            d == key@.subrange(0, len as int),
            d == key@,
            all_hex(key@.subrange(0, i as int)),
            !over ==> acc == hex_value(key@.subrange(0, i as int)),
            over ==> hex_value(key@.subrange(0, i as int)) > u64::MAX,
        decreases len - i,
    {
        let c = key.get_char(i);
        let ghost prev = key@.subrange(0, i as int);
        let ghost next = key@.subrange(0, i + 1);
        assert(next.drop_last() =~= prev);
        assert(next.last() == c);
        match char_digit(c) {
            None => {
                assert(d[i as int] == c);
                assert(digit_value(d[i as int]) < 0);
                assert(!all_hex(d));
                return None;
            },
            Some(x) => {
                assert(all_hex(next)) by {
                    assert forall|k: int| 0 <= k < next.len() implies digit_value(
                        #[trigger] next[k],
                    ) >= 0 by {
                        if k < prev.len() {
                            assert(next[k] == prev[k]);
                        }
                    }
                }
                let ghost hv = hex_value(prev);
                assert(hex_value(next) == hv * 16 + x);
                if over {
                    assert(hv * 16 + x > u64::MAX) by (nonlinear_arith)
                        requires
                            hv > u64::MAX,
                    ;
                } else if acc > (u64::MAX - x) / 16 {
                    over = true;
                    assert(hv * 16 + x > u64::MAX) by (nonlinear_arith)
                        requires
                            hv > (u64::MAX - x) / 16,
                            x < 16,
                    ;
                } else {
                    assert(acc * 16 + x <= u64::MAX) by (nonlinear_arith)
                        requires
                            acc <= (u64::MAX - x) / 16,
                            x < 16,
                    ;
                    acc = acc * 16 + x;
                }
            },
        }
        i = i + 1;
    }
    assert(key@.subrange(0, i as int) =~= d);
    if over {
        None
    } else {
        Some(acc)
    }
}

proof fn lemma_alphabet_digits()
    ensures
        forall|k: int| 0 <= k < 16 ==> digit_value(#[trigger] hex_alphabet()[k]) == k,
        forall|j: int, k: int|
            0 <= j < k < 16 ==> (#[trigger] hex_alphabet()[j] as u32) < (#[trigger] hex_alphabet()[k] as u32),
{
}

proof fn lemma_hex_key_value(v: nat, n: nat)
    requires
        v < pow16(n),
    ensures
        hex_key(v, n).len() == n,
        all_hex(hex_key(v, n)),
        hex_value(hex_key(v, n)) == v,
    decreases n,
{
    lemma_alphabet_digits();
    if n == 0 {
    } else {
        let p = pow16((n - 1) as nat);
        assert(v / 16 < p) by (nonlinear_arith)
            requires
                v < 16 * p,
        ;
        lemma_hex_key_value(v / 16, (n - 1) as nat);
        let k = hex_key(v, n);
        let prev = hex_key(v / 16, (n - 1) as nat);
        assert(k.drop_last() =~= prev);
        assert(all_hex(k)) by {
            assert forall|i: int| 0 <= i < k.len() implies digit_value(#[trigger] k[i]) >= 0 by {
                if i < prev.len() {
                    assert(k[i] == prev[i]);
                }
            }
        }
    }
}

proof fn lemma_hex_key_order(v: nat, w: nat, n: nat)
    requires
        v < w < pow16(n),
    ensures
        exists|i: int|
            0 <= i < n && (#[trigger] hex_key(v, n).take(i)) == hex_key(w, n).take(i) && (hex_key(
                v,
                n,
            )[i] as u32) < (hex_key(w, n)[i] as u32),
    decreases n,
{
    lemma_alphabet_digits();
    lemma_hex_key_value(v, n);
    lemma_hex_key_value(w, n);
    let p = pow16((n - 1) as nat);
    assert(w / 16 < p) by (nonlinear_arith)
        requires
            w < 16 * p,
    ;
    assert(v / 16 <= w / 16) by (nonlinear_arith)
        requires
            v < w,
    ;
    let kv = hex_key(v, n);
    let kw = hex_key(w, n);
    let pv = hex_key(v / 16, (n - 1) as nat);
    let pw = hex_key(w / 16, (n - 1) as nat);
    lemma_hex_key_value(v / 16, (n - 1) as nat);
    lemma_hex_key_value(w / 16, (n - 1) as nat);
    if v / 16 == w / 16 {
        let i = n - 1;
        assert(kv.take(i) =~= pv);
        assert(kw.take(i) =~= pw);
        assert(v % 16 < w % 16);
    } else {
        lemma_hex_key_order(v / 16, w / 16, (n - 1) as nat);
        let i = choose|i: int|
            0 <= i < n - 1 && (#[trigger] pv.take(i)) == pw.take(i) && (pv[i] as u32) < (
            pw[i] as u32);
        assert(kv.take(i) =~= pv.take(i));
        assert(kw.take(i) =~= pw.take(i));
        assert(kv[i] == pv[i]);
        assert(kw[i] == pw[i]);
    }
}

proof fn lemma_pow16_16()
    ensures
        pow16(16) == 0x1_0000_0000_0000_0000,
{
    reveal_with_fuel(pow16, 17);
}

/// A key parses back to the slot it was made from.
pub proof fn lemma_key_round_trip(slot: u64)
    ensures
        spec_key_to_slot(spec_slot_to_key(slot)) == Some(slot),
{
    lemma_pow16_16();
    lemma_hex_key_value(slot as nat, 16);
    lemma_alphabet_digits();
}

/// Keys order as their slots do: a lower slot has a lexically lower key.
pub proof fn lemma_key_order(a: u64, b: u64)
    requires
        a < b,
    ensures
        lex_less(spec_slot_to_key(a), spec_slot_to_key(b)),
{
    lemma_pow16_16();
    lemma_hex_key_order(a as nat, b as nat, 16);
    lemma_hex_key_value(a as nat, 16);
    lemma_hex_key_value(b as nat, 16);
}

/// Keys of complemented slots order in reverse: a higher slot has a
/// lexically lower complemented key, so an ascending scan walks slots downwards.
pub proof fn lemma_complement_key_order(a: u64, b: u64)
    requires
        a < b,
    ensures
        lex_less(spec_slot_to_key(!b), spec_slot_to_key(!a)),
{
    assert(!b < !a) by (bit_vector)
        requires
            a < b,
    ;
    lemma_key_order(!b, !a);
}

/// Every key is sixteen characters long.
pub proof fn lemma_key_length(slot: u64)
    ensures
        spec_slot_to_key(slot).len() == 16,
{
    lemma_pow16_16();
    lemma_hex_key_value(slot as nat, 16);
}

/// A key with a character that is not a hexadecimal digit is absent.
pub proof fn lemma_non_hex_key_absent(s: Seq<char>, i: int)
    requires
        0 <= i < s.len(),
        digit_value(s[i]) < 0,
    ensures
        spec_key_to_slot(s) is None,
{
    assert(!all_hex(s));
}

} // verus!
