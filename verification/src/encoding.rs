//! The canonical encoding: the one way in which each value is written as
//! bytes, and read back from them.

use vstd::prelude::*;
use vstd::bytes::lemma_auto_spec_u64_to_from_le_bytes;
use vstd::bytes::spec_u64_from_le_bytes;
use vstd::bytes::spec_u64_to_le_bytes;
use vstd::bytes::u64_from_le_bytes;
use vstd::bytes::u64_to_le_bytes;
use vstd::slice::slice_subrange;

verus! {

/// Appends `bytes` to `buf`.
pub fn append_bytes(buf: &mut Vec<u8>, bytes: &[u8])
    ensures
        final(buf)@ == old(buf)@ + bytes@,
{
    let n = bytes.len();
    let mut i: usize = 0;
    while i < n
        invariant
            i <= n,
            n == bytes@.len(),
            buf@ == old(buf)@ + bytes@.subrange(0, i as int),
        decreases n - i,
    {
        buf.push(bytes[i]);
        assert(bytes@.subrange(0, i + 1) =~= bytes@.subrange(0, i as int).push(bytes@[i as int]));
        i += 1;
    }
    assert(bytes@.subrange(0, n as int) =~= bytes@);
}

/// A vector that holds `bytes`.
pub fn bytes_to_vec(bytes: &[u8]) -> (v: Vec<u8>)
    ensures
        v@ == bytes@,
{
    let mut v: Vec<u8> = Vec::new();
    append_bytes(&mut v, bytes);
    v
}

/// Whether two byte strings are the same.
pub fn slices_equal(a: &[u8], b: &[u8]) -> (r: bool)
    ensures
        r == (a@ == b@),
{
    if a.len() != b.len() {
        return false;
    }
    let n = a.len();
    let mut i: usize = 0;
    while i < n
        invariant
            i <= n,
            n == a@.len(),
            n == b@.len(),
            forall|j: int| 0 <= j < i ==> a@[j] == b@[j],
        decreases n - i,
    {
        if a[i] != b[i] {
            return false;
        }
        i += 1;
    }
    assert(a@ =~= b@);
    true
}

/// A length as the canonical encoding writes it: seven bits to a byte, the
/// low bits first, and the top bit of a byte set when more bytes follow.
pub open spec fn uleb128(n: nat) -> Seq<u8>
    decreases n,
{
    if n < 128 {
        seq![n as u8]
    } else {
        seq![(128 + n % 128) as u8] + uleb128(n / 128)
    }
}

/// Appends the encoding of the length `n` to `buf`.
pub fn write_uleb128(buf: &mut Vec<u8>, n: usize)
    ensures
        final(buf)@ == old(buf)@ + uleb128(n as nat),
{
    let mut rest: usize = n;
    while rest >= 128
        invariant
            old(buf)@ + uleb128(n as nat) == buf@ + uleb128(rest as nat),
        decreases rest,
    {
        let ghost before = buf@;
        let low: usize = rest % 128;
        buf.push((128 + low) as u8);
        proof {
            assert(uleb128(rest as nat) == seq![(128 + rest % 128) as u8] + uleb128(
                (rest / 128) as nat,
            ));
            assert(before + (seq![(128 + rest % 128) as u8] + uleb128((rest / 128) as nat))
                =~= before.push((128 + low) as u8) + uleb128((rest / 128) as nat));
        }
        rest = rest / 128;
    }
    let ghost before = buf@;
    buf.push(rest as u8);
    assert(before + uleb128(rest as nat) =~= before.push(rest as u8));
}

/// An integer as the canonical encoding writes it: eight bytes, the lowest first.
pub open spec fn u64_le(x: u64) -> Seq<u8> {
    spec_u64_to_le_bytes(x)
}

/// Appends the eight bytes of `x` to `buf`.
pub fn write_u64(buf: &mut Vec<u8>, x: u64)
    ensures
        final(buf)@ == old(buf)@ + u64_le(x),
{
    let bytes = u64_to_le_bytes(x);
    append_bytes(buf, bytes.as_slice());
}

/// A truth value as the canonical encoding writes it: one byte, 1 or 0.
pub open spec fn bool_byte(b: bool) -> Seq<u8> {
    if b {
        seq![1u8]
    } else {
        seq![0u8]
    }
}

/// Appends the byte of `b` to `buf`.
pub fn write_bool(buf: &mut Vec<u8>, b: bool)
    ensures
        final(buf)@ == old(buf)@ + bool_byte(b),
{
    let ghost before = buf@;
    if b {
        buf.push(1u8);
        assert(before + bool_byte(b) =~= before.push(1u8));
    } else {
        buf.push(0u8);
        assert(before + bool_byte(b) =~= before.push(0u8));
    }
}

/// The greatest number of bytes that an encoded length takes.
pub const ULEB128_MAX_BYTES: usize = 10;

/// The length that stands at the start of `s`, and the number of bytes that
/// it takes, read from at most `budget` bytes. There is none where `s` ends
/// too early, and none where the last byte is a zero that could be left out:
/// every length is written in one way only.
pub open spec fn uleb128_parse(s: Seq<u8>, budget: nat) -> Option<(nat, nat)>
    decreases budget,
{
    if budget == 0 || s.len() == 0 {
        None
    } else if s[0] < 128 {
        Some((s[0] as nat, 1nat))
    } else {
        match uleb128_parse(s.drop_first(), (budget - 1) as nat) {
            None => None,
            Some((high, taken)) => if high == 0 {
                None
            } else {
                Some((((s[0] - 128) + 128 * high) as nat, taken + 1))
            },
        }
    }
}

/// The length at the start of `s` that a `usize` can hold.
pub open spec fn length_parse(s: Seq<u8>) -> Option<(nat, nat)> {
    match uleb128_parse(s, ULEB128_MAX_BYTES as nat) {
        Some((n, taken)) => if n <= usize::MAX {
            Some((n, taken))
        } else {
            None
        },
        None => None,
    }
}

/// The integer at the start of `s`.
pub open spec fn u64_parse(s: Seq<u8>) -> Option<(u64, nat)> {
    if s.len() >= 8 {
        Some((spec_u64_from_le_bytes(s.subrange(0, 8)), 8nat))
    } else {
        None
    }
}

/// The truth value at the start of `s`.
pub open spec fn bool_parse(s: Seq<u8>) -> Option<(bool, nat)> {
    if s.len() >= 1 && s[0] == 0 {
        Some((false, 1nat))
    } else if s.len() >= 1 && s[0] == 1 {
        Some((true, 1nat))
    } else {
        None
    }
}

/// The `n` bytes at the start of `s`.
pub open spec fn fixed_parse(s: Seq<u8>, n: nat) -> Option<(Seq<u8>, nat)> {
    if s.len() >= n {
        Some((s.subrange(0, n as int), n))
    } else {
        None
    }
}

/// The value that a byte string of `len` bytes decodes to, where `parsed`
/// stands at its start: the value read, if nothing follows it.
pub open spec fn whole_input<T>(parsed: Option<(T, nat)>, len: nat) -> Option<T> {
    match parsed {
        Some((v, taken)) => if taken == len {
            Some(v)
        } else {
            None
        },
        None => None,
    }
}

/// Whether `r` is what a reader gives that started at place `pos` of `len`
/// bytes, where `parsed` stands at that place: the same value, and the place
/// behind it.
pub open spec fn read_is<T>(r: Option<(T, usize)>, parsed: Option<(T, nat)>, pos: usize, len: nat) -> bool {
    match parsed {
        Some((v, taken)) => r matches Some((x, end)) && x == v && end == pos + taken && end <= len,
        None => r is None,
    }
}

/// A length as the `usize` that holds it.
pub open spec fn length_as_usize(parsed: Option<(nat, nat)>) -> Option<(usize, nat)> {
    match parsed {
        Some((n, taken)) => Some((n as usize, taken)),
        None => None,
    }
}

fn read_uleb128(b: &[u8], pos: usize, budget: usize) -> (r: Option<(u64, usize)>)
    requires
        pos <= b@.len(),
    ensures
        match uleb128_parse(b@.skip(pos as int), budget as nat) {
            Some((n, taken)) => if n <= u64::MAX {
                r matches Some((x, end)) && x == n && end == pos + taken && end <= b@.len()
            } else {
                r is None
            },
            None => r is None,
        },
    decreases budget,
{
    if budget == 0 || pos >= b.len() {
        return None;
    }
    let byte = b[pos];
    assert(b@.skip(pos as int)[0] == byte);
    if byte < 128 {
        return Some((byte as u64, pos + 1));
    }
    assert(b@.skip(pos as int).drop_first() =~= b@.skip(pos + 1));
    match read_uleb128(b, pos + 1, budget - 1) {
        None => None,
        Some((high, end)) => {
            let low: u64 = (byte - 128) as u64;
            if high == 0 || high > (u64::MAX - low) / 128 {
                None
            } else {
                Some((low + 128 * high, end))
            }
        },
    }
}

/// Reads the length that stands at place `pos` of `b`. Gives the length
/// and the place behind it.
pub(crate) fn read_length(b: &[u8], pos: usize) -> (r: Option<(usize, usize)>)
    requires
        pos <= b@.len(),
    ensures
        read_is(r, length_as_usize(length_parse(b@.skip(pos as int))), pos, b@.len()),
{
    match read_uleb128(b, pos, ULEB128_MAX_BYTES) {
        None => None,
        Some((n, end)) => {
            if n > usize::MAX as u64 {
                None
            } else {
                Some((n as usize, end))
            }
        },
    }
}

/// Reads the integer that stands at place `pos` of `b`.
pub(crate) fn read_u64(b: &[u8], pos: usize) -> (r: Option<(u64, usize)>)
    requires
        pos <= b@.len(),
    ensures
        read_is(r, u64_parse(b@.skip(pos as int)), pos, b@.len()),
{
    if b.len() - pos < 8 {
        return None;
    }
    let x = u64_from_le_bytes(slice_subrange(b, pos, pos + 8));
    assert(b@.subrange(pos as int, pos + 8) =~= b@.skip(pos as int).subrange(0, 8));
    Some((x, pos + 8))
}

/// Reads the truth value that stands at place `pos` of `b`.
pub(crate) fn read_bool(b: &[u8], pos: usize) -> (r: Option<(bool, usize)>)
    requires
        pos <= b@.len(),
    ensures
        read_is(r, bool_parse(b@.skip(pos as int)), pos, b@.len()),
{
    if pos >= b.len() {
        return None;
    }
    let byte = b[pos];
    assert(b@.skip(pos as int)[0] == byte);
    if byte == 0 {
        Some((false, pos + 1))
    } else if byte == 1 {
        Some((true, pos + 1))
    } else {
        None
    }
}

/// Reads the `N` bytes that stand at place `pos` of `b`.
pub(crate) fn read_array<const N: usize>(b: &[u8], pos: usize) -> (r: Option<([u8; N], usize)>)
    requires
        pos <= b@.len(),
    ensures
        match fixed_parse(b@.skip(pos as int), N as nat) {
            Some((bytes, taken)) => r matches Some((a, end)) && a@ == bytes && end == pos + taken
                && end <= b@.len(),
            None => r is None,
        },
{
    if b.len() - pos < N {
        return None;
    }
    let mut out: [u8; N] = [0u8; N];
    let mut i: usize = 0;
    while i < N
        invariant
            i <= N,
            pos + N <= b@.len(),
            pos + N <= usize::MAX,
            forall|j: int| 0 <= j < i ==> out@[j] == b@[pos + j],
        decreases N - i,
    {
        out[i] = b[pos + i];
        i += 1;
    }
    assert(out@ =~= b@.skip(pos as int).subrange(0, N as int));
    Some((out, pos + N))
}

/// The weight of byte `k` of an encoded length: 128 to the power `k`.
pub open spec fn radix128(k: nat) -> nat
    decreases k,
{
    if k == 0 {
        1
    } else {
        128 * radix128((k - 1) as nat)
    }
}

/// A length below `128^k` is written in at most `k` bytes.
pub proof fn lemma_uleb128_len(n: nat, k: nat)
    requires
        k >= 1,
        n < radix128(k),
    ensures
        1 <= uleb128(n).len() <= k,
    decreases k,
{
    if n >= 128 {
        if k == 1 {
            assert(radix128(1) == 128) by {
                reveal_with_fuel(radix128, 2);
            }
        } else {
            lemma_uleb128_len(n / 128, (k - 1) as nat);
        }
    }
}

/// Every length that a `u64` holds is written in at most ten bytes.
pub proof fn lemma_uleb128_len_u64(n: nat)
    requires
        n <= u64::MAX,
    ensures
        1 <= uleb128(n).len() <= ULEB128_MAX_BYTES,
{
    assert(radix128(10) == 0x40_0000_0000_0000_0000) by {
        reveal_with_fuel(radix128, 11);
    }
    lemma_uleb128_len(n, 10);
}

/// Reading inverts writing: the length read from the bytes written for `n`,
/// whatever follows them, is `n`.
pub proof fn lemma_uleb128_parse_encoding(n: nat, tail: Seq<u8>, budget: nat)
    requires
        budget >= uleb128(n).len(),
    ensures
        uleb128_parse(uleb128(n) + tail, budget) == Some((n, uleb128(n).len())),
    decreases n,
{
    let s = uleb128(n) + tail;
    if n < 128 {
        assert(s[0] == n as u8);
    } else {
        assert(s[0] == (128 + n % 128) as u8);
        assert(s.drop_first() =~= uleb128(n / 128) + tail);
        lemma_uleb128_parse_encoding(n / 128, tail, (budget - 1) as nat);
    }
}

/// Writing inverts reading: the bytes from which a length was read are the
/// bytes written for that length.
pub proof fn lemma_uleb128_encoding_parse(s: Seq<u8>, budget: nat)
    ensures
        uleb128_parse(s, budget) matches Some((n, taken)) ==> taken <= s.len() && taken <= budget
            && s.subrange(0, taken as int) == uleb128(n),
    decreases budget,
{
    if budget == 0 || s.len() == 0 {
    } else if s[0] < 128 {
        assert(s.subrange(0, 1) =~= uleb128(s[0] as nat));
    } else {
        lemma_uleb128_encoding_parse(s.drop_first(), (budget - 1) as nat);
        match uleb128_parse(s.drop_first(), (budget - 1) as nat) {
            None => {},
            Some((high, taken)) => {
                if high != 0 {
                    let n = ((s[0] - 128) + 128 * high) as nat;
                    assert(n >= 128);
                    assert(n % 128 == s[0] - 128);
                    assert(n / 128 == high);
                    assert(s.subrange(0, (taken + 1) as int) =~= seq![s[0]] + s.drop_first().subrange(
                        0,
                        taken as int,
                    ));
                }
            },
        }
    }
}

/// Reading inverts writing for integers.
pub proof fn lemma_u64_parse_encoding(x: u64, tail: Seq<u8>)
    ensures
        u64_le(x).len() == 8,
        u64_parse(u64_le(x) + tail) == Some((x, 8nat)),
{
    lemma_auto_spec_u64_to_from_le_bytes();
    assert((u64_le(x) + tail).subrange(0, 8) =~= u64_le(x));
}

/// Writing inverts reading for integers.
pub proof fn lemma_u64_encoding_parse(s: Seq<u8>)
    ensures
        u64_parse(s) matches Some((x, taken)) ==> taken == 8 && s.len() >= 8 && s.subrange(0, 8)
            == u64_le(x),
{
    lemma_auto_spec_u64_to_from_le_bytes();
    if s.len() >= 8 {
        assert(s.subrange(0, 8).len() == 8);
    }
}

/// The encodings of the items of a list one after the other, each as `enc`
/// writes it.
pub open spec fn items_encoding<T>(enc: spec_fn(T) -> Seq<u8>, items: Seq<T>) -> Seq<u8>
    decreases items.len(),
{
    if items.len() == 0 {
        Seq::empty()
    } else {
        items_encoding(enc, items.drop_last()) + enc(items.last())
    }
}

/// The `count` items that stand one after the other at the start of `s`,
/// each as `parse` reads it, and the number of bytes that they take.
pub open spec fn items_parse<T>(
    parse: spec_fn(Seq<u8>) -> Option<(T, nat)>,
    s: Seq<u8>,
    count: nat,
) -> Option<(Seq<T>, nat)>
    decreases count,
{
    if count == 0 {
        Some((Seq::empty(), 0nat))
    } else {
        match parse(s) {
            None => None,
            Some((first, taken)) => match items_parse(parse, s.skip(taken as int), (count - 1) as nat) {
                None => None,
                Some((rest, more)) => Some((seq![first] + rest, taken + more)),
            },
        }
    }
}

/// `parse` reads back every value that `valid` admits from the bytes that
/// `enc` writes for it, whatever follows them.
pub open spec fn parse_inverts<T>(
    enc: spec_fn(T) -> Seq<u8>,
    parse: spec_fn(Seq<u8>) -> Option<(T, nat)>,
    valid: spec_fn(T) -> bool,
) -> bool {
    forall|v: T, tail: Seq<u8>|
        #![trigger parse(enc(v) + tail)]
        valid(v) ==> parse(enc(v) + tail) == Some((v, enc(v).len()))
}

/// Whatever `parse` reads is a value that `valid` admits, read from the
/// bytes that `enc` writes for it.
pub open spec fn encoding_inverts<T>(
    enc: spec_fn(T) -> Seq<u8>,
    parse: spec_fn(Seq<u8>) -> Option<(T, nat)>,
    valid: spec_fn(T) -> bool,
) -> bool {
    forall|s: Seq<u8>|
        #![trigger parse(s)]
        parse(s) matches Some((v, taken)) ==> valid(v) && taken <= s.len() && s.subrange(
            0,
            taken as int,
        ) == enc(v)
}

/// Every item of the list is one that `valid` admits.
pub open spec fn all_valid<T>(valid: spec_fn(T) -> bool, items: Seq<T>) -> bool {
    forall|i: int| 0 <= i < items.len() ==> valid(#[trigger] items[i])
}

/// The encoding of a list starts with the encoding of its first item.
pub proof fn lemma_items_encoding_first<T>(enc: spec_fn(T) -> Seq<u8>, items: Seq<T>)
    requires
        items.len() > 0,
    ensures
        items_encoding(enc, items) == enc(items.first()) + items_encoding(enc, items.drop_first()),
    decreases items.len(),
{
    if items.len() == 1 {
        assert(items.drop_last() =~= Seq::<T>::empty());
        assert(items.drop_first() =~= Seq::<T>::empty());
        assert(items_encoding(enc, items) =~= enc(items.first()) + items_encoding(
            enc,
            items.drop_first(),
        ));
    } else {
        lemma_items_encoding_first(enc, items.drop_last());
        assert(items.drop_last().drop_first() =~= items.drop_first().drop_last());
        assert(items.drop_last().first() == items.first());
        assert(items.drop_first().last() == items.last());
        assert(items_encoding(enc, items) =~= enc(items.first()) + items_encoding(
            enc,
            items.drop_first(),
        ));
    }
}

/// Reading inverts writing for lists.
pub proof fn lemma_items_parse_encoding<T>(
    enc: spec_fn(T) -> Seq<u8>,
    parse: spec_fn(Seq<u8>) -> Option<(T, nat)>,
    valid: spec_fn(T) -> bool,
    items: Seq<T>,
    tail: Seq<u8>,
)
    requires
        parse_inverts(enc, parse, valid),
        all_valid(valid, items),
    ensures
        items_parse(parse, items_encoding(enc, items) + tail, items.len()) == Some(
            (items, items_encoding(enc, items).len()),
        ),
    decreases items.len(),
{
    if items.len() == 0 {
    } else {
        let first = items.first();
        let rest = items.drop_first();
        let s = items_encoding(enc, items) + tail;
        lemma_items_encoding_first(enc, items);
        assert(s =~= enc(first) + (items_encoding(enc, rest) + tail));
        assert(valid(items[0]));
        assert(parse(enc(first) + (items_encoding(enc, rest) + tail)) == Some(
            (first, enc(first).len()),
        ));
        assert(s.skip(enc(first).len() as int) =~= items_encoding(enc, rest) + tail);
        assert(all_valid(valid, rest)) by {
            assert forall|i: int| 0 <= i < rest.len() implies valid(#[trigger] rest[i]) by {
                assert(rest[i] == items[i + 1]);
            }
        }
        lemma_items_parse_encoding(enc, parse, valid, rest, tail);
        assert(seq![first] + rest =~= items);
    }
}

/// Writing inverts reading for lists.
pub proof fn lemma_items_encoding_parse<T>(
    enc: spec_fn(T) -> Seq<u8>,
    parse: spec_fn(Seq<u8>) -> Option<(T, nat)>,
    valid: spec_fn(T) -> bool,
    s: Seq<u8>,
    count: nat,
)
    requires
        encoding_inverts(enc, parse, valid),
    ensures
        items_parse(parse, s, count) matches Some((items, taken)) ==> items.len() == count
            && all_valid(valid, items) && taken <= s.len() && s.subrange(0, taken as int)
            == items_encoding(enc, items),
    decreases count,
{
    if count == 0 {
        assert(s.subrange(0, 0) =~= Seq::<u8>::empty());
    } else {
        match parse(s) {
            None => {},
            Some((first, taken)) => {
                lemma_items_encoding_parse(enc, parse, valid, s.skip(taken as int), (count - 1) as nat);
                match items_parse(parse, s.skip(taken as int), (count - 1) as nat) {
                    None => {},
                    Some((rest, more)) => {
                        let items = seq![first] + rest;
                        assert(items.first() == first);
                        assert(items.drop_first() =~= rest);
                        lemma_items_encoding_first(enc, items);
                        assert(s.subrange(0, (taken + more) as int) =~= s.subrange(0, taken as int)
                            + s.skip(taken as int).subrange(0, more as int));
                        assert(all_valid(valid, items)) by {
                            assert forall|i: int| 0 <= i < items.len() implies valid(
                                #[trigger] items[i],
                            ) by {
                                if i > 0 {
                                    assert(items[i] == rest[i - 1]);
                                }
                            }
                        }
                    },
                }
            },
        }
    }
}

} // verus!
