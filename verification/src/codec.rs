//! The binary form of a histogram: its slots as 64-bit words of eight bytes
//! each, header first, with nothing before, between or behind them.

use crate::histogram::{is_histogram, Histogram};
use vstd::prelude::*;

verus! {

/// The order in which the eight bytes of a word are laid down.
#[derive(Clone, Copy, Debug, PartialEq, Eq, Structural)]
pub enum ByteOrder {
    /// Least significant byte first.
    Little,
    /// Most significant byte first.
    Big,
}

/// Why a run of bytes is not the binary form of a histogram.
#[derive(Clone, Copy, Debug, PartialEq, Eq, Structural)]
pub enum FormatError {
    /// The number of bytes is not a multiple of eight.
    PartialWord,
    /// The words are not as many as the two first of them declare.
    WrongSize,
}

/// The eight bytes of a word, least significant first.
pub open spec fn word_le(x: u64) -> Seq<u8> {
    let x1 = x / 256;
    let x2 = x1 / 256;
    let x3 = x2 / 256;
    let x4 = x3 / 256;
    let x5 = x4 / 256;
    let x6 = x5 / 256;
    let x7 = x6 / 256;
    seq![
        (x % 256) as u8,
        (x1 % 256) as u8,
        (x2 % 256) as u8,
        (x3 % 256) as u8,
        (x4 % 256) as u8,
        (x5 % 256) as u8,
        (x6 % 256) as u8,
        (x7 % 256) as u8,
    ]
}

/// The word whose eight bytes, least significant first, are `b`.
pub open spec fn le_value(b: Seq<u8>) -> u64 {
    (b[0] + 256 * (b[1] + 256 * (b[2] + 256 * (b[3] + 256 * (b[4] + 256 * (b[5] + 256 * (b[6] + 256
        * b[7]))))))) as u64
}

/// The eight bytes of a word in the given order.
pub open spec fn word_bytes(x: u64, order: ByteOrder) -> Seq<u8> {
    match order {
        ByteOrder::Little => word_le(x),
        ByteOrder::Big => word_le(x).reverse(),
    }
}

/// The word that eight bytes in the given order stand for.
pub open spec fn word_value(b: Seq<u8>, order: ByteOrder) -> u64 {
    match order {
        ByteOrder::Little => le_value(b),
        ByteOrder::Big => le_value(b.reverse()),
    }
}

/// The binary form of a sequence of slots.
pub open spec fn encoded(s: Seq<u64>, order: ByteOrder) -> Seq<u8> {
    Seq::new(8 * s.len(), |i: int| word_bytes(s[i / 8], order)[i % 8])
}

/// The words that a run of bytes holds; bytes behind the last whole word
/// are left out.
pub open spec fn words(bytes: Seq<u8>, order: ByteOrder) -> Seq<u64> {
    Seq::new(
        (bytes.len() / 8) as nat,
        |k: int| word_value(bytes.subrange(8 * k, 8 * k + 8), order),
    )
}

/// What a run of bytes decodes to: the slots of a histogram, or the reason
/// why it holds none.
pub open spec fn decoded(bytes: Seq<u8>, order: ByteOrder) -> Result<Seq<u64>, FormatError> {
    if bytes.len() % 8 != 0 {
        Err(FormatError::PartialWord)
    } else if !is_histogram(words(bytes, order)) {
        Err(FormatError::WrongSize)
    } else {
        Ok(words(bytes, order))
    }
}

/// A word comes back from its eight bytes.
pub proof fn lemma_word_round_trip(x: u64, order: ByteOrder)
    ensures
        word_bytes(x, order).len() == 8,
        word_value(word_bytes(x, order), order) == x,
{
    let b = word_le(x);
    assert(le_value(b) == x);
    assert(b.reverse().reverse() =~= b);
}

/// Taking a byte off the low end of a number: what is left, and the byte.
proof fn lemma_peel(low: u8, rest: int)
    requires
        0 <= rest,
    ensures
        (low + 256 * rest) % 256 == low,
        (low + 256 * rest) / 256 == rest,
{
}

/// Eight bytes, least significant first, come back from their word.
proof fn lemma_le_bytes_round_trip(b: Seq<u8>)
    requires
        b.len() == 8,
    ensures
        word_le(le_value(b)) == b,
{
    let v7 = b[7] as int;
    let v6 = b[6] + 256 * v7;
    let v5 = b[5] + 256 * v6;
    let v4 = b[4] + 256 * v5;
    let v3 = b[3] + 256 * v4;
    let v2 = b[2] + 256 * v3;
    let v1 = b[1] + 256 * v2;
    let v0 = b[0] + 256 * v1;
    assert(v0 <= u64::MAX);
    let x = le_value(b);
    assert(x == v0);
    lemma_peel(b[0], v1);
    lemma_peel(b[1], v2);
    lemma_peel(b[2], v3);
    lemma_peel(b[3], v4);
    lemma_peel(b[4], v5);
    lemma_peel(b[5], v6);
    lemma_peel(b[6], v7);
    let x1 = x / 256;
    assert(x1 == v1);
    let x2 = x1 / 256;
    assert(x2 == v2);
    let x3 = x2 / 256;
    assert(x3 == v3);
    let x4 = x3 / 256;
    assert(x4 == v4);
    let x5 = x4 / 256;
    assert(x5 == v5);
    let x6 = x5 / 256;
    assert(x6 == v6);
    let x7 = x6 / 256;
    assert(x7 == v7);
    assert(word_le(x) =~= b);
}

/// Eight bytes come back from the word they stand for.
pub proof fn lemma_bytes_round_trip(b: Seq<u8>, order: ByteOrder)
    requires
        b.len() == 8,
    ensures
        word_bytes(word_value(b, order), order) == b,
{
    match order {
        ByteOrder::Little => {
            lemma_le_bytes_round_trip(b);
        },
        ByteOrder::Big => {
            let r = b.reverse();
            lemma_le_bytes_round_trip(r);
            assert(r.reverse() =~= b);
        },
    }
}

/// The word at position `k` of the binary form takes up the bytes from
/// `8 * k` on.
pub proof fn lemma_encoded_word(s: Seq<u64>, order: ByteOrder, k: int)
    requires
        0 <= k < s.len(),
    ensures
        encoded(s, order).subrange(8 * k, 8 * k + 8) == word_bytes(s[k], order),
{
    lemma_word_round_trip(s[k], order);
    let part = encoded(s, order).subrange(8 * k, 8 * k + 8);
    assert forall|j: int| 0 <= j < 8 implies part[j] == word_bytes(s[k], order)[j] by {
        assert((8 * k + j) / 8 == k);
        assert((8 * k + j) % 8 == j);
    }
    assert(part =~= word_bytes(s[k], order));
}

/// Decoding the binary form of any slots gives the slots back.
pub proof fn lemma_words_of_encoded(s: Seq<u64>, order: ByteOrder)
    ensures
        encoded(s, order).len() == 8 * s.len(),
        words(encoded(s, order), order) == s,
{
    let w = words(encoded(s, order), order);
    assert(w.len() == s.len());
    assert forall|k: int| 0 <= k < s.len() implies w[k] == s[k] by {
        lemma_encoded_word(s, order, k);
        lemma_word_round_trip(s[k], order);
    }
    assert(w =~= s);
}

/// A histogram survives the way into its binary form and back, slot for
/// slot.
pub proof fn lemma_round_trip(s: Seq<u64>, order: ByteOrder)
    requires
        is_histogram(s),
    ensures
        decoded(encoded(s, order), order) == Ok::<Seq<u64>, FormatError>(s),
{
    lemma_words_of_encoded(s, order);
}

/// Whatever decodes has exactly one binary form: the bytes it was decoded
/// from.
pub proof fn lemma_encoded_of_decoded(bytes: Seq<u8>, order: ByteOrder)
    requires
        bytes.len() % 8 == 0,
    ensures
        encoded(words(bytes, order), order) == bytes,
{
    let s = words(bytes, order);
    let e = encoded(s, order);
    assert(e.len() == bytes.len());
    assert forall|i: int| 0 <= i < bytes.len() implies e[i] == bytes[i] by {
        let k = i / 8;
        let j = i % 8;
        let part = bytes.subrange(8 * k, 8 * k + 8);
        lemma_bytes_round_trip(part, order);
        assert(part[j] == bytes[i]);
    }
    assert(e =~= bytes);
}

/// A run of bytes is refused exactly when it does not end on a word, or when
/// its words are not as many as its first two words declare.
pub proof fn lemma_rejection(bytes: Seq<u8>, order: ByteOrder)
    ensures
        bytes.len() % 8 != 0 ==> decoded(bytes, order) == Err::<Seq<u64>, FormatError>(
            FormatError::PartialWord,
        ),
        bytes.len() % 8 == 0 && bytes.len() < 16 ==> decoded(bytes, order) == Err::<
            Seq<u64>,
            FormatError,
        >(FormatError::WrongSize),
        bytes.len() % 8 == 0 && bytes.len() >= 16 && bytes.len() / 8 != words(bytes, order)[0]
            * words(bytes, order)[1] + 2 ==> decoded(bytes, order) == Err::<
            Seq<u64>,
            FormatError,
        >(FormatError::WrongSize),
        decoded(bytes, order) is Ok ==> bytes.len() == 8 * (words(bytes, order)[0] * words(
            bytes,
            order,
        )[1] + 2),
{
}

/// Appends the eight bytes of a word.
fn push_word(out: &mut Vec<u8>, x: u64, order: ByteOrder)
    ensures
        final(out)@ == old(out)@ + word_bytes(x, order),
{
    let x1 = x / 256;
    let x2 = x1 / 256;
    let x3 = x2 / 256;
    let x4 = x3 / 256;
    let x5 = x4 / 256;
    let x6 = x5 / 256;
    let x7 = x6 / 256;
    let b0 = (x % 256) as u8;
    let b1 = (x1 % 256) as u8;
    let b2 = (x2 % 256) as u8;
    let b3 = (x3 % 256) as u8;
    let b4 = (x4 % 256) as u8;
    let b5 = (x5 % 256) as u8;
    let b6 = (x6 % 256) as u8;
    let b7 = (x7 % 256) as u8;
    match order {
        ByteOrder::Little => {
            out.push(b0);
            out.push(b1);
            out.push(b2);
            out.push(b3);
            out.push(b4);
            out.push(b5);
            out.push(b6);
            out.push(b7);
        },
        ByteOrder::Big => {
            out.push(b7);
            out.push(b6);
            out.push(b5);
            out.push(b4);
            out.push(b3);
            out.push(b2);
            out.push(b1);
            out.push(b0);
        },
    }
    assert(out@ =~= old(out)@ + word_bytes(x, order));
}

/// Reads the word that starts at byte `at`.
fn read_word(bytes: &Vec<u8>, at: usize, order: ByteOrder) -> (x: u64)
    requires
        at + 8 <= bytes.len(),
    ensures
        x == word_value(bytes@.subrange(at as int, at + 8), order),
{
    let ghost part = bytes@.subrange(at as int, at + 8);
    let (b0, b1, b2, b3, b4, b5, b6, b7) = match order {
        ByteOrder::Little => (
            bytes[at],
            bytes[at + 1],
            bytes[at + 2],
            bytes[at + 3],
            bytes[at + 4],
            bytes[at + 5],
            bytes[at + 6],
            bytes[at + 7],
        ),
        ByteOrder::Big => (
            bytes[at + 7],
            bytes[at + 6],
            bytes[at + 5],
            bytes[at + 4],
            bytes[at + 3],
            bytes[at + 2],
            bytes[at + 1],
            bytes[at],
        ),
    };
    proof {
        let le = match order {
            ByteOrder::Little => part,
            ByteOrder::Big => part.reverse(),
        };
        assert(le[0] == b0 && le[1] == b1 && le[2] == b2 && le[3] == b3);
        assert(le[4] == b4 && le[5] == b5 && le[6] == b6 && le[7] == b7);
    }
    let v7: u64 = b7 as u64;
    let v6: u64 = b6 as u64 + 256 * v7;
    let v5: u64 = b5 as u64 + 256 * v6;
    let v4: u64 = b4 as u64 + 256 * v5;
    let v3: u64 = b3 as u64 + 256 * v4;
    let v2: u64 = b2 as u64 + 256 * v3;
    let v1: u64 = b1 as u64 + 256 * v2;
    b0 as u64 + 256 * v1
}

/// The binary form of a histogram: eight bytes for each slot, header
/// first.
pub fn encode(histogram: &Histogram, order: ByteOrder) -> (bytes: Vec<u8>)
    ensures
        bytes@ == encoded(histogram@, order),
        bytes@.len() == 8 * histogram@.len(),
        histogram.wf() ==> bytes@.len() == 8 * (histogram@[0] * histogram@[1] + 2),
{
    let slots = histogram.as_slots();
    let n = slots.len();
    let mut bytes: Vec<u8> = Vec::new();
    let mut i: usize = 0;
    while i < n
        invariant
            i <= n,
            n == slots@.len(),
            bytes@ == encoded(slots@.take(i as int), order),
        decreases n - i,
    {
        let ghost before = bytes@;
        push_word(&mut bytes, slots[i], order);
        proof {
            let done = slots@.take(i + 1);
            lemma_word_round_trip(slots@[i as int], order);
            assert forall|j: int| 0 <= j < 8 * (i + 1) implies (before + word_bytes(
                slots@[i as int],
                order,
            ))[j] == encoded(done, order)[j] by {
                if j < 8 * i {
                    assert(slots@.take(i as int)[j / 8] == done[j / 8]);
                } else {
                    assert(j / 8 == i);
                    assert(j % 8 == j - 8 * i);
                }
            }
            assert(bytes@ =~= encoded(done, order));
        }
        i += 1;
    }
    assert(slots@.take(n as int) == slots@);
    bytes
}

/// The histogram that a run of bytes is the binary form of. Bytes that do
/// not end on a word, and words that are not as many as the first two of
/// them declare, are refused.
pub fn decode(bytes: &Vec<u8>, order: ByteOrder) -> (r: Result<Histogram, FormatError>)
    ensures
        match r {
            Ok(h) => decoded(bytes@, order) == Ok::<Seq<u64>, FormatError>(h@) && h.wf(),
            Err(e) => decoded(bytes@, order) == Err::<Seq<u64>, FormatError>(e),
        },
{
    let len = bytes.len();
    if len % 8 != 0 {
        return Err(FormatError::PartialWord);
    }
    let n = len / 8;
    let mut slots: Vec<u64> = Vec::new();
    let mut k: usize = 0;
    while k < n
        invariant
            k <= n,
            len == bytes@.len(),
            n == len / 8,
            len % 8 == 0,
            slots@ == words(bytes@, order).take(k as int),
        decreases n - k,
    {
        let x = read_word(bytes, 8 * k, order);
        slots.push(x);
        assert(slots@ =~= words(bytes@, order).take(k + 1));
        k += 1;
    }
    assert(slots@ == words(bytes@, order));
    match Histogram::from_slots(slots) {
        Some(h) => Ok(h),
        None => Err(FormatError::WrongSize),
    }
}

/// Drops the bytes behind the last whole word, for a caller that would
/// rather lose them than have the bytes refused.
pub fn trim_partial_word(bytes: &mut Vec<u8>)
    ensures
        final(bytes)@ == old(bytes)@.take(old(bytes)@.len() - old(bytes)@.len() % 8),
{
    let len = bytes.len();
    bytes.truncate(len - len % 8);
}

} // verus!
