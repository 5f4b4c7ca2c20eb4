//! Deterministic page identifiers.
//!
//! A page's identity must be stable across rebuilds and process restarts, so
//! it is derived from the page's fully-qualified name alone: a general-purpose
//! 64-bit string hash, expanded into a fixed-width identifier over a fixed
//! alphanumeric alphabet.

use vstd::prelude::*;

verus! {

/// The 62-character alphabet the identifier is drawn from.
pub open spec fn id_alphabet() -> Seq<char> {
    "abcdefghijklmnopqrstuvwxyzABCDEFGHIJKLMNOPQRSTUVWXYZ0123456789"@
}

/// Number of characters in every identifier.
pub open spec fn id_len() -> nat {
    10
}

/// Seed of the string hash (the FNV-1a offset basis).
pub open spec fn hash_seed() -> u64 {
    0xcbf2_9ce4_8422_2325u64
}

/// One step of the string hash: fold a character into the running state
/// (xor, then multiply by the FNV prime modulo 2^64).
pub open spec fn hash_step(h: u64, c: char) -> u64 {
    ((((h ^ ((c as u32) as u64)) as int) * 0x100_0000_01b3) % 0x1_0000_0000_0000_0000) as u64
}

/// Hash of the first `n` characters of `s`.
pub open spec fn hash_prefix(s: Seq<char>, n: int) -> u64
    decreases n,
{
    if n <= 0 {
        hash_seed()
    } else {
        hash_step(hash_prefix(s, n - 1), s[n - 1])
    }
}

/// The 64-bit hash of a whole string.
pub open spec fn hash_of(s: Seq<char>) -> u64 {
    hash_prefix(s, s.len() as int)
}

/// How the hash state evolves between extracted identifier characters.
pub open spec fn id_step(h: u64) -> u64 {
    ((h as int * 31 + 1) % 0x1_0000_0000_0000_0000) as u64
}

/// The identifier character extracted from hash state `h`.
pub open spec fn id_char(h: u64) -> char {
    id_alphabet()[(h % 62) as int]
}

/// The `k` identifier characters extracted starting from hash state `h`.
pub open spec fn id_seq(h: u64, k: nat) -> Seq<char>
    decreases k,
{
    if k == 0 {
        Seq::empty()
    } else {
        seq![id_char(h)] + id_seq(id_step(h), (k - 1) as nat)
    }
}

/// The identifier of a fully-qualified name: a pure function of the name.
pub open spec fn id_of(s: Seq<char>) -> Seq<char> {
    id_seq(hash_of(s), id_len())
}

/// Every extracted identifier character is drawn from the alphabet.
proof fn lemma_id_seq_alphabet(h: u64, k: nat)
    ensures
        id_seq(h, k).len() == k,
        forall|i: int| 0 <= i < k ==> id_alphabet().contains(#[trigger] id_seq(h, k)[i]),
    decreases k,
{
    if k > 0 {
        lemma_id_seq_alphabet(id_step(h), (k - 1) as nat);
        reveal_strlit("abcdefghijklmnopqrstuvwxyzABCDEFGHIJKLMNOPQRSTUVWXYZ0123456789");
        assert(id_alphabet().contains(id_char(h))) by {
            assert(id_alphabet()[(h % 62) as int] == id_char(h));
        }
    }
}

/// Law: page identity is deterministic. The identifier is a pure function of
/// the fully-qualified name, so equal names always yield equal identifiers,
/// within one run and across runs.
pub proof fn lemma_id_deterministic(n1: Seq<char>, n2: Seq<char>)
    requires
        n1 == n2,
    ensures
        id_of(n1) == id_of(n2),
{
}

/// Law: every identifier is exactly ten characters, each alphanumeric.
pub proof fn lemma_id_shape(n: Seq<char>)
    ensures
        id_of(n).len() == id_len(),
        forall|i: int| 0 <= i < id_of(n).len() ==> id_alphabet().contains(#[trigger] id_of(n)[i]),
{
    lemma_id_seq_alphabet(hash_of(n), id_len());
}

/// Derive the stable identifier of a fully-qualified name.
pub fn generate_deterministic_id(input: &str) -> (r: String)
    ensures
        r@ == id_of(input@),
        r@.len() == id_len(),
{
    let n = input.unicode_len();
    let mut h: u64 = 0xcbf2_9ce4_8422_2325u64;
    let mut i: usize = 0;
    while i < n
        invariant
            n == input@.len(),
            0 <= i <= n,
            h == hash_prefix(input@, i as int),
        decreases n - i,
    {
        let c = input.get_char(i);
        let x: u64 = h ^ ((c as u32) as u64);
        let next: u64 = (((x as u128) * 0x100_0000_01b3u128) % 0x1_0000_0000_0000_0000u128) as u64;
        assert(next == hash_step(h, c));
        h = next;
        i = i + 1;
    }
    assert(h == hash_of(input@));

    let alphabet = "abcdefghijklmnopqrstuvwxyzABCDEFGHIJKLMNOPQRSTUVWXYZ0123456789";
    proof {
        reveal_strlit("abcdefghijklmnopqrstuvwxyzABCDEFGHIJKLMNOPQRSTUVWXYZ0123456789");
    }
    assert(alphabet@.len() == 62);

    let mut result = String::new();
    let mut k: usize = 0;
    while k < 10
        invariant
            0 <= k <= 10,
            alphabet@ == id_alphabet(),
            alphabet@.len() == 62,
            result@ + id_seq(h, (10 - k) as nat) == id_seq(hash_of(input@), 10),
            result@.len() == k,
        decreases 10 - k,
    {
        let idx = (h % 62) as usize;
        let ch = alphabet.substring_char(idx, idx + 1);
        proof {
            assert(ch@ =~= seq![id_char(h)]);
        }
        let ghost prev = result@;
        result.append(ch);
        proof {
            let ghost hn = id_step(h);
            assert(id_seq(h, (10 - k) as nat) == seq![id_char(h)] + id_seq(hn, (10 - (k + 1)) as nat));
            assert(result@ + id_seq(hn, (10 - (k + 1)) as nat) =~= prev + id_seq(h, (10 - k) as nat));
        }
        let hx: u64 = ((h as u128 * 31u128 + 1u128) % 0x1_0000_0000_0000_0000u128) as u64;
        assert(hx == id_step(h));
        h = hx;
        k = k + 1;
    }
    proof {
        assert(id_seq(h, 0) =~= Seq::<char>::empty());
        assert(result@ =~= result@ + id_seq(h, 0));
    }
    result
}

} // verus!
