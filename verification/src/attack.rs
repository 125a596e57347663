//! The meet-in-the-middle search engine: enumerate the key space through the
//! cipher to build two sorted intermediate tables, join them on equal
//! intermediate values, and verify the surviving key pairs against a second
//! plaintext/ciphertext pair.

use vstd::prelude::*;
use crate::fits_block;
use crate::key_schedule::spec_schedule;
use crate::key_schedule::key_schedule;
use crate::cipher::spec_encrypt;
use crate::cipher::spec_decrypt;
use crate::cipher::spec_double;
use crate::cipher::encrypt;
use crate::cipher::decrypt;
use crate::cipher::double_present24;
use crate::cipher::lemma_encrypt_decrypt_round_trip;
use crate::cipher::lemma_decrypt_encrypt_round_trip;
use crate::key_schedule::lemma_schedule_valid;
use rayon::iter::IndexedParallelIterator;
use rayon::iter::IntoParallelIterator;
use rayon::iter::ParallelIterator;
use rayon::slice::ParallelSliceMut;

verus! {

/// The intermediate value met from the plaintext side: encryption of
/// `plaintext` under `key`.
pub open spec fn forward_value(plaintext: u32, key: u32) -> u32 {
    spec_encrypt(spec_schedule(key), plaintext)
}

/// The intermediate value met from the ciphertext side: decryption of
/// `ciphertext` under `key`.
pub open spec fn backward_value(ciphertext: u32, key: u32) -> u32 {
    spec_decrypt(spec_schedule(key), ciphertext)
}

/// An intermediate table is sorted on the value component.
pub open spec fn value_sorted(s: Seq<(u32, u32)>) -> bool {
    forall|a: int, b: int|
        0 <= a <= b < s.len() ==> (#[trigger] s[a]).0 <= (#[trigger] s[b]).0
}

/// Ascending lexicographic order on (value, key) entries.
pub open spec fn pair_le(x: (u32, u32), y: (u32, u32)) -> bool {
    x.0 < y.0 || (x.0 == y.0 && x.1 <= y.1)
}

/// An intermediate table is sorted on (value, key), ascending.
pub open spec fn lex_sorted(s: Seq<(u32, u32)>) -> bool {
    forall|a: int, b: int| 0 <= a <= b < s.len() ==> pair_le(#[trigger] s[a], #[trigger] s[b])
}

/// The key pair `pair` joins the two tables: some forward entry and some
/// backward entry share their intermediate value and carry its two keys.
pub open spec fn table_match(fwd: Seq<(u32, u32)>, bwd: Seq<(u32, u32)>, pair: (u32, u32)) -> bool {
    exists|a: int, b: int|
        0 <= a < fwd.len() && 0 <= b < bwd.len()
            && (#[trigger] fwd[a]).0 == (#[trigger] bwd[b]).0
            && fwd[a].1 == pair.0 && bwd[b].1 == pair.1
}

/// `table_match` restricted to the first `i` forward and `j` backward entries.
spec fn match_below(fwd: Seq<(u32, u32)>, bwd: Seq<(u32, u32)>, i: int, j: int, pair: (u32, u32)) -> bool {
    exists|a: int, b: int|
        0 <= a < i && 0 <= b < j
            && (#[trigger] fwd[a]).0 == (#[trigger] bwd[b]).0
            && fwd[a].1 == pair.0 && bwd[b].1 == pair.1
}

/// `pair` is a cross-product pair of the forward rows `ilo..ihi` and the
/// backward rows `jlo..jhi`, with no condition on the values.
spec fn run_match(
    fwd: Seq<(u32, u32)>,
    bwd: Seq<(u32, u32)>,
    ilo: int,
    ihi: int,
    jlo: int,
    jhi: int,
    pair: (u32, u32),
) -> bool {
    exists|a: int, b: int|
        ilo <= a < ihi && jlo <= b < jhi
            && (#[trigger] fwd[a]).1 == pair.0 && (#[trigger] bwd[b]).1 == pair.1
}

/// The key pair survives verification against the second known pair.
pub open spec fn verified_pair(plaintext: u32, ciphertext: u32, pair: (u32, u32)) -> bool {
    spec_double(pair.0, pair.1, plaintext) == ciphertext
}

/// The key pair is consistent with both known plaintext/ciphertext pairs: the
/// cascade under it maps each plaintext to its ciphertext.
pub open spec fn consistent_pair(
    plain1: u32,
    cipher1: u32,
    plain2: u32,
    cipher2: u32,
    pair: (u32, u32),
) -> bool {
    &&& fits_block(pair.0)
    &&& fits_block(pair.1)
    &&& verified_pair(plain1, cipher1, pair)
    &&& verified_pair(plain2, cipher2, pair)
}

/// Meeting in the middle is exactly the cascade equation: the value computed
/// forward from the plaintext under `key1` equals the value computed backward
/// from the ciphertext under `key2` if and only if the cascade under
/// `(key1, key2)` maps that plaintext to that ciphertext.
pub proof fn lemma_meet_condition(key1: u32, key2: u32, plain1: u32, cipher1: u32)
    requires
        fits_block(key1),
        fits_block(key2),
        fits_block(plain1),
        fits_block(cipher1),
    ensures
        forward_value(plain1, key1) == backward_value(cipher1, key2) <==> spec_double(
            key1,
            key2,
            plain1,
        ) == cipher1,
{
    lemma_schedule_valid(key1);
    lemma_schedule_valid(key2);
    lemma_encrypt_decrypt_round_trip(spec_schedule(key1), plain1);
    let middle = spec_encrypt(spec_schedule(key1), plain1);
    lemma_encrypt_decrypt_round_trip(spec_schedule(key2), middle);
    lemma_decrypt_encrypt_round_trip(spec_schedule(key2), cipher1);
}

/// Pushing an entry onto a sequence adds exactly that entry to its contents.
proof fn lemma_push_contains(s: Seq<(u32, u32)>, e: (u32, u32), x: (u32, u32))
    ensures
        s.push(e).contains(x) <==> (s.contains(x) || x == e),
{
    if s.contains(x) {
        let i = choose|i: int| 0 <= i < s.len() && s[i] == x;
        assert(s.push(e)[i] == x);
    }
    assert(s.push(e)[s.len() as int] == e);
    if s.push(e).contains(x) && x != e {
        let i = choose|i: int| 0 <= i < s.push(e).len() && s.push(e)[i] == x;
        assert(s[i] == x);
    }
}

/// A lexicographically sorted table is sorted on values.
pub proof fn lemma_lex_sorted_value_sorted(s: Seq<(u32, u32)>)
    requires
        lex_sorted(s),
    ensures
        value_sorted(s),
{
    assert forall|a: int, b: int| 0 <= a <= b < s.len() implies (#[trigger] s[a]).0
        <= (#[trigger] s[b]).0 by {
        assert(pair_le(s[a], s[b]));
    }
}

/// One forward intermediate entry: the value met from the plaintext side,
/// paired with the key that produced it.
pub fn forward_entry(plaintext: u32, key: u32) -> (r: (u32, u32))
    requires
        fits_block(plaintext),
        fits_block(key),
    ensures
        r.0 == forward_value(plaintext, key),
        r.1 == key,
{
    let round_keys = key_schedule(key);
    (encrypt(&round_keys, plaintext), key)
}

/// One backward intermediate entry: the value met from the ciphertext side,
/// paired with the key that produced it.
pub fn backward_entry(ciphertext: u32, key: u32) -> (r: (u32, u32))
    requires
        fits_block(ciphertext),
        fits_block(key),
    ensures
        r.0 == backward_value(ciphertext, key),
        r.1 == key,
{
    let round_keys = key_schedule(key);
    (decrypt(&round_keys, ciphertext), key)
}

/// Relies on rayon's `IntoParallelIterator` for integer ranges together with
/// `IndexedParallelIterator::map` and `collect_into_vec`, which fills the
/// vector with the image of the range, in range order; entry `k` is computed
/// by the verified `forward_entry`.
#[verifier::external_body]
fn par_forward_table(plaintext: u32, key_count: u32) -> (r: Vec<(u32, u32)>)
    requires
        fits_block(plaintext),
        key_count <= 0x1000000,
    ensures
        r@.len() == key_count,
        forall|k: int|
            0 <= k < key_count ==> (#[trigger] r@[k]).0 == forward_value(plaintext, k as u32)
                && r@[k].1 == k as u32,
{
    let mut table = Vec::new();
    (0u32..key_count).into_par_iter().map(|key| forward_entry(plaintext, key)).collect_into_vec(
        &mut table,
    );
    table
}

/// Relies on rayon's `IntoParallelIterator` for integer ranges together with
/// `IndexedParallelIterator::map` and `collect_into_vec`, which fills the
/// vector with the image of the range, in range order; entry `k` is computed
/// by the verified `backward_entry`.
#[verifier::external_body]
fn par_backward_table(ciphertext: u32, key_count: u32) -> (r: Vec<(u32, u32)>)
    requires
        fits_block(ciphertext),
        key_count <= 0x1000000,
    ensures
        r@.len() == key_count,
        forall|k: int|
            0 <= k < key_count ==> (#[trigger] r@[k]).0 == backward_value(ciphertext, k as u32)
                && r@[k].1 == k as u32,
{
    let mut table = Vec::new();
    (0u32..key_count).into_par_iter().map(|key| backward_entry(ciphertext, key)).collect_into_vec(
        &mut table,
    );
    table
}

/// Relies on rayon's `ParallelSliceMut::par_sort_unstable`, which reorders the
/// slice into ascending `Ord` order and keeps its contents; on pairs of `u32`
/// that order is lexicographic on (value, key).
#[verifier::external_body]
fn par_sort_pairs(v: &mut Vec<(u32, u32)>)
    ensures
        final(v)@.to_multiset() == old(v)@.to_multiset(),
        lex_sorted(final(v)@),
{
    v.par_sort_unstable();
}

/// Build the two intermediate tables for the first plaintext/ciphertext pair:
/// one entry per key of the first `key_count` keys in each table, sorted
/// ascending on (value, key). The attack runs it over the whole 24-bit key
/// space; a reduced key space exercises the same engine.
pub fn generate_intermediate_states(plaintext: u32, ciphertext: u32, key_count: u32) -> (r: (
    Vec<(u32, u32)>,
    Vec<(u32, u32)>,
))
    requires
        fits_block(plaintext),
        fits_block(ciphertext),
        key_count <= 0x1000000,
    ensures
        r.0@.len() == key_count,
        r.1@.len() == key_count,
        lex_sorted(r.0@),
        lex_sorted(r.1@),
        forall|p: (u32, u32)|
            r.0@.contains(p) <==> p.1 < key_count && p.0 == forward_value(plaintext, p.1),
        forall|p: (u32, u32)|
            r.1@.contains(p) <==> p.1 < key_count && p.0 == backward_value(ciphertext, p.1),
{
    let mut fwd = par_forward_table(plaintext, key_count);
    let ghost fwd0 = fwd@;
    par_sort_pairs(&mut fwd);
    let mut bwd = par_backward_table(ciphertext, key_count);
    let ghost bwd0 = bwd@;
    par_sort_pairs(&mut bwd);
    proof {
        vstd::seq_lib::to_multiset_len(fwd@);
        vstd::seq_lib::to_multiset_len(fwd0);
        vstd::seq_lib::to_multiset_len(bwd@);
        vstd::seq_lib::to_multiset_len(bwd0);
        assert forall|p: (u32, u32)| fwd@.contains(p) <==> p.1 < key_count && p.0
            == forward_value(plaintext, p.1) by {
            vstd::seq_lib::to_multiset_contains(fwd@, p);
            vstd::seq_lib::to_multiset_contains(fwd0, p);
            assert(fwd@.to_multiset().count(p) == fwd0.to_multiset().count(p));
            if p.1 < key_count && p.0 == forward_value(plaintext, p.1) {
                assert(fwd0[p.1 as int] == p);
                assert(fwd0.contains(p));
            }
            if fwd0.contains(p) {
                let i = choose|i: int| 0 <= i < fwd0.len() && fwd0[i] == p;
                assert(fwd0[i].1 == i as u32);
            }
        }
        assert forall|p: (u32, u32)| bwd@.contains(p) <==> p.1 < key_count && p.0
            == backward_value(ciphertext, p.1) by {
            vstd::seq_lib::to_multiset_contains(bwd@, p);
            vstd::seq_lib::to_multiset_contains(bwd0, p);
            assert(bwd@.to_multiset().count(p) == bwd0.to_multiset().count(p));
            if p.1 < key_count && p.0 == backward_value(ciphertext, p.1) {
                assert(bwd0[p.1 as int] == p);
                assert(bwd0.contains(p));
            }
            if bwd0.contains(p) {
                let i = choose|i: int| 0 <= i < bwd0.len() && bwd0[i] == p;
                assert(bwd0[i].1 == i as u32);
            }
        }
    }
    (fwd, bwd)
}

/// Append every cross-product pair of the forward rows `i..ie` and the
/// backward rows `j..je` to `out`.
fn emit_run(
    out: &mut Vec<(u32, u32)>,
    fwd: &Vec<(u32, u32)>,
    bwd: &Vec<(u32, u32)>,
    i: usize,
    ie: usize,
    j: usize,
    je: usize,
)
    requires
        i <= ie <= fwd@.len(),
        j <= je <= bwd@.len(),
    ensures
        forall|pair: (u32, u32)|
            final(out)@.contains(pair) <==> old(out)@.contains(pair) || run_match(
                fwd@,
                bwd@,
                i as int,
                ie as int,
                j as int,
                je as int,
                pair,
            ),
{
    let mut a: usize = i;
    while a < ie
        invariant
            i <= a <= ie <= fwd@.len(),
            j <= je <= bwd@.len(),
            forall|pair: (u32, u32)|
                out@.contains(pair) <==> old(out)@.contains(pair) || run_match(
                    fwd@,
                    bwd@,
                    i as int,
                    a as int,
                    j as int,
                    je as int,
                    pair,
                ),
        decreases ie - a,
    {
        let mut b: usize = j;
        while b < je
            invariant
                i <= a < ie <= fwd@.len(),
                j <= b <= je <= bwd@.len(),
                forall|pair: (u32, u32)|
                    out@.contains(pair) <==> old(out)@.contains(pair) || run_match(
                        fwd@,
                        bwd@,
                        i as int,
                        a as int,
                        j as int,
                        je as int,
                        pair,
                    ) || run_match(fwd@, bwd@, a as int, a + 1, j as int, b as int, pair),
            decreases je - b,
        {
            let entry = (fwd[a].1, bwd[b].1);
            let ghost out0 = out@;
            out.push(entry);
            proof {
                assert forall|pair: (u32, u32)|
                    out@.contains(pair) <==> old(out)@.contains(pair) || run_match(
                        fwd@,
                        bwd@,
                        i as int,
                        a as int,
                        j as int,
                        je as int,
                        pair,
                    ) || run_match(fwd@, bwd@, a as int, a + 1, j as int, b + 1, pair) by {
                    lemma_push_contains(out0, entry, pair);
                    if pair == entry {
                        assert(fwd@[a as int].1 == pair.0 && bwd@[b as int].1 == pair.1);
                        assert(run_match(fwd@, bwd@, a as int, a + 1, j as int, b + 1, pair));
                    }
                    if run_match(fwd@, bwd@, a as int, a + 1, j as int, b as int, pair) {
                        let (a2, b2) = choose|a2: int, b2: int|
                            a <= a2 < a + 1 && j <= b2 < b && (#[trigger] fwd@[a2]).1 == pair.0
                                && (#[trigger] bwd@[b2]).1 == pair.1;
                        assert(run_match(fwd@, bwd@, a as int, a + 1, j as int, b + 1, pair));
                    }
                    if run_match(fwd@, bwd@, a as int, a + 1, j as int, b + 1, pair) {
                        let (a2, b2) = choose|a2: int, b2: int|
                            a <= a2 < a + 1 && j <= b2 < b + 1 && (#[trigger] fwd@[a2]).1 == pair.0
                                && (#[trigger] bwd@[b2]).1 == pair.1;
                        if b2 < b {
                            assert(run_match(fwd@, bwd@, a as int, a + 1, j as int, b as int, pair));
                        } else {
                            assert(pair.0 == fwd@[a as int].1 && pair.1 == bwd@[b as int].1);
                            assert(pair == entry);
                        }
                    }
                }
            }
            b = b + 1;
        }
        proof {
            assert forall|pair: (u32, u32)|
                (run_match(fwd@, bwd@, i as int, a as int, j as int, je as int, pair) || run_match(
                    fwd@,
                    bwd@,
                    a as int,
                    a + 1,
                    j as int,
                    je as int,
                    pair,
                )) <==> run_match(fwd@, bwd@, i as int, a + 1, j as int, je as int, pair) by {
                if run_match(fwd@, bwd@, i as int, a + 1, j as int, je as int, pair) {
                    let (a2, b2) = choose|a2: int, b2: int|
                        i <= a2 < a + 1 && j <= b2 < je && (#[trigger] fwd@[a2]).1 == pair.0
                            && (#[trigger] bwd@[b2]).1 == pair.1;
                    if a2 < a {
                        assert(run_match(fwd@, bwd@, i as int, a as int, j as int, je as int, pair));
                    } else {
                        assert(run_match(fwd@, bwd@, a as int, a + 1, j as int, je as int, pair));
                    }
                }
                if run_match(fwd@, bwd@, i as int, a as int, j as int, je as int, pair) {
                    let (a2, b2) = choose|a2: int, b2: int|
                        i <= a2 < a && j <= b2 < je && (#[trigger] fwd@[a2]).1 == pair.0
                            && (#[trigger] bwd@[b2]).1 == pair.1;
                    assert(run_match(fwd@, bwd@, i as int, a + 1, j as int, je as int, pair));
                }
                if run_match(fwd@, bwd@, a as int, a + 1, j as int, je as int, pair) {
                    let (a2, b2) = choose|a2: int, b2: int|
                        a <= a2 < a + 1 && j <= b2 < je && (#[trigger] fwd@[a2]).1 == pair.0
                            && (#[trigger] bwd@[b2]).1 == pair.1;
                    assert(run_match(fwd@, bwd@, i as int, a + 1, j as int, je as int, pair));
                }
            }
        }
        a = a + 1;
    }
}

/// Walk the two sorted tables with two cursors and emit every key pair whose
/// entries share an intermediate value. A run of equal values in one table
/// meets a run of equal values in the other as a full cross product, so
/// duplicated intermediate values lose no matches.
pub fn merge_join(fwd: &Vec<(u32, u32)>, bwd: &Vec<(u32, u32)>) -> (r: Vec<(u32, u32)>)
    requires
        value_sorted(fwd@),
        value_sorted(bwd@),
    ensures
        forall|pair: (u32, u32)| r@.contains(pair) <==> table_match(fwd@, bwd@, pair),
{
    let n = fwd.len();
    let m = bwd.len();
    let mut r: Vec<(u32, u32)> = Vec::new();
    let mut i: usize = 0;
    let mut j: usize = 0;
    while i < n && j < m
        invariant
            value_sorted(fwd@),
            value_sorted(bwd@),
            n == fwd@.len(),
            m == bwd@.len(),
            i <= n,
            j <= m,
            forall|a: int, b: int|
                0 <= a < i && j <= b < m ==> (#[trigger] fwd@[a]).0 < (#[trigger] bwd@[b]).0,
            forall|a: int, b: int|
                i <= a < n && 0 <= b < j ==> (#[trigger] bwd@[b]).0 < (#[trigger] fwd@[a]).0,
            forall|pair: (u32, u32)|
                r@.contains(pair) <==> match_below(fwd@, bwd@, i as int, j as int, pair),
        decreases n - i + m - j,
    {
        let fv = fwd[i].0;
        let bv = bwd[j].0;
        if fv < bv {
            proof {
                assert forall|pair: (u32, u32)|
                    match_below(fwd@, bwd@, i + 1, j as int, pair) <==> match_below(
                        fwd@,
                        bwd@,
                        i as int,
                        j as int,
                        pair,
                    ) by {
                    if match_below(fwd@, bwd@, i + 1, j as int, pair) {
                        let (a, b) = choose|a: int, b: int|
                            0 <= a < i + 1 && 0 <= b < j && (#[trigger] fwd@[a]).0 == (
                            #[trigger] bwd@[b]).0 && fwd@[a].1 == pair.0 && bwd@[b].1 == pair.1;
                        assert(a < i);
                        assert(match_below(fwd@, bwd@, i as int, j as int, pair));
                    }
                    if match_below(fwd@, bwd@, i as int, j as int, pair) {
                        let (a, b) = choose|a: int, b: int|
                            0 <= a < i && 0 <= b < j && (#[trigger] fwd@[a]).0 == (
                            #[trigger] bwd@[b]).0 && fwd@[a].1 == pair.0 && bwd@[b].1 == pair.1;
                        assert(match_below(fwd@, bwd@, i + 1, j as int, pair));
                    }
                }
            }
            i = i + 1;
        } else if bv < fv {
            proof {
                assert forall|pair: (u32, u32)|
                    match_below(fwd@, bwd@, i as int, j + 1, pair) <==> match_below(
                        fwd@,
                        bwd@,
                        i as int,
                        j as int,
                        pair,
                    ) by {
                    if match_below(fwd@, bwd@, i as int, j + 1, pair) {
                        let (a, b) = choose|a: int, b: int|
                            0 <= a < i && 0 <= b < j + 1 && (#[trigger] fwd@[a]).0 == (
                            #[trigger] bwd@[b]).0 && fwd@[a].1 == pair.0 && bwd@[b].1 == pair.1;
                        assert(b < j);
                        assert(match_below(fwd@, bwd@, i as int, j as int, pair));
                    }
                    if match_below(fwd@, bwd@, i as int, j as int, pair) {
                        let (a, b) = choose|a: int, b: int|
                            0 <= a < i && 0 <= b < j && (#[trigger] fwd@[a]).0 == (
                            #[trigger] bwd@[b]).0 && fwd@[a].1 == pair.0 && bwd@[b].1 == pair.1;
                        assert(match_below(fwd@, bwd@, i as int, j + 1, pair));
                    }
                }
            }
            j = j + 1;
        } else {
            let mut ie: usize = i + 1;
            while ie < n && fwd[ie].0 == fv
                invariant
                    i < ie <= n,
                    n == fwd@.len(),
                    forall|a: int| i <= a < ie ==> (#[trigger] fwd@[a]).0 == fv,
                decreases n - ie,
            {
                ie = ie + 1;
            }
            let mut je: usize = j + 1;
            while je < m && bwd[je].0 == bv
                invariant
                    j < je <= m,
                    m == bwd@.len(),
                    forall|b: int| j <= b < je ==> (#[trigger] bwd@[b]).0 == bv,
                decreases m - je,
            {
                je = je + 1;
            }
            proof {
                assert forall|a: int| ie <= a < n implies (#[trigger] fwd@[a]).0 > fv by {
                    assert(fwd@[ie as int].0 != fv);
                    assert(fwd@[i as int].0 <= fwd@[ie as int].0);
                    assert(fwd@[ie as int].0 <= fwd@[a].0);
                }
                assert forall|b: int| je <= b < m implies (#[trigger] bwd@[b]).0 > bv by {
                    assert(bwd@[je as int].0 != bv);
                    assert(bwd@[j as int].0 <= bwd@[je as int].0);
                    assert(bwd@[je as int].0 <= bwd@[b].0);
                }
            }
            let ghost r_before = r@;
            emit_run(&mut r, fwd, bwd, i, ie, j, je);
            proof {
                assert forall|pair: (u32, u32)|
                    r@.contains(pair) <==> match_below(fwd@, bwd@, ie as int, je as int, pair) by {
                    if r@.contains(pair) {
                        if r_before.contains(pair) {
                            let (a, b) = choose|a: int, b: int|
                                0 <= a < i && 0 <= b < j && (#[trigger] fwd@[a]).0 == (
                                #[trigger] bwd@[b]).0 && fwd@[a].1 == pair.0 && bwd@[b].1
                                    == pair.1;
                            assert(match_below(fwd@, bwd@, ie as int, je as int, pair));
                        } else {
                            let (a, b) = choose|a: int, b: int|
                                i <= a < ie && j <= b < je && (#[trigger] fwd@[a]).1 == pair.0 && (
                                #[trigger] bwd@[b]).1 == pair.1;
                            assert(fwd@[a].0 == fv && bwd@[b].0 == bv);
                            assert(match_below(fwd@, bwd@, ie as int, je as int, pair));
                        }
                    }
                    if match_below(fwd@, bwd@, ie as int, je as int, pair) {
                        let (a, b) = choose|a: int, b: int|
                            0 <= a < ie && 0 <= b < je && (#[trigger] fwd@[a]).0 == (
                            #[trigger] bwd@[b]).0 && fwd@[a].1 == pair.0 && bwd@[b].1 == pair.1;
                        if a < i && b < j {
                            assert(match_below(fwd@, bwd@, i as int, j as int, pair));
                            assert(r_before.contains(pair));
                        } else if a < i {
                            assert(fwd@[a].0 < bwd@[b].0);
                            assert(false);
                        } else if b < j {
                            assert(bwd@[b].0 < fwd@[a].0);
                            assert(false);
                        } else {
                            assert(run_match(fwd@, bwd@, i as int, ie as int, j as int, je as int, pair));
                        }
                        assert(r@.contains(pair));
                    }
                }
                assert forall|a: int, b: int| 0 <= a < ie && je <= b < m implies (
                #[trigger] fwd@[a]).0 < (#[trigger] bwd@[b]).0 by {
                    if a >= i {
                        assert(fwd@[a].0 == fv);
                        assert(bwd@[b].0 > bv);
                    }
                }
                assert forall|a: int, b: int| ie <= a < n && 0 <= b < je implies (
                #[trigger] bwd@[b]).0 < (#[trigger] fwd@[a]).0 by {
                    if b >= j {
                        assert(bwd@[b].0 == bv);
                        assert(fwd@[a].0 > fv);
                    }
                }
            }
            i = ie;
            j = je;
        }
    }
    proof {
        assert forall|pair: (u32, u32)|
            r@.contains(pair) <==> table_match(fwd@, bwd@, pair) by {
            if r@.contains(pair) {
                let (a, b) = choose|a: int, b: int|
                    0 <= a < i && 0 <= b < j && (#[trigger] fwd@[a]).0 == (#[trigger] bwd@[b]).0
                        && fwd@[a].1 == pair.0 && bwd@[b].1 == pair.1;
                assert(table_match(fwd@, bwd@, pair));
            }
            if table_match(fwd@, bwd@, pair) {
                let (a, b) = choose|a: int, b: int|
                    0 <= a < fwd@.len() && 0 <= b < bwd@.len() && (#[trigger] fwd@[a]).0 == (
                    #[trigger] bwd@[b]).0 && fwd@[a].1 == pair.0 && bwd@[b].1 == pair.1;
                if i == n {
                    assert(!(j <= b < m));
                } else {
                    assert(!(i <= a < n));
                }
                assert(match_below(fwd@, bwd@, i as int, j as int, pair));
            }
        }
    }
    r
}

/// Join the two sorted tables and keep only the key pairs that also map the
/// second plaintext to the second ciphertext under the cascade.
pub fn search_candidates(
    fwd: &Vec<(u32, u32)>,
    bwd: &Vec<(u32, u32)>,
    plaintext: u32,
    ciphertext: u32,
) -> (r: Vec<(u32, u32)>)
    requires
        value_sorted(fwd@),
        value_sorted(bwd@),
        fits_block(plaintext),
        forall|a: int| 0 <= a < fwd@.len() ==> fits_block((#[trigger] fwd@[a]).1),
        forall|b: int| 0 <= b < bwd@.len() ==> fits_block((#[trigger] bwd@[b]).1),
    ensures
        forall|pair: (u32, u32)|
            r@.contains(pair) <==> table_match(fwd@, bwd@, pair) && verified_pair(
                plaintext,
                ciphertext,
                pair,
            ),
{
    let candidates = merge_join(fwd, bwd);
    let mut r: Vec<(u32, u32)> = Vec::new();
    let mut idx: usize = 0;
    while idx < candidates.len()
        invariant
            fits_block(plaintext),
            forall|a: int| 0 <= a < fwd@.len() ==> fits_block((#[trigger] fwd@[a]).1),
            forall|b: int| 0 <= b < bwd@.len() ==> fits_block((#[trigger] bwd@[b]).1),
            forall|pair: (u32, u32)|
                candidates@.contains(pair) <==> table_match(fwd@, bwd@, pair),
            idx <= candidates@.len(),
            forall|pair: (u32, u32)|
                r@.contains(pair) <==> candidates@.subrange(0, idx as int).contains(pair)
                    && verified_pair(plaintext, ciphertext, pair),
        decreases candidates@.len() - idx,
    {
        let key1 = candidates[idx].0;
        let key2 = candidates[idx].1;
        proof {
            assert(candidates@[idx as int] == (key1, key2));
            assert(candidates@.contains(candidates@[idx as int]));
            let (a, b) = choose|a: int, b: int|
                0 <= a < fwd@.len() && 0 <= b < bwd@.len() && (#[trigger] fwd@[a]).0 == (
                #[trigger] bwd@[b]).0 && fwd@[a].1 == key1 && bwd@[b].1 == key2;
            assert(fits_block(key1) && fits_block(key2));
        }
        let ghost r0 = r@;
        let image = double_present24(key1, key2, plaintext);
        if image == ciphertext {
            r.push((key1, key2));
        }
        proof {
            assert(candidates@.subrange(0, idx + 1) =~= candidates@.subrange(0, idx as int).push(
                candidates@[idx as int]));
            assert forall|pair: (u32, u32)|
                r@.contains(pair) <==> candidates@.subrange(0, idx + 1).contains(pair)
                    && verified_pair(plaintext, ciphertext, pair) by {
                lemma_push_contains(candidates@.subrange(0, idx as int), candidates@[idx as int], pair);
                if image == ciphertext {
                    lemma_push_contains(r0, (key1, key2), pair);
                }
            }
        }
        idx = idx + 1;
    }
    proof {
        assert(candidates@.subrange(0, candidates@.len() as int) =~= candidates@);
    }
    r
}

/// The full attack: build the sorted intermediate tables from the first
/// plaintext/ciphertext pair, join them, and verify the surviving key pairs
/// against the second pair. The result holds exactly the key pairs consistent
/// with both pairs; it is empty when no key pair is.
pub fn mitm_attack_present24(plain1: u32, cipher1: u32, plain2: u32, cipher2: u32) -> (r: Vec<
    (u32, u32),
>)
    requires
        fits_block(plain1),
        fits_block(cipher1),
        fits_block(plain2),
        fits_block(cipher2),
    ensures
        forall|pair: (u32, u32)|
            r@.contains(pair) <==> consistent_pair(plain1, cipher1, plain2, cipher2, pair),
        r@.len() == 0 <==> (forall|pair: (u32, u32)|
            !consistent_pair(plain1, cipher1, plain2, cipher2, pair)),
{
    let tables = generate_intermediate_states(plain1, cipher1, 0x1000000);
    let fwd = tables.0;
    let bwd = tables.1;
    proof {
        lemma_lex_sorted_value_sorted(fwd@);
        lemma_lex_sorted_value_sorted(bwd@);
        assert forall|a: int| 0 <= a < fwd@.len() implies fits_block((#[trigger] fwd@[a]).1) by {
            assert(fwd@.contains(fwd@[a]));
        }
        assert forall|b: int| 0 <= b < bwd@.len() implies fits_block((#[trigger] bwd@[b]).1) by {
            assert(bwd@.contains(bwd@[b]));
        }
    }
    let r = search_candidates(&fwd, &bwd, plain2, cipher2);
    proof {
        assert forall|pair: (u32, u32)|
            table_match(fwd@, bwd@, pair) <==> (fits_block(pair.0) && fits_block(pair.1)
                && verified_pair(plain1, cipher1, pair)) by {
            if table_match(fwd@, bwd@, pair) {
                let (a, b) = choose|a: int, b: int|
                    0 <= a < fwd@.len() && 0 <= b < bwd@.len() && (#[trigger] fwd@[a]).0 == (
                    #[trigger] bwd@[b]).0 && fwd@[a].1 == pair.0 && bwd@[b].1 == pair.1;
                assert(fwd@.contains(fwd@[a]));
                assert(bwd@.contains(bwd@[b]));
                lemma_meet_condition(pair.0, pair.1, plain1, cipher1);
            }
            if fits_block(pair.0) && fits_block(pair.1) && verified_pair(plain1, cipher1, pair) {
                lemma_meet_condition(pair.0, pair.1, plain1, cipher1);
                let fe = (forward_value(plain1, pair.0), pair.0);
                let be = (backward_value(cipher1, pair.1), pair.1);
                assert(fwd@.contains(fe));
                assert(bwd@.contains(be));
                let a = choose|a: int| 0 <= a < fwd@.len() && fwd@[a] == fe;
                let b = choose|b: int| 0 <= b < bwd@.len() && bwd@[b] == be;
                assert(fwd@[a].0 == bwd@[b].0);
                assert(table_match(fwd@, bwd@, pair));
            }
        }
        if r@.len() == 0 {
            assert forall|pair: (u32, u32)|
                !consistent_pair(plain1, cipher1, plain2, cipher2, pair) by {
                if consistent_pair(plain1, cipher1, plain2, cipher2, pair) {
                    assert(r@.contains(pair));
                }
            }
        } else {
            assert(r@.contains(r@[0]));
            assert(consistent_pair(plain1, cipher1, plain2, cipher2, r@[0]));
        }
    }
    r
}

/// Soundness of the search: whenever both known pairs really were produced by
/// the cascade under a key pair, that key pair is consistent with them, so
/// the attack's result contains it.
pub proof fn lemma_mitm_soundness(key1: u32, key2: u32, plain1: u32, plain2: u32)
    requires
        fits_block(key1),
        fits_block(key2),
        fits_block(plain1),
        fits_block(plain2),
    ensures
        consistent_pair(
            plain1,
            spec_double(key1, key2, plain1),
            plain2,
            spec_double(key1, key2, plain2),
            (key1, key2),
        ),
{
}

} // verus!
