//! Compact graph6-style encoding of small graphs.
//!
//! A graph is encoded as a node-count header followed by the upper triangle
//! of its adjacency matrix, six bits per printable byte (offset 63).

use vstd::prelude::*;
use vstd::arithmetic::power2::{pow2, lemma_pow2_adds, lemma_pow2_pos, lemma2_to64};
use vstd::arithmetic::div_mod::{lemma_breakdown, lemma_div_denominator};

verus! {

/// The value of a bit string read most-significant bit first.
pub open spec fn bits_val(s: Seq<bool>) -> nat
    decreases s.len(),
{
    if s.len() == 0 {
        0
    } else {
        bits_val(s.drop_last()) * 2 + (if s.last() {
            1nat
        } else {
            0nat
        })
    }
}

pub proof fn lemma_bits_val_bound(s: Seq<bool>)
    ensures
        bits_val(s) < pow2(s.len()),
    decreases s.len(),
{
    if s.len() == 0 {
        assert(pow2(0) == 1) by {
            lemma2_to64();
        }
    } else {
        lemma_bits_val_bound(s.drop_last());
        lemma_pow2_adds((s.len() - 1) as nat, 1);
        assert(pow2(1) == 2) by {
            lemma2_to64();
        }
    }
}

/// The `w`-bit binary form of `n`, most-significant bit first.
pub open spec fn nat_bits(n: nat, w: nat) -> Seq<bool> {
    Seq::new(w as nat, |j: int| (n / pow2((w - 1 - j) as nat)) % 2 == 1)
}

pub proof fn lemma_nat_bits_val(n: nat, w: nat)
    ensures
        bits_val(nat_bits(n, w)) == n % pow2(w),
    decreases w,
{
    lemma2_to64();
    if w == 0 {
        assert(n % pow2(0) == 0) by {
            assert(pow2(0) == 1);
        }
    } else {
        lemma_nat_bits_val(n / 2, (w - 1) as nat);
        assert(nat_bits(n, w).drop_last() =~= nat_bits(n / 2, (w - 1) as nat)) by {
            assert forall|j: int| 0 <= j < w - 1 implies nat_bits(n, w).drop_last()[j] == nat_bits(
                n / 2,
                (w - 1) as nat,
            )[j] by {
                let e = (w - 2 - j) as nat;
                lemma_pow2_pos(e);
                lemma_div_denominator(n as int, 2, pow2(e) as int);
                lemma_pow2_adds(1, e);
                assert((n / 2) / pow2(e) == n / pow2((e + 1) as nat));
            }
        }
        assert(nat_bits(n, w).last() == (n % 2 == 1)) by {
            assert(pow2(0) == 1);
            vstd::arithmetic::div_mod::lemma_div_basics(n as int);
        }
        lemma_pow2_pos((w - 1) as nat);
        lemma_breakdown(n as int, 2, pow2((w - 1) as nat) as int);
        lemma_pow2_adds(1, (w - 1) as nat);
    }
}

pub proof fn lemma_nat_bits_inverse(s: Seq<bool>)
    ensures
        nat_bits(bits_val(s), s.len()) =~= s,
    decreases s.len(),
{
    lemma2_to64();
    if s.len() > 0 {
        let w = s.len();
        let n = bits_val(s);
        let a = bits_val(s.drop_last());
        let b: nat = if s.last() {
            1
        } else {
            0
        };
        lemma_nat_bits_inverse(s.drop_last());
        assert(n == a * 2 + b);
        assert(n / 2 == a && n % 2 == b) by {
            lemma_breakdown_for_two(a, b);
        }
        assert forall|j: int| 0 <= j < w implies nat_bits(n, w)[j] == s[j] by {
            if j == w - 1 {
                assert(pow2(0) == 1);
                assert(n / pow2(0) % 2 == b);
            } else {
                let e = (w - 2 - j) as nat;
                lemma_pow2_pos(e);
                lemma_div_denominator(n as int, 2, pow2(e) as int);
                lemma_pow2_adds(1, e);
                assert(n / pow2((w - 1 - j) as nat) % 2 == a / pow2(e) % 2);
                assert(nat_bits(a, (w - 1) as nat)[j] == s.drop_last()[j]);
            }
        }
    }
}

proof fn lemma_breakdown_for_two(a: nat, b: nat)
    requires
        b < 2,
    ensures
        (a * 2 + b) / 2 == a,
        (a * 2 + b) % 2 == b,
{
    let n = a * 2 + b;
    assert(n / 2 == a && n % 2 == b) by (nonlinear_arith)
        requires
            n == a * 2 + b,
            b < 2,
    ;
}

/// The `k`-th group of six bits of `x`, padded on the right with zeros.
pub open spec fn g6_chunk(x: Seq<bool>, k: int) -> Seq<bool> {
    Seq::new(6, |t: int| if 6 * k + t < x.len() {
        x[6 * k + t]
    } else {
        false
    })
}

/// The printable bytes for a bit string: each group of six bits, offset by 63.
pub open spec fn g6_bytes(x: Seq<bool>) -> Seq<u8> {
    Seq::new(((x.len() + 5) / 6) as nat, |k: int| (bits_val(g6_chunk(x, k)) + 63) as u8)
}

/// Convert six bits into a byte, most-significant bit first.
pub fn to_u8(slice: Vec<bool>) -> (b: u8)
    requires
        slice@.len() == 6,
    ensures
        b as nat == bits_val(slice@),
{
    let mut acc: u8 = 0;
    let mut i: usize = 0;
    proof {
        lemma2_to64();
        assert(slice@.take(0) =~= Seq::<bool>::empty());
    }
    while i < 6
        invariant
            i <= 6,
            slice@.len() == 6,
            acc as nat == bits_val(slice@.take(i as int)),
            acc < pow2(i as nat),
        decreases 6 - i,
    {
        proof {
            lemma2_to64();
            assert(pow2(i as nat) <= pow2(5)) by {
                if i < 5 {
                    vstd::arithmetic::power2::lemma_pow2_strictly_increases(i as nat, 5);
                }
            }
            assert(slice@.take(i + 1).drop_last() =~= slice@.take(i as int));
            lemma_bits_val_bound(slice@.take(i + 1));
        }
        if slice[i] {
            acc = acc * 2 + 1;
        } else {
            acc = acc * 2;
        }
        i = i + 1;
    }
    proof {
        assert(slice@.take(6) =~= slice@);
    }
    acc
}

/// Represent a bit string as printable graph6 bytes, six bits per byte,
/// padding the last group on the right with zeros.
pub fn graph6_repr_bits(x: &Vec<bool>) -> (r: Vec<u8>)
    requires
        x@.len() + 5 <= usize::MAX,
    ensures
        r@ == g6_bytes(x@),
{
    proof {
        vstd::arithmetic::div_mod::lemma_fundamental_div_mod((x@.len() + 5) as int, 6);
    }
    let n = x.len();
    let nchunks = (n + 5) / 6;
    let mut r: Vec<u8> = Vec::new();
    let mut k: usize = 0;
    while k < nchunks
        invariant
            k <= nchunks,
            n == x@.len(),
            n + 5 <= usize::MAX,
            nchunks == (n + 5) / 6,
            r@.len() == k,
            forall|q: int| 0 <= q < k ==> r@[q] == g6_bytes(x@)[q],
        decreases nchunks - k,
    {
        let mut chunk: Vec<bool> = Vec::new();
        let mut t: usize = 0;
        while t < 6
            invariant
                t <= 6,
                n == x@.len(),
                k < nchunks,
                nchunks == (n + 5) / 6,
                n + 5 <= usize::MAX,
                chunk@.len() == t,
                forall|q: int| 0 <= q < t ==> chunk@[q] == g6_chunk(x@, k as int)[q],
            decreases 6 - t,
        {
            if 6 * k + t < n {
                chunk.push(x[6 * k + t]);
            } else {
                chunk.push(false);
            }
            t = t + 1;
        }
        proof {
            assert(chunk@ =~= g6_chunk(x@, k as int));
            lemma_bits_val_bound(chunk@);
            lemma2_to64();
        }
        let byte = to_u8(chunk) + 63;
        r.push(byte);
        k = k + 1;
    }
    proof {
        assert(r@ =~= g6_bytes(x@));
    }
    r
}

/// The largest node count the encoding accepts (36 bits).
pub open spec fn max_nodes() -> int {
    68719476735
}

/// The graph6 bytes of a node count: one byte up to 62, a 126 marker plus
/// 18 bits up to 258047, and two 126 markers plus 36 bits beyond that.
pub open spec fn encode_nodes_spec(n: int) -> Seq<u8> {
    if n <= 62 {
        seq![(n + 63) as u8]
    } else if n <= 258047 {
        seq![126u8] + g6_bytes(nat_bits(n as nat, 18))
    } else {
        seq![126u8, 126u8] + g6_bytes(nat_bits(n as nat, 36))
    }
}

/// The `w`-bit binary form of `n`, most-significant bit first.
fn nat_to_bits(n: u64, w: usize) -> (r: Vec<bool>)
    requires
        w <= 64,
    ensures
        r@ == nat_bits(n as nat, w as nat),
{
    let mut r: Vec<bool> = Vec::new();
    let mut t: usize = 0;
    while t < w
        invariant
            t <= w,
            r@.len() == t,
            forall|q: int| 0 <= q < t ==> r@[q] == false,
        decreases w - t,
    {
        r.push(false);
        t = t + 1;
    }
    let mut d = n;
    let mut k: usize = 0;
    proof {
        lemma2_to64();
    }
    while k < w
        invariant
            k <= w,
            w <= 64,
            r@.len() == w,
            d as nat == n as nat / pow2(k as nat),
            forall|j: int| w - k <= j < w ==> r@[j] == nat_bits(n as nat, w as nat)[j],
        decreases w - k,
    {
        let bit = d % 2 == 1;
        r.set(w - 1 - k, bit);
        proof {
            let e = k as nat;
            assert(nat_bits(n as nat, w as nat)[w - 1 - k] == ((n as nat / pow2(e)) % 2 == 1));
            lemma_pow2_pos(e);
            lemma_div_denominator(n as int, pow2(e) as int, 2);
            lemma_pow2_adds(e, 1);
            assert(pow2(1) == 2) by {
                lemma2_to64();
            }
            assert((n as nat / pow2(e)) / 2 == n as nat / pow2((e + 1) as nat));
        }
        d = d / 2;
        k = k + 1;
    }
    proof {
        assert(r@ =~= nat_bits(n as nat, w as nat));
    }
    r
}

/// Encode a small nonnegative integer (a node count) as graph6 bytes.
pub fn encode_nodes(n: usize) -> (r: Vec<u8>)
    requires
        n <= max_nodes(),
    ensures
        r@ == encode_nodes_spec(n as int),
{
    if n <= 62 {
        let mut r: Vec<u8> = Vec::new();
        r.push((n as u8) + 63);
        proof {
            assert(r@ =~= encode_nodes_spec(n as int));
        }
        r
    } else if n <= 258047 {
        let bits = nat_to_bits(n as u64, 18);
        let mut r: Vec<u8> = Vec::new();
        r.push(126);
        let mut tail = graph6_repr_bits(&bits);
        r.append(&mut tail);
        proof {
            assert(r@ =~= encode_nodes_spec(n as int));
        }
        r
    } else {
        let bits = nat_to_bits(n as u64, 36);
        let mut r: Vec<u8> = Vec::new();
        r.push(126);
        r.push(126);
        let mut tail = graph6_repr_bits(&bits);
        r.append(&mut tail);
        proof {
            assert(r@ =~= encode_nodes_spec(n as int));
        }
        r
    }
}

/// The position of the pair `(i, j)`, `i < j`, in the flattened upper
/// triangle ordered (0,1),(0,2),(1,2),(0,3),(1,3),(2,3),...
pub open spec fn upper_triangle_index_spec(i: int, j: int) -> int {
    j * (j - 1) / 2 + i
}

/// Get the flattened index of the pair `(i, j)` in the upper triangle.
pub fn upper_triangle_index(i: usize, j: usize) -> (k: usize)
    requires
        i < j,
        j * j <= usize::MAX,
    ensures
        k == upper_triangle_index_spec(i as int, j as int),
{
    proof {
        assert(j * (j - 1) <= j * j && j * (j - 1) >= 0) by (nonlinear_arith);
        assert(j * (j - 1) / 2 + i <= j * j) by (nonlinear_arith)
            requires
                i < j,
        ;
    }
    j * (j - 1) / 2 + i
}

/// Every upper-triangle index is below `n * (n - 1) / 2` when `j < n`.
pub proof fn lemma_upper_triangle_index_bound(i: int, j: int, n: int)
    requires
        0 <= i < j < n,
    ensures
        0 <= upper_triangle_index_spec(i, j) < n * (n - 1) / 2,
{
    assert(j * (j - 1) / 2 + i >= 0 && j * (j - 1) / 2 + i < n * (n - 1) / 2) by (nonlinear_arith)
        requires
            0 <= i < j < n,
    ;
}

/// Distinct pairs of the upper triangle have distinct flattened indices.
pub proof fn lemma_upper_triangle_index_injective(i1: int, j1: int, i2: int, j2: int)
    requires
        0 <= i1 < j1,
        0 <= i2 < j2,
        upper_triangle_index_spec(i1, j1) == upper_triangle_index_spec(i2, j2),
    ensures
        i1 == i2 && j1 == j2,
{
    assert(j1 == j2 && i1 == i2) by (nonlinear_arith)
        requires
            0 <= i1 < j1,
            0 <= i2 < j2,
            j1 * (j1 - 1) / 2 + i1 == j2 * (j2 - 1) / 2 + i2,
    ;
}

/// The upper-triangle adjacency bits of a graph on `n` nodes: bit
/// `upper_triangle_index_spec(i, j)` is set exactly when `(i, j)` is an edge.
pub open spec fn adj_bits(n: int, edges: Seq<(usize, usize)>) -> Seq<bool> {
    Seq::new((n * (n - 1) / 2) as nat, |k: int| exists|t: int|
        0 <= t < edges.len() && upper_triangle_index_spec(edges[t].0 as int, edges[t].1 as int) == k)
}

/// A well-formed edge list on `n` nodes: each edge `(i, j)` has `i < j < n`.
pub open spec fn edges_wf(n: int, edges: Seq<(usize, usize)>) -> bool {
    forall|t: int| 0 <= t < edges.len() ==> edges[t].0 < edges[t].1 && edges[t].1 < n
}

/// Encode the upper triangle of the adjacency matrix of a graph as
/// graph6 bytes.
pub fn encode_edges(n: usize, edges: &Vec<(usize, usize)>) -> (r: Vec<u8>)
    requires
        edges_wf(n as int, edges@),
        n * n <= usize::MAX,
        n * n + 5 <= usize::MAX,
    ensures
        r@ == g6_bytes(adj_bits(n as int, edges@)),
{
    let mut m: usize = 0;
    if n > 0 {
        proof {
            assert(n * (n - 1) <= n * n && n * (n - 1) >= 0) by (nonlinear_arith);
        }
        m = n * (n - 1) / 2;
        proof {
            assert(m == n as int * (n as int - 1) / 2) by (nonlinear_arith)
                requires
                    n >= 1,
                    m == (n * (n - 1)) / 2,
            ;
        }
    } else {
        proof {
            assert(m == 0);
            assert(n == 0);
            assert(n as int - 1 == -1);
            assert(n as int * (n as int - 1) == 0);
            assert(n as int * (n as int - 1) / 2 == 0);
        }
    }
    let mut bits: Vec<bool> = Vec::new();
    let mut q: usize = 0;
    while q < m
        invariant
            q <= m,
            n * n <= usize::MAX,
            m == n as int * (n as int - 1) / 2,
            bits@.len() == q,
            forall|p: int| 0 <= p < q ==> bits@[p] == false,
        decreases m - q,
    {
        bits.push(false);
        q = q + 1;
    }
    let ne = edges.len();
    let mut t: usize = 0;
    while t < ne
        invariant
            t <= ne,
            ne == edges@.len(),
            edges_wf(n as int, edges@),
            n * n <= usize::MAX,
            m == n as int * (n as int - 1) / 2,
            bits@.len() == m,
            forall|p: int|
                0 <= p < m ==> bits@[p] == exists|u: int|
                    0 <= u < t && upper_triangle_index_spec(
                        edges@[u].0 as int,
                        edges@[u].1 as int,
                    ) == p,
        decreases ne - t,
    {
        let (i, j) = edges[t];
        proof {
            assert(j * j <= n * n) by (nonlinear_arith)
                requires
                    j < n,
            ;
            lemma_upper_triangle_index_bound(i as int, j as int, n as int);
        }
        let k = upper_triangle_index(i, j);
        bits.set(k, true);
        proof {
            let ghost told = t as int;
            assert forall|p: int| 0 <= p < m implies bits@[p] == exists|u: int|
                0 <= u < told + 1 && upper_triangle_index_spec(
                    edges@[u].0 as int,
                    edges@[u].1 as int,
                ) == p by {
                if p == k {
                    assert(upper_triangle_index_spec(edges@[told].0 as int, edges@[told].1 as int)
                        == p);
                }
            }
        }
        t = t + 1;
    }
    proof {
        assert(bits@ =~= adj_bits(n as int, edges@));
    }
    graph6_repr_bits(&bits)
}

/// Encode a graph, given as a node count and an upper-triangle edge list,
/// as a graph6 byte string (each byte is one printable character).
pub fn encode_graph_as_graph6(n: usize, edges: &Vec<(usize, usize)>) -> (r: Vec<u8>)
    requires
        edges_wf(n as int, edges@),
        n <= max_nodes(),
        n * n <= usize::MAX,
        n * n + 13 <= usize::MAX,
    ensures
        r@ == encode_nodes_spec(n as int) + g6_bytes(adj_bits(n as int, edges@)),
{
    let mut r = encode_nodes(n);
    let mut tail = encode_edges(n, edges);
    r.append(&mut tail);
    r
}

/// The bits recovered from printable graph6 bytes: six bits per byte,
/// most-significant first, after removing the offset 63.
pub open spec fn g6_decode_bits(bytes: Seq<u8>) -> Seq<bool> {
    Seq::new((bytes.len() * 6) as nat, |t: int| nat_bits((bytes[t / 6] - 63) as nat, 6)[t % 6])
}

/// Decoding the bytes of a bit string recovers the bit string (up to the
/// zero padding of the last six-bit group).
pub proof fn lemma_g6_bytes_decode(x: Seq<bool>)
    ensures
        g6_decode_bits(g6_bytes(x)).len() >= x.len(),
        g6_decode_bits(g6_bytes(x)).take(x.len() as int) =~= x,
{
    let bytes = g6_bytes(x);
    let nchunks = (x.len() + 5) as int / 6;
    vstd::arithmetic::div_mod::lemma_fundamental_div_mod((x.len() + 5) as int, 6);
    assert(bytes.len() == nchunks);
    assert(nchunks * 6 >= x.len());
    assert forall|t: int| 0 <= t < x.len() implies g6_decode_bits(bytes)[t] == x[t] by {
        let k = t / 6;
        let tm = t % 6;
        vstd::arithmetic::div_mod::lemma_fundamental_div_mod(t, 6);
        assert(0 <= tm < 6);
        assert(0 <= k < nchunks) by (nonlinear_arith)
            requires
                0 <= t < x.len(),
                k == t / 6,
                t == 6 * k + tm,
                0 <= tm < 6,
                nchunks == (x.len() + 5) as int / 6,
                (x.len() + 5) as int == 6 * nchunks + ((x.len() + 5) as int % 6),
                0 <= (x.len() + 5) as int % 6 < 6,
        ;
        let chunk = g6_chunk(x, k);
        lemma_bits_val_bound(chunk);
        assert(pow2(6) == 64) by {
            lemma2_to64();
        }
        assert(bytes[k] == (bits_val(chunk) + 63) as u8);
        assert((bytes[k] - 63) as nat == bits_val(chunk));
        lemma_nat_bits_inverse(chunk);
        assert(nat_bits(bits_val(chunk), 6)[tm] == chunk[tm]);
        assert(chunk[tm] == x[6 * k + tm]);
    }
}

/// The node count read back from the head of a graph6 byte string, or -1
/// where no count can be read.
pub open spec fn decode_nodes_spec(bytes: Seq<u8>) -> int {
    if bytes.len() >= 1 && bytes[0] != 126 {
        bytes[0] - 63
    } else if bytes.len() >= 4 && bytes[0] == 126 && bytes[1] != 126 {
        bits_val(g6_decode_bits(bytes.subrange(1, 4))) as int
    } else if bytes.len() >= 8 && bytes[0] == 126 && bytes[1] == 126 {
        bits_val(g6_decode_bits(bytes.subrange(2, 8))) as int
    } else {
        -1
    }
}

/// Helper: the six-bit groups of a `w`-bit number are the bits of its
/// six-bit slices, so the byte for group `k` is readable from `n` directly.
proof fn lemma_nat_bits_chunk(n: nat, w: nat, k: int)
    requires
        0 <= k,
        6 * k + 6 <= w,
    ensures
        g6_chunk(nat_bits(n, w), k) =~= nat_bits(n / pow2((w - 6 * k - 6) as nat), 6),
{
    let e = (w - 6 * k - 6) as nat;
    assert forall|t: int| 0 <= t < 6 implies g6_chunk(nat_bits(n, w), k)[t] == nat_bits(
        n / pow2(e),
        6,
    )[t] by {
        let f = (5 - t) as nat;
        lemma_pow2_pos(e);
        lemma_pow2_pos(f);
        lemma_div_denominator(n as int, pow2(e) as int, pow2(f) as int);
        lemma_pow2_adds(e, f);
        assert((n / pow2(e)) / pow2(f) == n / pow2((e + f) as nat));
        assert(nat_bits(n, w)[6 * k + t] == ((n / pow2((w - 1 - 6 * k - t) as nat)) % 2 == 1));
        assert((e + f) as nat == (w - 1 - 6 * k - t) as nat);
    }
}

/// Reading the node count back from an encoded stream recovers it, whatever
/// bytes follow the header.
pub proof fn lemma_decode_nodes(n: int, rest: Seq<u8>)
    requires
        0 <= n <= max_nodes(),
    ensures
        decode_nodes_spec(encode_nodes_spec(n) + rest) == n,
{
    lemma2_to64();
    vstd::arithmetic::power2::lemma2_to64_rest();
    let bytes = encode_nodes_spec(n) + rest;
    if n <= 62 {
        assert(bytes[0] == (n + 63) as u8);
    } else if n <= 258047 {
        let bits = nat_bits(n as nat, 18);
        let body = g6_bytes(bits);
        assert(body.len() == 3);
        assert(bytes.len() >= 4);
        assert(bytes[0] == 126);
        // The first six bits of an 18-bit count below 258048 give a byte
        // under 126, so the header is unambiguous.
        lemma_nat_bits_chunk(n as nat, 18, 0);
        lemma_nat_bits_val((n / pow2(12) as int) as nat, 6);
        assert(n / pow2(12) as int <= 62);
        vstd::arithmetic::div_mod::lemma_small_mod((n / pow2(12) as int) as nat, pow2(6));
        assert(bits_val(g6_chunk(bits, 0)) == n / pow2(12) as int);
        assert(bytes[1] == body[0]);
        assert(body[0] == (bits_val(g6_chunk(bits, 0)) + 63) as u8);
        assert(bytes[1] != 126);
        lemma_g6_bytes_decode(bits);
        assert(bytes.subrange(1, 4) =~= body);
        assert(g6_decode_bits(body).take(18) =~= g6_decode_bits(body));
        assert(g6_decode_bits(body) =~= bits);
        lemma_nat_bits_val(n as nat, 18);
        vstd::arithmetic::div_mod::lemma_small_mod(n as nat, pow2(18));
    } else {
        let bits = nat_bits(n as nat, 36);
        let body = g6_bytes(bits);
        assert(body.len() == 6);
        assert(bytes.len() >= 8);
        assert(bytes[0] == 126 && bytes[1] == 126);
        lemma_g6_bytes_decode(bits);
        assert(bytes.subrange(2, 8) =~= body);
        assert(g6_decode_bits(body).take(36) =~= g6_decode_bits(body));
        assert(g6_decode_bits(body) =~= bits);
        lemma_nat_bits_val(n as nat, 36);
        vstd::arithmetic::div_mod::lemma_small_mod(n as nat, pow2(36));
    }
}

/// Round trip: from the encoded bytes of a graph, the node count and the
/// exact edge set can be read back; encoding loses nothing.
pub proof fn lemma_graph6_round_trip(n: usize, edges: Seq<(usize, usize)>)
    requires
        edges_wf(n as int, edges),
        n <= max_nodes(),
    ensures
        ({
            let bytes = encode_nodes_spec(n as int) + g6_bytes(adj_bits(n as int, edges));
            let header = encode_nodes_spec(n as int).len() as int;
            &&& decode_nodes_spec(bytes) == n
            &&& forall|i: usize, j: usize|
                i < j && j < n ==> (#[trigger] edges.contains((i, j)) <==> g6_decode_bits(
                    bytes.skip(header),
                )[upper_triangle_index_spec(i as int, j as int)])
        }),
{
    let adj = adj_bits(n as int, edges);
    let body = g6_bytes(adj);
    let bytes = encode_nodes_spec(n as int) + body;
    let header = encode_nodes_spec(n as int).len() as int;
    lemma_decode_nodes(n as int, body);
    assert(bytes.skip(header) =~= body);
    lemma_g6_bytes_decode(adj);
    assert forall|i: usize, j: usize| i < j && j < n implies (#[trigger] edges.contains((i, j))
        <==> g6_decode_bits(body)[upper_triangle_index_spec(i as int, j as int)]) by {
        let k = upper_triangle_index_spec(i as int, j as int);
        lemma_upper_triangle_index_bound(i as int, j as int, n as int);
        assert(g6_decode_bits(body).take(adj.len() as int)[k] == adj[k]);
        if edges.contains((i, j)) {
            let t = choose|t: int| 0 <= t < edges.len() && edges[t] == (i, j);
            assert(upper_triangle_index_spec(edges[t].0 as int, edges[t].1 as int) == k);
            assert(adj[k]);
        }
        if adj[k] {
            let t = choose|t: int|
                0 <= t < edges.len() && upper_triangle_index_spec(
                    edges[t].0 as int,
                    edges[t].1 as int,
                ) == k;
            lemma_upper_triangle_index_injective(
                edges[t].0 as int,
                edges[t].1 as int,
                i as int,
                j as int,
            );
            assert(edges[t] == (i, j));
            assert(edges.contains((i, j)));
        }
    }
}

} // verus!

