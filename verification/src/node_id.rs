use vstd::prelude::*;
use crate::crypto::{hex_encode, hex_text};

verus! {

/// Lexicographic strict order on byte strings of equal length, the order in
/// which XOR distances are compared.
pub open spec fn lex_lt(a: Seq<u8>, b: Seq<u8>) -> bool {
    exists|i: int|
        #![trigger a[i], b[i]]
        0 <= i < a.len() && i < b.len() && (forall|j: int| 0 <= j < i ==> a[j] == b[j]) && a[i]
            < b[i]
}

/// Bytewise XOR of two 32-byte strings.
pub open spec fn xor_seq(a: Seq<u8>, b: Seq<u8>) -> Seq<u8> {
    Seq::new(32, |i: int| a[i] ^ b[i])
}

/// 256-bit node identifier; in the overlay it is the SHA-256 digest of the
/// node's Ed25519 public key.
#[derive(Clone, Copy, Debug, Eq, Hash)]
pub struct NodeId(pub [u8; 32]);

impl PartialEq for NodeId {
    fn eq(&self, other: &NodeId) -> (r: bool) {
        let mut i: usize = 0;
        while i < 32
            invariant
                i <= 32,
                forall|j: int| 0 <= j < i ==> self.0[j] == other.0[j],
            decreases 32 - i,
        {
            if self.0[i] != other.0[i] {
                return false;
            }
            i = i + 1;
        }
        proof {
            broadcast use vstd::array::axiom_array_ext_equal;
            assert(self.0 =~= other.0);
        }
        true
    }
}

impl vstd::std_specs::cmp::PartialEqSpecImpl for NodeId {
    open spec fn obeys_eq_spec() -> bool {
        true
    }

    open spec fn eq_spec(&self, other: &NodeId) -> bool {
        self.0 == other.0
    }
}

impl NodeId {
    /// The identifier's bytes as a sequence.
    pub open spec fn bytes(self) -> Seq<u8> {
        self.0@
    }

    /// XOR distance to `other` as a sequence of bytes.
    pub open spec fn dist(self, other: NodeId) -> Seq<u8> {
        xor_seq(self.0@, other.0@)
    }

    /// The all-zero identifier.
    pub fn zero() -> (r: NodeId)
        ensures
            forall|i: int| 0 <= i < 32 ==> r.0[i] == 0,
    {
        NodeId([0u8; 32])
    }

    /// XOR distance to another NodeId, the metric of greedy routing.
    pub fn xor_distance(&self, other: &NodeId) -> (d: [u8; 32])
        ensures
            d@ == self.dist(*other),
    {
        let mut d = [0u8; 32];
        let mut i: usize = 0;
        while i < 32
            invariant
                i <= 32,
                forall|j: int| 0 <= j < i ==> d[j] == self.0[j] ^ other.0[j],
            decreases 32 - i,
        {
            d[i] = self.0[i] ^ other.0[i];
            i = i + 1;
        }
        assert(d@ =~= self.dist(*other));
        d
    }

    /// True if `self` is strictly closer to `target` than `other` is.
    pub fn is_closer_to(&self, target: &NodeId, other: &NodeId) -> (r: bool)
        ensures
            r == lex_lt(self.dist(*target), other.dist(*target)),
    {
        let a = self.xor_distance(target);
        let b = other.xor_distance(target);
        bytes32_lt(&a, &b)
    }

    pub fn as_bytes(&self) -> (r: &[u8; 32])
        ensures
            *r == self.0,
    {
        &self.0
    }

    pub fn from_bytes(raw: [u8; 32]) -> (r: NodeId)
        ensures
            r.0 == raw,
    {
        NodeId(raw)
    }

    /// Short display form: hexadecimal text of the first eight bytes.
    pub open spec fn short_text(self) -> Seq<char> {
        hex_text(self.0@.take(8))
    }

    /// The short display form of the identifier, as used in log lines and
    /// error messages.
    pub fn display_string(&self) -> (r: String)
        ensures
            r@ == self.short_text(),
    {
        let mut head: Vec<u8> = Vec::new();
        let mut i: usize = 0;
        while i < 8
            invariant
                i <= 8,
                head@ == self.0@.take(i as int),
            decreases 8 - i,
        {
            head.push(self.0[i]);
            i = i + 1;
            assert(head@ =~= self.0@.take(i as int));
        }
        hex_encode(head.as_slice())
    }

    /// Full hexadecimal text of the identifier (64 characters).
    pub fn to_hex(&self) -> (r: String)
        ensures
            r@ == hex_text(self.0@),
    {
        hex_encode(self.0.as_slice())
    }
}

/// Lexicographic comparison of two 32-byte strings.
pub fn bytes32_lt(a: &[u8; 32], b: &[u8; 32]) -> (r: bool)
    ensures
        r == lex_lt(a@, b@),
{
    let mut i: usize = 0;
    while i < 32
        invariant
            i <= 32,
            forall|j: int| 0 <= j < i ==> a[j] == b[j],
        decreases 32 - i,
    {
        if a[i] != b[i] {
            let r = a[i] < b[i];
            proof {
                if r {
                    assert(a@[i as int] < b@[i as int]);
                } else {
                    assert forall|k: int|
                        0 <= k < a@.len() && k < b@.len() && (forall|j: int|
                            0 <= j < k ==> a@[j] == b@[j]) implies !(a@[k] < b@[k]) by {
                        if k > i {
                            assert(a@[i as int] == b@[i as int]);
                        }
                    }
                }
            }
            return r;
        }
        i = i + 1;
    }
    proof {
        assert forall|k: int|
            0 <= k < a@.len() && k < b@.len() && (forall|j: int|
                0 <= j < k ==> a@[j] == b@[j]) implies !(a@[k] < b@[k]) by {
            assert(a@[k] == b@[k]);
        }
    }
    false
}

/// Two identifiers are equal exactly when their byte sequences are.
pub proof fn lemma_node_id_eq(a: NodeId, b: NodeId)
    ensures
        (a == b) <==> (a.0@ == b.0@),
{
    broadcast use vstd::array::axiom_array_ext_equal;

    if a.0@ == b.0@ {
        assert forall|i: int| 0 <= i < 32 implies a.0[i] == b.0[i] by {
            assert(a.0@[i] == b.0@[i]);
        }
        assert(a.0 =~= b.0);
    }
}

/// XOR distance is symmetric: d(a, b) == d(b, a).
pub proof fn lemma_xor_symmetric(a: NodeId, b: NodeId)
    ensures
        a.dist(b) == b.dist(a),
{
    assert forall|i: int| 0 <= i < 32 implies #[trigger] a.dist(b)[i] == b.dist(a)[i] by {
        let x = a.0@[i];
        let y = b.0@[i];
        assert(x ^ y == y ^ x) by (bit_vector);
    }
    assert(a.dist(b) =~= b.dist(a));
}

/// The distance of an identifier to itself is all zeros, and it is all
/// zeros only for an identifier and itself.
pub proof fn lemma_xor_zero_iff_equal(a: NodeId, b: NodeId)
    ensures
        (forall|i: int| 0 <= i < 32 ==> #[trigger] a.dist(b)[i] == 0) <==> a == b,
{
    lemma_node_id_eq(a, b);
    if a == b {
        assert forall|i: int| 0 <= i < 32 implies #[trigger] a.dist(b)[i] == 0 by {
            let x = a.0@[i];
            assert(x ^ x == 0) by (bit_vector);
        }
    }
    if forall|i: int| 0 <= i < 32 ==> #[trigger] a.dist(b)[i] == 0 {
        assert forall|i: int| 0 <= i < 32 implies a.0@[i] == b.0@[i] by {
            let x = a.0@[i];
            let y = b.0@[i];
            assert(a.dist(b)[i] == 0);
            assert(x ^ y == 0 ==> x == y) by (bit_vector);
        }
        assert(a.0@ =~= b.0@);
    }
}

/// For a fixed target, different identifiers have different distances to it,
/// so distances to one target never tie.
pub proof fn lemma_xor_injective(a: NodeId, b: NodeId, t: NodeId)
    ensures
        a.dist(t) == b.dist(t) <==> a == b,
{
    lemma_node_id_eq(a, b);
    if a.dist(t) == b.dist(t) {
        assert forall|i: int| 0 <= i < 32 implies a.0@[i] == b.0@[i] by {
            let x = a.0@[i];
            let y = b.0@[i];
            let z = t.0@[i];
            assert(a.dist(t)[i] == b.dist(t)[i]);
            assert(x ^ z == y ^ z ==> x == y) by (bit_vector);
        }
        assert(a.0@ =~= b.0@);
    }
}

/// `lex_lt` on 32-byte strings is irreflexive.
pub proof fn lemma_lex_irreflexive(a: Seq<u8>)
    ensures
        !lex_lt(a, a),
{
}

/// `lex_lt` is asymmetric.
pub proof fn lemma_lex_asymmetric(a: Seq<u8>, b: Seq<u8>)
    requires
        lex_lt(a, b),
    ensures
        !lex_lt(b, a),
{
    let i = choose|i: int|
        #![trigger a[i], b[i]]
        0 <= i < a.len() && i < b.len() && (forall|j: int| 0 <= j < i ==> a[j] == b[j]) && a[i]
            < b[i];
    if lex_lt(b, a) {
        let k = choose|k: int|
            #![trigger b[k], a[k]]
            0 <= k < b.len() && k < a.len() && (forall|j: int| 0 <= j < k ==> b[j] == a[j]) && b[k]
                < a[k];
        if k < i {
            assert(a[k] == b[k]);
        } else if i < k {
            assert(b[i] == a[i]);
        }
    }
}

/// `lex_lt` is transitive.
pub proof fn lemma_lex_transitive(a: Seq<u8>, b: Seq<u8>, c: Seq<u8>)
    requires
        lex_lt(a, b),
        lex_lt(b, c),
    ensures
        lex_lt(a, c),
{
    let i = choose|i: int|
        #![trigger a[i], b[i]]
        0 <= i < a.len() && i < b.len() && (forall|j: int| 0 <= j < i ==> a[j] == b[j]) && a[i]
            < b[i];
    let k = choose|k: int|
        #![trigger b[k], c[k]]
        0 <= k < b.len() && k < c.len() && (forall|j: int| 0 <= j < k ==> b[j] == c[j]) && b[k]
            < c[k];
    let m = if i < k { i } else { k };
    assert(forall|j: int| 0 <= j < m ==> a[j] == c[j]);
    if i < k {
        assert(b[i] == c[i]);
    } else if k < i {
        assert(a[k] == b[k]);
    }
    assert(a[m] < c[m]);
}

/// `lex_lt` on sequences of the same length is total: two different
/// sequences are ordered one way or the other.
pub proof fn lemma_lex_total(a: Seq<u8>, b: Seq<u8>)
    requires
        a.len() == b.len(),
        a != b,
    ensures
        lex_lt(a, b) || lex_lt(b, a),
{
    if forall|i: int| 0 <= i < a.len() ==> a[i] == b[i] {
        assert(a =~= b);
    }
    let k = choose|k: int| 0 <= k < a.len() && a[k] != b[k];
    lemma_first_difference(a, b, k);
}

proof fn lemma_first_difference(a: Seq<u8>, b: Seq<u8>, k: int)
    requires
        a.len() == b.len(),
        0 <= k < a.len(),
        a[k] != b[k],
    ensures
        lex_lt(a, b) || lex_lt(b, a),
    decreases k,
{
    if exists|j: int| 0 <= j < k && a[j] != b[j] {
        let j = choose|j: int| 0 <= j < k && a[j] != b[j];
        lemma_first_difference(a, b, j);
    } else {
        if a[k] < b[k] {
            assert(a[k] < b[k]);
        } else {
            assert(b[k] < a[k]);
        }
    }
}

/// `is_closer_to` is a strict order on candidates: no identifier is closer
/// to a target than itself, and of two different identifiers exactly one
/// is closer to any given target.
pub proof fn lemma_closer_strict(a: NodeId, b: NodeId, t: NodeId)
    ensures
        !lex_lt(a.dist(t), a.dist(t)),
        lex_lt(a.dist(t), b.dist(t)) ==> !lex_lt(b.dist(t), a.dist(t)),
        a != b ==> (lex_lt(a.dist(t), b.dist(t)) || lex_lt(b.dist(t), a.dist(t))),
{
    if lex_lt(a.dist(t), b.dist(t)) {
        lemma_lex_asymmetric(a.dist(t), b.dist(t));
    }
    if a != b {
        lemma_xor_injective(a, b, t);
        lemma_lex_total(a.dist(t), b.dist(t));
    }
}

/// A lexicographic "not less than" chains: `!(x < y)` and `!(y < z)` give
/// `!(x < z)` on sequences of one length.
pub proof fn lemma_not_lt_chain(x: Seq<u8>, y: Seq<u8>, z: Seq<u8>)
    requires
        x.len() == y.len(),
        y.len() == z.len(),
        !lex_lt(x, y),
        !lex_lt(y, z),
    ensures
        !lex_lt(x, z),
{
    if lex_lt(x, z) {
        if x != y {
            lemma_lex_total(x, y);
        }
        if y != z {
            lemma_lex_total(y, z);
        }
        if x != y && y != z {
            lemma_lex_transitive(z, y, x);
            lemma_lex_asymmetric(x, z);
        } else if x != y {
            lemma_lex_asymmetric(x, z);
        } else if y != z {
            lemma_lex_asymmetric(y, z);
        }
    }
}

} // verus!
