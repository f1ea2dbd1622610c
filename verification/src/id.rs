//! 160-bit identifiers and the XOR metric on them.

use vstd::prelude::*;

verus! {

/// A node id or an info hash: twenty bytes, most significant first.
#[derive(Clone, Copy, Debug, PartialEq, Eq, Hash)]
pub struct Id20 {
    pub bytes: [u8; 20],
}

impl View for Id20 {
    type V = Seq<u8>;

    open spec fn view(&self) -> Seq<u8> {
        self.bytes@
    }
}

/// `a` and `b` agree before index `i` and `a` is smaller at `i`.
pub open spec fn smaller_at(a: Seq<u8>, b: Seq<u8>, i: int) -> bool {
    &&& 0 <= i < a.len()
    &&& 0 <= i < b.len()
    &&& a[i] < b[i]
    &&& forall|j: int| 0 <= j < i ==> a[j] == b[j]
}

/// `a` is the smaller number, both read as big-endian integers of the same length.
pub open spec fn smaller(a: Seq<u8>, b: Seq<u8>) -> bool {
    exists|i: int| smaller_at(a, b, i)
}

impl Id20 {
    /// The XOR distance between two ids.
    pub open spec fn xor(self, other: Id20) -> Seq<u8> {
        Seq::new(20, |i: int| self.bytes@[i] ^ other.bytes@[i])
    }

    /// The id with the given bytes.
    pub fn new(bytes: [u8; 20]) -> (id: Id20)
        ensures
            id.bytes == bytes,
    {
        Id20 { bytes }
    }

    /// The XOR distance between two ids.
    pub fn distance(&self, other: &Id20) -> (d: Id20)
        ensures
            d@ == self.xor(*other),
    {
        let mut bytes: [u8; 20] = [0u8; 20];
        let mut i: usize = 0;
        while i < 20
            invariant
                i <= 20,
                forall|j: int| 0 <= j < i ==> bytes@[j] == self.bytes@[j] ^ other.bytes@[j],
            decreases 20 - i,
        {
            bytes[i] = self.bytes[i] ^ other.bytes[i];
            i += 1;
        }
        let d = Id20 { bytes };
        assert(d@ =~= self.xor(*other));
        d
    }

    /// Whether the two ids are the same.
    pub fn same(&self, other: &Id20) -> (b: bool)
        ensures
            b == (*self == *other),
    {
        let mut i: usize = 0;
        while i < 20
            invariant
                i <= 20,
                forall|j: int| 0 <= j < i ==> self.bytes@[j] == other.bytes@[j],
            decreases 20 - i,
        {
            if self.bytes[i] != other.bytes[i] {
                return false;
            }
            i += 1;
        }
        assert(self.bytes =~= other.bytes);
        true
    }

    /// Whether `self` is the smaller number.
    pub fn less_than(&self, other: &Id20) -> (b: bool)
        ensures
            b == smaller(self@, other@),
    {
        let mut i: usize = 0;
        while i < 20
            invariant
                i <= 20,
                forall|j: int| 0 <= j < i ==> self.bytes@[j] == other.bytes@[j],
            decreases 20 - i,
        {
            if self.bytes[i] < other.bytes[i] {
                assert(smaller_at(self@, other@, i as int));
                return true;
            }
            if self.bytes[i] > other.bytes[i] {
                assert(smaller_at(other@, self@, i as int));
                proof {
                    lemma_smaller_asymmetric(other@, self@);
                }
                return false;
            }
            i += 1;
        }
        assert(self.bytes =~= other.bytes);
        false
    }
}

/// Of two numbers at most one is smaller, and none is smaller than itself.
pub proof fn lemma_smaller_asymmetric(a: Seq<u8>, b: Seq<u8>)
    requires
        smaller(a, b),
    ensures
        !smaller(b, a),
        a != b,
{
    let i = choose|i: int| smaller_at(a, b, i);
    if smaller(b, a) {
        let j = choose|j: int| smaller_at(b, a, j);
        if i < j {
            assert(b[i] == a[i]);
        } else if j < i {
            assert(a[j] == b[j]);
        }
    }
}

/// Of two different numbers one is smaller.
pub proof fn lemma_smaller_total(a: Seq<u8>, b: Seq<u8>)
    requires
        a.len() == b.len(),
    ensures
        a == b || smaller(a, b) || smaller(b, a),
{
    if a != b {
        assert(!(a =~= b));
        let k = choose|k: int| 0 <= k < a.len() && a[k] != b[k];
        lemma_first_difference(a, b, k);
        let i = choose|i: int| first_difference(a, b, i);
        if a[i] < b[i] {
            assert(smaller_at(a, b, i));
        } else {
            assert(smaller_at(b, a, i));
        }
    }
}

/// If `a` is smaller than `b` and `b` smaller than `c`, `a` is smaller than `c`.
pub proof fn lemma_smaller_transitive(a: Seq<u8>, b: Seq<u8>, c: Seq<u8>)
    requires
        smaller(a, b),
        smaller(b, c),
    ensures
        smaller(a, c),
{
    let i = choose|i: int| smaller_at(a, b, i);
    let j = choose|j: int| smaller_at(b, c, j);
    let k = if i <= j {
        i
    } else {
        j
    };
    assert(smaller_at(a, c, k));
}

/// The distance is the same in both directions.
pub proof fn law_distance_symmetric(a: Id20, b: Id20)
    ensures
        a.xor(b) == b.xor(a),
{
    assert forall|i: int| 0 <= i < 20 implies #[trigger] a.xor(b)[i] == b.xor(a)[i] by {
        let (x, y) = (a.bytes@[i], b.bytes@[i]);
        assert(x ^ y == y ^ x) by (bit_vector);
    }
    assert(a.xor(b) =~= b.xor(a));
}

/// The distance between two ids is zero exactly if they are the same.
pub proof fn law_distance_zero(a: Id20, b: Id20)
    ensures
        (forall|i: int| 0 <= i < 20 ==> a.xor(b)[i] == 0) <==> a == b,
{
    if a == b {
        assert forall|i: int| 0 <= i < 20 implies #[trigger] a.xor(b)[i] == 0 by {
            let x = a.bytes@[i];
            assert(x ^ x == 0) by (bit_vector);
        }
    }
    if forall|i: int| 0 <= i < 20 ==> a.xor(b)[i] == 0 {
        assert forall|i: int| 0 <= i < 20 implies a.bytes[i] == b.bytes[i] by {
            assert(a.xor(b)[i] == 0);
            let (x, y) = (a.bytes@[i], b.bytes@[i]);
            assert(x ^ y == 0 ==> x == y) by (bit_vector);
        }
        assert(a.bytes =~= b.bytes);
    }
}

/// Only one id lies at a given distance from a given id.
pub proof fn law_distance_unique(from: Id20, a: Id20, b: Id20)
    requires
        from.xor(a) == from.xor(b),
    ensures
        a == b,
{
    assert forall|i: int| 0 <= i < 20 implies a.bytes[i] == b.bytes[i] by {
        assert(from.xor(a)[i] == from.xor(b)[i]);
        let (f, x, y) = (from.bytes@[i], a.bytes@[i], b.bytes@[i]);
        assert(from.xor(a)[i] == f ^ x && from.xor(b)[i] == f ^ y);
        assert(f ^ x == f ^ y ==> x == y) by (bit_vector);
    }
    assert(a.bytes =~= b.bytes);
}

spec fn first_difference(a: Seq<u8>, b: Seq<u8>, i: int) -> bool {
    &&& 0 <= i < a.len()
    &&& a[i] != b[i]
    &&& forall|j: int| 0 <= j < i ==> a[j] == b[j]
}

proof fn lemma_first_difference(a: Seq<u8>, b: Seq<u8>, k: int)
    requires
        a.len() == b.len(),
        0 <= k < a.len(),
        a[k] != b[k],
    ensures
        exists|i: int| first_difference(a, b, i),
    decreases k,
{
    if forall|j: int| 0 <= j < k ==> a[j] == b[j] {
        assert(first_difference(a, b, k));
    } else {
        let j = choose|j: int| 0 <= j < k && a[j] != b[j];
        lemma_first_difference(a, b, j);
    }
}

/// The distance has a bit set exactly where the two ids differ in it.
pub proof fn law_distance_is_bitwise(a: Id20, b: Id20, i: int, bit: u8)
    requires
        0 <= i < 20,
        bit < 8,
    ensures
        a.xor(b).len() == 20,
        (a.xor(b)[i] >> bit) & 1 == 1 <==> (a.bytes@[i] >> bit) & 1 != (b.bytes@[i] >> bit) & 1,
{
    let (x, y) = (a.bytes@[i], b.bytes@[i]);
    assert(((x ^ y) >> bit) & 1 == 1 <==> (x >> bit) & 1 != (y >> bit) & 1) by (bit_vector)
        requires
            bit < 8,
    ;
}

/// The first byte in which two numbers differ decides which is smaller.
pub proof fn law_first_difference_decides(a: Seq<u8>, b: Seq<u8>, i: int)
    requires
        a.len() == b.len(),
        0 <= i < a.len(),
        forall|j: int| 0 <= j < i ==> a[j] == b[j],
        a[i] < b[i],
    ensures
        smaller(a, b),
        !smaller(b, a),
{
    assert(smaller_at(a, b, i));
    lemma_smaller_asymmetric(a, b);
}

} // verus!
