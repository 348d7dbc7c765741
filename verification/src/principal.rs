//! Caller identities.

use vstd::prelude::*;

verus! {

/// Longest identity, in bytes.
pub const MAX_PRINCIPAL_LEN: usize = 29;

/// An authenticated caller identity: an opaque string of at most 29 bytes.
///
/// The bytes are kept as a length and four big-endian words, padded with
/// zeros, so that an identity is `Copy`, `==` is equality of the fields and
/// the derived order is "shorter first, then bytewise".
#[derive(Clone, Copy, Debug, PartialEq, Eq, PartialOrd, Ord, Hash, Structural)]
pub struct Principal {
    len: u8,
    w0: u64,
    w1: u64,
    w2: u64,
    w3: u64,
}

/// Byte `j` (0 is the most significant) of the word `w`.
pub open spec fn lane(w: u64, j: int) -> u8 {
    if j == 0 {
        ((w >> 56) & 0xff) as u8
    } else if j == 1 {
        ((w >> 48) & 0xff) as u8
    } else if j == 2 {
        ((w >> 40) & 0xff) as u8
    } else if j == 3 {
        ((w >> 32) & 0xff) as u8
    } else if j == 4 {
        ((w >> 24) & 0xff) as u8
    } else if j == 5 {
        ((w >> 16) & 0xff) as u8
    } else if j == 6 {
        ((w >> 8) & 0xff) as u8
    } else {
        (w & 0xff) as u8
    }
}

/// The sum of the bytes of `s`.
pub open spec fn byte_total(s: Seq<u8>) -> nat
    decreases s.len(),
{
    if s.len() == 0 {
        0
    } else {
        byte_total(s.drop_last()) + s.last() as nat
    }
}

/// Byte `i` of `bytes`, or zero past its end.
pub open spec fn padded(bytes: Seq<u8>, i: int) -> u8 {
    if 0 <= i < bytes.len() {
        bytes[i]
    } else {
        0
    }
}

fn padded_at(bytes: &[u8], i: usize) -> (b: u8)
    ensures
        b == padded(bytes@, i as int),
{
    if i < bytes.len() {
        bytes[i]
    } else {
        0
    }
}

fn pack(b0: u8, b1: u8, b2: u8, b3: u8, b4: u8, b5: u8, b6: u8, b7: u8) -> (w: u64)
    ensures
        lane(w, 0) == b0,
        lane(w, 1) == b1,
        lane(w, 2) == b2,
        lane(w, 3) == b3,
        lane(w, 4) == b4,
        lane(w, 5) == b5,
        lane(w, 6) == b6,
        lane(w, 7) == b7,
{
    let w: u64 = ((b0 as u64) << 56) | ((b1 as u64) << 48) | ((b2 as u64) << 40) | ((b3 as u64)
        << 32) | ((b4 as u64) << 24) | ((b5 as u64) << 16) | ((b6 as u64) << 8) | (b7 as u64);
    assert(((w >> 56) & 0xff) as u8 == b0 && ((w >> 48) & 0xff) as u8 == b1 && ((w >> 40) & 0xff) as u8
        == b2 && ((w >> 32) & 0xff) as u8 == b3 && ((w >> 24) & 0xff) as u8 == b4 && ((w >> 16)
        & 0xff) as u8 == b5 && ((w >> 8) & 0xff) as u8 == b6 && (w & 0xff) as u8 == b7)
        by (bit_vector)
        requires
            w == ((b0 as u64) << 56) | ((b1 as u64) << 48) | ((b2 as u64) << 40) | ((b3 as u64)
                << 32) | ((b4 as u64) << 24) | ((b5 as u64) << 16) | ((b6 as u64) << 8) | (
            b7 as u64),
    ;
    w
}

fn unpack(w: u64, j: usize) -> (b: u8)
    requires
        j < 8,
    ensures
        b == lane(w, j as int),
{
    let shifted: u64 = if j == 0 {
        w >> 56
    } else if j == 1 {
        w >> 48
    } else if j == 2 {
        w >> 40
    } else if j == 3 {
        w >> 32
    } else if j == 4 {
        w >> 24
    } else if j == 5 {
        w >> 16
    } else if j == 6 {
        w >> 8
    } else {
        w
    };
    let low: u64 = shifted & 0xff;
    assert(low <= 0xff) by (bit_vector)
        requires
            low == shifted & 0xff,
    ;
    low as u8
}

proof fn lemma_lanes_determine(w: u64, v: u64)
    requires
        forall|j: int| 0 <= j < 8 ==> lane(w, j) == lane(v, j),
    ensures
        w == v,
{
    assert(lane(w, 0) == lane(v, 0));
    assert(lane(w, 1) == lane(v, 1));
    assert(lane(w, 2) == lane(v, 2));
    assert(lane(w, 3) == lane(v, 3));
    assert(lane(w, 4) == lane(v, 4));
    assert(lane(w, 5) == lane(v, 5));
    assert(lane(w, 6) == lane(v, 6));
    assert(lane(w, 7) == lane(v, 7));
    assert(w == v) by (bit_vector)
        requires
            ((w >> 56) & 0xff) as u8 == ((v >> 56) & 0xff) as u8,
            ((w >> 48) & 0xff) as u8 == ((v >> 48) & 0xff) as u8,
            ((w >> 40) & 0xff) as u8 == ((v >> 40) & 0xff) as u8,
            ((w >> 32) & 0xff) as u8 == ((v >> 32) & 0xff) as u8,
            ((w >> 24) & 0xff) as u8 == ((v >> 24) & 0xff) as u8,
            ((w >> 16) & 0xff) as u8 == ((v >> 16) & 0xff) as u8,
            ((w >> 8) & 0xff) as u8 == ((v >> 8) & 0xff) as u8,
            (w & 0xff) as u8 == (v & 0xff) as u8,
    ;
}

/// Whether `x` and `y` agree before position `k`, where `x` has the
/// smaller byte.
pub open spec fn smaller_at(x: Seq<u8>, y: Seq<u8>, k: int) -> bool {
    &&& 0 <= k < x.len()
    &&& k < y.len()
    &&& forall|j: int| 0 <= j < k ==> x[j] == y[j]
    &&& x[k] < y[k]
}

/// The top bytes of `w` down to byte `j`, as a number.
spec fn top(w: u64, j: int) -> u64 {
    if j == 0 {
        w >> 56
    } else if j == 1 {
        w >> 48
    } else if j == 2 {
        w >> 40
    } else if j == 3 {
        w >> 32
    } else if j == 4 {
        w >> 24
    } else if j == 5 {
        w >> 16
    } else if j == 6 {
        w >> 8
    } else {
        w
    }
}

proof fn lemma_top_step(w: u64, v: u64, s: u64, t: u64)
    requires
        t == s + 8,
        s <= 48,
    ensures
        (w >> s) < (v >> s) <==> (w >> t) < (v >> t) || ((w >> t) == (v >> t) && (((w >> s)
            & 0xff) as u8) < (((v >> s) & 0xff) as u8)),
        (w >> s) == (v >> s) <==> (w >> t) == (v >> t) && (((w >> s) & 0xff) as u8) == (((v >> s)
            & 0xff) as u8),
{
    assert((w >> s) < (v >> s) <==> (w >> t) < (v >> t) || ((w >> t) == (v >> t) && (((w >> s)
        & 0xff) as u8) < (((v >> s) & 0xff) as u8))) by (bit_vector)
        requires
            t == s + 8,
            s <= 48,
    ;
    assert((w >> s) == (v >> s) <==> (w >> t) == (v >> t) && (((w >> s) & 0xff) as u8) == (((v >> s)
        & 0xff) as u8)) by (bit_vector)
        requires
            t == s + 8,
            s <= 48,
    ;
}

proof fn lemma_top(w: u64, v: u64, j: int)
    requires
        0 <= j < 8,
    ensures
        top(w, j) < top(v, j) <==> exists|k: int|
            0 <= k <= j && (forall|i: int| 0 <= i < k ==> lane(w, i) == lane(v, i)) && #[trigger] lane(
                w,
                k,
            ) < lane(v, k),
        top(w, j) == top(v, j) <==> forall|i: int| 0 <= i <= j ==> lane(w, i) == lane(v, i),
    decreases j,
{
    if j == 0 {
        assert((w >> 56) == (w >> 56) & 0xff) by (bit_vector);
        assert((v >> 56) == (v >> 56) & 0xff) by (bit_vector);
        assert((w >> 56) <= 0xff) by (bit_vector);
        assert((v >> 56) <= 0xff) by (bit_vector);
        if top(w, 0) < top(v, 0) {
            assert(lane(w, 0) < lane(v, 0));
        }
        if top(w, 0) == top(v, 0) {
            assert(lane(w, 0) == lane(v, 0));
        }
    } else {
        lemma_top(w, v, j - 1);
        if j == 1 {
            lemma_top_step(w, v, 48, 56);
        } else if j == 2 {
            lemma_top_step(w, v, 40, 48);
        } else if j == 3 {
            lemma_top_step(w, v, 32, 40);
        } else if j == 4 {
            lemma_top_step(w, v, 24, 32);
        } else if j == 5 {
            lemma_top_step(w, v, 16, 24);
        } else if j == 6 {
            lemma_top_step(w, v, 8, 16);
        } else {
            lemma_top_step(w, v, 0, 8);
            assert(w >> 0 == w) by (bit_vector);
            assert(v >> 0 == v) by (bit_vector);
        }
        assert(top(w, j) < top(v, j) <==> top(w, j - 1) < top(v, j - 1) || (top(w, j - 1) == top(
            v,
            j - 1,
        ) && lane(w, j) < lane(v, j)));
        assert(top(w, j) == top(v, j) <==> top(w, j - 1) == top(v, j - 1) && lane(w, j) == lane(v, j));
        if top(w, j) < top(v, j) {
            if top(w, j - 1) < top(v, j - 1) {
                let k = choose|k: int|
                    0 <= k <= j - 1 && (forall|i: int| 0 <= i < k ==> lane(w, i) == lane(v, i))
                        && #[trigger] lane(w, k) < lane(v, k);
                assert(0 <= k <= j && lane(w, k) < lane(v, k));
            } else {
                assert(lane(w, j) < lane(v, j));
            }
        }
        if exists|k: int|
            0 <= k <= j && (forall|i: int| 0 <= i < k ==> lane(w, i) == lane(v, i)) && #[trigger] lane(
                w,
                k,
            ) < lane(v, k) {
            let k = choose|k: int|
                0 <= k <= j && (forall|i: int| 0 <= i < k ==> lane(w, i) == lane(v, i))
                    && #[trigger] lane(w, k) < lane(v, k);
            if k < j {
                assert(0 <= k <= j - 1 && lane(w, k) < lane(v, k));
            }
        }
    }
}

impl View for Principal {
    type V = Seq<u8>;

    /// The bytes of the identity.
    closed spec fn view(&self) -> Seq<u8> {
        Seq::new(self.len as nat, |i: int| self.slot(i))
    }
}

impl Principal {
    /// What is stored at position `i` of the 32 byte slots.
    pub closed spec fn slot(self, i: int) -> u8 {
        if i < 8 {
            lane(self.w0, i)
        } else if i < 16 {
            lane(self.w1, i - 8)
        } else if i < 24 {
            lane(self.w2, i - 16)
        } else {
            lane(self.w3, i - 24)
        }
    }

    /// At most 29 bytes, and nothing but zeros behind them.
    pub closed spec fn wf(self) -> bool {
        &&& self.len <= 29
        &&& forall|i: int| self.len <= i < 32 ==> self.slot(i) == 0
    }

    /// The order of identities: a shorter one comes first, and of two equally
    /// long ones the one whose bytes come first lexicographically.
    pub closed spec fn comes_before(self, other: Principal) -> bool {
        ||| self.len < other.len
        ||| (self.len == other.len && self.w0 < other.w0)
        ||| (self.len == other.len && self.w0 == other.w0 && self.w1 < other.w1)
        ||| (self.len == other.len && self.w0 == other.w0 && self.w1 == other.w1 && self.w2
            < other.w2)
        ||| (self.len == other.len && self.w0 == other.w0 && self.w1 == other.w1 && self.w2
            == other.w2 && self.w3 < other.w3)
    }

    /// The identity made of `bytes`.
    pub fn from_slice(bytes: &[u8]) -> (r: Principal)
        requires
            bytes@.len() <= MAX_PRINCIPAL_LEN,
        ensures
            r@ == bytes@,
            r.wf(),
    {
        let n: usize = bytes.len();
        let r = Principal {
            len: n as u8,
            w0: pack(
                padded_at(bytes, 0),
                padded_at(bytes, 1),
                padded_at(bytes, 2),
                padded_at(bytes, 3),
                padded_at(bytes, 4),
                padded_at(bytes, 5),
                padded_at(bytes, 6),
                padded_at(bytes, 7),
            ),
            w1: pack(
                padded_at(bytes, 8),
                padded_at(bytes, 9),
                padded_at(bytes, 10),
                padded_at(bytes, 11),
                padded_at(bytes, 12),
                padded_at(bytes, 13),
                padded_at(bytes, 14),
                padded_at(bytes, 15),
            ),
            w2: pack(
                padded_at(bytes, 16),
                padded_at(bytes, 17),
                padded_at(bytes, 18),
                padded_at(bytes, 19),
                padded_at(bytes, 20),
                padded_at(bytes, 21),
                padded_at(bytes, 22),
                padded_at(bytes, 23),
            ),
            w3: pack(
                padded_at(bytes, 24),
                padded_at(bytes, 25),
                padded_at(bytes, 26),
                padded_at(bytes, 27),
                padded_at(bytes, 28),
                0,
                0,
                0,
            ),
        };
        proof {
            assert forall|i: int| 0 <= i < 32 implies r.slot(i) == padded(bytes@, i) by {}
            assert(r@ =~= bytes@);
        }
        r
    }

    /// The identity made of `bytes`, where they are few enough.
    pub fn try_from_slice(bytes: &[u8]) -> (r: Option<Principal>)
        ensures
            r is Some <==> bytes@.len() <= MAX_PRINCIPAL_LEN,
            r is Some ==> r->0@ == bytes@ && r->0.wf(),
    {
        if bytes.len() <= MAX_PRINCIPAL_LEN {
            Some(Principal::from_slice(bytes))
        } else {
            None
        }
    }

    /// The identity of no bytes, which the platform's management service bears.
    pub fn management_canister() -> (r: Principal)
        ensures
            r@ == Seq::<u8>::empty(),
            r.wf(),
    {
        let r = Principal { len: 0, w0: 0, w1: 0, w2: 0, w3: 0 };
        proof {
            Principal::lemma_zero_lanes();
            assert(r@ =~= Seq::<u8>::empty());
        }
        r
    }

    /// The identity of an unauthenticated caller: the single byte 4.
    pub fn anonymous() -> (r: Principal)
        ensures
            r@ == seq![4u8],
            r.wf(),
    {
        let bytes: [u8; 1] = [4];
        let r = Principal::from_slice(bytes.as_slice());
        proof {
            assert(r@ =~= seq![4u8]);
        }
        r
    }

    /// The number of bytes.
    pub fn len(&self) -> (n: usize)
        ensures
            n == self@.len(),
    {
        self.len as usize
    }

    /// Byte `i`.
    pub fn byte(&self, i: usize) -> (b: u8)
        requires
            i < self@.len(),
        ensures
            b == self@[i as int],
    {
        if i < 8 {
            unpack(self.w0, i)
        } else if i < 16 {
            unpack(self.w1, i - 8)
        } else if i < 24 {
            unpack(self.w2, i - 16)
        } else if i < 32 {
            unpack(self.w3, i - 24)
        } else {
            unpack(self.w3, 7)
        }
    }

    /// The bytes, as a vector.
    pub fn to_vec(&self) -> (v: Vec<u8>)
        ensures
            v@ == self@,
    {
        let n: usize = self.len();
        let mut v: Vec<u8> = Vec::new();
        let mut i: usize = 0;
        while i < n
            invariant
                n == self@.len(),
                i <= n,
                v@ == self@.take(i as int),
            decreases n - i,
        {
            v.push(self.byte(i));
            i += 1;
            assert(v@ =~= self@.take(i as int));
        }
        assert(self@.take(n as int) =~= self@);
        v
    }

    /// The sum of the bytes.
    pub fn byte_sum(&self) -> (s: u64)
        ensures
            s == byte_total(self@),
    {
        let n: usize = self.len();
        let mut s: u64 = 0;
        let mut i: usize = 0;
        while i < n
            invariant
                n == self@.len(),
                n <= 255,
                i <= n,
                s == byte_total(self@.take(i as int)),
                s <= 255 * i,
            decreases n - i,
        {
            let b: u8 = self.byte(i);
            proof {
                assert(self@.take(i + 1).drop_last() =~= self@.take(i as int));
            }
            s = s + b as u64;
            i += 1;
        }
        assert(self@.take(n as int) =~= self@);
        s
    }

    /// Whether `self` comes before `other` in the order of identities.
    pub fn precedes(&self, other: &Principal) -> (r: bool)
        ensures
            r == self.comes_before(*other),
    {
        if self.len != other.len {
            self.len < other.len
        } else if self.w0 != other.w0 {
            self.w0 < other.w0
        } else if self.w1 != other.w1 {
            self.w1 < other.w1
        } else if self.w2 != other.w2 {
            self.w2 < other.w2
        } else {
            self.w3 < other.w3
        }
    }

    proof fn lemma_zero_lanes()
        ensures
            forall|j: int| 0 <= j < 8 ==> lane(0, j) == 0,
    {
        assert((0u64 >> 56) & 0xff == 0 && (0u64 >> 48) & 0xff == 0 && (0u64 >> 40) & 0xff == 0 && (
        0u64 >> 32) & 0xff == 0 && (0u64 >> 24) & 0xff == 0 && (0u64 >> 16) & 0xff == 0 && (0u64
            >> 8) & 0xff == 0 && 0u64 & 0xff == 0) by (bit_vector);
    }

    /// Two identities with the same bytes are the same identity.
    pub proof fn lemma_bytes_determine(a: Principal, b: Principal)
        requires
            a.wf(),
            b.wf(),
            a@ == b@,
        ensures
            a == b,
    {
        assert(a.len == b.len) by {
            assert(a@.len() == a.len);
            assert(b@.len() == b.len);
        }
        assert forall|i: int| 0 <= i < 32 implies a.slot(i) == b.slot(i) by {
            if i < a.len {
                assert(a@[i] == a.slot(i));
                assert(b@[i] == b.slot(i));
            }
        }
        assert forall|j: int| 0 <= j < 8 implies lane(a.w0, j) == lane(b.w0, j) by {
            assert(a.slot(j) == b.slot(j));
        }
        assert forall|j: int| 0 <= j < 8 implies lane(a.w1, j) == lane(b.w1, j) by {
            assert(a.slot(j + 8) == b.slot(j + 8));
        }
        assert forall|j: int| 0 <= j < 8 implies lane(a.w2, j) == lane(b.w2, j) by {
            assert(a.slot(j + 16) == b.slot(j + 16));
        }
        assert forall|j: int| 0 <= j < 8 implies lane(a.w3, j) == lane(b.w3, j) by {
            assert(a.slot(j + 24) == b.slot(j + 24));
        }
        lemma_lanes_determine(a.w0, b.w0);
        lemma_lanes_determine(a.w1, b.w1);
        lemma_lanes_determine(a.w2, b.w2);
        lemma_lanes_determine(a.w3, b.w3);
    }

    /// The order of identities is that of their lengths, and among
    /// identities of one length that of their bytes: the one with the smaller
    /// byte at the first place where they differ comes first.
    pub proof fn lemma_order_by_bytes(a: Principal, b: Principal)
        requires
            a.wf(),
            b.wf(),
        ensures
            a.comes_before(b) <==> (a@.len() < b@.len() || (a@.len() == b@.len() && exists|k: int|
                smaller_at(a@, b@, k))),
    {
        lemma_top(a.w0, b.w0, 7);
        lemma_top(a.w1, b.w1, 7);
        lemma_top(a.w2, b.w2, 7);
        lemma_top(a.w3, b.w3, 7);
        let n = a.len as int;
        if a.len == b.len {
            assert forall|j: int| 0 <= j < n implies a@[j] == a.slot(j) && b@[j] == b.slot(j) by {}
            if a.comes_before(b) {
                let (m, i) = if a.w0 < b.w0 {
                    (0int, Self::first_smaller_lane(a.w0, b.w0))
                } else if a.w1 < b.w1 {
                    (1int, Self::first_smaller_lane(a.w1, b.w1))
                } else if a.w2 < b.w2 {
                    (2int, Self::first_smaller_lane(a.w2, b.w2))
                } else {
                    (3int, Self::first_smaller_lane(a.w3, b.w3))
                };
                let p = 8 * m + i;
                assert(a.slot(p) < b.slot(p));
                assert(p < n);
                assert forall|j: int| 0 <= j < p implies a@[j] == b@[j] by {
                    assert(a.slot(j) == b.slot(j));
                }
                assert(smaller_at(a@, b@, p));
            }
            if exists|k: int| smaller_at(a@, b@, k) {
                let k = choose|k: int| smaller_at(a@, b@, k);
                assert(a.slot(k) < b.slot(k));
                assert forall|j: int| 0 <= j < k implies a.slot(j) == b.slot(j) by {
                    assert(a@[j] == b@[j]);
                }
                if k < 8 {
                    assert(lane(a.w0, k) < lane(b.w0, k));
                    assert forall|i: int| 0 <= i < k implies lane(a.w0, i) == lane(b.w0, i) by {
                        assert(a.slot(i) == b.slot(i));
                    }
                } else if k < 16 {
                    assert(lane(a.w1, k - 8) < lane(b.w1, k - 8));
                    assert forall|i: int| 0 <= i <= 7 implies lane(a.w0, i) == lane(b.w0, i) by {
                        assert(a.slot(i) == b.slot(i));
                    }
                    assert forall|i: int| 0 <= i < k - 8 implies lane(a.w1, i) == lane(b.w1, i) by {
                        assert(a.slot(i + 8) == b.slot(i + 8));
                    }
                } else if k < 24 {
                    assert(lane(a.w2, k - 16) < lane(b.w2, k - 16));
                    assert forall|i: int| 0 <= i <= 7 implies lane(a.w0, i) == lane(b.w0, i) by {
                        assert(a.slot(i) == b.slot(i));
                    }
                    assert forall|i: int| 0 <= i <= 7 implies lane(a.w1, i) == lane(b.w1, i) by {
                        assert(a.slot(i + 8) == b.slot(i + 8));
                    }
                    assert forall|i: int| 0 <= i < k - 16 implies lane(a.w2, i) == lane(b.w2, i) by {
                        assert(a.slot(i + 16) == b.slot(i + 16));
                    }
                } else {
                    assert(lane(a.w3, k - 24) < lane(b.w3, k - 24));
                    assert forall|i: int| 0 <= i <= 7 implies lane(a.w0, i) == lane(b.w0, i) by {
                        assert(a.slot(i) == b.slot(i));
                    }
                    assert forall|i: int| 0 <= i <= 7 implies lane(a.w1, i) == lane(b.w1, i) by {
                        assert(a.slot(i + 8) == b.slot(i + 8));
                    }
                    assert forall|i: int| 0 <= i <= 7 implies lane(a.w2, i) == lane(b.w2, i) by {
                        assert(a.slot(i + 16) == b.slot(i + 16));
                    }
                    assert forall|i: int| 0 <= i < k - 24 implies lane(a.w3, i) == lane(b.w3, i) by {
                        assert(a.slot(i + 24) == b.slot(i + 24));
                    }
                }
            }
        }
    }

    /// The first lane in which `w` has the smaller byte, where `w` is the
    /// smaller word.
    spec fn first_smaller_lane(w: u64, v: u64) -> int {
        choose|k: int|
            0 <= k <= 7 && (forall|i: int| 0 <= i < k ==> lane(w, i) == lane(v, i)) && #[trigger] lane(
                w,
                k,
            ) < lane(v, k)
    }

    /// The order of identities is a strict total order.
    pub proof fn lemma_order(a: Principal, b: Principal, c: Principal)
        ensures
            !a.comes_before(a),
            a.comes_before(b) && b.comes_before(c) ==> a.comes_before(c),
            a.comes_before(b) || a == b || b.comes_before(a),
            !(a.comes_before(b) && b.comes_before(a)),
    {
    }
}

} // verus!
