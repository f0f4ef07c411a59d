use vstd::prelude::*;

use crate::hash::Hasher;

verus! {

/// An item the tree can store: anything with a contiguous byte view,
/// which is what the hasher is fed at insertion.
pub trait ByteItem {
    /// The byte sequence this item hashes as.
    spec fn bytes_spec(&self) -> Seq<u8>;

    /// The contiguous byte view of the item.
    fn as_bytes(&self) -> (r: &[u8])
        ensures
            r@ == self.bytes_spec(),
    ;
}

impl ByteItem for Vec<u8> {
    open spec fn bytes_spec(&self) -> Seq<u8> {
        self@
    }

    fn as_bytes(&self) -> (r: &[u8]) {
        self.as_slice()
    }
}

/// A stored item paired with its leaf digest, computed once at insertion.
struct MerkleLeaf<T> {
    data: T,
    hash: Vec<u8>,
}

/// The digests of a sequence of leaf records, in order.
spec fn leaf_hashes<T>(ls: Seq<MerkleLeaf<T>>) -> Seq<Seq<u8>> {
    ls.map_values(|l: MerkleLeaf<T>| l.hash@)
}

impl<T: ByteItem> MerkleLeaf<T> {
    /// Builds a leaf record. A precomputed digest, when one is supplied,
    /// is stored as given; otherwise the hasher is run on the item's bytes.
    fn new<H: Hasher>(item: T, opt_crc: Option<Vec<u8>>, hasher: &H) -> (leaf: MerkleLeaf<T>)
        ensures
            leaf.data == item,
            leaf.hash@ == match opt_crc {
                Some(crc) => crc@,
                None => hasher.hash_spec(item.bytes_spec()),
            },
    {
        match opt_crc {
            Some(crc) => MerkleLeaf { data: item, hash: crc },
            None => {
                let crc = hasher.hash(item.as_bytes());
                MerkleLeaf { data: item, hash: crc }
            },
        }
    }
}

/// Appends a copy of `src` to `dst`.
fn append_bytes(dst: &mut Vec<u8>, src: &Vec<u8>)
    ensures
        final(dst)@ == old(dst)@ + src@,
{
    let mut i: usize = 0;
    while i < src.len()
        invariant
            i <= src@.len(),
            dst@ == old(dst)@ + src@.subrange(0, i as int),
        decreases src@.len() - i,
    {
        dst.push(src[i]);
        i = i + 1;
        proof {
            assert(src@.subrange(0, i as int) =~= src@.subrange(0, i - 1) + seq![src@[i - 1]]);
            assert(dst@ =~= old(dst)@ + src@.subrange(0, i as int));
        }
    }
    proof {
        assert(src@.subrange(0, src@.len() as int) =~= src@);
    }
}

/// A fresh copy of a digest.
fn copy_digest(src: &Vec<u8>) -> (r: Vec<u8>)
    ensures
        r@ == src@,
{
    let mut r: Vec<u8> = Vec::new();
    append_bytes(&mut r, src);
    proof {
        assert(Seq::<u8>::empty() + src@ =~= src@);
    }
    r
}

/// Combines two sibling digests into their parent digest: the hasher
/// applied to the left digest followed by the right digest.
fn combined_crc<H: Hasher>(left: &Vec<u8>, right: &Vec<u8>, hasher: &H) -> (r: Vec<u8>)
    ensures
        r@ == hasher.hash_spec(left@ + right@),
{
    let mut combined: Vec<u8> = Vec::new();
    append_bytes(&mut combined, left);
    append_bytes(&mut combined, right);
    proof {
        assert(Seq::<u8>::empty() + left@ =~= left@);
    }
    hasher.hash(combined.as_slice())
}

/// The root digest of a sequence of leaf digests under the left-heavy
/// ceiling split: one digest is its own root; two or more are split at
/// `ceil(n / 2)`, each side reduced recursively, and the two roots hashed
/// as the concatenation left-then-right.
pub open spec fn root_of<H: Hasher>(h: H, ds: Seq<Seq<u8>>) -> Seq<u8>
    recommends
        ds.len() >= 1,
    decreases ds.len(),
{
    if ds.len() <= 1 {
        ds[0]
    } else {
        let k = (ds.len() + 1) as int / 2;
        h.hash_spec(root_of(h, ds.subrange(0, k)) + root_of(h, ds.subrange(k, ds.len() as int)))
    }
}

/// An ordered, append-only sequence of leaf records with one owned hasher;
/// the root digest summarizes the items and their insertion order.
pub struct MerkleTree<T, H> {
    items: Vec<MerkleLeaf<T>>,
    h: H,
}

impl<T: ByteItem, H: Hasher> MerkleTree<T, H> {
    /// The stored items, in insertion order.
    pub closed spec fn items_seq(&self) -> Seq<T> {
        self.items@.map_values(|l: MerkleLeaf<T>| l.data)
    }

    /// The hasher the tree was created with.
    pub closed spec fn hasher(&self) -> H {
        self.h
    }

    /// The leaf digests: the hasher applied to each item's bytes, in order.
    pub open spec fn digests(&self) -> Seq<Seq<u8>> {
        self.items_seq().map_values(|x: T| self.hasher().hash_spec(x.bytes_spec()))
    }

    /// The tree's root digest, as a function of the hasher and the items.
    pub open spec fn root_spec(&self) -> Seq<u8> {
        root_of(self.hasher(), self.digests())
    }

    /// Every stored leaf digest is the hasher applied to its item's bytes.
    pub closed spec fn wf(&self) -> bool {
        forall|i: int|
            0 <= i < self.items@.len() ==> self.items@[i].hash@ == self.h.hash_spec(
                self.items@[i].data.bytes_spec(),
            )
    }

    /// Creates an empty tree that owns the given hasher.
    pub fn new(hasher: H) -> (t: MerkleTree<T, H>)
        ensures
            t.wf(),
            t.items_seq() == Seq::<T>::empty(),
            t.hasher() == hasher,
    {
        let t = MerkleTree { items: Vec::new(), h: hasher };
        proof {
            assert(t.items_seq() =~= Seq::<T>::empty());
        }
        t
    }

    /// The number of items inserted so far.
    pub fn len(&self) -> (n: usize)
        ensures
            n == self.items_seq().len(),
    {
        self.items.len()
    }

    /// Returns the root digest of all inserted items. At least one item
    /// must have been inserted: an empty tree has no root digest.
    pub fn get_crc(&self) -> (r: Vec<u8>)
        requires
            self.wf(),
            self.items_seq().len() >= 1,
        ensures
            r@ == self.root_spec(),
    {
        let r = Self::get_crc_slice(self.items.as_slice(), &self.h);
        proof {
            assert(leaf_hashes(self.items@) =~= self.digests());
        }
        r
    }

    /// Reduces a contiguous run of leaf records to its root digest:
    /// one leaf is copied out, two are combined, and a longer run is
    /// split at `ceil(n / 2)` and each side reduced recursively.
    fn get_crc_slice(part: &[MerkleLeaf<T>], hasher: &H) -> (r: Vec<u8>)
        requires
            part@.len() >= 1,
        ensures
            r@ == root_of(*hasher, leaf_hashes(part@)),
        decreases part@.len(),
    {
        let ghost ds = leaf_hashes(part@);
        if part.len() == 2 {
            let a = vstd::slice::slice_index_get(part, 0);
            let b = vstd::slice::slice_index_get(part, 1);
            let r = combined_crc(&a.hash, &b.hash, hasher);
            proof {
                assert(ds.subrange(0, 1) =~= seq![part@[0].hash@]);
                assert(ds.subrange(1, 2) =~= seq![part@[1].hash@]);
                assert(root_of(*hasher, ds.subrange(0, 1)) == part@[0].hash@);
                assert(root_of(*hasher, ds.subrange(1, 2)) == part@[1].hash@);
            }
            r
        } else if part.len() == 1 {
            let a = vstd::slice::slice_index_get(part, 0);
            copy_digest(&a.hash)
        } else {
            let k = part.len() / 2 + part.len() % 2;
            proof {
                assert(k == (part@.len() + 1) as int / 2) by (nonlinear_arith)
                    requires
                        k == part@.len() / 2 + part@.len() % 2,
                        part@.len() >= 3,
                ;
            }
            let left = vstd::slice::slice_subrange(part, 0, k);
            let right = vstd::slice::slice_subrange(part, k, part.len());
            let left_crc = Self::get_crc_slice(left, hasher);
            let right_crc = Self::get_crc_slice(right, hasher);
            proof {
                assert(leaf_hashes(left@) =~= ds.subrange(0, k as int));
                assert(leaf_hashes(right@) =~= ds.subrange(k as int, ds.len() as int));
            }
            combined_crc(&left_crc, &right_crc, hasher)
        }
    }

    /// Hashes the item's bytes once and appends the leaf record.
    pub fn insert(&mut self, item: T)
        requires
            old(self).wf(),
        ensures
            final(self).wf(),
            final(self).items_seq() == old(self).items_seq().push(item),
            final(self).hasher() == old(self).hasher(),
    {
        let leaf = MerkleLeaf::new(item, None, &self.h);
        self.items.push(leaf);
        proof {
            assert(self.items_seq() =~= old(self).items_seq().push(item));
        }
    }

    /// An iterator over the stored items in insertion order. It borrows
    /// the tree, so no insertion can happen while it is alive.
    pub fn iter<'a>(&'a self) -> (it: MerkleTreeIter<'a, T>)
        ensures
            it.items() == self.items_seq(),
            it.pos() == 0,
    {
        MerkleTreeIter { leaves: &self.items, pos: 0 }
    }
}

/// The lowercase hexadecimal digit for a value below sixteen.
pub open spec fn hex_digit(n: u8) -> char
    recommends
        n < 16,
{
    if n == 0 {
        '0'
    } else if n == 1 {
        '1'
    } else if n == 2 {
        '2'
    } else if n == 3 {
        '3'
    } else if n == 4 {
        '4'
    } else if n == 5 {
        '5'
    } else if n == 6 {
        '6'
    } else if n == 7 {
        '7'
    } else if n == 8 {
        '8'
    } else if n == 9 {
        '9'
    } else if n == 10 {
        'a'
    } else if n == 11 {
        'b'
    } else if n == 12 {
        'c'
    } else if n == 13 {
        'd'
    } else if n == 14 {
        'e'
    } else {
        'f'
    }
}

/// One byte rendered as two lowercase hex digits and a trailing space.
pub open spec fn byte_chars(b: u8) -> Seq<char> {
    seq![hex_digit(b / 16), hex_digit(b % 16), ' ']
}

/// A digest rendered byte by byte, each as two lowercase hex digits
/// followed by a single space.
pub open spec fn crc_chars(s: Seq<u8>) -> Seq<char>
    decreases s.len(),
{
    if s.len() == 0 {
        Seq::empty()
    } else {
        crc_chars(s.drop_last()) + byte_chars(s.last())
    }
}

/// The one-character string for a hex digit value.
fn hex_digit_str(n: u8) -> (r: &'static str)
    requires
        n < 16,
    ensures
        r@ == seq![hex_digit(n)],
{
    proof {
        reveal_strlit("0");
        reveal_strlit("1");
        reveal_strlit("2");
        reveal_strlit("3");
        reveal_strlit("4");
        reveal_strlit("5");
        reveal_strlit("6");
        reveal_strlit("7");
        reveal_strlit("8");
        reveal_strlit("9");
        reveal_strlit("a");
        reveal_strlit("b");
        reveal_strlit("c");
        reveal_strlit("d");
        reveal_strlit("e");
        reveal_strlit("f");
    }
    if n == 0 {
        "0"
    } else if n == 1 {
        "1"
    } else if n == 2 {
        "2"
    } else if n == 3 {
        "3"
    } else if n == 4 {
        "4"
    } else if n == 5 {
        "5"
    } else if n == 6 {
        "6"
    } else if n == 7 {
        "7"
    } else if n == 8 {
        "8"
    } else if n == 9 {
        "9"
    } else if n == 10 {
        "a"
    } else if n == 11 {
        "b"
    } else if n == 12 {
        "c"
    } else if n == 13 {
        "d"
    } else if n == 14 {
        "e"
    } else {
        "f"
    }
}

/// Formats a digest for human display: each byte as two lowercase hex
/// digits followed by a single space.
pub fn crc_tostring(crc: &Vec<u8>) -> (r: String)
    ensures
        r@ == crc_chars(crc@),
{
    let mut buf = String::new();
    let mut i: usize = 0;
    proof {
        reveal_strlit(" ");
    }
    while i < crc.len()
        invariant
            i <= crc@.len(),
            buf@ == crc_chars(crc@.subrange(0, i as int)),
            " "@ == seq![' '],
        decreases crc@.len() - i,
    {
        let b = crc[i];
        buf.append(hex_digit_str(b / 16));
        buf.append(hex_digit_str(b % 16));
        buf.append(" ");
        i = i + 1;
        proof {
            let pre = crc@.subrange(0, i as int);
            assert(pre.drop_last() =~= crc@.subrange(0, i - 1));
            assert(pre.last() == crc@[i - 1]);
            assert(buf@ =~= crc_chars(pre));
        }
    }
    proof {
        assert(crc@.subrange(0, crc@.len() as int) =~= crc@);
    }
    buf
}

/// An in-order walk over a tree's items, by reference.
pub struct MerkleTreeIter<'a, T> {
    leaves: &'a Vec<MerkleLeaf<T>>,
    pos: usize,
}

impl<'a, T> MerkleTreeIter<'a, T> {
    /// The full item sequence this iterator walks.
    pub closed spec fn items(&self) -> Seq<T> {
        self.leaves@.map_values(|l: MerkleLeaf<T>| l.data)
    }

    /// How many items have been yielded so far.
    pub closed spec fn pos(&self) -> int {
        self.pos as int
    }

    /// Yields a reference to the next item in insertion order, or `None`
    /// once every item has been yielded.
    pub fn next(&mut self) -> (r: Option<&'a T>)
        ensures
            final(self).items() == old(self).items(),
            old(self).pos() < old(self).items().len() ==> {
                &&& final(self).pos() == old(self).pos() + 1
                &&& r matches Some(x) && *x == old(self).items()[old(self).pos()]
            },
            old(self).pos() >= old(self).items().len() ==> {
                &&& final(self).pos() == old(self).pos()
                &&& r is None
            },
    {
        if self.pos < self.leaves.len() {
            let leaf = vstd::slice::slice_index_get(self.leaves.as_slice(), self.pos);
            self.pos = self.pos + 1;
            Some(&leaf.data)
        } else {
            None
        }
    }
}

/// Determinism at the digest level: the root digest depends only on the
/// hash function's behaviour and on the leaf digest sequence, not on which
/// hasher value computes it.
pub proof fn lemma_root_of_deterministic<H1: Hasher, H2: Hasher>(
    h1: H1,
    h2: H2,
    ds: Seq<Seq<u8>>,
)
    requires
        forall|d: Seq<u8>| #[trigger] h1.hash_spec(d) == h2.hash_spec(d),
    ensures
        root_of(h1, ds) == root_of(h2, ds),
    decreases ds.len(),
{
    if ds.len() > 1 {
        let k = (ds.len() + 1) as int / 2;
        lemma_root_of_deterministic(h1, h2, ds.subrange(0, k));
        lemma_root_of_deterministic(h1, h2, ds.subrange(k, ds.len() as int));
    }
}

/// Determinism: two trees whose hashers compute the same function and
/// whose items have the same bytes in the same order have the same root
/// digest, however the trees were built.
pub proof fn lemma_tree_deterministic<T1: ByteItem, T2: ByteItem, H1: Hasher, H2: Hasher>(
    t1: &MerkleTree<T1, H1>,
    t2: &MerkleTree<T2, H2>,
)
    requires
        t1.items_seq().len() == t2.items_seq().len(),
        forall|i: int|
            0 <= i < t1.items_seq().len() ==> #[trigger] t1.items_seq()[i].bytes_spec()
                == t2.items_seq()[i].bytes_spec(),
        forall|d: Seq<u8>| #[trigger] t1.hasher().hash_spec(d) == t2.hasher().hash_spec(d),
    ensures
        t1.root_spec() == t2.root_spec(),
{
    assert(t1.digests() =~= t2.digests());
    lemma_root_of_deterministic(t1.hasher(), t2.hasher(), t1.digests());
}

/// Leaf-hash law: the root digest of a single-item tree is the hash of
/// that item's bytes.
pub proof fn lemma_leaf_law<T: ByteItem, H: Hasher>(t: &MerkleTree<T, H>)
    requires
        t.items_seq().len() == 1,
    ensures
        t.root_spec() == t.hasher().hash_spec(t.items_seq()[0].bytes_spec()),
{
    assert(t.digests().len() == 1);
}

/// Pair law: the root digest of a two-item tree is the hash of the first
/// leaf digest concatenated with the second.
pub proof fn lemma_pair_law<T: ByteItem, H: Hasher>(t: &MerkleTree<T, H>)
    requires
        t.items_seq().len() == 2,
    ensures
        t.root_spec() == t.hasher().hash_spec(
            t.hasher().hash_spec(t.items_seq()[0].bytes_spec()) + t.hasher().hash_spec(
                t.items_seq()[1].bytes_spec(),
            ),
        ),
{
    let ds = t.digests();
    assert(ds.subrange(0, 1) =~= seq![ds[0]]);
    assert(ds.subrange(1, 2) =~= seq![ds[1]]);
    assert(root_of(t.hasher(), ds.subrange(0, 1)) == ds[0]);
    assert(root_of(t.hasher(), ds.subrange(1, 2)) == ds[1]);
}

/// Order sensitivity: for two distinct, equal-length leaf digests and a
/// hash function with no collisions, the two-leaf roots for the two
/// insertion orders differ.
pub proof fn lemma_order_sensitivity<H: Hasher>(h: H, a: Seq<u8>, b: Seq<u8>)
    requires
        a.len() == b.len(),
        a != b,
        forall|x: Seq<u8>, y: Seq<u8>| #[trigger] h.hash_spec(x) == #[trigger] h.hash_spec(y)
            ==> x == y,
    ensures
        root_of(h, seq![a, b]) != root_of(h, seq![b, a]),
{
    let ab = seq![a, b];
    let ba = seq![b, a];
    assert(ab.subrange(0, 1) =~= seq![a]);
    assert(ab.subrange(1, 2) =~= seq![b]);
    assert(ba.subrange(0, 1) =~= seq![b]);
    assert(ba.subrange(1, 2) =~= seq![a]);
    assert(root_of(h, ab.subrange(0, 1)) == a);
    assert(root_of(h, ab.subrange(1, 2)) == b);
    assert(root_of(h, ba.subrange(0, 1)) == b);
    assert(root_of(h, ba.subrange(1, 2)) == a);
    assert(root_of(h, ab) == h.hash_spec(a + b));
    assert(root_of(h, ba) == h.hash_spec(b + a));
    if h.hash_spec(a + b) == h.hash_spec(b + a) {
        assert(a + b == b + a);
        assert forall|i: int| 0 <= i < a.len() implies a[i] == b[i] by {
            assert((a + b)[i] == (b + a)[i]);
        }
        assert(a =~= b);
    }
}

/// Insertion monotonicity: appending one item lengthens the item sequence
/// by exactly one and leaves the previously stored prefix unchanged.
pub proof fn lemma_insert_monotonic<T: ByteItem, H: Hasher>(
    before: &MerkleTree<T, H>,
    after: &MerkleTree<T, H>,
    item: T,
)
    requires
        after.items_seq() == before.items_seq().push(item),
    ensures
        after.items_seq().len() == before.items_seq().len() + 1,
        forall|i: int|
            0 <= i < before.items_seq().len() ==> #[trigger] after.items_seq()[i]
                == before.items_seq()[i],
        after.items_seq().last() == item,
{
}

} // verus!
