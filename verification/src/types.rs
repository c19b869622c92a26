//! Plain-value identifiers shared by the index: 32-byte hashes, outpoints,
//! addresses and the provenance tag of a watched script.

use vstd::prelude::*;

verus! {

/// Value of a byte string read as a big-endian number.
pub open spec fn be_value(bytes: Seq<u8>) -> nat
    decreases bytes.len(),
{
    if bytes.len() == 0 {
        0
    } else {
        be_value(bytes.drop_last()) * 256 + bytes.last() as nat
    }
}

/// `256^n`.
pub open spec fn pow256(n: nat) -> nat
    decreases n,
{
    if n == 0 {
        1
    } else {
        256 * pow256((n - 1) as nat)
    }
}

/// A big-endian number of `n` bytes is below `256^n`.
pub proof fn lemma_be_value_bound(bytes: Seq<u8>)
    ensures
        be_value(bytes) < pow256(bytes.len()),
    decreases bytes.len(),
{
    if bytes.len() > 0 {
        lemma_be_value_bound(bytes.drop_last());
    }
}

/// Sixteen bytes fit a `u128`.
pub proof fn lemma_pow256_16()
    ensures
        pow256(16) == 0x1_0000_0000_0000_0000_0000_0000_0000_0000,
{
    reveal_with_fuel(pow256, 17);
}

/// Reads sixteen bytes, starting at `start`, as a big-endian number.
fn be_half(bytes: &[u8; 32], start: usize) -> (value: u128)
    requires
        start == 0 || start == 16,
    ensures
        value as nat == be_value(bytes@.subrange(start as int, start + 16)),
{
    let mut acc: u128 = 0;
    let mut i: usize = 0;
    proof {
        lemma_pow256_16();
        assert(bytes@.subrange(start as int, start as int) =~= Seq::<u8>::empty());
    }
    while i < 16
        invariant
            start == 0 || start == 16,
            i <= 16,
            acc as nat == be_value(bytes@.subrange(start as int, start + i)),
            pow256(16) == 0x1_0000_0000_0000_0000_0000_0000_0000_0000,
        decreases 16 - i,
    {
        let b: u8 = bytes[start + i];
        proof {
            let prefix = bytes@.subrange(start as int, start + i);
            let next = bytes@.subrange(start as int, start + i + 1);
            assert(next.drop_last() =~= prefix);
            assert(next.last() == b);
            lemma_be_value_bound(next);
            lemma_pow256_monotonic(next.len(), 16);
        }
        acc = acc * 256 + b as u128;
        i = i + 1;
    }
    acc
}

/// `256^n` grows with `n`.
pub proof fn lemma_pow256_monotonic(a: nat, b: nat)
    requires
        a <= b,
    ensures
        pow256(a) <= pow256(b),
        pow256(a) >= 1,
    decreases b,
{
    if a < b {
        lemma_pow256_monotonic(a, (b - 1) as nat);
    } else if a > 0 {
        lemma_pow256_monotonic((a - 1) as nat, (b - 1) as nat);
    }
}

/// A byte in front of a byte string counts `256^n` times its value, where
/// `n` bytes follow it.
pub proof fn lemma_be_value_front(b: u8, rest: Seq<u8>)
    ensures
        be_value(seq![b] + rest) == b * pow256(rest.len()) + be_value(rest),
    decreases rest.len(),
{
    let whole = seq![b] + rest;
    assert(be_value(whole) == be_value(whole.drop_last()) * 256 + whole.last());
    if rest.len() == 0 {
        assert(whole.drop_last() =~= Seq::<u8>::empty());
        assert(whole.last() == b);
        assert(be_value(whole.drop_last()) == 0);
        assert(pow256(0) == 1);
        assert(be_value(rest) == 0);
    } else {
        assert(whole.drop_last() =~= seq![b] + rest.drop_last());
        assert(whole.last() == rest.last());
        lemma_be_value_front(b, rest.drop_last());
        let p = pow256(rest.drop_last().len());
        assert(pow256(rest.len()) == 256 * p);
        assert(be_value(rest) == be_value(rest.drop_last()) * 256 + rest.last());
        assert((b * p + be_value(rest.drop_last())) * 256 == b * (256 * p) + be_value(
            rest.drop_last(),
        ) * 256) by (nonlinear_arith);
    }
}

/// Writes `value` as sixteen big-endian bytes, starting at `start`.
fn put_half(bytes: &mut [u8; 32], start: usize, value: u128)
    requires
        start == 0 || start == 16,
    ensures
        be_value(final(bytes)@.subrange(start as int, start + 16)) == value,
        forall|j: int|
            0 <= j < 32 && !(start <= j < start + 16) ==> final(bytes)@[j] == old(bytes)@[j],
{
    let mut rest: u128 = value;
    let mut i: usize = 16;
    proof {
        assert(bytes@.subrange(start + 16, start + 16) =~= Seq::<u8>::empty());
        assert(be_value(Seq::<u8>::empty()) == 0);
        assert(pow256(0) == 1);
        assert(rest * pow256(0) == value) by (nonlinear_arith)
            requires
                rest == value,
                pow256(0) == 1,
        ;
    }
    while i > 0
        invariant
            start == 0 || start == 16,
            i <= 16,
            be_value(bytes@.subrange(start + i, start + 16)) + rest * pow256((16 - i) as nat)
                == value,
            forall|j: int|
                0 <= j < 32 && !(start <= j < start + 16) ==> bytes@[j] == old(bytes)@[j],
        decreases i,
    {
        let ghost tail = bytes@.subrange(start + i, start + 16);
        let ghost before = rest;
        i = i - 1;
        let b: u8 = (rest % 256) as u8;
        bytes[start + i] = b;
        rest = rest / 256;
        proof {
            assert(bytes@.subrange(start + i, start + 16) =~= seq![b] + tail);
            lemma_be_value_front(b, tail);
            let p = pow256(tail.len());
            assert(pow256((16 - i) as nat) == 256 * p);
            assert(before == rest * 256 + b);
            assert(b * p + rest * (256 * p) == (rest * 256 + b) * p) by (nonlinear_arith);
        }
    }
    proof {
        lemma_pow256_16();
        lemma_be_value_bound(bytes@.subrange(start as int, start + 16));
        assert(rest * pow256(16) <= value);
        assert(rest == 0) by (nonlinear_arith)
            requires
                rest * 0x1_0000_0000_0000_0000_0000_0000_0000_0000 <= value,
                value < 0x1_0000_0000_0000_0000_0000_0000_0000_0000,
                rest >= 0,
        ;
    }
}

/// A 32-byte hash held as two big-endian halves, so that hashes are ordered
/// as their bytes are.
#[derive(Clone, Copy, Debug, PartialEq, Eq, Structural, Hash, PartialOrd, Ord)]
pub struct Hash256 {
    pub hi: u128,
    pub lo: u128,
}

impl Hash256 {
    /// The hash that a 32-byte string stands for.
    pub open spec fn of_bytes(bytes: Seq<u8>) -> Hash256 {
        Hash256 {
            hi: be_value(bytes.subrange(0, 16)) as u128,
            lo: be_value(bytes.subrange(16, 32)) as u128,
        }
    }

    /// The pair under which the hash is stored and ordered.
    pub open spec fn spec_key(&self) -> (u128, u128) {
        (self.hi, self.lo)
    }

    #[verifier::when_used_as_spec(spec_key)]
    pub fn key(&self) -> (k: (u128, u128))
        ensures
            k == self.spec_key(),
    {
        (self.hi, self.lo)
    }

    pub fn from_bytes(bytes: &[u8; 32]) -> (h: Hash256)
        ensures
            h == Self::of_bytes(bytes@),
            h.hi as nat == be_value(bytes@.subrange(0, 16)),
            h.lo as nat == be_value(bytes@.subrange(16, 32)),
    {
        let hi = be_half(bytes, 0);
        let lo = be_half(bytes, 16);
        Hash256 { hi, lo }
    }

    /// The 32 bytes that the hash stands for: `from_bytes` finds the hash
    /// again from them.
    pub fn to_bytes(&self) -> (bytes: [u8; 32])
        ensures
            Self::of_bytes(bytes@) == *self,
            be_value(bytes@.subrange(0, 16)) == self.hi,
            be_value(bytes@.subrange(16, 32)) == self.lo,
    {
        let mut bytes = [0u8; 32];
        put_half(&mut bytes, 0, self.hi);
        let ghost first = bytes@.subrange(0, 16);
        put_half(&mut bytes, 16, self.lo);
        proof {
            assert(bytes@.subrange(0, 16) =~= first);
        }
        bytes
    }
}

/// Whether byte string `a` comes before byte string `b`, read byte by byte
/// from the front: they agree up to some place, where `a` has the lower
/// byte.
pub open spec fn bytes_precede(a: Seq<u8>, b: Seq<u8>) -> bool {
    exists|i: int|
        0 <= i < a.len() && i < b.len() && a[i] < b[i] && #[trigger] a.take(i) == b.take(i)
}

/// Whether hash `a` comes before hash `b` as keys are ordered.
pub open spec fn hash_precedes(a: Hash256, b: Hash256) -> bool {
    a.hi < b.hi || (a.hi == b.hi && a.lo < b.lo)
}

/// Byte strings of one length with one big-endian value are one string.
pub proof fn lemma_be_value_injective(a: Seq<u8>, b: Seq<u8>)
    requires
        a.len() == b.len(),
        be_value(a) == be_value(b),
    ensures
        a == b,
    decreases a.len(),
{
    if a.len() > 0 {
        lemma_be_value_injective(a.drop_last(), b.drop_last());
        assert(a =~= a.drop_last().push(a.last()));
        assert(b =~= b.drop_last().push(b.last()));
    } else {
        assert(a =~= b);
    }
}

/// Of two byte strings of one length, the one with the lower big-endian
/// value is the one that comes first byte by byte.
pub proof fn lemma_be_value_order(a: Seq<u8>, b: Seq<u8>)
    requires
        a.len() == b.len(),
    ensures
        be_value(a) < be_value(b) <==> bytes_precede(a, b),
    decreases a.len(),
{
    if a.len() > 0 {
        let n = a.len() - 1;
        let a0 = a.drop_last();
        let b0 = b.drop_last();
        lemma_be_value_order(a0, b0);
        if be_value(a) < be_value(b) {
            if be_value(a0) < be_value(b0) {
                let i = choose|i: int|
                    0 <= i < a0.len() && i < b0.len() && a0[i] < b0[i] && #[trigger] a0.take(i)
                        == b0.take(i);
                assert(a.take(i) =~= a0.take(i));
                assert(b.take(i) =~= b0.take(i));
                assert(a[i] < b[i]);
            } else {
                lemma_be_value_injective(a0, b0);
                assert(a.take(n) =~= a0);
                assert(b.take(n) =~= b0);
                assert(a[n] < b[n]);
            }
        }
        if bytes_precede(a, b) {
            let i = choose|i: int|
                0 <= i < a.len() && i < b.len() && a[i] < b[i] && #[trigger] a.take(i) == b.take(
                    i,
                );
            if i < n {
                assert(a0.take(i) =~= a.take(i));
                assert(b0.take(i) =~= b.take(i));
                assert(a0[i] < b0[i]);
                assert(bytes_precede(a0, b0));
            } else {
                assert(a0 =~= a.take(n));
                assert(b0 =~= b.take(n));
            }
        }
    }
}

/// Reading 32 bytes as a hash keeps their order: one byte string comes
/// before another exactly when its hash comes before the other's, and two
/// byte strings give one hash only if they are one string.
pub proof fn lemma_of_bytes_keeps_order(a: Seq<u8>, b: Seq<u8>)
    requires
        a.len() == 32,
        b.len() == 32,
    ensures
        bytes_precede(a, b) <==> hash_precedes(Hash256::of_bytes(a), Hash256::of_bytes(b)),
        a == b <==> Hash256::of_bytes(a) == Hash256::of_bytes(b),
{
    let a_hi = a.subrange(0, 16);
    let a_lo = a.subrange(16, 32);
    let b_hi = b.subrange(0, 16);
    let b_lo = b.subrange(16, 32);
    lemma_pow256_16();
    lemma_be_value_bound(a_hi);
    lemma_be_value_bound(a_lo);
    lemma_be_value_bound(b_hi);
    lemma_be_value_bound(b_lo);
    lemma_be_value_order(a_hi, b_hi);
    lemma_be_value_order(a_lo, b_lo);
    if be_value(a_hi) == be_value(b_hi) {
        lemma_be_value_injective(a_hi, b_hi);
    }
    if be_value(a_lo) == be_value(b_lo) {
        lemma_be_value_injective(a_lo, b_lo);
    }
    if a_hi == b_hi && a_lo == b_lo {
        assert(a =~= a_hi + a_lo);
        assert(b =~= b_hi + b_lo);
    }
    if bytes_precede(a, b) {
        let i = choose|i: int|
            0 <= i < a.len() && i < b.len() && a[i] < b[i] && #[trigger] a.take(i) == b.take(i);
        if i < 16 {
            assert(a_hi.take(i) =~= a.take(i));
            assert(b_hi.take(i) =~= b.take(i));
            assert(a_hi[i] < b_hi[i]);
            assert(bytes_precede(a_hi, b_hi));
        } else {
            assert(a_hi =~= a.take(i).subrange(0, 16));
            assert(b_hi =~= b.take(i).subrange(0, 16));
            assert(a_lo.take(i - 16) =~= a.take(i).subrange(16, i));
            assert(b_lo.take(i - 16) =~= b.take(i).subrange(16, i));
            assert(a_lo[i - 16] < b_lo[i - 16]);
            assert(bytes_precede(a_lo, b_lo));
        }
    }
    if bytes_precede(a_hi, b_hi) {
        let i = choose|i: int|
            0 <= i < a_hi.len() && i < b_hi.len() && a_hi[i] < b_hi[i] && #[trigger] a_hi.take(i)
                == b_hi.take(i);
        assert(a.take(i) =~= a_hi.take(i));
        assert(b.take(i) =~= b_hi.take(i));
        assert(a[i] < b[i]);
        assert(bytes_precede(a, b));
    }
    if a_hi == b_hi && bytes_precede(a_lo, b_lo) {
        let i = choose|i: int|
            0 <= i < a_lo.len() && i < b_lo.len() && a_lo[i] < b_lo[i] && #[trigger] a_lo.take(i)
                == b_lo.take(i);
        assert(a.take(i + 16) =~= a_hi + a_lo.take(i));
        assert(b.take(i + 16) =~= b_hi + b_lo.take(i));
        assert(a[i + 16] < b[i + 16]);
        assert(bytes_precede(a, b));
    }
}

/// Transaction identifier.
#[derive(Clone, Copy, Debug, PartialEq, Eq, Structural, Hash, PartialOrd, Ord)]
pub struct Txid(pub Hash256);

/// Fingerprint of a watched output script.
#[derive(Clone, Copy, Debug, PartialEq, Eq, Structural, Hash, PartialOrd, Ord)]
pub struct ScriptHash(pub Hash256);

/// Identifier of a block, used to notice that the chain tip moved.
#[derive(Clone, Copy, Debug, PartialEq, Eq, Structural, Hash, PartialOrd, Ord)]
pub struct BlockHash(pub Hash256);

impl Txid {
    pub open spec fn spec_key(&self) -> (u128, u128) {
        self.0.key()
    }

    #[verifier::when_used_as_spec(spec_key)]
    pub fn key(&self) -> (k: (u128, u128))
        ensures
            k == self.spec_key(),
    {
        self.0.key()
    }

    /// The identifier stored under `k`.
    pub open spec fn of_key(k: (u128, u128)) -> Txid {
        Txid(Hash256 { hi: k.0, lo: k.1 })
    }

    pub fn from_bytes(bytes: &[u8; 32]) -> (t: Txid)
        ensures
            t == Txid(Hash256::of_bytes(bytes@)),
    {
        Txid(Hash256::from_bytes(bytes))
    }

    pub fn to_bytes(&self) -> (bytes: [u8; 32])
        ensures
            Txid(Hash256::of_bytes(bytes@)) == *self,
    {
        self.0.to_bytes()
    }
}

impl ScriptHash {
    pub open spec fn spec_key(&self) -> (u128, u128) {
        self.0.key()
    }

    #[verifier::when_used_as_spec(spec_key)]
    pub fn key(&self) -> (k: (u128, u128))
        ensures
            k == self.spec_key(),
    {
        self.0.key()
    }

    /// The fingerprint stored under `k`.
    pub open spec fn of_key(k: (u128, u128)) -> ScriptHash {
        ScriptHash(Hash256 { hi: k.0, lo: k.1 })
    }

    pub fn from_bytes(bytes: &[u8; 32]) -> (s: ScriptHash)
        ensures
            s == ScriptHash(Hash256::of_bytes(bytes@)),
    {
        ScriptHash(Hash256::from_bytes(bytes))
    }

    pub fn to_bytes(&self) -> (bytes: [u8; 32])
        ensures
            ScriptHash(Hash256::of_bytes(bytes@)) == *self,
    {
        self.0.to_bytes()
    }
}

impl BlockHash {
    pub fn from_bytes(bytes: &[u8; 32]) -> (b: BlockHash)
        ensures
            b == BlockHash(Hash256::of_bytes(bytes@)),
    {
        BlockHash(Hash256::from_bytes(bytes))
    }
}

/// One output of one transaction.
#[derive(Clone, Copy, Debug, PartialEq, Eq, Structural, Hash, PartialOrd, Ord)]
pub struct OutPoint {
    pub txid: Txid,
    pub vout: u32,
}

impl OutPoint {
    pub fn new(txid: Txid, vout: u32) -> (o: OutPoint)
        ensures
            o == (OutPoint { txid, vout }),
    {
        OutPoint { txid, vout }
    }

    pub open spec fn spec_key(&self) -> ((u128, u128), u32) {
        (self.txid.key(), self.vout)
    }

    #[verifier::when_used_as_spec(spec_key)]
    pub fn key(&self) -> (k: ((u128, u128), u32))
        ensures
            k == self.spec_key(),
    {
        (self.txid.key(), self.vout)
    }

    /// The outpoint stored under `k`.
    pub open spec fn of_key(k: ((u128, u128), u32)) -> OutPoint {
        OutPoint { txid: Txid::of_key(k.0), vout: k.1 }
    }
}

/// One input of one transaction.
#[derive(Clone, Copy, Debug, PartialEq, Eq, Structural, Hash, PartialOrd, Ord)]
pub struct InPoint {
    pub txid: Txid,
    pub vin: u32,
}

impl InPoint {
    pub fn new(txid: Txid, vin: u32) -> (i: InPoint)
        ensures
            i == (InPoint { txid, vin }),
    {
        InPoint { txid, vin }
    }
}

/// How a watched script came to be watched. The index only ever compares
/// two origins for equality.
#[derive(Clone, Copy, Debug, PartialEq, Eq, Structural, Hash)]
pub enum KeyOrigin {
    /// Imported on its own.
    Standalone,
    /// Derived from the wallet with the given fingerprint, at the given index.
    Derived(u32, u32),
}

impl KeyOrigin {
    pub fn is_standalone(&self) -> (r: bool)
        ensures
            r == (*self is Standalone),
    {
        match self {
            KeyOrigin::Standalone => true,
            KeyOrigin::Derived(_, _) => false,
        }
    }
}

/// Key origin of one derived key: master fingerprint and derivation path.
#[derive(Clone, Debug, PartialEq, Eq)]
pub struct Bip32Origin {
    pub fingerprint: u32,
    pub path: Vec<u32>,
}

/// What the node reports about a transaction waiting in its mempool.
#[derive(Clone, Copy, Debug, PartialEq, Eq, Structural, Hash)]
pub struct MempoolEntry {
    pub vsize: u64,
    pub fee: u64,
    pub ancestor_vsize: u64,
    pub ancestor_fee: u64,
}

/// A watched address: its text form and the output script it pays to.
#[derive(Debug, PartialEq, Eq)]
pub struct Address {
    pub text: String,
    pub script: Vec<u8>,
}

/// Mathematical value of an [`Address`].
pub struct AddressView {
    pub text: Seq<char>,
    pub script: Seq<u8>,
}

impl View for Address {
    type V = AddressView;

    open spec fn view(&self) -> AddressView {
        AddressView { text: self.text@, script: self.script@ }
    }
}

impl Clone for Address {
    fn clone(&self) -> (copy: Address)
        ensures
            copy@ == self@,
    {
        Address { text: self.text.clone(), script: self.script.clone() }
    }
}

impl Address {
    pub fn new(text: String, script: Vec<u8>) -> (a: Address)
        ensures
            a@ == (AddressView { text: text@, script: script@ }),
    {
        Address { text, script }
    }

    /// Whether two addresses read the same.
    pub fn same_text(&self, other: &Address) -> (r: bool)
        ensures
            r == (self@.text == other@.text),
    {
        self.text == other.text
    }
}

} // verus!
