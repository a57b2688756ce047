//! The signing-key pool: the access keys provisioned for the configured
//! account, each with its own monotonically increasing nonce counter, and
//! the round-robin selection that spreads batches across all keys.

use vstd::prelude::*;

verus! {

/// One signing key of the pool: its public key, its secret, and the nonce
/// counter of the (account, public key) pair.
pub struct SigningKey {
    pub public_key: String,
    pub secret_key: String,
    pub nonce: u64,
}

/// Mathematical view of a pool key: the public key and its nonce counter.
pub struct KeyView {
    pub public_key: Seq<char>,
    pub nonce: u64,
}

impl View for SigningKey {
    type V = KeyView;

    open spec fn view(&self) -> KeyView {
        KeyView { public_key: self.public_key@, nonce: self.nonce }
    }
}

/// The key pool of one on-chain account.  Keys are installed at bootstrap
/// and never removed; selection walks the keys round-robin so that under
/// load every key is exercised.
pub struct SigningKeyPool {
    account_id: String,
    keys: Vec<SigningKey>,
    cursor: usize,
}

/// The index selected by the `k`-th round-robin step from a starting
/// cursor, over `len` keys.
pub open spec fn rr_index(start: nat, k: nat, len: nat) -> nat
    recommends
        len >= 1,
{
    (start + k) % len
}

impl SigningKeyPool {
    /// The account the pool signs for.
    pub closed spec fn account_view(self) -> Seq<char> {
        self.account_id@
    }

    /// The pool's keys, in installation order.
    pub closed spec fn keys_view(self) -> Seq<KeyView> {
        self.keys@.map_values(|k: SigningKey| k@)
    }

    /// The round-robin cursor: where the next selection starts.
    pub closed spec fn cursor_view(self) -> nat {
        self.cursor as nat
    }

    /// An empty pool for the given account.
    pub fn new(account_id: String) -> (p: Self)
        ensures
            p.account_view() == account_id@,
            p.keys_view() == Seq::<KeyView>::empty(),
            p.cursor_view() == 0,
    {
        let p = SigningKeyPool { account_id, keys: Vec::new(), cursor: 0 };
        proof {
            assert(p.keys_view() =~= Seq::<KeyView>::empty());
        }
        p
    }

    /// How many keys the pool holds.
    pub fn key_count(&self) -> (n: usize)
        ensures
            n == self.keys_view().len(),
    {
        self.keys.len()
    }

    /// Install one freshly provisioned key, as bootstrap does after the
    /// chain accepted it.  Keys start counting nonces from the value the
    /// chain reported at provisioning.
    pub fn install_key(&mut self, public_key: String, secret_key: String, nonce: u64)
        ensures
            final(self).account_view() == old(self).account_view(),
            final(self).cursor_view() == old(self).cursor_view(),
            final(self).keys_view() == old(self).keys_view().push(
                KeyView { public_key: public_key@, nonce },
            ),
    {
        let ghost prev = self.keys@;
        self.keys.push(SigningKey { public_key, secret_key, nonce });
        proof {
            let e = self.keys@.last();
            assert(self.keys_view() =~= prev.map_values(|k: SigningKey| k@).push(e@));
        }
    }

    /// Select the key for the next batch, round-robin: the selection is the
    /// current cursor position, and the cursor moves one step, so that
    /// consecutive selections walk every key in turn.
    pub fn select_key(&mut self) -> (idx: usize)
        requires
            old(self).keys_view().len() >= 1,
        ensures
            final(self).account_view() == old(self).account_view(),
            final(self).keys_view() == old(self).keys_view(),
            idx < old(self).keys_view().len(),
            idx == rr_index(old(self).cursor_view(), 0, old(self).keys_view().len()),
            final(self).cursor_view() == (old(self).cursor_view() + 1) % (
            old(self).keys_view().len() as nat),
    {
        let len = self.keys.len();
        let idx = self.cursor % len;
        self.cursor = (idx + 1) % len;
        proof {
            let c = old(self).cursor_view() as int;
            let l = len as int;
            vstd::arithmetic::div_mod::lemma_add_mod_noop(c, 1, l);
            vstd::arithmetic::div_mod::lemma_mod_twice(c, l);
            if len == 1 {
                vstd::arithmetic::div_mod::lemma_mod_division_less_than_divisor(idx as int + 1, 1);
                vstd::arithmetic::div_mod::lemma_mod_division_less_than_divisor(c + 1, 1);
            } else {
                vstd::arithmetic::div_mod::lemma_small_mod(1nat, len as nat);
            }
            assert((idx as int + 1) % l == (c + 1) % l);
        }
        idx
    }

    /// Assign the next nonce of one key: the counter moves strictly up, so
    /// no two submissions signed by this key share a nonce.
    pub fn assign_nonce(&mut self, idx: usize) -> (nonce: u64)
        requires
            old(self).keys_view().len() >= 1,
            idx < old(self).keys_view().len(),
            old(self).keys_view()[idx as int].nonce < u64::MAX,
        ensures
            final(self).account_view() == old(self).account_view(),
            final(self).cursor_view() == old(self).cursor_view(),
            final(self).keys_view().len() == old(self).keys_view().len(),
            nonce == old(self).keys_view()[idx as int].nonce + 1,
            final(self).keys_view()[idx as int].nonce == nonce,
            final(self).keys_view()[idx as int].public_key == old(self).keys_view()[
                idx as int
            ].public_key,
            forall|t: int|
                0 <= t < old(self).keys_view().len() && t != idx ==> final(self).keys_view()[t]
                    == old(self).keys_view()[t],
    {
        let ghost prev = self.keys@;
        let mut key = self.keys.remove(idx);
        key.nonce = key.nonce + 1;
        let n = key.nonce;
        self.keys.insert(idx, key);
        proof {
            assert(self.keys@ =~= prev.update(idx as int, self.keys@[idx as int]));
            assert forall|t: int|
                0 <= t < prev.len() && t != idx implies #[trigger] self.keys_view()[t]
                == prev.map_values(|k: SigningKey| k@)[t] by {
                assert(self.keys@[t] == prev[t]);
            }
        }
        n
    }

    /// Resynchronise one key's counter against the nonce the chain reports,
    /// after a submission was rejected for a stale nonce.  The counter
    /// never moves backwards.
    pub fn resync_nonce(&mut self, idx: usize, chain_nonce: u64)
        requires
            old(self).keys_view().len() >= 1,
            idx < old(self).keys_view().len(),
        ensures
            final(self).account_view() == old(self).account_view(),
            final(self).cursor_view() == old(self).cursor_view(),
            final(self).keys_view().len() == old(self).keys_view().len(),
            final(self).keys_view()[idx as int].nonce == if chain_nonce > old(self).keys_view()[
                idx as int
            ].nonce {
                chain_nonce
            } else {
                old(self).keys_view()[idx as int].nonce
            },
            final(self).keys_view()[idx as int].public_key == old(self).keys_view()[
                idx as int
            ].public_key,
            forall|t: int|
                0 <= t < old(self).keys_view().len() && t != idx ==> final(self).keys_view()[t]
                    == old(self).keys_view()[t],
    {
        let ghost prev = self.keys@;
        let mut key = self.keys.remove(idx);
        if chain_nonce > key.nonce {
            key.nonce = chain_nonce;
        }
        self.keys.insert(idx, key);
        proof {
            assert(self.keys@ =~= prev.update(idx as int, self.keys@[idx as int]));
            assert forall|t: int|
                0 <= t < prev.len() && t != idx implies #[trigger] self.keys_view()[t]
                == prev.map_values(|k: SigningKey| k@)[t] by {
                assert(self.keys@[t] == prev[t]);
            }
        }
    }

    /// Borrow the secret of a selected key for signing.
    pub fn secret_of(&self, idx: usize) -> &String
        requires
            idx < self.keys_view().len(),
    {
        &self.keys[idx].secret_key
    }
}

/// Round-robin selection starves no key: within any window of `len`
/// consecutive selections, every key index is selected at least once.
pub proof fn lemma_round_robin_covers(start: nat, len: nat, j: nat)
    requires
        len >= 1,
        j < len,
    ensures
        exists|k: nat| k < len && #[trigger] rr_index(start, k, len) == j,
{
    let s = start % len;
    vstd::arithmetic::div_mod::lemma_mod_division_less_than_divisor(start as int, len as int);
    if j >= s {
        let k = (j - s) as nat;
        assert(rr_index(start, k, len) == j) by {
            vstd::arithmetic::div_mod::lemma_add_mod_noop(start as int, k as int, len as int);
            vstd::arithmetic::div_mod::lemma_small_mod(k, len);
            vstd::arithmetic::div_mod::lemma_small_mod((s + k) as nat, len);
        }
    } else {
        let k = (j + len - s) as nat;
        assert(rr_index(start, k, len) == j) by {
            vstd::arithmetic::div_mod::lemma_add_mod_noop(start as int, k as int, len as int);
            vstd::arithmetic::div_mod::lemma_small_mod(k, len);
            assert((s + k) == j + len);
            vstd::arithmetic::div_mod::lemma_mod_add_multiples_vanish(j as int, len as int);
            vstd::arithmetic::div_mod::lemma_small_mod(j, len);
        }
    }
}

/// Selecting again after one step continues the same round-robin walk: the
/// step after the cursor moved is the next index of the original walk.
pub proof fn lemma_rr_advance(start: nat, k: nat, len: nat)
    requires
        len >= 1,
    ensures
        rr_index((start + 1) % len, k, len) == rr_index(start, k + 1, len),
{
    vstd::arithmetic::div_mod::lemma_add_mod_noop((start + 1) as int, k as int, len as int);
    vstd::arithmetic::div_mod::lemma_mod_twice((start + 1) as int, len as int);
    vstd::arithmetic::div_mod::lemma_add_mod_noop(
        ((start + 1) as int) % (len as int),
        k as int,
        len as int,
    );
}

} // verus!
