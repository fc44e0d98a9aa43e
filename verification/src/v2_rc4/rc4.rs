use vstd::arithmetic::div_mod::lemma_small_mod;
use vstd::slice::slice_to_vec;
use vstd::prelude::*;

verus! {

/// The mathematical state of the keystream generator: the permutation
/// array and the two cursors.
#[verifier::ext_equal]
pub struct Rc4Model {
    pub state: Seq<u8>,
    pub i: nat,
    pub j: nat,
}

/// The key-scheduling shuffle after `i` steps: the permutation (seeded with
/// the identity, truncated to bytes) and the running cursor `j`.
pub open spec fn ksa(key: Seq<u8>, i: int) -> (Seq<u8>, int)
    recommends
        key.len() >= 1,
        0 <= i <= key.len(),
    decreases i,
{
    if i <= 0 {
        (Seq::new(key.len(), |t: int| t as u8), 0)
    } else {
        let (s, j) = ksa(key, i - 1);
        let n = key.len() as int;
        let j2 = (j + s[i - 1] + key[(i - 1) % n]) % n;
        (s.update(i - 1, s[j2]).update(j2, s[i - 1]), j2)
    }
}

/// A fresh generator for a key: the fully shuffled permutation with both
/// cursors at zero.
pub open spec fn rc4_init(key: Seq<u8>) -> Rc4Model
    recommends
        key.len() >= 1,
{
    Rc4Model { state: ksa(key, key.len() as int).0, i: 0, j: 0 }
}

/// One generation step: advance the cursors, swap the two entries they
/// point at, and output the entry indexed by their sum.
pub open spec fn rc4_step(m: Rc4Model) -> (Rc4Model, u8)
    recommends
        m.state.len() >= 1,
        m.i < m.state.len(),
        m.j < m.state.len(),
{
    let n = m.state.len() as int;
    let i2: int = ((m.i + 1) as int) % n;
    let j2: int = (m.j as int + m.state[i2] as int) % n;
    let s2 = m.state.update(i2, m.state[j2]).update(j2, m.state[i2]);
    let idx: int = (s2[i2] as int + s2[j2] as int) % n;
    (Rc4Model { state: s2, i: i2 as nat, j: j2 as nat }, s2[idx])
}

/// The generator after discarding `k` bytes.
pub open spec fn rc4_advance(m: Rc4Model, k: nat) -> Rc4Model
    decreases k,
{
    if k == 0 {
        m
    } else {
        rc4_advance(rc4_step(m).0, (k - 1) as nat)
    }
}

/// The `k`-th byte (0-based) that the generator emits from state `m`.
pub open spec fn rc4_keystream(m: Rc4Model, k: nat) -> u8
    decreases k,
{
    if k == 0 {
        rc4_step(m).1
    } else {
        rc4_keystream(rc4_step(m).0, (k - 1) as nat)
    }
}

/// A model is well formed when the permutation is non-empty and both
/// cursors point into it.
pub open spec fn model_wf(m: Rc4Model) -> bool {
    &&& 1 <= m.state.len()
    &&& m.i < m.state.len()
    &&& m.j < m.state.len()
}

/// One step preserves well-formedness and the permutation's length.
pub proof fn lemma_rc4_step_wf(m: Rc4Model)
    requires
        model_wf(m),
    ensures
        model_wf(rc4_step(m).0),
        rc4_step(m).0.state.len() == m.state.len(),
{
    let n = m.state.len() as int;
    lemma_mod_bound((m.i + 1) as int, n);
    lemma_mod_bound((m.j + m.state[(m.i + 1) as int % n]) as int, n);
}

/// Discarding `k + 1` bytes is one step past discarding `k`, and the byte
/// emitted after `k` discards is the `k`-th of the keystream.
pub proof fn lemma_rc4_advance_succ(m: Rc4Model, k: nat)
    ensures
        rc4_advance(m, k + 1) == rc4_advance(rc4_step(m).0, k),
        rc4_advance(m, k + 1) == rc4_step(rc4_advance(m, k)).0,
        rc4_keystream(m, k) == rc4_step(rc4_advance(m, k)).1,
    decreases k,
{
    assert(rc4_advance(m, k + 1) == rc4_advance(rc4_step(m).0, k));
    if k > 0 {
        lemma_rc4_advance_succ(rc4_step(m).0, (k - 1) as nat);
    } else {
        assert(rc4_advance(m, 1) == rc4_step(m).0);
    }
}

/// The key-scheduling shuffle keeps the permutation's length and its cursor
/// in range.
pub proof fn lemma_ksa_wf(key: Seq<u8>, i: int)
    requires
        key.len() >= 1,
        0 <= i <= key.len(),
    ensures
        ksa(key, i).0.len() == key.len(),
        0 <= ksa(key, i).1 < key.len(),
    decreases i,
{
    let n = key.len() as int;
    if i > 0 {
        lemma_ksa_wf(key, i - 1);
        let (s, j) = ksa(key, i - 1);
        lemma_mod_bound((i - 1), n);
        lemma_mod_bound(j + s[i - 1] + key[(i - 1) % n], n);
    }
}

proof fn lemma_mod_bound(x: int, m: int)
    requires
        x >= 0,
        m > 0,
    ensures
        0 <= x % m < m,
{
    vstd::arithmetic::div_mod::lemma_mod_bound(x, m);
}

/// The keystream generator: an owned permutation and two cursors, mutated
/// on every byte produced. One instance serves one logical decode
/// operation at a time; concurrent use requires separate instances.
#[derive(Clone)]
pub struct RC4 {
    state: Vec<u8>,
    i: usize,
    j: usize,
}

impl View for RC4 {
    type V = Rc4Model;

    closed spec fn view(&self) -> Rc4Model {
        Rc4Model { state: self.state@, i: self.i as nat, j: self.j as nat }
    }
}

impl RC4 {
    /// The generator's state is well formed.
    pub open spec fn wf(&self) -> bool {
        model_wf(self@)
    }

    /// Build a fresh generator from a key: identity permutation of the
    /// key's length, shuffled once by the standard key schedule.
    pub fn new(key: &[u8]) -> (r: RC4)
        requires
            1 <= key@.len(),
        ensures
            r.wf(),
            r@ == rc4_init(key@),
    {
        let n = key.len();
        let mut state: Vec<u8> = Vec::new();
        let mut t: usize = 0;
        while t < n
            invariant
                t <= n,
                state@.len() == t,
                forall|x: int| 0 <= x < t ==> state@[x] == x as u8,
            decreases n - t,
        {
            state.push(t as u8);
            t = t + 1;
        }
        assert(state@ =~= Seq::new(key@.len(), |x: int| x as u8));
        let mut j: usize = 0;
        let mut i: usize = 0;
        while i < n
            invariant
                n == key@.len(),
                1 <= n,
                i <= n,
                state@.len() == n,
                j < n,
                state@ == ksa(key@, i as int).0,
                j as int == ksa(key@, i as int).1,
            decreases n - i,
        {
            proof {
                lemma_small_mod(i as nat, n as nat);
                lemma_mod_bound(j + state@[i as int] + key@[i as int], n as int);
            }
            j = ((j as u128 + state[i] as u128 + key[i] as u128) % (n as u128)) as usize;
            let a = state[i];
            let b = state[j];
            state[i] = b;
            state[j] = a;
            i = i + 1;
        }
        RC4 { state, i: 0, j: 0 }
    }

    /// Produce one keystream byte, advancing the generator by one step.
    pub fn generate(&mut self) -> (r: u8)
        requires
            old(self).wf(),
        ensures
            final(self).wf(),
            final(self)@ == rc4_step(old(self)@).0,
            r == rc4_step(old(self)@).1,
    {
        proof {
            lemma_rc4_step_wf(old(self)@);
        }
        let n = self.state.len();
        self.i = (self.i + 1) % n;
        self.j = ((self.j as u128 + self.state[self.i] as u128) % (n as u128)) as usize;
        let ii = self.i;
        let jj = self.j;
        let a = self.state[ii];
        let b = self.state[jj];
        self.state[ii] = b;
        self.state[jj] = a;
        let index = (self.state[ii] as usize + self.state[jj] as usize) % n;
        let out = self.state[index];
        assert(self@ =~= rc4_step(old(self)@).0);
        out
    }

    /// The current permutation, copied out, so that callers can inspect
    /// or compare generator states.
    pub fn state_bytes(&self) -> (r: Vec<u8>)
        ensures
            r@ == self@.state,
    {
        slice_to_vec(self.state.as_slice())
    }

    /// XOR every buffer byte with the next keystream byte, in order.
    pub fn derive(&mut self, buffer: &mut [u8])
        requires
            old(self).wf(),
        ensures
            final(self).wf(),
            final(self)@ == rc4_advance(old(self)@, old(buffer)@.len() as nat),
            final(buffer)@.len() == old(buffer)@.len(),
            forall|t: int|
                0 <= t < old(buffer)@.len() ==> final(buffer)@[t] == (old(buffer)@[t]
                    ^ rc4_keystream(old(self)@, t as nat)),
    {
        let n = buffer.len();
        let mut t: usize = 0;
        while t < n
            invariant
                old(self).wf(),
                self.wf(),
                t <= n,
                buffer@.len() == n,
                old(buffer)@.len() == n,
                self@ == rc4_advance(old(self)@, t as nat),
                forall|x: int| t <= x < n ==> buffer@[x] == old(buffer)@[x],
                forall|x: int|
                    0 <= x < t ==> buffer@[x] == (old(buffer)@[x] ^ rc4_keystream(
                        old(self)@,
                        x as nat,
                    )),
            decreases n - t,
        {
            proof {
                lemma_rc4_advance_succ(old(self)@, t as nat);
            }
            let ks = self.generate();
            buffer[t] = buffer[t] ^ ks;
            t = t + 1;
        }
    }
}

} // verus!
