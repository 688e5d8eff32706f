//! A peekable cursor over a playlist that repeats forever. Entries that were
//! looked at ahead of the cursor are kept, and dropped once the cursor passes
//! them.

use vstd::prelude::*;

use crate::codec::texts;

verus! {

/// The index after `i` in a cycle of `n` places.
pub open spec fn wrap(i: nat, n: nat) -> nat {
    if i + 1 >= n {
        0
    } else {
        i + 1
    }
}

/// The index `k` places after `i` in a cycle of `n` places.
pub open spec fn shift(i: nat, k: nat, n: nat) -> nat
    decreases k,
{
    if k == 0 {
        i
    } else {
        wrap(shift(i, (k - 1) as nat, n), n)
    }
}

/// Moving one place and then `k` is moving `k + 1`.
pub proof fn lemma_shift_wrap(i: nat, k: nat, n: nat)
    ensures
        shift(wrap(i, n), k, n) == shift(i, k + 1, n),
    decreases k,
{
    if k > 0 {
        lemma_shift_wrap(i, (k - 1) as nat, n);
        assert(shift(i, k + 1, n) == wrap(shift(i, k, n), n));
    } else {
        assert(shift(i, 1, n) == wrap(shift(i, 0, n), n));
    }
}

/// A place in the cycle stays in the cycle.
pub proof fn lemma_shift_bound(i: nat, k: nat, n: nat)
    requires
        i < n,
    ensures
        shift(i, k, n) < n,
    decreases k,
{
    if k > 0 {
        lemma_shift_bound(i, (k - 1) as nat, n);
    }
}

fn next_index(i: usize, n: usize) -> (r: usize)
    requires
        i < n,
    ensures
        r == wrap(i as nat, n as nat),
{
    if i + 1 >= n {
        0
    } else {
        i + 1
    }
}

/// The shared source of a cursor: the cycle, and the entries pulled from it
/// ahead of the cursor.
pub struct IterRoot {
    items: Vec<String>,
    base: usize,
    pulled: usize,
    mem: Vec<String>,
    end: bool,
}

impl IterRoot {
    /// The entries of one turn of the cycle.
    pub closed spec fn cycle(&self) -> Seq<Seq<char>> {
        texts(self.items@)
    }

    /// The place of the cursor in the cycle.
    pub closed spec fn at(&self) -> nat {
        self.base as nat
    }

    /// The entries kept ahead of the cursor.
    pub closed spec fn kept(&self) -> nat {
        self.mem@.len()
    }

    pub closed spec fn wf(&self) -> bool {
        &&& self.end == (self.items@.len() == 0)
        &&& !self.end ==> {
            &&& self.base < self.items@.len()
            &&& self.pulled < self.items@.len()
            &&& self.pulled == shift(self.base as nat, self.mem@.len(), self.items@.len())
        }
        &&& self.end ==> self.mem@.len() == 0 && self.base == 0
        &&& forall|k: int|
            0 <= k < self.mem@.len() ==> (#[trigger] self.mem@[k])@ == self.items@[shift(
                self.base as nat,
                k as nat,
                self.items@.len(),
            ) as int]@
    }

    /// The entry `k` places after the cursor.
    pub open spec fn ahead(&self, k: nat) -> Seq<char> {
        self.cycle()[shift(self.at(), k, self.cycle().len()) as int]
    }

    pub fn new(items: Vec<String>) -> (r: Self)
        ensures
            r.wf(),
            r.cycle() == texts(items@),
            r.at() == 0,
    {
        let end = items.len() == 0;
        IterRoot { items, base: 0, pulled: 0, mem: Vec::new(), end }
    }

    /// Pulls entries until the one `n` places after the cursor is kept.
    pub fn ensure(&mut self, n: usize)
        requires
            old(self).wf(),
        ensures
            final(self).wf(),
            final(self).cycle() == old(self).cycle(),
            final(self).at() == old(self).at(),
            final(self).cycle().len() > 0 ==> final(self).kept() > n,
    {
        if self.end {
            return;
        }
        let len = self.items.len();
        while self.mem.len() <= n
            invariant
                self.wf(),
                !self.end,
                len == self.items@.len(),
                self.cycle() == old(self).cycle(),
                self.at() == old(self).at(),
            decreases n + 1 - self.mem@.len(),
        {
            let item = self.items[self.pulled].clone();
            proof {
                lemma_shift_bound(self.base as nat, self.mem@.len(), len as nat);
            }
            self.mem.push(item);
            self.pulled = next_index(self.pulled, len);
        }
    }

    /// The entry `n` places after the cursor, if the cycle has any.
    pub fn get(&mut self, n: usize) -> (r: Option<String>)
        requires
            old(self).wf(),
        ensures
            final(self).wf(),
            final(self).cycle() == old(self).cycle(),
            final(self).at() == old(self).at(),
            match r {
                Some(s) => old(self).cycle().len() > 0 && s@ == old(self).ahead(n as nat),
                None => old(self).cycle().len() == 0,
            },
    {
        self.ensure(n);
        if self.end {
            None
        } else {
            let s = self.mem[n].clone();
            proof {
                lemma_shift_bound(self.base as nat, n as nat, self.items@.len());
            }
            Some(s)
        }
    }

    /// The entries from `start` places after the cursor up to `end`.
    pub fn get_range(&mut self, start: usize, end: usize) -> (r: Vec<String>)
        requires
            old(self).wf(),
        ensures
            final(self).wf(),
            final(self).cycle() == old(self).cycle(),
            final(self).at() == old(self).at(),
            r@.len() == (if old(self).cycle().len() == 0 || end <= start {
                0
            } else {
                end - start
            }),
            forall|k: int|
                0 <= k < r@.len() ==> (#[trigger] r@[k])@ == old(self).ahead((start + k) as nat),
    {
        let mut r: Vec<String> = Vec::new();
        if end <= start {
            return r;
        }
        let mut i: usize = start;
        while i < end
            invariant
                self.wf(),
                self.cycle() == old(self).cycle(),
                self.at() == old(self).at(),
                start <= i <= end,
                r@.len() == (if self.cycle().len() == 0 {
                    0
                } else {
                    i - start
                }),
                forall|k: int|
                    0 <= k < r@.len() ==> (#[trigger] r@[k])@ == old(self).ahead(
                        (start + k) as nat,
                    ),
            decreases end - i,
        {
            match self.get(i) {
                Some(s) => {
                    r.push(s);
                },
                None => {
                    return r;
                },
            }
            i = i + 1;
        }
        r
    }

    /// Moves the cursor one place and drops the entry it passed.
    fn advance(&mut self)
        requires
            old(self).wf(),
            old(self).cycle().len() > 0,
        ensures
            final(self).wf(),
            final(self).cycle() == old(self).cycle(),
            final(self).at() == wrap(old(self).at(), old(self).cycle().len()),
    {
        self.ensure(0);
        let ghost old_mem = self.mem@;
        let ghost n = self.items@.len();
        let ghost b = self.base as nat;
        self.mem.remove(0);
        self.base = next_index(self.base, self.items.len());
        proof {
            assert forall|k: int| 0 <= k < self.mem@.len() implies (#[trigger] self.mem@[k])@
                == self.items@[shift(self.base as nat, k as nat, n) as int]@ by {
                lemma_shift_wrap(b, k as nat, n);
                assert(self.mem@[k] == old_mem[k + 1]);
            }
            lemma_shift_wrap(b, self.mem@.len(), n);
        }
    }
}

/// A cursor over a repeating playlist that can look ahead without moving.
pub struct IterMem {
    root: IterRoot,
}

impl IterMem {
    /// The entries of one turn of the playlist.
    pub closed spec fn cycle(&self) -> Seq<Seq<char>> {
        self.root.cycle()
    }

    /// The place of the cursor in the playlist.
    pub closed spec fn at(&self) -> nat {
        self.root.at()
    }

    pub closed spec fn wf(&self) -> bool {
        self.root.wf()
    }

    /// The entry `k` places after the cursor.
    pub open spec fn ahead(&self, k: nat) -> Seq<char> {
        self.cycle()[shift(self.at(), k, self.cycle().len()) as int]
    }

    pub fn new(items: Vec<String>) -> (r: Self)
        ensures
            r.wf(),
            r.cycle() == texts(items@),
            r.at() == 0,
    {
        IterMem { root: IterRoot::new(items) }
    }

    /// The next `n` entries; the cursor stays where it is.
    pub fn peek(&mut self, n: usize) -> (r: Vec<String>)
        requires
            old(self).wf(),
        ensures
            final(self).wf(),
            final(self).cycle() == old(self).cycle(),
            final(self).at() == old(self).at(),
            r@.len() == (if old(self).cycle().len() == 0 {
                0
            } else {
                n as int
            }),
            forall|k: int| 0 <= k < r@.len() ==> (#[trigger] r@[k])@ == old(self).ahead(k as nat),
    {
        self.root.get_range(0, n)
    }

    /// The entry at the cursor, moving the cursor past it.
    pub fn next(&mut self) -> (r: Option<String>)
        requires
            old(self).wf(),
        ensures
            final(self).wf(),
            final(self).cycle() == old(self).cycle(),
            match r {
                Some(s) => {
                    &&& old(self).cycle().len() > 0
                    &&& s@ == old(self).ahead(0)
                    &&& final(self).at() == wrap(old(self).at(), old(self).cycle().len())
                },
                None => old(self).cycle().len() == 0 && final(self).at() == old(self).at(),
            },
    {
        let r = self.root.get(0);
        if r.is_some() {
            self.root.advance();
        }
        r
    }
}

} // verus!
