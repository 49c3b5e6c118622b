//! Shared ownership of native handles. A handle may depend on another one
//! (a font's release needs the display alive): it then holds a reference to
//! it, and the table releases a handle once no owner and no live dependent
//! holds it, dependents always before what they depend on.
use vstd::prelude::*;

verus! {

/// One native handle in the table.
#[derive(Clone, Copy)]
pub struct Slot {
    /// The raw handle value.
    pub handle: u64,
    /// Number of owners that hold the handle directly.
    pub owners: u64,
    /// Number of live handles that depend on this one.
    pub dependents: u64,
    /// The handle this one depends on, if any; always an earlier slot.
    pub dependency: Option<usize>,
    /// Whether the release of this handle has been issued.
    pub released: bool,
}

/// Why an operation on the table was refused; the table is then unchanged.
#[derive(Clone, Copy, PartialEq, Eq, Structural, Debug)]
pub enum HandleError {
    /// The slot index does not exist.
    Unknown,
    /// The handle was already released.
    Released,
    /// The handle has no direct owner left to drop.
    NoOwner,
    /// A counter would exceed its range.
    Overflow,
}

/// Whether slot `s` is a live dependent of slot `d`.
pub open spec fn holds_ref(s: Slot, d: int) -> bool {
    !s.released && s.dependency == Some(d as usize)
}

/// Number of live dependents of slot `d` among the first `n` slots.
pub open spec fn dependents_in(s: Seq<Slot>, d: int, n: int) -> nat
    decreases n,
{
    if n <= 0 {
        0
    } else {
        dependents_in(s, d, n - 1) + if holds_ref(s[n - 1], d) { 1nat } else { 0nat }
    }
}

/// The slot with one dependent fewer.
pub open spec fn minus_dependent(x: Slot) -> Slot {
    Slot { dependents: (x.dependents - 1) as u64, ..x }
}

/// The slot with one owner fewer.
pub open spec fn minus_owner(x: Slot) -> Slot {
    Slot { owners: (x.owners - 1) as u64, ..x }
}

/// The slot once released.
pub open spec fn released_slot(x: Slot) -> Slot {
    Slot { released: true, ..x }
}

/// Neither an owner nor a live dependent holds the slot.
pub open spec fn unheld(x: Slot) -> bool {
    x.owners == 0 && x.dependents == 0
}

/// What follows when slot `d` loses one dependent: the new slots and the slots
/// released, in order.
pub open spec fn cascade(s: Seq<Slot>, d: int) -> (Seq<Slot>, Seq<usize>)
    decreases d,
{
    if d < 0 || d >= s.len() {
        (s, seq![])
    } else {
        let s1 = s.update(d, minus_dependent(s[d]));
        if unheld(s1[d]) {
            let s2 = s1.update(d, released_slot(s1[d]));
            match s[d].dependency {
                Some(e) => if (e as int) < d {
                    let (t, r) = cascade(s2, e as int);
                    (t, seq![d as usize].add(r))
                } else {
                    (s2, seq![d as usize])
                },
                None => (s2, seq![d as usize]),
            }
        } else {
            (s1, seq![])
        }
    }
}

/// What follows when one owner of slot `i` lets go: the new slots and the
/// slots released, in order.
pub open spec fn drop_owner(s: Seq<Slot>, i: int) -> (Seq<Slot>, Seq<usize>) {
    let s1 = s.update(i, minus_owner(s[i]));
    if unheld(s1[i]) {
        let s2 = s1.update(i, released_slot(s1[i]));
        match s[i].dependency {
            Some(e) => if (e as int) < i {
                let (t, r) = cascade(s2, e as int);
                (t, seq![i as usize].add(r))
            } else {
                (s2, seq![i as usize])
            },
            None => (s2, seq![i as usize]),
        }
    } else {
        (s1, seq![])
    }
}

/// Well-formedness of a slot sequence and a release log.
pub open spec fn slots_wf(s: Seq<Slot>, log: Seq<usize>) -> bool {
    &&& s.len() <= usize::MAX
    &&& forall|i: int| 0 <= i < s.len() ==> match #[trigger] s[i].dependency {
        Some(d) => (d as int) < i,
        None => true,
    }
    &&& forall|i: int| 0 <= i < s.len() ==> (#[trigger] s[i].released <==> unheld(s[i]))
    &&& forall|i: int| 0 <= i < s.len() ==> (#[trigger] s[i].dependents) as int
        == dependents_in(s, i, s.len() as int)
    &&& forall|k: int| 0 <= k < log.len() ==> (#[trigger] log[k] as int) < s.len()
    &&& forall|k: int, m: int| 0 <= k < m < log.len() ==> log[k] != log[m]
    &&& forall|i: int| 0 <= i < s.len() ==> (#[trigger] s[i].released <==> log.contains(i as usize))
}

/// Number of times slot `i` appears in the release log.
pub open spec fn times_released(log: Seq<usize>, i: int) -> nat
    decreases log.len(),
{
    if log.len() == 0 {
        0
    } else {
        times_released(log.drop_last(), i) + if log.last() as int == i { 1nat } else { 0nat }
    }
}

proof fn lemma_dependents_ext(s: Seq<Slot>, t: Seq<Slot>, d: int, n: int)
    requires
        0 <= n <= s.len(),
        n <= t.len(),
        forall|k: int| 0 <= k < n ==> s[k] == t[k],
    ensures
        dependents_in(s, d, n) == dependents_in(t, d, n),
    decreases n,
{
    if n > 0 {
        lemma_dependents_ext(s, t, d, n - 1);
    }
}

/// Updating one slot changes each count only by what that slot contributes.
proof fn lemma_dependents_update(s: Seq<Slot>, j: int, x: Slot, d: int, n: int)
    requires
        0 <= j < s.len(),
        0 <= n <= s.len(),
    ensures
        dependents_in(s.update(j, x), d, n) + (if j < n && holds_ref(s[j], d) { 1int } else { 0int })
            == dependents_in(s, d, n) + (if j < n && holds_ref(x, d) { 1int } else { 0int }),
    decreases n,
{
    if n > 0 {
        lemma_dependents_update(s, j, x, d, n - 1);
    }
}

proof fn lemma_dependents_positive(s: Seq<Slot>, j: int, d: int, n: int)
    requires
        0 <= j < n <= s.len(),
        holds_ref(s[j], d),
    ensures
        dependents_in(s, d, n) >= 1,
    decreases n,
{
    if j < n - 1 {
        lemma_dependents_positive(s, j, d, n - 1);
    }
}

/// A slot sequence that is well formed but for slot `d`, which still counts
/// one dependent that has just been released.
pub open spec fn pending_wf(s: Seq<Slot>, log: Seq<usize>, d: int) -> bool {
    &&& 0 <= d < s.len() <= usize::MAX
    &&& forall|i: int| 0 <= i < s.len() ==> match #[trigger] s[i].dependency {
        Some(e) => (e as int) < i,
        None => true,
    }
    &&& forall|i: int| 0 <= i < s.len() ==> (#[trigger] s[i].released <==> unheld(s[i]))
    &&& !s[d].released
    &&& forall|i: int| 0 <= i < s.len() && i != d ==> (#[trigger] s[i].dependents) as int
        == dependents_in(s, i, s.len() as int)
    &&& s[d].dependents as int == dependents_in(s, d, s.len() as int) + 1
    &&& forall|k: int| 0 <= k < log.len() ==> (#[trigger] log[k] as int) < s.len()
    &&& forall|k: int, m: int| 0 <= k < m < log.len() ==> log[k] != log[m]
    &&& forall|i: int| 0 <= i < s.len() ==> (#[trigger] s[i].released <==> log.contains(i as usize))
}

proof fn lemma_replace(s: Seq<Slot>, log: Seq<usize>, d: int, y: Slot)
    requires
        0 <= d < s.len() <= usize::MAX,
        forall|i: int| 0 <= i < s.len() ==> match #[trigger] s[i].dependency {
            Some(e) => (e as int) < i,
            None => true,
        },
        forall|i: int| 0 <= i < s.len() ==> (#[trigger] s[i].released <==> unheld(s[i])),
        !s[d].released,
        forall|i: int| 0 <= i < s.len() && i != d ==> (#[trigger] s[i].dependents) as int
            == dependents_in(s, i, s.len() as int),
        forall|k: int| 0 <= k < log.len() ==> (#[trigger] log[k] as int) < s.len(),
        forall|k: int, m: int| 0 <= k < m < log.len() ==> log[k] != log[m],
        forall|i: int| 0 <= i < s.len() ==> (#[trigger] s[i].released <==> log.contains(i as usize)),
        y.dependency == s[d].dependency,
        y.released <==> unheld(y),
        y.dependents as int == dependents_in(s, d, s.len() as int),
    ensures
        !y.released ==> slots_wf(s.update(d, y), log),
        y.released ==> match y.dependency {
            Some(e) => pending_wf(s.update(d, y), log.push(d as usize), e as int),
            None => slots_wf(s.update(d, y), log.push(d as usize)),
        },
{
    let n = s.len() as int;
    let t = s.update(d, y);
    assert(s[d].dependency == y.dependency);
    assert forall|i: int| 0 <= i < n && i != d implies t[i] == s[i] by {}
    assert(!holds_ref(s[d], d));
    assert(!holds_ref(y, d));
    assert forall|i: int| 0 <= i < n implies dependents_in(t, i, n) + (if holds_ref(s[d], i) { 1int } else { 0int })
        == dependents_in(s, i, n) + (if holds_ref(y, i) { 1int } else { 0int }) by {
        lemma_dependents_update(s, d, y, i, n);
    }
    if !y.released {
        assert forall|i: int| 0 <= i < n implies (#[trigger] t[i].dependents) as int == dependents_in(t, i, n) by {
            if i != d {
                assert(t[i] == s[i]);
                assert(holds_ref(s[d], i) == holds_ref(y, i));
            }
        }
        assert(slots_wf(t, log));
    } else {
        let l2 = log.push(d as usize);
        assert(!log.contains(d as usize));
        assert forall|k: int, m: int| 0 <= k < m < l2.len() implies l2[k] != l2[m] by {
            if m == log.len() {
                assert(log[k] == l2[k]);
            }
        }
        assert forall|i: int| 0 <= i < n implies (#[trigger] t[i].released <==> l2.contains(i as usize)) by {
            if l2.contains(i as usize) {
                let k = choose|k: int| 0 <= k < l2.len() && l2[k] == i as usize;
                if k < log.len() {
                    assert(log[k] == l2[k]);
                }
            }
            if i != d && log.contains(i as usize) {
                let k = choose|k: int| 0 <= k < log.len() && log[k] == i as usize;
                assert(l2[k] == log[k]);
            }
            assert(l2[log.len() as int] == d as usize);
        }
        assert forall|k: int| 0 <= k < l2.len() implies (#[trigger] l2[k] as int) < n by {
            if k < log.len() {
                assert(l2[k] == log[k]);
            }
        }
        match y.dependency {
            Some(e) => {
                let e = e as int;
                assert(holds_ref(s[d], e));
                lemma_dependents_positive(s, d, e, n);
                assert(!holds_ref(y, e));
                assert(t[e] == s[e]);
                assert(s[e].dependents >= 1);
                assert forall|i: int| 0 <= i < n && i != e implies (#[trigger] t[i].dependents) as int
                    == dependents_in(t, i, n) by {
                    assert(!holds_ref(s[d], i));
                    assert(!holds_ref(y, i));
                    if i != d {
                        assert(t[i] == s[i]);
                    }
                }
                assert(pending_wf(t, l2, e));
            },
            None => {
                assert forall|i: int| 0 <= i < n implies (#[trigger] t[i].dependents) as int
                    == dependents_in(t, i, n) by {
                    assert(!holds_ref(s[d], i));
                    assert(!holds_ref(y, i));
                    if i != d {
                        assert(t[i] == s[i]);
                    }
                }
                assert(slots_wf(t, l2));
            },
        }
    }
}

proof fn lemma_dependents_zero(s: Seq<Slot>, d: int, n: int)
    requires
        0 <= n <= s.len(),
        forall|k: int| 0 <= k < n ==> !holds_ref(#[trigger] s[k], d),
    ensures
        dependents_in(s, d, n) == 0,
    decreases n,
{
    if n > 0 {
        lemma_dependents_zero(s, d, n - 1);
    }
}

/// Counting over a sequence with one more slot at its end.
proof fn lemma_dependents_push(s: Seq<Slot>, x: Slot, d: int)
    ensures
        dependents_in(s.push(x), d, s.len() as int + 1) == dependents_in(s, d, s.len() as int) + if holds_ref(
            x,
            d,
        ) {
            1nat
        } else {
            0nat
        },
{
    let t = s.push(x);
    assert(t[s.len() as int] == x);
    lemma_dependents_ext(s, t, d, s.len() as int);
}

/// Adding a slot that depends on `dep` (or on nothing) keeps the table well formed.
proof fn lemma_push_wf(s: Seq<Slot>, log: Seq<usize>, x: Slot)
    requires
        forall|i: int| 0 <= i < s.len() ==> match #[trigger] s[i].dependency {
            Some(e) => (e as int) < i,
            None => true,
        },
        forall|i: int| 0 <= i < s.len() ==> (#[trigger] s[i].released <==> unheld(s[i])),
        forall|k: int| 0 <= k < log.len() ==> (#[trigger] log[k] as int) < s.len(),
        forall|k: int, m: int| 0 <= k < m < log.len() ==> log[k] != log[m],
        forall|i: int| 0 <= i < s.len() ==> (#[trigger] s[i].released <==> log.contains(i as usize)),
        s.len() < usize::MAX,
        !x.released,
        x.owners == 1,
        x.dependents == 0,
        match x.dependency {
            Some(e) => (e as int) < s.len() && !s[e as int].released && s[e as int].dependents as int
                == dependents_in(s, e as int, s.len() as int) + 1,
            None => true,
        },
        forall|i: int| 0 <= i < s.len() && x.dependency != Some(i as usize) ==> (#[trigger] s[i].dependents) as int
            == dependents_in(s, i, s.len() as int),
    ensures
        slots_wf(s.push(x), log),
{
    let t = s.push(x);
    let n = s.len() as int;
    assert forall|i: int| 0 <= i < n + 1 implies (#[trigger] t[i].dependents) as int == dependents_in(t, i, n + 1) by {
        lemma_dependents_push(s, x, i);
        if i == n {
            assert forall|k: int| 0 <= k < n implies !holds_ref(#[trigger] s[k], n) by {
                let _ = s[k].dependency;
            }
            lemma_dependents_zero(s, n, n);
        } else {
            assert(t[i] == s[i]);
        }
    }
    assert forall|i: int| 0 <= i < n + 1 implies (#[trigger] t[i].released <==> log.contains(i as usize)) by {
        if i < n {
            assert(t[i] == s[i]);
        } else {
            if log.contains(i as usize) {
                let k = choose|k: int| 0 <= k < log.len() && log[k] == i as usize;
                assert((log[k] as int) < n);
            }
        }
    }
    assert forall|i: int| 0 <= i < n + 1 implies match #[trigger] t[i].dependency {
        Some(e) => (e as int) < i,
        None => true,
    } by {
        if i < n {
            assert(t[i] == s[i]);
        }
    }
    assert forall|i: int| 0 <= i < n + 1 implies (#[trigger] t[i].released <==> unheld(t[i])) by {
        if i < n {
            assert(t[i] == s[i]);
        }
    }
}

/// The handles in use, by slot index, and the order in which their releases
/// were issued.
pub struct HandleTable {
    slots: Vec<Slot>,
    log: Vec<usize>,
}

impl HandleTable {
    pub closed spec fn slots_view(&self) -> Seq<Slot> {
        self.slots@
    }

    /// The slots released so far, in the order of release.
    pub closed spec fn log_view(&self) -> Seq<usize> {
        self.log@
    }

    /// Counters agree with the dependencies, a slot is released exactly when
    /// nothing holds it, and the log lists each released slot once.
    pub open spec fn wf(&self) -> bool {
        slots_wf(self.slots_view(), self.log_view())
    }

    pub fn new() -> (r: Self)
        ensures
            r.wf(),
            r.slots_view() == Seq::<Slot>::empty(),
            r.log_view() == Seq::<usize>::empty(),
    {
        HandleTable { slots: Vec::new(), log: Vec::new() }
    }

    /// Number of slots ever acquired.
    pub fn len(&self) -> (r: usize)
        ensures
            r == self.slots_view().len(),
    {
        self.slots.len()
    }

    pub fn slot(&self, i: usize) -> (r: Slot)
        requires
            i < self.slots_view().len(),
        ensures
            r == self.slots_view()[i as int],
    {
        self.slots[i]
    }

    /// The slots released so far, in the order of release.
    pub fn released_log(&self) -> (r: Vec<usize>)
        ensures
            r@ == self.log_view(),
    {
        self.log.clone()
    }

    /// Takes ownership of a handle that depends on no other one.
    pub fn acquire(&mut self, handle: u64) -> (r: usize)
        requires
            old(self).wf(),
            old(self).slots_view().len() < usize::MAX,
        ensures
            final(self).wf(),
            r == old(self).slots_view().len(),
            final(self).slots_view() == old(self).slots_view().push(
                Slot { handle, owners: 1, dependents: 0, dependency: None, released: false },
            ),
            final(self).log_view() == old(self).log_view(),
    {
        let x = Slot { handle, owners: 1, dependents: 0, dependency: None, released: false };
        proof {
            lemma_push_wf(self.slots@, self.log@, x);
        }
        let r = self.slots.len();
        self.slots.push(x);
        r
    }

    /// Takes ownership of a handle whose release needs slot `dep` alive; the
    /// new handle holds a reference to `dep` until it is itself released.
    pub fn acquire_dependent(&mut self, handle: u64, dep: usize) -> (r: Result<usize, HandleError>)
        requires
            old(self).wf(),
            old(self).slots_view().len() < usize::MAX,
        ensures
            final(self).wf(),
            final(self).log_view() == old(self).log_view(),
            dep >= old(self).slots_view().len() ==> r == Err::<usize, HandleError>(HandleError::Unknown),
            dep < old(self).slots_view().len() && old(self).slots_view()[dep as int].released
                ==> r == Err::<usize, HandleError>(HandleError::Released),
            dep < old(self).slots_view().len() && !old(self).slots_view()[dep as int].released
                && old(self).slots_view()[dep as int].dependents == u64::MAX
                ==> r == Err::<usize, HandleError>(HandleError::Overflow),
            r is Ok <==> dep < old(self).slots_view().len() && !old(self).slots_view()[dep as int].released
                && old(self).slots_view()[dep as int].dependents < u64::MAX,
            r is Err ==> final(self).slots_view() == old(self).slots_view(),
            r is Ok ==> r == Ok::<usize, HandleError>(old(self).slots_view().len() as usize)
                && final(self).slots_view() == old(self).slots_view().update(
                dep as int,
                Slot { dependents: (old(self).slots_view()[dep as int].dependents + 1) as u64, ..old(self).slots_view()[dep as int] },
            ).push(Slot { handle, owners: 1, dependents: 0, dependency: Some(dep), released: false }),
    {
        if dep >= self.slots.len() {
            return Err(HandleError::Unknown);
        }
        let mut d = self.slots[dep];
        if d.released {
            return Err(HandleError::Released);
        }
        if d.dependents == u64::MAX {
            return Err(HandleError::Overflow);
        }
        d.dependents = d.dependents + 1;
        let x = Slot { handle, owners: 1, dependents: 0, dependency: Some(dep), released: false };
        proof {
            let s = self.slots@;
            let n = s.len() as int;
            let u = s.update(dep as int, d);
            assert forall|i: int| 0 <= i < n implies dependents_in(u, i, n) == dependents_in(s, i, n) by {
                lemma_dependents_update(s, dep as int, d, i, n);
            }
            assert forall|i: int| 0 <= i < n && i != dep implies u[i] == s[i] by {}
            assert(slots_wf(s, self.log@));
            assert forall|i: int| 0 <= i < n implies (#[trigger] u[i].released <==> self.log@.contains(i as usize)) by {
                if i != dep {
                    assert(u[i] == s[i]);
                }
            }
            assert forall|i: int| 0 <= i < n implies (#[trigger] u[i].released <==> unheld(u[i])) by {
                if i != dep {
                    assert(u[i] == s[i]);
                }
            }
            assert forall|i: int| 0 <= i < n implies match #[trigger] u[i].dependency {
                Some(e) => (e as int) < i,
                None => true,
            } by {
                if i != dep {
                    assert(u[i] == s[i]);
                } else {
                    let _ = s[i].dependency;
                }
            }
            assert forall|i: int| 0 <= i < n && x.dependency != Some(i as usize) implies (#[trigger] u[i].dependents) as int
                == dependents_in(u, i, n) by {
                assert(u[i] == s[i]);
            }
            lemma_push_wf(u, self.log@, x);
        }
        self.slots.set(dep, d);
        let r = self.slots.len();
        self.slots.push(x);
        Ok(r)
    }

    /// Adds one direct owner to a live handle (a clone of a shared reference).
    pub fn share(&mut self, i: usize) -> (r: Result<(), HandleError>)
        requires
            old(self).wf(),
        ensures
            final(self).wf(),
            final(self).log_view() == old(self).log_view(),
            i >= old(self).slots_view().len() ==> r == Err::<(), HandleError>(HandleError::Unknown),
            i < old(self).slots_view().len() && old(self).slots_view()[i as int].released
                ==> r == Err::<(), HandleError>(HandleError::Released),
            i < old(self).slots_view().len() && !old(self).slots_view()[i as int].released
                && old(self).slots_view()[i as int].owners == u64::MAX
                ==> r == Err::<(), HandleError>(HandleError::Overflow),
            r is Ok <==> i < old(self).slots_view().len() && !old(self).slots_view()[i as int].released
                && old(self).slots_view()[i as int].owners < u64::MAX,
            r is Err ==> final(self).slots_view() == old(self).slots_view(),
            r is Ok ==> final(self).slots_view() == old(self).slots_view().update(
                i as int,
                Slot { owners: (old(self).slots_view()[i as int].owners + 1) as u64, ..old(self).slots_view()[i as int] },
            ),
    {
        if i >= self.slots.len() {
            return Err(HandleError::Unknown);
        }
        let mut x = self.slots[i];
        if x.released {
            return Err(HandleError::Released);
        }
        if x.owners == u64::MAX {
            return Err(HandleError::Overflow);
        }
        x.owners = x.owners + 1;
        proof {
            let s = self.slots@;
            let n = s.len() as int;
            assert forall|j: int| 0 <= j < n implies dependents_in(s.update(i as int, x), j, n) == dependents_in(s, j, n) by {
                lemma_dependents_update(s, i as int, x, j, n);
            }
            assert forall|j: int| 0 <= j < n && j != i implies s.update(i as int, x)[j] == s[j] by {}
            let _ = s[i as int].dependency;
        }
        self.slots.set(i, x);
        Ok(())
    }
    /// Lets one direct owner of slot `i` go. Returns the slots whose release
    /// must run now, in that order: `i` if nothing holds it any more, then each
    /// handle down its chain of dependencies that is left without holders.
    pub fn let_go(&mut self, i: usize) -> (r: Result<Vec<usize>, HandleError>)
        requires
            old(self).wf(),
        ensures
            final(self).wf(),
            i >= old(self).slots_view().len() ==> r == Err::<Vec<usize>, HandleError>(HandleError::Unknown),
            i < old(self).slots_view().len() && old(self).slots_view()[i as int].released
                ==> r == Err::<Vec<usize>, HandleError>(HandleError::Released),
            i < old(self).slots_view().len() && !old(self).slots_view()[i as int].released
                && old(self).slots_view()[i as int].owners == 0
                ==> r == Err::<Vec<usize>, HandleError>(HandleError::NoOwner),
            r is Ok <==> i < old(self).slots_view().len() && !old(self).slots_view()[i as int].released
                && old(self).slots_view()[i as int].owners > 0,
            r is Err ==> final(self).slots_view() == old(self).slots_view() && final(self).log_view()
                == old(self).log_view(),
            r is Ok ==> (final(self).slots_view(), r->Ok_0@) == drop_owner(old(self).slots_view(), i as int)
                && final(self).log_view() == old(self).log_view() + r->Ok_0@,
    {
        if i >= self.slots.len() {
            return Err(HandleError::Unknown);
        }
        let mut x = self.slots[i];
        if x.released {
            return Err(HandleError::Released);
        }
        if x.owners == 0 {
            return Err(HandleError::NoOwner);
        }
        let ghost s0 = self.slots@;
        let ghost log0 = self.log@;
        let ghost goal = drop_owner(s0, i as int);
        x.owners = x.owners - 1;
        let ghost m = x;
        let mut out: Vec<usize> = Vec::new();
        let mut cur: Option<usize> = None;
        if x.owners == 0 && x.dependents == 0 {
            x.released = true;
            proof {
                lemma_replace(s0, log0, i as int, x);
                assert(s0.update(i as int, m).update(i as int, x) =~= s0.update(i as int, x));
                let _ = s0[i as int].dependency;
            }
            self.slots.set(i, x);
            self.log.push(i);
            out.push(i);
            cur = x.dependency;
            proof {
                assert(out@ =~= seq![i]);
                assert(self.log@ =~= log0 + out@);
                match cur {
                    Some(e) => {
                        assert(out@ + cascade(self.slots@, e as int).1 =~= seq![i].add(cascade(self.slots@, e as int).1));
                    },
                    None => {},
                }
            }
        } else {
            proof {
                lemma_replace(s0, log0, i as int, x);
                assert(self.log@ =~= log0 + out@);
                assert(out@ =~= Seq::<usize>::empty());
            }
            self.slots.set(i, x);
        }
        while cur.is_some()
            invariant
                self.log@ == log0 + out@,
                match cur {
                    Some(c) => pending_wf(self.slots@, self.log@, c as int) && goal == (
                        cascade(self.slots@, c as int).0,
                        out@ + cascade(self.slots@, c as int).1,
                    ),
                    None => slots_wf(self.slots@, self.log@) && goal == (self.slots@, out@),
                },
            decreases
                match cur {
                    Some(c) => c as int + 1,
                    None => 0,
                },
        {
            let c = match cur {
                Some(c) => c,
                None => 0,
            };
            let ghost s = self.slots@;
            let ghost l = self.log@;
            let mut y = self.slots[c];
            y.dependents = y.dependents - 1;
            let ghost m = y;
            if y.owners == 0 && y.dependents == 0 {
                y.released = true;
                proof {
                    lemma_replace(s, l, c as int, y);
                    assert(s.update(c as int, m).update(c as int, y) =~= s.update(c as int, y));
                    let _ = s[c as int].dependency;
                }
                self.slots.set(c, y);
                self.log.push(c);
                let ghost out0 = out@;
                out.push(c);
                cur = y.dependency;
                proof {
                    assert(self.log@ =~= log0 + out@);
                    match cur {
                        Some(e) => {
                            assert(out@ + cascade(self.slots@, e as int).1 =~= out0 + seq![c].add(
                                cascade(self.slots@, e as int).1,
                            ));
                        },
                        None => {
                            assert(out@ =~= out0 + seq![c]);
                        },
                    }
                }
            } else {
                proof {
                    lemma_replace(s, l, c as int, y);
                    assert(out@ + Seq::<usize>::empty() =~= out@);
                }
                self.slots.set(c, y);
                cur = None;
            }
        }
        Ok(out)
    }
}

proof fn lemma_times_released(log: Seq<usize>, i: int)
    requires
        forall|k: int, m: int| 0 <= k < m < log.len() ==> log[k] != log[m],
        0 <= i <= usize::MAX,
    ensures
        times_released(log, i) == if log.contains(i as usize) { 1nat } else { 0nat },
    decreases log.len(),
{
    if log.len() > 0 {
        let p = log.drop_last();
        assert forall|k: int, m: int| 0 <= k < m < p.len() implies p[k] != p[m] by {
            assert(p[k] == log[k] && p[m] == log[m]);
        }
        lemma_times_released(p, i);
        if p.contains(i as usize) {
            let k = choose|k: int| 0 <= k < p.len() && p[k] == i as usize;
            assert(log[k] == p[k]);
        }
        if log.contains(i as usize) {
            let k = choose|k: int| 0 <= k < log.len() && log[k] == i as usize;
            if k < p.len() {
                assert(p[k] == log[k]);
            }
        }
    }
}

/// Release exactly once: in every well-formed table (every operation keeps it
/// so) a handle has been released exactly once if nothing holds it any more,
/// never while an owner or a dependent holds it, and never twice.
pub proof fn lemma_release_exactly_once(s: Seq<Slot>, log: Seq<usize>)
    requires
        slots_wf(s, log),
    ensures
        forall|i: int| 0 <= i < s.len() ==> #[trigger] times_released(log, i) == if unheld(s[i]) {
            1nat
        } else {
            0nat
        },
        forall|i: int| 0 <= i < s.len() ==> #[trigger] times_released(log, i) <= 1,
{
    assert forall|i: int| 0 <= i < s.len() implies #[trigger] times_released(log, i) == if unheld(s[i]) {
        1nat
    } else {
        0nat
    } by {
        lemma_times_released(log, i);
        assert(s[i].released <==> log.contains(i as usize));
        assert(s[i].released <==> unheld(s[i]));
    }
}

/// Shared-owner ordering: let `b` depend on `a`, each held by one owner and `b`
/// the only dependent of `a`. Dropping `b`, then `a`, releases `b` first and
/// `a` at the second drop. Dropping `a` first releases nothing, keeps `a`
/// alive and `b` still owned, and the later drop of `b` releases `b`, then `a`.
pub proof fn lemma_shared_owner_ordering(s: Seq<Slot>, log: Seq<usize>, a: int, b: int)
    requires
        slots_wf(s, log),
        0 <= a < s.len(),
        0 <= b < s.len(),
        s[b].dependency == Some(a as usize),
        s[b].owners == 1,
        s[b].dependents == 0,
        s[a].owners == 1,
        s[a].dependents == 1,
    ensures
        drop_owner(s, b).1 == seq![b as usize],
        drop_owner(drop_owner(s, b).0, a).1.len() >= 1,
        drop_owner(drop_owner(s, b).0, a).1[0] == a as usize,
        drop_owner(s, a).1 == Seq::<usize>::empty(),
        !drop_owner(s, a).0[a].released,
        !drop_owner(s, a).0[b].released,
        drop_owner(s, a).0[b].owners == 1,
        drop_owner(drop_owner(s, a).0, b).1.len() >= 2,
        drop_owner(drop_owner(s, a).0, b).1[0] == b as usize,
        drop_owner(drop_owner(s, a).0, b).1[1] == a as usize,
{
    let _ = s[b].dependency;
    assert(a < b);
    let s1 = drop_owner(s, b).0;
    assert(s1[a].owners == 1 && s1[a].dependents == 0);
    let t = drop_owner(s, a).0;
    assert(t[a].owners == 0 && t[a].dependents == 1 && t[b] == s[b]);
    let t2 = t.update(b, minus_owner(t[b])).update(b, released_slot(minus_owner(t[b])));
    assert(t2[a] == t[a]);
    assert(cascade(t2, a).1[0] == a as usize);
}

} // verus!
