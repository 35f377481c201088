//! The health registry: the authoritative map from each configured target
//! address to its current liveness status, shared by the prober and by every
//! relay session.
//!
//! The registry is created once, from the comma-separated target list, and
//! its set of addresses never changes afterwards. A probe sweep replaces
//! every status in one step; selection draws uniformly at random from the
//! addresses currently alive, enumerated in their fixed registration order.

use vstd::prelude::*;

use rand::Rng;

use crate::parse::{dedup, find_comma, parsed_addrs, split_commas, trim_str, trimmed_all};
use crate::parse::{lemma_dedup_unique, lemma_split_at_first_comma, lemma_split_no_comma};

verus! {

/// The liveness state of one configured target. Every target starts
/// `Unknown`; a probe sweep moves it to `Alive` or `Dead` and no sweep ever
/// leaves it `Unknown` again.
#[derive(Clone, Copy, Debug, PartialEq, Eq, Structural)]
pub enum TargetStatus {
    Unknown,
    Alive,
    Dead,
}

/// One configured backend target: its address and its current status.
struct Target {
    address: String,
    status: TargetStatus,
}

/// The registry itself: one entry per configured address, in registration
/// order, each address held exactly once.
pub struct TargetMap {
    targets: Vec<Target>,
}

/// The registry entries a sequence of targets stands for.
spec fn targets_view(ts: Seq<Target>) -> Seq<(Seq<char>, TargetStatus)> {
    ts.map_values(|t: Target| (t.address@, t.status))
}

/// Each address of `addrs` paired with the initial `Unknown` status.
pub open spec fn with_unknown(addrs: Seq<Seq<char>>) -> Seq<(Seq<char>, TargetStatus)> {
    addrs.map_values(|a: Seq<char>| (a, TargetStatus::Unknown))
}

/// The entries of `ts` whose status is `Alive`, in order.
pub open spec fn alive_pairs(ts: Seq<(Seq<char>, TargetStatus)>) -> Seq<
    (Seq<char>, TargetStatus),
> {
    ts.filter(|p: (Seq<char>, TargetStatus)| p.1 == TargetStatus::Alive)
}

/// The addresses of `ts` whose status is `Alive`, in order.
pub open spec fn alive_of(ts: Seq<(Seq<char>, TargetStatus)>) -> Seq<Seq<char>> {
    alive_pairs(ts).map_values(|p: (Seq<char>, TargetStatus)| p.0)
}

/// The views of a sequence of strings.
pub open spec fn string_views(v: Seq<String>) -> Seq<Seq<char>> {
    v.map_values(|s: String| s@)
}

impl View for TargetMap {
    type V = Seq<(Seq<char>, TargetStatus)>;

    closed spec fn view(&self) -> Seq<(Seq<char>, TargetStatus)> {
        targets_view(self.targets@)
    }
}

impl TargetMap {
    /// The configured addresses, in registration order.
    pub open spec fn addrs(self) -> Seq<Seq<char>> {
        self@.map_values(|p: (Seq<char>, TargetStatus)| p.0)
    }

    /// Whether `a` is a configured address.
    pub open spec fn contains_addr(self, a: Seq<char>) -> bool {
        self.addrs().contains(a)
    }

    /// The current status of the configured address `a`.
    pub open spec fn status_of(self, a: Seq<char>) -> TargetStatus
        recommends
            self.contains_addr(a),
    {
        self@[self.addrs().index_of(a)].1
    }

    /// The currently alive addresses, in registration order.
    pub open spec fn alive_addrs(self) -> Seq<Seq<char>> {
        alive_of(self@)
    }

    /// The registry invariant: no address is registered twice — there is
    /// exactly one status per configured address. Every registry value
    /// satisfies it; it is stated here and enforced as a type invariant.
    #[verifier::type_invariant]
    pub open spec fn wf(self) -> bool {
        forall|i: int, j: int|
            0 <= i < self@.len() && 0 <= j < self@.len() && i != j ==> self@[i].0 != self@[j].0
    }

    /// Builds the registry from the comma-separated target list: each piece
    /// is trimmed of surrounding whitespace, registered once, and starts in
    /// the `Unknown` status.
    pub fn from(src: String) -> (m: TargetMap)
        ensures
            m@ == with_unknown(parsed_addrs(src@)),
    {
        let s = src.as_str();
        let n = s.unicode_len();
        let mut targets: Vec<Target> = Vec::new();
        let mut start: usize = 0;
        let mut fin: bool = false;
        let ghost mut done: Seq<Seq<char>> = Seq::empty();
        proof {
            assert(src@.skip(0) =~= src@);
            assert(done + split_commas(src@) =~= split_commas(src@));
        }
        while !fin
            invariant
                n == src@.len(),
                s@ == src@,
                start <= n,
                !fin ==> split_commas(src@) == done + split_commas(src@.skip(start as int)),
                fin ==> done == split_commas(src@),
                targets_view(targets@) == with_unknown(dedup(trimmed_all(done))),
            decreases n - start + (if fin { 0int } else { 1int }),
        {
            let i = find_comma(s, start);
            let piece = s.substring_char(start, i);
            let entry = trim_str(piece);
            let ghost tail = src@.skip(start as int);
            proof {
                assert(forall|k: int|
                    0 <= k < tail.len() ==> tail[k] == src@[k + start as int]);
                if i == n {
                    lemma_split_no_comma(tail);
                    assert(tail.take(i - start as int) =~= tail);
                } else {
                    lemma_split_at_first_comma(tail, i - start as int);
                    assert(tail.skip(i - start as int + 1) =~= src@.skip(i + 1));
                }
                assert(piece@ == tail.take(i - start as int));
            }
            let ghost prev = done;
            proof {
                done = done.push(piece@);
                assert(trimmed_all(done) =~= trimmed_all(prev).push(entry@));
                assert(trimmed_all(done).drop_last() =~= trimmed_all(prev));
            }
            let present = contains_address(&targets, &entry);
            proof {
                let d = dedup(trimmed_all(prev));
                assert(targets_view(targets@) == with_unknown(d));
                assert(targets_view(targets@).len() == targets@.len());
                assert(with_unknown(d).len() == d.len());
                assert(d.len() == targets@.len());
                if present {
                    let j = choose|j: int|
                        0 <= j < targets@.len() && targets@[j].address@ == entry@;
                    assert(targets_view(targets@)[j] == (targets@[j].address@, targets@[j].status));
                    assert(with_unknown(d)[j] == (d[j], TargetStatus::Unknown));
                    assert(d[j] == entry@);
                    assert(d.contains(entry@));
                } else {
                    if d.contains(entry@) {
                        let k = choose|k: int| 0 <= k < d.len() && d[k] == entry@;
                        assert(with_unknown(d)[k] == (d[k], TargetStatus::Unknown));
                        assert(targets_view(targets@)[k] == (targets@[k].address@, targets@[k].status));
                        assert(targets@[k].address@ == entry@);
                    }
                }
                assert(present == d.contains(entry@));
            }
            if !present {
                let ghost old_targets = targets@;
                targets.push(Target { address: entry, status: TargetStatus::Unknown });
                proof {
                    assert(targets_view(targets@) =~= targets_view(old_targets).push(
                        (entry@, TargetStatus::Unknown),
                    ));
                    assert(with_unknown(dedup(trimmed_all(done))) =~= targets_view(targets@));
                }
            } else {
                proof {
                    assert(with_unknown(dedup(trimmed_all(done))) =~= targets_view(targets@));
                }
            }
            if i == n {
                fin = true;
            } else {
                start = i + 1;
            }
        }
        proof {
            lemma_dedup_unique(trimmed_all(done));
            assert forall|i: int, j: int|
                0 <= i < targets_view(targets@).len() && 0 <= j < targets_view(targets@).len()
                    && i != j implies targets_view(targets@)[i].0 != targets_view(
                targets@,
            )[j].0 by {
                let d = dedup(trimmed_all(done));
                assert(targets_view(targets@)[i].0 == d[i]);
                assert(targets_view(targets@)[j].0 == d[j]);
            }
        }
        let m = TargetMap { targets };
        proof {
            assert(m@ =~= with_unknown(parsed_addrs(src@)));
        }
        m
    }
}

/// The addresses among `addrs` whose probe outcome is a failure, in order.
pub open spec fn failed_of(addrs: Seq<Seq<char>>, outcomes: Seq<bool>) -> Seq<Seq<char>>
    recommends
        addrs.len() == outcomes.len(),
    decreases outcomes.len(),
{
    if outcomes.len() == 0 {
        Seq::empty()
    } else {
        failed_of(addrs.drop_last(), outcomes.drop_last()) + (if !outcomes.last() {
            seq![addrs.last()]
        } else {
            Seq::empty()
        })
    }
}

/// No address fails exactly when every probe outcome is a success.
proof fn lemma_failed_of_empty(addrs: Seq<Seq<char>>, outcomes: Seq<bool>)
    requires
        addrs.len() == outcomes.len(),
    ensures
        (failed_of(addrs, outcomes).len() == 0) <==> (forall|k: int|
            0 <= k < outcomes.len() ==> outcomes[k]),
    decreases outcomes.len(),
{
    if outcomes.len() > 0 {
        lemma_failed_of_empty(addrs.drop_last(), outcomes.drop_last());
        assert(forall|k: int|
            0 <= k < outcomes.len() - 1 ==> outcomes.drop_last()[k] == outcomes[k]);
    }
}

/// Every alive pair comes from an entry of `ts` whose status is `Alive`.
proof fn lemma_alive_pairs_sub(ts: Seq<(Seq<char>, TargetStatus)>, j: int)
    requires
        0 <= j < alive_pairs(ts).len(),
    ensures
        exists|i: int|
            0 <= i < ts.len() && ts[i] == alive_pairs(ts)[j] && ts[i].1 == TargetStatus::Alive,
    decreases ts.len(),
{
    reveal(Seq::filter);
    if ts.len() > 0 {
        let dl = ts.drop_last();
        if ts.last().1 == TargetStatus::Alive && j == alive_pairs(ts).len() - 1 {
            assert(alive_pairs(ts)[j] == ts.last());
            assert(ts[ts.len() - 1] == alive_pairs(ts)[j]);
        } else {
            lemma_alive_pairs_sub(dl, j);
            let i = choose|i: int|
                0 <= i < dl.len() && dl[i] == alive_pairs(dl)[j] && dl[i].1
                    == TargetStatus::Alive;
            assert(ts[i] == dl[i]);
            assert(alive_pairs(ts)[j] == alive_pairs(dl)[j]);
        }
    }
}

impl TargetMap {
    /// Law: a selectable address is a configured address whose current
    /// status is `Alive` — never anything else.
    pub proof fn lemma_alive_is_live(self, a: Seq<char>)
        requires
            self.wf(),
            self.alive_addrs().contains(a),
        ensures
            self.contains_addr(a),
            self.status_of(a) == TargetStatus::Alive,
    {
        let av = self.alive_addrs();
        let j = choose|j: int| 0 <= j < av.len() && av[j] == a;
        assert(av[j] == alive_pairs(self@)[j].0);
        lemma_alive_pairs_sub(self@, j);
        let i = choose|i: int|
            0 <= i < self@.len() && self@[i] == alive_pairs(self@)[j] && self@[i].1
                == TargetStatus::Alive;
        assert(self.addrs()[i] == self@[i].0);
        assert(self.contains_addr(a));
        let k = self.addrs().index_of(a);
        assert(self.addrs()[k] == a);
        assert(self@[k].0 == a && self@[i].0 == a);
        assert(k == i);
    }

    /// Law: an address that is configured but not currently `Alive` is never
    /// in the alive set, so no selection made after a sweep that marked it
    /// dead can return it.
    pub proof fn lemma_dead_target_not_selectable(self, a: Seq<char>)
        requires
            self.wf(),
            self.contains_addr(a),
            self.status_of(a) != TargetStatus::Alive,
        ensures
            !self.alive_addrs().contains(a),
    {
        if self.alive_addrs().contains(a) {
            self.lemma_alive_is_live(a);
        }
    }

    /// Selects a live target uniformly at random: the alive addresses are
    /// enumerated in registration order and one index among them is drawn.
    /// Fails exactly when no target is alive.
    pub fn pick(&self) -> (r: Result<String, String>)
        ensures
            r is Ok <==> self.alive_addrs().len() > 0,
            r matches Ok(a) ==> self.alive_addrs().contains(a@) && self.contains_addr(a@)
                && self.status_of(a@) == TargetStatus::Alive,
            r matches Ok(a) ==> (self.alive_addrs().len() == 1 ==> a@ == self.alive_addrs()[0]),
            r matches Err(e) ==> e@ == "No live targets"@,
    {
        let mut alive: Vec<String> = Vec::new();
        let mut i: usize = 0;
        proof {
            reveal(Seq::filter);
            assert(self@.take(0) =~= Seq::<(Seq<char>, TargetStatus)>::empty());
            assert(string_views(alive@) =~= alive_of(self@.take(0)));
        }
        while i < self.targets.len()
            invariant
                i <= self.targets@.len(),
                string_views(alive@) == alive_of(self@.take(i as int)),
            decreases self.targets@.len() - i,
        {
            let ghost pre = self@.take(i as int);
            let ghost cur = self@.take(i as int + 1);
            let t = &self.targets[i];
            proof {
                reveal(Seq::filter);
                assert(cur.drop_last() =~= pre);
                assert(cur.last() == self@[i as int]);
                assert(self@[i as int] == (t.address@, t.status));
            }
            if t.status == TargetStatus::Alive {
                let ghost oldalive = alive@;
                alive.push(t.address.clone());
                proof {
                    reveal(Seq::filter);
                    assert(alive_pairs(cur) =~= alive_pairs(pre).push(self@[i as int]));
                    assert(alive_of(cur) =~= alive_of(pre).push(self@[i as int].0));
                    assert(string_views(alive@) =~= string_views(oldalive).push(t.address@));
                }
            } else {
                proof {
                    reveal(Seq::filter);
                    assert(alive_pairs(cur) =~= alive_pairs(pre));
                    assert(alive_of(cur) =~= alive_of(pre));
                }
            }
            i = i + 1;
        }
        proof {
            assert(self@.take(self.targets@.len() as int) =~= self@);
        }
        if alive.len() == 0 {
            return Err("No live targets".to_owned());
        }
        let n = random_index(alive.len());
        let a = alive[n].clone();
        proof {
            use_type_invariant(self);
            assert(a@ == string_views(alive@)[n as int]);
            assert(self.alive_addrs().contains(a@));
            self.lemma_alive_is_live(a@);
        }
        Ok(a)
    }

    /// One probe sweep's outcome applied to the registry: target `k` becomes
    /// `Alive` where `outcomes[k]` holds and `Dead` where it does not, every
    /// status replaced in one step. Returns the addresses marked `Dead`, in
    /// registration order, or success when every probe succeeded. After any
    /// sweep no target is left `Unknown`.
    pub fn apply_sweep(&mut self, outcomes: &Vec<bool>) -> (r: Result<(), Vec<String>>)
        requires
            outcomes@.len() == old(self)@.len(),
        ensures
            final(self)@.len() == old(self)@.len(),
            final(self).addrs() == old(self).addrs(),
            forall|k: int|
                0 <= k < old(self)@.len() ==> final(self)@[k].1 == (if outcomes@[k] {
                    TargetStatus::Alive
                } else {
                    TargetStatus::Dead
                }),
            forall|k: int|
                0 <= k < final(self)@.len() ==> final(self)@[k].1 != TargetStatus::Unknown,
            r is Ok <==> (forall|k: int| 0 <= k < outcomes@.len() ==> outcomes@[k]),
            r matches Err(f) ==> string_views(f@) == failed_of(old(self).addrs(), outcomes@),
    {
        proof {
            use_type_invariant(&*self);
        }
        let ghost a0 = self.addrs();
        let mut updated: Vec<Target> = Vec::new();
        let mut failed: Vec<String> = Vec::new();
        let mut i: usize = 0;
        proof {
            assert(a0.take(0) =~= Seq::<Seq<char>>::empty());
            assert(outcomes@.take(0) =~= Seq::<bool>::empty());
            assert(string_views(failed@) =~= failed_of(a0.take(0), outcomes@.take(0)));
        }
        while i < self.targets.len()
            invariant
                i <= self.targets@.len(),
                outcomes@.len() == self.targets@.len(),
                self@ == old(self)@,
                a0 == old(self).addrs(),
                a0.len() == self.targets@.len(),
                updated@.len() == i,
                forall|k: int|
                    0 <= k < i ==> (#[trigger] updated@[k]).address@ == a0[k] && updated@[k].status
                        == (if outcomes@[k] {
                        TargetStatus::Alive
                    } else {
                        TargetStatus::Dead
                    }),
                string_views(failed@) == failed_of(a0.take(i as int), outcomes@.take(i as int)),
            decreases self.targets@.len() - i,
        {
            let t = &self.targets[i];
            let ok = outcomes[i];
            let st = if ok {
                TargetStatus::Alive
            } else {
                TargetStatus::Dead
            };
            proof {
                assert(self@[i as int] == (t.address@, t.status));
                assert(a0[i as int] == self@[i as int].0);
            }
            let addr = t.address.clone();
            let ghost oldfailed = failed@;
            if !ok {
                failed.push(addr.clone());
            }
            proof {
                assert(a0.take(i as int + 1).drop_last() =~= a0.take(i as int));
                assert(outcomes@.take(i as int + 1).drop_last() =~= outcomes@.take(i as int));
                assert(a0.take(i as int + 1).last() == a0[i as int]);
                assert(outcomes@.take(i as int + 1).last() == outcomes@[i as int]);
                if !ok {
                    assert(string_views(failed@) =~= string_views(oldfailed).push(addr@));
                    assert(string_views(failed@) =~= failed_of(
                        a0.take(i as int + 1),
                        outcomes@.take(i as int + 1),
                    ));
                } else {
                    assert(string_views(failed@) =~= failed_of(
                        a0.take(i as int + 1),
                        outcomes@.take(i as int + 1),
                    ));
                }
            }
            updated.push(Target { address: addr, status: st });
            i = i + 1;
        }
        proof {
            assert(a0.take(self.targets@.len() as int) =~= a0);
            assert(outcomes@.take(self.targets@.len() as int) =~= outcomes@);
            assert forall|p: int, q: int|
                0 <= p < targets_view(updated@).len() && 0 <= q < targets_view(updated@).len()
                    && p != q implies targets_view(updated@)[p].0 != targets_view(
                updated@,
            )[q].0 by {
                assert(targets_view(updated@)[p].0 == updated@[p].address@);
                assert(targets_view(updated@)[q].0 == updated@[q].address@);
                assert(updated@[p].address@ == a0[p]);
                assert(updated@[q].address@ == a0[q]);
                assert(old(self).addrs()[p] == old(self)@[p].0);
                assert(old(self).addrs()[q] == old(self)@[q].0);
            }
        }
        self.targets = updated;
        proof {
            assert(final(self).addrs() =~= a0);
            assert forall|k: int| 0 <= k < self@.len() implies self@[k].1 == (if outcomes@[k] {
                TargetStatus::Alive
            } else {
                TargetStatus::Dead
            }) by {
                assert(self@[k] == (self.targets@[k].address@, self.targets@[k].status));
            }
            lemma_failed_of_empty(a0, outcomes@);
        }
        if failed.len() > 0 {
            proof {
                assert(string_views(failed@).len() == failed@.len());
            }
            Err(failed)
        } else {
            proof {
                assert(string_views(failed@).len() == 0);
            }
            Ok(())
        }
    }

    /// The number of configured targets.
    pub fn len(&self) -> (n: usize)
        ensures
            n == self@.len(),
    {
        proof {
            assert(self@.len() == self.targets@.len());
        }
        self.targets.len()
    }

    /// The configured addresses, in registration order, as fresh strings.
    pub fn addresses(&self) -> (v: Vec<String>)
        ensures
            string_views(v@) == self.addrs(),
    {
        let mut v: Vec<String> = Vec::new();
        let mut i: usize = 0;
        proof {
            assert(string_views(v@) =~= self.addrs().take(0));
        }
        while i < self.targets.len()
            invariant
                i <= self.targets@.len(),
                string_views(v@) == self.addrs().take(i as int),
            decreases self.targets@.len() - i,
        {
            let ghost oldv = v@;
            v.push(self.targets[i].address.clone());
            proof {
                assert(self@[i as int] == (self.targets@[i as int].address@,
                self.targets@[i as int].status));
                assert(self.addrs()[i as int] == self@[i as int].0);
                assert(string_views(v@) =~= string_views(oldv).push(
                    self.targets@[i as int].address@,
                ));
                assert(string_views(v@) =~= self.addrs().take(i as int + 1));
            }
            i = i + 1;
        }
        proof {
            assert(self.addrs().take(self.targets@.len() as int) =~= self.addrs());
        }
        v
    }

    /// The current status of `addr`, or nothing if `addr` is not configured.
    pub fn status_of_address(&self, addr: &String) -> (r: Option<TargetStatus>)
        ensures
            self.contains_addr(addr@) ==> r == Some(self.status_of(addr@)),
            !self.contains_addr(addr@) ==> r is None,
    {
        proof {
            use_type_invariant(self);
        }
        let mut j: usize = 0;
        while j < self.targets.len()
            invariant
                j <= self.targets@.len(),
                forall|k: int| 0 <= k < j ==> self.targets@[k].address@ != addr@,
            decreases self.targets@.len() - j,
        {
            if self.targets[j].address == *addr {
                proof {
                    use_type_invariant(self);
                    assert(self@[j as int] == (self.targets@[j as int].address@,
                    self.targets@[j as int].status));
                    assert(self.addrs()[j as int] == addr@);
                    assert(self.contains_addr(addr@));
                    let k = self.addrs().index_of(addr@);
                    assert(self.addrs()[k] == addr@);
                    assert(self@[k].0 == addr@ && self@[j as int].0 == addr@);
                    assert(k == j as int);
                }
                return Some(self.targets[j].status);
            }
            j = j + 1;
        }
        proof {
            if self.contains_addr(addr@) {
                let k = choose|k: int|
                    0 <= k < self.addrs().len() && self.addrs()[k] == addr@;
                assert(self@[k].0 == self.targets@[k].address@);
            }
        }
        None
    }
}

/// Relies on rand's `Rng::gen_range` over `0..len`: it returns a uniformly
/// distributed index below `len`, and it panics only on an empty range,
/// which the precondition rules out.
#[verifier::external_body]
fn random_index(len: usize) -> (r: usize)
    requires
        1 <= len,
    ensures
        r < len,
{
    rand::thread_rng().gen_range(0..len)
}

/// Whether some target of `targets` has the address `addr`.
fn contains_address(targets: &Vec<Target>, addr: &String) -> (r: bool)
    ensures
        r == exists|j: int| 0 <= j < targets@.len() && targets@[j].address@ == addr@,
{
    let mut j: usize = 0;
    while j < targets.len()
        invariant
            j <= targets@.len(),
            forall|k: int| 0 <= k < j ==> targets@[k].address@ != addr@,
        decreases targets@.len() - j,
    {
        if targets[j].address == *addr {
            return true;
        }
        j = j + 1;
    }
    false
}

} // verus!
