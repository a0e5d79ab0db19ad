//! Ordered sets of port numbers.

use vstd::prelude::*;

verus! {

/// Number of distinct port values.
pub const PORT_COUNT: usize = 65536;

/// `s` without the later occurrences of a value: each value stays where it
/// first occurs.
pub open spec fn dedup_first(s: Seq<u16>) -> Seq<u16>
    decreases s.len(),
{
    if s.len() == 0 {
        Seq::empty()
    } else {
        let kept = dedup_first(s.drop_last());
        if kept.contains(s.last()) {
            kept
        } else {
            kept.push(s.last())
        }
    }
}

/// Appending one value appends it to the deduplicated sequence exactly when
/// it is new.
pub proof fn lemma_dedup_first_push(s: Seq<u16>, x: u16)
    ensures
        dedup_first(s.push(x)) == if dedup_first(s).contains(x) {
            dedup_first(s)
        } else {
            dedup_first(s).push(x)
        },
{
    assert(s.push(x).drop_last() =~= s);
}

/// Deduplication keeps every value once.
pub proof fn lemma_dedup_first_members(s: Seq<u16>)
    ensures
        dedup_first(s).no_duplicates(),
        forall|v: u16|
            #![trigger dedup_first(s).contains(v)]
            #![trigger s.contains(v)]
            dedup_first(s).contains(v) <==> s.contains(v),
    decreases s.len(),
{
    if s.len() > 0 {
        let t = s.drop_last();
        let x = s.last();
        lemma_dedup_first_members(t);
        let kept = dedup_first(t);
        assert(s =~= t.push(x));
        assert forall|v: u16|
            #![trigger dedup_first(s).contains(v)]
            #![trigger s.contains(v)]
            dedup_first(s).contains(v) <==> s.contains(v) by {
            assert(kept.contains(v) <==> t.contains(v));
            if s.contains(v) {
                let i = choose|i: int| 0 <= i < s.len() && s[i] == v;
                if i < t.len() {
                    assert(t[i] == v);
                    assert(t.contains(v));
                    let j = choose|j: int| 0 <= j < kept.len() && kept[j] == v;
                    assert(dedup_first(s)[j] == v);
                } else {
                    assert(v == x);
                    if !kept.contains(x) {
                        assert(kept.push(x)[kept.len() as int] == x);
                    }
                }
            }
            if dedup_first(s).contains(v) {
                let j = choose|j: int| 0 <= j < dedup_first(s).len() && dedup_first(s)[j] == v;
                if j < kept.len() {
                    assert(kept[j] == v);
                    assert(kept.contains(v));
                    let i = choose|i: int| 0 <= i < t.len() && t[i] == v;
                    assert(s[i] == v);
                } else {
                    assert(v == x);
                    assert(s[s.len() - 1] == v);
                }
            }
        }
    }
}

/// A sequence without repetitions is its own deduplication.
pub proof fn lemma_dedup_first_fixed(s: Seq<u16>)
    requires
        s.no_duplicates(),
    ensures
        dedup_first(s) == s,
    decreases s.len(),
{
    if s.len() > 0 {
        let t = s.drop_last();
        lemma_dedup_first_fixed(t);
        lemma_dedup_first_members(t);
        if t.contains(s.last()) {
            let i = choose|i: int| 0 <= i < t.len() && t[i] == s.last();
            assert(s[i] == s[s.len() - 1]);
        }
        assert(s =~= t.push(s.last()));
    }
}

/// An ordered set of ports: a sequence in which no value occurs twice.
#[derive(Debug)]
pub struct PortSet {
    ports: Vec<u16>,
}

impl View for PortSet {
    type V = Seq<u16>;

    closed spec fn view(&self) -> Seq<u16> {
        self.ports@
    }
}

impl PortSet {
    /// No port occurs twice.
    pub open spec fn wf(&self) -> bool {
        self@.no_duplicates()
    }

    /// Whether `port` is a member.
    pub open spec fn has(&self, port: u16) -> bool {
        self@.contains(port)
    }

    /// The empty set.
    pub fn new() -> (set: PortSet)
        ensures
            set.wf(),
            set@ == Seq::<u16>::empty(),
    {
        PortSet { ports: Vec::new() }
    }

    /// The distinct values of `ports`, each where it first occurs.
    pub fn from_vec(ports: &Vec<u16>) -> (set: PortSet)
        ensures
            set.wf(),
            set@ == dedup_first(ports@),
    {
        let mut acc = FirstSeen::new();
        let mut i: usize = 0;
        while i < ports.len()
            invariant
                i <= ports.len(),
                acc.wf(),
                acc.fed() == ports@.take(i as int),
            decreases ports.len() - i,
        {
            acc.feed(ports[i]);
            assert(ports@.take(i as int).push(ports@[i as int]) =~= ports@.take(i as int + 1));
            i = i + 1;
        }
        assert(ports@.take(ports.len() as int) =~= ports@);
        acc.finish()
    }

    /// Number of ports in the set.
    pub fn len(&self) -> (n: usize)
        ensures
            n == self@.len(),
    {
        self.ports.len()
    }

    /// Whether the set has no port.
    pub fn is_empty(&self) -> (b: bool)
        ensures
            b == (self@.len() == 0),
    {
        self.ports.len() == 0
    }

    /// The port at position `index`, if there is one.
    pub fn get(&self, index: usize) -> (port: Option<u16>)
        ensures
            port == if index < self@.len() {
                Some(self@[index as int])
            } else {
                None
            },
    {
        if index < self.ports.len() {
            Some(self.ports[index])
        } else {
            None
        }
    }

    /// Whether `port` is in the set.
    pub fn contains(&self, port: u16) -> (found: bool)
        ensures
            found == self.has(port),
    {
        let mut i: usize = 0;
        while i < self.ports.len()
            invariant
                i <= self.ports.len(),
                forall|k: int| 0 <= k < i ==> self.ports@[k] != port,
            decreases self.ports.len() - i,
        {
            if self.ports[i] == port {
                return true;
            }
            i = i + 1;
        }
        false
    }

    /// Adds `port` at the end unless it is a member already; says whether it
    /// was added.
    pub fn insert(&mut self, port: u16) -> (added: bool)
        requires
            old(self).wf(),
        ensures
            final(self).wf(),
            added == !old(self).has(port),
            final(self)@ == if added {
                old(self)@.push(port)
            } else {
                old(self)@
            },
    {
        if self.contains(port) {
            false
        } else {
            self.push_new(port);
            true
        }
    }

    /// The ports in order, as a vector.
    pub fn to_vec(&self) -> (ports: Vec<u16>)
        ensures
            ports@ == self@,
    {
        self.ports.clone()
    }

    /// Adds a port that is known to be new.
    pub(crate) fn push_new(&mut self, port: u16)
        requires
            old(self).wf(),
            !old(self).has(port),
        ensures
            final(self).wf(),
            final(self)@ == old(self)@.push(port),
    {
        self.ports.push(port);
        proof {
            let before = old(self)@;
            let after = self@;
            assert forall|i: int, j: int| 0 <= i < after.len() && 0 <= j < after.len() && i != j
                implies after[i] != after[j] by {
                if i < before.len() && j < before.len() {
                    assert(before[i] != before[j]);
                } else if i < before.len() {
                    assert(before.contains(before[i]));
                } else {
                    assert(before.contains(before[j]));
                }
            }
        }
    }
}

/// Collects values, keeping each the first time it is fed.
pub(crate) struct FirstSeen {
    seen: Vec<bool>,
    kept: Vec<u16>,
    fed: Ghost<Seq<u16>>,
}

impl FirstSeen {
    /// Everything fed so far, in order.
    pub(crate) closed spec fn fed(&self) -> Seq<u16> {
        self.fed@
    }

    pub(crate) closed spec fn wf(&self) -> bool {
        &&& self.seen@.len() == PORT_COUNT
        &&& self.kept@ == dedup_first(self.fed@)
        &&& forall|p: u16| #[trigger] self.seen@[p as int] == self.kept@.contains(p)
    }

    pub(crate) fn new() -> (acc: FirstSeen)
        ensures
            acc.wf(),
            acc.fed() == Seq::<u16>::empty(),
    {
        let mut seen: Vec<bool> = Vec::new();
        let mut i: usize = 0;
        while i < PORT_COUNT
            invariant
                i <= PORT_COUNT,
                seen@.len() == i,
                forall|k: int| 0 <= k < i ==> !seen@[k],
            decreases PORT_COUNT - i,
        {
            seen.push(false);
            i = i + 1;
        }
        FirstSeen { seen, kept: Vec::new(), fed: Ghost(Seq::empty()) }
    }

    pub(crate) fn feed(&mut self, port: u16)
        requires
            old(self).wf(),
        ensures
            final(self).wf(),
            final(self).fed() == old(self).fed().push(port),
    {
        proof {
            lemma_dedup_first_push(self.fed@, port);
        }
        let ghost kept_before = self.kept@;
        if !self.seen[port as usize] {
            self.seen.set(port as usize, true);
            self.kept.push(port);
            proof {
                assert forall|p: u16| #[trigger] self.seen@[p as int] == self.kept@.contains(p) by {
                    if p == port {
                        assert(self.kept@[kept_before.len() as int] == port);
                    } else if kept_before.contains(p) {
                        let j = choose|j: int| 0 <= j < kept_before.len() && kept_before[j] == p;
                        assert(self.kept@[j] == p);
                    } else if self.kept@.contains(p) {
                        let j = choose|j: int| 0 <= j < self.kept@.len() && self.kept@[j] == p;
                        assert(kept_before[j] == p);
                    }
                }
            }
        }
        self.fed = Ghost(self.fed@.push(port));
    }

    pub(crate) fn finish(self) -> (set: PortSet)
        requires
            self.wf(),
        ensures
            set.wf(),
            set@ == dedup_first(self.fed()),
    {
        proof {
            lemma_dedup_first_members(self.fed@);
        }
        PortSet { ports: self.kept }
    }
}

} // verus!
