//! A set of mocks, kept sorted by ascending priority, with
//! first-match-wins selection and per-mock usage accounting.

use vstd::prelude::*;

use crate::mock::{mock_eqv, spec_matches, Mock, Request, Then, When};

verus! {

/// Whether a mock may still be selected: a remaining-use count of zero
/// makes it permanently unmatchable; `None` means unlimited.
pub open spec fn mock_available(m: Mock) -> bool {
    m.limit != Some(0usize)
}

/// Whether selection may pick this mock for this request: its match
/// specification accepts the request and it is not exhausted.
pub open spec fn mock_selectable(m: Mock, req: Request) -> bool {
    spec_matches(m.when, req) && mock_available(m)
}

/// The mock after one selection: a remaining-use count ticks down by
/// one; an unlimited mock is unchanged.
pub open spec fn spend(m: Mock) -> Mock {
    match m.limit {
        Some(n) => if n > 0 {
            Mock { limit: Some((n - 1) as usize), ..m }
        } else {
            m
        },
        None => m,
    }
}

/// Whether the sequence is sorted by ascending priority.
pub open spec fn sorted_by_priority(s: Seq<Mock>) -> bool {
    forall|i: int, j: int| 0 <= i <= j < s.len() ==> s[i].priority <= s[j].priority
}

/// Whether the sequence holds a mock value-equal to `m`.
pub open spec fn contains_eqv(s: Seq<Mock>, m: Mock) -> bool {
    exists|i: int| 0 <= i < s.len() && mock_eqv(s[i], m)
}

/// Where a mock of priority `p` is inserted: after every entry of
/// priority at most `p`, so equal priorities keep insertion order.
pub open spec fn insert_pos(s: Seq<Mock>, p: u8) -> int
    decreases s.len(),
{
    if s.len() == 0 {
        0
    } else if s[0].priority <= p {
        1 + insert_pos(s.skip(1), p)
    } else {
        0
    }
}

/// `insert_pos` is the unique boundary: everything before it has
/// priority at most `p` and the entry at it, if any, has more.
proof fn lemma_insert_pos_is(s: Seq<Mock>, p: u8, k: int)
    requires
        0 <= k <= s.len(),
        forall|j: int| 0 <= j < k ==> s[j].priority <= p,
        k < s.len() ==> s[k].priority > p,
    ensures
        insert_pos(s, p) == k,
    decreases s.len(),
{
    if s.len() == 0 {
    } else if k == 0 {
    } else {
        assert(s[0].priority <= p);
        let rest = s.skip(1);
        assert forall|j: int| 0 <= j < k - 1 implies rest[j].priority <= p by {
            assert(rest[j] == s[j + 1]);
        }
        assert(k - 1 < rest.len() ==> rest[k - 1].priority > p);
        lemma_insert_pos_is(rest, p, k - 1);
    }
}

/// Inserting at the boundary keeps the sequence sorted.
proof fn lemma_insert_keeps_sorted(s: Seq<Mock>, m: Mock, k: int)
    requires
        sorted_by_priority(s),
        0 <= k <= s.len(),
        forall|j: int| 0 <= j < k ==> s[j].priority <= m.priority,
        k < s.len() ==> s[k].priority > m.priority,
    ensures
        sorted_by_priority(s.insert(k, m)),
{
    let t = s.insert(k, m);
    assert forall|i: int, j: int| 0 <= i <= j < t.len() implies t[i].priority
        <= t[j].priority by {
        if i < k {
            assert(t[i] == s[i]);
        }
        if j < k {
            assert(t[j] == s[j]);
        }
        if i > k {
            assert(t[i] == s[i - 1]);
        }
        if j > k {
            assert(t[j] == s[j - 1]);
            if k < s.len() {
                assert(s[k].priority <= s[j - 1].priority);
            }
        }
    }
}

/// A set of mocks, sorted by ascending priority after every insertion.
pub struct MockSet {
    mocks: Vec<Mock>,
}

impl View for MockSet {
    type V = Seq<Mock>;

    closed spec fn view(&self) -> Seq<Mock> {
        self.mocks@
    }
}

impl MockSet {
    /// The set's invariant: entries are sorted by ascending priority.
    pub open spec fn wf(self) -> bool {
        sorted_by_priority(self@)
    }

    /// Creates an empty mock set.
    pub fn new() -> (r: Self)
        ensures
            r@ =~= Seq::<Mock>::empty(),
            r.wf(),
    {
        MockSet { mocks: Vec::new() }
    }

    /// Returns the number of mocks.
    pub fn len(&self) -> (r: usize)
        ensures
            r == self@.len(),
    {
        self.mocks.len()
    }

    /// Returns true if the set holds no mocks.
    pub fn is_empty(&self) -> (r: bool)
        ensures
            r == (self@.len() == 0),
    {
        self.mocks.is_empty()
    }

    /// Returns true if the set holds a mock value-equal to `mock`.
    pub fn contains(&self, mock: &Mock) -> (r: bool)
        ensures
            r == contains_eqv(self@, *mock),
    {
        let mut i: usize = 0;
        while i < self.mocks.len()
            invariant
                0 <= i <= self@.len(),
                forall|j: int| 0 <= j < i ==> !mock_eqv(self@[j], *mock),
            decreases self@.len() - i,
        {
            if self.mocks[i] == *mock {
                proof {
                    assert(mock_eqv(self@[i as int], *mock));
                }
                return true;
            }
            i = i + 1;
        }
        false
    }

    /// Inserts a mock, keeping the set sorted by ascending priority; a
    /// mock of equal priority lands after those already present. A mock
    /// value-equal to one already present is silently rejected.
    pub fn insert(&mut self, mock: Mock)
        requires
            old(self).wf(),
        ensures
            final(self).wf(),
            contains_eqv(old(self)@, mock) ==> final(self)@ == old(self)@,
            !contains_eqv(old(self)@, mock) ==> final(self)@ == old(self)@.insert(
                insert_pos(old(self)@, mock.priority),
                mock,
            ),
    {
        if self.contains(&mock) {
            return ;
        }
        let mut k: usize = 0;
        while k < self.mocks.len() && self.mocks[k].priority <= mock.priority
            invariant
                0 <= k <= self@.len(),
                forall|j: int| 0 <= j < k ==> self@[j].priority <= mock.priority,
            decreases self@.len() - k,
        {
            k = k + 1;
        }
        proof {
            lemma_insert_pos_is(self@, mock.priority, k as int);
            lemma_insert_keeps_sorted(self@, mock, k as int);
        }
        self.mocks.insert(k, mock);
    }

    /// Builds a mock from the given match specification and response,
    /// with the default priority and no use limit, and inserts it.
    pub fn mock(&mut self, when: When, response: Then)
        requires
            old(self).wf(),
        ensures
            final(self).wf(),
            ({
                let m = Mock {
                    when,
                    response,
                    priority: crate::mock::DEFAULT_PRIORITY,
                    limit: None,
                };
                &&& contains_eqv(old(self)@, m) ==> final(self)@ == old(self)@
                &&& !contains_eqv(old(self)@, m) ==> final(self)@ == old(self)@.insert(
                    insert_pos(old(self)@, m.priority),
                    m,
                )
            }),
    {
        let m = Mock::new(when, response);
        self.insert(m);
    }

    /// Builds a mock with the given priority and optional use limit and
    /// inserts it.
    pub fn mock_with_options(
        &mut self,
        priority: u8,
        limit: Option<usize>,
        when: When,
        response: Then,
    )
        requires
            old(self).wf(),
        ensures
            final(self).wf(),
            ({
                let m = Mock { when, response, priority, limit };
                &&& contains_eqv(old(self)@, m) ==> final(self)@ == old(self)@
                &&& !contains_eqv(old(self)@, m) ==> final(self)@ == old(self)@.insert(
                    insert_pos(old(self)@, m.priority),
                    m,
                )
            }),
    {
        let mut m = Mock::new(when, response).with_priority(priority);
        if let Some(n) = limit {
            m = m.with_limit(n);
        }
        self.insert(m);
    }

    /// Finds the first mock, in priority order, satisfying the predicate.
    pub fn find<F: Fn(&Mock) -> bool>(&self, predicate: F) -> (r: Option<&Mock>)
        requires
            forall|i: int| 0 <= i < self@.len() ==> call_requires(predicate, (&self@[i],)),
        ensures
            match r {
                Some(m) => exists|i: int|
                    {
                        &&& 0 <= i < self@.len()
                        &&& *m == self@[i]
                        &&& #[trigger] call_ensures(predicate, (&self@[i],), true)
                        &&& forall|j: int|
                            0 <= j < i ==> call_ensures(predicate, (&self@[j],), false)
                    },
                None => forall|i: int|
                    0 <= i < self@.len() ==> call_ensures(predicate, (&self@[i],), false),
            },
    {
        let mut i: usize = 0;
        while i < self.mocks.len()
            invariant
                0 <= i <= self@.len(),
                forall|k: int| 0 <= k < self@.len() ==> call_requires(predicate, (&self@[k],)),
                forall|j: int| 0 <= j < i ==> call_ensures(predicate, (&self@[j],), false),
            decreases self@.len() - i,
        {
            let m = &self.mocks[i];
            if predicate(m) {
                return Some(m);
            }
            i = i + 1;
        }
        None
    }

    /// Removes and returns the mock at the given position. The caller
    /// must hand in a position inside the set.
    pub fn remove(&mut self, index: usize) -> (r: Mock)
        requires
            old(self).wf(),
            index < old(self)@.len(),
        ensures
            final(self).wf(),
            r == old(self)@[index as int],
            final(self)@ == old(self)@.remove(index as int),
    {
        let m = self.mocks.remove(index);
        proof {
            let s = old(self)@.remove(index as int);
            assert forall|i: int, j: int| 0 <= i <= j < s.len() implies s[i].priority
                <= s[j].priority by {
                if i >= index {
                    assert(s[i] == old(self)@[i + 1]);
                }
                if j >= index {
                    assert(s[j] == old(self)@[j + 1]);
                }
            }
        }
        m
    }

    /// Removes every mock.
    pub fn clear(&mut self)
        ensures
            final(self)@ =~= Seq::<Mock>::empty(),
            final(self).wf(),
    {
        self.mocks.clear()
    }

    /// Returns the mocks in priority order, without consuming them.
    pub fn iter(&self) -> (r: &Vec<Mock>)
        ensures
            r@ == self@,
    {
        &self.mocks
    }

    /// Matches a request to a mock: scans in ascending-priority order and
    /// selects the first mock whose specification accepts the request and
    /// whose remaining-use count is not exhausted. The stored entry's
    /// count ticks down by one and an independent, value-equal clone with
    /// an undrained response body is returned; `None` is a normal
    /// outcome meaning no mock matched.
    pub fn match_by_request(&mut self, request: &Request) -> (r: Option<Mock>)
        requires
            old(self).wf(),
        ensures
            final(self).wf(),
            match r {
                None => {
                    &&& final(self)@ == old(self)@
                    &&& forall|i: int|
                        0 <= i < old(self)@.len() ==> !mock_selectable(old(self)@[i], *request)
                },
                Some(m) => exists|i: int|
                    {
                        &&& 0 <= i < old(self)@.len()
                        &&& #[trigger] mock_selectable(old(self)@[i], *request)
                        &&& forall|j: int|
                            0 <= j < i ==> !mock_selectable(old(self)@[j], *request)
                        &&& mock_eqv(m, spend(old(self)@[i]))
                        &&& m.response.body@ == old(self)@[i].response.body@
                        &&& final(self)@ == old(self)@.update(i, spend(old(self)@[i]))
                    },
            },
    {
        let mut i: usize = 0;
        while i < self.mocks.len()
            invariant
                0 <= i <= self@.len(),
                self@ == old(self)@,
                old(self).wf(),
                forall|j: int| 0 <= j < i ==> !mock_selectable(self@[j], *request),
            decreases self@.len() - i,
        {
            let available = match self.mocks[i].limit {
                Some(n) => n > 0,
                None => true,
            };
            if available && self.mocks[i].matches(request) {
                let picked = self.mocks.remove(i);
                let new_limit = match picked.limit {
                    Some(n) => Some(n - 1),
                    None => None,
                };
                let stored = Mock { limit: new_limit, ..picked };
                let cloned = stored.clone();
                self.mocks.insert(i, stored);
                proof {
                    let s0 = old(self)@;
                    let k = i as int;
                    assert(sorted_by_priority(s0));
                    assert(mock_selectable(s0[k], *request));
                    assert(self@ =~= s0.update(k, spend(s0[k])));
                    assert forall|x: int, y: int|
                        0 <= x <= y < self@.len() implies self@[x].priority
                        <= self@[y].priority by {
                        assert(s0[x].priority <= s0[y].priority);
                        assert(self@[x].priority == s0[x].priority);
                        assert(self@[y].priority == s0[y].priority);
                    }
                }
                return Some(cloned);
            }
            i = i + 1;
        }
        None
    }
}

/// First-match-wins under priority order: because the set is sorted by
/// ascending priority, the first selectable entry has a priority no
/// greater than that of any other selectable entry.
pub proof fn lemma_first_match_lowest_priority(s: Seq<Mock>, req: Request, i: int, j: int)
    requires
        sorted_by_priority(s),
        0 <= i < s.len(),
        0 <= j < s.len(),
        mock_selectable(s[i], req),
        mock_selectable(s[j], req),
        forall|k: int| 0 <= k < i ==> !mock_selectable(s[k], req),
    ensures
        s[i].priority <= s[j].priority,
{
    assert(j >= i);
}

/// Usage-limit exhaustion is terminal: after a mock with one remaining
/// use is selected, it can never be selected again, whatever the request.
pub proof fn lemma_limit_exhausted(m: Mock, req: Request)
    requires
        m.limit == Some(1usize),
    ensures
        !mock_selectable(spend(m), req),
{
    assert(spend(m).limit == Some(0usize));
}

/// Equal-priority stability: a mock already in the set whose priority
/// equals the incoming mock's stays at its position, before the incoming
/// mock's insertion point.
pub proof fn lemma_insert_stable(s: Seq<Mock>, m: Mock, j: int)
    requires
        sorted_by_priority(s),
        0 <= j < s.len(),
        s[j].priority == m.priority,
    ensures
        j < insert_pos(s, m.priority),
        s.insert(insert_pos(s, m.priority), m)[j] == s[j],
{
    lemma_insert_pos_after(s, m.priority, j);
    lemma_insert_pos_in_range(s, m.priority);
}

/// Every position holding a priority of at most `p` lies before the
/// insertion point for `p`.
proof fn lemma_insert_pos_after(s: Seq<Mock>, p: u8, j: int)
    requires
        sorted_by_priority(s),
        0 <= j < s.len(),
        s[j].priority <= p,
    ensures
        j < insert_pos(s, p),
    decreases s.len(),
{
    assert(s[0].priority <= s[j].priority);
    let rest = s.skip(1);
    if j == 0 {
        lemma_insert_pos_in_range(rest, p);
    } else {
        assert forall|x: int, y: int|
            0 <= x <= y < rest.len() implies rest[x].priority <= rest[y].priority by {
            assert(rest[x] == s[x + 1]);
            assert(rest[y] == s[y + 1]);
        }
        assert(rest[j - 1] == s[j]);
        lemma_insert_pos_after(rest, p, j - 1);
    }
}

/// The insertion point lies inside the sequence bounds.
proof fn lemma_insert_pos_in_range(s: Seq<Mock>, p: u8)
    ensures
        0 <= insert_pos(s, p) <= s.len(),
    decreases s.len(),
{
    if s.len() > 0 && s[0].priority <= p {
        lemma_insert_pos_in_range(s.skip(1), p);
    }
}

} // verus!
