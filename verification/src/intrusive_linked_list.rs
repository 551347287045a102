//! A doubly linked list whose links belong to the elements: each element,
//! known by its address, carries the address of the element before it and
//! of the element after it, and the list itself only knows its first and
//! last element and its length.
use vstd::prelude::*;
use std::collections::BTreeMap;

verus! {

broadcast use vstd::std_specs::btree::group_btree_axioms, vstd::laws_cmp::group_laws_cmp;

/// The links an element carries: the addresses of its neighbours.
#[derive(Clone, Copy, Debug, PartialEq, Eq, Structural)]
pub struct Links {
    pub next: Option<u64>,
    pub prev: Option<u64>,
}

impl Links {
    /// Links to nothing.
    pub fn new() -> (r: Self)
        ensures
            r.next is None,
            r.prev is None,
    {
        Self { next: None, prev: None }
    }

    /// Whether the element is linked to a neighbour.
    pub fn is_linked(&self) -> (r: bool)
        ensures
            r == (self.next is Some || self.prev is Some),
    {
        self.next.is_some() || self.prev.is_some()
    }
}

/// A doubly linked list of elements known by their addresses.
pub struct IntrusiveLinkedList {
    head: Option<u64>,
    tail: Option<u64>,
    len: usize,
    links: BTreeMap<u64, Links>,
    order: Ghost<Seq<u64>>,
}

/// The links the element at position `i` of `s` carries in a well-formed
/// list.
pub open spec fn links_at(s: Seq<u64>, i: int) -> Links {
    Links {
        next: if i == s.len() - 1 { None } else { Some(s[i + 1]) },
        prev: if i == 0 { None } else { Some(s[i - 1]) },
    }
}

/// The links after unlinking the element at position `k` of `s` from the
/// links `m`: its own links go, and its neighbours are linked to each other.
pub open spec fn unlinked(m: Map<u64, Links>, s: Seq<u64>, k: int) -> Map<u64, Links> {
    let l = links_at(s, k);
    let m1 = m.remove(s[k]);
    let m2 = if k > 0 {
        m1.insert(s[k - 1], Links { next: l.next, prev: m[s[k - 1]].prev })
    } else {
        m1
    };
    if k < s.len() - 1 {
        m2.insert(s[k + 1], Links { next: m[s[k + 1]].next, prev: l.prev })
    } else {
        m2
    }
}

/// Unlinking an element keeps the links in step with the order of the
/// elements left.
proof fn lemma_unlink(m: Map<u64, Links>, s: Seq<u64>, k: int)
    requires
        0 <= k < s.len(),
        s.no_duplicates(),
        forall|a: u64| #[trigger] m.contains_key(a) <==> s.contains(a),
        forall|i: int| 0 <= i < s.len() ==> m[#[trigger] s[i]] == links_at(s, i),
    ensures
        forall|a: u64| #[trigger] unlinked(m, s, k).contains_key(a) <==> s.remove(k).contains(a),
        forall|i: int| 0 <= i < s.remove(k).len() ==> unlinked(m, s, k)[#[trigger] s.remove(k)[i]] == links_at(s.remove(k), i),
        s.remove(k).no_duplicates(),
{
    let s2 = s.remove(k);
    let u = unlinked(m, s, k);
    let item = s[k];
    assert forall|a: u64| #[trigger] u.contains_key(a) <==> s2.contains(a) by {
        if s2.contains(a) {
            let j = choose|j: int| 0 <= j < s2.len() && s2[j] == a;
            if j < k {
                assert(s[j] == a);
            } else {
                assert(s[j + 1] == a);
            }
        }
        if s.contains(a) && a != item {
            let j = choose|j: int| 0 <= j < s.len() && s[j] == a;
            if j < k {
                assert(s2[j] == a);
            } else {
                assert(s2[j - 1] == a);
            }
        }
    }
    assert forall|i: int| 0 <= i < s2.len() implies u[#[trigger] s2[i]] == links_at(s2, i) by {
        if i < k {
            assert(s2[i] == s[i]);
            assert(m[s[i]] == links_at(s, i));
        } else {
            assert(s2[i] == s[i + 1]);
            assert(m[s[i + 1]] == links_at(s, i + 1));
        }
    }
    assert forall|i: int, j: int| 0 <= i < s2.len() && 0 <= j < s2.len() && i != j implies s2[i] != s2[j] by {
        let i1 = if i < k { i } else { i + 1 };
        let j1 = if j < k { j } else { j + 1 };
        assert(s2[i] == s[i1] && s2[j] == s[j1]);
    }
}

impl IntrusiveLinkedList {
    /// The elements, from the first to the last.
    pub closed spec fn view(&self) -> Seq<u64> {
        self.order@
    }

    /// The links match the order of the elements, which are distinct, and
    /// the first, the last and the length are those of that order.
    pub closed spec fn wf(&self) -> bool {
        let s = self.order@;
        &&& self.len == s.len()
        &&& s.no_duplicates()
        &&& forall|a: u64| #[trigger] self.links@.contains_key(a) <==> s.contains(a)
        &&& s.len() == 0 ==> self.head is None && self.tail is None
        &&& s.len() > 0 ==> self.head == Some(s[0]) && self.tail == Some(s.last())
        &&& forall|i: int| 0 <= i < s.len() ==> self.links@[#[trigger] s[i]] == links_at(s, i)
    }

    /// An empty list.
    pub fn new() -> (r: Self)
        ensures
            r.wf(),
            r.view() == Seq::<u64>::empty(),
    {
        Self { head: None, tail: None, len: 0, links: BTreeMap::new(), order: Ghost(Seq::empty()) }
    }

    /// The first element.
    pub fn front(&self) -> (r: Option<u64>)
        requires
            self.wf(),
        ensures
            self.view().len() == 0 ==> r is None,
            self.view().len() > 0 ==> r == Some(self.view()[0]),
    {
        self.head
    }

    /// The last element.
    pub fn back(&self) -> (r: Option<u64>)
        requires
            self.wf(),
        ensures
            self.view().len() == 0 ==> r is None,
            self.view().len() > 0 ==> r == Some(self.view().last()),
    {
        self.tail
    }

    pub fn is_empty(&self) -> (r: bool)
        requires
            self.wf(),
        ensures
            r == (self.view().len() == 0),
    {
        self.head.is_none()
    }

    pub fn len(&self) -> (r: usize)
        requires
            self.wf(),
        ensures
            r == self.view().len(),
    {
        self.len
    }

    /// The links `item` carries: none when it is not in the list.
    fn links_of(&self, item: u64) -> (r: Links)
        requires
            self.wf(),
        ensures
            self.view().contains(item) ==> r == self.links@[item],
            !self.view().contains(item) ==> r == (Links { next: None, prev: None }),
    {
        match self.links.get(&item) {
            Some(l) => *l,
            None => Links::new(),
        }
    }

    /// Appends `item`, which must not be in the list.
    pub fn push_back(&mut self, item: u64)
        requires
            old(self).wf(),
            !old(self).view().contains(item),
            old(self).view().len() < usize::MAX,
        ensures
            final(self).wf(),
            final(self).view() == old(self).view().push(item),
    {
        let ghost s = self.order@;
        let ghost s2 = s.push(item);
        let mut links = self.links.clone();
        assert(links@ == self.links@);
        links.insert(item, Links { next: None, prev: self.tail });
        let mut head = self.head;
        match self.tail {
            Some(t) => {
                let lt = *self.links.get(&t).unwrap();
                links.insert(t, Links { next: Some(item), prev: lt.prev });
            },
            None => {
                head = Some(item);
            },
        }
        proof {
            assert(s2.last() == item);
            assert forall|a: u64| #[trigger] links@.contains_key(a) <==> s2.contains(a) by {
                if s2.contains(a) && a != item {
                    let j = choose|j: int| 0 <= j < s2.len() && s2[j] == a;
                    assert(s.contains(a)) by {
                        assert(s[j] == a);
                    }
                }
                if s.contains(a) {
                    let j = choose|j: int| 0 <= j < s.len() && s[j] == a;
                    assert(s2[j] == a);
                }
            }
            assert forall|i: int| 0 <= i < s2.len() implies links@[#[trigger] s2[i]] == links_at(s2, i) by {
                if i == s.len() {
                } else {
                    assert(s2[i] == s[i]);
                    assert(s[i] != item);
                    if i == s.len() - 1 {
                        assert(s2[i] == s.last());
                    } else {
                        assert(s2[i] != s.last()) by {
                            assert(s.no_duplicates());
                        }
                        assert(self.links@[s[i]] == links_at(s, i));
                    }
                }
            }
            assert(s2.no_duplicates()) by {
                assert forall|i: int, j: int| 0 <= i < s2.len() && 0 <= j < s2.len() && i != j implies s2[i] != s2[j] by {
                    if i < s.len() && j < s.len() {
                    } else if i == s.len() {
                        assert(s.contains(s2[j]));
                    } else {
                        assert(s.contains(s2[i]));
                    }
                }
            }
        }
        let len = self.len + 1;
        *self = Self { head, tail: Some(item), len, links, order: Ghost(s2) };
    }

    /// Prepends `item`, which must not be in the list.
    pub fn push_front(&mut self, item: u64)
        requires
            old(self).wf(),
            !old(self).view().contains(item),
            old(self).view().len() < usize::MAX,
        ensures
            final(self).wf(),
            final(self).view() == seq![item] + old(self).view(),
    {
        let ghost s = self.order@;
        let ghost s2 = seq![item] + s;
        let mut links = self.links.clone();
        assert(links@ == self.links@);
        links.insert(item, Links { next: self.head, prev: None });
        let mut tail = self.tail;
        match self.head {
            Some(h) => {
                let lh = *self.links.get(&h).unwrap();
                links.insert(h, Links { next: lh.next, prev: Some(item) });
            },
            None => {
                tail = Some(item);
            },
        }
        proof {
            assert(s2[0] == item);
            assert forall|a: u64| #[trigger] links@.contains_key(a) <==> s2.contains(a) by {
                if s2.contains(a) && a != item {
                    let j = choose|j: int| 0 <= j < s2.len() && s2[j] == a;
                    assert(s[j - 1] == a);
                }
                if s.contains(a) {
                    let j = choose|j: int| 0 <= j < s.len() && s[j] == a;
                    assert(s2[j + 1] == a);
                }
            }
            assert forall|i: int| 0 <= i < s2.len() implies links@[#[trigger] s2[i]] == links_at(s2, i) by {
                if i > 0 {
                    assert(s2[i] == s[i - 1]);
                    assert(s[i - 1] != item);
                    if i == 1 {
                        assert(s2[i] == s[0]);
                    } else {
                        assert(s2[i] != s[0]) by {
                            assert(s.no_duplicates());
                        }
                        assert(self.links@[s[i - 1]] == links_at(s, i - 1));
                    }
                }
            }
            assert(s2.no_duplicates()) by {
                assert forall|i: int, j: int| 0 <= i < s2.len() && 0 <= j < s2.len() && i != j implies s2[i] != s2[j] by {
                    if i > 0 && j > 0 {
                        assert(s2[i] == s[i - 1] && s2[j] == s[j - 1]);
                    } else if i == 0 {
                        assert(s.contains(s2[j])) by {
                            assert(s[j - 1] == s2[j]);
                        }
                    } else {
                        assert(s.contains(s2[i])) by {
                            assert(s[i - 1] == s2[i]);
                        }
                    }
                }
            }
            if s.len() > 0 {
                assert(s2.last() == s.last());
            }
        }
        let len = self.len + 1;
        *self = Self { head: Some(item), tail, len, links, order: Ghost(s2) };
    }

    /// Takes the first element off.
    pub fn pop_front(&mut self) -> (r: Option<u64>)
        requires
            old(self).wf(),
        ensures
            final(self).wf(),
            old(self).view().len() == 0 ==> r is None && final(self).view() == old(self).view(),
            old(self).view().len() > 0 ==> r == Some(old(self).view()[0]) && final(self).view() == old(self).view().drop_first(),
    {
        let ghost s = self.order@;
        let h = match self.head {
            Some(h) => h,
            None => {
                return None;
            },
        };
        proof {
            assert(s[0] == h);
            assert(self.links@[s[0]] == links_at(s, 0));
        }
        let lh = *self.links.get(&h).unwrap();
        let ghost s2 = s.drop_first();
        let mut links = self.links.clone();
        assert(links@ == self.links@);
        links.remove(&h);
        let mut tail = self.tail;
        match lh.next {
            Some(n) => {
                proof {
                    assert(n == s[1]);
                    assert(self.links@[s[1]] == links_at(s, 1));
                }
                let ln = *self.links.get(&n).unwrap();
                links.insert(n, Links { next: ln.next, prev: None });
            },
            None => {
                tail = None;
            },
        }
        proof {
            assert forall|a: u64| #[trigger] links@.contains_key(a) <==> s2.contains(a) by {
                if s2.contains(a) {
                    let j = choose|j: int| 0 <= j < s2.len() && s2[j] == a;
                    assert(s[j + 1] == a);
                    assert(s.contains(a));
                    assert(a != h) by {
                        assert(s.no_duplicates());
                    }
                }
                if s.contains(a) && a != h {
                    let j = choose|j: int| 0 <= j < s.len() && s[j] == a;
                    assert(j != 0);
                    assert(s2[j - 1] == a);
                }
            }
            assert forall|i: int| 0 <= i < s2.len() implies links@[#[trigger] s2[i]] == links_at(s2, i) by {
                assert(s2[i] == s[i + 1]);
                assert(s[i + 1] != h) by {
                    assert(s.no_duplicates());
                }
                assert(self.links@[s[i + 1]] == links_at(s, i + 1));
            }
            if s2.len() > 0 {
                assert(s2[0] == s[1]);
                assert(s2.last() == s.last());
            }
        }
        let len = self.len - 1;
        *self = Self { head: lh.next, tail, len, links, order: Ghost(s2) };
        Some(h)
    }

    /// Takes the last element off.
    pub fn pop_back(&mut self) -> (r: Option<u64>)
        requires
            old(self).wf(),
        ensures
            final(self).wf(),
            old(self).view().len() == 0 ==> r is None && final(self).view() == old(self).view(),
            old(self).view().len() > 0 ==> r == Some(old(self).view().last()) && final(self).view() == old(self).view().drop_last(),
    {
        let ghost s = self.order@;
        let t = match self.tail {
            Some(t) => t,
            None => {
                return None;
            },
        };
        let ghost n = s.len() - 1;
        proof {
            assert(s[n] == t);
            assert(self.links@[s[n]] == links_at(s, n));
        }
        let lt = *self.links.get(&t).unwrap();
        let ghost s2 = s.drop_last();
        let mut links = self.links.clone();
        assert(links@ == self.links@);
        links.remove(&t);
        let mut head = self.head;
        match lt.prev {
            Some(p) => {
                proof {
                    assert(p == s[n - 1]);
                    assert(self.links@[s[n - 1]] == links_at(s, n - 1));
                }
                let lp = *self.links.get(&p).unwrap();
                links.insert(p, Links { next: None, prev: lp.prev });
            },
            None => {
                head = None;
            },
        }
        proof {
            assert forall|a: u64| #[trigger] links@.contains_key(a) <==> s2.contains(a) by {
                if s2.contains(a) {
                    let j = choose|j: int| 0 <= j < s2.len() && s2[j] == a;
                    assert(s[j] == a);
                    assert(s.contains(a));
                    assert(a != t) by {
                        assert(s.no_duplicates());
                    }
                }
                if s.contains(a) && a != t {
                    let j = choose|j: int| 0 <= j < s.len() && s[j] == a;
                    assert(j != n);
                    assert(s2[j] == a);
                }
            }
            assert forall|i: int| 0 <= i < s2.len() implies links@[#[trigger] s2[i]] == links_at(s2, i) by {
                assert(s2[i] == s[i]);
                assert(s[i] != t) by {
                    assert(s.no_duplicates());
                }
                assert(self.links@[s[i]] == links_at(s, i));
            }
            if s2.len() > 0 {
                assert(s2[0] == s[0]);
                assert(s2.last() == s[n - 1]);
            }
        }
        let len = self.len - 1;
        *self = Self { head, tail: lt.prev, len, links, order: Ghost(s2) };
        Some(t)
    }

    /// Whether `item` is in the list, found by walking it from the front.
    pub fn contains(&self, item: u64) -> (r: bool)
        requires
            self.wf(),
        ensures
            r == self.view().contains(item),
    {
        let ghost s = self.order@;
        let mut cur = self.head;
        let mut i: usize = 0;
        while i < self.len
            invariant
                self.wf(),
                s == self.order@,
                i <= s.len(),
                i < s.len() ==> cur == Some(s[i as int]),
                forall|j: int| 0 <= j < i ==> s[j] != item,
            decreases s.len() - i,
        {
            let c = cur.unwrap();
            if c == item {
                return true;
            }
            proof {
                assert(self.links@[s[i as int]] == links_at(s, i as int));
            }
            cur = self.links.get(&c).unwrap().next;
            i = i + 1;
        }
        proof {
            if s.contains(item) {
                let j = choose|j: int| 0 <= j < s.len() && s[j] == item;
                assert(s[j] != item);
            }
        }
        false
    }

    /// The elements, from the first to the last, found by walking the list.
    pub fn iter(&self) -> (r: Vec<u64>)
        requires
            self.wf(),
        ensures
            r@ == self.view(),
    {
        let ghost s = self.order@;
        let mut out: Vec<u64> = Vec::new();
        let mut cur = self.head;
        let mut i: usize = 0;
        while i < self.len
            invariant
                self.wf(),
                s == self.order@,
                i <= s.len(),
                i < s.len() ==> cur == Some(s[i as int]),
                out@ == s.take(i as int),
            decreases s.len() - i,
        {
            let c = cur.unwrap();
            out.push(c);
            proof {
                assert(self.links@[s[i as int]] == links_at(s, i as int));
                assert(s.take(i + 1) =~= s.take(i as int).push(c));
            }
            cur = self.links.get(&c).unwrap().next;
            i = i + 1;
        }
        assert(s.take(s.len() as int) =~= s);
        out
    }

    /// Unlinks `item`, which must be in the list for anything to happen.
    #[verifier::spinoff_prover]
    #[verifier::rlimit(40)]
    pub fn remove(&mut self, item: u64) -> (r: Option<u64>)
        requires
            old(self).wf(),
        ensures
            final(self).wf(),
            !old(self).view().contains(item) ==> r is None && final(self).view() == old(self).view(),
            old(self).view().contains(item) ==> r == Some(item) && exists|k: int|
                0 <= k < old(self).view().len() && old(self).view()[k] == item && final(self).view() == old(self).view().remove(k),
    {
        let ghost s = self.order@;
        let l = self.links_of(item);
        if l.prev.is_none() && self.head != Some(item) {
            return None;
        }
        if l.next.is_none() && self.tail != Some(item) {
            return None;
        }
        proof {
            if !s.contains(item) {
                assert(s[0] != item);
            }
        }
        let ghost k = choose|k: int| 0 <= k < s.len() && s[k] == item;
        proof {
            assert(self.links@[s[k]] == links_at(s, k));
        }
        let ghost s2 = s.remove(k);
        let mut links = self.links.clone();
        assert(links@ == self.links@);
        links.remove(&item);
        let mut head = self.head;
        let mut tail = self.tail;
        match l.prev {
            Some(p) => {
                proof {
                    assert(p == s[k - 1]);
                    assert(self.links@[s[k - 1]] == links_at(s, k - 1));
                }
                let lp = *self.links.get(&p).unwrap();
                links.insert(p, Links { next: l.next, prev: lp.prev });
            },
            None => {
                head = l.next;
            },
        }
        match l.next {
            Some(n) => {
                proof {
                    assert(n == s[k + 1]);
                    assert(self.links@[s[k + 1]] == links_at(s, k + 1));
                    assert(n != item && (k > 0 ==> n != s[k - 1])) by {
                        assert(s.no_duplicates());
                    }
                }
                let ln = *self.links.get(&n).unwrap();
                links.insert(n, Links { next: ln.next, prev: l.prev });
            },
            None => {
                tail = l.prev;
            },
        }
        proof {
            assert(links@ == unlinked(self.links@, s, k));
            lemma_unlink(self.links@, s, k);
            if s2.len() > 0 {
                if k == 0 {
                    assert(s2[0] == s[1]);
                } else {
                    assert(s2[0] == s[0]);
                }
                if k == s.len() - 1 {
                    assert(s2.last() == s[k - 1]);
                } else {
                    assert(s2.last() == s.last());
                }
            }
        }
        let len = self.len - 1;
        *self = Self { head, tail, len, links, order: Ghost(s2) };
        Some(item)
    }

    /// Unlinks `item` if it is in the list.
    pub fn remove_checked(&mut self, item: u64) -> (r: Option<u64>)
        requires
            old(self).wf(),
        ensures
            final(self).wf(),
            !old(self).view().contains(item) ==> r is None && final(self).view() == old(self).view(),
            old(self).view().contains(item) ==> r == Some(item) && exists|k: int|
                0 <= k < old(self).view().len() && old(self).view()[k] == item && final(self).view() == old(self).view().remove(k),
    {
        if !self.contains(item) {
            return None;
        }
        self.remove(item)
    }
}

/// Pushing an element at the back and popping the back gives the element
/// and the list as it was.
pub proof fn lemma_push_back_pop_back(s: Seq<u64>, item: u64)
    ensures
        s.push(item).len() > 0,
        s.push(item).last() == item,
        s.push(item).drop_last() == s,
{
    assert(s.push(item).drop_last() =~= s);
}

/// Pushing an element at the front and popping the front gives the element
/// and the list as it was.
pub proof fn lemma_push_front_pop_front(s: Seq<u64>, item: u64)
    ensures
        (seq![item] + s).len() > 0,
        (seq![item] + s)[0] == item,
        (seq![item] + s).drop_first() == s,
{
    assert((seq![item] + s).drop_first() =~= s);
}

} // verus!
