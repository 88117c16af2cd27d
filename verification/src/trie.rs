//! A trie from key sequences to values, used to look up key mappings.
use vstd::prelude::*;

verus! {

/// Keys that a trie can compare.
pub trait TrieKey: Sized {
    fn same_key(&self, other: &Self) -> (r: bool)
        ensures
            r == (*self == *other),
    ;
}

impl TrieKey for char {
    fn same_key(&self, other: &Self) -> (r: bool) {
        *self == *other
    }
}

/// What a key leads to in a node's table.
pub enum TrieNodeSlot<K, V> {
    Value(V),
    Next(Box<TrieNode<K, V>>),
}

/// One level of a trie: each key with what it leads to.
pub struct TrieNode<K, V> {
    table: Vec<(K, TrieNodeSlot<K, V>)>,
}

/// only stores unique strings, without any common prefixes
pub struct Trie<K, V> {
    root: TrieNode<K, V>,
}

/// The part of a trie below a key that is a proper prefix of stored keys.
pub struct Subtrie<'a, K, V> {
    node: &'a TrieNode<K, V>,
}

pub enum GetResult<'a, K, V> {
    Subtrie(Subtrie<'a, K, V>),
    Value(&'a V),
}

/// Where a key leads in a trie: nowhere, to a node below it, or to a value.
pub enum Walk<K, V> {
    Missing,
    Node(TrieNode<K, V>),
    Leaf(V),
}

/// The position of the first occurrence of `k` in `keys`.
pub open spec fn first_index<K>(keys: Seq<K>, k: K) -> Option<int>
    decreases keys.len(),
{
    if keys.len() == 0 {
        None
    } else if keys[0] == k {
        Some(0)
    } else {
        match first_index(keys.drop_first(), k) {
            Some(i) => Some(i + 1),
            None => None,
        }
    }
}

proof fn lemma_first_index_bound<K>(keys: Seq<K>, k: K)
    ensures
        first_index(keys, k) matches Some(i) ==> 0 <= i < keys.len() && keys[i] == k,
    decreases keys.len(),
{
    if keys.len() > 0 {
        lemma_first_index_bound(keys.drop_first(), k);
    }
}

proof fn lemma_first_index_push<K>(keys: Seq<K>, k2: K, k: K)
    ensures
        first_index(keys.push(k2), k) == (match first_index(keys, k) {
            Some(i) => Some(i),
            None => if k2 == k {
                Some(keys.len() as int)
            } else {
                None
            },
        }),
    decreases keys.len(),
{
    if keys.len() > 0 {
        assert(keys.push(k2).drop_first() == keys.drop_first().push(k2));
        assert(keys.push(k2)[0] == keys[0]);
        lemma_first_index_push(keys.drop_first(), k2, k);
    } else {
        assert(keys.push(k2).drop_first() == Seq::<K>::empty());
        assert(keys.push(k2)[0] == k2);
        assert(first_index(Seq::<K>::empty(), k) is None);
    }
}

impl<K, V> TrieNode<K, V> {
    pub closed spec fn entries(self) -> Seq<(K, TrieNodeSlot<K, V>)> {
        self.table@
    }

    pub open spec fn keys(self) -> Seq<K> {
        self.entries().map_values(|e: (K, TrieNodeSlot<K, V>)| e.0)
    }

    /// One step down: where key `k` leads from this node.
    pub open spec fn step(self, k: K) -> Walk<K, V> {
        match first_index(self.keys(), k) {
            None => Walk::Missing,
            Some(i) => match self.entries()[i].1 {
                TrieNodeSlot::Value(v) => Walk::Leaf(v),
                TrieNodeSlot::Next(n) => Walk::Node(*n),
            },
        }
    }

    /// Where `key` leads from this node, one key at a time.
    pub open spec fn walk(self, key: Seq<K>) -> Walk<K, V>
        decreases key.len(),
    {
        if key.len() == 0 {
            Walk::Node(self)
        } else {
            match self.walk(key.drop_last()) {
                Walk::Node(n) => n.step(key.last()),
                _ => Walk::Missing,
            }
        }
    }

    /// The value stored under `key`, if any.
    pub open spec fn value_at(self, key: Seq<K>) -> Option<V> {
        match self.walk(key) {
            Walk::Leaf(v) => Some(v),
            _ => None,
        }
    }

    /// Whether `key` leads to a node (is a prefix of stored keys).
    pub open spec fn has_node(self, key: Seq<K>) -> bool {
        self.walk(key) is Node
    }

    /// `insert` can store a value under `key` without failing: no proper
    /// prefix of `key` holds a value, and `key` itself does not lead to a
    /// node.
    pub open spec fn insert_ok(self, key: Seq<K>) -> bool
        decreases key.len(),
    {
        key.len() > 0 && match first_index(self.keys(), key[0]) {
            None => true,
            Some(i) => match self.entries()[i].1 {
                TrieNodeSlot::Value(_) => key.len() == 1,
                TrieNodeSlot::Next(n) => key.len() > 1 && n.insert_ok(key.drop_first()),
            },
        }
    }

    fn empty() -> (r: Self)
        ensures
            r.entries() == Seq::<(K, TrieNodeSlot<K, V>)>::empty(),
    {
        TrieNode { table: Vec::new() }
    }
}

/// Walking from a node: the first key steps down, the rest walk on below.
proof fn lemma_walk_front<K, V>(node: TrieNode<K, V>, key: Seq<K>)
    requires
        key.len() > 0,
    ensures
        node.walk(key) == (match node.step(key[0]) {
            Walk::Node(c) => c.walk(key.drop_first()),
            Walk::Leaf(v) => if key.len() == 1 {
                Walk::Leaf(v)
            } else {
                Walk::Missing
            },
            Walk::Missing => Walk::Missing,
        }),
    decreases key.len(),
{
    if key.len() == 1 {
        assert(key.drop_last() == Seq::<K>::empty());
        assert(key.drop_first() == Seq::<K>::empty());
    } else {
        lemma_walk_front(node, key.drop_last());
        assert(key.drop_last()[0] == key[0]);
        assert(key.drop_last().drop_first() == key.drop_first().drop_last());
        assert(key.drop_first().last() == key.last());
        match node.step(key[0]) {
            Walk::Node(c) => {},
            Walk::Leaf(v) => {
                assert(key.drop_last().len() > 1 ==> node.walk(key.drop_last()) is Missing);
            },
            Walk::Missing => {},
        }
    }
}

/// An empty node holds no values and no nodes below it.
proof fn lemma_walk_empty<K, V>(node: TrieNode<K, V>, key: Seq<K>)
    requires
        node.entries().len() == 0,
    ensures
        node.walk(key) == (if key.len() == 0 {
            Walk::Node(node)
        } else {
            Walk::<K, V>::Missing
        }),
    decreases key.len(),
{
    if key.len() > 0 {
        lemma_walk_empty(node, key.drop_last());
    }
}

/// A walk along the first `j + 1` keys steps down on the first key and walks
/// the next `j` keys from there.
proof fn lemma_walk_take_front<K, V>(node: TrieNode<K, V>, key: Seq<K>, j: int)
    requires
        0 <= j < key.len(),
    ensures
        node.walk(key.take(j + 1)) == (match node.step(key[0]) {
            Walk::Node(c) => c.walk(key.drop_first().take(j)),
            Walk::Leaf(v) => if j == 0 {
                Walk::Leaf(v)
            } else {
                Walk::Missing
            },
            Walk::Missing => Walk::Missing,
        }),
{
    lemma_walk_front(node, key.take(j + 1));
    assert(key.take(j + 1).drop_first() =~= key.drop_first().take(j));
}

/// `insert` can store under `key` when `key` is not empty, does not lead to
/// a node, and none of its proper prefixes holds a value.
proof fn lemma_insert_ok_node<K, V>(node: TrieNode<K, V>, key: Seq<K>)
    requires
        key.len() > 0,
        !(node.walk(key) is Node),
        forall|j: int| 1 <= j < key.len() ==> !(#[trigger] node.walk(key.take(j)) is Leaf),
    ensures
        node.insert_ok(key),
    decreases key.len(),
{
    lemma_walk_front(node, key);
    match first_index(node.keys(), key[0]) {
        None => {},
        Some(i) => {
            lemma_first_index_bound(node.keys(), key[0]);
            match node.entries()[i].1 {
                TrieNodeSlot::Value(v) => {
                    if key.len() > 1 {
                        lemma_walk_take_front(node, key, 0);
                        assert(key.drop_first().take(0) =~= Seq::<K>::empty());
                        assert(node.walk(key.take(1)) is Leaf);
                    }
                },
                TrieNodeSlot::Next(n) => {
                    let rest = key.drop_first();
                    assert forall|j: int| 1 <= j < rest.len() implies !(#[trigger] n.walk(
                        rest.take(j),
                    ) is Leaf) by {
                        lemma_walk_take_front(node, key, j);
                        assert(!(node.walk(key.take(j + 1)) is Leaf));
                    }
                    lemma_insert_ok_node(*n, rest);
                },
            }
        },
    }
}

/// `insert` can store under `key` when `key` is not empty, is not a proper
/// prefix of a stored key, and no proper prefix of it holds a value.
pub proof fn lemma_insert_ok<K, V>(t: Trie<K, V>, key: Seq<K>)
    requires
        key.len() > 0,
        !t.has_node(key),
        forall|j: int| 1 <= j < key.len() ==> #[trigger] t.value_at(key.take(j)) is None,
    ensures
        t.root_node().insert_ok(key),
{
    assert forall|j: int| 1 <= j < key.len() implies !(#[trigger] t.root_node().walk(
        key.take(j),
    ) is Leaf) by {
        assert(t.value_at(key.take(j)) is None);
    }
    lemma_insert_ok_node(t.root_node(), key);
}

/// `p` is a proper prefix of `s`.
pub open spec fn is_proper_prefix<K>(p: Seq<K>, s: Seq<K>) -> bool {
    p.len() < s.len() && s.take(p.len() as int) == p
}

impl<K: TrieKey + Copy, V> TrieNode<K, V> {
    fn index_of_key(&self, key: &K) -> (r: Option<usize>)
        ensures
            r matches Some(i) ==> first_index(self.keys(), *key) == Some(i as int),
            r is None ==> first_index(self.keys(), *key) is None,
            r matches Some(i) ==> i < self.entries().len(),
    {
        let n = self.table.len();
        let mut i: usize = 0;
        assert(self.keys().skip(0) == self.keys());
        while i < n
            invariant
                n == self.table@.len(),
                i <= n,
                first_index(self.keys(), *key) == (match first_index(self.keys().skip(i as int), *key) {
                    Some(j) => Some(j + i),
                    None => None,
                }),
            decreases n - i,
        {
            assert(self.keys().skip(i as int).drop_first() == self.keys().skip(i + 1));
            if self.table[i].0.same_key(key) {
                return Some(i);
            }
            i = i + 1;
        }
        None
    }

    /// The node's part of `get`: walks `key` down from this node.
    pub fn get<'a>(&'a self, key: &[K]) -> (r: Option<GetResult<'a, K, V>>)
        ensures
            match self.walk(key@) {
                Walk::Missing => r is None,
                Walk::Node(n) => r matches Some(GetResult::Subtrie(s)) && s.node() == n,
                Walk::Leaf(v) => r matches Some(GetResult::Value(x)) && *x == v,
            },
    {
        let mut cur: Option<&'a TrieNode<K, V>> = Some(self);
        let mut value: Option<&'a V> = None;
        let n = key.len();
        let mut i: usize = 0;
        while i < n
            invariant
                n == key@.len(),
                i <= n,
                match self.walk(key@.take(i as int)) {
                    Walk::Node(m) => cur matches Some(c) && *c == m,
                    Walk::Leaf(v) => cur is None && (value matches Some(x) && *x == v),
                    Walk::Missing => false,
                },
            decreases n - i,
        {
            assert(key@.take(i + 1).drop_last() == key@.take(i as int));
            let current = match cur {
                Some(c) => c,
                None => {
                    proof {
                        assert(self.walk(key@.take(i + 1)) is Missing);
                        lemma_walk_missing_extends(*self, key@, i as int + 1);
                    }
                    return None;
                },
            };
            let idx = match current.index_of_key(&key[i]) {
                Some(idx) => idx,
                None => {
                    proof {
                        assert(self.walk(key@.take(i + 1)) is Missing);
                        lemma_walk_missing_extends(*self, key@, i as int + 1);
                    }
                    return None;
                },
            };
            match &current.table[idx].1 {
                TrieNodeSlot::Value(v) => {
                    cur = None;
                    value = Some(v);
                },
                TrieNodeSlot::Next(trie_node) => cur = Some(&**trie_node),
            }
            i = i + 1;
        }
        assert(key@.take(n as int) == key@);
        if let Some(cur) = cur {
            Some(GetResult::Subtrie(Subtrie { node: cur }))
        } else if let Some(v) = value {
            Some(GetResult::Value(v))
        } else {
            None
        }
    }
}

/// Once a walk is missing, every longer key is missing too.
proof fn lemma_walk_missing_extends<K, V>(node: TrieNode<K, V>, key: Seq<K>, i: int)
    requires
        0 <= i <= key.len(),
        node.walk(key.take(i)) is Missing,
    ensures
        node.walk(key) is Missing,
    decreases key.len() - i,
{
    if i == key.len() {
        assert(key.take(i) == key);
    } else {
        assert(key.take(i + 1).drop_last() == key.take(i));
        lemma_walk_missing_extends(node, key, i + 1);
    }
}


/// Two keys that start alike and go on alike are the same key.
proof fn lemma_cons_eq<K>(a: Seq<K>, b: Seq<K>)
    requires
        a.len() > 0,
        b.len() > 0,
        a[0] == b[0],
        a.drop_first() == b.drop_first(),
    ensures
        a == b,
{
    assert(a.len() == a.drop_first().len() + 1);
    assert(b.len() == b.drop_first().len() + 1);
    assert forall|i: int| 0 <= i < a.len() implies a[i] == b[i] by {
        if i > 0 {
            assert(a.drop_first()[i - 1] == a[i]);
            assert(b.drop_first()[i - 1] == b[i]);
        }
    }
    assert(a =~= b);
}

/// A proper prefix of a key that starts alike is a proper prefix of the rest.
proof fn lemma_proper_prefix_cons<K>(p: Seq<K>, s: Seq<K>)
    requires
        p.len() > 0,
        s.len() > 0,
        p[0] == s[0],
    ensures
        is_proper_prefix(p, s) <==> is_proper_prefix(p.drop_first(), s.drop_first()),
{
    if is_proper_prefix(p, s) {
        assert(s.drop_first().take(p.drop_first().len() as int) =~= p.drop_first());
    }
    if is_proper_prefix(p.drop_first(), s.drop_first()) {
        assert forall|i: int| 0 <= i < p.len() implies s.take(p.len() as int)[i] == p[i] by {
            if i > 0 {
                assert(s.drop_first().take(p.drop_first().len() as int)[i - 1] == p.drop_first()[i
                    - 1]);
            }
        }
        assert(s.take(p.len() as int) =~= p);
    }
}

impl<K: TrieKey + Copy, V> TrieNode<K, V> {
    /// Stores `v` under `key[pos..]` below this node.
    fn insert_rec(&mut self, key: &Vec<K>, pos: usize, v: V) -> (r: Option<V>)
        requires
            pos < key@.len(),
            old(self).insert_ok(key@.skip(pos as int)),
        ensures
            r == old(self).value_at(key@.skip(pos as int)),
            final(self).value_at(key@.skip(pos as int)) == Some(v),
            forall|k2: Seq<K>|
                k2 != key@.skip(pos as int) ==> #[trigger] final(self).value_at(k2) == old(
                    self,
                ).value_at(k2),
            forall|k2: Seq<K>|
                #[trigger] final(self).has_node(k2) <==> (old(self).has_node(k2) || is_proper_prefix(
                    k2,
                    key@.skip(pos as int),
                )),
        decreases key@.len() - pos,
    {
        let ghost s = key@.skip(pos as int);
        let ghost rest = key@.skip(pos + 1);
        let ghost old_node = *self;
        assert(s.drop_first() == rest);
        let k = key[pos];
        let n = key.len();
        let last = pos + 1 == n;
        proof {
            lemma_first_index_bound(self.keys(), k);
        }
        match self.index_of_key(&k) {
            Some(idx) => {
                let (kk, slot) = self.table.remove(idx);
                match slot {
                    TrieNodeSlot::Value(x) => {
                        if !last {
                            proof {
                                assert(false);
                            }
                            self.table.insert(idx, (kk, TrieNodeSlot::Value(x)));
                            return None;
                        }
                        self.table.insert(idx, (kk, TrieNodeSlot::Value(v)));
                        proof {
                            assert(self.entries() =~= old_node.entries().update(
                                idx as int,
                                (k, TrieNodeSlot::Value(v)),
                            ));
                            assert(self.keys() =~= old_node.keys());
                            assert forall|k2: Seq<K>|
                                #![trigger self.value_at(k2)]
                                #![trigger self.has_node(k2)]
                                k2 != s implies self.value_at(k2) == old_node.value_at(k2)
                                && (self.has_node(k2) <==> (old_node.has_node(k2)
                                || is_proper_prefix(k2, s))) by {
                                if k2.len() > 0 {
                                    lemma_walk_front(*self, k2);
                                    lemma_walk_front(old_node, k2);
                                    lemma_first_index_bound(old_node.keys(), k2[0]);
                                    if k2[0] == k {
                                        if k2.len() == 1 {
                                            assert(k2.drop_first() =~= s.drop_first());
                                            lemma_cons_eq(k2, s);
                                        }
                                    } else {
                                        assert(self.step(k2[0]) == old_node.step(k2[0]));
                                    }
                                }
                            }
                            assert(!self.has_node(s) && !old_node.has_node(s)) by {
                                lemma_walk_front(*self, s);
                                lemma_walk_front(old_node, s);
                            }
                            lemma_walk_front(*self, s);
                            lemma_walk_front(old_node, s);
                        }
                        Some(x)
                    },
                    TrieNodeSlot::Next(mut b) => {
                        if last {
                            proof {
                                assert(false);
                            }
                            self.table.insert(idx, (kk, TrieNodeSlot::Next(b)));
                            return None;
                        }
                        let ghost child = *b;
                        let r = b.insert_rec(key, pos + 1, v);
                        let ghost child2 = *b;
                        self.table.insert(idx, (kk, TrieNodeSlot::Next(b)));
                        proof {
                            assert(self.entries() =~= old_node.entries().update(
                                idx as int,
                                (k, TrieNodeSlot::Next(Box::new(child2))),
                            ));
                            assert(self.keys() =~= old_node.keys());
                            lemma_walk_front(*self, s);
                            lemma_walk_front(old_node, s);
                            assert forall|k2: Seq<K>|
                                k2 != s implies #[trigger] self.value_at(k2) == old_node.value_at(k2)
                                by {
                                if k2.len() > 0 {
                                    lemma_walk_front(*self, k2);
                                    lemma_walk_front(old_node, k2);
                                    lemma_first_index_bound(old_node.keys(), k2[0]);
                                    if k2[0] != k {
                                        assert(self.step(k2[0]) == old_node.step(k2[0]));
                                    }
                                    if k2[0] == k {
                                        assert(k2.drop_first() != rest) by {
                                            if k2.drop_first() == rest {
                                                lemma_cons_eq(k2, s);
                                            }
                                        }
                                        assert(child2.value_at(k2.drop_first()) == child.value_at(
                                            k2.drop_first(),
                                        ));
                                    }
                                }
                            }
                            assert forall|k2: Seq<K>|
                                #[trigger] self.has_node(k2) <==> (old_node.has_node(k2)
                                    || is_proper_prefix(k2, s)) by {
                                if k2.len() > 0 {
                                    lemma_walk_front(*self, k2);
                                    lemma_walk_front(old_node, k2);
                                    lemma_first_index_bound(old_node.keys(), k2[0]);
                                    if k2[0] != k {
                                        assert(self.step(k2[0]) == old_node.step(k2[0]));
                                    }
                                    if k2[0] == k {
                                        lemma_proper_prefix_cons(k2, s);
                                        assert(child2.has_node(k2.drop_first()) <==> (
                                        child.has_node(k2.drop_first()) || is_proper_prefix(
                                            k2.drop_first(),
                                            rest,
                                        )));
                                    }
                                }
                            }
                        }
                        r
                    },
                }
            },
            None => {
                if last {
                    self.table.push((k, TrieNodeSlot::Value(v)));
                    proof {
                        assert(self.entries() =~= old_node.entries().push(
                            (k, TrieNodeSlot::Value(v)),
                        ));
                        assert(self.keys() =~= old_node.keys().push(k));
                        assert forall|k2: Seq<K>|
                            k2.len() > 0 implies #[trigger] first_index(self.keys(), k2[0])
                            == first_index(old_node.keys(), k2[0]) || k2[0] == k by {
                            lemma_first_index_push(old_node.keys(), k, k2[0]);
                        }
                        lemma_first_index_push(old_node.keys(), k, k);
                        lemma_walk_front(*self, s);
                        lemma_walk_front(old_node, s);
                        assert(!self.has_node(s) && !old_node.has_node(s));
                        assert forall|k2: Seq<K>|
                            #![trigger self.value_at(k2)]
                            #![trigger self.has_node(k2)]
                            k2 != s implies self.value_at(k2) == old_node.value_at(k2)
                            && (self.has_node(k2) <==> (old_node.has_node(k2)
                            || is_proper_prefix(k2, s))) by {
                            if k2.len() > 0 {
                                lemma_walk_front(*self, k2);
                                lemma_walk_front(old_node, k2);
                                lemma_first_index_push(old_node.keys(), k, k2[0]);
                                lemma_first_index_bound(old_node.keys(), k2[0]);
                                if k2[0] != k {
                                    assert(self.step(k2[0]) == old_node.step(k2[0]));
                                } else if k2.len() == 1 {
                                    assert(k2.drop_first() =~= s.drop_first());
                                    lemma_cons_eq(k2, s);
                                }
                            }
                        }
                    }
                    None
                } else {
                    let mut b = Box::new(TrieNode::empty());
                    let ghost child = *b;
                    proof {
                        assert forall|k3: Seq<K>|
                            #![trigger child.walk(k3)]
                            true implies child.walk(k3) == (if k3.len() == 0 {
                                Walk::Node(child)
                            } else {
                                Walk::<K, V>::Missing
                            }) by {
                            lemma_walk_empty(child, k3);
                        }
                        assert(first_index(child.keys(), key@[pos + 1]) is None);
                        assert(rest[0] == key@[pos + 1]);
                    }
                    let r = b.insert_rec(key, pos + 1, v);
                    let ghost child2 = *b;
                    self.table.push((k, TrieNodeSlot::Next(b)));
                    proof {
                        assert(self.entries() =~= old_node.entries().push(
                            (k, TrieNodeSlot::Next(Box::new(child2))),
                        ));
                        assert(self.keys() =~= old_node.keys().push(k));
                        lemma_first_index_push(old_node.keys(), k, k);
                        lemma_walk_front(*self, s);
                        lemma_walk_front(old_node, s);
                        assert forall|k2: Seq<K>|
                            k2 != s implies #[trigger] self.value_at(k2) == old_node.value_at(k2)
                            by {
                            if k2.len() > 0 {
                                lemma_walk_front(*self, k2);
                                lemma_walk_front(old_node, k2);
                                lemma_first_index_push(old_node.keys(), k, k2[0]);
                                lemma_first_index_bound(old_node.keys(), k2[0]);
                                if k2[0] != k {
                                    assert(self.step(k2[0]) == old_node.step(k2[0]));
                                }
                                if k2[0] == k {
                                    assert(k2.drop_first() != rest) by {
                                        if k2.drop_first() == rest {
                                            lemma_cons_eq(k2, s);
                                        }
                                    }
                                    assert(child2.value_at(k2.drop_first()) == child.value_at(
                                        k2.drop_first(),
                                    ));
                                }
                            }
                        }
                        assert forall|k2: Seq<K>|
                            #[trigger] self.has_node(k2) <==> (old_node.has_node(k2)
                                || is_proper_prefix(k2, s)) by {
                            if k2.len() > 0 {
                                lemma_walk_front(*self, k2);
                                lemma_walk_front(old_node, k2);
                                lemma_first_index_push(old_node.keys(), k, k2[0]);
                                lemma_first_index_bound(old_node.keys(), k2[0]);
                                if k2[0] != k {
                                    assert(self.step(k2[0]) == old_node.step(k2[0]));
                                }
                                if k2[0] == k {
                                    lemma_proper_prefix_cons(k2, s);
                                    if k2.len() == 1 {
                                        assert(rest.take(0) =~= k2.drop_first());
                                    }
                                    assert(child2.has_node(k2.drop_first()) <==> (child.has_node(
                                        k2.drop_first(),
                                    ) || is_proper_prefix(k2.drop_first(), rest)));
                                }
                            } else {
                                assert(s.take(0) =~= k2);
                            }
                        }
                    }
                    r
                }
            },
        }
    }
}


impl<K, V> Trie<K, V> {
    pub closed spec fn root_node(self) -> TrieNode<K, V> {
        self.root
    }

    /// The value stored under `key`, if any.
    pub open spec fn value_at(self, key: Seq<K>) -> Option<V> {
        self.root_node().value_at(key)
    }

    /// Whether `key` is a prefix of stored keys (the empty key always is).
    pub open spec fn has_node(self, key: Seq<K>) -> bool {
        self.root_node().has_node(key)
    }

    pub fn new() -> (r: Self)
        ensures
            forall|key: Seq<K>| #[trigger] r.value_at(key) is None,
            forall|key: Seq<K>| #[trigger] r.has_node(key) <==> key.len() == 0,
    {
        let r = Self { root: TrieNode::empty() };
        proof {
            assert forall|key: Seq<K>| #[trigger] r.root.walk(key) == (if key.len() == 0 {
                Walk::Node(r.root)
            } else {
                Walk::<K, V>::Missing
            }) by {
                lemma_walk_empty(r.root, key);
            }
        }
        r
    }
}

impl<K, V> Default for Trie<K, V> {
    fn default() -> (r: Self)
        ensures
            forall|key: Seq<K>| #[trigger] r.value_at(key) is None,
            forall|key: Seq<K>| #[trigger] r.has_node(key) <==> key.len() == 0,
    {
        Self::new()
    }
}

impl<K: TrieKey + Copy, V> Trie<K, V> {
    /// Stores `v` under `key` and gives back the value it replaces.
    /// `key` must contain at least one item, no proper prefix of it may hold
    /// a value, and it must not be a proper prefix of a stored key.
    pub fn insert(&mut self, key: Vec<K>, v: V) -> (r: Option<V>)
        requires
            old(self).root_node().insert_ok(key@),
        ensures
            r == old(self).value_at(key@),
            final(self).value_at(key@) == Some(v),
            forall|k2: Seq<K>|
                k2 != key@ ==> #[trigger] final(self).value_at(k2) == old(self).value_at(k2),
            forall|k2: Seq<K>|
                #[trigger] final(self).has_node(k2) <==> (old(self).has_node(k2) || is_proper_prefix(
                    k2,
                    key@,
                )),
    {
        assert(key@.skip(0) == key@);
        self.root.insert_rec(&key, 0, v)
    }

    /// Looks `k` up: the value stored under it, the subtrie below it when it
    /// is a proper prefix of stored keys, or nothing.
    pub fn get<'a>(&'a self, k: &[K]) -> (r: Option<GetResult<'a, K, V>>)
        ensures
            match self.root_node().walk(k@) {
                Walk::Missing => r is None,
                Walk::Node(n) => r matches Some(GetResult::Subtrie(s)) && s.node() == n,
                Walk::Leaf(v) => r matches Some(GetResult::Value(x)) && *x == v,
            },
    {
        self.root.get(k)
    }
}

/// No stored key has another stored key or a node below it: once a key
/// holds a value, every longer key that starts with it leads nowhere.
pub proof fn law_nothing_below_a_value<K, V>(t: Trie<K, V>, key: Seq<K>, longer: Seq<K>)
    requires
        t.value_at(key) is Some,
        is_proper_prefix(key, longer),
    ensures
        t.value_at(longer) is None,
        !t.has_node(longer),
{
    let n = key.len() as int;
    assert(longer.take(n + 1).drop_last() =~= key);
    assert(t.root_node().walk(longer.take(n + 1)) is Missing);
    lemma_walk_missing_extends(t.root_node(), longer, n + 1);
}


impl<K: TrieKey + Copy, V> Trie<K, V> {
    /// Whether `insert(key, _)` can run: checks `insert_ok`.
    pub fn can_insert(&self, key: &[K]) -> (r: bool)
        ensures
            r == self.root_node().insert_ok(key@),
    {
        let n = key.len();
        if n == 0 {
            return false;
        }
        let mut cur: &TrieNode<K, V> = &self.root;
        let mut i: usize = 0;
        assert(key@.skip(0) == key@);
        while i < n
            invariant
                n == key@.len(),
                i < n,
                self.root_node().insert_ok(key@) == cur.insert_ok(key@.skip(i as int)),
            decreases n - i,
        {
            let ghost s = key@.skip(i as int);
            assert(s[0] == key@[i as int]);
            assert(s.drop_first() == key@.skip(i + 1));
            let idx = match cur.index_of_key(&key[i]) {
                Some(idx) => idx,
                None => {
                    return true;
                },
            };
            match &cur.table[idx].1 {
                TrieNodeSlot::Value(_) => {
                    return i + 1 == n;
                },
                TrieNodeSlot::Next(next) => {
                    if i + 1 == n {
                        return false;
                    }
                    cur = &**next;
                },
            }
            i = i + 1;
        }
        false
    }
}

impl<'a, K, V> Subtrie<'a, K, V> {
    pub closed spec fn node(self) -> TrieNode<K, V> {
        *self.node
    }
}

} // verus!
