//! A map that keeps its entries in key order.
//!
//! Keys are looked up by a borrowed form, and a walk by position visits the
//! entries in ascending key order.

use vstd::prelude::*;

verus! {

/// Where a probe stands relative to a key.
#[derive(Clone, Copy, PartialEq, Eq, Debug)]
pub enum Placement {
    Before,
    Same,
    After,
}

/// What a map can be keyed by.
pub trait OrderedKey: Sized {
    /// The mathematical value of a key.
    type Model;

    /// The borrowed form in which a key is looked up.
    type Probe: ?Sized;

    spec fn model(&self) -> Self::Model;

    spec fn probed(probe: &Self::Probe) -> Self::Model;

    /// The strict order of the keys.
    spec fn before(a: Self::Model, b: Self::Model) -> bool;

    proof fn irreflexive(a: Self::Model)
        ensures
            !Self::before(a, a),
    ;

    proof fn transitive(a: Self::Model, b: Self::Model, c: Self::Model)
        requires
            Self::before(a, b),
            Self::before(b, c),
        ensures
            Self::before(a, c),
    ;

    proof fn total(a: Self::Model, b: Self::Model)
        ensures
            Self::before(a, b) || a == b || Self::before(b, a),
    ;

    fn place(probe: &Self::Probe, key: &Self) -> (placement: Placement)
        ensures
            match placement {
                Placement::Before => Self::before(Self::probed(probe), key.model()),
                Placement::Same => Self::probed(probe) == key.model(),
                Placement::After => Self::before(key.model(), Self::probed(probe)),
            },
    ;

    fn probe(&self) -> (probe: &Self::Probe)
        ensures
            Self::probed(probe) == self.model(),
    ;
}

/// `a` and `b` agree up to `i`, where `a` ends or holds the smaller byte.
pub open spec fn splits_at(a: Seq<u8>, b: Seq<u8>, i: int) -> bool {
    &&& 0 <= i <= a.len()
    &&& i < b.len()
    &&& forall|k: int| 0 <= k < i ==> a[k] == b[k]
    &&& i < a.len() ==> a[i] < b[i]
}

/// The lexicographic order of byte strings.
pub open spec fn bytes_before(a: Seq<u8>, b: Seq<u8>) -> bool {
    exists|i: int| splits_at(a, b, i)
}

pub proof fn lemma_bytes_transitive(a: Seq<u8>, b: Seq<u8>, c: Seq<u8>)
    requires
        bytes_before(a, b),
        bytes_before(b, c),
    ensures
        bytes_before(a, c),
{
    let i = choose|i: int| splits_at(a, b, i);
    let j = choose|j: int| splits_at(b, c, j);
    assert(splits_at(a, c, if i <= j { i } else { j }));
}

pub proof fn lemma_bytes_total(a: Seq<u8>, b: Seq<u8>)
    ensures
        bytes_before(a, b) || a == b || bytes_before(b, a),
    decreases a.len(),
{
    if a.len() == 0 {
        if b.len() == 0 {
            assert(a =~= b);
        } else {
            assert(splits_at(a, b, 0));
        }
    } else if b.len() == 0 || b[0] < a[0] {
        assert(splits_at(b, a, 0));
    } else if a[0] < b[0] {
        assert(splits_at(a, b, 0));
    } else {
        let at = a.drop_first();
        let bt = b.drop_first();
        lemma_bytes_total(at, bt);
        if at == bt {
            assert(a =~= seq![a[0]] + at);
            assert(b =~= seq![b[0]] + bt);
        } else if bytes_before(at, bt) {
            let i = choose|i: int| splits_at(at, bt, i);
            assert forall|k: int| 0 <= k < i + 1 implies a[k] == b[k] by {
                if k > 0 {
                    assert(at[k - 1] == bt[k - 1]);
                }
            }
            assert(splits_at(a, b, i + 1));
        } else {
            let i = choose|i: int| splits_at(bt, at, i);
            assert forall|k: int| 0 <= k < i + 1 implies b[k] == a[k] by {
                if k > 0 {
                    assert(bt[k - 1] == at[k - 1]);
                }
            }
            assert(splits_at(b, a, i + 1));
        }
    }
}

/// Compares two byte strings lexicographically.
pub fn place_bytes(a: &[u8], b: &[u8]) -> (placement: Placement)
    ensures
        match placement {
            Placement::Before => bytes_before(a@, b@),
            Placement::Same => a@ == b@,
            Placement::After => bytes_before(b@, a@),
        },
{
    let mut i: usize = 0;
    while i < a.len() && i < b.len()
        invariant
            i <= a@.len(),
            i <= b@.len(),
            forall|k: int| 0 <= k < i ==> a@[k] == b@[k],
        decreases a@.len() - i,
    {
        if a[i] < b[i] {
            assert(splits_at(a@, b@, i as int));
            return Placement::Before;
        }
        if b[i] < a[i] {
            assert(splits_at(b@, a@, i as int));
            return Placement::After;
        }
        i = i + 1;
    }
    if i < b.len() {
        assert(splits_at(a@, b@, i as int));
        Placement::Before
    } else if i < a.len() {
        assert(splits_at(b@, a@, i as int));
        Placement::After
    } else {
        assert(a@ =~= b@);
        Placement::Same
    }
}

/// Byte strings, in lexicographic order.
impl OrderedKey for Vec<u8> {
    type Model = Seq<u8>;

    type Probe = [u8];

    open spec fn model(&self) -> Seq<u8> {
        self@
    }

    open spec fn probed(probe: &[u8]) -> Seq<u8> {
        probe@
    }

    open spec fn before(a: Seq<u8>, b: Seq<u8>) -> bool {
        bytes_before(a, b)
    }

    proof fn irreflexive(a: Seq<u8>) {
    }

    proof fn transitive(a: Seq<u8>, b: Seq<u8>, c: Seq<u8>) {
        lemma_bytes_transitive(a, b, c);
    }

    proof fn total(a: Seq<u8>, b: Seq<u8>) {
        lemma_bytes_total(a, b);
    }

    fn place(probe: &[u8], key: &Vec<u8>) -> (placement: Placement) {
        place_bytes(probe, key.as_slice())
    }

    fn probe(&self) -> (probe: &[u8]) {
        self.as_slice()
    }
}

/// The order of texts: that of their UTF-8 bytes.
pub open spec fn text_before(a: Seq<char>, b: Seq<char>) -> bool {
    bytes_before(vstd::utf8::encode_utf8(a), vstd::utf8::encode_utf8(b))
}

/// Texts, in the order of their UTF-8 bytes.
impl OrderedKey for String {
    type Model = Seq<char>;

    type Probe = str;

    open spec fn model(&self) -> Seq<char> {
        self@
    }

    open spec fn probed(probe: &str) -> Seq<char> {
        probe@
    }

    open spec fn before(a: Seq<char>, b: Seq<char>) -> bool {
        text_before(a, b)
    }

    proof fn irreflexive(a: Seq<char>) {
    }

    proof fn transitive(a: Seq<char>, b: Seq<char>, c: Seq<char>) {
        lemma_bytes_transitive(
            vstd::utf8::encode_utf8(a),
            vstd::utf8::encode_utf8(b),
            vstd::utf8::encode_utf8(c),
        );
    }

    proof fn total(a: Seq<char>, b: Seq<char>) {
        lemma_bytes_total(vstd::utf8::encode_utf8(a), vstd::utf8::encode_utf8(b));
        if vstd::utf8::encode_utf8(a) == vstd::utf8::encode_utf8(b) {
            crate::text::lemma_utf8_injective(a, b);
        }
    }

    fn place(probe: &str, key: &String) -> (placement: Placement) {
        let text = key.as_str();
        let placement = place_bytes(probe.as_bytes(), text.as_bytes());
        proof {
            if placement is Same {
                crate::text::lemma_utf8_injective(probe@, text@);
            }
        }
        placement
    }

    fn probe(&self) -> (probe: &str) {
        self.as_str()
    }
}

/// Numbers, in ascending order.
impl OrderedKey for u64 {
    type Model = u64;

    type Probe = u64;

    open spec fn model(&self) -> u64 {
        *self
    }

    open spec fn probed(probe: &u64) -> u64 {
        *probe
    }

    open spec fn before(a: u64, b: u64) -> bool {
        a < b
    }

    proof fn irreflexive(a: u64) {
    }

    proof fn transitive(a: u64, b: u64, c: u64) {
    }

    proof fn total(a: u64, b: u64) {
    }

    fn place(probe: &u64, key: &u64) -> (placement: Placement) {
        if *probe < *key {
            Placement::Before
        } else if *key < *probe {
            Placement::After
        } else {
            Placement::Same
        }
    }

    fn probe(&self) -> (probe: &u64) {
        self
    }
}

/// Whether `keys` ascend strictly.
pub open spec fn ascending<K: OrderedKey>(keys: Seq<K::Model>) -> bool {
    forall|i: int, j: int| 0 <= i < j < keys.len() ==> #[trigger] K::before(keys[i], keys[j])
}

/// The members of a finite set of keys, in ascending order.
pub open spec fn in_order<K: OrderedKey>(keys: Set<K::Model>) -> Seq<K::Model> {
    choose|s: Seq<K::Model>| ascending::<K>(s) && s.to_set() == keys
}

/// Where a key that ascending keys do not hold belongs among them.
proof fn lemma_place_of<K: OrderedKey>(keys: Seq<K::Model>, key: K::Model) -> (i: int)
    requires
        ascending::<K>(keys),
        !keys.contains(key),
    ensures
        0 <= i <= keys.len(),
        forall|j: int| 0 <= j < i ==> K::before(#[trigger] keys[j], key),
        forall|j: int| i <= j < keys.len() ==> K::before(key, #[trigger] keys[j]),
    decreases keys.len(),
{
    if keys.len() == 0 {
        0
    } else {
        let last = keys.last();
        assert(keys.contains(last));
        K::total(last, key);
        if K::before(last, key) {
            assert forall|j: int| 0 <= j < keys.len() implies K::before(#[trigger] keys[j], key) by {
                if j < keys.len() - 1 {
                    assert(K::before(keys[j], keys[keys.len() - 1]));
                    K::transitive(keys[j], last, key);
                }
            }
            keys.len() as int
        } else {
            let rest = keys.drop_last();
            assert(ascending::<K>(rest)) by {
                assert forall|i: int, j: int| 0 <= i < j < rest.len() implies #[trigger] K::before(
                    rest[i],
                    rest[j],
                ) by {
                    assert(K::before(keys[i], keys[j]));
                }
            }
            assert(!rest.contains(key)) by {
                if rest.contains(key) {
                    let k = choose|k: int| 0 <= k < rest.len() && rest[k] == key;
                    assert(keys[k] == key);
                }
            }
            let i = lemma_place_of::<K>(rest, key);
            assert forall|j: int| 0 <= j < i implies K::before(#[trigger] keys[j], key) by {
                assert(rest[j] == keys[j]);
            }
            assert forall|j: int| i <= j < keys.len() implies K::before(key, #[trigger] keys[j]) by {
                if j < keys.len() - 1 {
                    assert(rest[j] == keys[j]);
                }
            }
            i
        }
    }
}

proof fn lemma_sorted<K: OrderedKey>(keys: Set<K::Model>) -> (sorted: Seq<K::Model>)
    requires
        keys.finite(),
    ensures
        ascending::<K>(sorted),
        sorted.to_set() == keys,
    decreases keys.len(),
{
    if keys.len() == 0 {
        assert(Seq::<K::Model>::empty().to_set() =~= keys);
        Seq::empty()
    } else {
        let key = keys.choose();
        let rest = lemma_sorted::<K>(keys.remove(key));
        assert(rest.contains(key) == rest.to_set().contains(key));
        let at = lemma_place_of::<K>(rest, key);
        let sorted = rest.insert(at, key);
        assert forall|i: int, j: int| 0 <= i < j < sorted.len() implies #[trigger] K::before(
            sorted[i],
            sorted[j],
        ) by {
            let a = if i < at {
                i
            } else {
                i - 1
            };
            let b = if j < at {
                j
            } else {
                j - 1
            };
            if i == at {
                assert(sorted[j] == rest[b]);
            } else if j == at {
                assert(sorted[i] == rest[a]);
            } else {
                assert(sorted[i] == rest[a] && sorted[j] == rest[b]);
                assert(K::before(rest[a], rest[b]));
            }
        }
        assert forall|k: K::Model| sorted.to_set().contains(k) <==> keys.contains(k) by {
            assert(rest.to_set().contains(k) == rest.contains(k));
            assert(sorted.to_set().contains(k) == sorted.contains(k));
            if sorted.contains(k) {
                let i = choose|i: int| 0 <= i < sorted.len() && sorted[i] == k;
                if i < at {
                    assert(rest[i] == k);
                } else if i > at {
                    assert(rest[i - 1] == k);
                }
            }
            if rest.contains(k) {
                let i = choose|i: int| 0 <= i < rest.len() && rest[i] == k;
                assert(sorted[if i < at {
                    i
                } else {
                    i + 1
                }] == k);
            }
            if k == key {
                assert(sorted[at] == k);
            }
        }
        assert(sorted.to_set() =~= keys);
        sorted
    }
}

/// Every finite set of keys can be put in order.
pub proof fn lemma_in_order_of<K: OrderedKey>(keys: Set<K::Model>)
    requires
        keys.finite(),
    ensures
        ascending::<K>(in_order::<K>(keys)),
        in_order::<K>(keys).to_set() == keys,
        forall|k: K::Model| #[trigger] in_order::<K>(keys).contains(k) <==> keys.contains(k),
{
    let sorted = lemma_sorted::<K>(keys);
    assert(ascending::<K>(sorted) && sorted.to_set() == keys);
    assert forall|k: K::Model| #[trigger] in_order::<K>(keys).contains(k) <==> keys.contains(k) by {
        assert(in_order::<K>(keys).to_set().contains(k) == in_order::<K>(keys).contains(k));
    }
}

/// A filter keeps the members that it is asked for.
pub proof fn lemma_filter_members<A>(s: Seq<A>, pred: spec_fn(A) -> bool, a: A)
    ensures
        s.filter(pred).contains(a) <==> s.contains(a) && pred(a),
{
    if s.filter(pred).contains(a) {
        s.lemma_filter_contains_rev(pred, a);
        let k = choose|k: int| 0 <= k < s.filter(pred).len() && s.filter(pred)[k] == a;
        s.lemma_filter_pred(pred, k);
    }
    if s.contains(a) && pred(a) {
        let k = choose|k: int| 0 <= k < s.len() && s[k] == a;
        s.lemma_filter_contains(pred, k);
    }
}

/// Ascending keys differ from each other.
pub proof fn lemma_ascending_distinct<K: OrderedKey>(s: Seq<K::Model>)
    requires
        ascending::<K>(s),
    ensures
        s.no_duplicates(),
{
    assert forall|i: int, j: int| 0 <= i < s.len() && 0 <= j < s.len() && i != j implies s[i]
        != s[j] by {
        K::irreflexive(s[i]);
        if i < j {
            assert(K::before(s[i], s[j]));
        } else {
            assert(K::before(s[j], s[i]));
        }
    }
}

/// What is left of ascending keys ascends.
pub proof fn lemma_ascending_filter<K: OrderedKey>(
    s: Seq<K::Model>,
    pred: spec_fn(K::Model) -> bool,
)
    requires
        ascending::<K>(s),
    ensures
        ascending::<K>(s.filter(pred)),
        s.filter(pred).no_duplicates(),
    decreases s.len(),
{
    reveal(Seq::filter);
    if s.len() > 0 {
        let rest = s.drop_last();
        assert(ascending::<K>(rest)) by {
            assert forall|i: int, j: int| 0 <= i < j < rest.len() implies #[trigger] K::before(
                rest[i],
                rest[j],
            ) by {
                assert(K::before(s[i], s[j]));
            }
        }
        lemma_ascending_filter::<K>(rest, pred);
        let kept = rest.filter(pred);
        let all = s.filter(pred);
        assert forall|i: int, j: int| 0 <= i < j < all.len() implies #[trigger] K::before(
            all[i],
            all[j],
        ) by {
            if j < kept.len() {
                assert(K::before(kept[i], kept[j]));
            } else {
                assert(kept.contains(kept[i]));
                lemma_filter_members(rest, pred, kept[i]);
                let k = choose|k: int| 0 <= k < rest.len() && rest[k] == kept[i];
                assert(K::before(s[k], s[s.len() - 1]));
            }
        }
    }
    lemma_ascending_distinct::<K>(s.filter(pred));
}

/// An ascending sequence is determined by its members.
pub proof fn lemma_ascending_unique<K: OrderedKey>(a: Seq<K::Model>, b: Seq<K::Model>)
    requires
        ascending::<K>(a),
        ascending::<K>(b),
        a.to_set() == b.to_set(),
    ensures
        a == b,
    decreases a.len(),
{
    assert forall|k: K::Model| #[trigger] a.contains(k) <==> b.contains(k) by {
        assert(a.to_set().contains(k) == a.contains(k));
        assert(b.to_set().contains(k) == b.contains(k));
    }
    if a.len() == 0 {
        if b.len() > 0 {
            assert(b.contains(b[0]));
            assert(!a.contains(b[0]));
        }
        assert(a =~= b);
    } else {
        assert(a.contains(a[0]));
        assert(b.len() > 0);
        assert(b.contains(b[0]));
        assert(a.contains(b[0]));
        let p = choose|p: int| 0 <= p < b.len() && b[p] == a[0];
        let q = choose|q: int| 0 <= q < a.len() && a[q] == b[0];
        if p > 0 {
            assert(K::before(b[0], b[p]));
            if q > 0 {
                assert(K::before(a[0], a[q]));
                K::transitive(a[0], a[q], a[0]);
            }
            K::irreflexive(a[0]);
        }
        assert(a[0] == b[0]);
        let at = a.drop_first();
        let bt = b.drop_first();
        assert(ascending::<K>(at)) by {
            assert forall|i: int, j: int| 0 <= i < j < at.len() implies #[trigger] K::before(at[i], at[j]) by {
                assert(K::before(a[i + 1], a[j + 1]));
            }
        }
        assert(ascending::<K>(bt)) by {
            assert forall|i: int, j: int| 0 <= i < j < bt.len() implies #[trigger] K::before(bt[i], bt[j]) by {
                assert(K::before(b[i + 1], b[j + 1]));
            }
        }
        assert forall|k: K::Model| at.contains(k) implies bt.contains(k) by {
            let i = choose|i: int| 0 <= i < at.len() && at[i] == k;
            assert(a[i + 1] == k);
            assert(K::before(a[0], a[i + 1]));
            K::irreflexive(a[0]);
            assert(a.contains(k));
            assert(b.contains(k));
            let m = choose|m: int| 0 <= m < b.len() && b[m] == k;
            assert(bt[m - 1] == k);
        }
        assert forall|k: K::Model| bt.contains(k) implies at.contains(k) by {
            let i = choose|i: int| 0 <= i < bt.len() && bt[i] == k;
            assert(b[i + 1] == k);
            assert(K::before(b[0], b[i + 1]));
            K::irreflexive(b[0]);
            assert(a.contains(k));
            let m = choose|m: int| 0 <= m < a.len() && a[m] == k;
            assert(at[m - 1] == k);
        }
        assert(at.to_set() =~= bt.to_set());
        lemma_ascending_unique::<K>(at, bt);
        assert(a =~= seq![a[0]] + at);
        assert(b =~= seq![b[0]] + bt);
    }
}

/// Mapping the values of a map commutes with an insertion.
pub proof fn lemma_map_insert<A, V, W>(map: Map<A, V>, key: A, value: V, f: spec_fn(V) -> W)
    ensures
        map.insert(key, value).map_values(f) == map.map_values(f).insert(key, f(value)),
{
    assert(map.insert(key, value).map_values(f) =~= map.map_values(f).insert(key, f(value)));
}

/// Mapping the values of a map commutes with a removal.
pub proof fn lemma_map_remove<A, V, W>(map: Map<A, V>, key: A, f: spec_fn(V) -> W)
    ensures
        map.remove(key).map_values(f) == map.map_values(f).remove(key),
{
    assert(map.remove(key).map_values(f) =~= map.map_values(f).remove(key));
}

/// A map whose entries are kept in ascending key order.
#[derive(Debug, PartialEq, Eq)]
pub struct SortedMap<K, V> {
    entries: Vec<(K, V)>,
}

impl<K: OrderedKey, V> SortedMap<K, V> {
    /// The keys, in the order in which the entries are kept.
    pub closed spec fn keys(&self) -> Seq<K::Model> {
        Seq::new(self.entries@.len(), |i: int| self.entries@[i].0.model())
    }

    /// The keys ascend strictly.
    pub closed spec fn wf(&self) -> bool {
        ascending::<K>(self.keys())
    }

    pub closed spec fn view(&self) -> Map<K::Model, V> {
        Map::new(
            |k: K::Model| self.keys().contains(k),
            |k: K::Model| self.entries@[self.keys().index_of(k)].1,
        )
    }

    proof fn lemma_position(&self, i: int)
        requires
            self.wf(),
            0 <= i < self.entries@.len(),
        ensures
            self@.dom().contains(self.keys()[i]),
            self@[self.keys()[i]] == self.entries@[i].1,
            self.keys().index_of(self.keys()[i]) == i,
    {
        let keys = self.keys();
        assert(keys.contains(keys[i]));
        let p = keys.index_of(keys[i]);
        assert(0 <= p < keys.len() && keys[p] == keys[i]);
        if p < i {
            assert(K::before(keys[p], keys[i]));
            K::irreflexive(keys[i]);
        } else if i < p {
            assert(K::before(keys[i], keys[p]));
            K::irreflexive(keys[i]);
        }
    }

    /// Replacing the value of one entry keeps the order and inserts in the map.
    proof fn lemma_replaced(&self, changed: &Self, i: int)
        requires
            self.wf(),
            0 <= i < self.entries@.len(),
            changed.entries@ == self.entries@.update(i, (self.entries@[i].0, changed.entries@[i].1)),
        ensures
            changed.wf(),
            changed@ == self@.insert(self.keys()[i], changed.entries@[i].1),
    {
        assert(changed.keys() =~= self.keys());
        self.lemma_position(i);
        assert forall|k: K::Model| #[trigger] changed@.dom().contains(k) implies changed@[k]
            == self@.insert(self.keys()[i], changed.entries@[i].1)[k] by {
            let p = self.keys().index_of(k);
            self.lemma_position(p);
            changed.lemma_position(p);
            assert(k == self.keys()[p]);
            if p != i {
                assert(changed.entries@[p] == self.entries@[p]);
            }
        }
        assert(changed@ =~= self@.insert(self.keys()[i], changed.entries@[i].1));
    }

    /// The entries are kept in the order of the map's keys, each once.
    pub proof fn lemma_in_order(&self)
        requires
            self.wf(),
        ensures
            self.keys() == in_order::<K>(self@.dom()),
            ascending::<K>(self.keys()),
            self.keys().no_duplicates(),
            self.keys().to_set() == self@.dom(),
            self@.dom().finite(),
            self@.len() == self.keys().len(),
    {
        let keys = self.keys();
        assert(keys.to_set() =~= self@.dom());
        let chosen = in_order::<K>(self@.dom());
        assert(ascending::<K>(keys) && keys.to_set() == self@.dom());
        assert(ascending::<K>(chosen) && chosen.to_set() == self@.dom());
        lemma_ascending_unique::<K>(keys, chosen);
        assert forall|i: int, j: int| 0 <= i < keys.len() && 0 <= j < keys.len() && i != j implies keys[i]
            != keys[j] by {
            self.lemma_position(i);
            self.lemma_position(j);
        }
        keys.unique_seq_to_set();
        vstd::seq_lib::seq_to_set_is_finite(keys);
    }

    pub fn new() -> (map: Self)
        ensures
            map.wf(),
            map@ == Map::<K::Model, V>::empty(),
    {
        let map = SortedMap { entries: Vec::new() };
        assert(map@ =~= Map::<K::Model, V>::empty());
        map
    }

    pub fn len(&self) -> (len: usize)
        requires
            self.wf(),
        ensures
            len == self@.len(),
            self@.dom().finite(),
            len == self.keys().len(),
    {
        proof {
            self.lemma_in_order();
        }
        self.entries.len()
    }

    pub fn is_empty(&self) -> (empty: bool)
        requires
            self.wf(),
        ensures
            empty == (self@ =~= Map::<K::Model, V>::empty()),
    {
        proof {
            self.lemma_in_order();
            if self.entries@.len() > 0 {
                self.lemma_position(0);
            }
        }
        self.entries.len() == 0
    }

    /// The position of the probed key, or the one at which it belongs.
    fn find(&self, probe: &K::Probe) -> (at: (usize, bool))
        requires
            self.wf(),
        ensures
            at.0 <= self.entries@.len(),
            at.1 ==> at.0 < self.entries@.len() && self.keys()[at.0 as int] == K::probed(probe),
            at.1 == self@.dom().contains(K::probed(probe)),
            !at.1 ==> forall|i: int|
                0 <= i < at.0 ==> K::before(#[trigger] self.keys()[i], K::probed(probe)),
            !at.1 ==> forall|i: int|
                at.0 <= i < self.entries@.len() ==> K::before(
                    K::probed(probe),
                    #[trigger] self.keys()[i],
                ),
    {
        let ghost keys = self.keys();
        let ghost sought = K::probed(probe);
        let mut low: usize = 0;
        let mut high: usize = self.entries.len();
        while low < high
            invariant
                self.wf(),
                keys == self.keys(),
                sought == K::probed(probe),
                keys.len() == self.entries@.len(),
                low <= high <= keys.len(),
                forall|i: int| 0 <= i < low ==> K::before(#[trigger] keys[i], sought),
                forall|i: int| high <= i < keys.len() ==> K::before(sought, #[trigger] keys[i]),
            decreases high - low,
        {
            let middle: usize = low + (high - low) / 2;
            assert(keys[middle as int] == self.entries@[middle as int].0.model());
            match K::place(probe, &self.entries[middle].0) {
                Placement::Same => {
                    proof {
                        self.lemma_position(middle as int);
                    }
                    return (middle, true);
                },
                Placement::Before => {
                    proof {
                        assert forall|i: int| middle <= i < keys.len() implies K::before(sought, #[trigger] keys[i]) by {
                            if middle < i {
                                assert(K::before(keys[middle as int], keys[i]));
                                K::transitive(sought, keys[middle as int], keys[i]);
                            }
                        }
                    }
                    high = middle;
                },
                Placement::After => {
                    proof {
                        assert forall|i: int| 0 <= i <= middle implies K::before(#[trigger] keys[i], sought) by {
                            if i < middle {
                                assert(K::before(keys[i], keys[middle as int]));
                                K::transitive(keys[i], keys[middle as int], sought);
                            }
                        }
                    }
                    low = middle + 1;
                },
            }
        }
        proof {
            if keys.contains(sought) {
                let i = choose|i: int| 0 <= i < keys.len() && keys[i] == sought;
                K::irreflexive(sought);
                assert(K::before(keys[i], sought) || K::before(sought, keys[i]));
            }
        }
        (low, false)
    }

    pub fn contains_key(&self, probe: &K::Probe) -> (found: bool)
        requires
            self.wf(),
        ensures
            found == self@.dom().contains(K::probed(probe)),
    {
        self.find(probe).1
    }

    pub fn get(&self, probe: &K::Probe) -> (value: Option<&V>)
        requires
            self.wf(),
        ensures
            match value {
                Some(found) => self@.dom().contains(K::probed(probe)) && *found == self@[K::probed(
                    probe,
                )],
                None => !self@.dom().contains(K::probed(probe)),
            },
    {
        let (i, found) = self.find(probe);
        if found {
            proof {
                self.lemma_position(i as int);
            }
            Some(&self.entries[i].1)
        } else {
            None
        }
    }

    pub fn get_mut(&mut self, probe: &K::Probe) -> (value: Option<&mut V>)
        requires
            old(self).wf(),
        ensures
            final(self).wf(),
            match value {
                Some(found) => {
                    &&& old(self)@.dom().contains(K::probed(probe))
                    &&& *found == old(self)@[K::probed(probe)]
                    &&& final(self)@ == old(self)@.insert(K::probed(probe), *final(found))
                },
                None => !old(self)@.dom().contains(K::probed(probe)) && *final(self) == *old(self),
            },
    {
        let (i, found) = self.find(probe);
        if found {
            proof {
                self.lemma_position(i as int);
                let before = *self;
                assert forall|changed: Self|
                    #![trigger changed.wf()]
                    #![trigger changed.view()]
                    changed.entries@ == before.entries@.update(
                        i as int,
                        (before.entries@[i as int].0, changed.entries@[i as int].1),
                    ) implies changed.wf() && changed@ == before@.insert(
                    before.keys()[i as int],
                    changed.entries@[i as int].1,
                ) by {
                    before.lemma_replaced(&changed, i as int);
                }
            }
            Some(&mut self.entries[i].1)
        } else {
            None
        }
    }

    pub fn insert(&mut self, key: K, value: V) -> (previous: Option<V>)
        requires
            old(self).wf(),
        ensures
            final(self).wf(),
            final(self)@ == old(self)@.insert(key.model(), value),
            match previous {
                Some(v) => old(self)@.dom().contains(key.model()) && v == old(self)@[key.model()],
                None => !old(self)@.dom().contains(key.model()),
            },
    {
        let ghost before = *self;
        let (i, found) = self.find(key.probe());
        if found {
            let displaced = self.entries.remove(i);
            self.entries.insert(i, (key, value));
            proof {
                before.lemma_position(i as int);
                assert(self.keys() =~= before.keys());
                assert forall|k: K::Model| #[trigger] self@.dom().contains(k) implies self@[k]
                    == before@.insert(key.model(), value)[k] by {
                    let p = before.keys().index_of(k);
                    before.lemma_position(p);
                    self.lemma_position(p);
                }
                assert(self@ =~= before@.insert(key.model(), value));
            }
            Some(displaced.1)
        } else {
            self.entries.insert(i, (key, value));
            proof {
                let k0 = key.model();
                let keys = self.keys();
                let old_keys = before.keys();
                assert forall|a: int, b: int| 0 <= a < b < keys.len() implies #[trigger] K::before(keys[a], keys[b]) by {
                    let ai = if a < i { a } else { a - 1 };
                    let bi = if b < i { b } else { b - 1 };
                    if a == i {
                        assert(K::before(k0, old_keys[b - 1]));
                    } else if b == i {
                        assert(K::before(old_keys[a], k0));
                    } else {
                        assert(K::before(old_keys[ai], old_keys[bi]));
                    }
                }
                assert(self.wf());
                assert forall|k: K::Model| self@.dom().contains(k) <==> before@.insert(k0, value).dom().contains(k) by {
                    if keys.contains(k) {
                        let p = choose|p: int| 0 <= p < keys.len() && keys[p] == k;
                        if p < i {
                            assert(old_keys[p] == k);
                        } else if p > i {
                            assert(old_keys[p - 1] == k);
                        }
                    }
                    if old_keys.contains(k) {
                        let p = choose|p: int| 0 <= p < old_keys.len() && old_keys[p] == k;
                        if p < i {
                            assert(keys[p] == k);
                        } else {
                            assert(keys[p + 1] == k);
                        }
                    }
                    assert(keys[i as int] == k0);
                }
                assert forall|k: K::Model| #[trigger] self@.dom().contains(k) implies self@[k]
                    == before@.insert(k0, value)[k] by {
                    let p = keys.index_of(k);
                    self.lemma_position(p);
                    if p < i {
                        before.lemma_position(p);
                        assert(old_keys[p] == keys[p]);
                    } else if p > i {
                        before.lemma_position(p - 1);
                        assert(old_keys[p - 1] == keys[p]);
                    }
                }
                assert(self@ =~= before@.insert(k0, value));
            }
            None
        }
    }

    pub fn remove(&mut self, probe: &K::Probe) -> (removed: Option<V>)
        requires
            old(self).wf(),
        ensures
            final(self).wf(),
            final(self)@ == old(self)@.remove(K::probed(probe)),
            match removed {
                Some(v) => old(self)@.dom().contains(K::probed(probe)) && v == old(self)@[K::probed(
                    probe,
                )],
                None => !old(self)@.dom().contains(K::probed(probe)) && *final(self) == *old(self),
            },
    {
        let ghost before = *self;
        let ghost k0 = K::probed(probe);
        let (i, found) = self.find(probe);
        if !found {
            assert(self@ =~= before@.remove(k0));
            return None;
        }
        let removed = self.entries.remove(i);
        proof {
            let keys = self.keys();
            let old_keys = before.keys();
            before.lemma_position(i as int);
            assert forall|a: int, b: int| 0 <= a < b < keys.len() implies #[trigger] K::before(keys[a], keys[b]) by {
                let ai = if a < i { a } else { a + 1 };
                let bi = if b < i { b } else { b + 1 };
                assert(K::before(old_keys[ai], old_keys[bi]));
            }
            assert(self.wf());
            assert forall|k: K::Model| self@.dom().contains(k) <==> before@.remove(k0).dom().contains(k) by {
                if keys.contains(k) {
                    let p = choose|p: int| 0 <= p < keys.len() && keys[p] == k;
                    let q = if p < i { p } else { p + 1 };
                    assert(old_keys[q] == k);
                    before.lemma_position(q);
                }
                if old_keys.contains(k) && k != k0 {
                    let p = choose|p: int| 0 <= p < old_keys.len() && old_keys[p] == k;
                    let q = if p < i { p } else { p - 1 };
                    assert(keys[q] == k);
                }
            }
            assert forall|k: K::Model| #[trigger] self@.dom().contains(k) implies self@[k]
                == before@.remove(k0)[k] by {
                let p = keys.index_of(k);
                self.lemma_position(p);
                let q = if p < i { p } else { p + 1 };
                before.lemma_position(q);
                assert(old_keys[q] == keys[p]);
            }
            assert(self@ =~= before@.remove(k0));
        }
        Some(removed.1)
    }

    /// The key at a position of the walk.
    pub fn key_at(&self, i: usize) -> (key: &K)
        requires
            self.wf(),
            i < self.keys().len(),
        ensures
            key.model() == self.keys()[i as int],
            self@.dom().contains(key.model()),
    {
        proof {
            self.lemma_position(i as int);
        }
        &self.entries[i].0
    }

    /// The value at a position of the walk.
    pub fn value_at(&self, i: usize) -> (value: &V)
        requires
            self.wf(),
            i < self.keys().len(),
        ensures
            self@.dom().contains(self.keys()[i as int]),
            *value == self@[self.keys()[i as int]],
    {
        proof {
            self.lemma_position(i as int);
        }
        &self.entries[i].1
    }
}

} // verus!
