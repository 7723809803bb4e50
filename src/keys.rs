//! Ordered tables keyed by `String`, kept in the byte-wise lexicographic order
//! that Rust uses to compare strings, with a map view for contracts.
use vstd::prelude::*;
use vstd::string::*;
use vstd::utf8::*;

verus! {

broadcast use vstd::utf8::encode_utf8_decode_utf8;

/// Strict lexicographic order on byte strings.
pub open spec fn bytes_lt(a: Seq<u8>, b: Seq<u8>) -> bool
    decreases a.len(),
{
    if a.len() == 0 {
        b.len() > 0
    } else if b.len() == 0 {
        false
    } else if a[0] != b[0] {
        a[0] < b[0]
    } else {
        bytes_lt(a.drop_first(), b.drop_first())
    }
}

/// Strict order on keys: the order of their UTF-8 encodings, as `String`'s `Ord` compares.
pub open spec fn key_lt(a: Seq<char>, b: Seq<char>) -> bool {
    bytes_lt(encode_utf8(a), encode_utf8(b))
}

pub proof fn lemma_bytes_lt_irreflexive(a: Seq<u8>)
    ensures
        !bytes_lt(a, a),
    decreases a.len(),
{
    if a.len() > 0 {
        lemma_bytes_lt_irreflexive(a.drop_first());
    }
}

pub proof fn lemma_bytes_lt_transitive(a: Seq<u8>, b: Seq<u8>, c: Seq<u8>)
    requires
        bytes_lt(a, b),
        bytes_lt(b, c),
    ensures
        bytes_lt(a, c),
    decreases a.len(),
{
    if a.len() > 0 && a[0] == b[0] && b[0] == c[0] {
        lemma_bytes_lt_transitive(a.drop_first(), b.drop_first(), c.drop_first());
    }
}

pub proof fn lemma_bytes_lt_total(a: Seq<u8>, b: Seq<u8>)
    requires
        a != b,
    ensures
        bytes_lt(a, b) || bytes_lt(b, a),
    decreases a.len(),
{
    if a.len() == 0 && b.len() == 0 {
        assert(a =~= b);
    } else if a.len() > 0 && b.len() > 0 && a[0] == b[0] {
        if a.drop_first() == b.drop_first() {
            assert(a.drop_first().len() == a.len() - 1);
            assert(b.drop_first().len() == b.len() - 1);
            assert(a =~= b) by {
                assert forall|i: int| 0 <= i < a.len() implies a[i] == b[i] by {
                    if i > 0 {
                        assert(a[i] == a.drop_first()[i - 1]);
                        assert(b[i] == b.drop_first()[i - 1]);
                    }
                }
            }
        }
        lemma_bytes_lt_total(a.drop_first(), b.drop_first());
    }
}

proof fn lemma_bytes_lt_skip(a: Seq<u8>, b: Seq<u8>, i: int)
    requires
        0 <= i <= a.len(),
        i <= b.len(),
        a.subrange(0, i) == b.subrange(0, i),
    ensures
        bytes_lt(a, b) == bytes_lt(a.subrange(i, a.len() as int), b.subrange(i, b.len() as int)),
    decreases i,
{
    if i > 0 {
        assert(a[0] == a.subrange(0, i)[0]);
        assert(b[0] == b.subrange(0, i)[0]);
        assert(a.drop_first().subrange(0, i - 1) =~= a.subrange(0, i).drop_first());
        assert(b.drop_first().subrange(0, i - 1) =~= b.subrange(0, i).drop_first());
        lemma_bytes_lt_skip(a.drop_first(), b.drop_first(), i - 1);
        assert(a.drop_first().subrange(i - 1, a.len() - 1) =~= a.subrange(i, a.len() as int));
        assert(b.drop_first().subrange(i - 1, b.len() - 1) =~= b.subrange(i, b.len() as int));
    } else {
        assert(a.subrange(0, a.len() as int) =~= a);
        assert(b.subrange(0, b.len() as int) =~= b);
    }
}

pub proof fn lemma_key_lt_irreflexive(a: Seq<char>)
    ensures
        !key_lt(a, a),
{
    lemma_bytes_lt_irreflexive(encode_utf8(a));
}

pub proof fn lemma_key_lt_transitive(a: Seq<char>, b: Seq<char>, c: Seq<char>)
    requires
        key_lt(a, b),
        key_lt(b, c),
    ensures
        key_lt(a, c),
{
    lemma_bytes_lt_transitive(encode_utf8(a), encode_utf8(b), encode_utf8(c));
}

pub proof fn lemma_key_lt_total(a: Seq<char>, b: Seq<char>)
    requires
        a != b,
    ensures
        key_lt(a, b) || key_lt(b, a),
{
    assert(decode_utf8(encode_utf8(a)) == a);
    assert(decode_utf8(encode_utf8(b)) == b);
    lemma_bytes_lt_total(encode_utf8(a), encode_utf8(b));
}

/// Compares two strings in the order of `key_lt`.
pub fn key_less(a: &String, b: &String) -> (r: bool)
    ensures
        r == key_lt(a@, b@),
{
    let x = a.as_str().as_bytes();
    let y = b.as_str().as_bytes();
    let mut i: usize = 0;
    while i < x.len() && i < y.len() && x[i] == y[i]
        invariant
            0 <= i <= x@.len(),
            i <= y@.len(),
            x@.subrange(0, i as int) == y@.subrange(0, i as int),
            x@ == encode_utf8(a@),
            y@ == encode_utf8(b@),
        decreases x@.len() - i,
    {
        proof {
            assert(x@.subrange(0, i + 1) =~= x@.subrange(0, i as int).push(x@[i as int]));
            assert(y@.subrange(0, i + 1) =~= y@.subrange(0, i as int).push(y@[i as int]));
        }
        i = i + 1;
    }
    proof {
        lemma_bytes_lt_skip(x@, y@, i as int);
        let xs = x@.subrange(i as int, x@.len() as int);
        let ys = y@.subrange(i as int, y@.len() as int);
        if i < x@.len() && i < y@.len() {
            assert(xs[0] == x@[i as int]);
            assert(ys[0] == y@[i as int]);
        }
    }
    if i == x.len() {
        i < y.len()
    } else if i == y.len() {
        false
    } else {
        x[i] < y[i]
    }
}

/// An entry of an ordered table: a key, and a value that contracts speak of.
pub trait Keyed {
    type Value;

    spec fn key_view(&self) -> Seq<char>;

    spec fn value_view(&self) -> Self::Value;

    fn key(&self) -> (r: &String)
        ensures
            r@ == self.key_view(),
    ;
}

/// A string is its own key: a table of strings is an ordered set.
impl Keyed for String {
    type Value = ();

    open spec fn key_view(&self) -> Seq<char> {
        self@
    }

    open spec fn value_view(&self) -> () {
        ()
    }

    fn key(&self) -> (r: &String) {
        self
    }
}

/// The entries' keys are strictly increasing, hence distinct.
pub open spec fn sorted_by_key<T: Keyed>(s: Seq<T>) -> bool {
    forall|i: int, j: int|
        0 <= i < j < s.len() ==> key_lt(#[trigger] s[i].key_view(), #[trigger] s[j].key_view())
}

pub open spec fn has_key<T: Keyed>(s: Seq<T>, k: Seq<char>) -> bool {
    exists|i: int| 0 <= i < s.len() && #[trigger] s[i].key_view() == k
}

/// The index of an entry that holds `k`, where one does.
pub open spec fn index_of<T: Keyed>(s: Seq<T>, k: Seq<char>) -> int {
    choose|i: int| 0 <= i < s.len() && #[trigger] s[i].key_view() == k
}

/// The table as a map from key to value.
pub open spec fn map_of<T: Keyed>(s: Seq<T>) -> Map<Seq<char>, T::Value> {
    Map::new(|k: Seq<char>| has_key(s, k), |k: Seq<char>| s[index_of(s, k)].value_view())
}

pub proof fn lemma_sorted_unique<T: Keyed>(s: Seq<T>, i: int, j: int)
    requires
        sorted_by_key(s),
        0 <= i < s.len(),
        0 <= j < s.len(),
        s[i].key_view() == s[j].key_view(),
    ensures
        i == j,
{
    if i < j {
        assert(key_lt(s[i].key_view(), s[j].key_view()));
        lemma_key_lt_irreflexive(s[i].key_view());
    } else if j < i {
        assert(key_lt(s[j].key_view(), s[i].key_view()));
        lemma_key_lt_irreflexive(s[i].key_view());
    }
}

pub proof fn lemma_map_of_index<T: Keyed>(s: Seq<T>, i: int)
    requires
        sorted_by_key(s),
        0 <= i < s.len(),
    ensures
        map_of(s).contains_key(s[i].key_view()),
        map_of(s)[s[i].key_view()] == s[i].value_view(),
{
    let k = s[i].key_view();
    assert(has_key(s, k));
    let j = index_of(s, k);
    lemma_sorted_unique(s, i, j);
    assert(map_of(s)[k] == s[j].value_view());
}

pub proof fn lemma_map_of_empty<T: Keyed>(s: Seq<T>)
    requires
        s.len() == 0,
    ensures
        map_of(s) =~= Map::<Seq<char>, T::Value>::empty(),
{
}

pub proof fn lemma_map_of_update<T: Keyed>(s: Seq<T>, i: int, x: T)
    requires
        sorted_by_key(s),
        0 <= i < s.len(),
        x.key_view() == s[i].key_view(),
    ensures
        sorted_by_key(s.update(i, x)),
        map_of(s.update(i, x)) =~= map_of(s).insert(x.key_view(), x.value_view()),
{
    let t = s.update(i, x);
    assert(sorted_by_key(t)) by {
        assert forall|a: int, b: int| 0 <= a < b < t.len() implies key_lt(
            #[trigger] t[a].key_view(),
            #[trigger] t[b].key_view(),
        ) by {
            assert(key_lt(s[a].key_view(), s[b].key_view()));
        }
    }
    assert forall|k: Seq<char>| #[trigger] has_key(t, k) == (has_key(s, k) || k == x.key_view()) by {
        if has_key(s, k) {
            let j = choose|j: int| 0 <= j < s.len() && #[trigger] s[j].key_view() == k;
            assert(t[j].key_view() == k);
        }
        if has_key(t, k) {
            let j = choose|j: int| 0 <= j < t.len() && #[trigger] t[j].key_view() == k;
            assert(s[j].key_view() == k);
        }
        if k == x.key_view() {
            assert(t[i].key_view() == k);
        }
    }
    assert forall|k: Seq<char>| #[trigger] map_of(t).contains_key(k) implies map_of(t)[k] == map_of(
        s,
    ).insert(x.key_view(), x.value_view())[k] by {
        let j = index_of(t, k);
        lemma_map_of_index(t, j);
        if j != i {
            lemma_map_of_index(s, j);
            if k == x.key_view() {
                lemma_sorted_unique(t, i, j);
            }
        }
    }
}

pub proof fn lemma_map_of_insert<T: Keyed>(s: Seq<T>, i: int, x: T)
    requires
        sorted_by_key(s),
        0 <= i <= s.len(),
        forall|j: int| 0 <= j < i ==> key_lt(#[trigger] s[j].key_view(), x.key_view()),
        forall|j: int| i <= j < s.len() ==> key_lt(x.key_view(), #[trigger] s[j].key_view()),
    ensures
        sorted_by_key(s.insert(i, x)),
        map_of(s.insert(i, x)) =~= map_of(s).insert(x.key_view(), x.value_view()),
{
    let t = s.insert(i, x);
    s.insert_ensures(i, x);
    assert forall|j: int| 0 <= j < t.len() implies #[trigger] t[j] == if j < i {
        s[j]
    } else if j == i {
        x
    } else {
        s[j - 1]
    } by {
        if j > i {
            assert(t[(j - 1) + 1] == s[j - 1]);
        }
    }
    assert(sorted_by_key(t)) by {
        assert forall|a: int, b: int| 0 <= a < b < t.len() implies key_lt(
            #[trigger] t[a].key_view(),
            #[trigger] t[b].key_view(),
        ) by {
            if b < i {
                assert(key_lt(s[a].key_view(), s[b].key_view()));
            } else if b == i {
            } else if a < i {
                assert(key_lt(s[a].key_view(), x.key_view()));
                assert(key_lt(x.key_view(), s[b - 1].key_view()));
                lemma_key_lt_transitive(s[a].key_view(), x.key_view(), s[b - 1].key_view());
            } else if a == i {
            } else {
                assert(key_lt(s[a - 1].key_view(), s[b - 1].key_view()));
            }
        }
    }
    assert forall|k: Seq<char>| #[trigger] has_key(t, k) == (has_key(s, k) || k == x.key_view()) by {
        if has_key(s, k) {
            let j = choose|j: int| 0 <= j < s.len() && #[trigger] s[j].key_view() == k;
            if j < i {
                assert(t[j].key_view() == k);
            } else {
                assert(t[j + 1].key_view() == k);
            }
        }
        if has_key(t, k) {
            let j = choose|j: int| 0 <= j < t.len() && #[trigger] t[j].key_view() == k;
            if j < i {
                assert(s[j].key_view() == k);
            } else if j > i {
                assert(s[j - 1].key_view() == k);
            }
        }
        if k == x.key_view() {
            assert(t[i].key_view() == k);
        }
    }
    assert forall|k: Seq<char>| #[trigger] map_of(t).contains_key(k) implies map_of(t)[k] == map_of(
        s,
    ).insert(x.key_view(), x.value_view())[k] by {
        let j = index_of(t, k);
        lemma_map_of_index(t, j);
        if j < i {
            lemma_map_of_index(s, j);
            assert(key_lt(s[j].key_view(), x.key_view()));
            lemma_key_lt_irreflexive(k);
        } else if j > i {
            lemma_map_of_index(s, j - 1);
            assert(key_lt(x.key_view(), s[j - 1].key_view()));
            lemma_key_lt_irreflexive(k);
        }
    }
}

/// Where `k` stands in an ordered table: `Ok` with the index of the entry that
/// holds it, or `Err` with the index at which it would be inserted.
pub fn search<T: Keyed>(v: &Vec<T>, k: &String) -> (r: Result<usize, usize>)
    requires
        sorted_by_key(v@),
    ensures
        match r {
            Ok(i) => i < v@.len() && v@[i as int].key_view() == k@,
            Err(i) => {
                &&& i <= v@.len()
                &&& forall|j: int| 0 <= j < i ==> key_lt(#[trigger] v@[j].key_view(), k@)
                &&& forall|j: int| i <= j < v@.len() ==> key_lt(k@, #[trigger] v@[j].key_view())
                &&& !has_key(v@, k@)
            },
        },
        has_key(v@, k@) <==> r is Ok,
{
    let mut i: usize = 0;
    while i < v.len() && key_less(v[i].key(), k)
        invariant
            i <= v@.len(),
            sorted_by_key(v@),
            forall|j: int| 0 <= j < i ==> key_lt(#[trigger] v@[j].key_view(), k@),
        decreases v@.len() - i,
    {
        i = i + 1;
    }
    if i < v.len() && v[i].key().eq(k) {
        proof {
            assert(has_key(v@, k@));
        }
        Ok(i)
    } else {
        proof {
            assert forall|j: int| i <= j < v@.len() implies key_lt(k@, #[trigger] v@[j].key_view()) by {
                let ki = v@[i as int].key_view();
                assert(ki != k@);
                lemma_key_lt_total(ki, k@);
                if j > i {
                    assert(key_lt(ki, v@[j].key_view()));
                    lemma_key_lt_transitive(k@, ki, v@[j].key_view());
                }
            }
            if has_key(v@, k@) {
                let j = choose|j: int| 0 <= j < v@.len() && #[trigger] v@[j].key_view() == k@;
                lemma_key_lt_irreflexive(k@);
            }
        }
        Err(i)
    }
}

/// The keys that a table holds.
pub open spec fn key_set<T: Keyed>(s: Seq<T>) -> Set<Seq<char>> {
    Set::new(|k: Seq<char>| has_key(s, k))
}

/// The items as a map from key to value; where a key comes twice, the first
/// item that holds it stands.
pub open spec fn first_wins<T: Keyed>(s: Seq<T>) -> Map<Seq<char>, T::Value>
    decreases s.len(),
{
    if s.len() == 0 {
        Map::empty()
    } else {
        first_wins(s.drop_first()).insert(s[0].key_view(), s[0].value_view())
    }
}

pub proof fn lemma_first_wins_dom<T: Keyed>(s: Seq<T>)
    ensures
        first_wins(s).dom() =~= key_set(s),
    decreases s.len(),
{
    if s.len() > 0 {
        lemma_first_wins_dom(s.drop_first());
        assert forall|k: Seq<char>| has_key(s, k) <==> (has_key(s.drop_first(), k) || k
            == s[0].key_view()) by {
            if has_key(s, k) {
                let j = choose|j: int| 0 <= j < s.len() && #[trigger] s[j].key_view() == k;
                if j > 0 {
                    assert(s.drop_first()[j - 1].key_view() == k);
                }
            }
            if has_key(s.drop_first(), k) {
                let j = choose|j: int|
                    0 <= j < s.drop_first().len() && #[trigger] s.drop_first()[j].key_view() == k;
                assert(s[j + 1].key_view() == k);
            }
        }
    }
}

/// Whether some item of `v` holds the key `k`; `v` need not be ordered.
pub fn contains_key<T: Keyed>(v: &Vec<T>, k: &String) -> (r: bool)
    ensures
        r == has_key(v@, k@),
        r == key_set(v@).contains(k@),
{
    let mut i: usize = 0;
    while i < v.len()
        invariant
            i <= v@.len(),
            forall|j: int| 0 <= j < i ==> #[trigger] v@[j].key_view() != k@,
        decreases v@.len() - i,
    {
        if v[i].key().eq(k) {
            return true;
        }
        i = i + 1;
    }
    false
}

/// Puts `x` in the table under its key, in place of any entry that held it.
pub fn upsert<T: Keyed>(v: &mut Vec<T>, x: T)
    requires
        sorted_by_key(old(v)@),
    ensures
        sorted_by_key(final(v)@),
        map_of(final(v)@) =~= map_of(old(v)@).insert(x.key_view(), x.value_view()),
        final(v)@.len() >= old(v)@.len(),
        forall|i: int|
            0 <= i < final(v)@.len() ==> #[trigger] final(v)@[i] == x || old(v)@.contains(
                final(v)@[i],
            ),
{
    let ghost before = v@;
    match search(v, x.key()) {
        Ok(i) => {
            proof {
                lemma_map_of_update(v@, i as int, x);
            }
            v.set(i, x);
            proof {
                assert forall|j: int| 0 <= j < v@.len() && j != i implies before.contains(
                    #[trigger] v@[j],
                ) by {
                    assert(before[j] == v@[j]);
                }
            }
        },
        Err(i) => {
            proof {
                lemma_map_of_insert(v@, i as int, x);
                before.insert_ensures(i as int, x);
            }
            v.insert(i, x);
            proof {
                assert forall|j: int| 0 <= j < v@.len() && j != i implies before.contains(
                    #[trigger] v@[j],
                ) by {
                    if j < i {
                        assert(before[j] == v@[j]);
                    } else {
                        assert(before[j - 1] == v@[(j - 1) + 1]);
                    }
                }
            }
        },
    }
}

/// An ordered table of the items; where a key comes twice, the first item stands.
pub fn table_of<T: Keyed>(items: Vec<T>) -> (r: Vec<T>)
    ensures
        sorted_by_key(r@),
        map_of(r@) == first_wins(items@),
        key_set(r@) == key_set(items@),
{
    let ghost all = items@;
    let mut rest = items;
    let mut r: Vec<T> = Vec::new();
    proof {
        lemma_map_of_empty(r@);
        assert(all.subrange(all.len() as int, all.len() as int).len() == 0);
    }
    while rest.len() > 0
        invariant
            sorted_by_key(r@),
            rest@ == all.subrange(0, rest@.len() as int),
            rest@.len() <= all.len(),
            map_of(r@) == first_wins(all.subrange(rest@.len() as int, all.len() as int)),
        decreases rest@.len(),
    {
        let n = rest.len();
        let x = rest.pop().unwrap();
        proof {
            let tail = all.subrange(n - 1, all.len() as int);
            assert(tail.drop_first() =~= all.subrange(n as int, all.len() as int));
            assert(tail[0] == x);
            assert(rest@ =~= all.subrange(0, n - 1));
        }
        upsert(&mut r, x);
    }
    proof {
        assert(all.subrange(0, all.len() as int) =~= all);
        lemma_first_wins_dom(all);
        assert(key_set(r@) =~= map_of(r@).dom());
    }
    r
}

pub proof fn lemma_first_wins_sorted<T: Keyed>(s: Seq<T>)
    requires
        sorted_by_key(s),
    ensures
        first_wins(s) == map_of(s),
    decreases s.len(),
{
    if s.len() == 0 {
        lemma_map_of_empty(s);
        assert(first_wins(s) =~= map_of(s));
    } else {
        let rest = s.drop_first();
        assert(sorted_by_key(rest)) by {
            assert forall|a: int, b: int| 0 <= a < b < rest.len() implies key_lt(
                #[trigger] rest[a].key_view(),
                #[trigger] rest[b].key_view(),
            ) by {
                assert(key_lt(s[a + 1].key_view(), s[b + 1].key_view()));
            }
        }
        lemma_first_wins_sorted(rest);
        assert forall|j: int| 0 <= j < rest.len() implies key_lt(
            s[0].key_view(),
            #[trigger] rest[j].key_view(),
        ) by {
            assert(key_lt(s[0].key_view(), s[j + 1].key_view()));
        }
        lemma_map_of_insert(rest, 0, s[0]);
        assert(rest.insert(0, s[0]) =~= s);
    }
}

/// The keys of a suffix grow by one key as the suffix grows by one entry.
pub proof fn lemma_key_set_suffix<T: Keyed>(s: Seq<T>, i: int)
    requires
        0 <= i < s.len(),
    ensures
        key_set(s.subrange(i, s.len() as int)) =~= key_set(s.subrange(i + 1, s.len() as int)).insert(
            s[i].key_view(),
        ),
{
    let a = s.subrange(i, s.len() as int);
    let b = s.subrange(i + 1, s.len() as int);
    assert forall|k: Seq<char>| has_key(a, k) <==> (has_key(b, k) || k == s[i].key_view()) by {
        if has_key(a, k) {
            let j = choose|j: int| 0 <= j < a.len() && #[trigger] a[j].key_view() == k;
            if j > 0 {
                assert(b[j - 1].key_view() == k);
            }
        }
        if has_key(b, k) {
            let j = choose|j: int| 0 <= j < b.len() && #[trigger] b[j].key_view() == k;
            assert(a[j + 1].key_view() == k);
        }
        if k == s[i].key_view() {
            assert(a[0].key_view() == k);
        }
    }
}

/// The keys of `v` that `keep` also holds, as an ordered table.
pub fn retain_keys<T: Keyed, U: Keyed>(v: Vec<T>, keep: &Vec<U>) -> (r: Vec<T>)
    ensures
        sorted_by_key(r@),
        key_set(r@) =~= key_set(v@).intersect(key_set(keep@)),
{
    let ghost all = v@;
    let mut rest = v;
    let mut r: Vec<T> = Vec::new();
    proof {
        lemma_map_of_empty(r@);
    }
    while rest.len() > 0
        invariant
            sorted_by_key(r@),
            rest@ == all.subrange(0, rest@.len() as int),
            rest@.len() <= all.len(),
            key_set(r@) =~= key_set(all.subrange(rest@.len() as int, all.len() as int)).intersect(
                key_set(keep@),
            ),
        decreases rest@.len(),
    {
        let n = rest.len();
        let x = rest.pop().unwrap();
        proof {
            assert(all[n - 1] == x);
            assert(rest@ =~= all.subrange(0, n - 1));
            lemma_key_set_suffix(all, n - 1);
        }
        if contains_key(keep, x.key()) {
            upsert(&mut r, x);
            proof {
                assert(key_set(r@) =~= map_of(r@).dom());
            }
        }
    }
    proof {
        assert(all.subrange(0, all.len() as int) =~= all);
    }
    r
}

} // verus!
