use vstd::prelude::*;
use vstd::utf8::encode_utf8;

verus! {

/// The bytes of a text key, as `String` compares them.
pub open spec fn key_bytes(s: Seq<char>) -> Seq<u8> {
    encode_utf8(s)
}

/// Lexicographic order on byte strings: the order of `String`'s `Ord`.
pub open spec fn bytes_less(a: Seq<u8>, b: Seq<u8>) -> bool
    decreases a.len(),
{
    if b.len() == 0 {
        false
    } else if a.len() == 0 {
        true
    } else if a[0] != b[0] {
        a[0] < b[0]
    } else {
        bytes_less(a.drop_first(), b.drop_first())
    }
}

/// `a` sorts strictly before `b`.
pub open spec fn key_less(a: Seq<char>, b: Seq<char>) -> bool {
    bytes_less(key_bytes(a), key_bytes(b))
}

pub proof fn lemma_bytes_less_irreflexive(a: Seq<u8>)
    ensures
        !bytes_less(a, a),
    decreases a.len(),
{
    if a.len() > 0 {
        lemma_bytes_less_irreflexive(a.drop_first());
    }
}

pub proof fn lemma_bytes_less_transitive(a: Seq<u8>, b: Seq<u8>, c: Seq<u8>)
    requires
        bytes_less(a, b),
        bytes_less(b, c),
    ensures
        bytes_less(a, c),
    decreases a.len(),
{
    if a.len() > 0 && a[0] == b[0] && b[0] == c[0] {
        lemma_bytes_less_transitive(a.drop_first(), b.drop_first(), c.drop_first());
    }
}

pub proof fn lemma_bytes_less_total(a: Seq<u8>, b: Seq<u8>)
    ensures
        a == b || bytes_less(a, b) || bytes_less(b, a),
    decreases a.len(),
{
    if a.len() > 0 && b.len() > 0 && a[0] == b[0] {
        lemma_bytes_less_total(a.drop_first(), b.drop_first());
        if a.drop_first() == b.drop_first() {
            assert(a =~= seq![a[0]] + a.drop_first());
            assert(b =~= seq![b[0]] + b.drop_first());
        }
    } else if a.len() == 0 && b.len() == 0 {
        assert(a =~= b);
    }
}

/// Keys that no one sorts before another.
pub proof fn lemma_key_less_transitive(a: Seq<char>, b: Seq<char>, c: Seq<char>)
    requires
        key_less(a, b),
        key_less(b, c),
    ensures
        key_less(a, c),
{
    lemma_bytes_less_transitive(key_bytes(a), key_bytes(b), key_bytes(c));
}

pub proof fn lemma_key_less_irreflexive(a: Seq<char>)
    ensures
        !key_less(a, a),
{
    lemma_bytes_less_irreflexive(key_bytes(a));
}

/// Two keys are equal, or one sorts before the other.
pub proof fn lemma_key_less_total(a: Seq<char>, b: Seq<char>)
    ensures
        a == b || key_less(a, b) || key_less(b, a),
{
    lemma_bytes_less_total(key_bytes(a), key_bytes(b));
    if key_bytes(a) == key_bytes(b) {
        vstd::utf8::encode_utf8_decode_utf8(a);
        vstd::utf8::encode_utf8_decode_utf8(b);
    }
}

/// Whether `a` sorts strictly before `b`.
pub fn less_than(a: &String, b: &String) -> (r: bool)
    ensures
        r == key_less(a@, b@),
{
    let x = a.as_str().as_bytes();
    let y = b.as_str().as_bytes();
    let mut i: usize = 0;
    assert(x@.skip(0) =~= x@);
    assert(y@.skip(0) =~= y@);
    while i < x.len() && i < y.len() && x[i] == y[i]
        invariant
            x@ == key_bytes(a@),
            y@ == key_bytes(b@),
            i <= x@.len(),
            i <= y@.len(),
            bytes_less(x@, y@) == bytes_less(x@.skip(i as int), y@.skip(i as int)),
        decreases x.len() - i,
    {
        assert(x@.skip(i as int).drop_first() =~= x@.skip(i + 1));
        assert(y@.skip(i as int).drop_first() =~= y@.skip(i + 1));
        i = i + 1;
    }
    if i == y.len() {
        false
    } else if i == x.len() {
        true
    } else {
        x[i] < y[i]
    }
}

/// Whether `a` and `b` are the same key.
pub fn same_key(a: &String, b: &String) -> (r: bool)
    ensures
        r == (a@ == b@),
{
    a.eq(b)
}

/// Keys in strictly increasing order.
pub open spec fn keys_sorted(ks: Seq<Seq<char>>) -> bool {
    forall|i: int, j: int| 0 <= i < j < ks.len() ==> key_less(#[trigger] ks[i], #[trigger] ks[j])
}

/// `p` is where `a` goes among `ks`: after every smaller key, before every larger one.
pub open spec fn is_slot(ks: Seq<Seq<char>>, a: Seq<char>, p: int) -> bool {
    &&& 0 <= p <= ks.len()
    &&& forall|j: int| 0 <= j < p ==> key_less(#[trigger] ks[j], a)
    &&& forall|j: int| p <= j < ks.len() ==> key_less(a, #[trigger] ks[j])
}

/// The place where a key that is not among sorted keys is inserted.
pub open spec fn slot_of(ks: Seq<Seq<char>>, a: Seq<char>) -> int {
    choose|p: int| is_slot(ks, a, p)
}

pub proof fn lemma_slot_unique(ks: Seq<Seq<char>>, a: Seq<char>, p: int, q: int)
    requires
        is_slot(ks, a, p),
        is_slot(ks, a, q),
    ensures
        p == q,
{
    if p < q {
        lemma_key_less_transitive(ks[p], a, ks[p]);
        lemma_key_less_irreflexive(ks[p]);
    } else if q < p {
        lemma_key_less_transitive(ks[q], a, ks[q]);
        lemma_key_less_irreflexive(ks[q]);
    }
}

/// Inserting a key at its slot keeps keys sorted.
pub proof fn lemma_insert_at_slot(ks: Seq<Seq<char>>, a: Seq<char>, p: int)
    requires
        keys_sorted(ks),
        is_slot(ks, a, p),
    ensures
        keys_sorted(ks.insert(p, a)),
        slot_of(ks, a) == p,
{
    lemma_slot_unique(ks, a, p, slot_of(ks, a));
}

/// Sorted keys hold no key twice.
pub proof fn lemma_sorted_distinct(ks: Seq<Seq<char>>, i: int, j: int)
    requires
        keys_sorted(ks),
        0 <= i < ks.len(),
        0 <= j < ks.len(),
        ks[i] == ks[j],
    ensures
        i == j,
{
    lemma_key_less_irreflexive(ks[i]);
}

/// A key that is not among sorted keys has a slot.
pub proof fn lemma_slot_exists(ks: Seq<Seq<char>>, a: Seq<char>)
    requires
        keys_sorted(ks),
        forall|j: int| 0 <= j < ks.len() ==> ks[j] != a,
    ensures
        is_slot(ks, a, slot_of(ks, a)),
    decreases ks.len(),
{
    if ks.len() > 0 {
        let n = ks.len() - 1;
        let front = ks.drop_last();
        assert forall|j: int| 0 <= j < front.len() implies front[j] != a by {
            assert(front[j] == ks[j]);
        }
        assert(keys_sorted(front));
        lemma_slot_exists(front, a);
        lemma_key_less_total(ks[n], a);
        if key_less(ks[n], a) {
            assert forall|j: int| 0 <= j < n implies key_less(#[trigger] ks[j], a) by {
                lemma_key_less_transitive(ks[j], ks[n], a);
            }
            assert(is_slot(ks, a, n + 1));
        } else {
            let p = slot_of(front, a);
            assert(key_less(a, ks[n]));
            assert forall|j: int| 0 <= j < p implies key_less(#[trigger] ks[j], a) by {
                assert(ks[j] == front[j]);
            }
            assert forall|j: int| p <= j < ks.len() implies key_less(a, #[trigger] ks[j]) by {
                if j < n {
                    assert(ks[j] == front[j]);
                }
            }
            assert(is_slot(ks, a, p));
        }
    } else {
        assert(is_slot(ks, a, 0));
    }
}

pub open spec fn texts(v: Seq<String>) -> Seq<Seq<char>> {
    v.map_values(|s: String| s@)
}

/// Where `a` stands among sorted keys: `Ok(i)` where `keys[i]` is `a`,
/// else `Err(p)` with `p` the slot that `a` would take.
pub fn search_key(keys: &Vec<String>, a: &String) -> (r: Result<usize, usize>)
    requires
        keys_sorted(texts(keys@)),
    ensures
        r matches Ok(i) ==> i < keys@.len() && keys@[i as int]@ == a@,
        r matches Err(p) ==> is_slot(texts(keys@), a@, p as int),
        r is Err <==> forall|j: int| 0 <= j < keys@.len() ==> keys@[j]@ != a@,
{
    let ghost ks = texts(keys@);
    let mut i: usize = 0;
    while i < keys.len() && less_than(&keys[i], a)
        invariant
            ks == texts(keys@),
            i <= keys@.len(),
            forall|j: int| 0 <= j < i ==> key_less(#[trigger] ks[j], a@),
        decreases keys@.len() - i,
    {
        i = i + 1;
    }
    if i < keys.len() && same_key(&keys[i], a) {
        return Ok(i);
    }
    proof {
        if i < keys@.len() {
            lemma_key_less_total(ks[i as int], a@);
            assert forall|j: int| i <= j < ks.len() implies key_less(a@, #[trigger] ks[j]) by {
                if j > i {
                    lemma_key_less_transitive(a@, ks[i as int], ks[j]);
                }
            }
        }
        assert forall|j: int| 0 <= j < keys@.len() implies keys@[j]@ != a@ by {
            assert(ks[j] == keys@[j]@);
            lemma_key_less_irreflexive(a@);
        }
    }
    Err(i)
}

} // verus!
