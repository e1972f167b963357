//! Stable ordering of items by a key.

use vstd::prelude::*;
use vstd::string::*;

use crate::model::views;

verus! {

/// Lexicographic order of texts, character by character by code point; a
/// text comes before any longer text that it starts.
pub open spec fn text_le(a: Seq<char>, b: Seq<char>) -> bool
    decreases a.len(),
{
    if a.len() == 0 {
        true
    } else if b.len() == 0 {
        false
    } else if a[0] != b[0] {
        (a[0] as int) < (b[0] as int)
    } else {
        text_le(a.drop_first(), b.drop_first())
    }
}

/// Lexicographic order of lists of texts, each compared by `text_le`.
pub open spec fn texts_le(a: Seq<Seq<char>>, b: Seq<Seq<char>>) -> bool
    decreases a.len(),
{
    if a.len() == 0 {
        true
    } else if b.len() == 0 {
        false
    } else if a[0] != b[0] {
        text_le(a[0], b[0])
    } else {
        texts_le(a.drop_first(), b.drop_first())
    }
}

proof fn lemma_text_total(a: Seq<char>, b: Seq<char>)
    ensures
        text_le(a, b) || text_le(b, a),
    decreases a.len(),
{
    if a.len() > 0 && b.len() > 0 {
        if a[0] == b[0] {
            lemma_text_total(a.drop_first(), b.drop_first());
        } else {
            let x = a[0];
            let y = b[0];
            assert((x as int) != (y as int));
        }
    }
}

proof fn lemma_text_antisym(a: Seq<char>, b: Seq<char>)
    requires
        text_le(a, b),
        text_le(b, a),
    ensures
        a == b,
    decreases a.len(),
{
    if a.len() > 0 && b.len() > 0 {
        lemma_text_antisym(a.drop_first(), b.drop_first());
        assert(a =~= seq![a[0]] + a.drop_first());
        assert(b =~= seq![b[0]] + b.drop_first());
    } else {
        assert(a =~= b);
    }
}

proof fn lemma_text_trans(a: Seq<char>, b: Seq<char>, c: Seq<char>)
    requires
        text_le(a, b),
        text_le(b, c),
    ensures
        text_le(a, c),
    decreases a.len(),
{
    if a.len() > 0 && b.len() > 0 && c.len() > 0 && a[0] == b[0] && b[0] == c[0] {
        lemma_text_trans(a.drop_first(), b.drop_first(), c.drop_first());
    }
}

proof fn lemma_texts_total(a: Seq<Seq<char>>, b: Seq<Seq<char>>)
    ensures
        texts_le(a, b) || texts_le(b, a),
    decreases a.len(),
{
    if a.len() > 0 && b.len() > 0 {
        if a[0] == b[0] {
            lemma_texts_total(a.drop_first(), b.drop_first());
        } else {
            lemma_text_total(a[0], b[0]);
        }
    }
}

proof fn lemma_texts_trans(a: Seq<Seq<char>>, b: Seq<Seq<char>>, c: Seq<Seq<char>>)
    requires
        texts_le(a, b),
        texts_le(b, c),
    ensures
        texts_le(a, c),
    decreases a.len(),
{
    if a.len() > 0 && b.len() > 0 && c.len() > 0 {
        if a[0] == b[0] && b[0] == c[0] {
            lemma_texts_trans(a.drop_first(), b.drop_first(), c.drop_first());
        } else if a[0] == b[0] {
            // b[0] != c[0], text_le(b[0], c[0])
        } else if b[0] == c[0] {
            // a[0] != b[0], text_le(a[0], b[0])
        } else {
            lemma_text_trans(a[0], b[0], c[0]);
            if a[0] == c[0] {
                lemma_text_antisym(a[0], b[0]);
            }
        }
    }
}

proof fn lemma_text_skip(a: Seq<char>, b: Seq<char>, i: int)
    requires
        0 <= i < a.len(),
        i < b.len(),
        a[i] == b[i],
    ensures
        text_le(a.skip(i), b.skip(i)) == text_le(a.skip(i + 1), b.skip(i + 1)),
{
    assert(a.skip(i)[0] == a[i]);
    assert(b.skip(i)[0] == b[i]);
    assert(a.skip(i).drop_first() =~= a.skip(i + 1));
    assert(b.skip(i).drop_first() =~= b.skip(i + 1));
}

proof fn lemma_texts_skip(a: Seq<Seq<char>>, b: Seq<Seq<char>>, i: int)
    requires
        0 <= i < a.len(),
        i < b.len(),
        a[i] == b[i],
    ensures
        texts_le(a.skip(i), b.skip(i)) == texts_le(a.skip(i + 1), b.skip(i + 1)),
{
    assert(a.skip(i)[0] == a[i]);
    assert(b.skip(i)[0] == b[i]);
    assert(a.skip(i).drop_first() =~= a.skip(i + 1));
    assert(b.skip(i).drop_first() =~= b.skip(i + 1));
}

/// Whether text `a` comes no later than text `b`.
pub fn text_le_exec(a: &str, b: &str) -> (r: bool)
    ensures
        r == text_le(a@, b@),
{
    let n = a.unicode_len();
    let m = b.unicode_len();
    let mut i: usize = 0;
    assert(a@.skip(0) =~= a@);
    assert(b@.skip(0) =~= b@);
    while i < n && i < m
        invariant
            0 <= i <= n,
            i <= m,
            n == a@.len(),
            m == b@.len(),
            text_le(a@, b@) == text_le(a@.skip(i as int), b@.skip(i as int)),
        decreases n - i,
    {
        let x = a.get_char(i);
        let y = b.get_char(i);
        if x != y {
            assert(a@.skip(i as int)[0] == x);
            assert(b@.skip(i as int)[0] == y);
            return (x as u32) < (y as u32);
        }
        proof {
            lemma_text_skip(a@, b@, i as int);
        }
        i = i + 1;
    }
    i == n
}

/// Whether the list of texts `a` comes no later than the list `b`.
pub fn texts_le_exec(a: &Vec<String>, b: &Vec<String>) -> (r: bool)
    ensures
        r == texts_le(views(a@), views(b@)),
{
    let ghost va = views(a@);
    let ghost vb = views(b@);
    let n = a.len();
    let m = b.len();
    let mut i: usize = 0;
    assert(va.skip(0) =~= va);
    assert(vb.skip(0) =~= vb);
    while i < n && i < m
        invariant
            0 <= i <= n,
            i <= m,
            n == a@.len(),
            m == b@.len(),
            va == views(a@),
            vb == views(b@),
            texts_le(va, vb) == texts_le(va.skip(i as int), vb.skip(i as int)),
        decreases n - i,
    {
        assert(va[i as int] == a@[i as int]@);
        assert(vb[i as int] == b@[i as int]@);
        if a[i] != b[i] {
            assert(va.skip(i as int)[0] == va[i as int]);
            assert(vb.skip(i as int)[0] == vb[i as int]);
            return text_le_exec(a[i].as_str(), b[i].as_str());
        }
        proof {
            lemma_texts_skip(va, vb, i as int);
        }
        i = i + 1;
    }
    i == n
}

/// A key by which items are ordered: a number, a number that may be
/// missing (missing comes first), or a list of texts.
#[derive(Debug, Clone)]
pub enum SortKey {
    Int(i128),
    MaybeInt(Option<i128>),
    Texts(Vec<String>),
}

/// What a key holds, with its texts as character sequences.
pub enum KeyValue {
    Int(i128),
    MaybeInt(Option<i128>),
    Texts(Seq<Seq<char>>),
}

impl View for SortKey {
    type V = KeyValue;

    open spec fn view(&self) -> KeyValue {
        match self {
            SortKey::Int(x) => KeyValue::Int(*x),
            SortKey::MaybeInt(x) => KeyValue::MaybeInt(*x),
            SortKey::Texts(v) => KeyValue::Texts(views(v@)),
        }
    }
}

/// The values of a list of keys.
pub open spec fn key_values(keys: Seq<SortKey>) -> Seq<KeyValue> {
    keys.map_values(|k: SortKey| k@)
}

/// The order of keys: by value within a kind, then by kind.
pub open spec fn key_le(a: KeyValue, b: KeyValue) -> bool {
    match (a, b) {
        (KeyValue::Int(x), KeyValue::Int(y)) => x <= y,
        (KeyValue::MaybeInt(x), KeyValue::MaybeInt(y)) => match (x, y) {
            (None, _) => true,
            (Some(_), None) => false,
            (Some(p), Some(q)) => p <= q,
        },
        (KeyValue::Texts(x), KeyValue::Texts(y)) => texts_le(x, y),
        _ => key_rank(a) <= key_rank(b),
    }
}

/// The rank of a key's kind.
pub open spec fn key_rank(a: KeyValue) -> int {
    match a {
        KeyValue::Int(_) => 0,
        KeyValue::MaybeInt(_) => 1,
        KeyValue::Texts(_) => 2,
    }
}

/// Keys are always comparable.
pub proof fn lemma_key_total(a: KeyValue, b: KeyValue)
    ensures
        key_le(a, b) || key_le(b, a),
{
    if let (KeyValue::Texts(x), KeyValue::Texts(y)) = (a, b) {
        lemma_texts_total(x, y);
    }
}

/// The order of keys is transitive.
pub proof fn lemma_key_trans(a: KeyValue, b: KeyValue, c: KeyValue)
    requires
        key_le(a, b),
        key_le(b, c),
    ensures
        key_le(a, c),
{
    if let (KeyValue::Texts(x), KeyValue::Texts(y), KeyValue::Texts(z)) = (a, b, c) {
        lemma_texts_trans(x, y, z);
    }
}

/// Whether key `a` comes no later than `b`, in ascending order or, when
/// `descending`, in descending order.
pub open spec fn comes_before(a: KeyValue, b: KeyValue, descending: bool) -> bool {
    if descending {
        key_le(b, a)
    } else {
        key_le(a, b)
    }
}

/// Whether `a` and `b` are tied.
pub open spec fn tied(a: KeyValue, b: KeyValue) -> bool {
    key_le(a, b) && key_le(b, a)
}

/// Whether key `a` comes no later than `b`.
pub fn key_le_exec(a: &SortKey, b: &SortKey) -> (r: bool)
    ensures
        r == key_le(a@, b@),
{
    match (a, b) {
        (SortKey::Int(x), SortKey::Int(y)) => *x <= *y,
        (SortKey::MaybeInt(x), SortKey::MaybeInt(y)) => match (x, y) {
            (None, _) => true,
            (Some(_), None) => false,
            (Some(p), Some(q)) => *p <= *q,
        },
        (SortKey::Texts(x), SortKey::Texts(y)) => texts_le_exec(x, y),
        _ => rank_of(a) <= rank_of(b),
    }
}

fn rank_of(a: &SortKey) -> (r: u8)
    ensures
        r as int == key_rank(a@),
{
    match a {
        SortKey::Int(_) => 0,
        SortKey::MaybeInt(_) => 1,
        SortKey::Texts(_) => 2,
    }
}

proof fn lemma_before_trans(a: KeyValue, b: KeyValue, c: KeyValue, descending: bool)
    requires
        comes_before(a, b, descending),
        comes_before(b, c, descending),
    ensures
        comes_before(a, c, descending),
{
    if descending {
        lemma_key_trans(c, b, a);
    } else {
        lemma_key_trans(a, b, c);
    }
}

proof fn lemma_before_total(a: KeyValue, b: KeyValue, descending: bool)
    ensures
        comes_before(a, b, descending) || comes_before(b, a, descending),
{
    lemma_key_total(a, b);
}

/// No position occurs twice in `p`.
pub open spec fn distinct_positions(p: Seq<usize>) -> bool {
    forall|a: int, b: int| 0 <= a < b < p.len() ==> #[trigger] p[a] != #[trigger] p[b]
}

/// Every position of `p` is below `n`.
pub open spec fn positions_below(p: Seq<usize>, n: int) -> bool {
    forall|a: int| 0 <= a < p.len() ==> #[trigger] p[a] < n
}

/// The keys at the positions of `p` come in order.
pub open spec fn ordered_by(p: Seq<usize>, keys: Seq<KeyValue>, descending: bool) -> bool {
    forall|a: int, b: int|
        0 <= a < b < p.len() ==> #[trigger] comes_before(
            keys[p[a] as int],
            keys[p[b] as int],
            descending,
        )
}

/// Positions with tied keys keep their original order in `p`.
pub open spec fn ties_kept(p: Seq<usize>, keys: Seq<KeyValue>) -> bool {
    forall|a: int, b: int|
        0 <= a < b < p.len() && #[trigger] tied(keys[p[a] as int], keys[p[b] as int]) ==> p[a]
            < p[b]
}

/// `p` lists every position of `keys` once, in the order of their keys,
/// with tied keys in their original order: the order that a stable sort
/// gives.
pub open spec fn is_stable_order(p: Seq<usize>, keys: Seq<KeyValue>, descending: bool) -> bool {
    &&& p.len() == keys.len()
    &&& positions_below(p, keys.len() as int)
    &&& distinct_positions(p)
    &&& ordered_by(p, keys, descending)
    &&& ties_kept(p, keys)
}

proof fn lemma_insert_position(
    p: Seq<usize>,
    keys: Seq<KeyValue>,
    i: usize,
    pos: int,
    descending: bool,
)
    requires
        i < keys.len(),
        p.len() == i,
        positions_below(p, i as int),
        distinct_positions(p),
        ordered_by(p, keys, descending),
        ties_kept(p, keys),
        0 <= pos <= p.len(),
        forall|j: int| 0 <= j < pos ==> comes_before(keys[p[j] as int], keys[i as int], descending),
        pos < p.len() ==> !comes_before(keys[p[pos] as int], keys[i as int], descending),
    ensures
        p.insert(pos, i).len() == i + 1,
        positions_below(p.insert(pos, i), i + 1),
        distinct_positions(p.insert(pos, i)),
        ordered_by(p.insert(pos, i), keys, descending),
        ties_kept(p.insert(pos, i), keys),
{
    let q = p.insert(pos, i);
    let ki = keys[i as int];
    assert forall|k: int| 0 <= k < q.len() implies q[k] == if k < pos {
        p[k]
    } else if k == pos {
        i
    } else {
        p[k - 1]
    } by {}
    assert forall|j: int| pos <= j < p.len() implies !comes_before(
        keys[p[j] as int],
        ki,
        descending,
    ) && comes_before(ki, keys[p[j] as int], descending) && !tied(ki, keys[p[j] as int]) by {
        if j > pos {
            assert(comes_before(keys[p[pos] as int], keys[p[j] as int], descending));
            if comes_before(keys[p[j] as int], ki, descending) {
                lemma_before_trans(keys[p[pos] as int], keys[p[j] as int], ki, descending);
            }
        }
        lemma_before_total(keys[p[j] as int], ki, descending);
    }
    assert forall|a: int, b: int| 0 <= a < b < q.len() implies #[trigger] comes_before(
        keys[q[a] as int],
        keys[q[b] as int],
        descending,
    ) by {
        if a < pos && b < pos {
            assert(comes_before(keys[p[a] as int], keys[p[b] as int], descending));
        } else if a < pos && b > pos {
            assert(comes_before(keys[p[a] as int], keys[p[b - 1] as int], descending));
        } else if a > pos {
            assert(comes_before(keys[p[a - 1] as int], keys[p[b - 1] as int], descending));
        }
    }
    assert forall|a: int, b: int|
        0 <= a < b < q.len() && #[trigger] tied(keys[q[a] as int], keys[q[b] as int]) implies q[a]
        < q[b] by {
        if a < pos && b < pos {
            assert(tied(keys[p[a] as int], keys[p[b] as int]));
        } else if a < pos && b > pos {
            assert(tied(keys[p[a] as int], keys[p[b - 1] as int]));
        } else if a > pos {
            assert(tied(keys[p[a - 1] as int], keys[p[b - 1] as int]));
        } else if a == pos {
            assert(!tied(ki, keys[p[b - 1] as int]));
        }
    }
    assert forall|a: int, b: int| 0 <= a < b < q.len() implies #[trigger] q[a] != #[trigger] q[b] by {
        if a < pos && b < pos {
            assert(p[a] != p[b]);
        } else if a < pos && b > pos {
            assert(p[a] != p[b - 1]);
        } else if a > pos {
            assert(p[a - 1] != p[b - 1]);
        } else if a == pos {
            assert(p[b - 1] < i);
        } else {
            assert(p[a] < i);
        }
    }
}

/// Whether key `a` comes no later than `b` in the given direction.
fn comes_before_exec(a: &SortKey, b: &SortKey, descending: bool) -> (r: bool)
    ensures
        r == comes_before(a@, b@, descending),
{
    if descending {
        key_le_exec(b, a)
    } else {
        key_le_exec(a, b)
    }
}

/// Orders `items` by their `keys` (the key of `items[i]` is `keys[i]`),
/// ascending or descending, keeping items with tied keys in their original
/// order.
pub fn sort_by_keys<T>(items: Vec<T>, keys: &Vec<SortKey>, descending: bool) -> (r: Vec<T>)
    requires
        items@.len() == keys@.len(),
    ensures
        exists|p: Seq<usize>|
            #[trigger] is_stable_order(p, key_values(keys@), descending) && r@.len() == p.len() && forall|
                j: int,
            |
                0 <= j < p.len() ==> r@[j] == items@[#[trigger] p[j] as int],
{
    let ghost all = items@;
    let mut out: Vec<T> = Vec::new();
    let mut perm: Vec<usize> = Vec::new();
    let mut i: usize = 0;
    for x in it: items
        invariant
            it.seq() == all,
            i == it.index(),
            all.len() == keys@.len(),
            perm@.len() == it.index(),
            out@.len() == perm@.len(),
            positions_below(perm@, it.index() as int),
            distinct_positions(perm@),
            ordered_by(perm@, key_values(keys@), descending),
            ties_kept(perm@, key_values(keys@)),
            forall|j: int| 0 <= j < perm@.len() ==> out@[j] == all[#[trigger] perm@[j] as int],
    {
        let mut pos: usize = 0;
        while pos < perm.len() && comes_before_exec(&keys[perm[pos]], &keys[i], descending)
            invariant
                0 <= pos <= perm@.len(),
                i < keys@.len(),
                positions_below(perm@, i as int),
                forall|j: int|
                    0 <= j < pos ==> comes_before(
                        key_values(keys@)[perm@[j] as int],
                        key_values(keys@)[i as int],
                        descending,
                    ),
            decreases perm@.len() - pos,
        {
            pos = pos + 1;
        }
        proof {
            lemma_insert_position(perm@, key_values(keys@), i, pos as int, descending);
        }
        let ghost old_out = out@;
        let ghost old_perm = perm@;
        perm.insert(pos, i);
        out.insert(pos, x);
        assert forall|j: int| 0 <= j < perm@.len() implies out@[j] == all[#[trigger] perm@[j] as int] by {
            if j < pos {
                assert(out@[j] == old_out[j]);
                assert(perm@[j] == old_perm[j]);
            } else if j > pos {
                assert(out@[j] == old_out[j - 1]);
                assert(perm@[j] == old_perm[j - 1]);
            }
        }
        i = perm.len();
    }
    assert(is_stable_order(perm@, key_values(keys@), descending));
    out
}

} // verus!
