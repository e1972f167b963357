//! Unix path arithmetic on strings: joining, absoluteness and the
//! component-wise prefix test.

use vstd::prelude::*;
use vstd::string::*;

verus! {

/// `base` joined with `p`: an absolute `p` replaces `base`; otherwise a
/// separator is inserted unless `base` is empty or already ends with one.
pub open spec fn spec_join(base: Seq<char>, p: Seq<char>) -> Seq<char> {
    if p.len() > 0 && p[0] == '/' {
        p
    } else if base.len() == 0 || base.last() == '/' {
        base + p
    } else {
        base + seq!['/'] + p
    }
}

/// A path is absolute when it starts at the root.
pub open spec fn spec_is_absolute(p: Seq<char>) -> bool {
    p.len() > 0 && p[0] == '/'
}

/// A segment between separators that names something: not empty and not `.`.
pub open spec fn keep_segment(c: Seq<char>) -> bool {
    c.len() > 0 && c != seq!['.']
}

/// Scans `s` from the left: the kept segments closed by a separator so far,
/// and where the segment still open starts.
pub open spec fn scan(s: Seq<char>) -> (Seq<Seq<char>>, int)
    decreases s.len(),
{
    if s.len() == 0 {
        (seq![], 0)
    } else {
        let prev = scan(s.drop_last());
        if s.last() == '/' {
            let cur = s.subrange(prev.1, s.len() - 1);
            (if keep_segment(cur) { prev.0.push(cur) } else { prev.0 }, s.len() as int)
        } else {
            prev
        }
    }
}

/// The named components of `s`, in order.
pub open spec fn normal_components(s: Seq<char>) -> Seq<Seq<char>> {
    let st = scan(s);
    let cur = s.subrange(st.1, s.len() as int);
    if keep_segment(cur) {
        st.0.push(cur)
    } else {
        st.0
    }
}

/// The leading component: the root `/`, a current-directory `.`, or nothing.
pub open spec fn head_component(s: Seq<char>) -> Seq<Seq<char>> {
    if s.len() > 0 && s[0] == '/' {
        seq![seq!['/']]
    } else if s.len() > 0 && s[0] == '.' && (s.len() == 1 || s[1] == '/') {
        seq![seq!['.']]
    } else {
        seq![]
    }
}

/// The components of a path, as `Path::components` yields them on Unix.
pub open spec fn components(s: Seq<char>) -> Seq<Seq<char>> {
    head_component(s) + normal_components(s)
}

/// `path` starts with `base` when the components of `base` are a prefix of
/// those of `path`.
pub open spec fn spec_starts_with(path: Seq<char>, base: Seq<char>) -> bool {
    let a = components(path);
    let b = components(base);
    b.len() <= a.len() && a.subrange(0, b.len() as int) == b
}

pub proof fn lemma_scan_bound(s: Seq<char>)
    ensures
        0 <= scan(s).1 <= s.len(),
    decreases s.len(),
{
    if s.len() > 0 {
        lemma_scan_bound(s.drop_last());
    }
}

/// Joins `p` onto `base` as `PathBuf::join` does on Unix.
pub fn path_join(base: &str, p: &str) -> (r: String)
    ensures
        r@ == spec_join(base@, p@),
{
    let plen = p.unicode_len();
    if plen > 0 && p.get_char(0) == '/' {
        return String::from_str(p);
    }
    let blen = base.unicode_len();
    let mut r = String::from_str(base);
    if blen > 0 && base.get_char(blen - 1) != '/' {
        let sep = "/";
        proof {
            reveal_strlit("/");
        }
        r.append(sep);
    }
    r.append(p);
    r
}

/// Whether the path is absolute.
pub fn is_absolute(p: &str) -> (r: bool)
    ensures
        r == spec_is_absolute(p@),
{
    p.unicode_len() > 0 && p.get_char(0) == '/'
}

fn is_kept_segment(c: &str) -> (r: bool)
    ensures
        r == keep_segment(c@),
{
    let n = c.unicode_len();
    if n == 0 {
        false
    } else if n == 1 && c.get_char(0) == '.' {
        assert(c@ =~= seq!['.']);
        false
    } else {
        assert(c@ != seq!['.']) by {
            if n == 1 {
                assert(c@[0] != seq!['.'][0]);
            }
        }
        true
    }
}

/// The components of a path, each as a string.
pub fn path_components(s: &str) -> (r: Vec<String>)
    ensures
        r@.len() == components(s@).len(),
        forall|j: int| 0 <= j < r@.len() ==> #[trigger] r@[j]@ == components(s@)[j],
{
    let n = s.unicode_len();
    let mut d: Vec<String> = Vec::new();
    if n > 0 && s.get_char(0) == '/' {
        let root = "/";
        proof {
            reveal_strlit("/");
        }
        d.push(String::from_str(root));
    } else if n > 0 && s.get_char(0) == '.' && (n == 1 || s.get_char(1) == '/') {
        let cur = ".";
        proof {
            reveal_strlit(".");
        }
        d.push(String::from_str(cur));
    }
    let ghost head = head_component(s@);
    let ghost h = d@.len() as int;
    assert(h == head.len());
    assert(s@.take(0) =~= Seq::<char>::empty());
    let mut st: usize = 0;
    let mut i: usize = 0;
    while i < n
        invariant
            n == s@.len(),
            0 <= st <= i <= n,
            head == head_component(s@),
            h == head.len(),
            scan(s@.take(i as int)).1 == st,
            d@.len() == h + scan(s@.take(i as int)).0.len(),
            forall|j: int| 0 <= j < h ==> #[trigger] d@[j]@ == head[j],
            forall|j: int|
                0 <= j < scan(s@.take(i as int)).0.len() ==> #[trigger] d@[h + j]@ == scan(
                    s@.take(i as int),
                ).0[j],
        decreases n - i,
    {
        let ghost prev = s@.take(i as int);
        let ghost next = s@.take(i + 1);
        assert(next.drop_last() =~= prev);
        assert(next.last() == s@[i as int]);
        let c = s.get_char(i);
        if c == '/' {
            let cur = s.substring_char(st, i);
            assert(cur@ =~= next.subrange(st as int, next.len() - 1));
            if is_kept_segment(cur) {
                d.push(String::from_str(cur));
            }
            st = i + 1;
        }
        i = i + 1;
    }
    assert(s@.take(n as int) =~= s@);
    proof {
        lemma_scan_bound(s@);
    }
    let cur = s.substring_char(st, n);
    if is_kept_segment(cur) {
        d.push(String::from_str(cur));
    }
    assert forall|j: int| 0 <= j < d@.len() implies #[trigger] d@[j]@ == components(s@)[j] by {
        if j < h {
        } else {
            assert(d@[h + (j - h)]@ == normal_components(s@)[j - h]);
        }
    }
    d
}

/// Whether `path` starts with `base`, compared component by component.
pub fn starts_with(path: &str, base: &str) -> (r: bool)
    ensures
        r == spec_starts_with(path@, base@),
{
    let a = path_components(path);
    let b = path_components(base);
    let ghost ca = components(path@);
    let ghost cb = components(base@);
    if b.len() > a.len() {
        return false;
    }
    let mut i: usize = 0;
    while i < b.len()
        invariant
            ca == components(path@),
            cb == components(base@),
            b@.len() <= a@.len(),
            a@.len() == ca.len(),
            b@.len() == cb.len(),
            forall|j: int| 0 <= j < a@.len() ==> #[trigger] a@[j]@ == ca[j],
            forall|j: int| 0 <= j < b@.len() ==> #[trigger] b@[j]@ == cb[j],
            0 <= i <= b@.len(),
            forall|j: int| 0 <= j < i ==> ca[j] == cb[j],
        decreases b@.len() - i,
    {
        let eq = a[i].eq(&b[i]);
        assert(a@[i as int]@ == ca[i as int]);
        assert(b@[i as int]@ == cb[i as int]);
        if !eq {
            assert(ca.subrange(0, cb.len() as int)[i as int] != cb[i as int]);
            return false;
        }
        i = i + 1;
    }
    assert(ca.subrange(0, cb.len() as int) =~= cb);
    true
}

} // verus!
