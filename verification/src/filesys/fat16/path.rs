//! Paths of the FAT16 file system: `/`-separated names, as bytes.

use vstd::prelude::*;

verus! {

/// The byte that separates the components of a path.
pub const PATH_SEPARATOR: u8 = 0x2F;

/// The byte that separates a file name from its extension.
pub const EXTENSION_SEPARATOR: u8 = 0x2E;

/// Splitting `p` from the left: the components completed so far and the
/// component being read.
pub open spec fn spec_split_state(p: Seq<u8>) -> (Seq<Seq<u8>>, Seq<u8>)
    decreases p.len(),
{
    if p.len() == 0 {
        (Seq::empty(), Seq::empty())
    } else {
        let (done, cur) = spec_split_state(p.drop_last());
        if p.last() == PATH_SEPARATOR {
            if cur.len() > 0 {
                (done.push(cur), Seq::empty())
            } else {
                (done, Seq::empty())
            }
        } else {
            (done, cur.push(p.last()))
        }
    }
}

/// The non-empty pieces of `p` between separators, in order.
pub open spec fn spec_components(p: Seq<u8>) -> Seq<Seq<u8>> {
    let (done, cur) = spec_split_state(p);
    if cur.len() > 0 {
        done.push(cur)
    } else {
        done
    }
}

/// Index of the last `b` in `p`, if any.
pub open spec fn spec_rfind(p: Seq<u8>, b: u8) -> Option<int>
    decreases p.len(),
{
    if p.len() == 0 {
        None
    } else if p.last() == b {
        Some(p.len() - 1)
    } else {
        spec_rfind(p.drop_last(), b)
    }
}

/// What `spec_rfind` finds is `b`, and nothing after it is.
pub proof fn lemma_rfind(p: Seq<u8>, b: u8)
    ensures
        spec_rfind(p, b) matches Some(i) ==> 0 <= i < p.len() && p[i] == b && forall|j: int|
            i < j < p.len() ==> p[j] != b,
        spec_rfind(p, b) is None ==> forall|j: int| 0 <= j < p.len() ==> p[j] != b,
    decreases p.len(),
{
    if p.len() > 0 && p.last() != b {
        lemma_rfind(p.drop_last(), b);
        assert forall|j: int| 0 <= j < p.len() - 1 implies p.drop_last()[j] == p[j] by {}
    }
}

/// Splitting at the last `b`: when there is one, the path is the part
/// before it, `b` and the part after it, which holds no `b`; when there is
/// none, the whole path is the part named by `whole_first` and the other
/// part is empty.
pub proof fn lemma_split_last(p: Seq<u8>, b: u8, whole_first: bool)
    ensures
        ({
            let (first, second) = spec_split_last(p, b, whole_first);
            &&& forall|j: int| 0 <= j < second.len() ==> #[trigger] second[j] != b
            &&& spec_rfind(p, b) is Some ==> p == first + seq![b] + second
            &&& spec_rfind(p, b) is None ==> (forall|j: int| 0 <= j < p.len() ==> #[trigger] p[j] != b) && (
            if whole_first {
                first == p && second.len() == 0
            } else {
                first.len() == 0 && second == p
            })
        }),
{
    lemma_rfind(p, b);
    let (first, second) = spec_split_last(p, b, whole_first);
    if let Some(i) = spec_rfind(p, b) {
        assert(p =~= first + seq![b] + second);
        assert forall|j: int| 0 <= j < second.len() implies #[trigger] second[j] != b by {
            assert(second[j] == p[i + 1 + j]);
        }
    }
}

/// The components of a path are not empty and hold no separator.
pub proof fn lemma_components_shape(p: Seq<u8>)
    ensures
        forall|k: int|
            0 <= k < spec_components(p).len() ==> (#[trigger] spec_components(p)[k]).len() > 0 && forall|j: int|
                0 <= j < spec_components(p)[k].len() ==> spec_components(p)[k][j] != PATH_SEPARATOR,
{
    lemma_split_state_shape(p);
}

proof fn lemma_split_state_shape(p: Seq<u8>)
    ensures
        forall|k: int|
            0 <= k < spec_split_state(p).0.len() ==> (#[trigger] spec_split_state(p).0[k]).len() > 0 && forall|j: int|
                0 <= j < spec_split_state(p).0[k].len() ==> spec_split_state(p).0[k][j] != PATH_SEPARATOR,
        forall|j: int| 0 <= j < spec_split_state(p).1.len() ==> #[trigger] spec_split_state(p).1[j] != PATH_SEPARATOR,
    decreases p.len(),
{
    if p.len() > 0 {
        lemma_split_state_shape(p.drop_last());
        let (done, cur) = spec_split_state(p.drop_last());
        if p.last() != PATH_SEPARATOR {
            assert forall|j: int| 0 <= j < cur.push(p.last()).len() implies #[trigger] cur.push(p.last())[j]
                != PATH_SEPARATOR by {
                if j < cur.len() {
                    assert(cur.push(p.last())[j] == cur[j]);
                }
            }
        }
    }
}

/// Splitting a path that ends in bytes `r` holding no separator: the
/// components completed are those before `r`, and `r` extends the
/// component being read.
pub proof fn lemma_split_state_append(q: Seq<u8>, r: Seq<u8>)
    requires
        forall|j: int| 0 <= j < r.len() ==> r[j] != PATH_SEPARATOR,
    ensures
        spec_split_state(q + r) == (spec_split_state(q).0, spec_split_state(q).1 + r),
    decreases r.len(),
{
    if r.len() == 0 {
        assert(q + r =~= q);
        assert(spec_split_state(q).1 + r =~= spec_split_state(q).1);
    } else {
        lemma_split_state_append(q, r.drop_last());
        assert((q + r).drop_last() =~= q + r.drop_last());
        assert((q + r).last() == r.last());
        assert((spec_split_state(q).1 + r.drop_last()).push(r.last()) =~= spec_split_state(q).1 + r);
    }
}

/// A path whose directory part is empty or a lone `/` has one component
/// when its last part is not empty: that part.
pub proof fn lemma_root_component(p: Seq<u8>)
    requires
        spec_split_last(p, PATH_SEPARATOR, false).0.len() == 0 || spec_split_last(p, PATH_SEPARATOR, false).0
            == seq![PATH_SEPARATOR],
        spec_split_last(p, PATH_SEPARATOR, false).1.len() > 0,
    ensures
        spec_components(p) == seq![spec_split_last(p, PATH_SEPARATOR, false).1],
{
    lemma_rfind(p, PATH_SEPARATOR);
    let leaf = spec_split_last(p, PATH_SEPARATOR, false).1;
    let prefix = p.take(p.len() - leaf.len());
    assert(p =~= prefix + leaf);
    assert forall|j: int| 0 <= j < prefix.len() implies prefix[j] == PATH_SEPARATOR by {}
    assert(spec_split_state(prefix).1.len() == 0 && spec_split_state(prefix).0.len() == 0) by {
        reveal_with_fuel(spec_split_state, 3);
        if prefix.len() == 2 {
            assert(prefix.drop_last().drop_last() =~= Seq::<u8>::empty());
        } else if prefix.len() == 1 {
            assert(prefix.drop_last() =~= Seq::<u8>::empty());
        }
    }
    lemma_split_state_append(prefix, leaf);
    assert(Seq::<u8>::empty() + leaf =~= leaf);
    assert(spec_components(p) =~= seq![leaf]);
}

/// Index of the last `b` in `p`, if any.
pub fn rfind(p: &[u8], b: u8) -> (r: Option<usize>)
    ensures
        r matches Some(i) ==> spec_rfind(p@, b) == Some(i as int),
        r is None ==> spec_rfind(p@, b) is None,
{
    let mut i = p.len();
    proof {
        assert(p@.take(i as int) =~= p@);
    }
    while i > 0
        invariant
            i <= p@.len(),
            spec_rfind(p@, b) == spec_rfind(p@.take(i as int), b),
        decreases i,
    {
        proof {
            assert(p@.take(i as int).drop_last() =~= p@.take(i - 1));
        }
        if p[i - 1] == b {
            return Some(i - 1);
        }
        i = i - 1;
    }
    None
}

/// Splits `p` at its last `b`: the bytes before it and the bytes after it;
/// without one, `whole_first` says whether `p` is the first part (with an
/// empty second) or the second part (with an empty first).
pub open spec fn spec_split_last(p: Seq<u8>, b: u8, whole_first: bool) -> (Seq<u8>, Seq<u8>) {
    match spec_rfind(p, b) {
        Some(i) => (p.take(i), p.skip(i + 1)),
        None => if whole_first {
            (p, Seq::empty())
        } else {
            (Seq::empty(), p)
        },
    }
}

/// The bytes of `p` from `lo` to `hi`, copied.
pub fn copy_range(p: &[u8], lo: usize, hi: usize) -> (r: Vec<u8>)
    requires
        lo <= hi <= p@.len(),
    ensures
        r@ == p@.subrange(lo as int, hi as int),
{
    let mut out: Vec<u8> = Vec::new();
    let mut i = lo;
    while i < hi
        invariant
            lo <= i <= hi,
            hi <= p@.len(),
            out@ == p@.subrange(lo as int, i as int),
        decreases hi - i,
    {
        out.push(p[i]);
        proof {
            assert(out@ =~= p@.subrange(lo as int, i + 1));
        }
        i = i + 1;
    }
    out
}

/// Splits `p` at its last `b`, as `spec_split_last` says.
pub fn split_last(p: &[u8], b: u8, whole_first: bool) -> (r: (Vec<u8>, Vec<u8>))
    ensures
        (r.0@, r.1@) == spec_split_last(p@, b, whole_first),
{
    proof {
        lemma_rfind(p@, b);
    }
    match rfind(p, b) {
        Some(i) => {
            let n = p.len();
            assert(i < n);
            let first = copy_range(p, 0, i);
            let second = copy_range(p, i + 1, n);
            proof {
                assert(first@ =~= p@.take(i as int));
                assert(second@ =~= p@.skip(i + 1));
            }
            (first, second)
        },
        None => {
            let whole = copy_range(p, 0, p.len());
            proof {
                assert(whole@ =~= p@);
            }
            if whole_first {
                (whole, Vec::new())
            } else {
                (Vec::new(), whole)
            }
        },
    }
}

/// The non-empty components of `path`, in order.
pub fn components(path: &[u8]) -> (r: Vec<Vec<u8>>)
    ensures
        r@.len() == spec_components(path@).len(),
        forall|k: int| 0 <= k < r@.len() ==> (#[trigger] r@[k])@ == spec_components(path@)[k],
{
    let mut done: Vec<Vec<u8>> = Vec::new();
    let mut cur: Vec<u8> = Vec::new();
    let ghost mut done_view: Seq<Seq<u8>> = Seq::empty();
    let mut i: usize = 0;
    while i < path.len()
        invariant
            i <= path@.len(),
            spec_split_state(path@.take(i as int)) == (done_view, cur@),
            done@.len() == done_view.len(),
            forall|k: int| 0 <= k < done@.len() ==> (#[trigger] done@[k])@ == done_view[k],
        decreases path@.len() - i,
    {
        proof {
            assert(path@.take(i + 1).drop_last() =~= path@.take(i as int));
        }
        let c = path[i];
        if c == PATH_SEPARATOR {
            if cur.len() > 0 {
                let finished = cur;
                proof {
                    done_view = done_view.push(finished@);
                }
                done.push(finished);
                cur = Vec::new();
            }
        } else {
            cur.push(c);
        }
        i = i + 1;
    }
    proof {
        assert(path@.take(i as int) =~= path@);
    }
    if cur.len() > 0 {
        proof {
            done_view = done_view.push(cur@);
        }
        done.push(cur);
    }
    done
}

/// Whether two byte strings are equal.
pub fn bytes_eq(a: &[u8], b: &[u8]) -> (r: bool)
    ensures
        r == (a@ == b@),
{
    if a.len() != b.len() {
        return false;
    }
    let mut i: usize = 0;
    while i < a.len()
        invariant
            i <= a@.len(),
            a@.len() == b@.len(),
            forall|k: int| 0 <= k < i ==> a@[k] == b@[k],
        decreases a@.len() - i,
    {
        if a[i] != b[i] {
            return false;
        }
        i = i + 1;
    }
    proof {
        assert(a@ =~= b@);
    }
    true
}

} // verus!
