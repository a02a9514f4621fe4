//! The in-memory index of registered artifacts, keyed by lifetime.

use vstd::prelude::*;

use crate::assoc::{assoc_map, keys_distinct, lemma_assoc_contains, lemma_assoc_get,
    lemma_assoc_push, lemma_assoc_remove, lemma_distinct_push, lemma_distinct_remove};
use crate::lifetime::Lifetime;

verus! {

/// A registered launcher descriptor: the application id it was registered
/// under and the path of its backing file.  Identity is by id; the path
/// is informational.
#[derive(Clone, Debug)]
pub struct DesktopHandle {
    pub appid: String,
    pub path: String,
}

/// A registered icon: its name and the path of its backing file.
/// Identity is by name; the path is informational.
#[derive(Clone, Debug)]
pub struct IconHandle {
    pub icon_name: String,
    pub icon_path: String,
}

/// What a handle records, mathematically.
pub struct HandleView {
    pub name: Seq<char>,
    pub path: Seq<char>,
}

impl View for DesktopHandle {
    type V = HandleView;

    open spec fn view(&self) -> HandleView {
        HandleView { name: self.appid@, path: self.path@ }
    }
}

impl View for IconHandle {
    type V = HandleView;

    open spec fn view(&self) -> HandleView {
        HandleView { name: self.icon_name@, path: self.icon_path@ }
    }
}

/// The handles owned by one lifetime, in registration order.
#[derive(Clone, Debug)]
pub struct Bucket<H> {
    pub lifetime: Lifetime,
    pub handles: Vec<H>,
}

/// The association sequence a bucket vector denotes.
pub open spec fn buckets_assoc<H: View<V = HandleView>>(bs: Seq<Bucket<H>>) -> Seq<
    (Lifetime, Seq<HandleView>),
> {
    bs.map_values(|b: Bucket<H>| (b.lifetime, b.handles@.map_values(|h: H| h@)))
}

/// The map from lifetimes to owned handles a bucket vector denotes.
pub open spec fn buckets_map<H: View<V = HandleView>>(bs: Seq<Bucket<H>>) -> Map<
    Lifetime,
    Seq<HandleView>,
> {
    assoc_map(buckets_assoc(bs))
}

/// Each lifetime owns at most one bucket.
pub open spec fn buckets_wf<H: View<V = HandleView>>(bs: Seq<Bucket<H>>) -> bool {
    keys_distinct(buckets_assoc(bs))
}

/// The two indexes of the registrar: which entry handles and which icon
/// handles each lifetime currently owns.
#[derive(Clone, Debug)]
pub struct EntryCache {
    pub entries: Vec<Bucket<DesktopHandle>>,
    pub icons: Vec<Bucket<IconHandle>>,
}

impl EntryCache {
    pub open spec fn entries_map(self) -> Map<Lifetime, Seq<HandleView>> {
        buckets_map(self.entries@)
    }

    pub open spec fn icons_map(self) -> Map<Lifetime, Seq<HandleView>> {
        buckets_map(self.icons@)
    }

    pub open spec fn wf(self) -> bool {
        buckets_wf(self.entries@) && buckets_wf(self.icons@)
    }

    /// An index with no registrations.
    pub fn new() -> (r: Self)
        ensures
            r.wf(),
            r.entries_map() == Map::<Lifetime, Seq<HandleView>>::empty(),
            r.icons_map() == Map::<Lifetime, Seq<HandleView>>::empty(),
    {
        let r = EntryCache { entries: Vec::new(), icons: Vec::new() };
        proof {
            assert(buckets_assoc(r.entries@) =~= Seq::<(Lifetime, Seq<HandleView>)>::empty());
            assert(buckets_assoc(r.icons@) =~= Seq::<(Lifetime, Seq<HandleView>)>::empty());
        }
        r
    }
}

/// The bucket a lifetime owns, if any.
fn find_bucket<H: View<V = HandleView>>(bs: &Vec<Bucket<H>>, lt: Lifetime) -> (r: Option<usize>)
    ensures
        match r {
            Some(i) => i < bs@.len() && bs@[i as int].lifetime == lt,
            None => forall|i: int| 0 <= i < bs@.len() ==> (#[trigger] bs@[i]).lifetime != lt,
        },
{
    let n = bs.len();
    let mut i: usize = 0;
    while i < n
        invariant
            0 <= i <= n,
            n == bs@.len(),
            forall|j: int| 0 <= j < i ==> (#[trigger] bs@[j]).lifetime != lt,
        decreases n - i,
    {
        if bs[i].lifetime == lt {
            return Some(i);
        }
        i += 1;
    }
    None
}

/// Appends a handle to the lifetime's bucket, creating the bucket if the
/// lifetime owns none yet.
pub fn push_handle<H: View<V = HandleView>>(bs: &mut Vec<Bucket<H>>, lt: Lifetime, h: H)
    requires
        buckets_wf(old(bs)@),
    ensures
        buckets_wf(final(bs)@),
        buckets_map(final(bs)@) == buckets_map(old(bs)@).insert(
            lt,
            bucket_or_empty(buckets_map(old(bs)@), lt).push(h@),
        ),
{
    let ghost hv: HandleView = h@;
    let ghost r0: Seq<(Lifetime, Seq<HandleView>)> = buckets_assoc(bs@);
    proof {
        lemma_assoc_contains(r0, lt);
    }
    match find_bucket(bs, lt) {
        None => {
            let mut handles: Vec<H> = Vec::new();
            handles.push(h);
            let b = Bucket { lifetime: lt, handles };
            bs.push(b);
            proof {
                assert(forall|i: int| 0 <= i < r0.len() ==> (#[trigger] r0[i]).0 != lt);
                assert(!buckets_map(old(bs)@).contains_key(lt));
                let p = (lt, seq![hv]);
                assert(buckets_assoc(bs@) =~~= r0.push(p));
                lemma_assoc_push(r0, p);
                lemma_distinct_push(r0, p);
                assert(bucket_or_empty(buckets_map(old(bs)@), lt).push(hv) =~= seq![hv]);
            }
        },
        Some(i) => {
            let ghost prev: Seq<HandleView> = bs@[i as int].handles@.map_values(|x: H| x@);
            proof {
                lemma_assoc_get(r0, i as int);
                assert(r0[i as int] == (lt, prev));
                assert(bucket_or_empty(buckets_map(old(bs)@), lt) == prev);
            }
            let mut b = bs.remove(i);
            b.handles.push(h);
            bs.push(b);
            proof {
                let r1 = r0.remove(i as int);
                let p = (lt, prev.push(hv));
                assert(b.handles@.map_values(|x: H| x@) =~= prev.push(hv));
                assert(buckets_assoc(bs@) =~~= r1.push(p));
                lemma_assoc_remove(r0, i as int);
                lemma_assoc_push(r1, p);
                lemma_distinct_remove(r0, i as int);
                assert forall|j: int| 0 <= j < r1.len() implies (#[trigger] r1[j]).0 != lt by {
                    let j0: int = if j < i { j } else { j + 1 };
                    assert(r1[j] == r0[j0]);
                    if j0 < i {
                        assert(r0[j0].0 != r0[i as int].0);
                    } else {
                        assert(r0[i as int].0 != r0[j0].0);
                    }
                }
                lemma_distinct_push(r1, p);
                assert(buckets_map(bs@) =~~= buckets_map(old(bs)@).insert(lt, prev.push(hv)));
            }
        },
    }
}

/// The handles a lifetime owns, or the empty sequence if it owns none.
pub open spec fn bucket_or_empty(m: Map<Lifetime, Seq<HandleView>>, lt: Lifetime) -> Seq<
    HandleView,
> {
    if m.contains_key(lt) {
        m[lt]
    } else {
        Seq::empty()
    }
}

/// Takes the handle appended last to the lifetime's bucket back out, if
/// the bucket holds any.
pub fn pop_handle<H: View<V = HandleView>>(bs: &mut Vec<Bucket<H>>, lt: Lifetime) -> (r: Option<H>)
    requires
        buckets_wf(old(bs)@),
    ensures
        buckets_wf(final(bs)@),
        match r {
            Some(h) => buckets_map(old(bs)@).contains_key(lt) && buckets_map(old(bs)@)[lt].len()
                > 0 && h@ == buckets_map(old(bs)@)[lt].last() && buckets_map(final(bs)@)
                == buckets_map(old(bs)@).insert(lt, buckets_map(old(bs)@)[lt].drop_last()),
            None => (!buckets_map(old(bs)@).contains_key(lt) || buckets_map(old(bs)@)[lt].len()
                == 0) && *final(bs) == *old(bs),
        },
{
    let ghost r0: Seq<(Lifetime, Seq<HandleView>)> = buckets_assoc(bs@);
    proof {
        lemma_assoc_contains(r0, lt);
    }
    match find_bucket(bs, lt) {
        None => {
            proof {
                assert(forall|i: int| 0 <= i < r0.len() ==> (#[trigger] r0[i]).0 != lt);
                assert(!buckets_map(bs@).contains_key(lt));
            }
            None
        },
        Some(i) => {
            let ghost prev: Seq<HandleView> = bs@[i as int].handles@.map_values(|x: H| x@);
            proof {
                lemma_assoc_get(r0, i as int);
                assert(r0[i as int] == (lt, prev));
            }
            if bs[i].handles.len() == 0 {
                return None;
            }
            let mut b = bs.remove(i);
            let popped = b.handles.pop();
            bs.push(b);
            proof {
                let r1 = r0.remove(i as int);
                lemma_assoc_remove(r0, i as int);
                lemma_distinct_remove(r0, i as int);
                assert forall|j: int| 0 <= j < r1.len() implies (#[trigger] r1[j]).0 != lt by {
                    let j0: int = if j < i { j } else { j + 1 };
                    assert(r1[j] == r0[j0]);
                    if j0 < i {
                        assert(r0[j0].0 != r0[i as int].0);
                    } else {
                        assert(r0[i as int].0 != r0[j0].0);
                    }
                }
                let p = (lt, prev.drop_last());
                assert(b.handles@.map_values(|x: H| x@) =~= prev.drop_last());
                assert(buckets_assoc(bs@) =~~= r1.push(p));
                lemma_assoc_push(r1, p);
                lemma_distinct_push(r1, p);
                assert(buckets_map(bs@) =~~= buckets_map(old(bs)@).insert(lt, prev.drop_last()));
            }
            match popped {
                Some(h) => Some(h),
                None => None,
            }
        },
    }
}

/// A lifetime stands in the map exactly when some bucket carries it.
pub proof fn lemma_buckets_contains<H: View<V = HandleView>>(bs: Seq<Bucket<H>>, lt: Lifetime)
    ensures
        buckets_map(bs).contains_key(lt) <==> exists|i: int|
            0 <= i < bs.len() && (#[trigger] bs[i]).lifetime == lt,
{
    lemma_assoc_contains(buckets_assoc(bs), lt);
    if buckets_map(bs).contains_key(lt) {
        let i = choose|i: int| 0 <= i < buckets_assoc(bs).len() && (#[trigger] buckets_assoc(
            bs,
        )[i]).0 == lt;
        assert(bs[i].lifetime == lt);
    }
    if exists|i: int| 0 <= i < bs.len() && (#[trigger] bs[i]).lifetime == lt {
        let i = choose|i: int| 0 <= i < bs.len() && (#[trigger] bs[i]).lifetime == lt;
        assert(buckets_assoc(bs)[i].0 == lt);
    }
}

/// Takes the lifetime's bucket out of the index, if it owns one.
pub fn take_bucket<H: View<V = HandleView>>(bs: &mut Vec<Bucket<H>>, lt: Lifetime) -> (r: Option<
    Bucket<H>,
>)
    requires
        buckets_wf(old(bs)@),
    ensures
        buckets_wf(final(bs)@),
        buckets_map(final(bs)@) == buckets_map(old(bs)@).remove(lt),
        match r {
            Some(b) => buckets_map(old(bs)@).contains_key(lt) && b.lifetime == lt
                && b.handles@.map_values(|h: H| h@) == buckets_map(old(bs)@)[lt],
            None => !buckets_map(old(bs)@).contains_key(lt),
        },
{
    let ghost r0: Seq<(Lifetime, Seq<HandleView>)> = buckets_assoc(bs@);
    proof {
        lemma_assoc_contains(r0, lt);
    }
    match find_bucket(bs, lt) {
        None => {
            proof {
                assert(forall|i: int| 0 <= i < r0.len() ==> (#[trigger] r0[i]).0 != lt);
                assert(!buckets_map(bs@).contains_key(lt));
                assert(buckets_map(bs@) =~= buckets_map(bs@).remove(lt));
            }
            None
        },
        Some(i) => {
            proof {
                lemma_assoc_get(r0, i as int);
            }
            let b = bs.remove(i);
            proof {
                assert(buckets_assoc(bs@) =~~= r0.remove(i as int));
                lemma_assoc_remove(r0, i as int);
                lemma_distinct_remove(r0, i as int);
            }
            Some(b)
        },
    }
}

} // verus!
