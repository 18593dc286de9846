//! What the stamps guarantee about reruns of the build graph.

use vstd::prelude::*;
use crate::modified::{Modified, lemma_later_is_lub};
use crate::disk::{DiskView, ReadError, is_child, tick};
use crate::asset::{
    Asset, Cache, Dir, Flatten, FlattenCached, Mapped, ModifiesPath, Pure, TextFile, ToFile,
    Volatile, evolves, is_stale, text_result,
};

verus! {

/// A cache asked twice, with the stamp of its asset no later at the second
/// request than at the first, runs the asset at most once: the second request
/// leaves the asset and the disk as they are, and both requests hand out clones
/// of one stored value.
pub proof fn lemma_cache_reuses_value<A: Asset>(
    c0: Cache<A>,
    d0: DiskView,
    c1: Cache<A>,
    d1: DiskView,
    o1: A::Output,
    d2: DiskView,
    c2: Cache<A>,
    d3: DiskView,
    o2: A::Output,
) where A::Output: Clone
    requires
        c0.step(d0, c1, d1, o1),
        c1.step(d2, c2, d3, o2),
        c1.asset.stamp(d2).le(c0.asset.stamp(d0)),
    ensures
        c2 == c1,
        d3 == d2,
        c1.cached is Some,
        vstd::pervasive::strictly_cloned(c1.cached->Some_0.1, o1),
        vstd::pervasive::strictly_cloned(c1.cached->Some_0.1, o2),
{
    let m0 = c0.asset.stamp(d0);
    if c0.fresh_at(m0) {
        assert(c1 == c0);
    } else {
        let v = choose|v: A::Output|
            #![trigger c0.asset.step(d0, c1.asset, d1, v)]
            c0.asset.step(d0, c1.asset, d1, v) && c1.cached == Some((m0, v))
                && vstd::pervasive::strictly_cloned(v, o1);
    }
    assert(c1.fresh_at(c1.asset.stamp(d2)));
}

/// A cache whose asset's stamp has passed the stored stamp runs the asset again
/// and keeps what it produced, stamped with the new stamp.
pub proof fn lemma_cache_reruns_when_stale<A: Asset>(
    c1: Cache<A>,
    d: DiskView,
    c2: Cache<A>,
    d1: DiskView,
    out: A::Output,
) where A::Output: Clone
    requires
        c1.cached is Some ==> !c1.asset.stamp(d).le(c1.cached->Some_0.0),
        c1.step(d, c2, d1, out),
    ensures
        c2.cached is Some,
        c2.cached->Some_0.0 == c1.asset.stamp(d),
        c1.asset.step(d, c2.asset, d1, c2.cached->Some_0.1),
        vstd::pervasive::strictly_cloned(c2.cached->Some_0.1, out),
{
}

/// Once the file at `p` is written anew, a cache over the text of `p` whose
/// stored stamp is not ahead of the clock reads the file again and keeps the new
/// text.
pub proof fn lemma_touched_file_is_reread(
    c1: Cache<TextFile>,
    d: DiskView,
    bytes: Seq<u8>,
    c2: Cache<TextFile>,
    d1: DiskView,
    out: Result<String, ReadError>,
)
    requires
        d.wf(),
        d.clock < u64::MAX,
        c1.cached is Some ==> c1.cached->Some_0.0.le(Modified::At(d.clock)),
        c1.step(d.after_write(c1.asset.path.deep_view(), bytes), c2, d1, out),
    ensures
        d1 == d.after_write(c1.asset.path.deep_view(), bytes),
        c2.cached is Some,
        c2.cached->Some_0.0 == Modified::At(tick(d.clock)),
        text_result(d1, c1.asset.path.deep_view(), c2.cached->Some_0.1),
        vstd::utf8::valid_utf8(bytes) ==> c2.cached->Some_0.1 is Ok && c2.cached->Some_0.1->Ok_0@
            == vstd::utf8::decode_utf8(bytes),
        vstd::pervasive::strictly_cloned(c2.cached->Some_0.1, out),
{
    let p = c1.asset.path.deep_view();
    let dw = d.after_write(p, bytes);
    assert(dw.files.contains_key(p));
    assert(c1.asset.stamp(dw) == Modified::At(tick(d.clock)));
}

/// Writing a file leaves a fresh cache over the text of another file as it is:
/// it neither reads its file again nor changes the disk.
pub proof fn lemma_other_file_is_not_reread(
    c1: Cache<TextFile>,
    d: DiskView,
    p: Seq<Seq<char>>,
    bytes: Seq<u8>,
    c2: Cache<TextFile>,
    d1: DiskView,
    out: Result<String, ReadError>,
)
    requires
        p != c1.asset.path.deep_view(),
        !d.is_dir(c1.asset.path.deep_view()),
        c1.fresh_at(c1.asset.stamp(d)),
        c1.step(d.after_write(p, bytes), c2, d1, out),
    ensures
        c2 == c1,
        d1 == d.after_write(p, bytes),
{
    assert(c1.asset.stamp(d.after_write(p, bytes)) == c1.asset.stamp(d));
}

/// After the clock ticks, a cache over an asset stamped with the present,
/// whose stored stamp is not ahead of the clock, runs the asset again: a
/// volatile input makes every consumer recompute on every run.
pub proof fn lemma_volatile_reruns_after_tick<F: Fn(()) -> O, O: Clone>(
    c: Cache<Mapped<Volatile, F>>,
    d: DiskView,
    c1: Cache<Mapped<Volatile, F>>,
    d1: DiskView,
    out: O,
)
    requires
        d.clock < u64::MAX,
        c.cached is Some ==> c.cached->Some_0.0.le(Modified::At(d.clock)),
        c.step(DiskView { clock: tick(d.clock), ..d }, c1, d1, out),
    ensures
        c1.cached is Some,
        c1.cached->Some_0.0 == Modified::At(tick(d.clock)),
        c.asset.step(DiskView { clock: tick(d.clock), ..d }, c1.asset, d1, c1.cached->Some_0.1),
{
}

/// A write node run twice with its inputs no newer at the second run than at the
/// first writes at most once: the second run changes nothing.
pub proof fn lemma_second_write_is_skipped<A: Asset<Output = String>>(
    t0: ToFile<A>,
    d0: DiskView,
    t1: ToFile<A>,
    d1: DiskView,
    t2: ToFile<A>,
    d2: DiskView,
)
    requires
        d0.wf(),
        d1.clock < u64::MAX,
        t0.asset.stamp(d0).le(Modified::At(d0.clock)),
        t0.step(d0, t1, d1, ()),
        evolves(d0, d1),
        t1.asset.stamp(d1).le(t0.asset.stamp(d0)),
        t1.step(d1, t2, d2, ()),
    ensures
        t2 == t1,
        d2 == d1,
{
    let p = t0.path.deep_view();
    if is_stale(d0.stamp_of(p), t0.asset.stamp(d0), d0.exe) {
        let (text, dm) = choose|text: String, dm: DiskView|
            #[trigger] t0.asset.step(d0, t1.asset, dm, text) && evolves(d0, dm) && d1
                == dm.after_write(p, vstd::utf8::encode_utf8(text@));
        assert(d1.files.contains_key(p));
        assert(d1.stamp_of(p) == Modified::At(tick(dm.clock)));
        assert(!is_stale(d1.stamp_of(t1.path.deep_view()), t1.asset.stamp(d1), d1.exe));
    } else {
        assert(t1 == t0);
    }
}

/// A node that gates an asset writing its path, run twice with the asset's
/// inputs no newer at the second run than at the first, does the work at most
/// once: when the first run left the path stamped by a write of that run, the
/// second run changes nothing.
pub proof fn lemma_gated_work_runs_once<A: Asset<Output = ()>>(
    m0: ModifiesPath<A>,
    d0: DiskView,
    m1: ModifiesPath<A>,
    d1: DiskView,
    m2: ModifiesPath<A>,
    d2: DiskView,
)
    requires
        d0.wf(),
        m0.asset.stamp(d0).le(Modified::At(d0.clock)),
        m0.step(d0, m1, d1, ()),
        evolves(d0, d1),
        is_stale(d0.stamp_of(m0.path.deep_view()), m0.asset.stamp(d0), d0.exe) ==> d0.clock
            < d1.clock && d1.stamp_of(m0.path.deep_view()) == Modified::At(d1.clock),
        m1.asset.stamp(d1).le(m0.asset.stamp(d0)),
        m1.step(d1, m2, d2, ()),
    ensures
        m2 == m1,
        d2 == d1,
{
    if !is_stale(d0.stamp_of(m0.path.deep_view()), m0.asset.stamp(d0), d0.exe) {
        assert(m1 == m0);
    } else {
        assert(m1.path == m0.path);
        assert(!is_stale(d1.stamp_of(m1.path.deep_view()), m1.asset.stamp(d1), d1.exe));
    }
}

/// A plan made from a directory listing is made anew on every run, from the
/// listing of the disk at that run: whatever is inside the directory then, a
/// path just added included, is in the listing it is made from; and the plan's
/// stamp is no earlier than the directory's.
pub proof fn lemma_plan_sees_new_entry<P: Asset, F: Fn(Result<Vec<Vec<String>>, ReadError>) -> P>(
    fl: Flatten<Mapped<Dir, F>>,
    d: DiskView,
    entry: Seq<Seq<char>>,
    after: Flatten<Mapped<Dir, F>>,
    d1: DiskView,
    out: P::Output,
)
    requires
        fl.wf(),
        d.is_dir(fl.asset.asset.path.deep_view()),
        d.files.contains_key(entry),
        is_child(fl.asset.asset.path.deep_view(), entry),
        fl.step(d, after, d1, out),
    ensures
        d.stamp_of(fl.asset.asset.path.deep_view()).le(fl.stamp(d)),
        exists|listing: Vec<Vec<String>>, plan: P, plan1: P|
            #![trigger fl.asset.f.ensures((Ok::<Vec<Vec<String>>, ReadError>(listing),), plan), plan.step(d, plan1, d1, out)]
            fl.asset.f.ensures((Ok::<Vec<Vec<String>>, ReadError>(listing),), plan) && plan.step(
                d,
                plan1,
                d1,
                out,
            ) && exists|k: int| 0 <= k < listing.len() && listing[k].deep_view() == entry,
{
    let (plan, plan1) = choose|plan: P, plan1: P|
        #![trigger fl.asset.gives(d, plan), plan.step(d, plan1, d1, out)]
        fl.asset.gives(d, plan) && plan.step(d, plan1, d1, out);
    let x = choose|x: Result<Vec<Vec<String>>, ReadError>|
        fl.asset.asset.gives(d, x) && #[trigger] fl.asset.f.ensures((x,), plan);
    let listing = x->Ok_0;
    assert(x == Ok::<Vec<Vec<String>>, ReadError>(listing));
    assert(d.files.contains_key(entry) && is_child(fl.asset.asset.path.deep_view(), entry));
}

/// Writing a new file into a directory restamps the directory with the next
/// tick. So the stamp of a plan made from the directory's listing moves past
/// every stamp up to the clock, and a kept plan that was made no later than
/// the clock is made anew on the next run, from a listing that holds the new
/// file.
pub proof fn lemma_new_file_restamps_plan<P: Asset, F: Fn(Result<Vec<Vec<String>>, ReadError>) -> P>(
    fl: Flatten<Mapped<Dir, F>>,
    fc: FlattenCached<Mapped<Dir, F>>,
    d: DiskView,
    name: Seq<char>,
    bytes: Seq<u8>,
    m0: Modified,
)
    requires
        d.wf(),
        d.clock < u64::MAX,
        fc.asset == fl.asset,
        d.is_dir(fl.asset.asset.path.deep_view()),
        !d.files.contains_key(fl.asset.asset.path.deep_view().push(name)),
        m0.le(Modified::At(d.clock)),
        fc.plan is Some ==> fc.plan->Some_0.0.le(Modified::At(d.clock)),
    ensures
        ({
            let dir = fl.asset.asset.path.deep_view();
            let d1 = d.after_write(dir.push(name), bytes);
            &&& d1.files.contains_key(dir.push(name))
            &&& is_child(dir, dir.push(name))
            &&& m0.lt(fl.stamp(d1))
            &&& m0.lt(fc.stamp(d1))
            &&& !fc.fresh_at(fc.asset.stamp(d1))
        }),
{
    let dir = fl.asset.asset.path.deep_view();
    let p = dir.push(name);
    let d1 = d.after_write(p, bytes);
    assert(p.take(p.len() - 1) =~= dir);
    assert(p.subrange(0, dir.len() as int) =~= dir);
    assert(d1.files.contains_key(dir));
    assert(d1.stamp_of(dir) == Modified::At(tick(d.clock)));
    let fresh = fl.asset.stamp(d1);
    lemma_later_is_lub(fresh, plan_stamp_of(fl, d1), fresh);
    lemma_later_is_lub(fresh, fc_inner(fc, d1), fresh);
}

spec fn plan_stamp_of<P: Asset, F: Fn(Result<Vec<Vec<String>>, ReadError>) -> P>(
    fl: Flatten<Mapped<Dir, F>>,
    d: DiskView,
) -> Modified {
    crate::asset::plan_of(fl.asset, d).stamp(d)
}

spec fn fc_inner<P: Asset, F: Fn(Result<Vec<Vec<String>>, ReadError>) -> P>(
    fc: FlattenCached<Mapped<Dir, F>>,
    d: DiskView,
) -> Modified {
    if fc.fresh_at(fc.asset.stamp(d)) {
        fc.plan->Some_0.1.stamp(d)
    } else {
        crate::asset::plan_of(fc.asset, d).stamp(d)
    }
}

} // verus!
