//! The build graph: assets that say when they last changed and how to produce
//! their value, and the combinators that join them.
//!
//! An asset is asked two things. `modified` gives the stamp of the inputs it
//! reads; `generate` produces its value, running only the work that the stamps
//! show to be stale. Both read the disk; only writers change it.

use vstd::prelude::*;
use crate::modified::Modified;
use crate::disk::{Disk, DiskView, ReadError, copy_path, listing_matches};

verus! {

/// `d1` can follow `d0`: the clock has not gone back and the program is the same.
pub open spec fn evolves(d0: DiskView, d1: DiskView) -> bool {
    d0.clock <= d1.clock && d1.exe == d0.exe
}

/// A node of the build graph.
pub trait Asset: Sized {
    type Output;

    /// The asset can be asked for its stamp and value.
    spec fn wf(&self) -> bool;

    /// What `modified` reports on disk `d`.
    spec fn stamp(&self, d: DiskView) -> Modified;

    /// One run of `generate`: started as `self` on `d0`, it left the asset as
    /// `after` and the disk as `d1`, and returned `out`.
    spec fn step(&self, d0: DiskView, after: Self, d1: DiskView, out: Self::Output) -> bool;

    /// The time from which the asset's inputs have been as they are.
    fn modified(&self, disk: &Disk) -> (r: Modified)
        requires
            self.wf(),
            disk.wf(),
        ensures
            r == self.stamp(disk@),
    ;

    /// Produces the asset's value.
    fn generate(&mut self, disk: &mut Disk) -> (r: Self::Output)
        requires
            old(self).wf(),
            old(disk).wf(),
        ensures
            final(self).wf(),
            final(disk).wf(),
            old(self).step(old(disk)@, *final(self), final(disk)@, r),
            evolves(old(disk)@, final(disk)@),
    ;

    /// Applies `f` to the value.
    fn map<O, F: Fn(Self::Output) -> O>(self, f: F) -> (r: Mapped<Self, F>)
        ensures
            r.asset == self,
            r.f == f,
    {
        Mapped::new(self, f)
    }

    /// Runs the plan that the value is.
    fn flatten(self) -> (r: Flatten<Self>)
        ensures
            r.asset == self,
    {
        Flatten::new(self)
    }

    /// Runs the asset, which writes `path`, only when `path` is out of date.
    fn modifies_path(self, path: Vec<String>) -> (r: ModifiesPath<Self>)
        ensures
            r.asset == self,
            r.path == path,
    {
        ModifiesPath::new(self, path)
    }

    /// Writes the text that the asset produces to `path` when `path` is out of
    /// date.
    fn to_file(self, path: Vec<String>) -> (r: ToFile<Self>)
        ensures
            r.asset == self,
            r.path == path,
    {
        ToFile::new(self, path)
    }
}

/// An asset whose value depends on the disk alone: producing it changes
/// nothing, so it may be produced only to look at it.
pub trait Pure: Asset {
    /// `out` is a value that the asset may produce on `d`.
    spec fn gives(&self, d: DiskView, out: Self::Output) -> bool;

    /// Produces the value without changing anything.
    fn compute(&self, disk: &Disk) -> (r: Self::Output)
        requires
            self.wf(),
            disk.wf(),
        ensures
            self.gives(disk@, r),
    ;
}

// ---------------------------------------------------------------------------
// Mapped

/// Applies a function to the value of an asset.
pub struct Mapped<A, F> {
    pub asset: A,
    pub f: F,
}

impl<A, F> Mapped<A, F> {
    pub fn new(asset: A, f: F) -> (r: Self)
        ensures
            r.asset == asset,
            r.f == f,
    {
        Mapped { asset, f }
    }
}

impl<A: Asset, O, F: Fn(A::Output) -> O> Asset for Mapped<A, F> {
    type Output = O;

    open spec fn wf(&self) -> bool {
        &&& self.asset.wf()
        &&& forall|x: A::Output| #[trigger] self.f.requires((x,))
    }

    open spec fn stamp(&self, d: DiskView) -> Modified {
        self.asset.stamp(d)
    }

    open spec fn step(&self, d0: DiskView, after: Self, d1: DiskView, out: O) -> bool {
        &&& after.f == self.f
        &&& exists|x: A::Output|
            self.asset.step(d0, after.asset, d1, x) && #[trigger] self.f.ensures((x,), out)
    }

    fn modified(&self, disk: &Disk) -> (r: Modified) {
        self.asset.modified(disk)
    }

    fn generate(&mut self, disk: &mut Disk) -> (r: O) {
        let x = self.asset.generate(disk);
        (self.f)(x)
    }
}

impl<A: Pure, O, F: Fn(A::Output) -> O> Pure for Mapped<A, F> {
    open spec fn gives(&self, d: DiskView, out: O) -> bool {
        exists|x: A::Output| self.asset.gives(d, x) && #[trigger] self.f.ensures((x,), out)
    }

    fn compute(&self, disk: &Disk) -> (r: O) {
        let x = self.asset.compute(disk);
        (self.f)(x)
    }
}

// ---------------------------------------------------------------------------
// Flatten

/// Runs the asset that another asset produces: a build plan chosen when the
/// graph runs, such as one step per file found in a directory.
///
/// The outer asset is pure, so it may be produced merely to ask the plan for its
/// stamp.
pub struct Flatten<A> {
    pub asset: A,
}

impl<A> Flatten<A> {
    pub fn new(asset: A) -> (r: Self)
        ensures
            r.asset == asset,
    {
        Flatten { asset }
    }
}

/// The plan that the outer asset gives on `d`.
pub open spec fn plan_of<A: Pure>(a: A, d: DiskView) -> A::Output {
    choose|v: A::Output| a.gives(d, v)
}

impl<A: Pure> Asset for Flatten<A> where A::Output: Asset {
    type Output = <A::Output as Asset>::Output;

    open spec fn wf(&self) -> bool {
        &&& self.asset.wf()
        &&& forall|d: DiskView, v: A::Output| #[trigger] self.asset.gives(d, v) ==> v.wf()
        &&& forall|d: DiskView, v: A::Output, w: A::Output|
            #![trigger self.asset.gives(d, v), self.asset.gives(d, w)]
            self.asset.gives(d, v) && self.asset.gives(d, w) ==> v.stamp(d) == w.stamp(d)
    }

    open spec fn stamp(&self, d: DiskView) -> Modified {
        self.asset.stamp(d).later(plan_of(self.asset, d).stamp(d))
    }

    open spec fn step(
        &self,
        d0: DiskView,
        after: Self,
        d1: DiskView,
        out: <A::Output as Asset>::Output,
    ) -> bool {
        &&& after == *self
        &&& exists|v: A::Output, v1: A::Output|
            #![trigger self.asset.gives(d0, v), v.step(d0, v1, d1, out)]
            self.asset.gives(d0, v) && v.step(d0, v1, d1, out)
    }

    fn modified(&self, disk: &Disk) -> (r: Modified) {
        let outer = self.asset.modified(disk);
        let plan = self.asset.compute(disk);
        let inner = plan.modified(disk);
        proof {
            assert(self.asset.gives(disk@, plan_of(self.asset, disk@)));
        }
        outer.max(inner)
    }

    fn generate(&mut self, disk: &mut Disk) -> (r: <A::Output as Asset>::Output) {
        let mut plan = self.asset.compute(disk);
        let ghost plan0 = plan;
        let ghost d0 = disk@;
        let out = plan.generate(disk);
        proof {
            assert(self.asset.gives(d0, plan0) && plan0.step(d0, plan, disk@, out));
        }
        out
    }
}

/// Like `Flatten`, but the plan is kept between runs, with the state of its
/// nodes (their caches among them), and made anew only when the stamp of the
/// asset that makes it passes the stamp it was made at. This is `Cache` and
/// `Flatten` in one.
pub struct FlattenCached<A: Asset> {
    pub asset: A,
    pub plan: Option<(Modified, A::Output)>,
}

impl<A: Asset> FlattenCached<A> {
    pub fn new(asset: A) -> (r: Self)
        ensures
            r.asset == asset,
            r.plan is None,
    {
        FlattenCached { asset, plan: None }
    }

    /// The kept plan is still good when the asset is stamped at `m`.
    pub open spec fn fresh_at(&self, m: Modified) -> bool {
        self.plan is Some && m.le(self.plan->Some_0.0)
    }
}

impl<A: Pure> Asset for FlattenCached<A> where A::Output: Asset {
    type Output = <A::Output as Asset>::Output;

    open spec fn wf(&self) -> bool {
        &&& self.asset.wf()
        &&& forall|d: DiskView, v: A::Output| #[trigger] self.asset.gives(d, v) ==> v.wf()
        &&& forall|d: DiskView, v: A::Output, w: A::Output|
            #![trigger self.asset.gives(d, v), self.asset.gives(d, w)]
            self.asset.gives(d, v) && self.asset.gives(d, w) ==> v.stamp(d) == w.stamp(d)
        &&& self.plan is Some ==> self.plan->Some_0.1.wf()
    }

    open spec fn stamp(&self, d: DiskView) -> Modified {
        let m = self.asset.stamp(d);
        m.later(
            if self.fresh_at(m) {
                self.plan->Some_0.1.stamp(d)
            } else {
                plan_of(self.asset, d).stamp(d)
            },
        )
    }

    open spec fn step(
        &self,
        d0: DiskView,
        after: Self,
        d1: DiskView,
        out: <A::Output as Asset>::Output,
    ) -> bool {
        let m = self.asset.stamp(d0);
        &&& after.asset == self.asset
        &&& if self.fresh_at(m) {
            exists|p1: A::Output|
                #![trigger self.plan->Some_0.1.step(d0, p1, d1, out)]
                self.plan->Some_0.1.step(d0, p1, d1, out) && after.plan == Some(
                    (self.plan->Some_0.0, p1),
                )
        } else {
            exists|v: A::Output, p1: A::Output|
                #![trigger self.asset.gives(d0, v), v.step(d0, p1, d1, out)]
                self.asset.gives(d0, v) && v.step(d0, p1, d1, out) && after.plan == Some((m, p1))
        }
    }

    fn modified(&self, disk: &Disk) -> (r: Modified) {
        let m = self.asset.modified(disk);
        if let Some((kept, plan)) = &self.plan {
            if kept.at_least(m) {
                return m.max(plan.modified(disk));
            }
        }
        let plan = self.asset.compute(disk);
        proof {
            assert(self.asset.gives(disk@, plan_of(self.asset, disk@)));
        }
        m.max(plan.modified(disk))
    }

    fn generate(&mut self, disk: &mut Disk) -> (r: <A::Output as Asset>::Output) {
        let m = self.asset.modified(disk);
        let ghost d0 = disk@;
        let kept = self.plan.take();
        match kept {
            Some((at, mut plan)) => {
                if at.at_least(m) {
                    let ghost p0 = plan;
                    let out = plan.generate(disk);
                    assert(p0.step(d0, plan, disk@, out));
                    self.plan = Some((at, plan));
                    return out;
                }
            },
            None => {},
        }
        let mut plan = self.asset.compute(disk);
        let ghost p0 = plan;
        let out = plan.generate(disk);
        assert(self.asset.gives(d0, p0) && p0.step(d0, plan, disk@, out));
        self.plan = Some((m, plan));
        out
    }
}

// ---------------------------------------------------------------------------
// Cache

/// Keeps the last value of an asset and hands out clones of it for as long as
/// the asset's stamp does not pass the stamp it was produced at.
pub struct Cache<A: Asset> {
    pub asset: A,
    pub cached: Option<(Modified, A::Output)>,
}

impl<A: Asset> Cache<A> {
    pub fn new(asset: A) -> (r: Self)
        ensures
            r.asset == asset,
            r.cached is None,
    {
        Cache { asset, cached: None }
    }

    /// The stored value is still good when the asset is stamped at `m`.
    pub open spec fn fresh_at(&self, m: Modified) -> bool {
        self.cached is Some && m.le(self.cached->Some_0.0)
    }
}

impl<A: Asset> Asset for Cache<A> where A::Output: Clone {
    type Output = A::Output;

    open spec fn wf(&self) -> bool {
        self.asset.wf()
    }

    open spec fn stamp(&self, d: DiskView) -> Modified {
        self.asset.stamp(d)
    }

    open spec fn step(&self, d0: DiskView, after: Self, d1: DiskView, out: A::Output) -> bool {
        let m = self.asset.stamp(d0);
        if self.fresh_at(m) {
            &&& after == *self
            &&& d1 == d0
            &&& vstd::pervasive::strictly_cloned(self.cached->Some_0.1, out)
        } else {
            exists|v: A::Output|
                #![trigger self.asset.step(d0, after.asset, d1, v)]
                self.asset.step(d0, after.asset, d1, v) && after.cached == Some((m, v))
                    && vstd::pervasive::strictly_cloned(v, out)
        }
    }

    fn modified(&self, disk: &Disk) -> (r: Modified) {
        self.asset.modified(disk)
    }

    fn generate(&mut self, disk: &mut Disk) -> (r: A::Output) {
        let m = self.asset.modified(disk);
        if let Some((last, v)) = &self.cached {
            if last.at_least(m) {
                return v.clone();
            }
        }
        let ghost d0 = disk@;
        let v = self.asset.generate(disk);
        let ghost a1 = self.asset;
        let out = v.clone();
        self.cached = Some((m, v));
        assert(old(self).asset.step(d0, a1, disk@, v));
        assert(old(self).asset.step(d0, self.asset, disk@, self.cached->Some_0.1));
        out
    }
}

// ---------------------------------------------------------------------------
// Writers

/// Whether an output stamped `output` must be redone, given the stamp of its
/// inputs and the build time of the program: it must when the inputs or the
/// program are newer than it.
pub open spec fn is_stale(output: Modified, inputs: Modified, exe: Modified) -> bool {
    output.lt(inputs) || output.lt(exe)
}

/// Runs an asset that writes `path` only when its inputs, or the program
/// itself, are newer than what is at `path`.
pub struct ModifiesPath<A> {
    pub asset: A,
    pub path: Vec<String>,
}

impl<A> ModifiesPath<A> {
    pub fn new(asset: A, path: Vec<String>) -> (r: Self)
        ensures
            r.asset == asset,
            r.path == path,
    {
        ModifiesPath { asset, path }
    }
}

impl<A: Asset<Output = ()>> Asset for ModifiesPath<A> {
    type Output = ();

    open spec fn wf(&self) -> bool {
        self.asset.wf()
    }

    open spec fn stamp(&self, d: DiskView) -> Modified {
        d.stamp_of(self.path.deep_view())
    }

    open spec fn step(&self, d0: DiskView, after: Self, d1: DiskView, out: ()) -> bool {
        if is_stale(d0.stamp_of(self.path.deep_view()), self.asset.stamp(d0), d0.exe) {
            after.path == self.path && self.asset.step(d0, after.asset, d1, ())
        } else {
            after == *self && d1 == d0
        }
    }

    fn modified(&self, disk: &Disk) -> (r: Modified) {
        disk.stamp(&self.path)
    }

    fn generate(&mut self, disk: &mut Disk) {
        let output = disk.stamp(&self.path);
        let inputs = self.asset.modified(disk);
        if !output.at_least(inputs) || !output.at_least(disk.exe_modified()) {
            self.asset.generate(disk);
        }
    }
}

/// Writes the text that an asset produces to `path`, only when the inputs, or
/// the program itself, are newer than what is at `path`.
pub struct ToFile<A> {
    pub asset: A,
    pub path: Vec<String>,
}

impl<A> ToFile<A> {
    pub fn new(asset: A, path: Vec<String>) -> (r: Self)
        ensures
            r.asset == asset,
            r.path == path,
    {
        ToFile { asset, path }
    }
}

impl<A: Asset<Output = String>> Asset for ToFile<A> {
    type Output = ();

    open spec fn wf(&self) -> bool {
        self.asset.wf()
    }

    open spec fn stamp(&self, d: DiskView) -> Modified {
        d.stamp_of(self.path.deep_view())
    }

    open spec fn step(&self, d0: DiskView, after: Self, d1: DiskView, out: ()) -> bool {
        if is_stale(d0.stamp_of(self.path.deep_view()), self.asset.stamp(d0), d0.exe) {
            &&& after.path == self.path
            &&& exists|text: String, dm: DiskView|
                #[trigger] self.asset.step(d0, after.asset, dm, text) && evolves(d0, dm) && d1
                    == dm.after_write(self.path.deep_view(), vstd::utf8::encode_utf8(text@))
        } else {
            after == *self && d1 == d0
        }
    }

    fn modified(&self, disk: &Disk) -> (r: Modified) {
        disk.stamp(&self.path)
    }

    fn generate(&mut self, disk: &mut Disk) {
        let output = disk.stamp(&self.path);
        let inputs = self.asset.modified(disk);
        if !output.at_least(inputs) || !output.at_least(disk.exe_modified()) {
            let ghost d0 = disk@;
            let text = self.asset.generate(disk);
            let ghost dm = disk@;
            let bytes = text.as_str().as_bytes_vec();
            disk.write(copy_path(&self.path), bytes);
            assert(old(self).asset.step(d0, self.asset, dm, text) && evolves(d0, dm));
            assert(disk@ == dm.after_write(self.path.deep_view(), vstd::utf8::encode_utf8(text@)));
        }
    }
}

// ---------------------------------------------------------------------------
// Boxes

impl<A: Asset> Asset for Box<A> {
    type Output = A::Output;

    open spec fn wf(&self) -> bool {
        (**self).wf()
    }

    open spec fn stamp(&self, d: DiskView) -> Modified {
        (**self).stamp(d)
    }

    open spec fn step(&self, d0: DiskView, after: Self, d1: DiskView, out: A::Output) -> bool {
        (**self).step(d0, *after, d1, out)
    }

    fn modified(&self, disk: &Disk) -> (r: Modified) {
        (**self).modified(disk)
    }

    fn generate(&mut self, disk: &mut Disk) -> (r: A::Output) {
        (**self).generate(disk)
    }
}

// ---------------------------------------------------------------------------
// Joins

/// Two assets run one after the other; stale when either is.
pub struct All2<A, B> {
    pub first: A,
    pub second: B,
}

impl<A, B> All2<A, B> {
    pub fn new(first: A, second: B) -> (r: Self)
        ensures
            r.first == first,
            r.second == second,
    {
        All2 { first, second }
    }
}

impl<A: Asset, B: Asset> Asset for All2<A, B> {
    type Output = (A::Output, B::Output);

    open spec fn wf(&self) -> bool {
        self.first.wf() && self.second.wf()
    }

    open spec fn stamp(&self, d: DiskView) -> Modified {
        self.first.stamp(d).later(self.second.stamp(d))
    }

    open spec fn step(
        &self,
        d0: DiskView,
        after: Self,
        d1: DiskView,
        out: (A::Output, B::Output),
    ) -> bool {
        exists|dm: DiskView|
            #![trigger self.first.step(d0, after.first, dm, out.0)]
            self.first.step(d0, after.first, dm, out.0) && self.second.step(
                dm,
                after.second,
                d1,
                out.1,
            )
    }

    fn modified(&self, disk: &Disk) -> (r: Modified) {
        self.first.modified(disk).max(self.second.modified(disk))
    }

    fn generate(&mut self, disk: &mut Disk) -> (r: (A::Output, B::Output)) {
        let a = self.first.generate(disk);
        let ghost dm = disk@;
        let b = self.second.generate(disk);
        let r = (a, b);
        assert(old(self).first.step(old(disk)@, self.first, dm, r.0));
        assert(old(self).second.step(dm, self.second, disk@, r.1));
        r
    }
}

impl<A: Pure, B: Pure> Pure for All2<A, B> {
    open spec fn gives(&self, d: DiskView, out: (A::Output, B::Output)) -> bool {
        self.first.gives(d, out.0) && self.second.gives(d, out.1)
    }

    fn compute(&self, disk: &Disk) -> (r: (A::Output, B::Output)) {
        (self.first.compute(disk), self.second.compute(disk))
    }
}

/// The latest stamp of a sequence of assets on `d`: `Never` when it is empty.
pub open spec fn latest<A: Asset>(s: Seq<A>, d: DiskView) -> Modified
    decreases s.len(),
{
    if s.len() == 0 {
        Modified::Never
    } else {
        latest(s.drop_last(), d).later(s.last().stamp(d))
    }
}

/// Any number of assets of one kind, run in order; one value for each, in the
/// same order.
pub struct AllVec<A> {
    pub assets: Vec<A>,
}

/// Joins the assets of a vector.
pub fn all<A>(assets: Vec<A>) -> (r: AllVec<A>)
    ensures
        r.assets == assets,
{
    AllVec { assets }
}

impl<A: Asset> Asset for AllVec<A> {
    type Output = Vec<A::Output>;

    open spec fn wf(&self) -> bool {
        forall|i: int| 0 <= i < self.assets.len() ==> #[trigger] self.assets[i].wf()
    }

    open spec fn stamp(&self, d: DiskView) -> Modified {
        latest(self.assets@, d)
    }

    open spec fn step(&self, d0: DiskView, after: Self, d1: DiskView, out: Vec<A::Output>) -> bool {
        &&& after.assets.len() == self.assets.len()
        &&& out.len() == self.assets.len()
        &&& exists|ds: Seq<DiskView>|
            #![trigger ds.len()]
            ds.len() == self.assets.len() + 1 && ds[0] == d0 && ds.last() == d1 && forall|i: int|
                0 <= i < self.assets.len() ==> #[trigger] self.assets[i].step(
                    ds[i],
                    after.assets[i],
                    ds[i + 1],
                    out[i],
                )
    }

    fn modified(&self, disk: &Disk) -> (r: Modified) {
        let mut acc = Modified::Never;
        let mut i: usize = 0;
        while i < self.assets.len()
            invariant
                self.wf(),
                disk.wf(),
                0 <= i <= self.assets.len(),
                acc == latest(self.assets@.take(i as int), disk@),
            decreases self.assets.len() - i,
        {
            let m = self.assets[i].modified(disk);
            assert(self.assets@.take(i + 1).drop_last() =~= self.assets@.take(i as int));
            acc = acc.max(m);
            i += 1;
        }
        assert(self.assets@.take(i as int) =~= self.assets@);
        acc
    }

    fn generate(&mut self, disk: &mut Disk) -> (r: Vec<A::Output>) {
        let ghost orig = self.assets@;
        let ghost d0 = disk@;
        let mut rest: Vec<A> = Vec::new();
        std::mem::swap(&mut rest, &mut self.assets);
        let mut done: Vec<A> = Vec::new();
        let mut outs: Vec<A::Output> = Vec::new();
        let ghost mut ds: Seq<DiskView> = seq![disk@];
        while rest.len() > 0
            invariant
                disk.wf(),
                done.len() + rest.len() == orig.len(),
                outs.len() == done.len(),
                rest@ == orig.subrange(done.len() as int, orig.len() as int),
                forall|i: int| 0 <= i < orig.len() ==> #[trigger] orig[i].wf(),
                forall|i: int| 0 <= i < done.len() ==> #[trigger] done[i].wf(),
                ds.len() == done.len() + 1,
                ds[0] == d0,
                ds.last() == disk@,
                evolves(d0, disk@),
                forall|i: int|
                    0 <= i < done.len() ==> #[trigger] orig[i].step(
                        ds[i],
                        done[i],
                        ds[i + 1],
                        outs[i],
                    ),
            decreases rest.len(),
        {
            let mut a = rest.remove(0);
            assert(a == orig[done.len() as int]);
            let ghost dprev = disk@;
            let o = a.generate(disk);
            let ghost k = done.len() as int;
            done.push(a);
            outs.push(o);
            proof {
                ds = ds.push(disk@);
                assert(rest@ =~= orig.subrange(done.len() as int, orig.len() as int));
                assert forall|i: int| 0 <= i < done.len() implies #[trigger] orig[i].step(
                    ds[i],
                    done[i],
                    ds[i + 1],
                    outs[i],
                ) by {
                    if i == k {
                        assert(ds[i] == dprev);
                    }
                }
            }
        }
        self.assets = done;
        proof {
            assert(ds.len() == orig.len() + 1);
        }
        outs
    }
}

impl<A: Pure> Pure for AllVec<A> {
    open spec fn gives(&self, d: DiskView, out: Vec<A::Output>) -> bool {
        &&& out.len() == self.assets.len()
        &&& forall|i: int| 0 <= i < self.assets.len() ==> #[trigger] self.assets[i].gives(d, out[i])
    }

    fn compute(&self, disk: &Disk) -> (r: Vec<A::Output>) {
        let mut outs: Vec<A::Output> = Vec::new();
        let mut i: usize = 0;
        while i < self.assets.len()
            invariant
                self.wf(),
                disk.wf(),
                0 <= i <= self.assets.len(),
                outs.len() == i,
                forall|k: int| 0 <= k < i ==> #[trigger] self.assets[k].gives(disk@, outs[k]),
            decreases self.assets.len() - i,
        {
            let o = self.assets[i].compute(disk);
            outs.push(o);
            i += 1;
        }
        outs
    }
}

// ---------------------------------------------------------------------------
// Leaves

/// A value that never changes: never stale.
pub struct Constant<T> {
    pub value: T,
}

impl<T> Constant<T> {
    pub fn new(value: T) -> (r: Self)
        ensures
            r.value == value,
    {
        Constant { value }
    }
}

impl<T: Clone> Asset for Constant<T> {
    type Output = T;

    open spec fn wf(&self) -> bool {
        true
    }

    open spec fn stamp(&self, d: DiskView) -> Modified {
        Modified::Never
    }

    open spec fn step(&self, d0: DiskView, after: Self, d1: DiskView, out: T) -> bool {
        after == *self && d1 == d0 && vstd::pervasive::strictly_cloned(self.value, out)
    }

    fn modified(&self, disk: &Disk) -> (r: Modified) {
        Modified::Never
    }

    fn generate(&mut self, disk: &mut Disk) -> (r: T) {
        self.value.clone()
    }
}

impl<T: Clone> Pure for Constant<T> {
    open spec fn gives(&self, d: DiskView, out: T) -> bool {
        vstd::pervasive::strictly_cloned(self.value, out)
    }

    fn compute(&self, disk: &Disk) -> (r: T) {
        self.value.clone()
    }
}

/// A value captured at a known instant, such as an option of this run of the
/// program: everything that depends on it is redone once per run.
pub struct Dynamic<T> {
    pub value: T,
    pub created: u64,
}

impl<T> Dynamic<T> {
    /// `value`, captured at `created`.
    pub fn new(value: T, created: u64) -> (r: Self)
        ensures
            r.value == value,
            r.created == created,
    {
        Dynamic { value, created }
    }
}

impl<T: Clone> Asset for Dynamic<T> {
    type Output = T;

    open spec fn wf(&self) -> bool {
        true
    }

    open spec fn stamp(&self, d: DiskView) -> Modified {
        Modified::At(self.created)
    }

    open spec fn step(&self, d0: DiskView, after: Self, d1: DiskView, out: T) -> bool {
        after == *self && d1 == d0 && vstd::pervasive::strictly_cloned(self.value, out)
    }

    fn modified(&self, disk: &Disk) -> (r: Modified) {
        Modified::At(self.created)
    }

    fn generate(&mut self, disk: &mut Disk) -> (r: T) {
        self.value.clone()
    }
}

impl<T: Clone> Pure for Dynamic<T> {
    open spec fn gives(&self, d: DiskView, out: T) -> bool {
        vstd::pervasive::strictly_cloned(self.value, out)
    }

    fn compute(&self, disk: &Disk) -> (r: T) {
        self.value.clone()
    }
}

/// Stamped with the present on every query: whatever depends on it is redone
/// every time.
pub struct Volatile;

impl Asset for Volatile {
    type Output = ();

    open spec fn wf(&self) -> bool {
        true
    }

    open spec fn stamp(&self, d: DiskView) -> Modified {
        Modified::At(d.clock)
    }

    open spec fn step(&self, d0: DiskView, after: Self, d1: DiskView, out: ()) -> bool {
        d1 == d0
    }

    fn modified(&self, disk: &Disk) -> (r: Modified) {
        Modified::At(disk.now())
    }

    fn generate(&mut self, disk: &mut Disk) {
    }
}

impl Pure for Volatile {
    open spec fn gives(&self, d: DiskView, out: ()) -> bool {
        true
    }

    fn compute(&self, disk: &Disk) {
    }
}

/// The stamp of a path, with no value: gates work on the existence and age of a
/// path without reading it.
pub struct FsPath {
    pub path: Vec<String>,
}

impl FsPath {
    pub fn new(path: Vec<String>) -> (r: Self)
        ensures
            r.path == path,
    {
        FsPath { path }
    }
}

impl Asset for FsPath {
    type Output = ();

    open spec fn wf(&self) -> bool {
        true
    }

    open spec fn stamp(&self, d: DiskView) -> Modified {
        d.stamp_of(self.path.deep_view())
    }

    open spec fn step(&self, d0: DiskView, after: Self, d1: DiskView, out: ()) -> bool {
        after == *self && d1 == d0
    }

    fn modified(&self, disk: &Disk) -> (r: Modified) {
        disk.stamp(&self.path)
    }

    fn generate(&mut self, disk: &mut Disk) {
    }
}

impl Pure for FsPath {
    open spec fn gives(&self, d: DiskView, out: ()) -> bool {
        true
    }

    fn compute(&self, disk: &Disk) {
    }
}

/// What reading the text file at `p` on `d` gives.
pub open spec fn text_result(d: DiskView, p: Seq<Seq<char>>, r: Result<String, ReadError>) -> bool {
    match r {
        Ok(s) => d.text_of(p) == Some(s@),
        Err(e) => d.text_of(p) is None && e.path.deep_view() == p,
    }
}

/// The whole text of a file.
pub struct TextFile {
    pub path: Vec<String>,
}

impl TextFile {
    pub fn new(path: Vec<String>) -> (r: Self)
        ensures
            r.path == path,
    {
        TextFile { path }
    }
}

impl Asset for TextFile {
    type Output = Result<String, ReadError>;

    open spec fn wf(&self) -> bool {
        true
    }

    open spec fn stamp(&self, d: DiskView) -> Modified {
        d.stamp_of(self.path.deep_view())
    }

    open spec fn step(
        &self,
        d0: DiskView,
        after: Self,
        d1: DiskView,
        out: Result<String, ReadError>,
    ) -> bool {
        after == *self && d1 == d0 && text_result(d0, self.path.deep_view(), out)
    }

    fn modified(&self, disk: &Disk) -> (r: Modified) {
        disk.stamp(&self.path)
    }

    fn generate(&mut self, disk: &mut Disk) -> (r: Result<String, ReadError>) {
        disk.read_text(&self.path)
    }
}

impl Pure for TextFile {
    open spec fn gives(&self, d: DiskView, out: Result<String, ReadError>) -> bool {
        text_result(d, self.path.deep_view(), out)
    }

    fn compute(&self, disk: &Disk) -> (r: Result<String, ReadError>) {
        disk.read_text(&self.path)
    }
}

/// What listing the directory at `p` on `d` gives.
pub open spec fn listing_result(
    d: DiskView,
    p: Seq<Seq<char>>,
    r: Result<Vec<Vec<String>>, ReadError>,
) -> bool {
    match r {
        Ok(v) => d.is_dir(p) && listing_matches(d, p, v),
        Err(e) => !d.is_dir(p) && e.path.deep_view() == p,
    }
}

/// The paths directly inside a directory. Only the directory's own stamp is
/// tracked: a change deeper down is not seen here.
pub struct Dir {
    pub path: Vec<String>,
}

impl Dir {
    pub fn new(path: Vec<String>) -> (r: Self)
        ensures
            r.path == path,
    {
        Dir { path }
    }
}

impl Asset for Dir {
    type Output = Result<Vec<Vec<String>>, ReadError>;

    open spec fn wf(&self) -> bool {
        true
    }

    open spec fn stamp(&self, d: DiskView) -> Modified {
        d.stamp_of(self.path.deep_view())
    }

    open spec fn step(
        &self,
        d0: DiskView,
        after: Self,
        d1: DiskView,
        out: Result<Vec<Vec<String>>, ReadError>,
    ) -> bool {
        after == *self && d1 == d0 && listing_result(d0, self.path.deep_view(), out)
    }

    fn modified(&self, disk: &Disk) -> (r: Modified) {
        disk.stamp(&self.path)
    }

    fn generate(&mut self, disk: &mut Disk) -> (r: Result<Vec<Vec<String>>, ReadError>) {
        disk.list_dir(&self.path)
    }
}

impl Pure for Dir {
    open spec fn gives(&self, d: DiskView, out: Result<Vec<Vec<String>>, ReadError>) -> bool {
        listing_result(d, self.path.deep_view(), out)
    }

    fn compute(&self, disk: &Disk) -> (r: Result<Vec<Vec<String>>, ReadError>) {
        disk.list_dir(&self.path)
    }
}

} // verus!
