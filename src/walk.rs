//! The sequential walk as a state machine: it asks for one directory listing at a
//! time and turns each listing into records, depth-first and in pre-order.
use vstd::prelude::*;
use crate::inventory::{admitted_entries, read_level, remaining_depth, visit_matches, MetaData, Visit};
use crate::walker::{path_hash, path_hash_of, patterns_valid, EntryInfo, Settings};

verus! {

/// Some directory record in `records` has id `h`.
pub open spec fn has_dir_record(records: Seq<MetaData>, h: u64) -> bool {
    exists|i: int| 0 <= i < records.len() && (#[trigger] records[i] matches MetaData::Directory(d) && d.hash == h)
}

/// `h` is the walk root's id or the id of a directory record in `records`.
pub open spec fn linked(records: Seq<MetaData>, root_hash: u64, h: u64) -> bool {
    h == root_hash || has_dir_record(records, h)
}

/// Every file record's parent id names the walk root or a directory record.
pub open spec fn parents_linked(records: Seq<MetaData>, root_hash: u64) -> bool {
    forall|i: int| 0 <= i < records.len() ==> (#[trigger] records[i] matches MetaData::File(f) ==> linked(
        records,
        root_hash,
        f.directory_hash,
    ))
}

/// A directory listing that the walk waits for: the directory's path, the depth left
/// for its entries, and the id that its directory entries take as parent.
pub struct Request {
    pub path: String,
    pub depth: i32,
    pub parent_hash: u64,
}

/// An admitted entry whose record is not emitted yet.
struct Frame {
    visit: Visit,
    depth: i32,
}

spec fn frame_ok(f: Frame, records: Seq<MetaData>, root_hash: u64) -> bool {
    &&& f.visit.record matches MetaData::File(x) ==> linked(records, root_hash, x.directory_hash)
    &&& f.visit.record matches MetaData::Directory(d) ==> d.hash == path_hash_of(f.visit.path@)
        && f.visit.hash == d.hash
}

/// A walk in progress over one root.
pub struct Walker {
    root: Ghost<Seq<char>>,
    root_hash: u64,
    frames: Vec<Frame>,
    records: Vec<MetaData>,
    current: Option<Request>,
}

proof fn lemma_linked_grows(records: Seq<MetaData>, x: MetaData, root_hash: u64, h: u64)
    requires
        linked(records, root_hash, h),
    ensures
        linked(records.push(x), root_hash, h),
{
    if h != root_hash {
        let i = choose|i: int| 0 <= i < records.len() && (#[trigger] records[i] matches MetaData::Directory(d) && d.hash == h);
        assert(records.push(x)[i] == records[i]);
    }
}

impl Walker {
    pub closed spec fn spec_root(&self) -> Seq<char> {
        self.root@
    }

    pub closed spec fn spec_records(&self) -> Seq<MetaData> {
        self.records@
    }

    /// The listing the walk waits for, if any.
    pub closed spec fn spec_current(&self) -> Option<Request> {
        self.current
    }

    pub closed spec fn spec_pending(&self) -> nat {
        self.frames@.len()
    }

    /// The `i`-th pending entry, counted from the bottom of the stack; the top is
    /// emitted first.
    pub closed spec fn pending_visit(&self, i: int) -> Visit {
        self.frames@[i].visit
    }

    /// The depth left below the `i`-th pending entry.
    pub closed spec fn pending_depth(&self, i: int) -> i32 {
        self.frames@[i].depth
    }

    /// `after` is `before` with entries popped from the top of the pending stack and
    /// their records appended, in the order they were popped.
    pub open spec fn emitted_from_top(before: Walker, after: Walker) -> bool {
        let n0 = before.spec_records().len();
        let e = after.spec_records().len() - n0;
        &&& after.spec_pending() + e == before.spec_pending()
        &&& forall|j: int| 0 <= j < e ==> after.spec_records()[n0 + j] == (#[trigger] before.pending_visit(
            before.spec_pending() - 1 - j,
        )).record
        &&& forall|i: int| 0 <= i < after.spec_pending() ==> #[trigger] after.pending_visit(i) == before.pending_visit(i)
            && after.pending_depth(i) == before.pending_depth(i)
    }

    /// `after` is `before` with a record for each admitted entry pushed on the pending
    /// stack, the last entry first, so that the first entry is emitted first.
    pub open spec fn pushed_in_reverse(before: Walker, after: Walker, adm: Seq<EntryInfo>, req: Request) -> bool {
        let p0 = before.spec_pending();
        &&& after.spec_pending() == p0 + adm.len()
        &&& forall|i: int| 0 <= i < p0 ==> #[trigger] after.pending_visit(i) == before.pending_visit(i)
            && after.pending_depth(i) == before.pending_depth(i)
        &&& forall|k: int| 0 <= k < adm.len() ==> visit_matches(
            #[trigger] after.pending_visit(p0 + k),
            adm[adm.len() - 1 - k],
            req.path@,
            req.parent_hash,
        ) && after.pending_depth(p0 + k) == req.depth
    }

    /// The `i`-th pending entry is a directory with depth left to list it.
    pub open spec fn descends(w: Walker, i: int) -> bool {
        w.pending_visit(i).record is Directory && w.pending_depth(i) > 1
    }

    /// Of the entries popped from `before`, only the last may be a directory to list,
    /// and it is exactly when a request comes out; that request lists the directory's
    /// path, with one level less, its entries taking the directory's id as parent.
    pub open spec fn stops_at_first_descent(before: Walker, after: Walker, requested: bool) -> bool {
        let n0 = before.spec_records().len();
        let e = after.spec_records().len() - n0;
        let top = before.spec_pending() - e;
        &&& forall|j: int| 0 <= j < e - 1 ==> !#[trigger] Self::descends(before, before.spec_pending() - 1 - j)
        &&& requested <==> (e > 0 && Self::descends(before, top))
        &&& requested ==> (after.spec_current() matches Some(req) && req.path@ == before.pending_visit(top).path@
            && req.depth == before.pending_depth(top) - 1 && req.parent_hash == before.pending_visit(top).hash)
    }

    pub closed spec fn wf(&self) -> bool {
        &&& self.root_hash == path_hash_of(self.root@)
        &&& parents_linked(self.records@, self.root_hash)
        &&& forall|k: int| 0 <= k < self.frames.len() ==> frame_ok(#[trigger] self.frames@[k], self.records@, self.root_hash)
        &&& self.current matches Some(req) ==> linked(self.records@, self.root_hash, path_hash_of(req.path@))
            && req.depth > 0
    }

    /// Starts a walk of `root` with `depth` levels: the root is listed only while
    /// `depth`, decreased by one, stays positive.
    pub fn new(root: &str, depth: i32) -> (w: Walker)
        ensures
            w.wf(),
            w.spec_root() == root@,
            w.spec_records().len() == 0,
            w.spec_pending() == 0,
            depth <= 1 ==> w.spec_current() is None,
            depth > 1 ==> (w.spec_current() matches Some(req) && req.path@ == root@ && req.depth == depth - 1
                && req.parent_hash == 0),
    {
        let root_hash = path_hash(root);
        let current = match remaining_depth(depth) {
            Some(d) => Some(Request { path: root.to_owned(), depth: d, parent_hash: 0 }),
            None => None,
        };
        Walker { root: Ghost(root@), root_hash, frames: Vec::new(), records: Vec::new(), current }
    }

    /// The path of the next directory to list, or nothing when the walk is done.
    /// Entries that come before it in pre-order have their records emitted; only
    /// directories are listed.
    pub fn next_request(&mut self) -> (r: Option<String>)
        requires
            old(self).wf(),
        ensures
            final(self).wf(),
            final(self).spec_root() == old(self).spec_root(),
            old(self).spec_records().len() <= final(self).spec_records().len(),
            final(self).spec_records().subrange(0, old(self).spec_records().len() as int)
                == old(self).spec_records(),
            old(self).spec_current() is Some ==> *final(self) == *old(self),
            match r {
                Some(p) => final(self).spec_current() matches Some(req) && req.path@ == p@,
                None => final(self).spec_current() is None && final(self).spec_pending() == 0,
            },
            old(self).spec_current() is None ==> Self::emitted_from_top(*old(self), *final(self))
                && Self::stops_at_first_descent(*old(self), *final(self), r is Some),
    {
        if let Some(req) = &self.current {
            return Some(req.path.clone());
        }
        let ghost start = self.records@;
        while self.frames.len() > 0
            invariant
                self.wf(),
                self.current is None,
                old(self).current is None,
                self.root == old(self).root,
                start == old(self).records@,
                start.len() <= self.records@.len(),
                self.records@.subrange(0, start.len() as int) == start,
                Self::emitted_from_top(*old(self), *self),
                forall|j: int| 0 <= j < self.records@.len() - start.len() ==> !#[trigger] Self::descends(
                    *old(self),
                    old(self).spec_pending() - 1 - j,
                ),
            decreases self.frames.len(),
        {
            let ghost before = self.records@;
            let ghost frames_before = self.frames@;
            let ghost w_before = *self;
            let ghost idx = frames_before.len() - 1;
            let frame = self.frames.pop().unwrap();
            proof {
                assert(frames_before[frames_before.len() - 1] == frame);
                assert(frame_ok(frame, before, self.root_hash));
                assert(w_before.pending_visit(idx) == old(self).pending_visit(idx));
                assert(old(self).pending_visit(idx) == frame.visit && old(self).pending_depth(idx) == frame.depth);
                assert(idx == old(self).spec_pending() - 1 - (before.len() - start.len()));
            }
            let Frame { visit, depth } = frame;
            let Visit { record, path, hash } = visit;
            let is_dir = match &record {
                MetaData::Directory(_) => true,
                MetaData::File(_) => false,
            };
            let ghost rec = record;
            self.records.push(record);
            proof {
                let after = self.records@;
                assert(after == before.push(rec));
                assert forall|i: int| 0 <= i < after.len() implies (#[trigger] after[i] matches MetaData::File(f)
                    ==> linked(after, self.root_hash, f.directory_hash)) by {
                    if let MetaData::File(f) = after[i] {
                        if i < before.len() {
                            assert(after[i] == before[i]);
                        }
                        lemma_linked_grows(before, rec, self.root_hash, f.directory_hash);
                    }
                }
                assert forall|k: int| 0 <= k < self.frames.len() implies frame_ok(#[trigger] self.frames@[k], after, self.root_hash) by {
                    assert(self.frames@[k] == frames_before[k]);
                    if let MetaData::File(x) = self.frames@[k].visit.record {
                        lemma_linked_grows(before, rec, self.root_hash, x.directory_hash);
                    }
                }
                assert(after.subrange(0, start.len() as int) =~= before.subrange(0, start.len() as int));
                let n0 = start.len() as int;
                let e = after.len() - n0;
                assert forall|j: int| 0 <= j < e implies after[n0 + j] == (#[trigger] old(self).pending_visit(
                    old(self).spec_pending() - 1 - j,
                )).record by {
                    if j < e - 1 {
                        assert(after[n0 + j] == before[n0 + j]);
                    } else {
                        let idx = frames_before.len() - 1;
                        assert(w_before.pending_visit(idx) == old(self).pending_visit(idx));
                        assert(old(self).pending_visit(old(self).spec_pending() - 1 - j) == frames_before[idx].visit);
                    }
                }
                assert forall|i: int| 0 <= i < self.frames@.len() implies #[trigger] self.pending_visit(i)
                    == old(self).pending_visit(i) && self.pending_depth(i) == old(self).pending_depth(i) by {
                    assert(self.frames@[i] == frames_before[i]);
                    assert(w_before.pending_visit(i) == old(self).pending_visit(i));
                }
                assert(Self::emitted_from_top(*old(self), *self));
            }
            if is_dir {
                if let Some(d) = remaining_depth(depth) {
                    proof {
                        let after = self.records@;
                        assert(after[after.len() - 1] == rec);
                        assert(has_dir_record(after, hash));
                    }
                    let out = path.clone();
                    let ghost w_mid = *self;
                    let ghost vpath = path@;
                    self.current = Some(Request { path, depth: d, parent_hash: hash });
                    proof {
                        assert(Self::descends(*old(self), idx));
                        assert(vpath == old(self).pending_visit(idx).path@);
                        assert(forall|j: int| 0 <= j < self.records@.len() - start.len() - 1 ==> !#[trigger] Self::descends(
                            *old(self),
                            old(self).spec_pending() - 1 - j,
                        ));
                        assert(self.records@ == w_mid.records@ && self.frames@ == w_mid.frames@);
                        assert(forall|i: int| #[trigger] self.pending_visit(i) == w_mid.pending_visit(i));
                        assert(forall|i: int| #[trigger] self.pending_depth(i) == w_mid.pending_depth(i));
                    }
                    return Some(out);
                }
            }
            proof {
                assert(!Self::descends(*old(self), idx));
                assert forall|j: int| 0 <= j < self.records@.len() - start.len() implies !#[trigger] Self::descends(
                    *old(self),
                    old(self).spec_pending() - 1 - j,
                ) by {
                    if j == self.records@.len() - start.len() - 1 {
                        assert(old(self).spec_pending() - 1 - j == idx);
                    }
                }
            }
        }
        proof {
            let e = self.records@.len() - start.len();
            if e > 0 {
                assert(!Self::descends(*old(self), old(self).spec_pending() - 1 - (e - 1)));
            }
        }
        None
    }

    /// Takes the listing of the requested directory: its admitted entries become
    /// pending records, in listing order, each with the depth left below it. A
    /// listing that could not be read is handed over as empty and adds nothing.
    pub fn on_listing(&mut self, settings: &Settings, entries: &Vec<EntryInfo>)
        requires
            old(self).wf(),
            old(self).spec_current() is Some,
            patterns_valid(settings),
        ensures
            final(self).wf(),
            final(self).spec_root() == old(self).spec_root(),
            final(self).spec_records() == old(self).spec_records(),
            final(self).spec_current() is None,
            admitted_entries(settings, entries@) matches Some(adm) && Self::pushed_in_reverse(
                *old(self),
                *final(self),
                adm,
                old(self).spec_current()->0,
            ),
    {
        let req = self.current.take().unwrap();
        let ghost frames0 = self.frames@;
        let mut visits = read_level(settings, req.path.as_str(), req.parent_hash, entries);
        let ghost adm = admitted_entries(settings, entries@)->0;
        while visits.len() > 0
            invariant
                self.wf(),
                self.current is None,
                self.root == old(self).root,
                self.records == old(self).records,
                linked(self.records@, self.root_hash, path_hash_of(req.path@)),
                visits@.len() <= adm.len(),
                self.frames@.len() == frames0.len() + (adm.len() - visits@.len()),
                forall|i: int| 0 <= i < frames0.len() ==> #[trigger] self.frames@[i] == frames0[i],
                forall|k: int| 0 <= k < adm.len() - visits@.len() ==> visit_matches(
                    #[trigger] self.frames@[frames0.len() + k].visit,
                    adm[adm.len() - 1 - k],
                    req.path@,
                    req.parent_hash,
                ) && self.frames@[frames0.len() + k].depth == req.depth,
                forall|k: int| 0 <= k < visits@.len() ==> visit_matches(#[trigger] visits@[k], adm[k], req.path@, req.parent_hash),
            decreases visits.len(),
        {
            let ghost vb = visits@;
            let visit = visits.pop().unwrap();
            proof {
                assert(vb[vb.len() - 1] == visit);
                assert(visit_matches(visit, adm[vb.len() - 1], req.path@, req.parent_hash));
                assert forall|k: int| 0 <= k < visits@.len() implies visit_matches(#[trigger] visits@[k], adm[k], req.path@, req.parent_hash) by {
                    assert(visits@[k] == vb[k]);
                }
            }
            let ghost fb = self.frames@;
            let frame = Frame { visit, depth: req.depth };
            proof {
                assert(frame_ok(frame, self.records@, self.root_hash));
            }
            self.frames.push(frame);
            proof {
                assert forall|k: int| 0 <= k < self.frames.len() implies frame_ok(#[trigger] self.frames@[k], self.records@, self.root_hash) by {
                    if k < fb.len() {
                        assert(self.frames@[k] == fb[k]);
                    }
                }
                assert forall|i: int| 0 <= i < frames0.len() implies #[trigger] self.frames@[i] == frames0[i] by {
                    assert(self.frames@[i] == fb[i]);
                }
                assert forall|k: int| 0 <= k < adm.len() - visits@.len() implies visit_matches(
                    #[trigger] self.frames@[frames0.len() + k].visit,
                    adm[adm.len() - 1 - k],
                    req.path@,
                    req.parent_hash,
                ) && self.frames@[frames0.len() + k].depth == req.depth by {
                    if frames0.len() + k < fb.len() {
                        assert(self.frames@[frames0.len() + k] == fb[frames0.len() + k]);
                    }
                }
            }
        }
    }

    /// The id of the walk's root directory, which its top-level files take as parent.
    pub fn root_hash(&self) -> (r: u64)
        requires
            self.wf(),
        ensures
            r == path_hash_of(self.spec_root()),
    {
        self.root_hash
    }

    /// The records emitted so far. Each file record's parent id is the root's id or
    /// the id of a directory record among them.
    pub fn into_records(self) -> (r: Vec<MetaData>)
        requires
            self.wf(),
        ensures
            r@ == self.spec_records(),
            parents_linked(r@, path_hash_of(self.spec_root())),
    {
        self.records
    }
}

} // verus!
