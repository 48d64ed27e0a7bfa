//! The download queue of the desktop client: which transfers wait, run, are paused,
//! failed, were canceled or finished, and which one starts next.
use vstd::prelude::*;
use crate::unit::{Unit, UnitKind};

verus! {

/// How many transfers may run at once.
pub const MAX_PARALLEL: usize = 5;

/// One file to download: its path on the server and how far its transfer went.
#[derive(Debug)]
pub struct Download {
    pub path: String,
    pub total_size: usize,
    pub sended: usize,
}

impl Download {
    /// A download of `path` that has not started.
    pub fn from_path(path: String) -> (r: Download)
        ensures
            r.path@ == path@,
            r.total_size == 0,
            r.sended == 0,
    {
        Download { path, total_size: 0, sended: 0 }
    }
}

/// The index of the download that a turn starts.
pub open spec fn turn_index(t: Turn) -> usize {
    match t {
        Turn::Waiting(i) => i,
        Turn::Resumable(i) => i,
    }
}

/// The next transfer to start: a waiting one from the start, or a paused one resumed.
#[derive(Clone, Copy, Debug, PartialEq, Eq, Structural)]
pub enum Turn {
    Waiting(usize),
    Resumable(usize),
}

/// What a running transfer reports.
pub enum DownloadProgress<E> {
    Begin { index: usize, total_size: u64 },
    Progressed { index: usize, by: usize },
    Finish(usize),
    CheckDownloadResult { index: usize, result: Result<(), E> },
}

/// The queue: every file, by its index in `files`, sits in one of the lists. `H`
/// is what stops a running transfer, `E` what a failed one reports.
pub struct Downloads<H, E> {
    pub show_preview: bool,
    pub progressing: Vec<(usize, H)>,
    pub waiting: Vec<usize>,
    pub resumable: Vec<usize>,
    pub finished: Vec<usize>,
    pub paused: Vec<usize>,
    pub failed: Vec<(usize, E)>,
    pub canceled: Vec<usize>,
    pub files: Vec<Download>,
}

/// The indices of a list of pairs.
pub open spec fn ids<T>(s: Seq<(usize, T)>) -> Seq<usize> {
    s.map_values(|p: (usize, T)| p.0)
}

/// `s` without `i`.
pub open spec fn drop_id(s: Seq<usize>, i: usize) -> Seq<usize> {
    s.filter(|x: usize| x != i)
}

/// The pairs of `s` whose index is not `i`.
pub open spec fn drop_pair<T>(s: Seq<(usize, T)>, i: usize) -> Seq<(usize, T)> {
    s.filter(|p: (usize, T)| p.0 != i)
}

proof fn lemma_drop_id_count(s: Seq<usize>, i: usize, v: usize)
    ensures
        drop_id(s, i).to_multiset().count(v) == if v == i {
            0
        } else {
            s.to_multiset().count(v)
        },
    decreases s.len(),
{
    broadcast use vstd::seq_lib::group_to_multiset_ensures, vstd::multiset::group_multiset_axioms;
    reveal(Seq::filter);
    if s.len() == 0 {
        assert(drop_id(s, i) =~= s);
    } else {
        let rest = s.drop_last();
        lemma_drop_id_count(rest, i, v);
        assert(s =~= rest.push(s.last()));
    }
}

proof fn lemma_ids_push<T>(s: Seq<(usize, T)>, p: (usize, T))
    ensures
        ids(s.push(p)) == ids(s).push(p.0),
{
    assert(ids(s.push(p)) =~= ids(s).push(p.0));
}

proof fn lemma_ids_drop_pair<T>(s: Seq<(usize, T)>, i: usize)
    ensures
        ids(drop_pair(s, i)) == drop_id(ids(s), i),
    decreases s.len(),
{
    reveal(Seq::filter);
    if s.len() == 0 {
        assert(ids(drop_pair(s, i)) =~= drop_id(ids(s), i));
    } else {
        let rest = s.drop_last();
        lemma_ids_drop_pair(rest, i);
        assert(s =~= rest.push(s.last()));
        lemma_ids_push(rest, s.last());
        assert(ids(s).drop_last() =~= ids(rest));
        if s.last().0 != i {
            lemma_ids_push(drop_pair(rest, i), s.last());
        }
    }
}

proof fn lemma_push_count(s: Seq<usize>, i: usize, v: usize)
    ensures
        s.push(i).to_multiset().count(v) == s.to_multiset().count(v) + if v == i {
            1nat
        } else {
            0nat
        },
{
    broadcast use vstd::seq_lib::group_to_multiset_ensures, vstd::multiset::group_multiset_axioms;
}

proof fn lemma_contains_count(s: Seq<usize>, i: usize)
    requires
        s.contains(i),
    ensures
        s.to_multiset().count(i) >= 1,
{
    broadcast use vstd::seq_lib::group_to_multiset_ensures;
}

proof fn lemma_drop_id_push(s: Seq<usize>, x: usize, i: usize)
    ensures
        drop_id(s.push(x), i) == if x != i {
            drop_id(s, i).push(x)
        } else {
            drop_id(s, i)
        },
{
    reveal(Seq::filter);
    assert(s.push(x).drop_last() =~= s);
}

proof fn lemma_drop_pair_push<T>(s: Seq<(usize, T)>, x: (usize, T), i: usize)
    ensures
        drop_pair(s.push(x), i) == if x.0 != i {
            drop_pair(s, i).push(x)
        } else {
            drop_pair(s, i)
        },
{
    reveal(Seq::filter);
    assert(s.push(x).drop_last() =~= s);
}

/// `v` without the pairs whose index is `i`, in order.
fn drop_pairs<T>(v: Vec<(usize, T)>, i: usize) -> (r: Vec<(usize, T)>)
    ensures
        r@ == drop_pair(v@, i),
{
    let ghost orig = v@;
    let n = v.len();
    assert(orig.len() == n);
    let mut rest = v;
    let mut kept: Vec<(usize, T)> = Vec::new();
    let mut k: usize = 0;
    assert(orig.take(0) =~= Seq::<(usize, T)>::empty());
    reveal(Seq::filter);
    while rest.len() > 0
        invariant
            k <= orig.len(),
            orig.len() <= usize::MAX,
            rest@ == orig.skip(k as int),
            rest@.len() == orig.len() - k,
            kept@ == drop_pair(orig.take(k as int), i),
        decreases rest@.len(),
    {
        let p = rest.remove(0);
        assert(p == orig[k as int]);
        assert(orig.take(k + 1) =~= orig.take(k as int).push(p));
        proof {
            lemma_drop_pair_push(orig.take(k as int), p, i);
        }
        if p.0 != i {
            kept.push(p);
        }
        k = k + 1;
        assert(rest@ =~= orig.skip(k as int));
    }
    assert(orig.take(k as int) =~= orig);
    kept
}

/// `v` without `i`, in order.
fn drop_index(v: &mut Vec<usize>, i: usize)
    ensures
        final(v)@ == drop_id(old(v)@, i),
{
    let ghost orig = v@;
    let mut kept: Vec<usize> = Vec::new();
    let mut k: usize = 0;
    assert(orig.take(0) =~= Seq::<usize>::empty());
    reveal(Seq::filter);
    while k < v.len()
        invariant
            k <= orig.len(),
            v@ == orig,
            kept@ == drop_id(orig.take(k as int), i),
        decreases orig.len() - k,
    {
        let x = v[k];
        assert(orig.take(k + 1) =~= orig.take(k as int).push(x));
        proof {
            lemma_drop_id_push(orig.take(k as int), x, i);
        }
        if x != i {
            kept.push(x);
        }
        k = k + 1;
    }
    assert(orig.take(k as int) =~= orig);
    *v = kept;
}

/// The first position of `x` in `s`, or -1.
pub open spec fn position(s: Seq<usize>, x: usize) -> int
    decreases s.len(),
{
    if s.len() == 0 {
        -1
    } else if s.last() == x && position(s.drop_last(), x) < 0 {
        s.len() - 1
    } else {
        position(s.drop_last(), x)
    }
}

/// `s` with the items at `p` and `p + 1` exchanged.
pub open spec fn swapped(s: Seq<usize>, p: int) -> Seq<usize> {
    s.update(p, s[p + 1]).update(p + 1, s[p])
}

/// The next download to start: the first to resume, else the first waiting one.
pub open spec fn next_turn_of(resumable: Seq<usize>, waiting: Seq<usize>) -> Option<Turn> {
    if resumable.len() > 0 {
        Some(Turn::Resumable(resumable[0]))
    } else if waiting.len() > 0 {
        Some(Turn::Waiting(waiting[0]))
    } else {
        None
    }
}

proof fn lemma_position(s: Seq<usize>, x: usize)
    ensures
        s.contains(x) ==> 0 <= position(s, x) < s.len() && s[position(s, x)] == x,
        !s.contains(x) ==> position(s, x) == -1,
        forall|k: int| 0 <= k < position(s, x) ==> s[k] != x,
    decreases s.len(),
{
    if s.len() > 0 {
        let r = s.drop_last();
        lemma_position(r, x);
        assert(forall|k: int| 0 <= k < r.len() ==> r[k] == s[k]);
        if s.contains(x) && !r.contains(x) {
            let k = choose|k: int| 0 <= k < s.len() && s[k] == x;
            if k < r.len() {
                assert(r[k] == x);
            }
        }
        if r.contains(x) {
            let k = choose|k: int| 0 <= k < r.len() && r[k] == x;
            assert(s[k] == x);
        }
    }
}

proof fn lemma_concat_multiset(a: Seq<usize>, b: Seq<usize>)
    ensures
        (a + b).to_multiset() =~= a.to_multiset().add(b.to_multiset()),
    decreases b.len(),
{
    broadcast use vstd::seq_lib::group_to_multiset_ensures, vstd::multiset::group_multiset_axioms;
    if b.len() == 0 {
        assert(a + b =~= a);
    } else {
        let r = b.drop_last();
        lemma_concat_multiset(a, r);
        assert(a + b =~= (a + r).push(b.last()));
        assert(b =~= r.push(b.last()));
    }
}

proof fn lemma_swapped_multiset(s: Seq<usize>, p: int)
    requires
        0 <= p,
        p + 1 < s.len(),
    ensures
        swapped(s, p).to_multiset() =~= s.to_multiset(),
{
    broadcast use vstd::seq_lib::group_to_multiset_ensures, vstd::multiset::group_multiset_axioms;
    let a = s.take(p);
    let b = s.skip(p + 2);
    let x = s[p];
    let y = s[p + 1];
    assert(s =~= a + seq![x, y] + b);
    assert(swapped(s, p) =~= a + seq![y, x] + b);
    lemma_concat_multiset(a + seq![x, y], b);
    lemma_concat_multiset(a + seq![y, x], b);
    lemma_concat_multiset(a, seq![x, y]);
    lemma_concat_multiset(a, seq![y, x]);
    assert(seq![x, y] =~= seq![x].push(y));
    assert(seq![y, x] =~= seq![y].push(x));
    assert(seq![x] =~= Seq::<usize>::empty().push(x));
    assert(seq![y] =~= Seq::<usize>::empty().push(y));
}

/// Whether `x` is in `v`.
fn contains_index(v: &Vec<usize>, x: usize) -> (r: bool)
    ensures
        r == v@.contains(x),
{
    let mut i: usize = 0;
    while i < v.len()
        invariant
            i <= v@.len(),
            forall|k: int| 0 <= k < i ==> v@[k] != x,
        decreases v@.len() - i,
    {
        if v[i] == x {
            return true;
        }
        i = i + 1;
    }
    false
}

/// The first position of `x` in `v`.
fn position_of(v: &Vec<usize>, x: usize) -> (r: usize)
    requires
        v@.contains(x),
    ensures
        r as int == position(v@, x),
{
    proof {
        lemma_position(v@, x);
    }
    let mut i: usize = 0;
    while i < v.len()
        invariant
            i <= v@.len(),
            v@.contains(x),
            0 <= position(v@, x) < v@.len(),
            v@[position(v@, x)] == x,
            forall|k: int| 0 <= k < position(v@, x) ==> v@[k] != x,
            forall|k: int| 0 <= k < i ==> v@[k] != x,
        decreases v@.len() - i,
    {
        if v[i] == x {
            return i;
        }
        i = i + 1;
    }
    i
}

impl<H, E> Downloads<H, E> {
    /// How many times the lists hold `v`, all lists together.
    pub open spec fn tally(&self, v: usize) -> nat {
        ids(self.progressing@).to_multiset().count(v) + self.waiting@.to_multiset().count(v)
            + self.resumable@.to_multiset().count(v) + self.finished@.to_multiset().count(v)
            + self.paused@.to_multiset().count(v) + ids(self.failed@).to_multiset().count(v)
            + self.canceled@.to_multiset().count(v)
    }

    /// Every file, by its index, is in exactly one list, and the lists hold no other index.
    pub open spec fn well_formed(&self) -> bool {
        forall|v: usize| #[trigger] self.tally(v) == if (v as int) < self.files@.len() {
            1nat
        } else {
            0nat
        }
    }

    /// An empty queue.
    pub fn new() -> (r: Self)
        ensures
            !r.show_preview,
            r.progressing@.len() == 0,
            r.waiting@.len() == 0,
            r.resumable@.len() == 0,
            r.finished@.len() == 0,
            r.paused@.len() == 0,
            r.failed@.len() == 0,
            r.canceled@.len() == 0,
            r.files@.len() == 0,
            r.well_formed(),
    {
        let r = Downloads {
            show_preview: false,
            progressing: Vec::new(),
            waiting: Vec::new(),
            resumable: Vec::new(),
            finished: Vec::new(),
            paused: Vec::new(),
            failed: Vec::new(),
            canceled: Vec::new(),
            files: Vec::new(),
        };
        proof {
            broadcast use vstd::seq_lib::group_to_multiset_ensures;
            assert(ids(r.progressing@) =~= Seq::<usize>::empty());
            assert(ids(r.failed@) =~= Seq::<usize>::empty());
        }
        r
    }

    /// The files the queue holds, each file once and in order.
    pub open spec fn paths(&self) -> Seq<Seq<char>> {
        self.files@.map_values(|d: Download| d.path@)
    }

    /// Puts `paths` at the end of the queue, each as a new waiting download.
    pub fn waitlist_extend(&mut self, paths: Vec<String>)
        ensures
            final(self).paths() == old(self).paths() + paths@.map_values(|p: String| p@),
            forall|k: int| old(self).files@.len() <= k < final(self).files@.len() ==> (#[trigger] final(self).files@[k]).total_size == 0 && final(self).files@[k].sended == 0,
            forall|k: int| 0 <= k < old(self).files@.len() ==> #[trigger] final(self).files@[k] == old(self).files@[k],
            final(self).waiting@ == old(self).waiting@ + Seq::new(
                paths@.len(),
                |k: int| (old(self).files@.len() + k) as usize,
            ),
            final(self).progressing@ == old(self).progressing@,
            final(self).resumable@ == old(self).resumable@,
            final(self).finished@ == old(self).finished@,
            final(self).paused@ == old(self).paused@,
            final(self).failed@ == old(self).failed@,
            final(self).canceled@ == old(self).canceled@,
            final(self).show_preview == old(self).show_preview,
            old(self).well_formed() ==> final(self).well_formed(),
    {
        let ghost before = self.files@.len();
        let mut rest = paths;
        let ghost all = rest@;
        let total = rest.len();
        let mut k: usize = 0;
        while rest.len() > 0
            invariant
                k <= all.len(),
                all.len() == total,
                rest@ == all.skip(k as int),
                rest@.len() == all.len() - k,
                self.files@.len() == before + k,
                self.paths() == old(self).paths() + all.take(k as int).map_values(|p: String| p@),
                forall|j: int| before <= j < self.files@.len() ==> (#[trigger] self.files@[j]).total_size == 0 && self.files@[j].sended == 0,
                forall|j: int| 0 <= j < before ==> #[trigger] self.files@[j] == old(self).files@[j],
                self.waiting@ == old(self).waiting@ + Seq::new(k as nat, |j: int| (before + j) as usize),
                self.progressing@ == old(self).progressing@,
                self.resumable@ == old(self).resumable@,
                self.finished@ == old(self).finished@,
                self.paused@ == old(self).paused@,
                self.failed@ == old(self).failed@,
                self.canceled@ == old(self).canceled@,
                self.show_preview == old(self).show_preview,
                before == old(self).files@.len(),
                old(self).well_formed() ==> self.well_formed(),
            decreases rest@.len(),
        {
            let p = rest.remove(0);
            assert(p == all[k as int]);
            let ghost old_self_tally = |v: usize| self.tally(v);
            let ghost prev_waiting = self.waiting@;
            let ghost prev_paths = self.paths();
            let ghost prev_files = self.files@;
            let ghost was_wf = self.well_formed();
            let index = self.files.len();
            self.files.push(Download::from_path(p));
            self.waiting.push(index);
            proof {
                assert(self.paths() =~= prev_paths.push(p@));
                assert(all.take(k + 1).map_values(|q: String| q@) =~= all.take(k as int).map_values(|q: String| q@).push(p@));
                assert(self.waiting@ =~= old(self).waiting@ + Seq::new((k + 1) as nat, |j: int| (before + j) as usize));
                if was_wf {
                    assert forall|v: usize| #[trigger] self.tally(v) == if (v as int) < self.files@.len() {
                        1nat
                    } else {
                        0nat
                    } by {
                        lemma_push_count(prev_waiting, index, v);
                        assert(old_self_tally(v) == if (v as int) < prev_files.len() { 1nat } else { 0nat });
                    }
                }
            }
            k = k + 1;
            assert(rest@ =~= all.skip(k as int));
        }
        assert(all.take(k as int) =~= all);
    }


    /// `b` is `a` with `paths` put at the end as new waiting downloads (what
    /// `waitlist_extend` does).
    pub open spec fn extended_by(a: Self, b: Self, paths: Seq<String>) -> bool {
        &&& b.paths() == a.paths() + paths.map_values(|p: String| p@)
        &&& forall|k: int| a.files@.len() <= k < b.files@.len() ==> (#[trigger] b.files@[k]).total_size == 0 && b.files@[k].sended == 0
        &&& forall|k: int| 0 <= k < a.files@.len() ==> #[trigger] b.files@[k] == a.files@[k]
        &&& b.waiting@ == a.waiting@ + Seq::new(paths.len(), |k: int| (a.files@.len() + k) as usize)
        &&& b.progressing@ == a.progressing@
        &&& b.resumable@ == a.resumable@
        &&& b.finished@ == a.finished@
        &&& b.paused@ == a.paused@
        &&& b.failed@ == a.failed@
        &&& b.canceled@ == a.canceled@
        &&& b.show_preview == a.show_preview
    }

    /// The files under the selected entries were collected (`Ok`): they are put at
    /// the end of the queue as waiting downloads, and `true` says that transfers may
    /// now start. A failed collection (`Err`) leaves the queue as it was and
    /// returns `false`.
    pub fn queue_from_selected<R>(&mut self, paths: Result<Vec<String>, R>) -> (queued: bool)
        ensures
            queued == paths is Ok,
            match paths {
                Ok(v) => Self::extended_by(*old(self), *final(self), v@),
                Err(_) => *final(self) == *old(self),
            },
            old(self).well_formed() ==> final(self).well_formed(),
    {
        match paths {
            Ok(v) => {
                self.waitlist_extend(v);
                true
            },
            Err(_) => false,
        }
    }

    /// Starts the waiting download `index`, stopped through `handle`.
    pub fn wait_progress_list(&mut self, index: usize, handle: H)
        ensures
            final(self).waiting@ == drop_id(old(self).waiting@, index),
            final(self).progressing@ == old(self).progressing@.push((index, handle)),
            final(self).resumable@ == old(self).resumable@,
            final(self).finished@ == old(self).finished@,
            final(self).paused@ == old(self).paused@,
            final(self).failed@ == old(self).failed@,
            final(self).canceled@ == old(self).canceled@,
            final(self).files@ == old(self).files@,
            final(self).show_preview == old(self).show_preview,
            old(self).well_formed() && old(self).waiting@.contains(index) ==> final(self).well_formed(),
    {
        let ghost prev_waiting = self.waiting@;
        let ghost prev_progressing = self.progressing@;
        let ghost was_wf = self.well_formed();
        let ghost old_tally = |v: usize| self.tally(v);
        drop_index(&mut self.waiting, index);
        self.progressing.push((index, handle));
        proof {
            
            lemma_ids_push(prev_progressing, (index, handle));
            if was_wf && prev_waiting.contains(index) {
                lemma_contains_count(prev_waiting, index);
                assert(old_tally(index) >= 1);
                assert forall|v: usize| #[trigger] self.tally(v) == old_tally(v) by {
                    lemma_drop_id_count(prev_waiting, index, v);
                    lemma_push_count(ids(prev_progressing), index, v);
                }
                assert forall|v: usize| #[trigger] self.tally(v) == if (v as int) < self.files@.len() {
                    1nat
                } else {
                    0nat
                } by {
                    assert(self.tally(v) == old_tally(v));
                }
            }
        }
    }

    /// Resumes the download `index`, stopped through `handle`.
    pub fn resumable_progress_list(&mut self, index: usize, handle: H)
        ensures
            final(self).resumable@ == drop_id(old(self).resumable@, index),
            final(self).progressing@ == old(self).progressing@.push((index, handle)),
            final(self).waiting@ == old(self).waiting@,
            final(self).finished@ == old(self).finished@,
            final(self).paused@ == old(self).paused@,
            final(self).failed@ == old(self).failed@,
            final(self).canceled@ == old(self).canceled@,
            final(self).files@ == old(self).files@,
            final(self).show_preview == old(self).show_preview,
            old(self).well_formed() && old(self).resumable@.contains(index) ==> final(self).well_formed(),
    {
        let ghost prev_resumable = self.resumable@;
        let ghost prev_progressing = self.progressing@;
        let ghost was_wf = self.well_formed();
        let ghost old_tally = |v: usize| self.tally(v);
        drop_index(&mut self.resumable, index);
        self.progressing.push((index, handle));
        proof {
            
            lemma_ids_push(prev_progressing, (index, handle));
            if was_wf && prev_resumable.contains(index) {
                lemma_contains_count(prev_resumable, index);
                assert(old_tally(index) >= 1);
                assert forall|v: usize| #[trigger] self.tally(v) == old_tally(v) by {
                    lemma_drop_id_count(prev_resumable, index, v);
                    lemma_push_count(ids(prev_progressing), index, v);
                }
                assert forall|v: usize| #[trigger] self.tally(v) == if (v as int) < self.files@.len() {
                    1nat
                } else {
                    0nat
                } by {
                    assert(self.tally(v) == old_tally(v));
                }
            }
        }
    }

    /// Marks the running download `index` as finished.
    pub fn finish_list(&mut self, index: usize)
        ensures
            final(self).progressing@ == drop_pair(old(self).progressing@, index),
            final(self).finished@ == old(self).finished@.push(index),
            final(self).waiting@ == old(self).waiting@,
            final(self).resumable@ == old(self).resumable@,
            final(self).paused@ == old(self).paused@,
            final(self).failed@ == old(self).failed@,
            final(self).canceled@ == old(self).canceled@,
            final(self).files@ == old(self).files@,
            final(self).show_preview == old(self).show_preview,
            old(self).well_formed() && ids(old(self).progressing@).contains(index) ==> final(self).well_formed(),
    {
        let ghost prev_progressing = self.progressing@;
        let ghost prev_finished = self.finished@;
        let ghost was_wf = self.well_formed();
        let ghost old_tally = |v: usize| self.tally(v);
        let mut taken: Vec<_> = Vec::new();
        std::mem::swap(&mut taken, &mut self.progressing);
        self.progressing = drop_pairs(taken, index);
        self.finished.push(index);
        proof {
            lemma_ids_drop_pair(prev_progressing, index);
            
            if was_wf && ids(prev_progressing).contains(index) {
                lemma_contains_count(ids(prev_progressing), index);
                assert(old_tally(index) >= 1);
                assert forall|v: usize| #[trigger] self.tally(v) == old_tally(v) by {
                    lemma_drop_id_count(ids(prev_progressing), index, v);
                    lemma_push_count(prev_finished, index, v);
                }
                assert forall|v: usize| #[trigger] self.tally(v) == if (v as int) < self.files@.len() {
                    1nat
                } else {
                    0nat
                } by {
                    assert(self.tally(v) == old_tally(v));
                }
            }
        }
    }

    /// Pauses the running download `index`.
    pub fn pause_list(&mut self, index: usize)
        ensures
            final(self).progressing@ == drop_pair(old(self).progressing@, index),
            final(self).paused@ == old(self).paused@.push(index),
            final(self).waiting@ == old(self).waiting@,
            final(self).resumable@ == old(self).resumable@,
            final(self).finished@ == old(self).finished@,
            final(self).failed@ == old(self).failed@,
            final(self).canceled@ == old(self).canceled@,
            final(self).files@ == old(self).files@,
            final(self).show_preview == old(self).show_preview,
            old(self).well_formed() && ids(old(self).progressing@).contains(index) ==> final(self).well_formed(),
    {
        let ghost prev_progressing = self.progressing@;
        let ghost prev_paused = self.paused@;
        let ghost was_wf = self.well_formed();
        let ghost old_tally = |v: usize| self.tally(v);
        let mut taken: Vec<_> = Vec::new();
        std::mem::swap(&mut taken, &mut self.progressing);
        self.progressing = drop_pairs(taken, index);
        self.paused.push(index);
        proof {
            lemma_ids_drop_pair(prev_progressing, index);
            
            if was_wf && ids(prev_progressing).contains(index) {
                lemma_contains_count(ids(prev_progressing), index);
                assert(old_tally(index) >= 1);
                assert forall|v: usize| #[trigger] self.tally(v) == old_tally(v) by {
                    lemma_drop_id_count(ids(prev_progressing), index, v);
                    lemma_push_count(prev_paused, index, v);
                }
                assert forall|v: usize| #[trigger] self.tally(v) == if (v as int) < self.files@.len() {
                    1nat
                } else {
                    0nat
                } by {
                    assert(self.tally(v) == old_tally(v));
                }
            }
        }
    }

    /// Queues the paused download `index` for resuming.
    pub fn resume_list(&mut self, index: usize)
        ensures
            final(self).paused@ == drop_id(old(self).paused@, index),
            final(self).resumable@ == old(self).resumable@.push(index),
            final(self).progressing@ == old(self).progressing@,
            final(self).waiting@ == old(self).waiting@,
            final(self).finished@ == old(self).finished@,
            final(self).failed@ == old(self).failed@,
            final(self).canceled@ == old(self).canceled@,
            final(self).files@ == old(self).files@,
            final(self).show_preview == old(self).show_preview,
            old(self).well_formed() && old(self).paused@.contains(index) ==> final(self).well_formed(),
    {
        let ghost prev_paused = self.paused@;
        let ghost prev_resumable = self.resumable@;
        let ghost was_wf = self.well_formed();
        let ghost old_tally = |v: usize| self.tally(v);
        self.resumable.push(index);
        drop_index(&mut self.paused, index);
        proof {
            
            
            if was_wf && prev_paused.contains(index) {
                lemma_contains_count(prev_paused, index);
                assert(old_tally(index) >= 1);
                assert forall|v: usize| #[trigger] self.tally(v) == old_tally(v) by {
                    lemma_drop_id_count(prev_paused, index, v);
                    lemma_push_count(prev_resumable, index, v);
                }
                assert forall|v: usize| #[trigger] self.tally(v) == if (v as int) < self.files@.len() {
                    1nat
                } else {
                    0nat
                } by {
                    assert(self.tally(v) == old_tally(v));
                }
            }
        }
    }

    /// Marks the running download `index` as failed with `err`; its progress is lost.
    pub fn progress_fail_list(&mut self, index: usize, err: E)
        requires
            index < old(self).files@.len(),
        ensures
            final(self).progressing@ == drop_pair(old(self).progressing@, index),
            final(self).failed@ == old(self).failed@.push((index, err)),
            final(self).waiting@ == old(self).waiting@,
            final(self).resumable@ == old(self).resumable@,
            final(self).finished@ == old(self).finished@,
            final(self).paused@ == old(self).paused@,
            final(self).canceled@ == old(self).canceled@,
            final(self).files@ == old(self).files@.update(index as int, Download { path: old(self).files@[index as int].path, total_size: old(self).files@[index as int].total_size, sended: 0 }),
            final(self).show_preview == old(self).show_preview,
            old(self).well_formed() && ids(old(self).progressing@).contains(index) ==> final(self).well_formed(),
    {
        let ghost prev_progressing = self.progressing@;
        let ghost prev_failed = self.failed@;
        let ghost was_wf = self.well_formed();
        let ghost old_tally = |v: usize| self.tally(v);
        let mut taken: Vec<_> = Vec::new();
        std::mem::swap(&mut taken, &mut self.progressing);
        self.progressing = drop_pairs(taken, index);
        self.failed.push((index, err));
        self.files[index].sended = 0;
        proof {
            lemma_ids_drop_pair(prev_progressing, index);
            lemma_ids_push(prev_failed, (index, err));
            if was_wf && ids(prev_progressing).contains(index) {
                lemma_contains_count(ids(prev_progressing), index);
                assert(old_tally(index) >= 1);
                assert forall|v: usize| #[trigger] self.tally(v) == old_tally(v) by {
                    lemma_drop_id_count(ids(prev_progressing), index, v);
                    lemma_push_count(ids(prev_failed), index, v);
                }
                assert forall|v: usize| #[trigger] self.tally(v) == if (v as int) < self.files@.len() {
                    1nat
                } else {
                    0nat
                } by {
                    assert(self.tally(v) == old_tally(v));
                }
            }
        }
    }

    /// Puts the canceled download `index` back at the end of the waiting list.
    pub fn waiting_cancel_list(&mut self, index: usize)
        ensures
            final(self).canceled@ == drop_id(old(self).canceled@, index),
            final(self).waiting@ == old(self).waiting@.push(index),
            final(self).progressing@ == old(self).progressing@,
            final(self).resumable@ == old(self).resumable@,
            final(self).finished@ == old(self).finished@,
            final(self).paused@ == old(self).paused@,
            final(self).failed@ == old(self).failed@,
            final(self).files@ == old(self).files@,
            final(self).show_preview == old(self).show_preview,
            old(self).well_formed() && old(self).canceled@.contains(index) ==> final(self).well_formed(),
    {
        let ghost prev_canceled = self.canceled@;
        let ghost prev_waiting = self.waiting@;
        let ghost was_wf = self.well_formed();
        let ghost old_tally = |v: usize| self.tally(v);
        drop_index(&mut self.canceled, index);
        self.waiting.push(index);
        proof {
            
            
            if was_wf && prev_canceled.contains(index) {
                lemma_contains_count(prev_canceled, index);
                assert(old_tally(index) >= 1);
                assert forall|v: usize| #[trigger] self.tally(v) == old_tally(v) by {
                    lemma_drop_id_count(prev_canceled, index, v);
                    lemma_push_count(prev_waiting, index, v);
                }
                assert forall|v: usize| #[trigger] self.tally(v) == if (v as int) < self.files@.len() {
                    1nat
                } else {
                    0nat
                } by {
                    assert(self.tally(v) == old_tally(v));
                }
            }
        }
    }

    /// Puts the failed download `index` back at the end of the waiting list.
    pub fn fail_wait_list(&mut self, index: usize)
        ensures
            final(self).failed@ == drop_pair(old(self).failed@, index),
            final(self).waiting@ == old(self).waiting@.push(index),
            final(self).progressing@ == old(self).progressing@,
            final(self).resumable@ == old(self).resumable@,
            final(self).finished@ == old(self).finished@,
            final(self).paused@ == old(self).paused@,
            final(self).canceled@ == old(self).canceled@,
            final(self).files@ == old(self).files@,
            final(self).show_preview == old(self).show_preview,
            old(self).well_formed() && ids(old(self).failed@).contains(index) ==> final(self).well_formed(),
    {
        let ghost prev_failed = self.failed@;
        let ghost prev_waiting = self.waiting@;
        let ghost was_wf = self.well_formed();
        let ghost old_tally = |v: usize| self.tally(v);
        let mut taken: Vec<_> = Vec::new();
        std::mem::swap(&mut taken, &mut self.failed);
        self.failed = drop_pairs(taken, index);
        self.waiting.push(index);
        proof {
            lemma_ids_drop_pair(prev_failed, index);
            
            if was_wf && ids(prev_failed).contains(index) {
                lemma_contains_count(ids(prev_failed), index);
                assert(old_tally(index) >= 1);
                assert forall|v: usize| #[trigger] self.tally(v) == old_tally(v) by {
                    lemma_drop_id_count(ids(prev_failed), index, v);
                    lemma_push_count(prev_waiting, index, v);
                }
                assert forall|v: usize| #[trigger] self.tally(v) == if (v as int) < self.files@.len() {
                    1nat
                } else {
                    0nat
                } by {
                    assert(self.tally(v) == old_tally(v));
                }
            }
        }
    }

    /// Cancels the running download `index`; its progress is lost.
    pub fn progress_cancel_list(&mut self, index: usize)
        requires
            index < old(self).files@.len(),
        ensures
            final(self).progressing@ == drop_pair(old(self).progressing@, index),
            final(self).canceled@ == old(self).canceled@.push(index),
            final(self).waiting@ == old(self).waiting@,
            final(self).resumable@ == old(self).resumable@,
            final(self).finished@ == old(self).finished@,
            final(self).paused@ == old(self).paused@,
            final(self).failed@ == old(self).failed@,
            final(self).files@ == old(self).files@.update(index as int, Download { path: old(self).files@[index as int].path, total_size: old(self).files@[index as int].total_size, sended: 0 }),
            final(self).show_preview == old(self).show_preview,
            old(self).well_formed() && ids(old(self).progressing@).contains(index) ==> final(self).well_formed(),
    {
        let ghost prev_progressing = self.progressing@;
        let ghost prev_canceled = self.canceled@;
        let ghost was_wf = self.well_formed();
        let ghost old_tally = |v: usize| self.tally(v);
        let mut taken: Vec<_> = Vec::new();
        std::mem::swap(&mut taken, &mut self.progressing);
        self.progressing = drop_pairs(taken, index);
        self.canceled.push(index);
        self.files[index].sended = 0;
        proof {
            lemma_ids_drop_pair(prev_progressing, index);
            
            if was_wf && ids(prev_progressing).contains(index) {
                lemma_contains_count(ids(prev_progressing), index);
                assert(old_tally(index) >= 1);
                assert forall|v: usize| #[trigger] self.tally(v) == old_tally(v) by {
                    lemma_drop_id_count(ids(prev_progressing), index, v);
                    lemma_push_count(prev_canceled, index, v);
                }
                assert forall|v: usize| #[trigger] self.tally(v) == if (v as int) < self.files@.len() {
                    1nat
                } else {
                    0nat
                } by {
                    assert(self.tally(v) == old_tally(v));
                }
            }
        }
    }


    /// How many downloads run, wait or wait to be resumed.
    pub fn active_count(&self) -> (r: usize)
        requires
            self.progressing@.len() + self.waiting@.len() + self.resumable@.len() <= usize::MAX,
        ensures
            r == self.progressing@.len() + self.waiting@.len() + self.resumable@.len(),
    {
        self.progressing.len() + self.waiting.len() + self.resumable.len()
    }

    /// Whether the waiting download `index` can move one place up.
    pub fn is_upgradable(&self, index: usize) -> (r: bool)
        ensures
            r == (self.waiting@.contains(index) && self.waiting@[0] != index),
    {
        contains_index(&self.waiting, index) && self.waiting[0] != index
    }

    /// Whether the waiting download `index` can move one place down.
    pub fn is_downgradable(&self, index: usize) -> (r: bool)
        ensures
            r == (self.waiting@.contains(index) && self.waiting@.last() != index),
    {
        contains_index(&self.waiting, index) && self.waiting[self.waiting.len() - 1] != index
    }

    /// Moves the waiting download `index` one place up, when it can move.
    pub fn upgrade_waiting(&mut self, index: usize)
        ensures
            final(self).waiting@ == if old(self).waiting@.contains(index) && old(self).waiting@[0] != index {
                swapped(old(self).waiting@, position(old(self).waiting@, index) - 1)
            } else {
                old(self).waiting@
            },
            final(self).progressing@ == old(self).progressing@,
            final(self).resumable@ == old(self).resumable@,
            final(self).finished@ == old(self).finished@,
            final(self).paused@ == old(self).paused@,
            final(self).failed@ == old(self).failed@,
            final(self).canceled@ == old(self).canceled@,
            final(self).files@ == old(self).files@,
            final(self).show_preview == old(self).show_preview,
            old(self).well_formed() ==> final(self).well_formed(),
    {
        if !self.is_upgradable(index) {
            return;
        }
        let p = position_of(&self.waiting, index);
        proof {
            lemma_position(self.waiting@, index);
        }
        let ghost prev = self.waiting@;
        let ghost old_tally = |v: usize| self.tally(v);
        let target = self.waiting[p - 1];
        self.waiting.set(p, target);
        self.waiting.set(p - 1, index);
        proof {
            assert(self.waiting@ =~= swapped(prev, p - 1));
            lemma_swapped_multiset(prev, p - 1);
            assert forall|v: usize| #[trigger] self.tally(v) == old_tally(v) by {}
        }
    }

    /// Moves the waiting download `index` one place down, when it can move.
    pub fn downgrade_waiting(&mut self, index: usize)
        ensures
            final(self).waiting@ == if old(self).waiting@.contains(index) && old(self).waiting@.last() != index {
                swapped(old(self).waiting@, position(old(self).waiting@, index))
            } else {
                old(self).waiting@
            },
            final(self).progressing@ == old(self).progressing@,
            final(self).resumable@ == old(self).resumable@,
            final(self).finished@ == old(self).finished@,
            final(self).paused@ == old(self).paused@,
            final(self).failed@ == old(self).failed@,
            final(self).canceled@ == old(self).canceled@,
            final(self).files@ == old(self).files@,
            final(self).show_preview == old(self).show_preview,
            old(self).well_formed() ==> final(self).well_formed(),
    {
        if !self.is_downgradable(index) {
            return;
        }
        let p = position_of(&self.waiting, index);
        proof {
            lemma_position(self.waiting@, index);
        }
        let ghost prev = self.waiting@;
        let ghost old_tally = |v: usize| self.tally(v);
        let n = self.waiting.len();
        assert(p < n - 1) by {
            if p == n - 1 {
                assert(self.waiting@[p as int] == index);
            }
        }
        let target = self.waiting[p + 1];
        self.waiting.set(p, target);
        self.waiting.set(p + 1, index);
        proof {
            assert(self.waiting@ =~= swapped(prev, p as int));
            lemma_swapped_multiset(prev, p as int);
            assert forall|v: usize| #[trigger] self.tally(v) == old_tally(v) by {}
        }
    }

    /// The download to start next: the first one to resume, else the first waiting one.
    pub fn next_turn(&self) -> (r: Option<Turn>)
        ensures
            r == next_turn_of(self.resumable@, self.waiting@),
    {
        if self.resumable.len() > 0 {
            Some(Turn::Resumable(self.resumable[0]))
        } else if self.waiting.len() > 0 {
            Some(Turn::Waiting(self.waiting[0]))
        } else {
            None
        }
    }

    /// The download to start now: none while `MAX_PARALLEL` run, else the next turn.
    pub open spec fn turn_now(&self) -> Option<Turn> {
        if self.progressing@.len() >= MAX_PARALLEL {
            None
        } else {
            next_turn_of(self.resumable@, self.waiting@)
        }
    }

    /// The download to start now: none while `MAX_PARALLEL` run, else the next turn.
    pub fn turn_task(&self) -> (r: Option<Turn>)
        ensures
            r == self.turn_now(),
    {
        if self.progressing.len() >= MAX_PARALLEL {
            return None;
        }
        self.next_turn()
    }

    /// Records that the transfer of `turn`, stopped through `handle`, has started.
    pub fn start_turn(&mut self, turn: Turn, handle: H)
        requires
            old(self).turn_now() == Some(turn),
        ensures
            final(self).progressing@.len() <= MAX_PARALLEL,
            final(self).progressing@ == old(self).progressing@.push((turn_index(turn), handle)),
            final(self).files@ == old(self).files@,
            final(self).finished@ == old(self).finished@,
            final(self).paused@ == old(self).paused@,
            final(self).failed@ == old(self).failed@,
            final(self).canceled@ == old(self).canceled@,
            final(self).show_preview == old(self).show_preview,
            old(self).well_formed() ==> final(self).well_formed(),
            match turn {
                Turn::Waiting(i) => final(self).waiting@ == drop_id(old(self).waiting@, i)
                    && final(self).resumable@ == old(self).resumable@,
                Turn::Resumable(i) => final(self).resumable@ == drop_id(old(self).resumable@, i)
                    && final(self).waiting@ == old(self).waiting@,
            },
    {
        match turn {
            Turn::Waiting(i) => {
                assert(self.waiting@[0] == i);
                self.wait_progress_list(i, handle);
            },
            Turn::Resumable(i) => {
                assert(self.resumable@[0] == i);
                self.resumable_progress_list(i, handle);
            },
        }
    }

    /// Takes in what a transfer reports; says whether more transfers may start now.
    pub fn tick(&mut self, progress: DownloadProgress<E>) -> (again: bool)
        requires
            match progress {
                DownloadProgress::Begin { index, .. } => index < old(self).files@.len(),
                DownloadProgress::Progressed { index, by } => index < old(self).files@.len()
                    && old(self).files@[index as int].sended + by <= usize::MAX,
                DownloadProgress::Finish(_) => true,
                DownloadProgress::CheckDownloadResult { index, result } => result is Err ==> index
                    < old(self).files@.len(),
            },
        ensures
            again == (progress is CheckDownloadResult),
            match progress {
                DownloadProgress::Begin { index, total_size } => final(self).files@ == old(self).files@.update(
                    index as int,
                    Download {
                        path: old(self).files@[index as int].path,
                        total_size: total_size as usize,
                        sended: old(self).files@[index as int].sended,
                    },
                ) && final(self).progressing@ == old(self).progressing@
                    && final(self).finished@ == old(self).finished@
                    && final(self).failed@ == old(self).failed@,
                DownloadProgress::Progressed { index, by } => final(self).files@ == old(self).files@.update(
                    index as int,
                    Download {
                        path: old(self).files@[index as int].path,
                        total_size: old(self).files@[index as int].total_size,
                        sended: (old(self).files@[index as int].sended + by) as usize,
                    },
                ) && final(self).progressing@ == old(self).progressing@
                    && final(self).finished@ == old(self).finished@
                    && final(self).failed@ == old(self).failed@,
                DownloadProgress::Finish(index) => final(self).progressing@ == drop_pair(
                    old(self).progressing@,
                    index,
                ) && final(self).finished@ == old(self).finished@.push(index)
                    && final(self).failed@ == old(self).failed@
                    && final(self).files@ == old(self).files@,
                DownloadProgress::CheckDownloadResult { index, result } => match result {
                    Ok(_) => final(self).progressing@ == old(self).progressing@
                        && final(self).finished@ == old(self).finished@
                        && final(self).failed@ == old(self).failed@
                        && final(self).files@ == old(self).files@,
                    Err(e) => final(self).progressing@ == drop_pair(old(self).progressing@, index)
                        && final(self).failed@ == old(self).failed@.push((index, e))
                        && final(self).finished@ == old(self).finished@
                        && final(self).files@ == old(self).files@.update(
                        index as int,
                        Download {
                            path: old(self).files@[index as int].path,
                            total_size: old(self).files@[index as int].total_size,
                            sended: 0,
                        },
                    ),
                },
            },
            final(self).show_preview == old(self).show_preview,
            final(self).waiting@ == old(self).waiting@,
            final(self).resumable@ == old(self).resumable@,
            final(self).paused@ == old(self).paused@,
            final(self).canceled@ == old(self).canceled@,
            final(self).files@.len() == old(self).files@.len(),
            old(self).well_formed() && match progress {
                DownloadProgress::Finish(index) => ids(old(self).progressing@).contains(index),
                DownloadProgress::CheckDownloadResult { index, result } => result is Err ==> ids(
                    old(self).progressing@,
                ).contains(index),
                _ => true,
            } ==> final(self).well_formed(),
    {
        match progress {
            DownloadProgress::Begin { index, total_size } => {
                let ghost old_tally = |v: usize| self.tally(v);
                self.files[index].total_size = total_size as usize;
                assert forall|v: usize| #[trigger] self.tally(v) == old_tally(v) by {}
                false
            },
            DownloadProgress::Progressed { index, by } => {
                let ghost old_tally = |v: usize| self.tally(v);
                self.files[index].sended = self.files[index].sended + by;
                assert forall|v: usize| #[trigger] self.tally(v) == old_tally(v) by {}
                false
            },
            DownloadProgress::Finish(index) => {
                self.finish_list(index);
                false
            },
            DownloadProgress::CheckDownloadResult { index, result } => {
                match result {
                    Ok(_) => {},
                    Err(err) => {
                        self.progress_fail_list(index, err);
                    },
                }
                true
            },
        }
    }

}

impl<H, E> Downloads<H, E> {
    /// Shows the download list if hidden, hides it if shown.
    pub fn toggle_preview(&mut self)
        ensures
            final(self).show_preview == !old(self).show_preview,
            final(self).progressing@ == old(self).progressing@,
            final(self).waiting@ == old(self).waiting@,
            final(self).resumable@ == old(self).resumable@,
            final(self).finished@ == old(self).finished@,
            final(self).paused@ == old(self).paused@,
            final(self).failed@ == old(self).failed@,
            final(self).canceled@ == old(self).canceled@,
            final(self).files@ == old(self).files@,
    {
        self.show_preview = !self.show_preview;
    }
}

/// The paths of the entries of `units` that are not folders, in order.
pub open spec fn file_paths(units: Seq<Unit>) -> Seq<Seq<char>>
    decreases units.len(),
{
    if units.len() == 0 {
        Seq::empty()
    } else if units.last().kind == UnitKind::Dirctory {
        file_paths(units.drop_last())
    } else {
        file_paths(units.drop_last()).push(units.last().path@)
    }
}

/// The folders among `units`, in order.
pub open spec fn folders(units: Seq<Unit>) -> Seq<Unit>
    decreases units.len(),
{
    if units.len() == 0 {
        Seq::empty()
    } else if units.last().kind == UnitKind::Dirctory {
        folders(units.drop_last()).push(units.last())
    } else {
        folders(units.drop_last())
    }
}

/// A folder's listing split for downloading: the paths of its files, downloaded
/// as they are, and its folders, whose own listings follow.
pub fn split_listing(units: Vec<Unit>) -> (r: (Vec<String>, Vec<Unit>))
    ensures
        r.0@.len() == file_paths(units@).len(),
        forall|i: int| 0 <= i < r.0@.len() ==> #[trigger] r.0@[i]@ == file_paths(units@)[i],
        r.1@ == folders(units@),
{
    let ghost all = units@;
    let mut units = units;
    let mut files: Vec<String> = Vec::new();
    let mut dirs: Vec<Unit> = Vec::new();
    let n = units.len();
    let mut i: usize = 0;
    while i < n
        invariant
            n == all.len(),
            i <= n,
            units@ == all.skip(i as int),
            files@.len() == file_paths(all.take(i as int)).len(),
            forall|k: int| 0 <= k < files@.len() ==> #[trigger] files@[k]@ == file_paths(all.take(i as int))[k],
            dirs@ == folders(all.take(i as int)),
        decreases n - i,
    {
        let u = units.remove(0);
        proof {
            assert(all.take(i + 1).drop_last() =~= all.take(i as int));
            assert(all.skip(i as int).remove(0) =~= all.skip(i + 1));
        }
        if u.kind == UnitKind::Dirctory {
            dirs.push(u);
        } else {
            files.push(u.path);
        }
        i = i + 1;
    }
    assert(all.take(n as int) =~= all);
    (files, dirs)
}

/// The lists to resume and to start once the turns `ts` are taken from
/// `resumable` and `waiting`, in order: each turn drops its index from its own list
/// (as `start_turn` does), and the rest keep their order.
pub open spec fn lists_after(resumable: Seq<usize>, waiting: Seq<usize>, ts: Seq<Turn>) -> (Seq<usize>, Seq<usize>)
    decreases ts.len(),
{
    if ts.len() == 0 {
        (resumable, waiting)
    } else {
        let (r, w) = lists_after(resumable, waiting, ts.drop_last());
        match ts.last() {
            Turn::Resumable(i) => (drop_id(r, i), w),
            Turn::Waiting(i) => (r, drop_id(w, i)),
        }
    }
}

/// The turns that starting transfers one after another takes, from the lists to
/// resume `resumable` and to start `waiting` with `running` transfers running:
/// the next turn each time, until `MAX_PARALLEL` run or nothing is left.
pub open spec fn turns_from(resumable: Seq<usize>, waiting: Seq<usize>, running: nat) -> Seq<Turn>
    decreases MAX_PARALLEL - running,
{
    if running >= MAX_PARALLEL {
        Seq::empty()
    } else {
        match next_turn_of(resumable, waiting) {
            None => Seq::empty(),
            Some(Turn::Resumable(i)) => seq![Turn::Resumable(i)] + turns_from(
                drop_id(resumable, i),
                waiting,
                running + 1,
            ),
            Some(Turn::Waiting(i)) => seq![Turn::Waiting(i)] + turns_from(
                resumable,
                drop_id(waiting, i),
                running + 1,
            ),
        }
    }
}

/// A copy of the indices `v`.
fn copy_ids(v: &Vec<usize>) -> (r: Vec<usize>)
    ensures
        r@ == v@,
{
    let mut r: Vec<usize> = Vec::new();
    let mut k: usize = 0;
    while k < v.len()
        invariant
            k <= v@.len(),
            r@ == v@.take(k as int),
        decreases v@.len() - k,
    {
        r.push(v[k]);
        k = k + 1;
        assert(r@ =~= v@.take(k as int));
    }
    assert(v@.take(k as int) =~= v@);
    r
}

impl<H, E> Downloads<H, E> {
    /// The transfers to start now, in order: taking the next turn (see
    /// `next_turn`) and starting it, again and again, until `MAX_PARALLEL` run or
    /// nothing is left to resume or start. They are then started with `start_turns`.
    pub fn available_turns(&self) -> (r: Vec<Turn>)
        ensures
            r@ == turns_from(self.resumable@, self.waiting@, self.progressing@.len()),
    {
        let mut res = copy_ids(&self.resumable);
        let mut wait = copy_ids(&self.waiting);
        let mut running: usize = self.progressing.len();
        let mut out: Vec<Turn> = Vec::new();
        let ghost all = turns_from(self.resumable@, self.waiting@, self.progressing@.len());
        loop
            invariant
                out@ + turns_from(res@, wait@, running as nat) == all,
            ensures
                out@ == all,
            decreases MAX_PARALLEL - running,
        {
            if running >= MAX_PARALLEL {
                assert(out@ =~= all);
                break;
            }
            if res.len() > 0 {
                let i = res[0];
                drop_index(&mut res, i);
                out.push(Turn::Resumable(i));
            } else if wait.len() > 0 {
                let i = wait[0];
                drop_index(&mut wait, i);
                out.push(Turn::Waiting(i));
            } else {
                assert(out@ =~= all);
                break;
            }
            running = running + 1;
            proof {
                assert(out@.drop_last() + seq![out@.last()] =~= out@);
            }
            assert(out@ + turns_from(res@, wait@, running as nat) =~= all);
        }
        out
    }

    /// Starts the transfers `turns` (those that `available_turns` lists) one after
    /// another, the `k`-th with the handle `handles[k]`, each by `start_turn`.
    /// Afterwards no transfer is left to start: either `MAX_PARALLEL` run, or
    /// nothing is left to resume or start.
    pub fn start_turns(&mut self, turns: Vec<Turn>, handles: Vec<H>)
        requires
            turns@ == turns_from(old(self).resumable@, old(self).waiting@, old(self).progressing@.len()),
            handles@.len() == turns@.len(),
        ensures
            final(self).turn_now() is None,
            final(self).progressing@.len() >= MAX_PARALLEL || (final(self).resumable@.len() == 0
                && final(self).waiting@.len() == 0),
            (final(self).resumable@, final(self).waiting@) == lists_after(
                old(self).resumable@,
                old(self).waiting@,
                turns@,
            ),
            old(self).progressing@.len() <= MAX_PARALLEL ==> final(self).progressing@.len() <= MAX_PARALLEL,
            final(self).progressing@ == old(self).progressing@ + Seq::new(
                turns@.len(),
                |k: int| (turn_index(turns@[k]), handles@[k]),
            ),
            final(self).files@ == old(self).files@,
            final(self).finished@ == old(self).finished@,
            final(self).paused@ == old(self).paused@,
            final(self).failed@ == old(self).failed@,
            final(self).canceled@ == old(self).canceled@,
            final(self).show_preview == old(self).show_preview,
            old(self).well_formed() ==> final(self).well_formed(),
    {
        let ghost ts = turns@;
        let ghost hs0 = handles@;
        let mut hs = handles;
        let n = turns.len();
        let mut k: usize = 0;
        while k < n
            invariant
                n == ts.len(),
                ts == turns@,
                hs0.len() == n,
                k <= n,
                hs@ == hs0.skip(k as int),
                ts.skip(k as int) == turns_from(self.resumable@, self.waiting@, self.progressing@.len()),
                (self.resumable@, self.waiting@) == lists_after(old(self).resumable@, old(self).waiting@, ts.take(k as int)),
                self.progressing@ == old(self).progressing@ + Seq::new(
                    k as nat,
                    |j: int| (turn_index(ts[j]), hs0[j]),
                ),
                self.files@ == old(self).files@,
                self.finished@ == old(self).finished@,
                self.paused@ == old(self).paused@,
                self.failed@ == old(self).failed@,
                self.canceled@ == old(self).canceled@,
                self.show_preview == old(self).show_preview,
                old(self).well_formed() ==> self.well_formed(),
                old(self).progressing@.len() <= MAX_PARALLEL ==> self.progressing@.len() <= MAX_PARALLEL,
            decreases n - k,
        {
            let t = turns[k];
            let h = hs.remove(0);
            proof {
                self.lemma_available_turns_in_order();
                assert(ts.skip(k as int)[0] == t);
                assert(ts.skip(k as int).drop_first() =~= ts.skip(k + 1));
            }
            let ghost before = self.progressing@;
            self.start_turn(t, h);
            proof {
                assert(hs0.skip(k as int).remove(0) =~= hs0.skip(k + 1));
                assert(h == hs0[k as int]);
                assert(ts.take(k + 1).drop_last() =~= ts.take(k as int));
                assert(ts.take(k + 1).last() == t);
            }
            k = k + 1;
            assert(self.progressing@ =~= old(self).progressing@ + Seq::new(
                k as nat,
                |j: int| (turn_index(ts[j]), hs0[j]),
            ));
        }
        proof {
            assert(ts.skip(n as int) =~= Seq::<Turn>::empty());
            assert(ts.take(n as int) =~= ts);
            self.lemma_available_turns_in_order();
        }
    }
}

impl<H, E> Downloads<H, E> {
    /// The transfers listed by `available_turns` are those that starting the turn
    /// of the moment again and again starts: the first is the turn of the moment,
    /// and once it is started (as `start_turn` leaves the lists) the rest are the
    /// transfers available then.
    pub proof fn lemma_available_turns_in_order(&self)
        ensures
            ({
                let ts = turns_from(self.resumable@, self.waiting@, self.progressing@.len());
                &&& ts.len() == 0 <==> self.turn_now() is None
                &&& ts.len() > 0 ==> Some(ts[0]) == self.turn_now() && ts.drop_first() == match ts[0] {
                    Turn::Resumable(i) => turns_from(
                        drop_id(self.resumable@, i),
                        self.waiting@,
                        self.progressing@.len() + 1,
                    ),
                    Turn::Waiting(i) => turns_from(
                        self.resumable@,
                        drop_id(self.waiting@, i),
                        self.progressing@.len() + 1,
                    ),
                }
            }),
    {
        let ts = turns_from(self.resumable@, self.waiting@, self.progressing@.len());
        if self.progressing@.len() < MAX_PARALLEL {
            match next_turn_of(self.resumable@, self.waiting@) {
                Some(Turn::Resumable(i)) => {
                    assert(ts.drop_first() =~= turns_from(drop_id(self.resumable@, i), self.waiting@, self.progressing@.len() + 1));
                },
                Some(Turn::Waiting(i)) => {
                    assert(ts.drop_first() =~= turns_from(self.resumable@, drop_id(self.waiting@, i), self.progressing@.len() + 1));
                },
                None => {},
            }
        }
    }
}

/// The texts of the paths `v`.
pub open spec fn path_texts(v: Seq<String>) -> Seq<Seq<char>> {
    v.map_values(|s: String| s@)
}

/// Collecting the files to download from the selected entries, a folder listing
/// at a time: the files met so far, in order, and the entries still to look at,
/// in order (a folder's subfolders come right after its files, before what
/// followed the folder).
pub struct PathCollector {
    pub paths: Vec<String>,
    pub pending: Vec<Unit>,
}

/// What looking for the next folder to list does to the collected paths and the
/// pending entries: files are collected in order until a folder comes (it is taken
/// out and returned, to be listed) or nothing is left.
pub open spec fn advance(paths: Seq<Seq<char>>, pending: Seq<Unit>) -> (Seq<Seq<char>>, Seq<Unit>, Option<Seq<char>>)
    decreases pending.len(),
{
    if pending.len() == 0 {
        (paths, pending, None)
    } else if pending[0].kind == UnitKind::Dirctory {
        (paths, pending.drop_first(), Some(pending[0].path@))
    } else {
        advance(paths.push(pending[0].path@), pending.drop_first())
    }
}

impl PathCollector {
    /// Nothing collected yet; the selected entries `units` are to be looked at.
    pub fn new(units: Vec<Unit>) -> (r: PathCollector)
        ensures
            r.paths@.len() == 0,
            r.pending@ == units@,
    {
        PathCollector { paths: Vec::new(), pending: units }
    }

    /// The next folder to list (see `advance`), collecting the files met before
    /// it; `None` once every entry was looked at, the paths being complete.
    pub fn next_folder(&mut self) -> (r: Option<String>)
        ensures
            ({
                let (p, q, f) = advance(path_texts(old(self).paths@), old(self).pending@);
                &&& path_texts(final(self).paths@) == p
                &&& final(self).pending@ == q
                &&& match r {
                    Some(s) => f == Some(s@),
                    None => f is None,
                }
            }),
    {
        let ghost target = advance(path_texts(self.paths@), self.pending@);
        while self.pending.len() > 0
            invariant
                advance(path_texts(self.paths@), self.pending@) == target,
                target == advance(path_texts(old(self).paths@), old(self).pending@),
            decreases self.pending@.len(),
        {
            let ghost pend = self.pending@;
            let u = self.pending.remove(0);
            assert(pend.remove(0) =~= pend.drop_first());
            if u.kind == UnitKind::Dirctory {
                assert(advance(path_texts(self.paths@), pend) == (path_texts(self.paths@), pend.drop_first(), Some(u.path@)));
                assert(target == (path_texts(self.paths@), self.pending@, Some(u.path@)));
                return Some(u.path);
            }
            let ghost before = path_texts(self.paths@);
            self.paths.push(u.path);
            assert(path_texts(self.paths@) =~= before.push(u.path@));
        }
        None
    }

    /// The listing `inner` of the folder last returned arrived: its files are
    /// collected, in order, and its folders are looked at next, before the rest.
    pub fn listed(&mut self, inner: Vec<Unit>)
        ensures
            path_texts(final(self).paths@) == path_texts(old(self).paths@) + file_paths(inner@),
            final(self).pending@ == folders(inner@) + old(self).pending@,
    {
        let (files, dirs) = split_listing(inner);
        let mut i: usize = 0;
        let ghost start = path_texts(self.paths@);
        while i < files.len()
            invariant
                i <= files@.len(),
                self.pending@ == old(self).pending@,
                path_texts(self.paths@) == start + path_texts(files@).take(i as int),
            decreases files@.len() - i,
        {
            let ghost before = path_texts(self.paths@);
            self.paths.push(files[i].clone());
            i = i + 1;
            assert(path_texts(self.paths@) =~= before.push(files@[i - 1]@));
            assert(path_texts(files@).take(i as int) =~= path_texts(files@).take(i - 1).push(files@[i - 1]@));
        }
        assert(path_texts(files@).take(i as int) =~= path_texts(files@));
        assert(path_texts(files@) =~= file_paths(inner@));
        let ghost old_pending = self.pending@;
        let mut pending = dirs;
        let mut rest: Vec<Unit> = Vec::new();
        std::mem::swap(&mut rest, &mut self.pending);
        assert(rest@ == old_pending);
        pending.append(&mut rest);
        assert(pending@ == folders(inner@) + old_pending);
        self.pending = pending;
    }
}

/// An entry of the tree of files on the server, as far as downloading goes: a file
/// (an entry that is not a folder), or a folder with the paths of the files its
/// listing holds, in order, and its subfolders, in order.
pub enum Entry {
    File(Unit),
    Folder { unit: Unit, files: Seq<Seq<char>>, subfolders: Seq<Entry> },
}

/// The listed entry that `e` is.
pub open spec fn unit_of(e: Entry) -> Unit {
    match e {
        Entry::File(u) => u,
        Entry::Folder { unit, .. } => unit,
    }
}

/// The listed entries that `es` are, in order.
pub open spec fn units_of(es: Seq<Entry>) -> Seq<Unit> {
    es.map_values(|e: Entry| unit_of(e))
}

/// The entries `es` are what the server lists, `ls` giving the listing of each
/// folder: a file is not a folder, and a folder is one whose listing holds exactly
/// its files, then (among them, in order) its subfolders.
pub open spec fn tree_listed(es: Seq<Entry>, ls: spec_fn(Seq<char>) -> Seq<Unit>) -> bool
    decreases es,
{
    if es.len() == 0 {
        true
    } else {
        &&& match es[0] {
            Entry::File(u) => u.kind != UnitKind::Dirctory,
            Entry::Folder { unit, files, subfolders } => {
                &&& unit.kind == UnitKind::Dirctory
                &&& file_paths(ls(unit.path@)) == files
                &&& folders(ls(unit.path@)) == units_of(subfolders)
                &&& tree_listed(subfolders, ls)
            },
        }
        &&& tree_listed(es.drop_first(), ls)
    }
}

/// The paths of the files to download under the entries `es`, in the order in which
/// the selection is walked: each entry in turn; a file is itself; a folder gives
/// the files of its listing, then what its subfolders give.
pub open spec fn files_under(es: Seq<Entry>) -> Seq<Seq<char>>
    decreases es,
{
    if es.len() == 0 {
        Seq::empty()
    } else {
        (match es[0] {
            Entry::File(u) => seq![u.path@],
            Entry::Folder { files, subfolders, .. } => files + files_under(subfolders),
        }) + files_under(es.drop_first())
    }
}

/// How many folders there are under and among `es`: the listings that collecting
/// their files asks for.
pub open spec fn folder_count(es: Seq<Entry>) -> nat
    decreases es,
{
    if es.len() == 0 {
        0
    } else {
        (match es[0] {
            Entry::File(_) => 0,
            Entry::Folder { subfolders, .. } => 1 + folder_count(subfolders),
        }) + folder_count(es.drop_first())
    }
}

/// What driving a collector holding `paths` and `pending` gives, `ls` answering each
/// listing asked for: `next_folder` (see `advance`) until it returns none, handing
/// each folder it returns to `listed` with the folder's listing. At most `fuel`
/// listings are asked for; `None` when more would be.
pub open spec fn collected(
    paths: Seq<Seq<char>>,
    pending: Seq<Unit>,
    ls: spec_fn(Seq<char>) -> Seq<Unit>,
    fuel: nat,
) -> Option<Seq<Seq<char>>>
    decreases fuel,
{
    let (p, q, f) = advance(paths, pending);
    match f {
        None => Some(p),
        Some(dir) => if fuel == 0 {
            None
        } else {
            collected(p + file_paths(ls(dir)), folders(ls(dir)) + q, ls, (fuel - 1) as nat)
        },
    }
}

proof fn lemma_collected_through(
    es: Seq<Entry>,
    rest: Seq<Unit>,
    paths: Seq<Seq<char>>,
    ls: spec_fn(Seq<char>) -> Seq<Unit>,
    fuel: nat,
)
    requires
        tree_listed(es, ls),
    ensures
        collected(paths, units_of(es) + rest, ls, folder_count(es) + fuel) == collected(
            paths + files_under(es),
            rest,
            ls,
            fuel,
        ),
    decreases es,
{
    if es.len() == 0 {
        assert(units_of(es) + rest =~= rest);
        assert(paths + files_under(es) =~= paths);
    } else {
        let tail = es.drop_first();
        let pend = units_of(es) + rest;
        assert(pend[0] == unit_of(es[0]));
        assert(pend.drop_first() =~= units_of(tail) + rest);
        match es[0] {
            Entry::File(u) => {
                assert(advance(paths, pend) == advance(paths.push(u.path@), pend.drop_first()));
                lemma_collected_through(tail, rest, paths.push(u.path@), ls, fuel);
                assert(paths.push(u.path@) + files_under(tail) =~= paths + files_under(es));
            },
            Entry::Folder { unit, files, subfolders } => {
                assert(advance(paths, pend) == (paths, pend.drop_first(), Some(unit.path@)));
                let f2 = folder_count(tail) + fuel;
                assert(folder_count(es) + fuel == 1 + folder_count(subfolders) + f2);
                assert(folders(ls(unit.path@)) + (units_of(tail) + rest) =~= units_of(subfolders) + (
                units_of(tail) + rest));
                lemma_collected_through(subfolders, units_of(tail) + rest, paths + files, ls, f2);
                lemma_collected_through(tail, rest, paths + files + files_under(subfolders), ls, fuel);
                assert(paths + files + files_under(subfolders) + files_under(tail) =~= paths
                    + files_under(es));
            },
        }
    }
}

/// Collecting goes depth first, as the selection is walked: driving a collector
/// (`next_folder`, then `listed` with the listing of the folder it returned, until
/// it returns none) from the selected entries `es`, listed by the server as `ls`
/// says, asks for one listing per folder and ends with the paths of the files
/// under `es` in the order of `files_under`.
pub proof fn lemma_collects_depth_first(es: Seq<Entry>, ls: spec_fn(Seq<char>) -> Seq<Unit>)
    requires
        tree_listed(es, ls),
    ensures
        collected(Seq::empty(), units_of(es), ls, folder_count(es)) == Some(files_under(es)),
{
    lemma_collected_through(es, Seq::empty(), Seq::empty(), ls, 0);
    assert(units_of(es) + Seq::<Unit>::empty() =~= units_of(es));
    assert(Seq::<Seq<char>>::empty() + files_under(es) =~= files_under(es));
}

} // verus!
