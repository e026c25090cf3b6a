//! Forward-only pagination over the source table.
//!
//! A cursor holds the watermark (the last key that was processed), the batch
//! size and the number of workers of a wave. It says which windows to fetch,
//! checks the pages that came back, and moves the watermark. A short page is
//! the only sign that the source is exhausted.

use vstd::prelude::*;

verus! {

/// Whether the keys grow strictly from each one to the next.
pub open spec fn ascending(keys: Seq<i32>) -> bool {
    forall|i: int, j: int| 0 <= i < j < keys.len() ==> keys[i] < keys[j]
}

/// The keys of `source` that are greater than `after`, in the source's order.
pub open spec fn keys_after(source: Seq<i32>, after: int) -> Seq<i32>
    decreases source.len(),
{
    if source.len() == 0 {
        Seq::empty()
    } else if source.last() > after {
        keys_after(source.drop_last(), after).push(source.last())
    } else {
        keys_after(source.drop_last(), after)
    }
}

/// The page that the source owes for a window: the first `limit` keys
/// greater than `after`, or all of them where there are fewer.
pub open spec fn page_of(source: Seq<i32>, after: int, limit: int) -> Seq<i32> {
    let rest = keys_after(source, after);
    if rest.len() <= limit {
        rest
    } else if limit <= 0 {
        Seq::empty()
    } else {
        rest.take(limit)
    }
}

/// The greatest of `floor` and the last keys of the pages that hold any key.
pub open spec fn highest_last_key(pages: Seq<Seq<i32>>, floor: int) -> int
    decreases pages.len(),
{
    if pages.len() == 0 {
        floor
    } else {
        let before = highest_last_key(pages.drop_last(), floor);
        let page = pages.last();
        if page.len() > 0 && page.last() > before {
            page.last() as int
        } else {
            before
        }
    }
}

/// Whether some page holds fewer than `batch_size` keys.
pub open spec fn some_page_short(pages: Seq<Seq<i32>>, batch_size: int) -> bool {
    exists|n: int| 0 <= n < pages.len() && (#[trigger] pages[n]).len() < batch_size
}

/// A cursor, as contracts see it.
pub struct CursorState {
    pub watermark: int,
    pub batch_size: int,
    pub workers: int,
}

impl CursorState {
    /// The key after which the window of a worker starts: each worker's
    /// window lies one batch size further than that of the worker before.
    pub open spec fn window_start(self, worker: int) -> int {
        self.watermark + worker * self.batch_size
    }

    /// Whether `page` can be the answer to the window of `worker`: at most a
    /// batch of keys, strictly ascending, all behind the window's start.
    pub open spec fn accepts_page(self, worker: int, page: Seq<i32>) -> bool {
        &&& page.len() <= self.batch_size
        &&& ascending(page)
        &&& forall|i: int| 0 <= i < page.len() ==> page[i] > self.window_start(worker)
    }

    /// Whether `pages` can be the answer to a wave: one acceptable page for
    /// each worker.
    pub open spec fn accepts(self, pages: Seq<Seq<i32>>) -> bool {
        &&& pages.len() == self.workers
        &&& forall|n: int| 0 <= n < pages.len() ==> self.accepts_page(n, #[trigger] pages[n])
    }

    /// The watermark after a wave: the greatest last key of its pages, and
    /// the old watermark where no page holds a key.
    pub open spec fn next_watermark(self, pages: Seq<Seq<i32>>) -> int {
        highest_last_key(pages, self.watermark)
    }

    /// Whether a wave ends the stream: it does as soon as its smallest page
    /// is short.
    pub open spec fn finished(self, pages: Seq<Seq<i32>>) -> bool {
        some_page_short(pages, self.batch_size)
    }

    /// The cursor after a wave.
    pub open spec fn advance(self, pages: Seq<Seq<i32>>) -> CursorState {
        CursorState { watermark: self.next_watermark(pages), ..self }
    }

    /// The windows of the next wave, one for each worker.
    pub open spec fn windows(self) -> Seq<FetchWindow> {
        Seq::new(
            self.workers as nat,
            |n: int|
                FetchWindow { after: self.window_start(n) as u64, limit: self.batch_size as u32 },
        )
    }
}

/// One window of a wave: fetch up to `limit` entities with a key greater than
/// `after`, in ascending order of their keys.
#[derive(Debug, Clone, Copy, PartialEq, Eq, Structural)]
pub struct FetchWindow {
    pub after: u64,
    pub limit: u32,
}

/// The position of an export in the source table.
#[derive(Debug, Clone, Copy)]
pub struct ExportCursor {
    watermark: u32,
    batch_size: u32,
    workers: u32,
}

impl View for ExportCursor {
    type V = CursorState;

    closed spec fn view(&self) -> CursorState {
        CursorState {
            watermark: self.watermark as int,
            batch_size: self.batch_size as int,
            workers: self.workers as int,
        }
    }
}

/// Whether `page` is strictly ascending and lies behind `after`.
fn page_in_window(page: &Vec<i32>, after: u64) -> (ok: bool)
    ensures
        ok == (ascending(page@) && forall|i: int| 0 <= i < page@.len() ==> page@[i] > after),
{
    let mut i: usize = 0;
    while i < page.len()
        invariant
            i <= page.len(),
            ascending(page@.take(i as int)),
            forall|j: int| 0 <= j < i ==> page@[j] > after,
        decreases page.len() - i,
    {
        let key = page[i];
        if key < 0 || (key as u64) <= after {
            return false;
        }
        if i > 0 && page[i - 1] >= key {
            assert(!(page@[i - 1] < page@[i as int]));
            return false;
        }
        let ghost shorter = page@.take(i as int);
        let ghost longer = page@.take(i as int + 1);
        assert forall|a: int, b: int| 0 <= a < b < longer.len() implies longer[a] < longer[b] by {
            if b < i {
                assert(shorter[a] < shorter[b]);
            } else if a < i - 1 {
                assert(shorter[a] < shorter[i - 1]);
            }
        }
        i = i + 1;
    }
    assert(page@.take(i as int) =~= page@);
    true
}

impl ExportCursor {
    #[verifier::type_invariant]
    spec fn well_formed(self) -> bool {
        self.batch_size >= 1 && self.workers >= 1
    }

    /// A cursor that resumes behind `watermark`. There is none for an empty
    /// batch or for no worker: a run with either could not move on.
    pub fn new(watermark: u32, batch_size: u32, workers: u32) -> (cursor: Option<Self>)
        ensures
            cursor is None <==> batch_size == 0 || workers == 0,
            cursor matches Some(made) ==> made@ == (CursorState {
                watermark: watermark as int,
                batch_size: batch_size as int,
                workers: workers as int,
            }),
    {
        if batch_size == 0 || workers == 0 {
            None
        } else {
            Some(ExportCursor { watermark, batch_size, workers })
        }
    }

    /// A cursor with the same batch size and workers that starts before the
    /// first key, as a full export does.
    pub fn from_start(&self) -> (cursor: Self)
        ensures
            cursor@ == (CursorState { watermark: 0, ..self@ }),
    {
        proof {
            use_type_invariant(self);
        }
        ExportCursor { watermark: 0, batch_size: self.batch_size, workers: self.workers }
    }

    /// The last key that was processed.
    pub fn watermark(&self) -> (watermark: u32)
        ensures
            watermark == self@.watermark,
    {
        self.watermark
    }

    /// The greatest number of entities in one page; at least 1.
    pub fn batch_size(&self) -> (batch_size: u32)
        ensures
            batch_size == self@.batch_size,
            batch_size >= 1,
    {
        proof {
            use_type_invariant(self);
        }
        self.batch_size
    }

    /// The number of windows in one wave; at least 1, and 1 for a sequential
    /// export.
    pub fn workers(&self) -> (workers: u32)
        ensures
            workers == self@.workers,
            workers >= 1,
    {
        proof {
            use_type_invariant(self);
        }
        self.workers
    }

    /// The windows of the next wave, one for each worker.
    pub fn windows(&self) -> (windows: Vec<FetchWindow>)
        ensures
            windows@ == self@.windows(),
            windows@.len() == self@.workers,
            forall|n: int|
                0 <= n < windows@.len() ==> {
                    &&& (#[trigger] windows@[n]).after == self@.window_start(n)
                    &&& windows@[n].limit == self@.batch_size
                },
    {
        let mut windows: Vec<FetchWindow> = Vec::new();
        let mut n: u32 = 0;
        while n < self.workers
            invariant
                n <= self.workers,
                windows@.len() == n,
                forall|k: int|
                    0 <= k < n ==> {
                        &&& (#[trigger] windows@[k]).after == self@.window_start(k)
                        &&& windows@[k].limit == self@.batch_size
                    },
            decreases self.workers - n,
        {
            let after = self.window_after(n);
            windows.push(FetchWindow { after, limit: self.batch_size });
            n = n + 1;
        }
        assert(windows@ =~= self@.windows());
        windows
    }

    fn window_after(&self, worker: u32) -> (after: u64)
        ensures
            after == self@.window_start(worker as int),
    {
        assert(worker * self.batch_size <= 0xffff_ffff * 0xffff_ffff) by (nonlinear_arith)
            requires
                worker <= 0xffff_ffff,
                self.batch_size <= 0xffff_ffff,
        ;
        self.watermark as u64 + (worker as u64) * (self.batch_size as u64)
    }

    /// Whether `pages` can be the answer to the windows of the next wave.
    pub fn accepts(&self, pages: &Vec<Vec<i32>>) -> (ok: bool)
        ensures
            ok == self@.accepts(pages.deep_view()),
    {
        if pages.len() != self.workers as usize {
            return false;
        }
        let mut n: usize = 0;
        while n < pages.len()
            invariant
                n <= pages.len(),
                pages.len() == self.workers,
                forall|k: int|
                    0 <= k < n ==> self@.accepts_page(k, #[trigger] pages.deep_view()[k]),
            decreases pages.len() - n,
        {
            assert(pages.deep_view()[n as int] == pages@[n as int]@);
            let after = self.window_after(n as u32);
            if pages[n].len() > self.batch_size as usize || !page_in_window(&pages[n], after) {
                assert(!self@.accepts_page(n as int, pages.deep_view()[n as int]));
                return false;
            }
            n = n + 1;
        }
        true
    }

    /// Takes in the pages of a wave. Where they are acceptable the watermark
    /// moves to the greatest last key among them, and the result says whether
    /// the stream has ended. Where they are not, the source has broken its
    /// word: the cursor stays where it is and the result is `None`.
    pub fn advance(&mut self, pages: &Vec<Vec<i32>>) -> (finished: Option<bool>)
        ensures
            old(self)@.accepts(pages.deep_view()) ==> finished == Some(
                old(self)@.finished(pages.deep_view()),
            ) && final(self)@ == old(self)@.advance(pages.deep_view()),
            !old(self)@.accepts(pages.deep_view()) ==> finished is None && final(self)@ == old(
                self,
            )@,
    {
        proof {
            use_type_invariant(&*self);
        }
        if !self.accepts(pages) {
            return None;
        }
        let ghost wave = pages.deep_view();
        let mut watermark = self.watermark;
        let mut short = false;
        let mut n: usize = 0;
        while n < pages.len()
            invariant
                n <= pages.len(),
                wave == pages.deep_view(),
                self@.accepts(wave),
                self@.watermark <= watermark,
                watermark == highest_last_key(wave.take(n as int), self@.watermark),
                short == some_page_short(wave.take(n as int), self@.batch_size),
            decreases pages.len() - n,
        {
            let page = &pages[n];
            proof {
                assert(wave[n as int] == page@);
                assert(wave.take(n as int + 1).drop_last() =~= wave.take(n as int));
                assert(wave.take(n as int + 1).last() == page@);
                assert(self@.accepts_page(n as int, wave[n as int]));
                let longer = wave.take(n as int + 1);
                if some_page_short(wave.take(n as int), self@.batch_size) {
                    let k = choose|k: int|
                        0 <= k < wave.take(n as int).len() && (#[trigger] wave.take(
                            n as int,
                        )[k]).len() < self@.batch_size;
                    assert(longer[k] == wave.take(n as int)[k]);
                }
                if page@.len() < self@.batch_size {
                    assert(longer[n as int].len() < self@.batch_size);
                }
                if some_page_short(longer, self@.batch_size) {
                    let k = choose|k: int|
                        0 <= k < longer.len() && (#[trigger] longer[k]).len() < self@.batch_size;
                    if k < n {
                        assert(wave.take(n as int)[k] == longer[k]);
                    }
                }
            }
            if page.len() < self.batch_size as usize {
                short = true;
            }
            if page.len() > 0 {
                let last = page[page.len() - 1];
                assert(last > self@.window_start(n as int));
                assert(n * self@.batch_size >= 0) by (nonlinear_arith)
                    requires
                        n >= 0,
                        self@.batch_size >= 0,
                ;
                if last as u32 > watermark {
                    watermark = last as u32;
                }
            }
            n = n + 1;
        }
        assert(wave.take(n as int) =~= wave);
        self.watermark = watermark;
        Some(short)
    }
}


/// The number of keys of `source` that are not greater than `bound`.
pub open spec fn count_up_to(source: Seq<i32>, bound: int) -> nat
    decreases source.len(),
{
    if source.len() == 0 {
        0
    } else if source.last() > bound {
        count_up_to(source.drop_last(), bound)
    } else {
        count_up_to(source.drop_last(), bound) + 1
    }
}

/// In an ascending source the keys behind a bound are a suffix: the source
/// without its first `count_up_to` keys.
pub proof fn lemma_keys_after_is_suffix(source: Seq<i32>, bound: int)
    requires
        ascending(source),
    ensures
        count_up_to(source, bound) <= source.len(),
        keys_after(source, bound) == source.skip(count_up_to(source, bound) as int),
        forall|i: int| 0 <= i < count_up_to(source, bound) ==> source[i] <= bound,
        forall|i: int| count_up_to(source, bound) <= i < source.len() ==> source[i] > bound,
    decreases source.len(),
{
    if source.len() == 0 {
        assert(keys_after(source, bound) =~= source.skip(0));
    } else {
        let front = source.drop_last();
        let m = count_up_to(front, bound);
        assert forall|i: int, j: int| 0 <= i < j < front.len() implies front[i] < front[j] by {
            assert(source[i] < source[j]);
        }
        lemma_keys_after_is_suffix(front, bound);
        if source.last() > bound {
            assert(keys_after(source, bound) =~= source.skip(m as int));
            assert forall|i: int| 0 <= i < m implies source[i] <= bound by {
                assert(front[i] <= bound);
            }
            assert forall|i: int| m <= i < source.len() implies source[i] > bound by {
                if i < front.len() {
                    assert(front[i] > bound);
                }
            }
        } else {
            if m < front.len() {
                assert(front[m as int] > bound);
                assert(source[m as int] < source[source.len() - 1]);
            }
            assert(keys_after(source, bound) =~= source.skip(source.len() as int));
            assert forall|i: int| 0 <= i < m + 1 implies source[i] <= bound by {
                if i < front.len() {
                    assert(front[i] <= bound);
                }
            }
        }
    }
}

/// The count of keys up to a bound is the one place that splits an ascending
/// source into the keys up to the bound and the keys behind it.
pub proof fn lemma_count_is_split_point(source: Seq<i32>, bound: int, split: int)
    requires
        ascending(source),
        0 <= split <= source.len(),
        forall|i: int| 0 <= i < split ==> source[i] <= bound,
        forall|i: int| split <= i < source.len() ==> source[i] > bound,
    ensures
        count_up_to(source, bound) == split,
{
    lemma_keys_after_is_suffix(source, bound);
    let k = count_up_to(source, bound) as int;
    if k < split {
        assert(source[k] > bound);
    } else if split < k {
        assert(source[split] <= bound);
    }
}

/// The keys behind a bound come in the source's order and are all greater
/// than the bound.
pub proof fn lemma_keys_after_ascending(source: Seq<i32>, bound: int)
    requires
        ascending(source),
    ensures
        ascending(keys_after(source, bound)),
        forall|i: int|
            0 <= i < keys_after(source, bound).len() ==> keys_after(source, bound)[i] > bound,
{
    lemma_keys_after_is_suffix(source, bound);
}

/// A full page uses up exactly its own keys: after the cursor has taken it
/// in, the keys that remain are the former ones without the first batch.
pub proof fn lemma_full_page_consumed(source: Seq<i32>, cursor: CursorState)
    requires
        ascending(source),
        cursor.batch_size >= 1,
        page_of(source, cursor.watermark, cursor.batch_size).len() == cursor.batch_size,
    ensures
        ({
            let page = page_of(source, cursor.watermark, cursor.batch_size);
            let next = cursor.advance(seq![page]);
            &&& next.watermark == page.last()
            &&& next.watermark > cursor.watermark
            &&& keys_after(source, next.watermark) == keys_after(source, cursor.watermark).skip(
                cursor.batch_size,
            )
        }),
{
    let page = page_of(source, cursor.watermark, cursor.batch_size);
    let rest = keys_after(source, cursor.watermark);
    let k = count_up_to(source, cursor.watermark) as int;
    let b = cursor.batch_size;
    lemma_keys_after_is_suffix(source, cursor.watermark);
    assert(page.last() == source[k + b - 1]);
    assert(seq![page].drop_last() =~= Seq::<Seq<i32>>::empty());
    assert(highest_last_key(seq![page].drop_last(), cursor.watermark) == cursor.watermark);
    assert(seq![page].last() == page);
    let next = cursor.advance(seq![page]);
    assert(next.watermark == page.last());
    assert forall|i: int| 0 <= i < k + b implies source[i] <= next.watermark by {
        if i < k + b - 1 {
            assert(source[i] < source[k + b - 1]);
        }
    }
    assert forall|i: int| k + b <= i < source.len() implies source[i] > next.watermark by {
        assert(source[k + b - 1] < source[i]);
    }
    lemma_count_is_split_point(source, next.watermark as int, k + b);
    lemma_keys_after_is_suffix(source, next.watermark as int);
    assert(source.skip(k + b) =~= source.skip(k).skip(b));
}

/// The pages that a sequential export fetches from an ascending source, in
/// the order of the fetches: the page of the cursor's window, and, unless that
/// page is short, the pages fetched after the cursor has taken it in.
pub open spec fn sequential_run(source: Seq<i32>, cursor: CursorState) -> Seq<Seq<i32>>
    decreases keys_after(source, cursor.watermark).len(),
    when ascending(source) && cursor.batch_size >= 1
{
    let page = page_of(source, cursor.watermark, cursor.batch_size);
    if page.len() < cursor.batch_size {
        seq![page]
    } else {
        proof {
            lemma_full_page_consumed(source, cursor);
        }
        seq![page] + sequential_run(source, cursor.advance(seq![page]))
    }
}

/// The cursor at the end of a sequential export.
pub open spec fn sequential_end(source: Seq<i32>, cursor: CursorState) -> CursorState
    decreases keys_after(source, cursor.watermark).len(),
    when ascending(source) && cursor.batch_size >= 1
{
    let page = page_of(source, cursor.watermark, cursor.batch_size);
    if page.len() < cursor.batch_size {
        cursor.advance(seq![page])
    } else {
        proof {
            lemma_full_page_consumed(source, cursor);
        }
        sequential_end(source, cursor.advance(seq![page]))
    }
}

/// Pagination terminates and loses nothing. Let S be the number of keys
/// behind the watermark and B the batch size. A sequential export of an
/// ascending source then makes S / B + 1 fetches. All of them but the last
/// bring a full page, and the last brings the S mod B keys that are left (none
/// where B divides S: the fetch that finds the source exhausted). The pages
/// laid end to end are the keys behind the watermark, each once and in
/// ascending order, and every page is one that the cursor accepts. The
/// watermark ends on the last key.
pub proof fn lemma_sequential_export_visits_every_key_once(source: Seq<i32>, cursor: CursorState)
    requires
        ascending(source),
        cursor.batch_size >= 1,
        cursor.workers == 1,
    ensures
        ({
            let keys = keys_after(source, cursor.watermark);
            let run = sequential_run(source, cursor);
            let end = sequential_end(source, cursor);
            &&& run.flatten() == keys
            &&& ascending(keys)
            &&& run.len() == keys.len() / (cursor.batch_size as nat) + 1
            &&& forall|i: int| 0 <= i < run.len() - 1 ==> (#[trigger] run[i]).len() == cursor.batch_size
            &&& run.last().len() == keys.len() % (cursor.batch_size as nat)
            &&& end.watermark == if keys.len() > 0 {
                keys.last() as int
            } else {
                cursor.watermark
            }
            &&& end.batch_size == cursor.batch_size && end.workers == cursor.workers
        }),
    decreases keys_after(source, cursor.watermark).len(),
{
    let keys = keys_after(source, cursor.watermark);
    let run = sequential_run(source, cursor);
    let b = cursor.batch_size;
    let page = page_of(source, cursor.watermark, b);
    lemma_keys_after_ascending(source, cursor.watermark);
    assert(seq![page].drop_last() =~= Seq::<Seq<i32>>::empty());
    assert(highest_last_key(seq![page].drop_last(), cursor.watermark) == cursor.watermark);
    assert(seq![page].last() == page);
    if page.len() < b {
        assert(page == keys);
        assert(run =~= seq![keys]);
        assert(run.drop_first() =~= Seq::<Seq<i32>>::empty());
        assert(run.drop_first().flatten() =~= Seq::<i32>::empty());
        assert(run.flatten() =~= keys);
        vstd::arithmetic::div_mod::lemma_basic_div(keys.len() as int, b);
        vstd::arithmetic::div_mod::lemma_small_mod(keys.len(), b as nat);
        if keys.len() > 0 {
            assert(keys.last() > cursor.watermark);
        }
    } else {
        let next = cursor.advance(seq![page]);
        lemma_full_page_consumed(source, cursor);
        lemma_sequential_export_visits_every_key_once(source, next);
        let later = sequential_run(source, next);
        let left = keys_after(source, next.watermark);
        assert(run == seq![page] + later);
        assert(run.first() == page);
        assert(run.drop_first() =~= later);
        assert(run.flatten() =~= page + left);
        assert(page + left =~= keys);
        assert(left.len() == keys.len() - b);
        let quotient = left.len() as int / b;
        let remainder = left.len() as int % b;
        vstd::arithmetic::div_mod::lemma_fundamental_div_mod(left.len() as int, b);
        vstd::arithmetic::div_mod::lemma_mod_pos_bound(left.len() as int, b);
        assert(keys.len() == (quotient + 1) * b + remainder) by (nonlinear_arith)
            requires
                left.len() == b * quotient + remainder,
                keys.len() == left.len() + b,
        ;
        vstd::arithmetic::div_mod::lemma_fundamental_div_mod_converse(
            keys.len() as int,
            b,
            quotient + 1,
            remainder,
        );
        assert(later.len() >= 1);
        assert forall|i: int| 0 <= i < run.len() - 1 implies (#[trigger] run[i]).len() == b by {
            if i > 0 {
                assert(run[i] == later[i - 1]);
            }
        }
        assert(run.last() == later.last());
        if left.len() > 0 {
            assert(left.last() == keys.last());
        } else {
            assert(keys.last() == page.last());
        }
    }
}


/// The keys behind a bound in a part of the source are the first of the keys
/// behind the bound in the whole source.
pub proof fn lemma_keys_after_prefix(source: Seq<i32>, after: int, length: int)
    requires
        0 <= length <= source.len(),
    ensures
        keys_after(source.take(length), after).len() <= keys_after(source, after).len(),
        keys_after(source.take(length), after) == keys_after(source, after).take(
            keys_after(source.take(length), after).len() as int,
        ),
    decreases source.len(),
{
    if length == source.len() {
        assert(source.take(length) =~= source);
        assert(keys_after(source, after).take(keys_after(source, after).len() as int)
            =~= keys_after(source, after));
    } else {
        let front = source.drop_last();
        assert(front.take(length) =~= source.take(length));
        lemma_keys_after_prefix(front, after, length);
        let part = keys_after(source.take(length), after);
        assert(part =~= keys_after(source, after).take(part.len() as int));
    }
}

/// The page that a source held in memory owes for a window: the first
/// `limit` of its keys that are greater than `after`, in its own order.
pub fn page_after(source: &Vec<i32>, after: u64, limit: u32) -> (page: Vec<i32>)
    ensures
        page@ == page_of(source@, after as int, limit as int),
{
    let mut page: Vec<i32> = Vec::new();
    let mut i: usize = 0;
    while i < source.len() && page.len() < limit as usize
        invariant
            i <= source.len(),
            page@.len() <= limit,
            page@ == keys_after(source@.take(i as int), after as int),
        decreases source.len() - i,
    {
        assert(source@.take(i as int + 1).drop_last() =~= source@.take(i as int));
        let key = source[i];
        if key >= 0 && key as u64 > after {
            page.push(key);
        }
        i = i + 1;
    }
    proof {
        lemma_keys_after_prefix(source@, after as int, i as int);
        if i == source.len() {
            assert(source@.take(i as int) =~= source@);
        }
    }
    page
}

/// The pages that a source owes for the windows of a wave.
pub open spec fn wave_of(source: Seq<i32>, cursor: CursorState) -> Seq<Seq<i32>> {
    Seq::new(
        cursor.workers as nat,
        |n: int| page_of(source, cursor.window_start(n), cursor.batch_size),
    )
}

/// A source that keeps its word is never turned away: the pages that an
/// ascending source owes for the windows of a wave are pages that the cursor
/// accepts.
pub proof fn lemma_owed_wave_is_accepted(source: Seq<i32>, cursor: CursorState)
    requires
        ascending(source),
        cursor.batch_size >= 1,
        cursor.workers >= 1,
    ensures
        cursor.accepts(wave_of(source, cursor)),
{
    let wave = wave_of(source, cursor);
    assert forall|n: int| 0 <= n < wave.len() implies cursor.accepts_page(n, #[trigger] wave[n]) by {
        lemma_keys_after_ascending(source, cursor.window_start(n));
        let rest = keys_after(source, cursor.window_start(n));
        let page = wave[n];
        assert forall|i: int, j: int| 0 <= i < j < page.len() implies page[i] < page[j] by {
            assert(rest[i] < rest[j]);
        }
        assert forall|i: int| 0 <= i < page.len() implies page[i] > cursor.window_start(n) by {
            assert(rest[i] > cursor.window_start(n));
        }
    }
}

} // verus!
