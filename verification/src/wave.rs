//! Waves of several workers lose no key.
//!
//! The windows of a wave lie one batch size apart in key space, not one page
//! apart in the source. Because keys are distinct whole numbers, a window
//! never starts behind the end of the page before it: the pages of a wave
//! overlap or touch, and together they hold every key up to the watermark
//! that the wave ends on.

use crate::cursor::{
    ascending, count_up_to, highest_last_key, keys_after, lemma_count_is_split_point,
    lemma_keys_after_is_suffix, page_of, some_page_short, wave_of, CursorState,
};
use vstd::prelude::*;

verus! {

/// The place in the source at which the page of a worker begins.
pub open spec fn page_start(source: Seq<i32>, cursor: CursorState, worker: int) -> int {
    count_up_to(source, cursor.window_start(worker)) as int
}

/// The place in the source at which the page of a worker ends.
pub open spec fn page_end(source: Seq<i32>, cursor: CursorState, worker: int) -> int {
    let start = page_start(source, cursor, worker);
    if start + cursor.batch_size <= source.len() {
        start + cursor.batch_size
    } else {
        source.len() as int
    }
}

/// Ascending whole numbers grow by at least one from place to place.
pub proof fn lemma_ascending_keys_spread(source: Seq<i32>, from: int, distance: int)
    requires
        ascending(source),
        0 <= from,
        0 <= distance,
        from + distance < source.len(),
    ensures
        source[from + distance] >= source[from] + distance,
    decreases distance,
{
    if distance > 0 {
        lemma_ascending_keys_spread(source, from, distance - 1);
        assert(source[from + distance - 1] < source[from + distance]);
    }
}

/// Between two bounds lie at most as many keys as whole numbers.
pub proof fn lemma_keys_between_bounds(source: Seq<i32>, low: int, high: int)
    requires
        ascending(source),
        low <= high,
    ensures
        count_up_to(source, low) <= count_up_to(source, high),
        count_up_to(source, high) - count_up_to(source, low) <= high - low,
{
    lemma_keys_after_is_suffix(source, low);
    lemma_keys_after_is_suffix(source, high);
    let first = count_up_to(source, low) as int;
    let behind = count_up_to(source, high) as int;
    if behind < first {
        assert(source[behind] > high);
        assert(source[behind] <= low);
    }
    if behind - first > high - low {
        lemma_ascending_keys_spread(source, first, high - low);
        assert(source[first] > low);
        assert(source[first + (high - low)] <= high);
    }
}

/// The page of a worker is the stretch of the source between its start and
/// its end.
pub proof fn lemma_page_is_stretch(source: Seq<i32>, cursor: CursorState, worker: int)
    requires
        ascending(source),
        cursor.batch_size >= 1,
    ensures
        0 <= page_start(source, cursor, worker) <= page_end(source, cursor, worker)
            <= source.len(),
        page_of(source, cursor.window_start(worker), cursor.batch_size) == source.subrange(
            page_start(source, cursor, worker),
            page_end(source, cursor, worker),
        ),
{
    lemma_keys_after_is_suffix(source, cursor.window_start(worker));
    let start = page_start(source, cursor, worker);
    let end = page_end(source, cursor, worker);
    let page = page_of(source, cursor.window_start(worker), cursor.batch_size);
    assert(page =~= source.subrange(start, end));
}

/// The page of a worker begins no later than the page of the worker before
/// it ends, and neither begins nor ends before it.
pub proof fn lemma_pages_touch(source: Seq<i32>, cursor: CursorState, worker: int)
    requires
        ascending(source),
        cursor.batch_size >= 1,
        0 <= worker,
    ensures
        page_start(source, cursor, worker) <= page_start(source, cursor, worker + 1),
        page_start(source, cursor, worker + 1) <= page_end(source, cursor, worker),
        page_end(source, cursor, worker) <= page_end(source, cursor, worker + 1),
{
    let low = cursor.window_start(worker);
    let high = cursor.window_start(worker + 1);
    assert(high - low == cursor.batch_size) by (nonlinear_arith)
        requires
            low == cursor.watermark + worker * cursor.batch_size,
            high == cursor.watermark + (worker + 1) * cursor.batch_size,
    ;
    lemma_keys_between_bounds(source, low, high);
    lemma_keys_after_is_suffix(source, high);
}

/// Every place from the start of the first page to the end of a later page
/// lies in the page of one of the workers up to that one.
pub proof fn lemma_pages_leave_no_gap(
    source: Seq<i32>,
    cursor: CursorState,
    worker: int,
    place: int,
)
    requires
        ascending(source),
        cursor.batch_size >= 1,
        0 <= worker,
        page_start(source, cursor, 0) <= place < page_end(source, cursor, worker),
    ensures
        exists|n: int|
            0 <= n <= worker && page_start(source, cursor, n) <= place < #[trigger] page_end(
                source,
                cursor,
                n,
            ),
    decreases worker,
{
    if page_start(source, cursor, worker) <= place {
        assert(page_start(source, cursor, worker) <= place < page_end(source, cursor, worker));
    } else {
        assert(worker > 0);
        lemma_pages_touch(source, cursor, worker - 1);
        lemma_pages_leave_no_gap(source, cursor, worker - 1, place);
    }
}

/// The place behind the last key of the first pages of a wave.
pub open spec fn covered_end(source: Seq<i32>, cursor: CursorState, pages: int) -> int {
    if pages <= 0 {
        page_start(source, cursor, 0)
    } else {
        page_end(source, cursor, pages - 1)
    }
}

/// The watermark after the first pages of a wave is the key before the place
/// that they reach, and the old watermark where they hold no key.
pub proof fn lemma_watermark_is_last_covered_key(
    source: Seq<i32>,
    cursor: CursorState,
    pages: int,
)
    requires
        ascending(source),
        cursor.batch_size >= 1,
        0 <= pages <= cursor.workers,
    ensures
        page_start(source, cursor, 0) <= covered_end(source, cursor, pages) <= source.len(),
        highest_last_key(wave_of(source, cursor).take(pages), cursor.watermark) == if covered_end(
            source,
            cursor,
            pages,
        ) > page_start(source, cursor, 0) {
            source[covered_end(source, cursor, pages) - 1] as int
        } else {
            cursor.watermark
        },
    decreases pages,
{
    let wave = wave_of(source, cursor);
    let first = page_start(source, cursor, 0);
    assert(cursor.window_start(0) == cursor.watermark);
    lemma_keys_after_is_suffix(source, cursor.watermark);
    if pages == 0 {
        assert(wave.take(0).len() == 0);
    } else {
        let worker = pages - 1;
        lemma_watermark_is_last_covered_key(source, cursor, worker);
        lemma_page_is_stretch(source, cursor, worker);
        lemma_page_is_stretch(source, cursor, 0);
        assert(wave.take(pages).drop_last() =~= wave.take(worker));
        assert(wave.take(pages).last() == wave[worker]);
        let page = wave[worker];
        let start = page_start(source, cursor, worker);
        let end = page_end(source, cursor, worker);
        let before = covered_end(source, cursor, worker);
        if worker > 0 {
            lemma_pages_touch(source, cursor, worker - 1);
        }
        assert(before <= end);
        assert(start <= before || worker == 0);
        if page.len() > 0 {
            assert(page.last() == source[end - 1]);
            if before > first {
                if before < end {
                    assert(source[before - 1] < source[end - 1]);
                }
            } else {
                lemma_start_grows(source, cursor, 0, worker);
                assert(source[end - 1] > cursor.watermark);
            }
        }
    }
}

/// A wave loses no key. The pages that an ascending source owes to the
/// workers of a wave hold, between them, exactly the keys behind the old
/// watermark up to the new one: every such key is in some page, and no page
/// holds another key. A wave with a short page leaves no key behind the new
/// watermark; a wave of full pages moves the watermark on. So an export with
/// any number of workers visits the same keys as a sequential one.
pub proof fn lemma_wave_covers_up_to_watermark(source: Seq<i32>, cursor: CursorState)
    requires
        ascending(source),
        cursor.batch_size >= 1,
        cursor.workers >= 1,
    ensures
        ({
            let wave = wave_of(source, cursor);
            let next = cursor.advance(wave);
            let before = keys_after(source, cursor.watermark);
            let after = keys_after(source, next.watermark);
            &&& next.watermark >= cursor.watermark
            &&& forall|key: i32|
                before.contains(key) && key <= next.watermark ==> exists|n: int|
                    0 <= n < wave.len() && (#[trigger] wave[n]).contains(key)
            &&& forall|n: int, i: int|
                0 <= n < wave.len() && 0 <= i < wave[n].len() ==> cursor.watermark < (
                #[trigger] wave[n][i]) <= next.watermark
            &&& forall|n: int, i: int|
                0 <= n < wave.len() && 0 <= i < wave[n].len() ==> source.contains(
                    #[trigger] wave[n][i],
                )
            &&& cursor.finished(wave) ==> after.len() == 0
            &&& !cursor.finished(wave) ==> after.len() < before.len()
            &&& forall|key: i32| after.contains(key) <==> before.contains(key) && key > next.watermark
        }),
{
    let wave = wave_of(source, cursor);
    let next = cursor.advance(wave);
    let workers = cursor.workers;
    let first = page_start(source, cursor, 0);
    let end = covered_end(source, cursor, workers);
    let before = keys_after(source, cursor.watermark);
    let after = keys_after(source, next.watermark);
    assert(cursor.window_start(0) == cursor.watermark);
    assert(wave.take(workers) =~= wave);
    lemma_watermark_is_last_covered_key(source, cursor, workers);
    lemma_keys_after_is_suffix(source, cursor.watermark);
    lemma_keys_after_is_suffix(source, next.watermark);
    if end > first {
        assert forall|i: int| 0 <= i < end implies source[i] <= next.watermark by {
            if i < end - 1 {
                assert(source[i] < source[end - 1]);
            }
        }
        assert forall|i: int| end <= i < source.len() implies source[i] > next.watermark by {
            assert(source[end - 1] < source[i]);
        }
        lemma_count_is_split_point(source, next.watermark, end);
        assert(source[end - 1] > cursor.watermark);
    }
    let reached = count_up_to(source, next.watermark) as int;
    assert(reached == end);
    assert forall|key: i32| before.contains(key) && key <= next.watermark implies exists|n: int|
        0 <= n < wave.len() && (#[trigger] wave[n]).contains(key) by {
        let at = choose|at: int| 0 <= at < before.len() && before[at] == key;
        let place = first + at;
        assert(source[place] == key);
        if place >= end {
            assert(source[place] > next.watermark);
        }
        lemma_pages_leave_no_gap(source, cursor, workers - 1, place);
        let n = choose|n: int|
            0 <= n <= workers - 1 && page_start(source, cursor, n) <= place < #[trigger] page_end(
                source,
                cursor,
                n,
            );
        lemma_page_is_stretch(source, cursor, n);
        assert(wave[n][place - page_start(source, cursor, n)] == key);
    }
    assert forall|n: int, i: int| 0 <= n < wave.len() && 0 <= i < wave[n].len() implies {
        &&& cursor.watermark < (#[trigger] wave[n][i]) <= next.watermark
        &&& source.contains(wave[n][i])
    } by {
        lemma_page_is_stretch(source, cursor, n);
        lemma_end_grows(source, cursor, n, workers - 1);
        lemma_start_grows(source, cursor, 0, n);
        let place = page_start(source, cursor, n) + i;
        assert(wave[n][i] == source[place]);
        assert(first <= place < end);
    }
    if cursor.finished(wave) {
        let n = choose|n: int| 0 <= n < wave.len() && (#[trigger] wave[n]).len() < cursor.batch_size;
        lemma_page_is_stretch(source, cursor, n);
        lemma_end_grows(source, cursor, n, workers - 1);
        assert(page_end(source, cursor, n) == source.len());
    } else {
        lemma_page_is_stretch(source, cursor, 0);
        lemma_end_grows(source, cursor, 0, workers - 1);
        assert(!(wave[0].len() < cursor.batch_size));
    }
    assert forall|key: i32| after.contains(key) <==> before.contains(key) && key
        > next.watermark by {
        if after.contains(key) {
            let at = choose|at: int| 0 <= at < after.len() && after[at] == key;
            assert(source[end + at] == key);
            assert(before[end - first + at] == key);
        }
        if before.contains(key) && key > next.watermark {
            let at = choose|at: int| 0 <= at < before.len() && before[at] == key;
            assert(source[first + at] == key);
            if first + at < end {
                assert(source[first + at] <= next.watermark);
            }
            assert(after[first + at - end] == key);
        }
    }
}

/// The page of a later worker does not end before that of an earlier one.
pub proof fn lemma_end_grows(source: Seq<i32>, cursor: CursorState, earlier: int, later: int)
    requires
        ascending(source),
        cursor.batch_size >= 1,
        0 <= earlier <= later,
    ensures
        page_end(source, cursor, earlier) <= page_end(source, cursor, later),
    decreases later - earlier,
{
    if earlier < later {
        lemma_end_grows(source, cursor, earlier, later - 1);
        lemma_pages_touch(source, cursor, later - 1);
    }
}

/// The page of a later worker does not begin before that of an earlier one.
pub proof fn lemma_start_grows(source: Seq<i32>, cursor: CursorState, earlier: int, later: int)
    requires
        ascending(source),
        cursor.batch_size >= 1,
        0 <= earlier <= later,
    ensures
        page_start(source, cursor, earlier) <= page_start(source, cursor, later),
    decreases later - earlier,
{
    if earlier < later {
        lemma_start_grows(source, cursor, earlier, later - 1);
        lemma_pages_touch(source, cursor, later - 1);
    }
}


/// The waves of an export of an ascending source, in their order: the wave
/// that the source owes to the cursor, and, unless that wave ends the stream,
/// the waves that follow once the cursor has taken it in.
pub open spec fn export_run(source: Seq<i32>, cursor: CursorState) -> Seq<Seq<Seq<i32>>>
    decreases keys_after(source, cursor.watermark).len(),
    when ascending(source) && cursor.batch_size >= 1 && cursor.workers >= 1
{
    let wave = wave_of(source, cursor);
    if cursor.finished(wave) {
        seq![wave]
    } else {
        proof {
            lemma_wave_covers_up_to_watermark(source, cursor);
        }
        seq![wave] + export_run(source, cursor.advance(wave))
    }
}

/// Whether some page of the wave holds the key.
pub open spec fn wave_holds(wave: Seq<Seq<i32>>, key: i32) -> bool {
    exists|n: int| 0 <= n < wave.len() && (#[trigger] wave[n]).contains(key)
}

/// Whether some wave of the run holds the key.
pub open spec fn run_holds(run: Seq<Seq<Seq<i32>>>, key: i32) -> bool {
    exists|w: int| 0 <= w < run.len() && wave_holds(#[trigger] run[w], key)
}

/// An export visits the keys behind the watermark, all of them and no
/// others, whatever the number of its workers. Together with the fact that
/// upserts may come in any order and more than once, this makes the index
/// that a wave of workers leaves the same as the one of a sequential export.
pub proof fn lemma_export_visits_every_key(source: Seq<i32>, cursor: CursorState, key: i32)
    requires
        ascending(source),
        cursor.batch_size >= 1,
        cursor.workers >= 1,
    ensures
        run_holds(export_run(source, cursor), key) <==> keys_after(
            source,
            cursor.watermark,
        ).contains(key),
    decreases keys_after(source, cursor.watermark).len(),
{
    let wave = wave_of(source, cursor);
    let next = cursor.advance(wave);
    let run = export_run(source, cursor);
    let before = keys_after(source, cursor.watermark);
    let after = keys_after(source, next.watermark);
    lemma_wave_covers_up_to_watermark(source, cursor);
    lemma_keys_after_is_suffix(source, cursor.watermark);
    assert(run[0] == wave);
    if wave_holds(wave, key) {
        let n = choose|n: int| 0 <= n < wave.len() && (#[trigger] wave[n]).contains(key);
        let i = choose|i: int| 0 <= i < wave[n].len() && wave[n][i] == key;
        assert(cursor.watermark < wave[n][i] <= next.watermark);
        assert(source.contains(wave[n][i]));
        let at = choose|at: int| 0 <= at < source.len() && source[at] == key;
        assert(at >= count_up_to(source, cursor.watermark));
        assert(before[at - count_up_to(source, cursor.watermark)] == key);
    }
    if before.contains(key) && key <= next.watermark {
        assert(wave_holds(wave, key));
    }
    if cursor.finished(wave) {
        assert(run =~= seq![wave]);
        if run_holds(run, key) {
            let w = choose|w: int| 0 <= w < run.len() && wave_holds(#[trigger] run[w], key);
            assert(run[w] == wave);
        }
        if before.contains(key) {
            if key > next.watermark {
                assert(after.contains(key));
            }
        }
    } else {
        let later = export_run(source, next);
        lemma_export_visits_every_key(source, next, key);
        assert(run =~= seq![wave] + later);
        if run_holds(run, key) {
            let w = choose|w: int| 0 <= w < run.len() && wave_holds(#[trigger] run[w], key);
            if w > 0 {
                assert(run[w] == later[w - 1]);
                assert(run_holds(later, key));
            }
        }
        if before.contains(key) {
            if key > next.watermark {
                assert(after.contains(key));
                let w = choose|w: int| 0 <= w < later.len() && wave_holds(#[trigger] later[w], key);
                assert(run[w + 1] == later[w]);
            }
        }
    }
}

} // verus!
