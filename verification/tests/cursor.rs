use index_sync::cursor::{page_after, ExportCursor, FetchWindow};

fn run_sequential(source: &Vec<i32>, watermark: u32, batch_size: u32) -> (Vec<Vec<i32>>, u32) {
    let mut cursor = ExportCursor::new(watermark, batch_size, 1).unwrap();
    let mut pages = Vec::new();
    loop {
        let windows = cursor.windows();
        assert_eq!(windows.len(), 1);
        let page = page_after(source, windows[0].after, windows[0].limit);
        pages.push(page.clone());
        let finished = cursor.advance(&vec![page]).expect("a source that keeps its word");
        if finished {
            return (pages, cursor.watermark());
        }
        assert!(pages.len() <= source.len() + 1);
    }
}

#[test]
fn concrete_scenario_five_keys_batches_of_two() {
    let (pages, watermark) = run_sequential(&vec![1, 2, 3, 4, 5], 0, 2);
    assert_eq!(pages, vec![vec![1, 2], vec![3, 4], vec![5]]);
    assert_eq!(watermark, 5);
}

#[test]
fn exact_multiple_needs_one_empty_terminator() {
    let (pages, watermark) = run_sequential(&vec![1, 2, 3, 4], 0, 2);
    assert_eq!(pages, vec![vec![1, 2], vec![3, 4], vec![]]);
    assert_eq!(watermark, 4);
}

#[test]
fn pagination_visits_every_key_once_for_many_sizes() {
    for size in 0..=12usize {
        let source: Vec<i32> = (0..size as i32).map(|k| 3 + 2 * k).collect();
        for batch_size in 1..=5u32 {
            let (pages, watermark) = run_sequential(&source, 0, batch_size);
            let b = batch_size as usize;
            assert_eq!(pages.len(), size / b + 1);
            assert_eq!(pages.last().unwrap().len(), size % b);
            for page in &pages[..pages.len() - 1] {
                assert_eq!(page.len(), b);
            }
            let visited: Vec<i32> = pages.concat();
            assert_eq!(visited, source);
            assert_eq!(watermark as i32, source.last().copied().unwrap_or(0));
        }
    }
}

#[test]
fn empty_source_ends_with_the_first_fetch() {
    let (pages, watermark) = run_sequential(&Vec::new(), 17, 3);
    assert_eq!(pages, vec![Vec::<i32>::new()]);
    assert_eq!(watermark, 17);
}

#[test]
fn export_resumes_behind_the_watermark() {
    let (pages, watermark) = run_sequential(&vec![1, 2, 3, 4, 5, 8, 13], 3, 3);
    assert_eq!(pages, vec![vec![4, 5, 8], vec![13]]);
    assert_eq!(watermark, 13);
}

#[test]
fn no_cursor_for_empty_batches_or_no_workers() {
    assert!(ExportCursor::new(0, 0, 1).is_none());
    assert!(ExportCursor::new(0, 10, 0).is_none());
    assert!(ExportCursor::new(0, 0, 0).is_none());
    let cursor = ExportCursor::new(5, 100, 3).unwrap();
    assert_eq!(cursor.watermark(), 5);
    assert_eq!(cursor.batch_size(), 100);
    assert_eq!(cursor.workers(), 3);
}

#[test]
fn windows_lie_one_batch_apart() {
    let cursor = ExportCursor::new(40, 100, 3).unwrap();
    assert_eq!(
        cursor.windows(),
        vec![
            FetchWindow { after: 40, limit: 100 },
            FetchWindow { after: 140, limit: 100 },
            FetchWindow { after: 240, limit: 100 },
        ]
    );
    let far = ExportCursor::new(u32::MAX, u32::MAX, 2).unwrap();
    assert_eq!(far.windows()[1].after, u32::MAX as u64 * 2);
}

#[test]
fn from_start_keeps_batch_size_and_workers() {
    let cursor = ExportCursor::new(40, 100, 3).unwrap().from_start();
    assert_eq!(cursor.watermark(), 0);
    assert_eq!(cursor.batch_size(), 100);
    assert_eq!(cursor.workers(), 3);
}

#[test]
fn page_after_takes_the_first_keys_behind_the_bound() {
    let source = vec![1, 2, 3, 5, 8];
    assert_eq!(page_after(&source, 0, 2), vec![1, 2]);
    assert_eq!(page_after(&source, 2, 2), vec![3, 5]);
    assert_eq!(page_after(&source, 2, 10), vec![3, 5, 8]);
    assert_eq!(page_after(&source, 8, 10), Vec::<i32>::new());
    assert_eq!(page_after(&source, 0, 0), Vec::<i32>::new());
    assert_eq!(page_after(&source, u64::MAX, 3), Vec::<i32>::new());
    assert_eq!(page_after(&vec![-5, -1, 4], 0, 3), vec![4]);
}

#[test]
fn unacceptable_pages_leave_the_cursor_alone() {
    let mut cursor = ExportCursor::new(10, 2, 1).unwrap();
    assert!(!cursor.accepts(&vec![vec![11, 12, 13]]));
    assert!(!cursor.accepts(&vec![vec![12, 11]]));
    assert!(!cursor.accepts(&vec![vec![11, 11]]));
    assert!(!cursor.accepts(&vec![vec![10, 11]]));
    assert!(!cursor.accepts(&vec![vec![-1]]));
    assert!(!cursor.accepts(&vec![]));
    assert!(!cursor.accepts(&vec![vec![11], vec![12]]));
    assert!(cursor.accepts(&vec![vec![11, 12]]));
    assert!(cursor.accepts(&vec![vec![]]));
    assert_eq!(cursor.advance(&vec![vec![12, 11]]), None);
    assert_eq!(cursor.advance(&vec![vec![10]]), None);
    assert_eq!(cursor.watermark(), 10);
    assert_eq!(cursor.advance(&vec![vec![11, 14]]), Some(false));
    assert_eq!(cursor.watermark(), 14);
    assert_eq!(cursor.advance(&vec![vec![15]]), Some(true));
    assert_eq!(cursor.watermark(), 15);
    assert_eq!(cursor.advance(&vec![vec![]]), Some(true));
    assert_eq!(cursor.watermark(), 15);
}

#[test]
fn wave_of_workers_moves_to_the_greatest_last_key() {
    let source: Vec<i32> = (1..=20).collect();
    let mut cursor = ExportCursor::new(0, 3, 3).unwrap();
    let pages: Vec<Vec<i32>> = cursor
        .windows()
        .iter()
        .map(|w| page_after(&source, w.after, w.limit))
        .collect();
    assert_eq!(pages, vec![vec![1, 2, 3], vec![4, 5, 6], vec![7, 8, 9]]);
    assert_eq!(cursor.advance(&pages), Some(false));
    assert_eq!(cursor.watermark(), 9);
}

#[test]
fn wave_ends_when_its_smallest_page_is_short() {
    let source: Vec<i32> = (1..=7).collect();
    let mut cursor = ExportCursor::new(0, 3, 3).unwrap();
    let pages: Vec<Vec<i32>> = cursor
        .windows()
        .iter()
        .map(|w| page_after(&source, w.after, w.limit))
        .collect();
    assert_eq!(pages, vec![vec![1, 2, 3], vec![4, 5, 6], vec![7]]);
    assert_eq!(cursor.advance(&pages), Some(true));
    assert_eq!(cursor.watermark(), 7);
}

#[test]
fn wave_with_empty_pages_keeps_the_greatest_key_seen() {
    let mut cursor = ExportCursor::new(0, 3, 3).unwrap();
    assert_eq!(cursor.advance(&vec![vec![1, 2], vec![], vec![]]), Some(true));
    assert_eq!(cursor.watermark(), 2);
    let mut idle = ExportCursor::new(50, 3, 2).unwrap();
    assert_eq!(idle.advance(&vec![vec![], vec![]]), Some(true));
    assert_eq!(idle.watermark(), 50);
}

#[test]
fn workers_over_sparse_keys_cover_every_key() {
    let source = vec![2, 50, 51, 52, 100, 101, 200, 300, 301, 302, 303];
    let mut cursor = ExportCursor::new(0, 2, 3).unwrap();
    let mut seen = std::collections::BTreeSet::new();
    let mut waves = 0;
    loop {
        let pages: Vec<Vec<i32>> = cursor
            .windows()
            .iter()
            .map(|w| page_after(&source, w.after, w.limit))
            .collect();
        for page in &pages {
            seen.extend(page.iter().copied());
        }
        waves += 1;
        if cursor.advance(&pages).unwrap() {
            break;
        }
        assert!(waves < 20);
    }
    assert_eq!(seen.into_iter().collect::<Vec<i32>>(), source);
    assert_eq!(cursor.watermark(), 303);
}
