use quar_engine::qr_target::finder::{column_runs, row_windows};

const L: u8 = 200;
const D: u8 = 0;

fn runs(spec: &[(u8, usize)]) -> Vec<u8> {
    let mut v = Vec::new();
    for &(p, n) in spec {
        v.extend(std::iter::repeat(p).take(n));
    }
    v
}

#[test]
fn row_scan_reports_the_finder_window() {
    // dark 2, light 2, dark 6, light 2, dark 2, light 4
    let row = runs(&[(D, 2), (L, 2), (D, 6), (L, 2), (D, 2), (L, 4)]);
    assert_eq!(row_windows(&row, 18, 0, 128), vec![(14, [2, 2, 6, 2, 2])]);
}

#[test]
fn row_scan_checks_every_other_run_end() {
    // starting light, the windows are the runs 0-4 and 2-6 ...
    let row = runs(&[(L, 3), (D, 2), (L, 2), (D, 6), (L, 2), (D, 2), (L, 3)]);
    assert_eq!(row_windows(&row, 20, 0, 128), vec![(15, [3, 2, 2, 6, 2])]);
    // ... and the second is checked once its last run closes
    let row = runs(&[(L, 3), (D, 2), (L, 2), (D, 6), (L, 2), (D, 2), (L, 3), (D, 1)]);
    assert_eq!(row_windows(&row, 21, 0, 128), vec![(15, [3, 2, 2, 6, 2]), (20, [2, 6, 2, 2, 3])]);
}

#[test]
fn row_scan_uses_the_requested_row() {
    let mut img = vec![L; 18];
    img.extend(runs(&[(D, 2), (L, 2), (D, 6), (L, 2), (D, 2), (L, 4)]));
    assert_eq!(row_windows(&img, 18, 0, 128), vec![]);
    assert_eq!(row_windows(&img, 18, 1, 128), vec![(14, [2, 2, 6, 2, 2])]);
    assert_eq!(row_windows(&img, 0, 1, 128), vec![]);
}

#[test]
fn column_scan_counts_the_first_runs() {
    // a one pixel wide image: the column is the sequence itself
    let col = runs(&[(D, 2), (L, 2), (D, 6), (L, 2), (D, 2), (L, 4)]);
    // the fifth counter takes the pixels after the fourth color change,
    // except the one pixel where the color changes again
    assert_eq!(column_runs(&col, 1, 0, 0, 18, 128), Some([2, 2, 6, 2, 5]));
    // a shorter span changes color only three times
    assert_eq!(column_runs(&col, 1, 0, 0, 12, 128), None);
    // outside the image, or an empty span
    assert_eq!(column_runs(&col, 1, 1, 0, 18, 128), None);
    assert_eq!(column_runs(&col, 1, 0, 5, 5, 128), None);
}

#[test]
fn column_scan_steps_by_the_width() {
    // two columns: column 1 carries the pattern, column 0 is all light
    let col = runs(&[(D, 1), (L, 1), (D, 3), (L, 1), (D, 1)]);
    let mut img = Vec::new();
    for &p in &col {
        img.push(L);
        img.push(p);
    }
    assert_eq!(column_runs(&img, 2, 1, 0, 7, 128), Some([1, 1, 3, 1, 1]));
    assert_eq!(column_runs(&img, 2, 0, 0, 7, 128), None);
}
