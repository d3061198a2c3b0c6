use klgp::dataset::params::NSAMP_TOT;
use klgp::dataset::{label_from_text, DataLabelCV, DataY, DataYFull, KDataSet, SampleY};
use klgp::evosys::helpers::{from_string_vec, parse_usize};

fn numbered() -> KDataSet<usize> {
    let mut d = KDataSet::new_blank(0usize);
    for i in 0..NSAMP_TOT {
        d.x[i] = i;
        d.y[i] = i % 3 == 0;
    }
    d.tr_end = 100;
    d.cv_end = 140;
    d
}

#[test]
fn blank_data_set() {
    let d = KDataSet::new_blank(7u8);
    assert!(d.x.iter().all(|v| *v == 7));
    assert!(d.y.iter().all(|v| !v));
    assert!(d.is_empty());
    assert_eq!(d.len(), NSAMP_TOT);
    assert!(!numbered().is_empty());
}

#[test]
fn copy_row_copies_features_and_label() {
    let src = numbered();
    let mut d = KDataSet::new_blank(0usize);
    d.copy_row(&src, 5, 3);
    assert_eq!(d.x[5], 3);
    assert!(d.y[5]);
    assert_eq!(d.x[3], 0);
}

#[test]
fn shifting_moves_rows_round() {
    let mut d = numbered();
    d.shift_by(7);
    assert_eq!(d.x[7], 0);
    assert_eq!(d.x[0], NSAMP_TOT - 7);
    assert_eq!(d.y[7], true);
    assert_eq!((d.tr_end, d.cv_end), (100, 140));
    d.shift_by(NSAMP_TOT - 7);
    assert_eq!(d.x, numbered().x);
    let mut a = numbered();
    a.shift_by(10);
    a.shift_by(25);
    let mut b = numbered();
    b.shift_by(35);
    assert_eq!(a.x, b.x);
    assert_eq!(a.y, b.y);
    let mut c = numbered();
    c.shift_by(NSAMP_TOT);
    assert_eq!(c.x, numbered().x);
}

#[test]
fn shuffling_permutes_rows() {
    let mut d = numbered();
    d.shuffle();
    let mut seen = vec![false; NSAMP_TOT];
    for k in 0..NSAMP_TOT {
        let to = d.inds[k];
        assert!(!seen[to]);
        seen[to] = true;
        assert_eq!(d.x[to], k);
        assert_eq!(d.y[to], k % 3 == 0);
    }
    assert!((0..NSAMP_TOT).any(|k| d.inds[k] != k));
    let mut rows = d.x.to_vec();
    rows.sort();
    assert_eq!(rows, numbered().x.to_vec());
    assert_eq!(d.y.iter().filter(|b| **b).count(), numbered().y.iter().filter(|b| **b).count());
    assert_eq!((d.tr_end, d.cv_end), (100, 140));
}

#[test]
fn labels_of_samples() {
    let mut s = SampleY::new_blank();
    assert!(!s.label && s.id == 0 && s.gid == 0);
    s.update(true, 4, 9);
    assert!(s.label && s.id == 4 && s.gid == 9);
    let full = DataYFull { records: [s; NSAMP_TOT] };
    assert_eq!(full.show_labels().len(), NSAMP_TOT);
    let cv = DataLabelCV { records: [SampleY::new_blank(); 40] };
    assert!(cv.show_labels().iter().all(|l| !l.label));
}

#[test]
fn settings_read_as_numbers() {
    let sv = vec![String::from("1"), String::from("+2"), String::from("30"), String::from("0")];
    assert_eq!(from_string_vec(&sv), vec![1, 2, 30, 0]);
    assert_eq!(from_string_vec(&vec![]), Vec::<usize>::new());
}

#[test]
fn labels_read_from_text() {
    assert_eq!(label_from_text("0"), Some(false));
    assert_eq!(label_from_text("1"), Some(true));
    assert_eq!(label_from_text("2"), None);
    assert_eq!(label_from_text("10"), None);
    assert_eq!(label_from_text(""), None);
}

#[test]
fn records_fill_the_first_rows() {
    let xs = vec![7usize, 8, 9];
    let ys = vec![true, false, true];
    let d = KDataSet::from_records(0usize, &xs, &ys, 2, 1);
    assert_eq!(&d.x[..3], &[7, 8, 9]);
    assert_eq!(&d.y[..3], &[true, false, true]);
    assert!(d.x[3..].iter().all(|x| *x == 0));
    assert!(d.y[3..].iter().all(|y| !*y));
    assert!(d.inds.iter().all(|i| *i == 0));
    assert_eq!((d.tr_end, d.cv_end), (2, 3));
    let none = KDataSet::from_records(5usize, &vec![], &vec![], 0, 0);
    assert!(none.is_empty());
    assert!(none.x.iter().all(|x| *x == 5));
    let full: Vec<usize> = (0..NSAMP_TOT).collect();
    let d = KDataSet::from_records(0usize, &full, &vec![true; NSAMP_TOT], 100, 40);
    assert_eq!(d.x[NSAMP_TOT - 1], NSAMP_TOT - 1);
    assert_eq!((d.tr_end, d.cv_end), (100, 140));
}

#[test]
fn decimal_text_reads_as_usize() {
    assert_eq!(parse_usize("0"), Some(0));
    assert_eq!(parse_usize("42"), Some(42));
    assert_eq!(parse_usize("+17"), Some(17));
    assert_eq!(parse_usize("007"), Some(7));
    assert_eq!(parse_usize(""), None);
    assert_eq!(parse_usize("+"), None);
    assert_eq!(parse_usize("-1"), None);
    assert_eq!(parse_usize("1a"), None);
    assert_eq!(parse_usize(" 1"), None);
    assert_eq!(parse_usize("++1"), None);
    let max = usize::MAX.to_string();
    assert_eq!(parse_usize(&max), Some(usize::MAX));
    let over = format!("{}0", usize::MAX);
    assert_eq!(parse_usize(&over), None);
    for t in ["", "+", "-3", "12", "+0", "99x", "184467440737095516160"] {
        assert_eq!(parse_usize(t), t.parse::<usize>().ok());
    }
}
