use ncdprime::compressors::Gzip;
use ncdprime::inputs::{
    classify_set_spec, list_file_paths, literal_input_set, rows_cols, InputItem, InputSet, SetSpec,
};
use ncdprime::matrix::{ncd_matrix, ncd_matrix_with_progress, NcdMatrixProgress, ProgressSink};
use ncdprime::NcdOptions;

#[derive(Default)]
struct RecordingSink {
    events: Vec<NcdMatrixProgress>,
}

impl ProgressSink for RecordingSink {
    fn on_cell(&mut self, progress: NcdMatrixProgress) {
        self.events.push(progress);
    }
}

#[test]
fn progress_fires_once_per_cell_in_row_major_order() {
    let c = Gzip::new(6);
    let a = vec![b"aaaa".to_vec(), b"bbbbbb".to_vec(), b"cc".to_vec()];
    let b = vec![b"ddd".to_vec(), b"eeeee".to_vec()];

    let mut sink = RecordingSink::default();
    let m = ncd_matrix_with_progress(&c, &a, &b, NcdOptions::default(), &mut sink).unwrap();

    assert_eq!(sink.events.len(), 6);
    for (k, ev) in sink.events.iter().enumerate() {
        assert_eq!(ev.done, k + 1);
        assert_eq!(ev.total, 6);
        // row-major: cell k is (k / 2, k % 2)
        let expected_bytes = (a[k / 2].len() + b[k % 2].len()) as u64;
        assert_eq!(ev.input_bytes, expected_bytes);
    }

    // The matrix itself matches the plain engine.
    let plain = ncd_matrix(&c, &a, &b, NcdOptions::default()).unwrap();
    assert_eq!(m, plain);
}

#[test]
fn empty_sets_produce_no_cells_and_no_events() {
    let c = Gzip::new(6);
    let a: Vec<Vec<u8>> = vec![];
    let b = vec![b"x".to_vec()];
    let mut sink = RecordingSink::default();
    let m = ncd_matrix_with_progress(&c, &a, &b, NcdOptions::default(), &mut sink).unwrap();
    assert!(m.is_empty());
    assert!(sink.events.is_empty());

    let m2 = ncd_matrix(&c, &b, &a, NcdOptions::default()).unwrap();
    assert_eq!(m2.len(), 1);
    assert!(m2[0].is_empty());
}

#[test]
fn set_argument_classification() {
    assert!(matches!(
        classify_set_spec("anything", true, true, true),
        SetSpec::List { .. }
    ));
    assert!(matches!(
        classify_set_spec("d", false, true, false),
        SetSpec::Dir { .. }
    ));
    assert!(matches!(
        classify_set_spec("f", false, false, true),
        SetSpec::File { .. }
    ));
    match classify_set_spec("hello", false, false, false) {
        SetSpec::Literal { text, label } => {
            assert_eq!(text, "hello");
            assert!(label.is_none());
        },
        _ => panic!("expected a literal"),
    }
}

#[test]
fn list_file_lines_are_trimmed_and_comments_skipped() {
    let raw = "  a.txt  \n\n# a comment\nb.bin\r\n   # indented comment\n c\n";
    let paths = list_file_paths(raw);
    assert_eq!(
        paths,
        vec!["a.txt".to_string(), "b.bin".to_string(), "c".to_string()]
    );
    assert!(list_file_paths("").is_empty());
    assert!(list_file_paths("# only\n   \n\t\n").is_empty());
}

#[test]
fn literal_arguments_become_one_labeled_buffer() {
    let set = literal_input_set("hello bytes", None);
    assert_eq!(set.name, "literal");
    assert_eq!(set.items.len(), 1);
    assert_eq!(set.items[0].label, "literal");
    assert_eq!(set.items[0].bytes, b"hello bytes".to_vec());

    let named = literal_input_set("x", Some("tag".to_string()));
    assert_eq!(named.name, "tag");
    assert_eq!(named.items[0].label, "tag");
}

#[test]
fn row_and_column_labels_follow_the_items() {
    let a = InputSet {
        name: "a".to_string(),
        items: vec![
            InputItem { label: "one".to_string(), bytes: b"1".to_vec() },
            InputItem { label: "two".to_string(), bytes: b"2".to_vec() },
        ],
    };
    let b = InputSet {
        name: "b".to_string(),
        items: vec![InputItem { label: "three".to_string(), bytes: b"3".to_vec() }],
    };
    let (rows, cols) = rows_cols(&a, &b);
    assert_eq!(rows, vec!["one".to_string(), "two".to_string()]);
    assert_eq!(cols, vec!["three".to_string()]);
}
