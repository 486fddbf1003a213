use prism::pipeline::{deployment_action, monitoring_healthy, split_max_rows, split_rows};
use prism::error::InputError;
use prism::float_bits::FloatBits;
use prism::features::{FeatureColumns, FeatureVector};
use prism::ingest::IngestFormat;
use prism::storage::cache_file_name;
use prism::PRISM_PROVENANCE;

fn f(xs: &[f32]) -> Vec<u32> {
    xs.iter().map(|x| x.to_bits()).collect()
}

#[test]
fn provenance_string_is_stable() {
    assert_eq!(PRISM_PROVENANCE.as_str(), "prism");
}

#[test]
fn feature_vector_validates_shape() {
    let ok = FeatureVector::new(f(&[1.0, 2.0]), [1, 2]).unwrap();
    assert_eq!(ok.rows(), 1);
    assert_eq!(ok.cols(), 2);
    assert!(FeatureVector::new(f(&[1.0]), [1, 2]).is_err());
}

#[test]
fn feature_vector_new_multi_row() {
    let fv = FeatureVector::new(f(&[1.0, 2.0, 3.0, 4.0, 5.0, 6.0]), [2, 3]).unwrap();
    assert_eq!(fv.rows(), 2);
    assert_eq!(fv.cols(), 3);
    assert_eq!(fv.data.len(), 6);
}

#[test]
fn feature_vector_new_rejects_mismatched_length() {
    assert!(FeatureVector::new(f(&[1.0, 2.0, 3.0]), [2, 2]).is_err());
    assert!(FeatureVector::new(vec![], [1, 1]).is_err());
    assert!(FeatureVector::new(f(&[1.0]), [0, 1]).is_err());
}

#[test]
fn feature_vector_new_empty() {
    let fv = FeatureVector::new(vec![], [0, 0]).unwrap();
    assert_eq!(fv.rows(), 0);
    assert_eq!(fv.cols(), 0);
    assert!(fv.data.is_empty());
}

#[test]
fn feature_vector_new_zero_cols() {
    let fv = FeatureVector::new(vec![], [5, 0]).unwrap();
    assert_eq!(fv.rows(), 5);
    assert_eq!(fv.cols(), 0);
}

#[test]
fn feature_vector_row_creates_single_row() {
    let fv = FeatureVector::row(f(&[10.0, 20.0, 30.0]));
    assert_eq!(fv.rows(), 1);
    assert_eq!(fv.cols(), 3);
    assert_eq!(fv.data, f(&[10.0, 20.0, 30.0]));
}

#[test]
fn feature_vector_row_empty() {
    let fv = FeatureVector::row(vec![]);
    assert_eq!(fv.rows(), 1);
    assert_eq!(fv.cols(), 0);
    assert!(fv.data.is_empty());
}

#[test]
fn feature_vector_row_single_element() {
    let fv = FeatureVector::row(f(&[42.0]));
    assert_eq!(fv.rows(), 1);
    assert_eq!(fv.cols(), 1);
    assert_eq!(fv.data, f(&[42.0]));
}

#[test]
fn feature_columns_construction() {
    let cols = FeatureColumns { left: "a".to_string(), right: "b".to_string() };
    assert_eq!(cols.left, "a");
    assert_eq!(cols.right, "b");
}

#[test]
fn feature_vector_shape_error_names_length_and_shape() {
    assert_eq!(
        FeatureVector::new(f(&[1.0, 2.0, 3.0]), [2, 2]),
        Err(InputError::ShapeMismatch { len: 3, rows: 2, cols: 2 })
    );
    // the product saturates instead of overflowing
    assert_eq!(
        FeatureVector::new(vec![], [usize::MAX, 2]),
        Err(InputError::ShapeMismatch { len: 0, rows: usize::MAX, cols: 2 })
    );
}

#[test]
fn format_detection() {
    assert_eq!(IngestFormat::from_extension("csv").unwrap(), IngestFormat::Csv);
    assert_eq!(IngestFormat::from_extension("XLSX").unwrap(), IngestFormat::Excel);
    assert_eq!(IngestFormat::from_extension("parquet").unwrap(), IngestFormat::Parquet);
    assert!(IngestFormat::from_extension("txt").is_err());
}

#[test]
fn format_detection_covers_every_extension() {
    assert_eq!(IngestFormat::from_extension("TSV"), Ok(IngestFormat::Tsv));
    assert_eq!(IngestFormat::from_extension("Pq"), Ok(IngestFormat::Parquet));
    assert_eq!(IngestFormat::from_extension("xls"), Ok(IngestFormat::Excel));
    assert_eq!(
        IngestFormat::from_extension("TXT"),
        Err(InputError::UnsupportedFormat { extension: "txt".to_string() })
    );
    assert_eq!(
        IngestFormat::from_extension(""),
        Err(InputError::UnsupportedFormat { extension: String::new() })
    );
}

#[test]
fn cache_file_name_keeps_the_last_segment() {
    assert_eq!(cache_file_name("datasets/2024/train.parquet"), "train.parquet");
    assert_eq!(cache_file_name("plain"), "plain");
    assert_eq!(cache_file_name("a/b/"), "blob");
    assert_eq!(cache_file_name(""), "blob");
    assert_eq!(cache_file_name("x/we:ird<na>me?*.csv"), "we_ird_na_me__.csv");
    assert_eq!(cache_file_name("k/a\"b\\c|d\te\u{7f}"), "a_b_c_d_e_");
}

#[test]
fn temporal_feature_config_defaults() {
    let c = prism::batch::TemporalFeatureConfig::default();
    assert_eq!(c.entity_column, "user_id");
    assert_eq!(c.timestamp_column, "timestamp");
    assert_eq!(c.type_column, "event_type");
    assert_eq!(c.category_column, "repo_id");
    assert_eq!(c.burst_threshold_seconds, 60);
}

#[test]
fn excel_headers_name_empty_cells_by_position() {
    let cells = vec!["a".to_string(), String::new(), "b".to_string(), String::new()];
    assert_eq!(prism::ingest::header_names(&cells), vec!["a", "column_1", "b", "column_3"]);
}

#[test]
fn sheet_size_and_columns() {
    assert!(prism::ingest::sheet_has_data(2, 1));
    assert!(!prism::ingest::sheet_has_data(1, 3));
    assert!(!prism::ingest::sheet_has_data(5, 0));
    let row = |cells: &[&str]| cells.iter().map(|c| c.to_string()).collect::<Vec<String>>();
    let rows = vec![row(&["a", "b"]), row(&["1", "2", "x"]), row(&["3"]), row(&["5", "6"])];
    let columns = prism::ingest::sheet_columns(&rows, 2);
    assert_eq!(columns, vec![row(&["1", "3", "5"]), row(&["2", "6"])]);
    assert!(prism::ingest::sheet_columns(&vec![], 2).iter().all(|c| c.is_empty()));
}

#[test]
fn dataset_split_rows() {
    assert_eq!(split_max_rows(9, 100), Err(InputError::DatasetTooSmall));
    assert_eq!(split_max_rows(50, 100), Ok(50));
    assert_eq!(split_max_rows(50, 20), Ok(20));
    assert_eq!(split_max_rows(50, 3), Ok(10));
    assert_eq!(split_rows(100, 80, 15), (80, 15, 5));
    assert_eq!(split_rows(10, 8, 2), (8, 1, 1));
    assert_eq!(split_rows(10, 9, 1), (8, 1, 1));
    assert_eq!(split_rows(10, 1, 1), (1, 1, 8));
    assert_eq!(split_rows(10, 12, 0), (11, 0, 1));
}

#[test]
fn monitoring_and_deployment_thresholds() {
    let b = |x: f64| FloatBits::from_bits(x.to_bits());
    assert!(monitoring_healthy(b(0.75)));
    assert!(monitoring_healthy(b(0.9)));
    assert!(!monitoring_healthy(b(0.7499)));
    assert!(!monitoring_healthy(b(f64::NAN)));
    assert!(deployment_action(b(0.8), b(0.8)));
    assert!(!deployment_action(b(0.79), b(0.8)));
    assert!(!deployment_action(b(f64::NAN), b(0.8)));
}
