use corr_frame::{dataframe_to_html_table, matrix_coefficient, DataFrame};

fn names(v: &[&str]) -> Vec<String> {
    v.iter().map(|s| s.to_string()).collect()
}

fn pearson(x: &Vec<f64>, y: &Vec<f64>) -> f64 {
    let n = x.len() as f64;
    let sx: f64 = x.iter().sum();
    let sy: f64 = y.iter().sum();
    let sxx: f64 = x.iter().map(|a| a * a).sum();
    let syy: f64 = y.iter().map(|a| a * a).sum();
    let sxy: f64 = x.iter().zip(y).map(|(a, b)| a * b).sum();
    let den = (n * sxx - sx * sx).sqrt() * (n * syy - sy * sy).sqrt();
    if den == 0.0 {
        0.0
    } else {
        (n * sxy - sx * sy) / den
    }
}

fn sample() -> DataFrame<f64> {
    DataFrame::new(
        names(&["A", "B", "C"]),
        vec![
            vec![1.0, 2.0, 3.0],
            vec![4.0, 5.0, 6.0],
            vec![7.0, 8.0, 9.0],
            vec![7.0, 8.0, 9.0],
        ],
    )
    .unwrap()
}

#[test]
fn test_dataframe_num_cols() {
    let df = sample();
    assert_eq!(df.get_num_columns(), 3);
}

#[test]
fn test_get_col() {
    let df = sample();
    assert_eq!(df.get_column(0), Some(vec![1.0, 4.0, 7.0, 7.0]));
    assert_eq!(df.get_column(2), Some(vec![3.0, 6.0, 9.0, 9.0]));
}

#[test]
fn test_dataframe_to_html_table() {
    let df = DataFrame::new(
        names(&["A", "B", "C"]),
        vec![vec![1.0, 2.0, 3.0], vec![4.0, 5.0, 6.0], vec![7.0, 8.0, 9.0]],
    )
    .unwrap();
    let text = df.map_cells(|v: &f64| v.to_string());
    let expected_html = "<table><thead><tr><th>A</th><th>B</th><th>C</th></tr></thead><tbody><tr><td>1</td><td>2</td><td>3</td></tr><tr><td>4</td><td>5</td><td>6</td></tr><tr><td>7</td><td>8</td><td>9</td></tr></tbody></table>".to_string();
    assert_eq!(dataframe_to_html_table(&text), expected_html);
}

#[test]
fn test_matrix_coefficient() {
    let df = DataFrame::new(
        names(&["A", "B", "C"]),
        vec![
            vec![1.0, 0.0, 1.0],
            vec![4.0, 0.0, 4.0],
            vec![7.0, 0.0, 7.0],
            vec![7.0, 0.0, 7.0],
        ],
    )
    .unwrap();
    let result = matrix_coefficient(&df, pearson);
    assert_eq!(result.len(), 2);
    assert_eq!(result[0][0], 0.0);
    assert_eq!(result[0][1], 1.0);
    assert_eq!(result[1][0], 0.0);
}

#[test]
fn new_refuses_ragged_rows() {
    let df: Option<DataFrame<f64>> =
        DataFrame::new(names(&["A", "B"]), vec![vec![1.0, 2.0], vec![3.0]]);
    assert!(df.is_none());
}

#[test]
fn title_and_rows() {
    let df = sample();
    assert_eq!(df.get_title(1), "B");
    assert_eq!(df.num_rows(), 4);
    assert_eq!(df.get_row(1), &vec![4.0, 5.0, 6.0]);
}

#[test]
fn num_columns_without_rows_is_header_width() {
    let df: DataFrame<f64> = DataFrame::new(names(&["A", "B"]), vec![]).unwrap();
    assert_eq!(df.get_num_columns(), 2);
    assert_eq!(df.get_column(1), Some(vec![]));
}

#[test]
fn matrix_shape_is_triangular() {
    let df = DataFrame::new(
        names(&["A", "B", "C", "D"]),
        vec![vec![1.0, 2.0, 3.0, 4.0], vec![2.0, 1.0, 5.0, 3.0]],
    )
    .unwrap();
    let result = matrix_coefficient(&df, |a: &Vec<f64>, b: &Vec<f64>| a[0] * 10.0 + b[0]);
    assert_eq!(result.len(), 3);
    assert_eq!(result[0], vec![12.0, 13.0, 14.0]);
    assert_eq!(result[1], vec![23.0, 24.0]);
    assert_eq!(result[2], vec![34.0]);
}

#[test]
fn matrix_of_one_or_no_column_is_empty() {
    let one = DataFrame::new(names(&["A"]), vec![vec![1.0], vec![2.0]]).unwrap();
    assert!(matrix_coefficient(&one, pearson).is_empty());
    let none: DataFrame<f64> = DataFrame::new(vec![], vec![]).unwrap();
    assert!(matrix_coefficient(&none, pearson).is_empty());
}

#[test]
fn matrix_pearson_of_column_with_itself_is_one() {
    let df = DataFrame::new(
        names(&["x", "y"]),
        vec![vec![1.0, 1.0], vec![2.0, 2.0], vec![4.0, 4.0]],
    )
    .unwrap();
    let result = matrix_coefficient(&df, pearson);
    assert!((result[0][0] - 1.0).abs() < 1e-12);
}

#[test]
fn map_cells_keeps_titles_and_places() {
    let df = sample();
    let doubled = df.map_cells(|v: &f64| v * 2.0);
    assert_eq!(doubled.get_title(0), "A");
    assert_eq!(doubled.get_column(1), Some(vec![4.0, 10.0, 16.0, 16.0]));
}

#[test]
fn html_of_table_without_rows() {
    let df: DataFrame<String> = DataFrame::new(names(&["a"]), vec![]).unwrap();
    assert_eq!(
        dataframe_to_html_table(&df),
        "<table><thead><tr><th>a</th></tr></thead><tbody></tbody></table>"
    );
}
