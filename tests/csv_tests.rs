use corr_frame::{is_float_text, parse_csv, CsvError, DataFrame, NumberError};

fn to_numbers(df: DataFrame<String>) -> DataFrame<f64> {
    df.map_cells(|s: &String| s.parse::<f64>().unwrap())
}

fn accepts(s: &str) -> bool {
    let cs: Vec<char> = s.chars().collect();
    is_float_text(&cs)
}

#[test]
fn test_parse_csv() {
    let input = "age,weight\n25,60.5\n30,75.2\n";
    let expected = DataFrame::new(
        vec!["age".to_string(), "weight".to_string()],
        vec![vec![25.0, 60.5], vec![30.0, 75.2]],
    )
    .unwrap();
    assert_eq!(parse_csv(input).map(to_numbers), Ok(expected));
}

#[test]
fn test_parse_csv_empty_input() {
    let input = "";
    assert_eq!(
        parse_csv(input).map_err(|e| e.message()).map(to_numbers),
        Err("CSV input has no columns".to_string())
    );
}

#[test]
fn test_parse_csv_empty_line() {
    let input = "age,weight\n25,60.5\n1\n30,75.2\n";
    assert_eq!(
        parse_csv(input).map_err(|e| e.message()).map(to_numbers),
        Err("Mismatch in column count at line 3".to_string())
    );
}

#[test]
fn test_parse_csv_invalid_input() {
    let input = "age,weight\n25,60.5\nthirty,75.2\n";
    assert_eq!(
        parse_csv(input).map_err(|e| e.message()).map(to_numbers),
        Err("Invalid float literal at line 3, column 1: invalid float literal".to_string())
    );
}

#[test]
fn parse_keeps_cell_texts() {
    let df = parse_csv("age,weight\n25,60.5\n30,75.2\n").unwrap();
    assert_eq!(df.get_title(0), "age");
    assert_eq!(df.get_title(1), "weight");
    assert_eq!(df.get_row(0), &vec!["25".to_string(), "60.5".to_string()]);
    assert_eq!(df.get_row(1), &vec!["30".to_string(), "75.2".to_string()]);
}

#[test]
fn empty_input_has_no_columns() {
    assert_eq!(parse_csv("").unwrap_err(), CsvError::NoColumns);
}

#[test]
fn single_newline_is_header_of_one_empty_name() {
    let df = parse_csv("\n").unwrap();
    assert_eq!(df.get_num_columns(), 1);
    assert_eq!(df.get_title(0), "");
    assert_eq!(df.num_rows(), 0);
}

#[test]
fn width_mismatch_names_its_line() {
    assert_eq!(
        parse_csv("a,b\n1,2\n3\nx,y,z\n").unwrap_err(),
        CsvError::RowWidthMismatch(3)
    );
    assert_eq!(
        parse_csv("a,b\n1,2,3\n").unwrap_err(),
        CsvError::RowWidthMismatch(2)
    );
}

#[test]
fn invalid_number_names_line_and_column() {
    assert_eq!(
        parse_csv("age,weight\n25,60.5\nthirty,75.2\n").unwrap_err(),
        CsvError::InvalidNumber(3, 1, NumberError::Invalid)
    );
    assert_eq!(
        parse_csv("a,b,c\n1,2,3\n4,5,x,7\n").unwrap_err(),
        CsvError::InvalidNumber(3, 3, NumberError::Invalid)
    );
}

#[test]
fn blank_data_line_is_an_empty_number() {
    let e = parse_csv("a\n1\n\n2\n").unwrap_err();
    assert_eq!(e, CsvError::InvalidNumber(3, 1, NumberError::Empty));
    assert_eq!(
        e.message(),
        "Invalid float literal at line 3, column 1: cannot parse float from empty string"
    );
}

#[test]
fn first_failure_wins() {
    assert_eq!(
        parse_csv("a,b\n1\nq,r\n").unwrap_err(),
        CsvError::RowWidthMismatch(2)
    );
    assert_eq!(
        parse_csv("a,b\nq\n1\n").unwrap_err(),
        CsvError::InvalidNumber(2, 1, NumberError::Invalid)
    );
}

#[test]
fn fields_are_trimmed_but_names_are_not() {
    let df = parse_csv(" a , b\r\n 1 ,\t2.5 \r\n").unwrap();
    assert_eq!(df.get_title(0), " a ");
    assert_eq!(df.get_title(1), " b");
    assert_eq!(df.get_row(0), &vec!["1".to_string(), "2.5".to_string()]);
}

#[test]
fn many_lines_number_past_nine() {
    let mut input = String::from("v\n");
    for k in 0..10 {
        input.push_str(&format!("{}\n", k));
    }
    input.push_str("oops\n");
    let e = parse_csv(&input).unwrap_err();
    assert_eq!(e, CsvError::InvalidNumber(12, 1, NumberError::Invalid));
    assert_eq!(
        e.message(),
        "Invalid float literal at line 12, column 1: invalid float literal"
    );
}

#[test]
fn no_columns_message() {
    assert_eq!(CsvError::NoColumns.message(), "CSV input has no columns");
    assert_eq!(
        CsvError::RowWidthMismatch(105).message(),
        "Mismatch in column count at line 105"
    );
}

#[test]
fn float_texts_follow_the_std_grammar() {
    for s in [
        "0", "25", "60.5", "-1", "+1", "1.", ".5", "1e5", "1E-5", "2.5e+10", "inf", "-INF",
        "Infinity", "NaN", "nan", "+infinity",
    ] {
        assert!(accepts(s), "{}", s);
        assert!(s.parse::<f64>().is_ok(), "{}", s);
    }
    for s in ["", ".", "e5", "1e", "+-1", "thirty", "1,5", " 1", "1 ", "0x10", "infin", "1e+"] {
        assert!(!accepts(s), "{}", s);
        assert!(s.parse::<f64>().is_err(), "{}", s);
    }
}

#[test]
fn number_error_messages() {
    assert_eq!(NumberError::Empty.message(), "".parse::<f64>().unwrap_err().to_string());
    assert_eq!(NumberError::Invalid.message(), "x".parse::<f64>().unwrap_err().to_string());
}
