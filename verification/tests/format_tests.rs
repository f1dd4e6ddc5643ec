use dnstest::OutputFormat;

#[test]
fn test_output_format_parse() {
    assert_eq!("table".parse::<OutputFormat>(), Ok(OutputFormat::Table));
    assert_eq!("json".parse::<OutputFormat>(), Ok(OutputFormat::Json));
    assert_eq!("csv".parse::<OutputFormat>(), Ok(OutputFormat::Csv));
    assert_eq!("tsv".parse::<OutputFormat>(), Ok(OutputFormat::Tsv));
    assert!("invalid".parse::<OutputFormat>().is_err());
}

#[test]
fn test_output_format_display() {
    assert_eq!(OutputFormat::Table.format_name(), "table");
    assert_eq!(OutputFormat::Json.format_name(), "json");
    assert_eq!(OutputFormat::Csv.format_name(), "csv");
    assert_eq!(OutputFormat::Tsv.format_name(), "tsv");
}

#[test]
fn test_output_format_default() {
    assert_eq!(OutputFormat::default(), OutputFormat::Table);
}

#[test]
fn test_output_format_parse_mixed_case() {
    assert_eq!("TABLE".parse::<OutputFormat>(), Ok(OutputFormat::Table));
    assert_eq!("Json".parse::<OutputFormat>(), Ok(OutputFormat::Json));
}

#[test]
fn test_output_format_parse_error_message() {
    let err = "xml".parse::<OutputFormat>().unwrap_err();
    assert_eq!(
        err,
        "Unknown format: xml. Valid options are: [\"table\", \"json\", \"csv\", \"tsv\"]"
    );
}

#[test]
fn test_output_format_names() {
    let names = OutputFormat::names();
    assert_eq!(names, vec!["table", "json", "csv", "tsv"]);
}
