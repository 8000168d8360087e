use translocate::{CliArgs, Config, ConfigError, Terminator, Trim};

fn no_options(file: &str) -> CliArgs {
    CliArgs {
        delimiter: None,
        escape_char: None,
        ignored_headings: None,
        inflexible: false,
        output_dir: None,
        output_filename: None,
        terminator: None,
        trim: None,
        version: None,
        file: String::from(file),
    }
}

#[test]
fn a_csv_file_has_the_defaults_of_csv() {
    let args = no_options("translations.csv");

    let config = Config::new(&args, Some("csv")).unwrap();

    assert_eq!(config.delimiter, b',');
    assert_eq!(config.escape_char, b'"');
    assert_eq!(config.ignored_headings, None);
    assert!(config.flexible);
    assert_eq!(config.output_dir, "");
    assert_eq!(config.output_filename, None);
    assert_eq!(config.terminator_char, Terminator::CRLF);
    assert_eq!(config.trim_whitespace, Trim::Off);
}

#[test]
fn a_tsv_file_has_the_defaults_of_tsv() {
    let args = no_options("translations.tsv");

    let config = Config::new(&args, Some("tsv")).unwrap();

    assert_eq!(config.delimiter, b'\t');
    assert_eq!(config.escape_char, b'\\');
    assert_eq!(config.terminator_char, Terminator::Any(b'\n'));
}

#[test]
fn a_file_without_extension_is_read_as_csv() {
    let args = no_options("translations");

    let config = Config::new(&args, None).unwrap();

    assert_eq!(config.delimiter, b',');
    assert_eq!(config.escape_char, b'"');
    assert_eq!(config.terminator_char, Terminator::CRLF);
}

#[test]
fn only_the_exact_extension_tsv_means_tab_separated() {
    let args = no_options("translations");

    for extension in ["TSV", "tsvx", "ts", "", "csv", " tsv"] {
        let config = Config::new(&args, Some(extension)).unwrap();
        assert_eq!(config.delimiter, b',');
    }
}

#[test]
fn options_override_the_defaults() {
    let args = CliArgs {
        delimiter: Some(String::from(";")),
        escape_char: Some(String::from("'quote")),
        ignored_headings: Some(String::from("notes,,TextDomain")),
        inflexible: true,
        output_dir: Some(String::from("out/json")),
        output_filename: Some(String::from("locales")),
        terminator: Some(String::from("13")),
        trim: Some(true),
        version: None,
        file: String::from("translations.tsv"),
    };

    let config = Config::new(&args, Some("tsv")).unwrap();

    assert_eq!(config.delimiter, b';');
    assert_eq!(config.escape_char, b'\'');
    assert_eq!(config.ignored_headings, Some(vec!["notes", "", "TextDomain"]));
    assert!(!config.flexible);
    assert_eq!(config.output_dir, "out/json");
    assert_eq!(config.output_filename, Some("locales"));
    assert_eq!(config.terminator_char, Terminator::Any(13));
    assert_eq!(config.trim_whitespace, Trim::Fields);
}

#[test]
fn a_delimiter_beyond_ascii_gives_its_first_byte() {
    let mut args = no_options("translations.csv");
    args.delimiter = Some(String::from("é"));

    let config = Config::new(&args, Some("csv")).unwrap();

    assert_eq!(config.delimiter, 0xC3);
}

#[test]
fn trimming_is_off_unless_asked_for() {
    let mut args = no_options("translations.csv");

    args.trim = Some(false);
    assert_eq!(Config::new(&args, None).unwrap().trim_whitespace, Trim::Off);
    args.trim = None;
    assert_eq!(Config::new(&args, None).unwrap().trim_whitespace, Trim::Off);
    args.trim = Some(true);
    assert_eq!(Config::new(&args, None).unwrap().trim_whitespace, Trim::Fields);
}

#[test]
fn an_empty_delimiter_is_refused() {
    let mut args = no_options("translations.csv");
    args.delimiter = Some(String::new());
    args.escape_char = Some(String::new());
    args.terminator = Some(String::from("x"));

    assert_eq!(Config::new(&args, None).err(), Some(ConfigError::EmptyDelimiter));
}

#[test]
fn an_empty_escape_character_is_refused() {
    let mut args = no_options("translations.csv");
    args.escape_char = Some(String::new());
    args.terminator = Some(String::from("x"));

    assert_eq!(Config::new(&args, None).err(), Some(ConfigError::EmptyEscape));
}

#[test]
fn a_terminator_that_is_no_byte_is_refused() {
    for terminator in ["", "x", "256", "-1", "1 0", "0x0A", "+", "٣"] {
        let mut args = no_options("translations.csv");
        args.terminator = Some(String::from(terminator));

        assert_eq!(
            Config::new(&args, Some("tsv")).err(),
            Some(ConfigError::InvalidTerminator),
            "{terminator:?}"
        );
    }
}

#[test]
fn a_terminator_is_read_in_decimal() {
    for (terminator, byte) in [("10", 10u8), ("0", 0), ("255", 255), ("+9", 9), ("0013", 13)] {
        let mut args = no_options("translations.csv");
        args.terminator = Some(String::from(terminator));

        let config = Config::new(&args, None).unwrap();

        assert_eq!(config.terminator_char, Terminator::Any(byte));
    }
}
