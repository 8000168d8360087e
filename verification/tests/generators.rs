use translocate::{generate_json, generate_json_fast, Config, LangData, Terminator, Translations, Trim};

const CONFIG: Config = Config {
    delimiter: b',',
    escape_char: b'"',
    ignored_headings: None,
    flexible: true,
    output_dir: "",
    output_filename: None,
    terminator_char: Terminator::CRLF,
    trim_whitespace: Trim::Fields,
};

const CSV_ALL_LANG: &str = "\
id,da_DK,de_DE,en_US,es_ES,fr_FR,it_IT,TextDomain,nl_NL,pt_BR,pt_PT,sv_SE,
new.translation,ny oversættelse,neue Übersetzung,new translation,nueva traducción,nouvelle traduction,nuova traduzione,,nieuwe vertaling,nova tradução,nova tradução,ny översättning,
";

const CSV_ROW_A: &str = "\
id,da_DK_a,
new.translation,,
";

const CSV_ROW_0: &str = "\
id,da_DK_0,
new.translation,,
";

const CSV_ROW_1: &str = "\
id,da_DK_1,
new.translation,ny oversættelse,
";

const CSV_ROW_2: &str = "\
id,da_DK_2,
new.translation,ny oversættelse,
new.translation,,
";

const CSV_ROW_3: &str = "\
id,da_DK_3,
new.translation,ny oversættelse,
new.translation,,
new.translation,nyoversættelse,
";

const CSV_ROW_4: &str = "\
id,da_DK_4,
new.translation,,
new.translation,ny oversættelse,
";

const SSV_ROW_1: &str = "\
id;da_DK_s;
new.translation;ny oversættelse;
";

const TSV_ROW_1: &str = "\
id\tda_DK_t\t
new.translation\tny oversættelse\t
";

const DA_JSON_0: &str = "{\n  \"new.translation\": \"\"\n}";
const DA_JSON_1: &str = "{\n  \"new.translation\": \"ny oversættelse\"\n}";
const DA_JSON_2: &str = "{\n  \"new.translation\": \"nyoversættelse\"\n}";

/// Reads a table from memory with the settings that the converter would read
/// a file with.
fn read_table(input_data: &str, config: &Config) -> (Vec<String>, Vec<Vec<String>>) {
    let mut reader = csv::ReaderBuilder::new()
        .delimiter(config.delimiter)
        .escape(Some(config.escape_char))
        .flexible(config.flexible)
        .terminator(match config.terminator_char {
            Terminator::CRLF => csv::Terminator::CRLF,
            Terminator::Any(byte) => csv::Terminator::Any(byte),
        })
        .trim(match config.trim_whitespace {
            Trim::Off => csv::Trim::None,
            Trim::Headers => csv::Trim::Headers,
            Trim::Fields => csv::Trim::Fields,
            Trim::All => csv::Trim::All,
        })
        .from_reader(input_data.as_bytes());
    let headings: Vec<String> = reader.headers().unwrap().iter().map(String::from).collect();
    let rows: Vec<Vec<String>> = reader
        .records()
        .map(|record| record.unwrap().iter().map(String::from).collect())
        .collect();
    (headings, rows)
}

/// The one document that a table with a single language gives.
fn single_document(input_data: &str, config: &Config) -> (String, String) {
    let (headings, rows) = read_table(input_data, config);
    let made = generate_json_fast(&headings, &rows, config).unwrap();
    assert_eq!(made.files.len(), 1);
    (made.files[0].file_name.clone(), made.files[0].contents.clone())
}

fn strings(cells: &[&str]) -> Vec<String> {
    cells.iter().map(|cell| cell.to_string()).collect()
}

#[test]
fn it_writes_all_columns_except_textdomain_to_a_file() {
    let illegal_file = "TextDomain.json";
    let lang_file_list = [
        "da_DK.json",
        "de_DE.json",
        "en_US.json",
        "es_ES.json",
        "fr_FR.json",
        "it_IT.json",
        "nl_NL.json",
        "pt_BR.json",
        "pt_PT.json",
        "sv_SE.json",
    ];
    let translations = [
        "ny oversættelse",
        "neue Übersetzung",
        "new translation",
        "nueva traducción",
        "nouvelle traduction",
        "nuova traduzione",
        "nieuwe vertaling",
        "nova tradução",
        "nova tradução",
        "ny översättning",
    ];
    let (headings, rows) = read_table(CSV_ALL_LANG, &CONFIG);

    let made = generate_json_fast(&headings, &rows, &CONFIG).unwrap();

    assert_eq!(made.files.len(), lang_file_list.len());
    for (idx, file) in lang_file_list.iter().enumerate() {
        let written = made.files.iter().find(|made| made.file_name == *file).unwrap();

        assert!(made.files.iter().all(|made| made.file_name != illegal_file));
        assert_eq!(
            written.contents,
            format!("{{\n  \"new.translation\": \"{}\"\n}}", translations[idx])
        );
    }
}

#[test]
fn it_creates_a_new_json_file_for_the_given_language_from_tsv() {
    let config = &Config {
        delimiter: b'\t',
        ..CONFIG
    };

    let (name, trans) = single_document(TSV_ROW_1, config);

    assert_eq!(name, "da_DK_t.json");
    assert_eq!(trans, DA_JSON_1);
}

#[test]
fn it_creates_a_json_file_with_specific_name() {
    let config = &Config {
        output_filename: Some("locales"),
        ..CONFIG
    };

    let (headings, rows) = read_table(CSV_ROW_A, config);
    let made = generate_json_fast(&headings, &rows, config).unwrap();

    assert_eq!(made.files.len(), 1);
    assert_eq!(made.files[0].directory.as_deref(), Some("da_DK_a"));
    assert_eq!(made.files[0].file_name, "locales.json");

    let config = &Config {
        output_dir: "custom",
        output_filename: Some("locales"),
        ..CONFIG
    };
    let (headings, rows) = read_table(CSV_ROW_A, config);
    let made = generate_json_fast(&headings, &rows, config).unwrap();

    assert_eq!(made.files.len(), 1);
    assert_eq!(made.files[0].language, "da_DK_a");
    assert_eq!(made.files[0].directory.as_deref(), Some("da_DK_a"));
    assert_eq!(made.files[0].file_name, "locales.json");
    assert_eq!(made.files[0].contents, DA_JSON_0);
}

#[test]
fn it_creates_a_new_json_file_for_the_given_language_from_ssv() {
    let config = &Config {
        delimiter: b';',
        ..CONFIG
    };

    let (name, trans) = single_document(SSV_ROW_1, config);

    assert_eq!(name, "da_DK_s.json");
    assert_eq!(trans, DA_JSON_1);
}

#[test]
fn it_creates_a_new_json_file_for_the_given_language_from_csv() {
    // Empty translation
    let (name_0, trans_0) = single_document(CSV_ROW_0, &CONFIG);

    // Actual translation
    let (name_1, trans_1) = single_document(CSV_ROW_1, &CONFIG);

    assert_eq!(name_0, "da_DK_0.json");
    assert_eq!(name_1, "da_DK_1.json");
    assert_eq!(trans_0, DA_JSON_0);
    assert_eq!(trans_1, DA_JSON_1);
}

#[test]
fn it_does_not_overwrite_existing_key_with_empty_value() {
    let (name, trans) = single_document(CSV_ROW_2, &CONFIG);

    assert_eq!(name, "da_DK_2.json");
    assert_eq!(trans, DA_JSON_1);
}

#[test]
fn it_overwrites_existing_key_with_new_value() {
    let (name, trans) = single_document(CSV_ROW_3, &CONFIG);

    assert_eq!(name, "da_DK_3.json");
    assert_eq!(trans, DA_JSON_2);
}

#[test]
fn it_overwrites_empty_value_with_new_value() {
    let (name, trans) = single_document(CSV_ROW_4, &CONFIG);

    assert_eq!(name, "da_DK_4.json");
    assert_eq!(trans, DA_JSON_1);
}

#[test]
fn an_empty_text_does_not_count_as_an_overwrite() {
    let (headings, rows) = read_table(CSV_ROW_2, &CONFIG);
    let made = generate_json_fast(&headings, &rows, &CONFIG).unwrap();

    assert_eq!(made.times_overwritten, 0);
    assert!(made.notices.is_empty());
}

#[test]
fn a_text_over_an_empty_text_counts_as_an_overwrite() {
    let (headings, rows) = read_table(CSV_ROW_4, &CONFIG);
    let made = generate_json_fast(&headings, &rows, &CONFIG).unwrap();

    assert_eq!(made.times_overwritten, 1);
    assert_eq!(made.notices.len(), 1);
    assert_eq!(made.notices[0].row, 2);
    assert_eq!(made.notices[0].key, "new.translation");
}

#[test]
fn the_last_text_of_three_rows_wins() {
    let (headings, rows) = read_table(CSV_ROW_3, &CONFIG);
    let made = generate_json_fast(&headings, &rows, &CONFIG).unwrap();

    assert_eq!(made.files[0].contents, DA_JSON_2);
    assert_eq!(made.times_overwritten, 1);
    assert_eq!(made.notices[0].row, 3);
}

#[test]
fn a_row_that_replaces_texts_in_two_languages_counts_once() {
    let headings = strings(&["id", "da_DK", "de_DE"]);
    let rows = vec![
        strings(&["greeting", "hej", "hallo"]),
        strings(&["greeting", "goddag", "guten Tag"]),
        strings(&["farewell", "farvel", "tschüss"]),
        strings(&["farewell", "", "auf Wiedersehen"]),
    ];

    let made = generate_json_fast(&headings, &rows, &CONFIG).unwrap();

    assert_eq!(made.times_overwritten, 2);
    assert_eq!(made.notices.len(), 2);
    assert_eq!((made.notices[0].row, made.notices[0].key.as_str()), (2, "greeting"));
    assert_eq!((made.notices[1].row, made.notices[1].key.as_str()), (4, "farewell"));
    assert_eq!(
        made.files[0].contents,
        "{\n  \"farewell\": \"farvel\",\n  \"greeting\": \"goddag\"\n}"
    );
    assert_eq!(
        made.files[1].contents,
        "{\n  \"farewell\": \"auf Wiedersehen\",\n  \"greeting\": \"guten Tag\"\n}"
    );
}

#[test]
fn two_languages_give_two_documents_with_one_key_each() {
    let headings = strings(&["id", "da_DK", "de_DE"]);
    let rows = vec![strings(&["new.translation", "ny oversættelse", "neue Übersetzung"])];

    let made = generate_json_fast(&headings, &rows, &CONFIG).unwrap();

    assert_eq!(made.files.len(), 2);
    assert_eq!(made.files[0].file_name, "da_DK.json");
    assert_eq!(made.files[0].directory, None);
    assert_eq!(made.files[0].contents, DA_JSON_1);
    assert_eq!(made.files[1].file_name, "de_DE.json");
    assert_eq!(
        made.files[1].contents,
        "{\n  \"new.translation\": \"neue Übersetzung\"\n}"
    );
}

#[test]
fn a_text_domain_column_gives_no_document() {
    let headings = strings(&["id", "TextDomain", "da_DK", "TextDomain"]);
    let rows = vec![
        strings(&["one", "", "en", ""]),
        strings(&["two", "", "to", ""]),
    ];

    let made = generate_json_fast(&headings, &rows, &CONFIG).unwrap();

    assert_eq!(made.files.len(), 1);
    assert_eq!(made.files[0].language, "da_DK");
    assert!(made.files.iter().all(|file| file.file_name != "TextDomain.json"));
}

#[test]
fn a_later_column_named_like_the_identifier_gives_no_document() {
    let headings = strings(&["id", "da_DK", "id", "  ", ""]);
    let rows = vec![strings(&["one", "en", "uno", "x", "y"])];

    let made = generate_json_fast(&headings, &rows, &CONFIG).unwrap();

    assert_eq!(made.files.len(), 1);
    assert_eq!(made.files[0].file_name, "da_DK.json");
}

#[test]
fn the_first_column_holds_the_identifiers_whatever_its_name() {
    let headings = strings(&["key", "da_DK"]);
    let rows = vec![strings(&["one", "en"])];

    let made = generate_json_fast(&headings, &rows, &CONFIG).unwrap();

    assert_eq!(made.files.len(), 1);
    assert_eq!(made.files[0].contents, "{\n  \"one\": \"en\"\n}");
}

#[test]
fn a_table_without_rows_gives_no_document() {
    let headings = strings(&["id", "da_DK", "de_DE"]);

    let made = generate_json_fast(&headings, &Vec::new(), &CONFIG).unwrap();

    assert!(made.files.is_empty());
    assert_eq!(made.times_overwritten, 0);
}

#[test]
fn a_new_identifier_with_an_empty_text_is_recorded() {
    let headings = strings(&["id", "da_DK"]);
    let rows = vec![strings(&["one", "en"]), strings(&["two", ""])];

    let made = generate_json_fast(&headings, &rows, &CONFIG).unwrap();

    assert_eq!(made.files[0].contents, "{\n  \"one\": \"en\",\n  \"two\": \"\"\n}");
    assert_eq!(made.times_overwritten, 0);
}

#[test]
fn a_short_row_has_empty_texts_where_it_ends() {
    let headings = strings(&["id", "da_DK", "de_DE"]);
    let rows = vec![strings(&["one", "en"]), strings(&["two"]), strings(&[])];

    let made = generate_json_fast(&headings, &rows, &CONFIG).unwrap();

    assert_eq!(
        made.files[0].contents,
        "{\n  \"\": \"\",\n  \"one\": \"en\",\n  \"two\": \"\"\n}"
    );
    assert_eq!(
        made.files[1].contents,
        "{\n  \"\": \"\",\n  \"one\": \"\",\n  \"two\": \"\"\n}"
    );
}

#[test]
fn a_long_row_has_its_extra_texts_ignored() {
    let headings = strings(&["id", "da_DK"]);
    let rows = vec![strings(&["one", "en", "extra", "more"])];

    let made = generate_json_fast(&headings, &rows, &CONFIG).unwrap();

    assert_eq!(made.files.len(), 1);
    assert_eq!(made.files[0].contents, "{\n  \"one\": \"en\"\n}");
}

#[test]
fn two_columns_of_one_language_share_a_document() {
    let headings = strings(&["id", "da_DK", "de_DE", "da_DK"]);
    let rows = vec![strings(&["one", "en", "eins", "een"])];

    let made = generate_json_fast(&headings, &rows, &CONFIG).unwrap();

    assert_eq!(made.files.len(), 2);
    assert_eq!(made.files[0].file_name, "da_DK.json");
    assert_eq!(made.files[0].contents, "{\n  \"one\": \"een\"\n}");
    assert_eq!(made.files[1].file_name, "de_DE.json");
    assert_eq!(made.times_overwritten, 1);
    assert_eq!(made.notices[0].row, 1);
}

#[test]
fn texts_are_written_as_json_strings_with_escapes() {
    let headings = strings(&["id", "en_US"]);
    let rows = vec![
        strings(&["quote", "say \"hi\""]),
        strings(&["number", "42"]),
        strings(&["line", "a\nb\\c"]),
    ];

    let made = generate_json_fast(&headings, &rows, &CONFIG).unwrap();

    assert_eq!(
        made.files[0].contents,
        "{\n  \"line\": \"a\\nb\\\\c\",\n  \"number\": \"42\",\n  \"quote\": \"say \\\"hi\\\"\"\n}"
    );
}

#[test]
fn converting_twice_gives_the_same_documents() {
    let (headings, rows) = read_table(CSV_ALL_LANG, &CONFIG);

    let first = generate_json_fast(&headings, &rows, &CONFIG).unwrap();
    let second = generate_json_fast(&headings, &rows, &CONFIG).unwrap();

    assert_eq!(first.files.len(), second.files.len());
    for (one, other) in first.files.iter().zip(second.files.iter()) {
        assert_eq!(one.language, other.language);
        assert_eq!(one.directory, other.directory);
        assert_eq!(one.file_name, other.file_name);
        assert_eq!(one.contents, other.contents);
    }
    assert_eq!(first.times_overwritten, second.times_overwritten);
}

#[test]
fn every_last_text_is_in_its_document() {
    let headings = strings(&["id", "da_DK", "de_DE"]);
    let rows = vec![
        strings(&["a", "første", "erste"]),
        strings(&["b", "anden", ""]),
        strings(&["a", "", "neue"]),
        strings(&["b", "sidste", "letzte"]),
    ];

    let made = generate_json_fast(&headings, &rows, &CONFIG).unwrap();

    let danish: serde_json::Value = serde_json::from_str(&made.files[0].contents).unwrap();
    let german: serde_json::Value = serde_json::from_str(&made.files[1].contents).unwrap();
    assert_eq!(danish["a"], "første");
    assert_eq!(danish["b"], "sidste");
    assert_eq!(german["a"], "neue");
    assert_eq!(german["b"], "letzte");
}

#[test]
fn typed_records_are_converted_like_plain_rows() {
    let headings = strings(&["id", "da_DK", "de_DE", "TextDomain", "fr_FR"]);
    let records = vec![
        Translations::new(
            String::from("count"),
            vec![
                (String::from("da_DK"), LangData::Integer(-12)),
                (String::from("de_DE"), LangData::Float(String::from("1.5"))),
                (String::from("TextDomain"), LangData::String(String::from("app"))),
            ],
        ),
        Translations::new(
            String::from("count"),
            vec![
                (String::from("de_DE"), LangData::String(String::new())),
                (String::from("da_DK"), LangData::Integer(7)),
            ],
        ),
    ];
    let rows = vec![
        strings(&["count", "-12", "1.5", "app", ""]),
        strings(&["count", "7", "", "", ""]),
    ];

    let typed = generate_json(&headings, &records, &CONFIG).unwrap();
    let plain = generate_json_fast(&headings, &rows, &CONFIG).unwrap();

    assert_eq!(typed.files.len(), 3);
    assert_eq!(typed.files[0].contents, "{\n  \"count\": \"7\"\n}");
    assert_eq!(typed.files[1].contents, "{\n  \"count\": \"1.5\"\n}");
    assert_eq!(typed.files[2].contents, "{\n  \"count\": \"\"\n}");
    assert_eq!(typed.times_overwritten, 1);
    assert_eq!(typed.notices[0].row, 2);
    for (one, other) in typed.files.iter().zip(plain.files.iter()) {
        assert_eq!(one.file_name, other.file_name);
        assert_eq!(one.contents, other.contents);
    }
    assert_eq!(typed.times_overwritten, plain.times_overwritten);
}
