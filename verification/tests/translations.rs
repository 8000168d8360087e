use translocate::translations::integer_text;
use translocate::{FormatTranslation, LangData, Translations};

fn record() -> Translations {
    Translations::new(
        String::from("app.title"),
        vec![
            (String::from("da_DK"), LangData::String(String::from("titel"))),
            (String::from("de_DE"), LangData::Integer(42)),
            (String::from("fr_FR"), LangData::Float(String::from("0.25"))),
            (String::from("da_DK"), LangData::String(String::from("second"))),
        ],
    )
}

#[test]
fn a_whole_number_is_written_in_decimal() {
    assert_eq!(integer_text(0), "0");
    assert_eq!(integer_text(7), "7");
    assert_eq!(integer_text(10), "10");
    assert_eq!(integer_text(-1), "-1");
    assert_eq!(integer_text(1234567890), "1234567890");
    assert_eq!(integer_text(i64::MAX), "9223372036854775807");
    assert_eq!(integer_text(i64::MIN), "-9223372036854775808");
    for number in [-1000i64, -999, -100, -11, -10, -9, 9, 11, 99, 100, 101, 1 << 40, -(1 << 40)] {
        assert_eq!(integer_text(number), format!("{number}"));
    }
}

#[test]
fn every_cell_becomes_a_text() {
    assert_eq!(LangData::Integer(-5).to_text(), "-5");
    assert_eq!(LangData::Float(String::from("3.14")).to_text(), "3.14");
    assert_eq!(LangData::String(String::from("tekst")).to_text(), "tekst");
    assert_eq!(LangData::String(String::new()).to_text(), "");
}

#[test]
fn a_record_gives_its_identifier_and_the_cell_of_a_language() {
    let record = record();

    let (id, cell) = record.format_lang("de_DE");
    assert_eq!(id, "app.title");
    assert!(matches!(cell, LangData::Integer(42)));

    let (id, cell) = record.format_lang("da_DK");
    assert_eq!(id, "app.title");
    assert_eq!(cell.to_text(), "titel");
}

#[test]
fn a_record_knows_the_languages_of_its_cells() {
    let record = record();

    assert!(record.has_language("da_DK"));
    assert!(record.has_language("fr_FR"));
    assert!(!record.has_language("da-DK"));
    assert!(!record.has_language("id"));
    assert!(!record.has_language(""));
}

#[test]
fn a_record_is_laid_out_under_the_headers() {
    let record = record();
    let headers: Vec<String> = ["id", "fr_FR", "sv_SE", "da_DK", "de_DE", "id"]
        .iter()
        .map(|name| name.to_string())
        .collect();

    assert_eq!(record.to_row(&headers), vec!["app.title", "0.25", "", "titel", "42", ""]);
    assert_eq!(record.to_row(&Vec::new()), Vec::<String>::new());
}
