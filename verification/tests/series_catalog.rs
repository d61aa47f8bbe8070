use fia_docs_bot::bodies::Series as SeriesInfo;
use fia_docs_bot::model::Series;

#[test]
fn catalog_entries_carry_name_and_source() {
    let f1 = SeriesInfo::f1();
    assert_eq!(f1.kind, Series::F1);
    assert_eq!(f1.name, "Formula 1");
    assert!(f1.data_source.starts_with("https://www.fia.com/documents/"));

    let f2 = SeriesInfo::f2();
    assert_eq!(f2.kind, Series::F2);
    assert_eq!(f2.name, "Formula 2");

    let f3 = SeriesInfo::f3();
    assert_eq!(f3.kind, Series::F3);
    assert_eq!(f3.name, "FIA Formula 3");
}

#[test]
fn series_names_and_support() {
    assert_eq!(Series::F1.as_str(), "F1");
    assert_eq!(Series::F2.as_str(), "F2");
    assert_eq!(Series::F3.as_str(), "F3");
    assert_eq!(Series::F1Academy.as_str(), "F1Academy");
    assert!(Series::F1.supported());
    assert!(!Series::F1Academy.supported());
}

#[test]
fn reserved_series_is_rejected_by_name() {
    assert_eq!(Series::F1.ensure_supported(), Ok(Series::F1));
    assert_eq!(
        Series::F1Academy.ensure_supported(),
        Err("series not supported: F1Academy")
    );
}
