use sec_facts::index::{CikIndex, IndexError};

#[test]
fn it_works() {
    let result = 2 + 2;
    assert_eq!(result, 4);
}

#[test]
fn lex_order_on_labels() {
    assert!(sec_facts::text::str_lex_lt("2020 Q4", "2021 Q1"));
    assert!(!sec_facts::text::str_lex_lt("2021 Q1", "2020 Q4"));
    assert!(!sec_facts::text::str_lex_lt("2020 Q4", "2020 Q4"));
}

fn open_index(dir: &tempfile::TempDir) -> CikIndex {
    CikIndex::at_location(dir.path().to_str().unwrap()).unwrap()
}

fn strings(items: &[&str]) -> Vec<String> {
    items.iter().map(|s| String::from(*s)).collect()
}

#[test]
fn insert_commit_search_roundtrip() {
    let dir = tempfile::tempdir().unwrap();
    let mut ix = open_index(&dir);
    let mut writer = ix.create_writer().unwrap();
    ix.insert(
        &mut writer,
        320193,
        &strings(&["AAPL"]),
        &strings(&["Apple Inc."]),
    )
    .unwrap();
    ix.commit(&mut writer).unwrap();
    ix.refresh().unwrap();
    let by_ticker = ix.search("AAPL", 10).unwrap();
    assert!(by_ticker.iter().any(|r| r.cik == 320193));
    let by_name = ix.search("Apple", 10).unwrap();
    assert!(by_name.iter().any(|r| r.cik == 320193));
    let hit = &by_ticker[0];
    assert_eq!(hit.tickers, strings(&["AAPL"]));
    assert_eq!(hit.names, strings(&["Apple Inc."]));
}

#[test]
fn search_honours_limit() {
    let dir = tempfile::tempdir().unwrap();
    let mut ix = open_index(&dir);
    let mut writer = ix.create_writer().unwrap();
    for cik in 1..=3u64 {
        ix.insert(&mut writer, cik, &strings(&["ZZZ"]), &strings(&["Common Name"]))
            .unwrap();
    }
    ix.commit(&mut writer).unwrap();
    ix.refresh().unwrap();
    assert_eq!(ix.search("ZZZ", 10).unwrap().len(), 3);
    assert_eq!(ix.search("ZZZ", 2).unwrap().len(), 2);
    assert_eq!(ix.search("ZZZ", 0).unwrap().len(), 0);
}

#[test]
fn repeated_insert_is_append_only() {
    let dir = tempfile::tempdir().unwrap();
    let mut ix = open_index(&dir);
    let mut writer = ix.create_writer().unwrap();
    ix.insert(&mut writer, 320193, &strings(&["AAPL"]), &strings(&["Apple Inc."]))
        .unwrap();
    ix.insert(&mut writer, 320193, &strings(&["AAPL"]), &strings(&["Apple Incorporated"]))
        .unwrap();
    ix.commit(&mut writer).unwrap();
    ix.refresh().unwrap();
    let hits = ix.search("AAPL", 10).unwrap();
    let same_cik = hits.iter().filter(|r| r.cik == 320193).count();
    assert_eq!(same_cik, 2);
}

#[test]
fn malformed_query_is_an_error_value() {
    let dir = tempfile::tempdir().unwrap();
    let ix = open_index(&dir);
    let r = ix.search("nosuchfield:foo", 10);
    assert_eq!(r.unwrap_err(), IndexError::MalformedQuery);
}

#[test]
fn uncommitted_documents_stay_invisible() {
    let dir = tempfile::tempdir().unwrap();
    let mut ix = open_index(&dir);
    let mut writer = ix.create_writer().unwrap();
    ix.insert(&mut writer, 7, &strings(&["MSFT"]), &strings(&["Microsoft"]))
        .unwrap();
    ix.refresh().unwrap();
    assert!(ix.search("MSFT", 10).unwrap().is_empty());
    ix.commit(&mut writer).unwrap();
    ix.refresh().unwrap();
    assert_eq!(ix.search("MSFT", 10).unwrap().len(), 1);
}

#[test]
fn missing_location_is_a_storage_error() {
    let r = CikIndex::at_location("/nonexistent/location/for/this/index");
    assert!(matches!(r, Err(IndexError::Storage)));
}

#[test]
fn more_relevant_entry_comes_first() {
    let dir = tempfile::tempdir().unwrap();
    let mut ix = open_index(&dir);
    let mut writer = ix.create_writer().unwrap();
    ix.insert(
        &mut writer,
        2,
        &strings(&["LONG"]),
        &strings(&["Apple Orchard Growers International Holdings"]),
    )
    .unwrap();
    ix.insert(&mut writer, 1, &strings(&["SHRT"]), &strings(&["Apple"]))
        .unwrap();
    ix.commit(&mut writer).unwrap();
    ix.refresh().unwrap();
    let hits = ix.search("Apple", 10).unwrap();
    assert_eq!(hits.len(), 2);
    assert_eq!(hits[0].cik, 1);
}

#[test]
fn search_on_empty_index_is_empty() {
    let dir = tempfile::tempdir().unwrap();
    let ix = open_index(&dir);
    assert!(ix.search("anything", 5).unwrap().is_empty());
}
