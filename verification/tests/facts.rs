use sec_facts::facts::{
    DocumentEntityInformation, Fact, FactsError, Filer, FinancialElement,
};

fn fact(fy: u32, fp: &str, val: f64) -> Fact {
    Fact {
        start: String::new(),
        end: format!("{}-12-31", fy),
        val: val.to_bits(),
        accn: String::from("0000000000-00-000000"),
        fy,
        fp: String::from(fp),
        form: String::from("10-K"),
        filed: format!("{}-01-31", fy + 1),
    }
}

fn filer_with(concept: &str, units: Vec<(String, Vec<Fact>)>) -> Filer {
    Filer {
        cik: 320193,
        entityName: String::from("Apple Inc."),
        facts: DocumentEntityInformation {
            dei: vec![],
            gaap: vec![(
                String::from(concept),
                FinancialElement {
                    label: String::from(concept),
                    description: String::from("a concept"),
                    units,
                },
            )],
        },
    }
}

#[test]
fn history_orders_points_lexicographically() {
    let filer = filer_with(
        "Revenues",
        vec![(
            String::from("USD"),
            vec![fact(2020, "FY", 10.0), fact(2021, "Q1", 5.0)],
        )],
    );
    let h = filer
        .get_fact_history(String::from("Revenues"))
        .unwrap()
        .unwrap();
    assert_eq!(h.label, "Revenues");
    assert_eq!(h.unit, "USD");
    assert_eq!(h.data.len(), 2);
    assert_eq!(h.data[0].time, "2020 Q4");
    assert_eq!(h.data[0].value, (10.0f64).to_bits());
    assert_eq!(h.data[1].time, "2021 Q1");
    assert_eq!(h.data[1].value, (5.0f64).to_bits());
}

#[test]
fn later_fact_wins_on_equal_time_key() {
    let filer = filer_with(
        "Assets",
        vec![(
            String::from("USD"),
            vec![fact(2020, "FY", 10.0), fact(2020, "Q4", 7.0)],
        )],
    );
    let h = filer
        .get_fact_history(String::from("Assets"))
        .unwrap()
        .unwrap();
    assert_eq!(h.data.len(), 1);
    assert_eq!(h.data[0].time, "2020 Q4");
    assert_eq!(h.data[0].value, (7.0f64).to_bits());
}

#[test]
fn absent_concept_yields_nothing() {
    let filer = filer_with(
        "Revenues",
        vec![(String::from("USD"), vec![fact(2020, "Q1", 1.0)])],
    );
    let r = filer.get_fact_history(String::from("NonexistentConcept"));
    assert!(matches!(r, Ok(None)));
    let labels = filer.labels();
    assert!(!labels.iter().any(|l| l == "NonexistentConcept"));
    assert!(labels.iter().any(|l| l == "Revenues"));
}

#[test]
fn empty_unit_bucket_yields_empty_data() {
    let filer = filer_with("Liabilities", vec![(String::from("USD"), vec![])]);
    let h = filer
        .get_fact_history(String::from("Liabilities"))
        .unwrap()
        .unwrap();
    assert_eq!(h.unit, "USD");
    assert!(h.data.is_empty());
}

#[test]
fn multiple_unit_buckets_are_unsupported() {
    let filer = filer_with(
        "Revenues",
        vec![
            (String::from("USD"), vec![fact(2020, "Q1", 1.0)]),
            (String::from("EUR"), vec![fact(2020, "Q1", 2.0)]),
        ],
    );
    let r = filer.get_fact_history(String::from("Revenues"));
    assert_eq!(r.unwrap_err(), FactsError::UnsupportedData);
}

#[test]
fn no_unit_bucket_yields_empty_history() {
    let filer = filer_with("Revenues", vec![]);
    let h = filer
        .get_fact_history(String::from("Revenues"))
        .unwrap()
        .unwrap();
    assert_eq!(h.unit, "");
    assert!(h.data.is_empty());
}

#[test]
fn time_key_normalizes_full_year() {
    assert_eq!(sec_facts::facts::time_key(2020, "FY"), "2020 Q4");
    assert_eq!(sec_facts::facts::time_key(2021, "Q1"), "2021 Q1");
    assert_eq!(sec_facts::facts::time_key(999, "FY"), "999 Q4");
}

#[test]
fn decimal_rendering_is_exact() {
    assert_eq!(sec_facts::text::u32_to_dec(0), "0");
    assert_eq!(sec_facts::text::u32_to_dec(2020), "2020");
    assert_eq!(sec_facts::text::u32_to_dec(4294967295), "4294967295");
}

#[test]
fn lexicographic_order_is_plain_string_order() {
    // a three-digit year sorts after a four-digit one, as string order has it
    let filer = filer_with(
        "Revenues",
        vec![(
            String::from("USD"),
            vec![fact(1000, "Q1", 1.0), fact(999, "FY", 2.0)],
        )],
    );
    let h = filer
        .get_fact_history(String::from("Revenues"))
        .unwrap()
        .unwrap();
    assert_eq!(h.data[0].time, "1000 Q1");
    assert_eq!(h.data[1].time, "999 Q4");
}
