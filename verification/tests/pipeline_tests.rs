use salary_pipeline::numbers::Decimal;
use salary_pipeline::pipeline::FetchError;
use salary_pipeline::pipeline::RunOutcome;
use salary_pipeline::pipeline::run;
use salary_pipeline::project::ProjectedTuple;
use salary_pipeline::project::filter_and_project;
use salary_pipeline::records::ParseError;
use salary_pipeline::records::SalaryRecord;
use salary_pipeline::records::parse;

const HEADER: &str = "work_year,experience_level,employment_type,job_title,salary,salary_currency,salary_in_usd,employee_residence,remote_ratio,company_location,company_size";

fn record(year: i32, level: &str, title: &str, usd: Decimal) -> SalaryRecord {
    SalaryRecord {
        work_year: year,
        experience_level: level.to_string(),
        employment_type: "FT".to_string(),
        job_title: title.to_string(),
        salary: usd,
        salary_currency: "USD".to_string(),
        salary_in_usd: usd,
        employee_residence: "US".to_string(),
        remote_ratio: Decimal { negative: false, mantissa: 100, scale: 0 },
        company_location: "US".to_string(),
        company_size: "M".to_string(),
    }
}

#[test]
fn filter_keeps_only_senior_records_in_order() {
    let records = vec![
        record(2021, "SE", "Data Scientist", Decimal { negative: false, mantissa: 100000, scale: 0 }),
        record(2021, "MI", "Data Analyst", Decimal { negative: false, mantissa: 60000, scale: 0 }),
        record(2022, "EN", "Engineer", Decimal { negative: false, mantissa: 40000, scale: 0 }),
        record(2022, "SE", "ML Engineer", Decimal { negative: false, mantissa: 1500004, scale: 1 }),
    ];
    let tuples = filter_and_project(&records);
    assert_eq!(
        tuples,
        vec![
            ProjectedTuple {
                work_year: 2021,
                job_title: "Data Scientist".to_string(),
                rounded_salary_usd: 100000,
            },
            ProjectedTuple {
                work_year: 2022,
                job_title: "ML Engineer".to_string(),
                rounded_salary_usd: 150000,
            },
        ]
    );
}

#[test]
fn filter_is_case_sensitive_and_exact() {
    let records = vec![
        record(2021, "se", "A", Decimal { negative: false, mantissa: 1, scale: 0 }),
        record(2021, "SE ", "B", Decimal { negative: false, mantissa: 1, scale: 0 }),
        record(2021, " SE", "C", Decimal { negative: false, mantissa: 1, scale: 0 }),
        record(2021, "SEN", "D", Decimal { negative: false, mantissa: 1, scale: 0 }),
    ];
    assert_eq!(filter_and_project(&records).len(), 0);
}

#[test]
fn filter_twice_gives_identical_output() {
    let records = vec![
        record(2021, "SE", "Data Scientist", Decimal { negative: false, mantissa: 100000, scale: 0 }),
        record(2021, "MI", "Data Analyst", Decimal { negative: false, mantissa: 60000, scale: 0 }),
    ];
    let first = filter_and_project(&records);
    let second = filter_and_project(&records);
    assert_eq!(first, second);
}

#[test]
fn filter_of_empty_is_empty() {
    let records: Vec<SalaryRecord> = Vec::new();
    assert_eq!(filter_and_project(&records).len(), 0);
}

#[test]
fn three_record_scenario() {
    let text = format!(
        "{}\n2021,SE,FT,Data Scientist,100000,USD,100000.0,US,100,US,M\n2021,MI,FT,Data Analyst,60000,USD,60000.0,US,100,US,M\n2022,SE,FT,ML Engineer,150000.4,USD,150000.4,DE,50,DE,L\n",
        HEADER
    );
    let records = parse(&text).unwrap();
    assert_eq!(records.len(), 3);
    let tuples = filter_and_project(&records);
    assert_eq!(
        tuples,
        vec![
            ProjectedTuple {
                work_year: 2021,
                job_title: "Data Scientist".to_string(),
                rounded_salary_usd: 100000,
            },
            ProjectedTuple {
                work_year: 2022,
                job_title: "ML Engineer".to_string(),
                rounded_salary_usd: 150000,
            },
        ]
    );
}

#[test]
fn run_on_header_only_loads_zero_records() {
    let text = format!("{}\n", HEADER);
    match run(Ok(text)) {
        RunOutcome::Loaded { records, tuples } => {
            assert_eq!(records.len(), 0);
            assert_eq!(tuples.len(), 0);
        },
        _ => panic!("expected a loaded outcome"),
    }
}

#[test]
fn run_reports_parse_failure_and_loads_nothing() {
    let text = format!("{}\n2021,SE,FT,Data Scientist,100000,USD,100000.0,US,100\n", HEADER);
    match run(Ok(text)) {
        RunOutcome::ParseFailed(e) => assert_eq!(e, ParseError::Row(0)),
        _ => panic!("expected a parse failure"),
    }
}

#[test]
fn run_reports_fetch_failure_unchanged() {
    let err = FetchError { message: "connection refused".to_string() };
    match run(Err(err)) {
        RunOutcome::FetchFailed(e) => assert_eq!(e.message, "connection refused"),
        _ => panic!("expected a fetch failure"),
    }
}
