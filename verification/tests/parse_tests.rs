use salary_pipeline::is_digit;
use salary_pipeline::numbers::Decimal;
use salary_pipeline::numbers::parse_decimal;
use salary_pipeline::numbers::parse_year;
use salary_pipeline::numbers::pow10_u64;
use salary_pipeline::records::ParseError;
use salary_pipeline::records::parse;
use salary_pipeline::scan::tokenize;
use salary_pipeline::text::chars_eq_str;
use salary_pipeline::text::chars_to_string;
use salary_pipeline::text::str_to_chars;

const HEADER: &str = "work_year,experience_level,employment_type,job_title,salary,salary_currency,salary_in_usd,employee_residence,remote_ratio,company_location,company_size";

fn chars(s: &str) -> Vec<char> {
    s.chars().collect()
}

#[test]
fn digit_tests() {
    assert!(is_digit('0'));
    assert!(is_digit('9'));
    assert!(!is_digit('a'));
    assert!(!is_digit('-'));
}

#[test]
fn text_helpers() {
    assert_eq!(str_to_chars("abc"), vec!['a', 'b', 'c']);
    assert!(chars_eq_str(&chars("work_year"), "work_year"));
    assert!(!chars_eq_str(&chars("work_yearX"), "work_year"));
    assert!(!chars_eq_str(&chars("work_yeaR"), "work_year"));
    assert_eq!(chars_to_string(&chars("Data Scientist")), "Data Scientist");
    assert_eq!(chars_to_string(&Vec::new()), "");
}

#[test]
fn pow10_values() {
    assert_eq!(pow10_u64(0), 1);
    assert_eq!(pow10_u64(3), 1000);
    assert_eq!(pow10_u64(15), 1_000_000_000_000_000);
}

#[test]
fn parse_year_values() {
    assert_eq!(parse_year(&chars("2021")), Some(2021));
    assert_eq!(parse_year(&chars("-2021")), Some(-2021));
    assert_eq!(parse_year(&chars("2147483647")), Some(2147483647));
    assert_eq!(parse_year(&chars("-2147483648")), Some(-2147483648));
    assert_eq!(parse_year(&chars("2147483648")), None);
    assert_eq!(parse_year(&chars("")), None);
    assert_eq!(parse_year(&chars("-")), None);
    assert_eq!(parse_year(&chars("20x1")), None);
    assert_eq!(parse_year(&chars("20.1")), None);
}

#[test]
fn parse_decimal_values() {
    assert_eq!(
        parse_decimal(&chars("100000")),
        Some(Decimal { negative: false, mantissa: 100000, scale: 0 })
    );
    assert_eq!(
        parse_decimal(&chars("150000.4")),
        Some(Decimal { negative: false, mantissa: 1500004, scale: 1 })
    );
    assert_eq!(
        parse_decimal(&chars("-0.25")),
        Some(Decimal { negative: true, mantissa: 25, scale: 2 })
    );
    assert_eq!(parse_decimal(&chars("")), None);
    assert_eq!(parse_decimal(&chars("-")), None);
    assert_eq!(parse_decimal(&chars(".5")), None);
    assert_eq!(parse_decimal(&chars("5.")), None);
    assert_eq!(parse_decimal(&chars("1.2.3")), None);
    assert_eq!(parse_decimal(&chars("12a")), None);
    assert_eq!(parse_decimal(&chars("1234567890123456")), None);
}

#[test]
fn rounding_values() {
    let d = |neg: bool, mantissa: u64, scale: u32| Decimal { negative: neg, mantissa, scale };
    assert_eq!(d(false, 15, 1).round_half_away(), 2); // 1.5 rounds away from zero
    assert_eq!(d(false, 25, 1).round_half_away(), 3); // 2.5 rounds away from zero
    assert_eq!(d(true, 15, 1).round_half_away(), -2); // -1.5 rounds away from zero
    assert_eq!(d(false, 4, 1).round_half_away(), 0); // 0.4 rounds down
    assert_eq!(d(false, 1500004, 1).round_half_away(), 150000); // 150000.4 rounds down
    assert_eq!(d(false, 100000, 0).round_half_away(), 100000);
    assert_eq!(d(true, 49, 2).round_half_away(), 0); // -0.49 rounds to zero
    assert_eq!(d(false, 999, 3).round_half_away(), 1); // 0.999 rounds up
}

#[test]
fn tokenize_plain() {
    let rows = tokenize("a,b\nc,d\n").unwrap();
    assert_eq!(rows.len(), 2);
    assert_eq!(rows[0], vec![chars("a"), chars("b")]);
    assert_eq!(rows[1], vec![chars("c"), chars("d")]);
}

#[test]
fn tokenize_quoting() {
    let rows = tokenize("\"a,b\",\"say \"\"hi\"\"\"\r\nx,y").unwrap();
    assert_eq!(rows.len(), 2);
    assert_eq!(rows[0], vec![chars("a,b"), chars("say \"hi\"")]);
    assert_eq!(rows[1], vec![chars("x"), chars("y")]);
    assert_eq!(tokenize("\"unterminated"), None);
    assert_eq!(tokenize("stray\"quote,b"), None);
    assert_eq!(tokenize("\"a\"b,c"), None);
}

#[test]
fn tokenize_blank_lines_and_terminators() {
    let rows = tokenize("a\n\nb\r\n\r\nc").unwrap();
    assert_eq!(rows.len(), 3);
    assert_eq!(rows[0], vec![chars("a")]);
    assert_eq!(rows[1], vec![chars("b")]);
    assert_eq!(rows[2], vec![chars("c")]);
    assert_eq!(tokenize("").unwrap().len(), 0);
    assert_eq!(tokenize("\n\r\n").unwrap().len(), 0);
}

#[test]
fn parse_empty_input() {
    assert_eq!(parse("").unwrap().len(), 0);
}

#[test]
fn parse_header_only() {
    assert_eq!(parse(HEADER).unwrap().len(), 0);
    let with_newline = format!("{}\n", HEADER);
    assert_eq!(parse(&with_newline).unwrap().len(), 0);
}

#[test]
fn parse_wrong_header() {
    let text = "year,experience_level,employment_type,job_title,salary,salary_currency,salary_in_usd,employee_residence,remote_ratio,company_location,company_size\n";
    assert_eq!(parse(text), Err(ParseError::Header));
}

#[test]
fn parse_well_typed_rows() {
    let text = format!(
        "{}\n2021,SE,FT,Data Scientist,100000,USD,100000.0,US,100,US,M\n2022,MI,CT,Analyst,50000.5,EUR,54000.25,DE,0,DE,S\n",
        HEADER
    );
    let records = parse(&text).unwrap();
    assert_eq!(records.len(), 2);
    assert_eq!(records[0].work_year, 2021);
    assert_eq!(records[0].experience_level, "SE");
    assert_eq!(records[0].employment_type, "FT");
    assert_eq!(records[0].job_title, "Data Scientist");
    assert_eq!(records[0].salary, Decimal { negative: false, mantissa: 100000, scale: 0 });
    assert_eq!(records[0].salary_currency, "USD");
    assert_eq!(records[0].salary_in_usd, Decimal { negative: false, mantissa: 1000000, scale: 1 });
    assert_eq!(records[0].employee_residence, "US");
    assert_eq!(records[0].remote_ratio, Decimal { negative: false, mantissa: 100, scale: 0 });
    assert_eq!(records[0].company_location, "US");
    assert_eq!(records[0].company_size, "M");
    assert_eq!(records[1].work_year, 2022);
    assert_eq!(records[1].salary_in_usd, Decimal { negative: false, mantissa: 5400025, scale: 2 });
}

#[test]
fn parse_rejects_wrong_column_count() {
    let text = format!("{}\n2021,SE,FT,Data Scientist,100000,USD,100000.0,US,100,US\n", HEADER);
    assert_eq!(parse(&text), Err(ParseError::Row(0)));
    let extra = format!("{}\n2021,SE,FT,Data Scientist,100000,USD,100000.0,US,100,US,M,extra\n", HEADER);
    assert_eq!(parse(&extra), Err(ParseError::Row(0)));
}

#[test]
fn parse_rejects_bad_number_in_later_row() {
    let text = format!(
        "{}\n2021,SE,FT,Data Scientist,100000,USD,100000.0,US,100,US,M\n2022,MI,FT,Analyst,abc,USD,50000,DE,0,DE,S\n",
        HEADER
    );
    assert_eq!(parse(&text), Err(ParseError::Row(1)));
}

#[test]
fn parse_rejects_malformed_quoting() {
    let text = format!("{}\n2021,SE,FT,\"Data Scientist,100000,USD,100000.0,US,100,US,M\n", HEADER);
    assert_eq!(parse(&text), Err(ParseError::Quoting));
}

#[test]
fn parse_keeps_quoted_commas() {
    let text = format!(
        "{}\n2021,SE,FT,\"Scientist, Data\",100000,USD,100000.0,US,100,US,M\n",
        HEADER
    );
    let records = parse(&text).unwrap();
    assert_eq!(records[0].job_title, "Scientist, Data");
}

#[test]
fn parse_crlf_rows() {
    let text = format!(
        "{}\r\n2021,SE,FT,Data Scientist,100000,USD,100000.0,US,100,US,M\r\n",
        HEADER
    );
    let records = parse(&text).unwrap();
    assert_eq!(records.len(), 1);
    assert_eq!(records[0].work_year, 2021);
}
