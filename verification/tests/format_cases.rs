use ypbank_tools::bin_format;
use ypbank_tools::csv_format;
use ypbank_tools::format::{read_csv, read_text, write_bin, write_csv, write_text};
use ypbank_tools::text_format;
use ypbank_tools::{
    compare_transactions, convert, read_transactions, write_transactions, Format, LibraryError,
    Transaction, TransactionDifference, TransactionKind,
};

fn sample() -> Vec<Transaction> {
    vec![
        Transaction::new("2026-04-01", "salary", TransactionKind::Income, 120000),
        Transaction::new("2026-04-02", "rent", TransactionKind::Expense, -40000),
        Transaction::new("2026-04-03", "зарплата", TransactionKind::Income, i64::MAX),
        Transaction::new("", "x", TransactionKind::Expense, i64::MIN),
    ]
}

fn parse_error(r: Result<Vec<Transaction>, LibraryError>) -> String {
    match r {
        Err(LibraryError::ParseError(m)) => m,
        other => panic!("expected a parse error, got {:?}", other),
    }
}

#[test]
fn every_format_reads_back_what_it_wrote() {
    let ts = sample();
    for format in [Format::Csv, Format::Text, Format::Bin] {
        let bytes = write_transactions(format, &ts);
        assert_eq!(read_transactions(&bytes, format).unwrap(), ts);
    }
    assert_eq!(csv_format::read_csv(&csv_format::write_csv(&ts)).unwrap(), ts);
    assert_eq!(text_format::read_text(&text_format::write_text(&ts)).unwrap(), ts);
    assert_eq!(bin_format::read_bin(&bin_format::write_bin(&ts)).unwrap(), ts);
}

#[test]
fn csv_and_text_are_written_line_by_line() {
    let ts = vec![
        Transaction::new("2026-04-01", "salary", TransactionKind::Income, 120000),
        Transaction::new("2026-04-02", "rent", TransactionKind::Expense, -5),
    ];
    assert_eq!(
        String::from_utf8(write_csv(&ts)).unwrap(),
        "date,category,kind,amount\n2026-04-01,salary,income,120000\n2026-04-02,rent,expense,-5\n"
    );
    assert_eq!(
        String::from_utf8(write_text(&ts)).unwrap(),
        "2026-04-01;salary;income;120000\n2026-04-02;rent;expense;-5\n"
    );
    assert_eq!(String::from_utf8(write_csv(&[])).unwrap(), "date,category,kind,amount\n");
    assert!(write_text(&[]).is_empty());
}

#[test]
fn binary_layout_is_fixed() {
    let ts = vec![Transaction::new("d", "ca", TransactionKind::Expense, -2)];
    let expected: Vec<u8> = vec![
        b'Y', b'P', b'B', b'1', 1, 0, 0, 0, // header and count
        1, 0, 0, 0, b'd', // date
        2, 0, 0, 0, b'c', b'a', // category
        2, // kind
        0xfe, 0xff, 0xff, 0xff, 0xff, 0xff, 0xff, 0xff, // amount
    ];
    assert_eq!(write_bin(&ts), expected);
    assert_eq!(write_bin(&[]), vec![b'Y', b'P', b'B', b'1', 0, 0, 0, 0]);
}

#[test]
fn csv_header_is_checked() {
    assert_eq!(parse_error(read_csv(b"")), "CSV header is missing");
    assert_eq!(parse_error(read_csv(b"date;category\n")), "Invalid CSV header: date;category");
    let ok = read_csv(b"  DATE,Category,KIND,Amount \r\n2026-04-01,a,income,1\r\n").unwrap();
    assert_eq!(ok, vec![Transaction::new("2026-04-01", "a", TransactionKind::Income, 1)]);
}

#[test]
fn record_errors_name_the_line() {
    let input = b"date,category,kind,amount\n2026-04-01,a,income,1\n2026-04-02,b,income\n";
    assert_eq!(parse_error(read_csv(input)), "Line 3: expected 4 fields, got 3");
    assert_eq!(
        parse_error(read_text(b"d;c;gift;1\n")),
        "Line 1: unknown operation gift"
    );
    assert_eq!(
        parse_error(read_text(b"d;c;income;1x\n")),
        "Line 1: invalid amount '1x': invalid digit found in string"
    );
    assert_eq!(
        parse_error(read_text(b"d;c;income;99999999999999999999\n")),
        "Line 1: invalid amount '99999999999999999999': number too large to fit in target type"
    );
    assert_eq!(parse_error(read_text(b"\n")), "Line 1: expected 4 fields, got 1");
}

#[test]
fn records_are_trimmed_and_lower_cased_by_the_main_readers() {
    let ts = read_text(b"  2026-04-01 ; Salary ; INCOME ; +7  \n").unwrap();
    assert_eq!(ts, vec![Transaction::new("2026-04-01", "salary", TransactionKind::Income, 7)]);
    let err = text_format::read_text(b"2026-04-01;Salary;INCOME;7\n");
    assert_eq!(parse_error(err), "Line 1: unknown operation INCOME");
    let kept = csv_format::read_csv(b"date,category,kind,amount\nD,Salary,income,7\n").unwrap();
    assert_eq!(kept, vec![Transaction::new("D", "Salary", TransactionKind::Income, 7)]);
}

#[test]
fn lines_that_are_not_utf8_are_input_errors() {
    match read_text(b"d;c;income;1\n\xff\n") {
        Err(LibraryError::InputOutputError(m)) => {
            assert_eq!(m, "stream did not contain valid UTF-8")
        }
        other => panic!("unexpected {:?}", other),
    }
}

#[test]
fn binary_errors() {
    let short = read_transactions(b"YP", Format::Bin);
    assert!(matches!(short, Err(LibraryError::InputOutputError(ref m)) if m == "failed to fill whole buffer"));
    let bad = read_transactions(b"BAD!\x00\x00\x00\x00", Format::Bin);
    assert!(matches!(bad, Err(LibraryError::FormatError(ref m)) if m == "Invalid binary header"));
    let mut kind = write_bin(&[Transaction::new("d", "c", TransactionKind::Income, 1)]);
    kind[18] = 3;
    assert_eq!(parse_error(bin_format::read_bin(&kind)), "Transaction 1: unknown kind byte: 3");
    let mut text = write_bin(&[Transaction::new("d", "c", TransactionKind::Income, 1)]);
    text[12] = 0xff;
    let message = parse_error(bin_format::read_bin(&text));
    assert!(message.starts_with("Invalid UTF-8 string in binary data: "));
    let mut cut = write_bin(&[Transaction::new("d", "c", TransactionKind::Income, 1)]);
    cut.pop();
    assert!(matches!(bin_format::read_bin(&cut), Err(LibraryError::InputOutputError(_))));
    let mut extra = write_bin(&[Transaction::new("d", "c", TransactionKind::Income, 1)]);
    extra.extend_from_slice(b"tail");
    assert_eq!(bin_format::read_bin(&extra).unwrap().len(), 1);
}

#[test]
fn format_names() {
    assert_eq!(Format::parse("CSV").unwrap(), Format::Csv);
    assert_eq!(Format::parse("Text").unwrap(), Format::Text);
    assert_eq!(Format::parse("bin").unwrap(), Format::Bin);
    match Format::parse("XML") {
        Err(LibraryError::FormatError(m)) => assert_eq!(m, "Unknown format: xml"),
        other => panic!("unexpected {:?}", other),
    }
}

#[test]
fn convert_passes_read_errors_on() {
    let result = convert(b"nonsense", Format::Bin, Format::Csv);
    assert!(matches!(result, Err(LibraryError::FormatError(_))));
    let out = convert(b"d;c;expense;3\n", Format::Text, Format::Csv).unwrap();
    assert_eq!(String::from_utf8(out).unwrap(), "date,category,kind,amount\nd,c,expense,3\n");
}

#[test]
fn comparing_finds_the_first_difference() {
    let a = Transaction::new("d", "c", TransactionKind::Income, 1);
    let b = Transaction::new("d", "c", TransactionKind::Expense, 1);
    let c = Transaction::new("e", "c", TransactionKind::Expense, 2);
    let diff = compare_transactions(&[a.clone(), a.clone()], &[a.clone(), b.clone()]).unwrap();
    assert_eq!(
        diff,
        TransactionDifference::FieldMismatch {
            position: 2,
            field: "kind",
            left: "income".to_string(),
            right: "expense".to_string()
        }
    );
    assert_eq!(diff.to_message(), "Transactions differ at position 2: kind: income != expense");
    let date = compare_transactions(&[c.clone()], &[a.clone()]).unwrap();
    assert_eq!(date.to_message(), "Transactions differ at position 1: date: e != d");
    let len = compare_transactions(&[a.clone()], &[a.clone(), c]).unwrap();
    assert_eq!(len, TransactionDifference::LengthMismatch { left_len: 1, right_len: 2 });
    assert_eq!(len.to_message(), "Different number of transactions: 1 != 2");
    assert_eq!(compare_transactions(&[], &[]), None);
}

#[test]
fn error_messages() {
    assert_eq!(LibraryError::ParseError("x".to_string()).to_message(), "Parse error: x");
    assert_eq!(LibraryError::FormatError("y".to_string()).to_message(), "Format error: y");
    assert_eq!(
        LibraryError::InputOutputError("z".to_string()).to_message(),
        "Invalid input: z"
    );
    assert_eq!(TransactionKind::Income.as_str(), "income");
    assert_eq!(TransactionKind::Expense.as_str(), "expense");
}
