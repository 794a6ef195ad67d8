use nautilus_fuzzer::coverage::{check_guard_prerequisites, guard_count_from_output, CoverageError};
use nautilus_fuzzer::text::NumberError;

#[test]
fn guard_count_is_read_from_a_printed_line() {
    assert_eq!(guard_count_from_output(b"1234\n".to_vec()), Ok(1234));
    assert_eq!(guard_count_from_output(b"  42 \t\r\n".to_vec()), Ok(42));
    assert_eq!(guard_count_from_output("\u{3000}7\u{2028}".as_bytes().to_vec()), Ok(7));
    assert_eq!(guard_count_from_output(b"+9".to_vec()), Ok(9));
}

#[test]
fn zero_guards_is_an_error() {
    assert_eq!(guard_count_from_output(b"0\n".to_vec()), Err(CoverageError::ZeroGuards));
    assert_eq!(guard_count_from_output(b"000".to_vec()), Err(CoverageError::ZeroGuards));
}

#[test]
fn unreadable_guard_counts_are_errors() {
    assert_eq!(guard_count_from_output(vec![0x31, 0xff, 0x0a]), Err(CoverageError::InvalidUtf8));
    assert_eq!(
        guard_count_from_output(b"".to_vec()),
        Err(CoverageError::InvalidNumber(NumberError::Empty))
    );
    assert_eq!(
        guard_count_from_output(b" \n".to_vec()),
        Err(CoverageError::InvalidNumber(NumberError::Empty))
    );
    assert_eq!(
        guard_count_from_output(b"12 34\n".to_vec()),
        Err(CoverageError::InvalidNumber(NumberError::InvalidDigit))
    );
    assert_eq!(
        guard_count_from_output(b"guards: 12".to_vec()),
        Err(CoverageError::InvalidNumber(NumberError::InvalidDigit))
    );
    assert_eq!(
        guard_count_from_output(b"99999999999999999999999\n".to_vec()),
        Err(CoverageError::InvalidNumber(NumberError::PosOverflow))
    );
}

#[test]
fn prerequisites_are_checked_in_order() {
    assert_eq!(check_guard_prerequisites(true, true), Ok(()));
    assert_eq!(check_guard_prerequisites(false, true), Err(CoverageError::BinaryNotFound));
    assert_eq!(check_guard_prerequisites(false, false), Err(CoverageError::BinaryNotFound));
    assert_eq!(check_guard_prerequisites(true, false), Err(CoverageError::GuardLibraryMissing));
}
