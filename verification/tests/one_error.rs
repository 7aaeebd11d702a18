use std::num::{IntErrorKind, ParseIntError};
use ylong::one_error::{CustomMessageError, ErrorWrapper};

const FILE: &str = "src/rhrl/stdx/ylong_one_error/tests/tests.rs";

fn raise(message: &str, line: u32, column: u32) -> ErrorWrapper<CustomMessageError> {
    ErrorWrapper::new(CustomMessageError::new(message.to_string()), FILE, line, column)
}

fn show(e: &ErrorWrapper<CustomMessageError>) -> String {
    e.describe(e.error().message())
}

#[test]
fn tests_test_raise_error() {
    fn biz_code(value: &str) -> Result<(), ErrorWrapper<CustomMessageError>> {
        if value.is_empty() {
            return Err(raise("value can not be empty", 48, 17));
        }
        Ok(())
    }
    assert!(biz_code("demo").is_ok());
    let error = biz_code("").err().unwrap();
    assert_eq!("value can not be empty at tests(48)", show(&error).as_str().trim());

    let prefixed = raise("value can not be empty", 18, 17);
    assert_eq!(
        "custom-error: value can not be empty at tests(18)",
        prefixed.describe(&prefixed.error().prefixed_message()).as_str().trim()
    );
    let full = ErrorWrapper::new_full_path(
        CustomMessageError::new("value can not be empty".to_string()),
        FILE,
        48,
        17,
    );
    assert_eq!(
        "value can not be empty at src/rhrl/stdx/ylong_one_error/tests/tests.rs(48/17)",
        full.describe(full.error().message()).as_str().trim()
    );
    let full = ErrorWrapper::new_full_path(
        CustomMessageError::new("value can not be empty".to_string()),
        FILE,
        18,
        17,
    );
    assert_eq!(
        "custom-error: value can not be empty at src/rhrl/stdx/ylong_one_error/tests/tests.rs(18/17)",
        full.describe(&full.error().prefixed_message()).as_str().trim()
    );
}

#[test]
fn tests_test_throw_error() {
    fn biz_code() -> Result<(), ErrorWrapper<CustomMessageError>> {
        let value = "aa";
        let value = value.parse::<i32>();
        let err = value.err().unwrap();
        let message = format!("{}: {}", "core::num::error::ParseIntError", err);
        Err(raise(&message, 110, 13))
    }
    assert!(biz_code().is_err());
    let error = biz_code().err().unwrap();
    assert_eq!(
        "core::num::error::ParseIntError: invalid digit found in string at tests(110)",
        show(&error).as_str().trim()
    );

    let message = "core::num::error::ParseIntError: invalid digit found in string";
    let prefixed = raise(message, 81, 13);
    assert_eq!(
        "custom-error: core::num::error::ParseIntError: invalid digit found in string at tests(81)",
        prefixed.describe(&prefixed.error().prefixed_message()).as_str().trim()
    );
    let full = ErrorWrapper::new_full_path(CustomMessageError::new(message.to_string()), FILE, 110, 13);
    assert_eq!(
        "core::num::error::ParseIntError: invalid digit found in string at src/rhrl/stdx/ylong_one_error/tests/tests.rs(110/13)",
        full.describe(full.error().message()).as_str().trim()
    );
    let full = ErrorWrapper::new_full_path(CustomMessageError::new(message.to_string()), FILE, 81, 13);
    assert_eq!(
        "custom-error: core::num::error::ParseIntError: invalid digit found in string at src/rhrl/stdx/ylong_one_error/tests/tests.rs(81/13)",
        full.describe(&full.error().prefixed_message()).as_str().trim()
    );
}

#[test]
fn tests_test_parse_error() {
    fn biz_code(value: &str) -> Result<i32, ErrorWrapper<ParseIntError>> {
        match value.parse::<i32>() {
            Ok(num) => Ok(num + 10),
            Err(e) => Err(ErrorWrapper::new(e, FILE, 188, 23)),
        }
    }

    assert_eq!(21, biz_code("11").unwrap());
    let error = biz_code("abc").err();
    let target_kind = &IntErrorKind::InvalidDigit;
    let is_my_error = matches!(&error, Some(e) if e.error().kind() == target_kind);
    assert!(is_my_error);
    let error = biz_code("abc").err().unwrap();
    assert_eq!(
        "invalid digit found in string at tests(188)",
        error.format(&error.error().to_string(), "ParseInt")
    );

    let err = "abc".parse::<i32>().err().unwrap();
    let prefixed = ErrorWrapper::new(err.clone(), FILE, 139, 23);
    assert_eq!(
        "parseint-error: invalid digit found in string at tests(139)",
        prefixed.prefixed_format(&prefixed.error().to_string(), "ParseInt")
    );
    assert_eq!(
        "convertint-error: invalid digit found in string at tests(139)",
        prefixed.prefixed_format(&prefixed.error().to_string(), "ConvertInt")
    );
    let full = ErrorWrapper::new_full_path(err.clone(), FILE, 188, 23);
    assert_eq!(
        "invalid digit found in string at src/rhrl/stdx/ylong_one_error/tests/tests.rs(188/23)",
        full.format(&full.error().to_string(), "ParseInt")
    );
    let full = ErrorWrapper::new_full_path(err, FILE, 139, 23);
    assert_eq!(
        "parseint-error: invalid digit found in string at src/rhrl/stdx/ylong_one_error/tests/tests.rs(139/23)",
        full.prefixed_format(&full.error().to_string(), "ParseInt")
    );
}

#[test]
fn error_location_forms() {
    assert_eq!(raise("m", 7, 1).location(), "tests(7)");
    assert_eq!(raise("m", 7, 1).describe("m"), "m at tests(7)");
    let bare = ErrorWrapper::new(CustomMessageError::new("x".to_string()), "main.rs", 12, 3);
    assert_eq!(bare.location(), "main.rs(12)");
    let no_dot = ErrorWrapper::new(CustomMessageError::new("x".to_string()), "src/Makefile", 0, 3);
    assert_eq!(no_dot.location(), "Makefile(0)");
    let many = ErrorWrapper::new(CustomMessageError::new("x".to_string()), "a/b.c/lib.tar.gz", 4294967295, 0);
    assert_eq!(many.location(), "lib.tar(4294967295)");
}

#[test]
fn error_location_needs_a_cuttable_name() {
    use_can_locate();
}

fn use_can_locate() {
    assert!(ylong::one_error::can_locate("src/lib.rs"));
    assert!(ylong::one_error::can_locate("Makefile"));
    assert!(ylong::one_error::can_locate("dir/Makefile"));
    assert!(!ylong::one_error::can_locate("a.b/c"));
}

#[test]
fn error_prefixed_texts() {
    let e = ErrorWrapper::new(CustomMessageError::new("boom".to_string()), "src/main.rs", 9, 1);
    assert_eq!(
        e.prefixed_format("bad digit", "ParseInt"),
        "parseint-error: bad digit at main(9)"
    );
    assert_eq!(e.error().prefixed_message(), "custom-error: boom");
}
