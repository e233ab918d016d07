use hyperlit::error::{ErrorKind, HyperlitError, HyperlitResult, ResultExt};

#[test]
fn test_error_from_file_error() {
    let kind = ErrorKind::FileError { path: "test.txt".to_string(), source: "file not found".to_string() };
    let error = HyperlitError::new(kind);

    match error.kind() {
        ErrorKind::FileError { path: p, .. } => {
            assert_eq!(p, "test.txt");
        }
        _ => panic!("Expected FileError variant"),
    }
}

#[test]
fn test_error_from_message() {
    let kind = ErrorKind::Message { message: "something went wrong".to_string() };
    let error = HyperlitError::new(kind);

    match error.kind() {
        ErrorKind::Message { message } => {
            assert_eq!(message, "something went wrong");
        }
        _ => panic!("Expected Message variant"),
    }
}

#[test]
fn test_error_context_attachment() {
    let kind = ErrorKind::Message { message: "original error".to_string() };
    let error = HyperlitError::new(kind).context("first context").context("second context");

    assert_eq!(error.get_context().len(), 2);
    assert_eq!(error.get_context()[0], "first context");
    assert_eq!(error.get_context()[1], "second context");
}

#[test]
fn test_error_with_context_lazy_evaluation() {
    let kind = ErrorKind::Message { message: "error".to_string() };
    let mut called = false;
    let error = HyperlitError::new(kind).with_context(|| {
        called = true;
        "lazy context".to_string()
    });

    assert!(called);
    assert_eq!(error.get_context()[0], "lazy context");
}

#[test]
fn test_error_display_message_only() {
    let kind = ErrorKind::Message { message: "test message".to_string() };
    let error = HyperlitError::new(kind);
    assert_eq!(error.to_string(), "test message");
}

#[test]
fn test_error_display_with_context() {
    let kind = ErrorKind::Message { message: "test message".to_string() };
    let error = HyperlitError::new(kind).context("operation failed");
    assert_eq!(error.to_string(), "operation failed: test message");
}

#[test]
fn test_error_display_with_multiple_contexts() {
    let kind = ErrorKind::Message { message: "root error".to_string() };
    let error = HyperlitError::new(kind).context("first").context("second").context("third");
    assert_eq!(error.to_string(), "first: second: third: root error");
}

#[test]
fn test_error_display_file_error() {
    let kind = ErrorKind::FileError { path: "/tmp/test.txt".to_string(), source: "not found".to_string() };
    let error = HyperlitError::new(kind);
    let display = error.to_string();
    assert!(display.contains("/tmp/test.txt"));
    assert!(display.contains("not found"));
}

#[test]
fn test_error_display_multiple_errors() {
    let msg1 = HyperlitError::new(ErrorKind::Message { message: "error 1".to_string() });
    let kind = ErrorKind::Multiple { first: Some(Box::new(msg1)), count: 2 };
    let error = HyperlitError::new(kind);
    let display = error.to_string();
    assert!(display.contains("Multiple errors occurred (2 total)"));
    assert_eq!(display, "Multiple errors occurred (2 total): error 1");
}

#[test]
fn test_error_from_impl() {
    let kind = ErrorKind::Message { message: "test".to_string() };
    let error: HyperlitError = kind.into();
    match error.kind() {
        ErrorKind::Message { message } => {
            assert_eq!(message, "test");
        }
        _ => panic!("Expected Message variant"),
    }
}

#[test]
fn test_error_root_cause_message() {
    let kind = ErrorKind::Message { message: "test".to_string() };
    let error = HyperlitError::new(kind);
    let root = error.root_cause();
    // For Message variant with no cause, the root cause is the error itself
    assert_eq!(root.to_string(), "test");
}

#[test]
fn test_result_ext_context_success() {
    let result: HyperlitResult<i32> = Ok(42);
    let final_result = result.context("operation failed");
    assert_eq!(final_result.unwrap(), 42);
}

#[test]
fn test_result_ext_context_error() {
    let result: HyperlitResult<i32> =
        Err(Box::new(HyperlitError::new(ErrorKind::Message { message: "original".to_string() })));
    let final_result = result.context("operation failed");
    assert!(final_result.is_err());
    let err = final_result.unwrap_err();
    assert_eq!(err.to_string(), "operation failed: original");
}

#[test]
fn test_result_ext_with_context_success() {
    let result: HyperlitResult<i32> = Ok(42);
    let final_result = result.with_context(|| "operation failed".to_string());
    assert_eq!(final_result.unwrap(), 42);
}

#[test]
fn test_result_ext_with_context_error() {
    let result: HyperlitResult<i32> =
        Err(Box::new(HyperlitError::new(ErrorKind::Message { message: "original".to_string() })));
    let final_result = result.with_context(|| "lazy context".to_string());
    assert!(final_result.is_err());
    let err = final_result.unwrap_err();
    assert_eq!(err.to_string(), "lazy context: original");
}

#[test]
fn test_result_ext_chaining() {
    let result: HyperlitResult<i32> =
        Err(Box::new(HyperlitError::new(ErrorKind::Message { message: "root".to_string() })));
    let final_result = result.context("step 1").context("step 2").with_context(|| "step 3".to_string());
    assert!(final_result.is_err());
    let err = final_result.unwrap_err();
    assert_eq!(err.to_string(), "step 1: step 2: step 3: root");
}

#[test]
fn test_multiple_errors_count() {
    let first = HyperlitError::new(ErrorKind::Message { message: "error 1".to_string() });
    let kind = ErrorKind::Multiple { first: Some(Box::new(first)), count: 2 };
    let error = HyperlitError::new(kind);
    match error.kind() {
        ErrorKind::Multiple { count, .. } => {
            assert_eq!(count, &2);
        }
        _ => panic!("Expected Multiple variant"),
    }
}

#[test]
fn root_cause_follows_the_chain() {
    let inner = HyperlitError::message("disk full");
    let middle = HyperlitError::message("write failed").caused_by(inner);
    let outer = HyperlitError::message("save failed").context("saving").caused_by(middle);
    assert_eq!(outer.root_cause().to_string(), "disk full");
    assert_eq!(outer.get_cause().unwrap().to_string(), "write failed");
    assert_eq!(outer.to_string(), "saving: save failed");
    assert!(outer.root_cause().get_cause().is_none());
}

#[test]
fn with_context_is_not_called_on_success() {
    let result: HyperlitResult<i32> = Ok(1);
    let mut called = false;
    let r = result.with_context(|| {
        called = true;
        "never".to_string()
    });
    assert_eq!(r.unwrap(), 1);
    assert!(!called);
}

#[test]
fn std_error_kind_displays_its_text() {
    let error = HyperlitError::new(ErrorKind::StdError { error: "invalid digit".to_string() }).context("parsing");
    assert_eq!(error.to_string(), "parsing: invalid digit");
}

#[test]
fn debug_text_lists_contexts() {
    let error = HyperlitError::new(ErrorKind::Message { message: "something went wrong".to_string() })
        .context("during file processing")
        .context("in batch job");
    assert_eq!(
        error.debug_text(),
        "something went wrong\n├─ during file processing\n└─ in batch job\n"
    );
}

#[test]
fn debug_text_nests_causes() {
    let error_1 = HyperlitError::message("error 1").context("context 1");
    let error_2 = HyperlitError::message("error 2").context("context 2").caused_by(error_1);
    let error_3 = HyperlitError::message("error 3").context("context 3").caused_by(error_2);
    assert_eq!(
        error_3.debug_text(),
        "error 3\n├─ context 3\n└─ cause: error 2\n   ├─ context 2\n   └─ cause: error 1\n      └─ context 1\n"
    );
}

#[test]
fn debug_text_of_file_and_multiple_errors() {
    let file = HyperlitError::new(ErrorKind::FileError { path: "a.txt".to_string(), source: "denied".to_string() });
    assert_eq!(file.debug_text(), "FileError: a.txt: denied\n");
    let multiple = HyperlitError::new(ErrorKind::Multiple { first: None, count: 3 }).caused_by(file);
    assert_eq!(multiple.debug_text(), "Multiple errors (3 total)\n└─ cause: FileError: a.txt: denied\n");
}
