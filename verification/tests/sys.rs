use exarare::sys::{failure_message, utf8_locale};

fn var(value: &str) -> Option<String> {
    Some(value.to_string())
}

#[test]
fn recognises_a_utf8_locale() {
    assert!(utf8_locale(&[var("en_US.UTF-8")]));
    assert!(utf8_locale(&[var("ja_JP.utf8")]));
    assert!(utf8_locale(&[var("C.UTF-8")]));
    assert!(!utf8_locale(&[var("C")]));
    assert!(!utf8_locale(&[var("POSIX")]));
    assert!(!utf8_locale(&[None, None, None]));
}

#[test]
fn the_first_variable_that_is_set_decides() {
    assert!(!utf8_locale(&[var("C"), None, var("en_US.UTF-8")]));
    assert!(utf8_locale(&[None, var("en_US.UTF-8"), var("C")]));
    assert!(utf8_locale(&[var("  "), var("en_US.UTF-8")]));
}

#[test]
fn reports_the_first_line_of_stderr() {
    let message = failure_message("sh", &["-c", "echo boom >&2; exit 3"], "  boom  \nmore\n");
    assert_eq!(message, "sh -c echo boom >&2; exit 3 failed: boom");
    assert_eq!(failure_message("rpm", &["-qa"], ""), "rpm -qa failed: no output");
}
