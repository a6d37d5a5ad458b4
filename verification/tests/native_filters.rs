use mikmik_tools::output_filter::native::{
    detect, mypy, prettier, pytest, resolve_program, try_filter, tsc, Native,
};
use mikmik_tools::output_filter::native::mypy::MYPY_CLEAN;
use mikmik_tools::output_filter::native::pytest::{parse_summary_line, PYTEST_NO_TESTS};

#[test]
fn detects_bare_commands() {
    assert_eq!(detect("tsc --noEmit"), Some(Native::Tsc));
    assert_eq!(detect("pytest tests/"), Some(Native::Pytest));
    assert_eq!(detect("mypy src/"), Some(Native::Mypy));
    assert_eq!(detect("prettier --check ."), Some(Native::Prettier));
}

#[test]
fn detects_through_runners() {
    assert_eq!(detect("npx tsc"), Some(Native::Tsc));
    assert_eq!(
        detect("pnpm exec prettier --check ."),
        Some(Native::Prettier)
    );
    assert_eq!(detect("yarn run tsc --noEmit"), Some(Native::Tsc));
    assert_eq!(detect("bunx prettier ."), Some(Native::Prettier));
}

#[test]
fn detects_python_module_form() {
    assert_eq!(detect("python -m pytest -q"), Some(Native::Pytest));
    assert_eq!(detect("python3 -m mypy src"), Some(Native::Mypy));
    assert_eq!(detect("py.test tests/"), Some(Native::Pytest));
}

#[test]
fn skips_env_assignments() {
    assert_eq!(detect("CI=1 pytest tests/"), Some(Native::Pytest));
}

#[test]
fn only_first_segment() {
    // A later pipeline stage is not the program that produced the output.
    assert_eq!(detect("cat log | grep tsc"), None);
    assert_eq!(detect("echo pytest"), None);
}

#[test]
fn unknown_command_is_none() {
    assert_eq!(detect("cargo build"), None);
    assert_eq!(detect("ls -la"), None);
    assert!(try_filter("cargo build", "whatever").is_none());
}

#[test]
fn try_filter_runs_the_right_one() {
    let out =
        try_filter("tsc", "Found 0 errors. Watching for file changes.").expect("tsc claimed");
    assert!(out.contains("No errors found"));
}

#[test]
fn errors_grouped_by_file() {
    let output = "\
src/server/auth.py:12: error: Incompatible return value type  [return-value]
src/server/auth.py:15: error: Argument 1 has incompatible type  [arg-type]
src/models/user.py:8: error: Name \"foo\" is not defined  [name-defined]
src/models/user.py:10: error: Incompatible types in assignment  [assignment]
src/models/user.py:20: error: Missing return statement  [return]
Found 5 errors in 2 files (checked 10 source files)
";
    let result = mypy::filter(output);
    assert!(result.contains("mypy: 5 errors in 2 files"));
    let user_pos = result.find("user.py").expect("user.py present");
    let auth_pos = result.find("auth.py").expect("auth.py present");
    assert!(user_pos < auth_pos, "user.py (3) before auth.py (2)");
}

#[test]
fn column_numbers_and_code() {
    let output = "src/api.py:10:5: error: Incompatible return value type  [return-value]\n";
    let result = mypy::filter(output);
    assert!(result.contains("L10:"));
    assert!(result.contains("[return-value]"));
}

#[test]
fn top_codes_when_multiple() {
    let output = "\
a.py:1: error: Error one  [return-value]
a.py:2: error: Error two  [return-value]
a.py:3: error: Error three  [return-value]
b.py:1: error: Error four  [name-defined]
c.py:1: error: Error five  [arg-type]
Found 5 errors in 3 files
";
    let result = mypy::filter(output);
    assert!(result.contains("Top codes:"));
    assert!(result.contains("return-value (3x)"));
}

#[test]
fn single_code_no_summary() {
    let output = "\
a.py:1: error: Error one  [return-value]
b.py:1: error: Error two  [return-value]
";
    let result = mypy::filter(output);
    assert!(!result.contains("Top codes:"));
}

#[test]
fn note_continuation() {
    let output = "\
src/app.py:10: error: Incompatible types in assignment  [assignment]
src/app.py:10: note: Expected type \"int\"
src/app.py:10: note: Got type \"str\"
src/app.py:20: error: Missing return statement  [return]
";
    let result = mypy::filter(output);
    assert!(result.contains("Expected type \"int\""));
    assert!(result.contains("Got type \"str\""));
    assert!(result.contains("L20:"));
}

#[test]
fn fileless_errors_first() {
    let output = "\
mypy: error: No module named 'nonexistent'
src/api.py:10: error: Name \"foo\" is not defined  [name-defined]
Found 1 error in 1 file
";
    let result = mypy::filter(output);
    let fileless_pos = result.find("No module named").expect("fileless present");
    let grouped_pos = result.find("api.py").expect("grouped present");
    assert!(fileless_pos < grouped_pos);
}

#[test]
fn no_issues() {
    let result = mypy::filter("Success: no issues found in 5 source files\n");
    assert_eq!(result, MYPY_CLEAN);
}

#[test]
fn all_formatted() {
    let output = "Checking formatting...\nAll matched files use Prettier code style!";
    let result = prettier::filter(output);
    assert!(result.contains("All files formatted correctly"));
}

#[test]
fn files_need_formatting() {
    let output = "\
Checking formatting...
src/components/ui/button.tsx
src/lib/auth/session.ts
src/pages/dashboard.tsx
Code style issues found in the above file(s). Forgot to run Prettier?";
    let result = prettier::filter(output);
    assert!(result.contains("3 files need formatting"));
    assert!(result.contains("button.tsx"));
    assert!(result.contains("session.ts"));
}

#[test]
fn many_files_collapse() {
    let mut output = String::from("Checking formatting...\n");
    for i in 0..15 {
        output.push_str(&format!("src/file{}.ts\n", i));
    }
    let result = prettier::filter(&output);
    assert!(result.contains("15 files need formatting"));
    assert!(result.contains("... +5 more files"));
}

#[test]
fn empty_output_is_error() {
    assert!(prettier::filter("").contains("Error"));
    assert!(!prettier::filter("").contains("All files formatted"));
}

#[test]
fn whitespace_only_is_error() {
    let result = prettier::filter("   \n\n  ");
    assert!(result.contains("Error"));
}

#[test]
fn all_pass_compact() {
    let output = "\
=== test session starts ===
collected 5 items
tests/test_a.py .....  [100%]
=== 5 passed in 0.50s ===
";
    let result = pytest::filter(output);
    assert_eq!(result, "Pytest: 5 passed");
}

#[test]
fn failures_surfaced() {
    let output = "\
=== test session starts ===
collected 3 items
=== FAILURES ===
___ test_login ___
tests/test_auth.py:12: assert False
=== short test summary info ===
FAILED tests/test_auth.py::test_login - AssertionError
=== 2 passed, 1 failed in 0.30s ===
";
    let result = pytest::filter(output);
    assert!(result.contains("Pytest: 2 passed, 1 failed"));
    assert!(result.contains("test_login"));
}

#[test]
fn quiet_mode_summary() {
    let output = "5 failed, 1698 passed, 2 skipped in 108.89s\n";
    let result = pytest::filter(output);
    assert!(result.contains("1698 passed"));
    assert!(result.contains("5 failed"));
}

#[test]
fn no_tests_collected() {
    let output =
        "=== test session starts ===\ncollected 0 items\n=== no tests ran in 0.01s ===\n";
    let result = pytest::filter(output);
    assert_eq!(result, PYTEST_NO_TESTS);
}

#[test]
fn xpassed_surfaced() {
    let output = "\
=== test session starts ===
collected 4 items
=== short test summary info ===
XPASS tests/test_x.py::test_should_fail
=== 3 passed, 1 xpassed in 0.20s ===
";
    let result = pytest::filter(output);
    assert!(result.contains("xpassed"));
    assert!(result.contains("Expected-failure outcomes"));
}

#[test]
fn many_failures_collapse() {
    let mut output = String::from("=== short test summary info ===\n");
    for i in 0..15 {
        output.push_str(&format!(
            "FAILED tests/test_{}.py::test_it - AssertionError\n",
            i
        ));
    }
    output.push_str("=== 0 passed, 15 failed in 1.00s ===\n");
    let result = pytest::filter(&output);
    assert!(result.contains("15 failed"));
    assert!(result.contains("… +5 more failures"));
}

#[test]
fn groups_errors_by_file() {
    let output = "\
src/server/api/auth.ts(12,5): error TS2322: Type 'string' is not assignable to type 'number'.
src/server/api/auth.ts(15,10): error TS2345: Argument of type 'number' is not assignable to parameter of type 'string'.
src/components/Button.tsx(8,3): error TS2339: Property 'onClick' does not exist on type 'ButtonProps'.
src/components/Button.tsx(10,5): error TS2322: Type 'string' is not assignable to type 'number'.

Found 4 errors in 2 files.
";
    let result = tsc::filter(output);
    assert!(result.contains("TypeScript: 4 errors in 2 files"));
    assert!(result.contains("auth.ts (2 errors)"));
    assert!(result.contains("Button.tsx (2 errors)"));
    assert!(result.contains("TS2322"));
    assert!(!result.contains("Found 4 errors"));
}

#[test]
fn every_error_message_shown() {
    let output = "\
src/api.ts(10,5): error TS2322: Type 'string' is not assignable to type 'number'.
src/api.ts(20,5): error TS2322: Type 'boolean' is not assignable to type 'string'.
src/api.ts(30,5): error TS2322: Type 'null' is not assignable to type 'object'.
";
    let result = tsc::filter(output);
    assert!(result.contains("L10:"));
    assert!(result.contains("L20:"));
    assert!(result.contains("L30:"));
}

#[test]
fn continuation_lines_preserved() {
    let output = "\
src/app.tsx(10,3): error TS2322: Type '{ children: Element; }' is not assignable to type 'Props'.
  Property 'children' does not exist on type 'Props'.
src/app.tsx(20,5): error TS2345: Argument of type 'number' is not assignable to parameter of type 'string'.
";
    let result = tsc::filter(output);
    assert!(result.contains("Property 'children' does not exist on type 'Props'"));
    assert!(result.contains("L10:"));
    assert!(result.contains("L20:"));
}

#[test]
fn no_file_limit() {
    let mut output = String::new();
    for i in 1..=15 {
        output.push_str(&format!(
            "src/file{}.ts({},1): error TS2322: Error in file {}.\n",
            i, i, i
        ));
    }
    let result = tsc::filter(&output);
    assert!(result.contains("15 errors in 15 files"));
    for i in 1..=15 {
        assert!(
            result.contains(&format!("file{}.ts", i)),
            "file{}.ts missing",
            i
        );
    }
}

#[test]
fn no_errors() {
    let result = tsc::filter("Found 0 errors. Watching for file changes.");
    assert!(result.contains("No errors found"));
}

#[test]
fn a_program_is_seen_past_what_starts_it() {
    assert_eq!(resolve_program("FOO=bar npx tsc --noEmit").as_deref(), Some("tsc"));
    assert_eq!(resolve_program("python script.py").as_deref(), Some("python"));
    assert_eq!(resolve_program("python -m"), None);
    assert_eq!(resolve_program(""), None);
}

#[test]
fn a_summary_line_is_counted() {
    let counts = parse_summary_line("=== 2 passed, 1 failed, 3 skipped in 0.30s ===");
    assert_eq!(counts.passed, 2);
    assert_eq!(counts.failed, 1);
    assert_eq!(counts.skipped, 3);
    assert_eq!(counts.xfailed, 0);
    assert_eq!(counts.xpassed, 0);
}

#[test]
fn type_errors_come_out_grouped_and_counted() {
    let out = tsc::filter("src/a.ts(1,2): error TS1: one\nsrc/b.ts(3,4): error TS2: two\nsrc/b.ts(5,6): error TS2: three\n");
    assert!(out.contains("TypeScript: 3 errors in 2 files"), "{out}");
    let b = out.find("b.ts").expect("b.ts is shown");
    let a = out.find("a.ts").expect("a.ts is shown");
    assert!(b < a, "the file with more errors comes first: {out}");
}
