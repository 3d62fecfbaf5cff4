use jolang::chars::{is_alphabetic, is_whitespace};
use jolang::compiler_error::{CompilerError, CompilerErrorKind};
use jolang::ffi::{pow, randint, std_externs};
use jolang::numbers::{i64_to_dec, parse_i128, u64_to_dec};
use jolang::platform::{exit_code, unsupported_message, UnsupportedPlatform};

#[test]
fn numbers_parse_i128() {
    assert_eq!(parse_i128("0"), Some(0));
    assert_eq!(parse_i128("1234"), Some(1234));
    assert_eq!(parse_i128("-42"), Some(-42));
    assert_eq!(parse_i128("+7"), Some(7));
    assert_eq!(parse_i128("-170141183460469231731687303715884105728"), Some(i128::MIN));
    assert_eq!(parse_i128("170141183460469231731687303715884105727"), Some(i128::MAX));
    assert_eq!(parse_i128("170141183460469231731687303715884105728"), None);
    assert_eq!(parse_i128(""), None);
    assert_eq!(parse_i128("-"), None);
    assert_eq!(parse_i128("0x1f"), None);
    assert_eq!(parse_i128("12a"), None);
    assert_eq!(parse_i128("99999999999999999999999999999999999999999999"), None);
}

#[test]
fn numbers_decimal() {
    assert_eq!(u64_to_dec(0), "0");
    assert_eq!(u64_to_dec(1207), "1207");
    assert_eq!(u64_to_dec(u64::MAX), u64::MAX.to_string());
    assert_eq!(i64_to_dec(-5), "-5");
    assert_eq!(i64_to_dec(i64::MIN), i64::MIN.to_string());
}

#[test]
fn error_new_and_render() {
    let e = CompilerError::new(CompilerErrorKind::Expected, "Expected : \";\"", "a.jol", "let x = 1", 3, 0, None);
    assert_eq!(e.col_number, 1);
    assert_eq!(
        e.render(),
        "\x1b[91;1mError\x1b[0;1m[Expected]: Expected : \";\"\x1b[0;0m\n  \x1b[36;1m-->\x1b[0m a.jol:3:1\n    \x1b[36;1m|\n   3|\x1b[0m let x = 1\n    \x1b[36;1m| \x1b[91m^~~~\n\x1b[0m"
    );
    let e = CompilerError::new(CompilerErrorKind::UnknownFunction, "no", "b.jol", "f()", 12345, 3, Some(("declare it", "fn f()")));
    let r = e.render();
    assert!(r.contains("b.jol:12345:3"));
    assert!(r.contains("\n12345|\x1b[0m f()\n"));
    assert!(r.contains("\x1b[91m  ^~~~"));
    assert!(r.ends_with("\x1b[92;1mhelp\x1b[0m: declare it\n    \x1b[36;1m|\n12345| fn f()\n    |\x1b[0m\n"));
}

#[test]
fn ffi_builtins() {
    let fs = std_externs();
    let names: Vec<&str> = fs.iter().map(|f| f.0.as_str()).collect();
    assert_eq!(names, vec!["print", "input", "pow", "randint"]);
    assert_eq!(fs[0].1.to_string(), "void/i64");
    assert_eq!(fs[1].1.to_string(), "i64");
    assert_eq!(fs[2].1.to_string(), "i64/i64/i64");
    for _ in 0..100 {
        let r = randint(-3, 4);
        assert!(-3 <= r && r < 4);
    }
    assert_eq!(randint(5, 6), 5);
    assert_eq!(randint(7, 7), 7);
}

#[test]
fn platform_message() {
    assert!(UnsupportedPlatform::message().starts_with("unsupported platform : "));
    assert!(UnsupportedPlatform::message().len() > "unsupported platform : ".len());
    assert_eq!(unsupported_message("x86_64-pc-windows-msvc"), "unsupported platform : x86_64-pc-windows-msvc");
}

#[test]
fn platform_exit_code() {
    assert_eq!(exit_code(3), 3);
    assert_eq!(exit_code(-7), -7);
    assert_eq!(exit_code(i64::MAX), i32::MAX);
    assert_eq!(exit_code(i32::MAX as i64), i32::MAX);
    assert_eq!(exit_code(i64::MIN), i32::MIN);
}

#[test]
fn ffi_pow() {
    assert_eq!(pow(2, 10), 1024);
    assert_eq!(pow(3, 0), 1);
    assert_eq!(pow(-2, 63), i64::MIN);
    assert_eq!(pow(-3, 3), -27);
    assert_eq!(pow(0, 5), 0);
    assert_eq!(pow(-1, 7), -1);
    // the exponent is taken as a u32
    assert_eq!(pow(5, (1i64 << 32) + 2), 25);
}

#[test]
fn chars_documented_classes() {
    assert!(is_whitespace(' '));
    assert!(is_whitespace('\n'));
    assert!(is_whitespace('\u{A0}'));
    assert!(!is_whitespace('\u{8D8A}'));
    assert!(is_alphabetic('a'));
    assert!(is_alphabetic('\u{4EAC}'));
    assert!(!is_alphabetic('\u{1F49D}'));
}
