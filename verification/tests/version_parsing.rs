use java_detector::{get_recommended_java_major_version, parse_java_version_output, Bitness};

const ORACLE_8: &str = "java version \"1.8.0_391\"\nJava(TM) SE Runtime Environment (build 1.8.0_391-b13)\nJava HotSpot(TM) 64-Bit Server VM (build 25.391-b13, mixed mode)\n";
const OPENJDK_17: &str = "openjdk version \"17.0.9\" 2023-10-17\nOpenJDK Runtime Environment Temurin-17.0.9+9 (build 17.0.9+9)\nOpenJDK 64-Bit Server VM Temurin-17.0.9+9 (build 17.0.9+9, mixed mode, sharing)\n";

#[test]
fn old_scheme_reads_number_after_one_dot() {
    let (major, bitness, full) = parse_java_version_output(ORACLE_8);
    assert_eq!(major, 8);
    assert_eq!(bitness, Bitness::Bit64);
    assert_eq!(full, "1.8.0_391");
}

#[test]
fn new_scheme_reads_number_before_first_dot() {
    let (major, bitness, full) = parse_java_version_output(OPENJDK_17);
    assert_eq!(major, 17);
    assert_eq!(bitness, Bitness::Bit64);
    assert_eq!(full, "17.0.9");
}

#[test]
fn empty_output_reports_nothing() {
    assert_eq!(parse_java_version_output(""), (0, Bitness::Unknown, String::new()));
}

#[test]
fn first_line_without_quotes_gives_empty_version() {
    assert_eq!(
        parse_java_version_output("no version here\nsome 32-bit vm\n"),
        (0, Bitness::Bit32, String::new())
    );
}

#[test]
fn single_quote_runs_to_end_of_line() {
    assert_eq!(
        parse_java_version_output("openjdk version \"21\n"),
        (21, Bitness::Unknown, "21".to_string())
    );
}

#[test]
fn version_without_dot_is_its_own_major() {
    let out = "openjdk version \"21\" 2023-09-19\nOpenJDK 64-Bit Server VM (build 21+35, mixed mode, sharing)";
    assert_eq!(parse_java_version_output(out), (21, Bitness::Bit64, "21".to_string()));
    assert_eq!(parse_java_version_output("v \"1\"").0, 1);
    assert_eq!(parse_java_version_output("v \"21-ea\"").0, 0);
}

#[test]
fn old_scheme_without_second_dot_reads_the_rest() {
    let (major, _, full) = parse_java_version_output("java version \"1.8\"");
    assert_eq!(major, 8);
    assert_eq!(full, "1.8");
    assert_eq!(parse_java_version_output("java version \"1.\"").0, 0);
}

#[test]
fn major_that_does_not_fit_is_zero() {
    assert_eq!(parse_java_version_output("v \"70000.1\"").0, 0);
    assert_eq!(parse_java_version_output("v \"65535.1\"").0, 65535);
}

#[test]
fn major_accepts_plus_sign_and_leading_zeros() {
    assert_eq!(parse_java_version_output("v \"+17.0.1\"").0, 17);
    assert_eq!(parse_java_version_output("v \"011.0.2\"").0, 11);
    assert_eq!(parse_java_version_output("v \"-11.0.2\"").0, 0);
    assert_eq!(parse_java_version_output("v \"x11.0.2\"").0, 0);
}

#[test]
fn bitness_ignores_ascii_case() {
    assert_eq!(parse_java_version_output("v \"11.0.2\"\nSomething 64-BIT vm").1, Bitness::Bit64);
    assert_eq!(parse_java_version_output("v \"11.0.2\"\nSomething 32-Bit vm").1, Bitness::Bit32);
}

#[test]
fn first_line_naming_a_bitness_decides() {
    let out = "v \"11.0.2\"\n32-bit here\n64-bit there\n";
    assert_eq!(parse_java_version_output(out).1, Bitness::Bit32);
    let both = "v \"11.0.2\"\n32-bit and 64-bit\n";
    assert_eq!(parse_java_version_output(both).1, Bitness::Bit64);
    let none = "v \"11.0.2\"\nServer VM\n";
    assert_eq!(parse_java_version_output(none).1, Bitness::Unknown);
}

#[test]
fn crlf_lines_are_split() {
    let out = "java version \"1.8.0_202\"\r\nJava HotSpot(TM) 64-Bit Server VM\r\n";
    assert_eq!(
        parse_java_version_output(out),
        (8, Bitness::Bit64, "1.8.0_202".to_string())
    );
}

#[test]
fn bitness_labels() {
    assert_eq!(Bitness::Unknown.to_string(), "Unknown");
    assert_eq!(Bitness::Bit32.to_string(), "32-bit");
    assert_eq!(Bitness::Bit64.to_string(), "64-bit");
}

#[test]
fn recommended_java_for_listed_releases() {
    assert_eq!(get_recommended_java_major_version("1.7.10"), 8);
    assert_eq!(get_recommended_java_major_version("1.8.9"), 8);
    assert_eq!(get_recommended_java_major_version("1.10"), 8);
    assert_eq!(get_recommended_java_major_version("1.12.2"), 8);
    assert_eq!(get_recommended_java_major_version("1.16.5"), 8);
    assert_eq!(get_recommended_java_major_version("1.17.1"), 16);
    assert_eq!(get_recommended_java_major_version("1.18.2"), 17);
    assert_eq!(get_recommended_java_major_version("1.20.1"), 17);
    assert_eq!(get_recommended_java_major_version("1.21"), 21);
    assert_eq!(get_recommended_java_major_version("1.21.4"), 21);
}

#[test]
fn recommended_java_defaults_to_17() {
    assert_eq!(get_recommended_java_major_version(""), 17);
    assert_eq!(get_recommended_java_major_version("1"), 17);
    assert_eq!(get_recommended_java_major_version("1.1"), 17);
    assert_eq!(get_recommended_java_major_version("1.6.4"), 17);
    assert_eq!(get_recommended_java_major_version("1.22"), 17);
    assert_eq!(get_recommended_java_major_version("24w14a"), 17);
    assert_eq!(get_recommended_java_major_version("1.21-pre1"), 17);
}

#[test]
fn patch_number_does_not_change_recommendation() {
    for release in ["1.7", "1.12", "1.17", "1.20", "1.21", "1.5"] {
        for patch in ["", "1", "10", "4.2"] {
            let full = format!("{}.{}", release, patch);
            assert_eq!(
                get_recommended_java_major_version(&full),
                get_recommended_java_major_version(release)
            );
        }
    }
}

#[test]
fn new_and_old_scheme_majors() {
    for d in ["8", "11", "17", "21", "25"] {
        let new_scheme = format!("v \"{}.0.1\"", d);
        let old_scheme = format!("v \"1.{}.0_1\"", d);
        let bare = format!("v \"{}\"", d);
        let expected: u16 = d.parse().unwrap();
        assert_eq!(parse_java_version_output(&new_scheme).0, expected);
        assert_eq!(parse_java_version_output(&old_scheme).0, expected);
        assert_eq!(parse_java_version_output(&bare).0, expected);
    }
}
