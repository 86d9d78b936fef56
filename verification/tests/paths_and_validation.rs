use java_detector::{
    clean_java_path, command_output_text, determine_java_home, java_info_from_version_run,
    path_extension,
    extract_java_home_from_executable_path, find_java_executable, is_java_executable,
    java_executable_candidates, java_info_from_version_output, Bitness, JavaError, JavaInfo,
    Platform,
};

#[test]
fn java_home_of_executable_in_bin() {
    assert_eq!(determine_java_home("/usr/lib/jvm/jdk-17/bin/java"), "/usr/lib/jvm/jdk-17");
    assert_eq!(determine_java_home("/bin/java"), "/");
}

#[test]
fn java_home_of_executable_outside_bin_is_its_directory() {
    assert_eq!(determine_java_home("/opt/jdk/java"), "/opt/jdk");
    assert_eq!(determine_java_home("java"), "");
}

#[test]
fn java_home_of_root_is_the_path_itself() {
    assert_eq!(determine_java_home("/"), "/");
}

#[test]
fn bin_home_extraction() {
    assert_eq!(extract_java_home_from_executable_path("/usr/bin/java"), Some("/usr".to_string()));
    assert_eq!(extract_java_home_from_executable_path("bin/java"), Some(String::new()));
    assert_eq!(extract_java_home_from_executable_path("/opt/java"), None);
    assert_eq!(extract_java_home_from_executable_path("/"), None);
}

#[test]
fn both_home_inferences_agree_in_bin() {
    for exe in ["/usr/bin/java", "/opt/jdk-21/bin/java", "bin/java", "/bin/java"] {
        let extracted = extract_java_home_from_executable_path(exe).unwrap();
        assert_eq!(determine_java_home(exe), extracted);
    }
}

#[test]
fn unix_executable_names() {
    assert!(is_java_executable(Platform::Other, "/usr/bin/java"));
    assert!(is_java_executable(Platform::MacOs, "java"));
    assert!(!is_java_executable(Platform::Other, "/usr/bin/javac"));
    assert!(!is_java_executable(Platform::Other, "/usr/bin/Java"));
    assert!(!is_java_executable(Platform::Other, "/usr/bin/java.exe"));
}

#[test]
fn windows_executable_names() {
    assert!(is_java_executable(Platform::Windows, "/jdk/bin/java.exe"));
    assert!(is_java_executable(Platform::Windows, "/jdk/bin/JavaW.EXE"));
    assert!(is_java_executable(Platform::Windows, "/jdk/bin/javac.exe"));
    assert!(!is_java_executable(Platform::Windows, "/jdk/bin/java"));
    assert!(!is_java_executable(Platform::Windows, "/jdk/bin/jre.exe"));
    assert!(!is_java_executable(Platform::Windows, "/jdk/bin/java.exe2"));
}

#[test]
fn executable_candidates_below_a_directory() {
    assert_eq!(
        java_executable_candidates(Platform::Other, "/opt/jdk"),
        vec!["/opt/jdk/bin/java".to_string(), "/opt/jdk/java".to_string()]
    );
    assert_eq!(
        java_executable_candidates(Platform::Windows, "/opt/jdk"),
        vec![
            "/opt/jdk/bin/java.exe".to_string(),
            "/opt/jdk/java.exe".to_string(),
            "/opt/jdk/javaw.exe".to_string()
        ]
    );
}

#[test]
fn find_accepts_an_executable_file() {
    assert_eq!(
        find_java_executable(Platform::Other, "/usr/bin/java", true, &vec![false, false]),
        Ok("/usr/bin/java".to_string())
    );
}

#[test]
fn find_refuses_a_file_that_is_not_java() {
    assert_eq!(
        find_java_executable(Platform::Other, "/usr/bin/python", true, &vec![true, true]),
        Err(JavaError::NotJavaExecutable)
    );
}

#[test]
fn find_takes_the_first_present_candidate() {
    assert_eq!(
        find_java_executable(Platform::Other, "/opt/jdk", false, &vec![false, true]),
        Ok("/opt/jdk/java".to_string())
    );
    assert_eq!(
        find_java_executable(Platform::Other, "/opt/jdk", false, &vec![true, true]),
        Ok("/opt/jdk/bin/java".to_string())
    );
    assert_eq!(
        find_java_executable(Platform::Windows, "/opt/jdk", false, &vec![false, false, true]),
        Ok("/opt/jdk/javaw.exe".to_string())
    );
}

#[test]
fn find_reports_a_directory_without_java() {
    assert_eq!(
        find_java_executable(Platform::Other, "/opt/jdk", false, &vec![false, false]),
        Err(JavaError::ExecutableNotFound("/opt/jdk".to_string()))
    );
}

#[test]
fn clean_path_trims_white_space() {
    assert_eq!(clean_java_path("  /opt/jdk \n"), Ok("/opt/jdk".to_string()));
    assert_eq!(clean_java_path("\u{3000}x y\u{a0}"), Ok("x y".to_string()));
    assert_eq!(clean_java_path("/opt/jdk"), Ok("/opt/jdk".to_string()));
}

#[test]
fn clean_path_refuses_blank_paths() {
    assert_eq!(clean_java_path(""), Err(JavaError::EmptyPath));
    assert_eq!(clean_java_path(" \t\r\n"), Err(JavaError::EmptyPath));
}

#[test]
fn windows_extension_rules() {
    assert!(!is_java_executable(Platform::Windows, "/jdk/bin/.exe"));
    assert!(!is_java_executable(Platform::Windows, "/jdk/bin/java."));
    assert!(is_java_executable(Platform::Windows, "/jdk/bin/java.old.exe"));
    assert!(is_java_executable(Platform::Windows, "/jdk/bin/java.exe/"));
}

#[test]
fn cleaning_a_cleaned_path_changes_nothing() {
    for p in ["  /opt/jdk \n", "\t", "x", " a b "] {
        let once = clean_java_path(p);
        match &once {
            Ok(t) => assert_eq!(clean_java_path(t), once),
            Err(_) => assert_eq!(clean_java_path(p.trim()), Err(JavaError::EmptyPath)),
        }
    }
}

#[test]
fn command_output_of_a_successful_command_is_stdout() {
    assert_eq!(
        command_output_text(Platform::Other, "which", &["-a", "java"], true, "out".to_string(), "err".to_string()),
        Ok("out".to_string())
    );
}

#[test]
fn version_query_reports_on_stderr() {
    assert_eq!(
        command_output_text(Platform::Other, "/usr/bin/java", &["-version"], false, "out".to_string(), "err".to_string()),
        Ok("err".to_string())
    );
    assert_eq!(
        command_output_text(Platform::Other, "/usr/bin/java", &["-version"], true, String::new(), "err".to_string()),
        Ok("err".to_string())
    );
    assert_eq!(
        command_output_text(Platform::Windows, "C:/jdk/bin/java.exe", &["-version"], true, String::new(), "e".to_string()),
        Ok("e".to_string())
    );
}

#[test]
fn successful_version_query_validates() {
    let stderr = "openjdk version \"21\" 2023-09-19\nOpenJDK 64-Bit Server VM (build 21+35)\n";
    let text = command_output_text(Platform::Other, "/opt/jdk-21/bin/java", &["-version"], true, String::new(), stderr.to_string())
        .unwrap();
    let info = java_info_from_version_output("/opt/jdk-21/bin/java", &text).unwrap();
    assert_eq!(info.major_version, 21);
    assert_eq!(info.home_path, "/opt/jdk-21");
    assert!(info.is_64bit);
    assert!(info.check_consistency());
}

#[test]
fn failed_command_carries_stderr() {
    assert_eq!(
        command_output_text(Platform::Other, "which", &["-a", "java"], false, "out".to_string(), "err".to_string()),
        Err(JavaError::CommandFailed("err".to_string()))
    );
    assert_eq!(
        command_output_text(Platform::Other, "/usr/bin/java", &["-version", "x"], false, String::new(), "e".to_string()),
        Err(JavaError::CommandFailed("e".to_string()))
    );
    assert_eq!(
        command_output_text(Platform::Other, "javac", &["-version"], false, String::new(), "e".to_string()),
        Err(JavaError::CommandFailed("e".to_string()))
    );
}

#[test]
fn version_output_becomes_installation() {
    let out = "openjdk version \"17.0.9\" 2023-10-17\nOpenJDK 64-Bit Server VM\n";
    assert_eq!(
        java_info_from_version_output("/opt/jdk-17/bin/java", out),
        Ok(JavaInfo {
            home_path: "/opt/jdk-17".to_string(),
            major_version: 17,
            is_64bit: true,
            bitness: Bitness::Bit64,
            full_version: "17.0.9".to_string(),
        })
    );
}

#[test]
fn installation_without_bitness_is_not_64bit() {
    let info = java_info_from_version_output("/opt/j/java", "java version \"1.8.0_5\"").unwrap();
    assert_eq!(info.home_path, "/opt/j");
    assert_eq!(info.major_version, 8);
    assert_eq!(info.bitness, Bitness::Unknown);
    assert!(!info.is_64bit);
}

#[test]
fn unreadable_version_is_refused() {
    assert_eq!(
        java_info_from_version_output("/opt/jdk/bin/java", "Error: could not start\n"),
        Err(JavaError::VersionUnreadable)
    );
}

#[test]
fn windows_launchers_report_on_stderr() {
    for exe in ["C:/jdk/bin/javaw.exe", "C:/jdk/bin/JAVA.EXE", "C:/jdk/bin/java.exe"] {
        assert_eq!(
            command_output_text(Platform::Windows, exe, &["-version"], true, String::new(), "e".to_string()),
            Ok("e".to_string())
        );
    }
    assert_eq!(
        command_output_text(Platform::Other, "/usr/bin/javaw", &["-version"], true, "o".to_string(), "e".to_string()),
        Ok("o".to_string())
    );
}

#[test]
fn found_executable_validates_from_its_stderr() {
    let report = "java version \"1.8.0_391\"\nJava HotSpot(TM) 64-Bit Server VM\n";
    let found = find_java_executable(Platform::Windows, "/opt/jre", false, &vec![false, false, true]).unwrap();
    assert_eq!(found, "/opt/jre/javaw.exe");
    let info = java_info_from_version_run(Platform::Windows, &found, true, String::new(), report.to_string()).unwrap();
    assert_eq!(info.major_version, 8);
    assert_eq!(info.home_path, "/opt/jre");
    assert_eq!(info.full_version, "1.8.0_391");
    assert!(info.is_64bit);
}

#[test]
fn version_run_of_other_commands() {
    assert_eq!(
        java_info_from_version_run(Platform::Other, "/opt/x/bin/javac", false, String::new(), "e".to_string()),
        Err(JavaError::CommandFailed("e".to_string()))
    );
    assert_eq!(
        java_info_from_version_run(Platform::Other, "/opt/x/bin/java", true, String::new(), "oops".to_string()),
        Err(JavaError::VersionUnreadable)
    );
}

#[test]
fn extensions() {
    assert_eq!(path_extension("/a/b.exe"), Some("exe".to_string()));
    assert_eq!(path_extension("/a/b.tar.gz"), Some("gz".to_string()));
    assert_eq!(path_extension("/a/b."), Some(String::new()));
    assert_eq!(path_extension("/a/.bashrc"), None);
    assert_eq!(path_extension("/a/..x"), Some("x".to_string()));
    assert_eq!(path_extension("/a/b"), None);
    assert_eq!(path_extension("/"), None);
}
