use java_detector::{
    get_all_java_installations, get_common_java_dirs, get_java_search_command,
    java_home_from_listing_line, java_homes_from_listing, java_homes_from_search_output,
    refresh_java_cache, registry_java_locations, Bitness, CacheLookup, InstallationMap, JavaCache,
    JavaInfo, Platform, RegistryHive,
};

fn info(home: &str, major: u16) -> JavaInfo {
    JavaInfo {
        home_path: home.to_string(),
        major_version: major,
        is_64bit: true,
        bitness: Bitness::Bit64,
        full_version: format!("{}.0.1", major),
    }
}

#[test]
fn search_commands() {
    let (cmd, args) = get_java_search_command(Platform::Windows);
    assert_eq!(cmd, "where");
    assert_eq!(args, vec!["java.exe"]);
    let (cmd, args) = get_java_search_command(Platform::Other);
    assert_eq!(cmd, "which");
    assert_eq!(args, vec!["-a", "java"]);
    assert_eq!(get_java_search_command(Platform::MacOs).0, "which");
}

#[test]
fn common_dirs_per_platform() {
    assert_eq!(
        get_common_java_dirs(Platform::Windows, Some("/data".to_string()), Some("/h".to_string())),
        vec![
            "C:\\Program Files\\Java".to_string(),
            "C:\\Program Files (x86)\\Java".to_string(),
            "/data/Java".to_string()
        ]
    );
    assert_eq!(get_common_java_dirs(Platform::Windows, None, None).len(), 2);
    assert_eq!(
        get_common_java_dirs(Platform::MacOs, None, Some("/Users/me".to_string())),
        vec![
            "/Library/Java/JavaVirtualMachines".to_string(),
            "/System/Library/Java/JavaVirtualMachines".to_string(),
            "/Users/me/Library/Java/JavaVirtualMachines".to_string()
        ]
    );
    assert!(get_common_java_dirs(Platform::Other, Some("/d".to_string()), Some("/h".to_string())).is_empty());
}

#[test]
fn homes_from_search_listing() {
    let out = "/usr/bin/java\n  /opt/jdk-21/bin/java  \r\n\n   \n/usr/local/java\n";
    assert_eq!(
        java_homes_from_search_output(out),
        vec!["/usr".to_string(), "/opt/jdk-21".to_string()]
    );
    assert!(java_homes_from_search_output("").is_empty());
}

#[test]
fn home_from_java_home_listing_line() {
    assert_eq!(
        java_home_from_listing_line(
            "    17.0.9 (x86_64) \"Oracle\" /Library/Java/JavaVirtualMachines/jdk-17.jdk/Contents/Home (default)"
        ),
        Some("/Library/Java/JavaVirtualMachines/jdk-17.jdk/Contents/Home".to_string())
    );
    assert_eq!(
        java_home_from_listing_line("/Library/Java/JavaVirtualMachines/jdk-17.jdk/Contents/Home"),
        None
    );
    assert_eq!(java_home_from_listing_line("/usr/lib/jvm/java-17 x"), None);
}

#[test]
fn homes_from_java_home_listing() {
    let out = "Matching Java Virtual Machines (2):\n    21 (arm64) /Library/Java/JavaVirtualMachines/a.jdk/Contents/Home \n    17 (arm64) /Library/Java/JavaVirtualMachines/b.jdk/Contents/Home\n";
    assert_eq!(
        java_homes_from_listing(out),
        vec!["/Library/Java/JavaVirtualMachines/a.jdk/Contents/Home".to_string()]
    );
}

#[test]
fn registry_keys() {
    let locs = registry_java_locations();
    assert_eq!(locs.len(), 6);
    assert_eq!(locs[0], (RegistryHive::LocalMachine, "SOFTWARE\\JavaSoft\\Java Runtime Environment"));
    assert_eq!(locs[3], (RegistryHive::LocalMachine, "SOFTWARE\\Wow6432Node\\JavaSoft\\Java Development Kit"));
    assert_eq!(locs[5], (RegistryHive::CurrentUser, "SOFTWARE\\JavaSoft\\Java Development Kit"));
}

#[test]
fn map_insert_then_get() {
    let mut m = InstallationMap::new();
    assert!(m.is_empty());
    assert_eq!(m.insert("/a".to_string(), info("/a", 8)), None);
    assert_eq!(m.insert("/b".to_string(), info("/b", 17)), None);
    assert_eq!(m.get("/a"), Some(info("/a", 8)));
    assert_eq!(m.get("/c"), None);
    assert!(m.contains_key("/b"));
    assert!(!m.contains_key("/c"));
    assert_eq!(m.len(), 2);
}

#[test]
fn map_insert_replaces_in_place() {
    let mut m = InstallationMap::new();
    m.insert("/a".to_string(), info("/a", 8));
    m.insert("/b".to_string(), info("/b", 17));
    assert_eq!(m.insert("/a".to_string(), info("/a", 11)), Some(info("/a", 8)));
    assert_eq!(m.len(), 2);
    assert_eq!(m.values(), vec![info("/a", 11), info("/b", 17)]);
    assert_eq!(m.get("/b"), Some(info("/b", 17)));
}

#[test]
fn map_insert_if_absent_keeps_first() {
    let mut m = InstallationMap::new();
    assert!(m.insert_if_absent("/a".to_string(), info("/a", 8)));
    assert!(!m.insert_if_absent("/a".to_string(), info("/a", 21)));
    assert_eq!(m.get("/a"), Some(info("/a", 8)));
    assert_eq!(m.len(), 1);
    let entries = m.to_entries();
    assert_eq!(entries, vec![("/a".to_string(), info("/a", 8))]);
}

#[test]
fn empty_cache_asks_for_a_scan() {
    let cache = JavaCache::new();
    assert!(matches!(get_all_java_installations(&cache), CacheLookup::ScanNeeded));
}

#[test]
fn refreshed_cache_answers_with_the_scan() {
    let mut cache = JavaCache::new();
    let mut scan = InstallationMap::new();
    scan.insert("/a".to_string(), info("/a", 8));
    scan.insert("/b".to_string(), info("/b", 21));
    let fresh = refresh_java_cache(&mut cache, scan);
    assert_eq!(fresh, vec![info("/a", 8), info("/b", 21)]);
    match get_all_java_installations(&cache) {
        CacheLookup::Cached(v) => assert_eq!(v, fresh),
        CacheLookup::ScanNeeded => panic!("cache should hold the scan"),
    }
}

#[test]
fn refresh_replaces_the_cache() {
    let mut cache = JavaCache::new();
    let mut first = InstallationMap::new();
    first.insert("/a".to_string(), info("/a", 8));
    refresh_java_cache(&mut cache, first);
    let mut second = InstallationMap::new();
    second.insert("/b".to_string(), info("/b", 17));
    assert_eq!(refresh_java_cache(&mut cache, second), vec![info("/b", 17)]);
    match get_all_java_installations(&cache) {
        CacheLookup::Cached(v) => assert_eq!(v, vec![info("/b", 17)]),
        CacheLookup::ScanNeeded => panic!("cache should hold the second scan"),
    }
    assert!(refresh_java_cache(&mut cache, InstallationMap::new()).is_empty());
    assert!(matches!(get_all_java_installations(&cache), CacheLookup::ScanNeeded));
}

#[test]
fn consistency_of_installations() {
    assert!(info("/a", 8).check_consistency());
    let mut zero = info("/a", 8);
    zero.major_version = 0;
    assert!(!zero.check_consistency());
    let mut mismatched = info("/a", 8);
    mismatched.bitness = Bitness::Bit32;
    assert!(!mismatched.check_consistency());
}

#[test]
fn recording_validation_results() {
    let mut m = InstallationMap::new();
    assert!(m.record_validated("/a".to_string(), Some(info("/a", 8))));
    assert!(!m.record_validated("/a".to_string(), Some(info("/a", 21))));
    assert!(!m.record_validated("/b".to_string(), None));
    let mut bad = info("/c", 8);
    bad.major_version = 0;
    assert!(!m.record_validated("/c".to_string(), Some(bad)));
    assert_eq!(m.to_entries(), vec![("/a".to_string(), info("/a", 8))]);
}
