use jcm::cli::{ChainTarget, ElevateMode, GlobalOpts};
use jcm::error::JcmError;
use jcm::jvm::{
    build_info, choose_tool, default_cacerts_path, doctor_jvm_report, exe_name,
    is_system_cacerts, java_home_from_settings, jvm_after_cacerts_check, jvm_after_detection,
    join_path_exec, resolve_jvm, same_path, store_pass_for, tool_candidate, JvmStep,
};

fn opts(java_home: Option<&str>, cacerts: Option<&str>) -> GlobalOpts {
    GlobalOpts {
        quiet: false,
        verbose: false,
        java_home: java_home.map(|s| s.to_string()),
        cacerts: cacerts.map(|s| s.to_string()),
        store_pass: None,
        chain: ChainTarget::Root,
        alias_prefix: "jcm-".to_string(),
        elevate: ElevateMode::Auto,
    }
}

#[test]
fn detects_default_cacerts_path() {
    let home = "/opt/jdk";
    let cacerts = default_cacerts_path(home, '/');
    assert!(is_system_cacerts(home, &cacerts, '/', None));
}

#[test]
fn custom_cacerts_is_not_system() {
    let home = "/opt/jdk";
    let cacerts = "/tmp/my-cacerts";
    assert!(!is_system_cacerts(home, cacerts, '/', None));
}

#[test]
fn path_joins_and_equality() {
    assert_eq!(default_cacerts_path("/opt/jdk", '/'), "/opt/jdk/lib/security/cacerts");
    assert_eq!(default_cacerts_path("/opt/jdk/", '/'), "/opt/jdk/lib/security/cacerts");
    assert_eq!(join_path_exec("", "lib", '/'), "lib");
    assert!(same_path("/opt//jdk/./lib/", "/opt/jdk/lib", '/', None));
    assert!(!same_path("opt/jdk", "/opt/jdk", '/', None));
    assert!(!same_path("./a", "a", '/', None));
    assert!(same_path("/a", "/b", '/', Some(("/real", "/real"))));
    assert_eq!(exe_name("java", true), "java.exe");
    assert_eq!(tool_candidate("C:\\jdk", "keytool", true, '\\'), "C:\\jdk\\bin\\keytool.exe");
}

#[test]
fn jvm_resolution_steps() {
    assert!(matches!(resolve_jvm(&opts(None, None), '/'), JvmStep::DetectJavaHome));
    match resolve_jvm(&opts(Some("/jdk"), None), '/') {
        JvmStep::CheckCacerts { java_home, cacerts } => {
            assert_eq!(java_home, "/jdk");
            assert_eq!(cacerts, "/jdk/lib/security/cacerts");
        }
        _ => panic!("expected a cacerts check"),
    }
    match jvm_after_detection(&opts(None, Some("/tmp/c")), None, '/') {
        Ok(JvmStep::LocateTools { java_home, cacerts }) => {
            assert_eq!(java_home, ".");
            assert_eq!(cacerts, "/tmp/c");
        }
        _ => panic!("expected tool lookup"),
    }
    assert!(matches!(jvm_after_detection(&opts(None, None), None, '/'), Err(JcmError::JavaHomeNotDetected)));
    assert!(matches!(
        jvm_after_cacerts_check("/jdk".to_string(), "/jdk/x".to_string(), false),
        Err(JcmError::CacertsNotFound { .. })
    ));
    assert!(matches!(
        build_info("/jdk".into(), "/c".into(), "p".into(), None, Some("k".into()), false),
        Err(JcmError::JavaNotFound)
    ));
    assert!(matches!(
        build_info("/jdk".into(), "/c".into(), "p".into(), Some("j".into()), None, false),
        Err(JcmError::KeytoolNotFound)
    ));
    let info = build_info("/jdk".into(), "/c".into(), "p".into(), Some("j".into()), Some("k".into()), true).unwrap();
    assert_eq!(
        doctor_jvm_report(&info),
        vec!["java.home: /jdk", "cacerts: /c", "keytool target: -cacerts", "java: j", "keytool: k"]
    );
    assert_eq!(choose_tool("/jdk/bin/java".into(), false, Some("/usr/bin/java".into())), Some("/usr/bin/java".to_string()));
    assert_eq!(store_pass_for(&opts(None, None)), "changeit");
}

#[test]
fn java_home_from_settings_output() {
    let stderr = "Property settings:\n    java.class.path = \n    java.home = /usr/lib/jvm/java-21\n    java.version = 21\n";
    assert_eq!(java_home_from_settings(stderr), Some("/usr/lib/jvm/java-21".to_string()));
    assert_eq!(java_home_from_settings("nothing here\n"), None);
}

#[test]
fn forward_slashes_separate_like_the_platform_separator() {
    assert!(jcm::jvm::same_path("C:/jdk/lib/security/cacerts", "C:\\jdk\\lib\\security\\cacerts", '\\', None));
    assert!(jcm::jvm::is_system_cacerts("C:/jdk", "C:/jdk/lib/security/cacerts", '\\', None));
    assert_eq!(jcm::jvm::join_path_exec("C:/jdk/", "lib", '\\'), "C:/jdk/lib");
    assert!(!jcm::jvm::same_path("C:/jdk/a", "C:\\jdk\\b", '\\', None));
}
