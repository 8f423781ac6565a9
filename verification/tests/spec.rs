//! Tool spec parsing tests.

use std::str::FromStr;

use wanted::cli::spec::{parse_name, ToolSpec, ToolSpecError};
use wanted::fs_path::{DirName, Platform};
use wanted::{Error, Version};

#[test]
fn test_pinned_name_and_version() {
    let spec = ToolSpec::from_str("go@1.22.5").unwrap();
    assert_eq!(spec.name().as_str(), "go");
    assert_eq!(spec.version(), &Version::parse("1.22.5").unwrap());
}

#[test]
fn test_bare_name_defaults_to_latest() {
    let spec = ToolSpec::from_str("go").unwrap();
    assert_eq!(spec.name().as_str(), "go");
    assert_eq!(spec.version(), &Version::Latest);
}

#[test]
fn test_whitespace_is_trimmed() {
    let spec = ToolSpec::from_str("  go@1.2.0  ").unwrap();
    assert_eq!(spec.name().as_str(), "go");
    assert_eq!(spec.version(), &Version::parse("1.2.0").unwrap());
}

#[test]
fn test_empty_spec_is_rejected() {
    assert_eq!(ToolSpec::from_str(""), Err(ToolSpecError::Empty));
}

#[test]
fn test_multi_version_spec_is_rejected() {
    assert!(matches!(
        ToolSpec::from_str("go@1@2"),
        Err(ToolSpecError::InvalidVersion { .. })
    ));
}

#[test]
fn test_non_semver_version_is_rejected() {
    assert!(matches!(
        ToolSpec::from_str("go@banana"),
        Err(ToolSpecError::InvalidVersion { .. })
    ));
}

#[test]
fn test_missing_name_is_rejected() {
    assert_eq!(
        ToolSpec::from_str("@1.22.0"),
        Err(ToolSpecError::MissingName {
            raw: "@1.22.0".into()
        })
    );
}

#[test]
fn test_missing_version_is_rejected() {
    assert!(matches!(
        ToolSpec::from_str("go@"),
        Err(ToolSpecError::InvalidVersion { .. })
    ));
}

#[test]
fn test_display_round_trips_with_at() {
    let spec = ToolSpec::from_str("go@1.22.5").unwrap();
    assert_eq!(spec.text(), "go@1.22.5");
}

#[test]
fn bad_names_are_rejected() {
    assert_eq!(
        ToolSpec::parse("a/b"),
        Err(ToolSpecError::InvalidName { raw: "a/b".into() })
    );
    assert!(parse_name("..").is_err());
    assert_eq!(parse_name("go").unwrap().as_str(), "go");
    assert_eq!(
        ToolSpecError::Empty.message(),
        "tool spec must not be empty"
    );
}

#[test]
fn windows_directory_rules() {
    let detail = |name: &str| match DirName::on(name.to_string(), Platform::Windows) {
        Err(Error::InvalidName { detail, .. }) => detail,
        other => panic!("expected a rejection of {name}, got {:?}", other),
    };
    assert_eq!(detail("a:b"), "contains a character not allowed in a Windows directory name");
    assert_eq!(detail("tool."), "ends in a '.' or space, which Windows reserves");
    assert_eq!(detail("tool "), "ends in a '.' or space, which Windows reserves");
    assert_eq!(detail("CON"), "is a Windows reserved device name");
    assert_eq!(detail("COM1"), "is a Windows reserved device name");
    assert_eq!(detail("NUL7"), "is a Windows reserved device name");
    assert!(DirName::on("COM".to_string(), Platform::Windows).is_ok());
    assert!(DirName::on("CONFIG".to_string(), Platform::Windows).is_ok());
    assert!(DirName::on("a:b".to_string(), Platform::Posix).is_ok());
    assert!(DirName::new("CON".to_string()).is_ok());
    assert!(matches!(
        ToolSpec::parse_on("a<b@1.0.0", Platform::Windows),
        Err(ToolSpecError::InvalidName { .. })
    ));
}

#[test]
fn spec_errors_quote_the_raw_text_as_debug() {
    let e = ToolSpecError::InvalidName { raw: "a\"b".to_string() };
    assert_eq!(e.message(), "tool name is not usable as a directory segment: \"a\\\"b\"");
    let e = ToolSpecError::MissingName { raw: "@1.0.0".to_string() };
    assert_eq!(e.message(), format!("missing tool name before '@' in {:?}", "@1.0.0"));
}
