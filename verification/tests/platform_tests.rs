use puller::forem::ForemInstance;
use puller::platform::Platform;

#[test]
fn test_display_devto() {
    assert_eq!(Platform::Forem(ForemInstance::DevTo).as_str(), "devto");
}

#[test]
fn test_display_vibe() {
    assert_eq!(Platform::Forem(ForemInstance::Vibe).as_str(), "forem:vibe");
}

#[test]
fn test_display_custom() {
    let platform = Platform::Forem(ForemInstance::Custom {
        domain: "example.com".to_string(),
    });
    assert_eq!(platform.as_str(), "forem:custom:example.com");
}

#[test]
fn test_from_str_devto() {
    assert_eq!(
        "devto".parse::<Platform>().unwrap(),
        Platform::Forem(ForemInstance::DevTo)
    );
}

#[test]
fn test_from_str_devto_alias() {
    assert_eq!(
        "dev.to".parse::<Platform>().unwrap(),
        Platform::Forem(ForemInstance::DevTo)
    );
    assert_eq!(
        "dev".parse::<Platform>().unwrap(),
        Platform::Forem(ForemInstance::DevTo)
    );
}

#[test]
fn test_from_str_vibeforem_variations() {
    assert_eq!(
        "vibeforem".parse::<Platform>().unwrap(),
        Platform::Forem(ForemInstance::Vibe)
    );
    assert_eq!(
        "vibe.forem".parse::<Platform>().unwrap(),
        Platform::Forem(ForemInstance::Vibe)
    );
    assert_eq!(
        "vibe".parse::<Platform>().unwrap(),
        Platform::Forem(ForemInstance::Vibe)
    );
}

#[test]
fn test_from_str_forem_prefix() {
    assert_eq!(
        "forem:vibe".parse::<Platform>().unwrap(),
        Platform::Forem(ForemInstance::Vibe)
    );
    assert_eq!(
        "forem:open".parse::<Platform>().unwrap(),
        Platform::Forem(ForemInstance::Open)
    );
}

#[test]
fn test_from_str_forem_custom() {
    assert_eq!(
        "forem:custom:my-community.forem.com"
            .parse::<Platform>()
            .unwrap(),
        Platform::Forem(ForemInstance::Custom {
            domain: "my-community.forem.com".to_string()
        })
    );
}

#[test]
fn test_from_str_case_insensitive() {
    assert_eq!(
        "DEVTO".parse::<Platform>().unwrap(),
        Platform::Forem(ForemInstance::DevTo)
    );
    assert_eq!(
        "DEV.TO".parse::<Platform>().unwrap(),
        Platform::Forem(ForemInstance::DevTo)
    );
    assert_eq!(
        "FOREM:VIBE".parse::<Platform>().unwrap(),
        Platform::Forem(ForemInstance::Vibe)
    );
}

#[test]
fn test_from_str_unknown_platform() {
    let result = "facebook".parse::<Platform>();
    assert!(result.is_err());
}

#[test]
fn test_platform_equality() {
    assert_eq!(
        Platform::Forem(ForemInstance::DevTo),
        Platform::Forem(ForemInstance::DevTo)
    );
    assert_ne!(
        Platform::Forem(ForemInstance::DevTo),
        Platform::Forem(ForemInstance::Vibe)
    );
}

#[test]
fn test_platform_clone() {
    let p = Platform::Forem(ForemInstance::Vibe);
    let p_clone = p.clone();
    assert_eq!(p, p_clone);
}

#[test]
fn test_as_forem() {
    let devto = Platform::Forem(ForemInstance::DevTo);
    assert_eq!(devto.as_forem(), &ForemInstance::DevTo);
}

#[test]
fn unknown_platform_error_kind() {
    match "facebook".parse::<Platform>() {
        Err(puller::error::PullError::UnsupportedPlatform(m)) => {
            assert_eq!(m, "Unknown Forem instance: facebook");
        }
        other => panic!("{:?}", other),
    }
}
