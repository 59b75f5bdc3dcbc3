use puller::forem::ForemInstance;

#[test]
fn test_base_url_devto() {
    assert_eq!(ForemInstance::DevTo.base_url(), "https://dev.to/api");
}

#[test]
fn test_base_url_vibe() {
    assert_eq!(ForemInstance::Vibe.base_url(), "https://vibe.forem.com/api");
}

#[test]
fn test_base_url_custom() {
    let custom = ForemInstance::Custom {
        domain: "my-forem.example.com".to_string(),
    };
    assert_eq!(custom.base_url(), "https://my-forem.example.com/api");
}

#[test]
fn test_from_str_devto_variations() {
    assert_eq!(
        "devto".parse::<ForemInstance>().unwrap(),
        ForemInstance::DevTo
    );
    assert_eq!(
        "dev.to".parse::<ForemInstance>().unwrap(),
        ForemInstance::DevTo
    );
    assert_eq!(
        "dev".parse::<ForemInstance>().unwrap(),
        ForemInstance::DevTo
    );
    assert_eq!(
        "DEVTO".parse::<ForemInstance>().unwrap(),
        ForemInstance::DevTo
    );
}

#[test]
fn test_from_str_vibe_variations() {
    assert_eq!(
        "vibe".parse::<ForemInstance>().unwrap(),
        ForemInstance::Vibe
    );
    assert_eq!(
        "vibeforem".parse::<ForemInstance>().unwrap(),
        ForemInstance::Vibe
    );
    assert_eq!(
        "vibe.forem".parse::<ForemInstance>().unwrap(),
        ForemInstance::Vibe
    );
    assert_eq!(
        "vibe.forem.com".parse::<ForemInstance>().unwrap(),
        ForemInstance::Vibe
    );
}

#[test]
fn test_from_str_all_instances() {
    assert_eq!(
        "open".parse::<ForemInstance>().unwrap(),
        ForemInstance::Open
    );
    assert_eq!(
        "future".parse::<ForemInstance>().unwrap(),
        ForemInstance::Future
    );
    assert_eq!("gg".parse::<ForemInstance>().unwrap(), ForemInstance::Gg);
    assert_eq!(
        "music".parse::<ForemInstance>().unwrap(),
        ForemInstance::Music
    );
    assert_eq!(
        "popcorn".parse::<ForemInstance>().unwrap(),
        ForemInstance::Popcorn
    );
    assert_eq!(
        "design".parse::<ForemInstance>().unwrap(),
        ForemInstance::Design
    );
    assert_eq!(
        "zeroday".parse::<ForemInstance>().unwrap(),
        ForemInstance::Zeroday
    );
    assert_eq!(
        "golf".parse::<ForemInstance>().unwrap(),
        ForemInstance::Golf
    );
    assert_eq!(
        "crypto".parse::<ForemInstance>().unwrap(),
        ForemInstance::Crypto
    );
    assert_eq!(
        "parenting".parse::<ForemInstance>().unwrap(),
        ForemInstance::Parenting
    );
    assert_eq!(
        "core".parse::<ForemInstance>().unwrap(),
        ForemInstance::Core
    );
    assert_eq!(
        "maker".parse::<ForemInstance>().unwrap(),
        ForemInstance::Maker
    );
    assert_eq!(
        "hmpljs".parse::<ForemInstance>().unwrap(),
        ForemInstance::Hmpljs
    );
    assert_eq!(
        "dumbdev".parse::<ForemInstance>().unwrap(),
        ForemInstance::DumbDev
    );
}

#[test]
fn test_from_str_custom() {
    let result = "custom:my-community.forem.com"
        .parse::<ForemInstance>()
        .unwrap();
    assert_eq!(
        result,
        ForemInstance::Custom {
            domain: "my-community.forem.com".to_string()
        }
    );
}

#[test]
fn test_from_str_custom_empty_domain() {
    let result = "custom:".parse::<ForemInstance>();
    assert!(result.is_err());
}

#[test]
fn test_from_str_unknown() {
    let result = "unknown".parse::<ForemInstance>();
    assert!(result.is_err());
}

#[test]
fn test_display() {
    assert_eq!(ForemInstance::DevTo.as_str(), "devto");
    assert_eq!(ForemInstance::Vibe.as_str(), "vibe");
    assert_eq!(
        ForemInstance::Custom {
            domain: "example.com".to_string()
        }
        .as_str(),
        "custom:example.com"
    );
}

#[test]
fn test_display_name() {
    assert_eq!(ForemInstance::DevTo.display_name(), "Dev.to");
    assert_eq!(ForemInstance::Vibe.display_name(), "Vibe Forem");
    assert_eq!(
        ForemInstance::Custom {
            domain: "example.com".to_string()
        }
        .display_name(),
        "Forem (example.com)"
    );
}
