use pesde::names::errors::{PackageNameError, PackageNamesError, WallyPackageNameError};
use pesde::names::wally::WallyPackageName as OldWallyName;
use pesde::names::{ErrorReason, PackageName, PackageNames};
use pesde::package_name::{
    validate_part, validate_wally_part, EscapedPackageNameError, FromEscapedStrPackageNameError,
    FromStrPackageNameError, FromStrPackageNameParseError, PackageName as AnyName, StandardPackageName,
    StandardPackageNameValidationError, WallyPackageName, WallyPackageNameValidationError,
};

#[test]
fn test_pesde_name_round_trip() {
    let n = PackageName::from_str("acme/tool_kit").ok().unwrap();
    assert_eq!(n.as_str(), ("acme", "tool_kit"));
    assert_eq!(n.to_string(), "acme/tool_kit");
    assert_eq!(n.escaped(), "acme+tool_kit");
}

#[test]
fn test_pesde_name_errors() {
    assert!(matches!(PackageName::from_str("acme"), Err(PackageNameError::InvalidFormat(s)) if s == "acme"));
    assert!(matches!(
        PackageName::from_str("ac/tool"),
        Err(PackageNameError::InvalidLength(ErrorReason::Scope, s)) if s == "ac"
    ));
    assert!(matches!(
        PackageName::from_str("acme/123"),
        Err(PackageNameError::OnlyDigits(ErrorReason::Name, s)) if s == "123"
    ));
    assert!(matches!(
        PackageName::from_str("_acme/tool"),
        Err(PackageNameError::PrePostfixUnderscore(ErrorReason::Scope, s)) if s == "_acme"
    ));
    assert!(matches!(
        PackageName::from_str("acme/to-ol"),
        Err(PackageNameError::InvalidCharacters(ErrorReason::Name, s)) if s == "to-ol"
    ));
}

#[test]
fn test_error_reason_text() {
    assert_eq!(ErrorReason::Scope.to_string(), "scope");
    assert_eq!(ErrorReason::Name.to_string(), "name");
}

#[test]
fn test_old_wally_name() {
    let n = OldWallyName::from_str("wally#roblox/roact").ok().unwrap();
    assert_eq!(n.as_str(), ("roblox", "roact"));
    assert_eq!(n.to_string(), "wally#roblox/roact");
    assert_eq!(n.escaped(), "wally#roblox+roact");
    assert!(matches!(OldWallyName::from_str("roact"), Err(WallyPackageNameError::InvalidFormat(_))));
    assert!(matches!(
        OldWallyName::from_str("roblox/ro_act"),
        Err(WallyPackageNameError::InvalidCharacters(ErrorReason::Name, _))
    ));
    assert!(matches!(
        OldWallyName::from_str("/roact"),
        Err(WallyPackageNameError::InvalidLength(ErrorReason::Scope, _))
    ));
}

#[test]
fn test_package_names_from_str() {
    let w = PackageNames::from_str("wally#roblox/roact").ok().unwrap();
    assert!(matches!(w, PackageNames::Wally(_)));
    let dashed = PackageNames::from_str("roblox/roact-router").ok().unwrap();
    assert!(matches!(dashed, PackageNames::Wally(_)));
    let p = PackageNames::from_str("acme/tool").ok().unwrap();
    assert!(matches!(p, PackageNames::Pesde(_)));
    assert_eq!(p.to_string(), "acme/tool");
    assert_eq!(p.as_str(), ("acme", "tool"));
    assert!(matches!(PackageNames::from_str("x"), Err(PackageNamesError::InvalidPackageName(s)) if s == "x"));
}

#[test]
fn test_package_names_escape_round_trip() {
    let p = PackageNames::from_str("acme/tool").ok().unwrap();
    let e = p.escaped();
    assert_eq!(e, "acme+tool");
    let back = PackageNames::from_escaped(&e).ok().unwrap();
    assert_eq!(back.as_str(), ("acme", "tool"));
    let w = PackageNames::from_str("wally#roblox/roact").ok().unwrap();
    assert_eq!(w.escaped(), "wally#roblox+roact");
    let back = PackageNames::from_escaped(&w.escaped()).ok().unwrap();
    assert!(matches!(back, PackageNames::Wally(_)));
    assert_eq!(back.as_str(), ("roblox", "roact"));
}

#[test]
fn test_standard_name() {
    let n = StandardPackageName::from_str("acme/tool").ok().unwrap();
    assert_eq!(n.scope(), "acme");
    assert_eq!(n.name(), "tool");
    assert_eq!(n.parts(), ("acme", "tool"));
    assert_eq!(n.escaped(), "acme+tool");
    assert_eq!(n.to_string(), "acme/tool");
    assert_eq!(StandardPackageName::prefix(), "");
    let back = StandardPackageName::from_escaped(&n.escaped()).ok().unwrap();
    assert_eq!(back.to_string(), "acme/tool");
}

#[test]
fn test_standard_name_errors() {
    assert!(matches!(validate_part(""), Err(StandardPackageNameValidationError::EmptyPart)));
    assert!(matches!(validate_part("Acme"), Err(StandardPackageNameValidationError::InvalidPart(s)) if s == "Acme"));
    assert!(matches!(
        validate_part("abcdefghijklmnopqrstuvwxyz"),
        Err(StandardPackageNameValidationError::PartTooLong(_))
    ));
    assert!(validate_part("a_b9").is_ok());
    assert!(matches!(
        StandardPackageName::from_str("a/b/c"),
        Err(FromStrPackageNameParseError::Invalid(s)) if s == "a/b/c"
    ));
    assert!(matches!(
        StandardPackageName::from_str("a/B"),
        Err(FromStrPackageNameParseError::InvalidPart(StandardPackageNameValidationError::InvalidPart(_)))
    ));
    assert!(matches!(StandardPackageName::from_escaped("ab"), Err(EscapedPackageNameError::Invalid(_))));
    assert!(matches!(StandardPackageName::new("a", ""), Err(StandardPackageNameValidationError::EmptyPart)));
}

#[test]
fn test_wally_name() {
    let n = WallyPackageName::from_str("wally#roblox/roact-router").ok().unwrap();
    assert_eq!(n.to_string(), "wally#roblox/roact-router");
    assert_eq!(n.escaped(), "wally#roblox+roact-router");
    assert_eq!(WallyPackageName::prefix(), "wally#");
    let plain = WallyPackageName::from_str("roblox/roact").ok().unwrap();
    assert_eq!(plain.parts(), ("roblox", "roact"));
    assert!(matches!(validate_wally_part("a_b"), Err(WallyPackageNameValidationError::InvalidPart(_))));
    assert!(validate_wally_part("a-b").is_ok());
    assert!(matches!(WallyPackageName::from_escaped("roblox+roact"), Err(EscapedPackageNameError::MissingPrefix(p)) if p == "wally#"));
    let back = WallyPackageName::from_escaped("wally#roblox+roact").ok().unwrap();
    assert_eq!(back.to_string(), "wally#roblox/roact");
}

#[test]
fn test_any_package_name() {
    let w = AnyName::from_str("wally#roblox/roact").ok().unwrap();
    assert_eq!(w.prefix(), "wally#");
    assert_eq!(w.scope(), "roblox");
    assert_eq!(w.name(), "roact");
    assert_eq!(w.escaped(), "wally#roblox+roact");
    let s = AnyName::from_str("acme/tool").ok().unwrap();
    assert_eq!(s.prefix(), "");
    assert_eq!(s.to_string(), "acme/tool");
    assert_eq!(s.parts(), ("acme", "tool"));
    let back = AnyName::from_escaped_str(&s.escaped()).ok().unwrap();
    assert_eq!(back.to_string(), "acme/tool");
    assert!(matches!(AnyName::from_str("wally#x"), Err(FromStrPackageNameError::Wally(_))));
    assert!(matches!(AnyName::from_str("x"), Err(FromStrPackageNameError::Standard(_))));
    assert!(matches!(AnyName::from_escaped_str("x"), Err(FromEscapedStrPackageNameError::Standard(_))));
}

#[test]
fn test_pesde_name_uppercase_refused() {
    assert!(matches!(
        PackageName::from_str("Abc/def"),
        Err(PackageNameError::InvalidCharacters(ErrorReason::Scope, s)) if s == "Abc"
    ));
    assert!(matches!(
        PackageName::from_str("abc/dEf"),
        Err(PackageNameError::InvalidCharacters(ErrorReason::Name, s)) if s == "dEf"
    ));
}

#[test]
fn test_wally_name_uppercase_refused() {
    assert!(matches!(
        OldWallyName::from_str("Ab/cd"),
        Err(WallyPackageNameError::InvalidCharacters(ErrorReason::Scope, s)) if s == "Ab"
    ));
    assert!(matches!(
        OldWallyName::from_str("wally#ab/Cd"),
        Err(WallyPackageNameError::InvalidCharacters(ErrorReason::Name, s)) if s == "Cd"
    ));
}
