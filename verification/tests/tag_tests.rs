use dbx_core::tag::{BusinessTag, TagInheritanceWhitelist, TagMap, TagPolicy, TagValidationResult, TagValidator};

fn tag(key: &str, value: &str) -> BusinessTag {
    BusinessTag { key: key.to_string(), value: value.to_string(), description: String::new(), immutable: false }
}

#[test]
fn test_allow_policy_allows_all() {
    let whitelist = TagInheritanceWhitelist::new(vec![], TagPolicy::Allow);
    assert!(whitelist.is_allowed("anything"));
}

#[test]
fn test_block_policy_blocks_unlisted() {
    let whitelist = TagInheritanceWhitelist::new(vec!["allowed_key".to_string()], TagPolicy::Block);
    assert!(whitelist.is_allowed("allowed_key"));
    assert!(!whitelist.is_allowed("blocked_key"));
}

#[test]
fn test_strict_policy_blocks_unlisted() {
    let whitelist = TagInheritanceWhitelist::new(vec!["safe".to_string()], TagPolicy::Strict);
    assert!(whitelist.is_allowed("safe"));
    assert!(!whitelist.is_allowed("unsafe"));
}

#[test]
fn test_validator_allows_all_with_allow_policy() {
    let whitelist = TagInheritanceWhitelist::new(vec![], TagPolicy::Allow);
    let validator = TagValidator::new(whitelist, false);

    let tags = vec![BusinessTag {
        key: "env".to_string(),
        value: "prod".to_string(),
        description: String::new(),
        immutable: false,
    }];
    let base = TagMap::new();
    let result = validator.validate_tags(&tags, &base);
    assert_eq!(result.allowed.len(), 1);
    assert_eq!(result.blocked.len(), 0);
}

#[test]
fn test_validator_blocks_unlisted_in_block_mode() {
    let whitelist = TagInheritanceWhitelist::new(vec!["allowed".to_string()], TagPolicy::Block);
    let validator = TagValidator::new(whitelist, false);

    let tags = vec![
        BusinessTag {
            key: "allowed".to_string(),
            value: "yes".to_string(),
            description: String::new(),
            immutable: false,
        },
        BusinessTag {
            key: "blocked".to_string(),
            value: "no".to_string(),
            description: String::new(),
            immutable: false,
        },
    ];
    let base = TagMap::new();
    let result = validator.validate_tags(&tags, &base);
    assert_eq!(result.allowed.len(), 1);
    assert_eq!(result.blocked.len(), 1);
    assert_eq!(result.blocked[0].key, "blocked");
}

#[test]
fn test_strict_mode_reports_value_mismatch() {
    let whitelist = TagInheritanceWhitelist::new(vec!["env".to_string()], TagPolicy::Strict);
    let validator = TagValidator::new(whitelist, true);

    let tags = vec![BusinessTag {
        key: "env".to_string(),
        value: "staging".to_string(),
        description: String::new(),
        immutable: false,
    }];
    let mut base = TagMap::new();
    base.insert("env".to_string(), "prod".to_string());
    let result = validator.validate_tags(&tags, &base);
    assert_eq!(result.violations.len(), 1);
    assert!(result.violations[0].contains("STRICT VIOLATION"));
}

#[test]
fn test_has_blocking_violations_standard_mode() {
    let whitelist = TagInheritanceWhitelist::new(vec![], TagPolicy::Block);
    let validator = TagValidator::new(whitelist, false);

    let result = TagValidationResult {
        allowed: vec![],
        blocked: vec![BusinessTag {
            key: "x".to_string(),
            value: "y".to_string(),
            description: String::new(),
            immutable: false,
        }],
        violations: vec![],
    };
    assert!(validator.has_blocking_violations(&result));
}

#[test]
fn test_has_blocking_violations_strict_mode() {
    let whitelist = TagInheritanceWhitelist::new(vec![], TagPolicy::Strict);
    let validator = TagValidator::new(whitelist, true);

    let result =
        TagValidationResult { allowed: vec![], blocked: vec![], violations: vec!["STRICT VIOLATION".to_string()] };
    assert!(validator.has_blocking_violations(&result));
}

#[test]
fn test_has_blocking_violations_no_violations() {
    let whitelist = TagInheritanceWhitelist::new(vec![], TagPolicy::Allow);
    let validator = TagValidator::new(whitelist, false);

    let result = TagValidationResult { allowed: vec![], blocked: vec![], violations: vec![] };
    assert!(!validator.has_blocking_violations(&result));
}

#[test]
fn test_immutable_tag_field() {
    let tag = BusinessTag {
        key: "env".to_string(),
        value: "prod".to_string(),
        description: "Environment".to_string(),
        immutable: true,
    };
    assert!(tag.immutable);
}

#[test]
fn blocked_messages_name_key_value_and_mode() {
    let whitelist = TagInheritanceWhitelist::new(vec!["env".to_string()], TagPolicy::Block);
    let standard = TagValidator::new(whitelist.clone(), false);
    let strict = TagValidator::new(whitelist, true);
    let tags = vec![tag("team", "core")];
    let base = TagMap::new();
    assert_eq!(
        standard.validate_tags(&tags, &base).violations,
        vec!["BLOCKED: Tag 'team'='core' is not in whitelist".to_string()]
    );
    assert_eq!(
        strict.validate_tags(&tags, &base).violations,
        vec!["BLOCKED: Tag 'team'='core' is not in whitelist (strict mode)".to_string()]
    );
}

#[test]
fn strict_mismatch_message_names_base_value() {
    let whitelist = TagInheritanceWhitelist::new(vec!["env".to_string()], TagPolicy::Strict);
    let validator = TagValidator::new(whitelist, true);
    let mut base = TagMap::new();
    base.insert("env".to_string(), "old".to_string());
    base.insert("env".to_string(), "prod".to_string());
    let result = validator.validate_tags(&[tag("env", "staging"), tag("env", "prod")], &base);
    assert_eq!(result.allowed.len(), 2);
    assert_eq!(
        result.violations,
        vec!["STRICT VIOLATION: Tag 'env'='staging' differs from base value 'prod'".to_string()]
    );
    assert!(validator.has_blocking_violations(&result));
}

#[test]
fn value_mismatch_is_not_reported_outside_strict_mode() {
    let whitelist = TagInheritanceWhitelist::new(vec!["env".to_string()], TagPolicy::Block);
    let validator = TagValidator::new(whitelist, false);
    let mut base = TagMap::new();
    base.insert("env".to_string(), "prod".to_string());
    let result = validator.validate_tags(&[tag("env", "staging")], &base);
    assert!(result.violations.is_empty());
    assert!(!validator.has_blocking_violations(&result));
}

#[test]
fn strict_policy_checks_values_without_strict_mode() {
    let whitelist = TagInheritanceWhitelist::new(vec!["env".to_string()], TagPolicy::Strict);
    let validator = TagValidator::new(whitelist, false);
    let mut base = TagMap::new();
    base.insert("env".to_string(), "prod".to_string());
    let result = validator.validate_tags(&[tag("env", "staging")], &base);
    assert_eq!(result.allowed.len(), 1);
    assert!(result.blocked.is_empty());
    assert_eq!(
        result.violations,
        vec!["STRICT VIOLATION: Tag 'env'='staging' differs from base value 'prod'".to_string()]
    );
    assert!(validator.has_blocking_violations(&result));
    let unlisted = validator.validate_tags(&[tag("team", "a")], &base);
    assert_eq!(unlisted.violations, vec!["BLOCKED: Tag 'team'='a' is not in whitelist".to_string()]);
    assert!(validator.has_blocking_violations(&unlisted));
}

#[test]
fn whitelist_keeps_each_key_once_and_defaults_to_block() {
    let whitelist = TagInheritanceWhitelist::new(
        vec!["a".to_string(), "b".to_string(), "a".to_string()],
        TagPolicy::Block,
    );
    assert_eq!(whitelist.allowed_keys.len(), 2);
    let default = TagInheritanceWhitelist::default();
    assert_eq!(default.default_policy, TagPolicy::Block);
    assert!(!default.is_allowed("a"));
    assert_eq!(TagPolicy::default(), TagPolicy::Allow);
    assert_eq!(dbx_core::tag::default_policy(), TagPolicy::Block);
    let validator = TagValidator::default();
    assert!(!validator.strict_mode);
}

#[test]
fn tag_map_insert_replaces_value() {
    let mut base = TagMap::new();
    assert!(base.get("k").is_none());
    base.insert("k".to_string(), "1".to_string());
    base.insert("j".to_string(), "2".to_string());
    base.insert("k".to_string(), "3".to_string());
    assert_eq!(base.get("k").map(|s| s.as_str()), Some("3"));
    assert_eq!(base.get("j").map(|s| s.as_str()), Some("2"));
}
