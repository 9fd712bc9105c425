use kdf_init::env::EnvVars;

#[test]
fn test_new_is_empty() {
    let env = EnvVars::new();
    assert_eq!(env.len(), 0);
    assert!(env.is_empty());
    assert_eq!(env.get("PATH"), None);
    assert!(!env.contains_key("PATH"));
}

#[test]
fn test_insert_and_get() {
    let mut env = EnvVars::new();
    env.insert("PATH".to_string(), "/usr/bin".to_string());
    env.insert("HOME".to_string(), "/root".to_string());
    assert_eq!(env.len(), 2);
    assert!(!env.is_empty());
    assert_eq!(env.get("PATH"), Some(&"/usr/bin".to_string()));
    assert_eq!(env.get("HOME"), Some(&"/root".to_string()));
    assert_eq!(env.get("path"), None);
    assert!(env.contains_key("HOME"));
    assert!(!env.contains_key("HOM"));
}

#[test]
fn test_insert_overwrites() {
    let mut env = EnvVars::new();
    env.insert("A".to_string(), "1".to_string());
    env.insert("B".to_string(), "2".to_string());
    env.insert("A".to_string(), "3".to_string());
    assert_eq!(env.len(), 2);
    assert_eq!(env.get("A"), Some(&"3".to_string()));
    assert_eq!(env.get("B"), Some(&"2".to_string()));
}

#[test]
fn test_empty_name_and_value() {
    let mut env = EnvVars::new();
    env.insert("".to_string(), "".to_string());
    assert_eq!(env.len(), 1);
    assert_eq!(env.get(""), Some(&"".to_string()));
}

#[test]
fn test_equality_ignores_order() {
    let mut one = EnvVars::new();
    one.insert("A".to_string(), "1".to_string());
    one.insert("B".to_string(), "2".to_string());
    let mut two = EnvVars::new();
    two.insert("B".to_string(), "2".to_string());
    two.insert("A".to_string(), "0".to_string());
    assert_ne!(one, two);
    two.insert("A".to_string(), "1".to_string());
    assert_eq!(one, two);
    two.insert("C".to_string(), "3".to_string());
    assert_ne!(one, two);
    assert_ne!(two, one);
    one.insert("D".to_string(), "3".to_string());
    assert_ne!(one, two);
    assert_eq!(EnvVars::new(), EnvVars::new());
    assert_ne!(one, EnvVars::new());
}
