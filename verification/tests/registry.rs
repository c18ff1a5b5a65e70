use dns_sniffer::registry::DomainRegistry;
use dns_sniffer::sniff::resolve_interface;

#[test]
fn new_registry_is_empty() {
    let registry = DomainRegistry::new();
    assert_eq!(registry.len(), 0);
    assert_eq!(registry.snapshot(), Vec::<String>::new());
}

#[test]
fn append_keeps_order() {
    let mut registry = DomainRegistry::new();
    registry.append("a.example".to_string());
    registry.append("b.example".to_string());
    registry.append("a.example".to_string());
    assert_eq!(registry.len(), 3);
    assert_eq!(
        registry.snapshot(),
        vec![
            "a.example".to_string(),
            "b.example".to_string(),
            "a.example".to_string()
        ]
    );
}

#[test]
fn snapshot_between_appends_is_prefix_of_final() {
    let names = ["one", "two", "three", "four", "five"];
    let mut registry = DomainRegistry::new();
    let mut observed = Vec::new();
    for name in &names {
        observed.push(registry.snapshot());
        registry.append(name.to_string());
    }
    let last = registry.snapshot();
    assert_eq!(last.len(), names.len());
    for snap in observed {
        assert_eq!(snap[..], last[..snap.len()]);
    }
}

#[test]
fn resolve_interface_finds_first_match() {
    let names = vec!["lo".to_string(), "en0".to_string(), "en1".to_string()];
    assert_eq!(resolve_interface(&names, &"en0".to_string()), Some(1));
    assert_eq!(resolve_interface(&names, &"lo".to_string()), Some(0));
}

#[test]
fn resolve_interface_misses_cleanly() {
    let names = vec!["lo".to_string(), "en0".to_string()];
    assert_eq!(resolve_interface(&names, &"wlan0".to_string()), None);
    assert_eq!(resolve_interface(&Vec::new(), &"en0".to_string()), None);
}
