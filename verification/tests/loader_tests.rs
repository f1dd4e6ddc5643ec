use dnstest::{ConfigLoader, DnsList, DnsServer};

#[test]
fn test_config_from_args() {
    let args = vec![
        "8.8.8.8#Google".to_string(),
        "1.1.1.1#Cloudflare".to_string(),
    ];
    let list = ConfigLoader::from_args(args).unwrap();
    assert_eq!(list.servers.len(), 2);
    assert_eq!(list.servers[0].name, "Google");
    assert_eq!(list.servers[1].name, "Cloudflare");
}

#[test]
fn test_config_from_args_invalid_ip() {
    let args = vec!["invalid_ip#Test".to_string()];
    let result = ConfigLoader::from_args(args);
    assert!(result.is_err());
}

#[test]
fn test_from_args_name_defaults_to_address() {
    let list = ConfigLoader::from_args(vec!["9.9.9.9".to_string()]).unwrap();
    assert_eq!(list.servers[0].name, "9.9.9.9");
    assert_eq!(list.servers[0].ip, "9.9.9.9");
}

#[test]
fn test_from_args_trims_pieces() {
    let list = ConfigLoader::from_args(vec![" 8.8.4.4 # Google B ".to_string()]).unwrap();
    assert_eq!(list.servers[0].ip, "8.8.4.4");
    assert_eq!(list.servers[0].name, "Google B");
}

#[test]
fn test_from_args_reports_first_bad_entry() {
    let args = vec!["8.8.8.8#ok".to_string(), "nope#bad".to_string()];
    let err = ConfigLoader::from_args(args).unwrap_err();
    assert_eq!(err.message(), "Parse error: Invalid IP address: nope");
}

#[test]
fn test_merge_dedups_by_address_and_sorts() {
    let list1 = DnsList::from_servers(vec![
        DnsServer::new("Quad9".to_string(), "9.9.9.9".to_string()),
        DnsServer::new("Google".to_string(), "8.8.8.8".to_string()),
    ]);
    let list2 = DnsList::from_servers(vec![
        DnsServer::new("GoogleAgain".to_string(), "8.8.8.8".to_string()),
        DnsServer::new("Cloudflare".to_string(), "1.1.1.1".to_string()),
    ]);
    let merged = ConfigLoader::merge(vec![list1, list2]);
    let ips: Vec<&str> = merged.servers.iter().map(|s| s.ip.as_str()).collect();
    assert_eq!(ips, vec!["1.1.1.1", "8.8.8.8", "9.9.9.9"]);
}

#[test]
fn test_merge_of_nothing_is_empty() {
    let merged = ConfigLoader::merge(vec![]);
    assert!(merged.servers.is_empty());
    let merged2 = ConfigLoader::merge(vec![DnsList::new(), DnsList::new()]);
    assert!(merged2.servers.is_empty());
}
