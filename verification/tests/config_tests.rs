use nymx_mail::config::{default_ssh_port, AliasTable, NymXConfig, SshConfig};
use nymx_mail::contacts::ContactBook;
use nymx_mail::paths::{
    choose_client_base_dir, choose_server_base_dir, config_file_path, get_storage_dir,
};

fn config_with(pairs: &[(&str, &str)]) -> NymXConfig {
    let mut c = NymXConfig::default();
    for (a, b) in pairs {
        c.aliases.insert(a.to_string(), b.to_string());
    }
    c
}

#[test]
fn ssh_defaults() {
    assert_eq!(default_ssh_port(), 22);
    let s = SshConfig::default();
    assert_eq!((s.host.as_str(), s.port, s.username.as_str()), ("", 0, ""));
}

#[test]
fn resolve_aliases() {
    let c = config_with(&[("alice", "addr-a"), ("bob", "addr-b")]);
    assert_eq!(c.resolve("alice"), Some("addr-a".to_string()));
    assert_eq!(c.resolve("carol"), None);
    assert_eq!(NymXConfig::default().resolve("alice"), None);
}

#[test]
fn alias_table_sorted_and_updated() {
    let mut t = AliasTable::new();
    t.insert("zed".to_string(), "1".to_string());
    t.insert("amy".to_string(), "2".to_string());
    t.insert("Bob".to_string(), "3".to_string());
    t.insert("amy".to_string(), "4".to_string());
    assert_eq!(t.aliases(), vec!["Bob", "amy", "zed"]);
    assert_eq!(t.get("amy"), Some(&"4".to_string()));
    assert!(t.remove("zed"));
    assert!(!t.remove("zed"));
    assert_eq!(t.aliases(), vec!["Bob", "amy"]);
    assert_eq!(t.get("zed"), None);
}

#[test]
fn contact_book_selects_first() {
    let book = ContactBook::new(config_with(&[("bob", "b"), ("alice", "a")]));
    assert_eq!(*book.sorted_aliases(), vec!["alice", "bob"]);
    assert_eq!(book.selected_alias(), "alice");
    let empty = ContactBook::new(NymXConfig::default());
    assert_eq!(empty.selected_alias(), "");
    assert!(!empty.can_delete());
}

#[test]
fn contact_book_add() {
    let mut book = ContactBook::new(NymXConfig::default());
    assert!(!book.add_contact("  ", "addr"));
    assert!(!book.add_contact("carl", "\t"));
    assert!(book.sorted_aliases().is_empty());
    assert!(book.add_contact("carl", "addr-c"));
    assert!(book.add_contact(" dave", "addr-d"));
    assert_eq!(*book.sorted_aliases(), vec![" dave", "carl"]);
    assert_eq!(book.selected_alias(), " dave");
    assert_eq!(book.recipient_address(), "addr-d");
}

#[test]
fn contact_book_delete() {
    let mut book = ContactBook::new(config_with(&[("a", "1"), ("b", "2"), ("c", "3")]));
    assert!(book.select("b"));
    assert!(!book.select("x"));
    assert_eq!(book.selected_alias(), "b");
    assert!(book.delete_contact("c"));
    assert_eq!(book.selected_alias(), "b");
    assert!(book.delete_contact("b"));
    assert_eq!(book.selected_alias(), "a");
    assert!(!book.delete_contact("b"));
    assert!(book.delete_contact("a"));
    assert_eq!(book.selected_alias(), "");
    assert!(book.sorted_aliases().is_empty());
}

#[test]
fn contact_book_send_rules() {
    let mut book = ContactBook::new(config_with(&[("a", "addr")]));
    assert!(book.can_send(false, "hello"));
    assert!(!book.can_send(true, "hello"));
    assert!(!book.can_send(false, " \n "));
    assert_eq!(book.recipient_address(), "addr");
    assert!(book.delete_contact("a"));
    assert_eq!(book.recipient_address(), "");
    assert!(!book.can_send(false, "hello"));
}

#[test]
fn base_directories() {
    assert_eq!(choose_client_base_dir("exe", true, false, Some("home")), "exe");
    assert_eq!(choose_client_base_dir("exe", false, true, Some("home")), "exe");
    assert_eq!(choose_client_base_dir("exe", false, false, Some("home")), "home");
    assert_eq!(choose_client_base_dir("exe", false, false, None), "exe");
    assert_eq!(choose_server_base_dir("exe", true, Some("home")), "exe");
    assert_eq!(choose_server_base_dir("exe", false, Some("home")), "home");
    assert_eq!(choose_server_base_dir("exe", false, None), "exe");
}

#[test]
fn storage_and_config_paths() {
    let expected = std::path::Path::new("/home/u").join("nymx-mail");
    assert_eq!(get_storage_dir("/home/u"), expected.to_string_lossy());
    let expected = std::path::Path::new("/home/u/").join("nymx-mail.json");
    assert_eq!(config_file_path("/home/u/"), expected.to_string_lossy());
    assert_eq!(get_storage_dir(""), "nymx-mail");
    assert_eq!(get_storage_dir("/root"), "/root/nymx-mail");
    assert_eq!(get_storage_dir("/root/"), "/root/nymx-mail");
    assert_eq!(config_file_path("/home/bob"), "/home/bob/nymx-mail.json");
    assert_eq!(get_storage_dir("//srv"), "//srv/nymx-mail");
}

#[test]
fn settings_clone() {
    let c = config_with(&[("a", "1"), ("b", "2")]);
    let d = c.clone();
    assert_eq!(d.aliases.aliases(), vec!["a", "b"]);
    assert_eq!(d.resolve("b"), Some("2".to_string()));
    let s = SshConfig { host: "h".to_string(), port: 2222, username: "u".to_string() };
    let t = s.clone();
    assert_eq!((t.host.as_str(), t.port, t.username.as_str()), ("h", 2222, "u"));
}
