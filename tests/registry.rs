use puma_link::classify::{Item, classify_entry, classify_item, classify_line};
use puma_link::entry::{Entry, EntryKind};
use puma_link::order::{entry_cmp, entry_type_ord, precedes, sort_entries};
use puma_link::registry::{
    ObjectType, RegistryError, app_entry_path, find_port, join_path, link_port, name_taken,
    next_port, port_used, registry_dir, scan_entries, unlink_action,
};
use puma_link::text::int_to_text;
use std::cmp::Ordering;

fn port(name: &str, p: i32) -> Entry {
    Entry { name: name.to_string(), kind: EntryKind::Port { port: p } }
}

fn link(name: &str, target: &str) -> Entry {
    Entry { name: name.to_string(), kind: EntryKind::Link { target: target.to_string() } }
}

fn url(name: &str, u: &str) -> Entry {
    Entry { name: name.to_string(), kind: EntryKind::Url { url: u.to_string() } }
}

fn invalid(name: &str) -> Entry {
    Entry { name: name.to_string(), kind: EntryKind::Invalid }
}

fn file(content: &str) -> Item {
    Item::File { content: content.to_string() }
}

#[test]
fn next_port_skips_used_ports() {
    let entries = vec![port("a", 3000), port("b", 3001), port("c", 3003)];
    assert_eq!(next_port(&entries), 3002);
}

#[test]
fn next_port_of_empty_registry_is_base() {
    assert_eq!(next_port(&Vec::new()), 3000);
}

#[test]
fn next_port_after_contiguous_ports() {
    let entries = vec![port("a", 3000), port("b", 3001), port("c", 3002)];
    assert_eq!(next_port(&entries), 3003);
}

#[test]
fn next_port_ignores_other_kinds_and_duplicates() {
    let entries = vec![
        port("a", 3000),
        port("b", 3000),
        link("c", "/x"),
        invalid("d"),
        port("e", 2999),
        port("f", 3001),
    ];
    assert_eq!(next_port(&entries), 3002);
}

#[test]
fn port_used_reports_port_entries_only() {
    let entries = vec![port("a", 3000), link("b", "/x")];
    assert!(port_used(&entries, 3000));
    assert!(!port_used(&entries, 3001));
}

#[test]
fn ordering_groups_kinds_then_names() {
    let entries = vec![
        invalid("z"),
        port("b", 4000),
        link("a", "/x"),
        url("c", "http://h"),
    ];
    let sorted = sort_entries(entries);
    assert_eq!(
        sorted,
        vec![link("a", "/x"), url("c", "http://h"), port("b", 4000), invalid("z")]
    );
}

#[test]
fn ports_are_ordered_by_value_then_name() {
    let entries = vec![port("a", 3002), port("z", 3001), port("c", 3001), link("b", "/t")];
    let sorted = sort_entries(entries);
    assert_eq!(
        sorted,
        vec![link("b", "/t"), port("c", 3001), port("z", 3001), port("a", 3002)]
    );
}

#[test]
fn names_order_lexicographically() {
    let sorted = sort_entries(vec![invalid("ab"), invalid("a"), invalid("B"), invalid("b")]);
    assert_eq!(sorted, vec![invalid("B"), invalid("a"), invalid("ab"), invalid("b")]);
}

#[test]
fn entry_cmp_matches_the_order() {
    assert_eq!(entry_cmp(&link("z", "/"), &url("a", "http://h/")), Ordering::Less);
    assert_eq!(entry_cmp(&invalid("a"), &port("b", 1)), Ordering::Greater);
    assert_eq!(entry_cmp(&port("b", 1), &port("a", 2)), Ordering::Less);
    assert_eq!(entry_cmp(&invalid("a"), &invalid("a")), Ordering::Equal);
    assert!(precedes(&url("a", "http://h/"), &port("a", 1)));
    assert!(!precedes(&port("a", 1), &port("a", 1)));
}

#[test]
fn entry_type_ord_ranks_kinds() {
    assert_eq!(entry_type_ord(&link("a", "/")), 0);
    assert_eq!(entry_type_ord(&url("a", "http://h/")), 1);
    assert_eq!(entry_type_ord(&port("a", 3000)), 2);
    assert_eq!(entry_type_ord(&invalid("a")), 3);
}

#[test]
fn symlinks_scan_to_links_first() {
    let items = vec![
        ("b".to_string(), Item::Symlink { target: "/srv/b".to_string() }),
        ("a".to_string(), Item::Symlink { target: "../a".to_string() }),
    ];
    let entries = scan_entries(items);
    assert_eq!(entries, vec![link("a", "../a"), link("b", "/srv/b")]);
    for e in &entries {
        assert!(matches!(e.kind, EntryKind::Link { .. }));
        assert!(precedes(e, &port("x", 3000)));
        assert!(precedes(e, &url("x", "http://h/")));
        assert!(precedes(e, &invalid("0")));
    }
}

#[test]
fn integer_first_line_is_port() {
    assert_eq!(classify_item(file("3000")), EntryKind::Port { port: 3000 });
    assert_eq!(classify_item(file("3000\nhttp://x.org\nmore")), EntryKind::Port { port: 3000 });
    assert_eq!(classify_item(file("3001\r\nrest")), EntryKind::Port { port: 3001 });
    assert_eq!(classify_item(file("-5\n")), EntryKind::Port { port: -5 });
    assert_eq!(classify_item(file("+7")), EntryKind::Port { port: 7 });
    assert_eq!(classify_item(file("70000")), EntryKind::Port { port: 70000 });
    assert_eq!(classify_item(file("2147483647")), EntryKind::Port { port: 2147483647 });
    assert_eq!(classify_item(file("-2147483648")), EntryKind::Port { port: -2147483648 });
}

#[test]
fn out_of_range_or_malformed_numbers_are_invalid() {
    assert_eq!(classify_item(file("2147483648")), EntryKind::Invalid);
    assert_eq!(classify_item(file("-2147483649")), EntryKind::Invalid);
    assert_eq!(classify_item(file("99999999999999999999999")), EntryKind::Invalid);
    assert_eq!(classify_item(file(" 3000")), EntryKind::Invalid);
    assert_eq!(classify_item(file("30a0")), EntryKind::Invalid);
    assert_eq!(classify_item(file("-")), EntryKind::Invalid);
    assert_eq!(classify_item(file("")), EntryKind::Invalid);
    assert_eq!(classify_item(file("\n3000")), EntryKind::Invalid);
}

#[test]
fn url_first_line_is_url() {
    assert_eq!(
        classify_item(file("http://example.com\n3000")),
        EntryKind::Url { url: "http://example.com/".to_string() }
    );
    assert_eq!(
        classify_item(file("https://h:8080/p")),
        EntryKind::Url { url: "https://h:8080/p".to_string() }
    );
    assert_eq!(classify_item(file("example.com")), EntryKind::Invalid);
}

#[test]
fn classify_line_uses_the_given_url() {
    assert_eq!(
        classify_line("anything", Some("http://h/".to_string())),
        EntryKind::Url { url: "http://h/".to_string() }
    );
    assert_eq!(classify_line("12", Some("http://h/".to_string())), EntryKind::Port { port: 12 });
    assert_eq!(classify_line("anything", None), EntryKind::Invalid);
}

#[test]
fn other_objects_are_invalid() {
    assert_eq!(classify_item(Item::Other), EntryKind::Invalid);
    assert_eq!(
        classify_entry("d".to_string(), Item::Other),
        invalid("d")
    );
}

#[test]
fn scanning_twice_gives_the_same_entries() {
    let listing = vec![
        ("z".to_string(), file("junk")),
        ("b".to_string(), file("4000")),
        ("a".to_string(), Item::Symlink { target: "/x".to_string() }),
        ("c".to_string(), file("http://h")),
    ];
    let mut reversed = listing.clone();
    reversed.reverse();
    let first = scan_entries(listing);
    let second = scan_entries(reversed);
    assert_eq!(first, second);
    assert_eq!(
        first,
        vec![link("a", "/x"), url("c", "http://h/"), port("b", 4000), invalid("z")]
    );
}

#[test]
fn link_port_allocates_for_new_name() {
    let entries = vec![port("api", 3000)];
    assert!(!name_taken("blog", &entries));
    assert_eq!(link_port("blog", &entries), Ok(3001));
    let after = vec![port("api", 3000), port("blog", 3001)];
    assert!(name_taken("blog", &after));
    assert_eq!(link_port("blog", &after), Err(RegistryError::Conflict));
}

#[test]
fn link_port_conflicts_with_any_kind() {
    let entries = vec![link("blog", "/srv/blog")];
    assert_eq!(link_port("blog", &entries), Err(RegistryError::Conflict));
}

#[test]
fn unlink_removes_links_and_files_only() {
    assert_eq!(unlink_action(Some(ObjectType::Symlink)), Ok(true));
    assert_eq!(unlink_action(Some(ObjectType::File)), Ok(true));
    assert_eq!(unlink_action(Some(ObjectType::Directory)), Err(RegistryError::Refused));
    assert_eq!(unlink_action(Some(ObjectType::Other)), Ok(false));
    assert_eq!(unlink_action(None), Err(RegistryError::NotFound));
}

#[test]
fn find_port_on_link_is_kind_mismatch() {
    let entries = vec![link("a", "/srv/a"), port("b", 3000), url("c", "http://h/"), invalid("d")];
    assert_eq!(
        find_port("a", &entries),
        Err(RegistryError::KindMismatch { kind: EntryKind::Link { target: "/srv/a".to_string() } })
    );
    assert_eq!(find_port("b", &entries), Ok(3000));
    assert_eq!(
        find_port("c", &entries),
        Err(RegistryError::KindMismatch { kind: EntryKind::Url { url: "http://h/".to_string() } })
    );
    assert_eq!(
        find_port("d", &entries),
        Err(RegistryError::KindMismatch { kind: EntryKind::Invalid })
    );
    assert_eq!(find_port("e", &entries), Err(RegistryError::NotFound));
}

#[test]
fn paths_join_with_one_separator() {
    assert_eq!(join_path("/home/u", "blog"), "/home/u/blog");
    assert_eq!(join_path("/home/u/", "blog"), "/home/u/blog");
    assert_eq!(join_path("", "blog"), "blog");
    assert_eq!(registry_dir("/home/u"), "/home/u/.puma-dev");
}

#[test]
fn app_entry_path_prefers_the_given_name() {
    assert_eq!(
        app_entry_path("/r", Some("blog".to_string()), Some("cwd".to_string())),
        Some(("blog".to_string(), "/r/blog".to_string()))
    );
    assert_eq!(
        app_entry_path("/r", None, Some("cwd".to_string())),
        Some(("cwd".to_string(), "/r/cwd".to_string()))
    );
    assert_eq!(app_entry_path("/r", None, None), None);
}

#[test]
fn created_port_file_scans_back_and_blocks_a_second_create() {
    let before = vec![("api".to_string(), file("3000"))];
    let entries = scan_entries(before.clone());
    let port = link_port("blog", &entries).unwrap();
    assert_eq!(port, 3001);
    let content = int_to_text(port);
    assert_eq!(content, "3001");
    let mut after = before;
    after.push(("blog".to_string(), file(&content)));
    let rescanned = scan_entries(after);
    assert_eq!(find_port("blog", &rescanned), Ok(3001));
    assert_eq!(link_port("blog", &rescanned), Err(RegistryError::Conflict));
}
