use dns_codec::{DomainName, DomainNameBuilder, DomainNamePointer, PreviousNames};

fn name(parts: &[&str]) -> DomainName {
    DomainName::new(parts.iter().map(|p| p.as_bytes().to_vec()).collect())
}

fn labels(parts: &[&str]) -> Vec<Vec<u8>> {
    parts.iter().map(|p| p.as_bytes().to_vec()).collect()
}

#[test]
fn test_has_suitable_pointer() {
    let original_domain_name = name(&["dev", "google", "com"]);
    let previous_name = DomainNameBuilder::new(&original_domain_name, 12);
    let list_of_names = vec![previous_name];
    let google = name(&["google", "com"]);
    let res = google.has_suitable_pointer(list_of_names.as_slice());
    assert_eq!(res, Some(DomainNamePointer::Pointer(16)));
}

#[test]
fn test_has_suitable_pointer_same_size() {
    let original_domain_name = name(&["dev", "google", "com"]);
    let previous_name = DomainNameBuilder::new(&original_domain_name, 12);
    let list_of_names = vec![previous_name];
    let google = name(&["spi", "google", "com"]);
    let res = google.has_suitable_pointer(list_of_names.as_slice());
    assert_eq!(res, Some(DomainNamePointer::LabelsThenPointer(labels(&["spi"]), 16)));
}

#[test]
fn test_has_suitable_pointer_longer_previous() {
    let original_domain_name = name(&["dev", "break", "com"]);
    let original_domain_name2 = name(&["spi", "google", "com"]);
    let previous_name = DomainNameBuilder::new(&original_domain_name, 12);
    let previous_name2 = DomainNameBuilder::new(&original_domain_name2, 12 + 15);
    let list_of_names = vec![previous_name, previous_name2];
    let google = name(&["box", "spi", "google", "com"]);
    let res = google.has_suitable_pointer(list_of_names.as_slice());
    let expected = labels(&["box"]);
    assert_eq!(res, Some(DomainNamePointer::LabelsThenPointer(expected, 27)));
}

#[test]
fn no_shared_suffix_gives_none() {
    let list = vec![DomainNameBuilder::new(&name(&["a", "org"]), 12)];
    assert_eq!(name(&["a", "com"]).has_suitable_pointer(list.as_slice()), None);
    assert_eq!(name(&["a", "com"]).has_suitable_pointer(&[]), None);
}

#[test]
fn equal_matches_go_to_the_earliest_entry() {
    let list = vec![
        DomainNameBuilder::new(&name(&["x", "com"]), 12),
        DomainNameBuilder::new(&name(&["y", "com"]), 30),
    ];
    assert_eq!(
        name(&["z", "com"]).has_suitable_pointer(list.as_slice()),
        Some(DomainNamePointer::LabelsThenPointer(labels(&["z"]), 14))
    );
}

#[test]
fn suffix_name_points_into_a_longer_entry() {
    let list = vec![DomainNameBuilder::new(&name(&["a", "b", "c"]), 12)];
    assert_eq!(
        name(&["x", "a", "b", "c"]).has_suitable_pointer(list.as_slice()),
        Some(DomainNamePointer::LabelsThenPointer(labels(&["x"]), 12))
    );
    let list = vec![DomainNameBuilder::new(&name(&["x", "a", "b", "c"]), 12)];
    assert_eq!(name(&["a", "b", "c"]).has_suitable_pointer(list.as_slice()), Some(DomainNamePointer::Pointer(14)));
}

#[test]
fn entry_records_its_labels_and_position() {
    let entry = DomainNameBuilder::new(&name(&["dev", "google", "com"]), 40);
    assert_eq!(entry.position(), 40);
    assert_eq!(entry.labels(), &labels(&["dev", "google", "com"]));
    let n = name(&["dev", "google", "com"]);
    assert_eq!(n.len(), 3);
    assert_eq!(n.labels(), &labels(&["dev", "google", "com"]));
}

#[test]
fn previous_names_records_by_offset() {
    let mut names = PreviousNames::new();
    assert!(names.get(12).is_none());
    names.add_label(name(&["google", "com"]), 12);
    assert_eq!(names.get(12), Some(&name(&["google", "com"])));
    assert!(names.get(13).is_none());
}
