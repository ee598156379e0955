use omthub::catalog::{Catalog, MotherTongue};
use omthub::ids::MotherTongueRecordId;

fn tongue(id: u128, name: &str, description: &str) -> MotherTongue {
    MotherTongue {
        id: MotherTongueRecordId(id),
        name: name.to_string(),
        description: description.to_string(),
        is_vetted: id % 2 == 0,
    }
}

fn twelve_entries() -> Catalog {
    let mut catalog = Catalog::new();
    for i in 0..12u128 {
        let name = format!("Tongue {}", i);
        let description = format!("Description number {}", i);
        assert!(catalog.add(tongue(i, &name, &description)));
    }
    catalog
}

#[test]
fn no_term_pages_in_stable_order_with_full_total() {
    let catalog = twelve_entries();

    let (page, total) = catalog.select_mother_tongues(None, 0, 5);
    assert_eq!(total, 12);
    assert_eq!(page.len(), 5);
    assert_eq!(page[0].id, MotherTongueRecordId(0));
    assert_eq!(page[4].id, MotherTongueRecordId(4));

    let (page, total) = catalog.select_mother_tongues(None, 10, 5);
    assert_eq!(total, 12);
    assert_eq!(page.len(), 2);
    assert_eq!(page[0].id, MotherTongueRecordId(10));
    assert_eq!(page[1].id, MotherTongueRecordId(11));

    let (page, total) = catalog.select_mother_tongues(None, 20, 5);
    assert_eq!(total, 12);
    assert_eq!(page.len(), 0);
}

#[test]
fn zero_limit_gives_empty_page_with_correct_total() {
    let catalog = twelve_entries();
    let (page, total) = catalog.select_mother_tongues(None, 0, 0);
    assert_eq!(total, 12);
    assert!(page.is_empty());

    let (page, total) = catalog.select_mother_tongues(Some("tongue".to_string()), 0, 0);
    assert_eq!(total, 12);
    assert!(page.is_empty());
}

#[test]
fn name_match_outranks_description_match() {
    let mut catalog = Catalog::new();
    catalog.add(tongue(1, "Plain", "Nothing to see"));
    // entry B: the term appears only in the description
    catalog.add(tongue(2, "Quiet name", "A zebra grazes here"));
    // entry A: the term appears only in the name
    catalog.add(tongue(3, "Zebra tongue", "Grazing grounds"));

    let (page, total) = catalog.select_mother_tongues(Some("ZEBRA".to_string()), 0, 10);
    assert_eq!(total, 2);
    assert_eq!(page.len(), 2);
    assert_eq!(page[0].id, MotherTongueRecordId(3));
    assert_eq!(page[1].id, MotherTongueRecordId(2));
}

#[test]
fn term_matching_is_case_insensitive() {
    let mut catalog = Catalog::new();
    catalog.add(tongue(1, "OBERWALLISERDEUTSCH", "an alpine dialect"));
    let (page, total) = catalog.select_mother_tongues(Some("oberwalliser".to_string()), 0, 10);
    assert_eq!(total, 1);
    assert_eq!(page.len(), 1);
    assert_eq!(page[0].id, MotherTongueRecordId(1));
}

#[test]
fn both_fields_match_outranks_single_field() {
    let mut catalog = Catalog::new();
    catalog.add(tongue(1, "song of songs", "a plain record"));
    catalog.add(tongue(2, "everything song", "a song in the description too"));
    let (page, total) = catalog.select_mother_tongues(Some("song".to_string()), 0, 10);
    assert_eq!(total, 2);
    assert_eq!(page[0].id, MotherTongueRecordId(2));
    assert_eq!(page[1].id, MotherTongueRecordId(1));
}

#[test]
fn non_matching_entries_are_not_counted() {
    let catalog = twelve_entries();
    let (page, total) = catalog.select_mother_tongues(Some("number 3".to_string()), 0, 10);
    assert_eq!(total, 1);
    assert_eq!(page.len(), 1);
    assert_eq!(page[0].id, MotherTongueRecordId(3));
}

#[test]
fn ties_keep_stable_order() {
    let catalog = twelve_entries();
    let (page, total) = catalog.select_mother_tongues(Some("tongue".to_string()), 0, 20);
    assert_eq!(total, 12);
    assert_eq!(page.len(), 12);
    for i in 0..12u128 {
        assert_eq!(page[i as usize].id, MotherTongueRecordId(i));
    }
}

#[test]
fn offset_pages_through_ranked_results() {
    let catalog = twelve_entries();
    let (page, total) = catalog.select_mother_tongues(Some("tongue".to_string()), 10, 5);
    assert_eq!(total, 12);
    assert_eq!(page.len(), 2);
}

#[test]
fn empty_catalog_and_no_match_report_zero() {
    let empty = Catalog::new();
    let (page, total) = empty.select_mother_tongues(None, 0, 5);
    assert_eq!(total, 0);
    assert!(page.is_empty());

    let catalog = twelve_entries();
    let (page, total) = catalog.select_mother_tongues(Some("absent term".to_string()), 0, 5);
    assert_eq!(total, 0);
    assert!(page.is_empty());
}

#[test]
fn lookup_by_id_is_zero_or_one_record() {
    let catalog = twelve_entries();
    let found = catalog.select_mother_tongue(MotherTongueRecordId(7)).expect("expected a record");
    assert_eq!(found.name, "Tongue 7");
    assert!(catalog.select_mother_tongue(MotherTongueRecordId(99)).is_none());
}

#[test]
fn duplicate_id_is_refused() {
    let mut catalog = Catalog::new();
    assert!(catalog.add(tongue(1, "One", "first")));
    assert!(!catalog.add(tongue(1, "Other", "pretender")));
    assert_eq!(catalog.len(), 1);
}
