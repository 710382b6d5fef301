use asset_cli::{add_random_asset_to_db, remove_asset_at_index, Asset, Error, Selection};

fn asset(id: u64, name: &str) -> Asset {
    Asset {
        id,
        name: name.to_string(),
        category: "hardware".to_string(),
        vulnerabilities: 1,
        created_at: "2022-01-01T00:00:00+00:00".to_string(),
    }
}

#[test]
fn add_random_twice_to_empty_store() {
    let mut assets: Vec<Asset> = Vec::new();
    add_random_asset_to_db(&mut assets);
    add_random_asset_to_db(&mut assets);
    assert_eq!(assets.len(), 2);
    assert_ne!(assets[0].name, assets[1].name);
    for a in &assets {
        assert!(a.vulnerabilities >= 1 && a.vulnerabilities < 15);
        assert!(a.id < 9999999);
        assert_eq!(a.name.chars().count(), 10);
        assert!(a.name.chars().all(|c| c.is_ascii_alphanumeric()));
        assert!(a.category == "hardware" || a.category == "software");
    }
}

#[test]
fn add_keeps_existing_assets_in_place() {
    let mut assets = vec![asset(1, "one"), asset(2, "two")];
    add_random_asset_to_db(&mut assets);
    assert_eq!(assets.len(), 3);
    assert_eq!(assets[0].name, "one");
    assert_eq!(assets[1].name, "two");
}

#[test]
fn remove_last_of_three_moves_selection_back() {
    let mut assets = vec![asset(1, "a"), asset(2, "b"), asset(3, "c")];
    let mut sel = Selection::initial();
    sel.on_navigate_down(3);
    sel.on_navigate_down(3);
    assert_eq!(sel.index, 2);
    remove_asset_at_index(&mut assets, &mut sel).unwrap();
    assert_eq!(assets.len(), 2);
    assert_eq!(assets[0].name, "a");
    assert_eq!(assets[1].name, "b");
    assert_eq!(sel.index, 1);
}

#[test]
fn remove_shrinks_by_one_and_drops_the_identity() {
    let mut assets = vec![asset(1, "a"), asset(2, "b"), asset(3, "c")];
    let mut sel = Selection::initial();
    sel.on_navigate_down(3);
    remove_asset_at_index(&mut assets, &mut sel).unwrap();
    assert_eq!(assets.len(), 2);
    assert!(assets.iter().all(|a| !(a.id == 2 && a.name == "b"
        && a.created_at == "2022-01-01T00:00:00+00:00")));
    assert_eq!(sel.index, 0);
}

#[test]
fn remove_first_keeps_selection_at_zero() {
    let mut assets = vec![asset(1, "a"), asset(2, "b")];
    let mut sel = Selection::initial();
    remove_asset_at_index(&mut assets, &mut sel).unwrap();
    assert_eq!(assets.len(), 1);
    assert_eq!(assets[0].name, "b");
    assert_eq!(sel.index, 0);
}

#[test]
fn remove_past_the_end_fails_and_changes_nothing() {
    let mut assets = vec![asset(1, "a")];
    let mut sel = Selection::initial();
    sel.on_remove(0);
    // Force an out-of-range selection by removing from a shrunk list.
    remove_asset_at_index(&mut assets, &mut sel).unwrap();
    assert_eq!(assets.len(), 0);
    let r = remove_asset_at_index(&mut assets, &mut sel);
    assert_eq!(r.unwrap_err(), Error::IndexOutOfRange);
    assert_eq!(assets.len(), 0);
    assert_eq!(sel.index, 0);
}
