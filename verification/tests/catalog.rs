use ommatidia_tools::catalog::{
    shuffle, sidecar_path, Catalog, CatalogFile, Entry, Kind, Pool, Source, Split,
};

fn entry(id: &str, split: Split, kind: Kind) -> Entry {
    Entry {
        id: id.into(),
        source: Source::Fixture,
        license: "MIT".into(),
        kind,
        family: id.into(),
        split,
        path: format!("{id}.glb"),
        scene: None,
        object_root: None,
    }
}

fn read(text: &str) -> CatalogFile {
    let value: serde_json::Value = serde_json::from_str(text).unwrap();
    let entries = value["entries"]
        .as_array()
        .unwrap()
        .iter()
        .map(|e| {
            let field = |name: &str| e[name].as_str().unwrap().to_string();
            assert_eq!(field("source"), "fixture");
            assert_eq!(field("kind"), "object");
            Entry {
                id: field("id"),
                source: Source::Fixture,
                license: field("license"),
                kind: Kind::Object,
                family: field("family"),
                split: Split::parse(&field("split")).unwrap(),
                path: field("path"),
                scene: None,
                object_root: None,
            }
        })
        .collect();
    CatalogFile { entries }
}

/// A linear congruential generator, for orders that look drawn.
fn draws(count: usize, mut state: u64) -> Vec<usize> {
    (1..count)
        .rev()
        .map(|i| {
            state = state
                .wrapping_mul(6364136223846793005)
                .wrapping_add(1442695040888963407);
            (state >> 33) as usize % (i + 1)
        })
        .collect()
}

#[test]
fn duplicate_ids_are_rejected() {
    let file = read(
        r#"{"entries":[
            {"id":"a","source":"fixture","license":"MIT","kind":"object","family":"a","split":"train","path":"a.glb"},
            {"id":"a","source":"fixture","license":"MIT","kind":"object","family":"a","split":"holdout","path":"a.glb"}
        ]}"#,
    );
    let error = Catalog::load("catalog.json", file).unwrap_err();
    assert!(error.contains("both"), "{error}");
}

#[test]
fn one_family_cannot_cross_splits_under_different_ids() {
    let file = read(
        r#"{"entries":[
            {"id":"chair-a","source":"fixture","license":"MIT","kind":"object","family":"chair","split":"train","path":"a.glb"},
            {"id":"chair-b","source":"fixture","license":"MIT","kind":"object","family":"chair","split":"holdout","path":"b.glb"}
        ]}"#,
    );
    let error = Catalog::load("catalog.json", file).unwrap_err();
    assert!(error.contains("family chair"), "{error}");
    assert!(error.contains("both"), "{error}");
}

#[test]
fn split_filter_never_leaks_a_family() {
    let catalog = Catalog {
        dir: ".".into(),
        entries: vec![
            entry("chair-a", Split::Train, Kind::Object),
            entry("chair-b", Split::Holdout, Kind::Object),
            entry("room-a", Split::Train, Kind::Interior),
        ],
    };
    let train: Vec<_> = catalog
        .filtered(Some(Split::Train), None)
        .unwrap()
        .into_iter()
        .map(|entry| entry.id.as_str())
        .collect();
    let holdout: Vec<_> = catalog
        .filtered(Some(Split::Holdout), None)
        .unwrap()
        .into_iter()
        .map(|entry| entry.id.as_str())
        .collect();
    assert_eq!(train, ["chair-a", "room-a"]);
    assert_eq!(holdout, ["chair-b"]);
    for id in &train {
        assert!(!holdout.contains(id));
    }
}

#[test]
fn pool_cycles_without_immediate_repeats_when_the_set_is_large() {
    let catalog = Catalog {
        dir: ".".into(),
        entries: (0..8)
            .map(|i| entry(&format!("o{i}"), Split::Train, Kind::Object))
            .collect(),
    };
    let entries: Vec<Entry> = catalog
        .filtered(Some(Split::Train), Some(Kind::Object))
        .unwrap()
        .into_iter()
        .cloned()
        .collect();
    let mut pool = Pool::new(entries, &draws(8, 7));
    let first: Vec<_> = pool.take(8).into_iter().map(|e| e.id.clone()).collect();
    let mut unique = first.clone();
    unique.sort();
    unique.dedup();
    assert_eq!(unique.len(), 8);
}

#[test]
fn sidecar_path_sits_beside_the_dataset() {
    assert_eq!(
        sidecar_path("data/rich-train.omd"),
        "data/rich-train.catalog.json"
    );
}

#[test]
fn a_catalog_knows_its_directory() {
    let file = || CatalogFile {
        entries: vec![entry("a", Split::Train, Kind::Object)],
    };
    assert_eq!(Catalog::load("data/catalog.json", file()).unwrap().dir, "data");
    assert_eq!(Catalog::load("/catalog.json", file()).unwrap().dir, "/");
    assert_eq!(Catalog::load("catalog.json", file()).unwrap().dir, "");
    let empty = CatalogFile { entries: vec![] };
    assert_eq!(
        Catalog::load("data/catalog.json", empty).unwrap_err(),
        "data/catalog.json contains no entries"
    );
}

#[test]
fn paths_are_resolved_against_the_catalog() {
    let mut a = entry("a", Split::Train, Kind::Interior);
    assert_eq!(a.resolved_path("data"), "data/a.glb");
    assert_eq!(a.resolved_scene("data"), None);
    a.path = "/models/a.glb".into();
    a.scene = Some("scenes/a.json".into());
    a.object_root = Some("/objects".into());
    assert_eq!(a.resolved_path("data"), "/models/a.glb");
    assert_eq!(a.resolved_scene("data").unwrap(), "data/scenes/a.json");
    assert_eq!(a.resolved_object_root("data").unwrap(), "/objects");
}

#[test]
fn an_empty_choice_is_reported() {
    let catalog = Catalog {
        dir: ".".into(),
        entries: vec![entry("a", Split::Train, Kind::Object)],
    };
    assert!(catalog.filtered(Some(Split::Holdout), None).is_err());
    assert!(catalog.filtered(None, Some(Kind::Interior)).is_err());
    assert_eq!(catalog.filtered(None, None).unwrap().len(), 1);
}

#[test]
fn splits_are_read_by_name() {
    assert_eq!(Split::parse("train"), Ok(Split::Train));
    assert_eq!(Split::parse("holdout"), Ok(Split::Holdout));
    assert!(Split::parse("Train").is_err());
    assert_eq!(Split::Train.name(), "Train");
    assert_eq!(Split::Holdout.name(), "Holdout");
    assert_eq!(Kind::Interior.name(), "Interior");
}

#[test]
fn a_shuffle_keeps_every_item() {
    let mut items = vec!['a', 'b', 'c', 'd'];
    shuffle(&mut items, &[0, 2, 0]);
    assert_eq!(items, ['b', 'd', 'c', 'a']);
    let mut one = vec![7];
    shuffle(&mut one, &[]);
    assert_eq!(one, [7]);
}

#[test]
fn fixture_catalog_resolves_checked_in_meshes() {
    let text = r#"{"entries": [
        {"id": "fixture/plane", "source": "fixture", "license": "MIT", "kind": "object",
         "family": "plane", "split": "train", "path": "plane.gltf"},
        {"id": "fixture/sphere", "source": "fixture", "license": "MIT", "kind": "object",
         "family": "sphere", "split": "holdout", "path": "/meshes/sphere.gltf"}
    ]}"#;
    let catalog = Catalog::load("tests/fixtures/catalog.json", read(text)).unwrap();
    assert_eq!(catalog.entries.len(), 2);
    let resolved: Vec<String> = catalog
        .entries
        .iter()
        .map(|entry| entry.resolved_path(&catalog.dir))
        .collect();
    assert_eq!(resolved, ["tests/fixtures/plane.gltf", "/meshes/sphere.gltf"]);
    let train = catalog.filtered(Some(Split::Train), None).unwrap();
    let holdout = catalog.filtered(Some(Split::Holdout), None).unwrap();
    assert_eq!(train[0].id, "fixture/plane");
    assert_eq!(holdout[0].id, "fixture/sphere");
    assert!(train
        .iter()
        .all(|entry| !holdout.iter().any(|other| other.id == entry.id)));
}

#[test]
fn a_pool_starts_over_when_it_runs_out() {
    let entries: Vec<Entry> = (0..3)
        .map(|i| entry(&format!("o{i}"), Split::Train, Kind::Object))
        .collect();
    // Every place is exchanged with itself: the order stays.
    let mut pool = Pool::new(entries, &[2, 1]);
    let ids = |list: Vec<Entry>| list.into_iter().map(|e| e.id).collect::<Vec<_>>();
    assert_eq!(ids(pool.take(2)), ["o0", "o1"]);
    assert_eq!(ids(pool.take(2)), ["o2", "o0"]);
    assert_eq!(ids(pool.take(0)), ["o1"]);
    assert_eq!(ids(pool.take(9)), ["o2", "o0", "o1"]);
    let empty = Pool::new(Vec::new(), &[]);
    assert!(empty.entries.is_empty());
}

#[test]
fn nothing_is_reused_before_everything_else_was_used() {
    let entries: Vec<Entry> = (0..5)
        .map(|i| entry(&format!("o{i}"), Split::Train, Kind::Object))
        .collect();
    let mut pool = Pool::new(entries, &draws(5, 3));
    let mut handed = Vec::new();
    for count in [2, 0, 4, 1, 9, 3, 5] {
        handed.extend(pool.take(count).into_iter().map(|e| e.id));
    }
    assert_eq!(handed.len(), 2 + 1 + 4 + 1 + 5 + 3 + 5);
    for block in handed.chunks_exact(5) {
        let mut sorted = block.to_vec();
        sorted.sort();
        assert_eq!(sorted, ["o0", "o1", "o2", "o3", "o4"]);
    }
    for i in 0..handed.len() {
        for j in i + 1..handed.len() {
            if handed[i] == handed[j] {
                let mut between = handed[i + 1..j].to_vec();
                between.sort();
                between.dedup();
                assert!(between.len() >= 4);
            }
        }
    }
}
