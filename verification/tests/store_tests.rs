use cmsis_update::dstore::DescriptorStore;
use cmsis_update::dstore::InsertedPack;
use cmsis_update::dstore::InsertedPdsc;
use cmsis_update::error::UpdateError;
use cmsis_update::refs::Package;
use cmsis_update::refs::PdscRef;

fn widget_ref() -> PdscRef {
    PdscRef {
        url: String::from("https://vendor.example/"),
        vendor: String::from("Acme"),
        name: String::from("Widget"),
        version: String::from("1.0.0"),
    }
}

#[test]
fn upsert_inserts_fresh_row() {
    let mut store = DescriptorStore::new();
    let ins = InsertedPdsc::try_from_ref(widget_ref(), &mut store).unwrap();
    assert_eq!(store.pdscs.len(), 1);
    assert_eq!(ins.vendor, "Acme");
    assert_eq!(ins.url, "https://vendor.example/");
    assert!(store.pdscs[0].path.is_none());
    assert!(!store.pdscs[0].parsed);
    assert_eq!(store.pdscs[0].version_major, 0);
    assert_eq!(store.pdscs[0].version_minor, 0);
    assert_eq!(store.pdscs[0].version_patch, 0);
}

#[test]
fn upsert_is_idempotent_and_keeps_columns() {
    let mut store = DescriptorStore::new();
    let _ = InsertedPdsc::try_from_ref(widget_ref(), &mut store).unwrap();
    let mut again = widget_ref();
    // Same key, different URL: insert-or-ignore must keep the stored URL.
    again.url = String::from("https://other.example/");
    let ins = InsertedPdsc::try_from_ref(again, &mut store).unwrap();
    assert_eq!(store.pdscs.len(), 1);
    assert_eq!(ins.url, "https://vendor.example/");
    assert_eq!(store.pdscs[0].url, "https://vendor.example/");
}

#[test]
fn distinct_versions_make_distinct_rows() {
    let mut store = DescriptorStore::new();
    let _ = InsertedPdsc::try_from_ref(widget_ref(), &mut store).unwrap();
    let mut newer = widget_ref();
    newer.version = String::from("2.0.0");
    let _ = InsertedPdsc::try_from_ref(newer, &mut store).unwrap();
    assert_eq!(store.pdscs.len(), 2);
}

#[test]
fn insert_path_sets_only_the_path() {
    let mut store = DescriptorStore::new();
    let ins = InsertedPdsc::try_from_ref(widget_ref(), &mut store).unwrap();
    let done = ins.insert_path(String::from("store/Acme.Widget.1.0.0.pdsc"), &mut store).unwrap();
    assert_eq!(store.pdscs.len(), 1);
    assert_eq!(store.pdscs[0].path.as_deref(), Some("store/Acme.Widget.1.0.0.pdsc"));
    assert_eq!(store.pdscs[0].url, "https://vendor.example/");
    assert_eq!(done.path, "store/Acme.Widget.1.0.0.pdsc");
    assert_eq!(done.into_pathbuf(), "store/Acme.Widget.1.0.0.pdsc");
}

#[test]
fn insert_path_without_row_is_a_database_error() {
    let mut store = DescriptorStore::new();
    let stray = InsertedPdsc {
        vendor: String::from("Nobody"),
        name: String::from("Nothing"),
        version_full: String::from("0.0.0"),
        url: String::from("https://vendor.example/"),
    };
    let e = stray.insert_path(String::from("store/x.pdsc"), &mut store).unwrap_err();
    assert_eq!(e, UpdateError::DatabaseError);
    assert!(store.pdscs.is_empty());
}

#[test]
fn pack_rows_use_the_newest_release() {
    let mut store = DescriptorStore::new();
    let pack = Package {
        vendor: String::from("Acme"),
        name: String::from("Widget"),
        url: String::from("https://vendor.example/"),
        releases: vec![String::from("3.1.0"), String::from("3.0.0")],
    };
    let ins = InsertedPack::try_from_package(&pack, &mut store).unwrap();
    assert_eq!(ins.version_full, "3.1.0");
    assert_eq!(store.packs.len(), 1);
    assert_eq!(store.packs[0].version_full, "3.1.0");
    assert!(store.pdscs.is_empty());

    // Idempotent, like the descriptor table.
    let again = InsertedPack::try_from_package(&pack, &mut store).unwrap();
    assert_eq!(store.packs.len(), 1);
    assert_eq!(again.url, "https://vendor.example/");

    let installed = again.insert_path(String::from("store/Acme/Widget/3.1.0.pack"), &mut store)
        .unwrap();
    assert_eq!(store.packs[0].path.as_deref(), Some("store/Acme/Widget/3.1.0.pack"));
    assert_eq!(installed.into_pathbuf(), "store/Acme/Widget/3.1.0.pack");
}

#[test]
fn error_descriptions_are_distinct() {
    let all = [
        UpdateError::ConfigInvalid,
        UpdateError::Network,
        UpdateError::HttpStatus(503),
        UpdateError::RedirectLoop,
        UpdateError::XmlParse,
        UpdateError::IoError,
        UpdateError::DatabaseError,
        UpdateError::Encoding,
        UpdateError::NullArgument,
        UpdateError::WorkerPanic,
        UpdateError::AlreadyDrained,
    ];
    for (i, a) in all.iter().enumerate() {
        assert!(!a.describe().is_empty());
        for b in all.iter().skip(i + 1) {
            assert_ne!(a.describe(), b.describe());
        }
    }
}
