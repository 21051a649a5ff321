use cmsis_update::config::Config;
use cmsis_update::download::DownloadItem;
use cmsis_update::dstore::InsertedPack;
use cmsis_update::dstore::InsertedPdsc;
use cmsis_update::error::UpdateError;
use cmsis_update::uri::ends_with_slash;
use cmsis_update::uri::pack_dest_string;
use cmsis_update::uri::pack_uri_string;
use cmsis_update::uri::part_path_string;
use cmsis_update::uri::pdsc_dest_string;
use cmsis_update::uri::pdsc_uri_string;

fn config() -> Config {
    Config { pack_store: String::from("store"), vidx_list: String::from("vendors.txt") }
}

#[test]
fn pdsc_uri_with_trailing_slash() {
    let u = pdsc_uri_string("https://vendor.example/", "Acme", "Widget", "1.0.0");
    assert_eq!(u, "https://vendor.example/Acme.Widget.1.0.0.pdsc");
}

#[test]
fn pdsc_uri_without_trailing_slash() {
    let u = pdsc_uri_string("https://vendor.example/pdsc", "Acme", "Widget", "1.0.0");
    assert_eq!(u, "https://vendor.example/pdsc/Acme.Widget.1.0.0.pdsc");
}

#[test]
fn pack_uri_with_trailing_slash() {
    let u = pack_uri_string("https://vendor.example/", "Acme", "Widget", "1.0.0");
    assert_eq!(u, "https://vendor.example/Acme.Widget.1.0.0.pack");
}

#[test]
fn pack_uri_without_trailing_slash_uses_pack_suffix() {
    // The suffix is .pack in both branches of the join rule.
    let u = pack_uri_string("https://vendor.example/packs", "Acme", "Widget", "1.0.0");
    assert_eq!(u, "https://vendor.example/packs/Acme.Widget.1.0.0.pack");
}

#[test]
fn pdsc_dest_is_flat_under_store() {
    let d = pdsc_dest_string("store", "Acme", "Widget", "1.0.0");
    assert_eq!(d, "store/Acme.Widget.1.0.0.pdsc");
}

#[test]
fn pack_dest_is_nested_under_store() {
    let d = pack_dest_string("store", "Acme", "Widget", "1.0.0");
    assert_eq!(d, "store/Acme/Widget/1.0.0.pack");
}

#[test]
fn slash_detection() {
    assert!(ends_with_slash("a/"));
    assert!(!ends_with_slash("a"));
    assert!(!ends_with_slash(""));
}

#[test]
fn part_path_replaces_final_extension() {
    assert_eq!(part_path_string("store/Acme.Widget.1.0.0.pdsc"), "store/Acme.Widget.1.0.0.part");
    assert_eq!(part_path_string("store/Acme/Widget/1.0.0.pack"), "store/Acme/Widget/1.0.0.part");
}

#[test]
fn part_path_appends_when_no_extension() {
    assert_eq!(part_path_string("store.d/archive"), "store.d/archive.part");
    assert_eq!(part_path_string("plain"), "plain.part");
}

#[test]
fn into_uri_parses_valid_uri() {
    let item = DownloadItem::Pdsc(InsertedPdsc {
        vendor: String::from("Acme"),
        name: String::from("Widget"),
        version_full: String::from("1.0.0"),
        url: String::from("https://vendor.example/"),
    });
    let uri = item.into_uri(&config()).expect("a well-formed URI must parse");
    assert_eq!(uri.to_string(), "https://vendor.example/Acme.Widget.1.0.0.pdsc");
}

#[test]
fn into_uri_rejects_malformed_uri() {
    let item = DownloadItem::Pack(InsertedPack {
        vendor: String::from("Ac me"),
        name: String::from("Widget"),
        version_full: String::from("1.0.0"),
        url: String::from("https://vendor.example/"),
    });
    let e = item.into_uri(&config()).expect_err("a space cannot appear in a URI");
    assert_eq!(e, UpdateError::Network);
}

#[test]
fn into_fd_matches_layout() {
    let c = config();
    let pdsc = DownloadItem::Pdsc(InsertedPdsc {
        vendor: String::from("Acme"),
        name: String::from("Gadget"),
        version_full: String::from("2.1.3"),
        url: String::from("https://vendor.example/"),
    });
    assert_eq!(pdsc.into_fd(&c), "store/Acme.Gadget.2.1.3.pdsc");
    let pack = DownloadItem::Pack(InsertedPack {
        vendor: String::from("Acme"),
        name: String::from("Gadget"),
        version_full: String::from("2.1.3"),
        url: String::from("https://vendor.example/"),
    });
    assert_eq!(pack.into_fd(&c), "store/Acme/Gadget/2.1.3.pack");
}
