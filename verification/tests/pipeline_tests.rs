use cmsis_update::config::Config;
use cmsis_update::download::update_plan;
use cmsis_update::download::DownloadDone;
use cmsis_update::download::DownloadItem;
use cmsis_update::download::Pipeline;
use cmsis_update::download::ProgressEvent;
use cmsis_update::download::StartAction;
use cmsis_update::download::StoreDir;
use cmsis_update::dstore::DescriptorStore;
use cmsis_update::dstore::InsertedPdsc;
use cmsis_update::error::UpdateError;
use cmsis_update::job::UpdateReturn;
use cmsis_update::redirect::redirect_step;
use cmsis_update::redirect::RedirectDecision;
use cmsis_update::refs::PdscRef;
use cmsis_update::vidx::flatmap_pdscs;
use cmsis_update::vidx::ParsedVidx;

fn config() -> Config {
    Config { pack_store: String::from("store"), vidx_list: String::from("vendors.txt") }
}

fn pdsc_ref(vendor: &str, name: &str, version: &str) -> PdscRef {
    PdscRef {
        url: String::from("https://vendor.example/"),
        vendor: String::from(vendor),
        name: String::from(name),
        version: String::from(version),
    }
}

fn two_refs() -> Vec<PdscRef> {
    vec![pdsc_ref("Acme", "Widget", "1.0.0"), pdsc_ref("Acme", "Gadget", "2.1.3")]
}

/// Drives one item to success, as the worker does when the server answers
/// 200 and every write goes through.
fn succeed(
    pipe: &mut Pipeline,
    i: usize,
    c: &Config,
    store: &mut DescriptorStore,
    fs: &mut StoreDir,
) -> DownloadDone {
    match pipe.start(i, c, fs) {
        StartAction::Fetch(_) => {
            pipe.part_written(i);
            pipe.renamed(i, fs);
        },
        StartAction::AlreadyMaterialized => {},
        StartAction::Abort(_) => panic!("unexpected abort"),
    }
    pipe.commit(i, store, fs, &()).expect("row must exist for a planned item")
}

#[test]
fn happy_path_materializes_both_descriptors() {
    // One vendor index listing (Acme, Widget, 1.0.0) and (Acme, Gadget, 2.1.3).
    let c = config();
    let mut store = DescriptorStore::new();
    let mut fs = StoreDir::new();
    let mut pipe = update_plan(two_refs(), &c, &mut store, &());

    assert!(matches!(pipe.log[0], ProgressEvent::Size(2)));
    assert_eq!(pipe.log.len(), 1);

    let mut done: Vec<DownloadDone> = Vec::new();
    while let Some(i) = pipe.next_pending() {
        done.push(succeed(&mut pipe, i, &c, &mut store, &mut fs));
    }
    assert!(pipe.all_concluded());

    // Two files at their flat destinations.
    assert_eq!(fs.files, vec!["store/Acme.Widget.1.0.0.pdsc", "store/Acme.Gadget.2.1.3.pdsc"]);
    // Two rows with non-null path.
    assert_eq!(store.pdscs.len(), 2);
    assert_eq!(store.pdscs[0].path.as_deref(), Some("store/Acme.Widget.1.0.0.pdsc"));
    assert_eq!(store.pdscs[1].path.as_deref(), Some("store/Acme.Gadget.2.1.3.pdsc"));
    // Progress sequence size(2), complete(), complete().
    assert_eq!(pipe.log.len(), 3);
    assert!(matches!(pipe.log[1], ProgressEvent::FileDone));
    assert!(matches!(pipe.log[2], ProgressEvent::FileDone));
    // The result list has length 2.
    let paths: Vec<String> = done
        .into_iter()
        .map(|d| match d {
            DownloadDone::Pdsc(d) => d.into_pathbuf(),
            DownloadDone::Pack(p) => p.into_pathbuf(),
        })
        .collect();
    let ret = UpdateReturn::from_vec(paths);
    assert_eq!(ret.iter().len(), 2);
}

#[test]
fn redirects_are_followed_to_the_terminal_response() {
    // 302 -> /v2/..., then a terminal 200, within the hop budget.
    let c = config();
    let mut store = DescriptorStore::new();
    let mut fs = StoreDir::new();
    let mut pipe = update_plan(vec![pdsc_ref("Acme", "Widget", "1.0.0")], &c, &mut store, &());

    let i = pipe.next_pending().unwrap();
    let uri = match pipe.start(i, &c, &fs) {
        StartAction::Fetch(u) => u,
        _ => panic!("a fresh store must fetch"),
    };
    assert_eq!(uri.to_string(), "https://vendor.example/Acme.Widget.1.0.0.pdsc");

    let mut hops: usize = 0;
    let location = String::from("https://vendor.example/v2/Acme.Widget.1.0.0.pdsc");
    let next = match redirect_step(302, Some(location.clone()), hops) {
        RedirectDecision::Follow(l) => l,
        _ => panic!("302 with a location must be followed"),
    };
    assert_eq!(next, location);
    hops += 1;
    assert!(hops <= 10);
    assert!(matches!(redirect_step(200, None, hops), RedirectDecision::Done));

    pipe.part_written(i);
    pipe.renamed(i, &mut fs);
    pipe.commit(i, &mut store, &fs, &()).unwrap();
    assert_eq!(store.pdscs[0].path.as_deref(), Some("store/Acme.Widget.1.0.0.pdsc"));
}

#[test]
fn partial_failure_concludes_both_and_keeps_the_first() {
    // Two descriptors; the second server answers 503.
    let c = config();
    let mut store = DescriptorStore::new();
    let mut fs = StoreDir::new();
    let mut pipe = update_plan(two_refs(), &c, &mut store, &());

    let first = pipe.next_pending().unwrap();
    let done = succeed(&mut pipe, first, &c, &mut store, &mut fs);

    let second = pipe.next_pending().unwrap();
    match pipe.start(second, &c, &fs) {
        StartAction::Fetch(_) => {},
        _ => panic!("the second item must fetch"),
    }
    match redirect_step(503, None, 0) {
        RedirectDecision::Fail(e) => assert_eq!(e, UpdateError::HttpStatus(503)),
        _ => panic!("503 is terminal"),
    }
    pipe.fail(second, &());

    assert!(pipe.all_concluded());
    assert!(pipe.next_pending().is_none());
    // First materialized, second absent.
    assert_eq!(fs.files.len(), 1);
    assert!(store.pdscs[0].path.is_some());
    assert!(store.pdscs[1].path.is_none());
    // Progress size(2), complete(), complete().
    assert_eq!(pipe.log.len(), 3);
    assert!(matches!(pipe.log[0], ProgressEvent::Size(2)));
    assert!(matches!(pipe.log[1], ProgressEvent::FileDone));
    assert!(matches!(pipe.log[2], ProgressEvent::FileDone));
    // Result list of length 1.
    let p = match done {
        DownloadDone::Pdsc(d) => d.into_pathbuf(),
        DownloadDone::Pack(p) => p.into_pathbuf(),
    };
    let ret = UpdateReturn::from_vec(vec![p]);
    assert_eq!(ret.iter().len(), 1);
}

#[test]
fn rerun_issues_no_fetches_and_changes_nothing() {
    let c = config();
    let mut store = DescriptorStore::new();
    let mut fs = StoreDir::new();
    let mut pipe = update_plan(two_refs(), &c, &mut store, &());
    while let Some(i) = pipe.next_pending() {
        succeed(&mut pipe, i, &c, &mut store, &mut fs);
    }
    let rows_after_first: Vec<Option<String>> =
        store.pdscs.iter().map(|r| r.path.clone()).collect();
    let files_after_first = fs.files.clone();

    // Rerun over the same inputs, with the mock recording request counts.
    let mut rerun = update_plan(two_refs(), &c, &mut store, &());
    assert_eq!(store.pdscs.len(), 2, "insert-or-ignore adds no rows");
    let mut fetches: usize = 0;
    while let Some(i) = rerun.next_pending() {
        match rerun.start(i, &c, &fs) {
            StartAction::Fetch(_) => fetches += 1,
            StartAction::AlreadyMaterialized => {},
            StartAction::Abort(_) => panic!("unexpected abort"),
        }
        rerun.commit(i, &mut store, &fs, &()).unwrap();
    }
    assert_eq!(fetches, 0, "zero new requests on a rerun");
    assert!(rerun.all_concluded());
    let rows_after_second: Vec<Option<String>> =
        store.pdscs.iter().map(|r| r.path.clone()).collect();
    assert_eq!(rows_after_first, rows_after_second);
    assert_eq!(files_after_first, fs.files);
}

#[test]
fn crash_between_part_and_rename_leaves_no_row_and_reruns_cleanly() {
    let c = config();
    let mut store = DescriptorStore::new();
    let mut fs = StoreDir::new();
    let mut pipe = update_plan(vec![pdsc_ref("Acme", "Widget", "1.0.0")], &c, &mut store, &());

    // The failure strikes after the .part is written, before the rename.
    let i = pipe.next_pending().unwrap();
    match pipe.start(i, &c, &fs) {
        StartAction::Fetch(_) => pipe.part_written(i),
        _ => panic!("a fresh store must fetch"),
    }
    drop(pipe);

    // No descriptor materialized; the row has no path.
    assert!(fs.files.is_empty());
    assert_eq!(store.pdscs.len(), 1);
    assert!(store.pdscs[0].path.is_none());

    // A rerun completes the download cleanly.
    let mut rerun = update_plan(vec![pdsc_ref("Acme", "Widget", "1.0.0")], &c, &mut store, &());
    let i = rerun.next_pending().unwrap();
    succeed(&mut rerun, i, &c, &mut store, &mut fs);
    assert_eq!(store.pdscs.len(), 1);
    assert_eq!(store.pdscs[0].path.as_deref(), Some("store/Acme.Widget.1.0.0.pdsc"));
    assert_eq!(fs.files, vec!["store/Acme.Widget.1.0.0.pdsc"]);
}

#[test]
fn in_flight_is_capped_at_thirty_two() {
    let c = config();
    let mut store = DescriptorStore::new();
    let mut fs = StoreDir::new();
    let mut refs: Vec<PdscRef> = Vec::new();
    for n in 0..40 {
        refs.push(pdsc_ref("Acme", "Widget", &format!("1.0.{}", n)));
    }
    let mut pipe = update_plan(refs, &c, &mut store, &());

    // Launch as much as the cap allows.
    let mut started: Vec<usize> = Vec::new();
    while let Some(i) = pipe.next_pending() {
        match pipe.start(i, &c, &fs) {
            StartAction::Fetch(_) => started.push(i),
            _ => panic!("fresh store must fetch"),
        }
    }
    assert_eq!(pipe.in_flight, 32);
    assert_eq!(started.len(), 32);

    // As one concludes, the next is launched.
    let first = started[0];
    pipe.part_written(first);
    pipe.renamed(first, &mut fs);
    pipe.commit(first, &mut store, &fs, &()).unwrap();
    assert_eq!(pipe.in_flight, 31);
    assert!(pipe.next_pending().is_some());
}

#[test]
fn fanout_flattens_parsed_indices_and_drops_failures() {
    let good = ParsedVidx {
        vidx_refs: Vec::new(),
        pdsc_refs: vec![pdsc_ref("Acme", "Widget", "1.0.0"), pdsc_ref("Acme", "Gadget", "2.1.3")],
    };
    let also_good = ParsedVidx {
        vidx_refs: Vec::new(),
        pdsc_refs: vec![pdsc_ref("Other", "Thing", "0.1.0")],
    };
    let (refs, dropped) = flatmap_pdscs(vec![
        Ok(good),
        Err(UpdateError::XmlParse),
        Ok(also_good),
    ]);
    assert_eq!(dropped, 1);
    assert_eq!(refs.len(), 3);
    assert_eq!(refs[0].name, "Widget");
    assert_eq!(refs[1].name, "Gadget");
    assert_eq!(refs[2].vendor, "Other");
}

#[test]
fn empty_input_concludes_immediately() {
    let c = config();
    let mut store = DescriptorStore::new();
    let mut pipe = update_plan(Vec::new(), &c, &mut store, &());
    assert!(matches!(pipe.log[0], ProgressEvent::Size(0)));
    assert!(pipe.next_pending().is_none());
    assert!(pipe.all_concluded());
    assert!(store.pdscs.is_empty());
}

#[test]
fn duplicate_references_share_one_row_and_one_fetch() {
    let c = config();
    let mut store = DescriptorStore::new();
    let mut fs = StoreDir::new();
    let refs = vec![pdsc_ref("Acme", "Widget", "1.0.0"), pdsc_ref("Acme", "Widget", "1.0.0")];
    let mut pipe = update_plan(refs, &c, &mut store, &());

    // Both duplicates become items, but insert-or-ignore keeps one row.
    assert!(matches!(pipe.log[0], ProgressEvent::Size(2)));
    assert_eq!(store.pdscs.len(), 1);

    // The first copy fetches; once it has materialized, the second
    // short-circuits on the existing destination.
    let first = pipe.next_pending().unwrap();
    succeed(&mut pipe, first, &c, &mut store, &mut fs);
    let second = pipe.next_pending().unwrap();
    match pipe.start(second, &c, &fs) {
        StartAction::AlreadyMaterialized => {},
        _ => panic!("the duplicate's file is already in place"),
    }
    pipe.commit(second, &mut store, &fs, &()).unwrap();
    assert!(pipe.all_concluded());
    assert_eq!(fs.files.len(), 1);
    assert_eq!(store.pdscs[0].path.as_deref(), Some("store/Acme.Widget.1.0.0.pdsc"));
}

#[test]
fn fanout_of_only_failures_is_empty() {
    let (refs, dropped) = flatmap_pdscs(vec![
        Err(UpdateError::Network),
        Err(UpdateError::XmlParse),
    ]);
    assert!(refs.is_empty());
    assert_eq!(dropped, 2);
}

#[test]
fn commit_without_a_row_fails_and_concludes_the_item() {
    // A pipeline built over an item whose key was never inserted: the
    // commit step reports the database error, touches no table, and the
    // item concludes like any other failure.
    let c = config();
    let mut store = DescriptorStore::new();
    let mut fs = StoreDir::new();
    let stray = DownloadItem::Pdsc(InsertedPdsc {
        vendor: String::from("Nobody"),
        name: String::from("Nothing"),
        version_full: String::from("0.0.0"),
        url: String::from("https://vendor.example/"),
    });
    let mut pipe = Pipeline::new(vec![stray], &c, &());
    let i = pipe.next_pending().unwrap();
    match pipe.start(i, &c, &fs) {
        StartAction::Fetch(_) => {},
        _ => panic!("a fresh store must fetch"),
    }
    pipe.part_written(i);
    pipe.renamed(i, &mut fs);
    let e = pipe.commit(i, &mut store, &fs, &()).unwrap_err();
    assert_eq!(e, UpdateError::DatabaseError);
    assert!(store.pdscs.is_empty());
    assert!(pipe.all_concluded());
    assert_eq!(pipe.log.len(), 2);
    assert!(matches!(pipe.log[1], ProgressEvent::FileDone));
}
