use std::sync::mpsc::channel;

use cmsis_update::config::ConfigBuilder;
use cmsis_update::download::install_plan;
use cmsis_update::download::DownloadDone;
use cmsis_update::download::DownloadProgress;
use cmsis_update::download::StartAction;
use cmsis_update::download::StoreDir;
use cmsis_update::dstore::DescriptorStore;
use cmsis_update::error::UpdateError;
use cmsis_update::job::DownloadSender;
use cmsis_update::job::UpdatePoll;
use cmsis_update::job::UpdateReturn;
use cmsis_update::refs::Package;

#[test]
fn job_state_machine_hands_out_the_result_once() {
    // result() before poll() reports readiness: null.
    let job = UpdatePoll::Running;
    let (res, job) = job.take_result();
    assert!(res.is_none());

    // poll() with the done flag unset: still running.
    let (ready, job) = job.poll_transition(false, None);
    assert!(!ready);

    // poll() once the flag is set: the worker is joined and the job is
    // complete.
    let outcome = UpdateReturn::from_vec(vec![String::from("store/Acme.Widget.1.0.0.pdsc")]);
    let (ready, job) = job.poll_transition(true, Some(Ok(outcome)));
    assert!(ready);
    assert!(!job.is_running());
    assert!(!job.can_poll_status());

    // result(): non-null exactly once.
    let (res, job) = job.take_result();
    let ret = res.expect("a completed job holds its result").expect("the run succeeded");
    assert_eq!(ret.iter().len(), 1);
    let (res, job) = job.take_result();
    assert!(res.is_none());

    // poll() keeps reporting readiness; free() would drop the handle here.
    let (ready, _job) = job.poll_transition(false, None);
    assert!(ready);
}

#[test]
fn a_crashed_worker_surfaces_as_worker_panic() {
    let job = UpdatePoll::Running;
    let (ready, job) = job.poll_transition(true, Some(Err(UpdateError::WorkerPanic)));
    assert!(ready);
    let (res, _job) = job.take_result();
    assert_eq!(res.unwrap().unwrap_err(), UpdateError::WorkerPanic);
}

#[test]
fn progress_reports_travel_the_channel() {
    let (send, recv) = channel();
    let sender = DownloadSender::from_sender(send);
    sender.size(2);
    let per_file = sender.for_file("store/Acme.Widget.1.0.0.pdsc");
    per_file.complete();

    let first = recv.try_recv().expect("the size report was sent");
    assert!(first.is_size);
    assert_eq!(first.size, 2);
    let second = recv.try_recv().expect("the completion was sent");
    assert!(!second.is_size);
    assert!(recv.try_recv().is_err());
}

#[test]
fn update_return_push_and_pop() {
    let mut ret = UpdateReturn::from_vec(Vec::new());
    assert!(ret.pop().is_none());
    ret.push(String::from("a"));
    ret.push(String::from("b"));
    assert_eq!(ret.iter().len(), 2);
    // Pops destructively from the end; None signals exhaustion.
    assert_eq!(ret.pop().as_deref(), Some("b"));
    assert_eq!(ret.pop().as_deref(), Some("a"));
    assert!(ret.pop().is_none());
}

#[test]
fn config_builder_requires_both_fields() {
    let e = ConfigBuilder::new().build().unwrap_err();
    assert_eq!(e, UpdateError::ConfigInvalid);
    let e = ConfigBuilder::new().with_pack_store(String::from("store")).build().unwrap_err();
    assert_eq!(e, UpdateError::ConfigInvalid);
    let c = ConfigBuilder::new()
        .with_pack_store(String::from("store"))
        .with_vidx_list(String::from("vendors.txt"))
        .build()
        .unwrap();
    assert_eq!(c.pack_store, "store");
    assert_eq!(c.vidx_list, "vendors.txt");
}

#[test]
fn install_pipeline_materializes_archives_nested() {
    let c = ConfigBuilder::new()
        .with_pack_store(String::from("store"))
        .with_vidx_list(String::from("vendors.txt"))
        .build()
        .unwrap();
    let mut store = DescriptorStore::new();
    let mut fs = StoreDir::new();
    let packs = vec![Package {
        vendor: String::from("Acme"),
        name: String::from("Widget"),
        url: String::from("https://vendor.example/"),
        releases: vec![String::from("1.0.0")],
    }];
    let mut pipe = install_plan(&packs, &c, &mut store, &());
    let i = pipe.next_pending().unwrap();
    let uri = match pipe.start(i, &c, &fs) {
        StartAction::Fetch(u) => u,
        _ => panic!("fresh store must fetch"),
    };
    assert_eq!(uri.to_string(), "https://vendor.example/Acme.Widget.1.0.0.pack");
    pipe.part_written(i);
    pipe.renamed(i, &mut fs);
    let done = pipe.commit(i, &mut store, &fs, &()).unwrap();
    match done {
        DownloadDone::Pack(p) => assert_eq!(p.into_pathbuf(), "store/Acme/Widget/1.0.0.pack"),
        DownloadDone::Pdsc(_) => panic!("an install run yields archives"),
    }
    assert_eq!(store.packs[0].path.as_deref(), Some("store/Acme/Widget/1.0.0.pack"));
    assert!(store.pdscs.is_empty());
}
