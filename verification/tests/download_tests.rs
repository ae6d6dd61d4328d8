use enthalpy::download::{
    download_url, downloading_path, files_url, find_repo_file, range_header_value,
    resume_plan, response_decision, DownloadProgress, Downloads, RepoFile, ResumePlan,
    REPORT_INTERVAL_MS,
};

#[test]
fn resume_plan_cases() {
    assert_eq!(resume_plan(10485760, 10485760), ResumePlan::AlreadyComplete);
    assert_eq!(resume_plan(4194304, 10485760), ResumePlan::Resume { offset: 4194304 });
    assert_eq!(resume_plan(0, 10485760), ResumePlan::Resume { offset: 0 });
    assert_eq!(resume_plan(20000000, 10485760), ResumePlan::Restart);
}

#[test]
fn resume_uses_range_header_from_existing_bytes() {
    // a 10 MB file interrupted at 4 MB resumes with this exact header
    let plan = resume_plan(4194304, 10485760);
    match plan {
        ResumePlan::Resume { offset } => {
            assert_eq!(range_header_value(offset), "bytes=4194304-");
        }
        _ => panic!("expected a ranged resume"),
    }
}

#[test]
fn response_decisions() {
    // a 206 to a ranged request appends
    let d = response_decision(206, 4194304, 10485760);
    assert!(d.accept);
    assert!(!d.truncate);
    // a 200 to a ranged request means the server sent the whole body
    let d = response_decision(200, 4194304, 10485760);
    assert!(d.accept);
    assert!(d.truncate);
    // a fresh download is not rewound
    let d = response_decision(200, 0, 10485760);
    assert!(d.accept);
    assert!(!d.truncate);
    // a stale longer file is rewound whatever the status
    let d = response_decision(206, 20000000, 10485760);
    assert!(d.truncate);
    // failure statuses are refused
    assert!(!response_decision(404, 0, 10485760).accept);
    assert!(!response_decision(416, 4194304, 10485760).accept);
    assert!(!response_decision(301, 0, 10485760).accept);
}

#[test]
fn url_templates() {
    let id = String::from("iic/SenseVoiceSmall");
    assert_eq!(
        files_url(&id),
        "https://modelscope.cn/api/v1/models/iic/SenseVoiceSmall/repo/files?Recursive=true"
    );
    let path = String::from("model.pt");
    assert_eq!(
        download_url(&id, &path),
        "https://modelscope.cn/models/iic/SenseVoiceSmall/resolve/master/model.pt"
    );
    assert_eq!(downloading_path(&path), "model.pt.downloading");
}

#[test]
fn find_repo_file_by_name() {
    let files = vec![
        RepoFile {
            name: String::from("am.mvn"),
            path: String::from("am.mvn"),
            size: 11203,
            sha256: String::from("aa"),
        },
        RepoFile {
            name: String::from("model.pt"),
            path: String::from("model.pt"),
            size: 936291369,
            sha256: String::from("bb"),
        },
    ];
    assert_eq!(find_repo_file(&files, &String::from("model.pt")), Some(1));
    assert_eq!(find_repo_file(&files, &String::from("tokens.json")), None);
}

#[test]
fn progress_reports_throttle_to_interval() {
    let mut p = DownloadProgress::new(String::from("model.pt"));
    assert_eq!(REPORT_INTERVAL_MS, 500);
    p.set_length(10485760);
    p.set_position(4194304);
    assert_eq!(p.size, 10485760);
    assert_eq!(p.position, 4194304);
    // first report at 500 ms goes out; the next only 500 ms later
    assert!(!p.report_due(400));
    assert!(p.report_due(500));
    assert!(!p.report_due(700));
    assert!(!p.report_due(999));
    assert!(p.report_due(1000));
    // a backwards clock jump never reports
    assert!(!p.report_due(100));
}

#[test]
fn progress_reports_throttle_on_wall_clock() {
    // the wall clock sits far past the fresh gate, so the first report
    // goes out; a second immediate report sits inside the interval
    let mut p = DownloadProgress::new(String::from("model.pt"));
    assert!(p.report_due_now());
    assert!(!p.report_due_now());
}

#[test]
fn progress_counters() {
    let mut p = DownloadProgress::new(String::from("f"));
    p.set_length(100);
    p.inc(30);
    p.inc(20);
    assert_eq!(p.position, 50);
    p.finish();
    assert_eq!(p.position, 100);
}

#[test]
fn registry_supersedes_and_stops() {
    let mut d = Downloads::new();
    assert!(!d.start(String::from("model.pt")));
    assert!(!d.start(String::from("am.mvn")));
    // a second start for the same name supersedes, not duplicates
    assert!(d.start(String::from("model.pt")));
    assert_eq!(d.names.len(), 2);
    assert!(d.contains(&String::from("model.pt")));
    // stop cancels only the matching entry
    assert!(d.stop(&String::from("model.pt")));
    assert!(!d.contains(&String::from("model.pt")));
    assert!(d.contains(&String::from("am.mvn")));
    assert!(!d.stop(&String::from("model.pt")));
}
