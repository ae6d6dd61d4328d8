use enthalpy::service::{
    check_model_files, merge_patch, plan_update, ApplyError, ApplyPlan, ModelAction,
    ModelConfigPatch, TickerAction, TransposeConfig, TransposeConfigPatch,
};
use enthalpy::sync::{ConfigSync, ExactClone};

fn enabled_config() -> TransposeConfig {
    let mut cfg = TransposeConfig::default();
    cfg.enable = true;
    cfg.input_host = String::from("ALSA");
    cfg.input_device = String::from("default");
    cfg.model_config.model_dir = String::from("/models/sense-voice-small");
    cfg
}

#[test]
fn default_config() {
    let cfg = TransposeConfig::default();
    assert!(!cfg.enable);
    assert!(!cfg.realtime);
    assert_eq!(cfg.realtime_rate_ms, 800);
    assert_eq!(cfg.model_config.resample, Some((48000, 16000)));
    assert!(!cfg.model_config.use_gpu);
    assert!(cfg.model_config.vad.is_some());
}

#[test]
fn merge_patch_overwrites_only_present_fields() {
    let cfg = enabled_config();
    let mut patch = TransposeConfigPatch::empty();
    patch.realtime_rate_ms = Some(400);
    let merged = merge_patch(&cfg, &patch);
    assert_eq!(merged.realtime_rate_ms, 400);
    assert_eq!(merged.enable, cfg.enable);
    assert_eq!(merged.input_host, cfg.input_host);
    assert_eq!(merged.input_device, cfg.input_device);
    assert_eq!(merged.realtime, cfg.realtime);
    assert_eq!(merged.model_config.model_dir, cfg.model_config.model_dir);
    assert_eq!(merged.model_config.resample, cfg.model_config.resample);
    assert_eq!(merged.model_config.use_gpu, cfg.model_config.use_gpu);
}

#[test]
fn merge_patch_reaches_nested_model_fields() {
    let cfg = enabled_config();
    let patch = TransposeConfigPatch {
        enable: None,
        input_host: None,
        input_device: None,
        realtime: Some(true),
        realtime_rate_ms: None,
        model_config: Some(ModelConfigPatch {
            model_dir: Some(String::from("/models/other")),
            vad: Some(None),
            resample: None,
            use_gpu: Some(true),
        }),
    };
    let merged = merge_patch(&cfg, &patch);
    assert!(merged.realtime);
    assert_eq!(merged.model_config.model_dir, "/models/other");
    assert!(merged.model_config.vad.is_none());
    assert_eq!(merged.model_config.resample, cfg.model_config.resample);
    assert!(merged.model_config.use_gpu);
}

#[test]
fn disabling_drops_everything() {
    let old = enabled_config();
    let mut new = old.exact_clone();
    new.enable = false;
    let plan = plan_update(&new, &old, true, true);
    assert!(plan.drop_all);
    assert!(!plan.reload_input);
    assert_eq!(plan.model, ModelAction::Keep);
}

#[test]
fn rate_only_change_keeps_runtime_and_input() {
    // patching only realtime_rate_ms must not rebuild nor refresh the
    // runtime, nor reopen the device; it only rearms the ticker
    let mut old = enabled_config();
    old.realtime = true;
    let mut patch = TransposeConfigPatch::empty();
    patch.realtime_rate_ms = Some(400);
    let new = merge_patch(&old, &patch);
    let plan = plan_update(&new, &old, true, true);
    assert_eq!(
        plan,
        ApplyPlan {
            drop_all: false,
            reload_input: false,
            ticker: TickerAction::Rearm(400),
            model: ModelAction::Keep,
        }
    );
}

#[test]
fn realtime_toggles_ticker() {
    let mut old = enabled_config();
    old.realtime = false;
    let mut new = old.exact_clone();
    new.realtime = true;
    new.realtime_rate_ms = 800;
    let plan = plan_update(&new, &old, true, true);
    assert_eq!(plan.ticker, TickerAction::Rearm(800));
    // and the edge away from realtime parks the ticker
    let plan = plan_update(&old, &new, true, true);
    assert_eq!(plan.ticker, TickerAction::Disarm);
}

#[test]
fn device_or_directory_change_reloads() {
    let old = enabled_config();
    let mut new = old.exact_clone();
    new.model_config.use_gpu = true;
    let plan = plan_update(&new, &old, true, true);
    assert_eq!(plan.model, ModelAction::Reload);

    let mut new = old.exact_clone();
    new.model_config.model_dir = String::from("/models/other");
    let plan = plan_update(&new, &old, true, true);
    assert_eq!(plan.model, ModelAction::Reload);

    // no runtime held: always a load
    let plan = plan_update(&old, &old, false, true);
    assert_eq!(plan.model, ModelAction::Reload);

    // vad toggled with the same weights: a refresh, not a reload
    let mut new = old.exact_clone();
    new.model_config.vad = None;
    let plan = plan_update(&new, &old, true, true);
    assert_eq!(plan.model, ModelAction::Refresh);

    // input device change reopens the input
    let mut new = old.exact_clone();
    new.input_device = String::from("other");
    let plan = plan_update(&new, &old, true, true);
    assert!(plan.reload_input);
}

#[test]
fn missing_files_fail_the_apply() {
    assert_eq!(check_model_files(&vec![true, true, true]), Ok(()));
    let err = check_model_files(&vec![true, false, true]).unwrap_err();
    assert_eq!(err, ApplyError::MissingRequiredFiles);
    assert_eq!(err.message(), "Missing required files");
}

#[test]
fn propose_then_failed_commit_keeps_current() {
    // propose an enabled config while no model files exist: the service
    // commits failure, the waiter wakes, and the current config still has
    // enable = false
    let mut sync = ConfigSync::new(TransposeConfig::default());
    sync.propose(enabled_config());
    assert!(sync.poll_new());
    let present = vec![false, false, false];
    let apply_result = check_model_files(&present);
    assert!(apply_result.is_err());
    sync.finish(false);
    assert!(sync.poll_curr());
    assert!(!sync.curr().enable);
}

#[test]
fn propose_then_successful_commit_updates_current() {
    let mut sync = ConfigSync::new(TransposeConfig::default());
    sync.propose(enabled_config());
    assert!(sync.poll_new());
    assert_eq!(check_model_files(&vec![true, true, true]), Ok(()));
    sync.finish(true);
    assert!(sync.poll_curr());
    assert!(sync.curr().enable);
    assert_eq!(sync.curr().input_host, "ALSA");
}

#[test]
fn overlapping_proposes_coalesce() {
    let mut sync = ConfigSync::new(TransposeConfig::default());
    let mut first = enabled_config();
    first.realtime_rate_ms = 100;
    let mut second = enabled_config();
    second.realtime_rate_ms = 200;
    sync.propose(first);
    sync.propose(second);
    assert!(sync.poll_new());
    assert_eq!(sync.fresh().realtime_rate_ms, 200);
    // the edge is consumed until the next propose
    assert!(!sync.poll_new());
}
