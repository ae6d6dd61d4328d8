//! The transcription service's configuration: the config unit carried by
//! the two-phase handshake, merge-patch over its fixed schema, and the
//! apply plan that decides what a configuration change reloads.

use vstd::prelude::*;

use crate::sync::ExactClone;
use crate::vad::VadConfig;

verus! {

/// Model-runtime configuration: where the weights live, whether the
/// segmenter and the resampler run, and the compute device.
#[derive(Debug)]
pub struct SenseVoiceSmallConfig {
    pub model_dir: String,
    pub vad: Option<VadConfig>,
    pub resample: Option<(u32, u32)>,
    pub use_gpu: bool,
}

/// Are two model configurations the same, down to the directory text?
pub open spec fn model_config_eq(a: &SenseVoiceSmallConfig, b: &SenseVoiceSmallConfig) -> bool {
    &&& a.model_dir@ == b.model_dir@
    &&& a.vad == b.vad
    &&& a.resample == b.resample
    &&& a.use_gpu == b.use_gpu
}

impl SenseVoiceSmallConfig {
    /// Field-by-field equality test.
    pub fn same_as(&self, other: &SenseVoiceSmallConfig) -> (r: bool)
        ensures
            r == model_config_eq(self, other),
    {
        let vad_eq = match (&self.vad, &other.vad) {
            (Some(a), Some(b)) => *a == *b,
            (None, None) => true,
            _ => false,
        };
        let resample_eq = match (&self.resample, &other.resample) {
            (Some(a), Some(b)) => a.0 == b.0 && a.1 == b.1,
            (None, None) => true,
            _ => false,
        };
        self.model_dir == other.model_dir && vad_eq && resample_eq && self.use_gpu
            == other.use_gpu
    }
}

impl ExactClone for SenseVoiceSmallConfig {
    fn exact_clone(&self) -> (r: Self)
        ensures
            r == *self,
    {
        SenseVoiceSmallConfig {
            model_dir: self.model_dir.clone(),
            vad: match &self.vad {
                Some(v) => Some(*v),
                None => None,
            },
            resample: match &self.resample {
                Some(p) => Some(*p),
                None => None,
            },
            use_gpu: self.use_gpu,
        }
    }
}

/// The configuration unit the UI proposes and the service applies.
#[derive(Debug)]
pub struct TransposeConfig {
    pub enable: bool,
    pub input_host: String,
    pub input_device: String,
    pub realtime: bool,
    pub realtime_rate_ms: u64,
    pub model_config: SenseVoiceSmallConfig,
}

impl ExactClone for TransposeConfig {
    fn exact_clone(&self) -> (r: Self)
        ensures
            r == *self,
    {
        TransposeConfig {
            enable: self.enable,
            input_host: self.input_host.clone(),
            input_device: self.input_device.clone(),
            realtime: self.realtime,
            realtime_rate_ms: self.realtime_rate_ms,
            model_config: self.model_config.exact_clone(),
        }
    }
}

impl Default for TransposeConfig {
    /// The service's starting configuration: disabled, no device chosen,
    /// realtime off at an 800 ms tick, segmenter on, 48 kHz to 16 kHz
    /// resampling, CPU inference.
    fn default() -> (r: Self)
        ensures
            !r.enable,
            r.input_host@ == Seq::<char>::empty(),
            r.input_device@ == Seq::<char>::empty(),
            !r.realtime,
            r.realtime_rate_ms == 800,
            r.model_config.model_dir@ == Seq::<char>::empty(),
            r.model_config.vad matches Some(v) && v == (VadConfig {
                sample_rate: 16000,
                silence_duration_ms: 450,
                speech_threshold: 500000,
                window_ms: 10000,
                interval_ms: 1000,
            }),
            r.model_config.resample == Some((48000u32, 16000u32)),
            !r.model_config.use_gpu,
    {
        TransposeConfig {
            enable: false,
            input_host: String::new(),
            input_device: String::new(),
            realtime: false,
            realtime_rate_ms: 800,
            model_config: SenseVoiceSmallConfig {
                model_dir: String::new(),
                vad: Some(VadConfig::default()),
                resample: Some((48000, 16000)),
                use_gpu: false,
            },
        }
    }
}

/// A merge patch over [`SenseVoiceSmallConfig`]: absent fields keep the
/// current value; a present `vad` or `resample` may also clear the slot.
pub struct ModelConfigPatch {
    pub model_dir: Option<String>,
    pub vad: Option<Option<VadConfig>>,
    pub resample: Option<Option<(u32, u32)>>,
    pub use_gpu: Option<bool>,
}

/// A merge patch over [`TransposeConfig`]: absent fields keep the current
/// value.
pub struct TransposeConfigPatch {
    pub enable: Option<bool>,
    pub input_host: Option<String>,
    pub input_device: Option<String>,
    pub realtime: Option<bool>,
    pub realtime_rate_ms: Option<u64>,
    pub model_config: Option<ModelConfigPatch>,
}

impl TransposeConfigPatch {
    /// A patch that touches nothing.
    pub fn empty() -> (r: Self)
        ensures
            r.enable is None,
            r.input_host is None,
            r.input_device is None,
            r.realtime is None,
            r.realtime_rate_ms is None,
            r.model_config is None,
    {
        TransposeConfigPatch {
            enable: None,
            input_host: None,
            input_device: None,
            realtime: None,
            realtime_rate_ms: None,
            model_config: None,
        }
    }
}

/// Merge a patch into a configuration: each present patch field overwrites
/// the corresponding field of `cfg`, each absent one keeps it.
pub fn merge_patch(cfg: &TransposeConfig, patch: &TransposeConfigPatch) -> (r: TransposeConfig)
    ensures
        r.enable == (match patch.enable {
            Some(v) => v,
            None => cfg.enable,
        }),
        r.input_host == (match patch.input_host {
            Some(ref v) => *v,
            None => cfg.input_host,
        }),
        r.input_device == (match patch.input_device {
            Some(ref v) => *v,
            None => cfg.input_device,
        }),
        r.realtime == (match patch.realtime {
            Some(v) => v,
            None => cfg.realtime,
        }),
        r.realtime_rate_ms == (match patch.realtime_rate_ms {
            Some(v) => v,
            None => cfg.realtime_rate_ms,
        }),
        r.model_config.model_dir == (match patch.model_config {
            Some(ref m) => match m.model_dir {
                Some(ref d) => *d,
                None => cfg.model_config.model_dir,
            },
            None => cfg.model_config.model_dir,
        }),
        r.model_config.vad == (match patch.model_config {
            Some(ref m) => match m.vad {
                Some(v) => v,
                None => cfg.model_config.vad,
            },
            None => cfg.model_config.vad,
        }),
        r.model_config.resample == (match patch.model_config {
            Some(ref m) => match m.resample {
                Some(v) => v,
                None => cfg.model_config.resample,
            },
            None => cfg.model_config.resample,
        }),
        r.model_config.use_gpu == (match patch.model_config {
            Some(ref m) => match m.use_gpu {
                Some(v) => v,
                None => cfg.model_config.use_gpu,
            },
            None => cfg.model_config.use_gpu,
        }),
{
    let enable = match &patch.enable {
        Some(v) => *v,
        None => cfg.enable,
    };
    let input_host = match &patch.input_host {
        Some(v) => v.clone(),
        None => cfg.input_host.clone(),
    };
    let input_device = match &patch.input_device {
        Some(v) => v.clone(),
        None => cfg.input_device.clone(),
    };
    let realtime = match &patch.realtime {
        Some(v) => *v,
        None => cfg.realtime,
    };
    let realtime_rate_ms = match &patch.realtime_rate_ms {
        Some(v) => *v,
        None => cfg.realtime_rate_ms,
    };
    let model_dir = match &patch.model_config {
        Some(m) => match &m.model_dir {
            Some(d) => d.clone(),
            None => cfg.model_config.model_dir.clone(),
        },
        None => cfg.model_config.model_dir.clone(),
    };
    let vad = match &patch.model_config {
        Some(m) => match &m.vad {
            Some(v) => match v {
                Some(vc) => Some(*vc),
                None => None,
            },
            None => match &cfg.model_config.vad {
                Some(vc) => Some(*vc),
                None => None,
            },
        },
        None => match &cfg.model_config.vad {
            Some(vc) => Some(*vc),
            None => None,
        },
    };
    let resample = match &patch.model_config {
        Some(m) => match &m.resample {
            Some(v) => match v {
                Some(p) => Some(*p),
                None => None,
            },
            None => match &cfg.model_config.resample {
                Some(p) => Some(*p),
                None => None,
            },
        },
        None => match &cfg.model_config.resample {
            Some(p) => Some(*p),
            None => None,
        },
    };
    let use_gpu = match &patch.model_config {
        Some(m) => match &m.use_gpu {
            Some(v) => *v,
            None => cfg.model_config.use_gpu,
        },
        None => cfg.model_config.use_gpu,
    };
    TransposeConfig {
        enable,
        input_host,
        input_device,
        realtime,
        realtime_rate_ms,
        model_config: SenseVoiceSmallConfig { model_dir, vad, resample, use_gpu },
    }
}

/// What the apply step does to the model runtime.
#[derive(Debug, Clone, Copy, PartialEq, Eq, Structural)]
pub enum ModelAction {
    /// Leave the loaded runtime untouched.
    Keep,
    /// Re-enable or disable the segmenter and resampler without touching
    /// the weights.
    Refresh,
    /// Check the required files and load the runtime anew.
    Reload,
}

/// What the apply step does to the realtime ticker.
#[derive(Debug, Clone, Copy, PartialEq, Eq, Structural)]
pub enum TickerAction {
    /// Leave the ticker as it stands.
    Keep,
    /// Rearm the ticker with the configured period in milliseconds.
    Rearm(u64),
    /// Park the ticker on a far-future period.
    Disarm,
}

/// Everything a configuration change asks of the service.
#[derive(Debug, Clone, Copy, PartialEq, Eq, Structural)]
pub struct ApplyPlan {
    /// Drop the runtime and the audio input; nothing else happens.
    pub drop_all: bool,
    /// Tear down and reopen the audio input.
    pub reload_input: bool,
    pub ticker: TickerAction,
    pub model: ModelAction,
}

/// The plan for applying `new` over `old`, given whether a runtime and an
/// audio input are currently held.
///
/// Disabling drops everything.  The input reopens when the host or device
/// changed or none is held.  The ticker rearms whenever realtime is
/// requested and disarms on the edge away from it.  The weights reload
/// when the directory or the device changed or no runtime is held; an
/// unchanged model configuration leaves the runtime alone; any other model
/// change is a refresh.
pub open spec fn plan_spec(
    new: &TransposeConfig,
    old: &TransposeConfig,
    has_model: bool,
    has_input: bool,
) -> ApplyPlan {
    if !new.enable {
        ApplyPlan {
            drop_all: true,
            reload_input: false,
            ticker: TickerAction::Keep,
            model: ModelAction::Keep,
        }
    } else {
        let reload_input = new.input_host@ != old.input_host@ || new.input_device@
            != old.input_device@ || !has_input;
        let ticker = if new.realtime {
            TickerAction::Rearm(new.realtime_rate_ms)
        } else if old.realtime {
            TickerAction::Disarm
        } else {
            TickerAction::Keep
        };
        let should_reload = new.model_config.model_dir@ != old.model_config.model_dir@
            || new.model_config.use_gpu != old.model_config.use_gpu;
        let model = if !has_model || should_reload {
            ModelAction::Reload
        } else if model_config_eq(&new.model_config, &old.model_config) {
            ModelAction::Keep
        } else {
            ModelAction::Refresh
        };
        ApplyPlan { drop_all: false, reload_input, ticker, model }
    }
}

/// Decide the apply plan; see [`plan_spec`].
pub fn plan_update(
    new: &TransposeConfig,
    old: &TransposeConfig,
    has_model: bool,
    has_input: bool,
) -> (r: ApplyPlan)
    ensures
        r == plan_spec(new, old, has_model, has_input),
{
    if !new.enable {
        return ApplyPlan {
            drop_all: true,
            reload_input: false,
            ticker: TickerAction::Keep,
            model: ModelAction::Keep,
        };
    }
    let reload_input = self::ne_str(&new.input_host, &old.input_host) || self::ne_str(
        &new.input_device,
        &old.input_device,
    ) || !has_input;
    let ticker = if new.realtime {
        TickerAction::Rearm(new.realtime_rate_ms)
    } else if old.realtime {
        TickerAction::Disarm
    } else {
        TickerAction::Keep
    };
    let should_reload = self::ne_str(&new.model_config.model_dir, &old.model_config.model_dir)
        || new.model_config.use_gpu != old.model_config.use_gpu;
    let model = if !has_model || should_reload {
        ModelAction::Reload
    } else if new.model_config.same_as(&old.model_config) {
        ModelAction::Keep
    } else {
        ModelAction::Refresh
    };
    ApplyPlan { drop_all: false, reload_input, ticker, model }
}

/// Do two strings differ?
fn ne_str(a: &String, b: &String) -> (r: bool)
    ensures
        r == (a@ != b@),
{
    !(*a == *b)
}

/// Hot-reload minimality law: on an enabled, running service, a change
/// that touches only `realtime_rate_ms` neither reopens the audio device
/// nor reloads or refreshes the runtime; with realtime on, it only rearms
/// the ticker with the new period.
pub proof fn lemma_hot_reload_minimality(new: TransposeConfig, old: TransposeConfig)
    requires
        new.enable,
        old.enable,
        new.input_host@ == old.input_host@,
        new.input_device@ == old.input_device@,
        new.realtime == old.realtime,
        model_config_eq(&new.model_config, &old.model_config),
    ensures
        ({
            let p = plan_spec(&new, &old, true, true);
            &&& !p.drop_all
            &&& !p.reload_input
            &&& p.model == ModelAction::Keep
            &&& (new.realtime ==> p.ticker == TickerAction::Rearm(new.realtime_rate_ms))
            &&& (!new.realtime ==> p.ticker == TickerAction::Keep)
        }),
{
}

/// Why applying a configuration failed.
#[derive(Debug, Clone, PartialEq, Eq, Structural)]
pub enum ApplyError {
    /// A required model file is not on disk.
    MissingRequiredFiles,
}

impl ApplyError {
    /// The text shown to the UI for this failure.
    pub fn message(&self) -> (r: String)
        ensures
            r@ == "Missing required files"@,
    {
        String::from_str("Missing required files")
    }
}

/// Admit a model load only when every required file is present.  `present`
/// holds one flag per required file, in the order the runtime lists them.
pub fn check_model_files(present: &Vec<bool>) -> (r: Result<(), ApplyError>)
    ensures
        r is Ok <==> (forall|j: int| 0 <= j < present@.len() ==> present@[j]),
        r is Err ==> r == Result::<(), ApplyError>::Err(ApplyError::MissingRequiredFiles),
{
    let mut j: usize = 0;
    while j < present.len()
        invariant
            j <= present@.len(),
            forall|p: int| 0 <= p < j ==> present@[p],
        decreases present@.len() - j,
    {
        if !present[j] {
            return Err(ApplyError::MissingRequiredFiles);
        }
        j = j + 1;
    }
    Ok(())
}

} // verus!
