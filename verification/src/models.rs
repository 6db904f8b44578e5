//! Model discovery, auto-detection, and installation of YOLO models.
use crate::pipeline::AdaptiveProfile;
use crate::text::same_text;
use vstd::prelude::*;
use vstd::string::*;

verus! {

pub const DEFAULT_MODEL_NAME: &'static str = "FunGen-12n-pov-1.1.0.onnx";

pub const OFFICIAL_MODEL_URL: &'static str =
    "https://github.com/ack00gar/FunGen-AI-Powered-Funscript-Generator/releases/download/models-v1.1.0/FunGen-12n-pov-1.1.0.onnx";

/// Metadata describing an ONNX model file.
#[derive(Debug)]
pub struct ModelInfo {
    pub path: String,
    pub filename: String,
    pub size_bytes: u64,
    pub is_valid: bool,
}

/// The contents of a list of strings.
pub open spec fn parts_of(s: Seq<String>) -> Seq<Seq<char>> {
    s.map_values(|t: String| t@)
}

/// The contents of a list of paths, each in parts.
pub open spec fn paths_of(s: Seq<Vec<String>>) -> Seq<Seq<Seq<char>>> {
    s.map_values(|p: Vec<String>| parts_of(p@))
}

/// The directory for models that the environment gives, in parts: below the cache
/// directory, or below the home directory's.
pub open spec fn cache_dir(cache_home: Option<Seq<char>>, home: Option<Seq<char>>) -> Seq<
    Seq<char>,
> {
    match cache_home {
        Some(base) => seq![base, "pulsar"@, "models"@],
        None => seq![
            match home {
                Some(h) => h,
                None => "."@,
            },
            ".cache"@,
            "pulsar"@,
            "models"@,
        ],
    }
}

/// The places where a model may be, in parts, the best first.
pub open spec fn search_paths(cache_home: Option<Seq<char>>, home: Option<Seq<char>>) -> Seq<
    Seq<Seq<char>>,
> {
    let cache = seq![cache_dir(cache_home, home).push(DEFAULT_MODEL_NAME@)];
    let near = seq![
        seq!["models"@, DEFAULT_MODEL_NAME@],
        seq!["../models"@, DEFAULT_MODEL_NAME@],
    ];
    match home {
        Some(h) => cache + seq![seq![h, ".cache/fs-hub/models"@, DEFAULT_MODEL_NAME@]] + near
            + seq![
            seq![
                h,
                "Desktop/Funscripts/FunGen/fungen-data/cache/models"@,
                DEFAULT_MODEL_NAME@,
            ],
            seq![h, "Desktop/FunGen/fungen-data/cache/models"@, DEFAULT_MODEL_NAME@],
            seq![h, ".cache/fungen/models"@, DEFAULT_MODEL_NAME@],
        ],
        None => cache + near,
    }
}

fn parts2(a: &str, b: &str) -> (res: Vec<String>)
    ensures
        parts_of(res@) == seq![a@, b@],
{
    let mut res: Vec<String> = Vec::new();
    res.push(a.to_owned());
    res.push(b.to_owned());
    assert(parts_of(res@) =~= seq![a@, b@]);
    res
}

fn parts3(a: &str, b: &str, c: &str) -> (res: Vec<String>)
    ensures
        parts_of(res@) == seq![a@, b@, c@],
{
    let mut res: Vec<String> = parts2(a, b);
    let ghost before = res@;
    res.push(c.to_owned());
    assert(parts_of(res@) =~= parts_of(before).push(c@));
    assert(parts_of(res@) =~= seq![a@, b@, c@]);
    res
}

/// What stands in an optional string.
pub open spec fn word_of(word: Option<&str>) -> Option<Seq<char>> {
    match word {
        Some(w) => Some(w@),
        None => None,
    }
}

/// Returns the default cache directory for models, in parts, from what the
/// environment names as cache and home directory.
pub fn default_model_cache_dir(cache_home: Option<&str>, home: Option<&str>) -> (dir: Vec<String>)
    ensures
        parts_of(dir@) == cache_dir(word_of(cache_home), word_of(home)),
{
    match cache_home {
        Some(base) => parts3(base, "pulsar", "models"),
        None => {
            let first: &str = match home {
                Some(h) => h,
                None => ".",
            };
            let mut dir: Vec<String> = parts3(first, ".cache", "pulsar");
            let ghost before = dir@;
            dir.push("models".to_owned());
            assert(parts_of(dir@) =~= parts_of(before).push("models"@));
            assert(parts_of(dir@) =~= seq![first@, ".cache"@, "pulsar"@, "models"@]);
            dir
        },
    }
}

fn push_path(paths: &mut Vec<Vec<String>>, path: Vec<String>)
    ensures
        paths_of(final(paths)@) == paths_of(old(paths)@).push(parts_of(path@)),
{
    paths.push(path);
    assert(paths_of(paths@) =~= paths_of(old(paths)@).push(parts_of(path@)));
}

/// Returns prioritized search locations for YOLO models, each in parts.
pub fn model_search_paths(cache_home: Option<&str>, home: Option<&str>) -> (paths: Vec<
    Vec<String>,
>)
    ensures
        paths_of(paths@) == search_paths(word_of(cache_home), word_of(home)),
{
    let mut paths: Vec<Vec<String>> = Vec::new();
    assert(paths_of(paths@) =~= Seq::empty());
    let mut cached: Vec<String> = default_model_cache_dir(cache_home, home);
    let ghost dir = cached@;
    cached.push(DEFAULT_MODEL_NAME.to_owned());
    assert(parts_of(cached@) =~= parts_of(dir).push(DEFAULT_MODEL_NAME@));
    push_path(&mut paths, cached);
    if let Some(h) = home {
        push_path(&mut paths, parts3(h, ".cache/fs-hub/models", DEFAULT_MODEL_NAME));
    }
    push_path(&mut paths, parts2("models", DEFAULT_MODEL_NAME));
    push_path(&mut paths, parts2("../models", DEFAULT_MODEL_NAME));
    if let Some(h) = home {
        push_path(
            &mut paths,
            parts3(h, "Desktop/Funscripts/FunGen/fungen-data/cache/models", DEFAULT_MODEL_NAME),
        );
        push_path(
            &mut paths,
            parts3(h, "Desktop/FunGen/fungen-data/cache/models", DEFAULT_MODEL_NAME),
        );
        push_path(&mut paths, parts3(h, ".cache/fungen/models", DEFAULT_MODEL_NAME));
    }
    assert(paths_of(paths@) =~= search_paths(word_of(cache_home), word_of(home)));
    paths
}

/// Every place searched is for the default model; the first is the cache.
pub proof fn lemma_searched_for_default(
    cache_home: Option<Seq<char>>,
    home: Option<Seq<char>>,
    i: int,
)
    requires
        0 <= i < search_paths(cache_home, home).len(),
    ensures
        search_paths(cache_home, home)[i].last() == DEFAULT_MODEL_NAME@,
        search_paths(cache_home, home)[0].drop_last() == cache_dir(cache_home, home),
{
    let dir = cache_dir(cache_home, home);
    assert(search_paths(cache_home, home)[0].drop_last() =~= dir);
}

/// The smallest size that a model can have is above this.
pub const MIN_MODEL_BYTES: u64 = 1000000;

/// What a model file shows: nothing where there is no file or its size cannot be
/// had. A valid model is larger than a million bytes.
pub fn inspect_model(path: &str, is_file: bool, size: Option<u64>, file_name: Option<&str>) -> (res:
    Option<ModelInfo>)
    ensures
        res is Some <==> is_file && size is Some,
        res matches Some(info) ==> {
            &&& info.path@ == path@
            &&& info.size_bytes == size->0
            &&& info.is_valid == (size->0 > MIN_MODEL_BYTES)
            &&& info.filename@ == (match file_name {
                Some(name) => name@,
                None => "unknown.onnx"@,
            })
        },
{
    if !is_file {
        return None;
    }
    match size {
        Some(size_bytes) => Some(
            ModelInfo {
                path: path.to_owned(),
                filename: match file_name {
                    Some(name) => name.to_owned(),
                    None => "unknown.onnx".to_owned(),
                },
                size_bytes,
                is_valid: size_bytes > MIN_MODEL_BYTES,
            },
        ),
        None => None,
    }
}

/// Whether a file in the cache directory can be a model.
pub fn is_model_extension(extension: Option<&str>) -> (res: bool)
    ensures
        res == (word_of(extension) == Some("onnx"@)),
{
    match extension {
        Some(ext) => same_text(ext, "onnx"),
        None => false,
    }
}

/// A file that was inspected and is a valid model.
pub open spec fn is_valid_model(found: Option<ModelInfo>) -> bool {
    found matches Some(info) && info.is_valid
}

/// Picks a model among the files inspected, the search locations first and the
/// cache directory's after them: the first valid one.
pub fn auto_detect_model(inspected: &Vec<Option<ModelInfo>>) -> (res: Option<usize>)
    ensures
        res is None <==> forall|i: int|
            0 <= i < inspected.len() ==> !is_valid_model(#[trigger] inspected@[i]),
        res matches Some(k) ==> {
            &&& k < inspected.len()
            &&& is_valid_model(inspected@[k as int])
            &&& forall|i: int| 0 <= i < k ==> !is_valid_model(#[trigger] inspected@[i])
        },
{
    let mut i: usize = 0;
    while i < inspected.len()
        invariant
            i <= inspected.len(),
            forall|k: int| 0 <= k < i ==> !is_valid_model(#[trigger] inspected@[k]),
        decreases inspected.len() - i,
    {
        if let Some(info) = &inspected[i] {
            if info.is_valid {
                return Some(i);
            }
        }
        i += 1;
    }
    None
}

/// How the default model is installed.
#[derive(Debug, Clone, Copy, PartialEq, Eq, Structural)]
pub enum InstallPlan {
    /// It is there, of this size.
    Present(u64),
    /// It is copied from this search location.
    Copy(usize),
    /// It is downloaded.
    Download,
}

/// Decides how the default model is installed: it may be at its target, or at a
/// search location other than that (`is_target` says which is the same), or is to
/// be downloaded.
pub fn plan_install(
    target: &Option<ModelInfo>,
    inspected: &Vec<Option<ModelInfo>>,
    is_target: &Vec<bool>,
) -> (plan: InstallPlan)
    requires
        inspected.len() == is_target.len(),
    ensures
        is_valid_model(*target) ==> plan == InstallPlan::Present(target->0.size_bytes),
        !is_valid_model(*target) ==> match plan {
            InstallPlan::Present(_) => false,
            InstallPlan::Copy(k) => {
                &&& k < inspected.len()
                &&& is_valid_model(inspected@[k as int]) && !is_target@[k as int]
                &&& forall|i: int|
                    0 <= i < k ==> !is_valid_model(#[trigger] inspected@[i]) || is_target@[i]
            },
            InstallPlan::Download => forall|i: int|
                0 <= i < inspected.len() ==> !is_valid_model(#[trigger] inspected@[i])
                    || is_target@[i],
        },
{
    if let Some(info) = target {
        if info.is_valid {
            return InstallPlan::Present(info.size_bytes);
        }
    }
    let mut i: usize = 0;
    while i < inspected.len()
        invariant
            i <= inspected.len(),
            inspected.len() == is_target.len(),
            !is_valid_model(*target),
            forall|k: int|
                0 <= k < i ==> !is_valid_model(#[trigger] inspected@[k]) || is_target@[k],
        decreases inspected.len() - i,
    {
        if !is_target[i] {
            if let Some(info) = &inspected[i] {
                if info.is_valid {
                    return InstallPlan::Copy(i);
                }
            }
        }
        i += 1;
    }
    InstallPlan::Download
}

/// What is expected of a download whose length is not given.
pub const ASSUMED_MODEL_BYTES: u64 = 11500000;

/// What a read of the download gave.
#[derive(Debug)]
pub enum ReadEvent {
    /// So many bytes, none at the end
    Bytes(u64),
    /// Nothing yet: to be read again
    Interrupted,
    Failed(String),
}

/// What a read of the download calls for.
#[derive(Debug)]
pub enum DownloadStep {
    /// Writing the bytes, and reporting progress
    Write { downloaded: u64, total: u64 },
    /// Reading again
    Retry,
    /// Putting the file in its place
    Finish,
    /// Giving up
    Abort(String),
}

/// A download under way.
#[derive(Debug)]
pub struct Download {
    pub downloaded: u64,
    pub total: u64,
}

impl Download {
    /// A download of the length given, or of the assumed one.
    pub fn new(length: Option<u64>) -> (res: Self)
        ensures
            res.downloaded == 0,
            res.total == (match length {
                Some(n) => n,
                None => ASSUMED_MODEL_BYTES,
            }),
    {
        Download {
            downloaded: 0,
            total: match length {
                Some(n) => n,
                None => ASSUMED_MODEL_BYTES,
            },
        }
    }

    /// Goes on with what a read gave.
    pub fn step(&mut self, event: ReadEvent) -> (step: DownloadStep)
        requires
            event matches ReadEvent::Bytes(n) ==> old(self).downloaded + n <= u64::MAX,
        ensures
            final(self).total == old(self).total,
            final(self).downloaded == old(self).downloaded + (match event {
                ReadEvent::Bytes(n) => n as int,
                _ => 0int,
            }),
            match event {
                ReadEvent::Bytes(n) => if n == 0 {
                    step is Finish
                } else {
                    step == (DownloadStep::Write {
                        downloaded: final(self).downloaded,
                        total: old(self).total,
                    })
                },
                ReadEvent::Interrupted => step is Retry,
                ReadEvent::Failed(error) => step matches DownloadStep::Abort(text) && text@
                    == "Download stream read error: "@ + error@,
            },
    {
        match event {
            ReadEvent::Bytes(n) => {
                if n == 0 {
                    return DownloadStep::Finish;
                }
                self.downloaded = self.downloaded + n;
                DownloadStep::Write { downloaded: self.downloaded, total: self.total }
            },
            ReadEvent::Interrupted => DownloadStep::Retry,
            ReadEvent::Failed(error) => {
                let mut text: String = "Download stream read error: ".to_owned();
                text.append(error.as_str());
                DownloadStep::Abort(text)
            },
        }
    }
}

/// What the user is shown of an installation.
#[derive(Debug)]
pub struct InstallState {
    pub in_progress: bool,
    pub status: Option<String>,
    pub model_path: Option<String>,
}

impl InstallState {
    /// Begins an installation, unless one is under way.
    pub fn begin(&mut self) -> (begun: bool)
        ensures
            begun == !old(self).in_progress,
            final(self).in_progress,
            final(self).model_path == old(self).model_path,
            !begun ==> final(self).status == old(self).status,
            begun ==> (final(self).status matches Some(text) && text@
                == "Installing / Downloading model..."@),
    {
        if self.in_progress {
            return false;
        }
        self.in_progress = true;
        self.status = Some("Installing / Downloading model...".to_owned());
        true
    }

    /// Ends an installation, with the model's path or an error. Returns what is to
    /// be said of it.
    pub fn finish(&mut self, result: Result<String, String>) -> (said: String)
        ensures
            !final(self).in_progress,
            match result {
                Ok(path) => {
                    &&& final(self).model_path matches Some(p) && p@ == path@
                    &&& final(self).status matches Some(text) && text@ == "Model installed: "@
                        + path@
                    &&& said@ == "Installed AI model to "@ + path@
                },
                Err(error) => {
                    &&& final(self).model_path == old(self).model_path
                    &&& final(self).status matches Some(text) && text@ == "Download failed: "@
                        + error@
                    &&& said@ == "Model download error: "@ + error@
                },
            },
    {
        self.in_progress = false;
        match result {
            Ok(path) => {
                let mut text: String = "Model installed: ".to_owned();
                text.append(path.as_str());
                self.status = Some(text);
                let mut said: String = "Installed AI model to ".to_owned();
                said.append(path.as_str());
                self.model_path = Some(path);
                said
            },
            Err(error) => {
                let mut text: String = "Download failed: ".to_owned();
                text.append(error.as_str());
                self.status = Some(text);
                let mut said: String = "Model download error: ".to_owned();
                said.append(error.as_str());
                said
            },
        }
    }
}

/// A registered model in the neural suite. Its size is estimated in tenths of a
/// megabyte.
#[derive(Debug, Clone, Copy)]
pub struct ModelRegistryEntry {
    pub name: &'static str,
    pub filename: &'static str,
    pub description: &'static str,
    pub profile: AdaptiveProfile,
    pub download_url: &'static str,
    pub size_estimate_tenths: u32,
}

/// The registered model for a profile.
pub open spec fn registered(profile: AdaptiveProfile) -> ModelRegistryEntry {
    match profile {
        AdaptiveProfile::Economy => ModelRegistryEntry {
            name: "YOLO26-N (NMS-Free)",
            filename: "FunGen-26n-edge-1.0.0.onnx",
            description: "Ultra-fast direct head detector (1.7ms single-image latency, NMS-free)",
            profile,
            download_url: OFFICIAL_MODEL_URL,
            size_estimate_tenths: 85,
        },
        AdaptiveProfile::BalancedSpecialist => ModelRegistryEntry {
            name: "RF-DETR-Seg-S (Specialist)",
            filename: "RF-DETR-Seg-S-1.0.0.onnx",
            description: "Direct mask instance segmentation specialist (Pareto knee of accuracy/latency)",
            profile,
            download_url: OFFICIAL_MODEL_URL,
            size_estimate_tenths: 220,
        },
        AdaptiveProfile::GenericDefault => ModelRegistryEntry {
            name: "SAM 3.1 + TAPNext++ (Default)",
            filename: DEFAULT_MODEL_NAME,
            description: "Open-vocabulary promptable mask initialization + sparse point tracking",
            profile,
            download_url: OFFICIAL_MODEL_URL,
            size_estimate_tenths: 115,
        },
        AdaptiveProfile::DenseOffline => ModelRegistryEntry {
            name: "CoWTracker Dense Repair",
            filename: "CoWTracker-Dense-1.0.0.onnx",
            description: "Dense spatiotemporal correspondence repair branch for uncertain intervals",
            profile,
            download_url: "https://github.com/gamerman420691337-arch/Funscript-Hub/releases/download/v0.8.0-models/sam3.1_segmenter.onnx",
            size_estimate_tenths: 480,
        },
        AdaptiveProfile::GeometryHeavy3D => ModelRegistryEntry {
            name: "CoWTracker + 3D Reconstruction",
            filename: "cowtracker_3d.onnx",
            description: "Dense 3D visual-geometric reconstruction and occlusion surface solver.",
            profile,
            download_url: "https://github.com/gamerman420691337-arch/Funscript-Hub/releases/download/v0.8.0-models/cowtracker_3d.onnx",
            size_estimate_tenths: 620,
        },
    }
}

/// Catalog of supported ML models across the 5 adaptive profiles
pub fn model_registry() -> (entries: Vec<ModelRegistryEntry>)
    ensures
        entries@ == seq![
            registered(AdaptiveProfile::Economy),
            registered(AdaptiveProfile::BalancedSpecialist),
            registered(AdaptiveProfile::GenericDefault),
            registered(AdaptiveProfile::DenseOffline),
            registered(AdaptiveProfile::GeometryHeavy3D),
        ],
{
    let mut entries: Vec<ModelRegistryEntry> = Vec::new();
    entries.push(
        ModelRegistryEntry {
            name: "YOLO26-N (NMS-Free)",
            filename: "FunGen-26n-edge-1.0.0.onnx",
            description: "Ultra-fast direct head detector (1.7ms single-image latency, NMS-free)",
            profile: AdaptiveProfile::Economy,
            download_url: OFFICIAL_MODEL_URL,
            size_estimate_tenths: 85,
        },
    );
    entries.push(
        ModelRegistryEntry {
            name: "RF-DETR-Seg-S (Specialist)",
            filename: "RF-DETR-Seg-S-1.0.0.onnx",
            description: "Direct mask instance segmentation specialist (Pareto knee of accuracy/latency)",
            profile: AdaptiveProfile::BalancedSpecialist,
            download_url: OFFICIAL_MODEL_URL,
            size_estimate_tenths: 220,
        },
    );
    entries.push(
        ModelRegistryEntry {
            name: "SAM 3.1 + TAPNext++ (Default)",
            filename: DEFAULT_MODEL_NAME,
            description: "Open-vocabulary promptable mask initialization + sparse point tracking",
            profile: AdaptiveProfile::GenericDefault,
            download_url: OFFICIAL_MODEL_URL,
            size_estimate_tenths: 115,
        },
    );
    entries.push(
        ModelRegistryEntry {
            name: "CoWTracker Dense Repair",
            filename: "CoWTracker-Dense-1.0.0.onnx",
            description: "Dense spatiotemporal correspondence repair branch for uncertain intervals",
            profile: AdaptiveProfile::DenseOffline,
            download_url: "https://github.com/gamerman420691337-arch/Funscript-Hub/releases/download/v0.8.0-models/sam3.1_segmenter.onnx",
            size_estimate_tenths: 480,
        },
    );
    entries.push(
        ModelRegistryEntry {
            name: "CoWTracker + 3D Reconstruction",
            filename: "cowtracker_3d.onnx",
            description: "Dense 3D visual-geometric reconstruction and occlusion surface solver.",
            profile: AdaptiveProfile::GeometryHeavy3D,
            download_url: "https://github.com/gamerman420691337-arch/Funscript-Hub/releases/download/v0.8.0-models/cowtracker_3d.onnx",
            size_estimate_tenths: 620,
        },
    );
    entries
}

} // verus!
