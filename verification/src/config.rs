//! What the configuration file says, and the settings that follow from it and
//! from the command line.

use crate::encoder::{codec_named, Chroma, CodecKind};
use crate::text;
use vstd::prelude::*;

verus! {

/// The configuration file. All sections but the credentials have defaults.
#[derive(Debug, Clone)]
pub struct AppConfig {
    pub auth: AuthConfig,
    /// Audio device to capture; wins over that of the audio section.
    pub audio_device: Option<String>,
    pub server: ServerSection,
    pub capture: CaptureSection,
    pub encoder: EncoderSection,
    pub audio: AudioSection,
    pub logging: LoggingSection,
}

/// The login credentials.
#[derive(Debug, Clone)]
pub struct AuthConfig {
    pub username: String,
    pub password: String,
}

/// Listening address and static files.
#[derive(Debug, Clone)]
pub struct ServerSection {
    pub host: Option<String>,
    pub port: Option<u16>,
    pub static_dir: Option<String>,
}

/// Screen capture.
#[derive(Debug, Clone)]
pub struct CaptureSection {
    /// Monitor to capture; 0 is the primary one.
    pub default_monitor: Option<u8>,
    /// Name of the capture backend.
    pub capture_backend: Option<String>,
}

/// The capture backends.
#[derive(Debug, Clone, Copy, PartialEq, Eq, Structural)]
pub enum CaptureBackendKind {
    /// Desktop duplication through the `scrap` crate.
    Scrap,
    /// Windows.Graphics.Capture.
    Wgc,
    /// Direct DXGI.
    Dxgi,
}

/// Encoder defaults and named profiles.
#[derive(Debug, Clone)]
pub struct EncoderSection {
    /// The profile to use unless another is asked for.
    pub default_profile: Option<String>,
    /// Whether the server picks an encoder that works on the machine.
    pub auto_select: bool,
    /// The profiles, in the order of their names.
    pub profiles: Vec<NamedProfile>,
}

/// A profile and its name.
#[derive(Debug, Clone)]
pub struct NamedProfile {
    pub name: String,
    pub profile: EncoderProfile,
}

/// One encoder profile. What it leaves out comes from the defaults.
#[derive(Debug, Clone)]
pub struct EncoderProfile {
    pub encoder: Option<String>,
    pub codec: Option<String>,
    pub fps: Option<u32>,
    pub quality: Option<u8>,
    pub bitrate_kbps: Option<u32>,
    pub slices: Option<u32>,
    pub chroma: Option<String>,
}

/// Audio capture.
#[derive(Debug, Clone)]
pub struct AudioSection {
    pub default_device: Option<String>,
    pub sample_rate: Option<u32>,
    pub channels: Option<u8>,
}

/// Logging.
#[derive(Debug, Clone)]
pub struct LoggingSection {
    pub level: Option<String>,
    pub file: Option<String>,
}

/// The text behind an optional string.
pub open spec fn opt_text(s: Option<String>) -> Option<Seq<char>> {
    match s {
        Some(s) => Some(s@),
        None => None,
    }
}

// ── Defaults ───────────────────────────────────────────────────────

impl Default for AuthConfig {
    fn default() -> (r: Self)
        ensures
            r.username@ == Seq::<char>::empty(),
            r.password@ == Seq::<char>::empty(),
    {
        AuthConfig { username: String::new(), password: String::new() }
    }
}

impl Default for ServerSection {
    fn default() -> (r: Self)
        ensures
            r.host is None,
            r.port is None,
            r.static_dir is None,
    {
        ServerSection { host: None, port: None, static_dir: None }
    }
}

impl Default for CaptureSection {
    fn default() -> (r: Self)
        ensures
            r.default_monitor is None,
            r.capture_backend is None,
    {
        CaptureSection { default_monitor: None, capture_backend: None }
    }
}

impl Default for EncoderSection {
    fn default() -> (r: Self)
        ensures
            r.default_profile is None,
            r.auto_select,
            r.profiles@.len() == 0,
    {
        EncoderSection { default_profile: None, auto_select: true, profiles: Vec::new() }
    }
}

impl Default for EncoderProfile {
    fn default() -> (r: Self)
        ensures
            r.encoder is None,
            r.codec is None,
            r.fps is None,
            r.quality is None,
            r.bitrate_kbps is None,
            r.slices is None,
            r.chroma is None,
    {
        EncoderProfile {
            encoder: None,
            codec: None,
            fps: None,
            quality: None,
            bitrate_kbps: None,
            slices: None,
            chroma: None,
        }
    }
}

impl Default for AudioSection {
    fn default() -> (r: Self)
        ensures
            r.default_device is None,
            r.sample_rate is None,
            r.channels is None,
    {
        AudioSection { default_device: None, sample_rate: None, channels: None }
    }
}

impl Default for LoggingSection {
    fn default() -> (r: Self)
        ensures
            r.level is None,
            r.file is None,
    {
        LoggingSection { level: None, file: None }
    }
}

impl Default for AppConfig {
    fn default() -> (r: Self)
        ensures
            r.auth.username@ == Seq::<char>::empty(),
            r.auth.password@ == Seq::<char>::empty(),
            r.audio_device is None,
            r.server.host is None,
            r.server.port is None,
            r.server.static_dir is None,
            r.capture.default_monitor is None,
            r.capture.capture_backend is None,
            r.encoder.default_profile is None,
            r.encoder.auto_select,
            r.encoder.profiles@.len() == 0,
            r.audio.default_device is None,
            r.audio.sample_rate is None,
            r.audio.channels is None,
            r.logging.level is None,
            r.logging.file is None,
    {
        AppConfig {
            auth: AuthConfig::default(),
            audio_device: None,
            server: ServerSection::default(),
            capture: CaptureSection::default(),
            encoder: EncoderSection::default(),
            audio: AudioSection::default(),
            logging: LoggingSection::default(),
        }
    }
}

// ── Capture backend ────────────────────────────────────────────────

/// The backend with a name; the usual one for any name that is not known.
pub open spec fn backend_for(name: Option<Seq<char>>) -> CaptureBackendKind {
    match name {
        Some(n) => if n == "wgc"@ || n == "WGC"@ {
            CaptureBackendKind::Wgc
        } else if n == "dxgi"@ || n == "DXGI"@ {
            CaptureBackendKind::Dxgi
        } else {
            CaptureBackendKind::Scrap
        },
        None => CaptureBackendKind::Scrap,
    }
}

impl CaptureSection {
    /// The backend that is asked for; the usual one if none is, or if the name
    /// is not known.
    pub fn backend_kind(&self) -> (r: CaptureBackendKind)
        ensures
            r == backend_for(opt_text(self.capture_backend)),
    {
        match &self.capture_backend {
            Some(n) => {
                let n = n.as_str();
                if text::same(n, "wgc") || text::same(n, "WGC") {
                    CaptureBackendKind::Wgc
                } else if text::same(n, "dxgi") || text::same(n, "DXGI") {
                    CaptureBackendKind::Dxgi
                } else {
                    CaptureBackendKind::Scrap
                }
            },
            None => CaptureBackendKind::Scrap,
        }
    }
}

// ── Profiles ───────────────────────────────────────────────────────

impl EncoderSection {
    /// The profiles stand in the order of their names, no name twice.
    pub open spec fn well_formed(&self) -> bool {
        forall|i: int, j: int|
            0 <= i < j < self.profiles@.len() ==> text::precedes(
                (#[trigger] self.profiles@[i]).name@,
                (#[trigger] self.profiles@[j]).name@,
            )
    }

    /// The names of the profiles.
    pub open spec fn names(&self) -> Seq<Seq<char>> {
        Seq::new(self.profiles@.len(), |i: int| self.profiles@[i].name@)
    }

    /// Puts a profile under a name, in place of any that had it.
    pub fn insert_profile(&mut self, name: String, profile: EncoderProfile)
        requires
            old(self).well_formed(),
        ensures
            final(self).well_formed(),
            final(self).default_profile == old(self).default_profile,
            final(self).auto_select == old(self).auto_select,
            exists|k: int|
                0 <= k < final(self).profiles@.len() && (#[trigger] final(self).profiles@[k])
                    == (NamedProfile { name, profile }) && (if old(self).names().contains(name@) {
                    final(self).profiles@ == old(self).profiles@.update(k, final(self).profiles@[k])
                        && old(self).profiles@[k].name@ == name@
                } else {
                    final(self).profiles@ == old(self).profiles@.insert(k, final(self).profiles@[k])
                }),
    {
        let ghost before = self.profiles@;
        let ghost names = self.names();
        let mut k: usize = 0;
        while k < self.profiles.len() && text::comes_before(
            self.profiles[k].name.as_str(),
            name.as_str(),
        )
            invariant
                k <= self.profiles@.len(),
                *self == *old(self),
                forall|j: int|
                    0 <= j < k ==> text::precedes((#[trigger] self.profiles@[j]).name@, name@),
            decreases self.profiles@.len() - k,
        {
            k = k + 1;
        }
        let found: bool = k < self.profiles.len() && text::same(
            self.profiles[k].name.as_str(),
            name.as_str(),
        );
        let entry = NamedProfile { name, profile };
        let ghost entry_spec = entry;
        if found {
            self.profiles[k] = entry;
            proof {
                assert(names[k as int] == name@);
                assert(self.profiles@ =~= before.update(k as int, entry_spec));
                lemma_order_kept_update(before, k as int, entry_spec);
                assert(self.profiles@[k as int] == entry_spec);
            }
        } else {
            self.profiles.insert(k, entry);
            proof {
                assert forall|j: int| k <= j < before.len() implies text::precedes(
                    name@,
                    (#[trigger] before[j]).name@,
                ) by {
                    lemma_order_total(name@, before[k as int].name@);
                    if j > k {
                        assert(text::precedes(before[k as int].name@, before[j].name@));
                        lemma_order_transitive(name@, before[k as int].name@, before[j].name@);
                    }
                }
                assert(!names.contains(name@)) by {
                    if names.contains(name@) {
                        let j = choose|j: int| 0 <= j < names.len() && names[j] == name@;
                        assert(before[j].name@ == name@);
                        lemma_order_irreflexive(name@);
                    }
                }
                lemma_order_kept_insert(before, k as int, entry_spec);
                assert(self.profiles@[k as int] == entry_spec);
            }
        }
    }
}

pub(crate) proof fn lemma_order_irreflexive(a: Seq<char>)
    ensures
        !text::precedes(a, a),
    decreases a.len(),
{
    if a.len() > 0 {
        lemma_order_irreflexive(a.drop_first());
    }
}

proof fn lemma_order_total(a: Seq<char>, b: Seq<char>)
    ensures
        a == b || text::precedes(a, b) || text::precedes(b, a),
    decreases a.len(),
{
    if a.len() == 0 || b.len() == 0 {
        if a.len() == 0 && b.len() == 0 {
            assert(a =~= b);
        }
    } else if a[0] == b[0] {
        lemma_order_total(a.drop_first(), b.drop_first());
        if a.drop_first() == b.drop_first() {
            assert(a =~= seq![a[0]] + a.drop_first());
            assert(b =~= seq![b[0]] + b.drop_first());
        }
    } else {
        vstd::utf8::char_u32_cast(a[0], a[0] as u32);
        vstd::utf8::char_u32_cast(b[0], b[0] as u32);
    }
}

proof fn lemma_order_transitive(a: Seq<char>, b: Seq<char>, c: Seq<char>)
    requires
        text::precedes(a, b),
        text::precedes(b, c),
    ensures
        text::precedes(a, c),
    decreases a.len(),
{
    if a.len() > 0 && a[0] == b[0] && b[0] == c[0] {
        lemma_order_transitive(a.drop_first(), b.drop_first(), c.drop_first());
    }
}

spec fn ordered(v: Seq<NamedProfile>) -> bool {
    forall|i: int, j: int|
        0 <= i < j < v.len() ==> text::precedes((#[trigger] v[i]).name@, (#[trigger] v[j]).name@)
}

proof fn lemma_order_kept_update(v: Seq<NamedProfile>, k: int, e: NamedProfile)
    requires
        ordered(v),
        0 <= k < v.len(),
        v[k].name@ == e.name@,
    ensures
        ordered(v.update(k, e)),
{
    let w = v.update(k, e);
    assert forall|i: int, j: int| 0 <= i < j < w.len() implies text::precedes(
        (#[trigger] w[i]).name@,
        (#[trigger] w[j]).name@,
    ) by {
        assert(w[i].name@ == v[i].name@);
        assert(w[j].name@ == v[j].name@);
    }
}

proof fn lemma_order_kept_insert(v: Seq<NamedProfile>, k: int, e: NamedProfile)
    requires
        ordered(v),
        0 <= k <= v.len(),
        forall|j: int| 0 <= j < k ==> text::precedes((#[trigger] v[j]).name@, e.name@),
        forall|j: int| k <= j < v.len() ==> text::precedes(e.name@, (#[trigger] v[j]).name@),
    ensures
        ordered(v.insert(k, e)),
{
    let w = v.insert(k, e);
    assert forall|i: int, j: int| 0 <= i < j < w.len() implies text::precedes(
        (#[trigger] w[i]).name@,
        (#[trigger] w[j]).name@,
    ) by {
        let x = if i < k {
            i
        } else {
            i - 1
        };
        let y = if j < k {
            j
        } else {
            j - 1
        };
        if i != k {
            assert(w[i] == v[x]);
        }
        if j != k {
            assert(w[j] == v[y]);
        }
    }
}

/// Where the profile `name` stands, if there is one.
pub open spec fn profile_index(names: Seq<Seq<char>>, name: Seq<char>) -> Option<int> {
    if exists|i: int| 0 <= i < names.len() && names[i] == name {
        Some(choose|i: int| 0 <= i < names.len() && names[i] == name)
    } else {
        None
    }
}

/// The name to look a profile up by: the one asked for, else the default.
pub open spec fn profile_key(name: Option<Seq<char>>, default_profile: Option<Seq<char>>) -> Option<
    Seq<char>,
> {
    match name {
        Some(n) => Some(n),
        None => default_profile,
    }
}

/// Why a configuration is refused.
#[derive(Debug, Clone, Copy, PartialEq, Eq, Structural)]
pub struct EmptyCredentials;

impl EmptyCredentials {
    /// What to tell the operator.
    pub fn message(&self) -> (s: &'static str)
        ensures
            s@ == "auth.username and auth.password must not be empty"@,
    {
        "auth.username and auth.password must not be empty"
    }
}

impl AppConfig {
    /// Accepts a configuration that was read, if it has credentials.
    pub fn load(config: AppConfig) -> (r: Result<AppConfig, EmptyCredentials>)
        ensures
            match r {
                Ok(c) => c == config && config.auth.username@.len() > 0
                    && config.auth.password@.len() > 0,
                Err(_) => config.auth.username@.len() == 0 || config.auth.password@.len() == 0,
            },
    {
        if config.auth.username.as_str().is_empty() || config.auth.password.as_str().is_empty() {
            return Err(EmptyCredentials);
        }
        Ok(config)
    }

    /// The profile with the name that is asked for, else with the default one.
    pub fn profile(&self, name: Option<&str>) -> (r: Option<&EncoderProfile>)
        requires
            self.encoder.well_formed(),
        ensures
            ({
                let asked = match name {
                    Some(n) => Some(n@),
                    None => None,
                };
                match profile_key(asked, opt_text(self.encoder.default_profile)) {
                    None => r is None,
                    Some(key) => match profile_index(self.encoder.names(), key) {
                        None => r is None,
                        Some(i) => r == Some(&self.encoder.profiles@[i].profile),
                    },
                }
            }),
    {
        let key: &str = match name {
            Some(n) => n,
            None => match &self.encoder.default_profile {
                Some(d) => d.as_str(),
                None => return None,
            },
        };
        let ghost names = self.encoder.names();
        let ghost asked = match name {
            Some(n) => Some(n@),
            None => None,
        };
        let mut i: usize = 0;
        while i < self.encoder.profiles.len()
            invariant
                asked == (match name {
                    Some(n) => Some(n@),
                    None => None,
                }),
                profile_key(asked, opt_text(self.encoder.default_profile)) == Some(key@),
                i <= self.encoder.profiles@.len(),
                self.encoder.well_formed(),
                names == self.encoder.names(),
                forall|j: int| 0 <= j < i ==> names[j] != key@,
            decreases self.encoder.profiles@.len() - i,
        {
            if text::same(self.encoder.profiles[i].name.as_str(), key) {
                proof {
                    assert(names[i as int] == key@);
                    let k = profile_index(names, key@)->0;
                    assert(0 <= k < names.len() && names[k] == key@);
                    if k != i {
                        lemma_order_irreflexive(key@);
                        if k < i {
                            assert(text::precedes(
                                self.encoder.profiles@[k].name@,
                                self.encoder.profiles@[i as int].name@,
                            ));
                        } else {
                            assert(text::precedes(
                                self.encoder.profiles@[i as int].name@,
                                self.encoder.profiles@[k].name@,
                            ));
                        }
                    }
                }
                return Some(&self.encoder.profiles[i].profile);
            }
            i = i + 1;
        }
        None
    }
}

// ── Settings ───────────────────────────────────────────────────────

/// What the command line asks for.
#[derive(Debug, Clone)]
pub struct Overrides {
    pub encoder: Option<String>,
    pub codec: Option<String>,
    pub chroma: Option<String>,
    pub fps: Option<u32>,
    pub quality: Option<u8>,
    pub slices: Option<u32>,
    pub bitrate_kbps: Option<u32>,
    pub profile: Option<String>,
    pub audio_device: Option<String>,
}

/// The settings that the server runs with.
#[derive(Debug, Clone)]
pub struct Settings {
    pub encoder: String,
    pub codec: CodecKind,
    pub chroma: Chroma,
    pub fps: u32,
    pub quality: u8,
    pub slices: u32,
    pub bitrate_kbps: Option<u32>,
    pub audio_device: Option<String>,
}

/// What a [`Settings`] says.
pub struct SettingsModel {
    pub encoder: Seq<char>,
    pub codec: CodecKind,
    pub chroma: Chroma,
    pub fps: u32,
    pub quality: u8,
    pub slices: u32,
    pub bitrate_kbps: Option<u32>,
    pub audio_device: Option<Seq<char>>,
}

impl View for Settings {
    type V = SettingsModel;

    open spec fn view(&self) -> SettingsModel {
        SettingsModel {
            encoder: self.encoder@,
            codec: self.codec,
            chroma: self.chroma,
            fps: self.fps,
            quality: self.quality,
            slices: self.slices,
            bitrate_kbps: self.bitrate_kbps,
            audio_device: opt_text(self.audio_device),
        }
    }
}

/// Why settings are refused.
#[derive(Debug, Clone, PartialEq, Eq)]
pub enum SettingsError {
    /// The profile that was asked for is not there.
    UnknownProfile { name: String },
    UnknownCodec { name: String },
    UnknownChroma { name: String },
    ZeroSlices,
}

/// What a [`SettingsError`] says.
pub enum SettingsProblem {
    UnknownProfile { name: Seq<char> },
    UnknownCodec { name: Seq<char> },
    UnknownChroma { name: Seq<char> },
    ZeroSlices,
}

impl View for SettingsError {
    type V = SettingsProblem;

    open spec fn view(&self) -> SettingsProblem {
        match self {
            SettingsError::UnknownProfile { name } => SettingsProblem::UnknownProfile {
                name: name@,
            },
            SettingsError::UnknownCodec { name } => SettingsProblem::UnknownCodec { name: name@ },
            SettingsError::UnknownChroma { name } => SettingsProblem::UnknownChroma {
                name: name@,
            },
            SettingsError::ZeroSlices => SettingsProblem::ZeroSlices,
        }
    }
}

/// The message of a problem with the settings.
pub open spec fn settings_message(p: SettingsProblem) -> Seq<char> {
    match p {
        SettingsProblem::UnknownProfile { name } => "--profile '"@ + name
            + "' not found in config"@,
        SettingsProblem::UnknownCodec { name } => "Unknown --codec '"@ + name
            + "' (expected: h264, hevc, av1)"@,
        SettingsProblem::UnknownChroma { name } => "Unknown --chroma '"@ + name
            + "' (expected: 420 or 444)"@,
        SettingsProblem::ZeroSlices => "--slices must be >= 1"@,
    }
}

impl SettingsError {
    /// What to tell the operator.
    pub fn message(&self) -> (s: String)
        ensures
            s@ == settings_message(self@),
    {
        let mut s = String::new();
        match self {
            SettingsError::UnknownProfile { name } => {
                text::push_text(&mut s, "--profile '");
                text::push_text(&mut s, name.as_str());
                text::push_text(&mut s, "' not found in config");
            },
            SettingsError::UnknownCodec { name } => {
                text::push_text(&mut s, "Unknown --codec '");
                text::push_text(&mut s, name.as_str());
                text::push_text(&mut s, "' (expected: h264, hevc, av1)");
            },
            SettingsError::UnknownChroma { name } => {
                text::push_text(&mut s, "Unknown --chroma '");
                text::push_text(&mut s, name.as_str());
                text::push_text(&mut s, "' (expected: 420 or 444)");
            },
            SettingsError::ZeroSlices => {
                text::push_text(&mut s, "--slices must be >= 1");
            },
        }
        proof {
            assert(s@ =~= settings_message(self@));
        }
        s
    }
}

/// The first of three that is there, else `last`.
pub open spec fn first_of<T>(a: Option<T>, b: Option<T>, last: T) -> T {
    match a {
        Some(x) => x,
        None => match b {
            Some(x) => x,
            None => last,
        },
    }
}

/// The first of two that is there.
pub open spec fn either<T>(a: Option<T>, b: Option<T>) -> Option<T> {
    match a {
        Some(x) => Some(x),
        None => b,
    }
}

/// What a profile says, or nothing without one.
pub struct ProfileValues {
    pub encoder: Option<Seq<char>>,
    pub codec: Option<Seq<char>>,
    pub chroma: Option<Seq<char>>,
    pub fps: Option<u32>,
    pub quality: Option<u8>,
    pub slices: Option<u32>,
    pub bitrate_kbps: Option<u32>,
}

/// What an optional profile says.
pub open spec fn values_of(p: Option<EncoderProfile>) -> ProfileValues {
    match p {
        Some(p) => ProfileValues {
            encoder: opt_text(p.encoder),
            codec: opt_text(p.codec),
            chroma: opt_text(p.chroma),
            fps: p.fps,
            quality: p.quality,
            slices: p.slices,
            bitrate_kbps: p.bitrate_kbps,
        },
        None => ProfileValues {
            encoder: None,
            codec: None,
            chroma: None,
            fps: None,
            quality: None,
            slices: None,
            bitrate_kbps: None,
        },
    }
}

/// The codec with a name, where none is given that of the encoder.
pub open spec fn codec_choice(name: Option<Seq<char>>, encoder: Seq<char>) -> Option<CodecKind> {
    match name {
        None => Some(codec_named(encoder)),
        Some(n) => if n == "h264"@ {
            Some(CodecKind::H264)
        } else if n == "hevc"@ || n == "h265"@ {
            Some(CodecKind::Hevc)
        } else if n == "av1"@ {
            Some(CodecKind::Av1)
        } else {
            None
        },
    }
}

/// The chroma with a name.
pub open spec fn chroma_choice(name: Seq<char>) -> Option<Chroma> {
    if name == "420"@ || name == "yuv420"@ || name == "yuv420p"@ {
        Some(Chroma::Yuv420)
    } else if name == "444"@ || name == "yuv444"@ || name == "yuv444p"@ {
        Some(Chroma::Yuv444)
    } else {
        None
    }
}

/// The encoder to use: that of the command line, else that of the profile,
/// else the one picked for the machine, else H.264 on AMD.
pub open spec fn encoder_choice(
    o: Overrides,
    p: ProfileValues,
    picked: Option<Seq<char>>,
) -> Seq<char> {
    first_of(either(opt_text(o.encoder), p.encoder), picked, "h264_amf"@)
}

/// The audio device to capture: that of the command line, else the one at the
/// top of the configuration, else that of its audio section; an empty name is
/// none.
pub open spec fn audio_choice(
    cli: Option<Seq<char>>,
    top: Option<Seq<char>>,
    section: Option<Seq<char>>,
) -> Option<Seq<char>> {
    match either(either(cli, top), section) {
        Some(d) => if d.len() > 0 {
            Some(d)
        } else {
            None
        },
        None => None,
    }
}

/// The first problem with what the command line and a profile ask for.
pub open spec fn settings_problem(o: Overrides, p: Option<EncoderProfile>) -> Option<
    SettingsProblem,
> {
    let v = values_of(p);
    if o.profile is Some && p is None {
        Some(SettingsProblem::UnknownProfile { name: o.profile->0@ })
    } else if codec_choice(either(opt_text(o.codec), v.codec), Seq::empty()) is None {
        Some(SettingsProblem::UnknownCodec { name: either(opt_text(o.codec), v.codec)->0 })
    } else if chroma_choice(first_of(opt_text(o.chroma), v.chroma, "420"@)) is None {
        Some(
            SettingsProblem::UnknownChroma {
                name: first_of(opt_text(o.chroma), v.chroma, "420"@),
            },
        )
    } else if first_of(o.slices, v.slices, 1u32) == 0 {
        Some(SettingsProblem::ZeroSlices)
    } else {
        None
    }
}

fn own(s: &Option<String>) -> (r: Option<String>)
    ensures
        opt_text(r) == opt_text(*s),
{
    match s {
        Some(s) => Some(s.clone()),
        None => None,
    }
}

fn pick_text(a: &Option<String>, b: &Option<String>) -> (r: Option<String>)
    ensures
        opt_text(r) == either(opt_text(*a), opt_text(*b)),
{
    match a {
        Some(s) => Some(s.clone()),
        None => own(b),
    }
}

fn choose_codec(name: &Option<String>, encoder: &str) -> (r: Option<CodecKind>)
    ensures
        r == codec_choice(opt_text(*name), encoder@),
{
    match name {
        None => Some(CodecKind::from_encoder_name(encoder)),
        Some(n) => {
            let n = n.as_str();
            if text::same(n, "h264") {
                Some(CodecKind::H264)
            } else if text::same(n, "hevc") || text::same(n, "h265") {
                Some(CodecKind::Hevc)
            } else if text::same(n, "av1") {
                Some(CodecKind::Av1)
            } else {
                None
            }
        },
    }
}

fn choose_chroma(n: &str) -> (r: Option<Chroma>)
    ensures
        r == chroma_choice(n@),
{
    if text::same(n, "420") || text::same(n, "yuv420") || text::same(n, "yuv420p") {
        Some(Chroma::Yuv420)
    } else if text::same(n, "444") || text::same(n, "yuv444") || text::same(n, "yuv444p") {
        Some(Chroma::Yuv444)
    } else {
        None
    }
}

fn choose_audio(o: &Overrides, config: &AppConfig) -> (r: Option<String>)
    ensures
        opt_text(r) == audio_choice(
            opt_text(o.audio_device),
            opt_text(config.audio_device),
            opt_text(config.audio.default_device),
        ),
{
    let first = pick_text(&o.audio_device, &config.audio_device);
    match pick_text(&first, &config.audio.default_device) {
        Some(d) => {
            if d.as_str().is_empty() {
                None
            } else {
                Some(d)
            }
        },
        None => None,
    }
}

/// The profile that the command line and the configuration lead to.
pub open spec fn chosen_profile(o: Overrides, config: AppConfig) -> Option<EncoderProfile> {
    match profile_key(opt_text(o.profile), opt_text(config.encoder.default_profile)) {
        None => None,
        Some(key) => match profile_index(config.encoder.names(), key) {
            None => None,
            Some(i) => Some(config.encoder.profiles@[i].profile),
        },
    }
}

/// Whether the server picks an encoder for the machine: the configuration lets
/// it, and neither the command line nor the profile names one.
pub fn picks_encoder(o: &Overrides, config: &AppConfig) -> (r: bool)
    requires
        config.encoder.well_formed(),
    ensures
        r == (config.encoder.auto_select && o.encoder is None && values_of(
            chosen_profile(*o, *config),
        ).encoder is None),
{
    let asked: Option<&str> = match &o.profile {
        Some(n) => Some(n.as_str()),
        None => None,
    };
    let from_profile: bool = match config.profile(asked) {
        Some(p) => p.encoder.is_some(),
        None => false,
    };
    config.encoder.auto_select && o.encoder.is_none() && !from_profile
}

/// The encoder picked for the machine, where the configuration asks for one.
pub open spec fn allowed_pick(config: AppConfig, picked: Option<Seq<char>>) -> Option<Seq<char>> {
    if config.encoder.auto_select {
        picked
    } else {
        None
    }
}

/// The settings: what the command line says, else what the profile says, else
/// the defaults. Meant for choices without a problem.
pub open spec fn settled(
    o: Overrides,
    v: ProfileValues,
    config: AppConfig,
    picked: Option<Seq<char>>,
) -> SettingsModel {
    let encoder = encoder_choice(o, v, allowed_pick(config, picked));
    SettingsModel {
        encoder,
        codec: codec_choice(either(opt_text(o.codec), v.codec), encoder)->0,
        chroma: chroma_choice(first_of(opt_text(o.chroma), v.chroma, "420"@))->0,
        fps: first_of(o.fps, v.fps, 60u32),
        quality: first_of(o.quality, v.quality, 20u8),
        slices: first_of(o.slices, v.slices, 1u32),
        bitrate_kbps: either(o.bitrate_kbps, v.bitrate_kbps),
        audio_device: audio_choice(
            opt_text(o.audio_device),
            opt_text(config.audio_device),
            opt_text(config.audio.default_device),
        ),
    }
}

/// Works out the settings from the command line, the configuration and the
/// encoder that was picked for the machine.
pub fn resolve(o: &Overrides, config: &AppConfig, picked: Option<&str>) -> (r: Result<
    Settings,
    SettingsError,
>)
    requires
        config.encoder.well_formed(),
    ensures
        ({
            let p = chosen_profile(*o, *config);
            let auto = match picked {
                Some(n) => Some(n@),
                None => None,
            };
            match r {
                Ok(s) => settings_problem(*o, p) is None && s@ == settled(
                    *o,
                    values_of(p),
                    *config,
                    auto,
                ),
                Err(e) => settings_problem(*o, p) == Some(e@),
            }
        }),
{
    let asked: Option<&str> = match &o.profile {
        Some(n) => Some(n.as_str()),
        None => None,
    };
    let profile = config.profile(asked);
    if let Some(name) = &o.profile {
        if profile.is_none() {
            return Err(SettingsError::UnknownProfile { name: name.clone() });
        }
    }
    let none: Option<String> = None;
    let (p_encoder, p_codec, p_chroma, p_fps, p_quality, p_slices, p_bitrate) = match profile {
        Some(p) => (&p.encoder, &p.codec, &p.chroma, p.fps, p.quality, p.slices, p.bitrate_kbps),
        None => (&none, &none, &none, None, None, None, None),
    };
    let encoder = match pick_text(&o.encoder, p_encoder) {
        Some(e) => e,
        None => match picked {
            Some(n) if config.encoder.auto_select => n.to_owned(),
            _ => "h264_amf".to_owned(),
        },
    };
    let fps: u32 = match o.fps {
        Some(x) => x,
        None => p_fps.unwrap_or(60),
    };
    let quality: u8 = match o.quality {
        Some(x) => x,
        None => p_quality.unwrap_or(20),
    };
    let slices: u32 = match o.slices {
        Some(x) => x,
        None => p_slices.unwrap_or(1),
    };
    let bitrate_kbps: Option<u32> = match o.bitrate_kbps {
        Some(x) => Some(x),
        None => p_bitrate,
    };
    let codec_name = pick_text(&o.codec, p_codec);
    let codec = match choose_codec(&codec_name, encoder.as_str()) {
        Some(c) => c,
        None => {
            let name = match codec_name {
                Some(n) => n,
                None => String::new(),
            };
            return Err(SettingsError::UnknownCodec { name });
        },
    };
    let chroma_name = match pick_text(&o.chroma, p_chroma) {
        Some(n) => n,
        None => "420".to_owned(),
    };
    let chroma = match choose_chroma(chroma_name.as_str()) {
        Some(c) => c,
        None => return Err(SettingsError::UnknownChroma { name: chroma_name }),
    };
    if slices == 0 {
        return Err(SettingsError::ZeroSlices);
    }
    Ok(
        Settings {
            encoder,
            codec,
            chroma,
            fps,
            quality,
            slices,
            bitrate_kbps,
            audio_device: choose_audio(o, config),
        },
    )
}

// ── Laws ───────────────────────────────────────────────────────────

/// A profile is found by its name, and no other is.
pub proof fn law_profile_found_by_name(section: EncoderSection, k: int)
    requires
        section.well_formed(),
        0 <= k < section.profiles@.len(),
    ensures
        profile_index(section.names(), section.profiles@[k].name@) == Some(k),
{
    let names = section.names();
    let key = section.profiles@[k].name@;
    assert(names[k] == key);
    let i = profile_index(names, key)->0;
    assert(0 <= i < names.len() && names[i] == key);
    lemma_order_irreflexive(key);
    if i < k {
        assert(text::precedes(section.profiles@[i].name@, section.profiles@[k].name@));
    } else if k < i {
        assert(text::precedes(section.profiles@[k].name@, section.profiles@[i].name@));
    }
}

/// What the command line says stands, whatever the profile, the configuration
/// and the machine say.
pub proof fn law_command_line_wins(
    o: Overrides,
    v: ProfileValues,
    config: AppConfig,
    picked: Option<Seq<char>>,
)
    ensures
        o.encoder matches Some(e) ==> settled(o, v, config, picked).encoder == e@,
        o.codec matches Some(c) ==> settled(o, v, config, picked).codec == codec_choice(
            Some(c@),
            Seq::empty(),
        )->0,
        o.chroma matches Some(c) ==> settled(o, v, config, picked).chroma == chroma_choice(c@)->0,
        o.fps matches Some(n) ==> settled(o, v, config, picked).fps == n,
        o.quality matches Some(n) ==> settled(o, v, config, picked).quality == n,
        o.slices matches Some(n) ==> settled(o, v, config, picked).slices == n,
        o.bitrate_kbps matches Some(n) ==> settled(o, v, config, picked).bitrate_kbps == Some(n),
        opt_text(o.audio_device) matches Some(d) ==> d.len() == 0 || settled(
            o,
            v,
            config,
            picked,
        ).audio_device == Some(d),
{
}

/// What the profile says stands where the command line says nothing.
pub proof fn law_profile_comes_second(
    o: Overrides,
    v: ProfileValues,
    config: AppConfig,
    picked: Option<Seq<char>>,
)
    ensures
        o.encoder is None && v.encoder is Some ==> settled(o, v, config, picked).encoder
            == v.encoder->0,
        o.codec is None && v.codec is Some ==> settled(o, v, config, picked).codec == codec_choice(
            v.codec,
            Seq::empty(),
        )->0,
        o.chroma is None && v.chroma is Some ==> settled(o, v, config, picked).chroma
            == chroma_choice(v.chroma->0)->0,
        o.fps is None && v.fps is Some ==> settled(o, v, config, picked).fps == v.fps->0,
        o.quality is None && v.quality is Some ==> settled(o, v, config, picked).quality
            == v.quality->0,
        o.slices is None && v.slices is Some ==> settled(o, v, config, picked).slices
            == v.slices->0,
        o.bitrate_kbps is None ==> settled(o, v, config, picked).bitrate_kbps == v.bitrate_kbps,
{
}

/// The encoder picked for the machine counts only where neither the command
/// line nor the profile names one, and only if the configuration asks for it.
pub proof fn law_picked_encoder_comes_last(
    o: Overrides,
    v: ProfileValues,
    config: AppConfig,
    a: Option<Seq<char>>,
    b: Option<Seq<char>>,
)
    requires
        o.encoder is Some || v.encoder is Some || !config.encoder.auto_select,
    ensures
        settled(o, v, config, a) == settled(o, v, config, b),
{
}

/// Without a codec of its own, a stream has that of its encoder.
pub proof fn law_codec_follows_the_encoder(
    o: Overrides,
    v: ProfileValues,
    config: AppConfig,
    picked: Option<Seq<char>>,
)
    requires
        o.codec is None,
        v.codec is None,
    ensures
        settled(o, v, config, picked).codec == codec_named(settled(o, v, config, picked).encoder),
{
}

/// The codec names that are understood, and no others.
pub proof fn law_codec_names(name: Seq<char>, encoder: Seq<char>)
    ensures
        codec_choice(Some("h264"@), encoder) == Some(CodecKind::H264),
        codec_choice(Some("hevc"@), encoder) == Some(CodecKind::Hevc),
        codec_choice(Some("h265"@), encoder) == Some(CodecKind::Hevc),
        codec_choice(Some("av1"@), encoder) == Some(CodecKind::Av1),
        codec_choice(Some(name), encoder) is Some <==> seq![
            "h264"@,
            "hevc"@,
            "h265"@,
            "av1"@,
        ].contains(name),
        codec_choice(None, encoder) == Some(codec_named(encoder)),
{
    reveal_strlit("h264");
    reveal_strlit("hevc");
    reveal_strlit("h265");
    reveal_strlit("av1");
    assert("h264"@[1] == '2' && "h264"@[3] == '4');
    assert("hevc"@[1] == 'e' && "hevc"@[3] == 'c');
    assert("h265"@[1] == '2' && "h265"@[3] == '5');
    assert("av1"@[0] == 'a');
    let all = seq!["h264"@, "hevc"@, "h265"@, "av1"@];
    assert(all[0] == "h264"@ && all[1] == "hevc"@ && all[2] == "h265"@ && all[3] == "av1"@);
}

/// The names of the chroma formats that are understood, and no others.
pub proof fn law_chroma_names(name: Seq<char>)
    ensures
        chroma_choice("420"@) == Some(Chroma::Yuv420),
        chroma_choice("yuv420"@) == Some(Chroma::Yuv420),
        chroma_choice("yuv420p"@) == Some(Chroma::Yuv420),
        chroma_choice("444"@) == Some(Chroma::Yuv444),
        chroma_choice("yuv444"@) == Some(Chroma::Yuv444),
        chroma_choice("yuv444p"@) == Some(Chroma::Yuv444),
        chroma_choice(name) is Some <==> seq![
            "420"@,
            "yuv420"@,
            "yuv420p"@,
            "444"@,
            "yuv444"@,
            "yuv444p"@,
        ].contains(name),
{
    reveal_strlit("420");
    reveal_strlit("yuv420");
    reveal_strlit("yuv420p");
    reveal_strlit("444");
    reveal_strlit("yuv444");
    reveal_strlit("yuv444p");
    assert("420"@[1] == '2' && "444"@[1] == '4');
    assert("yuv420"@[4] == '2' && "yuv444"@[4] == '4');
    assert("yuv420p"@[4] == '2' && "yuv444p"@[4] == '4');
    let all = seq!["420"@, "yuv420"@, "yuv420p"@, "444"@, "yuv444"@, "yuv444p"@];
    assert(all[0] == "420"@ && all[1] == "yuv420"@ && all[2] == "yuv420p"@);
    assert(all[3] == "444"@ && all[4] == "yuv444"@ && all[5] == "yuv444p"@);
}

/// What is settled where nobody says anything: the encoder picked for the
/// machine, or else h264_amf, at 60 frames a second, quality 20, one slice and
/// 4:2:0, without a bitrate.
pub proof fn law_defaults(
    o: Overrides,
    v: ProfileValues,
    config: AppConfig,
    picked: Option<Seq<char>>,
)
    ensures
        ({
            let s = settled(o, v, config, picked);
            let unnamed = o.encoder is None && v.encoder is None;
            &&& unnamed && config.encoder.auto_select && picked is Some ==> s.encoder == picked->0
            &&& unnamed && (picked is None || !config.encoder.auto_select) ==> s.encoder
                == "h264_amf"@
            &&& o.fps is None && v.fps is None ==> s.fps == 60
            &&& o.quality is None && v.quality is None ==> s.quality == 20
            &&& o.slices is None && v.slices is None ==> s.slices == 1
            &&& o.chroma is None && v.chroma is None ==> s.chroma == Chroma::Yuv420
            &&& o.bitrate_kbps is None && v.bitrate_kbps is None ==> s.bitrate_kbps is None
        }),
{
    law_chroma_names("420"@);
}

/// The audio device is the one that the command line names, else the one that
/// the configuration names, else the one of its audio section. The first of
/// them that says anything decides, and an empty name turns audio off.
pub proof fn law_audio_device(
    o: Overrides,
    v: ProfileValues,
    config: AppConfig,
    picked: Option<Seq<char>>,
)
    ensures
        ({
            let device = settled(o, v, config, picked).audio_device;
            let decides = |name: Option<String>|
                name is Some && device == (if name->0@.len() == 0 {
                    None
                } else {
                    Some(name->0@)
                });
            &&& o.audio_device is Some ==> decides(o.audio_device)
            &&& o.audio_device is None && config.audio_device is Some ==> decides(
                config.audio_device,
            )
            &&& o.audio_device is None && config.audio_device is None
                && config.audio.default_device is Some ==> decides(config.audio.default_device)
            &&& o.audio_device is None && config.audio_device is None
                && config.audio.default_device is None ==> device is None
        }),
{
}

/// A profile counts for what it says, value by value; without one nothing is
/// said.
pub proof fn law_profile_values(p: EncoderProfile)
    ensures
        values_of(Some(p)).fps == p.fps,
        values_of(Some(p)).quality == p.quality,
        values_of(Some(p)).slices == p.slices,
        values_of(Some(p)).bitrate_kbps == p.bitrate_kbps,
        p.encoder is Some ==> values_of(Some(p)).encoder == Some(p.encoder->0@),
        p.codec is Some ==> values_of(Some(p)).codec == Some(p.codec->0@),
        p.chroma is Some ==> values_of(Some(p)).chroma == Some(p.chroma->0@),
        p.encoder is None ==> values_of(Some(p)).encoder is None,
        p.codec is None ==> values_of(Some(p)).codec is None,
        p.chroma is None ==> values_of(Some(p)).chroma is None,
        values_of(None).fps is None && values_of(None).quality is None && values_of(None).slices
            is None && values_of(None).bitrate_kbps is None,
        values_of(None).encoder is None && values_of(None).codec is None && values_of(None).chroma
            is None,
{
}

/// The profile that counts is the one that the command line names, else the
/// default one of the configuration; without a name, or with one that there is
/// not, there is none.
pub proof fn law_chosen_profile(o: Overrides, config: AppConfig, k: int)
    requires
        config.encoder.well_formed(),
        0 <= k < config.encoder.profiles@.len(),
    ensures
        o.profile is Some && o.profile->0@ == config.encoder.profiles@[k].name@ ==> chosen_profile(
            o,
            config,
        ) == Some(config.encoder.profiles@[k].profile),
        o.profile is None && config.encoder.default_profile is Some
            && config.encoder.default_profile->0@ == config.encoder.profiles@[k].name@
            ==> chosen_profile(o, config) == Some(config.encoder.profiles@[k].profile),
        o.profile is None && config.encoder.default_profile is None ==> chosen_profile(o, config)
            is None,
        o.profile is Some && (forall|j: int|
            0 <= j < config.encoder.profiles@.len() ==> (
            #[trigger] config.encoder.profiles@[j]).name@ != o.profile->0@) ==> chosen_profile(
            o,
            config,
        ) is None,
{
    law_profile_found_by_name(config.encoder, k);
    if o.profile is Some && (forall|j: int|
        0 <= j < config.encoder.profiles@.len() ==> (#[trigger] config.encoder.profiles@[j]).name@
            != o.profile->0@) {
        let names = config.encoder.names();
        let key = o.profile->0@;
        assert forall|j: int| 0 <= j < names.len() implies names[j] != key by {
            assert(names[j] == config.encoder.profiles@[j].name@);
        }
    }
}

/// The first thing wrong with the settings is reported: a profile that there is
/// not, then a codec that is not understood, then a chroma format that is not,
/// then no slices at all. Where the command line says nothing, the profile's
/// word counts.
pub proof fn law_first_settings_problem(o: Overrides, p: Option<EncoderProfile>)
    ensures
        ({
            let v = values_of(p);
            let codec = if o.codec is Some {
                opt_text(o.codec)
            } else {
                v.codec
            };
            let chroma = if o.chroma is Some {
                opt_text(o.chroma)
            } else {
                v.chroma
            };
            let slices = if o.slices is Some {
                o.slices
            } else {
                v.slices
            };
            let found = o.profile is None || p is Some;
            let coded = codec is None || seq!["h264"@, "hevc"@, "h265"@, "av1"@].contains(codec->0);
            let coloured = chroma is None || seq![
                "420"@,
                "yuv420"@,
                "yuv420p"@,
                "444"@,
                "yuv444"@,
                "yuv444p"@,
            ].contains(chroma->0);
            let sliced = slices is None || slices->0 > 0;
            let problem = settings_problem(o, p);
            &&& problem is None <==> found && coded && coloured && sliced
            &&& !found ==> problem == Some(SettingsProblem::UnknownProfile { name: o.profile->0@ })
            &&& found && !coded ==> problem == Some(SettingsProblem::UnknownCodec { name: codec->0 })
            &&& found && coded && !coloured ==> problem == Some(
                SettingsProblem::UnknownChroma { name: chroma->0 },
            )
            &&& found && coded && coloured && !sliced ==> problem == Some(
                SettingsProblem::ZeroSlices,
            )
        }),
{
    let v = values_of(p);
    let codec = either(opt_text(o.codec), v.codec);
    if codec is Some {
        law_codec_names(codec->0, Seq::empty());
    } else {
        law_codec_names(Seq::empty(), Seq::empty());
    }
    law_chroma_names(first_of(opt_text(o.chroma), v.chroma, "420"@));
}

/// The capture backends that can be asked for by name, in lower or upper case;
/// everything else means the portable one.
pub proof fn law_backend_names(name: Seq<char>)
    ensures
        backend_for(Some("wgc"@)) == CaptureBackendKind::Wgc,
        backend_for(Some("WGC"@)) == CaptureBackendKind::Wgc,
        backend_for(Some("dxgi"@)) == CaptureBackendKind::Dxgi,
        backend_for(Some("DXGI"@)) == CaptureBackendKind::Dxgi,
        name != "wgc"@ && name != "WGC"@ && name != "dxgi"@ && name != "DXGI"@ ==> backend_for(
            Some(name),
        ) == CaptureBackendKind::Scrap,
        backend_for(None) == CaptureBackendKind::Scrap,
{
    reveal_strlit("wgc");
    reveal_strlit("WGC");
    reveal_strlit("dxgi");
    reveal_strlit("DXGI");
    assert("wgc"@.len() == 3 && "WGC"@.len() == 3 && "dxgi"@.len() == 4 && "DXGI"@.len() == 4);
}

/// What is said of each problem with the settings.
pub proof fn law_settings_messages(name: Seq<char>)
    ensures
        settings_message((SettingsProblem::UnknownProfile { name })) == "--profile '"@ + name
            + "' not found in config"@,
        settings_message((SettingsProblem::UnknownCodec { name })) == "Unknown --codec '"@ + name
            + "' (expected: h264, hevc, av1)"@,
        settings_message((SettingsProblem::UnknownChroma { name })) == "Unknown --chroma '"@ + name
            + "' (expected: 420 or 444)"@,
        settings_message(SettingsProblem::ZeroSlices) == "--slices must be >= 1"@,
{
}

} // verus!
